[package]
name = "atahos"
version = "0.1.0"
edition = "2021"
publish = false

[dependencies]
com_logger = "=0.1.2"
limine = "=0.5.0"
log = "=0.4.34"
spin = "=0.12.3"
talc = { version = "=4.4.3", default-features = false, features = ["lock_api"] }
