use atahos::console::{Console, VGA_ATTRIBUTE, VGA_BUFFER_LEN};

const ROW: usize = 160; // bytes per text row: 80 cells of 2 bytes

#[test]
fn new_console_is_blank() {
    let c = Console::new();
    assert_eq!(c.buffer().len(), VGA_BUFFER_LEN);
    assert!(c.buffer().iter().all(|&b| b == 0));
}

#[test]
fn writes_characters_with_attribute() {
    let mut c = Console::new();
    c.write_str(b"AB");
    let buf = c.buffer();
    assert_eq!(buf[0], b'A');
    assert_eq!(buf[1], VGA_ATTRIBUTE);
    assert_eq!(buf[2], b'B');
    assert_eq!(buf[3], VGA_ATTRIBUTE);
    assert_eq!(buf[4], 0);
}

#[test]
fn newline_moves_to_next_row() {
    let mut c = Console::new();
    c.write_str(b"A\nB");
    let buf = c.buffer();
    assert_eq!(buf[0], b'A');
    assert_eq!(buf[ROW], b'B');
    assert_eq!(buf[ROW + 1], VGA_ATTRIBUTE);
}

#[test]
fn long_line_wraps_to_next_row() {
    let mut c = Console::new();
    c.write_str(&[b'x'; 81]);
    let buf = c.buffer();
    assert_eq!(buf[2 * 79], b'x'); // last column of the first row
    assert_eq!(buf[ROW], b'x'); // wrapped onto the second row
    assert_eq!(buf[ROW + 2], 0);
}

#[test]
fn writing_past_last_row_scrolls() {
    let mut c = Console::new();
    // Put the cursor on the last row, mark it, then force one scroll.
    c.write_str(&[b'\n'; 24]);
    c.write_str(b"X");
    let buf = c.buffer();
    assert_eq!(buf[24 * ROW], b'X');
    c.write_str(b"\nY");
    let buf = c.buffer();
    // The marked row moved up by one; the new output lands on the last row.
    assert_eq!(buf[23 * ROW], b'X');
    assert_eq!(buf[24 * ROW], b'Y');
}

#[test]
fn clear_blanks_buffer_and_resets_cursor() {
    let mut c = Console::new();
    c.write_str(b"hello\nworld");
    c.clear();
    assert!(c.buffer().iter().all(|&b| b == 0));
    c.write_str(b"Z");
    assert_eq!(c.buffer()[0], b'Z');
}
