//! Legacy text-mode console.
//!
//! The console renders into a shadow of the 80x25 legacy text buffer: two
//! bytes per cell, character then attribute, row-major. The embedding owns
//! the real buffer at its fixed physical address and copies the shadow
//! onto it; none of the logic here depends on that address. Writing past
//! the last column wraps to the next row, and writing past the last row
//! scrolls every row up by one, leaving the cursor on the last row.

use vstd::prelude::*;

verus! {

/// Text columns of the legacy buffer.
pub const VGA_WIDTH: usize = 80;

/// Text rows of the legacy buffer.
pub const VGA_HEIGHT: usize = 25;

/// Bytes of the legacy buffer: two per cell, character then attribute.
pub const VGA_BUFFER_LEN: usize = 4000;

/// Attribute byte written for every character: white on black.
pub const VGA_ATTRIBUTE: u8 = 0x0f;

/// Mathematical state of a console: the cell bytes and the cursor.
pub struct ConsoleModel {
    pub cells: Seq<u8>,
    pub row: int,
    pub col: int,
}

/// Scrolling: a cursor that has run past the last row moves every row up
/// by one (the last row keeps its old contents until overwritten) and
/// lands on the last row; any other cursor is left alone.
pub open spec fn spec_scroll(m: ConsoleModel) -> ConsoleModel {
    if m.row < VGA_HEIGHT {
        m
    } else {
        ConsoleModel {
            cells: Seq::new(
                VGA_BUFFER_LEN as nat,
                |i: int|
                    if i < VGA_BUFFER_LEN - 2 * VGA_WIDTH {
                        m.cells[i + 2 * VGA_WIDTH]
                    } else {
                        m.cells[i]
                    },
            ),
            row: VGA_HEIGHT - 1,
            col: m.col,
        }
    }
}

/// One byte of output: a line feed moves the cursor to the start of the
/// next row; any other byte lands at the cursor with the fixed attribute
/// and advances it, wrapping to the next row after the last column. Both
/// row advances scroll when they run past the last row.
pub open spec fn spec_put_byte(m: ConsoleModel, byte: u8) -> ConsoleModel {
    if byte == 0x0a {
        spec_scroll(ConsoleModel { cells: m.cells, row: m.row + 1, col: 0 })
    } else {
        let pos = m.row * (2 * VGA_WIDTH) + m.col * 2;
        let cells = m.cells.update(pos, byte).update(pos + 1, VGA_ATTRIBUTE);
        if m.col + 1 >= VGA_WIDTH {
            spec_scroll(ConsoleModel { cells: cells, row: m.row + 1, col: 0 })
        } else {
            ConsoleModel { cells: cells, row: m.row, col: m.col + 1 }
        }
    }
}

/// Folds `spec_put_byte` over a byte sequence, first byte first.
pub open spec fn spec_write_bytes(m: ConsoleModel, bytes: Seq<u8>) -> ConsoleModel
    decreases bytes.len(),
{
    if bytes.len() == 0 {
        m
    } else {
        spec_put_byte(spec_write_bytes(m, bytes.drop_last()), bytes.last())
    }
}

/// Text console over a shadow of the legacy buffer.
pub struct Console {
    cells: Vec<u8>,
    row: usize,
    col: usize,
}

impl View for Console {
    type V = ConsoleModel;

    closed spec fn view(&self) -> ConsoleModel {
        ConsoleModel { cells: self.cells@, row: self.row as int, col: self.col as int }
    }
}

impl Console {
    /// Internal invariant: a full-size buffer and an in-bounds cursor.
    pub closed spec fn wf(&self) -> bool {
        &&& self.cells@.len() == VGA_BUFFER_LEN
        &&& self.row < VGA_HEIGHT
        &&& self.col < VGA_WIDTH
    }

    /// Creates a console with a zeroed buffer and the cursor at the top
    /// left.
    pub fn new() -> (r: Console)
        ensures
            r.wf(),
            r@.row == 0,
            r@.col == 0,
            r@.cells.len() == VGA_BUFFER_LEN,
            forall|i: int| 0 <= i < VGA_BUFFER_LEN ==> r@.cells[i] == 0,
    {
        let mut cells: Vec<u8> = Vec::new();
        let mut i: usize = 0;
        while i < VGA_BUFFER_LEN
            invariant
                i <= VGA_BUFFER_LEN,
                cells@.len() == i,
                forall|j: int| 0 <= j < i ==> cells@[j] == 0,
            decreases VGA_BUFFER_LEN - i,
        {
            cells.push(0);
            i = i + 1;
        }
        Console { cells, row: 0, col: 0 }
    }

    /// Moves every row up by one when the cursor has run past the last
    /// row, then parks the cursor on the last row; does nothing otherwise.
    #[verifier::loop_isolation(false)]
    fn scroll(&mut self)
        requires
            old(self).cells@.len() == VGA_BUFFER_LEN,
            old(self).row <= VGA_HEIGHT,
            old(self).col < VGA_WIDTH,
        ensures
            final(self)@ == spec_scroll(old(self)@),
            final(self).wf(),
    {
        if self.row < VGA_HEIGHT {
            return ;
        }
        let shifted: usize = VGA_BUFFER_LEN - 2 * VGA_WIDTH;
        let mut i: usize = 0;
        while i < shifted
            invariant
                i <= shifted,
                self.cells@.len() == VGA_BUFFER_LEN,
                self.row == old(self).row,
                self.col == old(self).col,
                forall|j: int| 0 <= j < i ==> self.cells@[j] == old(self).cells@[j + 2 * VGA_WIDTH],
                forall|j: int| i <= j < VGA_BUFFER_LEN ==> self.cells@[j] == old(self).cells@[j],
            decreases shifted - i,
        {
            let b = self.cells[i + 2 * VGA_WIDTH];
            self.cells[i] = b;
            i = i + 1;
        }
        self.row = VGA_HEIGHT - 1;
        proof {
            assert(self@.cells =~= spec_scroll(old(self)@).cells);
        }
    }

    /// Writes the bytes of a string: line feeds start a new row, anything
    /// else is printed at the cursor in white on black, wrapping at the
    /// last column and scrolling past the last row.
    #[verifier::loop_isolation(false)]
    pub fn write_str(&mut self, s: &[u8])
        requires
            old(self).wf(),
        ensures
            final(self).wf(),
            final(self)@ == spec_write_bytes(old(self)@, s@),
    {
        let n = s.len();
        let mut idx: usize = 0;
        while idx < n
            invariant
                idx <= n,
                self.wf(),
                self@ == spec_write_bytes(old(self)@, s@.take(idx as int)),
            decreases n - idx,
        {
            let byte = s[idx];
            proof {
                assert(s@.take(idx as int + 1).drop_last() =~= s@.take(idx as int));
                assert(s@.take(idx as int + 1).last() == s@[idx as int]);
            }
            if byte == 0x0a {
                self.col = 0;
                self.row = self.row + 1;
                self.scroll();
            } else {
                let pos = self.row * (2 * VGA_WIDTH) + self.col * 2;
                self.cells[pos] = byte;
                self.cells[pos + 1] = VGA_ATTRIBUTE;
                self.col = self.col + 1;
                if self.col >= VGA_WIDTH {
                    self.col = 0;
                    self.row = self.row + 1;
                    self.scroll();
                }
            }
            idx = idx + 1;
        }
        proof {
            assert(s@.take(n as int) =~= s@);
        }
    }

    /// Zeroes the whole buffer and returns the cursor to the top left.
    pub fn clear(&mut self)
        requires
            old(self)@.cells.len() == VGA_BUFFER_LEN,
        ensures
            final(self).wf(),
            final(self)@.row == 0,
            final(self)@.col == 0,
            final(self)@.cells.len() == VGA_BUFFER_LEN,
            forall|i: int| 0 <= i < VGA_BUFFER_LEN ==> final(self)@.cells[i] == 0,
    {
        let mut i: usize = 0;
        while i < VGA_BUFFER_LEN
            invariant
                i <= VGA_BUFFER_LEN,
                self.cells@.len() == VGA_BUFFER_LEN,
                forall|j: int| 0 <= j < i ==> self.cells@[j] == 0,
            decreases VGA_BUFFER_LEN - i,
        {
            self.cells[i] = 0;
            i = i + 1;
        }
        self.row = 0;
        self.col = 0;
    }

    /// The shadow buffer, for the embedding to copy onto the real one and
    /// for inspection.
    pub fn buffer(&self) -> (r: &Vec<u8>)
        ensures
            r@ == self@.cells,
    {
        &self.cells
    }
}

} // verus!
