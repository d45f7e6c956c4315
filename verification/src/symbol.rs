//! The eight instruction symbols, as their byte values.
//!
//! Any other byte in a program is a comment character and a no-op.

use vstd::prelude::*;

verus! {

/// `>` — move the cursor one cell to the right.
pub const CURSOR_RIGHT: u8 = 62;

/// `<` — move the cursor one cell to the left.
pub const CURSOR_LEFT: u8 = 60;

/// `+` — add one to the current cell, wrapping.
pub const CELL_INC: u8 = 43;

/// `-` — take one from the current cell, wrapping.
pub const CELL_DEC: u8 = 45;

/// `[` — enter the loop when the current cell is non-zero, else skip past
/// the matching close.
pub const LOOP_OPEN: u8 = 91;

/// `]` — leave the loop when the current cell is zero, else jump back to
/// the matching open.
pub const LOOP_CLOSE: u8 = 93;

/// `,` — read one byte of input into the current cell.
pub const INPUT: u8 = 44;

/// `.` — append the current cell to the output.
pub const OUTPUT: u8 = 46;

/// Whether `c` is one of the eight instruction symbols.
pub open spec fn is_instruction(c: u8) -> bool {
    ||| c == CURSOR_RIGHT
    ||| c == CURSOR_LEFT
    ||| c == CELL_INC
    ||| c == CELL_DEC
    ||| c == LOOP_OPEN
    ||| c == LOOP_CLOSE
    ||| c == INPUT
    ||| c == OUTPUT
}

/// Whether the instruction `c` reads or writes the cell under the cursor.
/// Exactly these instructions demand that the cursor be on the tape.
pub open spec fn accesses_cell(c: u8) -> bool {
    ||| c == CELL_INC
    ||| c == CELL_DEC
    ||| c == LOOP_OPEN
    ||| c == LOOP_CLOSE
    ||| c == INPUT
    ||| c == OUTPUT
}

} // verus!
