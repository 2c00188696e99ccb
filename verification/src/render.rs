//! What a cell looks like: its character and the numbers of its colours.

use vstd::prelude::*;
use crate::cell::{forced, get_v, is_e, is_o, mined, opened, value};
use crate::field::{exploded_of, success_of, MineField};

verus! {

/// `L`, the character of a closed cell.
pub const FACE_CLOSED: u8 = 0x4c;

/// `*`, the character of the mine that exploded under the cursor.
pub const FACE_BURST: u8 = 0x2a;

/// `+`, the character of the cursor in the highlighted half of the blink
/// period.
pub const FACE_BLINK: u8 = 0x2b;

/// `_`, the character of an opened cell without a mine around it.
pub const FACE_EMPTY: u8 = 0x5f;

/// `@`, the character of an opened mine.
pub const FACE_MINE: u8 = 0x40;

/// `.`, the character of a value that the game does not use.
pub const FACE_SKIP: u8 = 0x2e;

/// The character of a cell away from the cursor: `L` while it is closed,
/// then `_` for 0, the digit for 1 to 8, and `@` for a mine.
pub open spec fn face(u: u8) -> u8 {
    if !opened(u) {
        FACE_CLOSED
    } else if value(u) == 0 {
        FACE_EMPTY
    } else if value(u) <= 8 {
        (0x30 + value(u)) as u8
    } else if value(u) == 15 {
        FACE_MINE
    } else {
        FACE_SKIP
    }
}

/// The numbers of the background and foreground colours of a cell: 4 and 5
/// where it was opened by force, 2 and 3 where the player opened it, 0 and 1
/// while it is closed.
pub open spec fn colours(u: u8) -> (u16, u16) {
    if forced(u) {
        (4, 5)
    } else if opened(u) {
        (2, 3)
    } else {
        (0, 1)
    }
}

impl MineField {
    /// The character at a position. Away from the cursor, and after a
    /// success, it is the face of the cell. Under the cursor, a mine after
    /// the explosion is `*`, and a closed cell in the highlighted half of the
    /// blink period is `+`.
    pub open spec fn glyph_at(&self, r: int, c: int) -> u8 {
        let u = self.cell(r, c);
        if !(r == self.r && c == self.c) || success_of(self.s) {
            face(u)
        } else if exploded_of(self.s) && mined(u) {
            FACE_BURST
        } else if self.t >= self.b / 2 && !opened(u) {
            FACE_BLINK
        } else {
            face(u)
        }
    }

    /// The character and the two colour numbers of the cell at a position.
    pub fn glyph(&self, r: u16, c: u16) -> (g: (u8, u16, u16))
        requires
            self.shaped(),
            r < self.h,
            c < self.w,
        ensures
            g.0 == self.glyph_at(r as int, c as int),
            (g.1, g.2) == colours(self.cell(r as int, c as int)),
            success_of(self.s) || opened(self.cell(r as int, c as int)) ==> g.0 != FACE_BLINK,
    {
        let u: u8 = self.get(r, c);
        let v: u8 = get_v(u);
        let n: u8 = if !is_o(u) {
            FACE_CLOSED
        } else if v == 0 {
            FACE_EMPTY
        } else if v <= 8 {
            0x30 + v
        } else if v == 15 {
            FACE_MINE
        } else {
            FACE_SKIP
        };
        let at_cursor: bool = r == self.r && c == self.c;
        let o: u8 = if !at_cursor || self.is_success() {
            n
        } else if self.is_explosion() && v == 15 {
            FACE_BURST
        } else if self.is_blink() && !is_o(u) {
            FACE_BLINK
        } else {
            n
        };
        if is_e(u) {
            (o, 4, 5)
        } else if is_o(u) {
            (o, 2, 3)
        } else {
            (o, 0, 1)
        }
    }
}

} // verus!
