//! Selecting a cell: the rules that decide between a step that changes
//! nothing, an explosion, and an opening that may end the game in success.

use vstd::prelude::*;
use crate::cell::{lemma_open, lemma_plain, mined, opened, value};
use crate::field::{count_of, exploded_of, lemma_status, success_of, MineField, EXPLODED};
use crate::flood::{chain, flooded, lemma_reach_start, reach, step};
use crate::grid::{
    at, counted, inside, lemma_counted_same, lemma_index, lemma_mines_same, lemma_zero_is_safe,
    played_cells,
};
use crate::placement::layout;

verus! {

/// Board `f1` with status `s1` is what selecting row `r`, column `c` makes of
/// board `f0` with status `s0`, on a field for `m` mines.
///
/// After the end of the game, and on an opened cell, nothing changes. On a
/// mine the status gets the exploded bit. Any other cell is opened with all
/// that the flood from it gets to; the status then counts the cells that the
/// player opened, and has the success bit exactly when that count and `m` add
/// up to the number of cells.
pub open spec fn probed(
    f0: Seq<u8>,
    s0: u16,
    m: int,
    w: int,
    h: int,
    r: int,
    c: int,
    f1: Seq<u8>,
    s1: u16,
) -> bool {
    if s0 >= 0x4000 || opened(at(f0, w, r, c)) {
        f1 == f0 && s1 == s0
    } else if mined(at(f0, w, r, c)) {
        f1 == f0 && s1 == s0 | EXPLODED
    } else {
        &&& flooded(f0, f1, w, h, r, c)
        &&& !exploded_of(s1)
        &&& count_of(s1) == played_cells(f1)
        &&& success_of(s1) <==> played_cells(f1) + m == w * h
    }
}

/// Field `b` is what a select at the cursor makes of field `a`. On a board
/// without mines yet they are placed first, in some layout.
pub open spec fn clicked(a: MineField, b: MineField) -> bool {
    &&& b == (MineField { f: b.f, s: b.s, ..a })
    &&& if a.s != 0 {
        probed(
            a.f@,
            a.s,
            a.m as int,
            a.w as int,
            a.h as int,
            a.r as int,
            a.c as int,
            b.f@,
            b.s,
        )
    } else {
        exists|g: Seq<u8>| #[trigger]
            layout(g, a.w as int, a.h as int, a.m as int, a.r as int, a.c as int) && probed(
                g,
                0,
                a.m as int,
                a.w as int,
                a.h as int,
                a.r as int,
                a.c as int,
                b.f@,
                b.s,
            )
    }
}

impl MineField {
    /// The board is ready for a select at the cursor: it is well formed, and
    /// either blank or laid with mines.
    pub open spec fn ready(&self) -> bool {
        &&& self.wf()
        &&& self.s == 0 ==> self.blank()
        &&& self.s != 0 ==> self.laid()
    }

    /// A select at the cursor changes the field: the game is not over and
    /// the cell under the cursor is not open.
    pub open spec fn selectable(&self) -> bool {
        !(self.s >= 0x4000 || opened(self.cell(self.r as int, self.c as int)))
    }

    /// Selects the cell at row `r`, column `c`. The result says whether
    /// anything changed: it did not if the game is over or the cell is open.
    pub fn probe(&mut self, r: u16, c: u16) -> (changed: bool)
        requires
            old(self).wf(),
            r < old(self).h,
            c < old(self).w,
        ensures
            final(self).wf(),
            *final(self) == (MineField { f: final(self).f, s: final(self).s, ..*old(self) }),
            probed(
                old(self).f@,
                old(self).s,
                old(self).m as int,
                old(self).w as int,
                old(self).h as int,
                r as int,
                c as int,
                final(self).f@,
                final(self).s,
            ),
            changed == !(old(self).s >= 0x4000 || opened(old(self).cell(r as int, c as int))),
            !changed ==> *final(self) == *old(self),
            changed ==> final(self).s != 0,
            old(self).laid() ==> final(self).laid(),
            final(self).opened_count() >= old(self).opened_count(),
            exploded_of(old(self).s) ==> exploded_of(final(self).s),
            success_of(old(self).s) ==> success_of(final(self).s),
    {
        proof {
            lemma_status(self.s);
            lemma_status(0);
        }
        if self.is_end() {
            return false;
        }
        if self.is_opened(r, c) {
            return false;
        }
        if !self.open(r, c) {
            self.explosion();
        } else {
            proof {
                lemma_status(self.s);
                let f0 = old(self).f@;
                let f1 = self.f@;
                assert forall|k: int| 0 <= k < f0.len() implies value(#[trigger] f0[k]) == value(
                    f1[k],
                ) && mined(f0[k]) == mined(f1[k]) by {
                    lemma_open(f0[k]);
                }
                lemma_mines_same(f0, f1);
                if counted(f0, self.w as int, self.h as int) {
                    lemma_counted_same(f0, f1, self.w as int, self.h as int);
                }
            }
            let n: u32 = self.s as u32 + self.m as u32;
            let total: u32 = self.w as u32 * self.h as u32;
            if n == total {
                self.success();
            }
        }
        true
    }

    /// Selects the cell under the cursor. The first select of a game places
    /// the mines before it opens the cell. The result says whether anything
    /// changed: it did not if the game is over or the cell is open.
    pub fn click(&mut self) -> (changed: bool)
        requires
            old(self).ready(),
        ensures
            final(self).ready(),
            clicked(*old(self), *final(self)),
            changed == old(self).selectable(),
            !changed ==> *final(self) == *old(self),
            changed ==> final(self).s != 0,
            final(self).opened_count() >= old(self).opened_count(),
            exploded_of(old(self).s) ==> exploded_of(final(self).s),
            success_of(old(self).s) ==> success_of(final(self).s),
    {
        let r: u16 = self.r;
        let c: u16 = self.c;
        if self.s == 0 {
            self.start();
            proof {
                lemma_index(self.w as int, self.h as int, r as int, c as int);
                lemma_plain(old(self).f@[r * self.w + c]);
            }
        }
        let ghost g = self.f@;
        let changed = self.probe(r, c);
        proof {
            if old(self).s == 0 {
                assert(layout(g, self.w as int, self.h as int, self.m as int, r as int, c as int));
            }
        }
        changed
    }
}

/// A select that changes the board ends in an explosion exactly when the
/// selected cell holds a mine.
pub proof fn lemma_explodes_on_mine(
    f0: Seq<u8>,
    s0: u16,
    m: int,
    w: int,
    h: int,
    r: int,
    c: int,
    f1: Seq<u8>,
    s1: u16,
)
    requires
        probed(f0, s0, m, w, h, r, c, f1, s1),
        s0 < 0x4000,
        !opened(at(f0, w, r, c)),
    ensures
        exploded_of(s1) <==> mined(at(f0, w, r, c)),
{
    lemma_status(s0);
}

/// On a well-formed field with room for a cell without a mine, the game is
/// in success exactly when the opened cells and the mines add up to the
/// number of cells.
pub proof fn lemma_success_law(a: MineField)
    requires
        a.wf(),
        a.m < a.w * a.h,
    ensures
        success_of(a.s) <==> a.opened_count() + a.m == a.w * a.h,
{
}

/// On a board where every cell without a mine holds the number of mines
/// around it, the flood from a cell without a mine gets to no mine.
pub proof fn lemma_flood_is_safe(f: Seq<u8>, w: int, h: int, r0: int, c0: int, r: int, c: int)
    requires
        counted(f, w, h),
        inside(w, h, r0, c0),
        !mined(at(f, w, r0, c0)),
        reach(f, w, h, r0, c0, r, c),
    ensures
        inside(w, h, r, c),
        !mined(at(f, w, r, c)),
{
    let p = choose|p: Seq<(int, int)>| #[trigger]
        chain(f, w, h, p) && p[0] == (r0, c0) && p.last() == (r, c);
    if p.len() > 1 {
        let t = p.len() - 2;
        assert(step(f, w, h, p[t], p[t + 1]));
        lemma_zero_is_safe(f, w, h, p[t].0, p[t].1, r, c);
    }
}

/// The flood from a cell whose value is not 0 gets to that cell alone.
pub proof fn lemma_flood_of_number(f: Seq<u8>, w: int, h: int, r0: int, c0: int, r: int, c: int)
    requires
        value(at(f, w, r0, c0)) != 0,
    ensures
        reach(f, w, h, r0, c0, r, c) <==> r == r0 && c == c0,
{
    lemma_reach_start(f, w, h, r0, c0);
    if reach(f, w, h, r0, c0, r, c) {
        let p = choose|p: Seq<(int, int)>| #[trigger]
            chain(f, w, h, p) && p[0] == (r0, c0) && p.last() == (r, c);
        if p.len() > 1 {
            assert(step(f, w, h, p[0int], p[0int + 1]));
        }
    }
}

} // verus!
