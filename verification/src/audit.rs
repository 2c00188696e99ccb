//! Checking a field that was put together by hand: its fields are public, and
//! the transitions of the game ask for a well-formed one.

use vstd::prelude::*;
use crate::cell::{forced, get_v, is_e, is_mine, is_o, mined, opened, value};
use crate::field::{lemma_status, MineField, MAX_CELLS};
use crate::grid::{at, counted, inside, mine_neighbours, mines, played_cells};

verus! {

impl MineField {
    /// The number of cells that hold a mine.
    pub fn count_mines(&self) -> (n: usize)
        ensures
            n == mines(self.f@),
    {
        let mut n: usize = 0;
        let mut k: usize = 0;
        while k < self.f.len()
            invariant
                k <= self.f@.len(),
                n <= k,
                n == mines(self.f@.take(k as int)),
            decreases self.f@.len() - k,
        {
            proof {
                assert(self.f@.take(k + 1).drop_last() =~= self.f@.take(k as int));
            }
            if is_mine(self.f[k]) {
                n += 1;
            }
            k += 1;
        }
        proof {
            assert(self.f@.take(k as int) =~= self.f@);
        }
        n
    }

    /// The number of cells that the player opened.
    pub fn count_played(&self) -> (n: usize)
        ensures
            n == played_cells(self.f@),
    {
        let mut n: usize = 0;
        let mut k: usize = 0;
        while k < self.f.len()
            invariant
                k <= self.f@.len(),
                n <= k,
                n == played_cells(self.f@.take(k as int)),
            decreases self.f@.len() - k,
        {
            proof {
                assert(self.f@.take(k + 1).drop_last() =~= self.f@.take(k as int));
            }
            let u: u8 = self.f[k];
            if is_o(u) && !is_e(u) {
                n += 1;
            }
            k += 1;
        }
        proof {
            assert(self.f@.take(k as int) =~= self.f@);
        }
        n
    }

    /// Whether only opened cells are marked as opened by force.
    fn forced_are_opened(&self) -> (b: bool)
        ensures
            b == (forall|k: int|
                0 <= k < self.f@.len() ==> (forced(#[trigger] self.f@[k]) ==> opened(self.f@[k]))),
    {
        let mut k: usize = 0;
        while k < self.f.len()
            invariant
                k <= self.f@.len(),
                forall|j: int| 0 <= j < k ==> (forced(#[trigger] self.f@[j]) ==> opened(self.f@[j])),
            decreases self.f@.len() - k,
        {
            let u: u8 = self.f[k];
            if is_e(u) && !is_o(u) {
                return false;
            }
            k += 1;
        }
        true
    }

    /// Whether the field is shaped.
    pub fn is_shaped(&self) -> (b: bool)
        ensures
            b == self.shaped(),
    {
        if self.w < 1 || self.h < 1 {
            return false;
        }
        assert(self.w * self.h <= 65535 * 65535) by (nonlinear_arith)
            requires
                self.w <= 65535,
                self.h <= 65535,
        ;
        let total: u32 = self.w as u32 * self.h as u32;
        if total > MAX_CELLS as u32 || self.f.len() != total as usize {
            return false;
        }
        if self.r >= self.h || self.c >= self.w {
            return false;
        }
        if self.t != 0 && self.t >= self.b {
            return false;
        }
        if (self.s & 0x3fff) as usize != self.count_played() {
            return false;
        }
        self.forced_are_opened()
    }

    /// Whether the field is well formed.
    pub fn is_wf(&self) -> (b: bool)
        ensures
            b == self.wf(),
    {
        if !self.is_shaped() {
            return false;
        }
        if self.is_explosion() && self.is_success() {
            return false;
        }
        let total: u32 = self.w as u32 * self.h as u32;
        let n: u32 = (self.s & 0x3fff) as u32 + self.m as u32;
        proof {
            lemma_status(self.s);
        }
        if (self.m as u32) < total {
            self.is_success() == (n == total)
        } else {
            !self.is_success()
        }
    }

    /// Whether no mine was placed yet.
    pub fn is_blank(&self) -> (b: bool)
        ensures
            b == self.blank(),
    {
        if self.s != 0 {
            return false;
        }
        let mut k: usize = 0;
        while k < self.f.len()
            invariant
                k <= self.f@.len(),
                forall|j: int| 0 <= j < k ==> #[trigger] self.f@[j] == 0,
            decreases self.f@.len() - k,
        {
            if self.f[k] != 0 {
                return false;
            }
            k += 1;
        }
        true
    }

    /// Whether every cell without a mine holds the number of mines around it.
    pub fn is_counted(&self) -> (b: bool)
        requires
            self.shaped(),
        ensures
            b == counted(self.f@, self.w as int, self.h as int),
    {
        let ghost w = self.w as int;
        let ghost h = self.h as int;
        let mut r: u16 = 0;
        while r < self.h
            invariant
                self.shaped(),
                w == self.w as int,
                h == self.h as int,
                r <= self.h,
                forall|j: int, i: int| #[trigger]
                    inside(w, h, j, i) && j < r && !mined(at(self.f@, w, j, i)) ==> value(
                        at(self.f@, w, j, i),
                    ) as int == mine_neighbours(self.f@, w, h, j, i),
            decreases self.h - r,
        {
            let mut c: u16 = 0;
            while c < self.w
                invariant
                    self.shaped(),
                    w == self.w as int,
                    h == self.h as int,
                    r < self.h,
                    c <= self.w,
                    forall|j: int, i: int| #[trigger]
                        inside(w, h, j, i) && (j < r || (j == r && i < c)) && !mined(
                            at(self.f@, w, j, i),
                        ) ==> value(at(self.f@, w, j, i)) as int == mine_neighbours(
                            self.f@,
                            w,
                            h,
                            j,
                            i,
                        ),
                decreases self.w - c,
            {
                let u: u8 = self.get(r, c);
                if !is_mine(u) && get_v(u) != self.get_k(r, c) {
                    assert(inside(w, h, r as int, c as int));
                    return false;
                }
                c += 1;
            }
            r += 1;
        }
        true
    }

    /// Whether the mines are placed.
    pub fn is_laid(&self) -> (b: bool)
        requires
            self.shaped(),
        ensures
            b == self.laid(),
    {
        let total: usize = self.w as usize * self.h as usize;
        let want: usize = if (self.m as usize) < total { self.m as usize } else { total };
        self.count_mines() == want && self.is_counted()
    }

    /// Whether the field is ready for a select at the cursor.
    pub fn is_ready(&self) -> (b: bool)
        ensures
            b == self.ready(),
    {
        if !self.is_wf() {
            return false;
        }
        if self.s == 0 {
            self.is_blank()
        } else {
            self.is_laid()
        }
    }
}

} // verus!
