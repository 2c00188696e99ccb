//! Placing the mines, once, when the first cell is selected.

use vstd::prelude::*;
use crate::cell::{forced, is_mine, lemma_plain, mined, opened, value};
use crate::field::{lemma_status, MineField, MAX_CELLS};
use crate::grid::{
    at, counted, inside, lemma_index, lemma_mines_same, lemma_neighbours_same, lemma_played_none,
    lemma_update, mine_at, mine_neighbours, mines, played_cells,
};

verus! {

/// Draws a mine layout for a board of `w` by `h` cells with the cursor at row
/// `r`, column `c`, by `minefield::MineField::start` on a fresh board of that
/// crate, and hands the cells out row by row.
///
/// The layout is random. Taken on trust, of every layout that comes back:
/// each byte is 15 (a mine) or at most 8; the number of mines is `m`, or the
/// number of cells if `m` is not less; and unless the board is filled, the
/// cursor cell has no mine.
#[verifier::external_body]
fn scatter(w: u16, h: u16, m: u16, r: u16, c: u16) -> (f: Vec<u8>)
    requires
        1 <= w,
        1 <= h,
        w * h <= MAX_CELLS,
        r < h,
        c < w,
    ensures
        f@.len() == w * h,
        forall|k: int| 0 <= k < f@.len() ==> #[trigger] f@[k] <= 8 || f@[k] == 15,
        mines(f@) == if m < w * h { m as int } else { w * h },
        m < w * h ==> at(f@, w as int, r as int, c as int) != 15,
{
    let mut g = minefield::MineField::new(w, h, m);
    g.r = r;
    g.c = c;
    g.start();
    g.f.into_iter().flatten().collect()
}

/// A mine layout for a board of `w` by `h` cells that is to hold `m` mines,
/// with the cursor at row `r`, column `c`: no cell is opened; the number of
/// mines is `m`, or the number of cells if `m` is not less; unless the board
/// is filled, the cursor cell has no mine; and every cell without a mine
/// holds the number of mines around it.
pub open spec fn layout(g: Seq<u8>, w: int, h: int, m: int, r: int, c: int) -> bool {
    &&& g.len() == w * h
    &&& forall|k: int| 0 <= k < g.len() ==> #[trigger] g[k] <= 15
    &&& mines(g) == if m < w * h { m } else { w * h }
    &&& m < w * h ==> !mined(at(g, w, r, c))
    &&& counted(g, w, h)
}

impl MineField {
    /// 1 if the position lies on the board and holds a mine, else 0.
    fn mine_here(&self, j: i32, i: i32) -> (n: u8)
        requires
            self.shaped(),
        ensures
            n == mine_at(self.f@, self.w as int, self.h as int, j as int, i as int),
            n <= 1,
    {
        if j < 0 || i < 0 || j >= self.h as i32 || i >= self.w as i32 {
            0
        } else if is_mine(self.get(j as u16, i as u16)) {
            1
        } else {
            0
        }
    }

    /// The number of mines among the up to eight neighbours of a position.
    pub fn get_k(&self, r: u16, c: u16) -> (n: u8)
        requires
            self.shaped(),
            r < self.h,
            c < self.w,
        ensures
            n == mine_neighbours(self.f@, self.w as int, self.h as int, r as int, c as int),
            n <= 8,
    {
        let y: i32 = r as i32;
        let x: i32 = c as i32;
        self.mine_here(y - 1, x - 1) + self.mine_here(y - 1, x) + self.mine_here(y - 1, x + 1)
            + self.mine_here(y, x - 1) + self.mine_here(y, x + 1) + self.mine_here(y + 1, x - 1)
            + self.mine_here(y + 1, x) + self.mine_here(y + 1, x + 1)
    }

    /// Places the mines on a blank board: as many as were asked for, or one
    /// on every cell if that many do not fit. Unless the board is filled, the
    /// cursor cell gets no mine. Every other cell then holds the number of
    /// mines around it, counted here. Nothing is opened, and the cursor, the
    /// status and the counters stay.
    pub fn start(&mut self)
        requires
            old(self).wf(),
            old(self).blank(),
        ensures
            final(self).wf(),
            final(self).laid(),
            layout(
                final(self).f@,
                old(self).w as int,
                old(self).h as int,
                old(self).m as int,
                old(self).r as int,
                old(self).c as int,
            ),
            *final(self) == (MineField { f: final(self).f, ..*old(self) }),
            final(self).f@.len() == old(self).f@.len(),
            forall|k: int|
                0 <= k < final(self).f@.len() ==> !opened(#[trigger] final(self).f@[k])
                    && final(self).f@[k] <= 15,
            old(self).m < old(self).w * old(self).h ==> !mined(
                final(self).cell(old(self).r as int, old(self).c as int),
            ),
    {
        let f: Vec<u8> = scatter(self.w, self.h, self.m, self.r, self.c);
        let ghost g = f@;
        let ghost w = self.w as int;
        let ghost h = self.h as int;
        proof {
            lemma_low_bytes(g);
            lemma_status(self.s);
        }
        self.f = f;
        let mut r: u16 = 0;
        while r < self.h
            invariant
                *self == (MineField { f: self.f, ..*old(self) }),
                old(self).wf(),
                old(self).blank(),
                w == self.w as int,
                h == self.h as int,
                g.len() == w * h,
                self.f@.len() == g.len(),
                r <= self.h,
                forall|k: int| 0 <= k < g.len() ==> #[trigger] g[k] <= 15,
                forall|k: int|
                    0 <= k < g.len() ==> #[trigger] self.f@[k] <= 15 && (self.f@[k] == 15) == (g[k]
                        == 15),
                forall|j: int, i: int| #[trigger]
                    inside(w, h, j, i) && j < r && at(self.f@, w, j, i) != 15 ==> at(
                        self.f@,
                        w,
                        j,
                        i,
                    ) as int == mine_neighbours(g, w, h, j, i),
            decreases self.h - r,
        {
            let mut c: u16 = 0;
            while c < self.w
                invariant
                    *self == (MineField { f: self.f, ..*old(self) }),
                    old(self).wf(),
                    old(self).blank(),
                    w == self.w as int,
                    h == self.h as int,
                    g.len() == w * h,
                    self.f@.len() == g.len(),
                    r < self.h,
                    c <= self.w,
                    forall|k: int| 0 <= k < g.len() ==> #[trigger] g[k] <= 15,
                    forall|k: int|
                        0 <= k < g.len() ==> #[trigger] self.f@[k] <= 15 && (self.f@[k] == 15) == (
                        g[k] == 15),
                    forall|j: int, i: int| #[trigger]
                        inside(w, h, j, i) && (j < r || (j == r && i < c)) && at(self.f@, w, j, i)
                            != 15 ==> at(self.f@, w, j, i) as int == mine_neighbours(g, w, h, j, i),
                decreases self.w - c,
            {
                proof {
                    lemma_low_bytes(self.f@);
                    lemma_low_bytes(g);
                    lemma_status(self.s);
                }
                let k: usize = self.index(r, c);
                if self.f[k] != 15 {
                    let n: u8 = self.get_k(r, c);
                    proof {
                        lemma_neighbours_same(self.f@, g, w, h, r as int, c as int);
                        lemma_update(self.f@, w, h, r as int, c as int, n);
                    }
                    self.f.set(k, n);
                }
                c += 1;
            }
            r += 1;
        }
        proof {
            let f1 = self.f@;
            lemma_low_bytes(f1);
            lemma_low_bytes(g);
            lemma_mines_same(f1, g);
            assert forall|j: int, i: int| #[trigger] inside(w, h, j, i) && !mined(at(f1, w, j, i)) implies value(
                at(f1, w, j, i),
            ) as int == mine_neighbours(f1, w, h, j, i) by {
                lemma_index(w, h, j, i);
                lemma_neighbours_same(f1, g, w, h, j, i);
            }
            lemma_index(w, h, self.r as int, self.c as int);
        }
    }
}

/// A board of bytes of at most 15 has no opened cell, each byte is the value
/// of its cell, and the mines are the bytes that are 15.
proof fn lemma_low_bytes(f: Seq<u8>)
    requires
        forall|k: int| 0 <= k < f.len() ==> #[trigger] f[k] <= 15,
    ensures
        forall|k: int|
            0 <= k < f.len() ==> !opened(#[trigger] f[k]) && !forced(f[k]) && value(f[k]) == f[k]
                && mined(f[k]) == (f[k] == 15),
        played_cells(f) == 0,
{
    assert forall|k: int| 0 <= k < f.len() implies !opened(#[trigger] f[k]) && !forced(f[k])
        && value(f[k]) == f[k] && mined(f[k]) == (f[k] == 15) by {
        lemma_plain(f[k]);
    }
    lemma_played_none(f);
}

} // verus!
