//! The mathematical view of a board: a row-major sequence of cell bytes.

use vstd::prelude::*;
use crate::cell::{mined, opened, played, value};

verus! {

/// Whether row `r`, column `c` lies on a board of `w` columns and `h` rows.
pub open spec fn inside(w: int, h: int, r: int, c: int) -> bool {
    0 <= r < h && 0 <= c < w
}

/// The byte at row `r`, column `c`.
pub open spec fn at(f: Seq<u8>, w: int, r: int, c: int) -> u8 {
    f[r * w + c]
}

/// Whether two positions are the same or touch, diagonals included.
pub open spec fn near(r: int, c: int, j: int, i: int) -> bool {
    -1 <= j - r <= 1 && -1 <= i - c <= 1
}

/// 1 if the position lies on the board and holds a mine, else 0.
pub open spec fn mine_at(f: Seq<u8>, w: int, h: int, r: int, c: int) -> int {
    if inside(w, h, r, c) && mined(at(f, w, r, c)) {
        1
    } else {
        0
    }
}

/// The number of mines among the up to eight neighbours of a position.
pub open spec fn mine_neighbours(f: Seq<u8>, w: int, h: int, r: int, c: int) -> int {
    mine_at(f, w, h, r - 1, c - 1) + mine_at(f, w, h, r - 1, c) + mine_at(f, w, h, r - 1, c + 1)
        + mine_at(f, w, h, r, c - 1) + mine_at(f, w, h, r, c + 1) + mine_at(f, w, h, r + 1, c - 1)
        + mine_at(f, w, h, r + 1, c) + mine_at(f, w, h, r + 1, c + 1)
}

/// The number of cells that hold a mine.
pub open spec fn mines(f: Seq<u8>) -> nat
    decreases f.len(),
{
    if f.len() == 0 {
        0
    } else {
        mines(f.drop_last()) + if mined(f.last()) { 1nat } else { 0nat }
    }
}

/// The number of cells that the player opened.
pub open spec fn played_cells(f: Seq<u8>) -> nat
    decreases f.len(),
{
    if f.len() == 0 {
        0
    } else {
        played_cells(f.drop_last()) + if played(f.last()) { 1nat } else { 0nat }
    }
}

/// Every cell that is not a mine holds the number of mines around it.
pub open spec fn counted(f: Seq<u8>, w: int, h: int) -> bool {
    forall|r: int, c: int| #[trigger]
        inside(w, h, r, c) && !mined(at(f, w, r, c)) ==> value(at(f, w, r, c)) as int
            == mine_neighbours(f, w, h, r, c)
}

/// A position on the board has its index within the sequence.
pub proof fn lemma_index(w: int, h: int, r: int, c: int)
    requires
        inside(w, h, r, c),
    ensures
        0 <= r * w + c < w * h,
{
    assert(r * w + c < w * h) by (nonlinear_arith)
        requires
            0 <= r < h,
            0 <= c < w,
    {
        assert((r + 1) * w <= h * w);
    }
    assert(0 <= r * w) by (nonlinear_arith)
        requires
            0 <= r,
            0 < w,
    ;
}

/// Two positions with the same index are the same position.
pub proof fn lemma_index_one(w: int, r: int, c: int, j: int, i: int)
    requires
        0 <= c < w,
        0 <= i < w,
        r * w + c == j * w + i,
    ensures
        r == j,
        c == i,
{
    assert(r == j) by (nonlinear_arith)
        requires
            0 <= c < w,
            0 <= i < w,
            r * w + c == j * w + i,
    {
        if r < j {
            assert((r + 1) * w <= j * w);
        } else if j < r {
            assert((j + 1) * w <= r * w);
        }
    }
}

/// Writing one cell changes that position and no other.
pub proof fn lemma_update(f: Seq<u8>, w: int, h: int, r: int, c: int, v: u8)
    requires
        inside(w, h, r, c),
        f.len() == w * h,
    ensures
        forall|j: int, i: int| #[trigger]
            inside(w, h, j, i) ==> at(f.update(r * w + c, v), w, j, i) == if j == r && i == c {
                v
            } else {
                at(f, w, j, i)
            },
{
    assert forall|j: int, i: int| #[trigger] inside(w, h, j, i) implies at(
        f.update(r * w + c, v),
        w,
        j,
        i,
    ) == if j == r && i == c {
        v
    } else {
        at(f, w, j, i)
    } by {
        lemma_index(w, h, r, c);
        lemma_index(w, h, j, i);
        if j * w + i == r * w + c {
            lemma_index_one(w, r, c, j, i);
        }
    }
}

/// No more cells are counted than there are.
pub proof fn lemma_played_bound(f: Seq<u8>)
    ensures
        played_cells(f) <= f.len(),
    decreases f.len(),
{
    if f.len() > 0 {
        lemma_played_bound(f.drop_last());
    }
}

/// Opening one unopened, unforced cell raises the player's count by one.
pub proof fn lemma_played_step(f: Seq<u8>, k: int, v: u8)
    requires
        0 <= k < f.len(),
        !played(f[k]),
        played(v),
    ensures
        played_cells(f.update(k, v)) == played_cells(f) + 1,
    decreases f.len(),
{
    let g = f.update(k, v);
    if k == f.len() - 1 {
        assert(g.drop_last() =~= f.drop_last());
    } else {
        lemma_played_step(f.drop_last(), k, v);
        assert(g.drop_last() =~= f.drop_last().update(k, v));
    }
}

/// Two boards that agree on which cells the player opened have the same
/// count.
pub proof fn lemma_played_same(f: Seq<u8>, g: Seq<u8>)
    requires
        f.len() == g.len(),
        forall|k: int| 0 <= k < f.len() ==> played(#[trigger] f[k]) == played(g[k]),
    ensures
        played_cells(f) == played_cells(g),
    decreases f.len(),
{
    if f.len() > 0 {
        lemma_played_same(f.drop_last(), g.drop_last());
    }
}

/// Two boards that agree on which cells are mines have the same number of
/// mines.
pub proof fn lemma_mines_same(f: Seq<u8>, g: Seq<u8>)
    requires
        f.len() == g.len(),
        forall|k: int| 0 <= k < f.len() ==> mined(#[trigger] f[k]) == mined(g[k]),
    ensures
        mines(f) == mines(g),
    decreases f.len(),
{
    if f.len() > 0 {
        lemma_mines_same(f.drop_last(), g.drop_last());
    }
}

/// Two boards that agree on which cells are mines agree on the number of
/// mines around every position.
pub proof fn lemma_neighbours_same(f: Seq<u8>, g: Seq<u8>, w: int, h: int, r: int, c: int)
    requires
        f.len() == g.len(),
        f.len() == w * h,
        forall|k: int| 0 <= k < f.len() ==> mined(#[trigger] f[k]) == mined(g[k]),
    ensures
        mine_neighbours(f, w, h, r, c) == mine_neighbours(g, w, h, r, c),
{
    lemma_same_at(f, g, w, h, r - 1, c - 1);
    lemma_same_at(f, g, w, h, r - 1, c);
    lemma_same_at(f, g, w, h, r - 1, c + 1);
    lemma_same_at(f, g, w, h, r, c - 1);
    lemma_same_at(f, g, w, h, r, c + 1);
    lemma_same_at(f, g, w, h, r + 1, c - 1);
    lemma_same_at(f, g, w, h, r + 1, c);
    lemma_same_at(f, g, w, h, r + 1, c + 1);
}

/// Two boards that agree on the value of every cell are both counted, or
/// neither is.
pub proof fn lemma_counted_same(f: Seq<u8>, g: Seq<u8>, w: int, h: int)
    requires
        f.len() == g.len(),
        f.len() == w * h,
        forall|k: int| 0 <= k < f.len() ==> value(#[trigger] f[k]) == value(g[k]),
        counted(f, w, h),
    ensures
        counted(g, w, h),
{
    assert forall|r: int, c: int| #[trigger] inside(w, h, r, c) && !mined(at(g, w, r, c)) implies value(
        at(g, w, r, c),
    ) as int == mine_neighbours(g, w, h, r, c) by {
        lemma_index(w, h, r, c);
        lemma_neighbours_same(f, g, w, h, r, c);
    }
}

proof fn lemma_same_at(f: Seq<u8>, g: Seq<u8>, w: int, h: int, r: int, c: int)
    requires
        f.len() == g.len(),
        f.len() == w * h,
        forall|k: int| 0 <= k < f.len() ==> mined(#[trigger] f[k]) == mined(g[k]),
    ensures
        mine_at(f, w, h, r, c) == mine_at(g, w, h, r, c),
{
    if inside(w, h, r, c) {
        lemma_index(w, h, r, c);
    }
}

/// A board without an opened cell has a player's count of zero.
pub proof fn lemma_played_none(f: Seq<u8>)
    requires
        forall|k: int| 0 <= k < f.len() ==> !opened(#[trigger] f[k]),
    ensures
        played_cells(f) == 0,
    decreases f.len(),
{
    if f.len() > 0 {
        lemma_played_none(f.drop_last());
    }
}

/// On a counted board no mine touches a cell of value 0.
pub proof fn lemma_zero_is_safe(f: Seq<u8>, w: int, h: int, r: int, c: int, j: int, i: int)
    requires
        counted(f, w, h),
        inside(w, h, r, c),
        value(at(f, w, r, c)) == 0,
        inside(w, h, j, i),
        near(r, c, j, i),
    ensures
        !mined(at(f, w, j, i)),
{
    assert(!mined(at(f, w, r, c)));
    assert(mine_neighbours(f, w, h, r, c) == 0);
    assert(mine_at(f, w, h, j, i) == 0 || (j == r && i == c));
}

} // verus!
