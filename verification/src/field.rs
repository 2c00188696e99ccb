//! The board with its cursor, status word and blink counter.

use vstd::prelude::*;
use crate::cell::{
    forced, is_o, lemma_end, lemma_plain, mined, opened, played, set_o, value, with_end,
};
use crate::grid::{
    at, counted, inside, lemma_counted_same, lemma_index, lemma_mines_same, lemma_played_none,
    lemma_played_same, mines, played_cells,
};

verus! {

/// Largest number of cells of a board: the status word counts the opened
/// cells in its low 14 bits.
pub const MAX_CELLS: u16 = 0x3fff;

/// Bit of the status word that is set once a mine was opened.
pub const EXPLODED: u16 = 0x8000;

/// Bit of the status word that is set once every cell without a mine is open.
pub const SUCCESS: u16 = 0x4000;

/// The three states of a game. The last two are final.
#[derive(Clone, Copy, Debug, PartialEq, Eq, Structural)]
pub enum GameState {
    Playing,
    Exploded,
    Success,
}

/// A mine field.
#[derive(Clone, Debug, PartialEq, Eq)]
pub struct MineField {
    /// Status: the number of opened cells in the low 14 bits, then the
    /// success bit and the exploded bit.
    pub s: u16,
    /// Width of the board.
    pub w: u16,
    /// Height of the board.
    pub h: u16,
    /// Number of mines asked for.
    pub m: u16,
    /// The cells, row by row.
    pub f: Vec<u8>,
    /// Row of the cursor.
    pub r: u16,
    /// Column of the cursor.
    pub c: u16,
    /// Idle time between two ticks, in milliseconds.
    pub ms: u64,
    /// Number of ticks of one blink period.
    pub b: u16,
    /// Ticks since the period began.
    pub t: u16,
}

/// The number of opened cells that a status word holds.
pub open spec fn count_of(s: u16) -> int {
    (s & 0x3fff) as int
}

/// Whether a status word has the exploded bit.
pub open spec fn exploded_of(s: u16) -> bool {
    s & 0x8000 != 0
}

/// Whether a status word has the success bit.
pub open spec fn success_of(s: u16) -> bool {
    s & 0x4000 != 0
}

/// The state that a status word stands for.
pub open spec fn state_of(s: u16) -> GameState {
    if exploded_of(s) {
        GameState::Exploded
    } else if success_of(s) {
        GameState::Success
    } else {
        GameState::Playing
    }
}

/// The tick counter after one more tick of a period of `b` ticks.
pub open spec fn ticked(t: u16, b: u16) -> u16 {
    if t + 1 == b / 2 {
        (t + 1) as u16
    } else if t + 1 >= b {
        0
    } else {
        (t + 1) as u16
    }
}

/// Whether a tick from counter `t` asks for a redraw: at half the period and
/// at its end.
pub open spec fn tick_redraws(t: u16, b: u16) -> bool {
    t + 1 == b / 2 || t + 1 >= b
}

/// What the status bits mean while no bit is set, and after one is.
pub proof fn lemma_status(s: u16)
    ensures
        s < 0x4000 <==> !exploded_of(s) && !success_of(s),
        s < 0x4000 ==> count_of(s) == s,
        count_of(s) <= 0x3fff,
        count_of(s | 0x8000) == count_of(s),
        count_of(s | 0x4000) == count_of(s),
        exploded_of(s | 0x8000),
        success_of(s | 0x4000),
        success_of(s | 0x8000) == success_of(s),
        exploded_of(s | 0x4000) == exploded_of(s),
{
    assert(s < 0x4000 <==> !(s & 0x8000 != 0) && !(s & 0x4000 != 0)) by (bit_vector);
    assert(s < 0x4000 ==> s & 0x3fff == s) by (bit_vector);
    assert(s & 0x3fff <= 0x3fff) by (bit_vector);
    assert((s | 0x8000) & 0x3fff == s & 0x3fff) by (bit_vector);
    assert((s | 0x4000) & 0x3fff == s & 0x3fff) by (bit_vector);
    assert((s | 0x8000) & 0x8000 != 0) by (bit_vector);
    assert((s | 0x4000) & 0x4000 != 0) by (bit_vector);
    assert((s | 0x8000) & 0x4000 == s & 0x4000) by (bit_vector);
    assert((s | 0x4000) & 0x8000 == s & 0x8000) by (bit_vector);
}

impl MineField {
    /// The number of cells.
    pub open spec fn total(&self) -> int {
        self.w * self.h
    }

    /// The byte at a position.
    pub open spec fn cell(&self, r: int, c: int) -> u8 {
        at(self.f@, self.w as int, r, c)
    }

    /// The number of cells that the player opened.
    pub open spec fn opened_count(&self) -> int {
        count_of(self.s)
    }

    /// The state of the game.
    pub open spec fn game_state(&self) -> GameState {
        state_of(self.s)
    }

    /// The board has its cells, the cursor lies on it, the status word counts
    /// the cells that the player opened, and only opened cells are marked as
    /// opened by force.
    pub open spec fn shaped(&self) -> bool {
        &&& 1 <= self.w
        &&& 1 <= self.h
        &&& self.w * self.h <= MAX_CELLS
        &&& self.f@.len() == self.w * self.h
        &&& self.r < self.h
        &&& self.c < self.w
        &&& self.t == 0 || self.t < self.b
        &&& count_of(self.s) == played_cells(self.f@)
        &&& forall|k: int| 0 <= k < self.f@.len() ==> (forced(#[trigger] self.f@[k]) ==> opened(self.f@[k]))
    }

    /// A shaped board whose status is sound: at most one of the two final
    /// bits is set, and, where the board has room for a cell without a mine,
    /// the success bit is set exactly when every such cell is open.
    pub open spec fn wf(&self) -> bool {
        &&& self.shaped()
        &&& !(exploded_of(self.s) && success_of(self.s))
        &&& self.m < self.w * self.h ==> (success_of(self.s) <==> count_of(self.s) + self.m
            == self.w * self.h)
        &&& self.m >= self.w * self.h ==> !success_of(self.s)
    }

    /// No mine was placed yet: every cell is 0 and nothing was opened.
    pub open spec fn blank(&self) -> bool {
        &&& self.s == 0
        &&& forall|k: int| 0 <= k < self.f@.len() ==> #[trigger] self.f@[k] == 0
    }

    /// The mines are placed: their number is the number asked for, or the
    /// number of cells if that is less, and every other cell holds the number
    /// of mines around it.
    pub open spec fn laid(&self) -> bool {
        &&& mines(self.f@) == if self.m < self.w * self.h {
            self.m as int
        } else {
            self.w * self.h
        }
        &&& counted(self.f@, self.w as int, self.h as int)
    }

    /// A board of `w` by `h` unopened cells for `m` mines, the cursor in the
    /// first row and column, with a period of 80 ticks of 10 ms.
    pub fn new(w: u16, h: u16, m: u16) -> (mf: MineField)
        requires
            1 <= w,
            1 <= h,
            w * h <= MAX_CELLS,
        ensures
            mf.wf(),
            mf.blank(),
            mf.w == w,
            mf.h == h,
            mf.m == m,
            mf.r == 0,
            mf.c == 0,
            mf.ms == 10,
            mf.b == 80,
            mf.t == 0,
            mf.f@.len() == w * h,
            mf.game_state() == GameState::Playing,
            mf.opened_count() == 0,
    {
        let n: usize = (w as usize) * (h as usize);
        let mut f: Vec<u8> = Vec::new();
        let mut k: usize = 0;
        while k < n
            invariant
                k <= n,
                f@.len() == k,
                forall|j: int| 0 <= j < k ==> #[trigger] f@[j] == 0,
            decreases n - k,
        {
            f.push(0);
            k += 1;
        }
        proof {
            lemma_plain(0);
            lemma_played_none(f@);
            assert(0u16 & 0x3fff == 0) by (bit_vector);
            assert(0u16 & 0x8000 == 0) by (bit_vector);
            assert(0u16 & 0x4000 == 0) by (bit_vector);
        }
        MineField { s: 0, w, h, m, f, r: 0, c: 0, ms: 10, b: 80, t: 0 }
    }

    /// A board as `new` makes it, where the size is one that a field can
    /// have: at least one row and one column, and at most 16383 cells.
    pub fn try_new(w: u16, h: u16, m: u16) -> (res: Option<MineField>)
        ensures
            res is Some <==> 1 <= w && 1 <= h && w * h <= MAX_CELLS,
            res is Some ==> {
                let mf = res->Some_0;
                &&& mf.wf()
                &&& mf.blank()
                &&& mf.w == w
                &&& mf.h == h
                &&& mf.m == m
                &&& mf.r == 0
                &&& mf.c == 0
                &&& mf.ms == 10
                &&& mf.b == 80
                &&& mf.t == 0
                &&& mf.f@.len() == w * h
            },
    {
        if w < 1 || h < 1 {
            return None;
        }
        assert(w * h <= 65535 * 65535) by (nonlinear_arith)
            requires
                w <= 65535,
                h <= 65535,
        ;
        if w as u32 * h as u32 > MAX_CELLS as u32 {
            return None;
        }
        Some(MineField::new(w, h, m))
    }

    /// The index of a position in the row-major sequence of cells.
    pub fn index(&self, r: u16, c: u16) -> (k: usize)
        requires
            self.shaped(),
            r < self.h,
            c < self.w,
        ensures
            k == r * self.w + c,
            k < self.f@.len(),
    {
        proof {
            lemma_index(self.w as int, self.h as int, r as int, c as int);
        }
        (r as usize) * (self.w as usize) + (c as usize)
    }

    /// The byte at a position.
    pub fn get(&self, r: u16, c: u16) -> (u: u8)
        requires
            self.shaped(),
            r < self.h,
            c < self.w,
        ensures
            u == self.cell(r as int, c as int),
    {
        let k: usize = self.index(r, c);
        self.f[k]
    }

    /// Whether the cell at a position is opened.
    pub fn is_opened(&self, r: u16, c: u16) -> (b: bool)
        requires
            self.shaped(),
            r < self.h,
            c < self.w,
        ensures
            b == opened(self.cell(r as int, c as int)),
    {
        is_o(self.get(r, c))
    }

    /// Whether a mine was opened.
    pub fn is_explosion(&self) -> (b: bool)
        ensures
            b == exploded_of(self.s),
            b == (self.game_state() == GameState::Exploded),
    {
        self.s & 0x8000 != 0
    }

    /// Whether every cell without a mine is open.
    pub fn is_success(&self) -> (b: bool)
        ensures
            b == success_of(self.s),
    {
        self.s & 0x4000 != 0
    }

    /// Whether the game is over.
    pub fn is_end(&self) -> (b: bool)
        ensures
            b == (exploded_of(self.s) || success_of(self.s)),
            b == (self.game_state() != GameState::Playing),
    {
        proof {
            lemma_status(self.s);
        }
        self.s >= 0x4000
    }

    /// The state of the game.
    pub fn state(&self) -> (g: GameState)
        ensures
            g == self.game_state(),
    {
        if self.s & 0x8000 != 0 {
            GameState::Exploded
        } else if self.s & 0x4000 != 0 {
            GameState::Success
        } else {
            GameState::Playing
        }
    }

    /// The number of cells that the player opened.
    pub fn opened(&self) -> (n: u16)
        ensures
            n == self.opened_count(),
    {
        self.s & 0x3fff
    }

    /// Moves the cursor one row up, unless it is in the first row.
    pub fn up(&mut self)
        requires
            old(self).shaped(),
        ensures
            *final(self) == (MineField {
                r: if old(self).r > 0 { (old(self).r - 1) as u16 } else { 0u16 },
                ..*old(self)
            }),
            final(self).shaped(),
            final(self).wf() == old(self).wf(),
    {
        if self.r > 0 {
            self.r -= 1;
        }
    }

    /// Moves the cursor one row down, unless it is in the last row.
    pub fn down(&mut self)
        requires
            old(self).shaped(),
        ensures
            *final(self) == (MineField {
                r: if old(self).r < old(self).h - 1 {
                    (old(self).r + 1) as u16
                } else {
                    old(self).r
                },
                ..*old(self)
            }),
            final(self).shaped(),
            final(self).wf() == old(self).wf(),
    {
        if self.r < self.h - 1 {
            self.r += 1;
        }
    }

    /// Moves the cursor one column to the left, unless it is in the first
    /// column.
    pub fn left(&mut self)
        requires
            old(self).shaped(),
        ensures
            *final(self) == (MineField {
                c: if old(self).c > 0 { (old(self).c - 1) as u16 } else { 0u16 },
                ..*old(self)
            }),
            final(self).shaped(),
            final(self).wf() == old(self).wf(),
    {
        if self.c > 0 {
            self.c -= 1;
        }
    }

    /// Moves the cursor one column to the right, unless it is in the last
    /// column.
    pub fn right(&mut self)
        requires
            old(self).shaped(),
        ensures
            *final(self) == (MineField {
                c: if old(self).c < old(self).w - 1 {
                    (old(self).c + 1) as u16
                } else {
                    old(self).c
                },
                ..*old(self)
            }),
            final(self).shaped(),
            final(self).wf() == old(self).wf(),
    {
        if self.c < self.w - 1 {
            self.c += 1;
        }
    }

    /// Puts the cursor on a position, if the position lies on the board.
    pub fn update_m(&mut self, x: u16, y: u16) -> (moved: bool)
        requires
            old(self).shaped(),
        ensures
            moved == (x < old(self).w && y < old(self).h),
            moved ==> *final(self) == (MineField { c: x, r: y, ..*old(self) }),
            !moved ==> *final(self) == *old(self),
            final(self).shaped(),
            final(self).wf() == old(self).wf(),
    {
        if x < self.w && y < self.h {
            self.c = x;
            self.r = y;
            true
        } else {
            false
        }
    }

    /// Whether the cursor is in the highlighted half of the blink period.
    pub fn is_blink(&self) -> (b: bool)
        ensures
            b == (self.t >= self.b / 2),
    {
        self.t >= self.b / 2
    }

    /// Counts one tick. The result says whether the board is to be drawn
    /// again: at half the period, and at its end, where the counter starts
    /// over.
    pub fn tick(&mut self) -> (redraw: bool)
        requires
            old(self).shaped(),
        ensures
            *final(self) == (MineField { t: ticked(old(self).t, old(self).b), ..*old(self) }),
            redraw == tick_redraws(old(self).t, old(self).b),
            final(self).shaped(),
            final(self).wf() == old(self).wf(),
    {
        let n: u16 = self.t + 1;
        if n == self.b / 2 {
            self.t = n;
            true
        } else if n >= self.b {
            self.t = 0;
            true
        } else {
            self.t = n;
            false
        }
    }

    /// Starts the blink period over.
    pub fn reset_tick(&mut self)
        ensures
            *final(self) == (MineField { t: 0, ..*old(self) }),
            old(self).shaped() ==> final(self).shaped(),
            old(self).wf() ==> final(self).wf(),
    {
        self.t = 0;
    }

    /// Sets the exploded bit.
    pub fn explosion(&mut self)
        ensures
            *final(self) == (MineField { s: old(self).s | EXPLODED, ..*old(self) }),
            exploded_of(final(self).s),
            count_of(final(self).s) == count_of(old(self).s),
            success_of(final(self).s) == success_of(old(self).s),
    {
        proof {
            lemma_status(self.s);
        }
        self.s = self.s | 0x8000;
    }

    /// Sets the success bit.
    pub fn success(&mut self)
        ensures
            *final(self) == (MineField { s: old(self).s | SUCCESS, ..*old(self) }),
            success_of(final(self).s),
            count_of(final(self).s) == count_of(old(self).s),
            exploded_of(final(self).s) == exploded_of(old(self).s),
    {
        proof {
            lemma_status(self.s);
        }
        self.s = self.s | 0x4000;
    }

    /// Opens every cell that is not open yet and marks it as opened by force.
    /// The cells that the player opened, the status and the cursor stay.
    pub fn ending(&mut self)
        requires
            old(self).shaped(),
        ensures
            final(self).f@.len() == old(self).f@.len(),
            forall|k: int|
                0 <= k < old(self).f@.len() ==> #[trigger] final(self).f@[k] == with_end(
                    old(self).f@[k],
                ),
            forall|r: int, c: int| #[trigger]
                inside(old(self).w as int, old(self).h as int, r, c) ==> opened(
                    final(self).cell(r, c),
                ),
            *final(self) == (MineField { f: final(self).f, ..*old(self) }),
            final(self).shaped(),
            final(self).wf() == old(self).wf(),
            final(self).laid() == old(self).laid(),
    {
        let n: usize = self.f.len();
        let mut k: usize = 0;
        while k < n
            invariant
                k <= n,
                n == self.f@.len(),
                n == old(self).f@.len(),
                *self == (MineField { f: self.f, ..*old(self) }),
                forall|j: int| 0 <= j < k ==> #[trigger] self.f@[j] == with_end(old(self).f@[j]),
                forall|j: int| k <= j < n ==> #[trigger] self.f@[j] == old(self).f@[j],
            decreases n - k,
        {
            let u: u8 = self.f[k];
            self.f.set(k, set_o(u, true));
            k += 1;
        }
        proof {
            let f0 = old(self).f@;
            let f1 = self.f@;
            let w = self.w as int;
            let h = self.h as int;
            assert forall|j: int| 0 <= j < n implies (played(#[trigger] f0[j]) == played(f1[j])
                && mined(f0[j]) == mined(f1[j]) && value(f0[j]) == value(f1[j]) && opened(f1[j])) by {
                lemma_end(f0[j]);
            }
            lemma_played_same(f0, f1);
            lemma_mines_same(f0, f1);
            lemma_mines_same(f1, f0);
            assert forall|r: int, c: int| #[trigger] inside(w, h, r, c) implies opened(
                self.cell(r, c),
            ) by {
                lemma_index(w, h, r, c);
            }
            if counted(f0, w, h) {
                lemma_counted_same(f0, f1, w, h);
            }
            if counted(f1, w, h) {
                lemma_counted_same(f1, f0, w, h);
            }
        }
    }
}

} // verus!
