//! Opening cells: the flood over a region without mines around it.

use vstd::prelude::*;
use crate::cell::{forced, get_v, is_mine, is_o, lemma_open, mined, opened, set_o, value, with_open};
use crate::field::{lemma_status, MineField};
use crate::grid::{
    at, inside, lemma_index, lemma_played_bound, lemma_played_step, lemma_update,
    near, played_cells,
};

verus! {

/// One step of the flood: from a cell of value 0 to an unopened cell that
/// touches it.
pub open spec fn step(f: Seq<u8>, w: int, h: int, a: (int, int), b: (int, int)) -> bool {
    &&& inside(w, h, a.0, a.1)
    &&& value(at(f, w, a.0, a.1)) == 0
    &&& inside(w, h, b.0, b.1)
    &&& near(a.0, a.1, b.0, b.1)
    &&& !opened(at(f, w, b.0, b.1))
}

/// A sequence of positions, each one step from the one before.
pub open spec fn chain(f: Seq<u8>, w: int, h: int, p: Seq<(int, int)>) -> bool {
    &&& p.len() >= 1
    &&& forall|t: int| 0 <= t < p.len() - 1 ==> step(f, w, h, #[trigger] p[t], p[t + 1])
}

/// Whether the flood that starts at row `r0`, column `c0` gets to row `r`,
/// column `c`: the start itself, and every unopened cell that touches a cell
/// of value 0 that the flood gets to.
pub open spec fn reach(f: Seq<u8>, w: int, h: int, r0: int, c0: int, r: int, c: int) -> bool {
    exists|p: Seq<(int, int)>| #[trigger] chain(f, w, h, p) && p[0] == (r0, c0) && p.last() == (r, c)
}

/// Board `g` is board `f` after the flood from row `r0`, column `c0`: the
/// cells that the flood gets to are opened, and no other cell has changed.
pub open spec fn flooded(f: Seq<u8>, g: Seq<u8>, w: int, h: int, r0: int, c0: int) -> bool {
    &&& g.len() == f.len()
    &&& forall|r: int, c: int| #[trigger]
        inside(w, h, r, c) ==> at(g, w, r, c) == if reach(f, w, h, r0, c0, r, c) {
            with_open(at(f, w, r, c))
        } else {
            at(f, w, r, c)
        }
}

/// Whether a position is among those still to be looked at.
pub open spec fn waiting(st: Seq<(u16, u16)>, r: int, c: int) -> bool {
    exists|t: int| 0 <= t < st.len() && (#[trigger] st[t]).0 == r && st[t].1 == c
}

/// Whether the cell was opened since the flood began.
pub open spec fn fresh(f0: Seq<u8>, f: Seq<u8>, w: int, r: int, c: int) -> bool {
    !opened(at(f0, w, r, c)) && opened(at(f, w, r, c))
}

/// Every cell that touches row `y`, column `x` and comes before row `j`,
/// column `i` in reading order is open.
pub open spec fn covered(f: Seq<u8>, w: int, h: int, y: int, x: int, j: int, i: int) -> bool {
    forall|jj: int, ii: int| #[trigger]
        inside(w, h, jj, ii) && near(y, x, jj, ii) && (jj < j || (jj == j && ii < i)) ==> opened(
            at(f, w, jj, ii),
        )
}

/// What holds while the flood runs from row `r0`, column `c0` of board `f0`,
/// with `st` the positions still to be looked at and row `y`, column `x` the
/// one that is being looked at.
pub open spec fn flooding(
    f0: Seq<u8>,
    f: Seq<u8>,
    w: int,
    h: int,
    r0: int,
    c0: int,
    st: Seq<(u16, u16)>,
    y: int,
    x: int,
) -> bool {
    &&& 1 <= w
    &&& 1 <= h
    &&& f0.len() == w * h
    &&& f.len() == w * h
    &&& inside(w, h, r0, c0)
    &&& fresh(f0, f, w, r0, c0)
    &&& forall|k: int|
        0 <= k < f.len() ==> (#[trigger] f[k] == f0[k] || (!opened(f0[k]) && f[k] == with_open(
            f0[k],
        )))
    &&& forall|k: int| 0 <= k < f.len() ==> (forced(#[trigger] f[k]) ==> opened(f[k]))
    &&& forall|t: int|
        0 <= t < st.len() ==> inside(w, h, (#[trigger] st[t]).0 as int, st[t].1 as int) && fresh(
            f0,
            f,
            w,
            st[t].0 as int,
            st[t].1 as int,
        )
    &&& forall|r: int, c: int| #[trigger]
        inside(w, h, r, c) && fresh(f0, f, w, r, c) ==> reach(f0, w, h, r0, c0, r, c)
    &&& forall|r: int, c: int, j: int, i: int|
        #![trigger inside(w, h, r, c), inside(w, h, j, i)]
        inside(w, h, r, c) && inside(w, h, j, i) && fresh(f0, f, w, r, c) && value(
            at(f0, w, r, c),
        ) == 0 && near(r, c, j, i) && !waiting(st, r, c) && !(r == y && c == x) ==> opened(
            at(f, w, j, i),
        )
}

/// A step at the end of a way that the flood takes is a way of the flood.
pub proof fn lemma_extend(f: Seq<u8>, w: int, h: int, r0: int, c0: int, y: int, x: int, j: int, i: int)
    requires
        reach(f, w, h, r0, c0, y, x),
        step(f, w, h, (y, x), (j, i)),
    ensures
        reach(f, w, h, r0, c0, j, i),
{
    let p = choose|p: Seq<(int, int)>| #[trigger]
        chain(f, w, h, p) && p[0] == (r0, c0) && p.last() == (y, x);
    let q = p.push((j, i));
    assert forall|t: int| 0 <= t < q.len() - 1 implies step(f, w, h, #[trigger] q[t], q[t + 1]) by {
        if t < p.len() - 1 {
            assert(q[t] == p[t]);
            assert(q[t + 1] == p[t + 1]);
        } else {
            assert(q[t] == (y, x));
        }
    }
    assert(chain(f, w, h, q) && q[0] == (r0, c0) && q.last() == (j, i));
}

/// The flood gets to its start.
pub proof fn lemma_reach_start(f: Seq<u8>, w: int, h: int, r0: int, c0: int)
    ensures
        reach(f, w, h, r0, c0, r0, c0),
{
    let p = seq![(r0, c0)];
    assert(chain(f, w, h, p) && p[0] == (r0, c0) && p.last() == (r0, c0));
}

/// The state of the flood right after its first cell was opened.
proof fn lemma_flood_begin(f0: Seq<u8>, w: int, h: int, r0: int, c0: int, st: Seq<(u16, u16)>)
    requires
        1 <= w,
        1 <= h,
        f0.len() == w * h,
        inside(w, h, r0, c0),
        !opened(at(f0, w, r0, c0)),
        forall|k: int| 0 <= k < f0.len() ==> (forced(#[trigger] f0[k]) ==> opened(f0[k])),
        st.len() == 1,
        st[0].0 == r0,
        st[0].1 == c0,
    ensures
        flooding(
            f0,
            f0.update(r0 * w + c0, with_open(at(f0, w, r0, c0))),
            w,
            h,
            r0,
            c0,
            st,
            -1,
            -1,
        ),
        played_cells(f0.update(r0 * w + c0, with_open(at(f0, w, r0, c0)))) == played_cells(f0) + 1,
{
    let k0 = r0 * w + c0;
    let v = with_open(at(f0, w, r0, c0));
    let f = f0.update(k0, v);
    lemma_index(w, h, r0, c0);
    lemma_open(at(f0, w, r0, c0));
    lemma_update(f0, w, h, r0, c0, v);
    lemma_played_step(f0, k0, v);
    lemma_reach_start(f0, w, h, r0, c0);
    assert(inside(w, h, r0, c0));
    assert forall|r: int, c: int| #[trigger] inside(w, h, r, c) && fresh(f0, f, w, r, c) implies reach(
        f0,
        w,
        h,
        r0,
        c0,
        r,
        c,
    ) by {
        assert(r == r0 && c == c0);
    }
    assert forall|r: int, c: int, j: int, i: int|
        #![trigger inside(w, h, r, c), inside(w, h, j, i)]
        inside(w, h, r, c) && inside(w, h, j, i) && fresh(f0, f, w, r, c) && value(at(f0, w, r, c))
            == 0 && near(r, c, j, i) && !waiting(st, r, c) && !(r == -1 && c == -1) implies opened(
        at(f, w, j, i),
    ) by {
        assert(r == r0 && c == c0);
        assert(st[0].0 == r && st[0].1 == c);
        assert(waiting(st, r, c));
    }
}

/// Taking the last position off the list leaves the flood in order, with
/// that position as the one being looked at.
proof fn lemma_flood_pop(
    f0: Seq<u8>,
    f: Seq<u8>,
    w: int,
    h: int,
    r0: int,
    c0: int,
    st: Seq<(u16, u16)>,
)
    requires
        flooding(f0, f, w, h, r0, c0, st, -1, -1),
        st.len() > 0,
    ensures
        flooding(f0, f, w, h, r0, c0, st.drop_last(), st.last().0 as int, st.last().1 as int),
        reach(f0, w, h, r0, c0, st.last().0 as int, st.last().1 as int),
        fresh(f0, f, w, st.last().0 as int, st.last().1 as int),
        inside(w, h, st.last().0 as int, st.last().1 as int),
{
    let s1 = st.drop_last();
    let y = st.last().0 as int;
    let x = st.last().1 as int;
    assert(inside(w, h, st[st.len() - 1].0 as int, st[st.len() - 1].1 as int));
    assert forall|t: int| 0 <= t < s1.len() implies inside(
        w,
        h,
        (#[trigger] s1[t]).0 as int,
        s1[t].1 as int,
    ) && fresh(f0, f, w, s1[t].0 as int, s1[t].1 as int) by {
        assert(s1[t] == st[t]);
    }
    assert forall|r: int, c: int, j: int, i: int|
        #![trigger inside(w, h, r, c), inside(w, h, j, i)]
        inside(w, h, r, c) && inside(w, h, j, i) && fresh(f0, f, w, r, c) && value(at(f0, w, r, c))
            == 0 && near(r, c, j, i) && !waiting(s1, r, c) && !(r == y && c == x) implies opened(
        at(f, w, j, i),
    ) by {
        if waiting(st, r, c) {
            let t = choose|t: int| 0 <= t < st.len() && (#[trigger] st[t]).0 == r && st[t].1 == c;
            assert(t < st.len() - 1);
            assert(s1[t] == st[t]);
            assert(waiting(s1, r, c));
        }
    }
}

/// Opening an unopened cell that touches the cell of value 0 being looked
/// at, and putting it on the list, leaves the flood in order.
proof fn lemma_flood_open(
    f0: Seq<u8>,
    f: Seq<u8>,
    w: int,
    h: int,
    r0: int,
    c0: int,
    st: Seq<(u16, u16)>,
    y: int,
    x: int,
    j: u16,
    i: u16,
)
    requires
        flooding(f0, f, w, h, r0, c0, st, y, x),
        inside(w, h, y, x),
        reach(f0, w, h, r0, c0, y, x),
        value(at(f0, w, y, x)) == 0,
        inside(w, h, j as int, i as int),
        near(y, x, j as int, i as int),
        !opened(at(f, w, j as int, i as int)),
        covered(f, w, h, y, x, j as int, i as int),
    ensures
        flooding(
            f0,
            f.update(j * w + i, with_open(at(f, w, j as int, i as int))),
            w,
            h,
            r0,
            c0,
            st.push((j, i)),
            y,
            x,
        ),
        played_cells(f.update(j * w + i, with_open(at(f, w, j as int, i as int)))) == played_cells(f)
            + 1,
        covered(
            f.update(j * w + i, with_open(at(f, w, j as int, i as int))),
            w,
            h,
            y,
            x,
            j as int,
            i + 1,
        ),
{
    lemma_index(w, h, j as int, i as int);
    let k = j * w + i;
    let u = at(f, w, j as int, i as int);
    let v = with_open(u);
    let g = f.update(k, v);
    let s2 = st.push((j, i));
    lemma_open(u);
    lemma_open(f0[k]);
    lemma_update(f, w, h, j as int, i as int, v);
    assert(f[k] == u);
    assert(u == f0[k]);
    assert(!forced(u));
    lemma_played_step(f, k, v);
    assert(step(f0, w, h, (y, x), (j as int, i as int)));
    lemma_extend(f0, w, h, r0, c0, y, x, j as int, i as int);
    assert forall|t: int| 0 <= t < s2.len() implies inside(
        w,
        h,
        (#[trigger] s2[t]).0 as int,
        s2[t].1 as int,
    ) && fresh(f0, g, w, s2[t].0 as int, s2[t].1 as int) by {
        if t < st.len() {
            assert(s2[t] == st[t]);
            assert(inside(w, h, st[t].0 as int, st[t].1 as int));
        }
    }
    assert forall|r: int, c: int| #[trigger] inside(w, h, r, c) && fresh(f0, g, w, r, c) implies reach(
        f0,
        w,
        h,
        r0,
        c0,
        r,
        c,
    ) by {
        if !(r == j && c == i) {
            assert(fresh(f0, f, w, r, c));
        }
    }
    assert(s2[st.len() as int] == (j, i));
    assert(waiting(s2, j as int, i as int));
    assert forall|r: int, c: int, jj: int, ii: int|
        #![trigger inside(w, h, r, c), inside(w, h, jj, ii)]
        inside(w, h, r, c) && inside(w, h, jj, ii) && fresh(f0, g, w, r, c) && value(
            at(f0, w, r, c),
        ) == 0 && near(r, c, jj, ii) && !waiting(s2, r, c) && !(r == y && c == x) implies opened(
        at(g, w, jj, ii),
    ) by {
        assert(!(r == j && c == i));
        assert(fresh(f0, f, w, r, c));
        if waiting(st, r, c) {
            let t = choose|t: int| 0 <= t < st.len() && (#[trigger] st[t]).0 == r && st[t].1 == c;
            assert(s2[t] == st[t]);
            assert(waiting(s2, r, c));
        }
        assert(opened(at(f, w, jj, ii)));
    }
    assert forall|jj: int, ii: int| #[trigger]
        inside(w, h, jj, ii) && near(y, x, jj, ii) && (jj < j || (jj == j && ii < i + 1)) implies opened(
        at(g, w, jj, ii),
    ) by {
        if !(jj == j && ii == i) {
            assert(opened(at(f, w, jj, ii)));
        }
    }
}

/// Once every cell around the one being looked at is open, or that one has
/// a value other than 0, the flood is in order with no cell being looked at.
proof fn lemma_flood_next(
    f0: Seq<u8>,
    f: Seq<u8>,
    w: int,
    h: int,
    r0: int,
    c0: int,
    st: Seq<(u16, u16)>,
    y: int,
    x: int,
)
    requires
        flooding(f0, f, w, h, r0, c0, st, y, x),
        value(at(f0, w, y, x)) != 0 || covered(f, w, h, y, x, y + 2, 0),
    ensures
        flooding(f0, f, w, h, r0, c0, st, -1, -1),
{
    assert forall|r: int, c: int, j: int, i: int|
        #![trigger inside(w, h, r, c), inside(w, h, j, i)]
        inside(w, h, r, c) && inside(w, h, j, i) && fresh(f0, f, w, r, c) && value(at(f0, w, r, c))
            == 0 && near(r, c, j, i) && !waiting(st, r, c) && !(r == -1 && c == -1) implies opened(
        at(f, w, j, i),
    ) by {
        if r == y && c == x {
            assert(covered(f, w, h, y, x, y + 2, 0));
        }
    }
}

/// With no position left on the list, every cell on a way of the flood was
/// opened by it.
proof fn lemma_flood_all(
    f0: Seq<u8>,
    f: Seq<u8>,
    w: int,
    h: int,
    r0: int,
    c0: int,
    st: Seq<(u16, u16)>,
    p: Seq<(int, int)>,
    t: int,
)
    requires
        flooding(f0, f, w, h, r0, c0, st, -1, -1),
        st.len() == 0,
        chain(f0, w, h, p),
        p[0] == (r0, c0),
        0 <= t < p.len(),
    ensures
        inside(w, h, p[t].0, p[t].1),
        fresh(f0, f, w, p[t].0, p[t].1),
    decreases t,
{
    if t > 0 {
        lemma_flood_all(f0, f, w, h, r0, c0, st, p, t - 1);
        assert(step(f0, w, h, p[t - 1], p[t - 1 + 1]));
        assert(!waiting(st, p[t - 1].0, p[t - 1].1));
        assert(inside(w, h, p[t - 1].0, p[t - 1].1) && inside(w, h, p[t].0, p[t].1));
    }
}

/// With no position left on the list, the board is the one that the flood
/// leaves.
proof fn lemma_flood_end(
    f0: Seq<u8>,
    f: Seq<u8>,
    w: int,
    h: int,
    r0: int,
    c0: int,
    st: Seq<(u16, u16)>,
)
    requires
        flooding(f0, f, w, h, r0, c0, st, -1, -1),
        st.len() == 0,
    ensures
        flooded(f0, f, w, h, r0, c0),
{
    assert forall|r: int, c: int| #[trigger] inside(w, h, r, c) implies at(f, w, r, c) == if reach(
        f0,
        w,
        h,
        r0,
        c0,
        r,
        c,
    ) {
        with_open(at(f0, w, r, c))
    } else {
        at(f0, w, r, c)
    } by {
        lemma_index(w, h, r, c);
        let k = r * w + c;
        assert(f[k] == f0[k] || (!opened(f0[k]) && f[k] == with_open(f0[k])));
        lemma_open(f0[k]);
        if reach(f0, w, h, r0, c0, r, c) {
            let p = choose|p: Seq<(int, int)>| #[trigger]
                chain(f0, w, h, p) && p[0] == (r0, c0) && p.last() == (r, c);
            lemma_flood_all(f0, f, w, h, r0, c0, st, p, p.len() - 1);
        } else {
            assert(!fresh(f0, f, w, r, c));
        }
    }
}

impl MineField {
    /// Opens the unopened cell at row `r`, column `c`, unless it holds a
    /// mine, and with it every cell that the flood from there gets to. The
    /// status counts each cell that was opened. The result says whether the
    /// cell held no mine.
    pub fn open(&mut self, r: u16, c: u16) -> (ok: bool)
        requires
            old(self).shaped(),
            old(self).s < 0x4000,
            r < old(self).h,
            c < old(self).w,
            !opened(old(self).cell(r as int, c as int)),
        ensures
            ok == !mined(old(self).cell(r as int, c as int)),
            !ok ==> *final(self) == *old(self),
            ok ==> flooded(
                old(self).f@,
                final(self).f@,
                old(self).w as int,
                old(self).h as int,
                r as int,
                c as int,
            ),
            ok ==> final(self).s > old(self).s,
            final(self).f@.len() == old(self).f@.len(),
            forall|k: int|
                0 <= k < old(self).f@.len() ==> #[trigger] final(self).f@[k] == old(self).f@[k]
                    || final(self).f@[k] == with_open(old(self).f@[k]),
            *final(self) == (MineField { f: final(self).f, s: final(self).s, ..*old(self) }),
            final(self).shaped(),
            final(self).s < 0x4000,
            final(self).s == played_cells(final(self).f@),
    {
        let k0: usize = self.index(r, c);
        let u: u8 = self.f[k0];
        proof {
            lemma_status(self.s);
            lemma_played_bound(self.f@);
        }
        if is_mine(u) {
            return false;
        }
        let ghost f0 = self.f@;
        let ghost w = self.w as int;
        let ghost h = self.h as int;
        let ghost r0 = r as int;
        let ghost c0 = c as int;
        let mut stack: Vec<(u16, u16)> = Vec::new();
        stack.push((r, c));
        proof {
            lemma_flood_begin(f0, w, h, r0, c0, stack@);
            lemma_played_bound(f0.update(r0 * w + c0, with_open(u)));
        }
        self.f.set(k0, set_o(u, false));
        self.s = self.s + 1;
        proof {
            lemma_status(self.s);
        }
        while stack.len() > 0
            invariant
                *self == (MineField { f: self.f, s: self.s, ..*old(self) }),
                w == self.w as int,
                h == self.h as int,
                f0 == old(self).f@,
                self.shaped(),
                self.s < 0x4000,
                old(self).s < self.s,
                self.s == played_cells(self.f@),
                self.s <= self.w * self.h,
                flooding(f0, self.f@, w, h, r0, c0, stack@, -1, -1),
            decreases 2 * (self.w * self.h - self.s) + stack.len(),
        {
            let ghost before = 2 * (self.w * self.h - self.s) + stack.len();
            proof {
                lemma_flood_pop(f0, self.f@, w, h, r0, c0, stack@);
            }
            let top: (u16, u16) = stack.pop().unwrap();
            let y: u16 = top.0;
            let x: u16 = top.1;
            let v: u8 = self.get(y, x);
            proof {
                lemma_index(w, h, y as int, x as int);
                lemma_open(f0[y * w + x]);
            }
            if get_v(v) == 0 {
                let rs: u16 = if y > 0 { y - 1 } else { y };
                let re: u16 = if y < self.h - 1 { y + 1 } else { y };
                let cs: u16 = if x > 0 { x - 1 } else { x };
                let ce: u16 = if x < self.w - 1 { x + 1 } else { x };
                let mut j: u16 = rs;
                while j <= re
                    invariant
                        *self == (MineField { f: self.f, s: self.s, ..*old(self) }),
                        w == self.w as int,
                        h == self.h as int,
                        f0 == old(self).f@,
                        self.shaped(),
                        self.s < 0x4000,
                        old(self).s < self.s,
                        self.s == played_cells(self.f@),
                        self.s <= self.w * self.h,
                        flooding(f0, self.f@, w, h, r0, c0, stack@, y as int, x as int),
                        inside(w, h, y as int, x as int),
                        reach(f0, w, h, r0, c0, y as int, x as int),
                        value(at(f0, w, y as int, x as int)) == 0,
                        rs == if y > 0 { y - 1 } else { y as int },
                        re == if y < h - 1 { y + 1 } else { y as int },
                        cs == if x > 0 { x - 1 } else { x as int },
                        ce == if x < w - 1 { x + 1 } else { x as int },
                        rs <= j <= re + 1,
                        covered(self.f@, w, h, y as int, x as int, j as int, cs as int),
                        2 * (self.w * self.h - self.s) + stack.len() < before,
                    decreases re + 1 - j,
                {
                    let mut i: u16 = cs;
                    while i <= ce
                        invariant
                            *self == (MineField { f: self.f, s: self.s, ..*old(self) }),
                            w == self.w as int,
                            h == self.h as int,
                            f0 == old(self).f@,
                            self.shaped(),
                            self.s < 0x4000,
                            old(self).s < self.s,
                            self.s == played_cells(self.f@),
                            self.s <= self.w * self.h,
                            flooding(f0, self.f@, w, h, r0, c0, stack@, y as int, x as int),
                            inside(w, h, y as int, x as int),
                            reach(f0, w, h, r0, c0, y as int, x as int),
                            value(at(f0, w, y as int, x as int)) == 0,
                            rs == if y > 0 { y - 1 } else { y as int },
                            re == if y < h - 1 { y + 1 } else { y as int },
                            cs == if x > 0 { x - 1 } else { x as int },
                            ce == if x < w - 1 { x + 1 } else { x as int },
                            rs <= j <= re,
                            cs <= i <= ce + 1,
                            covered(self.f@, w, h, y as int, x as int, j as int, i as int),
                            2 * (self.w * self.h - self.s) + stack.len() < before,
                        decreases ce + 1 - i,
                    {
                        let q: u8 = self.get(j, i);
                        if !is_o(q) {
                            let k: usize = self.index(j, i);
                            proof {
                                lemma_flood_open(
                                    f0,
                                    self.f@,
                                    w,
                                    h,
                                    r0,
                                    c0,
                                    stack@,
                                    y as int,
                                    x as int,
                                    j,
                                    i,
                                );
                                lemma_played_bound(self.f@.update(k as int, with_open(q)));
                            }
                            self.f.set(k, set_o(q, false));
                            self.s = self.s + 1;
                            stack.push((j, i));
                            proof {
                                lemma_status(self.s);
                            }
                        }
                        i += 1;
                    }
                    j += 1;
                }
            }
            proof {
                lemma_flood_next(f0, self.f@, w, h, r0, c0, stack@, y as int, x as int);
            }
        }
        proof {
            lemma_flood_end(f0, self.f@, w, h, r0, c0, stack@);
        }
        true
    }
}

} // verus!
