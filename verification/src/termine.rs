//! The game at the terminal: what a key or a pointer press does to the
//! field, and what the caller is to draw after it.

use vstd::prelude::*;
use crate::cell::{opened, with_end};
use crate::field::{lemma_status, tick_redraws, ticked, MineField};
use crate::play::clicked;

verus! {

/// A key, as far as the game tells keys apart.
#[derive(Clone, Copy, Debug, PartialEq, Eq, Structural)]
pub enum Key {
    Left,
    Right,
    Up,
    Down,
    Esc,
    Char(char),
    Ctrl(char),
    Other,
}

/// What a key asks of the field.
#[derive(Clone, Copy, Debug, PartialEq, Eq, Structural)]
pub enum Ask {
    Left,
    Down,
    Up,
    Right,
    Select,
    Nothing,
}

/// What came in while the game waited: nothing within the idle time, the
/// end of the input, a key, a pointer press at a screen position, or an
/// event that the game ignores.
#[derive(Clone, Copy, Debug, PartialEq, Eq, Structural)]
pub enum Input {
    Timeout,
    Disconnected,
    Key(Key),
    Press(u16, u16),
    Other,
}

/// The status line to write after an input.
#[derive(Clone, Copy, Debug, PartialEq, Eq, Structural)]
pub enum Note {
    Nothing,
    /// The number of mines and of opened cells.
    Field(u16, u16),
    /// The position of a pointer press.
    Pointer(u16, u16),
}

/// What the caller does after an input: write a status line, draw the
/// board again, and go on or stop.
#[derive(Clone, Copy, Debug, PartialEq, Eq, Structural)]
pub struct Step {
    pub note: Note,
    pub redraw: bool,
    pub go_on: bool,
}

/// Why the game cannot go on.
#[derive(Clone, Copy, Debug, PartialEq, Eq, Structural)]
pub enum Fault {
    /// The source of the input is gone.
    Disconnected,
}

/// The game: a mine field that keys and pointer presses act on.
#[derive(Clone, Debug, PartialEq, Eq)]
pub struct Termine {
    pub m: MineField,
}

/// What a key asks for: the arrows and `h`, `j`, `k`, `l` move the cursor,
/// the space bar selects, every other key asks nothing.
pub open spec fn asked(k: Key) -> Ask {
    match k {
        Key::Left => Ask::Left,
        Key::Down => Ask::Down,
        Key::Up => Ask::Up,
        Key::Right => Ask::Right,
        Key::Char(ch) => if ch == 'h' {
            Ask::Left
        } else if ch == 'j' {
            Ask::Down
        } else if ch == 'k' {
            Ask::Up
        } else if ch == 'l' {
            Ask::Right
        } else if ch == ' ' {
            Ask::Select
        } else {
            Ask::Nothing
        },
        _ => Ask::Nothing,
    }
}

/// Whether a key ends the game: Ctrl-c, `q` and escape.
pub open spec fn quits(k: Key) -> bool {
    match k {
        Key::Ctrl(ch) => ch == 'c',
        Key::Char(ch) => ch == 'q' || ch == '\x1b',
        Key::Esc => true,
        _ => false,
    }
}

/// The cursor after one movement on a board of `w` by `h` cells: one cell
/// in the direction asked for, or where it was at the edge.
pub open spec fn cursor_after(w: int, h: int, p: (int, int), a: Ask) -> (int, int) {
    match a {
        Ask::Up => (if p.0 > 0 { p.0 - 1 } else { p.0 }, p.1),
        Ask::Down => (if p.0 < h - 1 { p.0 + 1 } else { p.0 }, p.1),
        Ask::Left => (p.0, if p.1 > 0 { p.1 - 1 } else { p.1 }),
        Ask::Right => (p.0, if p.1 < w - 1 { p.1 + 1 } else { p.1 }),
        _ => p,
    }
}

/// The cursor after a sequence of movements.
pub open spec fn cursor_after_all(w: int, h: int, p: (int, int), s: Seq<Ask>) -> (int, int)
    decreases s.len(),
{
    if s.len() == 0 {
        p
    } else {
        cursor_after(w, h, cursor_after_all(w, h, p, s.drop_last()), s.last())
    }
}

/// A cursor on the board stays on the board, whatever movements follow.
pub proof fn lemma_cursor_stays(w: int, h: int, p: (int, int), s: Seq<Ask>)
    requires
        0 <= p.0 < h,
        0 <= p.1 < w,
    ensures
        0 <= cursor_after_all(w, h, p, s).0 < h,
        0 <= cursor_after_all(w, h, p, s).1 < w,
    decreases s.len(),
{
    if s.len() > 0 {
        lemma_cursor_stays(w, h, p, s.drop_last());
    }
}

/// Field `b` and result `f` are what key `k` makes of field `a`: a movement
/// moves the cursor, a select acts as `clicked` says, and the result says
/// whether the board is to be drawn again. Any other key leaves the field.
pub open spec fn keyed(a: MineField, k: Key, b: MineField, f: bool) -> bool {
    match asked(k) {
        Ask::Nothing => b == a && !f,
        Ask::Select => clicked(a, b) && f == a.selectable(),
        mv => {
            let p = cursor_after(a.w as int, a.h as int, (a.r as int, a.c as int), mv);
            b == (MineField { r: p.0 as u16, c: p.1 as u16, ..a }) && f
        },
    }
}

/// Field `b` and step `st` are what follows on a key or press that left
/// field `a`, where `f` says that the field has changed: a change starts
/// the blink period over and asks for a redraw. If the game is over, every
/// cell is opened, the board is drawn a last time, and the game stops.
pub open spec fn settled(a: MineField, f: bool, note: Note, b: MineField, st: Step) -> bool {
    let t = if f { 0u16 } else { a.t };
    if a.s >= 0x4000 {
        &&& b == (MineField { f: b.f, t: t, ..a })
        &&& b.f@.len() == a.f@.len()
        &&& forall|k: int| 0 <= k < a.f@.len() ==> #[trigger] b.f@[k] == with_end(a.f@[k])
        &&& st == (Step { note: note, redraw: true, go_on: false })
    } else {
        &&& b == (MineField { t: t, ..a })
        &&& st == (Step { note: note, redraw: f, go_on: true })
    }
}

/// Field `b` and result `res` are what input `ev` makes of field `a`.
pub open spec fn stepped(a: MineField, ev: Input, b: MineField, res: Result<Step, Fault>) -> bool {
    match ev {
        Input::Disconnected => b == a && res == Err::<Step, Fault>(Fault::Disconnected),
        Input::Timeout => {
            &&& b == (MineField { t: ticked(a.t, a.b), ..a })
            &&& res == Ok::<Step, Fault>(
                Step {
                    note: Note::Field(a.m, (a.s & 0x3fff) as u16),
                    redraw: tick_redraws(a.t, a.b),
                    go_on: true,
                },
            )
        },
        Input::Key(k) => if quits(k) {
            b == a && res == Ok::<Step, Fault>(
                Step { note: Note::Nothing, redraw: false, go_on: false },
            )
        } else {
            exists|mid: MineField, f: bool, st: Step| #[trigger]
                keyed(a, k, mid, f) && #[trigger] settled(mid, f, Note::Nothing, b, st) && res
                    == Ok::<Step, Fault>(st)
        },
        Input::Press(x, y) => {
            exists|mid: MineField, st: Step| #[trigger]
                clicked(a, mid) && #[trigger] settled(
                    mid,
                    a.selectable(),
                    Note::Pointer(x, y),
                    b,
                    st,
                ) && res == Ok::<Step, Fault>(st)
        },
        Input::Other => b == a && res == Ok::<Step, Fault>(
            Step { note: Note::Nothing, redraw: false, go_on: true },
        ),
    }
}

/// What a key asks for.
pub fn ask(k: Key) -> (a: Ask)
    ensures
        a == asked(k),
{
    match k {
        Key::Left => Ask::Left,
        Key::Down => Ask::Down,
        Key::Up => Ask::Up,
        Key::Right => Ask::Right,
        Key::Char(ch) => {
            if ch == 'h' {
                Ask::Left
            } else if ch == 'j' {
                Ask::Down
            } else if ch == 'k' {
                Ask::Up
            } else if ch == 'l' {
                Ask::Right
            } else if ch == ' ' {
                Ask::Select
            } else {
                Ask::Nothing
            }
        },
        _ => Ask::Nothing,
    }
}

/// Whether a key ends the game.
pub fn is_quit(k: Key) -> (q: bool)
    ensures
        q == quits(k),
{
    match k {
        Key::Ctrl(ch) => ch == 'c',
        Key::Char(ch) => ch == 'q' || ch == '\x1b',
        Key::Esc => true,
        _ => false,
    }
}

/// The six colours of the board as red, green and blue: background and
/// foreground of a closed cell, of an opened cell, and of a cell opened by
/// force.
pub fn palette() -> (p: Vec<(u8, u8, u8)>)
    ensures
        p@ == seq![
            (96u8, 240u8, 32u8),
            (32u8, 96u8, 240u8),
            (32u8, 96u8, 240u8),
            (240u8, 192u8, 32u8),
            (240u8, 32u8, 96u8),
            (240u8, 192u8, 32u8),
        ],
{
    let mut p: Vec<(u8, u8, u8)> = Vec::new();
    p.push((96, 240, 32));
    p.push((32, 96, 240));
    p.push((32, 96, 240));
    p.push((240, 192, 32));
    p.push((240, 32, 96));
    p.push((240, 192, 32));
    assert(p@ =~= seq![
        (96u8, 240u8, 32u8),
        (32u8, 96u8, 240u8),
        (32u8, 96u8, 240u8),
        (240u8, 192u8, 32u8),
        (240u8, 32u8, 96u8),
        (240u8, 192u8, 32u8),
    ]);
    p
}

impl Termine {
    /// A game on a field, with the blink period at its start.
    pub fn new(m: MineField) -> (g: Termine)
        ensures
            g.m == (MineField { t: 0, ..m }),
    {
        let mut g = Termine { m };
        g.m.reset_tick();
        g
    }

    /// Lets a key act on the field. The result says whether the board is to
    /// be drawn again: after a movement, and after a select that changed a
    /// cell.
    pub fn key(&mut self, k: Key) -> (f: bool)
        requires
            old(self).m.ready(),
        ensures
            final(self).m.ready(),
            keyed(old(self).m, k, final(self).m, f),
    {
        match ask(k) {
            Ask::Left => {
                self.m.left();
                true
            },
            Ask::Down => {
                self.m.down();
                true
            },
            Ask::Up => {
                self.m.up();
                true
            },
            Ask::Right => {
                self.m.right();
                true
            },
            Ask::Select => self.m.click(),
            Ask::Nothing => false,
        }
    }

    /// What follows on a key or a press: a change starts the blink period
    /// over; the end of the game opens every cell and stops the game.
    pub fn settle(&mut self, f: bool, note: Note) -> (st: Step)
        requires
            old(self).m.ready(),
        ensures
            final(self).m.ready(),
            settled(old(self).m, f, note, final(self).m, st),
    {
        if f {
            self.m.reset_tick();
        }
        if self.m.is_end() {
            proof {
                lemma_status(self.m.s);
            }
            self.m.ending();
            Step { note, redraw: true, go_on: false }
        } else {
            proof {
                lemma_status(self.m.s);
            }
            Step { note, redraw: f, go_on: true }
        }
    }

    /// Handles one input. An idle time counts a tick; a quit key stops the
    /// game; any other key, and a pointer press, which selects the cell
    /// under the cursor, act on the field; the end of the input is a fault.
    pub fn proc(&mut self, ev: Input) -> (res: Result<Step, Fault>)
        requires
            old(self).m.ready(),
        ensures
            final(self).m.ready(),
            stepped(old(self).m, ev, final(self).m, res),
    {
        match ev {
            Input::Disconnected => Err(Fault::Disconnected),
            Input::Timeout => {
                let note = Note::Field(self.m.m, self.m.opened());
                let redraw = self.m.tick();
                Ok(Step { note, redraw, go_on: true })
            },
            Input::Key(k) => {
                if is_quit(k) {
                    return Ok(Step { note: Note::Nothing, redraw: false, go_on: false });
                }
                let f = self.key(k);
                let ghost mid = self.m;
                let st = self.settle(f, Note::Nothing);
                proof {
                    assert(keyed(old(self).m, k, mid, f) && settled(
                        mid,
                        f,
                        Note::Nothing,
                        self.m,
                        st,
                    ));
                }
                Ok(st)
            },
            Input::Press(x, y) => {
                let f = self.m.click();
                let ghost mid = self.m;
                let st = self.settle(f, Note::Pointer(x, y));
                proof {
                    assert(clicked(old(self).m, mid) && settled(
                        mid,
                        f,
                        Note::Pointer(x, y),
                        self.m,
                        st,
                    ));
                }
                Ok(st)
            },
            Input::Other => Ok(Step { note: Note::Nothing, redraw: false, go_on: true }),
        }
    }
}

} // verus!
