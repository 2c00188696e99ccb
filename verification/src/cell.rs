//! Bit-packed cell bytes.
//!
//! The low nibble of a byte holds the value of the cell: 0 to 8 is the number
//! of adjacent mines, 15 marks a mine. In the high nibble, bit 4 says that the
//! cell is opened and bit 7 that it was opened by force when the game ended.

use vstd::prelude::*;

verus! {

/// Bit that marks an opened cell.
pub const OPENED: u8 = 0x10;

/// Bit that marks a cell opened by force at the end of the game.
pub const FORCED: u8 = 0x80;

/// Value of a cell that holds a mine.
pub const MINE: u8 = 0x0f;

/// The decoded contents of a cell byte.
#[derive(Clone, Copy, Debug, PartialEq, Eq, Structural)]
pub struct Cell {
    pub opened: bool,
    pub forced: bool,
    pub value: u8,
}

/// Whether the byte has the opened bit.
pub open spec fn opened(u: u8) -> bool {
    u & 0x10 != 0
}

/// Whether the byte has the forced-open bit.
pub open spec fn forced(u: u8) -> bool {
    u & 0x80 != 0
}

/// The low nibble of the byte.
pub open spec fn value(u: u8) -> u8 {
    u & 0x0f
}

/// Whether the byte holds a mine.
pub open spec fn mined(u: u8) -> bool {
    u & 0x0f == 0x0f
}

/// Whether the player (not the end of the game) opened the cell.
pub open spec fn played(u: u8) -> bool {
    opened(u) && !forced(u)
}

/// The byte with the opened bit set.
pub open spec fn with_open(u: u8) -> u8 {
    u | 0x10
}

/// The byte after the end of the game: an unopened cell is opened by force,
/// an opened cell stays as it is.
pub open spec fn with_end(u: u8) -> u8 {
    if opened(u) {
        u
    } else {
        u | 0x90
    }
}

/// The byte that `encode` builds.
pub open spec fn encoded(o: bool, e: bool, v: u8) -> u8 {
    (if e { 0x80u8 } else { 0u8 }) | (if o { 0x10u8 } else { 0u8 }) | v
}

/// The contents that `decode` reads.
pub open spec fn decoded(u: u8) -> Cell {
    Cell { opened: opened(u), forced: forced(u), value: value(u) }
}

/// Packs the two active flags and a value into a byte.
pub fn encode(o: bool, e: bool, v: u8) -> (u: u8)
    requires
        v <= 15,
    ensures
        u == encoded(o, e, v),
        decoded(u) == (Cell { opened: o, forced: e, value: v }),
{
    let hi: u8 = if e { 0x80 } else { 0 };
    let lo: u8 = if o { 0x10 } else { 0 };
    proof {
        lemma_encode_decode(o, e, v);
    }
    hi | lo | v
}

/// Unpacks a byte. Every byte is a valid encoding.
pub fn decode(u: u8) -> (d: Cell)
    ensures
        d == decoded(u),
        d.value <= 15,
{
    assert(u & 0x0f <= 15) by (bit_vector);
    Cell { opened: u & 0x10 != 0, forced: u & 0x80 != 0, value: u & 0x0f }
}

/// Whether the cell is opened.
pub fn is_o(u: u8) -> (b: bool)
    ensures
        b == opened(u),
{
    u & 0x10 != 0
}

/// Whether the cell was opened by force.
pub fn is_e(u: u8) -> (b: bool)
    ensures
        b == forced(u),
{
    u & 0x80 != 0
}

/// The value of the cell.
pub fn get_v(u: u8) -> (v: u8)
    ensures
        v == value(u),
        v <= 15,
{
    assert(u & 0x0f <= 15) by (bit_vector);
    u & 0x0f
}

/// Whether the cell holds a mine.
pub fn is_mine(u: u8) -> (b: bool)
    ensures
        b == mined(u),
{
    u & 0x0f == 0x0f
}

/// Opens the cell. With `e` set, a cell that was not opened before also gets
/// the forced-open bit.
pub fn set_o(u: u8, e: bool) -> (v: u8)
    ensures
        v == if e { with_end(u) } else { with_open(u) },
        opened(v),
        value(v) == value(u),
{
    proof {
        lemma_open(u);
        lemma_end(u);
    }
    if e && u & 0x10 == 0 {
        assert(u | 0x80 | 0x10 == u | 0x90) by (bit_vector);
        u | 0x80 | 0x10
    } else {
        assert(u & 0x10 != 0 ==> u | 0x10 == u) by (bit_vector);
        u | 0x10
    }
}

/// Decoding what was encoded gives the parts back.
pub proof fn lemma_encode_decode(o: bool, e: bool, v: u8)
    requires
        v <= 15,
    ensures
        decoded(encoded(o, e, v)) == (Cell { opened: o, forced: e, value: v }),
{
    assert((0x80u8 | 0x10u8 | v) & 0x10 != 0 && (0x80u8 | 0x10u8 | v) & 0x80 != 0 && (0x80u8
        | 0x10u8 | v) & 0x0f == v) by (bit_vector)
        requires
            v <= 15,
    ;
    assert((0x80u8 | 0u8 | v) & 0x10 == 0 && (0x80u8 | 0u8 | v) & 0x80 != 0 && (0x80u8 | 0u8 | v)
        & 0x0f == v) by (bit_vector)
        requires
            v <= 15,
    ;
    assert((0u8 | 0x10u8 | v) & 0x10 != 0 && (0u8 | 0x10u8 | v) & 0x80 == 0 && (0u8 | 0x10u8 | v)
        & 0x0f == v) by (bit_vector)
        requires
            v <= 15,
    ;
    assert((0u8 | 0u8 | v) & 0x10 == 0 && (0u8 | 0u8 | v) & 0x80 == 0 && (0u8 | 0u8 | v) & 0x0f
        == v) by (bit_vector)
        requires
            v <= 15,
    ;
}

/// Encoding what was decoded gives the byte back, but for the two marks that
/// the engine never sets.
pub proof fn lemma_decode_encode(u: u8)
    ensures
        encoded(opened(u), forced(u), value(u)) == u & 0x9f,
{
    assert(((if u & 0x80 != 0 { 0x80u8 } else { 0u8 }) | (if u & 0x10 != 0 { 0x10u8 } else { 0u8 })
        | (u & 0x0f)) == u & 0x9f) by (bit_vector);
}

/// Opening keeps the value and the forced-open bit, and sets the opened bit.
pub proof fn lemma_open(u: u8)
    ensures
        opened(with_open(u)),
        value(with_open(u)) == value(u),
        mined(with_open(u)) == mined(u),
        forced(with_open(u)) == forced(u),
        opened(u) ==> with_open(u) == u,
{
    assert((u | 0x10) & 0x10 != 0) by (bit_vector);
    assert((u | 0x10) & 0x0f == u & 0x0f) by (bit_vector);
    assert((u | 0x10) & 0x80 == u & 0x80) by (bit_vector);
    assert(u & 0x10 != 0 ==> u | 0x10 == u) by (bit_vector);
}

/// The forced opening keeps the value, opens the cell, and marks exactly the
/// cells that were not opened before.
pub proof fn lemma_end(u: u8)
    ensures
        opened(with_end(u)),
        value(with_end(u)) == value(u),
        mined(with_end(u)) == mined(u),
        played(with_end(u)) == played(u),
        forced(with_end(u)) == (forced(u) || !opened(u)),
{
    assert((u | 0x90) & 0x10 != 0) by (bit_vector);
    assert((u | 0x90) & 0x0f == u & 0x0f) by (bit_vector);
    assert((u | 0x90) & 0x80 != 0) by (bit_vector);
}

/// A byte of at most 15 is an unopened cell whose value is the byte itself.
pub proof fn lemma_plain(u: u8)
    requires
        u <= 15,
    ensures
        !opened(u),
        !forced(u),
        value(u) == u,
        mined(u) == (u == 15),
{
    assert(u & 0x10 == 0 && u & 0x80 == 0 && u & 0x0f == u) by (bit_vector)
        requires
            u <= 15,
    ;
}

} // verus!
