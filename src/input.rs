//! The per-frame input of one player: four direction bits in a `u32`.
use vstd::prelude::*;

verus! {

/// Bit of the "up" direction.
pub const UP: u32 = 1;

/// Bit of the "down" direction.
pub const DOWN: u32 = 2;

/// Bit of the "left" direction.
pub const LEFT: u32 = 4;

/// Bit of the "right" direction.
pub const RIGHT: u32 = 8;

/// Mask of every defined direction bit.
pub const ALL_BITS: u32 = 15;

/// One player's input for one simulation tick. Equality is bitwise.
#[derive(Clone, Copy, Debug, PartialEq, Eq, Structural, Hash)]
pub struct PlayerInputFrame {
    pub bits: u32,
}

impl PlayerInputFrame {
    /// Whether every bit of `flag` is set in this input.
    pub open spec fn has(self, flag: u32) -> bool {
        self.bits & flag == flag
    }

    /// The neutral input: no direction held.
    pub fn empty() -> (r: PlayerInputFrame)
        ensures
            r.bits == 0,
    {
        PlayerInputFrame { bits: 0 }
    }

    /// The input with the given bits, undefined bits dropped.
    pub fn from_bits_truncate(bits: u32) -> (r: PlayerInputFrame)
        ensures
            r.bits == bits & ALL_BITS,
    {
        PlayerInputFrame { bits: bits & ALL_BITS }
    }

    /// The raw bits.
    pub fn bits(&self) -> (r: u32)
        ensures
            r == self.bits,
    {
        self.bits
    }

    /// Whether every bit of `flag` is set.
    pub fn contains(&self, flag: u32) -> (r: bool)
        ensures
            r == self.has(flag),
    {
        self.bits & flag == flag
    }

    /// Sets every bit of `flag`.
    pub fn insert(&mut self, flag: u32)
        ensures
            final(self).bits == old(self).bits | flag,
    {
        self.bits = self.bits | flag;
    }
}

/// The byte form of an input: its bits, least significant byte first.
pub open spec fn encoded(bits: u32) -> Seq<u8> {
    seq![
        (bits % 256) as u8,
        ((bits / 256) % 256) as u8,
        ((bits / 65536) % 256) as u8,
        ((bits / 16777216) % 256) as u8,
    ]
}

/// The value of four bytes read least significant first.
pub open spec fn decoded(b: Seq<u8>) -> int {
    b[0] as int + 256 * b[1] as int + 65536 * b[2] as int + 16777216 * b[3] as int
}

/// Encodes an input as four bytes, identical on every platform.
pub fn encode_input(input: PlayerInputFrame) -> (r: Vec<u8>)
    ensures
        r@ == encoded(input.bits),
{
    let b = input.bits;
    let mut r: Vec<u8> = Vec::new();
    r.push((b % 256) as u8);
    r.push(((b / 256) % 256) as u8);
    r.push(((b / 65536) % 256) as u8);
    r.push(((b / 16777216) % 256) as u8);
    assert(r@ =~= encoded(b));
    r
}

/// Decodes the four bytes that start at `at`; `None` when fewer remain.
pub fn decode_input(bytes: &Vec<u8>, at: usize) -> (r: Option<PlayerInputFrame>)
    ensures
        at as int + 4 <= bytes@.len() <==> r.is_some(),
        r matches Some(f) ==> f.bits as int == decoded(bytes@.subrange(at as int, at + 4)),
{
    if at > bytes.len() || bytes.len() - at < 4 {
        return None;
    }
    let v: u32 = bytes[at] as u32 + 256 * (bytes[at + 1] as u32) + 65536 * (bytes[at + 2] as u32)
        + 16777216 * (bytes[at + 3] as u32);
    Some(PlayerInputFrame { bits: v })
}

/// Decoding the encoding of an input gives the input back.
pub proof fn lemma_input_round_trip(bits: u32)
    ensures
        decoded(encoded(bits)) == bits as int,
{
    let b = bits as int;
    assert(b == b % 256 + 256 * ((b / 256) % 256) + 65536 * ((b / 65536) % 256) + 16777216 * ((
    b / 16777216) % 256)) by (nonlinear_arith)
        requires
            0 <= b < 0x1_0000_0000,
    ;
}

/// The input for the held keys. Left wins over right and up over down, as
/// on a keyboard where both of a pair can be pressed at once.
pub fn input_from_keys(left: bool, right: bool, up: bool, down: bool) -> (r: PlayerInputFrame)
    ensures
        r.bits == (if left { LEFT } else if right { RIGHT } else { 0 }) | (if up {
            UP
        } else if down {
            DOWN
        } else {
            0
        }),
{
    let h: u32 = if left {
        LEFT
    } else if right {
        RIGHT
    } else {
        0
    };
    let v: u32 = if up {
        UP
    } else if down {
        DOWN
    } else {
        0
    };
    PlayerInputFrame { bits: h | v }
}

/// The direction a player moves in one tick: each held direction contributes
/// one unit on its axis; opposite directions cancel.
pub open spec fn delta_of(input: PlayerInputFrame) -> (int, int) {
    (
        (if input.has(RIGHT) { 1int } else { 0 }) - (if input.has(LEFT) { 1int } else { 0 }),
        (if input.has(UP) { 1int } else { 0 }) - (if input.has(DOWN) { 1int } else { 0 }),
    )
}

/// The unit movement of one tick for an input.
pub fn movement_delta(input: PlayerInputFrame) -> (r: (i32, i32))
    ensures
        (r.0 as int, r.1 as int) == delta_of(input),
{
    let mut dx: i32 = 0;
    let mut dy: i32 = 0;
    if input.contains(LEFT) {
        dx = dx - 1;
    }
    if input.contains(RIGHT) {
        dx = dx + 1;
    }
    if input.contains(DOWN) {
        dy = dy - 1;
    }
    if input.contains(UP) {
        dy = dy + 1;
    }
    (dx, dy)
}

} // verus!
