//! The synchronization protocol's pieces that need no transport: the wire
//! form of one input message, and the tracking of checksum mismatches.
use vstd::prelude::*;
use crate::input::{decoded, encoded, lemma_input_round_trip, PlayerInputFrame};

verus! {

/// The length of an input message: a frame number then an input.
pub const MESSAGE_LEN: usize = 12;

/// The eight bytes of `frame`, least significant first.
pub open spec fn frame_bytes(frame: u64) -> Seq<u8> {
    Seq::new(8, |i: int| ((frame as int / pow256(i)) % 256) as u8)
}

/// `256` to the power `i`.
pub open spec fn pow256(i: int) -> int
    decreases i,
{
    if i <= 0 {
        1
    } else {
        256 * pow256(i - 1)
    }
}

/// The wire form of the input of `frame`.
pub open spec fn message_bytes(frame: u64, input: PlayerInputFrame) -> Seq<u8> {
    frame_bytes(frame) + encoded(input.bits)
}

/// The value of `b` read least significant byte first.
pub open spec fn le_value(b: Seq<u8>) -> int
    decreases b.len(),
{
    if b.len() == 0 {
        0
    } else {
        b[0] as int + 256 * le_value(b.drop_first())
    }
}

/// Encodes the input of `frame` for sending to a peer.
pub fn encode_message(frame: u64, input: PlayerInputFrame) -> (r: Vec<u8>)
    ensures
        r@ == message_bytes(frame, input),
{
    let mut r: Vec<u8> = Vec::new();
    let mut v: u64 = frame;
    let mut i: usize = 0;
    while i < 8
        invariant
            i <= 8,
            r@.len() == i,
            v as int == frame as int / pow256(i as int),
            forall|j: int| 0 <= j < i ==> r@[j] == ((frame as int / pow256(j)) % 256) as u8,
        decreases 8 - i,
    {
        proof {
            lemma_div_step(frame as int, i as int);
        }
        r.push((v % 256) as u8);
        v = v / 256;
        i = i + 1;
    }
    let tail = crate::input::encode_input(input);
    let mut k: usize = 0;
    while k < 4
        invariant
            k <= 4,
            tail@ == encoded(input.bits),
            r@.len() == 8 + k,
            r@.subrange(0, 8) == frame_bytes(frame),
            forall|j: int| 0 <= j < k ==> r@[8 + j] == tail@[j],
        decreases 4 - k,
    {
        proof {
            assert(r@.subrange(0, 8) =~= r@.push(tail@[k as int]).subrange(0, 8));
        }
        r.push(tail[k]);
        k = k + 1;
    }
    assert(r@ =~= message_bytes(frame, input));
    r
}

proof fn lemma_div_step(x: int, i: int)
    requires
        0 <= x,
        0 <= i,
    ensures
        x / pow256(i) / 256 == x / pow256(i + 1),
        pow256(i) > 0,
{
    lemma_pow256_pos(i);
    vstd::arithmetic::div_mod::lemma_div_denominator(x, pow256(i), 256);
    assert(pow256(i + 1) == 256 * pow256(i));
    assert(pow256(i) * 256 == 256 * pow256(i)) by (nonlinear_arith);
}

proof fn lemma_pow256_pos(i: int)
    ensures
        pow256(i) > 0,
    decreases i,
{
    if i > 0 {
        lemma_pow256_pos(i - 1);
    }
}

/// Decodes a message: `None` unless it is exactly `MESSAGE_LEN` bytes.
pub fn decode_message(bytes: &Vec<u8>) -> (r: Option<(u64, PlayerInputFrame)>)
    ensures
        r.is_some() <==> bytes@.len() == MESSAGE_LEN,
        r matches Some((f, i)) ==> f as int == le_value(bytes@.subrange(0, 8)) && i.bits as int
            == decoded(bytes@.subrange(8, 12)),
{
    if bytes.len() != MESSAGE_LEN {
        return None;
    }
    let mut v: u64 = 0;
    let mut i: usize = 8;
    while i > 0
        invariant
            i <= 8,
            bytes@.len() == MESSAGE_LEN,
            v as int == le_value(bytes@.subrange(i as int, 8)),
            v as int <= pow256(8 - i) - 1,
        decreases i,
    {
        i = i - 1;
        proof {
            assert(bytes@.subrange(i as int, 8).drop_first() =~= bytes@.subrange(i + 1, 8));
            assert(pow256(8 - i) == 256 * pow256(8 - i - 1));
            lemma_pow256_eight();
            lemma_pow_mono(8 - i);
            assert(256 * (v as int) + 255 <= 256 * pow256(8 - i - 1) - 1) by (nonlinear_arith)
                requires
                    v as int <= pow256(8 - i - 1) - 1,
            ;
        }
        v = v * 256 + bytes[i] as u64;
    }
    let input = crate::input::decode_input(bytes, 8);
    match input {
        Some(inp) => Some((v, inp)),
        None => None,
    }
}

proof fn lemma_pow256_eight()
    ensures
        pow256(8) == 0x1_0000_0000_0000_0000,
{
    reveal_with_fuel(pow256, 9);
}

proof fn lemma_pow_mono(k: int)
    requires
        0 <= k <= 8,
    ensures
        pow256(k) <= pow256(8),
    decreases 8 - k,
{
    if k < 8 {
        lemma_pow_mono(k + 1);
        lemma_pow256_pos(k);
    }
}

proof fn lemma_frame_suffix(f: u64, k: int)
    requires
        0 <= k <= 8,
    ensures
        le_value(frame_bytes(f).subrange(k, 8)) == f as int / pow256(k),
    decreases 8 - k,
{
    let s = frame_bytes(f);
    lemma_pow256_pos(k);
    if k == 8 {
        lemma_pow256_eight();
        assert(s.subrange(8, 8).len() == 0);
        assert(le_value(s.subrange(8, 8)) == 0);
        assert(f as int / 0x1_0000_0000_0000_0000int == 0) by (nonlinear_arith)
            requires
                0 <= f < 0x1_0000_0000_0000_0000int,
        ;
    } else {
        lemma_frame_suffix(f, k + 1);
        assert(s.subrange(k, 8).drop_first() =~= s.subrange(k + 1, 8));
        lemma_div_step(f as int, k);
        let q = f as int / pow256(k);
        assert(q == 256 * (q / 256) + q % 256) by {
            vstd::arithmetic::div_mod::lemma_fundamental_div_mod(q, 256);
        }
        let t = s.subrange(k, 8);
        assert(t[0] == s[k]);
        assert(s[k] as int == q % 256);
        assert(le_value(t) == t[0] as int + 256 * le_value(t.drop_first()));
    }
}

/// Decoding the wire form of an input message gives back its frame and
/// its input.
pub proof fn lemma_message_round_trip(frame: u64, input: PlayerInputFrame)
    ensures
        message_bytes(frame, input).len() == MESSAGE_LEN,
        le_value(message_bytes(frame, input).subrange(0, 8)) == frame as int,
        decoded(message_bytes(frame, input).subrange(8, 12)) == input.bits as int,
{
    let m = message_bytes(frame, input);
    assert(m.subrange(0, 8) =~= frame_bytes(frame).subrange(0, 8));
    lemma_frame_suffix(frame, 0);
    assert(m.subrange(8, 12) =~= encoded(input.bits));
    lemma_input_round_trip(input.bits);
}

} // verus!
