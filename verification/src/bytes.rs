//! Little-endian byte encodings and chunk padding: the byte-level language
//! the primitive root encoders and the length-mixing step are specified in.

use vstd::arithmetic::div_mod::{lemma_div_denominator, lemma_fundamental_div_mod};
use vstd::prelude::*;

verus! {

/// 256 to the power `e`.
pub open spec fn pow256(e: nat) -> nat
    decreases e,
{
    if e == 0 {
        1
    } else {
        256 * pow256((e - 1) as nat)
    }
}

/// The `width`-byte little-endian encoding of `v`: byte `i` holds the
/// `i`-th base-256 digit, least significant first.
pub open spec fn spec_le_bytes(v: nat, width: nat) -> Seq<u8> {
    Seq::new(width, |i: int| ((v / pow256(i as nat)) % 256) as u8)
}

/// The value a little-endian byte string encodes.
pub open spec fn spec_from_le_bytes(s: Seq<u8>) -> nat
    decreases s.len(),
{
    if s.len() == 0 {
        0
    } else {
        (s[0] + 256 * spec_from_le_bytes(s.drop_first())) as nat
    }
}

/// A byte string of at most 32 bytes, zero-padded on the right to a full
/// chunk.
pub open spec fn spec_pad_chunk(s: Seq<u8>) -> Seq<u8> {
    s + Seq::new((32 - s.len()) as nat, |i: int| 0u8)
}

proof fn lemma_pow256_pos(e: nat)
    ensures
        pow256(e) >= 1,
    decreases e,
{
    if e > 0 {
        lemma_pow256_pos((e - 1) as nat);
    }
}

/// Dropping the first byte of an encoding encodes the value divided by 256.
proof fn lemma_le_bytes_shift(v: nat, width: nat)
    requires
        width >= 1,
    ensures
        spec_le_bytes(v, width).drop_first() =~= spec_le_bytes(v / 256, (width - 1) as nat),
{
    assert forall|i: int| 0 <= i < width - 1 implies spec_le_bytes(v, width).drop_first()[i]
        == spec_le_bytes(v / 256, (width - 1) as nat)[i] by {
        lemma_pow256_pos(i as nat);
        lemma_div_denominator(v as int, 256, pow256(i as nat) as int);
        assert(pow256((i + 1) as nat) == 256 * pow256(i as nat));
        assert((v as int / 256) / (pow256(i as nat) as int) == v as int / (256 * pow256(
            i as nat,
        ) as int));
    }
}

/// Decoding inverts encoding: the little-endian digits of a value that fits
/// in `width` bytes give that value back.
pub proof fn lemma_le_bytes_round_trip(v: nat, width: nat)
    requires
        v < pow256(width),
    ensures
        spec_from_le_bytes(spec_le_bytes(v, width)) == v,
    decreases width,
{
    if width == 0 {
    } else {
        let s = spec_le_bytes(v, width);
        lemma_le_bytes_shift(v, width);
        assert(v / 256 < pow256((width - 1) as nat)) by {
            lemma_pow256_pos((width - 1) as nat);
            assert(pow256(width) == 256 * pow256((width - 1) as nat));
            lemma_div_denominator(v as int, 256, pow256((width - 1) as nat) as int);
            assert(v as int / (256 * pow256((width - 1) as nat) as int) == 0) by {
                vstd::arithmetic::div_mod::lemma_basic_div(
                    v as int,
                    (256 * pow256((width - 1) as nat)) as int,
                );
            }
        }
        lemma_le_bytes_round_trip(v / 256, (width - 1) as nat);
        assert(s[0] == (v % 256) as u8) by {
            assert(pow256(0) == 1);
            vstd::arithmetic::div_mod::lemma_div_basics(v as int);
        }
        lemma_fundamental_div_mod(v as int, 256);
    }
}

/// Every byte of an encoding beyond the value's width is zero.
pub proof fn lemma_le_bytes_high_zero(v: nat, width: nat, w: nat)
    requires
        v < pow256(w),
    ensures
        forall|i: int| w <= i < width ==> spec_le_bytes(v, width)[i] == 0u8,
{
    assert forall|i: int| w <= i < width implies spec_le_bytes(v, width)[i] == 0u8 by {
        lemma_pow256_le(w, i as nat);
        lemma_pow256_pos(w);
        vstd::arithmetic::div_mod::lemma_basic_div(v as int, pow256(i as nat) as int);
    }
}

proof fn lemma_pow256_le(e1: nat, e2: nat)
    requires
        e1 <= e2,
    ensures
        pow256(e1) <= pow256(e2),
    decreases e2,
{
    if e1 < e2 {
        lemma_pow256_le(e1, (e2 - 1) as nat);
        lemma_pow256_pos((e2 - 1) as nat);
    }
}

/// The powers of 256 at the machine integer widths.
pub proof fn lemma_pow256_values()
    ensures
        pow256(1) == 0x100,
        pow256(2) == 0x1_0000,
        pow256(4) == 0x1_0000_0000,
        pow256(8) == 0x1_0000_0000_0000_0000,
{
    assert(pow256(0) == 1);
    assert(pow256(1) == 0x100);
    assert(pow256(2) == 0x1_0000);
    assert(pow256(3) == 0x100_0000);
    assert(pow256(4) == 0x1_0000_0000);
    assert(pow256(5) == 0x100_0000_0000);
    assert(pow256(6) == 0x1_0000_0000_0000);
    assert(pow256(7) == 0x100_0000_0000_0000);
    assert(pow256(8) == 0x1_0000_0000_0000_0000);
}

/// Round trip through a root chunk: for a value that fits in `w` bytes,
/// the first `w` bytes of its zero-padded chunk decode back to the value,
/// every later byte is zero, and the chunk is the value's 32-byte
/// encoding — the form the length-mixing step writes.
pub proof fn lemma_root_round_trip(v: nat, w: nat)
    requires
        w <= 32,
        v < pow256(w),
    ensures
        spec_from_le_bytes(spec_pad_chunk(spec_le_bytes(v, w)).take(w as int)) == v,
        forall|i: int| w <= i < 32 ==> spec_pad_chunk(spec_le_bytes(v, w))[i] == 0u8,
        spec_pad_chunk(spec_le_bytes(v, w)) == spec_le_bytes(v, 32),
{
    assert(spec_pad_chunk(spec_le_bytes(v, w)).take(w as int) =~= spec_le_bytes(v, w));
    lemma_le_bytes_round_trip(v, w);
    lemma_le_bytes_high_zero(v, 32, w);
    assert(spec_pad_chunk(spec_le_bytes(v, w)) =~= spec_le_bytes(v, 32));
}

/// The little-endian encoding of `v` in the given number of bytes; the
/// value must fit.
pub fn le_bytes_of_u64(v: u64, width: usize) -> (r: Vec<u8>)
    ensures
        r@ == spec_le_bytes(v as nat, width as nat),
        r@.len() == width,
{
    let mut bytes: Vec<u8> = Vec::new();
    let mut cur: u64 = v;
    let mut i: usize = 0;
    proof {
        assert(pow256(0) == 1);
        vstd::arithmetic::div_mod::lemma_div_basics(v as int);
    }
    while i < width
        invariant
            i <= width,
            bytes@.len() == i,
            cur == v as nat / pow256(i as nat),
            forall|j: int| 0 <= j < i ==> bytes@[j] == spec_le_bytes(v as nat, width as nat)[j],
        decreases width - i,
    {
        bytes.push((cur % 256) as u8);
        proof {
            lemma_pow256_pos(i as nat);
            lemma_div_denominator(v as int, pow256(i as nat) as int, 256);
            assert(pow256((i + 1) as nat) == 256 * pow256(i as nat));
            assert(pow256(i as nat) * 256 == 256 * pow256(i as nat)) by (nonlinear_arith);
        }
        cur = cur / 256;
        i = i + 1;
    }
    assert(bytes@ =~= spec_le_bytes(v as nat, width as nat));
    bytes
}

/// The 32-byte little-endian chunk encoding of a machine word.
pub fn le_chunk_of_usize(v: usize) -> (r: Vec<u8>)
    ensures
        r@ == spec_le_bytes(v as nat, 32),
        r@.len() == 32,
{
    le_bytes_of_u64(v as u64, 32)
}

/// Zero-pads a byte vector of at most 32 bytes to a full chunk.
pub fn pad_to_chunk(bytes: &mut Vec<u8>)
    requires
        old(bytes)@.len() <= 32,
    ensures
        final(bytes)@ == spec_pad_chunk(old(bytes)@),
        final(bytes)@.len() == 32,
{
    while bytes.len() < 32
        invariant
            old(bytes)@.len() <= bytes@.len() <= 32,
            bytes@.subrange(0, old(bytes)@.len() as int) == old(bytes)@,
            forall|j: int| old(bytes)@.len() <= j < bytes@.len() ==> bytes@[j] == 0u8,
        decreases 32 - bytes@.len(),
    {
        bytes.push(0u8);
        assert(bytes@.subrange(0, old(bytes)@.len() as int) =~= old(bytes)@);
    }
    assert(bytes@ =~= spec_pad_chunk(old(bytes)@));
}

} // verus!
