//! Bounds-checked big-endian readers shared by both container walkers.
//!
//! Every reader answers `None` when the bytes it is asked for are not all
//! inside the slice, so a caller can never read out of range through them.

use vstd::prelude::*;
use crate::model::FloatBits;

verus! {

/// The number that a run of bytes spells in big-endian order: the last byte
/// is the least significant.
pub open spec fn be_value(bytes: Seq<u8>) -> nat
    decreases bytes.len(),
{
    if bytes.len() == 0 {
        0
    } else {
        be_value(bytes.drop_last()) * 256 + bytes.last() as nat
    }
}

/// 256 to the power `n`.
pub open spec fn pow256(n: nat) -> nat
    decreases n,
{
    if n == 0 {
        1
    } else {
        256 * pow256((n - 1) as nat)
    }
}

/// The two bytes at `at`, read as a big-endian number.
pub open spec fn be16(data: Seq<u8>, at: int) -> int {
    data[at] as int * 256 + data[at + 1] as int
}

/// The four bytes at `at`, read as a big-endian number.
pub open spec fn be32(data: Seq<u8>, at: int) -> int {
    be16(data, at) * 65536 + be16(data, at + 2)
}

/// The eight bytes at `at`, read as a big-endian number.
pub open spec fn be64(data: Seq<u8>, at: int) -> int {
    be32(data, at) * 4294967296 + be32(data, at + 4)
}

/// A run of `n` bytes spells a number below 256 to the power `n`.
pub proof fn lemma_be_value_bound(bytes: Seq<u8>)
    ensures
        be_value(bytes) < pow256(bytes.len()),
    decreases bytes.len(),
{
    if bytes.len() > 0 {
        lemma_be_value_bound(bytes.drop_last());
    }
}

/// Eight bytes are exactly what an unsigned 64-bit integer holds.
pub proof fn lemma_pow256_eight()
    ensures
        pow256(8) == 0x1_0000_0000_0000_0000,
{
    reveal_with_fuel(pow256, 9);
}

/// `pow256` grows with its argument.
pub proof fn lemma_pow256_monotonic(a: nat, b: nat)
    requires
        a <= b,
    ensures
        pow256(a) <= pow256(b),
        pow256(a) >= 1,
    decreases b,
{
    if a < b {
        lemma_pow256_monotonic(a, (b - 1) as nat);
    } else if a > 0 {
        lemma_pow256_monotonic((a - 1) as nat, (a - 1) as nat);
    }
}

/// The fixed-width readers agree with the general one: the bytes that
/// `be16`, `be32` and `be64` read spell the same number under `be_value`.
pub proof fn lemma_fixed_width_is_be_value(data: Seq<u8>, at: int)
    requires
        0 <= at,
    ensures
        at + 2 <= data.len() ==> be_value(data.subrange(at, at + 2)) == be16(data, at),
        at + 4 <= data.len() ==> be_value(data.subrange(at, at + 4)) == be32(data, at),
        at + 8 <= data.len() ==> be_value(data.subrange(at, at + 8)) == be64(data, at),
{
    if at + 2 <= data.len() {
        lemma_be_value_prefix(data, at, 1);
        lemma_be_value_prefix(data, at, 2);
    }
    if at + 4 <= data.len() {
        lemma_be_value_prefix(data, at, 3);
        lemma_be_value_prefix(data, at, 4);
    }
    if at + 8 <= data.len() {
        lemma_be_value_prefix(data, at, 5);
        lemma_be_value_prefix(data, at, 6);
        lemma_be_value_prefix(data, at, 7);
        lemma_be_value_prefix(data, at, 8);
    }
}

/// Reading one byte more multiplies what was read by 256 and adds the byte.
pub proof fn lemma_be_value_prefix(data: Seq<u8>, at: int, n: int)
    requires
        0 <= at,
        1 <= n,
        at + n <= data.len(),
    ensures
        be_value(data.subrange(at, at + n)) == be_value(data.subrange(at, at + n - 1)) * 256
            + data[at + n - 1] as nat,
        n == 1 ==> be_value(data.subrange(at, at + n)) == data[at] as nat,
{
    let run = data.subrange(at, at + n);
    assert(run.drop_last() =~= data.subrange(at, at + n - 1));
    assert(run.last() == data[at + n - 1]);
    if n == 1 {
        assert(be_value(run.drop_last()) == 0);
    }
}

/// Reads an unsigned 16-bit big-endian integer at `offset`.
pub fn read_u16_be(data: &[u8], offset: usize) -> (r: Option<u16>)
    ensures
        r is Some <==> offset + 2 <= data@.len(),
        r is Some ==> r->0 as int == be16(data@, offset as int),
{
    if data.len() < 2 || offset > data.len() - 2 {
        return None;
    }
    Some(data[offset] as u16 * 256 + data[offset + 1] as u16)
}

/// Reads an unsigned 32-bit big-endian integer at `offset`.
pub fn read_u32_be(data: &[u8], offset: usize) -> (r: Option<u32>)
    ensures
        r is Some <==> offset + 4 <= data@.len(),
        r is Some ==> r->0 as int == be32(data@, offset as int),
{
    if data.len() < 4 || offset > data.len() - 4 {
        return None;
    }
    let hi: u32 = data[offset] as u32 * 256 + data[offset + 1] as u32;
    let lo: u32 = data[offset + 2] as u32 * 256 + data[offset + 3] as u32;
    Some(hi * 65536 + lo)
}

/// Reads an unsigned 64-bit big-endian integer at `offset`.
pub fn read_u64_be(data: &[u8], offset: usize) -> (r: Option<u64>)
    ensures
        r is Some <==> offset + 8 <= data@.len(),
        r is Some ==> r->0 as int == be64(data@, offset as int),
{
    if data.len() < 8 || offset > data.len() - 8 {
        return None;
    }
    let hi: u32 = match read_u32_be(data, offset) {
        Some(v) => v,
        None => return None,
    };
    let lo: u32 = match read_u32_be(data, offset + 4) {
        Some(v) => v,
        None => return None,
    };
    Some(hi as u64 * 4294967296 + lo as u64)
}

/// Reads a whole slice of one to eight bytes as an unsigned big-endian
/// integer. Any other width is refused.
pub fn read_uint_be(bytes: &[u8]) -> (r: Option<u64>)
    ensures
        r is Some <==> 1 <= bytes@.len() <= 8,
        r is Some ==> r->0 as nat == be_value(bytes@),
{
    if bytes.len() == 0 || bytes.len() > 8 {
        return None;
    }
    let mut value: u64 = 0;
    let mut i: usize = 0;
    while i < bytes.len()
        invariant
            i <= bytes@.len() <= 8,
            value as nat == be_value(bytes@.take(i as int)),
        decreases bytes@.len() - i,
    {
        proof {
            let seen = bytes@.take(i as int);
            let more = bytes@.take(i + 1);
            assert(more.drop_last() =~= seen);
            lemma_be_value_bound(seen);
            lemma_pow256_monotonic(i as nat, 7);
            lemma_pow256_monotonic(8, 8);
            lemma_pow256_eight();
            assert(pow256(8) == 256 * pow256(7));
        }
        value = value * 256 + bytes[i] as u64;
        i += 1;
    }
    proof {
        assert(bytes@.take(i as int) =~= bytes@);
    }
    Some(value)
}

/// The floating-point number that a whole run of bytes holds: a single of
/// four bytes or a double of eight, big-endian. No other width holds one.
pub open spec fn float_of(bytes: Seq<u8>) -> Option<FloatBits> {
    if bytes.len() == 4 {
        Some(FloatBits::Single(be32(bytes, 0) as u32))
    } else if bytes.len() == 8 {
        Some(FloatBits::Double(be64(bytes, 0) as u64))
    } else {
        None
    }
}

/// Reads a whole slice of exactly four or eight bytes as a big-endian
/// floating-point number, and hands out its bits.
pub fn read_float_be(bytes: &[u8]) -> (r: Option<FloatBits>)
    ensures
        r == float_of(bytes@),
{
    if bytes.len() == 4 {
        match read_u32_be(bytes, 0) {
            Some(v) => Some(FloatBits::Single(v)),
            None => None,
        }
    } else if bytes.len() == 8 {
        match read_u64_be(bytes, 0) {
            Some(v) => Some(FloatBits::Double(v)),
            None => None,
        }
    } else {
        None
    }
}

} // verus!
