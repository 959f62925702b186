use vstd::prelude::*;
use vstd::arithmetic::div_mod::lemma_mod_breakdown;
use crate::error::DecodeError;

verus! {

/// `256` raised to `k`.
pub open spec fn pow256(k: nat) -> nat
    decreases k,
{
    if k == 0 {
        1
    } else {
        256 * pow256((k - 1) as nat)
    }
}

/// The low `8 * n` bits of `v` as `n` bytes, most significant first.
pub open spec fn be_bytes(v: nat, n: nat) -> Seq<u8>
    decreases n,
{
    if n == 0 {
        seq![]
    } else {
        be_bytes(v / 256, (n - 1) as nat).push((v % 256) as u8)
    }
}

/// The number that big-endian bytes stand for.
pub open spec fn be_value(s: Seq<u8>) -> nat
    decreases s.len(),
{
    if s.len() == 0 {
        0
    } else {
        be_value(s.drop_last()) * 256 + s.last() as nat
    }
}

/// The two's-complement bit pattern of a 32-bit signed value.
pub open spec fn bits_of_i32(v: int) -> nat {
    if v >= 0 {
        v as nat
    } else {
        (v + 0x1_0000_0000) as nat
    }
}

/// The 32-bit signed value with bit pattern `u`.
pub open spec fn i32_of_bits(u: nat) -> int {
    if u >= 0x8000_0000 {
        u - 0x1_0000_0000
    } else {
        u as int
    }
}

/// The two's-complement bit pattern of a 64-bit signed value.
pub open spec fn bits_of_i64(v: int) -> nat {
    if v >= 0 {
        v as nat
    } else {
        (v + 0x1_0000_0000_0000_0000) as nat
    }
}

/// The 64-bit signed value with bit pattern `u`.
pub open spec fn i64_of_bits(u: nat) -> int {
    if u >= 0x8000_0000_0000_0000 {
        u - 0x1_0000_0000_0000_0000
    } else {
        u as int
    }
}

/// Big-endian bytes read back give the value they were written from, cut
/// to their width.
pub proof fn lemma_be_round_trip(v: nat, n: nat)
    ensures
        be_bytes(v, n).len() == n,
        be_value(be_bytes(v, n)) == v % pow256(n),
    decreases n,
{
    if n > 0 {
        lemma_be_round_trip(v / 256, (n - 1) as nat);
        let s = be_bytes(v, n);
        assert(s.drop_last() =~= be_bytes(v / 256, (n - 1) as nat));
        lemma_pow256_positive((n - 1) as nat);
        lemma_mod_breakdown(v as int, 256, pow256((n - 1) as nat) as int);
    }
}

proof fn lemma_pow256_positive(k: nat)
    ensures
        pow256(k) > 0,
    decreases k,
{
    if k > 0 {
        lemma_pow256_positive((k - 1) as nat);
    }
}

proof fn lemma_pow256_facts()
    ensures
        pow256(4) == 0x1_0000_0000,
        pow256(8) == 0x1_0000_0000_0000_0000,
{
    reveal_with_fuel(pow256, 9);
}

proof fn lemma_pow256_monotonic(a: nat, b: nat)
    requires
        a <= b,
    ensures
        pow256(a) <= pow256(b),
    decreases b,
{
    if a < b {
        lemma_pow256_monotonic(a, (b - 1) as nat);
    }
}

/// Appends the low `8 * n` bits of `v`, most significant byte first.
fn push_be(v: u64, n: usize, buf: &mut Vec<u8>)
    requires
        n <= 8,
    ensures
        final(buf)@ == old(buf)@ + be_bytes(v as nat, n as nat),
    decreases n,
{
    if n > 0 {
        push_be(v / 256, n - 1, buf);
        buf.push((v % 256) as u8);
        assert(buf@ =~= old(buf)@ + be_bytes(v as nat, n as nat));
    }
}

/// Reads `n` bytes at `pos` as a big-endian number.
fn read_be(buf: &[u8], pos: usize, n: usize) -> (r: u64)
    requires
        n <= 8,
        pos + n <= buf@.len(),
    ensures
        r == be_value(buf@.subrange(pos as int, pos + n)),
{
    let len = buf.len();
    let mut v: u64 = 0;
    let mut i: usize = 0;
    proof {
        lemma_pow256_facts();
        assert(buf@.subrange(pos as int, pos as int) =~= Seq::<u8>::empty());
    }
    while i < n
        invariant
            i <= n <= 8,
            pos + n <= buf@.len(),
            len == buf@.len(),
            v == be_value(buf@.subrange(pos as int, pos + i)),
            v < pow256(i as nat),
            pow256(8) == 0x1_0000_0000_0000_0000,
        decreases n - i,
    {
        proof {
            lemma_pow256_monotonic((i + 1) as nat, 8);
            assert(pow256((i + 1) as nat) == 256 * pow256(i as nat));
            assert(v * 256 + 255 < pow256((i + 1) as nat));
            assert(buf@.subrange(pos as int, pos + i + 1).drop_last() =~= buf@.subrange(
                pos as int,
                pos + i,
            ));
        }
        v = v * 256 + buf[pos + i] as u64;
        i = i + 1;
    }
    v
}

/// Appends the bit pattern of `num` as four big-endian bytes.
pub fn encode_int32(num: i32, buf: &mut Vec<u8>)
    ensures
        final(buf)@ == old(buf)@ + be_bytes(bits_of_i32(num as int), 4),
{
    let bits: u64 = if num >= 0 {
        num as u64
    } else {
        (num as i64 + 0x1_0000_0000) as u64
    };
    push_be(bits, 4, buf);
}

/// Appends the bit pattern of `num` as eight big-endian bytes.
pub fn encode_int64(num: i64, buf: &mut Vec<u8>)
    ensures
        final(buf)@ == old(buf)@ + be_bytes(bits_of_i64(num as int), 8),
{
    let bits: u64 = if num >= 0 {
        num as u64
    } else {
        (num as i128 + 0x1_0000_0000_0000_0000) as u64
    };
    push_be(bits, 8, buf);
}

/// Reads four big-endian bytes at `*pos` as a signed 32-bit value.
///
/// Fails with `UnexpectedEof`, leaving `*pos` alone, where fewer than four
/// bytes remain.
pub fn decode_int32(buf: &[u8], pos: &mut usize) -> (r: Result<i32, DecodeError>)
    requires
        *old(pos) <= buf@.len(),
    ensures
        match r {
            Ok(v) => {
                &&& *old(pos) + 4 <= buf@.len()
                &&& *final(pos) == *old(pos) + 4
                &&& v == i32_of_bits(be_value(buf@.subrange(*old(pos) as int, *old(pos) + 4)))
            }
            Err(e) => {
                &&& e == DecodeError::UnexpectedEof
                &&& buf@.len() < *old(pos) + 4
                &&& *final(pos) == *old(pos)
            }
        },
{
    let start = *pos;
    if buf.len() - start < 4 {
        return Err(DecodeError::UnexpectedEof);
    }
    let u = read_be(buf, start, 4);
    proof {
        lemma_be_value_bound(buf@.subrange(start as int, start + 4));
        lemma_pow256_facts();
    }
    *pos = start + 4;
    if u >= 0x8000_0000 {
        Ok((u as i64 - 0x1_0000_0000) as i32)
    } else {
        Ok(u as i32)
    }
}

/// Reads eight big-endian bytes at `*pos` as a signed 64-bit value.
///
/// Fails with `UnexpectedEof`, leaving `*pos` alone, where fewer than eight
/// bytes remain.
pub fn decode_int64(buf: &[u8], pos: &mut usize) -> (r: Result<i64, DecodeError>)
    requires
        *old(pos) <= buf@.len(),
    ensures
        match r {
            Ok(v) => {
                &&& *old(pos) + 8 <= buf@.len()
                &&& *final(pos) == *old(pos) + 8
                &&& v == i64_of_bits(be_value(buf@.subrange(*old(pos) as int, *old(pos) + 8)))
            }
            Err(e) => {
                &&& e == DecodeError::UnexpectedEof
                &&& buf@.len() < *old(pos) + 8
                &&& *final(pos) == *old(pos)
            }
        },
{
    let start = *pos;
    if buf.len() - start < 8 {
        return Err(DecodeError::UnexpectedEof);
    }
    let u = read_be(buf, start, 8);
    *pos = start + 8;
    if u >= 0x8000_0000_0000_0000 {
        Ok((u as i128 - 0x1_0000_0000_0000_0000) as i64)
    } else {
        Ok(u as i64)
    }
}

/// Bytes stand for less than `256` raised to their count.
pub proof fn lemma_be_value_bound(s: Seq<u8>)
    ensures
        be_value(s) < pow256(s.len()),
    decreases s.len(),
{
    if s.len() > 0 {
        lemma_be_value_bound(s.drop_last());
    }
}

/// A 32-bit value written and read back as fixed-width bytes is unchanged.
pub proof fn lemma_int32_round_trip(v: i32)
    ensures
        i32_of_bits(be_value(be_bytes(bits_of_i32(v as int), 4))) == v,
        be_bytes(bits_of_i32(v as int), 4).len() == 4,
{
    lemma_be_round_trip(bits_of_i32(v as int), 4);
    lemma_pow256_facts();
}

/// A 64-bit value written and read back as fixed-width bytes is unchanged.
pub proof fn lemma_int64_round_trip(v: i64)
    ensures
        i64_of_bits(be_value(be_bytes(bits_of_i64(v as int), 8))) == v,
        be_bytes(bits_of_i64(v as int), 8).len() == 8,
{
    lemma_be_round_trip(bits_of_i64(v as int), 8);
    lemma_pow256_facts();
}

} // verus!
