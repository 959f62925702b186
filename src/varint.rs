use vstd::prelude::*;
use crate::error::DecodeError;

verus! {

/// `128` raised to `k`.
pub open spec fn pow128(k: nat) -> nat
    decreases k,
{
    if k == 0 {
        1
    } else {
        128 * pow128((k - 1) as nat)
    }
}

/// The LEB128 bytes of `v`: seven value bits in each byte, lowest group
/// first, the high bit set on every byte but the last.
pub open spec fn uvarint_bytes(v: nat) -> Seq<u8>
    decreases v,
{
    if v < 128 {
        seq![v as u8]
    } else {
        seq![(v % 128 + 128) as u8] + uvarint_bytes(v / 128)
    }
}

/// The number that the seven-bit groups of `s` stand for, first group lowest.
pub open spec fn groups_value(s: Seq<u8>) -> nat
    decreases s.len(),
{
    if s.len() == 0 {
        0
    } else {
        (s[0] % 128) as nat + 128 * groups_value(s.drop_first())
    }
}

/// `s` starts with a varint of `n` bytes: byte `n - 1` is the first one
/// whose high bit is clear, and that happens within ten bytes.
pub open spec fn uvarint_ends_at(s: Seq<u8>, n: int) -> bool {
    &&& 1 <= n <= 10
    &&& n <= s.len()
    &&& s[n - 1] < 128
    &&& forall|j: int| 0 <= j < n - 1 ==> s[j] >= 128
}

/// `s` starts with a complete varint.
pub open spec fn uvarint_well_formed(s: Seq<u8>) -> bool {
    exists|n: int| uvarint_ends_at(s, n)
}

/// What a varint of `n` bytes at the start of `s` decodes to: the value of
/// its groups, cut to 64 bits.
pub open spec fn uvarint_value(s: Seq<u8>, n: int) -> nat {
    groups_value(s.subrange(0, n)) % 0x1_0000_0000_0000_0000
}

/// The length of the varint that starts `s`, where one does.
pub open spec fn uvarint_end(s: Seq<u8>) -> int {
    choose|n: int| uvarint_ends_at(s, n)
}

/// The value and length of the varint at the start of `s`, or `None` where
/// `s` does not start with one.
pub open spec fn read_uvarint(s: Seq<u8>) -> Option<(u64, int)> {
    if uvarint_well_formed(s) {
        Some((uvarint_value(s, uvarint_end(s)) as u64, uvarint_end(s)))
    } else {
        None
    }
}

/// The signed value and length of the zig-zag varint at the start of `s`.
pub open spec fn read_varint(s: Seq<u8>) -> Option<(i64, int)> {
    match read_uvarint(s) {
        Some((u, n)) => Some((unzigzag(u as nat) as i64, n)),
        None => None,
    }
}

/// The zig-zag map from signed to unsigned: `0, -1, 1, -2, ...` become
/// `0, 1, 2, 3, ...`.
pub open spec fn zigzag(v: int) -> nat {
    if v >= 0 {
        (2 * v) as nat
    } else {
        (-2 * v - 1) as nat
    }
}

/// The inverse of [`zigzag`].
pub open spec fn unzigzag(u: nat) -> int {
    if u % 2 == 0 {
        (u / 2) as int
    } else {
        -((u / 2) as int) - 1
    }
}

/// The bytes that a signed value is written as.
pub open spec fn varint_bytes(v: int) -> Seq<u8> {
    uvarint_bytes(zigzag(v))
}

pub proof fn lemma_pow128_monotonic(a: nat, b: nat)
    requires
        a <= b,
    ensures
        pow128(a) <= pow128(b),
    decreases b,
{
    if a < b {
        lemma_pow128_monotonic(a, (b - 1) as nat);
    }
}

pub proof fn lemma_pow128_ten()
    ensures
        pow128(10) == 0x40_0000_0000_0000_0000,
{
    reveal_with_fuel(pow128, 11);
}

/// A value below `128^k` takes at most `k` bytes.
pub proof fn lemma_uvarint_len_bound(v: nat, k: nat)
    requires
        1 <= k,
        v < pow128(k),
    ensures
        uvarint_bytes(v).len() <= k,
        1 <= uvarint_bytes(v).len(),
    decreases v,
{
    if v >= 128 {
        if k == 1 {
            assert(pow128(1) == 128) by {
                reveal_with_fuel(pow128, 2);
            }
        } else {
            assert(v / 128 < pow128((k - 1) as nat));
            lemma_uvarint_len_bound(v / 128, (k - 1) as nat);
        }
    }
}

/// A 64-bit value takes between one and ten bytes.
pub proof fn lemma_uvarint_len_u64(v: u64)
    ensures
        1 <= uvarint_bytes(v as nat).len() <= 10,
{
    lemma_pow128_ten();
    lemma_uvarint_len_bound(v as nat, 10);
}

/// Reading the bytes of `v`, whatever follows them, ends where they end and
/// gives `v` back.
pub proof fn lemma_uvarint_round_trip(v: nat, rest: Seq<u8>)
    ensures
        ({
            let s = uvarint_bytes(v) + rest;
            let n = uvarint_bytes(v).len() as int;
            &&& s[n - 1] < 128
            &&& forall|j: int| 0 <= j < n - 1 ==> s[j] >= 128
            &&& groups_value(s.subrange(0, n)) == v
        }),
    decreases v,
{
    let s = uvarint_bytes(v) + rest;
    let n = uvarint_bytes(v).len() as int;
    if v < 128 {
        assert(s.subrange(0, n).drop_first() =~= Seq::<u8>::empty());
        assert(groups_value(Seq::<u8>::empty()) == 0);
        assert(s[0] == v as u8);
    } else {
        lemma_uvarint_round_trip(v / 128, rest);
        let t = uvarint_bytes(v / 128) + rest;
        assert(s =~= seq![(v % 128 + 128) as u8] + t);
        assert(s.subrange(0, n).drop_first() =~= t.subrange(0, n - 1));
        assert forall|j: int| 0 <= j < n - 1 implies s[j] >= 128 by {
            if j > 0 {
                assert(s[j] == t[j - 1]);
            }
        }
        assert(s[n - 1] == t[n - 2]);
        assert(s[0] == (v % 128 + 128) as u8);
        assert(groups_value(s.subrange(0, n)) == (s[0] % 128) as nat + 128 * groups_value(t.subrange(0, n - 1)));
    }
}

/// A varint that starts `s` ends at one place only.
pub proof fn lemma_uvarint_end_unique(s: Seq<u8>, n: int, m: int)
    requires
        uvarint_ends_at(s, n),
        uvarint_ends_at(s, m),
    ensures
        n == m,
{
    if n < m {
        assert(s[n - 1] >= 128);
    } else if m < n {
        assert(s[m - 1] >= 128);
    }
}

/// Varint encoding and decoding of a 64-bit value give it back, whatever
/// bytes follow.
pub proof fn lemma_uvarint_decode_encode(v: u64, rest: Seq<u8>)
    ensures
        read_uvarint(uvarint_bytes(v as nat) + rest) == Some((v, uvarint_bytes(v as nat).len() as int)),
{
    let s = uvarint_bytes(v as nat) + rest;
    let n = uvarint_bytes(v as nat).len() as int;
    lemma_uvarint_len_u64(v);
    lemma_uvarint_round_trip(v as nat, rest);
    assert(uvarint_ends_at(s, n));
    lemma_uvarint_end_unique(s, n, uvarint_end(s));
}

/// Signed varint encoding and decoding give the value back, whatever bytes
/// follow: for every `i64`, `decode_varint` reads back what `encode_varint`
/// wrote.
pub proof fn lemma_varint_decode_encode(v: i64, rest: Seq<u8>)
    ensures
        read_varint(varint_bytes(v as int) + rest) == Some((v, varint_bytes(v as int).len() as int)),
{
    let u = zigzag(v as int);
    assert(u <= u64::MAX);
    lemma_uvarint_decode_encode(u as u64, rest);
    lemma_unzigzag_zigzag(v as int);
}

/// Zig-zag decoding undoes zig-zag encoding.
pub proof fn lemma_unzigzag_zigzag(v: int)
    ensures
        unzigzag(zigzag(v)) == v,
{
}

/// Number of bytes that `encode_uvarint` writes for `value`.
pub fn encoded_len_varint(value: u64) -> (r: usize)
    ensures
        r == uvarint_bytes(value as nat).len(),
        1 <= r <= 10,
{
    proof {
        lemma_uvarint_len_u64(value);
    }
    let mut v = value;
    let mut n: usize = 1;
    while v >= 128
        invariant
            n + uvarint_bytes(v as nat).len() - 1 == uvarint_bytes(value as nat).len(),
            uvarint_bytes(value as nat).len() <= 10,
            1 <= n,
        decreases v,
    {
        proof {
            lemma_uvarint_len_u64((v / 128) as u64);
        }
        v = v / 128;
        n = n + 1;
    }
    n
}

/// Appends the LEB128 form of `value`.
pub fn encode_uvarint(value: u64, buf: &mut Vec<u8>)
    ensures
        final(buf)@ == old(buf)@ + uvarint_bytes(value as nat),
{
    let mut v = value;
    while v >= 128
        invariant
            buf@ + uvarint_bytes(v as nat) == old(buf)@ + uvarint_bytes(value as nat),
        decreases v,
    {
        let ghost before = buf@;
        buf.push((v % 128 + 128) as u8);
        assert(before + uvarint_bytes(v as nat) =~= buf@ + uvarint_bytes((v / 128) as nat));
        v = v / 128;
    }
    let ghost before = buf@;
    buf.push(v as u8);
    assert(before + uvarint_bytes(v as nat) =~= buf@);
}

/// Reads a LEB128 varint at `*pos`, and moves `*pos` past it.
///
/// Fails with `InvalidVarint` where the buffer ends before a byte with the
/// high bit clear, or ten bytes pass without one; `*pos` is then unchanged.
pub fn decode_uvarint(buf: &[u8], pos: &mut usize) -> (r: Result<u64, DecodeError>)
    requires
        *old(pos) <= buf@.len(),
    ensures
        ({
            let s = buf@.subrange(*old(pos) as int, buf@.len() as int);
            match r {
                Ok(v) => read_uvarint(s) == Some((v, *final(pos) - *old(pos))),
                Err(e) => {
                    &&& e == DecodeError::InvalidVarint
                    &&& read_uvarint(s) is None
                    &&& *final(pos) == *old(pos)
                }
            }
        }),
{
    let start = *pos;
    let ghost s = buf@.subrange(start as int, buf@.len() as int);
    let mut i: usize = 0;
    let len = buf.len();
    let avail = len - start;
    while i < 10 && i < avail && buf[start + i] >= 128
        invariant
            i <= 10,
            i <= avail,
            start + avail == buf@.len(),
            len == buf@.len(),
            s == buf@.subrange(start as int, buf@.len() as int),
            forall|j: int| 0 <= j < i ==> s[j] >= 128,
        decreases 10 - i,
    {
        i = i + 1;
    }
    if i == 10 || i == avail {
        proof {
            assert forall|n: int| !uvarint_ends_at(s, n) by {
                if uvarint_ends_at(s, n) {
                    assert(s[n - 1] < 128);
                }
            }
        }
        return Err(DecodeError::InvalidVarint);
    }
    let n = i + 1;
    assert(uvarint_ends_at(s, n as int));
    let mut v: u128 = 0;
    let mut j: usize = n;
    proof {
        assert(s.subrange(n as int, n as int) =~= Seq::<u8>::empty());
        lemma_pow128_ten();
    }
    while j > 0
        invariant
            j <= n <= 10,
            start + n <= buf@.len(),
            start <= buf@.len(),
            len == buf@.len(),
            s == buf@.subrange(start as int, buf@.len() as int),
            v == groups_value(s.subrange(j as int, n as int)),
            v < pow128((n - j) as nat),
            pow128(10) == 0x40_0000_0000_0000_0000,
        decreases j,
    {
        j = j - 1;
        let b = buf[start + j];
        proof {
            assert(s.subrange(j as int, n as int).drop_first() =~= s.subrange(j + 1, n as int));
            lemma_pow128_monotonic((n - j) as nat, 10);
        }
        v = v * 128 + (b % 128) as u128;
    }
    *pos = start + n;
    proof {
        lemma_uvarint_end_unique(s, n as int, uvarint_end(s));
    }
    Ok((v % 0x1_0000_0000_0000_0000) as u64)
}

/// Appends `value` zig-zag mapped and then as a varint.
pub fn encode_varint(value: i64, buf: &mut Vec<u8>)
    ensures
        final(buf)@ == old(buf)@ + varint_bytes(value as int),
{
    let ux: u64 = if value >= 0 {
        (value as u64) * 2
    } else {
        ((-(value + 1)) as u64) * 2 + 1
    };
    encode_uvarint(ux, buf);
}

/// Reads a varint and undoes the zig-zag map.
pub fn decode_varint(buf: &[u8], pos: &mut usize) -> (r: Result<i64, DecodeError>)
    requires
        *old(pos) <= buf@.len(),
    ensures
        ({
            let s = buf@.subrange(*old(pos) as int, buf@.len() as int);
            match r {
                Ok(v) => read_varint(s) == Some((v, *final(pos) - *old(pos))),
                Err(e) => {
                    &&& e == DecodeError::InvalidVarint
                    &&& read_varint(s) is None
                    &&& *final(pos) == *old(pos)
                }
            }
        }),
{
    let val = decode_uvarint(buf, pos)?;
    if val % 2 == 0 {
        Ok((val / 2) as i64)
    } else {
        Ok(-((val / 2) as i64) - 1)
    }
}

} // verus!

verus! {

/// The 8-bit value with the low byte of `v`'s two's-complement pattern.
pub open spec fn wrap_i8(v: int) -> int {
    if v % 256 >= 128 {
        v % 256 - 256
    } else {
        v % 256
    }
}

/// The 16-bit value with the low two bytes of `v`'s two's-complement pattern.
pub open spec fn wrap_i16(v: int) -> int {
    if v % 65536 >= 32768 {
        v % 65536 - 65536
    } else {
        v % 65536
    }
}

/// `v`'s two's-complement pattern taken modulo `m`.
fn low_bits(v: i64, m: u64) -> (r: u64)
    requires
        m == 256 || m == 65536,
    ensures
        r as int == (v as int) % (m as int),
{
    if v >= 0 {
        (v as u64) % m
    } else {
        let bits = (v as i128 + 0x1_0000_0000_0000_0000) as u64;
        proof {
            vstd::arithmetic::div_mod::lemma_mod_add_multiples_vanish(v as int, m as int);
            assert(0x1_0000_0000_0000_0000int == (m as int) * (0x1_0000_0000_0000_0000int / m as int));
            vstd::arithmetic::div_mod::lemma_mod_multiples_vanish(
                0x1_0000_0000_0000_0000int / m as int,
                v as int,
                m as int,
            );
        }
        bits % m
    }
}

/// Appends `num` as a zig-zag varint.
pub fn encode_int8(num: i8, buf: &mut Vec<u8>)
    ensures
        final(buf)@ == old(buf)@ + varint_bytes(num as int),
{
    encode_varint(num as i64, buf)
}

/// Appends `num` as a zig-zag varint.
pub fn encode_int16(num: i16, buf: &mut Vec<u8>)
    ensures
        final(buf)@ == old(buf)@ + varint_bytes(num as int),
{
    encode_varint(num as i64, buf)
}

/// Reads a zig-zag varint and keeps its low eight bits.
pub fn decode_int8(buf: &[u8], pos: &mut usize) -> (r: Result<i8, DecodeError>)
    requires
        *old(pos) <= buf@.len(),
    ensures
        ({
            let s = buf@.subrange(*old(pos) as int, buf@.len() as int);
            match r {
                Ok(v) => read_varint(s) is Some && *final(pos) - *old(pos) == read_varint(s)->Some_0.1
                    && v == wrap_i8(read_varint(s)->Some_0.0 as int),
                Err(e) => e == DecodeError::InvalidVarint && read_varint(s) is None,
            }
        }),
{
    let v = decode_varint(buf, pos)?;
    let low = low_bits(v, 256);
    if low >= 128 {
        Ok((low as i16 - 256) as i8)
    } else {
        Ok(low as i8)
    }
}

/// Reads a zig-zag varint and keeps its low sixteen bits.
pub fn decode_int16(buf: &[u8], pos: &mut usize) -> (r: Result<i16, DecodeError>)
    requires
        *old(pos) <= buf@.len(),
    ensures
        ({
            let s = buf@.subrange(*old(pos) as int, buf@.len() as int);
            match r {
                Ok(v) => read_varint(s) is Some && *final(pos) - *old(pos) == read_varint(s)->Some_0.1
                    && v == wrap_i16(read_varint(s)->Some_0.0 as int),
                Err(e) => e == DecodeError::InvalidVarint && read_varint(s) is None,
            }
        }),
{
    let v = decode_varint(buf, pos)?;
    let low = low_bits(v, 65536);
    if low >= 32768 {
        Ok((low as i32 - 65536) as i16)
    } else {
        Ok(low as i16)
    }
}

} // verus!
