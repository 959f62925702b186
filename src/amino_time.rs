use vstd::prelude::*;
use crate::error::DecodeError;
use crate::fixed::{bits_of_i64, i64_of_bits};
use crate::key::{
    decode_field_number_typ3,
    encode_field_number_typ3,
    field_key_bytes,
    read_key,
    Typ3Byte,
};
use crate::varint::{decode_uvarint, encode_uvarint, read_uvarint, uvarint_bytes};

verus! {

/// A point in time: whole seconds since the Unix epoch and the nanoseconds
/// past them.
#[derive(Debug, Clone, Copy, PartialEq, Eq, Structural)]
pub struct Timestamp {
    pub seconds: i64,
    pub nanos: u32,
}

/// The byte that closes an encoded time.
pub const STRUCT_TERM: u8 = 0x04;

/// The bytes of a time: field 1 holds the seconds' bit pattern as a varint,
/// field 2 the nanoseconds, and a closing byte follows.
pub open spec fn time_bytes(t: Timestamp) -> Seq<u8> {
    field_key_bytes(1, Typ3Byte::Typ3_8Byte) + uvarint_bytes(bits_of_i64(t.seconds as int))
        + field_key_bytes(2, Typ3Byte::Typ3_4Byte) + uvarint_bytes(t.nanos as nat) + seq![
        STRUCT_TERM,
    ]
}

/// A field key that must be `field_number` with wire type `typ`, then a
/// varint: the varint's value and where it ends.
pub open spec fn read_keyed_uvarint(s: Seq<u8>, field_number: u32, typ: Typ3Byte) -> Result<
    (u64, int),
    DecodeError,
> {
    match read_key(s) {
        Err(e) => Err(e),
        Ok((f, t, n)) => if f != field_number || t != typ {
            Err(DecodeError::UnexpectedField)
        } else {
            match read_uvarint(s.subrange(n, s.len() as int)) {
                None => Err(DecodeError::InvalidVarint),
                Some((v, m)) => Ok((v, n + m)),
            }
        },
    }
}

/// The time at the start of `s` and the bytes it takes, up to but not
/// including the closing byte; the error where there is none.
pub open spec fn read_time(s: Seq<u8>) -> Result<(Timestamp, int), DecodeError> {
    match read_keyed_uvarint(s, 1, Typ3Byte::Typ3_8Byte) {
        Err(e) => Err(e),
        Ok((secs, n)) => match read_keyed_uvarint(
            s.subrange(n, s.len() as int),
            2,
            Typ3Byte::Typ3_4Byte,
        ) {
            Err(e) => Err(e),
            Ok((nanos, m)) => Ok(
                (
                    Timestamp {
                        seconds: i64_of_bits(secs as nat) as i64,
                        nanos: (nanos % 0x1_0000_0000) as u32,
                    },
                    n + m,
                ),
            ),
        },
    }
}

/// Reads a field key that must be `field_number` with wire type `typ`, then
/// a varint.
fn decode_keyed_uvarint(buf: &[u8], pos: &mut usize, field_number: u32, typ: Typ3Byte) -> (r:
    Result<u64, DecodeError>)
    requires
        *old(pos) <= buf@.len(),
    ensures
        ({
            let s = buf@.subrange(*old(pos) as int, buf@.len() as int);
            match r {
                Ok(v) => read_keyed_uvarint(s, field_number, typ) == Ok::<(u64, int), DecodeError>(
                    (v, *final(pos) - *old(pos)),
                ),
                Err(e) => read_keyed_uvarint(s, field_number, typ) == Err::<(u64, int), DecodeError>(
                    e,
                ),
            }
        }),
{
    let start = *pos;
    let ghost s = buf@.subrange(start as int, buf@.len() as int);
    let (f, t) = decode_field_number_typ3(buf, pos)?;
    if f != field_number || t != typ {
        return Err(DecodeError::UnexpectedField);
    }
    let ghost mid = *pos;
    assert(s.subrange(mid - start, s.len() as int) =~= buf@.subrange(mid as int, buf@.len() as int));
    let v = decode_uvarint(buf, pos)?;
    Ok(v)
}

/// Appends a time: its seconds as field 1, its nanoseconds as field 2, and
/// the closing byte.
pub fn encode(value: Timestamp, buf: &mut Vec<u8>)
    ensures
        final(buf)@ == old(buf)@ + time_bytes(value),
{
    let epoch: u64 = if value.seconds >= 0 {
        value.seconds as u64
    } else {
        (value.seconds as i128 + 0x1_0000_0000_0000_0000) as u64
    };
    encode_field_number_typ3(1, Typ3Byte::Typ3_8Byte, buf);
    encode_uvarint(epoch, buf);
    encode_field_number_typ3(2, Typ3Byte::Typ3_4Byte, buf);
    encode_uvarint(value.nanos as u64, buf);
    buf.push(STRUCT_TERM);
    assert(final(buf)@ =~= old(buf)@ + time_bytes(value));
}

/// Reads a time at `*pos`, leaving `*pos` on its closing byte.
///
/// Fails with `UnexpectedField` where a key other than field 1 of the
/// 8-byte type, then field 2 of the 4-byte type, stands, and as the varint
/// readers do on bad varints.
pub fn decode(buf: &[u8], pos: &mut usize) -> (r: Result<Timestamp, DecodeError>)
    requires
        *old(pos) <= buf@.len(),
    ensures
        ({
            let s = buf@.subrange(*old(pos) as int, buf@.len() as int);
            match r {
                Ok(t) => read_time(s) == Ok::<(Timestamp, int), DecodeError>(
                    (t, *final(pos) - *old(pos)),
                ),
                Err(e) => read_time(s) == Err::<(Timestamp, int), DecodeError>(e),
            }
        }),
{
    let start = *pos;
    let ghost s = buf@.subrange(start as int, buf@.len() as int);
    let secs = decode_keyed_uvarint(buf, pos, 1, Typ3Byte::Typ3_8Byte)?;
    let ghost mid = *pos;
    assert(s.subrange(mid - start, s.len() as int) =~= buf@.subrange(mid as int, buf@.len() as int));
    let nanos = decode_keyed_uvarint(buf, pos, 2, Typ3Byte::Typ3_4Byte)?;
    let seconds: i64 = if secs >= 0x8000_0000_0000_0000 {
        (secs as i128 - 0x1_0000_0000_0000_0000) as i64
    } else {
        secs as i64
    };
    Ok(Timestamp { seconds, nanos: (nanos % 0x1_0000_0000) as u32 })
}

proof fn lemma_keyed_round_trip(field_number: u32, typ: Typ3Byte, v: u64, rest: Seq<u8>)
    requires
        typ != Typ3Byte::Invalid,
        typ != Typ3Byte::Typ4_Pointer,
    ensures
        read_keyed_uvarint(
            field_key_bytes(field_number, typ) + uvarint_bytes(v as nat) + rest,
            field_number,
            typ,
        ) == Ok::<(u64, int), DecodeError>(
            (v, field_key_bytes(field_number, typ).len() + uvarint_bytes(v as nat).len() as int),
        ),
{
    let k = field_key_bytes(field_number, typ);
    let s = k + uvarint_bytes(v as nat) + rest;
    crate::key::lemma_field_key_round_trip(field_number, typ);
    assert(s =~= k + (uvarint_bytes(v as nat) + rest));
    assert(s.subrange(k.len() as int, s.len() as int) =~= uvarint_bytes(v as nat) + rest);
    crate::varint::lemma_uvarint_decode_encode(v, rest);
}

/// A time written and read back is unchanged, whatever bytes follow.
pub proof fn lemma_time_round_trip(t: Timestamp, rest: Seq<u8>)
    ensures
        read_time(time_bytes(t) + rest) == Ok::<(Timestamp, int), DecodeError>(
            (t, time_bytes(t).len() - 1),
        ),
{
    let k1 = field_key_bytes(1, Typ3Byte::Typ3_8Byte);
    let secs = bits_of_i64(t.seconds as int) as u64;
    let v1 = uvarint_bytes(secs as nat);
    let k2 = field_key_bytes(2, Typ3Byte::Typ3_4Byte);
    let v2 = uvarint_bytes(t.nanos as nat);
    let s = time_bytes(t) + rest;
    let tail = seq![STRUCT_TERM] + rest;
    let n = k1.len() + v1.len();
    assert(s =~= k1 + v1 + (k2 + v2 + tail));
    lemma_keyed_round_trip(1, Typ3Byte::Typ3_8Byte, secs, k2 + v2 + tail);
    assert(s.subrange(n as int, s.len() as int) =~= k2 + v2 + tail);
    lemma_keyed_round_trip(2, Typ3Byte::Typ3_4Byte, t.nanos as u64, tail);
}

} // verus!
