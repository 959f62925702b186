use vstd::prelude::*;
use vstd::slice::{slice_subrange, slice_to_vec};
use crate::error::DecodeError;
use crate::varint::{decode_uvarint, encode_uvarint, read_uvarint, uvarint_bytes};

verus! {

/// A payload as a length-delimited field: its length as a varint, then the
/// payload.
pub open spec fn delimited(payload: Seq<u8>) -> Seq<u8> {
    uvarint_bytes(payload.len()) + payload
}

/// The payload of the length-delimited field at the start of `s` and the
/// number of bytes the field takes; the error where there is none.
pub open spec fn read_delimited(s: Seq<u8>) -> Result<(Seq<u8>, int), DecodeError> {
    match read_uvarint(s) {
        None => Err(DecodeError::InvalidVarint),
        Some((len, n)) => if n + len <= s.len() {
            Ok((s.subrange(n, n + len), n + len))
        } else {
            Err(DecodeError::LengthMismatch)
        },
    }
}

/// Appends the bytes of `src`.
pub fn put_slice(buf: &mut Vec<u8>, src: &[u8])
    ensures
        final(buf)@ == old(buf)@ + src@,
{
    let mut i: usize = 0;
    while i < src.len()
        invariant
            i <= src@.len(),
            buf@ == old(buf)@ + src@.subrange(0, i as int),
        decreases src@.len() - i,
    {
        buf.push(src[i]);
        i = i + 1;
        assert(buf@ =~= old(buf)@ + src@.subrange(0, i as int));
    }
    assert(src@.subrange(0, i as int) =~= src@);
}

/// Reads a length-delimited field at `*pos` without copying it: the range
/// of its payload.
pub(crate) fn decode_range(buf: &[u8], pos: &mut usize) -> (r: Result<(usize, usize), DecodeError>)
    requires
        *old(pos) <= buf@.len(),
    ensures
        ({
            let s = buf@.subrange(*old(pos) as int, buf@.len() as int);
            match r {
                Ok((from, to)) => {
                    &&& *old(pos) <= from <= to == *final(pos) <= buf@.len()
                    &&& read_delimited(s) == Ok::<(Seq<u8>, int), DecodeError>(
                        (buf@.subrange(from as int, to as int), to - *old(pos)),
                    )
                }
                Err(e) => read_delimited(s) == Err::<(Seq<u8>, int), DecodeError>(e),
            }
        }),
{
    let start = *pos;
    let ghost s = buf@.subrange(start as int, buf@.len() as int);
    let len = decode_uvarint(buf, pos)?;
    let from = *pos;
    if ((buf.len() - from) as u64) < len {
        *pos = start;
        return Err(DecodeError::LengthMismatch);
    }
    let to = from + len as usize;
    *pos = to;
    assert(s.subrange(from - start, to - start) =~= buf@.subrange(from as int, to as int));
    Ok((from, to))
}

/// Appends `value` as a length-delimited field.
pub fn encode(value: &[u8], buf: &mut Vec<u8>)
    ensures
        final(buf)@ == old(buf)@ + delimited(value@),
{
    encode_uvarint(value.len() as u64, buf);
    put_slice(buf, value);
    assert(final(buf)@ =~= old(buf)@ + delimited(value@));
}

/// Reads a length-delimited field at `*pos` and returns its payload.
///
/// Fails with `InvalidVarint` on a bad length prefix and with
/// `LengthMismatch` where fewer bytes remain than the prefix claims.
pub fn decode(buf: &[u8], pos: &mut usize) -> (r: Result<Vec<u8>, DecodeError>)
    requires
        *old(pos) <= buf@.len(),
    ensures
        ({
            let s = buf@.subrange(*old(pos) as int, buf@.len() as int);
            match r {
                Ok(v) => read_delimited(s) == Ok::<(Seq<u8>, int), DecodeError>(
                    (v@, *final(pos) - *old(pos)),
                ),
                Err(e) => read_delimited(s) == Err::<(Seq<u8>, int), DecodeError>(e),
            }
        }),
{
    let (from, to) = decode_range(buf, pos)?;
    Ok(slice_to_vec(slice_subrange(buf, from, to)))
}

/// A payload written as a length-delimited field reads back whole, whatever
/// bytes follow.
pub proof fn lemma_delimited_round_trip(payload: Seq<u8>, rest: Seq<u8>)
    requires
        payload.len() <= u64::MAX,
    ensures
        read_delimited(delimited(payload) + rest) == Ok::<(Seq<u8>, int), DecodeError>(
            (payload, delimited(payload).len() as int),
        ),
{
    let s = delimited(payload) + rest;
    let n = uvarint_bytes(payload.len()).len() as int;
    crate::varint::lemma_uvarint_decode_encode(payload.len() as u64, payload + rest);
    assert(s =~= uvarint_bytes(payload.len()) + (payload + rest));
    assert(s.subrange(n, n + payload.len()) =~= payload);
}

} // verus!
