use vstd::prelude::*;
use vstd::utf8::{decode_utf8, encode_utf8, valid_utf8};
use crate::amino_bytes::{decode_range, delimited, put_slice, read_delimited};
use crate::error::DecodeError;
use crate::varint::encode_uvarint;
use vstd::slice::{slice_subrange, slice_to_vec};

verus! {

/// The text that a length-delimited field at the start of `s` holds, and
/// the number of bytes the field takes; the error where there is none.
pub open spec fn read_text(s: Seq<u8>) -> Result<(Seq<char>, int), DecodeError> {
    match read_delimited(s) {
        Err(e) => Err(e),
        Ok((payload, n)) => if valid_utf8(payload) {
            Ok((decode_utf8(payload), n))
        } else {
            Err(DecodeError::InvalidUtf8)
        },
    }
}

/// Relies on `String::from_utf8`: it succeeds exactly on valid UTF-8, and
/// the string then holds the characters that the bytes encode.
#[verifier::external_body]
fn string_from_utf8(bytes: Vec<u8>) -> (r: Option<String>)
    ensures
        match r {
            Some(s) => valid_utf8(bytes@) && s@ == decode_utf8(bytes@),
            None => !valid_utf8(bytes@),
        },
{
    match String::from_utf8(bytes) {
        Ok(s) => Some(s),
        Err(_) => None,
    }
}

/// Appends the UTF-8 bytes of `value` as a length-delimited field.
pub fn encode(value: &str, buf: &mut Vec<u8>)
    ensures
        final(buf)@ == old(buf)@ + delimited(encode_utf8(value@)),
{
    let bytes = value.as_bytes();
    encode_uvarint(bytes.len() as u64, buf);
    put_slice(buf, bytes);
    assert(final(buf)@ =~= old(buf)@ + delimited(encode_utf8(value@)));
}

/// Reads a length-delimited field at `*pos` as UTF-8 text.
///
/// Fails as [`crate::amino_bytes::decode`] does, and with `InvalidUtf8`
/// where the payload is not UTF-8.
pub fn decode(buf: &[u8], pos: &mut usize) -> (r: Result<String, DecodeError>)
    requires
        *old(pos) <= buf@.len(),
    ensures
        ({
            let s = buf@.subrange(*old(pos) as int, buf@.len() as int);
            match r {
                Ok(v) => read_text(s) == Ok::<(Seq<char>, int), DecodeError>((v@, *final(pos) - *old(pos))),
                Err(e) => read_text(s) == Err::<(Seq<char>, int), DecodeError>(e),
            }
        }),
{
    let (from, to) = decode_range(buf, pos)?;
    let dst = slice_to_vec(slice_subrange(buf, from, to));
    match string_from_utf8(dst) {
        Some(text) => Ok(text),
        None => Err(DecodeError::InvalidUtf8),
    }
}

/// Text written as a length-delimited field reads back unchanged, whatever
/// bytes follow.
pub proof fn lemma_text_round_trip(text: Seq<char>, rest: Seq<u8>)
    requires
        encode_utf8(text).len() <= u64::MAX,
    ensures
        read_text(delimited(encode_utf8(text)) + rest) == Ok::<(Seq<char>, int), DecodeError>(
            (text, delimited(encode_utf8(text)).len() as int),
        ),
{
    crate::amino_bytes::lemma_delimited_round_trip(encode_utf8(text), rest);
    vstd::utf8::encode_utf8_valid_utf8(text);
    vstd::utf8::encode_utf8_decode_utf8(text);
}

} // verus!
