//! A codec for the Amino wire format: protobuf-style varints, fixed-width
//! integers, length-delimited payloads and field keys, the name-derived
//! prefixes that tag registered message types, and a message codec driven
//! by a runtime schema of each message type.
//!
//! A message value holds, for each field of its schema, the list of its
//! values. A nested message is held as its encoding, which the codec of its
//! own schema reads; two encodings of one nested message met in a buffer
//! are joined, which merges the messages they encode. The codec itself
//! therefore never recurses. [`graph::MessageGraph`] tells which message
//! types contain themselves.
use vstd::prelude::*;

pub mod error;
pub mod varint;
pub mod fixed;
pub mod key;
pub mod amino_bytes;
pub mod amino_string;
pub mod amino_time;
pub mod disfix;
pub mod schema;
pub mod message;
pub mod message_proofs;
pub mod graph;
pub mod config;

use crate::error::{DecodeError, EncodeError};
use crate::varint::{decode_uvarint, encode_uvarint, encoded_len_varint, read_uvarint, uvarint_bytes};

verus! {

/// The number of bytes a `Vec<u8>` of length `len` can still take: a
/// vector holds at most `isize::MAX` bytes.
pub open spec fn vec_room(len: nat) -> nat {
    if len <= isize::MAX {
        (isize::MAX - len) as nat
    } else {
        0
    }
}

/// Appends a length delimiter: `length` as a varint.
///
/// Fails, leaving `buf` alone, where `buf` cannot take the bytes that the
/// delimiter needs.
pub fn encode_length_delimiter(length: usize, buf: &mut Vec<u8>) -> (r: Result<(), EncodeError>)
    ensures
        ({
            let required = uvarint_bytes(length as nat).len();
            let remaining = vec_room(old(buf)@.len());
            match r {
                Ok(_) => {
                    &&& required <= remaining
                    &&& final(buf)@ == old(buf)@ + uvarint_bytes(length as nat)
                },
                Err(e) => {
                    &&& required > remaining
                    &&& e == EncodeError { required: required as usize, remaining: remaining as usize }
                    &&& final(buf)@ == old(buf)@
                },
            }
        }),
{
    let required = encoded_len_varint(length as u64);
    let len = buf.len();
    let remaining: usize = if len <= isize::MAX as usize {
        isize::MAX as usize - len
    } else {
        0
    };
    if required > remaining {
        return Err(EncodeError { required, remaining });
    }
    encode_uvarint(length as u64, buf);
    Ok(())
}

/// Number of bytes that the length delimiter of `length` takes, between one
/// and ten.
pub fn length_delimiter_len(length: usize) -> (r: usize)
    ensures
        r == uvarint_bytes(length as nat).len(),
        1 <= r <= 10,
{
    encoded_len_varint(length as u64)
}

/// Reads the length delimiter at the start of `buf`.
///
/// Fails with `InvalidVarint` where `buf` does not start with a varint, and
/// with `LengthMismatch` where the length does not fit a `usize`.
pub fn decode_length_delimiter(buf: &[u8]) -> (r: Result<usize, DecodeError>)
    ensures
        match r {
            Ok(n) => read_uvarint(buf@) is Some && read_uvarint(buf@)->Some_0.0 == n,
            Err(e) => {
                ||| (e == DecodeError::InvalidVarint && read_uvarint(buf@) is None)
                ||| (e == DecodeError::LengthMismatch && read_uvarint(buf@) is Some
                    && read_uvarint(buf@)->Some_0.0 > usize::MAX)
            }
        },
{
    let mut pos: usize = 0;
    assert(buf@.subrange(0, buf@.len() as int) =~= buf@);
    let length = decode_uvarint(buf, &mut pos)?;
    if length > usize::MAX as u64 {
        return Err(DecodeError::LengthMismatch);
    }
    Ok(length as usize)
}

} // verus!
