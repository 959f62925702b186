use vstd::prelude::*;
use crate::error::DecodeError;
use crate::varint::{
    decode_uvarint,
    encode_uvarint,
    uvarint_bytes,
    read_uvarint,
};

verus! {

/// The wire type carried in the low three bits of a field key, plus the
/// pointer flag and a value for codes that name no type.
#[allow(non_camel_case_types)]
#[derive(Debug, Clone, Copy, PartialEq, Eq, Structural)]
pub enum Typ3Byte {
    Typ3_Varint,
    Typ3_8Byte,
    Typ3_ByteLength,
    Typ3_Struct,
    Typ3_StructTerm,
    Typ3_4Byte,
    Typ3_List,
    Typ3_Interface,
    Typ4_Pointer,
    Invalid,
}

/// The code of each wire type.
pub open spec fn typ3_code(t: Typ3Byte) -> u8 {
    match t {
        Typ3Byte::Typ3_Varint => 0,
        Typ3Byte::Typ3_8Byte => 1,
        Typ3Byte::Typ3_ByteLength => 2,
        Typ3Byte::Typ3_Struct => 3,
        Typ3Byte::Typ3_StructTerm => 4,
        Typ3Byte::Typ3_4Byte => 5,
        Typ3Byte::Typ3_List => 6,
        Typ3Byte::Typ3_Interface => 7,
        Typ3Byte::Typ4_Pointer => 8,
        Typ3Byte::Invalid => 0,
    }
}

/// The wire type that a code names; `Invalid` above eight.
pub open spec fn typ3_of(b: u8) -> Typ3Byte {
    if b == 0 {
        Typ3Byte::Typ3_Varint
    } else if b == 1 {
        Typ3Byte::Typ3_8Byte
    } else if b == 2 {
        Typ3Byte::Typ3_ByteLength
    } else if b == 3 {
        Typ3Byte::Typ3_Struct
    } else if b == 4 {
        Typ3Byte::Typ3_StructTerm
    } else if b == 5 {
        Typ3Byte::Typ3_4Byte
    } else if b == 6 {
        Typ3Byte::Typ3_List
    } else if b == 7 {
        Typ3Byte::Typ3_Interface
    } else if b == 8 {
        Typ3Byte::Typ4_Pointer
    } else {
        Typ3Byte::Invalid
    }
}

/// The number a field key packs: the field number shifted past three bits,
/// or-ed with the wire type's code.
pub open spec fn field_key(field_number: u32, typ: Typ3Byte) -> u64 {
    ((field_number as u64) << 3u64) | (typ3_code(typ) as u64)
}

/// The bytes of a field key.
pub open spec fn field_key_bytes(field_number: u32, typ: Typ3Byte) -> Seq<u8> {
    uvarint_bytes(field_key(field_number, typ) as nat)
}

/// The field number, wire type and length of the field key at the start of
/// `s`; the error where there is none.
pub open spec fn read_key(s: Seq<u8>) -> Result<(u32, Typ3Byte, int), DecodeError> {
    match read_uvarint(s) {
        None => Err(DecodeError::InvalidVarint),
        Some((key, n)) => if key >> 3u64 > u32::MAX {
            Err(DecodeError::InvalidTag)
        } else {
            Ok(((key >> 3u64) as u32, typ3_of((key & 7u64) as u8), n))
        },
    }
}

/// The code of a wire type.
pub fn typ3_to_byte(typ3: Typ3Byte) -> (r: u8)
    requires
        typ3 != Typ3Byte::Invalid,
    ensures
        r == typ3_code(typ3),
        r <= 8,
{
    match typ3 {
        Typ3Byte::Typ3_Varint => 0,
        Typ3Byte::Typ3_8Byte => 1,
        Typ3Byte::Typ3_ByteLength => 2,
        Typ3Byte::Typ3_Struct => 3,
        Typ3Byte::Typ3_StructTerm => 4,
        Typ3Byte::Typ3_4Byte => 5,
        Typ3Byte::Typ3_List => 6,
        Typ3Byte::Typ3_Interface => 7,
        Typ3Byte::Typ4_Pointer => 8,
        Typ3Byte::Invalid => 0,
    }
}

/// The wire type that a code names.
pub fn byte_to_type3(data: u8) -> (r: Typ3Byte)
    ensures
        r == typ3_of(data),
{
    match data {
        0 => Typ3Byte::Typ3_Varint,
        1 => Typ3Byte::Typ3_8Byte,
        2 => Typ3Byte::Typ3_ByteLength,
        3 => Typ3Byte::Typ3_Struct,
        4 => Typ3Byte::Typ3_StructTerm,
        5 => Typ3Byte::Typ3_4Byte,
        6 => Typ3Byte::Typ3_List,
        7 => Typ3Byte::Typ3_Interface,
        8 => Typ3Byte::Typ4_Pointer,
        _ => Typ3Byte::Invalid,
    }
}

/// Appends the key of a field: its number and wire type packed in a varint.
pub fn encode_field_number_typ3(field_number: u32, typ: Typ3Byte, buf: &mut Vec<u8>)
    requires
        typ != Typ3Byte::Invalid,
    ensures
        final(buf)@ == old(buf)@ + field_key_bytes(field_number, typ),
{
    let code = typ3_to_byte(typ);
    let value: u64 = ((field_number as u64) << 3u64) | (code as u64);
    encode_uvarint(value, buf);
}

/// Number of bytes that the key of a field takes.
pub fn field_key_len(field_number: u32, typ: Typ3Byte) -> (r: usize)
    requires
        typ != Typ3Byte::Invalid,
    ensures
        r == field_key_bytes(field_number, typ).len(),
        1 <= r <= 10,
{
    let code = typ3_to_byte(typ);
    let value: u64 = ((field_number as u64) << 3u64) | (code as u64);
    crate::varint::encoded_len_varint(value)
}

/// Reads a field key at `*pos` and splits it into field number and wire type.
///
/// Fails as [`decode_uvarint`] does, and with `InvalidTag` where the field
/// number does not fit 32 bits.
pub fn decode_field_number_typ3(buf: &[u8], pos: &mut usize) -> (r: Result<
    (u32, Typ3Byte),
    DecodeError,
>)
    requires
        *old(pos) <= buf@.len(),
    ensures
        ({
            let s = buf@.subrange(*old(pos) as int, buf@.len() as int);
            match r {
                Ok((field_number, typ)) => read_key(s) == Ok::<(u32, Typ3Byte, int), DecodeError>(
                    (field_number, typ, *final(pos) - *old(pos)),
                ),
                Err(e) => read_key(s) == Err::<(u32, Typ3Byte, int), DecodeError>(e),
            }
        }),
{
    let start = *pos;
    let value = decode_uvarint(buf, pos)?;
    let field_number = value >> 3u64;
    if field_number > u32::MAX as u64 {
        return Err(DecodeError::InvalidTag);
    }
    let typ3 = byte_to_type3((value & 7u64) as u8);
    Ok((field_number as u32, typ3))
}

/// Splitting a packed key gives back the field number and wire type it was
/// packed from.
pub proof fn lemma_field_key_round_trip(field_number: u32, typ: Typ3Byte)
    requires
        typ != Typ3Byte::Invalid,
        typ != Typ3Byte::Typ4_Pointer,
    ensures
        field_key(field_number, typ) >> 3u64 == field_number,
        typ3_of((field_key(field_number, typ) & 7u64) as u8) == typ,
        forall|rest: Seq<u8>|
            read_key(#[trigger] (field_key_bytes(field_number, typ) + rest)) == Ok::<
                (u32, Typ3Byte, int),
                DecodeError,
            >((field_number, typ, field_key_bytes(field_number, typ).len() as int)),
{
    let f = field_number as u64;
    let c = typ3_code(typ) as u64;
    assert(((f << 3u64) | c) >> 3u64 == f && ((f << 3u64) | c) & 7u64 == c) by (bit_vector)
        requires
            f <= 0xffff_ffffu64,
            c < 8u64,
    ;
    assert forall|rest: Seq<u8>|
        read_key(#[trigger] (field_key_bytes(field_number, typ) + rest)) == Ok::<
            (u32, Typ3Byte, int),
            DecodeError,
        >((field_number, typ, field_key_bytes(field_number, typ).len() as int)) by {
        crate::varint::lemma_uvarint_decode_encode(field_key(field_number, typ), rest);
    }
}

} // verus!
