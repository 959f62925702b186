use amino::amino_bytes;
use amino::amino_string;
use amino::amino_time::{self, Timestamp};
use amino::disfix::{compute_disfix, disfix_from_digest, registered_prefix};
use amino::error::DecodeError;
use amino::fixed::{decode_int32, decode_int64, encode_int32, encode_int64};
use amino::key::{
    byte_to_type3, decode_field_number_typ3, encode_field_number_typ3, field_key_len, typ3_to_byte,
    Typ3Byte,
};
use amino::varint::{
    decode_int16, decode_int8, decode_uvarint, decode_varint, encode_int16, encode_int8,
    encode_uvarint, encode_varint, encoded_len_varint,
};
use amino::{decode_length_delimiter, encode_length_delimiter, length_delimiter_len};

#[test]
fn check_examples() {
    let want_disfix = vec![0x9f, 0x86, 0xd0];
    let want_prefix = vec![0x81, 0x88, 0x4c, 0x78];

    let (disfix, prefix) = compute_disfix("test");

    assert_eq!(want_disfix, disfix);
    assert_eq!(want_prefix, prefix);
}

#[test]
fn lib_compare_to_go_amino() {
    let want_disfix = vec![0x9f, 0x86, 0xd0];
    let want_prefix = vec![0x81, 0x88, 0x4c, 0x78];
    let (disam, prefix) = compute_disfix("test");
    assert_eq!(disam, want_disfix);
    assert_eq!(prefix, want_prefix);
}

#[test]
fn registered_prefix_vectors() {
    assert_eq!(registered_prefix("test"), vec![0x81, 0x88, 0x4c, 0x7d]);
    let (disam, prefix) = compute_disfix("tendermint/socketpv/SignHeartbeatMsg");
    assert_eq!(disam, vec![0x85, 0x6a, 0x57]);
    // the fourth prefix byte has its low three bits cleared
    assert_eq!(prefix, vec![0xbf, 0x58, 0xca, 0xe8]);
    assert_eq!(
        registered_prefix("tendermint/socketpv/SignHeartbeatMsg"),
        vec![0xbf, 0x58, 0xca, 0xef]
    );
}

#[test]
fn disfix_skips_zero_bytes() {
    let digest = [0u8, 1, 0, 2, 3, 0, 0, 4, 5, 6, 0, 7, 8];
    let (d, p) = disfix_from_digest(&digest);
    assert_eq!(d, vec![1, 2, 3]);
    assert_eq!(p, vec![4, 5, 6, 7]);
    let (d, p) = disfix_from_digest(&[0, 9, 0, 8]);
    assert_eq!(d, vec![9, 8]);
    assert!(p.is_empty());
}

#[test]
fn check_encdec_neg_int32() {
    let want = -1;
    let mut buf = Vec::with_capacity(4);
    encode_int32(want, &mut buf);

    let mut pos = 0;
    let got_res = decode_int32(&buf, &mut pos);
    match got_res {
        Ok(got) => assert_eq!(got, want),
        Err(_) => panic!("Couldn't decode int32"),
    }
}

#[test]
fn check_encdec_neg_int64() {
    let want = -1 as i64;
    let mut buf = Vec::with_capacity(8);
    encode_int64(want, &mut buf);

    let mut pos = 0;
    let got_res = decode_int64(&buf, &mut pos);
    match got_res {
        Ok(got) => assert_eq!(got, want),
        Err(_) => panic!("Couldn't decode int32"),
    }
}

#[test]
fn fixed_width_is_big_endian() {
    let mut buf = Vec::new();
    encode_int32(0x01020304, &mut buf);
    encode_int64(-2, &mut buf);
    assert_eq!(
        buf,
        vec![1, 2, 3, 4, 0xff, 0xff, 0xff, 0xff, 0xff, 0xff, 0xff, 0xfe]
    );
    let mut pos = 0;
    assert_eq!(decode_int32(&buf, &mut pos), Ok(0x01020304));
    assert_eq!(decode_int64(&buf, &mut pos), Ok(-2));
    assert_eq!(pos, 12);
}

#[test]
fn fixed_width_short_buffer() {
    let mut pos = 0;
    assert_eq!(decode_int32(&[1, 2, 3], &mut pos), Err(DecodeError::UnexpectedEof));
    assert_eq!(pos, 0);
    assert_eq!(decode_int64(&[0; 7], &mut pos), Err(DecodeError::UnexpectedEof));
}

#[test]
fn uvarint_bytes() {
    let mut buf = Vec::new();
    encode_uvarint(300, &mut buf);
    assert_eq!(buf, vec![0xac, 0x02]);
    let mut buf = Vec::new();
    encode_uvarint(u64::MAX, &mut buf);
    assert_eq!(buf.len(), 10);
    assert_eq!(encoded_len_varint(u64::MAX), 10);
    assert_eq!(encoded_len_varint(127), 1);
    assert_eq!(encoded_len_varint(128), 2);
    let mut pos = 0;
    assert_eq!(decode_uvarint(&buf, &mut pos), Ok(u64::MAX));
    assert_eq!(pos, 10);
}

#[test]
fn varint_boundaries_round_trip() {
    for v in [0i64, 127, 128, i64::MAX, -1, i64::MIN] {
        let mut buf = Vec::new();
        encode_varint(v, &mut buf);
        let mut pos = 0;
        assert_eq!(decode_varint(&buf, &mut pos), Ok(v));
        assert_eq!(pos, buf.len());
    }
}

#[test]
fn zigzag_bytes() {
    let mut buf = Vec::new();
    encode_varint(-1, &mut buf);
    encode_varint(1, &mut buf);
    encode_varint(-2, &mut buf);
    assert_eq!(buf, vec![1, 2, 3]);
}

#[test]
fn invalid_varints() {
    let mut pos = 0;
    assert_eq!(decode_uvarint(&[], &mut pos), Err(DecodeError::InvalidVarint));
    assert_eq!(decode_uvarint(&[0x80, 0x80], &mut pos), Err(DecodeError::InvalidVarint));
    assert_eq!(decode_uvarint(&[0xff; 11], &mut pos), Err(DecodeError::InvalidVarint));
    assert_eq!(pos, 0);
    // a non-minimal form is read all the same
    assert_eq!(decode_uvarint(&[0x81, 0x00], &mut pos), Ok(1));
    assert_eq!(pos, 2);
}

#[test]
fn small_ints_wrap() {
    let mut buf = Vec::new();
    encode_int8(-5, &mut buf);
    encode_int16(1000, &mut buf);
    encode_varint(300, &mut buf);
    let mut pos = 0;
    assert_eq!(decode_int8(&buf, &mut pos), Ok(-5));
    assert_eq!(decode_int16(&buf, &mut pos), Ok(1000));
    assert_eq!(decode_int8(&buf, &mut pos), Ok(44));
}

#[test]
fn typ3_codes() {
    assert_eq!(typ3_to_byte(Typ3Byte::Typ3_Varint), 0);
    assert_eq!(typ3_to_byte(Typ3Byte::Typ3_ByteLength), 2);
    assert_eq!(typ3_to_byte(Typ3Byte::Typ4_Pointer), 8);
    assert_eq!(byte_to_type3(5), Typ3Byte::Typ3_4Byte);
    assert_eq!(byte_to_type3(9), Typ3Byte::Invalid);
}

#[test]
fn field_keys() {
    let mut buf = Vec::new();
    encode_field_number_typ3(1, Typ3Byte::Typ3_ByteLength, &mut buf);
    encode_field_number_typ3(16, Typ3Byte::Typ3_Varint, &mut buf);
    assert_eq!(buf, vec![0x0a, 0x80, 0x01]);
    assert_eq!(field_key_len(16, Typ3Byte::Typ3_Varint), 2);
    let mut pos = 0;
    assert_eq!(
        decode_field_number_typ3(&buf, &mut pos),
        Ok((1, Typ3Byte::Typ3_ByteLength))
    );
    assert_eq!(
        decode_field_number_typ3(&buf, &mut pos),
        Ok((16, Typ3Byte::Typ3_Varint))
    );
    let mut big = Vec::new();
    encode_uvarint((u32::MAX as u64 + 1) << 3, &mut big);
    let mut pos = 0;
    assert_eq!(decode_field_number_typ3(&big, &mut pos), Err(DecodeError::InvalidTag));
}

#[test]
fn bytes_round_trip() {
    let mut buf = Vec::new();
    amino_bytes::encode(&[1, 2, 3], &mut buf);
    assert_eq!(buf, vec![3, 1, 2, 3]);
    let mut pos = 0;
    assert_eq!(amino_bytes::decode(&buf, &mut pos), Ok(vec![1, 2, 3]));
    assert_eq!(pos, 4);
    let mut pos = 0;
    assert_eq!(amino_bytes::decode(&[5, 1, 2], &mut pos), Err(DecodeError::LengthMismatch));
}

#[test]
fn string_round_trip() {
    let mut buf = Vec::new();
    amino_string::encode("héllo", &mut buf);
    assert_eq!(buf[0], 6);
    let mut pos = 0;
    assert_eq!(amino_string::decode(&buf, &mut pos), Ok("héllo".to_string()));
    let mut pos = 0;
    assert_eq!(
        amino_string::decode(&[2, 0xc3, 0x28], &mut pos),
        Err(DecodeError::InvalidUtf8)
    );
}

#[test]
fn time_round_trip() {
    let t = Timestamp { seconds: 1_500_000_000, nanos: 123 };
    let mut buf = Vec::new();
    amino_time::encode(t, &mut buf);
    assert_eq!(buf[0], 0x09);
    assert_eq!(*buf.last().unwrap(), 0x04);
    let mut pos = 0;
    assert_eq!(amino_time::decode(&buf, &mut pos), Ok(t));
    assert_eq!(pos, buf.len() - 1);

    let mut small = Vec::new();
    amino_time::encode(Timestamp { seconds: 1, nanos: 2 }, &mut small);
    assert_eq!(small, vec![0x09, 0x01, 0x15, 0x02, 0x04]);

    let neg = Timestamp { seconds: -1, nanos: 0 };
    let mut buf = Vec::new();
    amino_time::encode(neg, &mut buf);
    let mut pos = 0;
    assert_eq!(amino_time::decode(&buf, &mut pos), Ok(neg));

    let mut pos = 0;
    assert_eq!(
        amino_time::decode(&[0x11, 0x00], &mut pos),
        Err(DecodeError::UnexpectedField)
    );
}

#[test]
fn length_delimiters() {
    assert_eq!(length_delimiter_len(0), 1);
    assert_eq!(length_delimiter_len(300), 2);
    let mut buf = Vec::new();
    assert_eq!(encode_length_delimiter(300, &mut buf), Ok(()));
    assert_eq!(buf, vec![0xac, 0x02]);
    assert_eq!(decode_length_delimiter(&buf), Ok(300));
    assert_eq!(decode_length_delimiter(&[0x80]), Err(DecodeError::InvalidVarint));
}
