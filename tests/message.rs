use amino::error::DecodeError;
use amino::message::{self, MessageValue, Scalar};
use amino::schema::{fields_from_attrs, Field, FieldAttr, Label, MessageSchema, SchemaError, WireKind};

fn field(tag: u32, label: Label, kind: WireKind) -> Field {
    Field { label, tag, kind, oneof: None, message_type: None, amino_prefix: vec![] }
}

fn member(tag: u32, kind: WireKind, group: u32) -> Field {
    Field { label: Label::Required, tag, kind, oneof: Some(group), message_type: None, amino_prefix: vec![] }
}

fn heartbeat_schema() -> MessageSchema {
    let fields = fields_from_attrs(&[
        vec![FieldAttr::Kind(WireKind::LengthDelimited), FieldAttr::Tag(1)],
        vec![FieldAttr::Kind(WireKind::Varint)],
        vec![FieldAttr::Kind(WireKind::Varint)],
        vec![FieldAttr::Kind(WireKind::Varint)],
        vec![FieldAttr::Kind(WireKind::Varint)],
        vec![FieldAttr::Kind(WireKind::Message)],
    ])
    .unwrap();
    MessageSchema::new(fields, None).unwrap()
}

fn heartbeat(addr: Vec<u8>, index: i64, height: i64, round: i64, sequence: i64) -> MessageValue {
    MessageValue {
        fields: vec![
            vec![Scalar::Bytes(addr)],
            vec![Scalar::Varint(index)],
            vec![Scalar::Varint(height)],
            vec![Scalar::Varint(round)],
            vec![Scalar::Varint(sequence)],
            vec![],
        ],
    }
}

fn address() -> Vec<u8> {
    vec![
        0xa3, 0xb2, 0xcc, 0xdd, 0x71, 0x86, 0xf1, 0x68, 0x5f, 0x21, 0xf2, 0x48, 0x2a, 0xf4, 0xfb,
        0x34, 0x46, 0xa8, 0x4b, 0x35,
    ]
}

#[test]
fn amino() {
    let hb_schema = heartbeat_schema();
    let msg_fields =
        fields_from_attrs(&[vec![FieldAttr::Kind(WireKind::Message), FieldAttr::Tag(1)]]).unwrap();
    let msg_schema =
        MessageSchema::registered(msg_fields, "tendermint/socketpv/SignHeartbeatMsg").unwrap();

    let hb = heartbeat(address(), 1, 15, 10, 30);
    let mut hb_bytes = vec![];
    message::encode(&hb_schema, &hb, &mut hb_bytes);
    let hb_msg = MessageValue { fields: vec![vec![Scalar::Bytes(hb_bytes)]] };

    let mut buf = vec![];
    message::encode(&msg_schema, &hb_msg, &mut buf);
    let want = vec![
        0x24, 0xbf, 0x58, 0xca, 0xef, 0xa, 0x1e, 0xa, 0x14, 0xa3, 0xb2, 0xcc, 0xdd, 0x71, 0x86,
        0xf1, 0x68, 0x5f, 0x21, 0xf2, 0x48, 0x2a, 0xf4, 0xfb, 0x34, 0x46, 0xa8, 0x4b, 0x35, 0x10,
        0x2, 0x18, 0x1e, 0x20, 0x14, 0x28, 0x3c,
    ];
    assert_eq!(want, buf);

    let hb2 = message::decode(&msg_schema, &want);
    assert_eq!(hb_msg, hb2.clone().unwrap());
    let inner = match &hb2.unwrap().fields[0][0] {
        Scalar::Bytes(b) => message::decode(&hb_schema, b).unwrap(),
        _ => panic!("not a nested message"),
    };
    assert_eq!(inner, hb);
}

#[test]
fn prost_test() {
    let schema = heartbeat_schema();
    let hb = heartbeat(address(), 1, 15, 10, 30);
    let hbp = heartbeat(vec![], 1, 15, 10, 30);

    println!("enc len ={}", message::encoded_len(&schema, &hb));
    let mut buf = vec![];
    message::encode(&schema, &hb, &mut buf);
    println!("{:x?}", buf);
    assert_eq!(message::encoded_len(&schema, &hb), buf.len());
    assert_eq!(message::encoded_len(&schema, &hbp), buf.len() - 20);
}

fn mixed_schema() -> MessageSchema {
    // declared out of tag order on purpose
    MessageSchema::new(
        vec![
            field(5, Label::Repeated, WireKind::Fixed32),
            field(1, Label::Required, WireKind::Varint),
            field(3, Label::Optional, WireKind::Fixed64),
            field(2, Label::Optional, WireKind::LengthDelimited),
            member(7, WireKind::Varint, 0),
            member(8, WireKind::LengthDelimited, 0),
        ],
        None,
    )
    .unwrap()
}

fn mixed_value() -> MessageValue {
    MessageValue {
        fields: vec![
            vec![Scalar::Fixed32(-7), Scalar::Fixed32(9)],
            vec![Scalar::Varint(-3)],
            vec![Scalar::Fixed64(1 << 40)],
            vec![],
            vec![],
            vec![Scalar::Bytes(b"hi".to_vec())],
        ],
    }
}

#[test]
fn message_round_trip() {
    let schema = mixed_schema();
    let v = mixed_value();
    let mut buf = vec![];
    message::encode(&schema, &v, &mut buf);
    assert_eq!(message::decode(&schema, &buf), Ok(v));
}

#[test]
fn encoded_len_matches_encoding() {
    let schema = mixed_schema();
    let v = mixed_value();
    let mut buf = vec![];
    message::encode(&schema, &v, &mut buf);
    assert_eq!(message::encoded_len(&schema, &v), buf.len());
    let reg = MessageSchema::registered(schema.fields.clone(), "test").unwrap();
    let mut buf = vec![];
    message::encode(&reg, &v, &mut buf);
    assert_eq!(message::encoded_len(&reg, &v), buf.len());
    assert_eq!(message::decode(&reg, &buf), Ok(v));
}

#[test]
fn keys_in_tag_order() {
    let schema = mixed_schema();
    let v = MessageValue {
        fields: vec![
            vec![Scalar::Fixed32(1)],
            vec![Scalar::Varint(1)],
            vec![Scalar::Fixed64(1)],
            vec![Scalar::Bytes(vec![])],
            vec![Scalar::Varint(1)],
            vec![],
        ],
    };
    let mut buf = vec![];
    message::encode(&schema, &v, &mut buf);
    // tag 1 varint, tag 2 bytes, tag 3 fixed64, tag 5 fixed32, tag 7 varint
    assert_eq!(
        buf,
        vec![0x08, 0x02, 0x12, 0x00, 0x19, 0, 0, 0, 0, 0, 0, 0, 1, 0x2d, 0, 0, 0, 1, 0x38, 0x02]
    );
}

#[test]
fn duplicate_tag_rejected() {
    let r = MessageSchema::new(
        vec![
            field(1, Label::Optional, WireKind::Varint),
            field(2, Label::Optional, WireKind::Varint),
            member(1, WireKind::Varint, 0),
        ],
        None,
    );
    assert_eq!(r.err(), Some(SchemaError::DuplicateTag));
}

#[test]
fn schema_errors() {
    let r = MessageSchema::new(vec![field(1, Label::Optional, WireKind::Varint)], Some(vec![1, 2]));
    assert_eq!(r.err(), Some(SchemaError::InvalidPrefix));
    let mut m = member(1, WireKind::Varint, 0);
    m.label = Label::Optional;
    assert_eq!(MessageSchema::new(vec![m], None).err(), Some(SchemaError::InvalidOneof));
}

#[test]
fn unknown_field_skipped() {
    let schema = MessageSchema::new(vec![field(1, Label::Optional, WireKind::Varint)], None).unwrap();
    // tag 1 = 5, then unknown tag 9 holding a length-delimited payload
    let buf = vec![0x08, 0x0a, 0x4a, 0x02, 0xff, 0xff];
    let v = message::decode(&schema, &buf).unwrap();
    assert_eq!(v, MessageValue { fields: vec![vec![Scalar::Varint(5)]] });
    // unknown varint, fixed64 and fixed32 payloads are skipped too
    let buf = vec![0x10, 0x01, 0x19, 1, 2, 3, 4, 5, 6, 7, 8, 0x25, 1, 2, 3, 4, 0x08, 0x02];
    let v = message::decode(&schema, &buf).unwrap();
    assert_eq!(v, MessageValue { fields: vec![vec![Scalar::Varint(1)]] });
}

#[test]
fn decode_errors() {
    let schema = MessageSchema::new(
        vec![
            field(1, Label::Required, WireKind::Varint),
            field(2, Label::Optional, WireKind::Fixed32),
        ],
        None,
    )
    .unwrap();
    assert_eq!(message::decode(&schema, &[]), Err(DecodeError::MissingTag));
    assert_eq!(message::decode(&schema, &[0x08]), Err(DecodeError::InvalidVarint));
    assert_eq!(message::decode(&schema, &[0x0a, 0x00]), Err(DecodeError::WireTypeMismatch));
    assert_eq!(message::decode(&schema, &[0x15, 1, 2]), Err(DecodeError::UnexpectedEof));
    assert_eq!(message::decode(&schema, &[0x1b]), Err(DecodeError::UnknownWireType));
    assert_eq!(message::decode(&schema, &[0x1a, 0x05, 0x00]), Err(DecodeError::LengthMismatch));
    let reg = MessageSchema::registered(schema.fields.clone(), "test").unwrap();
    assert_eq!(message::decode(&reg, &[0x05, 1, 2]), Err(DecodeError::UnexpectedEof));
}

#[test]
fn merge_semantics() {
    let schema = MessageSchema::new(
        vec![
            field(1, Label::Optional, WireKind::Varint),
            field(2, Label::Repeated, WireKind::Varint),
            field(3, Label::Optional, WireKind::Message),
            member(4, WireKind::Varint, 0),
            member(5, WireKind::Varint, 0),
        ],
        None,
    )
    .unwrap();
    // field 1 twice, field 2 twice, field 3 twice, oneof 4 then 5
    let buf = vec![
        0x08, 0x02, 0x08, 0x04, 0x10, 0x02, 0x10, 0x04, 0x1a, 0x01, 0xaa, 0x1a, 0x01, 0xbb, 0x20,
        0x02, 0x28, 0x06,
    ];
    let v = message::decode(&schema, &buf).unwrap();
    assert_eq!(
        v,
        MessageValue {
            fields: vec![
                vec![Scalar::Varint(2)],
                vec![Scalar::Varint(1), Scalar::Varint(2)],
                vec![Scalar::Bytes(vec![0xaa, 0xbb])],
                vec![],
                vec![Scalar::Varint(3)],
            ],
        }
    );
    let mut more = v.clone();
    message::merge(&schema, &mut more, &[0x10, 0x06, 0x20, 0x00]).unwrap();
    assert_eq!(more.fields[1], vec![Scalar::Varint(1), Scalar::Varint(2), Scalar::Varint(3)]);
    assert_eq!(more.fields[3], vec![Scalar::Varint(0)]);
    assert!(more.fields[4].is_empty());
    message::clear(&schema, &mut more);
    assert_eq!(more, MessageValue::new(&schema));
    assert!(more.fields.iter().all(|l| l.is_empty()));
}

#[test]
fn field_operations() {
    let f = field(2, Label::Repeated, WireKind::Varint);
    let mut values = vec![];
    f.merge(&mut values, Scalar::Varint(1));
    f.merge(&mut values, Scalar::Varint(-1));
    let mut buf = vec![];
    f.encode(&values, &mut buf);
    assert_eq!(buf, vec![0x10, 0x02, 0x10, 0x01]);
    assert_eq!(f.encoded_len(&values), 4);
    f.clear(&mut values);
    assert!(values.is_empty());
    let required = field(3, Label::Required, WireKind::Message);
    let mut values = vec![Scalar::Bytes(vec![1])];
    required.clear(&mut values);
    assert_eq!(values, vec![Scalar::Bytes(vec![])]);
    let single = field(2, Label::Optional, WireKind::Varint);
    let mut values = vec![Scalar::Varint(1)];
    single.merge(&mut values, Scalar::Varint(9));
    assert_eq!(values, vec![Scalar::Varint(9)]);
}

#[test]
fn field_from_attributes() {
    let f = Field::new(
        &[
            FieldAttr::Kind(WireKind::Message),
            FieldAttr::Label(Label::Repeated),
            FieldAttr::AminoName("test".to_string()),
        ],
        Some(4),
    )
    .unwrap()
    .unwrap();
    assert_eq!(f.tag, 4);
    assert_eq!(f.label, Label::Repeated);
    assert_eq!(f.amino_prefix, vec![0x81, 0x88, 0x4c, 0x7d]);
    assert!(Field::new(&[FieldAttr::Tag(1)], None).unwrap().is_none());
    assert_eq!(
        Field::new(&[FieldAttr::Boxed, FieldAttr::Boxed], None).err(),
        Some(SchemaError::DuplicateAttribute)
    );
    assert_eq!(
        Field::new(&[FieldAttr::Kind(WireKind::Varint), FieldAttr::Unknown("x".into())], Some(1)).err(),
        Some(SchemaError::UnknownAttribute)
    );
    assert_eq!(
        Field::new(&[FieldAttr::Kind(WireKind::Varint)], None).err(),
        Some(SchemaError::MissingTag)
    );
    let m = Field::new_oneof(&[FieldAttr::Kind(WireKind::Varint), FieldAttr::Tag(3)], 7)
        .unwrap()
        .unwrap();
    assert_eq!(m.oneof, Some(7));
    assert_eq!(m.label, Label::Required);
    assert_eq!(m.tag, 3);
    assert_eq!(
        Field::new_oneof(
            &[FieldAttr::Kind(WireKind::Varint), FieldAttr::Tag(3), FieldAttr::Label(Label::Required)],
            7
        )
        .err(),
        Some(SchemaError::InvalidOneof)
    );
}

#[test]
fn default_value_round_trips() {
    let schema = MessageSchema::new(
        vec![
            field(1, Label::Required, WireKind::Message),
            field(2, Label::Required, WireKind::Varint),
            field(3, Label::Optional, WireKind::Fixed32),
            member(4, WireKind::Varint, 0),
            member(5, WireKind::Fixed64, 0),
        ],
        None,
    )
    .unwrap();
    let v = MessageValue::new(&schema);
    assert_eq!(
        v.fields,
        vec![vec![Scalar::Bytes(vec![])], vec![Scalar::Varint(0)], vec![], vec![], vec![]]
    );
    let mut buf = vec![];
    message::encode(&schema, &v, &mut buf);
    // the empty nested message is a key and a zero length
    assert_eq!(buf, vec![0x0a, 0x00, 0x10, 0x00]);
    assert_eq!(message::decode(&schema, &buf), Ok(v));
    // no case of the oneof chosen is no missing field
    assert_eq!(message::decode(&schema, &[0x0a, 0x00, 0x10, 0x00]).unwrap().chosen_case(&schema, 0), None);
    assert_eq!(message::decode(&schema, &[0x10, 0x00]), Err(DecodeError::MissingTag));
}

#[test]
fn oneof_is_a_tagged_union() {
    let schema = MessageSchema::new(
        vec![member(4, WireKind::Varint, 0), member(5, WireKind::LengthDelimited, 0)],
        None,
    )
    .unwrap();
    let mut v = MessageValue::new(&schema);
    message::merge(&schema, &mut v, &[0x20, 0x02]).unwrap();
    assert_eq!(v.chosen_case(&schema, 0), Some(0));
    message::merge(&schema, &mut v, &[0x2a, 0x01, 0x07]).unwrap();
    assert_eq!(v.chosen_case(&schema, 0), Some(1));
    assert!(v.fields[0].is_empty());
    // a failed read of a case leaves the chosen case as it was
    let before = v.clone();
    assert_eq!(message::merge(&schema, &mut v, &[0x20]), Err(DecodeError::InvalidVarint));
    assert_eq!(v, before);
    // the fields before the failing one stay read
    assert_eq!(
        message::merge(&schema, &mut v, &[0x20, 0x04, 0x2a, 0x05]),
        Err(DecodeError::LengthMismatch)
    );
    assert_eq!(v.fields, vec![vec![Scalar::Varint(2)], vec![]]);
}

#[test]
fn tags_inferred_from_attributes() {
    let fields = fields_from_attrs(&[
        vec![FieldAttr::Kind(WireKind::Varint), FieldAttr::Tag(3)],
        vec![FieldAttr::Boxed],
        vec![FieldAttr::Kind(WireKind::Varint)],
        vec![FieldAttr::Kind(WireKind::Varint), FieldAttr::Tag(1)],
        vec![FieldAttr::Kind(WireKind::Fixed32)],
    ])
    .unwrap();
    let tags: Vec<u32> = fields.iter().map(|f| f.tag).collect();
    assert_eq!(tags, vec![3, 4, 1, 2]);
    assert_eq!(fields_from_attrs(&[vec![FieldAttr::Kind(WireKind::Varint)]]).unwrap()[0].tag, 0);
    assert_eq!(
        fields_from_attrs(&[
            vec![FieldAttr::Kind(WireKind::Varint), FieldAttr::Tag(u32::MAX)],
            vec![FieldAttr::Kind(WireKind::Varint)],
        ])
        .err(),
        Some(SchemaError::MissingTag)
    );
    assert_eq!(
        fields_from_attrs(&[vec![FieldAttr::Tag(1), FieldAttr::Tag(2)]]).err(),
        Some(SchemaError::DuplicateAttribute)
    );
}
