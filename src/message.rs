use vstd::prelude::*;
use crate::amino_bytes::{decode_range, delimited, put_slice, read_delimited};
use crate::error::DecodeError;
use crate::fixed::{
    be_bytes,
    be_value,
    bits_of_i32,
    bits_of_i64,
    decode_int32,
    decode_int64,
    encode_int32,
    encode_int64,
    i32_of_bits,
    i64_of_bits,
};
use crate::key::{
    decode_field_number_typ3,
    encode_field_number_typ3,
    field_key_bytes,
    field_key_len,
    read_key,
    Typ3Byte,
};
use crate::schema::{tags_distinct, wire_type, wire_type_of, Field, Label, MessageSchema, WireKind};
use crate::varint::{
    encoded_len_varint,
    zigzag,
    decode_uvarint,
    decode_varint,
    encode_uvarint,
    encode_varint,
    read_uvarint,
    read_varint,
    uvarint_bytes,
    varint_bytes,
};

verus! {

/// One value of a field.
#[derive(Debug, Clone, PartialEq, Eq)]
pub enum Scalar {
    /// The value of a varint field.
    Varint(i64),
    /// The value of a 32-bit fixed-width field.
    Fixed32(i32),
    /// The value of a 64-bit fixed-width field.
    Fixed64(i64),
    /// The payload of a length-delimited field: a byte string, or the
    /// encoding of a nested message.
    Bytes(Vec<u8>),
}

/// The mathematical value of a [`Scalar`].
pub enum ScalarModel {
    Varint(i64),
    Fixed32(i32),
    Fixed64(i64),
    Bytes(Seq<u8>),
}

impl View for Scalar {
    type V = ScalarModel;

    open spec fn view(&self) -> ScalarModel {
        match self {
            Scalar::Varint(v) => ScalarModel::Varint(*v),
            Scalar::Fixed32(v) => ScalarModel::Fixed32(*v),
            Scalar::Fixed64(v) => ScalarModel::Fixed64(*v),
            Scalar::Bytes(b) => ScalarModel::Bytes(b@),
        }
    }
}

/// The values of a message, one list per field of its schema in
/// declaration order: empty for an absent field, one value for a present
/// single field, any number for a repeated one.
#[derive(Debug, Clone, PartialEq, Eq)]
pub struct MessageValue {
    pub fields: Vec<Vec<Scalar>>,
}

/// The values of a message as mathematical lists.
pub type ValueModel = Seq<Seq<ScalarModel>>;

/// The model of each list of values.
pub open spec fn lists_view(fields: Seq<Vec<Scalar>>) -> ValueModel {
    Seq::new(fields.len(), |i: int| Seq::new(fields[i]@.len(), |j: int| fields[i]@[j]@))
}

impl View for MessageValue {
    type V = ValueModel;

    open spec fn view(&self) -> ValueModel {
        lists_view(self.fields@)
    }
}

/// The bytes of one value, without its key.
pub open spec fn scalar_bytes(s: ScalarModel) -> Seq<u8> {
    match s {
        ScalarModel::Varint(v) => varint_bytes(v as int),
        ScalarModel::Fixed32(v) => be_bytes(bits_of_i32(v as int), 4),
        ScalarModel::Fixed64(v) => be_bytes(bits_of_i64(v as int), 8),
        ScalarModel::Bytes(b) => delimited(b),
    }
}

/// The bytes of one value of field `f`: its key, then the value.
pub open spec fn occurrence_bytes(f: Field, s: ScalarModel) -> Seq<u8> {
    field_key_bytes(f.tag, wire_type_of(f.kind)) + scalar_bytes(s)
}

/// The bytes of all the values of field `f`, in order.
pub open spec fn field_bytes(f: Field, values: Seq<ScalarModel>) -> Seq<u8>
    decreases values.len(),
{
    if values.len() == 0 {
        Seq::empty()
    } else {
        field_bytes(f, values.drop_last()) + occurrence_bytes(f, values.last())
    }
}

/// The bytes of the fields that `order` lists, in that order.
pub open spec fn body_bytes(fields: Seq<Field>, order: Seq<usize>, v: ValueModel) -> Seq<u8>
    decreases order.len(),
{
    if order.len() == 0 {
        Seq::empty()
    } else {
        body_bytes(fields, order.drop_last(), v) + field_bytes(
            fields[order.last() as int],
            v[order.last() as int],
        )
    }
}

/// The encoding of a message: its fields by ascending tag; for a
/// registered type, led by the length of what follows and the prefix.
pub open spec fn message_bytes(schema: MessageSchema, v: ValueModel) -> Seq<u8> {
    let body = body_bytes(schema.fields@, schema.order@, v);
    match schema.prefix {
        Some(p) => uvarint_bytes(4 + body.len()) + p@ + body,
        None => body,
    }
}

/// The encoding is small enough that its length and every length in it fit
/// 63 bits.
pub open spec fn size_ok(schema: MessageSchema, v: ValueModel) -> bool {
    body_bytes(schema.fields@, schema.order@, v).len() + 4 <= 0x7fff_ffff_ffff_ffff
}

/// `v` has one list per field of `fields`.
pub open spec fn shaped(fields: Seq<Field>, v: ValueModel) -> bool {
    v.len() == fields.len()
}

/// Appends one value, without its key.
fn encode_scalar(s: &Scalar, buf: &mut Vec<u8>)
    ensures
        final(buf)@ == old(buf)@ + scalar_bytes(s@),
{
    match s {
        Scalar::Varint(v) => encode_varint(*v, buf),
        Scalar::Fixed32(v) => encode_int32(*v, buf),
        Scalar::Fixed64(v) => encode_int64(*v, buf),
        Scalar::Bytes(b) => crate::amino_bytes::encode(b.as_slice(), buf),
    }
}

impl Field {
    /// Appends every value of this field: for each, the field's key, then
    /// the value.
    pub fn encode(&self, values: &Vec<Scalar>, buf: &mut Vec<u8>)
        ensures
            final(buf)@ == old(buf)@ + field_bytes(
                *self,
                Seq::new(values@.len(), |j: int| values@[j]@),
            ),
    {
        let ghost vs = Seq::new(values@.len(), |j: int| values@[j]@);
        let typ = wire_type(self.kind);
        let mut i: usize = 0;
        assert(vs.subrange(0, 0) =~= Seq::<ScalarModel>::empty());
        while i < values.len()
            invariant
                i <= values@.len(),
                vs == Seq::new(values@.len(), |j: int| values@[j]@),
                typ == wire_type_of(self.kind),
                buf@ == old(buf)@ + field_bytes(*self, vs.subrange(0, i as int)),
            decreases values@.len() - i,
        {
            encode_field_number_typ3(self.tag, typ, buf);
            encode_scalar(&values[i], buf);
            proof {
                assert(vs.subrange(0, i + 1).drop_last() =~= vs.subrange(0, i as int));
                assert(buf@ =~= old(buf)@ + field_bytes(*self, vs.subrange(0, i + 1)));
            }
            i = i + 1;
        }
        assert(vs.subrange(0, i as int) =~= vs);
    }
}

/// Appends the fields of `value` in the schema's order.
fn encode_body(schema: &MessageSchema, value: &MessageValue, buf: &mut Vec<u8>)
    requires
        schema.wf(),
        shaped(schema.fields@, value@),
    ensures
        final(buf)@ == old(buf)@ + body_bytes(schema.fields@, schema.order@, value@),
{
    let mut k: usize = 0;
    assert(schema.order@.subrange(0, 0) =~= Seq::<usize>::empty());
    while k < schema.order.len()
        invariant
            k <= schema.order@.len(),
            schema.wf(),
            shaped(schema.fields@, value@),
            buf@ == old(buf)@ + body_bytes(schema.fields@, schema.order@.subrange(0, k as int), value@),
        decreases schema.order@.len() - k,
    {
        let i = schema.order[k];
        schema.fields[i].encode(&value.fields[i], buf);
        proof {
            let o = schema.order@.subrange(0, k + 1);
            assert(o.drop_last() =~= schema.order@.subrange(0, k as int));
            assert(Seq::new(value.fields@[i as int]@.len(), |j: int| value.fields@[i as int]@[j]@)
                =~= value@[i as int]);
        }
        k = k + 1;
    }
    assert(schema.order@.subrange(0, k as int) =~= schema.order@);
}

/// Appends the encoding of `value`: its fields by ascending tag, led for a
/// registered type by the length of what follows and the prefix.
pub fn encode(schema: &MessageSchema, value: &MessageValue, buf: &mut Vec<u8>)
    requires
        schema.wf(),
        shaped(schema.fields@, value@),
        size_ok(*schema, value@),
    ensures
        final(buf)@ == old(buf)@ + message_bytes(*schema, value@),
{
    match &schema.prefix {
        None => encode_body(schema, value, buf),
        Some(prefix) => {
            let mut body: Vec<u8> = Vec::new();
            encode_body(schema, value, &mut body);
            encode_uvarint(body.len() as u64 + 4, buf);
            put_slice(buf, prefix.as_slice());
            put_slice(buf, body.as_slice());
            assert(final(buf)@ =~= old(buf)@ + message_bytes(*schema, value@));
        },
    }
}

/// The number of bytes of one value without its key.
pub open spec fn scalar_len(s: ScalarModel) -> nat {
    match s {
        ScalarModel::Varint(v) => uvarint_bytes(zigzag(v as int)).len(),
        ScalarModel::Fixed32(_) => 4,
        ScalarModel::Fixed64(_) => 8,
        ScalarModel::Bytes(b) => uvarint_bytes(b.len()).len() + b.len(),
    }
}

/// The number of bytes of the values of field `f`, keys included.
pub open spec fn field_len(f: Field, values: Seq<ScalarModel>) -> nat
    decreases values.len(),
{
    if values.len() == 0 {
        0
    } else {
        field_len(f, values.drop_last()) + field_key_bytes(f.tag, wire_type_of(f.kind)).len()
            + scalar_len(values.last())
    }
}

/// The number of bytes of the fields that `order` lists.
pub open spec fn body_len(fields: Seq<Field>, order: Seq<usize>, v: ValueModel) -> nat
    decreases order.len(),
{
    if order.len() == 0 {
        0
    } else {
        body_len(fields, order.drop_last(), v) + field_len(
            fields[order.last() as int],
            v[order.last() as int],
        )
    }
}

/// The number of bytes of the encoding of a message, reckoned from the
/// sizes of its parts.
pub open spec fn message_len(schema: MessageSchema, v: ValueModel) -> nat {
    let b = body_len(schema.fields@, schema.order@, v);
    match schema.prefix {
        Some(_) => uvarint_bytes(4 + b).len() + 4 + b,
        None => b,
    }
}

/// Number of bytes of one value without its key.
fn scalar_encoded_len(s: &Scalar) -> (r: usize)
    requires
        scalar_len(s@) <= usize::MAX,
    ensures
        r == scalar_len(s@),
{
    match s {
        Scalar::Varint(v) => {
            let ux: u64 = if *v >= 0 {
                (*v as u64) * 2
            } else {
                ((-(*v + 1)) as u64) * 2 + 1
            };
            encoded_len_varint(ux)
        },
        Scalar::Fixed32(_) => 4,
        Scalar::Fixed64(_) => 8,
        Scalar::Bytes(b) => encoded_len_varint(b.len() as u64) + b.len(),
    }
}

proof fn lemma_field_len_prefix(f: Field, values: Seq<ScalarModel>, k: int)
    requires
        0 <= k <= values.len(),
    ensures
        field_len(f, values.take(k)) <= field_len(f, values),
    decreases values.len() - k,
{
    if k < values.len() {
        lemma_field_len_prefix(f, values, k + 1);
        assert(values.take(k + 1).drop_last() =~= values.take(k));
    } else {
        assert(values.take(k) =~= values);
    }
}

proof fn lemma_body_len_prefix(fields: Seq<Field>, order: Seq<usize>, v: ValueModel, k: int)
    requires
        0 <= k <= order.len(),
    ensures
        body_len(fields, order.take(k), v) <= body_len(fields, order, v),
    decreases order.len() - k,
{
    if k < order.len() {
        lemma_body_len_prefix(fields, order, v, k + 1);
        assert(order.take(k + 1).drop_last() =~= order.take(k));
    } else {
        assert(order.take(k) =~= order);
    }
}

impl Field {
    /// Number of bytes that [`Field::encode`] writes for `values`.
    pub fn encoded_len(&self, values: &Vec<Scalar>) -> (r: usize)
        requires
            field_len(*self, list_view(values@)) <= usize::MAX,
        ensures
            r == field_len(*self, list_view(values@)),
    {
        let ghost vs = list_view(values@);
        let key_len = field_key_len(self.tag, wire_type(self.kind));
        let mut total: usize = 0;
        let mut i: usize = 0;
        assert(vs.take(0) =~= Seq::<ScalarModel>::empty());
        while i < values.len()
            invariant
                i <= values@.len(),
                vs == list_view(values@),
                field_len(*self, vs) <= usize::MAX,
                key_len == field_key_bytes(self.tag, wire_type_of(self.kind)).len(),
                total == field_len(*self, vs.take(i as int)),
            decreases values@.len() - i,
        {
            proof {
                assert(vs.take(i + 1).drop_last() =~= vs.take(i as int));
                lemma_field_len_prefix(*self, vs, i + 1);
            }
            let n = scalar_encoded_len(&values[i]);
            total = total + key_len + n;
            i = i + 1;
        }
        assert(vs.take(i as int) =~= vs);
        total
    }
}

/// Number of bytes that [`encode`] writes for `value`.
pub fn encoded_len(schema: &MessageSchema, value: &MessageValue) -> (r: usize)
    requires
        schema.wf(),
        shaped(schema.fields@, value@),
        message_len(*schema, value@) <= usize::MAX,
    ensures
        r == message_len(*schema, value@),
{
    let ghost order = schema.order@;
    let mut total: usize = 0;
    let mut k: usize = 0;
    assert(order.take(0) =~= Seq::<usize>::empty());
    while k < schema.order.len()
        invariant
            k <= order.len(),
            order == schema.order@,
            schema.wf(),
            shaped(schema.fields@, value@),
            body_len(schema.fields@, order, value@) <= usize::MAX,
            total == body_len(schema.fields@, order.take(k as int), value@),
        decreases order.len() - k,
    {
        proof {
            assert(order.take(k + 1).drop_last() =~= order.take(k as int));
            lemma_body_len_prefix(schema.fields@, order, value@, k + 1);
        }
        let i = schema.order[k];
        assert(list_view(value.fields@[i as int]@) =~= value@[i as int]);
        let n = schema.fields[i].encoded_len(&value.fields[i]);
        total = total + n;
        k = k + 1;
    }
    assert(order.take(k as int) =~= order);
    match &schema.prefix {
        None => total,
        Some(_) => encoded_len_varint(total as u64 + 4) + 4 + total,
    }
}

/// The value of kind `kind` at the start of `s` and the bytes it takes;
/// the error where there is none.
pub open spec fn read_scalar(kind: WireKind, s: Seq<u8>) -> Result<(ScalarModel, int), DecodeError> {
    match kind {
        WireKind::Varint => match read_varint(s) {
            None => Err(DecodeError::InvalidVarint),
            Some((v, n)) => Ok((ScalarModel::Varint(v), n)),
        },
        WireKind::Fixed32 => if s.len() < 4 {
            Err(DecodeError::UnexpectedEof)
        } else {
            Ok((ScalarModel::Fixed32(i32_of_bits(be_value(s.take(4))) as i32), 4))
        },
        WireKind::Fixed64 => if s.len() < 8 {
            Err(DecodeError::UnexpectedEof)
        } else {
            Ok((ScalarModel::Fixed64(i64_of_bits(be_value(s.take(8))) as i64), 8))
        },
        WireKind::LengthDelimited | WireKind::Message => match read_delimited(s) {
            Err(e) => Err(e),
            Ok((b, n)) => Ok((ScalarModel::Bytes(b), n)),
        },
    }
}

/// How many bytes the payload of an unknown field of wire type `typ` takes
/// at the start of `s`; the error where it cannot be skipped.
pub open spec fn skip_len(typ: Typ3Byte, s: Seq<u8>) -> Result<int, DecodeError> {
    match typ {
        Typ3Byte::Typ3_Varint => match read_uvarint(s) {
            None => Err(DecodeError::InvalidVarint),
            Some((_, n)) => Ok(n),
        },
        Typ3Byte::Typ3_8Byte => if s.len() < 8 {
            Err(DecodeError::UnexpectedEof)
        } else {
            Ok(8)
        },
        Typ3Byte::Typ3_4Byte => if s.len() < 4 {
            Err(DecodeError::UnexpectedEof)
        } else {
            Ok(4)
        },
        Typ3Byte::Typ3_ByteLength => match read_delimited(s) {
            Err(e) => Err(e),
            Ok((_, n)) => Ok(n),
        },
        _ => Err(DecodeError::UnknownWireType),
    }
}

/// The field with tag `tag`, if there is one.
pub open spec fn tag_index(fields: Seq<Field>, tag: u32) -> Option<int> {
    if exists|i: int| 0 <= i < fields.len() && fields[i].tag == tag {
        Some(choose|i: int| 0 <= i < fields.len() && fields[i].tag == tag)
    } else {
        None
    }
}

/// The model of a list of values.
pub open spec fn list_view(values: Seq<Scalar>) -> Seq<ScalarModel> {
    Seq::new(values.len(), |j: int| values[j]@)
}

/// The values of field `f` after `s` is read for it: a repeated field
/// gains it; a nested message met again is merged with the one there, by
/// joining their encodings; any other field holds `s` alone.
pub open spec fn merge_list(f: Field, list: Seq<ScalarModel>, s: ScalarModel) -> Seq<ScalarModel> {
    if f.label == Label::Repeated {
        list.push(s)
    } else if f.kind == WireKind::Message && f.oneof is None && list.len() == 1 && list[0] is Bytes
        && s is Bytes {
        seq![ScalarModel::Bytes(list[0]->Bytes_0 + s->Bytes_0)]
    } else {
        seq![s]
    }
}

/// The values after `s` is read for field `i`: a member of a oneof replaces
/// every member of its oneof; any other field merges `s` as
/// [`merge_list`] says.
pub open spec fn merge_spec(fields: Seq<Field>, acc: ValueModel, i: int, s: ScalarModel) -> ValueModel {
    let f = fields[i];
    if f.label != Label::Repeated && f.oneof is Some {
        Seq::new(
            acc.len(),
            |j: int|
                if j == i {
                    seq![s]
                } else if fields[j].oneof == f.oneof {
                    Seq::empty()
                } else {
                    acc[j]
                },
        )
    } else {
        acc.update(i, merge_list(f, acc[i], s))
    }
}

/// Reads one field at the start of `s` into `acc`: the values after it and
/// the bytes it takes. Unknown fields are skipped.
#[verifier::opaque]
pub open spec fn read_field(fields: Seq<Field>, s: Seq<u8>, acc: ValueModel) -> Result<
    (ValueModel, int),
    DecodeError,
> {
    match read_key(s) {
        Err(e) => Err(e),
        Ok((tag, typ, n)) => {
            let rest = s.subrange(n, s.len() as int);
            match tag_index(fields, tag) {
                Some(i) => if typ != wire_type_of(fields[i].kind) {
                    Err(DecodeError::WireTypeMismatch)
                } else {
                    match read_scalar(fields[i].kind, rest) {
                        Err(e) => Err(e),
                        Ok((v, m)) => Ok((merge_spec(fields, acc, i, v), n + m)),
                    }
                },
                None => match skip_len(typ, rest) {
                    Err(e) => Err(e),
                    Ok(m) => Ok((acc, n + m)),
                },
            }
        },
    }
}

/// Reads fields into `acc` until `s` is used up.
pub open spec fn read_fields(fields: Seq<Field>, s: Seq<u8>, acc: ValueModel) -> Result<
    ValueModel,
    DecodeError,
>
    decreases s.len(),
{
    if s.len() == 0 {
        Ok(acc)
    } else {
        match read_field(fields, s, acc) {
            Err(e) => Err(e),
            Ok((next, n)) => if 0 < n <= s.len() {
                read_fields(fields, s.subrange(n, s.len() as int), next)
            } else {
                Err(DecodeError::InvalidVarint)
            },
        }
    }
}

/// A message with every field absent.
pub open spec fn empty_value(n: nat) -> ValueModel {
    Seq::new(n, |i: int| Seq::<ScalarModel>::empty())
}

/// Every required field outside a oneof has a value. (The cases of a
/// oneof are labelled `Required` too, but only the chosen one holds a value.)
pub open spec fn required_present(fields: Seq<Field>, v: ValueModel) -> bool {
    forall|i: int|
        0 <= i < fields.len() && (#[trigger] fields[i]).label == Label::Required && fields[i].oneof is None
            ==> v[i].len() > 0
}

/// The values of `acc` once the fields of `s` before the first one that
/// cannot be read have been read into it.
pub open spec fn read_fields_until_error(fields: Seq<Field>, s: Seq<u8>, acc: ValueModel) -> ValueModel
    decreases s.len(),
{
    if s.len() == 0 {
        acc
    } else {
        match read_field(fields, s, acc) {
            Err(_) => acc,
            Ok((next, n)) => if 0 < n <= s.len() {
                read_fields_until_error(fields, s.subrange(n, s.len() as int), next)
            } else {
                acc
            },
        }
    }
}

/// The value of a field of kind `kind` where nothing has been read.
pub open spec fn default_scalar(kind: WireKind) -> ScalarModel {
    match kind {
        WireKind::Varint => ScalarModel::Varint(0),
        WireKind::Fixed32 => ScalarModel::Fixed32(0),
        WireKind::Fixed64 => ScalarModel::Fixed64(0),
        WireKind::LengthDelimited | WireKind::Message => ScalarModel::Bytes(Seq::empty()),
    }
}

/// The values of field `f` in a default message: the default value of its
/// kind for a required field outside a oneof (for a nested message, the
/// empty encoding, which is the message with no field set), none otherwise.
pub open spec fn field_default(f: Field) -> Seq<ScalarModel> {
    if f.label == Label::Required && f.oneof is None {
        seq![default_scalar(f.kind)]
    } else {
        Seq::empty()
    }
}

/// The default message of a type with fields `fields`.
pub open spec fn default_value(fields: Seq<Field>) -> ValueModel {
    Seq::new(fields.len(), |i: int| field_default(fields[i]))
}

/// The bytes of `s` that hold the fields: for a registered type, what
/// follows the leading length and the four prefix bytes.
pub open spec fn message_body(schema: MessageSchema, s: Seq<u8>) -> Result<Seq<u8>, DecodeError> {
    match schema.prefix {
        None => Ok(s),
        Some(_) => match read_uvarint(s) {
            None => Err(DecodeError::InvalidVarint),
            Some((_, n)) => if n + 4 <= s.len() {
                Ok(s.subrange(n + 4, s.len() as int))
            } else {
                Err(DecodeError::UnexpectedEof)
            },
        },
    }
}

/// The values after the fields that `s` encodes are read into `acc`, or
/// why they cannot be.
pub open spec fn merge_message(schema: MessageSchema, s: Seq<u8>, acc: ValueModel) -> Result<
    ValueModel,
    DecodeError,
> {
    match message_body(schema, s) {
        Err(e) => Err(e),
        Ok(body) => read_fields(schema.fields@, body, acc),
    }
}

/// The message that `s` encodes, or why it does not encode one.
pub open spec fn read_message(schema: MessageSchema, s: Seq<u8>) -> Result<ValueModel, DecodeError> {
    match merge_message(schema, s, empty_value(schema.fields@.len())) {
        Err(e) => Err(e),
        Ok(v) => if required_present(schema.fields@, v) {
            Ok(v)
        } else {
            Err(DecodeError::MissingTag)
        },
    }
}

/// Reads a value of kind `kind` at `*pos`.
fn decode_scalar(kind: WireKind, buf: &[u8], pos: &mut usize) -> (r: Result<Scalar, DecodeError>)
    requires
        *old(pos) <= buf@.len(),
    ensures
        ({
            let s = buf@.subrange(*old(pos) as int, buf@.len() as int);
            match r {
                Ok(v) => {
                    &&& read_scalar(kind, s) == Ok::<(ScalarModel, int), DecodeError>(
                        (v@, *final(pos) - *old(pos)),
                    )
                    &&& *old(pos) < *final(pos) <= buf@.len()
                },
                Err(e) => read_scalar(kind, s) == Err::<(ScalarModel, int), DecodeError>(e),
            }
        }),
{
    let start = *pos;
    let ghost s = buf@.subrange(start as int, buf@.len() as int);
    match kind {
        WireKind::Varint => {
            let v = decode_varint(buf, pos)?;
            Ok(Scalar::Varint(v))
        },
        WireKind::Fixed32 => {
            let v = decode_int32(buf, pos)?;
            assert(s.take(4) =~= buf@.subrange(start as int, start + 4));
            Ok(Scalar::Fixed32(v))
        },
        WireKind::Fixed64 => {
            let v = decode_int64(buf, pos)?;
            assert(s.take(8) =~= buf@.subrange(start as int, start + 8));
            Ok(Scalar::Fixed64(v))
        },
        WireKind::LengthDelimited | WireKind::Message => {
            let b = crate::amino_bytes::decode(buf, pos)?;
            Ok(Scalar::Bytes(b))
        },
    }
}

/// Skips the payload of an unknown field of wire type `typ` at `*pos`.
fn skip_field(typ: Typ3Byte, buf: &[u8], pos: &mut usize) -> (r: Result<(), DecodeError>)
    requires
        *old(pos) <= buf@.len(),
    ensures
        ({
            let s = buf@.subrange(*old(pos) as int, buf@.len() as int);
            match r {
                Ok(_) => {
                    &&& skip_len(typ, s) == Ok::<int, DecodeError>(*final(pos) - *old(pos))
                    &&& *old(pos) < *final(pos) <= buf@.len()
                },
                Err(e) => skip_len(typ, s) == Err::<int, DecodeError>(e),
            }
        }),
{
    let start = *pos;
    match typ {
        Typ3Byte::Typ3_Varint => {
            decode_uvarint(buf, pos)?;
            Ok(())
        },
        Typ3Byte::Typ3_8Byte => {
            if buf.len() - start < 8 {
                return Err(DecodeError::UnexpectedEof);
            }
            *pos = start + 8;
            Ok(())
        },
        Typ3Byte::Typ3_4Byte => {
            if buf.len() - start < 4 {
                return Err(DecodeError::UnexpectedEof);
            }
            *pos = start + 4;
            Ok(())
        },
        Typ3Byte::Typ3_ByteLength => {
            decode_range(buf, pos)?;
            Ok(())
        },
        _ => Err(DecodeError::UnknownWireType),
    }
}

/// The index of the field with tag `tag`, if there is one.
fn find_field(fields: &Vec<Field>, tag: u32) -> (r: Option<usize>)
    requires
        tags_distinct(fields@),
    ensures
        match r {
            Some(i) => tag_index(fields@, tag) == Some(i as int) && i < fields@.len(),
            None => tag_index(fields@, tag) is None,
        },
{
    let mut i: usize = 0;
    while i < fields.len()
        invariant
            i <= fields@.len(),
            tags_distinct(fields@),
            forall|j: int| 0 <= j < i ==> fields@[j].tag != tag,
        decreases fields@.len() - i,
    {
        if fields[i].tag == tag {
            proof {
                assert(0 <= i < fields@.len() && fields@[i as int].tag == tag);
                let c = choose|j: int| 0 <= j < fields@.len() && fields@[j].tag == tag;
                assert(c == i);
            }
            return Some(i);
        }
        i = i + 1;
    }
    None
}

/// Whether a field belongs to oneof `group`.
fn in_group(oneof: Option<u32>, group: u32) -> (r: bool)
    ensures
        r == (oneof == Some(group)),
{
    match oneof {
        Some(g) => g == group,
        None => false,
    }
}

/// Adds `s`, read for field `i`, to `value` as [`merge_spec`] says.
fn merge_into(fields: &Vec<Field>, value: &mut MessageValue, i: usize, s: Scalar)
    requires
        i < fields@.len(),
        shaped(fields@, old(value)@),
    ensures
        final(value)@ == merge_spec(fields@, old(value)@, i as int, s@),
        shaped(fields@, final(value)@),
{
    let ghost acc = old(value)@;
    let ghost sv = s@;
    let f = &fields[i];
    match f.oneof {
        Some(group) => if f.label != Label::Repeated {
            let mut j: usize = 0;
            while j < fields.len()
                invariant
                    i < fields@.len(),
                    j <= fields@.len(),
                    fields@[i as int].oneof == Some(group),
                    value.fields@.len() == fields@.len(),
                    acc == lists_view(old(value).fields@),
                    old(value).fields@.len() == fields@.len(),
                    forall|k: int|
                        0 <= k < fields@.len() ==> if k < j && fields@[k].oneof == Some(group) {
                            value.fields@[k]@.len() == 0
                        } else {
                            value.fields@[k] == old(value).fields@[k]
                        },
                decreases fields@.len() - j,
            {
                if in_group(fields[j].oneof, group) {
                    value.fields.set(j, Vec::new());
                }
                j = j + 1;
            }
            let mut single: Vec<Scalar> = Vec::new();
            single.push(s);
            value.fields.set(i, single);
            assert(value@ =~~= merge_spec(fields@, acc, i as int, sv));
            return;
        },
        None => {},
    }
    let mut list = value.fields.remove(i);
    f.merge(&mut list, s);
    value.fields.insert(i, list);
    assert(value@ =~~= merge_spec(fields@, acc, i as int, sv));
}

impl Field {
    /// Adds `s`, read for this field, to its values as [`merge_list`] says.
    pub fn merge(&self, values: &mut Vec<Scalar>, s: Scalar)
        ensures
            list_view(final(values)@) == merge_list(*self, list_view(old(values)@), s@),
    {
        let ghost old_list = list_view(old(values)@);
        let ghost sv = s@;
        if self.label == Label::Repeated {
            values.push(s);
            assert(list_view(values@) =~= merge_list(*self, old_list, sv));
            return;
        }
        let join = match self.oneof {
            None => self.kind == WireKind::Message && values.len() == 1 && match (&values[0], &s) {
                (Scalar::Bytes(_), Scalar::Bytes(_)) => true,
                _ => false,
            },
            Some(_) => false,
        };
        if join {
            let first = values.remove(0);
            match (first, s) {
                (Scalar::Bytes(mut joined), Scalar::Bytes(more)) => {
                    put_slice(&mut joined, more.as_slice());
                    values.push(Scalar::Bytes(joined));
                },
                _ => {},
            }
        } else {
            values.clear();
            values.push(s);
        }
        assert(list_view(values@) =~= merge_list(*self, old_list, sv));
    }
}

/// Reads one field at `*pos` into `value`, skipping it where it is unknown.
fn decode_field(fields: &Vec<Field>, buf: &[u8], pos: &mut usize, value: &mut MessageValue) -> (r:
    Result<(), DecodeError>)
    requires
        *old(pos) <= buf@.len(),
        tags_distinct(fields@),
        shaped(fields@, old(value)@),
    ensures
        shaped(fields@, final(value)@),
        ({
            let s = buf@.subrange(*old(pos) as int, buf@.len() as int);
            match r {
                Ok(_) => {
                    &&& read_field(fields@, s, old(value)@) == Ok::<(ValueModel, int), DecodeError>(
                        (final(value)@, *final(pos) - *old(pos)),
                    )
                    &&& *old(pos) < *final(pos) <= buf@.len()
                    &&& shaped(fields@, final(value)@)
                },
                Err(e) => {
                    &&& read_field(fields@, s, old(value)@) == Err::<(ValueModel, int), DecodeError>(e)
                    &&& final(value)@ == old(value)@
                },
            }
        }),
{
    reveal(read_field);
    let start = *pos;
    let len = buf.len();
    let ghost s = buf@.subrange(start as int, len as int);
    let (tag, typ) = decode_field_number_typ3(buf, pos)?;
    let ghost key_end = *pos;
    assert(s.subrange(key_end - start, s.len() as int) =~= buf@.subrange(key_end as int, len as int));
    match find_field(fields, tag) {
        Some(i) => {
            let kind = fields[i].kind;
            if typ != wire_type(kind) {
                return Err(DecodeError::WireTypeMismatch);
            }
            let v = decode_scalar(kind, buf, pos)?;
            merge_into(fields, value, i, v);
            Ok(())
        },
        None => {
            skip_field(typ, buf, pos)?;
            Ok(())
        },
    }
}

/// A message with every field absent.
fn empty_message(n: usize) -> (r: MessageValue)
    ensures
        r@ == empty_value(n as nat),
{
    let mut fields: Vec<Vec<Scalar>> = Vec::new();
    let mut i: usize = 0;
    while i < n
        invariant
            i <= n,
            fields@.len() == i,
            forall|k: int| 0 <= k < i ==> fields@[k]@.len() == 0,
        decreases n - i,
    {
        fields.push(Vec::new());
        i = i + 1;
    }
    let r = MessageValue { fields };
    assert(r@ =~~= empty_value(n as nat));
    r
}

/// Reads the fields that `buf` encodes into `value`, after the length
/// and prefix that lead a registered type. Neither the length nor the
/// prefix is checked against what follows or against the schema's prefix.
///
/// Unknown fields are skipped. Fails where a key, a length or a value is
/// malformed or runs past the end, where a known field comes under another
/// wire type than its kind uses, and where an unknown one has a wire type
/// that cannot be skipped. `value` then holds what the fields before the
/// failing one made of it: a field that fails to read leaves it as it was,
/// so a oneof keeps the case it had.
pub fn merge(schema: &MessageSchema, value: &mut MessageValue, buf: &[u8]) -> (r: Result<(), DecodeError>)
    requires
        schema.wf(),
        shaped(schema.fields@, old(value)@),
    ensures
        shaped(schema.fields@, final(value)@),
        match r {
            Ok(_) => merge_message(*schema, buf@, old(value)@) == Ok::<ValueModel, DecodeError>(
                final(value)@,
            ),
            Err(e) => {
                &&& merge_message(*schema, buf@, old(value)@) == Err::<ValueModel, DecodeError>(e)
                &&& final(value)@ == match message_body(*schema, buf@) {
                    Err(_) => old(value)@,
                    Ok(body) => read_fields_until_error(schema.fields@, body, old(value)@),
                }
            },
        },
{
    let ghost start_value = value@;
    let fields = &schema.fields;
    let len = buf.len();
    let mut pos: usize = 0;
    assert(buf@.subrange(0, len as int) =~= buf@);
    if schema.prefix.is_some() {
        let _total = decode_uvarint(buf, &mut pos)?;
        if len - pos < 4 {
            return Err(DecodeError::UnexpectedEof);
        }
        pos = pos + 4;
    }
    let ghost body = buf@.subrange(pos as int, len as int);
    assert(message_body(*schema, buf@) == Ok::<Seq<u8>, DecodeError>(body));
    while pos < len
        invariant
            pos <= len == buf@.len(),
            schema.wf(),
            fields == &schema.fields,
            shaped(fields@, value@),
            message_body(*schema, buf@) == Ok::<Seq<u8>, DecodeError>(body),
            start_value == old(value)@,
            read_fields(fields@, body, start_value) == read_fields(
                fields@,
                buf@.subrange(pos as int, len as int),
                value@,
            ),
            read_fields_until_error(fields@, body, start_value) == read_fields_until_error(
                fields@,
                buf@.subrange(pos as int, len as int),
                value@,
            ),
        decreases len - pos,
    {
        let start = pos;
        let ghost s = buf@.subrange(start as int, len as int);
        let ghost acc = value@;
        match decode_field(fields, buf, &mut pos, value) {
            Ok(_) => {},
            Err(e) => {
                assert(read_fields(fields@, s, acc) == Err::<ValueModel, DecodeError>(e));
                assert(read_fields_until_error(fields@, s, acc) == acc);
                return Err(e);
            },
        }
        assert(s.subrange(pos - start, s.len() as int) =~= buf@.subrange(pos as int, len as int));
    }
    assert(buf@.subrange(pos as int, len as int) =~= Seq::<u8>::empty());
    Ok(())
}

/// Reads the message that `buf` encodes.
///
/// Fails as [`merge`] does, and with `MissingTag` where a required field
/// outside a oneof is absent.
pub fn decode(schema: &MessageSchema, buf: &[u8]) -> (r: Result<MessageValue, DecodeError>)
    requires
        schema.wf(),
    ensures
        match r {
            Ok(v) => read_message(*schema, buf@) == Ok::<ValueModel, DecodeError>(v@),
            Err(e) => read_message(*schema, buf@) == Err::<ValueModel, DecodeError>(e),
        },
{
    let fields = &schema.fields;
    let mut value = empty_message(fields.len());
    merge(schema, &mut value, buf)?;
    let ghost decoded = value@;
    let mut i: usize = 0;
    while i < fields.len()
        invariant
            i <= fields@.len(),
            fields == &schema.fields,
            shaped(fields@, value@),
            value@ == decoded,
            merge_message(*schema, buf@, empty_value(fields@.len())) == Ok::<ValueModel, DecodeError>(
                decoded,
            ),
            forall|k: int|
                0 <= k < i && (#[trigger] fields@[k]).label == Label::Required && fields@[k].oneof is None
                    ==> value@[k].len() > 0,
        decreases fields@.len() - i,
    {
        if fields[i].label == Label::Required && fields[i].oneof.is_none() && value.fields[i].len() == 0 {
            assert(fields@[i as int].label == Label::Required);
            assert(value@[i as int].len() == 0);
            assert(!required_present(fields@, decoded));
            return Err(DecodeError::MissingTag);
        }
        i = i + 1;
    }
    Ok(value)
}

/// The value of a field of kind `kind` where nothing has been read.
fn default_scalar_of(kind: WireKind) -> (r: Scalar)
    ensures
        r@ == default_scalar(kind),
{
    match kind {
        WireKind::Varint => Scalar::Varint(0),
        WireKind::Fixed32 => Scalar::Fixed32(0),
        WireKind::Fixed64 => Scalar::Fixed64(0),
        WireKind::LengthDelimited | WireKind::Message => Scalar::Bytes(Vec::new()),
    }
}

impl Field {
    /// The values of this field in a default message, as [`field_default`]
    /// says.
    pub fn default_values(&self) -> (r: Vec<Scalar>)
        ensures
            list_view(r@) == field_default(*self),
    {
        let mut values: Vec<Scalar> = Vec::new();
        if self.label == Label::Required && self.oneof.is_none() {
            values.push(default_scalar_of(self.kind));
        }
        assert(list_view(values@) =~= field_default(*self));
        values
    }

    /// Resets the values of this field to those of a default message.
    pub fn clear(&self, values: &mut Vec<Scalar>)
        ensures
            list_view(final(values)@) == field_default(*self),
    {
        *values = self.default_values();
    }
}

impl MessageValue {
    /// The default value of the message type of `schema`: each required
    /// field outside a oneof holds its kind's default value, every other
    /// field is absent.
    pub fn new(schema: &MessageSchema) -> (r: MessageValue)
        ensures
            r@ == default_value(schema.fields@),
            shaped(schema.fields@, r@),
    {
        let fields = &schema.fields;
        let mut lists: Vec<Vec<Scalar>> = Vec::new();
        let mut i: usize = 0;
        while i < fields.len()
            invariant
                i <= fields@.len(),
                lists@.len() == i,
                forall|k: int| 0 <= k < i ==> list_view(#[trigger] lists@[k]@) == field_default(fields@[k]),
            decreases fields@.len() - i,
        {
            let l = fields[i].default_values();
            lists.push(l);
            i = i + 1;
        }
        let r = MessageValue { fields: lists };
        assert forall|k: int| 0 <= k < fields@.len() implies r@[k] == field_default(fields@[k]) by {
            assert(list_view(lists@[k]@) == field_default(fields@[k]));
            assert(r@[k] =~= list_view(lists@[k]@));
        }
        assert(r@ =~= default_value(fields@));
        r
    }
}

/// Resets `value` to the default value of the message type of `schema`.
pub fn clear(schema: &MessageSchema, value: &mut MessageValue)
    ensures
        final(value)@ == default_value(schema.fields@),
{
    *value = MessageValue::new(schema);
}

impl MessageValue {
    /// The chosen case of oneof `group`, read as a tagged union: the field
    /// of that oneof that holds a value, if one does.
    pub fn chosen_case(&self, schema: &MessageSchema, group: u32) -> (r: Option<usize>)
        requires
            shaped(schema.fields@, self@),
        ensures
            match r {
                Some(i) => {
                    &&& i < schema.fields@.len()
                    &&& schema.fields@[i as int].oneof == Some(group)
                    &&& self@[i as int].len() > 0
                    &&& forall|j: int|
                        0 <= j < i && schema.fields@[j].oneof == Some(group) ==> self@[j].len() == 0
                },
                None => forall|j: int|
                    0 <= j < schema.fields@.len() && schema.fields@[j].oneof == Some(group)
                        ==> self@[j].len() == 0,
            },
    {
        let fields = &schema.fields;
        let mut i: usize = 0;
        while i < fields.len()
            invariant
                i <= fields@.len(),
                shaped(fields@, self@),
                fields == &schema.fields,
                forall|j: int| 0 <= j < i && fields@[j].oneof == Some(group) ==> self@[j].len() == 0,
            decreases fields@.len() - i,
        {
            if in_group(fields[i].oneof, group) && self.fields[i].len() > 0 {
                return Some(i);
            }
            i = i + 1;
        }
        None
    }
}

} // verus!
