use vstd::prelude::*;
use crate::error::DecodeError;
use crate::fixed::{be_bytes, bits_of_i32, bits_of_i64};
use crate::key::{field_key_bytes, read_key};
use crate::message::{
    default_value,
    field_default,
    body_len,
    field_len,
    message_len,
    scalar_len,
    body_bytes,
    empty_value,
    field_bytes,
    merge_spec,
    message_body,
    skip_len,
    message_bytes,
    occurrence_bytes,
    read_field,
    read_fields,
    read_message,
    read_scalar,
    required_present,
    scalar_bytes,
    size_ok,
    tag_index,
    ScalarModel,
    ValueModel,
};
use crate::schema::{is_tag_order, tags_distinct, wire_type_of, Field, Label, MessageSchema, WireKind};
use crate::varint::{uvarint_bytes, zigzag};

verus! {

/// `s` is a value that a field of kind `kind` can hold.
pub open spec fn kind_matches(kind: WireKind, s: ScalarModel) -> bool {
    match kind {
        WireKind::Varint => s is Varint,
        WireKind::Fixed32 => s is Fixed32,
        WireKind::Fixed64 => s is Fixed64,
        WireKind::LengthDelimited | WireKind::Message => s is Bytes && s->Bytes_0.len() <= u64::MAX,
    }
}

/// `v` is a value of a message with fields `fields`: one list per field,
/// each value of the field's kind, at most one value in a field that is
/// not repeated, exactly one in a required field outside a oneof, and a
/// value for at most one case of each oneof.
pub open spec fn value_fits(fields: Seq<Field>, v: ValueModel) -> bool {
    &&& v.len() == fields.len()
    &&& forall|i: int, j: int|
        0 <= i < v.len() && 0 <= j < v[i].len() ==> kind_matches(fields[i].kind, #[trigger] v[i][j])
    &&& forall|i: int|
        0 <= i < v.len() && (#[trigger] fields[i]).label != Label::Repeated ==> v[i].len() <= 1
    &&& forall|i: int|
        0 <= i < v.len() && (#[trigger] fields[i]).label == Label::Required && fields[i].oneof is None
            ==> v[i].len() == 1
    &&& forall|i: int, j: int|
        0 <= i < v.len() && 0 <= j < v.len() && i != j && (#[trigger] fields[i]).oneof is Some
            && fields[i].oneof == (#[trigger] fields[j]).oneof && v[i].len() > 0 ==> v[j].len() == 0
}

/// The values after every value in `vals` is read, in order, for field `i`.
pub open spec fn merge_all(fields: Seq<Field>, acc: ValueModel, i: int, vals: Seq<ScalarModel>) -> ValueModel
    decreases vals.len(),
{
    if vals.len() == 0 {
        acc
    } else {
        merge_spec(fields, merge_all(fields, acc, i, vals.drop_last()), i, vals.last())
    }
}

/// The fields of `v` that `order` lists, the others absent.
pub open spec fn placed(order: Seq<usize>, v: ValueModel, n: nat) -> ValueModel {
    Seq::new(n, |j: int| if order.contains(j as usize) { v[j] } else { Seq::<ScalarModel>::empty() })
}

proof fn lemma_scalar_round_trip(kind: WireKind, s: ScalarModel, rest: Seq<u8>)
    requires
        kind_matches(kind, s),
    ensures
        read_scalar(kind, scalar_bytes(s) + rest) == Ok::<(ScalarModel, int), DecodeError>(
            (s, scalar_bytes(s).len() as int),
        ),
{
    match s {
        ScalarModel::Varint(v) => {
            crate::varint::lemma_varint_decode_encode(v, rest);
        },
        ScalarModel::Fixed32(v) => {
            crate::fixed::lemma_int32_round_trip(v);
            let b = be_bytes(bits_of_i32(v as int), 4);
            assert((b + rest).take(4) =~= b);
        },
        ScalarModel::Fixed64(v) => {
            crate::fixed::lemma_int64_round_trip(v);
            let b = be_bytes(bits_of_i64(v as int), 8);
            assert((b + rest).take(8) =~= b);
        },
        ScalarModel::Bytes(b) => {
            crate::amino_bytes::lemma_delimited_round_trip(b, rest);
        },
    }
}

proof fn lemma_uvarint_nonempty(v: nat)
    ensures
        uvarint_bytes(v).len() >= 1,
{
}

/// The field with tag `fields[i].tag` is field `i`.
proof fn lemma_tag_index(fields: Seq<Field>, i: int)
    requires
        tags_distinct(fields),
        0 <= i < fields.len(),
    ensures
        tag_index(fields, fields[i].tag) == Some(i),
{
    let tag = fields[i].tag;
    assert(0 <= i < fields.len() && fields[i].tag == tag);
    let c = choose|j: int| 0 <= j < fields.len() && fields[j].tag == tag;
    assert(c == i);
}

/// One value written with its key reads back into field `i`.
proof fn lemma_occurrence_read(
    fields: Seq<Field>,
    acc: ValueModel,
    i: int,
    s: ScalarModel,
    rest: Seq<u8>,
)
    requires
        tags_distinct(fields),
        0 <= i < fields.len(),
        kind_matches(fields[i].kind, s),
    ensures
        read_field(fields, occurrence_bytes(fields[i], s) + rest, acc) == Ok::<
            (ValueModel, int),
            DecodeError,
        >((merge_spec(fields, acc, i, s), occurrence_bytes(fields[i], s).len() as int)),
        occurrence_bytes(fields[i], s).len() > 0,
{
    reveal(read_field);
    let f = fields[i];
    let typ = wire_type_of(f.kind);
    let k = field_key_bytes(f.tag, typ);
    let all = occurrence_bytes(f, s) + rest;
    crate::key::lemma_field_key_round_trip(f.tag, typ);
    assert(all =~= k + (scalar_bytes(s) + rest));
    assert(read_key(all) == read_key(k + (scalar_bytes(s) + rest)));
    assert(all.subrange(k.len() as int, all.len() as int) =~= scalar_bytes(s) + rest);
    lemma_scalar_round_trip(f.kind, s, rest);
    lemma_tag_index(fields, i);
    lemma_uvarint_nonempty(crate::key::field_key(f.tag, typ) as nat);
}

/// Reading a field whose bytes end where `rest` begins goes on from `rest`.
proof fn lemma_read_fields_prefix(
    fields: Seq<Field>,
    a: Seq<u8>,
    rest: Seq<u8>,
    acc: ValueModel,
    next: ValueModel,
)
    requires
        a.len() > 0,
        read_field(fields, a + rest, acc) == Ok::<(ValueModel, int), DecodeError>(
            (next, a.len() as int),
        ),
    ensures
        read_fields(fields, a + rest, acc) == read_fields(fields, rest, next),
{
    assert((a + rest).subrange(a.len() as int, (a + rest).len() as int) =~= rest);
}

/// All the values of field `i`, written in order, read back into it.
proof fn lemma_field_read(
    fields: Seq<Field>,
    acc: ValueModel,
    i: int,
    vals: Seq<ScalarModel>,
    rest: Seq<u8>,
)
    requires
        tags_distinct(fields),
        0 <= i < fields.len(),
        forall|j: int| 0 <= j < vals.len() ==> kind_matches(fields[i].kind, #[trigger] vals[j]),
    ensures
        read_fields(fields, field_bytes(fields[i], vals) + rest, acc) == read_fields(
            fields,
            rest,
            merge_all(fields, acc, i, vals),
        ),
    decreases vals.len(),
{
    if vals.len() == 0 {
        assert(field_bytes(fields[i], vals) + rest =~= rest);
    } else {
        let f = fields[i];
        let last = vals.last();
        let occ = occurrence_bytes(f, last);
        let before = vals.drop_last();
        assert(field_bytes(f, vals) + rest =~= field_bytes(f, before) + (occ + rest));
        lemma_field_read(fields, acc, i, before, occ + rest);
        assert(kind_matches(f.kind, vals[vals.len() - 1]));
        lemma_occurrence_read(fields, merge_all(fields, acc, i, before), i, last, rest);
        lemma_read_fields_prefix(
            fields,
            occ,
            rest,
            merge_all(fields, acc, i, before),
            merge_all(fields, acc, i, vals),
        );
    }
}

/// Reading the values of a field that is still absent, whose oneof set has
/// no other member present, puts exactly those values there.
proof fn lemma_merge_all_fresh(fields: Seq<Field>, acc: ValueModel, i: int, vals: Seq<ScalarModel>)
    requires
        0 <= i < fields.len(),
        acc.len() == fields.len(),
        acc[i].len() == 0,
        fields[i].label != Label::Repeated ==> vals.len() <= 1,
        vals.len() > 0 && fields[i].oneof is Some ==> forall|j: int|
            0 <= j < fields.len() && j != i && (#[trigger] fields[j]).oneof == fields[i].oneof
                ==> acc[j].len() == 0,
    ensures
        merge_all(fields, acc, i, vals) == acc.update(i, vals),
    decreases vals.len(),
{
    if vals.len() == 0 {
        assert(vals =~= acc[i]);
        assert(acc.update(i, vals) =~= acc);
    } else if fields[i].label == Label::Repeated {
        let before = vals.drop_last();
        lemma_merge_all_fresh(fields, acc, i, before);
        assert(before.push(vals.last()) =~= vals);
        assert(acc.update(i, before).update(i, before.push(vals.last())) =~= acc.update(i, vals));
    } else {
        let before = vals.drop_last();
        assert(before.len() == 0);
        assert(merge_all(fields, acc, i, before) == acc);
        assert(seq![vals.last()] =~= vals);
        let m = merge_spec(fields, acc, i, vals.last());
        if fields[i].oneof is Some {
            assert forall|j: int| 0 <= j < acc.len() implies #[trigger] m[j] == acc.update(i, vals)[j] by {
                if j != i && fields[j].oneof == fields[i].oneof {
                    assert(acc[j] =~= Seq::<ScalarModel>::empty());
                }
            }
            assert(m =~= acc.update(i, vals));
        } else {
            assert(m =~= acc.update(i, vals));
        }
    }
}

/// The fields that the first `k` entries of the order list, written in
/// order, read back into an empty message as those fields of `v`.
proof fn lemma_body_read(fields: Seq<Field>, order: Seq<usize>, v: ValueModel, k: int, rest: Seq<u8>)
    requires
        tags_distinct(fields),
        is_tag_order(fields, order),
        value_fits(fields, v),
        fields.len() <= usize::MAX,
        0 <= k <= order.len(),
    ensures
        read_fields(
            fields,
            body_bytes(fields, order.take(k), v) + rest,
            empty_value(fields.len()),
        ) == read_fields(fields, rest, placed(order.take(k), v, fields.len())),
    decreases k,
{
    let n = fields.len();
    if k == 0 {
        assert(body_bytes(fields, order.take(0), v) + rest =~= rest);
        assert(placed(order.take(0), v, n) =~= empty_value(n));
    } else {
        let o = order.take(k);
        let prev = order.take(k - 1);
        assert(o.drop_last() =~= prev);
        let i = order[k - 1] as int;
        let fb = field_bytes(fields[i], v[i]);
        assert(body_bytes(fields, o, v) + rest =~= body_bytes(fields, prev, v) + (fb + rest));
        lemma_body_read(fields, order, v, k - 1, fb + rest);
        let acc = placed(prev, v, n);
        assert forall|j: int| 0 <= j < v[i].len() implies kind_matches(
            fields[i].kind,
            #[trigger] v[i][j],
        ) by {}
        lemma_field_read(fields, acc, i, v[i], rest);
        assert(!prev.contains(i as usize)) by {
            if prev.contains(i as usize) {
                let p = choose|p: int| 0 <= p < prev.len() && prev[p] == i as usize;
                assert(order[p] == order[k - 1]);
            }
        }
        assert(fields[i].label != Label::Repeated ==> v[i].len() <= 1);
        assert forall|j: int|
            0 <= j < n && j != i && (#[trigger] fields[j]).oneof == fields[i].oneof && v[i].len() > 0
                && fields[i].oneof is Some implies acc[j].len() == 0 by {
            assert(v[j].len() == 0);
        }
        lemma_merge_all_fresh(fields, acc, i, v[i]);
        assert forall|j: int| 0 <= j < n implies (#[trigger] o.contains(j as usize) == (prev.contains(
            j as usize,
        ) || j == i)) by {
            if o.contains(j as usize) {
                let p = choose|p: int| 0 <= p < o.len() && o[p] == j as usize;
                if p < k - 1 {
                    assert(prev[p] == j as usize);
                }
            }
            if prev.contains(j as usize) {
                let p = choose|p: int| 0 <= p < prev.len() && prev[p] == j as usize;
                assert(o[p] == j as usize);
            }
            if j == i {
                assert(o[k - 1] == j as usize);
            }
        }
        assert(acc.update(i, v[i]) =~= placed(o, v, n));
    }
}

/// Decoding the encoding of a message value gives the value back: for a
/// well-formed schema and a value that fits it, reading the bytes that
/// encoding writes yields the same value.
pub proof fn lemma_decode_encode(schema: MessageSchema, v: ValueModel)
    requires
        schema.wf(),
        value_fits(schema.fields@, v),
        size_ok(schema, v),
    ensures
        read_message(schema, message_bytes(schema, v)) == Ok::<ValueModel, DecodeError>(v),
{
    let fields = schema.fields@;
    let order = schema.order@;
    let n = fields.len();
    let body = body_bytes(fields, order, v);
    lemma_body_read(fields, order, v, n as int, Seq::empty());
    assert(order.take(n as int) =~= order);
    assert(body + Seq::<u8>::empty() =~= body);
    assert(placed(order, v, n) =~= v) by {
        assert forall|j: int| 0 <= j < n implies #[trigger] order.contains(j as usize) by {
            let ju = j as usize;
            assert(ju < fields.len());
        }
    }
    assert(read_fields(fields, Seq::<u8>::empty(), v) == Ok::<ValueModel, DecodeError>(v));
    assert(required_present(fields, v));
    match schema.prefix {
        None => {},
        Some(p) => {
            let s = message_bytes(schema, v);
            let total = (4 + body.len()) as u64;
            crate::varint::lemma_uvarint_decode_encode(total, p@ + body);
            assert(s =~= uvarint_bytes(total as nat) + (p@ + body));
            let m = uvarint_bytes(total as nat).len() as int;
            assert(s.subrange(m + 4, s.len() as int) =~= body);
            assert(message_body(schema, s) == Ok::<Seq<u8>, DecodeError>(body));
        },
    }
}

proof fn lemma_scalar_len(s: ScalarModel)
    ensures
        scalar_len(s) == scalar_bytes(s).len(),
{
    match s {
        ScalarModel::Fixed32(v) => crate::fixed::lemma_be_round_trip(bits_of_i32(v as int), 4),
        ScalarModel::Fixed64(v) => crate::fixed::lemma_be_round_trip(bits_of_i64(v as int), 8),
        _ => {},
    }
}

proof fn lemma_field_len(f: Field, vals: Seq<ScalarModel>)
    ensures
        field_len(f, vals) == field_bytes(f, vals).len(),
    decreases vals.len(),
{
    if vals.len() > 0 {
        lemma_field_len(f, vals.drop_last());
        lemma_scalar_len(vals.last());
    }
}

proof fn lemma_body_len(fields: Seq<Field>, order: Seq<usize>, v: ValueModel)
    ensures
        body_len(fields, order, v) == body_bytes(fields, order, v).len(),
    decreases order.len(),
{
    if order.len() > 0 {
        lemma_body_len(fields, order.drop_last(), v);
        lemma_field_len(fields[order.last() as int], v[order.last() as int]);
    }
}

/// The encoded length reckoned from the sizes of a message's parts is the
/// number of bytes its encoding takes, for every value.
pub proof fn lemma_encoded_len(schema: MessageSchema, v: ValueModel)
    requires
        schema.wf(),
    ensures
        message_len(schema, v) == message_bytes(schema, v).len(),
{
    lemma_body_len(schema.fields@, schema.order@, v);
}

/// The bytes of a field with tag `tag` and kind `kind` that holds `s`.
pub open spec fn tagged_bytes(tag: u32, kind: WireKind, s: ScalarModel) -> Seq<u8> {
    field_key_bytes(tag, wire_type_of(kind)) + scalar_bytes(s)
}

/// A field whose tag the schema does not know is skipped whole.
proof fn lemma_unknown_read(
    fields: Seq<Field>,
    acc: ValueModel,
    tag: u32,
    kind: WireKind,
    s: ScalarModel,
    rest: Seq<u8>,
)
    requires
        tag_index(fields, tag) is None,
        kind_matches(kind, s),
    ensures
        read_field(fields, tagged_bytes(tag, kind, s) + rest, acc) == Ok::<
            (ValueModel, int),
            DecodeError,
        >((acc, tagged_bytes(tag, kind, s).len() as int)),
        tagged_bytes(tag, kind, s).len() > 0,
{
    reveal(read_field);
    let typ = wire_type_of(kind);
    let k = field_key_bytes(tag, typ);
    let all = tagged_bytes(tag, kind, s) + rest;
    crate::key::lemma_field_key_round_trip(tag, typ);
    assert(all =~= k + (scalar_bytes(s) + rest));
    assert(read_key(all) == read_key(k + (scalar_bytes(s) + rest)));
    assert(all.subrange(k.len() as int, all.len() as int) =~= scalar_bytes(s) + rest);
    lemma_uvarint_nonempty(crate::key::field_key(tag, typ) as nat);
    match s {
        ScalarModel::Varint(v) => {
            assert(zigzag(v as int) <= u64::MAX);
            crate::varint::lemma_uvarint_decode_encode(zigzag(v as int) as u64, rest);
        },
        ScalarModel::Fixed32(v) => {
            crate::fixed::lemma_be_round_trip(bits_of_i32(v as int), 4);
        },
        ScalarModel::Fixed64(v) => {
            crate::fixed::lemma_be_round_trip(bits_of_i64(v as int), 8);
        },
        ScalarModel::Bytes(b) => {
            crate::amino_bytes::lemma_delimited_round_trip(b, rest);
        },
    }
    assert(skip_len(typ, scalar_bytes(s) + rest) == Ok::<int, DecodeError>(scalar_bytes(s).len() as int));
}

/// Unknown fields are tolerated: a field whose tag the schema does not know,
/// following the encoding of a message value, is skipped, and decoding
/// yields the value alone.
pub proof fn lemma_unknown_field_skipped(
    schema: MessageSchema,
    v: ValueModel,
    tag: u32,
    kind: WireKind,
    s: ScalarModel,
)
    requires
        schema.wf(),
        value_fits(schema.fields@, v),
        size_ok(schema, v),
        tag_index(schema.fields@, tag) is None,
        kind_matches(kind, s),
    ensures
        read_message(schema, message_bytes(schema, v) + tagged_bytes(tag, kind, s)) == Ok::<
            ValueModel,
            DecodeError,
        >(v),
{
    let fields = schema.fields@;
    let order = schema.order@;
    let n = fields.len();
    let body = body_bytes(fields, order, v);
    let extra = tagged_bytes(tag, kind, s);
    lemma_body_read(fields, order, v, n as int, extra);
    assert(order.take(n as int) =~= order);
    assert(placed(order, v, n) =~= v) by {
        assert forall|j: int| 0 <= j < n implies #[trigger] order.contains(j as usize) by {
            let ju = j as usize;
            assert(ju < fields.len());
        }
    }
    lemma_unknown_read(fields, v, tag, kind, s, Seq::empty());
    assert(extra + Seq::<u8>::empty() =~= extra);
    lemma_read_fields_prefix(fields, extra, Seq::empty(), v, v);
    assert(read_fields(fields, Seq::<u8>::empty(), v) == Ok::<ValueModel, DecodeError>(v));
    assert(required_present(fields, v));
    let all = message_bytes(schema, v) + extra;
    match schema.prefix {
        None => {
            assert(message_body(schema, all) == Ok::<Seq<u8>, DecodeError>(body + extra));
        },
        Some(p) => {
            let total = (4 + body.len()) as u64;
            crate::varint::lemma_uvarint_decode_encode(total, p@ + body + extra);
            assert(all =~= uvarint_bytes(total as nat) + (p@ + body + extra));
            let m = uvarint_bytes(total as nat).len() as int;
            assert(all.subrange(m + 4, all.len() as int) =~= body + extra);
            assert(message_body(schema, all) == Ok::<Seq<u8>, DecodeError>(body + extra));
        },
    }
}

/// The values of a message in the order the encoding writes them, each
/// with the index of its field.
pub open spec fn emitted(fields: Seq<Field>, order: Seq<usize>, v: ValueModel) -> Seq<(int, ScalarModel)>
    decreases order.len(),
{
    if order.len() == 0 {
        Seq::empty()
    } else {
        let i = order.last() as int;
        emitted(fields, order.drop_last(), v) + Seq::new(v[i].len(), |j: int| (i, v[i][j]))
    }
}

/// The bytes of values written one after another, each with its field's key.
pub open spec fn occurrences_bytes(fields: Seq<Field>, e: Seq<(int, ScalarModel)>) -> Seq<u8>
    decreases e.len(),
{
    if e.len() == 0 {
        Seq::empty()
    } else {
        occurrences_bytes(fields, e.drop_last()) + occurrence_bytes(fields[e.last().0], e.last().1)
    }
}

proof fn lemma_occurrences_concat(fields: Seq<Field>, a: Seq<(int, ScalarModel)>, b: Seq<(int, ScalarModel)>)
    ensures
        occurrences_bytes(fields, a + b) == occurrences_bytes(fields, a) + occurrences_bytes(fields, b),
    decreases b.len(),
{
    if b.len() == 0 {
        assert(a + b =~= a);
        assert(occurrences_bytes(fields, a) + Seq::<u8>::empty() =~= occurrences_bytes(fields, a));
    } else {
        lemma_occurrences_concat(fields, a, b.drop_last());
        assert((a + b).drop_last() =~= a + b.drop_last());
        assert(occurrences_bytes(fields, a + b) =~= occurrences_bytes(fields, a) + occurrences_bytes(
            fields,
            b,
        ));
    }
}

proof fn lemma_field_as_occurrences(fields: Seq<Field>, i: int, vals: Seq<ScalarModel>)
    ensures
        field_bytes(fields[i], vals) == occurrences_bytes(
            fields,
            Seq::new(vals.len(), |j: int| (i, vals[j])),
        ),
    decreases vals.len(),
{
    let e = Seq::new(vals.len(), |j: int| (i, vals[j]));
    if vals.len() > 0 {
        lemma_field_as_occurrences(fields, i, vals.drop_last());
        assert(e.drop_last() =~= Seq::new(vals.drop_last().len(), |j: int| (i, vals.drop_last()[j])));
    } else {
        assert(e =~= Seq::<(int, ScalarModel)>::empty());
    }
}

/// Along an order of fields by strictly ascending tag, the values come out
/// with tags that never decrease, and strictly increase between fields.
proof fn lemma_emitted_order(fields: Seq<Field>, order: Seq<usize>, v: ValueModel)
    requires
        v.len() == fields.len(),
        forall|k: int| 0 <= k < order.len() ==> order[k] < fields.len(),
        forall|k1: int, k2: int|
            0 <= k1 < k2 < order.len() ==> fields[order[k1] as int].tag < fields[order[k2] as int].tag,
    ensures
        body_bytes(fields, order, v) == occurrences_bytes(fields, emitted(fields, order, v)),
        forall|a: int, b: int|
            0 <= a < b < emitted(fields, order, v).len() ==> fields[emitted(fields, order, v)[a].0].tag
                <= fields[emitted(fields, order, v)[b].0].tag,
        forall|a: int, b: int|
            0 <= a < b < emitted(fields, order, v).len() && emitted(fields, order, v)[a].0
                != emitted(fields, order, v)[b].0 ==> fields[emitted(fields, order, v)[a].0].tag
                < fields[emitted(fields, order, v)[b].0].tag,
        forall|a: int|
            0 <= a < emitted(fields, order, v).len() ==> exists|k: int|
                0 <= k < order.len() && order[k] as int == #[trigger] emitted(fields, order, v)[a].0,
    decreases order.len(),
{
    if order.len() > 0 {
        let prev = order.drop_last();
        let i = order.last() as int;
        lemma_emitted_order(fields, prev, v);
        let ep = emitted(fields, prev, v);
        let en = Seq::new(v[i].len(), |j: int| (i, v[i][j]));
        let e = emitted(fields, order, v);
        assert(e == ep + en);
        lemma_occurrences_concat(fields, ep, en);
        lemma_field_as_occurrences(fields, i, v[i]);
        assert forall|a: int| 0 <= a < e.len() implies exists|k: int|
            0 <= k < order.len() && order[k] as int == #[trigger] e[a].0 by {
            if a < ep.len() {
                let k = choose|k: int| 0 <= k < prev.len() && prev[k] as int == ep[a].0;
                assert(order[k] == prev[k]);
            } else {
                assert(order[order.len() - 1] as int == e[a].0);
            }
        }
        assert forall|a: int, b: int| 0 <= a < b < e.len() && e[a].0 != e[b].0 implies fields[e[a].0].tag
            < fields[e[b].0].tag by {
            if b >= ep.len() && a < ep.len() {
                let k = choose|k: int| 0 <= k < prev.len() && prev[k] as int == ep[a].0;
                assert(order[k] == prev[k]);
                assert(e[b].0 == i);
            }
        }
        assert forall|a: int, b: int| 0 <= a < b < e.len() implies fields[e[a].0].tag
            <= fields[e[b].0].tag by {
            if b >= ep.len() && a < ep.len() {
                let k = choose|k: int| 0 <= k < prev.len() && prev[k] as int == ep[a].0;
                assert(order[k] == prev[k]);
                assert(e[b].0 == i);
            }
        }
    }
}

/// Encoding writes field keys in tag order, whatever the order in which the
/// fields were declared: the body is the values in [`emitted`] order, each
/// after its field's key, and along that order tags never decrease and
/// strictly increase from one field to the next. So where no field holds
/// more than one value, the keys come in strictly ascending tag order.
pub proof fn lemma_keys_in_tag_order(schema: MessageSchema, v: ValueModel)
    requires
        schema.wf(),
        v.len() == schema.fields@.len(),
    ensures
        ({
            let fields = schema.fields@;
            let e = emitted(fields, schema.order@, v);
            &&& body_bytes(fields, schema.order@, v) == occurrences_bytes(fields, e)
            &&& forall|a: int, b: int|
                0 <= a < b < e.len() ==> fields[e[a].0].tag <= fields[e[b].0].tag
            &&& forall|a: int, b: int|
                0 <= a < b < e.len() && e[a].0 != e[b].0 ==> fields[e[a].0].tag < fields[e[b].0].tag
        }),
{
    lemma_emitted_order(schema.fields@, schema.order@, v);
}

/// The default value of a message type fits its schema, so it encodes and
/// decodes back unchanged: a required nested message holds the empty
/// encoding, and no required field outside a oneof is missing.
pub proof fn lemma_default_round_trip(schema: MessageSchema)
    requires
        schema.wf(),
        size_ok(schema, default_value(schema.fields@)),
    ensures
        value_fits(schema.fields@, default_value(schema.fields@)),
        read_message(schema, message_bytes(schema, default_value(schema.fields@))) == Ok::<
            ValueModel,
            DecodeError,
        >(default_value(schema.fields@)),
{
    let fields = schema.fields@;
    let v = default_value(fields);
    assert forall|i: int, j: int| 0 <= i < v.len() && 0 <= j < v[i].len() implies kind_matches(
        fields[i].kind,
        #[trigger] v[i][j],
    ) by {
        assert(v[i] == field_default(fields[i]));
    }
    lemma_decode_encode(schema, v);
}

} // verus!
