use vstd::prelude::*;
use crate::disfix::{raw_prefix_of, registered_prefix, sha256_of};
use crate::key::Typ3Byte;

verus! {

/// How many values a field holds.
#[derive(Debug, Clone, Copy, PartialEq, Eq, Structural)]
pub enum Label {
    /// At most one value.
    Optional,
    /// Exactly one value; decoding fails where it is missing.
    Required,
    /// Any number of values, each written under the field's tag.
    Repeated,
}

/// Which codec handles a field's bytes.
#[derive(Debug, Clone, Copy, PartialEq, Eq, Structural)]
pub enum WireKind {
    /// A zig-zag varint.
    Varint,
    /// Four big-endian bytes.
    Fixed32,
    /// Eight big-endian bytes.
    Fixed64,
    /// A length-delimited byte string.
    LengthDelimited,
    /// A length-delimited nested message; values met twice are merged.
    Message,
}

/// The wire type that a field key carries for a field of this kind.
pub open spec fn wire_type_of(kind: WireKind) -> Typ3Byte {
    match kind {
        WireKind::Varint => Typ3Byte::Typ3_Varint,
        WireKind::Fixed32 => Typ3Byte::Typ3_4Byte,
        WireKind::Fixed64 => Typ3Byte::Typ3_8Byte,
        WireKind::LengthDelimited => Typ3Byte::Typ3_ByteLength,
        WireKind::Message => Typ3Byte::Typ3_ByteLength,
    }
}

/// The wire type that a field key carries for a field of this kind.
pub fn wire_type(kind: WireKind) -> (r: Typ3Byte)
    ensures
        r == wire_type_of(kind),
{
    match kind {
        WireKind::Varint => Typ3Byte::Typ3_Varint,
        WireKind::Fixed32 => Typ3Byte::Typ3_4Byte,
        WireKind::Fixed64 => Typ3Byte::Typ3_8Byte,
        WireKind::LengthDelimited => Typ3Byte::Typ3_ByteLength,
        WireKind::Message => Typ3Byte::Typ3_ByteLength,
    }
}

/// Why a field or a message schema could not be built.
#[derive(Debug, Clone, Copy, PartialEq, Eq, Structural)]
pub enum SchemaError {
    /// Two fields of one message share a tag.
    DuplicateTag,
    /// An attribute is given twice for one field.
    DuplicateAttribute,
    /// A field carries an attribute that means nothing for it.
    UnknownAttribute,
    /// A field has no tag and none can be inferred.
    MissingTag,
    /// A member of a oneof carries a label, or is not labelled `Required`.
    InvalidOneof,
    /// A registration prefix that is not four bytes long.
    InvalidPrefix,
}

/// The description of one field of a message: its tag, label and kind, the
/// oneof it belongs to, if any, the index of the message type it holds
/// among a set of schemas, if it is known, and the registration prefix of
/// that type, empty where the type is not registered.
///
/// A oneof is a tagged union: each of its cases is one `Field` with its own
/// tag and kind, all with the same `oneof` group and labelled `Required`.
/// A message value holds a value for the chosen case and none for the
/// others; reading any case replaces whichever case was chosen before.
///
/// `amino_prefix` is kept as the type's registration names it; no codec
/// function writes or reads it: a registered message carries its prefix
/// in its own encoding.
#[derive(Debug, Clone)]
pub struct Field {
    pub label: Label,
    pub tag: u32,
    pub kind: WireKind,
    pub oneof: Option<u32>,
    pub message_type: Option<usize>,
    pub amino_prefix: Vec<u8>,
}

/// One attribute of a field as written where the field is declared.
#[derive(Debug, Clone)]
pub enum FieldAttr {
    /// The kind of the field, such as `message`.
    Kind(WireKind),
    /// The field is stored behind a pointer.
    Boxed,
    /// The field's tag.
    Tag(u32),
    /// The field's label.
    Label(Label),
    /// The name that the field's type is registered under.
    AminoName(String),
    /// Any other attribute, by name.
    Unknown(String),
}

/// What the attributes of a field say, gathered.
pub struct AttrScan {
    pub kind: Option<WireKind>,
    pub boxed: bool,
    pub tag: Option<u32>,
    pub label: Option<Label>,
    pub name: Option<Seq<char>>,
    pub unknown: nat,
}

/// Adds one attribute to what is gathered; an attribute given twice is an
/// error.
pub open spec fn scan_one(st: AttrScan, a: FieldAttr) -> Result<AttrScan, SchemaError> {
    match a {
        FieldAttr::Kind(k) => if st.kind is Some {
            Err(SchemaError::DuplicateAttribute)
        } else {
            Ok(AttrScan { kind: Some(k), ..st })
        },
        FieldAttr::Boxed => if st.boxed {
            Err(SchemaError::DuplicateAttribute)
        } else {
            Ok(AttrScan { boxed: true, ..st })
        },
        FieldAttr::Tag(t) => if st.tag is Some {
            Err(SchemaError::DuplicateAttribute)
        } else {
            Ok(AttrScan { tag: Some(t), ..st })
        },
        FieldAttr::Label(l) => if st.label is Some {
            Err(SchemaError::DuplicateAttribute)
        } else {
            Ok(AttrScan { label: Some(l), ..st })
        },
        FieldAttr::AminoName(n) => if st.name is Some {
            Err(SchemaError::DuplicateAttribute)
        } else {
            Ok(AttrScan { name: Some(n@), ..st })
        },
        FieldAttr::Unknown(_) => Ok(AttrScan { unknown: st.unknown + 1, ..st }),
    }
}

/// Gathers the attributes in order, stopping at the first one given twice.
pub open spec fn scan_attrs(attrs: Seq<FieldAttr>) -> Result<AttrScan, SchemaError>
    decreases attrs.len(),
{
    if attrs.len() == 0 {
        Ok(AttrScan { kind: None, boxed: false, tag: None, label: None, name: None, unknown: 0 })
    } else {
        match scan_attrs(attrs.drop_last()) {
            Err(e) => Err(e),
            Ok(st) => scan_one(st, attrs.last()),
        }
    }
}

/// The registration prefix of the type registered under `name`.
pub open spec fn prefix_of_name(name: Seq<char>) -> Seq<u8> {
    raw_prefix_of(sha256_of(vstd::utf8::encode_utf8(name)))
}

/// `f` is the field that the gathered attributes describe.
pub open spec fn field_from_scan(f: Field, st: AttrScan, inferred_tag: Option<u32>) -> bool {
    &&& st.kind == Some(f.kind)
    &&& f.tag == (if st.tag is Some { st.tag->Some_0 } else { inferred_tag->Some_0 })
    &&& f.label == (if st.label is Some { st.label->Some_0 } else { Label::Optional })
    &&& f.oneof is None
    &&& f.message_type is None
    &&& f.amino_prefix@ == (if st.name is Some { prefix_of_name(st.name->Some_0) } else { Seq::empty() })
}

/// What [`Field::new`] gives for the attributes `attrs`: `None` for a
/// field without a kind, else the field, or the first error.
pub open spec fn field_spec(
    attrs: Seq<FieldAttr>,
    inferred_tag: Option<u32>,
    r: Result<Option<Field>, SchemaError>,
) -> bool {
    match scan_attrs(attrs) {
        Err(e) => r == Err::<Option<Field>, SchemaError>(e),
        Ok(st) => if st.kind is None {
            r == Ok::<Option<Field>, SchemaError>(None)
        } else if st.unknown > 0 {
            r == Err::<Option<Field>, SchemaError>(SchemaError::UnknownAttribute)
        } else if st.tag is None && inferred_tag is None {
            r == Err::<Option<Field>, SchemaError>(SchemaError::MissingTag)
        } else {
            r is Ok && r->Ok_0 is Some && field_from_scan(r->Ok_0->Some_0, st, inferred_tag)
        },
    }
}

impl Field {
    /// Builds a field from its attributes; `inferred_tag` is the tag it
    /// takes where none is given.
    ///
    /// Gives `None` where no attribute names the field's kind. Fails with
    /// `DuplicateAttribute` at the first attribute given twice, then with
    /// `UnknownAttribute` where an attribute means nothing here, then with
    /// `MissingTag`. The label is `Optional` unless one is given.
    pub fn new(attrs: &[FieldAttr], inferred_tag: Option<u32>) -> (r: Result<
        Option<Field>,
        SchemaError,
    >)
        ensures
            field_spec(attrs@, inferred_tag, r),
    {
        let mut kind: Option<WireKind> = None;
        let mut boxed = false;
        let mut tag: Option<u32> = None;
        let mut label: Option<Label> = None;
        let mut amino_name: Option<&String> = None;
        let mut unknown: usize = 0;
        let mut i: usize = 0;
        while i < attrs.len()
            invariant
                i <= attrs@.len(),
                unknown <= i,
                scan_attrs(attrs@.subrange(0, i as int)) == Ok::<AttrScan, SchemaError>(
                    AttrScan {
                        kind,
                        boxed,
                        tag,
                        label,
                        name: match amino_name {
                            Some(n) => Some(n@),
                            None => None,
                        },
                        unknown: unknown as nat,
                    },
                ),
            decreases attrs@.len() - i,
        {
            assert(attrs@.subrange(0, i + 1).drop_last() =~= attrs@.subrange(0, i as int));
            match &attrs[i] {
                FieldAttr::Kind(k) => {
                    if kind.is_some() {
                        proof {
                            lemma_scan_error_sticks(attrs@, i as int + 1);
                        }
                        return Err(SchemaError::DuplicateAttribute);
                    }
                    kind = Some(*k);
                },
                FieldAttr::Boxed => {
                    if boxed {
                        proof {
                            lemma_scan_error_sticks(attrs@, i as int + 1);
                        }
                        return Err(SchemaError::DuplicateAttribute);
                    }
                    boxed = true;
                },
                FieldAttr::Tag(t) => {
                    if tag.is_some() {
                        proof {
                            lemma_scan_error_sticks(attrs@, i as int + 1);
                        }
                        return Err(SchemaError::DuplicateAttribute);
                    }
                    tag = Some(*t);
                },
                FieldAttr::Label(l) => {
                    if label.is_some() {
                        proof {
                            lemma_scan_error_sticks(attrs@, i as int + 1);
                        }
                        return Err(SchemaError::DuplicateAttribute);
                    }
                    label = Some(*l);
                },
                FieldAttr::AminoName(n) => {
                    if amino_name.is_some() {
                        proof {
                            lemma_scan_error_sticks(attrs@, i as int + 1);
                        }
                        return Err(SchemaError::DuplicateAttribute);
                    }
                    amino_name = Some(n);
                },
                FieldAttr::Unknown(_) => {
                    unknown = unknown + 1;
                },
            }
            i = i + 1;
        }
        assert(attrs@.subrange(0, i as int) =~= attrs@);
        let kind = match kind {
            Some(k) => k,
            None => return Ok(None),
        };
        if unknown > 0 {
            return Err(SchemaError::UnknownAttribute);
        }
        let tag = match tag {
            Some(t) => t,
            None => match inferred_tag {
                Some(t) => t,
                None => return Err(SchemaError::MissingTag),
            },
        };
        let amino_prefix: Vec<u8> = match amino_name {
            Some(n) => registered_prefix(n.as_str()),
            None => Vec::new(),
        };
        let label = match label {
            Some(l) => l,
            None => Label::Optional,
        };
        Ok(Some(Field { label, tag, kind, oneof: None, message_type: None, amino_prefix }))
    }

    /// Builds a member of the oneof `group` from its attributes, as
    /// [`Field::new`] does without an inferred tag. A member is one case of
    /// the oneof's tagged union: it may not carry a label attribute, and is
    /// labelled `Required`, for the chosen case always holds a value.
    pub fn new_oneof(attrs: &[FieldAttr], group: u32) -> (r: Result<Option<Field>, SchemaError>)
        ensures
            match scan_attrs(attrs@) {
                Ok(st) if st.kind is Some && st.unknown == 0 && st.tag is Some => if st.label is Some {
                    r == Err::<Option<Field>, SchemaError>(SchemaError::InvalidOneof)
                } else {
                    &&& r is Ok && r->Ok_0 is Some
                    &&& field_from_scan(
                        Field { oneof: None, label: Label::Optional, ..r->Ok_0->Some_0 },
                        st,
                        None,
                    )
                    &&& r->Ok_0->Some_0.label == Label::Required
                    &&& r->Ok_0->Some_0.oneof == Some(group)
                },
                _ => field_spec(attrs@, None, r),
            },
    {
        let first = Field::new(attrs, None);
        let field_or_none = first?;
        match field_or_none {
            Some(field) => {
                assert(scan_attrs(attrs@) is Ok);
                let mut i: usize = 0;
                while i < attrs.len()
                    invariant
                        i <= attrs@.len(),
                        forall|j: int| 0 <= j < i ==> !(attrs@[j] is Label),
                        scan_attrs(attrs@) is Ok,
                        scan_attrs(attrs@)->Ok_0.kind is Some,
                        scan_attrs(attrs@)->Ok_0.unknown == 0,
                        scan_attrs(attrs@)->Ok_0.tag is Some,
                    decreases attrs@.len() - i,
                {
                    if let FieldAttr::Label(_) = &attrs[i] {
                        proof {
                            lemma_scan_label(attrs@, i as int);
                        }
                        return Err(SchemaError::InvalidOneof);
                    }
                    i = i + 1;
                }
                proof {
                    lemma_scan_no_label(attrs@);
                }
                Ok(Some(Field { label: Label::Required, oneof: Some(group), ..field }))
            },
            None => Ok(None),
        }
    }
}

/// The tag that the next field takes where it names none: zero at first,
/// then one past the tag of the last field built; none past the largest tag.
pub open spec fn next_tag_of(fs: Seq<Field>) -> Option<u32> {
    if fs.len() == 0 {
        Some(0)
    } else if fs.last().tag < u32::MAX {
        Some((fs.last().tag + 1) as u32)
    } else {
        None
    }
}

/// `fs` are the fields that the attribute lists `decls` give, in order:
/// each list is read by [`Field::new`] with the tag after the last field
/// built as its inferred tag, and lists that name no kind give no field.
pub open spec fn inferred_fields(decls: Seq<Seq<FieldAttr>>, fs: Seq<Field>) -> bool
    decreases decls.len(),
{
    if decls.len() == 0 {
        fs.len() == 0
    } else {
        ||| (inferred_fields(decls.drop_last(), fs) && field_spec(
            decls.last(),
            next_tag_of(fs),
            Ok(None),
        ))
        ||| (fs.len() > 0 && inferred_fields(decls.drop_last(), fs.drop_last()) && field_spec(
            decls.last(),
            next_tag_of(fs.drop_last()),
            Ok(Some(fs.last())),
        ))
    }
}

/// The attribute lists as sequences.
pub open spec fn decls_view(decls: Seq<Vec<FieldAttr>>) -> Seq<Seq<FieldAttr>> {
    Seq::new(decls.len(), |k: int| decls[k]@)
}

/// Builds the fields of a message from the attribute lists of its
/// declared fields, in declaration order. A field that names no tag takes
/// the one after the previous field's tag (zero for the first); a list that
/// names no kind gives no field.
///
/// Fails with the error of the first list that [`Field::new`] rejects.
pub fn fields_from_attrs(decls: &[Vec<FieldAttr>]) -> (r: Result<Vec<Field>, SchemaError>)
    ensures
        match r {
            Ok(fs) => inferred_fields(decls_view(decls@), fs@),
            Err(e) => exists|k: int, fs: Seq<Field>|
                0 <= k < decls@.len() && inferred_fields(decls_view(decls@).take(k), fs) && field_spec(
                    decls@[k]@,
                    next_tag_of(fs),
                    Err(e),
                ),
        },
{
    let ghost ds = decls_view(decls@);
    let mut out: Vec<Field> = Vec::new();
    let mut next: Option<u32> = Some(0);
    let mut i: usize = 0;
    assert(ds.take(0) =~= Seq::<Seq<FieldAttr>>::empty());
    while i < decls.len()
        invariant
            i <= decls@.len(),
            ds == decls_view(decls@),
            inferred_fields(ds.take(i as int), out@),
            next == next_tag_of(out@),
        decreases decls@.len() - i,
    {
        assert(ds.take(i + 1).drop_last() =~= ds.take(i as int));
        assert(ds.take(i + 1).last() == decls@[i as int]@);
        let ghost before = out@;
        let r = Field::new(decls[i].as_slice(), next);
        match r {
            Err(e) => {
                return Err(e);
            },
            Ok(None) => {},
            Ok(Some(f)) => {
                next = if f.tag < u32::MAX {
                    Some(f.tag + 1)
                } else {
                    None
                };
                out.push(f);
                assert(out@.drop_last() =~= before);
            },
        }
        i = i + 1;
    }
    assert(ds.take(i as int) =~= ds);
    Ok(out)
}

/// Once gathering fails it stays failed, and a failure at `n` attributes
/// is the failure of the whole list where the list fails from there.
proof fn lemma_scan_error_sticks(attrs: Seq<FieldAttr>, n: int)
    requires
        0 < n <= attrs.len(),
        scan_attrs(attrs.subrange(0, n)) is Err,
    ensures
        scan_attrs(attrs) == scan_attrs(attrs.subrange(0, n)),
    decreases attrs.len() - n,
{
    if n < attrs.len() {
        assert(attrs.subrange(0, n + 1).drop_last() =~= attrs.subrange(0, n));
        lemma_scan_error_sticks(attrs, n + 1);
    } else {
        assert(attrs.subrange(0, n) =~= attrs);
    }
}

/// Where gathering succeeds, a label attribute at `i` leaves a label in
/// what is gathered.
proof fn lemma_scan_label(attrs: Seq<FieldAttr>, i: int)
    requires
        0 <= i < attrs.len(),
        attrs[i] is Label,
        scan_attrs(attrs) is Ok,
    ensures
        scan_attrs(attrs)->Ok_0.label is Some,
    decreases attrs.len(),
{
    if i < attrs.len() - 1 {
        lemma_scan_label(attrs.drop_last(), i);
    }
}

/// Without label attributes, gathering leaves no label.
proof fn lemma_scan_no_label(attrs: Seq<FieldAttr>)
    requires
        forall|j: int| 0 <= j < attrs.len() ==> !(attrs[j] is Label),
        scan_attrs(attrs) is Ok,
    ensures
        scan_attrs(attrs)->Ok_0.label is None,
    decreases attrs.len(),
{
    if attrs.len() > 0 {
        lemma_scan_no_label(attrs.drop_last());
    }
}

/// No two fields share a tag.
pub open spec fn tags_distinct(fields: Seq<Field>) -> bool {
    forall|i: int, j: int|
        0 <= i < fields.len() && 0 <= j < fields.len() && i != j ==> fields[i].tag != fields[j].tag
}

/// Every member of a oneof is labelled `Required`: it is one case of a
/// tagged union, present whenever that case is the chosen one.
pub open spec fn oneofs_required(fields: Seq<Field>) -> bool {
    forall|i: int| 0 <= i < fields.len() && (#[trigger] fields[i]).oneof is Some ==> fields[i].label
        == Label::Required
}

/// `order` lists every index of `fields` once, by ascending tag.
pub open spec fn is_tag_order(fields: Seq<Field>, order: Seq<usize>) -> bool {
    &&& order.len() == fields.len()
    &&& forall|k: int| 0 <= k < order.len() ==> order[k] < fields.len()
    &&& forall|k1: int, k2: int|
        0 <= k1 < k2 < order.len() ==> fields[order[k1] as int].tag < fields[order[k2] as int].tag
    &&& forall|i: usize| i < fields.len() ==> #[trigger] order.contains(i)
}

/// The fields of a message type in declaration order, the order in which
/// they are encoded (ascending tag), and the four-byte prefix of a
/// registered type.
pub struct MessageSchema {
    pub fields: Vec<Field>,
    pub order: Vec<usize>,
    pub prefix: Option<Vec<u8>>,
}

impl MessageSchema {
    /// Tags are unique, oneof members labelled `Required`, the encoding order sorts
    /// the fields by tag, and a prefix is four bytes long.
    pub open spec fn wf(&self) -> bool {
        &&& self.fields@.len() <= usize::MAX
        &&& tags_distinct(self.fields@)
        &&& oneofs_required(self.fields@)
        &&& is_tag_order(self.fields@, self.order@)
        &&& (self.prefix is Some ==> self.prefix->Some_0@.len() == 4)
    }

    /// Builds the schema of a message type from its fields in declaration
    /// order, and from the prefix of a registered type.
    ///
    /// Fails with `DuplicateTag` where two fields share a tag, else with
    /// `InvalidOneof` where a oneof member is not labelled `Required`, else with
    /// `InvalidPrefix` where the prefix is not four bytes long.
    pub fn new(fields: Vec<Field>, prefix: Option<Vec<u8>>) -> (r: Result<MessageSchema, SchemaError>)
        ensures
            match r {
                Ok(s) => {
                    &&& s.wf()
                    &&& s.fields@ == fields@
                    &&& s.prefix == prefix
                },
                Err(e) => {
                    ||| (e == SchemaError::DuplicateTag && !tags_distinct(fields@))
                    ||| (e == SchemaError::InvalidOneof && tags_distinct(fields@) && !oneofs_required(
                        fields@,
                    ))
                    ||| (e == SchemaError::InvalidPrefix && tags_distinct(fields@) && oneofs_required(
                        fields@,
                    ) && prefix is Some && prefix->Some_0@.len() != 4)
                },
            },
    {
        let _count = fields.len();
        if !check_distinct_tags(&fields) {
            return Err(SchemaError::DuplicateTag);
        }
        let mut i: usize = 0;
        while i < fields.len()
            invariant
                i <= fields@.len(),
                tags_distinct(fields@),
                forall|j: int| 0 <= j < i && (#[trigger] fields@[j]).oneof is Some ==> fields@[j].label
                    == Label::Required,
            decreases fields@.len() - i,
        {
            if fields[i].oneof.is_some() && fields[i].label != Label::Required {
                assert(fields@[i as int].oneof is Some);
                assert(!oneofs_required(fields@));
                return Err(SchemaError::InvalidOneof);
            }
            i = i + 1;
        }
        match &prefix {
            Some(p) => if p.len() != 4 {
                return Err(SchemaError::InvalidPrefix);
            },
            None => {},
        }
        let order = tag_order(&fields);
        Ok(MessageSchema { fields, order, prefix })
    }

    /// Builds the schema of a message type registered under `name`: its
    /// prefix is the one the name gives.
    ///
    /// Fails as [`MessageSchema::new`] does.
    pub fn registered(fields: Vec<Field>, name: &str) -> (r: Result<MessageSchema, SchemaError>)
        ensures
            match r {
                Ok(s) => {
                    &&& s.wf()
                    &&& s.fields@ == fields@
                    &&& s.prefix is Some
                    &&& s.prefix->Some_0@ == prefix_of_name(name@)
                },
                Err(e) => {
                    ||| (e == SchemaError::DuplicateTag && !tags_distinct(fields@))
                    ||| (e == SchemaError::InvalidOneof && tags_distinct(fields@) && !oneofs_required(
                        fields@,
                    ))
                    ||| (e == SchemaError::InvalidPrefix && tags_distinct(fields@) && oneofs_required(
                        fields@,
                    ) && prefix_of_name(name@).len() != 4)
                },
            },
    {
        let prefix = registered_prefix(name);
        MessageSchema::new(fields, Some(prefix))
    }

    /// Whether the type is registered, so that its encoding carries a
    /// length and a prefix.
    pub fn is_registered(&self) -> (r: bool)
        ensures
            r == self.prefix is Some,
    {
        self.prefix.is_some()
    }
}

/// Whether no two fields share a tag.
fn check_distinct_tags(fields: &Vec<Field>) -> (r: bool)
    ensures
        r == tags_distinct(fields@),
{
    let n = fields.len();
    let mut i: usize = 0;
    while i < n
        invariant
            i <= n == fields@.len(),
            forall|a: int, b: int|
                0 <= a < i && 0 <= b < n && a != b ==> fields@[a].tag != fields@[b].tag,
        decreases n - i,
    {
        let mut j: usize = 0;
        while j < n
            invariant
                i < n == fields@.len(),
                j <= n,
                forall|a: int, b: int|
                    0 <= a < i && 0 <= b < n && a != b ==> fields@[a].tag != fields@[b].tag,
                forall|b: int| 0 <= b < j && i != b ==> fields@[i as int].tag != fields@[b].tag,
            decreases n - j,
        {
            if i != j && fields[i].tag == fields[j].tag {
                return false;
            }
            j = j + 1;
        }
        i = i + 1;
    }
    true
}

/// The indices of `fields` by ascending tag.
fn tag_order(fields: &Vec<Field>) -> (order: Vec<usize>)
    requires
        tags_distinct(fields@),
    ensures
        is_tag_order(fields@, order@),
{
    let n = fields.len();
    let mut order: Vec<usize> = Vec::new();
    let mut i: usize = 0;
    while i < n
        invariant
            i <= n == fields@.len(),
            tags_distinct(fields@),
            order@.len() == i,
            forall|k: int| 0 <= k < order@.len() ==> order@[k] < i,
            forall|k1: int, k2: int|
                0 <= k1 < k2 < order@.len() ==> fields@[order@[k1] as int].tag
                    < fields@[order@[k2] as int].tag,
            forall|a: usize| a < i ==> #[trigger] order@.contains(a),
        decreases n - i,
    {
        let t = fields[i].tag;
        let mut p: usize = 0;
        while p < order.len() && fields[order[p]].tag < t
            invariant
                p <= order@.len(),
                i < n == fields@.len(),
                forall|k: int| 0 <= k < order@.len() ==> order@[k] < i,
                forall|k: int| 0 <= k < p ==> fields@[order@[k] as int].tag < t,
            decreases order@.len() - p,
        {
            p = p + 1;
        }
        let ghost before = order@;
        proof {
            assert forall|k: int| p <= k < before.len() implies t < fields@[before[k] as int].tag by {
                assert(fields@[before[p as int] as int].tag >= t);
                assert(before[p as int] != i);
                if k > p {
                    assert(fields@[before[p as int] as int].tag < fields@[before[k] as int].tag);
                }
            }
        }
        order.insert(p, i);
        proof {
            assert forall|a: usize| a < i + 1 implies #[trigger] order@.contains(a) by {
                if a == i {
                    assert(order@[p as int] == a);
                } else {
                    assert(before.contains(a));
                    let k0 = choose|k: int| 0 <= k < before.len() && before[k] == a;
                    if k0 < p {
                        assert(order@[k0] == a);
                    } else {
                        assert(order@[k0 + 1] == a);
                    }
                }
            }
        }
        i = i + 1;
    }
    order
}

} // verus!
