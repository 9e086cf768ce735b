//! In-memory values for message fields, together with their mathematical
//! views.
//!
//! A field's live storage depends on its label: singular fields hold one
//! scalar, optional fields hold a present-or-absent scalar, repeated and
//! packed fields hold a sequence. Message-kind fields hold nested message
//! values, map fields hold key/value entry lists, and oneof fields hold the
//! live variant, if any. Floating-point fields travel as their fixed-width
//! bit patterns; string fields carry their UTF-8 bytes.
//!
//! Every executable type has a spec-level view (`Spec*`) over `Seq`, `int`
//! and plain values; all contracts in this crate speak of those views.

use vstd::prelude::*;

use crate::wire::WireType;

verus! {

/// The mathematical view of one scalar value.
pub enum SpecScalar {
    I32(i32),
    I64(i64),
    U32(u32),
    U64(u64),
    Bool(bool),
    Bytes(Seq<u8>),
}

/// The mathematical view of a oneof variant's live value.
pub enum SpecOneof {
    Scalar(SpecScalar),
    Message(SpecMessage),
}

/// The mathematical view of one retained unknown field occurrence.
pub struct SpecUnknown {
    pub tag: u32,
    pub wire_type: WireType,
    pub bytes: Seq<u8>,
}

/// The mathematical view of a message value: one entry per descriptor field,
/// plus the retained unknown fields in decode order.
pub struct SpecMessage {
    pub fields: Seq<SpecField>,
    pub unknown: Seq<SpecUnknown>,
}

/// The mathematical view of one field's live storage.
pub enum SpecField {
    Single(SpecScalar),
    Opt(Option<SpecScalar>),
    List(Seq<SpecScalar>),
    SingleMsg(SpecMessage),
    OptMsg(Option<SpecMessage>),
    MsgList(Seq<SpecMessage>),
    Mapping(Seq<(SpecScalar, SpecScalar)>),
    Oneof(Option<(u32, SpecOneof)>),
}

/// One scalar value: the numeric carriers, booleans, and byte runs (strings
/// travel as their UTF-8 bytes, floating-point values as their bit
/// patterns).
#[derive(Clone, Debug, PartialEq)]
pub enum ScalarValue {
    I32(i32),
    I64(i64),
    U32(u32),
    U64(u64),
    Bool(bool),
    Bytes(Vec<u8>),
}

/// The live value of a oneof variant.
pub enum OneofValue {
    Scalar(ScalarValue),
    Message(Box<MessageValue>),
}

/// One unknown field occurrence retained during decode: the tag, its wire
/// type, and the raw value bytes exactly as they appeared (including the
/// length prefix of a length-delimited value), so that re-encoding re-emits
/// them verbatim.
#[derive(Clone, Debug, PartialEq)]
pub struct UnknownField {
    pub tag: u32,
    pub wire_type: WireType,
    pub bytes: Vec<u8>,
}

/// A message value: one storage slot per field of its descriptor, plus the
/// retained unknown fields.
pub struct MessageValue {
    pub fields: Vec<FieldValue>,
    pub unknown: Vec<UnknownField>,
}

/// One field's live storage.
pub enum FieldValue {
    Single(ScalarValue),
    Opt(Option<ScalarValue>),
    List(Vec<ScalarValue>),
    SingleMsg(Box<MessageValue>),
    OptMsg(Option<Box<MessageValue>>),
    MsgList(Vec<MessageValue>),
    Mapping(Vec<(ScalarValue, ScalarValue)>),
    Oneof(Option<(u32, OneofValue)>),
}

/// The view of a scalar value.
pub open spec fn scalar_view(v: ScalarValue) -> SpecScalar {
    match v {
        ScalarValue::I32(n) => SpecScalar::I32(n),
        ScalarValue::I64(n) => SpecScalar::I64(n),
        ScalarValue::U32(n) => SpecScalar::U32(n),
        ScalarValue::U64(n) => SpecScalar::U64(n),
        ScalarValue::Bool(b) => SpecScalar::Bool(b),
        ScalarValue::Bytes(b) => SpecScalar::Bytes(b@),
    }
}

/// The views of a sequence of scalar values.
pub open spec fn scalars_view(vs: Seq<ScalarValue>) -> Seq<SpecScalar> {
    vs.map_values(|v: ScalarValue| scalar_view(v))
}

/// The views of a sequence of map entries.
pub open spec fn pairs_view(ps: Seq<(ScalarValue, ScalarValue)>) -> Seq<(SpecScalar, SpecScalar)> {
    ps.map_values(|p: (ScalarValue, ScalarValue)| (scalar_view(p.0), scalar_view(p.1)))
}

/// The view of one retained unknown field.
pub open spec fn unknown_view(u: UnknownField) -> SpecUnknown {
    SpecUnknown { tag: u.tag, wire_type: u.wire_type, bytes: u.bytes@ }
}

/// The views of a sequence of retained unknown fields.
pub open spec fn unknowns_view(us: Seq<UnknownField>) -> Seq<SpecUnknown> {
    us.map_values(|u: UnknownField| unknown_view(u))
}

/// The view of a message value.
pub open spec fn message_view(m: MessageValue) -> SpecMessage
    decreases m,
    via message_view_decreases
{
    SpecMessage { fields: fields_view(m.fields@), unknown: unknowns_view(m.unknown@) }
}

/// The views of a sequence of field values.
pub open spec fn fields_view(fs: Seq<FieldValue>) -> Seq<SpecField>
    decreases fs,
{
    if fs.len() == 0 {
        Seq::empty()
    } else {
        seq![field_view(fs[0])] + fields_view(fs.skip(1))
    }
}

/// The views of a sequence of message values.
pub open spec fn messages_view(ms: Seq<MessageValue>) -> Seq<SpecMessage>
    decreases ms,
{
    if ms.len() == 0 {
        Seq::empty()
    } else {
        seq![message_view(ms[0])] + messages_view(ms.skip(1))
    }
}

/// The view of a oneof variant's live value.
pub open spec fn oneof_view(o: OneofValue) -> SpecOneof
    decreases o,
{
    match o {
        OneofValue::Scalar(v) => SpecOneof::Scalar(scalar_view(v)),
        OneofValue::Message(m) => SpecOneof::Message(message_view(*m)),
    }
}

/// The view of one field's storage.
pub open spec fn field_view(f: FieldValue) -> SpecField
    decreases f,
{
    match f {
        FieldValue::Single(v) => SpecField::Single(scalar_view(v)),
        FieldValue::Opt(o) => SpecField::Opt(
            match o {
                Some(v) => Some(scalar_view(v)),
                None => None,
            },
        ),
        FieldValue::List(vs) => SpecField::List(scalars_view(vs@)),
        FieldValue::SingleMsg(m) => SpecField::SingleMsg(message_view(*m)),
        FieldValue::OptMsg(o) => SpecField::OptMsg(
            match o {
                Some(m) => Some(message_view(*m)),
                None => None,
            },
        ),
        FieldValue::MsgList(ms) => SpecField::MsgList(messages_view(ms@)),
        FieldValue::Mapping(ps) => SpecField::Mapping(pairs_view(ps@)),
        FieldValue::Oneof(o) => SpecField::Oneof(
            match o {
                Some((tag, ov)) => Some((tag, oneof_view(ov))),
                None => None,
            },
        ),
    }
}

#[via_fn]
proof fn message_view_decreases(m: MessageValue) {
    assert(decreases_to!(m => m.fields));
    assert(decreases_to!(m.fields => m.fields@));
}

impl View for ScalarValue {
    type V = SpecScalar;

    open spec fn view(&self) -> SpecScalar {
        scalar_view(*self)
    }
}

impl View for OneofValue {
    type V = SpecOneof;

    open spec fn view(&self) -> SpecOneof {
        oneof_view(*self)
    }
}

impl View for UnknownField {
    type V = SpecUnknown;

    open spec fn view(&self) -> SpecUnknown {
        unknown_view(*self)
    }
}

impl View for MessageValue {
    type V = SpecMessage;

    open spec fn view(&self) -> SpecMessage {
        message_view(*self)
    }
}

impl View for FieldValue {
    type V = SpecField;

    open spec fn view(&self) -> SpecField {
        field_view(*self)
    }
}

/// The views of a field-value sequence agree with `fields_view`, element by
/// element.
pub proof fn lemma_fields_view_index(fs: Seq<FieldValue>)
    ensures
        fields_view(fs).len() == fs.len(),
        forall|i: int| 0 <= i < fs.len() ==> #[trigger] fields_view(fs)[i] == field_view(fs[i]),
    decreases fs,
{
    if fs.len() > 0 {
        lemma_fields_view_index(fs.skip(1));
        assert forall|i: int| 0 <= i < fs.len() implies #[trigger] fields_view(fs)[i]
            == field_view(fs[i]) by {
            if i > 0 {
                assert(fields_view(fs)[i] == fields_view(fs.skip(1))[i - 1]);
                assert(fs.skip(1)[i - 1] == fs[i]);
            }
        }
    }
}

/// The views of a message-value sequence agree with `messages_view`, element
/// by element.
pub proof fn lemma_messages_view_index(ms: Seq<MessageValue>)
    ensures
        messages_view(ms).len() == ms.len(),
        forall|i: int| 0 <= i < ms.len() ==> #[trigger] messages_view(ms)[i] == message_view(
            ms[i],
        ),
    decreases ms,
{
    if ms.len() > 0 {
        lemma_messages_view_index(ms.skip(1));
        assert forall|i: int| 0 <= i < ms.len() implies #[trigger] messages_view(ms)[i]
            == message_view(ms[i]) by {
            if i > 0 {
                assert(messages_view(ms)[i] == messages_view(ms.skip(1))[i - 1]);
                assert(ms.skip(1)[i - 1] == ms[i]);
            }
        }
    }
}

/// Compares two byte vectors.
pub fn bytes_eq(a: &Vec<u8>, b: &Vec<u8>) -> (r: bool)
    ensures
        r == (a@ == b@),
{
    if a.len() != b.len() {
        return false;
    }
    let mut i: usize = 0;
    while i < a.len()
        invariant
            0 <= i <= a@.len() == b@.len(),
            forall|k: int| 0 <= k < i ==> a@[k] == b@[k],
        decreases a@.len() - i,
    {
        if a[i] != b[i] {
            return false;
        }
        i = i + 1;
    }
    proof {
        assert(a@ =~= b@);
    }
    true
}

/// Copies a scalar value; the copy has the same view.
pub fn scalar_clone(v: &ScalarValue) -> (r: ScalarValue)
    ensures
        r@ == v@,
{
    match v {
        ScalarValue::I32(n) => ScalarValue::I32(*n),
        ScalarValue::I64(n) => ScalarValue::I64(*n),
        ScalarValue::U32(n) => ScalarValue::U32(*n),
        ScalarValue::U64(n) => ScalarValue::U64(*n),
        ScalarValue::Bool(b) => ScalarValue::Bool(*b),
        ScalarValue::Bytes(b) => ScalarValue::Bytes(vstd::slice::slice_to_vec(b.as_slice())),
    }
}

/// Compares two scalar values; the result is exactly equality of their
/// views.
pub fn scalar_eq(a: &ScalarValue, b: &ScalarValue) -> (r: bool)
    ensures
        r == (a@ == b@),
{
    match (a, b) {
        (ScalarValue::I32(x), ScalarValue::I32(y)) => *x == *y,
        (ScalarValue::I64(x), ScalarValue::I64(y)) => *x == *y,
        (ScalarValue::U32(x), ScalarValue::U32(y)) => *x == *y,
        (ScalarValue::U64(x), ScalarValue::U64(y)) => *x == *y,
        (ScalarValue::Bool(x), ScalarValue::Bool(y)) => *x == *y,
        (ScalarValue::Bytes(x), ScalarValue::Bytes(y)) => bytes_eq(x, y),
        _ => false,
    }
}

} // verus!
