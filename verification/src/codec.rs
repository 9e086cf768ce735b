//! The message codec: a message descriptor composes one field codec per
//! field into whole-message encode, decode, length and clear, preserving
//! unknown fields across a decode/re-encode round trip.

use vstd::prelude::*;

use crate::error::{DecodeError, SchemaError};
use crate::field::mapping;
use crate::field::oneof::{self, VariantKind};
use crate::field::scalar::{self, Ty};
use crate::field::{Field, Label};
use crate::value::{
    FieldValue, MessageValue, SpecField, SpecMessage, SpecOneof, SpecScalar, SpecUnknown,
};
use crate::wire::{len_delim_bytes, tag_bytes, WireType};

verus! {

/// The validated, immutable schema of one message type: its fields, in a
/// stable encode order.
pub struct MessageDescriptor {
    pub fields: Vec<Field>,
}

impl MessageDescriptor {
    /// A well-formed schema: every field well-formed, and no two fields
    /// sharing a tag.
    pub open spec fn wf(self) -> bool
        decreases self,
    {
        &&& (forall|i: int| 0 <= i < self.fields@.len() ==> (#[trigger] self.fields@[i]).wf())
        &&& (forall|i: int, j: int, ti: int, tj: int|
            0 <= i < j < self.fields@.len() && 0 <= ti < self.fields@[i].spec_tags().len() && 0
                <= tj < self.fields@[j].spec_tags().len() ==> #[trigger] self.fields@[
            i].spec_tags()[ti] != #[trigger] self.fields@[j].spec_tags()[tj])
    }

    /// Validates a proposed field list and builds the schema; sibling fields
    /// must not claim the same tag, also across oneof tag sets.
    pub fn new(fields: Vec<Field>) -> (r: Result<MessageDescriptor, SchemaError>)
        requires
            forall|i: int| 0 <= i < fields@.len() ==> (#[trigger] fields@[i]).wf(),
        ensures
            match r {
                Ok(d) => d.fields == fields && d.wf(),
                Err(e) => e == SchemaError::DuplicateTag && exists|p: int, q: int, tp: int, tq: int|
                    0 <= p < q < fields@.len() && 0 <= tp < fields@[p].spec_tags().len() && 0 <= tq
                        < fields@[q].spec_tags().len() && #[trigger] fields@[p].spec_tags()[tp]
                        == #[trigger] fields@[q].spec_tags()[tq],
            },
    {
        let n = fields.len();
        let mut i: usize = 0;
        while i < n
            invariant
                0 <= i <= n == fields@.len(),
                forall|p: int, q: int, tp: int, tq: int|
                    0 <= p < q < fields@.len() && q < i && 0 <= tp < fields@[p].spec_tags().len()
                        && 0 <= tq < fields@[q].spec_tags().len() ==> #[trigger] fields@[
                    p].spec_tags()[tp] != #[trigger] fields@[q].spec_tags()[tq],
            decreases n - i,
        {
            let tags_i = fields[i].tags();
            let mut j: usize = 0;
            while j < i
                invariant
                    0 <= j <= i < n == fields@.len(),
                    tags_i@ == fields@[i as int].spec_tags(),
                    forall|p: int, tp: int, tq: int|
                        0 <= p < j && 0 <= tp < fields@[p].spec_tags().len() && 0 <= tq
                            < fields@[i as int].spec_tags().len() ==> #[trigger] fields@[
                        p].spec_tags()[tp] != #[trigger] fields@[i as int].spec_tags()[tq],
                decreases i - j,
            {
                let tags_j = fields[j].tags();
                let mut a: usize = 0;
                while a < tags_j.len()
                    invariant
                        0 <= a <= tags_j@.len(),
                        0 <= j < i < n == fields@.len(),
                        tags_i@ == fields@[i as int].spec_tags(),
                        tags_j@ == fields@[j as int].spec_tags(),
                        forall|tp: int, tq: int|
                            0 <= tp < a && 0 <= tq < tags_i@.len() ==> #[trigger] tags_j@[tp]
                                != #[trigger] tags_i@[tq],
                    decreases tags_j@.len() - a,
                {
                    let mut b: usize = 0;
                    while b < tags_i.len()
                        invariant
                            0 <= b <= tags_i@.len(),
                            0 <= a < tags_j@.len(),
                            0 <= j < i < n == fields@.len(),
                            tags_i@ == fields@[i as int].spec_tags(),
                            tags_j@ == fields@[j as int].spec_tags(),
                            forall|tq: int|
                                0 <= tq < b ==> tags_j@[a as int] != #[trigger] tags_i@[tq],
                        decreases tags_i@.len() - b,
                    {
                        if tags_j[a] == tags_i[b] {
                            proof {
                                assert(fields@[j as int].spec_tags()[a as int] == fields@[
                                i as int].spec_tags()[b as int]);
                            }
                            return Err(SchemaError::DuplicateTag);
                        }
                        b = b + 1;
                    }
                    a = a + 1;
                }
                j = j + 1;
            }
            i = i + 1;
        }
        Ok(MessageDescriptor { fields })
    }
}

// ---------------------------------------------------------------------------
// Well-formed storage: which shapes a message value must have under a
// schema.
// ---------------------------------------------------------------------------

/// The storage shape one field expects.
pub open spec fn field_value_wf(f: Field, fv: SpecField) -> bool
    decreases fv, 1int,
    via field_value_wf_decreases
{
    match f {
        Field::Scalar(sf) => sf.value_wf(fv),
        Field::Message(mf) => match mf.label {
            Label::Optional => fv is OptMsg && match fv->OptMsg_0 {
                Some(m) => message_value_wf(mf.nested, m),
                None => true,
            },
            Label::Required => fv is SingleMsg && message_value_wf(mf.nested, fv->SingleMsg_0),
            Label::Repeated => fv is MsgList && forall|i: int|
                0 <= i < fv->MsgList_0.len() ==> message_value_wf(
                    mf.nested,
                    #[trigger] fv->MsgList_0[i],
                ),
        },
        Field::Mapping(pf) => fv is Mapping && forall|i: int|
            0 <= i < fv->Mapping_0.len() ==> scalar::value_shape(
                pf.key_ty,
                (#[trigger] fv->Mapping_0[i]).0,
            ) && scalar::value_shape(pf.value_ty, fv->Mapping_0[i].1),
        Field::Oneof(of) => fv is Oneof && match fv->Oneof_0 {
            None => true,
            Some((tag, ov)) => match of.variant_index(tag) {
                Some(i) => match of.variants@[i].kind {
                    VariantKind::Scalar(ty) => ov is Scalar && scalar::value_shape(
                        ty,
                        ov->Scalar_0,
                    ),
                    VariantKind::Message(d) => ov is Message && message_value_wf(
                        d,
                        ov->Message_0,
                    ),
                },
                None => false,
            },
        },
    }
}

/// The storage shape a whole message value must have: one slot per field,
/// each well-shaped, and every retained unknown field carrying a legal tag.
pub open spec fn message_value_wf(d: MessageDescriptor, m: SpecMessage) -> bool
    decreases m, 2int,
    via message_value_wf_decreases
{
    &&& m.fields.len() == d.fields@.len()
    &&& forall|i: int|
        0 <= i < m.fields.len() ==> field_value_wf(d.fields@[i], #[trigger] m.fields[i])
    &&& forall|i: int|
        0 <= i < m.unknown.len() ==> 1 <= (#[trigger] m.unknown[i]).tag
            <= crate::wire::MAX_TAG
}

#[via_fn]
proof fn field_value_wf_decreases(f: Field, fv: SpecField) {
    if fv is OptMsg && fv->OptMsg_0 is Some {
        assert(decreases_to!(fv, 1int => fv->OptMsg_0->0, 2int)) by {
            assert(decreases_to!(fv => fv->OptMsg_0));
            assert(decreases_to!(fv->OptMsg_0 => fv->OptMsg_0->0));
        }
    }
    if fv is SingleMsg {
        assert(decreases_to!(fv, 1int => fv->SingleMsg_0, 2int)) by {
            assert(decreases_to!(fv => fv->SingleMsg_0));
        }
    }
    if fv is MsgList {
        let ms = fv->MsgList_0;
        assert forall|i: int| 0 <= i < ms.len() implies decreases_to!(fv, 1int => ms[i], 2int) by {
            assert(decreases_to!(fv => ms));
            assert(decreases_to!(ms => ms[i]));
        }
    }
    if fv is Oneof && fv->Oneof_0 is Some {
        let tup = fv->Oneof_0->0;
        if tup.1 is Message {
            assert(decreases_to!(fv, 1int => tup.1->Message_0, 2int)) by {
                assert(decreases_to!(fv => fv->Oneof_0));
                assert(decreases_to!(fv->Oneof_0 => tup));
                assert(decreases_to!(tup => tup.1));
                assert(decreases_to!(tup.1 => tup.1->Message_0));
            }
        }
    }
}

#[via_fn]
proof fn message_value_wf_decreases(d: MessageDescriptor, m: SpecMessage) {
    assert forall|i: int| 0 <= i < m.fields.len() implies decreases_to!(
        m, 2int => m.fields[i], 1int
    ) by {
        assert(decreases_to!(m => m.fields));
        assert(decreases_to!(m.fields => m.fields[i]));
    }
}

// ---------------------------------------------------------------------------
// Default values.
// ---------------------------------------------------------------------------

/// The default storage of one field: the scalar default, an absent optional
/// message, a fresh nested message for a required one, empty sequences, an
/// empty map, no live oneof variant.
pub open spec fn field_default(f: Field) -> SpecField
    decreases f, 1int,
{
    match f {
        Field::Scalar(sf) => scalar::cleared(sf),
        Field::Message(mf) => match mf.label {
            Label::Optional => SpecField::OptMsg(None),
            Label::Required => SpecField::SingleMsg(message_default(mf.nested)),
            Label::Repeated => SpecField::MsgList(Seq::empty()),
        },
        Field::Mapping(_) => SpecField::Mapping(Seq::empty()),
        Field::Oneof(_) => SpecField::Oneof(None),
    }
}

/// The default value of a whole message: every field at its default, no
/// unknown fields.
pub open spec fn message_default(d: MessageDescriptor) -> SpecMessage
    decreases d, 2int,
    via message_default_decreases
{
    SpecMessage { fields: fields_default(d.fields@), unknown: Seq::empty() }
}

/// The defaults of a field list, in order.
pub open spec fn fields_default(fs: Seq<Field>) -> Seq<SpecField>
    decreases fs, 1int,
    via fields_default_decreases
{
    if fs.len() == 0 {
        Seq::empty()
    } else {
        seq![field_default(fs[0])] + fields_default(fs.skip(1))
    }
}

#[via_fn]
proof fn message_default_decreases(d: MessageDescriptor) {
    assert(decreases_to!(d, 2int => d.fields@, 1int)) by {
        assert(decreases_to!(d => d.fields));
        assert(decreases_to!(d.fields => d.fields@));
    }
}

#[via_fn]
proof fn fields_default_decreases(fs: Seq<Field>) {
    if fs.len() != 0 {
        assert(decreases_to!(fs, 1int => fs[0], 1int)) by {
            assert(decreases_to!(fs => fs[0]));
        }
        assert(decreases_to!(fs, 1int => fs.skip(1), 1int)) by {
            assert(fs.skip(1) =~= fs.subrange(1, fs.len() as int));
            vstd::seq::axiom_seq_subrange_decreases(fs, 1, fs.len() as int);
        }
    }
}

// ---------------------------------------------------------------------------
// The bytes of a whole message.
// ---------------------------------------------------------------------------

/// A plain-semantics field inside a map entry: elided at the zero value,
/// otherwise tag and value.
pub open spec fn plain_field_bytes(ty: Ty, tag: u32, v: SpecScalar) -> Seq<u8> {
    if v == scalar::spec_zero_value(ty) {
        Seq::empty()
    } else {
        tag_bytes(tag, ty.wire_shape()) + scalar::scalar_bytes(ty, v)
    }
}

/// The payload of one map entry: the key under tag 1, the value under tag 2,
/// both with plain-field semantics.
pub open spec fn entry_payload(pf: mapping::Field, k: SpecScalar, v: SpecScalar) -> Seq<u8> {
    plain_field_bytes(pf.key_ty, 1, k) + plain_field_bytes(pf.value_ty, 2, v)
}

/// The records of a map field: one framed entry per key/value pair, in
/// storage order.
pub open spec fn entries_bytes(pf: mapping::Field, entries: Seq<(SpecScalar, SpecScalar)>) -> Seq<
    u8,
>
    decreases entries.len(),
{
    if entries.len() == 0 {
        Seq::empty()
    } else {
        tag_bytes(pf.tag, WireType::LengthDelimited) + len_delim_bytes(
            entry_payload(pf, entries[0].0, entries[0].1),
        ) + entries_bytes(pf, entries.skip(1))
    }
}

/// The re-emission of the retained unknown fields: each tag followed by its
/// raw value bytes, verbatim, in retained order.
pub open spec fn unknowns_bytes(us: Seq<SpecUnknown>) -> Seq<u8>
    decreases us.len(),
{
    if us.len() == 0 {
        Seq::empty()
    } else {
        tag_bytes(us[0].tag, us[0].wire_type) + us[0].bytes + unknowns_bytes(us.skip(1))
    }
}

/// The encoding of one whole message: each field's records in descriptor
/// order, then the retained unknown fields re-emitted verbatim.
pub open spec fn message_bytes(d: MessageDescriptor, m: SpecMessage) -> Seq<u8>
    decreases m, 2int,
    via message_bytes_decreases
{
    fields_bytes(d.fields@, m.fields) + unknowns_bytes(m.unknown)
}

#[via_fn]
proof fn message_bytes_decreases(d: MessageDescriptor, m: SpecMessage) {
    assert(decreases_to!(m, 2int => m.fields, 1int)) by {
        assert(decreases_to!(m => m.fields));
    }
}

/// The concatenated records of a message's fields, pairing each descriptor
/// with its storage slot.
pub open spec fn fields_bytes(fs: Seq<Field>, vs: Seq<SpecField>) -> Seq<u8>
    decreases vs, 1int,
    via fields_bytes_decreases
{
    if fs.len() == 0 || vs.len() == 0 {
        Seq::empty()
    } else {
        field_any_bytes(fs[0], vs[0]) + fields_bytes(fs.skip(1), vs.skip(1))
    }
}

#[via_fn]
proof fn fields_bytes_decreases(fs: Seq<Field>, vs: Seq<SpecField>) {
    if fs.len() != 0 && vs.len() != 0 {
        assert(decreases_to!(vs, 1int => vs[0], 3int)) by {
            assert(decreases_to!(vs => vs[0]));
        }
        assert(decreases_to!(vs, 1int => vs.skip(1), 1int)) by {
            assert(vs.skip(1) =~= vs.subrange(1, vs.len() as int));
            vstd::seq::axiom_seq_subrange_decreases(vs, 1, vs.len() as int);
        }
    }
}

/// The records of a repeated message field: one framed nested message per
/// element.
pub open spec fn msgs_bytes(d: MessageDescriptor, tag: u32, msgs: Seq<SpecMessage>) -> Seq<u8>
    decreases msgs, 3int,
    via msgs_bytes_decreases
{
    if msgs.len() == 0 {
        Seq::empty()
    } else {
        tag_bytes(tag, WireType::LengthDelimited) + len_delim_bytes(message_bytes(d, msgs[0]))
            + msgs_bytes(d, tag, msgs.skip(1))
    }
}

#[via_fn]
proof fn msgs_bytes_decreases(d: MessageDescriptor, tag: u32, msgs: Seq<SpecMessage>) {
    if msgs.len() != 0 {
        assert(decreases_to!(msgs, 3int => msgs[0], 2int)) by {
            assert(decreases_to!(msgs => msgs[0]));
        }
        assert(decreases_to!(msgs, 3int => msgs.skip(1), 3int)) by {
            assert(msgs.skip(1) =~= msgs.subrange(1, msgs.len() as int));
            vstd::seq::axiom_seq_subrange_decreases(msgs, 1, msgs.len() as int);
        }
    }
}

/// The record of a live oneof variant: required-shaped, under the variant's
/// own tag, with the variant's own kind rules.
pub open spec fn oneof_bytes(of: oneof::Field, tag: u32, ov: SpecOneof) -> Seq<u8>
    decreases ov, 3int,
    via oneof_bytes_decreases
{
    match of.variant_index(tag) {
        Some(i) => match of.variants@[i].kind {
            VariantKind::Scalar(ty) => tag_bytes(tag, ty.wire_shape()) + scalar::scalar_bytes(
                ty,
                ov->Scalar_0,
            ),
            VariantKind::Message(d) => if ov is Message {
                tag_bytes(tag, WireType::LengthDelimited) + len_delim_bytes(
                    message_bytes(d, ov->Message_0),
                )
            } else {
                Seq::empty()
            },
        },
        None => Seq::empty(),
    }
}

#[via_fn]
proof fn oneof_bytes_decreases(of: oneof::Field, tag: u32, ov: SpecOneof) {
    match of.variant_index(tag) {
        Some(i) => {
            match of.variants@[i].kind {
                VariantKind::Message(_) => {
                    if ov is Message {
                        assert(decreases_to!(ov, 3int => ov->Message_0, 2int)) by {
                            assert(decreases_to!(ov => ov->Message_0));
                        }
                    }
                },
                _ => {},
            }
        },
        None => {},
    }
}

impl MessageDescriptor {
    /// Returns a fresh message value with every field at its default and no
    /// unknown fields.
    pub fn default_value(&self) -> (r: MessageValue)
        ensures
            r@ == message_default(*self),
            self.wf() ==> message_value_wf(*self, r@),
        decreases *self, 2int,
    {
        let mut fields: Vec<FieldValue> = Vec::new();
        let n = self.fields.len();
        let mut i: usize = 0;
        proof {
            assert(crate::value::fields_view(fields@) =~= Seq::<SpecField>::empty());
            assert(self.fields@.skip(0) =~= self.fields@);
        }
        while i < n
            invariant
                0 <= i <= n == self.fields@.len(),
                crate::value::fields_view(fields@).len() == i,
                crate::value::fields_view(fields@) + fields_default(self.fields@.skip(i as int))
                    == fields_default(self.fields@),
                forall|k: int|
                    0 <= k < i ==> crate::value::field_view(#[trigger] fields@[k])
                        == field_default(self.fields@[k]),
                forall|k: int|
                    0 <= k < i && (#[trigger] self.fields@[k]).wf() ==> field_value_wf(
                        self.fields@[k],
                        crate::value::field_view(fields@[k]),
                    ),
            decreases n - i,
        {
            proof {
                assert(decreases_to!(*self, 2int => self.fields@[i as int], 1int)) by {
                    assert(decreases_to!(*self => self.fields));
                    assert(decreases_to!(self.fields => self.fields@));
                    assert(decreases_to!(self.fields@ => self.fields@[i as int]));
                }
            }
            let ghost before = fields@;
            let fv = self.fields[i].default_value();
            fields.push(fv);
            proof {
                crate::value::lemma_fields_view_index(fields@);
                crate::value::lemma_fields_view_index(before);
                assert(crate::value::fields_view(fields@) =~= crate::value::fields_view(
                    before,
                ).push(fv@));
                assert(self.fields@.skip(i as int).skip(1) =~= self.fields@.skip(i + 1));
                assert(self.fields@.skip(i as int)[0] == self.fields@[i as int]);
                assert(crate::value::fields_view(fields@) + fields_default(
                    self.fields@.skip(i + 1),
                ) =~= crate::value::fields_view(before) + fields_default(
                    self.fields@.skip(i as int),
                ));
            }
            i = i + 1;
        }
        let r = MessageValue { fields, unknown: Vec::new() };
        proof {
            assert(self.fields@.skip(n as int) =~= Seq::<Field>::empty());
            assert(crate::value::fields_view(r.fields@) + Seq::<SpecField>::empty()
                =~= crate::value::fields_view(r.fields@));
            assert(crate::value::unknowns_view(r.unknown@) =~= Seq::<SpecUnknown>::empty());
            crate::value::lemma_fields_view_index(r.fields@);
        }
        r
    }

    /// Resets every field of `m` to its default and drops the retained
    /// unknown fields.
    pub fn clear(&self, m: &mut MessageValue)
        ensures
            final(m)@ == message_default(*self),
            self.wf() ==> message_value_wf(*self, final(m)@),
    {
        *m = self.default_value();
    }

    /// Appends the encoding of `m` to `buf`: each field's records in
    /// descriptor order, then the retained unknown fields verbatim.
    pub fn encode(&self, m: &MessageValue, buf: &mut Vec<u8>)
        requires
            self.wf(),
            message_value_wf(*self, m@),
        ensures
            final(buf)@ == old(buf)@ + message_bytes(*self, m@),
        decreases *m, 2int,
    {
        let ghost start = buf@;
        let ghost fviews = crate::value::fields_view(m.fields@);
        let n = self.fields.len();
        let mut i: usize = 0;
        proof {
            crate::value::lemma_fields_view_index(m.fields@);
            assert(self.fields@.skip(0) =~= self.fields@);
            assert(fviews.skip(0) =~= fviews);
        }
        while i < n
            invariant
                0 <= i <= n == self.fields@.len(),
                self.wf(),
                message_value_wf(*self, m@),
                fviews == crate::value::fields_view(m.fields@),
                fviews.len() == n,
                start + fields_bytes(self.fields@, fviews) == buf@ + fields_bytes(
                    self.fields@.skip(i as int),
                    fviews.skip(i as int),
                ),
            decreases n - i,
        {
            proof {
                crate::value::lemma_fields_view_index(m.fields@);
                assert(decreases_to!(*m, 2int => m.fields@[i as int], 1int)) by {
                    assert(decreases_to!(*m => m.fields));
                    assert(decreases_to!(m.fields => m.fields@));
                    assert(decreases_to!(m.fields@ => m.fields@[i as int]));
                }
                assert(field_value_wf(self.fields@[i as int], fviews[i as int]));
            }
            self.fields[i].encode(&m.fields[i], buf);
            proof {
                assert(self.fields@.skip(i as int).skip(1) =~= self.fields@.skip(i + 1));
                assert(fviews.skip(i as int).skip(1) =~= fviews.skip(i + 1));
                assert(self.fields@.skip(i as int)[0] == self.fields@[i as int]);
                assert(fviews.skip(i as int)[0] == fviews[i as int]);
                assert(start + fields_bytes(self.fields@, fviews) =~= buf@ + fields_bytes(
                    self.fields@.skip(i + 1),
                    fviews.skip(i + 1),
                ));
            }
            i = i + 1;
        }
        proof {
            assert(self.fields@.skip(n as int) =~= Seq::<Field>::empty());
            assert(fviews.skip(n as int) =~= Seq::<SpecField>::empty());
        }
        // Re-emit the retained unknown fields, verbatim, after the known
        // fields.
        let ghost uviews = crate::value::unknowns_view(m.unknown@);
        let un = m.unknown.len();
        let mut j: usize = 0;
        proof {
            assert(uviews.skip(0) =~= uviews);
        }
        while j < un
            invariant
                0 <= j <= un == m.unknown@.len(),
                self.wf(),
                message_value_wf(*self, m@),
                uviews == crate::value::unknowns_view(m.unknown@),
                uviews.len() == un,
                start + fields_bytes(self.fields@, fviews) + unknowns_bytes(uviews) == buf@
                    + unknowns_bytes(uviews.skip(j as int)),
            decreases un - j,
        {
            proof {
                assert(uviews[j as int] == m.unknown@[j as int]@);
            }
            let u = &m.unknown[j];
            crate::wire::encode_tag(u.tag, u.wire_type, buf);
            buf.extend_from_slice(u.bytes.as_slice());
            proof {
                assert(uviews.skip(j as int).skip(1) =~= uviews.skip(j + 1));
                assert(uviews.skip(j as int)[0] == uviews[j as int]);
                assert(start + fields_bytes(self.fields@, fviews) + unknowns_bytes(uviews)
                    =~= buf@ + unknowns_bytes(uviews.skip(j + 1)));
            }
            j = j + 1;
        }
        proof {
            assert(uviews.skip(un as int) =~= Seq::<SpecUnknown>::empty());
            assert(buf@ =~= start + message_bytes(*self, m@));
        }
    }
}

impl Field {
    /// Returns the field's default storage.
    pub fn default_value(&self) -> (r: FieldValue)
        ensures
            r@ == field_default(*self),
            self.wf() ==> field_value_wf(*self, r@),
        decreases *self, 1int,
    {
        match self {
            Field::Scalar(sf) => sf.default_value(),
            Field::Message(mf) => {
                match &mf.label {
                    Label::Optional => FieldValue::OptMsg(None),
                    Label::Required => {
                        proof {
                            assert(decreases_to!(*self, 1int => mf.nested, 2int)) by {
                                assert(decreases_to!(*self => mf.nested));
                            }
                        }
                        FieldValue::SingleMsg(Box::new(mf.nested.default_value()))
                    },
                    Label::Repeated => {
                        proof {
                            assert(crate::value::messages_view(Seq::<MessageValue>::empty())
                                =~= Seq::<SpecMessage>::empty());
                        }
                        FieldValue::MsgList(Vec::new())
                    },
                }
            },
            Field::Mapping(_) => {
                proof {
                    assert(crate::value::pairs_view(
                        Seq::<(crate::value::ScalarValue, crate::value::ScalarValue)>::empty(),
                    ) =~= Seq::<(SpecScalar, SpecScalar)>::empty());
                }
                FieldValue::Mapping(Vec::new())
            },
            Field::Oneof(_) => FieldValue::Oneof(None),
        }
    }

    /// Resets the field's storage to its default.
    pub fn clear(&self, value: &mut FieldValue)
        ensures
            final(value)@ == field_default(*self),
            self.wf() ==> field_value_wf(*self, final(value)@),
    {
        *value = self.default_value();
    }

    /// Renders this field's storage for diagnostics.
    pub fn debug(&self, value: &FieldValue) -> (r: String)
        ensures
            r@ == crate::render::spec_field_render(value@),
    {
        crate::render::render_field(value)
    }

    /// Returns the number of bytes `encode` would append for this field
    /// holding `value`, by measuring into a scratch buffer.
    pub fn encoded_len(&self, value: &FieldValue) -> (r: usize)
        requires
            self.wf(),
            field_value_wf(*self, value@),
        ensures
            r == field_any_bytes(*self, value@).len(),
    {
        let mut buf: Vec<u8> = Vec::new();
        self.encode(value, &mut buf);
        buf.len()
    }

    /// Appends the records of this field, holding `value`, to `buf`.
    pub fn encode(&self, value: &FieldValue, buf: &mut Vec<u8>)
        requires
            self.wf(),
            field_value_wf(*self, value@),
        ensures
            final(buf)@ == old(buf)@ + field_any_bytes(*self, value@),
        decreases *value, 1int,
    {
        let ghost start = buf@;
        match (self, value) {
            (Field::Scalar(sf), _) => {
                sf.encode(value, buf);
            },
            (Field::Message(mf), FieldValue::OptMsg(o)) => {
                match o {
                    None => {},
                    Some(b) => {
                        proof {
                            assert(decreases_to!(*value, 1int => **b, 2int)) by {
                                assert(decreases_to!(*value => *b));
                            }
                        }
                        let mut inner: Vec<u8> = Vec::new();
                        mf.nested.encode(&**b, &mut inner);
                        crate::wire::encode_tag(mf.tag, WireType::LengthDelimited, buf);
                        crate::wire::encode_len_delimited(inner.as_slice(), buf);
                        proof {
                            assert(buf@ =~= start + field_any_bytes(*self, value@));
                        }
                    },
                }
            },
            (Field::Message(mf), FieldValue::SingleMsg(b)) => {
                proof {
                    assert(decreases_to!(*value, 1int => **b, 2int)) by {
                        assert(decreases_to!(*value => *b));
                    }
                }
                let mut inner: Vec<u8> = Vec::new();
                mf.nested.encode(&**b, &mut inner);
                crate::wire::encode_tag(mf.tag, WireType::LengthDelimited, buf);
                crate::wire::encode_len_delimited(inner.as_slice(), buf);
                proof {
                    assert(buf@ =~= start + field_any_bytes(*self, value@));
                }
            },
            (Field::Message(mf), FieldValue::MsgList(ms)) => {
                let ghost views = crate::value::messages_view(ms@);
                let n = ms.len();
                let mut i: usize = 0;
                proof {
                    crate::value::lemma_messages_view_index(ms@);
                    assert(views.skip(0) =~= views);
                }
                while i < n
                    invariant
                        0 <= i <= n == ms@.len(),
                        self == Field::Message(*mf),
                        mf.label is Repeated,
                        self.wf(),
                        field_value_wf(*self, value@),
                        value@ is MsgList && value@->MsgList_0 == views,
                        views == crate::value::messages_view(ms@),
                        views.len() == n,
                        *value == FieldValue::MsgList(*ms),
                        start + msgs_bytes(mf.nested, mf.tag, views) == buf@ + msgs_bytes(
                            mf.nested,
                            mf.tag,
                            views.skip(i as int),
                        ),
                    decreases n - i,
                {
                    proof {
                        crate::value::lemma_messages_view_index(ms@);
                        assert(views[i as int] == ms@[i as int]@);
                        assert(message_value_wf(mf.nested, views[i as int]));
                        assert(decreases_to!(*value, 1int => ms@[i as int], 2int)) by {
                            assert(decreases_to!(*value => *ms));
                            assert(decreases_to!(*ms => ms@));
                            assert(decreases_to!(ms@ => ms@[i as int]));
                        }
                    }
                    let mut inner: Vec<u8> = Vec::new();
                    mf.nested.encode(&ms[i], &mut inner);
                    crate::wire::encode_tag(mf.tag, WireType::LengthDelimited, buf);
                    crate::wire::encode_len_delimited(inner.as_slice(), buf);
                    proof {
                        assert(views.skip(i as int).skip(1) =~= views.skip(i + 1));
                        assert(views.skip(i as int)[0] == views[i as int]);
                        assert(start + msgs_bytes(mf.nested, mf.tag, views) =~= buf@ + msgs_bytes(
                            mf.nested,
                            mf.tag,
                            views.skip(i + 1),
                        ));
                    }
                    i = i + 1;
                }
                proof {
                    assert(views.skip(n as int) =~= Seq::<SpecMessage>::empty());
                    assert(buf@ =~= start + field_any_bytes(*self, value@));
                }
            },
            (Field::Mapping(pf), FieldValue::Mapping(entries)) => {
                let ghost views = crate::value::pairs_view(entries@);
                let n = entries.len();
                let mut i: usize = 0;
                proof {
                    assert(views.skip(0) =~= views);
                }
                while i < n
                    invariant
                        0 <= i <= n == entries@.len(),
                        self == Field::Mapping(*pf),
                        self.wf(),
                        field_value_wf(*self, value@),
                        value@ is Mapping && value@->Mapping_0 == views,
                        views == crate::value::pairs_view(entries@),
                        views.len() == n,
                        start + entries_bytes(*pf, views) == buf@ + entries_bytes(
                            *pf,
                            views.skip(i as int),
                        ),
                    decreases n - i,
                {
                    proof {
                        assert(views[i as int] == (
                            crate::value::scalar_view(entries@[i as int].0),
                            crate::value::scalar_view(entries@[i as int].1),
                        ));
                        assert(scalar::value_shape(pf.key_ty, views[i as int].0));
                        assert(scalar::value_shape(pf.value_ty, views[i as int].1));
                    }
                    let mut inner: Vec<u8> = Vec::new();
                    let kz = pf.key_ty.zero_value();
                    if !crate::value::scalar_eq(&entries[i].0, &kz) {
                        crate::wire::encode_tag(1, pf.key_ty.wire_type(), &mut inner);
                        scalar::encode_scalar(&pf.key_ty, &entries[i].0, &mut inner);
                    }
                    let ghost key_part = inner@;
                    let vz = pf.value_ty.zero_value();
                    if !crate::value::scalar_eq(&entries[i].1, &vz) {
                        crate::wire::encode_tag(2, pf.value_ty.wire_type(), &mut inner);
                        scalar::encode_scalar(&pf.value_ty, &entries[i].1, &mut inner);
                    }
                    proof {
                        assert(key_part =~= plain_field_bytes(pf.key_ty, 1, views[i as int].0));
                        assert(inner@ =~= entry_payload(*pf, views[i as int].0, views[i as int].1));
                    }
                    crate::wire::encode_tag(pf.tag, WireType::LengthDelimited, buf);
                    crate::wire::encode_len_delimited(inner.as_slice(), buf);
                    proof {
                        assert(views.skip(i as int).skip(1) =~= views.skip(i + 1));
                        assert(views.skip(i as int)[0] == views[i as int]);
                        assert(start + entries_bytes(*pf, views) =~= buf@ + entries_bytes(
                            *pf,
                            views.skip(i + 1),
                        ));
                    }
                    i = i + 1;
                }
                proof {
                    assert(views.skip(n as int) =~= Seq::<(SpecScalar, SpecScalar)>::empty());
                    assert(buf@ =~= start + field_any_bytes(*self, value@));
                }
            },
            (Field::Oneof(of), FieldValue::Oneof(live)) => {
                match live {
                    None => {},
                    Some((tag, ov)) => {
                        let idx = match of.find_variant(*tag) {
                            Some(i) => i,
                            None => {
                                proof {
                                    assert(false);
                                }
                                return ;
                            },
                        };
                        match (&of.variants[idx].kind, ov) {
                            (VariantKind::Scalar(ty), crate::value::OneofValue::Scalar(sv)) => {
                                crate::wire::encode_tag(*tag, ty.wire_type(), buf);
                                scalar::encode_scalar(ty, sv, buf);
                                proof {
                                    assert(buf@ =~= start + field_any_bytes(*self, value@));
                                }
                            },
                            (VariantKind::Message(d), crate::value::OneofValue::Message(b)) => {
                                proof {
                                    assert(decreases_to!(*value, 1int => **b, 2int)) by {
                                        assert(decreases_to!(*value => *b));
                                    }
                                }
                                let mut inner: Vec<u8> = Vec::new();
                                d.encode(&**b, &mut inner);
                                crate::wire::encode_tag(*tag, WireType::LengthDelimited, buf);
                                crate::wire::encode_len_delimited(inner.as_slice(), buf);
                                proof {
                                    assert(buf@ =~= start + field_any_bytes(*self, value@));
                                }
                            },
                            _ => {
                                proof {
                                    assert(false);
                                }
                            },
                        }
                    },
                }
            },
            _ => {
                proof {
                    assert(false);
                }
            },
        }
    }
}

/// The records of one field of any kind.
pub open spec fn field_any_bytes(f: Field, fv: SpecField) -> Seq<u8>
    decreases fv, 3int,
    via field_any_bytes_decreases
{
    match f {
        Field::Scalar(sf) => scalar::field_bytes(sf, fv),
        Field::Message(mf) => match mf.label {
            Label::Optional => if fv is OptMsg {
                match fv->OptMsg_0 {
                    None => Seq::empty(),
                    Some(m) => tag_bytes(mf.tag, WireType::LengthDelimited) + len_delim_bytes(
                        message_bytes(mf.nested, m),
                    ),
                }
            } else {
                Seq::empty()
            },
            Label::Required => if fv is SingleMsg {
                tag_bytes(mf.tag, WireType::LengthDelimited) + len_delim_bytes(
                    message_bytes(mf.nested, fv->SingleMsg_0),
                )
            } else {
                Seq::empty()
            },
            Label::Repeated => if fv is MsgList {
                msgs_bytes(mf.nested, mf.tag, fv->MsgList_0)
            } else {
                Seq::empty()
            },
        },
        Field::Mapping(pf) => entries_bytes(pf, fv->Mapping_0),
        Field::Oneof(of) => if fv is Oneof {
            match fv->Oneof_0 {
                None => Seq::empty(),
                Some((tag, ov)) => oneof_bytes(of, tag, ov),
            }
        } else {
            Seq::empty()
        },
    }
}

// ---------------------------------------------------------------------------
// Decoding: the functional mirror of the whole-message decode loop.
// ---------------------------------------------------------------------------

/// The functional mirror of skipping one unknown value of wire type `wt` at
/// the start of `s`: the bytes consumed, or the exact error.
pub open spec fn skip_prefix(wt: WireType, s: Seq<u8>) -> Result<int, DecodeError> {
    match wt {
        WireType::Varint => match crate::wire::varint_prefix(s, 0) {
            Ok(l) => Ok(l),
            Err(e) => Err(e),
        },
        WireType::Fixed64 => if s.len() >= 8 {
            Ok(8)
        } else {
            Err(DecodeError::Truncated)
        },
        WireType::Fixed32 => if s.len() >= 4 {
            Ok(4)
        } else {
            Err(DecodeError::Truncated)
        },
        WireType::LengthDelimited => match crate::wire::varint_prefix(s, 0) {
            Ok(l) => {
                let n = crate::wire::varint_int(s.take(l));
                if n <= s.len() - l {
                    Ok(l + n)
                } else {
                    Err(DecodeError::Truncated)
                }
            },
            Err(e) => Err(e),
        },
    }
}

/// A successful skip consumes at least one byte and never more than the
/// buffer.
pub proof fn lemma_skip_prefix_ok(wt: WireType, s: Seq<u8>)
    ensures
        match skip_prefix(wt, s) {
            Ok(used) => 1 <= used <= s.len(),
            Err(_) => true,
        },
{
    crate::wire::lemma_varint_prefix_ok(s, 0);
    match crate::wire::varint_prefix(s, 0) {
        Ok(l) => {
            crate::wire::lemma_varint_int_range(s.take(l));
        },
        Err(_) => {},
    }
}

/// Inserts a key into a map's entry list: overwrites in place when the key
/// is already present, appends otherwise, so the last occurrence of a key
/// wins.
pub open spec fn map_insert(
    entries: Seq<(SpecScalar, SpecScalar)>,
    k: SpecScalar,
    v: SpecScalar,
) -> Seq<(SpecScalar, SpecScalar)>
    decreases entries.len(),
{
    if entries.len() == 0 {
        seq![(k, v)]
    } else if entries[0].0 == k {
        seq![(k, v)] + entries.skip(1)
    } else {
        seq![entries[0]] + map_insert(entries.skip(1), k, v)
    }
}

/// How one freshly decoded nested message lands in a message field's
/// storage: optional and required fields are overwritten, repeated fields
/// append.
pub open spec fn apply_msg(label: Label, old: SpecField, msg: SpecMessage) -> SpecField {
    match label {
        Label::Optional => SpecField::OptMsg(Some(msg)),
        Label::Required => SpecField::SingleMsg(msg),
        Label::Repeated => SpecField::MsgList(old->MsgList_0.push(msg)),
    }
}

/// The index of the field answering to `tag`, if any.
pub open spec fn find_field(d: MessageDescriptor, tag: u32) -> Option<int> {
    if exists|i: int|
        0 <= i < d.fields@.len() && (#[trigger] d.fields@[i]).spec_tags().contains(tag) {
        Some(
            choose|i: int|
                0 <= i < d.fields@.len() && (#[trigger] d.fields@[i]).spec_tags().contains(tag),
        )
    } else {
        None
    }
}

/// The functional mirror of decoding the records inside one map entry:
/// key under tag 1, value under tag 2, later occurrences overwriting
/// earlier ones, unknown tags skipped without interpretation.
pub open spec fn entry_records(
    pf: mapping::Field,
    s: Seq<u8>,
    k: SpecScalar,
    v: SpecScalar,
) -> Result<(SpecScalar, SpecScalar), DecodeError>
    decreases s.len(),
    via entry_records_decreases
{
    if s.len() == 0 {
        Ok((k, v))
    } else {
        match crate::wire::tag_prefix(s) {
            Ok(((tag, wt), l)) => {
                if tag == 1 {
                    if wt != pf.key_ty.wire_shape() {
                        Err(DecodeError::UnexpectedWireType)
                    } else {
                        match scalar::scalar_prefix(pf.key_ty, s.skip(l)) {
                            Ok((k2, used)) => entry_records(pf, s.skip(l + used), k2, v),
                            Err(e) => Err(e),
                        }
                    }
                } else if tag == 2 {
                    if wt != pf.value_ty.wire_shape() {
                        Err(DecodeError::UnexpectedWireType)
                    } else {
                        match scalar::scalar_prefix(pf.value_ty, s.skip(l)) {
                            Ok((v2, used)) => entry_records(pf, s.skip(l + used), k, v2),
                            Err(e) => Err(e),
                        }
                    }
                } else {
                    match skip_prefix(wt, s.skip(l)) {
                        Ok(used) => entry_records(pf, s.skip(l + used), k, v),
                        Err(e) => Err(e),
                    }
                }
            },
            Err(e) => Err(e),
        }
    }
}

#[via_fn]
proof fn entry_records_decreases(pf: mapping::Field, s: Seq<u8>, k: SpecScalar, v: SpecScalar) {
    crate::wire::lemma_varint_prefix_ok(s, 0);
    match crate::wire::tag_prefix(s) {
        Ok(((tag, wt), l)) => {
            scalar::lemma_scalar_prefix_ok(pf.key_ty, s.skip(l));
            scalar::lemma_scalar_prefix_ok(pf.value_ty, s.skip(l));
            lemma_skip_prefix_ok(wt, s.skip(l));
        },
        Err(_) => {},
    }
}

/// The functional mirror of merging one wire record for field `f` (already
/// identified by `tag`, arriving with wire type `wt`) into storage `old`;
/// `s` holds the bytes from the record's value onward, and `limit` bounds
/// the remaining nested-message depth.
pub open spec fn message_merge_field(
    f: Field,
    tag: u32,
    wt: WireType,
    s: Seq<u8>,
    old: SpecField,
    limit: nat,
) -> Result<(SpecField, int), DecodeError>
    decreases limit, s.len(), 1int,
    via message_merge_field_decreases
{
    match f {
        Field::Scalar(sf) => scalar::merge_spec(sf, wt, s, old),
        Field::Message(mf) => {
            if wt != WireType::LengthDelimited {
                Err(DecodeError::UnexpectedWireType)
            } else {
                match crate::wire::varint_prefix(s, 0) {
                    Ok(l) => {
                        let n = crate::wire::varint_int(s.take(l));
                        if n <= s.len() - l {
                            if limit == 0 {
                                Err(DecodeError::RecursionLimitExceeded)
                            } else {
                                match message_records(
                                    mf.nested,
                                    message_default(mf.nested),
                                    s.subrange(l, l + n),
                                    (limit - 1) as nat,
                                ) {
                                    Ok(msg) => Ok((apply_msg(mf.label, old, msg), l + n)),
                                    Err(e) => Err(e),
                                }
                            }
                        } else {
                            Err(DecodeError::Truncated)
                        }
                    },
                    Err(e) => Err(e),
                }
            }
        },
        Field::Mapping(pf) => {
            if wt != WireType::LengthDelimited {
                Err(DecodeError::UnexpectedWireType)
            } else {
                match crate::wire::varint_prefix(s, 0) {
                    Ok(l) => {
                        let n = crate::wire::varint_int(s.take(l));
                        if n <= s.len() - l {
                            match entry_records(
                                pf,
                                s.subrange(l, l + n),
                                scalar::spec_zero_value(pf.key_ty),
                                scalar::spec_zero_value(pf.value_ty),
                            ) {
                                Ok((k, v)) => Ok(
                                    (
                                        SpecField::Mapping(map_insert(old->Mapping_0, k, v)),
                                        l + n,
                                    ),
                                ),
                                Err(e) => Err(e),
                            }
                        } else {
                            Err(DecodeError::Truncated)
                        }
                    },
                    Err(e) => Err(e),
                }
            }
        },
        Field::Oneof(of) => match of.variant_index(tag) {
            Some(i) => match of.variants@[i].kind {
                VariantKind::Scalar(ty) => {
                    if wt != ty.wire_shape() {
                        Err(DecodeError::UnexpectedWireType)
                    } else {
                        match scalar::scalar_prefix(ty, s) {
                            Ok((v, l)) => Ok(
                                (SpecField::Oneof(Some((tag, SpecOneof::Scalar(v)))), l),
                            ),
                            Err(e) => Err(e),
                        }
                    }
                },
                VariantKind::Message(d) => {
                    if wt != WireType::LengthDelimited {
                        Err(DecodeError::UnexpectedWireType)
                    } else {
                        match crate::wire::varint_prefix(s, 0) {
                            Ok(l) => {
                                let n = crate::wire::varint_int(s.take(l));
                                if n <= s.len() - l {
                                    if limit == 0 {
                                        Err(DecodeError::RecursionLimitExceeded)
                                    } else {
                                        match message_records(
                                            d,
                                            message_default(d),
                                            s.subrange(l, l + n),
                                            (limit - 1) as nat,
                                        ) {
                                            Ok(msg) => Ok(
                                                (
                                                    SpecField::Oneof(
                                                        Some((tag, SpecOneof::Message(msg))),
                                                    ),
                                                    l + n,
                                                ),
                                            ),
                                            Err(e) => Err(e),
                                        }
                                    }
                                } else {
                                    Err(DecodeError::Truncated)
                                }
                            },
                            Err(e) => Err(e),
                        }
                    }
                },
            },
            None => Err(DecodeError::UnexpectedWireType),
        },
    }
}

#[via_fn]
proof fn message_merge_field_decreases(
    f: Field,
    tag: u32,
    wt: WireType,
    s: Seq<u8>,
    old: SpecField,
    limit: nat,
) {
    crate::wire::lemma_varint_prefix_ok(s, 0);
    match crate::wire::varint_prefix(s, 0) {
        Ok(l) => {
            crate::wire::lemma_varint_int_range(s.take(l));
        },
        Err(_) => {},
    }
}

/// A successful field merge consumes at least one byte and never more than
/// the buffer.
pub proof fn lemma_message_merge_field_ok(
    f: Field,
    tag: u32,
    wt: WireType,
    s: Seq<u8>,
    old: SpecField,
    limit: nat,
)
    ensures
        match message_merge_field(f, tag, wt, s, old, limit) {
            Ok((_, used)) => 1 <= used <= s.len(),
            Err(_) => true,
        },
{
    crate::wire::lemma_varint_prefix_ok(s, 0);
    match crate::wire::varint_prefix(s, 0) {
        Ok(l) => {
            crate::wire::lemma_varint_int_range(s.take(l));
        },
        Err(_) => {},
    }
    match f {
        Field::Scalar(sf) => {
            scalar::lemma_merge_spec_ok(sf, wt, s, old);
        },
        Field::Oneof(of) => match of.variant_index(tag) {
            Some(i) => match of.variants@[i].kind {
                VariantKind::Scalar(ty) => {
                    scalar::lemma_scalar_prefix_ok(ty, s);
                },
                VariantKind::Message(_) => {},
            },
            None => {},
        },
        _ => {},
    }
}

/// The functional mirror of the whole-message decode loop over `s`: read a
/// tag, dispatch to the owning field's merge or retain the record as an
/// unknown field, and continue until the buffer is exhausted.
pub open spec fn message_records(
    d: MessageDescriptor,
    m: SpecMessage,
    s: Seq<u8>,
    limit: nat,
) -> Result<SpecMessage, DecodeError>
    decreases limit, s.len(), 2int,
    via message_records_decreases
{
    if s.len() == 0 {
        Ok(m)
    } else {
        match crate::wire::tag_prefix(s) {
            Ok(((tag, wt), l)) => match find_field(d, tag) {
                Some(i) => match message_merge_field(
                    d.fields@[i],
                    tag,
                    wt,
                    s.skip(l),
                    m.fields[i],
                    limit,
                ) {
                    Ok((fv2, used)) => if 1 <= used && l + used <= s.len() {
                        message_records(
                            d,
                            SpecMessage { fields: m.fields.update(i, fv2), unknown: m.unknown },
                            s.skip(l + used),
                            limit,
                        )
                    } else {
                        Err(DecodeError::Truncated)
                    },
                    Err(e) => Err(e),
                },
                None => match skip_prefix(wt, s.skip(l)) {
                    Ok(used) => message_records(
                        d,
                        SpecMessage {
                            fields: m.fields,
                            unknown: m.unknown.push(
                                SpecUnknown { tag, wire_type: wt, bytes: s.skip(l).take(used) },
                            ),
                        },
                        s.skip(l + used),
                        limit,
                    ),
                    Err(e) => Err(e),
                },
            },
            Err(e) => Err(e),
        }
    }
}

#[via_fn]
proof fn message_records_decreases(
    d: MessageDescriptor,
    m: SpecMessage,
    s: Seq<u8>,
    limit: nat,
) {
    crate::wire::lemma_varint_prefix_ok(s, 0);
    match crate::wire::tag_prefix(s) {
        Ok(((tag, wt), l)) => {
            lemma_skip_prefix_ok(wt, s.skip(l));
        },
        Err(_) => {},
    }
}

/// The functional mirror of decoding a whole message from `s`: the decode
/// loop applied to the message's default value.
pub open spec fn message_decode_spec(d: MessageDescriptor, s: Seq<u8>, limit: nat) -> Result<
    SpecMessage,
    DecodeError,
> {
    message_records(d, message_default(d), s, limit)
}

/// Skips one value of wire type `wt` at the start of `window` without
/// interpreting it, returning the number of bytes it occupies.
pub fn skip_value(wt: WireType, window: &[u8]) -> (r: Result<usize, DecodeError>)
    ensures
        match r {
            Ok(used) => skip_prefix(wt, window@) == Ok::<int, DecodeError>(used as int) && 1
                <= used <= window@.len(),
            Err(e) => skip_prefix(wt, window@) == Err::<int, DecodeError>(e),
        },
{
    proof {
        assert(window@.skip(0) =~= window@);
    }
    match wt {
        WireType::Varint => {
            match crate::wire::decode_varint(window, 0) {
                Ok((n, end)) => {
                    proof {
                        crate::wire::lemma_varint_prefix_bridge(
                            window@,
                            0,
                            Ok::<(u64, int), DecodeError>((n, end as int)),
                        );
                    }
                    Ok(end)
                },
                Err(e) => {
                    proof {
                        crate::wire::lemma_varint_prefix_bridge(
                            window@,
                            0,
                            Err::<(u64, int), DecodeError>(e),
                        );
                    }
                    Err(e)
                },
            }
        },
        WireType::Fixed64 => {
            if window.len() >= 8 {
                Ok(8)
            } else {
                Err(DecodeError::Truncated)
            }
        },
        WireType::Fixed32 => {
            if window.len() >= 4 {
                Ok(4)
            } else {
                Err(DecodeError::Truncated)
            }
        },
        WireType::LengthDelimited => {
            match crate::wire::decode_len_prefix(window, 0) {
                Ok((start, end)) => {
                    proof {
                        crate::wire::lemma_varint_prefix_bridge(
                            window@,
                            0,
                            Ok::<(u64, int), DecodeError>(((end - start) as u64, start as int)),
                        );
                        assert(window@.take(start as int) =~= window@.subrange(0, start as int));
                    }
                    Ok(end)
                },
                Err(e) => {
                    proof {
                        scalar::lemma_len_prefix_err_at(window@, 0, e);
                    }
                    Err(e)
                },
            }
        },
    }
}

impl MessageDescriptor {
    /// Returns the index of the field answering to `tag`, if any.
    pub fn find_field_index(&self, tag: u32) -> (r: Option<usize>)
        requires
            self.wf(),
        ensures
            match r {
                Some(i) => find_field(*self, tag) == Some(i as int),
                None => find_field(*self, tag) is None,
            },
    {
        let n = self.fields.len();
        let mut i: usize = 0;
        while i < n
            invariant
                0 <= i <= n == self.fields@.len(),
                self.wf(),
                forall|k: int|
                    0 <= k < i ==> !(#[trigger] self.fields@[k]).spec_tags().contains(tag),
            decreases n - i,
        {
            let tags = self.fields[i].tags();
            let mut t: usize = 0;
            while t < tags.len()
                invariant
                    0 <= t <= tags@.len(),
                    0 <= i < n == self.fields@.len(),
                    self.wf(),
                    tags@ == self.fields@[i as int].spec_tags(),
                    forall|k: int| 0 <= k < t ==> tags@[k] != tag,
                decreases tags@.len() - t,
            {
                if tags[t] == tag {
                    proof {
                        assert(self.fields@[i as int].spec_tags().contains(tag));
                        let j = choose|j: int|
                            0 <= j < self.fields@.len() && (
                            #[trigger] self.fields@[j]).spec_tags().contains(tag);
                        if j != i {
                            let tj = choose|tj: int|
                                0 <= tj < self.fields@[j].spec_tags().len()
                                    && self.fields@[j].spec_tags()[tj] == tag;
                            assert(self.fields@[j].spec_tags()[tj] == tag);
                            assert(self.fields@[i as int].spec_tags()[t as int] == tag);
                        }
                    }
                    return Some(i);
                }
                t = t + 1;
            }
            proof {
                assert(!self.fields@[i as int].spec_tags().contains(tag));
            }
            i = i + 1;
        }
        None
    }
}

/// When the key is already present, insertion updates it in place.
proof fn lemma_map_insert_found(
    entries: Seq<(SpecScalar, SpecScalar)>,
    k: SpecScalar,
    v: SpecScalar,
    i: int,
)
    requires
        0 <= i < entries.len(),
        entries[i].0 == k,
        forall|j: int| 0 <= j < i ==> (#[trigger] entries[j]).0 != k,
    ensures
        map_insert(entries, k, v) == entries.update(i, (k, v)),
    decreases entries.len(),
{
    if i == 0 {
        assert(map_insert(entries, k, v) =~= entries.update(0, (k, v)));
    } else {
        assert forall|j: int| 0 <= j < i - 1 implies (#[trigger] entries.skip(1)[j]).0 != k by {
            assert(entries.skip(1)[j] == entries[j + 1]);
        }
        lemma_map_insert_found(entries.skip(1), k, v, i - 1);
        assert(map_insert(entries, k, v) =~= entries.update(i, (k, v)));
    }
}

/// When the key is absent, insertion appends.
proof fn lemma_map_insert_absent(entries: Seq<(SpecScalar, SpecScalar)>, k: SpecScalar, v: SpecScalar)
    requires
        forall|j: int| 0 <= j < entries.len() ==> (#[trigger] entries[j]).0 != k,
    ensures
        map_insert(entries, k, v) == entries.push((k, v)),
    decreases entries.len(),
{
    if entries.len() == 0 {
        assert(map_insert(entries, k, v) =~= entries.push((k, v)));
    } else {
        assert forall|j: int| 0 <= j < entries.skip(1).len() implies (#[trigger] entries.skip(1)[
        j]).0 != k by {
            assert(entries.skip(1)[j] == entries[j + 1]);
        }
        lemma_map_insert_absent(entries.skip(1), k, v);
        assert(map_insert(entries, k, v) =~= entries.push((k, v)));
    }
}

/// Inserts a key/value pair into a map field's entry list: the last
/// occurrence of a key wins, earlier occurrences are overwritten in place.
pub fn insert_pair(
    entries: &mut Vec<(crate::value::ScalarValue, crate::value::ScalarValue)>,
    k: crate::value::ScalarValue,
    v: crate::value::ScalarValue,
)
    ensures
        crate::value::pairs_view(final(entries)@) == map_insert(
            crate::value::pairs_view(old(entries)@),
            k@,
            v@,
        ),
{
    let ghost old_views = crate::value::pairs_view(old(entries)@);
    let n = entries.len();
    let mut i: usize = 0;
    while i < n
        invariant
            *entries == *old(entries),
            0 <= i <= n == entries@.len(),
            old_views == crate::value::pairs_view(entries@),
            old_views.len() == n,
            forall|j: int| 0 <= j < i ==> (#[trigger] old_views[j]).0 != k@,
        decreases n - i,
    {
        proof {
            assert(crate::value::pairs_view(entries@).len() == entries@.len());
            assert(crate::value::pairs_view(entries@)[i as int] == (
                entries@[i as int].0@,
                entries@[i as int].1@,
            ));
            assert(old_views[i as int] == crate::value::pairs_view(entries@)[i as int]);
        }
        let same_key = {
            let es: &Vec<(crate::value::ScalarValue, crate::value::ScalarValue)> = &*entries;
            crate::value::scalar_eq(&es[i].0, &k)
        };
        if same_key {
            proof {
                assert(old_views[i as int].0 == k@);
                lemma_map_insert_found(old_views, k@, v@, i as int);
            }
            entries[i] = (crate::value::scalar_clone(&k), crate::value::scalar_clone(&v));
            proof {
                assert(crate::value::pairs_view(entries@) =~= old_views.update(
                    i as int,
                    (k@, v@),
                ));
                assert(crate::value::pairs_view(entries@) == map_insert(old_views, k@, v@));
            }
            return ;
        }
        i = i + 1;
    }
    entries.push((crate::value::scalar_clone(&k), crate::value::scalar_clone(&v)));
    proof {
        lemma_map_insert_absent(old_views, k@, v@);
        assert(crate::value::pairs_view(entries@) =~= old_views.push((k@, v@)));
    }
}

/// Decodes the records inside one framed map entry, starting from the zero
/// key and zero value.
#[verifier::rlimit(50)]
pub fn decode_entry(pf: &mapping::Field, window: &[u8]) -> (r: Result<
    (crate::value::ScalarValue, crate::value::ScalarValue),
    DecodeError,
>)
    ensures
        match r {
            Ok((k, v)) => {
                &&& entry_records(
                    *pf,
                    window@,
                    scalar::spec_zero_value(pf.key_ty),
                    scalar::spec_zero_value(pf.value_ty),
                ) == Ok::<_, DecodeError>((k@, v@))
                &&& scalar::value_shape(pf.key_ty, k@)
                &&& scalar::value_shape(pf.value_ty, v@)
            },
            Err(e) => entry_records(
                *pf,
                window@,
                scalar::spec_zero_value(pf.key_ty),
                scalar::spec_zero_value(pf.value_ty),
            ) == Err::<(SpecScalar, SpecScalar), _>(e),
        },
{
    let mut k = pf.key_ty.zero_value();
    let mut v = pf.value_ty.zero_value();
    let len = window.len();
    let mut pos: usize = 0;
    proof {
        assert(window@.skip(0) =~= window@);
    }
    while pos < len
        invariant
            0 <= pos <= len == window@.len(),
            scalar::value_shape(pf.key_ty, k@),
            scalar::value_shape(pf.value_ty, v@),
            entry_records(
                *pf,
                window@,
                scalar::spec_zero_value(pf.key_ty),
                scalar::spec_zero_value(pf.value_ty),
            ) == entry_records(*pf, window@.skip(pos as int), k@, v@),
        decreases len - pos,
    {
        let ghost s = window@.skip(pos as int);
        let ((tag, wt), l_end) = match crate::wire::decode_tag(window, pos) {
            Ok(x) => x,
            Err(e) => {
                proof {
                    crate::wire::lemma_tag_prefix_bridge(
                        window@,
                        pos as int,
                        Err::<((u32, WireType), int), DecodeError>(e),
                    );
                }
                return Err(e);
            },
        };
        proof {
            crate::wire::lemma_tag_prefix_bridge(
                window@,
                pos as int,
                Ok::<((u32, WireType), int), DecodeError>(((tag, wt), l_end as int)),
            );
            assert(s.skip(l_end - pos) =~= window@.skip(l_end as int));
        }
        if tag == 1 {
            if !scalar::wire_type_eq(wt, pf.key_ty.wire_type()) {
                return Err(DecodeError::UnexpectedWireType);
            }
            let vwin = vstd::slice::slice_subrange(window, l_end, len);
            proof {
                assert(vwin@ =~= window@.skip(l_end as int));
            }
            match scalar::decode_scalar(&pf.key_ty, vwin) {
                Ok((k2, used)) => {
                    proof {
                        assert(window@.skip(l_end as int).skip(used as int) =~= window@.skip(
                            l_end + used,
                        ));
                        assert(s.skip((l_end - pos) + used as int) =~= window@.skip(l_end + used));
                    }
                    k = k2;
                    pos = l_end + used;
                },
                Err(e) => {
                    return Err(e);
                },
            }
        } else if tag == 2 {
            if !scalar::wire_type_eq(wt, pf.value_ty.wire_type()) {
                return Err(DecodeError::UnexpectedWireType);
            }
            let vwin = vstd::slice::slice_subrange(window, l_end, len);
            proof {
                assert(vwin@ =~= window@.skip(l_end as int));
            }
            match scalar::decode_scalar(&pf.value_ty, vwin) {
                Ok((v2, used)) => {
                    proof {
                        assert(window@.skip(l_end as int).skip(used as int) =~= window@.skip(
                            l_end + used,
                        ));
                        assert(s.skip((l_end - pos) + used as int) =~= window@.skip(l_end + used));
                    }
                    v = v2;
                    pos = l_end + used;
                },
                Err(e) => {
                    return Err(e);
                },
            }
        } else {
            let vwin = vstd::slice::slice_subrange(window, l_end, len);
            proof {
                assert(vwin@ =~= window@.skip(l_end as int));
            }
            match skip_value(wt, vwin) {
                Ok(used) => {
                    proof {
                        assert(window@.skip(l_end as int).skip(used as int) =~= window@.skip(
                            l_end + used,
                        ));
                        assert(s.skip((l_end - pos) + used as int) =~= window@.skip(l_end + used));
                    }
                    pos = l_end + used;
                },
                Err(e) => {
                    return Err(e);
                },
            }
        }
    }
    proof {
        assert(window@.skip(len as int) =~= Seq::<u8>::empty());
    }
    Ok((k, v))
}

/// Every element of an inserted entry list is either the new pair or one of
/// the old entries.
proof fn lemma_map_insert_elems(entries: Seq<(SpecScalar, SpecScalar)>, k: SpecScalar, v: SpecScalar)
    ensures
        forall|i: int|
            0 <= i < map_insert(entries, k, v).len() ==> (#[trigger] map_insert(entries, k, v)[i]
                == (k, v) || exists|j: int|
                0 <= j < entries.len() && entries[j] == map_insert(entries, k, v)[i]),
    decreases entries.len(),
{
    let r = map_insert(entries, k, v);
    if entries.len() == 0 {
    } else if entries[0].0 == k {
        assert forall|i: int| 0 <= i < r.len() implies (#[trigger] r[i] == (k, v) || exists|j: int|
            0 <= j < entries.len() && entries[j] == r[i]) by {
            if i > 0 {
                assert(r[i] == entries.skip(1)[i - 1]);
                assert(entries[i] == r[i]);
            }
        }
    } else {
        lemma_map_insert_elems(entries.skip(1), k, v);
        let r2 = map_insert(entries.skip(1), k, v);
        assert forall|i: int| 0 <= i < r.len() implies (#[trigger] r[i] == (k, v) || exists|j: int|
            0 <= j < entries.len() && entries[j] == r[i]) by {
            if i == 0 {
                assert(entries[0] == r[0]);
            } else {
                assert(r[i] == r2[i - 1]);
                if r2[i - 1] != (k, v) {
                    let j2 = choose|j2: int|
                        0 <= j2 < entries.skip(1).len() && entries.skip(1)[j2] == r2[i - 1];
                    assert(entries[j2 + 1] == r[i]);
                }
            }
        }
    }
}

impl Field {
    /// Merges one wire record for this field (already identified by `tag`,
    /// arriving with wire type `wire_type`) into `value`; the record's value
    /// starts at `pos` and `limit` bounds the remaining nested-message
    /// depth. Returns the position one past the consumed bytes.
    #[verifier::rlimit(60)]
    pub fn merge(
        &self,
        tag: u32,
        wire_type: WireType,
        data: &[u8],
        pos: usize,
        value: &mut FieldValue,
        limit: u32,
    ) -> (r: Result<usize, DecodeError>)
        requires
            self.wf(),
            field_value_wf(*self, old(value)@),
            pos <= data@.len(),
        ensures
            field_value_wf(*self, final(value)@),
            match r {
                Ok(end) => {
                    &&& pos <= end <= data@.len()
                    &&& message_merge_field(
                        *self,
                        tag,
                        wire_type,
                        data@.skip(pos as int),
                        old(value)@,
                        limit as nat,
                    ) == Ok::<_, DecodeError>((final(value)@, end - pos))
                },
                Err(e) => message_merge_field(
                    *self,
                    tag,
                    wire_type,
                    data@.skip(pos as int),
                    old(value)@,
                    limit as nat,
                ) == Err::<(SpecField, int), _>(e),
            },
        decreases limit, data@.len() - pos, 1int,
    {
        let ghost s = data@.skip(pos as int);
        match self {
            Field::Scalar(sf) => sf.merge(wire_type, data, pos, value),
            Field::Message(mf) => {
                if !scalar::wire_type_eq(wire_type, WireType::LengthDelimited) {
                    return Err(DecodeError::UnexpectedWireType);
                }
                let (start, vend) = match crate::wire::decode_len_prefix(data, pos) {
                    Ok(x) => x,
                    Err(e) => {
                        proof {
                            scalar::lemma_len_prefix_err_at(data@, pos as int, e);
                        }
                        return Err(e);
                    },
                };
                proof {
                    crate::wire::lemma_varint_prefix_bridge(
                        data@,
                        pos as int,
                        Ok::<(u64, int), DecodeError>(((vend - start) as u64, start as int)),
                    );
                    assert(s.take(start - pos) =~= data@.subrange(pos as int, start as int));
                }
                if limit == 0 {
                    return Err(DecodeError::RecursionLimitExceeded);
                }
                let window = vstd::slice::slice_subrange(data, start, vend);
                proof {
                    assert(window@ =~= s.subrange(start - pos, start - pos + (vend - start)));
                }
                let mut inner = mf.nested.default_value();
                match mf.nested.merge_from(&mut inner, window, limit - 1) {
                    Ok(()) => {},
                    Err(e) => {
                        return Err(e);
                    },
                }
                match &mf.label {
                    Label::Optional => {
                        *value = FieldValue::OptMsg(Some(Box::new(inner)));
                    },
                    Label::Required => {
                        *value = FieldValue::SingleMsg(Box::new(inner));
                    },
                    Label::Repeated => {
                        let ghost before_list = old(value)@->MsgList_0;
                        match value {
                            FieldValue::MsgList(ms) => {
                                proof {
                                    crate::value::lemma_messages_view_index(ms@);
                                }
                                ms.push(inner);
                                proof {
                                    crate::value::lemma_messages_view_index(ms@);
                                }
                            },
                            _ => {
                                proof {
                                    assert(false);
                                }
                            },
                        }
                        proof {
                            assert(value@->MsgList_0 =~= before_list.push(inner@));
                            assert forall|i: int|
                                0 <= i < value@->MsgList_0.len() implies message_value_wf(
                                mf.nested,
                                #[trigger] value@->MsgList_0[i],
                            ) by {
                                if i < before_list.len() {
                                    assert(message_value_wf(mf.nested, before_list[i]));
                                } else {
                                    assert(value@->MsgList_0[i] == inner@);
                                }
                            }
                        }
                    },
                }
                Ok(vend)
            },
            Field::Mapping(pf) => {
                if !scalar::wire_type_eq(wire_type, WireType::LengthDelimited) {
                    return Err(DecodeError::UnexpectedWireType);
                }
                let (start, vend) = match crate::wire::decode_len_prefix(data, pos) {
                    Ok(x) => x,
                    Err(e) => {
                        proof {
                            scalar::lemma_len_prefix_err_at(data@, pos as int, e);
                        }
                        return Err(e);
                    },
                };
                proof {
                    crate::wire::lemma_varint_prefix_bridge(
                        data@,
                        pos as int,
                        Ok::<(u64, int), DecodeError>(((vend - start) as u64, start as int)),
                    );
                    assert(s.take(start - pos) =~= data@.subrange(pos as int, start as int));
                }
                let window = vstd::slice::slice_subrange(data, start, vend);
                proof {
                    assert(window@ =~= s.subrange(start - pos, start - pos + (vend - start)));
                }
                let (k, v) = match decode_entry(pf, window) {
                    Ok(x) => x,
                    Err(e) => {
                        return Err(e);
                    },
                };
                let ghost before_entries = old(value)@->Mapping_0;
                match value {
                    FieldValue::Mapping(es) => {
                        insert_pair(es, k, v);
                    },
                    _ => {
                        proof {
                            assert(false);
                        }
                    },
                }
                proof {
                    assert(value@->Mapping_0 == map_insert(before_entries, k@, v@));
                    lemma_map_insert_elems(before_entries, k@, v@);
                    assert forall|i: int|
                        0 <= i < value@->Mapping_0.len() implies scalar::value_shape(
                        pf.key_ty,
                        (#[trigger] value@->Mapping_0[i]).0,
                    ) && scalar::value_shape(pf.value_ty, value@->Mapping_0[i].1) by {
                        if value@->Mapping_0[i] != (k@, v@) {
                            let j = choose|j: int|
                                0 <= j < before_entries.len() && before_entries[j]
                                    == value@->Mapping_0[i];
                            assert(scalar::value_shape(pf.key_ty, before_entries[j].0));
                        }
                    }
                }
                Ok(vend)
            },
            Field::Oneof(of) => {
                let idx = match of.find_variant(tag) {
                    Some(i) => i,
                    None => {
                        return Err(DecodeError::UnexpectedWireType);
                    },
                };
                match &of.variants[idx].kind {
                    VariantKind::Scalar(ty) => {
                        if !scalar::wire_type_eq(wire_type, ty.wire_type()) {
                            return Err(DecodeError::UnexpectedWireType);
                        }
                        let window = vstd::slice::slice_subrange(data, pos, data.len());
                        proof {
                            assert(window@ =~= s);
                        }
                        match scalar::decode_scalar(ty, window) {
                            Ok((v, used)) => {
                                *value = FieldValue::Oneof(
                                    Some((tag, crate::value::OneofValue::Scalar(v))),
                                );
                                Ok(pos + used)
                            },
                            Err(e) => Err(e),
                        }
                    },
                    VariantKind::Message(d) => {
                        if !scalar::wire_type_eq(wire_type, WireType::LengthDelimited) {
                            return Err(DecodeError::UnexpectedWireType);
                        }
                        let (start, vend) = match crate::wire::decode_len_prefix(data, pos) {
                            Ok(x) => x,
                            Err(e) => {
                                proof {
                                    scalar::lemma_len_prefix_err_at(data@, pos as int, e);
                                }
                                return Err(e);
                            },
                        };
                        proof {
                            crate::wire::lemma_varint_prefix_bridge(
                                data@,
                                pos as int,
                                Ok::<(u64, int), DecodeError>(
                                    ((vend - start) as u64, start as int),
                                ),
                            );
                            assert(s.take(start - pos) =~= data@.subrange(
                                pos as int,
                                start as int,
                            ));
                        }
                        if limit == 0 {
                            return Err(DecodeError::RecursionLimitExceeded);
                        }
                        let window = vstd::slice::slice_subrange(data, start, vend);
                        proof {
                            assert(window@ =~= s.subrange(
                                start - pos,
                                start - pos + (vend - start),
                            ));
                            assert(decreases_to!(
                                limit, data@.len() - pos, 1int =>
                                (limit - 1) as u32, window@.len(), 2int
                            ));
                        }
                        let mut inner = d.default_value();
                        match d.merge_from(&mut inner, window, limit - 1) {
                            Ok(()) => {
                                *value = FieldValue::Oneof(
                                    Some((tag, crate::value::OneofValue::Message(Box::new(inner)))),
                                );
                                Ok(vend)
                            },
                            Err(e) => Err(e),
                        }
                    },
                }
            },
        }
    }
}

impl MessageDescriptor {
    /// Decodes the byte stream `data` into `m`, merging each record into the
    /// field owning its tag and retaining records with unknown tags. `limit`
    /// bounds the nested-message depth.
    ///
    /// A failed decode aborts immediately; `m` keeps a well-formed shape but
    /// may hold the partial merges made before the failure, so a caller
    /// discards it on error.
    pub fn merge_from(&self, m: &mut MessageValue, data: &[u8], limit: u32) -> (r: Result<
        (),
        DecodeError,
    >)
        requires
            self.wf(),
            message_value_wf(*self, old(m)@),
        ensures
            message_value_wf(*self, final(m)@),
            match r {
                Ok(()) => message_records(*self, old(m)@, data@, limit as nat) == Ok::<
                    _,
                    DecodeError,
                >(final(m)@),
                Err(e) => message_records(*self, old(m)@, data@, limit as nat) == Err::<
                    SpecMessage,
                    _,
                >(e),
            },
        decreases limit, data@.len(), 2int,
    {
        let len = data.len();
        let mut pos: usize = 0;
        proof {
            assert(data@.skip(0) =~= data@);
        }
        while pos < len
            invariant
                0 <= pos <= len == data@.len(),
                self.wf(),
                message_value_wf(*self, m@),
                message_records(*self, old(m)@, data@, limit as nat) == message_records(
                    *self,
                    m@,
                    data@.skip(pos as int),
                    limit as nat,
                ),
            decreases len - pos,
        {
            let ghost s = data@.skip(pos as int);
            let ghost m_prev = m@;
            let ((tag, wt), tend) = match crate::wire::decode_tag(data, pos) {
                Ok(x) => x,
                Err(e) => {
                    proof {
                        crate::wire::lemma_tag_prefix_bridge(
                            data@,
                            pos as int,
                            Err::<((u32, WireType), int), DecodeError>(e),
                        );
                    }
                    return Err(e);
                },
            };
            proof {
                crate::wire::lemma_tag_prefix_bridge(
                    data@,
                    pos as int,
                    Ok::<((u32, WireType), int), DecodeError>(((tag, wt), tend as int)),
                );
                assert(s.skip(tend - pos) =~= data@.skip(tend as int));
            }
            match self.find_field_index(tag) {
                Some(i) => {
                    proof {
                        crate::value::lemma_fields_view_index(m.fields@);
                        assert(0 <= i < self.fields@.len());
                        assert(m.fields@.len() == self.fields@.len());
                        assert(field_value_wf(self.fields@[i as int], m@.fields[i as int]));
                    }
                    let fv = &mut m.fields[i];
                    let end = match self.fields[i].merge(tag, wt, data, tend, fv, limit) {
                        Ok(end) => end,
                        Err(e) => {
                            proof {
                                crate::value::lemma_fields_view_index(m.fields@);
                                assert forall|q: int|
                                    0 <= q < m@.fields.len() implies field_value_wf(
                                    self.fields@[q],
                                    #[trigger] m@.fields[q],
                                ) by {
                                    if q != i {
                                        assert(m@.fields[q] == m_prev.fields[q]);
                                    }
                                }
                                assert(message_records(
                                    *self,
                                    m_prev,
                                    data@.skip(pos as int),
                                    limit as nat,
                                ) == Err::<SpecMessage, DecodeError>(e));
                            }
                            return Err(e);
                        },
                    };
                    proof {
                        let used = end - tend;
                        lemma_message_merge_field_ok(
                            self.fields@[i as int],
                            tag,
                            wt,
                            data@.skip(tend as int),
                            m_prev.fields[i as int],
                            limit as nat,
                        );
                        crate::value::lemma_fields_view_index(m.fields@);
                        assert(m@.fields =~= m_prev.fields.update(i as int, m@.fields[i as int]));
                        assert(SpecMessage {
                            fields: m_prev.fields.update(i as int, m@.fields[i as int]),
                            unknown: m_prev.unknown,
                        } == m@);
                        assert(data@.skip(tend as int).skip(used) =~= data@.skip(end as int));
                        assert(s.skip((tend - pos) + used) =~= data@.skip(end as int));
                        assert forall|q: int|
                            0 <= q < m@.fields.len() implies field_value_wf(
                            self.fields@[q],
                            #[trigger] m@.fields[q],
                        ) by {
                            if q != i {
                                assert(m@.fields[q] == m_prev.fields[q]);
                            }
                        }
                    }
                    pos = end;
                },
                None => {
                    let window = vstd::slice::slice_subrange(data, tend, len);
                    proof {
                        assert(window@ =~= data@.skip(tend as int));
                    }
                    let used = match skip_value(wt, window) {
                        Ok(u) => u,
                        Err(e) => {
                            return Err(e);
                        },
                    };
                    let bytes = crate::wire::read_bytes(data, tend, tend + used);
                    proof {
                        assert(bytes@ =~= data@.skip(tend as int).take(used as int));
                    }
                    let ghost u_before = crate::value::unknowns_view(m.unknown@);
                    m.unknown.push(
                        crate::value::UnknownField { tag, wire_type: wt, bytes },
                    );
                    proof {
                        assert(crate::value::unknowns_view(m.unknown@) =~= u_before.push(
                            SpecUnknown {
                                tag,
                                wire_type: wt,
                                bytes: data@.skip(tend as int).take(used as int),
                            },
                        ));
                        assert(SpecMessage {
                            fields: m_prev.fields,
                            unknown: m_prev.unknown.push(
                                SpecUnknown {
                                    tag,
                                    wire_type: wt,
                                    bytes: s.skip(tend - pos).take(used as int),
                                },
                            ),
                        } == m@);
                        assert(data@.skip(tend as int).skip(used as int) =~= data@.skip(
                            tend + used,
                        ));
                        assert(s.skip((tend - pos) + used) =~= data@.skip(tend + used));
                    }
                    pos = tend + used;
                },
            }
        }
        proof {
            assert(data@.skip(len as int) =~= Seq::<u8>::empty());
        }
        Ok(())
    }

    /// Returns the number of bytes `encode` would append for `m`, by
    /// measuring into a scratch buffer.
    pub fn encoded_len(&self, m: &MessageValue) -> (r: usize)
        requires
            self.wf(),
            message_value_wf(*self, m@),
        ensures
            r == message_bytes(*self, m@).len(),
    {
        let mut buf: Vec<u8> = Vec::new();
        self.encode(m, &mut buf);
        buf.len()
    }

    /// Decodes a whole message from `data`: every byte is consumed, records
    /// with unknown tags are retained verbatim, and `limit` bounds the
    /// nested-message depth against adversarial nesting.
    pub fn decode(&self, data: &[u8], limit: u32) -> (r: Result<MessageValue, DecodeError>)
        requires
            self.wf(),
        ensures
            match r {
                Ok(m) => message_decode_spec(*self, data@, limit as nat) == Ok::<_, DecodeError>(
                    m@,
                ) && message_value_wf(*self, m@),
                Err(e) => message_decode_spec(*self, data@, limit as nat) == Err::<
                    SpecMessage,
                    _,
                >(e),
            },
    {
        let mut m = self.default_value();
        match self.merge_from(&mut m, data, limit) {
            Ok(()) => Ok(m),
            Err(e) => Err(e),
        }
    }
}

#[via_fn]
proof fn field_any_bytes_decreases(f: Field, fv: SpecField) {
    match f {
        Field::Message(mf) => {
            match mf.label {
                Label::Optional => {
                    if fv is OptMsg && fv->OptMsg_0 is Some {
                        assert(decreases_to!(fv, 3int => fv->OptMsg_0->0, 2int)) by {
                            assert(decreases_to!(fv => fv->OptMsg_0));
                            assert(decreases_to!(fv->OptMsg_0 => fv->OptMsg_0->0));
                        }
                    }
                },
                Label::Required => {
                    if fv is SingleMsg {
                        assert(decreases_to!(fv, 3int => fv->SingleMsg_0, 2int)) by {
                            assert(decreases_to!(fv => fv->SingleMsg_0));
                        }
                    }
                },
                Label::Repeated => {
                    if fv is MsgList {
                        assert(decreases_to!(fv, 3int => fv->MsgList_0, 3int)) by {
                            assert(decreases_to!(fv => fv->MsgList_0));
                        }
                    }
                },
            }
        },
        Field::Oneof(_) => {
            if fv is Oneof && fv->Oneof_0 is Some {
                let tup = fv->Oneof_0->0;
                assert(decreases_to!(fv, 3int => tup.1, 3int)) by {
                    assert(decreases_to!(fv => fv->Oneof_0));
                    assert(decreases_to!(fv->Oneof_0 => tup));
                    assert(decreases_to!(tup => tup.1));
                }
            }
        },
        _ => {},
    }
}

} // verus!
