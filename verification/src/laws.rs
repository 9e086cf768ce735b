//! The laws of the codec: round-trip, default elision, unknown-field
//! preservation, packed/unpacked interoperability, oneof last-writer-wins
//! and conversion-hook transparency, each stated over the specification
//! functions that the executable operations are verified against.

use vstd::prelude::*;

use crate::codec::{
    field_any_bytes, message_bytes, message_merge_field, message_records, skip_prefix,
    unknowns_bytes, MessageDescriptor,
};
use crate::error::DecodeError;
use crate::field::scalar::{
    self, accepts_packed, cleared, field_bytes, merge_spec, packed_payload, packed_prefix,
    repeated_bytes, scalar_bytes, scalar_prefix, value_shape, SpecKind, Ty,
};
use crate::field::Field;
use crate::value::{SpecField, SpecMessage, SpecScalar, SpecUnknown};
use crate::wire::{
    lemma_tag_prefix_canonical, lemma_varint_prefix_canonical, len_delim_bytes, tag_bytes,
    tag_prefix, varint_bytes, WireType,
};

verus! {

/// A canonical scalar value at the start of a stream decodes back to itself
/// and consumes exactly its own bytes, whatever follows.
pub proof fn lemma_scalar_prefix_canonical(ty: Ty, v: SpecScalar, rest: Seq<u8>)
    requires
        value_shape(ty, v),
        v is Bytes ==> v->Bytes_0.len() <= 0xffffffffffffffff,
    ensures
        scalar_prefix(ty, scalar_bytes(ty, v) + rest) == Ok::<(SpecScalar, int), DecodeError>(
            (v, scalar_bytes(ty, v).len() as int),
        ),
{
    let b = scalar_bytes(ty, v);
    let s = b + rest;
    scalar::lemma_numeric_round_trip(ty, v);
    match ty.wire_shape() {
        WireType::Varint => {
            let n = scalar::scalar_wire64(ty, v);
            lemma_varint_prefix_canonical(n, rest);
            assert(s == varint_bytes(n) + rest);
            assert(crate::wire::varint_prefix(s, 0) == Ok::<int, DecodeError>(b.len() as int));
            assert(crate::wire::varint_int(s.take(b.len() as int)) == n);
            assert(scalar::wire64_to_scalar(ty, n) == v);
            assert(scalar_prefix(ty, s) == Ok::<(SpecScalar, int), DecodeError>((
                v,
                b.len() as int,
            )));
        },
        WireType::Fixed32 => {
            let bits = scalar::scalar_bits32(ty, v);
            assert(s.take(4) =~= crate::wire::le4_bytes(bits));
            crate::wire::lemma_le4_round_trip(bits);
            assert(scalar_prefix(ty, s) == Ok::<(SpecScalar, int), DecodeError>((
                v,
                b.len() as int,
            )));
        },
        WireType::Fixed64 => {
            let bits = scalar::scalar_bits64(ty, v);
            assert(s.take(8) =~= crate::wire::le8_bytes(bits));
            crate::wire::lemma_le8_round_trip(bits);
            assert(scalar_prefix(ty, s) == Ok::<(SpecScalar, int), DecodeError>((
                v,
                b.len() as int,
            )));
        },
        WireType::LengthDelimited => {
            let payload = v->Bytes_0;
            let lb = varint_bytes(payload.len() as u64);
            assert(b =~= lb + payload);
            assert(s =~= lb + (payload + rest));
            lemma_varint_prefix_canonical(payload.len() as u64, payload + rest);
            let l = lb.len() as int;
            assert(s.take(l) =~= (lb + (payload + rest)).take(l));
            assert(s.subrange(l, l + payload.len()) =~= payload);
            assert(v == SpecScalar::Bytes(payload));
            assert(b.len() == l + payload.len());
            assert(crate::wire::varint_int(s.take(l)) == payload.len());
            assert(scalar_prefix(ty, s) == Ok::<(SpecScalar, int), DecodeError>((
                v,
                b.len() as int,
            )));
        },
    }
}

/// LAW (round trip, single occurrence): merging the encoding of one scalar
/// value into a field's storage yields exactly the value, in the slot the
/// field's kind prescribes; what follows the record is untouched.
pub proof fn lemma_merge_one_scalar(sf: scalar::Field, v: SpecScalar, old: SpecField, rest: Seq<u8>)
    requires
        sf.wf(),
        value_shape(sf.ty, v),
        v is Bytes ==> v->Bytes_0.len() <= 0xffffffffffffffff,
        sf.value_wf(old),
    ensures
        merge_spec(sf, sf.ty.wire_shape(), scalar_bytes(sf.ty, v) + rest, old) == Ok::<
            (SpecField, int),
            DecodeError,
        >(
            (
                match sf.kind@ {
                    SpecKind::Plain(_) => SpecField::Single(v),
                    SpecKind::Required(_) => SpecField::Single(v),
                    SpecKind::Optional(_) => SpecField::Opt(Some(v)),
                    SpecKind::Repeated => SpecField::List(old->List_0.push(v)),
                    SpecKind::Packed => SpecField::List(old->List_0.push(v)),
                },
                scalar_bytes(sf.ty, v).len() as int,
            ),
        ),
{
    lemma_scalar_prefix_canonical(sf.ty, v, rest);
    assert(!accepts_packed(sf, sf.ty.wire_shape()));
}

/// A packed payload decodes back to exactly its element sequence.
pub proof fn lemma_packed_payload_round_trip(ty: Ty, vs: Seq<SpecScalar>)
    requires
        ty.spec_is_numeric(),
        forall|i: int| 0 <= i < vs.len() ==> value_shape(ty, #[trigger] vs[i]),
    ensures
        packed_prefix(ty, packed_payload(ty, vs)) == Ok::<Seq<SpecScalar>, DecodeError>(vs),
    decreases vs.len(),
{
    if vs.len() == 0 {
        assert(packed_payload(ty, vs) =~= Seq::<u8>::empty());
        assert(vs =~= Seq::<SpecScalar>::empty());
        assert(packed_prefix(ty, packed_payload(ty, vs)) == Ok::<Seq<SpecScalar>, DecodeError>(
            Seq::empty(),
        ));
    } else {
        let tail = packed_payload(ty, vs.skip(1));
        lemma_scalar_prefix_canonical(ty, vs[0], tail);
        assert forall|i: int| 0 <= i < vs.skip(1).len() implies value_shape(
            ty,
            #[trigger] vs.skip(1)[i],
        ) by {
            assert(vs.skip(1)[i] == vs[i + 1]);
        }
        lemma_packed_payload_round_trip(ty, vs.skip(1));
        let s = packed_payload(ty, vs);
        let b0 = scalar_bytes(ty, vs[0]);
        assert(s == b0 + tail);
        scalar::lemma_scalar_prefix_ok(ty, s);
        assert(s.skip(b0.len() as int) =~= tail);
        assert(scalar_prefix(ty, s) == Ok::<(SpecScalar, int), DecodeError>((
            vs[0],
            b0.len() as int,
        )));
        assert(packed_prefix(ty, s.skip(b0.len() as int)) == Ok::<Seq<SpecScalar>, DecodeError>(
            vs.skip(1),
        ));
        assert(s.len() > 0);
        assert(packed_prefix(ty, s) == Ok::<Seq<SpecScalar>, DecodeError>(
            seq![vs[0]] + vs.skip(1),
        ));
        assert(seq![vs[0]] + vs.skip(1) =~= vs);
    }
}

/// Merging one packed record into repeated storage appends the whole run.
pub proof fn lemma_packed_merge(
    sf: scalar::Field,
    vs: Seq<SpecScalar>,
    old: Seq<SpecScalar>,
    rest: Seq<u8>,
)
    requires
        sf.wf(),
        sf.kind@ is Repeated || sf.kind@ is Packed,
        sf.ty.spec_is_numeric(),
        forall|i: int| 0 <= i < vs.len() ==> value_shape(sf.ty, #[trigger] vs[i]),
        packed_payload(sf.ty, vs).len() <= 0xffffffffffffffff,
    ensures
        merge_spec(
            sf,
            WireType::LengthDelimited,
            len_delim_bytes(packed_payload(sf.ty, vs)) + rest,
            SpecField::List(old),
        ) == Ok::<(SpecField, int), DecodeError>(
            (
                SpecField::List(old + vs),
                len_delim_bytes(packed_payload(sf.ty, vs)).len() as int,
            ),
        ),
{
    let payload = packed_payload(sf.ty, vs);
    let lb = varint_bytes(payload.len() as u64);
    let s = len_delim_bytes(payload) + rest;
    assert(s =~= lb + (payload + rest));
    lemma_varint_prefix_canonical(payload.len() as u64, payload + rest);
    let l = lb.len() as int;
    assert(s.take(l) =~= (lb + (payload + rest)).take(l));
    assert(s.subrange(l, l + payload.len()) =~= payload);
    lemma_packed_payload_round_trip(sf.ty, vs);
    assert(accepts_packed(sf, WireType::LengthDelimited));
}

/// The single-field record decoder used by the round-trip laws: reads tag
/// after tag, demands that each names this field, and folds the field's
/// merge over the records.
pub open spec fn scalar_field_records_fold(
    sf: scalar::Field,
    fv: SpecField,
    s: Seq<u8>,
) -> Result<SpecField, DecodeError>
    decreases s.len(),
    via scalar_field_records_fold_decreases
{
    if s.len() == 0 {
        Ok(fv)
    } else {
        match tag_prefix(s) {
            Ok(((tag, wt), l)) => {
                if tag != sf.tag {
                    Err(DecodeError::UnexpectedWireType)
                } else {
                    match merge_spec(sf, wt, s.skip(l), fv) {
                        Ok((fv2, used)) => {
                            if 1 <= used && l + used <= s.len() {
                                scalar_field_records_fold(sf, fv2, s.skip(l + used))
                            } else {
                                Err(DecodeError::Truncated)
                            }
                        },
                        Err(e) => Err(e),
                    }
                }
            },
            Err(e) => Err(e),
        }
    }
}

#[via_fn]
proof fn scalar_field_records_fold_decreases(sf: scalar::Field, fv: SpecField, s: Seq<u8>) {
    crate::wire::lemma_varint_prefix_ok(s, 0);
}

/// Element shapes carry over to the tail of a sequence.
proof fn lemma_shapes_skip(ty: Ty, vs: Seq<SpecScalar>)
    requires
        vs.len() > 0,
        forall|i: int| 0 <= i < vs.len() ==> value_shape(ty, #[trigger] vs[i]),
        forall|i: int|
            0 <= i < vs.len() ==> ((#[trigger] vs[i]) is Bytes ==> vs[i]->Bytes_0.len()
                <= 0xffffffffffffffff),
    ensures
        forall|i: int| 0 <= i < vs.skip(1).len() ==> value_shape(ty, #[trigger] vs.skip(1)[i]),
        forall|i: int|
            0 <= i < vs.skip(1).len() ==> ((#[trigger] vs.skip(1)[i]) is Bytes ==> vs.skip(
                1,
            )[i]->Bytes_0.len() <= 0xffffffffffffffff),
{
    assert forall|i: int| 0 <= i < vs.skip(1).len() implies value_shape(
        ty,
        #[trigger] vs.skip(1)[i],
    ) && ((vs.skip(1)[i]) is Bytes ==> vs.skip(1)[i]->Bytes_0.len() <= 0xffffffffffffffff) by {
        assert(vs.skip(1)[i] == vs[i + 1]);
        assert(value_shape(ty, vs[i + 1]));
    }
}

/// Element shapes carry over to a sequence extended by a shaped element.
proof fn lemma_shapes_push(ty: Ty, acc: Seq<SpecScalar>, v: SpecScalar)
    requires
        value_shape(ty, v),
        forall|i: int| 0 <= i < acc.len() ==> value_shape(ty, #[trigger] acc[i]),
    ensures
        forall|i: int| 0 <= i < acc.push(v).len() ==> value_shape(ty, #[trigger] acc.push(v)[i]),
{
    assert forall|i: int| 0 <= i < acc.push(v).len() implies value_shape(
        ty,
        #[trigger] acc.push(v)[i],
    ) by {
        if i < acc.len() {
            assert(value_shape(ty, acc[i]));
        } else {
            assert(acc.push(v)[i] == v);
        }
    }
}

/// Folding the records of a repeated field appends its elements in order,
/// never replacing what the storage already holds.
#[verifier::rlimit(100)]
pub proof fn lemma_repeated_fold(sf: scalar::Field, vs: Seq<SpecScalar>, acc: Seq<SpecScalar>)
    requires
        sf.wf(),
        sf.kind@ is Repeated || sf.kind@ is Packed,
        forall|i: int| 0 <= i < vs.len() ==> value_shape(sf.ty, #[trigger] vs[i]),
        forall|i: int|
            0 <= i < vs.len() ==> ((#[trigger] vs[i]) is Bytes ==> vs[i]->Bytes_0.len()
                <= 0xffffffffffffffff),
        forall|i: int| 0 <= i < acc.len() ==> value_shape(sf.ty, #[trigger] acc[i]),
    ensures
        scalar_field_records_fold(sf, SpecField::List(acc), repeated_bytes(sf.ty, sf.tag, vs))
            == Ok::<SpecField, DecodeError>(SpecField::List(acc + vs)),
    decreases vs.len(),
{
    let s = repeated_bytes(sf.ty, sf.tag, vs);
    if vs.len() == 0 {
        assert(s =~= Seq::<u8>::empty());
        assert(acc + vs =~= acc);
    } else {
        let b0 = scalar_bytes(sf.ty, vs[0]);
        let tb = tag_bytes(sf.tag, sf.ty.wire_shape());
        let rest = repeated_bytes(sf.ty, sf.tag, vs.skip(1));
        assert(s == tb + (b0 + rest));
        lemma_tag_prefix_canonical(sf.tag, sf.ty.wire_shape(), b0 + rest);
        assert(s.skip(tb.len() as int) =~= b0 + rest);
        lemma_merge_one_scalar(sf, vs[0], SpecField::List(acc), rest);
        assert((b0 + rest).skip(b0.len() as int) =~= rest);
        assert(s.skip(tb.len() + b0.len() as int) =~= rest);
        lemma_shapes_skip(sf.ty, vs);
        let acc2 = acc.push(vs[0]);
        lemma_shapes_push(sf.ty, acc, vs[0]);
        lemma_repeated_fold(sf, vs.skip(1), acc2);
        assert(acc2 + vs.skip(1) =~= acc + vs);
        crate::wire::lemma_varint_bytes_wf(crate::wire::tag_value(sf.tag, sf.ty.wire_shape()));
        scalar::lemma_scalar_prefix_ok(sf.ty, b0 + rest);
    }
}

/// LAW (round trip): folding the encoding of a scalar field, of any
/// presence kind, into a freshly cleared field yields exactly the encoded
/// storage: a plain field at its default stays at the default, present and
/// required values come back as themselves, and repeated and packed fields
/// recover their whole element sequence.
pub proof fn lemma_scalar_field_round_trip(sf: scalar::Field, fv: SpecField)
    requires
        sf.wf(),
        sf.value_wf(fv),
        fv matches SpecField::Single(v) ==> (v is Bytes ==> v->Bytes_0.len()
            <= 0xffffffffffffffff),
        fv matches SpecField::Opt(o) ==> (o matches Some(v) ==> (v is Bytes ==> v->Bytes_0.len()
            <= 0xffffffffffffffff)),
        fv matches SpecField::List(vs) ==> forall|i: int|
            0 <= i < vs.len() ==> ((#[trigger] vs[i]) is Bytes ==> vs[i]->Bytes_0.len()
                <= 0xffffffffffffffff),
        fv matches SpecField::List(vs) ==> packed_payload(sf.ty, vs).len()
            <= 0xffffffffffffffff,
    ensures
        scalar_field_records_fold(sf, cleared(sf), field_bytes(sf, fv)) == Ok::<
            SpecField,
            DecodeError,
        >(fv),
{
    let s = field_bytes(sf, fv);
    crate::wire::lemma_varint_bytes_wf(crate::wire::tag_value(sf.tag, sf.ty.wire_shape()));
    match sf.kind@ {
        SpecKind::Plain(d) => {
            let v = fv->Single_0;
            if v == d {
                assert(s =~= Seq::<u8>::empty());
                assert(fv == SpecField::Single(d));
                assert(scalar_field_records_fold(sf, cleared(sf), Seq::<u8>::empty()) == Ok::<
                    SpecField,
                    DecodeError,
                >(cleared(sf)));
            } else {
                lemma_one_record_fold(sf, v);
                assert(fv == SpecField::Single(v));
            }
        },
        SpecKind::Required(_) => {
            let v = fv->Single_0;
            lemma_one_record_fold(sf, v);
            assert(fv == SpecField::Single(v));
        },
        SpecKind::Optional(_) => {
            match fv->Opt_0 {
                None => {
                    assert(s =~= Seq::<u8>::empty());
                    assert(fv == SpecField::Opt(None::<SpecScalar>));
                    assert(scalar_field_records_fold(sf, cleared(sf), Seq::<u8>::empty()) == Ok::<
                        SpecField,
                        DecodeError,
                    >(cleared(sf)));
                },
                Some(v) => {
                    lemma_one_record_fold(sf, v);
                    assert(fv == SpecField::Opt(Some(v)));
                },
            }
        },
        SpecKind::Repeated => {
            let vs = fv->List_0;
            lemma_repeated_fold(sf, vs, Seq::empty());
            assert(Seq::<SpecScalar>::empty() + vs =~= vs);
            assert(fv == SpecField::List(vs));
            assert(scalar_field_records_fold(sf, SpecField::List(Seq::empty()), s) == Ok::<
                SpecField,
                DecodeError,
            >(SpecField::List(vs)));
            assert(cleared(sf) == SpecField::List(Seq::<SpecScalar>::empty()));
        },
        SpecKind::Packed => {
            let vs = fv->List_0;
            if vs.len() == 0 {
                assert(s =~= Seq::<u8>::empty());
                assert(fv == SpecField::List(vs));
                assert(vs =~= Seq::<SpecScalar>::empty());
                assert(scalar_field_records_fold(sf, cleared(sf), Seq::<u8>::empty()) == Ok::<
                    SpecField,
                    DecodeError,
                >(cleared(sf)));
                assert(cleared(sf) == SpecField::List(Seq::<SpecScalar>::empty()));
            } else {
                let tb = tag_bytes(sf.tag, WireType::LengthDelimited);
                let frame = len_delim_bytes(packed_payload(sf.ty, vs));
                assert(s == tb + (frame + Seq::<u8>::empty()));
                lemma_tag_prefix_canonical(sf.tag, WireType::LengthDelimited, frame);
                assert(tb + frame =~= tb + (frame + Seq::<u8>::empty()));
                assert(s.skip(tb.len() as int) =~= frame + Seq::<u8>::empty());
                lemma_packed_merge(sf, vs, Seq::empty(), Seq::empty());
                assert(frame + Seq::<u8>::empty() =~= frame);
                assert(s.skip(tb.len() + frame.len() as int) =~= Seq::<u8>::empty());
                crate::wire::lemma_varint_bytes_wf(
                    crate::wire::tag_value(sf.tag, WireType::LengthDelimited),
                );
                crate::wire::lemma_varint_bytes_wf(packed_payload(sf.ty, vs).len() as u64);
                assert(Seq::<SpecScalar>::empty() + vs =~= vs);
                assert(fv == SpecField::List(vs));
                assert(cleared(sf) == SpecField::List(Seq::<SpecScalar>::empty()));
                assert(scalar_field_records_fold(
                    sf,
                    SpecField::List(vs),
                    Seq::<u8>::empty(),
                ) == Ok::<SpecField, DecodeError>(SpecField::List(vs)));
                assert(s.len() == tb.len() + frame.len());
            }
        },
    }
}

/// One tagged record of a singular field folds to exactly its value.
proof fn lemma_one_record_fold(sf: scalar::Field, v: SpecScalar)
    requires
        sf.wf(),
        value_shape(sf.ty, v),
        v is Bytes ==> v->Bytes_0.len() <= 0xffffffffffffffff,
        sf.kind@ is Plain || sf.kind@ is Required || sf.kind@ is Optional,
    ensures
        scalar_field_records_fold(
            sf,
            cleared(sf),
            tag_bytes(sf.tag, sf.ty.wire_shape()) + scalar_bytes(sf.ty, v),
        ) == Ok::<SpecField, DecodeError>(
            match sf.kind@ {
                SpecKind::Optional(_) => SpecField::Opt(Some(v)),
                _ => SpecField::Single(v),
            },
        ),
{
    let tb = tag_bytes(sf.tag, sf.ty.wire_shape());
    let b = scalar_bytes(sf.ty, v);
    let s = tb + b;
    assert(s == tb + (b + Seq::<u8>::empty())) by {
        assert(b + Seq::<u8>::empty() =~= b);
    }
    lemma_tag_prefix_canonical(sf.tag, sf.ty.wire_shape(), b);
    assert(s.skip(tb.len() as int) =~= b + Seq::<u8>::empty());
    lemma_merge_one_scalar(sf, v, cleared(sf), Seq::empty());
    assert(s.skip(tb.len() + b.len() as int) =~= Seq::<u8>::empty());
    crate::wire::lemma_varint_bytes_wf(crate::wire::tag_value(sf.tag, sf.ty.wire_shape()));
    scalar::lemma_scalar_prefix_ok(sf.ty, b + Seq::<u8>::empty());
    let result = match sf.kind@ {
        SpecKind::Optional(_) => SpecField::Opt(Some(v)),
        _ => SpecField::Single(v),
    };
    assert(merge_spec(sf, sf.ty.wire_shape(), s.skip(tb.len() as int), cleared(sf)) == Ok::<
        (SpecField, int),
        DecodeError,
    >((result, b.len() as int)));
    assert(scalar_field_records_fold(sf, result, Seq::<u8>::empty()) == Ok::<
        SpecField,
        DecodeError,
    >(result));
    assert(s.len() == tb.len() + b.len());
    assert(scalar_field_records_fold(sf, cleared(sf), s) == Ok::<SpecField, DecodeError>(result));
}

/// LAW (packed/unpacked interoperability): for a repeated numeric field,
/// the packed encoding and the unpacked encoding of the same element
/// sequence fold to the same storage; and folding either into storage that
/// already holds elements appends to it, never replaces it.
pub proof fn lemma_packed_unpacked_interop(
    sf: scalar::Field,
    vs: Seq<SpecScalar>,
    old: Seq<SpecScalar>,
)
    requires
        sf.wf(),
        sf.kind@ is Repeated || sf.kind@ is Packed,
        sf.ty.spec_is_numeric(),
        forall|i: int| 0 <= i < vs.len() ==> value_shape(sf.ty, #[trigger] vs[i]),
        forall|i: int| 0 <= i < old.len() ==> value_shape(sf.ty, #[trigger] old[i]),
        packed_payload(sf.ty, vs).len() <= 0xffffffffffffffff,
        vs.len() > 0,
    ensures
        scalar_field_records_fold(
            sf,
            SpecField::List(old),
            tag_bytes(sf.tag, WireType::LengthDelimited) + len_delim_bytes(
                packed_payload(sf.ty, vs),
            ),
        ) == Ok::<SpecField, DecodeError>(SpecField::List(old + vs)),
        scalar_field_records_fold(
            sf,
            SpecField::List(old),
            repeated_bytes(sf.ty, sf.tag, vs),
        ) == Ok::<SpecField, DecodeError>(SpecField::List(old + vs)),
{
    assert forall|i: int|
        0 <= i < vs.len() implies ((#[trigger] vs[i]) is Bytes ==> vs[i]->Bytes_0.len()
        <= 0xffffffffffffffff) by {
        assert(value_shape(sf.ty, vs[i]));
    }
    lemma_repeated_fold(sf, vs, old);
    let tb = tag_bytes(sf.tag, WireType::LengthDelimited);
    let frame = len_delim_bytes(packed_payload(sf.ty, vs));
    let s = tb + frame;
    assert(s == tb + (frame + Seq::<u8>::empty())) by {
        assert(frame + Seq::<u8>::empty() =~= frame);
    }
    lemma_tag_prefix_canonical(sf.tag, WireType::LengthDelimited, frame);
    assert(s.skip(tb.len() as int) =~= frame + Seq::<u8>::empty());
    lemma_packed_merge(sf, vs, old, Seq::empty());
    assert(s.skip(tb.len() + frame.len() as int) =~= Seq::<u8>::empty());
    crate::wire::lemma_varint_bytes_wf(crate::wire::tag_value(sf.tag, WireType::LengthDelimited));
    crate::wire::lemma_varint_bytes_wf(packed_payload(sf.ty, vs).len() as u64);
    assert(scalar_field_records_fold(sf, SpecField::List(old + vs), Seq::<u8>::empty()) == Ok::<
        SpecField,
        DecodeError,
    >(SpecField::List(old + vs)));
    assert(s.len() == tb.len() + frame.len());
    assert(scalar_field_records_fold(sf, SpecField::List(old), s) == Ok::<SpecField, DecodeError>(
        SpecField::List(old + vs),
    ));
}

/// LAW (round trip, oneof variant): merging the record of a scalar oneof
/// variant yields exactly that variant, live with the encoded value,
/// whatever was live before.
pub proof fn lemma_oneof_scalar_round_trip(
    of: crate::field::oneof::Field,
    tag: u32,
    v: SpecScalar,
    old: SpecField,
    rest: Seq<u8>,
    limit: nat,
)
    requires
        of.wf(),
        of.variant_index(tag) matches Some(i) && of.variants@[i].kind matches
            crate::field::oneof::VariantKind::Scalar(ty) && value_shape(ty, v) && (v is Bytes
            ==> v->Bytes_0.len() <= 0xffffffffffffffff),
    ensures
        ({
            let i = of.variant_index(tag)->0;
            let ty = of.variants@[i].kind->Scalar_0;
            message_merge_field(
                Field::Oneof(of),
                tag,
                ty.wire_shape(),
                scalar_bytes(ty, v) + rest,
                old,
                limit,
            ) == Ok::<(SpecField, int), DecodeError>(
                (
                    SpecField::Oneof(Some((tag, crate::value::SpecOneof::Scalar(v)))),
                    scalar_bytes(ty, v).len() as int,
                ),
            )
        }),
{
    let i = of.variant_index(tag)->0;
    let ty = of.variants@[i].kind->Scalar_0;
    lemma_scalar_prefix_canonical(ty, v, rest);
}

/// LAW (round trip, map entry): decoding the payload of one encoded map
/// entry recovers exactly its key and value; a key or value at its zero
/// value is elided on the wire and read back as the zero value.
pub proof fn lemma_entry_round_trip(pf: crate::field::mapping::Field, k: SpecScalar, v: SpecScalar)
    requires
        pf.wf(),
        value_shape(pf.key_ty, k),
        value_shape(pf.value_ty, v),
        k is Bytes ==> k->Bytes_0.len() <= 0xffffffffffffffff,
        v is Bytes ==> v->Bytes_0.len() <= 0xffffffffffffffff,
    ensures
        crate::codec::entry_records(
            pf,
            crate::codec::entry_payload(pf, k, v),
            scalar::spec_zero_value(pf.key_ty),
            scalar::spec_zero_value(pf.value_ty),
        ) == Ok::<(SpecScalar, SpecScalar), DecodeError>((k, v)),
{
    let kz = scalar::spec_zero_value(pf.key_ty);
    let vz = scalar::spec_zero_value(pf.value_ty);
    let kb = crate::codec::plain_field_bytes(pf.key_ty, 1, k);
    let vb = crate::codec::plain_field_bytes(pf.value_ty, 2, v);
    let s = crate::codec::entry_payload(pf, k, v);
    assert(s == kb + vb);
    scalar::lemma_zero_value_shape(pf.key_ty);
    scalar::lemma_zero_value_shape(pf.value_ty);
    // The value half of the payload decodes on its own, from any key state.
    lemma_entry_value_half(pf, v, k);
    lemma_entry_value_half(pf, v, kz);
    if k == kz {
        assert(s =~= vb);
    } else {
        let ktb = tag_bytes(1, pf.key_ty.wire_shape());
        let kvb = scalar_bytes(pf.key_ty, k);
        assert(kb == ktb + kvb);
        assert(s =~= ktb + (kvb + vb));
        lemma_tag_prefix_canonical(1, pf.key_ty.wire_shape(), kvb + vb);
        assert(s.skip(ktb.len() as int) =~= kvb + vb);
        lemma_scalar_prefix_canonical(pf.key_ty, k, vb);
        assert((kvb + vb).skip(kvb.len() as int) =~= vb);
        assert(s.skip(ktb.len() + kvb.len() as int) =~= vb);
        crate::wire::lemma_varint_bytes_wf(crate::wire::tag_value(1, pf.key_ty.wire_shape()));
        scalar::lemma_scalar_prefix_ok(pf.key_ty, kvb + vb);
    }
}

/// The value half of a map entry payload decodes from any key state,
/// leaving the key as it stands.
proof fn lemma_entry_value_half(pf: crate::field::mapping::Field, v: SpecScalar, kcur: SpecScalar)
    requires
        pf.wf(),
        value_shape(pf.value_ty, v),
        v is Bytes ==> v->Bytes_0.len() <= 0xffffffffffffffff,
    ensures
        crate::codec::entry_records(
            pf,
            crate::codec::plain_field_bytes(pf.value_ty, 2, v),
            kcur,
            scalar::spec_zero_value(pf.value_ty),
        ) == Ok::<(SpecScalar, SpecScalar), DecodeError>((kcur, v)),
{
    let vz = scalar::spec_zero_value(pf.value_ty);
    let vb = crate::codec::plain_field_bytes(pf.value_ty, 2, v);
    if v == vz {
        assert(vb =~= Seq::<u8>::empty());
    } else {
        let tb = tag_bytes(2, pf.value_ty.wire_shape());
        let b = scalar_bytes(pf.value_ty, v);
        assert(vb == tb + b);
        assert(vb =~= tb + (b + Seq::<u8>::empty()));
        lemma_tag_prefix_canonical(2, pf.value_ty.wire_shape(), b);
        assert(vb.skip(tb.len() as int) =~= b + Seq::<u8>::empty());
        lemma_scalar_prefix_canonical(pf.value_ty, v, Seq::empty());
        assert(vb.skip(tb.len() + b.len() as int) =~= Seq::<u8>::empty());
        crate::wire::lemma_varint_bytes_wf(crate::wire::tag_value(2, pf.value_ty.wire_shape()));
        scalar::lemma_scalar_prefix_ok(pf.value_ty, b + Seq::<u8>::empty());
        assert(crate::codec::entry_records(pf, Seq::<u8>::empty(), kcur, v) == Ok::<
            (SpecScalar, SpecScalar),
            DecodeError,
        >((kcur, v)));
    }
}

/// LAW (round trip, message field, one frame): merging one framed record of
/// a message-kind field lands exactly what the nested schema's decoder
/// makes of the frame: optional and required fields are overwritten with
/// it, repeated fields append it, and the bytes after the frame are
/// untouched.
pub proof fn lemma_message_field_merge(
    mf: crate::field::message::Field,
    payload: Seq<u8>,
    msg: SpecMessage,
    old: SpecField,
    rest: Seq<u8>,
    limit: nat,
)
    requires
        payload.len() <= 0xffffffffffffffff,
        limit >= 1,
        message_records(
            mf.nested,
            crate::codec::message_default(mf.nested),
            payload,
            (limit - 1) as nat,
        ) == Ok::<SpecMessage, DecodeError>(msg),
    ensures
        message_merge_field(
            Field::Message(mf),
            mf.tag,
            WireType::LengthDelimited,
            len_delim_bytes(payload) + rest,
            old,
            limit,
        ) == Ok::<(SpecField, int), DecodeError>(
            (crate::codec::apply_msg(mf.label, old, msg), len_delim_bytes(payload).len() as int),
        ),
{
    lemma_frame_prefix(payload, rest);
}

/// LAW (round trip, oneof message variant, one frame): merging the framed
/// record of a message-kind oneof variant replaces the union with that
/// variant, live with exactly what the nested schema's decoder makes of the
/// frame — whatever variant was live before.
pub proof fn lemma_oneof_message_merge(
    of: crate::field::oneof::Field,
    tag: u32,
    payload: Seq<u8>,
    msg: SpecMessage,
    old: SpecField,
    rest: Seq<u8>,
    limit: nat,
)
    requires
        payload.len() <= 0xffffffffffffffff,
        limit >= 1,
        of.variant_index(tag) matches Some(i) && of.variants@[i].kind matches
            crate::field::oneof::VariantKind::Message(d) && message_records(
            d,
            crate::codec::message_default(d),
            payload,
            (limit - 1) as nat,
        ) == Ok::<SpecMessage, DecodeError>(msg),
    ensures
        message_merge_field(
            Field::Oneof(of),
            tag,
            WireType::LengthDelimited,
            len_delim_bytes(payload) + rest,
            old,
            limit,
        ) == Ok::<(SpecField, int), DecodeError>(
            (
                SpecField::Oneof(Some((tag, crate::value::SpecOneof::Message(msg)))),
                len_delim_bytes(payload).len() as int,
            ),
        ),
{
    lemma_frame_prefix(payload, rest);
}

/// A length-delimited frame at the start of a stream announces exactly its
/// payload, whatever follows.
proof fn lemma_frame_prefix(payload: Seq<u8>, rest: Seq<u8>)
    requires
        payload.len() <= 0xffffffffffffffff,
    ensures
        ({
            let s = len_delim_bytes(payload) + rest;
            let lb = varint_bytes(payload.len() as u64);
            &&& crate::wire::varint_prefix(s, 0) == Ok::<int, DecodeError>(lb.len() as int)
            &&& crate::wire::varint_int(s.take(lb.len() as int)) == payload.len()
            &&& s.subrange(lb.len() as int, lb.len() + payload.len() as int) == payload
            &&& len_delim_bytes(payload).len() == lb.len() + payload.len()
        }),
{
    let lb = varint_bytes(payload.len() as u64);
    let s = len_delim_bytes(payload) + rest;
    assert(s =~= lb + (payload + rest));
    lemma_varint_prefix_canonical(payload.len() as u64, payload + rest);
    assert(s.take(lb.len() as int) =~= (lb + (payload + rest)).take(lb.len() as int));
    assert(s.subrange(lb.len() as int, lb.len() + payload.len() as int) =~= payload);
}

/// Every tag a well-formed field answers to is a legal field number.
pub proof fn lemma_field_tags_in_range(f: Field)
    requires
        f.wf(),
    ensures
        forall|t: int|
            0 <= t < f.spec_tags().len() ==> crate::field::scalar::tag_in_range(
                #[trigger] f.spec_tags()[t],
            ),
{
    match f {
        Field::Oneof(of) => {
            assert forall|t: int|
                0 <= t < f.spec_tags().len() implies crate::field::scalar::tag_in_range(
                #[trigger] f.spec_tags()[t],
            ) by {
                assert(f.spec_tags()[t] == of.variants@[t].tag);
                assert(of.variants@[t].wf());
            }
        },
        _ => {},
    }
}

/// A tag one field answers to names that field and no other.
pub proof fn lemma_find_field_of(d: MessageDescriptor, i: int, tag: u32)
    requires
        d.wf(),
        0 <= i < d.fields@.len(),
        d.fields@[i].spec_tags().contains(tag),
    ensures
        crate::codec::find_field(d, tag) == Some(i),
{
    let j = choose|j: int|
        0 <= j < d.fields@.len() && (#[trigger] d.fields@[j]).spec_tags().contains(tag);
    if j != i {
        let ti = choose|ti: int|
            0 <= ti < d.fields@[i].spec_tags().len() && d.fields@[i].spec_tags()[ti] == tag;
        let tj = choose|tj: int|
            0 <= tj < d.fields@[j].spec_tags().len() && d.fields@[j].spec_tags()[tj] == tag;
        assert(d.fields@[i].spec_tags()[ti] == tag);
        assert(d.fields@[j].spec_tags()[tj] == tag);
    }
}

/// LAW (decode loop, one known record): decoding one record whose tag a
/// field of the schema answers to advances the message by exactly that
/// field's merge — the field's slot takes the merge result, every other
/// slot and the unknown bag stay untouched — and the loop continues on the
/// remaining bytes. Chained with the merge laws, this folds a whole stream
/// record by record.
pub proof fn lemma_known_record_step(
    d: MessageDescriptor,
    m: SpecMessage,
    i: int,
    tag: u32,
    wt: WireType,
    s2: Seq<u8>,
    fv2: SpecField,
    used: int,
    limit: nat,
)
    requires
        d.wf(),
        0 <= i < d.fields@.len(),
        m.fields.len() == d.fields@.len(),
        d.fields@[i].spec_tags().contains(tag),
        message_merge_field(d.fields@[i], tag, wt, s2, m.fields[i], limit) == Ok::<
            (SpecField, int),
            DecodeError,
        >((fv2, used)),
    ensures
        message_records(d, m, tag_bytes(tag, wt) + s2, limit) == message_records(
            d,
            SpecMessage { fields: m.fields.update(i, fv2), unknown: m.unknown },
            s2.skip(used),
            limit,
        ),
{
    lemma_field_tags_in_range(d.fields@[i]);
    let ti = choose|ti: int|
        0 <= ti < d.fields@[i].spec_tags().len() && d.fields@[i].spec_tags()[ti] == tag;
    assert(crate::field::scalar::tag_in_range(d.fields@[i].spec_tags()[ti]));
    let tb = tag_bytes(tag, wt);
    let s = tb + s2;
    lemma_tag_prefix_canonical(tag, wt, s2);
    crate::wire::lemma_varint_bytes_wf(crate::wire::tag_value(tag, wt));
    assert(s.skip(tb.len() as int) =~= s2);
    lemma_find_field_of(d, i, tag);
    crate::codec::lemma_message_merge_field_ok(d.fields@[i], tag, wt, s2, m.fields[i], limit);
    assert(s.skip(tb.len() + used) =~= s2.skip(used));
}

/// The records of a repeated scalar field, decoded by the message loop,
/// append its elements to the field's slot and leave the loop at the
/// remaining bytes.
proof fn lemma_repeated_records_in_message(
    d: MessageDescriptor,
    i: int,
    sf: scalar::Field,
    vs: Seq<SpecScalar>,
    acc: Seq<SpecScalar>,
    m: SpecMessage,
    rest: Seq<u8>,
    limit: nat,
)
    requires
        d.wf(),
        0 <= i < d.fields@.len(),
        m.fields.len() == d.fields@.len(),
        d.fields@[i] == Field::Scalar(sf),
        sf.kind@ is Repeated || sf.kind@ is Packed,
        m.fields[i] == SpecField::List(acc),
        forall|k: int| 0 <= k < vs.len() ==> value_shape(sf.ty, #[trigger] vs[k]),
        forall|k: int|
            0 <= k < vs.len() ==> ((#[trigger] vs[k]) is Bytes ==> vs[k]->Bytes_0.len()
                <= 0xffffffffffffffff),
        forall|k: int| 0 <= k < acc.len() ==> value_shape(sf.ty, #[trigger] acc[k]),
    ensures
        message_records(d, m, repeated_bytes(sf.ty, sf.tag, vs) + rest, limit) == message_records(
            d,
            SpecMessage { fields: m.fields.update(i, SpecField::List(acc + vs)), unknown: m.unknown },
            rest,
            limit,
        ),
    decreases vs.len(),
{
    if vs.len() == 0 {
        assert(repeated_bytes(sf.ty, sf.tag, vs) + rest =~= rest);
        assert(acc + vs =~= acc);
        assert(m.fields.update(i, SpecField::List(acc)) =~= m.fields);
        assert(SpecMessage {
            fields: m.fields.update(i, SpecField::List(acc + vs)),
            unknown: m.unknown,
        } == m);
    } else {
        let b0 = scalar_bytes(sf.ty, vs[0]);
        let tail = repeated_bytes(sf.ty, sf.tag, vs.skip(1));
        let s2 = b0 + (tail + rest);
        assert(repeated_bytes(sf.ty, sf.tag, vs) + rest =~= tag_bytes(sf.tag, sf.ty.wire_shape())
            + s2);
        assert(Field::Scalar(sf).spec_tags().contains(sf.tag)) by {
            assert(Field::Scalar(sf).spec_tags()[0] == sf.tag);
        }
        lemma_merge_one_scalar(sf, vs[0], SpecField::List(acc), tail + rest);
        lemma_known_record_step(
            d,
            m,
            i,
            sf.tag,
            sf.ty.wire_shape(),
            s2,
            SpecField::List(acc.push(vs[0])),
            b0.len() as int,
            limit,
        );
        assert(s2.skip(b0.len() as int) =~= tail + rest);
        let m2 = SpecMessage {
            fields: m.fields.update(i, SpecField::List(acc.push(vs[0]))),
            unknown: m.unknown,
        };
        lemma_shapes_skip(sf.ty, vs);
        lemma_shapes_push(sf.ty, acc, vs[0]);
        assert(m2.fields[i] == SpecField::List(acc.push(vs[0])));
        lemma_repeated_records_in_message(d, i, sf, vs.skip(1), acc.push(vs[0]), m2, rest, limit);
        assert(acc.push(vs[0]) + vs.skip(1) =~= acc + vs);
        assert(m2.fields.update(i, SpecField::List(acc + vs)) =~= m.fields.update(
            i,
            SpecField::List(acc + vs),
        ));
    }
}

/// LAW (round trip through the decode loop): the message decoder, fed the
/// encoding of one scalar field of any presence kind into a message whose
/// slot for that field is cleared, sets the slot to exactly the encoded
/// storage, touches nothing else, and continues on the remaining bytes.
#[verifier::rlimit(100)]
pub proof fn lemma_scalar_field_records_in_message(
    d: MessageDescriptor,
    i: int,
    sf: scalar::Field,
    fv: SpecField,
    m: SpecMessage,
    rest: Seq<u8>,
    limit: nat,
)
    requires
        d.wf(),
        0 <= i < d.fields@.len(),
        m.fields.len() == d.fields@.len(),
        d.fields@[i] == Field::Scalar(sf),
        m.fields[i] == cleared(sf),
        sf.value_wf(fv),
        fv matches SpecField::Single(v) ==> (v is Bytes ==> v->Bytes_0.len()
            <= 0xffffffffffffffff),
        fv matches SpecField::Opt(o) ==> (o matches Some(v) ==> (v is Bytes ==> v->Bytes_0.len()
            <= 0xffffffffffffffff)),
        fv matches SpecField::List(vs) ==> forall|k: int|
            0 <= k < vs.len() ==> ((#[trigger] vs[k]) is Bytes ==> vs[k]->Bytes_0.len()
                <= 0xffffffffffffffff),
        fv matches SpecField::List(vs) ==> packed_payload(sf.ty, vs).len()
            <= 0xffffffffffffffff,
    ensures
        message_records(d, m, field_bytes(sf, fv) + rest, limit) == message_records(
            d,
            SpecMessage { fields: m.fields.update(i, fv), unknown: m.unknown },
            rest,
            limit,
        ),
{
    assert(sf.wf()) by {
        assert(d.fields@[i].wf());
    }
    assert(Field::Scalar(sf).spec_tags().contains(sf.tag)) by {
        assert(Field::Scalar(sf).spec_tags()[0] == sf.tag);
    }
    let s = field_bytes(sf, fv);
    match sf.kind@ {
        SpecKind::Plain(dflt) => {
            let v = fv->Single_0;
            if v == dflt {
                assert(s =~= Seq::<u8>::empty());
                assert(s + rest =~= rest);
                assert(fv == SpecField::Single(dflt));
                assert(m.fields.update(i, fv) =~= m.fields);
                assert(SpecMessage { fields: m.fields.update(i, fv), unknown: m.unknown } == m);
            } else {
                lemma_merge_one_scalar(sf, v, cleared(sf), rest);
                assert(s + rest =~= tag_bytes(sf.tag, sf.ty.wire_shape()) + (scalar_bytes(
                    sf.ty,
                    v,
                ) + rest));
                lemma_known_record_step(
                    d,
                    m,
                    i,
                    sf.tag,
                    sf.ty.wire_shape(),
                    scalar_bytes(sf.ty, v) + rest,
                    SpecField::Single(v),
                    scalar_bytes(sf.ty, v).len() as int,
                    limit,
                );
                assert((scalar_bytes(sf.ty, v) + rest).skip(scalar_bytes(sf.ty, v).len() as int)
                    =~= rest);
                assert(fv == SpecField::Single(v));
            }
        },
        SpecKind::Required(_) => {
            let v = fv->Single_0;
            lemma_merge_one_scalar(sf, v, cleared(sf), rest);
            assert(s + rest =~= tag_bytes(sf.tag, sf.ty.wire_shape()) + (scalar_bytes(sf.ty, v)
                + rest));
            lemma_known_record_step(
                d,
                m,
                i,
                sf.tag,
                sf.ty.wire_shape(),
                scalar_bytes(sf.ty, v) + rest,
                SpecField::Single(v),
                scalar_bytes(sf.ty, v).len() as int,
                limit,
            );
            assert((scalar_bytes(sf.ty, v) + rest).skip(scalar_bytes(sf.ty, v).len() as int)
                =~= rest);
            assert(fv == SpecField::Single(v));
        },
        SpecKind::Optional(_) => {
            match fv->Opt_0 {
                None => {
                    assert(s =~= Seq::<u8>::empty());
                    assert(s + rest =~= rest);
                    assert(fv == SpecField::Opt(None::<SpecScalar>));
                    assert(m.fields.update(i, fv) =~= m.fields);
                    assert(SpecMessage { fields: m.fields.update(i, fv), unknown: m.unknown }
                        == m);
                },
                Some(v) => {
                    lemma_merge_one_scalar(sf, v, cleared(sf), rest);
                    assert(s + rest =~= tag_bytes(sf.tag, sf.ty.wire_shape()) + (scalar_bytes(
                        sf.ty,
                        v,
                    ) + rest));
                    lemma_known_record_step(
                        d,
                        m,
                        i,
                        sf.tag,
                        sf.ty.wire_shape(),
                        scalar_bytes(sf.ty, v) + rest,
                        SpecField::Opt(Some(v)),
                        scalar_bytes(sf.ty, v).len() as int,
                        limit,
                    );
                    assert((scalar_bytes(sf.ty, v) + rest).skip(
                        scalar_bytes(sf.ty, v).len() as int,
                    ) =~= rest);
                    assert(fv == SpecField::Opt(Some(v)));
                },
            }
        },
        SpecKind::Repeated => {
            let vs = fv->List_0;
            assert forall|k: int| 0 <= k < vs.len() implies value_shape(
                sf.ty,
                #[trigger] vs[k],
            ) by {
                assert(sf.value_wf(fv));
            }
            lemma_repeated_records_in_message(d, i, sf, vs, Seq::empty(), m, rest, limit);
            assert(Seq::<SpecScalar>::empty() + vs =~= vs);
            assert(fv == SpecField::List(vs));
        },
        SpecKind::Packed => {
            let vs = fv->List_0;
            assert forall|k: int| 0 <= k < vs.len() implies value_shape(
                sf.ty,
                #[trigger] vs[k],
            ) by {
                assert(sf.value_wf(fv));
            }
            if vs.len() == 0 {
                assert(s =~= Seq::<u8>::empty());
                assert(s + rest =~= rest);
                assert(vs =~= Seq::<SpecScalar>::empty());
                assert(fv == SpecField::List(vs));
                assert(m.fields.update(i, fv) =~= m.fields);
                assert(SpecMessage { fields: m.fields.update(i, fv), unknown: m.unknown } == m);
            } else {
                let frame = len_delim_bytes(packed_payload(sf.ty, vs));
                lemma_packed_merge(sf, vs, Seq::empty(), rest);
                assert(s + rest =~= tag_bytes(sf.tag, WireType::LengthDelimited) + (frame
                    + rest));
                lemma_known_record_step(
                    d,
                    m,
                    i,
                    sf.tag,
                    WireType::LengthDelimited,
                    frame + rest,
                    SpecField::List(Seq::<SpecScalar>::empty() + vs),
                    frame.len() as int,
                    limit,
                );
                assert((frame + rest).skip(frame.len() as int) =~= rest);
                assert(Seq::<SpecScalar>::empty() + vs =~= vs);
                assert(fv == SpecField::List(vs));
            }
        },
    }
}

/// The size bounds under which a scalar slot's encoding is faithful: every
/// byte run fits the 64-bit length prefix, and a packed run's payload does
/// too.
pub open spec fn scalar_slot_sized(sf: scalar::Field, fv: SpecField) -> bool {
    &&& (fv matches SpecField::Single(v) ==> (v is Bytes ==> v->Bytes_0.len()
        <= 0xffffffffffffffff))
    &&& (fv matches SpecField::Opt(o) ==> (o matches Some(v) ==> (v is Bytes ==> v->Bytes_0.len()
        <= 0xffffffffffffffff)))
    &&& (fv matches SpecField::List(vs) ==> forall|k: int|
        0 <= k < vs.len() ==> ((#[trigger] vs[k]) is Bytes ==> vs[k]->Bytes_0.len()
            <= 0xffffffffffffffff))
    &&& (fv matches SpecField::List(vs) ==> packed_payload(sf.ty, vs).len()
        <= 0xffffffffffffffff)
}

/// The defaults of a field list, element by element.
proof fn lemma_fields_default_index(fs: Seq<Field>)
    ensures
        crate::codec::fields_default(fs).len() == fs.len(),
        forall|k: int|
            0 <= k < fs.len() ==> #[trigger] crate::codec::fields_default(fs)[k]
                == crate::codec::field_default(fs[k]),
    decreases fs,
{
    if fs.len() > 0 {
        lemma_fields_default_index(fs.skip(1));
        assert forall|k: int|
            0 <= k < fs.len() implies #[trigger] crate::codec::fields_default(fs)[k]
            == crate::codec::field_default(fs[k]) by {
            if k > 0 {
                assert(crate::codec::fields_default(fs)[k] == crate::codec::fields_default(
                    fs.skip(1),
                )[k - 1]);
                assert(fs.skip(1)[k - 1] == fs[k]);
            }
        }
    }
}

/// A value that skips cleanly on its own skips the same way with anything
/// after it.
pub proof fn lemma_skip_prefix_stable(wt: WireType, b: Seq<u8>, suffix: Seq<u8>)
    requires
        skip_prefix(wt, b) == Ok::<int, DecodeError>(b.len() as int),
    ensures
        skip_prefix(wt, b + suffix) == Ok::<int, DecodeError>(b.len() as int),
{
    let s = b + suffix;
    match wt {
        WireType::Fixed64 => {
        },
        WireType::Fixed32 => {
        },
        WireType::Varint => {
            lemma_varint_whole_stable(b, suffix);
        },
        WireType::LengthDelimited => {
            crate::wire::lemma_varint_prefix_ok(b, 0);
            match crate::wire::varint_prefix(b, 0) {
                Ok(l) => {
                    lemma_varint_part_stable(b, l, suffix);
                    assert(s.take(l) =~= b.take(l));
                },
                Err(_) => {},
            }
        },
    }
}

/// A varint occupying exactly a buffer parses the same with a suffix.
proof fn lemma_varint_whole_stable(b: Seq<u8>, suffix: Seq<u8>)
    requires
        crate::wire::varint_prefix(b, 0) == Ok::<int, DecodeError>(b.len() as int),
    ensures
        crate::wire::varint_prefix(b + suffix, 0) == Ok::<int, DecodeError>(b.len() as int),
        crate::wire::varint_int((b + suffix).take(b.len() as int)) == crate::wire::varint_int(
            b.take(b.len() as int),
        ),
{
    lemma_varint_part_stable(b, b.len() as int, suffix);
}

/// A varint prefix of a buffer parses the same with a suffix.
proof fn lemma_varint_part_stable(b: Seq<u8>, l: int, suffix: Seq<u8>)
    requires
        crate::wire::varint_prefix(b, 0) == Ok::<int, DecodeError>(l),
    ensures
        crate::wire::varint_prefix(b + suffix, 0) == Ok::<int, DecodeError>(l),
        crate::wire::varint_int((b + suffix).take(l)) == crate::wire::varint_int(b.take(l)),
{
    crate::wire::lemma_varint_prefix_ok(b, 0);
    let s = b + suffix;
    assert(s.take(l) =~= b.take(l));
    assert(crate::wire::varint_term_at(s, 0, l - 1)) by {
        assert(s[l - 1] == b[l - 1]);
        assert forall|k: int| 0 <= k < l - 1 implies #[trigger] s[k] >= 128 by {
            assert(s[k] == b[k]);
        }
    }
    crate::wire::lemma_varint_int_bound(b.take(l));
    let n = crate::wire::varint_int(b.take(l));
    assert(s.subrange(0, l) =~= b.take(l));
    crate::wire::lemma_varint_prefix_bridge(s, 0, Ok::<(u64, int), DecodeError>((n as u64, l)));
    assert(s.skip(0) =~= s);
}

/// LAW (unknown-field preservation, whole tail): decoding a run of records
/// whose tags no field of the schema answers to retains each record, in
/// order and verbatim, and changes nothing else.
pub proof fn lemma_unknown_tail_round_trip(
    d: MessageDescriptor,
    m: SpecMessage,
    us: Seq<SpecUnknown>,
    limit: nat,
)
    requires
        forall|k: int| 0 <= k < us.len() ==> 1 <= (#[trigger] us[k]).tag <= crate::wire::MAX_TAG,
        forall|k: int|
            0 <= k < us.len() ==> crate::codec::find_field(d, (#[trigger] us[k]).tag) is None,
        forall|k: int|
            0 <= k < us.len() ==> skip_prefix((#[trigger] us[k]).wire_type, us[k].bytes) == Ok::<
                int,
                DecodeError,
            >(us[k].bytes.len() as int),
    ensures
        message_records(d, m, unknowns_bytes(us), limit) == Ok::<SpecMessage, DecodeError>(
            SpecMessage { fields: m.fields, unknown: m.unknown + us },
        ),
    decreases us.len(),
{
    if us.len() == 0 {
        assert(unknowns_bytes(us) =~= Seq::<u8>::empty());
        assert(m.unknown + us =~= m.unknown);
        assert(SpecMessage { fields: m.fields, unknown: m.unknown + us } == m);
    } else {
        let u = us[0];
        let tb = tag_bytes(u.tag, u.wire_type);
        let tail = unknowns_bytes(us.skip(1));
        let s = unknowns_bytes(us);
        assert(s == tb + (u.bytes + tail));
        lemma_tag_prefix_canonical(u.tag, u.wire_type, u.bytes + tail);
        crate::wire::lemma_varint_bytes_wf(crate::wire::tag_value(u.tag, u.wire_type));
        assert(s.skip(tb.len() as int) =~= u.bytes + tail);
        lemma_skip_prefix_stable(u.wire_type, u.bytes, tail);
        assert((u.bytes + tail).take(u.bytes.len() as int) =~= u.bytes);
        assert(s.skip(tb.len() + u.bytes.len() as int) =~= tail);
        let m2 = SpecMessage {
            fields: m.fields,
            unknown: m.unknown.push(
                SpecUnknown { tag: u.tag, wire_type: u.wire_type, bytes: u.bytes },
            ),
        };
        assert(SpecUnknown { tag: u.tag, wire_type: u.wire_type, bytes: u.bytes } == u);
        assert forall|k: int| 0 <= k < us.skip(1).len() implies 1 <= (
        #[trigger] us.skip(1)[k]).tag <= crate::wire::MAX_TAG && crate::codec::find_field(
            d,
            us.skip(1)[k].tag,
        ) is None && skip_prefix(us.skip(1)[k].wire_type, us.skip(1)[k].bytes) == Ok::<
            int,
            DecodeError,
        >(us.skip(1)[k].bytes.len() as int) by {
            assert(us.skip(1)[k] == us[k + 1]);
        }
        lemma_unknown_tail_round_trip(d, m2, us.skip(1), limit);
        assert(m2.unknown + us.skip(1) =~= m.unknown + us);
    }
}

/// The fields of a flat schema decode back in order: with the slots before
/// `i` already holding their targets and the slots from `i` on still
/// cleared, decoding the remaining fields' encodings fills the remaining
/// slots and leaves the loop at the bytes after them.
proof fn lemma_flat_fields_round_trip(
    d: MessageDescriptor,
    target: Seq<SpecField>,
    i: int,
    m: SpecMessage,
    rest: Seq<u8>,
    limit: nat,
)
    requires
        d.wf(),
        0 <= i <= d.fields@.len(),
        forall|k: int| 0 <= k < d.fields@.len() ==> (#[trigger] d.fields@[k]) is Scalar,
        target.len() == d.fields@.len(),
        m.fields.len() == d.fields@.len(),
        forall|k: int| 0 <= k < i ==> #[trigger] m.fields[k] == target[k],
        forall|k: int|
            i <= k < d.fields@.len() ==> #[trigger] m.fields[k] == cleared(
                d.fields@[k]->Scalar_0,
            ),
        forall|k: int|
            0 <= k < d.fields@.len() ==> (#[trigger] d.fields@[k]->Scalar_0).value_wf(target[k]),
        forall|k: int|
            0 <= k < d.fields@.len() ==> scalar_slot_sized(
                (#[trigger] d.fields@[k])->Scalar_0,
                target[k],
            ),
    ensures
        message_records(
            d,
            m,
            crate::codec::fields_bytes(d.fields@.skip(i), target.skip(i)) + rest,
            limit,
        ) == message_records(
            d,
            SpecMessage { fields: target, unknown: m.unknown },
            rest,
            limit,
        ),
    decreases d.fields@.len() - i,
{
    let n = d.fields@.len() as int;
    if i == n {
        assert(d.fields@.skip(i).len() == 0);
        assert(crate::codec::fields_bytes(d.fields@.skip(i), target.skip(i)) + rest =~= rest);
        assert(m.fields =~= target);
        assert(SpecMessage { fields: target, unknown: m.unknown } == m);
    } else {
        let sf = d.fields@[i]->Scalar_0;
        let fv = target[i];
        let fb = field_bytes(sf, fv);
        let tail = crate::codec::fields_bytes(d.fields@.skip(i + 1), target.skip(i + 1));
        assert(d.fields@.skip(i)[0] == d.fields@[i]);
        assert(target.skip(i)[0] == target[i]);
        assert(d.fields@.skip(i).skip(1) =~= d.fields@.skip(i + 1));
        assert(target.skip(i).skip(1) =~= target.skip(i + 1));
        assert(field_any_bytes(d.fields@[i], fv) == fb);
        assert(crate::codec::fields_bytes(d.fields@.skip(i), target.skip(i)) + rest =~= fb + (
        tail + rest));
        lemma_scalar_field_records_in_message(d, i, sf, fv, m, tail + rest, limit);
        let m2 = SpecMessage { fields: m.fields.update(i, fv), unknown: m.unknown };
        assert forall|k: int| 0 <= k < i + 1 implies #[trigger] m2.fields[k] == target[k] by {}
        assert forall|k: int| i + 1 <= k < n implies #[trigger] m2.fields[k] == cleared(
            d.fields@[k]->Scalar_0,
        ) by {}
        lemma_flat_fields_round_trip(d, target, i + 1, m2, rest, limit);
    }
}

/// LAW (round trip, whole message): for a schema whose fields are all
/// scalar, decoding the encoding of a well-formed message value from the
/// message's default recovers the value exactly — every field of every
/// presence kind, and every retained unknown field, which must each carry
/// exactly one value of its wire type under a tag the schema does not own.
pub proof fn lemma_flat_message_round_trip(d: MessageDescriptor, m: SpecMessage, limit: nat)
    requires
        d.wf(),
        crate::codec::message_value_wf(d, m),
        forall|k: int| 0 <= k < d.fields@.len() ==> (#[trigger] d.fields@[k]) is Scalar,
        forall|k: int|
            0 <= k < d.fields@.len() ==> scalar_slot_sized(
                (#[trigger] d.fields@[k])->Scalar_0,
                m.fields[k],
            ),
        forall|k: int|
            0 <= k < m.unknown.len() ==> crate::codec::find_field(
                d,
                (#[trigger] m.unknown[k]).tag,
            ) is None,
        forall|k: int|
            0 <= k < m.unknown.len() ==> skip_prefix(
                (#[trigger] m.unknown[k]).wire_type,
                m.unknown[k].bytes,
            ) == Ok::<int, DecodeError>(m.unknown[k].bytes.len() as int),
    ensures
        message_records(d, crate::codec::message_default(d), message_bytes(d, m), limit) == Ok::<
            SpecMessage,
            DecodeError,
        >(m),
{
    let m0 = crate::codec::message_default(d);
    lemma_fields_default_index(d.fields@);
    assert forall|k: int| 0 <= k < d.fields@.len() implies #[trigger] m0.fields[k] == cleared(
        d.fields@[k]->Scalar_0,
    ) by {
        assert(m0.fields[k] == crate::codec::field_default(d.fields@[k]));
    }
    assert(d.fields@.skip(0) =~= d.fields@);
    assert(m.fields.skip(0) =~= m.fields);
    assert(message_bytes(d, m) == crate::codec::fields_bytes(d.fields@, m.fields)
        + unknowns_bytes(m.unknown));
    lemma_flat_fields_round_trip(d, m.fields, 0, m0, unknowns_bytes(m.unknown), limit);
    let m1 = SpecMessage { fields: m.fields, unknown: m0.unknown };
    lemma_unknown_tail_round_trip(d, m1, m.unknown, limit);
    assert(m0.unknown + m.unknown =~= m.unknown);
    assert(SpecMessage { fields: m.fields, unknown: m.unknown } == m);
}

/// The re-emission of a newly retained unknown field goes at the end of the
/// unknown block, verbatim.
proof fn lemma_unknowns_bytes_snoc(us: Seq<SpecUnknown>, u: SpecUnknown)
    ensures
        unknowns_bytes(us.push(u)) == unknowns_bytes(us) + tag_bytes(u.tag, u.wire_type)
            + u.bytes,
    decreases us.len(),
{
    let tb = tag_bytes(u.tag, u.wire_type);
    if us.len() == 0 {
        assert(us.push(u).skip(1) =~= Seq::<SpecUnknown>::empty());
        assert(us.push(u)[0] == u);
        assert(unknowns_bytes(Seq::<SpecUnknown>::empty()) =~= Seq::<u8>::empty());
        assert(unknowns_bytes(us) =~= Seq::<u8>::empty());
        assert(unknowns_bytes(us.push(u)) == tb + u.bytes + unknowns_bytes(
            Seq::<SpecUnknown>::empty(),
        ));
        assert(unknowns_bytes(us.push(u)) =~= unknowns_bytes(us) + tb + u.bytes);
    } else {
        assert(us.push(u).skip(1) =~= us.skip(1).push(u));
        lemma_unknowns_bytes_snoc(us.skip(1), u);
        assert(us.push(u)[0] == us[0]);
        let tb0 = tag_bytes(us[0].tag, us[0].wire_type);
        assert(unknowns_bytes(us.push(u)) == tb0 + us[0].bytes + unknowns_bytes(
            us.skip(1).push(u),
        ));
        assert(unknowns_bytes(us.skip(1).push(u)) == unknowns_bytes(us.skip(1)) + tb + u.bytes);
        assert(unknowns_bytes(us) == tb0 + us[0].bytes + unknowns_bytes(us.skip(1)));
        assert(unknowns_bytes(us.push(u)) =~= unknowns_bytes(us) + tb + u.bytes);
    }
}

/// LAW (unknown-field preservation): decoding a record whose tag no field
/// of the schema answers to retains the record — tag, wire type and raw
/// value bytes — and re-encoding the message then reproduces exactly those
/// bytes in the output, after whatever was already encoded.
pub proof fn lemma_unknown_preservation(
    d: MessageDescriptor,
    m: SpecMessage,
    tag: u32,
    wt: WireType,
    vbytes: Seq<u8>,
    limit: nat,
)
    requires
        1 <= tag <= crate::wire::MAX_TAG,
        crate::codec::find_field(d, tag) is None,
        skip_prefix(wt, vbytes) == Ok::<int, DecodeError>(vbytes.len() as int),
    ensures
        message_records(d, m, tag_bytes(tag, wt) + vbytes, limit) == Ok::<
            SpecMessage,
            DecodeError,
        >(
            SpecMessage {
                fields: m.fields,
                unknown: m.unknown.push(SpecUnknown { tag, wire_type: wt, bytes: vbytes }),
            },
        ),
        message_bytes(
            d,
            SpecMessage {
                fields: m.fields,
                unknown: m.unknown.push(SpecUnknown { tag, wire_type: wt, bytes: vbytes }),
            },
        ) == message_bytes(d, SpecMessage { fields: m.fields, unknown: m.unknown }) + tag_bytes(
            tag,
            wt,
        ) + vbytes,
{
    let tb = tag_bytes(tag, wt);
    let s = tb + vbytes;
    assert(s == tb + (vbytes + Seq::<u8>::empty())) by {
        assert(vbytes + Seq::<u8>::empty() =~= vbytes);
    }
    lemma_tag_prefix_canonical(tag, wt, vbytes);
    assert(s.skip(tb.len() as int) =~= vbytes);
    crate::wire::lemma_varint_bytes_wf(crate::wire::tag_value(tag, wt));
    assert(s.skip(tb.len() as int).take(vbytes.len() as int) =~= vbytes);
    assert(s.skip(tb.len() + vbytes.len() as int) =~= Seq::<u8>::empty());
    let u = SpecUnknown { tag, wire_type: wt, bytes: vbytes };
    let m2 = SpecMessage { fields: m.fields, unknown: m.unknown.push(u) };
    assert(SpecUnknown {
        tag,
        wire_type: wt,
        bytes: s.skip(tb.len() as int).take(vbytes.len() as int),
    } == u);
    assert(message_records(d, m2, Seq::<u8>::empty(), limit) == Ok::<SpecMessage, DecodeError>(
        m2,
    ));
    assert(m2 == SpecMessage {
        fields: m.fields,
        unknown: m.unknown.push(
            SpecUnknown {
                tag,
                wire_type: wt,
                bytes: s.skip(tb.len() as int).take(vbytes.len() as int),
            },
        ),
    });
    assert(message_records(d, m, s, limit) == Ok::<SpecMessage, DecodeError>(m2));
    lemma_unknowns_bytes_snoc(m.unknown, u);
    assert(m == SpecMessage { fields: m.fields, unknown: m.unknown });
}

/// LAW (default elision): a plain field holding exactly its default value
/// encodes to zero bytes, while a required field holding the same value
/// still encodes its tag and value.
pub proof fn lemma_default_elision(fp: scalar::Field, fr: scalar::Field)
    requires
        fp.wf(),
        fr.wf(),
    ensures
        fp.kind@ matches SpecKind::Plain(d) ==> field_bytes(fp, SpecField::Single(d))
            == Seq::<u8>::empty(),
        fr.kind@ matches SpecKind::Required(d) ==> field_bytes(fr, SpecField::Single(d))
            == tag_bytes(fr.tag, fr.ty.wire_shape()) + scalar_bytes(fr.ty, d) && field_bytes(
            fr,
            SpecField::Single(d),
        ).len() > 0,
{
    match fr.kind@ {
        SpecKind::Required(d) => {
            crate::wire::lemma_varint_bytes_wf(crate::wire::tag_value(fr.tag, fr.ty.wire_shape()));
        },
        _ => {},
    }
}

/// LAW (oneof last writer wins): merging a record of a oneof field replaces
/// the whole union: the outcome does not depend on which variant, if any,
/// was live before, and on success the live variant is the one the record's
/// tag names. In particular, after records for tag A and then tag B of the
/// same oneof, only B's variant is live.
pub proof fn lemma_oneof_last_write_wins(
    f: Field,
    tag: u32,
    wt: WireType,
    s: Seq<u8>,
    old1: SpecField,
    old2: SpecField,
    limit: nat,
)
    requires
        f is Oneof,
    ensures
        message_merge_field(f, tag, wt, s, old1, limit) == message_merge_field(
            f,
            tag,
            wt,
            s,
            old2,
            limit,
        ),
        message_merge_field(f, tag, wt, s, old1, limit) matches Ok((fv, _)) ==> (fv is Oneof
            && (fv->Oneof_0 matches Some((t, _)) && t == tag)),
{
}

/// LAW (conversion-hook transparency): the wire bytes of a message field
/// depend only on its tag, its label, its nested schema and the wire-shaped
/// value handed to the codec — never on which conversion hooks the
/// descriptor carries. A field with hooks and a hookless field of the same
/// shape produce byte-identical output for the same wire values.
pub proof fn lemma_conversion_hook_transparency(
    f1: crate::field::message::Field,
    f2: crate::field::message::Field,
    fv: SpecField,
)
    requires
        f1.tag == f2.tag,
        f1.label == f2.label,
        f1.nested == f2.nested,
    ensures
        field_any_bytes(Field::Message(f1), fv) == field_any_bytes(Field::Message(f2), fv),
{
}

} // verus!
