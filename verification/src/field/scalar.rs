//! Scalar fields: the fifteen scalar protobuf types plus enumerations, the
//! presence kinds, and the scalar field codec.
//!
//! The in-memory carrier of each type is fixed by `value_shape`: the four
//! signed/unsigned 32/64-bit carriers, booleans and byte runs.
//! Floating-point types carry their bit patterns in the unsigned carriers
//! and are framed as fixed-width values; enumerations travel as `int32`.

use vstd::prelude::*;

use crate::error::{DecodeError, SchemaError};
use crate::value::{scalar_view, scalars_view, ScalarValue, SpecScalar};
use crate::wire::{
    le4_bytes, le8_bytes, len_delim_bytes, sext64, tag_bytes, unzigzag32, unzigzag64, varint_bytes,
    zigzag32, zigzag64, WireType,
};

verus! {

/// A scalar protobuf field type.
#[derive(Clone, Debug, PartialEq, Eq)]
pub enum Ty {
    Double,
    Float,
    Int32,
    Int64,
    Uint32,
    Uint64,
    Sint32,
    Sint64,
    Fixed32,
    Fixed64,
    Sfixed32,
    Sfixed64,
    Bool,
    String,
    Bytes,
    Enumeration(std::string::String),
}

/// The shape a scalar value must have to live in a field of type `ty`: which
/// `SpecScalar` carrier it uses.
pub open spec fn value_shape(ty: Ty, v: SpecScalar) -> bool {
    match ty {
        Ty::Double => v is U64,
        Ty::Float => v is U32,
        Ty::Int32 => v is I32,
        Ty::Int64 => v is I64,
        Ty::Uint32 => v is U32,
        Ty::Uint64 => v is U64,
        Ty::Sint32 => v is I32,
        Ty::Sint64 => v is I64,
        Ty::Fixed32 => v is U32,
        Ty::Fixed64 => v is U64,
        Ty::Sfixed32 => v is I32,
        Ty::Sfixed64 => v is I64,
        Ty::Bool => v is Bool,
        Ty::String => v is Bytes,
        Ty::Bytes => v is Bytes,
        Ty::Enumeration(_) => v is I32,
    }
}

impl Ty {
    /// The wire type that values of this type are framed with.
    pub open spec fn wire_shape(self) -> WireType {
        match self {
            Ty::Double => WireType::Fixed64,
            Ty::Float => WireType::Fixed32,
            Ty::Int32 => WireType::Varint,
            Ty::Int64 => WireType::Varint,
            Ty::Uint32 => WireType::Varint,
            Ty::Uint64 => WireType::Varint,
            Ty::Sint32 => WireType::Varint,
            Ty::Sint64 => WireType::Varint,
            Ty::Fixed32 => WireType::Fixed32,
            Ty::Fixed64 => WireType::Fixed64,
            Ty::Sfixed32 => WireType::Fixed32,
            Ty::Sfixed64 => WireType::Fixed64,
            Ty::Bool => WireType::Varint,
            Ty::String => WireType::LengthDelimited,
            Ty::Bytes => WireType::LengthDelimited,
            Ty::Enumeration(_) => WireType::Varint,
        }
    }

    /// Returns the wire type of this scalar type.
    pub fn wire_type(&self) -> (r: WireType)
        ensures
            r == self.wire_shape(),
    {
        match self {
            Ty::Double => WireType::Fixed64,
            Ty::Float => WireType::Fixed32,
            Ty::Int32 => WireType::Varint,
            Ty::Int64 => WireType::Varint,
            Ty::Uint32 => WireType::Varint,
            Ty::Uint64 => WireType::Varint,
            Ty::Sint32 => WireType::Varint,
            Ty::Sint64 => WireType::Varint,
            Ty::Fixed32 => WireType::Fixed32,
            Ty::Fixed64 => WireType::Fixed64,
            Ty::Sfixed32 => WireType::Fixed32,
            Ty::Sfixed64 => WireType::Fixed64,
            Ty::Bool => WireType::Varint,
            Ty::String => WireType::LengthDelimited,
            Ty::Bytes => WireType::LengthDelimited,
            Ty::Enumeration(_) => WireType::Varint,
        }
    }

    /// Whether this type is numeric, i.e. not length-delimited; only numeric
    /// types may be packed.
    pub open spec fn spec_is_numeric(self) -> bool {
        !(self is String || self is Bytes)
    }

    /// Returns true if the scalar type is numeric (not `string` or `bytes`).
    pub fn is_numeric(&self) -> (r: bool)
        ensures
            r == self.spec_is_numeric(),
    {
        !(matches!(self, Ty::String) || matches!(self, Ty::Bytes))
    }

    /// The zero value of this type: zero for the numeric carriers (a zero
    /// bit pattern for the floating types), `false`, or an empty byte run.
    pub fn zero_value(&self) -> (r: ScalarValue)
        ensures
            r@ == spec_zero_value(*self),
    {
        match self {
            Ty::Double => ScalarValue::U64(0),
            Ty::Float => ScalarValue::U32(0),
            Ty::Int32 => ScalarValue::I32(0),
            Ty::Int64 => ScalarValue::I64(0),
            Ty::Uint32 => ScalarValue::U32(0),
            Ty::Uint64 => ScalarValue::U64(0),
            Ty::Sint32 => ScalarValue::I32(0),
            Ty::Sint64 => ScalarValue::I64(0),
            Ty::Fixed32 => ScalarValue::U32(0),
            Ty::Fixed64 => ScalarValue::U64(0),
            Ty::Sfixed32 => ScalarValue::I32(0),
            Ty::Sfixed64 => ScalarValue::I64(0),
            Ty::Bool => ScalarValue::Bool(false),
            Ty::String => ScalarValue::Bytes(Vec::new()),
            Ty::Bytes => ScalarValue::Bytes(Vec::new()),
            Ty::Enumeration(_) => ScalarValue::I32(0),
        }
    }
}

/// The zero value of each type.
pub open spec fn spec_zero_value(ty: Ty) -> SpecScalar {
    match ty {
        Ty::Double => SpecScalar::U64(0),
        Ty::Float => SpecScalar::U32(0),
        Ty::Int32 => SpecScalar::I32(0),
        Ty::Int64 => SpecScalar::I64(0),
        Ty::Uint32 => SpecScalar::U32(0),
        Ty::Uint64 => SpecScalar::U64(0),
        Ty::Sint32 => SpecScalar::I32(0),
        Ty::Sint64 => SpecScalar::I64(0),
        Ty::Fixed32 => SpecScalar::U32(0),
        Ty::Fixed64 => SpecScalar::U64(0),
        Ty::Sfixed32 => SpecScalar::I32(0),
        Ty::Sfixed64 => SpecScalar::I64(0),
        Ty::Bool => SpecScalar::Bool(false),
        Ty::String => SpecScalar::Bytes(Seq::empty()),
        Ty::Bytes => SpecScalar::Bytes(Seq::empty()),
        Ty::Enumeration(_) => SpecScalar::I32(0),
    }
}

// ---------------------------------------------------------------------------
// The numeric bridge between scalar values and their wire integers.
// ---------------------------------------------------------------------------

/// The unsigned 32-bit reading of a signed 32-bit value's bits.
pub open spec fn bits_of_i32(n: i32) -> u32 {
    if n >= 0 {
        n as u32
    } else {
        ((n as int) + 0x100000000) as u32
    }
}

/// The signed reading of a 32-bit bit pattern.
pub open spec fn i32_of_bits(u: u32) -> i32 {
    if u < 0x80000000 {
        u as i32
    } else {
        ((u as int) - 0x100000000) as i32
    }
}

/// The 64-bit varint payload that a value of a varint-shaped type encodes
/// to: sign extension for `int32`/`int64` and enumerations, the zigzag image
/// for `sint32`/`sint64`, the value itself for the unsigned types, 0 or 1
/// for `bool`.
pub open spec fn scalar_wire64(ty: Ty, v: SpecScalar) -> u64 {
    match ty {
        Ty::Int32 => sext64(v->I32_0 as i64),
        Ty::Enumeration(_) => sext64(v->I32_0 as i64),
        Ty::Int64 => sext64(v->I64_0),
        Ty::Uint32 => v->U32_0 as u64,
        Ty::Uint64 => v->U64_0,
        Ty::Sint32 => zigzag32(v->I32_0) as u64,
        Ty::Sint64 => zigzag64(v->I64_0),
        Ty::Bool => if v->Bool_0 {
            1
        } else {
            0
        },
        _ => 0,
    }
}

/// The scalar value that a 64-bit varint payload decodes to under a
/// varint-shaped type: truncation for the 32-bit types, the zigzag preimage
/// for `sint32`/`sint64`, non-zero-ness for `bool`.
pub open spec fn wire64_to_scalar(ty: Ty, n: u64) -> SpecScalar {
    match ty {
        Ty::Int32 => SpecScalar::I32(crate::wire::as_i32(n)),
        Ty::Enumeration(_) => SpecScalar::I32(crate::wire::as_i32(n)),
        Ty::Int64 => SpecScalar::I64(crate::wire::as_i64(n)),
        Ty::Uint32 => SpecScalar::U32((n % 0x100000000) as u32),
        Ty::Uint64 => SpecScalar::U64(n),
        Ty::Sint32 => SpecScalar::I32(unzigzag32((n % 0x100000000) as u32)),
        Ty::Sint64 => SpecScalar::I64(unzigzag64(n)),
        Ty::Bool => SpecScalar::Bool(n != 0),
        _ => SpecScalar::Bool(false),
    }
}

/// The 32-bit word that a value of a fixed32-shaped type encodes to.
pub open spec fn scalar_bits32(ty: Ty, v: SpecScalar) -> u32 {
    match ty {
        Ty::Float => v->U32_0,
        Ty::Fixed32 => v->U32_0,
        Ty::Sfixed32 => bits_of_i32(v->I32_0),
        _ => 0,
    }
}

/// The scalar value that a 32-bit word decodes to under a fixed32-shaped
/// type.
pub open spec fn bits32_to_scalar(ty: Ty, u: u32) -> SpecScalar {
    match ty {
        Ty::Float => SpecScalar::U32(u),
        Ty::Fixed32 => SpecScalar::U32(u),
        Ty::Sfixed32 => SpecScalar::I32(i32_of_bits(u)),
        _ => SpecScalar::Bool(false),
    }
}

/// The 64-bit word that a value of a fixed64-shaped type encodes to.
pub open spec fn scalar_bits64(ty: Ty, v: SpecScalar) -> u64 {
    match ty {
        Ty::Double => v->U64_0,
        Ty::Fixed64 => v->U64_0,
        Ty::Sfixed64 => sext64(v->I64_0),
        _ => 0,
    }
}

/// The scalar value that a 64-bit word decodes to under a fixed64-shaped
/// type.
pub open spec fn bits64_to_scalar(ty: Ty, u: u64) -> SpecScalar {
    match ty {
        Ty::Double => SpecScalar::U64(u),
        Ty::Fixed64 => SpecScalar::U64(u),
        Ty::Sfixed64 => SpecScalar::I64(crate::wire::as_i64(u)),
        _ => SpecScalar::Bool(false),
    }
}

/// Each numeric bridge is invertible on well-shaped values: decoding the
/// wire integer of a value returns the value.
pub proof fn lemma_numeric_round_trip(ty: Ty, v: SpecScalar)
    requires
        value_shape(ty, v),
    ensures
        ty.wire_shape() == WireType::Varint ==> wire64_to_scalar(ty, scalar_wire64(ty, v)) == v,
        ty.wire_shape() == WireType::Fixed32 ==> bits32_to_scalar(ty, scalar_bits32(ty, v)) == v,
        ty.wire_shape() == WireType::Fixed64 ==> bits64_to_scalar(ty, scalar_bits64(ty, v)) == v,
{
    match ty {
        Ty::Int32 | Ty::Enumeration(_) => {
            crate::wire::lemma_sext32_round_trip(v->I32_0);
        },
        Ty::Int64 => {
            crate::wire::lemma_sext64_round_trip(v->I64_0);
        },
        Ty::Sint32 => {
            crate::wire::lemma_zigzag32_round_trip(v->I32_0);
            assert(zigzag32(v->I32_0) as u64 % 0x100000000 == zigzag32(v->I32_0));
        },
        Ty::Sint64 => {
            crate::wire::lemma_zigzag64_round_trip(v->I64_0);
        },
        Ty::Sfixed64 => {
            crate::wire::lemma_sext64_round_trip(v->I64_0);
        },
        _ => {},
    }
}

// ---------------------------------------------------------------------------
// The bytes of one scalar value, without its tag.
// ---------------------------------------------------------------------------

/// The wire bytes of one scalar value of type `ty`: a varint, a fixed-width
/// word, or a length-delimited run.
pub open spec fn scalar_bytes(ty: Ty, v: SpecScalar) -> Seq<u8> {
    match ty.wire_shape() {
        WireType::Varint => varint_bytes(scalar_wire64(ty, v)),
        WireType::Fixed32 => le4_bytes(scalar_bits32(ty, v)),
        WireType::Fixed64 => le8_bytes(scalar_bits64(ty, v)),
        WireType::LengthDelimited => len_delim_bytes(v->Bytes_0),
    }
}

/// Appends the wire bytes of one scalar value (no tag).
pub fn encode_scalar(ty: &Ty, v: &ScalarValue, buf: &mut Vec<u8>)
    requires
        value_shape(*ty, v@),
    ensures
        final(buf)@ == old(buf)@ + scalar_bytes(*ty, v@),
{
    match (ty, v) {
        (Ty::Int32, ScalarValue::I32(n)) => crate::wire::encode_varint(
            crate::wire::encode_sext64(*n as i64),
            buf,
        ),
        (Ty::Enumeration(_), ScalarValue::I32(n)) => crate::wire::encode_varint(
            crate::wire::encode_sext64(*n as i64),
            buf,
        ),
        (Ty::Int64, ScalarValue::I64(n)) => crate::wire::encode_varint(
            crate::wire::encode_sext64(*n),
            buf,
        ),
        (Ty::Uint32, ScalarValue::U32(n)) => crate::wire::encode_varint(*n as u64, buf),
        (Ty::Uint64, ScalarValue::U64(n)) => crate::wire::encode_varint(*n, buf),
        (Ty::Sint32, ScalarValue::I32(n)) => crate::wire::encode_varint(
            crate::wire::zigzag_encode32(*n) as u64,
            buf,
        ),
        (Ty::Sint64, ScalarValue::I64(n)) => crate::wire::encode_varint(
            crate::wire::zigzag_encode64(*n),
            buf,
        ),
        (Ty::Bool, ScalarValue::Bool(b)) => crate::wire::encode_varint(
            if *b {
                1
            } else {
                0
            },
            buf,
        ),
        (Ty::Float, ScalarValue::U32(n)) => crate::wire::encode_fixed32(*n, buf),
        (Ty::Fixed32, ScalarValue::U32(n)) => crate::wire::encode_fixed32(*n, buf),
        (Ty::Sfixed32, ScalarValue::I32(n)) => {
            let bits: u32 = if *n >= 0 {
                *n as u32
            } else {
                0xffffffffu32 - ((-(*n + 1)) as u32)
            };
            crate::wire::encode_fixed32(bits, buf)
        },
        (Ty::Double, ScalarValue::U64(n)) => crate::wire::encode_fixed64(*n, buf),
        (Ty::Fixed64, ScalarValue::U64(n)) => crate::wire::encode_fixed64(*n, buf),
        (Ty::Sfixed64, ScalarValue::I64(n)) => crate::wire::encode_fixed64(
            crate::wire::encode_sext64(*n),
            buf,
        ),
        (Ty::String, ScalarValue::Bytes(b)) => crate::wire::encode_len_delimited(b.as_slice(), buf),
        (Ty::Bytes, ScalarValue::Bytes(b)) => crate::wire::encode_len_delimited(b.as_slice(), buf),
        _ => {
            proof {
                assert(false);
            }
        },
    }
}

/// Returns the 64-bit varint payload of a value of a varint-shaped type.
pub fn scalar_to_wire64(ty: &Ty, v: &ScalarValue) -> (r: u64)
    requires
        value_shape(*ty, v@),
        ty.wire_shape() == WireType::Varint,
    ensures
        r == scalar_wire64(*ty, v@),
{
    match (ty, v) {
        (Ty::Int32, ScalarValue::I32(n)) => crate::wire::encode_sext64(*n as i64),
        (Ty::Enumeration(_), ScalarValue::I32(n)) => crate::wire::encode_sext64(*n as i64),
        (Ty::Int64, ScalarValue::I64(n)) => crate::wire::encode_sext64(*n),
        (Ty::Uint32, ScalarValue::U32(n)) => *n as u64,
        (Ty::Uint64, ScalarValue::U64(n)) => *n,
        (Ty::Sint32, ScalarValue::I32(n)) => crate::wire::zigzag_encode32(*n) as u64,
        (Ty::Sint64, ScalarValue::I64(n)) => crate::wire::zigzag_encode64(*n),
        (Ty::Bool, ScalarValue::Bool(b)) => if *b {
            1
        } else {
            0
        },
        _ => {
            proof {
                assert(false);
            }
            0
        },
    }
}

/// Returns the number of wire bytes of one scalar value (no tag).
pub fn scalar_len(ty: &Ty, v: &ScalarValue) -> (r: usize)
    requires
        value_shape(*ty, v@),
        scalar_bytes(*ty, v@).len() <= usize::MAX,
    ensures
        r == scalar_bytes(*ty, v@).len(),
{
    match ty.wire_type() {
        WireType::Varint => crate::wire::encoded_len_varint(scalar_to_wire64(ty, v)),
        WireType::Fixed32 => 4,
        WireType::Fixed64 => 8,
        WireType::LengthDelimited => {
            match v {
                ScalarValue::Bytes(b) => {
                    let ll = crate::wire::encoded_len_varint(b.len() as u64);
                    ll + b.len()
                },
                _ => {
                    proof {
                        assert(false);
                    }
                    0
                },
            }
        },
    }
}

// ---------------------------------------------------------------------------
// The presence kind of a scalar field, and the descriptor itself.
// ---------------------------------------------------------------------------

/// The presence kind of a scalar field; the singular kinds carry the field's
/// default value.
#[derive(Clone, Debug)]
pub enum Kind {
    /// A plain field: implicit default, elided from the wire when the value
    /// equals the default.
    Plain(ScalarValue),
    /// An optional field with explicit presence.
    Optional(ScalarValue),
    /// A required field, always present on the wire.
    Required(ScalarValue),
    /// A repeated field, one tagged record per element.
    Repeated,
    /// A packed repeated numeric field, one length-delimited run.
    Packed,
}

/// The view of a presence kind.
pub enum SpecKind {
    Plain(SpecScalar),
    Optional(SpecScalar),
    Required(SpecScalar),
    Repeated,
    Packed,
}

impl View for Kind {
    type V = SpecKind;

    open spec fn view(&self) -> SpecKind {
        match self {
            Kind::Plain(d) => SpecKind::Plain(scalar_view(*d)),
            Kind::Optional(d) => SpecKind::Optional(scalar_view(*d)),
            Kind::Required(d) => SpecKind::Required(scalar_view(*d)),
            Kind::Repeated => SpecKind::Repeated,
            Kind::Packed => SpecKind::Packed,
        }
    }
}

/// A validated scalar field descriptor.
#[derive(Clone, Debug)]
pub struct Field {
    pub ty: Ty,
    pub kind: Kind,
    pub tag: u32,
}

/// A field number is legal when it lies in the 29-bit range and outside the
/// reserved band.
pub open spec fn tag_in_range(tag: u32) -> bool {
    &&& 1 <= tag <= crate::wire::MAX_TAG
    &&& !(19000 <= tag <= 19999)
}

impl Field {
    /// A well-formed descriptor: a legal tag, a default matching the type's
    /// carrier, and packing only of numeric types.
    pub open spec fn wf(self) -> bool {
        &&& tag_in_range(self.tag)
        &&& match self.kind@ {
            SpecKind::Plain(d) => value_shape(self.ty, d),
            SpecKind::Optional(d) => value_shape(self.ty, d),
            SpecKind::Required(d) => value_shape(self.ty, d),
            SpecKind::Repeated => true,
            SpecKind::Packed => self.ty.spec_is_numeric(),
        }
    }

    /// The storage shape this field expects: one scalar for the singular
    /// kinds, a present-or-absent scalar for optional, a well-shaped list
    /// for repeated and packed.
    pub open spec fn value_wf(self, fv: SpecField) -> bool {
        match self.kind@ {
            SpecKind::Plain(_) => fv is Single && value_shape(self.ty, fv->Single_0),
            SpecKind::Required(_) => fv is Single && value_shape(self.ty, fv->Single_0),
            SpecKind::Optional(_) => fv is Opt && match fv->Opt_0 {
                Some(v) => value_shape(self.ty, v),
                None => true,
            },
            SpecKind::Repeated | SpecKind::Packed => fv is List && forall|i: int|
                0 <= i < fv->List_0.len() ==> value_shape(self.ty, #[trigger] fv->List_0[i]),
        }
    }
}

use crate::value::SpecField;
use crate::value::FieldValue;

// ---------------------------------------------------------------------------
// Descriptor construction: the validation rules for one scalar field.
// ---------------------------------------------------------------------------

/// The validation rules for a scalar field's options, stated as a function
/// from the resolved options to the accepted descriptor or the exact schema
/// error. The checks run in a fixed order: a tag must be present and legal,
/// an explicit default must match the type's carrier, `packed` demands a
/// repeated label and a numeric type, and only plain and optional fields
/// take an explicit default.
pub open spec fn spec_new(
    ty: Ty,
    label: Option<crate::field::Label>,
    packed: Option<bool>,
    default: Option<SpecScalar>,
    tag: Option<u32>,
) -> Result<(Ty, SpecKind, u32), SchemaError> {
    if tag is None {
        Err(SchemaError::MissingTag)
    } else if !tag_in_range(tag->0) {
        Err(SchemaError::TagOutOfRange)
    } else if default is Some && !value_shape(ty, default->0) {
        Err(SchemaError::InvalidDefault)
    } else {
        let d = if default is Some {
            default->0
        } else {
            spec_zero_value(ty)
        };
        match label {
            None => {
                if packed == Some(true) {
                    Err(SchemaError::PackedNotRepeated)
                } else {
                    Ok((ty, SpecKind::Plain(d), tag->0))
                }
            },
            Some(crate::field::Label::Optional) => {
                if packed == Some(true) {
                    Err(SchemaError::PackedNotRepeated)
                } else {
                    Ok((ty, SpecKind::Optional(d), tag->0))
                }
            },
            Some(crate::field::Label::Required) => {
                if packed == Some(true) {
                    Err(SchemaError::PackedNotRepeated)
                } else if default is Some {
                    Err(SchemaError::DefaultOnRequired)
                } else {
                    Ok((ty, SpecKind::Required(d), tag->0))
                }
            },
            Some(crate::field::Label::Repeated) => {
                if packed == Some(true) && !ty.spec_is_numeric() {
                    Err(SchemaError::PackedNotNumeric)
                } else if default is Some {
                    Err(SchemaError::DefaultOnRepeated)
                } else if (packed is Some && packed->0) || (packed is None
                    && ty.spec_is_numeric()) {
                    Ok((ty, SpecKind::Packed, tag->0))
                } else {
                    Ok((ty, SpecKind::Repeated, tag->0))
                }
            },
        }
    }
}

/// The view of an optional default value.
pub open spec fn default_view(default: Option<ScalarValue>) -> Option<SpecScalar> {
    match default {
        Some(d) => Some(scalar_view(d)),
        None => None,
    }
}

impl Field {
    /// Validates the resolved options of a scalar field and builds its
    /// descriptor; each invalid combination is reported as its own schema
    /// error, exactly as `spec_new` lays down.
    pub fn new(
        ty: Ty,
        label: Option<crate::field::Label>,
        packed: Option<bool>,
        default: Option<ScalarValue>,
        tag: Option<u32>,
    ) -> (r: Result<Field, SchemaError>)
        ensures
            match r {
                Ok(f) => spec_new(ty, label, packed, default_view(default), tag) == Ok::<
                    _,
                    SchemaError,
                >((f.ty, f.kind@, f.tag)) && f.wf(),
                Err(e) => spec_new(ty, label, packed, default_view(default), tag) == Err::<
                    (Ty, SpecKind, u32),
                    _,
                >(e),
            },
    {
        let t = match tag {
            None => {
                return Err(SchemaError::MissingTag);
            },
            Some(t) => t,
        };
        if !(1 <= t && t <= crate::wire::MAX_TAG) || (19000 <= t && t <= 19999) {
            return Err(SchemaError::TagOutOfRange);
        }
        let has_default = default.is_some();
        if has_default && !shape_matches(&ty, default.as_ref().unwrap()) {
            return Err(SchemaError::InvalidDefault);
        }
        let d = match default {
            Some(d) => d,
            None => ty.zero_value(),
        };
        let numeric = ty.is_numeric();
        match label {
            None => {
                if packed == Some(true) {
                    Err(SchemaError::PackedNotRepeated)
                } else {
                    Ok(Field { ty, kind: Kind::Plain(d), tag: t })
                }
            },
            Some(crate::field::Label::Optional) => {
                if packed == Some(true) {
                    Err(SchemaError::PackedNotRepeated)
                } else {
                    Ok(Field { ty, kind: Kind::Optional(d), tag: t })
                }
            },
            Some(crate::field::Label::Required) => {
                if packed == Some(true) {
                    Err(SchemaError::PackedNotRepeated)
                } else if has_default {
                    Err(SchemaError::DefaultOnRequired)
                } else {
                    Ok(Field { ty, kind: Kind::Required(d), tag: t })
                }
            },
            Some(crate::field::Label::Repeated) => {
                if packed == Some(true) && !numeric {
                    Err(SchemaError::PackedNotNumeric)
                } else if has_default {
                    Err(SchemaError::DefaultOnRepeated)
                } else {
                    let is_packed = match packed {
                        Some(p) => p,
                        None => numeric,
                    };
                    if is_packed {
                        Ok(Field { ty, kind: Kind::Packed, tag: t })
                    } else {
                        Ok(Field { ty, kind: Kind::Repeated, tag: t })
                    }
                }
            },
        }
    }

    /// Validates the options of a scalar oneof variant: the variant must
    /// carry no explicit label, and its kind is required-shaped (no default
    /// elision).
    pub fn new_oneof(
        ty: Ty,
        label: Option<crate::field::Label>,
        packed: Option<bool>,
        default: Option<ScalarValue>,
        tag: Option<u32>,
    ) -> (r: Result<Field, SchemaError>)
        ensures
            match r {
                Ok(f) => match spec_new(ty, label, packed, default_view(default), tag) {
                    Ok(k) => {
                        &&& k.1 is Plain
                        &&& f.kind@ == SpecKind::Required(k.1->Plain_0)
                        &&& f.ty == ty
                        &&& Some(f.tag) == tag
                        &&& f.wf()
                    },
                    Err(_) => false,
                },
                Err(e) => match spec_new(ty, label, packed, default_view(default), tag) {
                    Ok(k) => !(k.1 is Plain) && e == SchemaError::InvalidOneofLabel,
                    Err(e2) => e == e2,
                },
            },
    {
        let f = match Field::new(ty, label, packed, default, tag) {
            Ok(f) => f,
            Err(e) => {
                return Err(e);
            },
        };
        match f.kind {
            Kind::Plain(d) => Ok(Field { ty: f.ty, kind: Kind::Required(d), tag: f.tag }),
            _ => Err(SchemaError::InvalidOneofLabel),
        }
    }
}

// ---------------------------------------------------------------------------
// The bytes of a whole scalar field, by presence kind.
// ---------------------------------------------------------------------------

/// The records of a repeated field: one tag and one value per element, in
/// sequence order.
pub open spec fn repeated_bytes(ty: Ty, tag: u32, vs: Seq<SpecScalar>) -> Seq<u8>
    decreases vs.len(),
{
    if vs.len() == 0 {
        Seq::empty()
    } else {
        tag_bytes(tag, ty.wire_shape()) + scalar_bytes(ty, vs[0]) + repeated_bytes(
            ty,
            tag,
            vs.skip(1),
        )
    }
}

/// The payload of a packed run: each element's raw value bytes, with no
/// per-element tag.
pub open spec fn packed_payload(ty: Ty, vs: Seq<SpecScalar>) -> Seq<u8>
    decreases vs.len(),
{
    if vs.len() == 0 {
        Seq::empty()
    } else {
        scalar_bytes(ty, vs[0]) + packed_payload(ty, vs.skip(1))
    }
}

/// The encoding of one whole scalar field, holding storage `fv`:
/// - a plain field at its default encodes to nothing, otherwise tag + value;
/// - an absent optional field encodes to nothing, a present one to tag +
///   value;
/// - a required field always encodes to tag + value;
/// - a repeated field encodes one tagged record per element;
/// - a packed field encodes one tag and one length-delimited run of the raw
///   element values, and an empty sequence encodes to nothing.
pub open spec fn field_bytes(f: Field, fv: SpecField) -> Seq<u8> {
    match f.kind@ {
        SpecKind::Plain(d) => if fv->Single_0 == d {
            Seq::empty()
        } else {
            tag_bytes(f.tag, f.ty.wire_shape()) + scalar_bytes(f.ty, fv->Single_0)
        },
        SpecKind::Optional(_) => match fv->Opt_0 {
            None => Seq::empty(),
            Some(v) => tag_bytes(f.tag, f.ty.wire_shape()) + scalar_bytes(f.ty, v),
        },
        SpecKind::Required(_) => tag_bytes(f.tag, f.ty.wire_shape()) + scalar_bytes(
            f.ty,
            fv->Single_0,
        ),
        SpecKind::Repeated => repeated_bytes(f.ty, f.tag, fv->List_0),
        SpecKind::Packed => if fv->List_0.len() == 0 {
            Seq::empty()
        } else {
            tag_bytes(f.tag, WireType::LengthDelimited) + len_delim_bytes(
                packed_payload(f.ty, fv->List_0),
            )
        },
    }
}

/// The storage a cleared field holds: the default for the singular kinds,
/// absence for optional, the empty sequence for repeated and packed.
pub open spec fn cleared(f: Field) -> SpecField {
    match f.kind@ {
        SpecKind::Plain(d) => SpecField::Single(d),
        SpecKind::Required(d) => SpecField::Single(d),
        SpecKind::Optional(_) => SpecField::Opt(None),
        SpecKind::Repeated => SpecField::List(Seq::empty()),
        SpecKind::Packed => SpecField::List(Seq::empty()),
    }
}

impl Field {
    /// Appends the encoding of this field, holding `value`, to `buf`.
    pub fn encode(&self, value: &FieldValue, buf: &mut Vec<u8>)
        requires
            self.wf(),
            self.value_wf(value@),
        ensures
            final(buf)@ == old(buf)@ + field_bytes(*self, value@),
    {
        let ghost start = buf@;
        match (&self.kind, value) {
            (Kind::Plain(d), FieldValue::Single(v)) => {
                if !crate::value::scalar_eq(v, d) {
                    crate::wire::encode_tag(self.tag, self.ty.wire_type(), buf);
                    encode_scalar(&self.ty, v, buf);
                    proof {
                        assert(buf@ =~= start + field_bytes(*self, value@));
                    }
                } else {
                    proof {
                        assert(buf@ =~= start + field_bytes(*self, value@));
                    }
                }
            },
            (Kind::Optional(_), FieldValue::Opt(o)) => {
                match o {
                    Some(v) => {
                        crate::wire::encode_tag(self.tag, self.ty.wire_type(), buf);
                        encode_scalar(&self.ty, v, buf);
                        proof {
                            assert(buf@ =~= start + field_bytes(*self, value@));
                        }
                    },
                    None => {
                        proof {
                            assert(buf@ =~= start + field_bytes(*self, value@));
                        }
                    },
                }
            },
            (Kind::Required(_), FieldValue::Single(v)) => {
                crate::wire::encode_tag(self.tag, self.ty.wire_type(), buf);
                encode_scalar(&self.ty, v, buf);
                proof {
                    assert(buf@ =~= start + field_bytes(*self, value@));
                }
            },
            (Kind::Repeated, FieldValue::List(vs)) => {
                let ghost views = scalars_view(vs@);
                let mut i: usize = 0;
                proof {
                    assert(views.skip(0) =~= views);
                    assert(value@->List_0 == views);
                    assert forall|k: int| 0 <= k < vs@.len() implies value_shape(
                        self.ty,
                        #[trigger] views[k],
                    ) by {
                        assert(value_shape(self.ty, value@->List_0[k]));
                    }
                }
                while i < vs.len()
                    invariant
                        0 <= i <= vs@.len(),
                        views == scalars_view(vs@),
                        views.len() == vs@.len(),
                        self.wf(),
                        self.value_wf(value@),
                        forall|k: int| 0 <= k < vs@.len() ==> value_shape(self.ty, #[trigger] views[k]),
                        start + repeated_bytes(self.ty, self.tag, views) == buf@ + repeated_bytes(
                            self.ty,
                            self.tag,
                            views.skip(i as int),
                        ),
                    decreases vs@.len() - i,
                {
                    proof {
                        assert(views[i as int] == vs@[i as int]@);
                        assert(value_shape(self.ty, views[i as int]));
                    }
                    crate::wire::encode_tag(self.tag, self.ty.wire_type(), buf);
                    encode_scalar(&self.ty, &vs[i], buf);
                    proof {
                        assert(views.skip(i as int).skip(1) =~= views.skip(i + 1));
                        assert(views.skip(i as int)[0] == views[i as int]);
                        assert(start + repeated_bytes(self.ty, self.tag, views) =~= buf@
                            + repeated_bytes(self.ty, self.tag, views.skip(i + 1)));
                    }
                    i = i + 1;
                }
                proof {
                    assert(views.skip(vs@.len() as int) =~= Seq::<SpecScalar>::empty());
                    assert(buf@ =~= start + field_bytes(*self, value@));
                }
            },
            (Kind::Packed, FieldValue::List(vs)) => {
                if vs.len() > 0 {
                    let ghost views = scalars_view(vs@);
                    crate::wire::encode_tag(self.tag, WireType::LengthDelimited, buf);
                    let mut payload: Vec<u8> = Vec::new();
                    let mut i: usize = 0;
                    proof {
                        assert(views.skip(0) =~= views);
                        assert(payload@ + packed_payload(self.ty, views) =~= packed_payload(
                            self.ty,
                            views,
                        ));
                        assert(value@->List_0 == views);
                        assert forall|k: int| 0 <= k < vs@.len() implies value_shape(
                            self.ty,
                            #[trigger] views[k],
                        ) by {
                            assert(value_shape(self.ty, value@->List_0[k]));
                        }
                    }
                    while i < vs.len()
                        invariant
                            0 <= i <= vs@.len(),
                            views == scalars_view(vs@),
                            views.len() == vs@.len(),
                            self.wf(),
                            self.value_wf(value@),
                            forall|k: int|
                                0 <= k < vs@.len() ==> value_shape(self.ty, #[trigger] views[k]),
                            packed_payload(self.ty, views) == payload@ + packed_payload(
                                self.ty,
                                views.skip(i as int),
                            ),
                        decreases vs@.len() - i,
                    {
                        proof {
                            assert(views[i as int] == vs@[i as int]@);
                            assert(value_shape(self.ty, views[i as int]));
                        }
                        encode_scalar(&self.ty, &vs[i], &mut payload);
                        proof {
                            assert(views.skip(i as int).skip(1) =~= views.skip(i + 1));
                            assert(views.skip(i as int)[0] == views[i as int]);
                            assert(packed_payload(self.ty, views) =~= payload@ + packed_payload(
                                self.ty,
                                views.skip(i + 1),
                            ));
                        }
                        i = i + 1;
                    }
                    proof {
                        assert(views.skip(vs@.len() as int) =~= Seq::<SpecScalar>::empty());
                        assert(payload@ =~= packed_payload(self.ty, views));
                    }
                    crate::wire::encode_len_delimited(payload.as_slice(), buf);
                    proof {
                        assert(buf@ =~= start + field_bytes(*self, value@));
                    }
                } else {
                    proof {
                        assert(buf@ =~= start + field_bytes(*self, value@));
                    }
                }
            },
            _ => {
                proof {
                    assert(false);
                }
            },
        }
    }

    /// Returns the number of bytes `encode` would append for this field
    /// holding `value`.
    pub fn encoded_len(&self, value: &FieldValue) -> (r: usize)
        requires
            self.wf(),
            self.value_wf(value@),
            field_bytes(*self, value@).len() <= usize::MAX,
        ensures
            r == field_bytes(*self, value@).len(),
    {
        match (&self.kind, value) {
            (Kind::Plain(d), FieldValue::Single(v)) => {
                if !crate::value::scalar_eq(v, d) {
                    let tl = crate::wire::encoded_len_tag(self.tag, self.ty.wire_type());
                    tl + scalar_len(&self.ty, v)
                } else {
                    0
                }
            },
            (Kind::Optional(_), FieldValue::Opt(o)) => {
                match o {
                    Some(v) => {
                        let tl = crate::wire::encoded_len_tag(self.tag, self.ty.wire_type());
                        tl + scalar_len(&self.ty, v)
                    },
                    None => 0,
                }
            },
            (Kind::Required(_), FieldValue::Single(v)) => {
                let tl = crate::wire::encoded_len_tag(self.tag, self.ty.wire_type());
                tl + scalar_len(&self.ty, v)
            },
            (Kind::Repeated, FieldValue::List(vs)) => {
                let ghost views = scalars_view(vs@);
                let ghost total = repeated_bytes(self.ty, self.tag, views).len() as int;
                let mut acc: usize = 0;
                let mut i: usize = 0;
                proof {
                    assert(views.skip(0) =~= views);
                    assert(value@->List_0 == views);
                    assert forall|k: int| 0 <= k < vs@.len() implies value_shape(
                        self.ty,
                        #[trigger] views[k],
                    ) by {
                        assert(value_shape(self.ty, value@->List_0[k]));
                    }
                }
                while i < vs.len()
                    invariant
                        0 <= i <= vs@.len(),
                        views == scalars_view(vs@),
                        views.len() == vs@.len(),
                        self.wf(),
                        total == repeated_bytes(self.ty, self.tag, views).len(),
                        total <= usize::MAX,
                        forall|k: int| 0 <= k < vs@.len() ==> value_shape(self.ty, #[trigger] views[k]),
                        acc + repeated_bytes(self.ty, self.tag, views.skip(i as int)).len()
                            == total,
                    decreases vs@.len() - i,
                {
                    proof {
                        assert(views[i as int] == vs@[i as int]@);
                        assert(views.skip(i as int).skip(1) =~= views.skip(i + 1));
                        assert(views.skip(i as int)[0] == views[i as int]);
                    }
                    let tl = crate::wire::encoded_len_tag(self.tag, self.ty.wire_type());
                    let vl = scalar_len(&self.ty, &vs[i]);
                    acc = acc + tl + vl;
                    i = i + 1;
                }
                proof {
                    assert(views.skip(vs@.len() as int) =~= Seq::<SpecScalar>::empty());
                }
                acc
            },
            (Kind::Packed, FieldValue::List(vs)) => {
                if vs.len() == 0 {
                    0
                } else {
                    let ghost views = scalars_view(vs@);
                    let ghost ptotal = packed_payload(self.ty, views).len() as int;
                    let mut acc: usize = 0;
                    let mut i: usize = 0;
                    proof {
                        assert(views.skip(0) =~= views);
                        assert(value@->List_0 == views);
                        assert forall|k: int| 0 <= k < vs@.len() implies value_shape(
                            self.ty,
                            #[trigger] views[k],
                        ) by {
                            assert(value_shape(self.ty, value@->List_0[k]));
                        }
                    }
                    while i < vs.len()
                        invariant
                            0 <= i <= vs@.len(),
                            views == scalars_view(vs@),
                            views.len() == vs@.len() > 0,
                            self.wf(),
                            self.kind@ is Packed,
                            value@ is List && value@->List_0 == views,
                            field_bytes(*self, value@).len() <= usize::MAX,
                            ptotal == packed_payload(self.ty, views).len(),
                            forall|k: int|
                                0 <= k < vs@.len() ==> value_shape(self.ty, #[trigger] views[k]),
                            acc + packed_payload(self.ty, views.skip(i as int)).len() == ptotal,
                        decreases vs@.len() - i,
                    {
                        proof {
                            assert(views[i as int] == vs@[i as int]@);
                            assert(views.skip(i as int).skip(1) =~= views.skip(i + 1));
                            assert(views.skip(i as int)[0] == views[i as int]);
                        }
                        let vl = scalar_len(&self.ty, &vs[i]);
                        acc = acc + vl;
                        i = i + 1;
                    }
                    proof {
                        assert(views.skip(vs@.len() as int) =~= Seq::<SpecScalar>::empty());
                        assert(acc == packed_payload(self.ty, views).len());
                    }
                    let tl = crate::wire::encoded_len_tag(
                        self.tag,
                        WireType::LengthDelimited,
                    );
                    let ll = crate::wire::encoded_len_varint(acc as u64);
                    tl + ll + acc
                }
            },
            _ => {
                proof {
                    assert(false);
                }
                0
            },
        }
    }

    /// Renders this field's storage for diagnostics.
    pub fn debug(&self, value: &FieldValue) -> (r: String)
        ensures
            r@ == crate::render::spec_field_render(value@),
    {
        crate::render::render_field(value)
    }

    /// Returns the field's default storage: what a freshly cleared field
    /// holds.
    pub fn default_value(&self) -> (r: FieldValue)
        ensures
            r@ == cleared(*self),
            self.wf() ==> self.value_wf(r@),
    {
        proof {
            assert(scalars_view(Seq::<ScalarValue>::empty()) =~= Seq::<SpecScalar>::empty());
        }
        match &self.kind {
            Kind::Plain(d) => FieldValue::Single(crate::value::scalar_clone(d)),
            Kind::Required(d) => FieldValue::Single(crate::value::scalar_clone(d)),
            Kind::Optional(_) => FieldValue::Opt(None),
            Kind::Repeated => FieldValue::List(Vec::new()),
            Kind::Packed => FieldValue::List(Vec::new()),
        }
    }

    /// Resets the field's storage: singular kinds return to the default
    /// value (not to absence), optional fields to absent, repeated and
    /// packed fields to the empty sequence.
    pub fn clear(&self, value: &mut FieldValue)
        ensures
            final(value)@ == cleared(*self),
            self.wf() ==> self.value_wf(final(value)@),
    {
        *value = self.default_value();
    }
}

// ---------------------------------------------------------------------------
// Decoding: the functional mirror of reading one value, a packed run, and
// one merge step.
// ---------------------------------------------------------------------------

/// The functional mirror of decoding one scalar value of type `ty` at the
/// start of `s`: the decoded value and the bytes consumed, or the exact
/// error.
pub open spec fn scalar_prefix(ty: Ty, s: Seq<u8>) -> Result<(SpecScalar, int), DecodeError> {
    match ty.wire_shape() {
        WireType::Varint => match crate::wire::varint_prefix(s, 0) {
            Ok(l) => Ok((wire64_to_scalar(ty, crate::wire::varint_int(s.take(l)) as u64), l)),
            Err(e) => Err(e),
        },
        WireType::Fixed32 => if s.len() >= 4 {
            Ok((bits32_to_scalar(ty, crate::wire::le4_value(s.take(4))), 4))
        } else {
            Err(DecodeError::Truncated)
        },
        WireType::Fixed64 => if s.len() >= 8 {
            Ok((bits64_to_scalar(ty, crate::wire::le8_value(s.take(8))), 8))
        } else {
            Err(DecodeError::Truncated)
        },
        WireType::LengthDelimited => match crate::wire::varint_prefix(s, 0) {
            Ok(l) => {
                let n = crate::wire::varint_int(s.take(l));
                if n <= s.len() - l {
                    Ok((SpecScalar::Bytes(s.subrange(l, l + n)), l + n))
                } else {
                    Err(DecodeError::Truncated)
                }
            },
            Err(e) => Err(e),
        },
    }
}

/// A decoded scalar consumes at least one byte, never more than the buffer,
/// and has the carrier shape of its type.
pub proof fn lemma_scalar_prefix_ok(ty: Ty, s: Seq<u8>)
    ensures
        match scalar_prefix(ty, s) {
            Ok((v, l)) => 0 < l <= s.len() && value_shape(ty, v),
            Err(_) => true,
        },
{
    crate::wire::lemma_varint_prefix_ok(s, 0);
    match ty.wire_shape() {
        WireType::Varint => {
            match crate::wire::varint_prefix(s, 0) {
                Ok(l) => {
                    let n = crate::wire::varint_int(s.take(l)) as u64;
                    assert(value_shape(ty, wire64_to_scalar(ty, n)));
                },
                Err(_) => {},
            }
        },
        WireType::Fixed32 => {
            if s.len() >= 4 {
                assert(value_shape(ty, bits32_to_scalar(ty, crate::wire::le4_value(s.take(4)))));
            }
        },
        WireType::Fixed64 => {
            if s.len() >= 8 {
                assert(value_shape(ty, bits64_to_scalar(ty, crate::wire::le8_value(s.take(8)))));
            }
        },
        WireType::LengthDelimited => {
            match crate::wire::varint_prefix(s, 0) {
                Ok(l) => {
                    crate::wire::lemma_varint_int_range(s.take(l));
                },
                Err(_) => {},
            }
        },
    }
}

/// Returns the scalar value that a varint payload denotes under `ty`.
pub fn scalar_of_wire64(ty: &Ty, n: u64) -> (r: ScalarValue)
    requires
        ty.wire_shape() == WireType::Varint,
    ensures
        r@ == wire64_to_scalar(*ty, n),
{
    match ty {
        Ty::Int32 => ScalarValue::I32(crate::wire::decode_as_i32(n)),
        Ty::Enumeration(_) => ScalarValue::I32(crate::wire::decode_as_i32(n)),
        Ty::Int64 => ScalarValue::I64(crate::wire::decode_as_i64(n)),
        Ty::Uint32 => ScalarValue::U32((n % 0x100000000) as u32),
        Ty::Uint64 => ScalarValue::U64(n),
        Ty::Sint32 => ScalarValue::I32(crate::wire::zigzag_decode32((n % 0x100000000) as u32)),
        Ty::Sint64 => ScalarValue::I64(crate::wire::zigzag_decode64(n)),
        Ty::Bool => ScalarValue::Bool(n != 0),
        _ => {
            proof {
                assert(false);
            }
            ScalarValue::Bool(false)
        },
    }
}

/// Returns the scalar value that a 32-bit word denotes under `ty`.
pub fn scalar_of_bits32(ty: &Ty, u: u32) -> (r: ScalarValue)
    requires
        ty.wire_shape() == WireType::Fixed32,
    ensures
        r@ == bits32_to_scalar(*ty, u),
{
    match ty {
        Ty::Float => ScalarValue::U32(u),
        Ty::Fixed32 => ScalarValue::U32(u),
        Ty::Sfixed32 => ScalarValue::I32(
            if u < 0x80000000 {
                u as i32
            } else {
                -(((0xffffffffu32 - u) as u32) as i32) - 1
            },
        ),
        _ => {
            proof {
                assert(false);
            }
            ScalarValue::Bool(false)
        },
    }
}

/// Returns the scalar value that a 64-bit word denotes under `ty`.
pub fn scalar_of_bits64(ty: &Ty, u: u64) -> (r: ScalarValue)
    requires
        ty.wire_shape() == WireType::Fixed64,
    ensures
        r@ == bits64_to_scalar(*ty, u),
{
    match ty {
        Ty::Double => ScalarValue::U64(u),
        Ty::Fixed64 => ScalarValue::U64(u),
        Ty::Sfixed64 => ScalarValue::I64(crate::wire::decode_as_i64(u)),
        _ => {
            proof {
                assert(false);
            }
            ScalarValue::Bool(false)
        },
    }
}

/// Reads one scalar value of type `ty` from the start of `window`.
pub fn decode_scalar(ty: &Ty, window: &[u8]) -> (r: Result<(ScalarValue, usize), DecodeError>)
    ensures
        match r {
            Ok((v, used)) => {
                &&& scalar_prefix(*ty, window@) == Ok::<_, DecodeError>((v@, used as int))
                &&& 0 < used <= window@.len()
                &&& value_shape(*ty, v@)
            },
            Err(e) => scalar_prefix(*ty, window@) == Err::<(SpecScalar, int), _>(e),
        },
{
    proof {
        assert(window@.skip(0) =~= window@);
    }
    match ty.wire_type() {
        WireType::Varint => {
            match crate::wire::decode_varint(window, 0) {
                Ok((n, end)) => {
                    proof {
                        crate::wire::lemma_varint_prefix_bridge(
                            window@,
                            0,
                            Ok::<(u64, int), DecodeError>((n, end as int)),
                        );
                    }
                    Ok((scalar_of_wire64(ty, n), end))
                },
                Err(e) => {
                    proof {
                        crate::wire::lemma_varint_prefix_bridge(
                            window@,
                            0,
                            Err::<(u64, int), DecodeError>(e),
                        );
                    }
                    Err(e)
                },
            }
        },
        WireType::Fixed32 => {
            match crate::wire::decode_fixed32(window, 0) {
                Ok((u, end)) => {
                    proof {
                        assert(window@.subrange(0, 4) =~= window@.take(4));
                    }
                    Ok((scalar_of_bits32(ty, u), end))
                },
                Err(e) => Err(e),
            }
        },
        WireType::Fixed64 => {
            match crate::wire::decode_fixed64(window, 0) {
                Ok((u, end)) => {
                    proof {
                        assert(window@.subrange(0, 8) =~= window@.take(8));
                    }
                    Ok((scalar_of_bits64(ty, u), end))
                },
                Err(e) => Err(e),
            }
        },
        WireType::LengthDelimited => {
            match crate::wire::decode_len_prefix(window, 0) {
                Ok((start, end)) => {
                    proof {
                        crate::wire::lemma_varint_prefix_bridge(
                            window@,
                            0,
                            Ok::<(u64, int), DecodeError>(((end - start) as u64, start as int)),
                        );
                        assert(window@.take(start as int) =~= window@.subrange(0, start as int));
                    }
                    let payload = crate::wire::read_bytes(window, start, end);
                    Ok((ScalarValue::Bytes(payload), end))
                },
                Err(e) => {
                    proof {
                        lemma_len_prefix_err_bridge(window@, e);
                    }
                    Err(e)
                },
            }
        },
    }
}

/// Bridges the error cases of `decode_len_prefix` at position zero to the
/// functional length-delimited prefix spec.
proof fn lemma_len_prefix_err_bridge(w: Seq<u8>, e: DecodeError)
    requires
        match e {
            DecodeError::Truncated => {
                ||| (w.len() < 10 && forall|k: int| 0 <= k < w.len() ==> #[trigger] w[k] >= 128)
                ||| exists|start: int|
                    {
                        &&& 0 < start <= w.len()
                        &&& start <= 10
                        &&& #[trigger] crate::wire::varint_term_at(w, 0, start - 1)
                        &&& (start == 10 ==> w[9] <= 1)
                        &&& crate::wire::varint_int(w.subrange(0, start)) > w.len() - start
                    }
            },
            _ => crate::wire::decode_varint_err_spec(w, 0, e) && !(e == DecodeError::Truncated),
        },
    ensures
        match crate::wire::varint_prefix(w, 0) {
            Ok(l) => e == DecodeError::Truncated && crate::wire::varint_int(w.take(l)) > w.len()
                - l,
            Err(e2) => e2 == e,
        },
{
    assert(w.skip(0) =~= w);
    match e {
        DecodeError::Truncated => {
            if w.len() < 10 && forall|k: int| 0 <= k < w.len() ==> #[trigger] w[k] >= 128 {
                crate::wire::lemma_varint_prefix_bridge(
                    w,
                    0,
                    Err::<(u64, int), DecodeError>(DecodeError::Truncated),
                );
            } else {
                let start = choose|start: int|
                    {
                        &&& 0 < start <= w.len()
                        &&& start <= 10
                        &&& #[trigger] crate::wire::varint_term_at(w, 0, start - 1)
                        &&& (start == 10 ==> w[9] <= 1)
                        &&& crate::wire::varint_int(w.subrange(0, start)) > w.len() - start
                    };
                let ghost n = crate::wire::varint_int(w.subrange(0, start));
                crate::wire::lemma_varint_int_bound(w.subrange(0, start));
                crate::wire::lemma_varint_prefix_bridge(
                    w,
                    0,
                    Ok::<(u64, int), DecodeError>((n as u64, start)),
                );
                assert(w.take(start) =~= w.subrange(0, start));
            }
        },
        _ => {
            crate::wire::lemma_varint_prefix_bridge(w, 0, Err::<(u64, int), DecodeError>(e));
        },
    }
}

/// The functional mirror of decoding a whole packed run: every element of
/// type `ty` in `s`, in order, or the error met along the way.
pub open spec fn packed_prefix(ty: Ty, s: Seq<u8>) -> Result<Seq<SpecScalar>, DecodeError>
    decreases s.len(),
    via packed_prefix_decreases
{
    if s.len() == 0 {
        Ok(Seq::empty())
    } else {
        match scalar_prefix(ty, s) {
            Ok((v, l)) => match packed_prefix(ty, s.skip(l)) {
                Ok(vs) => Ok(seq![v] + vs),
                Err(e) => Err(e),
            },
            Err(e) => Err(e),
        }
    }
}

#[via_fn]
proof fn packed_prefix_decreases(ty: Ty, s: Seq<u8>) {
    lemma_scalar_prefix_ok(ty, s);
}

/// Whether this field accepts a length-delimited record as a packed run:
/// repeated or packed kind, numeric type.
pub open spec fn accepts_packed(f: Field, wt: WireType) -> bool {
    &&& (f.kind@ is Repeated || f.kind@ is Packed)
    &&& f.ty.spec_is_numeric()
    &&& wt is LengthDelimited
}

/// How one decoded value lands in the field's storage: singular kinds are
/// overwritten, an optional field becomes present, repeated and packed
/// fields append.
pub open spec fn apply_one(f: Field, old: SpecField, v: SpecScalar) -> SpecField {
    match f.kind@ {
        SpecKind::Plain(_) => SpecField::Single(v),
        SpecKind::Required(_) => SpecField::Single(v),
        SpecKind::Optional(_) => SpecField::Opt(Some(v)),
        SpecKind::Repeated => SpecField::List(old->List_0.push(v)),
        SpecKind::Packed => SpecField::List(old->List_0.push(v)),
    }
}

/// The functional mirror of merging one wire occurrence of this field,
/// arriving with wire type `wt`, into storage `old`; `s` holds the bytes
/// from the occurrence's value onward. A repeated or packed numeric field
/// accepts both its element wire type (one element) and a length-delimited
/// packed run (all its elements); any other mismatch between `wt` and the
/// declared wire type is an `UnexpectedWireType` error.
pub open spec fn merge_spec(f: Field, wt: WireType, s: Seq<u8>, old: SpecField) -> Result<
    (SpecField, int),
    DecodeError,
> {
    if accepts_packed(f, wt) {
        match crate::wire::varint_prefix(s, 0) {
            Ok(l) => {
                let n = crate::wire::varint_int(s.take(l));
                if n <= s.len() - l {
                    match packed_prefix(f.ty, s.subrange(l, l + n)) {
                        Ok(vs) => Ok((SpecField::List(old->List_0 + vs), l + n)),
                        Err(e) => Err(e),
                    }
                } else {
                    Err(DecodeError::Truncated)
                }
            },
            Err(e) => Err(e),
        }
    } else if wt != f.ty.wire_shape() {
        Err(DecodeError::UnexpectedWireType)
    } else {
        match scalar_prefix(f.ty, s) {
            Ok((v, l)) => Ok((apply_one(f, old, v), l)),
            Err(e) => Err(e),
        }
    }
}

/// A successful merge consumes at least one byte and never more than the
/// buffer.
pub proof fn lemma_merge_spec_ok(f: Field, wt: WireType, s: Seq<u8>, old: SpecField)
    ensures
        match merge_spec(f, wt, s, old) {
            Ok((_, used)) => 1 <= used <= s.len(),
            Err(_) => true,
        },
{
    crate::wire::lemma_varint_prefix_ok(s, 0);
    lemma_scalar_prefix_ok(f.ty, s);
    if accepts_packed(f, wt) {
        match crate::wire::varint_prefix(s, 0) {
            Ok(l) => {
                crate::wire::lemma_varint_int_range(s.take(l));
            },
            Err(_) => {},
        }
    }
}

impl Field {
    /// Merges one decoded occurrence of this field into `value`. The tag has
    /// already been read; `wire_type` is the wire type it carried, and the
    /// occurrence's value starts at `pos`. Returns the position one past the
    /// consumed bytes.
    ///
    /// On an error the storage keeps its shape, but a packed run may already
    /// have appended some of its elements: a failed merge leaves partial
    /// state behind, and the caller discards the message.
    pub fn merge(
        &self,
        wire_type: WireType,
        data: &[u8],
        pos: usize,
        value: &mut FieldValue,
    ) -> (r: Result<usize, DecodeError>)
        requires
            self.wf(),
            self.value_wf(old(value)@),
            pos <= data@.len(),
        ensures
            self.value_wf(final(value)@),
            match r {
                Ok(end) => {
                    &&& pos <= end <= data@.len()
                    &&& merge_spec(*self, wire_type, data@.skip(pos as int), old(value)@)
                        == Ok::<_, DecodeError>((final(value)@, end - pos))
                },
                Err(e) => merge_spec(*self, wire_type, data@.skip(pos as int), old(value)@)
                    == Err::<(SpecField, int), _>(e),
            },
    {
        let ghost s = data@.skip(pos as int);
        let is_list = match &self.kind {
            Kind::Repeated => true,
            Kind::Packed => true,
            _ => false,
        };
        if is_list && self.ty.is_numeric() && matches!(wire_type, WireType::LengthDelimited) {
            // A packed run: one length prefix, then raw element values.
            let (start, vend) = match crate::wire::decode_len_prefix(data, pos) {
                Ok(x) => x,
                Err(e) => {
                    proof {
                        lemma_len_prefix_err_at(data@, pos as int, e);
                    }
                    return Err(e);
                },
            };
            proof {
                crate::wire::lemma_varint_prefix_bridge(
                    data@,
                    pos as int,
                    Ok::<(u64, int), DecodeError>(((vend - start) as u64, start as int)),
                );
                assert(s.take(start - pos) =~= data@.subrange(pos as int, start as int));
            }
            let ghost w = data@.subrange(start as int, vend as int);
            let ghost old_views = old(value)@->List_0;
            let ghost done = Seq::<SpecScalar>::empty();
            let mut cur: usize = start;
            proof {
                assert(w.skip(0) =~= w);
                assert(done + Seq::<SpecScalar>::empty() =~= done);
                assert(value@->List_0 =~= old_views + done);
                assert(s.subrange(start - pos, start - pos + (vend - start)) =~= w);
            }
            while cur < vend
                invariant
                    pos <= start <= cur <= vend,
                    vend <= data@.len(),
                    s == data@.skip(pos as int),
                    w == data@.subrange(start as int, vend as int),
                    w == s.subrange(start - pos, start - pos + (vend - start)),
                    crate::wire::varint_prefix(s, 0) == Ok::<int, DecodeError>(start - pos),
                    crate::wire::varint_int(s.take(start - pos)) == vend - start,
                    accepts_packed(*self, wire_type),
                    self.wf(),
                    self.value_wf(value@),
                    value@ is List,
                    old_views == old(value)@->List_0,
                    value@->List_0 == old_views + done,
                    match packed_prefix(self.ty, w.skip(cur - start)) {
                        Ok(rest) => packed_prefix(self.ty, w) == Ok::<_, DecodeError>(done + rest),
                        Err(e) => packed_prefix(self.ty, w) == Err::<Seq<SpecScalar>, _>(e),
                    },
                decreases vend - cur,
            {
                let window = vstd::slice::slice_subrange(data, cur, vend);
                proof {
                    assert(window@ =~= w.skip(cur - start));
                }
                match decode_scalar(&self.ty, window) {
                    Ok((v, used)) => {
                        proof {
                            assert(w.skip(cur - start).skip(used as int) =~= w.skip(
                                cur + used - start,
                            ));
                        }
                        let ghost prev_done = done;
                        let ghost before_list = value@->List_0;
                        proof {
                            done = done.push(v@);
                        }
                        match value {
                            FieldValue::List(vs) => {
                                vs.push(v);
                            },
                            _ => {
                                proof {
                                    assert(false);
                                }
                            },
                        }
                        proof {
                            assert(value@->List_0 =~= before_list.push(v@));
                            assert(value@->List_0 =~= old_views + done);
                            assert forall|k: int| 0 <= k < value@->List_0.len() implies value_shape(
                                self.ty,
                                #[trigger] value@->List_0[k],
                            ) by {
                                if k < before_list.len() {
                                    assert(value_shape(self.ty, before_list[k]));
                                } else {
                                    assert(value@->List_0[k] == v@);
                                }
                            }
                            match packed_prefix(self.ty, w.skip(cur + used - start)) {
                                Ok(rest) => {
                                    assert(packed_prefix(self.ty, w.skip(cur - start))
                                        == Ok::<_, DecodeError>(seq![v@] + rest));
                                    assert(done + rest =~= prev_done + (seq![v@] + rest));
                                },
                                Err(_) => {},
                            }
                        }
                        cur = cur + used;
                    },
                    Err(e) => {
                        proof {
                            assert(w.skip(cur - start).len() > 0);
                        }
                        return Err(e);
                    },
                }
            }
            proof {
                assert(w.skip(vend - start) =~= Seq::<u8>::empty());
                assert(done + Seq::<SpecScalar>::empty() =~= done);
                assert(packed_prefix(self.ty, w) == Ok::<_, DecodeError>(done));
                assert(merge_spec(*self, wire_type, s, old(value)@) == Ok::<_, DecodeError>(
                    (SpecField::List(old_views + done), (start - pos) + (vend - start)),
                ));
            }
            Ok(vend)
        } else {
            let expected = self.ty.wire_type();
            if !wire_type_eq(wire_type, expected) {
                return Err(DecodeError::UnexpectedWireType);
            }
            let window = vstd::slice::slice_subrange(data, pos, data.len());
            proof {
                assert(window@ =~= s);
            }
            match decode_scalar(&self.ty, window) {
                Ok((v, used)) => {
                    match (&self.kind, &mut *value) {
                        (Kind::Plain(_), _) => {
                            *value = FieldValue::Single(v);
                        },
                        (Kind::Required(_), _) => {
                            *value = FieldValue::Single(v);
                        },
                        (Kind::Optional(_), _) => {
                            *value = FieldValue::Opt(Some(v));
                        },
                        (Kind::Repeated, FieldValue::List(vs)) => {
                            vs.push(v);
                        },
                        (Kind::Packed, FieldValue::List(vs)) => {
                            vs.push(v);
                        },
                        _ => {
                            proof {
                                assert(false);
                            }
                        },
                    }
                    proof {
                        if self.kind@ is Repeated || self.kind@ is Packed {
                            let ghost before_list = old(value)@->List_0;
                            assert(value@->List_0 =~= before_list.push(v@));
                            assert forall|k: int| 0 <= k < value@->List_0.len() implies value_shape(
                                self.ty,
                                #[trigger] value@->List_0[k],
                            ) by {
                                if k < before_list.len() {
                                    assert(value_shape(self.ty, before_list[k]));
                                } else {
                                    assert(value@->List_0[k] == v@);
                                }
                            }
                        }
                    }
                    Ok(pos + used)
                },
                Err(e) => Err(e),
            }
        }
    }
}

/// Compares two wire types.
pub fn wire_type_eq(a: WireType, b: WireType) -> (r: bool)
    ensures
        r == (a == b),
{
    match (a, b) {
        (WireType::Varint, WireType::Varint) => true,
        (WireType::Fixed64, WireType::Fixed64) => true,
        (WireType::LengthDelimited, WireType::LengthDelimited) => true,
        (WireType::Fixed32, WireType::Fixed32) => true,
        _ => false,
    }
}

/// Bridges the error cases of `decode_len_prefix` at `pos` to the functional
/// prefix spec over the bytes from `pos` on.
pub proof fn lemma_len_prefix_err_at(data: Seq<u8>, pos: int, e: DecodeError)
    requires
        0 <= pos <= data.len(),
        match e {
            DecodeError::Truncated => {
                ||| (data.len() - pos < 10 && forall|k: int|
                    pos <= k < data.len() ==> #[trigger] data[k] >= 128)
                ||| exists|start: int|
                    {
                        &&& pos < start <= data.len()
                        &&& start - pos <= 10
                        &&& #[trigger] crate::wire::varint_term_at(data, pos, start - pos - 1)
                        &&& (start - pos == 10 ==> data[pos + 9] <= 1)
                        &&& crate::wire::varint_int(data.subrange(pos, start)) > data.len() - start
                    }
            },
            _ => crate::wire::decode_varint_err_spec(data, pos, e) && !(e
                == DecodeError::Truncated),
        },
    ensures
        match crate::wire::varint_prefix(data.skip(pos), 0) {
            Ok(l) => e == DecodeError::Truncated && crate::wire::varint_int(
                data.skip(pos).take(l),
            ) > data.skip(pos).len() - l,
            Err(e2) => e2 == e,
        },
{
    let s = data.skip(pos);
    assert forall|k: int| 0 <= k < s.len() implies s[k] == data[pos + k] by {}
    match e {
        DecodeError::Truncated => {
            if data.len() - pos < 10 && forall|k: int|
                pos <= k < data.len() ==> #[trigger] data[k] >= 128 {
                crate::wire::lemma_varint_prefix_bridge(
                    data,
                    pos,
                    Err::<(u64, int), DecodeError>(DecodeError::Truncated),
                );
            } else {
                let start = choose|start: int|
                    {
                        &&& pos < start <= data.len()
                        &&& start - pos <= 10
                        &&& #[trigger] crate::wire::varint_term_at(data, pos, start - pos - 1)
                        &&& (start - pos == 10 ==> data[pos + 9] <= 1)
                        &&& crate::wire::varint_int(data.subrange(pos, start)) > data.len() - start
                    };
                let ghost n = crate::wire::varint_int(data.subrange(pos, start));
                crate::wire::lemma_varint_int_bound(data.subrange(pos, start));
                crate::wire::lemma_varint_prefix_bridge(
                    data,
                    pos,
                    Ok::<(u64, int), DecodeError>((n as u64, start)),
                );
                assert(s.take(start - pos) =~= data.subrange(pos, start));
            }
        },
        _ => {
            crate::wire::lemma_varint_prefix_bridge(data, pos, Err::<(u64, int), DecodeError>(e));
        },
    }
}

/// The whitespace characters that type keywords are trimmed of.
pub open spec fn is_space_char(c: char) -> bool {
    c == ' ' || c == '\t' || c == '\n' || c == '\r'
}

/// `s` without its leading whitespace.
pub open spec fn trim_front(s: Seq<char>) -> Seq<char>
    decreases s.len(),
{
    if s.len() > 0 && is_space_char(s[0]) {
        trim_front(s.skip(1))
    } else {
        s
    }
}

/// `s` without its trailing whitespace.
pub open spec fn trim_back(s: Seq<char>) -> Seq<char>
    decreases s.len(),
{
    if s.len() > 0 && is_space_char(s.last()) {
        trim_back(s.take(s.len() - 1))
    } else {
        s
    }
}

/// `s` without leading and trailing whitespace.
pub open spec fn spec_trim(s: Seq<char>) -> Seq<char> {
    trim_back(trim_front(s))
}

/// Whether a trimmed type string has the enumeration form: the word
/// `enumeration` followed by a constant name in angle brackets or
/// parentheses.
pub open spec fn is_enum_form(t: Seq<char>) -> bool {
    &&& t.len() > 11
    &&& t.take(11) == "enumeration"@
    &&& {
        let rest = spec_trim(t.skip(11));
        &&& rest.len() >= 1
        &&& (rest[0] == '<' || rest[0] == '(')
        &&& (rest.last() == '>' || rest.last() == ')')
    }
}

/// The enumeration constant name inside a type string of the enumeration
/// form.
pub open spec fn enum_form_name(t: Seq<char>) -> Seq<char> {
    let rest = spec_trim(t.skip(11));
    spec_trim(rest.subrange(1, rest.len() - 1))
}

/// A run of leading whitespace ends exactly where the first non-space
/// character stands.
proof fn lemma_trim_front_skip(s: Seq<char>, k: int)
    requires
        0 <= k <= s.len(),
        forall|j: int| 0 <= j < k ==> is_space_char(#[trigger] s[j]),
        k < s.len() ==> !is_space_char(s[k]),
    ensures
        trim_front(s) == s.skip(k),
    decreases k,
{
    if k == 0 {
        assert(s.skip(0) =~= s);
    } else {
        assert(is_space_char(s[0]));
        assert forall|j: int| 0 <= j < k - 1 implies is_space_char(#[trigger] s.skip(1)[j]) by {
            assert(s.skip(1)[j] == s[j + 1]);
        }
        assert(k - 1 < s.skip(1).len() ==> !is_space_char(s.skip(1)[k - 1]));
        lemma_trim_front_skip(s.skip(1), k - 1);
        assert(s.skip(1).skip(k - 1) =~= s.skip(k));
    }
}

/// A run of trailing whitespace starts exactly after the last non-space
/// character.
proof fn lemma_trim_back_take(s: Seq<char>, e: int)
    requires
        0 <= e <= s.len(),
        forall|j: int| e <= j < s.len() ==> is_space_char(#[trigger] s[j]),
        e > 0 ==> !is_space_char(s[e - 1]),
    ensures
        trim_back(s) == s.take(e),
    decreases s.len(),
{
    if e == s.len() {
        if s.len() > 0 && is_space_char(s.last()) {
            assert(!is_space_char(s[e - 1]));
            assert(false);
        }
        assert(s.take(e) =~= s);
    } else {
        assert(is_space_char(s.last()));
        assert forall|j: int| e <= j < s.take(s.len() - 1).len() implies is_space_char(
            #[trigger] s.take(s.len() - 1)[j],
        ) by {
            assert(s.take(s.len() - 1)[j] == s[j]);
        }
        lemma_trim_back_take(s.take(s.len() - 1), e);
        assert(s.take(s.len() - 1).take(e) =~= s.take(e));
    }
}

/// Returns the character positions of the first and one-past-last
/// non-whitespace characters of `s`, so that the window between them is the
/// trimmed string.
fn trim_bounds(s: &str) -> (r: (usize, usize))
    ensures
        0 <= r.0 <= r.1 <= s@.len(),
        spec_trim(s@) == s@.subrange(r.0 as int, r.1 as int),
{
    let n = s.unicode_len();
    let mut start: usize = 0;
    while start < n
        invariant
            0 <= start <= n == s@.len(),
            forall|j: int| 0 <= j < start ==> is_space_char(#[trigger] s@[j]),
        ensures
            0 <= start <= n,
            forall|j: int| 0 <= j < start ==> is_space_char(#[trigger] s@[j]),
            start < n ==> !is_space_char(s@[start as int]),
        decreases n - start,
    {
        let c = s.get_char(start);
        if !(c == ' ' || c == '\t' || c == '\n' || c == '\r') {
            break ;
        }
        start = start + 1;
    }
    proof {
        lemma_trim_front_skip(s@, start as int);
    }
    let mut end: usize = n;
    while end > start
        invariant
            start <= end <= n == s@.len(),
            forall|j: int| end <= j < n ==> is_space_char(#[trigger] s@[j]),
        ensures
            start <= end <= n,
            forall|j: int| end <= j < n ==> is_space_char(#[trigger] s@[j]),
            end > start ==> !is_space_char(s@[end - 1]),
        decreases end,
    {
        let c = s.get_char(end - 1);
        if !(c == ' ' || c == '\t' || c == '\n' || c == '\r') {
            break ;
        }
        end = end - 1;
    }
    proof {
        let t = s@.skip(start as int);
        assert forall|j: int| end - start <= j < t.len() implies is_space_char(
            #[trigger] t[j],
        ) by {
            assert(t[j] == s@[start + j]);
        }
        if end > start {
            assert(!is_space_char(s@[end - 1]));
            assert(t[end - start - 1] == s@[end - 1]);
        }
        lemma_trim_back_take(t, end - start);
        assert(t.take(end - start) =~= s@.subrange(start as int, end as int));
    }
    (start, end)
}

/// Compares a string against a keyword.
fn str_is(s: &str, keyword: &str) -> (r: bool)
    ensures
        r == (s@ == keyword@),
{
    s.to_owned() == keyword.to_owned()
}

impl Ty {
    /// Parses a scalar type string: one of the fifteen type keywords, or an
    /// enumeration with its constant name in angle brackets or parentheses,
    /// with surrounding whitespace ignored throughout. Anything else is an
    /// invalid-type schema error.
    pub fn from_str(s: &str) -> (r: Result<Ty, SchemaError>)
        ensures
            match r {
                Ok(t) => match t {
                    Ty::Double => spec_trim(s@) == "double"@,
                    Ty::Float => spec_trim(s@) == "float"@,
                    Ty::Int32 => spec_trim(s@) == "int32"@,
                    Ty::Int64 => spec_trim(s@) == "int64"@,
                    Ty::Uint32 => spec_trim(s@) == "uint32"@,
                    Ty::Uint64 => spec_trim(s@) == "uint64"@,
                    Ty::Sint32 => spec_trim(s@) == "sint32"@,
                    Ty::Sint64 => spec_trim(s@) == "sint64"@,
                    Ty::Fixed32 => spec_trim(s@) == "fixed32"@,
                    Ty::Fixed64 => spec_trim(s@) == "fixed64"@,
                    Ty::Sfixed32 => spec_trim(s@) == "sfixed32"@,
                    Ty::Sfixed64 => spec_trim(s@) == "sfixed64"@,
                    Ty::Bool => spec_trim(s@) == "bool"@,
                    Ty::String => spec_trim(s@) == "string"@,
                    Ty::Bytes => spec_trim(s@) == "bytes"@,
                    Ty::Enumeration(name) => is_enum_form(spec_trim(s@)) && name@
                        == enum_form_name(spec_trim(s@)),
                },
                Err(e) => {
                    &&& e == SchemaError::InvalidType
                    &&& spec_trim(s@) != "double"@ && spec_trim(s@) != "float"@ && spec_trim(s@)
                        != "int32"@ && spec_trim(s@) != "int64"@ && spec_trim(s@) != "uint32"@
                        && spec_trim(s@) != "uint64"@ && spec_trim(s@) != "sint32"@ && spec_trim(
                        s@,
                    ) != "sint64"@ && spec_trim(s@) != "fixed32"@ && spec_trim(s@) != "fixed64"@
                        && spec_trim(s@) != "sfixed32"@ && spec_trim(s@) != "sfixed64"@
                        && spec_trim(s@) != "bool"@ && spec_trim(s@) != "string"@ && spec_trim(s@)
                        != "bytes"@
                    &&& !is_enum_form(spec_trim(s@))
                },
            },
    {
        let (start, end) = trim_bounds(s);
        let t = s.substring_char(start, end);
        if str_is(t, "float") {
            Ok(Ty::Float)
        } else if str_is(t, "double") {
            Ok(Ty::Double)
        } else if str_is(t, "int32") {
            Ok(Ty::Int32)
        } else if str_is(t, "int64") {
            Ok(Ty::Int64)
        } else if str_is(t, "uint32") {
            Ok(Ty::Uint32)
        } else if str_is(t, "uint64") {
            Ok(Ty::Uint64)
        } else if str_is(t, "sint32") {
            Ok(Ty::Sint32)
        } else if str_is(t, "sint64") {
            Ok(Ty::Sint64)
        } else if str_is(t, "fixed32") {
            Ok(Ty::Fixed32)
        } else if str_is(t, "fixed64") {
            Ok(Ty::Fixed64)
        } else if str_is(t, "sfixed32") {
            Ok(Ty::Sfixed32)
        } else if str_is(t, "sfixed64") {
            Ok(Ty::Sfixed64)
        } else if str_is(t, "bool") {
            Ok(Ty::Bool)
        } else if str_is(t, "string") {
            Ok(Ty::String)
        } else if str_is(t, "bytes") {
            Ok(Ty::Bytes)
        } else {
            let tn = t.unicode_len();
            if tn <= 11 {
                return Err(SchemaError::InvalidType);
            }
            if !str_is(t.substring_char(0, 11), "enumeration") {
                proof {
                    assert(t@.take(11) =~= t@.subrange(0, 11));
                }
                return Err(SchemaError::InvalidType);
            }
            proof {
                assert(t@.take(11) =~= t@.subrange(0, 11));
            }
            let after = t.substring_char(11, tn);
            proof {
                assert(after@ =~= t@.skip(11));
            }
            let (rs, re) = trim_bounds(after);
            if rs == re {
                return Err(SchemaError::InvalidType);
            }
            let rest = after.substring_char(rs, re);
            let first = rest.get_char(0);
            let last = rest.get_char(re - rs - 1);
            proof {
                assert(rest@.last() == rest@[re - rs - 1]);
            }
            if !(first == '<' || first == '(') {
                return Err(SchemaError::InvalidType);
            }
            if !(last == '>' || last == ')') {
                return Err(SchemaError::InvalidType);
            }
            let inner = rest.substring_char(1, re - rs - 1);
            proof {
                assert(inner@ =~= rest@.subrange(1, rest@.len() - 1));
            }
            let (is_, ie) = trim_bounds(inner);
            let name = inner.substring_char(is_, ie).to_owned();
            Ok(Ty::Enumeration(name))
        }
    }

    /// The type keyword of each scalar type, as it appears in field
    /// declarations; every enumeration renders as `enum`.
    pub open spec fn spec_as_str(self) -> Seq<char> {
        match self {
            Ty::Double => "double"@,
            Ty::Float => "float"@,
            Ty::Int32 => "int32"@,
            Ty::Int64 => "int64"@,
            Ty::Uint32 => "uint32"@,
            Ty::Uint64 => "uint64"@,
            Ty::Sint32 => "sint32"@,
            Ty::Sint64 => "sint64"@,
            Ty::Fixed32 => "fixed32"@,
            Ty::Fixed64 => "fixed64"@,
            Ty::Sfixed32 => "sfixed32"@,
            Ty::Sfixed64 => "sfixed64"@,
            Ty::Bool => "bool"@,
            Ty::String => "string"@,
            Ty::Bytes => "bytes"@,
            Ty::Enumeration(_) => "enum"@,
        }
    }

    /// Returns the type keyword as it appears in field declarations.
    pub fn as_str(&self) -> (r: &'static str)
        ensures
            r@ == self.spec_as_str(),
    {
        match self {
            Ty::Double => "double",
            Ty::Float => "float",
            Ty::Int32 => "int32",
            Ty::Int64 => "int64",
            Ty::Uint32 => "uint32",
            Ty::Uint64 => "uint64",
            Ty::Sint32 => "sint32",
            Ty::Sint64 => "sint64",
            Ty::Fixed32 => "fixed32",
            Ty::Fixed64 => "fixed64",
            Ty::Sfixed32 => "sfixed32",
            Ty::Sfixed64 => "sfixed64",
            Ty::Bool => "bool",
            Ty::String => "string",
            Ty::Bytes => "bytes",
            Ty::Enumeration(_) => "enum",
        }
    }

    /// The name of the borrowed carrier of each type.
    pub open spec fn spec_rust_ref_type(self) -> Seq<char> {
        match self {
            Ty::Double => "u64"@,
            Ty::Float => "u32"@,
            Ty::Int32 => "i32"@,
            Ty::Int64 => "i64"@,
            Ty::Uint32 => "u32"@,
            Ty::Uint64 => "u64"@,
            Ty::Sint32 => "i32"@,
            Ty::Sint64 => "i64"@,
            Ty::Fixed32 => "u32"@,
            Ty::Fixed64 => "u64"@,
            Ty::Sfixed32 => "i32"@,
            Ty::Sfixed64 => "i64"@,
            Ty::Bool => "bool"@,
            Ty::String => "&[u8]"@,
            Ty::Bytes => "&[u8]"@,
            Ty::Enumeration(_) => "i32"@,
        }
    }

    /// Returns the name of the owned in-memory carrier of this type.
    pub fn rust_type(&self) -> (r: &'static str)
        ensures
            (self is String || self is Bytes) ==> r@ == "Vec<u8>"@,
            !(self is String || self is Bytes) ==> r@ == self.spec_rust_ref_type(),
    {
        match self {
            Ty::String => "Vec<u8>",
            Ty::Bytes => "Vec<u8>",
            _ => self.rust_ref_type(),
        }
    }

    /// Returns the name of the borrowed carrier of this type.
    pub fn rust_ref_type(&self) -> (r: &'static str)
        ensures
            r@ == self.spec_rust_ref_type(),
    {
        match self {
            Ty::Double => "u64",
            Ty::Float => "u32",
            Ty::Int32 => "i32",
            Ty::Int64 => "i64",
            Ty::Uint32 => "u32",
            Ty::Uint64 => "u64",
            Ty::Sint32 => "i32",
            Ty::Sint64 => "i64",
            Ty::Fixed32 => "u32",
            Ty::Fixed64 => "u64",
            Ty::Sfixed32 => "i32",
            Ty::Sfixed64 => "i64",
            Ty::Bool => "bool",
            Ty::String => "&[u8]",
            Ty::Bytes => "&[u8]",
            Ty::Enumeration(_) => "i32",
        }
    }

    /// The type whose codec an enumeration borrows: enumerations travel as
    /// `int32`, every other type as itself.
    pub open spec fn spec_encode_as(self) -> Ty {
        match self {
            Ty::Enumeration(_) => Ty::Int32,
            _ => self,
        }
    }

    /// Returns the type whose codec this type encodes with.
    pub fn encode_as(&self) -> (r: Ty)
        ensures
            r == self.spec_encode_as(),
    {
        match self {
            Ty::Enumeration(_) => Ty::Int32,
            _ => ty_clone(self),
        }
    }
}

/// The zero value of a type has the type's carrier shape.
pub proof fn lemma_zero_value_shape(ty: Ty)
    ensures
        value_shape(ty, spec_zero_value(ty)),
{
}

/// Copies a scalar type descriptor.
pub fn ty_clone(t: &Ty) -> (r: Ty)
    ensures
        r == *t,
{
    match t {
        Ty::Double => Ty::Double,
        Ty::Float => Ty::Float,
        Ty::Int32 => Ty::Int32,
        Ty::Int64 => Ty::Int64,
        Ty::Uint32 => Ty::Uint32,
        Ty::Uint64 => Ty::Uint64,
        Ty::Sint32 => Ty::Sint32,
        Ty::Sint64 => Ty::Sint64,
        Ty::Fixed32 => Ty::Fixed32,
        Ty::Fixed64 => Ty::Fixed64,
        Ty::Sfixed32 => Ty::Sfixed32,
        Ty::Sfixed64 => Ty::Sfixed64,
        Ty::Bool => Ty::Bool,
        Ty::String => Ty::String,
        Ty::Bytes => Ty::Bytes,
        Ty::Enumeration(name) => Ty::Enumeration(name.clone()),
    }
}

/// Checks that a scalar value has the carrier shape of `ty`.
pub fn shape_matches(ty: &Ty, v: &ScalarValue) -> (r: bool)
    ensures
        r == value_shape(*ty, v@),
{
    match ty {
        Ty::Double | Ty::Fixed64 | Ty::Uint64 => matches!(v, ScalarValue::U64(_)),
        Ty::Float | Ty::Fixed32 | Ty::Uint32 => matches!(v, ScalarValue::U32(_)),
        Ty::Int32 | Ty::Sint32 | Ty::Sfixed32 | Ty::Enumeration(_) => matches!(
            v,
            ScalarValue::I32(_),
        ),
        Ty::Int64 | Ty::Sint64 | Ty::Sfixed64 => matches!(v, ScalarValue::I64(_)),
        Ty::Bool => matches!(v, ScalarValue::Bool(_)),
        Ty::String | Ty::Bytes => matches!(v, ScalarValue::Bytes(_)),
    }
}

} // verus!
