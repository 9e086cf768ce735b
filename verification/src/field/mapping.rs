//! Map-kind fields: encoded as repeated entries, each entry a two-field
//! message holding the key under tag 1 and the value under tag 2, with
//! plain-field semantics inside the entry. Decoding inserts or overwrites
//! by key, so the last occurrence of a duplicate key wins.

use vstd::prelude::*;

use crate::error::SchemaError;
use crate::field::scalar::{tag_in_range, Ty};

verus! {

/// A validated map-kind field descriptor with scalar keys and scalar
/// values.
pub struct Field {
    /// The scalar type of the keys: an integral, boolean or string type.
    pub key_ty: Ty,
    /// The scalar type of the values.
    pub value_ty: Ty,
    /// The field number.
    pub tag: u32,
}

/// Which scalar types may key a map: the integral and boolean varint types,
/// the fixed-width integral types, and strings; never floating-point types
/// or byte runs.
pub open spec fn valid_key_ty(ty: Ty) -> bool {
    match ty {
        Ty::Int32 | Ty::Int64 | Ty::Uint32 | Ty::Uint64 | Ty::Sint32 | Ty::Sint64 | Ty::Fixed32
            | Ty::Fixed64 | Ty::Sfixed32 | Ty::Sfixed64 | Ty::Bool | Ty::String => true,
        _ => false,
    }
}

/// The outcome of validating a map field's options, checked in a fixed
/// order: a tag must be given and legal, and the key type must be able to
/// key a map. On success, the tag.
pub open spec fn spec_new(key_ty: Ty, value_ty: Ty, tag: Option<u32>) -> Result<u32, SchemaError> {
    if tag is None {
        Err(SchemaError::MissingTag)
    } else if !tag_in_range(tag->0) {
        Err(SchemaError::TagOutOfRange)
    } else if !valid_key_ty(key_ty) {
        Err(SchemaError::InvalidKeyType)
    } else {
        Ok(tag->0)
    }
}

impl Field {
    /// A well-formed descriptor: a legal tag and a legal key type.
    pub open spec fn wf(self) -> bool {
        &&& tag_in_range(self.tag)
        &&& valid_key_ty(self.key_ty)
    }

    /// Validates the resolved options of a map field and builds its
    /// descriptor.
    pub fn new(key_ty: Ty, value_ty: Ty, tag: Option<u32>) -> (r: Result<Field, SchemaError>)
        ensures
            match r {
                Ok(f) => {
                    &&& spec_new(key_ty, value_ty, tag) == Ok::<u32, SchemaError>(f.tag)
                    &&& f.key_ty == key_ty && f.value_ty == value_ty
                    &&& f.wf()
                },
                Err(e) => spec_new(key_ty, value_ty, tag) == Err::<u32, SchemaError>(e),
            },
    {
        let t = match tag {
            Some(t) => t,
            None => {
                return Err(SchemaError::MissingTag);
            },
        };
        if !(1 <= t && t <= crate::wire::MAX_TAG) || (19000 <= t && t <= 19999) {
            return Err(SchemaError::TagOutOfRange);
        }
        let key_ok = match key_ty {
            Ty::Int32 | Ty::Int64 | Ty::Uint32 | Ty::Uint64 | Ty::Sint32 | Ty::Sint64
                | Ty::Fixed32 | Ty::Fixed64 | Ty::Sfixed32 | Ty::Sfixed64 | Ty::Bool
                | Ty::String => true,
            _ => false,
        };
        if !key_ok {
            return Err(SchemaError::InvalidKeyType);
        }
        Ok(Field { key_ty, value_ty, tag: t })
    }
}

} // verus!
