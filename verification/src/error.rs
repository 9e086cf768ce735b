//! Error types: wire-decode failures and schema-definition failures.
//!
//! Decode errors are surfaced to the immediate caller of a decode or merge
//! operation; they are never transient and there are no internal retries.
//! Schema errors are reported when a field descriptor is constructed, before
//! any encoding or decoding takes place.

use vstd::prelude::*;

verus! {

/// A failure while decoding a byte stream.
#[derive(Clone, Copy, Debug, PartialEq, Eq, Structural)]
pub enum DecodeError {
    /// The buffer ended before a required value or length was available.
    Truncated,
    /// A variable-length integer exceeded the maximum encodable width.
    VarintOverflow,
    /// A known field's tag arrived with an incompatible wire type, or a tag
    /// carried a wire-type code that does not name any wire type.
    UnexpectedWireType,
    /// Nested-message decoding exceeded the caller-configured depth bound.
    RecursionLimitExceeded,
}

/// A failure while validating the options of a proposed field descriptor.
///
/// Each invalid option combination is reported as its own variant, so that a
/// schema author sees exactly which rule was broken.
#[derive(Clone, Copy, Debug, PartialEq, Eq, Structural)]
pub enum SchemaError {
    /// An option was supplied twice.
    DuplicateAttribute,
    /// No scalar, message, map or oneof type option was supplied.
    MissingType,
    /// A message field was declared without the nested message's schema.
    MissingNestedSchema,
    /// No tag was supplied and none could be inferred.
    MissingTag,
    /// `packed` was combined with a label other than `repeated`.
    PackedNotRepeated,
    /// `packed` was applied to a type that is not a numeric scalar.
    PackedNotNumeric,
    /// A repeated field declared an explicit default value.
    DefaultOnRepeated,
    /// A required field declared an explicit default value; only plain and
    /// optional fields may override their default.
    DefaultOnRequired,
    /// An explicit default value does not fit the field's declared type.
    InvalidDefault,
    /// An explicit label was supplied on a oneof variant.
    InvalidOneofLabel,
    /// A conversion hook was supplied on a oneof variant.
    HooksOnOneof,
    /// A converting field supplied no hook in the value-to-wire direction.
    MissingToHook,
    /// A converting field supplied no hook in the wire-to-value direction.
    MissingFromHook,
    /// A converting repeated field using a collection bridge supplied no
    /// collection merge hook.
    MissingMergeHook,
    /// Single-value and collection hooks were supplied together.
    ConflictingHooks,
    /// A collection hook was supplied on a field that is not repeated.
    PluralHookOnSingular,
    /// A scalar type string names no known type.
    InvalidType,
    /// A map key type is not an integral, boolean or string type.
    InvalidKeyType,
    /// A tag lies outside the valid range or inside the reserved band.
    TagOutOfRange,
    /// Two sibling fields claim the same tag.
    DuplicateTag,
}

} // verus!
