//! Support types for a human-readable bridging layer that reads values back
//! into message fields: a configuration record, carriers for values that may
//! name an unknown enumeration constant, seed types that pair a target type
//! with the configuration, and a pre-allocation bound for decoded
//! collections.
//!
//! The bridge itself drives these types from its own parser; only the plain
//! decision logic lives here.

use core::marker::PhantomData;
use vstd::prelude::*;

verus! {

/// Configuration for the bridging layer's read direction.
#[derive(Clone, Copy, Debug, PartialEq, Eq, Structural)]
pub struct DeserializerConfig {
    /// When set, a value naming an unknown enumeration constant reads as the
    /// enumeration's default instead of failing.
    pub ignore_unknown_enum_string_values: bool,
}

/// A value read by the bridge, or the marker that the input named an
/// enumeration constant unknown to the schema.
pub enum MaybeDeserializedValue<T> {
    Val(T),
    UnknownEnumValue,
}

impl<T> MaybeDeserializedValue<T> {
    /// Applies `f` to a carried value; the unknown-constant marker passes
    /// through untouched.
    pub fn map<R, F: FnOnce(T) -> R>(self, f: F) -> (r: MaybeDeserializedValue<R>)
        requires
            self matches MaybeDeserializedValue::Val(v) ==> f.requires((v,)),
        ensures
            match self {
                MaybeDeserializedValue::Val(v) => r matches MaybeDeserializedValue::Val(rv)
                    && f.ensures((v,), rv),
                MaybeDeserializedValue::UnknownEnumValue => r is UnknownEnumValue,
            },
    {
        match self {
            MaybeDeserializedValue::Val(val) => MaybeDeserializedValue::Val(f(val)),
            MaybeDeserializedValue::UnknownEnumValue => MaybeDeserializedValue::UnknownEnumValue,
        }
    }

    /// Resolves the carrier for a field read: a carried value is returned,
    /// and an unknown enumeration constant either falls back to the given
    /// default (when the configuration says to ignore it) or is reported.
    pub fn unwrap_for_field(self, config: &DeserializerConfig, fallback: T) -> (r: Result<T, ()>)
        ensures
            match self {
                MaybeDeserializedValue::Val(v) => r == Ok::<T, ()>(v),
                MaybeDeserializedValue::UnknownEnumValue => {
                    if config.ignore_unknown_enum_string_values {
                        r == Ok::<T, ()>(fallback)
                    } else {
                        r is Err
                    }
                },
            },
    {
        match self {
            MaybeDeserializedValue::Val(val) => Ok(val),
            MaybeDeserializedValue::UnknownEnumValue => {
                if config.ignore_unknown_enum_string_values {
                    Ok(fallback)
                } else {
                    Err(())
                }
            },
        }
    }

    /// Resolves the carrier for an omittable position: a carried value is
    /// returned present, and an unknown enumeration constant either reads as
    /// absent (when ignored by configuration) or is reported.
    pub fn unwrap_for_omittable(self, config: &DeserializerConfig) -> (r: Result<Option<T>, ()>)
        ensures
            match self {
                MaybeDeserializedValue::Val(v) => r == Ok::<Option<T>, ()>(Some(v)),
                MaybeDeserializedValue::UnknownEnumValue => {
                    if config.ignore_unknown_enum_string_values {
                        r == Ok::<Option<T>, ()>(None)
                    } else {
                        r is Err
                    }
                },
            },
    {
        match self {
            MaybeDeserializedValue::Val(val) => Ok(Some(val)),
            MaybeDeserializedValue::UnknownEnumValue => {
                if config.ignore_unknown_enum_string_values {
                    Ok(None)
                } else {
                    Err(())
                }
            },
        }
    }
}

/// A read seed pairing a target type with the configuration.
pub struct DesWithConfig<'c, T>(pub &'c DeserializerConfig, pub PhantomData<T>);

impl<'c, T> DesWithConfig<'c, T> {
    /// Builds a seed around the given configuration.
    pub fn new(config: &'c DeserializerConfig) -> (r: Self)
        ensures
            r.0 == config,
    {
        DesWithConfig(config, PhantomData)
    }
}

/// A read seed pairing a reader type `W`, its target type `T` and the
/// configuration.
pub struct DesIntoWithConfig<'c, W, T>(pub &'c DeserializerConfig, pub PhantomData<(W, T)>);

impl<'c, W, T> DesIntoWithConfig<'c, W, T> {
    /// Builds a seed around the given configuration.
    pub fn new(config: &'c DeserializerConfig) -> (r: Self)
        ensures
            r.0 == config,
    {
        DesIntoWithConfig(config, PhantomData)
    }
}

/// Like `DesIntoWithConfig`, but keeping the unknown-enumeration marker for
/// the caller to resolve.
pub struct MaybeDesIntoWithConfig<'c, W, T>(pub &'c DeserializerConfig, pub PhantomData<(W, T)>);

impl<'c, W, T> MaybeDesIntoWithConfig<'c, W, T> {
    /// Builds a seed around the given configuration.
    pub fn new(config: &'c DeserializerConfig) -> (r: Self)
        ensures
            r.0 == config,
    {
        MaybeDesIntoWithConfig(config, PhantomData)
    }
}

/// Reads an optional value through an inner reader `I`.
pub struct OptionDeserializer<I>(pub PhantomData<I>);

/// Reads an explicit null.
pub struct NullDeserializer;

/// The ceiling on speculative pre-allocation while reading a collection: at
/// most the caller's hint, and never more elements than fit one megabyte,
/// with zero-sized elements reserving nothing.
pub fn cautious<Element>(hint: Option<usize>) -> (r: usize)
    ensures
        core::mem::size_of::<Element>() == 0 ==> r == 0,
        core::mem::size_of::<Element>() != 0 ==> {
            let h = hint.unwrap_or(0);
            let cap = 0x100000usize as int / core::mem::size_of::<Element>() as int;
            r == if h <= cap {
                h as int
            } else {
                cap
            }
        },
{
    let size = core::mem::size_of::<Element>();
    if size == 0 {
        0
    } else {
        let h = match hint {
            Some(h) => h,
            None => 0,
        };
        let cap = 0x100000usize / size;
        if h <= cap {
            h
        } else {
            cap
        }
    }
}

} // verus!
