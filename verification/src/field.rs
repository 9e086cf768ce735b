//! Field descriptors: the validated, immutable description of one message
//! field, and the dispatch over the four field kinds (scalar, message, map,
//! oneof).

pub mod mapping;
pub mod message;
pub mod oneof;
pub mod scalar;

use vstd::prelude::*;

use crate::error::SchemaError;
use crate::value::ScalarValue;

verus! {

/// A validated field descriptor of any kind.
pub enum Field {
    /// A scalar field.
    Scalar(scalar::Field),
    /// A nested-message field.
    Message(message::Field),
    /// A map field.
    Mapping(mapping::Field),
    /// A oneof field.
    Oneof(oneof::Field),
}

/// The resolved options of one proposed field, as the schema front-end hands
/// them over: at most one type selection, and the shared option set.
pub struct FieldOptions {
    /// The scalar type keyword, if any.
    pub scalar_ty: Option<scalar::Ty>,
    /// Whether the `message` keyword was given.
    pub message: bool,
    /// The map keyword with its key and value types, if any.
    pub mapping: Option<(scalar::Ty, scalar::Ty)>,
    /// The oneof keyword with its validated variants, if any.
    pub oneof: Option<Vec<oneof::Variant>>,
    /// The label keyword, if any.
    pub label: Option<Label>,
    /// The packed flag, if given.
    pub packed: Option<bool>,
    /// An explicit default value, if given.
    pub default: Option<ScalarValue>,
    /// An explicit tag, if given.
    pub tag: Option<u32>,
    /// A tag inferred from declaration order, used by message fields when no
    /// explicit tag is given.
    pub inferred_tag: Option<u32>,
    /// The conversion-hook names of a message field, if given.
    pub as_msg: Option<std::string::String>,
    pub as_msgs: Option<std::string::String>,
    pub to_msg: Option<std::string::String>,
    pub to_msgs: Option<std::string::String>,
    pub from_msg: Option<std::string::String>,
    pub merge_msg: Option<std::string::String>,
    /// The nested schema of a message field.
    pub nested: Option<crate::codec::MessageDescriptor>,
}

impl Field {
    /// A well-formed field descriptor of any kind.
    pub open spec fn wf(self) -> bool
        decreases self,
    {
        match self {
            Field::Scalar(f) => f.wf(),
            Field::Message(f) => f.wf(),
            Field::Mapping(f) => f.wf(),
            Field::Oneof(f) => f.wf(),
        }
    }

    /// The tags this field answers to: one for most kinds, the whole tag set
    /// for a oneof.
    pub open spec fn spec_tags(self) -> Seq<u32> {
        match self {
            Field::Scalar(f) => seq![f.tag],
            Field::Message(f) => seq![f.tag],
            Field::Mapping(f) => seq![f.tag],
            Field::Oneof(f) => f.spec_tags(),
        }
    }

    /// Returns the tags this field answers to.
    pub fn tags(&self) -> (r: Vec<u32>)
        ensures
            r@ == self.spec_tags(),
    {
        match self {
            Field::Scalar(f) => {
                let mut v: Vec<u32> = Vec::new();
                v.push(f.tag);
                proof {
                    assert(v@ =~= seq![f.tag]);
                }
                v
            },
            Field::Message(f) => {
                let mut v: Vec<u32> = Vec::new();
                v.push(f.tag);
                proof {
                    assert(v@ =~= seq![f.tag]);
                }
                v
            },
            Field::Mapping(f) => {
                let mut v: Vec<u32> = Vec::new();
                v.push(f.tag);
                proof {
                    assert(v@ =~= seq![f.tag]);
                }
                v
            },
            Field::Oneof(f) => {
                let mut v: Vec<u32> = Vec::new();
                let mut i: usize = 0;
                while i < f.variants.len()
                    invariant
                        0 <= i <= f.variants@.len(),
                        v@ == f.variants@.map_values(|x: oneof::Variant| x.tag).take(i as int),
                    decreases f.variants@.len() - i,
                {
                    v.push(f.variants[i].tag);
                    proof {
                        assert(v@ =~= f.variants@.map_values(|x: oneof::Variant| x.tag).take(
                            i + 1,
                        ));
                    }
                    i = i + 1;
                }
                proof {
                    assert(v@ =~= f.spec_tags());
                }
                v
            },
        }
    }

    /// Builds a field descriptor from resolved options, trying the kinds in
    /// a fixed order: a scalar type keyword wins, then `message`, then a
    /// map, then a oneof; matching none of them is a missing-type schema
    /// error. The matched kind's own validation rules decide, exactly as
    /// `spec_field_new` lays down.
    pub fn new(options: FieldOptions) -> (r: Result<Field, SchemaError>)
        requires
            options.nested matches Some(d) ==> d.wf(),
            options.oneof matches Some(vs) ==> forall|i: int|
                0 <= i < vs@.len() ==> (#[trigger] vs@[i]).wf(),
        ensures
            match r {
                Ok(f) => f.wf() && spec_field_new(options) == Ok::<(), SchemaError>(()) && match f {
                    Field::Scalar(sf) => options.scalar_ty matches Some(ty) && scalar::spec_new(
                        ty,
                        options.label,
                        options.packed,
                        scalar::default_view(options.default),
                        options.tag,
                    ) == Ok::<_, SchemaError>((sf.ty, sf.kind@, sf.tag)),
                    Field::Message(mf) => {
                        &&& options.scalar_ty is None
                        &&& options.message
                        &&& options.nested == Some(mf.nested)
                        &&& message::spec_new(
                            options.label,
                            options.tag,
                            options.inferred_tag,
                            options.as_msg is Some,
                            options.as_msgs is Some,
                            options.to_msg is Some,
                            options.to_msgs is Some,
                            options.from_msg is Some,
                            options.merge_msg is Some,
                        ) == Ok::<(Label, u32), SchemaError>((mf.label, mf.tag))
                        &&& mf.as_msg == options.as_msg && mf.as_msgs == options.as_msgs
                            && mf.to_msg == options.to_msg && mf.to_msgs == options.to_msgs
                            && mf.from_msg == options.from_msg && mf.merge_msg
                            == options.merge_msg
                    },
                    Field::Mapping(pf) => {
                        &&& options.scalar_ty is None
                        &&& !options.message
                        &&& options.mapping == Some((pf.key_ty, pf.value_ty))
                        &&& mapping::spec_new(pf.key_ty, pf.value_ty, options.tag) == Ok::<
                            u32,
                            SchemaError,
                        >(pf.tag)
                    },
                    Field::Oneof(of) => {
                        &&& options.scalar_ty is None
                        &&& !options.message
                        &&& options.mapping is None
                        &&& options.oneof == Some(of.variants)
                    },
                },
                Err(e) => spec_field_new(options) == Err::<(), SchemaError>(e),
            },
    {
        if let Some(ty) = options.scalar_ty {
            match scalar::Field::new(ty, options.label, options.packed, options.default,
                options.tag) {
                Ok(f) => Ok(Field::Scalar(f)),
                Err(e) => Err(e),
            }
        } else if options.message {
            let nested = match options.nested {
                Some(d) => d,
                None => {
                    return Err(SchemaError::MissingNestedSchema);
                },
            };
            match message::Field::new(
                options.label,
                options.tag,
                options.inferred_tag,
                options.as_msg,
                options.as_msgs,
                options.to_msg,
                options.to_msgs,
                options.from_msg,
                options.merge_msg,
                nested,
            ) {
                Ok(f) => Ok(Field::Message(f)),
                Err(e) => Err(e),
            }
        } else if let Some((key_ty, value_ty)) = options.mapping {
            match mapping::Field::new(key_ty, value_ty, options.tag) {
                Ok(f) => Ok(Field::Mapping(f)),
                Err(e) => Err(e),
            }
        } else if let Some(variants) = options.oneof {
            match oneof::Field::new(variants) {
                Ok(f) => Ok(Field::Oneof(f)),
                Err(e) => Err(e),
            }
        } else {
            Err(SchemaError::MissingType)
        }
    }

    /// Builds one oneof variant from resolved options, trying scalar then
    /// message; variants carry no label, no packing and no hooks, exactly as
    /// `spec_field_new_oneof` lays down.
    pub fn new_oneof(options: FieldOptions) -> (r: Result<oneof::Variant, SchemaError>)
        requires
            options.nested matches Some(d) ==> d.wf(),
        ensures
            match r {
                Ok(v) => v.wf() && spec_field_new_oneof(options) == Ok::<u32, SchemaError>(v.tag)
                    && match v.kind {
                    oneof::VariantKind::Scalar(ty) => options.scalar_ty == Some(ty),
                    oneof::VariantKind::Message(d) => options.scalar_ty is None
                        && options.message && options.nested == Some(d),
                },
                Err(e) => spec_field_new_oneof(options) == Err::<u32, SchemaError>(e),
            },
    {
        if let Some(ty) = options.scalar_ty {
            match scalar::Field::new_oneof(ty, options.label, options.packed, options.default,
                options.tag) {
                Ok(f) => Ok(oneof::Variant { tag: f.tag, kind: oneof::VariantKind::Scalar(f.ty) }),
                Err(e) => Err(e),
            }
        } else if options.message {
            let nested = match options.nested {
                Some(d) => d,
                None => {
                    return Err(SchemaError::MissingNestedSchema);
                },
            };
            match message::Field::new_oneof(
                options.label,
                options.tag,
                options.as_msg,
                options.as_msgs,
                options.to_msg,
                options.to_msgs,
                options.from_msg,
                options.merge_msg,
                nested,
            ) {
                Ok(f) => Ok(
                    oneof::Variant { tag: f.tag, kind: oneof::VariantKind::Message(f.nested) },
                ),
                Err(e) => Err(e),
            }
        } else {
            Err(SchemaError::MissingType)
        }
    }
}

/// The outcome of building a field from resolved options: the kinds are
/// tried in a fixed order — a scalar keyword wins, then `message`, then a
/// map, then a oneof — the matching kind's own validation decides, and
/// options matching no kind are a missing-type error. Success is owed
/// whenever the matched kind's rules accept the options.
pub open spec fn spec_field_new(options: FieldOptions) -> Result<(), SchemaError> {
    if options.scalar_ty is Some {
        match scalar::spec_new(
            options.scalar_ty->0,
            options.label,
            options.packed,
            scalar::default_view(options.default),
            options.tag,
        ) {
            Ok(_) => Ok(()),
            Err(e) => Err(e),
        }
    } else if options.message {
        if options.nested is None {
            Err(SchemaError::MissingNestedSchema)
        } else {
            match message::spec_new(
                options.label,
                options.tag,
                options.inferred_tag,
                options.as_msg is Some,
                options.as_msgs is Some,
                options.to_msg is Some,
                options.to_msgs is Some,
                options.from_msg is Some,
                options.merge_msg is Some,
            ) {
                Ok(_) => Ok(()),
                Err(e) => Err(e),
            }
        }
    } else if options.mapping is Some {
        let kv = options.mapping->0;
        match mapping::spec_new(kv.0, kv.1, options.tag) {
            Ok(_) => Ok(()),
            Err(e) => Err(e),
        }
    } else if options.oneof is Some {
        let variants = options.oneof->0;
        if exists|i: int, j: int|
            0 <= i < j < variants@.len() && (#[trigger] variants@[i]).tag == (
            #[trigger] variants@[j]).tag {
            Err(SchemaError::DuplicateTag)
        } else {
            Ok(())
        }
    } else {
        Err(SchemaError::MissingType)
    }
}

/// The outcome of building a oneof variant from resolved options: scalar is
/// tried first, then message; variants carry no label and no hooks. On
/// success, the variant's tag.
pub open spec fn spec_field_new_oneof(options: FieldOptions) -> Result<u32, SchemaError> {
    if options.scalar_ty is Some {
        match scalar::spec_new(
            options.scalar_ty->0,
            options.label,
            options.packed,
            scalar::default_view(options.default),
            options.tag,
        ) {
            Ok(k) => if k.1 is Plain {
                Ok(k.2)
            } else {
                Err(SchemaError::InvalidOneofLabel)
            },
            Err(e) => Err(e),
        }
    } else if options.message {
        if options.nested is None {
            Err(SchemaError::MissingNestedSchema)
        } else {
            message::spec_new_oneof(
                options.label,
                options.tag,
                options.as_msg is Some,
                options.as_msgs is Some,
                options.to_msg is Some,
                options.to_msgs is Some,
                options.from_msg is Some,
                options.merge_msg is Some,
            )
        }
    } else {
        Err(SchemaError::MissingType)
    }
}


/// The presence label of a field. A field with no label is "plain"
/// (implicit default, elided when at the default); the plain case is
/// represented by the absence of a `Label`, as in field options.
#[derive(Clone, Copy, Debug, PartialEq, Eq, Structural)]
pub enum Label {
    /// An optional field.
    Optional,
    /// A required field.
    Required,
    /// A repeated field.
    Repeated,
}

impl Label {
    /// The label keyword as it appears in field declarations.
    pub fn as_str(&self) -> (r: &'static str)
        ensures
            r@ == self.spec_str(),
    {
        match self {
            Label::Optional => "optional",
            Label::Required => "required",
            Label::Repeated => "repeated",
        }
    }

    /// The keyword of each label.
    pub open spec fn spec_str(self) -> Seq<char> {
        match self {
            Label::Optional => "optional"@,
            Label::Required => "required"@,
            Label::Repeated => "repeated"@,
        }
    }

    /// All labels, in declaration order.
    pub fn variants() -> (r: Vec<Label>)
        ensures
            r@ == seq![Label::Optional, Label::Required, Label::Repeated],
    {
        let mut v: Vec<Label> = Vec::new();
        v.push(Label::Optional);
        v.push(Label::Required);
        v.push(Label::Repeated);
        proof {
            assert(v@ =~= seq![Label::Optional, Label::Required, Label::Repeated]);
        }
        v
    }

    /// Parses a label keyword; any other word yields `None`.
    pub fn from_attr(word: &str) -> (r: Option<Label>)
        ensures
            match r {
                Some(l) => word@ == l.spec_str(),
                None => word@ != Label::Optional.spec_str() && word@ != Label::Required.spec_str()
                    && word@ != Label::Repeated.spec_str(),
            },
    {
        let w = word.to_owned();
        if w == String::from_str("optional") {
            Some(Label::Optional)
        } else if w == String::from_str("required") {
            Some(Label::Required)
        } else if w == String::from_str("repeated") {
            Some(Label::Repeated)
        } else {
            None
        }
    }
}

/// Records `value` as the setting of an option that may be given at most
/// once.
///
/// Succeeds and fills the slot when it was empty; reports a duplicate and
/// leaves the slot unchanged when it was already set. The message names the
/// option for diagnostics, as the caller phrases it.
pub fn set_option<T>(option: &mut Option<T>, value: T, message: &str) -> (r: Result<
    (),
    SchemaError,
>)
    ensures
        match r {
            Ok(()) => *old(option) is None && *final(option) == Some(value),
            Err(e) => e == SchemaError::DuplicateAttribute && *old(option) is Some && *final(option)
                == *old(option),
        },
{
    if option.is_some() {
        return Err(SchemaError::DuplicateAttribute);
    }
    *option = Some(value);
    Ok(())
}

/// Records that a boolean flag was seen; seeing it twice is a duplicate.
pub fn set_bool(b: &mut bool, message: &str) -> (r: Result<(), SchemaError>)
    ensures
        match r {
            Ok(()) => *old(b) == false && *final(b) == true,
            Err(e) => e == SchemaError::DuplicateAttribute && *old(b) == true && *final(b) == true,
        },
{
    if *b {
        Err(SchemaError::DuplicateAttribute)
    } else {
        *b = true;
        Ok(())
    }
}

} // verus!
