//! Message-kind fields: a nested message behind a length-delimited frame,
//! with optional conversion hooks between the field's own type and the
//! wire-shape message.
//!
//! Hooks are recorded by name for the code-generation layer: the codec
//! itself works on wire-shaped values, and the hook combination rules are
//! validated here at descriptor-construction time. `as_msg`/`to_msg` bridge
//! one value, `as_msgs`/`to_msgs` bridge a whole collection (repeated fields
//! only), and `from_msg`/`merge_msg` bring decoded values back.

use vstd::prelude::*;

use crate::error::SchemaError;
use crate::field::Label;

verus! {

/// A validated message-kind field descriptor.
pub struct Field {
    /// The presence label; a message field with no label is optional.
    pub label: Label,
    /// The field number.
    pub tag: u32,
    /// Borrowing single-value bridge, value to wire shape.
    pub as_msg: Option<std::string::String>,
    /// Borrowing collection bridge, collection to wire-shape sequence.
    pub as_msgs: Option<std::string::String>,
    /// Owning single-value bridge, value to wire shape.
    pub to_msg: Option<std::string::String>,
    /// Owning collection bridge.
    pub to_msgs: Option<std::string::String>,
    /// Wire shape back to the field's value, by assignment.
    pub from_msg: Option<std::string::String>,
    /// Wire shape back into the field's value, by merging.
    pub merge_msg: Option<std::string::String>,
    /// The schema of the nested message.
    pub nested: crate::codec::MessageDescriptor,
}

/// Which hook combinations a message field may carry. `converting` means any
/// hook is present. A repeated field must then name a bridge to the wire
/// shape (single-value or collection), may not mix the two bridge arities,
/// needs a merge hook when bridging whole collections, and always needs a
/// way back. A singular field takes no collection hooks, and when converting
/// needs one bridge out and one way back.
pub open spec fn hooks_ok(
    label: Label,
    as_msg: bool,
    as_msgs: bool,
    to_msg: bool,
    to_msgs: bool,
    from_msg: bool,
    merge_msg: bool,
) -> Result<(), SchemaError> {
    if label is Repeated {
        let converting = as_msg || as_msgs || to_msg || to_msgs || from_msg || merge_msg;
        if converting && !(as_msg || as_msgs || to_msg || to_msgs) {
            Err(SchemaError::MissingToHook)
        } else if !((!as_msgs && !to_msgs) || (!as_msg && !to_msg)) {
            Err(SchemaError::ConflictingHooks)
        } else if converting && (as_msgs || to_msgs) && !merge_msg {
            Err(SchemaError::MissingMergeHook)
        } else if converting && !from_msg && !merge_msg {
            Err(SchemaError::MissingFromHook)
        } else {
            Ok(())
        }
    } else {
        if as_msgs || to_msgs {
            Err(SchemaError::PluralHookOnSingular)
        } else {
            let converting = as_msg || to_msg || from_msg || merge_msg;
            if converting && !as_msg && !to_msg {
                Err(SchemaError::MissingToHook)
            } else if converting && !from_msg && !merge_msg {
                Err(SchemaError::MissingFromHook)
            } else {
                Ok(())
            }
        }
    }
}

/// The outcome of validating a message field's options, checked in a fixed
/// order: a tag must be given or inferable and legal, and the hook
/// combination must be accepted for the field's label (optional when none is
/// given). On success, the resolved label and tag.
pub open spec fn spec_new(
    label: Option<Label>,
    tag: Option<u32>,
    inferred_tag: Option<u32>,
    as_msg: bool,
    as_msgs: bool,
    to_msg: bool,
    to_msgs: bool,
    from_msg: bool,
    merge_msg: bool,
) -> Result<(Label, u32), SchemaError> {
    if tag is None && inferred_tag is None {
        Err(SchemaError::MissingTag)
    } else {
        let t = if tag is Some {
            tag->0
        } else {
            inferred_tag->0
        };
        if !crate::field::scalar::tag_in_range(t) {
            Err(SchemaError::TagOutOfRange)
        } else {
            let l = label.unwrap_or(Label::Optional);
            match hooks_ok(l, as_msg, as_msgs, to_msg, to_msgs, from_msg, merge_msg) {
                Ok(()) => Ok((l, t)),
                Err(e) => Err(e),
            }
        }
    }
}

/// The outcome of validating a message-kind oneof variant's options: no
/// hooks of either arity, no explicit label, and an explicit legal tag. On
/// success, the tag.
pub open spec fn spec_new_oneof(
    label: Option<Label>,
    tag: Option<u32>,
    as_msg: bool,
    as_msgs: bool,
    to_msg: bool,
    to_msgs: bool,
    from_msg: bool,
    merge_msg: bool,
) -> Result<u32, SchemaError> {
    if as_msg || as_msgs || to_msg || to_msgs || from_msg || merge_msg {
        Err(SchemaError::HooksOnOneof)
    } else if label is Some {
        Err(SchemaError::InvalidOneofLabel)
    } else if tag is None {
        Err(SchemaError::MissingTag)
    } else if !crate::field::scalar::tag_in_range(tag->0) {
        Err(SchemaError::TagOutOfRange)
    } else {
        Ok(tag->0)
    }
}

impl Field {
    /// A well-formed descriptor: a legal tag, a well-formed nested schema,
    /// and an accepted hook combination.
    pub open spec fn wf(self) -> bool
        decreases self,
    {
        &&& crate::field::scalar::tag_in_range(self.tag)
        &&& self.nested.wf()
        &&& hooks_ok(
            self.label,
            self.as_msg is Some,
            self.as_msgs is Some,
            self.to_msg is Some,
            self.to_msgs is Some,
            self.from_msg is Some,
            self.merge_msg is Some,
        ) is Ok
    }

    /// Validates the resolved options of a message field and builds its
    /// descriptor. A tag may be inferred from declaration order when none is
    /// given explicitly; the label defaults to optional.
    pub fn new(
        label: Option<Label>,
        tag: Option<u32>,
        inferred_tag: Option<u32>,
        as_msg: Option<std::string::String>,
        as_msgs: Option<std::string::String>,
        to_msg: Option<std::string::String>,
        to_msgs: Option<std::string::String>,
        from_msg: Option<std::string::String>,
        merge_msg: Option<std::string::String>,
        nested: crate::codec::MessageDescriptor,
    ) -> (r: Result<Field, SchemaError>)
        requires
            nested.wf(),
        ensures
            match r {
                Ok(f) => {
                    &&& spec_new(
                        label,
                        tag,
                        inferred_tag,
                        as_msg is Some,
                        as_msgs is Some,
                        to_msg is Some,
                        to_msgs is Some,
                        from_msg is Some,
                        merge_msg is Some,
                    ) == Ok::<(Label, u32), SchemaError>((f.label, f.tag))
                    &&& f.as_msg == as_msg && f.as_msgs == as_msgs && f.to_msg == to_msg
                        && f.to_msgs == to_msgs && f.from_msg == from_msg && f.merge_msg
                        == merge_msg
                    &&& f.nested == nested
                    &&& f.wf()
                },
                Err(e) => spec_new(
                    label,
                    tag,
                    inferred_tag,
                    as_msg is Some,
                    as_msgs is Some,
                    to_msg is Some,
                    to_msgs is Some,
                    from_msg is Some,
                    merge_msg is Some,
                ) == Err::<(Label, u32), SchemaError>(e),
            },
    {
        let t = match (tag, inferred_tag) {
            (Some(t), _) => t,
            (None, Some(t)) => t,
            (None, None) => {
                return Err(SchemaError::MissingTag);
            },
        };
        if !(1 <= t && t <= crate::wire::MAX_TAG) || (19000 <= t && t <= 19999) {
            return Err(SchemaError::TagOutOfRange);
        }
        let label = match label {
            Some(l) => l,
            None => Label::Optional,
        };
        match label {
            Label::Repeated => {
                let converting = as_msg.is_some() || as_msgs.is_some() || to_msg.is_some()
                    || to_msgs.is_some() || from_msg.is_some() || merge_msg.is_some();
                if converting && !(as_msg.is_some() || as_msgs.is_some() || to_msg.is_some()
                    || to_msgs.is_some()) {
                    return Err(SchemaError::MissingToHook);
                }
                if !((as_msgs.is_none() && to_msgs.is_none()) || (as_msg.is_none()
                    && to_msg.is_none())) {
                    return Err(SchemaError::ConflictingHooks);
                }
                if converting && (as_msgs.is_some() || to_msgs.is_some()) && merge_msg.is_none() {
                    return Err(SchemaError::MissingMergeHook);
                }
                if converting && from_msg.is_none() && merge_msg.is_none() {
                    return Err(SchemaError::MissingFromHook);
                }
            },
            _ => {
                if as_msgs.is_some() || to_msgs.is_some() {
                    return Err(SchemaError::PluralHookOnSingular);
                }
                let converting = as_msg.is_some() || to_msg.is_some() || from_msg.is_some()
                    || merge_msg.is_some();
                if converting && as_msg.is_none() && to_msg.is_none() {
                    return Err(SchemaError::MissingToHook);
                }
                if converting && from_msg.is_none() && merge_msg.is_none() {
                    return Err(SchemaError::MissingFromHook);
                }
            },
        }
        Ok(
            Field {
                label,
                tag: t,
                as_msg,
                as_msgs,
                to_msg,
                to_msgs,
                from_msg,
                merge_msg,
                nested,
            },
        )
    }

    /// Validates the options of a message-kind oneof variant: no hooks of
    /// either arity, no explicit label, an explicit legal tag, and the
    /// variant is required-shaped.
    pub fn new_oneof(
        label: Option<Label>,
        tag: Option<u32>,
        as_msg: Option<std::string::String>,
        as_msgs: Option<std::string::String>,
        to_msg: Option<std::string::String>,
        to_msgs: Option<std::string::String>,
        from_msg: Option<std::string::String>,
        merge_msg: Option<std::string::String>,
        nested: crate::codec::MessageDescriptor,
    ) -> (r: Result<Field, SchemaError>)
        requires
            nested.wf(),
        ensures
            match r {
                Ok(f) => {
                    &&& spec_new_oneof(
                        label,
                        tag,
                        as_msg is Some,
                        as_msgs is Some,
                        to_msg is Some,
                        to_msgs is Some,
                        from_msg is Some,
                        merge_msg is Some,
                    ) == Ok::<u32, SchemaError>(f.tag)
                    &&& f.label == Label::Required
                    &&& f.as_msg is None && f.as_msgs is None && f.to_msg is None && f.to_msgs
                        is None && f.from_msg is None && f.merge_msg is None
                    &&& f.nested == nested
                    &&& f.wf()
                },
                Err(e) => spec_new_oneof(
                    label,
                    tag,
                    as_msg is Some,
                    as_msgs is Some,
                    to_msg is Some,
                    to_msgs is Some,
                    from_msg is Some,
                    merge_msg is Some,
                ) == Err::<u32, SchemaError>(e),
            },
    {
        if as_msg.is_some() || as_msgs.is_some() || to_msg.is_some() || to_msgs.is_some()
            || from_msg.is_some() || merge_msg.is_some() {
            return Err(SchemaError::HooksOnOneof);
        }
        if label.is_some() {
            return Err(SchemaError::InvalidOneofLabel);
        }
        let t = match tag {
            Some(t) => t,
            None => {
                return Err(SchemaError::MissingTag);
            },
        };
        if !(1 <= t && t <= crate::wire::MAX_TAG) || (19000 <= t && t <= 19999) {
            return Err(SchemaError::TagOutOfRange);
        }
        Ok(
            Field {
                label: Label::Required,
                tag: t,
                as_msg: None,
                as_msgs: None,
                to_msg: None,
                to_msgs: None,
                from_msg: None,
                merge_msg: None,
                nested,
            },
        )
    }
}

} // verus!
