//! Tests of descriptor construction and validation: each schema error has an
//! input that raises it.

use prost::codec::MessageDescriptor;
use prost::de::{cautious, DeserializerConfig, MaybeDeserializedValue};
use prost::error::SchemaError;
use prost::field::scalar::{Field as ScalarField, Kind, Ty};
use prost::field::{mapping, message, oneof, set_bool, set_option, Field, FieldOptions, Label};
use prost::render::{render_field, render_i64, render_u64};
use prost::value::{FieldValue, ScalarValue};

fn err_of<T>(r: Result<T, SchemaError>) -> SchemaError {
    match r {
        Err(e) => e,
        Ok(_) => panic!("expected a schema error"),
    }
}

fn ok_of<T>(r: Result<T, SchemaError>) -> T {
    match r {
        Ok(v) => v,
        Err(e) => panic!("unexpected schema error: {:?}", e),
    }
}

#[test]
fn missing_tag_is_a_schema_error() {
    assert_eq!(
        ScalarField::new(Ty::Uint32, None, None, None, None).unwrap_err(),
        SchemaError::MissingTag
    );
}

#[test]
fn tags_outside_the_range_or_in_the_reserved_band_are_rejected() {
    assert_eq!(
        ScalarField::new(Ty::Uint32, None, None, None, Some(0)).unwrap_err(),
        SchemaError::TagOutOfRange
    );
    assert_eq!(
        ScalarField::new(Ty::Uint32, None, None, None, Some(19000)).unwrap_err(),
        SchemaError::TagOutOfRange
    );
    assert_eq!(
        ScalarField::new(Ty::Uint32, None, None, None, Some(19999)).unwrap_err(),
        SchemaError::TagOutOfRange
    );
    assert!(ScalarField::new(Ty::Uint32, None, None, None, Some(20000)).is_ok());
    assert!(ScalarField::new(Ty::Uint32, None, None, None, Some(0x1fffffff)).is_ok());
    assert_eq!(
        ScalarField::new(Ty::Uint32, None, None, None, Some(0x20000000)).unwrap_err(),
        SchemaError::TagOutOfRange
    );
}

#[test]
fn packed_demands_a_repeated_label() {
    assert_eq!(
        ScalarField::new(Ty::Uint32, None, Some(true), None, Some(1)).unwrap_err(),
        SchemaError::PackedNotRepeated
    );
    assert_eq!(
        ScalarField::new(Ty::Uint32, Some(Label::Optional), Some(true), None, Some(1)).unwrap_err(),
        SchemaError::PackedNotRepeated
    );
    assert_eq!(
        ScalarField::new(Ty::Uint32, Some(Label::Required), Some(true), None, Some(1)).unwrap_err(),
        SchemaError::PackedNotRepeated
    );
}

#[test]
fn packed_demands_a_numeric_type() {
    assert_eq!(
        ScalarField::new(Ty::String, Some(Label::Repeated), Some(true), None, Some(1)).unwrap_err(),
        SchemaError::PackedNotNumeric
    );
}

#[test]
fn repeated_numeric_fields_default_to_packed() {
    let f = ScalarField::new(Ty::Uint32, Some(Label::Repeated), None, None, Some(1)).unwrap();
    assert!(matches!(f.kind, Kind::Packed));
    let g = ScalarField::new(Ty::String, Some(Label::Repeated), None, None, Some(1)).unwrap();
    assert!(matches!(g.kind, Kind::Repeated));
    let h = ScalarField::new(Ty::Uint32, Some(Label::Repeated), Some(false), None, Some(1))
        .unwrap();
    assert!(matches!(h.kind, Kind::Repeated));
}

#[test]
fn required_fields_take_no_default() {
    assert_eq!(
        ScalarField::new(
            Ty::Uint32,
            Some(Label::Required),
            None,
            Some(ScalarValue::U32(1)),
            Some(1)
        )
        .unwrap_err(),
        SchemaError::DefaultOnRequired
    );
    // Plain and optional fields may override their default.
    assert!(
        ScalarField::new(Ty::Uint32, None, None, Some(ScalarValue::U32(1)), Some(1)).is_ok()
    );
    assert!(ScalarField::new(
        Ty::Uint32,
        Some(Label::Optional),
        None,
        Some(ScalarValue::U32(1)),
        Some(1)
    )
    .is_ok());
}

#[test]
fn repeated_fields_take_no_default() {
    assert_eq!(
        ScalarField::new(
            Ty::Uint32,
            Some(Label::Repeated),
            None,
            Some(ScalarValue::U32(1)),
            Some(1)
        )
        .unwrap_err(),
        SchemaError::DefaultOnRepeated
    );
}

#[test]
fn a_default_must_fit_the_declared_type() {
    assert_eq!(
        ScalarField::new(Ty::Uint32, None, None, Some(ScalarValue::Bool(true)), Some(1))
            .unwrap_err(),
        SchemaError::InvalidDefault
    );
    let f = ScalarField::new(Ty::Uint32, None, None, Some(ScalarValue::U32(9)), Some(1)).unwrap();
    assert!(matches!(f.kind, Kind::Plain(ScalarValue::U32(9))));
}

#[test]
fn scalar_oneof_variants_are_required_shaped_and_take_no_label() {
    let f = ScalarField::new_oneof(Ty::Uint32, None, None, None, Some(3)).unwrap();
    assert!(matches!(f.kind, Kind::Required(_)));
    assert_eq!(
        ScalarField::new_oneof(Ty::Uint32, Some(Label::Optional), None, None, Some(3)).unwrap_err(),
        SchemaError::InvalidOneofLabel
    );
    assert_eq!(
        ScalarField::new_oneof(Ty::Uint32, Some(Label::Repeated), None, None, Some(3)).unwrap_err(),
        SchemaError::InvalidOneofLabel
    );
}

fn msg_field(
    label: Option<Label>,
    as_msg: bool,
    as_msgs: bool,
    to_msg: bool,
    to_msgs: bool,
    from_msg: bool,
    merge_msg: bool,
) -> Result<message::Field, SchemaError> {
    let name = |on: bool, n: &str| if on { Some(n.to_string()) } else { None };
    message::Field::new(
        label,
        Some(1),
        None,
        name(as_msg, "as_one"),
        name(as_msgs, "as_many"),
        name(to_msg, "to_one"),
        name(to_msgs, "to_many"),
        name(from_msg, "from_one"),
        name(merge_msg, "merge_one"),
        MessageDescriptor::new(Vec::new()).unwrap(),
    )
}

#[test]
fn converting_fields_need_a_bridge_in_each_direction() {
    // A singular converting field without a value-to-wire hook.
    assert_eq!(
        err_of(msg_field(None, false, false, false, false, true, false)),
        SchemaError::MissingToHook
    );
    // A singular converting field without a way back.
    assert_eq!(
        err_of(msg_field(None, true, false, false, false, false, false)),
        SchemaError::MissingFromHook
    );
    // Collection hooks on a singular field.
    assert_eq!(
        err_of(msg_field(None, false, true, false, false, true, false)),
        SchemaError::PluralHookOnSingular
    );
    // Mixing single-value and collection bridges on a repeated field.
    assert_eq!(
        err_of(msg_field(Some(Label::Repeated), true, true, false, false, true, false)),
        SchemaError::ConflictingHooks
    );
    // A collection bridge without a collection merge hook.
    assert_eq!(
        err_of(msg_field(Some(Label::Repeated), false, true, false, false, true, false)),
        SchemaError::MissingMergeHook
    );
    // A repeated converting field without a way back.
    assert_eq!(
        err_of(msg_field(Some(Label::Repeated), true, false, false, false, false, false)),
        SchemaError::MissingFromHook
    );
    // Valid combinations.
    assert!(msg_field(None, true, false, false, false, true, false).is_ok());
    assert!(msg_field(None, false, false, true, false, false, true).is_ok());
    assert!(msg_field(Some(Label::Repeated), false, true, false, false, false, true).is_ok());
    assert!(msg_field(None, false, false, false, false, false, false).is_ok());
}

#[test]
fn message_fields_default_to_optional_and_may_infer_tags() {
    let f = message::Field::new(
        None,
        None,
        Some(7),
        None,
        None,
        None,
        None,
        None,
        None,
        MessageDescriptor::new(Vec::new()).unwrap(),
    )
    .unwrap();
    assert_eq!(f.label, Label::Optional);
    assert_eq!(f.tag, 7);
}

#[test]
fn oneof_message_variants_take_no_hooks() {
    assert_eq!(
        err_of(message::Field::new_oneof(
            None,
            Some(1),
            Some("as_one".to_string()),
            None,
            None,
            None,
            None,
            None,
            ok_of(MessageDescriptor::new(Vec::new())),
        )),
        SchemaError::HooksOnOneof
    );
    assert_eq!(
        err_of(message::Field::new_oneof(
            None,
            Some(1),
            None,
            Some("as_many".to_string()),
            None,
            None,
            None,
            None,
            ok_of(MessageDescriptor::new(Vec::new())),
        )),
        SchemaError::HooksOnOneof
    );
}

#[test]
fn map_keys_must_be_integral_boolean_or_string() {
    assert_eq!(
        err_of(mapping::Field::new(Ty::Float, Ty::Uint32, Some(1))),
        SchemaError::InvalidKeyType
    );
    assert_eq!(
        err_of(mapping::Field::new(Ty::Bytes, Ty::Uint32, Some(1))),
        SchemaError::InvalidKeyType
    );
    assert!(mapping::Field::new(Ty::String, Ty::Double, Some(1)).is_ok());
}

#[test]
fn sibling_tags_must_be_unique() {
    let a = Field::Scalar(ScalarField::new(Ty::Uint32, None, None, None, Some(1)).unwrap());
    let b = Field::Scalar(ScalarField::new(Ty::String, None, None, None, Some(1)).unwrap());
    assert_eq!(
        err_of(MessageDescriptor::new(vec![a, b])),
        SchemaError::DuplicateTag
    );

    let dup = vec![
        oneof::Variant {
            tag: 5,
            kind: oneof::VariantKind::Scalar(Ty::Uint32),
        },
        oneof::Variant {
            tag: 5,
            kind: oneof::VariantKind::Scalar(Ty::String),
        },
    ];
    assert_eq!(err_of(oneof::Field::new(dup)), SchemaError::DuplicateTag);
}

fn empty_options() -> FieldOptions {
    FieldOptions {
        scalar_ty: None,
        message: false,
        mapping: None,
        oneof: None,
        label: None,
        packed: None,
        default: None,
        tag: None,
        inferred_tag: None,
        as_msg: None,
        as_msgs: None,
        to_msg: None,
        to_msgs: None,
        from_msg: None,
        merge_msg: None,
        nested: None,
    }
}

#[test]
fn field_kind_selection_tries_scalar_message_map_oneof_in_order() {
    assert_eq!(
        err_of(Field::new(empty_options())),
        SchemaError::MissingType
    );

    let mut scalar_opts = empty_options();
    scalar_opts.scalar_ty = Some(Ty::Bool);
    scalar_opts.tag = Some(2);
    assert!(matches!(Field::new(scalar_opts).unwrap(), Field::Scalar(_)));

    let mut msg_opts = empty_options();
    msg_opts.message = true;
    msg_opts.tag = Some(2);
    assert_eq!(
        err_of(Field::new(msg_opts)),
        SchemaError::MissingNestedSchema
    );

    let mut map_opts = empty_options();
    map_opts.mapping = Some((Ty::Uint32, Ty::Uint32));
    map_opts.tag = Some(2);
    assert!(matches!(Field::new(map_opts).unwrap(), Field::Mapping(_)));

    // A message field with no explicit tag falls back to the tag inferred
    // from declaration order.
    let mut inferred_opts = empty_options();
    inferred_opts.message = true;
    inferred_opts.inferred_tag = Some(9);
    inferred_opts.nested = Some(ok_of(MessageDescriptor::new(Vec::new())));
    match Field::new(inferred_opts).unwrap() {
        Field::Message(mf) => assert_eq!(mf.tag, 9),
        _ => panic!("expected a message field"),
    }
}

#[test]
fn options_may_be_set_once() {
    let mut slot: Option<u32> = None;
    assert!(set_option(&mut slot, 1, "duplicate tag attributes").is_ok());
    assert_eq!(slot, Some(1));
    assert_eq!(
        set_option(&mut slot, 2, "duplicate tag attributes").unwrap_err(),
        SchemaError::DuplicateAttribute
    );
    assert_eq!(slot, Some(1));

    let mut flag = false;
    assert!(set_bool(&mut flag, "duplicate packed attribute").is_ok());
    assert!(flag);
    assert_eq!(
        set_bool(&mut flag, "duplicate packed attribute").unwrap_err(),
        SchemaError::DuplicateAttribute
    );
}

#[test]
fn labels_parse_and_print() {
    assert_eq!(Label::Optional.as_str(), "optional");
    assert_eq!(Label::Required.as_str(), "required");
    assert_eq!(Label::Repeated.as_str(), "repeated");
    assert_eq!(
        Label::variants(),
        vec![Label::Optional, Label::Required, Label::Repeated]
    );
    assert_eq!(Label::from_attr("repeated"), Some(Label::Repeated));
    assert_eq!(Label::from_attr("packed"), None);
}

#[test]
fn unknown_enum_carriers_resolve_by_configuration() {
    let strict = DeserializerConfig {
        ignore_unknown_enum_string_values: false,
    };
    let lenient = DeserializerConfig {
        ignore_unknown_enum_string_values: true,
    };

    let v: MaybeDeserializedValue<u32> = MaybeDeserializedValue::Val(5);
    let mapped = v.map(|n| n + 1);
    assert!(matches!(mapped, MaybeDeserializedValue::Val(6)));

    let unknown: MaybeDeserializedValue<u32> = MaybeDeserializedValue::UnknownEnumValue;
    let still_unknown = unknown.map(|n: u32| n + 1);
    assert!(matches!(
        still_unknown,
        MaybeDeserializedValue::UnknownEnumValue
    ));

    let u: MaybeDeserializedValue<u32> = MaybeDeserializedValue::UnknownEnumValue;
    assert_eq!(u.unwrap_for_field(&lenient, 0), Ok(0));
    let u2: MaybeDeserializedValue<u32> = MaybeDeserializedValue::UnknownEnumValue;
    assert_eq!(u2.unwrap_for_field(&strict, 0), Err(()));
    let u3: MaybeDeserializedValue<u32> = MaybeDeserializedValue::UnknownEnumValue;
    assert_eq!(u3.unwrap_for_omittable(&lenient), Ok(None));
    let v2: MaybeDeserializedValue<u32> = MaybeDeserializedValue::Val(4);
    assert_eq!(v2.unwrap_for_omittable(&strict), Ok(Some(4)));
}

#[test]
fn cautious_preallocation_is_bounded() {
    assert_eq!(cautious::<u8>(Some(10)), 10);
    assert_eq!(cautious::<u8>(None), 0);
    assert_eq!(cautious::<u8>(Some(usize::MAX)), 0x100000);
    assert_eq!(cautious::<u64>(Some(usize::MAX)), 0x100000 / 8);
    assert_eq!(cautious::<()>(Some(10)), 0);
}

#[test]
fn type_strings_parse_with_trimming() {
    assert_eq!(Ty::from_str("uint32"), Ok(Ty::Uint32));
    assert_eq!(Ty::from_str("  sfixed64\t"), Ok(Ty::Sfixed64));
    assert_eq!(Ty::from_str("bool"), Ok(Ty::Bool));
    assert_eq!(Ty::from_str("string"), Ok(Ty::String));
    assert_eq!(
        Ty::from_str("enumeration(Color)"),
        Ok(Ty::Enumeration("Color".to_string()))
    );
    assert_eq!(
        Ty::from_str(" enumeration < Shade > "),
        Ok(Ty::Enumeration("Shade".to_string()))
    );
    assert_eq!(Ty::from_str("varint"), Err(SchemaError::InvalidType));
    assert_eq!(Ty::from_str("enumeration"), Err(SchemaError::InvalidType));
    assert_eq!(Ty::from_str("enumeration Color"), Err(SchemaError::InvalidType));
    assert_eq!(Ty::from_str(""), Err(SchemaError::InvalidType));
}

#[test]
fn type_keywords_and_carriers() {
    assert_eq!(Ty::Sint64.as_str(), "sint64");
    assert_eq!(Ty::Enumeration("Color".to_string()).as_str(), "enum");
    assert_eq!(Ty::Enumeration("Color".to_string()).encode_as(), Ty::Int32);
    assert_eq!(Ty::Uint32.encode_as(), Ty::Uint32);
    assert_eq!(Ty::String.rust_type(), "Vec<u8>");
    assert_eq!(Ty::String.rust_ref_type(), "&[u8]");
    assert_eq!(Ty::Sfixed32.rust_type(), "i32");
    assert!(Ty::Sint64.is_numeric());
    assert!(!Ty::Bytes.is_numeric());
    assert_eq!(Ty::Float.wire_type(), prost::wire::WireType::Fixed32);
}

#[test]
fn field_storage_renders_for_diagnostics() {
    assert_eq!(render_u64(0), "0");
    assert_eq!(render_u64(1234567890), "1234567890");
    assert_eq!(render_i64(-42), "-42");
    assert_eq!(render_i64(i64::MIN), "-9223372036854775808");

    assert_eq!(
        render_field(&FieldValue::Single(ScalarValue::I32(-7))),
        "-7"
    );
    assert_eq!(render_field(&FieldValue::Opt(None)), "None");
    assert_eq!(
        render_field(&FieldValue::Opt(Some(ScalarValue::Bool(true)))),
        "Some(true)"
    );
    assert_eq!(
        render_field(&FieldValue::List(vec![
            ScalarValue::U32(1),
            ScalarValue::U32(2)
        ])),
        "[1, 2]"
    );
    assert_eq!(
        render_field(&FieldValue::Single(ScalarValue::Bytes(vec![0, 255]))),
        "[0, 255]"
    );
}
