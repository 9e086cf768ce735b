//! Tests of the field and message codec: encoding, merging, default
//! elision, packed runs, maps, oneofs, unknown fields and decode errors.

use prost::codec::MessageDescriptor;
use prost::error::DecodeError;
use prost::field::scalar::{Field as ScalarField, Kind, Ty};
use prost::field::{mapping, message, oneof, Field, Label};
use prost::sample::{Bar, Container, Data, Foo, Qux};
use prost::value::{FieldValue, MessageValue, OneofValue, ScalarValue};

fn uint32_field(tag: u32, label: Option<Label>, packed: Option<bool>) -> ScalarField {
    ScalarField::new(Ty::Uint32, label, packed, None, Some(tag)).unwrap()
}

fn single_field_descriptor(f: Field) -> MessageDescriptor {
    MessageDescriptor::new(vec![f]).unwrap()
}

fn encode_field(f: &ScalarField, v: &FieldValue) -> Vec<u8> {
    let mut buf = Vec::new();
    f.encode(v, &mut buf);
    buf
}

#[test]
fn plain_uint32_encodes_tag_and_varint() {
    let f = uint32_field(1, None, None);
    let buf = encode_field(&f, &FieldValue::Single(ScalarValue::U32(150)));
    assert_eq!(buf, vec![0x08, 0x96, 0x01]);
    assert_eq!(f.encoded_len(&FieldValue::Single(ScalarValue::U32(150))), 3);
}

#[test]
fn plain_field_at_default_elides() {
    let f = uint32_field(1, None, None);
    let buf = encode_field(&f, &FieldValue::Single(ScalarValue::U32(0)));
    assert_eq!(buf, Vec::<u8>::new());
}

#[test]
fn required_field_at_default_still_encodes() {
    let f = ScalarField::new(Ty::Uint32, Some(Label::Required), None, None, Some(1)).unwrap();
    let buf = encode_field(&f, &FieldValue::Single(ScalarValue::U32(0)));
    assert_eq!(buf, vec![0x08, 0x00]);
}

#[test]
fn optional_field_absent_elides() {
    let f = ScalarField::new(Ty::Uint32, Some(Label::Optional), None, None, Some(1)).unwrap();
    assert_eq!(encode_field(&f, &FieldValue::Opt(None)), Vec::<u8>::new());
    assert_eq!(
        encode_field(&f, &FieldValue::Opt(Some(ScalarValue::U32(0)))),
        vec![0x08, 0x00]
    );
}

#[test]
fn sint32_uses_zigzag_int32_uses_sign_extension() {
    let s = ScalarField::new(Ty::Sint32, None, None, None, Some(1)).unwrap();
    let buf = encode_field(&s, &FieldValue::Single(ScalarValue::I32(-1)));
    assert_eq!(buf, vec![0x08, 0x01]);

    let i = ScalarField::new(Ty::Int32, None, None, None, Some(1)).unwrap();
    let buf2 = encode_field(&i, &FieldValue::Single(ScalarValue::I32(-1)));
    assert_eq!(
        buf2,
        vec![0x08, 0xff, 0xff, 0xff, 0xff, 0xff, 0xff, 0xff, 0xff, 0xff, 0x01]
    );
}

#[test]
fn string_field_frames_bytes() {
    let f = ScalarField::new(Ty::String, None, None, None, Some(2)).unwrap();
    let buf = encode_field(
        &f,
        &FieldValue::Single(ScalarValue::Bytes(b"testing".to_vec())),
    );
    assert_eq!(
        buf,
        vec![0x12, 0x07, b't', b'e', b's', b't', b'i', b'n', b'g']
    );
}

#[test]
fn packed_encoding_matches_reference_layout() {
    let f = ScalarField::new(Ty::Uint32, Some(Label::Repeated), Some(true), None, Some(4)).unwrap();
    assert!(matches!(f.kind, Kind::Packed));
    let v = FieldValue::List(vec![
        ScalarValue::U32(3),
        ScalarValue::U32(270),
        ScalarValue::U32(86942),
    ]);
    let buf = encode_field(&f, &v);
    assert_eq!(buf, vec![0x22, 0x06, 0x03, 0x8e, 0x02, 0x9e, 0xa7, 0x05]);
}

#[test]
fn empty_packed_and_repeated_encode_nothing() {
    let p = ScalarField::new(Ty::Uint32, Some(Label::Repeated), Some(true), None, Some(4)).unwrap();
    let r =
        ScalarField::new(Ty::Uint32, Some(Label::Repeated), Some(false), None, Some(4)).unwrap();
    assert_eq!(encode_field(&p, &FieldValue::List(vec![])), Vec::<u8>::new());
    assert_eq!(encode_field(&r, &FieldValue::List(vec![])), Vec::<u8>::new());
}

fn list_of(m: &MessageValue, slot: usize) -> Vec<u32> {
    match &m.fields[slot] {
        FieldValue::List(vs) => vs
            .iter()
            .map(|v| match v {
                ScalarValue::U32(n) => *n,
                _ => panic!("unexpected carrier"),
            })
            .collect(),
        _ => panic!("unexpected storage"),
    }
}

#[test]
fn packed_and_unpacked_decode_to_equal_sequences() {
    let f = uint32_field(4, Some(Label::Repeated), Some(true));
    let d = single_field_descriptor(Field::Scalar(f));

    let packed = vec![0x22, 0x06, 0x03, 0x8e, 0x02, 0x9e, 0xa7, 0x05];
    let unpacked = vec![0x20, 0x03, 0x20, 0x8e, 0x02, 0x20, 0x9e, 0xa7, 0x05];

    let mp = d.decode(&packed, 8).unwrap();
    let mu = d.decode(&unpacked, 8).unwrap();
    assert_eq!(list_of(&mp, 0), vec![3, 270, 86942]);
    assert_eq!(list_of(&mu, 0), vec![3, 270, 86942]);

    // Decoding one after the other into the same message concatenates.
    let mut m = d.decode(&packed, 8).unwrap();
    d.merge_from(&mut m, &unpacked, 8).unwrap();
    assert_eq!(list_of(&m, 0), vec![3, 270, 86942, 3, 270, 86942]);
}

#[test]
fn unknown_fields_are_retained_and_re_emitted() {
    let d = single_field_descriptor(Field::Scalar(uint32_field(1, None, None)));
    // A record for known tag 1, then one for unknown tag 2 (varint) and one
    // for unknown tag 3 (length-delimited).
    let stream = vec![0x08, 0x2a, 0x10, 0x07, 0x1a, 0x02, 0xaa, 0xbb];
    let m = d.decode(&stream, 8).unwrap();
    assert_eq!(m.unknown.len(), 2);
    assert_eq!(m.unknown[0].tag, 2);
    assert_eq!(m.unknown[0].bytes, vec![0x07]);
    assert_eq!(m.unknown[1].tag, 3);
    assert_eq!(m.unknown[1].bytes, vec![0x02, 0xaa, 0xbb]);

    let mut out = Vec::new();
    d.encode(&m, &mut out);
    // The known record comes first, then the unknown records verbatim.
    assert_eq!(out, stream);
}

#[test]
fn oneof_last_write_wins_across_the_stream() {
    let d = Container::descriptor();
    let with_foo = Container {
        data: Some(Data::Foo(Box::new(Foo { foo: b"x".to_vec() }))),
    };
    let with_bar = Container {
        data: Some(Data::Bar(Bar { qux: None })),
    };
    let mut stream = Vec::new();
    d.encode(&with_foo.to_value(), &mut stream);
    d.encode(&with_bar.to_value(), &mut stream);

    let m = d.decode(&stream, 8).unwrap();
    match &m.fields[0] {
        FieldValue::Oneof(Some((tag, OneofValue::Message(_)))) => assert_eq!(*tag, 2),
        _ => panic!("expected the second variant to be live"),
    }
}

#[test]
fn sample_container_round_trips() {
    let d = Container::descriptor();
    let c = Container {
        data: Some(Data::Foo(Box::new(Foo {
            foo: b"hello".to_vec(),
        }))),
    };
    let mut buf = Vec::new();
    d.encode(&c.to_value(), &mut buf);
    let m = d.decode(&buf, 8).unwrap();
    match &m.fields[0] {
        FieldValue::Oneof(Some((1, OneofValue::Message(inner)))) => match &inner.fields[0] {
            FieldValue::Single(ScalarValue::Bytes(b)) => assert_eq!(b, b"hello"),
            _ => panic!("expected the string slot"),
        },
        _ => panic!("expected the first variant to be live"),
    }
    let mut again = Vec::new();
    d.encode(&m, &mut again);
    assert_eq!(again, buf);
    assert_eq!(d.encoded_len(&m), buf.len());
}

#[test]
fn nested_bar_qux_round_trips() {
    let d = Bar::descriptor();
    let b = Bar {
        qux: Some(Box::new(Qux {})),
    };
    let mut buf = Vec::new();
    d.encode(&b.to_value(), &mut buf);
    // Tag 1, length-delimited, empty nested message.
    assert_eq!(buf, vec![0x0a, 0x00]);
    let m = d.decode(&buf, 8).unwrap();
    assert!(matches!(&m.fields[0], FieldValue::OptMsg(Some(_))));
}

#[test]
fn recursion_limit_bounds_nesting() {
    let d = Bar::descriptor();
    let bytes = vec![0x0a, 0x00];
    assert!(matches!(d.decode(&bytes, 1), Ok(_)));
    assert!(matches!(
        d.decode(&bytes, 0),
        Err(DecodeError::RecursionLimitExceeded)
    ));
}

#[test]
fn truncated_nested_frame_fails() {
    let d = Bar::descriptor();
    let bytes = vec![0x0a, 0x05, 0x01];
    assert!(matches!(d.decode(&bytes, 8), Err(DecodeError::Truncated)));
}

#[test]
fn known_field_with_wrong_wire_type_rejected() {
    let d = single_field_descriptor(Field::Scalar(uint32_field(1, None, None)));
    // Tag 1 arriving as a fixed 32-bit value where a varint is declared.
    let bytes = vec![0x0d, 0x01, 0x02, 0x03, 0x04];
    assert!(matches!(
        d.decode(&bytes, 8),
        Err(DecodeError::UnexpectedWireType)
    ));
}

#[test]
fn map_entries_encode_and_merge_last_key_wins() {
    let pf = mapping::Field::new(Ty::Uint32, Ty::String, Some(1)).unwrap();
    let d = single_field_descriptor(Field::Mapping(pf));

    let mut m = d.default_value();
    // Three entries: key 1 -> "a", then key 1 -> "b" (overwrites), key 2 -> "c".
    let entry = |k: u8, v: u8| -> Vec<u8> { vec![0x0a, 0x05, 0x08, k, 0x12, 0x01, v] };
    let mut bytes = Vec::new();
    bytes.extend_from_slice(&entry(1, b'a'));
    bytes.extend_from_slice(&entry(1, b'b'));
    bytes.extend_from_slice(&entry(2, b'c'));
    d.merge_from(&mut m, &bytes, 8).unwrap();
    match &m.fields[0] {
        FieldValue::Mapping(entries) => {
            assert_eq!(entries.len(), 2);
            assert_eq!(entries[0].0, ScalarValue::U32(1));
            assert_eq!(entries[0].1, ScalarValue::Bytes(vec![b'b']));
            assert_eq!(entries[1].0, ScalarValue::U32(2));
            assert_eq!(entries[1].1, ScalarValue::Bytes(vec![b'c']));
        },
        _ => panic!("expected map storage"),
    }
}

#[test]
fn map_entry_default_key_and_value_elide() {
    let pf = mapping::Field::new(Ty::Uint32, Ty::Uint32, Some(1)).unwrap();
    let d = single_field_descriptor(Field::Mapping(pf));
    let m = MessageValue {
        fields: vec![FieldValue::Mapping(vec![(
            ScalarValue::U32(0),
            ScalarValue::U32(0),
        )])],
        unknown: vec![],
    };
    let mut buf = Vec::new();
    d.encode(&m, &mut buf);
    // One entry whose payload is empty: both key and value are at their
    // defaults.
    assert_eq!(buf, vec![0x0a, 0x00]);
    let back = d.decode(&buf, 8).unwrap();
    match &back.fields[0] {
        FieldValue::Mapping(entries) => {
            assert_eq!(entries.len(), 1);
            assert_eq!(entries[0].0, ScalarValue::U32(0));
            assert_eq!(entries[0].1, ScalarValue::U32(0));
        },
        _ => panic!("expected map storage"),
    }
}

#[test]
fn message_field_merge_overwrites_and_repeated_appends() {
    let msg_desc = {
        let f = uint32_field(1, None, None);
        single_field_descriptor(Field::Scalar(f))
    };
    let mf = message::Field::new(
        Some(Label::Repeated),
        Some(6),
        None,
        None,
        None,
        None,
        None,
        None,
        None,
        msg_desc,
    )
    .unwrap();
    let d = single_field_descriptor(Field::Message(mf));
    // Two nested messages, field values 5 and 6.
    let bytes = vec![0x32, 0x02, 0x08, 0x05, 0x32, 0x02, 0x08, 0x06];
    let m = d.decode(&bytes, 8).unwrap();
    match &m.fields[0] {
        FieldValue::MsgList(ms) => {
            assert_eq!(ms.len(), 2);
            match &ms[0].fields[0] {
                FieldValue::Single(ScalarValue::U32(n)) => assert_eq!(*n, 5),
                _ => panic!("expected uint32 slot"),
            }
            match &ms[1].fields[0] {
                FieldValue::Single(ScalarValue::U32(n)) => assert_eq!(*n, 6),
                _ => panic!("expected uint32 slot"),
            }
        },
        _ => panic!("expected message list"),
    }
    let mut again = Vec::new();
    d.encode(&m, &mut again);
    assert_eq!(again, bytes);
}

#[test]
fn oneof_scalar_variant_round_trips() {
    let variants = vec![
        oneof::Variant {
            tag: 1,
            kind: oneof::VariantKind::Scalar(Ty::Uint32),
        },
        oneof::Variant {
            tag: 2,
            kind: oneof::VariantKind::Scalar(Ty::String),
        },
    ];
    let of = oneof::Field::new(variants).unwrap();
    let d = single_field_descriptor(Field::Oneof(of));
    let m = MessageValue {
        fields: vec![FieldValue::Oneof(Some((
            1,
            OneofValue::Scalar(ScalarValue::U32(0)),
        )))],
        unknown: vec![],
    };
    let mut buf = Vec::new();
    d.encode(&m, &mut buf);
    // A oneof variant is required-shaped: even the zero value is encoded.
    assert_eq!(buf, vec![0x08, 0x00]);
    let back = d.decode(&buf, 8).unwrap();
    match &back.fields[0] {
        FieldValue::Oneof(Some((1, OneofValue::Scalar(ScalarValue::U32(0))))) => {},
        _ => panic!("expected the first variant at zero"),
    }
}

#[test]
fn clear_resets_to_defaults() {
    let f = ScalarField::new(Ty::Uint32, None, None, Some(ScalarValue::U32(7)), Some(1)).unwrap();
    let d = single_field_descriptor(Field::Scalar(f));
    let mut m = d.decode(&[0x08, 0x2a], 8).unwrap();
    match &m.fields[0] {
        FieldValue::Single(ScalarValue::U32(n)) => assert_eq!(*n, 42),
        _ => panic!("expected uint32 slot"),
    }
    d.clear(&mut m);
    // A plain field clears to its (custom) default, not to zero or absence.
    match &m.fields[0] {
        FieldValue::Single(ScalarValue::U32(n)) => assert_eq!(*n, 7),
        _ => panic!("expected uint32 slot"),
    }
}

#[test]
fn float_and_double_travel_as_bit_patterns() {
    let f = ScalarField::new(Ty::Float, None, None, None, Some(1)).unwrap();
    let bits = (1.5f32).to_bits();
    let buf = encode_field(&f, &FieldValue::Single(ScalarValue::U32(bits)));
    assert_eq!(buf, vec![0x0d, 0x00, 0x00, 0xc0, 0x3f]);

    let g = ScalarField::new(Ty::Double, None, None, None, Some(1)).unwrap();
    let dbits = (2.0f64).to_bits();
    let buf2 = encode_field(&g, &FieldValue::Single(ScalarValue::U64(dbits)));
    assert_eq!(buf2, vec![0x09, 0x00, 0x00, 0x00, 0x00, 0x00, 0x00, 0x00, 0x40]);
}

#[test]
fn flat_message_round_trips_through_the_decoder() {
    let d = MessageDescriptor::new(vec![
        Field::Scalar(ScalarField::new(Ty::Uint32, None, None, None, Some(1)).unwrap()),
        Field::Scalar(ScalarField::new(Ty::Sint64, None, None, None, Some(2)).unwrap()),
        Field::Scalar(
            ScalarField::new(Ty::String, Some(Label::Optional), None, None, Some(3)).unwrap(),
        ),
        Field::Scalar(
            ScalarField::new(Ty::Fixed32, Some(Label::Repeated), Some(true), None, Some(4))
                .unwrap(),
        ),
        Field::Scalar(
            ScalarField::new(Ty::Bytes, Some(Label::Repeated), None, None, Some(5)).unwrap(),
        ),
    ])
    .unwrap();
    let m = MessageValue {
        fields: vec![
            FieldValue::Single(ScalarValue::U32(7)),
            FieldValue::Single(ScalarValue::I64(-3)),
            FieldValue::Opt(Some(ScalarValue::Bytes(b"hi".to_vec()))),
            FieldValue::List(vec![ScalarValue::U32(1), ScalarValue::U32(0xffffffff)]),
            FieldValue::List(vec![
                ScalarValue::Bytes(vec![]),
                ScalarValue::Bytes(vec![9, 8]),
            ]),
        ],
        unknown: vec![],
    };
    let mut buf = Vec::new();
    d.encode(&m, &mut buf);
    let back = d.decode(&buf, 4).unwrap();
    assert!(matches!(
        &back.fields[0],
        FieldValue::Single(ScalarValue::U32(7))
    ));
    assert!(matches!(
        &back.fields[1],
        FieldValue::Single(ScalarValue::I64(-3))
    ));
    match &back.fields[2] {
        FieldValue::Opt(Some(ScalarValue::Bytes(b))) => assert_eq!(b, b"hi"),
        _ => panic!("expected the optional string present"),
    }
    assert_eq!(list_of(&back, 3), vec![1, 0xffffffff]);
    match &back.fields[4] {
        FieldValue::List(vs) => {
            assert_eq!(vs.len(), 2);
            assert_eq!(vs[0], ScalarValue::Bytes(vec![]));
            assert_eq!(vs[1], ScalarValue::Bytes(vec![9, 8]));
        },
        _ => panic!("expected the bytes list"),
    }
    assert!(back.unknown.is_empty());
    let mut again = Vec::new();
    d.encode(&back, &mut again);
    assert_eq!(again, buf);
}
