//! The dual-struct conversion-hook test: a schema whose fields reach the
//! codec through value-conversion hooks and a structurally matching schema
//! without hooks produce byte-identical output for corresponding logical
//! values, and both streams decode to the same wire-shaped message.

use prost::codec::MessageDescriptor;
use prost::field::message;
use prost::field::scalar::{Field as ScalarField, Ty};
use prost::field::{Field, Label};
use prost::value::{FieldValue, MessageValue, ScalarValue};

#[derive(Clone, PartialEq, Debug)]
struct Msg {
    field: u32,
}

fn msg_descriptor() -> MessageDescriptor {
    let f = ScalarField::new(Ty::Uint32, None, None, None, Some(1)).unwrap();
    MessageDescriptor::new(vec![Field::Scalar(f)]).unwrap()
}

fn msg_value(m: &Msg) -> MessageValue {
    MessageValue {
        fields: vec![FieldValue::Single(ScalarValue::U32(m.field))],
        unknown: vec![],
    }
}

fn scalar(ty: Ty, tag: u32) -> Field {
    Field::Scalar(ScalarField::new(ty, None, None, None, Some(tag)).unwrap())
}

fn optional_scalar(ty: Ty, tag: u32) -> Field {
    Field::Scalar(ScalarField::new(ty, Some(Label::Optional), None, None, Some(tag)).unwrap())
}

fn msg_field(
    label: Option<Label>,
    tag: u32,
    as_msg: Option<&str>,
    to_msg: Option<&str>,
    from_msg: Option<&str>,
) -> Field {
    Field::Message(
        message::Field::new(
            label,
            Some(tag),
            None,
            as_msg.map(|s| s.to_string()),
            None,
            to_msg.map(|s| s.to_string()),
            None,
            from_msg.map(|s| s.to_string()),
            None,
            msg_descriptor(),
        )
        .unwrap(),
    )
}

/// The schema as the hook-using struct declares it: the hook names are
/// recorded on the descriptors, and the wire shape is identical to the
/// hookless schema below.
fn with_msg_fns_descriptor() -> MessageDescriptor {
    MessageDescriptor::new(vec![
        scalar(Ty::Uint32, 1),
        scalar(Ty::String, 2),
        scalar(Ty::Uint32, 3),
        optional_scalar(Ty::Uint32, 4),
        scalar(Ty::Uint32, 5),
        msg_field(
            Some(Label::Repeated),
            6,
            None,
            Some("to_wire_msg"),
            Some("from_wire_msg"),
        ),
        msg_field(
            Some(Label::Required),
            7,
            Some("as_ref_unwrap"),
            None,
            Some("wrap_some"),
        ),
        msg_field(
            Some(Label::Repeated),
            8,
            Some("as_ref_unwrap"),
            None,
            Some("wrap_some"),
        ),
    ])
    .unwrap()
}

/// The structurally matching schema with no hooks.
fn without_msg_fns_descriptor() -> MessageDescriptor {
    MessageDescriptor::new(vec![
        scalar(Ty::Uint32, 1),
        scalar(Ty::String, 2),
        scalar(Ty::Uint32, 3),
        optional_scalar(Ty::Uint32, 4),
        scalar(Ty::Uint32, 5),
        msg_field(Some(Label::Repeated), 6, None, None, None),
        msg_field(Some(Label::Required), 7, None, None, None),
        msg_field(Some(Label::Repeated), 8, None, None, None),
    ])
    .unwrap()
}

fn get_tuple_left(tuple: &(u32, String)) -> u32 {
    tuple.0
}

fn get_tuple_right(tuple: &(u32, String)) -> String {
    tuple.1.clone()
}

fn get_msg_field(msg: &Msg) -> u32 {
    msg.field
}

fn as_ref_unwrap<T: Clone>(val: &Option<T>) -> T {
    val.as_ref().unwrap().clone()
}

#[test]
fn msg_fns() {
    // The hook-using struct's owner data.
    let tuple: (u32, String) = (1, "foo".to_string());
    let neg_to_pos: i32 = -2;
    let none: Option<u32> = Some(3);
    let nested = Msg { field: 4 };
    let nested_repeated = vec![Msg { field: 5 }, Msg { field: 6 }];
    let unwrap: Option<Msg> = Some(Msg { field: 7 });
    let unwrap_repeated: Vec<Option<Msg>> = vec![Some(Msg { field: 8 }), Some(Msg { field: 9 })];

    // The hooks bridge the owner data to the wire shape.
    let to_pos = |n: &i32| n.abs() as u32;
    let none_to_wire = |_: &Option<u32>| Option::<u32>::None;
    let with_value = MessageValue {
        fields: vec![
            FieldValue::Single(ScalarValue::U32(get_tuple_left(&tuple))),
            FieldValue::Single(ScalarValue::Bytes(
                get_tuple_right(&tuple).into_bytes(),
            )),
            FieldValue::Single(ScalarValue::U32(to_pos(&neg_to_pos))),
            FieldValue::Opt(none_to_wire(&none).map(ScalarValue::U32)),
            FieldValue::Single(ScalarValue::U32(get_msg_field(&nested))),
            FieldValue::MsgList(nested_repeated.iter().map(msg_value).collect()),
            FieldValue::SingleMsg(Box::new(msg_value(&as_ref_unwrap(&unwrap)))),
            FieldValue::MsgList(
                unwrap_repeated
                    .iter()
                    .map(|m| msg_value(&as_ref_unwrap(m)))
                    .collect(),
            ),
        ],
        unknown: vec![],
    };

    // The hookless struct's data, already wire-shaped.
    let without_value = MessageValue {
        fields: vec![
            FieldValue::Single(ScalarValue::U32(1)),
            FieldValue::Single(ScalarValue::Bytes(b"foo".to_vec())),
            FieldValue::Single(ScalarValue::U32(2)),
            FieldValue::Opt(None),
            FieldValue::Single(ScalarValue::U32(4)),
            FieldValue::MsgList(vec![
                msg_value(&Msg { field: 5 }),
                msg_value(&Msg { field: 6 }),
            ]),
            FieldValue::SingleMsg(Box::new(msg_value(&Msg { field: 7 }))),
            FieldValue::MsgList(vec![
                msg_value(&Msg { field: 8 }),
                msg_value(&Msg { field: 9 }),
            ]),
        ],
        unknown: vec![],
    };

    let with_desc = with_msg_fns_descriptor();
    let without_desc = without_msg_fns_descriptor();

    let mut with_msg_fns_buf = Vec::with_capacity(with_desc.encoded_len(&with_value));
    let mut without_msg_fns_buf = Vec::with_capacity(without_desc.encoded_len(&without_value));
    with_desc.encode(&with_value, &mut with_msg_fns_buf);
    without_desc.encode(&without_value, &mut without_msg_fns_buf);

    assert_eq!(with_msg_fns_buf, without_msg_fns_buf);

    // Decoding either stream under either schema yields the same wire-shaped
    // message; field 4 reads back as absent, since the hook elided it.
    let a = with_desc.decode(&with_msg_fns_buf, 8).expect("failed decoding");
    let b = with_desc
        .decode(&without_msg_fns_buf, 8)
        .expect("failed decoding");
    let c = without_desc
        .decode(&without_msg_fns_buf, 8)
        .expect("failed decoding");
    let d = without_desc
        .decode(&with_msg_fns_buf, 8)
        .expect("failed decoding");

    for m in [&a, &b, &c, &d] {
        assert!(matches!(
            &m.fields[0],
            FieldValue::Single(ScalarValue::U32(1))
        ));
        match &m.fields[1] {
            FieldValue::Single(ScalarValue::Bytes(s)) => assert_eq!(s, b"foo"),
            _ => panic!("expected the string slot"),
        }
        assert!(matches!(
            &m.fields[2],
            FieldValue::Single(ScalarValue::U32(2))
        ));
        assert!(matches!(&m.fields[3], FieldValue::Opt(None)));
        assert!(matches!(
            &m.fields[4],
            FieldValue::Single(ScalarValue::U32(4))
        ));
        match &m.fields[5] {
            FieldValue::MsgList(ms) => assert_eq!(ms.len(), 2),
            _ => panic!("expected a message list"),
        }
        match &m.fields[7] {
            FieldValue::MsgList(ms) => assert_eq!(ms.len(), 2),
            _ => panic!("expected a message list"),
        }
        let mut again = Vec::new();
        with_desc.encode(m, &mut again);
        assert_eq!(again, with_msg_fns_buf);
    }
}
