//! A small family of concrete message types wired to the dynamic codec: a
//! container holding a oneof over two message variants, a message with one
//! string field, a message with an optional heap-held nested message, and an
//! empty message. They serve as a worked example of descriptor construction
//! and of converting typed values into codec storage.

use vstd::prelude::*;

use crate::codec::MessageDescriptor;
use crate::field::oneof::{self, Variant, VariantKind};
use crate::field::scalar::{SpecKind, Ty};
use crate::field::{Field, Label};
use crate::value::{
    FieldValue, MessageValue, OneofValue, ScalarValue, SpecField, SpecMessage, SpecOneof,
    SpecScalar,
};

verus! {

/// A message with one plain string field under tag 1; the string travels as
/// its UTF-8 bytes.
pub struct Foo {
    pub foo: Vec<u8>,
}

/// An empty message.
pub struct Qux {}

/// A message with an optional, heap-held nested `Qux` under tag 1.
pub struct Bar {
    pub qux: Option<Box<Qux>>,
}

/// The payload of `Container`: one of two message variants.
pub enum Data {
    Foo(Box<Foo>),
    Bar(Bar),
}

/// A message whose only field is a oneof over `Data`, with `Foo` under tag 1
/// and `Bar` under tag 2.
pub struct Container {
    pub data: Option<Data>,
}

/// The codec storage a `Qux` denotes: no fields.
pub open spec fn qux_value_view(q: Qux) -> SpecMessage {
    SpecMessage { fields: Seq::empty(), unknown: Seq::empty() }
}

/// The codec storage a `Foo` denotes: its string bytes in slot 0.
pub open spec fn foo_value_view(f: Foo) -> SpecMessage {
    SpecMessage {
        fields: seq![SpecField::Single(SpecScalar::Bytes(f.foo@))],
        unknown: Seq::empty(),
    }
}

/// The codec storage a `Bar` denotes: its optional nested message in slot 0.
pub open spec fn bar_value_view(b: Bar) -> SpecMessage {
    SpecMessage {
        fields: seq![
            SpecField::OptMsg(
                match b.qux {
                    Some(q) => Some(qux_value_view(*q)),
                    None => None,
                },
            ),
        ],
        unknown: Seq::empty(),
    }
}

/// The codec storage a `Container` denotes: its live oneof variant, if any,
/// in slot 0.
pub open spec fn container_value_view(c: Container) -> SpecMessage {
    SpecMessage {
        fields: seq![
            SpecField::Oneof(
                match c.data {
                    None => None,
                    Some(Data::Foo(f)) => Some((1u32, SpecOneof::Message(foo_value_view(*f)))),
                    Some(Data::Bar(b)) => Some((2u32, SpecOneof::Message(bar_value_view(b)))),
                },
            ),
        ],
        unknown: Seq::empty(),
    }
}

impl Qux {
    /// The schema of `Qux`: no fields.
    pub fn descriptor() -> (r: MessageDescriptor)
        ensures
            r.wf(),
            r.fields@.len() == 0,
    {
        match MessageDescriptor::new(Vec::new()) {
            Ok(d) => d,
            Err(_) => {
                proof {
                    assert(false);
                }
                MessageDescriptor { fields: Vec::new() }
            },
        }
    }

    /// The codec storage of this message.
    pub fn to_value(&self) -> (r: MessageValue)
        ensures
            r@ == qux_value_view(*self),
    {
        let r = MessageValue { fields: Vec::new(), unknown: Vec::new() };
        proof {
            assert(crate::value::fields_view(r.fields@) =~= Seq::<SpecField>::empty());
            assert(crate::value::unknowns_view(r.unknown@) =~= Seq::<
                crate::value::SpecUnknown,
            >::empty());
        }
        r
    }
}

impl Foo {
    /// The schema of `Foo`: one plain string field under tag 1.
    pub fn descriptor() -> (r: MessageDescriptor)
        ensures
            r.wf(),
            r.fields@.len() == 1,
            r.fields@[0] matches Field::Scalar(sf) && sf.ty == Ty::String && sf.tag == 1
                && sf.kind@ == SpecKind::Plain(SpecScalar::Bytes(Seq::<u8>::empty())),
    {
        let sf = match crate::field::scalar::Field::new(Ty::String, None, None, None, Some(1)) {
            Ok(f) => f,
            Err(_) => {
                proof {
                    assert(false);
                }
                return MessageDescriptor { fields: Vec::new() };
            },
        };
        let mut fields: Vec<Field> = Vec::new();
        fields.push(Field::Scalar(sf));
        match MessageDescriptor::new(fields) {
            Ok(d) => d,
            Err(_) => {
                proof {
                    assert(false);
                }
                MessageDescriptor { fields: Vec::new() }
            },
        }
    }

    /// The codec storage of this message.
    pub fn to_value(&self) -> (r: MessageValue)
        ensures
            r@ == foo_value_view(*self),
    {
        let mut fields: Vec<FieldValue> = Vec::new();
        fields.push(
            FieldValue::Single(ScalarValue::Bytes(vstd::slice::slice_to_vec(self.foo.as_slice()))),
        );
        let r = MessageValue { fields, unknown: Vec::new() };
        proof {
            crate::value::lemma_fields_view_index(r.fields@);
            assert(crate::value::fields_view(r.fields@) =~= foo_value_view(*self).fields);
            assert(crate::value::unknowns_view(r.unknown@) =~= Seq::<
                crate::value::SpecUnknown,
            >::empty());
        }
        r
    }
}

impl Bar {
    /// The schema of `Bar`: one optional nested message under tag 1.
    pub fn descriptor() -> (r: MessageDescriptor)
        ensures
            r.wf(),
            r.fields@.len() == 1,
            r.fields@[0] matches Field::Message(mf) && mf.tag == 1 && mf.label == Label::Optional
                && mf.nested.fields@.len() == 0,
    {
        let mf = match crate::field::message::Field::new(
            None,
            Some(1),
            None,
            None,
            None,
            None,
            None,
            None,
            None,
            Qux::descriptor(),
        ) {
            Ok(f) => f,
            Err(_) => {
                proof {
                    assert(false);
                }
                return MessageDescriptor { fields: Vec::new() };
            },
        };
        let mut fields: Vec<Field> = Vec::new();
        fields.push(Field::Message(mf));
        match MessageDescriptor::new(fields) {
            Ok(d) => d,
            Err(_) => {
                proof {
                    assert(false);
                }
                MessageDescriptor { fields: Vec::new() }
            },
        }
    }

    /// The codec storage of this message.
    pub fn to_value(&self) -> (r: MessageValue)
        ensures
            r@ == bar_value_view(*self),
    {
        let slot = match &self.qux {
            Some(q) => FieldValue::OptMsg(Some(Box::new(q.to_value()))),
            None => FieldValue::OptMsg(None),
        };
        let mut fields: Vec<FieldValue> = Vec::new();
        fields.push(slot);
        let r = MessageValue { fields, unknown: Vec::new() };
        proof {
            crate::value::lemma_fields_view_index(r.fields@);
            assert(crate::value::fields_view(r.fields@) =~= bar_value_view(*self).fields);
            assert(crate::value::unknowns_view(r.unknown@) =~= Seq::<
                crate::value::SpecUnknown,
            >::empty());
        }
        r
    }
}

impl Container {
    /// The schema of `Container`: one oneof field, `Foo` under tag 1 and
    /// `Bar` under tag 2.
    pub fn descriptor() -> (r: MessageDescriptor)
        ensures
            r.wf(),
            r.fields@.len() == 1,
            r.fields@[0] matches Field::Oneof(of) && {
                &&& of.variants@.len() == 2
                &&& of.variants@[0].tag == 1
                &&& of.variants@[0].kind matches VariantKind::Message(d1) && d1.fields@.len() == 1
                &&& of.variants@[1].tag == 2
                &&& of.variants@[1].kind matches VariantKind::Message(d2) && d2.fields@.len() == 1
            },
    {
        let mut variants: Vec<Variant> = Vec::new();
        variants.push(Variant { tag: 1, kind: VariantKind::Message(Foo::descriptor()) });
        variants.push(Variant { tag: 2, kind: VariantKind::Message(Bar::descriptor()) });
        let of = match oneof::Field::new(variants) {
            Ok(f) => f,
            Err(_) => {
                proof {
                    assert(false);
                }
                return MessageDescriptor { fields: Vec::new() };
            },
        };
        let mut fields: Vec<Field> = Vec::new();
        fields.push(Field::Oneof(of));
        match MessageDescriptor::new(fields) {
            Ok(d) => d,
            Err(_) => {
                proof {
                    assert(false);
                }
                MessageDescriptor { fields: Vec::new() }
            },
        }
    }

    /// The codec storage of this message.
    pub fn to_value(&self) -> (r: MessageValue)
        ensures
            r@ == container_value_view(*self),
    {
        let slot = match &self.data {
            None => FieldValue::Oneof(None),
            Some(Data::Foo(f)) => FieldValue::Oneof(
                Some((1, OneofValue::Message(Box::new(f.to_value())))),
            ),
            Some(Data::Bar(b)) => FieldValue::Oneof(
                Some((2, OneofValue::Message(Box::new(b.to_value())))),
            ),
        };
        let mut fields: Vec<FieldValue> = Vec::new();
        fields.push(slot);
        let r = MessageValue { fields, unknown: Vec::new() };
        proof {
            crate::value::lemma_fields_view_index(r.fields@);
            assert(crate::value::fields_view(r.fields@) =~= container_value_view(*self).fields);
            assert(crate::value::unknowns_view(r.unknown@) =~= Seq::<
                crate::value::SpecUnknown,
            >::empty());
        }
        r
    }
}

} // verus!
