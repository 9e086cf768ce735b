//! Oneof-kind fields: a tagged union over independent variants, at most one
//! live at a time. Each variant owns its own tag and is required-shaped on
//! the wire (no default elision); decoding any tag of the set replaces the
//! whole union, so the last writer wins across the byte stream.

use vstd::prelude::*;

use crate::error::SchemaError;
use crate::field::scalar::{tag_in_range, Ty};

verus! {

/// What one oneof variant carries: a scalar of a given type, or a nested
/// message.
pub enum VariantKind {
    Scalar(Ty),
    Message(crate::codec::MessageDescriptor),
}

/// One variant of a oneof: its tag and its kind.
pub struct Variant {
    pub tag: u32,
    pub kind: VariantKind,
}

/// A validated oneof-kind field descriptor.
pub struct Field {
    /// The variants, each owning one tag of the oneof's tag set.
    pub variants: Vec<Variant>,
}

impl Variant {
    /// A well-formed variant: a legal tag and a well-formed nested schema
    /// where the variant is a message.
    pub open spec fn wf(self) -> bool
        decreases self,
    {
        &&& tag_in_range(self.tag)
        &&& match self.kind {
            VariantKind::Scalar(_) => true,
            VariantKind::Message(d) => d.wf(),
        }
    }
}

impl Field {
    /// A well-formed descriptor: every variant well-formed, tags pairwise
    /// distinct.
    pub open spec fn wf(self) -> bool
        decreases self,
    {
        &&& forall|i: int| 0 <= i < self.variants@.len() ==> (#[trigger] self.variants@[i]).wf()
        &&& forall|i: int, j: int|
            0 <= i < j < self.variants@.len() ==> self.variants@[i].tag != self.variants@[j].tag
    }

    /// The tags of the oneof's variants, in declaration order.
    pub open spec fn spec_tags(self) -> Seq<u32> {
        self.variants@.map_values(|v: Variant| v.tag)
    }

    /// The index of the variant owning `tag`, if any.
    pub open spec fn variant_index(self, tag: u32) -> Option<int> {
        if exists|i: int| 0 <= i < self.variants@.len() && (#[trigger] self.variants@[i]).tag
            == tag {
            Some(
                choose|i: int|
                    0 <= i < self.variants@.len() && (#[trigger] self.variants@[i]).tag == tag,
            )
        } else {
            None
        }
    }

    /// Returns the index of the variant owning `tag`, if any.
    pub fn find_variant(&self, tag: u32) -> (r: Option<usize>)
        requires
            self.wf(),
        ensures
            match r {
                Some(i) => self.variant_index(tag) == Some(i as int),
                None => self.variant_index(tag) is None,
            },
    {
        let n = self.variants.len();
        let mut i: usize = 0;
        while i < n
            invariant
                0 <= i <= n == self.variants@.len(),
                self.wf(),
                forall|k: int| 0 <= k < i ==> (#[trigger] self.variants@[k]).tag != tag,
            decreases n - i,
        {
            if self.variants[i].tag == tag {
                proof {
                    let j = choose|j: int|
                        0 <= j < self.variants@.len() && (#[trigger] self.variants@[j]).tag == tag;
                    if j != i {
                        assert(self.variants@[j].tag == self.variants@[i as int].tag);
                    }
                }
                return Some(i);
            }
            i = i + 1;
        }
        None
    }

    /// Validates a proposed variant list and builds the descriptor; sibling
    /// variants must not share a tag.
    pub fn new(variants: Vec<Variant>) -> (r: Result<Field, SchemaError>)
        requires
            forall|i: int| 0 <= i < variants@.len() ==> (#[trigger] variants@[i]).wf(),
        ensures
            match r {
                Ok(f) => f.variants == variants && f.wf(),
                Err(e) => e == SchemaError::DuplicateTag && exists|i: int, j: int|
                    0 <= i < j < variants@.len() && (#[trigger] variants@[i]).tag == (
                    #[trigger] variants@[j]).tag,
            },
    {
        let n = variants.len();
        let mut i: usize = 0;
        while i < n
            invariant
                0 <= i <= n == variants@.len(),
                forall|p: int, q: int|
                    0 <= p < q < variants@.len() && q < i ==> (#[trigger] variants@[p]).tag != (
                    #[trigger] variants@[q]).tag,
            decreases n - i,
        {
            let mut j: usize = 0;
            while j < i
                invariant
                    0 <= j <= i < n == variants@.len(),
                    forall|p: int|
                        0 <= p < j ==> (#[trigger] variants@[p]).tag != variants@[i as int].tag,
                decreases i - j,
            {
                if variants[j].tag == variants[i].tag {
                    return Err(SchemaError::DuplicateTag);
                }
                j = j + 1;
            }
            i = i + 1;
        }
        Ok(Field { variants })
    }
}

} // verus!
