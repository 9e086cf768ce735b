//! A structured-message binary codec for the Protocol Buffers wire format.
//!
//! Messages are described by immutable field descriptors (kind, label, tag,
//! default value, conversion-hook metadata) and the codec encodes, merges,
//! measures and clears field values according to those descriptors, down to
//! the low-level wire primitives: variable-length integers, zigzag
//! transforms, fixed-width values, tag packing and length-delimited framing.

pub mod codec;
pub mod de;
pub mod error;
pub mod field;
pub mod laws;
pub mod render;
pub mod sample;
pub mod value;
pub mod wire;

pub use error::{DecodeError, SchemaError};
