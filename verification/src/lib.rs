//! An immutable JSON-like value tree with typed accessors, JSON Pointer
//! navigation, a small value algebra and two text renderers.
//!
//! The logic of this crate is verified; the contracts are stated over the
//! views defined next to each type. What it has from `chrono`, from
//! `serde_json` and from a few functions of the standard library it takes
//! on trust: each such call stands in a small function or specification
//! of its own, whose contract says what is believed of it and is not
//! proved. Floats are held as IEEE 754 binary64 bit patterns: the library
//! compares them and converts integers to them, and leaves arithmetic on
//! them and their decimal text to its caller. It reads no clock: the
//! caller hands it the instant that stands for now.
pub mod access;
pub mod compare;
pub mod conversion;
pub mod datavalue;
pub mod de;
pub mod error;
pub mod floating;
pub mod helpers;
pub mod operations;
pub mod operators;
pub mod ser;
pub mod text;
pub mod time;

pub use datavalue::{DataValue, DataValueType, Number, ValueView};
pub use de::{from_document, from_json, from_slice, from_str, Document, DocumentNumber};
pub use error::{Error, ErrorView};
pub use operations::{Operator, Order, Outcome};
pub use ser::{to_string, to_string_pretty, Piece};
pub use time::{Span, Timestamp};
