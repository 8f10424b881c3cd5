//! A format-string engine with two placeholder dialects, `{}`-style and
//! printf-style, over a small model of values.
pub mod text;
pub mod value;
pub mod argument;
pub mod curly;
pub mod python;
pub mod render;
pub mod format;
pub mod laws;

pub use curly::{parse_position, SimpleCurlyFormat, SimpleCurlyIter};
pub use format::Dialect;
pub use python::{PythonFormat, PythonIter};
pub use argument::{
    ArgumentSpec, Arguments, Conversion, Directive, Error, ParseReason, Position, ValueKind, Width,
};
pub use value::{Decimal, Value, ValueMap};
