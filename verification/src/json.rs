//! A JSON value model with a recursive-descent parser and a compact serializer.

pub mod chars;
pub mod convert;
pub mod grammar;
pub mod laws;
pub mod model;
pub mod number;
pub mod parser;
pub mod proofs;
pub mod serializer;
pub mod value;

pub use number::Number;
pub use parser::{from_str, ParseError};
pub use value::{Object, Value};
