//! The proofs behind the laws of the parser and the serializer.

pub mod round_trip;
pub mod soundness;
pub mod whitespace;
