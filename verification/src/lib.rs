//! A one-way encoder that turns a structured in-memory value (primitives,
//! options, sequences, maps, tuples, and tagged sum-type variants) into a
//! compact, bracket-delimited textual form.
//!
//! The encoder appends tokens to a growing output buffer and decides whether
//! a separator is needed before the next element by inspecting the single
//! most-recently-written character of that buffer: a buffer ending in the
//! composite's own opening bracket means no element has been written yet.

pub mod error;
pub mod laws;
pub mod num;
pub mod ser;
pub mod value;

pub use error::Error;
pub use ser::{to_string, Serializer};
pub use value::Value;
