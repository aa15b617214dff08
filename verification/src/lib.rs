//! A small JSON-like document library: an ordered, typed document model with
//! typed accessors, a pretty-printing serializer, and a recursive-descent
//! parser, all with verified contracts.

pub mod error;
pub mod model;
pub mod number;
pub mod object;
pub mod parse_spec;
pub mod parser;
pub mod render;
pub mod roundtrip;
mod text;

pub use error::JsonError;
pub use number::JsonNumber;
pub use object::{JsonObject, JsonType};
pub use parser::Parser;
