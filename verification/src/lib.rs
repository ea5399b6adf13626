//! A compact, text-safe codec for a small structured data model: null,
//! booleans, integers, floats, strings, arrays and objects.
//!
//! A document is one string. Every value starts with a token outside the
//! digits, numbers are written in base 62 and end where the next token
//! starts, a value that is worth it is registered once and referred to by
//! its index afterwards, and repeated elements of an array are counted.
//!
//! `ser::to_string` writes a document and `de::from_str` reads one. What they
//! write and read is defined in `wire` and `grammar`, and `laws` states what
//! holds of the two together.

pub mod constants;
pub mod date;
pub mod de;
pub mod dict;
pub mod error;
pub mod escape;
pub mod grammar;
pub mod integer;
pub mod laws;
pub mod round_trip;
pub mod ser;
pub mod text;
pub mod value;
pub mod wire;
