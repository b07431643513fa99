//! A verified parser for a one-line `key:value` form mini-language.
//!
//! The language consists of whitespace-separated `key:value` pairs.  Keys and
//! values may be unquoted tokens, quoted tokens (allowing embedded spaces and
//! colons), and may use a backslash escape that copies the following character
//! verbatim while suppressing its special meaning.
//!
//! The parser is a two-level finite-state machine: a collection state tracks
//! which field (key or value) is under construction, and a string-parsing
//! sub-state tracks quoting and escaping.  The machine is written down once as
//! a specification-level transition function ([`machine::step`]), and the
//! executable parser ([`parser::parse`]) is proved to compute exactly what the
//! specification machine computes.  [`serial::serialize`] writes a mapping
//! back out in a canonical escaped form, and [`laws`] proves the general
//! properties: exact contents for unique keys, last write wins for duplicate
//! keys, and the parse/serialize round trip.

pub mod form_map;
pub mod laws;
pub mod machine;
pub mod parser;
pub mod serial;

pub use form_map::FormMap;
pub use machine::ParseError;
pub use parser::parse;
pub use serial::serialize;
