//! A filter-expression engine for selecting audio-metadata records.
//!
//! A filter such as `!APIC | TALB.text~'Dio'` is tokenized, parsed into an
//! ordered predicate program, and evaluated against a property context built
//! from a tag container (or from one record at a time). The engine applies
//! `&` and `|` strictly left to right — parentheses are the only means of
//! overriding that order — and never fails at evaluation time; malformed
//! filters are rejected when the program is constructed.

pub mod context;
pub mod eval;
pub mod filter;
pub mod laws;
pub mod options;
pub mod parse;
pub mod render;
pub mod summary;
pub mod text;
pub mod token;
pub mod urlref;
