//! An HTML entity codec.
//!
//! The library transforms UTF-8 text between its raw form and its
//! HTML-entity-escaped form: selected characters are encoded as named
//! (`&lt;`), hexadecimal (`&#x3c;`) or decimal (`&#60;`) entities, and any
//! mixture of those three forms is decoded back to its code points.
//! Every transformation is specified by a mathematical model of the byte
//! stream and verified against it.

/// The built-in entity tables.
pub mod data;
/// The decode pipeline.
pub mod decodes;
/// Numeric payloads: digit sequences and their values.
pub mod digits;
/// The library main module: the codec API and its result views.
pub mod entity;
/// Properties that relate the codec functions, proved once.
pub mod laws;
/// The tolerant UTF-8 scanner behind the encoder.
pub mod scan;
/// Lookups over the entity tables.
pub mod search;
/// The logical byte stream of a coded-data view.
pub mod splice;
/// Shared machinery of the result views.
pub mod views;
/// The encode pipeline.
pub mod encodes;

use vstd::prelude::*;

verus! {

/// A byte position range, inclusive on both ends, into the original input.
#[derive(Clone, Copy, PartialEq, Eq, Structural, Debug)]
pub struct CodeRange {
    pub start: usize,
    pub end: usize,
}

} // verus!
