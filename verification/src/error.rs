//! The ways in which decoding and selection fail.

use vstd::prelude::*;

verus! {

/// Why a text is no catalog.
#[derive(Debug, Clone, Copy, PartialEq, Eq)]
pub enum DecodeError {
    /// The text is not JSON, as far as `serde_json` reads it.
    Syntax,
    /// The JSON value is not an object that holds `code`, `display_name` and
    /// `brand` as strings.
    NotAProduct,
    /// The JSON value is not an object whose member `results` is an array.
    MissingResults,
    /// The entry of `results` at `index` is not an object that holds `code`,
    /// `display_name` and `brand` as strings. It is the first such entry.
    BadEntry { index: usize },
}

/// Why no product was selected.
#[derive(Debug, Clone, Copy, PartialEq, Eq)]
pub enum SelectError {
    /// The text could not be decoded into a catalog.
    Decode(DecodeError),
    /// The predicate held of `found` products, and `found` is not one.
    NotExactlyOne { found: usize },
}

} // verus!
