//! The ways in which a request can fail.

use vstd::prelude::*;

verus! {

/// A query parameter that an operation cannot do without.
#[derive(Clone, Copy, Debug, PartialEq, Eq, Structural)]
pub enum Param {
    Page,
    Slag,
    Tag,
    Query,
}

#[derive(Clone, Copy, Debug, PartialEq, Eq, Structural)]
pub enum Error {
    /// A required query parameter is absent.
    MissingParameter(Param),
    /// The page is neither `all` nor a positive number.
    InvalidPage,
    /// A record names more or fewer tags than search tags.
    TagListsDiffer,
    /// A record lacks a field that the operation reads, or holds it in
    /// another kind than the operation expects.
    MissingField,
    /// A record holds an attribute that has no JSON rendering.
    UnsupportedAttribute,
}

} // verus!
