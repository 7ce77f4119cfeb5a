//! The document model: a generic nested key/value tree.
//!
//! A parsed configuration file is handed to the library as a `Node`. An
//! `Object` node carries its entries in source order; a `Text` node is a
//! string leaf; everything else (numbers, booleans, lists, null) is `Other`
//! and is never descended into.

use vstd::prelude::*;

verus! {

/// One entry of an object node: a key and the child it maps to.
#[derive(Debug, PartialEq, Eq)]
pub struct Field {
    pub key: String,
    pub value: Node,
}

/// A node of the parsed configuration document.
#[derive(Debug, PartialEq, Eq)]
pub enum Node {
    /// A nested block: an ordered mapping from string keys to child nodes.
    Object(Vec<Field>),
    /// A string leaf.
    Text(String),
    /// Any other leaf (number, boolean, list, null): opaque, never descended into.
    Other,
}

} // verus!
