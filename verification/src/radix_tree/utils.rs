//! Data model for a future routing tree: path segments, captured
//! parameters, and the tokens of the parameter syntax. No algorithm
//! consumes these types yet.

use std::collections::BTreeMap;
use vstd::prelude::*;

verus! {

/// A token of the parameter syntax inside a path pattern.
pub enum ParamToken {
    LeftBrace,
    Colon,
    RightBrace,
    Star,
}

/// A single URL parameter, consisting of a key and a value.
#[derive(Debug, PartialEq, Eq, Ord, PartialOrd, Default, Copy, Clone)]
pub struct DynamicPathElement<'k, 'v> {
    pub key: &'k [u8],
    pub value: &'v [u8],
}

/// One segment of a path pattern: either a literal byte string or a
/// captured parameter.
pub enum PathElement<'a> {
    Static(&'a [u8]),
    Dynamic(DynamicPathElement<'a, 'a>),
}

/// A parsed path: its ordered segments together with an ordered lookup
/// table from parameter keys to captured values.
pub struct Path<'a, V> {
    context: BTreeMap<&'a [u8], V>,
    path: Vec<PathElement<'a>>,
}

} // verus!
