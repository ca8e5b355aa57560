//! Text-scanning primitives for a URL/path routing radix tree.
//!
//! Two pure, stateless operations are provided by [`radix_tree::parsing`]:
//! a finder for the first index at which two strings diverge, and a
//! balanced-bracket-aware scanner that consumes input up to an unmatched
//! closing bracket, honouring nesting and backslash escapes. The data model
//! in [`radix_tree::utils`] is declared for a future routing tree and is not
//! yet consumed by any algorithm.

pub mod radix_tree;
