//! Routing-tree building blocks: the text-scanning primitives in
//! [`parsing`] and the (not yet wired-up) path data model in [`utils`].

pub mod parsing;
pub mod utils;
