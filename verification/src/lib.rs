//! Expansion of byte-string and string literals, marked with `@`, into their
//! elements, over a small token-tree model.

pub mod laws;
pub mod literal;
pub mod rewriter;
pub mod token;

pub use crate::rewriter::{expand, expand_elements, read_elements, Elements};
pub use crate::token::{Delimiter, ExpandError, Spacing, Span, Token};
