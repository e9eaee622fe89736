//! Lexical scope scanning and symbol matching for source-code completion.
//!
//! Every scanner works on bytes, and offsets are byte offsets. The bytes of a
//! multi-byte character count as bytes of an identifier, so that a scanner that stops
//! at a delimiter does not stop inside such a character.

pub mod pos;
pub mod symbols;
pub mod text;
pub mod source;
pub mod collab;
pub mod fileres;
pub mod scopes;
pub mod matchers;
pub mod testutils;

pub use collab::{AstParser, DependencyResolver, PathResolver, Session, StatementIterator};
pub use fileres::{get_crate_file, get_module_file};
pub use matchers::{ImportInfo, MatchCxt};
pub use pos::{BytePos, ByteRange};
pub use source::{IndexedSource, Src};
pub use symbols::{Coordinate, Match, MatchType, SearchType, Visibility};
pub use testutils::{rejustify, slice};
