//! What a search asks for and what it finds.

use vstd::prelude::*;
use crate::pos::{BytePos, ByteRange};

verus! {

/// How a candidate name is held against the search string.
#[derive(Clone, Copy, Debug, PartialEq, Eq, Structural)]
pub enum SearchType {
    /// The name is the search string, and ends where the search string ends.
    ExactMatch,
    /// The name begins with the search string.
    StartsWith,
}

/// The namespaces a path may be looked up in.
#[derive(Clone, Copy, Debug, PartialEq, Eq, Structural)]
pub enum Namespace {
    Type,
    Value,
    Both,
}

/// From where an item may be named.
#[derive(Clone, Copy, Debug, PartialEq, Eq, Structural)]
pub enum Visibility {
    /// `pub`
    Public,
    /// `pub(crate)`
    Crate,
    /// `pub(..)` with anything else between the parentheses
    Restricted,
    /// No modifier, or a binding inside a body.
    Local,
}

/// The kind of item a match stands for.
#[derive(Clone, Copy, Debug, PartialEq, Eq, Structural)]
pub enum MatchType {
    Let,
    Module,
    Function,
    Struct,
    Type,
    Trait,
    Enum,
    EnumVariant,
    Const,
    Static,
    IfLet,
    WhileLet,
    For,
    Macro,
}

/// A position given as a line and a column, both counted from zero.
#[derive(Clone, Copy, Debug, PartialEq, Eq, Structural)]
pub struct Coordinate {
    pub line: usize,
    pub column: usize,
}

impl Coordinate {
    /// The first position of a file.
    pub fn start() -> (c: Coordinate)
        ensures
            c.line == 0,
            c.column == 0,
    {
        Coordinate { line: 0, column: 0 }
    }
}

/// Whether a completion continues a field access or a path.
#[derive(Clone, Copy, Debug, PartialEq, Eq, Structural)]
pub enum CompletionType {
    Field,
    Path,
}

/// A symbol found in a source file.
#[derive(Clone, Debug, PartialEq, Eq)]
pub struct Match {
    /// The name under which the symbol is known at the place of the search.
    pub matchstr: Vec<u8>,
    /// The file that holds the symbol.
    pub filepath: Vec<u8>,
    /// Where in that file the name stands.
    pub point: BytePos,
    /// Set where the match is the start of another file.
    pub coords: Option<Coordinate>,
    pub visibility: Visibility,
    pub mtype: MatchType,
    /// One line of text to show beside the name.
    pub contextstr: Vec<u8>,
    /// The names of the generic parameters, in order.
    pub generic_args: Vec<Vec<u8>>,
    pub docs: Vec<u8>,
}

/// A match as plain values.
pub struct MatchView {
    pub matchstr: Seq<u8>,
    pub filepath: Seq<u8>,
    pub point: BytePos,
    pub coords: Option<Coordinate>,
    pub visibility: Visibility,
    pub mtype: MatchType,
    pub contextstr: Seq<u8>,
    pub generic_args: Seq<Seq<u8>>,
    pub docs: Seq<u8>,
}

impl View for Match {
    type V = MatchView;

    open spec fn view(&self) -> MatchView {
        MatchView {
            matchstr: self.matchstr@,
            filepath: self.filepath@,
            point: self.point,
            coords: self.coords,
            visibility: self.visibility,
            mtype: self.mtype,
            contextstr: self.contextstr@,
            generic_args: Seq::new(self.generic_args@.len(), |i: int| self.generic_args@[i]@),
            docs: self.docs@,
        }
    }
}

/// The views of a list of matches, in order.
pub open spec fn match_views(ms: Seq<Match>) -> Seq<MatchView> {
    Seq::new(ms.len(), |i: int| ms[i]@)
}

/// One segment of a path, such as `foo` in `foo::bar`.
#[derive(Clone, Debug, PartialEq, Eq)]
pub struct PathSegment {
    pub name: Vec<u8>,
}

/// A path as written in source: its segments, and whether it begins with `::`.
#[derive(Clone, Debug, PartialEq, Eq)]
pub struct Path {
    pub global: bool,
    pub segments: Vec<PathSegment>,
}

/// The segment names of a path, in order.
pub open spec fn segment_names(segments: Seq<PathSegment>) -> Seq<Seq<u8>> {
    Seq::new(segments.len(), |i: int| segments[i].name@)
}

impl View for Path {
    type V = (bool, Seq<Seq<u8>>);

    open spec fn view(&self) -> (bool, Seq<Seq<u8>>) {
        (self.global, segment_names(self.segments@))
    }
}

/// What one item of a `use` statement brings in.
#[derive(Clone, Debug, PartialEq, Eq)]
pub enum PathAliasKind {
    /// A path, under the name held here.
    Ident(Vec<u8>),
    /// `self` inside braces; the name held here is `self`, or the name it is renamed to.
    Self_(Vec<u8>),
    /// Everything under a path.
    Glob,
}

/// One item of a `use` statement: a path, and the name or names it brings in.
#[derive(Clone, Debug, PartialEq, Eq)]
pub struct PathAlias {
    pub kind: PathAliasKind,
    pub path: Path,
}

/// The name and the offset of one variant of an enum.
#[derive(Clone, Debug, PartialEq, Eq)]
pub struct EnumVariant {
    pub name: Vec<u8>,
    pub offset: BytePos,
}

/// The names of an `extern crate` statement.
#[derive(Clone, Debug, PartialEq, Eq)]
pub struct ExternCrate {
    /// The name under which the crate is known in the file.
    pub name: Option<Vec<u8>>,
    /// The name of the crate itself, where the statement renames it.
    pub realname: Option<Vec<u8>>,
}

} // verus!
