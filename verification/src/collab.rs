//! What the scanners and matchers ask of the code around them.
//!
//! Nothing is known of an answer but its type: every function that asks is proved
//! for whatever comes back.

use vstd::prelude::*;
use crate::matchers::ImportInfo;
use crate::pos::{BytePos, ByteRange};
use crate::source::Src;
use crate::symbols::{EnumVariant, ExternCrate, Match, Namespace, Path, PathAlias, SearchType};

verus! {

/// Splits source text into statements.
pub trait StatementIterator {
    /// The ranges of the statements of `src`, in order; offsets count from the start
    /// of the view.
    fn iter_stmts(&self, src: Src<'_>) -> Vec<ByteRange>;
}

/// Parses small pieces of source text.
pub trait AstParser {
    /// Whether `text`, the inside of a pair of parentheses, holds the parameter list of
    /// a closure.
    fn closure_valid_arg_scope(&self, text: &[u8]) -> bool;

    /// The name that a module declaration declares.
    fn parse_mod(&self, text: &[u8]) -> Option<Vec<u8>>;

    /// The ranges in `text` of the names that a binding statement binds.
    fn parse_pat_bind_stmt(&self, text: &[u8]) -> Vec<ByteRange>;

    /// The variants of an enum declaration, each with its offset in `text`.
    fn parse_enum(&self, text: &[u8]) -> Vec<EnumVariant>;

    /// The names of the generic parameters that an item's header declares.
    fn parse_generics(&self, header: &[u8], filepath: &[u8]) -> Vec<Vec<u8>>;

    /// The names of an `extern crate` statement.
    fn parse_extern_crate(&self, text: &[u8]) -> ExternCrate;

    /// The items of a `use` statement.
    fn parse_use(&self, text: &[u8]) -> Vec<PathAlias>;

    /// Whether the first parameter of a function declaration is `self`.
    fn first_param_is_self(&self, text: &[u8]) -> bool;
}

/// The files that a search can see.
pub trait Session {
    /// The text of a file.
    fn load_file(&self, path: &[u8]) -> Vec<u8>;

    /// Whether a file exists under `path`, on disk or in the session.
    fn contains_file(&self, path: &[u8]) -> bool;

    /// The directory that holds `path`.
    fn parent_dir(&self, path: &[u8]) -> Option<Vec<u8>>;

    /// The path of `name` inside the directory `dir`.
    fn join(&self, dir: &[u8], name: &[u8]) -> Vec<u8>;

    /// The directory that holds the sources of the standard library, where they are
    /// at hand.
    fn std_path(&self) -> Option<Vec<u8>>;
}

/// Knows the crates that a project depends on.
pub trait DependencyResolver {
    /// The root file of the crate `name`, if the project around the file `from_path`
    /// depends on it.
    fn dependency_file(&self, name: &[u8], from_path: &[u8]) -> Option<Vec<u8>>;
}

/// Resolves a path to the symbols it names.
pub trait PathResolver {
    /// The symbols that `path` names when it is written at `pos` in the file
    /// `filepath`. `import_info` holds the imports that are being resolved.
    fn resolve_path(
        &self,
        path: &Path,
        filepath: &[u8],
        pos: BytePos,
        search_type: SearchType,
        namespace: Namespace,
        import_info: &ImportInfo,
    ) -> Vec<Match>;
}

} // verus!
