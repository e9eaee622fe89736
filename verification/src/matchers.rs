//! Probes that hold one statement against a search and build the matches.

use vstd::prelude::*;
use vstd::slice::slice_to_vec;
use vstd::string::StringSliceAdditionalSpecFns;
use crate::collab::{
    AstParser, DependencyResolver, PathResolver, Session, StatementIterator,
};
use crate::fileres::{get_crate_file, get_module_file};
use crate::pos::{BytePos, ByteRange};
use crate::scopes::{get_local_module_path, get_module_file_from_path};
use crate::source::Src;
use crate::symbols::{
    match_views, Coordinate, EnumVariant, ExternCrate, Match, MatchType, MatchView, Namespace,
    Path, PathAlias, PathAliasKind, PathSegment, SearchType, Visibility,
};
use crate::text::{
    bytes_eq, concat, find, find_byte, find_ident_end, find_name_end, ident_end, is_ident_char, is_space,
    lemma_find_byte_from, lemma_find_from, lemma_skip_whitespace, name_end, skip_whitespace,
    skip_whitespace_from, spec_find, spec_find_byte, spec_is_space, spec_starts_with,
    spec_strip_visibility, spec_strip_word, spec_strip_words, spec_symbol_matches,
    spec_txt_matches, starts_with, strip_visibility, strip_word, strip_words, symbol_matches,
    trim_bangs, trim_end_in, trim_start, trim_start_in, trimmed, txt_matches, without_bangs,
    word_ends_at, word_views,
};

verus! {

/// The most wildcard imports that one resolution may pass through, one inside another.
pub const GLOB_LIMIT: usize = 3;

/// A `use` statement that is being resolved: the file that holds it, and its range.
#[derive(Clone, Debug, PartialEq, Eq)]
pub struct PendingImport {
    pub filepath: Vec<u8>,
    pub range: ByteRange,
}

/// A pending import as plain values.
pub open spec fn import_view(p: PendingImport) -> (Seq<u8>, ByteRange) {
    (p.filepath@, p.range)
}

/// What a resolution knows of the imports it is inside of.
pub struct ImportInfo {
    /// The imports that are being resolved, the outermost first.
    pub imports: Vec<PendingImport>,
    /// How many more wildcard imports may be entered; `None` until the first is.
    pub glob_limit: Option<usize>,
}

impl ImportInfo {
    /// The pending imports as plain values, the outermost first.
    pub open spec fn pending(&self) -> Seq<(Seq<u8>, ByteRange)> {
        Seq::new(self.imports@.len(), |i: int| import_view(self.imports@[i]))
    }

    /// Whether the import of `range` in `filepath` is being resolved.
    pub open spec fn spec_contains(&self, filepath: Seq<u8>, range: ByteRange) -> bool {
        self.pending().contains((filepath, range))
    }

    /// No import is pending, and no wildcard import has been entered.
    pub fn new() -> (r: ImportInfo)
        ensures
            r.pending() == Seq::<(Seq<u8>, ByteRange)>::empty(),
            r.glob_limit is None,
    {
        let r = ImportInfo { imports: Vec::new(), glob_limit: None };
        assert(r.pending() =~= Seq::<(Seq<u8>, ByteRange)>::empty());
        r
    }

    /// Says whether the import of `range` in `filepath` is being resolved.
    pub fn contains(&self, filepath: &[u8], range: ByteRange) -> (b: bool)
        ensures
            b == self.spec_contains(filepath@, range),
    {
        let mut i: usize = 0;
        while i < self.imports.len()
            invariant
                i <= self.imports@.len(),
                forall|k: int| 0 <= k < i ==> self.pending()[k] != (filepath@, range),
            decreases self.imports@.len() - i,
        {
            let p = &self.imports[i];
            if p.range == range && bytes_eq(p.filepath.as_slice(), filepath) {
                assert(self.pending()[i as int] == (filepath@, range));
                return true;
            }
            i += 1;
        }
        false
    }

    /// The same imports with one more pending, and the same wildcard budget. `self` is
    /// left as it is.
    pub fn push(&self, filepath: &[u8], range: ByteRange) -> (r: ImportInfo)
        ensures
            r.pending() == self.pending().push((filepath@, range)),
            r.glob_limit == self.glob_limit,
    {
        let mut imports: Vec<PendingImport> = Vec::new();
        let mut i: usize = 0;
        while i < self.imports.len()
            invariant
                i <= self.imports@.len(),
                imports@.len() == i,
                forall|k: int| 0 <= k < i ==> import_view(imports@[k]) == self.pending()[k],
            decreases self.imports@.len() - i,
        {
            let p = &self.imports[i];
            imports.push(
                PendingImport {
                    filepath: vstd::slice::slice_to_vec(p.filepath.as_slice()),
                    range: p.range,
                },
            );
            i += 1;
        }
        imports.push(PendingImport { filepath: vstd::slice::slice_to_vec(filepath), range });
        let r = ImportInfo { imports, glob_limit: self.glob_limit };
        assert(r.pending() =~= self.pending().push((filepath@, range)));
        r
    }
}

impl Default for ImportInfo {
    fn default() -> (r: ImportInfo)
        ensures
            r.pending() == Seq::<(Seq<u8>, ByteRange)>::empty(),
            r.glob_limit is None,
    {
        ImportInfo::new()
    }
}

/// What a probe is asked: the statement to look at, and the name searched for.
#[derive(Clone, Copy, Debug)]
pub struct MatchCxt<'s, 'p> {
    /// The file that holds the statement.
    pub filepath: &'p [u8],
    pub search_str: &'s [u8],
    /// The range of the statement in its file.
    pub range: ByteRange,
    pub search_type: SearchType,
    /// Whether the search began in the file that holds the statement.
    pub is_local: bool,
}

impl<'s, 'p> MatchCxt<'s, 'p> {
    /// The statement's text: the bytes of `src` in the statement's range.
    pub open spec fn blob(&self, src: Seq<u8>) -> Seq<u8> {
        src.subrange(self.range.start.0 as int, self.range.end.0 as int)
    }

    /// The offset in `src` of offset `at` of the statement.
    pub open spec fn point_at(&self, at: int) -> BytePos {
        BytePos((self.range.start.0 + at) as usize)
    }
}

/// The view of a match that may be there.
pub open spec fn option_view(m: Option<Match>) -> Option<MatchView> {
    match m {
        Some(m) => Some(m@),
        None => None,
    }
}

/// Whether an item of visibility `vis` may be named from `from_path`: every item may.
pub fn is_visible(vis: &Visibility, from_path: &Path) -> (r: bool)
    ensures
        r,
{
    true
}

/// Where the modifiers end that a statement begins with, and the visibility they
/// give it: a visibility modifier, if there is one, and then words of `ignore`.
pub open spec fn modifiers_end(src: Seq<u8>, ignore: Seq<Seq<u8>>) -> (int, Visibility) {
    let vis = match spec_strip_visibility(src) {
        Some(v) => v,
        None => (0int, Visibility::Local),
    };
    if ignore.len() > 0 && 0 <= vis.0 <= src.len() {
        (vis.0 + spec_strip_words(src.subrange(vis.0, src.len() as int), ignore, 0), vis.1)
    } else {
        vis
    }
}

/// Where the name begins that the statement `src` declares, and its visibility, if
/// `src` declares with `pattern` a name that answers the search: after the modifiers
/// comes `pattern`, then at least one whitespace byte, then the search string; for an
/// exact match the name ends where the search string ends.
pub open spec fn spec_find_keyword(
    src: Seq<u8>,
    pattern: Seq<u8>,
    search_str: Seq<u8>,
    ignore: Seq<Seq<u8>>,
    search_type: SearchType,
) -> Option<(int, Visibility)> {
    let m = modifiers_end(src, ignore);
    if !(0 <= m.0 <= src.len()) || !spec_starts_with(
        src.subrange(m.0, src.len() as int),
        pattern,
    ) {
        None
    } else {
        let after = m.0 + pattern.len();
        let name = skip_whitespace(src, after);
        if name == after || !spec_starts_with(src.subrange(name, src.len() as int), search_str) {
            None
        } else if search_type == SearchType::StartsWith || word_ends_at(
            src,
            name + search_str.len(),
        ) {
            Some((name, m.1))
        } else {
            None
        }
    }
}

/// Holds the statement `src` against the keyword `pattern` and the search.
pub fn find_keyword_impl(
    src: &[u8],
    pattern: &[u8],
    search_str: &[u8],
    ignore: &[&[u8]],
    search_type: SearchType,
) -> (r: Option<(BytePos, Visibility)>)
    ensures
        r is Some == spec_find_keyword(
            src@,
            pattern@,
            search_str@,
            word_views(ignore@),
            search_type,
        ) is Some,
        r is Some ==> {
            let found = spec_find_keyword(
                src@,
                pattern@,
                search_str@,
                word_views(ignore@),
                search_type,
            ).unwrap();
            r.unwrap().0.0 as int == found.0 && r.unwrap().1 == found.1
        },
        r is Some ==> pattern@.len() < r.unwrap().0.0 && r.unwrap().0.0 + search_str@.len()
            <= src@.len(),
{
    let n = src.len();
    let mut start: usize = 0;
    let mut vis = Visibility::Local;
    if let Some((offset, v)) = strip_visibility(src) {
        start = offset.0;
        vis = v;
    }
    if ignore.len() > 0 {
        let words = strip_words(&src[start..n], ignore);
        start = start + words.0;
    }
    if !starts_with(&src[start..n], pattern) {
        return None;
    }
    let after: usize = start + pattern.len();
    proof {
        lemma_skip_whitespace(src@, after as int);
    }
    let name = skip_whitespace_from(src, after);
    if name == after {
        return None;
    }
    if !starts_with(&src[name..n], search_str) {
        return None;
    }
    match search_type {
        SearchType::StartsWith => Some((BytePos(name), vis)),
        SearchType::ExactMatch => {
            if name + search_str.len() == n || !is_ident_char(src[name + search_str.len()]) {
                Some((BytePos(name), vis))
            } else {
                None
            }
        },
    }
}

/// Holds the statement `src` against the keyword `pattern` and the search of
/// `context`.
pub fn find_keyword(src: &[u8], pattern: &[u8], ignore: &[&[u8]], context: &MatchCxt) -> (r:
    Option<(BytePos, Visibility)>)
    ensures
        r is Some == spec_find_keyword(
            src@,
            pattern@,
            context.search_str@,
            word_views(ignore@),
            context.search_type,
        ) is Some,
        r is Some ==> {
            let found = spec_find_keyword(
                src@,
                pattern@,
                context.search_str@,
                word_views(ignore@),
                context.search_type,
            ).unwrap();
            r.unwrap().0.0 as int == found.0 && r.unwrap().1 == found.1
        },
        r is Some ==> pattern@.len() < r.unwrap().0.0 && r.unwrap().0.0
            + context.search_str@.len() <= src@.len(),
{
    find_keyword_impl(src, pattern, context.search_str, ignore, context.search_type)
}

/// The name that the statement `blob` declares with `keyword`, where it begins, and
/// its visibility, if the name answers the search: for an exact match the search
/// string itself, for a prefix match the whole identifier that begins with it.
pub open spec fn spec_key_ident(
    cxt: MatchCxt,
    blob: Seq<u8>,
    keyword: Seq<u8>,
    ignore: Seq<Seq<u8>>,
) -> Option<(int, Seq<u8>, Visibility)> {
    match spec_find_keyword(blob, keyword, cxt.search_str@, ignore, cxt.search_type) {
        Some(found) => Some(
            (
                found.0,
                match cxt.search_type {
                    SearchType::ExactMatch => cxt.search_str@,
                    SearchType::StartsWith => blob.subrange(
                        found.0,
                        ident_end(blob, found.0 + cxt.search_str@.len()),
                    ),
                },
                found.1,
            ),
        ),
        None => None,
    }
}

impl<'s, 'p> MatchCxt<'s, 'p> {
    /// The name that `blob` declares with `keyword`, if it answers the search.
    pub fn get_key_ident(&self, blob: &[u8], keyword: &[u8], ignore: &[&[u8]]) -> (r: Option<
        (BytePos, Vec<u8>, Visibility),
    >)
        ensures
            r is Some == spec_key_ident(*self, blob@, keyword@, word_views(ignore@)) is Some,
            r is Some ==> {
                let found = spec_key_ident(*self, blob@, keyword@, word_views(ignore@)).unwrap();
                r.unwrap().0.0 as int == found.0 && r.unwrap().1@ == found.1 && r.unwrap().2
                    == found.2
            },
            r is Some ==> r.unwrap().0.0 <= blob@.len(),
    {
        let n = blob.len();
        match find_keyword(blob, keyword, ignore, self) {
            None => None,
            Some((start, vis)) => {
                let s = match self.search_type {
                    SearchType::ExactMatch => slice_to_vec(self.search_str),
                    SearchType::StartsWith => {
                        let end = find_ident_end(
                            blob,
                            BytePos(start.0 + self.search_str.len()),
                        );
                        slice_to_vec(&blob[start.0..end.0])
                    },
                };
                Some((start, s, vis))
            },
        }
    }
}

/// Whether the statement in `blob_range` declares a `const fn`: it begins with
/// `const`, and `fn` or `unsafe` follows.
pub open spec fn spec_is_const_fn(src: Seq<u8>, blob_range: ByteRange) -> bool {
    match spec_strip_word(
        src.subrange(blob_range.start.0 as int, blob_range.end.0 as int),
        "const".spec_bytes(),
    ) {
        Some(b) => {
            let at = trim_start(src, blob_range.start.0 + b, src.len() as int);
            spec_starts_with(src.subrange(at, src.len() as int), "fn".spec_bytes())
                || spec_starts_with(src.subrange(at, src.len() as int), "unsafe".spec_bytes())
        },
        None => false,
    }
}

/// Tells a `const fn` from a constant.
pub fn is_const_fn(src: &[u8], blob_range: ByteRange) -> (r: bool)
    requires
        blob_range.fits(src@.len() as int),
    ensures
        r == spec_is_const_fn(src@, blob_range),
{
    let n = src.len();
    match strip_word(&src[blob_range.start.0..blob_range.end.0], "const".as_bytes()) {
        Some(b) => {
            let at = trim_start_in(src, blob_range.start.0 + b.0, n);
            starts_with(&src[at..n], "fn".as_bytes()) || starts_with(
                &src[at..n],
                "unsafe".as_bytes(),
            )
        },
        None => false,
    }
}

/// The text up to its first line feed.
pub open spec fn spec_first_line(blob: Seq<u8>) -> Seq<u8> {
    match spec_find_byte(blob, 0x0a) {
        Some(k) => blob.subrange(0, k),
        None => blob,
    }
}

/// Copies the first line of a statement.
pub fn first_line(blob: &[u8]) -> (r: Vec<u8>)
    ensures
        r@ == spec_first_line(blob@),
{
    let n = blob.len();
    proof {
        lemma_find_byte_from(blob@, 0x0a, 0);
    }
    match find_byte(blob, 0x0a) {
        Some(k) => slice_to_vec(&blob[0..k]),
        None => slice_to_vec(blob),
    }
}

/// The first `to` bytes of `s` with every run of ASCII whitespace between two words
/// made one space, and the whitespace at both ends dropped.
pub open spec fn squeezed(s: Seq<u8>, to: int) -> Seq<u8>
    decreases to,
{
    if to <= 0 || to > s.len() {
        Seq::empty()
    } else {
        let rest = squeezed(s, to - 1);
        let b = s[to - 1];
        if spec_is_space(b) {
            rest
        } else if rest.len() > 0 && to >= 2 && spec_is_space(s[to - 2]) {
            rest.push(0x20).push(b)
        } else {
            rest.push(b)
        }
    }
}

/// The text before the first `context_end`, or all of it where there is none, as one
/// line: its words with one space between each two.
pub open spec fn spec_get_context(blob: Seq<u8>, context_end: Seq<u8>) -> Seq<u8> {
    match spec_find(blob, context_end) {
        Some(k) => squeezed(blob, k),
        None => squeezed(blob, blob.len() as int),
    }
}

/// The context of a match as one line.
pub fn get_context(blob: &[u8], context_end: &[u8]) -> (r: Vec<u8>)
    ensures
        r@ == spec_get_context(blob@, context_end@),
{
    proof {
        lemma_find_from(blob@, context_end@, 0);
    }
    let to: usize = match find(blob, context_end) {
        Some(k) => k,
        None => blob.len(),
    };
    let mut out: Vec<u8> = Vec::new();
    let mut i: usize = 0;
    while i < to
        invariant
            i <= to <= blob.len(),
            out@ == squeezed(blob@, i as int),
        decreases to - i,
    {
        let b = blob[i];
        if !is_space(b) {
            if out.len() > 0 && i >= 1 && is_space(blob[i - 1]) {
                out.push(0x20);
            }
            out.push(b);
        }
        i += 1;
    }
    out
}

/// Where a list of generic parameters closes: the offset of the `>` that closes the
/// first `<`, unless a `{`, a `(` or a `;` comes before it. The scan has the bytes
/// from `i` on to read and is `level` deep in angle brackets.
pub open spec fn generics_end_from(s: Seq<u8>, i: int, level: int) -> Option<int>
    decreases s.len() - i,
{
    if i < 0 || i >= s.len() {
        None
    } else if s[i] == 0x7b || s[i] == 0x28 || s[i] == 0x3b {
        None
    } else if s[i] == 0x3c {
        generics_end_from(s, i + 1, level + 1)
    } else if s[i] == 0x3e {
        if level == 1 {
            Some(i)
        } else {
            generics_end_from(s, i + 1, level - 1)
        }
    } else {
        generics_end_from(s, i + 1, level)
    }
}

/// A closing `>` that is found lies in the text, at or after the start of the scan.
proof fn lemma_generics_end_from(s: Seq<u8>, i: int, level: int)
    requires
        0 <= i,
    ensures
        generics_end_from(s, i, level) is Some ==> i <= generics_end_from(s, i, level).unwrap()
            < s.len(),
    decreases s.len() - i,
{
    if i < s.len() && !(s[i] == 0x7b || s[i] == 0x28 || s[i] == 0x3b) {
        if s[i] == 0x3c {
            lemma_generics_end_from(s, i + 1, level + 1);
        } else if s[i] == 0x3e {
            if level != 1 {
                lemma_generics_end_from(s, i + 1, level - 1);
            }
        } else {
            lemma_generics_end_from(s, i + 1, level);
        }
    }
}

/// Finds the `>` that closes the generic parameters of an item's header.
pub fn find_generics_end(blob: &[u8]) -> (r: Option<BytePos>)
    ensures
        r is Some == generics_end_from(blob@, 0, 0) is Some,
        r is Some ==> r.unwrap().0 as int == generics_end_from(blob@, 0, 0).unwrap(),
        r is Some ==> r.unwrap().0 < blob@.len(),
{
    let mut level: i128 = 0;
    let mut i: usize = 0;
    proof {
        lemma_generics_end_from(blob@, 0, 0);
    }
    while i < blob.len()
        invariant
            i <= blob.len(),
            -(i as int) <= level <= i,
            generics_end_from(blob@, 0, 0) == generics_end_from(blob@, i as int, level as int),
        decreases blob.len() - i,
    {
        let b = blob[i];
        if b == 0x7b || b == 0x28 || b == 0x3b {
            return None;
        } else if b == 0x3c {
            level += 1;
        } else if b == 0x3e {
            level -= 1;
            if level == 0 {
                return Some(BytePos(i));
            }
        }
        i += 1;
    }
    None
}

/// Where the line begins that holds offset `end` or ends there: behind the last line
/// feed before `end`, or at zero.
pub open spec fn line_begin(s: Seq<u8>, end: int) -> int
    decreases end,
{
    if end <= 0 || end > s.len() {
        0
    } else if s[end - 1] == 0x0a {
        end
    } else {
        line_begin(s, end - 1)
    }
}

/// A line begins at or before the offset it holds, and behind a line feed unless it
/// is the first.
proof fn lemma_line_begin(s: Seq<u8>, end: int)
    requires
        end <= s.len(),
    ensures
        0 <= line_begin(s, end),
        end >= 0 ==> line_begin(s, end) <= end,
        line_begin(s, end) > 0 ==> s[line_begin(s, end) - 1] == 0x0a,
    decreases end,
{
    if end > 0 && s[end - 1] != 0x0a {
        lemma_line_begin(s, end - 1);
    }
}

fn find_line_begin(s: &[u8], end: usize) -> (r: usize)
    requires
        end <= s@.len(),
    ensures
        r as int == line_begin(s@, end as int),
        r <= end,
{
    let mut i: usize = end;
    while i > 0 && s[i - 1] != 0x0a
        invariant
            i <= end <= s.len(),
            line_begin(s@, end as int) == line_begin(s@, i as int),
        decreases i,
    {
        i -= 1;
    }
    i
}

/// Where the line ends that begins at `from`: at the next line feed, or at the end of
/// the text.
pub open spec fn line_finish(s: Seq<u8>, from: int) -> int
    decreases s.len() - from,
{
    if from < 0 || from >= s.len() {
        s.len() as int
    } else if s[from] == 0x0a {
        from
    } else {
        line_finish(s, from + 1)
    }
}

/// A line ends in the text, at or after its start.
pub proof fn lemma_line_finish(s: Seq<u8>, from: int)
    requires
        0 <= from <= s.len(),
    ensures
        from <= line_finish(s, from) <= s.len(),
    decreases s.len() - from,
{
    if from < s.len() && s[from] != 0x0a {
        lemma_line_finish(s, from + 1);
    }
}

fn find_line_finish(s: &[u8], from: usize) -> (r: usize)
    requires
        from <= s@.len(),
    ensures
        r as int == line_finish(s@, from as int),
        from <= r <= s@.len(),
{
    let mut i: usize = from;
    while i < s.len() && s[i] != 0x0a
        invariant
            from <= i <= s.len(),
            line_finish(s@, from as int) == line_finish(s@, i as int),
        decreases s.len() - i,
    {
        i += 1;
    }
    i
}

/// A documentation line without its marker: what follows its first four bytes.
pub open spec fn strip_marker(line: Seq<u8>) -> Seq<u8> {
    if line.len() >= 4 {
        line.subrange(4, line.len() as int)
    } else {
        Seq::empty()
    }
}

/// The lines joined, with a line feed between each two.
pub open spec fn join_lines(lines: Seq<Seq<u8>>) -> Seq<u8>
    decreases lines.len(),
{
    if lines.len() == 0 {
        Seq::empty()
    } else if lines.len() == 1 {
        lines[0]
    } else {
        join_lines(lines.drop_last()) + seq![0x0au8] + lines.last()
    }
}

/// The documentation lines that stand above a line, the nearest first and each
/// without its marker. `end` is the offset of the line feed that ends the first line
/// to look at, or negative where there is none. Lines are read upward as long as
/// each, without the whitespace at its ends, begins with `///` or with `#[` or is
/// empty; the lines that begin with `///` are kept.
pub open spec fn doc_lines_above(s: Seq<u8>, end: int) -> Seq<Seq<u8>>
    decreases end + 1,
{
    if end < 0 || end > s.len() {
        Seq::empty()
    } else {
        let b = line_begin(s, end);
        let line = trimmed(s, b, end);
        let above = if 0 <= b <= end {
            doc_lines_above(s, b - 1)
        } else {
            Seq::empty()
        };
        if spec_starts_with(line, "///".spec_bytes()) {
            seq![strip_marker(line)] + above
        } else if spec_starts_with(line, "#[".spec_bytes()) || line.len() == 0 {
            above
        } else {
            Seq::empty()
        }
    }
}

/// The offset of the line feed that ends the line above the line of `point`;
/// negative where `point` stands in the first line. A `point` just behind a line
/// feed counts as standing in the line that the line feed ends.
pub open spec fn line_above(s: Seq<u8>, point: int) -> int {
    if point <= 0 || point > s.len() {
        -1
    } else if s[point - 1] == 0x0a {
        line_begin(s, point - 1) - 1
    } else {
        line_begin(s, point) - 1
    }
}

/// The documentation of the item at `point`: the `///` lines above its line, in the
/// order of the text, each without its first four bytes, joined by line feeds.
/// Attribute lines and empty lines between them are passed over.
pub open spec fn spec_find_doc(s: Seq<u8>, point: int) -> Seq<u8> {
    join_lines(doc_lines_above(s, line_above(s, point)).reverse())
}

/// The texts of `ranges` in `s`.
pub open spec fn range_texts(s: Seq<u8>, ranges: Seq<ByteRange>) -> Seq<Seq<u8>> {
    Seq::new(ranges.len(), |i: int| s.subrange(ranges[i].start.0 as int, ranges[i].end.0 as int))
}

/// The range of a trimmed line without its marker.
fn strip_marker_range(start: usize, end: usize) -> (r: ByteRange)
    requires
        start <= end,
    ensures
        r.start.0 <= r.end.0 == end,
        r.start.0 as int == if end - start >= 4 { start + 4 } else { end as int },
{
    if end - start >= 4 {
        ByteRange { start: BytePos(start + 4), end: BytePos(end) }
    } else {
        ByteRange { start: BytePos(end), end: BytePos(end) }
    }
}

/// Joins the texts of `ranges` in `s`, the last range first.
fn join_ranges_rev(s: &[u8], ranges: &Vec<ByteRange>) -> (r: Vec<u8>)
    requires
        forall|k: int| 0 <= k < ranges@.len() ==> (#[trigger] ranges@[k]).fits(s@.len() as int),
    ensures
        r@ == join_lines(range_texts(s@, ranges@).reverse()),
{
    let n = ranges.len();
    let ghost lines = range_texts(s@, ranges@).reverse();
    let mut out: Vec<u8> = Vec::new();
    let mut j: usize = 0;
    while j < n
        invariant
            j <= n,
            n == ranges@.len(),
            lines == range_texts(s@, ranges@).reverse(),
            lines.len() == n,
            forall|k: int| 0 <= k < ranges@.len() ==> (#[trigger] ranges@[k]).fits(s@.len() as int),
            out@ == join_lines(lines.take(j as int)),
        decreases n - j,
    {
        let range = ranges[n - 1 - j];
        if j > 0 {
            out.push(0x0a);
        }
        let mut p: usize = range.start.0;
        let ghost before = out@;
        while p < range.end.0
            invariant
                range.start.0 <= p <= range.end.0 <= s.len(),
                out@ == before + s@.subrange(range.start.0 as int, p as int),
            decreases range.end.0 - p,
        {
            out.push(s[p]);
            p += 1;
            assert(s@.subrange(range.start.0 as int, p as int) =~= s@.subrange(
                range.start.0 as int,
                p - 1,
            ).push(s@[p - 1]));
        }
        proof {
            let next = lines.take(j + 1);
            assert(next.drop_last() =~= lines.take(j as int));
            assert(next.last() == lines[j as int]);
            assert(lines[j as int] == s@.subrange(range.start.0 as int, range.end.0 as int));
            if j == 0 {
                assert(before =~= Seq::<u8>::empty());
                assert(out@ =~= next[0]);
            } else {
                assert(out@ =~= join_lines(lines.take(j as int)) + seq![0x0au8] + next.last());
            }
        }
        j += 1;
    }
    proof {
        assert(lines.take(n as int) =~= lines);
    }
    out
}

/// The documentation comment that stands above the item at `match_point`.
pub fn find_doc(msrc: &[u8], match_point: BytePos) -> (r: Vec<u8>)
    requires
        match_point.0 <= msrc@.len(),
    ensures
        r@ == spec_find_doc(msrc@, match_point.0 as int),
{
    let mut ranges: Vec<ByteRange> = Vec::new();
    let point = match_point.0;
    if point == 0 {
        proof {
            assert(range_texts(msrc@, ranges@).reverse() =~= Seq::<Seq<u8>>::empty());
            assert(doc_lines_above(msrc@, -1).reverse() =~= Seq::<Seq<u8>>::empty());
        }
        return join_ranges_rev(msrc, &ranges);
    }
    let own_begin = if msrc[point - 1] == 0x0a {
        find_line_begin(msrc, point - 1)
    } else {
        find_line_begin(msrc, point)
    };
    let mut more = own_begin > 0;
    let mut end: usize = if more { own_begin - 1 } else { 0 };
    while more
        invariant
            end <= msrc.len(),
            point == match_point.0,
            forall|k: int|
                0 <= k < ranges@.len() ==> (#[trigger] ranges@[k]).fits(msrc@.len() as int),
            doc_lines_above(msrc@, line_above(msrc@, point as int)) == range_texts(
                msrc@,
                ranges@,
            ) + doc_lines_above(msrc@, if more { end as int } else { -1 }),
        decreases (if more { end + 1 } else { 0 }),
    {
        proof {
            lemma_line_begin(msrc@, end as int);
        }
        let b = find_line_begin(msrc, end);
        let ts = trim_start_in(msrc, b, end);
        let te = trim_end_in(msrc, ts, end);
        let line = &msrc[ts..te];
        let ghost old_ranges = ranges@;
        let ghost above = doc_lines_above(msrc@, b - 1);
        if starts_with(line, "///".as_bytes()) {
            let kept = strip_marker_range(ts, te);
            ranges.push(kept);
            proof {
                assert(msrc@.subrange(kept.start.0 as int, kept.end.0 as int) =~= strip_marker(
                    line@,
                ));
                assert(range_texts(msrc@, ranges@) =~= range_texts(msrc@, old_ranges).push(
                    strip_marker(line@),
                ));
                assert(range_texts(msrc@, old_ranges) + (seq![strip_marker(line@)] + above)
                    =~= range_texts(msrc@, ranges@) + above);
            }
        } else if starts_with(line, "#[".as_bytes()) || line.len() == 0 {
        } else {
            proof {
                assert(range_texts(msrc@, ranges@) + Seq::<Seq<u8>>::empty() =~= range_texts(
                    msrc@,
                    ranges@,
                ));
            }
            return join_ranges_rev(msrc, &ranges);
        }
        if b == 0 {
            more = false;
        } else {
            end = b - 1;
        }
    }
    proof {
        assert(range_texts(msrc@, ranges@) + Seq::<Seq<u8>>::empty() =~= range_texts(
            msrc@,
            ranges@,
        ));
    }
    join_ranges_rev(msrc, &ranges)
}

/// The inner documentation lines that a text holds from `from` on, each without its
/// marker. Lines are read as long as each, without the whitespace at its ends,
/// begins with `//` or is empty; the lines that begin with `//!` are kept.
pub open spec fn mod_doc_lines(s: Seq<u8>, from: int) -> Seq<Seq<u8>>
    decreases s.len() - from,
{
    if from < 0 || from >= s.len() {
        Seq::empty()
    } else {
        let e = line_finish(s, from);
        let line = trimmed(s, from, e);
        let below = if from <= e < s.len() {
            mod_doc_lines(s, e + 1)
        } else {
            Seq::empty()
        };
        if spec_starts_with(line, "//!".spec_bytes()) {
            seq![strip_marker(line)] + below
        } else if spec_starts_with(line, "//".spec_bytes()) || line.len() == 0 {
            below
        } else {
            Seq::empty()
        }
    }
}

/// The documentation of the module that begins at `start`: its leading `//!` lines,
/// each without its first four bytes, joined by line feeds. Other comment lines and
/// empty lines before and between them are passed over.
pub open spec fn spec_find_mod_doc(s: Seq<u8>, start: int) -> Seq<u8> {
    join_lines(mod_doc_lines(s, start))
}

/// The documentation comment that a module's text begins with.
pub fn find_mod_doc(msrc: &[u8], blobstart: BytePos) -> (r: Vec<u8>)
    requires
        blobstart.0 <= msrc@.len(),
    ensures
        r@ == spec_find_mod_doc(msrc@, blobstart.0 as int),
{
    let n = msrc.len();
    let mut doc: Vec<u8> = Vec::new();
    let ghost mut lines: Seq<Seq<u8>> = Seq::empty();
    let mut any = false;
    let mut from: usize = blobstart.0;
    while from < n
        invariant
            from <= n,
            n == msrc@.len(),
            doc@ == join_lines(lines),
            any == (lines.len() > 0),
            mod_doc_lines(msrc@, blobstart.0 as int) == lines + mod_doc_lines(msrc@, from as int),
        decreases n - from,
    {
        let e = find_line_finish(msrc, from);
        let ts = trim_start_in(msrc, from, e);
        let te = trim_end_in(msrc, ts, e);
        let line = &msrc[ts..te];
        let next: usize = if e < n { e + 1 } else { n };
        let ghost below = mod_doc_lines(msrc@, next as int);
        if starts_with(line, "//!".as_bytes()) {
            let kept = strip_marker_range(ts, te);
            let ghost text = strip_marker(line@);
            if any {
                doc.push(0x0a);
            }
            any = true;
            let ghost before = doc@;
            let mut p: usize = kept.start.0;
            while p < kept.end.0
                invariant
                    kept.start.0 <= p <= kept.end.0 <= msrc.len(),
                    doc@ == before + msrc@.subrange(kept.start.0 as int, p as int),
                decreases kept.end.0 - p,
            {
                doc.push(msrc[p]);
                p += 1;
                assert(msrc@.subrange(kept.start.0 as int, p as int) =~= msrc@.subrange(
                    kept.start.0 as int,
                    p - 1,
                ).push(msrc@[p - 1]));
            }
            proof {
                assert(msrc@.subrange(kept.start.0 as int, kept.end.0 as int) =~= text);
                let grown = lines.push(text);
                assert(grown.drop_last() =~= lines);
                assert(lines + (seq![text] + below) =~= grown + below);
                lines = grown;
            }
        } else if starts_with(line, "//".as_bytes()) || line.len() == 0 {
        } else {
            proof {
                assert(lines + Seq::<Seq<u8>>::empty() =~= lines);
            }
            return doc;
        }
        from = next;
    }
    proof {
        assert(lines + Seq::<Seq<u8>>::empty() =~= lines);
    }
    doc
}

/// The names of a list of generic parameters.
pub open spec fn name_views(names: Seq<Vec<u8>>) -> Seq<Seq<u8>> {
    Seq::new(names.len(), |i: int| names[i]@)
}

/// The match for a constant or a static that the statement of `cxt` declares with
/// `pattern`, if its name answers the search: the name runs up to the first `:` or
/// whitespace, and a `:` follows it.
pub open spec fn spec_match_pattern_start(
    src: Seq<u8>,
    cxt: MatchCxt,
    pattern: Seq<u8>,
    ignore: Seq<Seq<u8>>,
    mtype: MatchType,
) -> Option<MatchView> {
    let blob = cxt.blob(src);
    match spec_find_keyword(blob, pattern, cxt.search_str@, ignore, cxt.search_type) {
        None => None,
        Some(found) => match name_end(blob, found.0) {
            None => None,
            Some(end) => {
                let colon = trim_start(blob, end, blob.len() as int);
                if colon < blob.len() && blob[colon] == 0x3a {
                    Some(
                        MatchView {
                            matchstr: blob.subrange(found.0, end),
                            filepath: cxt.filepath@,
                            point: cxt.point_at(found.0),
                            coords: None,
                            visibility: found.1,
                            mtype,
                            contextstr: spec_first_line(blob),
                            generic_args: Seq::empty(),
                            docs: Seq::empty(),
                        },
                    )
                } else {
                    None
                }
            },
        },
    }
}

/// Holds a statement against a declaration of a constant or a static.
pub fn match_pattern_start(
    src: &[u8],
    context: &MatchCxt,
    pattern: &[u8],
    ignore: &[&[u8]],
    mtype: MatchType,
) -> (r: Option<Match>)
    requires
        context.range.fits(src@.len() as int),
    ensures
        option_view(r) == spec_match_pattern_start(
            src@,
            *context,
            pattern@,
            word_views(ignore@),
            mtype,
        ),
{
    let blob = &src[context.range.start.0..context.range.end.0];
    let n = blob.len();
    if let Some((start, vis)) = find_keyword(blob, pattern, ignore, context) {
        if let Some(end) = find_name_end(blob, start.0) {
            let colon = trim_start_in(blob, end, n);
            if colon < n && blob[colon] == 0x3a {
                let m = Match {
                    matchstr: slice_to_vec(&blob[start.0..end]),
                    filepath: slice_to_vec(context.filepath),
                    point: BytePos(context.range.start.0 + start.0),
                    coords: None,
                    visibility: vis,
                    mtype,
                    contextstr: first_line(blob),
                    generic_args: Vec::new(),
                    docs: Vec::new(),
                };
                proof {
                    assert(m@.generic_args =~= Seq::<Seq<u8>>::empty());
                    assert(m@.docs =~= Seq::<u8>::empty());
                }
                return Some(m);
            }
        }
    }
    None
}

/// The match for the constant that the statement of `cxt` declares. A `const fn` is
/// no constant.
pub open spec fn spec_match_const(msrc: Seq<u8>, cxt: MatchCxt) -> Option<MatchView> {
    if spec_is_const_fn(msrc, cxt.range) {
        None
    } else {
        spec_match_pattern_start(
            msrc,
            cxt,
            "const".spec_bytes(),
            Seq::empty(),
            MatchType::Const,
        )
    }
}

/// Holds a statement against the declaration of a constant.
pub fn match_const(msrc: &[u8], context: &MatchCxt) -> (r: Option<Match>)
    requires
        context.range.fits(msrc@.len() as int),
    ensures
        option_view(r) == spec_match_const(msrc@, *context),
{
    if is_const_fn(msrc, context.range) {
        return None;
    }
    let ignore: [&[u8]; 0] = [];
    proof {
        assert(word_views(ignore@) =~= Seq::<Seq<u8>>::empty());
    }
    match_pattern_start(msrc, context, "const".as_bytes(), ignore.as_slice(), MatchType::Const)
}

/// The match for the static that the statement of `cxt` declares.
pub open spec fn spec_match_static(msrc: Seq<u8>, cxt: MatchCxt) -> Option<MatchView> {
    spec_match_pattern_start(msrc, cxt, "static".spec_bytes(), Seq::empty(), MatchType::Static)
}

/// Holds a statement against the declaration of a static.
pub fn match_static(msrc: &[u8], context: &MatchCxt) -> (r: Option<Match>)
    requires
        context.range.fits(msrc@.len() as int),
    ensures
        option_view(r) == spec_match_static(msrc@, *context),
{
    let ignore: [&[u8]; 0] = [];
    proof {
        assert(word_views(ignore@) =~= Seq::<Seq<u8>>::empty());
    }
    match_pattern_start(msrc, context, "static".as_bytes(), ignore.as_slice(), MatchType::Static)
}

/// The match for the item that the statement of `cxt` declares with `keyword`, if its
/// name answers the search. The match points at the name, and its documentation is
/// the comment above the line of `doc_point`.
pub open spec fn keyword_match(
    msrc: Seq<u8>,
    cxt: MatchCxt,
    keyword: Seq<u8>,
    ignore: Seq<Seq<u8>>,
    mtype: MatchType,
    contextstr: Seq<u8>,
    generics: Seq<Seq<u8>>,
) -> Option<MatchView> {
    match spec_key_ident(cxt, cxt.blob(msrc), keyword, ignore) {
        Some(found) => Some(
            MatchView {
                matchstr: found.1,
                filepath: cxt.filepath@,
                point: cxt.point_at(found.0),
                coords: None,
                visibility: found.2,
                mtype,
                contextstr,
                generic_args: generics,
                docs: spec_find_doc(msrc, cxt.range.start.0 + found.0),
            },
        ),
        None => None,
    }
}

/// Which line of text a match shows beside the name.
#[derive(Clone, Copy, Debug, PartialEq, Eq, Structural)]
pub enum ContextLine {
    /// The first line of the statement.
    FirstLine,
    /// The statement up to its first `{`, as one line.
    Header,
}

/// The line of text that a match for the statement `blob` shows.
pub open spec fn context_line(blob: Seq<u8>, kind: ContextLine) -> Seq<u8> {
    match kind {
        ContextLine::FirstLine => spec_first_line(blob),
        ContextLine::Header => spec_get_context(blob, seq![0x7bu8]),
    }
}

fn make_context_line(blob: &[u8], kind: ContextLine) -> (r: Vec<u8>)
    ensures
        r@ == context_line(blob@, kind),
{
    match kind {
        ContextLine::FirstLine => first_line(blob),
        ContextLine::Header => {
            let brace: [u8; 1] = [0x7b];
            assert(brace@ =~= seq![0x7bu8]);
            get_context(blob, brace.as_slice())
        },
    }
}

/// Builds the match for an item declared with `keyword`, with the generic parameters
/// `generics`.
pub fn match_keyword(
    msrc: &[u8],
    context: &MatchCxt,
    keyword: &[u8],
    ignore: &[&[u8]],
    mtype: MatchType,
    kind: ContextLine,
    generics: Vec<Vec<u8>>,
) -> (r: Option<Match>)
    requires
        context.range.fits(msrc@.len() as int),
    ensures
        option_view(r) == keyword_match(
            msrc@,
            *context,
            keyword@,
            word_views(ignore@),
            mtype,
            context_line(context.blob(msrc@), kind),
            name_views(generics@),
        ),
{
    let blob = &msrc[context.range.start.0..context.range.end.0];
    match context.get_key_ident(blob, keyword, ignore) {
        None => None,
        Some((start, s, vis)) => {
            let point = BytePos(context.range.start.0 + start.0);
            let m = Match {
                matchstr: s,
                filepath: slice_to_vec(context.filepath),
                point,
                coords: None,
                visibility: vis,
                mtype,
                contextstr: make_context_line(blob, kind),
                generic_args: generics,
                docs: find_doc(msrc, point),
            };
            proof {
                assert(m@.generic_args =~= name_views(generics@));
            }
            Some(m)
        },
    }
}

/// The header that stands for an item with generic parameters when their names are
/// asked for: `keyword`, a space, the item's name with its parameters up to the
/// closing `>`, and `tail`. There is none where the statement declares no such item
/// or the item has no parameters.
pub open spec fn generics_header(
    msrc: Seq<u8>,
    cxt: MatchCxt,
    keyword: Seq<u8>,
    tail: Seq<u8>,
) -> Option<Seq<u8>> {
    let blob = cxt.blob(msrc);
    match spec_key_ident(cxt, blob, keyword, Seq::empty()) {
        Some(found) => match generics_end_from(blob.subrange(found.0, blob.len() as int), 0, 0) {
            Some(end) => Some(
                keyword + seq![0x20u8] + blob.subrange(found.0, found.0 + end + 1) + tail,
            ),
            None => None,
        },
        None => None,
    }
}

/// Writes the header to parse for the names of an item's generic parameters.
pub fn make_generics_header(msrc: &[u8], context: &MatchCxt, keyword: &[u8], tail: &[u8]) -> (r:
    Option<Vec<u8>>)
    requires
        context.range.fits(msrc@.len() as int),
    ensures
        r is Some == generics_header(msrc@, *context, keyword@, tail@) is Some,
        r is Some ==> r.unwrap()@ == generics_header(msrc@, *context, keyword@, tail@).unwrap(),
{
    let blob = &msrc[context.range.start.0..context.range.end.0];
    let n = blob.len();
    let ignore: [&[u8]; 0] = [];
    proof {
        assert(word_views(ignore@) =~= Seq::<Seq<u8>>::empty());
    }
    match find_keyword(blob, keyword, ignore.as_slice(), context) {
        None => None,
        Some((start, _)) => {
            match find_generics_end(&blob[start.0..n]) {
                None => None,
                Some(end) => {
                    let mut header = slice_to_vec(keyword);
                    header.push(0x20);
                    let mut rest = slice_to_vec(&blob[start.0..start.0 + end.0 + 1]);
                    header.append(&mut rest);
                    let mut tail_vec = slice_to_vec(tail);
                    header.append(&mut tail_vec);
                    Some(header)
                },
            }
        },
    }
}

/// Holds a statement against the declaration of an item that may have generic
/// parameters, and asks the parser for their names.
fn match_generic_item<P: AstParser>(
    msrc: &[u8],
    context: &MatchCxt,
    keyword: &[u8],
    tail: &[u8],
    mtype: MatchType,
    kind: ContextLine,
    parser: &P,
) -> (r: Option<Match>)
    requires
        context.range.fits(msrc@.len() as int),
    ensures
        r is Some ==> option_view(r) == keyword_match(
            msrc@,
            *context,
            keyword@,
            Seq::empty(),
            mtype,
            context_line(context.blob(msrc@), kind),
            r.unwrap()@.generic_args,
        ),
        r is None ==> spec_key_ident(*context, context.blob(msrc@), keyword@, Seq::empty())
            is None,
        r is Some && generics_header(msrc@, *context, keyword@, tail@) is None
            ==> r.unwrap()@.generic_args.len() == 0,
{
    let generics = match make_generics_header(msrc, context, keyword, tail) {
        Some(header) => parser.parse_generics(header.as_slice(), context.filepath),
        None => Vec::new(),
    };
    let ignore: [&[u8]; 0] = [];
    proof {
        assert(word_views(ignore@) =~= Seq::<Seq<u8>>::empty());
    }
    match_keyword(msrc, context, keyword, ignore.as_slice(), mtype, kind, generics)
}

/// The match for the struct that the statement of `context` declares. The names of
/// its generic parameters are what the parser makes of its header.
pub fn match_struct<P: AstParser>(msrc: &[u8], context: &MatchCxt, parser: &P) -> (r: Option<
    Match,
>)
    requires
        context.range.fits(msrc@.len() as int),
    ensures
        r is Some ==> option_view(r) == keyword_match(
            msrc@,
            *context,
            "struct".spec_bytes(),
            Seq::empty(),
            MatchType::Struct,
            context_line(context.blob(msrc@), ContextLine::Header),
            r.unwrap()@.generic_args,
        ),
        r is None ==> spec_key_ident(
            *context,
            context.blob(msrc@),
            "struct".spec_bytes(),
            Seq::empty(),
        ) is None,
        r is Some && generics_header(msrc@, *context, "struct".spec_bytes(), "();".spec_bytes())
            is None ==> r.unwrap()@.generic_args.len() == 0,
{
    match_generic_item(
        msrc,
        context,
        "struct".as_bytes(),
        "();".as_bytes(),
        MatchType::Struct,
        ContextLine::Header,
        parser,
    )
}

/// The match for the enum that the statement of `context` declares. The names of its
/// generic parameters are what the parser makes of its header.
pub fn match_enum<P: AstParser>(msrc: &[u8], context: &MatchCxt, parser: &P) -> (r: Option<Match>)
    requires
        context.range.fits(msrc@.len() as int),
    ensures
        r is Some ==> option_view(r) == keyword_match(
            msrc@,
            *context,
            "enum".spec_bytes(),
            Seq::empty(),
            MatchType::Enum,
            context_line(context.blob(msrc@), ContextLine::FirstLine),
            r.unwrap()@.generic_args,
        ),
        r is None ==> spec_key_ident(
            *context,
            context.blob(msrc@),
            "enum".spec_bytes(),
            Seq::empty(),
        ) is None,
        r is Some && generics_header(msrc@, *context, "enum".spec_bytes(), "{}".spec_bytes())
            is None ==> r.unwrap()@.generic_args.len() == 0,
{
    match_generic_item(
        msrc,
        context,
        "enum".as_bytes(),
        "{}".as_bytes(),
        MatchType::Enum,
        ContextLine::FirstLine,
        parser,
    )
}

/// The match for the type alias that the statement of `cxt` declares.
pub open spec fn spec_match_type(msrc: Seq<u8>, cxt: MatchCxt) -> Option<MatchView> {
    keyword_match(
        msrc,
        cxt,
        "type".spec_bytes(),
        Seq::empty(),
        MatchType::Type,
        context_line(cxt.blob(msrc), ContextLine::FirstLine),
        Seq::empty(),
    )
}

/// Holds a statement against the declaration of a type alias.
pub fn match_type(msrc: &[u8], context: &MatchCxt) -> (r: Option<Match>)
    requires
        context.range.fits(msrc@.len() as int),
    ensures
        option_view(r) == spec_match_type(msrc@, *context),
{
    let ignore: [&[u8]; 0] = [];
    let generics: Vec<Vec<u8>> = Vec::new();
    proof {
        assert(word_views(ignore@) =~= Seq::<Seq<u8>>::empty());
        assert(name_views(generics@) =~= Seq::<Seq<u8>>::empty());
    }
    match_keyword(
        msrc,
        context,
        "type".as_bytes(),
        ignore.as_slice(),
        MatchType::Type,
        ContextLine::FirstLine,
        generics,
    )
}

/// The match for the trait that the statement of `cxt` declares.
pub open spec fn spec_match_trait(msrc: Seq<u8>, cxt: MatchCxt) -> Option<MatchView> {
    keyword_match(
        msrc,
        cxt,
        "trait".spec_bytes(),
        Seq::empty(),
        MatchType::Trait,
        context_line(cxt.blob(msrc), ContextLine::Header),
        Seq::empty(),
    )
}

/// Holds a statement against the declaration of a trait.
pub fn match_trait(msrc: &[u8], context: &MatchCxt) -> (r: Option<Match>)
    requires
        context.range.fits(msrc@.len() as int),
    ensures
        option_view(r) == spec_match_trait(msrc@, *context),
{
    let ignore: [&[u8]; 0] = [];
    let generics: Vec<Vec<u8>> = Vec::new();
    proof {
        assert(word_views(ignore@) =~= Seq::<Seq<u8>>::empty());
        assert(name_views(generics@) =~= Seq::<Seq<u8>>::empty());
    }
    match_keyword(
        msrc,
        context,
        "trait".as_bytes(),
        ignore.as_slice(),
        MatchType::Trait,
        ContextLine::Header,
        generics,
    )
}

/// The words that may stand before `fn`.
pub open spec fn fn_modifiers() -> Seq<Seq<u8>> {
    seq!["const".spec_bytes(), "unsafe".spec_bytes()]
}

/// The match for the function that the statement of `cxt` declares, `const` and
/// `unsafe` before `fn` passed over.
pub open spec fn spec_match_fn(msrc: Seq<u8>, cxt: MatchCxt) -> Option<MatchView> {
    keyword_match(
        msrc,
        cxt,
        "fn".spec_bytes(),
        fn_modifiers(),
        MatchType::Function,
        context_line(cxt.blob(msrc), ContextLine::Header),
        Seq::empty(),
    )
}

/// Holds a statement against the declaration of a function, whatever its first
/// parameter.
pub fn match_fn_decl(msrc: &[u8], context: &MatchCxt) -> (r: Option<Match>)
    requires
        context.range.fits(msrc@.len() as int),
    ensures
        option_view(r) == spec_match_fn(msrc@, *context),
{
    let ignore: [&[u8]; 2] = ["const".as_bytes(), "unsafe".as_bytes()];
    let generics: Vec<Vec<u8>> = Vec::new();
    proof {
        assert(word_views(ignore@) =~= fn_modifiers());
        assert(name_views(generics@) =~= Seq::<Seq<u8>>::empty());
    }
    match_keyword(
        msrc,
        context,
        "fn".as_bytes(),
        ignore.as_slice(),
        MatchType::Function,
        ContextLine::Header,
        generics,
    )
}

/// The match for the function that the statement of `context` declares. A method,
/// whose first parameter the parser sees to be `self`, gives none.
pub fn match_fn<P: AstParser>(msrc: &[u8], context: &MatchCxt, parser: &P) -> (r: Option<Match>)
    requires
        context.range.fits(msrc@.len() as int),
    ensures
        r is Some ==> option_view(r) == spec_match_fn(msrc@, *context),
{
    let blob = &msrc[context.range.start.0..context.range.end.0];
    if parser.first_param_is_self(blob) {
        return None;
    }
    match_fn_decl(msrc, context)
}

/// The match for the macro that the statement of `cxt` declares with `macro_rules!`.
/// The search string is taken without the `!` at its end, and the name of the match
/// ends with one `!`. The documentation is the comment above the statement.
pub open spec fn spec_match_macro(msrc: Seq<u8>, cxt: MatchCxt) -> Option<MatchView> {
    let blob = cxt.blob(msrc);
    let name = cxt.search_str@.subrange(0, without_bangs(cxt.search_str@, cxt.search_str@.len() as int));
    match spec_find_keyword(blob, "macro_rules!".spec_bytes(), name, Seq::empty(), cxt.search_type) {
        Some(found) => Some(
            MatchView {
                matchstr: (match cxt.search_type {
                    SearchType::ExactMatch => name,
                    SearchType::StartsWith => blob.subrange(
                        found.0,
                        ident_end(blob, found.0 + name.len()),
                    ),
                }).push(0x21),
                filepath: cxt.filepath@,
                point: cxt.point_at(found.0),
                coords: None,
                visibility: found.1,
                mtype: MatchType::Macro,
                contextstr: spec_first_line(blob),
                generic_args: Seq::empty(),
                docs: spec_find_doc(msrc, cxt.range.start.0 as int),
            },
        ),
        None => None,
    }
}

/// Holds a statement against the declaration of a macro.
pub fn match_macro(msrc: &[u8], context: &MatchCxt) -> (r: Option<Match>)
    requires
        context.range.fits(msrc@.len() as int),
    ensures
        option_view(r) == spec_match_macro(msrc@, *context),
{
    let trimmed = trim_bangs(context.search_str);
    let context = MatchCxt {
        filepath: context.filepath,
        search_str: trimmed,
        range: context.range,
        search_type: context.search_type,
        is_local: context.is_local,
    };
    let blob = &msrc[context.range.start.0..context.range.end.0];
    let ignore: [&[u8]; 0] = [];
    proof {
        assert(word_views(ignore@) =~= Seq::<Seq<u8>>::empty());
    }
    match context.get_key_ident(blob, "macro_rules!".as_bytes(), ignore.as_slice()) {
        None => None,
        Some((start, mut s, vis)) => {
            s.push(0x21);
            let m = Match {
                matchstr: s,
                filepath: slice_to_vec(context.filepath),
                point: BytePos(context.range.start.0 + start.0),
                coords: None,
                visibility: vis,
                mtype: MatchType::Macro,
                contextstr: first_line(blob),
                generic_args: Vec::new(),
                docs: find_doc(msrc, context.range.start),
            };
            proof {
                assert(m@.generic_args =~= Seq::<Seq<u8>>::empty());
            }
            Some(m)
        },
    }
}

/// Whether a search ends at the first name that answers it: an exact search does.
pub open spec fn stops_at_first(cxt: MatchCxt) -> bool {
    cxt.search_type == SearchType::ExactMatch
}

/// Whether `range` holds, in the statement `blob`, a name that answers the search.
pub open spec fn binds(blob: Seq<u8>, cxt: MatchCxt, range: ByteRange) -> bool {
    range.fits(blob.len() as int) && spec_symbol_matches(
        cxt.search_type,
        cxt.search_str@,
        blob.subrange(range.start.0 as int, range.end.0 as int),
    )
}

/// The match for the name that `range` holds in the statement `blob`.
pub open spec fn binding_view(blob: Seq<u8>, cxt: MatchCxt, range: ByteRange, mtype: MatchType) -> MatchView {
    MatchView {
        matchstr: blob.subrange(range.start.0 as int, range.end.0 as int),
        filepath: cxt.filepath@,
        point: cxt.point_at(range.start.0 as int),
        coords: None,
        visibility: Visibility::Local,
        mtype,
        contextstr: spec_first_line(blob),
        generic_args: Seq::empty(),
        docs: Seq::empty(),
    }
}

/// The matches for the names that a statement binds, given the ranges `coords` of
/// the bound names from index `i` on: one for each name that answers the search, in
/// order; only the first of them where `first_only` is set.
pub open spec fn bindings_from(
    blob: Seq<u8>,
    cxt: MatchCxt,
    coords: Seq<ByteRange>,
    mtype: MatchType,
    first_only: bool,
    i: int,
) -> Seq<MatchView>
    decreases coords.len() - i,
{
    if i < 0 || i >= coords.len() {
        Seq::empty()
    } else if binds(blob, cxt, coords[i]) {
        if first_only {
            seq![binding_view(blob, cxt, coords[i], mtype)]
        } else {
            seq![binding_view(blob, cxt, coords[i], mtype)] + bindings_from(
                blob,
                cxt,
                coords,
                mtype,
                first_only,
                i + 1,
            )
        }
    } else {
        bindings_from(blob, cxt, coords, mtype, first_only, i + 1)
    }
}

/// Builds the matches for the names bound at `coords` in the statement of `context`.
pub fn binding_matches(
    msrc: &[u8],
    context: &MatchCxt,
    coords: &[ByteRange],
    mtype: MatchType,
    first_only: bool,
) -> (r: Vec<Match>)
    requires
        context.range.fits(msrc@.len() as int),
    ensures
        match_views(r@) == bindings_from(
            context.blob(msrc@),
            *context,
            coords@,
            mtype,
            first_only,
            0,
        ),
{
    let blob = &msrc[context.range.start.0..context.range.end.0];
    let n = blob.len();
    let mut out: Vec<Match> = Vec::new();
    let mut i: usize = 0;
    while i < coords.len()
        invariant
            i <= coords@.len(),
            n == blob@.len(),
            blob@ == context.blob(msrc@),
            context.range.fits(msrc@.len() as int),
            bindings_from(blob@, *context, coords@, mtype, first_only, 0) == match_views(out@)
                + bindings_from(blob@, *context, coords@, mtype, first_only, i as int),
        decreases coords@.len() - i,
    {
        let pat_range = coords[i];
        if pat_range.start.0 <= pat_range.end.0 && pat_range.end.0 <= n {
            let s = &blob[pat_range.start.0..pat_range.end.0];
            if symbol_matches(context.search_type, context.search_str, s) {
                let m = Match {
                    matchstr: slice_to_vec(s),
                    filepath: slice_to_vec(context.filepath),
                    point: BytePos(context.range.start.0 + pat_range.start.0),
                    coords: None,
                    visibility: Visibility::Local,
                    mtype,
                    contextstr: first_line(blob),
                    generic_args: Vec::new(),
                    docs: Vec::new(),
                };
                proof {
                    assert(m@.generic_args =~= Seq::<Seq<u8>>::empty());
                    assert(m@.docs =~= Seq::<u8>::empty());
                    assert(m@ == binding_view(blob@, *context, pat_range, mtype));
                    let rest = bindings_from(blob@, *context, coords@, mtype, first_only, i + 1);
                    assert(match_views(out@.push(m)) =~= match_views(out@).push(m@));
                    assert(match_views(out@) + (seq![m@] + rest) =~= match_views(out@).push(m@)
                        + rest);
                    assert(match_views(out@) + seq![m@] =~= match_views(out@).push(m@));
                }
                out.push(m);
                if first_only {
                    return out;
                }
            }
        }
        i += 1;
    }
    proof {
        assert(match_views(out@) + Seq::<MatchView>::empty() =~= match_views(out@));
    }
    out
}

/// Holds a statement against a binding statement that begins with `pattern`, and
/// gives the matches for the names that the parser finds bound in it. An exact search
/// ends at the first name that answers it.
pub fn match_pattern_let<P: AstParser>(
    msrc: &[u8],
    context: &MatchCxt,
    pattern: &[u8],
    mtype: MatchType,
    parser: &P,
) -> (r: Vec<Match>)
    requires
        context.range.fits(msrc@.len() as int),
    ensures
        !(spec_starts_with(context.blob(msrc@), pattern@) && spec_txt_matches(
            context.search_type,
            context.search_str@,
            context.blob(msrc@),
        )) ==> r@.len() == 0,
        exists|coords: Seq<ByteRange>|
            match_views(r@) == #[trigger] bindings_from(
                context.blob(msrc@),
                *context,
                coords,
                mtype,
                stops_at_first(*context),
                0,
            ),
{
    let blob = &msrc[context.range.start.0..context.range.end.0];
    let first_only = match context.search_type {
        SearchType::ExactMatch => true,
        SearchType::StartsWith => false,
    };
    if starts_with(blob, pattern) && txt_matches(context.search_type, context.search_str, blob) {
        let coords = parser.parse_pat_bind_stmt(blob);
        let out = binding_matches(msrc, context, coords.as_slice(), mtype, first_only);
        proof {
            assert(match_views(out@) == bindings_from(
                context.blob(msrc@),
                *context,
                coords@,
                mtype,
                stops_at_first(*context),
                0,
            ));
        }
        out
    } else {
        let out: Vec<Match> = Vec::new();
        proof {
            let none = Seq::<ByteRange>::empty();
            assert(match_views(out@) =~= bindings_from(
                context.blob(msrc@),
                *context,
                none,
                mtype,
                stops_at_first(*context),
                0,
            ));
        }
        out
    }
}

/// The matches for the names that an `if let` statement binds.
pub fn match_if_let<P: AstParser>(msrc: &[u8], context: &MatchCxt, parser: &P) -> (r: Vec<Match>)
    requires
        context.range.fits(msrc@.len() as int),
    ensures
        !(spec_starts_with(context.blob(msrc@), "if let ".spec_bytes()) && spec_txt_matches(
            context.search_type,
            context.search_str@,
            context.blob(msrc@),
        )) ==> r@.len() == 0,
        exists|coords: Seq<ByteRange>|
            match_views(r@) == #[trigger] bindings_from(
                context.blob(msrc@),
                *context,
                coords,
                MatchType::IfLet,
                stops_at_first(*context),
                0,
            ),
{
    match_pattern_let(msrc, context, "if let ".as_bytes(), MatchType::IfLet, parser)
}

/// The matches for the names that a `while let` statement binds.
pub fn match_while_let<P: AstParser>(msrc: &[u8], context: &MatchCxt, parser: &P) -> (r: Vec<
    Match,
>)
    requires
        context.range.fits(msrc@.len() as int),
    ensures
        !(spec_starts_with(context.blob(msrc@), "while let ".spec_bytes()) && spec_txt_matches(
            context.search_type,
            context.search_str@,
            context.blob(msrc@),
        )) ==> r@.len() == 0,
        exists|coords: Seq<ByteRange>|
            match_views(r@) == #[trigger] bindings_from(
                context.blob(msrc@),
                *context,
                coords,
                MatchType::WhileLet,
                stops_at_first(*context),
                0,
            ),
{
    match_pattern_let(msrc, context, "while let ".as_bytes(), MatchType::WhileLet, parser)
}

/// The matches for the names that a `let` statement binds.
pub fn match_let<P: AstParser>(msrc: &[u8], context: &MatchCxt, parser: &P) -> (r: Vec<Match>)
    requires
        context.range.fits(msrc@.len() as int),
    ensures
        !(spec_starts_with(context.blob(msrc@), "let ".spec_bytes()) && spec_txt_matches(
            context.search_type,
            context.search_str@,
            context.blob(msrc@),
        )) ==> r@.len() == 0,
        exists|coords: Seq<ByteRange>|
            match_views(r@) == #[trigger] bindings_from(
                context.blob(msrc@),
                *context,
                coords,
                MatchType::Let,
                stops_at_first(*context),
                0,
            ),
{
    match_pattern_let(msrc, context, "let ".as_bytes(), MatchType::Let, parser)
}

/// The matches for the names that a `for` loop binds: every name that the parser
/// finds bound in a statement that begins with `for` and that answers the search.
pub fn match_for<P: AstParser>(msrc: &[u8], context: &MatchCxt, parser: &P) -> (r: Vec<Match>)
    requires
        context.range.fits(msrc@.len() as int),
    ensures
        !spec_starts_with(context.blob(msrc@), "for ".spec_bytes()) ==> r@.len() == 0,
        exists|coords: Seq<ByteRange>|
            match_views(r@) == #[trigger] bindings_from(
                context.blob(msrc@),
                *context,
                coords,
                MatchType::For,
                false,
                0,
            ),
{
    let blob = &msrc[context.range.start.0..context.range.end.0];
    if !starts_with(blob, "for ".as_bytes()) {
        let out: Vec<Match> = Vec::new();
        proof {
            assert(match_views(out@) =~= bindings_from(
                context.blob(msrc@),
                *context,
                Seq::<ByteRange>::empty(),
                MatchType::For,
                false,
                0,
            ));
        }
        return out;
    }
    let coords = parser.parse_pat_bind_stmt(blob);
    binding_matches(msrc, context, coords.as_slice(), MatchType::For, false)
}

/// Whether the variants of the enum in the statement `blob` are looked at: the enum
/// is public, or the search began in its file; and the search string stands
/// somewhere in the statement.
pub open spec fn scans_variants(blob: Seq<u8>, cxt: MatchCxt) -> bool {
    (spec_starts_with(blob, "pub enum".spec_bytes()) || (cxt.is_local && spec_starts_with(
        blob,
        "enum".spec_bytes(),
    ))) && spec_txt_matches(cxt.search_type, cxt.search_str@, blob)
}

/// Whether a variant is kept: its offset lies in the statement, and its name begins
/// with the search string.
pub open spec fn keeps_variant(blob: Seq<u8>, cxt: MatchCxt, v: EnumVariant) -> bool {
    v.offset.0 <= blob.len() && spec_starts_with(v.name@, cxt.search_str@)
}

/// The match for a variant of the enum in the statement of `cxt`.
pub open spec fn variant_view(msrc: Seq<u8>, cxt: MatchCxt, v: EnumVariant) -> MatchView {
    let blob = cxt.blob(msrc);
    MatchView {
        matchstr: v.name@,
        filepath: cxt.filepath@,
        point: cxt.point_at(v.offset.0 as int),
        coords: None,
        visibility: if spec_starts_with(blob, "pub enum".spec_bytes()) {
            Visibility::Public
        } else {
            Visibility::Local
        },
        mtype: MatchType::EnumVariant,
        contextstr: spec_first_line(blob.subrange(v.offset.0 as int, blob.len() as int)),
        generic_args: Seq::empty(),
        docs: spec_find_doc(msrc, cxt.range.start.0 + v.offset.0),
    }
}

/// The matches for the variants from index `i` on whose names begin with the search
/// string, in order.
pub open spec fn variants_from(msrc: Seq<u8>, cxt: MatchCxt, variants: Seq<EnumVariant>, i: int) -> Seq<MatchView>
    decreases variants.len() - i,
{
    if i < 0 || i >= variants.len() {
        Seq::empty()
    } else if keeps_variant(cxt.blob(msrc), cxt, variants[i]) {
        seq![variant_view(msrc, cxt, variants[i])] + variants_from(msrc, cxt, variants, i + 1)
    } else {
        variants_from(msrc, cxt, variants, i + 1)
    }
}

/// Builds the matches for the variants of the enum in the statement of `context`.
pub fn variant_matches(msrc: &[u8], context: &MatchCxt, variants: &[EnumVariant]) -> (r: Vec<Match>)
    requires
        context.range.fits(msrc@.len() as int),
    ensures
        match_views(r@) == variants_from(msrc@, *context, variants@, 0),
{
    let blob = &msrc[context.range.start.0..context.range.end.0];
    let n = blob.len();
    let public = starts_with(blob, "pub enum".as_bytes());
    let mut out: Vec<Match> = Vec::new();
    let mut i: usize = 0;
    while i < variants.len()
        invariant
            i <= variants@.len(),
            n == blob@.len(),
            blob@ == context.blob(msrc@),
            context.range.fits(msrc@.len() as int),
            public == spec_starts_with(blob@, "pub enum".spec_bytes()),
            variants_from(msrc@, *context, variants@, 0) == match_views(out@) + variants_from(
                msrc@,
                *context,
                variants@,
                i as int,
            ),
        decreases variants@.len() - i,
    {
        let v = &variants[i];
        if v.offset.0 <= n && starts_with(v.name.as_slice(), context.search_str) {
            let start = BytePos(context.range.start.0 + v.offset.0);
            let m = Match {
                matchstr: slice_to_vec(v.name.as_slice()),
                filepath: slice_to_vec(context.filepath),
                point: start,
                coords: None,
                visibility: if public {
                    Visibility::Public
                } else {
                    Visibility::Local
                },
                mtype: MatchType::EnumVariant,
                contextstr: first_line(&blob[v.offset.0..n]),
                generic_args: Vec::new(),
                docs: find_doc(msrc, start),
            };
            proof {
                assert(m@.generic_args =~= Seq::<Seq<u8>>::empty());
                assert(m@ == variant_view(msrc@, *context, *v));
                let rest = variants_from(msrc@, *context, variants@, i + 1);
                assert(match_views(out@.push(m)) =~= match_views(out@).push(m@));
                assert(match_views(out@) + (seq![m@] + rest) =~= match_views(out@).push(m@)
                    + rest);
            }
            out.push(m);
        }
        i += 1;
    }
    proof {
        assert(match_views(out@) + Seq::<MatchView>::empty() =~= match_views(out@));
    }
    out
}

/// The matches for the variants of the enum that the statement of `context`
/// declares. The variants of an enum that is not public are looked at only where the
/// search began in the same file.
pub fn match_enum_variants<P: AstParser>(msrc: &[u8], context: &MatchCxt, parser: &P) -> (r: Vec<
    Match,
>)
    requires
        context.range.fits(msrc@.len() as int),
    ensures
        !scans_variants(context.blob(msrc@), *context) ==> r@.len() == 0,
        exists|variants: Seq<EnumVariant>|
            match_views(r@) == #[trigger] variants_from(msrc@, *context, variants, 0),
{
    let blob = &msrc[context.range.start.0..context.range.end.0];
    if (starts_with(blob, "pub enum".as_bytes()) || (context.is_local && starts_with(
        blob,
        "enum".as_bytes(),
    ))) && txt_matches(context.search_type, context.search_str, blob) {
        let parsed = parser.parse_enum(blob);
        variant_matches(msrc, context, parsed.as_slice())
    } else {
        let out: Vec<Match> = Vec::new();
        proof {
            assert(match_views(out@) =~= variants_from(
                msrc@,
                *context,
                Seq::<EnumVariant>::empty(),
                0,
            ));
        }
        out
    }
}

/// The one match, if there is one, as a list.
pub open spec fn option_seq(m: Option<MatchView>) -> Seq<MatchView> {
    match m {
        Some(m) => seq![m],
        None => Seq::empty(),
    }
}

/// The matches in the value namespace for the statement of `context`: a constant, a
/// static and a function, as far as the statement declares one that answers the
/// search. Whether a function is a method, and so gives no match, is the parser's
/// word.
pub fn match_values<P: AstParser>(src: &[u8], context: &MatchCxt, parser: &P) -> (r: Vec<Match>)
    requires
        context.range.fits(src@.len() as int),
    ensures
        match_views(r@) == option_seq(spec_match_const(src@, *context)) + option_seq(
            spec_match_static(src@, *context),
        ) || match_views(r@) == option_seq(spec_match_const(src@, *context)) + option_seq(
            spec_match_static(src@, *context),
        ) + option_seq(spec_match_fn(src@, *context)),
{
    let mut out: Vec<Match> = Vec::new();
    assert(match_views(out@) =~= Seq::<MatchView>::empty());
    push_found(&mut out, match_const(src, context));
    push_found(&mut out, match_static(src, context));
    push_found(&mut out, match_fn(src, context, parser));
    out
}

/// The match for a module or a crate that is a file of its own: it points at the start
/// of the file `path`, and its documentation is the comment that the file's text
/// begins with.
pub open spec fn file_module_view(name: Seq<u8>, path: Seq<u8>, vis: Visibility, text: Seq<u8>) -> MatchView {
    MatchView {
        matchstr: name,
        filepath: path,
        point: BytePos(0),
        coords: Some(Coordinate { line: 0, column: 0 }),
        visibility: vis,
        mtype: MatchType::Module,
        contextstr: path,
        generic_args: Seq::empty(),
        docs: spec_find_mod_doc(text, 0),
    }
}

/// Builds the match for the module or crate `name` whose file `path` holds `text`.
pub fn file_module_match(name: &[u8], path: &[u8], vis: Visibility, text: &[u8]) -> (r: Match)
    ensures
        r@ == file_module_view(name@, path@, vis, text@),
{
    let m = Match {
        matchstr: slice_to_vec(name),
        filepath: slice_to_vec(path),
        point: BytePos(0),
        coords: Some(Coordinate::start()),
        visibility: vis,
        mtype: MatchType::Module,
        contextstr: slice_to_vec(path),
        generic_args: Vec::new(),
        docs: find_mod_doc(text, BytePos(0)),
    };
    proof {
        assert(m@.generic_args =~= Seq::<Seq<u8>>::empty());
    }
    m
}

/// The match for the inline module that the statement of `cxt` declares: the
/// statement declares with `mod` a name that answers the search, and holds a `{`.
/// The match points at the keyword `mod`, behind any visibility modifier, in the file
/// of the statement.
pub open spec fn spec_inline_mod(msrc: Seq<u8>, cxt: MatchCxt) -> Option<MatchView> {
    let blob = cxt.blob(msrc);
    match spec_key_ident(cxt, blob, "mod".spec_bytes(), Seq::empty()) {
        Some(found) => if spec_find_byte(blob, 0x7b) is Some {
            Some(
                MatchView {
                    matchstr: found.1,
                    filepath: cxt.filepath@,
                    point: cxt.point_at(modifiers_end(blob, Seq::empty()).0),
                    coords: None,
                    visibility: found.2,
                    mtype: MatchType::Module,
                    contextstr: cxt.filepath@,
                    generic_args: Seq::empty(),
                    docs: Seq::empty(),
                },
            )
        } else {
            None
        },
        None => None,
    }
}

/// Holds a statement against the declaration of an inline module.
pub fn match_inline_mod(msrc: &[u8], context: &MatchCxt) -> (r: Option<Match>)
    requires
        context.range.fits(msrc@.len() as int),
    ensures
        option_view(r) == spec_inline_mod(msrc@, *context),
{
    let blob = &msrc[context.range.start.0..context.range.end.0];
    let ignore: [&[u8]; 0] = [];
    proof {
        assert(word_views(ignore@) =~= Seq::<Seq<u8>>::empty());
    }
    match context.get_key_ident(blob, "mod".as_bytes(), ignore.as_slice()) {
        None => None,
        Some((_, s, vis)) => {
            if find_byte(blob, 0x7b).is_some() {
                let keyword: usize = match strip_visibility(blob) {
                    Some((offset, _)) => offset.0,
                    None => 0,
                };
                let m = Match {
                    matchstr: s,
                    filepath: slice_to_vec(context.filepath),
                    point: BytePos(context.range.start.0 + keyword),
                    coords: None,
                    visibility: vis,
                    mtype: MatchType::Module,
                    contextstr: slice_to_vec(context.filepath),
                    generic_args: Vec::new(),
                    docs: Vec::new(),
                };
                proof {
                    assert(m@.generic_args =~= Seq::<Seq<u8>>::empty());
                    assert(m@.docs =~= Seq::<u8>::empty());
                }
                Some(m)
            } else {
                None
            }
        },
    }
}

/// The match for the module that the statement of `context` declares. An inline
/// module is found in the file of the statement. For a declaration without a body the
/// module's file is looked up: first by a `#[path]` attribute on the statement, then
/// by the module's name in the directory that the inline modules around the
/// statement lead to.
pub fn match_mod<E: StatementIterator + AstParser + Session>(
    msrc: Src,
    context: &MatchCxt,
    env: &E,
) -> (r: Option<Match>)
    requires
        msrc.wf(),
        context.range.fits(msrc.len() as int),
    ensures
        spec_key_ident(*context, context.blob(msrc.bytes()), "mod".spec_bytes(), Seq::empty())
            is None ==> r is None,
        spec_find_byte(context.blob(msrc.bytes()), 0x7b) is Some ==> option_view(r)
            == spec_inline_mod(msrc.bytes(), *context),
        r is Some && spec_find_byte(context.blob(msrc.bytes()), 0x7b) is None ==> exists|
            text: Seq<u8>,
        |
            r.unwrap()@ == #[trigger] file_module_view(
                spec_key_ident(
                    *context,
                    context.blob(msrc.bytes()),
                    "mod".spec_bytes(),
                    Seq::empty(),
                ).unwrap().1,
                r.unwrap()@.filepath,
                spec_key_ident(
                    *context,
                    context.blob(msrc.bytes()),
                    "mod".spec_bytes(),
                    Seq::empty(),
                ).unwrap().2,
                text,
            ),
{
    let text = msrc.as_bytes();
    let blob = &text[context.range.start.0..context.range.end.0];
    let ignore: [&[u8]; 0] = [];
    proof {
        assert(word_views(ignore@) =~= Seq::<Seq<u8>>::empty());
    }
    let (s, vis) = match context.get_key_ident(blob, "mod".as_bytes(), ignore.as_slice()) {
        None => {
            return None;
        },
        Some((_, s, vis)) => (s, vis),
    };
    if find_byte(blob, 0x7b).is_some() {
        return match_inline_mod(text, context);
    }
    let parent_path = match env.parent_dir(context.filepath) {
        Some(p) => p,
        None => {
            return None;
        },
    };
    if let Some(modpath) = get_module_file_from_path(
        msrc,
        context.range.start,
        parent_path.as_slice(),
        env,
        env,
    ) {
        let file = env.load_file(modpath.as_slice());
        let m = file_module_match(s.as_slice(), modpath.as_slice(), vis, file.as_slice());
        proof {
            assert(m@ == file_module_view(s@, m@.filepath, vis, file@));
        }
        return Some(m);
    }
    let internalpath = get_local_module_path(msrc, context.range.start, env, env);
    let mut searchdir = parent_path;
    let mut i: usize = 0;
    while i < internalpath.len()
        invariant
            i <= internalpath@.len(),
        decreases internalpath@.len() - i,
    {
        searchdir = env.join(searchdir.as_slice(), internalpath[i].as_slice());
        i += 1;
    }
    if let Some(modpath) = get_module_file(s.as_slice(), searchdir.as_slice(), env) {
        let file = env.load_file(modpath.as_slice());
        let m = file_module_match(s.as_slice(), modpath.as_slice(), vis, file.as_slice());
        proof {
            assert(m@ == file_module_view(s@, m@.filepath, vis, file@));
        }
        return Some(m);
    }
    None
}

/// What is left of an `extern crate` statement when its visibility modifier is
/// taken off, and the visibility of the crate: that of the modifier, or the crate's
/// own where there is none.
pub open spec fn extern_crate_decl(blob: Seq<u8>) -> (Seq<u8>, Visibility) {
    match spec_strip_visibility(blob) {
        Some(v) => (blob.subrange(v.0, blob.len() as int), v.1),
        None => (blob, Visibility::Crate),
    }
}

/// Whether the statement `decl` names the crate searched for: it holds
/// `extern crate` and the search string, and no `as` behind them; or it begins with
/// `extern crate` and holds `as` and the search string.
pub open spec fn names_extern_crate(decl: Seq<u8>, cxt: MatchCxt) -> bool {
    let plain = "extern crate ".spec_bytes() + cxt.search_str@;
    (spec_txt_matches(cxt.search_type, plain, decl) && !spec_txt_matches(
        cxt.search_type,
        plain + " as".spec_bytes(),
        decl,
    )) || (spec_starts_with(decl, "extern crate".spec_bytes()) && spec_txt_matches(
        cxt.search_type,
        "as ".spec_bytes() + cxt.search_str@,
        decl,
    ))
}

/// Says whether a statement, its visibility modifier taken off, names the crate
/// searched for.
pub fn is_extern_crate_for(decl: &[u8], context: &MatchCxt) -> (r: bool)
    ensures
        r == names_extern_crate(decl@, *context),
{
    let plain = concat("extern crate ".as_bytes(), context.search_str);
    let renamed = concat(plain.as_slice(), " as".as_bytes());
    let alias = concat("as ".as_bytes(), context.search_str);
    (txt_matches(context.search_type, plain.as_slice(), decl) && !txt_matches(
        context.search_type,
        renamed.as_slice(),
        decl,
    )) || (starts_with(decl, "extern crate".as_bytes()) && txt_matches(
        context.search_type,
        alias.as_slice(),
        decl,
    ))
}

/// The name that the match for an `extern crate` statement carries, and the name of
/// the crate to look up, as the parser read them: there is no match without a name;
/// the match carries the name under which the crate is known in the file; and the
/// crate is looked up by its own name where the statement renames it.
pub open spec fn spec_extern_crate_names(parsed: ExternCrate) -> Option<(Seq<u8>, Seq<u8>)> {
    match parsed.name {
        Some(name) => Some(
            (
                name@,
                match parsed.realname {
                    Some(realname) => realname@,
                    None => name@,
                },
            ),
        ),
        None => None,
    }
}

/// Says what the match is named and which crate is looked up, from the names that
/// the parser read.
pub fn extern_crate_names(parsed: &ExternCrate) -> (r: Option<(Vec<u8>, Vec<u8>)>)
    ensures
        r is Some == spec_extern_crate_names(*parsed) is Some,
        r is Some ==> r.unwrap().0@ == spec_extern_crate_names(*parsed).unwrap().0 && r.unwrap().1@
            == spec_extern_crate_names(*parsed).unwrap().1,
{
    match &parsed.name {
        Some(name) => {
            let lookup = match &parsed.realname {
                Some(realname) => slice_to_vec(realname.as_slice()),
                None => slice_to_vec(name.as_slice()),
            };
            Some((slice_to_vec(name.as_slice()), lookup))
        },
        None => None,
    }
}

/// The match for the `extern crate` statement `blob`, where `names` is what
/// `extern_crate_names` makes of the parser's reading, `file` the root file found
/// for the crate and `text` the text of that file: none unless the statement names
/// the crate searched for, the parser read a name and a file was found.
pub open spec fn extern_crate_match(
    blob: Seq<u8>,
    cxt: MatchCxt,
    names: Option<(Seq<u8>, Seq<u8>)>,
    file: Option<Seq<u8>>,
    text: Seq<u8>,
) -> Option<MatchView> {
    let decl = extern_crate_decl(blob);
    if !names_extern_crate(decl.0, cxt) {
        None
    } else {
        match names {
            None => None,
            Some(n) => match file {
                None => None,
                Some(path) => Some(file_module_view(n.0, path, decl.1, text)),
            },
        }
    }
}

/// The match for the crate that the statement of `context` brings in with
/// `extern crate`. The names are the parser's; the match points at the start of the
/// crate's root file.
pub fn match_extern_crate<E: AstParser + Session + DependencyResolver>(
    msrc: &[u8],
    context: &MatchCxt,
    env: &E,
) -> (r: Option<Match>)
    requires
        context.range.fits(msrc@.len() as int),
    ensures
        !names_extern_crate(extern_crate_decl(context.blob(msrc@)).0, *context) ==> r is None,
        exists|names: Option<(Seq<u8>, Seq<u8>)>, file: Option<Seq<u8>>, text: Seq<u8>|
            option_view(r) == #[trigger] extern_crate_match(
                context.blob(msrc@),
                *context,
                names,
                file,
                text,
            ),
{
    let whole = &msrc[context.range.start.0..context.range.end.0];
    let n = whole.len();
    let (blob, vis) = match strip_visibility(whole) {
        Some((offset, visibility)) => (&whole[offset.0..n], visibility),
        None => (whole, Visibility::Crate),
    };
    assert(vis == extern_crate_decl(context.blob(msrc@)).1);
    assert(blob@ == extern_crate_decl(context.blob(msrc@)).0);
    let ghost nothing = Seq::<u8>::empty();
    if !is_extern_crate_for(blob, context) {
        proof {
            assert(extern_crate_match(context.blob(msrc@), *context, None, None, nothing) is None);
        }
        return None;
    }
    let extern_crate = env.parse_extern_crate(blob);
    let (name, lookup) = match extern_crate_names(&extern_crate) {
        Some(names) => names,
        None => {
            proof {
                assert(extern_crate_match(context.blob(msrc@), *context, None, None, nothing)
                    is None);
            }
            return None;
        },
    };
    match get_crate_file(lookup.as_slice(), context.filepath, env) {
        Some(cratepath) => {
            let crate_src = env.load_file(cratepath.as_slice());
            let m = file_module_match(
                name.as_slice(),
                cratepath.as_slice(),
                vis,
                crate_src.as_slice(),
            );
            proof {
                assert(Some(m@) == extern_crate_match(
                    context.blob(msrc@),
                    *context,
                    Some((name@, lookup@)),
                    Some(cratepath@),
                    crate_src@,
                ));
            }
            Some(m)
        },
        None => {
            proof {
                assert(extern_crate_match(
                    context.blob(msrc@),
                    *context,
                    Some((name@, lookup@)),
                    None,
                    nothing,
                ) is None);
            }
            None
        },
    }
}

/// The budget that a resolution has when it enters one more wildcard import with
/// the budget `limit`: the first wildcard import leaves one less than the limit, each
/// further one takes one, and none may be entered with nothing left.
pub open spec fn glob_entry(limit: Option<usize>) -> Option<usize> {
    match limit {
        None => Some((GLOB_LIMIT - 1) as usize),
        Some(d) => if d == 0 {
            None
        } else {
            Some((d - 1) as usize)
        },
    }
}

/// Takes from the budget what entering one more wildcard import costs.
pub fn enter_glob(limit: Option<usize>) -> (r: Option<usize>)
    ensures
        r == glob_entry(limit),
{
    match limit {
        None => Some(GLOB_LIMIT - 1),
        Some(d) => if d == 0 {
            None
        } else {
            Some(d - 1)
        },
    }
}

/// The budget after `depth` wildcard imports, one inside the other, are entered with
/// the budget `limit`; `None` where one of them may not be entered.
pub open spec fn nested_globs(limit: Option<usize>, depth: nat) -> Option<Option<usize>>
    decreases depth,
{
    if depth == 0 {
        Some(limit)
    } else {
        match glob_entry(limit) {
            Some(next) => nested_globs(Some(next), (depth - 1) as nat),
            None => None,
        }
    }
}

/// How many wildcard imports, one inside the other, a budget allows.
pub open spec fn globs_left(limit: Option<usize>) -> nat {
    match limit {
        None => GLOB_LIMIT as nat,
        Some(d) => d as nat,
    }
}

/// A chain of wildcard imports, one inside the other, can be entered exactly as far
/// as the budget reaches: with no budget set yet, three deep and no deeper.
pub proof fn lemma_glob_budget(limit: Option<usize>, depth: nat)
    ensures
        nested_globs(limit, depth) is Some <==> depth <= globs_left(limit),
        nested_globs(None, depth) is Some <==> depth <= 3,
    decreases depth,
{
    if depth > 0 {
        match glob_entry(limit) {
            Some(next) => {
                lemma_glob_budget(Some(next), (depth - 1) as nat);
            },
            None => {},
        }
        lemma_glob_budget(Some(2), (depth - 1) as nat);
    }
}

/// Wildcard imports that stand side by side in one `use` statement get the same
/// budget each: what one of them spends is not taken from the other.
pub proof fn lemma_sibling_globs(a: PathAlias, b: PathAlias, cxt: MatchCxt, limit: Option<usize>)
    requires
        a.kind is Glob,
        b.kind is Glob,
    ensures
        spec_use_request(a, cxt, limit) is Some <==> glob_entry(limit) is Some,
        spec_use_request(a, cxt, limit) is Some <==> spec_use_request(b, cxt, limit) is Some,
        spec_use_request(a, cxt, limit) is Some ==> spec_use_request(a, cxt, limit).unwrap().glob_limit
            == glob_entry(limit) && spec_use_request(b, cxt, limit).unwrap().glob_limit
            == glob_entry(limit),
{
}

/// An import that is pending stays pending when another is pushed, and the import
/// pushed is pending.
pub proof fn lemma_push_keeps_pending(
    before: Seq<(Seq<u8>, ByteRange)>,
    pushed: (Seq<u8>, ByteRange),
    other: (Seq<u8>, ByteRange),
)
    ensures
        before.push(pushed).contains(pushed),
        before.contains(other) ==> before.push(pushed).contains(other),
{
    let after = before.push(pushed);
    assert(after[before.len() as int] == pushed);
    if before.contains(other) {
        let i = choose|i: int| 0 <= i < before.len() && before[i] == other;
        assert(after[i] == other);
    }
}

/// What the resolver is asked for one item of a `use` statement.
pub struct UseRequest {
    /// The path to resolve.
    pub path: Path,
    /// The file that holds the `use` statement: the path is resolved as written there.
    pub filepath: Vec<u8>,
    /// Where in that file the statement begins.
    pub pos: BytePos,
    pub search_type: SearchType,
    /// The namespaces to look in.
    pub namespace: Namespace,
    /// The wildcard budget that the resolver gets.
    pub glob_limit: Option<usize>,
    /// The name that every match takes, where the item gives it one.
    pub rename: Option<Vec<u8>>,
    /// Whether only the first match is taken, and the statement is done with it.
    pub first_only: bool,
}

/// A request as plain values.
pub struct UseRequestView {
    pub path: (bool, Seq<Seq<u8>>),
    pub filepath: Seq<u8>,
    pub pos: BytePos,
    pub search_type: SearchType,
    pub namespace: Namespace,
    pub glob_limit: Option<usize>,
    pub rename: Option<Seq<u8>>,
    pub first_only: bool,
}

impl View for UseRequest {
    type V = UseRequestView;

    open spec fn view(&self) -> UseRequestView {
        UseRequestView {
            path: self.path@,
            filepath: self.filepath@,
            pos: self.pos,
            search_type: self.search_type,
            namespace: self.namespace,
            glob_limit: self.glob_limit,
            rename: match self.rename {
                Some(n) => Some(n@),
                None => None,
            },
            first_only: self.first_only,
        }
    }
}

/// The view of a request that may be there.
pub open spec fn request_view(r: Option<UseRequest>) -> Option<UseRequestView> {
    match r {
        Some(r) => Some(r@),
        None => None,
    }
}

/// The request for a path that is imported under a name, if the name answers the
/// search: the path is resolved exactly, with the budget unchanged.
pub open spec fn ident_request(
    cxt: MatchCxt,
    path: Path,
    search_name: Seq<u8>,
    rename: Option<Seq<u8>>,
    glob_limit: Option<usize>,
) -> Option<UseRequestView> {
    if spec_symbol_matches(cxt.search_type, cxt.search_str@, search_name) {
        Some(
            UseRequestView {
                path: path@,
                filepath: cxt.filepath@,
                pos: cxt.range.start,
                search_type: SearchType::ExactMatch,
                namespace: Namespace::Both,
                glob_limit,
                rename,
                first_only: cxt.search_type == SearchType::ExactMatch,
            },
        )
    } else {
        None
    }
}

/// What the resolver is asked for the item `alias` of a `use` statement, with the
/// wildcard budget `glob_limit`; `None` where the item is passed over.
///
/// An item with a name is asked for where the name answers the search; `self` stands
/// for the last segment of its path, unless it is renamed. A wildcard is asked for
/// where the budget lets it be entered: the search string is put behind its path,
/// and the resolver gets the budget less one. Every request is for the file and the
/// start of the `use` statement, and for both namespaces.
pub open spec fn spec_use_request(alias: PathAlias, cxt: MatchCxt, glob_limit: Option<usize>) -> Option<UseRequestView> {
    match alias.kind {
        PathAliasKind::Ident(ident) => ident_request(
            cxt,
            alias.path,
            ident@,
            Some(ident@),
            glob_limit,
        ),
        PathAliasKind::Self_(ident) => if alias.path.segments@.len() == 0 {
            None
        } else if ident@ != "self".spec_bytes() {
            ident_request(cxt, alias.path, ident@, Some(ident@), glob_limit)
        } else {
            ident_request(cxt, alias.path, alias.path.segments@.last().name@, None, glob_limit)
        },
        PathAliasKind::Glob => match glob_entry(glob_limit) {
            Some(next) => Some(
                UseRequestView {
                    path: (alias.path.global, alias.path@.1.push(cxt.search_str@)),
                    filepath: cxt.filepath@,
                    pos: cxt.range.start,
                    search_type: cxt.search_type,
                    namespace: Namespace::Both,
                    glob_limit: Some(next),
                    rename: None,
                    first_only: false,
                },
            ),
            None => None,
        },
    }
}

fn copy_path(path: &Path) -> (r: Path)
    ensures
        r@ == path@,
{
    let mut segments: Vec<PathSegment> = Vec::new();
    let mut i: usize = 0;
    while i < path.segments.len()
        invariant
            i <= path.segments@.len(),
            segments@.len() == i,
            forall|k: int| 0 <= k < i ==> segments@[k].name@ == path.segments@[k].name@,
        decreases path.segments@.len() - i,
    {
        segments.push(PathSegment { name: slice_to_vec(path.segments[i].name.as_slice()) });
        i += 1;
    }
    let r = Path { global: path.global, segments };
    proof {
        assert(r@.1 =~= path@.1);
    }
    r
}

fn make_ident_request(
    context: &MatchCxt,
    path: &Path,
    search_name: &[u8],
    rename: Option<&[u8]>,
    glob_limit: Option<usize>,
) -> (r: Option<UseRequest>)
    ensures
        request_view(r) == ident_request(
            *context,
            *path,
            search_name@,
            match rename {
                Some(n) => Some(n@),
                None => None,
            },
            glob_limit,
        ),
{
    if symbol_matches(context.search_type, context.search_str, search_name) {
        Some(
            UseRequest {
                path: copy_path(path),
                filepath: slice_to_vec(context.filepath),
                pos: context.range.start,
                search_type: SearchType::ExactMatch,
                namespace: Namespace::Both,
                glob_limit,
                rename: match rename {
                    Some(n) => Some(slice_to_vec(n)),
                    None => None,
                },
                first_only: match context.search_type {
                    SearchType::ExactMatch => true,
                    SearchType::StartsWith => false,
                },
            },
        )
    } else {
        None
    }
}

/// Decides what the resolver is asked for one item of a `use` statement.
pub fn use_request(alias: &PathAlias, context: &MatchCxt, glob_limit: Option<usize>) -> (r: Option<
    UseRequest,
>)
    ensures
        request_view(r) == spec_use_request(*alias, *context, glob_limit),
{
    match &alias.kind {
        PathAliasKind::Ident(ident) => make_ident_request(
            context,
            &alias.path,
            ident.as_slice(),
            Some(ident.as_slice()),
            glob_limit,
        ),
        PathAliasKind::Self_(ident) => {
            let n = alias.path.segments.len();
            if n == 0 {
                None
            } else if !bytes_eq(ident.as_slice(), "self".as_bytes()) {
                make_ident_request(
                    context,
                    &alias.path,
                    ident.as_slice(),
                    Some(ident.as_slice()),
                    glob_limit,
                )
            } else {
                make_ident_request(
                    context,
                    &alias.path,
                    alias.path.segments[n - 1].name.as_slice(),
                    None,
                    glob_limit,
                )
            }
        },
        PathAliasKind::Glob => match enter_glob(glob_limit) {
            Some(next) => {
                let mut search_path = copy_path(&alias.path);
                search_path.segments.push(PathSegment { name: slice_to_vec(context.search_str) });
                proof {
                    assert(search_path@.1 =~= alias.path@.1.push(context.search_str@));
                }
                Some(
                    UseRequest {
                        path: search_path,
                        filepath: slice_to_vec(context.filepath),
                        pos: context.range.start,
                        search_type: context.search_type,
                        namespace: Namespace::Both,
                        glob_limit: Some(next),
                        rename: None,
                        first_only: false,
                    },
                )
            },
            None => None,
        },
    }
}

/// A match under the name that an import gives it.
pub open spec fn renamed(m: MatchView, rename: Option<Seq<u8>>) -> MatchView {
    match rename {
        Some(name) => MatchView {
            matchstr: name,
            filepath: m.filepath,
            point: m.point,
            coords: m.coords,
            visibility: m.visibility,
            mtype: m.mtype,
            contextstr: m.contextstr,
            generic_args: m.generic_args,
            docs: m.docs,
        },
        None => m,
    }
}

/// What a `use` statement takes of the matches that the resolver gave for one of its
/// items: all of them, or only the first, each under the name that the item gives it.
pub open spec fn absorbed(results: Seq<MatchView>, rename: Option<Seq<u8>>, first_only: bool) -> Seq<MatchView> {
    Seq::new(
        if first_only && results.len() > 0 {
            1
        } else {
            results.len()
        },
        |i: int| renamed(results[i], rename),
    )
}

fn copy_renamed(m: &Match, rename: &Option<Vec<u8>>) -> (r: Match)
    ensures
        r@ == renamed(
            m@,
            match rename {
                Some(n) => Some(n@),
                None => None,
            },
        ),
{
    let mut generic_args: Vec<Vec<u8>> = Vec::new();
    let mut i: usize = 0;
    while i < m.generic_args.len()
        invariant
            i <= m.generic_args@.len(),
            generic_args@.len() == i,
            forall|k: int| 0 <= k < i ==> generic_args@[k]@ == m.generic_args@[k]@,
        decreases m.generic_args@.len() - i,
    {
        generic_args.push(slice_to_vec(m.generic_args[i].as_slice()));
        i += 1;
    }
    let r = Match {
        matchstr: match rename {
            Some(n) => slice_to_vec(n.as_slice()),
            None => slice_to_vec(m.matchstr.as_slice()),
        },
        filepath: slice_to_vec(m.filepath.as_slice()),
        point: m.point,
        coords: m.coords,
        visibility: m.visibility,
        mtype: m.mtype,
        contextstr: slice_to_vec(m.contextstr.as_slice()),
        generic_args,
        docs: slice_to_vec(m.docs.as_slice()),
    };
    proof {
        assert(r@.generic_args =~= m@.generic_args);
    }
    r
}

/// Takes into `out` what a `use` statement keeps of the matches that the resolver
/// gave for one request, and says whether the statement is done.
pub fn absorb_use_results(req: &UseRequest, results: &Vec<Match>, out: &mut Vec<Match>) -> (done:
    bool)
    ensures
        match_views(final(out)@) == match_views(old(out)@) + absorbed(
            match_views(results@),
            req@.rename,
            req.first_only,
        ),
        done == (req.first_only && results@.len() > 0),
{
    let ghost taken = absorbed(match_views(results@), req@.rename, req.first_only);
    let mut i: usize = 0;
    proof {
        assert(match_views(out@) + taken.take(0) =~= match_views(out@));
    }
    while i < results.len()
        invariant
            i <= results@.len(),
            i <= taken.len(),
            taken == absorbed(match_views(results@), req@.rename, req.first_only),
            req.first_only ==> i == 0,
            match_views(out@) == match_views(old(out)@) + taken.take(i as int),
        decreases results@.len() - i,
    {
        let m = copy_renamed(&results[i], &req.rename);
        proof {
            assert(m@ == taken[i as int]);
            assert(match_views(out@.push(m)) =~= match_views(out@).push(m@));
            assert(match_views(old(out)@) + taken.take(i + 1) =~= (match_views(old(out)@)
                + taken.take(i as int)).push(m@));
        }
        out.push(m);
        if req.first_only {
            proof {
                assert(taken.take(1) =~= taken);
            }
            return true;
        }
        i += 1;
    }
    proof {
        assert(taken.take(i as int) =~= taken);
    }
    false
}

/// What the resolver is told of the imports around it when it is asked for one item
/// of the `use` statement of `context`: the statement is pending, behind all that
/// were pending before, and the wildcard budget is that of the request.
pub fn resolver_import_info(import_info: &ImportInfo, context: &MatchCxt, req: &UseRequest) -> (r:
    ImportInfo)
    ensures
        r.pending() == import_info.pending().push((context.filepath@, context.range)),
        r.glob_limit == req.glob_limit,
        r.spec_contains(context.filepath@, context.range),
        forall|filepath: Seq<u8>, range: ByteRange|
            import_info.spec_contains(filepath, range) ==> #[trigger] r.spec_contains(
                filepath,
                range,
            ),
{
    let mut pending = import_info.push(context.filepath, context.range);
    pending.glob_limit = req.glob_limit;
    proof {
        let pushed = (context.filepath@, context.range);
        lemma_push_keeps_pending(import_info.pending(), pushed, pushed);
        assert forall|filepath: Seq<u8>, range: ByteRange|
            import_info.spec_contains(filepath, range) implies #[trigger] pending.spec_contains(
            filepath,
            range,
        ) by {
            lemma_push_keeps_pending(import_info.pending(), pushed, (filepath, range));
        }
    }
    pending
}

/// Whether one of the items is a wildcard.
pub open spec fn spec_contains_glob(path_list: Seq<PathAlias>) -> bool {
    exists|i: int| 0 <= i < path_list.len() && (#[trigger] path_list[i]).kind is Glob
}

/// Says whether one of the items is a wildcard.
pub fn contains_glob(path_list: &[PathAlias]) -> (r: bool)
    ensures
        r == spec_contains_glob(path_list@),
{
    let mut i: usize = 0;
    while i < path_list.len()
        invariant
            i <= path_list@.len(),
            forall|k: int| 0 <= k < i ==> !((#[trigger] path_list@[k]).kind is Glob),
        decreases path_list@.len() - i,
    {
        if let PathAliasKind::Glob = path_list[i].kind {
            return true;
        }
        i += 1;
    }
    false
}

/// Whether the statement `blob` is a `use` statement.
pub open spec fn is_use_stmt(blob: Seq<u8>) -> bool {
    spec_find_keyword(
        blob,
        "use".spec_bytes(),
        Seq::empty(),
        Seq::empty(),
        SearchType::StartsWith,
    ) is Some
}

/// What the resolver's answer to the request for item `k` of a `use` statement adds
/// to the statement's matches; nothing where the item is passed over.
pub open spec fn use_taken(
    cxt: MatchCxt,
    limit: Option<usize>,
    path_list: Seq<PathAlias>,
    answers: Seq<Seq<MatchView>>,
    k: int,
) -> Seq<MatchView> {
    match spec_use_request(path_list[k], cxt, limit) {
        Some(req) => absorbed(answers[k], req.rename, req.first_only),
        None => Seq::empty(),
    }
}

/// Whether a `use` statement is done with one of its first `n` items: an exact search
/// is done with the first item that is asked for by name and gets an answer.
pub open spec fn use_done(
    cxt: MatchCxt,
    limit: Option<usize>,
    path_list: Seq<PathAlias>,
    answers: Seq<Seq<MatchView>>,
    n: int,
) -> bool
    decreases n,
{
    n > 0 && (use_done(cxt, limit, path_list, answers, n - 1) || match spec_use_request(
        path_list[n - 1],
        cxt,
        limit,
    ) {
        Some(req) => req.first_only && answers[n - 1].len() > 0,
        None => false,
    })
}

/// The matches that the first `n` items of a `use` statement bring in, where
/// `answers[k]` is the resolver's answer to the request for item `k`: what each
/// answer adds, in the order of the items, up to the item that the statement is done
/// with.
pub open spec fn use_matches(
    cxt: MatchCxt,
    limit: Option<usize>,
    path_list: Seq<PathAlias>,
    answers: Seq<Seq<MatchView>>,
    n: int,
) -> Seq<MatchView>
    decreases n,
{
    if n <= 0 {
        Seq::empty()
    } else if use_done(cxt, limit, path_list, answers, n - 1) {
        use_matches(cxt, limit, path_list, answers, n - 1)
    } else {
        use_matches(cxt, limit, path_list, answers, n - 1) + use_taken(
            cxt,
            limit,
            path_list,
            answers,
            n - 1,
        )
    }
}

/// The matches that the `use` statement `blob` brings in, where the parser reads the
/// items `path_list` from it and the resolver gives the answers `answers`. A
/// statement without a wildcard that does not hold the search string brings in
/// nothing.
pub open spec fn use_result(
    blob: Seq<u8>,
    cxt: MatchCxt,
    limit: Option<usize>,
    path_list: Seq<PathAlias>,
    answers: Seq<Seq<MatchView>>,
) -> Seq<MatchView> {
    if !spec_contains_glob(path_list) && !spec_txt_matches(cxt.search_type, cxt.search_str@, blob) {
        Seq::empty()
    } else {
        use_matches(cxt, limit, path_list, answers, path_list.len() as int)
    }
}

/// What the first `n` items bring in rests on the answers for these items alone.
proof fn lemma_use_matches_prefix(
    cxt: MatchCxt,
    limit: Option<usize>,
    path_list: Seq<PathAlias>,
    a: Seq<Seq<MatchView>>,
    b: Seq<Seq<MatchView>>,
    n: int,
)
    requires
        forall|k: int| 0 <= k < n ==> a[k] == b[k],
    ensures
        use_done(cxt, limit, path_list, a, n) == use_done(cxt, limit, path_list, b, n),
        use_matches(cxt, limit, path_list, a, n) == use_matches(cxt, limit, path_list, b, n),
    decreases n,
{
    if n > 0 {
        lemma_use_matches_prefix(cxt, limit, path_list, a, b, n - 1);
    }
}

/// Once a `use` statement is done, further items add nothing.
proof fn lemma_use_done_stays(
    cxt: MatchCxt,
    limit: Option<usize>,
    path_list: Seq<PathAlias>,
    answers: Seq<Seq<MatchView>>,
    n: int,
    m: int,
)
    requires
        n <= m,
        use_done(cxt, limit, path_list, answers, n),
    ensures
        use_done(cxt, limit, path_list, answers, m),
        use_matches(cxt, limit, path_list, answers, m) == use_matches(
            cxt,
            limit,
            path_list,
            answers,
            n,
        ),
    decreases m - n,
{
    if n < m {
        lemma_use_done_stays(cxt, limit, path_list, answers, n, m - 1);
    }
}

/// Where the resolver has nothing to give for any item, the first `n` items bring in
/// nothing.
proof fn lemma_use_matches_silent(
    cxt: MatchCxt,
    limit: Option<usize>,
    path_list: Seq<PathAlias>,
    answers: Seq<Seq<MatchView>>,
    n: int,
)
    requires
        forall|j: int| 0 <= j < n ==> (#[trigger] answers[j]).len() == 0,
    ensures
        use_matches(cxt, limit, path_list, answers, n).len() == 0,
    decreases n,
{
    if n > 0 {
        lemma_use_matches_silent(cxt, limit, path_list, answers, n - 1);
        assert(answers[n - 1].len() == 0);
    }
}

/// The statement that a call of `match_use` in a chain of such calls looks at, as
/// the pending imports name it.
pub open spec fn chain_import(cxts: Seq<MatchCxt>, k: int) -> (Seq<u8>, ByteRange) {
    (cxts[k].filepath@, cxts[k].range)
}

/// Whether `results` is what the calls of `match_use` give in a chain of imports
/// that leads back to its start. Call `k` looks at the statement of `cxts[k]`, as the
/// `use` statement `blobs[k]`; the last call looks at the statement of the first
/// again. Each call but the first is made by the resolver for the call before it: it
/// is given the pending imports `pending[k]` that the resolver was given, which are
/// those of the call before with its statement behind them; and what it gives is the
/// resolver's answer to every request of the call before.
pub open spec fn is_import_cycle(
    blobs: Seq<Seq<u8>>,
    cxts: Seq<MatchCxt>,
    limits: Seq<Option<usize>>,
    path_lists: Seq<Seq<PathAlias>>,
    answers: Seq<Seq<Seq<MatchView>>>,
    pending: Seq<Seq<(Seq<u8>, ByteRange)>>,
    results: Seq<Seq<MatchView>>,
) -> bool {
    let n = cxts.len() as int;
    &&& n >= 1
    &&& pending.len() == n + 1
    &&& results.len() == n + 1
    &&& forall|k: int|
        0 <= k < n ==> #[trigger] pending[k + 1] == pending[k].push(chain_import(cxts, k))
    &&& forall|k: int|
        0 <= k < n ==> (#[trigger] results[k]) == if pending[k].contains(chain_import(cxts, k)) {
            Seq::empty()
        } else {
            use_result(blobs[k], cxts[k], limits[k], path_lists[k], answers[k])
        }
    &&& pending[n].contains(chain_import(cxts, 0)) ==> results[n].len() == 0
    &&& forall|k: int, j: int|
        0 <= k < n && 0 <= j < path_lists[k].len() ==> (#[trigger] answers[k][j]) == results[k
            + 1]
}

/// The first statement of a chain stays pending in all calls behind the first.
proof fn lemma_cycle_start_pending(
    cxts: Seq<MatchCxt>,
    pending: Seq<Seq<(Seq<u8>, ByteRange)>>,
    k: int,
)
    requires
        1 <= k <= cxts.len(),
        pending.len() == cxts.len() + 1,
        forall|i: int|
            0 <= i < cxts.len() ==> #[trigger] pending[i + 1] == pending[i].push(
                chain_import(cxts, i),
            ),
    ensures
        pending[k].contains(chain_import(cxts, 0)),
    decreases k,
{
    let first = chain_import(cxts, 0);
    assert(pending[k - 1 + 1] == pending[k - 1].push(chain_import(cxts, k - 1)));
    if k == 1 {
        lemma_push_keeps_pending(pending[0], first, first);
    } else {
        lemma_cycle_start_pending(cxts, pending, k - 1);
        lemma_push_keeps_pending(pending[k - 1], chain_import(cxts, k - 1), first);
    }
}

/// In a chain of imports that leads back to its start, every call from call `k` on
/// gives nothing.
proof fn lemma_cycle_silent_from(
    blobs: Seq<Seq<u8>>,
    cxts: Seq<MatchCxt>,
    limits: Seq<Option<usize>>,
    path_lists: Seq<Seq<PathAlias>>,
    answers: Seq<Seq<Seq<MatchView>>>,
    pending: Seq<Seq<(Seq<u8>, ByteRange)>>,
    results: Seq<Seq<MatchView>>,
    k: int,
)
    requires
        is_import_cycle(blobs, cxts, limits, path_lists, answers, pending, results),
        0 <= k <= cxts.len(),
    ensures
        results[k].len() == 0,
    decreases cxts.len() - k,
{
    let n = cxts.len() as int;
    if k == n {
        lemma_cycle_start_pending(cxts, pending, n);
    } else {
        lemma_cycle_silent_from(blobs, cxts, limits, path_lists, answers, pending, results, k + 1);
        assert(results[k] == if pending[k].contains(chain_import(cxts, k)) {
            Seq::<MatchView>::empty()
        } else {
            use_result(blobs[k], cxts[k], limits[k], path_lists[k], answers[k])
        });
        assert forall|j: int| 0 <= j < path_lists[k].len() implies (#[trigger] answers[k][j]).len()
            == 0 by {
            assert(answers[k][j] == results[k + 1]);
        }
        lemma_use_matches_silent(
            cxts[k],
            limits[k],
            path_lists[k],
            answers[k],
            path_lists[k].len() as int,
        );
    }
}

/// A `use` statement that imports itself, directly or through any number of other
/// `use` statements, brings in nothing: where the resolver, asked for a statement of
/// the chain, answers with what `match_use` gives for the next, and the last leads
/// back to the first, the call on the first gives no match.
pub proof fn lemma_import_cycle(
    blobs: Seq<Seq<u8>>,
    cxts: Seq<MatchCxt>,
    limits: Seq<Option<usize>>,
    path_lists: Seq<Seq<PathAlias>>,
    answers: Seq<Seq<Seq<MatchView>>>,
    pending: Seq<Seq<(Seq<u8>, ByteRange)>>,
    results: Seq<Seq<MatchView>>,
)
    requires
        is_import_cycle(blobs, cxts, limits, path_lists, answers, pending, results),
    ensures
        results[0].len() == 0,
{
    lemma_cycle_silent_from(blobs, cxts, limits, path_lists, answers, pending, results, 0);
}

/// The matches that the `use` statement of `context` brings in.
///
/// An import that is being resolved already gives no match: a chain of imports that
/// leads back to its start ends there. Else the import is pending while the resolver
/// is asked for each of its items, as `use_request` decides, and the matches are
/// taken as `absorb_use_results` says.
pub fn match_use<E: AstParser + PathResolver>(
    msrc: &[u8],
    context: &MatchCxt,
    env: &E,
    import_info: &ImportInfo,
) -> (r: Vec<Match>)
    requires
        context.range.fits(msrc@.len() as int),
    ensures
        import_info.spec_contains(context.filepath@, context.range) ==> r@.len() == 0,
        !is_use_stmt(context.blob(msrc@)) ==> r@.len() == 0,
        exists|path_list: Seq<PathAlias>, answers: Seq<Seq<MatchView>>|
            match_views(r@) == #[trigger] use_result(
                context.blob(msrc@),
                *context,
                import_info.glob_limit,
                path_list,
                answers,
            ),
{
    let mut out: Vec<Match> = Vec::new();
    let blob = &msrc[context.range.start.0..context.range.end.0];
    let ghost limit = import_info.glob_limit;
    let ghost none = Seq::<PathAlias>::empty();
    let ghost silent = Seq::<Seq<MatchView>>::empty();
    proof {
        assert(use_matches(*context, limit, none, silent, 0) == Seq::<MatchView>::empty());
        assert(match_views(out@) =~= Seq::<MatchView>::empty());
        assert(match_views(out@) == use_result(
            context.blob(msrc@),
            *context,
            import_info.glob_limit,
            none,
            silent,
        ));
    }
    if import_info.contains(context.filepath, context.range) {
        return out;
    }
    let ignore: [&[u8]; 0] = [];
    let nothing: [u8; 0] = [];
    proof {
        assert(word_views(ignore@) =~= Seq::<Seq<u8>>::empty());
        assert(nothing@ =~= Seq::<u8>::empty());
    }
    if find_keyword_impl(
        blob,
        "use".as_bytes(),
        nothing.as_slice(),
        ignore.as_slice(),
        SearchType::StartsWith,
    ).is_none() {
        return out;
    }
    let path_list = env.parse_use(blob);
    if !contains_glob(path_list.as_slice()) && !txt_matches(
        context.search_type,
        context.search_str,
        blob,
    ) {
        proof {
            let silent = Seq::<Seq<MatchView>>::empty();
            assert(match_views(out@) =~= use_result(blob@, *context, limit, path_list@, silent));
        }
        return out;
    }
    let ghost mut answers: Seq<Seq<MatchView>> = Seq::empty();
    let mut i: usize = 0;
    proof {
        assert(match_views(out@) =~= use_matches(*context, limit, path_list@, answers, 0));
    }
    while i < path_list.len()
        invariant
            i <= path_list@.len(),
            blob@ == context.blob(msrc@),
            limit == import_info.glob_limit,
            !import_info.spec_contains(context.filepath@, context.range),
            is_use_stmt(context.blob(msrc@)),
            spec_contains_glob(path_list@) || spec_txt_matches(
                context.search_type,
                context.search_str@,
                blob@,
            ),
            answers.len() == i,
            !use_done(*context, limit, path_list@, answers, i as int),
            match_views(out@) == use_matches(*context, limit, path_list@, answers, i as int),
        decreases path_list@.len() - i,
    {
        let ghost before = answers;
        match use_request(&path_list[i], context, import_info.glob_limit) {
            Some(req) => {
                let pending = resolver_import_info(import_info, context, &req);
                let results = env.resolve_path(
                    &req.path,
                    req.filepath.as_slice(),
                    req.pos,
                    req.search_type,
                    req.namespace,
                    &pending,
                );
                let done = absorb_use_results(&req, &results, &mut out);
                proof {
                    answers = before.push(match_views(results@));
                    lemma_use_matches_prefix(
                        *context,
                        limit,
                        path_list@,
                        before,
                        answers,
                        i as int,
                    );
                    assert(match_views(out@) == use_matches(
                        *context,
                        limit,
                        path_list@,
                        answers,
                        i + 1,
                    ));
                }
                if done {
                    proof {
                        lemma_use_done_stays(
                            *context,
                            limit,
                            path_list@,
                            answers,
                            i + 1,
                            path_list@.len() as int,
                        );
                        assert(match_views(out@) == use_result(
                            context.blob(msrc@),
                            *context,
                            import_info.glob_limit,
                            path_list@,
                            answers,
                        ));
                    }
                    return out;
                }
            },
            None => {
                proof {
                    answers = before.push(Seq::empty());
                    lemma_use_matches_prefix(
                        *context,
                        limit,
                        path_list@,
                        before,
                        answers,
                        i as int,
                    );
                    assert(use_matches(*context, limit, path_list@, answers, i + 1)
                        =~= use_matches(*context, limit, path_list@, answers, i as int));
                }
            },
        }
        i += 1;
    }
    proof {
        assert(match_views(out@) == use_result(
            context.blob(msrc@),
            *context,
            import_info.glob_limit,
            path_list@,
            answers,
        ));
    }
    out
}

/// The matches in the type namespace for the statement of `context`: an external
/// crate, a module, a struct, a type alias, a trait, an enum, and what a `use`
/// statement brings in, in this order. Each is what its probe gives: for whatever the
/// collaborators answer where the probe asks them, and by the text alone for an
/// inline module, a type alias and a trait.
pub fn match_types<
    E: StatementIterator + AstParser + Session + DependencyResolver + PathResolver,
>(
    src: Src,
    context: &MatchCxt,
    env: &E,
    import_info: &ImportInfo,
) -> (r: Vec<Match>)
    requires
        src.wf(),
        context.range.fits(src.len() as int),
    ensures
        exists|
            names: Option<(Seq<u8>, Seq<u8>)>,
            file: Option<Seq<u8>>,
            text: Seq<u8>,
            module: Option<MatchView>,
            struct_generics: Seq<Seq<u8>>,
            enum_generics: Seq<Seq<u8>>,
            path_list: Seq<PathAlias>,
            answers: Seq<Seq<MatchView>>,
        |
            (spec_find_byte(context.blob(src.bytes()), 0x7b) is Some ==> module == spec_inline_mod(
                src.bytes(),
                *context,
            )) && match_views(r@) == #[trigger] type_matches(
                src.bytes(),
                *context,
                extern_crate_match(context.blob(src.bytes()), *context, names, file, text),
                module,
                struct_generics,
                enum_generics,
                use_result(
                    context.blob(src.bytes()),
                    *context,
                    import_info.glob_limit,
                    path_list,
                    answers,
                ),
            ),
{
    let text = src.as_bytes();
    let mut out: Vec<Match> = Vec::new();
    assert(match_views(out@) =~= Seq::<MatchView>::empty());
    let krate = match_extern_crate(text, context, env);
    let ghost krate_view = option_view(krate);
    push_found(&mut out, krate);
    let module = match_mod(src, context, env);
    let ghost module_view = option_view(module);
    push_found(&mut out, module);
    let found_struct = match_struct(text, context, env);
    let ghost struct_view = option_view(found_struct);
    proof {
        let generics = match struct_view {
            Some(m) => m.generic_args,
            None => Seq::empty(),
        };
        assert(struct_view == struct_match(src.bytes(), *context, generics));
    }
    push_found(&mut out, found_struct);
    push_found(&mut out, match_type(text, context));
    push_found(&mut out, match_trait(text, context));
    let found_enum = match_enum(text, context, env);
    let ghost enum_view = option_view(found_enum);
    proof {
        let generics = match enum_view {
            Some(m) => m.generic_args,
            None => Seq::empty(),
        };
        assert(enum_view == enum_match(src.bytes(), *context, generics));
    }
    push_found(&mut out, found_enum);
    let used = match_use(text, context, env, import_info);
    push_all(&mut out, used);
    proof {
        lemma_type_matches(
            src.bytes(),
            *context,
            import_info.glob_limit,
            krate_view,
            module_view,
            struct_view,
            enum_view,
            match_views(used@),
            match_views(out@),
        );
    }
    out
}

/// Puts the parts of `match_types` together: what each probe promises of its result
/// gives what is promised of the whole.
proof fn lemma_type_matches(
    src: Seq<u8>,
    cxt: MatchCxt,
    limit: Option<usize>,
    krate: Option<MatchView>,
    module: Option<MatchView>,
    found_struct: Option<MatchView>,
    found_enum: Option<MatchView>,
    used: Seq<MatchView>,
    all: Seq<MatchView>,
)
    requires
        exists|names: Option<(Seq<u8>, Seq<u8>)>, file: Option<Seq<u8>>, text: Seq<u8>|
            krate == #[trigger] extern_crate_match(cxt.blob(src), cxt, names, file, text),
        spec_find_byte(cxt.blob(src), 0x7b) is Some ==> module == spec_inline_mod(src, cxt),
        exists|generics: Seq<Seq<u8>>| found_struct == #[trigger] struct_match(src, cxt, generics),
        exists|generics: Seq<Seq<u8>>| found_enum == #[trigger] enum_match(src, cxt, generics),
        exists|path_list: Seq<PathAlias>, answers: Seq<Seq<MatchView>>|
            used == #[trigger] use_result(cxt.blob(src), cxt, limit, path_list, answers),
        all == option_seq(krate) + option_seq(module) + option_seq(found_struct) + option_seq(
            spec_match_type(src, cxt),
        ) + option_seq(spec_match_trait(src, cxt)) + option_seq(found_enum) + used,
    ensures
        exists|
            names: Option<(Seq<u8>, Seq<u8>)>,
            file: Option<Seq<u8>>,
            text: Seq<u8>,
            module_found: Option<MatchView>,
            struct_generics: Seq<Seq<u8>>,
            enum_generics: Seq<Seq<u8>>,
            path_list: Seq<PathAlias>,
            answers: Seq<Seq<MatchView>>,
        |
            (spec_find_byte(cxt.blob(src), 0x7b) is Some ==> module_found == spec_inline_mod(
                src,
                cxt,
            )) && all == #[trigger] type_matches(
                src,
                cxt,
                extern_crate_match(cxt.blob(src), cxt, names, file, text),
                module_found,
                struct_generics,
                enum_generics,
                use_result(cxt.blob(src), cxt, limit, path_list, answers),
            ),
{
    let (names, file, text) = choose|
        names: Option<(Seq<u8>, Seq<u8>)>,
        file: Option<Seq<u8>>,
        text: Seq<u8>,
    | krate == #[trigger] extern_crate_match(cxt.blob(src), cxt, names, file, text);
    let struct_generics = choose|generics: Seq<Seq<u8>>|
        found_struct == #[trigger] struct_match(src, cxt, generics);
    let enum_generics = choose|generics: Seq<Seq<u8>>|
        found_enum == #[trigger] enum_match(src, cxt, generics);
    let (path_list, answers) = choose|path_list: Seq<PathAlias>, answers: Seq<Seq<MatchView>>|
        used == #[trigger] use_result(cxt.blob(src), cxt, limit, path_list, answers);
    assert(all == type_matches(
        src,
        cxt,
        extern_crate_match(cxt.blob(src), cxt, names, file, text),
        module,
        struct_generics,
        enum_generics,
        use_result(cxt.blob(src), cxt, limit, path_list, answers),
    ));
}

/// Puts a match, if there is one, behind the matches in `out`.
fn push_found(out: &mut Vec<Match>, found: Option<Match>)
    ensures
        match_views(final(out)@) == match_views(old(out)@) + option_seq(option_view(found)),
{
    match found {
        Some(m) => {
            assert(match_views(out@.push(m)) =~= match_views(out@) + seq![m@]);
            out.push(m);
        },
        None => {
            assert(match_views(out@) =~= match_views(out@) + Seq::<MatchView>::empty());
        },
    }
}

/// Puts the matches of `more` behind the matches in `out`.
fn push_all(out: &mut Vec<Match>, more: Vec<Match>)
    ensures
        match_views(final(out)@) == match_views(old(out)@) + match_views(more@),
{
    let mut more = more;
    let ghost added = more@;
    out.append(&mut more);
    assert(match_views(out@) =~= match_views(old(out)@) + match_views(added));
}

/// The match for the struct that the statement of `cxt` declares, with the generic
/// parameters `generics`.
pub open spec fn struct_match(src: Seq<u8>, cxt: MatchCxt, generics: Seq<Seq<u8>>) -> Option<MatchView> {
    keyword_match(
        src,
        cxt,
        "struct".spec_bytes(),
        Seq::empty(),
        MatchType::Struct,
        context_line(cxt.blob(src), ContextLine::Header),
        generics,
    )
}

/// The match for the enum that the statement of `cxt` declares, with the generic
/// parameters `generics`.
pub open spec fn enum_match(src: Seq<u8>, cxt: MatchCxt, generics: Seq<Seq<u8>>) -> Option<MatchView> {
    keyword_match(
        src,
        cxt,
        "enum".spec_bytes(),
        Seq::empty(),
        MatchType::Enum,
        context_line(cxt.blob(src), ContextLine::FirstLine),
        generics,
    )
}

/// The matches of the type probes for the statement of `cxt`, in the order of the
/// probes: `krate` is the match for an external crate and `module` that for a module,
/// `struct_generics` and `enum_generics` are the names that the parser reads for the
/// generic parameters of a struct and of an enum, and `used` is what a `use`
/// statement brings in.
pub open spec fn type_matches(
    src: Seq<u8>,
    cxt: MatchCxt,
    krate: Option<MatchView>,
    module: Option<MatchView>,
    struct_generics: Seq<Seq<u8>>,
    enum_generics: Seq<Seq<u8>>,
    used: Seq<MatchView>,
) -> Seq<MatchView> {
    option_seq(krate) + option_seq(module) + option_seq(struct_match(src, cxt, struct_generics))
        + option_seq(spec_match_type(src, cxt)) + option_seq(spec_match_trait(src, cxt))
        + option_seq(enum_match(src, cxt, enum_generics)) + used
}

} // verus!
