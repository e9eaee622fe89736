//! Byte classes and small searches on byte strings.

use vstd::prelude::*;
use crate::pos::BytePos;
use vstd::string::StringSliceAdditionalSpecFns;
use crate::symbols::{SearchType, Visibility};

verus! {

/// Space, tab, line feed and carriage return.
pub open spec fn spec_is_whitespace_byte(b: u8) -> bool {
    b == 0x20 || b == 0x09 || b == 0x0a || b == 0x0d
}

/// Says whether `b` is a space, a tab, a line feed or a carriage return.
#[verifier::when_used_as_spec(spec_is_whitespace_byte)]
pub fn is_whitespace_byte(b: u8) -> (r: bool)
    ensures
        r == spec_is_whitespace_byte(b),
{
    b == 0x20 || b == 0x09 || b == 0x0a || b == 0x0d
}

/// The whitespace of ASCII: space, and tab to carriage return.
pub open spec fn spec_is_space(b: u8) -> bool {
    b == 0x20 || (0x09 <= b && b <= 0x0d)
}

/// Says whether `b` is whitespace of ASCII.
#[verifier::when_used_as_spec(spec_is_space)]
pub fn is_space(b: u8) -> (r: bool)
    ensures
        r == spec_is_space(b),
{
    b == 0x20 || (0x09 <= b && b <= 0x0d)
}

/// Letters and digits of ASCII, and every byte of a multi-byte character.
pub open spec fn spec_is_alphanumeric(b: u8) -> bool {
    (0x30 <= b && b <= 0x39) || (0x41 <= b && b <= 0x5a) || (0x61 <= b && b <= 0x7a) || b
        >= 0x80
}

/// Says whether `b` is a letter or a digit, or part of a multi-byte character.
#[verifier::when_used_as_spec(spec_is_alphanumeric)]
pub fn is_alphanumeric(b: u8) -> (r: bool)
    ensures
        r == spec_is_alphanumeric(b),
{
    (0x30 <= b && b <= 0x39) || (0x41 <= b && b <= 0x5a) || (0x61 <= b && b <= 0x7a) || b >= 0x80
}

/// A byte of an identifier; `!` counts, so that a macro's name holds its bang.
pub open spec fn spec_is_ident_char(b: u8) -> bool {
    spec_is_alphanumeric(b) || b == 0x5f || b == 0x21
}

/// Says whether `b` is a byte of an identifier.
#[verifier::when_used_as_spec(spec_is_ident_char)]
pub fn is_ident_char(b: u8) -> (r: bool)
    ensures
        r == spec_is_ident_char(b),
{
    is_alphanumeric(b) || b == 0x5f || b == 0x21
}

/// A byte of a match pattern: identifier bytes but `!`, whitespace, `:` and `.`.
pub open spec fn spec_is_pattern_char(b: u8) -> bool {
    spec_is_alphanumeric(b) || spec_is_space(b) || b == 0x5f || b == 0x3a || b == 0x2e
}

/// Says whether `b` is a byte of a match pattern.
#[verifier::when_used_as_spec(spec_is_pattern_char)]
pub fn is_pattern_char(b: u8) -> (r: bool)
    ensures
        r == spec_is_pattern_char(b),
{
    is_alphanumeric(b) || is_space(b) || b == 0x5f || b == 0x3a || b == 0x2e
}

/// A byte of a dotted or `::`-separated expression.
pub open spec fn spec_is_search_expr_char(b: u8) -> bool {
    spec_is_alphanumeric(b) || b == 0x5f || b == 0x3a || b == 0x2e
}

/// Says whether `b` is a byte of a dotted or `::`-separated expression.
#[verifier::when_used_as_spec(spec_is_search_expr_char)]
pub fn is_search_expr_char(b: u8) -> (r: bool)
    ensures
        r == spec_is_search_expr_char(b),
{
    is_alphanumeric(b) || b == 0x5f || b == 0x3a || b == 0x2e
}

/// Whether `needle` stands in `hay` at offset `at`.
pub open spec fn occurs_at(hay: Seq<u8>, needle: Seq<u8>, at: int) -> bool {
    &&& 0 <= at
    &&& at + needle.len() <= hay.len()
    &&& hay.subrange(at, at + needle.len()) == needle
}

/// Whether `hay` begins with `prefix`.
pub open spec fn spec_starts_with(hay: Seq<u8>, prefix: Seq<u8>) -> bool {
    occurs_at(hay, prefix, 0)
}

/// Says whether `needle` stands in `hay` at offset `at`.
pub fn matches_at(hay: &[u8], needle: &[u8], at: usize) -> (r: bool)
    ensures
        r == occurs_at(hay@, needle@, at as int),
{
    if at > hay.len() || needle.len() > hay.len() - at {
        return false;
    }
    let mut i: usize = 0;
    while i < needle.len()
        invariant
            i <= needle.len(),
            at + needle.len() <= hay.len(),
            forall|k: int| 0 <= k < i ==> hay@[at + k] == needle@[k],
        decreases needle.len() - i,
    {
        if hay[at + i] != needle[i] {
            proof {
                let sub = hay@.subrange(at as int, at + needle@.len());
                assert(sub[i as int] == hay@[at + i]);
            }
            return false;
        }
        i += 1;
    }
    proof {
        assert(hay@.subrange(at as int, at + needle@.len()) =~= needle@);
    }
    true
}

/// Says whether `hay` begins with `prefix`.
pub fn starts_with(hay: &[u8], prefix: &[u8]) -> (r: bool)
    ensures
        r == spec_starts_with(hay@, prefix@),
{
    matches_at(hay, prefix, 0)
}

/// The first offset at or after `from` where `needle` stands, if there is one.
pub open spec fn spec_find_from(hay: Seq<u8>, needle: Seq<u8>, from: int) -> Option<int>
    decreases hay.len() - from + 1,
{
    if from < 0 || from + needle.len() > hay.len() {
        None
    } else if occurs_at(hay, needle, from) {
        Some(from)
    } else {
        spec_find_from(hay, needle, from + 1)
    }
}

/// A found offset is the first one: the needle stands there and nowhere between
/// `from` and there; and where none is found, the needle stands nowhere from `from` on.
pub proof fn lemma_find_from(hay: Seq<u8>, needle: Seq<u8>, from: int)
    requires
        0 <= from,
    ensures
        match spec_find_from(hay, needle, from) {
            Some(at) => from <= at && occurs_at(hay, needle, at) && forall|k: int|
                from <= k < at ==> !occurs_at(hay, needle, k),
            None => forall|k: int| from <= k ==> !occurs_at(hay, needle, k),
        },
    decreases hay.len() - from + 1,
{
    if from + needle.len() > hay.len() {
    } else if occurs_at(hay, needle, from) {
    } else {
        lemma_find_from(hay, needle, from + 1);
    }
}

/// The first offset at or after `from` where `needle` stands.
pub fn find_from(hay: &[u8], needle: &[u8], from: usize) -> (r: Option<usize>)
    ensures
        r is Some == spec_find_from(hay@, needle@, from as int) is Some,
        r is Some ==> r.unwrap() as int == spec_find_from(hay@, needle@, from as int).unwrap(),
{
    if from > hay.len() || needle.len() > hay.len() - from {
        return None;
    }
    let last: usize = hay.len() - needle.len();
    let mut i: usize = from;
    loop
        invariant
            from <= i <= last,
            last == hay.len() - needle.len(),
            spec_find_from(hay@, needle@, from as int) == spec_find_from(hay@, needle@, i as int),
        decreases last - i,
    {
        if matches_at(hay, needle, i) {
            return Some(i);
        }
        if i == last {
            assert(spec_find_from(hay@, needle@, i + 1) is None);
            return None;
        }
        i += 1;
    }
}

/// The first offset where `needle` stands.
pub open spec fn spec_find(hay: Seq<u8>, needle: Seq<u8>) -> Option<int> {
    spec_find_from(hay, needle, 0)
}

/// Finds the first offset where `needle` stands.
pub fn find(hay: &[u8], needle: &[u8]) -> (r: Option<usize>)
    ensures
        r is Some == spec_find(hay@, needle@) is Some,
        r is Some ==> r.unwrap() as int == spec_find(hay@, needle@).unwrap(),
{
    find_from(hay, needle, 0)
}

/// The first offset at or after `from` that holds the byte `b`.
pub open spec fn spec_find_byte_from(hay: Seq<u8>, b: u8, from: int) -> Option<int>
    decreases hay.len() - from,
{
    if from < 0 || from >= hay.len() {
        None
    } else if hay[from] == b {
        Some(from)
    } else {
        spec_find_byte_from(hay, b, from + 1)
    }
}

/// A found offset holds the byte and is the first to do so; where none is found, no
/// offset from `from` on holds it.
pub proof fn lemma_find_byte_from(hay: Seq<u8>, b: u8, from: int)
    requires
        0 <= from,
    ensures
        match spec_find_byte_from(hay, b, from) {
            Some(at) => from <= at < hay.len() && hay[at] == b && forall|k: int|
                from <= k < at ==> hay[k] != b,
            None => forall|k: int| from <= k < hay.len() ==> hay[k] != b,
        },
    decreases hay.len() - from,
{
    if from < hay.len() && hay[from] != b {
        lemma_find_byte_from(hay, b, from + 1);
    }
}

/// Finds the first offset at or after `from` that holds the byte `b`.
pub fn find_byte_from(hay: &[u8], b: u8, from: usize) -> (r: Option<usize>)
    ensures
        r is Some == spec_find_byte_from(hay@, b, from as int) is Some,
        r is Some ==> r.unwrap() as int == spec_find_byte_from(hay@, b, from as int).unwrap(),
{
    let mut i: usize = from;
    while i < hay.len()
        invariant
            from <= i,
            spec_find_byte_from(hay@, b, from as int) == spec_find_byte_from(hay@, b, i as int),
        decreases hay.len() - i,
    {
        if hay[i] == b {
            return Some(i);
        }
        i += 1;
    }
    None
}

/// The first offset that holds the byte `b`.
pub open spec fn spec_find_byte(hay: Seq<u8>, b: u8) -> Option<int> {
    spec_find_byte_from(hay, b, 0)
}

/// Finds the first offset that holds the byte `b`.
pub fn find_byte(hay: &[u8], b: u8) -> (r: Option<usize>)
    ensures
        r is Some == spec_find_byte(hay@, b) is Some,
        r is Some ==> r.unwrap() as int == spec_find_byte(hay@, b).unwrap(),
{
    find_byte_from(hay, b, 0)
}

/// The first offset at or after `from` that holds no whitespace byte, or the length.
pub open spec fn skip_whitespace(s: Seq<u8>, from: int) -> int
    decreases s.len() - from,
{
    if from < 0 || from >= s.len() {
        from
    } else if spec_is_whitespace_byte(s[from]) {
        skip_whitespace(s, from + 1)
    } else {
        from
    }
}

/// The offset found lies in the text at or after `from`; only whitespace stands
/// between `from` and it, and none at it.
pub proof fn lemma_skip_whitespace(s: Seq<u8>, from: int)
    requires
        0 <= from <= s.len(),
    ensures
        from <= skip_whitespace(s, from) <= s.len(),
        forall|k: int| from <= k < skip_whitespace(s, from) ==> spec_is_whitespace_byte(s[k]),
        skip_whitespace(s, from) < s.len() ==> !spec_is_whitespace_byte(
            s[skip_whitespace(s, from)],
        ),
    decreases s.len() - from,
{
    if from < s.len() && spec_is_whitespace_byte(s[from]) {
        lemma_skip_whitespace(s, from + 1);
    }
}

/// Skips the whitespace bytes that `s` holds from `from` on.
pub fn skip_whitespace_from(s: &[u8], from: usize) -> (r: usize)
    requires
        from <= s.len(),
    ensures
        r as int == skip_whitespace(s@, from as int),
        from <= r <= s.len(),
{
    let mut i: usize = from;
    while i < s.len() && is_whitespace_byte(s[i])
        invariant
            from <= i <= s.len(),
            skip_whitespace(s@, from as int) == skip_whitespace(s@, i as int),
        decreases s.len() - i,
    {
        i += 1;
    }
    i
}

/// The first offset at or after `from` that holds no identifier byte, or the length.
pub open spec fn ident_end(s: Seq<u8>, from: int) -> int
    decreases s.len() - from,
{
    if from < 0 || from >= s.len() {
        from
    } else if spec_is_ident_char(s[from]) {
        ident_end(s, from + 1)
    } else {
        from
    }
}

/// Where the identifier that covers `pos` ends.
pub fn find_ident_end(s: &[u8], pos: BytePos) -> (r: BytePos)
    requires
        pos.0 <= s.len(),
    ensures
        r.0 as int == ident_end(s@, pos.0 as int),
        pos.0 <= r.0 <= s.len(),
{
    let mut i: usize = pos.0;
    while i < s.len() && is_ident_char(s[i])
        invariant
            pos.0 <= i <= s.len(),
            ident_end(s@, pos.0 as int) == ident_end(s@, i as int),
        decreases s.len() - i,
    {
        i += 1;
    }
    BytePos(i)
}

/// The bytes of `a` with the bytes of `b` behind them.
pub fn concat(a: &[u8], b: &[u8]) -> (r: Vec<u8>)
    ensures
        r@ == a@ + b@,
{
    let mut out = vstd::slice::slice_to_vec(a);
    let mut tail = vstd::slice::slice_to_vec(b);
    out.append(&mut tail);
    out
}

/// Whether the two byte strings are the same.
pub fn bytes_eq(a: &[u8], b: &[u8]) -> (r: bool)
    ensures
        r == (a@ == b@),
{
    if a.len() != b.len() {
        return false;
    }
    let r = matches_at(a, b, 0);
    proof {
        assert(a@.subrange(0, a@.len() as int) =~= a@);
    }
    r
}

/// Whether no identifier byte stands just before offset `at`.
pub open spec fn word_starts_at(hay: Seq<u8>, at: int) -> bool {
    at == 0 || !spec_is_ident_char(hay[at - 1])
}

/// Whether no identifier byte stands at offset `end`.
pub open spec fn word_ends_at(hay: Seq<u8>, end: int) -> bool {
    end == hay.len() || !spec_is_ident_char(hay[end])
}

/// Whether `needle` stands in `hay` at `at` as the search asks: at the start of a
/// word, and for an exact match also up to the end of one.
pub open spec fn matches_word_at(stype: SearchType, needle: Seq<u8>, hay: Seq<u8>, at: int) -> bool {
    &&& occurs_at(hay, needle, at)
    &&& word_starts_at(hay, at)
    &&& stype == SearchType::ExactMatch ==> word_ends_at(hay, at + needle.len())
}

/// Whether `hay` holds `needle` somewhere as a word (exact match) or as the start of
/// one (prefix match). The empty needle is found in every text.
pub open spec fn spec_txt_matches(stype: SearchType, needle: Seq<u8>, hay: Seq<u8>) -> bool {
    needle.len() == 0 || exists|at: int| #[trigger] matches_word_at(stype, needle, hay, at)
}

/// Says whether `hay` holds `needle` as the search asks.
pub fn txt_matches(stype: SearchType, needle: &[u8], hay: &[u8]) -> (r: bool)
    ensures
        r == spec_txt_matches(stype, needle@, hay@),
{
    if needle.len() == 0 {
        return true;
    }
    let mut n: usize = 0;
    loop
        invariant
            needle@.len() > 0,
            forall|k: int| 0 <= k < n ==> !matches_word_at(stype, needle@, hay@, k),
        decreases hay.len() + 1 - n,
    {
        proof {
            lemma_find_from(hay@, needle@, n as int);
        }
        match find_from(hay, needle, n) {
            None => {
                assert forall|k: int| !matches_word_at(stype, needle@, hay@, k) by {
                    if k >= n {
                        assert(!occurs_at(hay@, needle@, k));
                    }
                }
                return false;
            },
            Some(at) => {
                let starts = at == 0 || !is_ident_char(hay[at - 1]);
                let ends = match stype {
                    SearchType::StartsWith => true,
                    SearchType::ExactMatch => at + needle.len() == hay.len() || !is_ident_char(
                        hay[at + needle.len()],
                    ),
                };
                if starts && ends {
                    assert(matches_word_at(stype, needle@, hay@, at as int));
                    return true;
                }
                n = at + 1;
            },
        }
    }
}

/// Whether a candidate name answers the search: it is the search string, or begins
/// with it.
pub open spec fn spec_symbol_matches(stype: SearchType, searchstr: Seq<u8>, candidate: Seq<u8>) -> bool {
    match stype {
        SearchType::ExactMatch => searchstr == candidate,
        SearchType::StartsWith => spec_starts_with(candidate, searchstr),
    }
}

/// Holds a candidate name against the search.
pub fn symbol_matches(stype: SearchType, searchstr: &[u8], candidate: &[u8]) -> (r: bool)
    ensures
        r == spec_symbol_matches(stype, searchstr@, candidate@),
{
    match stype {
        SearchType::ExactMatch => bytes_eq(searchstr, candidate),
        SearchType::StartsWith => starts_with(candidate, searchstr),
    }
}

/// How far a leading `word` and the whitespace behind it reach: the word must be
/// followed by at least one whitespace byte.
pub open spec fn spec_strip_word(s: Seq<u8>, word: Seq<u8>) -> Option<int> {
    if spec_starts_with(s, word) && word.len() < s.len() && spec_is_whitespace_byte(
        s[word.len() as int],
    ) {
        Some(skip_whitespace(s, word.len() as int))
    } else {
        None
    }
}

/// Strips a leading `word` and the whitespace behind it.
pub fn strip_word(s: &[u8], word: &[u8]) -> (r: Option<BytePos>)
    ensures
        r is Some == spec_strip_word(s@, word@) is Some,
        r is Some ==> r.unwrap().0 as int == spec_strip_word(s@, word@).unwrap(),
        r is Some ==> word@.len() < r.unwrap().0 <= s@.len(),
{
    if starts_with(s, word) && word.len() < s.len() && is_whitespace_byte(s[word.len()]) {
        proof {
            lemma_skip_whitespace(s@, word@.len() as int);
            assert(skip_whitespace(s@, word@.len() as int) == skip_whitespace(
                s@,
                word@.len() as int + 1,
            ));
            lemma_skip_whitespace(s@, word@.len() as int + 1);
        }
        Some(BytePos(skip_whitespace_from(s, word.len())))
    } else {
        None
    }
}

/// The bytes of each word of a list.
pub open spec fn word_views(words: Seq<&[u8]>) -> Seq<Seq<u8>> {
    Seq::new(words.len(), |i: int| words[i]@)
}

/// The first word of `words`, from index `i` on, that can be stripped from `s`.
pub open spec fn first_strippable(s: Seq<u8>, words: Seq<Seq<u8>>, i: int) -> Option<int>
    decreases words.len() - i,
{
    if i < 0 || i >= words.len() {
        None
    } else if spec_strip_word(s, words[i]) is Some {
        spec_strip_word(s, words[i])
    } else {
        first_strippable(s, words, i + 1)
    }
}

/// How far leading words of `words`, each with the whitespace behind it, reach from
/// `start` on: words are stripped, the first that fits each time, until none fits.
pub open spec fn spec_strip_words(s: Seq<u8>, words: Seq<Seq<u8>>, start: int) -> int
    decreases s.len() - start,
{
    if start < 0 || start >= s.len() {
        start
    } else {
        match first_strippable(s.subrange(start, s.len() as int), words, 0) {
            Some(k) => if 0 < k <= s.len() - start {
                spec_strip_words(s, words, start + k)
            } else {
                start
            },
            None => start,
        }
    }
}

fn strip_first_word(s: &[u8], words: &[&[u8]]) -> (r: Option<BytePos>)
    ensures
        r is Some == first_strippable(s@, word_views(words@), 0) is Some,
        r is Some ==> r.unwrap().0 as int == first_strippable(s@, word_views(words@), 0).unwrap(),
        r is Some ==> 0 < r.unwrap().0 <= s@.len(),
{
    let mut i: usize = 0;
    while i < words.len()
        invariant
            i <= words.len(),
            first_strippable(s@, word_views(words@), 0) == first_strippable(
                s@,
                word_views(words@),
                i as int,
            ),
        decreases words.len() - i,
    {
        let r = strip_word(s, words[i]);
        if r.is_some() {
            return r;
        }
        i += 1;
    }
    None
}

/// Strips leading words of `words` from `s`, and says how many bytes they take.
pub fn strip_words(s: &[u8], words: &[&[u8]]) -> (r: BytePos)
    ensures
        r.0 as int == spec_strip_words(s@, word_views(words@), 0),
        r.0 <= s@.len(),
{
    let mut start: usize = 0;
    while start < s.len()
        invariant
            start <= s.len(),
            spec_strip_words(s@, word_views(words@), 0) == spec_strip_words(
                s@,
                word_views(words@),
                start as int,
            ),
        decreases s.len() - start,
    {
        let rest = &s[start..s.len()];
        match strip_first_word(rest, words) {
            Some(k) => {
                start = start + k.0;
            },
            None => {
                return BytePos(start);
            },
        }
    }
    BytePos(start)
}

/// The modifier that `s` begins with, and how far it and the whitespace behind it
/// reach. `pub` must be followed by whitespace or by a parenthesised restriction.
pub open spec fn spec_strip_visibility(s: Seq<u8>) -> Option<(int, Visibility)> {
    if !spec_starts_with(s, "pub".spec_bytes()) || s.len() <= 3 {
        None
    } else if spec_is_whitespace_byte(s[3]) {
        Some((skip_whitespace(s, 3), Visibility::Public))
    } else if s[3] == 0x28 {
        match spec_find_byte_from(s, 0x29, 4) {
            Some(close) => Some(
                (
                    skip_whitespace(s, close + 1),
                    if s.subrange(4, close) == "crate".spec_bytes() {
                        Visibility::Crate
                    } else {
                        Visibility::Restricted
                    },
                ),
            ),
            None => None,
        }
    } else {
        None
    }
}

/// The length of an ASCII literal in bytes is its length in characters.
proof fn lemma_ascii_bytes(s: &str)
    requires
        s.is_ascii(),
    ensures
        s.spec_bytes().len() == s@.len(),
        forall|i: int| 0 <= i < s@.len() ==> s.spec_bytes()[i] == s@[i] as u8,
{
    vstd::string::is_ascii_spec_bytes(s);
}

/// Strips a leading visibility modifier and the whitespace behind it.
pub fn strip_visibility(s: &[u8]) -> (r: Option<(BytePos, Visibility)>)
    ensures
        r is Some == spec_strip_visibility(s@) is Some,
        r is Some ==> r.unwrap().0.0 as int == spec_strip_visibility(s@).unwrap().0
            && r.unwrap().1 == spec_strip_visibility(s@).unwrap().1,
        r is Some ==> 3 < r.unwrap().0.0 <= s@.len(),
{
    proof {
        reveal_strlit("pub");
        lemma_ascii_bytes("pub");
    }
    if !starts_with(s, "pub".as_bytes()) || s.len() <= 3 {
        return None;
    }
    if is_whitespace_byte(s[3]) {
        proof {
            lemma_skip_whitespace(s@, 4);
        }
        return Some((BytePos(skip_whitespace_from(s, 3)), Visibility::Public));
    }
    if s[3] != 0x28 {
        return None;
    }
    proof {
        lemma_find_byte_from(s@, 0x29, 4);
    }
    match find_byte_from(s, 0x29, 4) {
        None => None,
        Some(close) => {
            let inner = &s[4..close];
            let vis = if bytes_eq(inner, "crate".as_bytes()) {
                Visibility::Crate
            } else {
                Visibility::Restricted
            };
            Some((BytePos(skip_whitespace_from(s, close + 1)), vis))
        },
    }
}

/// The first offset from `from` on, and before `to`, that holds no ASCII whitespace;
/// `to` where all of it is whitespace.
pub open spec fn trim_start(s: Seq<u8>, from: int, to: int) -> int
    decreases to - from,
{
    if from >= to || from < 0 || to > s.len() {
        to
    } else if spec_is_space(s[from]) {
        trim_start(s, from + 1, to)
    } else {
        from
    }
}

/// The offset behind the last byte before `to`, and not before `from`, that is no
/// ASCII whitespace; `from` where all of it is whitespace.
pub open spec fn trim_end(s: Seq<u8>, from: int, to: int) -> int
    decreases to - from,
{
    if from >= to || from < 0 || to > s.len() {
        from
    } else if spec_is_space(s[to - 1]) {
        trim_end(s, from, to - 1)
    } else {
        to
    }
}

/// Skips the ASCII whitespace that `s` holds from `from` on, up to `to`.
pub fn trim_start_in(s: &[u8], from: usize, to: usize) -> (r: usize)
    requires
        from <= to <= s@.len(),
    ensures
        r as int == trim_start(s@, from as int, to as int),
        from <= r <= to,
{
    let mut i: usize = from;
    while i < to && is_space(s[i])
        invariant
            from <= i <= to <= s.len(),
            trim_start(s@, from as int, to as int) == trim_start(s@, i as int, to as int),
        decreases to - i,
    {
        i += 1;
    }
    i
}

/// Drops the ASCII whitespace that `s` holds before `to`, back to `from`.
pub fn trim_end_in(s: &[u8], from: usize, to: usize) -> (r: usize)
    requires
        from <= to <= s@.len(),
    ensures
        r as int == trim_end(s@, from as int, to as int),
        from <= r <= to,
{
    let mut i: usize = to;
    while i > from && is_space(s[i - 1])
        invariant
            from <= i <= to <= s.len(),
            trim_end(s@, from as int, to as int) == trim_end(s@, from as int, i as int),
        decreases i,
    {
        i -= 1;
    }
    i
}

/// The range of `s` between `from` and `to` without the ASCII whitespace at its ends.
pub open spec fn trimmed(s: Seq<u8>, from: int, to: int) -> Seq<u8> {
    s.subrange(trim_start(s, from, to), trim_end(s, trim_start(s, from, to), to))
}

/// The first offset from `from` on that holds a `:` or ASCII whitespace.
pub open spec fn name_end(s: Seq<u8>, from: int) -> Option<int>
    decreases s.len() - from,
{
    if from < 0 || from >= s.len() {
        None
    } else if s[from] == 0x3a || spec_is_space(s[from]) {
        Some(from)
    } else {
        name_end(s, from + 1)
    }
}

/// An end that is found lies in the text, at or after `from`.
proof fn lemma_name_end(s: Seq<u8>, from: int)
    requires
        0 <= from,
    ensures
        name_end(s, from) is Some ==> from <= name_end(s, from).unwrap() < s.len(),
    decreases s.len() - from,
{
    if from < s.len() && !(s[from] == 0x3a || spec_is_space(s[from])) {
        lemma_name_end(s, from + 1);
    }
}

/// Finds where a name ends that begins at `from`.
pub fn find_name_end(s: &[u8], from: usize) -> (r: Option<usize>)
    ensures
        r is Some == name_end(s@, from as int) is Some,
        r is Some ==> r.unwrap() as int == name_end(s@, from as int).unwrap(),
        r is Some ==> from <= r.unwrap() < s@.len(),
{
    let mut i: usize = from;
    proof {
        lemma_name_end(s@, from as int);
    }
    while i < s.len()
        invariant
            from <= i,
            name_end(s@, from as int) == name_end(s@, i as int),
        decreases s.len() - i,
    {
        if s[i] == 0x3a || is_space(s[i]) {
            return Some(i);
        }
        i += 1;
    }
    None
}

/// The length of `s` without the `!` at its end, however many there are.
pub open spec fn without_bangs(s: Seq<u8>, to: int) -> int
    decreases to,
{
    if to <= 0 || to > s.len() {
        0
    } else if s[to - 1] == 0x21 {
        without_bangs(s, to - 1)
    } else {
        to
    }
}

/// Drops the `!` at the end of `s`, however many there are.
pub fn trim_bangs(s: &[u8]) -> (r: &[u8])
    ensures
        r@ == s@.subrange(0, without_bangs(s@, s@.len() as int)),
{
    let mut to: usize = s.len();
    while to > 0 && s[to - 1] == 0x21
        invariant
            to <= s.len(),
            without_bangs(s@, s@.len() as int) == without_bangs(s@, to as int),
        decreases to,
    {
        to -= 1;
    }
    &s[0..to]
}

} // verus!
