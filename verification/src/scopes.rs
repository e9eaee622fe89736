//! Scanners for the boundaries of scopes, statements, expressions and patterns.

use vstd::prelude::*;
use vstd::slice::slice_to_vec;
use vstd::string::StringSliceAdditionalSpecFns;
use crate::collab::{AstParser, Session, StatementIterator};
use crate::fileres::{asked_in_order, first_file, option_bytes, picked, place_views};
use crate::matchers::name_views;
use crate::pos::{BytePos, ByteRange};
use crate::source::{in_chunk, Src};
use crate::symbols::CompletionType;
use crate::text::{
    find_byte, find_byte_from, lemma_find_byte_from, spec_find_byte, spec_find_byte_from,
    spec_starts_with, starts_with, find_ident_end, ident_end, is_ident_char, is_pattern_char, is_search_expr_char, is_space,
    spec_is_ident_char, spec_is_pattern_char, spec_is_search_expr_char, spec_is_space,
};

verus! {

/// Where a forward scan from offset `i`, begun `levels` deep in nested brackets, finds
/// the closing byte it looks for: the first `close` met at depth `level_end`. A `close`
/// met at depth zero first ends the scan without a result.
pub open spec fn close_from(
    s: Seq<u8>,
    open: u8,
    close: u8,
    level_end: nat,
    i: int,
    levels: nat,
) -> Option<int>
    decreases s.len() - i,
{
    if i < 0 || i >= s.len() {
        None
    } else if s[i] == close {
        if levels == level_end {
            Some(i)
        } else if levels == 0 {
            None
        } else {
            close_from(s, open, close, level_end, i + 1, (levels - 1) as nat)
        }
    } else if s[i] == open {
        close_from(s, open, close, level_end, i + 1, levels + 1)
    } else {
        close_from(s, open, close, level_end, i + 1, levels)
    }
}

/// A closing byte that is found lies in the text, at or after the start of the scan.
pub proof fn lemma_close_from(s: Seq<u8>, open: u8, close: u8, level_end: nat, i: int, levels: nat)
    requires
        0 <= i,
    ensures
        close_from(s, open, close, level_end, i, levels) is Some ==> {
            let at = close_from(s, open, close, level_end, i, levels).unwrap();
            i <= at < s.len() && s[at] == close
        },
    decreases s.len() - i,
{
    if i < s.len() {
        if s[i] == close {
            if levels != level_end && levels != 0 {
                lemma_close_from(s, open, close, level_end, i + 1, (levels - 1) as nat);
            }
        } else if s[i] == open {
            lemma_close_from(s, open, close, level_end, i + 1, levels + 1);
        } else {
            lemma_close_from(s, open, close, level_end, i + 1, levels);
        }
    }
}

/// Scans `bytes` forward for the `close` that stands at depth `level_end`.
pub fn find_close(bytes: &[u8], open: u8, close: u8, level_end: usize) -> (r: Option<BytePos>)
    ensures
        r is Some == close_from(bytes@, open, close, level_end as nat, 0, 0) is Some,
        r is Some ==> r.unwrap().0 as int == close_from(
            bytes@,
            open,
            close,
            level_end as nat,
            0,
            0,
        ).unwrap(),
        r is Some ==> r.unwrap().0 < bytes@.len() && bytes@[r.unwrap().0 as int] == close,
{
    let mut levels: usize = 0;
    let mut i: usize = 0;
    proof {
        lemma_close_from(bytes@, open, close, level_end as nat, 0, 0);
    }
    while i < bytes.len()
        invariant
            i <= bytes.len(),
            levels <= i,
            close_from(bytes@, open, close, level_end as nat, 0, 0) == close_from(
                bytes@,
                open,
                close,
                level_end as nat,
                i as int,
                levels as nat,
            ),
        decreases bytes.len() - i,
    {
        let b = bytes[i];
        if b == close {
            if levels == level_end {
                return Some(BytePos(i));
            }
            if levels == 0 {
                return None;
            }
            levels -= 1;
        } else if b == open {
            levels += 1;
        }
        i += 1;
    }
    None
}

/// Where a backward scan from offset `end`, begun `levels` deep in nested brackets,
/// finds the opening byte that nothing before `end` closes. The scan reads the bytes
/// before `end` from the last to the first.
pub open spec fn open_before(s: Seq<u8>, open: u8, close: u8, end: int, levels: nat) -> Option<int>
    decreases end,
{
    if end <= 0 || end > s.len() {
        None
    } else if s[end - 1] == open {
        if levels == 0 {
            Some(end - 1)
        } else {
            open_before(s, open, close, end - 1, (levels - 1) as nat)
        }
    } else if s[end - 1] == close {
        open_before(s, open, close, end - 1, levels + 1)
    } else {
        open_before(s, open, close, end - 1, levels)
    }
}

/// An opening byte that is found lies in the text, before the start of the scan.
pub proof fn lemma_open_before(s: Seq<u8>, open: u8, close: u8, end: int, levels: nat)
    requires
        end <= s.len(),
    ensures
        open_before(s, open, close, end, levels) is Some ==> {
            let at = open_before(s, open, close, end, levels).unwrap();
            0 <= at < end && s[at] == open
        },
    decreases end,
{
    if end > 0 {
        if s[end - 1] == open {
            if levels != 0 {
                lemma_open_before(s, open, close, end - 1, (levels - 1) as nat);
            }
        } else if s[end - 1] == close {
            lemma_open_before(s, open, close, end - 1, levels + 1);
        } else {
            lemma_open_before(s, open, close, end - 1, levels);
        }
    }
}

/// Scans the bytes before `from` backward for the `open` that nothing closes.
pub fn find_open_before(bytes: &[u8], open: u8, close: u8, from: BytePos) -> (r: Option<BytePos>)
    requires
        from.0 <= bytes@.len(),
    ensures
        r is Some == open_before(bytes@, open, close, from.0 as int, 0) is Some,
        r is Some ==> r.unwrap().0 as int == open_before(
            bytes@,
            open,
            close,
            from.0 as int,
            0,
        ).unwrap(),
        r is Some ==> r.unwrap().0 < from.0 && bytes@[r.unwrap().0 as int] == open,
{
    let mut levels: usize = 0;
    let mut end: usize = from.0;
    proof {
        lemma_open_before(bytes@, open, close, from.0 as int, 0);
    }
    while end > 0
        invariant
            end <= from.0 <= bytes.len(),
            levels <= from.0 - end,
            open_before(bytes@, open, close, from.0 as int, 0) == open_before(
                bytes@,
                open,
                close,
                end as int,
                levels as nat,
            ),
        decreases end,
    {
        let b = bytes[end - 1];
        if b == open {
            if levels == 0 {
                return Some(BytePos(end - 1));
            }
            levels -= 1;
        } else if b == close {
            levels += 1;
        }
        end -= 1;
    }
    None
}

/// Where the parenthesis closes that is open at `pos`: the first `)` from `pos` on that
/// no `(` from `pos` on opens; the length of the text where there is none.
pub open spec fn closing_paren(s: Seq<u8>, pos: int) -> int {
    match close_from(s.subrange(pos, s.len() as int), 0x28, 0x29, 0, 0, 0) {
        Some(count) => pos + count,
        None => s.len() as int,
    }
}

/// Finds the `)` that closes the parenthesis open at `pos`.
pub fn find_closing_paren(src: &[u8], pos: BytePos) -> (r: BytePos)
    requires
        pos.0 <= src@.len(),
    ensures
        r.0 as int == closing_paren(src@, pos.0 as int),
        pos.0 <= r.0 <= src@.len(),
{
    let rest = &src[pos.0..src.len()];
    match find_close(rest, 0x28, 0x29, 0) {
        Some(count) => BytePos(pos.0 + count.0),
        None => BytePos(src.len()),
    }
}

/// The text up to and including the `}` that closes the first `{` of `s`; empty where
/// that brace is never closed, or a `}` comes before any `{`.
pub open spec fn next_scope(s: Seq<u8>) -> Seq<u8> {
    match close_from(s, 0x7b, 0x7d, 1, 0, 0) {
        Some(count) => s.subrange(0, count + 1),
        None => Seq::empty(),
    }
}

/// Cuts the text off behind the `}` that closes its first block.
pub fn end_of_next_scope(src: &[u8]) -> (r: &[u8])
    ensures
        r@ == next_scope(src@),
{
    let n = src.len();
    match find_close(src, 0x7b, 0x7d, 1) {
        Some(count) => &src[0..count.0 + 1],
        None => &src[0..0],
    }
}

/// The offset of the last line feed before `point`, or zero where there is none.
pub open spec fn line_break_before(s: Seq<u8>, point: int) -> int
    decreases point,
{
    if point <= 0 || point > s.len() {
        0
    } else if s[point - 1] == 0x0a {
        point - 1
    } else {
        line_break_before(s, point - 1)
    }
}

/// Finds the line feed that ends the line before the line of `point`.
pub fn get_line(src: &[u8], point: BytePos) -> (r: BytePos)
    requires
        point.0 <= src@.len(),
    ensures
        r.0 as int == line_break_before(src@, point.0 as int),
        r.0 <= point.0,
{
    let mut i: usize = point.0;
    while i > 0
        invariant
            i <= point.0 <= src.len(),
            line_break_before(src@, point.0 as int) == line_break_before(src@, i as int),
        decreases i,
    {
        if src[i - 1] == 0x0a {
            return BytePos(i - 1);
        }
        i -= 1;
    }
    BytePos(0)
}

/// What stands for a byte in a masked text: the byte itself where it is kept or is a
/// line feed, a space otherwise.
pub open spec fn masked_byte(b: u8, keep: bool) -> u8 {
    if keep || b == 0x0a {
        b
    } else {
        0x20
    }
}

/// The view with its comments blanked: as long as the view, code bytes and line feeds
/// as they are, every other byte a space.
pub open spec fn comment_mask(src: Src) -> Seq<u8> {
    Seq::new(src.bytes().len(), |i: int| masked_byte(src.bytes()[i], src.is_code(i)))
}

/// Puts behind `result` what stands for the bytes of `bytes` from `start` up to `end`
/// when none of them is kept: a line feed for a line feed, a space for any other.
fn fill_gaps(bytes: &[u8], result: &mut Vec<u8>, start: usize, end: usize)
    requires
        start <= end <= bytes@.len(),
    ensures
        final(result)@ == old(result)@ + Seq::new(
            (end - start) as nat,
            |j: int| masked_byte(bytes@[start + j], false),
        ),
{
    let ghost gap = Seq::new((end - start) as nat, |j: int| masked_byte(bytes@[start + j], false));
    let mut i: usize = start;
    assert(result@ =~= old(result)@ + gap.take(0));
    while i < end
        invariant
            start <= i <= end <= bytes@.len(),
            gap == Seq::new((end - start) as nat, |j: int| masked_byte(bytes@[start + j], false)),
            result@ == old(result)@ + gap.take(i - start),
        decreases end - i,
    {
        result.push(if bytes[i] == 0x0a { 0x0au8 } else { 0x20u8 });
        assert(result@ =~= old(result)@ + gap.take(i + 1 - start));
        i += 1;
    }
    assert(gap.take(end - start) =~= gap);
}

/// Blanks the comments of a view, so that a scanner sees code only.
pub fn mask_comments(src: Src) -> (r: Vec<u8>)
    requires
        src.wf(),
    ensures
        r@ == comment_mask(src),
{
    let bytes = src.as_bytes();
    let n = bytes.len();
    let start = src.range.start.0;
    let mut out: Vec<u8> = Vec::with_capacity(n);
    fill_gaps(bytes, &mut out, 0, n);
    let chunks = &src.src.idx;
    let mut k: usize = 0;
    while k < chunks.len()
        invariant
            k <= chunks@.len(),
            src.wf(),
            chunks == &src.src.idx,
            bytes@ == src.bytes(),
            n == bytes@.len(),
            start == src.range.start.0,
            out@.len() == n,
            forall|j: int|
                0 <= j < n ==> out@[j] == masked_byte(
                    bytes@[j],
                    in_chunk(chunks@.take(k as int), start + j),
                ),
        decreases chunks@.len() - k,
    {
        let chunk = chunks[k];
        let lo: usize = if chunk.start.0 > start { chunk.start.0 } else { start };
        let hi: usize = if chunk.end.0 < src.range.end.0 { chunk.end.0 } else { src.range.end.0 };
        let mut p: usize = lo;
        while p < hi
            invariant
                lo <= p,
                p == lo || p <= hi,
                start <= lo,
                hi <= src.range.end.0,
                hi <= chunk.end.0,
                chunk.start.0 <= lo,
                k < chunks@.len(),
                chunk == chunks@[k as int],
                src.wf(),
                bytes@ == src.bytes(),
                n == bytes@.len(),
                start == src.range.start.0,
                out@.len() == n,
                forall|j: int|
                    0 <= j < n ==> out@[j] == masked_byte(
                        bytes@[j],
                        in_chunk(chunks@.take(k as int), start + j) || (lo <= start + j < p),
                    ),
            decreases hi - p,
        {
            out.set(p - start, bytes[p - start]);
            p += 1;
        }
        proof {
            let before = chunks@.take(k as int);
            let after = chunks@.take(k + 1);
            assert forall|j: int| 0 <= j < n implies out@[j] == masked_byte(
                bytes@[j],
                in_chunk(after, start + j),
            ) by {
                let here = chunk.covers(start + j);
                if in_chunk(before, start + j) {
                    let w = choose|w: int| 0 <= w < before.len() && #[trigger] before[w].covers(start + j);
                    assert(after[w] == before[w]);
                } else if here {
                    assert(after[k as int] == chunk);
                } else {
                    if in_chunk(after, start + j) {
                        let w = choose|w: int| 0 <= w < after.len() && #[trigger] after[w].covers(start + j);
                        if w < k {
                            assert(before[w] == after[w]);
                        }
                    }
                }
            }
        }
        k += 1;
    }
    proof {
        assert(chunks@.take(k as int) =~= chunks@);
        assert(out@ =~= comment_mask(src));
    }
    out
}

/// How many more `{` than `}` stand before offset `i`.
pub open spec fn brace_depth(s: Seq<u8>, i: int) -> int
    decreases i,
{
    if i <= 0 || i > s.len() {
        0
    } else if s[i - 1] == 0x7b {
        brace_depth(s, i - 1) + 1
    } else if s[i - 1] == 0x7d {
        brace_depth(s, i - 1) - 1
    } else {
        brace_depth(s, i - 1)
    }
}

/// Whether byte `i` lies inside a nested block: at least one brace is open before it,
/// and it is not the `}` that closes the outermost of them.
pub open spec fn in_sub_scope(s: Seq<u8>, i: int) -> bool {
    brace_depth(s, i) >= 1 && !(s[i] == 0x7d && brace_depth(s, i) == 1)
}

/// The text with the contents of its nested blocks blanked: as long as the text, the
/// bytes inside a nested block spaces, but for line feeds, and all others as they are.
pub open spec fn sub_scope_mask(s: Seq<u8>) -> Seq<u8> {
    Seq::new(s.len(), |i: int| masked_byte(s[i], !in_sub_scope(s, i)))
}

/// No more braces are open or closed before an offset than bytes stand before it.
proof fn lemma_brace_depth_bound(s: Seq<u8>, i: int)
    requires
        0 <= i <= s.len(),
    ensures
        -i <= brace_depth(s, i) <= i,
    decreases i,
{
    if i > 0 {
        lemma_brace_depth_bound(s, i - 1);
    }
}

/// Blanks the nested blocks of a text, so that a scanner sees its top level only.
pub fn mask_sub_scopes(src: &[u8]) -> (r: Vec<u8>)
    ensures
        r@ == sub_scope_mask(src@),
{
    let n = src.len();
    let mut out: Vec<u8> = Vec::with_capacity(n);
    let mut levels: i128 = 0;
    let mut i: usize = 0;
    while i < n
        invariant
            i <= n,
            n == src@.len(),
            out@.len() == i,
            levels == brace_depth(src@, i as int),
            forall|j: int| 0 <= j < i ==> out@[j] == masked_byte(src@[j], !in_sub_scope(src@, j)),
        decreases n - i,
    {
        proof {
            lemma_brace_depth_bound(src@, i as int);
        }
        let b = src[i];
        let inside = levels >= 1 && !(b == 0x7d && levels == 1);
        out.push(if !inside || b == 0x0a { b } else { 0x20u8 });
        if b == 0x7b {
            levels += 1;
        } else if b == 0x7d {
            levels -= 1;
        }
        i += 1;
    }
    proof {
        assert(out@ =~= sub_scope_mask(src@));
    }
    out
}

/// Masking keeps the length of the view; it keeps every byte of code and every line
/// feed, and puts a space for every other byte.
pub proof fn lemma_comment_mask(src: Src, i: int)
    requires
        0 <= i < src.bytes().len(),
    ensures
        comment_mask(src).len() == src.bytes().len(),
        src.is_code(i) ==> comment_mask(src)[i] == src.bytes()[i],
        src.bytes()[i] == 0x0a ==> comment_mask(src)[i] == 0x0a,
        !src.is_code(i) && src.bytes()[i] != 0x0a ==> comment_mask(src)[i] == 0x20,
{
}

/// The offset of the last byte before `end` that is no identifier byte.
pub open spec fn last_non_ident(s: Seq<u8>, end: int) -> Option<int>
    decreases end,
{
    if end <= 0 || end > s.len() {
        None
    } else if !spec_is_ident_char(s[end - 1]) {
        Some(end - 1)
    } else {
        last_non_ident(s, end - 1)
    }
}

fn find_last_non_ident(s: &[u8]) -> (r: Option<usize>)
    ensures
        r is Some == last_non_ident(s@, s@.len() as int) is Some,
        r is Some ==> r.unwrap() as int == last_non_ident(s@, s@.len() as int).unwrap(),
        r is Some ==> r.unwrap() < s@.len(),
{
    let mut end: usize = s.len();
    while end > 0
        invariant
            end <= s.len(),
            last_non_ident(s@, s@.len() as int) == last_non_ident(s@, end as int),
        decreases end,
    {
        if !is_ident_char(s[end - 1]) {
            return Some(end - 1);
        }
        end -= 1;
    }
    None
}

/// Whether the text can be split into what is completed and what it is completed in:
/// it cannot where its only separator is a `:` that is its first byte.
pub open spec fn splittable(s: Seq<u8>) -> bool {
    !(last_non_ident(s, s.len() as int) == Some(0int) && s[0] == 0x3a && s.len() > 1)
}

/// Where the context ends and the name to complete begins, and the kind of
/// completion: after the last `.` a field, after `::` or anything else a path.
pub open spec fn context_split(s: Seq<u8>) -> (int, int, CompletionType) {
    match last_non_ident(s, s.len() as int) {
        Some(i) => if s[i] == 0x2e {
            (i, i + 1, CompletionType::Field)
        } else if s[i] == 0x3a && s.len() > 1 {
            (i - 1, i + 1, CompletionType::Path)
        } else {
            (i + 1, i + 1, CompletionType::Path)
        },
        None => (0, 0, CompletionType::Path),
    }
}

/// Splits a text under completion into its context, the name to complete, and the
/// kind of completion.
pub fn split_into_context_and_completion(s: &[u8]) -> (r: (&[u8], &[u8], CompletionType))
    requires
        splittable(s@),
    ensures
        r.0@ == s@.subrange(0, context_split(s@).0),
        r.1@ == s@.subrange(context_split(s@).1, s@.len() as int),
        r.2 == context_split(s@).2,
{
    let n = s.len();
    match find_last_non_ident(s) {
        Some(i) => {
            let c = s[i];
            if c == 0x2e {
                (&s[0..i], &s[i + 1..n], CompletionType::Field)
            } else if c == 0x3a && n > 1 {
                (&s[0..i - 1], &s[i + 1..n], CompletionType::Path)
            } else {
                (&s[0..i + 1], &s[i + 1..n], CompletionType::Path)
            }
        },
        None => (&s[0..0], &s[0..n], CompletionType::Path),
    }
}

/// What a backward scan for the start of an expression has seen so far.
#[derive(Clone, Copy, Debug, PartialEq, Eq, Structural)]
pub enum ExprState {
    /// Inside an expression, outside parentheses and strings.
    Plain,
    /// Inside parentheses, so many deep.
    InParens(usize),
    /// Inside a string literal.
    InString,
    /// A `.` was the last byte read.
    AfterDot,
    /// Whitespace was read: the expression begins at the offset held here unless a
    /// `.` or `::` comes before the whitespace.
    PendingDotBoundary(usize),
    /// A `:` was read before such whitespace.
    AfterColonBoundary(usize),
    /// The expression begins at the offset held here.
    Done(usize),
}

/// The state after the byte `c` at offset `i` is read in state `state`.
pub open spec fn expr_step(state: ExprState, c: u8, i: usize) -> ExprState {
    match state {
        ExprState::Plain => if c == 0x28 {
            ExprState::Done((i + 1) as usize)
        } else if c == 0x29 {
            ExprState::InParens(1)
        } else if c == 0x2e {
            ExprState::AfterDot
        } else if c == 0x22 {
            ExprState::InString
        } else if spec_is_space(c) {
            ExprState::PendingDotBoundary((i + 1) as usize)
        } else if !spec_is_search_expr_char(c) {
            ExprState::Done((i + 1) as usize)
        } else {
            ExprState::Plain
        },
        ExprState::InParens(lev) => if c == 0x28 {
            if lev <= 1 {
                ExprState::Plain
            } else {
                ExprState::InParens((lev - 1) as usize)
            }
        } else if c == 0x29 {
            ExprState::InParens((lev + 1) as usize)
        } else {
            state
        },
        ExprState::InString => if c == 0x22 {
            ExprState::Plain
        } else {
            ExprState::InString
        },
        ExprState::AfterDot => if c == 0x29 {
            ExprState::InParens(1)
        } else if c == 0x2e {
            ExprState::Done((i + 2) as usize)
        } else if c == 0x22 {
            ExprState::InString
        } else if c == 0x3f {
            ExprState::Plain
        } else if spec_is_space(c) {
            ExprState::AfterDot
        } else if spec_is_search_expr_char(c) {
            ExprState::Plain
        } else {
            ExprState::Done((i + 1) as usize)
        },
        ExprState::PendingDotBoundary(index) => if c == 0x2e {
            ExprState::Plain
        } else if c == 0x3a {
            ExprState::AfterColonBoundary(index)
        } else if spec_is_space(c) {
            state
        } else {
            ExprState::Done(index)
        },
        ExprState::AfterColonBoundary(index) => if c == 0x3a {
            ExprState::Plain
        } else {
            ExprState::Done(index)
        },
        ExprState::Done(_) => state,
    }
}

/// Reads one byte of a backward scan.
pub fn expr_advance(state: ExprState, c: u8, i: usize) -> (r: ExprState)
    requires
        i < usize::MAX,
        state is AfterDot ==> i + 1 < usize::MAX,
        state matches ExprState::InParens(lev) ==> lev < usize::MAX,
    ensures
        r == expr_step(state, c, i),
{
    match state {
        ExprState::Plain => if c == 0x28 {
            ExprState::Done(i + 1)
        } else if c == 0x29 {
            ExprState::InParens(1)
        } else if c == 0x2e {
            ExprState::AfterDot
        } else if c == 0x22 {
            ExprState::InString
        } else if is_space(c) {
            ExprState::PendingDotBoundary(i + 1)
        } else if !is_search_expr_char(c) {
            ExprState::Done(i + 1)
        } else {
            ExprState::Plain
        },
        ExprState::InParens(lev) => if c == 0x28 {
            if lev <= 1 {
                ExprState::Plain
            } else {
                ExprState::InParens(lev - 1)
            }
        } else if c == 0x29 {
            ExprState::InParens(lev + 1)
        } else {
            state
        },
        ExprState::InString => if c == 0x22 {
            ExprState::Plain
        } else {
            ExprState::InString
        },
        ExprState::AfterDot => if c == 0x29 {
            ExprState::InParens(1)
        } else if c == 0x2e {
            ExprState::Done(i + 2)
        } else if c == 0x22 {
            ExprState::InString
        } else if c == 0x3f {
            ExprState::Plain
        } else if is_space(c) {
            ExprState::AfterDot
        } else if is_search_expr_char(c) {
            ExprState::Plain
        } else {
            ExprState::Done(i + 1)
        },
        ExprState::PendingDotBoundary(index) => if c == 0x2e {
            ExprState::Plain
        } else if c == 0x3a {
            ExprState::AfterColonBoundary(index)
        } else if is_space(c) {
            state
        } else {
            ExprState::Done(index)
        },
        ExprState::AfterColonBoundary(index) => if c == 0x3a {
            ExprState::Plain
        } else {
            ExprState::Done(index)
        },
        ExprState::Done(_) => state,
    }
}

/// Where the expression begins that a backward scan finds, when it has the bytes
/// before `end` still to read and is in state `state`: the offset of the first state
/// that is done, or zero where the scan reaches the start of the text.
pub open spec fn expr_start_from(s: Seq<u8>, end: int, state: ExprState) -> int
    decreases end,
{
    if end <= 0 || end > s.len() || end > usize::MAX {
        0
    } else {
        match expr_step(state, s[end - 1], (end - 1) as usize) {
            ExprState::Done(index) => index as int,
            next => expr_start_from(s, end - 1, next),
        }
    }
}

/// Where the dotted or `::`-separated expression begins that ends at `point`.
pub open spec fn search_expr_start(s: Seq<u8>, point: int) -> int {
    expr_start_from(s, point, ExprState::Plain)
}

/// What the scan holds in every state it reaches with the bytes before `end` still to
/// read, on its way back from `point`.
pub open spec fn expr_state_bounded(state: ExprState, end: int, point: int) -> bool {
    match state {
        ExprState::InParens(lev) => lev <= point - end,
        ExprState::AfterDot => end < point,
        ExprState::PendingDotBoundary(index) => index <= point,
        ExprState::AfterColonBoundary(index) => index <= point,
        ExprState::Done(index) => index <= point,
        _ => true,
    }
}

/// The expression begins at or before the point the scan started from.
proof fn lemma_expr_start_from(s: Seq<u8>, end: int, state: ExprState, point: int)
    requires
        0 <= end <= point <= s.len(),
        point <= usize::MAX,
        expr_state_bounded(state, end, point),
        !(state is Done),
    ensures
        0 <= expr_start_from(s, end, state) <= point,
    decreases end,
{
    if end > 0 {
        let next = expr_step(state, s[end - 1], (end - 1) as usize);
        if !(next is Done) {
            lemma_expr_start_from(s, end - 1, next, point);
        }
    }
}

/// Scans backward from `point` for the start of the expression that ends there.
/// Whitespace on one side of a `.`, or behind `::`, does not end the expression, so
/// that a chain of calls may run over several lines.
pub fn get_start_of_search_expr(src: &[u8], point: BytePos) -> (r: BytePos)
    requires
        point.0 <= src@.len(),
    ensures
        r.0 as int == search_expr_start(src@, point.0 as int),
        r.0 <= point.0,
{
    let mut state = ExprState::Plain;
    let mut end: usize = point.0;
    proof {
        lemma_expr_start_from(src@, point.0 as int, ExprState::Plain, point.0 as int);
    }
    while end > 0
        invariant
            end <= point.0 <= src.len(),
            !(state is Done),
            expr_state_bounded(state, end as int, point.0 as int),
            search_expr_start(src@, point.0 as int) == expr_start_from(src@, end as int, state),
        decreases end,
    {
        let next = expr_advance(state, src[end - 1], end - 1);
        if let ExprState::Done(index) = next {
            return BytePos(index);
        }
        state = next;
        end -= 1;
    }
    BytePos(0)
}

/// The span of the expression around `point`: from the start of the dotted or
/// `::`-separated expression that ends at `point` to the end of the identifier that
/// covers `point`.
pub fn expand_search_expr(msrc: &[u8], point: BytePos) -> (r: ByteRange)
    requires
        point.0 <= msrc@.len(),
    ensures
        r.start.0 as int == search_expr_start(msrc@, point.0 as int),
        r.end.0 as int == ident_end(msrc@, point.0 as int),
        r.start.0 <= point.0 <= r.end.0 <= msrc@.len(),
{
    let start = get_start_of_search_expr(msrc, point);
    ByteRange { start, end: find_ident_end(msrc, point) }
}

/// The offset of the last `/*` that begins before `end`.
pub open spec fn comment_open_before(s: Seq<u8>, end: int) -> Option<int>
    decreases end,
{
    if end < 2 || end > s.len() {
        None
    } else if s[end - 2] == 0x2f && s[end - 1] == 0x2a {
        Some(end - 2)
    } else {
        comment_open_before(s, end - 1)
    }
}

/// Where a backward scan goes on after the bytes before `end`, if a block comment ends
/// at `end`: at the `/*` that opens it. The comment takes the last `/*` that leaves
/// room for the closing `*/`.
pub open spec fn skip_comment_back(s: Seq<u8>, end: int) -> Option<int> {
    if 4 <= end <= s.len() && s[end - 2] == 0x2a && s[end - 1] == 0x2f {
        comment_open_before(s, end - 2)
    } else {
        None
    }
}

/// A `/*` that is found begins at least two bytes before `end`.
proof fn lemma_comment_open_before(s: Seq<u8>, end: int)
    requires
        end <= s.len(),
    ensures
        comment_open_before(s, end) is Some ==> 0 <= comment_open_before(s, end).unwrap()
            <= end - 2,
    decreases end,
{
    if end >= 2 && !(s[end - 2] == 0x2f && s[end - 1] == 0x2a) {
        lemma_comment_open_before(s, end - 1);
    }
}

fn find_comment_open(s: &[u8], end: usize) -> (r: Option<usize>)
    requires
        end <= s@.len(),
    ensures
        r is Some == comment_open_before(s@, end as int) is Some,
        r is Some ==> r.unwrap() as int == comment_open_before(s@, end as int).unwrap(),
        r is Some ==> r.unwrap() + 2 <= end,
{
    let mut e: usize = end;
    proof {
        lemma_comment_open_before(s@, end as int);
    }
    while e >= 2
        invariant
            e <= end <= s.len(),
            comment_open_before(s@, end as int) == comment_open_before(s@, e as int),
        decreases e,
    {
        if s[e - 2] == 0x2f && s[e - 1] == 0x2a {
            return Some(e - 2);
        }
        e -= 1;
    }
    None
}

/// Where the match pattern begins that a backward scan finds, when it has the bytes
/// before `end` still to read and is `levels` deep in parentheses. Block comments are
/// passed over; the pattern begins behind the first `(` that nothing closes, or behind
/// the first byte outside parentheses that no pattern holds.
pub open spec fn pattern_start_from(s: Seq<u8>, end: int, levels: nat) -> int
    decreases end,
{
    if end <= 0 || end > s.len() {
        0
    } else {
        match skip_comment_back(s, end) {
            Some(open) => if 0 <= open < end {
                pattern_start_from(s, open, levels)
            } else {
                0
            },
            None => {
                let c = s[end - 1];
                if c == 0x28 {
                    if levels == 0 {
                        end
                    } else {
                        pattern_start_from(s, end - 1, (levels - 1) as nat)
                    }
                } else if c == 0x29 {
                    pattern_start_from(s, end - 1, levels + 1)
                } else if levels == 0 && !spec_is_pattern_char(c) {
                    end
                } else {
                    pattern_start_from(s, end - 1, levels)
                }
            },
        }
    }
}

/// Where the match pattern begins that ends at `point`.
pub open spec fn pattern_start(s: Seq<u8>, point: int) -> int {
    pattern_start_from(s, point, 0)
}

/// The pattern begins in the text, at or before the start of the scan.
proof fn lemma_pattern_start_from(s: Seq<u8>, end: int, levels: nat)
    requires
        0 <= end <= s.len(),
    ensures
        0 <= pattern_start_from(s, end, levels) <= end,
    decreases end,
{
    if end > 0 {
        match skip_comment_back(s, end) {
            Some(open) => {
                if 0 <= open < end {
                    lemma_pattern_start_from(s, open, levels);
                }
            },
            None => {
                let c = s[end - 1];
                if c == 0x28 {
                    if levels != 0 {
                        lemma_pattern_start_from(s, end - 1, (levels - 1) as nat);
                    }
                } else if c == 0x29 {
                    lemma_pattern_start_from(s, end - 1, levels + 1);
                } else if levels == 0 && !spec_is_pattern_char(c) {
                } else {
                    lemma_pattern_start_from(s, end - 1, levels);
                }
            },
        }
    }
}

/// Scans backward from `point` for the start of the match pattern that ends there.
pub fn get_start_of_pattern(src: &[u8], point: BytePos) -> (r: BytePos)
    requires
        point.0 <= src@.len(),
    ensures
        r.0 as int == pattern_start(src@, point.0 as int),
        r.0 <= point.0,
{
    let mut levels: usize = 0;
    let mut end: usize = point.0;
    proof {
        lemma_pattern_start_from(src@, point.0 as int, 0);
    }
    while end > 0
        invariant
            end <= point.0 <= src.len(),
            levels <= point.0 - end,
            pattern_start(src@, point.0 as int) == pattern_start_from(
                src@,
                end as int,
                levels as nat,
            ),
        decreases end,
    {
        if end >= 4 && src[end - 2] == 0x2a && src[end - 1] == 0x2f {
            if let Some(open) = find_comment_open(src, end - 2) {
                end = open;
                continue;
            }
        }
        let c = src[end - 1];
        if c == 0x28 {
            if levels == 0 {
                return BytePos(end);
            }
            levels -= 1;
        } else if c == 0x29 {
            levels += 1;
        } else if levels == 0 && !is_pattern_char(c) {
            return BytePos(end);
        }
        end -= 1;
    }
    BytePos(0)
}

/// The offset behind the `open` that nothing before `end` closes, or zero where
/// there is none.
pub open spec fn scope_open(masked: Seq<u8>, open: u8, close: u8, end: int) -> int {
    match open_before(masked, open, close, end, 0) {
        Some(at) => at + 1,
        None => 0,
    }
}

/// The offset behind the `{` that opens the scope around `end`, or zero. A brace that
/// follows `::` opens a group of imports and no scope: the search goes on before it.
pub open spec fn brace_scope_start(masked: Seq<u8>, end: int) -> int
    decreases end,
{
    match open_before(masked, 0x7b, 0x7d, end, 0) {
        None => 0,
        Some(at) => if 2 <= at < end && masked[at - 2] == 0x3a && masked[at - 1] == 0x3a {
            brace_scope_start(masked, at)
        } else {
            at + 1
        },
    }
}

/// The scope begins in the text, at or before the start of the scan.
proof fn lemma_brace_scope_start(masked: Seq<u8>, end: int)
    requires
        0 <= end <= masked.len(),
    ensures
        0 <= brace_scope_start(masked, end) <= end,
    decreases end,
{
    lemma_open_before(masked, 0x7b, 0x7d, end, 0);
    match open_before(masked, 0x7b, 0x7d, end, 0) {
        None => {},
        Some(at) => {
            if 2 <= at < end && masked[at - 2] == 0x3a && masked[at - 1] == 0x3a {
                lemma_brace_scope_start(masked, at);
            }
        },
    }
}

/// The start of a scope, of its two candidates: the offset `curly` behind the
/// enclosing `{` and the offset `paren` behind the enclosing `(`. It is `paren` where
/// that is at least as near and the parentheses hold the parameters of a closure, and
/// `curly` else.
pub open spec fn picked_scope_start(curly: int, paren: int, closure: bool) -> int {
    if curly > paren {
        curly
    } else if closure {
        paren
    } else {
        curly
    }
}

/// Where the scope around `point` begins, given whether the parentheses around
/// `point` hold the parameters of a closure: behind the enclosing `{`, or behind the
/// enclosing `(` where that is at least as near and opens a closure.
pub open spec fn spec_scope_start(src: Src, point: int, closure: bool) -> int {
    let masked = comment_mask(src.window(0, point));
    picked_scope_start(
        brace_scope_start(masked, point),
        scope_open(masked, 0x28, 0x29, point),
        closure,
    )
}

/// The text that decides whether the parenthesis opened before `paren` holds the
/// parameters of a closure: the masked text from `paren` up to the `)` that closes
/// what is open at `point`.
pub open spec fn closure_scope_text(src: Src, point: int, paren: int) -> Seq<u8> {
    let closing = point + closing_paren(comment_mask(src.window(point, src.len() as int)), 0);
    comment_mask(src.window(paren, closing))
}

fn brace_boundary(masked: &[u8]) -> (r: BytePos)
    ensures
        r.0 as int == brace_scope_start(masked@, masked@.len() as int),
        r.0 <= masked@.len(),
{
    let mut end: usize = masked.len();
    proof {
        lemma_brace_scope_start(masked@, masked@.len() as int);
    }
    loop
        invariant
            end <= masked.len(),
            brace_scope_start(masked@, masked@.len() as int) == brace_scope_start(
                masked@,
                end as int,
            ),
        decreases end,
    {
        match find_open_before(masked, 0x7b, 0x7d, BytePos(end)) {
            None => {
                return BytePos(0);
            },
            Some(at) => {
                if at.0 >= 2 && masked[at.0 - 2] == 0x3a && masked[at.0 - 1] == 0x3a {
                    end = at.0;
                } else {
                    return BytePos(at.0 + 1);
                }
            },
        }
    }
}

/// The two candidates for the start of the scope around `point`: the offset behind
/// the enclosing `{`, and the offset behind the enclosing `(`.
pub fn scope_boundaries(src: Src, point: BytePos) -> (r: (BytePos, BytePos))
    requires
        src.wf(),
        point.0 <= src.len(),
    ensures
        r.0.0 as int == brace_scope_start(
            comment_mask(src.window(0, point.0 as int)),
            point.0 as int,
        ),
        r.1.0 as int == scope_open(
            comment_mask(src.window(0, point.0 as int)),
            0x28,
            0x29,
            point.0 as int,
        ),
        r.0.0 <= point.0,
        r.1.0 <= point.0,
{
    let masked = mask_comments(src.to(point));
    let curly = brace_boundary(masked.as_slice());
    let paren = match find_open_before(masked.as_slice(), 0x28, 0x29, BytePos(masked.len())) {
        Some(at) => BytePos(at.0 + 1),
        None => BytePos(0),
    };
    (curly, paren)
}

/// The text to hold against the form of a closure's parameter list.
pub fn closure_scope_source(src: Src, point: BytePos, parentheses_open_pos: BytePos) -> (r: Vec<u8>)
    requires
        src.wf(),
        parentheses_open_pos.0 <= point.0 <= src.len(),
    ensures
        r@ == closure_scope_text(src, point.0 as int, parentheses_open_pos.0 as int),
{
    let masked_src = mask_comments(src.from(point));
    let closing = find_closing_paren(masked_src.as_slice(), BytePos(0));
    let closing_paren_pos = BytePos(closing.0 + point.0);
    mask_comments(src.from_to(parentheses_open_pos, closing_paren_pos))
}

/// The start of the closure scope around `point`: `parentheses_open_pos`, where the
/// parentheses opened there hold the parameters of a closure.
pub fn find_closure_scope_start<P: AstParser>(
    src: Src,
    point: BytePos,
    parentheses_open_pos: BytePos,
    parser: &P,
) -> (r: Option<BytePos>)
    requires
        src.wf(),
        parentheses_open_pos.0 <= point.0 <= src.len(),
    ensures
        r is Some ==> r.unwrap() == parentheses_open_pos,
{
    let text = closure_scope_source(src, point, parentheses_open_pos);
    if parser.closure_valid_arg_scope(text.as_slice()) {
        Some(parentheses_open_pos)
    } else {
        None
    }
}

/// Picks the start of a scope from its two candidates, given what the parser says of
/// the parentheses.
pub fn pick_scope_start(curly: BytePos, paren: BytePos, is_closure: bool) -> (r: BytePos)
    ensures
        r.0 as int == picked_scope_start(curly.0 as int, paren.0 as int, is_closure),
        r == curly || r == paren,
{
    if curly.0 > paren.0 {
        curly
    } else if is_closure {
        paren
    } else {
        curly
    }
}

/// Where the scope around `point` begins: what `pick_scope_start` picks from the
/// candidates of `scope_boundaries`. The parser is asked, with the text of
/// `closure_scope_source`, only where the enclosing `(` is at least as near as the
/// enclosing `{`.
pub fn scope_start<P: AstParser>(src: Src, point: BytePos, parser: &P) -> (r: BytePos)
    requires
        src.wf(),
        point.0 <= src.len(),
    ensures
        spec_scope_start(src, point.0 as int, true) == spec_scope_start(src, point.0 as int, false)
            ==> r.0 as int == spec_scope_start(src, point.0 as int, false),
        r.0 as int == spec_scope_start(src, point.0 as int, true) || r.0 as int
            == spec_scope_start(src, point.0 as int, false),
        r.0 <= point.0,
{
    let (curly_parent_open_pos, parent_open_pos) = scope_boundaries(src, point);
    let is_closure = if curly_parent_open_pos.0 > parent_open_pos.0 {
        false
    } else {
        find_closure_scope_start(src, point, parent_open_pos, parser).is_some()
    };
    let r = pick_scope_start(curly_parent_open_pos, parent_open_pos, is_closure);
    proof {
        assert(r.0 as int == spec_scope_start(src, point.0 as int, is_closure));
    }
    r
}

/// Whether `point` lies strictly inside a statement that counts its offsets from
/// `scopestart`.
pub open spec fn surrounds(stmt: ByteRange, scopestart: int, point: int) -> bool {
    scopestart + stmt.start.0 < point < scopestart + stmt.end.0
}

/// Whether a statement that counts its offsets from `scopestart` ends behind `point`.
pub open spec fn ends_after(stmt: ByteRange, scopestart: int, point: int) -> bool {
    scopestart + stmt.end.0 > point
}

/// The index of the first statement, from index `from` on, that has `point` strictly
/// inside it. The statements count their offsets from `scopestart`.
pub open spec fn stmt_around(stmts: Seq<ByteRange>, scopestart: int, point: int, from: int) -> Option<int>
    decreases stmts.len() - from,
{
    if from < 0 || from >= stmts.len() {
        None
    } else if surrounds(stmts[from], scopestart, point) {
        Some(from)
    } else {
        stmt_around(stmts, scopestart, point, from + 1)
    }
}

/// Where the statement around `point` begins, if one of `stmts` has `point` strictly
/// inside it: at the start of the first that has.
pub open spec fn spec_stmt_start(stmts: Seq<ByteRange>, scopestart: int, point: int) -> Option<int> {
    match stmt_around(stmts, scopestart, point, 0) {
        Some(i) => Some(scopestart + stmts[i].start.0),
        None => None,
    }
}

/// Picks the statement around `point` from the statements of the scope that begins
/// at `scopestart`, and says where it begins.
pub fn stmt_start_in(stmts: &[ByteRange], scopestart: BytePos, point: BytePos) -> (r: Option<
    BytePos,
>)
    requires
        scopestart.0 <= point.0,
    ensures
        r is Some == spec_stmt_start(stmts@, scopestart.0 as int, point.0 as int) is Some,
        r is Some ==> r.unwrap().0 as int == spec_stmt_start(
            stmts@,
            scopestart.0 as int,
            point.0 as int,
        ).unwrap(),
        r is Some ==> scopestart.0 <= r.unwrap().0 < point.0,
{
    let rel: usize = point.0 - scopestart.0;
    let mut i: usize = 0;
    while i < stmts.len()
        invariant
            i <= stmts@.len(),
            rel == point.0 - scopestart.0,
            stmt_around(stmts@, scopestart.0 as int, point.0 as int, 0) == stmt_around(
                stmts@,
                scopestart.0 as int,
                point.0 as int,
                i as int,
            ),
        decreases stmts@.len() - i,
    {
        let range = stmts[i];
        if range.start.0 < rel && rel < range.end.0 {
            return Some(BytePos(scopestart.0 + range.start.0));
        }
        i += 1;
    }
    None
}

/// An offset that may be there, as a number.
pub open spec fn stmt_start_view(r: Option<BytePos>) -> Option<int> {
    match r {
        Some(p) => Some(p.0 as int),
        None => None,
    }
}

/// Where the statement around `point` begins: the start of the first statement of
/// the scope around `point`, as the statement iterator gives them, that has `point`
/// strictly inside it.
pub fn find_stmt_start<S: StatementIterator, P: AstParser>(
    msrc: Src,
    point: BytePos,
    splitter: &S,
    parser: &P,
) -> (r: Option<BytePos>)
    requires
        msrc.wf(),
        point.0 <= msrc.len(),
    ensures
        r is Some ==> r.unwrap().0 < point.0,
        exists|stmts: Seq<ByteRange>, closure: bool|
            stmt_start_view(r) == #[trigger] spec_stmt_start(
                stmts,
                spec_scope_start(msrc, point.0 as int, closure),
                point.0 as int,
            ),
{
    let scopestart = scope_start(msrc, point, parser);
    let stmts = splitter.iter_stmts(msrc.shift_start(scopestart));
    let r = stmt_start_in(stmts.as_slice(), scopestart, point);
    proof {
        let closure = scopestart.0 as int == spec_scope_start(msrc, point.0 as int, true);
        assert(stmt_start_view(r) == spec_stmt_start(
            stmts@,
            spec_scope_start(msrc, point.0 as int, closure),
            point.0 as int,
        ));
    }
    r
}

/// Where the statement around `point` begins, for a `point` that lies strictly inside
/// one of `stmts`.
pub fn expect_stmt_start(stmts: &[ByteRange], scopestart: BytePos, point: BytePos) -> (r: BytePos)
    requires
        scopestart.0 <= point.0,
        spec_stmt_start(stmts@, scopestart.0 as int, point.0 as int) is Some,
    ensures
        r.0 as int == spec_stmt_start(stmts@, scopestart.0 as int, point.0 as int).unwrap(),
{
    match stmt_start_in(stmts, scopestart, point) {
        Some(start) => start,
        None => BytePos(0),
    }
}

/// The index of the first statement, from index `from` on, that ends behind `point`.
/// The statements count their offsets from `scopestart`.
pub open spec fn stmt_ending_after(stmts: Seq<ByteRange>, scopestart: int, point: int, from: int) -> Option<int>
    decreases stmts.len() - from,
{
    if from < 0 || from >= stmts.len() {
        None
    } else if ends_after(stmts[from], scopestart, point) {
        Some(from)
    } else {
        stmt_ending_after(stmts, scopestart, point, from + 1)
    }
}

/// The statement found ends behind `point`, and none before it does; where none is
/// found, no statement from `from` on ends behind `point`.
proof fn lemma_stmt_ending_after(stmts: Seq<ByteRange>, scopestart: int, point: int, from: int)
    requires
        0 <= from,
    ensures
        match stmt_ending_after(stmts, scopestart, point, from) {
            Some(i) => from <= i < stmts.len() && ends_after(stmts[i], scopestart, point)
                && forall|k: int| from <= k < i ==> !ends_after(#[trigger] stmts[k], scopestart, point),
            None => forall|k: int|
                from <= k < stmts.len() ==> !ends_after(#[trigger] stmts[k], scopestart, point),
        },
    decreases stmts.len() - from,
{
    if from < stmts.len() && !ends_after(stmts[from], scopestart, point) {
        lemma_stmt_ending_after(stmts, scopestart, point, from + 1);
    }
}

fn find_stmt_ending_after(stmts: &[ByteRange], scopestart: BytePos, point: BytePos) -> (r: Option<
    usize,
>)
    ensures
        r is Some == stmt_ending_after(stmts@, scopestart.0 as int, point.0 as int, 0) is Some,
        r is Some ==> r.unwrap() as int == stmt_ending_after(
            stmts@,
            scopestart.0 as int,
            point.0 as int,
            0,
        ).unwrap(),
        r is Some ==> r.unwrap() < stmts@.len(),
{
    let mut i: usize = 0;
    proof {
        lemma_stmt_ending_after(stmts@, scopestart.0 as int, point.0 as int, 0);
    }
    while i < stmts.len()
        invariant
            i <= stmts@.len(),
            stmt_ending_after(stmts@, scopestart.0 as int, point.0 as int, 0) == stmt_ending_after(
                stmts@,
                scopestart.0 as int,
                point.0 as int,
                i as int,
            ),
        decreases stmts@.len() - i,
    {
        let end = stmts[i].end.0;
        let after = if scopestart.0 > point.0 {
            true
        } else {
            end > point.0 - scopestart.0
        };
        if after {
            return Some(i);
        }
        i += 1;
    }
    None
}

/// Where the `let` statement begins whose end lies behind `point`: the first of
/// `stmts` that ends behind `point`, if it lies within `text` and begins with `let`.
pub open spec fn spec_let_start(text: Seq<u8>, stmts: Seq<ByteRange>, scopestart: int, point: int) -> Option<int> {
    match stmt_ending_after(stmts, scopestart, point, 0) {
        Some(i) => {
            let a = scopestart + stmts[i].start.0;
            let b = scopestart + stmts[i].end.0;
            if a <= b <= text.len() && spec_starts_with(text.subrange(a, b), "let".spec_bytes()) {
                Some(a)
            } else {
                None
            }
        },
        None => None,
    }
}

/// One attempt to find the `let` statement around `point` among the statements of
/// the scope that begins at `scopestart`.
pub fn let_start_in(text: &[u8], stmts: &[ByteRange], scopestart: BytePos, point: BytePos) -> (r:
    Option<BytePos>)
    ensures
        r is Some == spec_let_start(text@, stmts@, scopestart.0 as int, point.0 as int) is Some,
        r is Some ==> r.unwrap().0 as int == spec_let_start(
            text@,
            stmts@,
            scopestart.0 as int,
            point.0 as int,
        ).unwrap(),
        r is Some ==> r.unwrap().0 <= text@.len() && spec_starts_with(
            text@.subrange(r.unwrap().0 as int, text@.len() as int),
            "let".spec_bytes(),
        ),
{
    let n = text.len();
    match find_stmt_ending_after(stmts, scopestart, point) {
        None => None,
        Some(i) => {
            let range = stmts[i];
            if scopestart.0 > n || range.end.0 > n - scopestart.0 || range.start.0 > range.end.0 {
                return None;
            }
            let a: usize = scopestart.0 + range.start.0;
            let b: usize = scopestart.0 + range.end.0;
            if starts_with(&text[a..b], "let".as_bytes()) {
                proof {
                    let kw = "let".spec_bytes();
                    let stmt = text@.subrange(a as int, b as int);
                    let rest = text@.subrange(a as int, n as int);
                    assert(rest.subrange(0, kw.len() as int) =~= stmt.subrange(
                        0,
                        kw.len() as int,
                    ));
                }
                Some(BytePos(a))
            } else {
                None
            }
        },
    }
}

/// The place that attempt `k` of a search for a `let` statement looks from, or `None`
/// where the search has ended before: the first attempt looks from `point`; each
/// further one, after an attempt that found nothing in a scope that begins behind the
/// first byte, from the byte before that scope. `answers[k]` holds what attempt `k` is
/// told: whether the parentheses around the place it looks from are a closure's, and
/// the statements of the scope it finds there.
pub open spec fn let_attempt_from(
    msrc: Src,
    point: int,
    answers: Seq<(bool, Seq<ByteRange>)>,
    k: int,
) -> Option<int>
    decreases k,
{
    if k <= 0 {
        Some(point)
    } else {
        match let_attempt_from(msrc, point, answers, k - 1) {
            None => None,
            Some(from) => {
                let scope = spec_scope_start(msrc, from, answers[k - 1].0);
                if spec_let_start(msrc.bytes(), answers[k - 1].1, scope, point) is Some || scope
                    <= 0 {
                    None
                } else {
                    Some(scope - 1)
                }
            },
        }
    }
}

/// What attempt `k` of a search for a `let` statement finds: the `let` statement
/// around `point` among the statements of the scope around the place it looks from.
pub open spec fn let_attempt(
    msrc: Src,
    point: int,
    answers: Seq<(bool, Seq<ByteRange>)>,
    k: int,
) -> Option<int> {
    match let_attempt_from(msrc, point, answers, k) {
        Some(from) => spec_let_start(
            msrc.bytes(),
            answers[k].1,
            spec_scope_start(msrc, from, answers[k].0),
            point,
        ),
        None => None,
    }
}

/// What the first `n` attempts of a search for a `let` statement find: what the first
/// of them finds that finds anything.
pub open spec fn let_search(
    msrc: Src,
    point: int,
    answers: Seq<(bool, Seq<ByteRange>)>,
    n: int,
) -> Option<int>
    decreases n,
{
    if n <= 0 {
        None
    } else {
        match let_search(msrc, point, answers, n - 1) {
            Some(p) => Some(p),
            None => let_attempt(msrc, point, answers, n - 1),
        }
    }
}

/// The first `n` attempts rest on what these attempts are told, and on nothing else.
proof fn lemma_let_search_prefix(
    msrc: Src,
    point: int,
    a: Seq<(bool, Seq<ByteRange>)>,
    b: Seq<(bool, Seq<ByteRange>)>,
    n: int,
)
    requires
        forall|k: int| 0 <= k < n ==> a[k] == b[k],
    ensures
        let_attempt_from(msrc, point, a, n) == let_attempt_from(msrc, point, b, n),
        let_search(msrc, point, a, n) == let_search(msrc, point, b, n),
    decreases n,
{
    if n > 0 {
        lemma_let_search_prefix(msrc, point, a, b, n - 1);
    }
}

/// Once the search has ended, further attempts find nothing; and what an attempt has
/// found stays found.
proof fn lemma_let_search_ended(
    msrc: Src,
    point: int,
    answers: Seq<(bool, Seq<ByteRange>)>,
    n: int,
    m: int,
)
    requires
        0 < n <= m,
        let_attempt_from(msrc, point, answers, n) is None,
    ensures
        let_attempt_from(msrc, point, answers, m) is None,
        let_search(msrc, point, answers, m) == let_search(msrc, point, answers, n),
    decreases m - n,
{
    if n < m {
        lemma_let_search_ended(msrc, point, answers, n, m - 1);
    }
}

/// Where the `let` statement around `point` begins. The search starts in the scope
/// around `point` and is widened to the scope around that one, up to five attempts in
/// all, so that a pattern with braces in it does not hide the statement. The result is
/// what the first attempt finds that finds anything.
pub fn find_let_start<S: StatementIterator, P: AstParser>(
    msrc: Src,
    point: BytePos,
    splitter: &S,
    parser: &P,
) -> (r: Option<BytePos>)
    requires
        msrc.wf(),
        point.0 <= msrc.len(),
    ensures
        r is Some ==> r.unwrap().0 <= msrc.len() && spec_starts_with(
            msrc.bytes().subrange(r.unwrap().0 as int, msrc.len() as int),
            "let".spec_bytes(),
        ),
        exists|answers: Seq<(bool, Seq<ByteRange>)>|
            stmt_start_view(r) == #[trigger] let_search(msrc, point.0 as int, answers, 5),
{
    let text = msrc.as_bytes();
    let mut scopestart = scope_start(msrc, point, parser);
    let ghost mut from: int = point.0 as int;
    let ghost mut closure: bool = scopestart.0 as int == spec_scope_start(
        msrc,
        point.0 as int,
        true,
    );
    let ghost mut answers: Seq<(bool, Seq<ByteRange>)> = Seq::empty();
    let mut step: usize = 0;
    while step < 5
        invariant
            msrc.wf(),
            text@ == msrc.bytes(),
            step <= 5,
            scopestart.0 <= point.0 <= msrc.len(),
            0 <= from <= point.0,
            scopestart.0 as int == spec_scope_start(msrc, from, closure),
            answers.len() == step,
            let_attempt_from(msrc, point.0 as int, answers, step as int) == Some(from),
            let_search(msrc, point.0 as int, answers, step as int) is None,
        decreases 5 - step,
    {
        let stmts = splitter.iter_stmts(msrc.from(scopestart));
        let found = let_start_in(text, stmts.as_slice(), scopestart, point);
        let ghost told = answers.push((closure, stmts@));
        proof {
            lemma_let_search_prefix(msrc, point.0 as int, answers, told, step as int);
            assert(told[step as int] == (closure, stmts@));
            assert(let_attempt(msrc, point.0 as int, told, step as int) == stmt_start_view(
                found,
            ));
            assert(let_search(msrc, point.0 as int, told, step + 1) == stmt_start_view(found));
        }
        if found.is_some() {
            proof {
                assert(let_attempt_from(msrc, point.0 as int, told, step + 1) is None);
                lemma_let_search_ended(msrc, point.0 as int, told, step + 1, 5);
            }
            return found;
        }
        if scopestart.0 == 0 {
            proof {
                assert(let_attempt_from(msrc, point.0 as int, told, step + 1) is None);
                lemma_let_search_ended(msrc, point.0 as int, told, step + 1, 5);
            }
            return None;
        }
        let before = scopestart.decrement();
        scopestart = scope_start(msrc, before, parser);
        proof {
            assert(let_attempt_from(msrc, point.0 as int, told, step + 1) == Some(
                before.0 as int,
            ));
            from = before.0 as int;
            closure = scopestart.0 as int == spec_scope_start(msrc, from, true);
            answers = told;
        }
        step += 1;
    }
    None
}

/// Whether a statement declares a module.
pub open spec fn is_mod_decl(blob: Seq<u8>) -> bool {
    spec_starts_with(blob, "pub mod ".spec_bytes()) || spec_starts_with(blob, "mod ".spec_bytes())
}

/// The head of a block statement, up to and including its first `{`, with a `}` put
/// behind it: the statement without its body.
pub open spec fn spec_skeleton(blob: Seq<u8>) -> Option<Seq<u8>> {
    match spec_find_byte(blob, 0x7b) {
        Some(k) => Some(blob.subrange(0, k + 1).push(0x7d)),
        None => None,
    }
}

/// Cuts the body off a block statement, so that its head can be parsed alone.
pub fn generate_skeleton_for_parsing(blob: &[u8]) -> (r: Option<Vec<u8>>)
    ensures
        r is Some == spec_skeleton(blob@) is Some,
        r is Some ==> r.unwrap()@ == spec_skeleton(blob@).unwrap(),
{
    let n = blob.len();
    proof {
        lemma_find_byte_from(blob@, 0x7b, 0);
    }
    match find_byte(blob, 0x7b) {
        Some(k) => {
            let mut out = vstd::slice::slice_to_vec(&blob[0..k + 1]);
            out.push(0x7d);
            Some(out)
        },
        None => None,
    }
}

/// Where the body of an inline module begins that holds `point`: `range` is a
/// statement of `text` that covers `point` and declares a module, and `point` lies
/// behind the `{` that opens it. The result is the offset behind that brace.
pub open spec fn module_body_start(text: Seq<u8>, range: ByteRange, point: int) -> Option<int> {
    if range.fits(text.len() as int) && range.covers(point) && is_mod_decl(
        text.subrange(range.start.0 as int, range.end.0 as int),
    ) {
        match spec_find_byte(text.subrange(range.start.0 as int, range.end.0 as int), 0x7b) {
            Some(k) => if range.start.0 + k + 1 <= point {
                Some(range.start.0 + k + 1)
            } else {
                None
            },
            None => None,
        }
    } else {
        None
    }
}

/// Says whether the statement `range` of `text` is an inline module around `point`,
/// and where its body begins.
pub fn enclosing_module_body(text: &[u8], range: ByteRange, point: BytePos) -> (r: Option<BytePos>)
    ensures
        r is Some == module_body_start(text@, range, point.0 as int) is Some,
        r is Some ==> r.unwrap().0 as int == module_body_start(
            text@,
            range,
            point.0 as int,
        ).unwrap(),
        r is Some ==> range.start.0 < r.unwrap().0 <= range.end.0 <= text@.len() && r.unwrap().0
            <= point.0 && spec_skeleton(text@.subrange(range.start.0 as int, range.end.0 as int))
            is Some,
{
    let n = text.len();
    if !(range.start.0 <= range.end.0 && range.end.0 <= n) || !range.contains(point) {
        return None;
    }
    let blob = &text[range.start.0..range.end.0];
    if !(starts_with(blob, "pub mod ".as_bytes()) || starts_with(blob, "mod ".as_bytes())) {
        return None;
    }
    proof {
        lemma_find_byte_from(blob@, 0x7b, 0);
    }
    match find_byte(blob, 0x7b) {
        Some(k) => {
            if range.start.0 + k + 1 <= point.0 {
                Some(BytePos(range.start.0 + k + 1))
            } else {
                None
            }
        },
        None => None,
    }
}

/// What the statement iterator and the parser tell of one view: the statements of
/// the view; for each statement the name that the parser reads from it, if it is
/// asked and reads one; and for each statement what they tell of the body of the
/// module that the statement declares.
pub struct ModuleScan {
    pub stmts: Seq<ByteRange>,
    pub names: Seq<Option<Seq<u8>>>,
    pub inner: Seq<ModuleScan>,
}

/// The names of the inline modules around `point` that the first `n` statements of a
/// view declare, the outermost first. A statement that is an inline module with
/// `point` in its body, and from which the parser reads a name, gives that name, and
/// behind it the names of the modules around `point` in its body. Every other
/// statement gives nothing.
pub open spec fn module_names(text: Seq<u8>, point: int, scan: ModuleScan, n: int) -> Seq<Seq<u8>>
    decreases scan, n,
{
    if n <= 0 {
        Seq::empty()
    } else {
        let before = module_names(text, point, scan, n - 1);
        match module_body_start(text, scan.stmts[n - 1], point) {
            Some(body) => match scan.names[n - 1] {
                Some(name) => before + seq![name] + if n - 1 < scan.inner.len() {
                    module_names(
                        text.subrange(body, scan.stmts[n - 1].end.0 as int),
                        point - body,
                        scan.inner[n - 1],
                        scan.inner[n - 1].stmts.len() as int,
                    )
                } else {
                    Seq::empty()
                },
                None => before,
            },
            None => before,
        }
    }
}

/// What the first `n` statements give rests on what is told of these statements, and
/// on nothing else.
proof fn lemma_module_names_prefix(text: Seq<u8>, point: int, a: ModuleScan, b: ModuleScan, n: int)
    requires
        a.stmts == b.stmts,
        n <= a.inner.len(),
        n <= b.inner.len(),
        forall|k: int| 0 <= k < n ==> a.names[k] == b.names[k] && a.inner[k] == b.inner[k],
    ensures
        module_names(text, point, a, n) == module_names(text, point, b, n),
    decreases n,
{
    if n > 0 {
        lemma_module_names_prefix(text, point, a, b, n - 1);
    }
}

fn get_local_module_path_<S: StatementIterator, P: AstParser>(
    msrc: Src,
    point: BytePos,
    splitter: &S,
    parser: &P,
    out: &mut Vec<Vec<u8>>,
)
    requires
        msrc.wf(),
    ensures
        exists|scan: ModuleScan|
            name_views(final(out)@) == name_views(old(out)@) + #[trigger] module_names(
                msrc.bytes(),
                point.0 as int,
                scan,
                scan.stmts.len() as int,
            ),
    decreases msrc.len(),
{
    let text = msrc.as_bytes();
    let stmts = splitter.iter_stmts(msrc);
    let ghost mut names: Seq<Option<Seq<u8>>> = Seq::empty();
    let ghost mut inner: Seq<ModuleScan> = Seq::empty();
    let ghost nothing = ModuleScan { stmts: Seq::empty(), names: Seq::empty(), inner: Seq::empty() };
    let mut i: usize = 0;
    proof {
        assert(name_views(out@) =~= name_views(old(out)@) + Seq::<Seq<u8>>::empty());
    }
    while i < stmts.len()
        invariant
            msrc.wf(),
            text@ == msrc.bytes(),
            i <= stmts@.len(),
            names.len() == i,
            inner.len() == i,
            name_views(out@) == name_views(old(out)@) + module_names(
                msrc.bytes(),
                point.0 as int,
                (ModuleScan { stmts: stmts@, names, inner }),
                i as int,
            ),
        decreases stmts@.len() - i,
    {
        let range = stmts[i];
        let ghost scan = ModuleScan { stmts: stmts@, names, inner };
        let ghost so_far = module_names(msrc.bytes(), point.0 as int, scan, i as int);
        let ghost mut name_told: Option<Seq<u8>> = None;
        let ghost mut inner_told: ModuleScan = nothing;
        if let Some(body) = enclosing_module_body(text, range, point) {
            let blob = &text[range.start.0..range.end.0];
            if let Some(skeleton) = generate_skeleton_for_parsing(blob) {
                if let Some(name) = parser.parse_mod(skeleton.as_slice()) {
                    let ghost before = out@;
                    let sub = msrc.from_to(body, range.end);
                    let at = BytePos(point.0 - body.0);
                    out.push(name);
                    let ghost pushed = out@;
                    get_local_module_path_(sub, at, splitter, parser, out);
                    proof {
                        name_told = Some(name@);
                        inner_told = choose|s: ModuleScan|
                            name_views(out@) == name_views(pushed) + #[trigger] module_names(
                                sub.bytes(),
                                at.0 as int,
                                s,
                                s.stmts.len() as int,
                            );
                        let below = module_names(
                            sub.bytes(),
                            at.0 as int,
                            inner_told,
                            inner_told.stmts.len() as int,
                        );
                        assert(name_views(pushed) =~= name_views(before).push(name@));
                        assert(name_views(out@) =~= name_views(old(out)@) + (so_far + seq![
                            name@,
                        ] + below));
                    }
                }
            }
        }
        proof {
            let next = ModuleScan {
                stmts: stmts@,
                names: names.push(name_told),
                inner: inner.push(inner_told),
            };
            lemma_module_names_prefix(msrc.bytes(), point.0 as int, scan, next, i as int);
            assert(next.names[i as int] == name_told);
            assert(next.inner[i as int] == inner_told);
            assert(name_views(out@) == name_views(old(out)@) + module_names(
                msrc.bytes(),
                point.0 as int,
                next,
                i + 1,
            ));
            names = names.push(name_told);
            inner = inner.push(inner_told);
        }
        i += 1;
    }
}

/// The names of the inline modules around `point`, from the outermost to the
/// innermost, as the parser reads them from the statements that the statement
/// iterator gives.
pub fn get_local_module_path<S: StatementIterator, P: AstParser>(
    msrc: Src,
    point: BytePos,
    splitter: &S,
    parser: &P,
) -> (r: Vec<Vec<u8>>)
    requires
        msrc.wf(),
    ensures
        exists|scan: ModuleScan|
            name_views(r@) == #[trigger] module_names(
                msrc.bytes(),
                point.0 as int,
                scan,
                scan.stmts.len() as int,
            ),
{
    let mut v: Vec<Vec<u8>> = Vec::new();
    get_local_module_path_(msrc, point, splitter, parser, &mut v);
    proof {
        let scan = choose|s: ModuleScan|
            name_views(v@) == name_views(Seq::<Vec<u8>>::empty()) + #[trigger] module_names(
                msrc.bytes(),
                point.0 as int,
                s,
                s.stmts.len() as int,
            );
        assert(name_views(v@) =~= module_names(
            msrc.bytes(),
            point.0 as int,
            scan,
            scan.stmts.len() as int,
        ));
    }
    v
}

/// The range in `blob` of the path that a `#[path = "..."]` attribute names: what
/// stands between its first two double quotes.
pub open spec fn path_attribute(blob: Seq<u8>) -> Option<(int, int)> {
    match spec_find_byte(blob, 0x22) {
        Some(q) => match spec_find_byte_from(blob, 0x22, q + 1) {
            Some(e) => Some((q + 1, e)),
            None => None,
        },
        None => None,
    }
}

/// Whether the statement `range` of `text` is a `#[path ..]` attribute.
pub open spec fn is_path_attr(text: Seq<u8>, range: ByteRange) -> bool {
    range.fits(text.len() as int) && spec_starts_with(
        text.subrange(range.start.0 as int, range.end.0 as int),
        "#[path ".spec_bytes(),
    )
}

/// The ranges in `text` of the paths named by the `#[path ..]` attributes, from
/// statement `i` on, whose module statement has `point` inside it: the attribute
/// begins before `point`, and the statement behind it ends behind `point`. An
/// attribute is read together with the statement behind it. The list ends at an
/// attribute that names no path between double quotes.
pub open spec fn path_candidates(text: Seq<u8>, stmts: Seq<ByteRange>, point: int, i: int) -> Seq<ByteRange>
    decreases stmts.len() - i,
{
    if i < 0 || i >= stmts.len() {
        Seq::empty()
    } else if is_path_attr(text, stmts[i]) && i + 1 < stmts.len() {
        if stmts[i].start.0 < point < stmts[i + 1].end.0 {
            match path_attribute(text.subrange(stmts[i].start.0 as int, stmts[i].end.0 as int)) {
                Some((a, b)) => seq![
                    ByteRange {
                        start: BytePos((stmts[i].start.0 + a) as usize),
                        end: BytePos((stmts[i].start.0 + b) as usize),
                    },
                ] + path_candidates(text, stmts, point, i + 2),
                None => Seq::empty(),
            }
        } else {
            path_candidates(text, stmts, point, i + 2)
        }
    } else {
        path_candidates(text, stmts, point, i + 1)
    }
}

/// Lists the paths that `#[path ..]` attributes give to the module statement around
/// `point`, each as its range in `text`.
pub fn path_attributes_at(text: &[u8], stmts: &[ByteRange], point: BytePos) -> (r: Vec<ByteRange>)
    ensures
        r@ == path_candidates(text@, stmts@, point.0 as int, 0),
        forall|k: int| 0 <= k < r@.len() ==> (#[trigger] r@[k]).fits(text@.len() as int),
{
    let n = text.len();
    let mut out: Vec<ByteRange> = Vec::new();
    let mut i: usize = 0;
    while i < stmts.len()
        invariant
            i <= stmts@.len(),
            n == text@.len(),
            path_candidates(text@, stmts@, point.0 as int, 0) == out@ + path_candidates(
                text@,
                stmts@,
                point.0 as int,
                i as int,
            ),
            forall|k: int| 0 <= k < out@.len() ==> (#[trigger] out@[k]).fits(text@.len() as int),
        decreases stmts@.len() - i,
    {
        let range = stmts[i];
        let is_attr = range.start.0 <= range.end.0 && range.end.0 <= n && starts_with(
            &text[range.start.0..range.end.0],
            "#[path ".as_bytes(),
        );
        if is_attr && i + 1 < stmts.len() {
            let modend = stmts[i + 1].end;
            if range.start.0 < point.0 && point.0 < modend.0 {
                let blob = &text[range.start.0..range.end.0];
                proof {
                    lemma_find_byte_from(blob@, 0x22, 0);
                }
                let found = match find_byte(blob, 0x22) {
                    Some(q) => {
                        proof {
                            lemma_find_byte_from(blob@, 0x22, q + 1);
                        }
                        match find_byte_from(blob, 0x22, q + 1) {
                            Some(e) => Some(
                                ByteRange {
                                    start: BytePos(range.start.0 + q + 1),
                                    end: BytePos(range.start.0 + e),
                                },
                            ),
                            None => None,
                        }
                    },
                    None => None,
                };
                match found {
                    Some(path) => {
                        proof {
                            let rest = path_candidates(text@, stmts@, point.0 as int, i + 2);
                            assert(out@ + (seq![path] + rest) =~= out@.push(path) + rest);
                        }
                        out.push(path);
                    },
                    None => {
                        proof {
                            assert(out@ + Seq::<ByteRange>::empty() =~= out@);
                        }
                        return out;
                    },
                }
            }
            i += 2;
        } else {
            i += 1;
        }
    }
    proof {
        assert(out@ + Seq::<ByteRange>::empty() =~= out@);
    }
    out
}

/// The places that `#[path]` attributes name: for each of `ranges` the text that it
/// holds, as a path of one step.
pub open spec fn path_places(text: Seq<u8>, ranges: Seq<ByteRange>) -> Seq<Seq<Seq<u8>>> {
    Seq::new(
        ranges.len(),
        |k: int| seq![text.subrange(ranges[k].start.0 as int, ranges[k].end.0 as int)],
    )
}

/// Copies the paths that `#[path]` attributes name out of the text.
pub fn path_attribute_places(text: &[u8], ranges: &[ByteRange]) -> (r: Vec<Vec<Vec<u8>>>)
    requires
        forall|k: int| 0 <= k < ranges@.len() ==> (#[trigger] ranges@[k]).fits(text@.len() as int),
    ensures
        place_views(r@) == path_places(text@, ranges@),
{
    let mut out: Vec<Vec<Vec<u8>>> = Vec::new();
    let mut i: usize = 0;
    while i < ranges.len()
        invariant
            i <= ranges@.len(),
            out@.len() == i,
            forall|k: int| 0 <= k < ranges@.len() ==> (#[trigger] ranges@[k]).fits(text@.len() as int),
            forall|k: int| 0 <= k < i ==> place_views(out@)[k] == path_places(text@, ranges@)[k],
        decreases ranges@.len() - i,
    {
        let range = ranges[i];
        let mut place: Vec<Vec<u8>> = Vec::new();
        place.push(slice_to_vec(&text[range.start.0..range.end.0]));
        let ghost before = out@;
        out.push(place);
        proof {
            assert(place_views(out@)[i as int] =~= path_places(text@, ranges@)[i as int]);
            assert forall|k: int| 0 <= k < i implies place_views(out@)[k] == path_places(
                text@,
                ranges@,
            )[k] by {
                assert(place_views(out@)[k] =~= place_views(before)[k]);
            }
        }
        i += 1;
    }
    proof {
        assert(place_views(out@) =~= path_places(text@, ranges@));
    }
    out
}

/// The file that a `#[path = "..."]` attribute gives to the module statement around
/// `point`: of the paths that `path_attributes_at` lists, each taken from `parentdir`,
/// the first where the session knows a file.
pub fn get_module_file_from_path<S: StatementIterator, F: Session>(
    msrc: Src,
    point: BytePos,
    parentdir: &[u8],
    splitter: &S,
    session: &F,
) -> (r: Option<Vec<u8>>)
    requires
        msrc.wf(),
    ensures
        point.0 == 0 ==> r is None,
        exists|stmts: Seq<ByteRange>, paths: Seq<Seq<u8>>, found: Seq<bool>|
            #![trigger path_candidates(msrc.bytes(), stmts, point.0 as int, 0), picked(paths, found)]
            asked_in_order(
                path_candidates(msrc.bytes(), stmts, point.0 as int, 0).len() as int,
                paths,
                found,
            ) && option_bytes(r) == picked(paths, found),
{
    let text = msrc.as_bytes();
    let stmts = splitter.iter_stmts(msrc);
    let ranges = path_attributes_at(text, stmts.as_slice(), point);
    let places = path_attribute_places(text, ranges.as_slice());
    let r = first_file(parentdir, &places, session);
    proof {
        assert(places@.len() == place_views(places@).len());
        if point.0 == 0 {
            lemma_no_path_candidates(text@, stmts@, 0);
        }
        let (paths, found) = choose|paths: Seq<Seq<u8>>, found: Seq<bool>|
            asked_in_order(places@.len() as int, paths, found) && option_bytes(r)
                == #[trigger] picked(paths, found);
        assert(asked_in_order(
            path_candidates(msrc.bytes(), stmts@, point.0 as int, 0).len() as int,
            paths,
            found,
        ));
    }
    r
}

/// No attribute begins before the first byte.
proof fn lemma_no_path_candidates(text: Seq<u8>, stmts: Seq<ByteRange>, i: int)
    requires
        0 <= i,
    ensures
        path_candidates(text, stmts, 0, i).len() == 0,
    decreases stmts.len() - i,
{
    if i < stmts.len() {
        lemma_no_path_candidates(text, stmts, i + 1);
        if i + 1 < stmts.len() {
            lemma_no_path_candidates(text, stmts, i + 2);
        }
    }
}

/// Whether a text begins as an `impl` or a trait does.
pub open spec fn is_impl_or_trait(blob: Seq<u8>) -> bool {
    spec_starts_with(blob, "impl".spec_bytes()) || spec_starts_with(blob, "trait".spec_bytes())
        || spec_starts_with(blob, "pub trait".spec_bytes())
}

/// What one step of the search for the `impl` or trait around a point finds.
#[derive(Clone, Copy, Debug, PartialEq, Eq, Structural)]
pub enum ImplStep {
    /// The `impl` or trait begins here.
    Found(BytePos),
    /// The statement around the point is a block of another kind: the search goes on
    /// in its body, which begins here.
    Descend(BytePos),
    /// No statement of the scope ends behind the point, or the one that does begins
    /// outside the text.
    NotFound,
    /// The statement around the point is no `impl` or trait, and no `{` stands between
    /// its start and the point.
    NoBrace,
}

/// One step of the search for the `impl` or trait around `point`, in the scope that
/// begins at `scopestart` and has the statements `stmts`. The statement looked at is
/// the first that ends behind `point`; it is read from its start to the end of `text`.
pub open spec fn impl_step(text: Seq<u8>, stmts: Seq<ByteRange>, point: int, scopestart: int) -> ImplStep {
    match stmt_ending_after(stmts, scopestart, point, 0) {
        None => ImplStep::NotFound,
        Some(i) => {
            let start = scopestart + stmts[i].start.0;
            if start > text.len() {
                ImplStep::NotFound
            } else {
                let blob = text.subrange(start, text.len() as int);
                if is_impl_or_trait(blob) {
                    ImplStep::Found(BytePos(start as usize))
                } else {
                    match spec_find_byte(blob, 0x7b) {
                        Some(k) => if start + k + 1 <= point {
                            ImplStep::Descend(BytePos((start + k + 1) as usize))
                        } else {
                            ImplStep::NoBrace
                        },
                        None => ImplStep::NoBrace,
                    }
                }
            }
        },
    }
}

/// Takes one step of the search for the `impl` or trait around `point`.
pub fn find_impl_step(text: &[u8], stmts: &[ByteRange], point: BytePos, scopestart: BytePos) -> (r:
    ImplStep)
    requires
        scopestart.0 <= point.0 <= text@.len(),
    ensures
        r == impl_step(text@, stmts@, point.0 as int, scopestart.0 as int),
        r matches ImplStep::Descend(next) ==> scopestart.0 < next.0 <= point.0,
        r matches ImplStep::Found(start) ==> start.0 <= text@.len(),
{
    let n = text.len();
    match find_stmt_ending_after(stmts, scopestart, point) {
        None => ImplStep::NotFound,
        Some(i) => {
            let range = stmts[i];
            if range.start.0 > n - scopestart.0 {
                return ImplStep::NotFound;
            }
            let start: usize = scopestart.0 + range.start.0;
            let blob = &text[start..n];
            if starts_with(blob, "impl".as_bytes()) || starts_with(blob, "trait".as_bytes())
                || starts_with(blob, "pub trait".as_bytes()) {
                return ImplStep::Found(BytePos(start));
            }
            proof {
                lemma_find_byte_from(blob@, 0x7b, 0);
            }
            match find_byte(blob, 0x7b) {
                Some(k) => {
                    if start + k + 1 <= point.0 {
                        ImplStep::Descend(BytePos(start + k + 1))
                    } else {
                        ImplStep::NoBrace
                    }
                },
                None => ImplStep::NoBrace,
            }
        },
    }
}

/// A search that met a block without the brace that its shape calls for.
#[derive(Clone, Copy, Debug, PartialEq, Eq, Structural)]
pub enum ScopeError {
    /// No `{` stands where the body of the statement around the point should open.
    MissingBrace,
}

/// The last step of a search, as its result tells it.
pub open spec fn impl_step_result(r: Result<Option<BytePos>, ScopeError>) -> ImplStep {
    match r {
        Ok(Some(start)) => ImplStep::Found(start),
        Ok(None) => ImplStep::NotFound,
        Err(_) => ImplStep::NoBrace,
    }
}

/// Where the `impl` or trait around `point` begins. The search starts in the scope
/// that begins at `scopestart` and goes down into the statement around `point` until
/// it meets an `impl` or a trait.
pub fn find_impl_start<S: StatementIterator>(
    msrc: Src,
    point: BytePos,
    scopestart: BytePos,
    splitter: &S,
) -> (r: Result<Option<BytePos>, ScopeError>)
    requires
        msrc.wf(),
        scopestart.0 <= point.0 <= msrc.len(),
    ensures
        r matches Ok(Some(start)) ==> start.0 <= msrc.len() && is_impl_or_trait(
            msrc.bytes().subrange(start.0 as int, msrc.len() as int),
        ),
        exists|stmts: Seq<ByteRange>, scope: int|
            scopestart.0 <= scope <= point.0 && impl_step_result(r) == #[trigger] impl_step(
                msrc.bytes(),
                stmts,
                point.0 as int,
                scope,
            ),
{
    let text = msrc.as_bytes();
    let mut scope = scopestart;
    loop
        invariant
            msrc.wf(),
            text@ == msrc.bytes(),
            scopestart.0 <= scope.0 <= point.0 <= msrc.len(),
        decreases point.0 - scope.0,
    {
        let stmts = splitter.iter_stmts(msrc.shift_start(scope));
        let step = find_impl_step(text, stmts.as_slice(), point, scope);
        let r = match step {
            ImplStep::Found(start) => Ok(Some(start)),
            ImplStep::Descend(next) => {
                scope = next;
                continue;
            },
            ImplStep::NotFound => Ok(None),
            ImplStep::NoBrace => Err(ScopeError::MissingBrace),
        };
        proof {
            assert(impl_step_result(r) == impl_step(
                msrc.bytes(),
                stmts@,
                point.0 as int,
                scope.0 as int,
            ));
        }
        return r;
    }
}

} // verus!
