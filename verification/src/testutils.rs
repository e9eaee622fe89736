//! Helpers for writing source text in examples.

use vstd::prelude::*;
use crate::matchers::{lemma_line_finish, line_finish};

verus! {

/// The lines of `s` from offset `from` on, each without its first four bytes and,
/// unless nothing is left of it, with a line feed behind it. There is no result
/// where a line has less than four bytes.
pub open spec fn rejustified_from(s: Seq<u8>, from: int) -> Option<Seq<u8>>
    decreases s.len() - from + 1,
{
    if from < 0 || from >= s.len() {
        Some(Seq::empty())
    } else {
        let e = line_finish(s, from);
        if e - from < 4 || e > s.len() {
            None
        } else {
            let line = s.subrange(from + 4, e) + if e - from > 4 {
                seq![0x0au8]
            } else {
                Seq::empty()
            };
            match rejustified_from(s, e + 1) {
                Some(rest) => Some(line + rest),
                None => None,
            }
        }
    }
}

/// Takes the indentation off a block of text that is written indented by four
/// bytes, with a line feed before its first line: the first byte is dropped, then the
/// first four bytes of every line, then the line feed at the end.
pub fn rejustify(src: &[u8]) -> (r: Vec<u8>)
    requires
        src@.len() >= 1,
        rejustified_from(src@, 1) is Some,
        rejustified_from(src@, 1).unwrap().len() >= 1,
    ensures
        r@ == rejustified_from(src@, 1).unwrap().drop_last(),
{
    let n = src.len();
    let mut sb: Vec<u8> = Vec::new();
    let mut from: usize = 1;
    proof {
        assert(sb@ + rejustified_from(src@, 1).unwrap() =~= rejustified_from(src@, 1).unwrap());
    }
    while from < n
        invariant
            1 <= from,
            n == src@.len(),
            rejustified_from(src@, from as int) is Some,
            rejustified_from(src@, 1).unwrap() == sb@ + rejustified_from(
                src@,
                from as int,
            ).unwrap(),
        decreases n - from,
    {
        proof {
            lemma_line_finish(src@, from as int);
        }
        let mut e: usize = from;
        while e < n && src[e] != 0x0a
            invariant
                from <= e <= n,
                n == src@.len(),
                line_finish(src@, from as int) == line_finish(src@, e as int),
            decreases n - e,
        {
            e += 1;
        }
        let ghost before = sb@;
        let ghost rest = rejustified_from(src@, e + 1).unwrap();
        let mut p: usize = from + 4;
        while p < e
            invariant
                from + 4 <= p <= e <= n,
                n == src@.len(),
                sb@ == before + src@.subrange(from + 4, p as int),
            decreases e - p,
        {
            sb.push(src[p]);
            p += 1;
            assert(src@.subrange(from + 4, p as int) =~= src@.subrange(from + 4, p - 1).push(
                src@[p - 1],
            ));
        }
        if e - from > 4 {
            sb.push(0x0a);
        }
        proof {
            let line = src@.subrange(from + 4, e as int) + if e - from > 4 {
                seq![0x0au8]
            } else {
                Seq::empty()
            };
            assert(sb@ =~= before + line);
            assert(before + (line + rest) =~= sb@ + rest);
        }
        from = if e < n {
            e + 1
        } else {
            n
        };
    }
    proof {
        assert(sb@ + Seq::<u8>::empty() =~= sb@);
    }
    sb.pop();
    sb
}

/// The bytes of `src` from `range.0` up to `range.1`.
pub fn slice(src: &[u8], range: (usize, usize)) -> (r: &[u8])
    requires
        range.0 <= range.1 <= src@.len(),
    ensures
        r@ == src@.subrange(range.0 as int, range.1 as int),
{
    &src[range.0..range.1]
}

} // verus!
