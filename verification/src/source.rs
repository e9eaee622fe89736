//! A source text with the ranges of its code, and views into it.

use vstd::prelude::*;
use crate::pos::{BytePos, ByteRange};

verus! {

/// A source text together with its code chunks: the byte ranges that lie outside
/// every comment.
pub struct IndexedSource {
    pub code: Vec<u8>,
    pub idx: Vec<ByteRange>,
}

/// Whether byte `i` lies in one of the chunks.
pub open spec fn in_chunk(chunks: Seq<ByteRange>, i: int) -> bool {
    exists|k: int| 0 <= k < chunks.len() && #[trigger] chunks[k].covers(i)
}

impl IndexedSource {
    /// A source whose code chunks are `idx`.
    pub fn new(code: Vec<u8>, idx: Vec<ByteRange>) -> (r: IndexedSource)
        ensures
            r.code == code,
            r.idx == idx,
    {
        IndexedSource { code, idx }
    }

    /// A source without comments: all of it is one chunk of code.
    pub fn without_comments(code: Vec<u8>) -> (r: IndexedSource)
        ensures
            r.code == code,
            r.idx@ == seq![(ByteRange { start: BytePos(0), end: BytePos(code.len()) })],
    {
        let mut idx: Vec<ByteRange> = Vec::new();
        idx.push(ByteRange { start: BytePos(0), end: BytePos(code.len()) });
        IndexedSource { code, idx }
    }

    /// The view of the whole text.
    pub fn as_src(&self) -> (r: Src<'_>)
        ensures
            r.wf(),
            r.src == self,
            r.range.start.0 == 0,
            r.range.end.0 == self.code@.len(),
    {
        Src { src: self, range: ByteRange { start: BytePos(0), end: BytePos(self.code.len()) } }
    }
}

/// A view of a range of an indexed source. Offsets into a view count from its start.
#[derive(Clone, Copy)]
pub struct Src<'c> {
    pub src: &'c IndexedSource,
    pub range: ByteRange,
}

impl<'c> Src<'c> {
    /// The range lies within the text.
    pub open spec fn wf(self) -> bool {
        self.range.fits(self.src.code@.len() as int)
    }

    /// The bytes in view.
    pub open spec fn bytes(self) -> Seq<u8> {
        self.src.code@.subrange(self.range.start.0 as int, self.range.end.0 as int)
    }

    /// The view of the bytes from offset `from` up to offset `to` of this view.
    pub open spec fn window(self, from: int, to: int) -> Src<'c> {
        Src {
            src: self.src,
            range: ByteRange {
                start: BytePos((self.range.start.0 + from) as usize),
                end: BytePos((self.range.start.0 + to) as usize),
            },
        }
    }

    /// Whether byte `i` of the view is code, not comment.
    pub open spec fn is_code(self, i: int) -> bool {
        in_chunk(self.src.idx@, self.range.start.0 + i)
    }

    /// The number of bytes in view.
    pub open spec fn spec_len(self) -> usize {
        (self.range.end.0 - self.range.start.0) as usize
    }

    /// The number of bytes in view.
    #[verifier::when_used_as_spec(spec_len)]
    pub fn len(self) -> (n: usize)
        requires
            self.wf(),
        ensures
            n == self.spec_len(),
            n == self.bytes().len(),
    {
        self.range.end.0 - self.range.start.0
    }

    /// The bytes in view.
    pub fn as_bytes(self) -> (b: &'c [u8])
        requires
            self.wf(),
        ensures
            b@ == self.bytes(),
    {
        let code: &'c [u8] = self.src.code.as_slice();
        &code[self.range.start.0..self.range.end.0]
    }

    /// The view from offset `from` to the end.
    pub fn from(self, from: BytePos) -> (r: Src<'c>)
        requires
            self.wf(),
            from.0 <= self.len(),
        ensures
            r.wf(),
            r.src == self.src,
            r.range.start.0 == self.range.start.0 + from.0,
            r.range.end == self.range.end,
            r.bytes() == self.bytes().subrange(from.0 as int, self.len() as int),
            r == self.window(from.0 as int, self.len() as int),
    {
        let r = Src {
            src: self.src,
            range: ByteRange { start: BytePos(self.range.start.0 + from.0), end: self.range.end },
        };
        assert(r.bytes() =~= self.bytes().subrange(from.0 as int, self.len() as int));
        r
    }

    /// The view from the start up to offset `to`.
    pub fn to(self, to: BytePos) -> (r: Src<'c>)
        requires
            self.wf(),
            to.0 <= self.len(),
        ensures
            r.wf(),
            r.src == self.src,
            r.range.start == self.range.start,
            r.range.end.0 == self.range.start.0 + to.0,
            r.bytes() == self.bytes().subrange(0, to.0 as int),
            r == self.window(0, to.0 as int),
    {
        let r = Src {
            src: self.src,
            range: ByteRange { start: self.range.start, end: BytePos(self.range.start.0 + to.0) },
        };
        assert(r.bytes() =~= self.bytes().subrange(0, to.0 as int));
        r
    }

    /// The view from offset `from` up to offset `to`.
    pub fn from_to(self, from: BytePos, to: BytePos) -> (r: Src<'c>)
        requires
            self.wf(),
            from.0 <= to.0 <= self.len(),
        ensures
            r.wf(),
            r.src == self.src,
            r.range.start.0 == self.range.start.0 + from.0,
            r.range.end.0 == self.range.start.0 + to.0,
            r.bytes() == self.bytes().subrange(from.0 as int, to.0 as int),
            r == self.window(from.0 as int, to.0 as int),
    {
        let r = Src {
            src: self.src,
            range: ByteRange {
                start: BytePos(self.range.start.0 + from.0),
                end: BytePos(self.range.start.0 + to.0),
            },
        };
        assert(r.bytes() =~= self.bytes().subrange(from.0 as int, to.0 as int));
        r
    }

    /// The view that begins `shift` bytes further.
    pub fn shift_start(self, shift: BytePos) -> (r: Src<'c>)
        requires
            self.wf(),
            shift.0 <= self.len(),
        ensures
            r.wf(),
            r.src == self.src,
            r.range.start.0 == self.range.start.0 + shift.0,
            r.range.end == self.range.end,
            r.bytes() == self.bytes().subrange(shift.0 as int, self.len() as int),
            r == self.window(shift.0 as int, self.len() as int),
    {
        self.from(shift)
    }

    /// The view of `range`, which counts from the start of this view.
    pub fn shift_range(self, range: ByteRange) -> (r: Src<'c>)
        requires
            self.wf(),
            range.fits(self.len() as int),
        ensures
            r.wf(),
            r.src == self.src,
            r.range.start.0 == self.range.start.0 + range.start.0,
            r.range.end.0 == self.range.start.0 + range.end.0,
            r.bytes() == self.bytes().subrange(range.start.0 as int, range.end.0 as int),
            r == self.window(range.start.0 as int, range.end.0 as int),
    {
        self.from_to(range.start, range.end)
    }
}

} // verus!
