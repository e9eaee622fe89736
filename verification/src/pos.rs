//! Byte offsets and byte ranges into a source buffer.

use vstd::prelude::*;

verus! {

/// An offset into a source buffer, counted in bytes.
#[derive(Clone, Copy, Debug, PartialEq, Eq, PartialOrd, Ord, Hash, Structural)]
pub struct BytePos(pub usize);

impl BytePos {
    /// The offset of the first byte.
    pub fn zero() -> (r: BytePos)
        ensures
            r.0 == 0,
    {
        BytePos(0)
    }

    /// The offset one byte further.
    pub fn increment(self) -> (r: BytePos)
        requires
            self.0 < usize::MAX,
        ensures
            r.0 == self.0 + 1,
    {
        BytePos(self.0 + 1)
    }

    /// The offset one byte back.
    pub fn decrement(self) -> (r: BytePos)
        requires
            self.0 > 0,
        ensures
            r.0 == self.0 - 1,
    {
        BytePos(self.0 - 1)
    }

    /// The offset `other` bytes further.
    pub fn add(self, other: BytePos) -> (r: BytePos)
        requires
            self.0 + other.0 <= usize::MAX,
        ensures
            r.0 == self.0 + other.0,
    {
        BytePos(self.0 + other.0)
    }

    /// The offset `other` bytes back.
    pub fn sub(self, other: BytePos) -> (r: BytePos)
        requires
            other.0 <= self.0,
        ensures
            r.0 == self.0 - other.0,
    {
        BytePos(self.0 - other.0)
    }
}

/// The bytes from `start` up to, but not including, `end`.
#[derive(Clone, Copy, Debug, PartialEq, Eq, Hash, Structural)]
pub struct ByteRange {
    pub start: BytePos,
    pub end: BytePos,
}

impl ByteRange {
    /// Whether the range lies within a buffer of `len` bytes.
    pub open spec fn fits(self, len: int) -> bool {
        self.start.0 <= self.end.0 <= len
    }

    /// Whether offset `i` lies in the range.
    pub open spec fn covers(self, i: int) -> bool {
        self.start.0 <= i < self.end.0
    }

    /// Whether `point` lies in the range.
    pub open spec fn spec_contains(self, point: BytePos) -> bool {
        self.start.0 <= point.0 < self.end.0
    }

    /// The range from `start` up to `end`.
    pub fn new(start: BytePos, end: BytePos) -> (r: ByteRange)
        ensures
            r.start == start,
            r.end == end,
    {
        ByteRange { start, end }
    }

    /// The number of bytes in the range; zero where the end lies before the start.
    pub fn len(self) -> (n: usize)
        ensures
            n == if self.start.0 <= self.end.0 { self.end.0 - self.start.0 } else { 0 },
    {
        if self.start.0 <= self.end.0 {
            self.end.0 - self.start.0
        } else {
            0
        }
    }

    /// Says whether `point` lies in the range.
    #[verifier::when_used_as_spec(spec_contains)]
    pub fn contains(self, point: BytePos) -> (b: bool)
        ensures
            b == self.spec_contains(point),
    {
        self.start.0 <= point.0 && point.0 < self.end.0
    }

    /// The same range, `shift` bytes further.
    pub fn shift(self, shift: BytePos) -> (r: ByteRange)
        requires
            self.start.0 + shift.0 <= usize::MAX,
            self.end.0 + shift.0 <= usize::MAX,
        ensures
            r.start.0 == self.start.0 + shift.0,
            r.end.0 == self.end.0 + shift.0,
    {
        ByteRange { start: BytePos(self.start.0 + shift.0), end: BytePos(self.end.0 + shift.0) }
    }
}

} // verus!
