//! Source locations and parse diagnostics.
//!
//! A [`Span`] is a pair of character offsets `[start, end)` into the source
//! text. A [`ParseError`] couples a span with a message; the parser collects
//! these instead of aborting, so one pass can report many independent
//! problems.

use vstd::prelude::*;

verus! {

/// A half-open range `[start, end)` of character offsets into the source.
#[derive(Clone, Copy, Debug, PartialEq, Eq, Structural)]
pub struct Span {
    pub start: usize,
    pub end: usize,
}

impl Span {
    /// The empty span at the very start of the source.
    pub fn empty() -> (s: Self)
        ensures
            s.start == 0,
            s.end == 0,
    {
        Self { start: 0, end: 0 }
    }

    pub fn new(start: usize, end: usize) -> (s: Self)
        ensures
            s.start == start,
            s.end == end,
    {
        Self { start, end }
    }

    /// The span clamped to the source, as a `start..end` index range usable
    /// for highlighting exactly the offending characters.
    pub fn exact_range(&self, source_len: usize) -> (r: (usize, usize))
        requires
            source_len >= 1,
            min_usize(self.end, (source_len - 1) as usize) >= 1,
        ensures
            r.1 == min_usize(self.end, (source_len - 1) as usize),
            r.0 == min_usize(self.start, (r.1 - 1) as usize),
    {
        let end = min_exec(self.end, source_len - 1);
        let start = min_exec(self.start, end - 1);
        (start, end)
    }

    /// A range of roughly ten characters of context on either side of the
    /// span, clamped to the source.
    pub fn surrounding_range(&self, source_len: usize) -> (r: (usize, usize))
        requires
            source_len >= 1,
            self.end + 10 <= usize::MAX,
        ensures
            r.0 == if self.start >= 10 { (self.start - 10) as int } else { 0int },
            r.1 == min_usize((self.end + 10) as usize, (source_len - 1) as usize),
    {
        let start = if self.start >= 10 { self.start - 10 } else { 0 };
        let end = min_exec(self.end + 10, source_len - 1);
        (start, end)
    }
}

impl Default for Span {
    fn default() -> (s: Self)
        ensures
            s.start == 0,
            s.end == 0,
    {
        Self::empty()
    }
}

pub open spec fn min_usize(a: usize, b: usize) -> usize {
    if a <= b {
        a
    } else {
        b
    }
}

/// The smaller of two offsets.
pub fn min_exec(a: usize, b: usize) -> (r: usize)
    ensures
        r == min_usize(a, b),
{
    if a <= b {
        a
    } else {
        b
    }
}

/// One syntax problem: where it is, and what it is.
#[derive(Clone, Copy, Debug)]
pub struct ParseError {
    pub span: Span,
    pub message: &'static str,
}

} // verus!
