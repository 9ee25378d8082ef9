//! Byte ranges inside source files, and values tagged with such a range.

use vstd::prelude::*;

verus! {

/// Identifies one source file registered in a compilation context.
#[derive(Debug, Clone, Copy, PartialEq, Eq, Structural, Hash, Default)]
pub struct SourceId(pub usize);

/// A half-open byte range `start..end` inside the source file `source_id`.
#[derive(Debug, Clone, Copy, PartialEq, Eq, Structural, Hash, Default)]
pub struct Span {
    pub start: usize,
    pub end: usize,
    pub source_id: SourceId,
}

/// A value together with the span of source text it came from.
#[derive(Debug, Clone, Copy, PartialEq, Eq, Hash, Default)]
pub struct Spanned<T> {
    item: T,
    span: Span,
}

impl<T> Spanned<T> {
    pub closed spec fn spec_item(&self) -> T {
        self.item
    }

    pub closed spec fn spec_span(&self) -> Span {
        self.span
    }

    pub fn new(item: T, span: Span) -> (r: Self)
        ensures
            r.spec_item() == item,
            r.spec_span() == span,
    {
        Self { item, span }
    }

    pub fn span(&self) -> (r: &Span)
        ensures
            *r == self.spec_span(),
    {
        &self.span
    }

    pub fn get(&self) -> (r: &T)
        ensures
            *r == self.spec_item(),
    {
        &self.item
    }
}

pub open spec fn min_usize(a: usize, b: usize) -> usize {
    if a <= b { a } else { b }
}

pub open spec fn max_usize(a: usize, b: usize) -> usize {
    if a >= b { a } else { b }
}

impl View for Span {
    type V = Span;

    open spec fn view(&self) -> Span {
        *self
    }
}

/// The smallest span that contains both `a` and `b`, in the file of `a`.
pub open spec fn covering(a: Span, b: Span) -> Span {
    Span { start: min_usize(a.start, b.start), end: max_usize(a.end, b.end), source_id: a.source_id }
}

impl Span {
    pub fn new(start: usize, end: usize, source_id: SourceId) -> (r: Self)
        ensures
            r == (Span { start, end, source_id }),
    {
        Self { start, end, source_id }
    }

    /// The smallest span that contains both `self` and `other`; both must lie in the
    /// same file.
    pub fn cover(self, other: Self) -> (r: Self)
        requires
            self.source_id == other.source_id,
        ensures
            r == covering(self, other),
    {
        let start = if self.start <= other.start { self.start } else { other.start };
        let end = if self.end >= other.end { self.end } else { other.end };
        Self::new(start, end, self.source_id)
    }
}


/// Covering is symmetric, and the cover contains both spans.
pub proof fn law_cover(a: Span, b: Span)
    requires
        a.source_id == b.source_id,
    ensures
        (Span {
            start: min_usize(a.start, b.start),
            end: max_usize(a.end, b.end),
            source_id: a.source_id,
        }) == (Span {
            start: min_usize(b.start, a.start),
            end: max_usize(b.end, a.end),
            source_id: b.source_id,
        }),
        min_usize(a.start, b.start) <= a.start && min_usize(a.start, b.start) <= b.start,
        max_usize(a.end, b.end) >= a.end && max_usize(a.end, b.end) >= b.end,
{
}
} // verus!
