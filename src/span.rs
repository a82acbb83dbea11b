use crate::text::{slice_span, span_fits, span_text};
use vstd::prelude::*;

verus! {

/// A byte range of the source text: `len` bytes starting at byte offset `loc`.
#[derive(Debug, Clone, Copy, PartialEq, Eq, Structural)]
pub struct Span {
    pub loc: u32,
    pub len: u16,
}

impl Span {
    /// Byte offset just past the end of the span.
    pub open spec fn end(self) -> int {
        self.loc + self.len
    }

    /// From the beginning of `self` to the end of `end`.
    pub fn to(&self, end: &Span) -> (r: Span)
        requires
            self.loc <= end.end() <= u32::MAX,
        ensures
            r.loc == self.loc,
            r.len == (end.end() - self.loc) as u16,
    {
        Span { loc: self.loc, len: ((end.loc + end.len as u32) - self.loc) as u16 }
    }

    /// From the beginning of `self` to the beginning of `end`.
    pub fn until(&self, end: &Span) -> (r: Span)
        requires
            self.loc <= end.loc,
        ensures
            r.loc == self.loc,
            r.len == (end.loc - self.loc) as u16,
    {
        Span { loc: self.loc, len: (end.loc - self.loc) as u16 }
    }

    /// From the end of `self` to the beginning of `end`.
    pub fn between(&self, end: &Span) -> (r: Span)
        requires
            self.end() <= end.loc,
        ensures
            r.loc == self.end(),
            r.len == (end.loc - self.end()) as u16,
    {
        let stop = self.loc + self.len as u32;
        Span { loc: stop, len: (end.loc - stop) as u16 }
    }

    /// The text that the span covers in `src`.
    pub fn in_src<'a>(&self, src: &'a str) -> (r: &'a str)
        requires
            span_fits(src@, *self),
        ensures
            r@ == span_text(src@, *self),
    {
        match slice_span(src, *self) {
            Some(t) => t,
            None => vstd::pervasive::unreached(),
        }
    }
}

} // verus!
