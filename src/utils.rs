use vstd::prelude::*;

verus! {

/// A range of byte offsets in the source text.
#[derive(Clone, Copy, PartialEq, Eq, Structural, Debug)]
pub struct Span {
    pub start: usize,
    pub end: usize,
}

/// A piece of syntax with the span of text it came from.
#[derive(Clone, Copy, Debug)]
pub struct Spanned<T> {
    pub data: T,
    pub span: Span,
}

impl<T> Spanned<T> {
    /// `data` spanning from the start of `initial_span` to the end of `final_span`.
    pub fn from(data: T, initial_span: Span, final_span: Span) -> (r: Self)
        ensures
            r.data == data,
            r.span == (Span { start: initial_span.start, end: final_span.end }),
    {
        Spanned { data, span: Span { start: initial_span.start, end: final_span.end } }
    }
}

} // verus!
