use vstd::prelude::*;

verus! {

/// A position in the source: `column` counts code points since the start
/// of the line, `line` counts line terminators seen so far.
#[derive(Debug, Clone, Copy, PartialEq, Eq, Structural)]
pub struct Location {
    pub column: usize,
    pub line: usize,
}

impl Location {
    /// The start of the source.
    pub fn new() -> (r: Location)
        ensures
            r.column == 0,
            r.line == 0,
    {
        Location { column: 0, line: 0 }
    }
}

impl Default for Location {
    fn default() -> (r: Location)
        ensures
            r.column == 0,
            r.line == 0,
    {
        Location::new()
    }
}

/// An ordered pair of locations bracketing a piece of source.
#[derive(Debug, Clone, Copy, PartialEq, Eq, Structural)]
pub struct Span {
    pub from: Location,
    pub to: Location,
}

/// `a` comes no later than `b`.
pub open spec fn location_le(a: Location, b: Location) -> bool {
    a.line < b.line || (a.line == b.line && a.column <= b.column)
}

pub open spec fn zero_location() -> Location {
    Location { column: 0, line: 0 }
}

pub open spec fn zero_span() -> Span {
    Span { from: zero_location(), to: zero_location() }
}

/// From the start of `a` to the end of `b`.
pub open spec fn combined(a: Span, b: Span) -> Span {
    Span { from: a.from, to: b.to }
}

/// From the end of `a` to the start of `b`.
pub open spec fn between_spans(a: Span, b: Span) -> Span {
    Span { from: a.to, to: b.from }
}

pub open spec fn span_of_pairs(p: ((usize, usize), (usize, usize))) -> Span {
    Span {
        from: Location { column: p.0.0, line: p.0.1 },
        to: Location { column: p.1.0, line: p.1.1 },
    }
}

impl Span {
    /// The empty span at the start of the source.
    pub fn new() -> (r: Span)
        ensures
            r == zero_span(),
    {
        Span { from: Location::new(), to: Location::new() }
    }

    /// The span from the start of `start` to the end of `end`.
    pub fn combine(start: &Span, end: &Span) -> (r: Span)
        ensures
            r == combined(*start, *end),
    {
        Span { from: start.from, to: end.to }
    }

    /// The span from the end of `start` to the start of `end`.
    pub fn between(start: &Span, end: &Span) -> (r: Span)
        ensures
            r == between_spans(*start, *end),
    {
        Span { from: start.to, to: end.from }
    }
}

impl Default for Span {
    fn default() -> (r: Span)
        ensures
            r == zero_span(),
    {
        Span::new()
    }
}

impl From<((usize, usize), (usize, usize))> for Span {
    fn from(pairs: ((usize, usize), (usize, usize))) -> (r: Span) {
        Span {
            from: Location { column: (pairs.0).0, line: (pairs.0).1 },
            to: Location { column: (pairs.1).0, line: (pairs.1).1 },
        }
    }
}

impl vstd::std_specs::convert::FromSpecImpl<((usize, usize), (usize, usize))> for Span {
    open spec fn obeys_from_spec() -> bool {
        true
    }

    open spec fn from_spec(pairs: ((usize, usize), (usize, usize))) -> Span {
        span_of_pairs(pairs)
    }
}

/// A value together with the span of source it came from.
#[derive(Debug, Clone, PartialEq, Eq)]
pub struct Spanned<T> {
    pub node: T,
    pub span: Span,
}

/// Attaching a span to a value.
pub trait Spanning: Sized {
    fn spanning(self, span: Span) -> (r: Spanned<Self>)
        ensures
            r.node == self,
            r.span == span,
    ;
}

impl<T> Spanning for T {
    fn spanning(self, span: Span) -> (r: Spanned<T>) {
        Spanned { node: self, span }
    }
}

} // verus!
