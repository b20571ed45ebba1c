//! Splitting a source text into grapheme clusters, each with its span.
use crate::span::{Location, Span};
use crate::unicode::{graphemes_of, split_graphemes};
use vstd::prelude::*;
use vstd::string::StrSliceExecFns;

verus! {

/// One extended grapheme cluster of the source and where it stands.
#[derive(Debug, Clone, PartialEq, Eq)]
pub struct Symbol {
    pub grapheme: String,
    pub span: Span,
}

/// `\n`, `\r` and `\r\n` end a line.
pub open spec fn is_line_terminator(g: Seq<char>) -> bool {
    g == seq!['\n'] || g == seq!['\r'] || g == seq!['\r', '\n']
}

/// The location after a grapheme that starts at `loc`: a line terminator
/// moves to the start of the next line, anything else moves the column on by
/// its number of code points.
pub open spec fn step_location(loc: Location, g: Seq<char>) -> Location {
    if is_line_terminator(g) {
        Location { column: 0, line: (loc.line + 1) as usize }
    } else {
        Location { column: (loc.column + g.len()) as usize, line: loc.line }
    }
}

/// The location after the first `n` graphemes of `gs`.
pub open spec fn location_after(gs: Seq<Seq<char>>, n: nat) -> Location
    decreases n,
{
    if n == 0 || n > gs.len() {
        Location { column: 0, line: 0 }
    } else {
        step_location(location_after(gs, (n - 1) as nat), gs[n - 1])
    }
}

/// The `i`-th symbol that scanning a text with graphemes `gs` gives.
pub open spec fn scanned_symbol(gs: Seq<Seq<char>>, i: int, sym: Symbol) -> bool {
    &&& sym.grapheme@ == gs[i]
    &&& sym.span.from == location_after(gs, i as nat)
    &&& sym.span.to == location_after(gs, (i + 1) as nat)
}

/// How a symbol's span moves the location on, in exact arithmetic.
pub open spec fn advances(sym: Symbol) -> bool {
    if is_line_terminator(sym.grapheme@) {
        sym.span.to.column == 0 && sym.span.to.line == sym.span.from.line + 1
    } else {
        sym.span.to.column == sym.span.from.column + sym.grapheme@.len()
            && sym.span.to.line == sym.span.from.line
    }
}

pub(crate) fn is_terminator_grapheme(g: &str) -> (r: bool)
    ensures
        r == is_line_terminator(g@),
{
    let n = g.unicode_len();
    if n == 1 {
        let c = g.get_char(0);
        proof {
            if c == '\n' {
                assert(g@ =~= seq!['\n']);
            }
            if c == '\r' {
                assert(g@ =~= seq!['\r']);
            }
        }
        c == '\n' || c == '\r'
    } else if n == 2 {
        let c0 = g.get_char(0);
        let c1 = g.get_char(1);
        proof {
            if c0 == '\r' && c1 == '\n' {
                assert(g@ =~= seq!['\r', '\n']);
            }
        }
        c0 == '\r' && c1 == '\n'
    } else {
        false
    }
}

/// Splits `string` into its extended grapheme clusters, each spanned by
/// the location before it and the location after it. Never fails: the
/// graphemes cover the input exactly, each symbol's span starts where the
/// previous one ends, and the column goes back to zero only after a line
/// terminator.
pub fn scan(string: &str) -> (r: Vec<Symbol>)
    ensures
        r@.len() == graphemes_of(string@).len(),
        forall|i: int| 0 <= i < r@.len() ==> scanned_symbol(graphemes_of(string@), i, #[trigger] r@[i]),
        r@.map_values(|sym: Symbol| sym.grapheme@).flatten() == string@,
        r@.len() > 0 ==> r@[0].span.from == (Location { column: 0, line: 0 }),
        forall|i: int| 0 <= i < r@.len() - 1 ==> (#[trigger] r@[i]).span.to == r@[i + 1].span.from,
        forall|i: int| 0 <= i < r@.len() ==> crate::span::location_le((#[trigger] r@[i]).span.from, r@[i].span.to),
        forall|i: int| 0 <= i < r@.len() ==> (is_line_terminator((#[trigger] r@[i]).grapheme@) <==> (r@[i].span.to.column == 0 && r@[i].span.to.line == r@[i].span.from.line + 1)),
        forall|i: int| 0 <= i < r@.len() && !is_line_terminator((#[trigger] r@[i]).grapheme@) ==> r@[i].span.to.column == r@[i].span.from.column + r@[i].grapheme@.len() && r@[i].span.to.line == r@[i].span.from.line,
{
    let total = string.unicode_len();
    let graphemes = split_graphemes(string);
    let ghost gs = graphemes_of(string@);
    let ghost views = graphemes@.map_values(|g: String| g@);
    let mut symbols: Vec<Symbol> = Vec::new();
    let mut location = Location::new();
    let mut i: usize = 0;
    proof {
        assert(views.skip(0) =~= views);
    }
    while i < graphemes.len()
        invariant
            graphemes@.map_values(|g: String| g@) == gs,
            views == gs,
            views.flatten() == string@,
            forall|k: int| 0 <= k < graphemes@.len() ==> (#[trigger] graphemes@[k])@.len() > 0,
            total as int == string@.len(),
            0 <= i <= graphemes.len(),
            symbols@.len() == i,
            location == location_after(gs, i as nat),
            location.column + views.skip(i as int).flatten().len() <= total,
            location.line <= i,
            forall|k: int| 0 <= k < i ==> scanned_symbol(gs, k, #[trigger] symbols@[k]),
            forall|k: int| 0 <= k < i ==> advances(#[trigger] symbols@[k]),
        decreases graphemes.len() - i,
    {
        let g = graphemes[i].as_str();
        let count = g.unicode_len();
        let from = location;
        proof {
            assert(views[i as int] == g@);
            lemma_flatten_skip(views, i as int);
        }
        let terminator = is_terminator_grapheme(g);
        if terminator {
            location = Location { column: 0, line: location.line + 1 };
        } else {
            location = Location { column: location.column + count, line: location.line };
        }
        symbols.push(Symbol { grapheme: graphemes[i].clone(), span: Span { from, to: location } });
        i = i + 1;
    }
    proof {
        lemma_scan_facts(gs, symbols@, string@);
    }
    symbols
}

proof fn lemma_flatten_skip(views: Seq<Seq<char>>, i: int)
    requires
        0 <= i < views.len(),
    ensures
        views.skip(i).flatten() == views[i] + views.skip(i + 1).flatten(),
{
    assert(views.skip(i).drop_first() =~= views.skip(i + 1));
    assert(views.skip(i).first() == views[i]);
}

proof fn lemma_scan_facts(gs: Seq<Seq<char>>, symbols: Seq<Symbol>, text: Seq<char>)
    requires
        symbols.len() == gs.len(),
        gs.flatten() == text,
        forall|k: int| 0 <= k < gs.len() ==> (#[trigger] gs[k]).len() > 0,
        forall|k: int| 0 <= k < symbols.len() ==> scanned_symbol(gs, k, #[trigger] symbols[k]),
        forall|k: int| 0 <= k < symbols.len() ==> advances(#[trigger] symbols[k]),
    ensures
        symbols.map_values(|sym: Symbol| sym.grapheme@).flatten() == text,
        symbols.len() > 0 ==> symbols[0].span.from == (Location { column: 0, line: 0 }),
        forall|i: int| 0 <= i < symbols.len() - 1 ==> (#[trigger] symbols[i]).span.to == symbols[i + 1].span.from,
        forall|i: int| 0 <= i < symbols.len() ==> crate::span::location_le((#[trigger] symbols[i]).span.from, symbols[i].span.to),
        forall|i: int| 0 <= i < symbols.len() ==> (is_line_terminator((#[trigger] symbols[i]).grapheme@) <==> (symbols[i].span.to.column == 0 && symbols[i].span.to.line == symbols[i].span.from.line + 1)),
        forall|i: int| 0 <= i < symbols.len() && !is_line_terminator((#[trigger] symbols[i]).grapheme@) ==> symbols[i].span.to.column == symbols[i].span.from.column + symbols[i].grapheme@.len() && symbols[i].span.to.line == symbols[i].span.from.line,
{
    assert forall|k: int| 0 <= k < symbols.len() implies (#[trigger] symbols[k]).grapheme@ == gs[k] by {
        assert(scanned_symbol(gs, k, symbols[k]));
    }
    assert(symbols.map_values(|sym: Symbol| sym.grapheme@) =~= gs);
    assert forall|k: int| 0 <= k < symbols.len() - 1 implies (#[trigger] symbols[k]).span.to == symbols[k + 1].span.from by {
        assert(scanned_symbol(gs, k, symbols[k]));
        assert(scanned_symbol(gs, k + 1, symbols[k + 1]));
    }
    if symbols.len() > 0 {
        assert(scanned_symbol(gs, 0, symbols[0]));
    }
    assert forall|k: int| 0 <= k < symbols.len() implies crate::span::location_le((#[trigger] symbols[k]).span.from, symbols[k].span.to)
        && (is_line_terminator(symbols[k].grapheme@) <==> (symbols[k].span.to.column == 0 && symbols[k].span.to.line == symbols[k].span.from.line + 1))
        && (!is_line_terminator(symbols[k].grapheme@) ==> symbols[k].span.to.column == symbols[k].span.from.column + symbols[k].grapheme@.len() && symbols[k].span.to.line == symbols[k].span.from.line) by {
        assert(advances(symbols[k]));
    }
}

} // verus!
