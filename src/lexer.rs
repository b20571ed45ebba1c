//! Folding grapheme symbols into tokens: whitespace and nested comments are
//! skipped, multi-character punctuation is told apart, literals are read up
//! to their closing delimiter.
use crate::scanner::{is_terminator_grapheme, location_after, scan, Symbol};
use crate::span::{combined, location_le, Span, Spanned};
use crate::token::{Token, TokenModel};
use crate::unicode::{
    alphabetic, alphanumeric, graphemes_of, is_alphabetic_char, is_alphanumeric_char,
    is_white_space, white_space,
};
use vstd::prelude::*;
use vstd::string::{StrSliceExecFns, StringExecFns};

verus! {

/// What can go wrong while lexing.
#[derive(Debug, PartialEq)]
pub enum LexError {
    InvalidSymbol(String),
    UnterminatedSpecial,
    UnterminatedComment,
    UnterminatedTerminal,
    EmptyTerminal,
}

pub enum LexErrorModel {
    InvalidSymbol(Seq<char>),
    UnterminatedSpecial,
    UnterminatedComment,
    UnterminatedTerminal,
    EmptyTerminal,
}

impl View for LexError {
    type V = LexErrorModel;

    open spec fn view(&self) -> LexErrorModel {
        match self {
            LexError::InvalidSymbol(s) => LexErrorModel::InvalidSymbol(s@),
            LexError::UnterminatedSpecial => LexErrorModel::UnterminatedSpecial,
            LexError::UnterminatedComment => LexErrorModel::UnterminatedComment,
            LexError::UnterminatedTerminal => LexErrorModel::UnterminatedTerminal,
            LexError::EmptyTerminal => LexErrorModel::EmptyTerminal,
        }
    }
}

/// A symbol as the lexer sees it: its grapheme and its span.
pub type SymbolModel = (Seq<char>, Span);

pub type LexFailure = (LexErrorModel, Span);

pub open spec fn symbol_model(sym: Symbol) -> SymbolModel {
    (sym.grapheme@, sym.span)
}

/// The symbols that scanning a text with graphemes `gs` gives.
pub open spec fn scanned(gs: Seq<Seq<char>>) -> Seq<SymbolModel> {
    Seq::new(
        gs.len(),
        |k: int| (gs[k], Span { from: location_after(gs, k as nat), to: location_after(gs, (k + 1) as nat) }),
    )
}

/// The grapheme holds exactly the character `c`.
pub open spec fn is_char(ms: Seq<SymbolModel>, i: int, c: char) -> bool {
    0 <= i < ms.len() && ms[i].0 == seq![c]
}

/// Whitespace: a line terminator, or a grapheme that starts with a
/// `White_Space` character.
pub open spec fn is_gap(g: Seq<char>) -> bool {
    crate::scanner::is_line_terminator(g) || (g.len() > 0 && white_space(g[0]))
}

pub open spec fn is_digit(g: Seq<char>) -> bool {
    g.len() > 0 && '0' <= g[0] && g[0] <= '9'
}

pub open spec fn digit_value(g: Seq<char>) -> usize {
    (g[0] as u32 - '0' as u32) as usize
}

pub open spec fn is_letter(g: Seq<char>) -> bool {
    g.len() > 0 && alphabetic(g[0])
}

pub open spec fn is_letter_or_digit(g: Seq<char>) -> bool {
    g.len() > 0 && alphanumeric(g[0])
}

/// The graphemes of the symbols `a .. b`, concatenated.
pub open spec fn text_between(ms: Seq<SymbolModel>, a: int, b: int) -> Seq<char>
    decreases b - a,
{
    if b <= a {
        Seq::empty()
    } else {
        text_between(ms, a, b - 1) + ms[b - 1].0
    }
}

/// Skipping whitespace and comments from symbol `i`, `depth` comments deep:
/// the index of the next symbol that starts a token, or the error met.
pub open spec fn skip_gap(ms: Seq<SymbolModel>, i: int, depth: nat) -> Result<int, LexFailure>
    decreases ms.len() - i,
{
    if i < 0 || i >= ms.len() {
        if depth == 0 {
            Ok(i)
        } else {
            Err((LexErrorModel::UnterminatedComment, ms[i - 1].1))
        }
    } else if is_char(ms, i, '(') && is_char(ms, i + 1, '*') {
        if is_char(ms, i + 2, ')') {
            Err((LexErrorModel::InvalidSymbol(seq!['(', '*', ')']), combined(ms[i].1, ms[i + 2].1)))
        } else {
            skip_gap(ms, i + 2, depth + 1)
        }
    } else if depth == 0 {
        if is_gap(ms[i].0) {
            skip_gap(ms, i + 1, 0)
        } else {
            Ok(i)
        }
    } else if is_char(ms, i, '*') && is_char(ms, i + 1, ')') {
        skip_gap(ms, i + 2, (depth - 1) as nat)
    } else {
        skip_gap(ms, i + 1, depth)
    }
}

/// The first index from `i` on whose grapheme is `close`, or the number of
/// symbols if there is none.
pub open spec fn find_close(ms: Seq<SymbolModel>, i: int, close: Seq<char>) -> int
    decreases ms.len() - i,
{
    if i < 0 || i >= ms.len() {
        ms.len() as int
    } else if ms[i].0 == close {
        i
    } else {
        find_close(ms, i + 1, close)
    }
}

/// A quoted literal opened by symbol `i`.
pub open spec fn lex_terminal(ms: Seq<SymbolModel>, i: int) -> Result<(TokenModel, Span, int), LexFailure> {
    let k = find_close(ms, i + 1, ms[i].0);
    if k >= ms.len() {
        Err((LexErrorModel::UnterminatedTerminal, ms[ms.len() - 1].1))
    } else if k == i + 1 {
        Err((LexErrorModel::EmptyTerminal, combined(ms[i].1, ms[k].1)))
    } else {
        Ok((TokenModel::Terminal(text_between(ms, i + 1, k)), combined(ms[i].1, ms[k].1), k + 1))
    }
}

/// A special sequence opened by symbol `i`.
pub open spec fn lex_special(ms: Seq<SymbolModel>, i: int) -> Result<(TokenModel, Span, int), LexFailure> {
    let k = find_close(ms, i + 1, seq!['?']);
    if k >= ms.len() {
        Err((LexErrorModel::UnterminatedSpecial, ms[ms.len() - 1].1))
    } else {
        Ok((TokenModel::Special(text_between(ms, i + 1, k)), combined(ms[i].1, ms[k].1), k + 1))
    }
}

/// Reading on a run of digits from symbol `j`, whitespace between digits
/// included: the value, the index of the last digit and where the run ends.
/// The value is kept in a machine word and wraps around on overflow.
pub open spec fn digits_from(ms: Seq<SymbolModel>, j: int, value: usize, last: int) -> (usize, int, int)
    decreases ms.len() - j,
{
    if j < 0 || j >= ms.len() {
        (value, last, j)
    } else if is_digit(ms[j].0) {
        digits_from(
            ms,
            j + 1,
            vstd::wrapping::usize_specs::wrapping_add(
                vstd::wrapping::usize_specs::wrapping_mul(value, 10),
                digit_value(ms[j].0),
            ),
            j,
        )
    } else if is_gap(ms[j].0) {
        digits_from(ms, j + 1, value, last)
    } else {
        (value, last, j)
    }
}

/// Reading on an identifier from symbol `j`, whitespace between its parts
/// included: the index of its last letter or digit and where it ends.
pub open spec fn name_from(ms: Seq<SymbolModel>, j: int, last: int) -> (int, int)
    decreases ms.len() - j,
{
    if j < 0 || j >= ms.len() {
        (last, j)
    } else if is_letter_or_digit(ms[j].0) {
        name_from(ms, j + 1, j)
    } else if is_gap(ms[j].0) {
        name_from(ms, j + 1, last)
    } else {
        (last, j)
    }
}

/// The letters and digits among the symbols `a .. b`, concatenated.
pub open spec fn name_text(ms: Seq<SymbolModel>, a: int, b: int) -> Seq<char>
    decreases b - a,
{
    if b <= a {
        Seq::empty()
    } else if is_letter_or_digit(ms[b - 1].0) {
        name_text(ms, a, b - 1) + ms[b - 1].0
    } else {
        name_text(ms, a, b - 1)
    }
}

pub open spec fn single(t: TokenModel, ms: Seq<SymbolModel>, i: int) -> Result<(TokenModel, Span, int), LexFailure> {
    Ok((t, ms[i].1, i + 1))
}

pub open spec fn pair(t: TokenModel, ms: Seq<SymbolModel>, i: int) -> Result<(TokenModel, Span, int), LexFailure> {
    Ok((t, combined(ms[i].1, ms[i + 1].1), i + 2))
}

/// The token that starts at symbol `i`, its span and the index after it.
pub open spec fn next_token(ms: Seq<SymbolModel>, i: int) -> Result<(TokenModel, Span, int), LexFailure> {
    let g = ms[i].0;
    if is_char(ms, i, ',') {
        single(TokenModel::Concatenation, ms, i)
    } else if is_char(ms, i, '=') {
        single(TokenModel::Definition, ms, i)
    } else if is_char(ms, i, '|') || is_char(ms, i, '!') {
        single(TokenModel::DefinitionSeparator, ms, i)
    } else if is_char(ms, i, ')') {
        single(TokenModel::EndGroup, ms, i)
    } else if is_char(ms, i, ']') {
        single(TokenModel::EndOption, ms, i)
    } else if is_char(ms, i, '/') {
        if is_char(ms, i + 1, ')') {
            pair(TokenModel::EndOption, ms, i)
        } else {
            single(TokenModel::DefinitionSeparator, ms, i)
        }
    } else if is_char(ms, i, '}') {
        single(TokenModel::EndRepeat, ms, i)
    } else if is_char(ms, i, ':') {
        if is_char(ms, i + 1, ')') {
            pair(TokenModel::EndRepeat, ms, i)
        } else {
            Err((LexErrorModel::InvalidSymbol(seq![':']), ms[i].1))
        }
    } else if is_char(ms, i, '-') {
        single(TokenModel::Exception, ms, i)
    } else if is_char(ms, i, '*') {
        single(TokenModel::Repetition, ms, i)
    } else if is_char(ms, i, '(') {
        if is_char(ms, i + 1, '/') {
            if is_char(ms, i + 2, ')') {
                Err((LexErrorModel::InvalidSymbol(seq!['(', '/', ')']), combined(ms[i].1, ms[i + 2].1)))
            } else {
                pair(TokenModel::StartOption, ms, i)
            }
        } else if is_char(ms, i + 1, ':') {
            if is_char(ms, i + 2, ')') {
                Err((LexErrorModel::InvalidSymbol(seq!['(', ':', ')']), combined(ms[i].1, ms[i + 2].1)))
            } else {
                pair(TokenModel::StartRepeat, ms, i)
            }
        } else {
            single(TokenModel::StartGroup, ms, i)
        }
    } else if is_char(ms, i, '[') {
        single(TokenModel::StartOption, ms, i)
    } else if is_char(ms, i, '{') {
        single(TokenModel::StartRepeat, ms, i)
    } else if is_char(ms, i, ';') || is_char(ms, i, '.') {
        single(TokenModel::Terminator, ms, i)
    } else if is_char(ms, i, '\'') || is_char(ms, i, '"') {
        lex_terminal(ms, i)
    } else if is_char(ms, i, '?') {
        lex_special(ms, i)
    } else if is_digit(g) {
        let (value, last, end) = digits_from(ms, i + 1, digit_value(g), i);
        Ok((TokenModel::Integer(value), combined(ms[i].1, ms[last].1), end))
    } else if is_letter(g) {
        let (last, end) = name_from(ms, i + 1, i);
        Ok((TokenModel::Nonterminal(g + name_text(ms, i + 1, end)), combined(ms[i].1, ms[last].1), end))
    } else {
        Err((LexErrorModel::InvalidSymbol(g), ms[i].1))
    }
}

/// The tokens of the symbols from `i` on, or the first error.
pub open spec fn lex_from(ms: Seq<SymbolModel>, i: int) -> Result<Seq<(TokenModel, Span)>, LexFailure>
    decreases ms.len() - i,
{
    if i < 0 || i > ms.len() {
        Ok(Seq::empty())
    } else {
        match skip_gap(ms, i, 0) {
            Err(e) => Err(e),
            Ok(j) => if j < i || j >= ms.len() {
                Ok(Seq::empty())
            } else {
                match next_token(ms, j) {
                    Err(e) => Err(e),
                    Ok((t, span, k)) => if k <= j || k > ms.len() {
                        Ok(Seq::empty())
                    } else {
                        match lex_from(ms, k) {
                            Err(e) => Err(e),
                            Ok(ts) => Ok(seq![(t, span)] + ts),
                        }
                    },
                }
            },
        }
    }
}

/// The tokens of a source text, or the first lexical error.
pub open spec fn lex_spec(text: Seq<char>) -> Result<Seq<(TokenModel, Span)>, LexFailure> {
    lex_from(scanned(graphemes_of(text)), 0)
}

pub open spec fn token_model(t: Spanned<Token>) -> (TokenModel, Span) {
    (t.node@, t.span)
}

/// `r` is the outcome of lexing `text`.
pub open spec fn lexed(text: Seq<char>, r: Result<Vec<Spanned<Token>>, Spanned<LexError>>) -> bool {
    lex_result(r) == lex_spec(text)
}

pub open spec fn lex_result(r: Result<Vec<Spanned<Token>>, Spanned<LexError>>) -> Result<Seq<(TokenModel, Span)>, LexFailure> {
    match r {
        Ok(ts) => Ok(ts@.map_values(|t: Spanned<Token>| token_model(t))),
        Err(e) => Err((e.node@, e.span)),
    }
}


pub open spec fn models(syms: Seq<Symbol>) -> Seq<SymbolModel> {
    syms.map_values(|s: Symbol| symbol_model(s))
}

pub open spec fn failure(e: Spanned<LexError>) -> LexFailure {
    (e.node@, e.span)
}

pub open spec fn skip_result(r: Result<usize, Spanned<LexError>>) -> Result<int, LexFailure> {
    match r {
        Ok(j) => Ok(j as int),
        Err(e) => Err(failure(e)),
    }
}

pub open spec fn step_result(r: Result<(Spanned<Token>, usize), Spanned<LexError>>) -> Result<(TokenModel, Span, int), LexFailure> {
    match r {
        Ok((t, k)) => Ok((t.node@, t.span, k as int)),
        Err(e) => Err(failure(e)),
    }
}

fn is_char_at(syms: &Vec<Symbol>, i: usize, c: char) -> (r: bool)
    ensures
        r == is_char(models(syms@), i as int, c),
{
    if i < syms.len() {
        let g = syms[i].grapheme.as_str();
        if g.unicode_len() == 1 {
            let d = g.get_char(0);
            proof {
                if d == c {
                    assert(g@ =~= seq![c]);
                }
            }
            d == c
        } else {
            false
        }
    } else {
        false
    }
}

fn is_gap_at(syms: &Vec<Symbol>, i: usize) -> (r: bool)
    requires
        i < syms@.len(),
    ensures
        r == is_gap(models(syms@)[i as int].0),
{
    let g = syms[i].grapheme.as_str();
    if is_terminator_grapheme(g) {
        true
    } else if g.unicode_len() > 0 {
        is_white_space(g.get_char(0))
    } else {
        false
    }
}

fn digit_at(syms: &Vec<Symbol>, i: usize) -> (r: Option<usize>)
    requires
        i < syms@.len(),
    ensures
        r is Some <==> is_digit(models(syms@)[i as int].0),
        r is Some ==> r->0 == digit_value(models(syms@)[i as int].0) && r->0 < 10,
{
    let g = syms[i].grapheme.as_str();
    if g.unicode_len() > 0 {
        let c = g.get_char(0);
        if '0' <= c && c <= '9' {
            Some((c as u32 - '0' as u32) as usize)
        } else {
            None
        }
    } else {
        None
    }
}

fn is_letter_at(syms: &Vec<Symbol>, i: usize) -> (r: bool)
    requires
        i < syms@.len(),
    ensures
        r == is_letter(models(syms@)[i as int].0),
{
    let g = syms[i].grapheme.as_str();
    if g.unicode_len() > 0 {
        is_alphabetic_char(g.get_char(0))
    } else {
        false
    }
}

fn is_letter_or_digit_at(syms: &Vec<Symbol>, i: usize) -> (r: bool)
    requires
        i < syms@.len(),
    ensures
        r == is_letter_or_digit(models(syms@)[i as int].0),
{
    let g = syms[i].grapheme.as_str();
    if g.unicode_len() > 0 {
        is_alphanumeric_char(g.get_char(0))
    } else {
        false
    }
}

fn failing<T>(error: LexError, span: Span) -> (r: Result<T, Spanned<LexError>>)
    ensures
        r matches Err(e) && e.node == error && e.span == span,
{
    Err(Spanned { node: error, span })
}

fn invalid_triple(syms: &Vec<Symbol>, i: usize, text: &str) -> (r: Spanned<LexError>)
    requires
        i + 2 < syms@.len(),
    ensures
        r.node@ == LexErrorModel::InvalidSymbol(text@),
        r.span == combined(syms@[i as int].span, syms@[i + 2].span),
{
    let _n = syms.len();
    Spanned { node: LexError::InvalidSymbol(text.to_owned()), span: Span::combine(&syms[i].span, &syms[i + 2].span) }
}

/// Skips whitespace and (nested) comments from symbol `start`.
fn skip_gap_at(syms: &Vec<Symbol>, start: usize) -> (r: Result<usize, Spanned<LexError>>)
    requires
        start <= syms@.len(),
    ensures
        skip_result(r) == skip_gap(models(syms@), start as int, 0),
        r matches Ok(j) ==> start <= j <= syms@.len(),
{
    let ghost ms = models(syms@);
    let mut i = start;
    let mut depth: usize = 0;
    loop
        invariant
            ms == models(syms@),
            start <= i <= syms@.len(),
            depth <= i,
            depth > 0 ==> i >= 2,
            skip_gap(ms, i as int, depth as nat) == skip_gap(ms, start as int, 0),
        decreases syms@.len() - i,
    {
        if i >= syms.len() {
            if depth == 0 {
                return Ok(i);
            } else {
                return failing(LexError::UnterminatedComment, syms[i - 1].span);
            }
        }
        if is_char_at(syms, i, '(') && is_char_at(syms, i + 1, '*') {
            if is_char_at(syms, i + 2, ')') {
                proof {
                    reveal_strlit("(*)");
                    assert("(*)"@ =~= seq!['(', '*', ')']);
                }
                return Err(invalid_triple(syms, i, "(*)"));
            }
            i = i + 2;
            depth = depth + 1;
        } else if depth == 0 {
            if is_gap_at(syms, i) {
                i = i + 1;
            } else {
                return Ok(i);
            }
        } else if is_char_at(syms, i, '*') && is_char_at(syms, i + 1, ')') {
            i = i + 2;
            depth = depth - 1;
        } else {
            i = i + 1;
        }
    }
}

/// Reads a literal from its opening delimiter at `i` (a quote or `?`) up to
/// the next grapheme equal to the opener.
fn lex_delimited(syms: &Vec<Symbol>, i: usize) -> (r: (String, usize))
    requires
        i < syms@.len(),
    ensures
        r.1 == find_close(models(syms@), i + 1, syms@[i as int].grapheme@),
        i + 1 <= r.1 <= syms@.len(),
        r.0@ == text_between(models(syms@), i + 1, r.1 as int),
{
    let _n = syms.len();
    let ghost ms = models(syms@);
    let mut content = String::new();
    let mut j = i + 1;
    while j < syms.len() && !(syms[j].grapheme == syms[i].grapheme)
        invariant
            ms == models(syms@),
            i < syms@.len(),
            i + 1 <= j <= syms@.len(),
            find_close(ms, j as int, ms[i as int].0) == find_close(ms, i + 1, ms[i as int].0),
            content@ == text_between(ms, i + 1, j as int),
        decreases syms@.len() - j,
    {
        content.append(syms[j].grapheme.as_str());
        j = j + 1;
    }
    (content, j)
}

fn lex_terminal_at(syms: &Vec<Symbol>, i: usize) -> (r: Result<(Spanned<Token>, usize), Spanned<LexError>>)
    requires
        i < syms@.len(),
    ensures
        step_result(r) == lex_terminal(models(syms@), i as int),
        r matches Ok((_, k)) ==> i < k <= syms@.len(),
{
    let (content, k) = lex_delimited(syms, i);
    if k >= syms.len() {
        failing(LexError::UnterminatedTerminal, syms[syms.len() - 1].span)
    } else if k == i + 1 {
        failing(LexError::EmptyTerminal, Span::combine(&syms[i].span, &syms[k].span))
    } else {
        Ok((Spanned { node: Token::Terminal(content), span: Span::combine(&syms[i].span, &syms[k].span) }, k + 1))
    }
}

fn lex_special_at(syms: &Vec<Symbol>, i: usize) -> (r: Result<(Spanned<Token>, usize), Spanned<LexError>>)
    requires
        is_char(models(syms@), i as int, '?'),
    ensures
        step_result(r) == lex_special(models(syms@), i as int),
        r matches Ok((_, k)) ==> i < k <= syms@.len(),
{
    let (content, k) = lex_delimited(syms, i);
    if k >= syms.len() {
        failing(LexError::UnterminatedSpecial, syms[syms.len() - 1].span)
    } else {
        Ok((Spanned { node: Token::Special(content), span: Span::combine(&syms[i].span, &syms[k].span) }, k + 1))
    }
}

fn lex_integer_at(syms: &Vec<Symbol>, i: usize, first: usize) -> (r: (Spanned<Token>, usize))
    requires
        i < syms@.len(),
        is_digit(models(syms@)[i as int].0),
        first == digit_value(models(syms@)[i as int].0),
    ensures
        ({
            let (value, last, end) = digits_from(models(syms@), i + 1, first, i as int);
            r.0.node@ == TokenModel::Integer(value) && r.0.span == combined(syms@[i as int].span, syms@[last].span)
                && r.1 == end && i <= last < end
        }),
        i < r.1 <= syms@.len(),
{
    let _n = syms.len();
    let ghost ms = models(syms@);
    let mut value = first;
    let mut last = i;
    let mut j = i + 1;
    loop
        invariant
            ms == models(syms@),
            i <= last < j <= syms@.len(),
            digits_from(ms, j as int, value, last as int) == digits_from(ms, i + 1, first, i as int),
        decreases syms@.len() - j,
    {
        if j >= syms.len() {
            return (Spanned { node: Token::Integer(value), span: Span::combine(&syms[i].span, &syms[last].span) }, j);
        }
        match digit_at(syms, j) {
            Some(d) => {
                value = value.wrapping_mul(10).wrapping_add(d);
                last = j;
                j = j + 1;
            },
            None => {
                if is_gap_at(syms, j) {
                    j = j + 1;
                } else {
                    return (Spanned { node: Token::Integer(value), span: Span::combine(&syms[i].span, &syms[last].span) }, j);
                }
            },
        }
    }
}

fn lex_nonterminal_at(syms: &Vec<Symbol>, i: usize) -> (r: (Spanned<Token>, usize))
    requires
        i < syms@.len(),
    ensures
        ({
            let ms = models(syms@);
            let (last, end) = name_from(ms, i + 1, i as int);
            r.0.node@ == TokenModel::Nonterminal(ms[i as int].0 + name_text(ms, i + 1, end))
                && r.0.span == combined(syms@[i as int].span, syms@[last].span) && r.1 == end
                && i <= last < end
        }),
        i < r.1 <= syms@.len(),
{
    let _n = syms.len();
    let ghost ms = models(syms@);
    let mut content = syms[i].grapheme.clone();
    let mut last = i;
    let mut j = i + 1;
    loop
        invariant
            ms == models(syms@),
            i <= last < j <= syms@.len(),
            name_from(ms, j as int, last as int) == name_from(ms, i + 1, i as int),
            content@ == ms[i as int].0 + name_text(ms, i + 1, j as int),
        decreases syms@.len() - j,
    {
        if j >= syms.len() || !(is_letter_or_digit_at(syms, j) || is_gap_at(syms, j)) {
            return (Spanned { node: Token::Nonterminal(content), span: Span::combine(&syms[i].span, &syms[last].span) }, j);
        }
        if is_letter_or_digit_at(syms, j) {
            content.append(syms[j].grapheme.as_str());
            last = j;
        }
        j = j + 1;
    }
}

fn token_at(syms: &Vec<Symbol>, i: usize, token: Token, width: usize) -> (r: Result<(Spanned<Token>, usize), Spanned<LexError>>)
    requires
        width == 1 || width == 2,
        i + width <= syms@.len(),
    ensures
        r matches Ok((t, k)) && t.node == token && k == i + width,
        r matches Ok((t, _)) && (width == 1 ==> t.span == syms@[i as int].span)
            && (width == 2 ==> t.span == combined(syms@[i as int].span, syms@[i + 1].span)),
{
    let _n = syms.len();
    let span = if width == 1 {
        syms[i].span
    } else {
        Span::combine(&syms[i].span, &syms[i + 1].span)
    };
    Ok((Spanned { node: token, span }, i + width))
}

/// Reads the token that starts at symbol `i`.
fn next_token_at(syms: &Vec<Symbol>, i: usize) -> (r: Result<(Spanned<Token>, usize), Spanned<LexError>>)
    requires
        i < syms@.len(),
    ensures
        step_result(r) == next_token(models(syms@), i as int),
        r matches Ok((_, k)) ==> i < k <= syms@.len(),
{
    let _n = syms.len();
    let ghost ms = models(syms@);
    proof {
        assert(combined(ms[i as int].1, ms[i as int].1) == ms[i as int].1);
    }
    if is_char_at(syms, i, ',') {
        token_at(syms, i, Token::Concatenation, 1)
    } else if is_char_at(syms, i, '=') {
        token_at(syms, i, Token::Definition, 1)
    } else if is_char_at(syms, i, '|') || is_char_at(syms, i, '!') {
        token_at(syms, i, Token::DefinitionSeparator, 1)
    } else if is_char_at(syms, i, ')') {
        token_at(syms, i, Token::EndGroup, 1)
    } else if is_char_at(syms, i, ']') {
        token_at(syms, i, Token::EndOption, 1)
    } else if is_char_at(syms, i, '/') {
        if is_char_at(syms, i + 1, ')') {
            token_at(syms, i, Token::EndOption, 2)
        } else {
            token_at(syms, i, Token::DefinitionSeparator, 1)
        }
    } else if is_char_at(syms, i, '}') {
        token_at(syms, i, Token::EndRepeat, 1)
    } else if is_char_at(syms, i, ':') {
        if is_char_at(syms, i + 1, ')') {
            token_at(syms, i, Token::EndRepeat, 2)
        } else {
            proof {
                reveal_strlit(":");
                    assert(":"@ =~= seq![':']);
            }
            failing(LexError::InvalidSymbol(":".to_owned()), syms[i].span)
        }
    } else if is_char_at(syms, i, '-') {
        token_at(syms, i, Token::Exception, 1)
    } else if is_char_at(syms, i, '*') {
        token_at(syms, i, Token::Repetition, 1)
    } else if is_char_at(syms, i, '(') {
        if is_char_at(syms, i + 1, '/') {
            if is_char_at(syms, i + 2, ')') {
                proof {
                    reveal_strlit("(/)");
                    assert("(/)"@ =~= seq!['(', '/', ')']);
                }
                Err(invalid_triple(syms, i, "(/)"))
            } else {
                token_at(syms, i, Token::StartOption, 2)
            }
        } else if is_char_at(syms, i + 1, ':') {
            if is_char_at(syms, i + 2, ')') {
                proof {
                    reveal_strlit("(:)");
                    assert("(:)"@ =~= seq!['(', ':', ')']);
                }
                Err(invalid_triple(syms, i, "(:)"))
            } else {
                token_at(syms, i, Token::StartRepeat, 2)
            }
        } else {
            token_at(syms, i, Token::StartGroup, 1)
        }
    } else if is_char_at(syms, i, '[') {
        token_at(syms, i, Token::StartOption, 1)
    } else if is_char_at(syms, i, '{') {
        token_at(syms, i, Token::StartRepeat, 1)
    } else if is_char_at(syms, i, ';') || is_char_at(syms, i, '.') {
        token_at(syms, i, Token::Terminator, 1)
    } else if is_char_at(syms, i, '\'') || is_char_at(syms, i, '"') {
        lex_terminal_at(syms, i)
    } else if is_char_at(syms, i, '?') {
        lex_special_at(syms, i)
    } else {
        match digit_at(syms, i) {
            Some(d) => Ok(lex_integer_at(syms, i, d)),
            None => if is_letter_at(syms, i) {
                Ok(lex_nonterminal_at(syms, i))
            } else {
                failing(LexError::InvalidSymbol(syms[i].grapheme.clone()), syms[i].span)
            },
        }
    }
}

/// The tokens of a sequence of scanned symbols, or the first lexical error.
pub fn lex_symbols(syms: &Vec<Symbol>) -> (r: Result<Vec<Spanned<Token>>, Spanned<LexError>>)
    ensures
        lex_result(r) == lex_from(models(syms@), 0),
{
    let ghost ms = models(syms@);
    let mut tokens: Vec<Spanned<Token>> = Vec::new();
    let mut i: usize = 0;
    loop
        invariant
            ms == models(syms@),
            i <= syms@.len(),
            lex_from(ms, 0) == match lex_from(ms, i as int) {
                Ok(ts) => Ok(tokens@.map_values(|t: Spanned<Token>| token_model(t)) + ts),
                Err(e) => Err(e),
            },
        decreases syms@.len() - i,
    {
        let j = match skip_gap_at(syms, i) {
            Ok(j) => j,
            Err(e) => {
                return Err(e);
            },
        };
        if j >= syms.len() {
            proof {
                assert(tokens@.map_values(|t: Spanned<Token>| token_model(t)) + Seq::empty() =~= tokens@.map_values(|t: Spanned<Token>| token_model(t)));
            }
            return Ok(tokens);
        }
        let (token, k) = match next_token_at(syms, j) {
            Ok(step) => step,
            Err(e) => {
                return Err(e);
            },
        };
        let ghost before = tokens@;
        tokens.push(token);
        proof {
            assert(tokens@.map_values(|t: Spanned<Token>| token_model(t)) =~= before.map_values(|t: Spanned<Token>| token_model(t)) + seq![token_model(token)]);
            match lex_from(ms, k as int) {
                Ok(ts) => {
                    assert(before.map_values(|t: Spanned<Token>| token_model(t)) + (seq![token_model(token)] + ts) =~= tokens@.map_values(|t: Spanned<Token>| token_model(t)) + ts);
                },
                Err(e) => {},
            }
        }
        i = k;
    }
}

/// The tokens of an EBNF source, or the first lexical error with its span.
/// The result is a function of the text alone.
pub fn lex(string: &str) -> (r: Result<Vec<Spanned<Token>>, Spanned<LexError>>)
    ensures
        lexed(string@, r),
        r matches Ok(ts) ==> forall|k: int| 0 <= k < ts@.len() ==> location_le((#[trigger] ts@[k]).span.from, ts@[k].span.to)
            && location_le(ts@[k].span.to, location_after(graphemes_of(string@), graphemes_of(string@).len())),
{
    let symbols = scan(string);
    let r = lex_symbols(&symbols);
    proof {
        let ms = models(symbols@);
        let gs = graphemes_of(string@);
        assert forall|i: int| 0 <= i < ms.len() implies location_le((#[trigger] ms[i]).1.from, ms[i].1.to) by {
            assert(ms[i].1 == symbols@[i].span);
        }
        assert forall|i: int| 0 <= i < ms.len() - 1 implies (#[trigger] ms[i]).1.to == ms[i + 1].1.from by {
            assert(ms[i].1 == symbols@[i].span);
            assert(ms[i + 1].1 == symbols@[i + 1].span);
        }
        lemma_lex_from_spans(ms, 0);
        if ms.len() > 0 {
            assert(crate::scanner::scanned_symbol(gs, ms.len() - 1, symbols@[ms.len() - 1]));
            assert(ms.last().1.to == location_after(gs, gs.len()));
        }
        if r is Ok {
            let ts = r->Ok_0;
            assert forall|k: int| 0 <= k < ts@.len() implies location_le((#[trigger] ts@[k]).span.from, ts@[k].span.to)
                && location_le(ts@[k].span.to, location_after(gs, gs.len())) by {
                let m = ts@.map_values(|t: Spanned<Token>| token_model(t));
                assert(lex_from(ms, 0) == Ok::<Seq<(TokenModel, Span)>, LexFailure>(m));
                assert(m[k] == token_model(ts@[k]));
                let lexed_models = lex_from(ms, 0)->Ok_0;
                assert(lexed_models == m);
                assert(inside(ms, lexed_models[k].1));
            }
        }
    }
    proof {
        let gs = graphemes_of(string@);
        assert forall|k: int| 0 <= k < symbols@.len() implies #[trigger] models(symbols@)[k] == scanned(gs)[k] by {
            assert(crate::scanner::scanned_symbol(gs, k, symbols@[k]));
        }
        assert(models(symbols@) =~= scanned(gs));
    }
    r
}

/// Symbols whose spans each run forward and follow one another.
pub open spec fn chained(ms: Seq<SymbolModel>) -> bool {
    &&& forall|i: int| 0 <= i < ms.len() ==> location_le((#[trigger] ms[i]).1.from, ms[i].1.to)
    &&& forall|i: int| 0 <= i < ms.len() - 1 ==> (#[trigger] ms[i]).1.to == ms[i + 1].1.from
}

/// A span that runs forward and ends no later than the last symbol.
pub open spec fn inside(ms: Seq<SymbolModel>, span: Span) -> bool {
    location_le(span.from, span.to) && location_le(span.to, ms.last().1.to)
}

proof fn lemma_chain(ms: Seq<SymbolModel>, i: int, j: int)
    requires
        chained(ms),
        0 <= i <= j < ms.len(),
    ensures
        location_le(ms[i].1.from, ms[j].1.to),
        location_le(ms[j].1.to, ms.last().1.to),
{
    lemma_chain_forward(ms, i, j);
    lemma_chain_end(ms, j);
}

proof fn lemma_chain_forward(ms: Seq<SymbolModel>, i: int, j: int)
    requires
        chained(ms),
        0 <= i <= j < ms.len(),
    ensures
        location_le(ms[i].1.from, ms[j].1.to),
    decreases j - i,
{
    assert(location_le(ms[j].1.from, ms[j].1.to));
    if i < j {
        lemma_chain_forward(ms, i, j - 1);
        assert(ms[j - 1].1.to == ms[j].1.from);
    }
}

proof fn lemma_chain_end(ms: Seq<SymbolModel>, j: int)
    requires
        chained(ms),
        0 <= j < ms.len(),
    ensures
        location_le(ms[j].1.to, ms.last().1.to),
    decreases ms.len() - j,
{
    if j < ms.len() - 1 {
        lemma_chain_end(ms, j + 1);
        assert(ms[j].1.to == ms[j + 1].1.from);
        assert(location_le(ms[j + 1].1.from, ms[j + 1].1.to));
    }
}

proof fn lemma_find_close(ms: Seq<SymbolModel>, i: int, close: Seq<char>)
    requires
        0 <= i,
    ensures
        i <= find_close(ms, i, close) <= ms.len() || (i > ms.len() && find_close(ms, i, close) == ms.len()),
    decreases ms.len() - i,
{
    if i < ms.len() && ms[i].0 != close {
        lemma_find_close(ms, i + 1, close);
    }
}

proof fn lemma_digits_from(ms: Seq<SymbolModel>, j: int, value: usize, last: int)
    requires
        0 <= last < j <= ms.len(),
    ensures
        last <= digits_from(ms, j, value, last).1 < digits_from(ms, j, value, last).2 <= ms.len(),
    decreases ms.len() - j,
{
    if j < ms.len() {
        if is_digit(ms[j].0) {
            lemma_digits_from(
                ms,
                j + 1,
                vstd::wrapping::usize_specs::wrapping_add(vstd::wrapping::usize_specs::wrapping_mul(value, 10), digit_value(ms[j].0)),
                j,
            );
        } else if is_gap(ms[j].0) {
            lemma_digits_from(ms, j + 1, value, last);
        }
    }
}

proof fn lemma_name_from(ms: Seq<SymbolModel>, j: int, last: int)
    requires
        0 <= last < j <= ms.len(),
    ensures
        last <= name_from(ms, j, last).0 < name_from(ms, j, last).1 <= ms.len(),
    decreases ms.len() - j,
{
    if j < ms.len() {
        if is_letter_or_digit(ms[j].0) {
            lemma_name_from(ms, j + 1, j);
        } else if is_gap(ms[j].0) {
            lemma_name_from(ms, j + 1, last);
        }
    }
}

proof fn lemma_next_token_span(ms: Seq<SymbolModel>, j: int)
    requires
        chained(ms),
        0 <= j < ms.len(),
    ensures
        next_token(ms, j) matches Ok((_, span, _)) ==> inside(ms, span),
{
    lemma_chain(ms, j, j);
    if is_char(ms, j + 1, ')') || is_char(ms, j + 1, '/') || is_char(ms, j + 1, ':') {
        lemma_chain(ms, j, j + 1);
    }
    lemma_find_close(ms, j + 1, ms[j].0);
    lemma_find_close(ms, j + 1, seq!['?']);
    let k1 = find_close(ms, j + 1, ms[j].0);
    let k2 = find_close(ms, j + 1, seq!['?']);
    if k1 < ms.len() {
        lemma_chain(ms, j, k1);
    }
    if k2 < ms.len() {
        lemma_chain(ms, j, k2);
    }
    if is_digit(ms[j].0) {
        lemma_digits_from(ms, j + 1, digit_value(ms[j].0), j);
        lemma_chain(ms, j, digits_from(ms, j + 1, digit_value(ms[j].0), j).1);
    }
    if is_letter(ms[j].0) {
        lemma_name_from(ms, j + 1, j);
        lemma_chain(ms, j, name_from(ms, j + 1, j).0);
    }
}

proof fn lemma_lex_from_spans(ms: Seq<SymbolModel>, i: int)
    requires
        chained(ms),
    ensures
        lex_from(ms, i) matches Ok(ts) ==> (ts.len() == 0 || ms.len() > 0) && forall|k: int|
            0 <= k < ts.len() ==> inside(ms, (#[trigger] ts[k]).1),
    decreases ms.len() - i,
{
    if 0 <= i <= ms.len() {
        if let Ok(j) = skip_gap(ms, i, 0) {
            if i <= j < ms.len() {
                lemma_next_token_span(ms, j);
                if let Ok((t, span, k)) = next_token(ms, j) {
                    if j < k <= ms.len() {
                        lemma_lex_from_spans(ms, k);
                        if let Ok(rest) = lex_from(ms, k) {
                            let all = seq![(t, span)] + rest;
                            assert forall|n: int| 0 <= n < all.len() implies inside(ms, (#[trigger] all[n]).1) by {
                                if n > 0 {
                                    assert(all[n] == rest[n - 1]);
                                }
                            }
                        }
                    }
                }
            }
        }
    }
}

} // verus!
