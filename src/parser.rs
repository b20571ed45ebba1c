//! Recursive descent over tokens. Every parsing function reads from a
//! position of a token stream and hands back the position after what it
//! read. A failure is either recoverable (`Fault::Error`: the construct is
//! absent and an enclosing choice may try something else) or committed
//! (`Fault::Failure`: the construct was entered and is malformed).
use crate::ast::{model, models_of, ExprModel, Expression, Grammar, Production};
use crate::lexer::token_model;
use crate::span::{between_spans, combined, zero_span, Span, Spanned};
use crate::token::{Token, TokenModel};
use vstd::prelude::*;

verus! {

/// What the parser expected and did not find.
#[derive(Debug, Clone, Copy, PartialEq, Eq, Structural)]
pub enum ParseError {
    DefinitionExpected,
    IdentifierExpected,
    NonterminalExpected,
    TerminalExpected,
    SpecialExpected,
    IntegerExpected,
    ConcatenationSymbolExpected,
    DefinitionSymbolExpected,
    DefinitionSeparatorSymbolExpected,
    EndGroupSymbolExpected,
    EndOptionSymbolExpected,
    EndRepeatSymbolExpected,
    ExceptionSymbolExpected,
    RepetitionSymbolExpected,
    StartGroupSymbolExpected,
    StartOptionSymbolExpected,
    StartRepeatSymbolExpected,
    TerminatorSymbolExpected,
}

/// A parse failure: recoverable, or committed past a commit point.
#[derive(Debug, PartialEq)]
pub enum Fault {
    Error(Spanned<ParseError>),
    Failure(Spanned<ParseError>),
}

/// A token stream.
pub struct Tokens {
    pub items: Vec<Spanned<Token>>,
}

pub type TokenStream = Seq<(TokenModel, Span)>;

pub type Parsed = Result<(int, Spanned<ExprModel>), Fault>;

pub open spec fn stream(items: Seq<Spanned<Token>>) -> TokenStream {
    items.map_values(|t: Spanned<Token>| token_model(t))
}

/// The span of the token before `pos`; at the start, that of the first token.
pub open spec fn last_span_at(ts: TokenStream, pos: int) -> Span {
    if 0 < pos <= ts.len() {
        ts[pos - 1].1
    } else if ts.len() > 0 {
        ts[0].1
    } else {
        zero_span()
    }
}

/// Where a complaint about position `pos` points: the token there, or the
/// last token read at the end of input.
pub open spec fn span_at(ts: TokenStream, pos: int) -> Span {
    if 0 <= pos < ts.len() {
        ts[pos].1
    } else {
        last_span_at(ts, pos)
    }
}

pub open spec fn token_is(ts: TokenStream, pos: int, t: TokenModel) -> bool {
    0 <= pos < ts.len() && ts[pos].0 == t
}

pub open spec fn failure_at(ts: TokenStream, pos: int, e: ParseError) -> Fault {
    Fault::Failure(Spanned { node: e, span: span_at(ts, pos) })
}

pub open spec fn error_at(ts: TokenStream, pos: int, e: ParseError) -> Fault {
    Fault::Error(Spanned { node: e, span: span_at(ts, pos) })
}

/// A failure past a commit point can no longer be recovered from.
pub open spec fn committed(f: Fault) -> Fault {
    match f {
        Fault::Error(e) => Fault::Failure(e),
        Fault::Failure(e) => Fault::Failure(e),
    }
}

pub open spec fn spanned<T>(node: T, span: Span) -> Spanned<T> {
    Spanned { node, span }
}

/// The empty expression: it reads nothing, and its span lies between the
/// last token read and the next one.
pub open spec fn empty_at(ts: TokenStream, pos: int) -> Spanned<ExprModel> {
    if 0 <= pos < ts.len() {
        spanned(ExprModel::Empty, between_spans(last_span_at(ts, pos), ts[pos].1))
    } else {
        spanned(ExprModel::Empty, last_span_at(ts, pos))
    }
}

/// One or more operands joined: a single operand stands for itself.
pub open spec fn joined(items: Seq<Spanned<ExprModel>>, alternative: bool) -> Spanned<ExprModel> {
    if items.len() == 1 {
        items[0]
    } else if alternative {
        spanned(ExprModel::Alternative(items), combined(items[0].span, items.last().span))
    } else {
        spanned(ExprModel::Sequence(items), combined(items[0].span, items.last().span))
    }
}

/// `open alternative close`, with the close committed.
pub open spec fn p_bracketed(ts: TokenStream, pos: int, close: TokenModel, missing: ParseError) -> Result<(int, Spanned<ExprModel>, Span), Fault>
    decreases ts.len() - pos, 1nat,
{
    if !(0 <= pos < ts.len()) {
        Err(error_at(ts, pos, missing))
    } else {
        match p_alternative(ts, pos + 1) {
            Err(f) => Err(f),
            Ok((k, inner)) => if token_is(ts, k, close) {
                Ok((k + 1, inner, combined(ts[pos].1, ts[k].1)))
            } else {
                Err(failure_at(ts, k, missing))
            },
        }
    }
}

/// `[ alternative ]` or `(/ alternative /)`
pub open spec fn p_optional(ts: TokenStream, pos: int) -> Parsed
    decreases ts.len() - pos, 2nat,
{
    if !token_is(ts, pos, TokenModel::StartOption) {
        Err(error_at(ts, pos, ParseError::StartOptionSymbolExpected))
    } else {
        match p_bracketed(ts, pos, TokenModel::EndOption, ParseError::EndOptionSymbolExpected) {
            Err(f) => Err(f),
            Ok((k, inner, span)) => Ok((k, spanned(ExprModel::Optional(Box::new(inner)), span))),
        }
    }
}

/// `{ alternative }` or `(: alternative :)`
pub open spec fn p_repeated(ts: TokenStream, pos: int) -> Parsed
    decreases ts.len() - pos, 2nat,
{
    if !token_is(ts, pos, TokenModel::StartRepeat) {
        Err(error_at(ts, pos, ParseError::StartRepeatSymbolExpected))
    } else {
        match p_bracketed(ts, pos, TokenModel::EndRepeat, ParseError::EndRepeatSymbolExpected) {
            Err(f) => Err(f),
            Ok((k, inner, span)) => Ok((k, spanned(ExprModel::Repeated(Box::new(inner)), span))),
        }
    }
}

/// `( alternative )`: the inner expression, spanned by the parentheses.
pub open spec fn p_grouped(ts: TokenStream, pos: int) -> Parsed
    decreases ts.len() - pos, 2nat,
{
    if !token_is(ts, pos, TokenModel::StartGroup) {
        Err(error_at(ts, pos, ParseError::StartGroupSymbolExpected))
    } else {
        match p_bracketed(ts, pos, TokenModel::EndGroup, ParseError::EndGroupSymbolExpected) {
            Err(f) => Err(f),
            Ok((k, inner, span)) => Ok((k, spanned(inner.node, span))),
        }
    }
}

/// optional | repeated | grouped | nonterminal | terminal | special | empty
pub open spec fn p_primary(ts: TokenStream, pos: int) -> Parsed
    decreases ts.len() - pos, 3nat,
{
    if !(0 <= pos < ts.len()) {
        Ok((pos, empty_at(ts, pos)))
    } else {
        match ts[pos].0 {
            TokenModel::StartOption => p_optional(ts, pos),
            TokenModel::StartRepeat => p_repeated(ts, pos),
            TokenModel::StartGroup => p_grouped(ts, pos),
            TokenModel::Nonterminal(s) => Ok((pos + 1, spanned(ExprModel::Nonterminal(s), ts[pos].1))),
            TokenModel::Terminal(s) => Ok((pos + 1, spanned(ExprModel::Terminal(s), ts[pos].1))),
            TokenModel::Special(s) => Ok((pos + 1, spanned(ExprModel::Special(s), ts[pos].1))),
            _ => Ok((pos, empty_at(ts, pos))),
        }
    }
}

/// `( integer '*' )? primary`: a count of zero gives the empty expression,
/// a count of one the primary itself.
pub open spec fn p_factor(ts: TokenStream, pos: int) -> Parsed
    decreases ts.len() - pos, 4nat,
{
    if !(0 <= pos < ts.len()) {
        p_primary(ts, pos)
    } else {
        match ts[pos].0 {
            TokenModel::Integer(n) => if token_is(ts, pos + 1, TokenModel::Repetition) {
                match p_primary(ts, pos + 2) {
                    Err(f) => Err(f),
                    Ok((k, x)) => if n == 0 {
                        Ok((k, spanned(ExprModel::Empty, combined(ts[pos].1, x.span))))
                    } else if n == 1 {
                        Ok((k, x))
                    } else {
                        Ok((k, spanned(ExprModel::Factor(spanned(n, ts[pos].1), Box::new(x)), combined(ts[pos].1, x.span))))
                    },
                }
            } else {
                Err(failure_at(ts, pos + 1, ParseError::RepetitionSymbolExpected))
            },
            _ => p_primary(ts, pos),
        }
    }
}

/// `factor ( '-' factor )?`, the second factor committed.
pub open spec fn p_term(ts: TokenStream, pos: int) -> Parsed
    decreases ts.len() - pos, 5nat,
{
    match p_factor(ts, pos) {
        Err(f) => Err(f),
        Ok((k, x)) => if pos <= k && token_is(ts, k, TokenModel::Exception) {
            match p_factor(ts, k + 1) {
                Err(f) => Err(committed(f)),
                Ok((k2, y)) => Ok((k2, spanned(ExprModel::Exception(Box::new(x), Box::new(y)), combined(x.span, y.span)))),
            }
        } else {
            Ok((k, x))
        },
    }
}

/// The operands after the first of a list separated by `sep`: `alternative`
/// picks sequences separated by `|`, otherwise terms separated by `,`.
pub open spec fn p_list_rest(ts: TokenStream, k: int, acc: Seq<Spanned<ExprModel>>, alternative: bool) -> Result<(int, Seq<Spanned<ExprModel>>), Fault>
    decreases ts.len() - k, if alternative { 8nat } else { 6nat },
{
    let sep = if alternative { TokenModel::DefinitionSeparator } else { TokenModel::Concatenation };
    if 0 <= k && token_is(ts, k, sep) {
        let next = if alternative { p_sequence(ts, k + 1) } else { p_term(ts, k + 1) };
        match next {
            Err(Fault::Error(_)) => Ok((k, acc)),
            Err(f) => Err(f),
            Ok((k2, y)) => if k + 1 <= k2 <= ts.len() {
                p_list_rest(ts, k2, acc.push(y), alternative)
            } else {
                Ok((k2, acc.push(y)))
            },
        }
    } else {
        Ok((k, acc))
    }
}

/// `term ( ',' term )*`
pub open spec fn p_sequence(ts: TokenStream, pos: int) -> Parsed
    decreases ts.len() - pos, 7nat,
{
    match p_term(ts, pos) {
        Err(f) => Err(f),
        Ok((k, x)) => if pos <= k <= ts.len() {
            match p_list_rest(ts, k, seq![x], false) {
                Err(f) => Err(f),
                Ok((k2, items)) => Ok((k2, joined(items, false))),
            }
        } else {
            Ok((k, x))
        },
    }
}

/// `sequence ( separator sequence )*`
pub open spec fn p_alternative(ts: TokenStream, pos: int) -> Parsed
    decreases ts.len() - pos, 9nat,
{
    match p_sequence(ts, pos) {
        Err(f) => Err(f),
        Ok((k, x)) => if pos <= k <= ts.len() {
            match p_list_rest(ts, k, seq![x], true) {
                Err(f) => Err(f),
                Ok((k2, items)) => Ok((k2, joined(items, true))),
            }
        } else {
            Ok((k, x))
        },
    }
}

pub type ProductionModel = (Spanned<Seq<char>>, Spanned<ExprModel>);

/// `identifier '=' alternative terminator`: at the end of input a
/// recoverable failure, otherwise committed from its first token on.
#[verifier::opaque]
pub open spec fn p_production(ts: TokenStream, pos: int) -> Result<(int, Spanned<ProductionModel>), Fault> {
    if !(0 <= pos < ts.len()) {
        Err(error_at(ts, pos, ParseError::IdentifierExpected))
    } else {
        match ts[pos].0 {
            TokenModel::Nonterminal(name) => if token_is(ts, pos + 1, TokenModel::Definition) {
                match p_alternative(ts, pos + 2) {
                    Err(f) => Err(committed(f)),
                    Ok((k, rhs)) => if token_is(ts, k, TokenModel::Terminator) {
                        Ok((k + 1, spanned((spanned(name, ts[pos].1), rhs), combined(ts[pos].1, ts[k].1))))
                    } else {
                        Err(failure_at(ts, k, ParseError::TerminatorSymbolExpected))
                    },
                }
            } else {
                Err(failure_at(ts, pos + 1, ParseError::DefinitionSymbolExpected))
            },
            _ => Err(failure_at(ts, pos, ParseError::IdentifierExpected)),
        }
    }
}

/// Further productions, up to the end of input or a committed failure.
pub open spec fn p_productions(ts: TokenStream, k: int, acc: Seq<Spanned<ProductionModel>>) -> Result<(int, Seq<Spanned<ProductionModel>>), Fault>
    decreases ts.len() - k,
{
    match p_production(ts, k) {
        Err(Fault::Error(_)) => Ok((k, acc)),
        Err(f) => Err(f),
        Ok((k2, p)) => if k < k2 <= ts.len() {
            p_productions(ts, k2, acc.push(p))
        } else {
            Ok((k2, acc.push(p)))
        },
    }
}

/// `production+`
pub open spec fn p_syntax(ts: TokenStream, pos: int) -> Result<(int, Spanned<Seq<Spanned<ProductionModel>>>), Fault> {
    match p_production(ts, pos) {
        Err(f) => Err(f),
        Ok((k, p)) => match p_productions(ts, k, seq![p]) {
            Err(f) => Err(f),
            Ok((k2, ps)) => Ok((k2, spanned(ps, combined(ps[0].span, ps.last().span)))),
        },
    }
}

/// The grammar that a token stream spells, or where it stops making sense.
pub open spec fn parse_spec(ts: TokenStream) -> Result<Spanned<Seq<Spanned<ProductionModel>>>, Spanned<ParseError>> {
    match p_syntax(ts, 0) {
        Ok((_, g)) => Ok(g),
        Err(Fault::Error(e)) => Err(e),
        Err(Fault::Failure(e)) => Err(e),
    }
}

pub open spec fn production_model(p: Spanned<Production>) -> Spanned<ProductionModel> {
    spanned((spanned(p.node.lhs.node@, p.node.lhs.span), model(p.node.rhs)), p.span)
}

pub open spec fn production_models(ps: Seq<Spanned<Production>>) -> Seq<Spanned<ProductionModel>> {
    ps.map_values(|p: Spanned<Production>| production_model(p))
}

pub open spec fn grammar_model(g: Spanned<Grammar>) -> Spanned<Seq<Spanned<ProductionModel>>> {
    spanned(production_models(g.node.productions@), g.span)
}

pub open spec fn parsed(r: Result<(usize, Spanned<Expression>), Fault>) -> Parsed {
    match r {
        Ok((k, e)) => Ok((k as int, model(e))),
        Err(f) => Err(f),
    }
}

pub proof fn lemma_models_of(es: Seq<Spanned<Expression>>, k: int)
    requires
        0 <= k <= es.len(),
    ensures
        models_of(es, k) =~= Seq::new((es.len() - k) as nat, |i: int| model(es[k + i])),
    decreases es.len() - k,
{
    if k < es.len() {
        lemma_models_of(es, k + 1);
    }
}


pub open spec fn tokens_model(tokens: &Tokens) -> TokenStream {
    stream(tokens.items@)
}

pub open spec fn is_punctuation(t: TokenModel) -> bool {
    !(t is Nonterminal || t is Terminal || t is Special || t is Integer)
}

pub open spec fn bracketed_result(r: Result<(usize, Spanned<Expression>, Span), Fault>) -> Result<(int, Spanned<ExprModel>, Span), Fault> {
    match r {
        Ok((k, e, span)) => Ok((k as int, model(e), span)),
        Err(f) => Err(f),
    }
}

pub open spec fn list_result(r: Result<(usize, Vec<Spanned<Expression>>), Fault>) -> Result<(int, Seq<Spanned<ExprModel>>), Fault> {
    match r {
        Ok((k, v)) => Ok((k as int, models_of(v@, 0))),
        Err(f) => Err(f),
    }
}

pub open spec fn production_result(r: Result<(usize, Spanned<Production>), Fault>) -> Result<(int, Spanned<ProductionModel>), Fault> {
    match r {
        Ok((k, p)) => Ok((k as int, production_model(p))),
        Err(f) => Err(f),
    }
}

pub open spec fn syntax_result(r: Result<(usize, Spanned<Grammar>), Fault>) -> Result<(int, Spanned<Seq<Spanned<ProductionModel>>>), Fault> {
    match r {
        Ok((k, g)) => Ok((k as int, grammar_model(g))),
        Err(f) => Err(f),
    }
}

impl Tokens {
    pub fn new(items: Vec<Spanned<Token>>) -> (r: Tokens)
        ensures
            r.items == items,
    {
        Tokens { items }
    }

    /// The span of the token before `pos`; at the start, that of the first
    /// token, and with no tokens at all the empty span.
    pub fn last_span(&self, pos: usize) -> (r: Span)
        ensures
            r == last_span_at(tokens_model(self), pos as int),
    {
        if 0 < pos && pos <= self.items.len() {
            self.items[pos - 1].span
        } else if self.items.len() > 0 {
            self.items[0].span
        } else {
            Span::new()
        }
    }

    fn span_at(&self, pos: usize) -> (r: Span)
        ensures
            r == span_at(tokens_model(self), pos as int),
    {
        if pos < self.items.len() {
            self.items[pos].span
        } else {
            self.last_span(pos)
        }
    }

    fn is_at(&self, pos: usize, kind: &Token) -> (r: bool)
        requires
            is_punctuation(kind@),
        ensures
            r == token_is(tokens_model(self), pos as int, kind@),
    {
        if pos >= self.items.len() {
            return false;
        }
        match (&self.items[pos].node, kind) {
            (Token::Concatenation, Token::Concatenation) => true,
            (Token::Definition, Token::Definition) => true,
            (Token::DefinitionSeparator, Token::DefinitionSeparator) => true,
            (Token::EndGroup, Token::EndGroup) => true,
            (Token::EndOption, Token::EndOption) => true,
            (Token::EndRepeat, Token::EndRepeat) => true,
            (Token::Exception, Token::Exception) => true,
            (Token::Repetition, Token::Repetition) => true,
            (Token::StartGroup, Token::StartGroup) => true,
            (Token::StartOption, Token::StartOption) => true,
            (Token::StartRepeat, Token::StartRepeat) => true,
            (Token::Terminator, Token::Terminator) => true,
            _ => false,
        }
    }

    fn error_at(&self, pos: usize, e: ParseError) -> (r: Fault)
        ensures
            r == error_at(tokens_model(self), pos as int, e),
    {
        Fault::Error(Spanned { node: e, span: self.span_at(pos) })
    }

    fn failure_at(&self, pos: usize, e: ParseError) -> (r: Fault)
        ensures
            r == failure_at(tokens_model(self), pos as int, e),
    {
        Fault::Failure(Spanned { node: e, span: self.span_at(pos) })
    }
}

fn commit(f: Fault) -> (r: Fault)
    ensures
        r == committed(f),
{
    match f {
        Fault::Error(e) => Fault::Failure(e),
        Fault::Failure(e) => Fault::Failure(e),
    }
}

/// Stands for a list of one or more operands.
fn join(items: Vec<Spanned<Expression>>, alternative: bool) -> (r: Spanned<Expression>)
    requires
        items@.len() >= 1,
    ensures
        model(r) == joined(models_of(items@, 0), alternative),
{
    let mut items = items;
    let ghost all = items@;
    proof {
        lemma_models_of(all, 0);
    }
    let n = items.len();
    if n == 1 {
        return items.remove(0);
    }
    let span = Span::combine(&items[0].span, &items[n - 1].span);
    let first = items.remove(0);
    let second = items.remove(0);
    proof {
        lemma_models_of(items@, 0);
        assert(seq![model(first), model(second)] + models_of(items@, 0) =~= models_of(all, 0));
    }
    if alternative {
        Spanned { node: Expression::Alternative { first: Box::new(first), second: Box::new(second), rest: items }, span }
    } else {
        Spanned { node: Expression::Sequence { first: Box::new(first), second: Box::new(second), rest: items }, span }
    }
}

fn single(x: Spanned<Expression>) -> (r: Vec<Spanned<Expression>>)
    ensures
        r@.len() == 1,
        models_of(r@, 0) == seq![model(x)],
{
    let mut r: Vec<Spanned<Expression>> = Vec::new();
    r.push(x);
    proof {
        lemma_models_of(r@, 0);
        assert(models_of(r@, 0) =~= seq![model(x)]);
    }
    r
}

/// The empty expression at `pos`.
pub fn empty(tokens: &Tokens, pos: usize) -> (r: Result<(usize, Spanned<Expression>), Fault>)
    ensures
        parsed(r) == Ok::<(int, Spanned<ExprModel>), Fault>((pos as int, empty_at(tokens_model(tokens), pos as int))),
{
    let span = if pos < tokens.items.len() {
        Span::between(&tokens.last_span(pos), &tokens.items[pos].span)
    } else {
        tokens.last_span(pos)
    };
    Ok((pos, Spanned { node: Expression::Empty, span }))
}

fn bracketed(tokens: &Tokens, pos: usize, close: &Token, missing: ParseError) -> (r: Result<(usize, Spanned<Expression>, Span), Fault>)
    requires
        pos < tokens.items@.len(),
        is_punctuation(close@),
    ensures
        bracketed_result(r) == p_bracketed(tokens_model(tokens), pos as int, close@, missing),
        r matches Ok((k, _, _)) ==> pos < k <= tokens.items@.len(),
    decreases tokens.items@.len() - pos, 1nat,
{
    let _n = tokens.items.len();
    match alternative(tokens, pos + 1) {
        Err(f) => Err(f),
        Ok((k, inner)) => if tokens.is_at(k, close) {
            let span = Span::combine(&tokens.items[pos].span, &tokens.items[k].span);
            Ok((k + 1, inner, span))
        } else {
            Err(tokens.failure_at(k, missing))
        },
    }
}

/// `[ alternative ]`, also written `(/ alternative /)`.
pub fn optional(tokens: &Tokens, pos: usize) -> (r: Result<(usize, Spanned<Expression>), Fault>)
    requires
        pos <= tokens.items@.len(),
    ensures
        parsed(r) == p_optional(tokens_model(tokens), pos as int),
        r matches Ok((k, _)) ==> pos < k <= tokens.items@.len(),
    decreases tokens.items@.len() - pos, 2nat,
{
    if !tokens.is_at(pos, &Token::StartOption) {
        return Err(tokens.error_at(pos, ParseError::StartOptionSymbolExpected));
    }
    match bracketed(tokens, pos, &Token::EndOption, ParseError::EndOptionSymbolExpected) {
        Err(f) => Err(f),
        Ok((k, inner, span)) => Ok((k, Spanned { node: Expression::Optional(Box::new(inner)), span })),
    }
}

/// `{ alternative }`, also written `(: alternative :)`.
pub fn repeated(tokens: &Tokens, pos: usize) -> (r: Result<(usize, Spanned<Expression>), Fault>)
    requires
        pos <= tokens.items@.len(),
    ensures
        parsed(r) == p_repeated(tokens_model(tokens), pos as int),
        r matches Ok((k, _)) ==> pos < k <= tokens.items@.len(),
    decreases tokens.items@.len() - pos, 2nat,
{
    if !tokens.is_at(pos, &Token::StartRepeat) {
        return Err(tokens.error_at(pos, ParseError::StartRepeatSymbolExpected));
    }
    match bracketed(tokens, pos, &Token::EndRepeat, ParseError::EndRepeatSymbolExpected) {
        Err(f) => Err(f),
        Ok((k, inner, span)) => Ok((k, Spanned { node: Expression::Repeated(Box::new(inner)), span })),
    }
}

/// `( alternative )`: the inner expression, spanned by the parentheses.
pub fn grouped(tokens: &Tokens, pos: usize) -> (r: Result<(usize, Spanned<Expression>), Fault>)
    requires
        pos <= tokens.items@.len(),
    ensures
        parsed(r) == p_grouped(tokens_model(tokens), pos as int),
        r matches Ok((k, _)) ==> pos < k <= tokens.items@.len(),
    decreases tokens.items@.len() - pos, 2nat,
{
    if !tokens.is_at(pos, &Token::StartGroup) {
        return Err(tokens.error_at(pos, ParseError::StartGroupSymbolExpected));
    }
    match bracketed(tokens, pos, &Token::EndGroup, ParseError::EndGroupSymbolExpected) {
        Err(f) => Err(f),
        Ok((k, inner, span)) => Ok((k, Spanned { node: inner.node, span })),
    }
}

fn primary(tokens: &Tokens, pos: usize) -> (r: Result<(usize, Spanned<Expression>), Fault>)
    requires
        pos <= tokens.items@.len(),
    ensures
        parsed(r) == p_primary(tokens_model(tokens), pos as int),
        r matches Ok((k, _)) ==> pos <= k <= tokens.items@.len(),
    decreases tokens.items@.len() - pos, 3nat,
{
    if pos >= tokens.items.len() {
        return empty(tokens, pos);
    }
    let span = tokens.items[pos].span;
    match &tokens.items[pos].node {
        Token::StartOption => optional(tokens, pos),
        Token::StartRepeat => repeated(tokens, pos),
        Token::StartGroup => grouped(tokens, pos),
        Token::Nonterminal(s) => Ok((pos + 1, Spanned { node: Expression::Nonterminal(s.clone()), span })),
        Token::Terminal(s) => Ok((pos + 1, Spanned { node: Expression::Terminal(s.clone()), span })),
        Token::Special(s) => Ok((pos + 1, Spanned { node: Expression::Special(s.clone()), span })),
        _ => empty(tokens, pos),
    }
}

/// `( integer '*' )? primary`. Once the integer is read the `*` is owed.
/// `0 * x` becomes the empty expression and `1 * x` the primary itself.
pub fn factor(tokens: &Tokens, pos: usize) -> (r: Result<(usize, Spanned<Expression>), Fault>)
    requires
        pos <= tokens.items@.len(),
    ensures
        parsed(r) == p_factor(tokens_model(tokens), pos as int),
        r matches Ok((k, _)) ==> pos <= k <= tokens.items@.len(),
    decreases tokens.items@.len() - pos, 4nat,
{
    if pos >= tokens.items.len() {
        return primary(tokens, pos);
    }
    let count_span = tokens.items[pos].span;
    match &tokens.items[pos].node {
        Token::Integer(n) => {
            let n = *n;
            if !tokens.is_at(pos + 1, &Token::Repetition) {
                return Err(tokens.failure_at(pos + 1, ParseError::RepetitionSymbolExpected));
            }
            match primary(tokens, pos + 2) {
                Err(f) => Err(f),
                Ok((k, x)) => {
                    let span = Span::combine(&count_span, &x.span);
                    if n == 0 {
                        Ok((k, Spanned { node: Expression::Empty, span }))
                    } else if n == 1 {
                        Ok((k, x))
                    } else {
                        let count = Spanned { node: n, span: count_span };
                        Ok((k, Spanned { node: Expression::Factor { count, primary: Box::new(x) }, span }))
                    }
                },
            }
        },
        _ => primary(tokens, pos),
    }
}

/// `factor ( '-' factor )?`; once `-` is read the second factor is owed.
pub fn term(tokens: &Tokens, pos: usize) -> (r: Result<(usize, Spanned<Expression>), Fault>)
    requires
        pos <= tokens.items@.len(),
    ensures
        parsed(r) == p_term(tokens_model(tokens), pos as int),
        r matches Ok((k, _)) ==> pos <= k <= tokens.items@.len(),
    decreases tokens.items@.len() - pos, 5nat,
{
    let _n = tokens.items.len();
    match factor(tokens, pos) {
        Err(f) => Err(f),
        Ok((k, x)) => if tokens.is_at(k, &Token::Exception) {
            match factor(tokens, k + 1) {
                Err(f) => Err(commit(f)),
                Ok((k2, y)) => {
                    let span = Span::combine(&x.span, &y.span);
                    Ok((k2, Spanned { node: Expression::Exception { subject: Box::new(x), restriction: Box::new(y) }, span }))
                },
            }
        } else {
            Ok((k, x))
        },
    }
}

fn list_rest(tokens: &Tokens, start: usize, items: Vec<Spanned<Expression>>, alternative: bool) -> (r: Result<(usize, Vec<Spanned<Expression>>), Fault>)
    requires
        start <= tokens.items@.len(),
        items@.len() >= 1,
    ensures
        list_result(r) == p_list_rest(tokens_model(tokens), start as int, models_of(items@, 0), alternative),
        r matches Ok((k, v)) ==> start <= k <= tokens.items@.len() && v@.len() >= 1,
    decreases tokens.items@.len() - start, if alternative { 8nat } else { 6nat },
{
    let _n = tokens.items.len();
    let ghost ts = tokens_model(tokens);
    let ghost first_models = models_of(items@, 0);
    let mut acc = items;
    let mut k = start;
    loop
        invariant
            ts == tokens_model(tokens),
            start <= k <= tokens.items@.len(),
            acc@.len() >= 1,
            first_models == models_of(items@, 0),
            p_list_rest(ts, k as int, models_of(acc@, 0), alternative) == p_list_rest(ts, start as int, first_models, alternative),
        decreases tokens.items@.len() - k,
    {
        let _n = tokens.items.len();
        let separated = if alternative {
            tokens.is_at(k, &Token::DefinitionSeparator)
        } else {
            tokens.is_at(k, &Token::Concatenation)
        };
        if !separated {
            return Ok((k, acc));
        }
        let next = if alternative {
            sequence(tokens, k + 1)
        } else {
            term(tokens, k + 1)
        };
        match next {
            Err(Fault::Error(e)) => {
                return Ok((k, acc));
            },
            Err(f) => {
                return Err(f);
            },
            Ok((k2, y)) => {
                let ghost before = acc@;
                acc.push(y);
                proof {
                    lemma_models_of(before, 0);
                    lemma_models_of(acc@, 0);
                    assert(models_of(acc@, 0) =~= models_of(before, 0).push(model(y)));
                }
                k = k2;
            },
        }
    }
}

/// `term ( ',' term )*`; a single term stands for itself.
pub fn sequence(tokens: &Tokens, pos: usize) -> (r: Result<(usize, Spanned<Expression>), Fault>)
    requires
        pos <= tokens.items@.len(),
    ensures
        parsed(r) == p_sequence(tokens_model(tokens), pos as int),
        r matches Ok((k, _)) ==> pos <= k <= tokens.items@.len(),
    decreases tokens.items@.len() - pos, 7nat,
{
    match term(tokens, pos) {
        Err(f) => Err(f),
        Ok((k, x)) => match list_rest(tokens, k, single(x), false) {
            Err(f) => Err(f),
            Ok((k2, items)) => Ok((k2, join(items, false))),
        },
    }
}

/// `sequence ( separator sequence )*`; a single sequence stands for itself.
pub fn alternative(tokens: &Tokens, pos: usize) -> (r: Result<(usize, Spanned<Expression>), Fault>)
    requires
        pos <= tokens.items@.len(),
    ensures
        parsed(r) == p_alternative(tokens_model(tokens), pos as int),
        r matches Ok((k, _)) ==> pos <= k <= tokens.items@.len(),
    decreases tokens.items@.len() - pos, 9nat,
{
    match sequence(tokens, pos) {
        Err(f) => Err(f),
        Ok((k, x)) => match list_rest(tokens, k, single(x), true) {
            Err(f) => Err(f),
            Ok((k2, items)) => Ok((k2, join(items, true))),
        },
    }
}

/// `identifier '=' alternative terminator`. At the end of input this is a
/// recoverable failure; from a first token on, everything is owed.
pub fn production(tokens: &Tokens, pos: usize) -> (r: Result<(usize, Spanned<Production>), Fault>)
    requires
        pos <= tokens.items@.len(),
    ensures
        production_result(r) == p_production(tokens_model(tokens), pos as int),
        r matches Ok((k, _)) ==> pos < k <= tokens.items@.len(),
{
    reveal(p_production);
    if pos >= tokens.items.len() {
        return Err(tokens.error_at(pos, ParseError::IdentifierExpected));
    }
    let name_span = tokens.items[pos].span;
    match &tokens.items[pos].node {
        Token::Nonterminal(name) => {
            if !tokens.is_at(pos + 1, &Token::Definition) {
                return Err(tokens.failure_at(pos + 1, ParseError::DefinitionSymbolExpected));
            }
            match alternative(tokens, pos + 2) {
                Err(f) => Err(commit(f)),
                Ok((k, rhs)) => if tokens.is_at(k, &Token::Terminator) {
                    let span = Span::combine(&name_span, &tokens.items[k].span);
                    let lhs = Spanned { node: name.clone(), span: name_span };
                    Ok((k + 1, Spanned { node: Production { lhs, rhs }, span }))
                } else {
                    Err(tokens.failure_at(k, ParseError::TerminatorSymbolExpected))
                },
            }
        },
        _ => Err(tokens.failure_at(pos, ParseError::IdentifierExpected)),
    }
}

/// `production+`, up to the end of input.
pub fn syntax(tokens: &Tokens, pos: usize) -> (r: Result<(usize, Spanned<Grammar>), Fault>)
    requires
        pos <= tokens.items@.len(),
    ensures
        syntax_result(r) == p_syntax(tokens_model(tokens), pos as int),
{
    let _n = tokens.items.len();
    let ghost ts = tokens_model(tokens);
    let (k0, p) = match production(tokens, pos) {
        Err(f) => {
            return Err(f);
        },
        Ok(step) => step,
    };
    let ghost first_model = production_model(p);
    let mut productions: Vec<Spanned<Production>> = Vec::new();
    productions.push(p);
    let mut k = k0;
    proof {
        assert(production_models(productions@) =~= seq![first_model]);
    }
    loop
        invariant
            ts == tokens_model(tokens),
            first_model == production_model(p),
            p_production(ts, pos as int) == Ok::<(int, Spanned<ProductionModel>), Fault>((k0 as int, first_model)),
            k0 <= k <= tokens.items@.len(),
            productions@.len() >= 1,
            p_productions(ts, k as int, production_models(productions@))
                == p_productions(ts, k0 as int, seq![first_model]),
        decreases tokens.items@.len() - k,
    {
        match production(tokens, k) {
            Err(Fault::Error(e)) => {
                let n = productions.len();
                let span = Span::combine(&productions[0].span, &productions[n - 1].span);
                proof {
                    let ms = production_models(productions@);
                    assert(ms[0].span == productions@[0].span);
                    assert(ms.last().span == productions@[n - 1].span);
                }
                return Ok((k, Spanned { node: Grammar { productions }, span }));
            },
            Err(f) => {
                return Err(f);
            },
            Ok((k2, q)) => {
                let ghost before = productions@;
                productions.push(q);
                proof {
                    assert(production_models(productions@)
                        =~= production_models(before).push(production_model(q)));
                }
                k = k2;
            },
        }
    }
}

/// The grammar that a token stream spells, or the first syntax error with
/// the span of the offending token (at the end of input, of the last one).
pub fn parse(tokens: Vec<Spanned<Token>>) -> (r: Result<Spanned<Grammar>, Spanned<ParseError>>)
    ensures
        match (r, parse_spec(stream(tokens@))) {
            (Ok(g), Ok(m)) => grammar_model(g) == m,
            (Err(e), Err(m)) => e == m,
            _ => false,
        },
{
    let tokens = Tokens::new(tokens);
    match syntax(&tokens, 0) {
        Ok((_, grammar)) => Ok(grammar),
        Err(Fault::Error(e)) => Err(e),
        Err(Fault::Failure(e)) => Err(e),
    }
}

} // verus!
