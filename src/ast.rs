//! The abstract syntax of an EBNF grammar, with the span of every part.
use crate::span::{Span, Spanned};
use vstd::prelude::*;

verus! {

/// An ordered list of productions, as written.
#[derive(Debug, PartialEq, Eq)]
pub struct Grammar {
    pub productions: Vec<Spanned<Production>>,
}

/// `lhs = rhs ;`
#[derive(Debug, PartialEq, Eq)]
pub struct Production {
    pub lhs: Spanned<String>,
    pub rhs: Spanned<Expression>,
}

/// The right-hand side of a production. `Alternative` and `Sequence` hold
/// at least two operands: `first`, `second`, then `rest`.
#[derive(Debug, PartialEq, Eq)]
pub enum Expression {
    Alternative {
        first: Box<Spanned<Expression>>,
        second: Box<Spanned<Expression>>,
        rest: Vec<Spanned<Expression>>,
    },
    Sequence {
        first: Box<Spanned<Expression>>,
        second: Box<Spanned<Expression>>,
        rest: Vec<Spanned<Expression>>,
    },
    Optional(Box<Spanned<Expression>>),
    Repeated(Box<Spanned<Expression>>),
    Factor {
        count: Spanned<usize>,
        primary: Box<Spanned<Expression>>,
    },
    Exception {
        subject: Box<Spanned<Expression>>,
        restriction: Box<Spanned<Expression>>,
    },
    Nonterminal(String),
    Terminal(String),
    Special(String),
    Empty,
}

/// An expression with its texts as sequences of characters and its lists
/// of operands as sequences.
pub enum ExprModel {
    Alternative(Seq<Spanned<ExprModel>>),
    Sequence(Seq<Spanned<ExprModel>>),
    Optional(Box<Spanned<ExprModel>>),
    Repeated(Box<Spanned<ExprModel>>),
    Factor(Spanned<usize>, Box<Spanned<ExprModel>>),
    Exception(Box<Spanned<ExprModel>>, Box<Spanned<ExprModel>>),
    Nonterminal(Seq<char>),
    Terminal(Seq<char>),
    Special(Seq<char>),
    Empty,
}

pub open spec fn model(e: Spanned<Expression>) -> Spanned<ExprModel>
    decreases e, 0nat,
{
    let node = match e.node {
        Expression::Alternative { first, second, rest } => ExprModel::Alternative(
            seq![model(*first), model(*second)] + models_of(rest@, 0),
        ),
        Expression::Sequence { first, second, rest } => ExprModel::Sequence(
            seq![model(*first), model(*second)] + models_of(rest@, 0),
        ),
        Expression::Optional(inner) => ExprModel::Optional(Box::new(model(*inner))),
        Expression::Repeated(inner) => ExprModel::Repeated(Box::new(model(*inner))),
        Expression::Factor { count, primary } => ExprModel::Factor(count, Box::new(model(*primary))),
        Expression::Exception { subject, restriction } => ExprModel::Exception(
            Box::new(model(*subject)),
            Box::new(model(*restriction)),
        ),
        Expression::Nonterminal(s) => ExprModel::Nonterminal(s@),
        Expression::Terminal(s) => ExprModel::Terminal(s@),
        Expression::Special(s) => ExprModel::Special(s@),
        Expression::Empty => ExprModel::Empty,
    };
    Spanned { node, span: e.span }
}

/// The models of `es[k..]`.
pub open spec fn models_of(es: Seq<Spanned<Expression>>, k: int) -> Seq<Spanned<ExprModel>>
    decreases es, es.len() - k,
{
    if 0 <= k < es.len() {
        seq![model(es[k])] + models_of(es, k + 1)
    } else {
        Seq::empty()
    }
}

} // verus!
