//! The canonical grammar: one expression per rule name, without spans, as
//! the recognizer reads it.
use crate::ast;
use crate::preprocessor::{defined_names, rule_index, Productions};
use crate::span::Spanned;
use vstd::prelude::*;

verus! {

/// An expression of the canonical grammar.
#[derive(Debug, PartialEq, Eq)]
pub enum Expression {
    Alternative { first: Box<Expression>, second: Box<Expression>, rest: Vec<Expression> },
    Sequence { first: Box<Expression>, second: Box<Expression>, rest: Vec<Expression> },
    Optional(Box<Expression>),
    Repeated(Box<Expression>),
    Factor { count: usize, primary: Box<Expression> },
    Exception { subject: Box<Expression>, restriction: Box<Expression> },
    Nonterminal(String),
    Terminal(String),
    Special(String),
    Empty,
}

/// A rule: a name and the expression it stands for.
#[derive(Debug, PartialEq, Eq)]
pub struct Rule {
    pub name: String,
    pub expression: Expression,
}

/// Rules with distinct names, in the order in which the names first appear
/// in the source.
#[derive(Debug, PartialEq, Eq)]
pub struct Grammar {
    pub rules: Vec<Rule>,
}

/// `c` is `e` with its spans taken away.
pub open spec fn stripped(c: Expression, e: Spanned<ast::Expression>) -> bool
    decreases e,
{
    match (c, e.node) {
        (
            Expression::Alternative { first: f, second: s, rest: r },
            ast::Expression::Alternative { first, second, rest },
        ) => stripped(*f, *first) && stripped(*s, *second) && r@.len() == rest@.len() && forall|k: int|
            0 <= k < rest@.len() ==> stripped(#[trigger] r@[k], rest@[k]),
        (
            Expression::Sequence { first: f, second: s, rest: r },
            ast::Expression::Sequence { first, second, rest },
        ) => stripped(*f, *first) && stripped(*s, *second) && r@.len() == rest@.len() && forall|k: int|
            0 <= k < rest@.len() ==> stripped(#[trigger] r@[k], rest@[k]),
        (Expression::Optional(x), ast::Expression::Optional(y)) => stripped(*x, *y),
        (Expression::Repeated(x), ast::Expression::Repeated(y)) => stripped(*x, *y),
        (Expression::Factor { count: n, primary: x }, ast::Expression::Factor { count, primary }) => n
            == count.node && stripped(*x, *primary),
        (
            Expression::Exception { subject: s, restriction: r },
            ast::Expression::Exception { subject, restriction },
        ) => stripped(*s, *subject) && stripped(*r, *restriction),
        (Expression::Nonterminal(a), ast::Expression::Nonterminal(b)) => a@ == b@,
        (Expression::Terminal(a), ast::Expression::Terminal(b)) => a@ == b@,
        (Expression::Special(a), ast::Expression::Special(b)) => a@ == b@,
        (Expression::Empty, ast::Expression::Empty) => true,
        _ => false,
    }
}

/// The names of `names`, each kept at its first appearance.
pub open spec fn distinct_names(names: Seq<Seq<char>>) -> Seq<Seq<char>>
    decreases names.len(),
{
    if names.len() == 0 {
        Seq::empty()
    } else {
        let before = distinct_names(names.drop_last());
        if before.contains(names.last()) {
            before
        } else {
            before.push(names.last())
        }
    }
}

pub open spec fn rule_names(rules: Seq<Rule>) -> Seq<Seq<char>> {
    rules.map_values(|r: Rule| r.name@)
}

/// The rules that compiling the productions `ps` gives: one per distinct
/// name, in order of first appearance, each holding the stripped expression
/// of its name's last definition.
pub open spec fn compiled(rules: Seq<Rule>, ps: Productions) -> bool {
    &&& rule_names(rules) == distinct_names(defined_names(ps))
    &&& forall|j: int| 0 <= j < rules.len() ==> stripped(
        (#[trigger] rules[j]).expression,
        ps[rule_index(ps, ps.len() as int, rules[j].name@)].node.rhs,
    )
}

fn strip(e: Spanned<ast::Expression>) -> (r: Expression)
    ensures
        stripped(r, e),
    decreases e,
{
    let Spanned { node, span: _ } = e;
    match node {
        ast::Expression::Alternative { first, second, rest } => {
            let rest = strip_all(rest);
            Expression::Alternative { first: Box::new(strip(*first)), second: Box::new(strip(*second)), rest }
        },
        ast::Expression::Sequence { first, second, rest } => {
            let rest = strip_all(rest);
            Expression::Sequence { first: Box::new(strip(*first)), second: Box::new(strip(*second)), rest }
        },
        ast::Expression::Optional(x) => Expression::Optional(Box::new(strip(*x))),
        ast::Expression::Repeated(x) => Expression::Repeated(Box::new(strip(*x))),
        ast::Expression::Factor { count, primary } => Expression::Factor { count: count.node, primary: Box::new(strip(*primary)) },
        ast::Expression::Exception { subject, restriction } => Expression::Exception {
            subject: Box::new(strip(*subject)),
            restriction: Box::new(strip(*restriction)),
        },
        ast::Expression::Nonterminal(s) => Expression::Nonterminal(s),
        ast::Expression::Terminal(s) => Expression::Terminal(s),
        ast::Expression::Special(s) => Expression::Special(s),
        ast::Expression::Empty => Expression::Empty,
    }
}

fn strip_all(es: Vec<Spanned<ast::Expression>>) -> (r: Vec<Expression>)
    ensures
        r@.len() == es@.len(),
        forall|k: int| 0 <= k < es@.len() ==> stripped(#[trigger] r@[k], es@[k]),
    decreases es,
{
    let ghost all = es@;
    let mut rest = es;
    let mut out: Vec<Expression> = Vec::new();
    while rest.len() > 0
        invariant
            all == es@,
            out@.len() + rest@.len() == all.len(),
            rest@ == all.subrange(out@.len() as int, all.len() as int),
            forall|k: int| 0 <= k < out@.len() ==> stripped(#[trigger] out@[k], all[k]),
        decreases rest@.len(),
    {
        let ghost i = out@.len() as int;
        let x = rest.remove(0);
        assert(x == all[i]);
        proof {
            broadcast use vstd::std_specs::vec::axiom_vec_decreases_to_view;
            assert(decreases_to!(es => es@));
            assert(decreases_to!(es@ => es@[i]));
        }
        out.push(strip(x));
        assert(rest@ =~= all.subrange(out@.len() as int, all.len() as int));
    }
    out
}

proof fn lemma_distinct_names(names: Seq<Seq<char>>)
    ensures
        distinct_names(names).no_duplicates(),
    decreases names.len(),
{
    if names.len() > 0 {
        lemma_distinct_names(names.drop_last());
    }
}

fn position(rules: &Vec<Rule>, name: &String) -> (r: Option<usize>)
    ensures
        match r {
            Some(j) => j < rules@.len() && rules@[j as int].name@ == name@,
            None => !rule_names(rules@).contains(name@),
        },
{
    let mut j: usize = 0;
    while j < rules.len()
        invariant
            j <= rules@.len(),
            forall|k: int| 0 <= k < j ==> rules@[k].name@ != name@,
        decreases rules@.len() - j,
    {
        if rules[j].name == *name {
            return Some(j);
        }
        j = j + 1;
    }
    proof {
        if rule_names(rules@).contains(name@) {
            let k = choose|k: int| 0 <= k < rule_names(rules@).len() && rule_names(rules@)[k] == name@;
            assert(rules@[k].name@ == name@);
        }
    }
    None
}

/// Strips the spans from a checked grammar and keeps, for each rule name,
/// its last definition.
pub fn compile(grammar: Spanned<ast::Grammar>) -> (r: Grammar)
    ensures
        compiled(r.rules@, grammar.node.productions@),
{
    let ghost ps = grammar.node.productions@;
    let ghost n = ps.len();
    let mut productions = grammar.node.productions;
    let mut rules: Vec<Rule> = Vec::new();
    let ghost mut i: int = 0;
    proof {
        assert(defined_names(ps.take(0)) =~= Seq::<Seq<char>>::empty());
        assert(rule_names(rules@) =~= Seq::<Seq<char>>::empty());
    }
    while productions.len() > 0
        invariant
            0 <= i <= n,
            n == ps.len(),
            productions@ == ps.subrange(i, n as int),
            rule_names(rules@) == distinct_names(defined_names(ps.take(i))),
            forall|j: int| 0 <= j < rules@.len() ==> stripped(
                (#[trigger] rules@[j]).expression,
                ps[rule_index(ps, i, rules@[j].name@)].node.rhs,
            ),
        decreases productions@.len(),
    {
        let p = productions.remove(0);
        assert(p == ps[i]);
        let Spanned { node: ast::Production { lhs, rhs }, span: _ } = p;
        let name = lhs.node;
        let expression = strip(rhs);
        proof {
            assert(defined_names(ps.take(i + 1)) =~= defined_names(ps.take(i)).push(name@));
            assert(defined_names(ps.take(i + 1)).drop_last() =~= defined_names(ps.take(i)));
            lemma_distinct_names(defined_names(ps.take(i)));
        }
        let ghost before = rules@;
        let ghost name_v = name@;
        match position(&rules, &name) {
            Some(j) => {
                assert(rule_names(before)[j as int] == name_v);
                assert(rule_names(before).contains(name_v));
                let mut rule = rules.remove(j);
                rule.expression = expression;
                rules.insert(j, rule);
                proof {
                    assert(rule_names(rules@) =~= rule_names(before));
                    assert forall|k: int| 0 <= k < rules@.len() implies stripped(
                        (#[trigger] rules@[k]).expression,
                        ps[rule_index(ps, i + 1, rules@[k].name@)].node.rhs,
                    ) by {
                        if k != j {
                            assert(rule_names(before)[k] != rule_names(before)[j as int]);
                            assert(rules@[k] == before[k]);
                        }
                    }
                }
            },
            None => {
                rules.push(Rule { name, expression });
                proof {
                    assert(rule_names(rules@) =~= rule_names(before).push(name_v));
                    assert forall|k: int| 0 <= k < rules@.len() implies stripped(
                        (#[trigger] rules@[k]).expression,
                        ps[rule_index(ps, i + 1, rules@[k].name@)].node.rhs,
                    ) by {
                        if k < before.len() {
                            assert(rule_names(before)[k] == before[k].name@);
                            assert(rules@[k] == before[k]);
                        }
                    }
                }
            },
        }
        proof {
            i = i + 1;
            assert(productions@ =~= ps.subrange(i, n as int));
        }
    }
    proof {
        assert(ps.take(i) =~= ps);
    }
    Grammar { rules }
}

} // verus!
