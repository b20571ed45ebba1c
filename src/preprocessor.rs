//! Validation of a parsed grammar: every nonterminal must be defined, and no
//! rule may reach itself before a terminal has been read.
use crate::ast::{Expression, Grammar, Production};
use crate::span::{Span, Spanned};
use vstd::prelude::*;

verus! {

/// What makes a grammar unusable.
#[derive(Debug, PartialEq)]
pub enum PreprocessError {
    UndefinedRule(String),
    LeftRecursion(Vec<String>),
}

pub enum PreprocessErrorModel {
    UndefinedRule(Seq<char>),
    LeftRecursion(Seq<Seq<char>>),
}

pub open spec fn names_model(v: Seq<String>) -> Seq<Seq<char>> {
    v.map_values(|s: String| s@)
}

impl View for PreprocessError {
    type V = PreprocessErrorModel;

    open spec fn view(&self) -> PreprocessErrorModel {
        match self {
            PreprocessError::UndefinedRule(s) => PreprocessErrorModel::UndefinedRule(s@),
            PreprocessError::LeftRecursion(v) => PreprocessErrorModel::LeftRecursion(names_model(v@)),
        }
    }
}

pub type Productions = Seq<Spanned<Production>>;

/// The names that the productions define, in order.
pub open spec fn defined_names(ps: Productions) -> Seq<Seq<char>> {
    ps.map_values(|p: Spanned<Production>| p.node.lhs.node@)
}

/// The first nonterminal, in reading order, that names no rule.
pub open spec fn first_undefined(e: Spanned<Expression>, names: Seq<Seq<char>>) -> Option<(Seq<char>, Span)>
    decreases e, 0nat,
{
    match e.node {
        Expression::Alternative { first, second, rest } => match first_undefined(*first, names) {
            Some(x) => Some(x),
            None => match first_undefined(*second, names) {
                Some(x) => Some(x),
                None => first_undefined_in(rest@, 0, names),
            },
        },
        Expression::Sequence { first, second, rest } => match first_undefined(*first, names) {
            Some(x) => Some(x),
            None => match first_undefined(*second, names) {
                Some(x) => Some(x),
                None => first_undefined_in(rest@, 0, names),
            },
        },
        Expression::Optional(inner) => first_undefined(*inner, names),
        Expression::Repeated(inner) => first_undefined(*inner, names),
        Expression::Factor { count, primary } => first_undefined(*primary, names),
        Expression::Exception { subject, restriction } => match first_undefined(*subject, names) {
            Some(x) => Some(x),
            None => first_undefined(*restriction, names),
        },
        Expression::Nonterminal(name) => if names.contains(name@) {
            None
        } else {
            Some((name@, e.span))
        },
        _ => None,
    }
}

pub open spec fn first_undefined_in(es: Seq<Spanned<Expression>>, k: int, names: Seq<Seq<char>>) -> Option<(Seq<char>, Span)>
    decreases es, es.len() - k,
{
    if 0 <= k < es.len() {
        match first_undefined(es[k], names) {
            Some(x) => Some(x),
            None => first_undefined_in(es, k + 1, names),
        }
    } else {
        None
    }
}

/// The index of the production that defines `name` last, or -1.
pub open spec fn rule_index(ps: Productions, n: int, name: Seq<char>) -> int
    decreases n,
{
    if n <= 0 || n > ps.len() {
        -1
    } else if ps[n - 1].node.lhs.node@ == name {
        n - 1
    } else {
        rule_index(ps, n - 1, name)
    }
}

/// Whether an expression may succeed without reading a terminal, the rules
/// on `trace` counting as not. `fuel` bounds how many rules are entered; a
/// chain of rules holds each rule at most once, so the number of
/// productions is always enough.
pub open spec fn can_fail_empty(e: Spanned<Expression>, ps: Productions, trace: Seq<Seq<char>>, fuel: nat) -> bool
    decreases fuel, e, 0nat,
{
    match e.node {
        Expression::Alternative { first, second, rest } => can_fail_empty(*first, ps, trace, fuel)
            && can_fail_empty(*second, ps, trace, fuel) && all_can_fail_empty(rest@, 0, ps, trace, fuel),
        Expression::Sequence { first, second, rest } => can_fail_empty(*first, ps, trace, fuel)
            || can_fail_empty(*second, ps, trace, fuel) || any_can_fail_empty(rest@, 0, ps, trace, fuel),
        Expression::Optional(_) => true,
        Expression::Repeated(_) => true,
        Expression::Factor { count, primary } => count.node == 0 || can_fail_empty(*primary, ps, trace, fuel),
        Expression::Exception { subject, restriction } => can_fail_empty(*subject, ps, trace, fuel)
            && can_fail_empty(*restriction, ps, trace, fuel),
        Expression::Nonterminal(name) => {
            let i = rule_index(ps, ps.len() as int, name@);
            if trace.contains(name@) || i < 0 || fuel == 0 {
                false
            } else {
                can_fail_empty(ps[i].node.rhs, ps, trace.push(name@), (fuel - 1) as nat)
            }
        },
        Expression::Terminal(_) => false,
        Expression::Special(_) => false,
        Expression::Empty => true,
    }
}

pub open spec fn all_can_fail_empty(es: Seq<Spanned<Expression>>, k: int, ps: Productions, trace: Seq<Seq<char>>, fuel: nat) -> bool
    decreases fuel, es, es.len() - k,
{
    if 0 <= k < es.len() {
        can_fail_empty(es[k], ps, trace, fuel) && all_can_fail_empty(es, k + 1, ps, trace, fuel)
    } else {
        true
    }
}

pub open spec fn any_can_fail_empty(es: Seq<Spanned<Expression>>, k: int, ps: Productions, trace: Seq<Seq<char>>, fuel: nat) -> bool
    decreases fuel, es, es.len() - k,
{
    if 0 <= k < es.len() {
        can_fail_empty(es[k], ps, trace, fuel) || any_can_fail_empty(es, k + 1, ps, trace, fuel)
    } else {
        false
    }
}

/// Whether an operand of a sequence may be passed over without reading a
/// terminal, judged from the rule being walked.
pub open spec fn passable(e: Spanned<Expression>, ps: Productions, trace: Seq<Seq<char>>) -> bool {
    can_fail_empty(e, ps, seq![trace.last()], ps.len())
}

/// The first chain of rules, walked from the rule `trace[0]` through the
/// positions reachable without reading a terminal, that comes back to it.
pub open spec fn left_recursion(e: Spanned<Expression>, ps: Productions, trace: Seq<Seq<char>>, fuel: nat) -> Option<(Seq<Seq<char>>, Span)>
    decreases fuel, e, 0nat,
{
    match e.node {
        Expression::Alternative { first, second, rest } => match left_recursion(*first, ps, trace, fuel) {
            Some(x) => Some(x),
            None => match left_recursion(*second, ps, trace, fuel) {
                Some(x) => Some(x),
                None => left_recursion_all(rest@, 0, ps, trace, fuel),
            },
        },
        Expression::Sequence { first, second, rest } => match left_recursion(*first, ps, trace, fuel) {
            Some(x) => Some(x),
            None => if !passable(*first, ps, trace) {
                None
            } else {
                match left_recursion(*second, ps, trace, fuel) {
                    Some(x) => Some(x),
                    None => if !passable(*second, ps, trace) {
                        None
                    } else {
                        left_recursion_prefix(rest@, 0, ps, trace, fuel)
                    },
                }
            },
        },
        Expression::Optional(inner) => left_recursion(*inner, ps, trace, fuel),
        Expression::Repeated(inner) => left_recursion(*inner, ps, trace, fuel),
        Expression::Factor { count, primary } => if count.node == 0 {
            None
        } else {
            left_recursion(*primary, ps, trace, fuel)
        },
        Expression::Exception { subject, restriction } => match left_recursion(*subject, ps, trace, fuel) {
            Some(x) => Some(x),
            None => left_recursion(*restriction, ps, trace, fuel),
        },
        Expression::Nonterminal(name) => {
            let i = rule_index(ps, ps.len() as int, name@);
            if trace.len() > 0 && trace[0] == name@ {
                Some((trace.push(name@), e.span))
            } else if trace.contains(name@) || i < 0 || fuel == 0 {
                None
            } else {
                left_recursion(ps[i].node.rhs, ps, trace.push(name@), (fuel - 1) as nat)
            }
        },
        _ => None,
    }
}

pub open spec fn left_recursion_all(es: Seq<Spanned<Expression>>, k: int, ps: Productions, trace: Seq<Seq<char>>, fuel: nat) -> Option<(Seq<Seq<char>>, Span)>
    decreases fuel, es, es.len() - k,
{
    if 0 <= k < es.len() {
        match left_recursion(es[k], ps, trace, fuel) {
            Some(x) => Some(x),
            None => left_recursion_all(es, k + 1, ps, trace, fuel),
        }
    } else {
        None
    }
}

/// Walks the operands of a sequence from `k` on while the ones before could
/// be passed without reading a terminal.
pub open spec fn left_recursion_prefix(es: Seq<Spanned<Expression>>, k: int, ps: Productions, trace: Seq<Seq<char>>, fuel: nat) -> Option<(Seq<Seq<char>>, Span)>
    decreases fuel, es, es.len() - k,
{
    if 0 <= k < es.len() {
        match left_recursion(es[k], ps, trace, fuel) {
            Some(x) => Some(x),
            None => if !passable(es[k], ps, trace) {
                None
            } else {
                left_recursion_prefix(es, k + 1, ps, trace, fuel)
            },
        }
    } else {
        None
    }
}

/// The first undefined nonterminal, production by production from `i`.
pub open spec fn undefined_from(ps: Productions, i: int) -> Option<(Seq<char>, Span)>
    decreases ps.len() - i,
{
    if 0 <= i < ps.len() {
        match first_undefined(ps[i].node.rhs, defined_names(ps)) {
            Some(x) => Some(x),
            None => undefined_from(ps, i + 1),
        }
    } else {
        None
    }
}

/// The first left recursion, rule by rule in the order of the productions
/// from `i`; each name is checked against the definition that counts, its
/// last one.
pub open spec fn left_recursion_from(ps: Productions, i: int) -> Option<(Seq<Seq<char>>, Span)>
    decreases ps.len() - i,
{
    if 0 <= i < ps.len() {
        let name = ps[i].node.lhs.node@;
        let body = ps[rule_index(ps, ps.len() as int, name)].node.rhs;
        match left_recursion(body, ps, seq![name], ps.len()) {
            Some(x) => Some(x),
            None => left_recursion_from(ps, i + 1),
        }
    } else {
        None
    }
}

/// What validating a grammar with these productions reports, if anything.
pub open spec fn preprocess_spec(ps: Productions) -> Option<(PreprocessErrorModel, Span)> {
    match undefined_from(ps, 0) {
        Some((name, span)) => Some((PreprocessErrorModel::UndefinedRule(name), span)),
        None => match left_recursion_from(ps, 0) {
            Some((chain, span)) => Some((PreprocessErrorModel::LeftRecursion(chain), span)),
            None => None,
        },
    }
}


pub open spec fn undefined_result(r: Result<(), Spanned<PreprocessError>>) -> Option<(Seq<char>, Span)> {
    match r {
        Ok(_) => None,
        Err(x) => match x.node {
            PreprocessError::UndefinedRule(name) => Some((name@, x.span)),
            PreprocessError::LeftRecursion(_) => None,
        },
    }
}

pub open spec fn recursion_result(r: Result<(), Spanned<PreprocessError>>) -> Option<(Seq<Seq<char>>, Span)> {
    match r {
        Ok(_) => None,
        Err(x) => match x.node {
            PreprocessError::LeftRecursion(chain) => Some((names_model(chain@), x.span)),
            PreprocessError::UndefinedRule(_) => None,
        },
    }
}

fn contains_name(names: &Vec<String>, name: &String) -> (r: bool)
    ensures
        r == names_model(names@).contains(name@),
{
    let mut i: usize = 0;
    while i < names.len()
        invariant
            i <= names@.len(),
            forall|j: int| 0 <= j < i ==> names@[j]@ != name@,
        decreases names@.len() - i,
    {
        if names[i] == *name {
            assert(names_model(names@)[i as int] == name@);
            return true;
        }
        i = i + 1;
    }
    assert(!names_model(names@).contains(name@)) by {
        if names_model(names@).contains(name@) {
            let j = choose|j: int| 0 <= j < names_model(names@).len() && names_model(names@)[j] == name@;
            assert(names@[j]@ == name@);
        }
    }
    false
}

fn copy_names(names: &Vec<String>) -> (r: Vec<String>)
    ensures
        names_model(r@) == names_model(names@),
{
    let mut r: Vec<String> = Vec::new();
    let mut i: usize = 0;
    while i < names.len()
        invariant
            i <= names@.len(),
            r@.len() == i,
            forall|j: int| 0 <= j < i ==> r@[j]@ == names@[j]@,
        decreases names@.len() - i,
    {
        r.push(names[i].clone());
        i = i + 1;
    }
    assert(names_model(r@) =~= names_model(names@));
    r
}

fn find_rule(ps: &Vec<Spanned<Production>>, name: &String) -> (r: Option<usize>)
    ensures
        match r {
            Some(i) => i < ps@.len() && i as int == rule_index(ps@, ps@.len() as int, name@),
            None => rule_index(ps@, ps@.len() as int, name@) < 0,
        },
{
    let mut n = ps.len();
    while n > 0
        invariant
            n <= ps@.len(),
            rule_index(ps@, n as int, name@) == rule_index(ps@, ps@.len() as int, name@),
        decreases n,
    {
        if ps[n - 1].node.lhs.node == *name {
            return Some(n - 1);
        }
        n = n - 1;
    }
    None
}

fn check_nonterminals(e: &Spanned<Expression>, names: &Vec<String>) -> (r: Result<(), Spanned<PreprocessError>>)
    ensures
        undefined_result(r) == first_undefined(*e, names_model(names@)),
        r matches Err(x) ==> x.node is UndefinedRule,
    decreases e, 0nat,
{
    match &e.node {
        Expression::Alternative { first, second, rest } | Expression::Sequence { first, second, rest } => {
            check_nonterminals(first, names)?;
            check_nonterminals(second, names)?;
            check_nonterminals_in(rest, names)
        },
        Expression::Optional(inner) | Expression::Repeated(inner) => check_nonterminals(inner, names),
        Expression::Factor { primary, .. } => check_nonterminals(primary, names),
        Expression::Exception { subject, restriction } => {
            check_nonterminals(subject, names)?;
            check_nonterminals(restriction, names)
        },
        Expression::Nonterminal(name) => if contains_name(names, name) {
            Ok(())
        } else {
            Err(Spanned { node: PreprocessError::UndefinedRule(name.clone()), span: e.span })
        },
        _ => Ok(()),
    }
}

fn check_nonterminals_in(es: &Vec<Spanned<Expression>>, names: &Vec<String>) -> (r: Result<(), Spanned<PreprocessError>>)
    ensures
        undefined_result(r) == first_undefined_in(es@, 0, names_model(names@)),
        r matches Err(x) ==> x.node is UndefinedRule,
    decreases es, 1nat,
{
    let mut i: usize = 0;
    while i < es.len()
        invariant
            i <= es@.len(),
            first_undefined_in(es@, i as int, names_model(names@)) == first_undefined_in(es@, 0, names_model(names@)),
        decreases es@.len() - i,
    {
        check_nonterminals(&es[i], names)?;
        i = i + 1;
    }
    Ok(())
}


fn is_failing(e: &Spanned<Expression>, ps: &Vec<Spanned<Production>>, trace: &mut Vec<String>, fuel: usize) -> (r: bool)
    ensures
        r == can_fail_empty(*e, ps@, names_model(old(trace)@), fuel as nat),
        final(trace)@ == old(trace)@,
    decreases fuel, e, 0nat,
{
    match &e.node {
        Expression::Alternative { first, second, rest } => is_failing(first, ps, trace, fuel)
            && is_failing(second, ps, trace, fuel) && all_failing(rest, ps, trace, fuel),
        Expression::Sequence { first, second, rest } => is_failing(first, ps, trace, fuel)
            || is_failing(second, ps, trace, fuel) || any_failing(rest, ps, trace, fuel),
        Expression::Optional(_) | Expression::Repeated(_) => true,
        Expression::Factor { count, primary } => count.node == 0 || is_failing(primary, ps, trace, fuel),
        Expression::Exception { subject, restriction } => is_failing(subject, ps, trace, fuel)
            && is_failing(restriction, ps, trace, fuel),
        Expression::Nonterminal(name) => {
            if contains_name(trace, name) || fuel == 0 {
                return false;
            }
            match find_rule(ps, name) {
                None => false,
                Some(i) => {
                    let ghost before = trace@;
                    trace.push(name.clone());
                    proof {
                        assert(names_model(trace@) =~= names_model(before).push(name@));
                    }
                    let r = is_failing(&ps[i].node.rhs, ps, trace, fuel - 1);
                    trace.pop();
                    proof {
                        assert(trace@ =~= before);
                    }
                    r
                },
            }
        },
        Expression::Terminal(_) | Expression::Special(_) => false,
        Expression::Empty => true,
    }
}

fn all_failing(es: &Vec<Spanned<Expression>>, ps: &Vec<Spanned<Production>>, trace: &mut Vec<String>, fuel: usize) -> (r: bool)
    ensures
        r == all_can_fail_empty(es@, 0, ps@, names_model(old(trace)@), fuel as nat),
        final(trace)@ == old(trace)@,
    decreases fuel, es, 1nat,
{
    let ghost t = names_model(trace@);
    let mut i: usize = 0;
    while i < es.len()
        invariant
            i <= es@.len(),
            names_model(trace@) == t,
            trace@ == old(trace)@,
            all_can_fail_empty(es@, i as int, ps@, t, fuel as nat) == all_can_fail_empty(es@, 0, ps@, t, fuel as nat),
        decreases es@.len() - i,
    {
        if !is_failing(&es[i], ps, trace, fuel) {
            return false;
        }
        i = i + 1;
    }
    true
}

fn any_failing(es: &Vec<Spanned<Expression>>, ps: &Vec<Spanned<Production>>, trace: &mut Vec<String>, fuel: usize) -> (r: bool)
    ensures
        r == any_can_fail_empty(es@, 0, ps@, names_model(old(trace)@), fuel as nat),
        final(trace)@ == old(trace)@,
    decreases fuel, es, 1nat,
{
    let ghost t = names_model(trace@);
    let mut i: usize = 0;
    while i < es.len()
        invariant
            i <= es@.len(),
            names_model(trace@) == t,
            trace@ == old(trace)@,
            any_can_fail_empty(es@, i as int, ps@, t, fuel as nat) == any_can_fail_empty(es@, 0, ps@, t, fuel as nat),
        decreases es@.len() - i,
    {
        if is_failing(&es[i], ps, trace, fuel) {
            return true;
        }
        i = i + 1;
    }
    false
}

fn is_passable(e: &Spanned<Expression>, ps: &Vec<Spanned<Production>>, trace: &Vec<String>) -> (r: bool)
    requires
        trace@.len() > 0,
    ensures
        r == passable(*e, ps@, names_model(trace@)),
{
    let mut current: Vec<String> = Vec::new();
    current.push(trace[trace.len() - 1].clone());
    proof {
        assert(names_model(current@) =~= seq![names_model(trace@).last()]);
    }
    is_failing(e, ps, &mut current, ps.len())
}

fn check_left(e: &Spanned<Expression>, ps: &Vec<Spanned<Production>>, trace: &mut Vec<String>, fuel: usize) -> (r: Result<(), Spanned<PreprocessError>>)
    requires
        old(trace)@.len() > 0,
    ensures
        recursion_result(r) == left_recursion(*e, ps@, names_model(old(trace)@), fuel as nat),
        r matches Err(x) ==> x.node is LeftRecursion,
        final(trace)@ == old(trace)@,
    decreases fuel, e, 0nat,
{
    match &e.node {
        Expression::Alternative { first, second, rest } => {
            check_left(first, ps, trace, fuel)?;
            check_left(second, ps, trace, fuel)?;
            check_left_all(rest, ps, trace, fuel)
        },
        Expression::Sequence { first, second, rest } => {
            check_left(first, ps, trace, fuel)?;
            if !is_passable(first, ps, trace) {
                return Ok(());
            }
            check_left(second, ps, trace, fuel)?;
            if !is_passable(second, ps, trace) {
                return Ok(());
            }
            check_left_prefix(rest, ps, trace, fuel)
        },
        Expression::Optional(inner) | Expression::Repeated(inner) => check_left(inner, ps, trace, fuel),
        Expression::Factor { count, primary } => if count.node == 0 {
            Ok(())
        } else {
            check_left(primary, ps, trace, fuel)
        },
        Expression::Exception { subject, restriction } => {
            check_left(subject, ps, trace, fuel)?;
            check_left(restriction, ps, trace, fuel)
        },
        Expression::Nonterminal(name) => {
            let ghost before = trace@;
            if trace.len() > 0 && trace[0] == *name {
                let mut chain = copy_names(trace);
                let ghost copied = chain@;
                chain.push(name.clone());
                proof {
                    assert(names_model(chain@) =~= names_model(copied).push(name@));
                }
                return Err(Spanned { node: PreprocessError::LeftRecursion(chain), span: e.span });
            }
            if contains_name(trace, name) || fuel == 0 {
                return Ok(());
            }
            match find_rule(ps, name) {
                None => Ok(()),
                Some(i) => {
                    trace.push(name.clone());
                    proof {
                        assert(names_model(trace@) =~= names_model(before).push(name@));
                    }
                    let r = check_left(&ps[i].node.rhs, ps, trace, fuel - 1);
                    trace.pop();
                    proof {
                        assert(trace@ =~= before);
                    }
                    r
                },
            }
        },
        _ => Ok(()),
    }
}

fn check_left_all(es: &Vec<Spanned<Expression>>, ps: &Vec<Spanned<Production>>, trace: &mut Vec<String>, fuel: usize) -> (r: Result<(), Spanned<PreprocessError>>)
    requires
        old(trace)@.len() > 0,
    ensures
        recursion_result(r) == left_recursion_all(es@, 0, ps@, names_model(old(trace)@), fuel as nat),
        r matches Err(x) ==> x.node is LeftRecursion,
        final(trace)@ == old(trace)@,
    decreases fuel, es, 1nat,
{
    let ghost t = names_model(trace@);
    let mut i: usize = 0;
    while i < es.len()
        invariant
            i <= es@.len(),
            names_model(trace@) == t,
            trace@ == old(trace)@,
            trace@.len() > 0,
            left_recursion_all(es@, i as int, ps@, t, fuel as nat) == left_recursion_all(es@, 0, ps@, t, fuel as nat),
        decreases es@.len() - i,
    {
        check_left(&es[i], ps, trace, fuel)?;
        i = i + 1;
    }
    Ok(())
}

fn check_left_prefix(es: &Vec<Spanned<Expression>>, ps: &Vec<Spanned<Production>>, trace: &mut Vec<String>, fuel: usize) -> (r: Result<(), Spanned<PreprocessError>>)
    requires
        old(trace)@.len() > 0,
    ensures
        recursion_result(r) == left_recursion_prefix(es@, 0, ps@, names_model(old(trace)@), fuel as nat),
        r matches Err(x) ==> x.node is LeftRecursion,
        final(trace)@ == old(trace)@,
    decreases fuel, es, 1nat,
{
    let ghost t = names_model(trace@);
    let mut i: usize = 0;
    while i < es.len()
        invariant
            i <= es@.len(),
            names_model(trace@) == t,
            trace@ == old(trace)@,
            trace@.len() > 0,
            left_recursion_prefix(es@, i as int, ps@, t, fuel as nat) == left_recursion_prefix(es@, 0, ps@, t, fuel as nat),
        decreases es@.len() - i,
    {
        check_left(&es[i], ps, trace, fuel)?;
        if !is_passable(&es[i], ps, trace) {
            return Ok(());
        }
        i = i + 1;
    }
    Ok(())
}

fn rule_names(ps: &Vec<Spanned<Production>>) -> (r: Vec<String>)
    ensures
        names_model(r@) == defined_names(ps@),
{
    let mut r: Vec<String> = Vec::new();
    let mut i: usize = 0;
    while i < ps.len()
        invariant
            i <= ps@.len(),
            r@.len() == i,
            forall|j: int| 0 <= j < i ==> r@[j]@ == ps@[j].node.lhs.node@,
        decreases ps@.len() - i,
    {
        r.push(ps[i].node.lhs.node.clone());
        i = i + 1;
    }
    assert(names_model(r@) =~= defined_names(ps@));
    r
}

pub open spec fn preprocess_result(r: Result<(), Spanned<PreprocessError>>) -> Option<(PreprocessErrorModel, Span)> {
    match r {
        Ok(_) => None,
        Err(x) => Some((x.node@, x.span)),
    }
}

/// `r` is the outcome of checking `grammar`: the grammar itself, untouched,
/// when it is valid; otherwise the first problem found.
pub open spec fn preprocessed(grammar: Spanned<Grammar>, r: Result<Spanned<Grammar>, Spanned<PreprocessError>>) -> bool {
    &&& r matches Ok(g) ==> g == grammar
    &&& preprocess_spec(grammar.node.productions@) is None <==> r is Ok
    &&& r matches Err(x) ==> preprocess_spec(grammar.node.productions@) == Some((x.node@, x.span))
}

fn validate(ps: &Vec<Spanned<Production>>) -> (r: Result<(), Spanned<PreprocessError>>)
    ensures
        preprocess_result(r) == preprocess_spec(ps@),
{
    let names = rule_names(ps);
    let mut i: usize = 0;
    while i < ps.len()
        invariant
            i <= ps@.len(),
            names_model(names@) == defined_names(ps@),
            undefined_from(ps@, i as int) == undefined_from(ps@, 0),
        decreases ps@.len() - i,
    {
        check_nonterminals(&ps[i].node.rhs, &names)?;
        i = i + 1;
    }
    let mut i: usize = 0;
    while i < ps.len()
        invariant
            i <= ps@.len(),
            undefined_from(ps@, 0) is None,
            left_recursion_from(ps@, i as int) == left_recursion_from(ps@, 0),
        decreases ps@.len() - i,
    {
        let name = &ps[i].node.lhs.node;
        let body = match find_rule(ps, name) {
            Some(j) => j,
            None => {
                proof {
                    assert(ps@[i as int].node.lhs.node@ == name@);
                    lemma_defined_rule(ps@, ps@.len() as int, i as int);
                }
                i
            },
        };
        let mut trace: Vec<String> = Vec::new();
        trace.push(name.clone());
        proof {
            assert(names_model(trace@) =~= seq![ps@[i as int].node.lhs.node@]);
        }
        check_left(&ps[body].node.rhs, ps, &mut trace, ps.len())?;
        i = i + 1;
    }
    Ok(())
}

proof fn lemma_defined_rule(ps: Productions, n: int, i: int)
    requires
        0 <= i < n <= ps.len(),
    ensures
        0 <= rule_index(ps, n, ps[i].node.lhs.node@) < n,
    decreases n,
{
    if ps[n - 1].node.lhs.node@ != ps[i].node.lhs.node@ {
        lemma_defined_rule(ps, n - 1, i);
    }
}

/// Checks a parsed grammar and hands it back unchanged, or reports the first
/// undefined nonterminal, then the first left recursion, with its span.
pub fn preprocess(grammar: Spanned<Grammar>) -> (r: Result<Spanned<Grammar>, Spanned<PreprocessError>>)
    ensures
        preprocessed(grammar, r),
{
    match validate(&grammar.node.productions) {
        Ok(()) => Ok(grammar),
        Err(e) => Err(e),
    }
}

} // verus!
