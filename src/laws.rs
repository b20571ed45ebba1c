//! Properties that relate several calls of the library.
use crate::ast::{ExprModel, Grammar};
use crate::parser::{
    joined, p_alternative, p_bracketed, p_factor, p_grouped, p_list_rest, p_optional, p_primary, p_production,
    p_productions, p_repeated, p_sequence, p_syntax, p_term, parse_spec, ProductionModel, TokenStream,
};
use crate::token::TokenModel;
use crate::canonical::Rule;
use crate::lexer::{lex_result, lexed, LexError};
use crate::preprocessor::{preprocessed, PreprocessError};
use crate::canonical::Expression;
use crate::recognizer::{
    node_model, recognize_spec, recognized, run, run_choice, run_repeat, run_sequence, run_times, spelled,
    spelled_all, Node, NodeModel, Run,
};
use crate::span::Spanned;
use crate::token::Token;
use vstd::prelude::*;

verus! {

/// Lexing the same source twice gives the same tokens, or the same error.
pub proof fn lexing_is_deterministic(
    text: Seq<char>,
    first: Result<Vec<Spanned<Token>>, Spanned<LexError>>,
    second: Result<Vec<Spanned<Token>>, Spanned<LexError>>,
)
    requires
        lexed(text, first),
        lexed(text, second),
    ensures
        lex_result(first) == lex_result(second),
{
}

/// Checking a grammar that passed the check again gives it back unchanged.
pub proof fn preprocessing_is_idempotent(
    grammar: Spanned<Grammar>,
    first: Result<Spanned<Grammar>, Spanned<PreprocessError>>,
    second: Result<Spanned<Grammar>, Spanned<PreprocessError>>,
)
    requires
        preprocessed(grammar, first),
        first matches Ok(g) ==> preprocessed(g, second),
    ensures
        first matches Ok(g) ==> second == first && g == grammar,
{
}

/// Recognizing the same input with the same grammar and start rule twice
/// gives the same outcome: both accept with the same tree, or both reject.
pub proof fn recognition_is_deterministic(
    g: Seq<Rule>,
    start: Seq<char>,
    text: Seq<char>,
    first: Option<Node>,
    second: Option<Node>,
)
    requires
        recognized(g, start, text, first),
        recognized(g, start, text, second),
    ensures
        first is Some <==> second is Some,
        first is Some ==> node_model(first->0) == node_model(second->0),
{
}

proof fn lemma_spelled_skip(ns: Seq<NodeModel>, k: int)
    requires
        0 <= k <= ns.len(),
    ensures
        spelled_all(ns, k) == spelled_all(ns.subrange(k, ns.len() as int), 0),
    decreases ns.len() - k,
{
    if k < ns.len() {
        lemma_spelled_skip(ns, k + 1);
        let rest = ns.subrange(k, ns.len() as int);
        lemma_spelled_skip(rest, 1);
        assert(rest.subrange(1, rest.len() as int) =~= ns.subrange(k + 1, ns.len() as int));
    } else {
        assert(ns.subrange(k, ns.len() as int).len() == 0);
    }
}

proof fn lemma_spelled_concat(a: Seq<NodeModel>, b: Seq<NodeModel>)
    ensures
        spelled_all(a + b, 0) == spelled_all(a, 0) + spelled_all(b, 0),
    decreases a.len(),
{
    if a.len() == 0 {
        assert(a + b =~= b);
        assert(spelled_all(a, 0) + spelled_all(b, 0) =~= spelled_all(b, 0));
    } else {
        let tail = a.subrange(1, a.len() as int);
        lemma_spelled_concat(tail, b);
        lemma_spelled_skip(a + b, 1);
        lemma_spelled_skip(a, 1);
        assert((a + b).subrange(1, (a + b).len() as int) =~= tail + b);
        assert((a + b)[0] == a[0]);
        assert(spelled_all(a + b, 0) == spelled(a[0]) + spelled_all(tail + b, 0));
        assert(spelled_all(a, 0) == spelled(a[0]) + spelled_all(tail, 0));
    }
}

/// What a successful run reports: it stayed in its window, and the leaves
/// of its trees spell the text it read.
pub open spec fn spells(text: Seq<char>, pos: int, end: int, r: Run) -> bool {
    r matches Some((p, ns)) ==> pos <= p <= end && spelled_all(ns, 0) == text.subrange(pos, p)
}

proof fn lemma_join(text: Seq<char>, a: int, b: int, c: int, x: Seq<NodeModel>, y: Seq<NodeModel>)
    requires
        0 <= a <= b <= c <= text.len(),
        spelled_all(x, 0) == text.subrange(a, b),
        spelled_all(y, 0) == text.subrange(b, c),
    ensures
        spelled_all(x + y, 0) == text.subrange(a, c),
{
    lemma_spelled_concat(x, y);
    assert(text.subrange(a, b) + text.subrange(b, c) =~= text.subrange(a, c));
}

proof fn lemma_run_spells(g: Seq<Rule>, e: Expression, text: Seq<char>, pos: int, end: int, fuel: nat)
    ensures
        spells(text, pos, end, run(g, e, text, pos, end, fuel)),
    decreases end - pos, fuel, e, 0nat,
{
    if !(0 <= pos <= end <= text.len()) {
        return;
    }
    match e {
        Expression::Alternative { first, second, rest } => {
            lemma_run_spells(g, *first, text, pos, end, fuel);
            lemma_run_spells(g, *second, text, pos, end, fuel);
            lemma_choice_spells(g, rest@, 0, text, pos, end, fuel);
        },
        Expression::Sequence { first, second, rest } => {
            lemma_run_spells(g, *first, text, pos, end, fuel);
            if let Some((at1, n1)) = run(g, *first, text, pos, end, fuel) {
                if pos <= at1 <= end {
                    let f1 = crate::recognizer::refuel(g, at1 > pos, fuel);
                    lemma_run_spells(g, *second, text, at1, end, f1);
                    if let Some((at2, n2)) = run(g, *second, text, at1, end, f1) {
                        if at1 <= at2 <= end {
                            let f2 = crate::recognizer::refuel(g, at2 > pos, fuel);
                            lemma_sequence_spells(g, rest@, 0, text, at2, end, f2);
                            if let Some((at3, n3)) = run_sequence(g, rest@, 0, text, at2, end, f2) {
                                lemma_join(text, pos, at1, at2, n1, n2);
                                lemma_join(text, pos, at2, at3, n1 + n2, n3);
                            }
                        }
                    }
                }
            }
        },
        Expression::Optional(x) => {
            lemma_run_spells(g, *x, text, pos, end, fuel);
            assert(text.subrange(pos, pos) =~= Seq::<char>::empty());
        },
        Expression::Repeated(x) => {
            lemma_repeat_spells(g, *x, text, pos, end, fuel);
        },
        Expression::Factor { count, primary } => {
            lemma_times_spells(g, *primary, count as nat, text, pos, end, fuel);
        },
        Expression::Exception { subject, restriction } => {
            lemma_run_spells(g, *subject, text, pos, end, fuel);
        },
        Expression::Nonterminal(name) => {
            let i = crate::recognizer::rule_named(g, g.len() as int, name@);
            if !(i < 0 || fuel == 0) {
                lemma_run_spells(g, g[i].expression, text, pos, end, (fuel - 1) as nat);
                if let Some((p, ns)) = run(g, g[i].expression, text, pos, end, (fuel - 1) as nat) {
                    let node = NodeModel::Nonterminal(name@, ns);
                    assert(spelled_all(seq![node], 1) == Seq::<char>::empty());
                    assert(spelled_all(seq![node], 0) =~= spelled(node));
                }
            }
        },
        Expression::Terminal(s) => {
            let node = NodeModel::Terminal(s@);
            assert(spelled_all(seq![node], 1) == Seq::<char>::empty());
            assert(spelled(node) == s@);
            assert(spelled_all(seq![node], 0) == spelled(node) + spelled_all(seq![node], 1));
            assert(spelled_all(seq![node], 0) =~= s@);
        },
        Expression::Special(_) => {},
        Expression::Empty => {
            assert(text.subrange(pos, pos) =~= Seq::<char>::empty());
        },
    }
}

proof fn lemma_choice_spells(g: Seq<Rule>, es: Seq<Expression>, k: int, text: Seq<char>, pos: int, end: int, fuel: nat)
    ensures
        spells(text, pos, end, run_choice(g, es, k, text, pos, end, fuel)),
    decreases end - pos, fuel, es, es.len() - k,
{
    if 0 <= k < es.len() {
        lemma_run_spells(g, es[k], text, pos, end, fuel);
        lemma_choice_spells(g, es, k + 1, text, pos, end, fuel);
    }
}

proof fn lemma_sequence_spells(g: Seq<Rule>, es: Seq<Expression>, k: int, text: Seq<char>, pos: int, end: int, fuel: nat)
    requires
        0 <= pos <= end <= text.len(),
    ensures
        spells(text, pos, end, run_sequence(g, es, k, text, pos, end, fuel)),
    decreases end - pos, fuel, es, es.len() - k,
{
    if !(0 <= k < es.len()) {
        assert(text.subrange(pos, pos) =~= Seq::<char>::empty());
    } else {
        lemma_run_spells(g, es[k], text, pos, end, fuel);
        if let Some((p, ns)) = run(g, es[k], text, pos, end, fuel) {
            if pos <= p <= end {
                let f = crate::recognizer::refuel(g, p > pos, fuel);
                lemma_sequence_spells(g, es, k + 1, text, p, end, f);
                if let Some((q, ms)) = run_sequence(g, es, k + 1, text, p, end, f) {
                    lemma_join(text, pos, p, q, ns, ms);
                }
            }
        }
    }
}

proof fn lemma_repeat_spells(g: Seq<Rule>, x: Expression, text: Seq<char>, pos: int, end: int, fuel: nat)
    requires
        0 <= pos <= end <= text.len(),
    ensures
        spells(text, pos, end, run_repeat(g, x, text, pos, end, fuel)),
    decreases end - pos, fuel, x, 1nat,
{
    assert(text.subrange(pos, pos) =~= Seq::<char>::empty());
    lemma_run_spells(g, x, text, pos, end, fuel);
    if let Some((p, ns)) = run(g, x, text, pos, end, fuel) {
        if pos < p <= end {
            lemma_repeat_spells(g, x, text, p, end, g.len());
            if let Some((q, ms)) = run_repeat(g, x, text, p, end, g.len()) {
                lemma_join(text, pos, p, q, ns, ms);
            }
        }
    }
}

proof fn lemma_times_spells(g: Seq<Rule>, x: Expression, k: nat, text: Seq<char>, pos: int, end: int, fuel: nat)
    requires
        0 <= pos <= end <= text.len(),
    ensures
        spells(text, pos, end, run_times(g, x, k, text, pos, end, fuel)),
    decreases end - pos, fuel, x, k + 1,
{
    if k == 0 {
        assert(text.subrange(pos, pos) =~= Seq::<char>::empty());
    } else {
        lemma_run_spells(g, x, text, pos, end, fuel);
        if let Some((p, ns)) = run(g, x, text, pos, end, fuel) {
            if pos <= p <= end {
                let f = crate::recognizer::refuel(g, p > pos, fuel);
                lemma_times_spells(g, x, (k - 1) as nat, text, p, end, f);
                if let Some((q, ms)) = run_times(g, x, (k - 1) as nat, text, p, end, f) {
                    lemma_join(text, pos, p, q, ns, ms);
                }
            }
        }
    }
}

/// When recognition returns a tree, its terminal leaves, read from left to
/// right, spell the whole input.
pub proof fn tree_spells_input(g: Seq<Rule>, start: Seq<char>, text: Seq<char>)
    ensures
        recognize_spec(g, start, text) matches Some(tree) ==> spelled(tree) == text,
{
    let i = crate::recognizer::rule_named(g, g.len() as int, start);
    if i >= 0 {
        lemma_run_spells(g, g[i].expression, text, 0, text.len() as int, (g.len() - 1) as nat);
        assert(text.subrange(0, text.len() as int) =~= text);
    }
}

/// No `Alternative` or `Sequence` with fewer than two operands, and no
/// `Factor` with a count below two, anywhere in the expression.
pub open spec fn well_formed(e: Spanned<ExprModel>) -> bool
    decreases e,
{
    match e.node {
        ExprModel::Alternative(items) => items.len() >= 2 && forall|k: int|
            0 <= k < items.len() ==> well_formed(#[trigger] items[k]),
        ExprModel::Sequence(items) => items.len() >= 2 && forall|k: int|
            0 <= k < items.len() ==> well_formed(#[trigger] items[k]),
        ExprModel::Optional(x) => well_formed(*x),
        ExprModel::Repeated(x) => well_formed(*x),
        ExprModel::Factor(count, x) => count.node >= 2 && well_formed(*x),
        ExprModel::Exception(a, b) => well_formed(*a) && well_formed(*b),
        _ => true,
    }
}

pub open spec fn parsed_well_formed(r: Result<(int, Spanned<ExprModel>), crate::parser::Fault>) -> bool {
    r matches Ok((_, e)) ==> well_formed(e)
}

proof fn lemma_bracketed_wf(ts: TokenStream, pos: int, close: TokenModel, missing: crate::parser::ParseError)
    ensures
        p_bracketed(ts, pos, close, missing) matches Ok((_, inner, _)) ==> well_formed(inner),
    decreases ts.len() - pos, 1nat,
{
    if 0 <= pos < ts.len() {
        lemma_alternative_wf(ts, pos + 1);
    }
}

proof fn lemma_primary_wf(ts: TokenStream, pos: int)
    ensures
        parsed_well_formed(p_primary(ts, pos)),
    decreases ts.len() - pos, 3nat,
{
    if 0 <= pos < ts.len() {
        match ts[pos].0 {
            TokenModel::StartOption => {
                lemma_bracketed_wf(ts, pos, TokenModel::EndOption, crate::parser::ParseError::EndOptionSymbolExpected);
                assert(parsed_well_formed(p_optional(ts, pos)));
            },
            TokenModel::StartRepeat => {
                lemma_bracketed_wf(ts, pos, TokenModel::EndRepeat, crate::parser::ParseError::EndRepeatSymbolExpected);
                assert(parsed_well_formed(p_repeated(ts, pos)));
            },
            TokenModel::StartGroup => {
                lemma_bracketed_wf(ts, pos, TokenModel::EndGroup, crate::parser::ParseError::EndGroupSymbolExpected);
                assert(parsed_well_formed(p_grouped(ts, pos)));
            },
            _ => {},
        }
    }
}

proof fn lemma_factor_wf(ts: TokenStream, pos: int)
    ensures
        parsed_well_formed(p_factor(ts, pos)),
    decreases ts.len() - pos, 4nat,
{
    if !(0 <= pos < ts.len()) {
        lemma_primary_wf(ts, pos);
    } else {
        match ts[pos].0 {
            TokenModel::Integer(n) => {
                if crate::parser::token_is(ts, pos + 1, TokenModel::Repetition) {
                    lemma_primary_wf(ts, pos + 2);
                }
            },
            _ => lemma_primary_wf(ts, pos),
        }
    }
}

proof fn lemma_term_wf(ts: TokenStream, pos: int)
    ensures
        parsed_well_formed(p_term(ts, pos)),
    decreases ts.len() - pos, 5nat,
{
    lemma_factor_wf(ts, pos);
    if let Ok((k, x)) = p_factor(ts, pos) {
        if pos <= k && crate::parser::token_is(ts, k, TokenModel::Exception) {
            lemma_factor_wf(ts, k + 1);
        }
    }
}

proof fn lemma_list_rest_wf(ts: TokenStream, k: int, acc: Seq<Spanned<ExprModel>>, alternative: bool)
    requires
        acc.len() >= 1,
        forall|i: int| 0 <= i < acc.len() ==> well_formed(#[trigger] acc[i]),
    ensures
        p_list_rest(ts, k, acc, alternative) matches Ok((_, items)) ==> items.len() >= 1 && forall|i: int|
            0 <= i < items.len() ==> well_formed(#[trigger] items[i]),
    decreases ts.len() - k, if alternative { 8nat } else { 6nat },
{
    let sep = if alternative { TokenModel::DefinitionSeparator } else { TokenModel::Concatenation };
    if 0 <= k && crate::parser::token_is(ts, k, sep) {
        if alternative {
            lemma_sequence_wf(ts, k + 1);
        } else {
            lemma_term_wf(ts, k + 1);
        }
        let next = if alternative { p_sequence(ts, k + 1) } else { p_term(ts, k + 1) };
        if let Ok((k2, y)) = next {
            let pushed = acc.push(y);
            assert forall|i: int| 0 <= i < pushed.len() implies well_formed(#[trigger] pushed[i]) by {
                if i < acc.len() {
                    assert(pushed[i] == acc[i]);
                }
            }
            if k + 1 <= k2 <= ts.len() {
                lemma_list_rest_wf(ts, k2, pushed, alternative);
            }
        }
    }
}

proof fn lemma_joined_wf(items: Seq<Spanned<ExprModel>>, alternative: bool)
    requires
        items.len() >= 1,
        forall|i: int| 0 <= i < items.len() ==> well_formed(#[trigger] items[i]),
    ensures
        well_formed(joined(items, alternative)),
{
}

proof fn lemma_sequence_wf(ts: TokenStream, pos: int)
    ensures
        parsed_well_formed(p_sequence(ts, pos)),
    decreases ts.len() - pos, 7nat,
{
    lemma_term_wf(ts, pos);
    if let Ok((k, x)) = p_term(ts, pos) {
        if pos <= k <= ts.len() {
            lemma_list_rest_wf(ts, k, seq![x], false);
            if let Ok((_, items)) = p_list_rest(ts, k, seq![x], false) {
                lemma_joined_wf(items, false);
            }
        }
    }
}

proof fn lemma_alternative_wf(ts: TokenStream, pos: int)
    ensures
        parsed_well_formed(p_alternative(ts, pos)),
    decreases ts.len() - pos, 9nat,
{
    lemma_sequence_wf(ts, pos);
    if let Ok((k, x)) = p_sequence(ts, pos) {
        if pos <= k <= ts.len() {
            lemma_list_rest_wf(ts, k, seq![x], true);
            if let Ok((_, items)) = p_list_rest(ts, k, seq![x], true) {
                lemma_joined_wf(items, true);
            }
        }
    }
}

pub open spec fn productions_well_formed(ps: Seq<Spanned<ProductionModel>>) -> bool {
    forall|i: int| 0 <= i < ps.len() ==> well_formed((#[trigger] ps[i]).node.1)
}

proof fn lemma_production_wf(ts: TokenStream, pos: int)
    ensures
        p_production(ts, pos) matches Ok((_, p)) ==> well_formed(p.node.1),
{
    reveal(p_production);
    if 0 <= pos < ts.len() {
        lemma_alternative_wf(ts, pos + 2);
    }
}

proof fn lemma_productions_wf(ts: TokenStream, k: int, acc: Seq<Spanned<ProductionModel>>)
    requires
        productions_well_formed(acc),
    ensures
        p_productions(ts, k, acc) matches Ok((_, ps)) ==> productions_well_formed(ps),
    decreases ts.len() - k,
{
    lemma_production_wf(ts, k);
    if let Ok((k2, p)) = p_production(ts, k) {
        let pushed = acc.push(p);
        assert forall|i: int| 0 <= i < pushed.len() implies well_formed((#[trigger] pushed[i]).node.1) by {
            if i < acc.len() {
                assert(pushed[i] == acc[i]);
            }
        }
        if k < k2 <= ts.len() {
            lemma_productions_wf(ts, k2, pushed);
        }
    }
}

/// A parsed grammar holds no `Alternative` or `Sequence` of a single
/// operand, and every repetition count below two has been rewritten away:
/// `0 * x` to the empty expression, `1 * x` to `x`.
pub proof fn parsed_grammar_is_well_formed(ts: TokenStream)
    ensures
        parse_spec(ts) matches Ok(g) ==> productions_well_formed(g.node),
{
    lemma_production_wf(ts, 0);
    if let Ok((k, p)) = p_production(ts, 0) {
        lemma_productions_wf(ts, k, seq![p]);
    }
}

/// Whether an expression can succeed without reading anything: the empty
/// expression, an option, a repetition, a zero count, an alternative with
/// such a branch, a sequence of such operands, a rule whose expression is
/// such, an empty literal, or an exception whose subject admits empty and
/// whose restriction does not. `fuel` bounds the rules entered, as in
/// recognition.
pub open spec fn admits_empty(g: Seq<Rule>, e: Expression, fuel: nat) -> bool
    decreases fuel, e, 0nat,
{
    match e {
        Expression::Alternative { first, second, rest } => admits_empty(g, *first, fuel) || admits_empty(g, *second, fuel)
            || some_admit_empty(g, rest@, 0, fuel),
        Expression::Sequence { first, second, rest } => admits_empty(g, *first, fuel) && admits_empty(g, *second, fuel)
            && all_admit_empty(g, rest@, 0, fuel),
        Expression::Optional(_) => true,
        Expression::Repeated(_) => true,
        Expression::Factor { count, primary } => count == 0 || admits_empty(g, *primary, fuel),
        Expression::Exception { subject, restriction } => admits_empty(g, *subject, fuel) && !admits_empty(g, *restriction, fuel),
        Expression::Nonterminal(name) => {
            let i = crate::recognizer::rule_named(g, g.len() as int, name@);
            i >= 0 && fuel > 0 && admits_empty(g, g[i].expression, (fuel - 1) as nat)
        },
        Expression::Terminal(s) => s@.len() == 0,
        Expression::Special(_) => false,
        Expression::Empty => true,
    }
}

pub open spec fn some_admit_empty(g: Seq<Rule>, es: Seq<Expression>, k: int, fuel: nat) -> bool
    decreases fuel, es, es.len() - k,
{
    if 0 <= k < es.len() {
        admits_empty(g, es[k], fuel) || some_admit_empty(g, es, k + 1, fuel)
    } else {
        false
    }
}

pub open spec fn all_admit_empty(g: Seq<Rule>, es: Seq<Expression>, k: int, fuel: nat) -> bool
    decreases fuel, es, es.len() - k,
{
    if 0 <= k < es.len() {
        admits_empty(g, es[k], fuel) && all_admit_empty(g, es, k + 1, fuel)
    } else {
        true
    }
}

/// On an empty window a successful run stays where it is.
pub open spec fn empty_run(r: Run, pos: int, admits: bool) -> bool {
    (r is Some <==> admits) && (r matches Some((p, _)) ==> p == pos)
}

proof fn lemma_run_empty(g: Seq<Rule>, e: Expression, text: Seq<char>, pos: int, fuel: nat)
    requires
        0 <= pos <= text.len(),
    ensures
        empty_run(run(g, e, text, pos, pos, fuel), pos, admits_empty(g, e, fuel)),
    decreases fuel, e, 0nat,
{
    match e {
        Expression::Alternative { first, second, rest } => {
            lemma_run_empty(g, *first, text, pos, fuel);
            lemma_run_empty(g, *second, text, pos, fuel);
            lemma_choice_empty(g, rest@, 0, text, pos, fuel);
        },
        Expression::Sequence { first, second, rest } => {
            lemma_run_empty(g, *first, text, pos, fuel);
            lemma_run_empty(g, *second, text, pos, fuel);
            lemma_sequence_empty(g, rest@, 0, text, pos, fuel);
        },
        Expression::Optional(x) => {
            lemma_run_empty(g, *x, text, pos, fuel);
            assert(admits_empty(g, e, fuel));
        },
        Expression::Repeated(x) => {
            lemma_run_empty(g, *x, text, pos, fuel);
            assert(run_repeat(g, *x, text, pos, pos, fuel) is Some);
        },
        Expression::Factor { count, primary } => {
            lemma_times_empty(g, *primary, count as nat, text, pos, fuel);
        },
        Expression::Exception { subject, restriction } => {
            lemma_run_empty(g, *subject, text, pos, fuel);
            lemma_run_empty(g, *restriction, text, pos, fuel);
        },
        Expression::Nonterminal(name) => {
            let i = crate::recognizer::rule_named(g, g.len() as int, name@);
            if i >= 0 && fuel > 0 {
                lemma_run_empty(g, g[i].expression, text, pos, (fuel - 1) as nat);
            }
            assert(empty_run(run(g, e, text, pos, pos, fuel), pos, admits_empty(g, e, fuel)));
        },
        Expression::Terminal(s) => {
            if s@.len() == 0 {
                assert(text.subrange(pos, pos) =~= s@);
            }
        },
        _ => {
            assert(empty_run(run(g, e, text, pos, pos, fuel), pos, admits_empty(g, e, fuel)));
        },
    }
}

proof fn lemma_choice_empty(g: Seq<Rule>, es: Seq<Expression>, k: int, text: Seq<char>, pos: int, fuel: nat)
    requires
        0 <= pos <= text.len(),
    ensures
        empty_run(run_choice(g, es, k, text, pos, pos, fuel), pos, some_admit_empty(g, es, k, fuel)),
    decreases fuel, es, es.len() - k,
{
    if 0 <= k < es.len() {
        lemma_run_empty(g, es[k], text, pos, fuel);
        lemma_choice_empty(g, es, k + 1, text, pos, fuel);
    }
}

proof fn lemma_sequence_empty(g: Seq<Rule>, es: Seq<Expression>, k: int, text: Seq<char>, pos: int, fuel: nat)
    requires
        0 <= pos <= text.len(),
    ensures
        empty_run(run_sequence(g, es, k, text, pos, pos, fuel), pos, all_admit_empty(g, es, k, fuel)),
    decreases fuel, es, es.len() - k,
{
    if 0 <= k < es.len() {
        lemma_run_empty(g, es[k], text, pos, fuel);
        lemma_sequence_empty(g, es, k + 1, text, pos, fuel);
    }
}

proof fn lemma_times_empty(g: Seq<Rule>, x: Expression, k: nat, text: Seq<char>, pos: int, fuel: nat)
    requires
        0 <= pos <= text.len(),
    ensures
        empty_run(run_times(g, x, k, text, pos, pos, fuel), pos, k == 0 || admits_empty(g, x, fuel)),
    decreases fuel, x, k + 1,
{
    if k > 0 {
        lemma_run_empty(g, x, text, pos, fuel);
        lemma_times_empty(g, x, (k - 1) as nat, text, pos, fuel);
    }
}

/// The empty input is accepted exactly when the start rule exists and its
/// expression admits empty.
pub proof fn empty_input_accepted_iff_start_admits_empty(g: Seq<Rule>, start: Seq<char>)
    ensures
        recognize_spec(g, start, Seq::empty()) is Some <==> ({
            let i = crate::recognizer::rule_named(g, g.len() as int, start);
            i >= 0 && admits_empty(g, g[i].expression, (g.len() - 1) as nat)
        }),
{
    let i = crate::recognizer::rule_named(g, g.len() as int, start);
    if i >= 0 {
        lemma_run_empty(g, g[i].expression, Seq::empty(), 0, (g.len() - 1) as nat);
    }
}

} // verus!
