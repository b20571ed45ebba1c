//! Recognition: running a canonical grammar, as an ordered-choice
//! recursive-descent interpreter, against an input text.
use crate::canonical::{Expression, Grammar, Rule};
use vstd::prelude::*;
use vstd::string::{StrSliceExecFns, StringExecFns};

verus! {

/// A parse tree: a terminal leaf with its literal, or a rule with the
/// trees of what it read.
#[derive(Debug, PartialEq, Eq)]
pub enum Node {
    Terminal(String),
    Nonterminal(String, Vec<Node>),
}

pub enum NodeModel {
    Terminal(Seq<char>),
    Nonterminal(Seq<char>, Seq<NodeModel>),
}

pub open spec fn node_model(n: Node) -> NodeModel
    decreases n, 0nat,
{
    match n {
        Node::Terminal(s) => NodeModel::Terminal(s@),
        Node::Nonterminal(name, children) => NodeModel::Nonterminal(name@, nodes_model(children@, 0)),
    }
}

/// The models of `ns[k..]`.
pub open spec fn nodes_model(ns: Seq<Node>, k: int) -> Seq<NodeModel>
    decreases ns, ns.len() - k,
{
    if 0 <= k < ns.len() {
        seq![node_model(ns[k])] + nodes_model(ns, k + 1)
    } else {
        Seq::empty()
    }
}

/// Where recognition stopped and the trees it built.
pub type Run = Option<(int, Seq<NodeModel>)>;

/// The index of the rule named `name` among the first `n` rules, or -1.
pub open spec fn rule_named(g: Seq<Rule>, n: int, name: Seq<char>) -> int
    decreases n,
{
    if n <= 0 || n > g.len() {
        -1
    } else if g[n - 1].name@ == name {
        n - 1
    } else {
        rule_named(g, n - 1, name)
    }
}

/// The budget of rules that may be entered before input is read: renewed
/// whenever the position moves on. Entering a rule again at the same
/// position would loop forever, and the budget turns that into a failure;
/// a chain of rules that repeats none of them never uses it up.
pub open spec fn refuel(g: Seq<Rule>, moved: bool, fuel: nat) -> nat {
    if moved {
        g.len()
    } else {
        fuel
    }
}

/// Runs `e` on `text[pos..end]`.
pub open spec fn run(g: Seq<Rule>, e: Expression, text: Seq<char>, pos: int, end: int, fuel: nat) -> Run
    decreases end - pos, fuel, e, 0nat,
{
    if !(0 <= pos <= end <= text.len()) {
        None
    } else {
        match e {
            Expression::Alternative { first, second, rest } => match run(g, *first, text, pos, end, fuel) {
                Some(x) => Some(x),
                None => match run(g, *second, text, pos, end, fuel) {
                    Some(x) => Some(x),
                    None => run_choice(g, rest@, 0, text, pos, end, fuel),
                },
            },
            Expression::Sequence { first, second, rest } => match run(g, *first, text, pos, end, fuel) {
                None => None,
                Some((at1, n1)) => if !(pos <= at1 <= end) {
                    None
                } else {
                    match run(g, *second, text, at1, end, refuel(g, at1 > pos, fuel)) {
                        None => None,
                        Some((at2, n2)) => if !(at1 <= at2 <= end) {
                            None
                        } else {
                            match run_sequence(g, rest@, 0, text, at2, end, refuel(g, at2 > pos, fuel)) {
                                None => None,
                                Some((at3, n3)) => Some((at3, n1 + n2 + n3)),
                            }
                        },
                    }
                },
            },
            Expression::Optional(x) => match run(g, *x, text, pos, end, fuel) {
                Some(r) => Some(r),
                None => Some((pos, Seq::empty())),
            },
            Expression::Repeated(x) => run_repeat(g, *x, text, pos, end, fuel),
            Expression::Factor { count, primary } => run_times(g, *primary, count as nat, text, pos, end, fuel),
            Expression::Exception { subject, restriction } => match run(g, *subject, text, pos, end, fuel) {
                None => None,
                Some((mid, ns)) => if !(pos <= mid <= end) {
                    None
                } else {
                    match run(g, *restriction, text, pos, mid, refuel(g, mid < end, fuel)) {
                        Some((k, _)) => if k == mid {
                            None
                        } else {
                            Some((mid, ns))
                        },
                        None => Some((mid, ns)),
                    }
                },
            },
            Expression::Nonterminal(name) => {
                let i = rule_named(g, g.len() as int, name@);
                if i < 0 || fuel == 0 {
                    None
                } else {
                    match run(g, g[i].expression, text, pos, end, (fuel - 1) as nat) {
                        None => None,
                        Some((p, ns)) => Some((p, seq![NodeModel::Nonterminal(name@, ns)])),
                    }
                }
            },
            Expression::Terminal(s) => if pos + s@.len() <= end && text.subrange(pos, pos + s@.len()) == s@ {
                Some((pos + s@.len(), seq![NodeModel::Terminal(s@)]))
            } else {
                None
            },
            Expression::Special(_) => None,
            Expression::Empty => Some((pos, Seq::empty())),
        }
    }
}

/// Ordered choice among `es[k..]`: the first that succeeds.
pub open spec fn run_choice(g: Seq<Rule>, es: Seq<Expression>, k: int, text: Seq<char>, pos: int, end: int, fuel: nat) -> Run
    decreases end - pos, fuel, es, es.len() - k,
{
    if 0 <= k < es.len() {
        match run(g, es[k], text, pos, end, fuel) {
            Some(x) => Some(x),
            None => run_choice(g, es, k + 1, text, pos, end, fuel),
        }
    } else {
        None
    }
}

/// `es[k..]` one after the other.
pub open spec fn run_sequence(g: Seq<Rule>, es: Seq<Expression>, k: int, text: Seq<char>, pos: int, end: int, fuel: nat) -> Run
    decreases end - pos, fuel, es, es.len() - k,
{
    if !(0 <= k < es.len()) {
        Some((pos, Seq::empty()))
    } else {
        match run(g, es[k], text, pos, end, fuel) {
            None => None,
            Some((p, ns)) => if !(pos <= p <= end) {
                None
            } else {
                match run_sequence(g, es, k + 1, text, p, end, refuel(g, p > pos, fuel)) {
                    None => None,
                    Some((q, ms)) => Some((q, ns + ms)),
                }
            },
        }
    }
}

/// `x` as often as it succeeds and moves on.
pub open spec fn run_repeat(g: Seq<Rule>, x: Expression, text: Seq<char>, pos: int, end: int, fuel: nat) -> Run
    decreases end - pos, fuel, x, 1nat,
{
    match run(g, x, text, pos, end, fuel) {
        None => Some((pos, Seq::empty())),
        Some((p, ns)) => if !(pos < p <= end) {
            Some((pos, Seq::empty()))
        } else {
            match run_repeat(g, x, text, p, end, g.len()) {
                None => None,
                Some((q, ms)) => Some((q, ns + ms)),
            }
        },
    }
}

/// `x` exactly `k` more times.
pub open spec fn run_times(g: Seq<Rule>, x: Expression, k: nat, text: Seq<char>, pos: int, end: int, fuel: nat) -> Run
    decreases end - pos, fuel, x, k + 1,
{
    if k == 0 {
        Some((pos, Seq::empty()))
    } else {
        match run(g, x, text, pos, end, fuel) {
            None => None,
            Some((p, ns)) => if !(pos <= p <= end) {
                None
            } else {
                match run_times(g, x, (k - 1) as nat, text, p, end, refuel(g, p > pos, fuel)) {
                    None => None,
                    Some((q, ms)) => Some((q, ns + ms)),
                }
            },
        }
    }
}

/// The tree of `start` over the whole of `text`, if the rule reads all of it.
pub open spec fn recognize_spec(g: Seq<Rule>, start: Seq<char>, text: Seq<char>) -> Option<NodeModel> {
    let i = rule_named(g, g.len() as int, start);
    if i < 0 {
        None
    } else {
        match run(g, g[i].expression, text, 0, text.len() as int, (g.len() - 1) as nat) {
            Some((p, ns)) => if p == text.len() {
                Some(NodeModel::Nonterminal(start, ns))
            } else {
                None
            },
            None => None,
        }
    }
}

/// `r` is the outcome of recognizing `text` from the rule `start` of `g`.
pub open spec fn recognized(g: Seq<Rule>, start: Seq<char>, text: Seq<char>, r: Option<Node>) -> bool {
    match r {
        Some(n) => recognize_spec(g, start, text) == Some(node_model(n)),
        None => recognize_spec(g, start, text) is None,
    }
}

pub open spec fn run_result(r: Option<(usize, Vec<Node>)>) -> Run {
    match r {
        Some((p, ns)) => Some((p as int, nodes_model(ns@, 0))),
        None => None,
    }
}

proof fn lemma_nodes_model(ns: Seq<Node>, k: int)
    requires
        0 <= k <= ns.len(),
    ensures
        nodes_model(ns, k) =~= Seq::new((ns.len() - k) as nat, |i: int| node_model(ns[k + i])),
    decreases ns.len() - k,
{
    if k < ns.len() {
        lemma_nodes_model(ns, k + 1);
    }
}

fn concat(a: Vec<Node>, b: Vec<Node>) -> (r: Vec<Node>)
    ensures
        nodes_model(r@, 0) == nodes_model(a@, 0) + nodes_model(b@, 0),
{
    let ghost (av, bv) = (a@, b@);
    let mut a = a;
    let mut b = b;
    a.append(&mut b);
    proof {
        lemma_nodes_model(av, 0);
        lemma_nodes_model(bv, 0);
        lemma_nodes_model(a@, 0);
        assert(nodes_model(a@, 0) =~= nodes_model(av, 0) + nodes_model(bv, 0));
    }
    a
}

fn single(n: Node) -> (r: Vec<Node>)
    ensures
        nodes_model(r@, 0) == seq![node_model(n)],
{
    let mut r: Vec<Node> = Vec::new();
    r.push(n);
    proof {
        lemma_nodes_model(r@, 0);
        assert(nodes_model(r@, 0) =~= seq![node_model(n)]);
    }
    r
}

fn nothing() -> (r: Vec<Node>)
    ensures
        nodes_model(r@, 0) == Seq::<NodeModel>::empty(),
{
    let r: Vec<Node> = Vec::new();
    proof {
        lemma_nodes_model(r@, 0);
        assert(nodes_model(r@, 0) =~= Seq::<NodeModel>::empty());
    }
    r
}

fn find_rule(g: &Vec<Rule>, name: &String) -> (r: Option<usize>)
    ensures
        match r {
            Some(i) => i < g@.len() && i as int == rule_named(g@, g@.len() as int, name@),
            None => rule_named(g@, g@.len() as int, name@) < 0,
        },
{
    let mut n = g.len();
    while n > 0
        invariant
            n <= g@.len(),
            rule_named(g@, n as int, name@) == rule_named(g@, g@.len() as int, name@),
        decreases n,
    {
        if g[n - 1].name == *name {
            return Some(n - 1);
        }
        n = n - 1;
    }
    None
}

/// The characters of a text, in order.
fn chars_of(s: &str) -> (r: Vec<char>)
    ensures
        r@ == s@,
{
    let n = s.unicode_len();
    let mut r: Vec<char> = Vec::new();
    let mut i: usize = 0;
    while i < n
        invariant
            n == s@.len(),
            i <= n,
            r@ == s@.subrange(0, i as int),
        decreases n - i,
    {
        r.push(s.get_char(i));
        i = i + 1;
        assert(r@ =~= s@.subrange(0, i as int));
    }
    assert(r@ =~= s@);
    r
}

/// Whether `text[pos..end]` starts with `literal`.
fn literal_at(text: &Vec<char>, pos: usize, end: usize, literal: &String) -> (r: bool)
    requires
        pos <= end <= text@.len(),
    ensures
        r == (pos + literal@.len() <= end && text@.subrange(pos as int, pos + literal@.len()) == literal@),
{
    let lit = literal.as_str();
    let n = lit.unicode_len();
    if n > end - pos {
        return false;
    }
    let mut j: usize = 0;
    while j < n
        invariant
            lit@ == literal@,
            n == literal@.len(),
            pos + n <= end <= text@.len(),
            j <= n,
            text@.subrange(pos as int, pos + j) == literal@.subrange(0, j as int),
        decreases n - j,
    {
        if text[pos + j] != lit.get_char(j) {
            assert(text@.subrange(pos as int, pos + n)[j as int] != literal@[j as int]);
            return false;
        }
        j = j + 1;
        assert(text@.subrange(pos as int, pos + j) =~= literal@.subrange(0, j as int));
    }
    assert(literal@.subrange(0, n as int) =~= literal@);
    true
}

fn run_expr(g: &Vec<Rule>, e: &Expression, text: &Vec<char>, pos: usize, end: usize, fuel: usize) -> (r: Option<(usize, Vec<Node>)>)
    requires
        pos <= end <= text@.len(),
    ensures
        run_result(r) == run(g@, *e, text@, pos as int, end as int, fuel as nat),
        r matches Some((p, _)) ==> pos <= p <= end,
    decreases end - pos, fuel, e, 0nat,
{
    match e {
        Expression::Alternative { first, second, rest } => {
            let r = run_expr(g, first, text, pos, end, fuel);
            if r.is_some() {
                return r;
            }
            let r = run_expr(g, second, text, pos, end, fuel);
            if r.is_some() {
                return r;
            }
            run_choice_exec(g, rest, 0, text, pos, end, fuel)
        },
        Expression::Sequence { first, second, rest } => {
            let (at1, n1) = match run_expr(g, first, text, pos, end, fuel) {
                None => {
                    return None;
                },
                Some(x) => x,
            };
            let f1 = if at1 > pos {
                g.len()
            } else {
                fuel
            };
            let (at2, n2) = match run_expr(g, second, text, at1, end, f1) {
                None => {
                    return None;
                },
                Some(x) => x,
            };
            let f2 = if at2 > pos {
                g.len()
            } else {
                fuel
            };
            let (at3, n3) = match run_sequence_exec(g, rest, 0, text, at2, end, f2) {
                None => {
                    return None;
                },
                Some(x) => x,
            };
            let ghost (m1, m2, m3) = (nodes_model(n1@, 0), nodes_model(n2@, 0), nodes_model(n3@, 0));
            let nodes = concat(concat(n1, n2), n3);
            Some((at3, nodes))
        },
        Expression::Optional(x) => match run_expr(g, x, text, pos, end, fuel) {
            Some(r) => Some(r),
            None => Some((pos, nothing())),
        },
        Expression::Repeated(x) => run_repeat_exec(g, x, text, pos, end, fuel),
        Expression::Factor { count, primary } => run_times_exec(g, primary, *count, text, pos, end, fuel),
        Expression::Exception { subject, restriction } => {
            let (mid, ns) = match run_expr(g, subject, text, pos, end, fuel) {
                None => {
                    return None;
                },
                Some(x) => x,
            };
            let f = if mid < end {
                g.len()
            } else {
                fuel
            };
            match run_expr(g, restriction, text, pos, mid, f) {
                Some((k, _)) => if k == mid {
                    None
                } else {
                    Some((mid, ns))
                },
                None => Some((mid, ns)),
            }
        },
        Expression::Nonterminal(name) => {
            let i = match find_rule(g, name) {
                None => {
                    return None;
                },
                Some(i) => i,
            };
            if fuel == 0 {
                return None;
            }
            match run_expr(g, &g[i].expression, text, pos, end, fuel - 1) {
                None => None,
                Some((p, ns)) => {
                    let node = Node::Nonterminal(name.clone(), ns);
                    Some((p, single(node)))
                },
            }
        },
        Expression::Terminal(s) => if literal_at(text, pos, end, s) {
            let n = s.as_str().unicode_len();
            Some((pos + n, single(Node::Terminal(s.clone()))))
        } else {
            None
        },
        Expression::Special(_) => None,
        Expression::Empty => Some((pos, nothing())),
    }
}

fn run_choice_exec(g: &Vec<Rule>, es: &Vec<Expression>, k: usize, text: &Vec<char>, pos: usize, end: usize, fuel: usize) -> (r: Option<(usize, Vec<Node>)>)
    requires
        pos <= end <= text@.len(),
        k <= es@.len(),
    ensures
        run_result(r) == run_choice(g@, es@, k as int, text@, pos as int, end as int, fuel as nat),
        r matches Some((p, _)) ==> pos <= p <= end,
    decreases end - pos, fuel, es, es@.len() - k,
{
    if k >= es.len() {
        return None;
    }
    let r = run_expr(g, &es[k], text, pos, end, fuel);
    if r.is_some() {
        return r;
    }
    run_choice_exec(g, es, k + 1, text, pos, end, fuel)
}

fn run_sequence_exec(g: &Vec<Rule>, es: &Vec<Expression>, k: usize, text: &Vec<char>, pos: usize, end: usize, fuel: usize) -> (r: Option<(usize, Vec<Node>)>)
    requires
        pos <= end <= text@.len(),
        k <= es@.len(),
    ensures
        run_result(r) == run_sequence(g@, es@, k as int, text@, pos as int, end as int, fuel as nat),
        r matches Some((p, _)) ==> pos <= p <= end,
    decreases end - pos, fuel, es, es@.len() - k,
{
    if k >= es.len() {
        return Some((pos, nothing()));
    }
    let (p, ns) = match run_expr(g, &es[k], text, pos, end, fuel) {
        None => {
            return None;
        },
        Some(x) => x,
    };
    let f = if p > pos {
        g.len()
    } else {
        fuel
    };
    match run_sequence_exec(g, es, k + 1, text, p, end, f) {
        None => None,
        Some((q, ms)) => Some((q, concat(ns, ms))),
    }
}

fn run_repeat_exec(g: &Vec<Rule>, x: &Expression, text: &Vec<char>, pos: usize, end: usize, fuel: usize) -> (r: Option<(usize, Vec<Node>)>)
    requires
        pos <= end <= text@.len(),
    ensures
        run_result(r) == run_repeat(g@, *x, text@, pos as int, end as int, fuel as nat),
        r matches Some((p, _)) ==> pos <= p <= end,
    decreases end - pos, fuel, x, 1nat,
{
    let ghost goal = run_repeat(g@, *x, text@, pos as int, end as int, fuel as nat);
    let mut at = pos;
    let mut budget = fuel;
    let mut nodes = nothing();
    loop
        invariant
            pos <= at <= end <= text@.len(),
            at > pos ==> budget == g@.len(),
            at == pos ==> budget == fuel,
            goal == run_repeat(g@, *x, text@, pos as int, end as int, fuel as nat),
            goal == match run_repeat(g@, *x, text@, at as int, end as int, budget as nat) {
                None => None,
                Some((q, ms)) => Some((q, nodes_model(nodes@, 0) + ms)),
            },
        decreases end - at,
    {
        match run_expr(g, x, text, at, end, budget) {
            Some((p, ns)) => {
                if p <= at {
                    proof {
                        assert(nodes_model(nodes@, 0) + Seq::<NodeModel>::empty() =~= nodes_model(nodes@, 0));
                    }
                    return Some((at, nodes));
                }
                let ghost before = nodes_model(nodes@, 0);
                let ghost step = nodes_model(ns@, 0);
                nodes = concat(nodes, ns);
                proof {
                    match run_repeat(g@, *x, text@, p as int, end as int, g@.len()) {
                        Some((q, ms)) => {
                            assert(before + (step + ms) =~= nodes_model(nodes@, 0) + ms);
                        },
                        None => {},
                    }
                }
                at = p;
                budget = g.len();
            },
            None => {
                proof {
                    assert(nodes_model(nodes@, 0) + Seq::<NodeModel>::empty() =~= nodes_model(nodes@, 0));
                }
                return Some((at, nodes));
            },
        }
    }
}

fn run_times_exec(g: &Vec<Rule>, x: &Expression, k: usize, text: &Vec<char>, pos: usize, end: usize, fuel: usize) -> (r: Option<(usize, Vec<Node>)>)
    requires
        pos <= end <= text@.len(),
    ensures
        run_result(r) == run_times(g@, *x, k as nat, text@, pos as int, end as int, fuel as nat),
        r matches Some((p, _)) ==> pos <= p <= end,
    decreases end - pos, fuel, x, k + 1,
{
    if k == 0 {
        return Some((pos, nothing()));
    }
    let (p, ns) = match run_expr(g, x, text, pos, end, fuel) {
        None => {
            return None;
        },
        Some(r) => r,
    };
    let f = if p > pos {
        g.len()
    } else {
        fuel
    };
    match run_times_exec(g, x, k - 1, text, p, end, f) {
        None => None,
        Some((q, ms)) => Some((q, concat(ns, ms))),
    }
}

/// Runs the rule `initial_rule` of `grammar` on `input`: the parse tree if
/// the rule reads the whole input, `None` if it fails, leaves input unread,
/// or names no rule. The outcome is a function of the three arguments.
pub fn check(input: &str, grammar: &Grammar, initial_rule: &str) -> (r: Option<Node>)
    ensures
        recognized(grammar.rules@, initial_rule@, input@, r),
{
    let g = &grammar.rules;
    let start = initial_rule.to_owned();
    let i = match find_rule(g, &start) {
        None => {
            return None;
        },
        Some(i) => i,
    };
    let text = chars_of(input);
    match run_expr(g, &g[i].expression, &text, 0, text.len(), g.len() - 1) {
        Some((p, children)) => if p == text.len() {
            Some(Node::Nonterminal(start, children))
        } else {
            None
        },
        None => None,
    }
}

/// The label under which a tree is shown to an embedding host: a rule by
/// its name, a terminal by its literal in double quotes, so that the two
/// cannot be confused.
pub open spec fn label_of(n: NodeModel) -> Seq<char> {
    match n {
        NodeModel::Terminal(s) => "\""@ + s + "\""@,
        NodeModel::Nonterminal(name, _) => name,
    }
}

impl Node {
    /// The label of the tree's root: its rule name, or its literal quoted.
    pub fn name(&self) -> (r: String)
        ensures
            r@ == label_of(node_model(*self)),
    {
        match self {
            Node::Terminal(s) => {
                let mut r = "\"".to_owned();
                r.append(s.as_str());
                r.append("\"");
                r
            },
            Node::Nonterminal(name, _) => name.clone(),
        }
    }
}

/// The terminal leaves of a tree, read from left to right and joined.
pub open spec fn spelled(n: NodeModel) -> Seq<char>
    decreases n, 0nat,
{
    match n {
        NodeModel::Terminal(s) => s,
        NodeModel::Nonterminal(_, children) => spelled_all(children, 0),
    }
}

/// The leaves of the trees `ns[k..]`, joined.
pub open spec fn spelled_all(ns: Seq<NodeModel>, k: int) -> Seq<char>
    decreases ns, ns.len() - k,
{
    if 0 <= k < ns.len() {
        spelled(ns[k]) + spelled_all(ns, k + 1)
    } else {
        Seq::empty()
    }
}

} // verus!
