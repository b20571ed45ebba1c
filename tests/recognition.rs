use ebnf::error::{Error, ErrorKind};
use ebnf::lexer::LexError;
use ebnf::parser::ParseError;
use ebnf::preprocessor::PreprocessError;
use ebnf::recognizer::Node;
use ebnf::span::Span;
use ebnf::{check, get_production_rules, parse, Parser};

fn sp(from: (usize, usize), to: (usize, usize)) -> Span {
    Span::from((from, to))
}

fn grammar(source: &str) -> Parser {
    match parse(source) {
        Ok(p) => p,
        Err(e) => panic!("grammar refused: {:?}", e),
    }
}

fn error(source: &str) -> Error {
    match parse(source) {
        Ok(_) => panic!("grammar accepted"),
        Err(e) => e,
    }
}

fn leaves(node: &Node, out: &mut String) {
    match node {
        Node::Terminal(s) => out.push_str(s),
        Node::Nonterminal(_, children) => {
            for c in children {
                leaves(c, out);
            }
        }
    }
}

#[test]
fn test_ebnf() {
    assert!(parse(" abc = 'def'; ").is_ok());
    assert!(parse(" (* test *) ").is_err());
    assert!(parse(" (* test *").is_err());
    assert!(parse("a = b;;").is_err());
    assert!(parse("a = ;").is_ok());
    assert!(parse("twelve = \"1\", \"2\" ;").is_ok());
    assert!(parse("natural number = digit excluding zero, { digit };").is_err());
    assert!(parse("integer = \"0\" | [ \"-\" ], natural number ;").is_err());
    assert!(parse("lhs = \"\";").is_err());
}

#[test]
fn single_terminal_rule_gives_its_tree() {
    let p = grammar("abc = 'def';");
    assert_eq!(
        check("def", &p, "abc"),
        Some(Node::Nonterminal("abc".to_owned(), vec![Node::Terminal("def".to_owned())]))
    );
}

#[test]
fn empty_rule_accepts_only_empty_input() {
    let p = grammar("a = ;");
    assert_eq!(check("", &p, "a"), Some(Node::Nonterminal("a".to_owned(), vec![])));
    assert_eq!(check("x", &p, "a"), None);
}

#[test]
fn digits_accept_numbers_and_refuse_trailing_input() {
    let p = grammar(
        "number = digit, { digit };\ndigit  = '0' | '1' | '2' | '3' | '4' | '5' | '6' | '7' | '8' | '9';",
    );
    let digit = |d: &str| Node::Nonterminal("digit".to_owned(), vec![Node::Terminal(d.to_owned())]);
    assert_eq!(
        check("123", &p, "number"),
        Some(Node::Nonterminal("number".to_owned(), vec![digit("1"), digit("2"), digit("3")]))
    );
    assert_eq!(check("1a", &p, "number"), None);
    assert_eq!(check("", &p, "number"), None);
}

#[test]
fn undefined_rule_is_reported_at_its_use() {
    let e = error("a = b ;");
    assert_eq!(e.kind, ErrorKind::Preprocessor(PreprocessError::UndefinedRule("b".to_owned())));
    assert_eq!(e.span, sp((4, 0), (5, 0)));
    assert_eq!(e.message(), "undefined rule `b`");
}

#[test]
fn direct_left_recursion_is_reported() {
    let e = error("a = a ;");
    assert_eq!(
        e.kind,
        ErrorKind::Preprocessor(PreprocessError::LeftRecursion(vec!["a".to_owned(), "a".to_owned()]))
    );
    assert_eq!(e.span, sp((4, 0), (5, 0)));
    assert_eq!(e.message(), "left recursion: a -> a");
}

#[test]
fn indirect_left_recursion_is_reported() {
    let e = error("a = b, 'x';\nb = [ 'y' ], a;");
    assert_eq!(
        e.kind,
        ErrorKind::Preprocessor(PreprocessError::LeftRecursion(vec!["a".to_owned(), "b".to_owned(), "a".to_owned()]))
    );
    assert_eq!(e.span, sp((13, 1), (14, 1)));
}

#[test]
fn recursion_after_a_terminal_is_fine() {
    let p = grammar("list = 'x', [ ',', list ];");
    assert!(check("x,x,x", &p, "list").is_some());
    assert!(check("x,", &p, "list").is_none());
}

#[test]
fn empty_terminal_is_a_lexical_error() {
    let e = error("lhs = \"\" ;");
    assert_eq!(e.kind, ErrorKind::Lexer(LexError::EmptyTerminal));
    assert_eq!(e.span, sp((6, 0), (8, 0)));
    assert_eq!(e.message(), "empty terminal symbol");
}

#[test]
fn second_terminator_is_a_syntax_error() {
    let e = error("a = b;;");
    assert_eq!(e.kind, ErrorKind::Parser(ParseError::IdentifierExpected));
    assert_eq!(e.span, sp((6, 0), (7, 0)));
    assert_eq!(e.message(), "identifier expected");
}

#[test]
fn missing_terminator_points_at_the_last_token() {
    let e = error("a = 'x'");
    assert_eq!(e.kind, ErrorKind::Parser(ParseError::TerminatorSymbolExpected));
    assert_eq!(e.span, sp((4, 0), (7, 0)));
    let e = error("a = ( 'x' ;");
    assert_eq!(e.kind, ErrorKind::Parser(ParseError::EndGroupSymbolExpected));
    assert_eq!(e.span, sp((10, 0), (11, 0)));
    let e = error("a 'x';");
    assert_eq!(e.kind, ErrorKind::Parser(ParseError::DefinitionSymbolExpected));
    let e = error("a = 2 'x';");
    assert_eq!(e.kind, ErrorKind::Parser(ParseError::RepetitionSymbolExpected));
}

#[test]
fn invalid_symbol_message() {
    let e = error("a = 'x' + 'y';");
    assert_eq!(e.kind, ErrorKind::Lexer(LexError::InvalidSymbol("+".to_owned())));
    assert_eq!(e.message(), "invalid symbol `+`");
}

#[test]
fn empty_input_follows_whether_the_start_rule_admits_empty() {
    for (source, admits) in [
        ("a = ;", true),
        ("a = ['x'];", true),
        ("a = {'x'};", true),
        ("a = 0 * 'x';", true),
        ("a = 'x' | [ 'y' ];", true),
        ("a = ['x'], {'y'};", true),
        ("a = 'x';", false),
        ("a = ['x'], 'y';", false),
        ("a = ? s ?;", false),
    ] {
        let p = grammar(source);
        assert_eq!(check("", &p, "a").is_some(), admits, "{}", source);
    }
}

#[test]
fn ordered_choice_takes_the_first_success() {
    let p = grammar("a = 'x' | 'x', 'y';");
    assert_eq!(check("xy", &p, "a"), None);
    let p = grammar("a = 'x', 'y' | 'x';");
    assert!(check("xy", &p, "a").is_some());
    assert!(check("x", &p, "a").is_some());
}

#[test]
fn repetition_is_greedy() {
    let p = grammar("a = { 'x' }, 'x';");
    assert_eq!(check("xx", &p, "a"), None);
}

#[test]
fn factor_repeats_exactly() {
    let p = grammar("a = 3 * 'ab';");
    assert!(check("ababab", &p, "a").is_some());
    assert!(check("abab", &p, "a").is_none());
    assert!(check("abababab", &p, "a").is_none());
}

#[test]
fn special_sequences_never_match() {
    let p = grammar("a = ? anything ? | 'b';");
    assert!(check("b", &p, "a").is_some());
    assert!(check(" anything ", &p, "a").is_none());
}

#[test]
fn exception_refuses_full_matches_only() {
    let p = grammar("a = letters - 'ab';\nletters = { 'a' | 'b' };");
    assert!(check("ab", &p, "a").is_none());
    assert!(check("abb", &p, "a").is_some());
    assert!(check("ba", &p, "a").is_some());
    let p = grammar("a = letters - 'a';\nletters = { 'a' | 'b' };");
    assert!(check("ab", &p, "a").is_some());
}

#[test]
fn unknown_start_rule_is_rejected() {
    let p = grammar("a = 'x';");
    assert_eq!(check("x", &p, "b"), None);
}

#[test]
fn rule_names_in_source_order_last_definition_wins() {
    let p = grammar("b = 'y';\na = b;\nb = 'z';");
    assert_eq!(get_production_rules(&p), vec!["b".to_owned(), "a".to_owned()]);
    assert!(check("z", &p, "a").is_some());
    assert!(check("y", &p, "a").is_none());
}

#[test]
fn leaves_spell_the_input() {
    let p = grammar("s = { word | ' ' };\nword = letter, { letter };\nletter = 'a' | 'b' | 'é';");
    let input = "ab é ba";
    let tree = check(input, &p, "s").unwrap();
    let mut spelled = String::new();
    leaves(&tree, &mut spelled);
    assert_eq!(spelled, input);
}

#[test]
fn recognition_is_deterministic() {
    let p = grammar("a = { 'x' | 'y' }, ['z'];");
    for input in ["", "xyz", "xyzz", "q"] {
        assert_eq!(check(input, &p, "a"), check(input, &p, "a"));
    }
}

#[test]
fn tree_labels_quote_terminals() {
    let p = grammar("abc = 'def';");
    let tree = check("def", &p, "abc").unwrap();
    assert_eq!(tree.name(), "abc");
    match &tree {
        Node::Nonterminal(_, children) => assert_eq!(children[0].name(), "\"def\""),
        Node::Terminal(_) => panic!("expected a rule at the root"),
    }
}

#[test]
fn unclosed_brackets_are_reported() {
    assert_eq!(error("a = [ 'x' ;").kind, ErrorKind::Parser(ParseError::EndOptionSymbolExpected));
    assert_eq!(error("a = { 'x' ;").kind, ErrorKind::Parser(ParseError::EndRepeatSymbolExpected));
    let e = error("a = 'x' ]");
    assert_eq!(e.kind, ErrorKind::Parser(ParseError::TerminatorSymbolExpected));
    assert_eq!(e.span, sp((8, 0), (9, 0)));
}
