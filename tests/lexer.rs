use ebnf::lexer::{lex, LexError};
use ebnf::span::{Span, Spanned, Spanning};
use ebnf::token::Token;

fn sp(from: (usize, usize), to: (usize, usize)) -> Span {
    Span::from((from, to))
}

fn ok(tokens: Vec<Spanned<Token>>) -> Result<Vec<Spanned<Token>>, Spanned<LexError>> {
    Ok(tokens)
}

fn err(e: LexError, span: Span) -> Result<Vec<Spanned<Token>>, Spanned<LexError>> {
    Err(e.spanning(span))
}

#[test]
fn tests_test_concatenation() {
    assert_eq!(lex(","), ok(vec![Token::Concatenation.spanning(sp((0, 0), (1, 0)))]));
}

#[test]
fn tests_test_definition_separators() {
    assert_eq!(
        lex("| /!"),
        ok(vec![
            Token::DefinitionSeparator.spanning(sp((0, 0), (1, 0))),
            Token::DefinitionSeparator.spanning(sp((2, 0), (3, 0))),
            Token::DefinitionSeparator.spanning(sp((3, 0), (4, 0))),
        ])
    );
}

#[test]
fn tests_test_definitions() {
    assert_eq!(
        lex("abc = b;"),
        ok(vec![
            Token::Nonterminal("abc".to_owned()).spanning(sp((0, 0), (3, 0))),
            Token::Definition.spanning(sp((4, 0), (5, 0))),
            Token::Nonterminal("b".to_owned()).spanning(sp((6, 0), (7, 0))),
            Token::Terminator.spanning(sp((7, 0), (8, 0))),
        ])
    );
}

#[test]
fn tests_test_options() {
    assert_eq!(
        lex(" (/ [ /) ]"),
        ok(vec![
            Token::StartOption.spanning(sp((1, 0), (3, 0))),
            Token::StartOption.spanning(sp((4, 0), (5, 0))),
            Token::EndOption.spanning(sp((6, 0), (8, 0))),
            Token::EndOption.spanning(sp((9, 0), (10, 0))),
        ])
    );
    assert_eq!(lex(" (/) "), err(LexError::InvalidSymbol("(/)".to_owned()), sp((1, 0), (4, 0))));
    assert_eq!(lex(" /"), ok(vec![Token::DefinitionSeparator.spanning(sp((1, 0), (2, 0)))]));
}

#[test]
fn tests_test_repeats() {
    assert_eq!(
        lex("(::) { } "),
        ok(vec![
            Token::StartRepeat.spanning(sp((0, 0), (2, 0))),
            Token::EndRepeat.spanning(sp((2, 0), (4, 0))),
            Token::StartRepeat.spanning(sp((5, 0), (6, 0))),
            Token::EndRepeat.spanning(sp((7, 0), (8, 0))),
        ])
    );
    assert_eq!(lex(" (:) "), err(LexError::InvalidSymbol("(:)".to_owned()), sp((1, 0), (4, 0))));
}

#[test]
fn tests_test_terminals() {
    assert_eq!(lex(" \"ab c \" "), ok(vec![Token::Terminal("ab c ".to_owned()).spanning(sp((1, 0), (8, 0)))]));
    assert_eq!(lex("  '\"aba' "), ok(vec![Token::Terminal("\"aba".to_owned()).spanning(sp((2, 0), (8, 0)))]));
    assert_eq!(lex(" ' a \""), err(LexError::UnterminatedTerminal, sp((5, 0), (6, 0))));
    assert_eq!(lex("\"bbb'   "), err(LexError::UnterminatedTerminal, sp((7, 0), (8, 0))));
    assert_eq!(lex("\"\""), err(LexError::EmptyTerminal, sp((0, 0), (2, 0))));
    assert_eq!(lex("''"), err(LexError::EmptyTerminal, sp((0, 0), (2, 0))));
}

#[test]
fn tests_test_specials() {
    assert_eq!(lex(" ? test ?"), ok(vec![Token::Special(" test ".to_owned()).spanning(sp((1, 0), (9, 0)))]));
    assert_eq!(lex("?a\nbc?  "), ok(vec![Token::Special("a\nbc".to_owned()).spanning(sp((0, 0), (3, 1)))]));
    assert_eq!(lex(" ?bbb  "), err(LexError::UnterminatedSpecial, sp((6, 0), (7, 0))));
    assert_eq!(lex("??"), ok(vec![Token::Special("".to_owned()).spanning(sp((0, 0), (2, 0)))]));
}

#[test]
fn tests_test_integers() {
    assert_eq!(lex(" 123 "), ok(vec![Token::Integer(123).spanning(sp((1, 0), (4, 0)))]));
    assert_eq!(lex(" 1 2  3  "), ok(vec![Token::Integer(123).spanning(sp((1, 0), (7, 0)))]));
    assert_eq!(lex(" 01234 56"), ok(vec![Token::Integer(123456).spanning(sp((1, 0), (9, 0)))]));
    assert_eq!(lex(" 0 "), ok(vec![Token::Integer(0).spanning(sp((1, 0), (2, 0)))]));
}

#[test]
fn tests_test_nonterminals() {
    assert_eq!(lex(" abc "), ok(vec![Token::Nonterminal("abc".to_owned()).spanning(sp((1, 0), (4, 0)))]));
    assert_eq!(lex("a  bc "), ok(vec![Token::Nonterminal("abc".to_owned()).spanning(sp((0, 0), (5, 0)))]));
    assert_eq!(lex("abc12 3 "), ok(vec![Token::Nonterminal("abc123".to_owned()).spanning(sp((0, 0), (7, 0)))]));
    assert_eq!(lex(" x "), ok(vec![Token::Nonterminal("x".to_owned()).spanning(sp((1, 0), (2, 0)))]));
}

#[test]
fn tests_test_invalid_symbols() {
    assert_eq!(lex(" + "), err(LexError::InvalidSymbol('+'.to_string()), sp((1, 0), (2, 0))));
}

#[test]
fn tests_test_whitespace() {
    assert_eq!(
        lex("  , \n,"),
        ok(vec![
            Token::Concatenation.spanning(sp((2, 0), (3, 0))),
            Token::Concatenation.spanning(sp((0, 1), (1, 1))),
        ])
    );
}

#[test]
fn tests_test_comments() {
    assert_eq!(lex(" (* test *) "), ok(vec![]));
    assert_eq!(lex(" (* test * "), err(LexError::UnterminatedComment, sp((10, 0), (11, 0))));
    assert_eq!(lex(" (* ("), err(LexError::UnterminatedComment, sp((4, 0), (5, 0))));
    assert_eq!(
        lex(", (*, *) , "),
        ok(vec![
            Token::Concatenation.spanning(sp((0, 0), (1, 0))),
            Token::Concatenation.spanning(sp((9, 0), (10, 0))),
        ])
    );
    assert_eq!(
        lex(" ,(*, (* ,*) ,*) , ,"),
        ok(vec![
            Token::Concatenation.spanning(sp((1, 0), (2, 0))),
            Token::Concatenation.spanning(sp((17, 0), (18, 0))),
            Token::Concatenation.spanning(sp((19, 0), (20, 0))),
        ])
    );
    assert_eq!(lex(" (* (* *) "), err(LexError::UnterminatedComment, sp((9, 0), (10, 0))));
    assert_eq!(lex(" (*) "), err(LexError::InvalidSymbol("(*)".to_owned()), sp((1, 0), (4, 0))));
}

#[test]
fn tests_test_multiline() {
    assert_eq!(
        lex(" abc \n = 'def' "),
        ok(vec![
            Token::Nonterminal("abc".to_owned()).spanning(sp((1, 0), (4, 0))),
            Token::Definition.spanning(sp((1, 1), (2, 1))),
            Token::Terminal("def".to_owned()).spanning(sp((3, 1), (8, 1))),
        ])
    );
}

#[test]
fn tests_test_combinations() {
    assert_eq!(
        lex("a=[b]-{2*c};"),
        ok(vec![
            Token::Nonterminal("a".to_owned()).spanning(sp((0, 0), (1, 0))),
            Token::Definition.spanning(sp((1, 0), (2, 0))),
            Token::StartOption.spanning(sp((2, 0), (3, 0))),
            Token::Nonterminal("b".to_owned()).spanning(sp((3, 0), (4, 0))),
            Token::EndOption.spanning(sp((4, 0), (5, 0))),
            Token::Exception.spanning(sp((5, 0), (6, 0))),
            Token::StartRepeat.spanning(sp((6, 0), (7, 0))),
            Token::Integer(2).spanning(sp((7, 0), (8, 0))),
            Token::Repetition.spanning(sp((8, 0), (9, 0))),
            Token::Nonterminal("c".to_owned()).spanning(sp((9, 0), (10, 0))),
            Token::EndRepeat.spanning(sp((10, 0), (11, 0))),
            Token::Terminator.spanning(sp((11, 0), (12, 0))),
        ])
    );
}

#[test]
fn tests_test_multiple_unicode_code_points() {
    assert_eq!(
        lex("ae\u{301}f = abc;"),
        ok(vec![
            Token::Nonterminal("ae\u{301}f".to_owned()).spanning(sp((0, 0), (4, 0))),
            Token::Definition.spanning(sp((5, 0), (6, 0))),
            Token::Nonterminal("abc".to_owned()).spanning(sp((7, 0), (10, 0))),
            Token::Terminator.spanning(sp((10, 0), (11, 0))),
        ])
    );
}

#[test]
fn test_unicode() {
    assert_eq!(
        lex("藏京٣¾ abc = '藏';"),
        ok(vec![
            Token::Nonterminal("藏京٣¾abc".to_owned()).spanning(sp((0, 0), (8, 0))),
            Token::Definition.spanning(sp((9, 0), (10, 0))),
            Token::Terminal("藏".to_owned()).spanning(sp((11, 0), (14, 0))),
            Token::Terminator.spanning(sp((14, 0), (15, 0))),
        ])
    );
}

#[test]
fn lone_colon_is_invalid() {
    assert_eq!(lex(" : "), err(LexError::InvalidSymbol(":".to_owned()), sp((1, 0), (2, 0))));
}

#[test]
fn nested_comment_is_accepted() {
    assert_eq!(lex("(* (* *) *)"), ok(vec![]));
    assert_eq!(lex("(* (* *)"), err(LexError::UnterminatedComment, sp((7, 0), (8, 0))));
}

#[test]
fn ambiguous_delimiters_are_rejected_at_their_span() {
    assert_eq!(lex("(*)"), err(LexError::InvalidSymbol("(*)".to_owned()), sp((0, 0), (3, 0))));
    assert_eq!(lex("(/)"), err(LexError::InvalidSymbol("(/)".to_owned()), sp((0, 0), (3, 0))));
    assert_eq!(lex("(:)"), err(LexError::InvalidSymbol("(:)".to_owned()), sp((0, 0), (3, 0))));
}

#[test]
fn lexing_twice_gives_the_same_tokens() {
    let source = "a = 'x', { b | 2 * \"y\" } - ? s ?;\nb = [a];";
    assert_eq!(lex(source), lex(source));
}

#[test]
fn token_spans_are_ordered_and_within_the_input() {
    let source = "rule = 'a' | (* c *) { other, 3 * 'b' };\nother = ? x ?;";
    let tokens = lex(source).unwrap();
    let end = ebnf::scanner::scan(source).last().unwrap().span.to;
    for t in &tokens {
        assert!((t.span.from.line, t.span.from.column) <= (t.span.to.line, t.span.to.column));
        assert!((t.span.to.line, t.span.to.column) <= (end.line, end.column));
    }
}

#[test]
fn huge_integer_wraps() {
    let tokens = lex("18446744073709551616").unwrap();
    assert_eq!(tokens.len(), 1);
    assert_eq!(tokens[0].node, Token::Integer(0));
}

#[test]
fn token_descriptions() {
    assert_eq!(Token::Terminal("abc".to_owned()).description(), "terminal 'abc'");
    assert_eq!(Token::Nonterminal("x".to_owned()).description(), "nonterminal 'x'");
    assert_eq!(Token::Special(" s ".to_owned()).description(), "special sequence '? s ?'");
    assert_eq!(Token::Integer(0).description(), "integer '0'");
    assert_eq!(Token::Integer(1207).description(), "integer '1207'");
    assert_eq!(Token::Concatenation.description(), "concatenation symbol");
    assert_eq!(Token::Terminator.description(), "terminator symbol");
}
