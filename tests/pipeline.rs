use ebnf::ast::Expression;
use ebnf::lexer::{lex, lex_symbols, LexError};
use ebnf::parser::{alternative, grouped, optional, repeated, sequence, term, Tokens};
use ebnf::scanner::scan;
use ebnf::span::{Span, Spanned, Spanning};
use ebnf::token::Token;

fn sp(from: usize, to: usize) -> Span {
    Span::from(((from, 0), (to, 0)))
}

fn lexed_symbols(source: &str) -> Result<Vec<Spanned<Token>>, Spanned<LexError>> {
    lex_symbols(&scan(source))
}

fn lexed(source: &str) -> Tokens {
    Tokens::new(lex(source).unwrap())
}

fn nt(name: &str, span: Span) -> Spanned<Expression> {
    Expression::Nonterminal(name.to_owned()).spanning(span)
}

fn t(text: &str, span: Span) -> Spanned<Expression> {
    Expression::Terminal(text.to_owned()).spanning(span)
}

#[test]
fn test_concatenation() {
    assert_eq!(lexed_symbols(","), Ok(vec![Token::Concatenation.spanning(sp(0, 1))]));
}

#[test]
fn test_definition_separators() {
    assert_eq!(
        lexed_symbols("| /!"),
        Ok(vec![
            Token::DefinitionSeparator.spanning(sp(0, 1)),
            Token::DefinitionSeparator.spanning(sp(2, 3)),
            Token::DefinitionSeparator.spanning(sp(3, 4)),
        ])
    );
}

#[test]
fn test_definitions() {
    assert_eq!(
        lexed_symbols("abc = b;"),
        Ok(vec![
            Token::Nonterminal("abc".to_owned()).spanning(sp(0, 3)),
            Token::Definition.spanning(sp(4, 5)),
            Token::Nonterminal("b".to_owned()).spanning(sp(6, 7)),
            Token::Terminator.spanning(sp(7, 8)),
        ])
    );
}

#[test]
fn test_integers() {
    assert_eq!(lexed_symbols(" 123 "), Ok(vec![Token::Integer(123).spanning(sp(1, 4))]));
    assert_eq!(lexed_symbols(" 1 2  3  "), Ok(vec![Token::Integer(123).spanning(sp(1, 7))]));
    assert_eq!(lexed_symbols(" 01234 56"), Ok(vec![Token::Integer(123456).spanning(sp(1, 9))]));
    assert_eq!(lexed_symbols(" 0 "), Ok(vec![Token::Integer(0).spanning(sp(1, 2))]));
}

#[test]
fn test_nonterminals() {
    assert_eq!(lexed_symbols(" abc "), Ok(vec![Token::Nonterminal("abc".to_owned()).spanning(sp(1, 4))]));
    assert_eq!(lexed_symbols("a  bc "), Ok(vec![Token::Nonterminal("abc".to_owned()).spanning(sp(0, 5))]));
    assert_eq!(lexed_symbols("abc12 3 "), Ok(vec![Token::Nonterminal("abc123".to_owned()).spanning(sp(0, 7))]));
    assert_eq!(lexed_symbols(" x "), Ok(vec![Token::Nonterminal("x".to_owned()).spanning(sp(1, 2))]));
}

#[test]
fn test_whitespace() {
    assert_eq!(
        lexed_symbols("  , \n,"),
        Ok(vec![
            Token::Concatenation.spanning(sp(2, 3)),
            Token::Concatenation.spanning(Span::from(((0, 1), (1, 1)))),
        ])
    );
}

#[test]
fn test_multiline() {
    assert_eq!(
        lexed_symbols(" abc \n = 'def' "),
        Ok(vec![
            Token::Nonterminal("abc".to_owned()).spanning(sp(1, 4)),
            Token::Definition.spanning(Span::from(((1, 1), (2, 1)))),
            Token::Terminal("def".to_owned()).spanning(Span::from(((3, 1), (8, 1)))),
        ])
    );
}

#[test]
fn test_combinations() {
    assert_eq!(
        lexed_symbols("x = (: 'a' :) | (/ ? b ? /);"),
        Ok(vec![
            Token::Nonterminal("x".to_owned()).spanning(sp(0, 1)),
            Token::Definition.spanning(sp(2, 3)),
            Token::StartRepeat.spanning(sp(4, 6)),
            Token::Terminal("a".to_owned()).spanning(sp(7, 10)),
            Token::EndRepeat.spanning(sp(11, 13)),
            Token::DefinitionSeparator.spanning(sp(14, 15)),
            Token::StartOption.spanning(sp(16, 18)),
            Token::Special(" b ".to_owned()).spanning(sp(19, 24)),
            Token::EndOption.spanning(sp(25, 27)),
            Token::Terminator.spanning(sp(27, 28)),
        ])
    );
}

#[test]
fn test_multiple_unicode_code_points() {
    assert_eq!(
        lexed_symbols("ae\u{301}f = abc;"),
        Ok(vec![
            Token::Nonterminal("ae\u{301}f".to_owned()).spanning(sp(0, 4)),
            Token::Definition.spanning(sp(5, 6)),
            Token::Nonterminal("abc".to_owned()).spanning(sp(7, 10)),
            Token::Terminator.spanning(sp(10, 11)),
        ])
    );
}

#[test]
fn test_terms() {
    let tokens = lexed("abc - 'test'");
    assert_eq!(
        term(&tokens, 0),
        Ok((
            3,
            Expression::Exception { subject: Box::new(nt("abc", sp(0, 3))), restriction: Box::new(t("test", sp(6, 12))) }
                .spanning(sp(0, 12))
        ))
    );
    let tokens = lexed("a-b-c");
    assert_eq!(
        term(&tokens, 0),
        Ok((
            3,
            Expression::Exception { subject: Box::new(nt("a", sp(0, 1))), restriction: Box::new(nt("b", sp(2, 3))) }
                .spanning(sp(0, 3))
        ))
    );
}

#[test]
fn test_sequences() {
    let tokens = lexed("abc, 'test',  bca");
    assert_eq!(
        sequence(&tokens, 0),
        Ok((
            5,
            Expression::Sequence {
                first: Box::new(nt("abc", sp(0, 3))),
                second: Box::new(t("test", sp(5, 11))),
                rest: vec![nt("bca", sp(14, 17))],
            }
            .spanning(sp(0, 17))
        ))
    );
}

#[test]
fn test_alternatives() {
    let tokens = lexed(" a, 'b' | 'c', d ");
    assert_eq!(
        alternative(&tokens, 0),
        Ok((
            7,
            Expression::Alternative {
                first: Box::new(
                    Expression::Sequence { first: Box::new(nt("a", sp(1, 2))), second: Box::new(t("b", sp(4, 7))), rest: vec![] }
                        .spanning(sp(1, 7))
                ),
                second: Box::new(
                    Expression::Sequence { first: Box::new(t("c", sp(10, 13))), second: Box::new(nt("d", sp(15, 16))), rest: vec![] }
                        .spanning(sp(10, 16))
                ),
                rest: vec![],
            }
            .spanning(sp(1, 16))
        ))
    );
}

#[test]
fn test_grouped() {
    let tokens = lexed("(b | c)");
    assert_eq!(
        grouped(&tokens, 0),
        Ok((
            5,
            Expression::Alternative { first: Box::new(nt("b", sp(1, 2))), second: Box::new(nt("c", sp(5, 6))), rest: vec![] }
                .spanning(sp(0, 7))
        ))
    );
    let tokens = lexed("( a, 'b' (* comment *) | c )");
    assert_eq!(
        grouped(&tokens, 0),
        Ok((
            7,
            Expression::Alternative {
                first: Box::new(
                    Expression::Sequence { first: Box::new(nt("a", sp(2, 3))), second: Box::new(t("b", sp(5, 8))), rest: vec![] }
                        .spanning(sp(2, 8))
                ),
                second: Box::new(nt("c", sp(25, 26))),
                rest: vec![],
            }
            .spanning(sp(0, 28))
        ))
    );
}

#[test]
fn test_repeated() {
    let tokens = lexed("{abc (**) |def }");
    assert_eq!(
        repeated(&tokens, 0),
        Ok((
            5,
            Expression::Repeated(Box::new(
                Expression::Alternative { first: Box::new(nt("abc", sp(1, 4))), second: Box::new(nt("def", sp(11, 14))), rest: vec![] }
                    .spanning(sp(1, 14))
            ))
            .spanning(sp(0, 16))
        ))
    );
}

#[test]
fn test_optionals() {
    let tokens = lexed("[ abc|def (*test*) ]");
    assert_eq!(
        optional(&tokens, 0),
        Ok((
            5,
            Expression::Optional(Box::new(
                Expression::Alternative { first: Box::new(nt("abc", sp(2, 5))), second: Box::new(nt("def", sp(6, 9))), rest: vec![] }
                    .spanning(sp(2, 9))
            ))
            .spanning(sp(0, 20))
        ))
    );
}
