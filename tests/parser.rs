use ebnf::ast::{Expression, Grammar, Production};
use ebnf::parser::{alternative, factor, grouped, optional, production, repeated, sequence, syntax, term, Fault, ParseError, Tokens};
use ebnf::span::{Span, Spanned, Spanning};
use ebnf::token::Token;

fn sp(from: (usize, usize), to: (usize, usize)) -> Span {
    Span::from((from, to))
}

fn toks(items: Vec<Spanned<Token>>) -> Tokens {
    Tokens::new(items)
}

fn nt(name: &str, span: Span) -> Spanned<Expression> {
    Expression::Nonterminal(name.to_owned()).spanning(span)
}

fn t(text: &str, span: Span) -> Spanned<Expression> {
    Expression::Terminal(text.to_owned()).spanning(span)
}

#[test]
fn tests_test_factors() {
    let tokens = toks(vec![Token::Terminal("terminal".to_owned()).spanning(sp((1, 0), (11, 0)))]);
    assert_eq!(factor(&tokens, 0), Ok((1, t("terminal", sp((1, 0), (11, 0))))));
    let tokens = toks(vec![Token::Nonterminal("nonterminal".to_owned()).spanning(sp((0, 0), (13, 0)))]);
    assert_eq!(factor(&tokens, 0), Ok((1, nt("nonterminal", sp((0, 0), (13, 0))))));
    let tokens = toks(vec![Token::Special(" special ".to_owned()).spanning(sp((2, 0), (13, 0)))]);
    assert_eq!(
        factor(&tokens, 0),
        Ok((1, Expression::Special(" special ".to_owned()).spanning(sp((2, 0), (13, 0)))))
    );
    assert_eq!(factor(&toks(vec![]), 0), Ok((0, Expression::Empty.spanning(sp((0, 0), (0, 0))))));
    let tokens = toks(vec![
        Token::Integer(2).spanning(sp((0, 0), (1, 0))),
        Token::Repetition.spanning(sp((2, 0), (3, 0))),
        Token::Terminal("terminal".to_owned()).spanning(sp((4, 0), (14, 0))),
    ]);
    assert_eq!(
        factor(&tokens, 0),
        Ok((
            3,
            Expression::Factor {
                count: 2.spanning(sp((0, 0), (1, 0))),
                primary: Box::new(t("terminal", sp((4, 0), (14, 0)))),
            }
            .spanning(sp((0, 0), (14, 0)))
        ))
    );
    let tokens = toks(vec![
        Token::Integer(2).spanning(sp((0, 0), (1, 0))),
        Token::Terminal("terminal".to_owned()).spanning(sp((2, 0), (12, 0))),
    ]);
    assert_eq!(
        factor(&tokens, 0),
        Err(Fault::Failure(ParseError::RepetitionSymbolExpected.spanning(sp((2, 0), (12, 0)))))
    );
}

#[test]
fn factor_counts_zero_and_one() {
    let tokens = toks(vec![
        Token::Integer(0).spanning(sp((0, 0), (1, 0))),
        Token::Repetition.spanning(sp((2, 0), (3, 0))),
        Token::Terminal("x".to_owned()).spanning(sp((4, 0), (7, 0))),
    ]);
    assert_eq!(factor(&tokens, 0), Ok((3, Expression::Empty.spanning(sp((0, 0), (7, 0))))));
    let tokens = toks(vec![
        Token::Integer(1).spanning(sp((0, 0), (1, 0))),
        Token::Repetition.spanning(sp((2, 0), (3, 0))),
        Token::Terminal("x".to_owned()).spanning(sp((4, 0), (7, 0))),
    ]);
    assert_eq!(factor(&tokens, 0), Ok((3, t("x", sp((4, 0), (7, 0))))));
}

#[test]
fn tests_test_terms() {
    let tokens = toks(vec![
        Token::Nonterminal("abc".to_owned()).spanning(sp((0, 0), (3, 0))),
        Token::Exception.spanning(sp((4, 0), (5, 0))),
        Token::Terminal("test".to_owned()).spanning(sp((6, 0), (12, 0))),
    ]);
    assert_eq!(
        term(&tokens, 0),
        Ok((
            3,
            Expression::Exception {
                subject: Box::new(nt("abc", sp((0, 0), (3, 0)))),
                restriction: Box::new(t("test", sp((6, 0), (12, 0)))),
            }
            .spanning(sp((0, 0), (12, 0)))
        ))
    );
    let tokens = toks(vec![
        Token::Nonterminal("a".to_owned()).spanning(sp((0, 0), (1, 0))),
        Token::Exception.spanning(sp((1, 0), (2, 0))),
        Token::Nonterminal("b".to_owned()).spanning(sp((2, 0), (3, 0))),
        Token::Exception.spanning(sp((3, 0), (4, 0))),
        Token::Nonterminal("c".to_owned()).spanning(sp((4, 0), (5, 0))),
    ]);
    assert_eq!(
        term(&tokens, 0),
        Ok((
            3,
            Expression::Exception {
                subject: Box::new(nt("a", sp((0, 0), (1, 0)))),
                restriction: Box::new(nt("b", sp((2, 0), (3, 0)))),
            }
            .spanning(sp((0, 0), (3, 0)))
        ))
    );
    assert_eq!(term(&toks(vec![]), 0), Ok((0, Expression::Empty.spanning(sp((0, 0), (0, 0))))));
}

#[test]
fn tests_test_sequences() {
    let tokens = toks(vec![
        Token::Nonterminal("abc".to_owned()).spanning(sp((0, 0), (3, 0))),
        Token::Concatenation.spanning(sp((3, 0), (4, 0))),
        Token::Terminal("test".to_owned()).spanning(sp((5, 0), (11, 0))),
        Token::Concatenation.spanning(sp((11, 0), (12, 0))),
        Token::Nonterminal("bca".to_owned()).spanning(sp((14, 0), (17, 0))),
    ]);
    assert_eq!(
        sequence(&tokens, 0),
        Ok((
            5,
            Expression::Sequence {
                first: Box::new(nt("abc", sp((0, 0), (3, 0)))),
                second: Box::new(t("test", sp((5, 0), (11, 0)))),
                rest: vec![nt("bca", sp((14, 0), (17, 0)))],
            }
            .spanning(sp((0, 0), (17, 0)))
        ))
    );
    assert_eq!(sequence(&toks(vec![]), 0), Ok((0, Expression::Empty.spanning(sp((0, 0), (0, 0))))));
}

#[test]
fn tests_test_alternatives() {
    let tokens = toks(vec![
        Token::Nonterminal("a".to_owned()).spanning(sp((1, 0), (2, 0))),
        Token::Concatenation.spanning(sp((2, 0), (3, 0))),
        Token::Terminal("b".to_owned()).spanning(sp((4, 0), (7, 0))),
        Token::DefinitionSeparator.spanning(sp((8, 0), (9, 0))),
        Token::Terminal("c".to_owned()).spanning(sp((10, 0), (13, 0))),
        Token::Concatenation.spanning(sp((13, 0), (14, 0))),
        Token::Nonterminal("d".to_owned()).spanning(sp((15, 0), (16, 0))),
    ]);
    assert_eq!(
        alternative(&tokens, 0),
        Ok((
            7,
            Expression::Alternative {
                first: Box::new(
                    Expression::Sequence {
                        first: Box::new(nt("a", sp((1, 0), (2, 0)))),
                        second: Box::new(t("b", sp((4, 0), (7, 0)))),
                        rest: Vec::new(),
                    }
                    .spanning(sp((1, 0), (7, 0)))
                ),
                second: Box::new(
                    Expression::Sequence {
                        first: Box::new(t("c", sp((10, 0), (13, 0)))),
                        second: Box::new(nt("d", sp((15, 0), (16, 0)))),
                        rest: Vec::new(),
                    }
                    .spanning(sp((10, 0), (16, 0)))
                ),
                rest: Vec::new(),
            }
            .spanning(sp((1, 0), (16, 0)))
        ))
    );
    assert_eq!(alternative(&toks(vec![]), 0), Ok((0, Expression::Empty.spanning(sp((0, 0), (0, 0))))));
}

#[test]
fn tests_test_grouped() {
    let tokens = toks(vec![
        Token::StartGroup.spanning(sp((0, 0), (1, 0))),
        Token::Nonterminal("b".to_owned()).spanning(sp((1, 0), (2, 0))),
        Token::DefinitionSeparator.spanning(sp((3, 0), (4, 0))),
        Token::Nonterminal("c".to_owned()).spanning(sp((5, 0), (6, 0))),
        Token::EndGroup.spanning(sp((6, 0), (7, 0))),
    ]);
    assert_eq!(
        grouped(&tokens, 0),
        Ok((
            5,
            Expression::Alternative {
                first: Box::new(nt("b", sp((1, 0), (2, 0)))),
                second: Box::new(nt("c", sp((5, 0), (6, 0)))),
                rest: Vec::new(),
            }
            .spanning(sp((0, 0), (7, 0)))
        ))
    );
    let tokens = toks(vec![
        Token::StartGroup.spanning(sp((0, 0), (1, 0))),
        Token::Nonterminal("a".to_owned()).spanning(sp((2, 0), (3, 0))),
        Token::Concatenation.spanning(sp((3, 0), (4, 0))),
        Token::Terminal("b".to_owned()).spanning(sp((5, 0), (8, 0))),
        Token::DefinitionSeparator.spanning(sp((23, 0), (24, 0))),
        Token::Nonterminal("c".to_owned()).spanning(sp((25, 0), (26, 0))),
        Token::EndGroup.spanning(sp((27, 0), (28, 0))),
    ]);
    assert_eq!(
        grouped(&tokens, 0),
        Ok((
            7,
            Expression::Alternative {
                first: Box::new(
                    Expression::Sequence {
                        first: Box::new(nt("a", sp((2, 0), (3, 0)))),
                        second: Box::new(t("b", sp((5, 0), (8, 0)))),
                        rest: Vec::new(),
                    }
                    .spanning(sp((2, 0), (8, 0)))
                ),
                second: Box::new(nt("c", sp((25, 0), (26, 0)))),
                rest: Vec::new(),
            }
            .spanning(sp((0, 0), (28, 0)))
        ))
    );
}

#[test]
fn missing_close_is_committed() {
    let tokens = toks(vec![
        Token::StartGroup.spanning(sp((0, 0), (1, 0))),
        Token::Nonterminal("b".to_owned()).spanning(sp((1, 0), (2, 0))),
    ]);
    assert_eq!(
        grouped(&tokens, 0),
        Err(Fault::Failure(ParseError::EndGroupSymbolExpected.spanning(sp((1, 0), (2, 0)))))
    );
    let tokens = toks(vec![Token::Nonterminal("b".to_owned()).spanning(sp((1, 0), (2, 0)))]);
    assert_eq!(
        optional(&tokens, 0),
        Err(Fault::Error(ParseError::StartOptionSymbolExpected.spanning(sp((1, 0), (2, 0)))))
    );
}

#[test]
fn tests_test_repeated() {
    let tokens = toks(vec![
        Token::StartRepeat.spanning(sp((0, 0), (1, 0))),
        Token::Nonterminal("abc".to_owned()).spanning(sp((1, 0), (4, 0))),
        Token::DefinitionSeparator.spanning(sp((10, 0), (11, 0))),
        Token::Nonterminal("def".to_owned()).spanning(sp((11, 0), (14, 0))),
        Token::EndRepeat.spanning(sp((15, 0), (16, 0))),
    ]);
    assert_eq!(
        repeated(&tokens, 0),
        Ok((
            5,
            Expression::Repeated(Box::new(
                Expression::Alternative {
                    first: Box::new(nt("abc", sp((1, 0), (4, 0)))),
                    second: Box::new(nt("def", sp((11, 0), (14, 0)))),
                    rest: Vec::new(),
                }
                .spanning(sp((1, 0), (14, 0)))
            ))
            .spanning(sp((0, 0), (16, 0)))
        ))
    );
}

#[test]
fn tests_test_optionals() {
    let tokens = toks(vec![
        Token::StartOption.spanning(sp((0, 0), (1, 0))),
        Token::Nonterminal("abc".to_owned()).spanning(sp((2, 0), (5, 0))),
        Token::DefinitionSeparator.spanning(sp((5, 0), (6, 0))),
        Token::Nonterminal("def".to_owned()).spanning(sp((6, 0), (9, 0))),
        Token::EndOption.spanning(sp((19, 0), (20, 0))),
    ]);
    assert_eq!(
        optional(&tokens, 0),
        Ok((
            5,
            Expression::Optional(Box::new(
                Expression::Alternative {
                    first: Box::new(nt("abc", sp((2, 0), (5, 0)))),
                    second: Box::new(nt("def", sp((6, 0), (9, 0)))),
                    rest: Vec::new(),
                }
                .spanning(sp((2, 0), (9, 0)))
            ))
            .spanning(sp((0, 0), (20, 0)))
        ))
    );
}

#[test]
fn tests_test_productions() {
    let tokens = toks(vec![
        Token::Nonterminal("abc".to_owned()).spanning(sp((0, 0), (3, 0))),
        Token::Definition.spanning(sp((4, 0), (5, 0))),
        Token::Terminal("a".to_owned()).spanning(sp((6, 0), (9, 0))),
        Token::Concatenation.spanning(sp((9, 0), (10, 0))),
        Token::StartGroup.spanning(sp((11, 0), (12, 0))),
        Token::Nonterminal("b".to_owned()).spanning(sp((12, 0), (13, 0))),
        Token::DefinitionSeparator.spanning(sp((14, 0), (15, 0))),
        Token::Terminal("c".to_owned()).spanning(sp((16, 0), (19, 0))),
        Token::EndGroup.spanning(sp((30, 0), (31, 0))),
        Token::Terminator.spanning(sp((31, 0), (32, 0))),
    ]);
    assert_eq!(
        production(&tokens, 0),
        Ok((
            10,
            Production {
                lhs: "abc".to_owned().spanning(sp((0, 0), (3, 0))),
                rhs: Expression::Sequence {
                    first: Box::new(t("a", sp((6, 0), (9, 0)))),
                    second: Box::new(
                        Expression::Alternative {
                            first: Box::new(nt("b", sp((12, 0), (13, 0)))),
                            second: Box::new(t("c", sp((16, 0), (19, 0)))),
                            rest: Vec::new(),
                        }
                        .spanning(sp((11, 0), (31, 0)))
                    ),
                    rest: Vec::new(),
                }
                .spanning(sp((6, 0), (31, 0))),
            }
            .spanning(sp((0, 0), (32, 0)))
        ))
    );
    let tokens = toks(vec![Token::Terminator.spanning(sp((0, 0), (1, 0)))]);
    assert_eq!(
        production(&tokens, 0),
        Err(Fault::Failure(ParseError::IdentifierExpected.spanning(sp((0, 0), (1, 0)))))
    );
    let tokens = toks(vec![
        Token::Nonterminal("a".to_owned()).spanning(sp((0, 0), (1, 0))),
        Token::Definition.spanning(sp((2, 0), (3, 0))),
        Token::Nonterminal("b".to_owned()).spanning(sp((4, 0), (5, 0))),
        Token::Terminator.spanning(sp((5, 0), (6, 0))),
        Token::Terminator.spanning(sp((6, 0), (7, 0))),
    ]);
    assert_eq!(
        production(&tokens, 0),
        Ok((
            4,
            Production { lhs: "a".to_owned().spanning(sp((0, 0), (1, 0))), rhs: nt("b", sp((4, 0), (5, 0))) }
                .spanning(sp((0, 0), (6, 0)))
        ))
    );
    let tokens = toks(vec![
        Token::Nonterminal("a".to_owned()).spanning(sp((0, 0), (1, 0))),
        Token::Definition.spanning(sp((2, 0), (3, 0))),
        Token::Terminator.spanning(sp((4, 0), (5, 0))),
    ]);
    assert_eq!(
        production(&tokens, 0),
        Ok((
            3,
            Production {
                lhs: "a".to_owned().spanning(sp((0, 0), (1, 0))),
                rhs: Expression::Empty.spanning(sp((3, 0), (4, 0))),
            }
            .spanning(sp((0, 0), (5, 0)))
        ))
    );
}

#[test]
fn tests_test_syntaxes() {
    assert_eq!(
        syntax(&toks(vec![]), 0),
        Err(Fault::Error(ParseError::IdentifierExpected.spanning(sp((0, 0), (0, 0)))))
    );
    let tokens = toks(vec![
        Token::Nonterminal("a".to_owned()).spanning(sp((0, 0), (1, 0))),
        Token::Definition.spanning(sp((2, 0), (3, 0))),
        Token::Terminal("d".to_owned()).spanning(sp((4, 0), (6, 0))),
        Token::DefinitionSeparator.spanning(sp((8, 0), (9, 0))),
        Token::StartRepeat.spanning(sp((10, 0), (11, 0))),
        Token::Integer(2).spanning(sp((11, 0), (12, 0))),
        Token::Repetition.spanning(sp((13, 0), (14, 0))),
        Token::Terminal("e".to_owned()).spanning(sp((15, 0), (18, 0))),
        Token::EndRepeat.spanning(sp((18, 0), (19, 0))),
        Token::Terminator.spanning(sp((19, 0), (20, 0))),
        Token::Nonterminal("b".to_owned()).spanning(sp((33, 0), (34, 0))),
        Token::Definition.spanning(sp((35, 0), (36, 0))),
        Token::Terminal("a".to_owned()).spanning(sp((37, 0), (40, 0))),
        Token::Concatenation.spanning(sp((40, 0), (41, 0))),
        Token::StartGroup.spanning(sp((42, 0), (43, 0))),
        Token::Nonterminal("a".to_owned()).spanning(sp((43, 0), (44, 0))),
        Token::DefinitionSeparator.spanning(sp((45, 0), (46, 0))),
        Token::Terminal("c".to_owned()).spanning(sp((47, 0), (50, 0))),
        Token::EndGroup.spanning(sp((50, 0), (51, 0))),
        Token::Terminator.spanning(sp((51, 0), (52, 0))),
    ]);
    let expected = Grammar {
        productions: vec![
            Production {
                lhs: "a".to_owned().spanning(sp((0, 0), (1, 0))),
                rhs: Expression::Alternative {
                    first: Box::new(t("d", sp((4, 0), (6, 0)))),
                    second: Box::new(
                        Expression::Repeated(Box::new(
                            Expression::Factor {
                                count: 2.spanning(sp((11, 0), (12, 0))),
                                primary: Box::new(t("e", sp((15, 0), (18, 0)))),
                            }
                            .spanning(sp((11, 0), (18, 0)))
                        ))
                        .spanning(sp((10, 0), (19, 0)))
                    ),
                    rest: Vec::new(),
                }
                .spanning(sp((4, 0), (19, 0))),
            }
            .spanning(sp((0, 0), (20, 0))),
            Production {
                lhs: "b".to_owned().spanning(sp((33, 0), (34, 0))),
                rhs: Expression::Sequence {
                    first: Box::new(t("a", sp((37, 0), (40, 0)))),
                    second: Box::new(
                        Expression::Alternative {
                            first: Box::new(nt("a", sp((43, 0), (44, 0)))),
                            second: Box::new(t("c", sp((47, 0), (50, 0)))),
                            rest: Vec::new(),
                        }
                        .spanning(sp((42, 0), (51, 0)))
                    ),
                    rest: Vec::new(),
                }
                .spanning(sp((37, 0), (51, 0))),
            }
            .spanning(sp((33, 0), (52, 0))),
        ],
    };
    assert_eq!(syntax(&tokens, 0), Ok((20, expected.spanning(sp((0, 0), (52, 0))))));
}

#[test]
fn tokens_last_span() {
    let tokens = toks(vec![
        Token::Nonterminal("a".to_owned()).spanning(sp((0, 0), (1, 0))),
        Token::Definition.spanning(sp((2, 0), (3, 0))),
    ]);
    assert_eq!(tokens.last_span(0), sp((0, 0), (1, 0)));
    assert_eq!(tokens.last_span(2), sp((2, 0), (3, 0)));
    assert_eq!(toks(vec![]).last_span(0), Span::new());
}
