//! An EBNF (ISO/IEC 14977) grammar toolkit: a grapheme scanner, a lexer, a
//! parser with commit points, a validating preprocessor, a canonical grammar
//! and a recursive-descent recognizer that builds parse trees.
pub mod ast;
pub mod canonical;
pub mod error;
pub mod laws;
pub mod lexer;
pub mod parser;
pub mod preprocessor;
pub mod recognizer;
pub mod scanner;
pub mod span;
pub mod token;
pub mod unicode;

use crate::canonical::{compile, compiled, rule_names};
use crate::error::{Error, ErrorKind};
use crate::lexer::{lex, lex_spec};
use crate::parser::{grammar_model, parse_spec, stream};
use crate::preprocessor::{names_model, preprocess, preprocess_spec};
use crate::recognizer::{recognized, Node};
use vstd::prelude::*;

verus! {

/// A grammar ready for recognition.
pub struct Parser {
    pub grammar: canonical::Grammar,
}

/// What preparing the source `text` gives: the first lexical error, else
/// the first syntax error, else the first validation error of the grammar
/// it spells, else the compiled grammar.
pub open spec fn prepared(text: Seq<char>, r: Result<Parser, Error>) -> bool {
    match lex_spec(text) {
        Err((kind, span)) => r matches Err(e) && e.span == span && (e.kind matches ErrorKind::Lexer(k) && k@ == kind),
        Ok(ts) => match parse_spec(ts) {
            Err(pe) => r matches Err(e) && e.span == pe.span && e.kind == ErrorKind::Parser(pe.node),
            Ok(gm) => exists|g: span::Spanned<ast::Grammar>| #[trigger] grammar_model(g) == gm && match preprocess_spec(g.node.productions@) {
                Some((kind, span)) => r matches Err(e) && e.span == span && (e.kind matches ErrorKind::Preprocessor(k) && k@ == kind),
                None => r matches Ok(p) && compiled(p.grammar.rules@, g.node.productions@),
            },
        },
    }
}

/// Scans, lexes, parses, validates and compiles an EBNF source.
pub fn parse(input: &str) -> (r: Result<Parser, Error>)
    ensures
        prepared(input@, r),
{
    let tokens = match lex(input) {
        Ok(tokens) => tokens,
        Err(e) => {
            return Err(Error::from(e));
        },
    };
    let ghost ts = tokens@.map_values(|t: span::Spanned<token::Token>| lexer::token_model(t));
    assert(stream(tokens@) =~= ts);
    let grammar = match parser::parse(tokens) {
        Ok(g) => g,
        Err(e) => {
            return Err(Error::from(e));
        },
    };
    let grammar = match preprocess(grammar) {
        Ok(g) => g,
        Err(e) => {
            return Err(Error::from(e));
        },
    };
    Ok(Parser { grammar: compile(grammar) })
}

/// The rule names of a prepared grammar, each once, in the order in which
/// they first appear in the source.
pub fn get_production_rules(parser: &Parser) -> (r: Vec<String>)
    ensures
        names_model(r@) == rule_names(parser.grammar.rules@),
{
    let rules = &parser.grammar.rules;
    let mut names: Vec<String> = Vec::new();
    let mut i: usize = 0;
    while i < rules.len()
        invariant
            i <= rules@.len(),
            names@.len() == i,
            forall|j: int| 0 <= j < i ==> names@[j]@ == rules@[j].name@,
        decreases rules@.len() - i,
    {
        names.push(rules[i].name.clone());
        i = i + 1;
    }
    assert(names_model(names@) =~= rule_names(rules@));
    names
}

/// Recognizes `input` from the rule `initial_rule`: the parse tree when the
/// rule reads all of it, `None` otherwise.
pub fn check(input: &str, parser: &Parser, initial_rule: &str) -> (r: Option<Node>)
    ensures
        recognized(parser.grammar.rules@, initial_rule@, input@, r),
{
    recognizer::check(input, &parser.grammar, initial_rule)
}

} // verus!
