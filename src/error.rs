//! One error type for every stage, with its span.
use crate::lexer::{LexError, LexErrorModel};
use crate::parser::ParseError;
use crate::preprocessor::{PreprocessError, PreprocessErrorModel};
use crate::span::{Span, Spanned};
use vstd::prelude::*;
use vstd::string::StringExecFns;

verus! {

/// The stage an error comes from, and what it is.
#[derive(Debug, PartialEq)]
pub enum ErrorKind {
    Lexer(LexError),
    Parser(ParseError),
    Preprocessor(PreprocessError),
}

/// An error of any stage, with the span it points at.
#[derive(Debug, PartialEq)]
pub struct Error {
    pub kind: ErrorKind,
    pub span: Span,
}

impl From<Spanned<LexError>> for Error {
    fn from(error: Spanned<LexError>) -> (r: Error) {
        Error { kind: ErrorKind::Lexer(error.node), span: error.span }
    }
}

impl vstd::std_specs::convert::FromSpecImpl<Spanned<LexError>> for Error {
    open spec fn obeys_from_spec() -> bool {
        true
    }

    open spec fn from_spec(error: Spanned<LexError>) -> Error {
        Error { kind: ErrorKind::Lexer(error.node), span: error.span }
    }
}

impl From<Spanned<ParseError>> for Error {
    fn from(error: Spanned<ParseError>) -> (r: Error) {
        Error { kind: ErrorKind::Parser(error.node), span: error.span }
    }
}

impl vstd::std_specs::convert::FromSpecImpl<Spanned<ParseError>> for Error {
    open spec fn obeys_from_spec() -> bool {
        true
    }

    open spec fn from_spec(error: Spanned<ParseError>) -> Error {
        Error { kind: ErrorKind::Parser(error.node), span: error.span }
    }
}

impl From<Spanned<PreprocessError>> for Error {
    fn from(error: Spanned<PreprocessError>) -> (r: Error) {
        Error { kind: ErrorKind::Preprocessor(error.node), span: error.span }
    }
}

impl vstd::std_specs::convert::FromSpecImpl<Spanned<PreprocessError>> for Error {
    open spec fn obeys_from_spec() -> bool {
        true
    }

    open spec fn from_spec(error: Spanned<PreprocessError>) -> Error {
        Error { kind: ErrorKind::Preprocessor(error.node), span: error.span }
    }
}

/// The readable text of a parser error.
pub open spec fn parse_message(e: ParseError) -> Seq<char> {
    match e {
        ParseError::DefinitionExpected => "definition expected"@,
        ParseError::IdentifierExpected => "identifier expected"@,
        ParseError::NonterminalExpected => "nonterminal expected"@,
        ParseError::TerminalExpected => "terminal expected"@,
        ParseError::SpecialExpected => "special sequence expected"@,
        ParseError::IntegerExpected => "integer expected"@,
        ParseError::ConcatenationSymbolExpected => "concatenation symbol expected"@,
        ParseError::DefinitionSymbolExpected => "definition symbol expected"@,
        ParseError::DefinitionSeparatorSymbolExpected => "definition separator symbol expected"@,
        ParseError::EndGroupSymbolExpected => "end group symbol expected"@,
        ParseError::EndOptionSymbolExpected => "end option symbol expected"@,
        ParseError::EndRepeatSymbolExpected => "end repeat symbol expected"@,
        ParseError::ExceptionSymbolExpected => "exception symbol expected"@,
        ParseError::RepetitionSymbolExpected => "repetition symbol expected"@,
        ParseError::StartGroupSymbolExpected => "start group symbol expected"@,
        ParseError::StartOptionSymbolExpected => "start option symbol expected"@,
        ParseError::StartRepeatSymbolExpected => "start repeat symbol expected"@,
        ParseError::TerminatorSymbolExpected => "terminator symbol expected"@,
    }
}

/// The names of a chain of rules joined by arrows.
pub open spec fn chain_text(names: Seq<Seq<char>>) -> Seq<char>
    decreases names.len(),
{
    if names.len() == 0 {
        Seq::empty()
    } else if names.len() == 1 {
        names[0]
    } else {
        chain_text(names.drop_last()) + " -> "@ + names.last()
    }
}

/// The readable text of an error kind.
pub open spec fn message_of(kind: ErrorKind) -> Seq<char> {
    match kind {
        ErrorKind::Lexer(e) => match e@ {
            LexErrorModel::InvalidSymbol(s) => "invalid symbol `"@ + s + "`"@,
            LexErrorModel::UnterminatedSpecial => "unterminated special sequence"@,
            LexErrorModel::UnterminatedComment => "unterminated comment"@,
            LexErrorModel::UnterminatedTerminal => "unterminated terminal symbol"@,
            LexErrorModel::EmptyTerminal => "empty terminal symbol"@,
        },
        ErrorKind::Parser(e) => parse_message(e),
        ErrorKind::Preprocessor(e) => match e@ {
            PreprocessErrorModel::UndefinedRule(s) => "undefined rule `"@ + s + "`"@,
            PreprocessErrorModel::LeftRecursion(chain) => "left recursion: "@ + chain_text(chain),
        },
    }
}

fn parse_message_text(e: ParseError) -> (r: String)
    ensures
        r@ == parse_message(e),
{
    let text = match e {
        ParseError::DefinitionExpected => "definition expected",
        ParseError::IdentifierExpected => "identifier expected",
        ParseError::NonterminalExpected => "nonterminal expected",
        ParseError::TerminalExpected => "terminal expected",
        ParseError::SpecialExpected => "special sequence expected",
        ParseError::IntegerExpected => "integer expected",
        ParseError::ConcatenationSymbolExpected => "concatenation symbol expected",
        ParseError::DefinitionSymbolExpected => "definition symbol expected",
        ParseError::DefinitionSeparatorSymbolExpected => "definition separator symbol expected",
        ParseError::EndGroupSymbolExpected => "end group symbol expected",
        ParseError::EndOptionSymbolExpected => "end option symbol expected",
        ParseError::EndRepeatSymbolExpected => "end repeat symbol expected",
        ParseError::ExceptionSymbolExpected => "exception symbol expected",
        ParseError::RepetitionSymbolExpected => "repetition symbol expected",
        ParseError::StartGroupSymbolExpected => "start group symbol expected",
        ParseError::StartOptionSymbolExpected => "start option symbol expected",
        ParseError::StartRepeatSymbolExpected => "start repeat symbol expected",
        ParseError::TerminatorSymbolExpected => "terminator symbol expected",
    };
    text.to_owned()
}

fn quoted(before: &str, s: &String) -> (r: String)
    ensures
        r@ == before@ + s@ + "`"@,
{
    let mut r = before.to_owned();
    r.append(s.as_str());
    r.append("`");
    r
}

fn chain_message(names: &Vec<String>) -> (r: String)
    ensures
        r@ == chain_text(crate::preprocessor::names_model(names@)),
{
    let ghost m = crate::preprocessor::names_model(names@);
    let mut r = String::new();
    let mut i: usize = 0;
    while i < names.len()
        invariant
            m == crate::preprocessor::names_model(names@),
            i <= names@.len(),
            r@ == chain_text(m.take(i as int)),
        decreases names@.len() - i,
    {
        proof {
            assert(m.take(i + 1).drop_last() =~= m.take(i as int));
        }
        if i > 0 {
            r.append(" -> ");
        }
        r.append(names[i].as_str());
        i = i + 1;
    }
    assert(m.take(i as int) =~= m);
    r
}

impl Error {
    /// The readable text of the error's kind.
    pub fn message(&self) -> (r: String)
        ensures
            r@ == message_of(self.kind),
    {
        match &self.kind {
            ErrorKind::Lexer(e) => match e {
                LexError::InvalidSymbol(s) => quoted("invalid symbol `", s),
                LexError::UnterminatedSpecial => "unterminated special sequence".to_owned(),
                LexError::UnterminatedComment => "unterminated comment".to_owned(),
                LexError::UnterminatedTerminal => "unterminated terminal symbol".to_owned(),
                LexError::EmptyTerminal => "empty terminal symbol".to_owned(),
            },
            ErrorKind::Parser(e) => parse_message_text(*e),
            ErrorKind::Preprocessor(e) => match e {
                PreprocessError::UndefinedRule(s) => quoted("undefined rule `", s),
                PreprocessError::LeftRecursion(chain) => {
                    let mut r = "left recursion: ".to_owned();
                    let tail = chain_message(chain);
                    r.append(tail.as_str());
                    r
                },
            },
        }
    }
}

} // verus!
