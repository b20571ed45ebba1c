//! The tokens of the EBNF notation.
use vstd::prelude::*;
use vstd::string::StringExecFns;

verus! {

/// A lexical unit of an EBNF source.
#[derive(Debug, Clone, PartialEq)]
pub enum Token {
    Nonterminal(String),
    Terminal(String),
    Special(String),
    Integer(usize),
    Concatenation,
    Definition,
    DefinitionSeparator,
    EndGroup,
    EndOption,
    EndRepeat,
    Exception,
    Repetition,
    StartGroup,
    StartOption,
    StartRepeat,
    Terminator,
}

/// A token with its text as a sequence of characters.
pub enum TokenModel {
    Nonterminal(Seq<char>),
    Terminal(Seq<char>),
    Special(Seq<char>),
    Integer(usize),
    Concatenation,
    Definition,
    DefinitionSeparator,
    EndGroup,
    EndOption,
    EndRepeat,
    Exception,
    Repetition,
    StartGroup,
    StartOption,
    StartRepeat,
    Terminator,
}

impl View for Token {
    type V = TokenModel;

    open spec fn view(&self) -> TokenModel {
        match self {
            Token::Nonterminal(s) => TokenModel::Nonterminal(s@),
            Token::Terminal(s) => TokenModel::Terminal(s@),
            Token::Special(s) => TokenModel::Special(s@),
            Token::Integer(n) => TokenModel::Integer(*n),
            Token::Concatenation => TokenModel::Concatenation,
            Token::Definition => TokenModel::Definition,
            Token::DefinitionSeparator => TokenModel::DefinitionSeparator,
            Token::EndGroup => TokenModel::EndGroup,
            Token::EndOption => TokenModel::EndOption,
            Token::EndRepeat => TokenModel::EndRepeat,
            Token::Exception => TokenModel::Exception,
            Token::Repetition => TokenModel::Repetition,
            Token::StartGroup => TokenModel::StartGroup,
            Token::StartOption => TokenModel::StartOption,
            Token::StartRepeat => TokenModel::StartRepeat,
            Token::Terminator => TokenModel::Terminator,
        }
    }
}

/// The decimal digit `d`.
pub open spec fn digit_text(d: nat) -> Seq<char> {
    if d == 0 {
        "0"@
    } else if d == 1 {
        "1"@
    } else if d == 2 {
        "2"@
    } else if d == 3 {
        "3"@
    } else if d == 4 {
        "4"@
    } else if d == 5 {
        "5"@
    } else if d == 6 {
        "6"@
    } else if d == 7 {
        "7"@
    } else if d == 8 {
        "8"@
    } else {
        "9"@
    }
}

/// The decimal digits of `n`, most significant first.
pub open spec fn decimal(n: nat) -> Seq<char>
    decreases n,
{
    if n < 10 {
        digit_text(n)
    } else {
        decimal(n / 10) + digit_text(n % 10)
    }
}

/// How a token reads in a message.
pub open spec fn description(t: TokenModel) -> Seq<char> {
    match t {
        TokenModel::Nonterminal(s) => "nonterminal '"@ + s + "'"@,
        TokenModel::Terminal(s) => "terminal '"@ + s + "'"@,
        TokenModel::Special(s) => "special sequence '?"@ + s + "?'"@,
        TokenModel::Integer(n) => "integer '"@ + decimal(n as nat) + "'"@,
        TokenModel::Concatenation => "concatenation symbol"@,
        TokenModel::Definition => "definition symbol"@,
        TokenModel::DefinitionSeparator => "definition separator symbol"@,
        TokenModel::EndGroup => "end group symbol"@,
        TokenModel::EndOption => "end option symbol"@,
        TokenModel::EndRepeat => "end repeat symbol"@,
        TokenModel::Exception => "exception symbol"@,
        TokenModel::Repetition => "repetition symbol"@,
        TokenModel::StartGroup => "start group symbol"@,
        TokenModel::StartOption => "start option symbol"@,
        TokenModel::StartRepeat => "start repeat symbol"@,
        TokenModel::Terminator => "terminator symbol"@,
    }
}

fn decimal_text(n: usize) -> (r: String)
    ensures
        r@ == decimal(n as nat),
    decreases n,
{
    let d = n % 10;
    let digit = if d == 0 {
        "0"
    } else if d == 1 {
        "1"
    } else if d == 2 {
        "2"
    } else if d == 3 {
        "3"
    } else if d == 4 {
        "4"
    } else if d == 5 {
        "5"
    } else if d == 6 {
        "6"
    } else if d == 7 {
        "7"
    } else if d == 8 {
        "8"
    } else {
        "9"
    };
    if n < 10 {
        digit.to_owned()
    } else {
        let mut r = decimal_text(n / 10);
        r.append(digit);
        r
    }
}

fn enclosed(before: &str, s: &str, after: &str) -> (r: String)
    ensures
        r@ == before@ + s@ + after@,
{
    let mut r = before.to_owned();
    r.append(s);
    r.append(after);
    r
}

impl Token {
    /// How the token reads in a message, e.g. `terminal 'abc'`.
    pub fn description(&self) -> (r: String)
        ensures
            r@ == description(self@),
    {
        match self {
            Token::Nonterminal(s) => enclosed("nonterminal '", s.as_str(), "'"),
            Token::Terminal(s) => enclosed("terminal '", s.as_str(), "'"),
            Token::Special(s) => enclosed("special sequence '?", s.as_str(), "?'"),
            Token::Integer(n) => {
                let digits = decimal_text(*n);
                enclosed("integer '", digits.as_str(), "'")
            },
            Token::Concatenation => "concatenation symbol".to_owned(),
            Token::Definition => "definition symbol".to_owned(),
            Token::DefinitionSeparator => "definition separator symbol".to_owned(),
            Token::EndGroup => "end group symbol".to_owned(),
            Token::EndOption => "end option symbol".to_owned(),
            Token::EndRepeat => "end repeat symbol".to_owned(),
            Token::Exception => "exception symbol".to_owned(),
            Token::Repetition => "repetition symbol".to_owned(),
            Token::StartGroup => "start group symbol".to_owned(),
            Token::StartOption => "start option symbol".to_owned(),
            Token::StartRepeat => "start repeat symbol".to_owned(),
            Token::Terminator => "terminator symbol".to_owned(),
        }
    }
}

} // verus!
