use vstd::prelude::*;

verus! {

/// One lexical unit of the toy language.
///
/// A `Number` carries the literal text of the numeric run (digits and at
/// most one decimal point); callers that want its arithmetic value parse
/// that text themselves.  `Misc` is the fallback for any character the
/// lexer does not otherwise classify, so lexing never fails merely
/// because of an unexpected character.
#[derive(Debug, Clone, PartialEq)]
pub enum Token {
    Eof,
    Def,
    Extern,
    Identifier(String),
    Number(String),
    Add,
    Sub,
    Mult,
    Div,
    Eq,
    LParen,
    RParen,
    Misc(char),
}

/// The mathematical value of a [`Token`]: the same variants, with every
/// text payload abstracted to its character sequence.
pub enum TokenModel {
    Eof,
    Def,
    Extern,
    Identifier(Seq<char>),
    Number(Seq<char>),
    Add,
    Sub,
    Mult,
    Div,
    Eq,
    LParen,
    RParen,
    Misc(char),
}

impl DeepView for Token {
    type V = TokenModel;

    open spec fn deep_view(&self) -> TokenModel {
        match self {
            Token::Eof => TokenModel::Eof,
            Token::Def => TokenModel::Def,
            Token::Extern => TokenModel::Extern,
            Token::Identifier(s) => TokenModel::Identifier(s@),
            Token::Number(s) => TokenModel::Number(s@),
            Token::Add => TokenModel::Add,
            Token::Sub => TokenModel::Sub,
            Token::Mult => TokenModel::Mult,
            Token::Div => TokenModel::Div,
            Token::Eq => TokenModel::Eq,
            Token::LParen => TokenModel::LParen,
            Token::RParen => TokenModel::RParen,
            Token::Misc(c) => TokenModel::Misc(*c),
        }
    }
}

impl View for Token {
    type V = TokenModel;

    open spec fn view(&self) -> TokenModel {
        self.deep_view()
    }
}

/// Why a whole lexing operation was abandoned.
///
/// A malformed numeric literal (for example a run with two decimal
/// points) is the only fatal condition; every other unexpected character
/// becomes a [`Token::Misc`] instead of an error.
#[derive(Debug, Clone, PartialEq)]
pub enum LexError {
    /// The collected numeric run was not a valid floating-point literal.
    /// The payload is the offending run, verbatim.
    InvalidNumberLiteral(String),
}

impl LexError {
    /// The offending run of characters, as a sequence.
    pub open spec fn text(&self) -> Seq<char> {
        match self {
            LexError::InvalidNumberLiteral(s) => s@,
        }
    }

    /// The offending run of characters, verbatim.
    pub fn literal_text(&self) -> (r: &String)
        ensures
            r@ == self.text(),
    {
        match self {
            LexError::InvalidNumberLiteral(s) => s,
        }
    }
}

} // verus!
