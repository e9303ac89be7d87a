use vstd::prelude::*;

verus! {

/// The lexical categories of the language.
#[derive(Debug, Clone, Copy, PartialEq, Eq, Structural)]
pub enum Token {
    // keywords
    Fn,
    Let,
    Mut,
    If,
    Else,
    While,
    For,
    In,
    Return,
    True,
    False,
    // type names
    I8,
    I16,
    I32,
    I64,
    I128,
    F32,
    F64,
    Bool,
    Str,
    StringType,
    // delimiters
    LParen,
    RParen,
    LBrace,
    RBrace,
    LBracket,
    RBracket,
    Semicolon,
    Comma,
    Colon,
    DoubleColon,
    Dot,
    DotDot,
    Arrow,
    // operators (there is no lone `!`: it is a lexical error, and only `!=` uses it)
    Assign,
    Plus,
    Minus,
    Star,
    Slash,
    Percent,
    Eq,
    NotEq,
    Lt,
    LtEq,
    Gt,
    GtEq,
    And,
    Or,
    // values
    Ident,
    IntLiteral,
    FloatLiteral,
    StringLiteral,
    // the `println!` output macro, read as one token
    PrintlnMacro,
    // end of input, reported by the parser once the tokens run out
    Eof,
    // a character that starts no token
    Error,
}

/// A token with its character range in the source and the text it covers.
#[derive(Debug)]
pub struct TokenWithSpan {
    pub token: Token,
    pub span: (usize, usize),
    pub text: String,
}

impl TokenWithSpan {
    pub fn new(token: Token, span: (usize, usize), text: String) -> (r: TokenWithSpan)
        ensures
            r.token == token,
            r.span == span,
            r.text@ == text@,
    {
        TokenWithSpan { token, span, text }
    }
}

impl Clone for TokenWithSpan {
    fn clone(&self) -> (r: TokenWithSpan)
        ensures
            r.token == self.token,
            r.span == self.span,
            r.text@ == self.text@,
    {
        TokenWithSpan { token: self.token, span: (self.span.0, self.span.1), text: self.text.clone() }
    }
}

} // verus!
