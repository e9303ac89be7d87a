use vstd::prelude::*;
use crate::span::Span;

verus! {

/// The error of each compilation phase, with the source range it concerns.
#[derive(Debug, Clone)]
pub enum CompilerError {
    LexerError { span: Span, message: String },
    ParserError { span: Span, message: String },
    TypeError { span: Span, message: String },
    CodegenError { message: String },
}

impl CompilerError {
    /// The human-readable text of the error.
    pub fn message(&self) -> (r: &String)
        ensures
            r@ == self.message_view(),
    {
        match self {
            CompilerError::LexerError { message, .. } => message,
            CompilerError::ParserError { message, .. } => message,
            CompilerError::TypeError { message, .. } => message,
            CompilerError::CodegenError { message } => message,
        }
    }

    /// A parser error at `span` with message `m`.
    pub open spec fn is_parser_error(&self, span: Span, m: Seq<char>) -> bool {
        match self {
            CompilerError::ParserError { span: s, message } => *s == span && message@ == m,
            _ => false,
        }
    }

    pub open spec fn span_view(&self) -> Option<Span> {
        match self {
            CompilerError::LexerError { span, .. } => Some(*span),
            CompilerError::ParserError { span, .. } => Some(*span),
            CompilerError::TypeError { span, .. } => Some(*span),
            CompilerError::CodegenError { .. } => None,
        }
    }

    pub open spec fn message_view(&self) -> Seq<char> {
        match self {
            CompilerError::LexerError { message, .. } => message@,
            CompilerError::ParserError { message, .. } => message@,
            CompilerError::TypeError { message, .. } => message@,
            CompilerError::CodegenError { message } => message@,
        }
    }
}

} // verus!
