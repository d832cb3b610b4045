//! Errors of the lexer and parser.
use crate::ast::Span;
use vstd::prelude::*;

verus! {

#[derive(Debug)]
pub enum ErrorKind {
    Parse { why: String, span: Span },
}

/// A parse error: what went wrong and where.
#[derive(Debug)]
pub struct Error {
    pub kind: ErrorKind,
}

/// What an error is: its message and the span it points at.
pub struct ErrV {
    pub why: Seq<char>,
    pub span: Span,
}

impl View for Error {
    type V = ErrV;

    open spec fn view(&self) -> ErrV {
        match self.kind {
            ErrorKind::Parse { why, span } => ErrV { why: why@, span },
        }
    }
}

impl Error {
    /// Builds a parse error from its message and span.
    pub fn parse(why: String, span: Span) -> (e: Error)
        ensures
            e@ == (ErrV { why: why@, span }),
    {
        Error { kind: ErrorKind::Parse { why, span } }
    }

    /// The error's message.
    pub fn why(&self) -> (r: &String)
        ensures
            r@ == self@.why,
    {
        match &self.kind {
            ErrorKind::Parse { why, .. } => why,
        }
    }

    /// The span the error points at.
    pub fn span(&self) -> (r: Span)
        ensures
            r == self@.span,
    {
        match &self.kind {
            ErrorKind::Parse { span, .. } => *span,
        }
    }
}

} // verus!
