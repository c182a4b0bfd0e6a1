//! The errors that the parser reports.

use crate::span::Span;
use crate::tokens::{Token, TokenKind};
use vstd::prelude::*;

verus! {

/// Represents the different types of errors the parser
/// may encounter.
#[derive(Debug)]
pub enum ErrorKind {
    /// Expected one of the given items, found something else.
    Expected(Vec<TokenKind>, TokenKind, Span),
    /// An unclosed delimeter.
    Unclosed(TokenKind, Span),
    /// Found an unexpected token.
    Unexpected(TokenKind, Span),
    /// Another type of error occurred with the given message.
    Other(String, Span),
}

/// The value of an `ErrorKind`.
pub enum ErrorKindView {
    Expected(Seq<Token>, Token, Span),
    Unclosed(Token, Span),
    Unexpected(Token, Span),
    Other(Seq<char>, Span),
}

/// The values of a list of tokens.
pub open spec fn tokens_view(items: Seq<TokenKind>) -> Seq<Token> {
    Seq::new(items.len(), |i: int| items[i]@)
}

impl View for ErrorKind {
    type V = ErrorKindView;

    open spec fn view(&self) -> ErrorKindView {
        match self {
            ErrorKind::Expected(wanted, found, span) => ErrorKindView::Expected(
                tokens_view(wanted@),
                found@,
                *span,
            ),
            ErrorKind::Unclosed(open, span) => ErrorKindView::Unclosed(open@, *span),
            ErrorKind::Unexpected(found, span) => ErrorKindView::Unexpected(found@, *span),
            ErrorKind::Other(message, span) => ErrorKindView::Other(message@, *span),
        }
    }
}

impl ErrorKind {
    /// The place in the source that the error points at.
    pub fn span(&self) -> (r: Span)
        ensures
            r == self@.span(),
    {
        match self {
            ErrorKind::Expected(_, _, span) => *span,
            ErrorKind::Unclosed(_, span) => *span,
            ErrorKind::Unexpected(_, span) => *span,
            ErrorKind::Other(_, span) => *span,
        }
    }
}

impl ErrorKindView {
    /// The place in the source that the error points at.
    pub open spec fn span(self) -> Span {
        match self {
            ErrorKindView::Expected(_, _, span) => span,
            ErrorKindView::Unclosed(_, span) => span,
            ErrorKindView::Unexpected(_, span) => span,
            ErrorKindView::Other(_, span) => span,
        }
    }
}

/// Parser error.
#[derive(Debug)]
pub struct ParserError {
    kind: ErrorKind,
    help: Option<String>,
}

/// The value of a `ParserError`: what went wrong, and the advice that goes
/// with it, if any.
pub struct ParserErrorView {
    pub kind: ErrorKindView,
    pub help: Option<Seq<char>>,
}

impl View for ParserError {
    type V = ParserErrorView;

    closed spec fn view(&self) -> ParserErrorView {
        ParserErrorView {
            kind: self.kind@,
            help: match self.help {
                Some(h) => Some(h@),
                None => None,
            },
        }
    }
}

impl ParserError {
    /// An error of the given kind, with the given advice.
    pub fn new(kind: ErrorKind, help: Option<String>) -> (r: Self)
        ensures
            r@.kind == kind@,
            r@.help == match help {
                Some(h) => Some(h@),
                None => None::<Seq<char>>,
            },
    {
        Self { kind, help }
    }

    /// The same error with `help` as its advice, in place of any it had.
    pub fn with_help(self, help: String) -> (r: Self)
        ensures
            r@.kind == self@.kind,
            r@.help == Some(help@),
    {
        Self { kind: self.kind, help: Some(help) }
    }

    /// What went wrong.
    pub fn kind(&self) -> (r: &ErrorKind)
        ensures
            r@ == self@.kind,
    {
        &self.kind
    }

    /// The advice that goes with the error, if any.
    pub fn help(&self) -> (r: Option<&String>)
        ensures
            self@.help == match r {
                Some(h) => Some(h@),
                None => None::<Seq<char>>,
            },
    {
        match &self.help {
            Some(h) => Some(h),
            None => None,
        }
    }
}

} // verus!
