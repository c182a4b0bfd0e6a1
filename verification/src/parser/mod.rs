//! The parser takes a source text and outputs an abstract syntax tree. It
//! is a Pratt parser for expressions inside a recursive-descent parser for
//! statements.

pub mod ast;
pub mod error;
pub mod expression;
pub mod grammar;
pub mod literal;
pub mod spans;
pub mod statement;

use crate::lexer::{lemma_lex_bounds, lex, Lexer};
use crate::parser::ast::{Expr, ExprV, Statement, StatementV};
pub use crate::parser::error::{ErrorKind, ParserError};
use crate::parser::error::ParserErrorView;
use crate::parser::grammar::{lemma_skip, remaining, skip, span, token, Parsed};
use crate::span::{Span, Spanned};
use crate::tokens::TokenKind;
use vstd::prelude::*;

verus! {

/// Parses a string into an Abstract Syntax Tree (AST)
pub struct Parser<'a> {
    source: &'a str,
    lexer: Lexer,
    filename: &'a str,
    current_token_span: Span,
    peeked: Option<Spanned<TokenKind>>,
    mark: Ghost<int>,
}

/// The value of the outcome of parsing an expression.
pub open spec fn expr_result(r: Result<Spanned<Expr>, ParserError>) -> Result<
    ExprV,
    ParserErrorView,
> {
    match r {
        Ok(e) => Ok(crate::parser::ast::expr_view(e)),
        Err(e) => Err(e@),
    }
}

/// The value of the outcome of parsing a statement.
pub open spec fn statement_result(r: Result<Spanned<Statement>, ParserError>) -> Result<
    StatementV,
    ParserErrorView,
> {
    match r {
        Ok(s) => Ok(crate::parser::ast::statement_view(s)),
        Err(e) => Err(e@),
    }
}

impl<'a> Parser<'a> {
    /// The text that is parsed.
    pub closed spec fn text(&self) -> Seq<char> {
        self.source@
    }

    /// The name under which the text is known, for diagnostics.
    pub closed spec fn name(&self) -> Seq<char> {
        self.filename@
    }

    /// The character position at which the next token is read: all tokens
    /// before it have been taken.
    pub closed spec fn at(&self) -> int {
        match self.peeked {
            Some(_) => self.mark@,
            None => self.lexer.cursor(),
        }
    }

    /// The span of the token that was taken last.
    pub closed spec fn last(&self) -> Span {
        self.current_token_span
    }

    /// The invariant of a parser: its lexer reads the parser's text, and a
    /// token that was looked at ahead of time is the one that `lex` finds
    /// at the parser's position.
    pub closed spec fn wf(&self) -> bool {
        &&& self.lexer.wf()
        &&& self.lexer.text() == self.source@
        &&& 0 <= self.at() <= self.source@.len()
        &&& match self.peeked {
            Some(t) => Lexer::yields(self.source@, lex(self.source@, self.mark@), t)
                && self.lexer.cursor() == lex(self.source@, self.mark@).next,
            None => true,
        }
    }

    /// Whether `self` is the parser `before` after a rule with the outcome
    /// `p`: the same text and name, read further by what the rule took.
    pub open spec fn follows<T>(&self, before: &Self, p: Parsed<T>) -> bool {
        &&& self.wf()
        &&& self.text() == before.text()
        &&& self.name() == before.name()
        &&& self.at() == before.at() + p.used
    }

    /// Whether `self` is the parser `before` at the position `at`.
    pub open spec fn moved(&self, before: &Self, at: int) -> bool {
        &&& self.wf()
        &&& self.text() == before.text()
        &&& self.name() == before.name()
        &&& self.at() == at
    }

    /// A well-formed parser stands within its text, whose byte offsets fit
    /// the machine's words.
    pub proof fn lemma_at_in_text(&self)
        requires
            self.wf(),
        ensures
            0 <= self.at() <= self.text().len(),
            crate::parser::spans::fits(self.text()),
    {
        self.lexer.lemma_cursor_in_text();
    }

    /// A parser at the start of `source`, which is known as `filename`.
    pub fn new(source: &'a str, filename: &'a str) -> (parser: Self)
        ensures
            parser.wf(),
            parser.text() == source@,
            parser.name() == filename@,
            parser.at() == 0,
    {
        let lexer = Lexer::new(source);
        proof {
            lexer.lemma_cursor_in_text();
        }
        Self {
            source,
            lexer,
            filename,
            current_token_span: Span { start: 0, end: 0 },
            peeked: None,
            mark: Ghost(0),
        }
    }

    /// The name under which the text is known.
    pub fn filename(&self) -> (r: &'a str)
        ensures
            r@ == self.name(),
    {
        self.filename
    }

    /// The text that is parsed.
    pub fn source(&self) -> (r: &'a str)
        ensures
            r@ == self.text(),
    {
        self.source
    }

    /// The span of the token that was taken last.
    pub(crate) fn last_span(&self) -> (r: Span)
        ensures
            r == self.last(),
    {
        self.current_token_span
    }

    /// Takes the next token.
    pub(crate) fn advance(&mut self) -> (r: Spanned<TokenKind>)
        requires
            old(self).wf(),
        ensures
            final(self).moved(old(self), skip(old(self).text(), old(self).at())),
            r.0@ == token(old(self).text(), old(self).at()),
            r.1 == span(old(self).text(), old(self).at()),
            final(self).last() == r.1,
    {
        // If a token has been peeked, return that. Otherwise, advance the lexer
        // and return the next token.
        proof {
            reveal(token);
            reveal(span);
            reveal(skip);
            self.lexer.lemma_cursor_in_text();
            lemma_lex_bounds(self.source@, self.at());
        }
        if let Some(t) = self.peeked.take() {
            self.current_token_span = t.1;
            t
        } else {
            let t = self.lexer.next_token();
            self.current_token_span = t.1;
            proof {
                self.lexer.lemma_cursor_in_text();
            }
            t
        }
    }

    /// Looks at the next token without taking it.
    pub(crate) fn peek(&mut self) -> (r: &Spanned<TokenKind>)
        requires
            old(self).wf(),
        ensures
            final(self).moved(old(self), old(self).at()),
            final(self).last() == old(self).last(),
            r.0@ == token(old(self).text(), old(self).at()),
            r.1 == span(old(self).text(), old(self).at()),
    {
        // If nothing has been peeked, advance and store that token as the peeked value.
        proof {
            reveal(token);
            reveal(span);
        }
        if self.peeked.is_none() {
            let ghost at = self.lexer.cursor();
            let t = self.lexer.next_token();
            self.peeked = Some(t);
            self.mark = Ghost(at);
        }
        self.peeked.as_ref().unwrap()
    }

    /// Whether the next token is the end of input.
    pub(crate) fn at_end(&mut self) -> (r: bool)
        requires
            old(self).wf(),
        ensures
            final(self).moved(old(self), old(self).at()),
            final(self).last() == old(self).last(),
            r == (token(old(self).text(), old(self).at()) is EoF),
    {
        self.peek().0 == TokenKind::EoF
    }

    /// Takes the next token if it is `expected`, and fails if it is not.
    pub(crate) fn consume(&mut self, expected: &TokenKind) -> (r: Result<(), ParserError>)
        requires
            old(self).wf(),
        ensures
            r is Ok <==> token(old(self).text(), old(self).at()) == expected@,
            r is Ok ==> final(self).moved(old(self), skip(old(self).text(), old(self).at())),
            r is Ok ==> final(self).last() == span(old(self).text(), old(self).at()),
            r is Err ==> final(self).moved(old(self), old(self).at()),
            r is Err ==> r->Err_0@ == crate::parser::grammar::expected(
                old(self).text(),
                old(self).at(),
                expected@,
                None,
            ),
    {
        let token = self.peek();
        if token.0 == *expected {
            self.advance();  // Next token was the expected one, so advance.
            return Ok(());
        }
        let mut wanted = Vec::new();
        wanted.push(expected.clone());
        let found = token.0.clone();
        let span = token.1;
        let error = ParserError::new(ErrorKind::Expected(wanted, found, span), None);
        proof {
            assert(crate::parser::error::tokens_view(wanted@) =~= seq![expected@]);
        }
        Err(error)
    }

    /// Skips tokens up to one of the keywords `fun`, `let`, `return`, `if`,
    /// `for` and `while`, or to the end of input.
    pub(crate) fn synchronize(&mut self)
        requires
            old(self).wf(),
        ensures
            final(self).moved(
                old(self),
                crate::parser::grammar::synchronize(old(self).text(), old(self).at()),
            ),
    {
        loop
            invariant
                self.wf(),
                self.text() == old(self).text(),
                self.name() == old(self).name(),
                crate::parser::grammar::synchronize(self.text(), self.at())
                    == crate::parser::grammar::synchronize(old(self).text(), old(self).at()),
            ensures
                self.at() == crate::parser::grammar::synchronize(old(self).text(), old(self).at()),
            decreases remaining(self.text(), self.at()),
        {
            proof {
                reveal_with_fuel(crate::parser::grammar::synchronize, 1);
            }
            if self.at_end() {
                break ;
            }
            match self.peek().0 {
                TokenKind::Fun
                | TokenKind::Let
                | TokenKind::Return
                | TokenKind::If
                | TokenKind::For
                | TokenKind::While => {
                    break ;
                },
                _ => {
                    proof {
                        lemma_skip(self.text(), self.at());
                    }
                    self.advance();
                },
            }
        }
    }
}

} // verus!
