//! Expressions: the precedence-climbing parser.

use crate::parser::ast::{expr_view, exprs_view, statements_view, Expr, ExprV, LiteralKind, Statement};
use crate::parser::error::{ErrorKind, ParserError, ParserErrorView};
use crate::parser::grammar::{
    array, begins_expression, block, conditional, do_block, expected, expression,
    expression_after, for_loop,
    grouping, infix, infix_level, lemma_skip, list, operand_level, prefix, remaining, skip, span,
    statement, statement_after, token, tuple, unary, while_loop, LOWEST, UNARY,
};
use crate::parser::literal::parse_integer;
use crate::parser::spans::{lemma_expression, well_spanned};
use crate::parser::{expr_result, Parser};
use crate::span::{Span, Spanned};
use crate::tokens::TokenKind;
use vstd::prelude::*;

verus! {

/// The outcome of parsing an expression.
pub type ExprResult = Result<Spanned<Expr>, ParserError>;

/// The value of the outcome of parsing a list of expressions.
pub open spec fn list_result(r: Result<(Vec<Spanned<Expr>>, Span), ParserError>) -> Result<
    (Seq<ExprV>, Span),
    ParserErrorView,
> {
    match r {
        Ok((items, close)) => Ok((exprs_view(items@), close)),
        Err(e) => Err(e@),
    }
}

/// The precedence of `kind` as an infix operator, or 0 where it is none.
pub fn precedence_of(kind: &TokenKind) -> (level: u8)
    ensures
        level == infix_level(kind@),
        level <= 9,
{
    match kind {
        TokenKind::Equal => 1,
        TokenKind::Or => 2,
        TokenKind::And => 3,
        TokenKind::EqualEqual | TokenKind::BangEqual => 4,
        TokenKind::Less | TokenKind::LessEqual | TokenKind::Greater | TokenKind::GreaterEqual => 5,
        TokenKind::Plus | TokenKind::Minus => 6,
        TokenKind::Star | TokenKind::Slash => 7,
        TokenKind::OpenParen => 9,
        _ => 0,
    }
}

/// Whether an expression may begin with `kind`.
pub fn begins_expression_kind(kind: &TokenKind) -> (b: bool)
    ensures
        b == begins_expression(kind@),
{
    match kind {
        TokenKind::Integer(_)
        | TokenKind::String(_)
        | TokenKind::True
        | TokenKind::False
        | TokenKind::Ident(_)
        | TokenKind::OpenParen
        | TokenKind::Minus
        | TokenKind::Bang
        | TokenKind::OpenBracket
        | TokenKind::Do
        | TokenKind::If
        | TokenKind::For
        | TokenKind::While => true,
        _ => false,
    }
}

/// The lowest precedence that the right operand of the infix operator
/// `kind` may have.
pub fn operand_precedence_of(kind: &TokenKind) -> (level: u8)
    ensures
        level == operand_level(kind@),
{
    match kind {
        TokenKind::Equal => 1,
        _ => precedence_of(kind) + 1,
    }
}

impl<'a> Parser<'a> {
    /// Takes the next token if it is `wanted`, and fails with the advice
    /// `help` if it is not.
    pub(crate) fn expect(&mut self, wanted: &TokenKind, help: &str) -> (r: Result<(), ParserError>)
        requires
            old(self).wf(),
        ensures
            r is Ok <==> token(old(self).text(), old(self).at()) == wanted@,
            r is Ok ==> final(self).moved(old(self), skip(old(self).text(), old(self).at())),
            r is Ok ==> final(self).last() == span(old(self).text(), old(self).at()),
            r is Err ==> final(self).moved(old(self), old(self).at()),
            r is Err ==> r->Err_0@ == expected(
                old(self).text(),
                old(self).at(),
                wanted@,
                Some(help@),
            ),
    {
        match self.consume(wanted) {
            Ok(()) => Ok(()),
            Err(e) => Err(e.with_help(help.to_owned())),
        }
    }

    /// Whether the next token is `kind`.
    pub(crate) fn next_is(&mut self, kind: &TokenKind) -> (r: bool)
        requires
            old(self).wf(),
        ensures
            final(self).moved(old(self), old(self).at()),
            final(self).last() == old(self).last(),
            r == (token(old(self).text(), old(self).at()) == kind@),
    {
        self.peek().0 == *kind
    }

    /// Parses an expression.
    pub fn parse_expression(&mut self, precedence: u8) -> (r: ExprResult)
        requires
            old(self).wf(),
        ensures
            final(self).follows(
                old(self),
                expression(old(self).text(), old(self).at(), precedence),
            ),
            expr_result(r) == expression(old(self).text(), old(self).at(), precedence).out,
            r matches Ok(e) ==> well_spanned(expr_view(e)),
        decreases remaining(old(self).text(), old(self).at()), 2int,
    {
        let ghost src = self.text();
        let ghost at0 = self.at();
        let ghost goal = expression(src, at0, precedence);
        proof {
            reveal_with_fuel(expression, 1);
            reveal_with_fuel(expression_after, 1);
            reveal_with_fuel(prefix, 1);
            reveal_with_fuel(infix, 1);
            reveal_with_fuel(list, 1);
            self.lemma_at_in_text();
            lemma_skip(src, at0);
            lemma_expression(src, at0, precedence);
        }
        if !begins_expression_kind(&self.peek().0) {
            return Err(self.unexpected_here(None));
        }
        let token = self.advance();
        let mut lhs = self.prefix_rule(token)?;
        loop
            invariant
                self.wf(),
                self.text() == src,
                self.text() == old(self).text(),
                self.name() == old(self).name(),
                at0 == old(self).at(),
                goal == expression(src, at0, precedence),
                goal.out matches Ok(e) ==> well_spanned(e),
                remaining(src, self.at()) < remaining(src, at0),
                at0 <= self.at(),
                goal.out == infix(src, self.at(), expr_view(lhs), precedence).out,
                at0 + goal.used == self.at() + infix(
                    src,
                    self.at(),
                    expr_view(lhs),
                    precedence,
                ).used,
            decreases remaining(src, self.at()),
        {
            let ghost at = self.at();
            proof {
                reveal_with_fuel(infix, 1);
                reveal_with_fuel(list, 1);
                reveal_with_fuel(expression, 1);
            }
            let level = precedence_of(&self.peek().0);
            if level == 0 || level < precedence {
                return Ok(lhs);
            }
            proof {
                lemma_skip(src, at);
            }
            let op = self.advance();
            if op.0 == TokenKind::OpenParen {
                let none: Vec<Spanned<Expr>> = Vec::new();
                proof {
                    assert(exprs_view(none@) =~= Seq::<ExprV>::empty());
                }
                let (args, close) = self.parse_list(&TokenKind::CloseParen, none)?;
                let span = Span { start: lhs.1.start, end: close.end };
                lhs = (Expr::Call { callee: Box::new(lhs), args }, span);
            } else {
                let rhs = self.parse_expression(operand_precedence_of(&op.0))?;
                let span = Span { start: lhs.1.start, end: rhs.1.end };
                if op.0 == TokenKind::Equal {
                    lhs = (Expr::Assignment { name: Box::new(lhs), value: Box::new(rhs) }, span);
                } else {
                    lhs = (Expr::Binary { op: op.0, lhs: Box::new(lhs), rhs: Box::new(rhs) }, span);
                }
            }
        }
    }

    /// Parses what the token `token`, which has been taken, begins.
    pub(crate) fn prefix_rule(&mut self, token: Spanned<TokenKind>) -> (r: ExprResult)
        requires
            old(self).wf(),
        ensures
            final(self).follows(
                old(self),
                prefix(old(self).text(), old(self).at(), token.0@, token.1),
            ),
            expr_result(r) == prefix(old(self).text(), old(self).at(), token.0@, token.1).out,
        decreases remaining(old(self).text(), old(self).at()), 10int,
    {
        proof {
            reveal_with_fuel(prefix, 1);
            reveal_with_fuel(grouping, 1);
            reveal_with_fuel(unary, 1);
            reveal_with_fuel(array, 1);
            reveal_with_fuel(block, 1);
            reveal_with_fuel(conditional, 1);
            reveal_with_fuel(for_loop, 1);
            reveal_with_fuel(while_loop, 1);
        }
        match token.0 {
            TokenKind::Integer(_) | TokenKind::String(_) | TokenKind::True | TokenKind::False => {
                self.parse_literal(token)
            },
            TokenKind::Ident(s) => Ok((Expr::Ident(s), token.1)),
            TokenKind::OpenParen => self.parse_grouping(token.1),
            TokenKind::Minus | TokenKind::Bang => self.parse_unary(token),
            TokenKind::OpenBracket => self.parse_array(token),
            TokenKind::Do => self.parse_block(token),
            TokenKind::If => self.parse_if(token),
            TokenKind::For => self.parse_for(token),
            TokenKind::While => self.parse_while(token),
            _ => Err(ParserError::new(ErrorKind::Unexpected(token.0, token.1), None)),
        }
    }

    /// The literal that the token `current` writes.
    pub(crate) fn parse_literal(&self, current: Spanned<TokenKind>) -> (r: ExprResult)
        requires
            current.0 is Integer || current.0 is String || current.0 is True || current.0 is False,
        ensures
            expr_result(r) == prefix(self.text(), self.at(), current.0@, current.1).out,
    {
        proof {
            reveal_with_fuel(prefix, 1);
        }
        match current.0 {
            TokenKind::Integer(i) => match parse_integer(i.as_str()) {
                Some(v) => Ok((Expr::Literal(LiteralKind::Int(v)), current.1)),
                None => Err(
                    ParserError::new(
                        ErrorKind::Other("Integer literal is out of range.".to_owned(), current.1),
                        Some("The largest integer is 9223372036854775807.".to_owned()),
                    ),
                ),
            },
            TokenKind::String(s) => Ok((Expr::Literal(LiteralKind::String(s)), current.1)),
            TokenKind::True => Ok((Expr::Literal(LiteralKind::Bool(true)), current.1)),
            _ => Ok((Expr::Literal(LiteralKind::Bool(false)), current.1)),
        }
    }

    /// Parses what follows an opening parenthesis, whose span is `open`.
    pub(crate) fn parse_grouping(&mut self, open: Span) -> (r: ExprResult)
        requires
            old(self).wf(),
        ensures
            final(self).follows(old(self), grouping(old(self).text(), old(self).at(), open)),
            expr_result(r) == grouping(old(self).text(), old(self).at(), open).out,
        decreases remaining(old(self).text(), old(self).at()), 8int,
    {
        proof {
            reveal_with_fuel(grouping, 1);
            reveal_with_fuel(expression, 1);
            reveal_with_fuel(tuple, 1);
            reveal_with_fuel(list, 1);
        }
        let expr = self.parse_expression(LOWEST)?;
        // If next token is a comma, parse as a tuple
        if self.next_is(&TokenKind::Comma) {
            return self.parse_tuple(open, expr);
        }
        proof {
            lemma_skip(self.text(), self.at());
        }
        match self.expect(&TokenKind::CloseParen, "Expeted to find a closing parenthesis.") {
            Ok(()) => Ok(expr),
            Err(e) => Err(e),
        }
    }

    /// Parses the rest of a tuple, from the comma after its first item on.
    pub(crate) fn parse_tuple(&mut self, open: Span, first: Spanned<Expr>) -> (r: ExprResult)
        requires
            old(self).wf(),
        ensures
            final(self).follows(
                old(self),
                tuple(old(self).text(), old(self).at(), open, expr_view(first)),
            ),
            expr_result(r) == tuple(old(self).text(), old(self).at(), open, expr_view(first)).out,
        decreases remaining(old(self).text(), old(self).at()), 7int,
    {
        proof {
            reveal_with_fuel(tuple, 1);
            reveal_with_fuel(list, 1);
        }
        let ghost src = self.text();
        let ghost at = self.at();
        self.expect(&TokenKind::Comma, "Did you forget a comma?")?;
        proof {
            lemma_skip(src, at);
        }
        let mut items = Vec::new();
        items.push(first);
        proof {
            assert(exprs_view(items@) =~= seq![expr_view(first)]);
        }
        match self.parse_list(&TokenKind::CloseParen, items) {
            Ok((items, close)) => Ok(
                (Expr::Tuple(items), Span { start: open.start, end: close.end }),
            ),
            Err(e) => Err(e),
        }
    }

    /// Parses the rest of a list of expressions, up to and with the token
    /// `close`. `items` holds the expressions that were parsed before.
    pub(crate) fn parse_list(&mut self, close: &TokenKind, items: Vec<Spanned<Expr>>) -> (r: Result<
        (Vec<Spanned<Expr>>, Span),
        ParserError,
    >)
        requires
            old(self).wf(),
        ensures
            final(self).follows(
                old(self),
                list(old(self).text(), old(self).at(), close@, exprs_view(items@)),
            ),
            list_result(r) == list(
                old(self).text(),
                old(self).at(),
                close@,
                exprs_view(items@),
            ).out,
        decreases remaining(old(self).text(), old(self).at()), 7int,
    {
        let ghost src = self.text();
        let ghost at0 = self.at();
        let ghost goal = list(src, at0, close@, exprs_view(items@));
        let mut all = items;
        loop
            invariant
                self.wf(),
                goal == list(src, at0, close@, exprs_view(items@)),
                self.text() == src,
                self.text() == old(self).text(),
                self.name() == old(self).name(),
                at0 == old(self).at(),
                remaining(src, self.at()) <= remaining(src, at0),
                at0 <= self.at(),
                goal.out == list(src, self.at(), close@, exprs_view(all@)).out,
                at0 + goal.used == self.at() + list(
                    src,
                    self.at(),
                    close@,
                    exprs_view(all@),
                ).used,
            decreases remaining(src, self.at()),
        {
            let ghost at = self.at();
            let ghost before = exprs_view(all@);
            proof {
                reveal_with_fuel(list, 1);
                reveal_with_fuel(expression, 1);
            }
            if self.next_is(close) {
                let end = self.advance();
                proof {
                    lemma_skip(src, at);
                    self.lemma_at_in_text();
                }
                return Ok((all, end.1));
            }
            let item = self.parse_expression(LOWEST)?;
            all.push(item);
            let ghost at1 = self.at();
            proof {
                assert(exprs_view(all@) =~= before.push(expr_view(item)));
            }
            if self.next_is(close) {
                let end = self.advance();
                proof {
                    lemma_skip(src, at1);
                }
                return Ok((all, end.1));
            }
            self.expect(&TokenKind::Comma, "Did you forget a comma?")?;
            proof {
                lemma_skip(src, at1);
            }
        }
    }

    /// Parses the operand of the unary operator `current`.
    pub(crate) fn parse_unary(&mut self, current: Spanned<TokenKind>) -> (r: ExprResult)
        requires
            old(self).wf(),
        ensures
            final(self).follows(
                old(self),
                unary(old(self).text(), old(self).at(), current.0@, current.1),
            ),
            expr_result(r) == unary(old(self).text(), old(self).at(), current.0@, current.1).out,
        decreases remaining(old(self).text(), old(self).at()), 8int,
    {
        proof {
            reveal_with_fuel(unary, 1);
            reveal_with_fuel(expression, 1);
        }
        let expr = self.parse_expression(UNARY)?;
        let span = Span { start: current.1.start, end: expr.1.end };
        Ok((Expr::Unary { op: current.0, rhs: Box::new(expr) }, span))
    }

    /// Parses the items of an array, whose opening bracket is `current`.
    pub(crate) fn parse_array(&mut self, current: Spanned<TokenKind>) -> (r: ExprResult)
        requires
            old(self).wf(),
        ensures
            final(self).follows(old(self), array(old(self).text(), old(self).at(), current.1)),
            expr_result(r) == array(old(self).text(), old(self).at(), current.1).out,
        decreases remaining(old(self).text(), old(self).at()), 8int,
    {
        proof {
            reveal_with_fuel(array, 1);
            reveal_with_fuel(list, 1);
        }
        let items: Vec<Spanned<Expr>> = Vec::new();
        proof {
            assert(exprs_view(items@) =~= Seq::<ExprV>::empty());
        }
        match self.parse_list(&TokenKind::CloseBracket, items) {
            Ok((items, close)) => Ok(
                (Expr::Array(items), Span { start: current.1.start, end: close.end }),
            ),
            Err(e) => Err(e),
        }
    }

    /// Parses the statements of a block, which `current` opened, and its
    /// `end`.
    pub(crate) fn parse_block(&mut self, current: Spanned<TokenKind>) -> (r: ExprResult)
        requires
            old(self).wf(),
        ensures
            final(self).follows(
                old(self),
                block(old(self).text(), old(self).at(), current.1, Seq::empty()),
            ),
            expr_result(r) == block(old(self).text(), old(self).at(), current.1, Seq::empty()).out,
        decreases remaining(old(self).text(), old(self).at()), 7int,
    {
        let ghost src = self.text();
        let ghost at0 = self.at();
        let ghost goal = block(src, at0, current.1, Seq::empty());
        let mut statements: Vec<Spanned<Statement>> = Vec::new();
        proof {
            assert(statements_view(statements@) =~= Seq::empty());
        }
        loop
            invariant
                self.wf(),
                self.text() == src,
                self.text() == old(self).text(),
                self.name() == old(self).name(),
                at0 == old(self).at(),
                remaining(src, self.at()) <= remaining(src, at0),
                at0 <= self.at(),
                goal == block(src, at0, current.1, Seq::empty()),
                goal.out == block(src, self.at(), current.1, statements_view(statements@)).out,
                at0 + goal.used == self.at() + block(
                    src,
                    self.at(),
                    current.1,
                    statements_view(statements@),
                ).used,
            ensures
                self.wf(),
                self.text() == old(self).text(),
                self.name() == old(self).name(),
                at0 <= self.at(),
                token(src, self.at()) is EoF || token(src, self.at()) is End,
                goal == block(src, at0, current.1, Seq::empty()),
                goal.out == block(src, self.at(), current.1, statements_view(statements@)).out,
                at0 + goal.used == self.at() + block(
                    src,
                    self.at(),
                    current.1,
                    statements_view(statements@),
                ).used,
            decreases remaining(src, self.at()),
        {
            let ghost at = self.at();
            let ghost before = statements_view(statements@);
            proof {
                reveal_with_fuel(block, 1);
                reveal_with_fuel(statement_after, 1);
                reveal(statement);
            }
            if self.at_end() || self.next_is(&TokenKind::End) {
                break ;
            }
            proof {
                lemma_skip(src, at);
            }
            let statement = self.parse_statement()?;
            statements.push(statement);
            proof {
                assert(statements_view(statements@) =~= before.push(
                    crate::parser::ast::statement_view(statement),
                ));
            }
        }
        let ghost at = self.at();
        proof {
            reveal_with_fuel(block, 1);
        }
        self.expect(&TokenKind::End, "Did you forget an `end`?")?;
        proof {
            lemma_skip(src, at);
        }
        let span = Span { start: current.1.start, end: self.last_span().end };
        Ok((Expr::Block(statements), span))
    }

    /// Parses a block: `do`, statements, and `end`.
    pub(crate) fn parse_do_block(&mut self) -> (r: ExprResult)
        requires
            old(self).wf(),
        ensures
            final(self).follows(old(self), do_block(old(self).text(), old(self).at())),
            expr_result(r) == do_block(old(self).text(), old(self).at()).out,
        decreases remaining(old(self).text(), old(self).at()), 6int,
    {
        proof {
            reveal_with_fuel(do_block, 1);
            reveal_with_fuel(block, 1);
        }
        let ghost src = self.text();
        let ghost at = self.at();
        self.consume(&TokenKind::Do)?;
        proof {
            lemma_skip(src, at);
        }
        let open = (TokenKind::Do, self.last_span());
        self.parse_block(open)
    }

    /// Parses what follows `if`, which is `current`.
    pub(crate) fn parse_if(&mut self, current: Spanned<TokenKind>) -> (r: ExprResult)
        requires
            old(self).wf(),
        ensures
            final(self).follows(
                old(self),
                conditional(old(self).text(), old(self).at(), current.1),
            ),
            expr_result(r) == conditional(old(self).text(), old(self).at(), current.1).out,
        decreases remaining(old(self).text(), old(self).at()), 8int,
    {
        proof {
            reveal_with_fuel(conditional, 1);
            reveal_with_fuel(expression, 1);
            reveal_with_fuel(do_block, 1);
        }
        let ghost src = self.text();
        let condition = self.parse_expression(LOWEST)?;
        let body = self.parse_do_block()?;
        let ghost at2 = self.at();
        if self.next_is(&TokenKind::Else) {
            proof {
                lemma_skip(src, at2);
            }
            self.advance();
            let other = self.parse_expression(LOWEST)?;
            let span = Span { start: current.1.start, end: other.1.end };
            Ok(
                (
                    Expr::If {
                        condition: Box::new(condition),
                        body: Box::new(body),
                        else_: Box::new(Some(other)),
                    },
                    span,
                ),
            )
        } else {
            let span = Span { start: current.1.start, end: body.1.end };
            Ok(
                (
                    Expr::If {
                        condition: Box::new(condition),
                        body: Box::new(body),
                        else_: Box::new(None),
                    },
                    span,
                ),
            )
        }
    }

    /// Parses what follows `for`, which is `current`.
    pub(crate) fn parse_for(&mut self, current: Spanned<TokenKind>) -> (r: ExprResult)
        requires
            old(self).wf(),
        ensures
            final(self).follows(old(self), for_loop(old(self).text(), old(self).at(), current.1)),
            expr_result(r) == for_loop(old(self).text(), old(self).at(), current.1).out,
        decreases remaining(old(self).text(), old(self).at()), 8int,
    {
        proof {
            reveal_with_fuel(for_loop, 1);
            reveal_with_fuel(expression, 1);
            reveal_with_fuel(do_block, 1);
        }
        let ghost src = self.text();
        let var = self.parse_expression(LOWEST)?;
        let ghost at1 = self.at();
        self.consume(&TokenKind::Ident("in".to_owned()))?;
        proof {
            lemma_skip(src, at1);
        }
        let iter = self.parse_expression(LOWEST)?;
        let body = self.parse_do_block()?;
        let span = Span { start: current.1.start, end: body.1.end };
        Ok((Expr::For { var: Box::new(var), iter: Box::new(iter), body: Box::new(body) }, span))
    }

    /// Parses what follows `while`, which is `current`.
    pub(crate) fn parse_while(&mut self, current: Spanned<TokenKind>) -> (r: ExprResult)
        requires
            old(self).wf(),
        ensures
            final(self).follows(
                old(self),
                while_loop(old(self).text(), old(self).at(), current.1),
            ),
            expr_result(r) == while_loop(old(self).text(), old(self).at(), current.1).out,
        decreases remaining(old(self).text(), old(self).at()), 8int,
    {
        proof {
            reveal_with_fuel(while_loop, 1);
            reveal_with_fuel(expression, 1);
            reveal_with_fuel(do_block, 1);
        }
        let condition = self.parse_expression(LOWEST)?;
        let body = self.parse_do_block()?;
        let span = Span { start: current.1.start, end: body.1.end };
        Ok((Expr::While { expr: Box::new(condition), body: Box::new(body) }, span))
    }
}

} // verus!
