//! Statements, type annotations, and a whole program with recovery from
//! errors.

use crate::parser::ast::{
    annotation_view, annotations_view, names_view, spanned_annotations_view, statement_view,
    statements_view, Annotation, AnnotationV, AnnotationView, Expr, Statement,
};
use crate::parser::error::{ErrorKind, ParserError, ParserErrorView};
use crate::parser::grammar::{
    annotation, annotation_list, do_block, expression, expression_after, function, lemma_skip,
    lemma_synchronize, optional_annotation, params, program, remaining, skip, span, statement,
    statement_after, token, unexpected, LOWEST,
};
use crate::parser::spans::{all_well_spanned, lemma_program, lemma_statement, well_spanned_statement};
use crate::parser::{statement_result, Parser};
use crate::span::{Span, Spanned};
use crate::tokens::{same_text, TokenKind};
use vstd::prelude::*;

verus! {

/// The outcome of parsing a statement.
pub type StatementResult = Result<Spanned<Statement>, ParserError>;

/// What parsing a whole source gives: the statements that were parsed, in
/// order, and the errors of those that were not, in order.
#[derive(Debug)]
pub struct Program {
    pub statements: Vec<Spanned<Statement>>,
    pub errors: Vec<ParserError>,
}

/// The values of a list of errors.
pub open spec fn errors_view(items: Seq<ParserError>) -> Seq<ParserErrorView> {
    Seq::new(items.len(), |i: int| items[i]@)
}

/// The value of the outcome of parsing an annotation.
pub open spec fn annotation_result(r: Result<Spanned<Annotation>, ParserError>) -> Result<
    AnnotationV,
    ParserErrorView,
> {
    match r {
        Ok(a) => Ok(annotation_view(a)),
        Err(e) => Err(e@),
    }
}

/// The value of the outcome of parsing an annotation that may be left out.
pub open spec fn optional_annotation_result(
    r: Result<Option<Spanned<Annotation>>, ParserError>,
) -> Result<Option<AnnotationV>, ParserErrorView> {
    match r {
        Ok(Some(a)) => Ok(Some(annotation_view(a))),
        Ok(None) => Ok(None),
        Err(e) => Err(e@),
    }
}

/// The value of the outcome of parsing a list of annotations.
pub open spec fn annotation_list_result(r: Result<(Vec<Annotation>, Span), ParserError>) -> Result<
    (Seq<AnnotationView>, Span),
    ParserErrorView,
> {
    match r {
        Ok((items, close)) => Ok((annotations_view(items@), close)),
        Err(e) => Err(e@),
    }
}

/// The value of the outcome of parsing the parameters of a function.
pub open spec fn params_result(
    r: Result<(Vec<String>, Vec<Spanned<Annotation>>), ParserError>,
) -> Result<(Seq<Seq<char>>, Seq<AnnotationV>), ParserErrorView> {
    match r {
        Ok((names, types)) => Ok((names_view(names@), spanned_annotations_view(types@))),
        Err(e) => Err(e@),
    }
}

impl<'a> Parser<'a> {
    /// The error for the next token, which no rule accepts, with the
    /// advice `help`.
    pub(crate) fn unexpected_here(&mut self, help: Option<&str>) -> (e: ParserError)
        requires
            old(self).wf(),
        ensures
            final(self).moved(old(self), old(self).at()),
            e@ == unexpected(
                old(self).text(),
                old(self).at(),
                match help {
                    Some(h) => Some(h@),
                    None => None,
                },
            ),
    {
        let token = self.peek();
        let found = token.0.clone();
        let span = token.1;
        let help = match help {
            Some(h) => Some(h.to_owned()),
            None => None,
        };
        ParserError::new(ErrorKind::Unexpected(found, span), help)
    }

    /// Takes the next token if it is an identifier, and gives its name and
    /// span.
    pub(crate) fn take_name(&mut self) -> (r: Option<(String, Span)>)
        requires
            old(self).wf(),
        ensures
            match token(old(self).text(), old(self).at()) {
                crate::tokens::Token::Ident(name) => {
                    &&& r matches Some(found)
                    &&& found == (found.0, span(old(self).text(), old(self).at()))
                    &&& name == found.0@
                    &&& final(self).moved(old(self), skip(old(self).text(), old(self).at()))
                },
                _ => r is None && final(self).moved(old(self), old(self).at()),
            },
    {
        let is_name = match self.peek().0 {
            TokenKind::Ident(_) => true,
            _ => false,
        };
        if !is_name {
            return None;
        }
        let token = self.advance();
        match token.0 {
            TokenKind::Ident(name) => Some((name, token.1)),
            _ => None,
        }
    }

    /// Parses a type annotation.
    pub fn parse_annotation(&mut self) -> (r: Result<Spanned<Annotation>, ParserError>)
        requires
            old(self).wf(),
        ensures
            final(self).follows(old(self), annotation(old(self).text(), old(self).at())),
            annotation_result(r) == annotation(old(self).text(), old(self).at()).out,
        decreases remaining(old(self).text(), old(self).at()), 0int,
    {
        let ghost src = self.text();
        let ghost at = self.at();
        proof {
            reveal_with_fuel(annotation, 1);
            reveal_with_fuel(annotation_list, 1);
            self.lemma_at_in_text();
            lemma_skip(src, at);
        }
        if let Some((name, span)) = self.take_name() {
            return Ok((Annotation::Single(name), span));
        }
        if self.next_is(&TokenKind::OpenParen) {
            let open = self.advance();
            let none: Vec<Annotation> = Vec::new();
            proof {
                assert(annotations_view(none@) =~= Seq::<AnnotationView>::empty());
            }
            return match self.parse_annotation_list(&TokenKind::CloseParen, none) {
                Ok((items, close)) => Ok(
                    (Annotation::Tuple(items), Span { start: open.1.start, end: close.end }),
                ),
                Err(e) => Err(e),
            };
        }
        if self.next_is(&TokenKind::OpenBracket) {
            let open = self.advance();
            let none: Vec<Annotation> = Vec::new();
            proof {
                assert(annotations_view(none@) =~= Seq::<AnnotationView>::empty());
            }
            return match self.parse_annotation_list(&TokenKind::CloseBracket, none) {
                Ok((items, close)) => Ok(
                    (Annotation::Array(items), Span { start: open.1.start, end: close.end }),
                ),
                Err(e) => Err(e),
            };
        }
        if self.next_is(&TokenKind::Fun) {
            let keyword = self.advance();
            let ghost at1 = self.at();
            self.consume(&TokenKind::OpenParen)?;
            proof {
                lemma_skip(src, at1);
            }
            let none: Vec<Annotation> = Vec::new();
            proof {
                assert(annotations_view(none@) =~= Seq::<AnnotationView>::empty());
            }
            let arg_types = match self.parse_annotation_list(&TokenKind::CloseParen, none) {
                Ok((items, _)) => items,
                Err(e) => {
                    return Err(e);
                },
            };
            let ghost at3 = self.at();
            self.consume(&TokenKind::Arrow)?;
            proof {
                lemma_skip(src, at3);
            }
            let ret = self.parse_annotation()?;
            let span = Span { start: keyword.1.start, end: ret.1.end };
            return Ok((Annotation::Function { arg_types, ret_type: Box::new(ret.0) }, span));
        }
        Err(self.unexpected_here(Some("Expected a type.")))
    }

    /// Parses the rest of a list of type annotations, up to and with the
    /// token `close`. `items` holds the annotations that were parsed before.
    pub(crate) fn parse_annotation_list(&mut self, close: &TokenKind, items: Vec<Annotation>) -> (r:
        Result<(Vec<Annotation>, Span), ParserError>)
        requires
            old(self).wf(),
        ensures
            final(self).follows(
                old(self),
                annotation_list(old(self).text(), old(self).at(), close@, annotations_view(items@)),
            ),
            annotation_list_result(r) == annotation_list(
                old(self).text(),
                old(self).at(),
                close@,
                annotations_view(items@),
            ).out,
        decreases remaining(old(self).text(), old(self).at()), 1int,
    {
        let ghost src = self.text();
        let ghost at0 = self.at();
        let ghost goal = annotation_list(src, at0, close@, annotations_view(items@));
        let mut all = items;
        loop
            invariant
                self.wf(),
                self.text() == src,
                self.text() == old(self).text(),
                self.name() == old(self).name(),
                at0 == old(self).at(),
                goal == annotation_list(src, at0, close@, annotations_view(items@)),
                remaining(src, self.at()) <= remaining(src, at0),
                at0 <= self.at(),
                goal.out == annotation_list(src, self.at(), close@, annotations_view(all@)).out,
                at0 + goal.used == self.at() + annotation_list(
                    src,
                    self.at(),
                    close@,
                    annotations_view(all@),
                ).used,
            decreases remaining(src, self.at()),
        {
            let ghost at = self.at();
            let ghost before = annotations_view(all@);
            proof {
                reveal_with_fuel(annotation_list, 1);
                reveal_with_fuel(annotation, 1);
                self.lemma_at_in_text();
                lemma_skip(src, at);
            }
            if self.next_is(close) {
                let end = self.advance();
                return Ok((all, end.1));
            }
            let item = self.parse_annotation()?;
            all.push(item.0);
            let ghost at1 = self.at();
            proof {
                assert(annotations_view(all@) =~= before.push(item.0@));
                self.lemma_at_in_text();
                lemma_skip(src, at1);
            }
            if self.next_is(close) {
                let end = self.advance();
                return Ok((all, end.1));
            }
            self.expect(&TokenKind::Comma, "Did you forget a comma?")?;
        }
    }

    /// Parses the annotation that the token `intro` introduces, if that
    /// token comes next.
    pub(crate) fn parse_optional_annotation(&mut self, intro: &TokenKind) -> (r: Result<
        Option<Spanned<Annotation>>,
        ParserError,
    >)
        requires
            old(self).wf(),
        ensures
            final(self).follows(
                old(self),
                optional_annotation(old(self).text(), old(self).at(), intro@),
            ),
            optional_annotation_result(r) == optional_annotation(
                old(self).text(),
                old(self).at(),
                intro@,
            ).out,
    {
        proof {
            reveal(optional_annotation);
            self.lemma_at_in_text();
            lemma_skip(self.text(), self.at());
        }
        if self.next_is(intro) {
            self.advance();
            match self.parse_annotation() {
                Ok(a) => Ok(Some(a)),
                Err(e) => Err(e),
            }
        } else {
            Ok(None)
        }
    }

    /// Parses the parameters of a function, up to and with the closing
    /// parenthesis.
    pub(crate) fn parse_params(&mut self) -> (r: Result<
        (Vec<String>, Vec<Spanned<Annotation>>),
        ParserError,
    >)
        requires
            old(self).wf(),
        ensures
            final(self).follows(
                old(self),
                params(old(self).text(), old(self).at(), Seq::empty(), Seq::empty()),
            ),
            params_result(r) == params(
                old(self).text(),
                old(self).at(),
                Seq::empty(),
                Seq::empty(),
            ).out,
    {
        let ghost src = self.text();
        let ghost at0 = self.at();
        let ghost goal = params(src, at0, Seq::empty(), Seq::empty());
        let mut names: Vec<String> = Vec::new();
        let mut types: Vec<Spanned<Annotation>> = Vec::new();
        proof {
            assert(names_view(names@) =~= Seq::empty());
            assert(spanned_annotations_view(types@) =~= Seq::empty());
        }
        loop
            invariant
                self.wf(),
                self.text() == src,
                self.text() == old(self).text(),
                self.name() == old(self).name(),
                at0 == old(self).at(),
                goal == params(src, at0, Seq::empty(), Seq::empty()),
                at0 <= self.at(),
                goal.out == params(
                    src,
                    self.at(),
                    names_view(names@),
                    spanned_annotations_view(types@),
                ).out,
                at0 + goal.used == self.at() + params(
                    src,
                    self.at(),
                    names_view(names@),
                    spanned_annotations_view(types@),
                ).used,
            decreases remaining(src, self.at()),
        {
            let ghost at = self.at();
            let ghost names_before = names_view(names@);
            let ghost types_before = spanned_annotations_view(types@);
            proof {
                reveal_with_fuel(params, 1);
                self.lemma_at_in_text();
                lemma_skip(src, at);
            }
            if self.next_is(&TokenKind::CloseParen) {
                self.advance();
                return Ok((names, types));
            }
            let name = match self.take_name() {
                Some((name, _)) => name,
                None => {
                    return Err(self.unexpected_here(Some("Expected a parameter name.")));
                },
            };
            let annotation = self.parse_optional_annotation(&TokenKind::Colon)?;
            names.push(name);
            proof {
                assert(names_view(names@) =~= names_before.push(name@));
            }
            match annotation {
                Some(t) => {
                    types.push(t);
                    proof {
                        assert(spanned_annotations_view(types@) =~= types_before.push(
                            annotation_view(t),
                        ));
                    }
                },
                None => {},
            }
            let ghost at2 = self.at();
            proof {
                self.lemma_at_in_text();
                lemma_skip(src, at2);
            }
            if self.next_is(&TokenKind::CloseParen) {
                self.advance();
                return Ok((names, types));
            }
            self.expect(&TokenKind::Comma, "Did you forget a comma?")?;
        }
    }

    /// Parses what follows `fun`, whose span is `keyword`.
    pub(crate) fn parse_function(&mut self, keyword: Span) -> (r: StatementResult)
        requires
            old(self).wf(),
        ensures
            final(self).follows(old(self), function(old(self).text(), old(self).at(), keyword)),
            statement_result(r) == function(old(self).text(), old(self).at(), keyword).out,
        decreases remaining(old(self).text(), old(self).at()), 9int,
    {
        let ghost src = self.text();
        let ghost at = self.at();
        proof {
            reveal_with_fuel(function, 1);
            reveal_with_fuel(do_block, 1);
            self.lemma_at_in_text();
            lemma_skip(src, at);
        }
        let (word, word_span) = match self.take_name() {
            Some(found) => found,
            None => {
                return Err(self.unexpected_here(Some("Expected a function name.")));
            },
        };
        let ghost at1 = self.at();
        proof {
            lemma_skip(src, at1);
        }
        let marked = if same_text(word.as_str(), "pub") {
            self.take_name()
        } else {
            None
        };
        let (name, public) = match marked {
            Some((name, name_span)) => ((Expr::Ident(name), name_span), true),
            None => ((Expr::Ident(word), word_span), false),
        };
        let ghost at2 = self.at();
        self.consume(&TokenKind::OpenParen)?;
        proof {
            lemma_skip(src, at2);
        }
        let (params, annotations) = self.parse_params()?;
        let return_annotation = self.parse_optional_annotation(&TokenKind::Arrow)?;
        let body = self.parse_do_block()?;
        let span = Span { start: keyword.start, end: body.1.end };
        Ok(
            (
                Statement::Function { name, public, params, annotations, return_annotation, body },
                span,
            ),
        )
    }

    /// Parses a statement.
    pub fn parse_statement(&mut self) -> (r: StatementResult)
        requires
            old(self).wf(),
        ensures
            final(self).follows(old(self), statement(old(self).text(), old(self).at())),
            statement_result(r) == statement(old(self).text(), old(self).at()).out,
            r matches Ok(s) ==> well_spanned_statement(statement_view(s)),
        decreases remaining(old(self).text(), old(self).at()), 3int,
    {
        let ghost src = self.text();
        let ghost at = self.at();
        proof {
            reveal(statement);
            reveal_with_fuel(statement_after, 1);
            reveal_with_fuel(expression, 1);
            reveal_with_fuel(expression_after, 1);
            reveal_with_fuel(function, 1);
            self.lemma_at_in_text();
            lemma_skip(src, at);
            lemma_statement(src, at);
        }
        if self.next_is(&TokenKind::Return) {
            let keyword = self.advance();
            match self.parse_expression(LOWEST) {
                Ok(value) => {
                    let span = Span { start: keyword.1.start, end: value.1.end };
                    Ok((Statement::Return(value), span))
                },
                Err(e) => Err(e),
            }
        } else if self.next_is(&TokenKind::Let) {
            let keyword = self.advance();
            let ghost at1 = self.at();
            let name = match self.take_name() {
                Some((name, span)) => (Expr::Ident(name), span),
                None => {
                    return Err(self.unexpected_here(Some("Expected a name.")));
                },
            };
            let ghost at2 = self.at();
            proof {
                lemma_skip(src, at1);
            }
            self.consume(&TokenKind::Equal)?;
            proof {
                lemma_skip(src, at2);
            }
            match self.parse_expression(LOWEST) {
                Ok(value) => {
                    let span = Span { start: keyword.1.start, end: value.1.end };
                    Ok((Statement::Let { name, value }, span))
                },
                Err(e) => Err(e),
            }
        } else if self.next_is(&TokenKind::Fun) {
            let keyword = self.advance();
            self.parse_function(keyword.1)
        } else {
            match self.parse_expression(LOWEST) {
                Ok(value) => {
                    let span = value.1;
                    Ok((Statement::Expression(value), span))
                },
                Err(e) => Err(e),
            }
        }
    }

    /// Parses the whole source: statements up to the end of input. A
    /// statement that fails leaves its error, and the parser takes up its
    /// work at the next of the keywords `fun`, `let`, `return`, `if`, `for`
    /// and `while`.
    pub fn parse_program(&mut self) -> (r: Program)
        requires
            old(self).wf(),
        ensures
            final(self).moved(
                old(self),
                old(self).at() + program(
                    old(self).text(),
                    old(self).at(),
                    Seq::empty(),
                    Seq::empty(),
                ).used,
            ),
            token(final(self).text(), final(self).at()) is EoF,
            statements_view(r.statements@) == program(
                old(self).text(),
                old(self).at(),
                Seq::empty(),
                Seq::empty(),
            ).statements,
            errors_view(r.errors@) == program(
                old(self).text(),
                old(self).at(),
                Seq::empty(),
                Seq::empty(),
            ).errors,
            all_well_spanned(statements_view(r.statements@)),
    {
        let ghost src = self.text();
        let ghost at0 = self.at();
        let ghost goal = program(src, at0, Seq::empty(), Seq::empty());
        let mut statements: Vec<Spanned<Statement>> = Vec::new();
        let mut errors: Vec<ParserError> = Vec::new();
        proof {
            assert(statements_view(statements@) =~= Seq::empty());
            assert(errors_view(errors@) =~= Seq::empty());
        }
        loop
            invariant
                self.wf(),
                self.text() == src,
                self.text() == old(self).text(),
                self.name() == old(self).name(),
                at0 == old(self).at(),
                goal == program(src, at0, Seq::empty(), Seq::empty()),
                at0 <= self.at(),
                goal.statements == program(
                    src,
                    self.at(),
                    statements_view(statements@),
                    errors_view(errors@),
                ).statements,
                goal.errors == program(
                    src,
                    self.at(),
                    statements_view(statements@),
                    errors_view(errors@),
                ).errors,
                at0 + goal.used == self.at() + program(
                    src,
                    self.at(),
                    statements_view(statements@),
                    errors_view(errors@),
                ).used,
            ensures
                self.wf(),
                self.text() == old(self).text(),
                self.name() == old(self).name(),
                self.at() == at0 + goal.used,
                token(src, self.at()) is EoF,
                statements_view(statements@) == goal.statements,
                errors_view(errors@) == goal.errors,
            decreases remaining(src, self.at()),
        {
            let ghost at = self.at();
            let ghost statements_before = statements_view(statements@);
            let ghost errors_before = errors_view(errors@);
            proof {
                reveal_with_fuel(program, 1);
                reveal_with_fuel(crate::parser::grammar::synchronize, 1);
                reveal(statement);
                self.lemma_at_in_text();
                lemma_skip(src, at);
                lemma_synchronize(src, skip(src, at));
            }
            if self.at_end() {
                break ;
            }
            match self.parse_statement() {
                Ok(statement) => {
                    statements.push(statement);
                    proof {
                        assert(statements_view(statements@) =~= statements_before.push(
                            statement_view(statement),
                        ));
                    }
                },
                Err(e) => {
                    errors.push(e);
                    proof {
                        assert(errors_view(errors@) =~= errors_before.push(e@));
                        lemma_synchronize(src, self.at());
                    }
                    self.synchronize();
                },
            }
        }
        proof {
            old(self).lemma_at_in_text();
            lemma_program(src, at0, Seq::empty(), Seq::empty());
        }
        Program { statements, errors }
    }
}

/// Parses the source `source`, which is known as `filename`. The result is
/// the program where every statement parsed, and the errors where one did
/// not.
pub fn parse(source: &str, filename: &str) -> (r: Result<Vec<Spanned<Statement>>, Vec<ParserError>>)
    ensures
        match r {
            Ok(statements) => program(source@, 0, Seq::empty(), Seq::empty()).errors.len() == 0
                && all_well_spanned(statements_view(statements@)) && statements_view(statements@)
                == program(
                source@,
                0,
                Seq::empty(),
                Seq::empty(),
            ).statements,
            Err(errors) => errors.len() > 0 && errors_view(errors@) == program(
                source@,
                0,
                Seq::empty(),
                Seq::empty(),
            ).errors,
        },
{
    let mut parser = Parser::new(source, filename);
    let found = parser.parse_program();
    if found.errors.len() == 0 {
        Ok(found.statements)
    } else {
        Err(found.errors)
    }
}

} // verus!
