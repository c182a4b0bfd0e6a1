//! The grammar of Alpaca, as functions from a source text and a position in
//! it to what the parser finds there.
//!
//! A position is a character position at which a token is about to be
//! read. Each function gives the outcome of one rule of the grammar and the
//! number of characters that the rule takes. The functions of `Parser`
//! compute exactly these.
//!
//! The rules are opaque, so that a proof meets only the rules it speaks
//! of: it reveals a rule, and the rules that the rule calls, where it
//! needs what they say.

use crate::lexer::{lemma_lex_bounds, lex};
use crate::parser::ast::{AnnotationV, AnnotationView, ExprV, ExprView, LiteralView, StatementV, StatementView};
use crate::parser::error::{ErrorKindView, ParserErrorView};
use crate::parser::literal::integer_value;
use crate::span::Span;
use crate::tokens::Token;
use vstd::prelude::*;

verus! {

/// The outcome of a rule of the grammar: the tree it builds or the error it
/// stops at, and the number of characters it takes from where it began.
pub struct Parsed<T> {
    pub out: Result<T, ParserErrorView>,
    pub used: nat,
}

/// The number of characters of `src` that lie at or after the position `at`.
pub open spec fn remaining(src: Seq<char>, at: int) -> nat {
    if at <= 0 {
        src.len()
    } else if at >= src.len() {
        0
    } else {
        (src.len() - at) as nat
    }
}

/// The token that is read at `at`.
#[verifier::opaque]
pub open spec fn token(src: Seq<char>, at: int) -> Token {
    lex(src, at).token
}

/// The span of the token that is read at `at`.
#[verifier::opaque]
pub open spec fn span(src: Seq<char>, at: int) -> Span {
    lex(src, at).span(src)
}

/// The position that follows the token read at `at`.
#[verifier::opaque]
pub open spec fn skip(src: Seq<char>, at: int) -> int {
    lex(src, at).next
}

/// Reading a token that is not the end of input leaves fewer characters.
pub proof fn lemma_skip(src: Seq<char>, at: int)
    ensures
        !(token(src, at) is EoF) ==> 0 <= at < skip(src, at) <= src.len() && remaining(
            src,
            skip(src, at),
        ) < remaining(src, at),
        token(src, at) is EoF ==> skip(src, at) == src.len(),
        0 <= at <= src.len() ==> at <= skip(src, at),
{
    reveal(token);
    reveal(skip);
    if 0 <= at <= src.len() {
        lemma_lex_bounds(src, at);
    }
}

/// A rule that ended at `end`, having begun at `at`, with the tree `value`.
pub open spec fn done<T>(at: int, end: int, value: T) -> Parsed<T> {
    Parsed { out: Ok(value), used: (end - at) as nat }
}

/// A rule that stopped at `end`, having begun at `at`, with the error `e`.
pub open spec fn fail<T>(at: int, end: int, e: ParserErrorView) -> Parsed<T> {
    Parsed { out: Err(e), used: (end - at) as nat }
}

/// The outcome `p` of a rule that began at `from`, as the outcome of the
/// rule that began at `at` and went on with it.
pub open spec fn after<T>(at: int, from: int, p: Parsed<T>) -> Parsed<T> {
    Parsed { out: p.out, used: (from - at) as nat + p.used }
}

/// The error for a token at `at` that no rule accepts.
pub open spec fn unexpected(src: Seq<char>, at: int, help: Option<Seq<char>>) -> ParserErrorView {
    ParserErrorView { kind: ErrorKindView::Unexpected(token(src, at), span(src, at)), help }
}

/// The error for a token at `at` where `want` was required.
pub open spec fn expected(src: Seq<char>, at: int, want: Token, help: Option<Seq<char>>)
    -> ParserErrorView {
    ParserErrorView {
        kind: ErrorKindView::Expected(seq![want], token(src, at), span(src, at)),
        help,
    }
}

/// The error for an integer literal that is too large.
pub open spec fn out_of_range(span: Span) -> ParserErrorView {
    ParserErrorView {
        kind: ErrorKindView::Other("Integer literal is out of range."@, span),
        help: Some("The largest integer is 9223372036854775807."@),
    }
}

/// The lowest precedence: that of a whole expression.
pub const LOWEST: u8 = 1;

/// The precedence at which the operand of a unary operator is parsed. It
/// lies above every binary operator.
pub const UNARY: u8 = 8;

/// The precedence of `t` as an infix operator, from 1 (assignment) to 9
/// (call), or 0 where `t` is none.
pub open spec fn infix_level(t: Token) -> u8 {
    match t {
        Token::Equal => 1,
        Token::Or => 2,
        Token::And => 3,
        Token::EqualEqual | Token::BangEqual => 4,
        Token::Less | Token::LessEqual | Token::Greater | Token::GreaterEqual => 5,
        Token::Plus | Token::Minus => 6,
        Token::Star | Token::Slash => 7,
        Token::OpenParen => 9,
        _ => 0,
    }
}

/// The lowest precedence that the right operand of the infix operator `t`
/// may have: the operator's own for assignment, which associates to the
/// right, and one above it for the others, which associate to the left.
pub open spec fn operand_level(t: Token) -> u8 {
    if t is Equal {
        1
    } else {
        (infix_level(t) + 1) as u8
    }
}

/// The tree for the infix operator `op` between `lhs` and `rhs`.
pub open spec fn binary(op: Token, lhs: ExprV, rhs: ExprV) -> ExprV {
    let span = Span { start: lhs.1.start, end: rhs.1.end };
    if op is Equal {
        (ExprView::Assignment { name: Box::new(lhs), value: Box::new(rhs) }, span)
    } else {
        (ExprView::Binary { op, lhs: Box::new(lhs), rhs: Box::new(rhs) }, span)
    }
}

/// Whether `t` is one of the keywords at which the parser takes up its
/// work again after an error.
pub open spec fn resumes(t: Token) -> bool {
    t is Fun || t is Let || t is Return || t is If || t is For || t is While
}

/// Whether an expression may begin with `t`.
pub open spec fn begins_expression(t: Token) -> bool {
    t is Integer || t is String || t is True || t is False || t is Ident || t is OpenParen
        || t is Minus || t is Bang || t is OpenBracket || t is Do || t is If || t is For
        || t is While
}

/// Whether a statement may begin with `t`.
pub open spec fn begins_statement(t: Token) -> bool {
    t is Return || t is Let || t is Fun || begins_expression(t)
}

/// The word that stands between the variable and the sequence of a `for`
/// loop.
pub open spec fn in_word() -> Token {
    Token::Ident("in"@)
}

/// A type annotation.
///
/// `name`, `(types)`, `[types]` or `fun(types) -> type`
#[verifier::opaque]
pub open spec fn annotation(src: Seq<char>, at: int) -> Parsed<AnnotationV>
    decreases remaining(src, at), 0int,
{
    let start = span(src, at).start;
    let at1 = skip(src, at);
    match token(src, at) {
        Token::Ident(name) => done(at, at1, (AnnotationView::Single(name), span(src, at))),
        Token::OpenParen => {
            proof {
                lemma_skip(src, at);
            }
            let l = annotation_list(src, at1, Token::CloseParen, Seq::empty());
            match l.out {
                Ok((items, close)) => done(
                    at,
                    at1 + l.used,
                    (AnnotationView::Tuple(items), Span { start, end: close.end }),
                ),
                Err(e) => fail(at, at1 + l.used, e),
            }
        },
        Token::OpenBracket => {
            proof {
                lemma_skip(src, at);
            }
            let l = annotation_list(src, at1, Token::CloseBracket, Seq::empty());
            match l.out {
                Ok((items, close)) => done(
                    at,
                    at1 + l.used,
                    (AnnotationView::Array(items), Span { start, end: close.end }),
                ),
                Err(e) => fail(at, at1 + l.used, e),
            }
        },
        Token::Fun => {
            if token(src, at1) is OpenParen {
                proof {
                    lemma_skip(src, at);
                    lemma_skip(src, at1);
                }
                let at2 = skip(src, at1);
                let l = annotation_list(src, at2, Token::CloseParen, Seq::empty());
                match l.out {
                    Ok((arg_types, _)) => {
                        let at3 = at2 + l.used;
                        if token(src, at3) is Arrow {
                            proof {
                                lemma_skip(src, at3);
                            }
                            let at4 = skip(src, at3);
                            let r = annotation(src, at4);
                            match r.out {
                                Ok(ret) => done(
                                    at,
                                    at4 + r.used,
                                    (
                                        AnnotationView::Function {
                                            arg_types,
                                            ret_type: Box::new(ret.0),
                                        },
                                        Span { start, end: ret.1.end },
                                    ),
                                ),
                                Err(e) => fail(at, at4 + r.used, e),
                            }
                        } else {
                            fail(at, at3, expected(src, at3, Token::Arrow, None))
                        }
                    },
                    Err(e) => fail(at, at2 + l.used, e),
                }
            } else {
                fail(at, at1, expected(src, at1, Token::OpenParen, None))
            }
        },
        _ => fail(at, at, unexpected(src, at, Some("Expected a type."@))),
    }
}

/// The rest of a list of type annotations, up to and with the token `close`
/// that ends it. The annotations are separated by commas, and a comma may
/// follow the last one. `items` holds the annotations before `at`.
#[verifier::opaque]
pub open spec fn annotation_list(src: Seq<char>, at: int, close: Token, items: Seq<AnnotationView>)
    -> Parsed<(Seq<AnnotationView>, Span)>
    decreases remaining(src, at), 1int,
{
    if token(src, at) == close {
        done(at, skip(src, at), (items, span(src, at)))
    } else {
        let a = annotation(src, at);
        match a.out {
            Ok(item) => {
                let at1 = at + a.used;
                let items1 = items.push(item.0);
                if token(src, at1) == close {
                    done(at, skip(src, at1), (items1, span(src, at1)))
                } else if token(src, at1) is Comma {
                    proof {
                        lemma_skip(src, at1);
                    }
                    after(at, skip(src, at1), annotation_list(src, skip(src, at1), close, items1))
                } else {
                    fail(
                        at,
                        at1,
                        expected(src, at1, Token::Comma, Some("Did you forget a comma?"@)),
                    )
                }
            },
            Err(e) => fail(at, at + a.used, e),
        }
    }
}

/// An annotation that the token `intro` introduces, where that token
/// stands at `at`, and none where it does not.
#[verifier::opaque]
pub open spec fn optional_annotation(src: Seq<char>, at: int, intro: Token) -> Parsed<
    Option<AnnotationV>,
> {
    if token(src, at) == intro {
        let a = annotation(src, skip(src, at));
        match a.out {
            Ok(ann) => done(at, skip(src, at) + a.used, Some(ann)),
            Err(e) => fail(at, skip(src, at) + a.used, e),
        }
    } else {
        done(at, at, None)
    }
}

/// The rest of the parameters of a function, up to and with the closing
/// parenthesis. Each parameter is a name, which `: type` may follow. The
/// parameters are separated by commas, and a comma may follow the last one.
/// `names` and `types` hold the names and the annotations before `at`.
#[verifier::opaque]
pub open spec fn params(src: Seq<char>, at: int, names: Seq<Seq<char>>, types: Seq<AnnotationV>)
    -> Parsed<(Seq<Seq<char>>, Seq<AnnotationV>)>
    decreases remaining(src, at),
{
    match token(src, at) {
        Token::CloseParen => done(at, skip(src, at), (names, types)),
        Token::Ident(name) => {
            let at1 = skip(src, at);
            let a = optional_annotation(src, at1, Token::Colon);
            match a.out {
                Ok(ann) => {
                    let at2 = at1 + a.used;
                    let names1 = names.push(name);
                    let types1 = match ann {
                        Some(t) => types.push(t),
                        None => types,
                    };
                    if token(src, at2) is CloseParen {
                        done(at, skip(src, at2), (names1, types1))
                    } else if token(src, at2) is Comma {
                        proof {
                            lemma_skip(src, at);
                            lemma_skip(src, at2);
                        }
                        after(at, skip(src, at2), params(src, skip(src, at2), names1, types1))
                    } else {
                        fail(
                            at,
                            at2,
                            expected(src, at2, Token::Comma, Some("Did you forget a comma?"@)),
                        )
                    }
                },
                Err(e) => fail(at, at1 + a.used, e),
            }
        },
        _ => fail(at, at, unexpected(src, at, Some("Expected a parameter name."@))),
    }
}

/// An expression, of which every infix operator has at least the
/// precedence `min`. A token that begins no expression is an error, and is
/// not taken.
#[verifier::opaque]
pub open spec fn expression(src: Seq<char>, at: int, min: u8) -> Parsed<ExprV>
    decreases remaining(src, at), 2int,
{
    if begins_expression(token(src, at)) {
        proof {
            lemma_skip(src, at);
        }
        after(
            at,
            skip(src, at),
            expression_after(src, skip(src, at), token(src, at), span(src, at), min),
        )
    } else {
        fail(at, at, unexpected(src, at, None))
    }
}

/// An expression whose first token `first`, with the span `first_span`, has
/// been read: what that token begins, and the infix operators that follow.
#[verifier::opaque]
pub open spec fn expression_after(
    src: Seq<char>,
    at: int,
    first: Token,
    first_span: Span,
    min: u8,
) -> Parsed<ExprV>
    decreases remaining(src, at), 11int,
{
    let p = prefix(src, at, first, first_span);
    match p.out {
        Ok(lhs) => after(at, at + p.used, infix(src, at + p.used, lhs, min)),
        Err(_) => p,
    }
}

/// The infix operators, of precedence `min` at least, that follow the
/// expression `lhs`, each with its right operand, and the calls of it.
#[verifier::opaque]
pub open spec fn infix(src: Seq<char>, at: int, lhs: ExprV, min: u8) -> Parsed<ExprV>
    decreases remaining(src, at), 1int,
{
    let op = token(src, at);
    let at1 = skip(src, at);
    if infix_level(op) == 0 || infix_level(op) < min {
        done(at, at, lhs)
    } else if op is OpenParen {
        proof {
            lemma_skip(src, at);
        }
        let a = list(src, at1, Token::CloseParen, Seq::empty());
        match a.out {
            Ok((args, close)) => after(
                at,
                at1 + a.used,
                infix(
                    src,
                    at1 + a.used,
                    (
                        ExprView::Call { callee: Box::new(lhs), args },
                        Span { start: lhs.1.start, end: close.end },
                    ),
                    min,
                ),
            ),
            Err(e) => fail(at, at1 + a.used, e),
        }
    } else {
        proof {
            lemma_skip(src, at);
        }
        let r = expression(src, at1, operand_level(op));
        match r.out {
            Ok(rhs) => after(
                at,
                at1 + r.used,
                infix(src, at1 + r.used, binary(op, lhs, rhs), min),
            ),
            Err(e) => fail(at, at1 + r.used, e),
        }
    }
}

/// What the token `first` begins, once it has been read: a literal, a name,
/// a group or tuple, an array, a unary operation, a block, a conditional or
/// a loop.
#[verifier::opaque]
pub open spec fn prefix(src: Seq<char>, at: int, first: Token, first_span: Span) -> Parsed<ExprV>
    decreases remaining(src, at), 10int,
{
    match first {
        Token::Integer(text) => match integer_value(text) {
            Some(v) => done(at, at, (ExprView::Literal(LiteralView::Int(v)), first_span)),
            None => fail(at, at, out_of_range(first_span)),
        },
        Token::String(text) => done(
            at,
            at,
            (ExprView::Literal(LiteralView::String(text)), first_span),
        ),
        Token::True => done(at, at, (ExprView::Literal(LiteralView::Bool(true)), first_span)),
        Token::False => done(at, at, (ExprView::Literal(LiteralView::Bool(false)), first_span)),
        Token::Ident(name) => done(at, at, (ExprView::Ident(name), first_span)),
        Token::OpenParen => grouping(src, at, first_span),
        Token::Minus | Token::Bang => unary(src, at, first, first_span),
        Token::OpenBracket => array(src, at, first_span),
        Token::Do => block(src, at, first_span, Seq::empty()),
        Token::If => conditional(src, at, first_span),
        Token::For => for_loop(src, at, first_span),
        Token::While => while_loop(src, at, first_span),
        _ => fail(
            at,
            at,
            ParserErrorView { kind: ErrorKindView::Unexpected(first, first_span), help: None },
        ),
    }
}

/// What follows an opening parenthesis at `open`: one expression and the
/// closing parenthesis, which give that expression itself, or a tuple.
#[verifier::opaque]
pub open spec fn grouping(src: Seq<char>, at: int, open: Span) -> Parsed<ExprV>
    decreases remaining(src, at), 8int,
{
    let e = expression(src, at, LOWEST);
    match e.out {
        Ok(first) => {
            let at1 = at + e.used;
            if token(src, at1) is Comma {
                after(at, at1, tuple(src, at1, open, first))
            } else if token(src, at1) is CloseParen {
                done(at, skip(src, at1), first)
            } else {
                fail(
                    at,
                    at1,
                    expected(
                        src,
                        at1,
                        Token::CloseParen,
                        Some("Expeted to find a closing parenthesis."@),
                    ),
                )
            }
        },
        Err(_) => e,
    }
}

/// The rest of a tuple whose first item `first` has been read, from the
/// comma that follows it on.
#[verifier::opaque]
pub open spec fn tuple(src: Seq<char>, at: int, open: Span, first: ExprV) -> Parsed<ExprV>
    decreases remaining(src, at), 7int,
{
    if token(src, at) is Comma {
        proof {
            lemma_skip(src, at);
        }
        let at1 = skip(src, at);
        let l = list(src, at1, Token::CloseParen, seq![first]);
        match l.out {
            Ok((items, close)) => done(
                at,
                at1 + l.used,
                (ExprView::Tuple(items), Span { start: open.start, end: close.end }),
            ),
            Err(e) => fail(at, at1 + l.used, e),
        }
    } else {
        fail(at, at, expected(src, at, Token::Comma, Some("Did you forget a comma?"@)))
    }
}

/// The rest of a list of expressions, up to and with the token `close` that
/// ends it. The expressions are separated by commas, and a comma may follow
/// the last one. `items` holds the expressions before `at`.
#[verifier::opaque]
pub open spec fn list(src: Seq<char>, at: int, close: Token, items: Seq<ExprV>) -> Parsed<
    (Seq<ExprV>, Span),
>
    decreases remaining(src, at), 7int,
{
    if token(src, at) == close {
        done(at, skip(src, at), (items, span(src, at)))
    } else {
        let e = expression(src, at, LOWEST);
        match e.out {
            Ok(item) => {
                let at1 = at + e.used;
                let items1 = items.push(item);
                if token(src, at1) == close {
                    done(at, skip(src, at1), (items1, span(src, at1)))
                } else if token(src, at1) is Comma {
                    proof {
                        lemma_skip(src, at1);
                    }
                    after(at, skip(src, at1), list(src, skip(src, at1), close, items1))
                } else {
                    fail(
                        at,
                        at1,
                        expected(src, at1, Token::Comma, Some("Did you forget a comma?"@)),
                    )
                }
            },
            Err(err) => fail(at, at + e.used, err),
        }
    }
}

/// The operand of the unary operator `op`, and the operation.
#[verifier::opaque]
pub open spec fn unary(src: Seq<char>, at: int, op: Token, op_span: Span) -> Parsed<ExprV>
    decreases remaining(src, at), 8int,
{
    let e = expression(src, at, UNARY);
    match e.out {
        Ok(rhs) => done(
            at,
            at + e.used,
            (
                ExprView::Unary { op, rhs: Box::new(rhs) },
                Span { start: op_span.start, end: rhs.1.end },
            ),
        ),
        Err(_) => e,
    }
}

/// What follows an opening bracket at `open`: the items of an array and the
/// closing bracket.
#[verifier::opaque]
pub open spec fn array(src: Seq<char>, at: int, open: Span) -> Parsed<ExprV>
    decreases remaining(src, at), 8int,
{
    let l = list(src, at, Token::CloseBracket, Seq::empty());
    match l.out {
        Ok((items, close)) => done(
            at,
            at + l.used,
            (ExprView::Array(items), Span { start: open.start, end: close.end }),
        ),
        Err(e) => fail(at, at + l.used, e),
    }
}

/// The rest of a block that `do` opened at `open`: statements up to `end`.
/// `statements` holds the statements before `at`.
#[verifier::opaque]
pub open spec fn block(src: Seq<char>, at: int, open: Span, statements: Seq<StatementV>)
    -> Parsed<ExprV>
    decreases remaining(src, at), 7int,
{
    let first = token(src, at);
    if first is End {
        done(
            at,
            skip(src, at),
            (ExprView::Block(statements), Span { start: open.start, end: span(src, at).end }),
        )
    } else if first is EoF {
        fail(at, at, expected(src, at, Token::End, Some("Did you forget an `end`?"@)))
    } else if begins_statement(first) {
        proof {
            lemma_skip(src, at);
        }
        let at1 = skip(src, at);
        let s = statement_after(src, at1, first, span(src, at));
        match s.out {
            Ok(statement) => after(
                at,
                at1 + s.used,
                block(src, at1 + s.used, open, statements.push(statement)),
            ),
            Err(e) => fail(at, at1 + s.used, e),
        }
    } else {
        fail(at, at, unexpected(src, at, None))
    }
}

/// A block: `do`, statements, and `end`.
#[verifier::opaque]
pub open spec fn do_block(src: Seq<char>, at: int) -> Parsed<ExprV>
    decreases remaining(src, at), 6int,
{
    if token(src, at) is Do {
        proof {
            lemma_skip(src, at);
        }
        after(at, skip(src, at), block(src, skip(src, at), span(src, at), Seq::empty()))
    } else {
        fail(at, at, expected(src, at, Token::Do, None))
    }
}

/// What follows `if`: the condition, the block, and the expression after
/// `else` where there is one.
#[verifier::opaque]
pub open spec fn conditional(src: Seq<char>, at: int, keyword: Span) -> Parsed<ExprV>
    decreases remaining(src, at), 8int,
{
    let c = expression(src, at, LOWEST);
    match c.out {
        Ok(condition) => {
            let at1 = at + c.used;
            let b = do_block(src, at1);
            match b.out {
                Ok(body) => {
                    let at2 = at1 + b.used;
                    if token(src, at2) is Else {
                        proof {
                            lemma_skip(src, at2);
                        }
                        let at3 = skip(src, at2);
                        let e = expression(src, at3, LOWEST);
                        match e.out {
                            Ok(other) => done(
                                at,
                                at3 + e.used,
                                (
                                    ExprView::If {
                                        condition: Box::new(condition),
                                        body: Box::new(body),
                                        else_: Some(Box::new(other)),
                                    },
                                    Span { start: keyword.start, end: other.1.end },
                                ),
                            ),
                            Err(err) => fail(at, at3 + e.used, err),
                        }
                    } else {
                        done(
                            at,
                            at2,
                            (
                                ExprView::If {
                                    condition: Box::new(condition),
                                    body: Box::new(body),
                                    else_: None,
                                },
                                Span { start: keyword.start, end: body.1.end },
                            ),
                        )
                    }
                },
                Err(e) => fail(at, at1 + b.used, e),
            }
        },
        Err(_) => c,
    }
}

/// What follows `for`: the variable, `in`, the sequence, and the block.
#[verifier::opaque]
pub open spec fn for_loop(src: Seq<char>, at: int, keyword: Span) -> Parsed<ExprV>
    decreases remaining(src, at), 8int,
{
    let v = expression(src, at, LOWEST);
    match v.out {
        Ok(var) => {
            let at1 = at + v.used;
            if token(src, at1) == in_word() {
                proof {
                    lemma_skip(src, at1);
                }
                let at2 = skip(src, at1);
                let i = expression(src, at2, LOWEST);
                match i.out {
                    Ok(iter) => {
                        let at3 = at2 + i.used;
                        let b = do_block(src, at3);
                        match b.out {
                            Ok(body) => done(
                                at,
                                at3 + b.used,
                                (
                                    ExprView::For {
                                        var: Box::new(var),
                                        iter: Box::new(iter),
                                        body: Box::new(body),
                                    },
                                    Span { start: keyword.start, end: body.1.end },
                                ),
                            ),
                            Err(e) => fail(at, at3 + b.used, e),
                        }
                    },
                    Err(e) => fail(at, at2 + i.used, e),
                }
            } else {
                fail(at, at1, expected(src, at1, in_word(), None))
            }
        },
        Err(_) => v,
    }
}

/// What follows `while`: the condition and the block.
#[verifier::opaque]
pub open spec fn while_loop(src: Seq<char>, at: int, keyword: Span) -> Parsed<ExprV>
    decreases remaining(src, at), 8int,
{
    let c = expression(src, at, LOWEST);
    match c.out {
        Ok(condition) => {
            let at1 = at + c.used;
            let b = do_block(src, at1);
            match b.out {
                Ok(body) => done(
                    at,
                    at1 + b.used,
                    (
                        ExprView::While { expr: Box::new(condition), body: Box::new(body) },
                        Span { start: keyword.start, end: body.1.end },
                    ),
                ),
                Err(e) => fail(at, at1 + b.used, e),
            }
        },
        Err(_) => c,
    }
}

/// The infix loop takes every operator that it may: where it ends well,
/// the token that follows is no infix operator of precedence `min` or
/// higher.
pub proof fn lemma_infix_is_maximal(src: Seq<char>, at: int, lhs: ExprV, min: u8)
    ensures
        infix(src, at, lhs, min).out is Ok ==> {
            let next = token(src, at + infix(src, at, lhs, min).used);
            infix_level(next) == 0 || infix_level(next) < min
        },
    decreases remaining(src, at),
{
    reveal_with_fuel(infix, 1);
    reveal_with_fuel(list, 1);
    reveal_with_fuel(expression, 1);
    let op = token(src, at);
    let at1 = skip(src, at);
    if infix_level(op) == 0 || infix_level(op) < min {
    } else {
        lemma_skip(src, at);
        if op is OpenParen {
            let a = list(src, at1, Token::CloseParen, Seq::empty());
            match a.out {
                Ok((args, close)) => {
                    let call = (
                        ExprView::Call { callee: Box::new(lhs), args },
                        Span { start: lhs.1.start, end: close.end },
                    );
                    if infix(src, at, lhs, min).out is Ok {
                        lemma_infix_is_maximal(src, at1 + a.used, call, min);
                    }
                },
                Err(_) => {},
            }
        } else {
            let r = expression(src, at1, operand_level(op));
            match r.out {
                Ok(rhs) => {
                    if infix(src, at, lhs, min).out is Ok {
                        lemma_infix_is_maximal(src, at1 + r.used, binary(op, lhs, rhs), min);
                    }
                },
                Err(_) => {},
            }
        }
    }
}

/// An expression takes every operator that it may: where it parses, the
/// token that follows is no infix operator of precedence `min` or higher.
pub proof fn lemma_expression_is_maximal(src: Seq<char>, at: int, min: u8)
    ensures
        expression(src, at, min).out is Ok ==> {
            let next = token(src, at + expression(src, at, min).used);
            infix_level(next) == 0 || infix_level(next) < min
        },
{
    reveal_with_fuel(expression, 1);
    reveal_with_fuel(expression_after, 1);
    reveal_with_fuel(prefix, 1);
    reveal_with_fuel(infix, 1);
    if !(token(src, at) is EoF) {
        lemma_skip(src, at);
        let at1 = skip(src, at);
        let p = prefix(src, at1, token(src, at), span(src, at));
        match p.out {
            Ok(lhs) => {
                lemma_infix_is_maximal(src, at1 + p.used, lhs, min);
            },
            Err(_) => {},
        }
    }
}

/// A statement. A token that begins no statement is an error, and is not
/// taken.
#[verifier::opaque]
pub open spec fn statement(src: Seq<char>, at: int) -> Parsed<StatementV> {
    if begins_statement(token(src, at)) {
        after(at, skip(src, at), statement_after(src, skip(src, at), token(src, at), span(src, at)))
    } else {
        fail(at, at, unexpected(src, at, None))
    }
}

/// A statement whose first token `first`, with the span `first_span`, has
/// been read: `return` with its value, `let` with the name and its value,
/// `fun` with a function, or an expression.
#[verifier::opaque]
pub open spec fn statement_after(src: Seq<char>, at: int, first: Token, first_span: Span)
    -> Parsed<StatementV>
    decreases remaining(src, at), 12int,
{
    match first {
        Token::Return => {
            let e = expression(src, at, LOWEST);
            match e.out {
                Ok(value) => done(
                    at,
                    at + e.used,
                    (
                        StatementView::Return(value),
                        Span { start: first_span.start, end: value.1.end },
                    ),
                ),
                Err(err) => fail(at, at + e.used, err),
            }
        },
        Token::Let => match token(src, at) {
            Token::Ident(name) => {
                let at1 = skip(src, at);
                if token(src, at1) is Equal {
                    proof {
                        lemma_skip(src, at);
                        lemma_skip(src, at1);
                    }
                    let at2 = skip(src, at1);
                    let e = expression(src, at2, LOWEST);
                    match e.out {
                        Ok(value) => done(
                            at,
                            at2 + e.used,
                            (
                                StatementView::Let {
                                    name: (ExprView::Ident(name), span(src, at)),
                                    value,
                                },
                                Span { start: first_span.start, end: value.1.end },
                            ),
                        ),
                        Err(err) => fail(at, at2 + e.used, err),
                    }
                } else {
                    fail(at, at1, expected(src, at1, Token::Equal, None))
                }
            },
            _ => fail(at, at, unexpected(src, at, Some("Expected a name."@))),
        },
        Token::Fun => function(src, at, first_span),
        _ => {
            let e = expression_after(src, at, first, first_span, LOWEST);
            match e.out {
                Ok(value) => done(at, at + e.used, (StatementView::Expression(value), value.1)),
                Err(err) => fail(at, at + e.used, err),
            }
        },
    }
}

/// What follows `fun`: the name, which the word `pub` may precede, the
/// parameters in parentheses, `->` with the type of the result where it is
/// given, and the block.
#[verifier::opaque]
pub open spec fn function(src: Seq<char>, at: int, keyword: Span) -> Parsed<StatementV>
    decreases remaining(src, at), 9int,
{
    match token(src, at) {
        Token::Ident(word) => {
            let at1 = skip(src, at);
            let public = word == "pub"@ && token(src, at1) is Ident;
            let name = if public {
                (ExprView::Ident(token(src, at1)->Ident_0), span(src, at1))
            } else {
                (ExprView::Ident(word), span(src, at))
            };
            let at2 = if public {
                skip(src, at1)
            } else {
                at1
            };
            if token(src, at2) is OpenParen {
                let at3 = skip(src, at2);
                let p = params(src, at3, Seq::empty(), Seq::empty());
                match p.out {
                    Ok((names, types)) => {
                        let at4 = at3 + p.used;
                        let r = optional_annotation(src, at4, Token::Arrow);
                        match r.out {
                            Ok(return_annotation) => {
                                let at5 = at4 + r.used;
                                proof {
                                    lemma_skip(src, at);
                                    lemma_skip(src, at1);
                                    lemma_skip(src, at2);
                                }
                                let b = do_block(src, at5);
                                match b.out {
                                    Ok(body) => done(
                                        at,
                                        at5 + b.used,
                                        (
                                            StatementView::Function {
                                                name,
                                                public,
                                                params: names,
                                                annotations: types,
                                                return_annotation,
                                                body,
                                            },
                                            Span { start: keyword.start, end: body.1.end },
                                        ),
                                    ),
                                    Err(e) => fail(at, at5 + b.used, e),
                                }
                            },
                            Err(e) => fail(at, at4 + r.used, e),
                        }
                    },
                    Err(e) => fail(at, at3 + p.used, e),
                }
            } else {
                fail(at, at2, expected(src, at2, Token::OpenParen, None))
            }
        },
        _ => fail(at, at, unexpected(src, at, Some("Expected a function name."@))),
    }
}

/// An expression or a statement that parses takes at least one token, and
/// so does a statement that fails after a token which may begin one: the
/// error of a statement that takes nothing is at a token which begins none.
pub proof fn lemma_progress(src: Seq<char>, at: int, min: u8)
    ensures
        expression(src, at, min).out is Ok ==> expression(src, at, min).used > 0,
        statement(src, at).out is Ok ==> statement(src, at).used > 0,
        begins_statement(token(src, at)) ==> statement(src, at).used > 0,
        !begins_statement(token(src, at)) ==> statement(src, at).out == Err::<
            StatementV,
            ParserErrorView,
        >(unexpected(src, at, None)),
{
    reveal_with_fuel(expression, 1);
    reveal(statement);
    lemma_skip(src, at);
}

/// The position at which the parser takes up its work after an error: that
/// of the first token at or after `at` that is one of the keywords `fun`,
/// `let`, `return`, `if`, `for` and `while`, or of the end of input.
#[verifier::opaque]
pub open spec fn synchronize(src: Seq<char>, at: int) -> int
    decreases remaining(src, at),
{
    if token(src, at) is EoF || resumes(token(src, at)) {
        at
    } else {
        proof {
            lemma_skip(src, at);
        }
        synchronize(src, skip(src, at))
    }
}

/// Synchronizing never moves backwards, and stops within the text at one
/// of those keywords, or at the end of input.
pub proof fn lemma_synchronize(src: Seq<char>, at: int)
    ensures
        at <= synchronize(src, at),
        at <= src.len() ==> synchronize(src, at) <= src.len(),
        token(src, synchronize(src, at)) is EoF || resumes(
            token(src, synchronize(src, at)),
        ),
    decreases remaining(src, at),
{
    reveal_with_fuel(synchronize, 1);
    if !(token(src, at) is EoF || resumes(token(src, at))) {
        lemma_skip(src, at);
        lemma_synchronize(src, skip(src, at));
    }
}

/// What parsing a whole source gives: the statements that were parsed, the
/// errors of those that were not, and the number of characters taken.
pub struct ParsedProgram {
    pub statements: Seq<StatementV>,
    pub errors: Seq<ParserErrorView>,
    pub used: nat,
}

/// The rest of a program from `at` on: statements up to the end of input.
/// After a statement that fails, its error is kept and the parser goes on
/// from where `synchronize` leads; a token that begins no statement is
/// passed over on the way. `statements` and `errors` hold what was found
/// before `at`.
#[verifier::opaque]
pub open spec fn program(
    src: Seq<char>,
    at: int,
    statements: Seq<StatementV>,
    errors: Seq<ParserErrorView>,
) -> ParsedProgram
    decreases remaining(src, at),
{
    let first = token(src, at);
    if first is EoF {
        ParsedProgram { statements, errors, used: 0 }
    } else if begins_statement(first) {
        let at1 = skip(src, at);
        let s = statement_after(src, at1, first, span(src, at));
        let at2 = at1 + s.used;
        proof {
            lemma_skip(src, at);
            lemma_synchronize(src, at2);
        }
        match s.out {
            Ok(statement) => {
                let rest = program(src, at2, statements.push(statement), errors);
                ParsedProgram { used: (at2 - at) as nat + rest.used, ..rest }
            },
            Err(e) => {
                let at3 = synchronize(src, at2);
                let rest = program(src, at3, statements, errors.push(e));
                ParsedProgram { used: (at3 - at) as nat + rest.used, ..rest }
            },
        }
    } else {
        proof {
            lemma_skip(src, at);
            lemma_synchronize(src, skip(src, at));
        }
        let at3 = synchronize(src, skip(src, at));
        let rest = program(src, at3, statements, errors.push(unexpected(src, at, None)));
        ParsedProgram { used: (at3 - at) as nat + rest.used, ..rest }
    }
}

} // verus!
