//! The spans of a syntax tree: every span is well formed, and the span of
//! a node holds the spans of its children. The rules of the grammar build
//! only such trees, which is proved here rule by rule.

use crate::chars::{lemma_utf8_len_prefix, utf8_len};
use crate::lexer::{lemma_lex_bounds, offset};
use crate::parser::ast::{AnnotationV, ExprV, ExprView, StatementV, StatementView};
use crate::parser::grammar::{
    annotation, annotation_list, array, block, conditional, do_block, expression,
    expression_after, for_loop, function, grouping, infix, lemma_skip, list, optional_annotation,
    params, prefix, program, remaining, skip, span, statement, statement_after, token, tuple, unary,
    while_loop, Parsed,
};
use crate::span::Span;
use crate::tokens::Token;
use vstd::prelude::*;

verus! {

/// Whether `inner` is well formed and lies within `outer`.
pub open spec fn inside(inner: Span, outer: Span) -> bool {
    outer.start <= inner.start && inner.start <= inner.end && inner.end <= outer.end
}

/// Whether every expression of `items` is well spanned and lies within
/// `outer`.
pub open spec fn all_inside(items: Seq<ExprV>, outer: Span) -> bool
    decreases items,
{
    forall|i: int|
        0 <= i < items.len() ==> inside((#[trigger] items[i]).1, outer) && well_spanned(items[i])
}

/// Whether every statement of `items` is well spanned and lies within
/// `outer`.
pub open spec fn all_statements_inside(items: Seq<StatementV>, outer: Span) -> bool
    decreases items,
{
    forall|i: int|
        0 <= i < items.len() ==> inside((#[trigger] items[i]).1, outer) && well_spanned_statement(
            items[i],
        )
}

/// Whether the spans of the expression `e` are in order: the span of each
/// node of the tree is well formed and holds the spans of the node's
/// children.
pub open spec fn well_spanned(e: ExprV) -> bool
    decreases e,
{
    e.1.wf() && match e.0 {
        ExprView::Literal(_) => true,
        ExprView::Ident(_) => true,
        ExprView::Tuple(items) => all_inside(items, e.1),
        ExprView::Array(items) => all_inside(items, e.1),
        ExprView::Unary { op, rhs } => inside(rhs.1, e.1) && well_spanned(*rhs),
        ExprView::Binary { op, lhs, rhs } => inside(lhs.1, e.1) && well_spanned(*lhs) && inside(
            rhs.1,
            e.1,
        ) && well_spanned(*rhs),
        ExprView::Call { callee, args } => inside(callee.1, e.1) && well_spanned(*callee)
            && all_inside(args, e.1),
        ExprView::Assignment { name, value } => inside(name.1, e.1) && well_spanned(*name)
            && inside(value.1, e.1) && well_spanned(*value),
        ExprView::Block(statements) => all_statements_inside(statements, e.1),
        ExprView::If { condition, body, else_ } => inside(condition.1, e.1) && well_spanned(
            *condition,
        ) && inside(body.1, e.1) && well_spanned(*body) && match else_ {
            Some(other) => inside(other.1, e.1) && well_spanned(*other),
            None => true,
        },
        ExprView::For { var, iter, body } => inside(var.1, e.1) && well_spanned(*var) && inside(
            iter.1,
            e.1,
        ) && well_spanned(*iter) && inside(body.1, e.1) && well_spanned(*body),
        ExprView::While { expr, body } => inside(expr.1, e.1) && well_spanned(*expr) && inside(
            body.1,
            e.1,
        ) && well_spanned(*body),
    }
}

/// Whether the spans of the statement `s` are in order: its own span is
/// well formed and holds the spans of its parts, which are in order too.
pub open spec fn well_spanned_statement(s: StatementV) -> bool
    decreases s,
{
    s.1.wf() && match s.0 {
        StatementView::Expression(e) => inside(e.1, s.1) && well_spanned(e),
        StatementView::Return(e) => inside(e.1, s.1) && well_spanned(e),
        StatementView::Let { name, value } => inside(name.1, s.1) && well_spanned(name) && inside(
            value.1,
            s.1,
        ) && well_spanned(value),
        StatementView::Function { name, public, params, annotations, return_annotation, body } =>
            inside(name.1, s.1) && well_spanned(name) && inside(body.1, s.1) && well_spanned(body)
                && (forall|i: int|
                0 <= i < annotations.len() ==> inside((#[trigger] annotations[i]).1, s.1))
                && match return_annotation {
                Some(a) => inside(a.1, s.1),
                None => true,
            },
    }
}

/// Whether byte offsets into `src` fit the machine's words.
pub open spec fn fits(src: Seq<char>) -> bool {
    utf8_len(src) <= usize::MAX
}

/// Whether the span `s` is well formed and ends at or before the position
/// `at`.
pub open spec fn before(src: Seq<char>, s: Span, at: int) -> bool {
    s.start <= s.end && s.end <= offset(src, at)
}

/// What holds of the outcome `p` of a rule for an expression that began at
/// the position `at`, with `from` as the byte offset of its first token:
/// the tree is well spanned, and its span lies between `from` and the end
/// of what the rule took, which lies within the text.
pub open spec fn sound(src: Seq<char>, from: int, at: int, p: Parsed<ExprV>) -> bool {
    at + p.used <= src.len() && match p.out {
        Ok(e) => well_spanned(e) && from <= e.1.start && e.1.end <= offset(src, at + p.used),
        Err(_) => true,
    }
}

/// The same of a rule for a statement.
pub open spec fn sound_statement(src: Seq<char>, from: int, at: int, p: Parsed<StatementV>)
    -> bool {
    at + p.used <= src.len() && match p.out {
        Ok(s) => well_spanned_statement(s) && from <= s.1.start && s.1.end <= offset(
            src,
            at + p.used,
        ),
        Err(_) => true,
    }
}

/// The same of a rule for a type annotation.
pub open spec fn sound_annotation(src: Seq<char>, from: int, at: int, p: Parsed<AnnotationV>)
    -> bool {
    at + p.used <= src.len() && match p.out {
        Ok(a) => from <= a.1.start && a.1.start <= a.1.end && a.1.end <= offset(src, at + p.used),
        Err(_) => true,
    }
}

/// Byte offsets grow with positions, and stay within the text's length.
pub proof fn lemma_offset_order(src: Seq<char>, a: int, b: int)
    requires
        0 <= a <= b <= src.len(),
    ensures
        offset(src, a) <= offset(src, b) <= utf8_len(src),
{
    lemma_utf8_len_prefix(src, a, b);
    lemma_utf8_len_prefix(src, b, src.len() as int);
    assert(src.take(src.len() as int) =~= src);
}

/// The span of a token lies between the position at which the token is
/// read and the position that follows it.
pub proof fn lemma_token_span(src: Seq<char>, at: int)
    requires
        fits(src),
        0 <= at <= src.len(),
    ensures
        at <= skip(src, at) <= src.len(),
        offset(src, at) <= span(src, at).start,
        before(src, span(src, at), skip(src, at)),
{
    reveal(token);
    reveal(span);
    reveal(skip);
    lemma_lex_bounds(src, at);
    let l = crate::lexer::lex(src, at);
    lemma_offset_order(src, at, l.start);
    lemma_offset_order(src, l.start, l.end);
    lemma_offset_order(src, l.end, l.next);
}

/// A span that ends before a position ends before every later one.
pub proof fn lemma_before_later(src: Seq<char>, s: Span, at: int, later: int)
    requires
        before(src, s, at),
        0 <= at <= later <= src.len(),
    ensures
        before(src, s, later),
{
    lemma_offset_order(src, at, later);
}

/// What holds of a list that a rule read up to the position `end`, with
/// the span `close` of the token that ended it: the items are well
/// spanned and lie between the byte offset `from` and that token.
pub open spec fn listed(src: Seq<char>, from: int, end: int, items: Seq<ExprV>, close: Span)
    -> bool {
    &&& from <= close.start
    &&& before(src, close, end)
    &&& end <= src.len()
    &&& forall|i: int|
        0 <= i < items.len() ==> from <= (#[trigger] items[i]).1.start && well_spanned(items[i])
            && items[i].1.end <= close.start
}

/// Whether the expressions `items` are well spanned and lie between the
/// byte offset `from` and the position `at`.
pub open spec fn items_before(src: Seq<char>, from: int, at: int, items: Seq<ExprV>) -> bool {
    forall|i: int|
        0 <= i < items.len() ==> from <= (#[trigger] items[i]).1.start && well_spanned(items[i])
            && items[i].1.end <= offset(src, at)
}

/// Whether the statements `items` are well spanned and lie between the
/// byte offset `from` and the position `at`.
pub open spec fn statements_before(src: Seq<char>, from: int, at: int, items: Seq<StatementV>)
    -> bool {
    forall|i: int|
        0 <= i < items.len() ==> from <= (#[trigger] items[i]).1.start && well_spanned_statement(
            items[i],
        ) && items[i].1.end <= offset(src, at)
}

/// Whether the annotations `items` have well-formed spans that lie between
/// the byte offset `from` and the position `at`.
pub open spec fn annotations_before(src: Seq<char>, from: int, at: int, items: Seq<AnnotationV>)
    -> bool {
    forall|i: int|
        0 <= i < items.len() ==> from <= (#[trigger] items[i]).1.start && before(
            src,
            items[i].1,
            at,
        )
}

/// A type annotation has a well-formed span within what the rule took.
pub proof fn lemma_annotation(src: Seq<char>, at: int)
    requires
        fits(src),
        0 <= at <= src.len(),
    ensures
        sound_annotation(src, offset(src, at) as int, at, annotation(src, at)),
    decreases remaining(src, at), 0int,
{
    reveal_with_fuel(annotation, 1);
    reveal_with_fuel(annotation_list, 1);
    lemma_token_span(src, at);
    lemma_skip(src, at);
    let at1 = skip(src, at);
    match token(src, at) {
        Token::OpenParen => {
            lemma_annotation_list(src, at1, Token::CloseParen, Seq::empty());
        },
        Token::OpenBracket => {
            lemma_annotation_list(src, at1, Token::CloseBracket, Seq::empty());
        },
        Token::Fun => {
            if token(src, at1) is OpenParen {
                lemma_token_span(src, at1);
                lemma_skip(src, at1);
                let at2 = skip(src, at1);
                let l = annotation_list(src, at2, Token::CloseParen, Seq::empty());
                lemma_annotation_list(src, at2, Token::CloseParen, Seq::empty());
                if l.out is Ok {
                    let at3 = at2 + l.used;
                    if token(src, at3) is Arrow {
                        lemma_token_span(src, at3);
                        lemma_skip(src, at3);
                        let at4 = skip(src, at3);
                        lemma_annotation(src, at4);
                        lemma_offset_order(src, at1, at4);
                    }
                }
            }
        },
        _ => {},
    }
}

/// A list of type annotations ends with a token whose span is well formed
/// and lies within what the rule took.
pub proof fn lemma_annotation_list(
    src: Seq<char>,
    at: int,
    close: Token,
    items: Seq<crate::parser::ast::AnnotationView>,
)
    requires
        fits(src),
        0 <= at <= src.len(),
    ensures
        at + annotation_list(src, at, close, items).used <= src.len(),
        match annotation_list(src, at, close, items).out {
            Ok((_, end)) => offset(src, at) <= end.start && before(
                src,
                end,
                at + annotation_list(src, at, close, items).used,
            ),
            Err(_) => true,
        },
    decreases remaining(src, at), 1int,
{
    reveal_with_fuel(annotation_list, 1);
    reveal_with_fuel(annotation, 1);
    lemma_token_span(src, at);
    if token(src, at) != close {
        let a = annotation(src, at);
        lemma_annotation(src, at);
        match a.out {
            Ok(item) => {
                let at1 = at + a.used;
                lemma_token_span(src, at1);
                lemma_offset_order(src, at, at1);
                if token(src, at1) != close && token(src, at1) is Comma {
                    lemma_skip(src, at1);
                    lemma_annotation_list(src, skip(src, at1), close, items.push(item.0));
                    lemma_offset_order(src, at, skip(src, at1));
                }
            },
            Err(_) => {},
        }
    }
}

/// An annotation that may be left out has, where it is there, a
/// well-formed span within what the rule took.
pub proof fn lemma_optional_annotation(src: Seq<char>, at: int, intro: Token)
    requires
        fits(src),
        0 <= at <= src.len(),
    ensures
        at + optional_annotation(src, at, intro).used <= src.len(),
        match optional_annotation(src, at, intro).out {
            Ok(Some(a)) => offset(src, at) <= a.1.start && before(
                src,
                a.1,
                at + optional_annotation(src, at, intro).used,
            ),
            _ => true,
        },
{
    reveal(optional_annotation);
    lemma_token_span(src, at);
    if token(src, at) == intro {
        lemma_annotation(src, skip(src, at));
    }
}

/// The annotations of the parameters of a function have well-formed spans
/// within what the rule took.
pub proof fn lemma_params(
    src: Seq<char>,
    at: int,
    names: Seq<Seq<char>>,
    types: Seq<AnnotationV>,
    from: int,
)
    requires
        fits(src),
        0 <= at <= src.len(),
        from <= offset(src, at),
        annotations_before(src, from, at, types),
    ensures
        at + params(src, at, names, types).used <= src.len(),
        match params(src, at, names, types).out {
            Ok((_, all)) => annotations_before(
                src,
                from,
                at + params(src, at, names, types).used,
                all,
            ),
            Err(_) => true,
        },
    decreases remaining(src, at),
{
    reveal_with_fuel(params, 1);
    lemma_token_span(src, at);
    lemma_skip(src, at);
    match token(src, at) {
        Token::CloseParen => {},
        Token::Ident(name) => {
            let at1 = skip(src, at);
            let a = optional_annotation(src, at1, Token::Colon);
            lemma_optional_annotation(src, at1, Token::Colon);
            match a.out {
                Ok(ann) => {
                    let at2 = at1 + a.used;
                    let types1 = match ann {
                        Some(t) => types.push(t),
                        None => types,
                    };
                    lemma_token_span(src, at2);
                    lemma_skip(src, at2);
                    lemma_offset_order(src, at, at1);
                    lemma_offset_order(src, at1, at2);
                    lemma_offset_order(src, at2, skip(src, at2));
                    assert(annotations_before(src, from, skip(src, at2), types1));
                    if !(token(src, at2) is CloseParen) && token(src, at2) is Comma {
                        lemma_params(src, skip(src, at2), names.push(name), types1, from);
                    }
                },
                Err(_) => {},
            }
        },
        _ => {},
    }
}

/// An expression is well spanned, and its span lies within what the rule
/// took.
pub proof fn lemma_expression(src: Seq<char>, at: int, min: u8)
    requires
        fits(src),
        0 <= at <= src.len(),
    ensures
        sound(src, offset(src, at) as int, at, expression(src, at, min)),
    decreases remaining(src, at), 2int,
{
    reveal_with_fuel(expression, 1);
    reveal_with_fuel(expression_after, 1);
    lemma_token_span(src, at);
    if crate::parser::grammar::begins_expression(token(src, at)) {
        lemma_skip(src, at);
        lemma_expression_after(src, skip(src, at), token(src, at), span(src, at), min);
    }
}

/// An expression whose first token was read is well spanned, and its span
/// lies between that token and the end of what the rule took.
pub proof fn lemma_expression_after(src: Seq<char>, at: int, first: Token, first_span: Span, min: u8)
    requires
        fits(src),
        0 <= at <= src.len(),
        before(src, first_span, at),
    ensures
        sound(src, first_span.start as int, at, expression_after(src, at, first, first_span, min)),
    decreases remaining(src, at), 11int,
{
    reveal_with_fuel(expression_after, 1);
    reveal_with_fuel(prefix, 1);
    reveal_with_fuel(infix, 1);
    let p = prefix(src, at, first, first_span);
    lemma_prefix(src, at, first, first_span);
    match p.out {
        Ok(lhs) => {
            lemma_infix(src, at + p.used, lhs, min);
        },
        Err(_) => {},
    }
}

/// The infix operators after a well-spanned expression give a well-spanned
/// expression that starts where that one starts.
pub proof fn lemma_infix(src: Seq<char>, at: int, lhs: ExprV, min: u8)
    requires
        fits(src),
        0 <= at <= src.len(),
        well_spanned(lhs),
        lhs.1.end <= offset(src, at),
    ensures
        sound(src, lhs.1.start as int, at, infix(src, at, lhs, min)),
        infix(src, at, lhs, min).out is Ok ==> infix(src, at, lhs, min).out->Ok_0.1.start
            == lhs.1.start,
    decreases remaining(src, at), 1int,
{
    reveal_with_fuel(well_spanned, 2);
    reveal_with_fuel(infix, 1);
    reveal_with_fuel(list, 1);
    reveal_with_fuel(expression, 1);
    let op = token(src, at);
    let at1 = skip(src, at);
    lemma_token_span(src, at);
    let level = crate::parser::grammar::infix_level(op);
    if level == 0 || level < min {
    } else if op is OpenParen {
        lemma_skip(src, at);
        let a = list(src, at1, Token::CloseParen, Seq::empty());
        lemma_list(src, at1, Token::CloseParen, Seq::empty(), lhs.1.start as int);
        match a.out {
            Ok((args, close)) => {
                let call = (
                    ExprView::Call { callee: Box::new(lhs), args },
                    Span { start: lhs.1.start, end: close.end },
                );
                assert(well_spanned(call));
                lemma_infix(src, at1 + a.used, call, min);
            },
            Err(_) => {},
        }
    } else {
        lemma_skip(src, at);
        let r = expression(src, at1, crate::parser::grammar::operand_level(op));
        lemma_expression(src, at1, crate::parser::grammar::operand_level(op));
        match r.out {
            Ok(rhs) => {
                let node = crate::parser::grammar::binary(op, lhs, rhs);
                assert(well_spanned(node));
                lemma_infix(src, at1 + r.used, node, min);
            },
            Err(_) => {},
        }
    }
}

/// What a token begins is well spanned, and its span lies between that
/// token and the end of what the rule took.
pub proof fn lemma_prefix(src: Seq<char>, at: int, first: Token, first_span: Span)
    requires
        fits(src),
        0 <= at <= src.len(),
        before(src, first_span, at),
    ensures
        sound(src, first_span.start as int, at, prefix(src, at, first, first_span)),
    decreases remaining(src, at), 10int,
{
    reveal_with_fuel(prefix, 1);
    reveal_with_fuel(grouping, 1);
    reveal_with_fuel(unary, 1);
    reveal_with_fuel(array, 1);
    reveal_with_fuel(block, 1);
    reveal_with_fuel(conditional, 1);
    reveal_with_fuel(for_loop, 1);
    reveal_with_fuel(while_loop, 1);
    match first {
        Token::OpenParen => {
            lemma_grouping(src, at, first_span);
        },
        Token::Minus | Token::Bang => {
            lemma_unary(src, at, first, first_span);
        },
        Token::OpenBracket => {
            lemma_array(src, at, first_span);
        },
        Token::Do => {
            lemma_block(src, at, first_span, Seq::empty());
        },
        Token::If => {
            lemma_conditional(src, at, first_span);
        },
        Token::For => {
            lemma_for_loop(src, at, first_span);
        },
        Token::While => {
            lemma_while_loop(src, at, first_span);
        },
        _ => {},
    }
}

/// A group or tuple is well spanned, and its span lies between the opening
/// parenthesis and the end of what the rule took.
pub proof fn lemma_grouping(src: Seq<char>, at: int, open: Span)
    requires
        fits(src),
        0 <= at <= src.len(),
        before(src, open, at),
    ensures
        sound(src, open.start as int, at, grouping(src, at, open)),
    decreases remaining(src, at), 8int,
{
    reveal_with_fuel(grouping, 1);
    reveal_with_fuel(expression, 1);
    reveal_with_fuel(tuple, 1);
    let e = expression(src, at, crate::parser::grammar::LOWEST);
    lemma_expression(src, at, crate::parser::grammar::LOWEST);
    match e.out {
        Ok(first) => {
            let at1 = at + e.used;
            lemma_token_span(src, at1);
            if token(src, at1) is Comma {
                lemma_offset_order(src, at, at1);
                lemma_tuple(src, at1, open, first);
            }
        },
        Err(_) => {},
    }
}

/// A tuple is well spanned, and its span lies between the opening
/// parenthesis and the end of what the rule took.
pub proof fn lemma_tuple(src: Seq<char>, at: int, open: Span, first: ExprV)
    requires
        fits(src),
        0 <= at <= src.len(),
        before(src, open, at),
        well_spanned(first),
        open.start <= first.1.start,
        first.1.end <= offset(src, at),
    ensures
        sound(src, open.start as int, at, tuple(src, at, open, first)),
    decreases remaining(src, at), 7int,
{
    reveal_with_fuel(well_spanned, 2);
    reveal_with_fuel(tuple, 1);
    reveal_with_fuel(list, 1);
    if token(src, at) is Comma {
        lemma_skip(src, at);
        lemma_token_span(src, at);
        let at1 = skip(src, at);
        let l = list(src, at1, Token::CloseParen, seq![first]);
        assert(items_before(src, open.start as int, at1, seq![first]));
        lemma_list(src, at1, Token::CloseParen, seq![first], open.start as int);
        match l.out {
            Ok((items, close)) => {
                let node = (ExprView::Tuple(items), Span { start: open.start, end: close.end });
                assert(well_spanned(node));
            },
            Err(_) => {},
        }
    }
}

/// The items of a list are well spanned and lie in order before the token
/// that ends the list.
pub proof fn lemma_list(src: Seq<char>, at: int, close: Token, items: Seq<ExprV>, from: int)
    requires
        fits(src),
        0 <= at <= src.len(),
        from <= offset(src, at),
        items_before(src, from, at, items),
    ensures
        at + list(src, at, close, items).used <= src.len(),
        match list(src, at, close, items).out {
            Ok((all, end)) => offset(src, at) <= end.start && listed(
                src,
                from,
                at + list(src, at, close, items).used,
                all,
                end,
            ),
            Err(_) => true,
        },
    decreases remaining(src, at), 7int,
{
    reveal_with_fuel(list, 1);
    reveal_with_fuel(expression, 1);
    lemma_token_span(src, at);
    if token(src, at) != close {
        let e = expression(src, at, crate::parser::grammar::LOWEST);
        lemma_expression(src, at, crate::parser::grammar::LOWEST);
        match e.out {
            Ok(item) => {
                let at1 = at + e.used;
                let items1 = items.push(item);
                lemma_token_span(src, at1);
                lemma_offset_order(src, at, at1);
                assert(items_before(src, from, at1, items1));
                if token(src, at1) != close && token(src, at1) is Comma {
                    lemma_skip(src, at1);
                    lemma_offset_order(src, at1, skip(src, at1));
                    assert(items_before(src, from, skip(src, at1), items1));
                    lemma_list(src, skip(src, at1), close, items1, from);
                }
            },
            Err(_) => {},
        }
    }
}

/// A unary operation is well spanned, and its span lies between the
/// operator and the end of what the rule took.
pub proof fn lemma_unary(src: Seq<char>, at: int, op: Token, op_span: Span)
    requires
        fits(src),
        0 <= at <= src.len(),
        before(src, op_span, at),
    ensures
        sound(src, op_span.start as int, at, unary(src, at, op, op_span)),
    decreases remaining(src, at), 8int,
{
    reveal_with_fuel(unary, 1);
    reveal_with_fuel(expression, 1);
    lemma_expression(src, at, crate::parser::grammar::UNARY);
    let e = expression(src, at, crate::parser::grammar::UNARY);
    match e.out {
        Ok(rhs) => {
            let node = (
                ExprView::Unary { op, rhs: Box::new(rhs) },
                Span { start: op_span.start, end: rhs.1.end },
            );
            assert(well_spanned(node));
        },
        Err(_) => {},
    }
}

/// An array is well spanned, and its span lies between the opening bracket
/// and the end of what the rule took.
pub proof fn lemma_array(src: Seq<char>, at: int, open: Span)
    requires
        fits(src),
        0 <= at <= src.len(),
        before(src, open, at),
    ensures
        sound(src, open.start as int, at, array(src, at, open)),
    decreases remaining(src, at), 8int,
{
    reveal_with_fuel(well_spanned, 2);
    reveal_with_fuel(array, 1);
    reveal_with_fuel(list, 1);
    let l = list(src, at, Token::CloseBracket, Seq::empty());
    lemma_list(src, at, Token::CloseBracket, Seq::empty(), open.start as int);
    match l.out {
        Ok((items, close)) => {
            let node = (ExprView::Array(items), Span { start: open.start, end: close.end });
            assert(well_spanned(node));
        },
        Err(_) => {},
    }
}

/// A block is well spanned, and its span lies between `do` and the end of
/// what the rule took.
pub proof fn lemma_block(src: Seq<char>, at: int, open: Span, statements: Seq<StatementV>)
    requires
        fits(src),
        0 <= at <= src.len(),
        before(src, open, at),
        statements_before(src, open.start as int, at, statements),
    ensures
        sound(src, open.start as int, at, block(src, at, open, statements)),
    decreases remaining(src, at), 7int,
{
    reveal_with_fuel(well_spanned, 2);
    reveal_with_fuel(block, 1);
    reveal_with_fuel(statement_after, 1);
    let first = token(src, at);
    lemma_token_span(src, at);
    if first is End {
        let node = (
            ExprView::Block(statements),
            Span { start: open.start, end: span(src, at).end },
        );
        assert(well_spanned(node));
    } else if first is EoF {
    } else if crate::parser::grammar::begins_statement(first) {
        lemma_skip(src, at);
        let at1 = skip(src, at);
        let s = statement_after(src, at1, first, span(src, at));
        lemma_statement_after(src, at1, first, span(src, at));
        match s.out {
            Ok(statement) => {
                let at2 = at1 + s.used;
                lemma_offset_order(src, at, at2);
                lemma_before_later(src, open, at, at2);
                assert(statements_before(src, open.start as int, at2, statements.push(statement)));
                lemma_block(src, at2, open, statements.push(statement));
            },
            Err(_) => {},
        }
    }
}

/// A block with its `do` is well spanned, and its span lies within what the
/// rule took.
pub proof fn lemma_do_block(src: Seq<char>, at: int)
    requires
        fits(src),
        0 <= at <= src.len(),
    ensures
        sound(src, offset(src, at) as int, at, do_block(src, at)),
    decreases remaining(src, at), 6int,
{
    reveal_with_fuel(do_block, 1);
    reveal_with_fuel(block, 1);
    lemma_token_span(src, at);
    if token(src, at) is Do {
        lemma_skip(src, at);
        lemma_block(src, skip(src, at), span(src, at), Seq::empty());
    }
}

/// A conditional is well spanned, and its span lies between `if` and the
/// end of what the rule took.
pub proof fn lemma_conditional(src: Seq<char>, at: int, keyword: Span)
    requires
        fits(src),
        0 <= at <= src.len(),
        before(src, keyword, at),
    ensures
        sound(src, keyword.start as int, at, conditional(src, at, keyword)),
    decreases remaining(src, at), 8int,
{
    reveal_with_fuel(conditional, 1);
    reveal_with_fuel(expression, 1);
    reveal_with_fuel(do_block, 1);
    let c = expression(src, at, crate::parser::grammar::LOWEST);
    lemma_expression(src, at, crate::parser::grammar::LOWEST);
    match c.out {
        Ok(condition) => {
            let at1 = at + c.used;
            let b = do_block(src, at1);
            lemma_do_block(src, at1);
            lemma_offset_order(src, at, at1);
            match b.out {
                Ok(body) => {
                    let at2 = at1 + b.used;
                    lemma_token_span(src, at2);
                    lemma_offset_order(src, at1, at2);
                    if token(src, at2) is Else {
                        lemma_skip(src, at2);
                        let at3 = skip(src, at2);
                        let e = expression(src, at3, crate::parser::grammar::LOWEST);
                        lemma_expression(src, at3, crate::parser::grammar::LOWEST);
                        match e.out {
                            Ok(other) => {
                                let node = (
                                    ExprView::If {
                                        condition: Box::new(condition),
                                        body: Box::new(body),
                                        else_: Some(Box::new(other)),
                                    },
                                    Span { start: keyword.start, end: other.1.end },
                                );
                                assert(well_spanned(node));
                            },
                            Err(_) => {},
                        }
                    } else {
                        let node = (
                            ExprView::If {
                                condition: Box::new(condition),
                                body: Box::new(body),
                                else_: None,
                            },
                            Span { start: keyword.start, end: body.1.end },
                        );
                        assert(well_spanned(node));
                    }
                },
                Err(_) => {},
            }
        },
        Err(_) => {},
    }
}

/// A `for` loop is well spanned, and its span lies between `for` and the
/// end of what the rule took.
pub proof fn lemma_for_loop(src: Seq<char>, at: int, keyword: Span)
    requires
        fits(src),
        0 <= at <= src.len(),
        before(src, keyword, at),
    ensures
        sound(src, keyword.start as int, at, for_loop(src, at, keyword)),
    decreases remaining(src, at), 8int,
{
    reveal_with_fuel(for_loop, 1);
    reveal_with_fuel(expression, 1);
    reveal_with_fuel(do_block, 1);
    let v = expression(src, at, crate::parser::grammar::LOWEST);
    lemma_expression(src, at, crate::parser::grammar::LOWEST);
    match v.out {
        Ok(var) => {
            let at1 = at + v.used;
            lemma_token_span(src, at1);
            lemma_offset_order(src, at, at1);
            if token(src, at1) == crate::parser::grammar::in_word() {
                lemma_skip(src, at1);
                let at2 = skip(src, at1);
                let i = expression(src, at2, crate::parser::grammar::LOWEST);
                lemma_expression(src, at2, crate::parser::grammar::LOWEST);
                match i.out {
                    Ok(iter) => {
                        let at3 = at2 + i.used;
                        let b = do_block(src, at3);
                        lemma_do_block(src, at3);
                        lemma_offset_order(src, at2, at3);
                        match b.out {
                            Ok(body) => {
                                let node = (
                                    ExprView::For {
                                        var: Box::new(var),
                                        iter: Box::new(iter),
                                        body: Box::new(body),
                                    },
                                    Span { start: keyword.start, end: body.1.end },
                                );
                                assert(well_spanned(node));
                            },
                            Err(_) => {},
                        }
                    },
                    Err(_) => {},
                }
            }
        },
        Err(_) => {},
    }
}

/// A `while` loop is well spanned, and its span lies between `while` and
/// the end of what the rule took.
pub proof fn lemma_while_loop(src: Seq<char>, at: int, keyword: Span)
    requires
        fits(src),
        0 <= at <= src.len(),
        before(src, keyword, at),
    ensures
        sound(src, keyword.start as int, at, while_loop(src, at, keyword)),
    decreases remaining(src, at), 8int,
{
    reveal_with_fuel(while_loop, 1);
    reveal_with_fuel(expression, 1);
    reveal_with_fuel(do_block, 1);
    let c = expression(src, at, crate::parser::grammar::LOWEST);
    lemma_expression(src, at, crate::parser::grammar::LOWEST);
    match c.out {
        Ok(condition) => {
            let at1 = at + c.used;
            let b = do_block(src, at1);
            lemma_do_block(src, at1);
            lemma_offset_order(src, at, at1);
            match b.out {
                Ok(body) => {
                    let node = (
                        ExprView::While { expr: Box::new(condition), body: Box::new(body) },
                        Span { start: keyword.start, end: body.1.end },
                    );
                    assert(well_spanned(node));
                },
                Err(_) => {},
            }
        },
        Err(_) => {},
    }
}

/// A statement whose first token was read is well spanned, and its span
/// lies between that token and the end of what the rule took.
pub proof fn lemma_statement_after(src: Seq<char>, at: int, first: Token, first_span: Span)
    requires
        fits(src),
        0 <= at <= src.len(),
        before(src, first_span, at),
    ensures
        sound_statement(
            src,
            first_span.start as int,
            at,
            statement_after(src, at, first, first_span),
        ),
    decreases remaining(src, at), 12int,
{
    reveal_with_fuel(statement_after, 1);
    reveal_with_fuel(expression, 1);
    reveal_with_fuel(expression_after, 1);
    reveal_with_fuel(function, 1);
    match first {
        Token::Return => {
            lemma_expression(src, at, crate::parser::grammar::LOWEST);
        },
        Token::Let => {
            lemma_token_span(src, at);
            match token(src, at) {
                Token::Ident(name) => {
                    let at1 = skip(src, at);
                    lemma_token_span(src, at1);
                    if token(src, at1) is Equal {
                        lemma_skip(src, at);
                        lemma_skip(src, at1);
                        let at2 = skip(src, at1);
                        lemma_expression(src, at2, crate::parser::grammar::LOWEST);
                        lemma_offset_order(src, at1, at2);
                    }
                },
                _ => {},
            }
        },
        Token::Fun => {
            lemma_function(src, at, first_span);
        },
        _ => {
            lemma_expression_after(src, at, first, first_span, crate::parser::grammar::LOWEST);
        },
    }
}

/// A function is well spanned, and its span lies between `fun` and the end
/// of what the rule took.
pub proof fn lemma_function(src: Seq<char>, at: int, keyword: Span)
    requires
        fits(src),
        0 <= at <= src.len(),
        before(src, keyword, at),
    ensures
        sound_statement(src, keyword.start as int, at, function(src, at, keyword)),
    decreases remaining(src, at), 9int,
{
    reveal_with_fuel(function, 1);
    reveal_with_fuel(do_block, 1);
    lemma_token_span(src, at);
    match token(src, at) {
        Token::Ident(word) => {
            let at1 = skip(src, at);
            lemma_token_span(src, at1);
            let public = word == "pub"@ && token(src, at1) is Ident;
            let at2 = if public {
                skip(src, at1)
            } else {
                at1
            };
            lemma_token_span(src, at2);
            lemma_offset_order(src, at, at1);
            lemma_offset_order(src, at1, at2);
            if token(src, at2) is OpenParen {
                let at3 = skip(src, at2);
                let p = params(src, at3, Seq::empty(), Seq::empty());
                lemma_offset_order(src, at2, at3);
                lemma_params(src, at3, Seq::empty(), Seq::empty(), keyword.start as int);
                match p.out {
                    Ok((names, types)) => {
                        let at4 = at3 + p.used;
                        let r = optional_annotation(src, at4, Token::Arrow);
                        lemma_optional_annotation(src, at4, Token::Arrow);
                        lemma_offset_order(src, at3, at4);
                        match r.out {
                            Ok(return_annotation) => {
                                let at5 = at4 + r.used;
                                lemma_skip(src, at);
                                lemma_skip(src, at1);
                                lemma_skip(src, at2);
                                lemma_offset_order(src, at4, at5);
                                lemma_do_block(src, at5);
                            },
                            Err(_) => {},
                        }
                    },
                    Err(_) => {},
                }
            }
        },
        _ => {},
    }
}

/// A statement is well spanned, and its span lies within what the rule
/// took.
pub proof fn lemma_statement(src: Seq<char>, at: int)
    requires
        fits(src),
        0 <= at <= src.len(),
    ensures
        sound_statement(src, offset(src, at) as int, at, statement(src, at)),
{
    reveal(statement);
    lemma_token_span(src, at);
    if crate::parser::grammar::begins_statement(token(src, at)) {
        lemma_skip(src, at);
        lemma_statement_after(src, skip(src, at), token(src, at), span(src, at));
    }
}

/// Whether every statement of `items` is well spanned.
pub open spec fn all_well_spanned(items: Seq<StatementV>) -> bool {
    forall|i: int| 0 <= i < items.len() ==> well_spanned_statement(#[trigger] items[i])
}

/// The statements of a program are well spanned, and the program is read
/// to the end of input.
pub proof fn lemma_program(
    src: Seq<char>,
    at: int,
    statements: Seq<StatementV>,
    errors: Seq<crate::parser::error::ParserErrorView>,
)
    requires
        fits(src),
        0 <= at <= src.len(),
        all_well_spanned(statements),
    ensures
        all_well_spanned(program(src, at, statements, errors).statements),
        at + program(src, at, statements, errors).used <= src.len(),
        token(src, at + program(src, at, statements, errors).used) is EoF,
    decreases remaining(src, at),
{
    reveal_with_fuel(program, 1);
    let first = token(src, at);
    lemma_skip(src, at);
    lemma_token_span(src, at);
    let at1 = skip(src, at);
    if first is EoF {
    } else if crate::parser::grammar::begins_statement(first) {
        let s = statement_after(src, at1, first, span(src, at));
        lemma_statement_after(src, at1, first, span(src, at));
        let at2 = at1 + s.used;
        match s.out {
            Ok(statement) => {
                assert(all_well_spanned(statements.push(statement)));
                lemma_program(src, at2, statements.push(statement), errors);
            },
            Err(e) => {
                crate::parser::grammar::lemma_synchronize(src, at2);
                lemma_program(
                    src,
                    crate::parser::grammar::synchronize(src, at2),
                    statements,
                    errors.push(e),
                );
            },
        }
    } else {
        crate::parser::grammar::lemma_synchronize(src, at1);
        lemma_program(
            src,
            crate::parser::grammar::synchronize(src, at1),
            statements,
            errors.push(crate::parser::grammar::unexpected(src, at, None)),
        );
    }
}

} // verus!
