//! The abstract syntax tree: a tree-like representation of Alpaca's syntax.
//!
//! Each tree type has a mathematical value, its view, in which a string is
//! a sequence of characters and a list is a sequence of views.

use crate::span::{Span, Spanned};
use crate::tokens::{Token, TokenKind};
use vstd::prelude::*;

verus! {

/// Kinds of literals
#[derive(Debug, PartialEq)]
pub enum LiteralKind {
    /// Integer literal (`10`)
    Int(i64),
    /// Boolean literal (`true`, `false`)
    Bool(bool),
    /// String literal (`"foo"`)
    String(String),
}

/// Type annotations.
#[derive(Debug, PartialEq)]
pub enum Annotation {
    /// A named type (`int`)
    Single(String),
    /// A tuple of types (`(int, bool)`)
    Tuple(Vec<Annotation>),
    /// An array of types (`[int]`)
    Array(Vec<Annotation>),
    /// A function type (`fun(int, int) -> bool`)
    Function { arg_types: Vec<Annotation>, ret_type: Box<Annotation> },
}

/// An expression is an item that evaluates to some value.
#[derive(Debug, PartialEq)]
pub enum Expr {
    /// Literals (`10`, `"Hi"`)
    Literal(LiteralKind),
    /// Identifiers (`hello`, `foo`, `bar`)
    Ident(String),
    /// Tuples (`(1, 2, 3)`)
    Tuple(Vec<Spanned<Expr>>),
    /// Arrays (`[1, 2, 3]`)
    Array(Vec<Spanned<Expr>>),
    /// An unary operation (`!foo`, `-bar`)
    Unary { op: TokenKind, rhs: Box<Spanned<Expr>> },
    /// A binary operation (`5 + 5`)
    Binary { op: TokenKind, lhs: Box<Spanned<Expr>>, rhs: Box<Spanned<Expr>> },
    /// A function call (`foo()`)
    Call { callee: Box<Spanned<Expr>>, args: Vec<Spanned<Expr>> },
    /// A variable assignment (`foo = 10`)
    Assignment { name: Box<Spanned<Expr>>, value: Box<Spanned<Expr>> },
    /// A block
    ///
    /// `do <code> end`
    Block(Vec<Spanned<Statement>>),
    /// An `if` expression
    ///
    /// `if <expr> do <code> end else <expr>`
    If {
        condition: Box<Spanned<Expr>>,
        body: Box<Spanned<Expr>>,
        else_: Box<Option<Spanned<Expr>>>,
    },
    /// A for loop
    ///
    /// `for i in it do <code> end`
    For { var: Box<Spanned<Expr>>, iter: Box<Spanned<Expr>>, body: Box<Spanned<Expr>> },
    /// A while loop
    ///
    /// `while <expr> do <code> end`
    While { expr: Box<Spanned<Expr>>, body: Box<Spanned<Expr>> },
}

/// A statement is some standalone unit of code which does something, comprised
/// of one or more statements.
#[derive(Debug, PartialEq)]
pub enum Statement {
    /// An expression statement
    Expression(Spanned<Expr>),
    /// A return statement
    ///
    /// `return <expr>`
    Return(Spanned<Expr>),
    /// A `let` variable declaration
    ///
    /// `let <name> = <expr>`
    Let { name: Spanned<Expr>, value: Spanned<Expr> },
    /// A function declaration
    ///
    /// `fun <name>(<args>) do <code> end`
    Function {
        name: Spanned<Expr>,
        public: bool,
        params: Vec<String>,
        annotations: Vec<Spanned<Annotation>>,
        return_annotation: Option<Spanned<Annotation>>,
        body: Spanned<Expr>,
    },
}

/// The value of a `LiteralKind`.
pub enum LiteralView {
    Int(int),
    Bool(bool),
    String(Seq<char>),
}

/// The value of an `Annotation`.
pub enum AnnotationView {
    Single(Seq<char>),
    Tuple(Seq<AnnotationView>),
    Array(Seq<AnnotationView>),
    Function { arg_types: Seq<AnnotationView>, ret_type: Box<AnnotationView> },
}

/// The value of an `Expr`.
pub enum ExprView {
    Literal(LiteralView),
    Ident(Seq<char>),
    Tuple(Seq<(ExprView, Span)>),
    Array(Seq<(ExprView, Span)>),
    Unary { op: Token, rhs: Box<(ExprView, Span)> },
    Binary { op: Token, lhs: Box<(ExprView, Span)>, rhs: Box<(ExprView, Span)> },
    Call { callee: Box<(ExprView, Span)>, args: Seq<(ExprView, Span)> },
    Assignment { name: Box<(ExprView, Span)>, value: Box<(ExprView, Span)> },
    Block(Seq<(StatementView, Span)>),
    If {
        condition: Box<(ExprView, Span)>,
        body: Box<(ExprView, Span)>,
        else_: Option<Box<(ExprView, Span)>>,
    },
    For { var: Box<(ExprView, Span)>, iter: Box<(ExprView, Span)>, body: Box<(ExprView, Span)> },
    While { expr: Box<(ExprView, Span)>, body: Box<(ExprView, Span)> },
}

/// The value of a `Statement`.
pub enum StatementView {
    Expression((ExprView, Span)),
    Return((ExprView, Span)),
    Let { name: (ExprView, Span), value: (ExprView, Span) },
    Function {
        name: (ExprView, Span),
        public: bool,
        params: Seq<Seq<char>>,
        annotations: Seq<(AnnotationView, Span)>,
        return_annotation: Option<(AnnotationView, Span)>,
        body: (ExprView, Span),
    },
}

/// An expression's value with its span.
pub type ExprV = (ExprView, Span);

/// A statement's value with its span.
pub type StatementV = (StatementView, Span);

/// An annotation's value with its span.
pub type AnnotationV = (AnnotationView, Span);

impl View for LiteralKind {
    type V = LiteralView;

    open spec fn view(&self) -> LiteralView {
        match self {
            LiteralKind::Int(i) => LiteralView::Int(*i as int),
            LiteralKind::Bool(b) => LiteralView::Bool(*b),
            LiteralKind::String(s) => LiteralView::String(s@),
        }
    }
}

/// The values of a list of annotations.
pub open spec fn annotations_view(items: Seq<Annotation>) -> Seq<AnnotationView>
    decreases items,
{
    Seq::new(
        items.len(),
        |i: int|
            if 0 <= i < items.len() {
                items[i].view()
            } else {
                arbitrary()
            },
    )
}

impl View for Annotation {
    type V = AnnotationView;

    open spec fn view(&self) -> AnnotationView
        decreases self,
    {
        match self {
            Annotation::Single(s) => AnnotationView::Single(s@),
            Annotation::Tuple(items) => AnnotationView::Tuple(annotations_view(items@)),
            Annotation::Array(items) => AnnotationView::Array(annotations_view(items@)),
            Annotation::Function { arg_types, ret_type } => AnnotationView::Function {
                arg_types: annotations_view(arg_types@),
                ret_type: Box::new((**ret_type).view()),
            },
        }
    }
}

/// The value of an annotation with its span.
pub open spec fn annotation_view(a: Spanned<Annotation>) -> AnnotationV {
    (a.0@, a.1)
}

/// The values of a list of annotations with their spans.
pub open spec fn spanned_annotations_view(items: Seq<Spanned<Annotation>>) -> Seq<AnnotationV> {
    Seq::new(items.len(), |i: int| annotation_view(items[i]))
}

/// The values of a list of strings.
pub open spec fn names_view(items: Seq<String>) -> Seq<Seq<char>> {
    Seq::new(items.len(), |i: int| items[i]@)
}

/// The value of an expression with its span.
pub open spec fn expr_view(e: Spanned<Expr>) -> ExprV
    decreases e,
{
    (e.0.view(), e.1)
}

/// The values of a list of expressions with their spans.
pub open spec fn exprs_view(items: Seq<Spanned<Expr>>) -> Seq<ExprV>
    decreases items,
{
    Seq::new(
        items.len(),
        |i: int|
            if 0 <= i < items.len() {
                expr_view(items[i])
            } else {
                arbitrary()
            },
    )
}

/// The value of a statement with its span.
pub open spec fn statement_view(s: Spanned<Statement>) -> StatementV
    decreases s,
{
    (s.0.view(), s.1)
}

/// The values of a list of statements with their spans.
pub open spec fn statements_view(items: Seq<Spanned<Statement>>) -> Seq<StatementV>
    decreases items,
{
    Seq::new(
        items.len(),
        |i: int|
            if 0 <= i < items.len() {
                statement_view(items[i])
            } else {
                arbitrary()
            },
    )
}

impl View for Expr {
    type V = ExprView;

    open spec fn view(&self) -> ExprView
        decreases self,
    {
        match self {
            Expr::Literal(l) => ExprView::Literal(l@),
            Expr::Ident(s) => ExprView::Ident(s@),
            Expr::Tuple(items) => ExprView::Tuple(exprs_view(items@)),
            Expr::Array(items) => ExprView::Array(exprs_view(items@)),
            Expr::Unary { op, rhs } => ExprView::Unary { op: op@, rhs: Box::new(expr_view(**rhs)) },
            Expr::Binary { op, lhs, rhs } => ExprView::Binary {
                op: op@,
                lhs: Box::new(expr_view(**lhs)),
                rhs: Box::new(expr_view(**rhs)),
            },
            Expr::Call { callee, args } => ExprView::Call {
                callee: Box::new(expr_view(**callee)),
                args: exprs_view(args@),
            },
            Expr::Assignment { name, value } => ExprView::Assignment {
                name: Box::new(expr_view(**name)),
                value: Box::new(expr_view(**value)),
            },
            Expr::Block(items) => ExprView::Block(statements_view(items@)),
            Expr::If { condition, body, else_ } => ExprView::If {
                condition: Box::new(expr_view(**condition)),
                body: Box::new(expr_view(**body)),
                else_: match **else_ {
                    Some(e) => Some(Box::new(expr_view(e))),
                    None => None,
                },
            },
            Expr::For { var, iter, body } => ExprView::For {
                var: Box::new(expr_view(**var)),
                iter: Box::new(expr_view(**iter)),
                body: Box::new(expr_view(**body)),
            },
            Expr::While { expr, body } => ExprView::While {
                expr: Box::new(expr_view(**expr)),
                body: Box::new(expr_view(**body)),
            },
        }
    }
}

impl View for Statement {
    type V = StatementView;

    open spec fn view(&self) -> StatementView
        decreases self,
    {
        match self {
            Statement::Expression(e) => StatementView::Expression(expr_view(*e)),
            Statement::Return(e) => StatementView::Return(expr_view(*e)),
            Statement::Let { name, value } => StatementView::Let {
                name: expr_view(*name),
                value: expr_view(*value),
            },
            Statement::Function { name, public, params, annotations, return_annotation, body } =>
                StatementView::Function {
                name: expr_view(*name),
                public: *public,
                params: names_view(params@),
                annotations: spanned_annotations_view(annotations@),
                return_annotation: match return_annotation {
                    Some(a) => Some(annotation_view(*a)),
                    None => None,
                },
                body: expr_view(*body),
            },
        }
    }
}

} // verus!
