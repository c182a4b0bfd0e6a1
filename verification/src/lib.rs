//! Front end of the Alpaca language: a tokenizer that hands out tokens on
//! demand, and a precedence-climbing parser that turns them into a syntax
//! tree.
//!
//! Every executable function carries a contract over a mathematical model
//! of the source text (a sequence of characters), and the contracts are
//! proved by Verus.

pub mod chars;
pub mod lexer;
pub mod parser;
pub mod span;
pub mod tokens;
