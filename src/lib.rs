//! An arithmetic expression evaluator built as a three-stage pipeline:
//! a tokenizer, a shunting-yard conversion to postfix order, and a postfix
//! reader that assembles the expression tree. Each stage is verified against
//! a specification of its result, errors included.
//!
//! Number literals are carried as spans into the input line, so the library
//! never holds a floating-point value: the caller reads each literal with its
//! own number parser and folds the tree with its own arithmetic. No input
//! that reaches the tree is rejected for what its numbers are: a division by
//! zero is left to that arithmetic (with IEEE doubles, an infinity or NaN).
//!
//! - `token`: operators, tokens and their precedence.
//! - `lexer`: the tokenizer.
//! - `postfix`: the shunting-yard conversion to postfix order.
//! - `tree`: the postfix reader and the whole pipeline.
//! - `laws`: what the stages guarantee together.
//! - `error`: why a line is rejected.

pub mod error;
pub mod laws;
pub mod lexer;
pub mod postfix;
pub mod token;
pub mod tree;
