//! The passes, in the order in which a source text goes through them, and
//! what is proved of them.
//!
//! - [`token`], [`lexer`]: tokens and the tokenizer.
//! - [`ast`], [`output`]: the syntax tree and its printout.
//! - [`parser`]: the parser; [`grammar`] and [`complete`] show that it
//!   accepts exactly the programs of the grammar.
//! - [`symbol`]: the declaration check; [`scope`] says what it decides.
//! - [`store`], [`intr`]: the runtime store and the evaluator;
//!   [`evaluation`] says what a program means and shows that the evaluator
//!   runs it so.
//! - [`text`]: what is taken from the standard library without proof.

pub mod text;
pub mod token;
pub mod lexer;
pub mod ast;
pub mod output;
pub mod parser;
pub mod grammar;
pub mod complete;
pub mod symbol;
pub mod scope;
pub mod store;
pub mod intr;
pub mod evaluation;
