//! A small imperative scripting language: variables, `print`,
//! `if`/`elseif`/`else`, `while`, arithmetic on numbers and comparisons.
//!
//! A source text passes through a tokenizer, a recursive-descent parser
//! that builds a syntax tree, a check of the declarations, and an evaluator
//! that runs the tree one transition at a time. Output and arithmetic are
//! not done here: the evaluator asks whoever drives it for them.

pub mod interpreter;
