//! A text format for branching dialogs and the state machine that plays it.
//!
//! A script is compiled in three steps: [`lexer`] splits the characters into tokens,
//! [`tokens`] groups them into mentions, links, commands and paragraphs of text, and
//! [`builder`] folds those into a [`parser::Dialog`]. [`player`] walks a dialog one
//! visible unit at a time.
pub mod text;
pub mod lexer;
pub mod parser;
pub mod tokens;
pub mod builder;
pub mod player;
pub mod prelude;
