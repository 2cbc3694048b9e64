//! Front end of a small expression language: a lexer that turns source text
//! into tokens, a recursive-descent parser that builds an expression tree, and
//! a printer that renders a tree in a fully parenthesised prefix form.
//!
//! Each stage is stated as a specification over plain values (`lex_from`,
//! `parse_tokens`, `ast_text`) that the executable code is proved to meet. The
//! `surface` module proves that the parser reads the tokens of any tree it
//! builds back to that same tree.
pub mod text;
pub mod token;
pub mod lexer;
pub mod expression;
pub mod parser;
pub mod ast_display;
pub mod surface;
