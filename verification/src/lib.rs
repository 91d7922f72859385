//! Front end of a small declarative scripting language: a lexer that turns
//! source text into tokens, a recursive-descent parser that builds a
//! precedence-correct syntax tree, and the type-name resolution and numeric
//! casts that evaluating `as` needs.
//!
//! What the code does is stated in mathematics and proved of the code:
//!
//! - [`lexical`] says which lexeme starts at each position of a text, and
//!   [`lexer`] is the lexer that is proved against it;
//! - [`syntax`] holds the trees, statements and errors as mathematical
//!   values, [`grammar`] says what each rule makes of a sequence of lexemes,
//!   and [`parser`] holds the rule functions that are proved against it;
//! - [`laws`] proves of the grammar that it reads every well-formed tree
//!   back from its spelling, so that operators bind as the precedence ladder
//!   says;
//! - [`value`] holds the values with their types and casts, [`ieee`] the
//!   bits of the floating-point numbers that integers are cast to,
//!   [`semantics`] what expressions and statements mean, and [`interpreter`]
//!   the evaluator that is proved against it;
//! - [`trusted`] holds the contracts that are taken on trust.
pub mod trusted;
pub mod text;
pub mod token;
pub mod lexical;
pub mod lexer;
pub mod syntax;
pub mod grammar;
pub mod parser;
pub mod laws;
pub mod ieee;
pub mod value;
pub mod semantics;
pub mod interpreter;
