//! A small dynamically typed scripting language of the Lox family: a scanner
//! from source text to tokens, a recursive-descent parser from tokens to
//! syntax trees, and an evaluator that runs those trees step by step against
//! a chain of lexical scopes. A resolver, which the evaluator does not need,
//! tells for the uses of local variables where they are declared.
//!
//! The library does no input or output and holds no floating-point code. A
//! number is carried as the bit pattern of an IEEE-754 double; whatever needs
//! the floating-point unit, the clock or the terminal is handed to the caller
//! as an [`interpreter::Action`], and the caller's answer comes back as an
//! [`interpreter::Reply`].
//!
//! What each part does is said by a specification of its own:
//! [`scanner`] holds that of the scanner beside the scanner, [`grammar`]
//! that of the [`parser`], and [`machine`] that of the [`interpreter`]. The
//! laws that these specifications obey are proved in [`laws`], [`places`],
//! [`progress`], [`lifetimes`] and [`contexts`].

// Data
pub mod bytes;
pub mod callable;
pub mod error;
pub mod expressions;
pub mod numbers;
pub mod statements;
pub mod text;
pub mod tokens;

// From text to trees
pub mod grammar;
pub mod parser;
pub mod resolver;
pub mod scanner;

// Running trees
pub mod environment;
pub mod interpreter;
pub mod machine;

// Laws
pub mod contexts;
pub mod laws;
pub mod lifetimes;
pub mod places;
pub mod progress;
