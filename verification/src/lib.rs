//! A tree-walking interpreter for a small dynamically typed scripting
//! language: scanner, parser, lexical scopes and a resumable evaluator.
//!
//! Numbers are IEEE 754 double precision values carried as their bit
//! patterns. The library compares and negates them itself; for everything
//! that needs a floating point unit (decoding a literal, arithmetic,
//! formatting) it hands a request to its host and takes the answer back.
//!
//! - [`scanner`] turns characters into tokens ([`token`]).
//! - [`parser`] turns tokens into statements ([`stmt`], [`expr`]) as
//!   [`grammar`] says, and goes on after an error.
//! - [`canonical`] writes statements back as tokens; [`round_trip`] shows
//!   that the parser reads them back as they were.
//! - [`interpreter`] runs statements, step by step as [`machine`] says, on
//!   the scopes of [`environment`], with the values of [`literal`] and
//!   [`function`].
//! - [`render`] makes text of values and syntax trees; [`errors`] are what
//!   parsing and running report.

pub mod number;
pub mod token;
pub mod literal;
pub mod function;
pub mod expr;
pub mod stmt;
pub mod errors;
pub mod environment;
pub mod scanner;
pub mod grammar;
pub mod canonical;
pub mod round_trip;
pub mod parser;
pub mod machine;
pub mod interpreter;
pub mod render;
pub mod resolver;
