//! A verified core for a line-oriented arithmetic calculator.
//!
//! A line of text is turned into tokens by [`lexer::lex`], into an
//! expression tree by [`parser::Parser`], and into a linear evaluation
//! program by [`interpreter::compile`].  Running that program over
//! machine floating-point numbers is left to the (unverified) driver,
//! since floating-point arithmetic is outside the verified core; the
//! core instead pins down exactly which tokens, which tree and which
//! program every input line produces.
//!
//! The grammar is the full one, with a power layer (folded to the
//! left) and a unary square-root prefix, and every failure — a stray
//! character, a syntax error, a zero divisor — is reported as an error
//! value instead of faulting the process.

pub mod interpreter;
pub mod lexer;
pub mod parser;
