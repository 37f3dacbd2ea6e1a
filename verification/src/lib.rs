//! A compiler front end for parsing-expression grammars: it parses a token
//! stream into a grammar syntax tree, reports duplicate definitions, and
//! annotates every expression with the evaluation context (value, unvalued,
//! or both) that code generation must honour.

pub mod ast;
pub mod diagnostic;
pub mod token;
pub mod parser;
pub mod analysis;
pub mod typing;
