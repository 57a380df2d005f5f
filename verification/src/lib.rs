//! A conformance-focused JSON (RFC 8259) parsing engine.
//!
//! Bytes become code points, code points become tokens, and a stack-based
//! automaton checks the tokens against the grammar, handing out the
//! instructions from which a document tree is built.

/// Functions to parse a JSON text
pub mod ast;
/// A stack-based automaton to read a stream of Tokens.
pub mod automaton;
/// A source of characters, decoded from bytes
pub mod chars;
/// Common error types
pub mod err;
/// The grammar of JSON
pub mod grammar;
/// Common tasks in parsing, on a source of characters
pub mod idioms;
/// Common tasks in parsing, on a slice of characters
pub mod idioms_slice;
/// The interface of a tokenizer
pub mod lexer;
/// A tokenizer on a slice of characters
pub mod lexer_slice;
/// The decimal numbers of JSON
pub mod number;
/// What is taken from the standard library without proof
pub mod text;
/// The tokens of JSON
pub mod token;
/// How the outcome of a validation is reported
pub mod valider;
/// The document tree
pub mod value;
/// How values are written as text
pub mod writing;
