//! Grouped tagged unions as a source-generation stage.
//!
//! The library accepts the textual declaration of a "grouped enum" — a flat
//! set of variants partitioned into named groups — and emits the source text
//! of: one enum per group, one flattened wire enum, one dispatch enum with a
//! member per group, a total conversion from the wire enum to the dispatch
//! enum, and an implementation of the [`EnumGroup`] trait.  A second entry
//! point compiles a dispatch expression that converts a wire value and
//! matches on its group in one step.
//!
//! The pipeline is a stateless chain: characters are lexed into tokens,
//! tokens are parsed into an abstract syntax tree, and the tree is printed
//! back out as the generated declarations.  Payload types, attribute bodies,
//! binding patterns and arm bodies are carried as opaque token spans and
//! re-emitted verbatim.

use vstd::prelude::*;

pub mod token;
pub mod ast;
pub mod parser;
pub mod gen;
pub mod dispatch;
pub mod model;

use crate::token::lex;
use crate::token::lex_from;
use crate::token::str_to_chars;
use crate::token::LexError;
use crate::ast::EnumGroupInput;
use crate::parser::ParseError;
use crate::parser::parse_enum_group;
use crate::gen::define_output;
use crate::gen::generate_enum_group;
use crate::dispatch::parse_match;
use crate::dispatch::match_output;

verus! {

/// Interface implemented (by the generated code) for every wire enum: one
/// associated output type — the dispatch enum — and one total conversion.
pub trait EnumGroup {
    /// The grouped representation of this enum.
    type Group;

    /// Convert this enum into its grouped representation.
    fn into_group(self) -> Self::Group;
}

/// Why an invocation failed: in the lexer, or in the parser.  Either way
/// the failure is immediate and total — nothing is generated.
#[derive(Debug, Clone, Copy, PartialEq, Eq)]
pub enum Error {
    Lex(LexError),
    Parse(ParseError),
}

/// The whole pipeline for one grouped-union declaration: lex the source,
/// parse the declaration, and generate the group enums, the wire enum,
/// the dispatch enum, the conversion and the trait implementation.
/// Succeeds exactly when the lexer and the specification parser do, and
/// then returns exactly the text [`define_output`] states.
pub fn define_enum_group(src: &str) -> (r: Result<Vec<char>, Error>)
    ensures
        match lex_from(src@, 0) {
            Ok(toks) => match parse_enum_group(toks) {
                Ok(d) => r matches Ok(out) && out@ == define_output(d),
                Err((p, ex)) => r matches Err(e) && e matches Error::Parse(pe) && pe.at as int == p
                    && pe.expected == ex,
            },
            Err(p) => r matches Err(e) && e matches Error::Lex(le) && le.pos as int == p,
        },
{
    let chars = str_to_chars(src);
    let toks = match lex(&chars) {
        Ok(t) => t,
        Err(e) => {
            return Err(Error::Lex(e));
        },
    };
    let d = match EnumGroupInput::parse(&toks) {
        Ok(d) => d,
        Err(e) => {
            return Err(Error::Parse(e));
        },
    };
    Ok(generate_enum_group(&d))
}

/// The whole pipeline for one dispatch expression: lex the source, parse
/// the subject value, wire name and arms, and generate the converting,
/// value-producing match expression.  Succeeds exactly when the lexer and
/// the specification parser do, and then returns exactly the text
/// [`match_output`] states.
pub fn match_enum_group(src: &str) -> (r: Result<Vec<char>, Error>)
    ensures
        match lex_from(src@, 0) {
            Ok(toks) => match parse_match(toks) {
                Ok(m) => r matches Ok(out) && out@ == match_output(m),
                Err((p, ex)) => r matches Err(e) && e matches Error::Parse(pe) && pe.at as int == p
                    && pe.expected == ex,
            },
            Err(p) => r matches Err(e) && e matches Error::Lex(le) && le.pos as int == p,
        },
{
    let chars = str_to_chars(src);
    let toks = match lex(&chars) {
        Ok(t) => t,
        Err(e) => {
            return Err(Error::Lex(e));
        },
    };
    match crate::dispatch::parse_match_enum_group(&toks) {
        Ok(out) => Ok(out),
        Err(e) => Err(Error::Parse(e)),
    }
}

} // verus!
