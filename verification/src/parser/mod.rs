//! The recursive-descent parser over a token stream.
pub mod event;
pub mod map;
pub mod parser;
pub mod program;
pub mod syntax;
pub mod token;
pub mod unit;

use vstd::prelude::*;
use crate::ast::program::Program;
use crate::parser::parser::{ParseError, Parser};
use crate::parser::program::{parse_program, program_view, spec_program, ProgramItems};
use crate::parser::syntax::{fails_with, Parsed};
use crate::parser::unit::kind_of_sections;
use crate::parser::token::{SourceLoc, Token, TokenKind};

verus! {

/// What parsing a whole token stream gives: the declarations and the
/// position of the closing `Eof`, or the failure. A stream must be
/// non-empty and end with `Eof`.
pub open spec fn spec_parse(toks: Seq<Token>) -> Parsed<ProgramItems> {
    if toks.len() == 0 {
        Err((SourceLoc { line: 0, column: 0, offset: 0 }, "Parser received an empty token stream"@))
    } else if toks.last().kind != TokenKind::Eof {
        Err((toks.last().loc, "Token stream must end with EOF"@))
    } else {
        spec_program(toks)
    }
}

/// Parses a token stream that ends with `Eof` into a program.
pub fn parse_tokens(tokens: Vec<Token>) -> (r: Result<Program, ParseError>)
    ensures
        r matches Ok(p) ==> spec_parse(tokens@) matches Ok((items, _)) && items == program_view(p),
        r matches Err(e) ==> fails_with(spec_parse(tokens@), e),
        r matches Ok(p) ==> forall|i: int| 0 <= i < p.units@.len() ==> (#[trigger] p.units@[i]).kind == kind_of_sections(p.units@[i].sections@)
            && p.units@[i].events@.len() == 0,
{
    let mut parser = Parser::new(tokens)?;
    parse_program(&mut parser)
}

} // verus!
