//! Parsing of `event` declarations.
use vstd::prelude::*;
use vstd::string::*;
use crate::ast::event::{EventDecl, EventField, EventType, PrimitiveType};
use crate::parser::parser::{ParseError, Parser};
use crate::parser::token::{Token, TokenKind};
use crate::parser::syntax::{fail, fails, fails_with, gives, outside, spec_item_end, Parsed};

verus! {

/// The scalar type a type keyword names.
pub open spec fn prim_of(k: TokenKind) -> Option<PrimitiveType> {
    match k {
        TokenKind::TypeU32 => Some(PrimitiveType::U32),
        TokenKind::TypeU64 => Some(PrimitiveType::U64),
        TokenKind::TypeI32 => Some(PrimitiveType::I32),
        TokenKind::TypeI64 => Some(PrimitiveType::I64),
        _ => None,
    }
}

/// The scalar event type of a primitive.
pub open spec fn scalar_of(p: PrimitiveType) -> EventType {
    match p {
        PrimitiveType::U32 => EventType::U32,
        PrimitiveType::U64 => EventType::U64,
        PrimitiveType::I32 => EventType::I32,
        PrimitiveType::I64 => EventType::I64,
    }
}

/// A `[N]` suffix at `p`: the length, truncated to 32 bits, and the
/// position after it; `message` is reported when the number has no value.
pub open spec fn spec_len_suffix(toks: Seq<Token>, p: int, message: Seq<char>) -> Parsed<u32> {
    if fails(toks, p, TokenKind::LBracket) {
        Err(fail(toks, p, TokenKind::LBracket))
    } else if fails(toks, p + 1, TokenKind::Number) {
        Err(fail(toks, p + 1, TokenKind::Number))
    } else if toks[p + 1].int_value is None {
        Err((toks[p + 1].loc, message))
    } else if fails(toks, p + 2, TokenKind::RBracket) {
        Err(fail(toks, p + 2, TokenKind::RBracket))
    } else {
        Ok((toks[p + 1].int_value->0 as u32, p + 3))
    }
}

/// The event field type written at `p`, and the position after it.
pub open spec fn spec_event_type(toks: Seq<Token>, p: int) -> Parsed<EventType> {
    if !(0 <= p < toks.len()) {
        Err(outside())
    } else {
        match prim_of(toks[p].kind) {
            Some(prim) => if p + 1 < toks.len() && toks[p + 1].kind == TokenKind::LBracket {
                match spec_len_suffix(toks, p + 1, "Invalid array length"@) {
                    Ok((len, q)) => Ok((EventType::Array { elem: prim, len }, q)),
                    Err(e) => Err(e),
                }
            } else {
                Ok((scalar_of(prim), p + 1))
            },
            None => if toks[p].kind == TokenKind::KeywordBytes {
                match spec_len_suffix(toks, p + 1, "Invalid bytes length"@) {
                    Ok((len, q)) => Ok((EventType::Bytes(len), q)),
                    Err(e) => Err(e),
                }
            } else {
                Err((toks[p].loc, "Invalid event field type"@))
            },
        }
    }
}

/// The field `name: type` written at `p`, ended by `;` or `,` or followed
/// directly by the closing brace, and the position after it.
pub open spec fn spec_event_field(toks: Seq<Token>, p: int) -> Parsed<EventField> {
    if fails(toks, p, TokenKind::Identifier) {
        Err(fail(toks, p, TokenKind::Identifier))
    } else if fails(toks, p + 1, TokenKind::Colon) {
        Err(fail(toks, p + 1, TokenKind::Colon))
    } else {
        match spec_event_type(toks, p + 2) {
            Ok((ty, q)) => match spec_item_end(toks, q, TokenKind::RBrace) {
                Ok(e) => Ok((EventField { name: toks[p].lexeme, ty, loc: toks[p].loc }, e)),
                Err(x) => Err(x),
            },
            Err(e) => Err(e),
        }
    }
}

/// The fields written from `p` up to a closing brace, appended to `acc`,
/// and the brace's position.
pub open spec fn spec_event_fields(toks: Seq<Token>, p: int, acc: Seq<EventField>) -> Parsed<Seq<EventField>>
    decreases toks.len() - p,
{
    if !(0 <= p < toks.len()) {
        Err(outside())
    } else if toks[p].kind == TokenKind::RBrace {
        Ok((acc, p))
    } else {
        match spec_event_field(toks, p) {
            Ok((f, q)) => if p < q <= toks.len() { spec_event_fields(toks, q, acc.push(f)) } else { Err(outside()) },
            Err(e) => Err(e),
        }
    }
}

/// The event declaration written at `p`: its name and fields, and the
/// position after it.
pub open spec fn spec_event(toks: Seq<Token>, p: int) -> Parsed<(String, Seq<EventField>)> {
    if fails(toks, p, TokenKind::KeywordEvent) {
        Err(fail(toks, p, TokenKind::KeywordEvent))
    } else if fails(toks, p + 1, TokenKind::Identifier) {
        Err(fail(toks, p + 1, TokenKind::Identifier))
    } else if fails(toks, p + 2, TokenKind::LBrace) {
        Err(fail(toks, p + 2, TokenKind::LBrace))
    } else {
        match spec_event_fields(toks, p + 3, Seq::empty()) {
            Ok((fields, end)) => Ok(((toks[p + 1].lexeme, fields), end + 1)),
            Err(e) => Err(e),
        }
    }
}

/// Parses `event name { field: type; ... }`, where `,` may stand for `;`
/// and the last field needs neither.
pub fn parse_event(parser: &mut Parser) -> (r: Result<EventDecl, ParseError>)
    requires
        old(parser).wf(),
    ensures
        final(parser).wf(),
        final(parser).toks() == old(parser).toks(),
        old(parser).pos() <= final(parser).pos(),
        r is Ok ==> old(parser).pos() < final(parser).pos(),
        r matches Ok(e) ==> gives(spec_event(old(parser).toks(), old(parser).pos()), (e.name, e.fields@), final(parser).pos())
            && e.loc == old(parser).toks()[old(parser).pos() + 1].loc,
        r matches Err(e) ==> fails_with(spec_event(old(parser).toks(), old(parser).pos()), e),
{
    let ghost toks = parser.toks();
    let ghost p0 = parser.pos();
    parser.expect(TokenKind::KeywordEvent)?;
    let name_tok = parser.expect(TokenKind::Identifier)?;
    let name = name_tok.lexeme;
    let loc = name_tok.loc;
    parser.expect(TokenKind::LBrace)?;
    let ghost start = parser.pos();
    assert(start == p0 + 3);

    let mut fields: Vec<EventField> = Vec::new();
    assert(spec_event_fields(toks, start, Seq::empty()) matches Err(x) ==> spec_event(toks, p0) matches Err(y) && y == x);
    while !parser.check(TokenKind::RBrace)
        invariant
            spec_event_fields(toks, start, Seq::empty()) matches Err(x) ==> spec_event(toks, p0) matches Err(y) && y == x,
            parser.wf(),
            parser.toks() == toks,
            toks == old(parser).toks(),
            p0 == old(parser).pos(),
            start == p0 + 3,
            start <= parser.pos(),
            spec_event_fields(toks, start, Seq::empty()) == spec_event_fields(toks, parser.pos(), fields@),
        decreases parser.remaining(),
    {
        let f = parse_event_field(parser)?;
        fields.push(f);
    }
    parser.expect(TokenKind::RBrace)?;
    Ok(EventDecl { name, fields, loc })
}

/// Parses `name: type` and the `;` or `,` after it, if any.
fn parse_event_field(parser: &mut Parser) -> (r: Result<EventField, ParseError>)
    requires
        old(parser).wf(),
    ensures
        final(parser).wf(),
        final(parser).toks() == old(parser).toks(),
        old(parser).pos() <= final(parser).pos(),
        r is Ok ==> old(parser).pos() < final(parser).pos(),
        r matches Ok(f) ==> gives(spec_event_field(old(parser).toks(), old(parser).pos()), f, final(parser).pos()),
        r matches Err(e) ==> fails_with(spec_event_field(old(parser).toks(), old(parser).pos()), e),
{
    let name_tok = parser.expect(TokenKind::Identifier)?;
    let name = name_tok.lexeme;
    let loc = name_tok.loc;
    parser.expect(TokenKind::Colon)?;
    let ty = parse_event_type(parser)?;
    parser.end_item(TokenKind::RBrace)?;
    Ok(EventField { name, ty, loc })
}

/// Parses `[N]` after an element type, giving the length truncated to 32 bits.
fn parse_len_suffix(parser: &mut Parser, message: &str) -> (r: Result<u32, ParseError>)
    requires
        old(parser).wf(),
    ensures
        final(parser).wf(),
        final(parser).toks() == old(parser).toks(),
        old(parser).pos() <= final(parser).pos(),
        r matches Ok(len) ==> gives(spec_len_suffix(old(parser).toks(), old(parser).pos(), message@), len, final(parser).pos()),
        r matches Err(e) ==> fails_with(spec_len_suffix(old(parser).toks(), old(parser).pos(), message@), e),
{
    parser.expect(TokenKind::LBracket)?;
    let len_tok = parser.expect(TokenKind::Number)?;
    let len: u32 = match len_tok.int_value {
        Some(v) => v as u32,
        None => {
            return Err((len_tok.loc, String::from_str(message)));
        },
    };
    parser.expect(TokenKind::RBracket)?;
    Ok(len)
}

/// Parses a field type: a scalar, `u32[16]`-style arrays, or `bytes[256]`.
fn parse_event_type(parser: &mut Parser) -> (r: Result<EventType, ParseError>)
    requires
        old(parser).wf(),
    ensures
        final(parser).wf(),
        final(parser).toks() == old(parser).toks(),
        old(parser).pos() <= final(parser).pos(),
        r matches Ok(t) ==> gives(spec_event_type(old(parser).toks(), old(parser).pos()), t, final(parser).pos()),
        r matches Err(e) ==> fails_with(spec_event_type(old(parser).toks(), old(parser).pos()), e),
{
    let loc = parser.current_loc();
    let primitive = match parser.current_kind() {
        TokenKind::TypeU32 => {
            let _ = parser.advance();
            Some(PrimitiveType::U32)
        },
        TokenKind::TypeU64 => {
            let _ = parser.advance();
            Some(PrimitiveType::U64)
        },
        TokenKind::TypeI32 => {
            let _ = parser.advance();
            Some(PrimitiveType::I32)
        },
        TokenKind::TypeI64 => {
            let _ = parser.advance();
            Some(PrimitiveType::I64)
        },
        _ => None,
    };
    if let Some(p) = primitive {
        if parser.check(TokenKind::LBracket) {
            let len = parse_len_suffix(parser, "Invalid array length")?;
            return Ok(EventType::Array { elem: p, len });
        }
        return Ok(match p {
            PrimitiveType::U32 => EventType::U32,
            PrimitiveType::U64 => EventType::U64,
            PrimitiveType::I32 => EventType::I32,
            PrimitiveType::I64 => EventType::I64,
        });
    }
    if parser.match_token(TokenKind::KeywordBytes) {
        let len = parse_len_suffix(parser, "Invalid bytes length")?;
        return Ok(EventType::Bytes(len));
    }
    Err((loc, String::from_str("Invalid event field type")))
}

} // verus!
