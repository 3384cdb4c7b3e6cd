//! Parsing of `map` declarations.
use vstd::prelude::*;
use vstd::string::*;
use crate::ast::map::{MapDecl, MapType, Type};
use crate::parser::parser::{expected_message, ParseError, Parser};
use crate::parser::token::{kind_name, Token, TokenKind, SourceLoc};
use crate::parser::syntax::{error_at, fail, fails, fails_with, gives, outside, spec_item_end, Parsed};
use crate::text::{concat3, str_eq};

verus! {

/// The map kind a `.name` selects.
pub open spec fn map_type_named(s: Seq<char>) -> Option<MapType> {
    if s == "hash"@ {
        Some(MapType::Hash)
    } else if s == "array"@ {
        Some(MapType::Array)
    } else if s == "ringbuf"@ {
        Some(MapType::Ringbuf)
    } else if s == "lru_hash"@ {
        Some(MapType::LruHash)
    } else if s == "prog_array"@ {
        Some(MapType::ProgArray)
    } else {
        None
    }
}

/// The key/value type a type keyword names.
pub open spec fn type_of_kind(k: TokenKind) -> Option<Type> {
    match k {
        TokenKind::TypeU32 => Some(Type::U32),
        TokenKind::TypeU64 => Some(Type::U64),
        TokenKind::TypeI32 => Some(Type::I32),
        TokenKind::TypeI64 => Some(Type::I64),
        _ => None,
    }
}

/// An integer literal at `p`, and the position after it.
pub open spec fn spec_number(toks: Seq<Token>, p: int) -> Parsed<i64> {
    if fails(toks, p, TokenKind::Number) {
        Err(fail(toks, p, TokenKind::Number))
    } else {
        match toks[p].int_value {
            Some(v) => Ok((v, p + 1)),
            None => Err(error_at(toks, p + 1, "Expected integer literal"@)),
        }
    }
}

/// The value of `<< N` and `>> N` steps from position `p` on, applied to
/// `left`; shifts wrap as in an optimized build.
pub open spec fn spec_const_shifts(toks: Seq<Token>, p: int, left: i64) -> Parsed<i64>
    decreases toks.len() - p,
{
    if !(0 <= p < toks.len()) {
        Err(outside())
    } else if toks[p].kind == TokenKind::Shl || toks[p].kind == TokenKind::Shr {
        match spec_number(toks, p + 1) {
            Ok((right, q)) => if p < q <= toks.len() {
                let v = if toks[p].kind == TokenKind::Shl {
                    left.wrapping_shl(right as u32)
                } else {
                    left.wrapping_shr(right as u32)
                };
                spec_const_shifts(toks, q, v)
            } else {
                Err(outside())
            },
            Err(e) => Err(e),
        }
    } else {
        Ok((left, p))
    }
}

/// A constant expression at `p`: its value and the position after it.
pub open spec fn spec_const_expr(toks: Seq<Token>, p: int) -> Parsed<i64> {
    match spec_number(toks, p) {
        Ok((v, q)) => spec_const_shifts(toks, q, v),
        Err(e) => Err(e),
    }
}

/// What a map body declares so far: kind, key type, value type, entry limit.
pub type MapFields = (Option<MapType>, Option<Type>, Option<Type>, Option<u32>);

/// The message for a map kind name that is not known.
pub open spec fn unknown_map_type(name: Seq<char>) -> Seq<char> {
    "Unknown map type: "@ + name + " (valid: hash, array, ringbuf, lru_hash, prog_array)"@
}

/// The message for a token that cannot start a map entry.
pub open spec fn unexpected_in_map(k: TokenKind) -> Seq<char> {
    "Unexpected token inside map: "@ + kind_name(k) + " (expected one of: type, key, value, max)"@
}

/// The entries of a map body from `p` up to the closing brace, applied to
/// `st`, and the brace's position. Later entries override earlier ones.
/// Each entry ends with `;` or `,`, except that the last needs neither.
pub open spec fn spec_map_entries(toks: Seq<Token>, p: int, st: MapFields) -> Parsed<MapFields>
    decreases toks.len() - p,
{
    if !(0 <= p < toks.len()) {
        Err(outside())
    } else {
        let k = toks[p].kind;
        if k == TokenKind::RBrace {
            Ok((st, p))
        } else if k == TokenKind::KeywordType {
            if fails(toks, p + 1, TokenKind::Colon) {
                Err(fail(toks, p + 1, TokenKind::Colon))
            } else if fails(toks, p + 2, TokenKind::Dot) {
                Err(fail(toks, p + 2, TokenKind::Dot))
            } else if fails(toks, p + 3, TokenKind::Identifier) {
                Err(fail(toks, p + 3, TokenKind::Identifier))
            } else {
                match map_type_named(toks[p + 3].lexeme@) {
                    None => Err(error_at(toks, p + 4, unknown_map_type(toks[p + 3].lexeme@))),
                    Some(mt) => match spec_item_end(toks, p + 4, TokenKind::RBrace) {
                        Ok(q) => if p < q <= toks.len() {
                            spec_map_entries(toks, q, (Some(mt), st.1, st.2, st.3))
                        } else {
                            Err(outside())
                        },
                        Err(x) => Err(x),
                    },
                }
            }
        } else if k == TokenKind::KeywordKey || k == TokenKind::KeywordValue {
            if fails(toks, p + 1, TokenKind::Colon) {
                Err(fail(toks, p + 1, TokenKind::Colon))
            } else if !(p + 2 < toks.len()) {
                Err(outside())
            } else {
                match type_of_kind(toks[p + 2].kind) {
                    None => Err(error_at(toks, if toks[p + 2].kind == TokenKind::Eof { p + 2 } else { p + 3 },
                        "Expected type (u32, u64, i32, i64)"@)),
                    Some(t) => match spec_item_end(toks, p + 3, TokenKind::RBrace) {
                        Ok(q) => if p < q <= toks.len() {
                            spec_map_entries(toks, q, if k == TokenKind::KeywordKey {
                                (st.0, Some(t), st.2, st.3)
                            } else {
                                (st.0, st.1, Some(t), st.3)
                            })
                        } else {
                            Err(outside())
                        },
                        Err(x) => Err(x),
                    },
                }
            }
        } else if k == TokenKind::KeywordMax {
            if fails(toks, p + 1, TokenKind::Colon) {
                Err(fail(toks, p + 1, TokenKind::Colon))
            } else {
                match spec_const_expr(toks, p + 2) {
                    Ok((v, q)) => if p < q < toks.len() {
                        if v < 0 {
                            Err(error_at(toks, q, "max_entries must be >= 0"@))
                        } else {
                            match spec_item_end(toks, q, TokenKind::RBrace) {
                                Ok(e) => if p < e <= toks.len() {
                                    spec_map_entries(toks, e, (st.0, st.1, st.2, Some(v as u32)))
                                } else {
                                    Err(outside())
                                },
                                Err(x) => Err(x),
                            }
                        }
                    } else {
                        Err(outside())
                    },
                    Err(e) => Err(e),
                }
            }
        } else {
            Err(error_at(toks, p, unexpected_in_map(k)))
        }
    }
}

/// Why a complete map body lacks a field its kind needs, if it does.
pub open spec fn map_fields_error(st: MapFields) -> Option<Seq<char>> {
    match st.0 {
        None => Some("Map missing required field: type"@),
        Some(MapType::Ringbuf) => if st.3 is None { Some("Ringbuf map requires: max"@) } else { None },
        Some(_) => if st.1 is None {
            Some("Map missing required field: key"@)
        } else if st.2 is None {
            Some("Map missing required field: value"@)
        } else if st.3 is None {
            Some("Map missing required field: max"@)
        } else {
            None
        },
    }
}

/// The map declared from `p` (its name) on, and the position after it.
pub open spec fn spec_map(toks: Seq<Token>, p: int) -> Parsed<MapDecl> {
    if fails(toks, p, TokenKind::Identifier) {
        Err(fail(toks, p, TokenKind::Identifier))
    } else if fails(toks, p + 1, TokenKind::LBrace) {
        Err(fail(toks, p + 1, TokenKind::LBrace))
    } else {
        match spec_map_entries(toks, p + 2, (None, None, None, None)) {
            Ok((st, end)) => if p < end < toks.len() {
                match map_fields_error(st) {
                    Some(m) => Err(error_at(toks, end + 1, m)),
                    None => Ok((MapDecl {
                        name: toks[p].lexeme,
                        map_type: st.0->0,
                        key_type: st.1,
                        value_type: st.2,
                        max_entries: st.3,
                        loc: toks[p].loc,
                    }, end + 1)),
                }
            } else {
                Err(outside())
            },
            Err(e) => Err(e),
        }
    }
}

/// Parses a key or value type keyword. The token is consumed even when it
/// is not a type.
pub fn parse_type(parser: &mut Parser) -> (r: Result<Type, ParseError>)
    requires
        old(parser).wf(),
    ensures
        final(parser).wf(),
        final(parser).toks() == old(parser).toks(),
        final(parser).pos() == old(parser).next_pos(),
        r is Ok <==> type_of_kind(old(parser).cur().kind) is Some,
        r matches Ok(t) ==> type_of_kind(old(parser).cur().kind) == Some(t),
        r matches Err(e) ==> e.0 == final(parser).cur().loc && e.1@ == "Expected type (u32, u64, i32, i64)"@,
{
    let kind = parser.current_kind();
    let _ = parser.advance();
    match kind {
        TokenKind::TypeU32 => Ok(Type::U32),
        TokenKind::TypeU64 => Ok(Type::U64),
        TokenKind::TypeI32 => Ok(Type::I32),
        TokenKind::TypeI64 => Ok(Type::I64),
        _ => {
            proof { reveal_strlit("Expected type (u32, u64, i32, i64)"); }
            Err(parser.error(String::from_str("Expected type (u32, u64, i32, i64)")))
        },
    }
}

/// Consumes a token of the given kind, or fails as `Parser::expect` does.
pub fn expect_token(parser: &mut Parser, kind: TokenKind) -> (r: Result<(), ParseError>)
    requires
        old(parser).wf(),
    ensures
        final(parser).wf(),
        final(parser).toks() == old(parser).toks(),
        r is Ok <==> old(parser).cur().kind == kind,
        r is Ok ==> final(parser).pos() == old(parser).next_pos(),
        r is Err ==> final(parser).pos() == old(parser).pos(),
        r matches Err(e) ==> e.0 == old(parser).cur().loc && e.1@ == expected_message(kind, old(parser).cur().kind),
{
    parser.expect(kind)?;
    Ok(())
}

fn parse_const_expr(parser: &mut Parser) -> (r: Result<i64, ParseError>)
    requires
        old(parser).wf(),
    ensures
        final(parser).wf(),
        final(parser).toks() == old(parser).toks(),
        old(parser).pos() <= final(parser).pos(),
        r matches Ok(v) ==> gives(spec_const_expr(old(parser).toks(), old(parser).pos()), v, final(parser).pos()),
        r matches Err(e) ==> fails_with(spec_const_expr(old(parser).toks(), old(parser).pos()), e),
{
    parse_shift(parser)
}

fn parse_primary(parser: &mut Parser) -> (r: Result<i64, ParseError>)
    requires
        old(parser).wf(),
    ensures
        final(parser).wf(),
        final(parser).toks() == old(parser).toks(),
        old(parser).pos() <= final(parser).pos(),
        r matches Ok(v) ==> gives(spec_number(old(parser).toks(), old(parser).pos()), v, final(parser).pos()),
        r matches Err(e) ==> fails_with(spec_number(old(parser).toks(), old(parser).pos()), e),
{
    let n = parser.expect(TokenKind::Number)?;
    match n.int_value {
        Some(v) => Ok(v),
        None => Err(parser.error(String::from_str("Expected integer literal"))),
    }
}

fn parse_shift(parser: &mut Parser) -> (r: Result<i64, ParseError>)
    requires
        old(parser).wf(),
    ensures
        final(parser).wf(),
        final(parser).toks() == old(parser).toks(),
        old(parser).pos() <= final(parser).pos(),
        r matches Ok(v) ==> gives(spec_const_expr(old(parser).toks(), old(parser).pos()), v, final(parser).pos()),
        r matches Err(e) ==> fails_with(spec_const_expr(old(parser).toks(), old(parser).pos()), e),
{
    let ghost toks = parser.toks();
    let ghost p0 = parser.pos();
    let mut left = parse_primary(parser)?;
    loop
        invariant_except_break
            parser.wf(),
            parser.toks() == toks,
            toks == old(parser).toks(),
            p0 == old(parser).pos(),
            p0 < parser.pos(),
            spec_const_expr(toks, p0) == spec_const_shifts(toks, parser.pos(), left),
        ensures
            parser.wf(),
            parser.toks() == toks,
            p0 < parser.pos(),
            gives(spec_const_expr(toks, p0), left, parser.pos()),
        decreases parser.remaining(),
    {
        if parser.check(TokenKind::Shl) {
            let _ = parser.advance();
            let right = parse_primary(parser)?;
            left = left.wrapping_shl(#[verifier::truncate] (right as u32));
        } else if parser.check(TokenKind::Shr) {
            let _ = parser.advance();
            let right = parse_primary(parser)?;
            left = left.wrapping_shr(#[verifier::truncate] (right as u32));
        } else {
            break;
        }
    }
    Ok(left)
}

/// Parses a map declaration from its name on (the `map` keyword is
/// already consumed). A body without a `type` entry is rejected.
pub fn parse_map(parser: &mut Parser) -> (r: Result<MapDecl, ParseError>)
    requires
        old(parser).wf(),
    ensures
        final(parser).wf(),
        final(parser).toks() == old(parser).toks(),
        old(parser).pos() <= final(parser).pos(),
        r matches Ok(m) ==> gives(spec_map(old(parser).toks(), old(parser).pos()), m, final(parser).pos()),
        r matches Err(e) ==> fails_with(spec_map(old(parser).toks(), old(parser).pos()), e),
{
    let ghost toks = parser.toks();
    let ghost p0 = parser.pos();
    let map_loc = parser.current_loc();
    let map_name_tok = parser.expect(TokenKind::Identifier)?;
    expect_token(parser, TokenKind::LBrace)?;
    let ghost start = parser.pos();

    let mut map_type: Option<MapType> = None;
    let mut key_type: Option<Type> = None;
    let mut value_type: Option<Type> = None;
    let mut max_entries: Option<u32> = None;
    assert(spec_map_entries(toks, start, (None, None, None, None)) matches Err(x) ==> spec_map(toks, p0) matches Err(y) && y == x);

    while !parser.check(TokenKind::RBrace)
        invariant
            parser.wf(),
            parser.toks() == toks,
            toks == old(parser).toks(),
            p0 == old(parser).pos(),
            start == p0 + 2,
            start <= parser.pos(),
            spec_map_entries(toks, start, (None, None, None, None)) matches Err(x) ==> spec_map(toks, p0) matches Err(y) && y == x,
            spec_map_entries(toks, start, (None, None, None, None))
                == spec_map_entries(toks, parser.pos(), (map_type, key_type, value_type, max_entries)),
        decreases parser.remaining(),
    {
        if parser.match_token(TokenKind::KeywordType) {
            expect_token(parser, TokenKind::Colon)?;
            expect_token(parser, TokenKind::Dot)?;
            let t_tok = parser.expect(TokenKind::Identifier)?;
            let t = t_tok.lexeme.as_str();
            let mt = if str_eq(t, "hash") {
                MapType::Hash
            } else if str_eq(t, "array") {
                MapType::Array
            } else if str_eq(t, "ringbuf") {
                MapType::Ringbuf
            } else if str_eq(t, "lru_hash") {
                MapType::LruHash
            } else if str_eq(t, "prog_array") {
                MapType::ProgArray
            } else {
                let msg = concat3("Unknown map type: ", t, " (valid: hash, array, ringbuf, lru_hash, prog_array)");
                return Err(parser.error(msg));
            };
            map_type = Some(mt);
            parser.end_item(TokenKind::RBrace)?;
            continue;
        }
        if parser.match_token(TokenKind::KeywordKey) {
            expect_token(parser, TokenKind::Colon)?;
            key_type = Some(parse_type(parser)?);
            parser.end_item(TokenKind::RBrace)?;
            continue;
        }
        if parser.match_token(TokenKind::KeywordValue) {
            expect_token(parser, TokenKind::Colon)?;
            value_type = Some(parse_type(parser)?);
            parser.end_item(TokenKind::RBrace)?;
            continue;
        }
        if parser.match_token(TokenKind::KeywordMax) {
            expect_token(parser, TokenKind::Colon)?;
            let max = parse_const_expr(parser)?;
            if max < 0 {
                return Err(parser.error(String::from_str("max_entries must be >= 0")));
            }
            max_entries = Some(max as u32);
            parser.end_item(TokenKind::RBrace)?;
            continue;
        }
        let mut msg = String::from_str("Unexpected token inside map: ");
        msg.append(parser.current_kind().name());
        msg.append(" (expected one of: type, key, value, max)");
        return Err(parser.error(msg));
    }

    expect_token(parser, TokenKind::RBrace)?;

    let map_type = match map_type {
        Some(t) => t,
        None => {
            return Err(parser.error(String::from_str("Map missing required field: type")));
        },
    };
    match map_type {
        MapType::Ringbuf => {
            if max_entries.is_none() {
                return Err(parser.error(String::from_str("Ringbuf map requires: max")));
            }
        },
        _ => {
            if key_type.is_none() {
                return Err(parser.error(String::from_str("Map missing required field: key")));
            }
            if value_type.is_none() {
                return Err(parser.error(String::from_str("Map missing required field: value")));
            }
            if max_entries.is_none() {
                return Err(parser.error(String::from_str("Map missing required field: max")));
            }
        },
    }
    Ok(MapDecl {
        name: map_name_tok.lexeme,
        map_type,
        key_type,
        value_type,
        max_entries,
        loc: map_loc,
    })
}

} // verus!
