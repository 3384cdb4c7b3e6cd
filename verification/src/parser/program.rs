//! Parsing of whole programs.
use vstd::prelude::*;
use vstd::string::*;
use crate::ast::event::{EventDecl, EventField};
use crate::ast::map::MapDecl;
use crate::ast::model::stmts_model;
use crate::ast::program::Program;
use crate::ast::unit::Unit;
use crate::parser::event::{parse_event, spec_event};
use crate::parser::map::{parse_map, spec_map};
use crate::parser::parser::{ParseError, Parser};
use crate::parser::syntax::{error_at, fails_with, gives, outside, spec_unit, Parsed, UnitItems};
use crate::parser::token::{SourceLoc, Token, TokenKind};
use crate::parser::unit::{kind_of_sections, license_text, moved_on, parse_unit, section_texts};

verus! {

/// What a program declares, each kind in order of appearance: maps; units
/// by name, location and body items; events by name, fields and the
/// location of their name.
pub struct ProgramItems {
    pub maps: Seq<MapDecl>,
    pub units: Seq<(Seq<char>, SourceLoc, UnitItems)>,
    pub events: Seq<(String, Seq<EventField>, SourceLoc)>,
}

/// A unit as the grammar describes it.
pub open spec fn unit_view(u: Unit) -> (Seq<char>, SourceLoc, UnitItems) {
    (u.name@, u.loc, UnitItems { sections: section_texts(u.sections@), license: license_text(u.license), body: stmts_model(u.body@) })
}

/// An event as the grammar describes it.
pub open spec fn event_view(e: EventDecl) -> (String, Seq<EventField>, SourceLoc) {
    (e.name, e.fields@, e.loc)
}

/// Units as the grammar describes them.
pub open spec fn units_view(s: Seq<Unit>) -> Seq<(Seq<char>, SourceLoc, UnitItems)> {
    s.map_values(|u: Unit| unit_view(u))
}

/// Events as the grammar describes them.
pub open spec fn events_view(s: Seq<EventDecl>) -> Seq<(String, Seq<EventField>, SourceLoc)> {
    s.map_values(|e: EventDecl| event_view(e))
}

/// A parsed program as the grammar describes it.
pub open spec fn program_view(p: Program) -> ProgramItems {
    ProgramItems { maps: p.maps@, units: units_view(p.units@), events: events_view(p.events@) }
}

proof fn lemma_units_view_push(units: Seq<Unit>, u: Unit)
    ensures
        units_view(units.push(u)) == units_view(units).push(unit_view(u)),
{
    assert(units_view(units.push(u)) =~= units_view(units).push(unit_view(u)));
}

proof fn lemma_events_view_push(events: Seq<EventDecl>, e: EventDecl)
    ensures
        events_view(events.push(e)) == events_view(events).push(event_view(e)),
{
    assert(events_view(events.push(e)) =~= events_view(events).push(event_view(e)));
}

/// The declarations from `p` up to the end of input, added to `st`, and
/// the position of the `Eof` token.
#[verifier::opaque]
pub open spec fn spec_program_items(toks: Seq<Token>, p: int, st: ProgramItems) -> Parsed<ProgramItems>
    decreases toks.len() - p,
{
    if !(0 <= p < toks.len()) {
        Err(outside())
    } else if toks[p].kind == TokenKind::Eof {
        Ok((st, p))
    } else if toks[p].kind == TokenKind::KeywordMap {
        match spec_map(toks, p + 1) {
            Ok((m, q)) => if p < q <= toks.len() {
                spec_program_items(toks, q, ProgramItems { maps: st.maps.push(m), ..st })
            } else {
                Err(outside())
            },
            Err(e) => Err(e),
        }
    } else if toks[p].kind == TokenKind::KeywordUnit {
        match spec_unit(toks, p) {
            Ok((items, q)) => if p < q <= toks.len() {
                spec_program_items(toks, q, ProgramItems { units: st.units.push((toks[p + 1].lexeme@, toks[p].loc, items)), ..st })
            } else {
                Err(outside())
            },
            Err(e) => Err(e),
        }
    } else if toks[p].kind == TokenKind::KeywordEvent {
        match spec_event(toks, p) {
            Ok((ev, q)) => if p < q <= toks.len() {
                spec_program_items(toks, q, ProgramItems { events: st.events.push((ev.0, ev.1, toks[p + 1].loc)), ..st })
            } else {
                Err(outside())
            },
            Err(e) => Err(e),
        }
    } else {
        Err(error_at(toks, p, "Expected 'map', 'unit', or 'event'"@))
    }
}

/// One step of reading declarations, at a position inside the stream.
proof fn lemma_program_step(toks: Seq<Token>, p: int, st: ProgramItems)
    requires
        0 <= p < toks.len(),
    ensures
        spec_program_items(toks, p, st) == if toks[p].kind == TokenKind::Eof {
            Ok((st, p))
        } else if toks[p].kind == TokenKind::KeywordMap {
            match spec_map(toks, p + 1) {
                Ok((m, q)) => if p < q <= toks.len() {
                    spec_program_items(toks, q, ProgramItems { maps: st.maps.push(m), ..st })
                } else {
                    Err(outside())
                },
                Err(e) => Err(e),
            }
        } else if toks[p].kind == TokenKind::KeywordUnit {
            match spec_unit(toks, p) {
                Ok((items, q)) => if p < q <= toks.len() {
                    spec_program_items(toks, q, ProgramItems { units: st.units.push((toks[p + 1].lexeme@, toks[p].loc, items)), ..st })
                } else {
                    Err(outside())
                },
                Err(e) => Err(e),
            }
        } else if toks[p].kind == TokenKind::KeywordEvent {
            match spec_event(toks, p) {
                Ok((ev, q)) => if p < q <= toks.len() {
                    spec_program_items(toks, q, ProgramItems { events: st.events.push((ev.0, ev.1, toks[p + 1].loc)), ..st })
                } else {
                    Err(outside())
                },
                Err(e) => Err(e),
            }
        } else {
            Err(error_at(toks, p, "Expected 'map', 'unit', or 'event'"@))
        },
{
    reveal(spec_program_items);
}

/// The declarations of a whole token stream, read from its first token.
pub open spec fn spec_program(toks: Seq<Token>) -> Parsed<ProgramItems> {
    spec_program_items(toks, 0, ProgramItems { maps: Seq::empty(), units: Seq::empty(), events: Seq::empty() })
}

/// Parses `map`, `unit` and `event` declarations up to the end of input.
#[verifier::spinoff_prover]
pub fn parse_program(parser: &mut Parser) -> (r: Result<Program, ParseError>)
    requires
        old(parser).wf(),
    ensures
        moved_on(*old(parser), *final(parser)),
        r is Ok ==> final(parser).cur().kind == TokenKind::Eof,
        r matches Err(e) ==> fails_with(spec_program_items(old(parser).toks(), old(parser).pos(),
            ProgramItems { maps: Seq::empty(), units: Seq::empty(), events: Seq::empty() }), e),
        r matches Ok(p) ==> {
            &&& gives(spec_program_items(old(parser).toks(), old(parser).pos(),
                ProgramItems { maps: Seq::empty(), units: Seq::empty(), events: Seq::empty() }), program_view(p), final(parser).pos())
            &&& forall|i: int| 0 <= i < p.units@.len() ==> (#[trigger] p.units@[i]).kind == kind_of_sections(p.units@[i].sections@)
                && p.units@[i].events@.len() == 0
        },
{
    let ghost toks = parser.toks();
    let ghost p0 = parser.pos();
    let ghost start = ProgramItems { maps: Seq::empty(), units: Seq::empty(), events: Seq::empty() };
    let mut maps: Vec<MapDecl> = Vec::new();
    let mut units: Vec<Unit> = Vec::new();
    let mut events: Vec<EventDecl> = Vec::new();
    assert(units_view(units@) =~= Seq::<(Seq<char>, SourceLoc, UnitItems)>::empty());
    assert(events_view(events@) =~= Seq::<(String, Seq<EventField>, SourceLoc)>::empty());

    while !parser.check(TokenKind::Eof)
        invariant
            parser.wf(),
            parser.toks() == toks,
            toks == old(parser).toks(),
            p0 == old(parser).pos(),
            p0 <= parser.pos(),
            start == (ProgramItems { maps: Seq::empty(), units: Seq::empty(), events: Seq::empty() }),
            spec_program_items(toks, p0, start) == spec_program_items(toks, parser.pos(),
                ProgramItems { maps: maps@, units: units_view(units@), events: events_view(events@) }),
            forall|i: int| 0 <= i < units@.len() ==> (#[trigger] units@[i]).kind == kind_of_sections(units@[i].sections@)
                && units@[i].events@.len() == 0,
        decreases parser.remaining(),
    {
        let ghost p = parser.pos();
        let ghost st = ProgramItems { maps: maps@, units: units_view(units@), events: events_view(events@) };
        proof { lemma_program_step(toks, p, st); }
        if parser.match_token(TokenKind::KeywordMap) {
            let map = parse_map(parser)?;
            maps.push(map);
        } else if parser.check(TokenKind::KeywordUnit) {
            let unit = parse_unit(parser)?;
            proof { lemma_units_view_push(units@, unit); }
            units.push(unit);
        } else if parser.check(TokenKind::KeywordEvent) {
            let event = parse_event(parser)?;
            proof { lemma_events_view_push(events@, event); }
            events.push(event);
        } else {
            return Err(parser.error(String::from_str("Expected 'map', 'unit', or 'event'")));
        }
    }
    proof {
        lemma_program_step(toks, parser.pos(),
            ProgramItems { maps: maps@, units: units_view(units@), events: events_view(events@) });
    }
    Ok(Program { maps, units, events })
}

} // verus!
