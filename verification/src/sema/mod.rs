//! Semantic validation of parsed programs.
pub mod event;
pub mod map;
pub mod section;
pub mod unit;

use vstd::prelude::*;
use crate::ast::map::MapDecl;
use crate::ast::program::Program;
use crate::ast::unit::Unit;
use crate::sema::event::{first_event_error, has_name};
use crate::ast::event::EventField;
use crate::parser::token::SourceLoc;
use crate::parser::program::events_view;
use crate::sema::map::{map_shape_error, MapValidationError};
use crate::sema::unit::{unit_error, UnitValidationError};

verus! {

/// Why a program was rejected.
#[derive(Debug)]
pub enum SemanticError {
    MapError(MapValidationError),
    UnitError(UnitValidationError),
    EventError(event::EventValidationError),
}

/// The first map error: a name used by an earlier map, or a bad shape.
pub open spec fn first_map_error(maps: Seq<MapDecl>) -> Option<MapValidationError>
    decreases maps.len(),
{
    if maps.len() == 0 {
        None
    } else {
        match first_map_error(maps.drop_last()) {
            Some(e) => Some(e),
            None => {
                let m = maps.last();
                if exists|j: int| 0 <= j < maps.len() - 1 && (#[trigger] maps[j]).name@ == m.name@ {
                    Some(MapValidationError::DuplicateMapName(m.name, m.loc))
                } else {
                    map_shape_error(m)
                }
            },
        }
    }
}

/// The first unit error.
pub open spec fn first_unit_error(units: Seq<Unit>) -> Option<UnitValidationError>
    decreases units.len(),
{
    if units.len() == 0 {
        None
    } else {
        match first_unit_error(units.drop_last()) {
            Some(e) => Some(e),
            None => unit_error(units.last()),
        }
    }
}

proof fn lemma_first_error_step<T>(s: Seq<T>, i: int)
    requires
        0 <= i < s.len(),
    ensures
        s.subrange(0, i + 1).drop_last() == s.subrange(0, i),
        s.subrange(0, i + 1).last() == s[i],
{
}

proof fn lemma_first_map_error_prefix(maps: Seq<MapDecl>, i: int)
    requires
        0 <= i <= maps.len(),
        first_map_error(maps.subrange(0, i)) is Some,
    ensures
        first_map_error(maps) == first_map_error(maps.subrange(0, i)),
    decreases maps.len() - i,
{
    if i < maps.len() {
        assert(maps.drop_last().subrange(0, i) == maps.subrange(0, i));
        lemma_first_map_error_prefix(maps.drop_last(), i);
    } else {
        assert(maps.subrange(0, i) == maps);
    }
}

proof fn lemma_first_event_error_prefix(events: Seq<(String, Seq<EventField>, SourceLoc)>, i: int)
    requires
        0 <= i <= events.len(),
        first_event_error(events.subrange(0, i)) is Some,
    ensures
        first_event_error(events) == first_event_error(events.subrange(0, i)),
    decreases events.len() - i,
{
    if i < events.len() {
        assert(events.drop_last().subrange(0, i) == events.subrange(0, i));
        lemma_first_event_error_prefix(events.drop_last(), i);
    } else {
        assert(events.subrange(0, i) == events);
    }
}

proof fn lemma_first_unit_error_prefix(units: Seq<Unit>, i: int)
    requires
        0 <= i <= units.len(),
        first_unit_error(units.subrange(0, i)) is Some,
    ensures
        first_unit_error(units) == first_unit_error(units.subrange(0, i)),
    decreases units.len() - i,
{
    if i < units.len() {
        assert(units.drop_last().subrange(0, i) == units.subrange(0, i));
        lemma_first_unit_error_prefix(units.drop_last(), i);
    } else {
        assert(units.subrange(0, i) == units);
    }
}

/// A program whose maps pass validation declares each map name once.
pub proof fn lemma_accepted_map_names_distinct(maps: Seq<MapDecl>)
    requires
        first_map_error(maps) is None,
    ensures
        forall|i: int, j: int| 0 <= i < j < maps.len() ==> (#[trigger] maps[i]).name@ != (#[trigger] maps[j]).name@,
    decreases maps.len(),
{
    if maps.len() > 0 {
        let init = maps.drop_last();
        lemma_accepted_map_names_distinct(init);
        assert forall|i: int, j: int| 0 <= i < j < maps.len() implies (#[trigger] maps[i]).name@ != (#[trigger] maps[j]).name@ by {
            if j < maps.len() - 1 {
                assert(init[i] == maps[i] && init[j] == maps[j]);
            } else if maps[i].name@ == maps[j].name@ {
                assert(0 <= i < maps.len() - 1 && maps[i].name@ == maps.last().name@);
            }
        }
    }
}

/// Validates a program: its maps in order, then its events in order, then
/// its units in order; the first error stops validation.
pub fn check_program(program: &Program) -> (r: Result<(), SemanticError>)
    ensures
        r == (match first_map_error(program.maps@) {
            Some(e) => Err(SemanticError::MapError(e)),
            None => match first_event_error(events_view(program.events@)) {
                Some(e) => Err(SemanticError::EventError(e)),
                None => match first_unit_error(program.units@) {
                    Some(e) => Err(SemanticError::UnitError(e)),
                    None => Ok(()),
                },
            },
        }),
{
    let mut map_names: Vec<String> = Vec::new();
    let ghost maps = program.maps@;
    let mut i: usize = 0;
    while i < program.maps.len()
        invariant
            maps == program.maps@,
            i <= maps.len(),
            first_map_error(maps.subrange(0, i as int)) is None,
            map_names@.len() == i,
            forall|j: int| 0 <= j < i ==> (#[trigger] map_names@[j])@ == maps[j].name@,
        decreases maps.len() - i,
    {
        proof {
            lemma_first_error_step(maps, i as int);
            let pre = maps.subrange(0, i + 1);
            assert(has_name(map_names@, maps[i as int].name@) <==> exists|j: int| 0 <= j < pre.len() - 1 && (#[trigger] pre[j]).name@ == pre.last().name@) by {
                if has_name(map_names@, maps[i as int].name@) {
                    let j = choose|j: int| 0 <= j < map_names@.len() && (#[trigger] map_names@[j])@ == maps[i as int].name@;
                    assert(pre[j] == maps[j]);
                }
                if exists|j: int| 0 <= j < pre.len() - 1 && (#[trigger] pre[j]).name@ == pre.last().name@ {
                    let j = choose|j: int| 0 <= j < pre.len() - 1 && (#[trigger] pre[j]).name@ == pre.last().name@;
                    assert(pre[j] == maps[j]);
                    assert(map_names@[j]@ == maps[i as int].name@);
                }
            }
        }
        match map::check_map(&program.maps[i], &mut map_names) {
            Ok(()) => {},
            Err(e) => {
                proof { lemma_first_map_error_prefix(maps, i + 1); }
                return Err(SemanticError::MapError(e));
            },
        }
        i = i + 1;
    }
    assert(maps.subrange(0, maps.len() as int) == maps);

    let ghost evs = events_view(program.events@);
    let mut event_names: Vec<String> = Vec::new();
    let mut k: usize = 0;
    while k < program.events.len()
        invariant
            k <= program.events@.len(),
            evs == events_view(program.events@),
            first_map_error(program.maps@) is None,
            first_event_error(evs.subrange(0, k as int)) is None,
            event_names@.len() == k,
            forall|j: int| 0 <= j < k ==> (#[trigger] event_names@[j])@ == program.events@[j].name@,
        decreases program.events@.len() - k,
    {
        let ev = &program.events[k];
        proof {
            lemma_first_error_step(evs, k as int);
            let pre = evs.subrange(0, k + 1);
            assert(pre.last() == (ev.name, ev.fields@, ev.loc));
            assert(has_name(event_names@, ev.name@) <==> exists|j: int| 0 <= j < pre.len() - 1 && (#[trigger] pre[j]).0@ == ev.name@) by {
                if has_name(event_names@, ev.name@) {
                    let j = choose|j: int| 0 <= j < event_names@.len() && (#[trigger] event_names@[j])@ == ev.name@;
                    assert(pre[j] == evs[j]);
                }
                if exists|j: int| 0 <= j < pre.len() - 1 && (#[trigger] pre[j]).0@ == ev.name@ {
                    let j = choose|j: int| 0 <= j < pre.len() - 1 && (#[trigger] pre[j]).0@ == ev.name@;
                    assert(pre[j] == evs[j]);
                    assert(event_names@[j]@ == ev.name@);
                }
            }
        }
        match event::check_event(ev, &mut event_names) {
            Ok(()) => {},
            Err(e) => {
                proof { lemma_first_event_error_prefix(evs, k + 1); }
                return Err(SemanticError::EventError(e));
            },
        }
        k = k + 1;
    }
    assert(evs.subrange(0, evs.len() as int) == evs);

    let ghost units = program.units@;
    let mut u: usize = 0;
    while u < program.units.len()
        invariant
            units == program.units@,
            first_map_error(program.maps@) is None,
            first_event_error(events_view(program.events@)) is None,
            u <= units.len(),
            first_unit_error(units.subrange(0, u as int)) is None,
        decreases units.len() - u,
    {
        proof { lemma_first_error_step(units, u as int); }
        match unit::check_unit(&program.units[u]) {
            Ok(()) => {},
            Err(e) => {
                proof { lemma_first_unit_error_prefix(units, u + 1); }
                return Err(SemanticError::UnitError(e));
            },
        }
        u = u + 1;
    }
    assert(units.subrange(0, units.len() as int) == units);
    Ok(())
}

} // verus!
