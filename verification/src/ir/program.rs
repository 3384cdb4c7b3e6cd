//! Lowering of whole programs.
use vstd::prelude::*;
use crate::ast::event::EventDecl;
use crate::ast::map::MapDecl;
use crate::ast::program::Program;
use crate::ast::model::stmts_model;
use crate::ast::unit::Unit;
use crate::ir::model::{blocks_model, decl_fields, sizes_view, spec_lower_unit_body, StmtState};
use crate::ir::unit::{decls_valid, numbering_ok, unit_license, UnitIr};
use crate::ir::LoweringError;
use crate::sema::event::{compute_event_size, event_size};

verus! {

/// The IR of a whole program: its maps and its lowered units.
#[derive(Debug)]
pub struct ProgramIr {
    pub maps: Vec<MapDecl>,
    pub units: Vec<UnitIr>,
}

/// The record size of each event, by name, in declaration order.
pub open spec fn event_sizes_of(events: Seq<EventDecl>) -> Seq<(String, u32)> {
    Seq::new(events.len(), |j: int| (events[j].name, event_size(events[j].fields@)))
}

/// How `unit` lowers, each unit seeing every event's size and declaration.
pub open spec fn unit_lowering(unit: Unit, events: Seq<EventDecl>) -> Result<StmtState, Seq<char>> {
    spec_lower_unit_body(unit.kind, sizes_view(event_sizes_of(events)), decl_fields(events), stmts_model(unit.body@))
}

/// `u` holds the blocks and counters of the successful lowering `res`.
pub open spec fn holds_lowering(u: UnitIr, res: Result<StmtState, Seq<char>>) -> bool {
    match res {
        Ok(st) => blocks_model(u.blocks@) == st.done.push(st.cur) && u.next_var_id == st.next && u.next_block_id == st.next_block,
        Err(_) => false,
    }
}

/// `p` is a lowering of `program`: the same maps, and each unit with the
/// blocks and counters its body lowers to, and its unit's name, sections,
/// license and kind.
pub open spec fn lowered_from(program: Program, p: ProgramIr) -> bool {
    &&& p.maps@ == program.maps@
    &&& p.units@.len() == program.units@.len()
    &&& forall|i: int| 0 <= i < p.units@.len() ==> {
        let u = #[trigger] p.units@[i];
        &&& holds_lowering(u, unit_lowering(program.units@[i], program.events@))
        &&& u.name == program.units@[i].name
        &&& u.sections@ == program.units@[i].sections@
        &&& u.license@ == unit_license(program.units@[i].license)
        &&& u.program_type == program.units@[i].kind
    }
}

/// Lowering is deterministic: any two lowerings of one program have the
/// same maps and, unit by unit, the same blocks, counters, names,
/// sections, licenses and kinds.
pub proof fn lemma_lowering_deterministic(program: Program, a: ProgramIr, b: ProgramIr)
    requires
        lowered_from(program, a),
        lowered_from(program, b),
    ensures
        a.maps@ == b.maps@,
        a.units@.len() == b.units@.len(),
        forall|i: int| 0 <= i < a.units@.len() ==> {
            &&& blocks_model((#[trigger] a.units@[i]).blocks@) == blocks_model(b.units@[i].blocks@)
            &&& a.units@[i].next_var_id == b.units@[i].next_var_id
            &&& a.units@[i].next_block_id == b.units@[i].next_block_id
            &&& a.units@[i].name == b.units@[i].name
            &&& a.units@[i].sections@ == b.units@[i].sections@
            &&& a.units@[i].license@ == b.units@[i].license@
            &&& a.units@[i].program_type == b.units@[i].program_type
        },
{
    assert forall|i: int| 0 <= i < a.units@.len() implies {
        &&& blocks_model((#[trigger] a.units@[i]).blocks@) == blocks_model(b.units@[i].blocks@)
        &&& a.units@[i].next_var_id == b.units@[i].next_var_id
        &&& a.units@[i].next_block_id == b.units@[i].next_block_id
        &&& a.units@[i].name == b.units@[i].name
        &&& a.units@[i].sections@ == b.units@[i].sections@
        &&& a.units@[i].license@ == b.units@[i].license@
        &&& a.units@[i].program_type == b.units@[i].program_type
    } by {
        let ua = a.units@[i];
        let ub = b.units@[i];
        assert(holds_lowering(ua, unit_lowering(program.units@[i], program.events@)));
        assert(holds_lowering(ub, unit_lowering(program.units@[i], program.events@)));
    }
}

/// Lowers every unit of a program whose events all have valid layouts.
/// Each unit sees every event's record size and every event declaration.
/// The first unit that fails to lower decides the error.
pub fn lower_program(program: &Program) -> (r: Result<ProgramIr, LoweringError>)
    requires
        decls_valid(program.events@),
    ensures
        r is Ok <==> forall|i: int| 0 <= i < program.units@.len() ==> (#[trigger] unit_lowering(program.units@[i], program.events@)) is Ok,
        r matches Err(LoweringError::UnitLowering(x)) ==> exists|i: int| {
            &&& 0 <= i < program.units@.len()
            &&& (forall|j: int| 0 <= j < i ==> (#[trigger] unit_lowering(program.units@[j], program.events@)) is Ok)
            &&& unit_lowering(program.units@[i], program.events@) == Err::<StmtState, Seq<char>>(x@)
        },
        r matches Ok(p) ==> lowered_from(*program, p),
        r matches Ok(p) ==> forall|i: int| 0 <= i < p.units@.len() ==>
            holds_lowering(#[trigger] p.units@[i], unit_lowering(program.units@[i], program.events@)),
        r matches Ok(p) ==> {
            &&& p.maps@ == program.maps@
            &&& p.units@.len() == program.units@.len()
            &&& forall|i: int| 0 <= i < p.units@.len() ==> {
                let u = #[trigger] p.units@[i];
                &&& u.name == program.units@[i].name
                &&& u.sections@ == program.units@[i].sections@
                &&& u.license@ == unit_license(program.units@[i].license)
                &&& u.program_type == program.units@[i].kind
                &&& numbering_ok(&u)
            }
        },
{
    let mut event_sizes: Vec<(String, u32)> = Vec::new();
    let mut i: usize = 0;
    while i < program.events.len()
        invariant
            decls_valid(program.events@),
            i <= program.events@.len(),
            event_sizes@.len() == i,
            forall|j: int| 0 <= j < i ==> (#[trigger] event_sizes@[j]).0 == program.events@[j].name
                && event_sizes@[j].1 == event_size(program.events@[j].fields@),
        decreases program.events@.len() - i,
    {
        assert(crate::sema::event::fields_valid(program.events@[i as int].fields@));
        let size = compute_event_size(&program.events[i]);
        event_sizes.push((program.events[i].name.clone(), size));
        i = i + 1;
    }
    assert(event_sizes@ =~= event_sizes_of(program.events@));

    let mut units: Vec<UnitIr> = Vec::new();
    let mut k: usize = 0;
    while k < program.units.len()
        invariant
            decls_valid(program.events@),
            k <= program.units@.len(),
            units@.len() == k,
            forall|j: int| 0 <= j < k ==> {
                let u = #[trigger] units@[j];
                &&& u.name == program.units@[j].name
                &&& u.sections@ == program.units@[j].sections@
                &&& u.license@ == unit_license(program.units@[j].license)
                &&& u.program_type == program.units@[j].kind
                &&& numbering_ok(&u)
                &&& holds_lowering(u, unit_lowering(program.units@[j], program.events@))
            },
            event_sizes@ == event_sizes_of(program.events@),
            forall|j: int| 0 <= j < k ==> (#[trigger] unit_lowering(program.units@[j], program.events@)) is Ok,
        decreases program.units@.len() - k,
    {
        let ur = UnitIr::lower(&program.units[k], &event_sizes, &program.events);
        let u = match ur {
            Ok(u) => u,
            Err(e) => {
                assert(unit_lowering(program.units@[k as int], program.events@) is Err);
                return Err(e);
            },
        };
        units.push(u);
        k = k + 1;
    }

    let mut maps: Vec<MapDecl> = Vec::new();
    let mut m: usize = 0;
    while m < program.maps.len()
        invariant
            m <= program.maps@.len(),
            maps@ == program.maps@.subrange(0, m as int),
        decreases program.maps@.len() - m,
    {
        maps.push(program.maps[m].duplicate());
        m = m + 1;
    }
    assert(program.maps@.subrange(0, program.maps@.len() as int) == program.maps@);
    Ok(ProgramIr { maps, units })
}

} // verus!
