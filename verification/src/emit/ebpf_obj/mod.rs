//! The direct object back end: instructions, map definitions, program
//! sections and the ELF writer.
pub mod elf;
pub mod insn;
pub mod maps;
pub mod tracepoint;

use vstd::prelude::*;
use crate::emit::ebpf_obj::elf::{build_object, object_layout, object_sections, record_index, relocs_resolve};
use crate::emit::elf::{elf_len, is_bpf_elf, ElfSection};
use crate::emit::ebpf_obj::maps::{build_maps, map_symbol, maps_bytes, maps_error, MapsSection, MAP_DEF_SIZE};
use crate::ast::map::MapDecl;
use crate::emit::ebpf_obj::insn::{insns_bytes, BpfInsn};
use crate::emit::ebpf_obj::tracepoint::{emit_tracepoint, frame_error, frame_size, map_named, obj_code, well_formed_section, ProgramSection, RelocRequest};
use crate::ir::program::ProgramIr;
use crate::ir::unit::UnitIr;
use crate::text::{concat3, is_prefix_of, owned, starts_with, str_eq};

verus! {

/// A unit this back end accepts: its first section is `tracepoint/...`.
pub open spec fn direct_supported(u: UnitIr) -> bool {
    u.sections@.len() > 0 && is_prefix_of("tracepoint/"@, u.sections@[0]@)
}

/// `s` is the `.maps` section built from `maps`.
pub open spec fn maps_section_of(s: MapsSection, maps: Seq<MapDecl>) -> bool {
    &&& s.bytes@ == maps_bytes(maps)
    &&& s.records@.len() == maps.len()
    &&& forall|i: int| 0 <= i < maps.len() ==> {
        &&& (#[trigger] s.records@[i]).name@ == map_symbol(maps[i].name@)
        &&& s.records@[i].offset == 20 * i
        &&& s.records@[i].size == MAP_DEF_SIZE
    }
}

/// What this back end makes of unit `u`, the object's license being
/// `license`: its code and relocations, or why it refuses the unit.
pub open spec fn direct_unit(u: UnitIr, license: Seq<char>, maps: MapsSection) -> Result<(Seq<u8>, Seq<RelocRequest>), Seq<char>> {
    if u.sections@.len() == 0 {
        Err("unit '"@ + u.name@ + "' missing section"@)
    } else if !is_prefix_of("tracepoint/"@, u.sections@[0]@) {
        Err("direct object backend currently supports only tracepoint/*, got '"@ + u.sections@[0]@ + "'"@)
    } else if u.license@ != license {
        Err("all units in one object must share same license: '"@ + license + "' vs '"@ + u.license@ + "'"@)
    } else if frame_size(u.blocks@) > 512 {
        Err(frame_error(frame_size(u.blocks@)))
    } else {
        match obj_code(u.blocks@, maps) {
            Ok((w, rl)) => Ok((insns_bytes(w), rl)),
            Err(m) => Err(m),
        }
    }
}

/// The first refusal among `units`, if any.
pub open spec fn direct_error(units: Seq<UnitIr>, license: Seq<char>, maps: MapsSection) -> Option<Seq<char>>
    decreases units.len(),
{
    if units.len() == 0 {
        None
    } else {
        match direct_error(units.drop_last(), license, maps) {
            Some(e) => Some(e),
            None => match direct_unit(units.last(), license, maps) {
                Err(e) => Some(e),
                Ok(_) => None,
            },
        }
    }
}

/// `progs` are the program sections of `units`: each named by its unit's
/// first section and its unit's name, holding what `direct_unit` gives.
pub open spec fn direct_programs(progs: Seq<ProgramSection>, units: Seq<UnitIr>, license: Seq<char>, maps: MapsSection) -> bool {
    &&& progs.len() == units.len()
    &&& forall|i: int| 0 <= i < units.len() ==> {
        &&& units[i].sections@.len() > 0
        &&& (#[trigger] progs[i]).section_name@ == units[i].sections@[0]@
        &&& progs[i].symbol_name@ == units[i].name@
        &&& direct_unit(units[i], license, maps) == Ok::<(Seq<u8>, Seq<RelocRequest>), Seq<char>>((progs[i].code@, progs[i].relocs@))
    }
}

/// The license of the object: the first unit's.
pub open spec fn object_license(units: Seq<UnitIr>) -> Seq<char> {
    if units.len() > 0 { units[0].license@ } else { "GPL"@ }
}

/// One more accepted unit extends the program sections and keeps every
/// relocation's map known.
proof fn lemma_direct_step(before: Seq<ProgramSection>, prog: ProgramSection, units: Seq<UnitIr>, i: int, license: Seq<char>,
    maps: MapsSection)
    requires
        0 <= i < units.len(),
        direct_programs(before, units.subrange(0, i), license, maps),
        forall|j: int, k: int| 0 <= j < i && 0 <= k < before[j].relocs@.len() ==> #[trigger] map_named(maps, before[j].relocs@[k].map_name@),
        units[i].sections@.len() > 0,
        prog.section_name@ == units[i].sections@[0]@,
        prog.symbol_name@ == units[i].name@,
        direct_unit(units[i], license, maps) == Ok::<(Seq<u8>, Seq<RelocRequest>), Seq<char>>((prog.code@, prog.relocs@)),
        forall|k: int| 0 <= k < prog.relocs@.len() ==> #[trigger] map_named(maps, prog.relocs@[k].map_name@),
    ensures
        direct_programs(before.push(prog), units.subrange(0, i + 1), license, maps),
        forall|j: int, k: int| 0 <= j < i + 1 && 0 <= k < before.push(prog)[j].relocs@.len()
            ==> #[trigger] map_named(maps, before.push(prog)[j].relocs@[k].map_name@),
{
    let after = before.push(prog);
    let pre = units.subrange(0, i + 1);
    assert(before.len() == i);
    assert(after.len() == pre.len());
    assert forall|j: int| #![trigger after[j]] #![trigger pre[j]] 0 <= j < pre.len() implies
        pre[j].sections@.len() > 0
        && after[j].section_name@ == pre[j].sections@[0]@
        && after[j].symbol_name@ == pre[j].name@
        && direct_unit(pre[j], license, maps) == Ok::<(Seq<u8>, Seq<RelocRequest>), Seq<char>>((after[j].code@, after[j].relocs@))
    by {
        if j < i {
            assert(after[j] == before[j]);
            assert(pre[j] == units.subrange(0, i)[j]);
        } else {
            assert(after[j] == prog);
            assert(pre[j] == units[i]);
        }
    }
    assert forall|j: int, k: int| 0 <= j < i + 1 && 0 <= k < after[j].relocs@.len()
        implies #[trigger] map_named(maps, after[j].relocs@[k].map_name@) by {
        if j < i {
            assert(after[j] == before[j]);
        } else {
            assert(after[j] == prog);
        }
    }
    assert(direct_programs(after, pre, license, maps));
}

/// A refusal in a prefix is the refusal of the whole.
proof fn lemma_direct_error_prefix(units: Seq<UnitIr>, license: Seq<char>, maps: MapsSection, k: int)
    requires
        0 <= k <= units.len(),
        direct_error(units.subrange(0, k), license, maps) is Some,
    ensures
        direct_error(units, license, maps) == direct_error(units.subrange(0, k), license, maps),
    decreases units.len(),
{
    if k < units.len() {
        let pre = units.drop_last();
        assert(pre.subrange(0, k) =~= units.subrange(0, k));
        lemma_direct_error_prefix(pre, license, maps, k);
    } else {
        assert(units.subrange(0, k) =~= units);
    }
}

/// Compiles every unit into one object with the direct back end. The maps
/// must encode; then the units are taken in order, each refused for a
/// missing section, a first section that is not `tracepoint/...`, a
/// license other than the first unit's, a frame over 512 bytes or a code
/// generation failure, and the first refusal is the result. With no units
/// the result is "no tracepoint units found". Otherwise the object holds
/// the maps, each unit's code and relocations, and the first unit's license.
#[verifier::rlimit(100)]
#[verifier::spinoff_prover]
pub fn emit_program(program: &ProgramIr) -> (r: Result<Vec<u8>, String>)
    ensures
        maps_error(program.maps@) matches Some(e) ==> (r matches Err(m) && m@ == e),
        maps_error(program.maps@) is None ==> exists|s: MapsSection| #[trigger] maps_section_of(s, program.maps@) && {
            let units = program.units@;
            let lic = object_license(units);
            match direct_error(units, lic, s) {
                Some(e) => r matches Err(m) && m@ == e,
                None => if units.len() == 0 {
                    r matches Err(m) && m@ == "no tracepoint units found"@
                } else {
                    match r {
                        Ok(b) => exists|progs: Seq<ProgramSection>, secs: Seq<ElfSection>|
                            #[trigger] direct_programs(progs, units, lic, s) && #[trigger] object_layout(b@, secs, s, progs, lic),
                        Err(m) => m@ == "object file too large"@ && exists|progs: Seq<ProgramSection>, secs: Seq<ElfSection>|
                            #[trigger] direct_programs(progs, units, lic, s) && #[trigger] object_sections(secs, s, progs, lic)
                                && elf_len(secs) + 32 > usize::MAX,
                    }
                },
            }
        },
        r matches Ok(b) ==> is_bpf_elf(b@),
{
    let maps = build_maps(&program.maps)?;
    let ghost units = program.units@;
    let ghost lic = object_license(units);
    assert(maps_section_of(maps, program.maps@));
    let mut license: Option<String> = None;
    let mut programs: Vec<ProgramSection> = Vec::new();
    let mut i: usize = 0;
    while i < program.units.len()
        invariant
            i <= program.units@.len(),
            units == program.units@,
            lic == object_license(units),
            maps_error(program.maps@) is None,
            maps_section_of(maps, program.maps@),
            direct_error(units.subrange(0, i as int), lic, maps) is None,
            direct_programs(programs@, units.subrange(0, i as int), lic, maps),
            forall|j: int, k: int| 0 <= j < i && 0 <= k < programs@[j].relocs@.len()
                ==> #[trigger] map_named(maps, programs@[j].relocs@[k].map_name@),
            i == 0 <==> license is None,
            license matches Some(l) ==> l@ == lic,
        decreases program.units@.len() - i,
    {
        let unit = &program.units[i];
        let ghost pre = units.subrange(0, i + 1);
        proof {
            assert(pre.drop_last() =~= units.subrange(0, i as int));
            assert(pre.last() == units[i as int]);
        }
        if unit.sections.len() == 0 {
            let m = concat3("unit '", unit.name.as_str(), "' missing section");
            proof { lemma_direct_error_prefix(units, lic, maps, i + 1); }
            return Err(m);
        }
        let sec = unit.sections[0].as_str();
        if !starts_with(sec, "tracepoint/") {
            let m = concat3("direct object backend currently supports only tracepoint/*, got '", sec, "'");
            proof { lemma_direct_error_prefix(units, lic, maps, i + 1); }
            return Err(m);
        }
        match &license {
            None => {
                license = Some(owned(unit.license.as_str()));
            },
            Some(x) => {
                if !str_eq(x.as_str(), unit.license.as_str()) {
                    let mut m = concat3("all units in one object must share same license: '", x.as_str(), "' vs '");
                    m.append(unit.license.as_str());
                    m.append("'");
                    proof { lemma_direct_error_prefix(units, lic, maps, i + 1); }
                    return Err(m);
                }
            },
        }
        let prog = match emit_tracepoint(unit, sec, &maps) {
            Ok(p) => p,
            Err(e) => {
                proof { lemma_direct_error_prefix(units, lic, maps, i + 1); }
                return Err(e);
            },
        };
        let ghost before = programs@;
        proof {
            assert(unit.license@ == lic);
            assert(is_prefix_of("tracepoint/"@, unit.sections@[0]@));
            assert(frame_size(unit.blocks@) <= 512);
            assert(direct_unit(*unit, lic, maps) == Ok::<(Seq<u8>, Seq<RelocRequest>), Seq<char>>((prog.code@, prog.relocs@)));
        }
        programs.push(prog);
        proof {
            let w = choose|w: Seq<BpfInsn>| well_formed_section(prog, w, maps);
            assert(programs@ == before.push(prog));
            lemma_direct_step(before, prog, units, i as int, lic, maps);
        }
        i = i + 1;
    }
    assert(units.subrange(0, units.len() as int) =~= units);
    if programs.len() == 0 {
        return Err(owned("no tracepoint units found"));
    }
    let lic_str = match &license {
        Some(l) => l.as_str(),
        None => "GPL",
    };
    proof {
        assert forall|q: int, k: int| 0 <= q < programs@.len() && 0 <= k < programs@[q].relocs@.len()
            implies (#[trigger] record_index(maps, programs@[q].relocs@[k].map_name@)) is Some by {
            assert(map_named(maps, programs@[q].relocs@[k].map_name@));
        }
        assert(relocs_resolve(maps, programs@));
    }
    let r = build_object(&maps, &programs, lic_str);
    proof {
        assert(direct_programs(programs@, units, lic, maps));
    }
    r
}

} // verus!
