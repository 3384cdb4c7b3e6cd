//! The native back end: eBPF code for tracepoint units and the ELF object
//! around it.
pub mod elf;
pub mod insn;
pub mod model;
pub mod tracepoint;

use vstd::prelude::*;
use crate::ast::unit::ProgramKind;
use crate::ast::map::MapDecl;
use vstd::utf8::encode_utf8;
use crate::emit::bytes::zeros;
use crate::emit::ebpf::elf::{
    btf_blob_of, btf_map_size, first_unresolved, latest_map_symbol, map_offset, new_btf_views, object_file, object_license,
    object_sections, object_symbol, objects_alike, plain_section, rel_bytes, relocs_resolve, section_alike, symbol_alike,
    symbol_is, unknown_map_message, lemma_object_file_alike, BpfObject, ProgramReloc, Section, Symbol,
};
use crate::emit::elf::{elf_len, ElfSection, SHF_ALLOC, SHF_EXECINSTR, SHF_WRITE, SHT_PROGBITS, SHT_REL, STB_GLOBAL, STB_LOCAL, STT_FUNC, STT_OBJECT};
use crate::emit::ebpf::model::gen_code;
use crate::emit::vars::branch_ids;
use crate::emit::elf::is_bpf_elf;
use crate::emit::ebpf::tracepoint::{compile_tracepoint, frame_bytes, frame_error, insns_le};
use crate::ir::program::ProgramIr;
use crate::ir::unit::UnitIr;
use crate::text::{concat3, is_prefix_of, starts_with};

verus! {

/// A unit this back end can compile: its first section is a
/// `tracepoint/...` section and it is a tracepoint program.
pub open spec fn native_supported(u: UnitIr) -> bool {
    u.sections@.len() > 0 && u.program_type == ProgramKind::Tracepoint
        && is_prefix_of("tracepoint/"@, u.sections@[0]@)
}

/// Why a unit is refused, if it is.
pub open spec fn native_unit_error(u: UnitIr) -> Option<Seq<char>> {
    if u.sections@.len() == 0 {
        Some("unit '"@ + u.name@ + "' has no section"@)
    } else if !native_supported(u) {
        Some("native Rust backend currently supports only tracepoint sections, got '"@ + u.sections@[0]@ + "'"@)
    } else {
        None
    }
}

/// The first refused unit's error, if any.
pub open spec fn first_native_error(units: Seq<UnitIr>) -> Option<Seq<char>>
    decreases units.len(),
{
    if units.len() == 0 {
        None
    } else {
        match first_native_error(units.drop_last()) {
            Some(e) => Some(e),
            None => native_unit_error(units.last()),
        }
    }
}

proof fn lemma_first_native_error_prefix(units: Seq<UnitIr>, i: int)
    requires
        0 <= i <= units.len(),
        first_native_error(units.subrange(0, i)) is Some,
    ensures
        first_native_error(units) == first_native_error(units.subrange(0, i)),
    decreases units.len() - i,
{
    if i < units.len() {
        assert(units.drop_last().subrange(0, i) == units.subrange(0, i));
        lemma_first_native_error_prefix(units.drop_last(), i);
    } else {
        assert(units.subrange(0, i) == units);
    }
}

/// A program the back end accepts has only supported units.
pub proof fn lemma_no_native_error(units: Seq<UnitIr>, i: int)
    requires
        first_native_error(units) is None,
        0 <= i < units.len(),
    ensures
        native_supported(units[i]),
    decreases units.len(),
{
    if i < units.len() - 1 {
        lemma_no_native_error(units.drop_last(), i);
    }
}

/// Some map of `maps` is named `name`.
pub open spec fn has_map(maps: Seq<MapDecl>, name: Seq<char>) -> bool {
    exists|i: int| 0 <= i < maps.len() && (#[trigger] maps[i]).name@ == name
}

/// The map named by the first relocation whose map is not among `maps`.
pub open spec fn first_unknown_map(relocs: Seq<ProgramReloc>, maps: Seq<MapDecl>) -> Option<Seq<char>>
    decreases relocs.len(),
{
    if relocs.len() == 0 {
        None
    } else {
        match first_unknown_map(relocs.drop_last(), maps) {
            Some(x) => Some(x),
            None => if has_map(maps, relocs.last().symbol@) { None } else { Some(relocs.last().symbol@) },
        }
    }
}

/// Why code generation fails for unit `u`, if it does: a frame over 512
/// bytes, a failure of the code itself, or a relocation against a map that
/// is not declared.
pub open spec fn native_codegen_error(u: UnitIr, maps: Seq<MapDecl>) -> Option<Seq<char>> {
    if frame_bytes(u.blocks@) > 512 {
        Some(frame_error(u.name@, frame_bytes(u.blocks@)))
    } else {
        match gen_code(u.blocks@, branch_ids(u.blocks@)) {
            Err(m) => Some(m),
            Ok((_, relocs)) => match first_unknown_map(relocs, maps) {
                Some(name) => Some(unknown_map_message(name)),
                None => None,
            },
        }
    }
}

/// The first unit's code generation failure, if any.
pub open spec fn first_codegen_error(units: Seq<UnitIr>, maps: Seq<MapDecl>) -> Option<Seq<char>>
    decreases units.len(),
{
    if units.len() == 0 {
        None
    } else {
        match first_codegen_error(units.drop_last(), maps) {
            Some(e) => Some(e),
            None => native_codegen_error(units.last(), maps),
        }
    }
}

/// The code of a unit that compiles.
#[verifier::opaque]
pub open spec fn unit_code(u: UnitIr) -> Seq<u8> {
    match gen_code(u.blocks@, branch_ids(u.blocks@)) {
        Ok((insns, _)) => insns_le(insns),
        Err(_) => Seq::empty(),
    }
}

/// The relocations of a unit that compiles.
#[verifier::opaque]
pub open spec fn unit_relocs(u: UnitIr) -> Seq<ProgramReloc> {
    match gen_code(u.blocks@, branch_ids(u.blocks@)) {
        Ok((_, relocs)) => relocs,
        Err(_) => Seq::empty(),
    }
}

/// The sections before the first program: the null section and the
/// license, then `.maps` and `.BTF` when there are maps.
pub open spec fn base_sections(maps: Seq<MapDecl>) -> nat {
    if maps.len() > 0 { 4 } else { 2 }
}

/// The sections the first `k` units add: their code, and a `.rel` section
/// for each that has relocations.
pub open spec fn sections_before(units: Seq<UnitIr>, k: int) -> nat
    decreases k,
{
    if k <= 0 {
        0
    } else {
        sections_before(units, k - 1) + 1 + (if unit_relocs(units[k - 1]).len() > 0 { 1nat } else { 0nat })
    }
}

/// The index of unit `k`'s code section.
pub open spec fn code_index(program: ProgramIr, k: int) -> nat {
    base_sections(program.maps@) + sections_before(program.units@, k)
}

/// Unit `u`'s sections start at `n`: its code under its first section's
/// name, then, when it has relocations, their `.rel` section.
pub open spec fn unit_sections_at(secs: Seq<Section>, u: UnitIr, n: int, ms: Seq<(String, usize)>) -> bool {
    &&& plain_section(secs[n], u.sections@[0]@, SHT_PROGBITS, SHF_ALLOC | SHF_EXECINSTR, 8, unit_code(u))
    &&& unit_relocs(u).len() > 0 ==> {
        &&& secs[n + 1].name@ == ".rel"@ + u.sections@[0]@
        &&& secs[n + 1].sh_type == SHT_REL
        &&& secs[n + 1].flags == 0
        &&& secs[n + 1].align == 8
        &&& secs[n + 1].entsize == 16
        &&& secs[n + 1].link == 0
        &&& secs[n + 1].info == (#[verifier::truncate] (n as u16)) as u32
        &&& secs[n + 1].data@ == rel_bytes(unit_relocs(u), ms)
    }
}

/// The map symbols of an object built for `maps`: each map's name, with
/// the index of its symbol, which follows the null and license symbols.
pub open spec fn map_symbols_for(ms: Seq<(String, usize)>, maps: Seq<MapDecl>) -> bool {
    &&& symbols_name_maps(ms, maps)
    &&& forall|i: int| 0 <= i < maps.len() ==> (#[trigger] ms[i]).1 == 2 + i
}

/// `o` holds what the native back end builds for `program` up to its first
/// `k` units: the null section, the license, the maps' `.maps` and `.BTF`
/// sections when there are maps, then each of those units' code and
/// relocations; the null symbol, the `LICENSE` symbol, one symbol per map
/// and one per unit.
#[verifier::opaque]
pub open spec fn native_object_upto(o: BpfObject, program: ProgramIr, k: int) -> bool {
    let units = program.units@;
    let maps = program.maps@;
    let secs = o.sections();
    let syms = o.symbols();
    let lic = encode_utf8(object_license(program));
    &&& 0 <= k <= units.len()
    &&& secs.len() == code_index(program, k)
    &&& plain_section(secs[0], Seq::empty(), 0, 0, 0, Seq::empty())
    &&& plain_section(secs[1], "license"@, SHT_PROGBITS, SHF_ALLOC | SHF_WRITE, 1, lic + seq![0u8])
    &&& maps.len() > 0 ==> plain_section(secs[2], ".maps"@, SHT_PROGBITS, SHF_ALLOC | SHF_WRITE, 8,
        zeros(map_offset(maps, maps.len() as int)))
    &&& maps.len() > 0 ==> plain_section(secs[3], ".BTF"@, SHT_PROGBITS, 0, 4,
        btf_blob_of(new_btf_views(maps), map_offset(maps, maps.len() as int) as u32))
    &&& forall|j: int| 0 <= j < k ==> #[trigger] unit_sections_at(secs, units[j], code_index(program, j) as int, o.map_symbols())
    &&& syms.len() == 2 + maps.len() + k
    &&& symbol_is(syms[0], Seq::empty(), STB_LOCAL, 0, 0, 0, 0)
    &&& symbol_is(syms[1], "LICENSE"@, STB_GLOBAL, STT_OBJECT, 1, 0, (((lic.len() as usize) as u64).wrapping_add(1)))
    &&& forall|i: int| 0 <= i < maps.len() ==> symbol_is(#[trigger] syms[2 + i], object_symbol(maps[i].name@), STB_GLOBAL,
        STT_OBJECT, 2, map_offset(maps, i) as u64, btf_map_size(maps[i]) as u64)
    &&& forall|j: int| 0 <= j < k ==> symbol_is(#[trigger] syms[2 + maps.len() + j], object_symbol(units[j].name@),
        STB_GLOBAL, STT_FUNC, #[verifier::truncate] (code_index(program, j) as u16), 0, unit_code(units[j]).len() as u64)
    &&& map_symbols_for(o.map_symbols(), maps)
}

/// `o` is the object the native back end builds for `program`, with every
/// unit added.
pub open spec fn native_object_is(o: BpfObject, program: ProgramIr) -> bool {
    native_object_upto(o, program, program.units@.len() as int)
}

/// `b` is the object file the native back end writes for `program`.
pub open spec fn native_image(program: ProgramIr, b: Seq<u8>) -> bool {
    exists|o: BpfObject, secs: Seq<ElfSection>| native_object_is(o, program) && #[trigger] object_file(o, b, secs)
}

/// The object file for `program` would not fit in memory.
pub open spec fn native_too_large(program: ProgramIr) -> bool {
    exists|o: BpfObject, secs: Seq<ElfSection>| native_object_is(o, program) && #[trigger] object_sections(o, secs)
        && elf_len(secs) + 32 > usize::MAX
}

/// What the native back end gives for `program`: the first refused unit's
/// error, else the first code generation failure, else the object file,
/// or `object file too large` when that file would not fit in memory.
pub open spec fn native_outcome(program: ProgramIr, r: Result<Seq<u8>, Seq<char>>) -> bool {
    match first_native_error(program.units@) {
        Some(e) => r == Err::<Seq<u8>, Seq<char>>(e),
        None => match first_codegen_error(program.units@, program.maps@) {
            Some(e) => r == Err::<Seq<u8>, Seq<char>>(e),
            None => match r {
                Ok(b) => native_image(program, b),
                Err(m) => m == "object file too large"@ && native_too_large(program),
            },
        },
    }
}

/// A result as plain values.
pub open spec fn outcome_view(r: Result<Vec<u8>, String>) -> Result<Seq<u8>, Seq<char>> {
    match r {
        Ok(b) => Ok(b@),
        Err(m) => Err(m@),
    }
}

/// A failure in a prefix of the units is the failure of all of them.
proof fn lemma_first_codegen_error_prefix(units: Seq<UnitIr>, maps: Seq<MapDecl>, k: int)
    requires
        0 <= k <= units.len(),
        first_codegen_error(units.subrange(0, k), maps) is Some,
    ensures
        first_codegen_error(units, maps) == first_codegen_error(units.subrange(0, k), maps),
    decreases units.len(),
{
    if k < units.len() {
        let pre = units.drop_last();
        assert(pre.subrange(0, k) =~= units.subrange(0, k));
        lemma_first_codegen_error_prefix(pre, maps, k);
    } else {
        assert(units.subrange(0, k) =~= units);
    }
}

/// The map symbols name exactly the declared maps.
pub open spec fn symbols_name_maps(ms: Seq<(String, usize)>, maps: Seq<MapDecl>) -> bool {
    &&& ms.len() == maps.len()
    &&& forall|i: int| 0 <= i < maps.len() ==> (#[trigger] ms[i]).0@ == maps[i].name@
}

proof fn lemma_latest_symbol_has_map(ms: Seq<(String, usize)>, maps: Seq<MapDecl>, name: Seq<char>)
    requires
        symbols_name_maps(ms, maps),
    ensures
        latest_map_symbol(ms, name) is Some <==> has_map(maps, name),
    decreases ms.len(),
{
    if ms.len() > 0 {
        let mp = maps.drop_last();
        let mq = ms.drop_last();
        assert(symbols_name_maps(mq, mp)) by {
            assert forall|i: int| 0 <= i < mp.len() implies (#[trigger] mq[i]).0@ == mp[i].name@ by {
                assert(ms[i].0@ == maps[i].name@);
            }
        }
        lemma_latest_symbol_has_map(mq, mp, name);
        assert(ms[ms.len() - 1].0@ == maps[maps.len() - 1].name@);
        if has_map(mp, name) {
            let i = choose|i: int| 0 <= i < mp.len() && (#[trigger] mp[i]).name@ == name;
            assert(maps[i] == mp[i]);
        }
        if has_map(maps, name) && !has_map(mp, name) {
            let i = choose|i: int| 0 <= i < maps.len() && (#[trigger] maps[i]).name@ == name;
            if i < mp.len() {
                assert(mp[i] == maps[i]);
            }
        }
    }
}

/// How the first unresolved relocation shows in `first_unknown_map`.
proof fn lemma_first_unknown(relocs: Seq<ProgramReloc>, ms: Seq<(String, usize)>, maps: Seq<MapDecl>)
    requires
        symbols_name_maps(ms, maps),
    ensures
        relocs_resolve(relocs, ms) ==> first_unknown_map(relocs, maps) is None,
        forall|j: int| #[trigger] first_unresolved(relocs, ms, j) ==> first_unknown_map(relocs, maps) == Some(relocs[j].symbol@),
    decreases relocs.len(),
{
    reveal(first_unresolved);
    assert forall|name: Seq<char>| #[trigger] latest_map_symbol(ms, name) is Some <==> has_map(maps, name) by {
        lemma_latest_symbol_has_map(ms, maps, name);
    }
    if relocs.len() > 0 {
        let pre = relocs.drop_last();
        lemma_first_unknown(pre, ms, maps);
        if relocs_resolve(relocs, ms) {
            assert(relocs_resolve(pre, ms)) by {
                assert forall|j: int| 0 <= j < pre.len() implies (#[trigger] latest_map_symbol(ms, pre[j].symbol@)) is Some by {
                    assert(pre[j] == relocs[j]);
                }
            }
            assert(latest_map_symbol(ms, relocs[relocs.len() - 1].symbol@) is Some);
        }
        assert forall|j: int| #[trigger] first_unresolved(relocs, ms, j) implies first_unknown_map(relocs, maps) == Some(relocs[j].symbol@) by {
            if j < pre.len() {
                assert(first_unresolved(pre, ms, j)) by {
                    assert(pre[j] == relocs[j]);
                    assert forall|i: int| 0 <= i < j implies (#[trigger] latest_map_symbol(ms, pre[i].symbol@)) is Some by {
                        assert(pre[i] == relocs[i]);
                        assert(latest_map_symbol(ms, relocs[i].symbol@) is Some);
                    }
                }
            } else {
                assert(relocs_resolve(pre, ms)) by {
                    assert forall|i: int| 0 <= i < pre.len() implies (#[trigger] latest_map_symbol(ms, pre[i].symbol@)) is Some by {
                        assert(pre[i] == relocs[i]);
                        assert(latest_map_symbol(ms, relocs[i].symbol@) is Some);
                    }
                }
            }
        }
    }
}


proof fn lemma_sections_before_mono(units: Seq<UnitIr>, j: int, k: int)
    requires
        0 <= j <= k,
    ensures
        sections_before(units, j) <= sections_before(units, k),
    decreases k - j,
{
    if j < k {
        lemma_sections_before_mono(units, j, k - 1);
    }
}

/// The object after the license and the maps holds what is built before
/// any unit.
proof fn lemma_native_base(o0: BpfObject, o1: BpfObject, o2: BpfObject, program: ProgramIr)
    requires
        o0.sections().len() == 1,
        plain_section(o0.sections()[0], Seq::empty(), 0, 0, 0, Seq::empty()),
        o0.symbols().len() == 1,
        symbol_is(o0.symbols()[0], Seq::empty(), STB_LOCAL, 0, 0, 0, 0),
        o0.map_symbols().len() == 0,
        o0.btf_map_views().len() == 0,
        o1.sections().len() == 2,
        o1.sections().subrange(0, 1) == o0.sections(),
        plain_section(o1.sections().last(), "license"@, SHT_PROGBITS, SHF_ALLOC | SHF_WRITE, 1,
            encode_utf8(object_license(program)) + seq![0u8]),
        o1.symbols().len() == 2,
        o1.symbols().subrange(0, 1) == o0.symbols(),
        symbol_is(o1.symbols().last(), "LICENSE"@, STB_GLOBAL, STT_OBJECT, 1, 0,
            (((encode_utf8(object_license(program)).len() as usize) as u64).wrapping_add(1))),
        o1.map_symbols() == o0.map_symbols(),
        o1.btf_map_views() == o0.btf_map_views(),
        program.maps@.len() == 0 ==> o2.sections() == o1.sections() && o2.symbols() == o1.symbols()
            && o2.map_symbols() == o1.map_symbols(),
        program.maps@.len() > 0 ==> o2.btf_map_views() == o1.btf_map_views() + new_btf_views(program.maps@)
            && o2.sections()[3].data@ == btf_blob_of(o2.btf_map_views(),
                map_offset(program.maps@, program.maps@.len() as int) as u32),
        program.maps@.len() > 0 ==> {
            let maps = program.maps@;
            &&& o2.sections().len() == 4
            &&& o2.sections().subrange(0, 2) == o1.sections()
            &&& plain_section(o2.sections()[2], ".maps"@, SHT_PROGBITS, SHF_ALLOC | SHF_WRITE, 8,
                zeros(map_offset(maps, maps.len() as int)))
            &&& plain_section(o2.sections()[3], ".BTF"@, SHT_PROGBITS, 0, 4, o2.sections()[3].data@)
            &&& o2.symbols().len() == 2 + maps.len()
            &&& o2.symbols().subrange(0, 2) == o1.symbols()
            &&& forall|i: int| 0 <= i < maps.len() ==> symbol_is(#[trigger] o2.symbols()[2 + i],
                object_symbol(maps[i].name@), STB_GLOBAL, STT_OBJECT, 2, map_offset(maps, i) as u64,
                btf_map_size(maps[i]) as u64)
            &&& o2.map_symbols().len() == maps.len()
            &&& forall|i: int| 0 <= i < maps.len() ==> (#[trigger] o2.map_symbols()[i]).0@ == maps[i].name@
                && o2.map_symbols()[i].1 == 2 + i
        },
    ensures
        native_object_upto(o2, program, 0),
{
    reveal(native_object_upto);
    let maps = program.maps@;
    assert(o1.sections()[0] == o0.sections()[0]);
    assert(o1.symbols()[0] == o0.symbols()[0]);
    if maps.len() > 0 {
        assert(o2.sections()[0] == o1.sections()[0]);
        assert(o2.sections()[1] == o1.sections()[1]);
        assert(o2.symbols()[0] == o1.symbols()[0]);
        assert(o2.symbols()[1] == o1.symbols()[1]);
        assert(o2.btf_map_views() =~= new_btf_views(maps));
    }
}

proof fn lemma_upto_map_symbols(o: BpfObject, program: ProgramIr, k: int)
    requires
        native_object_upto(o, program, k),
    ensures
        map_symbols_for(o.map_symbols(), program.maps@),
        o.sections().len() == code_index(program, k),
{
    reveal(native_object_upto);
}

/// Adding a unit's program to an object built for the units before it
/// builds it for one unit more.
#[verifier::rlimit(100)]
#[verifier::spinoff_prover]
proof fn lemma_native_step(o: BpfObject, o2: BpfObject, program: ProgramIr, k: int)
    requires
        native_object_upto(o, program, k),
        k < program.units@.len(),
        gen_code(program.units@[k].blocks@, branch_ids(program.units@[k].blocks@)) is Ok,
        ({
            let u = program.units@[k];
            let n = o.sections().len() as int;
            let idx = #[verifier::truncate] (n as u16);
            let relocs = unit_relocs(u);
            &&& o2.sections().subrange(0, n) == o.sections()
            &&& plain_section(o2.sections()[n], u.sections@[0]@, SHT_PROGBITS, SHF_ALLOC | SHF_EXECINSTR, 8, unit_code(u))
            &&& relocs.len() == 0 ==> o2.sections().len() == n + 1
            &&& relocs.len() > 0 ==> {
                &&& o2.sections().len() == n + 2
                &&& o2.sections()[n + 1].name@ == ".rel"@ + u.sections@[0]@
                &&& o2.sections()[n + 1].sh_type == SHT_REL
                &&& o2.sections()[n + 1].flags == 0
                &&& o2.sections()[n + 1].align == 8
                &&& o2.sections()[n + 1].entsize == 16
                &&& o2.sections()[n + 1].link == 0
                &&& o2.sections()[n + 1].info == idx as u32
                &&& o2.sections()[n + 1].data@ == rel_bytes(relocs, o.map_symbols())
            }
            &&& o2.symbols() == o.symbols().push(o2.symbols().last())
            &&& symbol_is(o2.symbols().last(), object_symbol(u.name@), STB_GLOBAL, STT_FUNC, idx, 0,
                unit_code(u).len() as u64)
            &&& o2.map_symbols() == o.map_symbols()
        }),
    ensures
        native_object_upto(o2, program, k + 1),
{
    reveal(native_object_upto);
    let units = program.units@;
    let maps = program.maps@;
    let n = o.sections().len() as int;
    let secs = o.sections();
    let secs2 = o2.sections();
    assert(n >= base_sections(maps));
    assert(unit_sections_at(secs2, units[k], n, o2.map_symbols())) by {
        reveal(unit_sections_at);
    }
    assert forall|i: int| 0 <= i < n implies secs2[i] == secs[i] by {
        assert(secs2.subrange(0, n)[i] == secs2[i]);
    }
    lemma_step_unit_sections(secs, secs2, program, k, o.map_symbols());
    let syms = o.symbols();
    let syms2 = o2.symbols();
    lemma_step_unit_symbols(syms, syms2, program, k);
    assert(secs2[0] == secs[0]);
    assert(secs2[1] == secs[1]);
    assert(syms2[0] == syms[0]);
    assert(syms2[1] == syms[1]);
    if maps.len() > 0 {
        assert(secs2[2] == secs[2]);
        assert(secs2[3] == secs[3]);
    }
}

proof fn lemma_step_unit_sections(secs: Seq<Section>, secs2: Seq<Section>, program: ProgramIr, k: int, ms: Seq<(String, usize)>)
    requires
        0 <= k < program.units@.len(),
        secs.len() == code_index(program, k),
        forall|i: int| 0 <= i < secs.len() ==> secs2[i] == secs[i],
        forall|j: int| 0 <= j < k ==> #[trigger] unit_sections_at(secs, program.units@[j], code_index(program, j) as int, ms),
        unit_sections_at(secs2, program.units@[k], code_index(program, k) as int, ms),
    ensures
        forall|j: int| 0 <= j < k + 1 ==> #[trigger] unit_sections_at(secs2, program.units@[j], code_index(program, j) as int, ms),
{
    let units = program.units@;
    assert forall|j: int| 0 <= j < k + 1 implies #[trigger] unit_sections_at(secs2, units[j], code_index(program, j) as int, ms) by {
        if j < k {
            lemma_step_one(secs, secs2, program, k, j, ms);
        }
    }
}

proof fn lemma_step_one(secs: Seq<Section>, secs2: Seq<Section>, program: ProgramIr, k: int, j: int, ms: Seq<(String, usize)>)
    requires
        0 <= j < k < program.units@.len(),
        secs.len() == code_index(program, k),
        forall|i: int| 0 <= i < secs.len() ==> secs2[i] == secs[i],
        unit_sections_at(secs, program.units@[j], code_index(program, j) as int, ms),
    ensures
        unit_sections_at(secs2, program.units@[j], code_index(program, j) as int, ms),
{
    let units = program.units@;
    lemma_sections_before_mono(units, j + 1, k);
    assert(sections_before(units, j + 1) == sections_before(units, j) + 1
        + (if unit_relocs(units[j]).len() > 0 { 1nat } else { 0nat }));
    lemma_unit_sections_transfer(secs, secs2, units[j], code_index(program, j) as int, ms);
}

proof fn lemma_unit_sections_transfer(secs: Seq<Section>, secs2: Seq<Section>, u: UnitIr, c: int, ms: Seq<(String, usize)>)
    requires
        0 <= c,
        c + 1 + (if unit_relocs(u).len() > 0 { 1int } else { 0int }) <= secs.len(),
        forall|i: int| 0 <= i < secs.len() ==> secs2[i] == secs[i],
        unit_sections_at(secs, u, c, ms),
    ensures
        unit_sections_at(secs2, u, c, ms),
{
    reveal(unit_sections_at);
    assert(secs2[c] == secs[c]);
    if unit_relocs(u).len() > 0 {
        assert(secs2[c + 1] == secs[c + 1]);
    }
}

proof fn lemma_step_unit_symbols(syms: Seq<Symbol>, syms2: Seq<Symbol>, program: ProgramIr, k: int)
    requires
        0 <= k < program.units@.len(),
        syms.len() == 2 + program.maps@.len() + k,
        syms2 == syms.push(syms2.last()),
        forall|i: int| 0 <= i < program.maps@.len() ==> symbol_is(#[trigger] syms[2 + i], object_symbol(program.maps@[i].name@),
            STB_GLOBAL, STT_OBJECT, 2, map_offset(program.maps@, i) as u64, btf_map_size(program.maps@[i]) as u64),
        forall|j: int| 0 <= j < k ==> symbol_is(#[trigger] syms[2 + program.maps@.len() + j], object_symbol(program.units@[j].name@),
            STB_GLOBAL, STT_FUNC, #[verifier::truncate] (code_index(program, j) as u16), 0, unit_code(program.units@[j]).len() as u64),
        symbol_is(syms2.last(), object_symbol(program.units@[k].name@), STB_GLOBAL, STT_FUNC,
            #[verifier::truncate] (code_index(program, k) as u16), 0, unit_code(program.units@[k]).len() as u64),
    ensures
        forall|i: int| 0 <= i < program.maps@.len() ==> symbol_is(#[trigger] syms2[2 + i], object_symbol(program.maps@[i].name@),
            STB_GLOBAL, STT_OBJECT, 2, map_offset(program.maps@, i) as u64, btf_map_size(program.maps@[i]) as u64),
        forall|j: int| 0 <= j < k + 1 ==> symbol_is(#[trigger] syms2[2 + program.maps@.len() + j], object_symbol(program.units@[j].name@),
            STB_GLOBAL, STT_FUNC, #[verifier::truncate] (code_index(program, j) as u16), 0, unit_code(program.units@[j]).len() as u64),
{
    let maps = program.maps@;
    assert forall|i: int| 0 <= i < maps.len() implies symbol_is(#[trigger] syms2[2 + i], object_symbol(maps[i].name@),
        STB_GLOBAL, STT_OBJECT, 2, map_offset(maps, i) as u64, btf_map_size(maps[i]) as u64) by {
        assert(syms2[2 + i] == syms[2 + i]);
    }
    assert forall|j: int| 0 <= j < k + 1 implies symbol_is(#[trigger] syms2[2 + maps.len() + j], object_symbol(program.units@[j].name@),
        STB_GLOBAL, STT_FUNC, #[verifier::truncate] (code_index(program, j) as u16), 0, unit_code(program.units@[j]).len() as u64) by {
        if j < k {
            assert(syms2[2 + maps.len() + j] == syms[2 + maps.len() + j]);
        }
    }
}

proof fn lemma_rel_bytes_alike(relocs: Seq<ProgramReloc>, ms1: Seq<(String, usize)>, ms2: Seq<(String, usize)>, maps: Seq<MapDecl>)
    requires
        map_symbols_for(ms1, maps),
        map_symbols_for(ms2, maps),
    ensures
        rel_bytes(relocs, ms1) == rel_bytes(relocs, ms2),
    decreases relocs.len(),
{
    if relocs.len() > 0 {
        lemma_rel_bytes_alike(relocs.drop_last(), ms1, ms2, maps);
        lemma_latest_alike(ms1, ms2, maps, relocs.last().symbol@);
    }
}

proof fn lemma_latest_alike(ms1: Seq<(String, usize)>, ms2: Seq<(String, usize)>, maps: Seq<MapDecl>, name: Seq<char>)
    requires
        map_symbols_for(ms1, maps),
        map_symbols_for(ms2, maps),
    ensures
        latest_map_symbol(ms1, name) == latest_map_symbol(ms2, name),
    decreases ms1.len(),
{
    if ms1.len() > 0 {
        let mp = maps.drop_last();
        let (a, b) = (ms1.drop_last(), ms2.drop_last());
        assert(ms1[ms1.len() - 1].0@ == maps[maps.len() - 1].name@ && ms1[ms1.len() - 1].1 == 2 + (maps.len() - 1));
        assert(ms2[ms2.len() - 1].0@ == maps[maps.len() - 1].name@ && ms2[ms2.len() - 1].1 == 2 + (maps.len() - 1));
        assert(map_symbols_for(a, mp)) by {
            assert forall|i: int| 0 <= i < mp.len() implies (#[trigger] a[i]).0@ == mp[i].name@ && a[i].1 == 2 + i by {
                assert(ms1[i].0@ == maps[i].name@ && ms1[i].1 == 2 + i);
            }
        }
        assert(map_symbols_for(b, mp)) by {
            assert forall|i: int| 0 <= i < mp.len() implies (#[trigger] b[i]).0@ == mp[i].name@ && b[i].1 == 2 + i by {
                assert(ms2[i].0@ == maps[i].name@ && ms2[i].1 == 2 + i);
            }
        }
        lemma_latest_alike(a, b, mp, name);
    }
}

proof fn lemma_native_sections_alike(o1: BpfObject, o2: BpfObject, program: ProgramIr, k: int)
    requires
        native_object_is(o1, program),
        native_object_is(o2, program),
        0 <= k <= program.units@.len(),
    ensures
        forall|i: int| 0 <= i < code_index(program, k) ==> section_alike(#[trigger] o1.sections()[i], o2.sections()[i]),
    decreases k,
{
    reveal(native_object_upto);
    let units = program.units@;
    let maps = program.maps@;
    let (s1, s2) = (o1.sections(), o2.sections());
    if k > 0 {
        lemma_native_sections_alike(o1, o2, program, k - 1);
        let c = code_index(program, k - 1) as int;
        let u = units[k - 1];
        assert(unit_sections_at(s1, u, c, o1.map_symbols()));
        assert(unit_sections_at(s2, u, c, o2.map_symbols()));
        assert(sections_before(units, k) == sections_before(units, k - 1) + 1
            + (if unit_relocs(units[k - 1]).len() > 0 { 1nat } else { 0nat }));
        reveal(unit_sections_at);
        if unit_relocs(u).len() > 0 {
            lemma_rel_bytes_alike(unit_relocs(u), o1.map_symbols(), o2.map_symbols(), maps);
        }
        assert forall|i: int| 0 <= i < code_index(program, k) implies section_alike(#[trigger] s1[i], s2[i]) by {
            if i >= c {
                if i == c {
                    assert(section_alike(s1[c], s2[c]));
                } else {
                    assert(section_alike(s1[c + 1], s2[c + 1]));
                }
            }
        }
    }
}

proof fn lemma_native_objects_alike(o1: BpfObject, o2: BpfObject, program: ProgramIr)
    requires
        native_object_is(o1, program),
        native_object_is(o2, program),
    ensures
        objects_alike(o1, o2),
{
    lemma_native_sections_alike(o1, o2, program, program.units@.len() as int);
    reveal(native_object_upto);
    let maps = program.maps@;
    let units = program.units@;
    let (y1, y2) = (o1.symbols(), o2.symbols());
    assert forall|i: int| 0 <= i < y1.len() implies symbol_alike(#[trigger] y1[i], y2[i]) by {
        if 2 <= i < 2 + maps.len() {
            assert(symbol_is(y1[2 + (i - 2)], object_symbol(maps[i - 2].name@), STB_GLOBAL, STT_OBJECT, 2,
                map_offset(maps, i - 2) as u64, btf_map_size(maps[i - 2]) as u64));
            assert(symbol_is(y2[2 + (i - 2)], object_symbol(maps[i - 2].name@), STB_GLOBAL, STT_OBJECT, 2,
                map_offset(maps, i - 2) as u64, btf_map_size(maps[i - 2]) as u64));
        } else if i >= 2 + maps.len() {
            let j = i - 2 - maps.len();
            assert(symbol_is(y1[2 + maps.len() + j], object_symbol(units[j].name@), STB_GLOBAL, STT_FUNC,
                #[verifier::truncate] (code_index(program, j) as u16), 0, unit_code(units[j]).len() as u64));
            assert(symbol_is(y2[2 + maps.len() + j], object_symbol(units[j].name@), STB_GLOBAL, STT_FUNC,
                #[verifier::truncate] (code_index(program, j) as u16), 0, unit_code(units[j]).len() as u64));
        }
    }
}

/// The native back end's object file for a program is unique: any two
/// files it could write for one program are the same bytes.
pub proof fn lemma_native_image_unique(program: ProgramIr, b1: Seq<u8>, b2: Seq<u8>)
    requires
        native_image(program, b1),
        native_image(program, b2),
    ensures
        b1 == b2,
{
    let (o1, s1) = choose|o: BpfObject, secs: Seq<ElfSection>| native_object_is(o, program) && #[trigger] object_file(o, b1, secs);
    let (o2, s2) = choose|o: BpfObject, secs: Seq<ElfSection>| native_object_is(o, program) && #[trigger] object_file(o, b2, secs);
    lemma_native_objects_alike(o1, o2, program);
    lemma_object_file_alike(o1, o2, s1, s2);
}

/// A program has an object file exactly when that file fits in memory:
/// one that has a file is never too large.
pub proof fn lemma_native_image_fits(program: ProgramIr, b: Seq<u8>)
    requires
        native_image(program, b),
    ensures
        !native_too_large(program),
{
    let (o1, s1) = choose|o: BpfObject, secs: Seq<ElfSection>| native_object_is(o, program) && #[trigger] object_file(o, b, secs);
    if native_too_large(program) {
        let (o2, s2) = choose|o: BpfObject, secs: Seq<ElfSection>| native_object_is(o, program) && #[trigger] object_sections(o, secs)
            && elf_len(secs) + 32 > usize::MAX;
        lemma_native_objects_alike(o1, o2, program);
        lemma_object_file_alike(o1, o2, s1, s2);
    }
}

/// Compiles every unit of a program into one ELF object: the license, the
/// maps and their BTF, one section per tracepoint program, and the symbol,
/// string and relocation tables. Every unit must be a tracepoint program
/// whose first section is a `tracepoint/...` section; the first that is not
/// is reported. A unit whose stack frame is too large is refused.
#[verifier::rlimit(100)]
#[verifier::spinoff_prover]
pub fn emit_program(program: &ProgramIr) -> (r: Result<Vec<u8>, String>)
    ensures
        native_outcome(*program, outcome_view(r)),
        (exists|i: int| 0 <= i < program.units@.len() && frame_bytes(#[trigger] program.units@[i].blocks@) > 512) ==> r is Err,
        r matches Ok(b) ==> is_bpf_elf(b@),
{
    let mut i: usize = 0;
    while i < program.units.len()
        invariant
            i <= program.units@.len(),
            first_native_error(program.units@.subrange(0, i as int)) is None,
        decreases program.units@.len() - i,
    {
        let unit = &program.units[i];
        assert(program.units@.subrange(0, i + 1).drop_last() =~= program.units@.subrange(0, i as int));
        if unit.sections.len() == 0 {
            proof { lemma_first_native_error_prefix(program.units@, i + 1); }
            return Err(concat3("unit '", unit.name.as_str(), "' has no section"));
        }
        let section = &unit.sections[0];
        let is_tp = match unit.program_type { ProgramKind::Tracepoint => true, _ => false };
        if !is_tp || !starts_with(section.as_str(), "tracepoint/") {
            proof { lemma_first_native_error_prefix(program.units@, i + 1); }
            return Err(concat3(
                "native Rust backend currently supports only tracepoint sections, got '",
                section.as_str(),
                "'",
            ));
        }
        i = i + 1;
    }
    assert(program.units@.subrange(0, program.units@.len() as int) =~= program.units@);
    native_object(program)
}

/// The object of a program whose units are all supported: fails with the
/// first unit's code generation failure, or when the file would not fit
/// in memory.
#[verifier::rlimit(100)]
#[verifier::spinoff_prover]
fn native_object(program: &ProgramIr) -> (r: Result<Vec<u8>, String>)
    requires
        first_native_error(program.units@) is None,
    ensures
        native_outcome(*program, outcome_view(r)),
        (exists|i: int| 0 <= i < program.units@.len() && frame_bytes(#[trigger] program.units@[i].blocks@) > 512) ==> r is Err,
        r matches Ok(b) ==> is_bpf_elf(b@),
{
    let mut object = BpfObject::new();
    let ghost o0 = object;
    object.add_license(program)?;
    let ghost o1 = object;
    object.add_maps(&program.maps)?;
    let ghost units = program.units@;
    let ghost maps = program.maps@;
    proof {
        if maps.len() > 0 {
            assert forall|i: int| 0 <= i < maps.len() implies (#[trigger] object.map_symbols()[i]).0@ == maps[i].name@
                && object.map_symbols()[i].1 == 2 + i by {
                assert(object.map_symbols()[o1.map_symbols().len() + i] == object.map_symbols()[i]);
            }
            assert forall|i: int| 0 <= i < maps.len() implies symbol_is(#[trigger] object.symbols()[2 + i],
                object_symbol(maps[i].name@), STB_GLOBAL, STT_OBJECT, 2, map_offset(maps, i) as u64,
                btf_map_size(maps[i]) as u64) by {
                assert(object.symbols()[o1.symbols().len() + i] == object.symbols()[2 + i]);
            }
        }
        lemma_native_base(o0, o1, object, *program);
    }
    let mut k: usize = 0;
    while k < program.units.len()
        invariant
            k <= program.units@.len(),
            units == program.units@,
            maps == program.maps@,
            first_native_error(program.units@) is None,
            object.wf(),
            native_object_upto(object, *program, k as int),
            forall|j: int| 0 <= j < k ==> frame_bytes(#[trigger] program.units@[j].blocks@) <= 512,
            first_codegen_error(units.subrange(0, k as int), maps) is None,
        decreases program.units@.len() - k,
    {
        let unit = &program.units[k];
        proof {
            lemma_no_native_error(program.units@, k as int);
            let pre = units.subrange(0, k + 1);
            assert(pre.drop_last() =~= units.subrange(0, k as int));
            assert(pre.last() == units[k as int]);
        }
        let compiled = match compile_tracepoint(unit) {
            Ok(c) => c,
            Err(e) => {
                proof { lemma_first_codegen_error_prefix(units, maps, k + 1); }
                return Err(e);
            },
        };
        let ghost relocs = compiled.relocs@;
        let ghost ms = object.map_symbols();
        let ghost before = object;
        assert(unit_code(units[k as int]) == compiled.code@ && unit_relocs(units[k as int]) == relocs) by {
            reveal(unit_code);
            reveal(unit_relocs);
        }
        proof {
            lemma_upto_map_symbols(object, *program, k as int);
            lemma_first_unknown(relocs, ms, maps);
        }
        match object.add_program(unit.sections[0].as_str(), unit.name.as_str(), compiled) {
            Ok(()) => {},
            Err(e) => {
                proof {
                    let j = choose|j: int| first_unresolved(relocs, ms, j) && e@ == unknown_map_message(relocs[j].symbol@);
                    assert(first_unknown_map(relocs, maps) == Some(relocs[j].symbol@));
                    lemma_first_codegen_error_prefix(units, maps, k + 1);
                }
                return Err(e);
            },
        }
        proof { lemma_native_step(before, object, *program, k as int); }
        k = k + 1;
    }
    assert(units.subrange(0, units.len() as int) =~= units);
    proof {
        if exists|i: int| 0 <= i < units.len() && frame_bytes(#[trigger] units[i].blocks@) > 512 {
            let i = choose|i: int| 0 <= i < units.len() && frame_bytes(#[trigger] units[i].blocks@) > 512;
            assert(frame_bytes(units[i].blocks@) <= 512);
        }
    }
    let ghost built = object;
    let r = object.encode();
    proof {
        if r is Ok {
            let b = r->Ok_0;
            let secs = choose|secs: Seq<ElfSection>| #[trigger] object_file(built, b@, secs);
            assert(native_object_is(built, *program) && object_file(built, b@, secs));
        } else {
            let secs = choose|secs: Seq<ElfSection>| #[trigger] object_sections(built, secs) && elf_len(secs) + 32 > usize::MAX;
            assert(native_object_is(built, *program) && object_sections(built, secs));
        }
    }
    r
}

} // verus!
