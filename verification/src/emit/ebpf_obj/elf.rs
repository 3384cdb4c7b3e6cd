//! The direct back end's ELF object: BTF, programs and their relocations,
//! the legacy `.maps` section, the license, and the symbol and string
//! tables.
use vstd::prelude::*;
use vstd::string::StringSliceAdditionalSpecFns;
use vstd::utf8::encode_utf8;
use crate::emit::btf::ext::{build_btf_ext, empty_btf_ext};
use crate::emit::btf::{btf_blob, BtfBuilder};
use crate::emit::bytes::{push_slice, push_u16, push_u32, push_u64, u16_le, u32_le, u64_le};
use crate::emit::ebpf_obj::maps::{MapRecord, MapsSection};
use crate::emit::ebpf_obj::tracepoint::{ProgramSection, RelocRequest};
use crate::emit::elf::{
    elf_len, encode_elf, elf_image, is_bpf_elf, lemma_image_is_bpf_elf, valid_align, ElfSection, R_BPF_64_64, SHF_ALLOC, SHF_EXECINSTR, SHF_WRITE, SHT_NULL,
    SHT_PROGBITS, SHT_REL, SHT_STRTAB, SHT_SYMTAB, STB_GLOBAL, STB_LOCAL, STT_FUNC, STT_NOTYPE, STT_OBJECT,
};
use crate::text::{concat2, concat3, owned, str_eq};

verus! {

/// `table` holds `name`'s bytes at `pos`, followed by a zero.
pub open spec fn str_at(table: Seq<u8>, pos: int, name: Seq<char>) -> bool {
    let b = encode_utf8(name);
    &&& 0 <= pos
    &&& pos + b.len() < table.len()
    &&& table.subrange(pos, pos + b.len()) == b
    &&& table[pos + b.len()] == 0
}

/// A string table as a value: its bytes, and each string stored so far
/// with where it starts, in the order stored.
pub type StrtabModel = (Seq<u8>, Seq<(Seq<char>, int)>);

/// The index of the first stored string equal to `s`, if any.
pub open spec fn seen_index(seen: Seq<(Seq<char>, int)>, s: Seq<char>) -> Option<int>
    decreases seen.len(),
{
    if seen.len() == 0 {
        None
    } else if seen[0].0 == s {
        Some(0)
    } else {
        match seen_index(seen.drop_first(), s) {
            Some(k) => Some(k + 1),
            None => None,
        }
    }
}

/// Storing `s` into `t`: the table after it and where `s` starts. A string
/// stored before keeps its place; a new one is appended with a zero.
pub open spec fn strtab_put(t: StrtabModel, s: Seq<char>) -> (StrtabModel, int) {
    match seen_index(t.1, s) {
        Some(k) => (t, t.1[k].1),
        None => ((t.0 + encode_utf8(s) + seq![0u8], t.1.push((s, t.0.len() as int))), t.0.len() as int),
    }
}

/// Storing each of `names` in turn into `t`: the table after, and where
/// each name starts.
pub open spec fn strtab_put_all(t: StrtabModel, names: Seq<Seq<char>>) -> (StrtabModel, Seq<int>)
    decreases names.len(),
{
    if names.len() == 0 {
        (t, Seq::empty())
    } else {
        let prev = strtab_put_all(t, names.drop_last());
        let next = strtab_put(prev.0, names.last());
        (next.0, prev.1.push(next.1))
    }
}

/// The empty string table: a single zero byte.
pub open spec fn empty_strtab() -> StrtabModel {
    (seq![0u8], Seq::empty())
}

proof fn lemma_seen_index_found(seen: Seq<(Seq<char>, int)>, s: Seq<char>, k: int)
    requires
        0 <= k < seen.len(),
        seen[k].0 == s,
        forall|j: int| 0 <= j < k ==> (#[trigger] seen[j]).0 != s,
    ensures
        seen_index(seen, s) == Some(k),
    decreases k,
{
    if k > 0 {
        lemma_seen_index_found(seen.drop_first(), s, k - 1);
    }
}

proof fn lemma_seen_index_none(seen: Seq<(Seq<char>, int)>, s: Seq<char>)
    requires
        forall|j: int| 0 <= j < seen.len() ==> (#[trigger] seen[j]).0 != s,
    ensures
        seen_index(seen, s) is None,
    decreases seen.len(),
{
    if seen.len() > 0 {
        lemma_seen_index_none(seen.drop_first(), s);
    }
}

/// A string table that stores each distinct string once.
struct Strtab {
    bytes: Vec<u8>,
    seen: Vec<(String, usize)>,
}

impl Strtab {
    /// The table as a value.
    spec fn model(&self) -> StrtabModel {
        (self.bytes@, self.seen@.map_values(|e: (String, usize)| (e.0@, e.1 as int)))
    }

    spec fn wf(&self) -> bool {
        &&& self.bytes@.len() >= 1
        &&& self.bytes@[0] == 0
        &&& forall|j: int| 0 <= j < self.seen@.len() ==> str_at(self.bytes@, (#[trigger] self.seen@[j]).1 as int, self.seen@[j].0@)
    }

    fn new() -> (r: Strtab)
        ensures
            r.wf(),
            r.bytes@ == seq![0u8],
            r.model() == empty_strtab(),
    {
        let mut bytes: Vec<u8> = Vec::new();
        bytes.push(0);
        Strtab { bytes, seen: Vec::new() }
    }

    /// The offset of `s` in the table, adding it when it is new.
    fn put(&mut self, s: &str) -> (r: u32)
        requires
            old(self).wf(),
        ensures
            final(self).wf(),
            final(self).bytes@.len() >= old(self).bytes@.len(),
            final(self).bytes@.subrange(0, old(self).bytes@.len() as int) == old(self).bytes@,
            exists|pos: int| str_at(final(self).bytes@, pos, s@) && r == #[verifier::truncate] (pos as u32),
            final(self).model() == strtab_put(old(self).model(), s@).0,
            r == #[verifier::truncate] (strtab_put(old(self).model(), s@).1 as u32),
    {
        let ghost m0 = self.model();
        let mut k: usize = 0;
        while k < self.seen.len()
            invariant
                k <= self.seen@.len(),
                self.wf(),
                self.bytes@ == old(self).bytes@,
                self.seen@ == old(self).seen@,
                m0 == old(self).model(),
                forall|j: int| 0 <= j < k ==> (#[trigger] m0.1[j]).0 != s@,
            decreases self.seen@.len() - k,
        {
            if str_eq(self.seen[k].0.as_str(), s) {
                let pos = self.seen[k].1;
                proof { lemma_seen_index_found(m0.1, s@, k as int); }
                assert(str_at(self.bytes@, self.seen@[k as int].1 as int, s@));
                assert(self.bytes@.subrange(0, old(self).bytes@.len() as int) =~= old(self).bytes@);
                return #[verifier::truncate] (pos as u32);
            }
            k = k + 1;
        }
        proof { lemma_seen_index_none(m0.1, s@); }
        let pos = self.bytes.len();
        let ghost before = self.bytes@;
        push_slice(&mut self.bytes, s.as_bytes());
        self.bytes.push(0);
        assert(self.bytes@.subrange(pos as int, pos + s.spec_bytes().len()) =~= s.spec_bytes());
        assert(self.bytes@.subrange(0, before.len() as int) =~= before);
        assert forall|j: int| 0 <= j < self.seen@.len() implies str_at(self.bytes@, (#[trigger] self.seen@[j]).1 as int, self.seen@[j].0@) by {
            let p = self.seen@[j].1 as int;
            let b = encode_utf8(self.seen@[j].0@);
            assert(str_at(before, p, self.seen@[j].0@));
            assert(self.bytes@.subrange(p, p + b.len()) =~= before.subrange(p, p + b.len()));
            assert(self.bytes@[p + b.len()] == before[p + b.len()]);
        }
        self.seen.push((owned(s), pos));
        assert forall|j: int| 0 <= j < self.seen@.len() implies str_at(self.bytes@, (#[trigger] self.seen@[j]).1 as int, self.seen@[j].0@) by {
            if j < self.seen@.len() - 1 {
                assert(self.seen@[j] == old(self).seen@[j]);
            }
        }
        assert(str_at(self.bytes@, pos as int, s@));
        assert(self.bytes@ =~= m0.0 + encode_utf8(s@) + seq![0u8]);
        assert(self.model().1 =~= m0.1.push((s@, pos as int)));
        #[verifier::truncate] (pos as u32)
    }
}

/// The symbol `info` byte: binding in the high nibble, type in the low.
pub open spec fn bind_type_spec(bind: u8, ty: u8) -> u8 {
    (bind << 4u8) | (ty & 0x0fu8)
}

fn bind_type(bind: u8, ty: u8) -> (r: u8)
    ensures
        r == bind_type_spec(bind, ty),
{
    (bind << 4u8) | (ty & 0x0f)
}

/// The `r_info` of a relocation of type `ty` against symbol `sym`.
pub open spec fn elf64_r_info_spec(sym: u32, ty: u32) -> u64 {
    ((sym as u64) << 32u64) | (ty as u64)
}

fn elf64_r_info(sym: u32, ty: u32) -> (r: u64)
    ensures
        r == elf64_r_info_spec(sym, ty),
{
    ((sym as u64) << 32u64) | (ty as u64)
}

/// An `Elf64_Sym` entry.
pub open spec fn sym_bytes(name: u32, info: u8, shndx: u16, value: u64, size: u64) -> Seq<u8> {
    u32_le(name) + seq![info, 0u8] + u16_le(shndx) + u64_le(value) + u64_le(size)
}

fn push_sym(out: &mut Vec<u8>, st_name: u32, st_info: u8, st_other: u8, st_shndx: u16, st_value: u64, st_size: u64)
    requires
        st_other == 0,
    ensures
        final(out)@ == old(out)@ + sym_bytes(st_name, st_info, st_shndx, st_value, st_size),
{
    push_u32(out, st_name);
    out.push(st_info);
    out.push(st_other);
    push_u16(out, st_shndx);
    push_u64(out, st_value);
    push_u64(out, st_size);
    assert(final(out)@ =~= old(out)@ + sym_bytes(st_name, st_info, st_shndx, st_value, st_size));
}

fn push_rel(out: &mut Vec<u8>, r_offset: u64, r_info: u64)
    ensures
        final(out)@ == old(out)@ + u64_le(r_offset) + u64_le(r_info),
{
    push_u64(out, r_offset);
    push_u64(out, r_info);
}

/// The license bytes: the license, with a zero appended unless it already
/// ends with one.
pub open spec fn license_bytes(license: Seq<char>) -> Seq<u8> {
    let b = encode_utf8(license);
    if b.len() > 0 && b.last() == 0 { b } else { b.push(0) }
}

/// The BTF strings: the empty string, then each program's symbol name.
pub open spec fn btf_program_strings(programs: Seq<ProgramSection>) -> Seq<u8>
    decreases programs.len(),
{
    if programs.len() == 0 {
        seq![0u8]
    } else {
        btf_program_strings(programs.drop_last()) + encode_utf8(programs.last().symbol_name@) + seq![0u8]
    }
}

/// The number of a symbol in the symbol table, as its 32-bit field holds it.
pub open spec fn sym_number(i: int) -> u32 {
    (i % 0x1_0000_0000) as u32
}

/// The map symbols: each record's name with its symbol number, which
/// follows the null symbol and the `p` program symbols.
pub open spec fn map_symbols(records: Seq<MapRecord>, p: int) -> Seq<(Seq<char>, u32)> {
    Seq::new(records.len(), |m: int| (records[m].name@, sym_number(1 + p + m)))
}

/// The symbol number of the last entry named `name`, if any.
pub open spec fn last_sym(ms: Seq<(Seq<char>, u32)>, name: Seq<char>) -> Option<u32>
    decreases ms.len(),
{
    if ms.len() == 0 {
        None
    } else if ms.last().0 == name {
        Some(ms.last().1)
    } else {
        last_sym(ms.drop_last(), name)
    }
}

/// The relocation entries of `relocs`: each at its instruction's byte
/// offset, against the symbol of its map.
pub open spec fn rel_entries(relocs: Seq<RelocRequest>, ms: Seq<(Seq<char>, u32)>) -> Seq<u8>
    decreases relocs.len(),
{
    if relocs.len() == 0 {
        Seq::empty()
    } else {
        rel_entries(relocs.drop_last(), ms) + u64_le(relocs.last().insn_byte_off)
            + u64_le(elf64_r_info_spec(last_sym(ms, relocs.last().map_name@).unwrap(), R_BPF_64_64))
    }
}

/// The indices of the programs that have relocations, in order.
pub open spec fn rel_progs(programs: Seq<ProgramSection>) -> Seq<int>
    decreases programs.len(),
{
    if programs.len() == 0 {
        Seq::empty()
    } else {
        rel_progs(programs.drop_last()) + if programs.last().relocs@.len() > 0 {
            seq![programs.len() - 1]
        } else {
            Seq::<int>::empty()
        }
    }
}

/// The names of the sections after the null one, in order.
pub open spec fn section_names(programs: Seq<ProgramSection>) -> Seq<Seq<char>> {
    let rp = rel_progs(programs);
    seq![".BTF"@, ".BTF.ext"@] + Seq::new(programs.len(), |j: int| programs[j].section_name@)
        + Seq::new(rp.len(), |t: int| ".rel"@ + programs[rp[t]].section_name@) + seq![".maps"@, "license"@, ".strtab"@, ".symtab"@, ".shstrtab"@]
}

/// The names in the symbol table: the null symbol's, each program's, and
/// each map record's.
pub open spec fn symbol_names(programs: Seq<ProgramSection>, maps: MapsSection) -> Seq<Seq<char>> {
    seq![Seq::<char>::empty()] + Seq::new(programs.len(), |a: int| programs[a].symbol_name@)
        + Seq::new(maps.records@.len(), |m: int| maps.records@[m].name@)
}

/// The symbols of programs `0..k`: global functions over their sections,
/// named at `offs[1..]`.
pub open spec fn prog_syms(programs: Seq<ProgramSection>, offs: Seq<int>, k: int) -> Seq<u8>
    decreases k,
{
    if k <= 0 {
        Seq::empty()
    } else {
        prog_syms(programs, offs, k - 1) + sym_bytes(#[verifier::truncate] (offs[k] as u32),
            bind_type_spec(STB_GLOBAL, STT_FUNC), #[verifier::truncate] ((3 + k - 1) as u16), 0,
            programs[k - 1].code@.len() as u64)
    }
}

/// The symbols of map records `0..k`: global objects in the `.maps`
/// section `shndx`, named at `offs[base..]`.
pub open spec fn rec_syms(records: Seq<MapRecord>, offs: Seq<int>, base: int, shndx: u16, k: int) -> Seq<u8>
    decreases k,
{
    if k <= 0 {
        Seq::empty()
    } else {
        rec_syms(records, offs, base, shndx, k - 1) + sym_bytes(#[verifier::truncate] (offs[base + k - 1] as u32),
            bind_type_spec(STB_GLOBAL, STT_OBJECT), shndx, records[k - 1].offset, records[k - 1].size)
    }
}

/// The symbol table: the null symbol, the program symbols, the map symbols,
/// named where the string table built from `symbol_names` puts them.
pub open spec fn symtab_of(programs: Seq<ProgramSection>, maps: MapsSection) -> Seq<u8> {
    let offs = strtab_put_all(empty_strtab(), symbol_names(programs, maps)).1;
    let p = programs.len() as int;
    sym_bytes(#[verifier::truncate] (offs[0] as u32), bind_type_spec(STB_LOCAL, STT_NOTYPE), 0, 0, 0)
        + prog_syms(programs, offs, p)
        + rec_syms(maps.records@, offs, 1 + p, #[verifier::truncate] ((3 + p + rel_progs(programs).len()) as u16),
            maps.records@.len() as int)
}

/// Section `e` has these remaining header fields.
pub open spec fn links_are(e: ElfSection, entsize: u64, link: u32, info: u32) -> bool {
    e.entsize == entsize && e.link == link && e.info == info
}

/// `secs` are the sections of the object of `maps`, `programs` and
/// `license`, every header field and every byte of data given.
pub open spec fn object_sections(secs: Seq<ElfSection>, maps: MapsSection, programs: Seq<ProgramSection>, license: Seq<char>) -> bool {
    let names = strtab_put_all(empty_strtab(), section_names(programs));
    &&& sections_body(secs, maps, programs, license)
    &&& secs[0].name_off == 0
    &&& forall|j: int| 1 <= j < secs.len() ==> (#[trigger] secs[j]).name_off == #[verifier::truncate] (names.1[j - 1] as u32)
    &&& secs[secs.len() - 1].data@ == names.0.0
}

/// The header fields other than names, and the data of every section but
/// the last (the section-name table), of the object of `maps`, `programs`
/// and `license`.
pub open spec fn sections_body(secs: Seq<ElfSection>, maps: MapsSection, programs: Seq<ProgramSection>, license: Seq<char>) -> bool {
    &&& sections_frame(secs, maps, programs, license)
    &&& rel_sections(secs, maps, programs)
}

/// The `.rel` sections: each holds its program's relocation entries, is
/// linked to the symbol table and applies to its program's section.
pub open spec fn rel_sections(secs: Seq<ElfSection>, maps: MapsSection, programs: Seq<ProgramSection>) -> bool {
    let p = programs.len() as int;
    let n = secs.len() as int;
    let ms = map_symbols(maps.records@, p);
    let rp = rel_progs(programs);
    forall|k: int| 3 + p <= k < 3 + p + rp.len() ==> {
        let q = rp[k - 3 - p];
        &&& section_is(#[trigger] secs[k], SHT_REL, 0, 8, rel_entries(programs[q].relocs@, ms))
        &&& links_are(secs[k], 16, (#[verifier::truncate] ((n - 2) as u16)) as u32, (#[verifier::truncate] ((3 + q) as u16)) as u32)
    }
}

/// Every section but the `.rel` ones, as `sections_body` gives them.
pub open spec fn sections_frame(secs: Seq<ElfSection>, maps: MapsSection, programs: Seq<ProgramSection>, license: Seq<char>) -> bool {
    let p = programs.len() as int;
    let n = secs.len() as int;
    let rp = rel_progs(programs);
    &&& n == 8 + p + rp.len()
    &&& section_is(secs[0], SHT_NULL, 0, 0, Seq::empty()) && links_are(secs[0], 0, 0, 0)
    &&& section_is(secs[1], SHT_PROGBITS, 0, 4, btf_blob(Seq::empty(), btf_program_strings(programs))) && links_are(secs[1], 0, 0, 0)
    &&& section_is(secs[2], SHT_PROGBITS, 0, 4, empty_btf_ext()) && links_are(secs[2], 0, 0, 0)
    &&& forall|k: int| 3 <= k < 3 + p ==> section_is(#[trigger] secs[k], SHT_PROGBITS, SHF_ALLOC | SHF_EXECINSTR, 8,
        programs[k - 3].code@) && links_are(secs[k], 0, 0, 0)
    &&& section_is(secs[n - 5], SHT_PROGBITS, SHF_ALLOC | SHF_WRITE, 8, maps.bytes@) && links_are(secs[n - 5], 0, 0, 0)
    &&& section_is(secs[n - 4], SHT_PROGBITS, SHF_ALLOC, 1, license_bytes(license)) && links_are(secs[n - 4], 0, 0, 0)
    &&& section_is(secs[n - 3], SHT_STRTAB, 0, 1, strtab_put_all(empty_strtab(), symbol_names(programs, maps)).0.0)
        && links_are(secs[n - 3], 0, 0, 0)
    &&& section_is(secs[n - 2], SHT_SYMTAB, 0, 8, symtab_of(programs, maps))
        && links_are(secs[n - 2], 24, (#[verifier::truncate] ((n - 3) as u16)) as u32, 1)
    &&& secs[n - 1].sh_type == SHT_STRTAB && secs[n - 1].flags == 0 && secs[n - 1].align == 1 && links_are(secs[n - 1], 0, 0, 0)
}

/// `b` keeps what `a` holds in every section but the last, and the last's
/// header fields: only names and the last section's data may differ.
pub open spec fn same_body(a: Seq<ElfSection>, b: Seq<ElfSection>) -> bool {
    &&& a.len() == b.len()
    &&& a.len() >= 1
    &&& forall|j: int| 0 <= j < a.len() ==> (#[trigger] b[j]).sh_type == a[j].sh_type && b[j].flags == a[j].flags
        && b[j].align == a[j].align && b[j].entsize == a[j].entsize && b[j].link == a[j].link && b[j].info == a[j].info
    &&& forall|j: int| 0 <= j < a.len() - 1 ==> (#[trigger] b[j]).data@ == a[j].data@
}

proof fn lemma_same_body(a: Seq<ElfSection>, b: Seq<ElfSection>, maps: MapsSection, programs: Seq<ProgramSection>, license: Seq<char>)
    requires
        sections_body(a, maps, programs, license),
        same_body(a, b),
    ensures
        sections_body(b, maps, programs, license),
{
    let n = a.len() as int;
    let p = programs.len() as int;
    assert(b[0].data@ == a[0].data@ && b[1].data@ == a[1].data@ && b[2].data@ == a[2].data@);
    assert(b[n - 5].data@ == a[n - 5].data@ && b[n - 4].data@ == a[n - 4].data@);
    assert(b[n - 3].data@ == a[n - 3].data@ && b[n - 2].data@ == a[n - 2].data@);
    assert forall|k: int| 3 <= k < 3 + p implies section_is(#[trigger] b[k], SHT_PROGBITS, SHF_ALLOC | SHF_EXECINSTR, 8,
        programs[k - 3].code@) && links_are(b[k], 0, 0, 0) by {
        assert(section_is(a[k], SHT_PROGBITS, SHF_ALLOC | SHF_EXECINSTR, 8, programs[k - 3].code@));
    }
    let rp = rel_progs(programs);
    let ms = map_symbols(maps.records@, p);
    assert forall|k: int| 3 + p <= k < 3 + p + rp.len() implies {
        let q = rp[k - 3 - p];
        &&& section_is(#[trigger] b[k], SHT_REL, 0, 8, rel_entries(programs[q].relocs@, ms))
        &&& links_are(b[k], 16, (#[verifier::truncate] ((n - 2) as u16)) as u32, (#[verifier::truncate] ((3 + q) as u16)) as u32)
    } by {
        assert(section_is(a[k], SHT_REL, 0, 8, rel_entries(programs[rp[k - 3 - p]].relocs@, ms)));
    }
}

/// The index of the first map record named `name`, if any.
pub open spec fn record_index(maps: MapsSection, name: Seq<char>) -> Option<int> {
    if exists|m: int| 0 <= m < maps.records@.len() && (#[trigger] maps.records@[m]).name@ == name {
        Some(choose|m: int| 0 <= m < maps.records@.len() && (#[trigger] maps.records@[m]).name@ == name)
    } else {
        None
    }
}

/// Every relocation of every program names a map record.
pub open spec fn relocs_resolve(maps: MapsSection, programs: Seq<ProgramSection>) -> bool {
    forall|i: int, j: int| 0 <= i < programs.len() && 0 <= j < programs[i].relocs@.len()
        ==> (#[trigger] record_index(maps, programs[i].relocs@[j].map_name@)) is Some
}

/// Section `i` of `secs` has these header fields and contents.
pub open spec fn section_is(e: ElfSection, sh_type: u32, flags: u64, align: u64, data: Seq<u8>) -> bool {
    e.sh_type == sh_type && e.flags == flags && e.align == align && e.data@ == data
}

fn copy_bytes(v: &Vec<u8>) -> (r: Vec<u8>)
    ensures
        r@ == v@,
{
    let mut out: Vec<u8> = Vec::new();
    push_slice(&mut out, v.as_slice());
    assert(out@ =~= v@);
    out
}

fn section(sh_type: u32, flags: u64, align: u64, entsize: u64, link: u32, info: u32, data: Vec<u8>) -> (r: ElfSection)
    ensures
        r.name_off == 0 && r.sh_type == sh_type && r.flags == flags && r.align == align && r.entsize == entsize
            && r.link == link && r.info == info && r.data@ == data@,
{
    ElfSection { name_off: 0, sh_type, flags, align, entsize, link, info, data }
}

/// The map symbols as names and numbers.
pub open spec fn sym_view(entries: Seq<(String, u32)>) -> Seq<(Seq<char>, u32)> {
    entries.map_values(|e: (String, u32)| (e.0@, e.1))
}

/// The symbol number recorded last for map `name`.
fn lookup_sym(entries: &Vec<(String, u32)>, name: &String) -> (r: Option<u32>)
    ensures
        r == last_sym(sym_view(entries@), name@),
{
    let ghost v = sym_view(entries@);
    let mut k = entries.len();
    assert(v.subrange(0, k as int) =~= v);
    while k > 0
        invariant
            k <= entries@.len(),
            v == sym_view(entries@),
            last_sym(v, name@) == last_sym(v.subrange(0, k as int), name@),
        decreases k,
    {
        let ghost pre = v.subrange(0, k as int);
        assert(pre.drop_last() =~= v.subrange(0, k - 1));
        k = k - 1;
        if str_eq(entries[k].0.as_str(), name.as_str()) {
            return Some(entries[k].1);
        }
    }
    None
}

/// The failure for a relocation against map `name`, which has no symbol.
pub open spec fn missing_symbol_message(name: Seq<char>) -> Seq<char> {
    "missing relocation symbol for map '"@ + name + "'"@
}

/// Relocation `j` of `relocs` is the first whose map has no symbol in `ms`.
pub open spec fn first_missing(relocs: Seq<RelocRequest>, ms: Seq<(Seq<char>, u32)>, j: int) -> bool {
    &&& 0 <= j < relocs.len()
    &&& last_sym(ms, relocs[j].map_name@) is None
    &&& forall|i: int| 0 <= i < j ==> (#[trigger] last_sym(ms, relocs[i].map_name@)) is Some
}

/// Every relocation of `relocs` has a map symbol in `ms`.
pub open spec fn all_have_syms(relocs: Seq<RelocRequest>, ms: Seq<(Seq<char>, u32)>) -> bool {
    forall|j: int| 0 <= j < relocs.len() ==> (#[trigger] last_sym(ms, relocs[j].map_name@)) is Some
}

/// The relocation entries of one program against the map symbols.
fn rel_data_for(prog: &ProgramSection, map_syms: &Vec<(String, u32)>) -> (r: Result<Vec<u8>, String>)
    ensures
        r is Ok <==> all_have_syms(prog.relocs@, sym_view(map_syms@)),
        r matches Ok(d) ==> d@ == rel_entries(prog.relocs@, sym_view(map_syms@)),
        r matches Err(e) ==> exists|j: int| first_missing(prog.relocs@, sym_view(map_syms@), j)
            && e@ == missing_symbol_message(prog.relocs@[j].map_name@),
{
    let ghost ms = sym_view(map_syms@);
    let ghost rs = prog.relocs@;
    let mut out: Vec<u8> = Vec::new();
    let mut j: usize = 0;
    while j < prog.relocs.len()
        invariant
            j <= rs.len(),
            rs == prog.relocs@,
            ms == sym_view(map_syms@),
            all_have_syms(rs.subrange(0, j as int), ms),
            out@ == rel_entries(rs.subrange(0, j as int), ms),
        decreases rs.len() - j,
    {
        let ghost pre = rs.subrange(0, j + 1);
        assert(pre.drop_last() =~= rs.subrange(0, j as int));
        let rel = &prog.relocs[j];
        let sym = match lookup_sym(map_syms, &rel.map_name) {
            Some(s) => s,
            None => {
                assert forall|i: int| 0 <= i < j implies (#[trigger] last_sym(ms, rs[i].map_name@)) is Some by {
                    assert(rs.subrange(0, j as int)[i] == rs[i]);
                }
                assert(first_missing(rs, ms, j as int));
                let msg = concat3("missing relocation symbol for map '", rel.map_name.as_str(), "'");
                assert(msg@ == missing_symbol_message(rs[j as int].map_name@));
                return Err(msg);
            },
        };
        push_rel(&mut out, rel.insn_byte_off, elf64_r_info(sym, R_BPF_64_64));
        j = j + 1;
        assert forall|i: int| 0 <= i < j implies (#[trigger] last_sym(ms, rs.subrange(0, j as int)[i].map_name@)) is Some by {
            if i < j - 1 {
                assert(rs.subrange(0, j as int)[i] == rs.subrange(0, j - 1)[i]);
            }
        }
    }
    assert(rs.subrange(0, rs.len() as int) =~= rs);
    Ok(out)
}

/// The map symbols have a symbol for `name` exactly when some record is so named.
proof fn lemma_map_symbol_found(records: Seq<MapRecord>, p: int, name: Seq<char>)
    ensures
        last_sym(map_symbols(records, p), name) is Some <==> exists|m: int| 0 <= m < records.len() && (#[trigger] records[m]).name@ == name,
    decreases records.len(),
{
    if records.len() > 0 {
        let pre = records.drop_last();
        assert(map_symbols(records, p).drop_last() =~= map_symbols(pre, p));
        lemma_map_symbol_found(pre, p, name);
        if exists|m: int| 0 <= m < records.len() && (#[trigger] records[m]).name@ == name {
            let m = choose|m: int| 0 <= m < records.len() && (#[trigger] records[m]).name@ == name;
            if m < records.len() - 1 {
                assert(pre[m] == records[m]);
            }
        }
        if exists|m: int| 0 <= m < pre.len() && (#[trigger] pre[m]).name@ == name {
            let m = choose|m: int| 0 <= m < pre.len() && (#[trigger] pre[m]).name@ == name;
            assert(records[m] == pre[m]);
        }
    }
}

/// The offsets of a prefix of the names are a prefix of the offsets.
proof fn lemma_put_all_prefix(t: StrtabModel, names: Seq<Seq<char>>, k: int)
    requires
        0 <= k <= names.len(),
    ensures
        strtab_put_all(t, names.subrange(0, k)).1 == strtab_put_all(t, names).1.subrange(0, k),
        strtab_put_all(t, names).1.len() == names.len(),
    decreases names.len(),
{
    if names.len() > 0 {
        let pre = names.drop_last();
        if k < names.len() {
            assert(pre.subrange(0, k) =~= names.subrange(0, k));
            lemma_put_all_prefix(t, pre, k);
        } else {
            assert(names.subrange(0, k) =~= names);
            lemma_put_all_prefix(t, pre, pre.len() as int);
        }
        lemma_put_all_prefix(t, pre, 0);
        assert(strtab_put_all(t, names).1.subrange(0, k) =~= strtab_put_all(t, names.subrange(0, k)).1);
    }
}

/// Storing one more name extends the table of the prefix.
proof fn lemma_put_all_step(t: StrtabModel, names: Seq<Seq<char>>, k: int)
    requires
        0 <= k < names.len(),
    ensures
        strtab_put_all(t, names.subrange(0, k + 1)).0 == strtab_put(strtab_put_all(t, names.subrange(0, k)).0, names[k]).0,
        strtab_put_all(t, names).1[k] == strtab_put(strtab_put_all(t, names.subrange(0, k)).0, names[k]).1,
{
    let next = names.subrange(0, k + 1);
    assert(next.drop_last() =~= names.subrange(0, k));
    assert(next.last() == names[k]);
    lemma_put_all_prefix(t, names, k + 1);
    lemma_put_all_prefix(t, names, 0);
    lemma_put_all_prefix(t, names.subrange(0, k), 0);
    let prev = strtab_put_all(t, names.subrange(0, k));
    assert(prev.1.len() == k);
    assert(strtab_put_all(t, next).1 == prev.1.push(strtab_put(prev.0, names[k]).1));
    assert(strtab_put_all(t, names).1[k] == strtab_put_all(t, next).1[k]);
}

/// The layout of the object of `maps`, `programs` and `license` is `secs`,
/// and `b` is the file written from them.
pub open spec fn object_layout(b: Seq<u8>, secs: Seq<ElfSection>, maps: MapsSection, programs: Seq<ProgramSection>, license: Seq<char>) -> bool {
    &&& object_sections(secs, maps, programs, license)
    &&& b == elf_image(secs, #[verifier::truncate] ((secs.len() - 1) as u16))
}

/// Relocation `j` of program `q` is the first whose map has no record:
/// every relocation of earlier programs, and every earlier one of program
/// `q`, names a record.
pub open spec fn first_missing_reloc(maps: MapsSection, programs: Seq<ProgramSection>, q: int, j: int) -> bool {
    &&& 0 <= q < programs.len()
    &&& forall|i: int, k: int| 0 <= i < q && 0 <= k < programs[i].relocs@.len()
        ==> (#[trigger] record_index(maps, programs[i].relocs@[k].map_name@)) is Some
    &&& 0 <= j < programs[q].relocs@.len()
    &&& forall|k: int| 0 <= k < j ==> (#[trigger] record_index(maps, programs[q].relocs@[k].map_name@)) is Some
    &&& record_index(maps, programs[q].relocs@[j].map_name@) is None
}

/// The indices of the programs with relocations are in range, increasing,
/// and are all of them.
proof fn lemma_rel_progs(programs: Seq<ProgramSection>)
    ensures
        forall|t: int| 0 <= t < rel_progs(programs).len() ==> 0 <= #[trigger] rel_progs(programs)[t] < programs.len()
            && programs[rel_progs(programs)[t]].relocs@.len() > 0,
        forall|t: int, u: int| 0 <= t < u < rel_progs(programs).len() ==> #[trigger] rel_progs(programs)[t] < #[trigger] rel_progs(programs)[u],
        forall|i: int| 0 <= i < programs.len() && (#[trigger] programs[i]).relocs@.len() > 0
            ==> exists|t: int| 0 <= t < rel_progs(programs).len() && rel_progs(programs)[t] == i,
    decreases programs.len(),
{
    if programs.len() > 0 {
        let pre = programs.drop_last();
        lemma_rel_progs(pre);
        let rp = rel_progs(programs);
        let rq = rel_progs(pre);
        assert forall|t: int| 0 <= t < rq.len() implies rp[t] == rq[t] && pre[rq[t]] == programs[rq[t]] by {}
        assert forall|i: int| 0 <= i < programs.len() && (#[trigger] programs[i]).relocs@.len() > 0
            implies exists|t: int| 0 <= t < rp.len() && rp[t] == i by {
            if i < pre.len() {
                assert(pre[i] == programs[i]);
                let t = choose|t: int| 0 <= t < rq.len() && rq[t] == i;
                assert(rp[t] == i);
            } else {
                assert(rp[rq.len() as int] == i);
            }
        }
    }
}

/// A frame kept outside the `.rel` sections is kept.
proof fn lemma_frame_kept(a: Seq<ElfSection>, b: Seq<ElfSection>, maps: MapsSection, programs: Seq<ProgramSection>, license: Seq<char>)
    requires
        sections_frame(a, maps, programs, license),
        a.len() == b.len(),
        forall|k: int| 0 <= k < a.len() && !(3 + programs.len() <= k < 3 + programs.len() + rel_progs(programs).len())
            ==> #[trigger] b[k] == a[k],
    ensures
        sections_frame(b, maps, programs, license),
{
    let n = a.len() as int;
    let p = programs.len() as int;
    assert(b[0] == a[0] && b[1] == a[1] && b[2] == a[2]);
    assert(b[n - 5] == a[n - 5] && b[n - 4] == a[n - 4] && b[n - 3] == a[n - 3] && b[n - 2] == a[n - 2] && b[n - 1] == a[n - 1]);
    assert forall|k: int| 3 <= k < 3 + p implies section_is(#[trigger] b[k], SHT_PROGBITS, SHF_ALLOC | SHF_EXECINSTR, 8,
        programs[k - 3].code@) && links_are(b[k], 0, 0, 0) by {
        assert(b[k] == a[k]);
    }
}

/// The map symbols in the order the symbol table lists them.
fn map_symbol_list(maps: &MapsSection, p: usize) -> (r: Vec<(String, u32)>)
    ensures
        sym_view(r@) == map_symbols(maps.records@, p as int),
{
    let ghost msyms = map_symbols(maps.records@, p as int);
    let mut out: Vec<(String, u32)> = Vec::new();
    let mut count: u32 = 1;
    let mut a: usize = 0;
    while a < p
        invariant
            a <= p,
            count == sym_number(1 + a),
        decreases p - a,
    {
        proof { lemma_sym_number_next(count, 1 + a); }
        count = count.wrapping_add(1);
        a = a + 1;
    }
    let mut m: usize = 0;
    assert(sym_view(out@) =~= msyms.subrange(0, 0));
    while m < maps.records.len()
        invariant
            m <= maps.records@.len(),
            msyms == map_symbols(maps.records@, p as int),
            sym_view(out@) == msyms.subrange(0, m as int),
            count == sym_number(1 + p + m),
        decreases maps.records@.len() - m,
    {
        let ghost before = out@;
        let entry = (owned(maps.records[m].name.as_str()), count);
        out.push(entry);
        proof {
            assert(out@ == before.push(entry));
            assert(sym_view(out@) =~= sym_view(before).push((entry.0@, entry.1)));
            assert(msyms[m as int] == (maps.records@[m as int].name@, sym_number(1 + p + m)));
            assert(msyms.subrange(0, m + 1) =~= msyms.subrange(0, m as int).push(msyms[m as int]));
            lemma_sym_number_next(count, 1 + p + m);
        }
        count = count.wrapping_add(1);
        m = m + 1;
    }
    assert(msyms.subrange(0, maps.records@.len() as int) =~= msyms);
    out
}

/// The object's sections with empty `.rel` sections, their names, where
/// each `.rel` section stands and which program it is for, and the
/// indices of the symbol table and the section-name table.
#[verifier::rlimit(100)]
#[verifier::spinoff_prover]
fn object_skeleton(maps: &MapsSection, programs: &Vec<ProgramSection>, license: &str)
    -> (r: (Vec<ElfSection>, Vec<String>, Vec<(usize, usize)>, u16, u16))
    ensures
        ({
            let (secs, names, rel_meta, symtab_idx, shstrtab_idx) = r;
            let p = programs@.len() as int;
            let rp = rel_progs(programs@);
            let n = secs@.len() as int;
            &&& sections_frame(secs@, *maps, programs@, license@)
            &&& secs@[0].name_off == 0
            &&& names@.len() == n
            &&& forall|j: int| 1 <= j < n ==> (#[trigger] names@[j])@ == section_names(programs@)[j - 1]
            &&& rel_meta@.len() == rp.len()
            &&& forall|u: int| 0 <= u < rp.len() ==> (#[trigger] rel_meta@[u]).0 == rp[u] && rel_meta@[u].1 == 3 + p + u
            &&& forall|u: int| 0 <= u < rp.len() ==> 0 <= #[trigger] rp[u] < p
            &&& symtab_idx == #[verifier::truncate] ((n - 2) as u16)
            &&& shstrtab_idx == #[verifier::truncate] ((n - 1) as u16)
        }),
{
    let ghost sn = section_names(programs@);
    let ghost rp = rel_progs(programs@);
    proof { lemma_rel_progs(programs@); }

    // BTF: the program names as strings, no types.
    let mut btf = BtfBuilder::new();
    let mut i: usize = 0;
    while i < programs.len()
        invariant
            i <= programs@.len(),
            btf@ == (Seq::<u8>::empty(), btf_program_strings(programs@.subrange(0, i as int))),
        decreases programs@.len() - i,
    {
        assert(programs@.subrange(0, i + 1).drop_last() =~= programs@.subrange(0, i as int));
        btf.add_string(programs[i].symbol_name.as_str());
        i = i + 1;
    }
    assert(programs@.subrange(0, programs@.len() as int) =~= programs@);
    let btf_data = btf.emit();
    let btf_ext_data = build_btf_ext();

    let mut secs: Vec<ElfSection> = Vec::new();
    let mut names: Vec<String> = Vec::new();
    secs.push(section(SHT_NULL, 0, 0, 0, 0, 0, Vec::new()));
    names.push(String::new());
    secs.push(section(SHT_PROGBITS, 0, 4, 0, 0, 0, btf_data));
    names.push(owned(".BTF"));
    secs.push(section(SHT_PROGBITS, 0, 4, 0, 0, 0, btf_ext_data));
    names.push(owned(".BTF.ext"));
    assert(sn[0] == ".BTF"@ && sn[1] == ".BTF.ext"@);

    let mut prog_idx: Vec<u16> = Vec::new();
    let mut k: usize = 0;
    while k < programs.len()
        invariant
            k <= programs@.len(),
            sn == section_names(programs@),
            secs@.len() == 3 + k,
            names@.len() == secs@.len(),
            prog_idx@.len() == k,
            forall|j: int| 0 <= j < k ==> prog_idx@[j] == #[verifier::truncate] ((3 + j) as u16),
            forall|j: int| 1 <= j < secs@.len() ==> (#[trigger] names@[j])@ == sn[j - 1],
            secs@[0].name_off == 0,
            section_is(secs@[0], SHT_NULL, 0, 0, Seq::empty()) && links_are(secs@[0], 0, 0, 0),
            section_is(secs@[1], SHT_PROGBITS, 0, 4, btf_blob(Seq::empty(), btf_program_strings(programs@))) && links_are(secs@[1], 0, 0, 0),
            section_is(secs@[2], SHT_PROGBITS, 0, 4, empty_btf_ext()) && links_are(secs@[2], 0, 0, 0),
            forall|j: int| 3 <= j < 3 + k ==> section_is(#[trigger] secs@[j], SHT_PROGBITS, SHF_ALLOC | SHF_EXECINSTR, 8,
                programs@[j - 3].code@) && links_are(secs@[j], 0, 0, 0),
        decreases programs@.len() - k,
    {
        let idx: u16 = #[verifier::truncate] (secs.len() as u16);
        prog_idx.push(idx);
        secs.push(section(SHT_PROGBITS, SHF_ALLOC | SHF_EXECINSTR, 8, 0, 0, 0, copy_bytes(&programs[k].code)));
        names.push(owned(programs[k].section_name.as_str()));
        assert(sn[2 + k as int] == programs@[k as int].section_name@);
        k = k + 1;
    }
    let p = programs.len();
    let ghost s0 = secs@;
    let ghost n0 = names@;
    let mut rel_meta: Vec<(usize, usize)> = Vec::new();
    let mut q: usize = 0;
    while q < programs.len()
        invariant
            q <= programs@.len(),
            p == programs@.len(),
            prog_idx@.len() == p,
            forall|j: int| 0 <= j < p ==> prog_idx@[j] == #[verifier::truncate] ((3 + j) as u16),
            s0.len() == 3 + p,
            n0.len() == 3 + p,
            secs@.len() == 3 + p + rel_meta@.len(),
            names@.len() == secs@.len(),
            forall|j: int| 0 <= j < 3 + p ==> #[trigger] secs@[j] == s0[j],
            forall|j: int| 0 <= j < 3 + p ==> #[trigger] names@[j] == n0[j],
            rel_meta@.len() == rel_progs(programs@.subrange(0, q as int)).len(),
            forall|u: int| 0 <= u < rel_meta@.len() ==> (#[trigger] rel_meta@[u]).0 == rel_progs(programs@.subrange(0, q as int))[u]
                && rel_meta@[u].0 < p && rel_meta@[u].1 == 3 + p + u,
            forall|j: int| 3 + p <= j < secs@.len() ==> (#[trigger] names@[j])@ == ".rel"@ + programs@[rel_meta@[j - 3 - p].0 as int].section_name@,
        decreases programs@.len() - q,
    {
        let ghost pre = programs@.subrange(0, q + 1);
        assert(pre.drop_last() =~= programs@.subrange(0, q as int));
        if programs[q].relocs.len() > 0 {
            let idx = secs.len();
            rel_meta.push((q, idx));
            let sec_name = concat2(".rel", programs[q].section_name.as_str());
            secs.push(section(SHT_REL, 0, 8, 16, 0, prog_idx[q] as u32, Vec::new()));
            names.push(sec_name);
        }
        q = q + 1;
    }
    assert(programs@.subrange(0, p as int) =~= programs@);
    let maps_idx: u16 = #[verifier::truncate] (secs.len() as u16);
    secs.push(section(SHT_PROGBITS, SHF_ALLOC | SHF_WRITE, 8, 0, 0, 0, copy_bytes(&maps.bytes)));
    names.push(owned(".maps"));
    let mut license_data: Vec<u8> = Vec::new();
    push_slice(&mut license_data, license.as_bytes());
    let ends_with_zero = license_data.len() > 0 && license_data[license_data.len() - 1] == 0;
    if !ends_with_zero {
        license_data.push(0);
    }
    assert(license_data@ =~= license_bytes(license@));
    secs.push(section(SHT_PROGBITS, SHF_ALLOC, 1, 0, 0, 0, license_data));
    names.push(owned("license"));
    let strtab_idx: u16 = #[verifier::truncate] (secs.len() as u16);
    secs.push(section(SHT_STRTAB, 0, 1, 0, 0, 0, Vec::new()));
    names.push(owned(".strtab"));
    let symtab_idx: u16 = #[verifier::truncate] (secs.len() as u16);
    secs.push(section(SHT_SYMTAB, 0, 8, 24, strtab_idx as u32, 1, Vec::new()));
    names.push(owned(".symtab"));
    let shstrtab_idx: u16 = #[verifier::truncate] (secs.len() as u16);
    secs.push(section(SHT_STRTAB, 0, 1, 0, 0, 0, Vec::new()));
    names.push(owned(".shstrtab"));
    let n = secs.len();
    let ghost rr = rp.len() as int;
    assert(n == 8 + p + rr);
    proof {
        assert forall|j: int| 1 <= j < n implies (#[trigger] names@[j])@ == sn[j - 1] by {
            if j < 3 + p {
                assert(names@[j] == n0[j]);
            } else if j < 3 + p + rr {
                assert(rel_meta@[j - 3 - p].0 == rp[j - 3 - p]);
            }
        }
    }
    let (symtab, strtab_bytes) = symbols(maps, programs, &prog_idx, maps_idx);
    secs.set(n - 3, section(SHT_STRTAB, 0, 1, 0, 0, 0, strtab_bytes));
    secs.set(n - 2, section(SHT_SYMTAB, 0, 8, 24, strtab_idx as u32, 1, symtab));
    proof {
        let w = secs@;
        assert forall|j: int| 3 <= j < 3 + p implies section_is(#[trigger] w[j], SHT_PROGBITS, SHF_ALLOC | SHF_EXECINSTR, 8,
            programs@[j - 3].code@) && links_are(w[j], 0, 0, 0) by {
            assert(w[j] == s0[j]);
        }
        assert(w[0] == s0[0] && w[1] == s0[1] && w[2] == s0[2]);
        assert(sections_frame(w, *maps, programs@, license@));
    }
    (secs, names, rel_meta, symtab_idx, shstrtab_idx)
}

/// The symbol table and its string table: the null symbol, one per program,
/// one per map record.
#[verifier::rlimit(60)]
fn symbols(maps: &MapsSection, programs: &Vec<ProgramSection>, prog_idx: &Vec<u16>, maps_idx: u16) -> (r: (Vec<u8>, Vec<u8>))
    requires
        prog_idx@.len() == programs@.len(),
        forall|j: int| 0 <= j < programs@.len() ==> prog_idx@[j] == #[verifier::truncate] ((3 + j) as u16),
        maps_idx == #[verifier::truncate] ((3 + programs@.len() + rel_progs(programs@).len()) as u16),
    ensures
        r.1@ == strtab_put_all(empty_strtab(), symbol_names(programs@, *maps)).0.0,
        r.0@ == symtab_of(programs@, *maps),
{
    let ghost symn = symbol_names(programs@, *maps);
    let ghost soffs = strtab_put_all(empty_strtab(), symn).1;
    let p = programs.len();
    proof {
        lemma_put_all_prefix(empty_strtab(), symn, 0);
        reveal_strlit("");
        lemma_put_all_step(empty_strtab(), symn, 0);
        assert(symn.subrange(0, 0) =~= Seq::<Seq<char>>::empty());
        assert(symn[0] == ""@);
    }
    let mut strtab = Strtab::new();
    let mut symtab: Vec<u8> = Vec::new();
    let null_name = strtab.put("");
    push_sym(&mut symtab, null_name, bind_type(STB_LOCAL, STT_NOTYPE), 0, 0, 0, 0);
    let ghost sym0 = symtab@;
    assert(sym0 == sym_bytes(#[verifier::truncate] (soffs[0] as u32), bind_type_spec(STB_LOCAL, STT_NOTYPE), 0, 0, 0));
    let mut a: usize = 0;
    while a < programs.len()
        invariant
            a <= programs@.len(),
            p == programs@.len(),
            strtab.wf(),
            symn == symbol_names(programs@, *maps),
            soffs == strtab_put_all(empty_strtab(), symn).1,
            strtab.model() == strtab_put_all(empty_strtab(), symn.subrange(0, 1 + a)).0,
            prog_idx@.len() == p,
            forall|j: int| 0 <= j < p ==> prog_idx@[j] == #[verifier::truncate] ((3 + j) as u16),
            symtab@ == sym0 + prog_syms(programs@, soffs, a as int),
        decreases programs@.len() - a,
    {
        let prog = &programs[a];
        proof {
            lemma_put_all_step(empty_strtab(), symn, 1 + a);
            assert(symn[1 + a] == programs@[a as int].symbol_name@);
        }
        let name_off = strtab.put(prog.symbol_name.as_str());
        push_sym(&mut symtab, name_off, bind_type(STB_GLOBAL, STT_FUNC), 0, prog_idx[a], 0, prog.code.len() as u64);
        a = a + 1;
        assert(symtab@ =~= sym0 + prog_syms(programs@, soffs, a as int));
    }
    let mut m: usize = 0;
    while m < maps.records.len()
        invariant
            m <= maps.records@.len(),
            p == programs@.len(),
            strtab.wf(),
            symn == symbol_names(programs@, *maps),
            soffs == strtab_put_all(empty_strtab(), symn).1,
            strtab.model() == strtab_put_all(empty_strtab(), symn.subrange(0, 1 + p + m)).0,
            symtab@ == sym0 + prog_syms(programs@, soffs, p as int) + rec_syms(maps.records@, soffs, 1 + p, maps_idx, m as int),
            maps_idx == #[verifier::truncate] ((3 + programs@.len() + rel_progs(programs@).len()) as u16),
        decreases maps.records@.len() - m,
    {
        let rec = &maps.records[m];
        proof {
            lemma_put_all_step(empty_strtab(), symn, 1 + p + m);
            assert(symn[1 + p + m] == maps.records@[m as int].name@);
        }
        let name_off = strtab.put(rec.name.as_str());
        push_sym(&mut symtab, name_off, bind_type(STB_GLOBAL, STT_OBJECT), 0, maps_idx, rec.offset, rec.size);
        m = m + 1;
        assert(symtab@ =~= sym0 + prog_syms(programs@, soffs, p as int) + rec_syms(maps.records@, soffs, 1 + p, maps_idx, m as int));
    }
    assert(symn.subrange(0, 1 + p + maps.records@.len()) =~= symn);
    (symtab, strtab.bytes)
}

/// Names the sections, fills the section-name table and writes the file.
#[verifier::rlimit(100)]
#[verifier::spinoff_prover]
fn finish_object(secs: Vec<ElfSection>, names: &Vec<String>, shstrtab_idx: u16, Ghost(maps): Ghost<MapsSection>,
    Ghost(programs): Ghost<Seq<ProgramSection>>, Ghost(license): Ghost<Seq<char>>) -> (r: Result<Vec<u8>, String>)
    requires
        sections_body(secs@, maps, programs, license),
        secs@[0].name_off == 0,
        names@.len() == secs@.len(),
        forall|j: int| 1 <= j < secs@.len() ==> (#[trigger] names@[j])@ == section_names(programs)[j - 1],
        shstrtab_idx == #[verifier::truncate] ((secs@.len() - 1) as u16),
    ensures
        match r {
            Ok(b) => is_bpf_elf(b@) && exists|w: Seq<ElfSection>| #[trigger] object_layout(b@, w, maps, programs, license),
            Err(e) => e@ == "object file too large"@ && exists|w: Seq<ElfSection>|
                #[trigger] object_sections(w, maps, programs, license) && elf_len(w) + 32 > usize::MAX,
        },
{
    let mut secs = secs;
    let ghost sn = section_names(programs);
    let ghost before_names = secs@;
    let ghost snoffs = strtab_put_all(empty_strtab(), sn).1;
    let n = secs.len();
    proof { lemma_put_all_prefix(empty_strtab(), sn, 0); }
    let mut shstr = Strtab::new();
    let mut h: usize = 1;
    assert(sn.subrange(0, 0) =~= Seq::<Seq<char>>::empty());
    while h < n
        invariant
            1 <= h <= n,
            secs@.len() == n,
            names@.len() == n,
            sn == section_names(programs),
            sn.len() == n - 1,
            shstr.wf(),
            snoffs == strtab_put_all(empty_strtab(), sn).1,
            shstr.model() == strtab_put_all(empty_strtab(), sn.subrange(0, h - 1)).0,
            forall|j: int| 1 <= j < n ==> (#[trigger] names@[j])@ == sn[j - 1],
            before_names.len() == n,
            forall|j: int| 0 <= j < n ==> (#[trigger] secs@[j]).sh_type == before_names[j].sh_type
                && secs@[j].flags == before_names[j].flags && secs@[j].align == before_names[j].align
                && secs@[j].entsize == before_names[j].entsize && secs@[j].data@ == before_names[j].data@
                && secs@[j].link == before_names[j].link && secs@[j].info == before_names[j].info,
            forall|j: int| 1 <= j < h ==> (#[trigger] secs@[j]).name_off == #[verifier::truncate] (snoffs[j - 1] as u32),
            secs@[0].name_off == before_names[0].name_off,
        decreases n - h,
    {
        proof { lemma_put_all_step(empty_strtab(), sn, h - 1); }
        let off = shstr.put(names[h].as_str());
        let old_sec = &secs[h];
        let updated = ElfSection {
            name_off: off,
            sh_type: old_sec.sh_type,
            flags: old_sec.flags,
            align: old_sec.align,
            entsize: old_sec.entsize,
            link: old_sec.link,
            info: old_sec.info,
            data: copy_bytes(&old_sec.data),
        };
        secs.set(h, updated);
        h = h + 1;
    }
    assert(sn.subrange(0, n - 1) =~= sn);
    let last = secs.len() - 1;
    let ghost before_shstr = secs@;
    let old_last = &secs[last];
    let shstr_sec = ElfSection {
        name_off: old_last.name_off,
        sh_type: SHT_STRTAB,
        flags: 0,
        align: 1,
        entsize: 0,
        link: 0,
        info: 0,
        data: shstr.bytes,
    };
    secs.set(last, shstr_sec);
    proof {
        lemma_named(before_names, before_shstr, secs@, maps, programs, license);
        lemma_sections_align(secs@, maps, programs, license);
    }
    match encode_elf(&secs, shstrtab_idx) {
        Some(bytes) => {
            proof { lemma_image_is_bpf_elf(secs@, shstrtab_idx); }
            let ghost w = secs@;
            assert(object_layout(bytes@, w, maps, programs, license));
            Ok(bytes)
        },
        None => {
            assert(object_sections(secs@, maps, programs, license) && elf_len(secs@) + 32 > usize::MAX);
            Err(owned("object file too large"))
        },
    }
}

/// Naming the sections and filling the section-name table completes them.
proof fn lemma_named(bn: Seq<ElfSection>, bs: Seq<ElfSection>, w: Seq<ElfSection>, maps: MapsSection,
    programs: Seq<ProgramSection>, license: Seq<char>)
    requires
        sections_body(bn, maps, programs, license),
        bn[0].name_off == 0,
        bs.len() == bn.len(),
        w.len() == bn.len(),
        forall|j: int| 0 <= j < bn.len() ==> (#[trigger] bs[j]).sh_type == bn[j].sh_type
            && bs[j].flags == bn[j].flags && bs[j].align == bn[j].align
            && bs[j].entsize == bn[j].entsize && bs[j].data@ == bn[j].data@
            && bs[j].link == bn[j].link && bs[j].info == bn[j].info,
        forall|j: int| 1 <= j < bn.len() ==> (#[trigger] bs[j]).name_off
            == #[verifier::truncate] (strtab_put_all(empty_strtab(), section_names(programs)).1[j - 1] as u32),
        bs[0].name_off == bn[0].name_off,
        forall|j: int| 0 <= j < bn.len() - 1 ==> #[trigger] w[j] == bs[j],
        w[bn.len() - 1].name_off == bs[bn.len() - 1].name_off,
        section_is(w[bn.len() - 1], SHT_STRTAB, 0, 1, strtab_put_all(empty_strtab(), section_names(programs)).0.0),
        links_are(w[bn.len() - 1], 0, 0, 0),
    ensures
        object_sections(w, maps, programs, license),
{
    let n = bn.len() as int;
    assert(same_body(bn, w)) by {
        assert forall|j: int| 0 <= j < n implies (#[trigger] w[j]).sh_type == bn[j].sh_type && w[j].flags == bn[j].flags
            && w[j].align == bn[j].align && w[j].entsize == bn[j].entsize && w[j].link == bn[j].link
            && w[j].info == bn[j].info by {
            if j < n - 1 {
                assert(w[j] == bs[j]);
            }
        }
        assert forall|j: int| 0 <= j < n - 1 implies (#[trigger] w[j]).data@ == bn[j].data@ by {
            assert(w[j] == bs[j]);
        }
    }
    lemma_same_body(bn, w, maps, programs, license);
    assert forall|j: int| 1 <= j < n implies (#[trigger] w[j]).name_off
        == #[verifier::truncate] (strtab_put_all(empty_strtab(), section_names(programs)).1[j - 1] as u32) by {
        if j < n - 1 {
            assert(w[j] == bs[j]);
        }
    }
    assert(w[0] == bs[0]);
}

/// Every section of the object has an alignment the writer handles.
proof fn lemma_sections_align(w: Seq<ElfSection>, maps: MapsSection, programs: Seq<ProgramSection>, license: Seq<char>)
    requires
        sections_body(w, maps, programs, license),
    ensures
        w.len() >= 1,
        forall|j: int| 0 <= j < w.len() ==> valid_align(#[trigger] w[j].align),
{
    let n = w.len() as int;
    let p = programs.len() as int;
    let rp = rel_progs(programs);
    assert forall|j: int| 0 <= j < n implies valid_align(#[trigger] w[j].align) by {
        if 3 <= j < 3 + p {
            assert(section_is(w[j], SHT_PROGBITS, SHF_ALLOC | SHF_EXECINSTR, 8, programs[j - 3].code@));
        } else if 3 + p <= j < 3 + p + rp.len() {
            assert(section_is(w[j], SHT_REL, 0, 8, rel_entries(programs[rp[j - 3 - p]].relocs@, map_symbols(maps.records@, p))));
        }
    }
}

/// The `i + 1`-th symbol number follows the `i`-th.
proof fn lemma_sym_number_next(c: u32, i: int)
    requires
        i >= 0,
        c == sym_number(i),
    ensures
        (if c + 1 > u32::MAX { (c + 1 - 0x1_0000_0000) as u32 } else { (c + 1) as u32 }) == sym_number(i + 1),
{
    let m: int = 0x1_0000_0000;
    let q = i / m;
    assert(i == q * m + i % m && 0 <= i % m < m) by (nonlinear_arith)
        requires
            m == 0x1_0000_0000,
            q == i / m,
    ;
    if i % m + 1 < m {
        assert((i + 1) % m == i % m + 1) by (nonlinear_arith)
            requires
                m == 0x1_0000_0000,
                i == q * m + i % m,
                0 <= i % m,
                i % m + 1 < m,
        ;
    } else {
        assert((i + 1) % m == 0) by (nonlinear_arith)
            requires
                m == 0x1_0000_0000,
                i == q * m + i % m,
                i % m + 1 == m,
        ;
    }
}

/// Lays out the object file: `.BTF`, `.BTF.ext`, the programs, a `.rel`
/// section per program with relocations, `.maps`, `license`, `.strtab`,
/// `.symtab` (the null symbol, one per program, one per map record) and
/// `.shstrtab`. Fails when a relocation names a map that has no record,
/// naming the first such map, or when the file would not fit in memory.
#[verifier::rlimit(100)]
#[verifier::spinoff_prover]
pub fn build_object(maps: &MapsSection, programs: &Vec<ProgramSection>, license: &str) -> (r: Result<Vec<u8>, String>)
    ensures
        !relocs_resolve(*maps, programs@) ==> (r matches Err(e) && exists|q: int, j: int|
            #[trigger] first_missing_reloc(*maps, programs@, q, j) && e@ == missing_symbol_message(programs@[q].relocs@[j].map_name@)),
        relocs_resolve(*maps, programs@) ==> match r {
            Ok(b) => exists|secs: Seq<ElfSection>| #[trigger] object_layout(b@, secs, *maps, programs@, license@),
            Err(e) => e@ == "object file too large"@ && exists|secs: Seq<ElfSection>|
                #[trigger] object_sections(secs, *maps, programs@, license@) && elf_len(secs) + 32 > usize::MAX,
        },
        r matches Ok(b) ==> is_bpf_elf(b@),
{
    let (mut secs, names, rel_meta, symtab_idx, shstrtab_idx) = object_skeleton(maps, programs, license);
    let ghost p = programs@.len() as int;
    let ghost rp = rel_progs(programs@);
    let ghost msyms = map_symbols(maps.records@, p);
    let n = secs.len();
    let map_syms = map_symbol_list(maps, programs.len());
    let ghost before_rels = secs@;

    // Relocation sections.
    let mut t: usize = 0;
    while t < rel_meta.len()
        invariant
            t <= rel_meta@.len(),
            secs@.len() == n,
            before_rels.len() == n,
            n == 8 + p + rp.len(),
            p == programs@.len(),
            rp == rel_progs(programs@),
            rel_meta@.len() == rp.len(),
            forall|u: int| 0 <= u < rp.len() ==> (#[trigger] rel_meta@[u]).0 == rp[u] && rel_meta@[u].1 == 3 + p + u,
            forall|u: int| 0 <= u < rp.len() ==> 0 <= #[trigger] rp[u] < p,
            symtab_idx == #[verifier::truncate] ((n - 2) as u16),
            sections_frame(before_rels, *maps, programs@, license@),
            before_rels[0].name_off == 0,
            forall|k: int| 0 <= k < n && !(3 + p <= k < 3 + p + t) ==> #[trigger] secs@[k] == before_rels[k],
            forall|k: int| 3 + p <= k < 3 + p + t ==> {
                &&& section_is(#[trigger] secs@[k], SHT_REL, 0, 8, rel_entries(programs@[rp[k - 3 - p]].relocs@, msyms))
                &&& links_are(secs@[k], 16, symtab_idx as u32, (#[verifier::truncate] ((3 + rp[k - 3 - p]) as u16)) as u32)
            },
            forall|u: int| 0 <= u < t ==> all_have_syms(programs@[#[trigger] rp[u]].relocs@, msyms),
            sym_view(map_syms@) == msyms,
            msyms == map_symbols(maps.records@, p),
        decreases rel_meta@.len() - t,
    {
        let (pi, si) = rel_meta[t];
        let data = match rel_data_for(&programs[pi], &map_syms) {
            Ok(d) => d,
            Err(e) => {
                proof {
                    let j = choose|j: int| first_missing(programs@[pi as int].relocs@, msyms, j)
                        && e@ == missing_symbol_message(programs@[pi as int].relocs@[j].map_name@);
                    lemma_first_missing_reloc(*maps, programs@, t as int, j);
                    assert(first_missing_reloc(*maps, programs@, rp[t as int], j));
                }
                return Err(e);
            },
        };
        let info: u32 = (#[verifier::truncate] ((3 + pi) as u16)) as u32;
        secs.set(si, section(SHT_REL, 0, 8, 16, symtab_idx as u32, info, data));
        t = t + 1;
    }
    proof {
        lemma_all_resolve(*maps, programs@);
        let w = secs@;
        lemma_frame_kept(before_rels, w, *maps, programs@, license@);
        assert(rel_sections(w, *maps, programs@));
    }
    finish_object(secs, &names, shstrtab_idx, Ghost(*maps), Ghost(programs@), Ghost(license@))
}

/// A relocation that fails to resolve in the `t`-th program with
/// relocations, after the earlier ones all resolved, is the first that
/// fails in the whole object.
proof fn lemma_first_missing_reloc(maps: MapsSection, programs: Seq<ProgramSection>, t: int, j: int)
    requires
        0 <= t < rel_progs(programs).len(),
        forall|u: int| 0 <= u < t ==> all_have_syms(programs[#[trigger] rel_progs(programs)[u]].relocs@,
            map_symbols(maps.records@, programs.len() as int)),
        first_missing(programs[rel_progs(programs)[t]].relocs@, map_symbols(maps.records@, programs.len() as int), j),
    ensures
        first_missing_reloc(maps, programs, rel_progs(programs)[t], j),
        !relocs_resolve(maps, programs),
{
    let rp = rel_progs(programs);
    let ms = map_symbols(maps.records@, programs.len() as int);
    lemma_rel_progs(programs);
    let q = rp[t];
    assert forall|name: Seq<char>| #[trigger] last_sym(ms, name) is Some <==> record_index(maps, name) is Some by {
        lemma_map_symbol_found(maps.records@, programs.len() as int, name);
    }
    assert forall|i: int, k: int| 0 <= i < q && 0 <= k < programs[i].relocs@.len()
        implies (#[trigger] record_index(maps, programs[i].relocs@[k].map_name@)) is Some by {
        let u = choose|u: int| 0 <= u < rp.len() && rp[u] == i;
        if u >= t {
            if u > t {
                assert(rp[t] < rp[u]);
            }
        }
        assert(all_have_syms(programs[rp[u]].relocs@, ms));
        assert(last_sym(ms, programs[i].relocs@[k].map_name@) is Some);
    }
    assert forall|k: int| 0 <= k < j implies (#[trigger] record_index(maps, programs[q].relocs@[k].map_name@)) is Some by {
        assert(last_sym(ms, programs[q].relocs@[k].map_name@) is Some);
    }
    assert(record_index(maps, programs[q].relocs@[j].map_name@) is None);
}

/// When every program with relocations has all its maps' symbols, every
/// relocation names a record.
proof fn lemma_all_resolve(maps: MapsSection, programs: Seq<ProgramSection>)
    requires
        forall|u: int| 0 <= u < rel_progs(programs).len() ==> all_have_syms(programs[#[trigger] rel_progs(programs)[u]].relocs@,
            map_symbols(maps.records@, programs.len() as int)),
    ensures
        relocs_resolve(maps, programs),
{
    let rp = rel_progs(programs);
    let ms = map_symbols(maps.records@, programs.len() as int);
    lemma_rel_progs(programs);
    assert forall|i: int, k: int| 0 <= i < programs.len() && 0 <= k < programs[i].relocs@.len()
        implies (#[trigger] record_index(maps, programs[i].relocs@[k].map_name@)) is Some by {
        let u = choose|u: int| 0 <= u < rp.len() && rp[u] == i;
        assert(all_have_syms(programs[rp[u]].relocs@, ms));
        assert(last_sym(ms, programs[i].relocs@[k].map_name@) is Some);
        lemma_map_symbol_found(maps.records@, programs.len() as int, programs[i].relocs@[k].map_name@);
    }
}


} // verus!
