//! The native back end's ELF object: sections, symbols, relocations and the
//! BTF that describes the maps.
use vstd::prelude::*;
use vstd::string::StringSliceAdditionalSpecFns;
use vstd::utf8::encode_utf8;
use crate::ast::map::{MapDecl, MapType, Type};
use crate::emit::bytes::{push_slice, push_u16, push_u32, push_u64, u16_le, u32_le, u64_le, zeros};
use crate::emit::elf::{elf_sections_alike, is_bpf_elf, lemma_elf_image_alike, lemma_image_is_bpf_elf, valid_align};
use crate::emit::ebpf::tracepoint::CompiledProgram;
use crate::emit::elf::{
    elf_len, encode_elf, elf_image, ElfSection, SHF_ALLOC, SHF_EXECINSTR, SHF_WRITE, SHT_PROGBITS, SHT_REL,
    SHT_STRTAB, SHT_SYMTAB, STB_GLOBAL, STB_LOCAL, STT_FUNC, STT_OBJECT, R_BPF_64_64,
};
use crate::ir::program::ProgramIr;
use crate::emit::isa::{kernel_map_type_name, map_type_kernel_name};
use crate::text::{concat2, concat3, owned, sanitize_ident_or, sanitized, str_eq};

verus! {

/// A relocation a program needs: the byte offset of a 64-bit immediate load
/// and the map symbol it must point at.
#[derive(Debug, Clone)]
pub struct ProgramReloc {
    pub offset: u64,
    pub symbol: String,
}

/// A section of the object under construction.
pub struct Section {
    pub name: String,
    pub sh_type: u32,
    pub flags: u64,
    pub align: u64,
    pub entsize: u64,
    pub link: u32,
    pub info: u32,
    pub data: Vec<u8>,
}

/// A symbol of the object under construction.
pub struct Symbol {
    pub name: String,
    pub bind: u8,
    pub typ: u8,
    pub section: u16,
    pub value: u64,
    pub size: u64,
}

struct BtfMap {
    name: String,
    map_type: MapType,
    key_type: Option<Type>,
    value_type: Option<Type>,
    max_entries: Option<u32>,
    offset: u32,
    size: u32,
}

/// A map as the BTF describes it: its name, type, key, value and entry
/// limit, and its slot in `.maps`.
pub struct BtfMapView {
    pub name: Seq<char>,
    pub map_type: MapType,
    pub key_type: Option<Type>,
    pub value_type: Option<Type>,
    pub max_entries: Option<u32>,
    pub offset: u32,
    pub size: u32,
}

spec fn btf_map_view(m: BtfMap) -> BtfMapView {
    BtfMapView {
        name: m.name@,
        map_type: m.map_type,
        key_type: m.key_type,
        value_type: m.value_type,
        max_entries: m.max_entries,
        offset: m.offset,
        size: m.size,
    }
}

spec fn btf_map_views_of(s: Seq<BtfMap>) -> Seq<BtfMapView> {
    s.map_values(|m: BtfMap| btf_map_view(m))
}

/// An eBPF object being assembled: its sections (the null section first),
/// its symbols (the null symbol first), and the symbol of each map by the
/// map's name.
pub struct BpfObject {
    sections: Vec<Section>,
    symbols: Vec<Symbol>,
    map_symbols: Vec<(String, usize)>,
    btf_maps: Vec<BtfMap>,
}

/// `s` has these fields and no link, info or entry size.
pub open spec fn plain_section(s: Section, name: Seq<char>, sh_type: u32, flags: u64, align: u64, data: Seq<u8>) -> bool {
    &&& s.name@ == name
    &&& s.sh_type == sh_type
    &&& s.flags == flags
    &&& s.align == align
    &&& s.entsize == 0
    &&& s.link == 0
    &&& s.info == 0
    &&& s.data@ == data
}

/// `s` has these fields.
pub open spec fn symbol_is(s: Symbol, name: Seq<char>, bind: u8, typ: u8, section: u16, value: u64, size: u64) -> bool {
    &&& s.name@ == name
    &&& s.bind == bind
    &&& s.typ == typ
    &&& s.section == section
    &&& s.value == value
    &&& s.size == size
}

/// The license the object carries: that of the first unit, else `GPL`.
pub open spec fn object_license(program: ProgramIr) -> Seq<char> {
    if program.units@.len() > 0 { program.units@[0].license@ } else { "GPL"@ }
}

/// The symbol name of a map or program: a C identifier, or `_solnix_symbol`.
pub open spec fn object_symbol(name: Seq<char>) -> Seq<char> {
    if name.len() == 0 { "_solnix_symbol"@ } else { sanitized(name) }
}

/// Bytes a map occupies in `.maps`: eight per attribute (type, and key,
/// value and entry limit where present).
pub open spec fn btf_map_size(m: MapDecl) -> nat {
    8 * (1 + (if m.key_type is Some { 1nat } else { 0nat }) + (if m.value_type is Some { 1nat } else { 0nat })
        + (if m.max_entries is Some { 1nat } else { 0nat }))
}

/// The maps a call of `add_maps` adds to the `.BTF` description: each
/// under its symbol's name, with its slot in `.maps`.
pub open spec fn new_btf_views(maps: Seq<MapDecl>) -> Seq<BtfMapView> {
    Seq::new(maps.len(), |i: int| BtfMapView {
        name: if maps[i].name@.len() == 0 { "_solnix_symbol"@ } else { sanitized(maps[i].name@) },
        map_type: maps[i].map_type,
        key_type: maps[i].key_type,
        value_type: maps[i].value_type,
        max_entries: maps[i].max_entries,
        offset: map_offset(maps, i) as u32,
        size: btf_map_size(maps[i]) as u32,
    })
}

/// Where map `i` starts in `.maps`.
pub open spec fn map_offset(maps: Seq<MapDecl>, i: int) -> nat
    decreases i,
{
    if i <= 0 { 0 } else { map_offset(maps, i - 1) + btf_map_size(maps[i - 1]) }
}

impl BpfObject {
    /// The sections so far.
    pub closed spec fn sections(&self) -> Seq<Section> {
        self.sections@
    }

    /// The maps the `.BTF` section describes, in the order they were added.
    pub closed spec fn btf_map_views(&self) -> Seq<BtfMapView> {
        btf_map_views_of(self.btf_maps@)
    }

    /// The symbols so far.
    pub closed spec fn symbols(&self) -> Seq<Symbol> {
        self.symbols@
    }

    /// Each map's name and the index of its symbol.
    pub closed spec fn map_symbols(&self) -> Seq<(String, usize)> {
        self.map_symbols@
    }

    /// An object with only the null section and the null symbol.
    pub fn new() -> (r: BpfObject)
        ensures
            r.sections().len() == 1,
            plain_section(r.sections()[0], Seq::empty(), 0, 0, 0, Seq::empty()),
            r.symbols().len() == 1,
            symbol_is(r.symbols()[0], Seq::empty(), STB_LOCAL, 0, 0, 0, 0),
            r.map_symbols().len() == 0,
            r.btf_map_views().len() == 0,
            r.wf(),
    {
        let mut sections: Vec<Section> = Vec::new();
        sections.push(Section {
            name: String::new(),
            sh_type: 0,
            flags: 0,
            align: 0,
            entsize: 0,
            link: 0,
            info: 0,
            data: Vec::new(),
        });
        let mut symbols: Vec<Symbol> = Vec::new();
        symbols.push(Symbol { name: String::new(), bind: STB_LOCAL, typ: 0, section: 0, value: 0, size: 0 });
        BpfObject { sections, symbols, map_symbols: Vec::new(), btf_maps: Vec::new() }
    }

    fn add_section(&mut self, name: &str, sh_type: u32, flags: u64, align: u64, data: Vec<u8>) -> (r: u16)
        ensures
            r == #[verifier::truncate] (old(self).sections@.len() as u16),
            final(self).sections@.len() == old(self).sections@.len() + 1,
            final(self).sections@.subrange(0, old(self).sections@.len() as int) == old(self).sections@,
            plain_section(final(self).sections@.last(), name@, sh_type, flags, align, data@),
            final(self).symbols@ == old(self).symbols@,
            final(self).map_symbols@ == old(self).map_symbols@,
            final(self).btf_maps@ == old(self).btf_maps@,
    {
        let index: u16 = #[verifier::truncate] (self.sections.len() as u16);
        self.sections.push(Section {
            name: owned(name),
            sh_type,
            flags,
            align,
            entsize: 0,
            link: 0,
            info: 0,
            data,
        });
        assert(self.sections@.subrange(0, old(self).sections@.len() as int) =~= old(self).sections@);
        index
    }

    /// Adds the `license` section (the license and a terminating zero) and
    /// the `LICENSE` symbol covering it.
    pub fn add_license(&mut self, program: &ProgramIr) -> (r: Result<(), String>)
        requires
            old(self).wf(),
        ensures
            r is Ok,
            final(self).wf(),
            final(self).sections().len() == old(self).sections().len() + 1,
            final(self).sections().subrange(0, old(self).sections().len() as int) == old(self).sections(),
            plain_section(final(self).sections().last(), "license"@, SHT_PROGBITS, SHF_ALLOC | SHF_WRITE, 1,
                encode_utf8(object_license(*program)) + seq![0u8]),
            final(self).symbols().len() == old(self).symbols().len() + 1,
            final(self).symbols().subrange(0, old(self).symbols().len() as int) == old(self).symbols(),
            symbol_is(final(self).symbols().last(), "LICENSE"@, STB_GLOBAL, STT_OBJECT,
                #[verifier::truncate] (old(self).sections().len() as u16), 0,
                (((encode_utf8(object_license(*program)).len() as usize) as u64).wrapping_add(1))),
            final(self).map_symbols() == old(self).map_symbols(),
            final(self).btf_map_views() == old(self).btf_map_views(),
    {
        let license: &str = if program.units.len() > 0 { program.units[0].license.as_str() } else { "GPL" };
        assert(license@ == object_license(*program));
        assert(license.spec_bytes() == encode_utf8(object_license(*program)));
        let mut data: Vec<u8> = Vec::new();
        push_slice(&mut data, license.as_bytes());
        data.push(0);
        assert(data@ =~= encode_utf8(object_license(*program)) + seq![0u8]);
        let section = self.add_section("license", SHT_PROGBITS, SHF_ALLOC | SHF_WRITE, 1, data);
        let size = (license.len() as u64).wrapping_add(1);
        let ghost before = self.symbols@;
        self.symbols.push(Symbol {
            name: owned("LICENSE"),
            bind: STB_GLOBAL,
            typ: STT_OBJECT,
            section,
            value: 0,
            size,
        });
        assert(self.symbols@.subrange(0, before.len() as int) =~= before);
        assert forall|i: int| 0 <= i < self.sections@.len() implies valid_align(#[trigger] self.sections@[i].align) by {
            if i < old(self).sections@.len() {
                assert(self.sections@[i] == old(self).sections@[i]);
            }
        }
        Ok(())
    }
}

const BTF_KIND_INT: u32 = 1;
const BTF_KIND_PTR: u32 = 2;
const BTF_KIND_ARRAY: u32 = 3;
const BTF_KIND_STRUCT: u32 = 4;
const BTF_KIND_VAR: u32 = 14;
const BTF_KIND_DATASEC: u32 = 15;
const BTF_VAR_GLOBAL_ALLOCATED: u32 = 1;
const BTF_INT_SIGNED: u32 = 1;

/// The info word of a BTF type record.
spec fn btf_info_spec(kind: u32, vlen: u32) -> u32 {
    (kind << 24u32) | vlen
}

fn btf_info(kind: u32, vlen: u32) -> (r: u32)
    ensures
        r == btf_info_spec(kind, vlen),
{
    (kind << 24u32) | vlen
}

/// The BTF under construction as a value: type records, strings, and the
/// next type id.
struct BtfState {
    types: Seq<u8>,
    strings: Seq<u8>,
    next: u32,
}

/// Where the next string will start.
spec fn str_off(strings: Seq<u8>) -> u32 {
    strings.len() as u32
}

/// A fresh type id and the state after taking it.
spec fn take_id(st: BtfState) -> BtfState {
    BtfState { next: st.next.wrapping_add(1), ..st }
}

/// The encoding word of an integer type of `size` bytes.
spec fn int_data_spec(size: u32, signed: bool) -> u32 {
    ((if signed { BTF_INT_SIGNED } else { 0u32 }) << 24u32) | ((size * 8) as u32)
}

/// An integer type named `name`.
spec fn int_g(st: BtfState, name: Seq<u8>, size: u32, signed: bool) -> (u32, BtfState) {
    (st.next, BtfState {
        types: st.types + u32_le(str_off(st.strings)) + u32_le(btf_info_spec(BTF_KIND_INT, 0)) + u32_le(size)
            + u32_le(int_data_spec(size, signed)),
        strings: st.strings + name + seq![0u8],
        next: st.next.wrapping_add(1),
    })
}

/// A pointer to type `pointee`.
spec fn ptr_g(st: BtfState, pointee: u32) -> (u32, BtfState) {
    (st.next, BtfState {
        types: st.types + u32_le(0) + u32_le(btf_info_spec(BTF_KIND_PTR, 0)) + u32_le(pointee),
        next: st.next.wrapping_add(1),
        ..st
    })
}

/// An array of `nelems` elements of type `elem`, indexed by type `index`.
spec fn array_g(st: BtfState, elem: u32, index: u32, nelems: u32) -> (u32, BtfState) {
    (st.next, BtfState {
        types: st.types + u32_le(0) + u32_le(btf_info_spec(BTF_KIND_ARRAY, 0)) + u32_le(0) + u32_le(elem)
            + u32_le(index) + u32_le(nelems),
        next: st.next.wrapping_add(1),
        ..st
    })
}

/// The member records of a struct, each 64 bits after the previous, and
/// the strings after their names are added.
spec fn members_g(ms: Seq<(Seq<char>, u32)>, types: Seq<u8>, strings: Seq<u8>) -> (Seq<u8>, Seq<u8>)
    decreases ms.len(),
{
    if ms.len() == 0 {
        (types, strings)
    } else {
        let (t, s) = members_g(ms.drop_last(), types, strings);
        (t + u32_le(str_off(s)) + u32_le(ms.last().1) + u32_le(((ms.len() - 1) * 64) as u32),
            s + encode_utf8(ms.last().0) + seq![0u8])
    }
}

/// A struct whose members are `ms`, eight bytes each.
spec fn struct_g(st: BtfState, ms: Seq<(Seq<char>, u32)>) -> (u32, BtfState) {
    let n = ms.len() as u32;
    let head = st.types + u32_le(0) + u32_le(btf_info_spec(BTF_KIND_STRUCT, n)) + u32_le((n * 8) as u32);
    let (t, s) = members_g(ms, head, st.strings);
    (st.next, BtfState { types: t, strings: s, next: st.next.wrapping_add(1) })
}

/// A global variable named `name` of type `typ`.
spec fn var_g(st: BtfState, name: Seq<u8>, typ: u32) -> (u32, BtfState) {
    (st.next, BtfState {
        types: st.types + u32_le(str_off(st.strings)) + u32_le(btf_info_spec(BTF_KIND_VAR, 0)) + u32_le(typ)
            + u32_le(BTF_VAR_GLOBAL_ALLOCATED),
        strings: st.strings + name + seq![0u8],
        next: st.next.wrapping_add(1),
    })
}

/// The records placing variables in a data section.
spec fn datasec_vars_g(vars: Seq<(u32, u32, u32)>) -> Seq<u8>
    decreases vars.len(),
{
    if vars.len() == 0 {
        Seq::empty()
    } else {
        datasec_vars_g(vars.drop_last()) + u32_le(vars.last().0) + u32_le(vars.last().1) + u32_le(vars.last().2)
    }
}

/// A data section named `name` of `size` bytes holding `vars`.
spec fn datasec_g(st: BtfState, name: Seq<u8>, size: u32, vars: Seq<(u32, u32, u32)>) -> (u32, BtfState) {
    (st.next, BtfState {
        types: st.types + u32_le(str_off(st.strings)) + u32_le(btf_info_spec(BTF_KIND_DATASEC, vars.len() as u32))
            + u32_le(size) + datasec_vars_g(vars),
        strings: st.strings + name + seq![0u8],
        next: st.next.wrapping_add(1),
    })
}

/// The BTF type of a source type.
spec fn type_id_of(ints: BtfIntIds, ty: Type) -> u32 {
    match ty {
        Type::U32 => ints.u32_id,
        Type::U64 => ints.u64_id,
        Type::I32 => ints.i32_id,
        Type::I64 => ints.i64_id,
    }
}

/// A pointer member for an optional source type.
spec fn typed_member(st: BtfState, ms: Seq<(Seq<char>, u32)>, name: Seq<char>, ints: BtfIntIds, t: Option<Type>) -> (Seq<(Seq<char>, u32)>, BtfState) {
    match t {
        Some(ty) => {
            let (p, s) = ptr_g(st, type_id_of(ints, ty));
            (ms.push((name, p)), s)
        },
        None => (ms, st),
    }
}

/// The struct describing a map: a pointer to an array as long as the map
/// type's number, pointers for the key and value types, and a pointer to an
/// array as long as the entry limit, each where the map has it.
spec fn map_struct_g(st: BtfState, ints: BtfIntIds, map: BtfMapView) -> (u32, BtfState) {
    let (a, s1) = array_g(st, ints.int_id, ints.int_id, map_kind_number(map.map_type));
    let (p, s2) = ptr_g(s1, a);
    let ms1 = seq![("type"@, p)];
    let (ms2, s3) = typed_member(s2, ms1, "key"@, ints, map.key_type);
    let (ms3, s4) = typed_member(s3, ms2, "value"@, ints, map.value_type);
    let (ms4, s5) = match map.max_entries {
        Some(n) => {
            let (ma, t1) = array_g(s4, ints.int_id, ints.int_id, n);
            let (mp, t2) = ptr_g(t1, ma);
            (ms3.push(("max_entries"@, mp)), t2)
        },
        None => (ms3, s4),
    };
    struct_g(s5, ms4)
}

/// The builder as a value.
spec fn btf_state(b: BtfBuilder) -> BtfState {
    BtfState { types: b.types@, strings: b.strings@, next: b.next_type_id }
}

/// The members as names and types.
spec fn member_views(ms: Seq<(String, u32)>) -> Seq<(Seq<char>, u32)> {
    ms.map_values(|m: (String, u32)| (m.0@, m.1))
}

/// The five integer types every `.BTF` starts with.
spec fn ints_g(st: BtfState) -> (BtfIntIds, BtfState) {
    let (a, s1) = int_g(st, "int".spec_bytes(), 4, true);
    let (b, s2) = int_g(s1, "u32".spec_bytes(), 4, false);
    let (c, s3) = int_g(s2, "u64".spec_bytes(), 8, false);
    let (d, s4) = int_g(s3, "i32".spec_bytes(), 4, true);
    let (e, s5) = int_g(s4, "i64".spec_bytes(), 8, true);
    (BtfIntIds { int_id: a, u32_id: b, u64_id: c, i32_id: d, i64_id: e }, s5)
}

/// One struct and one variable per map, and the data-section entries that
/// place the variables.
spec fn maps_g(st: BtfState, ints: BtfIntIds, maps: Seq<BtfMapView>) -> (BtfState, Seq<(u32, u32, u32)>)
    decreases maps.len(),
{
    if maps.len() == 0 {
        (st, Seq::empty())
    } else {
        let (s, vars) = maps_g(st, ints, maps.drop_last());
        let m = maps.last();
        let (sid, s1) = map_struct_g(s, ints, m);
        let (vid, s2) = var_g(s1, encode_utf8(m.name), sid);
        (s2, vars.push((vid, m.offset, m.size)))
    }
}

/// The type records and strings of the `.BTF` of `maps`, whose `.maps`
/// section is `size` bytes long.
spec fn btf_state_of(maps: Seq<BtfMapView>, size: u32) -> BtfState {
    let (ints, s1) = ints_g(BtfState { types: Seq::empty(), strings: seq![0u8], next: 1 });
    let (s2, vars) = maps_g(s1, ints, maps);
    datasec_g(s2, ".maps".spec_bytes(), size, vars).1
}

/// The `.BTF` section of `maps`: the integer types, a struct and a variable
/// per map, and the `.maps` data section that places them.
#[verifier::opaque]
pub closed spec fn btf_blob_of(maps: Seq<BtfMapView>, size: u32) -> Seq<u8> {
    let st = btf_state_of(maps, size);
    crate::emit::btf::btf_blob(st.types, st.strings)
}

#[derive(Clone, Copy)]
struct BtfIntIds {
    int_id: u32,
    u32_id: u32,
    u64_id: u32,
    i32_id: u32,
    i64_id: u32,
}

/// The BTF of the maps: type records, strings, and the next type id.
struct BtfBuilder {
    types: Vec<u8>,
    strings: Vec<u8>,
    next_type_id: u32,
}

impl BtfBuilder {
    fn new() -> (r: BtfBuilder)
        ensures
            r.types@.len() == 0,
            r.strings@ == seq![0u8],
            r.next_type_id == 1,
    {
        let mut strings: Vec<u8> = Vec::new();
        strings.push(0);
        BtfBuilder { types: Vec::new(), strings, next_type_id: 1 }
    }

    fn string(&mut self, value: &str) -> (r: u32)
        ensures
            r == #[verifier::truncate] (old(self).strings@.len() as u32),
            final(self).strings@ == old(self).strings@ + value.spec_bytes() + seq![0u8],
            final(self).types@ == old(self).types@,
            final(self).next_type_id == old(self).next_type_id,
    {
        add_string(&mut self.strings, value)
    }

    fn type_id(&mut self) -> (r: u32)
        ensures
            r == old(self).next_type_id,
            final(self).next_type_id == old(self).next_type_id.wrapping_add(1),
            final(self).types@ == old(self).types@,
            final(self).strings@ == old(self).strings@,
    {
        let id = self.next_type_id;
        self.next_type_id = self.next_type_id.wrapping_add(1);
        id
    }

    fn add_int(&mut self, name: &str, size: u32, signed: bool) -> (r: u32)
        requires
            size <= 8,
        ensures
            (r, btf_state(*final(self))) == int_g(btf_state(*old(self)), name.spec_bytes(), size, signed),
    {
        let id = self.type_id();
        let name_off = self.string(name);
        push_u32(&mut self.types, name_off);
        push_u32(&mut self.types, btf_info(BTF_KIND_INT, 0));
        push_u32(&mut self.types, size);
        let encoding: u32 = if signed { BTF_INT_SIGNED } else { 0 };
        let int_data = (encoding << 24u32) | (size * 8);
        push_u32(&mut self.types, int_data);
        assert(self.types@ =~= int_g(btf_state(*old(self)), name.spec_bytes(), size, signed).1.types);
        id
    }

    fn add_ptr(&mut self, pointee_type: u32) -> (r: u32)
        ensures
            (r, btf_state(*final(self))) == ptr_g(btf_state(*old(self)), pointee_type),
    {
        let id = self.type_id();
        push_u32(&mut self.types, 0);
        push_u32(&mut self.types, btf_info(BTF_KIND_PTR, 0));
        push_u32(&mut self.types, pointee_type);
        assert(self.types@ =~= ptr_g(btf_state(*old(self)), pointee_type).1.types);
        id
    }

    fn add_array(&mut self, elem_type: u32, index_type: u32, nelems: u32) -> (r: u32)
        ensures
            (r, btf_state(*final(self))) == array_g(btf_state(*old(self)), elem_type, index_type, nelems),
    {
        let id = self.type_id();
        push_u32(&mut self.types, 0);
        push_u32(&mut self.types, btf_info(BTF_KIND_ARRAY, 0));
        push_u32(&mut self.types, 0);
        push_u32(&mut self.types, elem_type);
        push_u32(&mut self.types, index_type);
        push_u32(&mut self.types, nelems);
        assert(self.types@ =~= array_g(btf_state(*old(self)), elem_type, index_type, nelems).1.types);
        id
    }

    fn add_struct(&mut self, members: &Vec<(String, u32)>) -> (r: u32)
        requires
            members@.len() <= 0x400_0000,
        ensures
            (r, btf_state(*final(self))) == struct_g(btf_state(*old(self)), member_views(members@)),
    {
        let ghost mv = member_views(members@);
        let id = self.type_id();
        let n = members.len() as u32;
        push_u32(&mut self.types, 0);
        push_u32(&mut self.types, btf_info(BTF_KIND_STRUCT, n));
        push_u32(&mut self.types, n * 8);
        let ghost head = self.types@;
        let ghost strings0 = self.strings@;
        assert(head =~= old(self).types@ + u32_le(0) + u32_le(btf_info_spec(BTF_KIND_STRUCT, n)) + u32_le((n * 8) as u32));
        let mut idx: usize = 0;
        assert(mv.subrange(0, 0) =~= Seq::<(Seq<char>, u32)>::empty());
        while idx < members.len()
            invariant
                idx <= members@.len(),
                members@.len() <= 0x400_0000,
                mv == member_views(members@),
                self.next_type_id == old(self).next_type_id.wrapping_add(1),
                (self.types@, self.strings@) == members_g(mv.subrange(0, idx as int), head, strings0),
            decreases members@.len() - idx,
        {
            let ghost pre = mv.subrange(0, idx + 1);
            assert(pre.drop_last() == mv.subrange(0, idx as int));
            assert(pre.last() == (members@[idx as int].0@, members@[idx as int].1));
            let name_off = self.string(members[idx].0.as_str());
            push_u32(&mut self.types, name_off);
            push_u32(&mut self.types, members[idx].1);
            push_u32(&mut self.types, (idx as u32) * 64);
            idx = idx + 1;
            assert(self.types@ =~= members_g(mv.subrange(0, idx as int), head, strings0).0);
            assert(self.strings@ =~= members_g(mv.subrange(0, idx as int), head, strings0).1);
        }
        assert(mv.subrange(0, mv.len() as int) == mv);
        id
    }

    fn add_var(&mut self, name: &str, typ: u32) -> (r: u32)
        ensures
            (r, btf_state(*final(self))) == var_g(btf_state(*old(self)), name.spec_bytes(), typ),
    {
        let id = self.type_id();
        let name_off = self.string(name);
        push_u32(&mut self.types, name_off);
        push_u32(&mut self.types, btf_info(BTF_KIND_VAR, 0));
        push_u32(&mut self.types, typ);
        push_u32(&mut self.types, BTF_VAR_GLOBAL_ALLOCATED);
        assert(self.types@ =~= var_g(btf_state(*old(self)), name.spec_bytes(), typ).1.types);
        id
    }

    fn add_datasec(&mut self, name: &str, size: u32, vars: &Vec<(u32, u32, u32)>) -> (r: u32)
        ensures
            (r, btf_state(*final(self))) == datasec_g(btf_state(*old(self)), name.spec_bytes(), size, vars@),
    {
        let id = self.type_id();
        let name_off = self.string(name);
        let n = #[verifier::truncate] (vars.len() as u32);
        push_u32(&mut self.types, name_off);
        push_u32(&mut self.types, btf_info(BTF_KIND_DATASEC, n));
        push_u32(&mut self.types, size);
        let ghost head = self.types@;
        let mut k: usize = 0;
        assert(vars@.subrange(0, 0) =~= Seq::<(u32, u32, u32)>::empty());
        assert(head =~= head + datasec_vars_g(vars@.subrange(0, 0)));
        while k < vars.len()
            invariant
                k <= vars@.len(),
                self.types@ == head + datasec_vars_g(vars@.subrange(0, k as int)),
                self.strings@ == old(self).strings@ + name.spec_bytes() + seq![0u8],
                self.next_type_id == old(self).next_type_id.wrapping_add(1),
            decreases vars@.len() - k,
        {
            let ghost pre = vars@.subrange(0, k + 1);
            assert(pre.drop_last() == vars@.subrange(0, k as int));
            assert(pre.last() == vars@[k as int]);
            let (typ, offset, sz) = vars[k];
            push_u32(&mut self.types, typ);
            push_u32(&mut self.types, offset);
            push_u32(&mut self.types, sz);
            k = k + 1;
            assert(self.types@ =~= head + datasec_vars_g(vars@.subrange(0, k as int)));
        }
        assert(vars@.subrange(0, vars@.len() as int) == vars@);
        assert(self.types@ =~= datasec_g(btf_state(*old(self)), name.spec_bytes(), size, vars@).1.types);
        id
    }

    /// The blob: header, types, strings.
    fn finish(self) -> (r: Vec<u8>)
        ensures
            r@ == crate::emit::btf::btf_blob(self.types@, self.strings@),
    {
        let header = crate::emit::btf::BtfHeader {
            magic: crate::emit::btf::BTF_MAGIC,
            version: 1,
            flags: 0,
            hdr_len: crate::emit::btf::BTF_HEADER_LEN,
            type_off: 0,
            type_len: #[verifier::truncate] (self.types.len() as u32),
            str_off: #[verifier::truncate] (self.types.len() as u32),
            str_len: #[verifier::truncate] (self.strings.len() as u32),
        };
        let mut out: Vec<u8> = Vec::new();
        crate::emit::btf::push_btf_header(&mut out, &header);
        push_slice(&mut out, self.types.as_slice());
        push_slice(&mut out, self.strings.as_slice());
        assert(out@ =~= crate::emit::btf::btf_blob(self.types@, self.strings@));
        out
    }
}

/// Appends `s` and a zero to a string table; returns where `s` starts.
fn add_string(buf: &mut Vec<u8>, s: &str) -> (r: u32)
    ensures
        r == #[verifier::truncate] (old(buf)@.len() as u32),
        final(buf)@ == old(buf)@ + s.spec_bytes() + seq![0u8],
{
    let off: u32 = #[verifier::truncate] (buf.len() as u32);
    push_slice(buf, s.as_bytes());
    buf.push(0);
    assert(buf@ =~= old(buf)@ + s.spec_bytes() + seq![0u8]);
    off
}

fn btf_type_for_source_type(ints: BtfIntIds, ty: Type) -> (r: u32)
    ensures
        r == type_id_of(ints, ty),
{
    match ty {
        Type::U32 => ints.u32_id,
        Type::U64 => ints.u64_id,
        Type::I32 => ints.i32_id,
        Type::I64 => ints.i64_id,
    }
}

/// The kernel's number for a map type.
pub open spec fn map_kind_number(t: MapType) -> u32 {
    match t {
        MapType::Hash => 1,
        MapType::Array => 2,
        MapType::ProgArray => 3,
        MapType::LruHash => 9,
        MapType::Ringbuf => 27,
    }
}

/// The number the `.BTF` description gives each map type is the kernel's
/// number for that type, and the direct object back end uses the same one.
pub proof fn lemma_map_kind_numbers(t: MapType)
    ensures
        kernel_map_type_name(map_kind_number(t)) == Some(map_type_kernel_name(t)),
        map_kind_number(t) == crate::emit::ebpf_obj::maps::map_type_number(t),
{
}

fn map_type_num(map_type: MapType) -> (r: u32)
    ensures
        r == map_kind_number(map_type),
{
    match map_type {
        MapType::Hash => 1,
        MapType::Array => 2,
        MapType::ProgArray => 3,
        MapType::LruHash => 9,
        MapType::Ringbuf => 27,
    }
}

/// The BTF struct describing one map: a pointer to an array whose length is
/// the map type, and pointers for the key, value and entry limit present.
fn add_btf_map_struct(btf: &mut BtfBuilder, ints: BtfIntIds, map: &BtfMap) -> (r: Result<u32, String>)
    ensures
        r == Ok::<u32, String>(map_struct_g(btf_state(*old(btf)), ints, btf_map_view(*map)).0),
        btf_state(*final(btf)) == map_struct_g(btf_state(*old(btf)), ints, btf_map_view(*map)).1,
{
    let mut members: Vec<(String, u32)> = Vec::new();
    let type_array = btf.add_array(ints.int_id, ints.int_id, map_type_num(map.map_type));
    let type_ptr = btf.add_ptr(type_array);
    members.push((owned("type"), type_ptr));
    assert(member_views(members@) =~= seq![("type"@, type_ptr)]);
    if let Some(key_type) = map.key_type {
        let typ = btf_type_for_source_type(ints, key_type);
        let ghost before = member_views(members@);
        let p = btf.add_ptr(typ);
        members.push((owned("key"), p));
        assert(member_views(members@) =~= before.push(("key"@, p)));
    }
    if let Some(value_type) = map.value_type {
        let typ = btf_type_for_source_type(ints, value_type);
        let ghost before = member_views(members@);
        let p = btf.add_ptr(typ);
        members.push((owned("value"), p));
        assert(member_views(members@) =~= before.push(("value"@, p)));
    }
    if let Some(max_entries) = map.max_entries {
        let ghost before = member_views(members@);
        let max_entries_array = btf.add_array(ints.int_id, ints.int_id, max_entries);
        let max_entries_ptr = btf.add_ptr(max_entries_array);
        members.push((owned("max_entries"), max_entries_ptr));
        assert(member_views(members@) =~= before.push(("max_entries"@, max_entries_ptr)));
    }
    if members.len() == 0 {
        return Err(concat3("map '", map.name.as_str(), "' has no BTF attributes"));
    }
    Ok(btf.add_struct(&members))
}

/// The `.BTF` section: the integer types, one struct and one variable per
/// map, and the `.maps` data section that places them.
fn build_btf(maps: &Vec<BtfMap>, maps_sec_size: u32) -> (r: Result<Vec<u8>, String>)
    ensures
        r is Ok,
        r matches Ok(b) ==> exists|t: Seq<u8>, s: Seq<u8>| b@ == crate::emit::btf::btf_blob(t, s),
        r matches Ok(b) ==> b@ == btf_blob_of(btf_map_views_of(maps@), maps_sec_size),
{
    let ghost views = btf_map_views_of(maps@);
    let mut btf = BtfBuilder::new();
    let ghost st0 = btf_state(btf);
    assert(btf.types@ =~= Seq::<u8>::empty());
    assert(st0 == BtfState { types: Seq::empty(), strings: seq![0u8], next: 1 });
    let int_id = btf.add_int("int", 4, true);
    let u32_id = btf.add_int("u32", 4, false);
    let u64_id = btf.add_int("u64", 8, false);
    let i32_id = btf.add_int("i32", 4, true);
    let i64_id = btf.add_int("i64", 8, true);
    let ints = BtfIntIds { int_id, u32_id, u64_id, i32_id, i64_id };
    let ghost s1 = btf_state(btf);
    assert((ints, s1) == ints_g(st0));
    let mut datasec_vars: Vec<(u32, u32, u32)> = Vec::new();
    let mut k: usize = 0;
    assert(views.subrange(0, 0) =~= Seq::<BtfMapView>::empty());
    assert(datasec_vars@ =~= Seq::<(u32, u32, u32)>::empty());
    while k < maps.len()
        invariant
            k <= maps@.len(),
            views == btf_map_views_of(maps@),
            (btf_state(btf), datasec_vars@) == maps_g(s1, ints, views.subrange(0, k as int)),
        decreases maps@.len() - k,
    {
        let map = &maps[k];
        let ghost pre = views.subrange(0, k + 1);
        assert(pre.drop_last() == views.subrange(0, k as int));
        assert(pre.last() == btf_map_view(*map));
        let struct_id = add_btf_map_struct(&mut btf, ints, map)?;
        let var_id = btf.add_var(map.name.as_str(), struct_id);
        datasec_vars.push((var_id, map.offset, map.size));
        k = k + 1;
    }
    assert(views.subrange(0, views.len() as int) == views);
    btf.add_datasec(".maps", maps_sec_size, &datasec_vars);
    let ghost t = btf.types@;
    let ghost st = btf.strings@;
    assert(btf_state(btf) == btf_state_of(views, maps_sec_size));
    let out = btf.finish();
    assert(out@ == crate::emit::btf::btf_blob(t, st));
    proof { reveal(btf_blob_of); }
    Ok(out)
}

fn map_size_of(map: &MapDecl) -> (r: u32)
    ensures
        r == btf_map_size(*map),
{
    let mut fields: u32 = 1;
    if map.key_type.is_some() { fields = fields + 1; }
    if map.value_type.is_some() { fields = fields + 1; }
    if map.max_entries.is_some() { fields = fields + 1; }
    fields * 8
}

proof fn lemma_map_offset(maps: Seq<MapDecl>, i: int)
    requires
        0 <= i <= maps.len(),
    ensures
        map_offset(maps, i) % 8 == 0,
        map_offset(maps, i) <= 32 * i,
    decreases i,
{
    if i > 0 {
        lemma_map_offset(maps, i - 1);
    }
}

impl BpfObject {
    /// Adds the maps: a `.maps` section with a zeroed slot of
    /// `btf_map_size` bytes per map, one global object symbol per map at its
    /// slot, and a `.BTF` section describing them. Nothing is added when
    /// there are no maps.
    pub fn add_maps(&mut self, maps: &Vec<MapDecl>) -> (r: Result<(), String>)
        requires
            old(self).wf(),
        ensures
            r is Ok,
            final(self).wf(),
            maps@.len() == 0 ==> final(self).sections() == old(self).sections()
                && final(self).symbols() == old(self).symbols()
                && final(self).map_symbols() == old(self).map_symbols()
                && final(self).btf_map_views() == old(self).btf_map_views(),
            maps@.len() > 0 ==> final(self).btf_map_views() == old(self).btf_map_views() + new_btf_views(maps@)
                && final(self).sections()[old(self).sections().len() as int + 1].data@
                    == btf_blob_of(final(self).btf_map_views(), map_offset(maps@, maps@.len() as int) as u32),
            maps@.len() > 0 ==> {
                let n = old(self).sections().len() as int;
                let m = old(self).symbols().len() as int;
                let idx = #[verifier::truncate] (n as u16);
                &&& final(self).sections().len() == n + 2
                &&& final(self).sections().subrange(0, n) == old(self).sections()
                &&& plain_section(final(self).sections()[n], ".maps"@, SHT_PROGBITS, SHF_ALLOC | SHF_WRITE, 8,
                    zeros(map_offset(maps@, maps@.len() as int)))
                &&& plain_section(final(self).sections()[n + 1], ".BTF"@, SHT_PROGBITS, 0, 4,
                    final(self).sections()[n + 1].data@)
                &&& exists|t: Seq<u8>, s: Seq<u8>| final(self).sections()[n + 1].data@ == crate::emit::btf::btf_blob(t, s)
                &&& final(self).symbols().len() == m + maps@.len()
                &&& final(self).symbols().subrange(0, m) == old(self).symbols()
                &&& forall|i: int| 0 <= i < maps@.len() ==> symbol_is(#[trigger] final(self).symbols()[m + i],
                    object_symbol(maps@[i].name@), STB_GLOBAL, STT_OBJECT, idx, map_offset(maps@, i) as u64,
                    btf_map_size(maps@[i]) as u64)
                &&& final(self).map_symbols().len() == old(self).map_symbols().len() + maps@.len()
                &&& final(self).map_symbols().subrange(0, old(self).map_symbols().len() as int) == old(self).map_symbols()
                &&& forall|i: int| 0 <= i < maps@.len() ==> (#[trigger] final(self).map_symbols()[old(self).map_symbols().len() + i]).0@
                    == maps@[i].name@ && final(self).map_symbols()[old(self).map_symbols().len() + i].1 == m + i
            },
    {
        if maps.len() == 0 {
            return Ok(());
        }
        let ghost sec0 = self.sections@;
        let ghost sym0 = self.symbols@;
        let ghost ms0 = self.map_symbols@;
        let maps_section = self.add_section(".maps", SHT_PROGBITS, SHF_ALLOC | SHF_WRITE, 8, Vec::new());
        let ms = self.sections.len() - 1;
        let mut data: Vec<u8> = Vec::new();
        let mut i: usize = 0;
        while i < maps.len()
            invariant
                i <= maps@.len(),
                ms == sec0.len(),
                self.sections@.len() == sec0.len() + 1,
                self.sections@.subrange(0, sec0.len() as int) == sec0,
                plain_section(self.sections@[ms as int], ".maps"@, SHT_PROGBITS, SHF_ALLOC | SHF_WRITE, 8, Seq::empty()),
                maps_section == #[verifier::truncate] (sec0.len() as u16),
                data@ == zeros(map_offset(maps@, i as int)),
                self.symbols@.len() == sym0.len() + i,
                self.symbols@.subrange(0, sym0.len() as int) == sym0,
                forall|j: int| 0 <= j < i ==> symbol_is(#[trigger] self.symbols@[sym0.len() + j],
                    object_symbol(maps@[j].name@), STB_GLOBAL, STT_OBJECT, maps_section, map_offset(maps@, j) as u64,
                    btf_map_size(maps@[j]) as u64),
                self.map_symbols@.len() == ms0.len() + i,
                self.map_symbols@.subrange(0, ms0.len() as int) == ms0,
                forall|j: int| 0 <= j < i ==> (#[trigger] self.map_symbols@[ms0.len() + j]).0@ == maps@[j].name@
                    && self.map_symbols@[ms0.len() + j].1 == sym0.len() + j,
                self.btf_maps@.len() == old(self).btf_maps@.len() + i,
                btf_map_views_of(self.btf_maps@) == btf_map_views_of(old(self).btf_maps@) + new_btf_views(maps@).subrange(0, i as int),
            decreases maps@.len() - i,
        {
            let map = &maps[i];
            proof { lemma_map_offset(maps@, i as int); }
            // Every slot is a multiple of 8 bytes, so the next one starts aligned.
            let len = data.len();
            let offset: u64 = len as u64;
            assert(offset % 8 == 0);
            let map_size = map_size_of(map);
            let mut k: u32 = 0;
            while k < map_size
                invariant
                    k <= map_size,
                    data@ == zeros(map_offset(maps@, i as int) + k as nat),
                decreases map_size - k,
            {
                data.push(0);
                k = k + 1;
                assert(data@ =~= zeros(map_offset(maps@, i as int) + k as nat));
            }
            proof { reveal_strlit("_solnix_symbol"); }
            let sym_name = sanitize_ident_or(map.name.as_str(), "_solnix_symbol");
            let sym_idx = self.symbols.len();
            let ghost syms_before = self.symbols@;
            self.symbols.push(Symbol {
                name: sym_name,
                bind: STB_GLOBAL,
                typ: STT_OBJECT,
                section: maps_section,
                value: offset,
                size: map_size as u64,
            });
            let ghost msb = self.map_symbols@;
            self.map_symbols.push((map.name.clone(), sym_idx));
            let btf_name = sanitize_ident_or(map.name.as_str(), "_solnix_symbol");
            let ghost bm0 = self.btf_maps@;
            self.btf_maps.push(BtfMap {
                name: btf_name,
                map_type: map.map_type,
                key_type: map.key_type,
                value_type: map.value_type,
                max_entries: map.max_entries,
                offset: offset as u32,
                size: map_size,
            });
            i = i + 1;
            proof {
                let nv = new_btf_views(maps@);
                assert(btf_map_views_of(self.btf_maps@) =~= btf_map_views_of(bm0).push(btf_map_view(self.btf_maps@.last())));
                assert(btf_map_view(self.btf_maps@.last()) == nv[i - 1]);
                assert(nv.subrange(0, i as int) =~= nv.subrange(0, i - 1).push(nv[i - 1]));
                assert(btf_map_views_of(self.btf_maps@) =~= btf_map_views_of(old(self).btf_maps@) + nv.subrange(0, i as int));
            }
            assert(self.symbols@.subrange(0, sym0.len() as int) =~= sym0);
            assert(self.map_symbols@.subrange(0, ms0.len() as int) =~= ms0);
            assert forall|j: int| 0 <= j < i implies symbol_is(#[trigger] self.symbols@[sym0.len() + j],
                object_symbol(maps@[j].name@), STB_GLOBAL, STT_OBJECT, maps_section, map_offset(maps@, j) as u64,
                btf_map_size(maps@[j]) as u64) by {
                if j < i - 1 {
                    assert(self.symbols@[sym0.len() + j] == syms_before[sym0.len() + j]);
                }
            }
            assert forall|j: int| 0 <= j < i implies (#[trigger] self.map_symbols@[ms0.len() + j]).0@ == maps@[j].name@
                && self.map_symbols@[ms0.len() + j].1 == sym0.len() + j by {
                if j < i - 1 {
                    assert(self.map_symbols@[ms0.len() + j] == msb[ms0.len() + j]);
                }
            }
        }
        proof { lemma_map_offset(maps@, maps@.len() as int); }
        let sec_size: u32 = data.len() as u32;
        let ghost secs_mid = self.sections@;
        self.sections.set(ms, Section {
            name: owned(".maps"),
            sh_type: SHT_PROGBITS,
            flags: SHF_ALLOC | SHF_WRITE,
            align: 8,
            entsize: 0,
            link: 0,
            info: 0,
            data,
        });
        let btf = build_btf(&self.btf_maps, sec_size)?;
        let ghost secs_set = self.sections@;
        self.add_section(".BTF", SHT_PROGBITS, 0, 4, btf);
        proof {
            assert(new_btf_views(maps@).subrange(0, maps@.len() as int) == new_btf_views(maps@));
            assert(self.sections@.subrange(0, sec0.len() as int) =~= sec0) by {
                assert forall|j: int| 0 <= j < sec0.len() implies self.sections@[j] == sec0[j] by {
                    assert(self.sections@[j] == secs_set[j]);
                    assert(secs_set[j] == secs_mid[j]);
                    assert(secs_mid.subrange(0, sec0.len() as int)[j] == sec0[j]);
                }
            }
            assert(self.sections@[ms as int] == secs_set[ms as int]);
            assert forall|i: int| 0 <= i < self.sections@.len() implies valid_align(#[trigger] self.sections@[i].align) by {
                if i < sec0.len() {
                    assert(self.sections@[i] == sec0[i]);
                }
            }
        }
        Ok(())
    }
}

/// The symbol index recorded last for the map `name`, if any.
pub open spec fn latest_map_symbol(ms: Seq<(String, usize)>, name: Seq<char>) -> Option<usize>
    decreases ms.len(),
{
    if ms.len() == 0 {
        None
    } else if ms.last().0@ == name {
        Some(ms.last().1)
    } else {
        latest_map_symbol(ms.drop_last(), name)
    }
}

/// Every relocation names a map that has a symbol.
pub open spec fn relocs_resolve(relocs: Seq<ProgramReloc>, ms: Seq<(String, usize)>) -> bool {
    forall|j: int| 0 <= j < relocs.len() ==> (#[trigger] latest_map_symbol(ms, relocs[j].symbol@)) is Some
}

/// The failure for a relocation against map `name`, which has no symbol.
pub open spec fn unknown_map_message(name: Seq<char>) -> Seq<char> {
    "unknown map referenced by codegen: "@ + name
}

/// Relocation `j` is the first whose map has no symbol.
#[verifier::opaque]
pub open spec fn first_unresolved(relocs: Seq<ProgramReloc>, ms: Seq<(String, usize)>, j: int) -> bool {
    &&& 0 <= j < relocs.len()
    &&& latest_map_symbol(ms, relocs[j].symbol@) is None
    &&& forall|i: int| 0 <= i < j ==> (#[trigger] latest_map_symbol(ms, relocs[i].symbol@)) is Some
}

/// A relocation without a symbol after a prefix that resolves is the first.
proof fn lemma_first_unresolved_at(relocs: Seq<ProgramReloc>, ms: Seq<(String, usize)>, k: int)
    requires
        0 <= k < relocs.len(),
        relocs_resolve(relocs.subrange(0, k), ms),
        latest_map_symbol(ms, relocs[k].symbol@) is None,
    ensures
        first_unresolved(relocs, ms, k),
{
    reveal(first_unresolved);
    assert forall|i: int| 0 <= i < k implies (#[trigger] latest_map_symbol(ms, relocs[i].symbol@)) is Some by {
        assert(relocs.subrange(0, k)[i] == relocs[i]);
    }
}

/// The `r_info` of a relocation of type `R_BPF_64_64` against symbol `sym`.
pub open spec fn rel_info(sym: usize) -> u64 {
    ((sym as u64) << 32u64) | (R_BPF_64_64 as u64)
}

/// The `Elf64_Rel` entries of the relocations.
pub open spec fn rel_bytes(relocs: Seq<ProgramReloc>, ms: Seq<(String, usize)>) -> Seq<u8>
    decreases relocs.len(),
{
    if relocs.len() == 0 {
        Seq::empty()
    } else {
        rel_bytes(relocs.drop_last(), ms) + u64_le(relocs.last().offset)
            + u64_le(rel_info(latest_map_symbol(ms, relocs.last().symbol@)->0))
    }
}

fn lookup_map_symbol(ms: &Vec<(String, usize)>, name: &String) -> (r: Option<usize>)
    ensures
        r == latest_map_symbol(ms@, name@),
{
    let mut k = ms.len();
    assert(ms@.subrange(0, k as int) =~= ms@);
    while k > 0
        invariant
            k <= ms@.len(),
            latest_map_symbol(ms@, name@) == latest_map_symbol(ms@.subrange(0, k as int), name@),
        decreases k,
    {
        let ghost pre = ms@.subrange(0, k as int);
        assert(pre.drop_last() =~= ms@.subrange(0, k - 1));
        if str_eq(ms[k - 1].0.as_str(), name.as_str()) {
            return Some(ms[k - 1].1);
        }
        k = k - 1;
    }
    None
}

#[verifier::rlimit(40)]
fn build_rel_data(relocs: &Vec<ProgramReloc>, ms: &Vec<(String, usize)>) -> (r: Result<Vec<u8>, String>)
    ensures
        r is Ok <==> relocs_resolve(relocs@, ms@),
        r matches Ok(d) ==> d@ == rel_bytes(relocs@, ms@),
        r matches Err(e) ==> exists|j: int| first_unresolved(relocs@, ms@, j)
            && e@ == unknown_map_message(relocs@[j].symbol@),
{
    let mut rel_data: Vec<u8> = Vec::new();
    let mut k: usize = 0;
    while k < relocs.len()
        invariant
            k <= relocs@.len(),
            relocs_resolve(relocs@.subrange(0, k as int), ms@),
            rel_data@ == rel_bytes(relocs@.subrange(0, k as int), ms@),
        decreases relocs@.len() - k,
    {
        let ghost pre = relocs@.subrange(0, k + 1);
        assert(pre.drop_last() =~= relocs@.subrange(0, k as int));
        let sym = match lookup_map_symbol(ms, &relocs[k].symbol) {
            Some(s) => s,
            None => {
                assert(latest_map_symbol(ms@, relocs@[k as int].symbol@) is None);
                proof { lemma_first_unresolved_at(relocs@, ms@, k as int); }
                let msg = concat2("unknown map referenced by codegen: ", relocs[k].symbol.as_str());
                assert(msg@ == unknown_map_message(relocs@[k as int].symbol@));
                return Err(msg);
            },
        };
        push_u64(&mut rel_data, relocs[k].offset);
        let info = ((sym as u64) << 32u64) | (R_BPF_64_64 as u64);
        push_u64(&mut rel_data, info);
        k = k + 1;
        assert forall|j: int| 0 <= j < k implies (#[trigger] latest_map_symbol(ms@, relocs@.subrange(0, k as int)[j].symbol@)) is Some by {
            if j < k - 1 {
                assert(relocs@.subrange(0, k as int)[j] == relocs@.subrange(0, k - 1)[j]);
            }
        }
    }
    assert(relocs@.subrange(0, relocs@.len() as int) =~= relocs@);
    Ok(rel_data)
}

impl BpfObject {
    /// All sections have an alignment the writer handles.
    pub closed spec fn wf(&self) -> bool {
        forall|i: int| 0 <= i < self.sections@.len() ==> crate::emit::elf::valid_align(#[trigger] self.sections@[i].align)
    }

    /// Adds a program: an executable section holding its code, a global
    /// function symbol covering it, and, when it has relocations, a `.rel`
    /// section for it against the map symbols. Fails when a relocation
    /// names a map without a symbol, naming the first such map; the code
    /// section and the symbol stay added then, and no `.rel` section is.
    pub fn add_program(&mut self, section_name: &str, symbol_name: &str, program: CompiledProgram) -> (r: Result<(), String>)
        requires
            old(self).wf(),
        ensures
            r is Ok <==> relocs_resolve(program.relocs@, old(self).map_symbols()),
            r matches Err(e) ==> exists|j: int| first_unresolved(program.relocs@, old(self).map_symbols(), j)
                && e@ == unknown_map_message(program.relocs@[j].symbol@),
            ({
                let n = old(self).sections().len() as int;
                let idx = #[verifier::truncate] (n as u16);
                &&& final(self).wf()
                &&& final(self).sections().subrange(0, n) == old(self).sections()
                &&& plain_section(final(self).sections()[n], section_name@, SHT_PROGBITS, SHF_ALLOC | SHF_EXECINSTR, 8,
                    program.code@)
                &&& (program.relocs@.len() == 0 || r is Err) ==> final(self).sections().len() == n + 1
                &&& (program.relocs@.len() > 0 && r is Ok) ==> {
                    &&& final(self).sections().len() == n + 2
                    &&& final(self).sections()[n + 1].name@ == ".rel"@ + section_name@
                    &&& final(self).sections()[n + 1].sh_type == SHT_REL
                    &&& final(self).sections()[n + 1].flags == 0
                    &&& final(self).sections()[n + 1].align == 8
                    &&& final(self).sections()[n + 1].entsize == 16
                    &&& final(self).sections()[n + 1].link == 0
                    &&& final(self).sections()[n + 1].info == idx as u32
                    &&& final(self).sections()[n + 1].data@ == rel_bytes(program.relocs@, old(self).map_symbols())
                }
                &&& final(self).symbols() == old(self).symbols().push(final(self).symbols().last())
                &&& symbol_is(final(self).symbols().last(), object_symbol(symbol_name@), STB_GLOBAL, STT_FUNC, idx, 0,
                    program.code@.len() as u64)
                &&& final(self).map_symbols() == old(self).map_symbols()
            }),
    {
        let code_len = program.code.len() as u64;
        let relocs = program.relocs;
        let text_section = self.add_section(section_name, SHT_PROGBITS, SHF_ALLOC | SHF_EXECINSTR, 8, program.code);
        proof { reveal_strlit("_solnix_symbol"); }
        let name = sanitize_ident_or(symbol_name, "_solnix_symbol");
        self.symbols.push(Symbol {
            name,
            bind: STB_GLOBAL,
            typ: STT_FUNC,
            section: text_section,
            value: 0,
            size: code_len,
        });
        let ghost after_text = self.sections@;
        let ghost syms_after = self.symbols@;
        assert(syms_after == old(self).symbols@.push(syms_after.last()));
        proof {
            let n = old(self).sections@.len() as int;
            assert(self.sections@.subrange(0, n) =~= old(self).sections@);
            assert forall|i: int| 0 <= i < self.sections@.len() implies valid_align(#[trigger] self.sections@[i].align) by {
                if i < n {
                    assert(self.sections@[i] == old(self).sections@[i]);
                }
            }
        }
        if relocs.len() > 0 {
            let rel_data = match build_rel_data(&relocs, &self.map_symbols) {
                Ok(d) => d,
                Err(e) => return Err(e),
            };
            let rel_name = concat2(".rel", section_name);
            self.sections.push(Section {
                name: rel_name,
                sh_type: SHT_REL,
                flags: 0,
                align: 8,
                entsize: 16,
                link: 0,
                info: text_section as u32,
                data: rel_data,
            });
            proof {
                assert(self.sections@.subrange(0, after_text.len() as int) =~= after_text);
                assert(self.sections@.subrange(0, old(self).sections@.len() as int) =~= old(self).sections@);
            }
        } else {
            proof {
                assert(relocs@.len() == 0);
            }
        }
        proof {
            let n = old(self).sections@.len() as int;
            assert(self.sections@[n] == after_text[n]);
            assert(plain_section(self.sections@[n], section_name@, SHT_PROGBITS, SHF_ALLOC | SHF_EXECINSTR, 8, program.code@));
            assert(self.sections@.subrange(0, n) =~= old(self).sections@);
            assert forall|i: int| 0 <= i < self.sections@.len() implies valid_align(#[trigger] self.sections@[i].align) by {
                if i < n {
                    assert(self.sections@[i] == old(self).sections@[i]);
                }
            }
            assert(self.symbols@ == syms_after);
        }
        Ok(())
    }
}

/// The `Elf64_Sym` entry of a symbol whose name starts at `name_off`.
pub open spec fn sym_entry(s: Symbol, name_off: u32) -> Seq<u8> {
    u32_le(name_off) + seq![(s.bind << 4u8) | (s.typ & 0x0fu8), 0u8] + u16_le(s.section) + u64_le(s.value)
        + u64_le(s.size)
}

/// The symbol table and its string table: each symbol's name is appended
/// to the string table (which starts with a zero byte) with a terminating
/// zero, and its entry records where the name starts.
#[verifier::opaque]
pub open spec fn symtab_parts(syms: Seq<Symbol>) -> (Seq<u8>, Seq<u8>)
    decreases syms.len(),
{
    if syms.len() == 0 {
        (Seq::empty(), seq![0u8])
    } else {
        let p = symtab_parts(syms.drop_last());
        (p.0 + sym_entry(syms.last(), p.1.len() as u32), p.1 + encode_utf8(syms.last().name@) + seq![0u8])
    }
}

/// The section-name string table and each section's name offset: empty
/// names get offset 0, others are appended with a terminating zero.
#[verifier::opaque]
pub open spec fn shstr_parts(names: Seq<Seq<char>>) -> (Seq<u8>, Seq<u32>)
    decreases names.len(),
{
    if names.len() == 0 {
        (seq![0u8], Seq::empty())
    } else {
        let p = shstr_parts(names.drop_last());
        if names.last().len() == 0 {
            (p.0, p.1.push(0))
        } else {
            (p.0 + encode_utf8(names.last()) + seq![0u8], p.1.push(p.0.len() as u32))
        }
    }
}

/// The names of the sections, then those of the three tables added last.
#[verifier::opaque]
pub open spec fn all_section_names(secs: Seq<Section>) -> Seq<Seq<char>> {
    Seq::new(secs.len(), |i: int| secs[i].name@) + seq![".symtab"@, ".strtab"@, ".shstrtab"@]
}

/// `e` is section `s` as written, with its name at `name_off`; relocation
/// sections are linked to the symbol table at `symtab_idx`.
pub open spec fn written_as(e: ElfSection, s: Section, name_off: u32, symtab_idx: u16) -> bool {
    &&& e.name_off == name_off
    &&& e.sh_type == s.sh_type
    &&& e.flags == s.flags
    &&& e.align == if s.align >= 1 { s.align } else { 1 }
    &&& e.entsize == s.entsize
    &&& e.info == s.info
    &&& e.link == if s.sh_type == SHT_REL { symtab_idx as u32 } else { s.link }
    &&& e.data@ == s.data@
}

/// `b` is the file of `obj`, laid out from `secs`: the object's sections as
/// written, then the symbol table, its string table and the section-name
/// table.
pub open spec fn object_file(obj: BpfObject, b: Seq<u8>, secs: Seq<ElfSection>) -> bool {
    &&& object_sections(obj, secs)
    &&& elf_len(secs) + 32 <= usize::MAX
    &&& b == elf_image(secs, #[verifier::truncate] ((obj.sections().len() + 2) as u16))
}

/// `secs` are the sections written for `obj`: the object's sections as
/// written, then the symbol table, its string table and the section-name
/// table.
pub open spec fn object_sections(obj: BpfObject, secs: Seq<ElfSection>) -> bool {
    let n = obj.sections().len() as int;
    let names = shstr_parts(all_section_names(obj.sections()));
    let tabs = symtab_parts(obj.symbols());
    let symtab_idx = #[verifier::truncate] (n as u16);
    &&& secs.len() == n + 3
    &&& forall|i: int| 0 <= i < n ==> written_as(#[trigger] secs[i], obj.sections()[i], names.1[i], symtab_idx)
    &&& secs[n].sh_type == SHT_SYMTAB && secs[n].entsize == 24 && secs[n].align == 8 && secs[n].info == 1
        && secs[n].link == symtab_idx.wrapping_add(1) as u32 && secs[n].data@ == tabs.0
        && secs[n].name_off == names.1[n] && secs[n].flags == 0
    &&& secs[n + 1].sh_type == SHT_STRTAB && secs[n + 1].data@ == tabs.1 && secs[n + 1].name_off == names.1[n + 1]
        && secs[n + 1].align == 1 && secs[n + 1].flags == 0 && secs[n + 1].entsize == 0 && secs[n + 1].link == 0
        && secs[n + 1].info == 0
    &&& secs[n + 2].sh_type == SHT_STRTAB && secs[n + 2].data@ == names.0 && secs[n + 2].name_off == names.1[n + 2]
        && secs[n + 2].align == 1 && secs[n + 2].flags == 0 && secs[n + 2].entsize == 0 && secs[n + 2].link == 0
        && secs[n + 2].info == 0
}

fn build_symtab(symbols: &Vec<Symbol>) -> (r: (Vec<u8>, Vec<u8>))
    ensures
        (r.0@, r.1@) == symtab_parts(symbols@),
{
    proof { reveal(symtab_parts); }
    let mut strtab: Vec<u8> = Vec::new();
    strtab.push(0);
    let mut data: Vec<u8> = Vec::new();
    let mut k: usize = 0;
    assert(symbols@.subrange(0, 0) =~= Seq::<Symbol>::empty());
    while k < symbols.len()
        invariant
            k <= symbols@.len(),
            (data@, strtab@) == symtab_parts(symbols@.subrange(0, k as int)),
        decreases symbols@.len() - k,
    {
        proof { reveal(symtab_parts); }
        let sym = &symbols[k];
        assert(symbols@.subrange(0, k + 1).drop_last() =~= symbols@.subrange(0, k as int));
        let name_off = add_string(&mut strtab, sym.name.as_str());
        push_u32(&mut data, name_off);
        data.push((sym.bind << 4u8) | (sym.typ & 0x0f));
        data.push(0);
        push_u16(&mut data, sym.section);
        push_u64(&mut data, sym.value);
        push_u64(&mut data, sym.size);
        k = k + 1;
        assert(data@ =~= symtab_parts(symbols@.subrange(0, k as int)).0);
    }
    assert(symbols@.subrange(0, symbols@.len() as int) =~= symbols@);
    (data, strtab)
}

fn add_shstr(data: &mut Vec<u8>, offs: &mut Vec<u32>, name: &str)
    ensures
        (final(data)@, final(offs)@) == (if name@.len() == 0 {
            (old(data)@, old(offs)@.push(0))
        } else {
            (old(data)@ + encode_utf8(name@) + seq![0u8], old(offs)@.push(#[verifier::truncate] (old(data)@.len() as u32)))
        }),
{
    if name.is_empty() {
        offs.push(0);
    } else {
        let off = add_string(data, name);
        offs.push(off);
    }
}

fn copy_bytes(v: &Vec<u8>) -> (r: Vec<u8>)
    ensures
        r@ == v@,
{
    let mut out: Vec<u8> = Vec::new();
    push_slice(&mut out, v.as_slice());
    assert(out@ =~= v@);
    out
}

fn section_names_table(sections: &Vec<Section>) -> (r: (Vec<u8>, Vec<u32>))
    ensures
        (r.0@, r.1@) == shstr_parts(all_section_names(sections@)),
        r.1@.len() == sections@.len() + 3,
{
    proof { reveal(shstr_parts); reveal(all_section_names); }
    let n = sections.len();
    let mut shstr: Vec<u8> = Vec::new();
    shstr.push(0);
    let mut offs: Vec<u32> = Vec::new();
    let ghost names = all_section_names(sections@);
    let mut k: usize = 0;
    assert(names.subrange(0, 0) =~= Seq::<Seq<char>>::empty());
    while k < n
        invariant
            n == sections@.len(),
            names == all_section_names(sections@),
            k <= n,
            (shstr@, offs@) == shstr_parts(names.subrange(0, k as int)),
            offs@.len() == k,
        decreases n - k,
    {
        proof { reveal(shstr_parts); reveal(all_section_names); }
        assert(names.subrange(0, k + 1).drop_last() =~= names.subrange(0, k as int));
        assert(names[k as int] == sections@[k as int].name@);
        add_shstr(&mut shstr, &mut offs, sections[k].name.as_str());
        k = k + 1;
    }
    proof { reveal_strlit(".symtab"); reveal_strlit(".strtab"); reveal_strlit(".shstrtab"); }
    assert(names.subrange(0, n + 1).drop_last() =~= names.subrange(0, n as int));
    assert(names[n as int] == ".symtab"@);
    add_shstr(&mut shstr, &mut offs, ".symtab");
    assert((shstr@, offs@) == shstr_parts(names.subrange(0, n + 1)));
    assert(names.subrange(0, n + 2).drop_last() =~= names.subrange(0, n + 1));
    assert(names[n + 1] == ".strtab"@);
    add_shstr(&mut shstr, &mut offs, ".strtab");
    assert((shstr@, offs@) == shstr_parts(names.subrange(0, n + 2)));
    assert(names.subrange(0, n + 3).drop_last() =~= names.subrange(0, n + 2));
    assert(names[n + 2] == ".shstrtab"@);
    add_shstr(&mut shstr, &mut offs, ".shstrtab");
    assert((shstr@, offs@) == shstr_parts(names.subrange(0, n + 3)));
    assert(names.subrange(0, n + 3) =~= names);
    (shstr, offs)
}

fn written_sections(sections: &Vec<Section>, offs: &Vec<u32>, symtab_index: u16) -> (r: Vec<ElfSection>)
    requires
        offs@.len() >= sections@.len(),
        forall|i: int| 0 <= i < sections@.len() ==> valid_align(#[trigger] sections@[i].align),
    ensures
        r@.len() == sections@.len(),
        forall|j: int| 0 <= j < r@.len() ==> written_as(#[trigger] r@[j], sections@[j], offs@[j], symtab_index),
        forall|j: int| 0 <= j < r@.len() ==> valid_align(#[trigger] r@[j].align),
{
    let n = sections.len();
    let mut secs: Vec<ElfSection> = Vec::new();
    let mut i: usize = 0;
    while i < n
        invariant
            n == sections@.len(),
            offs@.len() >= n,
            forall|i: int| 0 <= i < sections@.len() ==> valid_align(#[trigger] sections@[i].align),
            i <= n,
            secs@.len() == i,
            forall|j: int| 0 <= j < i ==> written_as(#[trigger] secs@[j], sections@[j], offs@[j], symtab_index),
            forall|j: int| 0 <= j < i ==> valid_align(#[trigger] secs@[j].align),
        decreases n - i,
    {
        let sec = &sections[i];
        let link = if sec.sh_type == SHT_REL { symtab_index as u32 } else { sec.link };
        let align = if sec.align >= 1 { sec.align } else { 1 };
        assert(valid_align(sec.align));
        secs.push(ElfSection {
            name_off: offs[i],
            sh_type: sec.sh_type,
            flags: sec.flags,
            align,
            entsize: sec.entsize,
            link,
            info: sec.info,
            data: copy_bytes(&sec.data),
        });
        i = i + 1;
    }
    secs
}

proof fn lemma_object_sections(obj: BpfObject, secs: Seq<ElfSection>, names: (Seq<u8>, Seq<u32>), tabs: (Seq<u8>, Seq<u8>))
    requires
        names == shstr_parts(all_section_names(obj.sections())),
        tabs == symtab_parts(obj.symbols()),
        secs.len() == obj.sections().len() + 3,
        forall|i: int| 0 <= i < obj.sections().len() ==> written_as(#[trigger] secs[i], obj.sections()[i], names.1[i],
            #[verifier::truncate] (obj.sections().len() as u16)),
        ({
            let n = obj.sections().len() as int;
            let symtab_idx = #[verifier::truncate] (n as u16);
            &&& secs[n].sh_type == SHT_SYMTAB && secs[n].entsize == 24 && secs[n].align == 8 && secs[n].info == 1
                && secs[n].link == symtab_idx.wrapping_add(1) as u32 && secs[n].data@ == tabs.0
                && secs[n].name_off == names.1[n] && secs[n].flags == 0
            &&& secs[n + 1].sh_type == SHT_STRTAB && secs[n + 1].data@ == tabs.1 && secs[n + 1].name_off == names.1[n + 1]
                && secs[n + 1].align == 1 && secs[n + 1].flags == 0 && secs[n + 1].entsize == 0
                && secs[n + 1].link == 0 && secs[n + 1].info == 0
            &&& secs[n + 2].sh_type == SHT_STRTAB && secs[n + 2].data@ == names.0 && secs[n + 2].name_off == names.1[n + 2]
                && secs[n + 2].align == 1 && secs[n + 2].flags == 0 && secs[n + 2].entsize == 0
                && secs[n + 2].link == 0 && secs[n + 2].info == 0
        }),
    ensures
        object_sections(obj, secs),
{
}

impl BpfObject {
    /// The object file: the sections so far, then `.symtab`, `.strtab` and
    /// `.shstrtab`, laid out by the ELF writer. Relocation sections are
    /// linked to the symbol table. Fails only when the file would not fit
    /// in memory.
    #[verifier::rlimit(50)]
    pub fn encode(&self) -> (r: Result<Vec<u8>, String>)
        requires
            self.wf(),
        ensures
            r matches Err(e) ==> e@ == "object file too large"@,
            r is Err ==> exists|secs: Seq<ElfSection>| #[trigger] object_sections(*self, secs) && elf_len(secs) + 32 > usize::MAX,
            r matches Ok(b) ==> exists|secs: Seq<ElfSection>| #[trigger] object_file(*self, b@, secs),
            r matches Ok(b) ==> is_bpf_elf(b@),
    {
        let n = self.sections.len();
        let symtab_index: u16 = #[verifier::truncate] (n as u16);
        let strtab_index: u16 = symtab_index.wrapping_add(1);
        let (symtab, strtab) = build_symtab(&self.symbols);
        let (shstr, offs) = section_names_table(&self.sections);
        let ghost names_parts = (shstr@, offs@);
        let offs_len = offs.len();
        assert(offs_len == n + 3);
        let mut secs = written_sections(&self.sections, &offs, symtab_index);
        let ghost first = secs@;
        secs.push(ElfSection {
            name_off: offs[n],
            sh_type: SHT_SYMTAB,
            flags: 0,
            align: 8,
            entsize: 24,
            link: strtab_index as u32,
            info: 1,
            data: symtab,
        });
        secs.push(ElfSection {
            name_off: offs[n + 1],
            sh_type: SHT_STRTAB,
            flags: 0,
            align: 1,
            entsize: 0,
            link: 0,
            info: 0,
            data: strtab,
        });
        secs.push(ElfSection {
            name_off: offs[n + 2],
            sh_type: SHT_STRTAB,
            flags: 0,
            align: 1,
            entsize: 0,
            link: 0,
            info: 0,
            data: shstr,
        });
        let shstrtab_index: u16 = #[verifier::truncate] ((secs.len() - 1) as u16);
        assert forall|j: int| 0 <= j < secs@.len() implies valid_align(#[trigger] secs@[j].align) by {
            if j < n {
                assert(secs@[j] == first[j]);
            }
        }
        assert forall|i: int| 0 <= i < n implies written_as(#[trigger] secs@[i], self.sections@[i], names_parts.1[i], symtab_index) by {
            assert(secs@[i] == first[i]);
        }
        proof {
            lemma_object_sections(*self, secs@, names_parts, symtab_parts(self.symbols@));
        }
        match encode_elf(&secs, shstrtab_index) {
            Some(bytes) => {
                proof {
                    lemma_image_is_bpf_elf(secs@, shstrtab_index);
                }
                let ghost w = secs@;
                let r: Result<Vec<u8>, String> = Ok(bytes);
                assert(r matches Ok(q) && object_file(*self, q@, w));
                r
            },
            None => {
                assert(object_sections(*self, secs@) && elf_len(secs@) + 32 > usize::MAX);
                Err(owned("object file too large"))
            },
        }
    }
}

/// Two sections with the same name, header fields and data.
pub open spec fn section_alike(a: Section, b: Section) -> bool {
    &&& a.name@ == b.name@
    &&& a.sh_type == b.sh_type
    &&& a.flags == b.flags
    &&& a.align == b.align
    &&& a.entsize == b.entsize
    &&& a.link == b.link
    &&& a.info == b.info
    &&& a.data@ == b.data@
}

/// Two symbols with the same name and fields.
pub open spec fn symbol_alike(a: Symbol, b: Symbol) -> bool {
    symbol_is(a, b.name@, b.bind, b.typ, b.section, b.value, b.size)
}

/// Two objects with alike sections and alike symbols.
pub open spec fn objects_alike(a: BpfObject, b: BpfObject) -> bool {
    &&& a.sections().len() == b.sections().len()
    &&& forall|i: int| 0 <= i < a.sections().len() ==> section_alike(#[trigger] a.sections()[i], b.sections()[i])
    &&& a.symbols().len() == b.symbols().len()
    &&& forall|i: int| 0 <= i < a.symbols().len() ==> symbol_alike(#[trigger] a.symbols()[i], b.symbols()[i])
}

proof fn lemma_symtab_alike(a: Seq<Symbol>, b: Seq<Symbol>)
    requires
        a.len() == b.len(),
        forall|i: int| 0 <= i < a.len() ==> symbol_alike(#[trigger] a[i], b[i]),
    ensures
        symtab_parts(a) == symtab_parts(b),
    decreases a.len(),
{
    reveal(symtab_parts);
    if a.len() > 0 {
        let (pa, pb) = (a.drop_last(), b.drop_last());
        assert forall|i: int| 0 <= i < pa.len() implies symbol_alike(#[trigger] pa[i], pb[i]) by {
            assert(symbol_alike(a[i], b[i]));
        }
        lemma_symtab_alike(pa, pb);
        assert(symbol_alike(a[a.len() - 1], b[b.len() - 1]));
    }
}

/// Alike objects are written alike and give the same file.
pub proof fn lemma_object_file_alike(o1: BpfObject, o2: BpfObject, s1: Seq<ElfSection>, s2: Seq<ElfSection>)
    requires
        objects_alike(o1, o2),
        object_sections(o1, s1),
        object_sections(o2, s2),
    ensures
        elf_sections_alike(s1, s2),
        elf_len(s1) == elf_len(s2),
        forall|b1: Seq<u8>, b2: Seq<u8>| object_file(o1, b1, s1) && object_file(o2, b2, s2) ==> b1 == b2,
{
    let n = o1.sections().len() as int;
    assert(all_section_names(o1.sections()) == all_section_names(o2.sections())) by {
        reveal(all_section_names);
        assert forall|i: int| 0 <= i < n implies o1.sections()[i].name@ == o2.sections()[i].name@ by {
            assert(section_alike(o1.sections()[i], o2.sections()[i]));
        }
        assert(all_section_names(o1.sections()) =~= all_section_names(o2.sections()));
    }
    lemma_symtab_alike(o1.symbols(), o2.symbols());
    assert forall|i: int| 0 <= i < s1.len() implies {
        &&& (#[trigger] s1[i]).name_off == s2[i].name_off
        &&& s1[i].sh_type == s2[i].sh_type
        &&& s1[i].flags == s2[i].flags
        &&& s1[i].align == s2[i].align
        &&& s1[i].entsize == s2[i].entsize
        &&& s1[i].link == s2[i].link
        &&& s1[i].info == s2[i].info
        &&& s1[i].data@ == s2[i].data@
    } by {
        if i < n {
            assert(section_alike(o1.sections()[i], o2.sections()[i]));
            let names = shstr_parts(all_section_names(o1.sections()));
            let idx = #[verifier::truncate] (n as u16);
            assert(written_as(s1[i], o1.sections()[i], names.1[i], idx));
            assert(written_as(s2[i], o2.sections()[i], names.1[i], idx));
        }
    }
    lemma_elf_image_alike(s1, s2, #[verifier::truncate] ((n + 2) as u16));
}

} // verus!
