//! Legacy `struct bpf_map_def` records for the `.maps` section.
use vstd::prelude::*;
use crate::emit::isa::{kernel_map_type_name, map_type_kernel_name};
use crate::ast::map::{MapDecl, MapType, Type};
use crate::emit::bytes::{push_u32, u32_le};
use crate::text::{concat3, sanitize_ident_or, sanitized, str_eq};

verus! {

/// A map definition as the loader reads it: five little-endian `u32`s.
#[derive(Clone, Copy)]
pub struct BpfMapDef {
    pub map_type: u32,
    pub key_size: u32,
    pub value_size: u32,
    pub max_entries: u32,
    pub map_flags: u32,
}

/// Bytes in one encoded map definition.
pub const MAP_DEF_SIZE: u64 = 20;

/// Where a map's definition lies in the `.maps` section, under its symbol name.
#[derive(Clone, Debug)]
pub struct MapRecord {
    pub name: String,
    pub offset: u64,
    pub size: u64,
}

/// The `.maps` section: the encoded definitions and one record per map, in
/// declaration order.
#[derive(Clone, Debug)]
pub struct MapsSection {
    pub bytes: Vec<u8>,
    pub records: Vec<MapRecord>,
}

/// The number each map definition records for its type is the kernel's
/// number for that type.
pub proof fn lemma_map_type_numbers(t: MapType)
    ensures
        kernel_map_type_name(map_type_number(t)) == Some(map_type_kernel_name(t)),
{
}

/// The kernel's number for a map type.
pub open spec fn map_type_number(t: MapType) -> u32 {
    match t {
        MapType::Hash => 1,
        MapType::Array => 2,
        MapType::ProgArray => 3,
        MapType::LruHash => 9,
        MapType::Ringbuf => 27,
    }
}

/// Bytes of a key or value type.
pub open spec fn type_bytes(t: Type) -> u32 {
    match t {
        Type::U32 | Type::I32 => 4,
        Type::U64 | Type::I64 => 8,
    }
}

/// The symbol name of a map: its name made into a C identifier, or `_map`.
pub open spec fn map_symbol(name: Seq<char>) -> Seq<char> {
    if name.len() == 0 { "_map"@ } else { sanitized(name) }
}

/// The definition of a map: ring buffers have no key or value; other maps
/// take the sizes of their key and value types. A missing limit is zero.
pub open spec fn map_def_of(m: MapDecl) -> BpfMapDef {
    BpfMapDef {
        map_type: map_type_number(m.map_type),
        key_size: if m.map_type == MapType::Ringbuf { 0 } else {
            match m.key_type { Some(t) => type_bytes(t), None => 0 }
        },
        value_size: if m.map_type == MapType::Ringbuf { 0 } else {
            match m.value_type { Some(t) => type_bytes(t), None => 0 }
        },
        max_entries: match m.max_entries { Some(n) => n, None => 0 },
        map_flags: 0,
    }
}

/// The encoding of a definition.
pub open spec fn map_def_bytes(d: BpfMapDef) -> Seq<u8> {
    u32_le(d.map_type) + u32_le(d.key_size) + u32_le(d.value_size) + u32_le(d.max_entries) + u32_le(d.map_flags)
}

/// The encodings of the maps' definitions, one after another.
pub open spec fn maps_bytes(maps: Seq<MapDecl>) -> Seq<u8>
    decreases maps.len(),
{
    if maps.len() == 0 {
        Seq::empty()
    } else {
        maps_bytes(maps.drop_last()) + map_def_bytes(map_def_of(maps.last()))
    }
}

/// Why the last map cannot be encoded after the ones before it, if it cannot.
pub open spec fn last_map_error(maps: Seq<MapDecl>) -> Option<Seq<char>> {
    let m = maps.last();
    let sym = map_symbol(m.name@);
    if exists|j: int| 0 <= j < maps.len() - 1 && map_symbol((#[trigger] maps[j]).name@) == sym {
        Some("duplicate map name '"@ + sym + "'"@)
    } else if m.map_type != MapType::Ringbuf && m.key_type is None {
        Some("map '"@ + m.name@ + "' missing key type"@)
    } else if m.map_type != MapType::Ringbuf && m.value_type is None {
        Some("map '"@ + m.name@ + "' missing value type"@)
    } else {
        None
    }
}

/// The first error met encoding the maps in order, if any.
pub open spec fn maps_error(maps: Seq<MapDecl>) -> Option<Seq<char>>
    decreases maps.len(),
{
    if maps.len() == 0 {
        None
    } else {
        match maps_error(maps.drop_last()) {
            Some(e) => Some(e),
            None => last_map_error(maps),
        }
    }
}

proof fn lemma_maps_error_prefix(maps: Seq<MapDecl>, i: int)
    requires
        0 <= i <= maps.len(),
        maps_error(maps.subrange(0, i)) is Some,
    ensures
        maps_error(maps) == maps_error(maps.subrange(0, i)),
    decreases maps.len() - i,
{
    if i < maps.len() {
        assert(maps.drop_last().subrange(0, i) == maps.subrange(0, i));
        lemma_maps_error_prefix(maps.drop_last(), i);
    } else {
        assert(maps.subrange(0, i) == maps);
    }
}

proof fn lemma_maps_bytes_len(maps: Seq<MapDecl>)
    ensures
        maps_bytes(maps).len() == 20 * maps.len(),
    decreases maps.len(),
{
    if maps.len() > 0 {
        lemma_maps_bytes_len(maps.drop_last());
    }
}

impl MapsSection {
    /// The position of the record whose symbol name is `name`, if any.
    pub fn index_of(&self, name: &str) -> (r: Option<usize>)
        ensures
            r matches Some(k) ==> k < self.records@.len() && self.records@[k as int].name@ == name@,
            r is None ==> forall|k: int| 0 <= k < self.records@.len() ==> (#[trigger] self.records@[k]).name@ != name@,
    {
        let mut k: usize = 0;
        while k < self.records.len()
            invariant
                k <= self.records@.len(),
                forall|j: int| 0 <= j < k ==> (#[trigger] self.records@[j]).name@ != name@,
            decreases self.records@.len() - k,
        {
            if str_eq(self.records[k].name.as_str(), name) {
                return Some(k);
            }
            k = k + 1;
        }
        None
    }
}

fn type_size(t: Type) -> (r: u32)
    ensures
        r == type_bytes(t),
{
    match t {
        Type::U32 | Type::I32 => 4,
        Type::U64 | Type::I64 => 8,
    }
}

fn map_type_to_u32(t: MapType) -> (r: u32)
    ensures
        r == map_type_number(t),
{
    match t {
        MapType::Hash => 1,
        MapType::Array => 2,
        MapType::ProgArray => 3,
        MapType::LruHash => 9,
        MapType::Ringbuf => 27,
    }
}

fn push_map_def(out: &mut Vec<u8>, def: BpfMapDef)
    ensures
        final(out)@ == old(out)@ + map_def_bytes(def),
{
    push_u32(out, def.map_type);
    push_u32(out, def.key_size);
    push_u32(out, def.value_size);
    push_u32(out, def.max_entries);
    push_u32(out, def.map_flags);
    assert(final(out)@ =~= old(out)@ + map_def_bytes(def));
}

/// Encodes the maps' definitions in declaration order. Fails on the first
/// map whose symbol name repeats an earlier one's, or that is not a ring
/// buffer and lacks a key or value type.
pub fn build_maps(maps: &Vec<MapDecl>) -> (r: Result<MapsSection, String>)
    ensures
        match maps_error(maps@) {
            Some(e) => r matches Err(m) && m@ == e,
            None => r matches Ok(s) && {
                &&& s.bytes@ == maps_bytes(maps@)
                &&& s.records@.len() == maps@.len()
                &&& forall|i: int| 0 <= i < maps@.len() ==> {
                    &&& (#[trigger] s.records@[i]).name@ == map_symbol(maps@[i].name@)
                    &&& s.records@[i].offset == 20 * i
                    &&& s.records@[i].size == MAP_DEF_SIZE
                }
            },
        },
{
    let mut section = MapsSection { bytes: Vec::new(), records: Vec::new() };
    let mut i: usize = 0;
    while i < maps.len()
        invariant
            i <= maps@.len(),
            maps_error(maps@.subrange(0, i as int)) is None,
            section.bytes@ == maps_bytes(maps@.subrange(0, i as int)),
            section.records@.len() == i,
            forall|j: int| 0 <= j < i ==> {
                &&& (#[trigger] section.records@[j]).name@ == map_symbol(maps@[j].name@)
                &&& section.records@[j].offset == 20 * j
                &&& section.records@[j].size == MAP_DEF_SIZE
            },
        decreases maps@.len() - i,
    {
        let m = &maps[i];
        let ghost pre = maps@.subrange(0, i + 1);
        assert(pre.drop_last() =~= maps@.subrange(0, i as int));
        assert(pre.last() == maps@[i as int]);
        proof { reveal_strlit("_map"); }
        let name = sanitize_ident_or(m.name.as_str(), "_map");
        assert(name@ == map_symbol(m.name@));
        match section.index_of(name.as_str()) {
            Some(k) => {
                assert(pre[k as int] == maps@[k as int]);
                proof { lemma_maps_error_prefix(maps@, i + 1); }
                return Err(concat3("duplicate map name '", name.as_str(), "'"));
            },
            None => {
                assert(!exists|j: int| 0 <= j < pre.len() - 1 && map_symbol((#[trigger] pre[j]).name@) == map_symbol(m.name@)) by {
                    if exists|j: int| 0 <= j < pre.len() - 1 && map_symbol((#[trigger] pre[j]).name@) == map_symbol(m.name@) {
                        let j = choose|j: int| 0 <= j < pre.len() - 1 && map_symbol((#[trigger] pre[j]).name@) == map_symbol(m.name@);
                        assert(pre[j] == maps@[j]);
                        assert(section.records@[j].name@ == name@);
                    }
                }
            },
        }
        let def = match m.map_type {
            MapType::Ringbuf => BpfMapDef {
                map_type: map_type_to_u32(m.map_type),
                key_size: 0,
                value_size: 0,
                max_entries: match m.max_entries { Some(n) => n, None => 0 },
                map_flags: 0,
            },
            _ => {
                let key = match m.key_type {
                    Some(t) => t,
                    None => {
                        proof { lemma_maps_error_prefix(maps@, i + 1); }
                        return Err(concat3("map '", m.name.as_str(), "' missing key type"));
                    },
                };
                let value = match m.value_type {
                    Some(t) => t,
                    None => {
                        proof { lemma_maps_error_prefix(maps@, i + 1); }
                        return Err(concat3("map '", m.name.as_str(), "' missing value type"));
                    },
                };
                BpfMapDef {
                    map_type: map_type_to_u32(m.map_type),
                    key_size: type_size(key),
                    value_size: type_size(value),
                    max_entries: match m.max_entries { Some(n) => n, None => 0 },
                    map_flags: 0,
                }
            },
        };
        assert(def == map_def_of(*m));
        proof { lemma_maps_bytes_len(maps@.subrange(0, i as int)); }
        let offset = section.bytes.len() as u64;
        push_map_def(&mut section.bytes, def);
        section.records.push(MapRecord { name, offset, size: MAP_DEF_SIZE });
        i = i + 1;
    }
    assert(maps@.subrange(0, maps@.len() as int) =~= maps@);
    Ok(section)
}

} // verus!
