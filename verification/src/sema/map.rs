//! Validation of map declarations.
use vstd::prelude::*;
use crate::ast::map::{MapDecl, MapType};
use crate::parser::token::SourceLoc;
use crate::sema::event::{contains_name, has_name};

verus! {

/// Why a map declaration was rejected.
#[derive(Debug)]
pub enum MapValidationError {
    DuplicateMapName(String, SourceLoc),
    InvalidMaxEntries(SourceLoc),
    InvalidType(SourceLoc),
    MissingKey(SourceLoc),
    MissingValue(SourceLoc),
    UnexpectedKeyValue(SourceLoc),
    UnknownMapMethod(String, SourceLoc),
    InvalidMapMethodArity(String, usize, usize, SourceLoc),
    UnknownMapName(String, SourceLoc),
}

/// The entry limit, zero when absent.
pub open spec fn max_or_zero(m: MapDecl) -> u32 {
    match m.max_entries {
        Some(v) => v,
        None => 0,
    }
}

/// What is wrong with a map's fields for its kind, if anything:
/// ring buffers need a positive limit and no key or value; hash maps need a
/// key, a value and a positive limit; arrays need a value and a positive limit.
pub open spec fn map_shape_error(m: MapDecl) -> Option<MapValidationError> {
    match m.map_type {
        MapType::Ringbuf => if max_or_zero(m) == 0 {
            Some(MapValidationError::InvalidMaxEntries(m.loc))
        } else if m.key_type is Some || m.value_type is Some {
            Some(MapValidationError::UnexpectedKeyValue(m.loc))
        } else {
            None
        },
        MapType::Hash | MapType::LruHash => if m.key_type is None {
            Some(MapValidationError::MissingKey(m.loc))
        } else if m.value_type is None {
            Some(MapValidationError::MissingValue(m.loc))
        } else if max_or_zero(m) == 0 {
            Some(MapValidationError::InvalidMaxEntries(m.loc))
        } else {
            None
        },
        MapType::Array | MapType::ProgArray => if m.value_type is None {
            Some(MapValidationError::MissingValue(m.loc))
        } else if max_or_zero(m) == 0 {
            Some(MapValidationError::InvalidMaxEntries(m.loc))
        } else {
            None
        },
    }
}

/// The fields a declaration of this map type needs: a positive entry limit
/// for every type; no key or value for a ring buffer; a key and a value for
/// a hash map; a value for an array.
pub open spec fn map_fields_complete(m: MapDecl) -> bool {
    &&& m.max_entries matches Some(n) && n > 0
    &&& m.map_type == MapType::Ringbuf ==> m.key_type is None && m.value_type is None
    &&& (m.map_type == MapType::Hash || m.map_type == MapType::LruHash) ==> m.key_type is Some && m.value_type is Some
    &&& (m.map_type == MapType::Array || m.map_type == MapType::ProgArray) ==> m.value_type is Some
}

/// A map declaration passes the shape check exactly when it has the fields
/// its type needs; in particular every accepted map, of every type, has a
/// positive entry limit.
pub proof fn lemma_map_shape_accepts_complete(m: MapDecl)
    ensures
        map_shape_error(m) is None <==> map_fields_complete(m),
{
}

/// Validates a map declaration and records its name in `map_names`
/// (unless the name is already there, which is an error).
pub fn check_map(map_decl: &MapDecl, map_names: &mut Vec<String>) -> (r: Result<(), MapValidationError>)
    ensures
        has_name(old(map_names)@, map_decl.name@) ==> final(map_names)@ == old(map_names)@
            && r == Err::<(), _>(MapValidationError::DuplicateMapName(map_decl.name, map_decl.loc)),
        !has_name(old(map_names)@, map_decl.name@) ==> final(map_names)@ == old(map_names)@.push(map_decl.name)
            && r == (match map_shape_error(*map_decl) {
                Some(e) => Err(e),
                None => Ok(()),
            }),
        r is Ok <==> !has_name(old(map_names)@, map_decl.name@) && map_fields_complete(*map_decl),
        final(map_names)@.len() == old(map_names)@.len() + (if has_name(old(map_names)@, map_decl.name@) { 0int } else { 1int }),
        has_name(final(map_names)@, map_decl.name@),
{
    if contains_name(map_names, map_decl.name.as_str()) {
        return Err(MapValidationError::DuplicateMapName(map_decl.name.clone(), map_decl.loc));
    }
    map_names.push(map_decl.name.clone());
    assert(map_names@[map_names@.len() - 1]@ == map_decl.name@);
    let max = match map_decl.max_entries {
        Some(v) => v,
        None => 0,
    };
    match map_decl.map_type {
        MapType::Ringbuf => {
            if max == 0 {
                return Err(MapValidationError::InvalidMaxEntries(map_decl.loc));
            }
            if map_decl.key_type.is_some() || map_decl.value_type.is_some() {
                return Err(MapValidationError::UnexpectedKeyValue(map_decl.loc));
            }
        },
        MapType::Hash | MapType::LruHash => {
            if map_decl.key_type.is_none() {
                return Err(MapValidationError::MissingKey(map_decl.loc));
            }
            if map_decl.value_type.is_none() {
                return Err(MapValidationError::MissingValue(map_decl.loc));
            }
            if max == 0 {
                return Err(MapValidationError::InvalidMaxEntries(map_decl.loc));
            }
        },
        MapType::Array | MapType::ProgArray => {
            if map_decl.value_type.is_none() {
                return Err(MapValidationError::MissingValue(map_decl.loc));
            }
            if max == 0 {
                return Err(MapValidationError::InvalidMaxEntries(map_decl.loc));
            }
        },
    }
    Ok(())
}

} // verus!
