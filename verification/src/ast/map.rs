//! Map declarations.
use vstd::prelude::*;
use crate::parser::token::SourceLoc;

verus! {

/// `map name { type: .kind; key: T; value: T; max: N; }`
#[derive(Debug)]
pub struct MapDecl {
    pub name: String,
    pub map_type: MapType,
    pub key_type: Option<Type>,
    pub value_type: Option<Type>,
    pub max_entries: Option<u32>,
    pub loc: SourceLoc,
}

/// The kind of a BPF map.
#[derive(Debug, Clone, Copy, PartialEq, Eq, Hash, Structural)]
pub enum MapType {
    Hash,
    Array,
    Ringbuf,
    LruHash,
    ProgArray,
}

/// Scalar key/value types of maps.
#[derive(Debug, Clone, Copy, PartialEq, Eq, Hash, Structural)]
pub enum Type {
    U32,
    U64,
    I32,
    I64,
}

impl MapDecl {
    /// A field-by-field copy.
    pub fn duplicate(&self) -> (r: MapDecl)
        ensures
            r == *self,
    {
        MapDecl {
            name: self.name.clone(),
            map_type: self.map_type,
            key_type: self.key_type,
            value_type: self.value_type,
            max_entries: self.max_entries,
            loc: self.loc,
        }
    }
}

} // verus!
