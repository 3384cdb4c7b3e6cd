//! Event (ring-buffer record) declarations.
use vstd::prelude::*;
use crate::parser::token::SourceLoc;

verus! {

/// `event name { field: type; ... }`
#[derive(Debug)]
pub struct EventDecl {
    pub name: String,
    pub fields: Vec<EventField>,
    pub loc: SourceLoc,
}

/// One field of an event declaration.
#[derive(Debug)]
pub struct EventField {
    pub name: String,
    pub ty: EventType,
    pub loc: SourceLoc,
}

/// The type of an event field.
#[derive(Debug, Clone, Copy, PartialEq, Eq, Structural)]
pub enum EventType {
    /// 32-bit unsigned integer
    U32,
    /// 64-bit unsigned integer
    U64,
    /// 32-bit signed integer
    I32,
    /// 64-bit signed integer
    I64,
    /// Fixed-size byte array (e.g. bytes[256])
    Bytes(u32),
    /// Fixed-size integer array (e.g. u32[16])
    Array { elem: PrimitiveType, len: u32 },
}

/// Scalar element types usable inside event arrays.
#[derive(Debug, Clone, Copy, PartialEq, Eq, Structural)]
pub enum PrimitiveType {
    U32,
    U64,
    I32,
    I64,
}

impl EventField {
    /// A field-by-field copy.
    pub fn duplicate(&self) -> (r: EventField)
        ensures
            r == *self,
    {
        EventField { name: self.name.clone(), ty: self.ty, loc: self.loc }
    }
}

impl EventDecl {
    /// A field-by-field copy.
    pub fn duplicate(&self) -> (r: EventDecl)
        ensures
            r.name == self.name,
            r.fields@ == self.fields@,
            r.loc == self.loc,
    {
        let mut fields: Vec<EventField> = Vec::new();
        let mut i: usize = 0;
        while i < self.fields.len()
            invariant
                i <= self.fields@.len(),
                fields@ == self.fields@.subrange(0, i as int),
            decreases self.fields@.len() - i,
        {
            fields.push(self.fields[i].duplicate());
            i = i + 1;
        }
        assert(fields@ == self.fields@);
        EventDecl { name: self.name.clone(), fields, loc: self.loc }
    }
}

} // verus!
