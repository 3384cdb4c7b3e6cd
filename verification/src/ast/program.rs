//! A whole source file: its maps, units and events in source order.
use vstd::prelude::*;
use crate::ast::event::EventDecl;
use crate::ast::map::MapDecl;
use crate::ast::unit::Unit;

verus! {

/// The top-level declarations of a source file, each list in source order.
#[derive(Debug)]
pub struct Program {
    pub maps: Vec<MapDecl>,
    pub units: Vec<Unit>,
    pub events: Vec<EventDecl>,
}

} // verus!
