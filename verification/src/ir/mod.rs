//! The block-structured intermediate representation and its lowering.
pub mod ctx;
pub mod instruction;
pub mod model;
pub mod program;
pub mod semantics;
pub mod unit;

use vstd::prelude::*;

verus! {

/// Why lowering to IR failed.
#[derive(Debug)]
pub enum LoweringError {
    UnitLowering(String),
}

} // verus!
