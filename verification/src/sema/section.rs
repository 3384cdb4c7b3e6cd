//! Section-name validation.
use vstd::prelude::*;
use crate::ast::unit::{section_kind, ProgramKind};

verus! {

/// Decides which section names a unit may use.
pub struct SectionValidator;

impl SectionValidator {
    /// A section name is valid when it selects a known program kind.
    pub fn is_valid(section: &str) -> (r: bool)
        ensures
            r == (section_kind(section@) != ProgramKind::Unknown),
    {
        ProgramKind::from_section(section) != ProgramKind::Unknown
    }
}

} // verus!
