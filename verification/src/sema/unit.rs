//! Validation of units.
use vstd::prelude::*;
use crate::ast::unit::{section_kind, ProgramKind, Unit};
use crate::parser::token::SourceLoc;
use crate::sema::section::SectionValidator;

verus! {

/// Why a unit was rejected.
#[derive(Debug)]
pub enum UnitValidationError {
    EmptyUnitName(SourceLoc),
    NoSections(SourceLoc),
    InvalidSection(SourceLoc),
    MissingLicense(SourceLoc),
    NoReturnOrInstructions(SourceLoc),
}

/// All section names of a unit select a known program kind.
pub open spec fn sections_valid(sections: Seq<String>) -> bool {
    forall|i: int| 0 <= i < sections.len() ==> section_kind((#[trigger] sections[i])@) != ProgramKind::Unknown
}

/// What is wrong with a unit, checked in this order: empty name, no
/// section, an unknown section, no license, an empty body.
pub open spec fn unit_error(u: Unit) -> Option<UnitValidationError> {
    if u.name@.len() == 0 {
        Some(UnitValidationError::EmptyUnitName(u.loc))
    } else if u.sections@.len() == 0 {
        Some(UnitValidationError::NoSections(u.loc))
    } else if !sections_valid(u.sections@) {
        Some(UnitValidationError::InvalidSection(u.loc))
    } else if u.license is None {
        Some(UnitValidationError::MissingLicense(u.loc))
    } else if u.body@.len() == 0 {
        Some(UnitValidationError::NoReturnOrInstructions(u.loc))
    } else {
        None
    }
}

/// A unit passes validation exactly when it has a name, at least one
/// section, only known sections, a license and a nonempty body.
pub proof fn lemma_accepted_unit_complete(u: Unit)
    ensures
        unit_error(u) is None <==> u.name@.len() > 0 && u.sections@.len() > 0 && sections_valid(u.sections@)
            && u.license is Some && u.body@.len() > 0,
{
}

/// Validates a unit.
pub fn check_unit(unit: &Unit) -> (r: Result<(), UnitValidationError>)
    ensures
        r == (match unit_error(*unit) {
            Some(e) => Err(e),
            None => Ok(()),
        }),
        r is Ok <==> unit.name@.len() > 0 && unit.sections@.len() > 0 && sections_valid(unit.sections@)
            && unit.license is Some && unit.body@.len() > 0,
{
    if unit.name.as_str().unicode_len() == 0 {
        return Err(UnitValidationError::EmptyUnitName(unit.loc));
    }
    if unit.sections.len() == 0 {
        return Err(UnitValidationError::NoSections(unit.loc));
    }
    let mut i: usize = 0;
    while i < unit.sections.len()
        invariant
            unit.name@.len() > 0,
            unit.sections@.len() > 0,
            i <= unit.sections@.len(),
            forall|j: int| 0 <= j < i ==> section_kind((#[trigger] unit.sections@[j])@) != ProgramKind::Unknown,
        decreases unit.sections@.len() - i,
    {
        if !SectionValidator::is_valid(unit.sections[i].as_str()) {
            assert(section_kind(unit.sections@[i as int]@) == ProgramKind::Unknown);
            assert(!sections_valid(unit.sections@));
            return Err(UnitValidationError::InvalidSection(unit.loc));
        }
        i = i + 1;
    }
    if unit.license.is_none() {
        return Err(UnitValidationError::MissingLicense(unit.loc));
    }
    if unit.body.len() == 0 {
        return Err(UnitValidationError::NoReturnOrInstructions(unit.loc));
    }
    Ok(())
}

} // verus!
