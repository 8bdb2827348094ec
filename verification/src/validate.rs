//! The rules that a tagged measurement has to meet.

use vstd::prelude::*;
use vstd::string::*;
use crate::decimal::{push_quantity, quantity_text};
use crate::record::{DataRecord, DataRecordView, ValidationError};

verus! {

/// The complaint about a record, if there is one. The rules are tried in
/// this order and the first that fails decides: the id is not empty, the
/// value is not negative, the category is not empty, the timestamp is not
/// empty.
pub open spec fn flaw_of(r: DataRecordView) -> Option<Seq<char>> {
    if r.id.len() == 0 {
        Some("ID cannot be empty"@)
    } else if r.value < 0 {
        Some("Value must be positive, got "@ + quantity_text(r.value as int))
    } else if r.category.len() == 0 {
        Some("Category cannot be empty"@)
    } else if r.timestamp.len() == 0 {
        Some("Timestamp cannot be empty"@)
    } else {
        None
    }
}

/// The record meets every rule.
pub open spec fn is_valid(r: DataRecordView) -> bool {
    flaw_of(r) is None
}

/// Checks one record. The error names the record by its id and carries the
/// complaint of the first rule that fails.
pub fn validate_record(record: &DataRecord) -> (outcome: Result<(), ValidationError>)
    ensures
        outcome is Ok <==> is_valid(record@),
        outcome is Err ==> outcome->Err_0.record_id@ == record@.id && flaw_of(record@) == Some(
            outcome->Err_0.message@,
        ),
{
    if record.id.as_str().is_empty() {
        return Err(
            ValidationError::new(record.id.clone(), String::from_str("ID cannot be empty")),
        );
    }
    if record.value < 0 {
        let mut message = String::from_str("Value must be positive, got ");
        push_quantity(&mut message, record.value);
        return Err(ValidationError::new(record.id.clone(), message));
    }
    if record.category.as_str().is_empty() {
        return Err(
            ValidationError::new(record.id.clone(), String::from_str("Category cannot be empty")),
        );
    }
    if record.timestamp.as_str().is_empty() {
        return Err(
            ValidationError::new(
                record.id.clone(),
                String::from_str("Timestamp cannot be empty"),
            ),
        );
    }
    Ok(())
}

/// Checking a record depends on nothing but what the record holds: records
/// that hold the same get the same verdict and the same complaint.
pub proof fn lemma_validation_is_a_function(a: DataRecord, b: DataRecord)
    requires
        a@ == b@,
    ensures
        is_valid(a@) == is_valid(b@),
        flaw_of(a@) == flaw_of(b@),
{
}

} // verus!
