//! Statistics of a whole batch of measurements.

use vstd::prelude::*;
use vstd::string::*;
use crate::category::{count_by_category, counts_batch};
use crate::record::{batch_view, values_of, DataRecord, DataRecordView, ProcessResult, ValidationError};
use crate::sample::{
    greatest_of, is_greatest, is_least, least_of, mean, mean_from_total, sum_of, total,
};
use crate::validate::{flaw_of, is_valid, validate_record};

verus! {

/// Why a batch could not be processed.
#[derive(Debug)]
pub enum ProcessError {
    /// The batch holds no record.
    EmptyBatch,
    /// Some records fail the rules; the complaints stand in the order of the
    /// records.
    Invalid(Vec<ValidationError>),
}

/// The complaints about the records of a batch, each with the id of its
/// record, in the order of the records.
pub open spec fn flaws_in(batch: Seq<DataRecordView>) -> Seq<(Seq<char>, Seq<char>)>
    decreases batch.len(),
{
    if batch.len() == 0 {
        Seq::empty()
    } else {
        match flaw_of(batch.last()) {
            Some(message) => flaws_in(batch.drop_last()).push((batch.last().id, message)),
            None => flaws_in(batch.drop_last()),
        }
    }
}

/// What a list of complaints holds: for each, the id of the record and the
/// message.
pub open spec fn errors_view(errors: Seq<ValidationError>) -> Seq<(Seq<char>, Seq<char>)> {
    errors.map_values(|e: ValidationError| (e.record_id@, e.message@))
}

/// What `result` has to hold to be the statistics of the batch.
pub open spec fn summarizes(result: ProcessResult, batch: Seq<DataRecordView>) -> bool {
    let values = values_of(batch);
    &&& result.total_processed == batch.len()
    &&& result.total_value == total(values)
    &&& result.average_value == mean(values)
    &&& is_least(result.min_value, values)
    &&& is_greatest(result.max_value, values)
    &&& counts_batch(result.categories@, batch)
}

/// The text that reports one complaint.
pub open spec fn flaw_report(flaw: (Seq<char>, Seq<char>)) -> Seq<char> {
    "Record "@ + flaw.0 + ": "@ + flaw.1
}

/// The reports of the complaints, one after the other, with `"; "` between
/// them.
pub open spec fn joined_reports(flaws: Seq<(Seq<char>, Seq<char>)>) -> Seq<char>
    decreases flaws.len(),
{
    if flaws.len() == 0 {
        Seq::empty()
    } else if flaws.len() == 1 {
        flaw_report(flaws[0])
    } else {
        joined_reports(flaws.drop_last()) + "; "@ + flaw_report(flaws.last())
    }
}

/// The text that reports a failure.
pub open spec fn failure_text(error: ProcessError) -> Seq<char> {
    match error {
        ProcessError::EmptyBatch => "Cannot process empty record set"@,
        ProcessError::Invalid(errors) => "Validation errors: "@ + joined_reports(
            errors_view(errors@),
        ),
    }
}

impl ProcessError {
    /// The failure as one text.
    pub fn message(&self) -> (text: String)
        ensures
            text@ == failure_text(*self),
    {
        match self {
            ProcessError::EmptyBatch => String::from_str("Cannot process empty record set"),
            ProcessError::Invalid(errors) => {
                let ghost flaws = errors_view(errors@);
                let ghost head = "Validation errors: "@;
                let mut text = String::from_str("Validation errors: ");
                let mut i: usize = 0;
                assert(flaws.take(0) =~= Seq::empty());
                assert(text@ =~= head + joined_reports(flaws.take(0)));
                while i < errors.len()
                    invariant
                        i <= errors.len(),
                        flaws == errors_view(errors@),
                        head == "Validation errors: "@,
                        text@ == head + joined_reports(flaws.take(i as int)),
                    decreases errors.len() - i,
                {
                    let ghost before = text@;
                    if i > 0 {
                        text.append("; ");
                    }
                    text.append("Record ");
                    text.append(errors[i].record_id.as_str());
                    text.append(": ");
                    text.append(errors[i].message.as_str());
                    proof {
                        let next = flaws.take(i + 1);
                        assert(next.drop_last() =~= flaws.take(i as int));
                        assert(next.last() == flaws[i as int]);
                        assert(flaws[i as int] == (
                            errors@[i as int].record_id@,
                            errors@[i as int].message@,
                        ));
                        if i == 0 {
                            assert(next[0] == flaws[0]);
                            assert(text@ =~= head + joined_reports(next));
                        } else {
                            assert(text@ =~= head + joined_reports(next));
                        }
                    }
                    i = i + 1;
                }
                assert(flaws.take(errors.len() as int) =~= flaws);
                text
            },
        }
    }
}

/// A batch draws no complaint exactly when each of its records meets the
/// rules.
pub proof fn lemma_no_flaws(batch: Seq<DataRecordView>)
    ensures
        flaws_in(batch).len() == 0 <==> forall|i: int|
            0 <= i < batch.len() ==> is_valid(#[trigger] batch[i]),
    decreases batch.len(),
{
    if batch.len() > 0 {
        let rest = batch.drop_last();
        lemma_no_flaws(rest);
        if flaws_in(batch).len() == 0 {
            assert forall|i: int| 0 <= i < batch.len() implies is_valid(#[trigger] batch[i]) by {
                if i < rest.len() {
                    assert(rest[i] == batch[i]);
                }
            }
        } else {
            if flaw_of(batch.last()) is None {
                let i = choose|i: int| 0 <= i < rest.len() && !is_valid(#[trigger] rest[i]);
                assert(rest[i] == batch[i]);
            } else {
                assert(batch[batch.len() - 1] == batch.last());
            }
        }
    }
}

/// Checks every record of a batch and gives the complaints in the order of
/// the records.
pub fn collect_flaws(records: &Vec<DataRecord>) -> (errors: Vec<ValidationError>)
    ensures
        errors_view(errors@) == flaws_in(batch_view(records@)),
{
    let ghost batch = batch_view(records@);
    let mut errors: Vec<ValidationError> = Vec::new();
    let mut i: usize = 0;
    assert(batch.take(0) =~= Seq::<DataRecordView>::empty());
    assert(errors_view(errors@) =~= flaws_in(batch.take(0)));
    while i < records.len()
        invariant
            i <= records.len(),
            batch == batch_view(records@),
            errors_view(errors@) == flaws_in(batch.take(i as int)),
        decreases records.len() - i,
    {
        let ghost before = errors_view(errors@);
        proof {
            assert(batch.take(i + 1).drop_last() =~= batch.take(i as int));
            assert(batch.take(i + 1).last() == records@[i as int]@);
        }
        match validate_record(&records[i]) {
            Ok(()) => {},
            Err(e) => {
                let ghost flaw = (e.record_id@, e.message@);
                errors.push(e);
                assert(errors_view(errors@) =~= before.push(flaw));
            },
        }
        i = i + 1;
    }
    assert(batch.take(records.len() as int) =~= batch);
    errors
}

/// Collects the values of a batch.
pub fn collect_values(records: &Vec<DataRecord>) -> (out: Vec<i64>)
    ensures
        out@ == values_of(batch_view(records@)),
{
    let mut out: Vec<i64> = Vec::new();
    let mut i: usize = 0;
    while i < records.len()
        invariant
            i <= records.len(),
            out@.len() == i,
            forall|k: int| 0 <= k < i ==> out@[k] == (#[trigger] records@[k]).value,
        decreases records.len() - i,
    {
        out.push(records[i].value);
        i = i + 1;
    }
    assert(out@ =~= values_of(batch_view(records@)));
    out
}

/// The statistics of a batch. Fails with `EmptyBatch` on a batch without
/// records, and with the complaints about them where records fail the
/// rules; else every record goes into the statistics.
pub fn process_records(records: &Vec<DataRecord>) -> (outcome: Result<ProcessResult, ProcessError>)
    ensures
        match outcome {
            Ok(result) => records@.len() > 0 && flaws_in(batch_view(records@)).len() == 0
                && summarizes(result, batch_view(records@)),
            Err(ProcessError::EmptyBatch) => records@.len() == 0,
            Err(ProcessError::Invalid(errors)) => records@.len() > 0 && errors@.len() > 0
                && errors_view(errors@) == flaws_in(batch_view(records@)),
        },
{
    if records.len() == 0 {
        return Err(ProcessError::EmptyBatch);
    }
    let errors = collect_flaws(records);
    if errors.len() > 0 {
        return Err(ProcessError::Invalid(errors));
    }
    let values = collect_values(records);
    let total_value = sum_of(&values);
    let average_value = mean_from_total(&values, total_value);
    let min_value = least_of(&values);
    let max_value = greatest_of(&values);
    let categories = count_by_category(records);
    Ok(
        ProcessResult {
            total_processed: records.len(),
            total_value,
            average_value,
            min_value,
            max_value,
            categories,
        },
    )
}

} // verus!
