//! Scaling the values of a batch.

use vstd::prelude::*;
use vstd::string::*;
use crate::record::{DataRecord, DataRecordView};
use crate::sample::floor_quotient;

verus! {

/// The nearest value that an `i64` can hold.
pub open spec fn clamped(x: int) -> i64 {
    if x < i64::MIN {
        i64::MIN
    } else if x > i64::MAX {
        i64::MAX
    } else {
        x as i64
    }
}

/// The product of a value and a multiplier, both counted in thousandths:
/// rounded down to a whole thousandth, and held to the range of `i64`.
pub open spec fn scaled(value: i64, multiplier: i64) -> i64 {
    clamped((value * multiplier) / 1000)
}

/// The record with its value scaled and all else unchanged.
pub open spec fn scaled_record(r: DataRecordView, multiplier: i64) -> DataRecordView {
    DataRecordView { value: scaled(r.value, multiplier), ..r }
}

/// Multiplies a value by a multiplier, both counted in thousandths.
pub fn scale(value: i64, multiplier: i64) -> (out: i64)
    ensures
        out == scaled(value, multiplier),
{
    assert(-0x4000_0000_0000_0000_0000_0000_0000_0000 <= (value as int) * (multiplier as int)
        <= 0x4000_0000_0000_0000_0000_0000_0000_0000) by (nonlinear_arith)
        requires
            -0x8000_0000_0000_0000 <= value <= 0x7fff_ffff_ffff_ffff,
            -0x8000_0000_0000_0000 <= multiplier <= 0x7fff_ffff_ffff_ffff,
    ;
    let product: i128 = (value as i128) * (multiplier as i128);
    let q = floor_quotient(product, 1000);
    if q < -0x8000_0000_0000_0000 {
        i64::MIN
    } else if q > 0x7fff_ffff_ffff_ffff {
        i64::MAX
    } else {
        q as i64
    }
}

/// Multiplies the value of every record by `multiplier`, counted in
/// thousandths. Nothing else of a record changes.
pub fn transform_values(records: &mut Vec<DataRecord>, multiplier: i64)
    ensures
        final(records)@.len() == old(records)@.len(),
        forall|i: int|
            0 <= i < old(records)@.len() ==> (#[trigger] final(records)@[i])@ == scaled_record(
                old(records)@[i]@,
                multiplier,
            ),
{
    let ghost start = records@;
    let mut i: usize = 0;
    while i < records.len()
        invariant
            i <= records.len(),
            records@.len() == start.len(),
            forall|k: int|
                0 <= k < i ==> (#[trigger] records@[k])@ == scaled_record(start[k]@, multiplier),
            forall|k: int| i <= k < start.len() ==> records@[k] == start[k],
        decreases records.len() - i,
    {
        let mut record = records[i].clone();
        record.value = scale(record.value, multiplier);
        records.set(i, record);
        i = i + 1;
    }
}

} // verus!
