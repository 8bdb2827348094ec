//! Sample batches for trying the engine out.

use vstd::prelude::*;
use vstd::string::*;
use crate::decimal::{natural_text, push_natural, push_two_digits, two_digit_text};
use crate::record::{pairs_view, DataRecord, DataRecordView};

verus! {

/// The category of the sample record with the number `i`: `A`, `B`, `C` and
/// `D` in turn.
pub open spec fn sample_category(i: nat) -> Seq<char> {
    if i % 4 == 0 {
        "A"@
    } else if i % 4 == 1 {
        "B"@
    } else if i % 4 == 2 {
        "C"@
    } else {
        "D"@
    }
}

/// The timestamp of the sample record with the number `i`: one second after
/// that of the record before, within one hour.
pub open spec fn sample_timestamp(i: nat) -> Seq<char> {
    "2024-01-15T10:"@ + two_digit_text((i / 60) % 60) + ":"@ + two_digit_text(i % 60) + "Z"@
}

/// The sample record with the number `i`. Its value is ten and a half times
/// the last three digits of `i`.
pub open spec fn sample_record(i: nat) -> DataRecordView {
    DataRecordView {
        id: "record_"@ + natural_text(i),
        value: ((i % 1000) * 10500) as i64,
        category: sample_category(i),
        timestamp: sample_timestamp(i),
        metadata: Some(seq![("index"@, natural_text(i))]),
    }
}

/// Makes the sample record with the number `i`.
pub fn make_sample_record(i: usize) -> (record: DataRecord)
    ensures
        record@ == sample_record(i as nat),
{
    let n: u64 = i as u64;
    let mut id = String::from_str("record_");
    push_natural(&mut id, n);
    let category = if i % 4 == 0 {
        String::from_str("A")
    } else if i % 4 == 1 {
        String::from_str("B")
    } else if i % 4 == 2 {
        String::from_str("C")
    } else {
        String::from_str("D")
    };
    let mut timestamp = String::from_str("2024-01-15T10:");
    push_two_digits(&mut timestamp, (n / 60) % 60);
    timestamp.append(":");
    push_two_digits(&mut timestamp, n % 60);
    timestamp.append("Z");
    let mut index = String::new();
    push_natural(&mut index, n);
    let mut metadata: Vec<(String, String)> = Vec::new();
    metadata.push((String::from_str("index"), index));
    let value: i64 = ((n % 1000) * 10500) as i64;
    let record = DataRecord { id, value, category, timestamp, metadata: Some(metadata) };
    proof {
        assert(index@ =~= natural_text(i as nat));
        assert(pairs_view(metadata@) =~= seq![("index"@, natural_text(i as nat))]);
    }
    record
}

/// Makes a batch of `count` sample records, numbered from zero.
pub fn generate_sample_data(count: usize) -> (records: Vec<DataRecord>)
    ensures
        records@.len() == count,
        forall|i: int| 0 <= i < count ==> (#[trigger] records@[i])@ == sample_record(i as nat),
{
    let mut records: Vec<DataRecord> = Vec::new();
    let mut i: usize = 0;
    while i < count
        invariant
            i <= count,
            records@.len() == i,
            forall|k: int| 0 <= k < i ==> (#[trigger] records@[k])@ == sample_record(k as nat),
        decreases count - i,
    {
        records.push(make_sample_record(i));
        i = i + 1;
    }
    records
}

} // verus!
