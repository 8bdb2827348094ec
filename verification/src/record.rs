//! Tagged measurements and the results computed from a batch of them.

use vstd::prelude::*;
use vstd::string::*;

verus! {

/// One tagged measurement. `value` counts thousandths.
#[derive(Debug)]
pub struct DataRecord {
    pub id: String,
    pub value: i64,
    pub category: String,
    pub timestamp: String,
    pub metadata: Option<Vec<(String, String)>>,
}

/// What a `DataRecord` holds.
pub struct DataRecordView {
    pub id: Seq<char>,
    pub value: i64,
    pub category: Seq<char>,
    pub timestamp: Seq<char>,
    pub metadata: Option<Seq<(Seq<char>, Seq<char>)>>,
}

/// What a list of key and value texts holds.
pub open spec fn pairs_view(pairs: Seq<(String, String)>) -> Seq<(Seq<char>, Seq<char>)> {
    pairs.map_values(|p: (String, String)| (p.0@, p.1@))
}

impl View for DataRecord {
    type V = DataRecordView;

    open spec fn view(&self) -> DataRecordView {
        DataRecordView {
            id: self.id@,
            value: self.value,
            category: self.category@,
            timestamp: self.timestamp@,
            metadata: match self.metadata {
                Some(pairs) => Some(pairs_view(pairs@)),
                None => None,
            },
        }
    }
}

/// What a batch of records holds, record by record.
pub open spec fn batch_view(records: Seq<DataRecord>) -> Seq<DataRecordView> {
    records.map_values(|r: DataRecord| r@)
}

/// The values of a batch, record by record.
pub open spec fn values_of(batch: Seq<DataRecordView>) -> Seq<i64> {
    batch.map_values(|r: DataRecordView| r.value)
}

/// A copy of a list of key and value texts.
pub fn copy_pairs(pairs: &Vec<(String, String)>) -> (out: Vec<(String, String)>)
    ensures
        pairs_view(out@) == pairs_view(pairs@),
{
    let mut out: Vec<(String, String)> = Vec::new();
    let mut i: usize = 0;
    while i < pairs.len()
        invariant
            i <= pairs.len(),
            out.len() == i,
            forall|k: int| 0 <= k < i ==> out@[k].0@ == pairs@[k].0@ && out@[k].1@ == pairs@[k].1@,
        decreases pairs.len() - i,
    {
        let key = pairs[i].0.clone();
        let value = pairs[i].1.clone();
        out.push((key, value));
        i = i + 1;
    }
    assert(pairs_view(out@) =~= pairs_view(pairs@));
    out
}

/// A copy of a text that may be absent.
pub fn copy_optional_text(text: &Option<String>) -> (out: Option<String>)
    ensures
        out is Some == text is Some,
        out is Some ==> out->0@ == text->0@,
{
    match text {
        Some(t) => Some(t.clone()),
        None => None,
    }
}

impl Clone for DataRecord {
    fn clone(&self) -> (out: DataRecord)
        ensures
            out@ == self@,
    {
        DataRecord {
            id: self.id.clone(),
            value: self.value,
            category: self.category.clone(),
            timestamp: self.timestamp.clone(),
            metadata: match &self.metadata {
                Some(pairs) => Some(copy_pairs(pairs)),
                None => None,
            },
        }
    }
}

/// How many records of one category a batch holds.
#[derive(Debug)]
pub struct CategoryCount {
    pub category: String,
    pub count: usize,
}

/// Statistics of a whole batch. The total, the mean and the extremes count
/// thousandths; `categories` lists every category of the batch once, in
/// dictionary order.
#[derive(Debug)]
pub struct ProcessResult {
    pub total_processed: usize,
    pub total_value: i128,
    pub average_value: i64,
    pub min_value: i64,
    pub max_value: i64,
    pub categories: Vec<CategoryCount>,
}

impl ProcessResult {
    /// Number of records that went into the statistics.
    pub fn total_processed(&self) -> (n: usize)
        ensures
            n == self.total_processed,
    {
        self.total_processed
    }

    /// Sum of the values.
    pub fn total_value(&self) -> (t: i128)
        ensures
            t == self.total_value,
    {
        self.total_value
    }

    /// Mean of the values, rounded down.
    pub fn average_value(&self) -> (m: i64)
        ensures
            m == self.average_value,
    {
        self.average_value
    }

    /// Least of the values.
    pub fn min_value(&self) -> (m: i64)
        ensures
            m == self.min_value,
    {
        self.min_value
    }

    /// Greatest of the values.
    pub fn max_value(&self) -> (m: i64)
        ensures
            m == self.max_value,
    {
        self.max_value
    }
}

/// Statistics of the records of one category.
#[derive(Debug)]
pub struct CategoryStats {
    pub category: String,
    pub count: usize,
    pub total_value: i128,
    pub average_value: i64,
    pub min_value: i64,
    pub max_value: i64,
}

/// Why a record was turned down.
#[derive(Debug)]
pub struct ValidationError {
    pub record_id: String,
    pub message: String,
}

impl ValidationError {
    pub fn new(record_id: String, message: String) -> (e: ValidationError)
        ensures
            e.record_id == record_id,
            e.message == message,
    {
        ValidationError { record_id, message }
    }
}

} // verus!
