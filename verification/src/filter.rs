//! Selecting measurements by category and by value, and what selecting
//! keeps of the order of a batch.

use vstd::prelude::*;
use vstd::string::*;
use crate::category::in_category;
use crate::lexical::same_text;
use crate::record::{batch_view, DataRecord, DataRecordView};

verus! {

/// The test for records whose value is at least `least`.
pub open spec fn at_least(least: i64) -> spec_fn(DataRecordView) -> bool {
    |r: DataRecordView| r.value >= least
}

/// `places` tells, for each element of `part`, where it stands in `whole`:
/// the places rise, and at each stands the element itself.
pub open spec fn embeds<A>(part: Seq<A>, whole: Seq<A>, places: Seq<int>) -> bool {
    &&& places.len() == part.len()
    &&& forall|i: int|
        0 <= i < part.len() ==> 0 <= (#[trigger] places[i]) < whole.len() && part[i]
            == whole[places[i]]
    &&& forall|i: int, j: int|
        0 <= i < j < part.len() ==> (#[trigger] places[i]) < (#[trigger] places[j])
}

/// `part` is made of elements of `whole`, unchanged and in the order in
/// which they stand there.
pub open spec fn is_subsequence<A>(part: Seq<A>, whole: Seq<A>) -> bool {
    exists|places: Seq<int>| embeds(part, whole, places)
}

/// Selecting by a test keeps the order: what is selected is a subsequence
/// of the batch, each of its elements passes the test, and every element of
/// the batch that passes is selected.
pub proof fn lemma_filter_keeps_order<A>(whole: Seq<A>, test: spec_fn(A) -> bool)
    ensures
        is_subsequence(whole.filter(test), whole),
        forall|i: int| 0 <= i < whole.filter(test).len() ==> test(#[trigger] whole.filter(test)[i]),
        forall|i: int|
            0 <= i < whole.len() && test(whole[i]) ==> whole.filter(test).contains(
                #[trigger] whole[i],
            ),
    decreases whole.len(),
{
    reveal(Seq::filter);
    if whole.len() == 0 {
        assert(embeds(whole.filter(test), whole, Seq::<int>::empty()));
    } else {
        let rest = whole.drop_last();
        let last = whole.last();
        lemma_filter_keeps_order(rest, test);
        let kept = rest.filter(test);
        let places = choose|places: Seq<int>| embeds(kept, rest, places);
        if test(last) {
            let more = places.push(whole.len() - 1);
            assert forall|i: int| 0 <= i < kept.len() + 1 implies 0 <= (#[trigger] more[i])
                < whole.len() && kept.push(last)[i] == whole[more[i]] by {
                if i < kept.len() {
                    assert(more[i] == places[i]);
                    assert(rest[places[i]] == whole[places[i]]);
                }
            }
            assert forall|i: int, j: int| 0 <= i < j < kept.len() + 1 implies (#[trigger] more[i])
                < (#[trigger] more[j]) by {
                assert(more[i] == places[i]);
                if j < kept.len() {
                    assert(more[j] == places[j]);
                }
            }
            assert(embeds(whole.filter(test), whole, more));
        } else {
            assert forall|i: int| 0 <= i < kept.len() implies 0 <= (#[trigger] places[i])
                < whole.len() && kept[i] == whole[places[i]] by {
                assert(rest[places[i]] == whole[places[i]]);
            }
            assert(embeds(whole.filter(test), whole, places));
        }
        assert forall|i: int| 0 <= i < whole.len() && test(whole[i]) implies whole.filter(
            test,
        ).contains(#[trigger] whole[i]) by {
            if i < rest.len() {
                assert(rest[i] == whole[i]);
                let k = choose|k: int| 0 <= k < kept.len() && kept[k] == rest[i];
                assert(whole.filter(test)[k] == whole[i]);
            } else {
                assert(whole.filter(test)[kept.len() as int] == whole[i]);
            }
        }
    }
}

/// Selects, in their order, the records of one category.
pub fn filter_by_category(records: &Vec<DataRecord>, category: &str) -> (out: Vec<DataRecord>)
    ensures
        batch_view(out@) == batch_view(records@).filter(in_category(category@)),
{
    let ghost batch = batch_view(records@);
    let ghost test = in_category(category@);
    let mut out: Vec<DataRecord> = Vec::new();
    let mut i: usize = 0;
    assert(batch.take(0) =~= Seq::<DataRecordView>::empty());
    assert(batch_view(out@) =~= batch.take(0).filter(test)) by {
        reveal(Seq::filter);
    }
    while i < records.len()
        invariant
            i <= records.len(),
            batch == batch_view(records@),
            test == in_category(category@),
            batch_view(out@) == batch.take(i as int).filter(test),
        decreases records.len() - i,
    {
        let ghost before = batch_view(out@);
        proof {
            assert(batch.take(i + 1) =~= batch.take(i as int).push(records@[i as int]@));
            batch.take(i as int).lemma_filter_push(records@[i as int]@, test);
        }
        if same_text(records[i].category.as_str(), category) {
            out.push(records[i].clone());
            assert(batch_view(out@) =~= before.push(records@[i as int]@));
        }
        i = i + 1;
    }
    assert(batch.take(records.len() as int) =~= batch);
    out
}

/// Selects, in their order, the records whose value is at least
/// `min_value`.
pub fn filter_by_value(records: &Vec<DataRecord>, min_value: i64) -> (out: Vec<DataRecord>)
    ensures
        batch_view(out@) == batch_view(records@).filter(at_least(min_value)),
{
    let ghost batch = batch_view(records@);
    let ghost test = at_least(min_value);
    let mut out: Vec<DataRecord> = Vec::new();
    let mut i: usize = 0;
    assert(batch.take(0) =~= Seq::<DataRecordView>::empty());
    assert(batch_view(out@) =~= batch.take(0).filter(test)) by {
        reveal(Seq::filter);
    }
    while i < records.len()
        invariant
            i <= records.len(),
            batch == batch_view(records@),
            test == at_least(min_value),
            batch_view(out@) == batch.take(i as int).filter(test),
        decreases records.len() - i,
    {
        let ghost before = batch_view(out@);
        proof {
            assert(batch.take(i + 1) =~= batch.take(i as int).push(records@[i as int]@));
            batch.take(i as int).lemma_filter_push(records@[i as int]@, test);
        }
        if records[i].value >= min_value {
            out.push(records[i].clone());
            assert(batch_view(out@) =~= before.push(records@[i as int]@));
        }
        i = i + 1;
    }
    assert(batch.take(records.len() as int) =~= batch);
    out
}

} // verus!
