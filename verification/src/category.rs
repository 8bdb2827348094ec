//! Grouping a batch of measurements by category.

use vstd::prelude::*;
use vstd::string::*;
use crate::lexical::{
    lemma_strictly_ascending_is_distinct, lemma_text_precedes_asymmetric,
    lemma_text_precedes_transitive, place, same_text, strictly_ascending, text_precedes,
    texts_view, Placement,
};
use crate::record::{batch_view, values_of, CategoryCount, CategoryStats, DataRecord, DataRecordView};
use crate::sample::{
    greatest_of, is_greatest, is_least, least_of, mean, mean_from_total, sum_of, total,
};

verus! {

/// The test for records of one category.
pub open spec fn in_category(category: Seq<char>) -> spec_fn(DataRecordView) -> bool {
    |r: DataRecordView| r.category == category
}

/// Some record of the batch has the category `category`.
pub open spec fn occurs(batch: Seq<DataRecordView>, category: Seq<char>) -> bool {
    exists|i: int| 0 <= i < batch.len() && (#[trigger] batch[i]).category == category
}

/// `names` lists the categories of the batch: each of them once, nothing
/// else, in dictionary order.
pub open spec fn lists_categories(names: Seq<Seq<char>>, batch: Seq<DataRecordView>) -> bool {
    &&& strictly_ascending(names)
    &&& forall|c: Seq<char>| names.contains(c) <==> occurs(batch, c)
}

/// The values of the records of one category, in the order of the batch.
pub open spec fn category_values(batch: Seq<DataRecordView>, category: Seq<char>) -> Seq<i64> {
    values_of(batch.filter(in_category(category)))
}

/// What `stats` has to hold to be the statistics of one category of the
/// batch, of which the batch has at least one record.
pub open spec fn describes_category(
    stats: CategoryStats,
    batch: Seq<DataRecordView>,
    category: Seq<char>,
) -> bool {
    let values = category_values(batch, category);
    &&& stats.category@ == category
    &&& stats.count == values.len()
    &&& stats.total_value == total(values)
    &&& stats.average_value == mean(values)
    &&& is_least(stats.min_value, values)
    &&& is_greatest(stats.max_value, values)
}

/// The last text of a listing in dictionary order stands after all others
/// of it.
proof fn lemma_last_is_greatest(names: Seq<Seq<char>>, c: Seq<char>)
    requires
        strictly_ascending(names),
        names.len() > 0,
        names.contains(c),
    ensures
        c == names.last() || text_precedes(c, names.last()),
{
    let i = choose|i: int| 0 <= i < names.len() && names[i] == c;
    if i < names.len() - 1 {
        assert(text_precedes(names[i], names[names.len() - 1]));
    }
}

/// Two listings in dictionary order that hold the same texts are the same
/// listing.
pub proof fn lemma_listing_unique(a: Seq<Seq<char>>, b: Seq<Seq<char>>)
    requires
        strictly_ascending(a),
        strictly_ascending(b),
        forall|c: Seq<char>| a.contains(c) <==> b.contains(c),
    ensures
        a == b,
    decreases a.len(),
{
    if a.len() == 0 {
        if b.len() > 0 {
            assert(b.contains(b[0]));
        }
        assert(a =~= b);
    } else if b.len() == 0 {
        assert(a.contains(a[0]));
    } else {
        let x = a.last();
        let y = b.last();
        assert(a.contains(x)) by {
            assert(a[a.len() - 1] == x);
        }
        assert(b.contains(y)) by {
            assert(b[b.len() - 1] == y);
        }
        lemma_last_is_greatest(a, y);
        lemma_last_is_greatest(b, x);
        if x != y {
            lemma_text_precedes_asymmetric(x, y);
        }
        let ra = a.drop_last();
        let rb = b.drop_last();
        assert forall|c: Seq<char>| ra.contains(c) <==> rb.contains(c) by {
            if ra.contains(c) {
                let i = choose|i: int| 0 <= i < ra.len() && ra[i] == c;
                assert(a[i] == c);
                assert(text_precedes(a[i], a[a.len() - 1]));
                lemma_text_precedes_asymmetric(c, x);
                assert(a.contains(c));
                let j = choose|j: int| 0 <= j < b.len() && b[j] == c;
                assert(rb[j] == c);
            }
            if rb.contains(c) {
                let i = choose|i: int| 0 <= i < rb.len() && rb[i] == c;
                assert(b[i] == c);
                assert(text_precedes(b[i], b[b.len() - 1]));
                lemma_text_precedes_asymmetric(c, y);
                assert(b.contains(c));
                let j = choose|j: int| 0 <= j < a.len() && a[j] == c;
                assert(ra[j] == c);
            }
        }
        assert(strictly_ascending(ra)) by {
            assert forall|i: int, j: int| 0 <= i < j < ra.len() implies text_precedes(
                #[trigger] ra[i],
                #[trigger] ra[j],
            ) by {
                assert(text_precedes(a[i], a[j]));
            }
        }
        assert(strictly_ascending(rb)) by {
            assert forall|i: int, j: int| 0 <= i < j < rb.len() implies text_precedes(
                #[trigger] rb[i],
                #[trigger] rb[j],
            ) by {
                assert(text_precedes(b[i], b[j]));
            }
        }
        lemma_listing_unique(ra, rb);
        assert(a =~= ra.push(x));
        assert(b =~= rb.push(y));
    }
}

/// A batch has one listing of its categories only.
pub proof fn lemma_categories_listed_once(
    a: Seq<Seq<char>>,
    b: Seq<Seq<char>>,
    batch: Seq<DataRecordView>,
)
    requires
        lists_categories(a, batch),
        lists_categories(b, batch),
    ensures
        a == b,
{
    lemma_listing_unique(a, b);
}

/// A listing of categories holds none of them twice.
pub proof fn lemma_listing_has_no_duplicates(names: Seq<Seq<char>>, batch: Seq<DataRecordView>)
    requires
        lists_categories(names, batch),
    ensures
        names.no_duplicates(),
{
    lemma_strictly_ascending_is_distinct(names);
}

/// The place of `name` in a listing in dictionary order: the position of the
/// first text that does not stand before it, and whether that text is `name`
/// itself.
fn find_place(names: &Vec<String>, name: &str) -> (at: (usize, bool))
    requires
        strictly_ascending(texts_view(names@)),
    ensures
        at.0 <= names@.len(),
        forall|k: int| 0 <= k < at.0 ==> text_precedes(#[trigger] names@[k]@, name@),
        at.1 ==> at.0 < names@.len() && names@[at.0 as int]@ == name@,
        !at.1 ==> forall|k: int|
            at.0 <= k < names@.len() ==> text_precedes(name@, #[trigger] names@[k]@),
{
    let mut j: usize = 0;
    while j < names.len()
        invariant
            j <= names.len(),
            strictly_ascending(texts_view(names@)),
            forall|k: int| 0 <= k < j ==> text_precedes(#[trigger] names@[k]@, name@),
        decreases names.len() - j,
    {
        match place(names[j].as_str(), name) {
            Placement::Before => {
                j = j + 1;
            },
            Placement::Same => {
                return (j, true);
            },
            Placement::After => {
                proof {
                    let ts = texts_view(names@);
                    assert forall|k: int| j <= k < names@.len() implies text_precedes(
                        name@,
                        #[trigger] names@[k]@,
                    ) by {
                        if j < k {
                            assert(text_precedes(ts[j as int], ts[k]));
                            lemma_text_precedes_transitive(name@, names@[j as int]@, names@[k]@);
                        }
                    }
                }
                return (j, false);
            },
        }
    }
    (j, false)
}

/// Lists the categories of the batch: each of them once, in dictionary
/// order.
pub fn get_unique_categories(records: &Vec<DataRecord>) -> (names: Vec<String>)
    ensures
        lists_categories(texts_view(names@), batch_view(records@)),
{
    let ghost batch = batch_view(records@);
    let mut names: Vec<String> = Vec::new();
    let mut i: usize = 0;
    while i < records.len()
        invariant
            i <= records.len(),
            batch == batch_view(records@),
            lists_categories(texts_view(names@), batch.take(i as int)),
        decreases records.len() - i,
    {
        let ghost before = texts_view(names@);
        let ghost seen = batch.take(i as int);
        let ghost c = records@[i as int].category@;
        let (j, found) = find_place(&names, records[i].category.as_str());
        if !found {
            names.insert(j, records[i].category.clone());
        }
        proof {
            let after = texts_view(names@);
            let next = batch.take(i + 1);
            assert(next[i as int].category == c);
            if found {
                assert(after == before);
                assert(before[j as int] == c);
            } else {
                assert(after =~= before.insert(j as int, c));
                assert forall|a: int, b: int| 0 <= a < b < after.len() implies text_precedes(
                    #[trigger] after[a],
                    #[trigger] after[b],
                ) by {
                    if b < j {
                        assert(text_precedes(before[a], before[b]));
                    } else if b == j {
                        assert(after[a] == names@[a]@);
                    } else if a < j {
                        assert(text_precedes(before[a], before[b - 1]));
                    } else if a == j {
                        assert(after[b] == before[b - 1]);
                    } else {
                        assert(text_precedes(before[a - 1], before[b - 1]));
                    }
                }
                assert(after[j as int] == c);
            }
            assert forall|x: Seq<char>| after.contains(x) <==> occurs(next, x) by {
                if after.contains(x) {
                    let k = choose|k: int| 0 <= k < after.len() && after[k] == x;
                    if x != c {
                        if !found {
                            if k < j {
                                assert(before[k] == x);
                            } else {
                                assert(before[k - 1] == x);
                            }
                        }
                        assert(before.contains(x));
                        let m = choose|m: int|
                            0 <= m < seen.len() && (#[trigger] seen[m]).category == x;
                        assert(next[m] == seen[m]);
                    }
                }
                if occurs(next, x) {
                    let m = choose|m: int|
                        0 <= m < next.len() && (#[trigger] next[m]).category == x;
                    if m < i {
                        assert(seen[m] == next[m]);
                        assert(occurs(seen, x));
                        let k = choose|k: int| 0 <= k < before.len() && before[k] == x;
                        if found {
                        } else if k < j {
                            assert(after[k] == x);
                        } else {
                            assert(after[k + 1] == x);
                        }
                    }
                }
            }
        }
        i = i + 1;
    }
    assert(batch.take(records.len() as int) =~= batch);
    names
}

/// Collects the values of the records of one category.
pub fn collect_category_values(records: &Vec<DataRecord>, category: &str) -> (out: Vec<i64>)
    ensures
        out@ == category_values(batch_view(records@), category@),
{
    let ghost batch = batch_view(records@);
    let ghost test = in_category(category@);
    let mut out: Vec<i64> = Vec::new();
    let mut i: usize = 0;
    assert(batch.take(0) =~= Seq::<DataRecordView>::empty());
    assert(out@ =~= values_of(batch.take(0).filter(test))) by {
        reveal(Seq::filter);
    }
    while i < records.len()
        invariant
            i <= records.len(),
            batch == batch_view(records@),
            test == in_category(category@),
            out@ == values_of(batch.take(i as int).filter(test)),
        decreases records.len() - i,
    {
        let ghost kept = batch.take(i as int).filter(test);
        proof {
            assert(batch.take(i + 1) =~= batch.take(i as int).push(records@[i as int]@));
            batch.take(i as int).lemma_filter_push(records@[i as int]@, test);
        }
        if same_text(records[i].category.as_str(), category) {
            out.push(records[i].value);
            assert(out@ =~= values_of(kept.push(records@[i as int]@)));
        }
        i = i + 1;
    }
    assert(batch.take(records.len() as int) =~= batch);
    out
}

/// The statistics of the records of one category, or `None` where the batch
/// has no record of it.
pub fn get_category_stats(records: &Vec<DataRecord>, category: &str) -> (outcome: Option<
    CategoryStats,
>)
    ensures
        outcome is None <==> !occurs(batch_view(records@), category@),
        outcome is Some ==> describes_category(outcome->0, batch_view(records@), category@),
{
    let ghost batch = batch_view(records@);
    let values = collect_category_values(records, category);
    proof {
        lemma_occurs_iff_kept(batch, category@);
    }
    if values.len() == 0 {
        return None;
    }
    let total_value = sum_of(&values);
    let average_value = mean_from_total(&values, total_value);
    let min_value = least_of(&values);
    let max_value = greatest_of(&values);
    Some(
        CategoryStats {
            category: String::from_str(category),
            count: values.len(),
            total_value,
            average_value,
            min_value,
            max_value,
        },
    )
}

/// A category occurs in a batch exactly when the batch has values of it.
pub proof fn lemma_occurs_iff_kept(batch: Seq<DataRecordView>, category: Seq<char>)
    ensures
        occurs(batch, category) <==> category_values(batch, category).len() > 0,
    decreases batch.len(),
{
    let test = in_category(category);
    reveal(Seq::filter);
    if batch.len() > 0 {
        let rest = batch.drop_last();
        lemma_occurs_iff_kept(rest, category);
        if occurs(batch, category) {
            let i = choose|i: int| 0 <= i < batch.len() && (#[trigger] batch[i]).category
                == category;
            if i < rest.len() {
                assert(rest[i] == batch[i]);
                assert(occurs(rest, category));
            }
        }
        if category_values(batch, category).len() > 0 {
            if test(batch.last()) {
                assert(batch[batch.len() - 1].category == category);
            } else {
                let i = choose|i: int| 0 <= i < rest.len() && (#[trigger] rest[i]).category
                    == category;
                assert(batch[i] == rest[i]);
            }
        }
    }
}

/// What a list of statistics by category holds to be that of the batch: one
/// entry for each category of the batch, in dictionary order, with the
/// statistics of that category.
pub open spec fn groups_batch(groups: Seq<CategoryStats>, batch: Seq<DataRecordView>) -> bool {
    &&& lists_categories(groups.map_values(|g: CategoryStats| g.category@), batch)
    &&& forall|i: int|
        0 <= i < groups.len() ==> describes_category(#[trigger] groups[i], batch, groups[i].category@)
}

/// The statistics of every category of the batch, in dictionary order of the
/// categories.
pub fn aggregate_by_category(records: &Vec<DataRecord>) -> (groups: Vec<CategoryStats>)
    ensures
        groups_batch(groups@, batch_view(records@)),
{
    let ghost batch = batch_view(records@);
    let names = get_unique_categories(records);
    let mut groups: Vec<CategoryStats> = Vec::new();
    let mut i: usize = 0;
    while i < names.len()
        invariant
            i <= names.len(),
            batch == batch_view(records@),
            lists_categories(texts_view(names@), batch),
            groups@.len() == i,
            forall|k: int| 0 <= k < i ==> (#[trigger] groups@[k]).category@ == names@[k]@,
            forall|k: int|
                0 <= k < i ==> describes_category(#[trigger] groups@[k], batch, groups@[k].category@),
        decreases names.len() - i,
    {
        proof {
            assert(texts_view(names@).contains(names@[i as int]@)) by {
                assert(texts_view(names@)[i as int] == names@[i as int]@);
            }
        }
        match get_category_stats(records, names[i].as_str()) {
            Some(stats) => {
                groups.push(stats);
            },
            None => {
                assert(false);
            },
        }
        i = i + 1;
    }
    assert(groups@.map_values(|g: CategoryStats| g.category@) =~= texts_view(names@));
    groups
}

/// Counts the records of every category of the batch, in dictionary order of
/// the categories.
pub fn count_by_category(records: &Vec<DataRecord>) -> (counts: Vec<CategoryCount>)
    ensures
        counts_batch(counts@, batch_view(records@)),
{
    let ghost batch = batch_view(records@);
    let names = get_unique_categories(records);
    let mut counts: Vec<CategoryCount> = Vec::new();
    let mut i: usize = 0;
    while i < names.len()
        invariant
            i <= names.len(),
            batch == batch_view(records@),
            counts@.len() == i,
            forall|k: int| 0 <= k < i ==> (#[trigger] counts@[k]).category@ == names@[k]@,
            forall|k: int|
                0 <= k < i ==> (#[trigger] counts@[k]).count == category_values(
                    batch,
                    counts@[k].category@,
                ).len(),
        decreases names.len() - i,
    {
        let values = collect_category_values(records, names[i].as_str());
        counts.push(CategoryCount { category: names[i].clone(), count: values.len() });
        i = i + 1;
    }
    assert(counts@.map_values(|g: CategoryCount| g.category@) =~= texts_view(names@));
    counts
}

/// What a list of counts by category holds to be that of the batch: one
/// entry for each category of the batch, in dictionary order, with the
/// number of records of that category.
pub open spec fn counts_batch(counts: Seq<CategoryCount>, batch: Seq<DataRecordView>) -> bool {
    &&& lists_categories(counts.map_values(|g: CategoryCount| g.category@), batch)
    &&& forall|i: int|
        0 <= i < counts.len() ==> (#[trigger] counts[i]).count == category_values(
            batch,
            counts[i].category@,
        ).len()
}

/// The statistics by category have exactly one entry for each category that
/// a listing of the categories holds, in the same order.
pub proof fn lemma_one_group_per_category(
    groups: Seq<CategoryStats>,
    names: Seq<Seq<char>>,
    batch: Seq<DataRecordView>,
)
    requires
        groups_batch(groups, batch),
        lists_categories(names, batch),
    ensures
        groups.len() == names.len(),
        forall|i: int| 0 <= i < groups.len() ==> (#[trigger] groups[i]).category@ == names[i],
{
    let listed = groups.map_values(|g: CategoryStats| g.category@);
    lemma_listing_unique(listed, names);
    assert forall|i: int| 0 <= i < groups.len() implies (#[trigger] groups[i]).category@
        == names[i] by {
        assert(listed[i] == groups[i].category@);
    }
}

} // verus!
