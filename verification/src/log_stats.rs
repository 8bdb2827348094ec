//! Statistics of a batch of log entries.

use std::collections::HashMap;
use vstd::prelude::*;
use vstd::std_specs::hash::*;
use vstd::string::*;
use crate::decimal::{natural_text, push_natural, push_two_decimals, two_decimal_text};
use crate::entry::{decoded, entries_view, lines_view, EmptyBatch, LogEntry, LogEntryView};
use crate::entry_rules::level_is_known;
use crate::lexical::same_text;
use crate::sample::{
    is_greatest, is_least, lemma_ascending, lemma_ascending_ends, lemma_percentiles_ordered, mean,
    mean_of, percentile, rank_of, sorted_copy,
};

verus! {

/// Statistics of a batch of log entries. The figures on durations count
/// thousandths of a millisecond and are zero where no entry has a duration.
#[derive(Debug)]
pub struct LogStats {
    pub total_count: usize,
    pub error_count: usize,
    pub warn_count: usize,
    pub info_count: usize,
    pub avg_duration_ms: i64,
    pub min_duration_ms: i64,
    pub max_duration_ms: i64,
    pub p50_duration_ms: i64,
    pub p95_duration_ms: i64,
    pub p99_duration_ms: i64,
    pub status_code_distribution: HashMap<i32, usize>,
    pub error_count_by_code: HashMap<i32, usize>,
}

/// The text of the one-line account of statistics.
pub open spec fn headline_text(stats: LogStats) -> Seq<char> {
    "LogStats(total="@ + natural_text(stats.total_count as nat) + ", errors="@ + natural_text(
        stats.error_count as nat,
    ) + ", avg_duration="@ + two_decimal_text(stats.avg_duration_ms as int) + "ms, p95="@
        + two_decimal_text(stats.p95_duration_ms as int) + "ms)"@
}

/// The text of the account of statistics, one line for each figure.
pub open spec fn summary_text(stats: LogStats) -> Seq<char> {
    "Total logs: "@ + natural_text(stats.total_count as nat) + "\nError count: "@ + natural_text(
        stats.error_count as nat,
    ) + "\nWarning count: "@ + natural_text(stats.warn_count as nat) + "\nInfo count: "@
        + natural_text(stats.info_count as nat) + "\nAverage duration: "@ + two_decimal_text(
        stats.avg_duration_ms as int,
    ) + "ms\nP95 duration: "@ + two_decimal_text(stats.p95_duration_ms as int)
        + "ms\nP99 duration: "@ + two_decimal_text(stats.p99_duration_ms as int) + "ms"@
}

impl LogStats {
    /// A one-line account of the statistics.
    pub fn headline(&self) -> (text: String)
        ensures
            text@ == headline_text(*self),
    {
        let mut text = String::from_str("LogStats(total=");
        push_natural(&mut text, self.total_count as u64);
        text.append(", errors=");
        push_natural(&mut text, self.error_count as u64);
        text.append(", avg_duration=");
        push_two_decimals(&mut text, self.avg_duration_ms);
        text.append("ms, p95=");
        push_two_decimals(&mut text, self.p95_duration_ms);
        text.append("ms)");
        text
    }

    /// An account of the statistics, one line for each figure.
    pub fn summary(&self) -> (text: String)
        ensures
            text@ == summary_text(*self),
    {
        let mut text = String::from_str("Total logs: ");
        push_natural(&mut text, self.total_count as u64);
        text.append("\nError count: ");
        push_natural(&mut text, self.error_count as u64);
        text.append("\nWarning count: ");
        push_natural(&mut text, self.warn_count as u64);
        text.append("\nInfo count: ");
        push_natural(&mut text, self.info_count as u64);
        text.append("\nAverage duration: ");
        push_two_decimals(&mut text, self.avg_duration_ms);
        text.append("ms\nP95 duration: ");
        push_two_decimals(&mut text, self.p95_duration_ms);
        text.append("ms\nP99 duration: ");
        push_two_decimals(&mut text, self.p99_duration_ms);
        text.append("ms");
        text
    }
}

/// The test for entries of one level.
pub open spec fn has_level(level: Seq<char>) -> spec_fn(LogEntryView) -> bool {
    |e: LogEntryView| e.level == level
}

/// The number of entries of one level.
pub open spec fn level_count(entries: Seq<LogEntryView>, level: Seq<char>) -> nat {
    entries.filter(has_level(level)).len()
}

/// The durations of the entries that have one, in the order of the entries.
pub open spec fn durations_of(entries: Seq<LogEntryView>) -> Seq<i64>
    decreases entries.len(),
{
    if entries.len() == 0 {
        Seq::empty()
    } else {
        match entries.last().duration_ms {
            Some(d) => durations_of(entries.drop_last()).push(d),
            None => durations_of(entries.drop_last()),
        }
    }
}

/// The number of entries that carry the status code `code`.
pub open spec fn code_count(entries: Seq<LogEntryView>, code: i32) -> nat
    decreases entries.len(),
{
    if entries.len() == 0 {
        0
    } else if entries.last().status_code == Some(code) {
        code_count(entries.drop_last(), code) + 1
    } else {
        code_count(entries.drop_last(), code)
    }
}

/// For every status code from `floor` upwards that some entry carries, the
/// number of entries that carry it.
pub open spec fn code_histogram(entries: Seq<LogEntryView>, floor: i32) -> Map<i32, usize> {
    Map::new(
        |code: i32| code >= floor && code_count(entries, code) > 0,
        |code: i32| code_count(entries, code) as usize,
    )
}

/// The least status code that counts as an error.
pub const FIRST_ERROR_CODE: i32 = 400;

/// What `stats` has to hold to be the statistics of `entries`.
pub open spec fn describes(stats: LogStats, entries: Seq<LogEntryView>) -> bool {
    let durations = durations_of(entries);
    &&& stats.total_count == entries.len()
    &&& stats.error_count == level_count(entries, "ERROR"@)
    &&& stats.warn_count == level_count(entries, "WARN"@)
    &&& stats.info_count == level_count(entries, "INFO"@)
    &&& stats.avg_duration_ms == mean(durations)
    &&& if durations.len() == 0 {
        stats.min_duration_ms == 0 && stats.max_duration_ms == 0
    } else {
        is_least(stats.min_duration_ms, durations) && is_greatest(
            stats.max_duration_ms,
            durations,
        )
    }
    &&& stats.p50_duration_ms == percentile(durations, 50)
    &&& stats.p95_duration_ms == percentile(durations, 95)
    &&& stats.p99_duration_ms == percentile(durations, 99)
    &&& stats.status_code_distribution@ == code_histogram(entries, i32::MIN)
    &&& stats.error_count_by_code@ == code_histogram(entries, FIRST_ERROR_CODE)
}

/// The count of a code after one more entry.
pub proof fn lemma_code_count_push(entries: Seq<LogEntryView>, e: LogEntryView, code: i32)
    ensures
        code_count(entries.push(e), code) == code_count(entries, code) + if e.status_code == Some(
            code,
        ) {
            1nat
        } else {
            0nat
        },
{
    assert(entries.push(e).drop_last() =~= entries);
}

/// No code is carried by more entries than there are.
pub proof fn lemma_code_count_bound(entries: Seq<LogEntryView>, code: i32)
    ensures
        code_count(entries, code) <= entries.len(),
    decreases entries.len(),
{
    if entries.len() > 0 {
        lemma_code_count_bound(entries.drop_last(), code);
    }
}

/// The durations after one more entry.
pub proof fn lemma_durations_push(entries: Seq<LogEntryView>, e: LogEntryView)
    ensures
        durations_of(entries.push(e)) == match e.duration_ms {
            Some(d) => durations_of(entries).push(d),
            None => durations_of(entries),
        },
{
    assert(entries.push(e).drop_last() =~= entries);
}

/// The count of a level after one more entry, and its bound.
pub proof fn lemma_level_count_push(entries: Seq<LogEntryView>, e: LogEntryView, level: Seq<char>)
    ensures
        level_count(entries.push(e), level) == level_count(entries, level) + if e.level == level {
            1nat
        } else {
            0nat
        },
        level_count(entries, level) <= entries.len(),
{
    entries.lemma_filter_push(e, has_level(level));
    entries.lemma_filter_len(has_level(level));
}

/// The four levels are four different texts.
pub proof fn lemma_levels_differ()
    ensures
        "ERROR"@ != "WARN"@,
        "ERROR"@ != "INFO"@,
        "ERROR"@ != "DEBUG"@,
        "WARN"@ != "INFO"@,
        "WARN"@ != "DEBUG"@,
        "INFO"@ != "DEBUG"@,
{
    reveal_strlit("ERROR");
    reveal_strlit("WARN");
    reveal_strlit("INFO");
    reveal_strlit("DEBUG");
    assert("ERROR"@[0] == 'E');
    assert("WARN"@[0] == 'W');
    assert("INFO"@[0] == 'I');
    assert("DEBUG"@[0] == 'D');
}

/// The entries of the four levels never outnumber the batch, and make up
/// the whole batch when every entry carries one of the four.
pub proof fn lemma_level_counts_conserved(entries: Seq<LogEntryView>)
    ensures
        level_count(entries, "ERROR"@) + level_count(entries, "WARN"@) + level_count(
            entries,
            "INFO"@,
        ) + level_count(entries, "DEBUG"@) <= entries.len(),
        (forall|i: int| 0 <= i < entries.len() ==> level_is_known(#[trigger] entries[i].level))
            ==> level_count(entries, "ERROR"@) + level_count(entries, "WARN"@) + level_count(
            entries,
            "INFO"@,
        ) + level_count(entries, "DEBUG"@) == entries.len(),
    decreases entries.len(),
{
    lemma_levels_differ();
    if entries.len() == 0 {
        lemma_level_count_push(entries, arbitrary(), "ERROR"@);
        lemma_level_count_push(entries, arbitrary(), "WARN"@);
        lemma_level_count_push(entries, arbitrary(), "INFO"@);
        lemma_level_count_push(entries, arbitrary(), "DEBUG"@);
    } else {
        let rest = entries.drop_last();
        let e = entries.last();
        assert(rest.push(e) =~= entries);
        lemma_level_counts_conserved(rest);
        lemma_level_count_push(rest, e, "ERROR"@);
        lemma_level_count_push(rest, e, "WARN"@);
        lemma_level_count_push(rest, e, "INFO"@);
        lemma_level_count_push(rest, e, "DEBUG"@);
        if forall|i: int| 0 <= i < entries.len() ==> level_is_known(#[trigger] entries[i].level) {
            assert forall|i: int| 0 <= i < rest.len() implies level_is_known(
                #[trigger] rest[i].level,
            ) by {
                assert(rest[i] == entries[i]);
            }
            assert(level_is_known(entries[entries.len() - 1].level));
        }
    }
}

/// In statistics of a batch, the counts by level never outnumber the batch,
/// and where some entry has a duration the percentiles rise from the least
/// duration to the greatest.
pub proof fn lemma_stats_consistent(stats: LogStats, entries: Seq<LogEntryView>)
    requires
        describes(stats, entries),
    ensures
        stats.error_count + stats.warn_count + stats.info_count <= stats.total_count,
        (forall|i: int| 0 <= i < entries.len() ==> level_is_known(#[trigger] entries[i].level))
            ==> stats.error_count + stats.warn_count + stats.info_count + level_count(
            entries,
            "DEBUG"@,
        ) == stats.total_count,
        stats.min_duration_ms <= stats.p50_duration_ms <= stats.p95_duration_ms
            <= stats.p99_duration_ms <= stats.max_duration_ms,
{
    lemma_level_counts_conserved(entries);
    let durations = durations_of(entries);
    if durations.len() > 0 {
        lemma_percentiles_ordered(
            durations,
            50,
            95,
            stats.min_duration_ms,
            stats.max_duration_ms,
        );
        lemma_percentiles_ordered(
            durations,
            95,
            99,
            stats.min_duration_ms,
            stats.max_duration_ms,
        );
    }
}

/// Counts the entries of one level.
pub fn count_level(entries: &Vec<LogEntry>, level: &str) -> (n: usize)
    ensures
        n == level_count(entries_view(entries@), level@),
{
    let ghost all = entries_view(entries@);
    let mut n: usize = 0;
    let mut i: usize = 0;
    assert(all.take(0) =~= Seq::<LogEntryView>::empty());
    assert(level_count(all.take(0), level@) == 0) by {
        reveal(Seq::filter);
    }
    while i < entries.len()
        invariant
            i <= entries.len(),
            all == entries_view(entries@),
            n == level_count(all.take(i as int), level@),
            n <= i,
        decreases entries.len() - i,
    {
        proof {
            assert(all.take(i + 1) =~= all.take(i as int).push(entries@[i as int]@));
            lemma_level_count_push(all.take(i as int), entries@[i as int]@, level@);
        }
        if same_text(entries[i].level.as_str(), level) {
            n = n + 1;
        }
        i = i + 1;
    }
    assert(all.take(entries.len() as int) =~= all);
    n
}

/// Collects the durations of the entries that have one.
pub fn collect_durations(entries: &Vec<LogEntry>) -> (out: Vec<i64>)
    ensures
        out@ == durations_of(entries_view(entries@)),
{
    let ghost all = entries_view(entries@);
    let mut out: Vec<i64> = Vec::new();
    let mut i: usize = 0;
    assert(all.take(0) =~= Seq::<LogEntryView>::empty());
    while i < entries.len()
        invariant
            i <= entries.len(),
            all == entries_view(entries@),
            out@ == durations_of(all.take(i as int)),
        decreases entries.len() - i,
    {
        proof {
            assert(all.take(i + 1) =~= all.take(i as int).push(entries@[i as int]@));
            lemma_durations_push(all.take(i as int), entries@[i as int]@);
        }
        if let Some(d) = entries[i].duration_ms {
            out.push(d);
        }
        i = i + 1;
    }
    assert(all.take(entries.len() as int) =~= all);
    out
}

/// Counts, for every status code from `floor` upwards, the entries that
/// carry it.
pub fn tally_codes(entries: &Vec<LogEntry>, floor: i32) -> (tally: HashMap<i32, usize>)
    ensures
        tally@ == code_histogram(entries_view(entries@), floor),
{
    broadcast use group_hash_axioms;

    let ghost all = entries_view(entries@);
    let mut tally: HashMap<i32, usize> = HashMap::new();
    let mut i: usize = 0;
    assert(all.take(0) =~= Seq::<LogEntryView>::empty());
    assert(tally@ =~= code_histogram(all.take(0), floor));
    while i < entries.len()
        invariant
            i <= entries.len(),
            all == entries_view(entries@),
            tally@ == code_histogram(all.take(i as int), floor),
        decreases entries.len() - i,
    {
        let ghost before = all.take(i as int);
        let ghost e = entries@[i as int]@;
        proof {
            assert(all.take(i + 1) =~= before.push(e));
            assert forall|code: i32|
                code_count(all.take(i + 1), code) == code_count(before, code) + if e.status_code
                    == Some(code) {
                    1nat
                } else {
                    0nat
                } && code_count(before, code) <= i by {
                lemma_code_count_push(before, e, code);
                lemma_code_count_bound(before, code);
            }
        }
        if let Some(code) = entries[i].status_code {
            if code >= floor {
                let seen: usize = match tally.get(&code) {
                    Some(n) => *n,
                    None => 0,
                };
                assert(seen == code_count(before, code));
                tally.insert(code, seen + 1);
            }
        }
        assert(tally@ =~= code_histogram(all.take(i + 1), floor));
        i = i + 1;
    }
    assert(all.take(entries.len() as int) =~= all);
    tally
}

/// The statistics of a batch of entries, or `EmptyBatch` where there is no
/// entry.
pub fn entry_stats(entries: &Vec<LogEntry>) -> (outcome: Result<LogStats, EmptyBatch>)
    ensures
        outcome is Err <==> entries@.len() == 0,
        outcome is Ok ==> describes(outcome->Ok_0, entries_view(entries@)),
{
    if entries.len() == 0 {
        return Err(EmptyBatch {});
    }
    let error_count = count_level(entries, "ERROR");
    let warn_count = count_level(entries, "WARN");
    let info_count = count_level(entries, "INFO");
    let durations = collect_durations(entries);
    let avg = mean_of(&durations);
    let mut min: i64 = 0;
    let mut max: i64 = 0;
    let mut p50: i64 = 0;
    let mut p95: i64 = 0;
    let mut p99: i64 = 0;
    let n = durations.len();
    if n > 0 {
        let sorted = sorted_copy(&durations);
        proof {
            lemma_ascending(durations@);
            lemma_ascending_ends(durations@);
        }
        min = sorted[0];
        max = sorted[n - 1];
        p50 = sorted[rank_of(n, 50)];
        p95 = sorted[rank_of(n, 95)];
        p99 = sorted[rank_of(n, 99)];
    }
    let status_code_distribution = tally_codes(entries, i32::MIN);
    let error_count_by_code = tally_codes(entries, FIRST_ERROR_CODE);
    Ok(
        LogStats {
            total_count: entries.len(),
            error_count,
            warn_count,
            info_count,
            avg_duration_ms: avg,
            min_duration_ms: min,
            max_duration_ms: max,
            p50_duration_ms: p50,
            p95_duration_ms: p95,
            p99_duration_ms: p99,
            status_code_distribution,
            error_count_by_code,
        },
    )
}

/// The entries of the lines that could be decoded, in the order of the
/// lines. Lines that could not be decoded are passed over.
pub fn decoded_entries(lines: &Vec<Result<LogEntry, String>>) -> (out: Vec<LogEntry>)
    ensures
        entries_view(out@) == decoded(lines_view(lines@)),
{
    let ghost all = lines_view(lines@);
    let mut out: Vec<LogEntry> = Vec::new();
    let mut i: usize = 0;
    assert(all.take(0) =~= Seq::empty());
    assert(entries_view(out@) =~= decoded(all.take(0)));
    while i < lines.len()
        invariant
            i <= lines.len(),
            all == lines_view(lines@),
            entries_view(out@) == decoded(all.take(i as int)),
        decreases lines.len() - i,
    {
        let ghost before = entries_view(out@);
        proof {
            assert(all.take(i + 1).drop_last() =~= all.take(i as int));
        }
        match &lines[i] {
            Ok(entry) => {
                out.push(entry.clone());
                assert(entries_view(out@) =~= before.push(entry@));
            },
            Err(_) => {},
        }
        i = i + 1;
    }
    assert(all.take(lines.len() as int) =~= all);
    out
}

/// The statistics of the entries that could be decoded from the lines, or
/// `EmptyBatch` where no line could be decoded.
pub fn compute_stats(lines: &Vec<Result<LogEntry, String>>) -> (outcome: Result<
    LogStats,
    EmptyBatch,
>)
    ensures
        outcome is Err <==> decoded(lines_view(lines@)).len() == 0,
        outcome is Ok ==> describes(outcome->Ok_0, decoded(lines_view(lines@))),
{
    let entries = decoded_entries(lines);
    entry_stats(&entries)
}

} // verus!
