//! Selecting log entries by level, duration and status code.

use vstd::prelude::*;
use vstd::string::*;
use crate::entry::{decoded, entries_view, lines_view, LogEntry, LogEntryView};
use crate::entry_rules::{level_rank, rank_of_level};

verus! {

/// The rank that an entry has to reach: that of the level asked for, or 0
/// where none is asked for.
pub open spec fn threshold_rank(min_level: Option<Seq<char>>) -> int {
    match min_level {
        Some(level) => level_rank(level),
        None => 0,
    }
}

/// The entry meets every criterion that is set.
///
/// Its level ranks at least as high as `min_level`. Where `min_duration` is
/// set, the entry has a duration and it is at least that long. Where `codes`
/// is set and not empty, the entry has a status code and it is one of them.
pub open spec fn passes(
    e: LogEntryView,
    min_level: Option<Seq<char>>,
    min_duration: Option<i64>,
    codes: Option<Seq<i32>>,
) -> bool {
    &&& level_rank(e.level) >= threshold_rank(min_level)
    &&& (min_duration is Some ==> e.duration_ms is Some && e.duration_ms->0 >= min_duration->0)
    &&& (codes is Some && codes->0.len() > 0 ==> e.status_code is Some && codes->0.contains(
        e.status_code->0,
    ))
}

/// The test that the criteria make up.
pub open spec fn criteria(
    min_level: Option<Seq<char>>,
    min_duration: Option<i64>,
    codes: Option<Seq<i32>>,
) -> spec_fn(LogEntryView) -> bool {
    |e: LogEntryView| passes(e, min_level, min_duration, codes)
}

/// What a level that may be absent holds.
pub open spec fn optional_text_view(text: Option<String>) -> Option<Seq<char>> {
    match text {
        Some(t) => Some(t@),
        None => None,
    }
}

/// What a list of codes that may be absent holds.
pub open spec fn optional_codes_view(codes: Option<Vec<i32>>) -> Option<Seq<i32>> {
    match codes {
        Some(c) => Some(c@),
        None => None,
    }
}

/// Tells whether `code` is among `codes`.
pub fn holds_code(codes: &Vec<i32>, code: i32) -> (found: bool)
    ensures
        found == codes@.contains(code),
{
    let mut i: usize = 0;
    while i < codes.len()
        invariant
            i <= codes.len(),
            forall|k: int| 0 <= k < i ==> codes@[k] != code,
        decreases codes.len() - i,
    {
        if codes[i] == code {
            return true;
        }
        i = i + 1;
    }
    false
}

/// Tells whether an entry meets every criterion that is set.
pub fn entry_passes(
    entry: &LogEntry,
    min_rank: u8,
    min_duration_ms: Option<i64>,
    status_codes: &Option<Vec<i32>>,
) -> (pass: bool)
    ensures
        pass == {
            &&& level_rank(entry@.level) >= min_rank
            &&& (min_duration_ms is Some ==> entry@.duration_ms is Some && entry@.duration_ms->0
                >= min_duration_ms->0)
            &&& (status_codes is Some && status_codes->0@.len() > 0 ==> entry@.status_code is Some
                && status_codes->0@.contains(entry@.status_code->0))
        },
{
    if rank_of_level(entry.level.as_str()) < min_rank {
        return false;
    }
    if let Some(least) = min_duration_ms {
        match entry.duration_ms {
            Some(duration) => {
                if duration < least {
                    return false;
                }
            },
            None => {
                return false;
            },
        }
    }
    if let Some(codes) = status_codes {
        if codes.len() > 0 {
            match entry.status_code {
                Some(code) => {
                    if !holds_code(codes, code) {
                        return false;
                    }
                },
                None => {
                    return false;
                },
            }
        }
    }
    true
}

/// The rank that the level asked for stands for.
pub fn rank_asked(min_level: &Option<String>) -> (rank: u8)
    ensures
        rank == threshold_rank(optional_text_view(*min_level)),
{
    match min_level {
        Some(level) => rank_of_level(level.as_str()),
        None => 0,
    }
}

/// Selects, in their order, the entries that meet every criterion that is
/// set.
pub fn filter_entries(
    entries: &Vec<LogEntry>,
    min_level: &Option<String>,
    min_duration_ms: Option<i64>,
    status_codes: &Option<Vec<i32>>,
) -> (out: Vec<LogEntry>)
    ensures
        entries_view(out@) == entries_view(entries@).filter(
            criteria(
                optional_text_view(*min_level),
                min_duration_ms,
                optional_codes_view(*status_codes),
            ),
        ),
{
    let ghost test = criteria(
        optional_text_view(*min_level),
        min_duration_ms,
        optional_codes_view(*status_codes),
    );
    let ghost all = entries_view(entries@);
    let min_rank = rank_asked(min_level);
    let mut out: Vec<LogEntry> = Vec::new();
    let mut i: usize = 0;
    assert(all.take(0) =~= Seq::<LogEntryView>::empty());
    assert(entries_view(out@) =~= all.take(0).filter(test)) by {
        reveal(Seq::filter);
    }
    while i < entries.len()
        invariant
            i <= entries.len(),
            all == entries_view(entries@),
            test == criteria(
                optional_text_view(*min_level),
                min_duration_ms,
                optional_codes_view(*status_codes),
            ),
            min_rank == threshold_rank(optional_text_view(*min_level)),
            entries_view(out@) == all.take(i as int).filter(test),
        decreases entries.len() - i,
    {
        let ghost before = entries_view(out@);
        proof {
            assert(all.take(i + 1) =~= all.take(i as int).push(entries@[i as int]@));
            all.take(i as int).lemma_filter_push(entries@[i as int]@, test);
        }
        if entry_passes(&entries[i], min_rank, min_duration_ms, status_codes) {
            out.push(entries[i].clone());
            assert(entries_view(out@) =~= before.push(entries@[i as int]@));
        }
        i = i + 1;
    }
    assert(all.take(entries.len() as int) =~= all);
    out
}

/// Selects, from the lines that could be decoded and in their order, the
/// entries that meet every criterion that is set. Lines that could not be
/// decoded are passed over.
pub fn filter_logs(
    lines: &Vec<Result<LogEntry, String>>,
    min_level: &Option<String>,
    min_duration_ms: Option<i64>,
    status_codes: &Option<Vec<i32>>,
) -> (out: Vec<LogEntry>)
    ensures
        entries_view(out@) == decoded(lines_view(lines@)).filter(
            criteria(
                optional_text_view(*min_level),
                min_duration_ms,
                optional_codes_view(*status_codes),
            ),
        ),
{
    let ghost test = criteria(
        optional_text_view(*min_level),
        min_duration_ms,
        optional_codes_view(*status_codes),
    );
    let ghost all = lines_view(lines@);
    let min_rank = rank_asked(min_level);
    let mut out: Vec<LogEntry> = Vec::new();
    let mut i: usize = 0;
    assert(all.take(0) =~= Seq::empty());
    assert(entries_view(out@) =~= decoded(all.take(0)).filter(test)) by {
        reveal(Seq::filter);
    }
    while i < lines.len()
        invariant
            i <= lines.len(),
            all == lines_view(lines@),
            test == criteria(
                optional_text_view(*min_level),
                min_duration_ms,
                optional_codes_view(*status_codes),
            ),
            min_rank == threshold_rank(optional_text_view(*min_level)),
            entries_view(out@) == decoded(all.take(i as int)).filter(test),
        decreases lines.len() - i,
    {
        let ghost before = entries_view(out@);
        proof {
            assert(all.take(i + 1).drop_last() =~= all.take(i as int));
        }
        match &lines[i] {
            Ok(entry) => {
                proof {
                    decoded(all.take(i as int)).lemma_filter_push(entry@, test);
                }
                if entry_passes(entry, min_rank, min_duration_ms, status_codes) {
                    out.push(entry.clone());
                    assert(entries_view(out@) =~= before.push(entry@));
                }
            },
            Err(_) => {},
        }
        i = i + 1;
    }
    assert(all.take(lines.len() as int) =~= all);
    out
}

} // verus!
