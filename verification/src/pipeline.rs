//! Whole-batch operations on input lines: strict parsing, validation, and
//! validation together with statistics.

use vstd::prelude::*;
use vstd::string::*;
use crate::entry::{
    as_lines, decoded, entries_view, line_report, line_view, lines_view, report_line, DecodeError,
    EmptyBatch, LogEntry, LogEntryView,
};
use crate::entry_rules::{
    check_entry, complain_of_level, entry_flaw, is_known_level, level_complaint, level_is_known,
};
use crate::lexical::texts_view;
use crate::log_stats::{compute_stats, describes, LogStats};

verus! {

/// The report on the line with the number `number`, if there is anything to
/// report: that it could not be decoded, with the decoder's account, or the
/// complaint of the first rule that its entry fails.
pub open spec fn line_complaint(line: Result<LogEntryView, Seq<char>>, number: nat) -> Option<
    Seq<char>,
> {
    match line {
        Err(detail) => Some(line_report(number, "JSON parse error: "@ + detail)),
        Ok(e) => match entry_flaw(e) {
            Some(message) => Some(line_report(number, message)),
            None => None,
        },
    }
}

/// The reports on a batch of lines, in the order of the lines. Lines are
/// numbered from one.
pub open spec fn complaints(lines: Seq<Result<LogEntryView, Seq<char>>>) -> Seq<Seq<char>>
    decreases lines.len(),
{
    if lines.len() == 0 {
        Seq::empty()
    } else {
        match line_complaint(lines.last(), lines.len()) {
            Some(report) => complaints(lines.drop_last()).push(report),
            None => complaints(lines.drop_last()),
        }
    }
}

/// There are never more reports than lines.
pub proof fn lemma_complaints_bound(lines: Seq<Result<LogEntryView, Seq<char>>>)
    ensures
        complaints(lines).len() <= lines.len(),
    decreases lines.len(),
{
    if lines.len() > 0 {
        lemma_complaints_bound(lines.drop_last());
    }
}

/// A batch has no report exactly when every line could be decoded and every
/// entry meets the rules.
pub proof fn lemma_no_complaints(lines: Seq<Result<LogEntryView, Seq<char>>>)
    ensures
        complaints(lines).len() == 0 <==> forall|i: int|
            0 <= i < lines.len() ==> (#[trigger] lines[i]) is Ok && entry_flaw(lines[i]->Ok_0)
                is None,
    decreases lines.len(),
{
    if lines.len() > 0 {
        let rest = lines.drop_last();
        lemma_no_complaints(rest);
        if complaints(lines).len() == 0 {
            assert forall|i: int| 0 <= i < lines.len() implies (#[trigger] lines[i]) is Ok
                && entry_flaw(lines[i]->Ok_0) is None by {
                if i < rest.len() {
                    assert(rest[i] == lines[i]);
                }
            }
        } else {
            if line_complaint(lines.last(), lines.len()) is None {
                let i = choose|i: int|
                    0 <= i < rest.len() && !((#[trigger] rest[i]) is Ok && entry_flaw(
                        rest[i]->Ok_0,
                    ) is None);
                assert(rest[i] == lines[i]);
            } else {
                assert(lines[lines.len() - 1] == lines.last());
            }
        }
    }
}

/// Writes the report on one line, if there is anything to report.
pub fn complaint_about(line: &Result<LogEntry, String>, number: usize) -> (report: Option<String>)
    ensures
        report is Some == line_complaint(line_view(*line), number as nat) is Some,
        report is Some ==> line_complaint(line_view(*line), number as nat) == Some(
            report->0@,
        ),
{
    match line {
        Err(detail) => {
            let mut message = String::from_str("JSON parse error: ");
            message.append(detail.as_str());
            Some(report_line(number, message.as_str()))
        },
        Ok(entry) => match check_entry(entry) {
            Some(message) => Some(report_line(number, message.as_str())),
            None => None,
        },
    }
}

/// Checks every line of a batch. Gives the number of lines that could be
/// decoded and meet the rules, and the reports on the others in the order of
/// the lines, each led by the number of its line.
pub fn validate_logs(lines: &Vec<Result<LogEntry, String>>) -> (out: (usize, Vec<String>))
    ensures
        texts_view(out.1@) == complaints(lines_view(lines@)),
        out.0 + out.1@.len() == lines@.len(),
{
    let ghost all = lines_view(lines@);
    let mut errors: Vec<String> = Vec::new();
    let mut valid_count: usize = 0;
    let mut i: usize = 0;
    assert(all.take(0) =~= Seq::empty());
    assert(texts_view(errors@) =~= complaints(all.take(0)));
    while i < lines.len()
        invariant
            i <= lines.len(),
            all == lines_view(lines@),
            texts_view(errors@) == complaints(all.take(i as int)),
            valid_count + errors@.len() == i,
        decreases lines.len() - i,
    {
        let ghost before = texts_view(errors@);
        proof {
            assert(all.take(i + 1).drop_last() =~= all.take(i as int));
            assert(all.take(i + 1).last() == line_view(lines@[i as int]));
        }
        match complaint_about(&lines[i], i + 1) {
            Some(report) => {
                errors.push(report);
                assert(texts_view(errors@) =~= before.push(report@));
            },
            None => {
                valid_count = valid_count + 1;
            },
        }
        i = i + 1;
    }
    assert(all.take(lines.len() as int) =~= all);
    (valid_count, errors)
}

/// Checks every entry of a batch that is already decoded. Gives the number
/// of entries that meet the rules, and the reports on the others in the
/// order of the entries, each led by the position of its entry, counted
/// from one.
pub fn validate_entries(entries: &Vec<LogEntry>) -> (out: (usize, Vec<String>))
    ensures
        texts_view(out.1@) == complaints(as_lines(entries_view(entries@))),
        out.0 + out.1@.len() == entries@.len(),
{
    let ghost all = as_lines(entries_view(entries@));
    let mut errors: Vec<String> = Vec::new();
    let mut valid_count: usize = 0;
    let mut i: usize = 0;
    assert(all.take(0) =~= Seq::empty());
    assert(texts_view(errors@) =~= complaints(all.take(0)));
    while i < entries.len()
        invariant
            i <= entries.len(),
            all == as_lines(entries_view(entries@)),
            texts_view(errors@) == complaints(all.take(i as int)),
            valid_count + errors@.len() == i,
        decreases entries.len() - i,
    {
        let ghost before = texts_view(errors@);
        proof {
            assert(all.take(i + 1).drop_last() =~= all.take(i as int));
            assert(all.take(i + 1).last() == Ok::<LogEntryView, Seq<char>>(entries@[i as int]@));
        }
        match check_entry(&entries[i]) {
            Some(message) => {
                let report = report_line(i + 1, message.as_str());
                errors.push(report);
                assert(texts_view(errors@) =~= before.push(report@));
            },
            None => {
                valid_count = valid_count + 1;
            },
        }
        i = i + 1;
    }
    assert(all.take(entries.len() as int) =~= all);
    (valid_count, errors)
}

/// The account of what keeps a line out of a strictly decoded batch, if
/// anything does: the decoder's account where the line could not be decoded,
/// the complaint about the level where the entry carries none of the four.
pub open spec fn unreadable(line: Result<LogEntryView, Seq<char>>) -> Option<Seq<char>> {
    match line {
        Err(detail) => Some(detail),
        Ok(e) => if level_is_known(e.level) {
            None
        } else {
            Some(level_complaint(e.level))
        },
    }
}

/// Decodes a batch strictly: gives the entries of all lines, in their order,
/// or fails on the first line that could not be decoded or whose entry
/// carries none of the four levels, with its number counted from one and the
/// account of what is wrong with it.
pub fn parse_logs(lines: &Vec<Result<LogEntry, String>>) -> (outcome: Result<
    Vec<LogEntry>,
    DecodeError,
>)
    ensures
        outcome is Ok <==> forall|i: int|
            0 <= i < lines@.len() ==> unreadable(#[trigger] lines_view(lines@)[i]) is None,
        outcome is Ok ==> entries_view(outcome->Ok_0@) == decoded(lines_view(lines@))
            && outcome->Ok_0@.len() == lines@.len(),
        outcome is Err ==> {
            let e = outcome->Err_0;
            &&& 1 <= e.line <= lines@.len()
            &&& unreadable(lines_view(lines@)[e.line - 1]) == Some(e.detail@)
            &&& forall|i: int|
                0 <= i < e.line - 1 ==> unreadable(#[trigger] lines_view(lines@)[i]) is None
        },
{
    let ghost all = lines_view(lines@);
    let mut out: Vec<LogEntry> = Vec::new();
    let mut i: usize = 0;
    assert(all.take(0) =~= Seq::empty());
    assert(entries_view(out@) =~= decoded(all.take(0)));
    while i < lines.len()
        invariant
            i <= lines.len(),
            all == lines_view(lines@),
            entries_view(out@) == decoded(all.take(i as int)),
            out@.len() == i,
            forall|k: int| 0 <= k < i ==> unreadable(#[trigger] all[k]) is None,
        decreases lines.len() - i,
    {
        let ghost before = entries_view(out@);
        proof {
            assert(all.take(i + 1).drop_last() =~= all.take(i as int));
            assert(all[i as int] == line_view(lines@[i as int]));
        }
        match &lines[i] {
            Ok(entry) => {
                if !is_known_level(entry.level.as_str()) {
                    return Err(
                        DecodeError { line: i + 1, detail: complain_of_level(entry.level.as_str()) },
                    );
                }
                out.push(entry.clone());
                assert(entries_view(out@) =~= before.push(entry@));
            },
            Err(detail) => {
                return Err(DecodeError { line: i + 1, detail: detail.clone() });
            },
        }
        i = i + 1;
    }
    assert(all.take(lines.len() as int) =~= all);
    Ok(out)
}

/// Validates a batch of lines and computes the statistics of the entries
/// that could be decoded, in one call. Fails with `EmptyBatch` where no line
/// could be decoded; reports never stand in the way of the statistics.
pub fn batch_process(lines: &Vec<Result<LogEntry, String>>) -> (outcome: Result<
    (LogStats, Vec<String>),
    EmptyBatch,
>)
    ensures
        outcome is Err <==> decoded(lines_view(lines@)).len() == 0,
        outcome is Ok ==> describes(outcome->Ok_0.0, decoded(lines_view(lines@))) && texts_view(
            outcome->Ok_0.1@,
        ) == complaints(lines_view(lines@)),
{
    let (_, errors) = validate_logs(lines);
    match compute_stats(lines) {
        Ok(stats) => Ok((stats, errors)),
        Err(e) => Err(e),
    }
}

} // verus!
