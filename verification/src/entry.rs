//! Log entries, input lines and the complaints raised about them.

use vstd::prelude::*;
use vstd::string::*;
use crate::decimal::{integer_text, integer_to_text, natural_text, push_natural, quantity_text, quantity_to_text};
use crate::record::pairs_view;
use crate::record::copy_optional_text;

verus! {

/// One log entry. `duration_ms` counts thousandths of a millisecond.
#[derive(Debug)]
pub struct LogEntry {
    pub timestamp: String,
    pub level: String,
    pub message: String,
    pub duration_ms: Option<i64>,
    pub status_code: Option<i32>,
    pub user_id: Option<String>,
}

/// What a `LogEntry` holds.
pub struct LogEntryView {
    pub timestamp: Seq<char>,
    pub level: Seq<char>,
    pub message: Seq<char>,
    pub duration_ms: Option<i64>,
    pub status_code: Option<i32>,
    pub user_id: Option<Seq<char>>,
}

impl View for LogEntry {
    type V = LogEntryView;

    open spec fn view(&self) -> LogEntryView {
        LogEntryView {
            timestamp: self.timestamp@,
            level: self.level@,
            message: self.message@,
            duration_ms: self.duration_ms,
            status_code: self.status_code,
            user_id: match self.user_id {
                Some(u) => Some(u@),
                None => None,
            },
        }
    }
}

impl Clone for LogEntry {
    fn clone(&self) -> (out: LogEntry)
        ensures
            out@ == self@,
    {
        LogEntry {
            timestamp: self.timestamp.clone(),
            level: self.level.clone(),
            message: self.message.clone(),
            duration_ms: self.duration_ms,
            status_code: self.status_code,
            user_id: copy_optional_text(&self.user_id),
        }
    }
}

/// The fields of an entry as texts, each with its name: the timestamp, the
/// level and the message, then the duration, the status code and the user
/// id as far as the entry has them.
pub open spec fn entry_fields(e: LogEntryView) -> Seq<(Seq<char>, Seq<char>)> {
    let fixed = seq![("timestamp"@, e.timestamp), ("level"@, e.level), ("message"@, e.message)];
    let duration = match e.duration_ms {
        Some(d) => seq![("duration_ms"@, quantity_text(d as int))],
        None => Seq::empty(),
    };
    let status = match e.status_code {
        Some(s) => seq![("status_code"@, integer_text(s as int))],
        None => Seq::empty(),
    };
    let user = match e.user_id {
        Some(u) => seq![("user_id"@, u)],
        None => Seq::empty(),
    };
    fixed + duration + status + user
}

impl LogEntry {
    /// The fields of the entry as texts, each with its name.
    pub fn fields(&self) -> (out: Vec<(String, String)>)
        ensures
            pairs_view(out@) == entry_fields(self@),
    {
        let mut out: Vec<(String, String)> = Vec::new();
        out.push((String::from_str("timestamp"), self.timestamp.clone()));
        out.push((String::from_str("level"), self.level.clone()));
        out.push((String::from_str("message"), self.message.clone()));
        if let Some(d) = self.duration_ms {
            out.push((String::from_str("duration_ms"), quantity_to_text(d)));
        }
        if let Some(s) = self.status_code {
            out.push((String::from_str("status_code"), integer_to_text(s as i64)));
        }
        if let Some(u) = &self.user_id {
            out.push((String::from_str("user_id"), u.clone()));
        }
        assert(pairs_view(out@) =~= entry_fields(self@));
        out
    }
}

/// What a list of entries holds, entry by entry.
pub open spec fn entries_view(entries: Seq<LogEntry>) -> Seq<LogEntryView> {
    entries.map_values(|e: LogEntry| e@)
}

/// What an input line holds: the entry decoded from it, or the decoder's
/// account of what is wrong with it.
pub open spec fn line_view(line: Result<LogEntry, String>) -> Result<LogEntryView, Seq<char>> {
    match line {
        Ok(e) => Ok(e@),
        Err(detail) => Err(detail@),
    }
}

/// What a list of input lines holds, line by line.
pub open spec fn lines_view(lines: Seq<Result<LogEntry, String>>) -> Seq<
    Result<LogEntryView, Seq<char>>,
> {
    lines.map_values(|l: Result<LogEntry, String>| line_view(l))
}

/// The entries of the lines that could be decoded, in the order of the lines.
pub open spec fn decoded(lines: Seq<Result<LogEntryView, Seq<char>>>) -> Seq<LogEntryView>
    decreases lines.len(),
{
    if lines.len() == 0 {
        Seq::empty()
    } else {
        match lines.last() {
            Ok(e) => decoded(lines.drop_last()).push(e),
            Err(_) => decoded(lines.drop_last()),
        }
    }
}

/// Entries taken as lines that were decoded without fault.
pub open spec fn as_lines(entries: Seq<LogEntryView>) -> Seq<Result<LogEntryView, Seq<char>>> {
    entries.map_values(|e: LogEntryView| Ok::<LogEntryView, Seq<char>>(e))
}

/// The test for lines that could be decoded.
pub open spec fn is_decoded() -> spec_fn(Result<LogEntryView, Seq<char>>) -> bool {
    |line: Result<LogEntryView, Seq<char>>| line is Ok
}

/// Passing over the lines that could not be decoded changes nothing else:
/// the entries that are left are those of the lines that could be decoded,
/// in the order of the lines.
pub proof fn lemma_decoded_keeps_order(lines: Seq<Result<LogEntryView, Seq<char>>>)
    ensures
        as_lines(decoded(lines)) == lines.filter(is_decoded()),
    decreases lines.len(),
{
    reveal(Seq::filter);
    if lines.len() == 0 {
        assert(as_lines(decoded(lines)) =~= lines.filter(is_decoded()));
    } else {
        let rest = lines.drop_last();
        lemma_decoded_keeps_order(rest);
        match lines.last() {
            Ok(e) => {
                assert(as_lines(decoded(rest).push(e)) =~= as_lines(decoded(rest)).push(
                    Ok::<LogEntryView, Seq<char>>(e),
                ));
            },
            Err(_) => {},
        }
    }
}

/// A complaint about the line with the number `line_number`, counted from one.
#[derive(Debug)]
pub struct ValidationError {
    pub line_number: usize,
    pub message: String,
}

/// The text that reports `message` for the line with the number `line_number`.
pub open spec fn line_report(line_number: nat, message: Seq<char>) -> Seq<char> {
    "Line "@ + natural_text(line_number) + ": "@ + message
}

impl ValidationError {
    /// The complaint as one text, led by the line number.
    pub fn report(&self) -> (text: String)
        ensures
            text@ == line_report(self.line_number as nat, self.message@),
    {
        report_line(self.line_number, self.message.as_str())
    }
}

/// Writes the report of `message` for one line.
pub fn report_line(line_number: usize, message: &str) -> (text: String)
    ensures
        text@ == line_report(line_number as nat, message@),
{
    let mut text = String::from_str("Line ");
    push_natural(&mut text, line_number as u64);
    text.append(": ");
    text.append(message);
    text
}

/// A line that could not be decoded.
#[derive(Debug)]
pub struct DecodeError {
    pub line: usize,
    pub detail: String,
}

/// The text that reports a decoding failure with the given detail.
pub open spec fn decode_failure_text(detail: Seq<char>) -> Seq<char> {
    "Parse error: "@ + detail
}

impl DecodeError {
    /// The failure as one text.
    pub fn message(&self) -> (text: String)
        ensures
            text@ == decode_failure_text(self.detail@),
    {
        let mut text = String::from_str("Parse error: ");
        text.append(self.detail.as_str());
        text
    }
}

/// No entry was there to compute statistics from.
#[derive(Debug)]
pub struct EmptyBatch {}

impl EmptyBatch {
    /// The failure as one text.
    pub fn message(&self) -> (text: String)
        ensures
            text@ == "No valid log entries found"@,
    {
        String::from_str("No valid log entries found")
    }
}

} // verus!
