//! The rules that a log entry has to meet, and the ranks of the levels.

use vstd::prelude::*;
use vstd::string::*;
use crate::decimal::{integer_text, push_integer, push_quantity, quantity_text};
use crate::entry::{LogEntry, LogEntryView, ValidationError};
use crate::lexical::same_text;

verus! {

/// The level is one of the four that an entry may carry.
pub open spec fn level_is_known(level: Seq<char>) -> bool {
    level == "ERROR"@ || level == "WARN"@ || level == "INFO"@ || level == "DEBUG"@
}

/// The severity of a level: `ERROR` 3, `WARN` 2, `INFO` 1, and 0 for `DEBUG`
/// and for every text that names no level.
pub open spec fn level_rank(level: Seq<char>) -> int {
    if level == "ERROR"@ {
        3
    } else if level == "WARN"@ {
        2
    } else if level == "INFO"@ {
        1
    } else {
        0
    }
}

/// The complaint about a level that is none of the four.
pub open spec fn level_complaint(level: Seq<char>) -> Seq<char> {
    "Invalid log level '"@ + level + "'. Must be one of: ERROR, WARN, INFO, DEBUG"@
}

/// The complaint about an entry, if there is one. The rules are tried in
/// this order and the first that fails decides: the timestamp is not empty;
/// the level is one of the four; a duration, where there is one, is not
/// negative; a status code, where there is one, lies from 100 to 599.
pub open spec fn entry_flaw(e: LogEntryView) -> Option<Seq<char>> {
    if e.timestamp.len() == 0 {
        Some("Missing or empty timestamp"@)
    } else if !level_is_known(e.level) {
        Some(level_complaint(e.level))
    } else if e.duration_ms is Some && e.duration_ms->0 < 0 {
        Some("Invalid duration_ms "@ + quantity_text(e.duration_ms->0 as int) + ". Must be >= 0"@)
    } else if e.status_code is Some && !(100 <= e.status_code->0 <= 599) {
        Some("Invalid status_code "@ + integer_text(e.status_code->0 as int) + ". Must be 100-599"@)
    } else {
        None
    }
}

/// The entry meets every rule.
pub open spec fn entry_is_valid(e: LogEntryView) -> bool {
    entry_flaw(e) is None
}

/// Tells whether a level is one of the four that an entry may carry.
pub fn is_known_level(level: &str) -> (known: bool)
    ensures
        known == level_is_known(level@),
{
    same_text(level, "ERROR") || same_text(level, "WARN") || same_text(level, "INFO") || same_text(
        level,
        "DEBUG",
    )
}

/// The severity of a level.
pub fn rank_of_level(level: &str) -> (rank: u8)
    ensures
        rank == level_rank(level@),
{
    if same_text(level, "ERROR") {
        3
    } else if same_text(level, "WARN") {
        2
    } else if same_text(level, "INFO") {
        1
    } else {
        0
    }
}

/// Writes the complaint about a level that is none of the four.
pub fn complain_of_level(level: &str) -> (message: String)
    ensures
        message@ == level_complaint(level@),
{
    let mut message = String::from_str("Invalid log level '");
    message.append(level);
    message.append("'. Must be one of: ERROR, WARN, INFO, DEBUG");
    message
}

/// Checks one entry and gives the complaint of the first rule that fails.
pub fn check_entry(entry: &LogEntry) -> (complaint: Option<String>)
    ensures
        complaint is Some == entry_flaw(entry@) is Some,
        complaint is Some ==> entry_flaw(entry@) == Some(complaint->0@),
{
    if entry.timestamp.as_str().is_empty() {
        return Some(String::from_str("Missing or empty timestamp"));
    }
    if !is_known_level(entry.level.as_str()) {
        return Some(complain_of_level(entry.level.as_str()));
    }
    if let Some(duration) = entry.duration_ms {
        if duration < 0 {
            let mut message = String::from_str("Invalid duration_ms ");
            push_quantity(&mut message, duration);
            message.append(". Must be >= 0");
            return Some(message);
        }
    }
    if let Some(status) = entry.status_code {
        if status < 100 || status > 599 {
            let mut message = String::from_str("Invalid status_code ");
            push_integer(&mut message, status as i64);
            message.append(". Must be 100-599");
            return Some(message);
        }
    }
    None
}

/// Checks the entry that stands on the line with the number `line_number`.
/// The error carries that number and the complaint of the first rule that
/// fails.
pub fn validate_entry(entry: &LogEntry, line_number: usize) -> (outcome: Result<
    (),
    ValidationError,
>)
    ensures
        outcome is Ok <==> entry_is_valid(entry@),
        outcome is Err ==> outcome->Err_0.line_number == line_number && entry_flaw(entry@) == Some(
            outcome->Err_0.message@,
        ),
{
    match check_entry(entry) {
        Some(message) => Err(ValidationError { line_number, message }),
        None => Ok(()),
    }
}

/// Checking an entry depends on nothing but what the entry holds: entries
/// that hold the same get the same verdict and the same complaint.
pub proof fn lemma_entry_validation_is_a_function(a: LogEntry, b: LogEntry)
    requires
        a@ == b@,
    ensures
        entry_is_valid(a@) == entry_is_valid(b@),
        entry_flaw(a@) == entry_flaw(b@),
{
}

} // verus!
