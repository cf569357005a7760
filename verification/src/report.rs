//! The lines that a run writes: one per outcome, and one per code in the
//! summary. The time of day is written by the `chrono` crate.

use vstd::prelude::*;
use chrono::DateTime;
use crate::aggregate::CodeCount;
use crate::outcome::Outcome;
use crate::text::{decimal, decimal_text};

verus! {

/// The RFC 3339 text of the instant `secs` seconds and `nanos` nanoseconds
/// after the start of 1970 in UTC, as `chrono` writes it; `None` where
/// `chrono::DateTime::from_timestamp` has no such instant.
pub uninterp spec fn rfc3339(secs: i64, nanos: u32) -> Option<Seq<char>>;

/// Calls `chrono::DateTime::from_timestamp` and, on the instant it gives,
/// `DateTime::to_rfc3339`. The result is taken as the meaning of `rfc3339`;
/// nothing more is claimed of it.
#[verifier::external_body]
fn rfc3339_text(secs: i64, nanos: u32) -> (text: Option<String>)
    ensures
        rfc3339(secs, nanos) == match text {
            Some(t) => Some(t@),
            None => None,
        },
{
    DateTime::from_timestamp(secs, nanos).map(|instant| instant.to_rfc3339())
}

/// The body length that a line shows: zero where no body was read.
pub open spec fn shown_length(outcome: Outcome) -> u64 {
    match outcome.body_length {
        Some(length) => length,
        None => 0,
    }
}

/// The line of `outcome`: its URL, its code, the time at which the request
/// started, the milliseconds it took and the length of its body, with
/// commas between them.
pub open spec fn log_line_of(outcome: Outcome, started: Seq<char>) -> Seq<char> {
    outcome.url@ + seq![','] + outcome.code@ + seq![','] + started + seq![','] + decimal(
        outcome.elapsed_millis as nat,
    ) + seq![','] + decimal(shown_length(outcome) as nat)
}

/// The line of a code in the summary: the code, a colon and a space, and
/// its count.
pub open spec fn count_line_of(entry: CodeCount) -> Seq<char> {
    entry.code@ + seq![':', ' '] + decimal(entry.count as nat)
}

/// The line of `outcome`, for a request that started at the given time.
pub fn log_line_at(outcome: &Outcome, started: &str) -> (line: String)
    ensures
        line@ == log_line_of(*outcome, started@),
{
    proof {
        reveal_strlit(",");
        assert(","@ =~= seq![',']);
    }
    let length: u64 = match outcome.body_length {
        Some(length) => length,
        None => 0,
    };
    let mut line = outcome.url.clone();
    line.append(",");
    line.append(outcome.code.as_str());
    line.append(",");
    line.append(started);
    line.append(",");
    line.append(decimal_text(outcome.elapsed_millis).as_str());
    line.append(",");
    line.append(decimal_text(length).as_str());
    line
}

/// The line of `outcome`, for a request that started `started_secs`
/// seconds and `started_nanos` nanoseconds after the start of 1970 in UTC.
/// `None` where that is no instant that can be written.
pub fn log_line(outcome: &Outcome, started_secs: i64, started_nanos: u32) -> (line: Option<String>)
    ensures
        line is None <==> rfc3339(started_secs, started_nanos) is None,
        line matches Some(l) ==> rfc3339(started_secs, started_nanos) matches Some(started)
            && l@ == log_line_of(*outcome, started),
{
    match rfc3339_text(started_secs, started_nanos) {
        Some(started) => Some(log_line_at(outcome, started.as_str())),
        None => None,
    }
}

/// The line of a code in the summary.
pub fn count_line(entry: &CodeCount) -> (line: String)
    ensures
        line@ == count_line_of(*entry),
{
    proof {
        reveal_strlit(": ");
        assert(": "@ =~= seq![':', ' ']);
    }
    let mut line = entry.code.clone();
    line.append(": ");
    line.append(decimal_text(entry.count as u64).as_str());
    line
}

/// The lines of the codes in the summary, in the order of `ranked`.
pub fn count_lines(ranked: &Vec<CodeCount>) -> (lines: Vec<String>)
    ensures
        lines.len() == ranked.len(),
        forall|i: int| 0 <= i < ranked.len() ==> (#[trigger] lines[i])@ == count_line_of(ranked[i]),
{
    let mut lines: Vec<String> = Vec::new();
    let mut i: usize = 0;
    while i < ranked.len()
        invariant
            i <= ranked.len(),
            lines.len() == i,
            forall|k: int| 0 <= k < i ==> (#[trigger] lines[k])@ == count_line_of(ranked[k]),
        decreases ranked.len() - i,
    {
        lines.push(count_line(&ranked[i]));
        i = i + 1;
    }
    lines
}

} // verus!
