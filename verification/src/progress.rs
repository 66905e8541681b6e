//! Reporting the progress of a long scan on a placeholder message, spaced
//! out so that not every batch of messages brings an edit.

use crate::session::SessionEnd;
use crate::text::{decimal, decimal_nat, push_decimal, push_decimal_nat};
use vstd::prelude::*;
use vstd::string::StringExecFns;

verus! {

/// The least number of seconds between two edits of the placeholder.
pub const PROGRESS_INTERVAL_SECS: u64 = 10;

/// The number of seconds after which the closing notice is deleted.
pub const NOTICE_LIFETIME_SECS: u64 = 10;

/// When the scan started and when the placeholder was last edited, in
/// seconds since the Unix epoch.
#[derive(Clone, Copy, Debug, PartialEq, Eq, Structural)]
pub struct ProgressReporter {
    pub started_at: u64,
    pub last_update: u64,
}

/// The figures of a progress report.
#[derive(Clone, Copy, Debug, PartialEq, Eq, Structural)]
pub struct RescanProgress {
    /// The count read last.
    pub current: i64,
    /// The count read first, which stands for the total.
    pub total: i64,
    /// The counts found to break the sequence.
    pub invalid: u64,
}

/// How a rescan ended, as far as the closing notice tells.
#[derive(Clone, Copy, Debug, PartialEq, Eq, Structural)]
pub enum Closing {
    Done,
    Interrupted,
}

/// The closing notice for the end of a session: success where it completed,
/// an interruption where it was cancelled or failed.
pub open spec fn closing_of(end: SessionEnd) -> Closing {
    match end {
        SessionEnd::Completed => Closing::Done,
        _ => Closing::Interrupted,
    }
}

/// The closing notice for the end of a session.
pub fn closing_for(end: SessionEnd) -> (closing: Closing)
    ensures
        closing == closing_of(end),
{
    match end {
        SessionEnd::Completed => Closing::Done,
        _ => Closing::Interrupted,
    }
}

/// Whether an edit is due at `now`: the interval has passed since the last.
pub open spec fn is_due_at(r: ProgressReporter, now: u64) -> bool {
    now - r.last_update >= PROGRESS_INTERVAL_SECS
}

/// An instant in the platform's markup for relative times.
pub open spec fn relative_time(unix_seconds: u64) -> Seq<char> {
    "<t:"@ + decimal_nat(unix_seconds as nat) + ":R>"@
}

/// The diagnostic line, which is shown only where a count was invalid.
pub open spec fn invalid_note(invalid: u64) -> Seq<char> {
    if invalid > 0 {
        "\nInvalid Counts Detected: `"@ + decimal_nat(invalid as nat) + "`"@
    } else {
        Seq::empty()
    }
}

/// The text of a progress report.
pub open spec fn progress_text_spec(p: RescanProgress, started_at: u64, now: u64) -> Seq<char> {
    "\u{1F504} Relog in progress...\n\u{1F4CA} Read Counts Left: `"@ + decimal(p.current as int)
        + "/"@ + decimal(p.total as int) + "`"@ + invalid_note(p.invalid) + "\n-# Started "@
        + relative_time(started_at) + "\n-# Last Update "@ + relative_time(now)
}

/// The text of the placeholder before the first report.
pub open spec fn starting_text_spec() -> Seq<char> {
    "\u{1F504} Relog in progress... this might take a while!"@
}

/// The text of the closing notice.
pub open spec fn closing_text_spec(closing: Closing) -> Seq<char> {
    match closing {
        Closing::Done =>
            "\u{2705} Relog Done!\n-# This message will delete automatically in 10 seconds"@,
        Closing::Interrupted =>
            "\u{2757}Relog Session Interrupted!\n-# This message will delete automatically in 10 seconds"@,
    }
}

fn push_relative_time(out: &mut String, unix_seconds: u64)
    ensures
        final(out)@ == old(out)@ + relative_time(unix_seconds),
{
    let ghost start = out@;
    out.append("<t:");
    push_decimal_nat(out, unix_seconds as u128);
    out.append(":R>");
    proof {
        assert(out@ =~= start + relative_time(unix_seconds));
    }
}

impl ProgressReporter {
    /// A reporter for a scan that starts at `now`, when the placeholder is
    /// created.
    pub fn begin(now: u64) -> (r: ProgressReporter)
        ensures
            r.started_at == now,
            r.last_update == now,
    {
        ProgressReporter { started_at: now, last_update: now }
    }

    /// Whether the placeholder is to be edited at `now`.
    pub fn is_due(&self, now: u64) -> (b: bool)
        ensures
            b == is_due_at(*self, now),
    {
        now >= self.last_update && now - self.last_update >= PROGRESS_INTERVAL_SECS
    }

    /// Renders a report if one is due at `now`, and notes the edit.
    pub fn report(&mut self, progress: RescanProgress, now: u64) -> (text: Option<String>)
        ensures
            final(self).started_at == old(self).started_at,
            match text {
                Some(t) => is_due_at(*old(self), now) && final(self).last_update == now && t@
                    == progress_text_spec(progress, old(self).started_at, now),
                None => !is_due_at(*old(self), now) && *final(self) == *old(self),
            },
    {
        if self.is_due(now) {
            self.last_update = now;
            Some(progress_text(progress, self.started_at, now))
        } else {
            None
        }
    }
}

/// Renders a progress report.
pub fn progress_text(progress: RescanProgress, started_at: u64, now: u64) -> (text: String)
    ensures
        text@ == progress_text_spec(progress, started_at, now),
{
    let mut out = String::from_str(
        "\u{1F504} Relog in progress...\n\u{1F4CA} Read Counts Left: `",
    );
    push_decimal(&mut out, progress.current as i128);
    out.append("/");
    push_decimal(&mut out, progress.total as i128);
    out.append("`");
    if progress.invalid > 0 {
        let ghost before = out@;
        out.append("\nInvalid Counts Detected: `");
        push_decimal_nat(&mut out, progress.invalid as u128);
        out.append("`");
        proof {
            assert(out@ =~= before + invalid_note(progress.invalid));
        }
    } else {
        proof {
            assert(out@ =~= out@ + invalid_note(progress.invalid));
        }
    }
    out.append("\n-# Started ");
    push_relative_time(&mut out, started_at);
    out.append("\n-# Last Update ");
    push_relative_time(&mut out, now);
    out
}

/// The text of the placeholder before the first report.
pub fn starting_text() -> (text: String)
    ensures
        text@ == starting_text_spec(),
{
    String::from_str("\u{1F504} Relog in progress... this might take a while!")
}

/// The text of the closing notice: success, or an interruption by a
/// cancellation or a failure.
pub fn closing_text(closing: Closing) -> (text: String)
    ensures
        text@ == closing_text_spec(closing),
{
    match closing {
        Closing::Done => String::from_str(
            "\u{2705} Relog Done!\n-# This message will delete automatically in 10 seconds",
        ),
        Closing::Interrupted => String::from_str(
            "\u{2757}Relog Session Interrupted!\n-# This message will delete automatically in 10 seconds",
        ),
    }
}

} // verus!
