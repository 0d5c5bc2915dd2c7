//! Job bookkeeping: the states a user's export moves through, per-user
//! progress counters, and the small records the collaborating services
//! hand the downloader.

use crate::jsontext::{push_u64, spec_dec_digits};
use vstd::prelude::*;

verus! {

/// Where one user's export stands in the processing queue.
#[derive(Debug, Clone, Copy, PartialEq, Eq, Structural)]
pub enum ProcessState {
    Registered,
    CollectingRepls,
    Collected,
    /// Uploaded, but the link email has not gone out yet.
    WaitingInR2,
    /// The download link has been emailed.
    R2LinkEmailSent,
    DownloadedRepls,
    /// Some repls failed, but the rest were delivered.
    PartiallyDownloadedRepls,
    Errored,
    /// The whole per-user download errored.
    ErroredMain,
    /// The upload to the object store errored.
    ErroredR2,
    /// The user had nothing to export.
    NoRepls,
    TokenExpired,
}

/// The label each state is stored and shown under.
pub open spec fn spec_state_label(s: ProcessState) -> Seq<char> {
    match s {
        ProcessState::Registered => "Registered"@,
        ProcessState::CollectingRepls => "Collecting repls"@,
        ProcessState::Collected => "Collected"@,
        ProcessState::WaitingInR2 => "Waiting in R2"@,
        ProcessState::R2LinkEmailSent => "R2 link email sent"@,
        ProcessState::DownloadedRepls => "Downloaded repls"@,
        ProcessState::PartiallyDownloadedRepls => "Partially downloaded repls"@,
        ProcessState::Errored => "Errored"@,
        ProcessState::ErroredMain => "ErroredMain"@,
        ProcessState::ErroredR2 => "ErroredR2"@,
        ProcessState::NoRepls => "NoRepls"@,
        ProcessState::TokenExpired => "Token expired"@,
    }
}

impl ProcessState {
    /// The state's display label.
    pub fn label(&self) -> (r: String)
        ensures
            r@ == spec_state_label(*self),
    {
        match self {
            ProcessState::Registered => "Registered".to_owned(),
            ProcessState::CollectingRepls => "Collecting repls".to_owned(),
            ProcessState::Collected => "Collected".to_owned(),
            ProcessState::WaitingInR2 => "Waiting in R2".to_owned(),
            ProcessState::R2LinkEmailSent => "R2 link email sent".to_owned(),
            ProcessState::DownloadedRepls => "Downloaded repls".to_owned(),
            ProcessState::PartiallyDownloadedRepls => "Partially downloaded repls".to_owned(),
            ProcessState::Errored => "Errored".to_owned(),
            ProcessState::ErroredMain => "ErroredMain".to_owned(),
            ProcessState::ErroredR2 => "ErroredR2".to_owned(),
            ProcessState::NoRepls => "NoRepls".to_owned(),
            ProcessState::TokenExpired => "Token expired".to_owned(),
        }
    }
}

impl Default for ProcessState {
    /// A fresh user starts registered.
    fn default() -> (r: Self)
        ensures
            r == ProcessState::Registered,
    {
        ProcessState::Registered
    }
}

/// Totals across all users, as the statistics service reports them.
#[derive(Debug, Clone, Copy, PartialEq, Eq, Structural, Default)]
pub struct AggregateStats {
    pub file_count: u64,
    pub repl_count: u64,
}

impl AggregateStats {
    /// Builds the totals from the two optional statistics fields, reading
    /// a missing field as zero.
    pub fn from_fields(file_count: Option<u64>, repl_count: Option<u64>) -> (r: AggregateStats)
        ensures
            r.file_count == file_count.unwrap_or(0),
            r.repl_count == repl_count.unwrap_or(0),
    {
        AggregateStats {
            file_count: match file_count {
                Some(n) => n,
                None => 0,
            },
            repl_count: match repl_count {
                Some(n) => n,
                None => 0,
            },
        }
    }
}

/// The signed-in user, as the profile query returns them.
#[derive(Debug, Clone, PartialEq, Eq)]
pub struct QuickUser {
    pub id: i64,
    pub username: String,
}

/// One repl of the user's tree, as the enumeration returns it.
#[derive(Debug, Clone, PartialEq, Eq, Hash)]
pub struct Repl {
    pub id: String,
    pub title: String,
    pub slug: String,
    pub private: bool,
    pub url: String,
    pub time_created: String,
}

/// How many repls failed, split by what went wrong.
#[derive(Debug, Clone, Copy, PartialEq, Eq, Structural, Default)]
pub struct ExportProgressFailures {
    /// Downloads that hit the per-repl timeout.
    pub timed_out: usize,
    /// Downloads that failed for any other reason.
    pub failed: usize,
    /// Repls delivered from the fallback zip, without history.
    pub no_history: usize,
}

impl ExportProgressFailures {
    /// All failures together.
    pub fn total(&self) -> (r: usize)
        requires
            self.timed_out + self.failed + self.no_history <= usize::MAX,
        ensures
            r == self.timed_out + self.failed + self.no_history,
    {
        self.timed_out + self.failed + self.no_history
    }
}

/// A user's progress through their export, published after every repl.
#[derive(Debug, Clone, Copy, PartialEq, Eq, Structural)]
pub struct ExportProgress {
    pub completed: bool,
    /// The total number of repls the user has.
    pub repl_count: usize,
    pub successful: usize,
    pub failed: ExportProgressFailures,
}

/// How one repl's download ended.
#[derive(Debug, Clone, Copy, PartialEq, Eq, Structural)]
pub enum ReplOutcome {
    /// The full download with history succeeded.
    Full,
    /// Only the fallback zip succeeded.
    NoHistory,
    /// The download hit the per-repl timeout.
    TimedOut,
    /// The download failed for another reason.
    Failed,
}

/// The counters after one more repl lands under its outcome's counter.
pub open spec fn spec_record(p: ExportProgress, outcome: ReplOutcome) -> ExportProgress {
    match outcome {
        ReplOutcome::Full => ExportProgress { successful: (p.successful + 1) as usize, ..p },
        ReplOutcome::NoHistory => ExportProgress {
            failed: ExportProgressFailures {
                no_history: (p.failed.no_history + 1) as usize,
                ..p.failed
            },
            ..p
        },
        ReplOutcome::TimedOut => ExportProgress {
            failed: ExportProgressFailures {
                timed_out: (p.failed.timed_out + 1) as usize,
                ..p.failed
            },
            ..p
        },
        ReplOutcome::Failed => ExportProgress {
            failed: ExportProgressFailures { failed: (p.failed.failed + 1) as usize, ..p.failed },
            ..p
        },
    }
}

impl ExportProgress {
    /// Fresh counters for a user with `repl_count` repls.
    pub fn new(repl_count: usize) -> (r: ExportProgress)
        ensures
            !r.completed,
            r.repl_count == repl_count,
            r.successful == 0,
            r.failed == (ExportProgressFailures { timed_out: 0, failed: 0, no_history: 0 }),
    {
        ExportProgress {
            completed: false,
            repl_count,
            successful: 0,
            failed: ExportProgressFailures { timed_out: 0, failed: 0, no_history: 0 },
        }
    }

    /// Counts one finished repl under the counter its outcome belongs to.
    pub fn record(&mut self, outcome: ReplOutcome)
        requires
            old(self).successful < usize::MAX,
            old(self).failed.timed_out < usize::MAX,
            old(self).failed.failed < usize::MAX,
            old(self).failed.no_history < usize::MAX,
        ensures
            *final(self) == spec_record(*old(self), outcome),
    {
        match outcome {
            ReplOutcome::Full => {
                self.successful = self.successful + 1;
            },
            ReplOutcome::NoHistory => {
                self.failed.no_history = self.failed.no_history + 1;
            },
            ReplOutcome::TimedOut => {
                self.failed.timed_out = self.failed.timed_out + 1;
            },
            ReplOutcome::Failed => {
                self.failed.failed = self.failed.failed + 1;
            },
        }
    }

    /// Whether the archive is worth delivering: at least one repl came
    /// through, with or without history.
    pub fn deliverable(&self) -> (r: bool)
        requires
            self.successful + self.failed.no_history <= usize::MAX,
        ensures
            r == (self.successful + self.failed.no_history > 0),
    {
        self.successful + self.failed.no_history > 0
    }

    /// Whether every repl came through: nothing failed outright and
    /// nothing timed out.
    pub fn full_success(&self) -> (r: bool)
        requires
            self.failed.failed + self.failed.timed_out <= usize::MAX,
        ensures
            r == (self.failed.failed + self.failed.timed_out == 0),
    {
        self.failed.failed + self.failed.timed_out == 0
    }
}


/// The progress counters as the published JSON snapshot lays them out.
pub open spec fn spec_progress_json(p: ExportProgress) -> Seq<char> {
    "{\"completed\":"@ + (if p.completed {
        "true"@
    } else {
        "false"@
    }) + ",\"repl_count\":"@ + spec_dec_digits(p.repl_count as nat) + ",\"successful\":"@
        + spec_dec_digits(p.successful as nat) + ",\"failed\":{\"timed_out\":"@
        + spec_dec_digits(p.failed.timed_out as nat) + ",\"failed\":"@ + spec_dec_digits(
        p.failed.failed as nat,
    ) + ",\"no_history\":"@ + spec_dec_digits(p.failed.no_history as nat) + "}}"@
}

/// Renders the published JSON snapshot of a user's progress.
pub fn progress_json(p: &ExportProgress) -> (r: String)
    ensures
        r@ == spec_progress_json(*p),
{
    let mut r = String::new();
    r.append("{\"completed\":");
    if p.completed {
        r.append("true");
    } else {
        r.append("false");
    }
    r.append(",\"repl_count\":");
    push_u64(&mut r, p.repl_count as u64);
    r.append(",\"successful\":");
    push_u64(&mut r, p.successful as u64);
    r.append(",\"failed\":{\"timed_out\":");
    push_u64(&mut r, p.failed.timed_out as u64);
    r.append(",\"failed\":");
    push_u64(&mut r, p.failed.failed as u64);
    r.append(",\"no_history\":");
    push_u64(&mut r, p.failed.no_history as u64);
    r.append("}}");
    proof {
        assert(r@ =~= spec_progress_json(*p));
    }
    r
}


/// The user's closing status: with anything delivered, the link email
/// decides between sent and still waiting; with nothing delivered the
/// export is errored.
pub fn final_user_status(progress: &ExportProgress, email_sent: bool) -> (r: ProcessState)
    requires
        progress.successful + progress.failed.no_history <= usize::MAX,
    ensures
        progress.successful + progress.failed.no_history > 0 && email_sent ==> r
            == ProcessState::R2LinkEmailSent,
        progress.successful + progress.failed.no_history > 0 && !email_sent ==> r
            == ProcessState::WaitingInR2,
        progress.successful + progress.failed.no_history == 0 ==> r == ProcessState::Errored,
{
    if progress.deliverable() {
        if email_sent {
            ProcessState::R2LinkEmailSent
        } else {
            ProcessState::WaitingInR2
        }
    } else {
        ProcessState::Errored
    }
}

} // verus!
