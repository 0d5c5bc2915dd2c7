//! Verified core of a workspace exporter: it replays operational-transform
//! edit logs into text snapshots, buckets them by timestamp, plans a git
//! history from the buckets, and drives the surrounding download protocol
//! as a collection of pure state machines.

use vstd::prelude::*;

pub mod agent;
pub mod chunks;
pub mod download;
pub mod emailtext;
pub mod gitplan;
pub mod history;
pub mod ignore;
pub mod jsonlog;
pub mod jsonstr;
pub mod jsontext;
pub mod ot;
pub mod protocol;
pub mod status;
pub mod strutil;
pub mod token;
pub mod timefmt;
pub mod timestamp;
pub mod walker;

pub use agent::random_user_agent;
pub use chunks::{chunk_count, chunk_size_at, CHUNK_SIZE};
pub use download::{join_ids, repl_step, DownloadLocations, DownloadStatus, ReplInfo, ReplPhase};
pub use emailtext::{failure_email_payload, greet_email_payload, greet_test_email, no_repls_email_payload, partial_success_email_payload, partial_success_test_email, success_email_payload, success_test_email, test_test_email};
pub use gitplan::{gitignore_text, plan_commits, GitPlan};
pub use history::{history_log_entries, replay_history, Snapshot};
pub use jsonlog::{parse_log, serialize_log, OtLogEntry};
pub use ot::{OtError, OtOp, OtPacket, TextBuffer};
pub use ignore::{is_ignored_name, path_ignored};
pub use protocol::{retry_backoff_secs, boot_complete, classify_metadata, history_fetch_range, history_skips_file, resolve_version, MetadataClass};
pub use status::{final_user_status, progress_json, AggregateStats, ExportProgress, ExportProgressFailures, ProcessState, QuickUser, Repl, ReplOutcome};
pub use timestamp::normalize_ts;
pub use token::validate_token;
pub use walker::{DirEntry, EntryKind, WalkAction, Walker};
