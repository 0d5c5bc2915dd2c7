//! Decisions of the RPC session protocol: when the container is ready for
//! service channels, how a connection-metadata response is classified,
//! and what the per-file history task does with what the channel reports.

use crate::strutil::str_eq;
use vstd::prelude::*;

verus! {

/// The boot-status stage that marks the container ready: only after it
/// has been seen may service channels be opened.
pub const BOOT_STAGE_COMPLETE: i32 = 4;

/// Whether a boot-status message reports the container ready.
pub fn boot_complete(stage: i32) -> (r: bool)
    ensures
        r == (stage == BOOT_STAGE_COMPLETE),
{
    stage == BOOT_STAGE_COMPLETE
}

/// What to do with a connection-metadata response.
#[derive(Debug, Clone, Copy, PartialEq, Eq, Structural)]
pub enum MetadataClass {
    /// Status 200: the body carries the connection metadata.
    UseBody,
    /// A transient failure; fetch again after a backoff.
    Retry,
    /// Give up on this connection attempt.
    Abort,
}

/// The retriable-body marker the platform sends while a repl is moving.
pub open spec fn spec_temporarily_unavailable() -> Seq<char> {
    "Repl temporarily unavailable"@
}

/// How a metadata response must be treated.
pub open spec fn spec_classify_metadata(status: u16, body: Option<Seq<char>>) -> MetadataClass {
    if status == 200 {
        MetadataClass::UseBody
    } else if status >= 500 {
        MetadataClass::Retry
    } else if body matches Some(b) && b == spec_temporarily_unavailable() {
        MetadataClass::Retry
    } else {
        MetadataClass::Abort
    }
}

/// Classifies one connection-metadata response: 200 carries the
/// metadata, a server error retries, the temporarily-unavailable marker
/// retries, and anything else aborts. `body` is the response text, where
/// it could be read.
pub fn classify_metadata(status: u16, body: Option<&str>) -> (r: MetadataClass)
    ensures
        r == spec_classify_metadata(
            status,
            match body {
                Some(b) => Some(b@),
                None => None,
            },
        ),
{
    if status == 200 {
        MetadataClass::UseBody
    } else if status >= 500 {
        MetadataClass::Retry
    } else {
        match body {
            Some(b) => if str_eq(b, "Repl temporarily unavailable") {
                MetadataClass::Retry
            } else {
                MetadataClass::Abort
            },
            None => MetadataClass::Abort,
        }
    }
}

/// True when the path lies under the repository metadata directory, whose
/// files carry no edit history.
pub open spec fn spec_under_git_dir(path: Seq<char>) -> bool {
    path.len() >= 5 && path.take(5) == ".git/"@
}

/// Whether the history task skips this file: everything under `.git/`
/// has no OT history to fetch.
pub fn history_skips_file(path: &str) -> (r: bool)
    ensures
        r == spec_under_git_dir(path@),
{
    let n = path.unicode_len();
    if n < 5 {
        return false;
    }
    let head = path.substring_char(0, 5);
    let r = str_eq(head, ".git/");
    proof {
        assert(head@ =~= path@.take(5));
    }
    r
}

/// The file version the history task works from: the version the status
/// message carried if the channel was already linked to the file, else
/// the version the explicit link request returned.
pub fn resolve_version(linked: bool, status_version: u32, link_version: u32) -> (r: u32)
    ensures
        r == if linked {
            status_version
        } else {
            link_version
        },
{
    if linked {
        status_version
    } else {
        link_version
    }
}

/// The version range to fetch: nothing at version zero (the file has no
/// history), else everything from the first version on.
pub fn history_fetch_range(version: u32) -> (r: Option<(u32, u32)>)
    ensures
        version == 0 ==> r is None,
        version > 0 ==> r == Some((1u32, version)),
{
    if version == 0 {
        None
    } else {
        Some((1, version))
    }
}


/// The seconds to wait before retry number `retry_count` of a rate
/// limited enumeration request: doubling each time.
pub fn retry_backoff_secs(retry_count: u32) -> (r: u64)
    requires
        retry_count <= 5,
    ensures
        r == vstd::arithmetic::power2::pow2(retry_count as nat),
{
    proof {
        vstd::arithmetic::power2::lemma2_to64();
    }
    match retry_count {
        0 => 1,
        1 => 2,
        2 => 4,
        3 => 8,
        4 => 16,
        _ => 32,
    }
}

} // verus!
