use replit_takeout::{
    final_user_status, boot_complete, chunk_count, chunk_size_at, classify_metadata, history_fetch_range,
    history_skips_file, join_ids, repl_step, resolve_version, validate_token, DownloadStatus,
    ExportProgress, MetadataClass, ProcessState, ReplOutcome, ReplPhase, CHUNK_SIZE,
};

#[test]
fn fallback_runs_only_after_rpc_failure() {
    assert_eq!(repl_step(ReplPhase::Start, true), ReplPhase::Crosis);
    assert_eq!(repl_step(ReplPhase::Start, false), ReplPhase::Crosis);
    assert_eq!(
        repl_step(ReplPhase::Crosis, true),
        ReplPhase::Zipped(DownloadStatus::Full)
    );
    assert_eq!(repl_step(ReplPhase::Crosis, false), ReplPhase::Fallback);
    assert_eq!(
        repl_step(ReplPhase::Fallback, true),
        ReplPhase::Zipped(DownloadStatus::NoHistory)
    );
    assert_eq!(repl_step(ReplPhase::Fallback, false), ReplPhase::Failed);
    // Terminal phases stay put.
    assert_eq!(repl_step(ReplPhase::Failed, true), ReplPhase::Failed);
}

#[test]
fn progress_counters_track_outcomes() {
    let mut p = ExportProgress::new(4);
    assert!(!p.completed);
    assert_eq!(p.repl_count, 4);
    p.record(ReplOutcome::Full);
    p.record(ReplOutcome::NoHistory);
    p.record(ReplOutcome::TimedOut);
    assert_eq!(p.successful, 1);
    assert_eq!(p.failed.no_history, 1);
    assert_eq!(p.failed.timed_out, 1);
    assert_eq!(p.failed.failed, 0);
    assert_eq!(p.failed.total(), 2);
    assert!(p.deliverable());
    assert!(!p.full_success());
}

#[test]
fn empty_progress_is_not_deliverable() {
    let p = ExportProgress::new(0);
    assert!(!p.deliverable());
    assert!(p.full_success());
}

#[test]
fn progress_snapshot_is_real_json() {
    let mut p = ExportProgress::new(2);
    p.record(ReplOutcome::Full);
    p.completed = true;
    let text = replit_takeout::progress_json(&p);
    let v: serde_json::Value = serde_json::from_str(&text).unwrap();
    assert_eq!(v["completed"], true);
    assert_eq!(v["repl_count"], 2);
    assert_eq!(v["successful"], 1);
    assert_eq!(v["failed"]["timed_out"], 0);
}

#[test]
fn failed_ids_join_with_commas() {
    assert_eq!(join_ids(&vec![]), "");
    assert_eq!(join_ids(&vec!["a".to_string()]), "a");
    assert_eq!(
        join_ids(&vec!["a".to_string(), "b".to_string(), "c".to_string()]),
        "a,b,c"
    );
}

#[test]
fn chunk_layout_covers_the_file() {
    assert_eq!(chunk_count(0), 0);
    assert_eq!(chunk_count(1), 1);
    assert_eq!(chunk_count(CHUNK_SIZE), 1);
    assert_eq!(chunk_count(CHUNK_SIZE + 1), 2);
    assert_eq!(chunk_size_at(CHUNK_SIZE + 1, 0), CHUNK_SIZE);
    assert_eq!(chunk_size_at(CHUNK_SIZE + 1, 1), 1);
    assert_eq!(chunk_size_at(CHUNK_SIZE, 0), CHUNK_SIZE);
    let n = chunk_count(5 * CHUNK_SIZE + 17);
    let mut total = 0;
    for i in 0..n {
        total += chunk_size_at(5 * CHUNK_SIZE + 17, i);
    }
    assert_eq!(total, 5 * CHUNK_SIZE + 17);
}

#[test]
fn process_state_labels_match_the_queue_columns() {
    assert_eq!(ProcessState::default(), ProcessState::Registered);
    assert_eq!(ProcessState::Registered.label(), "Registered");
    assert_eq!(ProcessState::CollectingRepls.label(), "Collecting repls");
    assert_eq!(ProcessState::WaitingInR2.label(), "Waiting in R2");
    assert_eq!(ProcessState::R2LinkEmailSent.label(), "R2 link email sent");
    assert_eq!(
        ProcessState::PartiallyDownloadedRepls.label(),
        "Partially downloaded repls"
    );
    assert_eq!(ProcessState::TokenExpired.label(), "Token expired");
}

#[test]
fn session_tokens_need_three_parts_with_base64_middle() {
    assert!(validate_token("head.YWJj.tail"));
    assert!(validate_token(".YWJj."));
    assert!(!validate_token("no-dots-at-all"));
    assert!(!validate_token("one.dot"));
    assert!(!validate_token("a.b.c.d"));
    assert!(!validate_token("a.!!!.c"));
    assert!(!validate_token("a.YWJj=.c"));
}

#[test]
fn metadata_responses_classify_as_designed() {
    assert_eq!(classify_metadata(200, None), MetadataClass::UseBody);
    assert_eq!(classify_metadata(500, None), MetadataClass::Retry);
    assert_eq!(classify_metadata(503, Some("oops")), MetadataClass::Retry);
    assert_eq!(
        classify_metadata(404, Some("Repl temporarily unavailable")),
        MetadataClass::Retry
    );
    assert_eq!(classify_metadata(404, Some("gone")), MetadataClass::Abort);
    assert_eq!(classify_metadata(404, None), MetadataClass::Abort);
}

#[test]
fn boot_and_history_decisions() {
    assert!(boot_complete(4));
    assert!(!boot_complete(0));
    assert!(history_skips_file(".git/config"));
    assert!(history_skips_file(".git/objects/ab"));
    assert!(!history_skips_file(".gitignore"));
    assert!(!history_skips_file("src/main.rs"));
    assert_eq!(history_fetch_range(0), None);
    assert_eq!(history_fetch_range(7), Some((1, 7)));
    assert_eq!(resolve_version(true, 5, 9), 5);
    assert_eq!(resolve_version(false, 5, 9), 9);
}

#[test]
fn user_agents_have_the_assembled_shape() {
    let ua = replit_takeout::random_user_agent();
    assert!(ua.ends_with(" Safari/537.36"));
    assert!(ua.contains(" ("));
    assert!(ua.contains("; "));
}

#[test]
fn retry_backoff_doubles() {
    assert_eq!(replit_takeout::retry_backoff_secs(0), 1);
    assert_eq!(replit_takeout::retry_backoff_secs(3), 8);
    assert_eq!(replit_takeout::retry_backoff_secs(5), 32);
}

#[test]
fn final_status_follows_delivery_and_email() {
    let mut p = ExportProgress::new(2);
    assert_eq!(final_user_status(&p, true), ProcessState::Errored);
    p.record(ReplOutcome::NoHistory);
    assert_eq!(final_user_status(&p, true), ProcessState::R2LinkEmailSent);
    assert_eq!(final_user_status(&p, false), ProcessState::WaitingInR2);
}
