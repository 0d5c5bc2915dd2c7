use replit_takeout::{
    gitignore_text, greet_email_payload, greet_test_email, normalize_ts,
    partial_success_email_payload, partial_success_test_email, plan_commits,
    success_email_payload, success_test_email, test_test_email,
};

#[test]
fn commit_count_is_buckets_plus_two() {
    let plan = plan_commits(&vec![3600], 0, false);
    assert_eq!(plan.snapshot_times, vec![3600]);
    assert_eq!(2 + plan.snapshot_times.len(), 3);
    assert_eq!(plan.final_time, 3600);
    assert!(!plan.use_side_branch);
}

#[test]
fn buckets_are_sorted_for_committing() {
    let plan = plan_commits(&vec![7200, 0, 3600], 100, true);
    assert_eq!(plan.snapshot_times, vec![0, 3600, 7200]);
    assert_eq!(plan.final_time, 7200);
    assert!(plan.use_side_branch);
}

#[test]
fn no_buckets_finalize_at_the_origin() {
    let plan = plan_commits(&Vec::new(), 4242, false);
    assert!(plan.snapshot_times.is_empty());
    assert_eq!(plan.final_time, 4242);
    assert_eq!(plan.initial_message(), "Initial Commit");
    assert_eq!(plan.snapshot_message(), "History snapshot");
    assert_eq!(plan.final_message(), "Final history snapshot");
    assert_eq!(plan.side_branch_name(), "replit-takeout-history");
    assert_eq!(plan.committer_name(), "Replit Takeout");
}

#[test]
fn gitignore_lines_cover_the_special_files() {
    assert_eq!(
        gitignore_text(false),
        "# Replit Takeout Special Files\n.replit-takeout-otbackup/\n.env"
    );
    assert_eq!(
        gitignore_text(true),
        "\n\n# Replit Takeout Special Files\n.replit-takeout-otbackup/\n.env"
    );
}

#[test]
fn scenario_single_insert_buckets_and_commits() {
    // One packet at ts 1000 with origin 0 gives one bucket, so the git
    // log plan has the initial commit, one snapshot, and the final one.
    let bucket = normalize_ts(1000, 0);
    let plan = plan_commits(&vec![bucket], 0, false);
    assert_eq!(plan.snapshot_times, vec![bucket]);
    assert_eq!(2 + plan.snapshot_times.len(), 3);
}

#[test]
fn greet_payload_is_json_with_escaped_fields() {
    let p = greet_email_payload("a@b.c", "user \"quoted\"");
    let v: serde_json::Value = serde_json::from_str(&p).unwrap();
    assert_eq!(v["transactionalId"], "cm0pegyzg01xquhjkf7r3fh85");
    assert_eq!(v["email"], "a@b.c");
    assert_eq!(v["dataVariables"]["replitUsername"], "user \"quoted\"");
}

#[test]
fn success_payload_carries_count_and_link() {
    let p = success_email_payload("a@b.c", "u", 7, "https://example.org/x.zip");
    let v: serde_json::Value = serde_json::from_str(&p).unwrap();
    assert_eq!(v["transactionalId"], "cm0pg42wh002u3ml1d4et51zp");
    assert_eq!(v["dataVariables"]["replCountTotal"], 7);
    assert_eq!(
        v["dataVariables"]["link_export_download"],
        "https://example.org/x.zip"
    );
}

#[test]
fn partial_payload_counts_and_links_failures() {
    let failed = vec!["id1".to_string(), "id2".to_string()];
    let p = partial_success_email_payload("a@b.c", "u", 5, &failed, "https://d/l");
    let v: serde_json::Value = serde_json::from_str(&p).unwrap();
    assert_eq!(v["transactionalId"], "cm0pgg7bw002gp8uk5ufqfvov");
    assert_eq!(v["dataVariables"]["replCountSuccess"], 3);
    assert_eq!(v["dataVariables"]["replCountTotal"], 5);
    assert_eq!(
        v["dataVariables"]["failedReplLinks"],
        "https://replit.com/replid/id1\nhttps://replit.com/replid/id2"
    );
}

#[test]
fn preview_pages_show_their_sample_values() {
    assert!(test_test_email().contains("Hi there, tester!"));
    assert!(test_test_email().contains("malted"));
    assert!(greet_test_email().contains("TestUser"));
    assert!(success_test_email().contains("22"));
    assert!(success_test_email().contains("https://google.com"));
    let partial = partial_success_test_email();
    assert!(partial.contains("20 of 22"));
    assert!(partial.contains("https://replit.com/replid/one"));
    assert!(partial.contains("https://replit.com/replid/two"));
}

#[test]
fn no_repls_and_failure_payloads_are_json() {
    let p = replit_takeout::no_repls_email_payload("a@b.c", "u");
    let v: serde_json::Value = serde_json::from_str(&p).unwrap();
    assert_eq!(v["transactionalId"], "cm0pgqger00bbo6ie7wyia98y");
    assert_eq!(v["dataVariables"]["replitUsername"], "u");

    let p2 = replit_takeout::failure_email_payload("a@b.c", "u2");
    let v2: serde_json::Value = serde_json::from_str(&p2).unwrap();
    assert_eq!(v2["transactionalId"], "cm0pgxpy303hf53mv955aoqls");
    assert_eq!(v2["dataVariables"]["replitUsername"], "u2");
}
