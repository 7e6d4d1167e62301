use lean_ctx::savings::{
    batch_candidates, is_savings_file_name, summarize, SavingsBatch, SavingsRollup,
};

fn batch(signer: &str, net: u64, created_at: &str) -> SavingsBatch {
    SavingsBatch {
        agent_id: format!("agent-{signer}"),
        created_at: created_at.to_string(),
        signer_public_key: Some(signer.to_string()),
        saved_tokens: net,
        net_saved_tokens: net,
        by_model: vec![("opus-model".to_string(), net)],
    }
}

fn line(signer: &str, net: u64, created_at: &str) -> String {
    format!("{{\"signer\":\"{signer}\",\"net\":{net},\"created_at\":\"{created_at}\"}}")
}

/// The latest batch of a signer file: the first candidate that parses.
fn latest(content: &str) -> Option<SavingsBatch> {
    batch_candidates(content).into_iter().find_map(|l| {
        let v: serde_json::Value = serde_json::from_str(&l).ok()?;
        Some(batch(
            v["signer"].as_str()?,
            v["net"].as_u64()?,
            v["created_at"].as_str()?,
        ))
    })
}

fn rollup_of(files: &[(&str, String)]) -> SavingsRollup {
    let batches: Vec<SavingsBatch> = files
        .iter()
        .filter(|(name, _)| is_savings_file_name(name))
        .filter_map(|(_, content)| latest(content))
        .collect();
    summarize(&batches)
}

#[test]
fn latest_batch_per_signer_is_not_double_counted() {
    let a = format!(
        "{}\n{}\n",
        line("aaaaaaaaaaaaaaaa", 1000, "2026-06-01T00:00:00Z"),
        line("aaaaaaaaaaaaaaaa", 3000, "2026-06-08T00:00:00Z")
    );
    let b = format!("{}\n", line("bbbbbbbbbbbbbbbb", 2000, "2026-06-07T00:00:00Z"));
    let s = rollup_of(&[
        ("savings_aaaaaaaaaaaaaaaa.jsonl", a),
        ("savings_bbbbbbbbbbbbbbbb.jsonl", b),
    ]);
    assert_eq!(s.member_count, 2);
    assert_eq!(s.net_saved_tokens, 5000);
    assert_eq!(s.by_member[0].net_saved_tokens, 3000);
    assert_eq!(s.by_member[1].net_saved_tokens, 2000);
    assert_eq!(s.by_model[0].model, "opus-model");
    assert_eq!(s.by_model[0].saved_tokens, 5000);
}

#[test]
fn empty_or_missing_store_is_zeroed() {
    let s = summarize(&vec![]);
    assert_eq!(s.member_count, 0);
    assert_eq!(s.net_saved_tokens, 0);
    assert!(s.by_member.is_empty());
    assert!(s.by_model.is_empty());
}

#[test]
fn non_savings_files_are_ignored() {
    let s = rollup_of(&[
        ("audit.jsonl", "{\"not\":\"a batch\"}\n".to_string()),
        ("README.md", "hello\n".to_string()),
        (
            "savings_cccccccccccccccc.jsonl",
            format!("{}\n", line("cccccccccccccccc", 700, "2026-06-08T00:00:00Z")),
        ),
    ]);
    assert_eq!(s.member_count, 1);
    assert_eq!(s.net_saved_tokens, 700);
}

#[test]
fn store_file_names() {
    assert!(is_savings_file_name("savings_ab.jsonl"));
    assert!(is_savings_file_name("savings_ab.JSONL"));
    assert!(is_savings_file_name("savings_.x.jsonl"));
    assert!(!is_savings_file_name("savings_ab.jsonl.bak"));
    assert!(!is_savings_file_name("savings_ab"));
    assert!(!is_savings_file_name("audit.jsonl"));
    assert!(!is_savings_file_name("Savings_ab.jsonl"));
}

#[test]
fn candidates_are_trimmed_nonblank_lines_latest_first() {
    assert_eq!(
        batch_candidates("one\n\n  two \r\n\t\nthree"),
        vec!["three", "two", "one"]
    );
    assert_eq!(batch_candidates(""), Vec::<String>::new());
    assert_eq!(batch_candidates("\n \n"), Vec::<String>::new());
    assert_eq!(batch_candidates("x\n"), vec!["x"]);
}

#[test]
fn unparseable_latest_line_falls_back_to_the_previous_batch() {
    let content = format!(
        "{}\nnot json\n",
        line("dddddddddddddddd", 400, "2026-06-01T00:00:00Z")
    );
    let b = latest(&content).unwrap();
    assert_eq!(b.net_saved_tokens, 400);
}

#[test]
fn members_are_ranked_and_signers_truncated() {
    let mut b1 = batch("0123456789abcdef0123", 10, "t1");
    b1.by_model = vec![("m1".to_string(), 5), ("m2".to_string(), 5)];
    let mut b2 = batch("short", 30, "t2");
    b2.by_model = vec![("m2".to_string(), 7)];
    let mut b3 = batch("x", 10, "t3");
    b3.signer_public_key = None;
    b3.by_model = vec![];
    let s = summarize(&vec![b1, b2, b3]);
    assert_eq!(s.member_count, 3);
    assert_eq!(s.saved_tokens, 50);
    let order: Vec<usize> = s.by_member.iter().map(|m| m.batch).collect();
    assert_eq!(order, vec![1, 0, 2]);
    assert_eq!(s.by_member[1].signer, "0123456789abcdef");
    assert_eq!(s.by_member[0].signer, "short");
    assert_eq!(s.by_member[2].signer, "unknown");
    assert_eq!(s.by_member[0].last_reported, "t2");
    let models: Vec<(String, u64)> = s
        .by_model
        .iter()
        .map(|m| (m.model.clone(), m.saved_tokens))
        .collect();
    assert_eq!(models, vec![("m2".to_string(), 12), ("m1".to_string(), 5)]);
}

#[test]
fn totals_saturate() {
    let s = summarize(&vec![batch("a", u64::MAX - 1, "t"), batch("b", 5, "t")]);
    assert_eq!(s.net_saved_tokens, u64::MAX);
    assert_eq!(s.by_model[0].saved_tokens, u64::MAX);
}

#[test]
fn model_breakdown_keeps_the_top_ten() {
    let mut b = batch("a", 1, "t");
    b.by_model = (0..12u64).map(|k| (format!("m{k}"), k)).collect();
    let s = summarize(&vec![b]);
    assert_eq!(s.by_model.len(), 10);
    assert_eq!(s.by_model[0].model, "m11");
    assert_eq!(s.by_model[9].model, "m2");
}
