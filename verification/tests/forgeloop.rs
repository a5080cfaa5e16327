use composer::forgeloop_bridge::{
    cap_combined, combines_cleanly, gate_ended, gate_env, gate_timed_out, parse_evidence,
    read_verdict, script_path, valid_target,
};

const JOURNAL: &str = "{\"schema\":\"x\",\"decision\":\"fail\",\"intent\":\"earlier iteration\"}\n{\"schema\":\"x\",\"decision\":\"pass\",\"intent\":\"demo intent\"}\n";

#[test]
fn green_output_yields_copied_verdict() {
    let stdout =
        "GATE GREEN: 'demo-app' — evidence: runs/t1.jsonl (decision:pass, 0s fresh)\n";
    let path = parse_evidence("/fl", stdout).unwrap();
    assert_eq!(path, "/fl/runs/t1.jsonl");
    let out = gate_ended(Some(0), stdout, "", Some((&path, JOURNAL)), 65536);
    assert_eq!(out.exit_code, 0);
    let v = out.verdict.expect("verdict");
    assert_eq!(v.decision, "pass");
    assert_eq!(v.intent, "demo intent");
    assert_eq!(v.journal_path, "/fl/runs/t1.jsonl");
    assert_eq!(out.output, stdout);
}

#[test]
fn red_output_without_evidence_has_no_verdict() {
    let stderr = "GATE RED: 'bad-app' — no green journal\n";
    assert_eq!(parse_evidence("/fl", ""), None);
    let out = gate_ended(Some(1), "", stderr, None, 65536);
    assert_ne!(out.exit_code, 0);
    assert!(out.verdict.is_none());
    assert!(out.output.contains("GATE RED"));
}

#[test]
fn hostile_target_is_rejected() {
    assert!(!valid_target("x; rm -rf /"));
    assert!(!valid_target("../escape"));
}

#[test]
fn targets_are_single_small_names() {
    assert!(valid_target("demo-app"));
    assert!(valid_target("a1-"));
    for bad in ["", "-x", "Demo", "a b", "a_b", "é"] {
        assert!(!valid_target(bad), "{bad}");
    }
    assert_eq!(script_path("/fl"), "/fl/harness/journal-gate.sh");
}

#[test]
fn last_evidence_counts() {
    let out = "evidence: a.jsonl\nevidence: b.jsonl evidence: c.jsonl evidence: d.txt\nevidence: e\n";
    assert_eq!(parse_evidence("/fl", out), Some("/fl/c.jsonl".to_string()));
    assert_eq!(parse_evidence("/fl", "x evidence: /j/k.jsonl"), Some("/j/k.jsonl".to_string()));
    assert_eq!(parse_evidence("/fl", "evidence: a.jsonl.bak"), None);
    assert_eq!(parse_evidence("/fl", "evidence:a.jsonl"), None);
}

#[test]
fn verdicts_come_from_decision_lines_only() {
    let v = read_verdict("/j", " {\"decision\":\"pass\"}\nnot json\n{\"other\":1}\n\n").unwrap();
    assert_eq!((v.decision.as_str(), v.intent.as_str()), ("pass", ""));
    assert!(read_verdict("/j", "").is_none());
    assert!(read_verdict("/j", "{\"decision\":7}\n").is_none());
}

#[test]
fn output_is_combined_and_capped() {
    assert_eq!(cap_combined("out", "err", 100), "out\nerr");
    assert_eq!(cap_combined("out\n", "err", 100), "out\nerr");
    assert_eq!(cap_combined("", "err", 100), "err");
    assert_eq!(cap_combined("out", "", 100), "out");
    assert_eq!(cap_combined("abcdef", "", 3), "abc\n[truncated]");
    assert!(combines_cleanly("aé", "", 3));
    assert!(combines_cleanly("aéb", "", 3));
    assert!(!combines_cleanly("aéb", "", 2));
    assert_eq!(cap_combined("aéb", "", 3), "aé\n[truncated]");
}

#[test]
fn killed_gates_have_no_verdict() {
    let out = gate_timed_out("evidence: a.jsonl", "", 100);
    assert!(out.verdict.is_none());
    assert_eq!(out.exit_code, -1);
    assert_eq!(out.output, "evidence: a.jsonl [timeout]");
    assert_eq!(gate_ended(None, "", "", None, 1).exit_code, -1);
}

#[test]
fn gates_see_no_secrets() {
    let env = vec![
        ("PATH".to_string(), "/bin".to_string()),
        ("MY_TOKEN".to_string(), "t".to_string()),
        ("LISTED".to_string(), "l".to_string()),
    ];
    assert_eq!(
        gate_env(&env, &["LISTED".to_string()]),
        vec![("PATH".to_string(), "/bin".to_string())]
    );
}
