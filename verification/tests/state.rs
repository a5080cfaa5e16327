use composer::state::{
    daemon_json, hex, kept_token, meta_path, random_hex_token, state_dir, SessionMeta,
};

#[test]
fn state_dir_respects_env() {
    assert_eq!(
        state_dir(Some("/tmp/fc-state-test-xyz".to_string()), Some("/home/x".to_string())),
        "/tmp/fc-state-test-xyz"
    );
}

#[test]
fn state_dir_lies_below_home() {
    assert_eq!(
        state_dir(None, Some("/home/x".to_string())),
        "/home/x/.local/share/forge-composer"
    );
    assert_eq!(state_dir(None, None), "/.local/share/forge-composer");
}

#[test]
fn write_daemon_json_round_trips() {
    let v: serde_json::Value = serde_json::from_str(&daemon_json(8642, 4711)).unwrap();
    assert_eq!(v["port"], 8642);
    assert!(v["pid"].as_u64().is_some());
    assert_eq!(daemon_json(1, 2), r#"{"pid":2,"port":1}"#);
}

#[test]
fn tokens_are_hexadecimal_and_kept() {
    let t1 = random_hex_token();
    assert_eq!(t1.len(), 64);
    assert!(t1.chars().all(|c| c.is_ascii_hexdigit()));
    assert_ne!(t1, random_hex_token());
    assert_eq!(kept_token(Some(&t1)), Some(t1.clone()));
    assert_eq!(kept_token(Some(&format!(" {t1}\n"))), Some(t1));
    assert_eq!(kept_token(Some(" \n")), None);
    assert_eq!(kept_token(None), None);
}

#[test]
fn bytes_in_hexadecimal() {
    assert_eq!(hex(&[0, 1, 15, 16, 171, 255]), "00010f10abff");
    assert_eq!(hex(&[]), "");
}

#[test]
fn sessions_are_jailed_to_their_worktree() {
    let m = SessionMeta::orchestrator("/tmp/ws".to_string());
    assert_eq!(m.kind, "orchestrator");
    assert_eq!(m.role, "orchestrator");
    assert!(m.parent.is_none() && m.title.is_none());
    assert_eq!(m.jail_root(), "/tmp/ws");
    let sub = SessionMeta {
        workspace: "/tmp/ws".into(),
        kind: "subagent".into(),
        parent: Some("S1".into()),
        role: "coder".into(),
        title: Some("child-a".into()),
        worktree: Some("/tmp/wt".into()),
    };
    assert_eq!(sub.jail_root(), "/tmp/wt");
    assert_eq!(meta_path("/state", "S1"), "/state/sessions/S1/meta.json");
}
