use composer::api::{
    authorized, ct_eq, decide, delta_data, has_pending_input, plan, restored_entry, spawns,
    ApproveBody, Attachment, Command, CreateSessionBody, MessageBody, Refusal, RestoreBody,
    SinceQuery, TextBody,
};
use composer::json::{parse_json, print_json};
use composer::ledger::{Event, Redactor};

fn ev(seq: u64, kind: &str, actor: &str) -> Event {
    Event {
        v: "forgeloop.composer.event.v1".into(),
        seq,
        ts: "t".into(),
        session: "s".into(),
        actor: actor.into(),
        kind: kind.into(),
        provenance: "trusted".into(),
        body: parse_json("{}").unwrap(),
    }
}

#[test]
fn pending_input_rule() {
    assert!(!has_pending_input(&[ev(1, "message", "human"), ev(2, "message", "orchestrator")]));
    assert!(has_pending_input(&[
        ev(1, "message", "human"),
        ev(2, "message", "orchestrator"),
        ev(3, "message", "human")
    ]));
    assert!(has_pending_input(&[ev(1, "message", "orchestrator"), ev(2, "steer", "human")]));
    assert!(!has_pending_input(&[
        ev(1, "message", "orchestrator"),
        ev(2, "context_inject", "human")
    ]));
}

#[test]
fn nothing_is_pending_in_an_empty_ledger() {
    assert!(!has_pending_input(&[]));
    assert!(has_pending_input(&[ev(1, "message", "human")]));
}

#[test]
fn tokens_are_compared_whole() {
    assert!(ct_eq(b"", b""));
    assert!(ct_eq(b"abc", b"abc"));
    assert!(!ct_eq(b"abc", b"abd"));
    assert!(!ct_eq(b"abc", b"ab"));
    assert!(authorized(Some("Bearer sesame"), "sesame"));
    assert!(!authorized(Some("Bearer sesam"), "sesame"));
    assert!(!authorized(Some("bearer sesame"), "sesame"));
    assert!(!authorized(Some("sesame"), "sesame"));
    assert!(!authorized(None, "sesame"));
}

fn text(t: &str) -> TextBody {
    TextBody { text: t.into() }
}

fn message(attachments: Option<Vec<&str>>) -> Command {
    Command::Message(MessageBody {
        text: "hi".into(),
        attachments: attachments
            .map(|a| a.iter().map(|p| Attachment { path: p.to_string() }).collect()),
    })
}

#[test]
fn commands_leave_their_entries() {
    for (command, kind, body, paused, abort) in [
        (message(None), "message", r#"{"text":"hi"}"#, None, false),
        (message(Some(vec![])), "message", r#"{"text":"hi"}"#, None, false),
        (
            message(Some(vec!["a", "b"])),
            "message",
            r#"{"attachments":[{"path":"a"},{"path":"b"}],"text":"hi"}"#,
            None,
            false,
        ),
        (Command::Pause, "pause", "{}", Some(true), false),
        (Command::Resume, "resume", "{}", Some(false), false),
        (Command::Steer(text("left")), "steer", r#"{"text":"left"}"#, None, false),
        (Command::Inject(text("note")), "context_inject", r#"{"text":"note"}"#, None, false),
        (Command::Interrupt, "interrupt", "{}", None, true),
    ] {
        let p = plan(true, &command).unwrap();
        assert_eq!(p.entry.kind, kind);
        assert_eq!(p.entry.actor, "human");
        assert_eq!(p.entry.provenance, "trusted");
        assert_eq!(print_json(&p.entry.body), body);
        assert_eq!(p.paused, paused);
        assert_eq!(p.abort, abort);
        assert_eq!(plan(false, &command), Err(Refusal::UnknownSession));
    }
}

#[test]
fn turns_start_when_they_should() {
    let asked = [ev(1, "message", "human")];
    assert!(spawns(&message(None), false, true, &asked));
    assert!(!spawns(&message(None), true, false, &asked));
    assert!(spawns(&Command::Steer(text("x")), false, false, &asked));
    assert!(!spawns(&Command::Steer(text("x")), true, false, &asked));
    assert!(!spawns(&Command::Steer(text("x")), false, true, &asked));
    assert!(spawns(&Command::Resume, false, false, &asked));
    assert!(!spawns(&Command::Resume, false, true, &asked));
    assert!(!spawns(&Command::Resume, false, false, &[]));
    for c in [Command::Inject(text("x")), Command::Pause, Command::Interrupt] {
        assert!(!spawns(&c, false, false, &asked));
    }
}

#[test]
fn decisions_need_an_open_request() {
    let body = ApproveBody { id: "r1".into(), approved: true };
    let e = decide(true, true, &body).unwrap();
    assert_eq!((e.actor.as_str(), e.kind.as_str()), ("system", "approval_decision"));
    assert_eq!(print_json(&e.body), r#"{"approved":true,"by":"human","id":"r1"}"#);
    assert_eq!(decide(true, false, &body), Err(Refusal::UnknownApproval));
    assert_eq!(decide(false, false, &body), Err(Refusal::UnknownSession));
    assert_eq!(Refusal::UnknownApproval.message(), "unknown approval id");
    assert_eq!(Refusal::UnknownSession.message(), "unknown session");
    assert_eq!(Refusal::UnknownSession.status(), 404);
}

#[test]
fn bodies_have_their_defaults() {
    assert_eq!(SinceQuery { since: None }.since(), 0);
    assert_eq!(SinceQuery { since: Some(4) }.since(), 4);
    assert_eq!(CreateSessionBody::default().workspace_or("/here"), "/here");
    let empty = CreateSessionBody { workspace: Some(String::new()) };
    assert_eq!(empty.workspace_or("/here"), "/here");
    let there = CreateSessionBody { workspace: Some("/there".into()) };
    assert_eq!(there.workspace_or("/here"), "/there");
    assert_eq!(delta_data(&Redactor::default(), "a\"b"), r#"{"text":"a\"b"}"#);
    let redactor = Redactor::new(vec!["sk-live-12345".into()]);
    assert_eq!(delta_data(&redactor, "is sk-live-12345."), r#"{"text":"is [REDACTED]."}"#);
    let e = restored_entry(&RestoreBody { hash: "abc".into() });
    assert_eq!((e.actor.as_str(), e.kind.as_str()), ("system", "message"));
    assert_eq!(print_json(&e.body), r#"{"text":"restored checkpoint abc"}"#);
}
