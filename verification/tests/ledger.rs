use std::collections::BTreeMap;

use composer::json::{parse_json, print_json, Fields, Json};
use composer::ledger::{
    last_seq, records, Event, LedgerError, Redactor, SessionStore, SCHEMA,
};

/// A disk of files by their paths.
struct Disk {
    files: BTreeMap<String, Vec<u8>>,
}

fn written(e: &Event) -> String {
    print_json(
        &Fields::new()
            .with("actor", Json::of_str(&e.actor))
            .with("body", e.body.copy())
            .with("kind", Json::of_str(&e.kind))
            .with("provenance", Json::of_str(&e.provenance))
            .with("seq", Json::of_u64(e.seq))
            .with("session", Json::of_str(&e.session))
            .with("ts", Json::of_str(&e.ts))
            .with("v", Json::of_str(&e.v))
            .object(),
    )
}

fn read_back(line: &[u8]) -> Event {
    let tree = parse_json(std::str::from_utf8(line).unwrap()).unwrap();
    Event {
        v: tree.text_or_empty("v"),
        seq: tree.unsigned_at("seq").unwrap(),
        ts: tree.text_or_empty("ts"),
        session: tree.text_or_empty("session"),
        actor: tree.text_or_empty("actor"),
        kind: tree.text_or_empty("kind"),
        provenance: tree.text_or_empty("provenance"),
        body: tree.get("body").unwrap().copy(),
    }
}

impl Disk {
    fn new() -> Disk {
        Disk { files: BTreeMap::new() }
    }

    fn create_session(&mut self, store: &SessionStore) -> String {
        let new = store.create_session();
        self.files.insert(new.ledger, Vec::new());
        new.id
    }

    fn ledger(&self, store: &SessionStore, id: &str) -> Option<Vec<Event>> {
        self.files
            .get(&store.ledger_path(id))
            .map(|bytes| records(bytes).iter().map(|line| read_back(line)).collect())
    }

    fn append(
        &mut self,
        store: &SessionStore,
        id: &str,
        actor: &str,
        body: &str,
    ) -> Result<Event, LedgerError> {
        let ledger = self.ledger(store, id);
        let body = parse_json(body).unwrap();
        let event =
            store.append(ledger.as_ref(), id, actor, "message", "trusted", body)?;
        let record = store.record(&written(&event));
        self.files.get_mut(&store.ledger_path(id)).unwrap().extend(record);
        Ok(event)
    }

    fn read(&self, store: &SessionStore, id: &str, since: u64) -> Result<Vec<Event>, LedgerError> {
        store.read(self.ledger(store, id).as_ref(), since)
    }

    fn list(&self, store: &SessionStore) -> Vec<String> {
        let entries: Vec<(String, bool)> = self
            .files
            .keys()
            .map(|p| {
                let dir = p.strip_suffix("/ledger.jsonl").unwrap();
                (dir.rsplit('/').next().unwrap().to_string(), true)
            })
            .collect();
        store.list_sessions(&entries)
    }
}

fn store() -> SessionStore {
    SessionStore::new("/state/sessions".to_string(), Redactor::default())
}

#[test]
fn append_assigns_dense_seq_and_schema() {
    let mut d = Disk::new();
    let s = store();
    let id = d.create_session(&s);
    let e1 = d.append(&s, &id, "human", r#"{"text":"hi"}"#).unwrap();
    let e2 = d.append(&s, &id, "orchestrator", r#"{"text":"yo"}"#).unwrap();
    assert_eq!((e1.seq, e2.seq), (1, 2));
    assert_eq!(e1.v, SCHEMA);
    assert_eq!(e1.session, id);
}

#[test]
fn read_since_and_persistence_across_reopen() {
    let mut d = Disk::new();
    let id = {
        let s = store();
        let id = d.create_session(&s);
        for i in 0..3 {
            d.append(&s, &id, "human", &format!("{{\"i\":{i}}}")).unwrap();
        }
        id
    };
    let s2 = store();
    let all = d.read(&s2, &id, 0).unwrap();
    let tail = d.read(&s2, &id, 2).unwrap();
    assert_eq!(all.len(), 3);
    assert_eq!(tail.len(), 1);
    assert_eq!(tail[0].seq, 3);
    assert_eq!(d.append(&s2, &id, "human", "{}").unwrap().seq, 4);
}

#[test]
fn redactor_scrubs_secrets_from_persisted_bytes() {
    let mut d = Disk::new();
    let s = SessionStore::new(
        "/state/sessions".to_string(),
        Redactor::new(vec!["sk-SECRET-123".into()]),
    );
    let id = d.create_session(&s);
    d.append(&s, &id, "human", r#"{"text":"my key is sk-SECRET-123 ok"}"#).unwrap();
    let raw = String::from_utf8(d.files[&s.ledger_path(&id)].clone()).unwrap();
    assert!(!raw.contains("sk-SECRET-123"));
    assert!(raw.contains("[REDACTED]"));
}

#[test]
fn unknown_session_read_is_error_not_empty() {
    let d = Disk::new();
    let s = store();
    assert!(d.read(&s, "01JUNKJUNKJUNKJUNKJUNKJUNK", 0).is_err());
}

#[test]
fn fresh_session_lists_and_reads_empty() {
    let mut d = Disk::new();
    let s = store();
    let id = d.create_session(&s);
    assert_eq!(d.list(&s), vec![id.clone()]);
    assert!(d.read(&s, &id, 0).unwrap().is_empty());
    assert!(d.files.contains_key(&format!("{}/ledger.jsonl", s.dir(&id))));
}

#[test]
fn unknown_session_refuses_an_append() {
    let mut d = Disk::new();
    let s = store();
    assert_eq!(d.append(&s, "01JUNK", "human", "{}"), Err(LedgerError::UnknownSession));
}

#[test]
fn session_ids_are_ulids() {
    let new = store().create_session();
    assert_eq!(new.id.len(), 26);
    assert!(new.id.chars().all(|c| "0123456789ABCDEFGHJKMNPQRSTVWXYZ".contains(c)));
    assert_eq!(new.dir, format!("/state/sessions/{}", new.id));
    assert_eq!(new.ledger, format!("/state/sessions/{}/ledger.jsonl", new.id));
    assert_ne!(new.id, store().create_session().id);
}

#[test]
fn events_are_stamped_in_universal_time() {
    let s = store();
    let none = Vec::new();
    let body = parse_json("{}").unwrap();
    let e = s.append(Some(&none), "S1", "human", "message", "trusted", body).unwrap();
    assert!(e.ts.contains('T') && e.ts.ends_with('Z'), "{}", e.ts);
    let body = parse_json("{}").unwrap();
    let e = s.append_at(Some(&none), "then", "S1", "human", "pause", "trusted", body).unwrap();
    assert_eq!((e.ts.as_str(), e.kind.as_str(), e.seq), ("then", "pause", 1));
}

#[test]
fn listing_leaves_files_out_and_sorts() {
    let entries =
        vec![("b".to_string(), true), ("note.txt".to_string(), false), ("a".to_string(), true)];
    assert_eq!(store().list_sessions(&entries), vec!["a".to_string(), "b".to_string()]);
}

#[test]
fn redactor_keeps_order_and_drops_empties() {
    let r = Redactor::new(vec!["".into(), "ab".into(), "b[R".into()]);
    assert_eq!(r.scrub("xaby"), "x[REDACTED]y");
    assert_eq!(r.scrub("abab"), "[REDACTED][REDACTED]");
    assert_eq!(r.scrub("nothing here"), "nothing here");
    assert_eq!(r.scrub(&r.scrub("1 ab 2")), "1 [REDACTED] 2");
    assert_eq!(Redactor::new(vec!["aa".into()]).scrub("aaa"), "[REDACTED]a");
}

#[test]
fn records_are_framed_by_line_feeds() {
    let lines = records(b"one\n\ntwo\nthree");
    assert_eq!(lines, vec![b"one".to_vec(), b"two".to_vec(), b"three".to_vec()]);
    assert!(records(b"").is_empty());
    let s = store();
    let mut file = s.record("{\"é\":1}");
    file.extend(s.record("{}"));
    assert_eq!(records(&file), vec!["{\"é\":1}".as_bytes().to_vec(), b"{}".to_vec()]);
}

#[test]
fn highest_number_counts() {
    let mut d = Disk::new();
    let s = store();
    let id = d.create_session(&s);
    let mut e1 = d.append(&s, &id, "human", "{}").unwrap();
    let e2 = e1.copy();
    e1.seq = 7;
    assert_eq!(last_seq(&vec![e1, e2]), 7);
    assert_eq!(last_seq(&Vec::new()), 0);
}
