//! Append-only event store of sessions: events, their numbering, redaction, and the
//! framing of records in a ledger file.

use crate::jail::{self, join};
use crate::json::{Json, Tree};
use crate::table::{self, sort_texts};
use crate::text::{self, chars_of, replace_all};
use vstd::prelude::*;
use vstd::string::*;
use vstd::utf8::*;

verus! {

/// The schema that every event names.
pub const SCHEMA: &'static str = "forgeloop.composer.event.v1";

/// What stands in place of a secret.
pub const REDACTED: &'static str = "[REDACTED]";

// ---------------------------------------------------------------------------
// Events
// ---------------------------------------------------------------------------

/// One event of a session.
#[derive(Debug, PartialEq)]
pub struct Event {
    pub v: String,
    pub seq: u64,
    pub ts: String,
    pub session: String,
    pub actor: String,
    pub kind: String,
    pub provenance: String,
    pub body: Json,
}

/// What an event holds.
pub ghost struct EventView {
    pub v: Seq<char>,
    pub seq: u64,
    pub ts: Seq<char>,
    pub session: Seq<char>,
    pub actor: Seq<char>,
    pub kind: Seq<char>,
    pub provenance: Seq<char>,
    pub body: Tree,
}

impl View for Event {
    type V = EventView;

    open spec fn view(&self) -> EventView {
        EventView {
            v: self.v@,
            seq: self.seq,
            ts: self.ts@,
            session: self.session@,
            actor: self.actor@,
            kind: self.kind@,
            provenance: self.provenance@,
            body: self.body@,
        }
    }
}

impl Event {
    /// A second copy of the event.
    pub fn copy(&self) -> (r: Event)
        ensures
            r@ == self@,
    {
        Event {
            v: self.v.clone(),
            seq: self.seq,
            ts: self.ts.clone(),
            session: self.session.clone(),
            actor: self.actor.clone(),
            kind: self.kind.clone(),
            provenance: self.provenance.clone(),
            body: self.body.copy(),
        }
    }
}

/// What a sequence of events holds.
pub open spec fn events(items: Seq<Event>) -> Seq<EventView> {
    Seq::new(items.len(), |i: int| items[i]@)
}

/// The highest number among the events; 0 where there is none.
pub open spec fn last_seq_of(items: Seq<EventView>) -> u64
    decreases items.len(),
{
    if items.len() == 0 {
        0
    } else {
        let before = last_seq_of(items.drop_last());
        if items.last().seq > before {
            items.last().seq
        } else {
            before
        }
    }
}

/// The events numbered above `since`, in their order.
pub open spec fn since_seq(items: Seq<EventView>, since: u64) -> Seq<EventView>
    decreases items.len(),
{
    if items.len() == 0 {
        Seq::empty()
    } else if items.last().seq > since {
        since_seq(items.drop_last(), since).push(items.last())
    } else {
        since_seq(items.drop_last(), since)
    }
}

/// The events of a session that was only ever appended to: numbered 1, 2, 3 and so on.
pub open spec fn dense(items: Seq<EventView>) -> bool {
    forall|i: int| 0 <= i < items.len() ==> (#[trigger] items[i]).seq == i + 1
}

// ---------------------------------------------------------------------------
// Redaction
// ---------------------------------------------------------------------------

/// The texts that are not empty, in their order.
pub open spec fn non_empty<A>(items: Seq<Seq<A>>) -> Seq<Seq<A>>
    decreases items.len(),
{
    if items.len() == 0 {
        Seq::empty()
    } else if items[0].len() == 0 {
        non_empty(items.drop_first())
    } else {
        seq![items[0]] + non_empty(items.drop_first())
    }
}

/// The text with every occurrence of each secret replaced, one secret after the other.
pub open spec fn scrubbed(secrets: Seq<Seq<char>>, text: Seq<char>) -> Seq<char>
    decreases secrets.len(),
{
    if secrets.len() == 0 {
        text
    } else {
        text::replaced(scrubbed(secrets.drop_last(), text), secrets.last(), REDACTED@)
    }
}

/// Removes known secrets from texts.
#[derive(Debug)]
pub struct Redactor {
    secrets: Vec<String>,
}

impl View for Redactor {
    type V = Seq<Seq<char>>;

    closed spec fn view(&self) -> Seq<Seq<char>> {
        text::texts(self.secrets@)
    }
}

impl Default for Redactor {
    fn default() -> (r: Redactor)
        ensures
            r@ == Seq::<Seq<char>>::empty(),
    {
        let secrets: Vec<String> = Vec::new();
        assert(text::texts(secrets@) =~= Seq::<Seq<char>>::empty());
        Redactor { secrets }
    }
}

impl Redactor {
    /// Drops empty strings; non-empty secrets are kept in the order given.
    pub fn new(secrets: Vec<String>) -> (r: Redactor)
        ensures
            r@ == non_empty(text::texts(secrets@)),
    {
        let mut kept: Vec<String> = Vec::new();
        let ghost all = text::texts(secrets@);
        let mut i: usize = 0;
        assert(text::texts(kept@) + non_empty(all) =~= non_empty(all));
        assert(all.skip(0) =~= all);
        while i < secrets.len()
            invariant
                i <= secrets@.len(),
                all == text::texts(secrets@),
                text::texts(kept@) + non_empty(all.skip(i as int)) == non_empty(all),
            decreases secrets@.len() - i,
        {
            let ghost done = text::texts(kept@);
            let ghost rest = all.skip(i as int);
            assert(rest.drop_first() =~= all.skip(i + 1));
            assert(rest[0] == secrets@[i as int]@);
            if chars_of(secrets[i].as_str()).len() > 0 {
                kept.push(secrets[i].clone());
                assert(text::texts(kept@) =~= done.push(rest[0]));
                assert(done + (seq![rest[0]] + non_empty(rest.drop_first())) =~= done.push(rest[0])
                    + non_empty(rest.drop_first()));
            }
            i = i + 1;
        }
        assert(text::texts(kept@) + non_empty(all.skip(i as int)) =~= text::texts(kept@));
        Redactor { secrets: kept }
    }

    /// Replaces every occurrence of each known secret with `[REDACTED]`.
    pub fn scrub(&self, text: &str) -> (r: String)
        ensures
            r@ == scrubbed(self@, text@),
    {
        let mut out = text.to_owned();
        let ghost all = text::texts(self.secrets@);
        let mut i: usize = 0;
        assert(all.take(0) =~= Seq::<Seq<char>>::empty());
        while i < self.secrets.len()
            invariant
                i <= self.secrets@.len(),
                all == text::texts(self.secrets@),
                out@ == scrubbed(all.take(i as int), text@),
            decreases self.secrets@.len() - i,
        {
            proof {
                assert(all.take(i + 1).drop_last() =~= all.take(i as int));
                assert(all.take(i + 1).last() == self.secrets@[i as int]@);
            }
            out = replace_all(out.as_str(), self.secrets[i].as_str(), REDACTED);
            i = i + 1;
        }
        assert(all.take(i as int) =~= all);
        out
    }
}

// ---------------------------------------------------------------------------
// Outside calls
// ---------------------------------------------------------------------------

/// A character of Crockford's base 32.
pub open spec fn crockford(c: char) -> bool {
    "0123456789ABCDEFGHJKMNPQRSTVWXYZ"@.contains(c)
}

/// Calls `ulid::Ulid::new` and its `to_string`. The claim: whatever the clock and the
/// random source give, the text is 26 characters of Crockford's base 32.
#[verifier::external_body]
pub(crate) fn fresh_ulid() -> (r: String)
    ensures
        r@.len() == 26,
        forall|i: int| 0 <= i < 26 ==> crockford(#[trigger] r@[i]),
{
    ulid::Ulid::new().to_string()
}

/// Calls `jiff::Timestamp::now` and writes the timestamp down. Nothing is claimed of the
/// text: it is whatever the clock gives. (The call panics where the system clock lies
/// outside the years -9999 to 9999.)
#[verifier::external_body]
fn timestamp() -> (r: String)
{
    jiff::Timestamp::now().to_string()
}

// ---------------------------------------------------------------------------
// The store
// ---------------------------------------------------------------------------

/// Why the store refuses.
#[derive(Debug, Clone, Copy, PartialEq, Eq, Structural)]
pub enum LedgerError {
    /// There is no such session.
    UnknownSession,
}

/// A session that is to be made on disk: its directory and, in it, an empty ledger.
#[derive(Debug)]
pub struct NewSession {
    pub id: String,
    pub dir: String,
    pub ledger: String,
}

/// The sessions below a root directory.
#[derive(Debug)]
pub struct SessionStore {
    root: String,
    redactor: Redactor,
}

impl SessionStore {
    /// The directory of all sessions.
    pub closed spec fn root(&self) -> Seq<char> {
        self.root@
    }

    /// The secrets that are kept out of ledgers.
    pub closed spec fn secrets(&self) -> Seq<Seq<char>> {
        self.redactor@
    }

    /// What keeps the secrets out of ledgers.
    pub fn redactor(&self) -> (r: &Redactor)
        ensures
            r@ == self.secrets(),
    {
        &self.redactor
    }

    /// A store below a root directory.
    pub fn new(root: String, redactor: Redactor) -> (r: SessionStore)
        ensures
            r.root() == root@,
            r.secrets() == redactor@,
    {
        SessionStore { root, redactor }
    }

    /// Path of a session's directory (the one that holds `ledger.jsonl`).
    pub fn dir(&self, session: &str) -> (r: String)
        ensures
            r@ == jail::joined(self.root(), session@),
    {
        join(self.root.as_str(), session)
    }

    /// Path of a session's ledger.
    pub fn ledger_path(&self, session: &str) -> (r: String)
        ensures
            r@ == jail::joined(jail::joined(self.root(), session@), "ledger.jsonl"@),
    {
        join(self.dir(session).as_str(), "ledger.jsonl")
    }

    /// A session with a fresh id, to be made on disk with an empty ledger.
    pub fn create_session(&self) -> (r: NewSession)
        ensures
            r.id@.len() == 26,
            forall|i: int| 0 <= i < 26 ==> crockford(#[trigger] r.id@[i]),
            r.dir@ == jail::joined(self.root(), r.id@),
            r.ledger@ == jail::joined(r.dir@, "ledger.jsonl"@),
    {
        let id = fresh_ulid();
        let dir = self.dir(id.as_str());
        let ledger = self.ledger_path(id.as_str());
        NewSession { id, dir, ledger }
    }

    /// The sessions, in order, given the names below the root, each with whether it is a
    /// directory. A session directory is enough: it need not hold a ledger.
    pub fn list_sessions(&self, entries: &Vec<(String, bool)>) -> (r: Vec<String>)
        ensures
            table::in_order(text::texts(r@)),
            text::texts(r@).to_multiset() == directories(entry_views(entries@)).to_multiset(),
    {
        let ghost all = entry_views(entries@);
        let mut found: Vec<String> = Vec::new();
        let mut i: usize = 0;
        assert(text::texts(found@) =~= directories(all.take(0)));
        while i < entries.len()
            invariant
                i <= entries@.len(),
                all == entry_views(entries@),
                text::texts(found@) == directories(all.take(i as int)),
            decreases entries@.len() - i,
        {
            let ghost done = text::texts(found@);
            proof {
                assert(all.take(i + 1).drop_last() =~= all.take(i as int));
                assert(all.take(i + 1).last() == all[i as int]);
            }
            if entries[i].1 {
                found.push(entries[i].0.clone());
                assert(text::texts(found@) =~= done.push(entries@[i as int].0@));
            }
            i = i + 1;
        }
        assert(all.take(i as int) =~= all);
        sort_texts(found)
    }

    /// The event that an append adds now, given the events of the session's ledger (`None`
    /// where there is no such session).
    pub fn append(
        &self,
        ledger: Option<&Vec<Event>>,
        session: &str,
        actor: &str,
        kind: &str,
        provenance: &str,
        body: Json,
    ) -> (r: Result<Event, LedgerError>)
        requires
            ledger is Some ==> last_seq_of(events(ledger->0@)) < u64::MAX,
        ensures
            match ledger {
                None => r is Err && r->Err_0 == LedgerError::UnknownSession,
                Some(items) => r is Ok && r->Ok_0@ == appended(
                    events(items@),
                    r->Ok_0.ts@,
                    session@,
                    actor@,
                    kind@,
                    provenance@,
                    body@,
                ),
            },
            r is Ok ==> r->Ok_0.session@ == session@,
            r is Ok ==> r->Ok_0.actor@ == actor@,
            r is Ok ==> r->Ok_0.kind@ == kind@,
            r is Ok ==> r->Ok_0.provenance@ == provenance@,
            r is Ok ==> r->Ok_0.body@ == body@,
            r is Ok ==> r->Ok_0.v@ == "forgeloop.composer.event.v1"@,
    {
        let ts = timestamp();
        self.append_at(ledger, ts.as_str(), session, actor, kind, provenance, body)
    }

    /// The event that an append adds at the given time.
    pub fn append_at(
        &self,
        ledger: Option<&Vec<Event>>,
        ts: &str,
        session: &str,
        actor: &str,
        kind: &str,
        provenance: &str,
        body: Json,
    ) -> (r: Result<Event, LedgerError>)
        requires
            ledger is Some ==> last_seq_of(events(ledger->0@)) < u64::MAX,
        ensures
            match ledger {
                None => r is Err && r->Err_0 == LedgerError::UnknownSession,
                Some(items) => r is Ok && r->Ok_0@ == appended(
                    events(items@),
                    ts@,
                    session@,
                    actor@,
                    kind@,
                    provenance@,
                    body@,
                ),
            },
            r is Ok ==> r->Ok_0.ts@ == ts@,
            r is Ok ==> r->Ok_0.session@ == session@,
            r is Ok ==> r->Ok_0.actor@ == actor@,
            r is Ok ==> r->Ok_0.kind@ == kind@,
            r is Ok ==> r->Ok_0.provenance@ == provenance@,
            r is Ok ==> r->Ok_0.body@ == body@,
            r is Ok ==> r->Ok_0.v@ == "forgeloop.composer.event.v1"@,
    {
        let items = match ledger {
            None => {
                return Err(LedgerError::UnknownSession);
            },
            Some(items) => items,
        };
        let seq = last_seq(items) + 1;
        Ok(
            Event {
                v: SCHEMA.to_owned(),
                seq,
                ts: ts.to_owned(),
                session: session.to_owned(),
                actor: actor.to_owned(),
                kind: kind.to_owned(),
                provenance: provenance.to_owned(),
                body,
            },
        )
    }

    /// The events numbered above `since`, given the events of the session's ledger
    /// (`None` where there is no such session).
    pub fn read(&self, ledger: Option<&Vec<Event>>, since: u64) -> (r: Result<
        Vec<Event>,
        LedgerError,
    >)
        ensures
            match ledger {
                None => r is Err && r->Err_0 == LedgerError::UnknownSession,
                Some(items) => r is Ok && events(r->Ok_0@) == since_seq(events(items@), since),
            },
    {
        let items = match ledger {
            None => {
                return Err(LedgerError::UnknownSession);
            },
            Some(items) => items,
        };
        let ghost all = events(items@);
        let mut out: Vec<Event> = Vec::new();
        let mut i: usize = 0;
        assert(events(out@) =~= since_seq(all.take(0), since));
        while i < items.len()
            invariant
                i <= items@.len(),
                all == events(items@),
                events(out@) == since_seq(all.take(i as int), since),
            decreases items@.len() - i,
        {
            let ghost done = events(out@);
            proof {
                assert(all.take(i + 1).drop_last() =~= all.take(i as int));
                assert(all.take(i + 1).last() == items@[i as int]@);
            }
            if items[i].seq > since {
                out.push(items[i].copy());
                assert(events(out@) =~= done.push(items@[i as int]@));
            }
            i = i + 1;
        }
        assert(all.take(i as int) =~= all);
        Ok(out)
    }

    /// The bytes that persist an event written down as `raw`: the secrets are replaced,
    /// and a line feed ends the record.
    pub fn record(&self, raw: &str) -> (r: Vec<u8>)
        ensures
            r@ == encode_utf8(scrubbed(self.secrets(), raw@)).push(10u8),
    {
        let line = self.redactor.scrub(raw);
        let mut out = line.as_str().as_bytes_vec();
        out.push(10u8);
        out
    }
}

/// What directory entries hold.
pub open spec fn entry_views(entries: Seq<(String, bool)>) -> Seq<(Seq<char>, bool)> {
    Seq::new(entries.len(), |i: int| (entries[i].0@, entries[i].1))
}

/// The names of the entries that are directories, in their order.
pub open spec fn directories(entries: Seq<(Seq<char>, bool)>) -> Seq<Seq<char>>
    decreases entries.len(),
{
    if entries.len() == 0 {
        Seq::empty()
    } else if entries.last().1 {
        directories(entries.drop_last()).push(entries.last().0)
    } else {
        directories(entries.drop_last())
    }
}

/// The event that an append adds to a ledger.
pub open spec fn appended(
    ledger: Seq<EventView>,
    ts: Seq<char>,
    session: Seq<char>,
    actor: Seq<char>,
    kind: Seq<char>,
    provenance: Seq<char>,
    body: Tree,
) -> EventView {
    EventView {
        v: SCHEMA@,
        seq: (last_seq_of(ledger) + 1) as u64,
        ts,
        session,
        actor,
        kind,
        provenance,
        body,
    }
}

/// The highest number among the events; 0 where there is none.
pub fn last_seq(items: &Vec<Event>) -> (r: u64)
    ensures
        r == last_seq_of(events(items@)),
{
    let ghost all = events(items@);
    let mut max: u64 = 0;
    let mut i: usize = 0;
    assert(all.take(0) =~= Seq::<EventView>::empty());
    while i < items.len()
        invariant
            i <= items@.len(),
            all == events(items@),
            max == last_seq_of(all.take(i as int)),
        decreases items@.len() - i,
    {
        proof {
            assert(all.take(i + 1).drop_last() =~= all.take(i as int));
            assert(all.take(i + 1).last() == items@[i as int]@);
        }
        if items[i].seq > max {
            max = items[i].seq;
        }
        i = i + 1;
    }
    assert(all.take(i as int) =~= all);
    max
}

/// The records of a ledger file: what stands between line feeds, without empty ones.
pub open spec fn framed(bytes: Seq<u8>) -> Seq<Seq<u8>> {
    non_empty(text::pieces(bytes, 10u8))
}

/// What a sequence of byte strings holds.
pub open spec fn byte_strings(items: Seq<Vec<u8>>) -> Seq<Seq<u8>> {
    Seq::new(items.len(), |i: int| items[i]@)
}

/// The records of a ledger file: what stands between line feeds, without empty ones.
pub fn records(bytes: &[u8]) -> (r: Vec<Vec<u8>>)
    ensures
        byte_strings(r@) == framed(bytes@),
{
    let mut out: Vec<Vec<u8>> = Vec::new();
    let mut from: usize = 0;
    assert(bytes@.skip(0) =~= bytes@);
    assert(byte_strings(out@) + framed(bytes@) =~= framed(bytes@));
    loop
        invariant
            from <= bytes@.len(),
            byte_strings(out@) + framed(bytes@.skip(from as int)) == framed(bytes@),
        decreases bytes@.len() - from,
    {
        let ghost rest = bytes@.skip(from as int);
        let ghost done = byte_strings(out@);
        let mut line: Vec<u8> = Vec::new();
        let mut to: usize = from;
        assert(bytes@.subrange(from as int, from as int) =~= Seq::<u8>::empty());
        while to < bytes.len() && bytes[to] != 10u8
            invariant
                from <= to <= bytes@.len(),
                line@ == bytes@.subrange(from as int, to as int),
                forall|k: int| from <= k < to ==> bytes@[k] != 10u8,
            decreases bytes@.len() - to,
        {
            line.push(bytes[to]);
            to = to + 1;
            assert(bytes@.subrange(from as int, to as int) =~= bytes@.subrange(
                from as int,
                to - 1,
            ).push(bytes@[to - 1]));
        }
        proof {
            assert forall|k: int| 0 <= k < to - from implies rest[k] != 10u8 by {
                assert(rest[k] == bytes@[from + k]);
            }
            text::lemma_upto_is(rest, 10u8, to - from);
            assert(rest.take(to - from) =~= line@);
        }
        let last = to == bytes.len();
        let ghost piece = line@;
        if line.len() > 0 {
            out.push(line);
            assert(byte_strings(out@) =~= done.push(piece));
        }
        if last {
            proof {
                assert(rest =~= piece);
                assert(text::pieces(rest, 10u8) =~= seq![piece]);
                let none = Seq::<Seq<u8>>::empty();
                assert(seq![piece].drop_first() =~= none);
                assert(non_empty(none) =~= none);
                assert(byte_strings(out@) =~= framed(bytes@)) by {
                    if piece.len() > 0 {
                        assert(framed(rest) =~= seq![piece]);
                        assert(done + framed(rest) =~= done.push(piece));
                    } else {
                        assert(framed(rest) =~= Seq::<Seq<u8>>::empty());
                        assert(done + framed(rest) =~= done);
                    }
                }
            }
            return out;
        }
        proof {
            let all = text::pieces(rest, 10u8);
            let more = text::pieces(bytes@.skip(to + 1), 10u8);
            assert(rest.skip(to - from + 1) =~= bytes@.skip(to + 1));
            assert(all =~= seq![piece] + more);
            assert(all.drop_first() =~= more);
            assert(done + framed(rest) =~= byte_strings(out@) + framed(bytes@.skip(to + 1)));
        }
        from = to + 1;
    }
}

// ---------------------------------------------------------------------------
// Laws
// ---------------------------------------------------------------------------

/// The highest number of a dense ledger is its length.
pub proof fn dense_ledger_counts_itself(items: Seq<EventView>)
    requires
        dense(items),
    ensures
        last_seq_of(items) == items.len(),
    decreases items.len(),
{
    if items.len() > 0 {
        let before = items.drop_last();
        assert forall|i: int| 0 <= i < before.len() implies (#[trigger] before[i]).seq == i + 1 by {
            assert(before[i] == items[i]);
        }
        dense_ledger_counts_itself(before);
    }
}

/// Appending keeps a ledger dense: the new event is numbered one above the last.
pub proof fn append_keeps_ledger_dense(
    ledger: Seq<EventView>,
    ts: Seq<char>,
    session: Seq<char>,
    actor: Seq<char>,
    kind: Seq<char>,
    provenance: Seq<char>,
    body: Tree,
)
    requires
        dense(ledger),
        last_seq_of(ledger) < u64::MAX,
    ensures
        dense(ledger.push(appended(ledger, ts, session, actor, kind, provenance, body))),
{
    dense_ledger_counts_itself(ledger);
    let e = appended(ledger, ts, session, actor, kind, provenance, body);
    let after = ledger.push(e);
    assert forall|i: int| 0 <= i < after.len() implies (#[trigger] after[i]).seq == i + 1 by {
        if i < ledger.len() {
            assert(after[i] == ledger[i]);
        }
    }
}

/// On a dense ledger, reading since a number leaves out that many events and no more.
pub proof fn read_since_skips_that_many(items: Seq<EventView>, since: u64)
    requires
        dense(items),
    ensures
        since <= items.len() ==> since_seq(items, since) == items.skip(since as int),
        since > items.len() ==> since_seq(items, since).len() == 0,
    decreases items.len(),
{
    if items.len() > 0 {
        let before = items.drop_last();
        assert forall|i: int| 0 <= i < before.len() implies (#[trigger] before[i]).seq == i + 1 by {
            assert(before[i] == items[i]);
        }
        read_since_skips_that_many(before, since);
        assert(items.last().seq == items.len());
        if since <= before.len() {
            assert(since_seq(items, since) =~= before.skip(since as int).push(items.last()));
            assert(items.skip(since as int) =~= before.skip(since as int).push(items.last()));
        } else if since == items.len() {
            assert(since_seq(items, since) =~= items.skip(since as int));
        }
    } else if since == 0 {
        assert(since_seq(items, since) =~= items.skip(0));
    }
}

/// Reading since the number before an append gives the appended event and nothing else
/// that was there before.
pub proof fn read_gives_back_the_append(
    ledger: Seq<EventView>,
    ts: Seq<char>,
    session: Seq<char>,
    actor: Seq<char>,
    kind: Seq<char>,
    provenance: Seq<char>,
    body: Tree,
)
    requires
        last_seq_of(ledger) < u64::MAX,
    ensures
        ({
            let e = appended(ledger, ts, session, actor, kind, provenance, body);
            since_seq(ledger.push(e), last_seq_of(ledger)) == seq![e]
        }),
{
    let e = appended(ledger, ts, session, actor, kind, provenance, body);
    assert(ledger.push(e).drop_last() =~= ledger);
    lemma_nothing_above(ledger, last_seq_of(ledger));
    assert(since_seq(ledger.push(e), last_seq_of(ledger)) =~= seq![e]);
}

proof fn lemma_nothing_above(items: Seq<EventView>, since: u64)
    requires
        last_seq_of(items) <= since,
    ensures
        since_seq(items, since) == Seq::<EventView>::empty(),
    decreases items.len(),
{
    if items.len() > 0 {
        lemma_nothing_above(items.drop_last(), since);
    }
}

/// Where `b` is laid over `a`, starting at `shift`, the two differ somewhere on what they
/// share.
pub open spec fn clash(a: Seq<char>, b: Seq<char>, shift: int) -> bool {
    exists|i: int| 0 <= i < a.len() && 0 <= i - shift < b.len() && #[trigger] a[i] != b[i - shift]
}

/// Two texts cannot overlap: wherever one is laid over the other, they differ somewhere
/// on what they share.
pub open spec fn apart(a: Seq<char>, b: Seq<char>) -> bool {
    forall|shift: int| -(b.len() as int) < shift < a.len() ==> #[trigger] clash(a, b, shift)
}

/// What occurs in a text with a mark in it, and cannot overlap the mark, occurs before
/// the mark or behind it.
proof fn lemma_beside_the_mark(
    before: Seq<char>,
    mark: Seq<char>,
    behind: Seq<char>,
    secret: Seq<char>,
)
    requires
        apart(secret, mark),
        mark.len() > 0,
        secret.len() > 0,
        text::occurs(before + mark + behind, secret),
    ensures
        text::occurs(before, secret) || text::occurs(behind, secret),
{
    let all = before + mark + behind;
    let at = choose|at: int| text::occurs_at(all, secret, at);
    let n = before.len() as int;
    if at + secret.len() <= n {
        assert(before.subrange(at, at + secret.len()) =~= all.subrange(at, at + secret.len()));
        assert(text::occurs_at(before, secret, at));
    } else if at >= n + mark.len() {
        let to = at - n - mark.len();
        assert(behind.subrange(to, to + secret.len()) =~= all.subrange(at, at + secret.len()));
        assert(text::occurs_at(behind, secret, to));
    } else {
        let shift = n - at;
        assert(clash(secret, mark, shift));
        let i = choose|i: int|
            0 <= i < secret.len() && 0 <= i - shift < mark.len() && #[trigger] secret[i] != mark[i
                - shift];
        assert(all.subrange(at, at + secret.len())[i] == all[at + i]);
        assert(all[at + i] == mark[at + i - n]);
    }
}

/// Replacing a secret by a mark that it cannot overlap leaves no occurrence of it.
proof fn lemma_replaced_is_gone(text: Seq<char>, secret: Seq<char>, mark: Seq<char>)
    requires
        apart(secret, mark),
        mark.len() > 0,
        secret.len() > 0,
    ensures
        !text::occurs(text::replaced(text, secret, mark), secret),
    decreases text.len(),
{
    text::lemma_first_at_occurs(text, secret);
    match text::first_at(text, secret) {
        Some(at) => {
            text::lemma_first_from(text, secret, 0);
            let before = text.take(at);
            let rest = text.skip(at + secret.len());
            lemma_replaced_is_gone(rest, secret, mark);
            let behind = text::replaced(rest, secret, mark);
            if text::occurs(before + mark + behind, secret) {
                lemma_beside_the_mark(before, mark, behind, secret);
                let k = choose|k: int| text::occurs_at(before, secret, k);
                assert(text.subrange(k, k + secret.len()) =~= before.subrange(
                    k,
                    k + secret.len(),
                ));
                assert(text::occurs_at(text, secret, k));
            }
        },
        None => {},
    }
}

/// Replacing another secret by a mark brings none back that cannot overlap the mark.
proof fn lemma_stays_gone(text: Seq<char>, other: Seq<char>, mark: Seq<char>, secret: Seq<char>)
    requires
        apart(secret, mark),
        mark.len() > 0,
        secret.len() > 0,
        !text::occurs(text, secret),
    ensures
        !text::occurs(text::replaced(text, other, mark), secret),
    decreases text.len(),
{
    match text::first_at(text, other) {
        Some(at) if other.len() > 0 && 0 <= at && at + other.len() <= text.len() => {
            let before = text.take(at);
            let rest = text.skip(at + other.len());
            if text::occurs(rest, secret) {
                let k = choose|k: int| text::occurs_at(rest, secret, k);
                let to = k + at + other.len();
                assert(text.subrange(to, to + secret.len()) =~= rest.subrange(k, k + secret.len()));
                assert(text::occurs_at(text, secret, to));
            }
            lemma_stays_gone(rest, other, mark, secret);
            let behind = text::replaced(rest, other, mark);
            if text::occurs(before + mark + behind, secret) {
                lemma_beside_the_mark(before, mark, behind, secret);
                let k = choose|k: int| text::occurs_at(before, secret, k);
                assert(text.subrange(k, k + secret.len()) =~= before.subrange(
                    k,
                    k + secret.len(),
                ));
                assert(text::occurs_at(text, secret, k));
            }
        },
        _ => {},
    }
}

/// A known secret stands nowhere in a scrubbed text, as long as it cannot overlap the mark
/// that stands in its place.
pub proof fn scrubbed_text_holds_no_secret(
    secrets: Seq<Seq<char>>,
    text: Seq<char>,
    secret: Seq<char>,
)
    requires
        secrets.contains(secret),
        secret.len() > 0,
        apart(secret, REDACTED@),
    ensures
        !text::occurs(scrubbed(secrets, text), secret),
    decreases secrets.len(),
{
    reveal_strlit("[REDACTED]");
    let last = secrets.last();
    let before = secrets.drop_last();
    if last == secret {
        lemma_replaced_is_gone(scrubbed(before, text), secret, REDACTED@);
    } else {
        let i = choose|i: int| 0 <= i < secrets.len() && secrets[i] == secret;
        assert(before[i] == secret);
        scrubbed_text_holds_no_secret(before, text, secret);
        lemma_stays_gone(scrubbed(before, text), last, REDACTED@, secret);
    }
}

/// A secret without square brackets that is no part of the word in the mark cannot overlap
/// the mark: keys as providers hand them out are such.
pub proof fn ordinary_secrets_are_apart(secret: Seq<char>)
    requires
        secret.len() > 0,
        !secret.contains('['),
        !secret.contains(']'),
        !text::occurs("REDACTED"@, secret),
    ensures
        apart(secret, REDACTED@),
{
    reveal_strlit("[REDACTED]");
    reveal_strlit("REDACTED");
    let mark = REDACTED@;
    let word = "REDACTED"@;
    assert(mark.len() == 10);
    assert(word =~= mark.subrange(1, 9));
    assert(mark[0] == '[' && mark[9] == ']');
    assert forall|shift: int| -(mark.len() as int) < shift < secret.len() implies #[trigger] clash(
        secret,
        mark,
        shift,
    ) by {
        if shift >= 0 {
            assert(secret[shift] != mark[shift - shift]);
        } else if shift + 9 < secret.len() {
            assert(secret[shift + 9] != mark[shift + 9 - shift]);
        } else if !clash(secret, mark, shift) {
            let at = -shift - 1;
            assert forall|i: int| 0 <= i < secret.len() implies secret[i] == word[at + i] by {
                assert(secret[i] == mark[i - shift]);
            }
            assert(word.subrange(at, at + secret.len()) =~= secret);
            assert(text::occurs_at(word, secret, at));
        }
    }
}

/// A text that holds no known secret is left as it is.
pub proof fn text_without_secrets_is_kept(secrets: Seq<Seq<char>>, text: Seq<char>)
    requires
        forall|i: int|
            0 <= i < secrets.len() ==> (#[trigger] secrets[i]).len() == 0 || !text::occurs(
                text,
                secrets[i],
            ),
    ensures
        scrubbed(secrets, text) == text,
    decreases secrets.len(),
{
    if secrets.len() > 0 {
        let before = secrets.drop_last();
        assert forall|i: int| 0 <= i < before.len() implies (#[trigger] before[i]).len() == 0
            || !text::occurs(text, before[i]) by {
            assert(before[i] == secrets[i]);
        }
        text_without_secrets_is_kept(before, text);
        assert(secrets.last() == secrets[secrets.len() - 1]);
        text::lemma_first_at_occurs(text, secrets.last());
    }
}

/// Scrubbing a scrubbed text changes nothing, where no secret can overlap the mark.
pub proof fn scrubbing_twice_is_scrubbing_once(secrets: Seq<Seq<char>>, text: Seq<char>)
    requires
        forall|i: int|
            0 <= i < secrets.len() ==> (#[trigger] secrets[i]).len() == 0 || apart(
                secrets[i],
                REDACTED@,
            ),
    ensures
        scrubbed(secrets, scrubbed(secrets, text)) == scrubbed(secrets, text),
{
    let once = scrubbed(secrets, text);
    assert forall|i: int| 0 <= i < secrets.len() implies (#[trigger] secrets[i]).len() == 0
        || !text::occurs(once, secrets[i]) by {
        if secrets[i].len() > 0 {
            assert(secrets.contains(secrets[i]));
            scrubbed_text_holds_no_secret(secrets, text, secrets[i]);
        }
    }
    text_without_secrets_is_kept(secrets, once);
}

/// The bytes of a text hold a line feed only where the text does.
proof fn lemma_line_feed_is_itself(text: Seq<char>)
    requires
        !text.contains('\n'),
    ensures
        !encode_utf8(text).contains(10u8),
    decreases text.len(),
{
    if text.len() > 0 {
        let c = text[0] as u32;
        let rest = text.drop_first();
        assert(text[0] != '\n');
        assert(!rest.contains('\n')) by {
            if rest.contains('\n') {
                let i = choose|i: int| 0 <= i < rest.len() && rest[i] == '\n';
                assert(text[i + 1] == '\n');
            }
        }
        lemma_line_feed_is_itself(rest);
        char_is_scalar(text[0]);
        let first = encode_scalar(c);
        assert(c != 10) by {
            char_u32_cast(text[0], c);
            assert('\n' as u32 == 10u32);
            char_u32_cast('\n', 10u32);
        }
        assert(c <= 0x7F && c != 10 ==> (c & 0x7F) as u8 != 10u8) by (bit_vector);
        assert((0xC0u8 | ((c >> 6) & 0x1F) as u8) != 10u8) by (bit_vector);
        assert((0xE0u8 | ((c >> 12) & 0x0F) as u8) != 10u8) by (bit_vector);
        assert((0xF0u8 | ((c >> 18) & 0x07) as u8) != 10u8) by (bit_vector);
        assert((0x80u8 | (c & 0x3F) as u8) != 10u8) by (bit_vector);
        assert((0x80u8 | ((c >> 6) & 0x3F) as u8) != 10u8) by (bit_vector);
        assert((0x80u8 | ((c >> 12) & 0x3F) as u8) != 10u8) by (bit_vector);
        assert forall|i: int| 0 <= i < first.len() implies first[i] != 10u8 by {}
        let bytes = encode_utf8(text);
        if bytes.contains(10u8) {
            let i = choose|i: int| 0 <= i < bytes.len() && bytes[i] == 10u8;
            if i >= first.len() {
                assert(encode_utf8(rest)[i - first.len()] == 10u8);
            }
        }
    }
}

/// A ledger file as appends leave it: empty, or ended by a line feed.
pub open spec fn whole(file: Seq<u8>) -> bool {
    file.len() == 0 || file.last() == 10u8
}

/// Behind a whole file, a line with its line feed is one more record.
proof fn lemma_one_more_record(file: Seq<u8>, line: Seq<u8>)
    requires
        whole(file),
        line.len() > 0,
        !line.contains(10u8),
    ensures
        framed(file + line.push(10u8)) == framed(file).push(line),
    decreases file.len(),
{
    let all = file + line.push(10u8);
    if file.len() == 0 {
        assert forall|i: int| 0 <= i < line.len() implies all[i] != 10u8 by {
            assert(line[i] == all[i]);
        }
        text::lemma_upto_is(all, 10u8, line.len() as int);
        text::lemma_upto_is(Seq::<u8>::empty(), 10u8, 0);
        assert(all.take(line.len() as int) =~= line);
        assert(all.skip(line.len() as int + 1) =~= Seq::<u8>::empty());
        assert(file =~= Seq::<u8>::empty());
        let none = Seq::<u8>::empty();
        assert(text::pieces(none, 10u8) =~= seq![none]);
        assert(text::pieces(all, 10u8) =~= seq![line, none]);
        assert(seq![line, none].drop_first() =~= seq![none]);
        assert(seq![none].drop_first() =~= Seq::<Seq<u8>>::empty());
        assert(non_empty(Seq::<Seq<u8>>::empty()) =~= Seq::<Seq<u8>>::empty());
        assert(non_empty(seq![none]) =~= Seq::<Seq<u8>>::empty());
        assert(framed(all) =~= seq![line]);
        assert(framed(file).push(line) =~= seq![line]);
    } else {
        text::lemma_upto(file, 10u8);
        let n = text::upto(file, 10u8) as int;
        if n == file.len() {
            assert(file[file.len() - 1] == 10u8);
        }
        assert forall|i: int| 0 <= i < n implies all[i] != 10u8 by {
            assert(all[i] == file[i]);
        }
        assert(all[n] == file[n]);
        text::lemma_upto_is(all, 10u8, n);
        let rest = file.skip(n + 1);
        assert(all.take(n) =~= file.take(n));
        assert(all.skip(n + 1) =~= rest + line.push(10u8));
        if rest.len() > 0 {
            assert(rest.last() == file.last());
        }
        lemma_one_more_record(rest, line);
        let head = file.take(n);
        let more = text::pieces(rest, 10u8);
        let further = text::pieces(rest + line.push(10u8), 10u8);
        assert(text::pieces(file, 10u8) =~= seq![head] + more);
        assert(text::pieces(all, 10u8) =~= seq![head] + further);
        assert((seq![head] + more).drop_first() =~= more);
        assert((seq![head] + further).drop_first() =~= further);
        assert(framed(all) =~= framed(file).push(line));
    }
}

/// What is read back of a record is the redacted text that was written, behind the
/// records that were there before.
pub proof fn records_give_back_what_was_written(
    secrets: Seq<Seq<char>>,
    file: Seq<u8>,
    raw: Seq<char>,
)
    requires
        whole(file),
        raw.len() > 0,
        !raw.contains('\n'),
    ensures
        ({
            let line = encode_utf8(scrubbed(secrets, raw));
            &&& whole(file + line.push(10u8))
            &&& framed(file + line.push(10u8)) == framed(file).push(line)
            &&& decode_utf8(line) == scrubbed(secrets, raw)
        }),
{
    let text = scrubbed(secrets, raw);
    lemma_scrubbing_keeps_a_line(secrets, raw);
    lemma_line_feed_is_itself(text);
    let line = encode_utf8(text);
    assert(line.len() > 0) by {
        char_is_scalar(text[0]);
        assert(encode_scalar(text[0] as u32).len() > 0);
    }
    lemma_one_more_record(file, line);
    assert((file + line.push(10u8)).last() == 10u8);
    encode_utf8_decode_utf8(text);
}

proof fn lemma_scrubbing_keeps_a_line(secrets: Seq<Seq<char>>, raw: Seq<char>)
    requires
        !raw.contains('\n'),
    ensures
        !scrubbed(secrets, raw).contains('\n'),
        raw.len() > 0 ==> scrubbed(secrets, raw).len() > 0,
    decreases secrets.len(),
{
    if secrets.len() > 0 {
        lemma_scrubbing_keeps_a_line(secrets.drop_last(), raw);
        reveal_strlit("[REDACTED]");
        lemma_replacing_adds_no_line_feed(
            scrubbed(secrets.drop_last(), raw),
            secrets.last(),
            REDACTED@,
        );
    }
}

proof fn lemma_replacing_adds_no_line_feed(text: Seq<char>, pattern: Seq<char>, by: Seq<char>)
    requires
        !text.contains('\n'),
        !by.contains('\n'),
    ensures
        !text::replaced(text, pattern, by).contains('\n'),
    decreases text.len(),
{
    match text::first_at(text, pattern) {
        Some(at) if pattern.len() > 0 && 0 <= at && at + pattern.len() <= text.len() => {
            let rest = text.skip(at + pattern.len());
            assert forall|i: int| 0 <= i < rest.len() implies rest[i] != '\n' by {
                assert(rest[i] == text[i + at + pattern.len()]);
            }
            lemma_replacing_adds_no_line_feed(rest, pattern, by);
            let behind = text::replaced(rest, pattern, by);
            let all = text.take(at) + by + behind;
            if all.contains('\n') {
                let i = choose|i: int| 0 <= i < all.len() && all[i] == '\n';
                if i < at {
                    assert(text[i] == '\n');
                } else if i < at + by.len() {
                    assert(by[i - at] == '\n');
                } else {
                    assert(behind[i - at - by.len()] == '\n');
                }
            }
        },
        _ => {},
    }
}

/// An appended event says what was given: who did what in which session, when, and whether
/// it can be trusted. It names the schema, and its number is one above every other.
pub proof fn append_keeps_what_was_given(
    ledger: Seq<EventView>,
    ts: Seq<char>,
    session: Seq<char>,
    actor: Seq<char>,
    kind: Seq<char>,
    provenance: Seq<char>,
    body: Tree,
)
    requires
        last_seq_of(ledger) < u64::MAX,
    ensures
        ({
            let e = appended(ledger, ts, session, actor, kind, provenance, body);
            &&& e.ts == ts
            &&& e.session == session
            &&& e.actor == actor
            &&& e.kind == kind
            &&& e.provenance == provenance
            &&& e.body == body
            &&& e.v == "forgeloop.composer.event.v1"@
            &&& e.seq >= 1
            &&& forall|i: int| 0 <= i < ledger.len() ==> (#[trigger] ledger[i]).seq < e.seq
            &&& e.seq == 1 || exists|i: int|
                0 <= i < ledger.len() && (#[trigger] ledger[i]).seq + 1 == e.seq
        }),
{
    last_number_is_the_highest(ledger);
}

/// The last number of a ledger is that of one of its events, and no event has a higher one;
/// it is 0 where no event has a higher one than that.
pub proof fn last_number_is_the_highest(items: Seq<EventView>)
    ensures
        forall|i: int| 0 <= i < items.len() ==> (#[trigger] items[i]).seq <= last_seq_of(items),
        last_seq_of(items) == 0 || exists|i: int|
            0 <= i < items.len() && (#[trigger] items[i]).seq == last_seq_of(items),
    decreases items.len(),
{
    if items.len() > 0 {
        let before = items.drop_last();
        last_number_is_the_highest(before);
        assert forall|i: int| 0 <= i < items.len() implies (#[trigger] items[i]).seq
            <= last_seq_of(items) by {
            if i < before.len() {
                assert(items[i] == before[i]);
            }
        }
        if last_seq_of(items) == items.last().seq {
            assert(items[items.len() - 1].seq == last_seq_of(items));
        } else if last_seq_of(items) != 0 {
            let i = choose|i: int|
                0 <= i < before.len() && (#[trigger] before[i]).seq == last_seq_of(before);
            assert(items[i].seq == last_seq_of(items));
        }
    }
}

/// Reading since a number gives the events above it and no other, in the order in which
/// they stand, whatever their numbers are.
pub proof fn read_picks_what_is_above(items: Seq<EventView>, since: u64)
    ensures
        since_seq(items, since) == items.filter(|e: EventView| e.seq > since),
    decreases items.len(),
{
    let above = |e: EventView| e.seq > since;
    reveal(Seq::filter);
    if items.len() > 0 {
        read_picks_what_is_above(items.drop_last(), since);
        assert(since_seq(items, since) =~= items.filter(above));
    } else {
        assert(since_seq(items, since) =~= items.filter(above));
    }
}

/// Of given secrets those that are not empty are kept, in their order.
pub proof fn empty_secrets_are_dropped(items: Seq<Seq<char>>, secret: Seq<char>)
    ensures
        non_empty(items).contains(secret) <==> items.contains(secret) && secret.len() > 0,
        (forall|i: int| 0 <= i < items.len() ==> (#[trigger] items[i]).len() > 0) ==> non_empty(
            items,
        ) == items,
    decreases items.len(),
{
    if items.len() > 0 {
        let rest = items.drop_first();
        empty_secrets_are_dropped(rest, secret);
        let kept = non_empty(items);
        let more = non_empty(rest);
        if items.contains(secret) {
            let i = choose|i: int| 0 <= i < items.len() && items[i] == secret;
            if i > 0 {
                assert(rest[i - 1] == secret);
            }
        }
        if rest.contains(secret) {
            let i = choose|i: int| 0 <= i < rest.len() && rest[i] == secret;
            assert(items[i + 1] == secret);
        }
        if more.contains(secret) {
            let i = choose|i: int| 0 <= i < more.len() && more[i] == secret;
            assert(kept[if items[0].len() == 0 { i } else { i + 1 }] == secret);
        }
        if kept.contains(secret) {
            let i = choose|i: int| 0 <= i < kept.len() && kept[i] == secret;
            if items[0].len() > 0 && i > 0 {
                assert(more[i - 1] == secret);
            }
            if items[0].len() > 0 && i == 0 {
                assert(items[0] == secret);
            }
        }
        if items[0].len() > 0 {
            assert(kept[0] == items[0]);
        }
        if forall|i: int| 0 <= i < items.len() ==> (#[trigger] items[i]).len() > 0 {
            assert forall|i: int| 0 <= i < rest.len() implies (#[trigger] rest[i]).len() > 0 by {
                assert(rest[i] == items[i + 1]);
            }
            assert(items[0].len() > 0);
            assert(kept =~= items);
        }
    } else {
        assert(non_empty(items) =~= items);
    }
}

/// What stands before and behind a secret stays, and the mark `[REDACTED]` takes its place:
/// the first occurrence in a text that was not looked at before.
pub proof fn mark_takes_the_place_of_a_secret(
    before: Seq<char>,
    secret: Seq<char>,
    behind: Seq<char>,
)
    requires
        secret.len() > 0,
        forall|at: int|
            0 <= at < before.len() ==> !text::occurs_at(before + secret + behind, secret, at),
    ensures
        scrubbed(seq![secret], before + secret + behind) == before + "[REDACTED]"@ + scrubbed(
            seq![secret],
            behind,
        ),
{
    let all = before + secret + behind;
    let n = before.len() as int;
    let one = seq![secret];
    assert(one.drop_last() =~= Seq::<Seq<char>>::empty());
    assert(all.subrange(n, n + secret.len()) =~= secret);
    text::lemma_first_from_is(all, secret, 0, n);
    assert(all.take(n) =~= before);
    assert(all.skip(n + secret.len()) =~= behind);
    assert(scrubbed(one.drop_last(), all) == all);
    assert(scrubbed(one.drop_last(), behind) == behind);
}

/// A listing names the entries that are directories, and no other, each as often as it
/// stands there.
pub proof fn only_directories_are_listed(entries: Seq<(Seq<char>, bool)>)
    ensures
        directories(entries) == entries.filter(
            |e: (Seq<char>, bool)| e.1,
        ).map_values(|e: (Seq<char>, bool)| e.0),
    decreases entries.len(),
{
    let is_dir = |e: (Seq<char>, bool)| e.1;
    let name = |e: (Seq<char>, bool)| e.0;
    reveal(Seq::filter);
    if entries.len() > 0 {
        only_directories_are_listed(entries.drop_last());
    }
    assert(directories(entries) =~= entries.filter(is_dir).map_values(name));
}

/// Secrets are replaced one after the other, in their order.
pub proof fn secrets_are_replaced_in_turn(
    secrets: Seq<Seq<char>>,
    secret: Seq<char>,
    text: Seq<char>,
)
    ensures
        scrubbed(Seq::empty(), text) == text,
        scrubbed(secrets.push(secret), text) == scrubbed(seq![secret], scrubbed(secrets, text)),
{
    let inner = scrubbed(secrets, text);
    assert(secrets.push(secret).drop_last() =~= secrets);
    assert(seq![secret].drop_last() =~= Seq::<Seq<char>>::empty());
    assert(scrubbed(seq![secret].drop_last(), inner) == inner);
}

/// A line feed ends a record, and an empty record is none.
pub proof fn line_feeds_end_records(record: Seq<u8>, behind: Seq<u8>)
    requires
        !record.contains(10u8),
    ensures
        record.len() > 0 ==> framed(record + seq![10u8] + behind) == seq![record] + framed(behind),
        record.len() == 0 ==> framed(record + seq![10u8] + behind) == framed(behind),
        record.len() > 0 ==> framed(record) == seq![record],
        framed(Seq::empty()).len() == 0,
{
    text::separators_cut(record, 10u8, behind);
    text::separators_cut(Seq::<u8>::empty(), 10u8, behind);
    let more = text::pieces(behind, 10u8);
    let none = Seq::<Seq<u8>>::empty();
    assert((seq![record] + more).drop_first() =~= more);
    assert(seq![record].drop_first() =~= none);
    assert(seq![Seq::<u8>::empty()].drop_first() =~= none);
    assert(non_empty(none) =~= none);
    assert(seq![record] + none =~= seq![record]);
}

/// What is kept of several texts is all that is not empty, in its order.
pub proof fn kept_texts_keep_their_order<A>(items: Seq<Seq<A>>, item: Seq<A>)
    ensures
        item.len() > 0 ==> non_empty(items.push(item)) == non_empty(items).push(item),
        item.len() == 0 ==> non_empty(items.push(item)) == non_empty(items),
        non_empty(Seq::<Seq<A>>::empty()).len() == 0,
    decreases items.len(),
{
    let all = items.push(item);
    let none = Seq::<Seq<A>>::empty();
    assert(non_empty(none) =~= none);
    if items.len() == 0 {
        assert(all.drop_first() =~= none);
        assert(non_empty(items) =~= none);
        assert(seq![item] + none =~= none.push(item));
    } else {
        let rest = items.drop_first();
        assert(all.drop_first() =~= rest.push(item));
        assert(all[0] == items[0]);
        kept_texts_keep_their_order(rest, item);
        if item.len() > 0 {
            assert(non_empty(all) =~= non_empty(items).push(item));
        }
    }
}

} // verus!
