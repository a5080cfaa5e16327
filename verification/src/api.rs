//! The control plane of sessions: who may speak to the daemon, what each command leaves
//! in the ledger, and when it starts a turn.

use crate::gateway;
use crate::json::{self, print_json, Fields, Json, Tree};
use crate::ledger::{self, Event, Redactor};
use crate::orchestrator;
use crate::text::{self, chars_of, same, starts, string_between};
use crate::turn::{self, Entry};
use vstd::prelude::*;
use vstd::string::*;
use vstd::utf8::*;

verus! {

// ---------------------------------------------------------------------------
// Authorisation
// ---------------------------------------------------------------------------

/// Constant-time byte comparison for the bearer token: every byte is looked at, wherever
/// the first difference stands.
pub fn ct_eq(a: &[u8], b: &[u8]) -> (r: bool)
    ensures
        r == (a@ == b@),
{
    if a.len() != b.len() {
        return false;
    }
    let mut diff: u8 = 0;
    let mut i: usize = 0;
    while i < a.len()
        invariant
            i <= a@.len(),
            a@.len() == b@.len(),
            diff == 0 <==> (forall|k: int| 0 <= k < i ==> a@[k] == b@[k]),
        decreases a@.len() - i,
    {
        let x = a[i];
        let y = b[i];
        let d = diff;
        assert((d | (x ^ y)) == 0 <==> (d == 0 && x == y)) by (bit_vector);
        diff = diff | (x ^ y);
        i = i + 1;
    }
    proof {
        if diff == 0 {
            assert(a@ =~= b@);
        }
    }
    diff == 0
}

/// The token that an authorisation header provides; empty where it provides none.
pub open spec fn provided(header: Option<Seq<char>>) -> Seq<char> {
    match header {
        Some(h) => if text::begins(h, "Bearer "@) {
            h.skip(7)
        } else {
            Seq::empty()
        },
        None => Seq::empty(),
    }
}

/// Whether an authorisation header provides the token.
pub fn authorized(header: Option<&str>, token: &str) -> (r: bool)
    ensures
        r == (provided(
            match header {
                Some(h) => Some(h@),
                None => None,
            },
        ) == token@),
{
    let given = match header {
        Some(h) => {
            if starts(h, "Bearer ") {
                proof {
                    reveal_strlit("Bearer ");
                }
                let chars = chars_of(h);
                let rest = string_between(chars.as_slice(), 7, chars.len());
                assert(rest@ =~= h@.skip(7));
                rest
            } else {
                String::new()
            }
        },
        None => String::new(),
    };
    proof {
        encode_utf8_decode_utf8(given@);
        encode_utf8_decode_utf8(token@);
    }
    ct_eq(given.as_str().as_bytes(), token.as_bytes())
}

// ---------------------------------------------------------------------------
// Frames and bodies
// ---------------------------------------------------------------------------

/// What is sent to those who watch a session.
#[derive(Debug, PartialEq)]
pub enum Frame {
    /// An event that was appended.
    Ledger(Event),
    /// A piece of an answer while it comes in.
    Delta(String),
}

/// What a new session is asked for with.
#[derive(Debug, PartialEq)]
pub struct CreateSessionBody {
    pub workspace: Option<String>,
}

impl Default for CreateSessionBody {
    fn default() -> (r: CreateSessionBody)
        ensures
            r.workspace is None,
    {
        CreateSessionBody { workspace: None }
    }
}

/// Which events are asked for.
#[derive(Debug, PartialEq)]
pub struct SinceQuery {
    pub since: Option<u64>,
}

/// A message of the human.
#[derive(Debug, PartialEq)]
pub struct MessageBody {
    pub text: String,
    pub attachments: Option<Vec<Attachment>>,
}

/// A file that a message attaches.
#[derive(Debug, PartialEq)]
pub struct Attachment {
    pub path: String,
}

/// A decision on a request for approval.
#[derive(Debug, PartialEq)]
pub struct ApproveBody {
    pub id: String,
    pub approved: bool,
}

/// A course correction or injected context.
#[derive(Debug, PartialEq)]
pub struct TextBody {
    pub text: String,
}

/// Which checkpoint is to be restored.
#[derive(Debug, PartialEq)]
pub struct RestoreBody {
    pub hash: String,
}

/// Which file of which checkpoint is asked for.
#[derive(Debug, PartialEq)]
pub struct FileAtQuery {
    pub hash: String,
    pub path: String,
}

impl SinceQuery {
    /// The number above which events are asked for; 0 where none is named.
    pub fn since(&self) -> (r: u64)
        ensures
            r == match self.since {
                Some(n) => n,
                None => 0,
            },
    {
        match self.since {
            Some(n) => n,
            None => 0,
        }
    }
}

/// The workspace of a new session: the one asked for, unless it is empty or missing.
pub open spec fn workspace_of(asked: Option<Seq<char>>, current: Seq<char>) -> Seq<char> {
    match asked {
        Some(w) => if w.len() > 0 {
            w
        } else {
            current
        },
        None => current,
    }
}

impl CreateSessionBody {
    /// The workspace of the new session, given the current directory.
    pub fn workspace_or(&self, current: &str) -> (r: String)
        ensures
            r@ == workspace_of(gateway::optional(self.workspace), current@),
    {
        match &self.workspace {
            Some(w) => {
                if chars_of(w.as_str()).len() > 0 {
                    w.clone()
                } else {
                    current.to_owned()
                }
            },
            None => current.to_owned(),
        }
    }
}

/// The data that is sent for a piece of an answer, with the known secrets replaced in it.
pub fn delta_data(redactor: &Redactor, piece: &str) -> (r: String)
    ensures
        r@ == json::printed_tree(
            turn::one_text("text"@, ledger::scrubbed(redactor@, piece@)),
        ),
{
    print_json(&Fields::new().with("text", Json::Text(redactor.scrub(piece))).object())
}

// ---------------------------------------------------------------------------
// Pending input
// ---------------------------------------------------------------------------

/// An event by which an agent, or the system, replies.
pub open spec fn is_reply(ev: ledger::EventView) -> bool {
    ev.kind == "message"@ && ev.actor != "human"@
}

/// An event that wants an answer.
pub open spec fn is_input(ev: ledger::EventView) -> bool {
    ev.kind == "steer"@ || (ev.kind == "message"@ && ev.actor == "human"@)
}

/// The number of the last reply; 0 where there is none.
pub open spec fn last_reply(items: Seq<ledger::EventView>) -> u64
    decreases items.len(),
{
    if items.len() == 0 {
        0
    } else if is_reply(items.last()) {
        items.last().seq
    } else {
        last_reply(items.drop_last())
    }
}

/// There is input newer than the last reply.
pub open spec fn pending_input(items: Seq<ledger::EventView>) -> bool {
    exists|i: int|
        0 <= i < items.len() && (#[trigger] items[i]).seq > last_reply(items) && is_input(items[i])
}

/// Whether a message of the human or a course correction is newer than the last reply,
/// that is whether there is input that the agent has not answered yet.
pub fn has_pending_input(items: &[Event]) -> (r: bool)
    ensures
        r == pending_input(ledger::events(items@)),
{
    let ghost all = ledger::events(items@);
    let mut last: u64 = 0;
    let mut i: usize = 0;
    assert(all.take(0) =~= Seq::<ledger::EventView>::empty());
    while i < items.len()
        invariant
            i <= items@.len(),
            all == ledger::events(items@),
            last == last_reply(all.take(i as int)),
        decreases items@.len() - i,
    {
        proof {
            assert(all.take(i + 1).drop_last() =~= all.take(i as int));
            assert(all.take(i + 1).last() == items@[i as int]@);
        }
        if same(items[i].kind.as_str(), "message") && !same(items[i].actor.as_str(), "human") {
            last = items[i].seq;
        }
        i = i + 1;
    }
    assert(all.take(i as int) =~= all);
    let mut k: usize = 0;
    while k < items.len()
        invariant
            k <= items@.len(),
            all == ledger::events(items@),
            last == last_reply(all),
            forall|j: int| 0 <= j < k ==> !((#[trigger] all[j]).seq > last && is_input(all[j])),
        decreases items@.len() - k,
    {
        assert(all[k as int] == items@[k as int]@);
        if items[k].seq > last && (same(items[k].kind.as_str(), "steer") || (same(
            items[k].kind.as_str(),
            "message",
        ) && same(items[k].actor.as_str(), "human"))) {
            return true;
        }
        k = k + 1;
    }
    false
}

// ---------------------------------------------------------------------------
// Commands
// ---------------------------------------------------------------------------

/// Why a request is refused.
#[derive(Debug, Clone, Copy, PartialEq, Eq, Structural)]
pub enum Refusal {
    UnknownSession,
    UnknownApproval,
}

impl Refusal {
    /// The status that a refusal is answered with.
    pub fn status(&self) -> (r: u16)
        ensures
            r == 404,
    {
        404
    }

    /// The text that a refusal is answered with.
    pub fn message(&self) -> (r: &'static str)
        ensures
            r@ == match self {
                Refusal::UnknownSession => "unknown session"@,
                Refusal::UnknownApproval => "unknown approval id"@,
            },
    {
        match self {
            Refusal::UnknownSession => "unknown session",
            Refusal::UnknownApproval => "unknown approval id",
        }
    }
}

/// A command of the human to a session.
#[derive(Debug, PartialEq)]
pub enum Command {
    Message(MessageBody),
    Pause,
    Resume,
    Steer(TextBody),
    Inject(TextBody),
    Interrupt,
}

/// What a command says.
pub ghost enum CommandView {
    Message(Seq<char>, Seq<Seq<char>>),
    Pause,
    Resume,
    Steer(Seq<char>),
    Inject(Seq<char>),
    Interrupt,
}

/// The paths that attachments name.
pub open spec fn paths(items: Option<Vec<Attachment>>) -> Seq<Seq<char>> {
    match items {
        Some(v) => Seq::new(v@.len(), |i: int| v@[i].path@),
        None => Seq::empty(),
    }
}

impl View for Command {
    type V = CommandView;

    open spec fn view(&self) -> CommandView {
        match self {
            Command::Message(m) => CommandView::Message(m.text@, paths(m.attachments)),
            Command::Pause => CommandView::Pause,
            Command::Resume => CommandView::Resume,
            Command::Steer(b) => CommandView::Steer(b.text@),
            Command::Inject(b) => CommandView::Inject(b.text@),
            Command::Interrupt => CommandView::Interrupt,
        }
    }
}

/// What a command is to do, in this order: set or clear the pause, abort the running turn,
/// append the entry.
#[derive(Debug, PartialEq)]
pub struct Plan {
    pub paused: Option<bool>,
    pub abort: bool,
    pub entry: Entry,
}

/// What a plan says.
pub ghost struct PlanView {
    pub paused: Option<bool>,
    pub abort: bool,
    pub entry: turn::EntryView,
}

impl View for Plan {
    type V = PlanView;

    open spec fn view(&self) -> PlanView {
        PlanView { paused: self.paused, abort: self.abort, entry: self.entry@ }
    }
}

/// The files that a message attaches.
pub open spec fn attachment_array(paths: Seq<Seq<char>>) -> Tree {
    Tree::Array(paths.map_values(|p: Seq<char>| turn::one_text("path"@, p)))
}

/// The body of a message of the human; attachments are named only where there are any.
pub open spec fn message_tree(said: Seq<char>, paths: Seq<Seq<char>>) -> Tree {
    Tree::Object(
        if paths.len() > 0 {
            json::no_fields().push(("attachments"@, attachment_array(paths))).push(
                ("text"@, Tree::Text(said)),
            )
        } else {
            json::no_fields().push(("text"@, Tree::Text(said)))
        },
    )
}

/// What a command leaves in the ledger.
pub open spec fn command_entry(command: CommandView) -> turn::EntryView {
    let nothing = Tree::Object(json::no_fields());
    match command {
        CommandView::Message(said, paths) => turn::trusted(
            "human"@,
            "message"@,
            message_tree(said, paths),
        ),
        CommandView::Pause => turn::trusted("human"@, "pause"@, nothing),
        CommandView::Resume => turn::trusted("human"@, "resume"@, nothing),
        CommandView::Steer(said) => turn::trusted(
            "human"@,
            "steer"@,
            turn::one_text("text"@, said),
        ),
        CommandView::Inject(said) => turn::trusted(
            "human"@,
            "context_inject"@,
            turn::one_text("text"@, said),
        ),
        CommandView::Interrupt => turn::trusted("human"@, "interrupt"@, nothing),
    }
}

/// What a command is to do.
pub open spec fn planned(command: CommandView) -> PlanView {
    PlanView {
        paused: match command {
            CommandView::Pause => Some(true),
            CommandView::Resume => Some(false),
            _ => None,
        },
        abort: command is Interrupt,
        entry: command_entry(command),
    }
}

/// Whether a command starts a turn, given whether the session is paused and whether a turn
/// is running, and the ledger, once the plan is carried out.
pub open spec fn starts_turn(
    command: CommandView,
    paused: bool,
    running: bool,
    items: Seq<ledger::EventView>,
) -> bool {
    match command {
        CommandView::Message(_, _) => !paused,
        CommandView::Steer(_) => !running && !paused,
        CommandView::Resume => !running && pending_input(items),
        _ => false,
    }
}

fn build_message(m: &MessageBody) -> (r: Json)
    ensures
        r@ == message_tree(m.text@, paths(m.attachments)),
{
    let said = Json::of_str(m.text.as_str());
    match &m.attachments {
        Some(items) => {
            if items.len() == 0 {
                return Fields::new().with("text", said).object();
            }
            let mut built: Vec<Json> = Vec::new();
            let mut i: usize = 0;
            while i < items.len()
                invariant
                    i <= items@.len(),
                    built@.len() == i,
                    forall|k: int|
                        0 <= k < i ==> (#[trigger] built@[k])@ == turn::one_text(
                            "path"@,
                            items@[k].path@,
                        ),
                decreases items@.len() - i,
            {
                built.push(
                    Fields::new().with("path", Json::of_str(items[i].path.as_str())).object(),
                );
                i = i + 1;
            }
            assert(json::trees(built@) =~= attachment_array(paths(m.attachments))->Array_0);
            Fields::new().with("attachments", Json::of_items(built)).with("text", said).object()
        },
        None => Fields::new().with("text", said).object(),
    }
}

/// What a command is to do; refused where there is no such session.
pub fn plan(exists: bool, command: &Command) -> (r: Result<Plan, Refusal>)
    ensures
        match r {
            Ok(p) => exists && p@ == planned(command@),
            Err(e) => !exists && e == Refusal::UnknownSession,
        },
        r is Ok ==> match command {
            Command::Message(m) => r->Ok_0@.entry.body.text_at("text"@) == Some(m.text@) && (
            m.attachments is Some && m.attachments->0@.len() > 0 ==> ({
                let files = m.attachments->0@;
                let told = r->Ok_0@.entry.body.items_at("attachments"@);
                &&& told is Some
                &&& told->0.len() == files.len()
                &&& forall|i: int|
                    0 <= i < files.len() ==> (#[trigger] told->0[i]).text_at("path"@) == Some(
                        files[i].path@,
                    )
            })),
            Command::Steer(b) => r->Ok_0@.entry.body.text_at("text"@) == Some(b.text@),
            Command::Inject(b) => r->Ok_0@.entry.body.text_at("text"@) == Some(b.text@),
            _ => true,
        },
{
    proof {
        match command {
            Command::Message(m) => {
                commands_keep_what_was_said(m.text@, paths(m.attachments));
                lemma_attachments_are_told(m.text@, paths(m.attachments));
            },
            Command::Steer(b) => {
                commands_keep_what_was_said(b.text@, Seq::empty());
            },
            Command::Inject(b) => {
                commands_keep_what_was_said(b.text@, Seq::empty());
            },
            _ => {},
        }
    }
    if !exists {
        return Err(Refusal::UnknownSession);
    }
    let nothing = Fields::new().object();
    let (paused, abort, kind, body) = match command {
        Command::Message(m) => (None, false, "message", build_message(m)),
        Command::Pause => (Some(true), false, "pause", nothing),
        Command::Resume => (Some(false), false, "resume", nothing),
        Command::Steer(b) => (
            None,
            false,
            "steer",
            Fields::new().with("text", Json::of_str(b.text.as_str())).object(),
        ),
        Command::Inject(b) => (
            None,
            false,
            "context_inject",
            Fields::new().with("text", Json::of_str(b.text.as_str())).object(),
        ),
        Command::Interrupt => (None, true, "interrupt", nothing),
    };
    Ok(Plan { paused, abort, entry: Entry::trusted("human", kind, body) })
}

/// Whether a command starts a turn once its plan is carried out.
pub fn spawns(command: &Command, paused: bool, running: bool, items: &[Event]) -> (r: bool)
    ensures
        r == starts_turn(command@, paused, running, ledger::events(items@)),
{
    match command {
        Command::Message(_) => !paused,
        Command::Steer(_) => !running && !paused,
        Command::Resume => !running && has_pending_input(items),
        _ => false,
    }
}

/// What a decision leaves in the ledger.
pub open spec fn decision_entry(id: Seq<char>, approved: bool) -> turn::EntryView {
    turn::trusted(
        "system"@,
        "approval_decision"@,
        Tree::Object(
            json::no_fields().push(("approved"@, Tree::Bool(approved))).push(
                ("by"@, Tree::Text("human"@)),
            ).push(("id"@, Tree::Text(id))),
        ),
    )
}

/// What a decision leaves in the ledger; refused where there is no such session, and where
/// no such request for approval is open.
pub fn decide(exists: bool, open: bool, body: &ApproveBody) -> (r: Result<Entry, Refusal>)
    ensures
        match r {
            Ok(e) => exists && open && e@ == decision_entry(body.id@, body.approved),
            Err(Refusal::UnknownSession) => !exists,
            Err(Refusal::UnknownApproval) => exists && !open,
        },
        r is Ok ==> r->Ok_0@.body.get("approved"@) == Some(Tree::Bool(body.approved)),
        r is Ok ==> r->Ok_0@.body.text_at("id"@) == Some(body.id@),
{
    proof {
        decision_says_what_the_human_said(body.id@, body.approved);
    }
    if !exists {
        return Err(Refusal::UnknownSession);
    }
    if !open {
        return Err(Refusal::UnknownApproval);
    }
    Ok(
        Entry::trusted(
            "system",
            "approval_decision",
            Fields::new().with("approved", Json::Bool(body.approved)).with(
                "by",
                Json::of_str("human"),
            ).with("id", Json::of_str(body.id.as_str())).object(),
        ),
    )
}

/// What restoring a checkpoint leaves in the ledger.
pub fn restored_entry(body: &RestoreBody) -> (r: Entry)
    ensures
        r@ == turn::trusted(
            "system"@,
            "message"@,
            turn::one_text("text"@, "restored checkpoint "@ + body.hash@),
        ),
{
    let mut line = "restored checkpoint ".to_owned();
    line.append(body.hash.as_str());
    Entry::trusted("system", "message", Fields::new().with("text", Json::Text(line)).object())
}

// ---------------------------------------------------------------------------
// Laws
// ---------------------------------------------------------------------------

/// Whatever a command does, it leaves a trusted entry of the human.
pub proof fn commands_leave_a_trusted_human_entry(command: CommandView)
    ensures
        planned(command).entry.actor == "human"@,
        planned(command).entry.provenance == "trusted"@,
{
}

/// Context, a pause and an interruption never start a turn.
pub proof fn context_never_starts_a_turn(
    command: CommandView,
    paused: bool,
    running: bool,
    items: Seq<ledger::EventView>,
)
    requires
        command is Inject || command is Pause || command is Interrupt,
    ensures
        !starts_turn(command, paused, running, items),
{
}

/// In a paused session only a resumption starts a turn.
pub proof fn paused_session_starts_no_turn(
    command: CommandView,
    running: bool,
    items: Seq<ledger::EventView>,
)
    ensures
        starts_turn(command, true, running, items) ==> command is Resume,
{
}

/// A course correction and a resumption never start a second turn beside a running one.
pub proof fn running_turn_is_not_doubled(
    command: CommandView,
    paused: bool,
    items: Seq<ledger::EventView>,
)
    ensures
        starts_turn(command, paused, true, items) ==> command is Message,
{
}

/// A message of the human or a course correction that has just been appended is pending
/// input, as long as it is numbered above what was there.
pub proof fn new_input_is_pending(items: Seq<ledger::EventView>, input: ledger::EventView)
    requires
        is_input(input),
        input.seq > last_reply(items),
    ensures
        pending_input(items.push(input)),
{
    lemma_input_is_no_reply();
    let all = items.push(input);
    assert(all.drop_last() =~= items);
    assert(all.last() == input);
    assert(all[items.len() as int] == input);
}

/// Right after a reply that is numbered above everything, no input is pending.
pub proof fn reply_settles_all_input(items: Seq<ledger::EventView>, reply: ledger::EventView)
    requires
        is_reply(reply),
        forall|i: int| 0 <= i < items.len() ==> (#[trigger] items[i]).seq <= reply.seq,
    ensures
        !pending_input(items.push(reply)),
{
    let all = items.push(reply);
    assert(all.last() == reply);
    if pending_input(all) {
        let i = choose|i: int|
            0 <= i < all.len() && (#[trigger] all[i]).seq > last_reply(all) && is_input(all[i]);
        if i < items.len() {
            assert(all[i] == items[i]);
        }
    }
}

/// Injected context alone is no input that wants an answer.
pub proof fn context_is_not_pending(items: Seq<ledger::EventView>, context: ledger::EventView)
    requires
        context.kind == "context_inject"@,
    ensures
        pending_input(items.push(context)) == pending_input(items),
{
    reveal_strlit("context_inject");
    reveal_strlit("message");
    reveal_strlit("steer");
    assert("context_inject"@.len() == 14);
    assert("message"@.len() == 7);
    assert("steer"@.len() == 5);
    let all = items.push(context);
    assert(all.drop_last() =~= items);
    assert(last_reply(all) == last_reply(items));
    if pending_input(items) {
        let i = choose|i: int|
            0 <= i < items.len() && (#[trigger] items[i]).seq > last_reply(items) && is_input(
                items[i],
            );
        assert(all[i] == items[i]);
    }
    if pending_input(all) {
        let i = choose|i: int|
            0 <= i < all.len() && (#[trigger] all[i]).seq > last_reply(all) && is_input(all[i]);
        assert(i < items.len());
        assert(all[i] == items[i]);
    }
}

proof fn lemma_input_is_no_reply()
    ensures
        "steer"@ != "message"@,
{
    reveal_strlit("steer");
    reveal_strlit("message");
    assert("steer"@.len() == 5);
    assert("message"@.len() == 7);
}

/// A decision stands in the ledger as the human gave it, a refusal as a refusal, under the
/// id of the request that it answers.
pub proof fn decision_says_what_the_human_said(id: Seq<char>, approved: bool)
    ensures
        decision_entry(id, approved).body.get("approved"@) == Some(Tree::Bool(approved)),
        decision_entry(id, approved).body.text_at("id"@) == Some(id),
        decision_entry(id, approved).body.text_at("by"@) == Some("human"@),
        decision_entry(id, approved).kind == "approval_decision"@,
        decision_entry(id, approved).actor == "system"@,
        decision_entry(id, approved).provenance == "trusted"@,
{
    reveal_strlit("approved");
    reveal_strlit("by");
    reveal_strlit("id");
    assert("approved"@.len() == 8 && "by"@.len() == 2 && "id"@.len() == 2);
    assert("by"@[0] == 'b' && "id"@[0] == 'i');
    json::lemma_three_fields(
        "approved"@,
        Tree::Bool(approved),
        "by"@,
        Tree::Text("human"@),
        "id"@,
        Tree::Text(id),
    );
}

/// What the human says stands in the ledger word for word, under the kind of the command.
pub proof fn commands_keep_what_was_said(said: Seq<char>, paths: Seq<Seq<char>>)
    ensures
        planned(CommandView::Message(said, paths)).entry.body.text_at("text"@) == Some(said),
        planned(CommandView::Message(said, paths)).entry.kind == "message"@,
        planned(CommandView::Steer(said)).entry.body.text_at("text"@) == Some(said),
        planned(CommandView::Steer(said)).entry.kind == "steer"@,
        planned(CommandView::Inject(said)).entry.body.text_at("text"@) == Some(said),
        planned(CommandView::Inject(said)).entry.kind == "context_inject"@,
        planned(CommandView::Pause).entry.kind == "pause"@,
        planned(CommandView::Resume).entry.kind == "resume"@,
        planned(CommandView::Interrupt).entry.kind == "interrupt"@,
        planned(CommandView::Pause).entry.body == Tree::Object(Seq::empty()),
        planned(CommandView::Resume).entry.body == Tree::Object(Seq::empty()),
        planned(CommandView::Interrupt).entry.body == Tree::Object(Seq::empty()),
{
    lemma_message_keys();
    json::lemma_one_field("text"@, Tree::Text(said));
    json::lemma_two_fields(
        "attachments"@,
        attachment_array(paths),
        "text"@,
        Tree::Text(said),
    );
}

proof fn lemma_message_keys()
    ensures
        "attachments"@ != "text"@,
{
    reveal_strlit("attachments");
    reveal_strlit("text");
    assert("attachments"@.len() == 11 && "text"@.len() == 4);
}

/// The files that the human attaches to a message are those that the agent's prompt reads
/// out of the ledger: the same paths, in the same order.
pub proof fn attached_files_are_read_back(
    said: Seq<char>,
    paths: Seq<Seq<char>>,
    ev: ledger::EventView,
)
    requires
        ev.kind == planned(CommandView::Message(said, paths)).entry.kind,
        ev.actor == planned(CommandView::Message(said, paths)).entry.actor,
        ev.body == planned(CommandView::Message(said, paths)).entry.body,
    ensures
        orchestrator::attachments(ev) == paths,
        orchestrator::said(ev) == said,
        is_input(ev),
{
    lemma_message_keys();
    commands_keep_what_was_said(said, paths);
    if paths.len() > 0 {
        json::lemma_two_fields(
            "attachments"@,
            attachment_array(paths),
            "text"@,
            Tree::Text(said),
        );
        lemma_paths_come_back(paths);
    } else {
        json::missing_field_is_none(ev.body, "attachments"@);
        assert(paths =~= Seq::<Seq<char>>::empty());
    }
}

proof fn lemma_paths_come_back(paths: Seq<Seq<char>>)
    ensures
        orchestrator::paths_in(attachment_array(paths)->Array_0) == paths,
    decreases paths.len(),
{
    let items = attachment_array(paths)->Array_0;
    if paths.len() > 0 {
        let before = paths.drop_last();
        lemma_paths_come_back(before);
        assert(items.drop_last() =~= attachment_array(before)->Array_0);
        json::lemma_one_field("path"@, Tree::Text(paths.last()));
        assert(items.last() == turn::one_text("path"@, paths.last()));
        assert(orchestrator::paths_in(items) =~= paths);
    } else {
        assert(orchestrator::paths_in(items) =~= paths);
    }
}

/// Only a pause sets the pause, only a resumption clears it, and only an interruption
/// aborts the running turn.
pub proof fn commands_do_what_they_are_called(command: CommandView)
    ensures
        planned(command).paused == Some(true) <==> command is Pause,
        planned(command).paused == Some(false) <==> command is Resume,
        planned(command).abort <==> command is Interrupt,
{
}

/// A session that is neither paused nor busy answers at once: to a message, to a course
/// correction, and, where input is pending, to a resumption. A message is answered even
/// while a turn runs.
pub proof fn idle_session_answers(
    said: Seq<char>,
    paths: Seq<Seq<char>>,
    running: bool,
    paused: bool,
    items: Seq<ledger::EventView>,
)
    ensures
        starts_turn(CommandView::Message(said, paths), false, running, items),
        starts_turn(CommandView::Steer(said), false, false, items),
        starts_turn(CommandView::Resume, paused, false, items) <==> pending_input(items),
{
}

/// The token is what stands behind the word `Bearer` and one space; a header of any other
/// form provides none.
pub proof fn bearer_token_is_what_follows(token: Seq<char>, header: Seq<char>)
    ensures
        provided(Some("Bearer "@ + token)) == token,
        provided(Some(header)).len() > 0 ==> header == "Bearer "@ + provided(Some(header)),
        provided(None).len() == 0,
{
    reveal_strlit("Bearer ");
    let whole = "Bearer "@ + token;
    assert(whole.subrange(0, 7) =~= "Bearer "@);
    assert(whole.skip(7) =~= token);
    if text::begins(header, "Bearer "@) {
        assert(header =~= header.subrange(0, 7) + header.skip(7));
    }
}

/// A session works where it is asked to; where nothing is asked for, in the current
/// directory.
pub proof fn workspace_is_the_one_asked_for(asked: Seq<char>, current: Seq<char>)
    ensures
        asked.len() > 0 ==> workspace_of(Some(asked), current) == asked,
        asked.len() == 0 ==> workspace_of(Some(asked), current) == current,
        workspace_of(None, current) == current,
{
}

/// In a ledger whose numbers rise, input is pending exactly where a message of the human
/// or a course correction stands behind the last message of anyone else.
pub proof fn pending_input_stands_behind_the_last_reply(items: Seq<ledger::EventView>)
    requires
        forall|i: int, j: int| 0 <= i < j < items.len() ==> items[i].seq < items[j].seq,
        items.len() > 0 ==> items[0].seq > 0,
    ensures
        pending_input(items) <==> exists|i: int|
            0 <= i < items.len() && ((#[trigger] items[i]).kind == "steer"@ || (items[i].kind
                == "message"@ && items[i].actor == "human"@)) && (forall|j: int|
                i < j < items.len() ==> !((#[trigger] items[j]).kind == "message"@
                    && items[j].actor != "human"@)),
{
    lemma_input_is_no_reply();
    lemma_last_reply_is(items);
    if pending_input(items) {
        let i = choose|i: int|
            0 <= i < items.len() && (#[trigger] items[i]).seq > last_reply(items) && is_input(
                items[i],
            );
        assert forall|j: int| i < j < items.len() implies !((#[trigger] items[j]).kind
            == "message"@ && items[j].actor != "human"@) by {
            assert(items[i].seq < items[j].seq);
        }
        assert(items[i].kind == "steer"@ || (items[i].kind == "message"@ && items[i].actor
            == "human"@));
    }
    if exists|i: int|
        0 <= i < items.len() && ((#[trigger] items[i]).kind == "steer"@ || (items[i].kind
            == "message"@ && items[i].actor == "human"@)) && (forall|j: int|
            i < j < items.len() ==> !((#[trigger] items[j]).kind == "message"@ && items[j].actor
                != "human"@)) {
        let i = choose|i: int|
            0 <= i < items.len() && ((#[trigger] items[i]).kind == "steer"@ || (items[i].kind
                == "message"@ && items[i].actor == "human"@)) && (forall|j: int|
                i < j < items.len() ==> !((#[trigger] items[j]).kind == "message"@
                    && items[j].actor != "human"@));
        assert(items[i].seq > last_reply(items)) by {
            if last_reply(items) > 0 {
                let k = choose|k: int|
                    0 <= k < items.len() && is_reply(#[trigger] items[k]) && items[k].seq
                        == last_reply(items);
                assert(k != i);
                if k > i {
                    assert(!(items[k].kind == "message"@ && items[k].actor != "human"@));
                }
                assert(items[k].seq < items[i].seq);
            } else if i > 0 {
                assert(items[0].seq < items[i].seq);
            }
        }
        assert(is_input(items[i]));
    }
}

proof fn lemma_last_reply_is(items: Seq<ledger::EventView>)
    requires
        forall|i: int, j: int| 0 <= i < j < items.len() ==> items[i].seq < items[j].seq,
    ensures
        forall|i: int|
            0 <= i < items.len() && is_reply(#[trigger] items[i]) ==> items[i].seq <= last_reply(
                items,
            ),
        last_reply(items) == 0 || exists|k: int|
            0 <= k < items.len() && is_reply(#[trigger] items[k]) && items[k].seq == last_reply(
                items,
            ),
    decreases items.len(),
{
    if items.len() > 0 {
        let before = items.drop_last();
        assert forall|i: int, j: int| 0 <= i < j < before.len() implies before[i].seq
            < before[j].seq by {
            assert(items[i].seq < items[j].seq);
        }
        lemma_last_reply_is(before);
        let n = items.len() - 1;
        assert forall|i: int| 0 <= i < items.len() && is_reply(#[trigger] items[i]) implies items[
            i].seq <= last_reply(items) by {
            if i < n {
                assert(items[i].seq < items[n].seq);
                assert(before[i] == items[i]);
            }
        }
        if is_reply(items.last()) {
            assert(is_reply(items[n]) && items[n].seq == last_reply(items));
        } else if last_reply(items) != 0 {
            let k = choose|k: int|
                0 <= k < before.len() && is_reply(#[trigger] before[k]) && before[k].seq
                    == last_reply(before);
            assert(is_reply(items[k]) && items[k].seq == last_reply(items));
        }
    }
}

proof fn lemma_attachments_are_told(said: Seq<char>, paths: Seq<Seq<char>>)
    ensures
        paths.len() > 0 ==> {
            let told = message_tree(said, paths).items_at("attachments"@);
            &&& told is Some
            &&& told->0.len() == paths.len()
            &&& forall|i: int|
                0 <= i < paths.len() ==> (#[trigger] told->0[i]).text_at("path"@) == Some(paths[i])
        },
{
    if paths.len() > 0 {
        lemma_message_keys();
        json::lemma_two_fields(
            "attachments"@,
            attachment_array(paths),
            "text"@,
            Tree::Text(said),
        );
        let told = attachment_array(paths)->Array_0;
        assert forall|i: int| 0 <= i < paths.len() implies (#[trigger] told[i]).text_at("path"@)
            == Some(paths[i]) by {
            json::lemma_one_field("path"@, Tree::Text(paths[i]));
        }
    }
}

} // verus!
