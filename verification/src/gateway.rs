//! Streaming chat with tool calls: the requests that providers take, and what their
//! event streams add up to.

use crate::anthropic;
use crate::json::{self, parse_json, Fields, Json, Tree};
use crate::ledger::{self, Redactor};
use crate::sse::{self, Buffer};
use crate::text::{self, chars_of, same, string_between};
use vstd::prelude::*;
use vstd::string::*;

verus! {

// ---------------------------------------------------------------------------
// Providers and messages
// ---------------------------------------------------------------------------

/// The protocol that a provider speaks.
#[derive(Debug, Clone, Copy, PartialEq, Eq, Structural)]
pub enum ProviderKind {
    OpenAI,
    Anthropic,
}

impl Default for ProviderKind {
    fn default() -> (r: ProviderKind)
        ensures
            r == ProviderKind::OpenAI,
    {
        ProviderKind::OpenAI
    }
}

/// Where and as whom a model is called.
#[derive(Debug, PartialEq)]
pub struct ProviderConfig {
    pub base_url: String,
    pub model: String,
    pub api_key: Option<String>,
    pub kind: ProviderKind,
}

/// What a provider configuration holds.
pub ghost struct ProviderView {
    pub base_url: Seq<char>,
    pub model: Seq<char>,
    pub api_key: Option<Seq<char>>,
    pub kind: ProviderKind,
}

/// What an optional text holds.
pub open spec fn optional(text: Option<String>) -> Option<Seq<char>> {
    match text {
        Some(s) => Some(s@),
        None => None,
    }
}

impl View for ProviderConfig {
    type V = ProviderView;

    open spec fn view(&self) -> ProviderView {
        ProviderView {
            base_url: self.base_url@,
            model: self.model@,
            api_key: optional(self.api_key),
            kind: self.kind,
        }
    }
}

/// A call of a tool, as a model asks for it.
#[derive(Debug, PartialEq)]
pub struct ToolCall {
    pub id: String,
    pub name: String,
    pub arguments: String,
}

/// What a tool call holds.
pub ghost struct CallView {
    pub id: Seq<char>,
    pub name: Seq<char>,
    pub arguments: Seq<char>,
}

impl View for ToolCall {
    type V = CallView;

    open spec fn view(&self) -> CallView {
        CallView { id: self.id@, name: self.name@, arguments: self.arguments@ }
    }
}

/// What a sequence of tool calls holds.
pub open spec fn calls(items: Seq<ToolCall>) -> Seq<CallView> {
    Seq::new(items.len(), |i: int| items[i]@)
}

impl ToolCall {
    /// A second copy of the call.
    pub fn copy(&self) -> (r: ToolCall)
        ensures
            r@ == self@,
    {
        ToolCall {
            id: self.id.clone(),
            name: self.name.clone(),
            arguments: self.arguments.clone(),
        }
    }
}

/// A second copy of tool calls.
pub fn copy_calls(items: &Vec<ToolCall>) -> (r: Vec<ToolCall>)
    ensures
        calls(r@) == calls(items@),
{
    let mut out: Vec<ToolCall> = Vec::new();
    let mut i: usize = 0;
    while i < items.len()
        invariant
            i <= items@.len(),
            out@.len() == i,
            forall|k: int| 0 <= k < i ==> (#[trigger] out@[k])@ == items@[k]@,
        decreases items@.len() - i,
    {
        out.push(items[i].copy());
        i = i + 1;
    }
    assert(calls(out@) =~= calls(items@));
    out
}

/// One message of a conversation.
#[derive(Debug, PartialEq)]
pub struct ChatMessage {
    pub role: String,
    pub content: String,
    pub tool_calls: Option<Vec<ToolCall>>,
    pub tool_call_id: Option<String>,
}

/// What a message holds.
pub ghost struct MessageView {
    pub role: Seq<char>,
    pub content: Seq<char>,
    pub tool_calls: Option<Seq<CallView>>,
    pub tool_call_id: Option<Seq<char>>,
}

impl View for ChatMessage {
    type V = MessageView;

    open spec fn view(&self) -> MessageView {
        MessageView {
            role: self.role@,
            content: self.content@,
            tool_calls: match self.tool_calls {
                Some(items) => Some(calls(items@)),
                None => None,
            },
            tool_call_id: optional(self.tool_call_id),
        }
    }
}

/// What a sequence of messages holds.
pub open spec fn messages(items: Seq<ChatMessage>) -> Seq<MessageView> {
    Seq::new(items.len(), |i: int| items[i]@)
}

/// A message that is a text.
pub open spec fn text_message(role: Seq<char>, content: Seq<char>) -> MessageView {
    MessageView { role, content, tool_calls: None, tool_call_id: None }
}

/// A message that answers a tool call.
pub open spec fn result_message(tool_call_id: Seq<char>, content: Seq<char>) -> MessageView {
    MessageView {
        role: "tool"@,
        content,
        tool_calls: None,
        tool_call_id: Some(tool_call_id),
    }
}

/// A message by which the assistant calls tools.
pub open spec fn calls_message(content: Seq<char>, items: Seq<CallView>) -> MessageView {
    MessageView {
        role: "assistant"@,
        content,
        tool_calls: Some(items),
        tool_call_id: None,
    }
}

impl ChatMessage {
    /// A message that is a text.
    pub fn text(role: &str, content: &str) -> (r: ChatMessage)
        ensures
            r@ == text_message(role@, content@),
            r.role@ == role@,
            r.content@ == content@,
            r.tool_calls is None,
            r.tool_call_id is None,
    {
        ChatMessage {
            role: role.to_owned(),
            content: content.to_owned(),
            tool_calls: None,
            tool_call_id: None,
        }
    }

    /// A message that answers a tool call.
    pub fn tool_result(tool_call_id: &str, content: &str) -> (r: ChatMessage)
        ensures
            r@ == result_message(tool_call_id@, content@),
            r.role@ == "tool"@,
            r.content@ == content@,
            r.tool_calls is None,
            r.tool_call_id matches Some(id) && id@ == tool_call_id@,
    {
        ChatMessage {
            role: "tool".to_owned(),
            content: content.to_owned(),
            tool_calls: None,
            tool_call_id: Some(tool_call_id.to_owned()),
        }
    }

    /// A message by which the assistant calls tools.
    pub fn assistant_tool_calls(content: &str, items: Vec<ToolCall>) -> (r: ChatMessage)
        ensures
            r@ == calls_message(content@, calls(items@)),
            r.role@ == "assistant"@,
            r.content@ == content@,
            r.tool_calls == Some(items),
            r.tool_call_id is None,
    {
        ChatMessage {
            role: "assistant".to_owned(),
            content: content.to_owned(),
            tool_calls: Some(items),
            tool_call_id: None,
        }
    }
}

/// Tokens that a model call took.
#[derive(Debug, Clone, Copy, PartialEq, Eq, Structural)]
pub struct ChatUsage {
    pub prompt_tokens: u64,
    pub completion_tokens: u64,
}

impl Default for ChatUsage {
    fn default() -> (r: ChatUsage)
        ensures
            r == no_tokens(),
    {
        ChatUsage { prompt_tokens: 0, completion_tokens: 0 }
    }
}

/// No tokens.
pub open spec fn no_tokens() -> ChatUsage {
    ChatUsage { prompt_tokens: 0, completion_tokens: 0 }
}

/// What a model call gave.
#[derive(Debug, PartialEq)]
pub struct ChatResult {
    pub content: String,
    pub usage: Option<ChatUsage>,
    pub tool_calls: Vec<ToolCall>,
}

impl Default for ChatResult {
    fn default() -> (r: ChatResult)
        ensures
            r.content@ == Seq::<char>::empty(),
            r.usage is None,
            r.tool_calls@ == Seq::<ToolCall>::empty(),
    {
        ChatResult { content: String::new(), usage: None, tool_calls: Vec::new() }
    }
}

// ---------------------------------------------------------------------------
// Requests
// ---------------------------------------------------------------------------

/// A request to a provider: a JSON body that is posted to a URL.
#[derive(Debug, PartialEq)]
pub struct Request {
    pub url: String,
    pub bearer: Option<String>,
    pub headers: Vec<(String, String)>,
    pub body: Json,
}

/// What headers hold.
pub open spec fn headers(items: Seq<(String, String)>) -> Seq<(Seq<char>, Seq<char>)> {
    Seq::new(items.len(), |i: int| (items[i].0@, items[i].1@))
}

/// The text without the slashes that end it.
pub open spec fn without_slashes(text: Seq<char>) -> Seq<char>
    decreases text.len(),
{
    if text.len() > 0 && text.last() == '/' {
        without_slashes(text.drop_last())
    } else {
        text
    }
}

/// The text without the slashes that end it.
pub fn strip_slashes(text: &str) -> (r: String)
    ensures
        r@ == without_slashes(text@),
{
    let chars = chars_of(text);
    let mut n: usize = chars.len();
    assert(chars@.take(n as int) =~= chars@);
    while n > 0 && chars[n - 1] == '/'
        invariant
            n <= chars@.len(),
            without_slashes(chars@.take(n as int)) == without_slashes(text@),
        decreases n,
    {
        assert(chars@.take(n as int).drop_last() =~= chars@.take(n - 1));
        n = n - 1;
    }
    let r = string_between(chars.as_slice(), 0, n);
    assert(r@ =~= chars@.take(n as int));
    r
}

/// A tool call in the shape that OpenAI takes.
pub open spec fn openai_call(c: CallView) -> Tree {
    let function = json::no_fields().push(("arguments"@, Tree::Text(c.arguments))).push(
        ("name"@, Tree::Text(c.name)),
    );
    Tree::Object(
        json::no_fields().push(("function"@, Tree::Object(function))).push(
            ("id"@, Tree::Text(c.id)),
        ).push(("type"@, Tree::Text("function"@))),
    )
}

/// The text of an optional text, empty where there is none.
pub open spec fn or_empty(text: Option<Seq<char>>) -> Seq<char> {
    match text {
        Some(s) => s,
        None => Seq::empty(),
    }
}

/// A message in the shape that OpenAI takes.
pub open spec fn openai_message(m: MessageView) -> Tree {
    Tree::Object(
        if m.role == "tool"@ {
            json::no_fields().push(("content"@, Tree::Text(m.content))).push(
                ("role"@, Tree::Text(m.role)),
            ).push(("tool_call_id"@, Tree::Text(or_empty(m.tool_call_id))))
        } else {
            match m.tool_calls {
                Some(items) => {
                    let content = if m.content.len() == 0 {
                        Tree::Null
                    } else {
                        Tree::Text(m.content)
                    };
                    let made = Tree::Array(items.map_values(|c: CallView| openai_call(c)));
                    json::no_fields().push(("content"@, content)).push(
                        ("role"@, Tree::Text(m.role)),
                    ).push(("tool_calls"@, made))
                },
                None => json::no_fields().push(("content"@, Tree::Text(m.content))).push(
                    ("role"@, Tree::Text(m.role)),
                ),
            }
        },
    )
}

/// The messages in the shape that OpenAI takes.
pub open spec fn openai_messages(items: Seq<MessageView>) -> Tree {
    Tree::Array(items.map_values(|m: MessageView| openai_message(m)))
}

/// The body of a request to an OpenAI-compatible provider.
pub open spec fn openai_body(model: Seq<char>, items: Seq<MessageView>, tools: Option<Tree>) -> Tree {
    let base = json::no_fields().push(("messages"@, openai_messages(items))).push(
        ("model"@, Tree::Text(model)),
    ).push(("stream"@, Tree::Bool(true)));
    Tree::Object(
        match tools {
            Some(t) => base.push(("tools"@, t)),
            None => base,
        },
    )
}

fn build_openai_call(c: &ToolCall) -> (r: Json)
    ensures
        r@ == openai_call(c@),
{
    Fields::new().with(
        "function",
        Fields::new().with("arguments", Json::of_str(c.arguments.as_str())).with(
            "name",
            Json::of_str(c.name.as_str()),
        ).object(),
    ).with("id", Json::of_str(c.id.as_str())).with("type", Json::of_str("function")).object()
}

/// The text of an optional text, empty where there is none.
pub fn text_of(text: &Option<String>) -> (r: String)
    ensures
        r@ == or_empty(optional(*text)),
{
    match text {
        Some(s) => s.clone(),
        None => {
            let r = String::new();
            assert(r@ =~= Seq::<char>::empty());
            r
        },
    }
}

fn build_openai_message(m: &ChatMessage) -> (r: Json)
    ensures
        r@ == openai_message(m@),
{
    if same(m.role.as_str(), "tool") {
        return Fields::new().with("content", Json::of_str(m.content.as_str())).with(
            "role",
            Json::of_str(m.role.as_str()),
        ).with("tool_call_id", Json::Text(text_of(&m.tool_call_id))).object();
    }
    match &m.tool_calls {
        Some(items) => {
            let content = if chars_of(m.content.as_str()).len() == 0 {
                Json::Null
            } else {
                Json::of_str(m.content.as_str())
            };
            let mut built: Vec<Json> = Vec::new();
            let mut i: usize = 0;
            while i < items.len()
                invariant
                    i <= items@.len(),
                    built@.len() == i,
                    forall|k: int| 0 <= k < i ==> (#[trigger] built@[k])@ == openai_call(items@[k]@),
                decreases items@.len() - i,
            {
                built.push(build_openai_call(&items[i]));
                i = i + 1;
            }
            assert(json::trees(built@) =~= calls(items@).map_values(
                |c: CallView| openai_call(c),
            ));
            Fields::new().with("content", content).with("role", Json::of_str(m.role.as_str())).with(
                "tool_calls",
                Json::of_items(built),
            ).object()
        },
        None => Fields::new().with("content", Json::of_str(m.content.as_str())).with(
            "role",
            Json::of_str(m.role.as_str()),
        ).object(),
    }
}

/// The messages in the shape that OpenAI takes, with tool calls and the ids that they
/// are answered by.
pub fn build_openai_messages(items: &[ChatMessage]) -> (r: Json)
    ensures
        r@ == openai_messages(messages(items@)),
{
    let mut built: Vec<Json> = Vec::new();
    let mut i: usize = 0;
    while i < items.len()
        invariant
            i <= items@.len(),
            built@.len() == i,
            forall|k: int| 0 <= k < i ==> (#[trigger] built@[k])@ == openai_message(items@[k]@),
        decreases items@.len() - i,
    {
        built.push(build_openai_message(&items[i]));
        i = i + 1;
    }
    assert(json::trees(built@) =~= messages(items@).map_values(|m: MessageView| openai_message(m)));
    Json::of_items(built)
}

/// The request that starts a chat with an OpenAI-compatible provider: posted to
/// `{base_url}/chat/completions`, streamed, with the key as bearer.
pub fn openai_request(cfg: &ProviderConfig, items: &[ChatMessage], tools: Option<&Json>) -> (r:
    Request)
    ensures
        r.url@ == without_slashes(cfg.base_url@) + "/chat/completions"@,
        optional(r.bearer) == optional(cfg.api_key),
        headers(r.headers@) == Seq::<(Seq<char>, Seq<char>)>::empty(),
        r.body@ == openai_body(
            cfg.model@,
            messages(items@),
            match tools {
                Some(t) => Some(t@),
                None => None,
            },
        ),
{
    let mut url = strip_slashes(cfg.base_url.as_str());
    url.append("/chat/completions");
    let base = Fields::new().with("messages", build_openai_messages(items)).with(
        "model",
        Json::of_str(cfg.model.as_str()),
    ).with("stream", Json::Bool(true));
    let body = match tools {
        Some(t) => base.with("tools", t.copy()).object(),
        None => base.object(),
    };
    let none: Vec<(String, String)> = Vec::new();
    assert(headers(none@) =~= Seq::<(Seq<char>, Seq<char>)>::empty());
    Request { url, bearer: copy_optional(&cfg.api_key), headers: none, body }
}

/// A second copy of an optional text.
pub fn copy_optional(text: &Option<String>) -> (r: Option<String>)
    ensures
        optional(r) == optional(*text),
{
    match text {
        Some(s) => Some(s.clone()),
        None => None,
    }
}

// ---------------------------------------------------------------------------
// Redaction
// ---------------------------------------------------------------------------

/// A tool call without the secrets.
pub open spec fn scrubbed_call(secrets: Seq<Seq<char>>, call: CallView) -> CallView {
    CallView {
        id: ledger::scrubbed(secrets, call.id),
        name: ledger::scrubbed(secrets, call.name),
        arguments: ledger::scrubbed(secrets, call.arguments),
    }
}

/// A message without the secrets. Its role stays: it says who speaks, not what is said.
pub open spec fn scrubbed_message(secrets: Seq<Seq<char>>, m: MessageView) -> MessageView {
    MessageView {
        role: m.role,
        content: ledger::scrubbed(secrets, m.content),
        tool_calls: match m.tool_calls {
            Some(items) => Some(
                Seq::new(items.len(), |i: int| scrubbed_call(secrets, items[i])),
            ),
            None => None,
        },
        tool_call_id: match m.tool_call_id {
            Some(id) => Some(ledger::scrubbed(secrets, id)),
            None => None,
        },
    }
}

/// A conversation without the secrets.
pub open spec fn scrubbed_messages(secrets: Seq<Seq<char>>, items: Seq<MessageView>) -> Seq<
    MessageView,
> {
    Seq::new(items.len(), |i: int| scrubbed_message(secrets, items[i]))
}

/// A tool call holds a text.
pub open spec fn call_holds(call: CallView, text: Seq<char>) -> bool {
    text::occurs(call.id, text) || text::occurs(call.name, text) || text::occurs(
        call.arguments,
        text,
    )
}

/// A message holds a text in what is said, in a tool call, or in the id of the call that
/// it answers.
pub open spec fn message_holds(m: MessageView, text: Seq<char>) -> bool {
    ||| text::occurs(m.content, text)
    ||| m.tool_call_id is Some && text::occurs(m.tool_call_id->0, text)
    ||| m.tool_calls is Some && exists|i: int|
        0 <= i < m.tool_calls->0.len() && call_holds(#[trigger] m.tool_calls->0[i], text)
}

impl Redactor {
    fn scrub_call(&self, call: &ToolCall) -> (r: ToolCall)
        ensures
            r@ == scrubbed_call(self@, call@),
    {
        ToolCall {
            id: self.scrub(call.id.as_str()),
            name: self.scrub(call.name.as_str()),
            arguments: self.scrub(call.arguments.as_str()),
        }
    }

    fn scrub_message(&self, m: &ChatMessage) -> (r: ChatMessage)
        ensures
            r@ == scrubbed_message(self@, m@),
    {
        let tool_calls = match &m.tool_calls {
            Some(items) => {
                let mut out: Vec<ToolCall> = Vec::new();
                let mut i: usize = 0;
                while i < items.len()
                    invariant
                        i <= items@.len(),
                        out@.len() == i,
                        forall|k: int|
                            0 <= k < i ==> (#[trigger] out@[k])@ == scrubbed_call(
                                self@,
                                items@[k]@,
                            ),
                    decreases items@.len() - i,
                {
                    out.push(self.scrub_call(&items[i]));
                    i = i + 1;
                }
                assert(calls(out@) =~= Seq::new(
                    calls(items@).len(),
                    |i: int| scrubbed_call(self@, calls(items@)[i]),
                ));
                Some(out)
            },
            None => None,
        };
        let tool_call_id = match &m.tool_call_id {
            Some(id) => Some(self.scrub(id.as_str())),
            None => None,
        };
        ChatMessage {
            role: m.role.clone(),
            content: self.scrub(m.content.as_str()),
            tool_calls,
            tool_call_id,
        }
    }

    /// The conversation with every known secret replaced, as it may be sent to a provider.
    pub fn scrub_messages(&self, items: &[ChatMessage]) -> (r: Vec<ChatMessage>)
        ensures
            messages(r@) == scrubbed_messages(self@, messages(items@)),
    {
        let mut out: Vec<ChatMessage> = Vec::new();
        let mut i: usize = 0;
        while i < items.len()
            invariant
                i <= items@.len(),
                out@.len() == i,
                forall|k: int|
                    0 <= k < i ==> (#[trigger] out@[k])@ == scrubbed_message(self@, items@[k]@),
            decreases items@.len() - i,
        {
            out.push(self.scrub_message(&items[i]));
            i = i + 1;
        }
        assert(messages(out@) =~= scrubbed_messages(self@, messages(items@)));
        out
    }
}

// ---------------------------------------------------------------------------
// What a stream adds up to
// ---------------------------------------------------------------------------

/// How far a stream has come.
#[derive(Debug, Clone, Copy, PartialEq, Eq, Structural)]
pub enum Progress {
    /// More may come.
    Open,
    /// The provider said that this is all.
    Done,
    /// A tool call was given a place that no list can have.
    Failed,
}

/// What a stream has added up to so far. `deltas` are the pieces of content that were not
/// handed out yet.
pub ghost struct ChatView {
    pub content: Seq<char>,
    pub usage: Option<ChatUsage>,
    pub calls: Seq<CallView>,
    pub deltas: Seq<Seq<char>>,
    pub progress: Progress,
}

/// With one more piece of content.
pub open spec fn with_content(chat: ChatView, piece: Option<Seq<char>>) -> ChatView {
    match piece {
        Some(p) => ChatView { content: chat.content + p, deltas: chat.deltas.push(p), ..chat },
        None => chat,
    }
}

/// A tool call of which nothing is known yet.
pub open spec fn blank_call() -> CallView {
    CallView { id: Seq::empty(), name: Seq::empty(), arguments: Seq::empty() }
}

/// At least `n` calls, blank ones at the end where there were fewer.
pub open spec fn padded(items: Seq<CallView>, n: int) -> Seq<CallView> {
    if items.len() >= n {
        items
    } else {
        items + Seq::new((n - items.len()) as nat, |i: int| blank_call())
    }
}

/// The call with what a fragment says of it: the id and the name replace what was there,
/// the arguments are appended.
pub open spec fn patched(call: CallView, fragment: Tree) -> CallView {
    let function = fragment.get("function"@);
    CallView {
        id: match fragment.text_at("id"@) {
            Some(id) => id,
            None => call.id,
        },
        name: match function {
            Some(f) => match f.text_at("name"@) {
                Some(name) => name,
                None => call.name,
            },
            None => call.name,
        },
        arguments: match function {
            Some(f) => match f.text_at("arguments"@) {
                Some(more) => call.arguments + more,
                None => call.arguments,
            },
            None => call.arguments,
        },
    }
}

/// The place of the call that a fragment speaks of; the first where it names none.
pub open spec fn place_of(fragment: Tree) -> usize {
    match fragment.unsigned_at("index"@) {
        Some(i) => i as usize,
        None => 0,
    }
}

/// With what one fragment of a tool call says.
pub open spec fn with_fragment(chat: ChatView, fragment: Tree) -> ChatView {
    let place = place_of(fragment);
    if chat.progress == Progress::Failed {
        chat
    } else if place == usize::MAX {
        ChatView { progress: Progress::Failed, ..chat }
    } else {
        let wide = padded(chat.calls, place + 1);
        ChatView {
            calls: wide.update(place as int, patched(wide[place as int], fragment)),
            ..chat
        }
    }
}

/// With what fragments of tool calls say, one after the other.
pub open spec fn with_fragments(chat: ChatView, fragments: Seq<Tree>) -> ChatView
    decreases fragments.len(),
{
    if fragments.len() == 0 {
        chat
    } else {
        with_fragment(with_fragments(chat, fragments.drop_last()), fragments.last())
    }
}

/// The tokens that a tree tells: an object with both counts, or the two counts in an
/// array.
pub open spec fn usage_in(tree: Tree) -> Option<ChatUsage> {
    match tree {
        Tree::Array(items) => if items.len() == 2 && items[0].unsigned() is Some
            && items[1].unsigned() is Some {
            Some(
                ChatUsage {
                    prompt_tokens: items[0].unsigned()->0,
                    completion_tokens: items[1].unsigned()->0,
                },
            )
        } else {
            None
        },
        _ => match (tree.unsigned_at("prompt_tokens"@), tree.unsigned_at("completion_tokens"@)) {
            (Some(prompt_tokens), Some(completion_tokens)) => Some(
                ChatUsage { prompt_tokens, completion_tokens },
            ),
            _ => None,
        },
    }
}

/// The delta of the first choice of an event.
pub open spec fn first_delta(event: Tree) -> Option<Tree> {
    match event.get("choices"@) {
        Some(choices) => match choices.head() {
            Some(choice) => choice.get("delta"@),
            None => None,
        },
        None => None,
    }
}

/// With the delta of an event: its content, then its fragments of tool calls.
pub open spec fn with_delta(chat: ChatView, delta: Option<Tree>) -> ChatView {
    match delta {
        Some(d) => {
            let said = with_content(chat, d.text_at("content"@));
            match d.items_at("tool_calls"@) {
                Some(fragments) => with_fragments(said, fragments),
                None => said,
            }
        },
        None => chat,
    }
}

/// With the tokens that an event tells, if it tells them.
pub open spec fn with_usage(chat: ChatView, usage: Option<Tree>) -> ChatView {
    match usage {
        Some(u) => match usage_in(u) {
            Some(told) => ChatView { usage: Some(told), ..chat },
            None => chat,
        },
        None => chat,
    }
}

/// With one event of an OpenAI-compatible stream.
pub open spec fn with_openai_event(chat: ChatView, event: Tree) -> ChatView {
    let moved = with_delta(chat, first_delta(event));
    if moved.progress == Progress::Failed {
        moved
    } else {
        with_usage(moved, event.get("usage"@))
    }
}

/// With one payload of an OpenAI-compatible stream. `[DONE]` ends the stream; what is no
/// JSON is passed over.
pub open spec fn openai_step(chat: ChatView, payload: Seq<char>) -> ChatView {
    if chat.progress != Progress::Open {
        chat
    } else if payload == "[DONE]"@ {
        ChatView { progress: Progress::Done, ..chat }
    } else if payload.len() == 0 {
        chat
    } else {
        match json::parsed_tree(payload) {
            Some(event) => with_openai_event(chat, event),
            None => chat,
        }
    }
}

/// What a stream has added up to so far.
#[derive(Debug)]
pub struct Chat {
    pub content: String,
    pub usage: Option<ChatUsage>,
    pub calls: Vec<ToolCall>,
    pub deltas: Vec<String>,
    pub progress: Progress,
}

impl View for Chat {
    type V = ChatView;

    open spec fn view(&self) -> ChatView {
        ChatView {
            content: self.content@,
            usage: self.usage,
            calls: calls(self.calls@),
            deltas: text::texts(self.deltas@),
            progress: self.progress,
        }
    }
}

/// The tokens that a tree tells.
pub fn read_usage(json: &Json) -> (r: Option<ChatUsage>)
    ensures
        r == usage_in(json@),
{
    match json.as_array() {
        Some(items) => {
            if items.len() != 2 {
                return None;
            }
            match (items[0].as_u64(), items[1].as_u64()) {
                (Some(prompt_tokens), Some(completion_tokens)) => Some(
                    ChatUsage { prompt_tokens, completion_tokens },
                ),
                _ => None,
            }
        },
        None => match (json.unsigned_at("prompt_tokens"), json.unsigned_at("completion_tokens")) {
            (Some(prompt_tokens), Some(completion_tokens)) => Some(
                ChatUsage { prompt_tokens, completion_tokens },
            ),
            _ => None,
        },
    }
}

impl Chat {
    /// Nothing was said yet.
    pub fn new(usage: Option<ChatUsage>) -> (r: Chat)
        ensures
            r@ == opening(usage),
    {
        let calls: Vec<ToolCall> = Vec::new();
        let deltas: Vec<String> = Vec::new();
        let r = Chat { content: String::new(), usage, calls, deltas, progress: Progress::Open };
        proof {
            assert(r@.content =~= Seq::<char>::empty());
            assert(r@.calls =~= Seq::<CallView>::empty());
            assert(r@.deltas =~= Seq::<Seq<char>>::empty());
        }
        r
    }

    /// Takes in one more piece of content.
    pub fn say(&mut self, piece: &str)
        ensures
            final(self)@ == with_content(old(self)@, Some(piece@)),
    {
        self.content.append(piece);
        let ghost before = text::texts(self.deltas@);
        self.deltas.push(piece.to_owned());
        assert(text::texts(self.deltas@) =~= before.push(piece@));
    }

    /// Takes in one fragment of a tool call.
    fn take_fragment(&mut self, fragment: &Json)
        ensures
            final(self)@ == with_fragment(old(self)@, fragment@),
    {
        if self.progress == Progress::Failed {
            return;
        }
        let place: usize = match fragment.unsigned_at("index") {
            Some(i) => i as usize,
            None => 0,
        };
        if place == usize::MAX {
            self.progress = Progress::Failed;
            return;
        }
        let ghost before = calls(self.calls@);
        let ghost rest_of = self@;
        assert(before =~= padded(before, before.len() as int));
        while self.calls.len() <= place
            invariant
                place < usize::MAX,
                calls(self.calls@) == padded(before, self.calls@.len() as int),
                self.calls@.len() <= place + 1 || self.calls@.len() == before.len(),
                before.len() <= self.calls@.len(),
                self@ == (ChatView { calls: calls(self.calls@), ..rest_of }),
            decreases place + 1 - self.calls@.len(),
        {
            let ghost so_far = calls(self.calls@);
            self.calls.push(
                ToolCall { id: String::new(), name: String::new(), arguments: String::new() },
            );
            proof {
                let last = self.calls@.last()@;
                assert(last.id =~= Seq::<char>::empty());
                assert(last.name =~= Seq::<char>::empty());
                assert(last.arguments =~= Seq::<char>::empty());
                assert(calls(self.calls@) =~= so_far.push(blank_call()));
                assert(calls(self.calls@) =~= padded(before, self.calls@.len() as int));
            }
        }
        let ghost wide = calls(self.calls@);
        assert(wide =~= padded(before, place + 1));
        let ghost call = self.calls@[place as int]@;
        let id = match fragment.text_at("id") {
            Some(id) => id.to_owned(),
            None => self.calls[place].id.clone(),
        };
        let mut name = self.calls[place].name.clone();
        let mut arguments = self.calls[place].arguments.clone();
        match fragment.get("function") {
            Some(function) => {
                match function.text_at("name") {
                    Some(told) => {
                        name = told.to_owned();
                    },
                    None => {},
                }
                match function.text_at("arguments") {
                    Some(more) => {
                        arguments.append(more);
                    },
                    None => {},
                }
            },
            None => {},
        }
        let entry = ToolCall { id, name, arguments };
        assert(entry@ == patched(call, fragment@));
        let ghost held = entry@;
        self.calls.set(place, entry);
        assert(calls(self.calls@) =~= wide.update(place as int, held));
    }

    /// Takes in fragments of tool calls, one after the other.
    fn take_fragments(&mut self, fragments: &Vec<Json>)
        ensures
            final(self)@ == with_fragments(old(self)@, json::trees(fragments@)),
    {
        let ghost all = json::trees(fragments@);
        let mut i: usize = 0;
        assert(all.take(0) =~= Seq::<Tree>::empty());
        while i < fragments.len()
            invariant
                i <= fragments@.len(),
                all == json::trees(fragments@),
                self@ == with_fragments(old(self)@, all.take(i as int)),
            decreases fragments@.len() - i,
        {
            proof {
                assert(all.take(i + 1).drop_last() =~= all.take(i as int));
                assert(all.take(i + 1).last() == fragments@[i as int]@);
            }
            self.take_fragment(&fragments[i]);
            i = i + 1;
        }
        assert(all.take(i as int) =~= all);
    }

    /// Takes in one event of an OpenAI-compatible stream.
    pub fn take_openai_event(&mut self, event: &Json)
        ensures
            final(self)@ == with_openai_event(old(self)@, event@),
    {
        let choice = match event.get("choices") {
            Some(choices) => choices.head(),
            None => None,
        };
        let delta = match choice {
            Some(choice) => choice.get("delta"),
            None => None,
        };
        match delta {
            Some(delta) => {
                match delta.text_at("content") {
                    Some(piece) => {
                        self.say(piece);
                    },
                    None => {},
                }
                match delta.items_at("tool_calls") {
                    Some(fragments) => {
                        self.take_fragments(fragments);
                    },
                    None => {},
                }
            },
            None => {},
        }
        if self.progress == Progress::Failed {
            return;
        }
        match event.get("usage") {
            Some(u) => {
                match read_usage(u) {
                    Some(told) => {
                        self.usage = Some(told);
                    },
                    None => {},
                }
            },
            None => {},
        }
    }

    /// Takes in one payload of an OpenAI-compatible stream.
    pub fn take_openai(&mut self, payload: &str)
        ensures
            final(self)@ == openai_step(old(self)@, payload@),
    {
        if self.progress != Progress::Open {
            return;
        }
        if same(payload, "[DONE]") {
            self.progress = Progress::Done;
            return;
        }
        if chars_of(payload).len() == 0 {
            return;
        }
        match parse_json(payload) {
            Some(event) => {
                self.take_openai_event(&event);
            },
            None => {},
        }
    }
}

/// What a stream has added up to before anything came.
pub open spec fn opening(usage: Option<ChatUsage>) -> ChatView {
    ChatView {
        content: Seq::empty(),
        usage,
        calls: Seq::empty(),
        deltas: Seq::empty(),
        progress: Progress::Open,
    }
}

// ---------------------------------------------------------------------------
// Streams
// ---------------------------------------------------------------------------

/// The tokens told before anything came: Anthropic counts from zero.
pub open spec fn first_usage(kind: ProviderKind) -> Option<ChatUsage> {
    match kind {
        ProviderKind::OpenAI => None,
        ProviderKind::Anthropic => Some(no_tokens()),
    }
}

/// With one payload of a stream.
pub open spec fn step(kind: ProviderKind, chat: ChatView, payload: Seq<char>) -> ChatView {
    match kind {
        ProviderKind::OpenAI => openai_step(chat, payload),
        ProviderKind::Anthropic => anthropic::anthropic_step(chat, payload),
    }
}

/// With payloads of a stream, one after the other.
pub open spec fn steps(kind: ProviderKind, chat: ChatView, payloads: Seq<Seq<char>>) -> ChatView
    decreases payloads.len(),
{
    if payloads.len() == 0 {
        chat
    } else {
        step(kind, steps(kind, chat, payloads.drop_last()), payloads.last())
    }
}

/// The stream of a provider's answer while it comes in.
#[derive(Debug)]
pub struct ChatStream {
    kind: ProviderKind,
    buffer: Buffer,
    chat: Chat,
}

impl ChatStream {
    /// The protocol of the stream.
    pub closed spec fn kind(&self) -> ProviderKind {
        self.kind
    }

    /// The bytes that are not decoded yet.
    pub closed spec fn pending(&self) -> Seq<u8> {
        self.buffer@
    }

    /// What the stream has added up to.
    pub closed spec fn chat(&self) -> ChatView {
        self.chat@
    }

    /// A stream of which nothing came yet.
    pub fn new(kind: ProviderKind) -> (r: ChatStream)
        ensures
            r.kind() == kind,
            r.pending() == Seq::<u8>::empty(),
            r.chat() == opening(first_usage(kind)),
    {
        let usage = match kind {
            ProviderKind::OpenAI => None,
            ProviderKind::Anthropic => Some(ChatUsage { prompt_tokens: 0, completion_tokens: 0 }),
        };
        ChatStream { kind, buffer: Buffer::new(), chat: Chat::new(usage) }
    }

    /// Takes in the next chunk of bytes.
    pub fn feed(&mut self, chunk: &[u8])
        ensures
            final(self).kind() == old(self).kind(),
            final(self).pending() == sse::rest(old(self).pending() + chunk@),
            final(self).chat() == steps(
                old(self).kind(),
                old(self).chat(),
                sse::payloads(old(self).pending() + chunk@),
            ),
    {
        let payloads = self.buffer.push(chunk);
        let ghost all = text::texts(payloads@);
        let mut i: usize = 0;
        assert(all.take(0) =~= Seq::<Seq<char>>::empty());
        while i < payloads.len()
            invariant
                i <= payloads@.len(),
                all == text::texts(payloads@),
                self.kind == old(self).kind,
                self.buffer@ == sse::rest(old(self).pending() + chunk@),
                self.chat@ == steps(old(self).kind, old(self).chat@, all.take(i as int)),
            decreases payloads@.len() - i,
        {
            proof {
                assert(all.take(i + 1).drop_last() =~= all.take(i as int));
                assert(all.take(i + 1).last() == payloads@[i as int]@);
            }
            match self.kind {
                ProviderKind::OpenAI => {
                    self.chat.take_openai(payloads[i].as_str());
                },
                ProviderKind::Anthropic => {
                    self.chat.take_anthropic(payloads[i].as_str());
                },
            }
            i = i + 1;
        }
        assert(all.take(i as int) =~= all);
    }

    /// How far the stream has come.
    pub fn progress(&self) -> (r: Progress)
        ensures
            r == self.chat().progress,
    {
        self.chat.progress
    }

    /// Hands out the pieces of content that came since this was last asked.
    pub fn take_deltas(&mut self) -> (r: Vec<String>)
        ensures
            text::texts(r@) == old(self).chat().deltas,
            final(self).kind() == old(self).kind(),
            final(self).pending() == old(self).pending(),
            final(self).chat() == (ChatView { deltas: Seq::empty(), ..old(self).chat() }),
    {
        let mut out: Vec<String> = Vec::new();
        std::mem::swap(&mut out, &mut self.chat.deltas);
        assert(text::texts(self.chat.deltas@) =~= Seq::<Seq<char>>::empty());
        out
    }

    /// What the stream added up to; `None` where it failed.
    pub fn finish(self) -> (r: Option<ChatResult>)
        ensures
            r is None <==> self.chat().progress == Progress::Failed,
            r is Some ==> r->0.content@ == self.chat().content && r->0.usage == self.chat().usage
                && calls(r->0.tool_calls@) == self.chat().calls,
    {
        if self.chat.progress == Progress::Failed {
            return None;
        }
        Some(
            ChatResult {
                content: self.chat.content,
                usage: self.chat.usage,
                tool_calls: self.chat.calls,
            },
        )
    }
}

/// The request that starts a chat, by the protocol that the provider speaks. The known
/// secrets are replaced in the conversation before it is written down.
pub fn chat_request(
    redactor: &Redactor,
    cfg: &ProviderConfig,
    items: &[ChatMessage],
    tools: Option<&Json>,
) -> (r: Request)
    ensures
        r.url@ == without_slashes(cfg.base_url@) + (match cfg.kind {
            ProviderKind::OpenAI => "/chat/completions"@,
            ProviderKind::Anthropic => "/v1/messages"@,
        }),
        optional(r.bearer) == (match cfg.kind {
            ProviderKind::OpenAI => optional(cfg.api_key),
            ProviderKind::Anthropic => None,
        }),
        headers(r.headers@) == (match cfg.kind {
            ProviderKind::OpenAI => Seq::empty(),
            ProviderKind::Anthropic => anthropic::key_headers(optional(cfg.api_key)),
        }),
        r.body@ == ({
            let given = match tools {
                Some(t) => Some(t@),
                None => None,
            };
            let sent = scrubbed_messages(redactor@, messages(items@));
            match cfg.kind {
                ProviderKind::OpenAI => openai_body(cfg.model@, sent, given),
                ProviderKind::Anthropic => anthropic::anthropic_body(cfg.model@, sent, given),
            }
        }),
{
    let sent = redactor.scrub_messages(items);
    match cfg.kind {
        ProviderKind::OpenAI => openai_request(cfg, sent.as_slice(), tools),
        ProviderKind::Anthropic => anthropic::anthropic_request(cfg, sent.as_slice(), tools),
    }
}

// ---------------------------------------------------------------------------
// Laws
// ---------------------------------------------------------------------------

/// A known secret stands nowhere in a conversation that is sent, as long as it cannot
/// overlap the mark that stands in its place.
pub proof fn prompts_hold_no_secret(
    secrets: Seq<Seq<char>>,
    items: Seq<MessageView>,
    secret: Seq<char>,
    i: int,
)
    requires
        secrets.contains(secret),
        secret.len() > 0,
        ledger::apart(secret, ledger::REDACTED@),
        0 <= i < items.len(),
    ensures
        !message_holds(scrubbed_messages(secrets, items)[i], secret),
{
    let m = items[i];
    let sent = scrubbed_messages(secrets, items)[i];
    ledger::scrubbed_text_holds_no_secret(secrets, m.content, secret);
    if m.tool_call_id is Some {
        ledger::scrubbed_text_holds_no_secret(secrets, m.tool_call_id->0, secret);
    }
    if m.tool_calls is Some {
        let made = m.tool_calls->0;
        assert forall|k: int| 0 <= k < made.len() implies !call_holds(
            #[trigger] sent.tool_calls->0[k],
            secret,
        ) by {
            ledger::scrubbed_text_holds_no_secret(secrets, made[k].id, secret);
            ledger::scrubbed_text_holds_no_secret(secrets, made[k].name, secret);
            ledger::scrubbed_text_holds_no_secret(secrets, made[k].arguments, secret);
        }
    }
}

/// A message that holds no known secret is sent as it is.
pub proof fn message_without_secrets_is_kept(secrets: Seq<Seq<char>>, m: MessageView)
    requires
        forall|j: int|
            0 <= j < secrets.len() ==> (#[trigger] secrets[j]).len() == 0 || !message_holds(
                m,
                secrets[j],
            ),
    ensures
        scrubbed_message(secrets, m) == m,
{
    ledger::text_without_secrets_is_kept(secrets, m.content);
    if m.tool_call_id is Some {
        ledger::text_without_secrets_is_kept(secrets, m.tool_call_id->0);
    }
    if m.tool_calls is Some {
        let made = m.tool_calls->0;
        assert forall|k: int| 0 <= k < made.len() implies scrubbed_call(
            secrets,
            #[trigger] made[k],
        ) == made[k] by {
            assert forall|j: int| 0 <= j < secrets.len() implies (#[trigger] secrets[j]).len() == 0
                || !call_holds(made[k], secrets[j]) by {
                assert(secrets[j].len() == 0 || !message_holds(m, secrets[j]));
            }
            ledger::text_without_secrets_is_kept(secrets, made[k].id);
            ledger::text_without_secrets_is_kept(secrets, made[k].name);
            ledger::text_without_secrets_is_kept(secrets, made[k].arguments);
        }
        assert(scrubbed_message(secrets, m).tool_calls->0 =~= made);
    }
}

/// Payloads taken in two portions add up to what they do in one.
pub proof fn portions_add_up(
    kind: ProviderKind,
    chat: ChatView,
    a: Seq<Seq<char>>,
    b: Seq<Seq<char>>,
)
    ensures
        steps(kind, steps(kind, chat, a), b) == steps(kind, chat, a + b),
    decreases b.len(),
{
    if b.len() == 0 {
        assert(a + b =~= a);
    } else {
        portions_add_up(kind, chat, a, b.drop_last());
        assert((a + b).drop_last() =~= a + b.drop_last());
        assert((a + b).last() == b.last());
    }
}

/// How the bytes of an answer are cut into chunks does not change what it adds up to.
pub proof fn answer_is_the_same_in_any_chunks(
    kind: ProviderKind,
    chat: ChatView,
    pending: Seq<u8>,
    a: Seq<u8>,
    b: Seq<u8>,
)
    ensures
        steps(
            kind,
            steps(kind, chat, sse::payloads(pending + a)),
            sse::payloads(sse::rest(pending + a) + b),
        ) == steps(kind, chat, sse::payloads(pending + (a + b))),
        sse::rest(sse::rest(pending + a) + b) == sse::rest(pending + (a + b)),
{
    sse::chunking_does_not_matter(pending + a, b);
    assert(pending + a + b =~= pending + (a + b));
    portions_add_up(
        kind,
        chat,
        sse::payloads(pending + a),
        sse::payloads(sse::rest(pending + a) + b),
    );
}

/// Once the provider said that this is all, nothing that comes is taken in.
pub proof fn nothing_follows_the_end(
    kind: ProviderKind,
    chat: ChatView,
    payloads: Seq<Seq<char>>,
)
    requires
        chat.progress != Progress::Open,
    ensures
        steps(kind, chat, payloads) == chat,
    decreases payloads.len(),
{
    if payloads.len() > 0 {
        nothing_follows_the_end(kind, chat, payloads.drop_last());
    }
}

/// The pieces strung together.
pub open spec fn strung(pieces: Seq<Seq<char>>) -> Seq<char>
    decreases pieces.len(),
{
    if pieces.len() == 0 {
        Seq::empty()
    } else {
        strung(pieces.drop_last()) + pieces.last()
    }
}

/// The pieces that a stream hands out are, strung together, the content that it adds up
/// to, whatever comes.
pub proof fn pieces_are_the_content(
    kind: ProviderKind,
    chat: ChatView,
    payloads: Seq<Seq<char>>,
    before: Seq<char>,
)
    requires
        chat.content == before + strung(chat.deltas),
    ensures
        steps(kind, chat, payloads).content == before + strung(
            steps(kind, chat, payloads).deltas,
        ),
    decreases payloads.len(),
{
    if payloads.len() > 0 {
        let so_far = steps(kind, chat, payloads.drop_last());
        let p = payloads.last();
        pieces_are_the_content(kind, chat, payloads.drop_last(), before);
        match json::parsed_tree(p) {
            Some(event) => {
                match first_delta(event) {
                    Some(d) => {
                        lemma_said(so_far, d.text_at("content"@), before);
                        match d.items_at("tool_calls"@) {
                            Some(fragments) => {
                                lemma_fragments_say_nothing(
                                    with_content(so_far, d.text_at("content"@)),
                                    fragments,
                                );
                            },
                            None => {},
                        }
                    },
                    None => {},
                }
                match event.get("delta"@) {
                    Some(d) => {
                        lemma_said(so_far, d.text_at("text"@), before);
                    },
                    None => {},
                }
            },
            None => {},
        }
    }
}

proof fn lemma_said(chat: ChatView, piece: Option<Seq<char>>, before: Seq<char>)
    requires
        chat.content == before + strung(chat.deltas),
    ensures
        with_content(chat, piece).content == before + strung(with_content(chat, piece).deltas),
{
    match piece {
        Some(p) => {
            assert(chat.deltas.push(p).drop_last() =~= chat.deltas);
            assert(chat.content + p =~= before + (strung(chat.deltas) + p));
        },
        None => {},
    }
}

proof fn lemma_fragments_say_nothing(chat: ChatView, fragments: Seq<Tree>)
    ensures
        with_fragments(chat, fragments).content == chat.content,
        with_fragments(chat, fragments).deltas == chat.deltas,
    decreases fragments.len(),
{
    if fragments.len() > 0 {
        lemma_fragments_say_nothing(chat, fragments.drop_last());
    }
}

proof fn lemma_message_keys_differ()
    ensures
        "content"@ != "role"@,
        "content"@ != "tool_calls"@,
        "content"@ != "tool_call_id"@,
        "role"@ != "tool_calls"@,
        "role"@ != "tool_call_id"@,
        "tool_calls"@ != "tool_call_id"@,
{
    reveal_strlit("content");
    reveal_strlit("role");
    reveal_strlit("tool_calls");
    reveal_strlit("tool_call_id");
    assert("content"@.len() == 7);
    assert("role"@.len() == 4);
    assert("tool_calls"@.len() == 10);
    assert("tool_call_id"@.len() == 12);
}

proof fn lemma_call_keys_differ()
    ensures
        "function"@ != "id"@,
        "function"@ != "type"@,
        "function"@ != "arguments"@,
        "function"@ != "name"@,
        "id"@ != "type"@,
        "id"@ != "arguments"@,
        "id"@ != "name"@,
        "type"@ != "arguments"@,
        "type"@ != "name"@,
        "arguments"@ != "name"@,
{
    reveal_strlit("function");
    reveal_strlit("id");
    reveal_strlit("type");
    reveal_strlit("arguments");
    reveal_strlit("name");
    assert("function"@.len() == 8);
    assert("id"@.len() == 2);
    assert("type"@.len() == 4);
    assert("arguments"@.len() == 9);
    assert("name"@.len() == 4);
    assert("name"@[0] == 'n');
    assert("type"@[0] == 't');
}

proof fn lemma_body_keys_differ()
    ensures
        "messages"@ != "model"@,
        "messages"@ != "stream"@,
        "messages"@ != "tools"@,
        "model"@ != "stream"@,
        "model"@ != "tools"@,
        "stream"@ != "tools"@,
{
    reveal_strlit("messages");
    reveal_strlit("model");
    reveal_strlit("stream");
    reveal_strlit("tools");
    assert("messages"@.len() == 8);
    assert("model"@.len() == 5);
    assert("stream"@.len() == 6);
    assert("tools"@.len() == 5);
    assert("model"@[0] == 'm');
    assert("tools"@[0] == 't');
}

/// A message is sent with its role and its text, the answer to a tool call also under the id
/// of the call.
pub proof fn messages_are_sent_as_they_are(m: MessageView)
    ensures
        openai_message(m).text_at("role"@) == Some(m.role),
        m.role == "tool"@ || m.tool_calls is None || m.content.len() > 0 ==> openai_message(
            m,
        ).text_at("content"@) == Some(m.content),
        m.role != "tool"@ && m.tool_calls is Some && m.content.len() == 0 ==> openai_message(
            m,
        ).get("content"@) == Some(Tree::Null),
        m.role == "tool"@ && m.tool_call_id is Some ==> openai_message(m).text_at("tool_call_id"@)
            == m.tool_call_id,
        m.role == "tool"@ && m.tool_call_id is None ==> openai_message(m).text_at("tool_call_id"@)
            == Some(Seq::<char>::empty()),
        m.role != "tool"@ ==> openai_message(m).get("tool_call_id"@) is None,
        m.role == "tool"@ || m.tool_calls is None ==> openai_message(m).get("tool_calls"@) is None,
{
    lemma_message_keys_differ();
    let fields = openai_message(m)->Object_0;
    json::first_field_counts(fields, "content"@, 0);
    json::first_field_counts(fields, "role"@, 1);
    if m.role == "tool"@ {
        json::first_field_counts(fields, "tool_call_id"@, 2);
    } else {
        json::missing_field_is_none(Tree::Object(fields), "tool_call_id"@);
    }
    if m.role == "tool"@ || m.tool_calls is None {
        json::missing_field_is_none(Tree::Object(fields), "tool_calls"@);
    }
}

/// Tool calls are sent in their order, each with its id, its name and its arguments.
pub proof fn calls_are_sent_as_they_are(m: MessageView, items: Seq<CallView>, i: int)
    requires
        m.role != "tool"@,
        m.tool_calls == Some(items),
        0 <= i < items.len(),
    ensures
        ({
            let made = openai_message(m).items_at("tool_calls"@)->0;
            &&& openai_message(m).items_at("tool_calls"@) is Some
            &&& made.len() == items.len()
            &&& made[i].text_at("id"@) == Some(items[i].id)
            &&& made[i].text_at("type"@) == Some("function"@)
            &&& made[i].get("function"@) is Some
            &&& made[i].get("function"@)->0.text_at("name"@) == Some(items[i].name)
            &&& made[i].get("function"@)->0.text_at("arguments"@) == Some(items[i].arguments)
        }),
{
    lemma_message_keys_differ();
    lemma_call_keys_differ();
    let fields = openai_message(m)->Object_0;
    json::first_field_counts(fields, "tool_calls"@, 2);
    let c = items[i];
    json::lemma_two_fields("arguments"@, Tree::Text(c.arguments), "name"@, Tree::Text(c.name));
    json::lemma_three_fields(
        "function"@,
        openai_call(c)->Object_0[0].1,
        "id"@,
        Tree::Text(c.id),
        "type"@,
        Tree::Text("function"@),
    );
}

/// A request names the model, asks for a stream, and carries every message in its place; the
/// tools go with it as they are, where there are any.
pub proof fn requests_carry_the_conversation(
    model: Seq<char>,
    items: Seq<MessageView>,
    tools: Option<Tree>,
)
    ensures
        ({
            let body = openai_body(model, items, tools);
            &&& body.text_at("model"@) == Some(model)
            &&& body.get("stream"@) == Some(Tree::Bool(true))
            &&& body.get("tools"@) == tools
            &&& body.items_at("messages"@) is Some
            &&& body.items_at("messages"@)->0.len() == items.len()
            &&& forall|i: int|
                0 <= i < items.len() ==> #[trigger] body.items_at("messages"@)->0[i]
                    == openai_message(items[i])
        }),
{
    lemma_body_keys_differ();
    let fields = openai_body(model, items, tools)->Object_0;
    json::first_field_counts(fields, "messages"@, 0);
    json::first_field_counts(fields, "model"@, 1);
    json::first_field_counts(fields, "stream"@, 2);
    if tools is Some {
        json::first_field_counts(fields, "tools"@, 3);
    } else {
        json::missing_field_is_none(Tree::Object(fields), "tools"@);
    }
}

/// Of a text nothing but the slashes that end it is taken away, and all of them are.
pub proof fn only_slashes_at_the_end_go(text: Seq<char>)
    ensures
        text::begins(text, without_slashes(text)),
        forall|i: int| without_slashes(text).len() <= i < text.len() ==> text[i] == '/',
        without_slashes(text).len() > 0 ==> without_slashes(text).last() != '/',
    decreases text.len(),
{
    if text.len() > 0 && text.last() == '/' {
        only_slashes_at_the_end_go(text.drop_last());
        let kept = without_slashes(text);
        assert(text.subrange(0, kept.len() as int) =~= text.drop_last().subrange(
            0,
            kept.len() as int,
        ));
        assert forall|i: int| kept.len() <= i < text.len() implies text[i] == '/' by {
            if i < text.len() - 1 {
                assert(text.drop_last()[i] == '/');
            }
        }
    } else {
        assert(text.subrange(0, text.len() as int) =~= text);
    }
}

/// What replaces secrets leaves the shape of a conversation as it is: the messages in their
/// order with their roles, the calls in their order, and answers under the id of their call.
pub proof fn redaction_keeps_the_shape(secrets: Seq<Seq<char>>, items: Seq<MessageView>)
    ensures
        scrubbed_messages(secrets, items).len() == items.len(),
        forall|i: int|
            #![trigger scrubbed_messages(secrets, items)[i]]
            0 <= i < items.len() ==> scrubbed_messages(secrets, items)[i].role == items[i].role
                && (scrubbed_messages(secrets, items)[i].tool_calls is Some <==> items[
                i].tool_calls is Some) && (scrubbed_messages(secrets, items)[i].tool_call_id is Some
                <==> items[i].tool_call_id is Some) && (items[i].tool_calls is Some
                ==> scrubbed_messages(secrets, items)[i].tool_calls->0.len()
                == items[i].tool_calls->0.len()),
        forall|i: int, j: int, k: int|
            #![trigger scrubbed_messages(secrets, items)[i], scrubbed_messages(secrets, items)[j].tool_calls->0[k]]
            0 <= i < items.len() && 0 <= j < items.len() && items[j].tool_calls is Some && 0 <= k
                < items[j].tool_calls->0.len() && items[i].tool_call_id == Some(
                items[j].tool_calls->0[k].id,
            ) ==> scrubbed_messages(secrets, items)[i].tool_call_id == Some(
                scrubbed_messages(secrets, items)[j].tool_calls->0[k].id,
            ),
{
}

/// With several events of a stream, one after the other.
pub open spec fn with_openai_events(chat: ChatView, events: Seq<Tree>) -> ChatView
    decreases events.len(),
{
    if events.len() == 0 {
        chat
    } else {
        with_openai_event(with_openai_events(chat, events.drop_last()), events.last())
    }
}

/// A fragment speaks of one call only: an id and a name replace what is there, arguments
/// are put behind those that are there, and what it does not say stays. Every other call
/// stays as it was; calls before it that are not there yet are made blank.
pub proof fn fragment_speaks_of_one_call(chat: ChatView, fragment: Tree, place: int)
    requires
        chat.progress != Progress::Failed,
        fragment.unsigned_at("index"@) matches Some(n) ==> n == place,
        fragment.unsigned_at("index"@) is None ==> place == 0,
        0 <= place < usize::MAX,
    ensures
        ({
            let after = with_fragment(chat, fragment).calls;
            let function = fragment.get("function"@);
            let was = if place < chat.calls.len() {
                chat.calls[place]
            } else {
                CallView { id: Seq::empty(), name: Seq::empty(), arguments: Seq::empty() }
            };
            &&& after.len() == (if place < chat.calls.len() {
                chat.calls.len() as int
            } else {
                place + 1
            })
            &&& fragment.text_at("id"@) matches Some(id) ==> after[place].id == id
            &&& fragment.text_at("id"@) is None ==> after[place].id == was.id
            &&& function is Some && function->0.text_at("name"@) is Some ==> after[place].name
                == function->0.text_at("name"@)->0
            &&& function is None || function->0.text_at("name"@) is None ==> after[place].name
                == was.name
            &&& function is Some && function->0.text_at("arguments"@) is Some
                ==> after[place].arguments == was.arguments + function->0.text_at("arguments"@)->0
            &&& function is None || function->0.text_at("arguments"@) is None
                ==> after[place].arguments == was.arguments
            &&& forall|k: int|
                0 <= k < chat.calls.len() && k != place ==> #[trigger] after[k] == chat.calls[k]
            &&& forall|k: int|
                chat.calls.len() <= k < after.len() && k != place ==> (#[trigger] after[k]).id.len()
                    == 0 && after[k].name.len() == 0 && after[k].arguments.len() == 0
        }),
        with_fragment(chat, fragment).content == chat.content,
        with_fragment(chat, fragment).usage == chat.usage,
        with_fragment(chat, fragment).progress == chat.progress,
{
}

/// The arguments of the call at a place; empty where there is none yet.
pub open spec fn arguments_at(items: Seq<CallView>, place: int) -> Seq<char> {
    if 0 <= place < items.len() {
        items[place].arguments
    } else {
        Seq::empty()
    }
}

/// What fragments add to the arguments of the call at a place, strung together.
pub open spec fn arguments_for(fragments: Seq<Tree>, place: int) -> Seq<char>
    decreases fragments.len(),
{
    if fragments.len() == 0 {
        Seq::empty()
    } else {
        let last = fragments.last();
        let more = if last.unsigned_at("index"@) == Some(place as u64) && last.get("function"@) is Some {
            last.get("function"@)->0.text_or_empty("arguments"@)
        } else {
            Seq::empty()
        };
        arguments_for(fragments.drop_last(), place) + more
    }
}

/// However the fragments of several calls are mixed, those of one call add up to its
/// arguments, in their order.
pub proof fn fragments_add_up_call_by_call(chat: ChatView, fragments: Seq<Tree>, place: int)
    requires
        chat.progress == Progress::Open,
        0 <= place < usize::MAX,
        place <= u64::MAX,
        forall|i: int|
            #![trigger fragments[i]]
            0 <= i < fragments.len() ==> fragments[i].unsigned_at("index"@) is Some
                && fragments[i].unsigned_at("index"@)->0 < usize::MAX,
    ensures
        with_fragments(chat, fragments).progress == Progress::Open,
        arguments_at(with_fragments(chat, fragments).calls, place) == arguments_at(
            chat.calls,
            place,
        ) + arguments_for(fragments, place),
    decreases fragments.len(),
{
    if fragments.len() > 0 {
        let fewer = fragments.drop_last();
        assert forall|i: int| #![trigger fewer[i]] 0 <= i < fewer.len() implies fewer[
            i].unsigned_at("index"@) is Some && fewer[i].unsigned_at("index"@)->0 < usize::MAX by {
            assert(fewer[i] == fragments[i]);
        }
        fragments_add_up_call_by_call(chat, fewer, place);
        let before = with_fragments(chat, fewer);
        let last = fragments.last();
        assert(fragments[fragments.len() - 1].unsigned_at("index"@) is Some);
        let spoken = last.unsigned_at("index"@)->0 as int;
        fragment_speaks_of_one_call(before, last, spoken);
        let after = with_fragment(before, last);
        let more = if spoken == place && last.get("function"@) is Some {
            last.get("function"@)->0.text_or_empty("arguments"@)
        } else {
            Seq::<char>::empty()
        };
        assert(arguments_at(after.calls, place) =~= arguments_at(before.calls, place) + more);
        assert(arguments_at(chat.calls, place) + arguments_for(fragments, place) =~= arguments_at(
            chat.calls,
            place,
        ) + arguments_for(fewer, place) + more);
    } else {
        assert(arguments_at(chat.calls, place) + arguments_for(fragments, place) =~= arguments_at(
            chat.calls,
            place,
        ));
    }
}

/// The piece of content in the delta of the first choice goes behind the content, and
/// nothing else does.
pub proof fn content_is_put_behind(
    chat: ChatView,
    event: Tree,
    choices: Seq<Tree>,
    delta: Tree,
)
    requires
        event.items_at("choices"@) == Some(choices),
        choices.len() > 0,
        choices[0].get("delta"@) == Some(delta),
    ensures
        delta.text_at("content"@) matches Some(piece) ==> with_openai_event(chat, event).content
            == chat.content + piece && with_openai_event(chat, event).deltas == chat.deltas.push(
            piece,
        ),
        delta.text_at("content"@) is None ==> with_openai_event(chat, event).content
            == chat.content && with_openai_event(chat, event).deltas == chat.deltas,
        delta.items_at("tool_calls"@) is None ==> with_openai_event(chat, event).calls
            == chat.calls,
        delta.items_at("tool_calls"@) matches Some(fragments) ==> with_openai_event(
            chat,
            event,
        ).calls == with_fragments(chat, fragments).calls,
{
    let said = with_content(chat, delta.text_at("content"@));
    match delta.items_at("tool_calls"@) {
        Some(fragments) => {
            lemma_fragments_say_nothing(said, fragments);
            lemma_fragments_by_calls(said, chat, fragments);
        },
        None => {},
    }
}

proof fn lemma_fragments_by_calls(a: ChatView, b: ChatView, fragments: Seq<Tree>)
    requires
        a.calls == b.calls,
        a.progress == b.progress,
    ensures
        with_fragments(a, fragments).calls == with_fragments(b, fragments).calls,
        with_fragments(a, fragments).progress == with_fragments(b, fragments).progress,
    decreases fragments.len(),
{
    if fragments.len() > 0 {
        lemma_fragments_by_calls(a, b, fragments.drop_last());
    }
}

/// An event without a delta in its first choice says nothing and calls nothing.
pub proof fn event_without_delta_says_nothing(chat: ChatView, event: Tree)
    requires
        event.items_at("choices"@) matches Some(choices) ==> choices.len() == 0 || choices[0].get(
            "delta"@,
        ) is None,
    ensures
        with_openai_event(chat, event).content == chat.content,
        with_openai_event(chat, event).deltas == chat.deltas,
        with_openai_event(chat, event).calls == chat.calls,
        with_openai_event(chat, event).progress == chat.progress,
{
}

/// The tokens are those that the last event with both counts tells; an event without them
/// leaves them as they were.
pub proof fn tokens_are_taken_as_told(chat: ChatView, event: Tree)
    requires
        chat.progress == Progress::Open,
        with_openai_event(chat, event).progress == Progress::Open,
        event.get("usage"@) matches Some(u) ==> !(u is Array),
    ensures
        event.get("usage"@) is Some && event.get("usage"@)->0.unsigned_at("prompt_tokens"@) is Some
            && event.get("usage"@)->0.unsigned_at("completion_tokens"@) is Some
            ==> with_openai_event(chat, event).usage == Some(
            ChatUsage {
                prompt_tokens: event.get("usage"@)->0.unsigned_at("prompt_tokens"@)->0,
                completion_tokens: event.get("usage"@)->0.unsigned_at("completion_tokens"@)->0,
            },
        ),
        event.get("usage"@) is None || event.get("usage"@)->0.unsigned_at("prompt_tokens"@) is None
            || event.get("usage"@)->0.unsigned_at("completion_tokens"@) is None
            ==> with_openai_event(chat, event).usage == chat.usage,
{
    match first_delta(event) {
        Some(d) => {
            match d.items_at("tool_calls"@) {
                Some(fragments) => {
                    lemma_fragments_tell_no_tokens(
                        with_content(chat, d.text_at("content"@)),
                        fragments,
                    );
                },
                None => {},
            }
        },
        None => {},
    }
}

proof fn lemma_fragments_tell_no_tokens(chat: ChatView, fragments: Seq<Tree>)
    ensures
        with_fragments(chat, fragments).usage == chat.usage,
    decreases fragments.len(),
{
    if fragments.len() > 0 {
        lemma_fragments_tell_no_tokens(chat, fragments.drop_last());
    }
}

/// An array of two counts tells the tokens of the prompt first.
pub proof fn counts_in_an_array_go_by_place(prompt: u64, completion: u64)
    ensures
        usage_in(
            Tree::Array(
                seq![
                    Tree::Number(json::Numeral::Unsigned(prompt)),
                    Tree::Number(json::Numeral::Unsigned(completion)),
                ],
            ),
        ) == Some(ChatUsage { prompt_tokens: prompt, completion_tokens: completion }),
{
}

/// Only `[DONE]` ends a stream; what is no JSON is passed over, and an event leaves the
/// stream open unless it names a place that no list can have.
pub proof fn only_done_ends_the_stream(chat: ChatView, payload: Seq<char>)
    requires
        chat.progress == Progress::Open,
    ensures
        payload == "[DONE]"@ ==> openai_step(chat, payload) == (ChatView {
            progress: Progress::Done,
            ..chat
        }),
        payload != "[DONE]"@ ==> openai_step(chat, payload).progress != Progress::Done,
        payload != "[DONE]"@ && json::parsed_tree(payload) is None ==> openai_step(chat, payload)
            == chat,
        payload.len() > 0 && payload != "[DONE]"@ && json::parsed_tree(payload) is Some
            ==> openai_step(chat, payload) == with_openai_event(
            chat,
            json::parsed_tree(payload)->0,
        ),
{
    reveal_strlit("[DONE]");
    match json::parsed_tree(payload) {
        Some(event) => {
            match first_delta(event) {
                Some(d) => {
                    match d.items_at("tool_calls"@) {
                        Some(fragments) => {
                            lemma_fragments_do_not_end(
                                with_content(chat, d.text_at("content"@)),
                                fragments,
                            );
                        },
                        None => {},
                    }
                },
                None => {},
            }
        },
        None => {},
    }
}

proof fn lemma_fragments_do_not_end(chat: ChatView, fragments: Seq<Tree>)
    requires
        chat.progress == Progress::Open,
    ensures
        with_fragments(chat, fragments).progress != Progress::Done,
    decreases fragments.len(),
{
    if fragments.len() > 0 {
        lemma_fragments_do_not_end(chat, fragments.drop_last());
    }
}

/// A stream starts with nothing: no content, no calls, and open; only Anthropic's counts
/// start at zero.
pub proof fn streams_start_with_nothing(kind: ProviderKind)
    ensures
        opening(first_usage(kind)).content.len() == 0,
        opening(first_usage(kind)).calls.len() == 0,
        opening(first_usage(kind)).deltas.len() == 0,
        opening(first_usage(kind)).progress == Progress::Open,
        kind == ProviderKind::OpenAI ==> opening(first_usage(kind)).usage is None,
        kind == ProviderKind::Anthropic ==> opening(first_usage(kind)).usage == Some(
            ChatUsage { prompt_tokens: 0, completion_tokens: 0 },
        ),
{
}

/// A stream takes in the events that its payloads are, in their order.
pub proof fn payloads_are_taken_as_their_events(
    chat: ChatView,
    payloads: Seq<Seq<char>>,
    events: Seq<Tree>,
)
    requires
        payloads.len() == events.len(),
        forall|i: int|
            #![trigger payloads[i]]
            0 <= i < payloads.len() ==> payloads[i].len() > 0 && payloads[i] != "[DONE]"@
                && json::parsed_tree(payloads[i]) == Some(events[i]),
        forall|n: int|
            0 <= n < events.len() ==> (#[trigger] with_openai_events(chat, events.take(n))).progress
                == Progress::Open,
    ensures
        steps(ProviderKind::OpenAI, chat, payloads) == with_openai_events(chat, events),
    decreases payloads.len(),
{
    if payloads.len() > 0 {
        let p = payloads.drop_last();
        let e = events.drop_last();
        assert forall|i: int| #![trigger p[i]] 0 <= i < p.len() implies p[i].len() > 0 && p[i]
            != "[DONE]"@ && json::parsed_tree(p[i]) == Some(e[i]) by {
            assert(p[i] == payloads[i]);
        }
        assert forall|n: int| 0 <= n < e.len() implies (#[trigger] with_openai_events(
            chat,
            e.take(n),
        )).progress == Progress::Open by {
            assert(e.take(n) =~= events.take(n));
        }
        payloads_are_taken_as_their_events(chat, p, e);
        let n = events.len() - 1;
        assert(events.take(n) =~= e);
        assert(with_openai_events(chat, events.take(n)).progress == Progress::Open);
        assert(payloads[n].len() > 0 && json::parsed_tree(payloads[n]) == Some(events[n]));
    }
}

/// A place that no list can have fails the stream and changes nothing else; from then on
/// no fragment is taken in.
pub proof fn impossible_place_fails_the_stream(chat: ChatView, fragment: Tree)
    requires
        chat.progress == Progress::Open,
        fragment.unsigned_at("index"@) is Some,
        fragment.unsigned_at("index"@)->0 == usize::MAX,
    ensures
        with_fragment(chat, fragment) == (ChatView { progress: Progress::Failed, ..chat }),
        with_fragment(with_fragment(chat, fragment), fragment) == with_fragment(chat, fragment),
{
}

/// An array of any other length, or with anything but counts in it, tells no tokens.
pub proof fn other_arrays_tell_no_tokens(items: Seq<Tree>)
    requires
        items.len() != 2 || items[0].unsigned() is None || items[1].unsigned() is None,
    ensures
        usage_in(Tree::Array(items)) is None,
{
}

} // verus!
