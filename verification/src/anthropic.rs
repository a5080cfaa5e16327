//! The Anthropic Messages protocol: its requests, and what its event stream adds up to.

use crate::gateway::{
    self, Chat, ChatMessage, ChatUsage, Progress, ProviderConfig, Request, ToolCall,
};
use crate::json::{self, parse_json, Fields, Json, Numeral, Tree};
use crate::text::{self, chars_of, same};
use vstd::prelude::*;
use vstd::string::*;

verus! {

/// How many tokens an answer may take.
pub const MAX_TOKENS: u64 = 8192;

// ---------------------------------------------------------------------------
// Requests
// ---------------------------------------------------------------------------

/// What the arguments of a tool call say; an empty object where they are no JSON.
pub open spec fn input_of(arguments: Seq<char>) -> Tree {
    match json::parsed_tree(arguments) {
        Some(tree) => tree,
        None => Tree::Object(json::no_fields()),
    }
}

/// A tool call with the given input as a block of content.
pub open spec fn use_block_with(c: gateway::CallView, input: Tree) -> Tree {
    Tree::Object(
        json::no_fields().push(("id"@, Tree::Text(c.id))).push(("input"@, input)).push(
            ("name"@, Tree::Text(c.name)),
        ).push(("type"@, Tree::Text("tool_use"@))),
    )
}

/// A tool call as a block of content.
pub open spec fn use_block(c: gateway::CallView) -> Tree {
    use_block_with(c, input_of(c.arguments))
}

/// A text as a block of content.
pub open spec fn text_block(content: Seq<char>) -> Tree {
    Tree::Object(
        json::no_fields().push(("text"@, Tree::Text(content))).push(
            ("type"@, Tree::Text("text"@)),
        ),
    )
}

/// The answer to a tool call as a block of content.
pub open spec fn result_block(id: Seq<char>, content: Seq<char>) -> Tree {
    Tree::Object(
        json::no_fields().push(("content"@, Tree::Text(content))).push(
            ("tool_use_id"@, Tree::Text(id)),
        ).push(("type"@, Tree::Text("tool_result"@))),
    )
}

/// The blocks of a message that calls tools: its text, if there is one, then the calls.
pub open spec fn call_blocks(content: Seq<char>, items: Seq<gateway::CallView>) -> Seq<Tree> {
    let said = if content.len() == 0 {
        Seq::<Tree>::empty()
    } else {
        Seq::<Tree>::empty().push(text_block(content))
    };
    said + items.map_values(|c: gateway::CallView| use_block(c))
}

/// A message in the shape that Anthropic takes.
pub open spec fn anthropic_message(m: gateway::MessageView) -> Tree {
    Tree::Object(
        if m.role == "tool"@ {
            let block = result_block(gateway::or_empty(m.tool_call_id), m.content);
            json::no_fields().push(
                ("content"@, Tree::Array(Seq::<Tree>::empty().push(block))),
            ).push(("role"@, Tree::Text("user"@)))
        } else {
            match m.tool_calls {
                Some(items) => json::no_fields().push(
                    ("content"@, Tree::Array(call_blocks(m.content, items))),
                ).push(("role"@, Tree::Text("assistant"@))),
                None => json::no_fields().push(("content"@, Tree::Text(m.content))).push(
                    ("role"@, Tree::Text(m.role)),
                ),
            }
        },
    )
}

/// The messages in the shape that Anthropic takes; system messages are left out.
pub open spec fn anthropic_messages(items: Seq<gateway::MessageView>) -> Seq<Tree>
    decreases items.len(),
{
    if items.len() == 0 {
        Seq::empty()
    } else if items.last().role == "system"@ {
        anthropic_messages(items.drop_last())
    } else {
        anthropic_messages(items.drop_last()).push(anthropic_message(items.last()))
    }
}

/// The content of the first system message.
pub open spec fn system_of(items: Seq<gateway::MessageView>) -> Option<Seq<char>>
    decreases items.len(),
{
    if items.len() == 0 {
        None
    } else if items[0].role == "system"@ {
        Some(items[0].content)
    } else {
        system_of(items.drop_first())
    }
}

/// The value of a field, null where it is missing.
pub open spec fn or_null(tree: Option<Tree>) -> Tree {
    match tree {
        Some(t) => t,
        None => Tree::Null,
    }
}

/// A function tool in the shape that Anthropic takes.
pub open spec fn converted_tool(function: Tree) -> Tree {
    Tree::Object(
        json::no_fields().push(("description"@, or_null(function.get("description"@)))).push(
            ("input_schema"@, or_null(function.get("parameters"@))),
        ).push(("name"@, or_null(function.get("name"@)))),
    )
}

/// The function tools in the shape that Anthropic takes; anything else is left out.
pub open spec fn converted_tools(items: Seq<Tree>) -> Seq<Tree>
    decreases items.len(),
{
    if items.len() == 0 {
        Seq::empty()
    } else {
        match items.last().get("function"@) {
            Some(function) => converted_tools(items.drop_last()).push(converted_tool(function)),
            None => converted_tools(items.drop_last()),
        }
    }
}

/// The body of a request to Anthropic.
pub open spec fn anthropic_body(
    model: Seq<char>,
    items: Seq<gateway::MessageView>,
    tools: Option<Tree>,
) -> Tree {
    let base = json::no_fields().push(
        ("max_tokens"@, Tree::Number(Numeral::Unsigned(MAX_TOKENS))),
    ).push(("messages"@, Tree::Array(anthropic_messages(items)))).push(
        ("model"@, Tree::Text(model)),
    ).push(("stream"@, Tree::Bool(true)));
    let led = match system_of(items) {
        Some(s) => base.push(("system"@, Tree::Text(s))),
        None => base,
    };
    Tree::Object(
        match tools {
            Some(t) => match t.items() {
                Some(all) => led.push(("tools"@, Tree::Array(converted_tools(all)))),
                None => led,
            },
            None => led,
        },
    )
}

/// A tool call as a block of content.
fn build_use_block(c: &ToolCall) -> (r: Json)
    ensures
        r@ == use_block(c@),
{
    let input = match parse_json(c.arguments.as_str()) {
        Some(tree) => tree,
        None => Fields::new().object(),
    };
    tool_use_block(c, input)
}

/// A tool call with the given input as a block of content.
pub fn tool_use_block(c: &ToolCall, input: Json) -> (r: Json)
    ensures
        r@ == use_block_with(c@, input@),
{
    Fields::new().with("id", Json::of_str(c.id.as_str())).with("input", input).with(
        "name",
        Json::of_str(c.name.as_str()),
    ).with("type", Json::of_str("tool_use")).object()
}

fn build_call_blocks(content: &str, items: &Vec<ToolCall>) -> (r: Vec<Json>)
    ensures
        json::trees(r@) == call_blocks(content@, gateway::calls(items@)),
{
    let mut built: Vec<Json> = Vec::new();
    if chars_of(content).len() > 0 {
        built.push(
            Fields::new().with("text", Json::of_str(content)).with(
                "type",
                Json::of_str("text"),
            ).object(),
        );
    }
    let ghost said = json::trees(built@);
    let ghost all = gateway::calls(items@).map_values(|c: gateway::CallView| use_block(c));
    proof {
        if content@.len() == 0 {
            assert(said =~= Seq::<Tree>::empty());
        } else {
            assert(said =~= Seq::<Tree>::empty().push(text_block(content@)));
        }
        assert(said =~= said + all.take(0));
    }
    let mut i: usize = 0;
    while i < items.len()
        invariant
            i <= items@.len(),
            all == gateway::calls(items@).map_values(|c: gateway::CallView| use_block(c)),
            json::trees(built@) == said + all.take(i as int),
        decreases items@.len() - i,
    {
        let ghost done = json::trees(built@);
        let block = build_use_block(&items[i]);
        let ghost held = block@;
        built.push(block);
        proof {
            assert(json::trees(built@) =~= done.push(held));
            assert(all[i as int] == held);
            assert(said + all.take(i + 1) =~= done.push(held));
        }
        i = i + 1;
    }
    assert(all.take(i as int) =~= all);
    built
}

fn build_anthropic_message(m: &ChatMessage) -> (r: Json)
    ensures
        r@ == anthropic_message(m@),
{
    if same(m.role.as_str(), "tool") {
        let id = gateway::text_of(&m.tool_call_id);
        let block = Fields::new().with("content", Json::of_str(m.content.as_str())).with(
            "tool_use_id",
            Json::Text(id),
        ).with("type", Json::of_str("tool_result")).object();
        let ghost held = block@;
        let mut blocks: Vec<Json> = Vec::new();
        blocks.push(block);
        assert(json::trees(blocks@) =~= Seq::<Tree>::empty().push(held));
        return Fields::new().with("content", Json::of_items(blocks)).with(
            "role",
            Json::of_str("user"),
        ).object();
    }
    match &m.tool_calls {
        Some(items) => {
            let blocks = build_call_blocks(m.content.as_str(), items);
            Fields::new().with("content", Json::of_items(blocks)).with(
                "role",
                Json::of_str("assistant"),
            ).object()
        },
        None => Fields::new().with("content", Json::of_str(m.content.as_str())).with(
            "role",
            Json::of_str(m.role.as_str()),
        ).object(),
    }
}

/// The messages in the shape that Anthropic takes; system messages are left out.
pub fn build_anthropic_messages(items: &[ChatMessage]) -> (r: Json)
    ensures
        r@ == Tree::Array(anthropic_messages(gateway::messages(items@))),
{
    let ghost all = gateway::messages(items@);
    let mut built: Vec<Json> = Vec::new();
    let mut i: usize = 0;
    assert(json::trees(built@) =~= anthropic_messages(all.take(0)));
    while i < items.len()
        invariant
            i <= items@.len(),
            all == gateway::messages(items@),
            json::trees(built@) == anthropic_messages(all.take(i as int)),
        decreases items@.len() - i,
    {
        let ghost done = json::trees(built@);
        proof {
            assert(all.take(i + 1).drop_last() =~= all.take(i as int));
            assert(all.take(i + 1).last() == items@[i as int]@);
        }
        if !same(items[i].role.as_str(), "system") {
            let made = build_anthropic_message(&items[i]);
            let ghost held = made@;
            built.push(made);
            assert(json::trees(built@) =~= done.push(held));
        }
        i = i + 1;
    }
    assert(all.take(i as int) =~= all);
    Json::of_items(built)
}

/// The content of the first system message.
fn find_system(items: &[ChatMessage]) -> (r: Option<String>)
    ensures
        gateway::optional(r) == system_of(gateway::messages(items@)),
{
    let ghost all = gateway::messages(items@);
    let mut i: usize = 0;
    assert(all.skip(0) =~= all);
    while i < items.len()
        invariant
            i <= items@.len(),
            all == gateway::messages(items@),
            system_of(all.skip(i as int)) == system_of(all),
        decreases items@.len() - i,
    {
        proof {
            assert(all.skip(i as int).drop_first() =~= all.skip(i + 1));
            assert(all.skip(i as int)[0] == items@[i as int]@);
        }
        if same(items[i].role.as_str(), "system") {
            return Some(items[i].content.clone());
        }
        i = i + 1;
    }
    None
}

fn get_or_null(tree: &Json, key: &str) -> (r: Json)
    ensures
        r@ == or_null(tree@.get(key@)),
{
    match tree.get(key) {
        Some(t) => t.copy(),
        None => Json::Null,
    }
}

/// The function tools in the shape that Anthropic takes; `None` where the tools are no
/// array.
pub fn convert_tools(tools: &Json) -> (r: Option<Json>)
    ensures
        match tools@.items() {
            Some(all) => r is Some && r->0@ == Tree::Array(converted_tools(all)),
            None => r is None,
        },
{
    let items = match tools.as_array() {
        Some(items) => items,
        None => {
            return None;
        },
    };
    let ghost all = json::trees(items@);
    let mut built: Vec<Json> = Vec::new();
    let mut i: usize = 0;
    assert(json::trees(built@) =~= converted_tools(all.take(0)));
    while i < items.len()
        invariant
            i <= items@.len(),
            all == json::trees(items@),
            json::trees(built@) == converted_tools(all.take(i as int)),
        decreases items@.len() - i,
    {
        let ghost done = json::trees(built@);
        proof {
            assert(all.take(i + 1).drop_last() =~= all.take(i as int));
            assert(all.take(i + 1).last() == items@[i as int]@);
        }
        match items[i].get("function") {
            Some(function) => {
                let made = Fields::new().with(
                    "description",
                    get_or_null(function, "description"),
                ).with("input_schema", get_or_null(function, "parameters")).with(
                    "name",
                    get_or_null(function, "name"),
                ).object();
                let ghost held = made@;
                built.push(made);
                assert(json::trees(built@) =~= done.push(held));
            },
            None => {},
        }
        i = i + 1;
    }
    assert(all.take(i as int) =~= all);
    Some(Json::of_items(built))
}

/// The headers that go with a key.
pub open spec fn key_headers(key: Option<Seq<char>>) -> Seq<(Seq<char>, Seq<char>)> {
    match key {
        Some(k) => Seq::<(Seq<char>, Seq<char>)>::empty().push(("x-api-key"@, k)).push(
            ("anthropic-version"@, "2023-06-01"@),
        ),
        None => Seq::empty(),
    }
}

/// The request that starts a chat with Anthropic: posted to `{base_url}/v1/messages`,
/// streamed, with the key in a header.
pub fn anthropic_request(
    cfg: &ProviderConfig,
    items: &[ChatMessage],
    tools: Option<&Json>,
) -> (r: Request)
    ensures
        r.url@ == gateway::without_slashes(cfg.base_url@) + "/v1/messages"@,
        r.bearer is None,
        gateway::headers(r.headers@) == key_headers(gateway::optional(cfg.api_key)),
        r.body@ == anthropic_body(
            cfg.model@,
            gateway::messages(items@),
            match tools {
                Some(t) => Some(t@),
                None => None,
            },
        ),
{
    let mut url = gateway::strip_slashes(cfg.base_url.as_str());
    url.append("/v1/messages");
    let base = Fields::new().with("max_tokens", Json::of_u64(MAX_TOKENS)).with(
        "messages",
        build_anthropic_messages(items),
    ).with("model", Json::of_str(cfg.model.as_str())).with("stream", Json::Bool(true));
    let led = match find_system(items) {
        Some(s) => base.with("system", Json::Text(s)),
        None => base,
    };
    let converted = match tools {
        Some(t) => convert_tools(t),
        None => None,
    };
    let body = match converted {
        Some(t) => led.with("tools", t).object(),
        None => led.object(),
    };
    let mut headers: Vec<(String, String)> = Vec::new();
    match &cfg.api_key {
        Some(key) => {
            headers.push(("x-api-key".to_owned(), key.clone()));
            headers.push(("anthropic-version".to_owned(), "2023-06-01".to_owned()));
        },
        None => {},
    }
    assert(gateway::headers(headers@) =~= key_headers(gateway::optional(cfg.api_key)));
    Request { url, bearer: None, headers, body }
}

// ---------------------------------------------------------------------------
// What a stream adds up to
// ---------------------------------------------------------------------------

/// The tokens told so far.
pub open spec fn told(chat: gateway::ChatView) -> ChatUsage {
    match chat.usage {
        Some(u) => u,
        None => gateway::no_tokens(),
    }
}

/// With the tokens that the start of a message tells.
pub open spec fn with_prompt(chat: gateway::ChatView, event: Tree) -> gateway::ChatView {
    let count = match event.get("message"@) {
        Some(message) => match message.get("usage"@) {
            Some(usage) => usage.unsigned_at("input_tokens"@),
            None => None,
        },
        None => None,
    };
    match count {
        Some(n) => gateway::ChatView {
            usage: Some(ChatUsage { prompt_tokens: n, ..told(chat) }),
            ..chat
        },
        None => chat,
    }
}

/// With the tokens that a change of the message tells.
pub open spec fn with_completion(chat: gateway::ChatView, event: Tree) -> gateway::ChatView {
    let count = match event.get("usage"@) {
        Some(usage) => usage.unsigned_at("output_tokens"@),
        None => None,
    };
    match count {
        Some(n) => gateway::ChatView {
            usage: Some(ChatUsage { completion_tokens: n, ..told(chat) }),
            ..chat
        },
        None => chat,
    }
}

/// With the tool call that a block starts, if it does.
pub open spec fn with_block(chat: gateway::ChatView, event: Tree) -> gateway::ChatView {
    match event.get("content_block"@) {
        Some(block) => if block.text_at("type"@) == Some("tool_use"@) {
            gateway::ChatView {
                calls: chat.calls.push(
                    gateway::CallView {
                        id: block.text_or_empty("id"@),
                        name: block.text_or_empty("name"@),
                        arguments: Seq::empty(),
                    },
                ),
                ..chat
            }
        } else {
            chat
        },
        None => chat,
    }
}

/// With more arguments of the last tool call.
pub open spec fn with_arguments(chat: gateway::ChatView, more: Option<Seq<char>>) ->
    gateway::ChatView {
    match more {
        Some(more) => if chat.calls.len() == 0 {
            chat
        } else {
            let last = chat.calls.last();
            gateway::ChatView {
                calls: chat.calls.update(
                    chat.calls.len() - 1,
                    gateway::CallView { arguments: last.arguments + more, ..last },
                ),
                ..chat
            }
        },
        None => chat,
    }
}

/// With what a change of a block says.
pub open spec fn with_block_delta(chat: gateway::ChatView, event: Tree) -> gateway::ChatView {
    match event.get("delta"@) {
        Some(delta) => if delta.text_at("type"@) == Some("text_delta"@) {
            gateway::with_content(chat, delta.text_at("text"@))
        } else if delta.text_at("type"@) == Some("input_json_delta"@) {
            with_arguments(chat, delta.text_at("partial_json"@))
        } else {
            chat
        },
        None => chat,
    }
}

/// With one event of an Anthropic stream, by its type.
pub open spec fn with_anthropic_event(chat: gateway::ChatView, event: Tree) -> gateway::ChatView {
    let kind = event.text_or_empty("type"@);
    if kind == "message_start"@ {
        with_prompt(chat, event)
    } else if kind == "content_block_start"@ {
        with_block(chat, event)
    } else if kind == "content_block_delta"@ {
        with_block_delta(chat, event)
    } else if kind == "message_delta"@ {
        with_completion(chat, event)
    } else if kind == "message_stop"@ {
        gateway::ChatView { progress: Progress::Done, ..chat }
    } else {
        chat
    }
}

/// With one payload of an Anthropic stream. What is no JSON is passed over.
pub open spec fn anthropic_step(chat: gateway::ChatView, payload: Seq<char>) -> gateway::ChatView {
    if chat.progress != Progress::Open {
        chat
    } else if payload.len() == 0 || payload == "[DONE]"@ {
        chat
    } else {
        match json::parsed_tree(payload) {
            Some(event) => with_anthropic_event(chat, event),
            None => chat,
        }
    }
}

/// The whole number at the end of a way of one key and one more.
fn count_at(tree: Option<&Json>, key: &str) -> (r: Option<u64>)
    ensures
        r == match tree {
            Some(t) => t@.unsigned_at(key@),
            None => None,
        },
{
    match tree {
        Some(t) => t.unsigned_at(key),
        None => None,
    }
}

/// Whether a field is there and is the given text.
fn says(tree: &Json, key: &str, text: &str) -> (r: bool)
    ensures
        r == (tree@.text_at(key@) == Some(text@)),
{
    match tree.text_at(key) {
        Some(s) => same(s, text),
        None => false,
    }
}

impl Chat {
    /// The tokens told so far.
    fn told(&self) -> (r: ChatUsage)
        ensures
            r == told(self@),
    {
        match self.usage {
            Some(u) => u,
            None => ChatUsage { prompt_tokens: 0, completion_tokens: 0 },
        }
    }

    fn take_block(&mut self, block: &Json)
        requires
            block@.text_at("type"@) == Some("tool_use"@),
        ensures
            final(self)@ == (gateway::ChatView {
                calls: old(self)@.calls.push(
                    gateway::CallView {
                        id: block@.text_or_empty("id"@),
                        name: block@.text_or_empty("name"@),
                        arguments: Seq::empty(),
                    },
                ),
                ..old(self)@
            }),
    {
        let ghost before = gateway::calls(self.calls@);
        let call = ToolCall {
            id: block.text_or_empty("id"),
            name: block.text_or_empty("name"),
            arguments: String::new(),
        };
        let ghost held = call@;
        assert(held.arguments =~= Seq::<char>::empty());
        self.calls.push(call);
        assert(gateway::calls(self.calls@) =~= before.push(held));
    }

    fn take_arguments(&mut self, more: &str)
        ensures
            final(self)@ == with_arguments(old(self)@, Some(more@)),
    {
        let n = self.calls.len();
        if n == 0 {
            return;
        }
        let ghost before = gateway::calls(self.calls@);
        let mut call = self.calls[n - 1].copy();
        call.arguments.append(more);
        let ghost held = call@;
        self.calls.set(n - 1, call);
        assert(gateway::calls(self.calls@) =~= before.update(n - 1, held));
    }

    fn take_block_delta(&mut self, event: &Json)
        ensures
            final(self)@ == with_block_delta(old(self)@, event@),
    {
        match event.get("delta") {
            Some(delta) => {
                if says(delta, "type", "text_delta") {
                    match delta.text_at("text") {
                        Some(piece) => {
                            self.say(piece);
                        },
                        None => {},
                    }
                } else if says(delta, "type", "input_json_delta") {
                    match delta.text_at("partial_json") {
                        Some(more) => {
                            self.take_arguments(more);
                        },
                        None => {},
                    }
                }
            },
            None => {},
        }
    }

    /// Takes in one event of an Anthropic stream.
    pub fn take_anthropic_event(&mut self, event: &Json)
        ensures
            final(self)@ == with_anthropic_event(old(self)@, event@),
    {
        let kind = event.text_or_empty("type");
        if same(kind.as_str(), "message_start") {
            let usage = match event.get("message") {
                Some(message) => message.get("usage"),
                None => None,
            };
            match count_at(usage, "input_tokens") {
                Some(n) => {
                    self.usage = Some(ChatUsage { prompt_tokens: n, ..self.told() });
                },
                None => {},
            }
        } else if same(kind.as_str(), "content_block_start") {
            match event.get("content_block") {
                Some(block) => {
                    if says(block, "type", "tool_use") {
                        self.take_block(block);
                    }
                },
                None => {},
            }
        } else if same(kind.as_str(), "content_block_delta") {
            self.take_block_delta(event);
        } else if same(kind.as_str(), "message_delta") {
            match count_at(event.get("usage"), "output_tokens") {
                Some(n) => {
                    self.usage = Some(ChatUsage { completion_tokens: n, ..self.told() });
                },
                None => {},
            }
        } else if same(kind.as_str(), "message_stop") {
            self.progress = Progress::Done;
        }
    }

    /// Takes in one payload of an Anthropic stream.
    pub fn take_anthropic(&mut self, payload: &str)
        ensures
            final(self)@ == anthropic_step(old(self)@, payload@),
    {
        if self.progress != Progress::Open {
            return;
        }
        if chars_of(payload).len() == 0 || same(payload, "[DONE]") {
            return;
        }
        match parse_json(payload) {
            Some(event) => {
                self.take_anthropic_event(&event);
            },
            None => {},
        }
    }
}

// ---------------------------------------------------------------------------
// Laws
// ---------------------------------------------------------------------------

proof fn lemma_event_types_differ()
    ensures
        "message_start"@ != "content_block_start"@,
        "message_start"@ != "content_block_delta"@,
        "message_start"@ != "message_delta"@,
        "message_start"@ != "message_stop"@,
        "content_block_start"@ != "content_block_delta"@,
        "content_block_start"@ != "message_delta"@,
        "content_block_start"@ != "message_stop"@,
        "content_block_delta"@ != "message_delta"@,
        "content_block_delta"@ != "message_stop"@,
        "message_delta"@ != "message_stop"@,
{
    reveal_strlit("message_start");
    reveal_strlit("content_block_start");
    reveal_strlit("content_block_delta");
    reveal_strlit("message_delta");
    reveal_strlit("message_stop");
    assert("message_start"@.len() == 13);
    assert("content_block_start"@.len() == 19);
    assert("content_block_delta"@.len() == 19);
    assert("message_delta"@.len() == 13);
    assert("message_stop"@.len() == 12);
    assert("content_block_delta"@[14] == 'd');
    assert("content_block_start"@[14] == 's');
    assert("message_delta"@[8] == 'd');
    assert("message_start"@[8] == 's');
}

proof fn lemma_delta_types_differ()
    ensures
        "text_delta"@ != "input_json_delta"@,
{
    reveal_strlit("text_delta");
    reveal_strlit("input_json_delta");
    assert("text_delta"@.len() == 10);
    assert("input_json_delta"@.len() == 16);
}

/// With several events of a stream, one after the other.
pub open spec fn with_anthropic_events(chat: gateway::ChatView, events: Seq<Tree>) ->
    gateway::ChatView
    decreases events.len(),
{
    if events.len() == 0 {
        chat
    } else {
        with_anthropic_event(with_anthropic_events(chat, events.drop_last()), events.last())
    }
}

/// The fragment of arguments that an event carries; empty where it carries none.
pub open spec fn argument_piece(event: Tree) -> Seq<char> {
    match event.get("delta"@) {
        Some(delta) => if event.text_at("type"@) == Some("content_block_delta"@) && delta.text_at(
            "type"@,
        ) == Some("input_json_delta"@) {
            delta.text_or_empty("partial_json"@)
        } else {
            Seq::empty()
        },
        None => Seq::empty(),
    }
}

/// The fragments of arguments that events carry, strung together.
pub open spec fn argument_pieces(events: Seq<Tree>) -> Seq<char>
    decreases events.len(),
{
    if events.len() == 0 {
        Seq::empty()
    } else {
        argument_pieces(events.drop_last()) + argument_piece(events.last())
    }
}

/// The piece of text that an event carries; empty where it carries none.
pub open spec fn text_piece(event: Tree) -> Seq<char> {
    match event.get("delta"@) {
        Some(delta) => if event.text_at("type"@) == Some("content_block_delta"@) && delta.text_at(
            "type"@,
        ) == Some("text_delta"@) {
            delta.text_or_empty("text"@)
        } else {
            Seq::empty()
        },
        None => Seq::empty(),
    }
}

/// The pieces of text that events carry, strung together.
pub open spec fn text_pieces(events: Seq<Tree>) -> Seq<char>
    decreases events.len(),
{
    if events.len() == 0 {
        Seq::empty()
    } else {
        text_pieces(events.drop_last()) + text_piece(events.last())
    }
}

/// A block that calls a tool puts a call behind those that are there, under the id and the
/// name that it gives; the fragments of arguments that come before the next block add up to
/// the arguments of that call, and every call before it stays as it was.
pub proof fn fragments_belong_to_the_call_started_last(
    chat: gateway::ChatView,
    start: Tree,
    block: Tree,
    events: Seq<Tree>,
)
    requires
        start.text_at("type"@) == Some("content_block_start"@),
        start.get("content_block"@) == Some(block),
        block.text_at("type"@) == Some("tool_use"@),
        forall|i: int|
            0 <= i < events.len() ==> (#[trigger] events[i]).text_at("type"@) != Some(
                "content_block_start"@,
            ),
    ensures
        ({
            let after = with_anthropic_events(with_anthropic_event(chat, start), events).calls;
            &&& after.len() == chat.calls.len() + 1
            &&& after.last().id == block.text_or_empty("id"@)
            &&& after.last().name == block.text_or_empty("name"@)
            &&& after.last().arguments == argument_pieces(events)
            &&& forall|k: int| 0 <= k < chat.calls.len() ==> #[trigger] after[k] == chat.calls[k]
        }),
    decreases events.len(),
{
    lemma_event_types_differ();
    lemma_delta_types_differ();
    let started = with_anthropic_event(chat, start);
    let after = with_anthropic_events(started, events).calls;
    if events.len() > 0 {
        let fewer = events.drop_last();
        assert forall|i: int| 0 <= i < fewer.len() implies (#[trigger] fewer[i]).text_at("type"@)
            != Some("content_block_start"@) by {
            assert(fewer[i] == events[i]);
        }
        fragments_belong_to_the_call_started_last(chat, start, block, fewer);
        assert(events[events.len() - 1].text_at("type"@) != Some("content_block_start"@));
        let before = with_anthropic_events(started, fewer).calls;
        let piece = argument_piece(events.last());
        lemma_event_on_calls(with_anthropic_events(started, fewer), events.last());
        assert(after.last().arguments =~= before.last().arguments + piece);
        assert forall|k: int| 0 <= k < chat.calls.len() implies #[trigger] after[k]
            == chat.calls[k] by {
            assert(before[k] == chat.calls[k]);
        }
    } else {
        assert(after.last().arguments =~= argument_pieces(events));
    }
}

/// What an event that starts no block does to the calls.
proof fn lemma_event_on_calls(chat: gateway::ChatView, event: Tree)
    requires
        event.text_at("type"@) != Some("content_block_start"@),
        chat.calls.len() > 0,
    ensures
        ({
            let after = with_anthropic_event(chat, event).calls;
            &&& after.len() == chat.calls.len()
            &&& after.last().id == chat.calls.last().id
            &&& after.last().name == chat.calls.last().name
            &&& after.last().arguments == chat.calls.last().arguments + argument_piece(event)
            &&& forall|k: int|
                0 <= k < chat.calls.len() - 1 ==> #[trigger] after[k] == chat.calls[k]
        }),
{
    lemma_event_types_differ();
    lemma_delta_types_differ();
    lemma_typed(event);
    let after = with_anthropic_event(chat, event).calls;
    assert(chat.calls.last().arguments + Seq::<char>::empty() =~= chat.calls.last().arguments);
    assert(after.last().arguments =~= chat.calls.last().arguments + argument_piece(event));
}

/// An event whose type is missing counts as one of the empty type.
proof fn lemma_typed(event: Tree)
    ensures
        event.text_or_empty("type"@) == "content_block_start"@ ==> event.text_at("type"@) == Some(
            "content_block_start"@,
        ),
        event.text_or_empty("type"@) == "content_block_delta"@ ==> event.text_at("type"@) == Some(
            "content_block_delta"@,
        ),
        event.text_or_empty("type"@) == "message_start"@ ==> event.text_at("type"@) == Some(
            "message_start"@,
        ),
        event.text_or_empty("type"@) == "message_delta"@ ==> event.text_at("type"@) == Some(
            "message_delta"@,
        ),
        event.text_or_empty("type"@) == "message_stop"@ ==> event.text_at("type"@) == Some(
            "message_stop"@,
        ),
{
    reveal_strlit("content_block_start");
    reveal_strlit("content_block_delta");
    reveal_strlit("message_start");
    reveal_strlit("message_delta");
    reveal_strlit("message_stop");
    assert("content_block_start"@.len() == 19 && "content_block_delta"@.len() == 19);
    assert("message_start"@.len() == 13 && "message_delta"@.len() == 13);
    assert("message_stop"@.len() == 12);
}

/// The pieces of text that events carry add up to the content, in their order; nothing else
/// does, and nothing is taken away.
pub proof fn text_adds_up_to_the_content(chat: gateway::ChatView, events: Seq<Tree>)
    ensures
        with_anthropic_events(chat, events).content == chat.content + text_pieces(events),
    decreases events.len(),
{
    lemma_event_types_differ();
    lemma_delta_types_differ();
    if events.len() > 0 {
        text_adds_up_to_the_content(chat, events.drop_last());
        let before = with_anthropic_events(chat, events.drop_last());
        let event = events.last();
        lemma_typed(event);
        assert(before.content + Seq::<char>::empty() =~= before.content);
        assert(with_anthropic_event(before, event).content =~= before.content + text_piece(event));
        assert(chat.content + text_pieces(events) =~= chat.content + text_pieces(
            events.drop_last(),
        ) + text_piece(event));
    } else {
        assert(chat.content + text_pieces(events) =~= chat.content);
    }
}

/// The start of a message tells the tokens of the prompt, a change of the message those of
/// the completion; each leaves the other count and all else as it was.
pub proof fn tokens_are_taken_as_told(
    chat: gateway::ChatView,
    event: Tree,
    message: Tree,
    usage: Tree,
    n: u64,
)
    ensures
        event.text_at("type"@) == Some("message_start"@) && event.get("message"@) == Some(message)
            && message.get("usage"@) == Some(usage) && usage.unsigned_at("input_tokens"@) == Some(
            n,
        ) ==> with_anthropic_event(chat, event) == (gateway::ChatView {
            usage: Some(
                ChatUsage {
                    prompt_tokens: n,
                    completion_tokens: if chat.usage is Some {
                        chat.usage->0.completion_tokens
                    } else {
                        0
                    },
                },
            ),
            ..chat
        }),
        event.text_at("type"@) == Some("message_delta"@) && event.get("usage"@) == Some(usage)
            && usage.unsigned_at("output_tokens"@) == Some(n) ==> with_anthropic_event(chat, event)
            == (gateway::ChatView {
            usage: Some(
                ChatUsage {
                    prompt_tokens: if chat.usage is Some {
                        chat.usage->0.prompt_tokens
                    } else {
                        0
                    },
                    completion_tokens: n,
                },
            ),
            ..chat
        }),
{
    lemma_event_types_differ();
}

/// Only `message_stop` ends a stream, and it changes nothing else.
pub proof fn only_the_stop_ends_the_stream(chat: gateway::ChatView, event: Tree)
    ensures
        event.text_at("type"@) == Some("message_stop"@) ==> with_anthropic_event(chat, event)
            == (gateway::ChatView { progress: Progress::Done, ..chat }),
        event.text_at("type"@) != Some("message_stop"@) ==> with_anthropic_event(
            chat,
            event,
        ).progress == chat.progress,
{
    lemma_event_types_differ();
    lemma_delta_types_differ();
    lemma_typed(event);
}

/// Only events of five types change anything, and only those that tell tokens change the
/// usage.
pub proof fn other_events_change_nothing(chat: gateway::ChatView, event: Tree)
    ensures
        event.text_at("type"@) != Some("message_start"@) && event.text_at("type"@) != Some(
            "message_delta"@,
        ) ==> with_anthropic_event(chat, event).usage == chat.usage,
        event.text_at("type"@) != Some("message_start"@) && event.text_at("type"@) != Some(
            "message_delta"@,
        ) && event.text_at("type"@) != Some("message_stop"@) && event.text_at("type"@) != Some(
            "content_block_start"@,
        ) && event.text_at("type"@) != Some("content_block_delta"@) ==> with_anthropic_event(
            chat,
            event,
        ) == chat,
        event.text_at("type"@) == Some("content_block_start"@) && (event.get("content_block"@)
            matches Some(block) ==> block.text_at("type"@) != Some("tool_use"@))
            ==> with_anthropic_event(chat, event) == chat,
{
    lemma_event_types_differ();
    lemma_delta_types_differ();
    lemma_typed(event);
}

/// A stream takes in the events that its payloads are, in their order.
pub proof fn payloads_are_taken_as_their_events(
    chat: gateway::ChatView,
    payloads: Seq<Seq<char>>,
    events: Seq<Tree>,
)
    requires
        chat.progress == Progress::Open,
        payloads.len() == events.len(),
        forall|i: int|
            #![trigger payloads[i]]
            0 <= i < payloads.len() ==> payloads[i].len() > 0 && payloads[i] != "[DONE]"@
                && json::parsed_tree(payloads[i]) == Some(events[i]),
        forall|i: int|
            0 <= i < events.len() - 1 ==> (#[trigger] events[i]).text_at("type"@) != Some(
                "message_stop"@,
            ),
    ensures
        gateway::steps(gateway::ProviderKind::Anthropic, chat, payloads) == with_anthropic_events(
            chat,
            events,
        ),
        (events.len() == 0 || events.last().text_at("type"@) != Some("message_stop"@))
            ==> gateway::steps(gateway::ProviderKind::Anthropic, chat, payloads).progress
            == Progress::Open,
    decreases payloads.len(),
{
    if payloads.len() > 0 {
        let p = payloads.drop_last();
        let e = events.drop_last();
        assert forall|i: int| #![trigger p[i]] 0 <= i < p.len() implies p[i].len() > 0 && p[i]
            != "[DONE]"@ && json::parsed_tree(p[i]) == Some(e[i]) by {
            assert(p[i] == payloads[i]);
        }
        assert forall|i: int| 0 <= i < e.len() - 1 implies (#[trigger] e[i]).text_at("type"@)
            != Some("message_stop"@) by {
            assert(e[i] == events[i]);
        }
        payloads_are_taken_as_their_events(chat, p, e);
        if e.len() > 0 {
            assert(events[events.len() - 2].text_at("type"@) != Some("message_stop"@));
            assert(e.last() == events[events.len() - 2]);
        }
        let n = payloads.len() - 1;
        assert(payloads[n].len() > 0 && json::parsed_tree(payloads[n]) == Some(events[n]));
        let so_far = gateway::steps(gateway::ProviderKind::Anthropic, chat, p);
        only_the_stop_ends_the_stream(so_far, events.last());
    }
}

/// What is no JSON, an empty payload and `[DONE]` are passed over.
pub proof fn other_payloads_are_passed_over(chat: gateway::ChatView, payload: Seq<char>)
    requires
        payload.len() == 0 || payload == "[DONE]"@ || json::parsed_tree(payload) is None,
    ensures
        anthropic_step(chat, payload) == chat,
{
}

proof fn lemma_block_keys_differ()
    ensures
        "id"@ != "input"@,
        "id"@ != "name"@,
        "id"@ != "type"@,
        "id"@ != "text"@,
        "id"@ != "content"@,
        "id"@ != "tool_use_id"@,
        "input"@ != "name"@,
        "input"@ != "type"@,
        "input"@ != "text"@,
        "input"@ != "content"@,
        "input"@ != "tool_use_id"@,
        "name"@ != "type"@,
        "name"@ != "text"@,
        "name"@ != "content"@,
        "name"@ != "tool_use_id"@,
        "type"@ != "text"@,
        "type"@ != "content"@,
        "type"@ != "tool_use_id"@,
        "text"@ != "content"@,
        "text"@ != "tool_use_id"@,
        "content"@ != "tool_use_id"@,
{
    reveal_strlit("id");
    reveal_strlit("input");
    reveal_strlit("name");
    reveal_strlit("type");
    reveal_strlit("text");
    reveal_strlit("content");
    reveal_strlit("tool_use_id");
    assert("id"@.len() == 2);
    assert("input"@.len() == 5);
    assert("name"@.len() == 4);
    assert("type"@.len() == 4);
    assert("text"@.len() == 4);
    assert("content"@.len() == 7);
    assert("tool_use_id"@.len() == 11);
    assert("name"@[0] == 'n');
    assert("text"@[0] == 't');
    assert("text"@[1] == 'e');
    assert("type"@[0] == 't');
    assert("type"@[1] == 'y');
}

/// A message with tool calls is sent as the assistant's: what it says, where it says
/// anything, then a block for each call, in order, with its id, its name and the input that
/// its arguments are.
pub proof fn calls_are_sent_as_blocks(m: gateway::MessageView, items: Seq<gateway::CallView>, i: int)
    requires
        m.role != "tool"@,
        m.tool_calls == Some(items),
        0 <= i < items.len(),
    ensures
        ({
            let blocks = anthropic_message(m).items_at("content"@)->0;
            let first: int = if m.content.len() == 0 { 0 } else { 1 };
            let block = blocks[first + i];
            &&& anthropic_message(m).text_at("role"@) == Some("assistant"@)
            &&& anthropic_message(m).items_at("content"@) is Some
            &&& blocks.len() == first + items.len()
            &&& m.content.len() > 0 ==> blocks[0].text_at("type"@) == Some("text"@)
                && blocks[0].text_at("text"@) == Some(m.content)
            &&& block.text_at("type"@) == Some("tool_use"@)
            &&& block.text_at("id"@) == Some(items[i].id)
            &&& block.text_at("name"@) == Some(items[i].name)
            &&& json::parsed_tree(items[i].arguments) is Some ==> block.get("input"@)
                == json::parsed_tree(items[i].arguments)
            &&& json::parsed_tree(items[i].arguments) is None ==> block.get("input"@) == Some(
                Tree::Object(Seq::empty()),
            )
        }),
{
    lemma_block_keys_differ();
    lemma_message_keys_differ();
    let blocks = call_blocks(m.content, items);
    json::lemma_two_fields(
        "content"@,
        Tree::Array(blocks),
        "role"@,
        Tree::Text("assistant"@),
    );
    json::lemma_two_fields("text"@, Tree::Text(m.content), "type"@, Tree::Text("text"@));
    let c = items[i];
    let fields = use_block(c)->Object_0;
    json::first_field_counts(fields, "id"@, 0);
    json::first_field_counts(fields, "input"@, 1);
    json::first_field_counts(fields, "name"@, 2);
    json::first_field_counts(fields, "type"@, 3);
    let first: int = if m.content.len() == 0 { 0 } else { 1 };
    assert(blocks[first + i] == use_block(c));
}

proof fn lemma_message_keys_differ()
    ensures
        "content"@ != "role"@,
{
    reveal_strlit("content");
    reveal_strlit("role");
    assert("content"@.len() == 7);
    assert("role"@.len() == 4);
}

/// The answer to a tool call is sent as a message of the user that names the call.
pub proof fn results_are_sent_under_their_call(m: gateway::MessageView, id: Seq<char>)
    requires
        m.role == "tool"@,
        m.tool_call_id matches Some(given) ==> given == id,
        m.tool_call_id is None ==> id == Seq::<char>::empty(),
    ensures
        ({
            let blocks = anthropic_message(m).items_at("content"@)->0;
            &&& anthropic_message(m).text_at("role"@) == Some("user"@)
            &&& anthropic_message(m).items_at("content"@) is Some
            &&& blocks.len() == 1
            &&& blocks[0].text_at("type"@) == Some("tool_result"@)
            &&& blocks[0].text_at("tool_use_id"@) == Some(id)
            &&& blocks[0].text_at("content"@) == Some(m.content)
        }),
{
    lemma_block_keys_differ();
    lemma_message_keys_differ();
    let block = result_block(id, m.content);
    json::lemma_two_fields(
        "content"@,
        Tree::Array(Seq::<Tree>::empty().push(block)),
        "role"@,
        Tree::Text("user"@),
    );
    json::lemma_three_fields(
        "content"@,
        Tree::Text(m.content),
        "tool_use_id"@,
        Tree::Text(id),
        "type"@,
        Tree::Text("tool_result"@),
    );
}

/// Any other message is sent with its role and its text.
pub proof fn texts_are_sent_as_they_are(m: gateway::MessageView)
    requires
        m.role != "tool"@,
        m.tool_calls is None,
    ensures
        anthropic_message(m).text_at("role"@) == Some(m.role),
        anthropic_message(m).text_at("content"@) == Some(m.content),
{
    lemma_message_keys_differ();
    json::lemma_two_fields("content"@, Tree::Text(m.content), "role"@, Tree::Text(m.role));
}

/// All messages but those of the system are sent, in their order.
pub proof fn all_but_the_system_is_sent(items: Seq<gateway::MessageView>)
    ensures
        anthropic_messages(items) == items.filter(
            |m: gateway::MessageView| m.role != "system"@,
        ).map_values(|m: gateway::MessageView| anthropic_message(m)),
    decreases items.len(),
{
    let goes = |m: gateway::MessageView| m.role != "system"@;
    let shape = |m: gateway::MessageView| anthropic_message(m);
    reveal(Seq::filter);
    if items.len() > 0 {
        all_but_the_system_is_sent(items.drop_last());
    }
    assert(anthropic_messages(items) =~= items.filter(goes).map_values(shape));
}

/// What the system says is what its first message says.
pub proof fn first_system_message_counts(
    before: Seq<gateway::MessageView>,
    m: gateway::MessageView,
    after: Seq<gateway::MessageView>,
)
    requires
        m.role == "system"@,
        forall|i: int| 0 <= i < before.len() ==> (#[trigger] before[i]).role != "system"@,
    ensures
        system_of(before.push(m) + after) == Some(m.content),
        system_of(before) is None,
    decreases before.len(),
{
    let all = before.push(m) + after;
    if before.len() > 0 {
        let rest = before.drop_first();
        assert(all[0] == before[0]);
        assert(before[0].role != "system"@);
        assert forall|i: int| 0 <= i < rest.len() implies (#[trigger] rest[i]).role
            != "system"@ by {
            assert(rest[i] == before[i + 1]);
        }
        assert(all.drop_first() =~= rest.push(m) + after);
        first_system_message_counts(rest, m, after);
    }
}

proof fn lemma_body_keys_differ()
    ensures
        "max_tokens"@ != "messages"@,
        "max_tokens"@ != "model"@,
        "max_tokens"@ != "stream"@,
        "max_tokens"@ != "system"@,
        "max_tokens"@ != "tools"@,
        "messages"@ != "model"@,
        "messages"@ != "stream"@,
        "messages"@ != "system"@,
        "messages"@ != "tools"@,
        "model"@ != "stream"@,
        "model"@ != "system"@,
        "model"@ != "tools"@,
        "stream"@ != "system"@,
        "stream"@ != "tools"@,
        "system"@ != "tools"@,
{
    reveal_strlit("max_tokens");
    reveal_strlit("messages");
    reveal_strlit("model");
    reveal_strlit("stream");
    reveal_strlit("system");
    reveal_strlit("tools");
    assert("max_tokens"@.len() == 10);
    assert("messages"@.len() == 8);
    assert("model"@.len() == 5);
    assert("stream"@.len() == 6);
    assert("system"@.len() == 6);
    assert("tools"@.len() == 5);
    assert("model"@[0] == 'm');
    assert("stream"@[1] == 't');
    assert("system"@[1] == 'y');
    assert("tools"@[0] == 't');
}

/// A request names the model, asks for a stream, caps the answer at 8192 tokens, and carries
/// the conversation; what the system says and the tools go with it where there are any.
pub proof fn requests_carry_the_conversation(
    model: Seq<char>,
    items: Seq<gateway::MessageView>,
    tools: Option<Tree>,
)
    ensures
        ({
            let body = anthropic_body(model, items, tools);
            &&& body.text_at("model"@) == Some(model)
            &&& body.get("stream"@) == Some(Tree::Bool(true))
            &&& body.unsigned_at("max_tokens"@) == Some(8192u64)
            &&& body.items_at("messages"@) == Some(anthropic_messages(items))
            &&& body.text_at("system"@) == system_of(items)
            &&& body.items_at("tools"@) is Some <==> tools is Some && tools->0 is Array
            &&& tools is Some && tools->0 is Array ==> body.items_at("tools"@) == Some(
                converted_tools(tools->0->Array_0),
            )
        }),
{
    lemma_body_keys_differ();
    let fields = anthropic_body(model, items, tools)->Object_0;
    json::first_field_counts(fields, "max_tokens"@, 0);
    json::first_field_counts(fields, "messages"@, 1);
    json::first_field_counts(fields, "model"@, 2);
    json::first_field_counts(fields, "stream"@, 3);
    if system_of(items) is Some {
        json::first_field_counts(fields, "system"@, 4);
    } else {
        json::missing_field_is_none(Tree::Object(fields), "system"@);
    }
    if tools is Some && tools->0 is Array {
        json::first_field_counts(fields, "tools"@, fields.len() - 1);
    } else {
        json::missing_field_is_none(Tree::Object(fields), "tools"@);
    }
}

proof fn lemma_tool_keys_differ()
    ensures
        "description"@ != "input_schema"@,
        "description"@ != "name"@,
        "input_schema"@ != "name"@,
{
    reveal_strlit("description");
    reveal_strlit("input_schema");
    reveal_strlit("name");
    assert("description"@.len() == 11);
    assert("input_schema"@.len() == 12);
    assert("name"@.len() == 4);
}

/// A tool is offered under its name, with its description, and takes what its parameters
/// say; a tool that is no function is not offered.
pub proof fn tools_are_offered_as_described(items: Seq<Tree>, function: Tree, tool: Tree)
    requires
        tool.get("function"@) == Some(function),
        function.get("name"@) is Some,
        function.get("description"@) is Some,
        function.get("parameters"@) is Some,
    ensures
        ({
            let all = converted_tools(items.push(tool));
            &&& all.drop_last() == converted_tools(items)
            &&& all.len() > 0
            &&& all.last().get("name"@) == function.get("name"@)
            &&& all.last().get("description"@) == function.get("description"@)
            &&& all.last().get("input_schema"@) == function.get("parameters"@)
        }),
{
    lemma_tool_keys_differ();
    assert(items.push(tool).drop_last() =~= items);
    assert(converted_tools(items.push(tool)) =~= converted_tools(items).push(
        converted_tool(function),
    ));
    assert(converted_tools(items).push(converted_tool(function)).drop_last()
        =~= converted_tools(items));
    json::lemma_three_fields(
        "description"@,
        function.get("description"@)->0,
        "input_schema"@,
        function.get("parameters"@)->0,
        "name"@,
        function.get("name"@)->0,
    );
}

/// The key goes into a header of its own, beside the version of the protocol.
pub proof fn key_goes_into_its_header(key: Seq<char>)
    ensures
        key_headers(Some(key)).contains(("x-api-key"@, key)),
        key_headers(Some(key)).contains(("anthropic-version"@, "2023-06-01"@)),
        key_headers(Some(key)).len() == 2,
        key_headers(None).len() == 0,
{
    let all = key_headers(Some(key));
    assert(all[0] == ("x-api-key"@, key));
    assert(all[1] == ("anthropic-version"@, "2023-06-01"@));
}

/// What a tool does not say of itself is offered as null, and a tool that is no function is
/// not offered.
pub proof fn missing_descriptions_are_null(items: Seq<Tree>, function: Tree, tool: Tree)
    ensures
        tool.get("function"@) is None ==> converted_tools(items.push(tool)) == converted_tools(
            items,
        ),
        tool.get("function"@) == Some(function) && function.get("description"@) is None
            ==> converted_tools(items.push(tool)).last().get("description"@) == Some(Tree::Null),
        tool.get("function"@) == Some(function) && function.get("parameters"@) is None
            ==> converted_tools(items.push(tool)).last().get("input_schema"@) == Some(Tree::Null),
        tool.get("function"@) == Some(function) && function.get("name"@) is None
            ==> converted_tools(items.push(tool)).last().get("name"@) == Some(Tree::Null),
        converted_tools(Seq::empty()).len() == 0,
{
    lemma_tool_keys_differ();
    assert(items.push(tool).drop_last() =~= items);
    json::lemma_three_fields(
        "description"@,
        or_null(function.get("description"@)),
        "input_schema"@,
        or_null(function.get("parameters"@)),
        "name"@,
        or_null(function.get("name"@)),
    );
}

/// An event that tells no tokens where it might leaves everything as it was, and a fragment
/// of arguments without a call is dropped.
pub proof fn events_that_tell_nothing_change_nothing(chat: gateway::ChatView, event: Tree)
    ensures
        event.text_at("type"@) == Some("message_start"@) && (event.get("message"@) is None
            || event.get("message"@)->0.get("usage"@) is None || event.get("message"@)->0.get(
            "usage"@,
        )->0.unsigned_at("input_tokens"@) is None) ==> with_anthropic_event(chat, event) == chat,
        event.text_at("type"@) == Some("message_delta"@) && (event.get("usage"@) is None
            || event.get("usage"@)->0.unsigned_at("output_tokens"@) is None)
            ==> with_anthropic_event(chat, event) == chat,
        event.text_at("type"@) != Some("content_block_start"@) && chat.calls.len() == 0
            ==> with_anthropic_event(chat, event).calls == chat.calls,
        event.text_at("type"@) == Some("content_block_delta"@) && event.get("delta"@) is None
            ==> with_anthropic_event(chat, event) == chat,
{
    lemma_event_types_differ();
    lemma_delta_types_differ();
    lemma_typed(event);
}

} // verus!
