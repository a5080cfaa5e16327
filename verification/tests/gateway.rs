use composer::anthropic::{build_anthropic_messages, convert_tools};
use composer::gateway::{
    build_openai_messages, chat_request, read_usage, strip_slashes, ChatMessage, ChatResult,
    ChatStream, ChatUsage, Progress, ProviderConfig, ProviderKind, ToolCall,
};
use composer::json::{parse_json, print_json};
use composer::ledger::Redactor;

fn call(id: &str, name: &str, arguments: &str) -> ToolCall {
    ToolCall { id: id.into(), name: name.into(), arguments: arguments.into() }
}

/// Feeds the body in chunks of the given size; gives the pieces and the result.
fn stream(kind: ProviderKind, body: &str, chunk: usize) -> (String, Option<ChatResult>) {
    let mut s = ChatStream::new(kind);
    let mut seen = String::new();
    for part in body.as_bytes().chunks(chunk) {
        s.feed(part);
        for d in s.take_deltas() {
            seen.push_str(&d);
        }
    }
    (seen, s.finish())
}

const ANTHROPIC: [&str; 10] = [
    "data: {\"type\":\"message_start\",\"message\":{\"usage\":{\"input_tokens\":7}}}\n\n",
    "data: {\"type\":\"content_block_start\",\"index\":0,\"content_block\":{\"type\":\"text\",\"text\":\"\"}}\n\n",
    "data: {\"type\":\"content_block_delta\",\"index\":0,\"delta\":{\"type\":\"text_delta\",\"text\":\"Hi \"}}\n\n",
    "data: {\"type\":\"content_block_stop\",\"index\":0}\n\n",
    "data: {\"type\":\"content_block_start\",\"index\":1,\"content_block\":{\"type\":\"tool_use\",\"id\":\"tu_1\",\"name\":\"read_file\",\"input\":{}}}\n\n",
    "data: {\"type\":\"content_block_delta\",\"index\":1,\"delta\":{\"type\":\"input_json_delta\",\"partial_json\":\"{\\\"path\\\":\\\"a\"}}\n\n",
    "data: {\"type\":\"content_block_delta\",\"index\":1,\"delta\":{\"type\":\"input_json_delta\",\"partial_json\":\".txt\\\"}\"}}\n\n",
    "data: {\"type\":\"content_block_stop\",\"index\":1}\n\n",
    "data: {\"type\":\"message_delta\",\"delta\":{},\"usage\":{\"output_tokens\":3}}\n\n",
    "data: {\"type\":\"message_stop\"}\n\n",
];

const OPENAI: [&str; 3] = [
    "data: {\"choices\":[{\"delta\":{\"content\":\"Hello \"}}]}\n\n",
    "data: {\"choices\":[{\"delta\":{\"content\":\"stub\"}}],\"usage\":{\"prompt_tokens\":7,\"completion_tokens\":2}}\n\n",
    "data: [DONE]\n\n",
];

#[test]
fn anthropic_streams_text_and_tool_use() {
    let body = ANTHROPIC.concat();
    let (seen, r) = stream(ProviderKind::Anthropic, &body, 65536);
    let r = r.unwrap();
    assert_eq!(r.content, "Hi ");
    assert_eq!(seen, "Hi ");
    assert_eq!(r.tool_calls, vec![call("tu_1", "read_file", "{\"path\":\"a.txt\"}")]);
    let u = r.usage.unwrap();
    assert_eq!((u.prompt_tokens, u.completion_tokens), (7, 3));
}

#[test]
fn streams_deltas_and_usage() {
    let (seen, r) = stream(ProviderKind::OpenAI, &OPENAI.concat(), 65536);
    let r = r.unwrap();
    assert_eq!(r.content, "Hello stub");
    assert_eq!(seen, "Hello stub");
    assert_eq!(r.usage.unwrap().completion_tokens, 2);
}

#[test]
fn chunks_do_not_matter() {
    for n in [1, 2, 3, 7, 50] {
        let (seen, r) = stream(ProviderKind::Anthropic, &ANTHROPIC.concat(), n);
        assert_eq!(seen, "Hi ");
        assert_eq!(r, stream(ProviderKind::Anthropic, &ANTHROPIC.concat(), 65536).1);
        let (seen, r) = stream(ProviderKind::OpenAI, &OPENAI.concat(), n);
        assert_eq!(seen, "Hello stub");
        assert_eq!(r, stream(ProviderKind::OpenAI, &OPENAI.concat(), 65536).1);
    }
}

#[test]
fn tool_call_fragments_gather_by_index() {
    let body = concat_lines(&[
        r#"{"choices":[{"delta":{"tool_calls":[{"index":1,"id":"b","function":{"name":"list_dir","arguments":"{}"}}]}}]}"#,
        r#"{"choices":[{"delta":{"tool_calls":[{"id":"a","function":{"name":"read_file","arguments":"{\"pa"}}]}}]}"#,
        r#"{"choices":[{"delta":{"tool_calls":[{"index":0,"function":{"arguments":"th\":1}"}}]}}]}"#,
        "no json",
    ]);
    let (_, r) = stream(ProviderKind::OpenAI, &body, 10);
    assert_eq!(
        r.unwrap().tool_calls,
        vec![call("a", "read_file", "{\"path\":1}"), call("b", "list_dir", "{}")]
    );
}

fn concat_lines(payloads: &[&str]) -> String {
    payloads.iter().map(|p| format!("data: {p}\n\n")).collect()
}

#[test]
fn place_beyond_any_list_fails() {
    let body = concat_lines(&[
        r#"{"choices":[{"delta":{"content":"x","tool_calls":[{"index":18446744073709551615}]}}]}"#,
    ]);
    let mut s = ChatStream::new(ProviderKind::OpenAI);
    s.feed(body.as_bytes());
    assert_eq!(s.progress(), Progress::Failed);
    assert!(s.finish().is_none());
}

#[test]
fn nothing_is_taken_in_behind_the_end() {
    let mut s = ChatStream::new(ProviderKind::OpenAI);
    assert_eq!(s.progress(), Progress::Open);
    s.feed(b"data: [DONE]\n\ndata: {\"choices\":[{\"delta\":{\"content\":\"late\"}}]}\n\n");
    assert_eq!(s.progress(), Progress::Done);
    assert_eq!(s.finish().unwrap().content, "");
}

#[test]
fn bytes_that_are_no_text_are_replaced() {
    let mut s = ChatStream::new(ProviderKind::OpenAI);
    s.feed(b"data: {\"choices\":[{\"delta\":{\"content\":\"a\xffb\"}}]}\n\n");
    assert_eq!(s.finish().unwrap().content, "a\u{fffd}b");
}

#[test]
fn lines_without_data_are_passed_over() {
    let mut s = ChatStream::new(ProviderKind::OpenAI);
    s.feed(b": comment\nevent: x\n\rdata:   {\"choices\":[{\"delta\":{\"content\":\"y\"}}]}  \r\n\n");
    assert_eq!(s.finish().unwrap().content, "y");
}

#[test]
fn usage_is_read_from_an_object_or_a_pair() {
    let both = parse_json(r#"{"prompt_tokens":1,"completion_tokens":2,"more":3}"#).unwrap();
    assert_eq!(read_usage(&both), Some(ChatUsage { prompt_tokens: 1, completion_tokens: 2 }));
    assert_eq!(
        read_usage(&parse_json("[3,4]").unwrap()),
        Some(ChatUsage { prompt_tokens: 3, completion_tokens: 4 })
    );
    for text in ["null", "[1]", "[1,2,3]", r#"{"prompt_tokens":1}"#, "[1,-2]", "[1,2.5]"] {
        assert_eq!(read_usage(&parse_json(text).unwrap()), None, "{text}");
    }
}

fn conversation() -> Vec<ChatMessage> {
    vec![
        ChatMessage::text("system", "be brief"),
        ChatMessage::text("user", "read a.txt"),
        ChatMessage::assistant_tool_calls("", vec![call("c1", "read_file", "{\"path\":\"a\"}")]),
        ChatMessage::assistant_tool_calls("so", vec![call("c2", "x", "broken")]),
        ChatMessage::tool_result("c1", "data"),
    ]
}

#[test]
fn openai_messages_have_their_shape() {
    assert_eq!(
        print_json(&build_openai_messages(&conversation())),
        concat_json(&[
            r#"{"content":"be brief","role":"system"}"#,
            r#"{"content":"read a.txt","role":"user"}"#,
            r#"{"content":null,"role":"assistant","tool_calls":[{"function":{"arguments":"{\"path\":\"a\"}","name":"read_file"},"id":"c1","type":"function"}]}"#,
            r#"{"content":"so","role":"assistant","tool_calls":[{"function":{"arguments":"broken","name":"x"},"id":"c2","type":"function"}]}"#,
            r#"{"content":"data","role":"tool","tool_call_id":"c1"}"#,
        ])
    );
}

fn concat_json(items: &[&str]) -> String {
    format!("[{}]", items.join(","))
}

#[test]
fn anthropic_messages_have_their_shape() {
    assert_eq!(
        print_json(&build_anthropic_messages(&conversation())),
        concat_json(&[
            r#"{"content":"read a.txt","role":"user"}"#,
            r#"{"content":[{"id":"c1","input":{"path":"a"},"name":"read_file","type":"tool_use"}],"role":"assistant"}"#,
            r#"{"content":[{"text":"so","type":"text"},{"id":"c2","input":{},"name":"x","type":"tool_use"}],"role":"assistant"}"#,
            r#"{"content":[{"content":"data","tool_use_id":"c1","type":"tool_result"}],"role":"user"}"#,
        ])
    );
}

#[test]
fn tools_are_converted() {
    let tools = parse_json(
        r#"[{"type":"function","function":{"name":"n","description":"d","parameters":{"type":"object"}}},{"type":"other"},{"function":{}}]"#,
    )
    .unwrap();
    assert_eq!(
        print_json(&convert_tools(&tools).unwrap()),
        r#"[{"description":"d","input_schema":{"type":"object"},"name":"n"},{"description":null,"input_schema":null,"name":null}]"#
    );
    assert!(convert_tools(&parse_json("{}").unwrap()).is_none());
}

fn provider(kind: ProviderKind, key: Option<&str>) -> ProviderConfig {
    ProviderConfig {
        base_url: "http://h/v1//".into(),
        model: "m".into(),
        api_key: key.map(|k| k.to_string()),
        kind,
    }
}

#[test]
fn requests_go_by_the_protocol() {
    let none = Redactor::default();
    let messages = vec![ChatMessage::text("system", "s"), ChatMessage::text("user", "u")];
    let tools = parse_json(r#"[{"function":{"name":"n"}}]"#).unwrap();
    let r = chat_request(&none, &provider(ProviderKind::OpenAI, Some("k")), &messages, Some(&tools));
    assert_eq!(r.url, "http://h/v1/chat/completions");
    assert_eq!(r.bearer.as_deref(), Some("k"));
    assert!(r.headers.is_empty());
    assert_eq!(
        print_json(&r.body),
        r#"{"messages":[{"content":"s","role":"system"},{"content":"u","role":"user"}],"model":"m","stream":true,"tools":[{"function":{"name":"n"}}]}"#
    );
    let r = chat_request(&none, &provider(ProviderKind::Anthropic, Some("k")), &messages, Some(&tools));
    assert_eq!(r.url, "http://h/v1/v1/messages");
    assert!(r.bearer.is_none());
    assert_eq!(
        r.headers,
        vec![
            ("x-api-key".to_string(), "k".to_string()),
            ("anthropic-version".to_string(), "2023-06-01".to_string()),
        ]
    );
    assert_eq!(
        print_json(&r.body),
        r#"{"max_tokens":8192,"messages":[{"content":"u","role":"user"}],"model":"m","stream":true,"system":"s","tools":[{"description":null,"input_schema":null,"name":"n"}]}"#
    );
    let r = chat_request(&none, &provider(ProviderKind::Anthropic, None), &messages[1..], None);
    assert!(r.headers.is_empty());
    assert_eq!(
        print_json(&r.body),
        r#"{"max_tokens":8192,"messages":[{"content":"u","role":"user"}],"model":"m","stream":true}"#
    );
    assert_eq!(strip_slashes("a/b///"), "a/b");
    assert_eq!(ProviderKind::default(), ProviderKind::OpenAI);
}

#[test]
fn prompts_are_redacted() {
    let redactor = Redactor::new(vec!["sk-live-12345".into(), String::new()]);
    let messages = vec![
        ChatMessage::text("system", "be brief"),
        ChatMessage::text("user", "my key is sk-live-12345, keep it"),
        ChatMessage::assistant_tool_calls(
            "sk-live-12345",
            vec![ToolCall {
                id: "c1".into(),
                name: "terminal".into(),
                arguments: r#"{"command":"echo sk-live-12345"}"#.into(),
            }],
        ),
        ChatMessage::tool_result("c1", "sk-live-12345\n"),
    ];
    let sent = redactor.scrub_messages(&messages);
    assert_eq!(sent[0], messages[0]);
    assert_eq!(sent[1], ChatMessage::text("user", "my key is [REDACTED], keep it"));
    assert_eq!(
        sent[2],
        ChatMessage::assistant_tool_calls(
            "[REDACTED]",
            vec![ToolCall {
                id: "c1".into(),
                name: "terminal".into(),
                arguments: r#"{"command":"echo [REDACTED]"}"#.into(),
            }],
        )
    );
    assert_eq!(sent[3], ChatMessage::tool_result("c1", "[REDACTED]\n"));
    for kind in [ProviderKind::OpenAI, ProviderKind::Anthropic] {
        let r = chat_request(&redactor, &provider(kind, Some("sk-live-12345")), &messages, None);
        let body = print_json(&r.body);
        assert!(!body.contains("sk-live-12345"));
        assert!(body.contains("my key is [REDACTED], keep it"));
        assert!(body.contains("echo [REDACTED]"));
    }
}
