use local_code_core::providers::openai_compatible::{to_openai_messages, OpenAiMessage};
use local_code_core::types::{Message, Role, ToolCall};
use local_code_core::providers::ollama::{next_tool_call_id, OllamaChunk, OllamaStream, OllamaToolCall};
use local_code_core::providers::openai_compatible::{sse_line, DeltaToolCall, OpenAiDelta, OpenAiStream, SseLine};
use local_code_core::providers::stream_lines::LineBuffer;
use local_code_core::providers::ollama::OllamaProvider;
use local_code_core::providers::openai_compatible::OpenAiCompatibleProvider;
use local_code_core::types::{ProviderConfig, ProviderType, StreamEvent};

fn lines_of_chunks(chunks: &[&[u8]]) -> Vec<String> {
    let mut b = LineBuffer::new();
    let mut out = Vec::new();
    for c in chunks {
        out.extend(b.push_bytes(c));
    }
    if let Some(last) = b.finish() {
        out.push(last);
    }
    out
}

#[test]
fn line_buffer_splits_trims_and_skips_empty_lines() {
    assert_eq!(lines_of_chunks(&[b"  a \n\n b\n c"]), vec!["a", "b", "c"]);
    assert_eq!(lines_of_chunks(&[b"x\n"]), vec!["x"]);
    assert_eq!(lines_of_chunks(&[b""]), Vec::<String>::new());
}

#[test]
fn line_buffer_chunking_does_not_matter() {
    let body = "data: {\"a\":1}\n\ndata: é\r\ndata: [DONE]\n".as_bytes();
    let whole = lines_of_chunks(&[body]);
    let singles: Vec<&[u8]> = body.chunks(1).collect();
    assert_eq!(lines_of_chunks(&singles), whole);
    let threes: Vec<&[u8]> = body.chunks(3).collect();
    assert_eq!(lines_of_chunks(&threes), whole);
    assert_eq!(whole, vec!["data: {\"a\":1}", "data: é", "data: [DONE]"]);
}

#[test]
fn line_buffer_keeps_an_unfinished_line() {
    let mut b = LineBuffer::new();
    assert_eq!(b.push_bytes(b"par"), Vec::<String>::new());
    assert_eq!(b.push_bytes(b"tial\nnext"), vec!["partial"]);
    assert_eq!(b.finish(), Some("next".to_string()));
    assert_eq!(b.finish(), None);
}

#[test]
fn sse_lines_are_classified() {
    assert!(matches!(sse_line("event: ping"), SseLine::Skip));
    assert!(matches!(sse_line("data: [DONE]"), SseLine::Done));
    match sse_line("data:  {\"x\":1} ") {
        SseLine::Payload(p) => assert_eq!(p, "{\"x\":1}"),
        _ => panic!("expected payload"),
    }
    assert!(matches!(sse_line("dat"), SseLine::Skip));
}

fn piece(index: i64, id: Option<&str>, name: Option<&str>, args: Option<&str>) -> DeltaToolCall {
    DeltaToolCall {
        index,
        id: id.map(|s| s.to_string()),
        name: name.map(|s| s.to_string()),
        arguments: args.map(|s| s.to_string()),
    }
}

#[test]
fn openai_deltas_build_text_and_tool_calls() {
    let mut s = OpenAiStream::new();
    assert_eq!(s.on_delta(OpenAiDelta { content: Some("Hel".into()), tool_calls: None }), Some("Hel".to_string()));
    assert_eq!(s.on_delta(OpenAiDelta { content: Some("".into()), tool_calls: None }), None);
    assert_eq!(s.on_delta(OpenAiDelta { content: Some("lo".into()), tool_calls: None }), Some("lo".to_string()));
    s.on_delta(OpenAiDelta {
        content: None,
        tool_calls: Some(vec![piece(1, None, Some("read_"), Some("{\"pa")), piece(0, Some("id0"), Some("glob"), None)]),
    });
    s.on_delta(OpenAiDelta { content: None, tool_calls: Some(vec![piece(1, None, Some("file"), Some("th\":\"a\"}"))]) });
    let events = s.finish();
    assert_eq!(events.len(), 2);
    match &events[0] {
        StreamEvent::ToolCalls(calls) => {
            assert_eq!(calls.len(), 2);
            assert_eq!(calls[0].id, "call_1");
            assert_eq!(calls[0].name, "read_file");
            assert_eq!(calls[0].arguments, "{\"path\":\"a\"}");
            assert_eq!(calls[1].id, "id0");
            assert_eq!(calls[1].name, "glob");
            assert_eq!(calls[1].arguments, "{}");
        },
        _ => panic!("expected tool calls"),
    }
    match &events[1] {
        StreamEvent::Done { text, tool_calls } => {
            assert_eq!(text, "Hello");
            assert_eq!(tool_calls.len(), 2);
        },
        _ => panic!("expected done"),
    }
}

#[test]
fn openai_pieces_grouping_does_not_matter() {
    let run = |groups: Vec<Vec<DeltaToolCall>>| {
        let mut s = OpenAiStream::new();
        for g in groups {
            s.on_delta(OpenAiDelta { content: None, tool_calls: Some(g) });
        }
        match s.finish().pop().unwrap() {
            StreamEvent::Done { tool_calls, .. } => {
                tool_calls.into_iter().map(|c| (c.id, c.name, c.arguments)).collect::<Vec<_>>()
            },
            _ => panic!(),
        }
    };
    let a = run(vec![vec![piece(0, None, Some("ba"), Some("{")), piece(0, Some("x"), Some("sh"), Some("}"))]]);
    let b = run(vec![vec![piece(0, None, Some("ba"), Some("{"))], vec![piece(0, Some("x"), Some("sh"), Some("}"))]]);
    assert_eq!(a, b);
    assert_eq!(a, vec![("x".to_string(), "bash".to_string(), "{}".to_string())]);
}

#[test]
fn openai_arguments_that_are_not_an_object_become_empty() {
    let mut s = OpenAiStream::new();
    s.on_delta(OpenAiDelta { content: None, tool_calls: Some(vec![piece(-2, None, Some("t"), Some("[1,2]"))]) });
    match s.finish().pop().unwrap() {
        StreamEvent::Done { tool_calls, .. } => {
            assert_eq!(tool_calls[0].arguments, "{}");
            assert_eq!(tool_calls[0].id, "call_-2");
        },
        _ => panic!(),
    }
}

#[test]
fn ollama_chunks_give_text_and_numbered_calls() {
    let mut s = OllamaStream::new(7);
    let (ev, stop) = s.on_chunk(OllamaChunk { content: Some("Hi".into()), tool_calls: None, done: false });
    assert!(!stop);
    assert!(matches!(&ev[..], [StreamEvent::Text(t)] if t == "Hi"));
    let (ev, stop) = s.on_chunk(OllamaChunk {
        content: Some(String::new()),
        tool_calls: Some(vec![
            OllamaToolCall { name: "glob".into(), arguments: Some("{\"pattern\":\"*\"}".into()) },
            OllamaToolCall { name: "list_dir".into(), arguments: None },
        ]),
        done: true,
    });
    assert!(stop);
    assert_eq!(ev.len(), 1);
    match &ev[0] {
        StreamEvent::ToolCalls(calls) => {
            assert_eq!(calls[0].name, "glob");
            assert_eq!(calls[0].arguments, "{\"pattern\":\"*\"}");
            assert!(calls[0].id.starts_with("call_") && calls[0].id.ends_with("_8"));
            assert_eq!(calls[1].arguments, "{}");
            assert!(calls[1].id.ends_with("_9"));
        },
        _ => panic!(),
    }
    assert_eq!(s.count(), 9);
    match s.finish() {
        StreamEvent::Done { text, tool_calls } => {
            assert_eq!(text, "Hi");
            assert_eq!(tool_calls.len(), 2);
        },
        _ => panic!(),
    }
}

#[test]
fn ollama_call_ids_hold_time_and_count() {
    let id = next_tool_call_id(12);
    let parts: Vec<&str> = id.split('_').collect();
    assert_eq!(parts.len(), 3);
    assert_eq!(parts[0], "call");
    assert!(parts[1].chars().all(|c| c.is_ascii_digit()));
    assert_eq!(parts[2], "12");
}

#[test]
fn providers_take_their_label_and_trimmed_url() {
    let cfg = ProviderConfig {
        id: "o".into(),
        kind: ProviderType::Ollama,
        base_url: "http://host:11434//".into(),
        api_key: None,
        label: None,
    };
    let p = OllamaProvider::new(&cfg, reqwest::Client::new());
    assert_eq!(p.id(), "o");
    assert_eq!(p.label(), "Ollama");
    assert_eq!(p.base_url(), "http://host:11434");
    let cfg2 = ProviderConfig { api_key: Some("k".into()), label: Some("Mine".into()), ..cfg };
    let q = OpenAiCompatibleProvider::new(&cfg2, reqwest::Client::new());
    assert_eq!(q.label(), "Mine");
    assert_eq!(q.api_key(), Some("k"));
    let cfg3 = ProviderConfig { label: None, ..cfg2 };
    assert_eq!(OpenAiCompatibleProvider::new(&cfg3, reqwest::Client::new()).label(), "OpenAI-compatible");
}

#[test]
fn openai_messages_take_the_shape_of_their_role() {
    let call = ToolCall { id: "call_1".to_string(), name: "read_file".to_string(), arguments: "{\"path\":\"a\"}".to_string() };
    let mut orphan = Message::tool_result("out".to_string(), "x".to_string(), "read_file".to_string());
    orphan.tool_call_id = None;
    let messages = vec![
        Message::system("sys".to_string()),
        Message::assistant("calling".to_string(), Some(vec![call])),
        Message::assistant("plain".to_string(), Some(vec![])),
        Message::tool_result("done".to_string(), "call_1".to_string(), "read_file".to_string()),
        orphan,
    ];
    let wire = to_openai_messages(&messages);
    assert_eq!(wire.len(), 5);
    assert!(matches!(&wire[0], OpenAiMessage::Plain { role: Role::System, content } if content == "sys"));
    match &wire[1] {
        OpenAiMessage::AssistantCalls { content, calls } => {
            assert_eq!(content, "calling");
            assert_eq!(calls.len(), 1);
            assert_eq!(calls[0].id, "call_1");
            assert_eq!(calls[0].arguments, "{\"path\":\"a\"}");
        },
        _ => panic!("expected the tool calls to be sent"),
    }
    assert!(matches!(&wire[2], OpenAiMessage::Plain { role: Role::Assistant, content } if content == "plain"));
    assert!(matches!(&wire[3], OpenAiMessage::ToolResult { tool_call_id, content } if tool_call_id == "call_1" && content == "done"));
    assert!(matches!(&wire[4], OpenAiMessage::ToolResult { tool_call_id, .. } if tool_call_id == "call_unknown"));
}

#[test]
fn create_provider_builds_the_kind_configured() {
    let ollama = ProviderConfig {
        id: "local".to_string(),
        kind: ProviderType::Ollama,
        base_url: "http://localhost:11434/".to_string(),
        api_key: None,
        label: None,
    };
    match local_code_core::providers::registry::create_provider(&ollama, reqwest::Client::new()) {
        local_code_core::providers::registry::AnyProvider::Ollama(p) => {
            assert_eq!(p.id(), "local");
            assert_eq!(p.label(), "Ollama");
        },
        _ => panic!("expected an Ollama provider"),
    }
    let lm = ProviderConfig {
        id: "lmstudio".to_string(),
        kind: ProviderType::OpenAiCompatible,
        base_url: "http://localhost:1234/v1".to_string(),
        api_key: Some("k".to_string()),
        label: Some("LM Studio".to_string()),
    };
    match local_code_core::providers::registry::create_provider(&lm, reqwest::Client::new()) {
        local_code_core::providers::registry::AnyProvider::OpenAiCompatible(p) => {
            assert_eq!(p.id(), "lmstudio");
            assert_eq!(p.label(), "LM Studio");
        },
        _ => panic!("expected an OpenAI-compatible provider"),
    }
}
