use local_code_core::agent::thinking_filter::{strip_thinking_tags, FilterEvent, ThinkingTagFilter};
use local_code_core::agent::tool_call_parser::{tool_call_from_parsed, ParsedToolCall, ScanEvent, StreamingToolCallScanner};
use local_code_core::agent::turn::{
    conclude_stream, declined_result, plan_tool_call, stop_notice, StreamOutput, ToolPlan, Turn, TurnStep,
    TurnStream, MAX_ITERATIONS,
};
use local_code_core::system::reasoning::is_reasoning_model;
use local_code_core::tools::tool_definitions;
use local_code_core::types::{Message, Role, ToolCall};

fn flatten(events: &[FilterEvent]) -> Vec<(bool, String)> {
    let mut out: Vec<(bool, String)> = Vec::new();
    for e in events {
        let (k, t) = match e {
            FilterEvent::Thinking(t) => (true, t.clone()),
            FilterEvent::Text(t) => (false, t.clone()),
        };
        match out.last_mut() {
            Some((k2, t2)) if *k2 == k => t2.push_str(&t),
            _ => out.push((k, t)),
        }
    }
    out
}

fn run_filter(chunks: &[&str]) -> Vec<(bool, String)> {
    let mut f = ThinkingTagFilter::new();
    let mut all = Vec::new();
    for c in chunks {
        all.extend(f.feed(c));
    }
    all.extend(f.finish());
    flatten(&all)
}

#[test]
fn thinking_filter_separates_thinking_from_text() {
    let out = run_filter(&["<think>plan</think>answer"]);
    assert_eq!(out, vec![(true, "plan".to_string()), (false, "answer".to_string())]);
}

#[test]
fn thinking_filter_chunking_does_not_matter() {
    let whole = run_filter(&["Hi <think>deep thought</think> bye é"]);
    let split = run_filter(&["Hi <th", "ink>deep tho", "ught</thi", "nk> bye ", "é"]);
    let bytes = run_filter(&["H", "i", " ", "<", "t", "hink>", "deep thought<", "/think> bye é"]);
    assert_eq!(whole, split);
    assert_eq!(whole, bytes);
    assert_eq!(whole, vec![(false, "Hi ".to_string()), (true, "deep thought".to_string()), (false, " bye é".to_string())]);
}

#[test]
fn thinking_filter_holds_back_a_possible_tag_start() {
    let mut f = ThinkingTagFilter::new();
    let evs = f.feed("abc<thi");
    assert_eq!(flatten(&evs), vec![(false, "a".to_string())]);
    let rest = f.finish();
    assert_eq!(flatten(&rest), vec![(false, "bc<thi".to_string())]);
}

#[test]
fn strip_thinking_tags_removes_blocks_and_trims() {
    assert_eq!(strip_thinking_tags("<think>a\nb</think>  Answer  "), "Answer");
    assert_eq!(strip_thinking_tags("x<think>1</think>y<think>2</think>z"), "xyz");
    assert_eq!(strip_thinking_tags("  plain "), "plain");
}

fn run_scanner(chunks: &[&str]) -> (String, Vec<Option<(String, String)>>) {
    let mut s = StreamingToolCallScanner::new();
    let mut evs = Vec::new();
    for c in chunks {
        evs.extend(s.feed(c));
    }
    evs.extend(s.finish());
    let mut text = String::new();
    let mut calls = Vec::new();
    for e in evs {
        match e {
            ScanEvent::Text(t) => text.push_str(&t),
            ScanEvent::ToolCall { call, .. } => calls.push(call.map(|c| (c.name, c.arguments))),
        }
    }
    (text, calls)
}

#[test]
fn scanner_reads_tool_call_blocks() {
    let (text, calls) = run_scanner(&["Let me look.\n```tool_call\n{\"name\": \"read_file\", \"arguments\": {\"path\": \"a.txt\"}}\n```\nDone."]);
    assert_eq!(text, "Let me look.\n\nDone.");
    assert_eq!(calls, vec![Some(("read_file".to_string(), "{\"path\":\"a.txt\"}".to_string()))]);
}

#[test]
fn scanner_chunking_does_not_matter() {
    let input = "a```tool_call {\"name\":\"glob\"} ```b";
    let whole = run_scanner(&[input]);
    let pieces: Vec<String> = input.chars().map(|c| c.to_string()).collect();
    let refs: Vec<&str> = pieces.iter().map(|s| s.as_str()).collect();
    let split = run_scanner(&refs);
    assert_eq!(whole, split);
    assert_eq!(whole.1, vec![Some(("glob".to_string(), "{}".to_string()))]);
}

#[test]
fn scanner_reports_a_block_that_does_not_parse() {
    let (_, calls) = run_scanner(&["```tool_call\nnot json\n```"]);
    assert_eq!(calls, vec![None]);
}

#[test]
fn tool_call_from_parsed_keeps_name_and_arguments() {
    let c = tool_call_from_parsed(ParsedToolCall { name: "bash".to_string(), arguments: "{}".to_string() }, 5);
    assert_eq!(c.name, "bash");
    assert_eq!(c.arguments, "{}");
    assert!(c.id.starts_with("call_") && c.id.ends_with("_5"));
}

#[test]
fn reasoning_models_are_recognised_by_name() {
    assert!(is_reasoning_model("deepseek-r1:7b"));
    assert!(is_reasoning_model("QwQ:32b"));
    assert!(is_reasoning_model("qwen3:8b"));
    assert!(is_reasoning_model("o3-mini"));
    assert!(!is_reasoning_model("qwen2.5-coder:7b"));
    assert!(!is_reasoning_model(""));
}

#[test]
fn turn_stream_routes_text_thinking_and_tool_blocks() {
    let mut s = TurnStream::new(0);
    let mut out = s.on_text("<think>hm</think>Hi ");
    out.extend(s.on_text("```tool_call\n{\"name\":\"list_dir\"}\n```"));
    s.on_done("<think>hm</think>Hi ```tool_call\n{\"name\":\"list_dir\"}\n```".to_string(), Vec::new());
    out.extend(s.finish());
    let mut thinking = String::new();
    let mut text = String::new();
    for o in out {
        match o {
            StreamOutput::ThinkingChunk(t) => thinking.push_str(&t),
            StreamOutput::TextChunk(t) => text.push_str(&t),
        }
    }
    assert_eq!(thinking, "hm");
    assert_eq!(text, "Hi ");
    let r = s.into_result();
    assert_eq!(r.fallback_calls.len(), 1);
    assert_eq!(r.fallback_calls[0].name, "list_dir");
    assert!(!r.had_parse_error);
}

#[test]
fn conclude_stream_chooses_native_calls_first() {
    let mut s = TurnStream::new(0);
    s.on_done("ok".to_string(), vec![ToolCall { id: "n1".into(), name: "glob".into(), arguments: "{}".into() }]);
    s.finish();
    let mut messages = vec![Message::user("hi".to_string())];
    match conclude_stream(&mut messages, s.into_result()) {
        TurnStep::RunTools(calls) => assert_eq!(calls[0].id, "n1"),
        _ => panic!("expected tool calls"),
    }
    assert_eq!(messages.len(), 2);
    assert_eq!(messages[1].role, Role::Assistant);
    assert_eq!(messages[1].tool_calls.as_ref().unwrap()[0].name, "glob");
}

#[test]
fn conclude_stream_asks_for_a_retry_after_a_bad_block() {
    let mut s = TurnStream::new(0);
    s.on_text("```tool_call\n{oops}\n```");
    s.finish();
    let mut messages = Vec::new();
    assert!(matches!(conclude_stream(&mut messages, s.into_result()), TurnStep::Retry));
    assert_eq!(messages.len(), 2);
    assert_eq!(messages[1].role, Role::User);
    assert!(messages[1].content.starts_with("Your tool_call block could not be parsed as JSON."));
}

#[test]
fn conclude_stream_is_done_without_calls() {
    let mut s = TurnStream::new(0);
    s.on_text("<think>x</think>Final answer");
    s.on_done("<think>x</think>Final answer".to_string(), Vec::new());
    s.finish();
    let mut messages = Vec::new();
    assert!(matches!(conclude_stream(&mut messages, s.into_result()), TurnStep::Done));
    assert_eq!(messages[0].content, "Final answer");
    assert!(messages[0].tool_calls.is_none());
}

#[test]
fn unknown_tools_are_answered_with_the_tool_list() {
    let defs = tool_definitions();
    match plan_tool_call(&defs, "nope", false) {
        ToolPlan::Unknown(o) => assert_eq!(
            o,
            "Unknown tool \"nope\". Available tools: read_file, write_file, edit_file, list_dir, glob, grep, bash"
        ),
        _ => panic!("expected unknown"),
    }
    assert!(matches!(plan_tool_call(&defs, "bash", false), ToolPlan::NeedsApproval));
    assert!(matches!(plan_tool_call(&defs, "bash", true), ToolPlan::Run));
    assert!(matches!(plan_tool_call(&defs, "read_file", false), ToolPlan::Run));
    assert_eq!(declined_result().output, "User declined to run this tool.");
    assert!(declined_result().is_error);
}

#[test]
fn every_tool_call_gets_one_result_in_order() {
    let mut turn = Turn::new(vec![Message::user("go".to_string())]);
    assert!(turn.begin_iteration());
    let mut s = TurnStream::new(0);
    s.on_done(
        String::new(),
        vec![
            ToolCall { id: "a".into(), name: "glob".into(), arguments: "{}".into() },
            ToolCall { id: "b".into(), name: "bash".into(), arguments: "{}".into() },
        ],
    );
    s.finish();
    assert!(matches!(turn.conclude(s.into_result()), TurnStep::RunTools(_)));
    let first = turn.next_call().unwrap();
    assert_eq!(first.id, "a");
    turn.record_result("one".to_string());
    let second = turn.next_call().unwrap();
    assert_eq!(second.id, "b");
    turn.record_result("two".to_string());
    assert!(turn.next_call().is_none());
    let m = turn.into_messages();
    assert_eq!(m.len(), 4);
    assert_eq!(m[2].tool_call_id.as_deref(), Some("a"));
    assert_eq!(m[2].tool_name.as_deref(), Some("glob"));
    assert_eq!(m[2].content, "one");
    assert_eq!(m[3].tool_call_id.as_deref(), Some("b"));
    assert_eq!(m[3].content, "two");
}

#[test]
fn a_turn_makes_at_most_the_iteration_limit() {
    let mut turn = Turn::new(Vec::new());
    let mut n = 0;
    while turn.begin_iteration() {
        n += 1;
        let mut s = TurnStream::new(0);
        s.on_text("```tool_call\nbad\n```");
        s.finish();
        let _ = turn.conclude(s.into_result());
    }
    assert_eq!(n, MAX_ITERATIONS);
    assert_eq!(stop_notice(), "Stopped after 25 tool-call iterations to avoid an infinite loop.");
}

#[test]
fn system_prompt_names_the_project_and_lists_the_tools() {
    let defs = local_code_core::tools::tool_definitions();
    let p = local_code_core::agent::system_prompt::build_system_prompt(&defs, "/w/app");
    assert!(p.starts_with("You are Local Code, a coding assistant working in the project at /w/app.\n"));
    assert!(p.contains("fenced code block tagged tool_call"));
    assert!(p.contains("\n\nTools:\n- read_file: "));
    assert_eq!(p.matches("\n- ").count(), 7);
    assert!(p.ends_with('\n'));
}

#[test]
fn filter_events_never_hold_markup_or_nothing() {
    let text = "a<think>b</think>c<think>d";
    for cut in 0..=text.len() {
        if !text.is_char_boundary(cut) {
            continue;
        }
        let mut f = ThinkingTagFilter::new();
        let mut evs = f.feed(&text[..cut]);
        evs.extend(f.feed(&text[cut..]));
        evs.extend(f.finish());
        let mut outside = String::new();
        let mut inside = String::new();
        for e in &evs {
            match e {
                FilterEvent::Text(t) => {
                    assert!(!t.is_empty() && !t.contains("<think>"));
                    outside.push_str(t);
                },
                FilterEvent::Thinking(t) => {
                    assert!(!t.is_empty() && !t.contains("</think>"));
                    inside.push_str(t);
                },
            }
        }
        assert_eq!(outside, "ac");
        assert_eq!(inside, "bd");
    }
}

#[test]
fn scanner_text_hides_blocks_and_keeps_an_unclosed_one() {
    let text = "x```tool_call\n{\"name\":\"ls\"}\n```y```tool_call\nopen";
    for cut in 0..=text.len() {
        let mut sc = StreamingToolCallScanner::new();
        let mut evs = sc.feed(&text[..cut]);
        evs.extend(sc.feed(&text[cut..]));
        let fed = evs.len();
        evs.extend(sc.finish());
        let mut prose = String::new();
        let mut calls = 0;
        for (k, e) in evs.iter().enumerate() {
            match e {
                ScanEvent::Text(t) => {
                    assert!(!t.is_empty());
                    assert!(!t.contains("```tool_call") || (k >= fed && t.starts_with("```tool_call")));
                    prose.push_str(t);
                },
                ScanEvent::ToolCall { raw, .. } => {
                    assert_eq!(raw, "{\"name\":\"ls\"}");
                    calls += 1;
                },
            }
        }
        assert_eq!(calls, 1);
        assert_eq!(prose, "xy```tool_call\nopen");
    }
}
