use local_code_core::text::{components_of, file_name_of};
use local_code_core::app_state::{
    apply_agent_event, derive_title, transcript_from_core_messages, AppAction, AppAgentEvent, AppCore, AppMessage,
    Screen, TranscriptItem,
};
use local_code_core::setup::{
    filtered_models, update, CustomProviderField, CustomProviderForm, SetupAction, SetupMessage, SetupOutcome,
    SetupState,
};
use local_code_core::system::hardware::{recommend_model, HardwareProfile, BYTES_PER_GB};
use local_code_core::types::{LocalCodeConfig, Message, ProviderConfig, ProviderType, ToolCall};
use local_code_core::workspace::{ChatRecord, ProjectRecord, Workspace};

fn config() -> LocalCodeConfig {
    LocalCodeConfig {
        providers: vec![ProviderConfig {
            id: "lm".into(),
            kind: ProviderType::OpenAiCompatible,
            base_url: "http://localhost:1234/v1".into(),
            api_key: None,
            label: None,
        }],
        default_provider: "lm".into(),
        default_model: String::new(),
        auto_approve: false,
    }
}

#[test]
fn recommendation_follows_memory() {
    let hw = |gb: u64| HardwareProfile { total_ram_bytes: gb * BYTES_PER_GB, free_ram_bytes: 0, cpu_cores: 4 };
    let r = recommend_model(&hw(32));
    assert_eq!(r.recommended.name, "qwen2.5-coder:7b");
    let alts: Vec<&str> = r.alternatives.iter().map(|m| m.name.as_str()).collect();
    assert_eq!(alts, vec!["qwen2.5-coder:1.5b", "qwen2.5-coder:3b"]);
    assert_eq!(recommend_model(&hw(8)).recommended.name, "qwen2.5-coder:3b");
    assert_eq!(recommend_model(&hw(7)).recommended.name, "qwen2.5-coder:1.5b");
    assert_eq!(recommend_model(&hw(7)).recommended.approx_size_tenths_gb, 10);
}

#[test]
fn setup_probe_failure_checks_the_ollama_provider() {
    let mut st = SetupState::Probing;
    let mut c = config();
    let (a, o) = update(&mut st, SetupMessage::ProbeDone(false), &mut c);
    assert!(matches!(a, SetupAction::CheckOllamaReachable(u) if u == "http://localhost:11434"));
    assert!(o.is_none());
    let (a, _) = update(&mut st, SetupMessage::OllamaReachable(false), &mut c);
    assert!(matches!(a, SetupAction::CheckOllamaInstalled));
    let (_, _) = update(&mut st, SetupMessage::OllamaInstalled(false), &mut c);
    assert!(matches!(&st, SetupState::PickProvider { info: Some(i) } if i.starts_with("Ollama isn't installed.")));
}

#[test]
fn setup_download_success_saves_ollama_as_default() {
    let mut st = SetupState::Probing;
    let mut c = config();
    let (a, _) = update(&mut st, SetupMessage::ChooseModel("m:1b".into()), &mut c);
    assert!(matches!(a, SetupAction::PullModel(m) if m == "m:1b"));
    update(&mut st, SetupMessage::PullLine("pulling".into()), &mut c);
    assert!(matches!(&st, SetupState::Downloading { log, .. } if log == &vec!["pulling".to_string()]));
    let (a, o) = update(&mut st, SetupMessage::PullDone(true), &mut c);
    assert!(matches!(a, SetupAction::SaveConfig));
    match o {
        Some(SetupOutcome::Finished { provider, model }) => {
            assert_eq!(provider.id, "ollama");
            assert_eq!(model, "m:1b");
        },
        None => panic!("expected the wizard to finish"),
    }
    assert_eq!(c.default_provider, "ollama");
    assert_eq!(c.default_model, "m:1b");
    assert_eq!(c.providers.len(), 2);
}

#[test]
fn setup_download_failure_explains_how_to_retry() {
    let mut st = SetupState::Downloading { model: "m".into(), log: Vec::new() };
    let mut c = config();
    update(&mut st, SetupMessage::PullDone(false), &mut c);
    assert!(matches!(&st, SetupState::PickProvider { info: Some(i) }
        if i == "Failed to pull m. You can retry later with: ollama pull m"));
}

#[test]
fn setup_custom_provider_form() {
    let mut st = SetupState::PickProvider { info: None };
    let mut c = config();
    update(&mut st, SetupMessage::AddCustomPressed, &mut c);
    update(&mut st, SetupMessage::CustomSubmit, &mut c);
    assert!(matches!(&st, SetupState::AddCustomProvider(CustomProviderForm { error: Some(e), .. }) if e == "Pick a provider type."));
    update(&mut st, SetupMessage::CustomKindChosen(ProviderType::OpenAiCompatible), &mut c);
    assert!(matches!(&st, SetupState::AddCustomProvider(f) if f.base_url == "https://api.openai.com/v1"));
    update(&mut st, SetupMessage::CustomSubmit, &mut c);
    assert!(matches!(&st, SetupState::AddCustomProvider(CustomProviderForm { error: Some(e), .. }) if e == "Id and base URL are required."));
    update(&mut st, SetupMessage::CustomFieldChanged(CustomProviderField::Id, " mine ".into()), &mut c);
    update(&mut st, SetupMessage::CustomFieldChanged(CustomProviderField::ApiKey, "k".into()), &mut c);
    let (a, _) = update(&mut st, SetupMessage::CustomSubmit, &mut c);
    match a {
        SetupAction::ListModels(p) => {
            assert_eq!(p.id, "mine");
            assert_eq!(p.api_key.as_deref(), Some("k"));
            assert_eq!(p.label, None);
        },
        _ => panic!("expected models to be listed"),
    }
    assert_eq!(c.providers.len(), 2);
    assert!(matches!(&st, SetupState::PickModel { loading: true, .. }));
}

#[test]
fn setup_models_then_confirm() {
    let p = config().providers[0].clone();
    let mut st = SetupState::PickModel { provider: p, models: Vec::new(), filter: String::new(), loading: true };
    let mut c = config();
    update(&mut st, SetupMessage::ModelsLoaded(Err("timeout".into())), &mut c);
    assert!(matches!(&st, SetupState::ManualModel { info: Some(i), .. } if i == "Could not reach provider: timeout"));
    update(&mut st, SetupMessage::ManualModelChanged("  ".into()), &mut c);
    update(&mut st, SetupMessage::ManualModelSubmit, &mut c);
    assert!(matches!(&st, SetupState::ManualModel { .. }));
    update(&mut st, SetupMessage::ManualModelChanged(" llama3 ".into()), &mut c);
    update(&mut st, SetupMessage::ManualModelSubmit, &mut c);
    assert!(matches!(&st, SetupState::ConfirmSave { model, save_default: true, .. } if model == "llama3"));
    update(&mut st, SetupMessage::SaveDefaultToggled(false), &mut c);
    let (a, o) = update(&mut st, SetupMessage::Finish, &mut c);
    assert!(matches!(a, SetupAction::Wait));
    assert!(o.is_some());
    assert_eq!(c.default_model, "");
}

#[test]
fn model_filter_applies_only_to_long_lists() {
    let few: Vec<String> = vec!["A".into(), "b".into()];
    assert_eq!(filtered_models(&few, "zzz"), vec!["A", "b"]);
    let many: Vec<String> = (0..9).map(|i| format!("Model-{i}")).collect();
    assert_eq!(filtered_models(&many, "model-3"), vec!["Model-3"]);
    assert_eq!(filtered_models(&many, "").len(), 9);
}

#[test]
fn titles_come_from_the_first_user_message() {
    let long = "x".repeat(60);
    assert_eq!(derive_title(&vec![Message::system("s".into()), Message::user("  Fix it  ".into())]), "Fix it");
    assert_eq!(derive_title(&vec![Message::user(long)]), format!("{}\u{2026}", "x".repeat(48)));
    assert_eq!(derive_title(&vec![Message::user("   ".into())]), "New chat");
    assert_eq!(derive_title(&Vec::new()), "New chat");
}

fn text_of(items: &[TranscriptItem<u32>]) -> Vec<String> {
    items
        .iter()
        .map(|i| match i {
            TranscriptItem::User(t) => format!("user:{t}"),
            TranscriptItem::Assistant { text, thinking, streaming, .. } => format!("assistant:{text}|{thinking}|{streaming}"),
            TranscriptItem::Tool { name, output, approval, .. } => {
                format!("tool:{name}:{:?}:{}", output, approval.as_ref().map(|a| a.1).unwrap_or(0))
            },
            TranscriptItem::Notice(n) => format!("notice:{n}"),
        })
        .collect()
}

#[test]
fn transcript_follows_turn_events() {
    let mut items: Vec<TranscriptItem<u32>> = Vec::new();
    apply_agent_event(&mut items, AppAgentEvent::ThinkingChunk("hm".into()));
    apply_agent_event(&mut items, AppAgentEvent::TextChunk("Hel".into()));
    apply_agent_event(&mut items, AppAgentEvent::TextChunk("lo".into()));
    apply_agent_event(&mut items, AppAgentEvent::ToolStart { name: "bash".into(), args: "{}".into() });
    apply_agent_event(&mut items, AppAgentEvent::NeedsApproval { preview: "$ ls".into(), respond: 9 });
    apply_agent_event(&mut items, AppAgentEvent::ToolResult { output: "ok".into(), is_error: false });
    apply_agent_event(&mut items, AppAgentEvent::Notice("note".into()));
    apply_agent_event(&mut items, AppAgentEvent::TextChunk("after".into()));
    let done = apply_agent_event(&mut items, AppAgentEvent::Done { messages: vec![Message::user("x".into())] });
    assert_eq!(done.unwrap().len(), 1);
    assert_eq!(
        text_of(&items),
        vec![
            "assistant:Hello|hm|true",
            "tool:bash:Some((\"ok\", false)):0",
            "notice:note",
            "assistant:after||false",
        ]
    );
}

#[test]
fn approval_goes_to_the_last_waiting_tool() {
    let mut items: Vec<TranscriptItem<u32>> = Vec::new();
    apply_agent_event(&mut items, AppAgentEvent::ToolStart { name: "a".into(), args: "{}".into() });
    apply_agent_event(&mut items, AppAgentEvent::ToolStart { name: "b".into(), args: "{}".into() });
    apply_agent_event(&mut items, AppAgentEvent::NeedsApproval { preview: "p".into(), respond: 4 });
    assert_eq!(text_of(&items), vec!["tool:a:None:0", "tool:b:None:4"]);
}

#[test]
fn transcript_is_rebuilt_from_stored_messages() {
    let calls = vec![ToolCall { id: "1".into(), name: "glob".into(), arguments: "{\"pattern\":\"*\"}".into() }];
    let messages = vec![
        Message::system("sys".into()),
        Message::user("hi".into()),
        Message::assistant("".into(), Some(calls)),
        Message::tool_result("a.rs".into(), "1".into(), "glob".into()),
        Message::assistant("Found a.rs".into(), None),
    ];
    let items: Vec<TranscriptItem<u32>> = transcript_from_core_messages(&messages);
    assert_eq!(
        text_of(&items),
        vec!["user:hi", "tool:glob:Some((\"a.rs\", false)):0", "assistant:Found a.rs||false"]
    );
}

fn chat(id: &str, project: &str, updated: i64) -> ChatRecord {
    ChatRecord {
        id: id.into(),
        project_id: project.into(),
        title: None,
        provider_id: "lm".into(),
        model: "m".into(),
        messages: Vec::new(),
        created_at: 0,
        updated_at: updated,
    }
}

#[test]
fn workspace_projects_and_chats() {
    let mut w = Workspace::default();
    let p1 = w.add_project("/w/app".into(), 1);
    assert_eq!(w.active_project.as_deref(), Some(p1.as_str()));
    let again = w.add_project("/w/app/".into(), 2);
    assert_eq!(again, p1);
    assert_eq!(w.projects.len(), 1);
    assert_eq!(w.project(&p1).unwrap().name, "app");
    assert!(w.project("nope").is_none());
    let c = w.add_chat(&p1, "lm".into(), "m".into(), 3);
    assert_eq!(w.active_chat.as_deref(), Some(c.as_str()));
    assert_eq!(w.chat(&c).unwrap().display_title(), "New chat");
    assert!(c.starts_with("chat_") && c.ends_with("_3"));
}

#[test]
fn chat_mut_changes_that_chat_only() {
    let mut w = Workspace::default();
    w.chats = vec![chat("a", "p", 1), chat("b", "p", 2)];
    if let Some(c) = w.chat_mut("b") {
        c.model = "bigger".into();
    }
    assert_eq!(w.chats[1].model, "bigger");
    assert_eq!(w.chats[0].model, "m");
    assert!(w.chat_mut("z").is_none());
    assert_eq!(w.chats.len(), 2);
}

#[test]
fn chats_are_listed_most_recent_first_ties_in_order() {
    let mut w = Workspace::default();
    w.chats = vec![chat("a", "p", 5), chat("b", "q", 9), chat("c", "p", 7), chat("d", "p", 5)];
    let ids: Vec<&str> = w.chats_for_project("p").iter().map(|c| c.id.as_str()).collect();
    assert_eq!(ids, vec!["c", "a", "d"]);
    assert_eq!(w.most_recent_chat_for_project("p").unwrap().id, "c");
    assert!(w.most_recent_chat_for_project("r").is_none());
}

#[test]
fn submitting_a_message_starts_a_turn() {
    let mut w = Workspace::default();
    w.projects.push(ProjectRecord { id: "p".into(), name: "p".into(), path: "/w/p".into() });
    w.chats.push(chat("c", "p", 1));
    w.active_chat = Some("c".into());
    let mut core: AppCore<u32> = AppCore::new(w);
    let mut cfg = config();
    cfg.default_model = "m".into();
    core.update(AppMessage::ConfigLoaded(cfg));
    assert!(matches!(core.screen, Screen::Workspace));
    core.update(AppMessage::InputChanged("  list files ".into()));
    let actions = core.update(AppMessage::Submit);
    assert!(core.busy);
    assert_eq!(core.input, "");
    assert!(matches!(actions[0], AppAction::SaveWorkspace));
    match &actions[1] {
        AppAction::StartTurn { provider, model, messages, cwd, auto_approve } => {
            assert_eq!(provider.id, "lm");
            assert_eq!(model, "m");
            assert_eq!(messages.len(), 1);
            assert_eq!(cwd, "/w/p");
            assert!(!auto_approve);
        },
        _ => panic!("expected a turn"),
    }
    assert_eq!(core.workspace.chats[0].title.as_deref(), Some("list files"));
    let again = core.update(AppMessage::Submit);
    assert!(again.is_empty());
}

#[test]
fn approval_choice_answers_the_request() {
    let mut core: AppCore<u32> = AppCore::new(Workspace::default());
    core.update(AppMessage::Agent(AppAgentEvent::ToolStart { name: "bash".into(), args: "{}".into() }));
    core.update(AppMessage::Agent(AppAgentEvent::NeedsApproval { preview: "$ rm".into(), respond: 42 }));
    let actions = core.update(AppMessage::ApprovalChoice { approved: true, remember: true });
    assert!(matches!(actions[..], [AppAction::Respond(42, true)]));
    assert!(core.session_auto_approve);
    let none = core.update(AppMessage::ApprovalChoice { approved: false, remember: false });
    assert!(none.is_empty());
}

#[test]
fn first_run_without_a_model_probes_providers() {
    let mut core: AppCore<u32> = AppCore::new(Workspace::default());
    let actions = core.update(AppMessage::ConfigLoaded(config()));
    assert!(matches!(core.screen, Screen::Setup(SetupState::Probing)));
    assert!(matches!(actions[..], [AppAction::ProbeProviders(_)]));
}

#[test]
fn the_title_names_the_active_project() {
    let mut w = Workspace::default();
    let core: AppCore<u32> = AppCore::new(w.clone());
    assert_eq!(core.title(), "Local Code");
    w.projects.push(ProjectRecord { id: "p".into(), name: "shop".into(), path: "/w/shop".into() });
    w.active_project = Some("p".into());
    let core: AppCore<u32> = AppCore::new(w.clone());
    assert_eq!(core.title(), "Local Code \u{2014} shop");
    w.active_project = Some("gone".into());
    let core: AppCore<u32> = AppCore::new(w);
    assert_eq!(core.title(), "Local Code");
}

#[test]
fn projects_are_named_after_their_folder_and_found_by_components() {
    let mut w = Workspace::default();
    let a = w.add_project("/home/u/shop".into(), 1);
    assert_eq!(w.project(&a).unwrap().name, "shop");
    assert_eq!(w.add_project("/home/u//shop/.".into(), 2), a);
    assert_eq!(w.projects.len(), 1);
    let root = w.add_project("/".into(), 3);
    assert_eq!(w.project(&root).unwrap().name, "/");
    let up = w.add_project("work/..".into(), 4);
    assert_eq!(w.project(&up).unwrap().name, "work/..");
    assert_eq!(w.projects.len(), 3);
}

#[test]
fn path_components_follow_the_standard_library() {
    for p in ["/a/b", "/a/b/", "a//b", "./a/./b", ".", "/", "a/..", "", "x/.", "//a"] {
        let ours = components_of(p);
        let expected: Vec<String> =
            std::path::Path::new(p).components().map(|c| c.as_os_str().to_string_lossy().into_owned()).collect();
        assert_eq!(ours, expected, "components of {p:?}");
        let name = std::path::Path::new(p)
            .file_name()
            .map(|n| n.to_string_lossy().into_owned())
            .unwrap_or_else(|| p.to_string());
        assert_eq!(file_name_of(p), name, "name of {p:?}");
    }
}

#[test]
fn a_finished_turn_updates_only_its_chat() {
    let mut w = Workspace::default();
    w.chats = vec![chat("a", "p", 1), chat("b", "p", 2)];
    w.active_chat = Some("a".into());
    let mut core: AppCore<u32> = AppCore::new(w);
    core.busy = true;
    let actions = core.update(AppMessage::Agent(AppAgentEvent::Done { messages: vec![Message::user("hi".into())] }));
    assert_eq!(actions.len(), 1);
    assert!(!core.busy);
    assert_eq!(core.workspace.chats[0].messages.len(), 1);
    assert!(core.workspace.chats[0].updated_at > 1);
    assert_eq!(core.workspace.chats[1].messages.len(), 0);
    assert_eq!(core.workspace.chats[1].updated_at, 2);
    assert_eq!(core.workspace.active_chat.as_deref(), Some("a"));
}
