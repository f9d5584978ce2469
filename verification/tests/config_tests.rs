use local_code_core::config::{
    config_dir, config_path, default_providers, finalize_provider, get_config_path, load_config_for_cwd,
    merge_providers, project_config_path, RawConfig, RawProviderConfig,
};
use local_code_core::workspace::{workspace_dir, workspace_path};
use local_code_core::providers::registry::{list_providers, resolve_provider};
use local_code_core::types::{LocalCodeConfig, ProviderConfig, ProviderType};

fn raw(id: Option<&str>, url: Option<&str>, label: Option<&str>) -> RawProviderConfig {
    RawProviderConfig {
        id: id.map(|s| s.to_string()),
        kind: None,
        base_url: url.map(|s| s.to_string()),
        api_key: None,
        label: label.map(|s| s.to_string()),
    }
}

fn empty() -> RawConfig {
    RawConfig { providers: None, default_provider: None, default_model: None, auto_approve: None }
}

#[test]
fn merge_keeps_first_position_and_last_value() {
    let merged = merge_providers(vec![
        vec![raw(Some("a"), Some("u1"), Some("A")), raw(Some("b"), Some("u2"), None)],
        vec![raw(None, Some("ignored"), None), raw(Some("c"), Some("u3"), None), raw(Some("a"), Some("u4"), None)],
    ]);
    let ids: Vec<&str> = merged.iter().map(|p| p.id.as_deref().unwrap()).collect();
    assert_eq!(ids, vec!["a", "b", "c"]);
    assert_eq!(merged[0].base_url.as_deref(), Some("u4"));
    assert_eq!(merged[0].label.as_deref(), Some("A"));
}

#[test]
fn merge_from_overrides_only_fields_that_are_set() {
    let mut a = RawProviderConfig {
        id: Some("x".into()),
        kind: Some(ProviderType::Ollama),
        base_url: Some("u".into()),
        api_key: Some("k".into()),
        label: None,
    };
    let b = RawProviderConfig { id: Some("y".into()), kind: None, base_url: None, api_key: None, label: Some("L".into()) };
    a.merge_from(&b);
    assert_eq!(a.id.as_deref(), Some("x"));
    assert_eq!(a.kind, Some(ProviderType::Ollama));
    assert_eq!(a.base_url.as_deref(), Some("u"));
    assert_eq!(a.api_key.as_deref(), Some("k"));
    assert_eq!(a.label.as_deref(), Some("L"));
}

#[test]
fn defaults_are_ollama_and_lm_studio() {
    let d = default_providers();
    assert_eq!(d.len(), 2);
    assert_eq!(d[0].id.as_deref(), Some("ollama"));
    assert_eq!(d[0].base_url.as_deref(), Some("http://localhost:11434"));
    assert_eq!(d[1].id.as_deref(), Some("lmstudio"));
    assert_eq!(d[1].kind, Some(ProviderType::OpenAiCompatible));
    assert_eq!(d[1].base_url.as_deref(), Some("http://localhost:1234/v1"));
    assert_eq!(d[1].label.as_deref(), Some("LM Studio"));
}

#[test]
fn finalize_needs_id_kind_and_base_url() {
    assert!(finalize_provider(raw(Some("a"), Some("u"), None)).is_none());
    let mut r = raw(Some("a"), Some("u"), None);
    r.kind = Some(ProviderType::OpenAiCompatible);
    let p = finalize_provider(r).unwrap();
    assert_eq!(p.id, "a");
    assert_eq!(p.base_url, "u");
}

#[test]
fn project_settings_win_over_user_settings() {
    let mut base = empty();
    base.default_model = Some("m1".into());
    base.default_provider = Some("lmstudio".into());
    base.auto_approve = Some(true);
    let mut project = empty();
    project.default_model = Some("m2".into());
    project.providers = Some(vec![RawProviderConfig {
        id: Some("ollama".into()),
        kind: None,
        base_url: Some("http://gpu:11434".into()),
        api_key: None,
        label: None,
    }]);
    let c = load_config_for_cwd(base, project);
    assert_eq!(c.default_model, "m2");
    assert_eq!(c.default_provider, "lmstudio");
    assert!(c.auto_approve);
    assert_eq!(c.providers.len(), 2);
    assert_eq!(c.providers[0].base_url, "http://gpu:11434");
    assert_eq!(c.providers[0].label.as_deref(), Some("Ollama"));
}

#[test]
fn nothing_set_gives_the_defaults() {
    let c = load_config_for_cwd(empty(), empty());
    assert_eq!(c.default_provider, "ollama");
    assert_eq!(c.default_model, "");
    assert!(!c.auto_approve);
    assert_eq!(c.providers.len(), 2);
}

#[test]
fn project_config_lives_in_the_working_directory() {
    assert_eq!(project_config_path("/work/app"), "/work/app/.local-code.json");
}

fn config() -> LocalCodeConfig {
    LocalCodeConfig {
        providers: vec![
            ProviderConfig { id: "ollama".into(), kind: ProviderType::Ollama, base_url: "u".into(), api_key: None, label: None },
            ProviderConfig {
                id: "lmstudio".into(),
                kind: ProviderType::OpenAiCompatible,
                base_url: "v".into(),
                api_key: None,
                label: Some("LM".into()),
            },
        ],
        default_provider: "lmstudio".into(),
        default_model: "m".into(),
        auto_approve: false,
    }
}

#[test]
fn providers_are_resolved_by_id_or_default() {
    let c = config();
    assert_eq!(list_providers(&c).len(), 2);
    assert_eq!(resolve_provider(&c, None).unwrap().id, "lmstudio");
    assert_eq!(resolve_provider(&c, Some("ollama")).unwrap().id, "ollama");
    assert_eq!(
        resolve_provider(&c, Some("nope")).unwrap_err(),
        "Unknown provider \"nope\". Configured providers: ollama, lmstudio"
    );
    assert_eq!(c.providers[0].display_label(), "ollama");
    assert_eq!(c.providers[1].display_label(), "LM");
}

#[test]
fn user_files_live_under_the_home_directory() {
    let dir = config_dir();
    assert!(dir.ends_with(".local-code"));
    assert!(dir.len() > ".local-code".len(), "the home directory is part of the path");
    assert_eq!(config_path(), format!("{dir}/config.json"));
    assert_eq!(get_config_path(), config_path());
    assert_eq!(workspace_dir(), format!("{dir}/desktop"));
    assert_eq!(workspace_path(), format!("{dir}/desktop/workspace.json"));
}
