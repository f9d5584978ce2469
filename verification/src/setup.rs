//! The first-run wizard: when no model is configured, it tries to bring up
//! a small local Ollama model, and otherwise walks the user through picking
//! a provider and a model. `update` decides each step; the caller performs
//! the returned action and reports its result as the next message.

use vstd::prelude::*;
use crate::system::hardware::{
    recommend_model, recommendation_views, tier_index, tiers, HardwareProfile, ModelRecommendation,
    RecommendationView,
};
use crate::text::{
    concat2, concat3, find_bytes, find_from, first_index, lemma_first_index, lemma_first_index_unique, str_eq,
    str_is_empty, trim, trim_spec, utf8,
};
use crate::types::{
    copy_opt, opt_view, provider_views, ConfigView, LocalCodeConfig, ProviderConfig, ProviderType,
    ProviderView,
};
use vstd::string::{StringExecFns, StringSliceAdditionalSpecFns};

verus! {

/// With at most this many models the filter is not applied.
pub const MAX_UNFILTERED: usize = 8;

/// A field of the form for a custom provider.
#[derive(Debug, Clone, Copy, PartialEq, Eq, Structural)]
pub enum CustomProviderField {
    Id,
    BaseUrl,
    Label,
    ApiKey,
}

/// The form for a custom provider, as filled in so far.
#[derive(Debug, Clone)]
pub struct CustomProviderForm {
    pub kind: Option<ProviderType>,
    pub id: String,
    pub base_url: String,
    pub label: String,
    pub api_key: String,
    pub error: Option<String>,
}

pub struct FormView {
    pub kind: Option<ProviderType>,
    pub id: Seq<char>,
    pub base_url: Seq<char>,
    pub label: Seq<char>,
    pub api_key: Seq<char>,
    pub error: Option<Seq<char>>,
}

impl View for CustomProviderForm {
    type V = FormView;

    open spec fn view(&self) -> FormView {
        FormView {
            kind: self.kind,
            id: self.id@,
            base_url: self.base_url@,
            label: self.label@,
            api_key: self.api_key@,
            error: opt_view(self.error),
        }
    }
}

/// An empty form.
pub open spec fn empty_form() -> FormView {
    FormView { kind: None, id: seq![], base_url: seq![], label: seq![], api_key: seq![], error: None }
}

impl Default for CustomProviderForm {
    fn default() -> (f: Self)
        ensures
            f@ == empty_form(),
    {
        CustomProviderForm {
            kind: None,
            id: String::new(),
            base_url: String::new(),
            label: String::new(),
            api_key: String::new(),
            error: None,
        }
    }
}

/// Where the wizard is.
pub enum SetupState {
    Probing,
    Bootstrap { hw: HardwareProfile, recommended: ModelRecommendation, alternatives: Vec<ModelRecommendation> },
    Downloading { model: String, log: Vec<String> },
    PickProvider { info: Option<String> },
    AddCustomProvider(CustomProviderForm),
    PickModel { provider: ProviderConfig, models: Vec<String>, filter: String, loading: bool },
    ManualModel { provider: ProviderConfig, value: String, info: Option<String> },
    ConfirmSave { provider: ProviderConfig, model: String, save_default: bool },
}

pub enum SetupView {
    Probing,
    Bootstrap { hw: HardwareProfile, recommended: RecommendationView, alternatives: Seq<RecommendationView> },
    Downloading { model: Seq<char>, log: Seq<Seq<char>> },
    PickProvider { info: Option<Seq<char>> },
    AddCustomProvider(FormView),
    PickModel { provider: ProviderView, models: Seq<Seq<char>>, filter: Seq<char>, loading: bool },
    ManualModel { provider: ProviderView, value: Seq<char>, info: Option<Seq<char>> },
    ConfirmSave { provider: ProviderView, model: Seq<char>, save_default: bool },
}

pub open spec fn string_views(s: Seq<String>) -> Seq<Seq<char>> {
    s.map_values(|x: String| x@)
}

impl View for SetupState {
    type V = SetupView;

    open spec fn view(&self) -> SetupView {
        match self {
            SetupState::Probing => SetupView::Probing,
            SetupState::Bootstrap { hw, recommended, alternatives } => SetupView::Bootstrap {
                hw: *hw,
                recommended: recommended@,
                alternatives: recommendation_views(alternatives@),
            },
            SetupState::Downloading { model, log } => SetupView::Downloading {
                model: model@,
                log: string_views(log@),
            },
            SetupState::PickProvider { info } => SetupView::PickProvider { info: opt_view(*info) },
            SetupState::AddCustomProvider(f) => SetupView::AddCustomProvider(f@),
            SetupState::PickModel { provider, models, filter, loading } => SetupView::PickModel {
                provider: provider@,
                models: string_views(models@),
                filter: filter@,
                loading: *loading,
            },
            SetupState::ManualModel { provider, value, info } => SetupView::ManualModel {
                provider: provider@,
                value: value@,
                info: opt_view(*info),
            },
            SetupState::ConfirmSave { provider, model, save_default } => SetupView::ConfirmSave {
                provider: provider@,
                model: model@,
                save_default: *save_default,
            },
        }
    }
}

/// What the caller reports back.
pub enum SetupMessage {
    ProbeDone(bool),
    OllamaReachable(bool),
    OllamaInstalled(bool),
    OllamaServerReady(bool),
    HardwareDetected(HardwareProfile),
    ChooseModel(String),
    Skip,
    PullLine(String),
    PullDone(bool),
    SelectProvider(ProviderConfig),
    AddCustomPressed,
    CustomKindChosen(ProviderType),
    CustomFieldChanged(CustomProviderField, String),
    CustomSubmit,
    CustomCancel,
    ModelsLoaded(Result<Vec<String>, String>),
    ModelFilterChanged(String),
    ModelSelected(String),
    ManualModelChanged(String),
    ManualModelSubmit,
    BackToProviders,
    SaveDefaultToggled(bool),
    Finish,
}

/// What the caller is to do next.
pub enum SetupAction {
    /// Nothing: wait for the user.
    Wait,
    /// Check whether Ollama answers at this base URL.
    CheckOllamaReachable(String),
    /// Check whether Ollama is installed.
    CheckOllamaInstalled,
    /// Start the Ollama server and wait until it answers at this base URL.
    StartOllama(String),
    /// Read the machine's memory and processors.
    DetectHardware,
    /// Download this model, reporting its progress lines.
    PullModel(String),
    /// Ask this provider for its models.
    ListModels(ProviderConfig),
    /// Save the configuration.
    SaveConfig,
}

pub enum ActionView {
    Wait,
    CheckOllamaReachable(Seq<char>),
    CheckOllamaInstalled,
    StartOllama(Seq<char>),
    DetectHardware,
    PullModel(Seq<char>),
    ListModels(ProviderView),
    SaveConfig,
}

impl View for SetupAction {
    type V = ActionView;

    open spec fn view(&self) -> ActionView {
        match self {
            SetupAction::Wait => ActionView::Wait,
            SetupAction::CheckOllamaReachable(u) => ActionView::CheckOllamaReachable(u@),
            SetupAction::CheckOllamaInstalled => ActionView::CheckOllamaInstalled,
            SetupAction::StartOllama(u) => ActionView::StartOllama(u@),
            SetupAction::DetectHardware => ActionView::DetectHardware,
            SetupAction::PullModel(m) => ActionView::PullModel(m@),
            SetupAction::ListModels(p) => ActionView::ListModels(p@),
            SetupAction::SaveConfig => ActionView::SaveConfig,
        }
    }
}

/// How the wizard ends: with a provider and a model chosen.
pub enum SetupOutcome {
    Finished { provider: ProviderConfig, model: String },
}

pub open spec fn outcome_view(o: Option<SetupOutcome>) -> Option<(ProviderView, Seq<char>)> {
    match o {
        Some(SetupOutcome::Finished { provider, model }) => Some((provider@, model@)),
        None => None,
    }
}

/// The Ollama provider of the configuration (the first), or the built-in
/// one at `http://localhost:11434`.
pub open spec fn ollama_provider_spec(c: ConfigView) -> ProviderView {
    let k = first_index(c.providers, |p: ProviderView| p.kind == ProviderType::Ollama);
    if k >= 0 {
        c.providers[k]
    } else {
        ProviderView {
            id: "ollama"@,
            kind: ProviderType::Ollama,
            base_url: "http://localhost:11434"@,
            api_key: None,
            label: Some("Ollama"@),
        }
    }
}

/// The base URL a new provider of this kind starts with.
pub open spec fn default_base_url(kind: ProviderType) -> Seq<char> {
    match kind {
        ProviderType::Ollama => "http://localhost:11434"@,
        ProviderType::OpenAiCompatible => "https://api.openai.com/v1"@,
    }
}

/// The form with one field set.
pub open spec fn set_field(f: FormView, field: CustomProviderField, value: Seq<char>) -> FormView {
    match field {
        CustomProviderField::Id => FormView { id: value, ..f },
        CustomProviderField::BaseUrl => FormView { base_url: value, ..f },
        CustomProviderField::Label => FormView { label: value, ..f },
        CustomProviderField::ApiKey => FormView { api_key: value, ..f },
    }
}

/// The model being downloaded, or nothing.
pub open spec fn downloading_model(s: SetupView) -> Seq<char> {
    match s {
        SetupView::Downloading { model, .. } => model,
        _ => seq![],
    }
}

/// The provider the form describes, of kind `kind`.
pub open spec fn form_provider(f: FormView, kind: ProviderType) -> ProviderView {
    ProviderView {
        id: trim_spec(f.id),
        kind,
        base_url: trim_spec(f.base_url),
        api_key: if f.api_key.len() == 0 {
            None
        } else {
            Some(f.api_key)
        },
        label: if f.label.len() == 0 {
            None
        } else {
            Some(f.label)
        },
    }
}

/// A state that shows the models of `p` being loaded.
pub open spec fn loading_models(p: ProviderView) -> SetupView {
    SetupView::PickModel { provider: p, models: seq![], filter: seq![], loading: true }
}

/// The message when Ollama is not installed.
pub open spec fn not_installed_info() -> Seq<char> {
    "Ollama isn't installed. Install it from https://ollama.com/download, or set up a provider manually below."@
}

/// The message when Ollama does not answer after it was started.
pub open spec fn not_reachable_info() -> Seq<char> {
    "Couldn't reach Ollama after starting it. Try running `ollama serve` yourself."@
}

/// The step the wizard takes: from its state `s`, the message `m` and the
/// configuration `c`, the next state, the next configuration, the action for
/// the caller, and the outcome if the wizard is done.
pub open spec fn setup_next(s: SetupView, m: SetupMessage, c: ConfigView) -> (
    SetupView,
    ConfigView,
    ActionView,
    Option<(ProviderView, Seq<char>)>,
) {
    let pick = SetupView::PickProvider { info: None };
    match m {
        SetupMessage::ProbeDone(any) => if any {
            (pick, c, ActionView::Wait, None)
        } else {
            (s, c, ActionView::CheckOllamaReachable(ollama_provider_spec(c).base_url), None)
        },
        SetupMessage::OllamaReachable(r) => if r {
            (s, c, ActionView::DetectHardware, None)
        } else {
            (s, c, ActionView::CheckOllamaInstalled, None)
        },
        SetupMessage::OllamaInstalled(i) => if i {
            (s, c, ActionView::StartOllama(ollama_provider_spec(c).base_url), None)
        } else {
            (SetupView::PickProvider { info: Some(not_installed_info()) }, c, ActionView::Wait, None)
        },
        SetupMessage::OllamaServerReady(r) => if r {
            (s, c, ActionView::DetectHardware, None)
        } else {
            (SetupView::PickProvider { info: Some(not_reachable_info()) }, c, ActionView::Wait, None)
        },
        SetupMessage::HardwareDetected(hw) => (
            SetupView::Bootstrap {
                hw,
                recommended: tiers()[tier_index(hw.total_ram_bytes)],
                alternatives: tiers().remove(tier_index(hw.total_ram_bytes)),
            },
            c,
            ActionView::Wait,
            None,
        ),
        SetupMessage::ChooseModel(model) => (
            SetupView::Downloading { model: model@, log: seq![] },
            c,
            ActionView::PullModel(model@),
            None,
        ),
        SetupMessage::Skip => (pick, c, ActionView::Wait, None),
        SetupMessage::PullLine(line) => match s {
            SetupView::Downloading { model, log } => (
                SetupView::Downloading { model, log: log.push(line@) },
                c,
                ActionView::Wait,
                None,
            ),
            _ => (s, c, ActionView::Wait, None),
        },
        SetupMessage::PullDone(ok) => {
            let model = downloading_model(s);
            if ok {
                let o = ollama_provider_spec(c);
                let known = first_index(c.providers, |p: ProviderView| p.id == o.id) >= 0;
                (
                    s,
                    ConfigView {
                        providers: if known {
                            c.providers
                        } else {
                            c.providers.push(o)
                        },
                        default_provider: o.id,
                        default_model: model,
                        auto_approve: c.auto_approve,
                    },
                    ActionView::SaveConfig,
                    Some((o, model)),
                )
            } else {
                (
                    SetupView::PickProvider {
                        info: Some(
                            "Failed to pull "@ + model + ". You can retry later with: ollama pull "@ + model,
                        ),
                    },
                    c,
                    ActionView::Wait,
                    None,
                )
            }
        },
        SetupMessage::SelectProvider(p) => (loading_models(p@), c, ActionView::ListModels(p@), None),
        SetupMessage::AddCustomPressed => (SetupView::AddCustomProvider(empty_form()), c, ActionView::Wait, None),
        SetupMessage::CustomKindChosen(kind) => match s {
            SetupView::AddCustomProvider(f) => (
                SetupView::AddCustomProvider(
                    FormView {
                        kind: Some(kind),
                        base_url: if f.base_url.len() == 0 {
                            default_base_url(kind)
                        } else {
                            f.base_url
                        },
                        ..f
                    },
                ),
                c,
                ActionView::Wait,
                None,
            ),
            _ => (s, c, ActionView::Wait, None),
        },
        SetupMessage::CustomFieldChanged(field, value) => match s {
            SetupView::AddCustomProvider(f) => (
                SetupView::AddCustomProvider(set_field(f, field, value@)),
                c,
                ActionView::Wait,
                None,
            ),
            _ => (s, c, ActionView::Wait, None),
        },
        SetupMessage::CustomSubmit => match s {
            SetupView::AddCustomProvider(f) => match f.kind {
                None => (
                    SetupView::AddCustomProvider(FormView { error: Some("Pick a provider type."@), ..f }),
                    c,
                    ActionView::Wait,
                    None,
                ),
                Some(kind) => if trim_spec(f.id).len() == 0 || trim_spec(f.base_url).len() == 0 {
                    (
                        SetupView::AddCustomProvider(FormView { error: Some("Id and base URL are required."@), ..f }),
                        c,
                        ActionView::Wait,
                        None,
                    )
                } else {
                    let k = first_index(c.providers, |p: ProviderView| p.id == f.id);
                    if k >= 0 {
                        (loading_models(c.providers[k]), c, ActionView::ListModels(c.providers[k]), None)
                    } else {
                        let p = form_provider(f, kind);
                        (
                            loading_models(p),
                            ConfigView { providers: c.providers.push(p), ..c },
                            ActionView::ListModels(p),
                            None,
                        )
                    }
                },
            },
            _ => (s, c, ActionView::Wait, None),
        },
        SetupMessage::CustomCancel => (pick, c, ActionView::Wait, None),
        SetupMessage::ModelsLoaded(result) => match s {
            SetupView::PickModel { provider, .. } => match result {
                Ok(models) => if models@.len() > 0 {
                    (
                        SetupView::PickModel {
                            provider,
                            models: string_views(models@),
                            filter: seq![],
                            loading: false,
                        },
                        c,
                        ActionView::Wait,
                        None,
                    )
                } else {
                    (SetupView::ManualModel { provider, value: seq![], info: None }, c, ActionView::Wait, None)
                },
                Err(e) => (
                    SetupView::ManualModel {
                        provider,
                        value: seq![],
                        info: Some("Could not reach provider: "@ + e@),
                    },
                    c,
                    ActionView::Wait,
                    None,
                ),
            },
            _ => (s, c, ActionView::Wait, None),
        },
        SetupMessage::ModelFilterChanged(text) => match s {
            SetupView::PickModel { provider, models, loading, .. } => (
                SetupView::PickModel { provider, models, filter: text@, loading },
                c,
                ActionView::Wait,
                None,
            ),
            _ => (s, c, ActionView::Wait, None),
        },
        SetupMessage::ModelSelected(model) => match s {
            SetupView::PickModel { provider, .. } => (
                SetupView::ConfirmSave { provider, model: model@, save_default: true },
                c,
                ActionView::Wait,
                None,
            ),
            _ => (s, c, ActionView::Wait, None),
        },
        SetupMessage::ManualModelChanged(text) => match s {
            SetupView::ManualModel { provider, info, .. } => (
                SetupView::ManualModel { provider, value: text@, info },
                c,
                ActionView::Wait,
                None,
            ),
            _ => (s, c, ActionView::Wait, None),
        },
        SetupMessage::ManualModelSubmit => match s {
            SetupView::ManualModel { provider, value, .. } => if trim_spec(value).len() == 0 {
                (s, c, ActionView::Wait, None)
            } else {
                (
                    SetupView::ConfirmSave { provider, model: trim_spec(value), save_default: true },
                    c,
                    ActionView::Wait,
                    None,
                )
            },
            _ => (s, c, ActionView::Wait, None),
        },
        SetupMessage::BackToProviders => (pick, c, ActionView::Wait, None),
        SetupMessage::SaveDefaultToggled(v) => match s {
            SetupView::ConfirmSave { provider, model, .. } => (
                SetupView::ConfirmSave { provider, model, save_default: v },
                c,
                ActionView::Wait,
                None,
            ),
            _ => (s, c, ActionView::Wait, None),
        },
        SetupMessage::Finish => match s {
            SetupView::ConfirmSave { provider, model, save_default } => if save_default {
                (
                    s,
                    ConfigView { default_provider: provider.id, default_model: model, ..c },
                    ActionView::SaveConfig,
                    Some((provider, model)),
                )
            } else {
                (s, c, ActionView::Wait, Some((provider, model)))
            },
            _ => (s, c, ActionView::Wait, None),
        },
    }
}

/// The Ollama provider of the configuration, or the built-in one.
pub fn ollama_provider_config(config: &LocalCodeConfig) -> (p: ProviderConfig)
    ensures
        p@ == ollama_provider_spec(config@),
{
    let ghost f = |p: ProviderView| p.kind == ProviderType::Ollama;
    let mut k: usize = 0;
    while k < config.providers.len()
        invariant
            f == (|p: ProviderView| p.kind == ProviderType::Ollama),
            k <= config@.providers.len(),
            forall|m: int| 0 <= m < k ==> !f(#[trigger] config@.providers[m]),
        decreases config@.providers.len() - k,
    {
        if config.providers[k].kind == ProviderType::Ollama {
            proof {
                lemma_first_index_unique(config@.providers, f, k as int);
            }
            return config.providers[k].copy();
        }
        k += 1;
    }
    proof {
        lemma_first_index_unique(config@.providers, f, -1);
    }
    ProviderConfig {
        id: "ollama".to_owned(),
        kind: ProviderType::Ollama,
        base_url: "http://localhost:11434".to_owned(),
        api_key: None,
        label: Some("Ollama".to_owned()),
    }
}

/// The index of the first provider with the id `id`.
pub fn find_provider(config: &LocalCodeConfig, id: &str) -> (r: Option<usize>)
    ensures
        ({
            let k = first_index(config@.providers, |p: ProviderView| p.id == id@);
            match r {
                Some(i) => k >= 0 && i == k && i < config@.providers.len(),
                None => k < 0,
            }
        }),
{
    let ghost f = |p: ProviderView| p.id == id@;
    let mut k: usize = 0;
    while k < config.providers.len()
        invariant
            f == (|p: ProviderView| p.id == id@),
            k <= config@.providers.len(),
            forall|m: int| 0 <= m < k ==> !f(#[trigger] config@.providers[m]),
        decreases config@.providers.len() - k,
    {
        if str_eq(config.providers[k].id.as_str(), id) {
            proof {
                lemma_first_index_unique(config@.providers, f, k as int);
            }
            return Some(k);
        }
        k += 1;
    }
    proof {
        lemma_first_index_unique(config@.providers, f, -1);
    }
    None
}

/// Finishing the wizard: the chosen provider and model are the outcome;
/// with "save as default" set, the configuration's default provider becomes
/// the chosen provider's id and its default model the chosen model, the
/// rest staying, and the configuration is saved; without it, the
/// configuration is left as it was and nothing is saved.
pub proof fn lemma_finish_saves_choice(provider: ProviderView, model: Seq<char>, save_default: bool, c: ConfigView)
    ensures
        ({
            let n = setup_next(SetupView::ConfirmSave { provider, model, save_default }, SetupMessage::Finish, c);
            &&& n.3 == Some((provider, model))
            &&& save_default ==> n.1.default_provider == provider.id && n.1.default_model == model
                && n.1.providers == c.providers && n.1.auto_approve == c.auto_approve && n.2 == ActionView::SaveConfig
            &&& !save_default ==> n.1 == c && n.2 == ActionView::Wait
        }),
{
}

/// Whenever a step of the wizard finishes it and saves the configuration,
/// the saved defaults are the provider and model it finished with: the next
/// launch starts with that choice.
pub proof fn lemma_saved_defaults_are_the_choice(s: SetupView, m: SetupMessage, c: ConfigView)
    ensures
        ({
            let n = setup_next(s, m, c);
            n.2 == ActionView::SaveConfig ==> match n.3 {
                Some((p, model)) => n.1.default_provider == p.id && n.1.default_model == model,
                None => true,
            }
        }),
{
}

/// One step of the wizard (see `setup_next`): the state and the
/// configuration are updated, and the action for the caller and the outcome,
/// if the wizard is done, are returned.
pub fn update(state: &mut SetupState, message: SetupMessage, config: &mut LocalCodeConfig) -> (r: (
    SetupAction,
    Option<SetupOutcome>,
))
    ensures
        (final(state)@, final(config)@, r.0@, outcome_view(r.1)) == setup_next(old(state)@, message, old(config)@),
{
    let ghost s0 = state@;
    let ghost c0 = config@;
    let mut cur = SetupState::Probing;
    core::mem::swap(state, &mut cur);
    assert(cur@ == s0);
    match message {
        SetupMessage::ProbeDone(any) => {
            if any {
                *state = SetupState::PickProvider { info: None };
                (SetupAction::Wait, None)
            } else {
                *state = cur;
                let o = ollama_provider_config(config);
                (SetupAction::CheckOllamaReachable(o.base_url), None)
            }
        },
        SetupMessage::OllamaReachable(r) => {
            *state = cur;
            if r {
                (SetupAction::DetectHardware, None)
            } else {
                (SetupAction::CheckOllamaInstalled, None)
            }
        },
        SetupMessage::OllamaInstalled(i) => {
            if i {
                *state = cur;
                let o = ollama_provider_config(config);
                (SetupAction::StartOllama(o.base_url), None)
            } else {
                *state = SetupState::PickProvider {
                    info: Some(
                        "Ollama isn't installed. Install it from https://ollama.com/download, or set up a provider manually below.".to_owned(),
                    ),
                };
                (SetupAction::Wait, None)
            }
        },
        SetupMessage::OllamaServerReady(r) => {
            if r {
                *state = cur;
                (SetupAction::DetectHardware, None)
            } else {
                *state = SetupState::PickProvider {
                    info: Some(
                        "Couldn't reach Ollama after starting it. Try running `ollama serve` yourself.".to_owned(),
                    ),
                };
                (SetupAction::Wait, None)
            }
        },
        SetupMessage::HardwareDetected(hw) => {
            let rec = recommend_model(&hw);
            *state = SetupState::Bootstrap { hw, recommended: rec.recommended, alternatives: rec.alternatives };
            (SetupAction::Wait, None)
        },
        SetupMessage::ChooseModel(model) => {
            *state = SetupState::Downloading { model: model.clone(), log: Vec::new() };
            assert(string_views(Seq::<String>::empty()) =~= Seq::<Seq<char>>::empty());
            (SetupAction::PullModel(model), None)
        },
        SetupMessage::Skip => {
            *state = SetupState::PickProvider { info: None };
            (SetupAction::Wait, None)
        },
        SetupMessage::PullLine(line) => {
            match cur {
                SetupState::Downloading { model, log } => {
                    let mut log = log;
                    let ghost before = string_views(log@);
                    log.push(line);
                    assert(string_views(log@) =~= before.push(log@.last()@));
                    *state = SetupState::Downloading { model, log };
                },
                other => {
                    *state = other;
                },
            }
            (SetupAction::Wait, None)
        },
        SetupMessage::PullDone(ok) => {
            let model = match &cur {
                SetupState::Downloading { model, .. } => model.clone(),
                _ => String::new(),
            };
            if ok {
                *state = cur;
                let o = ollama_provider_config(config);
                match find_provider(config, o.id.as_str()) {
                    Some(_) => {},
                    None => {
                        config.providers.push(o.copy());
                        assert(provider_views(config.providers@) =~= c0.providers.push(o@));
                    },
                }
                config.default_provider = o.id.clone();
                config.default_model = model.clone();
                (SetupAction::SaveConfig, Some(SetupOutcome::Finished { provider: o, model }))
            } else {
                let mut info = concat3("Failed to pull ", model.as_str(), ". You can retry later with: ollama pull ");
                info.append(model.as_str());
                *state = SetupState::PickProvider { info: Some(info) };
                (SetupAction::Wait, None)
            }
        },
        SetupMessage::SelectProvider(p) => {
            *state = SetupState::PickModel { provider: p.copy(), models: Vec::new(), filter: String::new(), loading: true };
            assert(string_views(Seq::<String>::empty()) =~= Seq::<Seq<char>>::empty());
            (SetupAction::ListModels(p), None)
        },
        SetupMessage::AddCustomPressed => {
            *state = SetupState::AddCustomProvider(CustomProviderForm::default());
            (SetupAction::Wait, None)
        },
        SetupMessage::CustomKindChosen(kind) => {
            match cur {
                SetupState::AddCustomProvider(f) => {
                    let mut f = f;
                    f.kind = Some(kind);
                    if str_is_empty(f.base_url.as_str()) {
                        f.base_url = match kind {
                            ProviderType::Ollama => "http://localhost:11434".to_owned(),
                            ProviderType::OpenAiCompatible => "https://api.openai.com/v1".to_owned(),
                        };
                    }
                    *state = SetupState::AddCustomProvider(f);
                },
                other => {
                    *state = other;
                },
            }
            (SetupAction::Wait, None)
        },
        SetupMessage::CustomFieldChanged(field, value) => {
            match cur {
                SetupState::AddCustomProvider(f) => {
                    let mut f = f;
                    match field {
                        CustomProviderField::Id => f.id = value,
                        CustomProviderField::BaseUrl => f.base_url = value,
                        CustomProviderField::Label => f.label = value,
                        CustomProviderField::ApiKey => f.api_key = value,
                    }
                    *state = SetupState::AddCustomProvider(f);
                },
                other => {
                    *state = other;
                },
            }
            (SetupAction::Wait, None)
        },
        SetupMessage::CustomSubmit => {
            match cur {
                SetupState::AddCustomProvider(f) => {
                    let mut f = f;
                    match f.kind {
                        None => {
                            f.error = Some("Pick a provider type.".to_owned());
                            *state = SetupState::AddCustomProvider(f);
                            (SetupAction::Wait, None)
                        },
                        Some(kind) => {
                            let tid = trim(f.id.as_str());
                            let tb = trim(f.base_url.as_str());
                            if str_is_empty(tid.as_str()) || str_is_empty(tb.as_str()) {
                                f.error = Some("Id and base URL are required.".to_owned());
                                *state = SetupState::AddCustomProvider(f);
                                (SetupAction::Wait, None)
                            } else {
                                match find_provider(config, f.id.as_str()) {
                                    Some(k) => {
                                        let p = config.providers[k].copy();
                                        *state = SetupState::PickModel {
                                            provider: p.copy(),
                                            models: Vec::new(),
                                            filter: String::new(),
                                            loading: true,
                                        };
                                        assert(string_views(Seq::<String>::empty()) =~= Seq::<Seq<char>>::empty());
                                        (SetupAction::ListModels(p), None)
                                    },
                                    None => {
                                        let api_key = if str_is_empty(f.api_key.as_str()) {
                                            None
                                        } else {
                                            Some(f.api_key.clone())
                                        };
                                        let label = if str_is_empty(f.label.as_str()) {
                                            None
                                        } else {
                                            Some(f.label.clone())
                                        };
                                        let p = ProviderConfig { id: tid, kind, base_url: tb, api_key, label };
                                        assert(p@ == form_provider(f@, kind));
                                        config.providers.push(p.copy());
                                        assert(provider_views(config.providers@) =~= c0.providers.push(p@));
                                        *state = SetupState::PickModel {
                                            provider: p.copy(),
                                            models: Vec::new(),
                                            filter: String::new(),
                                            loading: true,
                                        };
                                        assert(string_views(Seq::<String>::empty()) =~= Seq::<Seq<char>>::empty());
                                        (SetupAction::ListModels(p), None)
                                    },
                                }
                            }
                        },
                    }
                },
                other => {
                    *state = other;
                    (SetupAction::Wait, None)
                },
            }
        },
        SetupMessage::CustomCancel => {
            *state = SetupState::PickProvider { info: None };
            (SetupAction::Wait, None)
        },
        SetupMessage::ModelsLoaded(result) => {
            match cur {
                SetupState::PickModel { provider, models: _, filter: _, loading: _ } => {
                    match result {
                        Ok(models) => {
                            if models.len() > 0 {
                                *state = SetupState::PickModel { provider, models, filter: String::new(), loading: false };
                            } else {
                                *state = SetupState::ManualModel { provider, value: String::new(), info: None };
                            }
                        },
                        Err(e) => {
                            *state = SetupState::ManualModel {
                                provider,
                                value: String::new(),
                                info: Some(concat2("Could not reach provider: ", e.as_str())),
                            };
                        },
                    }
                },
                other => {
                    *state = other;
                },
            }
            (SetupAction::Wait, None)
        },
        SetupMessage::ModelFilterChanged(text) => {
            match cur {
                SetupState::PickModel { provider, models, filter: _, loading } => {
                    *state = SetupState::PickModel { provider, models, filter: text, loading };
                },
                other => {
                    *state = other;
                },
            }
            (SetupAction::Wait, None)
        },
        SetupMessage::ModelSelected(model) => {
            match cur {
                SetupState::PickModel { provider, .. } => {
                    *state = SetupState::ConfirmSave { provider, model, save_default: true };
                },
                other => {
                    *state = other;
                },
            }
            (SetupAction::Wait, None)
        },
        SetupMessage::ManualModelChanged(text) => {
            match cur {
                SetupState::ManualModel { provider, value: _, info } => {
                    *state = SetupState::ManualModel { provider, value: text, info };
                },
                other => {
                    *state = other;
                },
            }
            (SetupAction::Wait, None)
        },
        SetupMessage::ManualModelSubmit => {
            match cur {
                SetupState::ManualModel { provider, value, info } => {
                    let t = trim(value.as_str());
                    if str_is_empty(t.as_str()) {
                        *state = SetupState::ManualModel { provider, value, info };
                    } else {
                        *state = SetupState::ConfirmSave { provider, model: t, save_default: true };
                    }
                },
                other => {
                    *state = other;
                },
            }
            (SetupAction::Wait, None)
        },
        SetupMessage::BackToProviders => {
            *state = SetupState::PickProvider { info: None };
            (SetupAction::Wait, None)
        },
        SetupMessage::SaveDefaultToggled(v) => {
            match cur {
                SetupState::ConfirmSave { provider, model, save_default: _ } => {
                    *state = SetupState::ConfirmSave { provider, model, save_default: v };
                },
                other => {
                    *state = other;
                },
            }
            (SetupAction::Wait, None)
        },
        SetupMessage::Finish => {
            match cur {
                SetupState::ConfirmSave { provider, model, save_default } => {
                    let out = SetupOutcome::Finished { provider: provider.copy(), model: model.clone() };
                    let action = if save_default {
                        config.default_provider = provider.id.clone();
                        config.default_model = model.clone();
                        SetupAction::SaveConfig
                    } else {
                        SetupAction::Wait
                    };
                    *state = SetupState::ConfirmSave { provider, model, save_default };
                    (action, Some(out))
                },
                other => {
                    *state = other;
                    (SetupAction::Wait, None)
                },
            }
        },
    }
}

/// The models shown for `filter`: all of them when there are few or the
/// filter is empty, else those whose lowercase name contains the lowercase
/// filter.
pub open spec fn shown_models(models: Seq<Seq<char>>, filter: Seq<char>) -> Seq<Seq<char>> {
    if models.len() <= MAX_UNFILTERED || filter.len() == 0 {
        models
    } else {
        models.filter(|m: Seq<char>| contains_text(lowercase(m), lowercase(filter)))
    }
}

/// `needle` occurs in `hay`.
pub open spec fn contains_text(hay: Seq<char>, needle: Seq<char>) -> bool {
    find_from(utf8(hay), utf8(needle), 0) is Some
}

/// The text that `str::to_lowercase` makes of `s` (by the Unicode tables
/// of the standard library).
pub uninterp spec fn lowercase(s: Seq<char>) -> Seq<char>;

/// Calls `str::to_lowercase`. The text is claimed to depend on `s` alone
/// (named `lowercase`).
#[verifier::external_body]
fn to_lowercase(s: &str) -> (r: String)
    ensures
        r@ == lowercase(s@),
{
    s.to_lowercase()
}

/// The models to show for the filter text.
pub fn filtered_models<'a>(models: &'a [String], filter: &str) -> (r: Vec<&'a str>)
    ensures
        r@.map_values(|m: &str| m@) == shown_models(string_views(models@), filter@),
{
    let ghost mv = string_views(models@);
    let mut r: Vec<&'a str> = Vec::new();
    if models.len() <= MAX_UNFILTERED || str_is_empty(filter) {
        let mut i: usize = 0;
        while i < models.len()
            invariant
                mv == string_views(models@),
                i <= models@.len(),
                r@.map_values(|m: &str| m@) == mv.take(i as int),
            decreases models@.len() - i,
        {
            r.push(models[i].as_str());
            assert(mv.take(i + 1) =~= mv.take(i as int).push(models@[i as int]@));
            assert(r@.map_values(|m: &str| m@) =~= mv.take(i + 1));
            i += 1;
        }
        assert(mv.take(models@.len() as int) =~= mv);
        return r;
    }
    let needle = to_lowercase(filter);
    let ghost p = |m: Seq<char>| contains_text(lowercase(m), lowercase(filter@));
    let mut i: usize = 0;
    assert(mv.take(0).filter(p) =~= Seq::<Seq<char>>::empty());
    while i < models.len()
        invariant
            mv == string_views(models@),
            p == (|m: Seq<char>| contains_text(lowercase(m), lowercase(filter@))),
            needle@ == lowercase(filter@),
            i <= models@.len(),
            r@.map_values(|m: &str| m@) == mv.take(i as int).filter(p),
        decreases models@.len() - i,
    {
        let lower = to_lowercase(models[i].as_str());
        let found = find_bytes(lower.as_str().as_bytes(), needle.as_str().as_bytes(), 0);
        proof {
            assert(mv.take(i + 1) =~= mv.take(i as int).push(mv[i as int]));
            mv.take(i as int).lemma_filter_push(mv[i as int], p);
        }
        if found.is_some() {
            r.push(models[i].as_str());
            assert(r@.map_values(|m: &str| m@) =~= mv.take(i as int).filter(p).push(mv[i as int]));
        }
        i += 1;
    }
    assert(mv.take(models@.len() as int) =~= mv);
    r
}

} // verus!
