//! Shared types used across providers, tools, and the agent loop.

use vstd::prelude::*;

verus! {

#[derive(Debug, Clone, Copy, PartialEq, Eq, Structural)]
pub enum Role {
    System,
    User,
    Assistant,
    Tool,
}

/// A tool invocation. `arguments` is the JSON text of the arguments object.
#[derive(Debug, Clone)]
pub struct ToolCall {
    pub id: String,
    pub name: String,
    pub arguments: String,
}

pub struct ToolCallView {
    pub id: Seq<char>,
    pub name: Seq<char>,
    pub arguments: Seq<char>,
}

impl View for ToolCall {
    type V = ToolCallView;

    open spec fn view(&self) -> ToolCallView {
        ToolCallView { id: self.id@, name: self.name@, arguments: self.arguments@ }
    }
}

pub open spec fn call_views(s: Seq<ToolCall>) -> Seq<ToolCallView> {
    s.map_values(|c: ToolCall| c@)
}

#[derive(Debug, Clone)]
pub struct Message {
    pub role: Role,
    pub content: String,
    /// Present on assistant messages that invoked tools natively.
    pub tool_calls: Option<Vec<ToolCall>>,
    /// Present on tool-result messages; links back to the ToolCall.id.
    pub tool_call_id: Option<String>,
    /// Present on tool-result messages for providers that key by name instead of id.
    pub tool_name: Option<String>,
}

pub struct MessageView {
    pub role: Role,
    pub content: Seq<char>,
    pub tool_calls: Option<Seq<ToolCallView>>,
    pub tool_call_id: Option<Seq<char>>,
    pub tool_name: Option<Seq<char>>,
}

impl View for Message {
    type V = MessageView;

    open spec fn view(&self) -> MessageView {
        MessageView {
            role: self.role,
            content: self.content@,
            tool_calls: match self.tool_calls {
                Some(v) => Some(call_views(v@)),
                None => None,
            },
            tool_call_id: opt_view(self.tool_call_id),
            tool_name: opt_view(self.tool_name),
        }
    }
}

pub open spec fn message_views(s: Seq<Message>) -> Seq<MessageView> {
    s.map_values(|m: Message| m@)
}

impl Message {
    pub fn system(content: String) -> (m: Self)
        ensures
            m.role == Role::System,
            m.content == content,
            m.tool_calls is None,
            m.tool_call_id is None,
            m.tool_name is None,
    {
        Message { role: Role::System, content, tool_calls: None, tool_call_id: None, tool_name: None }
    }

    pub fn user(content: String) -> (m: Self)
        ensures
            m.role == Role::User,
            m.content == content,
            m.tool_calls is None,
            m.tool_call_id is None,
            m.tool_name is None,
    {
        Message { role: Role::User, content, tool_calls: None, tool_call_id: None, tool_name: None }
    }

    pub fn assistant(content: String, tool_calls: Option<Vec<ToolCall>>) -> (m: Self)
        ensures
            m.role == Role::Assistant,
            m.content == content,
            m.tool_calls == tool_calls,
            m.tool_call_id is None,
            m.tool_name is None,
    {
        Message { role: Role::Assistant, content, tool_calls, tool_call_id: None, tool_name: None }
    }

    pub fn tool_result(content: String, tool_call_id: String, tool_name: String) -> (m: Self)
        ensures
            m.role == Role::Tool,
            m.content == content,
            m.tool_calls is None,
            m.tool_call_id == Some(tool_call_id),
            m.tool_name == Some(tool_name),
    {
        Message {
            role: Role::Tool,
            content,
            tool_calls: None,
            tool_call_id: Some(tool_call_id),
            tool_name: Some(tool_name),
        }
    }
}

/// JSON-schema-shaped tool parameter description, sent to providers verbatim.
/// `properties` is the JSON text of the properties object.
#[derive(Debug, Clone)]
pub struct ToolParameterSchema {
    pub kind: String,
    pub properties: String,
    pub required: Option<Vec<String>>,
}

#[derive(Debug, Clone)]
pub struct ToolDefinition {
    pub name: String,
    pub description: String,
    pub parameters: ToolParameterSchema,
    /// Whether this tool mutates the filesystem or runs commands, and therefore needs approval.
    pub mutating: bool,
}

/// What a chat request to a provider carries.
#[derive(Debug, Clone)]
pub struct ChatOptions {
    pub model: String,
    pub messages: Vec<Message>,
    pub tools: Vec<ToolDefinition>,
    /// Whether to also send the tools in the provider's own format; the
    /// tool calls written in the text work either way.
    pub use_native_tools: bool,
}

#[derive(Debug, Clone)]
pub struct ToolExecutionResult {
    pub output: String,
    pub is_error: bool,
}

#[derive(Debug, Clone)]
pub enum StreamEvent {
    Text(String),
    ToolCalls(Vec<ToolCall>),
    /// Full assistant text accumulated over the stream, plus any tool calls.
    Done { text: String, tool_calls: Vec<ToolCall> },
}

#[derive(Debug, Clone, Copy, PartialEq, Eq, Structural)]
pub enum ProviderType {
    Ollama,
    OpenAiCompatible,
}

#[derive(Debug, Clone)]
pub struct ProviderConfig {
    pub id: String,
    pub kind: ProviderType,
    pub base_url: String,
    pub api_key: Option<String>,
    pub label: Option<String>,
}

/// The characters of an optional string.
pub open spec fn opt_view(o: Option<String>) -> Option<Seq<char>> {
    match o {
        Some(s) => Some(s@),
        None => None,
    }
}

pub struct ProviderView {
    pub id: Seq<char>,
    pub kind: ProviderType,
    pub base_url: Seq<char>,
    pub api_key: Option<Seq<char>>,
    pub label: Option<Seq<char>>,
}

impl View for ProviderConfig {
    type V = ProviderView;

    open spec fn view(&self) -> ProviderView {
        ProviderView {
            id: self.id@,
            kind: self.kind,
            base_url: self.base_url@,
            api_key: opt_view(self.api_key),
            label: opt_view(self.label),
        }
    }
}

pub open spec fn provider_views(s: Seq<ProviderConfig>) -> Seq<ProviderView> {
    s.map_values(|p: ProviderConfig| p@)
}

/// A copy of an optional string.
pub fn copy_opt(o: &Option<String>) -> (r: Option<String>)
    ensures
        opt_view(r) == opt_view(*o),
{
    match o {
        Some(s) => Some(s.clone()),
        None => None,
    }
}

impl ProviderConfig {
    /// A copy of the entry.
    pub fn copy(&self) -> (r: Self)
        ensures
            r@ == self@,
    {
        ProviderConfig {
            id: self.id.clone(),
            kind: self.kind,
            base_url: self.base_url.clone(),
            api_key: copy_opt(&self.api_key),
            label: copy_opt(&self.label),
        }
    }

    /// The label, or the id where there is none.
    pub fn display_label(&self) -> (r: &str)
        ensures
            r@ == match self.label {
                Some(l) => l@,
                None => self.id@,
            },
    {
        match &self.label {
            Some(l) => l.as_str(),
            None => self.id.as_str(),
        }
    }
}

#[derive(Debug, Clone)]
pub struct LocalCodeConfig {
    pub providers: Vec<ProviderConfig>,
    pub default_provider: String,
    pub default_model: String,
    pub auto_approve: bool,
}

pub struct ConfigView {
    pub providers: Seq<ProviderView>,
    pub default_provider: Seq<char>,
    pub default_model: Seq<char>,
    pub auto_approve: bool,
}

impl View for LocalCodeConfig {
    type V = ConfigView;

    open spec fn view(&self) -> ConfigView {
        ConfigView {
            providers: provider_views(self.providers@),
            default_provider: self.default_provider@,
            default_model: self.default_model@,
            auto_approve: self.auto_approve,
        }
    }
}

/// A copy of the calls.
pub fn clone_calls(calls: &Vec<ToolCall>) -> (r: Vec<ToolCall>)
    ensures
        call_views(r@) == call_views(calls@),
{
    let mut r: Vec<ToolCall> = Vec::new();
    let mut i: usize = 0;
    while i < calls.len()
        invariant
            i <= calls@.len(),
            call_views(r@) == call_views(calls@).take(i as int),
        decreases calls@.len() - i,
    {
        let c = &calls[i];
        let ghost before = r@;
        let copy = ToolCall { id: c.id.clone(), name: c.name.clone(), arguments: c.arguments.clone() };
        assert(copy@ == c@);
        r.push(copy);
        proof {
            assert(call_views(r@) =~= call_views(before).push(copy@));
            assert(call_views(calls@).take(i + 1) =~= call_views(calls@).take(i as int).push(c@));
            assert(call_views(r@) =~= call_views(calls@).take(i + 1));
        }
        i += 1;
    }
    proof {
        assert(call_views(calls@).take(calls@.len() as int) =~= call_views(calls@));
    }
    r
}

impl Message {
    /// A copy of the message.
    pub fn copy(&self) -> (m: Message)
        ensures
            m@ == self@,
    {
        Message {
            role: self.role,
            content: self.content.clone(),
            tool_calls: match &self.tool_calls {
                Some(v) => Some(clone_calls(v)),
                None => None,
            },
            tool_call_id: copy_opt(&self.tool_call_id),
            tool_name: copy_opt(&self.tool_name),
        }
    }
}

/// A copy of the messages.
pub fn clone_messages(messages: &Vec<Message>) -> (r: Vec<Message>)
    ensures
        message_views(r@) == message_views(messages@),
{
    let mut r: Vec<Message> = Vec::new();
    let mut i: usize = 0;
    while i < messages.len()
        invariant
            i <= messages@.len(),
            message_views(r@) == message_views(messages@).take(i as int),
        decreases messages@.len() - i,
    {
        let ghost before = r@;
        let m = messages[i].copy();
        r.push(m);
        proof {
            assert(message_views(r@) =~= message_views(before).push(messages@[i as int]@));
            assert(message_views(messages@).take(i + 1) =~= message_views(messages@).take(i as int).push(
                messages@[i as int]@,
            ));
        }
        i += 1;
    }
    proof {
        assert(message_views(messages@).take(messages@.len() as int) =~= message_views(messages@));
    }
    r
}

impl LocalCodeConfig {
    /// A copy of the configuration.
    pub fn copy(&self) -> (c: LocalCodeConfig)
        ensures
            c@ == self@,
    {
        let mut providers: Vec<ProviderConfig> = Vec::new();
        let mut i: usize = 0;
        while i < self.providers.len()
            invariant
                i <= self.providers@.len(),
                provider_views(providers@) == provider_views(self.providers@).take(i as int),
            decreases self.providers@.len() - i,
        {
            let ghost before = providers@;
            providers.push(self.providers[i].copy());
            proof {
                assert(provider_views(providers@) =~= provider_views(before).push(self.providers@[i as int]@));
                assert(provider_views(self.providers@).take(i + 1) =~= provider_views(self.providers@).take(
                    i as int,
                ).push(self.providers@[i as int]@));
            }
            i += 1;
        }
        proof {
            assert(provider_views(self.providers@).take(self.providers@.len() as int) =~= provider_views(
                self.providers@,
            ));
        }
        LocalCodeConfig {
            providers,
            default_provider: self.default_provider.clone(),
            default_model: self.default_model.clone(),
            auto_approve: self.auto_approve,
        }
    }
}

} // verus!
