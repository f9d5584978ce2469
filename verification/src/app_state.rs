//! The chat transcript shown to the user: how it is rebuilt from a stored
//! conversation, and how each event of a running turn changes it. `R` is the
//! caller's handle for answering an approval request.

use vstd::prelude::*;
use crate::setup::{outcome_view, update as setup_update, ActionView, SetupAction, SetupMessage, SetupOutcome, SetupState, SetupView};
use crate::text::{concat2, concat3, first_index, path_file_name, lemma_first_index, lemma_first_index_unique, str_is_empty, trim, trim_spec};
use crate::types::{
    clone_messages, message_views, opt_view, provider_views, ConfigView, LocalCodeConfig, Message, MessageView,
    ProviderConfig, ProviderView, Role, ToolCall, ToolCallView,
};
use crate::workspace::{
    chat_with_id, now_millis, project_with_id, project_with_path, turn_finished, with_chat_model, with_user_message,
    ChatView, ProjectView, Workspace, WorkspaceView,
};
use vstd::string::{StrSliceExecFns, StringExecFns};

verus! {

/// One entry of the transcript.
pub enum TranscriptItem<R> {
    User(String),
    Assistant { text: String, thinking: String, thinking_expanded: bool, streaming: bool },
    Tool { name: String, args: String, output: Option<(String, bool)>, approval: Option<(String, R)> },
    Notice(String),
}

pub enum ItemView<R> {
    User(Seq<char>),
    Assistant { text: Seq<char>, thinking: Seq<char>, thinking_expanded: bool, streaming: bool },
    Tool {
        name: Seq<char>,
        args: Seq<char>,
        output: Option<(Seq<char>, bool)>,
        approval: Option<(Seq<char>, R)>,
    },
    Notice(Seq<char>),
}

impl<R> View for TranscriptItem<R> {
    type V = ItemView<R>;

    open spec fn view(&self) -> ItemView<R> {
        match self {
            TranscriptItem::User(t) => ItemView::User(t@),
            TranscriptItem::Assistant { text, thinking, thinking_expanded, streaming } => ItemView::Assistant {
                text: text@,
                thinking: thinking@,
                thinking_expanded: *thinking_expanded,
                streaming: *streaming,
            },
            TranscriptItem::Tool { name, args, output, approval } => ItemView::Tool {
                name: name@,
                args: args@,
                output: match output {
                    Some(o) => Some((o.0@, o.1)),
                    None => None,
                },
                approval: match approval {
                    Some(a) => Some((a.0@, a.1)),
                    None => None,
                },
            },
            TranscriptItem::Notice(t) => ItemView::Notice(t@),
        }
    }
}

pub open spec fn item_views<R>(s: Seq<TranscriptItem<R>>) -> Seq<ItemView<R>> {
    s.map_values(|i: TranscriptItem<R>| i@)
}

/// An event of a running turn, as the transcript sees it.
pub enum AppAgentEvent<R> {
    TextChunk(String),
    ThinkingChunk(String),
    ToolStart { name: String, args: String },
    NeedsApproval { preview: String, respond: R },
    ToolResult { output: String, is_error: bool },
    Notice(String),
    Done { messages: Vec<Message> },
}

/// A tool entry still waiting for its output.
pub open spec fn is_pending<R>(i: ItemView<R>) -> bool {
    i matches ItemView::Tool { output: None, .. }
}

/// The index of the last tool entry waiting for its output, or -1.
pub open spec fn last_pending<R>(items: Seq<ItemView<R>>) -> int
    decreases items.len(),
{
    if items.len() == 0 {
        -1
    } else if is_pending(items.last()) {
        items.len() - 1
    } else {
        last_pending(items.drop_last())
    }
}

proof fn lemma_last_pending<R>(items: Seq<ItemView<R>>)
    ensures
        -1 <= last_pending(items) < items.len(),
        last_pending(items) >= 0 ==> is_pending(items[last_pending(items)]),
        forall|m: int| last_pending(items) < m < items.len() ==> !is_pending(#[trigger] items[m]),
    decreases items.len(),
{
    if items.len() > 0 && !is_pending(items.last()) {
        lemma_last_pending(items.drop_last());
        assert forall|m: int| last_pending(items) < m < items.len() implies !is_pending(#[trigger] items[m]) by {
            if m < items.len() - 1 {
                assert(items[m] == items.drop_last()[m]);
            }
        }
    }
}

proof fn lemma_last_pending_unique<R>(items: Seq<ItemView<R>>, k: int)
    requires
        -1 <= k < items.len(),
        k >= 0 ==> is_pending(items[k]),
        forall|m: int| k < m < items.len() ==> !is_pending(#[trigger] items[m]),
    ensures
        last_pending(items) == k,
{
    lemma_last_pending(items);
    let r = last_pending(items);
    if r > k {
        assert(!is_pending(items[r]));
    } else if r < k {
        assert(!is_pending(items[k]));
    }
}

/// Streamed answer text: added to the last entry while it is a streaming
/// reply, else the start of a new reply.
pub open spec fn add_text<R>(items: Seq<ItemView<R>>, t: Seq<char>) -> Seq<ItemView<R>> {
    let fresh = ItemView::Assistant { text: t, thinking: seq![], thinking_expanded: false, streaming: true };
    if items.len() == 0 {
        items.push(fresh)
    } else {
        match items.last() {
            ItemView::Assistant { text, thinking, thinking_expanded, streaming } => if streaming {
                items.update(
                    items.len() - 1,
                    ItemView::Assistant { text: text + t, thinking, thinking_expanded, streaming: true },
                )
            } else {
                items.push(fresh)
            },
            _ => items.push(fresh),
        }
    }
}

/// Streamed thinking text, the same way.
pub open spec fn add_thinking<R>(items: Seq<ItemView<R>>, t: Seq<char>) -> Seq<ItemView<R>> {
    let fresh = ItemView::Assistant { text: seq![], thinking: t, thinking_expanded: false, streaming: true };
    if items.len() == 0 {
        items.push(fresh)
    } else {
        match items.last() {
            ItemView::Assistant { text, thinking, thinking_expanded, streaming } => if streaming {
                items.update(
                    items.len() - 1,
                    ItemView::Assistant { text, thinking: thinking + t, thinking_expanded, streaming: true },
                )
            } else {
                items.push(fresh)
            },
            _ => items.push(fresh),
        }
    }
}

/// A request for approval, attached to the last tool entry still waiting.
pub open spec fn attach_approval<R>(items: Seq<ItemView<R>>, preview: Seq<char>, respond: R) -> Seq<ItemView<R>> {
    let k = last_pending(items);
    if k >= 0 {
        match items[k] {
            ItemView::Tool { name, args, output, .. } => items.update(
                k,
                ItemView::Tool { name, args, output, approval: Some((preview, respond)) },
            ),
            _ => items,
        }
    } else {
        items
    }
}

/// A tool's output, given to the last tool entry still waiting, whose
/// approval request is then gone.
pub open spec fn attach_output<R>(items: Seq<ItemView<R>>, output: Seq<char>, is_error: bool) -> Seq<ItemView<R>> {
    let k = last_pending(items);
    if k >= 0 {
        match items[k] {
            ItemView::Tool { name, args, .. } => items.update(
                k,
                ItemView::Tool { name, args, output: Some((output, is_error)), approval: None },
            ),
            _ => items,
        }
    } else {
        items
    }
}

/// The end of a turn: the last entry, if a reply, stops streaming.
pub open spec fn end_streaming<R>(items: Seq<ItemView<R>>) -> Seq<ItemView<R>> {
    if items.len() == 0 {
        items
    } else {
        match items.last() {
            ItemView::Assistant { text, thinking, thinking_expanded, .. } => items.update(
                items.len() - 1,
                ItemView::Assistant { text, thinking, thinking_expanded, streaming: false },
            ),
            _ => items,
        }
    }
}

/// Takes the last item off, if there is one.
fn pop_item<R>(items: &mut Vec<TranscriptItem<R>>) -> (r: Option<TranscriptItem<R>>)
    ensures
        old(items)@.len() == 0 ==> r is None && final(items)@ == old(items)@,
        old(items)@.len() > 0 ==> r == Some(old(items)@.last()) && final(items)@ == old(items)@.drop_last(),
{
    items.pop()
}

/// The transcript `items` after the event `e` of a running turn.
pub open spec fn event_items<R>(items: Seq<ItemView<R>>, e: AppAgentEvent<R>) -> Seq<ItemView<R>> {
    match e {
        AppAgentEvent::TextChunk(t) => add_text(items, t@),
        AppAgentEvent::ThinkingChunk(t) => add_thinking(items, t@),
        AppAgentEvent::ToolStart { name, args } => items.push(
            ItemView::Tool { name: name@, args: args@, output: None, approval: None },
        ),
        AppAgentEvent::NeedsApproval { preview, respond } => attach_approval(items, preview@, respond),
        AppAgentEvent::ToolResult { output, is_error } => attach_output(items, output@, is_error),
        AppAgentEvent::Notice(n) => items.push(ItemView::Notice(n@)),
        AppAgentEvent::Done { .. } => end_streaming(items),
    }
}

/// Applies one event of a running turn to the transcript; the conversation
/// that a finished turn hands back is returned.
pub fn apply_agent_event<R>(items: &mut Vec<TranscriptItem<R>>, event: AppAgentEvent<R>) -> (done: Option<
    Vec<Message>,
>)
    ensures
        item_views(final(items)@) == event_items(item_views(old(items)@), event),
        match event {
            AppAgentEvent::Done { messages } => done == Some(messages),
            _ => done is None,
        },
{
    let ghost old_v = item_views(items@);
    match event {
        AppAgentEvent::TextChunk(t) => {
            match pop_item(items) {
                Some(TranscriptItem::Assistant { text, thinking, thinking_expanded, streaming }) => {
                    if streaming {
                        let mut text = text;
                        text.append(t.as_str());
                        items.push(TranscriptItem::Assistant { text, thinking, thinking_expanded, streaming });
                        assert(item_views(items@) =~= add_text(old_v, t@));
                    } else {
                        items.push(TranscriptItem::Assistant { text, thinking, thinking_expanded, streaming });
                        assert(item_views(items@) =~= old_v);
                        let ghost mid = items@;
                        items.push(
                            TranscriptItem::Assistant {
                                text: t,
                                thinking: String::new(),
                                thinking_expanded: false,
                                streaming: true,
                            },
                        );
                        assert(item_views(items@) =~= add_text(old_v, t@));
                    }
                },
                Some(other) => {
                    items.push(other);
                    assert(item_views(items@) =~= old_v);
                    items.push(
                        TranscriptItem::Assistant {
                            text: t,
                            thinking: String::new(),
                            thinking_expanded: false,
                            streaming: true,
                        },
                    );
                    assert(item_views(items@) =~= add_text(old_v, t@));
                },
                None => {
                    items.push(
                        TranscriptItem::Assistant {
                            text: t,
                            thinking: String::new(),
                            thinking_expanded: false,
                            streaming: true,
                        },
                    );
                    assert(item_views(items@) =~= add_text(old_v, t@));
                },
            }
            None
        },
        AppAgentEvent::ThinkingChunk(t) => {
            match pop_item(items) {
                Some(TranscriptItem::Assistant { text, thinking, thinking_expanded, streaming }) => {
                    if streaming {
                        let mut thinking = thinking;
                        thinking.append(t.as_str());
                        items.push(TranscriptItem::Assistant { text, thinking, thinking_expanded, streaming });
                        assert(item_views(items@) =~= add_thinking(old_v, t@));
                    } else {
                        items.push(TranscriptItem::Assistant { text, thinking, thinking_expanded, streaming });
                        assert(item_views(items@) =~= old_v);
                        items.push(
                            TranscriptItem::Assistant {
                                text: String::new(),
                                thinking: t,
                                thinking_expanded: false,
                                streaming: true,
                            },
                        );
                        assert(item_views(items@) =~= add_thinking(old_v, t@));
                    }
                },
                Some(other) => {
                    items.push(other);
                    assert(item_views(items@) =~= old_v);
                    items.push(
                        TranscriptItem::Assistant {
                            text: String::new(),
                            thinking: t,
                            thinking_expanded: false,
                            streaming: true,
                        },
                    );
                    assert(item_views(items@) =~= add_thinking(old_v, t@));
                },
                None => {
                    items.push(
                        TranscriptItem::Assistant {
                            text: String::new(),
                            thinking: t,
                            thinking_expanded: false,
                            streaming: true,
                        },
                    );
                    assert(item_views(items@) =~= add_thinking(old_v, t@));
                },
            }
            None
        },
        AppAgentEvent::ToolStart { name, args } => {
            items.push(TranscriptItem::Tool { name, args, output: None, approval: None });
            assert(item_views(items@) =~= old_v.push(
                ItemView::Tool { name: items@.last()->Tool_name@, args: items@.last()->Tool_args@, output: None, approval: None },
            ));
            None
        },
        AppAgentEvent::NeedsApproval { preview, respond } => {
            let ghost pv = preview@;
            let ghost rv = respond;
            match last_pending_index(items) {
                Some(k) => {
                    let item = items.remove(k);
                    match item {
                        TranscriptItem::Tool { name, args, output, approval: _ } => {
                            items.insert(k, TranscriptItem::Tool { name, args, output, approval: Some((preview, respond)) });
                            assert(item_views(items@) =~= attach_approval(old_v, pv, rv));
                        },
                        other => {
                            items.insert(k, other);
                            assert(item_views(items@) =~= old_v);
                        },
                    }
                },
                None => {},
            }
            None
        },
        AppAgentEvent::ToolResult { output, is_error } => {
            let ghost ov = output@;
            match last_pending_index(items) {
                Some(k) => {
                    let item = items.remove(k);
                    match item {
                        TranscriptItem::Tool { name, args, output: _, approval: _ } => {
                            items.insert(k, TranscriptItem::Tool { name, args, output: Some((output, is_error)), approval: None });
                            assert(item_views(items@) =~= attach_output(old_v, ov, is_error));
                        },
                        other => {
                            items.insert(k, other);
                            assert(item_views(items@) =~= old_v);
                        },
                    }
                },
                None => {},
            }
            None
        },
        AppAgentEvent::Notice(n) => {
            items.push(TranscriptItem::Notice(n));
            assert(item_views(items@) =~= old_v.push(ItemView::Notice(items@.last()->Notice_0@)));
            None
        },
        AppAgentEvent::Done { messages } => {
            match pop_item(items) {
                Some(TranscriptItem::Assistant { text, thinking, thinking_expanded, streaming: _ }) => {
                    items.push(TranscriptItem::Assistant { text, thinking, thinking_expanded, streaming: false });
                    assert(item_views(items@) =~= end_streaming(old_v));
                },
                Some(other) => {
                    items.push(other);
                    assert(item_views(items@) =~= end_streaming(old_v));
                },
                None => {
                    assert(item_views(items@) =~= end_streaming(old_v));
                },
            }
            Some(messages)
        },
    }
}

/// The index of the last tool entry still waiting for its output.
pub fn last_pending_index<R>(items: &Vec<TranscriptItem<R>>) -> (r: Option<usize>)
    ensures
        match r {
            Some(k) => k < items@.len() && last_pending(item_views(items@)) == k,
            None => last_pending(item_views(items@)) < 0,
        },
{
    let mut k = items.len();
    while k > 0
        invariant
            k <= items@.len(),
            forall|m: int| k <= m < items@.len() ==> !is_pending(#[trigger] item_views(items@)[m]),
        decreases k,
    {
        match &items[k - 1] {
            TranscriptItem::Tool { output: None, .. } => {
                proof {
                    lemma_last_pending_unique(item_views(items@), k - 1);
                }
                return Some(k - 1);
            },
            _ => {},
        }
        k -= 1;
    }
    proof {
        lemma_last_pending_unique(item_views(items@), -1);
    }
    None
}

/// The entries for tool calls recorded in a stored reply, without outputs.
pub open spec fn tool_items<R>(calls: Seq<ToolCallView>) -> Seq<ItemView<R>> {
    calls.map_values(|c: ToolCallView| ItemView::Tool { name: c.name, args: c.arguments, output: None, approval: None })
}

/// A stored tool result, given as output to the last tool entry still
/// waiting (as a success: failures are not stored).
pub open spec fn set_output<R>(items: Seq<ItemView<R>>, output: Seq<char>) -> Seq<ItemView<R>> {
    let k = last_pending(items);
    if k >= 0 {
        match items[k] {
            ItemView::Tool { name, args, approval, .. } => items.update(
                k,
                ItemView::Tool { name, args, output: Some((output, false)), approval },
            ),
            _ => items,
        }
    } else {
        items
    }
}

/// What one stored message adds to the transcript.
pub open spec fn replay_step<R>(items: Seq<ItemView<R>>, m: MessageView) -> Seq<ItemView<R>> {
    match m.role {
        Role::System => items,
        Role::User => items.push(ItemView::User(m.content)),
        Role::Assistant => {
            let with_tools = items + match m.tool_calls {
                Some(c) => tool_items(c),
                None => seq![],
            };
            if m.content.len() > 0 {
                with_tools.push(
                    ItemView::Assistant { text: m.content, thinking: seq![], thinking_expanded: false, streaming: false },
                )
            } else {
                with_tools
            }
        },
        Role::Tool => set_output(items, m.content),
    }
}

/// The transcript of a stored conversation.
pub open spec fn replay<R>(msgs: Seq<MessageView>) -> Seq<ItemView<R>>
    decreases msgs.len(),
{
    if msgs.len() == 0 {
        seq![]
    } else {
        replay_step(replay(msgs.drop_last()), msgs.last())
    }
}

/// Rebuilds the transcript from a chat's stored conversation.
pub fn transcript_from_core_messages<R>(messages: &Vec<Message>) -> (items: Vec<TranscriptItem<R>>)
    ensures
        item_views(items@) == replay::<R>(message_views(messages@)),
{
    let ghost mv = message_views(messages@);
    let mut items: Vec<TranscriptItem<R>> = Vec::new();
    let mut i: usize = 0;
    assert(mv.take(0) =~= Seq::<MessageView>::empty());
    assert(item_views(items@) =~= Seq::<ItemView<R>>::empty());
    while i < messages.len()
        invariant
            mv == message_views(messages@),
            i <= messages@.len(),
            item_views(items@) == replay::<R>(mv.take(i as int)),
        decreases messages@.len() - i,
    {
        let m = &messages[i];
        let ghost before = item_views(items@);
        proof {
            assert(mv.take(i + 1).drop_last() =~= mv.take(i as int));
            assert(mv.take(i + 1).last() == m@);
        }
        match m.role {
            Role::System => {
                assert(item_views(items@) == replay_step(before, m@));
            },
            Role::User => {
                items.push(TranscriptItem::User(m.content.clone()));
                assert(item_views(items@) =~= before.push(ItemView::User(m@.content)));
                assert(item_views(items@) == replay_step(before, m@));
            },
            Role::Assistant => {
                match &m.tool_calls {
                    Some(calls) => {
                        let mut c: usize = 0;
                        while c < calls.len()
                            invariant
                                c <= calls@.len(),
                                item_views(items@) == before + tool_items::<R>(
                                    crate::types::call_views(calls@).take(c as int),
                                ),
                            decreases calls@.len() - c,
                        {
                            let ghost mid = item_views(items@);
                            items.push(
                                TranscriptItem::Tool {
                                    name: calls[c].name.clone(),
                                    args: calls[c].arguments.clone(),
                                    output: None,
                                    approval: None,
                                },
                            );
                            assert(crate::types::call_views(calls@).take(c + 1) =~= crate::types::call_views(
                                calls@,
                            ).take(c as int).push(calls@[c as int]@));
                            let ghost cv = crate::types::call_views(calls@);
                            assert(tool_items::<R>(cv.take(c + 1)) =~= tool_items::<R>(cv.take(c as int)).push(
                                ItemView::Tool { name: cv[c as int].name, args: cv[c as int].arguments, output: None, approval: None },
                            ));
                            assert(item_views(items@) =~= mid.push(
                                ItemView::Tool { name: cv[c as int].name, args: cv[c as int].arguments, output: None, approval: None },
                            ));
                            assert(item_views(items@) =~= before + tool_items::<R>(cv.take(c + 1)));
                            c += 1;
                        }
                        assert(crate::types::call_views(calls@).take(calls@.len() as int) =~= crate::types::call_views(
                            calls@,
                        ));
                    },
                    None => {
                        assert(before + Seq::<ItemView<R>>::empty() =~= before);
                    },
                }
                let ghost with_tools = item_views(items@);
                if !crate::text::str_is_empty(m.content.as_str()) {
                    items.push(
                        TranscriptItem::Assistant {
                            text: m.content.clone(),
                            thinking: String::new(),
                            thinking_expanded: false,
                            streaming: false,
                        },
                    );
                    assert(item_views(items@) =~= with_tools.push(
                        ItemView::Assistant {
                            text: m@.content,
                            thinking: seq![],
                            thinking_expanded: false,
                            streaming: false,
                        },
                    ));
                }
                assert(item_views(items@) == replay_step(before, m@));
            },
            Role::Tool => {
                match last_pending_index(&items) {
                    Some(k) => {
                        let item = items.remove(k);
                        match item {
                            TranscriptItem::Tool { name, args, output: _, approval } => {
                                items.insert(
                                    k,
                                    TranscriptItem::Tool {
                                        name,
                                        args,
                                        output: Some((m.content.clone(), false)),
                                        approval,
                                    },
                                );
                                assert(item_views(items@) =~= set_output(before, m@.content));
                            },
                            other => {
                                items.insert(k, other);
                                assert(item_views(items@) =~= before);
                            },
                        }
                    },
                    None => {},
                }
                assert(item_views(items@) == replay_step(before, m@));
            },
        }
        assert(replay::<R>(mv.take(i + 1)) == replay_step(replay::<R>(mv.take(i as int)), m@));
        i += 1;
    }
    assert(mv.take(messages@.len() as int) =~= mv);
    items
}

/// The title a chat gets from its first user message (or "New chat"):
/// trimmed, and cut after 48 characters with an ellipsis.
pub open spec fn title_spec(msgs: Seq<MessageView>) -> Seq<char> {
    let k = first_index(msgs, |m: MessageView| m.role == Role::User);
    let text = if k >= 0 {
        msgs[k].content
    } else {
        "New chat"@
    };
    let t = trim_spec(text);
    if t.len() > 48 {
        t.take(48) + "\u{2026}"@
    } else if t.len() == 0 {
        "New chat"@
    } else {
        t
    }
}

/// The title for a chat with these messages.
pub fn derive_title(messages: &Vec<Message>) -> (r: String)
    ensures
        r@ == title_spec(message_views(messages@)),
{
    let ghost mv = message_views(messages@);
    let ghost f = |m: MessageView| m.role == Role::User;
    let mut k: usize = 0;
    while k < messages.len() && messages[k].role != Role::User
        invariant
            mv == message_views(messages@),
            f == (|m: MessageView| m.role == Role::User),
            k <= messages@.len(),
            forall|j: int| 0 <= j < k ==> !f(#[trigger] mv[j]),
        decreases messages@.len() - k,
    {
        k += 1;
    }
    let t = if k < messages.len() {
        proof {
            lemma_first_index_unique(mv, f, k as int);
        }
        trim(messages[k].content.as_str())
    } else {
        proof {
            lemma_first_index_unique(mv, f, -1);
        }
        trim("New chat")
    };
    let n = t.as_str().unicode_len();
    if n > 48 {
        let head = t.as_str().substring_char(0, 48);
        let mut r = String::from_str(head);
        r.append("\u{2026}");
        r
    } else if n == 0 {
        "New chat".to_owned()
    } else {
        t
    }
}

/// Which screen is shown.
pub enum Screen {
    Setup(SetupState),
    Workspace,
}

/// The application's state, apart from what only the user interface holds.
pub struct AppCore<R> {
    pub screen: Screen,
    pub config: LocalCodeConfig,
    pub workspace: Workspace,
    /// The provider the open chat talks to.
    pub provider: Option<ProviderConfig>,
    pub transcript: Vec<TranscriptItem<R>>,
    pub input: String,
    pub busy: bool,
    pub session_auto_approve: bool,
    pub show_help: bool,
    pub mid_session_setup: bool,
    pub last_picked: Option<(ProviderConfig, String)>,
    /// Ids made so far.
    pub id_count: u64,
}

/// What the user or a finished task reports.
pub enum AppMessage<R> {
    Setup(SetupMessage),
    ConfigLoaded(LocalCodeConfig),
    InputChanged(String),
    UseSuggestion(String),
    Submit,
    Agent(AppAgentEvent<R>),
    ApprovalChoice { approved: bool, remember: bool },
    ToggleThinking(usize),
    ToggleAutoApprove(bool),
    ClearConversation,
    OpenProviderPicker,
    ShowHelp(bool),
    AddProjectPressed,
    /// A folder was picked (its path), or none.
    ProjectPicked(Option<String>),
    SelectProject(String),
    NewChat,
    SelectChat(String),
}

/// What the caller is to do, in order.
pub enum AppAction<R> {
    /// Look for a provider that answers, with this configuration.
    ProbeProviders(LocalCodeConfig),
    /// A step of the setup wizard.
    Setup(SetupAction),
    SaveConfig,
    SaveWorkspace,
    /// Talk to this provider from now on (none: to no provider).
    UseProvider(Option<ProviderConfig>),
    /// Run a turn of the agent.
    StartTurn { provider: ProviderConfig, model: String, messages: Vec<Message>, cwd: String, auto_approve: bool },
    /// Ask the user for a folder to add as a project.
    PickFolder,
    /// Answer an approval request.
    Respond(R, bool),
    /// Build the system prompt for the project at `project_path` and give it
    /// to the chat with `Workspace::seed_chat`.
    SeedChat { chat_id: String, project_path: String },
}

/// The index of the last tool entry with an approval request, or -1.
pub open spec fn last_with_approval<R>(items: Seq<ItemView<R>>) -> int
    decreases items.len(),
{
    if items.len() == 0 {
        -1
    } else if items.last() matches ItemView::Tool { approval: Some(_), .. } {
        items.len() - 1
    } else {
        last_with_approval(items.drop_last())
    }
}

proof fn lemma_last_with_approval<R>(items: Seq<ItemView<R>>)
    ensures
        -1 <= last_with_approval(items) < items.len(),
        last_with_approval(items) >= 0 ==> items[last_with_approval(items)] matches ItemView::Tool {
            approval: Some(_),
            ..
        },
    decreases items.len(),
{
    if items.len() > 0 && !(items.last() matches ItemView::Tool { approval: Some(_), .. }) {
        lemma_last_with_approval(items.drop_last());
        if last_with_approval(items) >= 0 {
            assert(items[last_with_approval(items)] == items.drop_last()[last_with_approval(items)]);
        }
    }
}

proof fn lemma_last_with_approval_unique<R>(items: Seq<ItemView<R>>, k: int)
    requires
        -1 <= k < items.len(),
        k >= 0 ==> items[k] matches ItemView::Tool { approval: Some(_), .. },
        forall|m: int| k < m < items.len() ==> !(#[trigger] items[m] matches ItemView::Tool { approval: Some(_), .. }),
    ensures
        last_with_approval(items) == k,
    decreases items.len(),
{
    if items.len() > 0 && k < items.len() - 1 {
        assert(!(items[items.len() - 1] matches ItemView::Tool { approval: Some(_), .. }));
        assert forall|m: int| k < m < items.drop_last().len() implies !(#[trigger] items.drop_last()[m] matches ItemView::Tool {
            approval: Some(_),
            ..
        }) by {
            assert(items.drop_last()[m] == items[m]);
        }
        if k >= 0 {
            assert(items.drop_last()[k] == items[k]);
        }
        lemma_last_with_approval_unique(items.drop_last(), k);
    }
}

/// The provider with the id `id` (the first), if configured.
pub open spec fn provider_for(c: ConfigView, id: Seq<char>) -> Option<ProviderView> {
    let k = first_index(c.providers, |p: ProviderView| p.id == id);
    if k >= 0 {
        Some(c.providers[k])
    } else {
        None
    }
}

pub open spec fn opt_provider_view(o: Option<ProviderConfig>) -> Option<ProviderView> {
    match o {
        Some(p) => Some(p@),
        None => None,
    }
}

/// `new` has the chat `chat_id` of the workspace `ws` open, with the
/// configuration `cfg`: its project is active, its transcript is rebuilt
/// from its messages, its provider is looked up, and the input, the busy
/// mark and the session's approvals are reset.
pub open spec fn opened<R>(ws: WorkspaceView, cfg: ConfigView, new: AppCore<R>, chat_id: Seq<char>) -> bool {
    let k = chat_with_id(ws.chats, chat_id);
    let c = ws.chats[k];
    &&& 0 <= k < ws.chats.len()
    &&& new.workspace@.active_chat == Some(chat_id)
    &&& new.workspace@.chats == ws.chats
    &&& new.workspace@.projects == ws.projects
    &&& new.config@ == cfg
    &&& new.workspace@.active_project == Some(c.project_id)
    &&& item_views(new.transcript@) == replay::<R>(c.messages)
    &&& opt_provider_view(new.provider) == provider_for(cfg, c.provider_id)
    &&& !new.session_auto_approve
    &&& !new.busy
    &&& new.input@.len() == 0
}

/// `new` is `old` with the chat `chat_id` opened (see `opened`) when it
/// exists; otherwise only the open chat's id changes.
pub open spec fn activated<R>(old: AppCore<R>, new: AppCore<R>, chat_id: Seq<char>) -> bool {
    if chat_with_id(old.workspace@.chats, chat_id) >= 0 {
        opened(old.workspace@, old.config@, new, chat_id)
    } else {
        &&& new.workspace@.active_chat == Some(chat_id)
        &&& new.workspace@.chats == old.workspace@.chats
        &&& new.workspace@.projects == old.workspace@.projects
        &&& new.config@ == old.config@
        &&& new.workspace@.active_project == old.workspace@.active_project
        &&& item_views(new.transcript@) == item_views(old.transcript@)
        &&& opt_provider_view(new.provider) == opt_provider_view(old.provider)
        &&& new.session_auto_approve == old.session_auto_approve
        &&& new.busy == old.busy
        &&& new.input@ == old.input@
    }
}

/// Chat `i` is the most recently updated chat of the project `project_id`
/// (the first of those updated last).
pub open spec fn is_most_recent(chats: Seq<ChatView>, project_id: Seq<char>, i: int) -> bool {
    &&& 0 <= i < chats.len()
    &&& chats[i].project_id == project_id
    &&& forall|j: int|
        0 <= j < chats.len() && (#[trigger] chats[j]).project_id == project_id && j != i ==> crate::workspace::chat_before(
            chats,
            i,
            j,
        )
}

/// The workspace `ws` has a chat to open on entering it: the open chat, if
/// it exists, else a chat of the active project.
pub open spec fn opens_a_chat(ws: WorkspaceView) -> bool {
    ||| ws.active_chat matches Some(id) && chat_with_id(ws.chats, id) >= 0
    ||| ws.active_project matches Some(pid) && exists|j: int|
        0 <= j < ws.chats.len() && (#[trigger] ws.chats[j]).project_id == pid
}

/// `new` comes from `old` (whose workspace is `ws`) by entering the
/// workspace with the configuration `cfg`: the chat that was open is opened
/// again if it exists, else the most recent chat of the active project, if
/// it has any; otherwise nothing else changes.
pub open spec fn workspace_entered<R>(ws: WorkspaceView, cfg: ConfigView, old: AppCore<R>, new: AppCore<R>) -> bool {
    if ws.active_chat matches Some(id) && chat_with_id(ws.chats, id) >= 0 {
        opened(ws, cfg, new, ws.active_chat->0)
    } else if opens_a_chat(ws) {
        exists|i: int| is_most_recent(ws.chats, ws.active_project->0, i) && opened(ws, cfg, new, ws.chats[i].id)
    } else {
        &&& new.workspace@ == ws
        &&& new.config@ == cfg
        &&& item_views(new.transcript@) == item_views(old.transcript@)
        &&& opt_provider_view(new.provider) == opt_provider_view(old.provider)
        &&& new.session_auto_approve == old.session_auto_approve
        &&& new.busy == old.busy
        &&& new.input@ == old.input@
    }
}

impl<R> AppCore<R> {
    /// The state before the configuration is loaded: on the setup screen,
    /// with the workspace as read.
    pub fn new(workspace: Workspace) -> (s: Self)
        ensures
            s.screen matches Screen::Setup(SetupState::Probing),
            s.workspace@ == workspace@,
            s.transcript@.len() == 0,
            !s.busy,
            s.provider is None,
    {
        AppCore {
            screen: Screen::Setup(SetupState::Probing),
            config: LocalCodeConfig {
                providers: Vec::new(),
                default_provider: String::new(),
                default_model: String::new(),
                auto_approve: false,
            },
            workspace,
            provider: None,
            transcript: Vec::new(),
            input: String::new(),
            busy: false,
            session_auto_approve: false,
            show_help: false,
            mid_session_setup: false,
            last_picked: None,
            id_count: 0,
        }
    }

    /// The provider with the id `id` (the first), if configured.
    fn find_provider_config(&self, id: &str) -> (r: Option<ProviderConfig>)
        ensures
            opt_provider_view(r) == provider_for(self.config@, id@),
    {
        proof {
            lemma_first_index(self.config@.providers, |p: ProviderView| p.id == id@);
        }
        match crate::setup::find_provider(&self.config, id) {
            Some(k) => Some(self.config.providers[k].copy()),
            None => None,
        }
    }

    /// Opens the chat `chat_id`.
    fn activate_chat(&mut self, chat_id: &str, actions: &mut Vec<AppAction<R>>)
        ensures
            activated(*old(self), *final(self), chat_id@),
            final(self).screen == old(self).screen,
            final(self).mid_session_setup == old(self).mid_session_setup,
            final(self).id_count == old(self).id_count,
            final(self).last_picked == old(self).last_picked,
            action_views(final(actions)@) == action_views(old(actions)@) + if chat_with_id(
                old(self).workspace@.chats,
                chat_id@,
            ) >= 0 {
                seq![
                    AppActionView::<R>::UseProvider(opt_provider_view(final(self).provider)),
                    AppActionView::<R>::SaveWorkspace,
                ]
            } else {
                seq![]
            },
    {
        self.workspace.active_chat = Some(chat_id.to_owned());
        proof {
            lemma_first_index(self.workspace@.chats, |c: ChatView| c.id == chat_id@);
        }
        let ghost before = action_views(actions@);
        let i = match self.workspace.chat_index(chat_id) {
            Some(i) => i,
            None => {
                assert(before + seq![] =~= before);
                return;
            },
        };
        let project_id = self.workspace.chats[i].project_id.clone();
        let transcript = transcript_from_core_messages(&self.workspace.chats[i].messages);
        let provider = self.find_provider_config(self.workspace.chats[i].provider_id.as_str());
        self.workspace.active_project = Some(project_id);
        self.transcript = transcript;
        self.provider = match &provider {
            Some(p) => Some(p.copy()),
            None => None,
        };
        self.session_auto_approve = false;
        self.busy = false;
        self.input = String::new();
        actions.push(AppAction::UseProvider(provider));
        actions.push(AppAction::SaveWorkspace);
        assert(action_views(actions@) =~= before + seq![
            AppActionView::<R>::UseProvider(opt_provider_view(self.provider)),
            AppActionView::<R>::SaveWorkspace,
        ]);
    }
}

pub enum AppActionView<R> {
    ProbeProviders(ConfigView),
    Setup(ActionView),
    SaveConfig,
    SaveWorkspace,
    UseProvider(Option<ProviderView>),
    StartTurn { provider: ProviderView, model: Seq<char>, messages: Seq<MessageView>, cwd: Seq<char>, auto_approve: bool },
    PickFolder,
    Respond(R, bool),
    SeedChat { chat_id: Seq<char>, project_path: Seq<char> },
}

impl<R> View for AppAction<R> {
    type V = AppActionView<R>;

    open spec fn view(&self) -> AppActionView<R> {
        match self {
            AppAction::ProbeProviders(c) => AppActionView::ProbeProviders(c@),
            AppAction::Setup(a) => AppActionView::Setup(a@),
            AppAction::SaveConfig => AppActionView::SaveConfig,
            AppAction::SaveWorkspace => AppActionView::SaveWorkspace,
            AppAction::UseProvider(p) => AppActionView::UseProvider(opt_provider_view(*p)),
            AppAction::StartTurn { provider, model, messages, cwd, auto_approve } => AppActionView::StartTurn {
                provider: provider@,
                model: model@,
                messages: message_views(messages@),
                cwd: cwd@,
                auto_approve: *auto_approve,
            },
            AppAction::PickFolder => AppActionView::PickFolder,
            AppAction::Respond(r, a) => AppActionView::Respond(*r, *a),
            AppAction::SeedChat { chat_id, project_path } => AppActionView::SeedChat {
                chat_id: chat_id@,
                project_path: project_path@,
            },
        }
    }
}

pub open spec fn action_views<R>(s: Seq<AppAction<R>>) -> Seq<AppActionView<R>> {
    s.map_values(|a: AppAction<R>| a@)
}

/// The request for the system prompt of the chat `chat_id`: none when the
/// chat or its project is missing.
pub open spec fn seed_request<R>(ws: WorkspaceView, chat_id: Seq<char>) -> Seq<AppActionView<R>> {
    let k = chat_with_id(ws.chats, chat_id);
    let pk = if k >= 0 {
        project_with_id(ws.projects, ws.chats[k].project_id)
    } else {
        -1
    };
    if k >= 0 && pk >= 0 {
        seq![AppActionView::SeedChat { chat_id, project_path: ws.projects[pk].path }]
    } else {
        seq![]
    }
}

/// The provider id and model a new chat starts with: the last ones picked
/// in the setup, else the configured defaults.
pub open spec fn default_choice<R>(c: AppCore<R>) -> (Seq<char>, Seq<char>) {
    match c.last_picked {
        Some(lp) => (lp.0.id@, lp.1@),
        None => (c.config.default_provider@, c.config.default_model@),
    }
}

/// The id count after one more id is made (it starts over after the most).
pub open spec fn next_count(c: u64) -> u64 {
    if c == u64::MAX {
        0
    } else {
        (c + 1) as u64
    }
}

/// `new` comes from a state with the workspace `ws0`, the id count `count0`
/// and the configuration `cfg` by creating a chat in the project
/// `project_id` (the last chat, with the provider id and model `choice`, no
/// messages and no title, its id made from the next id count) and opening
/// it as `activated` says.
pub open spec fn chat_created<R>(
    ws0: WorkspaceView,
    count0: u64,
    choice: (Seq<char>, Seq<char>),
    cfg: ConfigView,
    new: AppCore<R>,
    project_id: Seq<char>,
) -> bool {
    let ws = new.workspace@;
    let c = ws.chats.last();
    let k = chat_with_id(ws.chats, c.id);
    &&& ws.chats == ws0.chats.push(c)
    &&& c.project_id == project_id
    &&& c.provider_id == choice.0
    &&& c.model == choice.1
    &&& c.title is None
    &&& c.messages.len() == 0
    &&& c.created_at == c.updated_at
    &&& new.id_count == next_count(count0)
    &&& exists|millis: u128| c.id == crate::id::id_spec("chat"@, millis as nat, new.id_count as nat)
    &&& ws.projects == ws0.projects
    &&& ws.active_chat == Some(c.id)
    &&& new.config@ == cfg
    &&& 0 <= k < ws.chats.len()
    &&& ws.active_project == Some(ws.chats[k].project_id)
    &&& item_views(new.transcript@) == replay::<R>(ws.chats[k].messages)
    &&& opt_provider_view(new.provider) == provider_for(cfg, ws.chats[k].provider_id)
    &&& !new.session_auto_approve
    &&& !new.busy
    &&& new.input@.len() == 0
}

/// What the caller is asked to do when a chat has been created and opened:
/// seed it, save, talk to its provider, save.
pub open spec fn created_actions<R>(new: AppCore<R>) -> Seq<AppActionView<R>> {
    let c = new.workspace@.chats.last();
    seed_request::<R>(new.workspace@, c.id) + seq![
        AppActionView::<R>::SaveWorkspace,
        AppActionView::<R>::UseProvider(opt_provider_view(new.provider)),
        AppActionView::<R>::SaveWorkspace,
    ]
}

impl<R> AppCore<R> {
    /// The window's title: the application's name, with the active
    /// project's name when there is one.
    pub fn title(&self) -> (r: String)
        ensures
            r@ == match self.workspace@.active_project {
                Some(id) if project_with_id(self.workspace@.projects, id) >= 0 => "Local Code \u{2014} "@
                    + self.workspace@.projects[project_with_id(self.workspace@.projects, id)].name,
                _ => "Local Code"@,
            },
    {
        match &self.workspace.active_project {
            Some(id) => match self.workspace.project(id.as_str()) {
                Some(p) => concat2("Local Code \u{2014} ", p.name.as_str()),
                None => "Local Code".to_owned(),
            },
            None => "Local Code".to_owned(),
        }
    }

    /// The provider and model a new chat starts with: the last ones picked
    /// in the setup, else the configured defaults.
    pub fn default_provider_and_model(&self) -> (r: (String, String))
        ensures
            match self.last_picked {
                Some(lp) => r.0@ == lp.0.id@ && r.1@ == lp.1@,
                None => r.0@ == self.config.default_provider@ && r.1@ == self.config.default_model@,
            },
    {
        match &self.last_picked {
            Some(lp) => (lp.0.id.clone(), lp.1.clone()),
            None => (self.config.default_provider.clone(), self.config.default_model.clone()),
        }
    }

    /// Asks for the system prompt of the chat `chat_id`, when the chat and
    /// its project exist.
    fn request_seed(&self, chat_id: &str, actions: &mut Vec<AppAction<R>>)
        ensures
            action_views(final(actions)@) == action_views(old(actions)@) + seed_request::<R>(
                self.workspace@,
                chat_id@,
            ),
    {
        proof {
            lemma_first_index(self.workspace@.chats, |c: ChatView| c.id == chat_id@);
        }
        let ghost before = action_views(actions@);
        match self.workspace.chat(chat_id) {
            Some(c) => {
                match self.workspace.project(c.project_id.as_str()) {
                    Some(p) => {
                        actions.push(AppAction::SeedChat { chat_id: chat_id.to_owned(), project_path: p.path.clone() });
                        assert(action_views(actions@) =~= before.push(actions@.last()@));
                    },
                    None => {},
                }
            },
            None => {},
        }
    }

    /// Creates a chat in the project and opens it.
    fn create_and_activate_chat(&mut self, project_id: &str, actions: &mut Vec<AppAction<R>>)
        ensures
            chat_created(
                old(self).workspace@,
                old(self).id_count,
                default_choice(*old(self)),
                old(self).config@,
                *final(self),
                project_id@,
            ),
            final(self).last_picked == old(self).last_picked,
            action_views(final(actions)@) == action_views(old(actions)@) + created_actions(*final(self)),
            final(self).screen == old(self).screen,
            final(self).mid_session_setup == old(self).mid_session_setup,
    {
        let (provider_id, model) = self.default_provider_and_model();
        let count = if self.id_count == u64::MAX {
            0
        } else {
            self.id_count + 1
        };
        self.id_count = count;
        let ghost before = action_views(actions@);
        let chat_id = self.workspace.add_chat(project_id, provider_id, model, count);
        self.request_seed(chat_id.as_str(), actions);
        let ghost seeded = action_views(actions@);
        actions.push(AppAction::SaveWorkspace);
        assert(action_views(actions@) =~= seeded.push(AppActionView::<R>::SaveWorkspace));
        proof {
            crate::text::lemma_first_index(self.workspace@.chats, |c: ChatView| c.id == chat_id@);
        }
        let ghost ws1 = self.workspace@;
        let ghost saved = action_views(actions@);
        self.activate_chat(chat_id.as_str(), actions);
        assert(self.workspace@.chats.last().id == chat_id@);
        assert(seed_request::<R>(ws1, chat_id@) == seed_request::<R>(self.workspace@, chat_id@));
        assert(action_views(actions@) =~= before + created_actions(*self));
    }
}

/// `new` is `old` with the folder at `path` added as a project (named after
/// its last component), or found among the projects by its path, and a chat
/// created in it and opened (see `chat_created`); a new project's id is
/// made from the next id count.
pub open spec fn project_picked<R>(old: AppCore<R>, new: AppCore<R>, path: Seq<char>) -> bool {
    let ws0 = old.workspace@;
    let k = project_with_path(ws0.projects, path);
    let count = next_count(old.id_count);
    let pid = if k >= 0 {
        ws0.projects[k].id
    } else {
        new.workspace@.projects.last().id
    };
    let ws1 = if k >= 0 {
        ws0
    } else {
        WorkspaceView {
            projects: ws0.projects.push(ProjectView { id: pid, name: path_file_name(path), path }),
            active_project: Some(pid),
            ..ws0
        }
    };
    &&& k < 0 ==> exists|millis: u128| pid == crate::id::id_spec("project"@, millis as nat, count as nat)
    &&& chat_created(ws1, count, default_choice(old), old.config@, new, pid)
}

impl<R> AppCore<R> {
    /// Adds the picked folder as a project (or finds it) and opens a new
    /// chat in it.
    fn open_picked_project(&mut self, path: String, actions: &mut Vec<AppAction<R>>)
        ensures
            project_picked(*old(self), *final(self), path@),
            action_views(final(actions)@) == action_views(old(actions)@).push(AppActionView::<R>::SaveWorkspace)
                + created_actions(*final(self)),
            final(self).screen == old(self).screen,
    {
        let count = if self.id_count == u64::MAX {
            0
        } else {
            self.id_count + 1
        };
        self.id_count = count;
        proof {
            lemma_first_index(self.workspace@.projects, |p: ProjectView| crate::workspace::same_path(p.path, path@));
        }
        let ghost ws0 = self.workspace@;
        let ghost k = project_with_path(ws0.projects, path@);
        let project_id = self.workspace.add_project(path, count);
        let ghost ws1 = self.workspace@;
        let ghost before = action_views(actions@);
        actions.push(AppAction::SaveWorkspace);
        assert(action_views(actions@) =~= before.push(AppActionView::<R>::SaveWorkspace));
        let ghost mid = *self;
        assert(default_choice(mid) == default_choice(*old(self)));
        self.create_and_activate_chat(project_id.as_str(), actions);
        proof {
            let pid = if k >= 0 {
                ws0.projects[k].id
            } else {
                self.workspace@.projects.last().id
            };
            let ws1s = if k >= 0 {
                ws0
            } else {
                WorkspaceView {
                    projects: ws0.projects.push(ProjectView { id: pid, name: path_file_name(path@), path: path@ }),
                    active_project: Some(pid),
                    ..ws0
                }
            };
            if k < 0 {
                assert(ws1.projects.last().id == project_id@);
                assert(self.workspace@.projects == ws1.projects);
            }
            assert(pid == project_id@);
            assert(ws1s == ws1);
            assert(chat_created(ws1s, count, default_choice(*old(self)), old(self).config@, *self, pid));
            assert(k < 0 ==> exists|millis: u128| pid == crate::id::id_spec("project"@, millis as nat, count as nat));
            assert(count == next_count(old(self).id_count));
            assert(ws0 == old(self).workspace@);
            assert(project_picked(*old(self), *self, path@));
        }
    }
}

impl<R> AppCore<R> {
    /// Makes the project `id` the active one and opens its most recent chat,
    /// or, when it has none, closes the open chat.
    fn select_project(&mut self, id: String, actions: &mut Vec<AppAction<R>>)
        requires
            old(actions)@.len() == 0,
        ensures
            final(self).screen == old(self).screen,
            ({
                let ws = old(self).workspace@;
                let chats = ws.chats;
                if exists|j: int| 0 <= j < chats.len() && (#[trigger] chats[j]).project_id == id@ {
                    &&& exists|i: int| is_most_recent(chats, id@, i) && opened(ws, old(self).config@, *final(self), chats[i].id)
                    &&& action_views(final(actions)@) == seq![
                        AppActionView::<R>::UseProvider(opt_provider_view(final(self).provider)),
                        AppActionView::<R>::SaveWorkspace,
                        AppActionView::<R>::SaveWorkspace,
                    ]
                } else {
                    &&& final(self).workspace@.active_project == Some(id@)
                    &&& final(self).workspace@.active_chat is None
                    &&& final(self).workspace@.chats == chats
                    &&& final(self).workspace@.projects == ws.projects
                    &&& final(self).transcript@.len() == 0
                    &&& final(self).provider is None
                    &&& action_views(final(actions)@) == seq![
                        AppActionView::<R>::UseProvider(None),
                        AppActionView::<R>::SaveWorkspace,
                    ]
                }
            }),
    {
        let ghost ws = self.workspace@;
        self.workspace.active_project = Some(id.clone());
        let recent = match self.workspace.most_recent_chat_for_project(id.as_str()) {
            Some(c) => Some(c.id.clone()),
            None => None,
        };
        match recent {
            Some(chat_id) => {
                let ghost i = choose|i: int|
                    {
                        &&& 0 <= i < ws.chats.len()
                        &&& (#[trigger] ws.chats[i]).project_id == id@
                        &&& chat_id@ == ws.chats[i].id
                        &&& forall|j: int|
                            0 <= j < ws.chats.len() && (#[trigger] ws.chats[j]).project_id == id@ && j != i
                                ==> crate::workspace::chat_before(ws.chats, i, j)
                    };
                proof {
                    lemma_first_index(ws.chats, |c: ChatView| c.id == chat_id@);
                    assert(is_most_recent(ws.chats, id@, i));
                }
                self.activate_chat(chat_id.as_str(), actions);
                assert(opened(ws, old(self).config@, *self, ws.chats[i].id));
            },
            None => {
                self.workspace.active_chat = None;
                self.transcript = Vec::new();
                self.provider = None;
                actions.push(AppAction::UseProvider(None));
            },
        }
        let ghost before = action_views(actions@);
        actions.push(AppAction::SaveWorkspace);
        assert(action_views(actions@) =~= before.push(AppActionView::<R>::SaveWorkspace));
    }
}

/// The notice for a chat whose provider is not configured.
pub open spec fn unknown_chat_provider(id: Seq<char>) -> Seq<char> {
    "Unknown provider \""@ + id + "\" for this chat."@
}

/// What starting a turn in the chat `chat_id` of `ws` comes to: nothing
/// when the chat or its project is missing; the id of the chat's provider
/// when that provider is not configured; else the request for the turn,
/// with the chat's model and messages and the project's folder.
pub open spec fn turn_outcome<R>(ws: WorkspaceView, c: ConfigView, chat_id: Seq<char>, auto_approve: bool) -> Option<
    Result<AppActionView<R>, Seq<char>>,
> {
    let k = chat_with_id(ws.chats, chat_id);
    let pk = if k >= 0 {
        project_with_id(ws.projects, ws.chats[k].project_id)
    } else {
        -1
    };
    if k < 0 || pk < 0 {
        None
    } else {
        let ch = ws.chats[k];
        match provider_for(c, ch.provider_id) {
            None => Some(Err(ch.provider_id)),
            Some(p) => Some(
                Ok(
                    AppActionView::StartTurn {
                        provider: p,
                        model: ch.model,
                        messages: ch.messages,
                        cwd: ws.projects[pk].path,
                        auto_approve,
                    },
                ),
            ),
        }
    }
}

impl<R> AppCore<R> {
    /// Shows the workspace and opens the chat that was open, or else the
    /// most recent chat of the open project.
    fn enter_workspace(&mut self, actions: &mut Vec<AppAction<R>>)
        ensures
            final(self).screen is Workspace,
            final(self).mid_session_setup == old(self).mid_session_setup,
            final(self).id_count == old(self).id_count,
            final(self).last_picked == old(self).last_picked,
            workspace_entered(old(self).workspace@, old(self).config@, *old(self), *final(self)),
            action_views(final(actions)@) == action_views(old(actions)@) + if opens_a_chat(old(self).workspace@) {
                seq![
                    AppActionView::<R>::UseProvider(opt_provider_view(final(self).provider)),
                    AppActionView::<R>::SaveWorkspace,
                ]
            } else {
                seq![]
            },
    {
        let ghost ws = self.workspace@;
        let ghost before = action_views(actions@);
        self.screen = Screen::Workspace;
        match &self.workspace.active_chat {
            Some(id) => {
                let chat_id = id.clone();
                proof {
                    lemma_first_index(self.workspace@.chats, |c: ChatView| c.id == chat_id@);
                }
                if self.workspace.chat(chat_id.as_str()).is_some() {
                    self.activate_chat(chat_id.as_str(), actions);
                    return;
                }
            },
            None => {},
        }
        match &self.workspace.active_project {
            Some(pid) => {
                let project_id = pid.clone();
                let recent = match self.workspace.most_recent_chat_for_project(project_id.as_str()) {
                    Some(c) => Some(c.id.clone()),
                    None => None,
                };
                match recent {
                    Some(chat_id) => {
                        let ghost i = choose|i: int|
                            {
                                &&& 0 <= i < ws.chats.len()
                                &&& (#[trigger] ws.chats[i]).project_id == project_id@
                                &&& chat_id@ == ws.chats[i].id
                                &&& forall|j: int|
                                    0 <= j < ws.chats.len() && (#[trigger] ws.chats[j]).project_id == project_id@
                                        && j != i ==> crate::workspace::chat_before(ws.chats, i, j)
                            };
                        proof {
                            lemma_first_index(ws.chats, |c: ChatView| c.id == chat_id@);
                            assert(is_most_recent(ws.chats, project_id@, i));
                        }
                        self.activate_chat(chat_id.as_str(), actions);
                        assert(opened(ws, old(self).config@, *self, ws.chats[i].id));
                    },
                    None => {
                        assert(before + seq![] =~= before);
                    },
                }
            },
            None => {
                assert(before + seq![] =~= before);
            },
        }
    }

    /// Starts a turn of the agent in the chat `chat_id`, if its project and
    /// its provider can be found (see `turn_outcome`); otherwise the turn
    /// does not start, with a notice when the provider is unknown.
    fn start_turn(&mut self, chat_id: &str, actions: &mut Vec<AppAction<R>>)
        ensures
            final(self).workspace@ == old(self).workspace@,
            final(self).config@ == old(self).config@,
            final(self).screen == old(self).screen,
            final(self).input@ == old(self).input@,
            match turn_outcome::<R>(
                old(self).workspace@,
                old(self).config@,
                chat_id@,
                old(self).config.auto_approve || old(self).session_auto_approve,
            ) {
                None => {
                    &&& !final(self).busy
                    &&& final(self).transcript@ == old(self).transcript@
                    &&& action_views(final(actions)@) == action_views(old(actions)@)
                },
                Some(Err(provider_id)) => {
                    &&& !final(self).busy
                    &&& item_views(final(self).transcript@) == item_views(old(self).transcript@).push(
                        ItemView::Notice(unknown_chat_provider(provider_id)),
                    )
                    &&& action_views(final(actions)@) == action_views(old(actions)@)
                },
                Some(Ok(start)) => {
                    &&& final(self).busy == old(self).busy
                    &&& final(self).transcript@ == old(self).transcript@
                    &&& action_views(final(actions)@) == action_views(old(actions)@).push(start)
                },
            },
    {
        proof {
            lemma_first_index(self.workspace@.chats, |c: ChatView| c.id == chat_id@);
        }
        let ghost before = action_views(actions@);
        let i = match self.workspace.chat_index(chat_id) {
            Some(i) => i,
            None => {
                self.busy = false;
                return;
            },
        };
        let ghost ws = self.workspace@;
        let cwd = match self.workspace.project(self.workspace.chats[i].project_id.as_str()) {
            Some(p) => p.path.clone(),
            None => {
                self.busy = false;
                return;
            },
        };
        let provider = self.find_provider_config(self.workspace.chats[i].provider_id.as_str());
        match provider {
            None => {
                self.busy = false;
                let notice = concat3(
                    "Unknown provider \"",
                    self.workspace.chats[i].provider_id.as_str(),
                    "\" for this chat.",
                );
                let ghost old_t = item_views(self.transcript@);
                self.transcript.push(TranscriptItem::Notice(notice));
                assert(item_views(self.transcript@) =~= old_t.push(
                    ItemView::Notice(unknown_chat_provider(ws.chats[i as int].provider_id)),
                ));
            },
            Some(p) => {
                let messages = clone_messages(&self.workspace.chats[i].messages);
                let auto_approve = self.config.auto_approve || self.session_auto_approve;
                actions.push(
                    AppAction::StartTurn {
                        provider: p,
                        model: self.workspace.chats[i].model.clone(),
                        messages,
                        cwd,
                        auto_approve,
                    },
                );
                assert(action_views(actions@) =~= before.push(actions@.last()@));
            },
        }
    }
}

/// The index of the last tool entry with an approval request.
pub fn last_approval_index<R>(items: &Vec<TranscriptItem<R>>) -> (r: Option<usize>)
    ensures
        match r {
            Some(k) => k < items@.len() && last_with_approval(item_views(items@)) == k,
            None => last_with_approval(item_views(items@)) < 0,
        },
{
    let mut k = items.len();
    while k > 0
        invariant
            k <= items@.len(),
            forall|m: int|
                k <= m < items@.len() ==> !(#[trigger] item_views(items@)[m] matches ItemView::Tool {
                    approval: Some(_),
                    ..
                }),
        decreases k,
    {
        match &items[k - 1] {
            TranscriptItem::Tool { approval: Some(_), .. } => {
                proof {
                    lemma_last_with_approval_unique(item_views(items@), k - 1);
                }
                return Some(k - 1);
            },
            _ => {},
        }
        k -= 1;
    }
    proof {
        lemma_last_with_approval_unique(item_views(items@), -1);
    }
    None
}

/// The screen is the setup wizard in the state `st`.
pub open spec fn in_setup<R>(c: AppCore<R>, st: SetupView) -> bool {
    c.screen matches Screen::Setup(s) && s@ == st
}

impl<R> AppCore<R> {
    /// Handles one message: the state is updated, and what the caller is to
    /// do is returned, in order.
    #[verifier::rlimit(40)]
    pub fn update(&mut self, message: AppMessage<R>) -> (actions: Vec<AppAction<R>>)
        ensures
            match message {
                AppMessage::Setup(m) => match old(self).screen {
                    Screen::Setup(st) => {
                        let next = crate::setup::setup_next(st@, m, old(self).config@);
                        &&& final(self).config@ == next.1
                        &&& action_views(actions@)[0] == AppActionView::<R>::Setup(next.2)
                        &&& match next.3 {
                            Some(out) => {
                                let ws = old(self).workspace@;
                                &&& final(self).screen is Workspace
                                &&& final(self).last_picked matches Some(lp) && lp.0@ == out.0 && lp.1@ == out.1
                                &&& !final(self).mid_session_setup
                                &&& if old(self).mid_session_setup {
                                    &&& final(self).workspace@ == match ws.active_chat {
                                        Some(id) => with_chat_model(ws, id, out.0.id, out.1),
                                        None => ws,
                                    }
                                    &&& opt_provider_view(final(self).provider) == Some(out.0)
                                    &&& action_views(actions@) == seq![AppActionView::<R>::Setup(next.2)] + (
                                    if ws.active_chat is Some {
                                        seq![AppActionView::<R>::SaveWorkspace]
                                    } else {
                                        seq![]
                                    }) + seq![AppActionView::<R>::UseProvider(Some(out.0))]
                                } else {
                                    &&& final(self).workspace@ == ws
                                    &&& action_views(actions@) == seq![AppActionView::<R>::Setup(next.2)]
                                }
                            },
                            None => {
                                &&& in_setup(*final(self), next.0)
                                &&& final(self).workspace@ == old(self).workspace@
                                &&& action_views(actions@) == seq![AppActionView::<R>::Setup(next.2)]
                            },
                        }
                    },
                    Screen::Workspace => actions@.len() == 0 && final(self).screen is Workspace,
                },
                AppMessage::ConfigLoaded(c) => {
                    &&& final(self).config@ == c@
                    &&& if c.default_model@.len() == 0 {
                        &&& *final(self) == AppCore {
                            screen: Screen::Setup(SetupState::Probing),
                            config: c,
                            mid_session_setup: false,
                            ..*old(self)
                        }
                        &&& action_views(actions@) == seq![AppActionView::<R>::ProbeProviders(c@)]
                    } else {
                        &&& final(self).screen is Workspace
                        &&& workspace_entered(old(self).workspace@, c@, *old(self), *final(self))
                        &&& action_views(actions@) == if opens_a_chat(old(self).workspace@) {
                            seq![
                                AppActionView::<R>::UseProvider(opt_provider_view(final(self).provider)),
                                AppActionView::<R>::SaveWorkspace,
                            ]
                        } else {
                            seq![]
                        }
                    }
                },
                AppMessage::InputChanged(t) => actions@.len() == 0 && *final(self) == AppCore { input: t, ..*old(self) },
                AppMessage::UseSuggestion(t) => actions@.len() == 0 && *final(self) == AppCore { input: t, ..*old(self) },
                AppMessage::Submit => if old(self).busy || trim_spec(old(self).input@).len() == 0
                    || old(self).workspace@.active_chat is None {
                    actions@.len() == 0 && *final(self) == *old(self)
                } else {
                    let id = old(self).workspace@.active_chat->0;
                    let ws = with_user_message(old(self).workspace@, id, old(self).input@);
                    let items = item_views(old(self).transcript@).push(ItemView::<R>::User(old(self).input@));
                    let saved = seq![AppActionView::<R>::SaveWorkspace];
                    &&& final(self).input@.len() == 0
                    &&& final(self).workspace@ == ws
                    &&& match turn_outcome::<R>(
                        ws,
                        old(self).config@,
                        id,
                        old(self).config.auto_approve || old(self).session_auto_approve,
                    ) {
                        None => !final(self).busy && item_views(final(self).transcript@) == items
                            && action_views(actions@) == saved,
                        Some(Err(provider_id)) => !final(self).busy && item_views(final(self).transcript@) == items.push(
                            ItemView::Notice(unknown_chat_provider(provider_id)),
                        ) && action_views(actions@) == saved,
                        Some(Ok(start)) => final(self).busy && item_views(final(self).transcript@) == items
                            && action_views(actions@) == saved.push(start),
                    }
                },
                AppMessage::Agent(e) => {
                    &&& item_views(final(self).transcript@) == event_items(item_views(old(self).transcript@), e)
                    &&& match e {
                        AppAgentEvent::Done { messages } => {
                            &&& *final(self) == AppCore {
                                busy: false,
                                transcript: final(self).transcript,
                                workspace: final(self).workspace,
                                ..*old(self)
                            }
                            &&& match old(self).workspace@.active_chat {
                                Some(id) => {
                                    &&& exists|now: i64|
                                        final(self).workspace@ == turn_finished(
                                            old(self).workspace@,
                                            id,
                                            message_views(messages@),
                                            now,
                                        )
                                    &&& action_views(actions@) == seq![AppActionView::<R>::SaveWorkspace]
                                },
                                None => final(self).workspace@ == old(self).workspace@ && actions@.len() == 0,
                            }
                        },
                        _ => actions@.len() == 0 && *final(self) == AppCore { transcript: final(self).transcript, ..*old(self) },
                    }
                },
                AppMessage::ApprovalChoice { approved, remember } => {
                    let k = last_with_approval(item_views(old(self).transcript@));
                    &&& final(self).session_auto_approve == (old(self).session_auto_approve || (approved && remember))
                    &&& *final(self) == AppCore {
                        transcript: final(self).transcript,
                        session_auto_approve: final(self).session_auto_approve,
                        ..*old(self)
                    }
                    &&& if k >= 0 {
                        &&& old(self).transcript@[k] matches TranscriptItem::Tool { approval: Some(a), .. }
                            && action_views(actions@) == seq![AppActionView::Respond(a.1, approved)]
                        &&& final(self).transcript@[k] matches TranscriptItem::Tool { approval: None, .. }
                    } else {
                        actions@.len() == 0
                    }
                },
                AppMessage::ToggleThinking(idx) => {
                    &&& actions@.len() == 0
                    &&& *final(self) == AppCore { transcript: final(self).transcript, ..*old(self) }
                    &&& final(self).transcript@.len() == old(self).transcript@.len()
                    &&& idx < old(self).transcript@.len() ==> match item_views(old(self).transcript@)[idx as int] {
                        ItemView::Assistant { text, thinking, thinking_expanded, streaming } => item_views(
                            final(self).transcript@,
                        ) == item_views(old(self).transcript@).update(
                            idx as int,
                            ItemView::Assistant { text, thinking, thinking_expanded: !thinking_expanded, streaming },
                        ),
                        _ => item_views(final(self).transcript@) == item_views(old(self).transcript@),
                    }
                },
                AppMessage::ToggleAutoApprove(v) => *final(self) == AppCore {
                    config: LocalCodeConfig { auto_approve: v, ..old(self).config },
                    ..*old(self)
                } && action_views(actions@) == seq![AppActionView::<R>::SaveConfig],
                AppMessage::ClearConversation => {
                    &&& final(self).transcript@.len() == 0
                    &&& *final(self) == AppCore { transcript: final(self).transcript, ..*old(self) }
                    &&& final(self).workspace@ == old(self).workspace@
                    &&& match old(self).workspace@.active_chat {
                        Some(id) => action_views(actions@) == seed_request::<R>(old(self).workspace@, id).push(
                            AppActionView::SaveWorkspace,
                        ),
                        None => actions@.len() == 0,
                    }
                },
                AppMessage::OpenProviderPicker => if old(self).workspace@.active_chat is None || old(self).busy {
                    actions@.len() == 0 && *final(self) == *old(self)
                } else {
                    &&& actions@.len() == 0
                    &&& *final(self) == AppCore {
                        screen: Screen::Setup(SetupState::PickProvider { info: None }),
                        mid_session_setup: true,
                        ..*old(self)
                    }
                },
                AppMessage::ShowHelp(v) => actions@.len() == 0 && *final(self) == AppCore { show_help: v, ..*old(self) },
                AppMessage::AddProjectPressed => if old(self).busy {
                    actions@.len() == 0 && *final(self) == *old(self)
                } else {
                    action_views(actions@) == seq![AppActionView::<R>::PickFolder] && *final(self) == *old(self)
                },
                AppMessage::ProjectPicked(picked) => match picked {
                    Some(path) => {
                        &&& project_picked(*old(self), *final(self), path@)
                        &&& action_views(actions@) == seq![AppActionView::<R>::SaveWorkspace] + created_actions(*final(self))
                    },
                    None => actions@.len() == 0 && *final(self) == *old(self),
                },
                AppMessage::SelectProject(id) => if old(self).busy {
                    actions@.len() == 0 && *final(self) == *old(self)
                } else {
                    let ws = old(self).workspace@;
                    let chats = ws.chats;
                    if exists|j: int| 0 <= j < chats.len() && (#[trigger] chats[j]).project_id == id@ {
                        &&& exists|i: int| is_most_recent(chats, id@, i) && opened(ws, old(self).config@, *final(self), chats[i].id)
                        &&& action_views(actions@) == seq![
                            AppActionView::<R>::UseProvider(opt_provider_view(final(self).provider)),
                            AppActionView::<R>::SaveWorkspace,
                            AppActionView::<R>::SaveWorkspace,
                        ]
                    } else {
                        &&& final(self).workspace@.active_project == Some(id@)
                        &&& final(self).workspace@.active_chat is None
                        &&& final(self).workspace@.chats == chats
                        &&& final(self).workspace@.projects == ws.projects
                        &&& final(self).transcript@.len() == 0
                        &&& final(self).provider is None
                        &&& action_views(actions@) == seq![
                            AppActionView::<R>::UseProvider(None),
                            AppActionView::<R>::SaveWorkspace,
                        ]
                    }
                },
                AppMessage::NewChat => if old(self).busy || old(self).workspace@.active_project is None {
                    actions@.len() == 0 && *final(self) == *old(self)
                } else {
                    &&& chat_created(
                        old(self).workspace@,
                        old(self).id_count,
                        default_choice(*old(self)),
                        old(self).config@,
                        *final(self),
                        old(self).workspace@.active_project->0,
                    )
                    &&& action_views(actions@) == created_actions(*final(self))
                },
                AppMessage::SelectChat(id) => if old(self).busy {
                    actions@.len() == 0 && *final(self) == *old(self)
                } else {
                    &&& activated(*old(self), *final(self), id@)
                    &&& action_views(actions@) == if chat_with_id(old(self).workspace@.chats, id@) >= 0 {
                        seq![
                            AppActionView::<R>::UseProvider(opt_provider_view(final(self).provider)),
                            AppActionView::<R>::SaveWorkspace,
                        ]
                    } else {
                        seq![]
                    }
                },
            },
    {
        let mut actions: Vec<AppAction<R>> = Vec::new();
        match message {
            AppMessage::ConfigLoaded(config) => {
                let probe = config.copy();
                self.config = config;
                if str_is_empty(self.config.default_model.as_str()) {
                    self.screen = Screen::Setup(SetupState::Probing);
                    self.mid_session_setup = false;
                    actions.push(AppAction::ProbeProviders(probe));
                    assert(action_views(actions@) =~= seq![actions@[0]@]);
                } else {
                    self.enter_workspace(&mut actions);
                }
            },
            AppMessage::Setup(m) => {
                let mut screen = Screen::Workspace;
                core::mem::swap(&mut screen, &mut self.screen);
                match screen {
                    Screen::Setup(st) => {
                        let mut st = st;
                        let ghost s0 = st@;
                        let ghost c0 = self.config@;
                        let (action, outcome) = setup_update(&mut st, m, &mut self.config);
                        let ghost next = crate::setup::setup_next(s0, m, c0);
                        assert(action@ == next.2);
                        actions.push(AppAction::Setup(action));
                        assert(action_views(actions@)[0] == AppActionView::<R>::Setup(next.2));
                        match outcome {
                            Some(SetupOutcome::Finished { provider, model }) => {
                                self.last_picked = Some((provider.copy(), model.clone()));
                                if self.mid_session_setup {
                                    self.mid_session_setup = false;
                                    match &self.workspace.active_chat {
                                        Some(id) => {
                                            let chat_id = id.clone();
                                            self.workspace.set_chat_model(chat_id.as_str(), provider.id.clone(), model);
                                            actions.push(AppAction::SaveWorkspace);
                                        },
                                        None => {},
                                    }
                                    self.provider = Some(provider.copy());
                                    actions.push(AppAction::UseProvider(Some(provider)));
                                }
                                self.screen = Screen::Workspace;
                            },
                            None => {
                                self.screen = Screen::Setup(st);
                            },
                        }
                    },
                    Screen::Workspace => {
                        self.screen = Screen::Workspace;
                    },
                }
            },
            AppMessage::InputChanged(text) => {
                self.input = text;
            },
            AppMessage::UseSuggestion(text) => {
                self.input = text;
            },
            AppMessage::Submit => {
                let t = trim(self.input.as_str());
                if self.busy || str_is_empty(t.as_str()) {
                    return actions;
                }
                let chat_id = match &self.workspace.active_chat {
                    Some(id) => id.clone(),
                    None => {
                        return actions;
                    },
                };
                let mut text = String::new();
                core::mem::swap(&mut text, &mut self.input);
                let ghost old_t = item_views(self.transcript@);
                self.transcript.push(TranscriptItem::User(text.clone()));
                assert(item_views(self.transcript@) =~= old_t.push(ItemView::<R>::User(text@)));
                self.workspace.add_user_message(chat_id.as_str(), text);
                actions.push(AppAction::SaveWorkspace);
                assert(action_views(actions@) =~= seq![AppActionView::<R>::SaveWorkspace]);
                self.busy = true;
                self.start_turn(chat_id.as_str(), &mut actions);
            },
            AppMessage::Agent(event) => {
                let done = apply_agent_event(&mut self.transcript, event);
                match done {
                    Some(messages) => {
                        self.busy = false;
                        match &self.workspace.active_chat {
                            Some(id) => {
                                let chat_id = id.clone();
                                let now = now_millis();
                                proof {
                                    lemma_first_index(self.workspace@.chats, |c: ChatView| c.id == chat_id@);
                                }
                                self.workspace.finish_turn(chat_id.as_str(), messages, now);
                                actions.push(AppAction::SaveWorkspace);
                                assert(action_views(actions@) =~= seq![AppActionView::<R>::SaveWorkspace]);
                            },
                            None => {},
                        }
                    },
                    None => {},
                }
            },
            AppMessage::ApprovalChoice { approved, remember } => {
                if remember && approved {
                    self.session_auto_approve = true;
                }
                let found = last_approval_index(&self.transcript);
                if let Some(i) = found {
                    assert(self.transcript@ == old(self).transcript@);
                    let item = self.transcript.remove(i);
                    assert(item == old(self).transcript@[i as int]);
                    match item {
                        TranscriptItem::Tool { name, args, output, approval } => {
                            match approval {
                                Some((_, responder)) => {
                                    actions.push(AppAction::Respond(responder, approved));
                                    assert(action_views(actions@) =~= seq![actions@[0]@]);
                                    assert(old(self).transcript@[i as int] matches TranscriptItem::Tool { approval: Some(a), .. }
                                        && action_views(actions@) == seq![AppActionView::Respond(a.1, approved)]);
                                },
                                None => {
                                    proof {
                                        lemma_last_with_approval(item_views(old(self).transcript@));
                                    }
                                    assert(item_views(old(self).transcript@)[i as int] matches ItemView::Tool {
                                        approval: Some(_),
                                        ..
                                    });
                                    assert(false);
                                },
                            }
                            self.transcript.insert(i, TranscriptItem::Tool { name, args, output, approval: None });
                            assert(last_with_approval(item_views(old(self).transcript@)) == i);
                        },
                        other => {
                            proof {
                                lemma_last_with_approval(item_views(old(self).transcript@));
                            }
                            assert(false);
                            self.transcript.insert(i, other);
                        },
                    }
                }
            },
            AppMessage::ToggleThinking(idx) => {
                if idx < self.transcript.len() {
                    let item = self.transcript.remove(idx);
                    match item {
                        TranscriptItem::Assistant { text, thinking, thinking_expanded, streaming } => {
                            self.transcript.insert(
                                idx,
                                TranscriptItem::Assistant { text, thinking, thinking_expanded: !thinking_expanded, streaming },
                            );
                        },
                        other => {
                            self.transcript.insert(idx, other);
                        },
                    }
                }
            },
            AppMessage::ToggleAutoApprove(v) => {
                self.config.auto_approve = v;
                actions.push(AppAction::SaveConfig);
                assert(action_views(actions@) =~= seq![AppActionView::<R>::SaveConfig]);
            },
            AppMessage::ClearConversation => {
                match &self.workspace.active_chat {
                    Some(id) => {
                        let chat_id = id.clone();
                        self.request_seed(chat_id.as_str(), &mut actions);
                        actions.push(AppAction::SaveWorkspace);
                    },
                    None => {},
                }
                self.transcript = Vec::new();
            },
            AppMessage::OpenProviderPicker => {
                if self.workspace.active_chat.is_none() || self.busy {
                    return actions;
                }
                self.screen = Screen::Setup(SetupState::PickProvider { info: None });
                self.mid_session_setup = true;
            },
            AppMessage::ShowHelp(v) => {
                self.show_help = v;
            },
            AppMessage::AddProjectPressed => {
                if self.busy {
                    return actions;
                }
                actions.push(AppAction::PickFolder);
                assert(action_views(actions@) =~= seq![AppActionView::<R>::PickFolder]);
            },
            AppMessage::ProjectPicked(picked) => {
                match picked {
                    Some(path) => {
                        self.open_picked_project(path, &mut actions);
                        assert(action_views(actions@) =~= seq![AppActionView::<R>::SaveWorkspace] + created_actions(*self));
                    },
                    None => {},
                }
            },
            AppMessage::SelectProject(id) => {
                if self.busy {
                    return actions;
                }
                self.select_project(id, &mut actions);
            },
            AppMessage::NewChat => {
                if self.busy {
                    return actions;
                }
                let project_id = match &self.workspace.active_project {
                    Some(p) => p.clone(),
                    None => {
                        return actions;
                    },
                };
                self.create_and_activate_chat(project_id.as_str(), &mut actions);
            },
            AppMessage::SelectChat(id) => {
                if self.busy {
                    return actions;
                }
                self.activate_chat(id.as_str(), &mut actions);
            },
        }
        actions
    }
}

} // verus!
