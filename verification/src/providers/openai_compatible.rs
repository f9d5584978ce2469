//! OpenAI-compatible chat servers: their provider settings, the lines of a
//! server-sent-event stream, and how the deltas of a streamed reply are put
//! together into text and tool calls.

use vstd::prelude::*;
use crate::id::{signed_decimal, signed_decimal_spec};
use crate::json::{json_as_object, object_text};
use crate::text::{
    concat2, first_index, lemma_first_index_unique, str_eq, str_is_empty, trim, trim_end_slashes, trim_spec,
    trim_trailing_slashes,
};
use crate::types::{
    call_views, clone_calls, copy_opt, opt_view, Message, MessageView, ProviderConfig, Role,
    StreamEvent, ToolCall, ToolCallView,
};
use vstd::string::{StrSliceExecFns, StringExecFns};

verus! {

/// A provider that talks to an OpenAI-compatible server.
pub struct OpenAiCompatibleProvider {
    id: String,
    label: String,
    base_url: String,
    api_key: Option<String>,
    client: reqwest::Client,
}

impl OpenAiCompatibleProvider {
    pub closed spec fn id_view(&self) -> Seq<char> {
        self.id@
    }

    pub closed spec fn label_view(&self) -> Seq<char> {
        self.label@
    }

    pub closed spec fn base_url_view(&self) -> Seq<char> {
        self.base_url@
    }

    /// The HTTP client the provider sends its requests with.
    pub closed spec fn client_view(&self) -> reqwest::Client {
        self.client
    }

    pub closed spec fn api_key_view(&self) -> Option<Seq<char>> {
        opt_view(self.api_key)
    }

    /// The provider for `config`, sending its requests with `client`: its
    /// label defaults to "OpenAI-compatible", and its base URL loses any `/`
    /// at the end.
    pub fn new(config: &ProviderConfig, client: reqwest::Client) -> (p: Self)
        ensures
            p.id_view() == config.id@,
            p.label_view() == match config.label {
                Some(l) => l@,
                None => "OpenAI-compatible"@,
            },
            p.base_url_view() == trim_end_slashes(config.base_url@),
            p.api_key_view() == opt_view(config.api_key),
            p.client_view() == client,
    {
        OpenAiCompatibleProvider {
            id: config.id.clone(),
            label: match &config.label {
                Some(l) => l.clone(),
                None => "OpenAI-compatible".to_owned(),
            },
            base_url: trim_trailing_slashes(config.base_url.as_str()),
            api_key: copy_opt(&config.api_key),
            client,
        }
    }

    pub fn id(&self) -> (r: &str)
        ensures
            r@ == self.id_view(),
    {
        self.id.as_str()
    }

    pub fn label(&self) -> (r: &str)
        ensures
            r@ == self.label_view(),
    {
        self.label.as_str()
    }

    pub fn base_url(&self) -> (r: &str)
        ensures
            r@ == self.base_url_view(),
    {
        self.base_url.as_str()
    }

    pub fn api_key(&self) -> (r: Option<&str>)
        ensures
            match r {
                Some(k) => self.api_key_view() == Some(k@),
                None => self.api_key_view() is None,
            },
    {
        match &self.api_key {
            Some(k) => Some(k.as_str()),
            None => None,
        }
    }

    /// The HTTP client the provider was made with.
    pub fn client(&self) -> (r: &reqwest::Client)
        ensures
            *r == self.client_view(),
    {
        &self.client
    }
}

/// What a line of the event stream is.
pub enum SseLine {
    /// Not a data line.
    Skip,
    /// The end of the stream.
    Done,
    /// The data of an event.
    Payload(String),
}

/// What a line of the event stream says: a line that starts with `data:`
/// carries the rest, trimmed; `[DONE]` ends the stream.
pub open spec fn sse_line_spec(line: Seq<char>) -> Option<Seq<char>> {
    if line.len() >= 5 && line.take(5) == "data:"@ {
        Some(trim_spec(line.skip(5)))
    } else {
        None
    }
}

/// Reads one line of the event stream.
pub fn sse_line(line: &str) -> (r: SseLine)
    ensures
        match sse_line_spec(line@) {
            None => r is Skip,
            Some(p) => if p == "[DONE]"@ {
                r is Done
            } else {
                r matches SseLine::Payload(q) && q@ == p
            },
        },
{
    let n = line.unicode_len();
    if n < 5 {
        return SseLine::Skip;
    }
    let head = line.substring_char(0, 5);
    if !str_eq(head, "data:") {
        return SseLine::Skip;
    }
    let rest = line.substring_char(5, n);
    assert(rest@ =~= line@.skip(5));
    let payload = trim(rest);
    if str_eq(payload.as_str(), "[DONE]") {
        SseLine::Done
    } else {
        SseLine::Payload(payload)
    }
}

/// A piece of a tool call in a delta: the call's position, and the pieces
/// of its id, function name and arguments that this delta carries.
pub struct DeltaToolCall {
    pub index: i64,
    pub id: Option<String>,
    pub name: Option<String>,
    pub arguments: Option<String>,
}

/// The delta of the first choice of an event: new text and tool-call pieces.
pub struct OpenAiDelta {
    pub content: Option<String>,
    pub tool_calls: Option<Vec<DeltaToolCall>>,
}

/// A tool call being put together.
pub struct ToolBuffer {
    pub index: i64,
    pub id: String,
    pub name: String,
    pub args: String,
}

pub struct BufferView {
    pub index: i64,
    pub id: Seq<char>,
    pub name: Seq<char>,
    pub args: Seq<char>,
}

impl View for ToolBuffer {
    type V = BufferView;

    open spec fn view(&self) -> BufferView {
        BufferView { index: self.index, id: self.id@, name: self.name@, args: self.args@ }
    }
}

pub open spec fn buffer_views(s: Seq<ToolBuffer>) -> Seq<BufferView> {
    s.map_values(|b: ToolBuffer| b@)
}

pub open spec fn opt_text(o: Option<String>) -> Seq<char> {
    match o {
        Some(s) => s@,
        None => seq![],
    }
}

/// The buffers after one tool-call piece: a call seen first gets a buffer
/// (with the id it brings, else `call_{index}`); then its id is replaced by
/// the one the piece brings, and its name and arguments are extended.
pub open spec fn apply_piece(bufs: Seq<BufferView>, tc: DeltaToolCall) -> Seq<BufferView> {
    let k = first_index(bufs, |b: BufferView| b.index == tc.index);
    let fresh = BufferView {
        index: tc.index,
        id: match tc.id {
            Some(i) => i@,
            None => "call_"@ + signed_decimal_spec(tc.index as int),
        },
        name: seq![],
        args: seq![],
    };
    let bs = if k >= 0 {
        bufs
    } else {
        bufs.push(fresh)
    };
    let i = if k >= 0 {
        k
    } else {
        bufs.len() as int
    };
    let b = bs[i];
    bs.update(
        i,
        BufferView {
            index: b.index,
            id: match tc.id {
                Some(x) => x@,
                None => b.id,
            },
            name: b.name + opt_text(tc.name),
            args: b.args + opt_text(tc.arguments),
        },
    )
}

/// The buffers after all the pieces of a delta, in order.
pub open spec fn apply_pieces(bufs: Seq<BufferView>, tcs: Seq<DeltaToolCall>) -> Seq<BufferView>
    decreases tcs.len(),
{
    if tcs.len() == 0 {
        bufs
    } else {
        apply_piece(apply_pieces(bufs, tcs.drop_last()), tcs.last())
    }
}

/// Tool-call pieces give the same calls however the server groups them
/// into events: applying them event by event is applying them all at once.
pub proof fn lemma_pieces_chunking(bufs: Seq<BufferView>, x: Seq<DeltaToolCall>, y: Seq<DeltaToolCall>)
    ensures
        apply_pieces(apply_pieces(bufs, x), y) == apply_pieces(bufs, x + y),
    decreases y.len(),
{
    if y.len() == 0 {
        assert(x + y =~= x);
    } else {
        lemma_pieces_chunking(bufs, x, y.drop_last());
        assert((x + y).drop_last() =~= x + y.drop_last());
        assert((x + y).last() == y.last());
    }
}

/// The arguments of a finished call: the object its text holds, or an empty
/// object when the text is empty or not a JSON object.
pub open spec fn final_arguments(args: Seq<char>) -> Seq<char> {
    if args.len() == 0 {
        "{}"@
    } else {
        match json_as_object(args) {
            Some(o) => o,
            None => "{}"@,
        }
    }
}

/// The tool call a buffer makes.
pub open spec fn buffer_call(b: BufferView) -> ToolCallView {
    ToolCallView { id: b.id, name: b.name, arguments: final_arguments(b.args) }
}

/// A streamed reply in progress: its text so far and its tool calls being
/// put together, in the order they first appeared.
pub struct OpenAiStream {
    full_text: String,
    buffers: Vec<ToolBuffer>,
}

impl OpenAiStream {
    pub closed spec fn text(&self) -> Seq<char> {
        self.full_text@
    }

    pub closed spec fn buffers(&self) -> Seq<BufferView> {
        buffer_views(self.buffers@)
    }

    /// A reply that has not started.
    pub fn new() -> (s: Self)
        ensures
            s.text() == Seq::<char>::empty(),
            s.buffers() == Seq::<BufferView>::empty(),
    {
        let s = OpenAiStream { full_text: String::new(), buffers: Vec::new() };
        assert(buffer_views(s.buffers@) =~= Seq::<BufferView>::empty());
        s
    }

    /// The position of the buffer for the call at `index`.
    fn find_buffer(&self, index: i64) -> (r: Option<usize>)
        ensures
            ({
                let k = first_index(self.buffers(), |b: BufferView| b.index == index);
                match r {
                    Some(i) => i == k && i < self.buffers().len(),
                    None => k < 0,
                }
            }),
    {
        let ghost f = |b: BufferView| b.index == index;
        let mut k: usize = 0;
        while k < self.buffers.len()
            invariant
                f == (|b: BufferView| b.index == index),
                k <= self.buffers@.len(),
                forall|m: int| 0 <= m < k ==> !f(#[trigger] buffer_views(self.buffers@)[m]),
            decreases self.buffers@.len() - k,
        {
            if self.buffers[k].index == index {
                proof {
                    lemma_first_index_unique(buffer_views(self.buffers@), f, k as int);
                }
                return Some(k);
            }
            k += 1;
        }
        proof {
            lemma_first_index_unique(buffer_views(self.buffers@), f, -1);
        }
        None
    }

    /// Takes one tool-call piece.
    fn on_piece(&mut self, tc: DeltaToolCall)
        ensures
            final(self).buffers() == apply_piece(old(self).buffers(), tc),
            final(self).text() == old(self).text(),
    {
        let ghost b0 = buffer_views(self.buffers@);
        let ghost tcv = tc;
        let i = match self.find_buffer(tc.index) {
            Some(i) => i,
            None => {
                let id = match &tc.id {
                    Some(x) => x.clone(),
                    None => {
                        let d = signed_decimal(tc.index);
                        concat2("call_", d.as_str())
                    },
                };
                self.buffers.push(ToolBuffer { index: tc.index, id, name: String::new(), args: String::new() });
                assert(buffer_views(self.buffers@) =~= b0.push(self.buffers@.last()@));
                self.buffers.len() - 1
            },
        };
        let ghost bs = buffer_views(self.buffers@);
        let old_b = self.buffers.remove(i);
        let ToolBuffer { index, id, name, args } = old_b;
        let id = match tc.id {
            Some(x) => x,
            None => id,
        };
        let mut name = name;
        match &tc.name {
            Some(n) => name.append(n.as_str()),
            None => {},
        }
        let mut args = args;
        match &tc.arguments {
            Some(a) => args.append(a.as_str()),
            None => {},
        }
        self.buffers.insert(i, ToolBuffer { index, id, name, args });
        proof {
            assert(opt_text(tcv.name) =~= opt_text(tcv.name));
            assert(buffer_views(self.buffers@) =~= bs.update(i as int, self.buffers@[i as int]@));
        }
    }

    /// Takes the delta of one event; returns its text when there is any.
    pub fn on_delta(&mut self, delta: OpenAiDelta) -> (text: Option<String>)
        ensures
            final(self).buffers() == match delta.tool_calls {
                Some(tcs) => apply_pieces(old(self).buffers(), tcs@),
                None => old(self).buffers(),
            },
            match delta.content {
                Some(c) => if c@.len() > 0 {
                    text matches Some(t) && t@ == c@ && final(self).text() == old(self).text() + c@
                } else {
                    text is None && final(self).text() == old(self).text()
                },
                None => text is None && final(self).text() == old(self).text(),
            },
    {
        let mut out: Option<String> = None;
        match delta.content {
            Some(c) => {
                if !str_is_empty(c.as_str()) {
                    self.full_text.append(c.as_str());
                    out = Some(c);
                }
            },
            None => {},
        }
        match delta.tool_calls {
            Some(tcs) => {
                let ghost given = tcs@;
                let ghost b0 = self.buffers();
                let mut tcs = tcs;
                let mut done: usize = 0;
                let n = tcs.len();
                while tcs.len() > 0
                    invariant
                        n == given.len(),
                        done + tcs@.len() == n,
                        tcs@ == given.skip(done as int),
                        self.buffers() == apply_pieces(b0, given.take(done as int)),
                        self.text() == old(self).text() + match out {
                            Some(t) => t@,
                            None => seq![],
                        },
                    decreases tcs@.len(),
                {
                    let tc = tcs.remove(0);
                    proof {
                        assert(tc == given[done as int]);
                        assert(given.take(done + 1).drop_last() =~= given.take(done as int));
                        assert(given.take(done + 1).last() == given[done as int]);
                    }
                    self.on_piece(tc);
                    done += 1;
                    assert(tcs@ =~= given.skip(done as int));
                }
                assert(given.take(n as int) =~= given);
            },
            None => {},
        }
        out
    }

    /// The end of the reply: the tool calls put together (sent first when
    /// there are any), then all the text and the calls.
    pub fn finish(self) -> (events: Vec<StreamEvent>)
        ensures
            ({
                let calls = self.buffers().map_values(|b: BufferView| buffer_call(b));
                &&& events@.len() == if calls.len() > 0 { 2int } else { 1int }
                &&& calls.len() > 0 ==> (events@[0] matches StreamEvent::ToolCalls(v) && call_views(v@) == calls)
                &&& events@.last() matches StreamEvent::Done { text, tool_calls } && text@ == self.text()
                    && call_views(tool_calls@) == calls
            }),
    {
        let ghost calls = self.buffers().map_values(|b: BufferView| buffer_call(b));
        let mut out: Vec<ToolCall> = Vec::new();
        let mut i: usize = 0;
        while i < self.buffers.len()
            invariant
                calls == buffer_views(self.buffers@).map_values(|b: BufferView| buffer_call(b)),
                i <= self.buffers@.len(),
                call_views(out@) == calls.take(i as int),
            decreases self.buffers@.len() - i,
        {
            let b = &self.buffers[i];
            let arguments = if str_is_empty(b.args.as_str()) {
                "{}".to_owned()
            } else {
                match object_text(b.args.as_str()) {
                    Some(o) => o,
                    None => "{}".to_owned(),
                }
            };
            assert(arguments@ == final_arguments(b@.args));
            let ghost before = call_views(out@);
            out.push(ToolCall { id: b.id.clone(), name: b.name.clone(), arguments });
            assert(calls[i as int] == buffer_call(self.buffers@[i as int]@));
            assert(call_views(out@) =~= before.push(buffer_call(self.buffers@[i as int]@)));
            assert(calls.take(i + 1) =~= calls.take(i as int).push(calls[i as int]));
            assert(call_views(out@) =~= calls.take(i + 1));
            i += 1;
        }
        assert(calls.take(self.buffers@.len() as int) =~= calls);
        let mut events: Vec<StreamEvent> = Vec::new();
        if out.len() > 0 {
            events.push(StreamEvent::ToolCalls(crate::types::clone_calls(&out)));
        }
        events.push(StreamEvent::Done { text: self.full_text, tool_calls: out });
        events
    }
}

/// How one message of the conversation goes to an OpenAI-compatible server.
pub enum OpenAiMessage {
    /// A tool's result, answering the call `tool_call_id`.
    ToolResult { tool_call_id: String, content: String },
    /// The assistant's text with the tool calls it made.
    AssistantCalls { content: String, calls: Vec<ToolCall> },
    /// Any other message: its role and its text.
    Plain { role: Role, content: String },
}

pub enum OpenAiMessageView {
    ToolResult { tool_call_id: Seq<char>, content: Seq<char> },
    AssistantCalls { content: Seq<char>, calls: Seq<ToolCallView> },
    Plain { role: Role, content: Seq<char> },
}

impl View for OpenAiMessage {
    type V = OpenAiMessageView;

    open spec fn view(&self) -> OpenAiMessageView {
        match self {
            OpenAiMessage::ToolResult { tool_call_id, content } => OpenAiMessageView::ToolResult {
                tool_call_id: tool_call_id@,
                content: content@,
            },
            OpenAiMessage::AssistantCalls { content, calls } => OpenAiMessageView::AssistantCalls {
                content: content@,
                calls: call_views(calls@),
            },
            OpenAiMessage::Plain { role, content } => OpenAiMessageView::Plain { role: *role, content: content@ },
        }
    }
}

/// A tool result is sent with the id of the call it answers
/// (`call_unknown` where it has none); an assistant message that made tool
/// calls is sent with them; every other message is its role and its text.
pub open spec fn openai_message_spec(m: MessageView) -> OpenAiMessageView {
    match m.role {
        Role::Tool => OpenAiMessageView::ToolResult {
            tool_call_id: match m.tool_call_id {
                Some(id) => id,
                None => "call_unknown"@,
            },
            content: m.content,
        },
        Role::Assistant if m.tool_calls matches Some(calls) && calls.len() > 0 => OpenAiMessageView::AssistantCalls {
            content: m.content,
            calls: m.tool_calls->0,
        },
        _ => OpenAiMessageView::Plain { role: m.role, content: m.content },
    }
}

/// How the message goes to the server.
pub fn to_openai_message(m: &Message) -> (r: OpenAiMessage)
    ensures
        r@ == openai_message_spec(m@),
{
    match m.role {
        Role::Tool => {
            let tool_call_id = match &m.tool_call_id {
                Some(id) => id.clone(),
                None => "call_unknown".to_owned(),
            };
            OpenAiMessage::ToolResult { tool_call_id, content: m.content.clone() }
        },
        Role::Assistant => match &m.tool_calls {
            Some(calls) if calls.len() > 0 => OpenAiMessage::AssistantCalls {
                content: m.content.clone(),
                calls: clone_calls(calls),
            },
            _ => OpenAiMessage::Plain { role: m.role, content: m.content.clone() },
        },
        _ => OpenAiMessage::Plain { role: m.role, content: m.content.clone() },
    }
}

/// How the conversation goes to the server, message by message.
pub fn to_openai_messages(messages: &Vec<Message>) -> (r: Vec<OpenAiMessage>)
    ensures
        r@.len() == messages@.len(),
        forall|k: int| 0 <= k < r@.len() ==> (#[trigger] r@[k])@ == openai_message_spec(messages@[k]@),
{
    let mut r: Vec<OpenAiMessage> = Vec::new();
    let mut i: usize = 0;
    while i < messages.len()
        invariant
            i <= messages@.len(),
            r@.len() == i,
            forall|k: int| 0 <= k < i ==> (#[trigger] r@[k])@ == openai_message_spec(messages@[k]@),
        decreases messages@.len() - i,
    {
        r.push(to_openai_message(&messages[i]));
        i = i + 1;
    }
    r
}

} // verus!
