//! The Ollama chat API: its provider settings, and how the chunks of a
//! streamed reply (one JSON object per line) become stream events.

use vstd::prelude::*;
use crate::id::{decimal_spec, to_radix, unix_millis};
use crate::text::{concat3, str_is_empty, trim_end_slashes, trim_trailing_slashes};
use crate::types::{call_views, ProviderConfig, StreamEvent, ToolCall, ToolCallView};
use vstd::string::StringExecFns;

verus! {

/// A provider that talks to an Ollama server.
pub struct OllamaProvider {
    id: String,
    label: String,
    base_url: String,
    client: reqwest::Client,
}

impl OllamaProvider {
    pub closed spec fn id_view(&self) -> Seq<char> {
        self.id@
    }

    pub closed spec fn label_view(&self) -> Seq<char> {
        self.label@
    }

    pub closed spec fn base_url_view(&self) -> Seq<char> {
        self.base_url@
    }

    /// The HTTP client the provider sends its requests with.
    pub closed spec fn client_view(&self) -> reqwest::Client {
        self.client
    }

    /// The provider for `config`, sending its requests with `client`: its
    /// label defaults to "Ollama", and its base URL loses any `/` at the end.
    pub fn new(config: &ProviderConfig, client: reqwest::Client) -> (p: Self)
        ensures
            p.id_view() == config.id@,
            p.label_view() == match config.label {
                Some(l) => l@,
                None => "Ollama"@,
            },
            p.base_url_view() == trim_end_slashes(config.base_url@),
            p.client_view() == client,
    {
        OllamaProvider {
            id: config.id.clone(),
            label: match &config.label {
                Some(l) => l.clone(),
                None => "Ollama".to_owned(),
            },
            base_url: trim_trailing_slashes(config.base_url.as_str()),
            client,
        }
    }

    pub fn id(&self) -> (r: &str)
        ensures
            r@ == self.id_view(),
    {
        self.id.as_str()
    }

    pub fn label(&self) -> (r: &str)
        ensures
            r@ == self.label_view(),
    {
        self.label.as_str()
    }

    pub fn base_url(&self) -> (r: &str)
        ensures
            r@ == self.base_url_view(),
    {
        self.base_url.as_str()
    }

    /// The HTTP client the provider was made with.
    pub fn client(&self) -> (r: &reqwest::Client)
        ensures
            *r == self.client_view(),
    {
        &self.client
    }
}

/// A tool-call id from a time in milliseconds and a count:
/// `call_{millis}_{count}`.
pub open spec fn ollama_call_id(millis: u128, count: u64) -> Seq<char> {
    "call_"@ + decimal_spec(millis as nat) + "_"@ + decimal_spec(count as nat)
}

/// `id` is a tool-call id made with `count`, at some time.
pub open spec fn ollama_id_made(id: Seq<char>, count: u64) -> bool {
    exists|millis: u128| id == #[trigger] ollama_call_id(millis, count)
}

/// A fresh tool-call id: the current time and `count`, the running count of
/// ids made so far (this one included).
pub fn next_tool_call_id(count: u64) -> (r: String)
    ensures
        ollama_id_made(r@, count),
{
    let millis = unix_millis();
    let m = to_radix(millis, 10);
    let c = to_radix(count as u128, 10);
    let r = concat3("call_", m.as_str(), "_");
    let mut r = r;
    r.append(c.as_str());
    assert(r@ == ollama_call_id(millis, count));
    r
}

/// A tool call in a chunk: the function's name and its arguments (the JSON
/// text of an object; `None` when the chunk gave none).
pub struct OllamaToolCall {
    pub name: String,
    pub arguments: Option<String>,
}

/// What a chunk of the reply holds: the message's text (`None` without a
/// message), its tool calls, and whether the reply is complete.
pub struct OllamaChunk {
    pub content: Option<String>,
    pub tool_calls: Option<Vec<OllamaToolCall>>,
    pub done: bool,
}

/// The count after `c`, wrapping at the end of the range.
pub open spec fn bump(c: u64) -> u64 {
    if c == u64::MAX {
        0
    } else {
        (c + 1) as u64
    }
}

/// The count `k` steps after `c`.
pub open spec fn bump_by(c: u64, k: nat) -> u64
    decreases k,
{
    if k == 0 {
        c
    } else {
        bump(bump_by(c, (k - 1) as nat))
    }
}

/// `made` are the tool calls of `given`, in order, with ids made from the
/// counts after `c0`.
pub open spec fn calls_from(made: Seq<ToolCallView>, given: Seq<OllamaToolCall>, c0: u64) -> bool {
    &&& made.len() == given.len()
    &&& forall|k: int|
        0 <= k < made.len() ==> {
            &&& (#[trigger] made[k]).name == given[k].name@
            &&& made[k].arguments == match given[k].arguments {
                Some(a) => a@,
                None => "{}"@,
            }
            &&& ollama_id_made(made[k].id, bump_by(c0, (k + 1) as nat))
        }
}

/// A streamed reply in progress: its text so far, its tool calls so far,
/// and the running count of tool-call ids.
pub struct OllamaStream {
    full_text: String,
    calls: Vec<ToolCall>,
    count: u64,
}

impl OllamaStream {
    pub closed spec fn text(&self) -> Seq<char> {
        self.full_text@
    }

    pub closed spec fn calls(&self) -> Seq<ToolCallView> {
        call_views(self.calls@)
    }

    pub closed spec fn count_view(&self) -> u64 {
        self.count
    }

    /// A reply that has not started, with `count` ids made before it.
    pub fn new(count: u64) -> (s: Self)
        ensures
            s.text() == Seq::<char>::empty(),
            s.calls() == Seq::<ToolCallView>::empty(),
            s.count_view() == count,
    {
        let s = OllamaStream { full_text: String::new(), calls: Vec::new(), count };
        assert(call_views(s.calls@) =~= Seq::<ToolCallView>::empty());
        s
    }

    /// The running count of ids made.
    pub fn count(&self) -> (c: u64)
        ensures
            c == self.count_view(),
    {
        self.count
    }

    /// Takes one chunk: its text, when not empty, is added and sent on; its
    /// tool calls, when there are any, get fresh ids and are sent on. The
    /// flag says that the reply is complete.
    pub fn on_chunk(&mut self, chunk: OllamaChunk) -> (r: (Vec<StreamEvent>, bool))
        ensures
            r.1 == chunk.done,
            ({
                let text = match chunk.content {
                    Some(c) => c@,
                    None => seq![],
                };
                let n = match chunk.tool_calls {
                    Some(tcs) => tcs@.len(),
                    None => 0,
                };
                &&& final(self).text() == old(self).text() + text
                &&& final(self).count_view() == bump_by(old(self).count_view(), n)
                &&& final(self).calls().len() == old(self).calls().len() + n
                &&& final(self).calls().take(old(self).calls().len() as int) == old(self).calls()
                &&& match chunk.tool_calls {
                    Some(tcs) => calls_from(
                        final(self).calls().skip(old(self).calls().len() as int),
                        tcs@,
                        old(self).count_view(),
                    ),
                    None => true,
                }
                &&& r.0@.len() == (if text.len() > 0 { 1int } else { 0 }) + (if n > 0 { 1int } else { 0 })
                &&& text.len() > 0 ==> (r.0@[0] matches StreamEvent::Text(t) && t@ == text)
                &&& n > 0 ==> (r.0@.last() matches StreamEvent::ToolCalls(v) && call_views(v@)
                    == final(self).calls().skip(old(self).calls().len() as int))
            }),
    {
        let ghost t0 = self.full_text@;
        let ghost cs0 = call_views(self.calls@);
        let ghost c0 = self.count;
        let mut events: Vec<StreamEvent> = Vec::new();
        match chunk.content {
            Some(c) => {
                if !str_is_empty(c.as_str()) {
                    self.full_text.append(c.as_str());
                    events.push(StreamEvent::Text(c));
                }
            },
            None => {},
        }
        match chunk.tool_calls {
            Some(tcs) => {
                let ghost given = tcs@;
                let mut parsed: Vec<ToolCall> = Vec::new();
                let mut i: usize = 0;
                while i < tcs.len()
                    invariant
                        given == tcs@,
                        i <= tcs@.len(),
                        self.full_text@ == t0 + match chunk.content {
                            Some(c) => c@,
                            None => seq![],
                        },
                        call_views(self.calls@) == cs0,
                        self.count == bump_by(c0, i as nat),
                        calls_from(call_views(parsed@), given.take(i as int), c0),
                    decreases tcs@.len() - i,
                {
                    self.count = if self.count == u64::MAX {
                        0
                    } else {
                        self.count + 1
                    };
                    let id = next_tool_call_id(self.count);
                    let arguments = match &tcs[i].arguments {
                        Some(a) => a.clone(),
                        None => "{}".to_owned(),
                    };
                    let ghost before = call_views(parsed@);
                    parsed.push(ToolCall { id, name: tcs[i].name.clone(), arguments });
                    proof {
                        let now = call_views(parsed@);
                        assert(now =~= before.push(parsed@.last()@));
                        assert(given.take(i + 1) =~= given.take(i as int).push(given[i as int]));
                        assert(forall|k: int| 0 <= k < i ==> now[k] == before[k]);
                    }
                    i += 1;
                }
                proof {
                    assert(given.take(tcs@.len() as int) =~= given);
                }
                if parsed.len() > 0 {
                    let mut copy = crate::types::clone_calls(&parsed);
                    let ghost pv = call_views(parsed@);
                    let ghost old_calls = self.calls@;
                    let ghost copy_view = copy@;
                    self.calls.append(&mut copy);
                    proof {
                        assert(self.calls@ =~= old_calls + copy_view);
                        assert(call_views(self.calls@) =~= cs0 + pv);
                        assert(call_views(self.calls@).skip(cs0.len() as int) =~= pv);
                        assert(call_views(self.calls@).take(cs0.len() as int) =~= cs0);
                    }
                    events.push(StreamEvent::ToolCalls(parsed));
                } else {
                    assert(call_views(self.calls@).skip(cs0.len() as int) =~= Seq::<ToolCallView>::empty());
                    assert(call_views(self.calls@).take(cs0.len() as int) =~= cs0);
                }
            },
            None => {
                assert(call_views(self.calls@).take(cs0.len() as int) =~= cs0);
            },
        }
        (events, chunk.done)
    }

    /// The end of the reply: all its text and all its tool calls.
    pub fn finish(self) -> (e: StreamEvent)
        ensures
            e matches StreamEvent::Done { text, tool_calls } && text@ == self.text() && call_views(tool_calls@)
                == self.calls(),
    {
        StreamEvent::Done { text: self.full_text, tool_calls: self.calls }
    }
}

} // verus!
