//! The decisions of an agent turn: routing streamed text through the
//! thinking filter and the tool-call scanner, choosing the tool calls to run,
//! recording the assistant's reply and the tool results, and bounding the
//! number of iterations. The caller performs the model requests, runs the
//! tools and asks the user for approval.

use vstd::prelude::*;
use crate::agent::thinking_filter::{
    filter_drain, filter_models, strip_thinking_tags, stripped_spec, FilterEvent,
    ThinkingTagFilter,
};
use crate::agent::tool_call_parser::{
    call_id, events_match, scan_drain, tool_call_from_parsed, ParsedToolCall, ScanEvent,
    StreamingToolCallScanner,
};
use crate::config::concat_lists;
use crate::id::id_spec;
use crate::text::{join, utf8};
use crate::types::{
    call_views, clone_calls, message_views, Message, MessageView, Role, ToolCall, ToolCallView, ToolDefinition,
    ToolExecutionResult,
};
use vstd::string::StringExecFns;

verus! {

/// Text for the user interface: answer text, or thinking text.
#[derive(Debug, Clone)]
pub enum StreamOutput {
    TextChunk(String),
    ThinkingChunk(String),
}

/// The count after `c`, wrapping at the end of the range.
pub open spec fn next_count(c: u64) -> u64 {
    if c == u64::MAX {
        0
    } else {
        (c + 1) as u64
    }
}

/// The count `k` steps after `c`.
pub open spec fn count_after(c: u64, k: nat) -> u64
    decreases k,
{
    if k == 0 {
        c
    } else {
        next_count(count_after(c, (k - 1) as nat))
    }
}

proof fn lemma_count_after_add(c: u64, a: nat, b: nat)
    ensures
        count_after(c, a + b) == count_after(count_after(c, a), b),
    decreases b,
{
    if b > 0 {
        lemma_count_after_add(c, a, (b - 1) as nat);
    }
}

/// The text events of a scan, as answer text.
pub open spec fn scan_texts(evs: Seq<ScanEvent>) -> Seq<StreamOutput>
    decreases evs.len(),
{
    if evs.len() == 0 {
        seq![]
    } else {
        scan_texts(evs.drop_last()) + match evs.last() {
            ScanEvent::Text(t) => seq![StreamOutput::TextChunk(t)],
            _ => seq![],
        }
    }
}

/// The tool calls that parsed, by name and arguments.
pub open spec fn parsed_calls(evs: Seq<ScanEvent>) -> Seq<(Seq<char>, Seq<char>)>
    decreases evs.len(),
{
    if evs.len() == 0 {
        seq![]
    } else {
        parsed_calls(evs.drop_last()) + match evs.last() {
            ScanEvent::ToolCall { call: Some(c), .. } => seq![c@],
            _ => seq![],
        }
    }
}

/// Some tool-call block did not parse.
pub open spec fn parse_failed(evs: Seq<ScanEvent>) -> bool {
    exists|k: int| 0 <= k < evs.len() && (#[trigger] evs[k] matches ScanEvent::ToolCall { call: None, .. })
}

/// `id` is a tool-call id made with count `count`, at some time.
pub open spec fn id_made(id: Seq<char>, count: u64) -> bool {
    exists|millis: u128| id == #[trigger] call_id(millis, count)
}

/// `calls` are the parsed calls, in order, with ids made from consecutive
/// counts starting at `c0`.
pub open spec fn calls_made(calls: Seq<ToolCallView>, parsed: Seq<(Seq<char>, Seq<char>)>, c0: u64) -> bool {
    &&& calls.len() == parsed.len()
    &&& forall|k: int| 0 <= k < calls.len() ==> (#[trigger] calls[k]).name == parsed[k].0
        && calls[k].arguments == parsed[k].1
    &&& forall|k: int| 0 <= k < calls.len() ==> id_made((#[trigger] calls[k]).id, count_after(c0, k as nat))
}

proof fn lemma_calls_made_concat(
    a: Seq<ToolCallView>,
    pa: Seq<(Seq<char>, Seq<char>)>,
    b: Seq<ToolCallView>,
    pb: Seq<(Seq<char>, Seq<char>)>,
    c0: u64,
)
    requires
        calls_made(a, pa, c0),
        calls_made(b, pb, count_after(c0, pa.len())),
    ensures
        calls_made(a + b, pa + pb, c0),
{
    let ab = a + b;
    let pab = pa + pb;
    assert forall|k: int| 0 <= k < ab.len() implies id_made((#[trigger] ab[k]).id, count_after(c0, k as nat)) by {
        if k >= a.len() {
            assert(ab[k] == b[k - a.len()]);
            lemma_count_after_add(c0, pa.len(), (k - a.len()) as nat);
            assert(count_after(c0, k as nat) == count_after(count_after(c0, pa.len()), (k - a.len()) as nat));
        } else {
            assert(ab[k] == a[k]);
        }
    }
    assert forall|k: int| 0 <= k < ab.len() implies (#[trigger] ab[k]).name == pab[k].0 && ab[k].arguments
        == pab[k].1 by {
        if k >= a.len() {
            assert(ab[k] == b[k - a.len()]);
            assert(pab[k] == pb[k - a.len()]);
        } else {
            assert(ab[k] == a[k]);
            assert(pab[k] == pa[k]);
        }
    }
}

proof fn lemma_scan_specs_concat(a: Seq<ScanEvent>, b: Seq<ScanEvent>)
    ensures
        scan_texts(a + b) == scan_texts(a) + scan_texts(b),
        parsed_calls(a + b) == parsed_calls(a) + parsed_calls(b),
        parse_failed(a + b) == (parse_failed(a) || parse_failed(b)),
    decreases b.len(),
{
    if b.len() == 0 {
        assert(a + b =~= a);
        assert(scan_texts(a) + scan_texts(b) =~= scan_texts(a));
        assert(parsed_calls(a) + parsed_calls(b) =~= parsed_calls(a));
    } else {
        lemma_scan_specs_concat(a, b.drop_last());
        assert((a + b).drop_last() =~= a + b.drop_last());
        assert((a + b).last() == b.last());
        assert(scan_texts(a + b) =~= scan_texts(a) + scan_texts(b));
        assert(parsed_calls(a + b) =~= parsed_calls(a) + parsed_calls(b));
    }
    if parse_failed(a + b) {
        let k = choose|k: int| 0 <= k < (a + b).len() && (#[trigger] (a + b)[k] matches ScanEvent::ToolCall { call: None, .. });
        if k < a.len() {
            assert((a + b)[k] == a[k]);
        } else {
            assert((a + b)[k] == b[k - a.len()]);
        }
    }
    if parse_failed(a) {
        let k = choose|k: int| 0 <= k < a.len() && (#[trigger] a[k] matches ScanEvent::ToolCall { call: None, .. });
        assert((a + b)[k] == a[k]);
    }
    if parse_failed(b) {
        let k = choose|k: int| 0 <= k < b.len() && (#[trigger] b[k] matches ScanEvent::ToolCall { call: None, .. });
        assert((a + b)[a.len() + k] == b[k]);
    }
}

fn next_count_exec(c: u64) -> (r: u64)
    ensures
        r == next_count(c),
{
    if c == u64::MAX {
        0
    } else {
        c + 1
    }
}

/// Text events become answer text; parsed tool calls are added to
/// `fallback_calls` with fresh ids (counting from `*count`); a block that does
/// not parse sets `had_parse_error`.
pub fn handle_scan_events(
    events_out: Vec<ScanEvent>,
    fallback_calls: &mut Vec<ToolCall>,
    had_parse_error: &mut bool,
    count: &mut u64,
) -> (out: Vec<StreamOutput>)
    ensures
        out@ == scan_texts(events_out@),
        call_views(final(fallback_calls)@) == call_views(old(fallback_calls)@) + call_views(
            final(fallback_calls)@,
        ).skip(old(fallback_calls)@.len() as int),
        final(fallback_calls)@.len() >= old(fallback_calls)@.len(),
        calls_made(
            call_views(final(fallback_calls)@).skip(old(fallback_calls)@.len() as int),
            parsed_calls(events_out@),
            *old(count),
        ),
        *final(count) == count_after(*old(count), parsed_calls(events_out@).len()),
        *final(had_parse_error) == (*old(had_parse_error) || parse_failed(events_out@)),
{
    let mut out: Vec<StreamOutput> = Vec::new();
    let ghost f0 = call_views(fallback_calls@);
    let ghost c0 = *count;
    let ghost h0 = *had_parse_error;
    let mut i: usize = 0;
    proof {
        assert(events_out@.take(0) =~= Seq::<ScanEvent>::empty());
        assert(call_views(fallback_calls@).skip(f0.len() as int) =~= Seq::<ToolCallView>::empty());
        assert(f0 + Seq::<ToolCallView>::empty() =~= f0);
    }
    while i < events_out.len()
        invariant
            i <= events_out@.len(),
            f0 == call_views(old(fallback_calls)@),
            c0 == *old(count),
            h0 == *old(had_parse_error),
            fallback_calls@.len() >= f0.len(),
            call_views(fallback_calls@) == f0 + call_views(fallback_calls@).skip(f0.len() as int),
            out@ == scan_texts(events_out@.take(i as int)),
            calls_made(
                call_views(fallback_calls@).skip(f0.len() as int),
                parsed_calls(events_out@.take(i as int)),
                c0,
            ),
            *count == count_after(c0, parsed_calls(events_out@.take(i as int)).len()),
            *had_parse_error == (h0 || parse_failed(events_out@.take(i as int))),
        decreases events_out@.len() - i,
    {
        let ghost pre = events_out@.take(i as int);
        let ghost ev = events_out@[i as int];
        proof {
            assert(events_out@.take(i + 1) =~= pre + seq![ev]);
            lemma_scan_specs_concat(pre, seq![ev]);
            assert(seq![ev].drop_last() =~= Seq::<ScanEvent>::empty());
            assert(scan_texts(Seq::<ScanEvent>::empty()) == Seq::<StreamOutput>::empty());
            assert(parsed_calls(Seq::<ScanEvent>::empty()) == Seq::<(Seq<char>, Seq<char>)>::empty());
        }
        let ghost new_before = call_views(fallback_calls@).skip(f0.len() as int);
        match &events_out[i] {
            ScanEvent::Text(t) => {
                out.push(StreamOutput::TextChunk(t.clone()));
                proof {
                    assert(scan_texts(seq![ev]) =~= seq![StreamOutput::TextChunk(*t)]);
                    assert(parsed_calls(seq![ev]) =~= Seq::<(Seq<char>, Seq<char>)>::empty());
                    assert(parsed_calls(pre) + parsed_calls(seq![ev]) =~= parsed_calls(pre));
                    assert(!parse_failed(seq![ev]));
                }
            },
            ScanEvent::ToolCall { call: Some(c), .. } => {
                let parsed = ParsedToolCall { name: c.name.clone(), arguments: c.arguments.clone() };
                let ghost old_count = *count;
                let made = tool_call_from_parsed(parsed, *count);
                let ghost fb = fallback_calls@;
                fallback_calls.push(made);
                *count = next_count_exec(*count);
                proof {
                    assert(scan_texts(seq![ev]) =~= Seq::<StreamOutput>::empty());
                    assert(scan_texts(pre) + scan_texts(seq![ev]) =~= scan_texts(pre));
                    assert(parsed_calls(seq![ev]) =~= seq![c@]);
                    assert(!parse_failed(seq![ev]));
                    assert(call_views(fallback_calls@) =~= call_views(fb).push(made@));
                    assert(call_views(fallback_calls@).skip(f0.len() as int) =~= new_before + seq![made@]);
                    assert(call_views(fallback_calls@) =~= f0 + call_views(fallback_calls@).skip(f0.len() as int));
                    assert(seq![made@][0] == made@);
                    assert(id_made(made.id@, count_after(old_count, 0)));
                    assert(calls_made(seq![made@], seq![c@], old_count));
                    lemma_calls_made_concat(new_before, parsed_calls(pre), seq![made@], seq![c@], c0);
                    lemma_count_after_add(c0, parsed_calls(pre).len(), 1);
                }
            },
            ScanEvent::ToolCall { call: None, .. } => {
                *had_parse_error = true;
                proof {
                    assert(scan_texts(seq![ev]) =~= Seq::<StreamOutput>::empty());
                    assert(scan_texts(pre) + scan_texts(seq![ev]) =~= scan_texts(pre));
                    assert(parsed_calls(seq![ev]) =~= Seq::<(Seq<char>, Seq<char>)>::empty());
                    assert(parsed_calls(pre) + parsed_calls(seq![ev]) =~= parsed_calls(pre));
                    assert(seq![ev][0] == ev);
                    assert(parse_failed(seq![ev]));
                }
            },
        }
        i += 1;
    }
    proof {
        assert(events_out@.take(events_out@.len() as int) =~= events_out@);
    }
    out
}


/// The scanner's bytes and cursor after each text event of `fevs` was fed to
/// it in turn, starting from `b0` and `c0`, when `sevs` are what each feed
/// emitted (nothing for thinking events); `None` when they are not.
pub open spec fn scan_chain(b0: Seq<u8>, c0: int, fevs: Seq<FilterEvent>, sevs: Seq<Seq<ScanEvent>>) -> Option<
    (Seq<u8>, int),
>
    decreases fevs.len(),
{
    if fevs.len() != sevs.len() {
        None
    } else if fevs.len() == 0 {
        Some((b0, c0))
    } else {
        match scan_chain(b0, c0, fevs.drop_last(), sevs.drop_last()) {
            None => None,
            Some(st) => match fevs.last() {
                FilterEvent::Thinking(_) => if sevs.last().len() == 0 {
                    Some(st)
                } else {
                    None
                },
                FilterEvent::Text(t) => {
                    let b = st.0 + utf8(t@);
                    let d = scan_drain(b, st.1, false);
                    if events_match(sevs.last(), d.0) {
                        Some((b, d.1))
                    } else {
                        None
                    }
                },
            },
        }
    }
}

/// The output for filter events `fevs` whose text events the scanner turned
/// into `sevs`: thinking text as is, and the scanner's text.
pub open spec fn routed(fevs: Seq<FilterEvent>, sevs: Seq<Seq<ScanEvent>>) -> Seq<StreamOutput>
    decreases fevs.len(),
{
    if fevs.len() == 0 || fevs.len() != sevs.len() {
        seq![]
    } else {
        routed(fevs.drop_last(), sevs.drop_last()) + match fevs.last() {
            FilterEvent::Thinking(t) => seq![StreamOutput::ThinkingChunk(t)],
            FilterEvent::Text(_) => scan_texts(sevs.last()),
        }
    }
}

/// What routing the filter's events leaves: the scanner fed every text event
/// in turn (emitting `sevs`), the output, the tool calls added to `added`
/// with counts from `c0` to `c1`, and whether a block did not parse.
pub open spec fn routing_done(
    b0: Seq<u8>,
    k0: int,
    fevs: Seq<FilterEvent>,
    sevs: Seq<Seq<ScanEvent>>,
    b1: Seq<u8>,
    k1: int,
    out: Seq<StreamOutput>,
    added: Seq<ToolCallView>,
    c0: u64,
    c1: u64,
    h0: bool,
    h1: bool,
) -> bool {
    &&& scan_chain(b0, k0, fevs, sevs) == Some((b1, k1))
    &&& out == routed(fevs, sevs)
    &&& calls_made(added, parsed_calls(concat_lists(sevs)), c0)
    &&& c1 == count_after(c0, parsed_calls(concat_lists(sevs)).len())
    &&& h1 == (h0 || parse_failed(concat_lists(sevs)))
}

/// Thinking text goes out as is; answer text goes through the tool-call
/// scanner, whose output `handle_scan_events` handles.
pub fn handle_filter_events(
    events_out: Vec<FilterEvent>,
    scanner: &mut StreamingToolCallScanner,
    fallback_calls: &mut Vec<ToolCall>,
    had_parse_error: &mut bool,
    count: &mut u64,
) -> (out: Vec<StreamOutput>)
    requires
        old(scanner).wf(),
    ensures
        final(scanner).wf(),
        final(fallback_calls)@.len() >= old(fallback_calls)@.len(),
        call_views(final(fallback_calls)@) == call_views(old(fallback_calls)@) + call_views(
            final(fallback_calls)@,
        ).skip(old(fallback_calls)@.len() as int),
        exists|sevs: Seq<Seq<ScanEvent>>|
            routing_done(
                old(scanner).bytes(),
                old(scanner).cursor(),
                events_out@,
                sevs,
                final(scanner).bytes(),
                final(scanner).cursor(),
                out@,
                call_views(final(fallback_calls)@).skip(old(fallback_calls)@.len() as int),
                *old(count),
                *final(count),
                *old(had_parse_error),
                *final(had_parse_error),
            ),
{
    let mut out: Vec<StreamOutput> = Vec::new();
    let ghost b0 = scanner.bytes();
    let ghost k0 = scanner.cursor();
    let ghost f0 = call_views(fallback_calls@);
    let ghost c0 = *count;
    let ghost h0 = *had_parse_error;
    let ghost mut sevs: Seq<Seq<ScanEvent>> = seq![];
    let mut i: usize = 0;
    proof {
        assert(events_out@.take(0) =~= Seq::<FilterEvent>::empty());
        assert(call_views(fallback_calls@).skip(f0.len() as int) =~= Seq::<ToolCallView>::empty());
        assert(f0 + Seq::<ToolCallView>::empty() =~= f0);
        assert(concat_lists(sevs) =~= Seq::<ScanEvent>::empty());
        assert(parsed_calls(Seq::<ScanEvent>::empty()) == Seq::<(Seq<char>, Seq<char>)>::empty());
        assert(!parse_failed(Seq::<ScanEvent>::empty()));
    }
    while i < events_out.len()
        invariant
            i <= events_out@.len(),
            scanner.wf(),
            b0 == old(scanner).bytes(),
            k0 == old(scanner).cursor(),
            f0 == call_views(old(fallback_calls)@),
            c0 == *old(count),
            h0 == *old(had_parse_error),
            fallback_calls@.len() >= f0.len(),
            call_views(fallback_calls@) == f0 + call_views(fallback_calls@).skip(f0.len() as int),
            sevs.len() == i,
            routing_done(
                b0,
                k0,
                events_out@.take(i as int),
                sevs,
                scanner.bytes(),
                scanner.cursor(),
                out@,
                call_views(fallback_calls@).skip(f0.len() as int),
                c0,
                *count,
                h0,
                *had_parse_error,
            ),
        decreases events_out@.len() - i,
    {
        let ghost pre = events_out@.take(i as int);
        let ghost ev = events_out@[i as int];
        let ghost old_out = out@;
        let ghost old_added = call_views(fallback_calls@).skip(f0.len() as int);
        let ghost old_count = *count;
        let ghost old_had = *had_parse_error;
        let ghost old_bytes = scanner.bytes();
        let ghost old_cursor = scanner.cursor();
        proof {
            assert(events_out@.take(i + 1) =~= pre.push(ev));
            assert(pre.push(ev).drop_last() =~= pre);
        }
        match &events_out[i] {
            FilterEvent::Thinking(t) => {
                out.push(StreamOutput::ThinkingChunk(t.clone()));
                proof {
                    let e: Seq<ScanEvent> = seq![];
                    let ns = sevs.push(e);
                    assert(ns.drop_last() =~= sevs);
                    assert(ns.last() == e);
                    assert(concat_lists(ns) =~= concat_lists(sevs));
                    assert(scan_chain(b0, k0, pre.push(ev), ns) == scan_chain(b0, k0, pre, sevs));
                    assert(routed(pre.push(ev), ns) == routed(pre, sevs) + seq![StreamOutput::ThinkingChunk(*t)]);
                    assert(out@ =~= old_out + seq![StreamOutput::ThinkingChunk(*t)]);
                    sevs = ns;
                }
            },
            FilterEvent::Text(t) => {
                let se = scanner.feed(t.as_str());
                let ghost se_v = se@;
                let ghost fb = call_views(fallback_calls@);
                let mut more = handle_scan_events(se, fallback_calls, had_parse_error, count);
                let ghost more_v = more@;
                out.append(&mut more);
                proof {
                    let ns = sevs.push(se_v);
                    assert(ns.drop_last() =~= sevs);
                    assert(ns.last() == se_v);
                    assert(concat_lists(ns) =~= concat_lists(sevs) + se_v);
                    lemma_scan_specs_concat(concat_lists(sevs), se_v);
                    let added_now = call_views(fallback_calls@).skip(fb.len() as int);
                    assert(call_views(fallback_calls@).skip(f0.len() as int) =~= old_added + added_now);
                    lemma_calls_made_concat(
                        old_added,
                        parsed_calls(concat_lists(sevs)),
                        added_now,
                        parsed_calls(se_v),
                        c0,
                    );
                    lemma_count_after_add(c0, parsed_calls(concat_lists(sevs)).len(), parsed_calls(se_v).len());
                    assert(call_views(fallback_calls@) =~= f0 + call_views(fallback_calls@).skip(f0.len() as int));
                    assert(scan_chain(b0, k0, pre.push(ev), ns) == Some((scanner.bytes(), scanner.cursor())));
                    assert(routed(pre.push(ev), ns) == routed(pre, sevs) + scan_texts(se_v));
                    assert(out@ =~= old_out + more_v);
                    sevs = ns;
                }
            },
        }
        i += 1;
    }
    proof {
        assert(events_out@.take(events_out@.len() as int) =~= events_out@);
    }
    out
}


/// The filter after `text` was fed to `f0` (or, with `last`, after it was
/// finished), having emitted `fevs`.
pub open spec fn filter_fed(
    f0: ThinkingTagFilter,
    text: Seq<char>,
    f1: ThinkingTagFilter,
    fevs: Seq<FilterEvent>,
    last: bool,
) -> bool {
    let b = if last {
        f0.bytes()
    } else {
        f0.bytes() + utf8(text)
    };
    let d = filter_drain(b, f0.cursor(), f0.thinking(), last);
    &&& f1.wf()
    &&& f1.bytes() == b
    &&& f1.cursor() == d.1
    &&& f1.thinking() == d.2
    &&& filter_models(fevs) == d.0
}

/// How `finish` leaves the stream `s1` from `s0`, having emitted `out`: the
/// filter finished (emitting `fevs`), its text routed through the scanner
/// (which emitted `sevs` and was left at `mb`, `mk`, with `mid_len` calls
/// collected, `mid_count`, `mid_had`), then the scanner finished (emitting
/// `last_sevs`).
pub open spec fn finish_done(
    s0: TurnStream,
    s1: TurnStream,
    out: Seq<StreamOutput>,
    f1: ThinkingTagFilter,
    fevs: Seq<FilterEvent>,
    sevs: Seq<Seq<ScanEvent>>,
    mb: Seq<u8>,
    mk: int,
    mid_count: u64,
    mid_had: bool,
    mid_len: int,
    last_sevs: Seq<ScanEvent>,
) -> bool {
    &&& filter_fed(s0.filter(), Seq::empty(), f1, fevs, true)
    &&& s0.fallback().len() <= mid_len <= s1.fallback().len()
    &&& routing_done(
        s0.scanner().bytes(),
        s0.scanner().cursor(),
        fevs,
        sevs,
        mb,
        mk,
        routed(fevs, sevs),
        s1.fallback().subrange(s0.fallback().len() as int, mid_len),
        s0.count(),
        mid_count,
        s0.had_parse_error(),
        mid_had,
    )
    &&& events_match(last_sevs, scan_drain(mb, mk, true).0)
    &&& s1.scanner().bytes() == mb
    &&& s1.scanner().cursor() == scan_drain(mb, mk, true).1
    &&& out == routed(fevs, sevs) + scan_texts(last_sevs)
    &&& calls_made(s1.fallback().skip(mid_len), parsed_calls(last_sevs), mid_count)
    &&& s1.count() == count_after(mid_count, parsed_calls(last_sevs).len())
    &&& s1.had_parse_error() == (mid_had || parse_failed(last_sevs))
}

/// The state of one model response being streamed in: text goes through the
/// thinking filter and then the tool-call scanner.
pub struct TurnStream {
    think_filter: ThinkingTagFilter,
    scanner: StreamingToolCallScanner,
    fallback_calls: Vec<ToolCall>,
    had_parse_error: bool,
    full_text: String,
    native_tool_calls: Vec<ToolCall>,
    count: u64,
}

/// What a streamed response comes to.
pub struct StreamResult {
    /// The full assistant text as the provider reported it.
    pub full_text: String,
    /// Calls the provider made natively.
    pub native_tool_calls: Vec<ToolCall>,
    /// Calls read from `tool_call` blocks in the text.
    pub fallback_calls: Vec<ToolCall>,
    /// A `tool_call` block did not parse.
    pub had_parse_error: bool,
    /// The id count after the ids made for `fallback_calls`.
    pub count: u64,
}

impl TurnStream {
    pub closed spec fn filter(&self) -> ThinkingTagFilter {
        self.think_filter
    }

    pub closed spec fn scanner(&self) -> StreamingToolCallScanner {
        self.scanner
    }

    pub closed spec fn fallback(&self) -> Seq<ToolCallView> {
        call_views(self.fallback_calls@)
    }

    pub closed spec fn native(&self) -> Seq<ToolCallView> {
        call_views(self.native_tool_calls@)
    }

    pub closed spec fn full_text(&self) -> Seq<char> {
        self.full_text@
    }

    pub closed spec fn had_parse_error(&self) -> bool {
        self.had_parse_error
    }

    pub closed spec fn count(&self) -> u64 {
        self.count
    }

    pub closed spec fn wf(&self) -> bool {
        self.think_filter.wf() && self.scanner.wf()
    }

    /// A stream with nothing received yet; tool-call ids count from `count`.
    pub fn new(count: u64) -> (s: Self)
        ensures
            s.wf(),
            s.filter().bytes() == Seq::<u8>::empty(),
            s.filter().cursor() == 0,
            !s.filter().thinking(),
            s.scanner().bytes() == Seq::<u8>::empty(),
            s.scanner().cursor() == 0,
            s.fallback() == Seq::<ToolCallView>::empty(),
            s.native() == Seq::<ToolCallView>::empty(),
            s.full_text() == Seq::<char>::empty(),
            !s.had_parse_error(),
            s.count() == count,
    {
        let s = TurnStream {
            think_filter: ThinkingTagFilter::new(),
            scanner: StreamingToolCallScanner::new(),
            fallback_calls: Vec::new(),
            had_parse_error: false,
            full_text: String::new(),
            native_tool_calls: Vec::new(),
            count,
        };
        assert(call_views(s.fallback_calls@) =~= Seq::<ToolCallView>::empty());
        assert(call_views(s.native_tool_calls@) =~= Seq::<ToolCallView>::empty());
        s
    }

    /// A text chunk from the provider: its thinking and answer text, with
    /// tool-call blocks taken out and collected.
    pub fn on_text(&mut self, text: &str) -> (out: Vec<StreamOutput>)
        requires
            old(self).wf(),
        ensures
            final(self).wf(),
            final(self).native() == old(self).native(),
            final(self).full_text() == old(self).full_text(),
            final(self).fallback().len() >= old(self).fallback().len(),
            final(self).fallback() == old(self).fallback() + final(self).fallback().skip(
                old(self).fallback().len() as int,
            ),
            exists|fevs: Seq<FilterEvent>, sevs: Seq<Seq<ScanEvent>>|
                {
                    &&& filter_fed(old(self).filter(), text@, final(self).filter(), fevs, false)
                    &&& routing_done(
                        old(self).scanner().bytes(),
                        old(self).scanner().cursor(),
                        fevs,
                        sevs,
                        final(self).scanner().bytes(),
                        final(self).scanner().cursor(),
                        out@,
                        final(self).fallback().skip(old(self).fallback().len() as int),
                        old(self).count(),
                        final(self).count(),
                        old(self).had_parse_error(),
                        final(self).had_parse_error(),
                    )
                },
    {
        let ghost old_self = *self;
        let fevs = self.think_filter.feed(text);
        let ghost fv = fevs@;
        let out = handle_filter_events(
            fevs,
            &mut self.scanner,
            &mut self.fallback_calls,
            &mut self.had_parse_error,
            &mut self.count,
        );
        proof {
            let sevs = choose|sevs: Seq<Seq<ScanEvent>>|
                routing_done(
                    old_self.scanner().bytes(),
                    old_self.scanner().cursor(),
                    fv,
                    sevs,
                    self.scanner().bytes(),
                    self.scanner().cursor(),
                    out@,
                    self.fallback().skip(old_self.fallback().len() as int),
                    old_self.count(),
                    self.count(),
                    old_self.had_parse_error(),
                    self.had_parse_error(),
                );
            assert(filter_fed(old_self.filter(), text@, self.filter(), fv, false));
        }
        out
    }

    /// Tool calls the provider made natively (replacing any before).
    pub fn on_tool_calls(&mut self, tool_calls: Vec<ToolCall>)
        ensures
            final(self).native() == call_views(tool_calls@),
            final(self).filter() == old(self).filter(),
            final(self).scanner() == old(self).scanner(),
            final(self).fallback() == old(self).fallback(),
            final(self).full_text() == old(self).full_text(),
            final(self).had_parse_error() == old(self).had_parse_error(),
            final(self).count() == old(self).count(),
    {
        self.native_tool_calls = tool_calls;
    }

    /// The provider's final event: the full text, and its tool calls, which
    /// replace the native calls when there are any.
    pub fn on_done(&mut self, text: String, tool_calls: Vec<ToolCall>)
        ensures
            final(self).full_text() == text@,
            final(self).native() == if tool_calls@.len() > 0 {
                call_views(tool_calls@)
            } else {
                old(self).native()
            },
            final(self).filter() == old(self).filter(),
            final(self).scanner() == old(self).scanner(),
            final(self).fallback() == old(self).fallback(),
            final(self).had_parse_error() == old(self).had_parse_error(),
            final(self).count() == old(self).count(),
    {
        self.full_text = text;
        if tool_calls.len() > 0 {
            self.native_tool_calls = tool_calls;
        }
    }

    /// The end of the stream: whatever the filter and then the scanner still
    /// hold.
    pub fn finish(&mut self) -> (out: Vec<StreamOutput>)
        requires
            old(self).wf(),
        ensures
            final(self).wf(),
            final(self).native() == old(self).native(),
            final(self).full_text() == old(self).full_text(),
            final(self).fallback().len() >= old(self).fallback().len(),
            final(self).fallback() == old(self).fallback() + final(self).fallback().skip(
                old(self).fallback().len() as int,
            ),
            exists|
                f1: ThinkingTagFilter,
                fevs: Seq<FilterEvent>,
                sevs: Seq<Seq<ScanEvent>>,
                mb: Seq<u8>,
                mk: int,
                mid_count: u64,
                mid_had: bool,
                mid_len: int,
                last_sevs: Seq<ScanEvent>,
            |
                #[trigger] finish_done(
                    *old(self),
                    *final(self),
                    out@,
                    f1,
                    fevs,
                    sevs,
                    mb,
                    mk,
                    mid_count,
                    mid_had,
                    mid_len,
                    last_sevs,
                ),
    {
        let ghost s0 = *self;
        let fevs = self.think_filter.finish();
        let ghost fv = fevs@;
        let ghost s1 = *self;
        let mut out = handle_filter_events(
            fevs,
            &mut self.scanner,
            &mut self.fallback_calls,
            &mut self.had_parse_error,
            &mut self.count,
        );
        let ghost out1 = out@;
        let ghost s2 = *self;
        proof {
            let sevs = choose|sevs: Seq<Seq<ScanEvent>>|
                routing_done(
                    s1.scanner().bytes(),
                    s1.scanner().cursor(),
                    fv,
                    sevs,
                    s2.scanner().bytes(),
                    s2.scanner().cursor(),
                    out1,
                    s2.fallback().skip(s1.fallback().len() as int),
                    s1.count(),
                    s2.count(),
                    s1.had_parse_error(),
                    s2.had_parse_error(),
                );
        }
        let last_events = self.scanner.finish();
        let ghost lv = last_events@;
        let mut more = handle_scan_events(
            last_events,
            &mut self.fallback_calls,
            &mut self.had_parse_error,
            &mut self.count,
        );
        let ghost more_v = more@;
        out.append(&mut more);
        proof {
            let sevs = choose|sevs: Seq<Seq<ScanEvent>>|
                routing_done(
                    s1.scanner().bytes(),
                    s1.scanner().cursor(),
                    fv,
                    sevs,
                    s2.scanner().bytes(),
                    s2.scanner().cursor(),
                    out1,
                    s2.fallback().skip(s1.fallback().len() as int),
                    s1.count(),
                    s2.count(),
                    s1.had_parse_error(),
                    s2.had_parse_error(),
                );
            let f0 = s0.fallback();
            let f1 = s2.fallback();
            let f2 = self.fallback();
            assert(f2.subrange(f0.len() as int, f1.len() as int) =~= f1.skip(f0.len() as int));
            assert(f2 =~= f0 + f2.skip(f0.len() as int));
            assert(out@ =~= out1 + more_v);
            assert(filter_fed(s0.filter(), Seq::empty(), s1.filter(), fv, true));
            let mb = s2.scanner().bytes();
            let mk = s2.scanner().cursor();
            assert(f0.len() <= f1.len() <= f2.len());
            assert(routing_done(
                s0.scanner().bytes(),
                s0.scanner().cursor(),
                fv,
                sevs,
                mb,
                mk,
                routed(fv, sevs),
                f2.subrange(f0.len() as int, f1.len() as int),
                s0.count(),
                s2.count(),
                s0.had_parse_error(),
                s2.had_parse_error(),
            ));
            assert(events_match(lv, scan_drain(mb, mk, true).0));
            assert(self.scanner().bytes() == mb);
            assert(self.scanner().cursor() == scan_drain(mb, mk, true).1);
            assert(out@ == routed(fv, sevs) + scan_texts(lv));
            assert(calls_made(f2.skip(f1.len() as int), parsed_calls(lv), s2.count()));
            assert(self.count() == count_after(s2.count(), parsed_calls(lv).len()));
            assert(self.had_parse_error() == (s2.had_parse_error() || parse_failed(lv)));
            assert(finish_done(s0, *self, out@, s1.filter(), fv, sevs, mb, mk, s2.count(), s2.had_parse_error(), f1.len() as int, lv));
        }
        out
    }

    /// The stream's state handed over once it has ended.
    pub fn into_result(self) -> (r: StreamResult)
        ensures
            call_views(r.native_tool_calls@) == self.native(),
            r.full_text@ == self.full_text(),
            call_views(r.fallback_calls@) == self.fallback(),
            r.had_parse_error == self.had_parse_error(),
            r.count == self.count(),
    {
        StreamResult {
            full_text: self.full_text,
            native_tool_calls: self.native_tool_calls,
            fallback_calls: self.fallback_calls,
            had_parse_error: self.had_parse_error,
            count: self.count,
        }
    }
}

/// What comes after a streamed response.
pub enum TurnStep {
    /// The model answered without tool calls: the turn is over.
    Done,
    /// A `tool_call` block did not parse: ask the model again.
    Retry,
    /// Run these tool calls, then ask the model again.
    RunTools(Vec<ToolCall>),
}

/// The message that asks the model to repeat a `tool_call` block that did
/// not parse.
pub open spec fn retry_prompt() -> Seq<char> {
    "Your tool_call block could not be parsed as JSON. Please retry with a single valid JSON object: {\"name\": \"...\", \"arguments\": {...}}"@
}

/// The calls to run: the native ones when there are any, else those read
/// from the text.
pub open spec fn chosen_calls(native: Seq<ToolCallView>, fallback: Seq<ToolCallView>) -> Seq<ToolCallView> {
    if native.len() > 0 {
        native
    } else {
        fallback
    }
}

/// Which calls a reply's step runs: the native calls when the provider made
/// any; otherwise exactly the calls read from `tool_call` blocks in the
/// text. So there is something to run exactly when either kind is there,
/// and a call written in the text protocol is run when no native call came.
pub proof fn lemma_chosen_calls(native: Seq<ToolCallView>, fallback: Seq<ToolCallView>)
    ensures
        native.len() > 0 ==> chosen_calls(native, fallback) == native,
        native.len() == 0 ==> chosen_calls(native, fallback) == fallback,
        chosen_calls(native, fallback).len() == 0 <==> native.len() == 0 && fallback.len() == 0,
{
}

/// Records the assistant's reply (thinking blocks stripped) with the calls
/// chosen, and says what comes next: run the calls; or, when there are
/// none, ask again after a `tool_call` block that did not parse; else done.
pub fn conclude_stream(messages: &mut Vec<Message>, result: StreamResult) -> (step: TurnStep)
    ensures
        ({
            let calls = chosen_calls(call_views(result.native_tool_calls@), call_views(result.fallback_calls@));
            let reply = MessageView {
                role: Role::Assistant,
                content: stripped_spec(result.full_text@),
                tool_calls: if calls.len() == 0 { None } else { Some(calls) },
                tool_call_id: None,
                tool_name: None,
            };
            let retry = MessageView {
                role: Role::User,
                content: retry_prompt(),
                tool_calls: None,
                tool_call_id: None,
                tool_name: None,
            };
            &&& message_views(final(messages)@) == if calls.len() == 0 && result.had_parse_error {
                message_views(old(messages)@).push(reply).push(retry)
            } else {
                message_views(old(messages)@).push(reply)
            }
            &&& match step {
                TurnStep::RunTools(c) => calls.len() > 0 && call_views(c@) == calls,
                TurnStep::Retry => calls.len() == 0 && result.had_parse_error,
                TurnStep::Done => calls.len() == 0 && !result.had_parse_error,
            }
        }),
{
    let StreamResult { full_text, native_tool_calls, fallback_calls, had_parse_error, count: _ } = result;
    let tool_calls = if native_tool_calls.len() > 0 {
        native_tool_calls
    } else {
        fallback_calls
    };
    let content = strip_thinking_tags(full_text.as_str());
    let ghost before = message_views(messages@);
    if tool_calls.len() == 0 {
        let reply = Message::assistant(content, None);
        messages.push(reply);
        if had_parse_error {
            let retry = Message::user(
                "Your tool_call block could not be parsed as JSON. Please retry with a single valid JSON object: {\"name\": \"...\", \"arguments\": {...}}".to_owned(),
            );
            let ghost mid = messages@;
            messages.push(retry);
            proof {
                assert(message_views(messages@) =~= before.push(reply@).push(retry@));
            }
            TurnStep::Retry
        } else {
            proof {
                assert(message_views(messages@) =~= before.push(reply@));
            }
            TurnStep::Done
        }
    } else {
        let reply = Message::assistant(content, Some(clone_calls(&tool_calls)));
        messages.push(reply);
        proof {
            assert(message_views(messages@) =~= before.push(reply@));
        }
        TurnStep::RunTools(tool_calls)
    }
}


/// The most model requests in one turn.
pub const MAX_ITERATIONS: u32 = 25;

/// The notice when a turn hits the limit.
pub open spec fn stop_notice_spec() -> Seq<char> {
    "Stopped after 25 tool-call iterations to avoid an infinite loop."@
}

pub fn stop_notice() -> (s: String)
    ensures
        s@ == stop_notice_spec(),
{
    "Stopped after 25 tool-call iterations to avoid an infinite loop.".to_owned()
}

/// The names of the tools defined.
pub open spec fn def_names(defs: Seq<ToolDefinition>) -> Seq<Seq<char>> {
    defs.map_values(|d: ToolDefinition| d.name@)
}

/// The items joined by `sep`.
pub fn join_names(defs: &Vec<ToolDefinition>, sep: &str) -> (s: String)
    ensures
        s@ == join(def_names(defs@), sep@),
{
    let mut s = String::new();
    let mut i: usize = 0;
    let ghost names = def_names(defs@);
    while i < defs.len()
        invariant
            names == def_names(defs@),
            i <= defs@.len(),
            s@ == join(names.take(i as int), sep@),
        decreases defs@.len() - i,
    {
        proof {
            assert(names.take(i + 1).drop_last() =~= names.take(i as int));
            assert(names.take(i + 1).last() == defs@[i as int].name@);
        }
        if i > 0 {
            s.append(sep);
        } else {
            assert(names.take(1)[0] == defs@[0].name@);
        }
        s.append(defs[i].name.as_str());
        i += 1;
    }
    proof {
        assert(names.take(defs@.len() as int) =~= names);
    }
    s
}

/// The answer to a call of a tool that does not exist.
pub open spec fn unknown_tool_message(name: Seq<char>, names: Seq<Seq<char>>) -> Seq<char> {
    "Unknown tool \""@ + name + "\". Available tools: "@ + join(names, ", "@)
}

/// Index of the first tool called `name`, or -1.
pub open spec fn find_tool_spec(defs: Seq<ToolDefinition>, name: Seq<char>) -> int
    decreases defs.len(),
{
    if defs.len() == 0 {
        -1
    } else if find_tool_spec(defs.drop_last(), name) >= 0 {
        find_tool_spec(defs.drop_last(), name)
    } else if defs.last().name@ == name {
        defs.len() - 1
    } else {
        -1
    }
}

/// Index of the first tool called `name`.
pub fn find_tool(defs: &Vec<ToolDefinition>, name: &str) -> (r: Option<usize>)
    ensures
        match r {
            Some(k) => find_tool_spec(defs@, name@) == k && k < defs@.len(),
            None => find_tool_spec(defs@, name@) == -1,
        },
{
    let name_s = name.to_owned();
    let mut i: usize = 0;
    while i < defs.len()
        invariant
            name_s@ == name@,
            i <= defs@.len(),
            find_tool_spec(defs@.take(i as int), name@) == -1,
        decreases defs@.len() - i,
    {
        proof {
            assert(defs@.take(i + 1).drop_last() =~= defs@.take(i as int));
        }
        if defs[i].name == name_s {
            proof {
                lemma_find_tool_prefix(defs@, i as int + 1, name@, i as int);
            }
            return Some(i);
        }
        i += 1;
    }
    proof {
        assert(defs@.take(defs@.len() as int) =~= defs@);
    }
    None
}

proof fn lemma_find_tool_prefix(defs: Seq<ToolDefinition>, n: int, name: Seq<char>, k: int)
    requires
        0 <= k < n <= defs.len(),
        find_tool_spec(defs.take(n), name) == k,
    ensures
        find_tool_spec(defs, name) == k,
    decreases defs.len() - n,
{
    if n < defs.len() {
        assert(defs.take(n + 1).drop_last() =~= defs.take(n));
        assert(find_tool_spec(defs.take(n + 1), name) == k);
        lemma_find_tool_prefix(defs, n + 1, name, k);
    } else {
        assert(defs.take(n) =~= defs);
    }
}

/// What to do with a tool call.
pub enum ToolPlan {
    /// No such tool: answer with this error text.
    Unknown(String),
    /// The tool changes files or runs commands: ask the user first.
    NeedsApproval,
    /// Run the tool.
    Run,
}

/// Unknown tools are answered with the list of tools; tools that change
/// files or run commands need the user's approval unless `auto_approve`.
pub fn plan_tool_call(defs: &Vec<ToolDefinition>, name: &str, auto_approve: bool) -> (p: ToolPlan)
    ensures
        ({
            let k = find_tool_spec(defs@, name@);
            match p {
                ToolPlan::Unknown(o) => k == -1 && o@ == unknown_tool_message(name@, def_names(defs@)),
                ToolPlan::NeedsApproval => k >= 0 && defs@[k].mutating && !auto_approve,
                ToolPlan::Run => k >= 0 && !(defs@[k].mutating && !auto_approve),
            }
        }),
{
    match find_tool(defs, name) {
        None => {
            let mut o = "Unknown tool \"".to_owned();
            o.append(name);
            o.append("\". Available tools: ");
            let names = join_names(defs, ", ");
            o.append(names.as_str());
            ToolPlan::Unknown(o)
        },
        Some(k) => {
            if defs[k].mutating && !auto_approve {
                ToolPlan::NeedsApproval
            } else {
                ToolPlan::Run
            }
        },
    }
}

/// The result when the user declines to run a tool.
pub fn declined_result() -> (r: ToolExecutionResult)
    ensures
        r.output@ == "User declined to run this tool."@,
        r.is_error,
{
    ToolExecutionResult { output: "User declined to run this tool.".to_owned(), is_error: true }
}

/// The tool-result messages for `calls`, answered with `outputs`.
pub open spec fn tool_results(calls: Seq<ToolCallView>, outputs: Seq<Seq<char>>) -> Seq<MessageView> {
    Seq::new(
        outputs.len(),
        |k: int|
            MessageView {
                role: Role::Tool,
                content: outputs[k],
                tool_calls: None,
                tool_call_id: Some(calls[k].id),
                tool_name: Some(calls[k].name),
            },
    )
}

/// A turn's conversation and progress: how many model requests were made,
/// and which of the current tool calls have been answered.
pub struct Turn {
    messages: Vec<Message>,
    iteration: u32,
    pending: Vec<ToolCall>,
    next_tool: usize,
    round_base: Ghost<Seq<MessageView>>,
    outputs: Ghost<Seq<Seq<char>>>,
}

impl Turn {
    pub closed spec fn messages_view(&self) -> Seq<MessageView> {
        message_views(self.messages@)
    }

    pub closed spec fn iterations(&self) -> nat {
        self.iteration as nat
    }

    /// The tool calls of the current round.
    pub closed spec fn pending(&self) -> Seq<ToolCallView> {
        call_views(self.pending@)
    }

    /// How many of them have been answered.
    pub closed spec fn answered(&self) -> nat {
        self.next_tool as nat
    }

    /// The conversation when the current round's tool calls were chosen.
    pub closed spec fn round_base(&self) -> Seq<MessageView> {
        self.round_base@
    }

    /// The answers given so far to the current round's calls.
    pub closed spec fn outputs(&self) -> Seq<Seq<char>> {
        self.outputs@
    }

    pub closed spec fn wf(&self) -> bool {
        &&& self.iteration <= MAX_ITERATIONS
        &&& self.next_tool <= self.pending@.len()
        &&& self.outputs@.len() == self.next_tool
        &&& message_views(self.messages@) == self.round_base@ + tool_results(
            call_views(self.pending@),
            self.outputs@,
        )
    }

    pub fn new(messages: Vec<Message>) -> (t: Self)
        ensures
            t.wf(),
            t.messages_view() == message_views(messages@),
            t.iterations() == 0,
            t.pending().len() == 0,
    {
        let ghost base = message_views(messages@);
        let t = Turn {
            messages,
            iteration: 0,
            pending: Vec::new(),
            next_tool: 0,
            round_base: Ghost(base),
            outputs: Ghost(Seq::empty()),
        };
        assert(tool_results(call_views(t.pending@), Seq::empty()) =~= Seq::<MessageView>::empty());
        assert(base + Seq::<MessageView>::empty() =~= base);
        assert(call_views(t.pending@) =~= Seq::<ToolCallView>::empty());
        t
    }

    /// Starts another model request, unless the turn has made as many as
    /// it may.
    pub fn begin_iteration(&mut self) -> (r: bool)
        requires
            old(self).wf(),
        ensures
            final(self).wf(),
            r == (old(self).iterations() < MAX_ITERATIONS),
            final(self).iterations() == if r {
                old(self).iterations() + 1
            } else {
                old(self).iterations()
            },
            final(self).messages_view() == old(self).messages_view(),
            final(self).pending() == old(self).pending(),
            final(self).answered() == old(self).answered(),
    {
        if self.iteration < MAX_ITERATIONS {
            self.iteration = self.iteration + 1;
            true
        } else {
            false
        }
    }

    /// Records the model's reply (see `conclude_stream`); when it calls
    /// tools, they become the current round's calls, none answered yet.
    pub fn conclude(&mut self, result: StreamResult) -> (step: TurnStep)
        requires
            old(self).wf(),
        ensures
            final(self).wf(),
            final(self).iterations() == old(self).iterations(),
            ({
                let calls = chosen_calls(call_views(result.native_tool_calls@), call_views(result.fallback_calls@));
                let reply = MessageView {
                    role: Role::Assistant,
                    content: stripped_spec(result.full_text@),
                    tool_calls: if calls.len() == 0 { None } else { Some(calls) },
                    tool_call_id: None,
                    tool_name: None,
                };
                let retry = MessageView {
                    role: Role::User,
                    content: retry_prompt(),
                    tool_calls: None,
                    tool_call_id: None,
                    tool_name: None,
                };
                &&& final(self).messages_view() == if calls.len() == 0 && result.had_parse_error {
                    old(self).messages_view().push(reply).push(retry)
                } else {
                    old(self).messages_view().push(reply)
                }
                &&& final(self).pending() == calls
                &&& final(self).answered() == 0
                &&& final(self).round_base() == final(self).messages_view()
                &&& match step {
                    TurnStep::RunTools(c) => calls.len() > 0 && call_views(c@) == calls,
                    TurnStep::Retry => calls.len() == 0 && result.had_parse_error,
                    TurnStep::Done => calls.len() == 0 && !result.had_parse_error,
                }
            }),
    {
        let step = conclude_stream(&mut self.messages, result);
        let ghost now = message_views(self.messages@);
        match &step {
            TurnStep::RunTools(calls) => {
                self.pending = clone_calls(calls);
            },
            _ => {
                self.pending = Vec::new();
                proof {
                    assert(call_views(self.pending@) =~= Seq::<ToolCallView>::empty());
                }
            },
        }
        self.next_tool = 0;
        self.round_base = Ghost(now);
        self.outputs = Ghost(Seq::empty());
        proof {
            assert(tool_results(call_views(self.pending@), Seq::empty()) =~= Seq::<MessageView>::empty());
            assert(now + Seq::<MessageView>::empty() =~= now);
        }
        step
    }

    /// The next tool call to answer, if any is left.
    pub fn next_call(&self) -> (c: Option<ToolCall>)
        requires
            self.wf(),
        ensures
            match c {
                Some(call) => self.answered() < self.pending().len() && call@ == self.pending()[self.answered() as int],
                None => self.answered() == self.pending().len(),
            },
    {
        if self.next_tool < self.pending.len() {
            let c = &self.pending[self.next_tool];
            Some(ToolCall { id: c.id.clone(), name: c.name.clone(), arguments: c.arguments.clone() })
        } else {
            None
        }
    }

    /// Answers the next tool call with `output`.
    pub fn record_result(&mut self, output: String)
        requires
            old(self).wf(),
            old(self).answered() < old(self).pending().len(),
        ensures
            final(self).wf(),
            final(self).answered() == old(self).answered() + 1,
            final(self).outputs() == old(self).outputs().push(output@),
            final(self).pending() == old(self).pending(),
            final(self).round_base() == old(self).round_base(),
            final(self).iterations() == old(self).iterations(),
            final(self).messages_view() == old(self).messages_view().push(
                MessageView {
                    role: Role::Tool,
                    content: output@,
                    tool_calls: None,
                    tool_call_id: Some(old(self).pending()[old(self).answered() as int].id),
                    tool_name: Some(old(self).pending()[old(self).answered() as int].name),
                },
            ),
    {
        let ghost before = message_views(self.messages@);
        let ghost out_v = output@;
        let n = self.pending.len();
        assert(self.next_tool < n);
        let c = &self.pending[self.next_tool];
        let m = Message::tool_result(output, c.id.clone(), c.name.clone());
        self.messages.push(m);
        proof {
            let calls = call_views(self.pending@);
            let new_outputs = self.outputs@.push(out_v);
            assert(tool_results(calls, new_outputs) =~= tool_results(calls, self.outputs@).push(m@));
            assert(message_views(self.messages@) =~= before.push(m@));
        }
        self.next_tool = self.next_tool + 1;
        self.outputs = Ghost(self.outputs@.push(out_v));
    }

    /// The conversation so far.
    pub fn messages(&self) -> (m: &Vec<Message>)
        ensures
            message_views(m@) == self.messages_view(),
    {
        &self.messages
    }

    /// The conversation, handed over at the end of the turn.
    pub fn into_messages(self) -> (m: Vec<Message>)
        ensures
            message_views(m@) == self.messages_view(),
    {
        self.messages
    }

    /// Ends the turn after a request or its reply stream failed with the
    /// error text `error`: the notice to show, and the conversation as it
    /// stands, to keep.
    pub fn fail(self, error: &str) -> (r: (String, Vec<Message>))
        ensures
            r.0@ == failure_notice(error@),
            message_views(r.1@) == self.messages_view(),
    {
        (crate::text::concat2("Error: ", error), self.messages)
    }
}

/// The notice for a failed request or reply stream with the error text
/// `error`.
pub open spec fn failure_notice(error: Seq<char>) -> Seq<char> {
    "Error: "@ + error
}

/// Every answered tool call has exactly one result message, in the order of
/// the calls, linked to its call by id and name, after the message that made
/// the calls; a turn never makes more than `MAX_ITERATIONS` model requests.
pub proof fn lemma_turn_laws(t: Turn)
    requires
        t.wf(),
    ensures
        t.iterations() <= MAX_ITERATIONS,
        t.messages_view().len() == t.round_base().len() + t.answered(),
        t.messages_view().take(t.round_base().len() as int) == t.round_base(),
        forall|k: int|
            0 <= k < t.answered() ==> {
                let m = #[trigger] t.messages_view()[t.round_base().len() + k];
                &&& m.role == Role::Tool
                &&& m.tool_call_id == Some(t.pending()[k].id)
                &&& m.tool_name == Some(t.pending()[k].name)
                &&& m.content == t.outputs()[k]
            },
{
    let r = tool_results(t.pending(), t.outputs());
    assert(t.messages_view().take(t.round_base().len() as int) =~= t.round_base());
    assert forall|k: int| 0 <= k < t.answered() implies {
        let m = #[trigger] t.messages_view()[t.round_base().len() + k];
        &&& m.role == Role::Tool
        &&& m.tool_call_id == Some(t.pending()[k].id)
        &&& m.tool_name == Some(t.pending()[k].name)
        &&& m.content == t.outputs()[k]
    } by {
        assert(t.messages_view()[t.round_base().len() + k] == r[k]);
    }
}

} // verus!
