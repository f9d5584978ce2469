//! Some local reasoning models emit their chain-of-thought inline as
//! `<think>...</think>` before the real answer. This strips those tags from the
//! text stream, so raw markup never leaks into the UI; callers can still choose
//! to render "thinking" text dimmed.

use vstd::prelude::*;
use vstd::string::{StringSliceAdditionalSpecFns, StringExecFns};
use vstd::utf8::*;
use crate::agent::stream_util::floor_char_boundary;
use crate::pattern::{compile, regex_error, regex_replace_all_spec, replace_all};
use crate::text::{
    boundary, find_bytes, find_from, floor_boundary, lemma_after_ascii, lemma_boundary_append,
    lemma_boundary_iff, lemma_boundary_shift, lemma_find_from, lemma_find_from_unique,
    lemma_floor_boundary, lemma_matches_at_extend, lemma_matches_at_skip, lemma_utf8_concat,
    matches_at, trim, trim_spec, utf8, tag_bytes, tagged, lemma_tag_bytes_concat, lemma_tagged_concat, concat_all,
    lemma_no_match_in_prefix, chunk_bytes, concat_texts, lemma_chunk_bytes,
};

verus! {

broadcast use vstd::utf8::encode_utf8_valid_utf8;

#[derive(Debug, Clone)]
pub enum FilterEvent {
    Thinking(String),
    Text(String),
}

impl FilterEvent {
    /// Whether the event is thinking text, and the UTF-8 bytes of its text.
    pub open spec fn model(self) -> (bool, Seq<u8>) {
        match self {
            FilterEvent::Thinking(s) => (true, utf8(s@)),
            FilterEvent::Text(s) => (false, utf8(s@)),
        }
    }
}

pub open spec fn filter_models(evs: Seq<FilterEvent>) -> Seq<(bool, Seq<u8>)> {
    evs.map_values(|e: FilterEvent| e.model())
}

/// `<think>`
pub open spec fn think_open() -> Seq<u8> {
    seq![60u8, 116u8, 104u8, 105u8, 110u8, 107u8, 62u8]
}

/// `</think>`
pub open spec fn think_close() -> Seq<u8> {
    seq![60u8, 47u8, 116u8, 104u8, 105u8, 110u8, 107u8, 62u8]
}

/// The marker that ends the current mode: `</think>` inside a thinking block,
/// `<think>` outside.
pub open spec fn think_marker(thinking: bool) -> Seq<u8> {
    if thinking {
        think_close()
    } else {
        think_open()
    }
}

/// A one-event sequence, or nothing for empty text.
pub open spec fn emit<K>(kind: K, s: Seq<u8>) -> Seq<(K, Seq<u8>)> {
    if s.len() > 0 {
        seq![(kind, s)]
    } else {
        seq![]
    }
}

/// Bytes kept back at the end of the buffer while more input may come: one
/// less than the marker, so that a marker split across chunks is not emitted
/// as text.
pub open spec fn hold_back(len: int, marker_len: int, last: bool) -> int {
    if last {
        0
    } else if len < marker_len - 1 {
        len
    } else {
        marker_len - 1
    }
}

/// What draining the buffer `b` from byte `c` in mode `thinking` emits, and
/// the cursor and mode it leaves. `last` is set by `finish`, when nothing is
/// held back.
#[verifier::opaque]
pub open spec fn filter_drain(b: Seq<u8>, c: int, thinking: bool, last: bool) -> (
    Seq<(bool, Seq<u8>)>,
    int,
    bool,
)
    decreases b.len() - c,
{
    if c < 0 || c > b.len() {
        (seq![], c, thinking)
    } else {
        let m = think_marker(thinking);
        let r = b.subrange(c, b.len() as int);
        match find_from(r, m, 0) {
            Some(i) => {
                proof {
                    lemma_find_from(r, m, 0);
                }
                let next = filter_drain(b, c + i + m.len(), !thinking, last);
                (emit(thinking, r.subrange(0, i)) + next.0, next.1, next.2)
            },
            None => {
                let e = floor_boundary(r, r.len() - hold_back(r.len() as int, m.len() as int, last));
                (emit(thinking, r.subrange(0, e)), c + e, thinking)
            },
        }
    }
}

/// One step of `filter_drain` when the marker is found at `i`.
pub proof fn lemma_filter_drain_found(b: Seq<u8>, c: int, t: bool, last: bool, i: int)
    requires
        0 <= c <= b.len(),
        find_from(b.subrange(c, b.len() as int), think_marker(t), 0) == Some(i),
    ensures
        0 <= i,
        c + i + think_marker(t).len() <= b.len(),
        filter_drain(b, c, t, last) == ({
            let next = filter_drain(b, c + i + think_marker(t).len(), !t, last);
            (emit(t, b.subrange(c, b.len() as int).subrange(0, i)) + next.0, next.1, next.2)
        }),
{
    reveal(filter_drain);
    lemma_find_from(b.subrange(c, b.len() as int), think_marker(t), 0);
}

/// The last step of `filter_drain`, when no marker is found.
pub proof fn lemma_filter_drain_none(b: Seq<u8>, c: int, t: bool, last: bool)
    requires
        0 <= c <= b.len(),
        find_from(b.subrange(c, b.len() as int), think_marker(t), 0) is None,
    ensures
        filter_drain(b, c, t, last) == ({
            let r = b.subrange(c, b.len() as int);
            let e = floor_boundary(r, r.len() - hold_back(r.len() as int, think_marker(t).len() as int, last));
            (emit(t, r.subrange(0, e)), c + e, t)
        }),
{
    reveal(filter_drain);
}

/// Where a marker is found, both of its ends are character boundaries.
proof fn lemma_marker_boundaries(b: Seq<u8>, c: int, m: Seq<u8>, idx: int)
    requires
        valid_utf8(b),
        0 <= c <= b.len(),
        boundary(b, c),
        m.len() > 0,
        m[0] < 0x80,
        m[m.len() - 1] < 0x80,
        matches_at(b.subrange(c, b.len() as int), m, idx),
    ensures
        boundary(b.subrange(c, b.len() as int), idx),
        boundary(b, c + idx + m.len()),
{
    let r = b.subrange(c, b.len() as int);
    lemma_boundary_iff(b, c);
    vstd::utf8::valid_utf8_split(b, c);
    assert(r.subrange(idx, idx + m.len()) == m);
    assert(r[idx] == r.subrange(idx, idx + m.len())[0]);
    let end = idx + m.len();
    assert(r[end - 1] == r.subrange(idx, idx + m.len())[m.len() - 1]);
    if end < r.len() {
        lemma_after_ascii(r, end - 1);
    }
    lemma_boundary_shift(b, c, end);
}

pub proof fn lemma_tagged_emit<K>(kind: K, s: Seq<u8>)
    ensures
        tagged(emit(kind, s)) == tag_bytes(kind, s),
{
    if s.len() > 0 {
        let e = emit(kind, s);
        assert(e.len() == 1);
        assert(e.drop_last() =~= Seq::<(K, Seq<u8>)>::empty());
        assert(tagged(e.drop_last()) == Seq::<(K, u8)>::empty());
        assert(e.last() == (kind, s));
        assert(Seq::<(K, u8)>::empty() + tag_bytes(kind, s) =~= tag_bytes(kind, s));
    } else {
        assert(tag_bytes(kind, s) =~= Seq::<(K, u8)>::empty());
    }
}

/// Draining never moves the cursor back or past the end.
pub proof fn lemma_filter_drain_bounds(b: Seq<u8>, c: int, t: bool, last: bool)
    requires
        0 <= c <= b.len(),
    ensures
        c <= filter_drain(b, c, t, last).1 <= b.len(),
        last ==> filter_drain(b, c, t, last).1 == b.len(),
    decreases b.len() - c,
{
    let r = b.subrange(c, b.len() as int);
    let m = think_marker(t);
    match find_from(r, m, 0) {
        Some(i) => {
            lemma_filter_drain_found(b, c, t, last, i);
            lemma_filter_drain_bounds(b, c + i + m.len(), !t, last);
        },
        None => {
            lemma_filter_drain_none(b, c, t, last);
            lemma_floor_boundary(r, r.len() - hold_back(r.len() as int, m.len() as int, last));
        },
    }
}

/// Each event is non-empty and holds no marker that would end its kind:
/// no thinking text holds `</think>` and no other text holds `<think>`.
pub open spec fn clean_events(evs: Seq<(bool, Seq<u8>)>) -> bool {
    forall|k: int|
        0 <= k < evs.len() ==> (#[trigger] evs[k]).1.len() > 0 && find_from(evs[k].1, think_marker(evs[k].0), 0) is None
}

/// The filter's events are clean: whatever has been fed, `feed` and
/// `finish` (whose events are those of `filter_drain`) never emit an empty
/// text, thinking text holding `</think>`, or other text holding `<think>`
/// (in UTF-8 bytes): the markup does not leak into the stream.
pub proof fn lemma_filter_events_clean(b: Seq<u8>, c: int, t: bool, last: bool)
    requires
        0 <= c <= b.len(),
    ensures
        clean_events(filter_drain(b, c, t, last).0),
    decreases b.len() - c,
{
    let r = b.subrange(c, b.len() as int);
    let m = think_marker(t);
    lemma_find_from(r, m, 0);
    match find_from(r, m, 0) {
        Some(i) => {
            lemma_filter_drain_found(b, c, t, last, i);
            lemma_filter_drain_bounds(b, c + i + m.len(), !t, last);
            lemma_filter_events_clean(b, c + i + m.len(), !t, last);
            lemma_no_match_in_prefix(r, m, i);
            let head = emit(t, r.subrange(0, i));
            let next = filter_drain(b, c + i + m.len(), !t, last).0;
            assert forall|k: int| 0 <= k < (head + next).len() implies (#[trigger] (head + next)[k]).1.len() > 0
                && find_from((head + next)[k].1, think_marker((head + next)[k].0), 0) is None by {
                if k >= head.len() {
                    assert((head + next)[k] == next[k - head.len()]);
                }
            }
        },
        None => {
            lemma_filter_drain_none(b, c, t, last);
            let e = floor_boundary(r, r.len() - hold_back(r.len() as int, m.len() as int, last));
            lemma_floor_boundary(r, r.len() - hold_back(r.len() as int, m.len() as int, last));
            lemma_no_match_in_prefix(r, m, e);
        },
    }
}

/// `lemma_filter_drain_extend` where no marker is left in `b` past `c`.
proof fn lemma_filter_drain_extend_last(b: Seq<u8>, x: Seq<u8>, c: int, t: bool)
    requires
        0 <= c <= b.len(),
        find_from(b.subrange(c, b.len() as int), think_marker(t), 0) is None,
    ensures
        ({
            let d = filter_drain(b, c, t, false);
            tagged(filter_drain(b + x, c, t, true).0) == tagged(d.0) + tagged(
                filter_drain(b + x, d.1, d.2, true).0,
            )
        }),
{
    let m = think_marker(t);
    let r = b.subrange(c, b.len() as int);
    let bx = b + x;
    let rx = bx.subrange(c, bx.len() as int);
    assert(rx =~= r + x);
    lemma_find_from(r, m, 0);
    lemma_filter_drain_none(b, c, t, false);
    let hold = hold_back(r.len() as int, m.len() as int, false);
    let e = floor_boundary(r, r.len() - hold);
    lemma_floor_boundary(r, r.len() - hold);
    let r2 = bx.subrange(c + e, bx.len() as int);
    assert(r2 =~= rx.subrange(e, rx.len() as int));
    assert forall|j: int| 0 <= j implies matches_at(r2, m, j) == matches_at(rx, m, e + j) by {
        lemma_matches_at_skip(rx, m, e, j);
    }
    lemma_find_from(rx, m, 0);
    lemma_tagged_emit(t, r.subrange(0, e));
    match find_from(rx, m, 0) {
        Some(p) => {
            if p + m.len() <= r.len() {
                lemma_matches_at_extend(r, x, m, p);
            }
            assert(e <= p);
            lemma_find_from_unique(r2, m, 0, Some(p - e));
            lemma_filter_drain_found(bx, c, t, true, p);
            lemma_filter_drain_found(bx, c + e, t, true, p - e);
            assert(rx.subrange(0, p) =~= r.subrange(0, e) + r2.subrange(0, p - e));
            lemma_tag_bytes_concat(t, r.subrange(0, e), r2.subrange(0, p - e));
            lemma_tagged_emit(t, rx.subrange(0, p));
            lemma_tagged_emit(t, r2.subrange(0, p - e));
            let rest = filter_drain(bx, c + p + m.len(), !t, true);
            lemma_tagged_concat(emit(t, rx.subrange(0, p)), rest.0);
            lemma_tagged_concat(emit(t, r2.subrange(0, p - e)), rest.0);
            assert(tag_bytes(t, r.subrange(0, e)) + tag_bytes(t, r2.subrange(0, p - e)) + tagged(rest.0)
                =~= tag_bytes(t, r.subrange(0, e)) + (tag_bytes(t, r2.subrange(0, p - e)) + tagged(rest.0)));
        },
        None => {
            lemma_find_from_unique(r2, m, 0, None);
            lemma_filter_drain_none(bx, c, t, true);
            lemma_filter_drain_none(bx, c + e, t, true);
            assert(rx.subrange(0, rx.len() as int) =~= rx);
            assert(r2.subrange(0, r2.len() as int) =~= r2);
            assert(rx =~= r.subrange(0, e) + r2);
            lemma_tag_bytes_concat(t, r.subrange(0, e), r2);
            lemma_tagged_emit(t, rx);
            lemma_tagged_emit(t, r2);
        },
    }
}

/// A non-final drain of `b` agrees with the final drain of any extension of
/// `b`: what it emits is a prefix of what the extension's drain emits, and
/// the rest is what draining the extension from its end state emits.
pub proof fn lemma_filter_drain_extend(b: Seq<u8>, x: Seq<u8>, c: int, t: bool)
    requires
        0 <= c <= b.len(),
    ensures
        ({
            let d = filter_drain(b, c, t, false);
            tagged(filter_drain(b + x, c, t, true).0) == tagged(d.0) + tagged(
                filter_drain(b + x, d.1, d.2, true).0,
            )
        }),
    decreases b.len() - c,
{
    let m = think_marker(t);
    let r = b.subrange(c, b.len() as int);
    let bx = b + x;
    let rx = bx.subrange(c, bx.len() as int);
    assert(rx =~= r + x);
    lemma_find_from(r, m, 0);
    match find_from(r, m, 0) {
        Some(i) => {
            lemma_filter_drain_found(b, c, t, false, i);
            assert forall|j: int| 0 <= j <= i implies matches_at(rx, m, j) == matches_at(r, m, j) by {
                lemma_matches_at_extend(r, x, m, j);
            }
            lemma_find_from_unique(rx, m, 0, Some(i));
            lemma_filter_drain_found(bx, c, t, true, i);
            assert(rx.subrange(0, i) =~= r.subrange(0, i));
            lemma_filter_drain_extend(b, x, c + i + m.len(), !t);
            let next = filter_drain(b, c + i + m.len(), !t, false);
            let nextx = filter_drain(bx, c + i + m.len(), !t, true);
            lemma_tagged_concat(emit(t, r.subrange(0, i)), nextx.0);
            lemma_tagged_concat(emit(t, r.subrange(0, i)), next.0);
            let a = tagged(emit(t, r.subrange(0, i)));
            let z = tagged(filter_drain(bx, next.1, next.2, true).0);
            assert(a + tagged(next.0) + z =~= a + (tagged(next.0) + z));
        },
        None => {
            lemma_filter_drain_extend_last(b, x, c, t);
        },
    }
}

/// The state after feeding `chunks` one by one to a new filter: the bytes
/// fed, the cursor, the mode, and every event emitted so far.
pub open spec fn filter_feed_all(chunks: Seq<Seq<u8>>) -> (Seq<u8>, int, bool, Seq<(bool, Seq<u8>)>)
    decreases chunks.len(),
{
    if chunks.len() == 0 {
        (seq![], 0, false, seq![])
    } else {
        let prev = filter_feed_all(chunks.drop_last());
        let b = prev.0 + chunks.last();
        let d = filter_drain(b, prev.1, prev.2, false);
        (b, d.1, d.2, prev.3 + d.0)
    }
}

/// Every event of feeding `chunks` one by one to a new filter, then finishing.
pub open spec fn filter_stream(chunks: Seq<Seq<u8>>) -> Seq<(bool, Seq<u8>)> {
    let s = filter_feed_all(chunks);
    s.3 + filter_drain(s.0, s.1, s.2, true).0
}

proof fn lemma_filter_feed_all_bounds(chunks: Seq<Seq<u8>>)
    ensures
        filter_feed_all(chunks).0 == concat_all(chunks),
        0 <= filter_feed_all(chunks).1 <= filter_feed_all(chunks).0.len(),
    decreases chunks.len(),
{
    if chunks.len() > 0 {
        let prev = filter_feed_all(chunks.drop_last());
        lemma_filter_feed_all_bounds(chunks.drop_last());
        lemma_filter_drain_bounds(prev.0 + chunks.last(), prev.1, prev.2, false);
    }
}

proof fn lemma_filter_stream_prefix(chunks: Seq<Seq<u8>>, x: Seq<u8>)
    ensures
        ({
            let s = filter_feed_all(chunks);
            tagged(s.3) + tagged(filter_drain(s.0 + x, s.1, s.2, true).0) == tagged(
                filter_drain(concat_all(chunks) + x, 0, false, true).0,
            )
        }),
    decreases chunks.len(),
{
    if chunks.len() == 0 {
        assert(Seq::<u8>::empty() + x =~= x);
        assert(tagged(Seq::<(bool, Seq<u8>)>::empty()) =~= Seq::<(bool, u8)>::empty());
        let y = tagged(filter_drain(x, 0, false, true).0);
        assert(Seq::<(bool, u8)>::empty() + y =~= y);
    } else {
        let pre = chunks.drop_last();
        let ch = chunks.last();
        let sp = filter_feed_all(pre);
        lemma_filter_feed_all_bounds(pre);
        lemma_filter_stream_prefix(pre, ch + x);
        let b = sp.0 + ch;
        let d = filter_drain(b, sp.1, sp.2, false);
        lemma_filter_drain_extend(b, x, sp.1, sp.2);
        assert(b + x =~= sp.0 + (ch + x));
        assert(concat_all(chunks) + x =~= concat_all(pre) + (ch + x));
        lemma_tagged_concat(sp.3, d.0);
        let tail = tagged(filter_drain(b + x, d.1, d.2, true).0);
        assert(tagged(sp.3) + tagged(d.0) + tail =~= tagged(sp.3) + (tagged(d.0) + tail));
    }
}

/// Chunking does not matter: feeding a text in any chunks and then finishing
/// gives, byte by byte and kind by kind, what feeding it all at once gives.
pub proof fn lemma_filter_chunking(chunks: Seq<Seq<u8>>)
    ensures
        tagged(filter_stream(chunks)) == tagged(
            filter_drain(concat_all(chunks), 0, false, true).0,
        ),
{
    let s = filter_feed_all(chunks);
    lemma_filter_stream_prefix(chunks, seq![]);
    assert(s.0 + Seq::<u8>::empty() =~= s.0);
    assert(concat_all(chunks) + Seq::<u8>::empty() =~= concat_all(chunks));
    lemma_tagged_concat(s.3, filter_drain(s.0, s.1, s.2, true).0);
}

/// The text `b` cut into its spans, starting in mode `t`: outside a
/// thinking block, the text up to the next `<think>` is text; inside, the
/// text up to the next `</think>` is thinking; the markers themselves are
/// dropped, and a block left open runs to the end. Empty pieces are left out.
pub open spec fn think_spans(b: Seq<u8>, t: bool) -> Seq<(bool, Seq<u8>)>
    decreases b.len(),
{
    let m = think_marker(t);
    match find_from(b, m, 0) {
        Some(i) => {
            proof {
                lemma_find_from(b, m, 0);
            }
            emit(t, b.subrange(0, i)) + think_spans(b.subrange(i + m.len(), b.len() as int), !t)
        },
        None => emit(t, b),
    }
}

proof fn lemma_filter_spans(b: Seq<u8>, c: int, t: bool)
    requires
        0 <= c <= b.len(),
    ensures
        filter_drain(b, c, t, true).0 == think_spans(b.subrange(c, b.len() as int), t),
    decreases b.len() - c,
{
    let r = b.subrange(c, b.len() as int);
    let m = think_marker(t);
    match find_from(r, m, 0) {
        Some(i) => {
            lemma_filter_drain_found(b, c, t, true, i);
            lemma_filter_spans(b, c + i + m.len(), !t);
            assert(b.subrange(c + i + m.len(), b.len() as int) =~= r.subrange(i + m.len(), r.len() as int));
        },
        None => {
            lemma_filter_drain_none(b, c, t, true);
            assert(r.subrange(0, r.len() as int) =~= r);
        },
    }
}

/// What the filter does, for any split of a text into chunks: feeding the
/// chunks to a new filter and finishing gives, kind by kind and byte by
/// byte, the text's spans (`think_spans`): the text outside thinking blocks
/// as text, their insides as thinking, the markers dropped.
pub proof fn lemma_filter_spans_law(chunks: Seq<Seq<u8>>)
    ensures
        tagged(filter_stream(chunks)) == tagged(think_spans(concat_all(chunks), false)),
{
    let b = concat_all(chunks);
    lemma_filter_chunking(chunks);
    lemma_filter_spans(b, 0, false);
    assert(b.subrange(0, b.len() as int) =~= b);
}

/// The spans law for a text cut into `&str` chunks: feeding the chunks
/// (by their UTF-8 bytes, as `feed` takes them) and finishing gives the
/// spans of the whole text, however it was cut.
pub proof fn lemma_filter_spans_text_chunks(chunks: Seq<Seq<char>>)
    ensures
        tagged(filter_stream(chunk_bytes(chunks))) == tagged(think_spans(utf8(concat_texts(chunks)), false)),
{
    lemma_filter_spans_law(chunk_bytes(chunks));
    lemma_chunk_bytes(chunks);
}

fn open_marker() -> (m: Vec<u8>)
    ensures
        m@ == think_open(),
{
    let m = vec![60u8, 116u8, 104u8, 105u8, 110u8, 107u8, 62u8];
    assert(m@ =~= think_open());
    m
}

fn close_marker() -> (m: Vec<u8>)
    ensures
        m@ == think_close(),
{
    let m = vec![60u8, 47u8, 116u8, 104u8, 105u8, 110u8, 107u8, 62u8];
    assert(m@ =~= think_close());
    m
}

pub struct ThinkingTagFilter {
    buffer: String,
    cursor: usize,
    in_thinking: bool,
}

impl ThinkingTagFilter {
    /// Every byte fed so far.
    pub closed spec fn bytes(&self) -> Seq<u8> {
        utf8(self.buffer@)
    }

    /// Bytes before this offset have been emitted (or consumed as markers).
    pub closed spec fn cursor(&self) -> int {
        self.cursor as int
    }

    /// Inside a `<think>` block.
    pub closed spec fn thinking(&self) -> bool {
        self.in_thinking
    }

    pub closed spec fn wf(&self) -> bool {
        &&& self.cursor <= self.bytes().len()
        &&& boundary(self.bytes(), self.cursor as int)
    }

    /// A well-formed filter's cursor lies within the bytes fed, on a
    /// character boundary.
    pub proof fn lemma_wf_bounds(self)
        requires
            self.wf(),
        ensures
            0 <= self.cursor() <= self.bytes().len(),
            boundary(self.bytes(), self.cursor()),
    {
    }

    /// Whatever a well-formed filter has been fed, what `feed(chunk)` emits
    /// next and what `finish` emits are clean (see `clean_events`): no
    /// empty text, no thinking text holding `</think>`, no other text
    /// holding `<think>`.
    pub proof fn lemma_emits_clean(self, chunk: Seq<char>)
        requires
            self.wf(),
        ensures
            clean_events(filter_drain(self.bytes() + utf8(chunk), self.cursor(), self.thinking(), false).0),
            clean_events(filter_drain(self.bytes(), self.cursor(), self.thinking(), true).0),
    {
        lemma_filter_events_clean(self.bytes() + utf8(chunk), self.cursor(), self.thinking(), false);
        lemma_filter_events_clean(self.bytes(), self.cursor(), self.thinking(), true);
    }

    pub fn new() -> (f: Self)
        ensures
            f.wf(),
            f.bytes() == Seq::<u8>::empty(),
            f.cursor() == 0,
            !f.thinking(),
    {
        ThinkingTagFilter { buffer: String::new(), cursor: 0, in_thinking: false }
    }

    /// Appends `chunk` and emits what can be classified for certain.
    pub fn feed(&mut self, chunk: &str) -> (evs: Vec<FilterEvent>)
        requires
            old(self).wf(),
        ensures
            final(self).wf(),
            final(self).bytes() == old(self).bytes() + utf8(chunk@),
            ({
                let d = filter_drain(
                    old(self).bytes() + utf8(chunk@),
                    old(self).cursor(),
                    old(self).thinking(),
                    false,
                );
                &&& filter_models(evs@) == d.0
                &&& final(self).cursor() == d.1
                &&& final(self).thinking() == d.2
            }),
    {
        proof {
            lemma_utf8_concat(self.buffer@, chunk@);
            lemma_boundary_append(self.bytes(), utf8(chunk@), self.cursor as int);
        }
        self.buffer.append(chunk);
        self.drain(false)
    }

    /// Emits everything left, holding nothing back.
    pub fn finish(&mut self) -> (evs: Vec<FilterEvent>)
        requires
            old(self).wf(),
        ensures
            final(self).wf(),
            final(self).bytes() == old(self).bytes(),
            ({
                let d = filter_drain(old(self).bytes(), old(self).cursor(), old(self).thinking(), true);
                &&& filter_models(evs@) == d.0
                &&& final(self).cursor() == d.1
                &&& final(self).thinking() == d.2
            }),
    {
        self.drain(true)
    }

    fn drain(&mut self, last: bool) -> (evs: Vec<FilterEvent>)
        requires
            old(self).wf(),
        ensures
            final(self).wf(),
            final(self).bytes() == old(self).bytes(),
            ({
                let d = filter_drain(old(self).bytes(), old(self).cursor(), old(self).thinking(), last);
                &&& filter_models(evs@) == d.0
                &&& final(self).cursor() == d.1
                &&& final(self).thinking() == d.2
            }),
    {
        let mut events: Vec<FilterEvent> = Vec::new();
        let ghost b = self.bytes();
        let ghost goal = filter_drain(b, self.cursor as int, self.in_thinking, last);
        loop
            invariant
                self.wf(),
                self.bytes() == b,
                b == old(self).bytes(),
                goal == filter_drain(old(self).bytes(), old(self).cursor(), old(self).thinking(), last),
                filter_models(events@) + filter_drain(b, self.cursor as int, self.in_thinking, last).0
                    == goal.0,
                filter_drain(b, self.cursor as int, self.in_thinking, last).1 == goal.1,
                filter_drain(b, self.cursor as int, self.in_thinking, last).2 == goal.2,
            decreases b.len() - self.cursor,
        {
            let marker = if self.in_thinking {
                close_marker()
            } else {
                open_marker()
            };
            let ghost c = self.cursor as int;
            let ghost t = self.in_thinking;
            let ghost m = think_marker(t);
            let whole = self.buffer.as_str();
            let total = whole.as_bytes().len();
            proof {
                lemma_boundary_iff(b, c);
            }
            let (_, remaining) = whole.split_at(self.cursor);
            let rb = remaining.as_bytes();
            let ghost r = b.subrange(c, b.len() as int);
            assert(rb@ == r);
            match find_bytes(rb, marker.as_slice(), 0) {
                None => {
                    let rem_len = rb.len();
                    let hold = if last {
                        0
                    } else if rem_len < marker.len() - 1 {
                        rem_len
                    } else {
                        marker.len() - 1
                    };
                    let emit_len = floor_char_boundary(remaining, rem_len - hold);
                    proof {
                        lemma_filter_drain_none(b, c, t, last);
                        vstd::utf8::valid_utf8_split(b, c);
                        lemma_floor_boundary(r, rem_len - hold);
                        lemma_boundary_iff(r, emit_len as int);
                        lemma_boundary_shift(b, c, emit_len as int);
                    }
                    let ghost before = events@;
                    if emit_len > 0 {
                        let (head, _) = remaining.split_at(emit_len);
                        let text = head.to_owned();
                        let ev = if self.in_thinking {
                            FilterEvent::Thinking(text)
                        } else {
                            FilterEvent::Text(text)
                        };
                        events.push(ev);
                        assert(filter_models(events@) =~= filter_models(before) + seq![ev.model()]);
                    } else {
                        assert(filter_models(events@) =~= filter_models(before));
                    }
                    self.cursor = self.cursor + emit_len;
                    return events;
                },
                Some(idx) => {
                    proof {
                        lemma_filter_drain_found(b, c, t, last, idx as int);
                        lemma_find_from(r, m, 0);
                        lemma_marker_boundaries(b, c, m, idx as int);
                        vstd::utf8::valid_utf8_split(b, c);
                        lemma_boundary_iff(r, idx as int);
                    }
                    let ghost before = events@;
                    if idx > 0 {
                        let (head, _) = remaining.split_at(idx);
                        let text = head.to_owned();
                        let ev = if self.in_thinking {
                            FilterEvent::Thinking(text)
                        } else {
                            FilterEvent::Text(text)
                        };
                        events.push(ev);
                        assert(filter_models(events@) =~= filter_models(before) + seq![ev.model()]);
                    } else {
                        assert(filter_models(events@) =~= filter_models(before));
                    }
                    self.cursor = self.cursor + idx + marker.len();
                    self.in_thinking = !self.in_thinking;
                },
            }
        }
    }
}

/// The pattern of a complete thinking block, newlines included.
pub open spec fn think_block_pattern() -> Seq<char> {
    "(?s)<think>.*?</think>"@
}

/// `text` without complete thinking blocks and without leading and trailing
/// whitespace.
pub open spec fn stripped_spec(text: Seq<char>) -> Seq<char> {
    trim_spec(
        if regex_error(think_block_pattern()) is None {
            regex_replace_all_spec(think_block_pattern(), text, ""@)
        } else {
            text
        },
    )
}

/// One-shot strip for text that is already fully accumulated (e.g. before
/// saving to history): every complete `<think>...</think>` block removed,
/// then leading and trailing whitespace. Should the pattern not compile, the
/// text is only trimmed.
pub fn strip_thinking_tags(text: &str) -> (r: String)
    ensures
        r@ == stripped_spec(text@),
{
    match compile("(?s)<think>.*?</think>") {
        Ok(p) => {
            let s = replace_all(&p, text, "");
            trim(s.as_str())
        },
        Err(_) => trim(text),
    }
}

} // verus!
