//! Universal, provider-agnostic tool-calling protocol.
//!
//! Not every local model supports native function calling reliably, so Local
//! Code also understands a plain-text protocol: a fenced code block tagged
//! `tool_call` containing a single JSON object. It is scanned for
//! incrementally as text streams in, so the UI can render prose normally while
//! hiding the raw JSON.

use vstd::prelude::*;
use vstd::string::{StringSliceAdditionalSpecFns, StringExecFns};
use vstd::utf8::*;
use crate::agent::stream_util::floor_char_boundary;
use crate::agent::thinking_filter::hold_back;
use crate::id::{generate_id, id_spec};
use crate::json::{json_object_member, json_string_member, object_member, string_member};
use crate::text::{
    boundary, concat_all, find_bytes, find_from, floor_boundary, lemma_after_ascii,
    lemma_boundary_append, lemma_boundary_iff, lemma_boundary_shift, lemma_find_from,
    lemma_find_from_unique, lemma_floor_boundary, lemma_matches_at_extend, lemma_matches_at_skip,
    lemma_utf8_concat, matches_at, trim, trim_spec, utf8, lemma_no_match_in_prefix, chunk_bytes,
    concat_texts, lemma_chunk_bytes,
};
use crate::types::ToolCall;

verus! {

broadcast use {vstd::utf8::encode_utf8_valid_utf8, vstd::utf8::encode_utf8_decode_utf8};

/// A tool call read from a `tool_call` block. `arguments` is the JSON text of
/// the arguments object.
#[derive(Debug, Clone)]
pub struct ParsedToolCall {
    pub name: String,
    pub arguments: String,
}

impl View for ParsedToolCall {
    type V = (Seq<char>, Seq<char>);

    open spec fn view(&self) -> (Seq<char>, Seq<char>) {
        (self.name@, self.arguments@)
    }
}

#[derive(Debug, Clone)]
pub enum ScanEvent {
    Text(String),
    ToolCall { call: Option<ParsedToolCall>, raw: String },
}

/// The tool call that a block's (trimmed) content describes: its `name`
/// member, which must be a string, and its `arguments` member, `{}` when that
/// is missing or not an object.
pub open spec fn parse_tool_call_spec(content: Seq<char>) -> Option<(Seq<char>, Seq<char>)> {
    match json_string_member(content, "name"@) {
        None => None,
        Some(name) => Some(
            (
                name,
                match json_object_member(content, "arguments"@) {
                    Some(a) => a,
                    None => "{}"@,
                },
            ),
        ),
    }
}

fn safe_parse(content: &str) -> (r: Option<ParsedToolCall>)
    ensures
        match r {
            Some(p) => parse_tool_call_spec(content@) == Some(p@),
            None => parse_tool_call_spec(content@) is None,
        },
{
    let name = match string_member(content, "name") {
        Some(n) => n,
        None => return None,
    };
    let arguments = match object_member(content, "arguments") {
        Some(a) => a,
        None => "{}".to_owned(),
    };
    Some(ParsedToolCall { name, arguments })
}

/// "```tool_call"
pub open spec fn scan_open() -> Seq<u8> {
    seq![96u8, 96u8, 96u8, 116u8, 111u8, 111u8, 108u8, 95u8, 99u8, 97u8, 108u8, 108u8]
}

/// "```"
pub open spec fn scan_close() -> Seq<u8> {
    seq![96u8, 96u8, 96u8]
}

/// What the scanner emits, by bytes: text, or a tool-call block given by its
/// content bytes before trimming.
pub enum ScanPiece {
    Text(Seq<u8>),
    Call(Seq<u8>),
}

pub open spec fn text_piece(s: Seq<u8>) -> Seq<ScanPiece> {
    if s.len() > 0 {
        seq![ScanPiece::Text(s)]
    } else {
        seq![]
    }
}

/// What draining the buffer `b` from byte `c` emits, and the cursor it
/// leaves; with `at_open`, `c` is where an opening fence was found.
#[verifier::opaque]
pub open spec fn scan_from(b: Seq<u8>, c: int, last: bool, at_open: bool) -> (Seq<ScanPiece>, int)
    decreases b.len() - c, if at_open { 0int } else { 1int },
{
    if !at_open {
        if c < 0 || c > b.len() {
            (seq![], c)
        } else {
            let r = b.subrange(c, b.len() as int);
            match find_from(r, scan_open(), 0) {
                None => {
                    let e = floor_boundary(r, r.len() - hold_back(r.len() as int, scan_open().len() as int, last));
                    (text_piece(r.subrange(0, e)), c + e)
                },
                Some(i) => {
                    proof {
                        lemma_find_from(r, scan_open(), 0);
                    }
                    let after = scan_from(b, c + i, last, true);
                    (text_piece(r.subrange(0, i)) + after.0, after.1)
                },
            }
        }
    } else {
        if c < 0 || c + scan_open().len() > b.len() {
            (seq![], c)
        } else {
            let a = b.subrange(c + scan_open().len(), b.len() as int);
            match find_from(a, scan_close(), 0) {
                Some(j) => {
                    proof {
                        lemma_find_from(a, scan_close(), 0);
                    }
                    let next = scan_from(b, c + scan_open().len() + j + scan_close().len(), last, false);
                    (seq![ScanPiece::Call(a.subrange(0, j))] + next.0, next.1)
                },
                None => {
                    if last {
                        (seq![ScanPiece::Text(b.subrange(c, b.len() as int))], b.len() as int)
                    } else {
                        (seq![], c)
                    }
                },
            }
        }
    }
}

/// What draining the buffer `b` from byte `c` emits, and the cursor it leaves.
pub open spec fn scan_drain(b: Seq<u8>, c: int, last: bool) -> (Seq<ScanPiece>, int) {
    scan_from(b, c, last, false)
}

/// What draining emits once an opening fence has been found at `c1`.
pub open spec fn scan_after_open(b: Seq<u8>, c1: int, last: bool) -> (Seq<ScanPiece>, int) {
    scan_from(b, c1, last, true)
}

pub proof fn lemma_scan_drain_none(b: Seq<u8>, c: int, last: bool)
    requires
        0 <= c <= b.len(),
        find_from(b.subrange(c, b.len() as int), scan_open(), 0) is None,
    ensures
        scan_drain(b, c, last) == ({
            let r = b.subrange(c, b.len() as int);
            let e = floor_boundary(r, r.len() - hold_back(r.len() as int, scan_open().len() as int, last));
            (text_piece(r.subrange(0, e)), c + e)
        }),
{
    reveal(scan_from);
}

pub proof fn lemma_scan_drain_found(b: Seq<u8>, c: int, last: bool, i: int)
    requires
        0 <= c <= b.len(),
        find_from(b.subrange(c, b.len() as int), scan_open(), 0) == Some(i),
    ensures
        0 <= i,
        c + i + scan_open().len() <= b.len(),
        scan_drain(b, c, last) == ({
            let after = scan_after_open(b, c + i, last);
            (text_piece(b.subrange(c, b.len() as int).subrange(0, i)) + after.0, after.1)
        }),
{
    reveal(scan_from);
    lemma_find_from(b.subrange(c, b.len() as int), scan_open(), 0);
}

pub proof fn lemma_scan_after_found(b: Seq<u8>, c1: int, last: bool, j: int)
    requires
        0 <= c1,
        c1 + scan_open().len() <= b.len(),
        find_from(b.subrange(c1 + scan_open().len(), b.len() as int), scan_close(), 0) == Some(j),
    ensures
        0 <= j,
        c1 + scan_open().len() + j + scan_close().len() <= b.len(),
        scan_after_open(b, c1, last) == ({
            let a = b.subrange(c1 + scan_open().len(), b.len() as int);
            let next = scan_drain(b, c1 + scan_open().len() + j + scan_close().len(), last);
            (seq![ScanPiece::Call(a.subrange(0, j))] + next.0, next.1)
        }),
{
    reveal(scan_from);
    lemma_find_from(b.subrange(c1 + scan_open().len(), b.len() as int), scan_close(), 0);
}

pub proof fn lemma_scan_after_none(b: Seq<u8>, c1: int, last: bool)
    requires
        0 <= c1,
        c1 + scan_open().len() <= b.len(),
        find_from(b.subrange(c1 + scan_open().len(), b.len() as int), scan_close(), 0) is None,
    ensures
        scan_after_open(b, c1, last) == if last {
            (seq![ScanPiece::Text(b.subrange(c1, b.len() as int))], b.len() as int)
        } else {
            (Seq::<ScanPiece>::empty(), c1)
        },
{
    reveal(scan_from);
}


/// One element of the scanner's output as a reader sees it: a byte of text,
/// or a whole tool-call block (by its content bytes).
pub enum ScanItem {
    Byte(u8),
    Call(Seq<u8>),
}

pub open spec fn text_items(s: Seq<u8>) -> Seq<ScanItem> {
    s.map_values(|x: u8| ScanItem::Byte(x))
}

pub open spec fn piece_items(p: ScanPiece) -> Seq<ScanItem> {
    match p {
        ScanPiece::Text(s) => text_items(s),
        ScanPiece::Call(c) => seq![ScanItem::Call(c)],
    }
}

/// The scanner's output with text event boundaries erased.
pub open spec fn scan_flat(ps: Seq<ScanPiece>) -> Seq<ScanItem>
    decreases ps.len(),
{
    if ps.len() == 0 {
        seq![]
    } else {
        scan_flat(ps.drop_last()) + piece_items(ps.last())
    }
}

pub proof fn lemma_scan_flat_concat(a: Seq<ScanPiece>, b: Seq<ScanPiece>)
    ensures
        scan_flat(a + b) == scan_flat(a) + scan_flat(b),
    decreases b.len(),
{
    if b.len() == 0 {
        assert(a + b =~= a);
        assert(scan_flat(a) + scan_flat(b) =~= scan_flat(a));
    } else {
        lemma_scan_flat_concat(a, b.drop_last());
        assert((a + b).drop_last() =~= a + b.drop_last());
        assert((a + b).last() == b.last());
        assert(scan_flat(a + b) =~= scan_flat(a) + scan_flat(b));
    }
}

pub proof fn lemma_scan_flat_one(p: ScanPiece)
    ensures
        scan_flat(seq![p]) == piece_items(p),
{
    let one = seq![p];
    assert(one.len() == 1);
    assert(one.drop_last() =~= Seq::<ScanPiece>::empty());
    assert(scan_flat(one.drop_last()) == Seq::<ScanItem>::empty());
    assert(one.last() == p);
    assert(Seq::<ScanItem>::empty() + piece_items(p) =~= piece_items(p));
}

pub proof fn lemma_scan_flat_text(s: Seq<u8>)
    ensures
        scan_flat(text_piece(s)) == text_items(s),
{
    if s.len() > 0 {
        lemma_scan_flat_one(ScanPiece::Text(s));
    } else {
        assert(text_items(s) =~= Seq::<ScanItem>::empty());
    }
}

pub proof fn lemma_text_items_concat(a: Seq<u8>, b: Seq<u8>)
    ensures
        text_items(a + b) == text_items(a) + text_items(b),
{
    assert(text_items(a + b) =~= text_items(a) + text_items(b));
}

/// Draining never moves the cursor back or past the end, and a final drain
/// reaches the end.
pub proof fn lemma_scan_from_bounds(b: Seq<u8>, c: int, last: bool, at_open: bool)
    requires
        0 <= c <= b.len(),
        at_open ==> c + scan_open().len() <= b.len(),
    ensures
        c <= scan_from(b, c, last, at_open).1 <= b.len(),
        last ==> scan_from(b, c, last, at_open).1 == b.len(),
    decreases b.len() - c, if at_open { 0int } else { 1int },
{
    if !at_open {
        let r = b.subrange(c, b.len() as int);
        match find_from(r, scan_open(), 0) {
            Some(i) => {
                lemma_scan_drain_found(b, c, last, i);
                lemma_scan_from_bounds(b, c + i, last, true);
            },
            None => {
                lemma_scan_drain_none(b, c, last);
                lemma_floor_boundary(r, r.len() - hold_back(r.len() as int, scan_open().len() as int, last));
            },
        }
    } else {
        let a = b.subrange(c + scan_open().len(), b.len() as int);
        match find_from(a, scan_close(), 0) {
            Some(j) => {
                lemma_scan_after_found(b, c, last, j);
                lemma_scan_from_bounds(b, c + scan_open().len() + j + scan_close().len(), last, false);
            },
            None => {
                lemma_scan_after_none(b, c, last);
            },
        }
    }
}

proof fn lemma_scan_extend_last(b: Seq<u8>, x: Seq<u8>, c: int)
    requires
        0 <= c <= b.len(),
        find_from(b.subrange(c, b.len() as int), scan_open(), 0) is None,
    ensures
        ({
            let d = scan_from(b, c, false, false);
            scan_flat(scan_from(b + x, c, true, false).0) == scan_flat(d.0) + scan_flat(
                scan_from(b + x, d.1, true, false).0,
            )
        }),
{
    let m = scan_open();
    let r = b.subrange(c, b.len() as int);
    let bx = b + x;
    let rx = bx.subrange(c, bx.len() as int);
    assert(rx =~= r + x);
    lemma_find_from(r, m, 0);
    lemma_scan_drain_none(b, c, false);
    let hold = hold_back(r.len() as int, m.len() as int, false);
    let e = floor_boundary(r, r.len() - hold);
    lemma_floor_boundary(r, r.len() - hold);
    let r2 = bx.subrange(c + e, bx.len() as int);
    assert(r2 =~= rx.subrange(e, rx.len() as int));
    assert forall|j: int| 0 <= j implies matches_at(r2, m, j) == matches_at(rx, m, e + j) by {
        lemma_matches_at_skip(rx, m, e, j);
    }
    lemma_find_from(rx, m, 0);
    lemma_scan_flat_text(r.subrange(0, e));
    match find_from(rx, m, 0) {
        Some(p) => {
            if p + m.len() <= r.len() {
                lemma_matches_at_extend(r, x, m, p);
            }
            assert(e <= p);
            lemma_find_from_unique(r2, m, 0, Some(p - e));
            lemma_scan_drain_found(bx, c, true, p);
            lemma_scan_drain_found(bx, c + e, true, p - e);
            assert(rx.subrange(0, p) =~= r.subrange(0, e) + r2.subrange(0, p - e));
            lemma_text_items_concat(r.subrange(0, e), r2.subrange(0, p - e));
            lemma_scan_flat_text(rx.subrange(0, p));
            lemma_scan_flat_text(r2.subrange(0, p - e));
            let rest = scan_from(bx, c + p, true, true);
            lemma_scan_flat_concat(text_piece(rx.subrange(0, p)), rest.0);
            lemma_scan_flat_concat(text_piece(r2.subrange(0, p - e)), rest.0);
            assert(text_items(r.subrange(0, e)) + text_items(r2.subrange(0, p - e)) + scan_flat(rest.0)
                =~= text_items(r.subrange(0, e)) + (text_items(r2.subrange(0, p - e)) + scan_flat(rest.0)));
        },
        None => {
            lemma_find_from_unique(r2, m, 0, None);
            lemma_scan_drain_none(bx, c, true);
            lemma_scan_drain_none(bx, c + e, true);
            assert(rx.subrange(0, rx.len() as int) =~= rx);
            assert(r2.subrange(0, r2.len() as int) =~= r2);
            assert(rx =~= r.subrange(0, e) + r2);
            lemma_text_items_concat(r.subrange(0, e), r2);
            lemma_scan_flat_text(rx);
            lemma_scan_flat_text(r2);
        },
    }
}

/// A non-final drain of `b` agrees with the final drain of any extension of
/// `b`: what it emits comes first in what the extension's drain emits, and
/// the rest is what draining the extension from its end state emits.
pub proof fn lemma_scan_extend(b: Seq<u8>, x: Seq<u8>, c: int, at_open: bool)
    requires
        0 <= c <= b.len(),
        at_open ==> matches_at(b.subrange(c, b.len() as int), scan_open(), 0),
    ensures
        ({
            let d = scan_from(b, c, false, at_open);
            scan_flat(scan_from(b + x, c, true, at_open).0) == scan_flat(d.0) + scan_flat(
                scan_from(b + x, d.1, true, false).0,
            )
        }),
    decreases b.len() - c, if at_open { 0int } else { 1int },
{
    let bx = b + x;
    if !at_open {
        let m = scan_open();
        let r = b.subrange(c, b.len() as int);
        let rx = bx.subrange(c, bx.len() as int);
        assert(rx =~= r + x);
        lemma_find_from(r, m, 0);
        match find_from(r, m, 0) {
            Some(i) => {
                lemma_scan_drain_found(b, c, false, i);
                assert forall|j: int| 0 <= j <= i implies matches_at(rx, m, j) == matches_at(r, m, j) by {
                    lemma_matches_at_extend(r, x, m, j);
                }
                lemma_find_from_unique(rx, m, 0, Some(i));
                lemma_scan_drain_found(bx, c, true, i);
                assert(rx.subrange(0, i) =~= r.subrange(0, i));
                lemma_matches_at_skip(r, m, i, 0);
                assert(b.subrange(c + i, b.len() as int) =~= r.subrange(i, r.len() as int));
                lemma_scan_extend(b, x, c + i, true);
                let d2 = scan_from(b, c + i, false, true);
                let d2x = scan_from(bx, c + i, true, true);
                lemma_scan_flat_concat(text_piece(r.subrange(0, i)), d2x.0);
                lemma_scan_flat_concat(text_piece(r.subrange(0, i)), d2.0);
                let a0 = scan_flat(text_piece(r.subrange(0, i)));
                let z = scan_flat(scan_from(bx, d2.1, true, false).0);
                assert(a0 + scan_flat(d2.0) + z =~= a0 + (scan_flat(d2.0) + z));
            },
            None => {
                lemma_scan_extend_last(b, x, c);
            },
        }
    } else {
        let o = scan_open();
        let m = scan_close();
        let rb = b.subrange(c, b.len() as int);
        assert(rb.subrange(0, o.len() as int) == o);
        let a = b.subrange(c + o.len(), b.len() as int);
        let ax = bx.subrange(c + o.len(), bx.len() as int);
        assert(ax =~= a + x);
        lemma_find_from(a, m, 0);
        match find_from(a, m, 0) {
            Some(j) => {
                lemma_scan_after_found(b, c, false, j);
                assert forall|k: int| 0 <= k <= j implies matches_at(ax, m, k) == matches_at(a, m, k) by {
                    lemma_matches_at_extend(a, x, m, k);
                }
                lemma_find_from_unique(ax, m, 0, Some(j));
                lemma_scan_after_found(bx, c, true, j);
                assert(ax.subrange(0, j) =~= a.subrange(0, j));
                let c2 = c + o.len() + j + m.len();
                lemma_scan_extend(b, x, c2, false);
                let d2 = scan_from(b, c2, false, false);
                let d2x = scan_from(bx, c2, true, false);
                let call = seq![ScanPiece::Call(a.subrange(0, j))];
                lemma_scan_flat_concat(call, d2x.0);
                lemma_scan_flat_concat(call, d2.0);
                let a0 = scan_flat(call);
                let z = scan_flat(scan_from(bx, d2.1, true, false).0);
                assert(a0 + scan_flat(d2.0) + z =~= a0 + (scan_flat(d2.0) + z));
            },
            None => {
                lemma_scan_after_none(b, c, false);
                let rx = bx.subrange(c, bx.len() as int);
                assert(rx.subrange(0, o.len() as int) =~= rb.subrange(0, o.len() as int));
                lemma_find_from_unique(rx, o, 0, Some(0));
                lemma_scan_drain_found(bx, c, true, 0);
                assert(rx.subrange(0, 0) =~= Seq::<u8>::empty());
                lemma_scan_flat_text(Seq::<u8>::empty());
                assert(text_items(Seq::<u8>::empty()) =~= Seq::<ScanItem>::empty());
                lemma_scan_flat_concat(text_piece(Seq::<u8>::empty()), scan_from(bx, c, true, true).0);
                assert(Seq::<ScanItem>::empty() + scan_flat(scan_from(bx, c, true, true).0)
                    =~= scan_flat(scan_from(bx, c, true, true).0));
                assert(scan_flat(Seq::<ScanPiece>::empty()) =~= Seq::<ScanItem>::empty());
            },
        }
    }
}

/// The state after feeding `chunks` one by one to a new scanner: the bytes
/// fed, the cursor, and every piece emitted so far.
pub open spec fn scan_feed_all(chunks: Seq<Seq<u8>>) -> (Seq<u8>, int, Seq<ScanPiece>)
    decreases chunks.len(),
{
    if chunks.len() == 0 {
        (seq![], 0, seq![])
    } else {
        let prev = scan_feed_all(chunks.drop_last());
        let b = prev.0 + chunks.last();
        let d = scan_drain(b, prev.1, false);
        (b, d.1, prev.2 + d.0)
    }
}

/// Every piece of feeding `chunks` one by one to a new scanner, then finishing.
pub open spec fn scan_stream(chunks: Seq<Seq<u8>>) -> Seq<ScanPiece> {
    let s = scan_feed_all(chunks);
    s.2 + scan_drain(s.0, s.1, true).0
}

proof fn lemma_scan_feed_all_bounds(chunks: Seq<Seq<u8>>)
    ensures
        scan_feed_all(chunks).0 == concat_all(chunks),
        0 <= scan_feed_all(chunks).1 <= scan_feed_all(chunks).0.len(),
    decreases chunks.len(),
{
    if chunks.len() > 0 {
        let prev = scan_feed_all(chunks.drop_last());
        lemma_scan_feed_all_bounds(chunks.drop_last());
        lemma_scan_from_bounds(prev.0 + chunks.last(), prev.1, false, false);
    }
}

proof fn lemma_scan_stream_prefix(chunks: Seq<Seq<u8>>, x: Seq<u8>)
    ensures
        ({
            let s = scan_feed_all(chunks);
            scan_flat(s.2) + scan_flat(scan_drain(s.0 + x, s.1, true).0) == scan_flat(
                scan_drain(concat_all(chunks) + x, 0, true).0,
            )
        }),
    decreases chunks.len(),
{
    if chunks.len() == 0 {
        assert(Seq::<u8>::empty() + x =~= x);
        assert(scan_flat(Seq::<ScanPiece>::empty()) =~= Seq::<ScanItem>::empty());
        let y = scan_flat(scan_drain(x, 0, true).0);
        assert(Seq::<ScanItem>::empty() + y =~= y);
    } else {
        let pre = chunks.drop_last();
        let ch = chunks.last();
        let sp = scan_feed_all(pre);
        lemma_scan_feed_all_bounds(pre);
        lemma_scan_stream_prefix(pre, ch + x);
        let b = sp.0 + ch;
        let d = scan_drain(b, sp.1, false);
        lemma_scan_extend(b, x, sp.1, false);
        assert(b + x =~= sp.0 + (ch + x));
        assert(concat_all(chunks) + x =~= concat_all(pre) + (ch + x));
        lemma_scan_flat_concat(sp.2, d.0);
        let tail = scan_flat(scan_drain(b + x, d.1, true).0);
        assert(scan_flat(sp.2) + scan_flat(d.0) + tail =~= scan_flat(sp.2) + (scan_flat(d.0) + tail));
    }
}

/// Chunking does not matter: feeding a text in any chunks and then finishing
/// gives the same text bytes and the same tool-call blocks, in the same
/// order, as feeding it all at once.
pub proof fn lemma_scan_chunking(chunks: Seq<Seq<u8>>)
    ensures
        scan_flat(scan_stream(chunks)) == scan_flat(scan_drain(concat_all(chunks), 0, true).0),
{
    let s = scan_feed_all(chunks);
    lemma_scan_stream_prefix(chunks, seq![]);
    assert(s.0 + Seq::<u8>::empty() =~= s.0);
    assert(concat_all(chunks) + Seq::<u8>::empty() =~= concat_all(chunks));
    lemma_scan_flat_concat(s.2, scan_drain(s.0, s.1, true).0);
}

/// The text `b` cut into its pieces: each complete block (from an opening
/// ```` ```tool_call ```` fence to the first ```` ``` ```` after it) is a
/// call with the bytes between the fences; the text between blocks is text;
/// a block left open is text to the end. Empty text is left out.
pub open spec fn scan_spans(b: Seq<u8>) -> Seq<ScanPiece>
    decreases b.len(),
{
    match find_from(b, scan_open(), 0) {
        None => text_piece(b),
        Some(i) => {
            proof {
                lemma_find_from(b, scan_open(), 0);
            }
            let a = b.subrange(i + scan_open().len(), b.len() as int);
            match find_from(a, scan_close(), 0) {
                Some(j) => {
                    proof {
                        lemma_find_from(a, scan_close(), 0);
                    }
                    text_piece(b.subrange(0, i)) + seq![ScanPiece::Call(a.subrange(0, j))] + scan_spans(
                        a.subrange(j + scan_close().len(), a.len() as int),
                    )
                },
                None => text_piece(b.subrange(0, i)) + seq![ScanPiece::Text(b.subrange(i, b.len() as int))],
            }
        },
    }
}

proof fn lemma_scan_spans(b: Seq<u8>, c: int)
    requires
        0 <= c <= b.len(),
    ensures
        scan_drain(b, c, true).0 == scan_spans(b.subrange(c, b.len() as int)),
    decreases b.len() - c,
{
    let r = b.subrange(c, b.len() as int);
    match find_from(r, scan_open(), 0) {
        None => {
            lemma_scan_drain_none(b, c, true);
            assert(r.subrange(0, r.len() as int) =~= r);
        },
        Some(i) => {
            lemma_scan_drain_found(b, c, true, i);
            let c1 = c + i;
            let a = b.subrange(c1 + scan_open().len(), b.len() as int);
            assert(a =~= r.subrange(i + scan_open().len(), r.len() as int));
            match find_from(a, scan_close(), 0) {
                Some(j) => {
                    lemma_scan_after_found(b, c1, true, j);
                    let c2 = c1 + scan_open().len() + j + scan_close().len();
                    lemma_scan_spans(b, c2);
                    assert(b.subrange(c2, b.len() as int) =~= a.subrange(j + scan_close().len(), a.len() as int));
                    let t = text_piece(r.subrange(0, i));
                    let call = seq![ScanPiece::Call(a.subrange(0, j))];
                    let rest = scan_drain(b, c2, true).0;
                    assert(t + (call + rest) =~= t + call + rest);
                },
                None => {
                    lemma_scan_after_none(b, c1, true);
                    assert(b.subrange(c1, b.len() as int) =~= r.subrange(i, r.len() as int));
                },
            }
        },
    }
}

/// What the scanner does, for any split of a text into chunks: feeding the
/// chunks to a new scanner and finishing gives the text's pieces
/// (`scan_spans`), with text event boundaries erased: one call per complete
/// block, and the text outside the blocks as text.
pub proof fn lemma_scan_spans_law(chunks: Seq<Seq<u8>>)
    ensures
        scan_flat(scan_stream(chunks)) == scan_flat(scan_spans(concat_all(chunks))),
{
    let b = concat_all(chunks);
    lemma_scan_chunking(chunks);
    lemma_scan_spans(b, 0);
    assert(b.subrange(0, b.len() as int) =~= b);
}

/// The spans law for a text cut into `&str` chunks: feeding the chunks
/// (by their UTF-8 bytes, as `feed` takes them) and finishing gives the
/// pieces of the whole text, however it was cut.
pub proof fn lemma_scan_spans_text_chunks(chunks: Seq<Seq<char>>)
    ensures
        scan_flat(scan_stream(chunk_bytes(chunks))) == scan_flat(scan_spans(utf8(concat_texts(chunks)))),
{
    lemma_scan_spans_law(chunk_bytes(chunks));
    lemma_chunk_bytes(chunks);
}

/// Each piece is clean: a text is not empty, and holds no opening fence
/// unless it is the rest of a block left open at the end (`last`, starting
/// with the fence); a call's content holds no closing fence.
pub open spec fn clean_pieces(ps: Seq<ScanPiece>, last: bool) -> bool {
    forall|k: int|
        0 <= k < ps.len() ==> match #[trigger] ps[k] {
            ScanPiece::Text(t) => t.len() > 0 && (find_from(t, scan_open(), 0) is None || (last && matches_at(
                t,
                scan_open(),
                0,
            ))),
            ScanPiece::Call(cb) => find_from(cb, scan_close(), 0) is None,
        }
}

/// The scanner's pieces are clean (see `clean_pieces`): what `feed` emits
/// never shows an empty text, a text holding the opening fence, or a call
/// whose content runs past its closing fence; `finish` may only add, as
/// text, a block that was never closed.
pub proof fn lemma_scan_pieces_clean(b: Seq<u8>, c: int, last: bool)
    requires
        0 <= c <= b.len(),
    ensures
        clean_pieces(scan_drain(b, c, last).0, last),
    decreases b.len() - c,
{
    let r = b.subrange(c, b.len() as int);
    lemma_find_from(r, scan_open(), 0);
    match find_from(r, scan_open(), 0) {
        None => {
            lemma_scan_drain_none(b, c, last);
            let e = floor_boundary(r, r.len() - hold_back(r.len() as int, scan_open().len() as int, last));
            lemma_floor_boundary(r, r.len() - hold_back(r.len() as int, scan_open().len() as int, last));
            lemma_no_match_in_prefix(r, scan_open(), e);
        },
        Some(i) => {
            lemma_scan_drain_found(b, c, last, i);
            lemma_no_match_in_prefix(r, scan_open(), i);
            let c1 = c + i;
            let a = b.subrange(c1 + scan_open().len(), b.len() as int);
            let t = text_piece(r.subrange(0, i));
            lemma_find_from(a, scan_close(), 0);
            match find_from(a, scan_close(), 0) {
                Some(j) => {
                    lemma_scan_after_found(b, c1, last, j);
                    let c2 = c1 + scan_open().len() + j + scan_close().len();
                    lemma_scan_pieces_clean(b, c2, last);
                    lemma_no_match_in_prefix(a, scan_close(), j);
                    let call = seq![ScanPiece::Call(a.subrange(0, j))];
                    let rest = scan_drain(b, c2, last).0;
                    let all = t + (call + rest);
                    assert forall|k: int| 0 <= k < all.len() implies match #[trigger] all[k] {
                        ScanPiece::Text(x) => x.len() > 0 && (find_from(x, scan_open(), 0) is None || (last
                            && matches_at(x, scan_open(), 0))),
                        ScanPiece::Call(cb) => find_from(cb, scan_close(), 0) is None,
                    } by {
                        if k < t.len() {
                        } else if k == t.len() {
                            assert(all[k] == call[0]);
                        } else {
                            assert(all[k] == rest[k - t.len() - 1]);
                        }
                    }
                },
                None => {
                    lemma_scan_after_none(b, c1, last);
                    if last {
                        let x = b.subrange(c1, b.len() as int);
                        assert(x.subrange(0, scan_open().len() as int) =~= r.subrange(i, i + scan_open().len()));
                        let all = t + seq![ScanPiece::Text(x)];
                        assert forall|k: int| 0 <= k < all.len() implies match #[trigger] all[k] {
                            ScanPiece::Text(y) => y.len() > 0 && (find_from(y, scan_open(), 0) is None || (last
                                && matches_at(y, scan_open(), 0))),
                            ScanPiece::Call(cb) => find_from(cb, scan_close(), 0) is None,
                        } by {
                            if k == t.len() {
                                assert(all[k] == ScanPiece::Text(x));
                            }
                        }
                    } else {
                        assert(t + Seq::<ScanPiece>::empty() =~= t);
                    }
                },
            }
        },
    }
}

/// An emitted event agrees with a piece: text with the same bytes, or a tool
/// call whose raw content is the piece's content trimmed and whose call is
/// what that content parses to.
pub open spec fn event_matches(e: ScanEvent, p: ScanPiece) -> bool {
    match (e, p) {
        (ScanEvent::Text(s), ScanPiece::Text(bs)) => utf8(s@) == bs,
        (ScanEvent::ToolCall { call, raw }, ScanPiece::Call(cb)) => {
            &&& raw@ == trim_spec(decode_utf8(cb))
            &&& match call {
                Some(c) => parse_tool_call_spec(raw@) == Some(c@),
                None => parse_tool_call_spec(raw@) is None,
            }
        },
        _ => false,
    }
}

pub open spec fn events_match(evs: Seq<ScanEvent>, ps: Seq<ScanPiece>) -> bool {
    &&& evs.len() == ps.len()
    &&& forall|k: int| 0 <= k < evs.len() ==> event_matches(#[trigger] evs[k], ps[k])
}

fn open_fence() -> (m: Vec<u8>)
    ensures
        m@ == scan_open(),
{
    let m = vec![96u8, 96u8, 96u8, 116u8, 111u8, 111u8, 108u8, 95u8, 99u8, 97u8, 108u8, 108u8];
    assert(m@ =~= scan_open());
    m
}

fn close_fence() -> (m: Vec<u8>)
    ensures
        m@ == scan_close(),
{
    let m = vec![96u8, 96u8, 96u8];
    assert(m@ =~= scan_close());
    m
}

/// Where a fence is found, both of its ends are character boundaries.
proof fn lemma_fence_boundaries(b: Seq<u8>, c: int, m: Seq<u8>, idx: int)
    requires
        valid_utf8(b),
        0 <= c <= b.len(),
        boundary(b, c),
        m.len() > 0,
        m[0] < 0x80,
        m[m.len() - 1] < 0x80,
        matches_at(b.subrange(c, b.len() as int), m, idx),
    ensures
        boundary(b.subrange(c, b.len() as int), idx),
        boundary(b, c + idx),
        boundary(b, c + idx + m.len()),
{
    let r = b.subrange(c, b.len() as int);
    lemma_boundary_iff(b, c);
    valid_utf8_split(b, c);
    assert(r.subrange(idx, idx + m.len()) == m);
    assert(r[idx] == r.subrange(idx, idx + m.len())[0]);
    let end = idx + m.len();
    assert(r[end - 1] == r.subrange(idx, idx + m.len())[m.len() - 1]);
    if end < r.len() {
        lemma_after_ascii(r, end - 1);
    }
    lemma_boundary_shift(b, c, end);
    lemma_boundary_shift(b, c, idx);
}

/// Incrementally scans streamed text for `tool_call` fenced blocks.
pub struct StreamingToolCallScanner {
    buffer: String,
    cursor: usize,
}

impl StreamingToolCallScanner {
    /// Every byte fed so far.
    pub closed spec fn bytes(&self) -> Seq<u8> {
        utf8(self.buffer@)
    }

    /// Bytes before this offset have been emitted.
    pub closed spec fn cursor(&self) -> int {
        self.cursor as int
    }

    pub closed spec fn wf(&self) -> bool {
        &&& self.cursor <= self.bytes().len()
        &&& boundary(self.bytes(), self.cursor as int)
    }

    /// A well-formed scanner's cursor lies within the bytes fed, on a
    /// character boundary.
    pub proof fn lemma_wf_bounds(self)
        requires
            self.wf(),
        ensures
            0 <= self.cursor() <= self.bytes().len(),
            boundary(self.bytes(), self.cursor()),
    {
    }

    /// Whatever a well-formed scanner has been fed, the pieces of what
    /// `feed(chunk)` emits next and of what `finish` emits are clean (see
    /// `clean_pieces`): no empty text, no text holding the opening fence
    /// (but, at `finish`, a block never closed), no call content running
    /// past its closing fence.
    pub proof fn lemma_emits_clean(self, chunk: Seq<char>)
        requires
            self.wf(),
        ensures
            clean_pieces(scan_drain(self.bytes() + utf8(chunk), self.cursor(), false).0, false),
            clean_pieces(scan_drain(self.bytes(), self.cursor(), true).0, true),
    {
        lemma_scan_pieces_clean(self.bytes() + utf8(chunk), self.cursor(), false);
        lemma_scan_pieces_clean(self.bytes(), self.cursor(), true);
    }

    pub fn new() -> (s: Self)
        ensures
            s.wf(),
            s.bytes() == Seq::<u8>::empty(),
            s.cursor() == 0,
    {
        StreamingToolCallScanner { buffer: String::new(), cursor: 0 }
    }

    /// Appends `chunk` and emits the text and complete blocks found so far.
    pub fn feed(&mut self, chunk: &str) -> (evs: Vec<ScanEvent>)
        requires
            old(self).wf(),
        ensures
            final(self).wf(),
            final(self).bytes() == old(self).bytes() + utf8(chunk@),
            ({
                let d = scan_drain(old(self).bytes() + utf8(chunk@), old(self).cursor(), false);
                &&& events_match(evs@, d.0)
                &&& final(self).cursor() == d.1
            }),
    {
        proof {
            lemma_utf8_concat(self.buffer@, chunk@);
            lemma_boundary_append(self.bytes(), utf8(chunk@), self.cursor as int);
        }
        self.buffer.append(chunk);
        self.drain(false)
    }

    /// Emits everything left; an unterminated block is emitted as text.
    pub fn finish(&mut self) -> (evs: Vec<ScanEvent>)
        requires
            old(self).wf(),
        ensures
            final(self).wf(),
            final(self).bytes() == old(self).bytes(),
            ({
                let d = scan_drain(old(self).bytes(), old(self).cursor(), true);
                &&& events_match(evs@, d.0)
                &&& final(self).cursor() == d.1
            }),
    {
        self.drain(true)
    }

    fn text_event(s: &str, from: usize, to: usize) -> (e: ScanEvent)
        requires
            from <= to <= s.spec_bytes().len(),
            boundary(s.spec_bytes(), from as int),
            boundary(s.spec_bytes(), to as int),
        ensures
            event_matches(e, ScanPiece::Text(s.spec_bytes().subrange(from as int, to as int))),
    {
        proof {
            lemma_boundary_iff(s.spec_bytes(), to as int);
        }
        let (head, _) = s.split_at(to);
        proof {
            lemma_boundary_iff(head.spec_bytes(), from as int);
        }
        let (_, mid) = head.split_at(from);
        assert(mid.spec_bytes() =~= s.spec_bytes().subrange(from as int, to as int));
        ScanEvent::Text(mid.to_owned())
    }

    #[verifier::rlimit(60)]
    fn drain(&mut self, last: bool) -> (evs: Vec<ScanEvent>)
        requires
            old(self).wf(),
        ensures
            final(self).wf(),
            final(self).bytes() == old(self).bytes(),
            ({
                let d = scan_drain(old(self).bytes(), old(self).cursor(), last);
                &&& events_match(evs@, d.0)
                &&& final(self).cursor() == d.1
            }),
    {
        let mut events: Vec<ScanEvent> = Vec::new();
        let ghost b = self.bytes();
        let ghost goal = scan_drain(b, self.cursor as int, last);
        let ghost mut done: Seq<ScanPiece> = seq![];
        loop
            invariant
                self.wf(),
                self.bytes() == b,
                b == old(self).bytes(),
                goal == scan_drain(old(self).bytes(), old(self).cursor(), last),
                events_match(events@, done),
                done + scan_drain(b, self.cursor as int, last).0 == goal.0,
                scan_drain(b, self.cursor as int, last).1 == goal.1,
            decreases b.len() - self.cursor,
        {
            let open = open_fence();
            let close = close_fence();
            let ghost c = self.cursor as int;
            let whole = self.buffer.as_str();
            let total = whole.as_bytes().len();
            proof {
                lemma_boundary_iff(b, c);
                valid_utf8_split(b, c);
            }
            let (_, remaining) = whole.split_at(self.cursor);
            let rb = remaining.as_bytes();
            let ghost r = b.subrange(c, b.len() as int);
            assert(rb@ == r);
            match find_bytes(rb, open.as_slice(), 0) {
                None => {
                    let rem_len = rb.len();
                    let hold = if last {
                        0
                    } else if rem_len < open.len() - 1 {
                        rem_len
                    } else {
                        open.len() - 1
                    };
                    let emit_len = floor_char_boundary(remaining, rem_len - hold);
                    proof {
                        lemma_scan_drain_none(b, c, last);
                        lemma_floor_boundary(r, rem_len - hold);
                        lemma_boundary_shift(b, c, emit_len as int);
                    }
                    let ghost before = events@;
                    if emit_len > 0 {
                        let ev = Self::text_event(whole, self.cursor, self.cursor + emit_len);
                        assert(b.subrange(c, c + emit_len) =~= r.subrange(0, emit_len as int));
                        events.push(ev);
                        proof {
                            done = done + text_piece(r.subrange(0, emit_len as int));
                            assert(events@ =~= before.push(ev));
                        }
                    } else {
                        proof {
                            assert(done + text_piece(r.subrange(0, emit_len as int)) =~= done);
                        }
                    }
                    self.cursor = self.cursor + emit_len;
                    proof {
                        assert(done =~= goal.0);
                    }
                    return events;
                },
                Some(open_idx) => {
                    proof {
                        lemma_scan_drain_found(b, c, last, open_idx as int);
                        lemma_find_from(r, scan_open(), 0);
                        lemma_fence_boundaries(b, c, scan_open(), open_idx as int);
                    }
                    let ghost before = events@;
                    if open_idx > 0 {
                        let ev = Self::text_event(whole, self.cursor, self.cursor + open_idx);
                        assert(b.subrange(c, c + open_idx) =~= r.subrange(0, open_idx as int));
                        events.push(ev);
                        proof {
                            done = done + text_piece(r.subrange(0, open_idx as int));
                            assert(events@ =~= before.push(ev));
                        }
                    } else {
                        proof {
                            assert(done + text_piece(r.subrange(0, open_idx as int)) =~= done);
                        }
                    }
                    self.cursor = self.cursor + open_idx;
                    let c1 = self.cursor;
                    let after_start = c1 + open.len();
                    proof {
                        lemma_boundary_iff(b, after_start as int);
                        valid_utf8_split(b, after_start as int);
                    }
                    let (_, after_open) = whole.split_at(after_start);
                    let ab = after_open.as_bytes();
                    let ghost a = b.subrange(after_start as int, b.len() as int);
                    assert(ab@ == a);
                    match find_bytes(ab, close.as_slice(), 0) {
                        None => {
                            proof {
                                lemma_scan_after_none(b, c1 as int, last);
                            }
                            if last {
                                let ev = Self::text_event(whole, c1, total);
                                let ghost before2 = events@;
                                events.push(ev);
                                self.cursor = total;
                                proof {
                                    done = done + seq![ScanPiece::Text(b.subrange(c1 as int, b.len() as int))];
                                    assert(events@ =~= before2.push(ev));
                                    assert(done =~= goal.0);
                                }
                            } else {
                                proof {
                                    assert(done =~= goal.0);
                                }
                            }
                            return events;
                        },
                        Some(close_idx) => {
                            proof {
                                lemma_scan_after_found(b, c1 as int, last, close_idx as int);
                                lemma_find_from(a, scan_close(), 0);
                                lemma_fence_boundaries(b, after_start as int, scan_close(), close_idx as int);
                                lemma_boundary_iff(a, close_idx as int);
                            }
                            let (inner, _) = after_open.split_at(close_idx);
                            let content = trim(inner);
                            let call = safe_parse(content.as_str());
                            let ghost cb = a.subrange(0, close_idx as int);
                            proof {
                                assert(inner.spec_bytes() =~= cb);
                                assert(decode_utf8(cb) == inner@);
                            }
                            let ev = ScanEvent::ToolCall { call, raw: content };
                            let ghost before3 = events@;
                            events.push(ev);
                            self.cursor = after_start + close_idx + close.len();
                            proof {
                                done = done + seq![ScanPiece::Call(cb)];
                                assert(events@ =~= before3.push(ev));
                                assert(event_matches(ev, ScanPiece::Call(cb)));
                            }
                        },
                    }
                },
            }
        }
    }
}

/// The id of a tool call made at `millis` with count `count`.
pub open spec fn call_id(millis: u128, count: u64) -> Seq<char> {
    id_spec("call"@, millis as nat, count as nat)
}

/// A tool call with a fresh id; `count` is the caller's running count of
/// ids made so far.
pub fn tool_call_from_parsed(parsed: ParsedToolCall, count: u64) -> (c: ToolCall)
    ensures
        c.name == parsed.name,
        c.arguments == parsed.arguments,
        exists|millis: u128| c.id@ == #[trigger] call_id(millis, count),
{
    let id = generate_id("call", count);
    proof {
        let m = choose|millis: u128| id@ == id_spec("call"@, millis as nat, count as nat);
        assert(id@ == call_id(m, count));
    }
    ToolCall { id, name: parsed.name, arguments: parsed.arguments }
}

} // verus!
