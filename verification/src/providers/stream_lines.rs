//! Turns the bytes of a response body into text lines, as both the Ollama
//! (one JSON object per line) and the OpenAI-compatible (server-sent events)
//! streams need. Splitting on the newline byte is safe for UTF-8: that byte
//! never occurs inside a multi-byte character.

use vstd::prelude::*;
use crate::text::{
    find_bytes, find_from, from_utf8_lossy, lemma_find_from, lemma_split_lines_append, lemma_split_lines_len, lemma_find_from_unique, lemma_matches_at_skip,
    lossy_utf8, matches_at, split_lines, str_is_empty, trim, trim_spec,
};
use vstd::slice::{slice_subrange, slice_to_vec};

verus! {

/// The lines given for these complete pieces: each read as UTF-8 (invalid
/// sequences replaced) and trimmed, the empty ones left out.
pub open spec fn line_texts(pieces: Seq<Seq<u8>>) -> Seq<Seq<char>>
    decreases pieces.len(),
{
    if pieces.len() == 0 {
        seq![]
    } else {
        let t = trim_spec(lossy_utf8(pieces.last()));
        line_texts(pieces.drop_last()) + if t.len() > 0 {
            seq![t]
        } else {
            seq![]
        }
    }
}

proof fn lemma_split_lines_unfold(b: Seq<u8>)
    ensures
        find_from(b, seq![10u8], 0) is None ==> split_lines(b) == seq![b],
        find_from(b, seq![10u8], 0) matches Some(p) ==> split_lines(b) == seq![b.subrange(0, p)]
            + split_lines(b.subrange(p + 1, b.len() as int)),
{
}

/// The bytes received but not yet ended by a newline.
pub struct LineBuffer {
    buffer: Vec<u8>,
}

impl LineBuffer {
    pub closed spec fn pending(&self) -> Seq<u8> {
        self.buffer@
    }

    /// A buffer that has received nothing.
    pub fn new() -> (b: Self)
        ensures
            b.pending() == Seq::<u8>::empty(),
    {
        LineBuffer { buffer: Vec::new() }
    }

    /// Takes more bytes of the body; returns the lines that they complete.
    /// What follows the last newline waits for more.
    pub fn push_bytes(&mut self, bytes: &[u8]) -> (lines: Vec<String>)
        ensures
            ({
                let pieces = split_lines(old(self).pending() + bytes@);
                &&& final(self).pending() == pieces.last()
                &&& lines@.map_values(|l: String| l@) == line_texts(pieces.drop_last())
            }),
    {
        let ghost start = self.buffer@;
        let mut all = Vec::new();
        core::mem::swap(&mut all, &mut self.buffer);
        all.extend_from_slice(bytes);
        let ghost a = all@;
        let nl: [u8; 1] = [10u8];
        let needle: &[u8] = nl.as_slice();
        let ghost nls: Seq<u8> = seq![10u8];
        assert(needle@ =~= nls);
        let n = all.len();
        let mut lines: Vec<String> = Vec::new();
        let mut pos: usize = 0;
        let ghost mut done: Seq<Seq<u8>> = Seq::empty();
        assert(a.subrange(0, a.len() as int) =~= a);
        assert(done + split_lines(a) =~= split_lines(a));
        loop
            invariant
                needle@ == nls,
                nls == seq![10u8],
                a == all@,
                a == start + bytes@,
                start == old(self).pending(),
                n == a.len(),
                pos <= n,
                split_lines(a) == done + split_lines(a.subrange(pos as int, n as int)),
                lines@.map_values(|l: String| l@) == line_texts(done),
            decreases n - pos,
        {
            let ghost rest = a.subrange(pos as int, n as int);
            proof {
                lemma_split_lines_unfold(rest);
            }
            match find_bytes(all.as_slice(), needle, pos) {
                None => {
                    proof {
                        lemma_find_from(a, nls, pos as int);
                        assert forall|j: int| 0 <= j implies !matches_at(rest, nls, j) by {
                            lemma_matches_at_skip(a, nls, pos as int, j);
                        }
                        lemma_find_from_unique(rest, nls, 0, None);
                        assert(split_lines(a) == done + seq![rest]);
                        assert((done + seq![rest]).drop_last() =~= done);
                    }
                    self.buffer = slice_to_vec(slice_subrange(all.as_slice(), pos, n));
                    assert(self.buffer@ =~= rest);
                    assert((done + seq![rest]).last() == rest);
                    assert(split_lines(start + bytes@).last() == rest);
                    assert(split_lines(start + bytes@).drop_last() == done);
                    assert(self.pending() == rest);
                    return lines;
                },
                Some(p) => {
                    proof {
                        lemma_find_from(a, nls, pos as int);
                        assert forall|j: int| 0 <= j implies matches_at(rest, nls, j) == matches_at(a, nls, pos + j) by {
                            lemma_matches_at_skip(a, nls, pos as int, j);
                        }
                        lemma_find_from_unique(rest, nls, 0, Some(p - pos));
                        assert(nls.len() == 1);
                        assert(p + 1 <= n);
                        assert(rest.subrange(0, p - pos) =~= a.subrange(pos as int, p as int));
                        assert(rest.subrange(p - pos + 1, rest.len() as int) =~= a.subrange(p + 1, n as int));
                    }
                    let piece = slice_subrange(all.as_slice(), pos, p);
                    let text = from_utf8_lossy(piece);
                    let t = trim(text.as_str());
                    let ghost before = lines@.map_values(|l: String| l@);
                    proof {
                        let d2 = done.push(a.subrange(pos as int, p as int));
                        assert(d2.drop_last() =~= done);
                    }
                    if !str_is_empty(t.as_str()) {
                        lines.push(t);
                        assert(lines@.map_values(|l: String| l@) =~= before.push(lines@.last()@));
                    }
                    proof {
                        done = done.push(a.subrange(pos as int, p as int));
                        assert(split_lines(a) =~= done + split_lines(a.subrange(p + 1, n as int)));
                    }
                    pos = p + 1;
                },
            }
        }
    }

    /// The end of the body: what is left, as a last line, unless it is
    /// empty once trimmed.
    pub fn finish(&mut self) -> (line: Option<String>)
        ensures
            final(self).pending() == Seq::<u8>::empty(),
            ({
                let t = trim_spec(lossy_utf8(old(self).pending()));
                match line {
                    Some(l) => l@ == t && t.len() > 0,
                    None => t.len() == 0,
                }
            }),
    {
        let text = from_utf8_lossy(self.buffer.as_slice());
        self.buffer = Vec::new();
        let t = trim(text.as_str());
        if str_is_empty(t.as_str()) {
            None
        } else {
            Some(t)
        }
    }
}

proof fn lemma_line_texts_concat(x: Seq<Seq<u8>>, y: Seq<Seq<u8>>)
    ensures
        line_texts(x + y) == line_texts(x) + line_texts(y),
    decreases y.len(),
{
    if y.len() == 0 {
        assert(x + y =~= x);
        assert(line_texts(x) + line_texts(y) =~= line_texts(x));
    } else {
        lemma_line_texts_concat(x, y.drop_last());
        assert((x + y).drop_last() =~= x + y.drop_last());
        assert((x + y).last() == y.last());
        let t = trim_spec(lossy_utf8(y.last()));
        let tail: Seq<Seq<char>> = if t.len() > 0 {
            seq![t]
        } else {
            seq![]
        };
        assert(line_texts(x) + line_texts(y) =~= line_texts(x) + line_texts(y.drop_last()) + tail);
    }
}

/// Feeding a body in two parts gives the same lines, and leaves the same
/// bytes waiting, as feeding it at once: where the body's bytes are cut
/// into chunks does not matter.
pub proof fn lemma_line_chunking(pending: Seq<u8>, a: Seq<u8>, b: Seq<u8>)
    ensures
        ({
            let first = split_lines(pending + a);
            let second = split_lines(first.last() + b);
            let whole = split_lines(pending + (a + b));
            &&& line_texts(first.drop_last()) + line_texts(second.drop_last()) == line_texts(whole.drop_last())
            &&& second.last() == whole.last()
        }),
{
    let s = pending + a;
    assert(pending + (a + b) =~= s + b);
    lemma_split_lines_append(s, b);
    let first = split_lines(s);
    let second = split_lines(first.last() + b);
    lemma_split_lines_len(first.last() + b);
    let whole = first.drop_last() + second;
    assert(whole.drop_last() =~= first.drop_last() + second.drop_last());
    assert(whole.last() == second.last());
    lemma_line_texts_concat(first.drop_last(), second.drop_last());
}

} // verus!
