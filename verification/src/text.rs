//! Byte- and character-level helpers shared by the scanners: UTF-8 boundary
//! facts, first-occurrence search, and whitespace trimming.

use vstd::prelude::*;
use vstd::string::{StringExecFns, StringSliceAdditionalSpecFns, StrSliceExecFns};
use vstd::utf8::*;

verus! {

broadcast use vstd::utf8::encode_utf8_valid_utf8;

/// The UTF-8 bytes of a character sequence.
pub open spec fn utf8(s: Seq<char>) -> Seq<u8> {
    encode_utf8(s)
}

/// `i` is a character boundary of `bytes`: the start, the end, or a byte
/// that is not a UTF-8 continuation byte.
pub open spec fn boundary(bytes: Seq<u8>, i: int) -> bool {
    ||| i == 0
    ||| i == bytes.len()
    ||| (0 < i < bytes.len() && !is_continuation_byte(bytes[i]))
}

/// The greatest character boundary of `bytes` that is not after `index`
/// (the length of `bytes` when `index` is past its end).
pub open spec fn floor_boundary(bytes: Seq<u8>, index: int) -> int
    decreases index,
{
    if index >= bytes.len() {
        bytes.len() as int
    } else if index <= 0 {
        0
    } else if boundary(bytes, index) {
        index
    } else {
        floor_boundary(bytes, index - 1)
    }
}

pub proof fn lemma_floor_boundary(bytes: Seq<u8>, index: int)
    ensures
        0 <= floor_boundary(bytes, index) <= bytes.len(),
        index >= 0 ==> floor_boundary(bytes, index) <= index,
        boundary(bytes, floor_boundary(bytes, index)),
    decreases index,
{
    if index >= bytes.len() {
    } else if index <= 0 {
    } else if boundary(bytes, index) {
    } else {
        lemma_floor_boundary(bytes, index - 1);
    }
}

/// On valid UTF-8, vstd's `is_char_boundary` is exactly `boundary`.
pub proof fn lemma_boundary_iff(bytes: Seq<u8>, i: int)
    requires
        valid_utf8(bytes),
        0 <= i <= bytes.len(),
    ensures
        is_char_boundary(bytes, i) <==> boundary(bytes, i),
{
    if i == 0 {
    } else if i == bytes.len() {
        is_char_boundary_start_end_of_seq(bytes);
    } else {
        is_char_boundary_iff_not_is_continuation_byte(bytes, i);
    }
}

/// The first byte of non-empty valid UTF-8 is not a continuation byte.
pub proof fn lemma_valid_first_not_continuation(bytes: Seq<u8>)
    requires
        valid_utf8(bytes),
        bytes.len() > 0,
    ensures
        !is_continuation_byte(bytes[0]),
{
}

/// Appending valid UTF-8 keeps every boundary of the prefix a boundary.
pub proof fn lemma_boundary_append(a: Seq<u8>, b: Seq<u8>, i: int)
    requires
        boundary(a, i),
        0 <= i <= a.len(),
        valid_utf8(b),
    ensures
        boundary(a + b, i),
{
    if i == a.len() && b.len() > 0 {
        assert((a + b)[i] == b[0]);
    } else if 0 < i < a.len() {
        assert((a + b)[i] == a[i]);
    }
}

/// The UTF-8 encoding of a concatenation is the concatenation of encodings.
pub proof fn lemma_utf8_concat(a: Seq<char>, b: Seq<char>)
    ensures
        utf8(a + b) == utf8(a) + utf8(b),
    decreases a.len(),
{
    if a.len() == 0 {
        assert(a + b =~= b);
        assert(utf8(a) + utf8(b) =~= utf8(b));
    } else {
        lemma_utf8_concat(a.drop_first(), b);
        assert((a + b).drop_first() =~= a.drop_first() + b);
        assert((a + b)[0] == a[0]);
        assert(utf8(a) + utf8(b) =~= encode_scalar(a[0] as u32) + (utf8(a.drop_first()) + utf8(b)));
    }
}

/// A subrange of valid UTF-8 that starts and ends at boundaries is valid UTF-8.
pub proof fn lemma_valid_subrange(bytes: Seq<u8>, i: int, j: int)
    requires
        valid_utf8(bytes),
        0 <= i <= j <= bytes.len(),
        boundary(bytes, i),
        boundary(bytes, j),
    ensures
        valid_utf8(bytes.subrange(i, j)),
        forall|k: int| 0 <= k <= j - i ==> (boundary(bytes.subrange(i, j), k) <==> boundary(bytes, i + k)),
{
    lemma_boundary_iff(bytes, i);
    lemma_boundary_iff(bytes, j);
    valid_utf8_split(bytes, j);
    let pre = bytes.subrange(0, j);
    assert(forall|k: int| 0 <= k < j ==> pre[k] == bytes[k]);
    if i < j {
        lemma_boundary_iff(pre, i);
        is_char_boundary_iff_not_is_continuation_byte(pre, i);
    }
    if i == j {
        assert(pre.subrange(i, j) =~= Seq::<u8>::empty());
    } else {
        valid_utf8_split(pre, i);
    }
    assert(pre.subrange(i, pre.len() as int) =~= bytes.subrange(i, j));
}

/// In valid UTF-8, the byte after an ASCII byte is not a continuation byte.
pub proof fn lemma_after_ascii(bytes: Seq<u8>, k: int)
    requires
        valid_utf8(bytes),
        0 <= k,
        k + 1 < bytes.len(),
        bytes[k] < 0x80,
    ensures
        !is_continuation_byte(bytes[k + 1]),
{
    lemma_boundary_iff(bytes, k);
    valid_utf8_split(bytes, k);
    let s = bytes.subrange(k, bytes.len() as int);
    assert(s[0] == bytes[k]);
    assert(valid_utf8(s));
    assert(valid_first_scalar(s));
    assert(length_of_first_scalar(s) == 1);
    let rest = pop_first_scalar(s);
    assert(valid_utf8(rest));
    assert(rest.len() > 0);
    assert(valid_first_scalar(rest));
    assert(rest[0] == bytes[k + 1]);
}

/// A boundary of a suffix is a boundary of the whole, shifted.
pub proof fn lemma_boundary_shift(bytes: Seq<u8>, c: int, j: int)
    requires
        0 <= c <= bytes.len(),
        boundary(bytes, c),
        0 <= j <= bytes.len() - c,
        boundary(bytes.subrange(c, bytes.len() as int), j),
    ensures
        boundary(bytes, c + j),
{
    let r = bytes.subrange(c, bytes.len() as int);
    if 0 < j < r.len() {
        assert(r[j] == bytes[c + j]);
    }
}

/// The bytes of `s`, each paired with `kind`.
pub open spec fn tag_bytes<K>(kind: K, s: Seq<u8>) -> Seq<(K, u8)> {
    s.map_values(|x: u8| (kind, x))
}

/// The bytes of a sequence of events, each paired with its event's kind: how
/// a reader sees the stream, whatever the event boundaries.
pub open spec fn tagged<K>(evs: Seq<(K, Seq<u8>)>) -> Seq<(K, u8)>
    decreases evs.len(),
{
    if evs.len() == 0 {
        seq![]
    } else {
        tagged(evs.drop_last()) + tag_bytes(evs.last().0, evs.last().1)
    }
}

pub proof fn lemma_tag_bytes_concat<K>(kind: K, a: Seq<u8>, b: Seq<u8>)
    ensures
        tag_bytes(kind, a + b) == tag_bytes(kind, a) + tag_bytes(kind, b),
{
    assert(tag_bytes(kind, a + b) =~= tag_bytes(kind, a) + tag_bytes(kind, b));
}

pub proof fn lemma_tagged_concat<K>(a: Seq<(K, Seq<u8>)>, b: Seq<(K, Seq<u8>)>)
    ensures
        tagged(a + b) == tagged(a) + tagged(b),
    decreases b.len(),
{
    if b.len() == 0 {
        assert(a + b =~= a);
        assert(tagged(a) + tagged(b) =~= tagged(a));
    } else {
        lemma_tagged_concat(a, b.drop_last());
        assert((a + b).drop_last() =~= a + b.drop_last());
        assert((a + b).last() == b.last());
        assert(tagged(a + b) =~= tagged(a) + tagged(b));
    }
}

/// The concatenation of a sequence of chunks.
pub open spec fn concat_all(chunks: Seq<Seq<u8>>) -> Seq<u8>
    decreases chunks.len(),
{
    if chunks.len() == 0 {
        seq![]
    } else {
        concat_all(chunks.drop_last()) + chunks.last()
    }
}

/// The concatenation of a sequence of text chunks.
pub open spec fn concat_texts(chunks: Seq<Seq<char>>) -> Seq<char>
    decreases chunks.len(),
{
    if chunks.len() == 0 {
        seq![]
    } else {
        concat_texts(chunks.drop_last()) + chunks.last()
    }
}

/// The UTF-8 bytes of each chunk of a text.
pub open spec fn chunk_bytes(chunks: Seq<Seq<char>>) -> Seq<Seq<u8>> {
    chunks.map_values(|c: Seq<char>| utf8(c))
}

/// Cutting a text into chunks and encoding each gives, put together, the
/// encoding of the text.
pub proof fn lemma_chunk_bytes(chunks: Seq<Seq<char>>)
    ensures
        concat_all(chunk_bytes(chunks)) == utf8(concat_texts(chunks)),
    decreases chunks.len(),
{
    if chunks.len() == 0 {
        assert(utf8(Seq::<char>::empty()) =~= Seq::<u8>::empty());
    } else {
        lemma_chunk_bytes(chunks.drop_last());
        assert(chunk_bytes(chunks).drop_last() =~= chunk_bytes(chunks.drop_last()));
        lemma_utf8_concat(concat_texts(chunks.drop_last()), chunks.last());
    }
}

/// `needle` occurs in `hay` at position `i`.
pub open spec fn matches_at(hay: Seq<u8>, needle: Seq<u8>, i: int) -> bool {
    &&& 0 <= i
    &&& i + needle.len() <= hay.len()
    &&& hay.subrange(i, i + needle.len()) == needle
}

/// The first position at or after `i` where `needle` occurs in `hay`.
pub open spec fn find_from(hay: Seq<u8>, needle: Seq<u8>, i: int) -> Option<int>
    decreases hay.len() + 1 - i,
{
    if i < 0 || i + needle.len() > hay.len() {
        None
    } else if matches_at(hay, needle, i) {
        Some(i)
    } else {
        find_from(hay, needle, i + 1)
    }
}

/// What `find_from` returns, in words: the least match at or after `i`.
pub proof fn lemma_find_from(hay: Seq<u8>, needle: Seq<u8>, i: int)
    requires
        0 <= i,
    ensures
        find_from(hay, needle, i) matches Some(p) ==> {
            &&& i <= p
            &&& matches_at(hay, needle, p)
            &&& forall|j: int| i <= j < p ==> !matches_at(hay, needle, j)
        },
        find_from(hay, needle, i) is None ==> forall|j: int|
            i <= j ==> !matches_at(hay, needle, j),
    decreases hay.len() + 1 - i,
{
    if i + needle.len() > hay.len() {
    } else if matches_at(hay, needle, i) {
    } else {
        lemma_find_from(hay, needle, i + 1);
    }
}

/// The least match at or after `i` is what `find_from` returns.
pub proof fn lemma_find_from_unique(hay: Seq<u8>, needle: Seq<u8>, i: int, p: Option<int>)
    requires
        0 <= i,
        p matches Some(q) ==> {
            &&& i <= q
            &&& matches_at(hay, needle, q)
            &&& forall|j: int| i <= j < q ==> !matches_at(hay, needle, j)
        },
        p is None ==> forall|j: int| i <= j ==> !matches_at(hay, needle, j),
    ensures
        find_from(hay, needle, i) == p,
{
    lemma_find_from(hay, needle, i);
    match find_from(hay, needle, i) {
        Some(q1) => {
            match p {
                Some(q) => {
                    if q1 < q {
                    } else if q < q1 {
                    }
                },
                None => {},
            }
        },
        None => {
            match p {
                Some(q) => {},
                None => {},
            }
        },
    }
}

/// A prefix of `hay` ending before any match of `needle` holds no match.
pub proof fn lemma_no_match_in_prefix(hay: Seq<u8>, needle: Seq<u8>, e: int)
    requires
        0 <= e <= hay.len(),
        forall|j: int| 0 <= j && j + needle.len() <= e ==> !matches_at(hay, needle, j),
    ensures
        find_from(hay.subrange(0, e), needle, 0) is None,
{
    let p = hay.subrange(0, e);
    assert forall|j: int| 0 <= j implies !matches_at(p, needle, j) by {
        if j + needle.len() <= e {
            assert(!matches_at(hay, needle, j));
            assert(p.subrange(j, j + needle.len()) =~= hay.subrange(j, j + needle.len()));
        } else {
            assert(p.len() == e);
        }
    }
    lemma_find_from_unique(p, needle, 0, None);
}

/// Extending the haystack cannot move a match that ends inside it.
pub proof fn lemma_matches_at_extend(hay: Seq<u8>, more: Seq<u8>, needle: Seq<u8>, j: int)
    requires
        0 <= j,
        j + needle.len() <= hay.len(),
    ensures
        matches_at(hay + more, needle, j) == matches_at(hay, needle, j),
{
    assert((hay + more).subrange(j, j + needle.len()) =~= hay.subrange(j, j + needle.len()));
}

/// Matches in a suffix are matches in the whole, shifted.
pub proof fn lemma_matches_at_skip(hay: Seq<u8>, needle: Seq<u8>, k: int, j: int)
    requires
        0 <= k <= hay.len(),
        0 <= j,
    ensures
        matches_at(hay.subrange(k, hay.len() as int), needle, j) == matches_at(hay, needle, k + j),
{
    let s = hay.subrange(k, hay.len() as int);
    if j + needle.len() <= s.len() {
        assert(s.subrange(j, j + needle.len()) =~= hay.subrange(k + j, k + j + needle.len()));
    }
}

/// `needle` occurs at byte `i` of `hay` (executable).
pub fn bytes_match_at(hay: &[u8], needle: &[u8], i: usize) -> (r: bool)
    requires
        i <= hay@.len(),
    ensures
        r == matches_at(hay@, needle@, i as int),
{
    let hl = hay.len();
    if needle.len() > hl - i {
        return false;
    }
    let mut k: usize = 0;
    while k < needle.len()
        invariant
            hl == hay@.len(),
            i + needle@.len() <= hay@.len(),
            0 <= k <= needle@.len(),
            forall|m: int| 0 <= m < k ==> hay@[i + m] == needle@[m],
        decreases needle@.len() - k,
    {
        if hay[i + k] != needle[k] {
            assert(hay@.subrange(i as int, i + needle@.len())[k as int] != needle@[k as int]);
            return false;
        }
        k += 1;
    }
    assert(hay@.subrange(i as int, i + needle@.len()) =~= needle@);
    true
}

/// The first position at or after `start` where `needle` occurs in `hay`.
pub fn find_bytes(hay: &[u8], needle: &[u8], start: usize) -> (r: Option<usize>)
    ensures
        match r {
            Some(p) => find_from(hay@, needle@, start as int) == Some(p as int),
            None => find_from(hay@, needle@, start as int) is None,
        },
{
    let hl = hay.len();
    if needle.len() == 0 {
        if start <= hl {
            assert(hay@.subrange(start as int, start as int) =~= needle@);
            return Some(start);
        }
        return None;
    }
    let mut i = start;
    while i <= hl && needle.len() <= hl - i
        invariant
            hl == hay@.len(),
            needle@.len() > 0,
            start <= i,
            find_from(hay@, needle@, start as int) == find_from(hay@, needle@, i as int),
        decreases hay@.len() + 1 - i,
    {
        if bytes_match_at(hay, needle, i) {
            return Some(i);
        }
        i += 1;
    }
    None
}

/// `c` has the Unicode `White_Space` property, as `char::is_whitespace` tests.
pub open spec fn is_white(c: char) -> bool {
    let u = c as u32;
    ||| 0x09 <= u <= 0x0D
    ||| u == 0x20
    ||| u == 0x85
    ||| u == 0xA0
    ||| u == 0x1680
    ||| 0x2000 <= u <= 0x200A
    ||| u == 0x2028
    ||| u == 0x2029
    ||| u == 0x202F
    ||| u == 0x205F
    ||| u == 0x3000
}

/// Number of leading whitespace characters.
pub open spec fn lead_ws(s: Seq<char>) -> nat
    decreases s.len(),
{
    if s.len() > 0 && is_white(s[0]) {
        1 + lead_ws(s.drop_first())
    } else {
        0
    }
}

/// Number of trailing whitespace characters.
pub open spec fn trail_ws(s: Seq<char>) -> nat
    decreases s.len(),
{
    if s.len() > 0 && is_white(s.last()) {
        1 + trail_ws(s.drop_last())
    } else {
        0
    }
}

/// `s` without leading and trailing whitespace, as `str::trim` returns it.
pub open spec fn trim_spec(s: Seq<char>) -> Seq<char> {
    let t = s.skip(lead_ws(s) as int);
    t.take(t.len() - trail_ws(t))
}

pub fn is_whitespace_char(c: char) -> (r: bool)
    ensures
        r == is_white(c),
{
    let u = c as u32;
    (0x09 <= u && u <= 0x0D) || u == 0x20 || u == 0x85 || u == 0xA0 || u == 0x1680 || (0x2000 <= u
        && u <= 0x200A) || u == 0x2028 || u == 0x2029 || u == 0x202F || u == 0x205F || u == 0x3000
}

proof fn lemma_lead_ws_bound(s: Seq<char>)
    ensures
        lead_ws(s) <= s.len(),
    decreases s.len(),
{
    if s.len() > 0 && is_white(s[0]) {
        lemma_lead_ws_bound(s.drop_first());
    }
}

proof fn lemma_trail_ws_bound(s: Seq<char>)
    ensures
        trail_ws(s) <= s.len(),
    decreases s.len(),
{
    if s.len() > 0 && is_white(s.last()) {
        lemma_trail_ws_bound(s.drop_last());
    }
}

/// The first `k` characters are whitespace and character `k` (if any) is not.
proof fn lemma_lead_ws_char(s: Seq<char>, k: int)
    requires
        0 <= k <= s.len(),
        forall|m: int| 0 <= m < k ==> is_white(s[m]),
        k < s.len() ==> !is_white(s[k]),
    ensures
        lead_ws(s) == k,
    decreases k,
{
    if k > 0 {
        lemma_lead_ws_char(s.drop_first(), k - 1);
    }
}

proof fn lemma_trail_ws_char(s: Seq<char>, k: int)
    requires
        0 <= k <= s.len(),
        forall|m: int| s.len() - k <= m < s.len() ==> is_white(s[m]),
        k < s.len() ==> !is_white(s[s.len() - 1 - k]),
    ensures
        trail_ws(s) == k,
    decreases k,
{
    if k > 0 {
        lemma_trail_ws_char(s.drop_last(), k - 1);
    }
}

/// `s` without leading and trailing whitespace.
pub fn trim(s: &str) -> (r: String)
    ensures
        r@ == trim_spec(s@),
{
    let n = s.unicode_len();
    let mut a: usize = 0;
    while a < n && is_whitespace_char(s.get_char(a))
        invariant
            n == s@.len(),
            a <= n,
            forall|m: int| 0 <= m < a ==> is_white(s@[m]),
        decreases n - a,
    {
        a += 1;
    }
    proof {
        lemma_lead_ws_char(s@, a as int);
    }
    let mut b: usize = n;
    while b > a && is_whitespace_char(s.get_char(b - 1))
        invariant
            n == s@.len(),
            a <= b <= n,
            forall|m: int| b <= m < n ==> is_white(s@[m]),
        decreases b,
    {
        b -= 1;
    }
    let ghost t = s@.skip(a as int);
    proof {
        assert forall|m: int| t.len() - (n - b) <= m < t.len() implies is_white(t[m]) by {
            assert(t[m] == s@[a + m]);
        }
        if n - b < t.len() {
            assert(t[t.len() - 1 - (n - b)] == s@[b - 1]);
        }
        lemma_trail_ws_char(t, (n - b) as int);
    }
    let sub = s.substring_char(a, b);
    assert(sub@ =~= trim_spec(s@));
    sub.to_owned()
}


/// A valid UTF-8 prefix of valid UTF-8 ends at a character boundary.
pub proof fn lemma_prefix_end_boundary(s: Seq<u8>, n: Seq<u8>)
    requires
        valid_utf8(s),
        valid_utf8(n),
        n.len() <= s.len(),
        s.subrange(0, n.len() as int) == n,
    ensures
        boundary(s, n.len() as int),
    decreases n.len(),
{
    if n.len() == 0 || n.len() == s.len() {
    } else {
        assert(s[0] == n[0]) by {
            assert(s.subrange(0, n.len() as int)[0] == s[0]);
        }
        assert(valid_first_scalar(s));
        assert(valid_first_scalar(n));
        let l = length_of_first_scalar(s);
        assert(l == length_of_first_scalar(n));
        assert forall|k: int| 0 <= k < l implies s[k] == n[k] by {
            assert(s.subrange(0, n.len() as int)[k] == s[k]);
        }
        let s2 = pop_first_scalar(s);
        let n2 = pop_first_scalar(n);
        assert(valid_utf8(s2));
        assert(valid_utf8(n2));
        assert(s2.subrange(0, n2.len() as int) =~= n2) by {
            assert forall|k: int| 0 <= k < n2.len() implies s2.subrange(0, n2.len() as int)[k] == n2[k] by {
                assert(s2[k] == s[l + k]);
                assert(n2[k] == n[l + k]);
                assert(s.subrange(0, n.len() as int)[l + k] == s[l + k]);
            }
        }
        lemma_prefix_end_boundary(s2, n2);
        if n2.len() == 0 {
            assert(s2[0] == s[l]);
        } else if n2.len() < s2.len() {
            assert(s2[n2.len() as int] == s[n.len() as int]);
        }
    }
}

/// Where valid UTF-8 `n` occurs in valid UTF-8 `h`, both ends of the match
/// are character boundaries.
pub proof fn lemma_match_boundaries(h: Seq<u8>, n: Seq<u8>, p: int)
    requires
        valid_utf8(h),
        valid_utf8(n),
        n.len() > 0,
        matches_at(h, n, p),
    ensures
        boundary(h, p),
        boundary(h, p + n.len()),
{
    assert(h[p] == n[0]) by {
        assert(h.subrange(p, p + n.len())[0] == h[p]);
    }
    if p > 0 {
        lemma_valid_first_not_continuation(n);
    }
    lemma_boundary_iff(h, p);
    valid_utf8_split(h, p);
    let t = h.subrange(p, h.len() as int);
    assert(t.subrange(0, n.len() as int) =~= h.subrange(p, p + n.len()));
    lemma_prefix_end_boundary(t, n);
    lemma_boundary_shift(h, p, n.len() as int);
}

/// `s` with its first occurrence of `from` (an empty one is at the start)
/// replaced by `to`.
pub open spec fn replace_first_spec(s: Seq<u8>, from: Seq<u8>, to: Seq<u8>) -> Seq<u8> {
    match find_from(s, from, 0) {
        None => s,
        Some(p) => s.subrange(0, p) + to + s.subrange(p + from.len(), s.len() as int),
    }
}

/// `s.replacen(from, to, 1)`: the first occurrence of `from` replaced.
pub fn replace_first(s: &str, from: &str, to: &str) -> (r: String)
    ensures
        utf8(r@) == replace_first_spec(s.spec_bytes(), from.spec_bytes(), to.spec_bytes()),
{
    let h = s.as_bytes();
    let n = from.as_bytes();
    match find_bytes(h, n, 0) {
        None => s.to_owned(),
        Some(p) => {
            proof {
                lemma_find_from(h@, n@, 0);
                if n@.len() > 0 {
                    lemma_match_boundaries(h@, n@, p as int);
                } else {
                    assert(matches_at(h@, n@, 0)) by {
                        assert(h@.subrange(0, 0) =~= n@);
                    }
                    assert(p == 0);
                }
                lemma_boundary_iff(h@, p as int);
                lemma_boundary_iff(h@, p + n@.len());
            }
            let (head, rest) = s.split_at(p);
            proof {
                lemma_valid_subrange(h@, p as int, h@.len() as int);
                lemma_boundary_iff(rest.spec_bytes(), n@.len() as int);
            }
            let (_, tail) = rest.split_at(n.len());
            let mut r = head.to_owned();
            r.append(to);
            r.append(tail);
            proof {
                lemma_utf8_concat(head@, to@);
                lemma_utf8_concat(head@ + to@, tail@);
                assert(tail.spec_bytes() =~= h@.subrange(p + n@.len(), h@.len() as int));
            }
            r
        },
    }
}

/// The pieces of `b` between newline bytes, as `str::split('\n')` gives
/// them (always at least one).
pub open spec fn split_lines(b: Seq<u8>) -> Seq<Seq<u8>>
    decreases b.len(),
{
    match find_from(b, seq![10u8], 0) {
        None => seq![b],
        Some(p) => {
            proof {
                lemma_find_from(b, seq![10u8], 0);
            }
            seq![b.subrange(0, p)] + split_lines(b.subrange(p + 1, b.len() as int))
        },
    }
}

proof fn lemma_split_lines_unfold(b: Seq<u8>)
    ensures
        find_from(b, seq![10u8], 0) is None ==> split_lines(b) == seq![b],
        find_from(b, seq![10u8], 0) matches Some(p) ==> split_lines(b) == seq![b.subrange(0, p)]
            + split_lines(b.subrange(p + 1, b.len() as int)),
{
}

/// `rg` is a range of character boundaries of `bs` that holds `line`.
pub open spec fn line_range_ok(bs: Seq<u8>, rg: (usize, usize), line: Seq<u8>) -> bool {
    &&& rg.0 <= rg.1 <= bs.len()
    &&& boundary(bs, rg.0 as int)
    &&& boundary(bs, rg.1 as int)
    &&& bs.subrange(rg.0 as int, rg.1 as int) == line
}

/// Byte ranges of the lines of `s` (see `split_lines`).
pub fn line_ranges(s: &str) -> (r: Vec<(usize, usize)>)
    ensures
        r@.len() == split_lines(s.spec_bytes()).len(),
        forall|k: int|
            0 <= k < r@.len() ==> line_range_ok(s.spec_bytes(), #[trigger] r@[k], split_lines(s.spec_bytes())[k]),
{
    let b = s.as_bytes();
    let nl: [u8; 1] = [10u8];
    let needle: &[u8] = nl.as_slice();
    let ghost nls: Seq<u8> = seq![10u8];
    assert(needle@ =~= nls);
    assert(valid_utf8(b@));
    let bl = b.len();
    let mut r: Vec<(usize, usize)> = Vec::new();
    let mut pos: usize = 0;
    proof {
        assert(b@.subrange(0, b@.len() as int) =~= b@);
        assert(Seq::new(r@.len(), |k: int| b@.subrange(r@[k].0 as int, r@[k].1 as int)) + split_lines(b@)
            =~= split_lines(b@));
    }
    loop
        invariant
            needle@ == nls,
            nls == seq![10u8],
            valid_utf8(b@),
            b@ == s.spec_bytes(),
            bl == b@.len(),
            pos <= b@.len(),
            boundary(b@, pos as int),
            split_lines(b@) == Seq::new(r@.len(), |k: int| b@.subrange(r@[k].0 as int, r@[k].1 as int))
                + split_lines(b@.subrange(pos as int, b@.len() as int)),
            forall|k: int|
                0 <= k < r@.len() ==> {
                    &&& r@[k].0 <= r@[k].1 <= b@.len()
                    &&& boundary(b@, r@[k].0 as int)
                    &&& boundary(b@, r@[k].1 as int)
                },
        decreases b@.len() - pos,
    {
        let ghost rest = b@.subrange(pos as int, b@.len() as int);
        let ghost before = r@;
        let ghost done = Seq::new(before.len(), |k: int| b@.subrange(before[k].0 as int, before[k].1 as int));
        proof {
            lemma_split_lines_unfold(rest);
        }
        match find_bytes(b, needle, pos) {
            None => {
                proof {
                    lemma_find_from(b@, nls, pos as int);
                    assert forall|j: int| 0 <= j implies !matches_at(rest, nls, j) by {
                        lemma_matches_at_skip(b@, nls, pos as int, j);
                    }
                    lemma_find_from_unique(rest, nls, 0, None);
                }
                r.push((pos, bl));
                proof {
                    assert(split_lines(rest) == seq![rest]);
                    assert(Seq::new(r@.len(), |k: int| b@.subrange(r@[k].0 as int, r@[k].1 as int)) =~= done
                        + seq![rest]);
                }
                return r;
            },
            Some(p) => {
                proof {
                    lemma_find_from(b@, nls, pos as int);
                    assert forall|j: int| 0 <= j implies matches_at(rest, nls, j) == matches_at(
                        b@,
                        nls,
                        pos + j,
                    ) by {
                        lemma_matches_at_skip(b@, nls, pos as int, j);
                    }
                    lemma_find_from_unique(rest, nls, 0, Some(p - pos));
                    assert(matches_at(b@, nls, p as int));
                    assert(b@.subrange(p as int, p + 1)[0] == b@[p as int]);
                    assert(nls[0] == 10u8);
                    assert(nls.len() == 1);
                    assert(p + 1 <= b@.len());
                    assert(b@[p as int] == 10u8);
                    if p + 1 < b@.len() {
                        lemma_after_ascii(b@, p as int);
                    }
                    if 0 < p {
                        lemma_boundary_iff(b@, p as int);
                        is_char_boundary_iff_not_is_continuation_byte(b@, p as int);
                    }
                    assert(boundary(b@, p as int));
                    assert(boundary(b@, p + 1));
                    assert(rest.subrange(0, p - pos) =~= b@.subrange(pos as int, p as int));
                    assert(rest.subrange(p - pos + 1, rest.len() as int) =~= b@.subrange(
                        p + 1,
                        b@.len() as int,
                    ));
                }
                r.push((pos, p));
                pos = p + 1;
                proof {
                    assert(Seq::new(r@.len(), |k: int| b@.subrange(r@[k].0 as int, r@[k].1 as int)) =~= done
                        + seq![b@.subrange(r@[before.len() as int].0 as int, p as int)]);
                }
            },
        }
    }
}

/// The items joined by `sep`.
pub open spec fn join(items: Seq<Seq<char>>, sep: Seq<char>) -> Seq<char>
    decreases items.len(),
{
    if items.len() == 0 {
        seq![]
    } else if items.len() == 1 {
        items[0]
    } else {
        join(items.drop_last(), sep) + sep + items.last()
    }
}

/// Joining one more item.
pub proof fn lemma_join_push(items: Seq<Seq<char>>, sep: Seq<char>, x: Seq<char>)
    ensures
        join(items.push(x), sep) == if items.len() == 0 {
            x
        } else {
            join(items, sep) + sep + x
        },
{
    assert(items.push(x).drop_last() =~= items);
}

/// `items` joined by `sep` (`[..].join(sep)`).
pub fn join_strings(items: &Vec<String>, sep: &str) -> (s: String)
    ensures
        s@ == join(items@.map_values(|x: String| x@), sep@),
{
    let ghost v = items@.map_values(|x: String| x@);
    let mut s = String::new();
    let mut i: usize = 0;
    while i < items.len()
        invariant
            v == items@.map_values(|x: String| x@),
            i <= items@.len(),
            s@ == join(v.take(i as int), sep@),
        decreases items@.len() - i,
    {
        proof {
            assert(v.take(i + 1) =~= v.take(i as int).push(items@[i as int]@));
            lemma_join_push(v.take(i as int), sep@, items@[i as int]@);
        }
        if i > 0 {
            s.append(sep);
        }
        s.append(items[i].as_str());
        i += 1;
    }
    proof {
        assert(v.take(items@.len() as int) =~= v);
    }
    s
}

/// The part of `s` between the boundaries `a` and `b`.
pub fn substr<'a>(s: &'a str, a: usize, b: usize) -> (r: &'a str)
    requires
        a <= b <= s.spec_bytes().len(),
        boundary(s.spec_bytes(), a as int),
        boundary(s.spec_bytes(), b as int),
    ensures
        r.spec_bytes() == s.spec_bytes().subrange(a as int, b as int),
        r@ == decode_utf8(s.spec_bytes().subrange(a as int, b as int)),
{
    let ghost bs = s.spec_bytes();
    proof {
        lemma_boundary_iff(bs, b as int);
    }
    let (head, _) = s.split_at(b);
    proof {
        lemma_valid_subrange(bs, 0, b as int);
        lemma_boundary_iff(head.spec_bytes(), a as int);
    }
    let (_, r) = head.split_at(a);
    proof {
        assert(r.spec_bytes() =~= bs.subrange(a as int, b as int));
        encode_utf8_decode_utf8(r@);
    }
    r
}

/// The lines of `s`, as `str::split('\n')` gives them: the pieces between
/// newline characters (always at least one).
pub open spec fn text_lines(s: Seq<char>) -> Seq<Seq<char>> {
    split_lines(utf8(s)).map_values(|l: Seq<u8>| decode_utf8(l))
}

/// The lines of `s` (`s.split('\n')`).
pub fn lines_of<'a>(s: &'a str) -> (r: Vec<&'a str>)
    ensures
        r@.len() == text_lines(s@).len(),
        forall|k: int| 0 <= k < r@.len() ==> (#[trigger] r@[k])@ == text_lines(s@)[k],
{
    let ranges = line_ranges(s);
    let mut r: Vec<&'a str> = Vec::new();
    let mut i: usize = 0;
    while i < ranges.len()
        invariant
            i <= ranges@.len(),
            r@.len() == i,
            ranges@.len() == split_lines(s.spec_bytes()).len(),
            forall|k: int|
                0 <= k < ranges@.len() ==> line_range_ok(
                    s.spec_bytes(),
                    #[trigger] ranges@[k],
                    split_lines(s.spec_bytes())[k],
                ),
            forall|k: int| 0 <= k < i ==> (#[trigger] r@[k])@ == text_lines(s@)[k],
        decreases ranges@.len() - i,
    {
        let (a, b) = ranges[i];
        assert(line_range_ok(s.spec_bytes(), ranges@[i as int], split_lines(s.spec_bytes())[i as int]));
        let piece = substr(s, a, b);
        r.push(piece);
        i += 1;
    }
    r
}

/// Only the empty text has no bytes.
pub proof fn lemma_utf8_empty(s: Seq<char>)
    ensures
        (utf8(s).len() == 0) == (s.len() == 0),
{
    if s.len() > 0 {
        assert(encode_scalar(s[0] as u32).len() >= 1);
    }
}

/// Whether `s` is empty.
pub fn str_is_empty(s: &str) -> (r: bool)
    ensures
        r == (s@.len() == 0),
{
    proof {
        lemma_utf8_empty(s@);
    }
    s.as_bytes().len() == 0
}

/// Whether `a` and `b` are the same text.
pub fn str_eq(a: &str, b: &str) -> (r: bool)
    ensures
        r == (a@ == b@),
{
    let x = a.as_bytes();
    let y = b.as_bytes();
    proof {
        encode_utf8_decode_utf8(a@);
        encode_utf8_decode_utf8(b@);
    }
    if x.len() != y.len() {
        return false;
    }
    let mut k: usize = 0;
    while k < x.len()
        invariant
            x@ == a.spec_bytes(),
            y@ == b.spec_bytes(),
            x@.len() == y@.len(),
            k <= x@.len(),
            forall|m: int| 0 <= m < k ==> x@[m] == y@[m],
        decreases x@.len() - k,
    {
        if x[k] != y[k] {
            return false;
        }
        k += 1;
    }
    assert(x@ =~= y@);
    true
}

/// The two pieces one after another.
pub fn concat2(a: &str, b: &str) -> (r: String)
    ensures
        r@ == a@ + b@,
{
    let mut r = String::from_str(a);
    r.append(b);
    r
}

/// The three pieces one after another.
pub fn concat3(a: &str, b: &str, c: &str) -> (r: String)
    ensures
        r@ == a@ + b@ + c@,
{
    let mut r = String::from_str(a);
    r.append(b);
    r.append(c);
    r
}

/// `a` comes before `b` in byte order, the order of `str`'s `Ord`.
pub open spec fn bytes_lt(a: Seq<u8>, b: Seq<u8>) -> bool
    decreases a.len(),
{
    if a.len() == 0 {
        b.len() > 0
    } else if b.len() == 0 {
        false
    } else if a[0] != b[0] {
        a[0] < b[0]
    } else {
        bytes_lt(a.drop_first(), b.drop_first())
    }
}

pub proof fn lemma_bytes_lt_trans(a: Seq<u8>, b: Seq<u8>, c: Seq<u8>)
    requires
        bytes_lt(a, b),
        bytes_lt(b, c),
    ensures
        bytes_lt(a, c),
    decreases a.len(),
{
    if a.len() > 0 && b.len() > 0 && c.len() > 0 && a[0] == b[0] && b[0] == c[0] {
        lemma_bytes_lt_trans(a.drop_first(), b.drop_first(), c.drop_first());
    }
}

pub proof fn lemma_bytes_lt_asym(a: Seq<u8>, b: Seq<u8>)
    ensures
        !(bytes_lt(a, b) && bytes_lt(b, a)),
    decreases a.len(),
{
    if a.len() > 0 && b.len() > 0 && a[0] == b[0] {
        lemma_bytes_lt_asym(a.drop_first(), b.drop_first());
    }
}

pub proof fn lemma_bytes_lt_total(a: Seq<u8>, b: Seq<u8>)
    ensures
        a == b || bytes_lt(a, b) || bytes_lt(b, a),
    decreases a.len(),
{
    if a.len() > 0 && b.len() > 0 && a[0] == b[0] {
        lemma_bytes_lt_total(a.drop_first(), b.drop_first());
        if a.drop_first() == b.drop_first() {
            assert(a =~= seq![a[0]] + a.drop_first());
            assert(b =~= seq![b[0]] + b.drop_first());
        }
    } else if a.len() == 0 && b.len() == 0 {
        assert(a =~= b);
    }
}

/// `a` comes before `b` as texts are ordered: by their UTF-8 bytes.
pub open spec fn text_lt(a: Seq<char>, b: Seq<char>) -> bool {
    bytes_lt(utf8(a), utf8(b))
}

/// No text of `s` comes before one ahead of it.
pub open spec fn sorted_texts(s: Seq<Seq<char>>) -> bool {
    forall|i: int, j: int| 0 <= i < j < s.len() ==> !text_lt(#[trigger] s[j], #[trigger] s[i])
}

/// The views of a sequence of strings.
pub open spec fn views(v: Seq<String>) -> Seq<Seq<char>> {
    v.map_values(|x: String| x@)
}

/// Whether `a` comes before `b` in byte order.
pub fn str_lt(a: &str, b: &str) -> (r: bool)
    ensures
        r == text_lt(a@, b@),
{
    let x = a.as_bytes();
    let y = b.as_bytes();
    let mut k: usize = 0;
    assert(x@.skip(0) =~= x@);
    assert(y@.skip(0) =~= y@);
    while k < x.len() && k < y.len() && x[k] == y[k]
        invariant
            k <= x@.len(),
            k <= y@.len(),
            bytes_lt(x@, y@) == bytes_lt(x@.skip(k as int), y@.skip(k as int)),
        decreases x@.len() - k,
    {
        proof {
            assert(x@.skip(k as int).drop_first() =~= x@.skip(k + 1));
            assert(y@.skip(k as int).drop_first() =~= y@.skip(k + 1));
        }
        k += 1;
    }
    if k == x.len() {
        k < y.len()
    } else if k == y.len() {
        false
    } else {
        x[k] < y[k]
    }
}

proof fn lemma_insert_multiset<A>(s: Seq<A>, k: int, x: A)
    requires
        0 <= k <= s.len(),
    ensures
        s.insert(k, x).to_multiset() == s.to_multiset().insert(x),
{
    broadcast use vstd::seq_lib::group_to_multiset_ensures, vstd::multiset::group_multiset_axioms;
    let a = s.subrange(0, k);
    let b = s.subrange(k, s.len() as int);
    assert(s.insert(k, x) =~= a.push(x) + b);
    assert(s =~= a + b);
    vstd::seq_lib::lemma_multiset_commutative(a.push(x), b);
    vstd::seq_lib::lemma_multiset_commutative(a, b);
    assert(a.push(x).to_multiset() == a.to_multiset().insert(x));
    assert(a.to_multiset().insert(x).add(b.to_multiset()) =~= a.to_multiset().add(b.to_multiset()).insert(x));
}

/// The strings of `v` in byte order (`v.sort()`).
pub fn sort_strings(v: Vec<String>) -> (r: Vec<String>)
    ensures
        views(r@).to_multiset() == views(v@).to_multiset(),
        sorted_texts(views(r@)),
{
    broadcast use vstd::seq_lib::group_to_multiset_ensures;
    let mut r: Vec<String> = Vec::new();
    let mut i: usize = 0;
    assert(views(v@).take(0) =~= Seq::<Seq<char>>::empty());
    assert(views(r@) =~= Seq::<Seq<char>>::empty());
    while i < v.len()
        invariant
            i <= v@.len(),
            views(r@).to_multiset() == views(v@).take(i as int).to_multiset(),
            sorted_texts(views(r@)),
        decreases v@.len() - i,
    {
        let x = &v[i];
        let mut k: usize = 0;
        while k < r.len() && !str_lt(x.as_str(), r[k].as_str())
            invariant
                k <= r@.len(),
                forall|m: int| 0 <= m < k ==> !text_lt(x@, #[trigger] views(r@)[m]),
            decreases r@.len() - k,
        {
            k += 1;
        }
        let ghost old_r = views(r@);
        r.insert(k, x.clone());
        proof {
            assert(views(r@) =~= old_r.insert(k as int, x@));
            lemma_insert_multiset(old_r, k as int, x@);
            assert(views(v@).take(i + 1) =~= views(v@).take(i as int).push(x@));
            views(v@).take(i as int).to_multiset_ensures();
            assert(views(v@).take(i as int).push(x@).to_multiset() == views(v@).take(i as int).to_multiset().insert(
                x@,
            ));
            let nr = views(r@);
            assert forall|a: int, b: int| 0 <= a < b < nr.len() implies !text_lt(#[trigger] nr[b], #[trigger] nr[a]) by {
                if b < k {
                    assert(nr[a] == old_r[a] && nr[b] == old_r[b]);
                } else if b == k {
                    assert(nr[a] == old_r[a]);
                } else if a == k {
                    assert(nr[b] == old_r[b - 1]);
                    assert(text_lt(x@, old_r[k as int]));
                    if b - 1 > k {
                        assert(!text_lt(old_r[b - 1], old_r[k as int]));
                    }
                    if text_lt(nr[b], x@) {
                        lemma_bytes_lt_trans(utf8(nr[b]), utf8(x@), utf8(old_r[k as int]));
                        lemma_bytes_lt_asym(utf8(nr[b]), utf8(old_r[k as int]));
                    }
                } else if a < k {
                    assert(nr[a] == old_r[a] && nr[b] == old_r[b - 1]);
                } else {
                    assert(nr[a] == old_r[a - 1] && nr[b] == old_r[b - 1]);
                }
            }
        }
        i += 1;
    }
    proof {
        assert(views(v@).take(v@.len() as int) =~= views(v@));
    }
    r
}

/// The text that `String::from_utf8_lossy` makes of `bytes`: the bytes
/// decoded, each invalid sequence replaced by U+FFFD.
pub uninterp spec fn lossy_utf8(bytes: Seq<u8>) -> Seq<char>;

/// Calls `String::from_utf8_lossy(bytes)`. The text is claimed to depend on
/// the bytes alone (named `lossy_utf8`), and, as std documents, to be the
/// bytes decoded when they are valid UTF-8.
#[verifier::external_body]
pub(crate) fn from_utf8_lossy(bytes: &[u8]) -> (r: String)
    ensures
        r@ == lossy_utf8(bytes@),
        valid_utf8(bytes@) ==> r@ == decode_utf8(bytes@),
{
    String::from_utf8_lossy(bytes).into_owned()
}

/// `name` appended to the path `base`, as `Path::join` does it with `/` as
/// the separator: an absolute `name` stands alone, an empty `base` adds
/// nothing, and a separator is put between them unless `base` ends in one.
pub open spec fn path_join(base: Seq<char>, name: Seq<char>) -> Seq<char> {
    if name.len() > 0 && name[0] == '/' {
        name
    } else if base.len() == 0 {
        name
    } else if base.last() == '/' {
        base + name
    } else {
        base + seq!['/'] + name
    }
}

/// The path `base` joined with `name` (see `path_join`).
pub fn join_path(base: &str, name: &str) -> (r: String)
    ensures
        r@ == path_join(base@, name@),
{
    let nl = name.unicode_len();
    if nl > 0 && name.get_char(0) == '/' {
        return name.to_owned();
    }
    let bl = base.unicode_len();
    if bl == 0 {
        return name.to_owned();
    }
    if base.get_char(bl - 1) == '/' {
        return concat2(base, name);
    }
    let r = concat3(base, "/", name);
    proof {
        reveal_strlit("/");
    }
    assert(r@ =~= base@ + seq!['/'] + name@);
    r
}

/// The components after ending the current one, `cur`: an empty one is
/// dropped, and so is `.` unless it starts a relative path.
pub open spec fn end_component(cs: Seq<Seq<char>>, cur: Seq<char>) -> Seq<Seq<char>> {
    if cur.len() == 0 || (cur == seq!['.'] && cs.len() > 0) {
        cs
    } else {
        cs.push(cur)
    }
}

/// The components found in the first `n` characters of `p` (with `/` as
/// the separator), and the component in progress.
pub open spec fn path_scan(p: Seq<char>, n: nat) -> (Seq<Seq<char>>, Seq<char>)
    decreases n,
{
    if n == 0 {
        (if p.len() > 0 && p[0] == '/' {
            seq![seq!['/']]
        } else {
            seq![]
        }, seq![])
    } else {
        let (cs, cur) = path_scan(p, (n - 1) as nat);
        if p[n - 1] == '/' {
            (end_component(cs, cur), seq![])
        } else {
            (cs, cur.push(p[n - 1]))
        }
    }
}

/// The components of the path `p`, as `Path::components` gives them with
/// `/` as the separator: `/` for the root, then the names between
/// separators, with repeated separators, a trailing separator and `.`
/// (except at the start of a relative path) left out.
pub open spec fn path_components(p: Seq<char>) -> Seq<Seq<char>> {
    let (cs, cur) = path_scan(p, p.len());
    end_component(cs, cur)
}

/// The last component of `p` when it is a name (not the root, `.` or
/// `..`), as `Path::file_name` gives it; else the whole path.
pub open spec fn path_file_name(p: Seq<char>) -> Seq<char> {
    let cs = path_components(p);
    if cs.len() > 0 && cs.last() != seq!['/'] && cs.last() != seq!['.'] && cs.last() != seq!['.', '.'] {
        cs.last()
    } else {
        p
    }
}

/// The components of the path `p` (see `path_components`).
pub fn components_of(p: &str) -> (r: Vec<String>)
    ensures
        views(r@) == path_components(p@),
{
    let n = p.unicode_len();
    let mut cs: Vec<String> = Vec::new();
    if n > 0 && p.get_char(0) == '/' {
        cs.push(p.substring_char(0, 1).to_owned());
    }
    proof {
        if n > 0 && p@[0] == '/' {
            assert(p@.subrange(0, 1) =~= seq!['/']);
        }
        assert(views(cs@) =~= path_scan(p@, 0).0);
        assert(p@.subrange(0, 0) =~= path_scan(p@, 0).1);
    }
    let mut start: usize = 0;
    let mut k: usize = 0;
    while k < n
        invariant
            n == p@.len(),
            start <= k <= n,
            views(cs@) == path_scan(p@, k as nat).0,
            p@.subrange(start as int, k as int) == path_scan(p@, k as nat).1,
        decreases n - k,
    {
        let c = p.get_char(k);
        let ghost before = views(cs@);
        let ghost cur = p@.subrange(start as int, k as int);
        if c == '/' {
            if start < k && !(k == start + 1 && p.get_char(start) == '.' && cs.len() > 0) {
                cs.push(p.substring_char(start, k).to_owned());
                assert(views(cs@) =~= before.push(cur));
            }
            proof {
                if cur.len() == 1 && cur[0] == '.' {
                    assert(cur =~= seq!['.']);
                }
                if cur == seq!['.'] {
                    assert(k == start + 1 && p@[start as int] == '.');
                }
            }
            start = k + 1;
            assert(p@.subrange(start as int, (k + 1) as int) =~= Seq::<char>::empty());
        } else {
            assert(p@.subrange(start as int, (k + 1) as int) =~= cur.push(c));
        }
        k += 1;
    }
    let ghost before = views(cs@);
    let ghost cur = p@.subrange(start as int, n as int);
    if start < n && !(n == start + 1 && p.get_char(start) == '.' && cs.len() > 0) {
        cs.push(p.substring_char(start, n).to_owned());
        assert(views(cs@) =~= before.push(cur));
    }
    proof {
        if cur.len() == 1 && cur[0] == '.' {
            assert(cur =~= seq!['.']);
        }
        if cur == seq!['.'] {
            assert(n == start + 1 && p@[start as int] == '.');
        }
    }
    cs
}

/// Whether two lists of texts are equal.
pub fn same_texts(a: &Vec<String>, b: &Vec<String>) -> (r: bool)
    ensures
        r == (views(a@) == views(b@)),
{
    if a.len() != b.len() {
        assert(views(a@).len() != views(b@).len());
        return false;
    }
    let mut k: usize = 0;
    while k < a.len()
        invariant
            a@.len() == b@.len(),
            k <= a@.len(),
            forall|m: int| 0 <= m < k ==> a@[m]@ == b@[m]@,
        decreases a@.len() - k,
    {
        if !str_eq(a[k].as_str(), b[k].as_str()) {
            assert(views(a@)[k as int] != views(b@)[k as int]);
            return false;
        }
        k += 1;
    }
    assert(views(a@) =~= views(b@));
    true
}

/// The name of the path `p` (see `path_file_name`).
pub fn file_name_of(p: &str) -> (r: String)
    ensures
        r@ == path_file_name(p@),
{
    let cs = components_of(p);
    if cs.len() > 0 {
        let last = cs[cs.len() - 1].as_str();
        let ghost l = views(cs@).last();
        assert(last@ == l);
        let n = last.unicode_len();
        let is_root = n == 1 && last.get_char(0) == '/';
        let is_cur = n == 1 && last.get_char(0) == '.';
        let is_parent = n == 2 && last.get_char(0) == '.' && last.get_char(1) == '.';
        proof {
            if n == 1 {
                assert(l == seq![l[0]]);
            }
            if n == 2 {
                assert(l == seq![l[0], l[1]]);
            }
        }
        if !is_root && !is_cur && !is_parent {
            return last.to_owned();
        }
    }
    p.to_owned()
}

/// The index of the first element of `s` that satisfies `f`, or -1.
pub open spec fn first_index<A>(s: Seq<A>, f: spec_fn(A) -> bool) -> int
    decreases s.len(),
{
    if s.len() == 0 {
        -1
    } else if f(s[0]) {
        0
    } else {
        let r = first_index(s.drop_first(), f);
        if r < 0 {
            -1
        } else {
            r + 1
        }
    }
}

/// What `first_index` is, in words.
pub proof fn lemma_first_index<A>(s: Seq<A>, f: spec_fn(A) -> bool)
    ensures
        -1 <= first_index(s, f) < s.len(),
        first_index(s, f) >= 0 ==> f(s[first_index(s, f)]),
        forall|m: int| 0 <= m < s.len() && (first_index(s, f) < 0 || m < first_index(s, f)) ==> !f(#[trigger] s[m]),
    decreases s.len(),
{
    if s.len() > 0 && !f(s[0]) {
        lemma_first_index(s.drop_first(), f);
        assert forall|m: int| 0 <= m < s.len() && (first_index(s, f) < 0 || m < first_index(s, f)) implies !f(
            #[trigger] s[m],
        ) by {
            if m > 0 {
                assert(s[m] == s.drop_first()[m - 1]);
            }
        }
    }
}

/// The first index is the one that satisfies `f` with none before it.
pub proof fn lemma_first_index_unique<A>(s: Seq<A>, f: spec_fn(A) -> bool, k: int)
    requires
        -1 <= k < s.len(),
        k >= 0 ==> f(s[k]),
        forall|m: int| 0 <= m < s.len() && (k < 0 || m < k) ==> !f(#[trigger] s[m]),
    ensures
        first_index(s, f) == k,
{
    lemma_first_index(s, f);
    let r = first_index(s, f);
    if r >= 0 && k >= 0 {
        if r < k {
            assert(!f(s[r]));
        } else if k < r {
            assert(!f(s[k]));
        }
    } else if r >= 0 {
        assert(!f(s[r]));
    } else if k >= 0 {
        assert(!f(s[k]));
    }
}

/// `s` without the `/` characters at its end.
pub open spec fn trim_end_slashes(s: Seq<char>) -> Seq<char>
    decreases s.len(),
{
    if s.len() > 0 && s.last() == '/' {
        trim_end_slashes(s.drop_last())
    } else {
        s
    }
}

/// `s.trim_end_matches('/')`.
pub fn trim_trailing_slashes(s: &str) -> (r: String)
    ensures
        r@ == trim_end_slashes(s@),
{
    let mut k = s.unicode_len();
    assert(s@.subrange(0, k as int) =~= s@);
    while k > 0 && s.get_char(k - 1) == '/'
        invariant
            k <= s@.len(),
            trim_end_slashes(s@) == trim_end_slashes(s@.subrange(0, k as int)),
        decreases k,
    {
        assert(s@.subrange(0, k as int).drop_last() =~= s@.subrange(0, k - 1));
        k -= 1;
    }
    s.substring_char(0, k).to_owned()
}

/// There is always at least one piece.
pub proof fn lemma_split_lines_len(b: Seq<u8>)
    ensures
        split_lines(b).len() >= 1,
    decreases b.len(),
{
    match find_from(b, seq![10u8], 0) {
        None => {},
        Some(p) => {
            lemma_find_from(b, seq![10u8], 0);
            lemma_split_lines_len(b.subrange(p + 1, b.len() as int));
        },
    }
}

/// Splitting `s + b` is splitting `s`, with its last piece continued by `b`.
pub proof fn lemma_split_lines_append(s: Seq<u8>, b: Seq<u8>)
    ensures
        split_lines(s + b) == split_lines(s).drop_last() + split_lines(split_lines(s).last() + b),
    decreases s.len(),
{
    let nl = seq![10u8];
    lemma_find_from(s, nl, 0);
    lemma_split_lines_len(s);
    match find_from(s, nl, 0) {
        None => {
            assert(split_lines(s) == seq![s]);
            assert(seq![s].drop_last() =~= Seq::<Seq<u8>>::empty());
            assert(Seq::<Seq<u8>>::empty() + split_lines(s + b) =~= split_lines(s + b));
        },
        Some(p) => {
            let t = s.subrange(p + 1, s.len() as int);
            assert forall|j: int| 0 <= j < p implies !matches_at(s + b, nl, j) by {
                lemma_matches_at_extend(s, b, nl, j);
            }
            lemma_matches_at_extend(s, b, nl, p);
            lemma_find_from_unique(s + b, nl, 0, Some(p));
            assert((s + b).subrange(0, p) =~= s.subrange(0, p));
            assert((s + b).subrange(p + 1, (s + b).len() as int) =~= t + b);
            lemma_split_lines_append(t, b);
            lemma_split_lines_len(t);
            let st = split_lines(t);
            assert(split_lines(s) == seq![s.subrange(0, p)] + st);
            assert((seq![s.subrange(0, p)] + st).drop_last() =~= seq![s.subrange(0, p)] + st.drop_last());
            assert((seq![s.subrange(0, p)] + st).last() == st.last());
            assert(split_lines(s + b) == seq![s.subrange(0, p)] + split_lines(t + b));
            assert(seq![s.subrange(0, p)] + (st.drop_last() + split_lines(st.last() + b)) =~= (seq![
                s.subrange(0, p),
            ] + st.drop_last()) + split_lines(st.last() + b));
        },
    }
}

} // verus!
