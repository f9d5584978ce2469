//! Streamed chunks can split a multi-byte UTF-8 character across two `feed()`
//! calls, so byte offsets are clamped back to a character boundary before
//! slicing.

use vstd::prelude::*;
use vstd::string::{StringSliceAdditionalSpecFns, StrSliceExecFns};
use crate::text::{boundary, floor_boundary, lemma_boundary_iff};

verus! {

broadcast use vstd::utf8::encode_utf8_valid_utf8;

/// The greatest character boundary of `s` not after `index`; `s.len()` when
/// `index` is past the end.
pub fn floor_char_boundary(s: &str, index: usize) -> (r: usize)
    ensures
        r as int == floor_boundary(s.spec_bytes(), index as int),
{
    let len = s.as_bytes().len();
    if index >= len {
        return len;
    }
    let mut i = index;
    while i > 0 && !s.is_char_boundary(i)
        invariant
            len == s.spec_bytes().len(),
            i <= index < len,
            floor_boundary(s.spec_bytes(), index as int) == floor_boundary(s.spec_bytes(), i as int),
        decreases i,
    {
        proof {
            lemma_boundary_iff(s.spec_bytes(), i as int);
        }
        i -= 1;
    }
    proof {
        if i > 0 {
            lemma_boundary_iff(s.spec_bytes(), i as int);
        }
    }
    i
}

} // verus!
