//! Simple monotonic id generator, e.g. `call_lz3k2n1_1`.

use vstd::prelude::*;
use vstd::string::{StrSliceExecFns, StringExecFns};

verus! {

/// The digit for `d` in base 36, lower case.
pub open spec fn digit36(d: nat) -> char {
    if d < 10 {
        (('0' as u32) + d) as char
    } else {
        (('a' as u32) + (d - 10)) as char
    }
}

/// `n` written in base `base` with the digits `0-9a-z`.
pub open spec fn radix_spec(n: nat, base: nat) -> Seq<char>
    decreases n,
{
    if base < 2 || n < base {
        seq![digit36(n)]
    } else {
        proof {
            assert(n / base < n) by (nonlinear_arith)
                requires
                    base >= 2,
                    n >= base,
            ;
        }
        radix_spec(n / base, base) + seq![digit36(n % base)]
    }
}

/// The id that `generate_id` makes from a prefix, a time in milliseconds and
/// a count: `{prefix}_{millis in base 36}_{count in decimal}`.
pub open spec fn id_spec(prefix: Seq<char>, millis: nat, count: nat) -> Seq<char> {
    prefix + seq!['_'] + radix_spec(millis, 36) + seq!['_'] + radix_spec(count, 10)
}

/// The decimal digits of `n`.
pub open spec fn decimal_spec(n: nat) -> Seq<char> {
    radix_spec(n, 10)
}

proof fn lemma_digits_str(digits: &str)
    requires
        digits@ == "0123456789abcdefghijklmnopqrstuvwxyz"@,
    ensures
        digits@.len() == 36,
        forall|d: int| 0 <= d < 36 ==> #[trigger] digits@[d] == digit36(d as nat),
{
    reveal_strlit("0123456789abcdefghijklmnopqrstuvwxyz");
    assert forall|d: int| 0 <= d < 36 implies #[trigger] digits@[d] == digit36(d as nat) by {
        if d < 10 {
            assert(digits@[d] == (('0' as u32) + d) as char);
        } else {
            assert(digits@[d] == (('a' as u32) + (d - 10)) as char);
        }
    }
}

/// The value of a digit `0-9a-z` (in base 36).
pub open spec fn digit_value(c: char) -> int {
    if '0' <= c && c <= '9' {
        c as int - '0' as int
    } else {
        c as int - 'a' as int + 10
    }
}

/// `c` is one of the digits `0-9a-z` and stands for less than `base`.
pub open spec fn is_digit_in(c: char, base: nat) -> bool {
    &&& ('0' <= c && c <= '9') || ('a' <= c && c <= 'z')
    &&& digit_value(c) < base
}

/// The number that the digits `s` write in base `base`.
pub open spec fn radix_value(s: Seq<char>, base: nat) -> int
    decreases s.len(),
{
    if s.len() == 0 {
        0
    } else {
        radix_value(s.drop_last(), base) * base + digit_value(s.last())
    }
}

proof fn lemma_digit36(d: nat)
    requires
        d < 36,
    ensures
        is_digit_in(digit36(d), d + 1),
        digit_value(digit36(d)) == d,
        digit36(d) == '0' <==> d == 0,
{
}

/// Writing a number in base `base` (2 to 36) can be read back: the text is
/// not empty, holds only digits below `base`, starts with `0` only when it
/// is `0` itself, and stands for `n` (so `to_radix` and `to_base36` lose
/// nothing).
pub proof fn lemma_radix_round_trip(n: nat, base: nat)
    requires
        2 <= base <= 36,
    ensures
        radix_spec(n, base).len() >= 1,
        forall|k: int| 0 <= k < radix_spec(n, base).len() ==> is_digit_in(#[trigger] radix_spec(n, base)[k], base),
        radix_spec(n, base)[0] == '0' ==> n == 0 && radix_spec(n, base) == seq!['0'],
        radix_value(radix_spec(n, base), base) == n,
    decreases n,
{
    let s = radix_spec(n, base);
    if n < base {
        lemma_digit36(n);
        assert(s == seq![digit36(n)]);
        assert(s.drop_last() =~= Seq::<char>::empty());
        assert(radix_value(s.drop_last(), base) == 0);
        assert(radix_value(s, base) == 0 * base + digit_value(digit36(n)));
        assert(0 * base == 0) by (nonlinear_arith);
    } else {
        assert(n / base < n) by (nonlinear_arith)
            requires
                base >= 2,
                n >= base,
        ;
        assert(n / base >= 1) by (nonlinear_arith)
            requires
                base >= 2,
                n >= base,
        ;
        let q = n / base;
        let r = n % base;
        lemma_radix_round_trip(q, base);
        vstd::arithmetic::div_mod::lemma_fundamental_div_mod(n as int, base as int);
        vstd::arithmetic::div_mod::lemma_mod_bound(n as int, base as int);
        lemma_digit36(r);
        let head = radix_spec(q, base);
        assert(s == head + seq![digit36(r)]);
        assert(s.drop_last() =~= head);
        assert(s[0] == head[0]);
        assert forall|k: int| 0 <= k < s.len() implies is_digit_in(#[trigger] s[k], base) by {
            if k < head.len() {
                assert(s[k] == head[k]);
            } else {
                assert(s[k] == digit36(r));
            }
        }
        assert(radix_value(s, base) == radix_value(head, base) * base + r);
        assert(radix_value(head, base) == q);
        assert(radix_value(head, base) * base == q * base);
        assert(q * base + r == n) by (nonlinear_arith)
            requires
                n == base * q + r,
        ;
    }
}

/// Ids with different counts are different, whatever their prefixes and
/// times: the count is what follows the id's last `_`. So the ids made with
/// a running count (`generate_id`) never repeat until the count does.
pub proof fn lemma_ids_differ_by_count(p1: Seq<char>, m1: nat, c1: nat, p2: Seq<char>, m2: nat, c2: nat)
    requires
        c1 != c2,
    ensures
        id_spec(p1, m1, c1) != id_spec(p2, m2, c2),
{
    let b1 = radix_spec(c1, 10);
    let b2 = radix_spec(c2, 10);
    lemma_radix_round_trip(c1, 10);
    lemma_radix_round_trip(c2, 10);
    let x1 = p1 + seq!['_'] + radix_spec(m1, 36);
    let x2 = p2 + seq!['_'] + radix_spec(m2, 36);
    let s1 = x1 + seq!['_'] + b1;
    let s2 = x2 + seq!['_'] + b2;
    assert(s1 == id_spec(p1, m1, c1));
    assert(s2 == id_spec(p2, m2, c2));
    if s1 == s2 {
        if b1.len() < b2.len() {
            let i = s1.len() - b1.len() - 1;
            assert(s1[i] == '_');
            assert(s2[i] == b2[b2.len() - b1.len() - 1]);
            assert(is_digit_in(b2[b2.len() - b1.len() - 1], 10));
        } else if b2.len() < b1.len() {
            let i = s2.len() - b2.len() - 1;
            assert(s2[i] == '_');
            assert(s1[i] == b1[b1.len() - b2.len() - 1]);
            assert(is_digit_in(b1[b1.len() - b2.len() - 1], 10));
        } else {
            assert(b1 =~= s1.subrange(s1.len() - b1.len(), s1.len() as int));
            assert(b2 =~= s2.subrange(s2.len() - b2.len(), s2.len() as int));
        }
    }
}

/// `n` in base `base` (2 to 36), with the digits `0-9a-z`.
pub fn to_radix(n: u128, base: u128) -> (s: String)
    requires
        2 <= base <= 36,
    ensures
        s@ == radix_spec(n as nat, base as nat),
{
    let digits = "0123456789abcdefghijklmnopqrstuvwxyz";
    proof {
        lemma_digits_str(digits);
    }
    // Digits from least to most significant.
    let mut rev: Vec<usize> = Vec::new();
    let mut m = n;
    while m >= base
        invariant
            2 <= base <= 36,
            radix_spec(n as nat, base as nat) == radix_spec(m as nat, base as nat) + Seq::new(
                rev@.len(),
                |k: int| digit36(rev@[rev@.len() - 1 - k] as nat),
            ),
            forall|k: int| 0 <= k < rev@.len() ==> rev@[k] < 36,
        decreases m,
    {
        let d = (m % base) as usize;
        let ghost old_rev = rev@;
        let ghost old_m = m;
        rev.push(d);
        m = m / base;
        proof {
            assert(radix_spec(old_m as nat, base as nat) == radix_spec(m as nat, base as nat) + seq![
                digit36(d as nat),
            ]);
            assert(Seq::new(rev@.len(), |k: int| digit36(rev@[rev@.len() - 1 - k] as nat)) =~= seq![
                digit36(d as nat),
            ] + Seq::new(old_rev.len(), |k: int| digit36(old_rev[old_rev.len() - 1 - k] as nat)));
        }
    }
    let first = m as usize;
    let mut out = String::new();
    out.append(digits.substring_char(first, first + 1));
    assert(out@ =~= radix_spec(m as nat, base as nat));
    let mut i = rev.len();
    while i > 0
        invariant
            i <= rev@.len(),
            digits@.len() == 36,
            forall|d: int| 0 <= d < 36 ==> #[trigger] digits@[d] == digit36(d as nat),
            forall|k: int| 0 <= k < rev@.len() ==> rev@[k] < 36,
            out@ + Seq::new(i as nat, |k: int| digit36(rev@[i - 1 - k] as nat)) == radix_spec(
                n as nat,
                base as nat,
            ),
        decreases i,
    {
        let d = rev[i - 1];
        let ghost old_out = out@;
        let piece = digits.substring_char(d, d + 1);
        out.append(piece);
        proof {
            assert(piece@ =~= seq![digit36(d as nat)]);
            assert(Seq::new(i as nat, |k: int| digit36(rev@[i - 1 - k] as nat)) =~= seq![
                digit36(d as nat),
            ] + Seq::new((i - 1) as nat, |k: int| digit36(rev@[i - 1 - 1 - k] as nat)));
        }
        i -= 1;
    }
    assert(out@ + Seq::new(0, |k: int| digit36(rev@[0 - 1 - k] as nat)) =~= out@);
    out
}

/// `n` in base 36 with the digits `0-9a-z`.
pub fn to_base36(n: u128) -> (s: String)
    ensures
        s@ == radix_spec(n as nat, 36),
{
    to_radix(n, 36)
}

/// The id for `prefix`, a time in milliseconds and a count.
pub fn format_id(prefix: &str, millis: u128, count: u64) -> (s: String)
    ensures
        s@ == id_spec(prefix@, millis as nat, count as nat),
{
    let sep = "_";
    proof {
        reveal_strlit("_");
    }
    let mut s = String::from_str(prefix);
    s.append(sep);
    let b = to_base36(millis);
    s.append(b.as_str());
    s.append(sep);
    let d = to_radix(count as u128, 10);
    s.append(d.as_str());
    assert(s@ =~= id_spec(prefix@, millis as nat, count as nat));
    s
}

/// Milliseconds since the Unix epoch by the system clock (0 if the clock is
/// set before the epoch). Wraps `SystemTime::now` and `duration_since`;
/// nothing is stated of the value, which is the time.
#[verifier::external_body]
pub(crate) fn unix_millis() -> u128 {
    std::time::SystemTime::now().duration_since(std::time::UNIX_EPOCH).map(|d| d.as_millis()).unwrap_or(0)
}

/// A fresh id for `prefix`: the current time in base 36 and `count`, the
/// caller's running count of ids made so far.
pub fn generate_id(prefix: &str, count: u64) -> (s: String)
    ensures
        exists|millis: u128| s@ == id_spec(prefix@, millis as nat, count as nat),
{
    let millis = unix_millis();
    format_id(prefix, millis, count)
}

/// `n` in decimal, with a `-` before a negative number.
pub open spec fn signed_decimal_spec(n: int) -> Seq<char> {
    if n < 0 {
        seq!['-'] + decimal_spec((-n) as nat)
    } else {
        decimal_spec(n as nat)
    }
}

/// `n.to_string()` for a signed integer.
pub fn signed_decimal(n: i64) -> (s: String)
    ensures
        s@ == signed_decimal_spec(n as int),
{
    if n < 0 {
        let m: i128 = n as i128;
        let digits = to_radix((0 - m) as u128, 10);
        let mut s = String::from_str("-");
        proof {
            reveal_strlit("-");
        }
        s.append(digits.as_str());
        assert(s@ =~= seq!['-'] + decimal_spec((-n) as nat));
        s
    } else {
        to_radix(n as u128, 10)
    }
}

} // verus!
