//! Regular expressions, compiled and matched by the `regex` crate.

use vstd::prelude::*;

verus! {

#[verifier::external_type_specification]
#[verifier::external_body]
pub struct ExRegex(regex::Regex);

/// The error text (`Display`) with which `regex::Regex::new` refuses
/// `pattern`, or `None` when it compiles.
pub uninterp spec fn regex_error(pattern: Seq<char>) -> Option<Seq<char>>;

/// Whether the regular expression `pattern` matches somewhere in `text`, as
/// `regex::Regex::is_match` answers.
pub uninterp spec fn regex_is_match_spec(pattern: Seq<char>, text: Seq<char>) -> bool;

/// `text` with every match of `pattern` replaced by `rep`, as
/// `regex::Regex::replace_all` makes it.
pub uninterp spec fn regex_replace_all_spec(pattern: Seq<char>, text: Seq<char>, rep: Seq<char>) -> Seq<char>;

/// A compiled regular expression, with the pattern it was compiled from.
pub struct Pattern {
    re: regex::Regex,
    source: Ghost<Seq<char>>,
}

impl Pattern {
    pub closed spec fn source(&self) -> Seq<char> {
        self.source@
    }
}

/// Calls `regex::Regex::new(pattern)`: the compiled pattern, or the error's
/// text. Which of the two, and the text, are claimed to depend on `pattern`
/// alone (named `regex_error`); nothing more is stated.
#[verifier::external_body]
pub(crate) fn compile(pattern: &str) -> (r: Result<Pattern, String>)
    ensures
        match r {
            Ok(p) => p.source() == pattern@ && regex_error(pattern@) is None,
            Err(e) => regex_error(pattern@) == Some(e@),
        },
{
    match regex::Regex::new(pattern) {
        Ok(re) => Ok(Pattern { re, source: Ghost(pattern@) }),
        Err(e) => Err(e.to_string()),
    }
}

/// Calls `regex::Regex::is_match(text)`. The answer is claimed to depend on
/// the pattern and `text` alone (named `regex_is_match_spec`).
#[verifier::external_body]
pub(crate) fn is_match(p: &Pattern, text: &str) -> (r: bool)
    ensures
        r == regex_is_match_spec(p.source(), text@),
{
    p.re.is_match(text)
}

/// Calls `regex::Regex::replace_all(text, rep)`. The result is claimed to
/// depend on the pattern, `text` and `rep` alone (named
/// `regex_replace_all_spec`).
#[verifier::external_body]
pub(crate) fn replace_all(p: &Pattern, text: &str, rep: &str) -> (r: String)
    ensures
        r@ == regex_replace_all_spec(p.source(), text@, rep@),
{
    p.re.replace_all(text, rep).into_owned()
}

} // verus!
