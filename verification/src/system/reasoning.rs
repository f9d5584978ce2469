//! Best-effort heuristic for "does this model think out loud". There is no
//! standard way to ask a local model, so well-known reasoning model families
//! are matched by name. A false negative only means the status line omits
//! the badge.

use vstd::prelude::*;
use crate::pattern::{compile, is_match, regex_error, regex_is_match_spec};

verus! {

/// The name patterns of known reasoning model families.
pub open spec fn reasoning_patterns() -> Seq<Seq<char>> {
    seq![
        "(?i)deepseek-?r1"@,
        "(?i)\\bqwq\\b"@,
        "(?i)qwen3"@,
        "(?i)magistral"@,
        "(?i)phi-4-reasoning"@,
        "(?i)\\bo[134](-mini)?\\b"@,
        "(?i)gpt-5-thinking"@,
        "(?i)glm-z1"@,
        "(?i)exaone-deep"@,
        "(?i)marco-o1"@,
        "(?i)\\bcogito\\b"@,
        "(?i)reasoning"@,
        "(?i)thinking"@,
    ]
}

/// Pattern `p` compiles and matches `text`.
pub open spec fn pattern_matches(p: Seq<char>, text: Seq<char>) -> bool {
    regex_error(p) is None && regex_is_match_spec(p, text)
}

/// Heuristically flags whether a model name looks like a reasoning model:
/// a non-empty name that one of the patterns matches.
pub fn is_reasoning_model(model: &str) -> (r: bool)
    ensures
        r == (model@.len() > 0 && exists|i: int|
            0 <= i < reasoning_patterns().len() && #[trigger] pattern_matches(
                reasoning_patterns()[i],
                model@,
            )),
{
    if model.is_empty() {
        return false;
    }
    let patterns: Vec<&str> = vec![
        "(?i)deepseek-?r1",
        "(?i)\\bqwq\\b",
        "(?i)qwen3",
        "(?i)magistral",
        "(?i)phi-4-reasoning",
        "(?i)\\bo[134](-mini)?\\b",
        "(?i)gpt-5-thinking",
        "(?i)glm-z1",
        "(?i)exaone-deep",
        "(?i)marco-o1",
        "(?i)\\bcogito\\b",
        "(?i)reasoning",
        "(?i)thinking",
    ];
    assert(patterns@.map_values(|p: &str| p@) =~= reasoning_patterns());
    let mut i: usize = 0;
    while i < patterns.len()
        invariant
            model@.len() > 0,
            patterns@.map_values(|p: &str| p@) == reasoning_patterns(),
            i <= patterns@.len(),
            forall|k: int| 0 <= k < i ==> !pattern_matches(reasoning_patterns()[k], model@),
        decreases patterns@.len() - i,
    {
        assert(patterns@[i as int]@ == reasoning_patterns()[i as int]);
        match compile(patterns[i]) {
            Ok(p) => {
                if is_match(&p, model) {
                    assert(pattern_matches(reasoning_patterns()[i as int], model@));
                    return true;
                }
            },
            Err(_) => {},
        }
        i += 1;
    }
    false
}

} // verus!
