//! Finding files by a glob pattern: the paths found, sorted.

use vstd::prelude::*;
use crate::text::{concat2, join, join_strings, sort_strings, sorted_texts, str_eq, str_is_empty, views};
use crate::tools::{arg_string, arg_string_spec, definition_is, err, missing_argument, ok, schema, strings_view};
use crate::types::{ToolDefinition, ToolExecutionResult};

verus! {

pub struct GlobTool;

impl GlobTool {
    pub fn definition(&self) -> (d: ToolDefinition)
        ensures
            definition_is(
                d,
                "glob"@,
                "Find files matching a glob pattern, e.g. 'src/**/*.ts'. Returns matching paths."@,
                "{\"pattern\":{\"description\":\"Glob pattern to match files against.\",\"type\":\"string\"}}"@,
                seq!["pattern"@],
                false,
            ),
    {
        let required: Vec<String> = vec!["pattern".to_owned()];
        let d = ToolDefinition {
            name: "glob".to_owned(),
            description: "Find files matching a glob pattern, e.g. 'src/**/*.ts'. Returns matching paths.".to_owned(),
            parameters: schema("{\"pattern\":{\"description\":\"Glob pattern to match files against.\",\"type\":\"string\"}}".to_owned(), required),
            mutating: false,
        };
        proof {
            if d.parameters.required is Some {
                assert(strings_view(d.parameters.required->0@) =~= seq!["pattern"@]);
            }
        }
        d
    }
}

/// A path that the walk found: its components, and its text relative to
/// the working directory (`None` when it is not under it).
pub struct FoundPath {
    pub components: Vec<String>,
    pub relative: Option<String>,
}

/// One of the components is `node_modules` or `.git`.
pub open spec fn excluded_spec(components: Seq<Seq<char>>) -> bool {
    exists|k: int| 0 <= k < components.len() && (#[trigger] components[k] == "node_modules"@ || components[k] == ".git"@)
}

/// A path is left out of the results when any component, not only the
/// last, is `node_modules` or `.git`, and kept when none is; so everything
/// under such a folder is left out.
pub proof fn lemma_excluded_any_component(components: Seq<Seq<char>>, more: Seq<Seq<char>>, k: int)
    ensures
        0 <= k < components.len() && (components[k] == "node_modules"@ || components[k] == ".git"@)
            ==> excluded_spec(components),
        (forall|j: int| 0 <= j < components.len() ==> components[j] != "node_modules"@ && components[j] != ".git"@)
            ==> !excluded_spec(components),
        excluded_spec(components) ==> excluded_spec(components + more) && excluded_spec(more + components),
{
    if excluded_spec(components) {
        let j = choose|j: int|
            0 <= j < components.len() && (#[trigger] components[j] == "node_modules"@ || components[j] == ".git"@);
        assert((components + more)[j] == components[j]);
        assert((more + components)[more.len() + j] == components[j]);
    }
}

/// Whether a path with these components is left out of the results.
pub fn is_excluded(components: &Vec<String>) -> (r: bool)
    ensures
        r == excluded_spec(views(components@)),
{
    let mut k: usize = 0;
    while k < components.len()
        invariant
            k <= components@.len(),
            forall|m: int| 0 <= m < k ==> !(#[trigger] views(components@)[m] == "node_modules"@ || views(components@)[m] == ".git"@),
        decreases components@.len() - k,
    {
        let c = components[k].as_str();
        if str_eq(c, "node_modules") || str_eq(c, ".git") {
            assert(views(components@)[k as int] == c@);
            return true;
        }
        k += 1;
    }
    false
}

/// The relative paths kept from what the walk found, in the order found.
pub open spec fn kept_paths(found: Seq<FoundPath>) -> Seq<Seq<char>>
    decreases found.len(),
{
    if found.len() == 0 {
        seq![]
    } else {
        let f = found.last();
        kept_paths(found.drop_last()) + match f.relative {
            Some(rel) => if excluded_spec(views(f.components@)) {
                seq![]
            } else {
                seq![rel@]
            },
            None => seq![],
        }
    }
}

/// What the tool shows for the sorted paths: one per line, or a note that
/// there are none.
pub open spec fn matches_text(sorted: Seq<Seq<char>>) -> Seq<char> {
    if sorted.len() == 0 {
        "(no matches)"@
    } else {
        join(sorted, "\n"@)
    }
}

/// `text` shows the paths kept from `found`, sorted.
pub open spec fn is_match_listing(found: Seq<FoundPath>, text: Seq<char>) -> bool {
    exists|sorted: Seq<Seq<char>>|
        {
            &&& sorted.to_multiset() == kept_paths(found).to_multiset()
            &&& sorted_texts(sorted)
            &&& text == #[trigger] matches_text(sorted)
        }
}

impl GlobTool {
    /// The glob pattern, from the call's arguments, or the error for a
    /// missing pattern.
    pub fn prepare(&self, args: &str) -> (r: Result<String, ToolExecutionResult>)
        ensures
            match r {
                Ok(p) => p@ == arg_string_spec(args@, "pattern"@) && p@.len() > 0,
                Err(e) => arg_string_spec(args@, "pattern"@).len() == 0 && e.is_error && e.output@
                    == "Missing required argument: "@ + "pattern"@,
            },
    {
        let pattern = arg_string(args, "pattern");
        if str_is_empty(pattern.as_str()) {
            return Err(missing_argument("pattern"));
        }
        Ok(pattern)
    }

    /// The error when the walk cannot be set up, with its error text.
    pub fn walk_failed(&self, e: &str) -> (r: ToolExecutionResult)
        ensures
            r.is_error,
            r.output@ == "Glob failed: "@ + e@,
    {
        err(concat2("Glob failed: ", e))
    }

    /// The result for the paths the walk found: those not excluded and under
    /// the working directory, sorted, one per line.
    pub fn finish(&self, found: Vec<FoundPath>) -> (r: ToolExecutionResult)
        ensures
            !r.is_error,
            is_match_listing(found@, r.output@),
    {
        let mut kept: Vec<String> = Vec::new();
        let mut i: usize = 0;
        while i < found.len()
            invariant
                i <= found@.len(),
                views(kept@) == kept_paths(found@.take(i as int)),
            decreases found@.len() - i,
        {
            let f = &found[i];
            proof {
                assert(found@.take(i + 1).drop_last() =~= found@.take(i as int));
            }
            match &f.relative {
                Some(rel) => {
                    if !is_excluded(&f.components) {
                        kept.push(rel.clone());
                        assert(views(kept@) =~= kept_paths(found@.take(i as int)) + seq![rel@]);
                    } else {
                        assert(views(kept@) =~= kept_paths(found@.take(i as int)) + seq![]);
                    }
                },
                None => {
                    assert(views(kept@) =~= kept_paths(found@.take(i as int)) + seq![]);
                },
            }
            i += 1;
        }
        assert(found@.take(found@.len() as int) =~= found@);
        let sorted = sort_strings(kept);
        let text = if sorted.len() == 0 {
            "(no matches)".to_owned()
        } else {
            join_strings(&sorted, "\n")
        };
        assert(text@ == matches_text(views(sorted@)));
        ok(text)
    }
}

} // verus!
