//! Searching file contents for a regular expression.

use vstd::prelude::*;
use crate::id::{decimal_spec, to_radix};
use crate::pattern::{compile, is_match, regex_error, regex_is_match_spec, Pattern};
use crate::text::{
    concat2, concat3, join, join_strings, lines_of, str_eq, str_is_empty, text_lines, trim_end_slashes,
    trim_trailing_slashes, views,
};
use crate::tools::{arg_string, arg_string_spec, definition_is, err, missing_argument, ok, schema, strings_view};
use crate::types::{ToolDefinition, ToolExecutionResult};
use vstd::string::{StrSliceExecFns, StringExecFns};

verus! {

pub struct GrepTool;

impl GrepTool {
    pub fn definition(&self) -> (d: ToolDefinition)
        ensures
            definition_is(
                d,
                "grep"@,
                "Search file contents for a regular expression. Returns matching file:line:text entries."@,
                "{\"path\":{\"description\":\"Directory or glob to restrict the search to (optional, defaults to the whole project).\",\"type\":\"string\"},\"pattern\":{\"description\":\"Regular expression to search for.\",\"type\":\"string\"}}"@,
                seq!["pattern"@],
                false,
            ),
    {
        let required: Vec<String> = vec!["pattern".to_owned()];
        let d = ToolDefinition {
            name: "grep".to_owned(),
            description: "Search file contents for a regular expression. Returns matching file:line:text entries.".to_owned(),
            parameters: schema("{\"path\":{\"description\":\"Directory or glob to restrict the search to (optional, defaults to the whole project).\",\"type\":\"string\"},\"pattern\":{\"description\":\"Regular expression to search for.\",\"type\":\"string\"}}".to_owned(), required),
            mutating: false,
        };
        proof {
            if d.parameters.required is Some {
                assert(strings_view(d.parameters.required->0@) =~= seq!["pattern"@]);
            }
        }
        d
    }
}

/// Files larger than this many bytes are not searched.
pub const MAX_FILE_BYTES: u64 = 1_000_000;

/// The search stops at this many matching lines.
pub const MAX_MATCHES: usize = 200;

/// One of the components is `node_modules`, `.git` or `dist`.
pub open spec fn excluded_spec(components: Seq<Seq<char>>) -> bool {
    exists|k: int|
        0 <= k < components.len() && (#[trigger] components[k] == "node_modules"@ || components[k] == ".git"@
            || components[k] == "dist"@)
}

/// A file is left out of the search when any component of its path, not
/// only the last, is `node_modules`, `.git` or `dist`, and searched when
/// none is; so everything under such a folder is left out.
pub proof fn lemma_excluded_any_component(components: Seq<Seq<char>>, more: Seq<Seq<char>>, k: int)
    ensures
        0 <= k < components.len() && (components[k] == "node_modules"@ || components[k] == ".git"@ || components[k]
            == "dist"@) ==> excluded_spec(components),
        (forall|j: int|
            0 <= j < components.len() ==> components[j] != "node_modules"@ && components[j] != ".git"@
                && components[j] != "dist"@) ==> !excluded_spec(components),
        excluded_spec(components) ==> excluded_spec(components + more) && excluded_spec(more + components),
{
    if excluded_spec(components) {
        let j = choose|j: int|
            0 <= j < components.len() && (#[trigger] components[j] == "node_modules"@ || components[j] == ".git"@
                || components[j] == "dist"@);
        assert((components + more)[j] == components[j]);
        assert((more + components)[more.len() + j] == components[j]);
    }
}

/// Whether a file with these path components is left out of the search.
pub fn is_excluded(components: &Vec<String>) -> (r: bool)
    ensures
        r == excluded_spec(views(components@)),
{
    let mut k: usize = 0;
    while k < components.len()
        invariant
            k <= components@.len(),
            forall|m: int|
                0 <= m < k ==> !(#[trigger] views(components@)[m] == "node_modules"@ || views(components@)[m]
                    == ".git"@ || views(components@)[m] == "dist"@),
        decreases components@.len() - k,
    {
        let c = components[k].as_str();
        if str_eq(c, "node_modules") || str_eq(c, ".git") || str_eq(c, "dist") {
            assert(views(components@)[k as int] == c@);
            return true;
        }
        k += 1;
    }
    false
}

/// A character that makes a path a glob pattern.
pub open spec fn is_glob_char(c: char) -> bool {
    c == '*' || c == '?' || c == '[' || c == '{'
}

/// `path` holds a glob metacharacter.
pub open spec fn has_glob_char(path: Seq<char>) -> bool {
    exists|k: int| 0 <= k < path.len() && is_glob_char(#[trigger] path[k])
}

/// The glob of the files searched: all files when no path is given; the
/// path itself when it is a glob; else all files under the directory
/// `path` (trailing `/` dropped in either case).
pub open spec fn search_glob(path: Seq<char>) -> Seq<char> {
    if path.len() == 0 {
        "**/*"@
    } else if has_glob_char(path) {
        trim_end_slashes(path)
    } else {
        trim_end_slashes(path) + "/**/*"@
    }
}

/// Whether `path` holds a glob metacharacter.
pub fn is_glob(path: &str) -> (r: bool)
    ensures
        r == has_glob_char(path@),
{
    let n = path.unicode_len();
    let mut k: usize = 0;
    while k < n
        invariant
            n == path@.len(),
            k <= n,
            forall|m: int| 0 <= m < k ==> !is_glob_char(#[trigger] path@[m]),
        decreases n - k,
    {
        let c = path.get_char(k);
        if c == '*' || c == '?' || c == '[' || c == '{' {
            return true;
        }
        k += 1;
    }
    false
}

/// A matching line as reported: `path:number:text`.
pub open spec fn hit_line(rel: Seq<char>, number: nat, line: Seq<char>) -> Seq<char> {
    rel + ":"@ + decimal_spec(number) + ":"@ + line
}

/// The reports of the lines that match, in order, numbered from 1.
pub open spec fn line_hits(pat: Seq<char>, rel: Seq<char>, lines: Seq<Seq<char>>) -> Seq<Seq<char>>
    decreases lines.len(),
{
    if lines.len() == 0 {
        seq![]
    } else {
        line_hits(pat, rel, lines.drop_last()) + if regex_is_match_spec(pat, lines.last()) {
            seq![hit_line(rel, lines.len(), lines.last())]
        } else {
            seq![]
        }
    }
}

proof fn lemma_hits_prefix(pat: Seq<char>, rel: Seq<char>, lines: Seq<Seq<char>>, i: int)
    requires
        0 <= i <= lines.len(),
    ensures
        line_hits(pat, rel, lines.take(i)).len() <= line_hits(pat, rel, lines).len(),
        line_hits(pat, rel, lines.take(i)) == line_hits(pat, rel, lines).take(
            line_hits(pat, rel, lines.take(i)).len() as int,
        ),
    decreases lines.len() - i,
{
    if i == lines.len() {
        assert(lines.take(i) =~= lines);
    } else {
        lemma_hits_prefix(pat, rel, lines, i + 1);
        assert(lines.take(i + 1).drop_last() =~= lines.take(i));
        let a = line_hits(pat, rel, lines.take(i));
        let b = line_hits(pat, rel, lines.take(i + 1));
        let all = line_hits(pat, rel, lines);
        assert(b.take(a.len() as int) =~= a);
        assert(all.take(a.len() as int) =~= all.take(b.len() as int).take(a.len() as int));
    }
}

impl GrepTool {
    /// The compiled pattern and the glob of the files to search, from the
    /// call's arguments, or the error for a missing or invalid pattern.
    pub fn prepare(&self, args: &str) -> (r: Result<(Pattern, String), ToolExecutionResult>)
        ensures
            ({
                let pat = arg_string_spec(args@, "pattern"@);
                match r {
                    Ok((p, glob)) => {
                        &&& pat.len() > 0
                        &&& regex_error(pat) is None
                        &&& p.source() == pat
                        &&& glob@ == search_glob(arg_string_spec(args@, "path"@))
                    },
                    Err(e) => e.is_error && if pat.len() == 0 {
                        e.output@ == "Missing required argument: "@ + "pattern"@
                    } else {
                        regex_error(pat) matches Some(msg) && e.output@ == "Invalid regular expression: "@ + msg
                    },
                }
            }),
    {
        let pattern = arg_string(args, "pattern");
        if str_is_empty(pattern.as_str()) {
            return Err(missing_argument("pattern"));
        }
        let p = match compile(pattern.as_str()) {
            Ok(p) => p,
            Err(e) => {
                return Err(err(concat2("Invalid regular expression: ", e.as_str())));
            },
        };
        let path = arg_string(args, "path");
        let glob = if str_is_empty(path.as_str()) {
            "**/*".to_owned()
        } else if is_glob(path.as_str()) {
            trim_trailing_slashes(path.as_str())
        } else {
            let t = trim_trailing_slashes(path.as_str());
            concat2(t.as_str(), "/**/*")
        };
        Ok((p, glob))
    }

    /// The error when the walk cannot be set up, with its error text.
    pub fn search_failed(&self, e: &str) -> (r: ToolExecutionResult)
        ensures
            r.is_error,
            r.output@ == "Search failed: "@ + e@,
    {
        err(concat2("Search failed: ", e))
    }
}

/// A search in progress: the pattern and the matching lines found so far.
pub struct GrepSearch {
    pattern: Pattern,
    results: Vec<String>,
}

impl GrepSearch {
    /// The pattern searched for.
    pub closed spec fn pattern_source(&self) -> Seq<char> {
        self.pattern.source()
    }

    /// The reports of the matching lines found so far.
    pub closed spec fn hits(&self) -> Seq<Seq<char>> {
        views(self.results@)
    }

    /// No more than the most matches are kept.
    pub open spec fn wf(&self) -> bool {
        self.hits().len() <= MAX_MATCHES
    }

    /// A search for `pattern` that has found nothing yet.
    pub fn new(pattern: Pattern) -> (s: Self)
        ensures
            s.wf(),
            s.pattern_source() == pattern.source(),
            s.hits() == Seq::<Seq<char>>::empty(),
    {
        let s = GrepSearch { pattern, results: Vec::new() };
        assert(views(s.results@) =~= Seq::<Seq<char>>::empty());
        s
    }

    /// Whether the search has found as many matches as it keeps.
    pub fn is_full(&self) -> (r: bool)
        ensures
            r == (self.hits().len() >= MAX_MATCHES),
    {
        self.results.len() >= MAX_MATCHES
    }

    /// Whether a file with these path components and this size in bytes is
    /// searched.
    pub fn wants(&self, components: &Vec<String>, size: u64) -> (r: bool)
        ensures
            r == (!excluded_spec(views(components@)) && size <= MAX_FILE_BYTES),
    {
        !is_excluded(components) && size <= MAX_FILE_BYTES
    }

    /// Searches the lines of one file, `rel` being its path as reported,
    /// keeping matches until there are as many as the search keeps.
    pub fn search_file(&mut self, rel: &str, content: &str)
        requires
            old(self).wf(),
        ensures
            final(self).wf(),
            final(self).pattern_source() == old(self).pattern_source(),
            ({
                let all = line_hits(old(self).pattern_source(), rel@, text_lines(content@));
                let room = MAX_MATCHES - old(self).hits().len();
                final(self).hits() == old(self).hits() + all.take(if all.len() < room {
                    all.len() as int
                } else {
                    room
                })
            }),
    {
        let lines = lines_of(content);
        let ghost tl = text_lines(content@);
        let ghost pat = self.pattern.source();
        let ghost start = views(self.results@);
        let ghost all = line_hits(pat, rel@, tl);
        let mut i: usize = 0;
        assert(tl.take(0) =~= Seq::<Seq<char>>::empty());
        assert(start + line_hits(pat, rel@, tl.take(0)) =~= start);
        while i < lines.len() && self.results.len() < MAX_MATCHES
            invariant
                lines@.len() == tl.len(),
                forall|k: int| 0 <= k < tl.len() ==> (#[trigger] lines@[k])@ == tl[k],
                i <= tl.len(),
                pat == self.pattern.source(),
                start.len() <= MAX_MATCHES,
                views(self.results@).len() <= MAX_MATCHES,
                views(self.results@) == start + line_hits(pat, rel@, tl.take(i as int)),
            decreases tl.len() - i,
        {
            let line = lines[i];
            proof {
                assert(tl.take(i + 1).drop_last() =~= tl.take(i as int));
                assert(tl.take(i + 1).last() == tl[i as int]);
            }
            if is_match(&self.pattern, line) {
                let num = to_radix((i + 1) as u128, 10);
                let mut s = concat3(rel, ":", num.as_str());
                s.append(":");
                s.append(line);
                let ghost before = views(self.results@);
                self.results.push(s);
                proof {
                    assert(views(self.results@) =~= before.push(hit_line(rel@, (i + 1) as nat, tl[i as int])));
                    assert(start + line_hits(pat, rel@, tl.take(i + 1)) =~= before.push(
                        hit_line(rel@, (i + 1) as nat, tl[i as int]),
                    ));
                }
            } else {
                proof {
                    assert(start + line_hits(pat, rel@, tl.take(i + 1)) =~= views(self.results@));
                }
            }
            i += 1;
        }
        proof {
            lemma_hits_prefix(pat, rel@, tl, i as int);
            let got = line_hits(pat, rel@, tl.take(i as int));
            let room = MAX_MATCHES - start.len();
            if i == tl.len() {
                assert(tl.take(i as int) =~= tl);
            }
            if got.len() < all.len() {
                assert(i < tl.len());
            }
            assert(got =~= all.take(if all.len() < room {
                all.len() as int
            } else {
                room
            }));
        }
    }

    /// The tool result: the matching lines, one per line, with a note when
    /// the search stopped at the most matches; or a note that none matched.
    pub fn finish(self) -> (r: ToolExecutionResult)
        ensures
            !r.is_error,
            r.output@ == if self.hits().len() == 0 {
                "(no matches)"@
            } else if self.hits().len() >= MAX_MATCHES {
                join(self.hits(), "\n"@) + "\n... (truncated at 200 matches)"@
            } else {
                join(self.hits(), "\n"@)
            },
    {
        if self.results.len() == 0 {
            return ok("(no matches)".to_owned());
        }
        let mut text = join_strings(&self.results, "\n");
        if self.results.len() >= MAX_MATCHES {
            text.append("\n... (truncated at 200 matches)");
        }
        ok(text)
    }
}

} // verus!
