//! Listing a directory: its entries, sorted, directories marked.

use vstd::prelude::*;
use crate::text::{
    concat2, join, lemma_bytes_lt_asym, lemma_bytes_lt_trans, lemma_join_push, str_eq, str_is_empty, str_lt,
    text_lt, utf8,
};
use crate::tools::{arg_string, arg_string_spec, definition_is, err, failed, ok, schema, strings_view};
use crate::types::{ToolDefinition, ToolExecutionResult};
use vstd::string::StringExecFns;

verus! {

pub struct ListDirTool;

impl ListDirTool {
    pub fn definition(&self) -> (d: ToolDefinition)
        ensures
            definition_is(
                d,
                "list_dir"@,
                "List files and subdirectories at a given path (non-recursive)."@,
                "{\"path\":{\"description\":\"Directory path, relative to the working directory or absolute. Defaults to '.'.\",\"type\":\"string\"}}"@,
                Seq::<Seq<char>>::empty(),
                false,
            ),
    {
        let required: Vec<String> = Vec::new();
        let d = ToolDefinition {
            name: "list_dir".to_owned(),
            description: "List files and subdirectories at a given path (non-recursive).".to_owned(),
            parameters: schema("{\"path\":{\"description\":\"Directory path, relative to the working directory or absolute. Defaults to '.'.\",\"type\":\"string\"}}".to_owned(), required),
            mutating: false,
        };
        proof {
            if d.parameters.required is Some {
                assert(strings_view(d.parameters.required->0@) =~= Seq::<Seq<char>>::empty());
            }
        }
        d
    }
}

/// A directory entry by its name and whether it is a directory.
pub open spec fn entry_views(v: Seq<(String, bool)>) -> Seq<(Seq<char>, bool)> {
    v.map_values(|e: (String, bool)| (e.0@, e.1))
}

/// No entry of `s` has a name that comes before the name of one ahead of it.
pub open spec fn sorted_by_name(s: Seq<(Seq<char>, bool)>) -> bool {
    forall|i: int, j: int| 0 <= i < j < s.len() ==> !text_lt((#[trigger] s[j]).0, (#[trigger] s[i]).0)
}

/// Entries that are listed: all but `node_modules` and `.git`.
pub open spec fn listed_entry(e: (Seq<char>, bool)) -> bool {
    e.0 != "node_modules"@ && e.0 != ".git"@
}

/// How an entry is shown: its name, with `/` after a directory's.
pub open spec fn entry_line(e: (Seq<char>, bool)) -> Seq<char> {
    if e.1 {
        e.0 + "/"@
    } else {
        e.0
    }
}

/// What the tool shows for the entries `sorted`: one per line, or a note
/// that there are none.
pub open spec fn listing_text(sorted: Seq<(Seq<char>, bool)>) -> Seq<char> {
    if sorted.len() == 0 {
        "(empty directory)"@
    } else {
        join(sorted.map_values(|e: (Seq<char>, bool)| entry_line(e)), "\n"@)
    }
}

/// `text` is the listing of `entries`: the listed ones, sorted by name.
pub open spec fn is_listing(entries: Seq<(Seq<char>, bool)>, text: Seq<char>) -> bool {
    exists|sorted: Seq<(Seq<char>, bool)>|
        {
            &&& sorted.to_multiset() == entries.filter(|e: (Seq<char>, bool)| listed_entry(e)).to_multiset()
            &&& sorted_by_name(sorted)
            &&& text == #[trigger] listing_text(sorted)
        }
}

proof fn lemma_insert_multiset_entries(s: Seq<(Seq<char>, bool)>, k: int, x: (Seq<char>, bool))
    requires
        0 <= k <= s.len(),
    ensures
        s.insert(k, x).to_multiset() == s.to_multiset().insert(x),
{
    broadcast use vstd::seq_lib::group_to_multiset_ensures, vstd::multiset::group_multiset_axioms;
    let a = s.subrange(0, k);
    let b = s.subrange(k, s.len() as int);
    assert(s.insert(k, x) =~= a.push(x) + b);
    assert(s =~= a + b);
    vstd::seq_lib::lemma_multiset_commutative(a.push(x), b);
    vstd::seq_lib::lemma_multiset_commutative(a, b);
    a.to_multiset_ensures();
    assert(a.to_multiset().insert(x).add(b.to_multiset()) =~= a.to_multiset().add(b.to_multiset()).insert(x));
}

/// The listed entries of `v`, sorted by name (stable).
pub fn sort_entries(v: Vec<(String, bool)>) -> (r: Vec<(String, bool)>)
    ensures
        entry_views(r@).to_multiset() == entry_views(v@).filter(|e: (Seq<char>, bool)| listed_entry(e)).to_multiset(),
        sorted_by_name(entry_views(r@)),
{
    let ghost kept = entry_views(v@).filter(|e: (Seq<char>, bool)| listed_entry(e));
    let mut r: Vec<(String, bool)> = Vec::new();
    let mut i: usize = 0;
    assert(entry_views(v@).take(0).filter(|e: (Seq<char>, bool)| listed_entry(e)) =~= Seq::<(Seq<char>, bool)>::empty());
    assert(entry_views(r@) =~= Seq::<(Seq<char>, bool)>::empty());
    while i < v.len()
        invariant
            i <= v@.len(),
            entry_views(r@).to_multiset() == entry_views(v@).take(i as int).filter(
                |e: (Seq<char>, bool)| listed_entry(e),
            ).to_multiset(),
            sorted_by_name(entry_views(r@)),
        decreases v@.len() - i,
    {
        let name = v[i].0.as_str();
        let is_dir = v[i].1;
        let ghost x = (name@, is_dir);
        let ghost pre = entry_views(v@).take(i as int);
        proof {
            assert(entry_views(v@).take(i + 1) =~= pre.push(x));
            pre.lemma_filter_push(x, |e: (Seq<char>, bool)| listed_entry(e));
        }
        if !str_eq(name, "node_modules") && !str_eq(name, ".git") {
            let mut k: usize = 0;
            while k < r.len() && !str_lt(name, r[k].0.as_str())
                invariant
                    k <= r@.len(),
                    forall|m: int| 0 <= m < k ==> !text_lt(name@, (#[trigger] entry_views(r@)[m]).0),
                decreases r@.len() - k,
            {
                k += 1;
            }
            let ghost old_r = entry_views(r@);
            r.insert(k, (name.to_owned(), is_dir));
            proof {
                assert(entry_views(r@) =~= old_r.insert(k as int, x));
                lemma_insert_multiset_entries(old_r, k as int, x);
                let f = pre.filter(|e: (Seq<char>, bool)| listed_entry(e));
                f.to_multiset_ensures();
                assert(f.push(x).to_multiset() == f.to_multiset().insert(x));
                let nr = entry_views(r@);
                assert forall|a: int, b: int| 0 <= a < b < nr.len() implies !text_lt(
                    (#[trigger] nr[b]).0,
                    (#[trigger] nr[a]).0,
                ) by {
                    if b < k {
                        assert(nr[a] == old_r[a] && nr[b] == old_r[b]);
                    } else if b == k {
                        assert(nr[a] == old_r[a]);
                    } else if a == k {
                        assert(nr[b] == old_r[b - 1]);
                        assert(text_lt(x.0, old_r[k as int].0));
                        if b - 1 > k {
                            assert(!text_lt(old_r[b - 1].0, old_r[k as int].0));
                        }
                        if text_lt(nr[b].0, x.0) {
                            lemma_bytes_lt_trans(utf8(nr[b].0), utf8(x.0), utf8(old_r[k as int].0));
                            lemma_bytes_lt_asym(utf8(nr[b].0), utf8(old_r[k as int].0));
                        }
                    } else if a < k {
                        assert(nr[a] == old_r[a] && nr[b] == old_r[b - 1]);
                    } else {
                        assert(nr[a] == old_r[a - 1] && nr[b] == old_r[b - 1]);
                    }
                }
            }
        }
        i += 1;
    }
    proof {
        assert(entry_views(v@).take(v@.len() as int) =~= entry_views(v@));
    }
    r
}

/// The lines of a listing, in order, joined.
fn listing(sorted: &Vec<(String, bool)>) -> (s: String)
    ensures
        s@ == listing_text(entry_views(sorted@)),
{
    let ghost lines = entry_views(sorted@).map_values(|e: (Seq<char>, bool)| entry_line(e));
    let mut s = String::new();
    let mut i: usize = 0;
    while i < sorted.len()
        invariant
            lines == entry_views(sorted@).map_values(|e: (Seq<char>, bool)| entry_line(e)),
            i <= sorted@.len(),
            s@ == join(lines.take(i as int), "\n"@),
        decreases sorted@.len() - i,
    {
        let ghost before = s@;
        proof {
            assert(lines.take(i + 1) =~= lines.take(i as int).push(lines[i as int]));
            lemma_join_push(lines.take(i as int), "\n"@, lines[i as int]);
        }
        if i > 0 {
            s.append("\n");
        }
        s.append(sorted[i].0.as_str());
        if sorted[i].1 {
            s.append("/");
        }
        proof {
            if i > 0 {
                assert(s@ =~= before + "\n"@ + lines[i as int]);
            } else {
                assert(s@ =~= lines[i as int]);
            }
        }
        i += 1;
    }
    proof {
        assert(lines.take(sorted@.len() as int) =~= lines);
    }
    if sorted.len() == 0 {
        return "(empty directory)".to_owned();
    }
    s
}

impl ListDirTool {
    /// The directory to list: the `path` argument, or `.` when it is empty.
    pub fn prepare(&self, args: &str) -> (r: String)
        ensures
            r@ == if arg_string_spec(args@, "path"@).len() == 0 {
                "."@
            } else {
                arg_string_spec(args@, "path"@)
            },
    {
        let path = arg_string(args, "path");
        if str_is_empty(path.as_str()) {
            ".".to_owned()
        } else {
            path
        }
    }

    /// The error for a path that does not name a directory, if it does not.
    pub fn check_path(&self, path: &str, exists: bool, is_dir: bool) -> (r: Option<ToolExecutionResult>)
        ensures
            !exists ==> (r matches Some(e) && e.is_error && e.output@ == "Path not found: "@ + path@),
            exists && !is_dir ==> (r matches Some(e) && e.is_error && e.output@ == path@
                + " is not a directory."@),
            exists && is_dir ==> r is None,
    {
        if !exists {
            return Some(err(concat2("Path not found: ", path)));
        }
        if !is_dir {
            return Some(err(concat2(path, " is not a directory.")));
        }
        None
    }

    /// The result for what reading the directory `path` gave: its listed
    /// entries, sorted by name, or the read error.
    pub fn finish(&self, path: &str, read: Result<Vec<(String, bool)>, String>) -> (r: ToolExecutionResult)
        ensures
            match read {
                Ok(entries) => !r.is_error && is_listing(entry_views(entries@), r.output@),
                Err(e) => r.is_error && r.output@ == "Failed to "@ + "list"@ + " "@ + path@ + ": "@ + e@,
            },
    {
        match read {
            Ok(entries) => {
                let sorted = sort_entries(entries);
                let text = listing(&sorted);
                let r = ok(text);
                assert(r.output@ == listing_text(entry_views(sorted@)));
                r
            },
            Err(e) => failed("list", path, e.as_str()),
        }
    }
}

} // verus!
