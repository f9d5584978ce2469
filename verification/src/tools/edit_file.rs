//! Editing a file: replacing a snippet that occurs exactly once.

use vstd::prelude::*;
use vstd::utf8::*;
use crate::id::{decimal_spec, to_radix};
use crate::json::{json_string_member, string_member};
use crate::text::{
    concat2, concat3, find_bytes, find_from, lemma_find_from, replace_first, replace_first_spec, str_is_empty,
    utf8,
};
use crate::tools::{
    arg_string, arg_string_spec, definition_is, err, failed, file_not_found, missing_argument, ok, schema,
    strings_view, unified_diff, unified_diff_spec,
};
use crate::types::{ToolDefinition, ToolExecutionResult};
use vstd::string::{StringExecFns, StringSliceAdditionalSpecFns};

verus! {

pub struct EditFileTool;

impl EditFileTool {
    pub fn definition(&self) -> (d: ToolDefinition)
        ensures
            definition_is(
                d,
                "edit_file"@,
                "Replace an exact snippet of text in a file with new text. old_string must match exactly once in the file. Use this for targeted edits instead of rewriting the whole file."@,
                "{\"new_string\":{\"description\":\"Text to replace it with.\",\"type\":\"string\"},\"old_string\":{\"description\":\"Exact text to find. Must be unique in the file.\",\"type\":\"string\"},\"path\":{\"description\":\"File path, relative to the working directory or absolute.\",\"type\":\"string\"}}"@,
                seq!["path"@, "old_string"@, "new_string"@],
                true,
            ),
    {
        let required: Vec<String> = vec!["path".to_owned(), "old_string".to_owned(), "new_string".to_owned()];
        let d = ToolDefinition {
            name: "edit_file".to_owned(),
            description: "Replace an exact snippet of text in a file with new text. old_string must match exactly once in the file. Use this for targeted edits instead of rewriting the whole file.".to_owned(),
            parameters: schema("{\"new_string\":{\"description\":\"Text to replace it with.\",\"type\":\"string\"},\"old_string\":{\"description\":\"Exact text to find. Must be unique in the file.\",\"type\":\"string\"},\"path\":{\"description\":\"File path, relative to the working directory or absolute.\",\"type\":\"string\"}}".to_owned(), required),
            mutating: true,
        };
        proof {
            if d.parameters.required is Some {
                assert(strings_view(d.parameters.required->0@) =~= seq!["path"@, "old_string"@, "new_string"@]);
            }
        }
        d
    }
}

/// How many times `needle` occurs in `hay` from `i` on, without overlaps
/// (none for an empty needle).
pub open spec fn occurrences(hay: Seq<u8>, needle: Seq<u8>, i: int) -> nat
    decreases hay.len() + 1 - i,
{
    if needle.len() == 0 || i < 0 {
        0
    } else {
        match find_from(hay, needle, i) {
            None => 0,
            Some(p) => {
                proof {
                    lemma_find_from(hay, needle, i);
                }
                1 + occurrences(hay, needle, p + needle.len())
            },
        }
    }
}

/// How many times `needle` occurs in `hay`, without overlaps (none for an
/// empty needle).
pub fn count_occurrences(haystack: &str, needle: &str) -> (r: usize)
    ensures
        r == occurrences(haystack.spec_bytes(), needle.spec_bytes(), 0),
{
    let h = haystack.as_bytes();
    let n = needle.as_bytes();
    if n.len() == 0 {
        return 0;
    }
    let mut count: usize = 0;
    let mut pos: usize = 0;
    while pos <= h.len()
        invariant
            h@ == haystack.spec_bytes(),
            n@ == needle.spec_bytes(),
            n@.len() > 0,
            count <= pos,
            pos <= h@.len() + 1,
            count + occurrences(h@, n@, pos as int) == occurrences(h@, n@, 0),
        decreases h@.len() + 1 - pos,
    {
        match find_bytes(h, n, pos) {
            None => {
                assert(occurrences(h@, n@, pos as int) == 0);
                return count;
            },
            Some(p) => {
                proof {
                    lemma_find_from(h@, n@, pos as int);
                }
                count = count + 1;
                pos = p + n.len();
            },
        }
    }
    count
}

/// The text after the edit: the first occurrence of `old` replaced by `new`.
pub open spec fn edited_spec(before: Seq<char>, old: Seq<char>, new: Seq<char>) -> Seq<char> {
    decode_utf8(replace_first_spec(utf8(before), utf8(old), utf8(new)))
}

impl EditFileTool {
    /// The path, the text to replace and its replacement, from the call's
    /// arguments, or the error for the first of them that is missing.
    pub fn prepare(&self, args: &str) -> (r: Result<(String, String, String), ToolExecutionResult>)
        ensures
            match r {
                Ok((path, old, new)) => {
                    &&& path@ == arg_string_spec(args@, "path"@)
                    &&& path@.len() > 0
                    &&& json_string_member(args@, "old_string"@) == Some(old@)
                    &&& json_string_member(args@, "new_string"@) == Some(new@)
                },
                Err(e) => e.is_error && if arg_string_spec(args@, "path"@).len() == 0 {
                    e.output@ == "Missing required argument: "@ + "path"@
                } else if json_string_member(args@, "old_string"@) is None {
                    e.output@ == "Missing required argument: "@ + "old_string"@
                } else {
                    json_string_member(args@, "new_string"@) is None && e.output@
                        == "Missing required argument: "@ + "new_string"@
                },
            },
    {
        let path = arg_string(args, "path");
        if str_is_empty(path.as_str()) {
            return Err(missing_argument("path"));
        }
        let old = match string_member(args, "old_string") {
            Some(o) => o,
            None => {
                return Err(missing_argument("old_string"));
            },
        };
        match string_member(args, "new_string") {
            Some(new) => Ok((path, old, new)),
            None => Err(missing_argument("new_string")),
        }
    }

    /// What is shown before the edit is approved: that the file does not
    /// exist (`before` is `None`), or the diff from its text to the text
    /// after the edit.
    pub fn preview(&self, args: &str, before: Option<String>) -> (r: String)
        ensures
            match before {
                None => r@ == "File not found: "@ + arg_string_spec(args@, "path"@),
                Some(b) => r@ == unified_diff_spec(
                    arg_string_spec(args@, "path"@),
                    b@,
                    edited_spec(b@, arg_string_spec(args@, "old_string"@), arg_string_spec(args@, "new_string"@)),
                ),
            },
    {
        let path = arg_string(args, "path");
        let old = arg_string(args, "old_string");
        let new = arg_string(args, "new_string");
        match before {
            None => concat2("File not found: ", path.as_str()),
            Some(b) => {
                let after = replace_first(b.as_str(), old.as_str(), new.as_str());
                proof {
                    encode_utf8_decode_utf8(after@);
                }
                unified_diff(path.as_str(), b.as_str(), after.as_str())
            },
        }
    }

    /// The text to write back: `before` with `old` replaced, when `old`
    /// occurs exactly once; otherwise the error saying how often it occurs.
    pub fn apply(&self, path: &str, before: &str, old: &str, new: &str) -> (r: Result<String, ToolExecutionResult>)
        ensures
            ({
                let n = occurrences(utf8(before@), utf8(old@), 0);
                match r {
                    Ok(after) => n == 1 && after@ == edited_spec(before@, old@, new@),
                    Err(e) => e.is_error && if n == 0 {
                        e.output@ == "old_string not found in "@ + path@
                            + ". Make sure it matches exactly, including whitespace."@
                    } else {
                        n > 1 && e.output@ == "old_string matches "@ + decimal_spec(n) + " times in "@ + path@
                            + ". Include more surrounding context so it matches exactly once."@
                    },
                }
            }),
    {
        let n = count_occurrences(before, old);
        if n == 0 {
            return Err(err(concat3("old_string not found in ", path, ". Make sure it matches exactly, including whitespace.")));
        }
        if n > 1 {
            let count = to_radix(n as u128, 10);
            let mut s = concat3("old_string matches ", count.as_str(), " times in ");
            s.append(path);
            s.append(". Include more surrounding context so it matches exactly once.");
            return Err(err(s));
        }
        let after = replace_first(before, old, new);
        proof {
            encode_utf8_decode_utf8(after@);
        }
        Ok(after)
    }

    /// The result once the edited text was written, given the error text of
    /// the write, if it failed.
    pub fn finish(&self, path: &str, write_error: Option<String>) -> (r: ToolExecutionResult)
        ensures
            match write_error {
                Some(e) => r.is_error && r.output@ == "Failed to "@ + "write"@ + " "@ + path@ + ": "@ + e@,
                None => !r.is_error && r.output@ == "Edited "@ + path@,
            },
    {
        match write_error {
            Some(e) => failed("write", path, e.as_str()),
            None => ok(concat2("Edited ", path)),
        }
    }
}

} // verus!
