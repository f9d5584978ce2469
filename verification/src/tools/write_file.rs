//! Writing a file: the checks on the arguments and the report.

use vstd::prelude::*;
use crate::id::{decimal_spec, to_radix};
use crate::json::{json_string_member, string_member};
use crate::text::{concat2, concat3, lines_of, str_eq, str_is_empty, text_lines};
use crate::tools::{
    arg_string, arg_string_spec, definition_is, failed, missing_argument, ok, schema, strings_view,
    unified_diff, unified_diff_spec,
};
use crate::types::{ToolDefinition, ToolExecutionResult};
use vstd::string::StringExecFns;

verus! {

pub struct WriteFileTool;

impl WriteFileTool {
    pub fn definition(&self) -> (d: ToolDefinition)
        ensures
            definition_is(
                d,
                "write_file"@,
                "Create a new file or overwrite an existing file with the given content. Creates parent directories as needed."@,
                "{\"content\":{\"description\":\"Full text content to write to the file.\",\"type\":\"string\"},\"path\":{\"description\":\"File path, relative to the working directory or absolute.\",\"type\":\"string\"}}"@,
                seq!["path"@, "content"@],
                true,
            ),
    {
        let required: Vec<String> = vec!["path".to_owned(), "content".to_owned()];
        let d = ToolDefinition {
            name: "write_file".to_owned(),
            description: "Create a new file or overwrite an existing file with the given content. Creates parent directories as needed.".to_owned(),
            parameters: schema("{\"content\":{\"description\":\"Full text content to write to the file.\",\"type\":\"string\"},\"path\":{\"description\":\"File path, relative to the working directory or absolute.\",\"type\":\"string\"}}".to_owned(), required),
            mutating: true,
        };
        proof {
            if d.parameters.required is Some {
                assert(strings_view(d.parameters.required->0@) =~= seq!["path"@, "content"@]);
            }
        }
        d
    }
}

impl WriteFileTool {
    /// The path and the content to write, from the call's arguments, or the
    /// error for the first of them that is missing.
    pub fn prepare(&self, args: &str) -> (r: Result<(String, String), ToolExecutionResult>)
        ensures
            match r {
                Ok((path, content)) => {
                    &&& path@ == arg_string_spec(args@, "path"@)
                    &&& path@.len() > 0
                    &&& json_string_member(args@, "content"@) == Some(content@)
                },
                Err(e) => e.is_error && if arg_string_spec(args@, "path"@).len() == 0 {
                    e.output@ == "Missing required argument: "@ + "path"@
                } else {
                    json_string_member(args@, "content"@) is None && e.output@
                        == "Missing required argument: "@ + "content"@
                },
            },
    {
        let path = arg_string(args, "path");
        if str_is_empty(path.as_str()) {
            return Err(missing_argument("path"));
        }
        match string_member(args, "content") {
            Some(content) => Ok((path, content)),
            None => Err(missing_argument("content")),
        }
    }

    /// What is shown before the write is approved: that nothing changes, or
    /// the diff from the file's present text `before` (empty when it cannot
    /// be read) to the new content.
    pub fn preview(&self, args: &str, before: &str) -> (r: String)
        ensures
            r@ == if before@ == arg_string_spec(args@, "content"@) {
                "No changes to "@ + arg_string_spec(args@, "path"@)
            } else {
                unified_diff_spec(arg_string_spec(args@, "path"@), before@, arg_string_spec(args@, "content"@))
            },
    {
        let path = arg_string(args, "path");
        let content = arg_string(args, "content");
        if str_eq(before, content.as_str()) {
            concat2("No changes to ", path.as_str())
        } else {
            unified_diff(path.as_str(), before, content.as_str())
        }
    }

    /// The result of writing `content` to `path`, given the error text of the
    /// write, if it failed.
    pub fn finish(&self, path: &str, content: &str, write_error: Option<String>) -> (r: ToolExecutionResult)
        ensures
            match write_error {
                Some(e) => r.is_error && r.output@ == "Failed to "@ + "write"@ + " "@ + path@ + ": "@ + e@,
                None => !r.is_error && r.output@ == "Wrote "@ + decimal_spec(text_lines(content@).len())
                    + " lines to "@ + path@,
            },
    {
        match write_error {
            Some(e) => failed("write", path, e.as_str()),
            None => {
                let lines = lines_of(content);
                let n = to_radix(lines.len() as u128, 10);
                let mut s = concat3("Wrote ", n.as_str(), " lines to ");
                s.append(path);
                ok(s)
            },
        }
    }
}

} // verus!
