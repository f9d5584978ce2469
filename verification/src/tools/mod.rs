//! The agent's tools: their definitions, and the parts of their work that
//! compute rather than touch the file system or run processes.

use vstd::prelude::*;
use crate::json::{json_string_member, string_member};
use crate::types::{ToolDefinition, ToolExecutionResult, ToolParameterSchema};
use vstd::string::StringExecFns;
use crate::text::{concat2, concat3};

pub mod bash;
pub mod edit_file;
pub mod glob;
pub mod grep;
pub mod list_dir;
pub mod read_file;
pub mod write_file;

pub use bash::BashTool;
pub use edit_file::EditFileTool;
pub use glob::GlobTool;
pub use grep::GrepTool;
pub use list_dir::ListDirTool;
pub use read_file::ReadFileTool;
pub use write_file::WriteFileTool;

verus! {

/// Where a tool runs: the project's working directory.
pub struct ToolContext {
    pub cwd: String,
}

/// A successful tool result.
pub fn ok(output: String) -> (r: ToolExecutionResult)
    ensures
        r.output == output,
        !r.is_error,
{
    ToolExecutionResult { output, is_error: false }
}

/// A failed tool result.
pub fn err(output: String) -> (r: ToolExecutionResult)
    ensures
        r.output == output,
        r.is_error,
{
    ToolExecutionResult { output, is_error: true }
}

/// The string member `key` of the JSON arguments `args`, or the empty string
/// when there is none.
pub open spec fn arg_string_spec(args: Seq<char>, key: Seq<char>) -> Seq<char> {
    match json_string_member(args, key) {
        Some(v) => v,
        None => seq![],
    }
}

/// The string argument `key` of a tool call, or the empty string when it is
/// missing or not a string.
pub fn arg_string(args: &str, key: &str) -> (r: String)
    ensures
        r@ == arg_string_spec(args@, key@),
{
    match string_member(args, key) {
        Some(v) => v,
        None => String::new(),
    }
}

/// The error for a required argument that is missing.
pub fn missing_argument(name: &str) -> (r: ToolExecutionResult)
    ensures
        r.output@ == "Missing required argument: "@ + name@,
        r.is_error,
{
    let mut s = String::from_str("Missing required argument: ");
    s.append(name);
    err(s)
}

/// The error for a file that does not exist.
pub fn file_not_found(path: &str) -> (r: ToolExecutionResult)
    ensures
        r.is_error,
        r.output@ == "File not found: "@ + path@,
{
    err(concat2("File not found: ", path))
}

/// The error for `what` (`read`, `write`, `list`) failing on `path` with the
/// error text `e`: `Failed to {what} {path}: {e}`.
pub fn failed(what: &str, path: &str, e: &str) -> (r: ToolExecutionResult)
    ensures
        r.is_error,
        r.output@ == "Failed to "@ + what@ + " "@ + path@ + ": "@ + e@,
{
    let mut s = concat3("Failed to ", what, " ");
    s.append(path);
    s.append(": ");
    s.append(e);
    err(s)
}

/// The text of a unified diff between `before` and `after`, both labelled
/// `path`, as the `similar` crate writes it.
pub uninterp spec fn unified_diff_spec(path: Seq<char>, before: Seq<char>, after: Seq<char>) -> Seq<char>;

/// Calls `similar::TextDiff::from_lines(before, after).unified_diff()` with
/// the header `path`, `path`, and renders it. The text is claimed to depend
/// on the three arguments alone (named `unified_diff_spec`; the diff is made
/// with no deadline).
#[verifier::external_body]
pub fn unified_diff(path: &str, before: &str, after: &str) -> (r: String)
    ensures
        r@ == unified_diff_spec(path@, before@, after@),
{
    similar::TextDiff::from_lines(before, after).unified_diff().header(path, path).to_string()
}

pub open spec fn strings_view(v: Seq<String>) -> Seq<Seq<char>> {
    v.map_values(|s: String| s@)
}

/// A JSON-schema object with the given properties (the JSON text of an
/// object) and required names (none given: no `required` list).
pub fn schema(properties: String, required: Vec<String>) -> (s: ToolParameterSchema)
    ensures
        s.kind@ == "object"@,
        s.properties == properties,
        match s.required {
            Some(r) => required@.len() > 0 && r@ == required@,
            None => required@.len() == 0,
        },
{
    ToolParameterSchema {
        kind: "object".to_owned(),
        properties,
        required: if required.len() == 0 {
            None
        } else {
            Some(required)
        },
    }
}

/// A tool's definition, by its text.
pub open spec fn definition_is(
    d: ToolDefinition,
    name: Seq<char>,
    description: Seq<char>,
    properties: Seq<char>,
    required: Seq<Seq<char>>,
    mutating: bool,
) -> bool {
    &&& d.name@ == name
    &&& d.description@ == description
    &&& d.parameters.kind@ == "object"@
    &&& d.parameters.properties@ == properties
    &&& match d.parameters.required {
        Some(r) => required.len() > 0 && strings_view(r@) == required,
        None => required.len() == 0,
    }
    &&& d.mutating == mutating
}

/// The tools' names, in the order in which they are offered.
pub open spec fn tool_names() -> Seq<Seq<char>> {
    seq!["read_file"@, "write_file"@, "edit_file"@, "list_dir"@, "glob"@, "grep"@, "bash"@]
}

/// Every tool's definition, in the order in which they are offered.
pub fn tool_definitions() -> (defs: Vec<ToolDefinition>)
    ensures
        defs@.len() == 7,
        forall|k: int| 0 <= k < 7 ==> (#[trigger] defs@[k]).name@ == tool_names()[k],
        defs@[0].mutating == false,
        defs@[1].mutating == true,
        defs@[2].mutating == true,
        defs@[3].mutating == false,
        defs@[4].mutating == false,
        defs@[5].mutating == false,
        defs@[6].mutating == true,
{
    let defs = vec![
        ReadFileTool.definition(),
        WriteFileTool.definition(),
        EditFileTool.definition(),
        ListDirTool.definition(),
        GlobTool.definition(),
        GrepTool.definition(),
        BashTool.definition(),
    ];
    defs
}

} // verus!
