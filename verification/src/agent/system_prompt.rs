//! The system prompt: where the project is, how to call a tool (natively or
//! with a fenced `tool_call` block), and which tools there are.

use vstd::prelude::*;
use crate::text::concat3;
use crate::types::ToolDefinition;
use vstd::string::StringExecFns;

verus! {

/// One line per tool, in order: `- name: description`.
pub open spec fn tool_lines(tools: Seq<ToolDefinition>) -> Seq<char>
    decreases tools.len(),
{
    if tools.len() == 0 {
        seq![]
    } else {
        tool_lines(tools.drop_last()) + "- "@ + tools.last().name@ + ": "@ + tools.last().description@ + "\n"@
    }
}

/// The prompt for the project at `project_path` with the tools `tools`.
pub open spec fn system_prompt_spec(tools: Seq<ToolDefinition>, project_path: Seq<char>) -> Seq<char> {
    "You are Local Code, a coding assistant working in the project at "@ + project_path
        + ".\nUse the tools to read and change files and to run commands. To call a tool, either use native function calling or write a fenced code block tagged tool_call holding one JSON object: {\"name\": \"<tool>\", \"arguments\": {...}}.\n\nTools:\n"@
        + tool_lines(tools)
}

/// The system prompt for the project at `project_path`: the tools and how
/// to call them.
pub fn build_system_prompt(tools: &Vec<ToolDefinition>, project_path: &str) -> (r: String)
    ensures
        r@ == system_prompt_spec(tools@, project_path@),
{
    let mut r = concat3(
        "You are Local Code, a coding assistant working in the project at ",
        project_path,
        ".\nUse the tools to read and change files and to run commands. To call a tool, either use native function calling or write a fenced code block tagged tool_call holding one JSON object: {\"name\": \"<tool>\", \"arguments\": {...}}.\n\nTools:\n",
    );
    let ghost head = r@;
    let mut i: usize = 0;
    assert(tools@.take(0) =~= Seq::<ToolDefinition>::empty());
    while i < tools.len()
        invariant
            i <= tools@.len(),
            r@ == head + tool_lines(tools@.take(i as int)),
        decreases tools@.len() - i,
    {
        let t = &tools[i];
        r.append("- ");
        r.append(t.name.as_str());
        r.append(": ");
        r.append(t.description.as_str());
        r.append("\n");
        assert(tools@.take(i + 1).drop_last() =~= tools@.take(i as int));
        i += 1;
    }
    assert(tools@.take(tools@.len() as int) =~= tools@);
    r
}

} // verus!
