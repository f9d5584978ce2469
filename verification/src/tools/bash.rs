//! Running a shell command: how its output becomes the tool result.

use vstd::prelude::*;
use crate::id::{decimal_spec, signed_decimal, signed_decimal_spec, to_radix};
use crate::text::{concat2, concat3, from_utf8_lossy, lossy_utf8, str_is_empty, trim, trim_spec};
use crate::tools::{arg_string, arg_string_spec, definition_is, err, missing_argument, ok, schema, strings_view};
use crate::types::{ToolDefinition, ToolExecutionResult};
use vstd::string::{StrSliceExecFns, StringExecFns};

verus! {

pub struct BashTool;

impl BashTool {
    pub fn definition(&self) -> (d: ToolDefinition)
        ensures
            definition_is(
                d,
                "bash"@,
                "Run a shell command in the project working directory and return its stdout/stderr. Uses the OS default shell (PowerShell/cmd on Windows, sh elsewhere)."@,
                "{\"command\":{\"description\":\"The shell command to run.\",\"type\":\"string\"}}"@,
                seq!["command"@],
                true,
            ),
    {
        let required: Vec<String> = vec!["command".to_owned()];
        let d = ToolDefinition {
            name: "bash".to_owned(),
            description: "Run a shell command in the project working directory and return its stdout/stderr. Uses the OS default shell (PowerShell/cmd on Windows, sh elsewhere).".to_owned(),
            parameters: schema("{\"command\":{\"description\":\"The shell command to run.\",\"type\":\"string\"}}".to_owned(), required),
            mutating: true,
        };
        proof {
            if d.parameters.required is Some {
                assert(strings_view(d.parameters.required->0@) =~= seq!["command"@]);
            }
        }
        d
    }
}

/// Output longer than this many characters is cut.
pub const MAX_OUTPUT_CHARS: usize = 20_000;

/// A command is stopped after this many seconds.
pub const TIMEOUT_SECS: u64 = 120;

/// `text`, cut after its first 20000 characters with a note of how many
/// more there were.
pub open spec fn truncate_spec(text: Seq<char>) -> Seq<char> {
    if text.len() <= MAX_OUTPUT_CHARS {
        text
    } else {
        text.take(MAX_OUTPUT_CHARS as int) + "\n... (truncated, "@ + decimal_spec(
            (text.len() - MAX_OUTPUT_CHARS) as nat,
        ) + " more characters)"@
    }
}

/// `text` cut to at most 20000 characters, with a note of the rest.
pub fn truncate(text: &str) -> (r: String)
    ensures
        r@ == truncate_spec(text@),
{
    let count = text.unicode_len();
    if count <= MAX_OUTPUT_CHARS {
        return text.to_owned();
    }
    let head = text.substring_char(0, MAX_OUTPUT_CHARS);
    let more = to_radix((count - MAX_OUTPUT_CHARS) as u128, 10);
    let mut r = concat3(head, "\n... (truncated, ", more.as_str());
    r.append(" more characters)");
    r
}

/// The trimmed outputs of a command, those that are not empty, joined by a
/// newline.
pub open spec fn combined_spec(stdout: Seq<char>, stderr: Seq<char>) -> Seq<char> {
    let a = trim_spec(stdout);
    let b = trim_spec(stderr);
    if a.len() == 0 {
        b
    } else if b.len() == 0 {
        a
    } else {
        a + "\n"@ + b
    }
}

/// What the tool shows of a command's outputs.
pub open spec fn shown_output(stdout: Seq<char>, stderr: Seq<char>) -> Seq<char> {
    let c = combined_spec(stdout, stderr);
    if c.len() == 0 {
        "(no output)"@
    } else {
        truncate_spec(c)
    }
}

/// How the exit status is named: its code, or `unknown` when the process
/// has none (it was killed by a signal).
pub open spec fn status_text(code: Option<i32>) -> Seq<char> {
    match code {
        Some(c) => signed_decimal_spec(c as int),
        None => "unknown"@,
    }
}

/// What the tool shows keeps both outputs: both trimmed; nothing but
/// `(no output)` when both are empty; otherwise each that is not empty, the
/// command's output first, a newline between them, the whole cut to the
/// limit. In particular a command that writes only to its error output
/// shows that output.
pub proof fn lemma_shown_output_keeps_both(stdout: Seq<char>, stderr: Seq<char>)
    ensures
        ({
            let a = trim_spec(stdout);
            let b = trim_spec(stderr);
            let shown = shown_output(stdout, stderr);
            &&& a.len() == 0 && b.len() == 0 ==> shown == "(no output)"@
            &&& a.len() == 0 && b.len() > 0 ==> shown == truncate_spec(b)
            &&& a.len() > 0 && b.len() == 0 ==> shown == truncate_spec(a)
            &&& a.len() > 0 && b.len() > 0 ==> shown == truncate_spec(a + "\n"@ + b)
            &&& a.len() == 0 && 0 < b.len() <= MAX_OUTPUT_CHARS ==> shown == b
            &&& b.len() == 0 && 0 < a.len() <= MAX_OUTPUT_CHARS ==> shown == a
        }),
{
    let a = trim_spec(stdout);
    let b = trim_spec(stderr);
    if a.len() > 0 && b.len() > 0 {
        assert((a + "\n"@ + b).len() > 0);
    }
}

impl BashTool {
    /// The command to run, from the call's arguments, or the error for a
    /// missing command.
    pub fn prepare(&self, args: &str) -> (r: Result<String, ToolExecutionResult>)
        ensures
            match r {
                Ok(c) => c@ == arg_string_spec(args@, "command"@) && c@.len() > 0,
                Err(e) => arg_string_spec(args@, "command"@).len() == 0 && e.is_error && e.output@
                    == "Missing required argument: "@ + "command"@,
            },
    {
        let command = arg_string(args, "command");
        if str_is_empty(command.as_str()) {
            return Err(missing_argument("command"));
        }
        Ok(command)
    }

    /// What is shown before the command is approved: the command after a
    /// prompt sign.
    pub fn preview(&self, args: &str) -> (r: String)
        ensures
            r@ == "$ "@ + arg_string_spec(args@, "command"@),
    {
        let command = arg_string(args, "command");
        concat2("$ ", command.as_str())
    }

    /// The result of a command that ran: its outputs (read as UTF-8, invalid
    /// sequences replaced), and, when it failed, its exit status.
    pub fn finish(&self, stdout: &[u8], stderr: &[u8], success: bool, code: Option<i32>) -> (r:
        ToolExecutionResult)
        ensures
            ({
                let text = shown_output(lossy_utf8(stdout@), lossy_utf8(stderr@));
                if success {
                    !r.is_error && r.output@ == text
                } else {
                    r.is_error && r.output@ == text + "\n\nCommand exited with error: exit status "@
                        + status_text(code)
                }
            }),
    {
        let out = from_utf8_lossy(stdout);
        let errs = from_utf8_lossy(stderr);
        let a = trim(out.as_str());
        let b = trim(errs.as_str());
        let combined = if str_is_empty(a.as_str()) {
            b
        } else if str_is_empty(b.as_str()) {
            a
        } else {
            concat3(a.as_str(), "\n", b.as_str())
        };
        let text = if str_is_empty(combined.as_str()) {
            "(no output)".to_owned()
        } else {
            truncate(combined.as_str())
        };
        if success {
            ok(text)
        } else {
            let status = match code {
                Some(c) => signed_decimal(c as i64),
                None => "unknown".to_owned(),
            };
            let s = concat3(text.as_str(), "\n\nCommand exited with error: exit status ", status.as_str());
            err(s)
        }
    }

    /// The error when the command could not be started, with its error text.
    pub fn run_failed(&self, e: &str) -> (r: ToolExecutionResult)
        ensures
            r.is_error,
            r.output@ == "Failed to run command: "@ + e@,
    {
        err(concat2("Failed to run command: ", e))
    }

    /// The error when the command ran past the time limit.
    pub fn timed_out(&self) -> (r: ToolExecutionResult)
        ensures
            r.is_error,
            r.output@ == "Command timed out after 120s"@,
    {
        err("Command timed out after 120s".to_owned())
    }
}

} // verus!
