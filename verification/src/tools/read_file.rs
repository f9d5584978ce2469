//! Reading a file: the numbered lines of what was read.

use vstd::prelude::*;
use crate::id::{decimal_spec, to_radix};
use crate::text::{concat2, concat3, str_is_empty, join, lemma_join_push, lines_of, text_lines};
use crate::tools::{
    arg_string, arg_string_spec, definition_is, err, failed, file_not_found, missing_argument, ok, schema,
    strings_view,
};
use crate::types::{ToolDefinition, ToolExecutionResult};
use vstd::string::StringExecFns;

verus! {

pub struct ReadFileTool;

impl ReadFileTool {
    pub fn definition(&self) -> (d: ToolDefinition)
        ensures
            definition_is(
                d,
                "read_file"@,
                "Read a text file from disk. Returns content with line numbers. Use offset/limit for large files."@,
                "{\"limit\":{\"description\":\"Maximum number of lines to read (optional, default 2000).\",\"type\":\"number\"},\"offset\":{\"description\":\"1-indexed line number to start reading from (optional).\",\"type\":\"number\"},\"path\":{\"description\":\"File path, relative to the working directory or absolute.\",\"type\":\"string\"}}"@,
                seq!["path"@],
                false,
            ),
    {
        let required: Vec<String> = vec!["path".to_owned()];
        let d = ToolDefinition {
            name: "read_file".to_owned(),
            description: "Read a text file from disk. Returns content with line numbers. Use offset/limit for large files.".to_owned(),
            parameters: schema("{\"limit\":{\"description\":\"Maximum number of lines to read (optional, default 2000).\",\"type\":\"number\"},\"offset\":{\"description\":\"1-indexed line number to start reading from (optional).\",\"type\":\"number\"},\"path\":{\"description\":\"File path, relative to the working directory or absolute.\",\"type\":\"string\"}}".to_owned(), required),
            mutating: false,
        };
        proof {
            if d.parameters.required is Some {
                assert(strings_view(d.parameters.required->0@) =~= seq!["path"@]);
            }
        }
        d
    }
}

/// The most lines shown when no limit is given.
pub const MAX_LINES: usize = 2000;

/// A line as shown: its number, a tab, its text.
pub open spec fn numbered_line(n: int, line: Seq<char>) -> Seq<char> {
    decimal_spec(n as nat) + "\t"@ + line
}

/// The index of the first line shown: `offset - 1` (offset 1 when none is
/// given), kept within the file.
pub open spec fn first_shown(count: int, offset: Option<usize>) -> int {
    let off: int = match offset {
        Some(o) => o as int,
        None => 1,
    };
    if off <= 0 {
        0
    } else if off - 1 > count {
        count
    } else {
        off - 1
    }
}

/// The index after the last line shown: at most `limit` lines (2000 when
/// none is given) from the first.
pub open spec fn end_shown(count: int, offset: Option<usize>, limit: Option<usize>) -> int {
    let lim: int = match limit {
        Some(l) => l as int,
        None => MAX_LINES as int,
    };
    let start = first_shown(count, offset);
    if start + lim > count {
        count
    } else {
        start + lim
    }
}

/// What the tool shows of a file's text: the chosen lines, numbered from
/// `offset` and joined by newlines, and a note of the lines left out after
/// them.
pub open spec fn numbered_lines_spec(raw: Seq<char>, offset: Option<usize>, limit: Option<usize>) -> Seq<char> {
    let lines = text_lines(raw);
    let n = lines.len() as int;
    let off: int = match offset {
        Some(o) => o as int,
        None => 1,
    };
    let start = first_shown(n, offset);
    let end = end_shown(n, offset, limit);
    let shown = join(
        Seq::new((end - start) as nat, |i: int| numbered_line(off + i, lines[start + i])),
        "\n"@,
    );
    if end < n {
        shown + "\n... ("@ + decimal_spec((n - end) as nat) + " more lines)"@
    } else {
        shown
    }
}

/// The numbered lines of `raw`, from line `offset` on, at most `limit` of
/// them.
pub fn number_lines(raw: &str, offset: Option<usize>, limit: Option<usize>) -> (r: String)
    ensures
        r@ == numbered_lines_spec(raw@, offset, limit),
{
    let lines = lines_of(raw);
    let n = lines.len();
    let ghost tl = text_lines(raw@);
    let off: usize = match offset {
        Some(o) => o,
        None => 1,
    };
    let lim: usize = match limit {
        Some(l) => l,
        None => MAX_LINES,
    };
    let start: usize = if off == 0 {
        0
    } else if off - 1 > n {
        n
    } else {
        off - 1
    };
    let end: usize = if lim > n - start {
        n
    } else {
        start + lim
    };
    assert(start == first_shown(n as int, offset));
    assert(end == end_shown(n as int, offset, limit));
    let ghost items = Seq::new((end - start) as nat, |i: int| numbered_line(off + i, tl[start + i]));
    let mut s = String::new();
    let mut i: usize = 0;
    while i < end - start
        invariant
            start <= end <= n,
            n == lines@.len(),
            tl == text_lines(raw@),
            tl.len() == n,
            forall|k: int| 0 <= k < n ==> (#[trigger] lines@[k])@ == tl[k],
            start < end ==> (off == 0 && start == 0) || (off > 0 && start == off - 1),
            items == Seq::new((end - start) as nat, |i: int| numbered_line(off + i, tl[start + i])),
            i <= end - start,
            s@ == join(items.take(i as int), "\n"@),
        decreases end - start - i,
    {
        let num = to_radix((off + i) as u128, 10);
        let line = lines[start + i];
        let ghost before = s@;
        if i > 0 {
            s.append("\n");
        }
        s.append(num.as_str());
        s.append("\t");
        s.append(line);
        proof {
            assert(items[i as int] == numbered_line(off + i, tl[start + i]));
            assert(items.take(i + 1) =~= items.take(i as int).push(items[i as int]));
            lemma_join_push(items.take(i as int), "\n"@, items[i as int]);
            if i > 0 {
                assert(s@ =~= before + "\n"@ + items[i as int]);
            } else {
                assert(s@ =~= items[i as int]);
            }
        }
        i += 1;
    }
    proof {
        assert(items.take((end - start) as int) =~= items);
    }
    if end < n {
        let rest = to_radix((n - end) as u128, 10);
        let note = concat3("\n... (", rest.as_str(), " more lines)");
        s.append(note.as_str());
        proof {
            assert(s@ =~= join(items, "\n"@) + "\n... ("@ + decimal_spec((n - end) as nat) + " more lines)"@);
        }
    }
    s
}

impl ReadFileTool {
    /// The path to read, from the call's arguments, or the error for a
    /// missing path.
    pub fn prepare(&self, args: &str) -> (r: Result<String, ToolExecutionResult>)
        ensures
            match r {
                Ok(path) => path@ == arg_string_spec(args@, "path"@) && path@.len() > 0,
                Err(e) => arg_string_spec(args@, "path"@).len() == 0 && e.is_error && e.output@
                    == "Missing required argument: "@ + "path"@,
            },
    {
        let path = arg_string(args, "path");
        if str_is_empty(path.as_str()) {
            return Err(missing_argument("path"));
        }
        Ok(path)
    }

    /// The error for a path that does not name a readable file, if it does
    /// not: none when it exists and is no directory.
    pub fn check_path(&self, path: &str, exists: bool, is_dir: bool) -> (r: Option<ToolExecutionResult>)
        ensures
            !exists ==> (r matches Some(e) && e.is_error && e.output@ == "File not found: "@ + path@),
            exists && is_dir ==> (r matches Some(e) && e.is_error && e.output@ == path@
                + " is a directory, not a file."@),
            exists && !is_dir ==> r is None,
    {
        if !exists {
            return Some(file_not_found(path));
        }
        if is_dir {
            return Some(err(concat2(path, " is a directory, not a file.")));
        }
        None
    }

    /// The result for what reading `path` gave: its numbered lines, or the
    /// read error.
    pub fn finish(&self, path: &str, read: Result<String, String>, offset: Option<usize>, limit: Option<usize>) -> (r:
        ToolExecutionResult)
        ensures
            match read {
                Ok(raw) => !r.is_error && r.output@ == numbered_lines_spec(raw@, offset, limit),
                Err(e) => r.is_error && r.output@ == "Failed to "@ + "read"@ + " "@ + path@ + ": "@ + e@,
            },
    {
        match read {
            Ok(raw) => ok(number_lines(raw.as_str(), offset, limit)),
            Err(e) => failed("read", path, e.as_str()),
        }
    }
}

} // verus!
