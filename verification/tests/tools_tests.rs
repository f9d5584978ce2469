use local_code_core::tools::bash::{truncate, BashTool};
use local_code_core::tools::edit_file::{count_occurrences, EditFileTool};
use local_code_core::tools::glob::{FoundPath, GlobTool};
use local_code_core::tools::grep::{GrepSearch, GrepTool};
use local_code_core::tools::list_dir::ListDirTool;
use local_code_core::tools::read_file::{number_lines, ReadFileTool};
use local_code_core::tools::write_file::WriteFileTool;
use local_code_core::tools::{arg_string, err, ok, tool_definitions, unified_diff};

#[test]
fn results_carry_their_error_flag() {
    let a = ok("fine".to_string());
    assert_eq!(a.output, "fine");
    assert!(!a.is_error);
    let b = err("bad".to_string());
    assert!(b.is_error);
}

#[test]
fn string_arguments_are_read_from_json() {
    assert_eq!(arg_string("{\"path\":\"a.txt\",\"n\":3}", "path"), "a.txt");
    assert_eq!(arg_string("{\"n\":3}", "n"), "");
    assert_eq!(arg_string("{\"n\":3}", "path"), "");
    assert_eq!(arg_string("not json", "path"), "");
}

#[test]
fn definitions_name_the_seven_tools() {
    let d = tool_definitions();
    let names: Vec<&str> = d.iter().map(|t| t.name.as_str()).collect();
    assert_eq!(names, vec!["read_file", "write_file", "edit_file", "list_dir", "glob", "grep", "bash"]);
    let mutating: Vec<bool> = d.iter().map(|t| t.mutating).collect();
    assert_eq!(mutating, vec![false, true, true, false, false, false, true]);
    assert_eq!(d[0].parameters.required, Some(vec!["path".to_string()]));
    assert_eq!(d[3].parameters.required, None);
    assert_eq!(d[0].parameters.kind, "object");
}

#[test]
fn read_file_numbers_lines_from_the_offset() {
    assert_eq!(number_lines("a\nb\nc", None, None), "1\ta\n2\tb\n3\tc");
    assert_eq!(number_lines("a\nb\nc", Some(2), Some(1)), "2\tb\n... (1 more lines)");
    assert_eq!(number_lines("a\nb\nc", Some(10), None), "");
    assert_eq!(number_lines("a\nb\nc", Some(0), Some(2)), "0\ta\n1\tb\n... (1 more lines)");
    assert_eq!(number_lines("", None, None), "1\t");
}

#[test]
fn read_file_limits_to_two_thousand_lines() {
    let text = vec!["x"; 2001].join("\n");
    let out = number_lines(&text, None, None);
    assert!(out.ends_with("2000\tx\n... (1 more lines)"));
}

#[test]
fn read_file_errors() {
    let t = ReadFileTool;
    assert_eq!(t.prepare("{}").unwrap_err().output, "Missing required argument: path");
    assert_eq!(t.prepare("{\"path\":\"a\"}").unwrap(), "a");
    assert_eq!(t.check_path("a", false, false).unwrap().output, "File not found: a");
    assert_eq!(t.check_path("d", true, true).unwrap().output, "d is a directory, not a file.");
    assert!(t.check_path("a", true, false).is_none());
    let r = t.finish("a", Err("denied".to_string()), None, None);
    assert_eq!(r.output, "Failed to read a: denied");
    assert!(r.is_error);
    let r = t.finish("a", Ok("x\ny".to_string()), None, None);
    assert_eq!(r.output, "1\tx\n2\ty");
    assert!(!r.is_error);
}

#[test]
fn write_file_checks_and_reports() {
    let t = WriteFileTool;
    assert_eq!(t.prepare("{\"content\":\"x\"}").unwrap_err().output, "Missing required argument: path");
    assert_eq!(t.prepare("{\"path\":\"a\"}").unwrap_err().output, "Missing required argument: content");
    assert_eq!(t.prepare("{\"path\":\"a\",\"content\":\"\"}").unwrap(), ("a".to_string(), "".to_string()));
    assert_eq!(t.finish("a", "l1\nl2\n", None).output, "Wrote 3 lines to a");
    assert_eq!(t.finish("a", "", Some("disk full".into())).output, "Failed to write a: disk full");
    assert_eq!(t.preview("{\"path\":\"a\",\"content\":\"same\"}", "same"), "No changes to a");
    let p = t.preview("{\"path\":\"a\",\"content\":\"new\\n\"}", "old\n");
    assert_eq!(p, unified_diff("a", "old\n", "new\n"));
    assert!(p.contains("-old") && p.contains("+new"));
}

#[test]
fn unified_diff_shows_the_change() {
    let d = unified_diff("f.txt", "a\nb\n", "a\nc\n");
    assert!(d.starts_with("--- f.txt\n+++ f.txt\n"));
    assert!(d.contains("-b\n"));
    assert!(d.contains("+c\n"));
}

#[test]
fn occurrences_do_not_overlap_and_ignore_the_empty_needle() {
    assert_eq!(count_occurrences("aaaa", "aa"), 2);
    assert_eq!(count_occurrences("abcabc", "bc"), 2);
    assert_eq!(count_occurrences("abc", ""), 0);
    assert_eq!(count_occurrences("abc", "x"), 0);
}

#[test]
fn edit_file_needs_exactly_one_match() {
    let t = EditFileTool;
    assert_eq!(
        t.apply("f", "abc", "x", "y").unwrap_err().output,
        "old_string not found in f. Make sure it matches exactly, including whitespace."
    );
    assert_eq!(
        t.apply("f", "a a", "a", "b").unwrap_err().output,
        "old_string matches 2 times in f. Include more surrounding context so it matches exactly once."
    );
    assert_eq!(t.apply("f", "one two", "two", "2").unwrap(), "one 2");
    assert_eq!(t.finish("f", None).output, "Edited f");
    assert_eq!(t.finish("f", Some("ro".into())).output, "Failed to write f: ro");
    assert_eq!(t.prepare("{\"path\":\"f\"}").unwrap_err().output, "Missing required argument: old_string");
    assert_eq!(
        t.prepare("{\"path\":\"f\",\"old_string\":\"a\"}").unwrap_err().output,
        "Missing required argument: new_string"
    );
    assert_eq!(t.preview("{\"path\":\"f\"}", None), "File not found: f");
    let p = t.preview("{\"path\":\"f\",\"old_string\":\"b\",\"new_string\":\"c\"}", Some("a\nb\n".to_string()));
    assert_eq!(p, unified_diff("f", "a\nb\n", "a\nc\n"));
}

#[test]
fn list_dir_sorts_and_marks_directories() {
    let t = ListDirTool;
    assert_eq!(t.prepare("{}"), ".");
    assert_eq!(t.prepare("{\"path\":\"src\"}"), "src");
    let entries = vec![
        ("b.rs".to_string(), false),
        ("node_modules".to_string(), true),
        ("a".to_string(), true),
        (".git".to_string(), true),
        ("a-b".to_string(), false),
    ];
    assert_eq!(t.finish("x", Ok(entries)).output, "a/\na-b\nb.rs");
    assert_eq!(t.finish("x", Ok(vec![(".git".to_string(), true)])).output, "(empty directory)");
    assert_eq!(t.finish("x", Err("no access".into())).output, "Failed to list x: no access");
    assert_eq!(t.check_path("x", false, false).unwrap().output, "Path not found: x");
    assert_eq!(t.check_path("x", true, false).unwrap().output, "x is not a directory.");
    assert!(t.check_path("x", true, true).is_none());
}

fn found(components: &[&str], rel: Option<&str>) -> FoundPath {
    FoundPath { components: components.iter().map(|c| c.to_string()).collect(), relative: rel.map(|r| r.to_string()) }
}

#[test]
fn glob_keeps_sorted_paths_outside_excluded_folders() {
    let t = GlobTool;
    assert_eq!(t.prepare("{}").unwrap_err().output, "Missing required argument: pattern");
    let r = t.finish(vec![
        found(&["w", "src", "b.rs"], Some("src/b.rs")),
        found(&["w", "node_modules", "x.rs"], Some("node_modules/x.rs")),
        found(&["w", "a.rs"], Some("a.rs")),
        found(&["elsewhere"], None),
    ]);
    assert_eq!(r.output, "a.rs\nsrc/b.rs");
    assert_eq!(t.finish(Vec::new()).output, "(no matches)");
    assert_eq!(t.walk_failed("bad glob").output, "Glob failed: bad glob");
    assert!(local_code_core::tools::glob::is_excluded(&vec![".git".to_string()]));
    assert!(!local_code_core::tools::glob::is_excluded(&vec!["dist".to_string()]));
}

fn compiled(p: &str) -> local_code_core::pattern::Pattern {
    match GrepTool.prepare(&format!("{{\"pattern\":\"{p}\"}}")) {
        Ok((c, _)) => c,
        Err(e) => panic!("{}", e.output),
    }
}

#[test]
fn grep_prepares_pattern_and_glob() {
    let t = GrepTool;
    let error_of = |args: &str| match t.prepare(args) {
        Err(e) => e.output,
        Ok(_) => panic!("expected an error"),
    };
    assert_eq!(error_of("{}"), "Missing required argument: pattern");
    let e = error_of("{\"pattern\":\"(\"}");
    assert!(e.starts_with("Invalid regular expression: "));
    let glob_of = |args: &str| match t.prepare(args) {
        Ok((_, g)) => g,
        Err(_) => panic!("expected a pattern"),
    };
    assert_eq!(glob_of("{\"pattern\":\"fn\"}"), "**/*");
    assert_eq!(glob_of("{\"pattern\":\"fn\",\"path\":\"src//\"}"), "src/**/*");
    assert_eq!(glob_of("{\"pattern\":\"fn\",\"path\":\"src/*.rs\"}"), "src/*.rs");
    assert_eq!(glob_of("{\"pattern\":\"fn\",\"path\":\"src/**/mod.rs\"}"), "src/**/mod.rs");
    assert_eq!(glob_of("{\"pattern\":\"fn\",\"path\":\"{a,b}/\"}"), "{a,b}");
    assert!(local_code_core::tools::grep::is_glob("a?.rs"));
    assert!(!local_code_core::tools::grep::is_glob("src/tools"));
    assert_eq!(t.search_failed("x").output, "Search failed: x");
    assert!(local_code_core::tools::grep::is_excluded(&vec!["dist".to_string()]));
}

#[test]
fn grep_reports_matching_lines_with_numbers() {
    let mut s = GrepSearch::new(compiled("fo+"));
    assert!(s.wants(&vec!["src".to_string()], 10));
    assert!(!s.wants(&vec!["dist".to_string()], 10));
    assert!(!s.wants(&vec!["src".to_string()], 1_000_001));
    s.search_file("a.txt", "foo\nbar\nfoo bar");
    s.search_file("b.txt", "nothing");
    assert!(!s.is_full());
    assert_eq!(s.finish().output, "a.txt:1:foo\na.txt:3:foo bar");
    let empty = GrepSearch::new(compiled("zzz"));
    assert_eq!(empty.finish().output, "(no matches)");
}

#[test]
fn grep_stops_at_two_hundred_matches() {
    let mut s = GrepSearch::new(compiled("x"));
    let text = vec!["x"; 150].join("\n");
    s.search_file("a", &text);
    s.search_file("b", &text);
    assert!(s.is_full());
    let out = s.finish().output;
    assert!(out.ends_with("b:50:x\n... (truncated at 200 matches)"));
}

#[test]
fn bash_truncates_long_output() {
    let long = "é".repeat(20_005);
    let t = truncate(&long);
    assert!(t.starts_with(&"é".repeat(20_000)));
    assert!(t.ends_with("\n... (truncated, 5 more characters)"));
    assert_eq!(truncate("short"), "short");
}

#[test]
fn bash_combines_outputs_and_reports_failure() {
    let t = BashTool;
    assert_eq!(t.prepare("{}").unwrap_err().output, "Missing required argument: command");
    assert_eq!(t.preview("{\"command\":\"ls\"}"), "$ ls");
    let r = t.finish(b"  out \n", b"", true, Some(0));
    assert_eq!(r.output, "out");
    assert!(!r.is_error);
    let r = t.finish(b"", b"", true, Some(0));
    assert_eq!(r.output, "(no output)");
    let r = t.finish(b"a", b" b ", false, Some(2));
    assert_eq!(r.output, "a\nb\n\nCommand exited with error: exit status 2");
    assert!(r.is_error);
    let r = t.finish(b"", b"", false, None);
    assert_eq!(r.output, "(no output)\n\nCommand exited with error: exit status unknown");
    assert_eq!(t.run_failed("no sh").output, "Failed to run command: no sh");
    assert_eq!(t.timed_out().output, "Command timed out after 120s");
}
