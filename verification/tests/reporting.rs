use changed_files::command::command_output;
use changed_files::rebase::{quote, rebase};
use changed_files::report::{changed_paths, report, Failure, LineError};
use changed_files::status::ParseError;

fn normalized(path: &str) -> Vec<String> {
    let mut parts: Vec<String> = Vec::new();
    for part in path.split('/') {
        if part.is_empty() || part == "." {
            continue;
        }
        if part == ".." && !parts.is_empty() && parts[parts.len() - 1] != ".." {
            parts.pop();
        } else {
            parts.push(part.to_string());
        }
    }
    parts
}

#[test]
fn rebase_against_no_offset_is_the_identity() {
    for path in ["foo.txt", "a/b/c.txt", "bar baz.txt", "../up.txt", "d\u{e9}j\u{e0}/vu.txt"] {
        assert_eq!(rebase(path, ""), Some(path.to_string()));
    }
}

#[test]
fn rebase_descends_and_ascends() {
    assert_eq!(rebase("a/b/c.txt", "a"), Some("b/c.txt".to_string()));
    assert_eq!(rebase("a/b/c.txt", "a/b"), Some("c.txt".to_string()));
    assert_eq!(rebase("a/x.txt", "a/b"), Some("../x.txt".to_string()));
    assert_eq!(rebase("x.txt", "a/b"), Some("../../x.txt".to_string()));
    assert_eq!(rebase("a/b", "a/b"), Some("".to_string()));
    assert_eq!(rebase("a", "a/b"), Some("..".to_string()));
    assert_eq!(rebase("/repo/sub", "/repo"), Some("sub".to_string()));
    assert_eq!(rebase("/repo", "/repo"), Some("".to_string()));
}

#[test]
fn rebase_drops_redundant_segments() {
    assert_eq!(rebase("a//b/./c.txt", "a/"), Some("b/c.txt".to_string()));
    assert_eq!(rebase("dir/", ""), Some("dir".to_string()));
}

#[test]
fn rebase_fails_on_unrelated_paths() {
    assert_eq!(rebase("foo.txt", "/repo"), None);
    assert_eq!(rebase("foo.txt", ".."), None);
    assert_eq!(rebase("a/c.txt", "a/../b"), None);
}

#[test]
fn rebase_then_prepending_the_offset_gives_the_path_back() {
    let paths = ["foo.txt", "a/b/c.txt", "a/x.txt", "x/y/z", "a/b/c/d/e.txt"];
    let offsets = ["", "a", "a/b", "a/b/c", "x", "q/r"];
    for path in paths {
        for offset in offsets {
            let relative = rebase(path, offset).unwrap();
            let joined = format!("{}/{}", offset, relative);
            assert_eq!(normalized(&joined), normalized(path));
        }
    }
}

#[test]
fn quote_wraps_in_double_quotes() {
    assert_eq!(quote("a b.txt"), "\"a b.txt\"");
    assert_eq!(quote(""), "\"\"");
    assert_eq!(quote("\"x\""), "\"\"x\"\"");
}

#[test]
fn command_output_is_trimmed() {
    assert_eq!(command_output(true, "  /repo \n"), Some("/repo".to_string()));
    assert_eq!(
        command_output(true, " M a.txt\n M b.txt\n"),
        Some("M a.txt\n M b.txt".to_string())
    );
}

#[test]
fn command_output_of_a_failed_run_is_nothing() {
    assert_eq!(command_output(false, "fatal: not a repository"), None);
    assert_eq!(command_output(false, ""), None);
}

#[test]
fn command_output_of_a_silent_run_is_nothing() {
    assert_eq!(command_output(true, ""), None);
    assert_eq!(command_output(true, " \n\t\r\n"), None);
}

#[test]
fn changed_paths_follow_the_order_of_the_lines() {
    let status = "M foo.txt\n M \"bar baz.txt\"\n R qux.txt -> quxx.txt\n D deleted.txt";
    assert_eq!(
        changed_paths(status),
        Ok(vec![
            "foo.txt".to_string(),
            "bar baz.txt".to_string(),
            "quxx.txt".to_string(),
            "deleted.txt".to_string(),
        ])
    );
    assert_eq!(changed_paths(""), Ok(Vec::new()));
    assert_eq!(changed_paths("M a\r\nM b\r\n"), Ok(vec!["a".to_string(), "b".to_string()]));
}

#[test]
fn changed_paths_stop_at_the_first_malformed_line() {
    assert_eq!(
        changed_paths("M a\n\nR x -> y -> z"),
        Err(LineError { index: 1, error: ParseError::MissingSeparator })
    );
    assert_eq!(
        changed_paths("M a\nR x -> y -> z\nnothing"),
        Err(LineError { index: 1, error: ParseError::AmbiguousRename })
    );
}

#[test]
fn report_from_the_top_directory_prints_the_paths_as_they_are() {
    let r = report("/repo", "/repo", "M foo.txt\n M \"bar baz.txt\"\n R qux.txt -> quxx.txt");
    assert_eq!(r.failure, None);
    assert_eq!(r.lines, vec!["\"foo.txt\"", "\"bar baz.txt\"", "\"quxx.txt\""]);
}

#[test]
fn report_from_a_directory_below_prints_relative_paths() {
    let r = report("/repo", "/repo/src/bin", "M src/bin/main.rs\n?? src/lib.rs\n D README");
    assert_eq!(r.failure, None);
    assert_eq!(r.lines, vec!["\"main.rs\"", "\"../lib.rs\"", "\"../../README\""]);
}

#[test]
fn report_of_an_empty_status_prints_nothing() {
    let r = report("/repo", "/repo/src", "");
    assert_eq!(r.failure, None);
    assert!(r.lines.is_empty());
}

#[test]
fn report_fails_where_the_directory_is_unrelated() {
    let r = report("/repo", "somewhere", "M foo.txt");
    assert_eq!(r.failure, Some(Failure::UnrelatedDirectory));
    assert!(r.lines.is_empty());
}

#[test]
fn report_fails_on_a_malformed_line_before_it_prints() {
    let r = report("/repo", "/repo", "M foo.txt\nR \"a -> b\" -> c\nM bar.txt");
    assert_eq!(
        r.failure,
        Some(Failure::MalformedLine { index: 1, error: ParseError::AmbiguousRename })
    );
    assert!(r.lines.is_empty());
    let r = report("/repo", "/repo", "M foo.txt\nM bar.txt\nnospace");
    assert_eq!(
        r.failure,
        Some(Failure::MalformedLine { index: 2, error: ParseError::MissingSeparator })
    );
    assert!(r.lines.is_empty());
}

#[test]
fn report_keeps_the_lines_before_an_unrelated_path() {
    let r = report("/repo/sub", "/repo", "M ../q.txt\nM foo.txt\nM ../r.txt");
    assert_eq!(r.failure, Some(Failure::UnrelatedPath { index: 1 }));
    assert_eq!(r.lines, vec!["\"q.txt\""]);
}
