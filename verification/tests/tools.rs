use remini::tools::{
    grep_text, io_error, path_error, plan_replacement, replace_result, should_skip_directory,
    sort_entries, validate_old_string, write_file_result, DirectoryEntry, ToolError, ToolErrorKind,
};

#[test]
fn replace_single_match() {
    let r = plan_replacement("hello old world", "old", "new", false, "f.txt").unwrap();
    assert_eq!(r.updated, "hello new world");
    assert_eq!(r.occurrences, 1);
}

#[test]
fn replace_rejects_multiple_matches_by_default() {
    let err = plan_replacement("old old", "old", "new", false, "f.txt").err().unwrap();
    assert_eq!(err.kind, ToolErrorKind::InvalidInput);
    assert_eq!(
        err.message,
        "old_string matched 2 times in f.txt. Set allow_multiple to replace all matches."
    );
}

#[test]
fn replace_allows_multiple_matches_when_requested() {
    let r = plan_replacement("old old", "old", "new", true, "f.txt").unwrap();
    assert_eq!(r.updated, "new new");
    assert_eq!(r.occurrences, 2);
}

#[test]
fn replace_counts_without_overlap() {
    let r = plan_replacement("aaaa", "aa", "b", true, "f").unwrap();
    assert_eq!(r.occurrences, 2);
    assert_eq!(r.updated, "bb");
    let r = plan_replacement("aaa", "aa", "x", false, "f").unwrap();
    assert_eq!(r.updated, "xa");
}

#[test]
fn replace_not_found_and_empty() {
    let err = plan_replacement("abc", "z", "y", true, "p.txt").err().unwrap();
    assert_eq!(err.message, "old_string was not found in p.txt");
    let err = validate_old_string("").unwrap_err();
    assert_eq!(err.kind, ToolErrorKind::InvalidInput);
    assert_eq!(err.message, "old_string must not be empty");
    assert!(validate_old_string("x").is_ok());
}

#[test]
fn grep_finds_matching_lines_with_numbers() {
    let m = grep_text("a.txt", "hello\nneedle line\r\nbye\nneedle", "needle");
    assert_eq!(m.len(), 2);
    assert_eq!(m[0].line_number, 2);
    assert_eq!(m[0].line, "needle line");
    assert_eq!(m[1].line_number, 4);
    assert_eq!(m[1].path, "a.txt");
    assert_eq!(grep_text("b", "x\n\n", "").len(), 2);
    assert_eq!(grep_text("b", "", "").len(), 0);
}

#[test]
fn skipped_directories() {
    assert!(should_skip_directory(Some(".git")));
    assert!(should_skip_directory(Some("node_modules")));
    assert!(should_skip_directory(Some("target")));
    assert!(!should_skip_directory(Some("src")));
    assert!(!should_skip_directory(None));
}

#[test]
fn error_messages() {
    let e = path_error(ToolErrorKind::NotFound, "/x");
    assert_eq!(e.message, "Path does not exist: /x");
    assert_eq!(e.to_string(), "Path does not exist: /x");
    assert_eq!(path_error(ToolErrorKind::NotDirectory, "f").message, "Path is not a directory: f");
    assert_eq!(path_error(ToolErrorKind::NotFile, "d").message, "Path is not a file: d");
    let odd = path_error(ToolErrorKind::Io, "s");
    assert_eq!(odd.kind, ToolErrorKind::Io);
    assert_eq!(odd.message, "Unsupported path type: s");
    let io: ToolError = io_error("/p", "denied");
    assert_eq!(io.message, "I/O error at /p: denied");
}

#[test]
fn write_result_counts_utf8_bytes() {
    let r = write_file_result("notes/a.txt", "héllo");
    assert_eq!(r.path, "notes/a.txt");
    assert_eq!(r.bytes_written, 6);
    assert_eq!(write_file_result("e.txt", "").bytes_written, 0);
}

#[test]
fn replace_result_reports_new_text_bytes() {
    let plan = plan_replacement("a-a-a", "a", "éé", true, "f.txt").unwrap();
    let r = replace_result("f.txt", &plan);
    assert_eq!(r.path, "f.txt");
    assert_eq!(r.occurrences, 3);
    assert_eq!(r.bytes_written, 14);
}

fn entry(name: &str, is_directory: bool) -> DirectoryEntry {
    DirectoryEntry { name: name.to_string(), path: format!("d/{name}"), is_directory }
}

#[test]
fn directory_entries_sorted_by_name() {
    let sorted = sort_entries(vec![entry("b.txt", false), entry("B", true), entry("a", true), entry("é", false)]);
    let names: Vec<&str> = sorted.iter().map(|e| e.name.as_str()).collect();
    assert_eq!(names, vec!["B", "a", "b.txt", "é"]);
    assert!(sorted[0].is_directory);
    assert_eq!(sorted[2].path, "d/b.txt");
    assert!(sort_entries(vec![]).is_empty());
}

fn strings(v: &[&str]) -> Vec<String> {
    v.iter().map(|s| s.to_string()).collect()
}

#[test]
fn paths_sorted_by_segments() {
    let sorted = remini::paths::sort_paths(strings(&["/r/a-b", "/r/a/b", "/r/a", "/r/B"]));
    assert_eq!(sorted, strings(&["/r/B", "/r/a", "/r/a/b", "/r/a-b"]));
}

#[test]
fn paths_with_same_segments_keep_their_order() {
    assert_eq!(remini::paths::sort_paths(strings(&["r//x", "r/x", "r/a"])), strings(&["r/a", "r//x", "r/x"]));
    assert_eq!(remini::paths::sort_paths(strings(&["r/x", "r//x"])), strings(&["r/x", "r//x"]));
}

#[test]
fn select_paths_takes_first_in_order() {
    let paths = strings(&["d/c.txt", "d/a.txt", "d/sub/b.txt", "d/b.txt"]);
    assert_eq!(remini::paths::select_paths(paths.clone(), 2), strings(&["d/a.txt", "d/b.txt"]));
    assert_eq!(
        remini::paths::select_paths(paths.clone(), 10),
        strings(&["d/a.txt", "d/b.txt", "d/c.txt", "d/sub/b.txt"])
    );
    assert!(remini::paths::select_paths(paths, 0).is_empty());
}

#[test]
fn directory_entries_of_equal_names_keep_their_order() {
    let mut first = entry("x", false);
    first.path = "one".to_string();
    let mut second = entry("x", true);
    second.path = "two".to_string();
    let sorted = sort_entries(vec![first, entry("a", false), second]);
    let paths: Vec<&str> = sorted.iter().map(|e| e.path.as_str()).collect();
    assert_eq!(paths, vec!["d/a", "one", "two"]);
}
