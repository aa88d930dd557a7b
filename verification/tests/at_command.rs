use remini::at_command::{plan_at_command, AtStep, AT_COMMAND_MAX_FILES};
use remini::tool_registry::ToolRequest;
use remini::tools::FileContent;

#[test]
fn returns_none_for_non_at_input() {
    let result = plan_at_command("hello world", ".", &vec![]);
    assert!(result.is_none());
}

fn file(path: &str, content: &str) -> FileContent {
    FileContent {
        path: path.to_string(),
        content: content.to_string(),
    }
}

#[test]
fn at_command_parts_and_candidates() {
    let plan = plan_at_command("  @note.txt   summarize this ", "/tmp/w", &vec!["extra".to_string(), "/abs".to_string()])
        .expect("is an @ command");
    assert_eq!(plan.raw_path, "note.txt");
    assert_eq!(plan.tail, "summarize this");
    assert_eq!(
        plan.candidates,
        vec![
            "/tmp/w/note.txt".to_string(),
            "/tmp/w/extra/note.txt".to_string(),
            "/abs/note.txt".to_string()
        ]
    );
}

#[test]
fn at_command_absolute_path_is_the_only_candidate() {
    let plan = plan_at_command("@/etc/hosts", ".", &vec!["x".to_string()]).unwrap();
    assert_eq!(plan.candidates, vec!["/etc/hosts".to_string()]);
    assert_eq!(plan.tail, "");
}

#[test]
fn at_command_candidates_are_deduplicated_as_paths() {
    let plan = plan_at_command("@a", "/w", &vec!["".to_string(), "/w/./".to_string(), "sub".to_string()]).unwrap();
    assert_eq!(
        plan.candidates,
        vec!["/w/a".to_string(), "/w/sub/a".to_string()]
    );
}

#[test]
fn at_command_without_path_is_not_a_command() {
    assert!(plan_at_command("@", ".", &vec![]).is_none());
    assert!(plan_at_command("@   tail", ".", &vec![]).is_none());
    assert!(plan_at_command("   ", ".", &vec![]).is_none());
}

#[test]
fn at_command_expands_first_candidate_with_files() {
    let plan = plan_at_command("@note.txt summarize", ".", &vec!["extra".to_string()]).unwrap();
    match plan.after_read(0, Some(vec![])) {
        AtStep::Read(1) => {}
        other => panic!("unexpected {:?}", other),
    }
    match plan.after_read(1, Some(vec![file("./extra/note.txt", "from include")])) {
        AtStep::Expanded(text) => {
            assert_eq!(text, "## ./extra/note.txt\nfrom include\n\nsummarize");
        }
        other => panic!("unexpected {:?}", other),
    }
}

#[test]
fn at_command_expansion_joins_files() {
    let plan = plan_at_command("@.", ".", &vec![]).unwrap();
    match plan.after_read(0, Some(vec![file("./a.txt", "a"), file("./b.txt", "b")])) {
        AtStep::Expanded(text) => assert_eq!(text, "## ./a.txt\na\n\n## ./b.txt\nb"),
        other => panic!("unexpected {:?}", other),
    }
}

#[test]
fn at_command_fails_after_last_candidate() {
    let plan = plan_at_command("@missing.txt", "/w", &vec!["d".to_string()]).unwrap();
    match plan.after_read(0, None) {
        AtStep::Read(1) => {}
        other => panic!("unexpected {:?}", other),
    }
    match plan.after_read(1, Some(vec![])) {
        AtStep::Failed(msg) => assert_eq!(
            msg,
            "Failed to resolve @ command path: missing.txt. Searched: /w/missing.txt, /w/d/missing.txt"
        ),
        other => panic!("unexpected {:?}", other),
    }
}

#[test]
fn at_command_starts_at_the_first_candidate() {
    let plan = plan_at_command("@note.txt", "/w", &vec!["d".to_string()]).unwrap();
    match plan.first_step() {
        AtStep::Read(0) => {}
        other => panic!("unexpected {:?}", other),
    }
}

#[test]
fn at_command_read_request_names_candidate_and_limit() {
    assert_eq!(AT_COMMAND_MAX_FILES, 64);
    let plan = plan_at_command("@note.txt", "/w", &vec!["d".to_string()]).unwrap();
    match plan.read_request(1) {
        ToolRequest::ReadManyFiles { path, max_files } => {
            assert_eq!(path, "/w/d/note.txt");
            assert_eq!(max_files, 64);
        }
        other => panic!("unexpected {:?}", other),
    }
}

#[test]
fn at_command_protocol_reads_until_first_hit() {
    let plan = plan_at_command("@note.txt tail", "/w", &vec!["d".to_string(), "e".to_string()]).unwrap();
    let mut step = plan.first_step();
    let mut requested = Vec::new();
    let outcome = loop {
        match step {
            AtStep::Read(i) => {
                match plan.read_request(i) {
                    ToolRequest::ReadManyFiles { path, .. } => requested.push(path),
                    other => panic!("unexpected {:?}", other),
                }
                let read = if i == 1 { Some(vec![file("/w/d/note.txt", "x")]) } else { None };
                step = plan.after_read(i, read);
            }
            AtStep::Expanded(text) => break Ok(text),
            AtStep::Failed(m) => break Err(m),
        }
    };
    assert_eq!(requested, vec!["/w/note.txt".to_string(), "/w/d/note.txt".to_string()]);
    assert_eq!(outcome, Ok("## /w/d/note.txt\nx\n\ntail".to_string()));
}
