use remini::session::{
    latest_of, session_id_from_name, session_record_lines, sessions_from_entries,
    validate_session_id, SessionStore,
};

#[test]
fn rejects_path_like_session_ids() {
    let err = validate_session_id("../escape").expect_err("path-like session id should fail");
    assert!(err.contains("unsupported"));
}

#[test]
fn session_id_rules() {
    assert_eq!(validate_session_id(""), Err("session_id must not be empty".to_string()));
    assert!(validate_session_id("session-1_A").is_ok());
    assert!(validate_session_id("a b").is_err());
    assert!(validate_session_id("..").is_err());
    assert!(validate_session_id("/abs").is_err());
    assert!(validate_session_id("é").is_err());
}

#[test]
fn session_paths() {
    let store = SessionStore::new("/tmp/sessions");
    assert_eq!(store.session_path("session-1"), "/tmp/sessions/session-1.jsonl");
    let store = SessionStore::new("root/");
    assert_eq!(store.session_path("a"), "root/a.jsonl");
}

#[test]
fn list_and_latest_sessions_are_sorted_by_id() {
    let entries = vec![
        ("session-b.jsonl".to_string(), "/r/session-b.jsonl".to_string()),
        ("notes.txt".to_string(), "/r/notes.txt".to_string()),
        ("session-a.jsonl".to_string(), "/r/session-a.jsonl".to_string()),
        (".jsonl".to_string(), "/r/.jsonl".to_string()),
    ];
    let sessions = sessions_from_entries(&entries);
    assert_eq!(sessions.len(), 2);
    assert_eq!(sessions[0].id, "session-a");
    assert_eq!(sessions[0].path, "/r/session-a.jsonl");
    assert_eq!(latest_of(sessions).unwrap().id, "session-b");
    assert!(latest_of(vec![]).is_none());
}

#[test]
fn session_names_from_file_names() {
    assert_eq!(session_id_from_name("x.jsonl"), Some("x".to_string()));
    assert_eq!(session_id_from_name("a.b.jsonl"), Some("a.b".to_string()));
    assert_eq!(session_id_from_name(".jsonl"), None);
    assert_eq!(session_id_from_name("x.json"), None);
}

#[test]
fn session_records_skip_blank_lines() {
    let lines = session_record_lines("{\"a\":1}\r\n  \n\n{\"b\":2}\n");
    assert_eq!(lines, vec!["{\"a\":1}".to_string(), "{\"b\":2}".to_string()]);
}

#[test]
fn appended_records_are_read_back_in_order() {
    let records = [r#"{"role":"user","content":"hi"}"#, r#"{"role":"model","content":"a\nb"}"#];
    let mut file = String::new();
    for r in records {
        file.push_str(r);
        file.push('\n');
    }
    assert_eq!(session_record_lines(&file), records.to_vec());
    file.push_str(r#"{"role":"user","content":"again"}"#);
    file.push('\n');
    let back = session_record_lines(&file);
    assert_eq!(back.len(), 3);
    assert_eq!(back[2], r#"{"role":"user","content":"again"}"#);
}

#[test]
fn sessions_of_equal_names_keep_entry_order() {
    let entries = vec![
        ("b.jsonl".to_string(), "/s/second".to_string()),
        ("a.jsonl".to_string(), "/s/a".to_string()),
        ("b.jsonl".to_string(), "/s/first".to_string()),
    ];
    let listed = sessions_from_entries(&entries);
    let paths: Vec<&str> = listed.iter().map(|s| s.path.as_str()).collect();
    assert_eq!(paths, vec!["/s/a", "/s/second", "/s/first"]);
}
