use remini::run::{
    decide_run_mode, normalize_query, startup_notice, RunMode, RunRequest,
    POSITIONAL_QUERY_NOTICE,
};

#[test]
fn normalize_query_none_for_empty() {
    assert_eq!(normalize_query(&[]), None);
}

#[test]
fn normalize_query_joins_by_space() {
    let query = vec!["hello".to_string(), "world".to_string()];
    assert_eq!(normalize_query(&query), Some("hello world".to_string()));
}

#[test]
fn prompt_forces_headless() {
    let request = RunRequest {
        prompt: Some("status".to_string()),
        ..Default::default()
    };
    assert_eq!(decide_run_mode(&request, true), RunMode::Headless);
}

#[test]
fn prompt_interactive_forces_interactive() {
    let request = RunRequest {
        prompt_interactive: Some("status".to_string()),
        ..Default::default()
    };
    assert_eq!(decide_run_mode(&request, false), RunMode::Interactive);
}

#[test]
fn positional_query_is_interactive_on_tty() {
    let request = RunRequest {
        query: Some("hello".to_string()),
        ..Default::default()
    };
    assert_eq!(decide_run_mode(&request, true), RunMode::Interactive);
}

#[test]
fn positional_query_is_headless_on_non_tty() {
    let request = RunRequest {
        query: Some("hello".to_string()),
        ..Default::default()
    };
    assert_eq!(decide_run_mode(&request, false), RunMode::Headless);
}

#[test]
fn startup_notice_exists_for_positional_query_on_tty() {
    let request = RunRequest {
        query: Some("hello".to_string()),
        ..Default::default()
    };
    assert_eq!(
        startup_notice(&request, true),
        Some(POSITIONAL_QUERY_NOTICE)
    );
}

#[test]
fn startup_notice_not_shown_when_prompt_is_used() {
    let request = RunRequest {
        query: Some("hello".to_string()),
        prompt: Some("status".to_string()),
        ..Default::default()
    };
    assert_eq!(startup_notice(&request, true), None);
}

#[test]
fn no_arguments_follow_the_terminal() {
    let request = RunRequest::default();
    assert_eq!(decide_run_mode(&request, true), RunMode::Interactive);
    assert_eq!(decide_run_mode(&request, false), RunMode::Headless);
    assert_eq!(startup_notice(&request, true), None);
}

#[test]
fn prompt_wins_over_prompt_interactive() {
    let request = RunRequest {
        prompt: Some("a".to_string()),
        prompt_interactive: Some("b".to_string()),
        ..Default::default()
    };
    assert_eq!(decide_run_mode(&request, true), RunMode::Headless);
}

#[test]
fn notice_implies_interactive_run() {
    let request = RunRequest {
        query: Some("hello".to_string()),
        prompt_interactive: Some("x".to_string()),
        ..Default::default()
    };
    assert!(startup_notice(&request, true).is_some());
    assert_eq!(decide_run_mode(&request, true), RunMode::Interactive);
}

#[test]
fn normalize_query_keeps_words_as_given() {
    let query = vec!["a".to_string(), " b ".to_string(), "".to_string()];
    assert_eq!(normalize_query(&query), Some("a  b  ".to_string()));
}
