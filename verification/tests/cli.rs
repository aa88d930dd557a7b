use remini::cli::{
    build_json_error, build_stream_json_error, check_cli_arguments, classify_headless_input,
    debug_enabled, env_debug_truthy, json_escape, normalize_include_directories,
    normalize_resume, render_error, render_headless_output, ErrorReport, HeadlessInput,
    exit_code_for, FailureSource, EXIT_GENERAL_ERROR, EXIT_INPUT_ERROR,
};
use remini::config::ApprovalMode;
use remini::run::OutputFormat;

#[test]
fn json_escape_escapes_newlines_and_quotes() {
    let value = "line1\n\"quoted\"";
    let escaped = json_escape(value);
    assert_eq!(escaped, "line1\\n\\\"quoted\\\"");
}

#[test]
fn build_json_error_contains_code() {
    let payload = build_json_error("bad input", EXIT_INPUT_ERROR);
    assert!(payload.contains("\"code\":42"));
    assert!(payload.contains("bad input"));
}

#[test]
fn build_stream_json_error_contains_error_event() {
    let lines = build_stream_json_error("failure", EXIT_GENERAL_ERROR);
    assert_eq!(lines.len(), 3);
    assert!(lines[1].contains("\"type\":\"error\""));
    assert!(lines[1].contains("\"code\":1"));
}

#[test]
fn yolo_conflict_error_message_is_stable() {
    let msg = "Cannot use both --yolo (-y) and --approval-mode together. Use --approval-mode=yolo instead.";
    let payload = build_json_error(msg, EXIT_INPUT_ERROR);
    assert!(payload.contains("--approval-mode=yolo"));
}

#[test]
fn include_directories_are_trimmed() {
    let dirs = normalize_include_directories(vec![
        " ./one ".to_string(),
        "".to_string(),
        "two".to_string(),
        "   ".to_string(),
    ]);
    assert_eq!(dirs, vec!["./one".to_string(), "two".to_string()]);
}

#[test]
fn normalize_resume_defaults_empty_to_latest() {
    assert_eq!(
        normalize_resume(Some("".to_string())),
        Some("latest".to_string())
    );
    assert_eq!(
        normalize_resume(Some("   ".to_string())),
        Some("latest".to_string())
    );
}

#[test]
fn normalize_resume_keeps_explicit_value() {
    assert_eq!(
        normalize_resume(Some("5".to_string())),
        Some("5".to_string())
    );
}

#[test]
fn env_debug_truthy_handles_known_values() {
    assert!(env_debug_truthy(Some("true")));
    assert!(env_debug_truthy(Some("1")));
    assert!(!env_debug_truthy(Some("false")));
    assert!(!env_debug_truthy(Some("0")));
    assert!(!env_debug_truthy(None));
}

#[test]
fn is_debug_mode_true_when_cli_flag_is_true() {
    assert!(debug_enabled(true, None, None));
    assert!(debug_enabled(false, None, Some("1")));
    assert!(!debug_enabled(false, Some("yes"), None));
}

#[test]
fn json_error_documents_are_exact() {
    assert_eq!(
        build_json_error("a\tb\\", 42),
        "{\"response\":\"\",\"stats\":{\"mode\":\"stub\",\"toolsUsed\":0},\"error\":{\"message\":\"a\\tb\\\\\",\"code\":42}}"
    );
    assert_eq!(
        build_stream_json_error("x\r", 1),
        vec![
            "{\"type\":\"init\",\"sessionId\":\"local-dev\",\"model\":\"auto\"}".to_string(),
            "{\"type\":\"error\",\"message\":\"x\\r\",\"code\":1}".to_string(),
            "{\"type\":\"result\",\"error\":\"x\\r\"}".to_string(),
        ]
    );
    assert_eq!(build_json_error("", 0).matches("\"code\":0").count(), 1);
    assert!(build_json_error("", 255).contains("\"code\":255}"));
}

#[test]
fn headless_output_renderings() {
    assert_eq!(render_headless_output("hi", None, None), vec!["hi".to_string()]);
    assert_eq!(
        render_headless_output("a\"b", Some(OutputFormat::Json), Some("m1")),
        vec!["{\"response\":\"a\\\"b\",\"stats\":{\"mode\":\"stub\",\"toolsUsed\":0,\"model\":\"m1\"}}".to_string()]
    );
    assert_eq!(
        render_headless_output("o", Some(OutputFormat::StreamJson), None),
        vec![
            "{\"type\":\"init\",\"sessionId\":\"local-dev\",\"model\":\"auto\"}".to_string(),
            "{\"type\":\"message\",\"role\":\"assistant\",\"content\":\"o\"}".to_string(),
            "{\"type\":\"result\",\"response\":\"o\"}".to_string(),
        ]
    );
}

#[test]
fn error_reports_by_format() {
    match render_error("bad", None, 42) {
        ErrorReport::Stderr(m) => assert_eq!(m, "bad"),
        other => panic!("unexpected {:?}", other),
    }
    match render_error("bad", Some(OutputFormat::Json), 42) {
        ErrorReport::Stdout(lines) => assert_eq!(lines, vec![build_json_error("bad", 42)]),
        other => panic!("unexpected {:?}", other),
    }
    match render_error("bad", Some(OutputFormat::StreamJson), 1) {
        ErrorReport::Stdout(lines) => assert_eq!(lines, build_stream_json_error("bad", 1)),
        other => panic!("unexpected {:?}", other),
    }
}

#[test]
fn cli_argument_conflicts() {
    assert_eq!(
        check_cli_arguments(true, true, false, false, None),
        Err("Cannot use both a positional prompt and the --prompt (-p) flag together".to_string())
    );
    assert_eq!(
        check_cli_arguments(true, false, true, false, None),
        Err("Cannot use both --prompt (-p) and --prompt-interactive (-i) together".to_string())
    );
    assert_eq!(
        check_cli_arguments(false, false, false, true, Some("plan")),
        Err("Cannot use both --yolo (-y) and --approval-mode together. Use --approval-mode=yolo instead.".to_string())
    );
    assert_eq!(
        check_cli_arguments(false, false, false, false, Some("fast")),
        Err("Invalid approval mode: fast. Valid values are: default, auto_edit, plan, yolo".to_string())
    );
    assert_eq!(check_cli_arguments(false, true, true, true, None), Ok(Some(ApprovalMode::Yolo)));
    assert_eq!(check_cli_arguments(true, false, false, false, Some("plan")), Ok(Some(ApprovalMode::Plan)));
    assert_eq!(check_cli_arguments(false, false, false, false, None), Ok(None));
}

#[test]
fn headless_inputs_are_routed_in_order() {
    match classify_headless_input("/clear", ".", &vec![]) {
        HeadlessInput::Slash(r) => assert_eq!(r, Ok(Some("Screen cleared (stub).".to_string()))),
        other => panic!("unexpected {:?}", other),
    }
    match classify_headless_input("!ls", ".", &vec![]) {
        HeadlessInput::Bang(c) => assert_eq!(c, "ls"),
        other => panic!("unexpected {:?}", other),
    }
    match classify_headless_input("@a.txt x", ".", &vec![]) {
        HeadlessInput::At(p) => assert_eq!(p.candidates, vec!["./a.txt".to_string()]),
        other => panic!("unexpected {:?}", other),
    }
    assert!(matches!(classify_headless_input("hello", ".", &vec![]), HeadlessInput::Plain));
    assert!(matches!(classify_headless_input("!", ".", &vec![]), HeadlessInput::Plain));
}

#[test]
fn exit_codes_by_failure_source() {
    assert_eq!(exit_code_for(FailureSource::Arguments), 42);
    assert_eq!(exit_code_for(FailureSource::SlashCommand), 42);
    assert_eq!(exit_code_for(FailureSource::AtCommand), 42);
    assert_eq!(exit_code_for(FailureSource::BangCommand), 1);
    assert_eq!(EXIT_GENERAL_ERROR, 1);
    assert_eq!(EXIT_INPUT_ERROR, 42);
}
