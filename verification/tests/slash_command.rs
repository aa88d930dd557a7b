use remini::slash_command::execute_slash_command;

#[test]
fn non_slash_input_returns_none() {
    let result = execute_slash_command("hello").expect("should not fail");
    assert_eq!(result, None);
}

#[test]
fn help_command_returns_output() {
    let result = execute_slash_command("/help")
        .expect("help command should succeed")
        .expect("help command should return content");
    assert!(result.contains("Available commands"));
    assert!(result.contains("/commands"));
}

#[test]
fn commands_command_returns_output() {
    let result = execute_slash_command("/commands")
        .expect("commands command should succeed")
        .expect("commands command should return content");
    assert!(result.contains("Available commands"));
    assert!(result.contains("/model"));
    assert!(result.contains("/resume"));
    assert!(result.contains("/directory"));
    assert!(result.contains("/compress"));
    assert!(result.contains("/docs"));
    assert!(result.contains("/editor"));
    assert!(result.contains("/ide"));
    assert!(result.contains("/init"));
    assert!(result.contains("/privacy"));
    assert!(result.contains("/terminal-setup"));
    assert!(result.contains("/theme"));
    assert!(result.contains("/vim"));
}

#[test]
fn about_command_returns_version() {
    let result = execute_slash_command("/about")
        .expect("about command should succeed")
        .expect("about command should return content");
    assert!(result.contains("remini-cli v"));
}

#[test]
fn tools_command_returns_output() {
    let result = execute_slash_command("/tools")
        .expect("tools command should succeed")
        .expect("tools command should return content");
    assert!(result.contains("read_file"));
    assert!(result.contains("grep_search"));
}

#[test]
fn tools_desc_returns_descriptions() {
    let result = execute_slash_command("/tools desc")
        .expect("tools desc should succeed")
        .expect("tools desc should return content");
    assert!(result.contains("read_file - read text content"));
}

#[test]
fn model_command_returns_current_model() {
    let result = execute_slash_command("/model")
        .expect("model command should succeed")
        .expect("model command should return content");
    assert!(result.contains("Current model: auto"));
}

#[test]
fn model_set_command_returns_confirmation() {
    let result = execute_slash_command("/model set gemini-2.5-flash")
        .expect("model set command should succeed")
        .expect("model set command should return content");
    assert!(result.contains("Model set to gemini-2.5-flash"));
}

#[test]
fn quit_command_returns_message() {
    let result = execute_slash_command("/quit")
        .expect("quit command should succeed")
        .expect("quit command should return content");
    assert!(result.contains("Session ended"));
}

#[test]
fn resume_command_defaults_to_latest() {
    let result = execute_slash_command("/resume")
        .expect("resume command should succeed")
        .expect("resume command should return content");
    assert!(result.contains("Resumed session: latest"));
}

#[test]
fn resume_command_accepts_session_id() {
    let result = execute_slash_command("/resume 8")
        .expect("resume command should succeed")
        .expect("resume command should return content");
    assert!(result.contains("Resumed session: 8"));
}

#[test]
fn auth_command_returns_methods() {
    let result = execute_slash_command("/auth")
        .expect("auth command should succeed")
        .expect("auth command should return content");
    assert!(result.contains("Login with Google"));
    assert!(result.contains("GEMINI_API_KEY"));
}

#[test]
fn bug_command_returns_report_hint() {
    let result = execute_slash_command("/bug")
        .expect("bug command should succeed")
        .expect("bug command should return content");
    assert!(result.contains("Bug report"));
}

#[test]
fn clear_command_returns_message() {
    let result = execute_slash_command("/clear")
        .expect("clear command should succeed")
        .expect("clear command should return content");
    assert!(result.contains("Screen cleared"));
}

#[test]
fn directory_command_defaults_to_list() {
    let result = execute_slash_command("/directory")
        .expect("directory command should succeed")
        .expect("directory command should return content");
    assert!(result.contains("Directory context"));
}

#[test]
fn directory_add_requires_path() {
    let result = execute_slash_command("/directory add");
    assert!(result.is_err());
    assert_eq!(
        result.expect_err("should fail"),
        "Usage: /directory add <path>"
    );
}

#[test]
fn directory_add_accepts_path() {
    let result = execute_slash_command("/directory add docs")
        .expect("directory add command should succeed")
        .expect("directory add command should return content");
    assert!(result.contains("Added directory: docs"));
}

#[test]
fn directory_remove_accepts_path() {
    let result = execute_slash_command("/directory remove docs")
        .expect("directory remove command should succeed")
        .expect("directory remove command should return content");
    assert!(result.contains("Removed directory: docs"));
}

#[test]
fn copy_command_defaults_to_last() {
    let result = execute_slash_command("/copy")
        .expect("copy command should succeed")
        .expect("copy command should return content");
    assert!(result.contains("Copied message last"));
}

#[test]
fn copy_command_accepts_message_id() {
    let result = execute_slash_command("/copy 12")
        .expect("copy command should succeed")
        .expect("copy command should return content");
    assert!(result.contains("Copied message 12"));
}

#[test]
fn compress_command_defaults_to_summary() {
    let result = execute_slash_command("/compress")
        .expect("compress command should succeed")
        .expect("compress command should return content");
    assert!(result.contains("Compression complete"));
}

#[test]
fn compress_command_accepts_note() {
    let result = execute_slash_command("/compress keep key decisions")
        .expect("compress command should succeed")
        .expect("compress command should return content");
    assert!(result.contains("keep key decisions"));
}

#[test]
fn docs_command_returns_link_hint() {
    let result = execute_slash_command("/docs")
        .expect("docs command should succeed")
        .expect("docs command should return content");
    assert!(result.contains("Docs (stub)"));
}

#[test]
fn editor_command_defaults_to_status() {
    let result = execute_slash_command("/editor")
        .expect("editor command should succeed")
        .expect("editor command should return content");
    assert!(result.contains("Editor (stub)"));
}

#[test]
fn editor_open_requires_path() {
    let result = execute_slash_command("/editor open");
    assert!(result.is_err());
    assert_eq!(
        result.expect_err("should fail"),
        "Usage: /editor open <path>"
    );
}

#[test]
fn editor_open_accepts_path() {
    let result = execute_slash_command("/editor open src/main.rs")
        .expect("editor open should succeed")
        .expect("editor open should return content");
    assert!(result.contains("src/main.rs"));
}

#[test]
fn ide_command_defaults_to_status() {
    let result = execute_slash_command("/ide")
        .expect("ide command should succeed")
        .expect("ide command should return content");
    assert!(result.contains("IDE companion"));
}

#[test]
fn ide_enable_and_disable_work() {
    let enabled = execute_slash_command("/ide enable")
        .expect("ide enable should succeed")
        .expect("ide enable should return content");
    let disabled = execute_slash_command("/ide disable")
        .expect("ide disable should succeed")
        .expect("ide disable should return content");
    assert!(enabled.contains("enabled"));
    assert!(disabled.contains("disabled"));
}

#[test]
fn theme_command_lists_themes() {
    let result = execute_slash_command("/theme")
        .expect("theme command should succeed")
        .expect("theme command should return content");
    assert!(result.contains("Available themes"));
}

#[test]
fn theme_set_requires_name() {
    let result = execute_slash_command("/theme set");
    assert!(result.is_err());
    assert_eq!(result.expect_err("should fail"), "Usage: /theme set <name>");
}

#[test]
fn theme_set_accepts_name() {
    let result = execute_slash_command("/theme set dark")
        .expect("theme set should succeed")
        .expect("theme set should return content");
    assert!(result.contains("Theme set to dark"));
}

#[test]
fn terminal_setup_defaults_to_check() {
    let result = execute_slash_command("/terminal-setup")
        .expect("terminal-setup should succeed")
        .expect("terminal-setup should return content");
    assert!(result.contains("Terminal setup (stub)"));
}

#[test]
fn terminal_setup_install_is_supported() {
    let result = execute_slash_command("/terminal-setup install")
        .expect("terminal-setup install should succeed")
        .expect("terminal-setup install should return content");
    assert!(result.contains("install requested"));
}

#[test]
fn vim_command_defaults_to_status() {
    let result = execute_slash_command("/vim")
        .expect("vim should succeed")
        .expect("vim should return content");
    assert!(result.contains("Vim mode"));
}

#[test]
fn vim_mode_on_and_off_work() {
    let enabled = execute_slash_command("/vim on")
        .expect("vim on should succeed")
        .expect("vim on should return content");
    let disabled = execute_slash_command("/vim off")
        .expect("vim off should succeed")
        .expect("vim off should return content");
    assert!(enabled.contains("enabled"));
    assert!(disabled.contains("disabled"));
}

#[test]
fn init_command_returns_setup_hint() {
    let result = execute_slash_command("/init")
        .expect("init command should succeed")
        .expect("init command should return content");
    assert!(result.contains("Init (stub)"));
}

#[test]
fn privacy_command_returns_policy_hint() {
    let result = execute_slash_command("/privacy")
        .expect("privacy command should succeed")
        .expect("privacy command should return content");
    assert!(result.contains("Privacy (stub)"));
}

#[test]
fn settings_command_defaults_to_show() {
    let result = execute_slash_command("/settings")
        .expect("settings command should succeed")
        .expect("settings command should return content");
    assert!(result.contains("Settings (stub)"));
}

#[test]
fn settings_set_requires_key_and_value() {
    let result = execute_slash_command("/settings set model");
    assert!(result.is_err());
    assert_eq!(
        result.expect_err("should fail"),
        "Usage: /settings set <key> <value>"
    );
}

#[test]
fn settings_set_accepts_key_and_value() {
    let result = execute_slash_command("/settings set model gemini-2.5-flash")
        .expect("settings set should succeed")
        .expect("settings set should return content");
    assert!(result.contains("Setting updated: model=gemini-2.5-flash"));
}

#[test]
fn stats_command_defaults_to_session_view() {
    let result = execute_slash_command("/stats")
        .expect("stats command should succeed")
        .expect("stats command should return content");
    assert!(result.contains("Session stats"));
}

#[test]
fn stats_tools_view_returns_tool_metrics() {
    let result = execute_slash_command("/stats tools")
        .expect("stats tools command should succeed")
        .expect("stats tools command should return content");
    assert!(result.contains("Tool stats"));
}

#[test]
fn unknown_slash_command_returns_error() {
    let result = execute_slash_command("/unknown");
    assert!(result.is_err());
}

#[test]
fn about_command_reports_exact_version_line() {
    let result = execute_slash_command("  /about  ").unwrap().unwrap();
    assert_eq!(result, "remini-cli v0.1.0 (phase2 bootstrap)");
}

#[test]
fn slash_input_with_leading_whitespace_is_a_command() {
    let result = execute_slash_command("\t /clear extra").unwrap().unwrap();
    assert_eq!(result, "Screen cleared (stub).");
}

#[test]
fn unknown_slash_command_names_the_command() {
    assert_eq!(
        execute_slash_command("/nope a b"),
        Err("Unknown slash command: /nope".to_string())
    );
}

#[test]
fn exit_and_question_mark_aliases() {
    assert_eq!(
        execute_slash_command("/exit"),
        Ok(Some("Session ended (stub).".to_string()))
    );
    assert_eq!(
        execute_slash_command("/?"),
        execute_slash_command("/help")
    );
}

#[test]
fn slash_usage_errors_for_each_command() {
    assert_eq!(
        execute_slash_command("/directory remove"),
        Err("Usage: /directory remove <path>".to_string())
    );
    assert_eq!(
        execute_slash_command("/directory bogus"),
        Err("Unsupported /directory option: bogus. Use list, add <path>, or remove <path>.".to_string())
    );
    assert_eq!(
        execute_slash_command("/editor close"),
        Err("Unsupported /editor option: close. Use status or open <path>.".to_string())
    );
    assert_eq!(
        execute_slash_command("/ide on"),
        Err("Unsupported /ide option: on. Use status, enable, or disable.".to_string())
    );
    assert_eq!(
        execute_slash_command("/theme get"),
        Err("Unsupported /theme option: get. Use list or set <name>.".to_string())
    );
    assert_eq!(
        execute_slash_command("/terminal-setup x"),
        Err("Unsupported /terminal-setup option: x. Use check or install.".to_string())
    );
    assert_eq!(
        execute_slash_command("/vim maybe"),
        Err("Unsupported /vim option: maybe. Use status, on, or off.".to_string())
    );
    assert_eq!(
        execute_slash_command("/settings get"),
        Err("Unsupported /settings option: get. Use show or set <key> <value>.".to_string())
    );
    assert_eq!(
        execute_slash_command("/model set"),
        Err("Usage: /model set <model-name>".to_string())
    );
    assert_eq!(
        execute_slash_command("/model pick x"),
        Err("Unsupported /model option: pick. Use /model or /model set <name>.".to_string())
    );
    assert_eq!(
        execute_slash_command("/tools all"),
        Err("Unsupported /tools option: all. Use desc or nodesc.".to_string())
    );
    assert_eq!(
        execute_slash_command("/stats all"),
        Err("Unsupported /stats option: all. Use session, model, or tools.".to_string())
    );
}

#[test]
fn slash_replies_with_arguments_are_exact() {
    assert_eq!(
        execute_slash_command("/directory add docs"),
        Ok(Some("Added directory: docs (session-only stub). Use --include-directories on startup for persistent include paths.".to_string()))
    );
    assert_eq!(
        execute_slash_command("/compress  keep   key decisions "),
        Ok(Some("Compression complete (stub): summarized current conversation with note: keep key decisions".to_string()))
    );
    assert_eq!(
        execute_slash_command("/settings set a b"),
        Ok(Some("Setting updated: a=b (session-only stub).".to_string()))
    );
    assert_eq!(
        execute_slash_command("/tools nodescriptions"),
        Ok(Some("Available tools:\nlist_directory\nread_file\nglob\ngrep_search".to_string()))
    );
    assert_eq!(
        execute_slash_command("/stats model"),
        Ok(Some("Model stats (stub): model=auto, inputTokens=0, outputTokens=0".to_string()))
    );
}

#[test]
fn blank_input_is_not_a_slash_command() {
    assert_eq!(execute_slash_command("   "), Ok(None));
    assert_eq!(execute_slash_command(""), Ok(None));
    assert_eq!(execute_slash_command("say /help"), Ok(None));
}
