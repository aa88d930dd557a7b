use remini::bang_command::{bang_command_reply, bang_command_text, shell_command_text};
use remini::tools::{ShellCommandResult, ToolError, ToolErrorKind};

fn ran(status: Option<i32>, stdout: &str, stderr: &str) -> Result<ShellCommandResult, ToolError> {
    Ok(ShellCommandResult {
        command: String::new(),
        status_code: status,
        stdout: stdout.to_string(),
        stderr: stderr.to_string(),
    })
}

#[test]
fn non_bang_input_returns_none() {
    let result = bang_command_text("hello");
    assert_eq!(result, None);
}

#[test]
fn bang_command_executes() {
    let command = bang_command_text("!printf 'hello bang'").expect("is a bang command");
    assert_eq!(command, "printf 'hello bang'");
    let result = bang_command_reply(ran(Some(0), "hello bang", ""))
        .expect("shell command should succeed")
        .expect("should return output");
    assert_eq!(result, "hello bang");
}

#[test]
fn bang_command_propagates_failure() {
    assert_eq!(bang_command_text("!false"), Some("false".to_string()));
    let result = bang_command_reply(ran(Some(1), "", ""));
    assert!(result.is_err());
}

#[test]
fn bang_failure_messages() {
    assert_eq!(
        bang_command_reply(ran(Some(1), "", "  ")),
        Err("Shell command failed with status: 1".to_string())
    );
    assert_eq!(
        bang_command_reply(ran(Some(-2), "out", "")),
        Err("Shell command failed with status: -2".to_string())
    );
    assert_eq!(
        bang_command_reply(ran(None, "", "")),
        Err("Shell command failed with status: signal".to_string())
    );
    assert_eq!(
        bang_command_reply(ran(Some(127), "", " sh: nope: not found\n")),
        Err("sh: nope: not found".to_string())
    );
    assert_eq!(
        bang_command_reply(Err(ToolError {
            kind: ToolErrorKind::NotFound,
            message: "Path does not exist: .".to_string()
        })),
        Err("Failed to execute shell command: Path does not exist: .".to_string())
    );
}

#[test]
fn bang_text_edge_cases() {
    assert_eq!(bang_command_text("   !  ls -l  "), Some("ls -l".to_string()));
    assert_eq!(bang_command_text("!"), None);
    assert_eq!(bang_command_text("!   "), None);
    assert_eq!(bang_command_text("ls !x"), None);
}

#[test]
fn shell_command_text_refuses_blank() {
    let err = shell_command_text("  \t ").unwrap_err();
    assert_eq!(err.kind, ToolErrorKind::InvalidInput);
    assert_eq!(err.message, "command must not be empty");
    assert_eq!(shell_command_text(" exit 7 ").unwrap(), "exit 7");
}
