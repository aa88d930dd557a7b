//! `!command` lines: which command to run, and what its outcome means.

use vstd::prelude::*;
use vstd::string::*;
use crate::slash_command::{reply_view, Reply};
use crate::text::{cat2, chars_of, push_chars, signed_decimal, signed_decimal_chars, string_of, sub_chars, trim, trim_chars};
use crate::tools::{ShellCommandResult, ToolError, ToolErrorKind};

verus! {

/// The shell command of a `!` line: after trimming the line must start
/// with `!`; the command is the trimmed rest and must not be empty.
pub open spec fn bang_request(input: Seq<char>) -> Option<Seq<char>> {
    let t = trim(input);
    if t.len() == 0 || t[0] != '!' {
        None
    } else {
        let c = trim(t.skip(1));
        if c.len() == 0 {
            None
        } else {
            Some(c)
        }
    }
}

/// The shell command of a `!` line, or `None` when the line is not one.
pub fn bang_command_text(input: &str) -> (r: Option<String>)
    ensures
        match r {
            Some(c) => bang_request(input@) == Some(c@),
            None => bang_request(input@).is_none(),
        },
{
    let chars = chars_of(input);
    let t = trim_chars(chars.as_slice());
    if t.len() == 0 || t[0] != '!' {
        return None;
    }
    let rest = sub_chars(t.as_slice(), 1, t.len());
    assert(rest@ =~= t@.skip(1));
    let c = trim_chars(rest.as_slice());
    if c.len() == 0 {
        None
    } else {
        Some(string_of(c.as_slice()))
    }
}

/// The reply to a shell command that ran with `status` (`None` when ended
/// by a signal), printing `stdout` and `stderr`: its output when the status
/// is 0; otherwise its trimmed error output, or the status when that is
/// empty.
pub open spec fn shell_reply(status: Option<i32>, stdout: Seq<char>, stderr: Seq<char>) -> Reply {
    if status != Some(0i32) {
        let e = trim(stderr);
        if e.len() == 0 {
            Err(
                "Shell command failed with status: "@ + match status {
                    Some(code) => signed_decimal(code as int),
                    None => "signal"@,
                },
            )
        } else {
            Err(e)
        }
    } else {
        Ok(Some(stdout))
    }
}

/// The reply when the command could not be started.
pub open spec fn launch_failure_reply(message: Seq<char>) -> Reply {
    Err("Failed to execute shell command: "@ + message)
}

/// The reply to a `!` line from the outcome of running its command.
pub fn bang_command_reply(outcome: Result<ShellCommandResult, ToolError>) -> (r: Result<
    Option<String>,
    String,
>)
    ensures
        reply_view(r) == match outcome {
            Ok(out) => shell_reply(out.status_code, out.stdout@, out.stderr@),
            Err(e) => launch_failure_reply(e.message@),
        },
{
    match outcome {
        Err(e) => {
            let m = chars_of(e.message.as_str());
            Err(cat2("Failed to execute shell command: ", m.as_slice()))
        },
        Ok(out) => {
            if out.status_code != Some(0i32) {
                let err = chars_of(out.stderr.as_str());
                let e = trim_chars(err.as_slice());
                if e.len() == 0 {
                    let mut m = String::from_str("Shell command failed with status: ");
                    match out.status_code {
                        Some(code) => {
                            let d = signed_decimal_chars(code);
                            push_chars(&mut m, d.as_slice());
                        },
                        None => {
                            m.append("signal");
                        },
                    }
                    Err(m)
                } else {
                    Err(string_of(e.as_slice()))
                }
            } else {
                Ok(Some(out.stdout))
            }
        },
    }
}

/// The trimmed shell command to run; an empty one is refused.
pub fn shell_command_text(command: &str) -> (r: Result<String, ToolError>)
    ensures
        match r {
            Ok(c) => trim(command@).len() > 0 && c@ == trim(command@),
            Err(e) => trim(command@).len() == 0 && e.view_pair() == (
                ToolErrorKind::InvalidInput,
                "command must not be empty"@,
            ),
        },
{
    let chars = chars_of(command);
    let c = trim_chars(chars.as_slice());
    if c.len() == 0 {
        Err(
            ToolError {
                kind: ToolErrorKind::InvalidInput,
                message: String::from_str("command must not be empty"),
            },
        )
    } else {
        Ok(string_of(c.as_slice()))
    }
}

/// A command that exits with status 0 replies with its standard output,
/// whatever it printed on standard error.
pub proof fn law_zero_status_replies_stdout(stdout: Seq<char>, stderr: Seq<char>)
    ensures
        shell_reply(Some(0i32), stdout, stderr) == Ok::<Option<Seq<char>>, Seq<char>>(Some(stdout)),
{
}

/// A command that exits with another status, or by a signal, fails: with
/// its trimmed error output when that is not empty.
pub proof fn law_other_status_is_failure(status: Option<i32>, stdout: Seq<char>, stderr: Seq<char>)
    requires
        status != Some(0i32),
    ensures
        shell_reply(status, stdout, stderr) is Err,
        trim(stderr).len() > 0 ==> shell_reply(status, stdout, stderr) == Err::<
            Option<Seq<char>>,
            Seq<char>,
        >(trim(stderr)),
{
}

} // verus!
