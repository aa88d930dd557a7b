//! The command line front end: argument checks, input routing, and the
//! text, JSON and stream-JSON renderings of replies and errors.

use vstd::prelude::*;
use vstd::string::*;
use crate::at_command::{at_request, candidate_paths, plan_at_command, unique_paths, AtCommandPlan};
use crate::bang_command::{bang_command_text, bang_request};
use crate::config::ApprovalMode;
use crate::run::OutputFormat;
use crate::slash_command::{execute_slash_command, reply_view, slash_reply};
use crate::text::{
    chars_of, decimal, decimal_chars, eq_lit, push_char, push_chars, string_of, string_views, trim,
    trim_chars,
};

verus! {

/// Exit status of a successful run.
pub const EXIT_SUCCESS: u8 = 0;

/// Exit status of a failed command.
pub const EXIT_GENERAL_ERROR: u8 = 1;

/// Exit status of invalid input.
pub const EXIT_INPUT_ERROR: u8 = 42;

/// The step of a run that refused it.
#[derive(Debug, Clone, Copy)]
pub enum FailureSource {
    /// The command-line arguments.
    Arguments,
    /// A slash command.
    SlashCommand,
    /// A `!` shell command that could not run.
    BangCommand,
    /// An `@` command whose path held no file.
    AtCommand,
}

/// The exit status of a run refused at `source`: a shell command that
/// could not run is a general error, every other refusal an input error.
pub fn exit_code_for(source: FailureSource) -> (code: u8)
    ensures
        code == match source {
            FailureSource::BangCommand => EXIT_GENERAL_ERROR,
            _ => EXIT_INPUT_ERROR,
        },
{
    match source {
        FailureSource::BangCommand => EXIT_GENERAL_ERROR,
        _ => EXIT_INPUT_ERROR,
    }
}

/// How one character is written inside a JSON string.
pub open spec fn escape_char(c: char) -> Seq<char> {
    if c == '"' {
        seq!['\\', '"']
    } else if c == '\\' {
        seq!['\\', '\\']
    } else if c == '\n' {
        seq!['\\', 'n']
    } else if c == '\r' {
        seq!['\\', 'r']
    } else if c == '\t' {
        seq!['\\', 't']
    } else {
        seq![c]
    }
}

/// `s` escaped for a JSON string, character by character.
pub open spec fn json_escaped(s: Seq<char>) -> Seq<char>
    decreases s.len(),
{
    if s.len() == 0 {
        seq![]
    } else {
        json_escaped(s.drop_last()) + escape_char(s.last())
    }
}

/// Escaped text holds no line break, carriage return or tab, so each JSON
/// document or event fits on one output line.
pub proof fn law_json_escaped_is_one_line(s: Seq<char>)
    ensures
        !json_escaped(s).contains('\n'),
        !json_escaped(s).contains('\r'),
        !json_escaped(s).contains('\t'),
    decreases s.len(),
{
    if s.len() > 0 {
        law_json_escaped_is_one_line(s.drop_last());
        let p = json_escaped(s.drop_last());
        let e = escape_char(s.last());
        assert(json_escaped(s) == p + e);
        assert forall|c: char| c == '\n' || c == '\r' || c == '\t' implies !(p + e).contains(c) by {
            if (p + e).contains(c) {
                let i = choose|i: int| 0 <= i < (p + e).len() && (p + e)[i] == c;
                if i < p.len() {
                    assert(p[i] == c);
                    assert(p.contains(c));
                } else {
                    assert(e[i - p.len()] == c);
                }
            }
        }
    }
}

fn push_escaped(out: &mut String, v: &[char])
    ensures
        final(out)@ == old(out)@ + json_escaped(v@),
{
    let mut i: usize = 0;
    assert(v@.take(0) =~= Seq::<char>::empty());
    assert(old(out)@ + json_escaped(Seq::<char>::empty()) =~= old(out)@);
    while i < v.len()
        invariant
            i <= v@.len(),
            out@ == old(out)@ + json_escaped(v@.take(i as int)),
        decreases v@.len() - i,
    {
        let ghost ti = v@.take(i + 1);
        assert(ti.drop_last() =~= v@.take(i as int));
        assert(ti.last() == v@[i as int]);
        let ghost before = out@;
        let c = v[i];
        if c == '"' {
            push_char(out, '\\');
            push_char(out, '"');
        } else if c == '\\' {
            push_char(out, '\\');
            push_char(out, '\\');
        } else if c == '\n' {
            push_char(out, '\\');
            push_char(out, 'n');
        } else if c == '\r' {
            push_char(out, '\\');
            push_char(out, 'r');
        } else if c == '\t' {
            push_char(out, '\\');
            push_char(out, 't');
        } else {
            push_char(out, c);
        }
        assert(out@ =~= before + escape_char(c));
        i += 1;
    }
    assert(v@.take(v@.len() as int) =~= v@);
}

/// Escapes text for a JSON string.
pub fn json_escape(value: &str) -> (s: String)
    ensures
        s@ == json_escaped(value@),
{
    let v = chars_of(value);
    let mut s = String::new();
    push_escaped(&mut s, v.as_slice());
    s
}

/// The JSON error document for `message` and exit `code`.
pub open spec fn json_error(message: Seq<char>, code: u8) -> Seq<char> {
    "{\"response\":\"\",\"stats\":{\"mode\":\"stub\",\"toolsUsed\":0},\"error\":{\"message\":\""@
        + json_escaped(message) + "\",\"code\":"@ + decimal(code as nat) + "}}"@
}

/// Builds the JSON error document (see [`json_error`]).
pub fn build_json_error(message: &str, code: u8) -> (s: String)
    ensures
        s@ == json_error(message@, code),
{
    let mut s = String::from_str(
        "{\"response\":\"\",\"stats\":{\"mode\":\"stub\",\"toolsUsed\":0},\"error\":{\"message\":\"",
    );
    let m = chars_of(message);
    push_escaped(&mut s, m.as_slice());
    s.append("\",\"code\":");
    let d = decimal_chars(code as u64);
    push_chars(&mut s, d.as_slice());
    s.append("}}");
    s
}

/// The stream-JSON error events for `message` and exit `code`.
pub open spec fn stream_json_error(message: Seq<char>, code: u8) -> Seq<Seq<char>> {
    seq![
        "{\"type\":\"init\",\"sessionId\":\"local-dev\",\"model\":\"auto\"}"@,
        "{\"type\":\"error\",\"message\":\""@ + json_escaped(message) + "\",\"code\":"@ + decimal(
            code as nat,
        ) + "}"@,
        "{\"type\":\"result\",\"error\":\""@ + json_escaped(message) + "\"}"@,
    ]
}

/// Builds the stream-JSON error events (see [`stream_json_error`]).
pub fn build_stream_json_error(message: &str, code: u8) -> (r: Vec<String>)
    ensures
        string_views(r@) == stream_json_error(message@, code),
{
    let m = chars_of(message);
    let mut r: Vec<String> = Vec::new();
    r.push(String::from_str("{\"type\":\"init\",\"sessionId\":\"local-dev\",\"model\":\"auto\"}"));
    let mut e = String::from_str("{\"type\":\"error\",\"message\":\"");
    push_escaped(&mut e, m.as_slice());
    e.append("\",\"code\":");
    let d = decimal_chars(code as u64);
    push_chars(&mut e, d.as_slice());
    e.append("}");
    r.push(e);
    let mut f = String::from_str("{\"type\":\"result\",\"error\":\"");
    push_escaped(&mut f, m.as_slice());
    f.append("\"}");
    r.push(f);
    assert(string_views(r@) =~= stream_json_error(message@, code));
    r
}

/// The lines printed for a headless reply `output`, produced for `model`
/// (`auto` when none is given), in the requested format (text by default).
pub open spec fn headless_lines(output: Seq<char>, format: Option<OutputFormat>, model: Option<
    Seq<char>,
>) -> Seq<Seq<char>> {
    let m = match model {
        Some(x) => x,
        None => "auto"@,
    };
    match format {
        Some(OutputFormat::Json) => seq![
            "{\"response\":\""@ + json_escaped(output)
                + "\",\"stats\":{\"mode\":\"stub\",\"toolsUsed\":0,\"model\":\""@ + json_escaped(m)
                + "\"}}"@,
        ],
        Some(OutputFormat::StreamJson) => seq![
            "{\"type\":\"init\",\"sessionId\":\"local-dev\",\"model\":\""@ + json_escaped(m)
                + "\"}"@,
            "{\"type\":\"message\",\"role\":\"assistant\",\"content\":\""@ + json_escaped(output)
                + "\"}"@,
            "{\"type\":\"result\",\"response\":\""@ + json_escaped(output) + "\"}"@,
        ],
        _ => seq![output],
    }
}

/// Renders a headless reply as the lines to print (see [`headless_lines`]).
pub fn render_headless_output(output: &str, format: Option<OutputFormat>, model: Option<&str>) -> (r: Vec<String>)
    ensures
        string_views(r@) == headless_lines(
            output@,
            format,
            match model {
                Some(m) => Some(m@),
                None => None,
            },
        ),
{
    let o = chars_of(output);
    let m = match model {
        Some(x) => chars_of(x),
        None => chars_of("auto"),
    };
    let mut r: Vec<String> = Vec::new();
    match format {
        Some(OutputFormat::Json) => {
            let mut s = String::from_str("{\"response\":\"");
            push_escaped(&mut s, o.as_slice());
            s.append("\",\"stats\":{\"mode\":\"stub\",\"toolsUsed\":0,\"model\":\"");
            push_escaped(&mut s, m.as_slice());
            s.append("\"}}");
            r.push(s);
        },
        Some(OutputFormat::StreamJson) => {
            let mut a = String::from_str("{\"type\":\"init\",\"sessionId\":\"local-dev\",\"model\":\"");
            push_escaped(&mut a, m.as_slice());
            a.append("\"}");
            r.push(a);
            let mut b = String::from_str("{\"type\":\"message\",\"role\":\"assistant\",\"content\":\"");
            push_escaped(&mut b, o.as_slice());
            b.append("\"}");
            r.push(b);
            let mut c = String::from_str("{\"type\":\"result\",\"response\":\"");
            push_escaped(&mut c, o.as_slice());
            c.append("\"}");
            r.push(c);
        },
        _ => {
            r.push(String::from_str(output));
        },
    }
    assert(string_views(r@) =~= headless_lines(
        output@,
        format,
        match model {
            Some(m) => Some(m@),
            None => None,
        },
    ));
    r
}

/// Where an error is reported: the message on standard error, or lines
/// on standard output.
#[derive(Debug)]
pub enum ErrorReport {
    Stderr(String),
    Stdout(Vec<String>),
}

/// Renders an error in the requested format (text by default): text goes
/// to standard error; JSON and stream JSON to standard output.
pub fn render_error(message: &str, format: Option<OutputFormat>, code: u8) -> (r: ErrorReport)
    ensures
        match (r, format) {
            (ErrorReport::Stdout(lines), Some(OutputFormat::Json)) => string_views(lines@) == seq![
                json_error(message@, code),
            ],
            (ErrorReport::Stdout(lines), Some(OutputFormat::StreamJson)) => string_views(lines@)
                == stream_json_error(message@, code),
            (ErrorReport::Stderr(m), Some(OutputFormat::Text)) => m@ == message@,
            (ErrorReport::Stderr(m), None) => m@ == message@,
            _ => false,
        },
{
    match format {
        Some(OutputFormat::Json) => {
            let mut lines: Vec<String> = Vec::new();
            lines.push(build_json_error(message, code));
            assert(string_views(lines@) =~= seq![json_error(message@, code)]);
            ErrorReport::Stdout(lines)
        },
        Some(OutputFormat::StreamJson) => ErrorReport::Stdout(build_stream_json_error(message, code)),
        _ => ErrorReport::Stderr(String::from_str(message)),
    }
}

/// The include directories as given, each trimmed, blank ones dropped.
pub open spec fn normalized_dirs(raw: Seq<Seq<char>>) -> Seq<Seq<char>>
    decreases raw.len(),
{
    if raw.len() == 0 {
        seq![]
    } else {
        let prev = normalized_dirs(raw.drop_last());
        let t = trim(raw.last());
        if t.len() == 0 {
            prev
        } else {
            prev.push(t)
        }
    }
}

/// Trims the include directories and drops blank ones.
pub fn normalize_include_directories(raw: Vec<String>) -> (r: Vec<String>)
    ensures
        string_views(r@) == normalized_dirs(string_views(raw@)),
{
    let ghost rv = string_views(raw@);
    let mut out: Vec<String> = Vec::new();
    let mut i: usize = 0;
    assert(rv.take(0) =~= Seq::<Seq<char>>::empty());
    while i < raw.len()
        invariant
            i <= raw@.len(),
            rv == string_views(raw@),
            string_views(out@) == normalized_dirs(rv.take(i as int)),
        decreases raw@.len() - i,
    {
        let ghost ti = rv.take(i + 1);
        assert(ti.drop_last() =~= rv.take(i as int));
        assert(ti.last() == raw@[i as int]@);
        let c = chars_of(raw[i].as_str());
        let t = trim_chars(c.as_slice());
        let ghost before = string_views(out@);
        if t.len() > 0 {
            out.push(string_of(t.as_slice()));
            assert(string_views(out@) =~= before.push(t@));
        }
        i += 1;
    }
    assert(rv.take(raw@.len() as int) =~= rv);
    out
}

/// The session to resume: the trimmed value, `latest` when blank.
pub fn normalize_resume(raw: Option<String>) -> (r: Option<String>)
    ensures
        match (r, raw) {
            (None, None) => true,
            (Some(v), Some(x)) => v@ == if trim(x@).len() == 0 {
                "latest"@
            } else {
                trim(x@)
            },
            _ => false,
        },
{
    match raw {
        None => None,
        Some(x) => {
            let c = chars_of(x.as_str());
            let t = trim_chars(c.as_slice());
            if t.len() == 0 {
                Some(String::from_str("latest"))
            } else {
                Some(string_of(t.as_slice()))
            }
        },
    }
}

/// Whether a debug environment value turns debugging on: `true` or `1`.
pub fn env_debug_truthy(raw: Option<&str>) -> (b: bool)
    ensures
        b == match raw {
            Some(v) => v@ == "true"@ || v@ == "1"@,
            None => false,
        },
{
    match raw {
        Some(v) => {
            let c = chars_of(v);
            eq_lit(c.as_slice(), "true") || eq_lit(c.as_slice(), "1")
        },
        None => false,
    }
}

/// Whether debugging is on: by the flag, or by `DEBUG` or `DEBUG_MODE`.
pub fn debug_enabled(flag: bool, debug_env: Option<&str>, debug_mode_env: Option<&str>) -> (b: bool)
    ensures
        b == (flag || match debug_env {
            Some(v) => v@ == "true"@ || v@ == "1"@,
            None => false,
        } || match debug_mode_env {
            Some(v) => v@ == "true"@ || v@ == "1"@,
            None => false,
        }),
{
    if flag {
        return true;
    }
    env_debug_truthy(debug_env) || env_debug_truthy(debug_mode_env)
}

/// The error for an approval mode that is not one of the names.
pub open spec fn invalid_approval_mode_message(raw: Seq<char>) -> Seq<char> {
    "Invalid approval mode: "@ + raw + ". Valid values are: default, auto_edit, plan, yolo"@
}

/// The approval mode asked for on the command line, or why the arguments
/// conflict: a prompt flag with a positional query, `--prompt` with
/// `--prompt-interactive`, `--yolo` with `--approval-mode`, or an unknown
/// approval mode.
pub open spec fn cli_approval(
    has_prompt: bool,
    has_query: bool,
    has_prompt_interactive: bool,
    yolo: bool,
    approval_mode: Option<Seq<char>>,
) -> Result<Option<ApprovalMode>, Seq<char>> {
    if has_prompt && has_query {
        Err("Cannot use both a positional prompt and the --prompt (-p) flag together"@)
    } else if has_prompt && has_prompt_interactive {
        Err("Cannot use both --prompt (-p) and --prompt-interactive (-i) together"@)
    } else if yolo && approval_mode.is_some() {
        Err(
            "Cannot use both --yolo (-y) and --approval-mode together. Use --approval-mode=yolo instead."@,
        )
    } else if yolo {
        Ok(Some(ApprovalMode::Yolo))
    } else {
        match approval_mode {
            Some(raw) => match ApprovalMode::named(raw) {
                Some(m) => Ok(Some(m)),
                None => Err(invalid_approval_mode_message(raw)),
            },
            None => Ok(None),
        }
    }
}

/// Checks the command-line flags and resolves the approval mode (see
/// [`cli_approval`]); every error exits with [`EXIT_INPUT_ERROR`].
pub fn check_cli_arguments(
    has_prompt: bool,
    has_query: bool,
    has_prompt_interactive: bool,
    yolo: bool,
    approval_mode: Option<&str>,
) -> (r: Result<Option<ApprovalMode>, String>)
    ensures
        match (
            r,
            cli_approval(
                has_prompt,
                has_query,
                has_prompt_interactive,
                yolo,
                match approval_mode {
                    Some(a) => Some(a@),
                    None => None,
                },
            ),
        ) {
            (Ok(a), Ok(b)) => a == b,
            (Err(e), Err(m)) => e@ == m,
            _ => false,
        },
{
    if has_prompt && has_query {
        return Err(
            String::from_str("Cannot use both a positional prompt and the --prompt (-p) flag together"),
        );
    }
    if has_prompt && has_prompt_interactive {
        return Err(
            String::from_str("Cannot use both --prompt (-p) and --prompt-interactive (-i) together"),
        );
    }
    if yolo && approval_mode.is_some() {
        return Err(
            String::from_str(
                "Cannot use both --yolo (-y) and --approval-mode together. Use --approval-mode=yolo instead.",
            ),
        );
    }
    if yolo {
        return Ok(Some(ApprovalMode::Yolo));
    }
    match approval_mode {
        Some(raw) => match ApprovalMode::parse(raw) {
            Some(m) => Ok(Some(m)),
            None => {
                let mut s = String::from_str("Invalid approval mode: ");
                s.append(raw);
                s.append(". Valid values are: default, auto_edit, plan, yolo");
                Err(s)
            },
        },
        None => Ok(None),
    }
}

/// What a headless input is, tried in this order: a slash command (with
/// its reply), a `!` shell command, an `@` file reference, or plain text.
#[derive(Debug)]
pub enum HeadlessInput {
    Slash(Result<Option<String>, String>),
    Bang(String),
    At(AtCommandPlan),
    Plain,
}

/// Routes a headless input (see [`HeadlessInput`]).
pub fn classify_headless_input(input: &str, cwd: &str, extra_dirs: &Vec<String>) -> (r: HeadlessInput)
    ensures
        match r {
            HeadlessInput::Slash(reply) => slash_reply(input@) != Ok::<Option<Seq<char>>, Seq<char>>(None)
                && reply_view(reply) == slash_reply(input@),
            HeadlessInput::Bang(c) => slash_reply(input@) == Ok::<Option<Seq<char>>, Seq<char>>(None)
                && bang_request(input@) == Some(c@),
            HeadlessInput::At(p) => {
                &&& slash_reply(input@) == Ok::<Option<Seq<char>>, Seq<char>>(None)
                &&& bang_request(input@).is_none()
                &&& at_request(input@) == Some((p.raw_path@, p.tail@))
                &&& string_views(p.candidates@) == unique_paths(
                    candidate_paths(p.raw_path@, cwd@, string_views(extra_dirs@)),
                )
                &&& p.candidates@.len() > 0
            },
            HeadlessInput::Plain => {
                &&& slash_reply(input@) == Ok::<Option<Seq<char>>, Seq<char>>(None)
                &&& bang_request(input@).is_none()
                &&& at_request(input@).is_none()
            },
        },
{
    let reply = execute_slash_command(input);
    match reply {
        Ok(None) => {},
        _ => {
            return HeadlessInput::Slash(reply);
        },
    }
    match bang_command_text(input) {
        Some(c) => {
            return HeadlessInput::Bang(c);
        },
        None => {},
    }
    match plan_at_command(input, cwd, extra_dirs) {
        Some(p) => HeadlessInput::At(p),
        None => HeadlessInput::Plain,
    }
}

} // verus!
