//! Slash commands (`/help`, `/model set <name>`, ...): parsing and replies.

use vstd::prelude::*;
use vstd::string::*;
use crate::text::{chars_of, eq_lit, cat2, cat3, join, join_from, push_chars, push_str, split_words, views, words, lemma_words_nonempty};

verus! {

/// The text printed by `/help` and `/commands`.
pub const COMMAND_HELP_TEXT: &'static str = "Available commands:\n/about\n/auth\n/bug\n/clear\n/commands\n/compress [note]\n/copy [message-id]\n/directory [list|add <path>|remove <path>]\n/docs\n/editor [status|open <path>]\n/help\n/ide [status|enable|disable]\n/init\n/model [set <name>]\n/privacy\n/quit\n/resume [session|latest]\n/settings [show|set <key> <value>]\n/stats [session|model|tools]\n/terminal-setup [check|install]\n/theme [list|set <name>]\n/tools [desc|nodesc]\n/vim [status|on|off]\n@<path>\n!<command>";

/// The reply of a command: `Ok(None)` when the input is not a slash
/// command, `Ok(Some(text))` for a reply, `Err(text)` for a usage error.
pub type Reply = Result<Option<Seq<char>>, Seq<char>>;

/// The abstract value of an executable reply.
pub open spec fn reply_view(r: Result<Option<String>, String>) -> Reply {
    match r {
        Ok(Some(s)) => Ok(Some(s@)),
        Ok(None) => Ok(None),
        Err(e) => Err(e@),
    }
}

/// Word `k` of the command line, or `default` when there are fewer words.
pub open spec fn arg_or(w: Seq<Seq<char>>, k: int, default: Seq<char>) -> Seq<char> {
    if k < w.len() {
        w[k]
    } else {
        default
    }
}

pub open spec fn ok_text(s: Seq<char>) -> Reply {
    Ok(Some(s))
}

pub open spec fn directory_reply(w: Seq<Seq<char>>) -> Reply {
    let action = arg_or(w, 1, "list"@);
    if action == "list"@ {
        ok_text("Directory context (stub):\n- . (workspace root)"@)
    } else if action == "add"@ {
        if w.len() > 2 {
            ok_text(
                "Added directory: "@ + w[2]
                    + " (session-only stub). Use --include-directories on startup for persistent include paths."@,
            )
        } else {
            Err("Usage: /directory add <path>"@)
        }
    } else if action == "remove"@ {
        if w.len() > 2 {
            ok_text("Removed directory: "@ + w[2] + " (session-only stub)."@)
        } else {
            Err("Usage: /directory remove <path>"@)
        }
    } else {
        Err(
            "Unsupported /directory option: "@ + action
                + ". Use list, add <path>, or remove <path>."@,
        )
    }
}

pub open spec fn compress_reply(w: Seq<Seq<char>>) -> Reply {
    let note = join(w.skip(1), " "@);
    if note.len() == 0 {
        ok_text("Compression complete (stub): summarized current conversation."@)
    } else {
        ok_text(
            "Compression complete (stub): summarized current conversation with note: "@ + note,
        )
    }
}

pub open spec fn editor_reply(w: Seq<Seq<char>>) -> Reply {
    let action = arg_or(w, 1, "status"@);
    if action == "status"@ {
        ok_text("Editor (stub): no active editor bridge connected."@)
    } else if action == "open"@ {
        if w.len() > 2 {
            ok_text("Editor open request: "@ + w[2] + " (stub)."@)
        } else {
            Err("Usage: /editor open <path>"@)
        }
    } else {
        Err("Unsupported /editor option: "@ + action + ". Use status or open <path>."@)
    }
}

pub open spec fn ide_reply(w: Seq<Seq<char>>) -> Reply {
    let action = arg_or(w, 1, "status"@);
    if action == "status"@ {
        ok_text("IDE companion (stub): disabled."@)
    } else if action == "enable"@ {
        ok_text("IDE companion enabled for current session (stub)."@)
    } else if action == "disable"@ {
        ok_text("IDE companion disabled for current session (stub)."@)
    } else {
        Err("Unsupported /ide option: "@ + action + ". Use status, enable, or disable."@)
    }
}

pub open spec fn theme_reply(w: Seq<Seq<char>>) -> Reply {
    let action = arg_or(w, 1, "list"@);
    if action == "list"@ {
        ok_text("Available themes (stub): default, light, dark"@)
    } else if action == "set"@ {
        if w.len() > 2 {
            ok_text("Theme set to "@ + w[2] + " for current session (stub)."@)
        } else {
            Err("Usage: /theme set <name>"@)
        }
    } else {
        Err("Unsupported /theme option: "@ + action + ". Use list or set <name>."@)
    }
}

pub open spec fn terminal_setup_reply(w: Seq<Seq<char>>) -> Reply {
    let action = arg_or(w, 1, "check"@);
    if action == "check"@ {
        ok_text("Terminal setup (stub): shell integration status unknown."@)
    } else if action == "install"@ {
        ok_text("Terminal setup install requested (stub): follow shell instructions."@)
    } else {
        Err("Unsupported /terminal-setup option: "@ + action + ". Use check or install."@)
    }
}

pub open spec fn vim_reply(w: Seq<Seq<char>>) -> Reply {
    let action = arg_or(w, 1, "status"@);
    if action == "status"@ {
        ok_text("Vim mode (stub): off."@)
    } else if action == "on"@ {
        ok_text("Vim mode enabled for current session (stub)."@)
    } else if action == "off"@ {
        ok_text("Vim mode disabled for current session (stub)."@)
    } else {
        Err("Unsupported /vim option: "@ + action + ". Use status, on, or off."@)
    }
}

pub open spec fn settings_reply(w: Seq<Seq<char>>) -> Reply {
    let action = arg_or(w, 1, "show"@);
    if action == "show"@ {
        ok_text("Settings (stub): model=auto, approvalMode=default, sandbox=false"@)
    } else if action == "set"@ {
        if w.len() > 3 {
            ok_text("Setting updated: "@ + w[2] + "="@ + w[3] + " (session-only stub)."@)
        } else {
            Err("Usage: /settings set <key> <value>"@)
        }
    } else {
        Err("Unsupported /settings option: "@ + action + ". Use show or set <key> <value>."@)
    }
}

pub open spec fn model_reply(w: Seq<Seq<char>>) -> Reply {
    if w.len() <= 1 {
        ok_text("Current model: auto (stub)"@)
    } else if w[1] == "set"@ {
        if w.len() > 2 {
            ok_text("Model set to "@ + w[2] + " (session-only stub)"@)
        } else {
            Err("Usage: /model set <model-name>"@)
        }
    } else {
        Err("Unsupported /model option: "@ + w[1] + ". Use /model or /model set <name>."@)
    }
}

pub open spec fn tools_reply(w: Seq<Seq<char>>) -> Reply {
    let mode = arg_or(w, 1, "nodesc"@);
    if mode == "desc"@ || mode == "descriptions"@ {
        ok_text(
            "Available tools:\nlist_directory - list files and directories\nread_file - read text content from a file\nglob - match files by wildcard pattern\ngrep_search - search text within files"@,
        )
    } else if mode == "nodesc"@ || mode == "nodescriptions"@ {
        ok_text("Available tools:\nlist_directory\nread_file\nglob\ngrep_search"@)
    } else {
        Err("Unsupported /tools option: "@ + mode + ". Use desc or nodesc."@)
    }
}

pub open spec fn stats_reply(w: Seq<Seq<char>>) -> Reply {
    let view = arg_or(w, 1, "session"@);
    if view == "session"@ {
        ok_text("Session stats (stub): duration=0s, turns=0, toolCalls=0"@)
    } else if view == "model"@ {
        ok_text("Model stats (stub): model=auto, inputTokens=0, outputTokens=0"@)
    } else if view == "tools"@ {
        ok_text("Tool stats (stub): list_directory=0, read_file=0, glob=0, grep_search=0"@)
    } else {
        Err("Unsupported /stats option: "@ + view + ". Use session, model, or tools."@)
    }
}

/// The reply to a command line whose words are `w`, `w[0]` being the command.
pub open spec fn command_reply(w: Seq<Seq<char>>) -> Reply {
    let c = w[0];
    if c == "/about"@ {
        ok_text("remini-cli v0.1.0 (phase2 bootstrap)"@)
    } else if c == "/auth"@ {
        ok_text("Auth methods (stub):\n- Login with Google\n- GEMINI_API_KEY\n- Vertex AI"@)
    } else if c == "/bug"@ {
        ok_text("Bug report (stub): please open an issue with steps to reproduce and logs."@)
    } else if c == "/directory"@ {
        directory_reply(w)
    } else if c == "/copy"@ {
        ok_text("Copied message "@ + arg_or(w, 1, "last"@) + " to clipboard (stub)."@)
    } else if c == "/compress"@ {
        compress_reply(w)
    } else if c == "/docs"@ {
        ok_text("Docs (stub): visit https://github.com/wumingzhilian/remini-cli#readme"@)
    } else if c == "/editor"@ {
        editor_reply(w)
    } else if c == "/ide"@ {
        ide_reply(w)
    } else if c == "/theme"@ {
        theme_reply(w)
    } else if c == "/terminal-setup"@ {
        terminal_setup_reply(w)
    } else if c == "/vim"@ {
        vim_reply(w)
    } else if c == "/init"@ {
        ok_text("Init (stub): generated starter files guidance for remini-cli in current workspace."@)
    } else if c == "/privacy"@ {
        ok_text("Privacy (stub): review telemetry, data retention, and output safety settings."@)
    } else if c == "/settings"@ {
        settings_reply(w)
    } else if c == "/clear"@ {
        ok_text("Screen cleared (stub)."@)
    } else if c == "/quit"@ || c == "/exit"@ {
        ok_text("Session ended (stub)."@)
    } else if c == "/resume"@ {
        ok_text("Resumed session: "@ + arg_or(w, 1, "latest"@) + " (stub)."@)
    } else if c == "/help"@ || c == "/?"@ || c == "/commands"@ {
        ok_text(COMMAND_HELP_TEXT@)
    } else if c == "/model"@ {
        model_reply(w)
    } else if c == "/tools"@ {
        tools_reply(w)
    } else if c == "/stats"@ {
        stats_reply(w)
    } else {
        Err("Unknown slash command: "@ + c)
    }
}

/// The reply to `input`: not a slash command unless its first non-blank
/// character is `/`; otherwise the reply to its whitespace-separated words.
pub open spec fn slash_reply(input: Seq<char>) -> Reply {
    let w = words(input);
    if w.len() == 0 || w[0][0] != '/' {
        Ok(None)
    } else {
        command_reply(w)
    }
}

/// Every line whose first non-blank character is `/` is answered: with a
/// reply or with an error, never passed on as something else.
pub proof fn law_slash_lines_are_always_answered(input: Seq<char>)
    requires
        words(input).len() > 0,
        words(input)[0][0] == '/',
    ensures
        slash_reply(input) != Ok::<Option<Seq<char>>, Seq<char>>(None),
{
}

fn text(s: &str) -> (r: Result<Option<String>, String>)
    ensures
        reply_view(r) == ok_text(s@),
{
    Ok(Some(String::from_str(s)))
}

fn usage(s: &str) -> (r: Result<Option<String>, String>)
    ensures
        reply_view(r) == Err::<Option<Seq<char>>, Seq<char>>(s@),
{
    Err(String::from_str(s))
}

/// Whether word `k` is absent (then `default` applies) or equal to `lit`.
fn arg_or_is(w: &Vec<Vec<char>>, k: usize, default: &str, lit: &str) -> (b: bool)
    ensures
        b == (arg_or(views(w@), k as int, default@) == lit@),
{
    if k < w.len() {
        eq_lit(w[k].as_slice(), lit)
    } else {
        let d = chars_of(default);
        eq_lit(d.as_slice(), lit)
    }
}

fn arg_or_is_default(w: &Vec<Vec<char>>, k: usize, default: &str) -> (b: bool)
    ensures
        b == (arg_or(views(w@), k as int, default@) == default@),
{
    if k < w.len() {
        eq_lit(w[k].as_slice(), default)
    } else {
        true
    }
}

fn word(w: &Vec<Vec<char>>, k: usize) -> (r: &[char])
    requires
        k < w@.len(),
    ensures
        r@ == views(w@)[k as int],
{
    w[k].as_slice()
}

fn directory_command(w: &Vec<Vec<char>>) -> (r: Result<Option<String>, String>)
    requires
        w@.len() > 0,
    ensures
        reply_view(r) == directory_reply(views(w@)),
{
    if arg_or_is_default(w, 1, "list") {
        text("Directory context (stub):\n- . (workspace root)")
    } else if eq_lit(word(w, 1), "add") {
        if w.len() > 2 {
            Ok(
                Some(
                    cat3(
                        "Added directory: ",
                        word(w, 2),
                        " (session-only stub). Use --include-directories on startup for persistent include paths.",
                    ),
                ),
            )
        } else {
            usage("Usage: /directory add <path>")
        }
    } else if eq_lit(word(w, 1), "remove") {
        if w.len() > 2 {
            Ok(Some(cat3("Removed directory: ", word(w, 2), " (session-only stub).")))
        } else {
            usage("Usage: /directory remove <path>")
        }
    } else {
        Err(
            cat3(
                "Unsupported /directory option: ",
                word(w, 1),
                ". Use list, add <path>, or remove <path>.",
            ),
        )
    }
}

fn compress_command(w: &Vec<Vec<char>>) -> (r: Result<Option<String>, String>)
    requires
        w@.len() > 0,
    ensures
        reply_view(r) == compress_reply(views(w@)),
{
    let note = join_from(w, 1, " ");
    if note.len() == 0 {
        text("Compression complete (stub): summarized current conversation.")
    } else {
        Ok(
            Some(
                cat2(
                    "Compression complete (stub): summarized current conversation with note: ",
                    note.as_slice(),
                ),
            ),
        )
    }
}

fn editor_command(w: &Vec<Vec<char>>) -> (r: Result<Option<String>, String>)
    requires
        w@.len() > 0,
    ensures
        reply_view(r) == editor_reply(views(w@)),
{
    if arg_or_is_default(w, 1, "status") {
        text("Editor (stub): no active editor bridge connected.")
    } else if eq_lit(word(w, 1), "open") {
        if w.len() > 2 {
            Ok(Some(cat3("Editor open request: ", word(w, 2), " (stub).")))
        } else {
            usage("Usage: /editor open <path>")
        }
    } else {
        Err(cat3("Unsupported /editor option: ", word(w, 1), ". Use status or open <path>."))
    }
}

fn ide_command(w: &Vec<Vec<char>>) -> (r: Result<Option<String>, String>)
    requires
        w@.len() > 0,
    ensures
        reply_view(r) == ide_reply(views(w@)),
{
    if arg_or_is_default(w, 1, "status") {
        text("IDE companion (stub): disabled.")
    } else if eq_lit(word(w, 1), "enable") {
        text("IDE companion enabled for current session (stub).")
    } else if eq_lit(word(w, 1), "disable") {
        text("IDE companion disabled for current session (stub).")
    } else {
        Err(cat3("Unsupported /ide option: ", word(w, 1), ". Use status, enable, or disable."))
    }
}

fn theme_command(w: &Vec<Vec<char>>) -> (r: Result<Option<String>, String>)
    requires
        w@.len() > 0,
    ensures
        reply_view(r) == theme_reply(views(w@)),
{
    if arg_or_is_default(w, 1, "list") {
        text("Available themes (stub): default, light, dark")
    } else if eq_lit(word(w, 1), "set") {
        if w.len() > 2 {
            Ok(Some(cat3("Theme set to ", word(w, 2), " for current session (stub).")))
        } else {
            usage("Usage: /theme set <name>")
        }
    } else {
        Err(cat3("Unsupported /theme option: ", word(w, 1), ". Use list or set <name>."))
    }
}

fn terminal_setup_command(w: &Vec<Vec<char>>) -> (r: Result<Option<String>, String>)
    requires
        w@.len() > 0,
    ensures
        reply_view(r) == terminal_setup_reply(views(w@)),
{
    if arg_or_is_default(w, 1, "check") {
        text("Terminal setup (stub): shell integration status unknown.")
    } else if eq_lit(word(w, 1), "install") {
        text("Terminal setup install requested (stub): follow shell instructions.")
    } else {
        Err(cat3("Unsupported /terminal-setup option: ", word(w, 1), ". Use check or install."))
    }
}

fn vim_command(w: &Vec<Vec<char>>) -> (r: Result<Option<String>, String>)
    requires
        w@.len() > 0,
    ensures
        reply_view(r) == vim_reply(views(w@)),
{
    if arg_or_is_default(w, 1, "status") {
        text("Vim mode (stub): off.")
    } else if eq_lit(word(w, 1), "on") {
        text("Vim mode enabled for current session (stub).")
    } else if eq_lit(word(w, 1), "off") {
        text("Vim mode disabled for current session (stub).")
    } else {
        Err(cat3("Unsupported /vim option: ", word(w, 1), ". Use status, on, or off."))
    }
}

fn settings_command(w: &Vec<Vec<char>>) -> (r: Result<Option<String>, String>)
    requires
        w@.len() > 0,
    ensures
        reply_view(r) == settings_reply(views(w@)),
{
    if arg_or_is_default(w, 1, "show") {
        text("Settings (stub): model=auto, approvalMode=default, sandbox=false")
    } else if eq_lit(word(w, 1), "set") {
        if w.len() > 3 {
            let mut s = cat3("Setting updated: ", word(w, 2), "=");
            push_chars(&mut s, word(w, 3));
            push_str(&mut s, " (session-only stub).");
            Ok(Some(s))
        } else {
            usage("Usage: /settings set <key> <value>")
        }
    } else {
        Err(
            cat3(
                "Unsupported /settings option: ",
                word(w, 1),
                ". Use show or set <key> <value>.",
            ),
        )
    }
}

fn model_command(w: &Vec<Vec<char>>) -> (r: Result<Option<String>, String>)
    requires
        w@.len() > 0,
    ensures
        reply_view(r) == model_reply(views(w@)),
{
    if w.len() <= 1 {
        text("Current model: auto (stub)")
    } else if eq_lit(word(w, 1), "set") {
        if w.len() > 2 {
            Ok(Some(cat3("Model set to ", word(w, 2), " (session-only stub)")))
        } else {
            usage("Usage: /model set <model-name>")
        }
    } else {
        Err(cat3("Unsupported /model option: ", word(w, 1), ". Use /model or /model set <name>."))
    }
}

fn tools_command(w: &Vec<Vec<char>>) -> (r: Result<Option<String>, String>)
    requires
        w@.len() > 0,
    ensures
        reply_view(r) == tools_reply(views(w@)),
{
    if arg_or_is(w, 1, "nodesc", "desc") || arg_or_is(w, 1, "nodesc", "descriptions") {
        text(
            "Available tools:\nlist_directory - list files and directories\nread_file - read text content from a file\nglob - match files by wildcard pattern\ngrep_search - search text within files",
        )
    } else if arg_or_is_default(w, 1, "nodesc") || arg_or_is(w, 1, "nodesc", "nodescriptions") {
        text("Available tools:\nlist_directory\nread_file\nglob\ngrep_search")
    } else {
        Err(cat3("Unsupported /tools option: ", word(w, 1), ". Use desc or nodesc."))
    }
}

fn stats_command(w: &Vec<Vec<char>>) -> (r: Result<Option<String>, String>)
    requires
        w@.len() > 0,
    ensures
        reply_view(r) == stats_reply(views(w@)),
{
    if arg_or_is_default(w, 1, "session") {
        text("Session stats (stub): duration=0s, turns=0, toolCalls=0")
    } else if eq_lit(word(w, 1), "model") {
        text("Model stats (stub): model=auto, inputTokens=0, outputTokens=0")
    } else if eq_lit(word(w, 1), "tools") {
        text("Tool stats (stub): list_directory=0, read_file=0, glob=0, grep_search=0")
    } else {
        Err(cat3("Unsupported /stats option: ", word(w, 1), ". Use session, model, or tools."))
    }
}

fn arg_or_text(w: &Vec<Vec<char>>, k: usize, default: &str) -> (r: Vec<char>)
    ensures
        r@ == arg_or(views(w@), k as int, default@),
{
    if k < w.len() {
        let mut r: Vec<char> = Vec::new();
        let mut i: usize = 0;
        while i < w[k].len()
            invariant
                k < w@.len(),
                i <= w@[k as int]@.len(),
                r@ == w@[k as int]@.take(i as int),
            decreases w@[k as int]@.len() - i,
        {
            r.push(w[k][i]);
            i += 1;
            assert(r@ =~= w@[k as int]@.take(i as int));
        }
        assert(w@[k as int]@.take(i as int) =~= w@[k as int]@);
        r
    } else {
        chars_of(default)
    }
}

fn command(w: &Vec<Vec<char>>) -> (r: Result<Option<String>, String>)
    requires
        w@.len() > 0,
    ensures
        reply_view(r) == command_reply(views(w@)),
{
    let c = word(w, 0);
    if eq_lit(c, "/about") {
        text("remini-cli v0.1.0 (phase2 bootstrap)")
    } else if eq_lit(c, "/auth") {
        text("Auth methods (stub):\n- Login with Google\n- GEMINI_API_KEY\n- Vertex AI")
    } else if eq_lit(c, "/bug") {
        text("Bug report (stub): please open an issue with steps to reproduce and logs.")
    } else if eq_lit(c, "/directory") {
        directory_command(w)
    } else if eq_lit(c, "/copy") {
        let target = arg_or_text(w, 1, "last");
        Ok(Some(cat3("Copied message ", target.as_slice(), " to clipboard (stub).")))
    } else if eq_lit(c, "/compress") {
        compress_command(w)
    } else if eq_lit(c, "/docs") {
        text("Docs (stub): visit https://github.com/wumingzhilian/remini-cli#readme")
    } else if eq_lit(c, "/editor") {
        editor_command(w)
    } else if eq_lit(c, "/ide") {
        ide_command(w)
    } else if eq_lit(c, "/theme") {
        theme_command(w)
    } else if eq_lit(c, "/terminal-setup") {
        terminal_setup_command(w)
    } else if eq_lit(c, "/vim") {
        vim_command(w)
    } else if eq_lit(c, "/init") {
        text("Init (stub): generated starter files guidance for remini-cli in current workspace.")
    } else if eq_lit(c, "/privacy") {
        text("Privacy (stub): review telemetry, data retention, and output safety settings.")
    } else if eq_lit(c, "/settings") {
        settings_command(w)
    } else if eq_lit(c, "/clear") {
        text("Screen cleared (stub).")
    } else if eq_lit(c, "/quit") || eq_lit(c, "/exit") {
        text("Session ended (stub).")
    } else if eq_lit(c, "/resume") {
        let session = arg_or_text(w, 1, "latest");
        Ok(Some(cat3("Resumed session: ", session.as_slice(), " (stub).")))
    } else if eq_lit(c, "/help") || eq_lit(c, "/?") || eq_lit(c, "/commands") {
        text(COMMAND_HELP_TEXT)
    } else if eq_lit(c, "/model") {
        model_command(w)
    } else if eq_lit(c, "/tools") {
        tools_command(w)
    } else if eq_lit(c, "/stats") {
        stats_command(w)
    } else {
        Err(cat2("Unknown slash command: ", c))
    }
}

/// Runs a slash command line. `Ok(None)` when the input is not a slash
/// command (its first non-blank character is not `/`), `Ok(Some(reply))`
/// for a handled command, `Err(message)` for a usage error or an unknown
/// command.
pub fn execute_slash_command(input: &str) -> (r: Result<Option<String>, String>)
    ensures
        reply_view(r) == slash_reply(input@),
{
    let chars = chars_of(input);
    let w = split_words(chars.as_slice());
    if w.len() == 0 {
        return Ok(None);
    }
    proof {
        lemma_words_nonempty(chars@);
        assert(views(w@)[0] == w@[0]@);
    }
    if w[0][0] != '/' {
        return Ok(None);
    }
    command(&w)
}

proof fn lemma_default_directory(rest: Seq<Seq<char>>)
    ensures
        command_reply(seq!["/directory"@, "list"@] + rest) == command_reply(seq!["/directory"@]),
{
    reveal_strlit("/about");
    reveal_strlit("/auth");
    reveal_strlit("/bug");
    reveal_strlit("/directory");
    let w1 = seq!["/directory"@];
    let w2 = seq!["/directory"@, "list"@] + rest;
    assert(w2[0] == w1[0] && w2[1] == "list"@ && w2.len() >= 2 && w1.len() == 1);
    assert(directory_reply(w2) == directory_reply(w1));
}

proof fn lemma_default_editor(rest: Seq<Seq<char>>)
    ensures
        command_reply(seq!["/editor"@, "status"@] + rest) == command_reply(seq!["/editor"@]),
{
    reveal_strlit("/about");
    reveal_strlit("/auth");
    reveal_strlit("/bug");
    reveal_strlit("/directory");
    reveal_strlit("/copy");
    reveal_strlit("/compress");
    reveal_strlit("/docs");
    reveal_strlit("/editor");
    let w1 = seq!["/editor"@];
    let w2 = seq!["/editor"@, "status"@] + rest;
    assert(w2[0] == w1[0] && w2[1] == "status"@ && w2.len() >= 2 && w1.len() == 1);
    assert(editor_reply(w2) == editor_reply(w1));
}

proof fn lemma_default_ide(rest: Seq<Seq<char>>)
    ensures
        command_reply(seq!["/ide"@, "status"@] + rest) == command_reply(seq!["/ide"@]),
{
    reveal_strlit("/about");
    reveal_strlit("/auth");
    reveal_strlit("/bug");
    reveal_strlit("/directory");
    reveal_strlit("/copy");
    reveal_strlit("/compress");
    reveal_strlit("/docs");
    reveal_strlit("/editor");
    reveal_strlit("/ide");
    assert("/ide"@[1] != "/bug"@[1]);
    let w1 = seq!["/ide"@];
    let w2 = seq!["/ide"@, "status"@] + rest;
    assert(w2[0] == w1[0] && w2[1] == "status"@ && w2.len() >= 2 && w1.len() == 1);
    assert(ide_reply(w2) == ide_reply(w1));
}

proof fn lemma_default_theme(rest: Seq<Seq<char>>)
    ensures
        command_reply(seq!["/theme"@, "list"@] + rest) == command_reply(seq!["/theme"@]),
{
    reveal_strlit("/about");
    reveal_strlit("/auth");
    reveal_strlit("/bug");
    reveal_strlit("/directory");
    reveal_strlit("/copy");
    reveal_strlit("/compress");
    reveal_strlit("/docs");
    reveal_strlit("/editor");
    reveal_strlit("/ide");
    reveal_strlit("/theme");
    assert("/theme"@[1] != "/about"@[1]);
    let w1 = seq!["/theme"@];
    let w2 = seq!["/theme"@, "list"@] + rest;
    assert(w2[0] == w1[0] && w2[1] == "list"@ && w2.len() >= 2 && w1.len() == 1);
    assert(theme_reply(w2) == theme_reply(w1));
}

proof fn lemma_default_terminal_setup(rest: Seq<Seq<char>>)
    ensures
        command_reply(seq!["/terminal-setup"@, "check"@] + rest) == command_reply(seq!["/terminal-setup"@]),
{
    reveal_strlit("/about");
    reveal_strlit("/auth");
    reveal_strlit("/bug");
    reveal_strlit("/directory");
    reveal_strlit("/copy");
    reveal_strlit("/compress");
    reveal_strlit("/docs");
    reveal_strlit("/editor");
    reveal_strlit("/ide");
    reveal_strlit("/theme");
    reveal_strlit("/terminal-setup");
    let w1 = seq!["/terminal-setup"@];
    let w2 = seq!["/terminal-setup"@, "check"@] + rest;
    assert(w2[0] == w1[0] && w2[1] == "check"@ && w2.len() >= 2 && w1.len() == 1);
    assert(terminal_setup_reply(w2) == terminal_setup_reply(w1));
}

proof fn lemma_default_vim(rest: Seq<Seq<char>>)
    ensures
        command_reply(seq!["/vim"@, "status"@] + rest) == command_reply(seq!["/vim"@]),
{
    reveal_strlit("/about");
    reveal_strlit("/auth");
    reveal_strlit("/bug");
    reveal_strlit("/directory");
    reveal_strlit("/copy");
    reveal_strlit("/compress");
    reveal_strlit("/docs");
    reveal_strlit("/editor");
    reveal_strlit("/ide");
    reveal_strlit("/theme");
    reveal_strlit("/terminal-setup");
    reveal_strlit("/vim");
    assert("/vim"@[1] != "/bug"@[1]);
    assert("/vim"@[1] != "/ide"@[1]);
    let w1 = seq!["/vim"@];
    let w2 = seq!["/vim"@, "status"@] + rest;
    assert(w2[0] == w1[0] && w2[1] == "status"@ && w2.len() >= 2 && w1.len() == 1);
    assert(vim_reply(w2) == vim_reply(w1));
}

proof fn lemma_default_settings(rest: Seq<Seq<char>>)
    ensures
        command_reply(seq!["/settings"@, "show"@] + rest) == command_reply(seq!["/settings"@]),
{
    reveal_strlit("/about");
    reveal_strlit("/auth");
    reveal_strlit("/bug");
    reveal_strlit("/directory");
    reveal_strlit("/copy");
    reveal_strlit("/compress");
    reveal_strlit("/docs");
    reveal_strlit("/editor");
    reveal_strlit("/ide");
    reveal_strlit("/theme");
    reveal_strlit("/terminal-setup");
    reveal_strlit("/vim");
    reveal_strlit("/init");
    reveal_strlit("/privacy");
    reveal_strlit("/settings");
    assert("/settings"@[1] != "/compress"@[1]);
    let w1 = seq!["/settings"@];
    let w2 = seq!["/settings"@, "show"@] + rest;
    assert(w2[0] == w1[0] && w2[1] == "show"@ && w2.len() >= 2 && w1.len() == 1);
    assert(settings_reply(w2) == settings_reply(w1));
}

proof fn lemma_default_tools(rest: Seq<Seq<char>>)
    ensures
        command_reply(seq!["/tools"@, "nodesc"@] + rest) == command_reply(seq!["/tools"@]),
{
    reveal_strlit("/about");
    reveal_strlit("/auth");
    reveal_strlit("/bug");
    reveal_strlit("/directory");
    reveal_strlit("/copy");
    reveal_strlit("/compress");
    reveal_strlit("/docs");
    reveal_strlit("/editor");
    reveal_strlit("/ide");
    reveal_strlit("/theme");
    reveal_strlit("/terminal-setup");
    reveal_strlit("/vim");
    reveal_strlit("/init");
    reveal_strlit("/privacy");
    reveal_strlit("/settings");
    reveal_strlit("/clear");
    reveal_strlit("/quit");
    reveal_strlit("/exit");
    reveal_strlit("/resume");
    reveal_strlit("/help");
    reveal_strlit("/?");
    reveal_strlit("/commands");
    reveal_strlit("/model");
    reveal_strlit("/tools");
    assert("/tools"@[1] != "/about"@[1]);
    assert("/tools"@[2] != "/theme"@[2]);
    assert("/tools"@[1] != "/clear"@[1]);
    assert("/tools"@[1] != "/model"@[1]);
    let w1 = seq!["/tools"@];
    let w2 = seq!["/tools"@, "nodesc"@] + rest;
    assert(w2[0] == w1[0] && w2[1] == "nodesc"@ && w2.len() >= 2 && w1.len() == 1);
    assert(tools_reply(w2) == tools_reply(w1));
}

proof fn lemma_default_stats(rest: Seq<Seq<char>>)
    ensures
        command_reply(seq!["/stats"@, "session"@] + rest) == command_reply(seq!["/stats"@]),
{
    reveal_strlit("/about");
    reveal_strlit("/auth");
    reveal_strlit("/bug");
    reveal_strlit("/directory");
    reveal_strlit("/copy");
    reveal_strlit("/compress");
    reveal_strlit("/docs");
    reveal_strlit("/editor");
    reveal_strlit("/ide");
    reveal_strlit("/theme");
    reveal_strlit("/terminal-setup");
    reveal_strlit("/vim");
    reveal_strlit("/init");
    reveal_strlit("/privacy");
    reveal_strlit("/settings");
    reveal_strlit("/clear");
    reveal_strlit("/quit");
    reveal_strlit("/exit");
    reveal_strlit("/resume");
    reveal_strlit("/help");
    reveal_strlit("/?");
    reveal_strlit("/commands");
    reveal_strlit("/model");
    reveal_strlit("/tools");
    reveal_strlit("/stats");
    assert("/stats"@[1] != "/about"@[1]);
    assert("/stats"@[1] != "/theme"@[1]);
    assert("/stats"@[1] != "/clear"@[1]);
    assert("/stats"@[1] != "/model"@[1]);
    assert("/stats"@[1] != "/tools"@[1]);
    let w1 = seq!["/stats"@];
    let w2 = seq!["/stats"@, "session"@] + rest;
    assert(w2[0] == w1[0] && w2[1] == "session"@ && w2.len() >= 2 && w1.len() == 1);
    assert(stats_reply(w2) == stats_reply(w1));
}

proof fn lemma_default_copy(rest: Seq<Seq<char>>)
    ensures
        command_reply(seq!["/copy"@, "last"@] + rest) == command_reply(seq!["/copy"@]),
{
    reveal_strlit("/about");
    reveal_strlit("/auth");
    reveal_strlit("/bug");
    reveal_strlit("/directory");
    reveal_strlit("/copy");
    assert("/copy"@[1] != "/auth"@[1]);
    let w1 = seq!["/copy"@];
    let w2 = seq!["/copy"@, "last"@] + rest;
    assert(w2[0] == w1[0] && w2[1] == "last"@ && w2.len() >= 2 && w1.len() == 1);
}

proof fn lemma_default_resume(rest: Seq<Seq<char>>)
    ensures
        command_reply(seq!["/resume"@, "latest"@] + rest) == command_reply(seq!["/resume"@]),
{
    reveal_strlit("/about");
    reveal_strlit("/auth");
    reveal_strlit("/bug");
    reveal_strlit("/directory");
    reveal_strlit("/copy");
    reveal_strlit("/compress");
    reveal_strlit("/docs");
    reveal_strlit("/editor");
    reveal_strlit("/ide");
    reveal_strlit("/theme");
    reveal_strlit("/terminal-setup");
    reveal_strlit("/vim");
    reveal_strlit("/init");
    reveal_strlit("/privacy");
    reveal_strlit("/settings");
    reveal_strlit("/clear");
    reveal_strlit("/quit");
    reveal_strlit("/exit");
    reveal_strlit("/resume");
    assert("/resume"@[1] != "/editor"@[1]);
    let w1 = seq!["/resume"@];
    let w2 = seq!["/resume"@, "latest"@] + rest;
    assert(w2[0] == w1[0] && w2[1] == "latest"@ && w2.len() >= 2 && w1.len() == 1);
}

/// Naming a command's default option answers like leaving it out, whatever
/// words follow it.
pub proof fn law_default_option_answers_like_bare_command(rest: Seq<Seq<char>>)
    ensures
        command_reply(seq!["/directory"@, "list"@] + rest) == command_reply(seq!["/directory"@]),
        command_reply(seq!["/editor"@, "status"@] + rest) == command_reply(seq!["/editor"@]),
        command_reply(seq!["/ide"@, "status"@] + rest) == command_reply(seq!["/ide"@]),
        command_reply(seq!["/theme"@, "list"@] + rest) == command_reply(seq!["/theme"@]),
        command_reply(seq!["/terminal-setup"@, "check"@] + rest) == command_reply(seq!["/terminal-setup"@]),
        command_reply(seq!["/vim"@, "status"@] + rest) == command_reply(seq!["/vim"@]),
        command_reply(seq!["/settings"@, "show"@] + rest) == command_reply(seq!["/settings"@]),
        command_reply(seq!["/tools"@, "nodesc"@] + rest) == command_reply(seq!["/tools"@]),
        command_reply(seq!["/stats"@, "session"@] + rest) == command_reply(seq!["/stats"@]),
        command_reply(seq!["/copy"@, "last"@] + rest) == command_reply(seq!["/copy"@]),
        command_reply(seq!["/resume"@, "latest"@] + rest) == command_reply(seq!["/resume"@]),
{
    lemma_default_directory(rest);
    lemma_default_editor(rest);
    lemma_default_ide(rest);
    lemma_default_theme(rest);
    lemma_default_terminal_setup(rest);
    lemma_default_vim(rest);
    lemma_default_settings(rest);
    lemma_default_tools(rest);
    lemma_default_stats(rest);
    lemma_default_copy(rest);
    lemma_default_resume(rest);
}

} // verus!
