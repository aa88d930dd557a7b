//! How a run starts: interactive or headless, and what is said first.

use vstd::prelude::*;
use vstd::string::*;
use crate::text::{chars_of_all, join, join_from, string_of, string_views, views};

verus! {

#[derive(Debug, Clone, Copy, PartialEq, Eq, Structural)]
pub enum RunMode {
    Interactive,
    Headless,
}

#[derive(Debug, Clone, Copy, PartialEq, Eq, Structural)]
pub enum OutputFormat {
    Text,
    Json,
    StreamJson,
}

/// What the command line asked for.
#[derive(Debug, Clone, PartialEq, Eq)]
pub struct RunRequest {
    pub query: Option<String>,
    pub model: Option<String>,
    pub resume: Option<String>,
    pub include_directories: Vec<String>,
    pub prompt: Option<String>,
    pub prompt_interactive: Option<String>,
    pub output_format: Option<OutputFormat>,
}

impl Default for RunRequest {
    fn default() -> (r: Self)
        ensures
            r.query.is_none(),
            r.model.is_none(),
            r.resume.is_none(),
            r.include_directories@.len() == 0,
            r.prompt.is_none(),
            r.prompt_interactive.is_none(),
            r.output_format.is_none(),
    {
        RunRequest {
            query: None,
            model: None,
            resume: None,
            include_directories: Vec::new(),
            prompt: None,
            prompt_interactive: None,
            output_format: None,
        }
    }
}

/// The notice shown when a positional query starts an interactive session.
pub const POSITIONAL_QUERY_NOTICE: &'static str = "Positional arguments now default to interactive mode. To run in non-interactive mode, use the --prompt (-p) flag.";

/// The positional words as one query, separated by single spaces; `None`
/// when there are none.
pub fn normalize_query(raw_query: &[String]) -> (r: Option<String>)
    ensures
        match r {
            None => raw_query@.len() == 0,
            Some(q) => raw_query@.len() > 0 && q@ == join(string_views(raw_query@), " "@),
        },
{
    if raw_query.len() == 0 {
        None
    } else {
        let parts = chars_of_all(raw_query);
        let q = join_from(&parts, 0, " ");
        assert(views(parts@).skip(0) =~= views(parts@));
        Some(string_of(q.as_slice()))
    }
}

/// The mode a request runs in: `--prompt` forces headless,
/// `--prompt-interactive` interactive; otherwise a terminal on standard
/// input means interactive, anything else headless.
pub open spec fn run_mode(
    has_prompt: bool,
    has_prompt_interactive: bool,
    has_query: bool,
    stdin_is_tty: bool,
) -> RunMode {
    if has_prompt {
        RunMode::Headless
    } else if has_prompt_interactive {
        RunMode::Interactive
    } else if has_query {
        if stdin_is_tty {
            RunMode::Interactive
        } else {
            RunMode::Headless
        }
    } else if stdin_is_tty {
        RunMode::Interactive
    } else {
        RunMode::Headless
    }
}

/// Decides the run mode (see [`run_mode`]).
pub fn decide_run_mode(request: &RunRequest, stdin_is_tty: bool) -> (m: RunMode)
    ensures
        m == run_mode(
            request.prompt.is_some(),
            request.prompt_interactive.is_some(),
            request.query.is_some(),
            stdin_is_tty,
        ),
{
    if request.prompt.is_some() {
        return RunMode::Headless;
    }
    if request.prompt_interactive.is_some() {
        return RunMode::Interactive;
    }
    if request.query.is_some() {
        if stdin_is_tty {
            return RunMode::Interactive;
        }
        return RunMode::Headless;
    }
    if stdin_is_tty {
        RunMode::Interactive
    } else {
        RunMode::Headless
    }
}

/// The notice about positional queries, shown when a query is given
/// without `--prompt` on a terminal.
pub fn startup_notice(request: &RunRequest, stdin_is_tty: bool) -> (r: Option<&'static str>)
    ensures
        match r {
            Some(s) => s@ == POSITIONAL_QUERY_NOTICE@ && request.query.is_some()
                && request.prompt.is_none() && stdin_is_tty,
            None => !(request.query.is_some() && request.prompt.is_none() && stdin_is_tty),
        },
{
    if request.query.is_some() && request.prompt.is_none() && stdin_is_tty {
        return Some(POSITIONAL_QUERY_NOTICE);
    }
    None
}

/// Whenever the positional-query notice is shown, the run is interactive.
pub proof fn law_notice_implies_interactive_run(
    has_prompt: bool,
    has_prompt_interactive: bool,
    has_query: bool,
    stdin_is_tty: bool,
)
    requires
        has_query && !has_prompt && stdin_is_tty,
    ensures
        run_mode(has_prompt, has_prompt_interactive, has_query, stdin_is_tty) == RunMode::Interactive,
{
}

/// `--prompt` always runs headless.
pub proof fn law_prompt_runs_headless(has_prompt_interactive: bool, has_query: bool, stdin_is_tty: bool)
    ensures
        run_mode(true, has_prompt_interactive, has_query, stdin_is_tty) == RunMode::Headless,
{
}

/// `--prompt-interactive` without `--prompt` always runs interactive,
/// whatever the query and the terminal.
pub proof fn law_prompt_interactive_runs_interactive(has_query: bool, stdin_is_tty: bool)
    ensures
        run_mode(false, true, has_query, stdin_is_tty) == RunMode::Interactive,
{
}

/// Without either flag, the run is interactive exactly when standard input
/// is a terminal, with or without a query.
pub proof fn law_terminal_decides_otherwise(has_query: bool, stdin_is_tty: bool)
    ensures
        (run_mode(false, false, has_query, stdin_is_tty) == RunMode::Interactive) == stdin_is_tty,
        (run_mode(false, false, has_query, stdin_is_tty) == RunMode::Headless) == !stdin_is_tty,
{
}

} // verus!
