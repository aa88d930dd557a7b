//! Entering and leaving plan mode.

use vstd::prelude::*;
use vstd::string::*;
use crate::paths::{
    display, display_path, is_absolute, join_paths, joined, law_display_parses_back,
    law_path_within_ancestor, law_within_means_continuation,
    lemma_normalize_identity, lemma_normalize_keeps, lemma_segments_plain, normalize_components,
    normalized, path_starts_with, plain_segment, segments, starts_with, PathBuf, PathModel,
};
use crate::text::push_str;

verus! {

#[derive(Debug, Clone, Copy, PartialEq, Eq, Structural)]
pub enum PlanModeAction {
    Entered,
    Exited,
}

/// What entering or leaving plan mode did.
#[derive(Debug)]
pub struct PlanModeResult {
    pub action: PlanModeAction,
    pub message: String,
    pub plan_path: Option<String>,
}

/// The message shown on entering plan mode.
pub open spec fn enter_message(reason: Option<Seq<char>>) -> Seq<char> {
    match reason {
        Some(r) => "Switching to Plan mode: "@ + r,
        None => "Switching to Plan mode"@,
    }
}

/// Enters plan mode, quoting the reason when one is given.
pub fn enter_plan_mode(reason: Option<&str>) -> (r: PlanModeResult)
    ensures
        r.action == PlanModeAction::Entered,
        r.message@ == enter_message(
            match reason {
                Some(s) => Some(s@),
                None => None,
            },
        ),
        r.plan_path.is_none(),
{
    let message = match reason {
        Some(s) => {
            let mut m = String::from_str("Switching to Plan mode: ");
            push_str(&mut m, s);
            m
        },
        None => String::from_str("Switching to Plan mode"),
    };
    PlanModeResult { action: PlanModeAction::Entered, message, plan_path: None }
}

/// Where a plan file resolves to: joined to the working directory, then
/// lexically normalized.
pub open spec fn resolved_plan(plan_path: Seq<char>, cwd: Seq<char>) -> PathModel {
    normalized(joined(cwd, plan_path))
}

/// Where the plans directory resolves to.
pub open spec fn resolved_plans_dir(plans_dir: Seq<char>, cwd: Seq<char>) -> PathModel {
    normalized(joined(cwd, plans_dir))
}

/// The outcome of leaving plan mode: the approved plan's displayed path,
/// or the error message.
pub open spec fn exit_outcome(plan_path: Seq<char>, plans_dir: Seq<char>, cwd: Seq<char>) -> Result<
    Seq<char>,
    Seq<char>,
> {
    if plan_path.len() == 0 {
        Err("plan_path is required"@)
    } else if !path_starts_with(
        resolved_plan(plan_path, cwd),
        resolved_plans_dir(plans_dir, cwd),
    ) {
        Err("Access denied: plan path must be within the plans directory"@)
    } else {
        Ok(display(resolved_plan(plan_path, cwd)))
    }
}

/// The message shown when a plan at `shown` is approved.
pub open spec fn approval_message(shown: Seq<char>) -> Seq<char> {
    "Plan approved from "@ + shown + ". Returning to default approval mode."@
}

/// Leaves plan mode with the plan at `plan_path`, which must resolve to a
/// location inside `plans_dir` (both relative to `cwd` unless absolute).
pub fn exit_plan_mode(plan_path: &str, plans_dir: &str, cwd: &str) -> (r: Result<
    PlanModeResult,
    String,
>)
    ensures
        match (r, exit_outcome(plan_path@, plans_dir@, cwd@)) {
            (Ok(res), Ok(shown)) => {
                &&& res.action == PlanModeAction::Exited
                &&& res.plan_path matches Some(p) && p@ == shown
                &&& res.message@ == approval_message(shown)
            },
            (Err(e), Err(msg)) => e@ == msg,
            _ => false,
        },
{
    if plan_path.unicode_len() == 0 {
        return Err(String::from_str("plan_path is required"));
    }
    let plan = join_paths(cwd, plan_path);
    let plan = PathBuf { absolute: plan.absolute, components: normalize_components(&plan.components) };
    let dir = join_paths(cwd, plans_dir);
    let dir = PathBuf { absolute: dir.absolute, components: normalize_components(&dir.components) };
    assert(plan.model() =~= resolved_plan(plan_path@, cwd@));
    assert(dir.model() =~= resolved_plans_dir(plans_dir@, cwd@));
    if !starts_with(&plan, &dir) {
        return Err(String::from_str("Access denied: plan path must be within the plans directory"));
    }
    let shown = display_path(&plan);
    let mut message = String::from_str("Plan approved from ");
    push_str(&mut message, shown.as_str());
    push_str(&mut message, ". Returning to default approval mode.");
    Ok(PlanModeResult { action: PlanModeAction::Exited, message, plan_path: Some(shown) })
}

/// The path handed back by an approved exit, read again as a path, lies
/// inside the plans directory: what is shown is what was checked.
pub proof fn law_approved_plan_is_inside_plans_dir(
    plan_path: Seq<char>,
    plans_dir: Seq<char>,
    cwd: Seq<char>,
)
    requires
        exit_outcome(plan_path, plans_dir, cwd) is Ok,
    ensures
        ({
            let shown = exit_outcome(plan_path, plans_dir, cwd)->Ok_0;
            let reread = normalized(
                PathModel { absolute: is_absolute(shown), components: segments(shown) },
            );
            &&& reread == resolved_plan(plan_path, cwd)
            &&& path_starts_with(reread, resolved_plans_dir(plans_dir, cwd))
        }),
{
    let j = joined(cwd, plan_path);
    let plan = resolved_plan(plan_path, cwd);
    lemma_segments_plain(cwd);
    lemma_segments_plain(plan_path);
    assert forall|k: int| 0 <= k < j.components.len() implies plain_segment(
        #[trigger] j.components[k],
    ) by {
        if !is_absolute(plan_path) && k < segments(cwd).len() {
            assert(j.components[k] == segments(cwd)[k]);
        } else if !is_absolute(plan_path) {
            assert(j.components[k] == segments(plan_path)[k - segments(cwd).len()]);
        }
    }
    lemma_normalize_keeps(j.components);
    law_display_parses_back(plan);
    if plan.components.len() > 0 {
        assert(plain_segment(plan.components[0]));
        assert(plan.components[0][0] != '/') by {
            if plan.components[0][0] == '/' {
                assert(plan.components[0].contains('/'));
            }
        }
    }
    let shown = display(plan);
    lemma_normalize_identity(plan.components);
    assert(normalized(PathModel { absolute: is_absolute(shown), components: segments(shown) })
        =~= plan);
}

/// A plan whose resolved location continues the resolved plans directory,
/// by any number of components, is approved and shown at that location.
pub proof fn law_plan_inside_plans_dir_is_approved(
    plan_path: Seq<char>,
    plans_dir: Seq<char>,
    cwd: Seq<char>,
    extra: Seq<Seq<char>>,
)
    requires
        plan_path.len() > 0,
        resolved_plan(plan_path, cwd).absolute == resolved_plans_dir(plans_dir, cwd).absolute,
        resolved_plan(plan_path, cwd).components == resolved_plans_dir(plans_dir, cwd).components
            + extra,
    ensures
        exit_outcome(plan_path, plans_dir, cwd) == Ok::<Seq<char>, Seq<char>>(
            display(resolved_plan(plan_path, cwd)),
        ),
{
    let d = resolved_plans_dir(plans_dir, cwd);
    law_path_within_ancestor(d.absolute, d.components, extra);
    assert(resolved_plan(plan_path, cwd) == PathModel {
        absolute: d.absolute,
        components: d.components + extra,
    });
}

/// A plan whose resolved location does not continue the resolved plans
/// directory (of the same kind) is refused.
pub proof fn law_plan_outside_plans_dir_is_refused(
    plan_path: Seq<char>,
    plans_dir: Seq<char>,
    cwd: Seq<char>,
)
    requires
        plan_path.len() > 0,
        resolved_plan(plan_path, cwd).absolute == resolved_plans_dir(plans_dir, cwd).absolute,
        forall|extra: Seq<Seq<char>>|
            resolved_plan(plan_path, cwd).components != resolved_plans_dir(plans_dir, cwd).components
                + extra,
    ensures
        exit_outcome(plan_path, plans_dir, cwd) == Err::<Seq<char>, Seq<char>>(
            "Access denied: plan path must be within the plans directory"@,
        ),
{
    let p = resolved_plan(plan_path, cwd);
    let d = resolved_plans_dir(plans_dir, cwd);
    if path_starts_with(p, d) {
        law_within_means_continuation(p, d);
        let extra = p.components.skip(d.components.len() as int);
        assert(p.components != d.components + extra);
    }
}

} // verus!

