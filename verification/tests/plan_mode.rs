use remini::plan_mode::{enter_plan_mode, exit_plan_mode, PlanModeAction};

#[test]
fn enter_plan_mode_returns_reason_when_present() {
    let result = enter_plan_mode(Some("safe planning"));
    assert_eq!(result.action, PlanModeAction::Entered);
    assert!(result.message.contains("safe planning"));
}

#[test]
fn exit_plan_mode_accepts_path_inside_plans_dir() {
    let cwd = "/workspace";
    let result = exit_plan_mode(".gemini/plans/plan.md", ".gemini/plans", cwd)
        .expect("plan path should be accepted");

    assert_eq!(result.action, PlanModeAction::Exited);
    assert_eq!(
        result.plan_path.as_deref(),
        Some("/workspace/.gemini/plans/plan.md")
    );
}

#[test]
fn exit_plan_mode_rejects_path_outside_plans_dir() {
    let cwd = "/workspace";
    let err = exit_plan_mode("plan.md", ".gemini/plans", cwd)
        .expect_err("plan path should be rejected");
    assert!(err.contains("Access denied"));
}

#[test]
fn enter_plan_mode_without_reason() {
    let result = enter_plan_mode(None);
    assert_eq!(result.message, "Switching to Plan mode");
    assert!(result.plan_path.is_none());
}

#[test]
fn exit_plan_mode_requires_a_path() {
    assert_eq!(
        exit_plan_mode("", "plans", "/w").err(),
        Some("plan_path is required".to_string())
    );
}

#[test]
fn exit_plan_mode_normalizes_dots() {
    let result = exit_plan_mode("./plans/../plans/./a.md", "plans/", "/w/x/..").unwrap();
    assert_eq!(result.plan_path.as_deref(), Some("/w/plans/a.md"));
    assert_eq!(
        result.message,
        "Plan approved from /w/plans/a.md. Returning to default approval mode."
    );
}

#[test]
fn exit_plan_mode_rejects_escape_with_parent_dirs() {
    let err = exit_plan_mode("plans/../../etc/passwd", "plans", "/w").unwrap_err();
    assert_eq!(err, "Access denied: plan path must be within the plans directory");
}

#[test]
fn exit_plan_mode_absolute_paths() {
    let ok = exit_plan_mode("/p/plans/x.md", "/p/plans", "/elsewhere").unwrap();
    assert_eq!(ok.plan_path.as_deref(), Some("/p/plans/x.md"));
    assert!(exit_plan_mode("/p/other/x.md", "/p/plans", "/elsewhere").is_err());
    // a prefix of a component name is not containment
    assert!(exit_plan_mode("/p/plans2/x.md", "/p/plans", "/").is_err());
}

#[test]
fn exit_plan_mode_relative_cwd() {
    let ok = exit_plan_mode("plans/x.md", "plans", "").unwrap();
    assert_eq!(ok.plan_path.as_deref(), Some("plans/x.md"));
}
