use remini::config::{resolve_settings, ApprovalMode, CliOverrides, Settings};

#[test]
fn parses_known_approval_modes() {
    assert_eq!(ApprovalMode::parse("default"), Some(ApprovalMode::Default));
    assert_eq!(
        ApprovalMode::parse("auto_edit"),
        Some(ApprovalMode::AutoEdit)
    );
    assert_eq!(ApprovalMode::parse("plan"), Some(ApprovalMode::Plan));
    assert_eq!(ApprovalMode::parse("yolo"), Some(ApprovalMode::Yolo));
}

#[test]
fn rejects_unknown_approval_mode() {
    assert_eq!(ApprovalMode::parse("unknown"), None);
}

#[test]
fn resolve_settings_uses_defaults_when_no_override() {
    let settings = Settings::default();
    let effective = resolve_settings(&settings, &CliOverrides::default());
    assert_eq!(effective.approval_mode, ApprovalMode::Default);
    assert!(!effective.sandbox_enabled);
}

#[test]
fn resolve_settings_prefers_cli_overrides() {
    let settings = Settings {
        default_approval_mode: ApprovalMode::Plan,
        sandbox_enabled: false,
    };
    let overrides = CliOverrides {
        approval_mode: Some(ApprovalMode::AutoEdit),
        sandbox_enabled: Some(true),
    };

    let effective = resolve_settings(&settings, &overrides);
    assert_eq!(effective.approval_mode, ApprovalMode::AutoEdit);
    assert!(effective.sandbox_enabled);
}

#[test]
fn approval_mode_names_round_trip() {
    for mode in [
        ApprovalMode::Default,
        ApprovalMode::AutoEdit,
        ApprovalMode::Plan,
        ApprovalMode::Yolo,
    ] {
        assert_eq!(ApprovalMode::parse(mode.as_str()), Some(mode));
    }
    assert_eq!(ApprovalMode::AutoEdit.as_str(), "auto_edit");
    assert_eq!(ApprovalMode::parse("Plan"), None);
    assert_eq!(ApprovalMode::parse(" plan"), None);
    assert_eq!(ApprovalMode::default(), ApprovalMode::Default);
}

#[test]
fn resolve_settings_keeps_unset_fields_from_settings() {
    let settings = Settings {
        default_approval_mode: ApprovalMode::Yolo,
        sandbox_enabled: true,
    };
    let overrides = CliOverrides {
        approval_mode: None,
        sandbox_enabled: Some(false),
    };
    let effective = resolve_settings(&settings, &overrides);
    assert_eq!(effective.approval_mode, ApprovalMode::Yolo);
    assert!(!effective.sandbox_enabled);
}
