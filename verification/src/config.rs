//! Approval modes and the settings that decide them.

use vstd::prelude::*;

verus! {

/// How much the assistant may do without asking.
#[derive(Debug, Clone, Copy, PartialEq, Eq, Structural)]
pub enum ApprovalMode {
    Default,
    AutoEdit,
    Plan,
    Yolo,
}

impl ApprovalMode {
    /// The name of a mode on the command line and in settings files.
    pub open spec fn name(self) -> Seq<char> {
        match self {
            ApprovalMode::Default => "default"@,
            ApprovalMode::AutoEdit => "auto_edit"@,
            ApprovalMode::Plan => "plan"@,
            ApprovalMode::Yolo => "yolo"@,
        }
    }

    /// The mode named `value`, if any.
    pub open spec fn named(value: Seq<char>) -> Option<ApprovalMode> {
        if value == "default"@ {
            Some(ApprovalMode::Default)
        } else if value == "auto_edit"@ {
            Some(ApprovalMode::AutoEdit)
        } else if value == "plan"@ {
            Some(ApprovalMode::Plan)
        } else if value == "yolo"@ {
            Some(ApprovalMode::Yolo)
        } else {
            None
        }
    }

    /// Parses a mode name; any other text gives `None`.
    pub fn parse(value: &str) -> (r: Option<Self>)
        ensures
            r == Self::named(value@),
    {
        let v = crate::text::chars_of(value);
        if crate::text::eq_lit(v.as_slice(), "default") {
            Some(ApprovalMode::Default)
        } else if crate::text::eq_lit(v.as_slice(), "auto_edit") {
            Some(ApprovalMode::AutoEdit)
        } else if crate::text::eq_lit(v.as_slice(), "plan") {
            Some(ApprovalMode::Plan)
        } else if crate::text::eq_lit(v.as_slice(), "yolo") {
            Some(ApprovalMode::Yolo)
        } else {
            None
        }
    }

    /// The name of the mode.
    pub fn as_str(&self) -> (s: &'static str)
        ensures
            s@ == self.name(),
    {
        match self {
            ApprovalMode::Default => "default",
            ApprovalMode::AutoEdit => "auto_edit",
            ApprovalMode::Plan => "plan",
            ApprovalMode::Yolo => "yolo",
        }
    }
}

/// Every mode's name parses back to that mode, and a name that parses to a
/// mode is that mode's name.
pub proof fn law_approval_mode_names_round_trip(m: ApprovalMode, value: Seq<char>)
    ensures
        ApprovalMode::named(m.name()) == Some(m),
        ApprovalMode::named(value) == Some(m) ==> m.name() == value,
{
    reveal_strlit("default");
    reveal_strlit("auto_edit");
    reveal_strlit("plan");
    reveal_strlit("yolo");
    assert("default"@.len() == 7);
    assert("auto_edit"@.len() == 9);
    assert("plan"@.len() == 4);
    assert("yolo"@.len() == 4);
    assert("plan"@[0] != "yolo"@[0]);
}

impl Default for ApprovalMode {
    fn default() -> (m: Self)
        ensures
            m == ApprovalMode::Default,
    {
        ApprovalMode::Default
    }
}

/// Settings as stored.
#[derive(Debug, Clone, Copy, PartialEq, Eq, Structural)]
pub struct Settings {
    pub default_approval_mode: ApprovalMode,
    pub sandbox_enabled: bool,
}

impl Default for Settings {
    fn default() -> (s: Self)
        ensures
            s.default_approval_mode == ApprovalMode::Default,
            !s.sandbox_enabled,
    {
        Settings { default_approval_mode: ApprovalMode::Default, sandbox_enabled: false }
    }
}

/// Values given on the command line, which win over the settings.
#[derive(Debug, Clone, Copy, PartialEq, Eq, Structural)]
pub struct CliOverrides {
    pub approval_mode: Option<ApprovalMode>,
    pub sandbox_enabled: Option<bool>,
}

impl Default for CliOverrides {
    fn default() -> (o: Self)
        ensures
            o.approval_mode.is_none(),
            o.sandbox_enabled.is_none(),
    {
        CliOverrides { approval_mode: None, sandbox_enabled: None }
    }
}

/// The settings in force.
#[derive(Debug, Clone, Copy, PartialEq, Eq, Structural)]
pub struct EffectiveSettings {
    pub approval_mode: ApprovalMode,
    pub sandbox_enabled: bool,
}

/// Each setting from the command line when given there, else from the
/// stored settings.
pub fn resolve_settings(settings: &Settings, overrides: &CliOverrides) -> (e: EffectiveSettings)
    ensures
        e.approval_mode == match overrides.approval_mode {
            Some(m) => m,
            None => settings.default_approval_mode,
        },
        e.sandbox_enabled == match overrides.sandbox_enabled {
            Some(b) => b,
            None => settings.sandbox_enabled,
        },
{
    EffectiveSettings {
        approval_mode: match overrides.approval_mode {
            Some(m) => m,
            None => settings.default_approval_mode,
        },
        sandbox_enabled: match overrides.sandbox_enabled {
            Some(b) => b,
            None => settings.sandbox_enabled,
        },
    }
}

} // verus!
