use fzf_keys::error::DiscoveryError;
use fzf_keys::keybind::{Keybind, Modifier};

fn plain(modifiers: Vec<Modifier>, key: &str, action: &str, description: Option<&str>) -> Keybind {
    Keybind {
        modifiers,
        key: key.to_string(),
        action: action.to_string(),
        description: description.map(|s| s.to_string()),
        program: "niri".to_string(),
        repeat: None,
        cooldown_ms: None,
        allow_when_locked: None,
        allow_inhibiting: None,
    }
}

#[test]
fn test_keybind_display() {
    let keybind = plain(
        vec![Modifier::Mod, Modifier::Shift],
        "T",
        "spawn-terminal",
        Some("Open Terminal"),
    );

    assert_eq!(keybind.render(), "Mod+Shift+T - Open Terminal [niri]");
}

#[test]
fn test_keybind_no_description() {
    let keybind = plain(vec![Modifier::Mod], "Q", "close-window", None);

    assert_eq!(keybind.render(), "Mod+Q - close-window [niri]");
}

#[test]
fn test_keybind_no_modifiers() {
    let keybind = plain(
        vec![],
        "XF86AudioRaiseVolume",
        "volume-up",
        Some("Increase Volume"),
    );

    assert_eq!(
        keybind.render(),
        "XF86AudioRaiseVolume - Increase Volume [niri]"
    );
}

#[test]
fn test_keybind_with_properties() {
    let keybind = Keybind {
        modifiers: vec![Modifier::Mod],
        key: "WheelScrollDown".to_string(),
        action: "focus-workspace-down".to_string(),
        description: None,
        program: "niri".to_string(),
        repeat: Some(false),
        cooldown_ms: Some(150),
        allow_when_locked: None,
        allow_inhibiting: None,
    };

    assert_eq!(
        keybind.render(),
        "Mod+WheelScrollDown - focus-workspace-down (no-repeat, cooldown=150ms) [niri]"
    );
}

#[test]
fn test_keybind_allow_when_locked() {
    let keybind = Keybind {
        modifiers: vec![],
        key: "XF86AudioRaiseVolume".to_string(),
        action: "spawn-sh".to_string(),
        description: Some("Volume Up".to_string()),
        program: "niri".to_string(),
        repeat: None,
        cooldown_ms: None,
        allow_when_locked: Some(true),
        allow_inhibiting: None,
    };

    assert_eq!(
        keybind.render(),
        "XF86AudioRaiseVolume - Volume Up (allow-locked) [niri]"
    );
}

#[test]
fn test_all_flags_in_fixed_order() {
    let keybind = Keybind {
        modifiers: vec![Modifier::Ctrl],
        key: "A".to_string(),
        action: "do-thing".to_string(),
        description: None,
        program: "niri".to_string(),
        repeat: Some(false),
        cooldown_ms: Some(500),
        allow_when_locked: Some(true),
        allow_inhibiting: Some(false),
    };

    assert_eq!(
        keybind.render(),
        "Ctrl+A - do-thing (no-repeat, cooldown=500ms, allow-locked, no-inhibit) [niri]"
    );
}

#[test]
fn test_no_flags_no_group() {
    let keybind = Keybind {
        modifiers: vec![Modifier::Mod],
        key: "X".to_string(),
        action: "quit".to_string(),
        description: None,
        program: "niri".to_string(),
        repeat: Some(true),
        cooldown_ms: None,
        allow_when_locked: Some(false),
        allow_inhibiting: Some(true),
    };

    assert_eq!(keybind.render(), "Mod+X - quit [niri]");
}

#[test]
fn test_description_replaces_action_only_in_display() {
    let with_desc = plain(vec![], "F1", "show-help", Some("Help"));
    let other_action = plain(vec![], "F1", "something-else", Some("Help"));

    assert_eq!(with_desc.render(), other_action.render());
    assert_eq!(with_desc.action, "show-help");
    assert_eq!(with_desc.render(), "F1 - Help [niri]");
}

#[test]
fn test_empty_modifiers_no_leading_plus() {
    let keybind = plain(vec![], "Escape", "close", None);

    assert!(keybind.render().starts_with("Escape"));
    assert!(!keybind.render().starts_with("+"));
}

#[test]
fn test_plus_key_renders() {
    let keybind = Keybind {
        modifiers: vec![Modifier::Ctrl, Modifier::Shift],
        key: "+".to_string(),
        action: "increase-font".to_string(),
        description: None,
        program: "kitty".to_string(),
        repeat: None,
        cooldown_ms: None,
        allow_when_locked: None,
        allow_inhibiting: None,
    };

    assert_eq!(keybind.render(), "Ctrl+Shift++ - increase-font [kitty]");
}

#[test]
fn test_iso_level_shift_names() {
    let keybind = plain(
        vec![Modifier::IsoLevel3Shift, Modifier::IsoLevel5Shift],
        "K",
        "noop",
        None,
    );

    assert_eq!(
        keybind.render(),
        "ISO_Level3_Shift+ISO_Level5_Shift+K - noop [niri]"
    );
}

#[test]
fn test_cooldown_max_value() {
    let keybind = Keybind {
        modifiers: vec![],
        key: "W".to_string(),
        action: "a".to_string(),
        description: None,
        program: "p".to_string(),
        repeat: None,
        cooldown_ms: Some(u64::MAX),
        allow_when_locked: None,
        allow_inhibiting: None,
    };

    assert_eq!(
        keybind.render(),
        "W - a (cooldown=18446744073709551615ms) [p]"
    );
}

#[test]
fn test_error_messages() {
    let e = DiscoveryError::UnknownModifier("Bogus".to_string());
    assert_eq!(e.message(), "Unknown modifier: Bogus");

    let e = DiscoveryError::ConfigParse("bad syntax".to_string());
    assert_eq!(e.message(), "Failed to parse config: bad syntax");
}
