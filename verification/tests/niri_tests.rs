use fzf_keys::keybind::Modifier;
use fzf_keys::niri::NiriSource;
use fzf_keys::source::Source;

const NIRI_CONFIG: &str = "\
input {\n\
    keyboard {\n\
        xkb {\n\
        }\n\
    }\n\
}\n\
\n\
binds {\n\
    Mod+Shift+Slash { show-hotkey-overlay; }\n\
    Mod+T hotkey-overlay-title=\"Open a Terminal: alacritty\" { spawn \"alacritty\"; }\n\
    Mod+Q { close-window; }\n\
    Mod+Shift+Ctrl+L { move-column-to-monitor-right; }\n\
    Mod+O repeat=#false { toggle-overview; }\n\
    Mod+WheelScrollDown cooldown-ms=150 { focus-workspace-down; }\n\
    Mod+Escape allow-inhibiting=#false { toggle-keyboard-shortcuts-inhibit; }\n\
    XF86AudioRaiseVolume allow-when-locked=#true { spawn \"wpctl\" \"set-volume\"; }\n\
}\n";

fn discover_all() -> Vec<fzf_keys::keybind::Keybind> {
    let source = NiriSource::new(NIRI_CONFIG.to_string());
    source.discover().expect("Failed to parse config")
}

#[test]
fn niri_test_parse_key_combination() {
    let (mods, key) = NiriSource::parse_key_combination("Mod+Shift+T").unwrap();
    assert_eq!(mods, vec![Modifier::Mod, Modifier::Shift]);
    assert_eq!(key, "T");
}

#[test]
fn niri_test_parse_key_combination_no_modifiers() {
    let (mods, key) = NiriSource::parse_key_combination("XF86AudioRaiseVolume").unwrap();
    assert_eq!(mods, vec![]);
    assert_eq!(key, "XF86AudioRaiseVolume");
}

#[test]
fn test_parse_key_combination_multiple_modifiers() {
    let (mods, key) = NiriSource::parse_key_combination("Mod+Shift+Ctrl+L").unwrap();
    assert_eq!(mods, vec![Modifier::Mod, Modifier::Shift, Modifier::Ctrl]);
    assert_eq!(key, "L");
}

#[test]
fn test_parse_niri_default_config() {
    let keybinds = discover_all();

    assert!(!keybinds.is_empty(), "Should find keybinds in config");

    println!("Found {} keybinds", keybinds.len());

    for keybind in keybinds.iter().take(5) {
        println!("{}", keybind.render());
    }
}

#[test]
fn test_niri_specific_keybinds() {
    let keybinds = discover_all();

    let hotkey_overlay = keybinds
        .iter()
        .find(|k| k.key == "Slash" && k.modifiers.contains(&Modifier::Mod));

    assert!(
        hotkey_overlay.is_some(),
        "Should find Mod+Shift+Slash keybind"
    );

    let hotkey = hotkey_overlay.unwrap();
    assert_eq!(hotkey.action, "show-hotkey-overlay");
    assert_eq!(hotkey.program, "niri");
}

#[test]
fn test_niri_keybind_with_description() {
    let keybinds = discover_all();

    let terminal_bind = keybinds
        .iter()
        .find(|k| k.key == "T" && k.modifiers.contains(&Modifier::Mod));

    assert!(terminal_bind.is_some(), "Should find Mod+T keybind");

    let keybind = terminal_bind.unwrap();
    assert!(keybind.description.is_some());
    assert!(keybind.description.as_ref().unwrap().contains("Terminal"));
}

#[test]
fn test_niri_special_keys() {
    let keybinds = discover_all();

    let volume_up = keybinds.iter().find(|k| k.key == "XF86AudioRaiseVolume");

    assert!(
        volume_up.is_some(),
        "Should find XF86AudioRaiseVolume keybind"
    );

    let keybind = volume_up.unwrap();
    assert_eq!(keybind.modifiers, vec![]);
    assert_eq!(keybind.program, "niri");
}

#[test]
fn test_niri_multiple_modifiers() {
    let keybinds = discover_all();

    let multi_mod = keybinds.iter().find(|k| {
        k.modifiers.contains(&Modifier::Mod)
            && k.modifiers.contains(&Modifier::Shift)
            && k.modifiers.contains(&Modifier::Ctrl)
    });

    assert!(multi_mod.is_some(), "Should find keybind with 3+ modifiers");
}

#[test]
fn test_niri_repeat_property() {
    let keybinds = discover_all();

    let overview_bind = keybinds
        .iter()
        .find(|k| k.key == "O" && k.modifiers.contains(&Modifier::Mod));

    assert!(overview_bind.is_some(), "Should find Mod+O keybind");
    assert_eq!(
        overview_bind.unwrap().repeat,
        Some(false),
        "Mod+O should have repeat=false"
    );
}

#[test]
fn test_niri_cooldown_property() {
    let keybinds = discover_all();

    let scroll_bind = keybinds.iter().find(|k| {
        k.key == "WheelScrollDown"
            && k.modifiers.contains(&Modifier::Mod)
            && !k.modifiers.contains(&Modifier::Ctrl)
    });

    assert!(
        scroll_bind.is_some(),
        "Should find Mod+WheelScrollDown keybind"
    );
    assert_eq!(
        scroll_bind.unwrap().cooldown_ms,
        Some(150),
        "Mod+WheelScrollDown should have cooldown-ms=150"
    );
}

#[test]
fn test_niri_allow_when_locked_property() {
    let keybinds = discover_all();

    let audio_bind = keybinds.iter().find(|k| k.key == "XF86AudioRaiseVolume");

    assert!(
        audio_bind.is_some(),
        "Should find XF86AudioRaiseVolume keybind"
    );
    assert_eq!(
        audio_bind.unwrap().allow_when_locked,
        Some(true),
        "XF86AudioRaiseVolume should have allow-when-locked=true"
    );
}

#[test]
fn test_niri_allow_inhibiting_property() {
    let keybinds = discover_all();

    let escape_bind = keybinds
        .iter()
        .find(|k| k.key == "Escape" && k.modifiers.contains(&Modifier::Mod));

    assert!(escape_bind.is_some(), "Should find Mod+Escape keybind");
    assert_eq!(
        escape_bind.unwrap().allow_inhibiting,
        Some(false),
        "Mod+Escape should have allow-inhibiting=false"
    );
}

#[test]
fn test_end_to_end_single_bind() {
    let config = "binds { Mod+Shift+T hotkey-overlay-title=\"Open Terminal\" { spawn \"foot\"; } }";
    let source = NiriSource::new(config.to_string());
    let keybinds = source.discover().unwrap();

    assert_eq!(keybinds.len(), 1);
    let kb = &keybinds[0];
    assert_eq!(kb.modifiers, vec![Modifier::Mod, Modifier::Shift]);
    assert_eq!(kb.key, "T");
    assert_eq!(kb.action, "spawn \"foot\"");
    assert_eq!(kb.description.as_deref(), Some("Open Terminal"));
    assert_eq!(kb.render(), "Mod+Shift+T - Open Terminal [niri]");
}

#[test]
fn test_end_to_end_no_repeat_annotation() {
    let config = "binds { Mod+O repeat=#false { toggle-overview; } }";
    let source = NiriSource::new(config.to_string());
    let keybinds = source.discover().unwrap();

    assert_eq!(keybinds.len(), 1);
    assert_eq!(keybinds[0].render(), "Mod+O - toggle-overview (no-repeat) [niri]");
}

#[test]
fn test_lowercase_children_excluded() {
    let config = "binds {\n\
        spawn { foo; }\n\
        Mod+T { spawn \"x\"; }\n\
        XF86AudioRaiseVolume { volume-up; }\n\
    }";
    let source = NiriSource::new(config.to_string());
    let keybinds = source.discover().unwrap();

    assert_eq!(keybinds.len(), 2);
    assert_eq!(keybinds[0].key, "T");
    assert_eq!(keybinds[1].key, "XF86AudioRaiseVolume");
}

#[test]
fn test_unknown_modifier_drops_only_that_node() {
    let config = "binds {\n\
        Bogus+T { spawn \"a\"; }\n\
        Mod+Q { close-window; }\n\
    }";
    let source = NiriSource::new(config.to_string());
    let keybinds = source.discover().unwrap();

    assert_eq!(keybinds.len(), 1);
    assert_eq!(keybinds[0].key, "Q");
}

#[test]
fn test_cooldown_out_of_range_left_absent() {
    let config = "binds {\n\
        Mod+A cooldown-ms=30000000000000000000 { a; }\n\
        Mod+B cooldown-ms=-5 { b; }\n\
    }";
    let source = NiriSource::new(config.to_string());
    let keybinds = source.discover().unwrap();

    assert_eq!(keybinds.len(), 2);
    assert_eq!(keybinds[0].cooldown_ms, None);
    assert_eq!(keybinds[1].cooldown_ms, None);
}

#[test]
fn test_action_args_and_props() {
    let config =
        "binds { Mod+D { spawn \"cmd\" count=5 wait=#true scale=1.5 extra=#null; } }";
    let source = NiriSource::new(config.to_string());
    let keybinds = source.discover().unwrap();

    assert_eq!(keybinds.len(), 1);
    assert_eq!(
        keybinds[0].action,
        "spawn \"cmd\" count=5 wait=true scale=1.5 extra=null"
    );
}

#[test]
fn test_multiple_actions_comma_joined() {
    let config = "binds { Mod+E { cmd-a; cmd-b \"x\"; } }";
    let source = NiriSource::new(config.to_string());
    let keybinds = source.discover().unwrap();

    assert_eq!(keybinds.len(), 1);
    assert_eq!(keybinds[0].action, "cmd-a, cmd-b \"x\"");
}

#[test]
fn test_bind_without_children_unknown_action() {
    let config = "binds { Mod+U; }";
    let source = NiriSource::new(config.to_string());
    let keybinds = source.discover().unwrap();

    assert_eq!(keybinds.len(), 1);
    assert_eq!(keybinds[0].action, "unknown");
}

#[test]
fn test_no_binds_section_is_empty_not_error() {
    let config = "input {\n    keyboard;\n}";
    let source = NiriSource::new(config.to_string());
    let keybinds = source.discover().unwrap();

    assert!(keybinds.is_empty());
}

#[test]
fn test_malformed_config_is_parse_error() {
    let config = "binds { Mod+T {";
    let source = NiriSource::new(config.to_string());
    let result = source.discover();

    assert!(result.is_err());
    let message = result.unwrap_err().message();
    assert!(message.starts_with("Failed to parse config: "));
}

#[test]
fn test_negative_integer_prop_rendering() {
    let config = "binds { Mod+G { set x=-3; } }";
    let source = NiriSource::new(config.to_string());
    let keybinds = source.discover().unwrap();

    assert_eq!(keybinds.len(), 1);
    assert_eq!(keybinds[0].action, "set x=-3");
}

#[test]
fn test_source_name() {
    let source = NiriSource::new(String::new());
    assert_eq!(source.name(), "niri");
}
