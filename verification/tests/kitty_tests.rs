use fzf_keys::keybind::Modifier;
use fzf_keys::kitty::{keybinds_from_records, parse_key_combination, parse_modifier, ShortcutRecord};

#[test]
fn kitty_test_parse_key_combination() {
    let (mods, key) = parse_key_combination("ctrl+shift+t").unwrap();
    assert_eq!(mods, vec![Modifier::Ctrl, Modifier::Shift]);
    assert_eq!(key, "t");
}

#[test]
fn kitty_test_parse_key_combination_no_modifiers() {
    let (mods, key) = parse_key_combination("f1").unwrap();
    assert_eq!(mods, vec![]);
    assert_eq!(key, "f1");
}

#[test]
fn test_parse_multi_key_sequence() {
    let (mods, key) = parse_key_combination("ctrl+f>2").unwrap();
    assert_eq!(mods, vec![Modifier::Ctrl]);
    assert_eq!(key, "f>2");
}

#[test]
fn test_parse_plus_key() {
    let (mods, key) = parse_key_combination("ctrl+shift++").unwrap();
    assert_eq!(mods, vec![Modifier::Ctrl, Modifier::Shift]);
    assert_eq!(key, "+");
}

#[test]
fn test_parse_kitty_mod() {
    let (mods, key) = parse_key_combination("kitty_mod+c").unwrap();
    assert_eq!(mods, vec![Modifier::Mod]);
    assert_eq!(key, "c");
}

#[test]
fn test_parse_modifier_case_insensitive() {
    assert_eq!(parse_modifier("CTRL").unwrap(), Modifier::Ctrl);
    assert_eq!(parse_modifier("Control").unwrap(), Modifier::Ctrl);
    assert_eq!(parse_modifier("Opt").unwrap(), Modifier::Alt);
    assert_eq!(parse_modifier("option").unwrap(), Modifier::Alt);
    assert_eq!(parse_modifier("CMD").unwrap(), Modifier::Super);
    assert_eq!(parse_modifier("command").unwrap(), Modifier::Super);
    assert_eq!(parse_modifier("Shift").unwrap(), Modifier::Shift);
}

#[test]
fn test_parse_modifier_unknown_token() {
    let err = parse_modifier("hyper").unwrap_err();
    assert_eq!(err.message(), "Unknown modifier: hyper");
}

#[test]
fn test_parse_uppercase_combination() {
    let (mods, key) = parse_key_combination("CTRL+ALT+Delete").unwrap();
    assert_eq!(mods, vec![Modifier::Ctrl, Modifier::Alt]);
    assert_eq!(key, "Delete");
}

#[test]
fn test_parse_plus_key_without_modifiers() {
    let (mods, key) = parse_key_combination("++").unwrap();
    assert_eq!(mods, vec![]);
    assert_eq!(key, "+");
}

#[test]
fn test_parse_chord_with_two_separators() {
    let (mods, key) = parse_key_combination("ctrl+a>b>c").unwrap();
    assert_eq!(mods, vec![Modifier::Ctrl]);
    assert_eq!(key, "a>b>c");
}

#[test]
fn test_unknown_modifier_in_combination() {
    let err = parse_key_combination("hyper+x").unwrap_err();
    assert_eq!(err.message(), "Unknown modifier: hyper");
}

fn record(key_repr: &str, action: &str) -> ShortcutRecord {
    ShortcutRecord {
        key_repr: key_repr.to_string(),
        action: action.to_string(),
    }
}

#[test]
fn test_records_expand_kitty_mod() {
    let records = vec![record("kitty_mod+c", "Copy to clipboard")];
    let keybinds = keybinds_from_records(&records, "ctrl+shift").unwrap();

    assert_eq!(keybinds.len(), 1);
    let kb = &keybinds[0];
    assert_eq!(kb.modifiers, vec![Modifier::Ctrl, Modifier::Shift]);
    assert_eq!(kb.key, "c");
    assert_eq!(kb.action, "Copy to clipboard");
    assert_eq!(kb.program, "kitty");
    assert_eq!(kb.description, None);
    assert_eq!(kb.repeat, None);
    assert_eq!(kb.cooldown_ms, None);
    assert_eq!(kb.render(), "Ctrl+Shift+c - Copy to clipboard [kitty]");
}

#[test]
fn test_records_unresolvable_token_aborts_whole_call() {
    let records = vec![
        record("ctrl+a", "First action"),
        record("hyper+b", "Second action"),
        record("ctrl+c", "Third action"),
    ];
    let result = keybinds_from_records(&records, "ctrl+shift");

    assert!(result.is_err());
    assert_eq!(result.unwrap_err().message(), "Unknown modifier: hyper");
}

#[test]
fn test_records_empty_batch() {
    let records: Vec<ShortcutRecord> = vec![];
    let keybinds = keybinds_from_records(&records, "ctrl+shift").unwrap();
    assert!(keybinds.is_empty());
}

#[test]
fn test_records_multiple_shapes() {
    let records = vec![
        record("kitty_mod++", "Increase font size"),
        record("ctrl+f>2", "Go to second window"),
        record("f5", "Reload"),
    ];
    let keybinds = keybinds_from_records(&records, "super").unwrap();

    assert_eq!(keybinds.len(), 3);
    assert_eq!(keybinds[0].modifiers, vec![Modifier::Super]);
    assert_eq!(keybinds[0].key, "+");
    assert_eq!(keybinds[1].modifiers, vec![Modifier::Ctrl]);
    assert_eq!(keybinds[1].key, "f>2");
    assert_eq!(keybinds[2].modifiers, vec![]);
    assert_eq!(keybinds[2].key, "f5");
}
