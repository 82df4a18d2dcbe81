use zedit::input::{Key, KeyEvent};
use zedit::keybindings::{parse_key_string, EditorAction, KeyBinding, KeyMap, NormalizedKey};
use zedit::syntax::json_parser::JsonValue;

#[test]
fn test_parse_ctrl_s() {
    let kb = parse_key_string("Ctrl+S").unwrap();
    assert_eq!(kb.key, NormalizedKey::Char('s'));
    assert!(kb.ctrl);
    assert!(!kb.alt);
    assert!(!kb.shift);
}

#[test]
fn test_parse_ctrl_shift_s() {
    let kb = parse_key_string("Ctrl+Shift+S").unwrap();
    assert_eq!(kb.key, NormalizedKey::Char('S'));
    assert!(kb.ctrl);
    assert!(!kb.alt);
    assert!(!kb.shift); // shift absorbed into case for Ctrl+letter
}

#[test]
fn test_parse_alt_z() {
    let kb = parse_key_string("Alt+Z").unwrap();
    assert_eq!(kb.key, NormalizedKey::Char('z'));
    assert!(!kb.ctrl);
    assert!(kb.alt);
    assert!(!kb.shift);
}

#[test]
fn test_parse_f3() {
    let kb = parse_key_string("F3").unwrap();
    assert_eq!(kb.key, NormalizedKey::F(3));
    assert!(!kb.ctrl);
    assert!(!kb.alt);
    assert!(!kb.shift);
}

#[test]
fn test_parse_shift_f3() {
    let kb = parse_key_string("Shift+F3").unwrap();
    assert_eq!(kb.key, NormalizedKey::F(3));
    assert!(!kb.ctrl);
    assert!(!kb.alt);
    assert!(kb.shift);
}

#[test]
fn test_parse_ctrl_pgdn() {
    let kb = parse_key_string("Ctrl+PgDn").unwrap();
    assert_eq!(kb.key, NormalizedKey::PageDown);
    assert!(kb.ctrl);
    assert!(!kb.alt);
    assert!(!kb.shift);
}

#[test]
fn test_parse_ctrl_backtick() {
    let kb = parse_key_string("Ctrl+`").unwrap();
    assert_eq!(kb.key, NormalizedKey::Char('`'));
    assert!(kb.ctrl);
}

#[test]
fn test_parse_shift_tab() {
    let kb = parse_key_string("Shift+Tab").unwrap();
    assert_eq!(kb.key, NormalizedKey::BackTab);
    assert!(kb.shift);
}

#[test]
fn test_parse_ctrl_backslash() {
    let kb = parse_key_string("Ctrl+\\").unwrap();
    assert_eq!(kb.key, NormalizedKey::Char('\\'));
    assert!(kb.ctrl);
}

#[test]
fn test_parse_alt_shift_left() {
    let kb = parse_key_string("Alt+Shift+Left").unwrap();
    assert_eq!(kb.key, NormalizedKey::Left);
    assert!(!kb.ctrl);
    assert!(kb.alt);
    assert!(kb.shift);
}

#[test]
fn test_display_roundtrip_ctrl_s() {
    let kb = parse_key_string("Ctrl+S").unwrap();
    let display = kb.to_display_string();
    assert_eq!(display, "Ctrl+S");
    let parsed_back = parse_key_string(&display).unwrap();
    assert_eq!(parsed_back, kb);
}

#[test]
fn test_display_roundtrip_ctrl_shift_s() {
    let kb = parse_key_string("Ctrl+Shift+S").unwrap();
    let display = kb.to_display_string();
    assert_eq!(display, "Ctrl+Shift+S");
}

#[test]
fn test_display_roundtrip_f3() {
    let kb = parse_key_string("F3").unwrap();
    let display = kb.to_display_string();
    assert_eq!(display, "F3");
    let parsed_back = parse_key_string(&display).unwrap();
    assert_eq!(parsed_back, kb);
}

#[test]
fn test_display_shift_f3() {
    let kb = parse_key_string("Shift+F3").unwrap();
    let display = kb.to_display_string();
    assert_eq!(display, "Shift+F3");
    let parsed_back = parse_key_string(&display).unwrap();
    assert_eq!(parsed_back, kb);
}

#[test]
fn test_default_keymap_lookup() {
    let km = KeyMap::defaults();
    let ke = KeyEvent {
        key: Key::Char('s'),
        ctrl: true,
        alt: false,
        shift: false,
    };
    assert_eq!(km.lookup(&ke), Some(EditorAction::Save));
}

#[test]
fn test_default_keymap_toggle_terminal() {
    let km = KeyMap::defaults();
    let ke = KeyEvent {
        key: Key::Char('t'),
        ctrl: true,
        alt: false,
        shift: false,
    };
    assert_eq!(km.lookup(&ke), Some(EditorAction::ToggleTerminal));
}

#[test]
fn test_default_keymap_label() {
    let km = KeyMap::defaults();
    let label = km.label(EditorAction::Save);
    assert_eq!(label, "Ctrl+S");
}

#[test]
fn test_from_key_event_ctrl_shift() {
    let ke = KeyEvent {
        key: Key::Char('S'),
        ctrl: true,
        alt: false,
        shift: false,
    };
    let kb = KeyBinding::from_key_event(&ke);
    let expected = parse_key_string("Ctrl+Shift+S").unwrap();
    assert_eq!(kb, expected);
}

#[test]
fn test_parse_case_insensitive_modifiers() {
    let kb = parse_key_string("ctrl+shift+s").unwrap();
    assert_eq!(kb.key, NormalizedKey::Char('S'));
    assert!(kb.ctrl);
}

#[test]
fn test_ctrl_slash_lookup() {
    let km = KeyMap::defaults();
    let ke = KeyEvent {
        key: Key::Char('/'),
        ctrl: true,
        alt: false,
        shift: false,
    };
    assert_eq!(km.lookup(&ke), Some(EditorAction::ToggleComment));
}

// ---------------------------------------------------------------------------

#[test]
fn test_user_override() {
    let json = r#"{"toggle_terminal": "F12"}"#;
    let val = JsonValue::parse(json).unwrap();
    let km = KeyMap::new(Some(&val));
    // F12 should now map to ToggleTerminal
    let ke = KeyEvent {
        key: Key::F(12),
        ctrl: false,
        alt: false,
        shift: false,
    };
    assert_eq!(km.lookup(&ke), Some(EditorAction::ToggleTerminal));
    // Old Ctrl+T should no longer map to ToggleTerminal
    let ke_old = KeyEvent {
        key: Key::Char('t'),
        ctrl: true,
        alt: false,
        shift: false,
    };
    assert_eq!(km.lookup(&ke_old), None);
}

#[test]
fn test_unknown_action_skipped() {
    let json = r#"{"nonexistent_action": "Ctrl+Z"}"#;
    let val = JsonValue::parse(json).unwrap();
    let km = KeyMap::new(Some(&val));
    // Ctrl+Z should still be Undo (not overridden by unknown action)
    let ke = KeyEvent {
        key: Key::Char('z'),
        ctrl: true,
        alt: false,
        shift: false,
    };
    assert_eq!(km.lookup(&ke), Some(EditorAction::Undo));
}

#[test]
fn override_label_follows_key() {
    let val = JsonValue::parse(r#"{"toggle_terminal": "F12", "save": 3, "undo": "Ctrl+Nope"}"#).unwrap();
    let km = KeyMap::new(Some(&val));
    assert_eq!(km.label(EditorAction::ToggleTerminal), "F12");
    let ke_s = KeyEvent { key: Key::Char('s'), ctrl: true, alt: false, shift: false };
    assert_eq!(km.lookup(&ke_s), Some(EditorAction::Save));
    let ke_z = KeyEvent { key: Key::Char('z'), ctrl: true, alt: false, shift: false };
    assert_eq!(km.lookup(&ke_z), Some(EditorAction::Undo));
}

#[test]
fn non_object_overrides_ignored() {
    let val = JsonValue::parse("[1, 2]").unwrap();
    let km = KeyMap::new(Some(&val));
    let ke_z = KeyEvent { key: Key::Char('z'), ctrl: true, alt: false, shift: false };
    assert_eq!(km.lookup(&ke_z), Some(EditorAction::Undo));
}

#[test]
fn parse_rejects_bad_strings() {
    assert_eq!(parse_key_string(""), None);
    assert_eq!(parse_key_string("   "), None);
    assert_eq!(parse_key_string("Hyper+S"), None);
    assert_eq!(parse_key_string("Ctrl+Foo"), None);
    assert_eq!(parse_key_string("Ctrl++"), None);
}

#[test]
fn parse_trims_and_names() {
    let kb = parse_key_string("  Ctrl + Space ").unwrap();
    assert_eq!(kb.key, NormalizedKey::Char(' '));
    assert!(kb.ctrl);
    assert_eq!(parse_key_string("Esc").unwrap().key, NormalizedKey::Escape);
    assert_eq!(parse_key_string("Return").unwrap().key, NormalizedKey::Enter);
    assert_eq!(parse_key_string("Shift+a").unwrap().key, NormalizedKey::Char('a'));
    assert_eq!(parse_key_string("A").unwrap().key, NormalizedKey::Char('a'));
}

#[test]
fn display_forms() {
    let kb = KeyBinding { key: NormalizedKey::PageUp, ctrl: true, alt: true, shift: true };
    assert_eq!(kb.to_display_string(), "Ctrl+Alt+Shift+PgUp");
    let kb = KeyBinding { key: NormalizedKey::F(10), ctrl: false, alt: false, shift: false };
    assert_eq!(kb.to_display_string(), "F10");
    let kb = KeyBinding { key: NormalizedKey::F(200), ctrl: false, alt: false, shift: false };
    assert_eq!(kb.to_display_string(), "F200");
    let kb = KeyBinding { key: NormalizedKey::BackTab, ctrl: false, alt: false, shift: true };
    assert_eq!(kb.to_display_string(), "Shift+Tab");
}

#[test]
fn backtab_event_implies_shift() {
    let ke = KeyEvent { key: Key::BackTab, ctrl: false, alt: false, shift: false };
    let km = KeyMap::default();
    assert_eq!(km.lookup(&ke), Some(EditorAction::Unindent));
}

#[test]
fn label_of_unbound_action_is_empty() {
    let km = KeyMap::defaults();
    assert_eq!(km.label(EditorAction::FocusFileTree), "");
    assert_eq!(km.label(EditorAction::SaveAs), "Ctrl+Shift+S");
}
