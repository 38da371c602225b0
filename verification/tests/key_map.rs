use nexterm_client::key_map::{
    char_to_keycode, config_key_matches, config_key_matches_token, format_key_event,
    key_str_to_keycode, keycode_to_key_str, physical_to_proto_key, winit_code_to_char, KeyCode,
    ModifiersState, PhysicalKey, ProtoKeyCode,
};

fn mods_none() -> ModifiersState {
    ModifiersState::empty()
}

fn mods_ctrl() -> ModifiersState {
    ModifiersState { shift: false, control: true, alt: false, meta: false }
}

fn mods_ctrl_shift() -> ModifiersState {
    ModifiersState { shift: true, control: true, alt: false, meta: false }
}

fn mods_shift() -> ModifiersState {
    ModifiersState { shift: true, control: false, alt: false, meta: false }
}

fn mods_all() -> ModifiersState {
    ModifiersState { shift: true, control: true, alt: true, meta: true }
}

#[test]
fn single_ctrl_shift_p_matches_ctrl_shift_p_press() {
    assert!(config_key_matches("ctrl+shift+p", KeyCode::KeyP, mods_ctrl_shift()));
}

#[test]
fn single_ctrl_b_matches_ctrl_b_press() {
    assert!(config_key_matches("ctrl+b", KeyCode::KeyB, mods_ctrl()));
}

#[test]
fn single_ctrl_b_does_not_match_bare_b_press() {
    assert!(!config_key_matches("ctrl+b", KeyCode::KeyB, mods_none()));
}

#[test]
fn prefix_binding_ctrl_b_d_does_not_match_bare_d() {
    assert!(!config_key_matches("ctrl+b d", KeyCode::KeyD, mods_none()));
}

#[test]
fn prefix_binding_ctrl_b_pct_does_not_match_bare_5() {
    assert!(!config_key_matches("ctrl+b %", KeyCode::Digit5, mods_none()));
}

#[test]
fn prefix_binding_ctrl_b_d_does_not_match_ctrl_b() {
    assert!(!config_key_matches("ctrl+b d", KeyCode::KeyB, mods_ctrl()));
}

#[test]
fn prefix_binding_leader_d_does_not_match_bare_d() {
    assert!(!config_key_matches("ctrl+b d", KeyCode::KeyD, mods_none()));
}

#[test]
fn empty_string_returns_false() {
    assert!(!config_key_matches("", KeyCode::KeyA, mods_none()));
}

#[test]
fn whitespace_only_returns_false() {
    assert!(!config_key_matches("   ", KeyCode::KeyA, mods_none()));
}

#[test]
fn modifier_mismatch_returns_false() {
    assert!(!config_key_matches("ctrl+shift+p", KeyCode::KeyP, mods_ctrl()));
}

#[test]
fn extra_modifier_returns_false() {
    assert!(!config_key_matches("ctrl+p", KeyCode::KeyP, mods_ctrl_shift()));
}

#[test]
fn token_helper_matches_ctrl_p_when_ctrl_p_pressed() {
    assert!(config_key_matches_token("ctrl+p", KeyCode::KeyP, mods_ctrl()));
}

#[test]
fn token_helper_returns_false_when_main_key_has_surrounding_spaces() {
    assert!(!config_key_matches_token(" ctrl+p ", KeyCode::KeyP, mods_ctrl()));
}

#[test]
fn format_plain_letter() {
    assert_eq!(format_key_event(KeyCode::KeyA, mods_none()), Some("a".to_string()));
}

#[test]
fn format_ctrl_shift_p() {
    assert_eq!(
        format_key_event(KeyCode::KeyP, mods_ctrl_shift()),
        Some("ctrl+shift+p".to_string())
    );
}

#[test]
fn format_function_key_with_shift() {
    assert_eq!(format_key_event(KeyCode::F5, mods_shift()), Some("shift+f5".to_string()));
}

#[test]
fn format_all_modifiers_canonical_order() {
    assert_eq!(
        format_key_event(KeyCode::KeyZ, mods_all()),
        Some("ctrl+shift+alt+meta+z".to_string())
    );
}

#[test]
fn format_round_trips_through_config_key_matches() {
    let formatted = format_key_event(KeyCode::KeyP, mods_ctrl_shift()).expect("formatted");
    assert!(config_key_matches(&formatted, KeyCode::KeyP, mods_ctrl_shift()));
}

#[test]
fn format_returns_none_for_unsupported_keycode() {
    assert_eq!(format_key_event(KeyCode::ContextMenu, mods_none()), None);
}

// --- further cases ---

#[test]
fn modifier_aliases_and_case_are_accepted() {
    let all = mods_all();
    assert!(config_key_matches("Control+SHIFT+Option+Command+z", KeyCode::KeyZ, all));
    assert!(config_key_matches("ctrl+shift+alt+super+z", KeyCode::KeyZ, all));
    assert!(config_key_matches("ctrl+shift+alt+cmd+z", KeyCode::KeyZ, all));
}

#[test]
fn unknown_modifier_words_are_ignored() {
    assert!(config_key_matches("hyper+ctrl+p", KeyCode::KeyP, mods_ctrl()));
}

#[test]
fn special_key_names_match_in_any_case() {
    assert!(config_key_matches("ctrl+PageUp", KeyCode::PageUp, mods_ctrl()));
    assert!(config_key_matches("Return", KeyCode::Enter, mods_none()));
    assert!(config_key_matches("esc", KeyCode::Escape, mods_none()));
    assert!(config_key_matches("  F12  ", KeyCode::F12, mods_none()));
    assert!(!config_key_matches("ctrl+", KeyCode::KeyP, mods_ctrl()));
}

#[test]
fn non_ascii_key_names_go_through_unicode_lowercase() {
    // U+212A KELVIN SIGN lowercases to an ASCII `k`.
    assert!(config_key_matches("ba\u{63}\u{212A}space", KeyCode::Backspace, mods_none()));
    assert_eq!(key_str_to_keycode("\u{212A}"), None);
}

#[test]
fn key_str_to_keycode_cases() {
    assert_eq!(key_str_to_keycode("P"), Some(KeyCode::KeyP));
    assert_eq!(key_str_to_keycode("%"), Some(KeyCode::Digit5));
    assert_eq!(key_str_to_keycode("del"), Some(KeyCode::Delete));
    assert_eq!(key_str_to_keycode("f10"), Some(KeyCode::F10));
    assert_eq!(key_str_to_keycode(""), None);
    assert_eq!(key_str_to_keycode("é"), None);
    assert_eq!(key_str_to_keycode("ab"), None);
}

#[test]
fn char_and_name_tables() {
    assert_eq!(char_to_keycode('\''), Some(KeyCode::Quote));
    assert_eq!(char_to_keycode('`'), Some(KeyCode::Backquote));
    assert_eq!(char_to_keycode('!'), None);
    assert_eq!(keycode_to_key_str(KeyCode::PageDown), Some("pagedown"));
    assert_eq!(keycode_to_key_str(KeyCode::Quote), None);
    assert_eq!(winit_code_to_char(KeyCode::KeyQ), Some('q'));
    assert_eq!(winit_code_to_char(KeyCode::Digit1), None);
}

#[test]
fn physical_keys_map_to_protocol_keys() {
    let none = mods_none();
    assert_eq!(physical_to_proto_key(PhysicalKey::Code(KeyCode::Tab), none), Some(ProtoKeyCode::Tab));
    assert_eq!(
        physical_to_proto_key(PhysicalKey::Code(KeyCode::Tab), mods_shift()),
        Some(ProtoKeyCode::BackTab)
    );
    assert_eq!(physical_to_proto_key(PhysicalKey::Code(KeyCode::F7), none), Some(ProtoKeyCode::F(7)));
    assert_eq!(physical_to_proto_key(PhysicalKey::Code(KeyCode::KeyC), none), None);
    assert_eq!(
        physical_to_proto_key(PhysicalKey::Code(KeyCode::KeyC), mods_ctrl()),
        Some(ProtoKeyCode::Char('c'))
    );
    assert_eq!(physical_to_proto_key(PhysicalKey::Code(KeyCode::Digit1), mods_ctrl()), None);
    assert_eq!(physical_to_proto_key(PhysicalKey::Unidentified, mods_ctrl()), None);
}

#[test]
fn every_formatted_binding_matches_its_press() {
    let codes = [KeyCode::KeyA, KeyCode::Digit0, KeyCode::Space, KeyCode::ArrowLeft, KeyCode::F11];
    for code in codes {
        for bits in 0u8..16 {
            let mods = ModifiersState {
                control: bits & 1 != 0,
                shift: bits & 2 != 0,
                alt: bits & 4 != 0,
                meta: bits & 8 != 0,
            };
            let s = format_key_event(code, mods).expect("named key");
            assert!(config_key_matches(&s, code, mods), "{s}");
        }
    }
}

#[test]
fn any_unicode_whitespace_separates_words() {
    assert!(!config_key_matches("ctrl+b\td", KeyCode::KeyD, mods_none()));
    assert!(!config_key_matches("ctrl+b\u{3000}d", KeyCode::KeyD, mods_none()));
    assert!(config_key_matches("\u{3000}ctrl+d\n", KeyCode::KeyD, mods_ctrl()));
}
