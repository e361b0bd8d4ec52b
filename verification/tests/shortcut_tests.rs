use fanzyzones_kde::shortcuts::{
    action_name, bindings_from_infos, default_bindings_to_apply, foreign_shortcut_request,
    friendly_for_id, keycode_to_string, shortcut_defs, string_to_keycode, ALT, CTRL, KEY_1, KEY_C,
    KEY_F1, KEYPAD, KEY_LEFT, KEY_PGDOWN, KEY_PGUP, KEY_RIGHT, KEY_SPACE, META, SHIFT,
};

#[test]
fn shortcut_table_lists_zone_layout_and_fixed_actions() {
    let defs = shortcut_defs();
    assert_eq!(defs.len(), 25);
    assert_eq!(defs[0].id, "snap-zone-1");
    assert_eq!(defs[0].friendly, "Snap window to zone 1");
    assert_eq!(defs[0].default_key, CTRL | ALT | KEYPAD | KEY_1);
    assert_eq!(defs[8].id, "snap-zone-9");
    assert_eq!(defs[8].default_key, CTRL | ALT | KEYPAD | 0x39);
    assert_eq!(defs[9].id, "use-layout-1");
    assert_eq!(defs[17].friendly, "Use layout 9");
    assert_eq!(defs[17].default_key, META | SHIFT | 0x39);
    assert_eq!(defs[18].id, "next-zone");
    assert_eq!(defs[18].default_key, CTRL | ALT | KEY_RIGHT);
    assert_eq!(defs[19].default_key, CTRL | ALT | KEY_LEFT);
    assert_eq!(defs[20].default_key, META | SHIFT | KEY_PGDOWN);
    assert_eq!(defs[21].default_key, META | SHIFT | KEY_PGUP);
    assert_eq!(defs[22].friendly, "Snap focused window");
    assert_eq!(defs[23].default_key, META | KEY_SPACE);
    assert_eq!(defs[24].id, "toggle-overlay");
    assert_eq!(defs[24].friendly, "Toggle zone overlay");
    assert_eq!(defs[24].default_key, CTRL | ALT | KEY_C);
}

#[test]
fn key_codes_render_as_portable_sequences() {
    assert_eq!(keycode_to_string(META | CTRL | KEY_1), "Meta+Ctrl+1");
    assert_eq!(keycode_to_string(CTRL | ALT | KEYPAD | KEY_1), "Ctrl+Alt+Num+1");
    assert_eq!(keycode_to_string(CTRL | ALT | KEY_RIGHT), "Ctrl+Alt+Right");
    assert_eq!(keycode_to_string(META | SHIFT | KEY_PGDOWN), "Meta+Shift+PgDown");
    assert_eq!(keycode_to_string(META | KEY_SPACE), "Meta+Space");
    assert_eq!(keycode_to_string(CTRL | ALT | KEY_C), "Ctrl+Alt+C");
    assert_eq!(keycode_to_string(SHIFT | (KEY_F1 + 11)), "Shift+F12");
    assert_eq!(keycode_to_string(0x41), "A");
    assert_eq!(keycode_to_string(0), "");
    assert_eq!(keycode_to_string(META | 0x2a), "");
}

#[test]
fn sequences_parse_in_any_order_and_case() {
    assert_eq!(string_to_keycode("Meta+Ctrl+1"), Some(META | CTRL | KEY_1));
    assert_eq!(string_to_keycode("  ctrl + META + 1 "), Some(META | CTRL | KEY_1));
    assert_eq!(string_to_keycode("Super+Shift+Page Up"), Some(META | SHIFT | KEY_PGUP));
    assert_eq!(string_to_keycode("control+alt+pagedown"), Some(CTRL | ALT | KEY_PGDOWN));
    assert_eq!(string_to_keycode("Alt+f5"), Some(ALT | (KEY_F1 + 4)));
    assert_eq!(string_to_keycode("Ctrl+Alt+Num+7"), Some(CTRL | ALT | KEYPAD | 0x37));
    assert_eq!(string_to_keycode("x"), Some(0x58));
    assert_eq!(string_to_keycode("f"), Some(0x46));
    assert_eq!(string_to_keycode("Meta+F13"), None);
    assert_eq!(string_to_keycode("Meta"), None);
    assert_eq!(string_to_keycode("   "), None);
    assert_eq!(string_to_keycode("Ctrl+é"), None);
    assert_eq!(string_to_keycode("Ctrl+#"), None);
}

#[test]
fn every_default_key_reads_back_from_its_text() {
    for def in shortcut_defs() {
        let text = keycode_to_string(def.default_key);
        assert!(!text.is_empty());
        assert_eq!(string_to_keycode(&text), Some(def.default_key));
    }
}

#[test]
fn key_text_round_trips_without_the_high_bits() {
    let key = 0x4000_0000 | META | 0x5a;
    assert_eq!(keycode_to_string(key), "Meta+Z");
    assert_eq!(string_to_keycode(&keycode_to_string(key)), Some(key & 0x3FFF_FFFF));
}

#[test]
fn actions_are_found_by_id() {
    assert_eq!(friendly_for_id("use-layout-3"), Some("Use layout 3".to_string()));
    assert_eq!(friendly_for_id("snap-all"), Some("Snap all windows".to_string()));
    assert_eq!(friendly_for_id("no-such-action"), None);
    assert_eq!(action_name("Next layout"), "FanzyZones: Next layout");
}

#[test]
fn only_unbound_actions_get_their_default_keys() {
    let mut current: Vec<(String, String, String)> = shortcut_defs()
        .into_iter()
        .map(|d| (d.id.to_string(), d.friendly.clone(), "Meta+X".to_string()))
        .collect();
    current[2].2 = String::new();
    current.remove(24);
    let pending = default_bindings_to_apply(&current);
    assert_eq!(
        pending,
        vec![
            ("Snap window to zone 3".to_string(), "Ctrl+Alt+Num+3".to_string()),
            ("Toggle zone overlay".to_string(), "Ctrl+Alt+C".to_string()),
        ]
    );
}

#[test]
fn bindings_are_read_from_the_first_matching_action() {
    let infos = vec![
        ("FanzyZones: Snap all windows".to_string(), vec![META | KEY_SPACE, CTRL | KEY_SPACE]),
        ("FanzyZones: Next layout".to_string(), vec![]),
        ("FanzyZones: Snap all windows".to_string(), vec![CTRL | KEY_C]),
    ];
    let bindings = bindings_from_infos(&infos);
    assert_eq!(bindings.len(), 25);
    assert_eq!(
        bindings[23],
        ("snap-all".to_string(), "Snap all windows".to_string(), "Meta+Space".to_string())
    );
    assert_eq!(bindings[20].2, "");
    assert_eq!(bindings[0].2, "");
}

#[test]
fn foreign_shortcut_requests_name_the_kwin_action() {
    let (id, keys) = foreign_shortcut_request("Next layout", "Meta+Shift+PgDown");
    assert_eq!(
        id,
        vec![
            "kwin".to_string(),
            "FanzyZones: Next layout".to_string(),
            "KWin".to_string(),
            "FanzyZones: Next layout".to_string(),
        ]
    );
    assert_eq!(keys, vec![META | SHIFT | KEY_PGDOWN]);
    let (_, keys) = foreign_shortcut_request("Next layout", "");
    assert!(keys.is_empty());
}

#[test]
fn modifiers_may_come_after_the_key() {
    assert_eq!(string_to_keycode("1+Shift+Meta"), Some(META | SHIFT | KEY_1));
    assert_eq!(string_to_keycode("Left+alt+ctrl"), Some(CTRL | ALT | KEY_LEFT));
    assert_eq!(string_to_keycode("Up+Down"), string_to_keycode("Down"));
}

#[test]
fn token_order_case_and_padding_do_not_matter() {
    let expected = Some(META | SHIFT | ALT | 0x33);
    assert_eq!(string_to_keycode("Meta+Shift+Alt+3"), expected);
    assert_eq!(string_to_keycode("3 + ALT+ shift +meta"), expected);
    assert_eq!(string_to_keycode("sHiFt+3+Alt+Super"), expected);
}

#[test]
fn joined_tokens_read_the_same_in_any_order() {
    assert_eq!(string_to_keycode(" Num +ctrl+ 5+ALT"), string_to_keycode("Ctrl+Alt+Num+5"));
    assert_eq!(string_to_keycode("Ctrl+Alt+Num+5"), Some(CTRL | ALT | KEYPAD | 0x35));
}
