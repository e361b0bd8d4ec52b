use fanzyzones_kde::kconfig::{
    append_csv_item, cli_wrapper_script, kconfig_value, kwriteconfig_args, shell_quote,
    split_kconfig_group, system_tray_general_groups, tray_config_updates,
};

const APPLETSRC: &str = "[Containments][7]\r\nplugin=org.kde.panel\n\n[Containments][7][Applets][12]\n  plugin=org.kde.plasma.systemtray  \n\n[Containments][7][Applets][12][General]\nextraItems=org.kde.a, org.kde.b\nknownItems=org.kde.a,com.benwbooth.fanzyzones\n[Containments][9][Applets][3]\nplugin=org.kde.plasma.systemtray\n";

fn strings(v: &[&str]) -> Vec<String> {
    v.iter().map(|s| s.to_string()).collect()
}

#[test]
fn group_paths_split_on_closing_and_opening_brackets() {
    assert_eq!(split_kconfig_group("Containments][7][Applets"), strings(&["Containments", "7", "Applets"]));
    assert_eq!(split_kconfig_group(""), strings(&[""]));
    assert_eq!(split_kconfig_group("]]["), strings(&["]", ""]));
}

#[test]
fn system_tray_groups_are_found_with_their_general_group() {
    assert_eq!(
        system_tray_general_groups(APPLETSRC),
        vec![
            strings(&["Containments", "7", "Applets", "12", "General"]),
            strings(&["Containments", "9", "Applets", "3", "General"]),
        ]
    );
}

#[test]
fn values_are_read_from_their_group_only() {
    let general = strings(&["Containments", "7", "Applets", "12", "General"]);
    assert_eq!(kconfig_value(APPLETSRC, &general, "extraItems"), Some("org.kde.a, org.kde.b".to_string()));
    assert_eq!(kconfig_value(APPLETSRC, &general, "missing"), None);
    let panel = strings(&["Containments", "7"]);
    assert_eq!(kconfig_value(APPLETSRC, &panel, "plugin"), Some("org.kde.panel".to_string()));
    assert_eq!(kconfig_value(APPLETSRC, &panel, "extraItems"), None);
}

#[test]
fn items_are_appended_once() {
    assert_eq!(append_csv_item("org.kde.a, org.kde.b", "x"), "org.kde.a,org.kde.b,x");
    assert_eq!(append_csv_item(" ,a,,b ", "a"), "a,b");
    assert_eq!(append_csv_item("", "x"), "x");
    let once = append_csv_item(" q ,, r", "s");
    assert_eq!(append_csv_item(&once, "s"), once);
}

#[test]
fn tray_updates_only_write_lists_that_change() {
    let updates = tray_config_updates(APPLETSRC, "com.benwbooth.fanzyzones");
    let general = strings(&["Containments", "7", "Applets", "12", "General"]);
    let other = strings(&["Containments", "9", "Applets", "3", "General"]);
    assert_eq!(
        updates,
        vec![
            (general, "extraItems".to_string(), "org.kde.a,org.kde.b,com.benwbooth.fanzyzones".to_string()),
            (other.clone(), "extraItems".to_string(), "com.benwbooth.fanzyzones".to_string()),
            (other, "knownItems".to_string(), "com.benwbooth.fanzyzones".to_string()),
        ]
    );
}

#[test]
fn kwriteconfig_arguments_name_each_group() {
    assert_eq!(
        kwriteconfig_args(&strings(&["Containments", "7"]), "extraItems", "a,b"),
        strings(&[
            "--file",
            "plasma-org.kde.plasma.desktop-appletsrc",
            "--group",
            "Containments",
            "--group",
            "7",
            "--key",
            "extraItems",
            "a,b",
        ])
    );
}

#[test]
fn shell_quoting_escapes_single_quotes() {
    assert_eq!(shell_quote("plain"), "'plain'");
    assert_eq!(shell_quote("it's"), "'it'\\''s'");
    assert_eq!(shell_quote(""), "''");
}

#[test]
fn wrapper_script_exports_then_execs() {
    let env = vec![("A".to_string(), "/x y".to_string()), ("B".to_string(), "o'k".to_string())];
    assert_eq!(
        cli_wrapper_script(&env, "/bin/fz"),
        "#!/bin/sh\nexport A='/x y'\nexport B='o'\\''k'\nexec '/bin/fz' \"$@\"\n"
    );
}

#[test]
fn tray_script_names_the_applet_everywhere() {
    let script = fanzyzones_kde::kconfig::plasmashell_tray_script("com.benwbooth.fanzyzones");
    assert!(!script.contains("__FANZY_PLASMOID_ID__"));
    assert_eq!(script.matches("'com.benwbooth.fanzyzones'").count(), 4);
    assert!(script.contains("if (extra.indexOf('com.benwbooth.fanzyzones') < 0) extra.push('com.benwbooth.fanzyzones');"));
}

#[test]
fn replacing_text_is_left_to_right_without_overlaps() {
    let chars = |s: &str| s.chars().collect::<Vec<char>>();
    let r = fanzyzones_kde::text::replace_chars(&chars("aaa-aa"), &chars("aa"), &chars("b"));
    assert_eq!(r.into_iter().collect::<String>(), "ba-b");
    let r = fanzyzones_kde::text::replace_chars(&chars("xyz"), &chars("q"), &chars("w"));
    assert_eq!(r.into_iter().collect::<String>(), "xyz");
}
