use fanzyzones_kde::config::{
    application_name, project_qualifier, settings_file_name, settings_path, Settings, SnapMode,
    MAX_OVERLAY_OPACITY,
};
use fanzyzones_kde::layout::built_in_layouts;

#[test]
fn default_settings_have_real_layouts() {
    let settings = Settings::default();
    assert_eq!(settings.layouts.len(), 7);
    assert_eq!(settings.active_layout_name(), "Two Panes");
    assert_eq!(settings.gap, 0);
    assert!(settings.dynamic_workspaces);
    assert!(settings.macsimize_fullscreen);
}

#[test]
fn normalize_rebuilds_missing_layouts_and_dedupes_skip_classes() {
    let mut settings = Settings {
        layouts: vec![],
        active_layout: 99,
        skipped_window_classes: vec![" Firefox ".into(), "firefox".into(), "".into()],
        ..Settings::default()
    };
    settings.normalize();
    assert_eq!(settings.active_layout, 0);
    assert_eq!(settings.layouts.len(), 7);
    assert_eq!(settings.skipped_window_classes, vec!["firefox"]);
}

#[test]
fn built_in_layouts_match_expected_count() {
    assert_eq!(built_in_layouts().len(), 7);
    assert_eq!(built_in_layouts()[6].zones.len(), 9);
    assert_eq!(built_in_layouts()[1].name, "Two Panes (Wide + Side)");
    assert_eq!(built_in_layouts()[5].name, "Priority (Left Focus)");
}

#[test]
fn built_in_zone_fractions_are_the_documented_values() {
    let layouts = built_in_layouts();
    let side = &layouts[1].zones[1];
    assert_eq!(f64::from_bits(side.x), 0.7);
    assert_eq!(f64::from_bits(side.width), 0.3);
    let grid = &layouts[6].zones[4];
    assert_eq!(grid.name, "Zone 5");
    assert_eq!(f64::from_bits(grid.x), 1.0 / 3.0);
    assert_eq!(f64::from_bits(grid.y), 1.0 / 3.0);
}

#[test]
fn normalize_clamps_opacity_like_f64_clamp() {
    for value in [2.0f64, -1.0, 0.5, 0.05, 0.95, 0.0, -0.0, f64::INFINITY, f64::NEG_INFINITY, 0.3] {
        let mut settings = Settings { overlay_opacity: value.to_bits(), ..Settings::default() };
        settings.normalize();
        assert_eq!(settings.overlay_opacity, value.clamp(0.05, 0.95).to_bits());
    }
    let mut settings = Settings { overlay_opacity: f64::NAN.to_bits(), ..Settings::default() };
    settings.normalize();
    assert!(f64::from_bits(settings.overlay_opacity).is_nan());
    let mut settings = Settings { overlay_opacity: 7.5f64.to_bits(), ..Settings::default() };
    settings.normalize();
    assert_eq!(settings.overlay_opacity, MAX_OVERLAY_OPACITY);
}

#[test]
fn normalize_keeps_the_active_layout_first_in_the_mru_list() {
    let mut settings = Settings {
        active_layout: 2,
        layout_mru: vec![
            "builtin.quarters".into(),
            "missing.layout".into(),
            "builtin.quarters".into(),
        ],
        ..Settings::default()
    };
    settings.normalize();
    assert_eq!(
        settings.layout_mru,
        vec!["builtin.three-panes".to_string(), "builtin.quarters".to_string()]
    );
}

#[test]
fn normalize_fixes_negative_gaps_and_trigger_distance() {
    let mut settings = Settings {
        gap: -4,
        outer_padding: -1,
        snap_trigger_distance: 0,
        ..Settings::default()
    };
    settings.normalize();
    assert_eq!(settings.gap, 0);
    assert_eq!(settings.outer_padding, 0);
    assert_eq!(settings.snap_trigger_distance, 1);
}

#[test]
fn normalizing_twice_changes_nothing_more() {
    let mut settings = Settings {
        active_layout: 42,
        skipped_window_classes: vec!["  Plasmashell".into(), "krunner ".into(), "KRunner".into()],
        display_layouts: vec![("DP-1".into(), "gone".into()), ("HDMI-1".into(), "builtin.quarters".into())],
        ..Settings::default()
    };
    settings.normalize();
    let once = format!("{:?}", settings);
    settings.normalize();
    assert_eq!(format!("{:?}", settings), once);
    assert_eq!(settings.display_layouts, vec![("HDMI-1".to_string(), "builtin.quarters".to_string())]);
}

#[test]
fn default_snap_mode_is_modifier() {
    assert_eq!(Settings::default().snap_mode, SnapMode::Modifier);
}

#[test]
fn settings_path_names_the_settings_file() {
    if let Some(path) = settings_path() {
        assert!(path.ends_with("fanzyzones-kde/settings.json"));
    }
}

#[test]
fn settings_live_in_the_application_config_dir() {
    assert_eq!(application_name(), "fanzyzones-kde");
    assert_eq!(project_qualifier(), ("", ""));
    assert_eq!(settings_file_name(), "settings.json");
}

#[test]
fn no_settings_path_without_directories() {
    assert!(fanzyzones_kde::config::settings_path_in(None).is_none());
}
