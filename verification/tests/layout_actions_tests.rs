use fanzyzones_kde::actions::{
    check_snap_target, delete_custom_layout, ensure_layout_exists, ensure_zone_exists,
    layout_from_editor, resolve_layout, snap_zone_target, upsert_layout, ActionError, EditorResult,
    EditorZone,
};
use fanzyzones_kde::config::Settings;
use fanzyzones_kde::layout::clamp_layout_index;

fn zone(x: f64, y: f64, width: f64, height: f64) -> EditorZone {
    EditorZone {
        x: Some(x.to_bits()),
        y: Some(y.to_bits()),
        width: Some(width.to_bits()),
        height: Some(height.to_bits()),
    }
}

#[test]
fn editor_result_upserts_and_activates_layout() {
    let mut settings = Settings::default();
    let before = settings.layouts.len();

    let layout = layout_from_editor(
        EditorResult {
            name: Some("My Layout".to_string()),
            id: None,
            zones: vec![zone(0.0, 0.0, 0.5, 1.0), zone(0.5, 0.0, 0.5, 1.0)],
        },
        1_700_000_000_123,
    )
    .unwrap();
    upsert_layout(&mut settings, layout);

    assert_eq!(settings.layouts.len(), before + 1);
    assert_eq!(settings.active_layout, before);
    assert!(!settings.layouts[before].is_built_in);
    assert_eq!(settings.layouts[before].name, "My Layout");
    assert_eq!(settings.layouts[before].zones.len(), 2);
}

#[test]
fn deleting_active_custom_layout_falls_back_to_first_layout() {
    let mut settings = Settings::default();
    let mut custom = settings.layouts[0].clone();
    custom.id = "custom.test".into();
    custom.name = "Temporary".into();
    custom.is_built_in = false;
    settings.layouts.push(custom);
    settings.active_layout = settings.layouts.len() - 1;

    let index = settings.active_layout;
    delete_custom_layout(&mut settings, index).unwrap();

    assert_eq!(settings.layouts.len(), 7);
    assert_eq!(settings.active_layout, 0);
}

#[test]
fn deleting_custom_layout_before_active_layout_shifts_active_index() {
    let mut settings = Settings {
        active_layout: 3,
        ..Settings::default()
    };
    let mut custom = settings.layouts[0].clone();
    custom.id = "custom.test".into();
    custom.name = "Temporary".into();
    custom.is_built_in = false;
    settings.layouts.insert(1, custom);

    delete_custom_layout(&mut settings, 1).unwrap();

    assert_eq!(settings.layouts.len(), 7);
    assert_eq!(settings.active_layout, 2);
}

#[test]
fn editor_layout_names_zones_and_generates_an_id() {
    let layout = layout_from_editor(
        EditorResult {
            name: Some("   ".to_string()),
            id: Some(String::new()),
            zones: vec![
                EditorZone { x: None, y: None, width: Some(0.25f64.to_bits()), height: None },
                zone(0.25, 0.0, 0.75, 1.0),
            ],
        },
        42,
    )
    .unwrap();
    assert_eq!(layout.name, "My Layout");
    assert_eq!(layout.id, "custom.42");
    assert_eq!(layout.padding, 0);
    assert_eq!(layout.zones[0].name, "Zone 1");
    assert_eq!(layout.zones[1].name, "Zone 2");
    assert_eq!(layout.zones[1].id, 1);
    assert_eq!(f64::from_bits(layout.zones[0].x), 0.0);
    assert_eq!(f64::from_bits(layout.zones[0].width), 0.25);
    assert_eq!(f64::from_bits(layout.zones[0].height), 0.0);
}

#[test]
fn editor_layout_without_zones_is_refused() {
    let result = layout_from_editor(
        EditorResult { name: Some("Empty".to_string()), id: Some("custom.1".into()), zones: vec![] },
        1,
    );
    let err = result.unwrap_err();
    assert_eq!(err, ActionError::NoZones);
    assert_eq!(err.message(), "layout editor returned no zones");
}

#[test]
fn upserting_an_existing_id_replaces_it_in_place() {
    let mut settings = Settings::default();
    let mut quarters = settings.layouts[4].clone();
    quarters.name = "My Quarters".into();
    upsert_layout(&mut settings, quarters);
    assert_eq!(settings.layouts.len(), 7);
    assert_eq!(settings.active_layout, 4);
    assert_eq!(settings.layouts[4].name, "My Quarters");
}

#[test]
fn built_in_layouts_cannot_be_deleted() {
    let mut settings = Settings::default();
    let err = delete_custom_layout(&mut settings, 0).unwrap_err();
    assert_eq!(err, ActionError::BuiltInLayout);
    assert_eq!(err.message(), "built-in layouts cannot be deleted");
    assert_eq!(settings.layouts.len(), 7);
}

#[test]
fn deleting_the_only_layout_restores_the_built_in_ones() {
    let mut settings = Settings::default();
    let mut custom = settings.layouts[0].clone();
    custom.id = "custom.only".into();
    custom.is_built_in = false;
    settings.layouts = vec![custom];
    settings.active_layout = 0;
    delete_custom_layout(&mut settings, 0).unwrap();
    assert_eq!(settings.layouts.len(), 7);
    assert_eq!(settings.active_layout, 0);
}

#[test]
fn missing_layouts_and_zones_are_reported() {
    let settings = Settings::default();
    let err = ensure_layout_exists(&settings, 7).unwrap_err();
    assert_eq!(err, ActionError::LayoutMissing { layout: 7 });
    assert_eq!(err.message(), "layout 8 does not exist");
    let err = ensure_zone_exists(&settings, 0, 2).unwrap_err();
    assert_eq!(err.message(), "zone 3 does not exist in Two Panes");
    assert!(ensure_zone_exists(&settings, 6, 8).is_ok());
    let err = check_snap_target(&settings, 0, 5).unwrap_err();
    assert_eq!(err, ActionError::ZoneIndexMissing { zone: 5 });
    assert_eq!(err.message(), "zone 6 does not exist");
}

#[test]
fn layouts_resolve_by_index_id_or_name_ignoring_case() {
    let settings = Settings::default();
    assert_eq!(resolve_layout(&settings, "3"), Ok(3));
    assert_eq!(resolve_layout(&settings, "builtin.quarters"), Ok(4));
    assert_eq!(resolve_layout(&settings, "TWO PANES"), Ok(0));
    assert_eq!(resolve_layout(&settings, "Grid 3X3"), Ok(6));
    let err = resolve_layout(&settings, "99").unwrap_err();
    assert_eq!(err, ActionError::UnknownLayout { input: "99".into() });
    assert_eq!(err.message(), "unknown layout '99'");
}

#[test]
fn snap_zone_numbers_start_at_one() {
    let settings = Settings { active_layout: 4, ..Settings::default() };
    let err = snap_zone_target(&settings, 0, None).unwrap_err();
    assert_eq!(err, ActionError::ZoneNumberZero);
    assert_eq!(err.message(), "zone must be 1 or greater");
    assert_eq!(snap_zone_target(&settings, 4, None), Ok((4, 3)));
    assert_eq!(snap_zone_target(&settings, 2, Some("two panes")), Ok((0, 1)));
    let err = snap_zone_target(&settings, 3, Some("two panes")).unwrap_err();
    assert_eq!(err.message(), "zone 3 does not exist in Two Panes");
    let err = snap_zone_target(&settings, 1, Some("nowhere")).unwrap_err();
    assert_eq!(err.message(), "unknown layout 'nowhere'");
}

#[test]
fn layout_index_is_clamped_to_the_last_layout() {
    let settings = Settings::default();
    assert_eq!(clamp_layout_index(3, &settings.layouts), 3);
    assert_eq!(clamp_layout_index(70, &settings.layouts), 6);
    assert_eq!(clamp_layout_index(5, &[]), 0);
}

#[test]
fn deleting_another_layout_keeps_the_active_one() {
    let mut settings = Settings { active_layout: 5, ..Settings::default() };
    let mut custom = settings.layouts[0].clone();
    custom.id = "custom.first".into();
    custom.is_built_in = false;
    settings.layouts.insert(2, custom);
    assert_eq!(settings.active_layout_name(), "Quarters");
    delete_custom_layout(&mut settings, 2).unwrap();
    assert_eq!(settings.active_layout, 4);
    assert_eq!(settings.active_layout_name(), "Quarters");
}
