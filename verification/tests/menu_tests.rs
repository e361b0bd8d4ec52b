use fanzyzones_kde::actions::{ActionError, EditorResult, EditorZone};
use fanzyzones_kde::backend::{editor_input_json, set_editor_input, submit_editor_result, take_editor_result};
use fanzyzones_kde::config::{Settings, SnapMode};
use fanzyzones_kde::menu::{is_debug_placement_payload, plan_visual_menu_action, MenuEffect, VisualMenuAction};
use fanzyzones_kde::tray::{tray_command, tray_tool_tip};

#[test]
fn choosing_a_layout_for_a_display_assigns_it_there_only() {
    let mut settings = Settings::default();
    let plan = plan_visual_menu_action(
        &mut settings,
        VisualMenuAction::SetLayout { layout: 2, display: Some("DP-1".into()) },
    )
    .unwrap();
    assert_eq!(settings.active_layout, 0);
    assert_eq!(settings.display_layouts, vec![("DP-1".to_string(), "builtin.three-panes".to_string())]);
    assert_eq!(
        plan.effects,
        vec![
            MenuEffect::SaveSettings,
            MenuEffect::WriteSettings,
            MenuEffect::SetRuntimeLayoutOrReloadKwin { layout: 2 },
        ]
    );
    assert!(!plan.quit);
}

#[test]
fn refused_actions_leave_the_settings_alone() {
    let mut settings = Settings::default();
    let before = format!("{:?}", settings);
    let err = plan_visual_menu_action(&mut settings, VisualMenuAction::Snap { layout: 0, zone: 9 })
        .err()
        .unwrap();
    assert_eq!(err.message(), "zone 10 does not exist in Two Panes");
    let err = plan_visual_menu_action(&mut settings, VisualMenuAction::SyncActiveLayout { layout: 30 })
        .err()
        .unwrap();
    assert_eq!(err, ActionError::LayoutMissing { layout: 30 });
    assert_eq!(format!("{:?}", settings), before);
}

#[test]
fn snapping_and_shortcuts_plan_only_desktop_work() {
    let mut settings = Settings::default();
    let plan = plan_visual_menu_action(&mut settings, VisualMenuAction::Snap { layout: 6, zone: 8 }).unwrap();
    assert_eq!(plan.effects, vec![MenuEffect::SnapActiveWindow { layout: 6, zone: 8 }]);
    let plan = plan_visual_menu_action(&mut settings, VisualMenuAction::NextZone).unwrap();
    assert_eq!(
        plan.effects,
        vec![MenuEffect::InvokeShortcut { name: "FanzyZones: Move active window to next zone".into() }]
    );
    let plan = plan_visual_menu_action(&mut settings, VisualMenuAction::Quit).unwrap();
    assert!(plan.quit);
    assert!(plan.effects.is_empty());
}

#[test]
fn snap_mode_and_saved_layouts_are_persisted() {
    let mut settings = Settings::default();
    let plan = plan_visual_menu_action(&mut settings, VisualMenuAction::SetSnapMode { mode: SnapMode::Distance }).unwrap();
    assert_eq!(settings.snap_mode, SnapMode::Distance);
    assert_eq!(
        plan.effects,
        vec![MenuEffect::SaveSettings, MenuEffect::WriteSettings, MenuEffect::ReloadRuntimeSettingsOrKwin]
    );
    let half = 0.5f64.to_bits();
    let result = EditorResult {
        name: Some("Split".into()),
        id: Some("custom.split".into()),
        zones: vec![EditorZone { x: None, y: None, width: Some(half), height: Some(1.0f64.to_bits()) }],
    };
    plan_visual_menu_action(&mut settings, VisualMenuAction::SaveLayout { result, millis: 5 }).unwrap();
    assert_eq!(settings.layouts.len(), 8);
    assert_eq!(settings.active_layout, 7);
    assert_eq!(settings.layouts[7].id, "custom.split");
}

#[test]
fn debug_placement_payloads_are_recognized() {
    assert!(is_debug_placement_payload("{\"action\":\"debugPlacement\",\"x\":1}"));
    assert!(!is_debug_placement_payload("{\"action\":\"setLayout\",\"layout\":1}"));
}

#[test]
fn tray_clicks_become_menu_toggle_commands() {
    let command = tray_command("Activate", 3, 120, 0);
    assert_eq!(command.action, "toggleTrayMenu");
    assert_eq!(command.reason, "Activate");
    assert_eq!(command.sequence, 3);
    assert!(command.anchor.valid);
    assert_eq!(command.anchor.source, "trayClick");
    let command = tray_command("ContextMenu", 4, 0, 0);
    assert!(!command.anchor.valid);
    assert_eq!(command.anchor.source, "unknown");
    assert_eq!(command.anchor.width, 0);
}

#[test]
fn tray_tool_tip_names_the_active_layout() {
    let settings = Settings { active_layout: 4, ..Settings::default() };
    assert_eq!(tray_tool_tip(&settings, "KWin integration ready"), "Active layout: Quarters\nKWin integration ready");
    let settings = Settings { active_layout: 40, ..Settings::default() };
    assert_eq!(tray_tool_tip(&settings, "x"), "Active layout: Unknown\nx");
}

#[test]
fn editor_slots_hand_over_once() {
    let mut input = None;
    assert_eq!(editor_input_json(&input), "");
    set_editor_input(&mut input, "{\"name\":\"A\"}".to_string());
    assert_eq!(editor_input_json(&input), "{\"name\":\"A\"}");
    let mut result = None;
    submit_editor_result(&mut result, "{}".to_string());
    assert_eq!(take_editor_result(&mut result), Some("{}".to_string()));
    assert_eq!(take_editor_result(&mut result), None);
}

#[test]
fn reassigning_a_display_keeps_one_entry() {
    let mut settings = Settings::default();
    plan_visual_menu_action(&mut settings, VisualMenuAction::SetLayout { layout: 1, display: Some("DP-1".into()) }).unwrap();
    plan_visual_menu_action(&mut settings, VisualMenuAction::SetLayout { layout: 3, display: Some("HDMI-1".into()) }).unwrap();
    plan_visual_menu_action(&mut settings, VisualMenuAction::SetLayout { layout: 4, display: Some("DP-1".into()) }).unwrap();
    assert_eq!(
        settings.display_layouts,
        vec![
            ("DP-1".to_string(), "builtin.quarters".to_string()),
            ("HDMI-1".to_string(), "builtin.three-panes-ultrawide".to_string()),
        ]
    );
    assert_eq!(settings.active_layout, 0);
    plan_visual_menu_action(&mut settings, VisualMenuAction::SetLayout { layout: 5, display: None }).unwrap();
    assert_eq!(settings.active_layout, 5);
    assert_eq!(settings.display_layouts.len(), 2);
}
