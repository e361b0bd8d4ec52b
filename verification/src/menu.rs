//! The decisions behind the tray menu's actions. Each action changes the
//! settings in memory and yields the desktop work to do afterwards, in order;
//! the caller performs that work and stops at the first failure.
use vstd::prelude::*;

use crate::actions::{
    active_after_delete, delete_custom_layout, editor_layout_view, ensure_layout_exists,
    ensure_zone_exists, first_with_id, layout_from_editor, upsert_layout, ActionError, EditorResult,
};
use crate::layout::{built_in_layouts_view, layouts_view};
use crate::config::{
    lemma_normalized_keeps_maps, maps_well_formed, normalized_view, pairs_view, unique_keys,
    Settings, SnapMode,
};
use crate::text::chars_eq;
use crate::text::chars_of;

verus! {

/// A tray-menu action, with what the desktop side already decoded.
pub enum VisualMenuAction {
    /// Activate layout `layout`; with a display, assign it to that screen
    /// instead of changing the global active layout.
    SetLayout { layout: usize, display: Option<String> },
    /// Persist a layout change the KWin script already applied.
    SyncActiveLayout { layout: usize },
    /// Replace the settings with `updated`: the current settings with the
    /// settings dialog's changed fields merged in.
    UpdateSettings { updated: Settings },
    /// Move the focused window to zone `zone` of layout `layout`.
    Snap { layout: usize, zone: usize },
    SetSnapMode { mode: SnapMode },
    /// Store the layout the visual editor returned; `millis` is the clock
    /// reading that names a layout without an id.
    SaveLayout { result: EditorResult, millis: u128 },
    DeleteLayout { layout: usize },
    OpenSettings,
    RevealConfig,
    PreviousZone,
    NextZone,
    Sync,
    ReloadSettings,
    ReloadKwin,
    About,
    Quit,
}

/// Desktop work that follows an action.
#[derive(Debug, Clone, PartialEq, Eq)]
pub enum MenuEffect {
    /// Write the settings file.
    SaveSettings,
    /// Write the settings into KWin's script configuration.
    WriteSettings,
    /// Switch the running KWin script to layout `layout`, or, failing that,
    /// ask KWin to reconfigure.
    SetRuntimeLayoutOrReloadKwin { layout: usize },
    /// Reload the running KWin script's settings, or, failing that, ask KWin
    /// to reconfigure.
    ReloadRuntimeSettingsOrKwin,
    /// Move the focused window to zone `zone` of layout `layout`.
    SnapActiveWindow { layout: usize, zone: usize },
    /// Save the settings and open the settings file.
    OpenSettingsFile,
    /// Open the directory holding the settings file.
    OpenConfigDir,
    /// Invoke the KWin global shortcut with this name.
    InvokeShortcut { name: String },
    /// Install, configure and reload the KWin integration.
    Sync,
    /// Ask KWin to reconfigure.
    ReloadKwin,
    /// Open this address in the browser.
    OpenUrl { url: String },
}

/// The mathematical value of a `MenuEffect`.
pub enum EffectView {
    SaveSettings,
    WriteSettings,
    SetRuntimeLayoutOrReloadKwin { layout: usize },
    ReloadRuntimeSettingsOrKwin,
    SnapActiveWindow { layout: usize, zone: usize },
    OpenSettingsFile,
    OpenConfigDir,
    InvokeShortcut { name: Seq<char> },
    Sync,
    ReloadKwin,
    OpenUrl { url: Seq<char> },
}

impl View for MenuEffect {
    type V = EffectView;

    open spec fn view(&self) -> EffectView {
        match self {
            MenuEffect::SaveSettings => EffectView::SaveSettings,
            MenuEffect::WriteSettings => EffectView::WriteSettings,
            MenuEffect::SetRuntimeLayoutOrReloadKwin { layout } =>
                EffectView::SetRuntimeLayoutOrReloadKwin { layout: *layout },
            MenuEffect::ReloadRuntimeSettingsOrKwin => EffectView::ReloadRuntimeSettingsOrKwin,
            MenuEffect::SnapActiveWindow { layout, zone } => EffectView::SnapActiveWindow {
                layout: *layout,
                zone: *zone,
            },
            MenuEffect::OpenSettingsFile => EffectView::OpenSettingsFile,
            MenuEffect::OpenConfigDir => EffectView::OpenConfigDir,
            MenuEffect::InvokeShortcut { name } => EffectView::InvokeShortcut { name: name@ },
            MenuEffect::Sync => EffectView::Sync,
            MenuEffect::ReloadKwin => EffectView::ReloadKwin,
            MenuEffect::OpenUrl { url } => EffectView::OpenUrl { url: url@ },
        }
    }
}

/// What an action leads to.
pub struct MenuPlan {
    /// The work to do, in order.
    pub effects: Vec<MenuEffect>,
    /// Whether the backend should stop.
    pub quit: bool,
}

pub open spec fn effects_view(effects: Seq<MenuEffect>) -> Seq<EffectView> {
    effects.map_values(|e: MenuEffect| e@)
}

/// The name of the KWin shortcut that moves the active window to the
/// previous zone.
pub open spec fn previous_zone_shortcut() -> Seq<char> {
    "FanzyZones: Move active window to previous zone"@
}

pub open spec fn next_zone_shortcut() -> Seq<char> {
    "FanzyZones: Move active window to next zone"@
}

/// The project's home page, opened by About.
pub open spec fn about_url() -> Seq<char> {
    "https://github.com/benwbooth/fanzyzones-kde"@
}

/// Saving settings and applying them to the running script.
pub open spec fn save_and_reload() -> Seq<EffectView> {
    seq![
        EffectView::SaveSettings,
        EffectView::WriteSettings,
        EffectView::ReloadRuntimeSettingsOrKwin,
    ]
}

/// The display assignments after assigning layout `id` to `screen`: the entry
/// for `screen` gets the new id, or a new entry is added.
pub open spec fn assign_display(
    d: Seq<(Seq<char>, Seq<char>)>,
    screen: Seq<char>,
    id: Seq<char>,
) -> Seq<(Seq<char>, Seq<char>)> {
    if exists|k: int| 0 <= k < d.len() && (#[trigger] d[k]).0 == screen {
        d.map_values(
            |e: (Seq<char>, Seq<char>)|
                if e.0 == screen {
                    (e.0, id)
                } else {
                    e
                },
        )
    } else {
        d.push((screen, id))
    }
}

/// Assigns layout `id` to display `screen` in `settings`.
fn assign_display_in(settings: &mut Settings, screen: String, id: String)
    ensures
        pairs_view(final(settings).display_layouts@) == assign_display(
            pairs_view(old(settings).display_layouts@),
            screen@,
            id@,
        ),
        final(settings).agrees_except(old(settings), false, false, true, false),
{
    let mut d: Vec<(String, String)> = Vec::new();
    std::mem::swap(&mut d, &mut settings.display_layouts);
    assign_display_layout(&mut d, screen, id);
    settings.display_layouts = d;
}

fn plan(effects: Vec<MenuEffect>) -> (p: MenuPlan)
    ensures
        p.effects == effects,
        !p.quit,
{
    MenuPlan { effects, quit: false }
}

fn save_and_reload_effects() -> (v: Vec<MenuEffect>)
    ensures
        effects_view(v@) == save_and_reload(),
{
    let v = vec![
        MenuEffect::SaveSettings,
        MenuEffect::WriteSettings,
        MenuEffect::ReloadRuntimeSettingsOrKwin,
    ];
    assert(effects_view(v@) =~= save_and_reload());
    v
}

/// Assigns layout `id` to `screen`.
fn assign_display_layout(d: &mut Vec<(String, String)>, screen: String, id: String)
    ensures
        pairs_view(final(d)@) == assign_display(pairs_view(old(d)@), screen@, id@),
{
    let ghost before = pairs_view(d@);
    let screen_chars = chars_of(screen.as_str());
    let mut found = false;
    let mut i: usize = 0;
    while i < d.len()
        invariant
            0 <= i <= d.len(),
            d.len() == before.len(),
            screen_chars@ == screen@,
            found == exists|k: int| 0 <= k < i && (#[trigger] before[k]).0 == screen@,
            forall|k: int|
                0 <= k < i ==> (#[trigger] pairs_view(d@)[k]) == (if before[k].0 == screen@ {
                    (before[k].0, id@)
                } else {
                    before[k]
                }),
            forall|k: int| i <= k < d.len() ==> (#[trigger] pairs_view(d@)[k]) == before[k],
        decreases d.len() - i,
    {
        let key_chars = chars_of(d[i].0.as_str());
        assert(pairs_view(d@)[i as int] == before[i as int]);
        assert(key_chars@ == before[i as int].0);
        if chars_eq(key_chars.as_slice(), screen_chars.as_slice()) {
            let key = d[i].0.clone();
            let ghost prev = d@;
            d.set(i, (key, id.clone()));
            assert forall|k: int| 0 <= k < d.len() && k != i implies #[trigger] pairs_view(d@)[k]
                == pairs_view(prev)[k] by {
                assert(d@[k] == prev[k]);
            }
            assert(pairs_view(d@)[i as int] == (before[i as int].0, id@));
            found = true;
        }
        assert(found == exists|k: int| 0 <= k < i + 1 && (#[trigger] before[k]).0 == screen@) by {
            if before[i as int].0 == screen@ {
                assert(found);
            }
            if !found {
                assert forall|k: int| 0 <= k < i + 1 implies (#[trigger] before[k]).0 != screen@ by {}
            }
        }
        i += 1;
    }
    if found {
        assert(pairs_view(d@) =~= assign_display(before, screen@, id@));
    } else {
        assert(pairs_view(d@) =~= before);
        let ghost sv = screen@;
        let ghost iv = id@;
        d.push((screen, id));
        assert(pairs_view(d@) =~= before.push((sv, iv)));
        assert(!exists|k: int| 0 <= k < before.len() && (#[trigger] before[k]).0 == sv);
    }
}

/// Settings and work after an action that leaves the settings alone.
pub open spec fn unchanged_with(
    before: Settings,
    after: Settings,
    r: Result<MenuPlan, ActionError>,
    effects: Seq<EffectView>,
    quit: bool,
) -> bool {
    after == before && (r matches Ok(p) && effects_view(p.effects@) == effects && p.quit == quit)
}

/// An accepted action that changes the settings and then does `effects`.
pub open spec fn accepted_with(r: Result<MenuPlan, ActionError>, effects: Seq<EffectView>) -> bool {
    r matches Ok(p) && effects_view(p.effects@) == effects && !p.quit
}

/// An action refused with `e`, leaving the settings alone.
pub open spec fn refused_with(
    before: Settings,
    after: Settings,
    r: Result<MenuPlan, ActionError>,
    e: ActionError,
) -> bool {
    after == before && r == Err::<MenuPlan, ActionError>(e)
}

/// `SetLayout`: an existing layout is assigned to the display, when one is
/// given, instead of changing the global active layout; without a display it
/// becomes the active layout. The settings are then saved, written to KWin and
/// the running script switched to the layout.
pub open spec fn set_layout_outcome(
    before: Settings,
    after: Settings,
    layout: usize,
    display: Option<String>,
    r: Result<MenuPlan, ActionError>,
) -> bool {
    if layout < before.layouts.len() {
        &&& accepted_with(
            r,
            seq![
                EffectView::SaveSettings,
                EffectView::WriteSettings,
                EffectView::SetRuntimeLayoutOrReloadKwin { layout },
            ],
        )
        &&& after.active_layout == match display {
            Some(_) => before.active_layout,
            None => layout,
        }
        &&& pairs_view(after.display_layouts@) == match display {
            Some(d) => assign_display(
                pairs_view(before.display_layouts@),
                d@,
                before.layouts@[layout as int].id@,
            ),
            None => pairs_view(before.display_layouts@),
        }
        &&& after.agrees_except(&before, false, true, true, false)
    } else {
        refused_with(before, after, r, ActionError::LayoutMissing { layout })
    }
}

/// `SyncActiveLayout`: an existing layout becomes active; the settings are
/// saved and written to KWin.
pub open spec fn sync_active_layout_outcome(
    before: Settings,
    after: Settings,
    layout: usize,
    r: Result<MenuPlan, ActionError>,
) -> bool {
    if layout < before.layouts.len() {
        &&& accepted_with(r, seq![EffectView::SaveSettings, EffectView::WriteSettings])
        &&& after.active_layout == layout
        &&& after.agrees_except(&before, false, true, false, false)
    } else {
        refused_with(before, after, r, ActionError::LayoutMissing { layout })
    }
}

/// `Snap`: for an existing zone, the focused window is moved there.
pub open spec fn snap_outcome(
    before: Settings,
    after: Settings,
    layout: usize,
    zone: usize,
    r: Result<MenuPlan, ActionError>,
) -> bool {
    if layout >= before.layouts.len() {
        refused_with(before, after, r, ActionError::LayoutMissing { layout })
    } else if zone >= before.layouts@[layout as int].zones.len() {
        after == before && (r matches Err(ActionError::ZoneMissing { zone: z, layout_name: n })
            && z == zone && n@ == before.layouts@[layout as int].name@)
    } else {
        unchanged_with(before, after, r, seq![EffectView::SnapActiveWindow { layout, zone }], false)
    }
}

/// `SaveLayout`: the editor's layout replaces the layout with its id, or is
/// appended, and becomes active; a layout without zones is refused.
pub open spec fn save_layout_outcome(
    before: Settings,
    after: Settings,
    result: EditorResult,
    millis: u128,
    r: Result<MenuPlan, ActionError>,
) -> bool {
    if result.zones@.len() == 0 {
        refused_with(before, after, r, ActionError::NoZones)
    } else {
        let l = editor_layout_view(result, millis);
        let old_layouts = layouts_view(before.layouts@);
        let slot = first_with_id(old_layouts, l.id);
        &&& accepted_with(r, save_and_reload())
        &&& layouts_view(after.layouts@) == match slot {
            Some(k) => old_layouts.update(k, l),
            None => old_layouts.push(l),
        }
        &&& after.active_layout == match slot {
            Some(k) => k,
            None => old_layouts.len() as int,
        }
        &&& after.agrees_except(&before, true, true, false, false)
    }
}

/// `DeleteLayout`: a custom layout is removed (the built-in layouts return
/// when none is left); built-in layouts are refused.
pub open spec fn delete_layout_outcome(
    before: Settings,
    after: Settings,
    layout: usize,
    r: Result<MenuPlan, ActionError>,
) -> bool {
    if layout >= before.layouts.len() {
        refused_with(before, after, r, ActionError::LayoutMissing { layout })
    } else if before.layouts@[layout as int].is_built_in {
        refused_with(before, after, r, ActionError::BuiltInLayout)
    } else {
        let rest = layouts_view(before.layouts@).remove(layout as int);
        &&& accepted_with(r, save_and_reload())
        &&& layouts_view(after.layouts@) == if rest.len() == 0 {
            built_in_layouts_view()
        } else {
            rest
        }
        &&& after.active_layout == active_after_delete(
            before.active_layout,
            layout,
            layouts_view(after.layouts@).len(),
        )
        &&& after.agrees_except(&before, true, true, false, false)
    }
}

/// What an action does to the settings, and the work that follows it.
pub open spec fn plan_matches(
    before: Settings,
    after: Settings,
    action: VisualMenuAction,
    r: Result<MenuPlan, ActionError>,
) -> bool {
    match action {
        VisualMenuAction::SetLayout { layout, display } => set_layout_outcome(
            before,
            after,
            layout,
            display,
            r,
        ),
        VisualMenuAction::SyncActiveLayout { layout } => sync_active_layout_outcome(
            before,
            after,
            layout,
            r,
        ),
        VisualMenuAction::UpdateSettings { updated } => after@ == normalized_view(updated@)
            && accepted_with(r, save_and_reload()),
        VisualMenuAction::Snap { layout, zone } => snap_outcome(before, after, layout, zone, r),
        VisualMenuAction::SetSnapMode { mode } => after.snap_mode == mode && after.agrees_except(
            &before,
            false,
            false,
            false,
            true,
        ) && accepted_with(r, save_and_reload()),
        VisualMenuAction::SaveLayout { result, millis } => save_layout_outcome(
            before,
            after,
            result,
            millis,
            r,
        ),
        VisualMenuAction::DeleteLayout { layout } => delete_layout_outcome(
            before,
            after,
            layout,
            r,
        ),
        VisualMenuAction::OpenSettings => unchanged_with(
            before,
            after,
            r,
            seq![EffectView::OpenSettingsFile],
            false,
        ),
        VisualMenuAction::RevealConfig => unchanged_with(
            before,
            after,
            r,
            seq![EffectView::OpenConfigDir],
            false,
        ),
        VisualMenuAction::PreviousZone => unchanged_with(
            before,
            after,
            r,
            seq![EffectView::InvokeShortcut { name: previous_zone_shortcut() }],
            false,
        ),
        VisualMenuAction::NextZone => unchanged_with(
            before,
            after,
            r,
            seq![EffectView::InvokeShortcut { name: next_zone_shortcut() }],
            false,
        ),
        VisualMenuAction::Sync => unchanged_with(before, after, r, seq![EffectView::Sync], false),
        VisualMenuAction::ReloadSettings => unchanged_with(
            before,
            after,
            r,
            seq![EffectView::WriteSettings, EffectView::ReloadRuntimeSettingsOrKwin],
            false,
        ),
        VisualMenuAction::ReloadKwin => unchanged_with(
            before,
            after,
            r,
            seq![EffectView::ReloadKwin],
            false,
        ),
        VisualMenuAction::About => unchanged_with(
            before,
            after,
            r,
            seq![EffectView::OpenUrl { url: about_url() }],
            false,
        ),
        VisualMenuAction::Quit => unchanged_with(before, after, r, Seq::empty(), true),
    }
}

fn single(e: MenuEffect) -> (p: MenuPlan)
    ensures
        effects_view(p.effects@) == seq![e@],
        !p.quit,
{
    let v = vec![e];
    assert(effects_view(v@) =~= seq![e@]);
    plan(v)
}

fn plan_set_layout(settings: &mut Settings, layout: usize, display: Option<String>) -> (r: Result<
    MenuPlan,
    ActionError,
>)
    ensures
        plan_matches(
            *old(settings),
            *final(settings),
            VisualMenuAction::SetLayout { layout, display },
            r,
        ),
{
    ensure_layout_exists(settings, layout)?;
    match display {
        Some(d) => {
            let id = settings.layouts[layout].id.clone();
            assign_display_in(settings, d, id);
        },
        None => {
            settings.set_active_layout(layout);
        },
    }
    let v = vec![
        MenuEffect::SaveSettings,
        MenuEffect::WriteSettings,
        MenuEffect::SetRuntimeLayoutOrReloadKwin { layout },
    ];
    assert(effects_view(v@) =~= seq![
        EffectView::SaveSettings,
        EffectView::WriteSettings,
        EffectView::SetRuntimeLayoutOrReloadKwin { layout },
    ]);
    Ok(plan(v))
}

fn plan_sync_active_layout(settings: &mut Settings, layout: usize) -> (r: Result<
    MenuPlan,
    ActionError,
>)
    ensures
        plan_matches(
            *old(settings),
            *final(settings),
            VisualMenuAction::SyncActiveLayout { layout },
            r,
        ),
{
    ensure_layout_exists(settings, layout)?;
    settings.set_active_layout(layout);
    let v = vec![MenuEffect::SaveSettings, MenuEffect::WriteSettings];
    assert(effects_view(v@) =~= seq![EffectView::SaveSettings, EffectView::WriteSettings]);
    Ok(plan(v))
}

fn plan_update_settings(settings: &mut Settings, updated: Settings) -> (r: Result<
    MenuPlan,
    ActionError,
>)
    ensures
        plan_matches(
            *old(settings),
            *final(settings),
            VisualMenuAction::UpdateSettings { updated },
            r,
        ),
{
    let mut updated = updated;
    updated.normalize();
    *settings = updated;
    Ok(plan(save_and_reload_effects()))
}

fn plan_snap(settings: &mut Settings, layout: usize, zone: usize) -> (r: Result<
    MenuPlan,
    ActionError,
>)
    ensures
        plan_matches(
            *old(settings),
            *final(settings),
            VisualMenuAction::Snap { layout, zone },
            r,
        ),
{
    ensure_zone_exists(settings, layout, zone)?;
    Ok(single(MenuEffect::SnapActiveWindow { layout, zone }))
}

fn plan_set_snap_mode(settings: &mut Settings, mode: SnapMode) -> (r: Result<
    MenuPlan,
    ActionError,
>)
    ensures
        plan_matches(*old(settings), *final(settings), VisualMenuAction::SetSnapMode { mode }, r),
{
    settings.set_snap_mode(mode);
    Ok(plan(save_and_reload_effects()))
}

fn plan_save_layout(settings: &mut Settings, result: EditorResult, millis: u128) -> (r: Result<
    MenuPlan,
    ActionError,
>)
    ensures
        plan_matches(
            *old(settings),
            *final(settings),
            VisualMenuAction::SaveLayout { result, millis },
            r,
        ),
{
    let layout = layout_from_editor(result, millis)?;
    upsert_layout(settings, layout);
    Ok(plan(save_and_reload_effects()))
}

fn plan_delete_layout(settings: &mut Settings, layout: usize) -> (r: Result<
    MenuPlan,
    ActionError,
>)
    ensures
        plan_matches(*old(settings), *final(settings), VisualMenuAction::DeleteLayout { layout }, r),
{
    delete_custom_layout(settings, layout)?;
    Ok(plan(save_and_reload_effects()))
}

/// Carries out the in-memory part of `action` on `settings` and returns the
/// desktop work that follows it (see `plan_matches`).
pub fn plan_visual_menu_action(settings: &mut Settings, action: VisualMenuAction) -> (r: Result<
    MenuPlan,
    ActionError,
>)
    ensures
        plan_matches(*old(settings), *final(settings), action, r),
{
    match action {
        VisualMenuAction::SetLayout { layout, display } => plan_set_layout(settings, layout, display),
        VisualMenuAction::SyncActiveLayout { layout } => plan_sync_active_layout(settings, layout),
        VisualMenuAction::UpdateSettings { updated } => plan_update_settings(settings, updated),
        VisualMenuAction::Snap { layout, zone } => plan_snap(settings, layout, zone),
        VisualMenuAction::SetSnapMode { mode } => plan_set_snap_mode(settings, mode),
        VisualMenuAction::SaveLayout { result, millis } => plan_save_layout(settings, result, millis),
        VisualMenuAction::DeleteLayout { layout } => plan_delete_layout(settings, layout),
        VisualMenuAction::OpenSettings => Ok(single(MenuEffect::OpenSettingsFile)),
        VisualMenuAction::RevealConfig => Ok(single(MenuEffect::OpenConfigDir)),
        VisualMenuAction::PreviousZone => Ok(
            single(
                MenuEffect::InvokeShortcut {
                    name: "FanzyZones: Move active window to previous zone".to_owned(),
                },
            ),
        ),
        VisualMenuAction::NextZone => Ok(
            single(
                MenuEffect::InvokeShortcut {
                    name: "FanzyZones: Move active window to next zone".to_owned(),
                },
            ),
        ),
        VisualMenuAction::Sync => Ok(single(MenuEffect::Sync)),
        VisualMenuAction::ReloadSettings => {
            let v = vec![MenuEffect::WriteSettings, MenuEffect::ReloadRuntimeSettingsOrKwin];
            assert(effects_view(v@) =~= seq![
                EffectView::WriteSettings,
                EffectView::ReloadRuntimeSettingsOrKwin,
            ]);
            Ok(plan(v))
        },
        VisualMenuAction::ReloadKwin => Ok(single(MenuEffect::ReloadKwin)),
        VisualMenuAction::About => Ok(
            single(MenuEffect::OpenUrl { url: "https://github.com/benwbooth/fanzyzones-kde".to_owned() }),
        ),
        VisualMenuAction::Quit => {
            let v: Vec<MenuEffect> = Vec::new();
            assert(effects_view(v@) =~= Seq::<EffectView>::empty());
            Ok(MenuPlan { effects: v, quit: true })
        },
    }
}


/// The layout id assigned to display `screen`, if any.
pub open spec fn display_layout_of(d: Seq<(Seq<char>, Seq<char>)>, screen: Seq<char>) -> Option<
    Seq<char>,
> {
    if exists|k: int| 0 <= k < d.len() && (#[trigger] d[k]).0 == screen {
        Some(d[choose|k: int| 0 <= k < d.len() && (#[trigger] d[k]).0 == screen].1)
    } else {
        None
    }
}

/// Law: assigning a layout to a display keeps one entry per display; the
/// display then reads back the assigned layout, and every other display
/// reads what it read before.
pub proof fn lemma_assign_display_read(
    d: Seq<(Seq<char>, Seq<char>)>,
    screen: Seq<char>,
    id: Seq<char>,
    other: Seq<char>,
)
    requires
        unique_keys(d),
    ensures
        unique_keys(assign_display(d, screen, id)),
        display_layout_of(assign_display(d, screen, id), screen) == Some(id),
        other != screen ==> display_layout_of(assign_display(d, screen, id), other)
            == display_layout_of(d, other),
{
    let a = assign_display(d, screen, id);
    let present = exists|k: int| 0 <= k < d.len() && (#[trigger] d[k]).0 == screen;
    assert forall|k: int| 0 <= k < a.len() implies (#[trigger] a[k]).0 == (if k < d.len() {
        d[k].0
    } else {
        screen
    }) && (a[k].0 == screen ==> a[k].1 == id) && (a[k].0 != screen ==> k < d.len() && a[k] == d[k]) by {
        if present {
            assert(a[k] == (if d[k].0 == screen {
                (d[k].0, id)
            } else {
                d[k]
            }));
        } else if k < d.len() {
            assert(a[k] == d[k]);
            assert(d[k].0 != screen);
        }
    }
    assert(unique_keys(a)) by {
        assert forall|i: int, j: int| 0 <= i < j < a.len() implies (#[trigger] a[i]).0 != (
        #[trigger] a[j]).0 by {
            if j < d.len() {
                assert(d[i].0 != d[j].0);
            } else {
                assert(!present);
                assert(d[i].0 != screen);
            }
        }
    }
    if present {
        let k = choose|k: int| 0 <= k < d.len() && (#[trigger] d[k]).0 == screen;
        assert(a[k].0 == screen);
    } else {
        assert(a[d.len() as int].0 == screen);
    }
    if other != screen {
        if exists|k: int| 0 <= k < d.len() && (#[trigger] d[k]).0 == other {
            let k = choose|k: int| 0 <= k < d.len() && (#[trigger] d[k]).0 == other;
            assert(a[k].0 == other);
            let k2 = choose|k: int| 0 <= k < a.len() && (#[trigger] a[k]).0 == other;
            assert(k2 < d.len() && a[k2] == d[k2]);
            assert(k2 == k) by {
                if k2 < k {
                    assert(d[k2].0 != d[k].0);
                } else if k < k2 {
                    assert(d[k].0 != d[k2].0);
                }
            }
        } else {
            assert forall|k: int| 0 <= k < a.len() implies (#[trigger] a[k]).0 != other by {
                if k < d.len() {
                    assert(d[k].0 != other);
                }
            }
        }
    }
}

/// Law: every action keeps one entry per key in the shortcut overrides and
/// the display assignments, provided the settings it starts from (and, for
/// `UpdateSettings`, the settings it is given) do.
pub proof fn lemma_plan_keeps_maps_well_formed(
    before: Settings,
    after: Settings,
    action: VisualMenuAction,
    r: Result<MenuPlan, ActionError>,
)
    requires
        plan_matches(before, after, action, r),
        maps_well_formed(before@),
        action matches VisualMenuAction::UpdateSettings { updated } ==> maps_well_formed(updated@),
    ensures
        maps_well_formed(after@),
{
    match action {
        VisualMenuAction::SetLayout { layout, display } => {
            if layout < before.layouts.len() {
                if let Some(d) = display {
                    lemma_assign_display_read(
                        pairs_view(before.display_layouts@),
                        d@,
                        before.layouts@[layout as int].id@,
                        d@,
                    );
                }
            }
        },
        VisualMenuAction::UpdateSettings { updated } => {
            lemma_normalized_keeps_maps(updated@);
        },
        _ => {},
    }
}

/// Law: the previous-zone and next-zone actions only invoke KWin's shortcut
/// of the same direction ("FanzyZones: Move active window to previous zone" and
/// "... next zone"), which are two different shortcuts, and change nothing.
pub proof fn lemma_zone_cycling_shortcuts(
    before: Settings,
    after: Settings,
    action: VisualMenuAction,
    r: Result<MenuPlan, ActionError>,
)
    requires
        plan_matches(before, after, action, r),
    ensures
        action is PreviousZone ==> after == before && (r matches Ok(p) && !p.quit && effects_view(
            p.effects@,
        ) == seq![
            EffectView::InvokeShortcut {
                name: "FanzyZones: Move active window to previous zone"@,
            },
        ]),
        action is NextZone ==> after == before && (r matches Ok(p) && !p.quit && effects_view(
            p.effects@,
        ) == seq![EffectView::InvokeShortcut { name: "FanzyZones: Move active window to next zone"@ }]),
        "FanzyZones: Move active window to previous zone"@
            != "FanzyZones: Move active window to next zone"@,
{
    reveal_strlit("FanzyZones: Move active window to previous zone");
    reveal_strlit("FanzyZones: Move active window to next zone");
    assert("FanzyZones: Move active window to previous zone"@.len()
        != "FanzyZones: Move active window to next zone"@.len());
}

/// `a` comes before `b` among `effects`.
pub open spec fn in_order(effects: Seq<EffectView>, a: EffectView, b: EffectView) -> bool {
    exists|i: int, j: int|
        #![trigger effects[i], effects[j]]
        0 <= i < j < effects.len() && effects[i] == a && effects[j] == b
}

/// Law: whatever the action, settings it changes are saved and then written
/// to KWin, and a change to the layouts is written to KWin and then reloaded
/// by the running script (or by KWin). Updating the settings, setting the snap
/// mode, and saving or deleting a layout, when accepted, always save, write
/// and then reload; the first two are never refused.
pub proof fn lemma_changes_reach_kwin(
    before: Settings,
    after: Settings,
    action: VisualMenuAction,
    r: Result<MenuPlan, ActionError>,
)
    requires
        plan_matches(before, after, action, r),
    ensures
        after != before ==> (r matches Ok(p) && in_order(
            effects_view(p.effects@),
            EffectView::SaveSettings,
            EffectView::WriteSettings,
        )),
        layouts_view(after.layouts@) != layouts_view(before.layouts@) ==> (r matches Ok(p)
            && in_order(
            effects_view(p.effects@),
            EffectView::WriteSettings,
            EffectView::ReloadRuntimeSettingsOrKwin,
        )),
        action is UpdateSettings || action is SetSnapMode ==> r is Ok,
        (action is UpdateSettings || action is SetSnapMode || action is SaveLayout
            || action is DeleteLayout) ==> (r matches Ok(p) ==> in_order(
            effects_view(p.effects@),
            EffectView::SaveSettings,
            EffectView::WriteSettings,
        ) && in_order(
            effects_view(p.effects@),
            EffectView::WriteSettings,
            EffectView::ReloadRuntimeSettingsOrKwin,
        )),
{
    if let Ok(p) = r {
        let e = effects_view(p.effects@);
        if e.len() >= 2 {
            assert(e[0] == e[0] && e[1] == e[1]);
        }
        if e.len() >= 3 {
            assert(e[1] == e[1] && e[2] == e[2]);
        }
    }
}

/// Law: settings that an action changes are saved first of all and written to
/// KWin right after; choosing a layout ends by switching the running script to
/// that layout, and snapping to an existing zone moves the focused window to
/// that zone of that layout and does nothing else.
pub proof fn lemma_layout_work(
    before: Settings,
    after: Settings,
    action: VisualMenuAction,
    r: Result<MenuPlan, ActionError>,
)
    requires
        plan_matches(before, after, action, r),
    ensures
        after != before ==> (r matches Ok(p) && effects_view(p.effects@).len() >= 2 && effects_view(
            p.effects@,
        )[0] == EffectView::SaveSettings && effects_view(p.effects@)[1]
            == EffectView::WriteSettings),
        match action {
            VisualMenuAction::SetLayout { layout, display } => r matches Ok(p) ==> effects_view(
                p.effects@,
            ).last() == (EffectView::SetRuntimeLayoutOrReloadKwin { layout }),
            VisualMenuAction::Snap { layout, zone } => r matches Ok(p) ==> after == before
                && effects_view(p.effects@) == seq![EffectView::SnapActiveWindow { layout, zone }],
            _ => true,
        },
{
}

/// Law: deleting the active layout makes the first layout active, deleting
/// another keeps that same layout active, and either way the active index
/// afterwards names a layout.
pub proof fn lemma_delete_active_layout(
    before: Settings,
    after: Settings,
    layout: usize,
    r: Result<MenuPlan, ActionError>,
)
    requires
        plan_matches(before, after, VisualMenuAction::DeleteLayout { layout }, r),
        before.active_layout < before.layouts.len(),
        r is Ok,
    ensures
        after.active_layout < after.layouts.len(),
        before.active_layout == layout ==> after.active_layout == 0,
        before.active_layout != layout ==> layouts_view(after.layouts@)[after.active_layout as int]
            == layouts_view(before.layouts@)[before.active_layout as int],
{
    let old_views = layouts_view(before.layouts@);
    let rest = old_views.remove(layout as int);
    assert(old_views.len() == before.layouts.len());
    if before.active_layout != layout {
        crate::actions::lemma_delete_keeps_active_layout(old_views, before.active_layout, layout);
    }
    if rest.len() == 0 {
        assert(built_in_layouts_view().len() > 0);
    }
    assert(layouts_view(after.layouts@).len() == after.layouts.len());
}

/// Law: saving a layout from the editor stores it and makes it active: it
/// replaces the first layout with the same id, keeping every other layout in
/// place, or, when no layout has that id, is added after all of them.
pub proof fn lemma_save_layout_upserts(
    before: Settings,
    after: Settings,
    result: EditorResult,
    millis: u128,
    r: Result<MenuPlan, ActionError>,
)
    requires
        plan_matches(before, after, VisualMenuAction::SaveLayout { result, millis }, r),
        r is Ok,
    ensures
        ({
            let l = editor_layout_view(result, millis);
            let b = layouts_view(before.layouts@);
            let a = layouts_view(after.layouts@);
            let k = after.active_layout as int;
            &&& 0 <= k < a.len()
            &&& a[k] == l
            &&& (exists|i: int| 0 <= i < b.len() && (#[trigger] b[i]).id == l.id) ==> {
                &&& a.len() == b.len()
                &&& b[k].id == l.id
                &&& forall|i: int| 0 <= i < k ==> (#[trigger] b[i]).id != l.id
                &&& forall|i: int| 0 <= i < a.len() && i != k ==> #[trigger] a[i] == b[i]
            }
            &&& !(exists|i: int| 0 <= i < b.len() && (#[trigger] b[i]).id == l.id) ==> a == b.push(l)
        }),
{
    let l = editor_layout_view(result, millis);
    let b = layouts_view(before.layouts@);
    if exists|i: int| 0 <= i < b.len() && (#[trigger] b[i]).id == l.id {
        let i = choose|i: int| 0 <= i < b.len() && (#[trigger] b[i]).id == l.id;
        crate::actions::lemma_first_id_exists(b, l.id, i);
    }
}

/// Law: only the quit action ends the applet, and it does nothing else; the
/// actions that only reach the desktop leave the settings alone and do just
/// their one piece of work: a sync, a KWin reload, writing the settings to
/// KWin and reloading them, opening the settings file or the configuration
/// folder, or opening the project's page.
pub proof fn lemma_desktop_actions(
    before: Settings,
    after: Settings,
    action: VisualMenuAction,
    r: Result<MenuPlan, ActionError>,
)
    requires
        plan_matches(before, after, action, r),
    ensures
        (r matches Ok(p) && p.quit) <==> action is Quit,
        action is Quit ==> after == before && (r matches Ok(p) && effects_view(p.effects@).len() == 0),
        action is Sync ==> after == before && (r matches Ok(p) && !p.quit && effects_view(
            p.effects@,
        ) == seq![EffectView::Sync]),
        action is ReloadKwin ==> after == before && (r matches Ok(p) && !p.quit && effects_view(
            p.effects@,
        ) == seq![EffectView::ReloadKwin]),
        action is ReloadSettings ==> after == before && (r matches Ok(p) && !p.quit && effects_view(
            p.effects@,
        ) == seq![EffectView::WriteSettings, EffectView::ReloadRuntimeSettingsOrKwin]),
        action is OpenSettings ==> after == before && (r matches Ok(p) && !p.quit && effects_view(
            p.effects@,
        ) == seq![EffectView::OpenSettingsFile]),
        action is RevealConfig ==> after == before && (r matches Ok(p) && !p.quit && effects_view(
            p.effects@,
        ) == seq![EffectView::OpenConfigDir]),
        action is About ==> after == before && (r matches Ok(p) && !p.quit && effects_view(
            p.effects@,
        ) == seq![EffectView::OpenUrl { url: "https://github.com/benwbooth/fanzyzones-kde"@ }]),
{
}

/// Law: an action that is refused leaves the settings exactly as they were.
pub proof fn lemma_refused_action_changes_nothing(
    before: Settings,
    after: Settings,
    action: VisualMenuAction,
    r: Result<MenuPlan, ActionError>,
)
    requires
        plan_matches(before, after, action, r),
        r is Err,
    ensures
        after == before,
{
}

/// The marker of the applet's placement-debugging payloads, which are logged
/// rather than acted on.
pub open spec fn debug_placement_marker() -> Seq<char> {
    "\"action\":\"debugPlacement\""@
}

/// Whether `payload` is a placement-debugging report from the applet.
pub fn is_debug_placement_payload(payload: &str) -> (r: bool)
    ensures
        r == crate::kwin::contains_text(payload@, debug_placement_marker()),
{
    crate::kwin::contains_str(payload, "\"action\":\"debugPlacement\"")
}

} // verus!
