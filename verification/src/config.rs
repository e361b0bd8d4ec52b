//! User settings: their defaults, and the normalization every load and save
//! applies (valid layout selection, most-recently-used ordering, cleaned
//! window-class list, sane numeric bounds).
use vstd::prelude::*;

use crate::layout::{
    built_in_layouts, built_in_layouts_view, clamp_layout_index, clamped_index, layouts_view,
    Layout, LayoutView,
};
use crate::text::{
    chars_of, insert_sorted, lemma_push_to_set, lemma_sorted_distinct, lemma_sorted_distinct_exists,
    sorted_distinct, string_of, strictly_sorted, to_lowercase, trim_chars, trimmed,
    unicode_lowercase,
};

verus! {

/// How window dragging triggers zone snapping.
#[derive(Debug, Clone, Copy, PartialEq, Eq, Structural)]
pub enum SnapMode {
    /// The zone overlay snaps on any drag, no key held.
    Auto,
    /// Shift+drag tiles via KWin's native tiling (the synced per-monitor tiles).
    Modifier,
    /// The overlay arms when the cursor is dragged within
    /// `snap_trigger_distance` of the top edge.
    Distance,
}

impl Default for SnapMode {
    fn default() -> (m: Self)
        ensures
            m == SnapMode::Modifier,
    {
        SnapMode::Modifier
    }
}

/// A keyboard modifier. The declaration order is the sort order.
#[derive(Debug, Clone, Copy, PartialEq, Eq, Structural, PartialOrd, Ord)]
pub enum ModifierKey {
    Shift,
    Control,
    Alt,
    Meta,
}

/// An overlay color; each channel is the bit pattern of a binary64 in `0.0..=1.0`.
#[derive(Debug, Clone, Copy, PartialEq, Eq, Structural)]
pub struct RgbColor {
    pub red: u64,
    pub green: u64,
    pub blue: u64,
}

/// Bits of `0.18`, `0.48` and `0.96`, the default highlight color.
pub const DEFAULT_RED: u64 = 0x3fc7_0a3d_70a3_d70a;

pub const DEFAULT_GREEN: u64 = 0x3fde_b851_eb85_1eb8;

pub const DEFAULT_BLUE: u64 = 0x3fee_b851_eb85_1eb8;

/// Bits of `0.35`, the default overlay opacity.
pub const DEFAULT_OVERLAY_OPACITY: u64 = 0x3fd6_6666_6666_6666;

/// Bits of `0.05` and `0.95`, the bounds of the overlay opacity.
pub const MIN_OVERLAY_OPACITY: u64 = 0x3fa9_9999_9999_999a;

pub const MAX_OVERLAY_OPACITY: u64 = 0x3fee_6666_6666_6666;

impl Default for RgbColor {
    fn default() -> (c: Self)
        ensures
            c == (RgbColor { red: DEFAULT_RED, green: DEFAULT_GREEN, blue: DEFAULT_BLUE }),
    {
        RgbColor { red: DEFAULT_RED, green: DEFAULT_GREEN, blue: DEFAULT_BLUE }
    }
}

/// All user settings.
#[derive(Debug, Clone)]
pub struct Settings {
    pub version: u32,
    pub snap_mode: SnapMode,
    pub modifiers: Vec<ModifierKey>,
    /// Distance in px from the top edge within which a drag arms the overlay
    /// in the "distance" snap mode.
    pub snap_trigger_distance: i32,
    pub active_layout: usize,
    /// Layout ids ordered most-recently-used first. Maintained by `normalize`.
    pub layout_mru: Vec<String>,
    /// When true the menu lists layouts least-recent at the top and the
    /// active/most-recent at the bottom; false reverses it.
    pub layout_menu_bottom_up: bool,
    /// User overrides for global shortcut keys: (action id, sequence string),
    /// at most one entry per action id. An empty sequence means unbound.
    pub shortcut_overrides: Vec<(String, String)>,
    /// Per-display layout assignment: (screen name, layout id), at most one
    /// entry per screen. Displays without an entry use `active_layout`.
    pub display_layouts: Vec<(String, String)>,
    pub gap: i32,
    pub outer_padding: i32,
    pub enable_zone_overlay: bool,
    pub enable_zone_selector: bool,
    pub enable_edge_snapping: bool,
    pub remember_window_geometries: bool,
    pub keyboard_shortcuts_enabled: bool,
    pub highlight_color: RgbColor,
    /// Bit pattern of the binary64 overlay opacity.
    pub overlay_opacity: u64,
    pub show_zone_numbers: bool,
    pub track_layout_per_screen: bool,
    pub track_layout_per_desktop: bool,
    pub auto_snap_new_windows: bool,
    pub dynamic_workspaces: bool,
    pub keep_empty_middle_desktops: bool,
    pub macsimize_fullscreen: bool,
    pub macsimize_maximized: bool,
    pub macsimize_move_to_last_desktop: bool,
    pub macsimize_exclusive_desktops: bool,
    pub skipped_window_classes: Vec<String>,
    pub debug: bool,
    pub layouts: Vec<Layout>,
}

/// The mathematical value of `Settings`.
#[verifier::ext_equal]
pub struct SettingsView {
    pub version: u32,
    pub snap_mode: SnapMode,
    pub modifiers: Seq<ModifierKey>,
    pub snap_trigger_distance: i32,
    pub active_layout: usize,
    pub layout_mru: Seq<Seq<char>>,
    pub layout_menu_bottom_up: bool,
    pub shortcut_overrides: Seq<(Seq<char>, Seq<char>)>,
    pub display_layouts: Seq<(Seq<char>, Seq<char>)>,
    pub gap: i32,
    pub outer_padding: i32,
    pub enable_zone_overlay: bool,
    pub enable_zone_selector: bool,
    pub enable_edge_snapping: bool,
    pub remember_window_geometries: bool,
    pub keyboard_shortcuts_enabled: bool,
    pub highlight_color: RgbColor,
    pub overlay_opacity: u64,
    pub show_zone_numbers: bool,
    pub track_layout_per_screen: bool,
    pub track_layout_per_desktop: bool,
    pub auto_snap_new_windows: bool,
    pub dynamic_workspaces: bool,
    pub keep_empty_middle_desktops: bool,
    pub macsimize_fullscreen: bool,
    pub macsimize_maximized: bool,
    pub macsimize_move_to_last_desktop: bool,
    pub macsimize_exclusive_desktops: bool,
    pub skipped_window_classes: Seq<Seq<char>>,
    pub debug: bool,
    pub layouts: Seq<LayoutView>,
}

/// The views of a vector of strings.
pub open spec fn strings_view(v: Seq<String>) -> Seq<Seq<char>> {
    v.map_values(|s: String| s@)
}

/// No key occurs twice in `d`, so the pairs stand for a map.
pub open spec fn unique_keys(d: Seq<(Seq<char>, Seq<char>)>) -> bool {
    forall|i: int, j: int| 0 <= i < j < d.len() ==> (#[trigger] d[i]).0 != (#[trigger] d[j]).0
}

/// The shortcut overrides and the display assignments each hold at most one
/// entry per key, as the maps they stand for.
pub open spec fn maps_well_formed(s: SettingsView) -> bool {
    unique_keys(s.shortcut_overrides) && unique_keys(s.display_layouts)
}

/// The views of a vector of string pairs.
pub open spec fn pairs_view(v: Seq<(String, String)>) -> Seq<(Seq<char>, Seq<char>)> {
    v.map_values(|p: (String, String)| (p.0@, p.1@))
}

impl View for Settings {
    type V = SettingsView;

    open spec fn view(&self) -> SettingsView {
        SettingsView {
            version: self.version,
            snap_mode: self.snap_mode,
            modifiers: self.modifiers@,
            snap_trigger_distance: self.snap_trigger_distance,
            active_layout: self.active_layout,
            layout_mru: strings_view(self.layout_mru@),
            layout_menu_bottom_up: self.layout_menu_bottom_up,
            shortcut_overrides: pairs_view(self.shortcut_overrides@),
            display_layouts: pairs_view(self.display_layouts@),
            gap: self.gap,
            outer_padding: self.outer_padding,
            enable_zone_overlay: self.enable_zone_overlay,
            enable_zone_selector: self.enable_zone_selector,
            enable_edge_snapping: self.enable_edge_snapping,
            remember_window_geometries: self.remember_window_geometries,
            keyboard_shortcuts_enabled: self.keyboard_shortcuts_enabled,
            highlight_color: self.highlight_color,
            overlay_opacity: self.overlay_opacity,
            show_zone_numbers: self.show_zone_numbers,
            track_layout_per_screen: self.track_layout_per_screen,
            track_layout_per_desktop: self.track_layout_per_desktop,
            auto_snap_new_windows: self.auto_snap_new_windows,
            dynamic_workspaces: self.dynamic_workspaces,
            keep_empty_middle_desktops: self.keep_empty_middle_desktops,
            macsimize_fullscreen: self.macsimize_fullscreen,
            macsimize_maximized: self.macsimize_maximized,
            macsimize_move_to_last_desktop: self.macsimize_move_to_last_desktop,
            macsimize_exclusive_desktops: self.macsimize_exclusive_desktops,
            skipped_window_classes: strings_view(self.skipped_window_classes@),
            debug: self.debug,
            layouts: layouts_view(self.layouts@),
        }
    }
}

impl Settings {
    /// The name of the active layout, or `Unknown` when the index names none.
    pub fn active_layout_name(&self) -> (r: &str)
        ensures
            r@ == if self.active_layout < self.layouts.len() {
                self.layouts@[self.active_layout as int].name@
            } else {
                "Unknown"@
            },
    {
        if self.active_layout < self.layouts.len() {
            self.layouts[self.active_layout].name.as_str()
        } else {
            "Unknown"
        }
    }

    /// `self` and `other` agree on every field except those flagged.
    pub open spec fn agrees_except(
        &self,
        other: &Settings,
        layouts: bool,
        active: bool,
        display: bool,
        snap_mode: bool,
    ) -> bool {
        &&& (layouts || self.layouts == other.layouts)
        &&& (active || self.active_layout == other.active_layout)
        &&& (display || self.display_layouts == other.display_layouts)
        &&& (snap_mode || self.snap_mode == other.snap_mode)
        &&& self.version == other.version
        &&& self.modifiers == other.modifiers
        &&& self.snap_trigger_distance == other.snap_trigger_distance
        &&& self.layout_mru == other.layout_mru
        &&& self.layout_menu_bottom_up == other.layout_menu_bottom_up
        &&& self.shortcut_overrides == other.shortcut_overrides
        &&& self.gap == other.gap
        &&& self.outer_padding == other.outer_padding
        &&& self.enable_zone_overlay == other.enable_zone_overlay
        &&& self.enable_zone_selector == other.enable_zone_selector
        &&& self.enable_edge_snapping == other.enable_edge_snapping
        &&& self.remember_window_geometries == other.remember_window_geometries
        &&& self.keyboard_shortcuts_enabled == other.keyboard_shortcuts_enabled
        &&& self.highlight_color == other.highlight_color
        &&& self.overlay_opacity == other.overlay_opacity
        &&& self.show_zone_numbers == other.show_zone_numbers
        &&& self.track_layout_per_screen == other.track_layout_per_screen
        &&& self.track_layout_per_desktop == other.track_layout_per_desktop
        &&& self.auto_snap_new_windows == other.auto_snap_new_windows
        &&& self.dynamic_workspaces == other.dynamic_workspaces
        &&& self.keep_empty_middle_desktops == other.keep_empty_middle_desktops
        &&& self.macsimize_fullscreen == other.macsimize_fullscreen
        &&& self.macsimize_maximized == other.macsimize_maximized
        &&& self.macsimize_move_to_last_desktop == other.macsimize_move_to_last_desktop
        &&& self.macsimize_exclusive_desktops == other.macsimize_exclusive_desktops
        &&& self.skipped_window_classes == other.skipped_window_classes
        &&& self.debug == other.debug
    }

    /// Makes layout `layout` the active one.
    pub fn set_active_layout(&mut self, layout: usize)
        ensures
            final(self).active_layout == layout,
            final(self).agrees_except(old(self), false, true, false, false),
    {
        self.active_layout = layout;
    }

    /// Sets how dragging triggers snapping.
    pub fn set_snap_mode(&mut self, mode: SnapMode)
        ensures
            final(self).snap_mode == mode,
            final(self).agrees_except(old(self), false, false, false, true),
    {
        self.snap_mode = mode;
    }
}

// ---------------------------------------------------------------------------
// Defaults
// ---------------------------------------------------------------------------

/// Window classes that are never snapped, unless the user changes the list.
pub open spec fn default_skip_classes_view() -> Seq<Seq<char>> {
    seq![
        "krunner"@,
        "ksmserver"@,
        "ksmserver-logout-greeter"@,
        "ksplashqml"@,
        "kwin"@,
        "kwin_wayland"@,
        "org.kde.plasmashell"@,
        "org.kde.spectacle"@,
        "org.kde.yakuake"@,
        "plasmashell"@,
    ]
}

/// The settings a fresh installation starts with.
pub open spec fn default_settings_view() -> SettingsView {
    SettingsView {
        version: 1,
        snap_mode: SnapMode::Modifier,
        modifiers: seq![ModifierKey::Shift],
        snap_trigger_distance: 40,
        active_layout: 0,
        layout_mru: Seq::empty(),
        layout_menu_bottom_up: true,
        shortcut_overrides: Seq::empty(),
        display_layouts: Seq::empty(),
        gap: 0,
        outer_padding: 0,
        enable_zone_overlay: true,
        enable_zone_selector: false,
        enable_edge_snapping: false,
        remember_window_geometries: true,
        keyboard_shortcuts_enabled: true,
        highlight_color: RgbColor { red: DEFAULT_RED, green: DEFAULT_GREEN, blue: DEFAULT_BLUE },
        overlay_opacity: DEFAULT_OVERLAY_OPACITY,
        show_zone_numbers: true,
        track_layout_per_screen: false,
        track_layout_per_desktop: false,
        auto_snap_new_windows: false,
        dynamic_workspaces: true,
        keep_empty_middle_desktops: false,
        macsimize_fullscreen: true,
        macsimize_maximized: true,
        macsimize_move_to_last_desktop: false,
        macsimize_exclusive_desktops: true,
        skipped_window_classes: default_skip_classes_view(),
        debug: false,
        layouts: built_in_layouts_view(),
    }
}

/// The settings file format version.
pub fn settings_version() -> (v: u32)
    ensures
        v == 1,
{
    1
}

pub fn default_true() -> (b: bool)
    ensures
        b,
{
    true
}

pub fn default_gap() -> (g: i32)
    ensures
        g == 0,
{
    0
}

pub fn default_outer_padding() -> (p: i32)
    ensures
        p == 0,
{
    0
}

pub fn default_snap_trigger_distance() -> (d: i32)
    ensures
        d == 40,
{
    40
}

pub fn default_overlay_opacity() -> (o: u64)
    ensures
        o == DEFAULT_OVERLAY_OPACITY,
{
    DEFAULT_OVERLAY_OPACITY
}

/// Only Shift, for the keyboard and auto-snap paths.
pub fn default_modifiers() -> (v: Vec<ModifierKey>)
    ensures
        v@ == seq![ModifierKey::Shift],
{
    let v = vec![ModifierKey::Shift];
    assert(v@ =~= seq![ModifierKey::Shift]);
    v
}

pub fn default_skip_classes() -> (v: Vec<String>)
    ensures
        strings_view(v@) == default_skip_classes_view(),
{
    let v = vec![
        "krunner".to_owned(),
        "ksmserver".to_owned(),
        "ksmserver-logout-greeter".to_owned(),
        "ksplashqml".to_owned(),
        "kwin".to_owned(),
        "kwin_wayland".to_owned(),
        "org.kde.plasmashell".to_owned(),
        "org.kde.spectacle".to_owned(),
        "org.kde.yakuake".to_owned(),
        "plasmashell".to_owned(),
    ];
    assert(strings_view(v@) =~= default_skip_classes_view());
    v
}

impl Default for Settings {
    fn default() -> (s: Self)
        ensures
            s@ == default_settings_view(),
            maps_well_formed(s@),
    {
        let s = Settings {
            version: settings_version(),
            snap_mode: SnapMode::Modifier,
            modifiers: default_modifiers(),
            snap_trigger_distance: default_snap_trigger_distance(),
            active_layout: 0,
            layout_mru: Vec::new(),
            layout_menu_bottom_up: true,
            shortcut_overrides: Vec::new(),
            display_layouts: Vec::new(),
            gap: default_gap(),
            outer_padding: default_outer_padding(),
            enable_zone_overlay: true,
            enable_zone_selector: false,
            enable_edge_snapping: false,
            remember_window_geometries: true,
            keyboard_shortcuts_enabled: true,
            highlight_color: RgbColor::default(),
            overlay_opacity: default_overlay_opacity(),
            show_zone_numbers: true,
            track_layout_per_screen: false,
            track_layout_per_desktop: false,
            auto_snap_new_windows: false,
            dynamic_workspaces: true,
            keep_empty_middle_desktops: false,
            macsimize_fullscreen: true,
            macsimize_maximized: true,
            macsimize_move_to_last_desktop: false,
            macsimize_exclusive_desktops: true,
            skipped_window_classes: default_skip_classes(),
            debug: false,
            layouts: built_in_layouts(),
        };
        assert(s@.layout_mru =~= Seq::<Seq<char>>::empty());
        assert(s@.shortcut_overrides =~= Seq::<(Seq<char>, Seq<char>)>::empty());
        assert(s@.display_layouts =~= Seq::<(Seq<char>, Seq<char>)>::empty());
        s
    }
}

// ---------------------------------------------------------------------------
// Normalization
// ---------------------------------------------------------------------------

/// Some layout in `layouts` has the id `id`.
pub open spec fn has_layout_id(layouts: Seq<LayoutView>, id: Seq<char>) -> bool {
    exists|i: int| 0 <= i < layouts.len() && (#[trigger] layouts[i]).id == id
}

/// `s` with every value after its first occurrence removed.
pub open spec fn dedup_first(s: Seq<Seq<char>>) -> Seq<Seq<char>>
    decreases s.len(),
{
    if s.len() == 0 {
        s
    } else {
        let prev = dedup_first(s.drop_last());
        if prev.contains(s.last()) {
            prev
        } else {
            prev.push(s.last())
        }
    }
}

/// The most-recently-used list after normalization: the active layout's id
/// first, then the other ids that still name a layout, in their former order,
/// each once.
pub open spec fn normalized_mru(
    mru: Seq<Seq<char>>,
    layouts: Seq<LayoutView>,
    active_id: Seq<char>,
) -> Seq<Seq<char>> {
    seq![active_id] + dedup_first(mru.filter(mru_keeps(layouts, active_id)))
}

/// Whether an id other than the active one stays in the most-recently-used list.
pub open spec fn mru_keeps(layouts: Seq<LayoutView>, active_id: Seq<char>) -> spec_fn(
    Seq<char>,
) -> bool {
    |id: Seq<char>| has_layout_id(layouts, id) && id != active_id
}

/// The window classes after normalization: the non-blank entries, trimmed and
/// lowercased, sorted, without repeats.
pub open spec fn normalized_classes(classes: Seq<Seq<char>>) -> Seq<Seq<char>> {
    sorted_distinct(cleaned_classes(classes))
}

/// The non-blank entries, trimmed and lowercased, in the order given.
pub open spec fn cleaned_classes(classes: Seq<Seq<char>>) -> Seq<Seq<char>> {
    classes.filter(|c: Seq<char>| trimmed(c).len() > 0).map_values(
        |c: Seq<char>| unicode_lowercase(trimmed(c)),
    )
}

/// `[k]` when `ms` holds `k`, and nothing otherwise.
pub open spec fn if_present(ms: Seq<ModifierKey>, k: ModifierKey) -> Seq<ModifierKey> {
    if ms.contains(k) {
        seq![k]
    } else {
        Seq::empty()
    }
}

/// The modifiers present in `ms`, in declaration order, each once (what
/// `sort` followed by `dedup` leaves).
pub open spec fn canonical_modifiers(ms: Seq<ModifierKey>) -> Seq<ModifierKey> {
    if_present(ms, ModifierKey::Shift) + if_present(ms, ModifierKey::Control) + if_present(
        ms,
        ModifierKey::Alt,
    ) + if_present(ms, ModifierKey::Meta)
}

/// `f64::clamp(0.05, 0.95)` on the bit pattern of a binary64: NaN stays NaN,
/// anything below 0.05 (every negative value, including -0.0) becomes 0.05,
/// anything above 0.95 becomes 0.95. For non-negative values the IEEE-754
/// order is the order of the bit patterns.
pub open spec fn clamped_opacity(bits: u64) -> u64 {
    let magnitude = bits % 0x8000_0000_0000_0000;
    if magnitude > 0x7ff0_0000_0000_0000 {
        bits
    } else if bits >= 0x8000_0000_0000_0000 || bits < MIN_OVERLAY_OPACITY {
        MIN_OVERLAY_OPACITY
    } else if bits > MAX_OVERLAY_OPACITY {
        MAX_OVERLAY_OPACITY
    } else {
        bits
    }
}

/// The layouts after normalization: the built-in ones when there are none.
pub open spec fn normalized_layouts(layouts: Seq<LayoutView>) -> Seq<LayoutView> {
    if layouts.len() == 0 {
        built_in_layouts_view()
    } else {
        layouts
    }
}

/// The active layout index after normalization.
pub open spec fn normalized_active(layouts: Seq<LayoutView>, active: usize) -> usize {
    if layouts.len() == 0 {
        0
    } else {
        clamped_index(active as int, layouts.len() as int) as usize
    }
}

/// What `Settings::normalize` makes of `s`.
pub open spec fn normalized_view(s: SettingsView) -> SettingsView {
    let layouts = normalized_layouts(s.layouts);
    let active = normalized_active(s.layouts, s.active_layout);
    let active_id = layouts[active as int].id;
    SettingsView {
        layouts,
        active_layout: active,
        layout_mru: normalized_mru(s.layout_mru, layouts, active_id),
        display_layouts: s.display_layouts.filter(
            |e: (Seq<char>, Seq<char>)| has_layout_id(layouts, e.1),
        ),
        gap: if s.gap < 0 {
            0
        } else {
            s.gap
        },
        outer_padding: if s.outer_padding < 0 {
            0
        } else {
            s.outer_padding
        },
        skipped_window_classes: normalized_classes(s.skipped_window_classes),
        snap_trigger_distance: if s.snap_trigger_distance < 1 {
            1
        } else {
            s.snap_trigger_distance
        },
        modifiers: canonical_modifiers(s.modifiers),
        overlay_opacity: clamped_opacity(s.overlay_opacity),
        ..s
    }
}

/// Whether some layout has the id `id`.
pub fn contains_layout_id(layouts: &Vec<Layout>, id: &String) -> (r: bool)
    ensures
        r == has_layout_id(layouts_view(layouts@), id@),
{
    let mut i: usize = 0;
    while i < layouts.len()
        invariant
            0 <= i <= layouts.len(),
            forall|k: int| 0 <= k < i ==> layouts@[k].id@ != id@,
        decreases layouts.len() - i,
    {
        if layouts[i].id == *id {
            assert(layouts_view(layouts@)[i as int].id == id@);
            return true;
        }
        i += 1;
    }
    assert forall|k: int| 0 <= k < layouts.len() implies (#[trigger] layouts_view(
        layouts@,
    )[k]).id != id@ by {
        assert(layouts_view(layouts@)[k].id == layouts@[k].id@);
    }
    false
}

/// Whether `v` holds a string equal to `s`.
pub fn contains_string(v: &Vec<String>, s: &String) -> (r: bool)
    ensures
        r == strings_view(v@).contains(s@),
{
    let mut i: usize = 0;
    while i < v.len()
        invariant
            0 <= i <= v.len(),
            forall|k: int| 0 <= k < i ==> v@[k]@ != s@,
        decreases v.len() - i,
    {
        if v[i] == *s {
            assert(strings_view(v@)[i as int] == s@);
            return true;
        }
        i += 1;
    }
    assert forall|k: int| 0 <= k < v.len() implies strings_view(v@)[k] != s@ by {
        assert(strings_view(v@)[k] == v@[k]@);
    }
    false
}

fn contains_modifier(v: &Vec<ModifierKey>, m: ModifierKey) -> (r: bool)
    ensures
        r == v@.contains(m),
{
    let mut i: usize = 0;
    while i < v.len()
        invariant
            0 <= i <= v.len(),
            forall|k: int| 0 <= k < i ==> v@[k] != m,
        decreases v.len() - i,
    {
        if v[i] == m {
            return true;
        }
        i += 1;
    }
    false
}

/// The most-recently-used list after normalization.
fn normalize_mru(mru: &Vec<String>, layouts: &Vec<Layout>, active_id: &String) -> (r: Vec<String>)
    ensures
        strings_view(r@) == normalized_mru(
            strings_view(mru@),
            layouts_view(layouts@),
            active_id@,
        ),
{
    let ghost lv = layouts_view(layouts@);
    let ghost mv = strings_view(mru@);
    let ghost pred = mru_keeps(lv, active_id@);
    let mut rest: Vec<String> = Vec::new();
    let mut i: usize = 0;
    while i < mru.len()
        invariant
            0 <= i <= mru.len(),
            lv == layouts_view(layouts@),
            mv == strings_view(mru@),
            pred == mru_keeps(lv, active_id@),
            strings_view(rest@) == dedup_first(mv.subrange(0, i as int).filter(pred)),
        decreases mru.len() - i,
    {
        let ghost prefix = mv.subrange(0, i as int);
        let ghost next = mv.subrange(0, i + 1);
        assert(next.drop_last() =~= prefix);
        assert(next.last() == mru@[i as int]@);
        let keep = contains_layout_id(layouts, &mru[i]) && mru[i] != *active_id;
        let ghost x = next.last();
        let ghost f = prefix.filter(pred);
        proof {
            reveal(Seq::filter);
            assert(keep == pred(x));
            if keep {
                assert(next.filter(pred) == f.push(x));
                assert(f.push(x).drop_last() =~= f);
            } else {
                assert(next.filter(pred) == f);
            }
        }
        if keep && !contains_string(&rest, &mru[i]) {
            let id = mru[i].clone();
            let ghost old_rest = rest@;
            rest.push(id);
            assert(strings_view(rest@) =~= strings_view(old_rest).push(x));
        }
        i += 1;
    }
    assert(mv.subrange(0, mru.len() as int) =~= mv);
    let mut r: Vec<String> = Vec::new();
    r.push(active_id.clone());
    let mut j: usize = 0;
    while j < rest.len()
        invariant
            0 <= j <= rest.len(),
            strings_view(r@) == seq![active_id@] + strings_view(rest@).subrange(0, j as int),
        decreases rest.len() - j,
    {
        let id = rest[j].clone();
        let ghost old_r = r@;
        r.push(id);
        assert(strings_view(r@) =~= strings_view(old_r).push(rest@[j as int]@));
        j += 1;
        assert(strings_view(r@) =~= seq![active_id@] + strings_view(rest@).subrange(0, j as int));
    }
    assert(strings_view(rest@).subrange(0, rest.len() as int) =~= strings_view(rest@));
    r
}

/// The display assignments whose layout still exists.
fn normalize_display_layouts(display: &Vec<(String, String)>, layouts: &Vec<Layout>) -> (r: Vec<
    (String, String),
>)
    ensures
        pairs_view(r@) == pairs_view(display@).filter(
            |e: (Seq<char>, Seq<char>)| has_layout_id(layouts_view(layouts@), e.1),
        ),
{
    let ghost lv = layouts_view(layouts@);
    let ghost dv = pairs_view(display@);
    let ghost pred = |e: (Seq<char>, Seq<char>)| has_layout_id(lv, e.1);
    let mut r: Vec<(String, String)> = Vec::new();
    let mut i: usize = 0;
    while i < display.len()
        invariant
            0 <= i <= display.len(),
            lv == layouts_view(layouts@),
            dv == pairs_view(display@),
            pred == (|e: (Seq<char>, Seq<char>)| has_layout_id(lv, e.1)),
            pairs_view(r@) == dv.subrange(0, i as int).filter(pred),
        decreases display.len() - i,
    {
        let ghost next = dv.subrange(0, i + 1);
        assert(next.drop_last() =~= dv.subrange(0, i as int));
        let keep = contains_layout_id(layouts, &display[i].1);
        proof {
            reveal(Seq::filter);
        }
        if keep {
            let entry = (display[i].0.clone(), display[i].1.clone());
            r.push(entry);
        }
        assert(pairs_view(r@) =~= next.filter(pred));
        i += 1;
    }
    assert(dv.subrange(0, display.len() as int) =~= dv);
    r
}

/// The window classes after normalization.
fn normalize_classes(classes: &Vec<String>) -> (r: Vec<String>)
    ensures
        strings_view(r@) == normalized_classes(strings_view(classes@)),
{
    let ghost cv = strings_view(classes@);
    let mut sorted: Vec<Vec<char>> = Vec::new();
    let mut i: usize = 0;
    while i < classes.len()
        invariant
            0 <= i <= classes.len(),
            cv == strings_view(classes@),
            strictly_sorted(sorted@.map_values(|e: Vec<char>| e@)),
            sorted@.map_values(|e: Vec<char>| e@).to_set() == cleaned_classes(
                cv.subrange(0, i as int),
            ).to_set(),
        decreases classes.len() - i,
    {
        let ghost prefix = cv.subrange(0, i as int);
        let ghost next = cv.subrange(0, i + 1);
        assert(next.drop_last() =~= prefix);
        let chars = chars_of(classes[i].as_str());
        let t = trim_chars(chars.as_slice());
        proof {
            reveal(Seq::filter);
        }
        if t.len() > 0 {
            let trimmed_string = string_of(t.as_slice());
            let lower = to_lowercase(trimmed_string.as_str());
            let lower_chars = chars_of(lower.as_str());
            insert_sorted(&mut sorted, lower_chars);
            assert(cleaned_classes(next) =~= cleaned_classes(prefix).push(
                unicode_lowercase(trimmed(cv[i as int])),
            ));
            proof {
                lemma_push_to_set(
                    cleaned_classes(prefix),
                    unicode_lowercase(trimmed(cv[i as int])),
                );
            }
        } else {
            assert(cleaned_classes(next) =~= cleaned_classes(prefix));
        }
        i += 1;
    }
    assert(cv.subrange(0, classes.len() as int) =~= cv);
    proof {
        lemma_sorted_distinct(sorted@.map_values(|e: Vec<char>| e@), cleaned_classes(cv));
    }
    let mut r: Vec<String> = Vec::new();
    let mut j: usize = 0;
    while j < sorted.len()
        invariant
            0 <= j <= sorted.len(),
            strings_view(r@) == sorted@.map_values(|e: Vec<char>| e@).subrange(0, j as int),
        decreases sorted.len() - j,
    {
        let s = string_of(sorted[j].as_slice());
        let ghost old_r = r@;
        r.push(s);
        assert(strings_view(r@) =~= strings_view(old_r).push(sorted@[j as int]@));
        j += 1;
        assert(strings_view(r@) =~= sorted@.map_values(|e: Vec<char>| e@).subrange(0, j as int));
    }
    assert(sorted@.map_values(|e: Vec<char>| e@).subrange(0, sorted.len() as int)
        =~= sorted@.map_values(|e: Vec<char>| e@));
    r
}

/// The modifiers in declaration order, each once.
fn normalize_modifiers(ms: &Vec<ModifierKey>) -> (r: Vec<ModifierKey>)
    ensures
        r@ == canonical_modifiers(ms@),
{
    let mut r: Vec<ModifierKey> = Vec::new();
    if contains_modifier(ms, ModifierKey::Shift) {
        r.push(ModifierKey::Shift);
    }
    if contains_modifier(ms, ModifierKey::Control) {
        r.push(ModifierKey::Control);
    }
    if contains_modifier(ms, ModifierKey::Alt) {
        r.push(ModifierKey::Alt);
    }
    if contains_modifier(ms, ModifierKey::Meta) {
        r.push(ModifierKey::Meta);
    }
    assert(r@ =~= canonical_modifiers(ms@));
    r
}

/// `f64::clamp(0.05, 0.95)` on the bit pattern of a binary64.
pub fn clamp_opacity(bits: u64) -> (r: u64)
    ensures
        r == clamped_opacity(bits),
{
    let magnitude = bits % 0x8000_0000_0000_0000;
    if magnitude > 0x7ff0_0000_0000_0000 {
        bits
    } else if bits >= 0x8000_0000_0000_0000 || bits < MIN_OVERLAY_OPACITY {
        MIN_OVERLAY_OPACITY
    } else if bits > MAX_OVERLAY_OPACITY {
        MAX_OVERLAY_OPACITY
    } else {
        bits
    }
}

/// `max(value, bound)`.
fn at_least(value: i32, bound: i32) -> (r: i32)
    ensures
        r == (if value < bound {
            bound
        } else {
            value
        }),
{
    if value < bound {
        bound
    } else {
        value
    }
}

/// The layouts and active index after normalization.
fn normalize_layout_choice(layouts: Vec<Layout>, active: usize) -> (r: (Vec<Layout>, usize))
    ensures
        layouts_view(r.0@) == normalized_layouts(layouts_view(layouts@)),
        r.1 == normalized_active(layouts_view(layouts@), active),
        r.1 < r.0.len(),
{
    let (layouts, active) = if layouts.len() == 0 {
        (built_in_layouts(), 0)
    } else {
        (layouts, active)
    };
    let active = clamp_layout_index(active, layouts.as_slice());
    assert(layouts@.len() == layouts_view(layouts@).len());
    (layouts, active)
}

impl Settings {
    /// The work of `normalize`, stated field by field.
    #[verifier::spinoff_prover]
    fn normalize_fields(&mut self)
        ensures
            layouts_view(final(self).layouts@) == normalized_layouts(layouts_view(old(self).layouts@)),
            final(self).active_layout == normalized_active(layouts_view(old(self).layouts@), old(self).active_layout),
            strings_view(final(self).layout_mru@) == normalized_mru(
                strings_view(old(self).layout_mru@),
                normalized_layouts(layouts_view(old(self).layouts@)),
                normalized_layouts(layouts_view(old(self).layouts@))[normalized_active(layouts_view(old(self).layouts@), old(self).active_layout) as int].id,
            ),
            pairs_view(final(self).display_layouts@) == pairs_view(old(self).display_layouts@).filter(
                |e: (Seq<char>, Seq<char>)| has_layout_id(normalized_layouts(layouts_view(old(self).layouts@)), e.1),
            ),
            final(self).gap == (if old(self).gap < 0 {
                0
            } else {
                old(self).gap
            }),
            final(self).outer_padding == (if old(self).outer_padding < 0 {
                0
            } else {
                old(self).outer_padding
            }),
            strings_view(final(self).skipped_window_classes@) == normalized_classes(
                strings_view(old(self).skipped_window_classes@),
            ),
            final(self).snap_trigger_distance == (if old(self).snap_trigger_distance < 1 {
                1
            } else {
                old(self).snap_trigger_distance
            }),
            final(self).modifiers@ == canonical_modifiers(old(self).modifiers@),
            final(self).overlay_opacity == clamped_opacity(old(self).overlay_opacity),
            final(self).version == old(self).version,
            final(self).snap_mode == old(self).snap_mode,
            final(self).layout_menu_bottom_up == old(self).layout_menu_bottom_up,
            final(self).shortcut_overrides == old(self).shortcut_overrides,
            final(self).enable_zone_overlay == old(self).enable_zone_overlay,
            final(self).enable_zone_selector == old(self).enable_zone_selector,
            final(self).enable_edge_snapping == old(self).enable_edge_snapping,
            final(self).remember_window_geometries == old(self).remember_window_geometries,
            final(self).keyboard_shortcuts_enabled == old(self).keyboard_shortcuts_enabled,
            final(self).highlight_color == old(self).highlight_color,
            final(self).show_zone_numbers == old(self).show_zone_numbers,
            final(self).track_layout_per_screen == old(self).track_layout_per_screen,
            final(self).track_layout_per_desktop == old(self).track_layout_per_desktop,
            final(self).auto_snap_new_windows == old(self).auto_snap_new_windows,
            final(self).dynamic_workspaces == old(self).dynamic_workspaces,
            final(self).keep_empty_middle_desktops == old(self).keep_empty_middle_desktops,
            final(self).macsimize_fullscreen == old(self).macsimize_fullscreen,
            final(self).macsimize_maximized == old(self).macsimize_maximized,
            final(self).macsimize_move_to_last_desktop == old(self).macsimize_move_to_last_desktop,
            final(self).macsimize_exclusive_desktops == old(self).macsimize_exclusive_desktops,
            final(self).debug == old(self).debug,
    {
        let ghost l0 = layouts_view(self.layouts@);
        let mut taken: Vec<Layout> = Vec::new();
        std::mem::swap(&mut taken, &mut self.layouts);
        let (layouts, active) = normalize_layout_choice(taken, self.active_layout);
        self.layouts = layouts;
        self.active_layout = active;
        let active_id = self.layouts[self.active_layout].id.clone();
        self.layout_mru = normalize_mru(&self.layout_mru, &self.layouts, &active_id);
        self.display_layouts = normalize_display_layouts(&self.display_layouts, &self.layouts);
        self.gap = at_least(self.gap, 0);
        self.outer_padding = at_least(self.outer_padding, 0);
        self.skipped_window_classes = normalize_classes(&self.skipped_window_classes);
        self.snap_trigger_distance = at_least(self.snap_trigger_distance, 1);
        self.modifiers = normalize_modifiers(&self.modifiers);
        self.overlay_opacity = clamp_opacity(self.overlay_opacity);
    }

    /// Brings the settings into their canonical form: there is at least one
    /// layout and `active_layout` names one; `layout_mru` starts with the
    /// active layout's id and holds only ids of existing layouts, each once;
    /// display assignments name existing layouts; `gap` and `outer_padding`
    /// are at least 0 and `snap_trigger_distance` at least 1; the skipped
    /// window classes are trimmed, lowercased, non-blank, sorted and distinct;
    /// the modifiers are sorted and distinct; the overlay opacity lies in
    /// `0.05..=0.95`.
    pub fn normalize(&mut self)
        ensures
            final(self)@ == normalized_view(old(self)@),
            maps_well_formed(old(self)@) ==> maps_well_formed(final(self)@),
    {
        let ghost s0 = self@;
        self.normalize_fields();
        assert(self@ =~= normalized_view(s0));
        proof {
            if maps_well_formed(s0) {
                lemma_normalized_keeps_maps(s0);
            }
        }
    }
}

// ---------------------------------------------------------------------------
// What normalization guarantees
// ---------------------------------------------------------------------------

/// The position of a modifier in the declaration (and sort) order.
pub open spec fn modifier_rank(k: ModifierKey) -> int {
    match k {
        ModifierKey::Shift => 0,
        ModifierKey::Control => 1,
        ModifierKey::Alt => 2,
        ModifierKey::Meta => 3,
    }
}

/// Every class is already what trimming and lowercasing it would give.
pub open spec fn classes_are_clean(classes: Seq<Seq<char>>) -> bool {
    forall|i: int|
        0 <= i < classes.len() ==> trimmed(#[trigger] classes[i]).len() > 0 && unicode_lowercase(
            trimmed(classes[i]),
        ) == classes[i]
}

proof fn lemma_dedup_first_props(s: Seq<Seq<char>>)
    ensures
        dedup_first(s).no_duplicates(),
        forall|y: Seq<char>| dedup_first(s).contains(y) ==> s.contains(y),
    decreases s.len(),
{
    if s.len() > 0 {
        lemma_dedup_first_props(s.drop_last());
        let p = dedup_first(s.drop_last());
        assert forall|y: Seq<char>| dedup_first(s).contains(y) implies s.contains(y) by {
            if p.contains(y) {
                assert(s.drop_last().contains(y));
                let m = choose|m: int| 0 <= m < s.drop_last().len() && s.drop_last()[m] == y;
                assert(s[m] == y);
            } else {
                assert(s[s.len() - 1] == y);
            }
        }
    }
}

proof fn lemma_dedup_first_of_distinct(s: Seq<Seq<char>>)
    requires
        s.no_duplicates(),
    ensures
        dedup_first(s) == s,
    decreases s.len(),
{
    if s.len() > 0 {
        let t = s.drop_last();
        assert(t.no_duplicates());
        lemma_dedup_first_of_distinct(t);
        if t.contains(s.last()) {
            let k = choose|k: int| 0 <= k < t.len() && t[k] == s.last();
            assert(s[k] == s[s.len() - 1]);
        }
        assert(t.push(s.last()) =~= s);
    }
}

proof fn lemma_filter_keeps_all<A>(s: Seq<A>, pred: spec_fn(A) -> bool)
    requires
        forall|i: int| 0 <= i < s.len() ==> pred(#[trigger] s[i]),
    ensures
        s.filter(pred) == s,
    decreases s.len(),
{
    reveal(Seq::filter);
    if s.len() > 0 {
        let t = s.drop_last();
        assert forall|i: int| 0 <= i < t.len() implies pred(#[trigger] t[i]) by {
            assert(t[i] == s[i]);
        }
        lemma_filter_keeps_all(t, pred);
        assert(pred(s[s.len() - 1]));
        assert(t.push(s.last()) =~= s);
    }
}

proof fn lemma_filter_skips_head<A>(s: Seq<A>, pred: spec_fn(A) -> bool)
    requires
        s.len() > 0,
        !pred(s[0]),
    ensures
        s.filter(pred) == s.drop_first().filter(pred),
    decreases s.len(),
{
    reveal(Seq::filter);
    if s.len() == 1 {
        assert(s.drop_last() =~= Seq::<A>::empty());
        assert(s.drop_first() =~= Seq::<A>::empty());
    } else {
        lemma_filter_skips_head(s.drop_last(), pred);
        assert(s.drop_last().drop_first() =~= s.drop_first().drop_last());
        assert(s.drop_first().last() == s.last());
    }
}

/// The normalized most-recently-used list is headed by the active id, has no
/// repeats and names only existing layouts.
proof fn lemma_mru_canonical(mru: Seq<Seq<char>>, layouts: Seq<LayoutView>, active: int)
    requires
        0 <= active < layouts.len(),
    ensures
        ({
            let r = normalized_mru(mru, layouts, layouts[active].id);
            &&& r.len() > 0
            &&& r[0] == layouts[active].id
            &&& r.no_duplicates()
            &&& forall|i: int| 0 <= i < r.len() ==> has_layout_id(layouts, #[trigger] r[i])
        }),
{
    let active_id = layouts[active].id;
    let pred = mru_keeps(layouts, active_id);
    let f = mru.filter(pred);
    let d = dedup_first(f);
    let r = normalized_mru(mru, layouts, active_id);
    assert(r == seq![active_id] + d);
    lemma_dedup_first_props(f);
    assert(has_layout_id(layouts, active_id)) by {
        assert(layouts[active].id == active_id);
    }
    assert forall|y: Seq<char>| d.contains(y) implies pred(y) by {
        assert(f.contains(y));
        let k = choose|k: int| 0 <= k < f.len() && f[k] == y;
        mru.lemma_filter_pred(pred, k);
    }
    assert forall|i: int| 0 <= i < r.len() implies has_layout_id(layouts, #[trigger] r[i]) by {
        if i > 0 {
            assert(r[i] == d[i - 1]);
            assert(d.contains(d[i - 1]));
        }
    }
    assert forall|i: int, j: int| 0 <= i < r.len() && 0 <= j < r.len() && i != j implies r[i]
        != r[j] by {
        if i > 0 {
            assert(r[i] == d[i - 1]);
            assert(d.contains(d[i - 1]));
        }
        if j > 0 {
            assert(r[j] == d[j - 1]);
            assert(d.contains(d[j - 1]));
        }
    }
}

/// A most-recently-used list already in normalized form is kept as it is.
proof fn lemma_mru_fixed(mru: Seq<Seq<char>>, layouts: Seq<LayoutView>)
    requires
        mru.len() > 0,
        mru.no_duplicates(),
        forall|i: int| 0 <= i < mru.len() ==> has_layout_id(layouts, #[trigger] mru[i]),
    ensures
        normalized_mru(mru, layouts, mru[0]) == mru,
{
    let active_id = mru[0];
    let pred = mru_keeps(layouts, active_id);
    let tail = mru.drop_first();
    lemma_filter_skips_head(mru, pred);
    assert forall|i: int| 0 <= i < tail.len() implies pred(#[trigger] tail[i]) by {
        assert(tail[i] == mru[i + 1]);
        assert(mru[i + 1] != mru[0]);
    }
    lemma_filter_keeps_all(tail, pred);
    assert(tail.no_duplicates()) by {
        assert forall|i: int, j: int|
            0 <= i < tail.len() && 0 <= j < tail.len() && i != j implies tail[i] != tail[j] by {
            assert(tail[i] == mru[i + 1] && tail[j] == mru[j + 1]);
        }
    }
    lemma_dedup_first_of_distinct(tail);
    assert(normalized_mru(mru, layouts, active_id) =~= mru);
}

proof fn lemma_classes_fixed(classes: Seq<Seq<char>>)
    requires
        strictly_sorted(classes),
        classes_are_clean(classes),
    ensures
        normalized_classes(classes) == classes,
{
    let cpred = |c: Seq<char>| trimmed(c).len() > 0;
    lemma_filter_keeps_all(classes, cpred);
    assert(cleaned_classes(classes) =~= classes);
    lemma_sorted_distinct(classes, classes);
}

/// Modifiers strictly increasing in declaration order.
pub open spec fn modifiers_sorted(ms: Seq<ModifierKey>) -> bool {
    forall|i: int, j: int|
        0 <= i < j < ms.len() ==> modifier_rank(#[trigger] ms[i]) < modifier_rank(#[trigger] ms[j])
}

proof fn lemma_canonical_modifiers_sorted(ms: Seq<ModifierKey>)
    ensures
        modifiers_sorted(canonical_modifiers(ms)),
{
    let c = canonical_modifiers(ms);
    let a = if_present(ms, ModifierKey::Shift);
    let b = if_present(ms, ModifierKey::Control);
    let d = if_present(ms, ModifierKey::Alt);
    let e = if_present(ms, ModifierKey::Meta);
    assert forall|i: int, j: int| 0 <= i < j < c.len() implies modifier_rank(#[trigger] c[i])
        < modifier_rank(#[trigger] c[j]) by {
        // Every element of a later block has a higher rank than every
        // element of an earlier block.
        assert(forall|k: int| 0 <= k < a.len() ==> modifier_rank(#[trigger] a[k]) == 0);
        assert(forall|k: int| 0 <= k < b.len() ==> modifier_rank(#[trigger] b[k]) == 1);
        assert(forall|k: int| 0 <= k < d.len() ==> modifier_rank(#[trigger] d[k]) == 2);
        assert(forall|k: int| 0 <= k < e.len() ==> modifier_rank(#[trigger] e[k]) == 3);
        assert(forall|k: int| 0 <= k < c.len() ==> modifier_rank(#[trigger] c[k]) == if k
            < a.len() {
            0int
        } else if k < a.len() + b.len() {
            1int
        } else if k < a.len() + b.len() + d.len() {
            2int
        } else {
            3int
        });
    }
}

proof fn lemma_rank_lower(ms: Seq<ModifierKey>, i: int)
    requires
        0 <= i < ms.len(),
        modifiers_sorted(ms),
    ensures
        modifier_rank(ms[i]) >= i,
    decreases i,
{
    if i > 0 {
        lemma_rank_lower(ms, i - 1);
        assert(modifier_rank(ms[i - 1]) < modifier_rank(ms[i]));
    }
}

proof fn lemma_rank_upper(ms: Seq<ModifierKey>, i: int)
    requires
        0 <= i < ms.len(),
        modifiers_sorted(ms),
    ensures
        modifier_rank(ms[i]) <= 3 - (ms.len() - 1 - i),
    decreases ms.len() - i,
{
    if i < ms.len() - 1 {
        lemma_rank_upper(ms, i + 1);
        assert(modifier_rank(ms[i]) < modifier_rank(ms[i + 1]));
    }
}

/// Sorted, distinct modifiers are their own canonical form.
proof fn lemma_canonical_modifiers_of_sorted(ms: Seq<ModifierKey>)
    requires
        modifiers_sorted(ms),
    ensures
        canonical_modifiers(ms) == ms,
{
    if ms.len() > 0 {
        lemma_rank_lower(ms, 0);
        lemma_rank_upper(ms, 0);
    }
    // The ranks of `ms` are distinct, so membership is decided by rank.
    let c = canonical_modifiers(ms);
    lemma_canonical_modifiers_sorted(ms);
    assert forall|k: ModifierKey| c.contains(k) <==> ms.contains(k) by {
        if ms.contains(k) {
            assert(if_present(ms, k) == seq![k]);
            match k {
                ModifierKey::Shift => assert(c[0] == k),
                ModifierKey::Control => assert(c[if_present(ms, ModifierKey::Shift).len() as int] == k),
                ModifierKey::Alt => assert(c[(if_present(ms, ModifierKey::Shift).len() + if_present(ms, ModifierKey::Control).len()) as int] == k),
                ModifierKey::Meta => assert(c[c.len() - 1] == k),
            }
        }
        if c.contains(k) {
            let i = choose|i: int| 0 <= i < c.len() && c[i] == k;
            assert(if_present(ms, k).len() > 0) by {
                match k {
                    ModifierKey::Shift => {},
                    ModifierKey::Control => {},
                    ModifierKey::Alt => {},
                    ModifierKey::Meta => {},
                }
            }
        }
    }
    lemma_modifiers_unique(c, ms);
}

/// Two strictly increasing modifier sequences with the same members are equal.
proof fn lemma_modifiers_unique(a: Seq<ModifierKey>, b: Seq<ModifierKey>)
    requires
        modifiers_sorted(a),
        modifiers_sorted(b),
        forall|k: ModifierKey| a.contains(k) <==> b.contains(k),
    ensures
        a == b,
    decreases a.len(),
{
    if a.len() == 0 {
        if b.len() > 0 {
            assert(b.contains(b[0]));
        }
        assert(a =~= b);
    } else {
        assert(a.contains(a[0]));
        assert(b.contains(a[0]));
        assert(b.len() > 0);
        assert(b.contains(b[0]));
        assert(a.contains(b[0]));
        let j = choose|j: int| 0 <= j < b.len() && b[j] == a[0];
        let k = choose|k: int| 0 <= k < a.len() && a[k] == b[0];
        if j > 0 {
            assert(modifier_rank(b[0]) < modifier_rank(b[j]));
            if k > 0 {
                assert(modifier_rank(a[0]) < modifier_rank(a[k]));
            }
        }
        assert(a[0] == b[0]);
        let ta = a.drop_first();
        let tb = b.drop_first();
        assert forall|x: ModifierKey| ta.contains(x) <==> tb.contains(x) by {
            if ta.contains(x) {
                let p = choose|p: int| 0 <= p < ta.len() && ta[p] == x;
                assert(a[p + 1] == x);
                assert(modifier_rank(a[0]) < modifier_rank(a[p + 1]));
                assert(b.contains(x));
                let q = choose|q: int| 0 <= q < b.len() && b[q] == x;
                assert(q != 0);
                assert(tb[q - 1] == x);
            }
            if tb.contains(x) {
                let p = choose|p: int| 0 <= p < tb.len() && tb[p] == x;
                assert(b[p + 1] == x);
                assert(modifier_rank(b[0]) < modifier_rank(b[p + 1]));
                assert(a.contains(x));
                let q = choose|q: int| 0 <= q < a.len() && a[q] == x;
                assert(q != 0);
                assert(ta[q - 1] == x);
            }
        }
        lemma_modifiers_unique(ta, tb);
        assert(a =~= seq![a[0]] + ta);
        assert(b =~= seq![b[0]] + tb);
    }
}

/// The canonical form `normalize` produces.
pub open spec fn is_normalized(s: SettingsView) -> bool {
    &&& s.layouts.len() > 0
    &&& s.active_layout < s.layouts.len()
    &&& s.layout_mru.len() > 0
    &&& s.layout_mru[0] == s.layouts[s.active_layout as int].id
    &&& s.layout_mru.no_duplicates()
    &&& forall|i: int|
        0 <= i < s.layout_mru.len() ==> has_layout_id(s.layouts, #[trigger] s.layout_mru[i])
    &&& forall|i: int|
        0 <= i < s.display_layouts.len() ==> has_layout_id(
            s.layouts,
            (#[trigger] s.display_layouts[i]).1,
        )
    &&& s.gap >= 0
    &&& s.outer_padding >= 0
    &&& s.snap_trigger_distance >= 1
    &&& strictly_sorted(s.skipped_window_classes)
    &&& modifiers_sorted(s.modifiers)
    &&& clamped_opacity(s.overlay_opacity) == s.overlay_opacity
}

/// Keeping some entries of a list with unique keys keeps the keys unique.
proof fn lemma_filter_unique_keys(
    d: Seq<(Seq<char>, Seq<char>)>,
    pred: spec_fn((Seq<char>, Seq<char>)) -> bool,
)
    requires
        unique_keys(d),
    ensures
        unique_keys(d.filter(pred)),
    decreases d.len(),
{
    reveal(Seq::filter);
    if d.len() > 0 {
        let init = d.drop_last();
        assert(unique_keys(init)) by {
            assert forall|i: int, j: int| 0 <= i < j < init.len() implies (#[trigger] init[i]).0 != (
            #[trigger] init[j]).0 by {
                assert(d[i].0 != d[j].0);
            }
        }
        lemma_filter_unique_keys(init, pred);
        let f = init.filter(pred);
        if pred(d.last()) {
            let g = f.push(d.last());
            assert forall|i: int, j: int| 0 <= i < j < g.len() implies (#[trigger] g[i]).0 != (
            #[trigger] g[j]).0 by {
                if j == f.len() {
                    init.lemma_filter_contains_rev(pred, f[i]);
                    let k = choose|k: int| 0 <= k < init.len() && init[k] == f[i];
                    assert(d[k].0 != d[d.len() - 1].0);
                }
            }
        }
    }
}

/// Normalizing keeps the key-value lists free of repeated keys.
pub proof fn lemma_normalized_keeps_maps(s: SettingsView)
    requires
        maps_well_formed(s),
    ensures
        maps_well_formed(normalized_view(s)),
{
    let layouts = normalized_layouts(s.layouts);
    lemma_filter_unique_keys(
        s.display_layouts,
        |e: (Seq<char>, Seq<char>)| has_layout_id(layouts, e.1),
    );
}

/// Law: whatever the settings, `normalize` leaves them in canonical form
/// (`is_normalized`): at least one layout, a valid active index, a
/// duplicate-free most-recently-used list headed by the active layout and
/// naming only existing layouts, display assignments naming existing layouts,
/// non-negative gaps, a positive trigger distance, sorted distinct window
/// classes and modifiers, and a clamped overlay opacity.
pub proof fn lemma_normalize_is_canonical(s: SettingsView)
    ensures
        is_normalized(normalized_view(s)),
{
    let n = normalized_view(s);
    assert(n.layouts.len() > 0);
    lemma_mru_canonical(s.layout_mru, n.layouts, n.active_layout as int);
    let dpred = |e: (Seq<char>, Seq<char>)| has_layout_id(n.layouts, e.1);
    assert(n.display_layouts == s.display_layouts.filter(dpred));
    assert forall|i: int| 0 <= i < n.display_layouts.len() implies has_layout_id(
        n.layouts,
        (#[trigger] n.display_layouts[i]).1,
    ) by {
        s.display_layouts.lemma_filter_pred(dpred, i);
    }
    lemma_sorted_distinct_exists(cleaned_classes(s.skipped_window_classes));
    lemma_canonical_modifiers_sorted(s.modifiers);
}

/// Law: settings already in canonical form, whose window classes are already
/// trimmed and lowercased, are left exactly as they are by `normalize`.
pub proof fn lemma_normalize_fixes_canonical(s: SettingsView)
    requires
        is_normalized(s),
        classes_are_clean(s.skipped_window_classes),
    ensures
        normalized_view(s) == s,
{
    let n = normalized_view(s);
    assert(n.layouts == s.layouts);
    assert(n.active_layout == s.active_layout);
    lemma_mru_fixed(s.layout_mru, s.layouts);
    assert(n.layout_mru == s.layout_mru);
    let dpred = |e: (Seq<char>, Seq<char>)| has_layout_id(s.layouts, e.1);
    lemma_filter_keeps_all(s.display_layouts, dpred);
    assert(n.display_layouts == s.display_layouts);
    lemma_classes_fixed(s.skipped_window_classes);
    lemma_canonical_modifiers_of_sorted(s.modifiers);
    assert(n =~= s);
}

/// Law: normalizing twice is normalizing once, whenever lowercasing the
/// cleaned window classes once more changes nothing (which depends only on
/// the Unicode case mapping of those names).
pub proof fn lemma_normalize_idempotent(s: SettingsView)
    requires
        classes_are_clean(cleaned_classes(s.skipped_window_classes)),
    ensures
        normalized_view(normalized_view(s)) == normalized_view(s),
{
    let n = normalized_view(s);
    lemma_normalize_is_canonical(s);
    let c = cleaned_classes(s.skipped_window_classes);
    lemma_sorted_distinct_exists(c);
    assert forall|i: int| 0 <= i < n.skipped_window_classes.len() implies trimmed(
        #[trigger] n.skipped_window_classes[i],
    ).len() > 0 && unicode_lowercase(trimmed(n.skipped_window_classes[i]))
        == n.skipped_window_classes[i] by {
        let x = n.skipped_window_classes[i];
        assert(n.skipped_window_classes.to_set().contains(x));
        assert(c.to_set().contains(x));
        let k = choose|k: int| 0 <= k < c.len() && c[k] == x;
    }
    lemma_normalize_fixes_canonical(n);
}

// ---------------------------------------------------------------------------
// Where the settings live
// ---------------------------------------------------------------------------

/// The `ProjectDirs` of the `directories` crate, carried through the library
/// without looking inside.
#[verifier::external_type_specification]
#[verifier::external_body]
pub struct ExProjectDirs(directories::ProjectDirs);

/// `ProjectDirs::from` of the `directories` crate: the XDG directories of the
/// application named `application`, none when no home directory is known.
/// What comes back depends on the environment, so nothing is promised of it.
#[verifier::external_body]
fn project_dirs_from(qualifier: &str, organization: &str, application: &str) -> Option<
    directories::ProjectDirs,
> {
    directories::ProjectDirs::from(qualifier, organization, application)
}

/// `ProjectDirs::config_dir` of the `directories` crate, as an owned path. The
/// directory comes from the environment; nothing is promised of it.
#[verifier::external_body]
fn config_dir_of(dirs: &directories::ProjectDirs) -> std::path::PathBuf {
    dirs.config_dir().to_path_buf()
}

/// `Path::join` from std: `base` with `name` appended as a further component.
/// Paths are opaque here; nothing is promised of the result.
#[verifier::external_body]
fn join_path(base: &std::path::PathBuf, name: &str) -> std::path::PathBuf {
    base.join(name)
}

/// The name under which FanzyZones KDE keeps its XDG directories.
pub fn application_name() -> (r: &'static str)
    ensures
        r@ == "fanzyzones-kde"@,
{
    "fanzyzones-kde"
}

/// The reverse-domain qualifier and the organization of the project
/// directories: both empty.
pub fn project_qualifier() -> (r: (&'static str, &'static str))
    ensures
        r.0@ == ""@,
        r.1@ == ""@,
{
    ("", "")
}

/// The name of the settings file in the config directory.
pub fn settings_file_name() -> (r: &'static str)
    ensures
        r@ == "settings.json"@,
{
    "settings.json"
}

/// The XDG directories of FanzyZones KDE, asked for with the empty qualifier
/// and organization and the name `application_name()`; none when no home
/// directory is known.
pub fn project_dirs() -> Option<directories::ProjectDirs> {
    let (qualifier, organization) = project_qualifier();
    project_dirs_from(qualifier, organization, application_name())
}

/// The settings file within the project directories `dirs`:
/// `settings_file_name()` joined onto their config directory. A path comes
/// back exactly when the directories are known.
pub fn settings_path_in(dirs: Option<directories::ProjectDirs>) -> (r: Option<std::path::PathBuf>)
    ensures
        r is Some <==> dirs is Some,
{
    match dirs {
        Some(dirs) => {
            let dir = config_dir_of(&dirs);
            Some(join_path(&dir, settings_file_name()))
        },
        None => None,
    }
}

/// The settings file, `settings_file_name()` joined onto the config directory
/// of `project_dirs()`; none when no home directory is known.
pub fn settings_path() -> Option<std::path::PathBuf> {
    settings_path_in(project_dirs())
}

} // verus!
