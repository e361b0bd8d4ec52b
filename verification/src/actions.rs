//! Layout selection and editing: resolving a layout named on the command
//! line, checking layout and zone numbers, saving a layout from the visual
//! editor, deleting custom layouts.
use vstd::prelude::*;

use crate::config::Settings;
use crate::layout::{layouts_view, zone_view, Layout, LayoutView, Zone, ZoneView, F64_ZERO};
use crate::text::{
    append_str, chars_of, concat_chars, decimal, decimal_chars, parse_usize, parse_usize_chars,
    lemma_trimmed_unchanged, string_of, to_lowercase, trim_chars, trimmed, unicode_lowercase,
};

verus! {

/// Why a layout action was refused.
#[derive(Debug, Clone, PartialEq, Eq)]
pub enum ActionError {
    /// The zero-based layout index names no layout.
    LayoutMissing { layout: usize },
    /// The zero-based zone index names no zone of the layout called `layout_name`.
    ZoneMissing { zone: usize, layout_name: String },
    /// The zero-based zone index names no zone of the chosen layout.
    ZoneIndexMissing { zone: usize },
    /// Built-in layouts cannot be deleted.
    BuiltInLayout,
    /// No layout has this index, id or name.
    UnknownLayout { input: String },
    /// The layout editor returned a layout without zones.
    NoZones,
    /// Zones are numbered from 1.
    ZoneNumberZero,
}

/// The text of a one-based number `n + 1`.
pub open spec fn ordinal_text(n: usize) -> Seq<char> {
    decimal((n + 1) as nat)
}

/// The message each error is reported with.
pub open spec fn error_message(e: ActionError) -> Seq<char> {
    match e {
        ActionError::LayoutMissing { layout } => "layout "@ + ordinal_text(layout)
            + " does not exist"@,
        ActionError::ZoneMissing { zone, layout_name } => "zone "@ + ordinal_text(zone)
            + " does not exist in "@ + layout_name@,
        ActionError::ZoneIndexMissing { zone } => "zone "@ + ordinal_text(zone)
            + " does not exist"@,
        ActionError::BuiltInLayout => "built-in layouts cannot be deleted"@,
        ActionError::UnknownLayout { input } => "unknown layout '"@ + input@ + "'"@,
        ActionError::NoZones => "layout editor returned no zones"@,
        ActionError::ZoneNumberZero => "zone must be 1 or greater"@,
    }
}

fn ordinal_chars(n: usize) -> (r: Vec<char>)
    ensures
        r@ == ordinal_text(n),
{
    decimal_chars(n as u128 + 1)
}

impl ActionError {
    /// The message this error is reported with.
    pub fn message(&self) -> (m: String)
        ensures
            m@ == error_message(*self),
    {
        let v: Vec<char> = match self {
            ActionError::LayoutMissing { layout } => {
                let v = append_str(Vec::new(), "layout ");
                let n = ordinal_chars(*layout);
                let v = concat_chars(v.as_slice(), n.as_slice());
                append_str(v, " does not exist")
            },
            ActionError::ZoneMissing { zone, layout_name } => {
                let v = append_str(Vec::new(), "zone ");
                let n = ordinal_chars(*zone);
                let v = concat_chars(v.as_slice(), n.as_slice());
                let v = append_str(v, " does not exist in ");
                append_str(v, layout_name.as_str())
            },
            ActionError::ZoneIndexMissing { zone } => {
                let v = append_str(Vec::new(), "zone ");
                let n = ordinal_chars(*zone);
                let v = concat_chars(v.as_slice(), n.as_slice());
                append_str(v, " does not exist")
            },
            ActionError::BuiltInLayout => append_str(Vec::new(), "built-in layouts cannot be deleted"),
            ActionError::UnknownLayout { input } => {
                let v = append_str(Vec::new(), "unknown layout '");
                let v = append_str(v, input.as_str());
                append_str(v, "'")
            },
            ActionError::NoZones => append_str(Vec::new(), "layout editor returned no zones"),
            ActionError::ZoneNumberZero => append_str(Vec::new(), "zone must be 1 or greater"),
        };
        string_of(v.as_slice())
    }
}

// ---------------------------------------------------------------------------
// Checking layout and zone numbers
// ---------------------------------------------------------------------------

/// `Ok` when `layout` names a layout of `settings`.
pub fn ensure_layout_exists(settings: &Settings, layout: usize) -> (r: Result<(), ActionError>)
    ensures
        r is Ok <==> layout < settings.layouts.len(),
        r is Err ==> r == Err::<(), ActionError>(ActionError::LayoutMissing { layout }),
{
    if layout < settings.layouts.len() {
        Ok(())
    } else {
        Err(ActionError::LayoutMissing { layout })
    }
}

/// `Ok` when `zone` names a zone of layout `layout` of `settings`.
pub fn ensure_zone_exists(settings: &Settings, layout: usize, zone: usize) -> (r: Result<
    (),
    ActionError,
>)
    ensures
        r is Ok <==> layout < settings.layouts.len() && zone
            < settings.layouts@[layout as int].zones.len(),
        layout >= settings.layouts.len() ==> r == Err::<(), ActionError>(
            ActionError::LayoutMissing { layout },
        ),
        layout < settings.layouts.len() && zone >= settings.layouts@[layout as int].zones.len()
            ==> (r matches Err(ActionError::ZoneMissing { zone: z, layout_name: n }) && z == zone
            && n@ == settings.layouts@[layout as int].name@),
{
    ensure_layout_exists(settings, layout)?;
    if zone < settings.layouts[layout].zones.len() {
        Ok(())
    } else {
        Err(ActionError::ZoneMissing { zone, layout_name: settings.layouts[layout].name.clone() })
    }
}

/// `Ok` when layout `layout` exists and has a zone `zone`, as required
/// before the focused window is moved.
pub fn check_snap_target(settings: &Settings, layout: usize, zone: usize) -> (r: Result<
    (),
    ActionError,
>)
    ensures
        r is Ok <==> layout < settings.layouts.len() && zone
            < settings.layouts@[layout as int].zones.len(),
        layout >= settings.layouts.len() ==> r == Err::<(), ActionError>(
            ActionError::LayoutMissing { layout },
        ),
        layout < settings.layouts.len() && zone >= settings.layouts@[layout as int].zones.len()
            ==> r == Err::<(), ActionError>(ActionError::ZoneIndexMissing { zone }),
{
    if layout >= settings.layouts.len() {
        return Err(ActionError::LayoutMissing { layout });
    }
    if zone >= settings.layouts[layout].zones.len() {
        return Err(ActionError::ZoneIndexMissing { zone });
    }
    Ok(())
}

// ---------------------------------------------------------------------------
// Resolving a layout given by index, id or name
// ---------------------------------------------------------------------------

/// The layout matches `input` case-insensitively by id or name.
pub open spec fn layout_matches(l: LayoutView, input: Seq<char>) -> bool {
    unicode_lowercase(l.id) == unicode_lowercase(input) || unicode_lowercase(l.name)
        == unicode_lowercase(input)
}

/// `input` is a zero-based index of one of `count` layouts.
pub open spec fn is_layout_index(input: Seq<char>, count: nat) -> bool {
    parse_usize(input) matches Some(i) && i < count
}

/// `k` is the layout that `input` selects: the layout with that zero-based
/// index, or else the first whose id or name matches it ignoring case.
pub open spec fn picks_layout(settings: Settings, input: Seq<char>, k: int) -> bool {
    &&& 0 <= k < settings.layouts.len()
    &&& if is_layout_index(input, settings.layouts.len() as nat) {
        Some(k as usize) == parse_usize(input)
    } else {
        &&& layout_matches(settings.layouts@[k]@, input)
        &&& forall|j: int| 0 <= j < k ==> !layout_matches(#[trigger] settings.layouts@[j]@, input)
    }
}

/// `input` selects no layout: it is no index of one, and matches no id or name.
pub open spec fn picks_no_layout(settings: Settings, input: Seq<char>) -> bool {
    &&& !is_layout_index(input, settings.layouts.len() as nat)
    &&& forall|j: int|
        0 <= j < settings.layouts.len() ==> !layout_matches(#[trigger] settings.layouts@[j]@, input)
}

/// The layout selected by `input`: a zero-based index, or a layout id or name
/// (ignoring case).
pub fn resolve_layout(settings: &Settings, input: &str) -> (r: Result<usize, ActionError>)
    ensures
        match r {
            Ok(k) => picks_layout(*settings, input@, k as int),
            Err(e) => picks_no_layout(*settings, input@) && (e matches ActionError::UnknownLayout {
                input: i,
            } && i@ == input@),
        },
{
    let chars = chars_of(input);
    if let Some(index) = parse_usize_chars(chars.as_slice()) {
        if index < settings.layouts.len() {
            return Ok(index);
        }
    }
    assert(!is_layout_index(input@, settings.layouts.len() as nat));
    let needle = to_lowercase(input);
    let mut k: usize = 0;
    while k < settings.layouts.len()
        invariant
            0 <= k <= settings.layouts.len(),
            needle@ == unicode_lowercase(input@),
            !is_layout_index(input@, settings.layouts.len() as nat),
            forall|j: int| 0 <= j < k ==> !layout_matches(#[trigger] settings.layouts@[j]@, input@),
        decreases settings.layouts.len() - k,
    {
        let id = to_lowercase(settings.layouts[k].id.as_str());
        let name = to_lowercase(settings.layouts[k].name.as_str());
        if id == needle || name == needle {
            return Ok(k);
        }
        k += 1;
    }
    Err(ActionError::UnknownLayout { input: input.to_owned() })
}

/// The layout and zone (both zero-based) that the command line's `snap-zone
/// <zone> [--layout <layout>]` moves the focused window to: zone numbers
/// start at 1, and the layout is the active one unless `layout` selects one.
pub fn snap_zone_target(settings: &Settings, zone: usize, layout: Option<&str>) -> (r: Result<
    (usize, usize),
    ActionError,
>)
    ensures
        match r {
            Ok((l, z)) => {
                &&& zone > 0 && z == zone - 1
                &&& l < settings.layouts.len() && z < settings.layouts@[l as int].zones.len()
                &&& layout is None ==> l == settings.active_layout
                &&& layout matches Some(s) ==> picks_layout(*settings, s@, l as int)
            },
            Err(e) => {
                ||| zone == 0 && e == ActionError::ZoneNumberZero
                ||| zone > 0 && layout is None && settings.active_layout >= settings.layouts.len()
                    && e == (ActionError::LayoutMissing { layout: settings.active_layout })
                ||| zone > 0 && layout is None && settings.active_layout < settings.layouts.len()
                    && zone - 1 >= settings.layouts@[settings.active_layout as int].zones.len()
                    && (e matches ActionError::ZoneMissing { zone: z, layout_name: n } && z == zone
                    - 1 && n@ == settings.layouts@[settings.active_layout as int].name@)
                ||| zone > 0 && (layout matches Some(s) && picks_no_layout(*settings, s@) && (
                e matches ActionError::UnknownLayout { input: i } && i@ == s@))
                ||| zone > 0 && (layout matches Some(s) && exists|l: int|
                    picks_layout(*settings, s@, l) && zone - 1 >= settings.layouts@[l].zones.len()
                        && (e matches ActionError::ZoneMissing { zone: z, layout_name: n } && z
                        == zone - 1 && n@ == settings.layouts@[l].name@))
            },
        },
{
    if zone == 0 {
        return Err(ActionError::ZoneNumberZero);
    }
    let layout_index = match layout {
        Some(s) => resolve_layout(settings, s)?,
        None => settings.active_layout,
    };
    let zone_index = zone - 1;
    ensure_zone_exists(settings, layout_index, zone_index)?;
    Ok((layout_index, zone_index))
}

// ---------------------------------------------------------------------------
// Layouts from the visual editor
// ---------------------------------------------------------------------------

/// One zone as the editor returns it; each coordinate is the bit pattern of a
/// binary64 fraction, absent when the editor sent no number.
#[derive(Debug, Clone, Copy, PartialEq, Eq, Structural)]
pub struct EditorZone {
    pub x: Option<u64>,
    pub y: Option<u64>,
    pub width: Option<u64>,
    pub height: Option<u64>,
}

/// A layout as the visual editor returns it.
#[derive(Debug, Clone)]
pub struct EditorResult {
    /// The `name` field, when it is a string.
    pub name: Option<String>,
    /// The `id` field, when it is a string.
    pub id: Option<String>,
    /// The `zones` field, when it is an array.
    pub zones: Vec<EditorZone>,
}

/// A coordinate, 0.0 when absent.
pub open spec fn coord_or_zero(c: Option<u64>) -> u64 {
    match c {
        Some(b) => b,
        None => F64_ZERO,
    }
}

/// The name of the `i`-th (zero-based) editor zone: `Zone <i + 1>`.
pub open spec fn editor_zone_name(i: usize) -> Seq<char> {
    "Zone "@ + ordinal_text(i)
}

/// The zone the editor's `i`-th zone becomes.
pub open spec fn editor_zone_view(i: usize, z: EditorZone) -> ZoneView {
    zone_view(
        i,
        editor_zone_name(i),
        coord_or_zero(z.x),
        coord_or_zero(z.y),
        coord_or_zero(z.width),
        coord_or_zero(z.height),
    )
}

/// The name of a saved layout: the trimmed name, or `My Layout` when that is
/// absent or blank.
pub open spec fn editor_layout_name(name: Option<Seq<char>>) -> Seq<char> {
    let t = match name {
        Some(n) => trimmed(n),
        None => trimmed("My Layout"@),
    };
    if t.len() == 0 {
        "My Layout"@
    } else {
        t
    }
}

/// The id of a saved layout: the given id unless absent or empty, else
/// `custom.<millis>` from the clock reading `millis`.
pub open spec fn editor_layout_id(id: Option<Seq<char>>, millis: u128) -> Seq<char> {
    match id {
        Some(i) => if i.len() > 0 {
            i
        } else {
            "custom."@ + decimal(millis as nat)
        },
        None => "custom."@ + decimal(millis as nat),
    }
}

/// The layout an editor result becomes: a custom (not built-in) layout
/// without padding, whose zones are numbered from 0 and named `Zone 1`,
/// `Zone 2`, ... in the editor's order.
pub open spec fn editor_layout_view(result: EditorResult, millis: u128) -> LayoutView {
    LayoutView {
        id: editor_layout_id(
            match result.id {
                Some(i) => Some(i@),
                None => None,
            },
            millis,
        ),
        name: editor_layout_name(
            match result.name {
                Some(n) => Some(n@),
                None => None,
            },
        ),
        is_built_in: false,
        padding: 0,
        zones: Seq::new(
            result.zones@.len(),
            |i: int| editor_zone_view(i as usize, result.zones@[i]),
        ),
    }
}

fn unwrap_coord(c: Option<u64>) -> (r: u64)
    ensures
        r == coord_or_zero(c),
{
    match c {
        Some(b) => b,
        None => F64_ZERO,
    }
}

/// Builds the layout the visual editor returned; `millis` is the clock reading
/// (milliseconds since the Unix epoch) that names a layout without an id.
pub fn layout_from_editor(result: EditorResult, millis: u128) -> (r: Result<Layout, ActionError>)
    ensures
        result.zones@.len() == 0 <==> r is Err,
        r is Err ==> r == Err::<Layout, ActionError>(ActionError::NoZones),
        r matches Ok(l) ==> l@ == editor_layout_view(result, millis),
        r matches Ok(l) ==> l.zones.len() == result.zones.len() && forall|i: int|
            0 <= i < l.zones.len() ==> {
                &&& (#[trigger] l.zones@[i]).id == i
                &&& l.zones@[i].x == match result.zones@[i].x {
                    Some(b) => b,
                    None => 0u64,
                }
                &&& l.zones@[i].y == match result.zones@[i].y {
                    Some(b) => b,
                    None => 0u64,
                }
                &&& l.zones@[i].width == match result.zones@[i].width {
                    Some(b) => b,
                    None => 0u64,
                }
                &&& l.zones@[i].height == match result.zones@[i].height {
                    Some(b) => b,
                    None => 0u64,
                }
            },
{
    let raw_name = match &result.name {
        Some(n) => chars_of(n.as_str()),
        None => chars_of("My Layout"),
    };
    let t = trim_chars(raw_name.as_slice());
    let name = if t.len() == 0 {
        "My Layout".to_owned()
    } else {
        string_of(t.as_slice())
    };
    let id = match &result.id {
        Some(i) if !i.as_str().is_empty() => i.clone(),
        _ => {
            let v = append_str(Vec::new(), "custom.");
            let digits = decimal_chars(millis);
            string_of(concat_chars(v.as_slice(), digits.as_slice()).as_slice())
        },
    };
    let ghost target = editor_layout_view(result, millis);
    let mut zones: Vec<Zone> = Vec::new();
    let mut i: usize = 0;
    while i < result.zones.len()
        invariant
            0 <= i <= result.zones.len(),
            target == editor_layout_view(result, millis),
            zones@.map_values(|z: Zone| z@) == target.zones.subrange(0, i as int),
        decreases result.zones.len() - i,
    {
        let z = result.zones[i];
        let n = append_str(Vec::new(), "Zone ");
        let num = ordinal_chars(i);
        let zone_name = string_of(concat_chars(n.as_slice(), num.as_slice()).as_slice());
        let zone = Zone::new(
            i,
            zone_name,
            unwrap_coord(z.x),
            unwrap_coord(z.y),
            unwrap_coord(z.width),
            unwrap_coord(z.height),
        );
        let ghost before = zones@;
        zones.push(zone);
        assert(zones@.map_values(|z: Zone| z@) =~= before.map_values(|z: Zone| z@).push(
            target.zones[i as int],
        ));
        i += 1;
        assert(zones@.map_values(|z: Zone| z@) =~= target.zones.subrange(0, i as int));
    }
    if zones.len() == 0 {
        return Err(ActionError::NoZones);
    }
    assert(target.zones.subrange(0, i as int) =~= target.zones);
    let layout = Layout { id, name, is_built_in: false, padding: 0, zones };
    assert(layout@ =~= target);
    assert forall|k: int| 0 <= k < layout.zones.len() implies (#[trigger] layout.zones@[k])@
        == editor_zone_view(k as usize, result.zones@[k]) by {
        assert(layout@.zones[k] == layout.zones@[k]@);
    }
    Ok(layout)
}

// ---------------------------------------------------------------------------
// Saving and deleting layouts
// ---------------------------------------------------------------------------

/// The first index of a layout with id `id`, if any.
pub open spec fn first_with_id(layouts: Seq<LayoutView>, id: Seq<char>) -> Option<int> {
    if exists|k: int| 0 <= k < layouts.len() && (#[trigger] layouts[k]).id == id {
        Some(
            choose|k: int|
                0 <= k < layouts.len() && (#[trigger] layouts[k]).id == id && forall|j: int|
                    0 <= j < k ==> (#[trigger] layouts[j]).id != id,
        )
    } else {
        None
    }
}

fn find_layout_id(layouts: &Vec<Layout>, id: &String) -> (r: Option<usize>)
    ensures
        match r {
            Some(k) => k < layouts.len() && layouts@[k as int].id@ == id@ && forall|j: int|
                0 <= j < k ==> layouts@[j].id@ != id@,
            None => forall|j: int| 0 <= j < layouts.len() ==> layouts@[j].id@ != id@,
        },
{
    let mut k: usize = 0;
    while k < layouts.len()
        invariant
            0 <= k <= layouts.len(),
            forall|j: int| 0 <= j < k ==> layouts@[j].id@ != id@,
        decreases layouts.len() - k,
    {
        if layouts[k].id == *id {
            return Some(k);
        }
        k += 1;
    }
    None
}

/// The layouts after storing `layout` in place of the first layout with the
/// same id (or appending it), with the index it now has.
fn upserted(layouts: Vec<Layout>, layout: Layout) -> (r: (Vec<Layout>, usize))
    ensures
        ({
            let before = layouts_view(layouts@);
            let slot = first_with_id(before, layout@.id);
            &&& layouts_view(r.0@) == match slot {
                Some(k) => before.update(k, layout@),
                None => before.push(layout@),
            }
            &&& r.1 == match slot {
                Some(k) => k,
                None => before.len() as int,
            }
        }),
{
    let ghost before = layouts_view(layouts@);
    let ghost lv = layout@;
    let mut layouts = layouts;
    match find_layout_id(&layouts, &layout.id) {
        Some(k) => {
            assert(before[k as int].id == lv.id);
            assert(forall|j: int| 0 <= j < k ==> (#[trigger] before[j]).id != lv.id);
            proof {
                let slot = first_with_id(before, lv.id);
                let c = slot.unwrap();
                if c < k {
                    assert(before[c].id != lv.id);
                } else if c > k {
                    assert(before[k as int].id != lv.id);
                }
                assert(slot == Some(k as int));
            }
            layouts.set(k, layout);
            assert(layouts_view(layouts@) =~= before.update(k as int, lv));
            (layouts, k)
        },
        None => {
            assert(forall|j: int| 0 <= j < before.len() ==> (#[trigger] before[j]).id != lv.id);
            layouts.push(layout);
            assert(layouts_view(layouts@) =~= before.push(lv));
            let k = layouts.len() - 1;
            (layouts, k)
        },
    }
}

/// Stores `layout` in place of the first layout with the same id, or appends
/// it when there is none, and makes it the active layout.
pub fn upsert_layout(settings: &mut Settings, layout: Layout)
    ensures
        ({
            let before = layouts_view(old(settings).layouts@);
            let slot = first_with_id(before, layout@.id);
            &&& layouts_view(final(settings).layouts@) == match slot {
                Some(k) => before.update(k, layout@),
                None => before.push(layout@),
            }
            &&& final(settings).active_layout == match slot {
                Some(k) => k,
                None => before.len() as int,
            }
        }),
        final(settings).agrees_except(old(settings), true, true, false, false),
{
    let mut taken: Vec<Layout> = Vec::new();
    std::mem::swap(&mut taken, &mut settings.layouts);
    let (layouts, active) = upserted(taken, layout);
    settings.layouts = layouts;
    settings.active_layout = active;
}

/// The active index after layout `removed` is deleted from a list that then
/// holds `remaining` layouts.
pub open spec fn active_after_delete(active: usize, removed: usize, remaining: nat) -> usize {
    if active == removed {
        0
    } else if active > removed {
        (active - 1) as usize
    } else if active >= remaining {
        if remaining == 0 {
            0
        } else {
            (remaining - 1) as usize
        }
    } else {
        active
    }
}

/// The layouts and active index after deleting layout `index`.
fn after_delete(layouts: Vec<Layout>, active: usize, index: usize) -> (r: (Vec<Layout>, usize))
    requires
        index < layouts.len(),
    ensures
        ({
            let rest = layouts_view(layouts@).remove(index as int);
            &&& layouts_view(r.0@) == if rest.len() == 0 {
                crate::layout::built_in_layouts_view()
            } else {
                rest
            }
            &&& r.1 == active_after_delete(active, index, layouts_view(r.0@).len())
        }),
{
    let ghost before = layouts_view(layouts@);
    let mut layouts = layouts;
    let _removed = layouts.remove(index);
    assert(layouts_view(layouts@) =~= before.remove(index as int));
    let layouts = if layouts.len() == 0 {
        crate::layout::built_in_layouts()
    } else {
        layouts
    };
    let active = if active == index {
        0
    } else if active > index {
        active - 1
    } else if active >= layouts.len() {
        if layouts.len() == 0 {
            0
        } else {
            layouts.len() - 1
        }
    } else {
        active
    };
    assert(layouts@.len() == layouts_view(layouts@).len());
    (layouts, active)
}

/// Deletes custom layout `index`. Built-in layouts are kept; when the last
/// layout goes, the built-in layouts return. The active layout stays the same
/// layout when it is another one, and becomes the first layout when it is the
/// deleted one.
pub fn delete_custom_layout(settings: &mut Settings, index: usize) -> (r: Result<(), ActionError>)
    ensures
        index >= old(settings).layouts.len() ==> r == Err::<(), ActionError>(
            ActionError::LayoutMissing { layout: index },
        ) && *final(settings) == *old(settings),
        index < old(settings).layouts.len() && old(settings).layouts@[index as int].is_built_in
            ==> r == Err::<(), ActionError>(ActionError::BuiltInLayout) && *final(settings) == *old(
            settings,
        ),
        index < old(settings).layouts.len() && !old(settings).layouts@[index as int].is_built_in
            ==> {
            let rest = layouts_view(old(settings).layouts@).remove(index as int);
            &&& r is Ok
            &&& layouts_view(final(settings).layouts@) == if rest.len() == 0 {
                crate::layout::built_in_layouts_view()
            } else {
                rest
            }
            &&& final(settings).active_layout == active_after_delete(
                old(settings).active_layout,
                index,
                layouts_view(final(settings).layouts@).len(),
            )
            &&& final(settings).agrees_except(old(settings), true, true, false, false)
        },
{
    if index >= settings.layouts.len() {
        return Err(ActionError::LayoutMissing { layout: index });
    }
    if settings.layouts[index].is_built_in {
        return Err(ActionError::BuiltInLayout);
    }
    let mut taken: Vec<Layout> = Vec::new();
    std::mem::swap(&mut taken, &mut settings.layouts);
    let (layouts, active) = after_delete(taken, settings.active_layout, index);
    settings.layouts = layouts;
    settings.active_layout = active;
    Ok(())
}

// ---------------------------------------------------------------------------
// Laws of layout editing
// ---------------------------------------------------------------------------

/// Law: after a layout is stored, it is the active layout: the index that
/// `upsert_layout` makes active holds exactly that layout, and the list grew
/// by one only when no layout had its id.
pub proof fn lemma_upsert_activates(before: Seq<LayoutView>, layout: LayoutView)
    ensures
        ({
            let slot = first_with_id(before, layout.id);
            let after = match slot {
                Some(k) => before.update(k, layout),
                None => before.push(layout),
            };
            let active = match slot {
                Some(k) => k,
                None => before.len() as int,
            };
            &&& 0 <= active < after.len()
            &&& after[active] == layout
            &&& after.len() == before.len() + if slot is None {
                1int
            } else {
                0int
            }
        }),
{
    let slot = first_with_id(before, layout.id);
    if exists|k: int| 0 <= k < before.len() && (#[trigger] before[k]).id == layout.id {
        let i = choose|k: int| 0 <= k < before.len() && (#[trigger] before[k]).id == layout.id;
        lemma_first_id_exists(before, layout.id, i);
    }
}

/// When some layout has id `id`, a first one does.
pub(crate) proof fn lemma_first_id_exists(layouts: Seq<LayoutView>, id: Seq<char>, i: int)
    requires
        0 <= i < layouts.len(),
        layouts[i].id == id,
    ensures
        exists|k: int|
            0 <= k < layouts.len() && (#[trigger] layouts[k]).id == id && forall|j: int|
                0 <= j < k ==> (#[trigger] layouts[j]).id != id,
    decreases i,
{
    if exists|j: int| 0 <= j < i && (#[trigger] layouts[j]).id == id {
        let j = choose|j: int| 0 <= j < i && (#[trigger] layouts[j]).id == id;
        lemma_first_id_exists(layouts, id, j);
    } else {
        assert(forall|j: int| 0 <= j < i ==> (#[trigger] layouts[j]).id != id);
    }
}

/// Law: deleting a layout other than the active one keeps the same layout
/// active, at its new position.
pub proof fn lemma_delete_keeps_active_layout(layouts: Seq<LayoutView>, active: usize, index: usize)
    requires
        index < layouts.len(),
        active < layouts.len(),
        active != index,
    ensures
        ({
            let rest = layouts.remove(index as int);
            let now = active_after_delete(active, index, rest.len());
            &&& rest.len() > 0
            &&& now < rest.len()
            &&& rest[now as int] == layouts[active as int]
        }),
{
}

/// Law: each zone of a layout saved from the editor lies where the editor
/// put it: its left edge is the editor zone's `x`, its top edge its `y`, its
/// size its `width` and `height` (0.0 where the editor sent none), and it is
/// numbered by its position and named `Zone <n>` counting from 1.
pub proof fn lemma_editor_zones_kept(result: EditorResult, millis: u128, i: int)
    requires
        0 <= i < result.zones@.len(),
    ensures
        ({
            let z = editor_layout_view(result, millis).zones[i];
            let e = result.zones@[i];
            &&& editor_layout_view(result, millis).zones.len() == result.zones@.len()
            &&& z.x == match e.x {
                Some(b) => b,
                None => 0u64,
            }
            &&& z.y == match e.y {
                Some(b) => b,
                None => 0u64,
            }
            &&& z.width == match e.width {
                Some(b) => b,
                None => 0u64,
            }
            &&& z.height == match e.height {
                Some(b) => b,
                None => 0u64,
            }
            &&& z.id == i
            &&& z.name == "Zone "@ + decimal((i + 1) as nat)
        }),
{
    let z = editor_layout_view(result, millis).zones[i];
    assert(z == editor_zone_view(i as usize, result.zones@[i]));
    assert(result.zones@.len() == result.zones.len());
    assert((i as usize) as int == i);
}

/// Law: a layout saved from the editor is a custom layout without padding;
/// it keeps the id the editor gave, or is named `custom.<millis>` by the clock
/// when that id is absent or empty; and it keeps the editor's name without the
/// spaces around it, or is called `My Layout` when that name is absent or blank.
pub proof fn lemma_editor_layout_identity(result: EditorResult, millis: u128)
    ensures
        !editor_layout_view(result, millis).is_built_in,
        editor_layout_view(result, millis).padding == 0,
        editor_layout_view(result, millis).id == match result.id {
            Some(i) => if i@.len() > 0 {
                i@
            } else {
                "custom."@ + decimal(millis as nat)
            },
            None => "custom."@ + decimal(millis as nat),
        },
        editor_layout_view(result, millis).name == match result.name {
            Some(n) => if trimmed(n@).len() > 0 {
                trimmed(n@)
            } else {
                "My Layout"@
            },
            None => "My Layout"@,
        },
{
    reveal_strlit("My Layout");
    lemma_trimmed_unchanged("My Layout"@);
}

} // verus!
