//! Zones and layouts. A zone's rectangle is normalized to the screen
//! (`0.0..=1.0`, top-left origin). Verified code never computes with those
//! fractions, so each is carried as the bit pattern of its IEEE-754 binary64
//! value (`f64::to_bits`); the pixel conversion lives with the desktop code.
use vstd::prelude::*;

verus! {

/// A rectangle in screen pixels.
#[derive(Debug, Clone, Copy, PartialEq, Eq, Structural)]
pub struct Rect {
    pub x: i32,
    pub y: i32,
    pub width: i32,
    pub height: i32,
}

/// One zone of a layout.
#[derive(Debug, Clone)]
pub struct Zone {
    pub id: usize,
    pub name: String,
    /// Left edge, as the bits of a binary64 fraction of the screen width.
    pub x: u64,
    /// Top edge, as the bits of a binary64 fraction of the screen height.
    pub y: u64,
    /// Width, as the bits of a binary64 fraction of the screen width.
    pub width: u64,
    /// Height, as the bits of a binary64 fraction of the screen height.
    pub height: u64,
    pub applications: Vec<String>,
}

/// A named set of zones.
#[derive(Debug, Clone)]
pub struct Layout {
    pub id: String,
    pub name: String,
    pub is_built_in: bool,
    pub padding: i32,
    pub zones: Vec<Zone>,
}

/// The mathematical value of a zone.
pub struct ZoneView {
    pub id: usize,
    pub name: Seq<char>,
    pub x: u64,
    pub y: u64,
    pub width: u64,
    pub height: u64,
    pub applications: Seq<Seq<char>>,
}

/// The mathematical value of a layout.
pub struct LayoutView {
    pub id: Seq<char>,
    pub name: Seq<char>,
    pub is_built_in: bool,
    pub padding: i32,
    pub zones: Seq<ZoneView>,
}

impl View for Zone {
    type V = ZoneView;

    open spec fn view(&self) -> ZoneView {
        ZoneView {
            id: self.id,
            name: self.name@,
            x: self.x,
            y: self.y,
            width: self.width,
            height: self.height,
            applications: self.applications@.map_values(|a: String| a@),
        }
    }
}

impl View for Layout {
    type V = LayoutView;

    open spec fn view(&self) -> LayoutView {
        LayoutView {
            id: self.id@,
            name: self.name@,
            is_built_in: self.is_built_in,
            padding: self.padding,
            zones: self.zones@.map_values(|z: Zone| z@),
        }
    }
}

/// The views of a vector of layouts.
pub open spec fn layouts_view(v: Seq<Layout>) -> Seq<LayoutView> {
    v.map_values(|l: Layout| l@)
}

/// Bits of the binary64 values the built-in layouts use.
pub const F64_ZERO: u64 = 0x0;

pub const F64_ONE: u64 = 0x3ff0_0000_0000_0000;

pub const F64_HALF: u64 = 0x3fe0_0000_0000_0000;

pub const F64_QUARTER: u64 = 0x3fd0_0000_0000_0000;

pub const F64_THREE_QUARTERS: u64 = 0x3fe8_0000_0000_0000;

/// `1.0 / 3.0`
pub const F64_THIRD: u64 = 0x3fd5_5555_5555_5555;

/// `2.0 / 3.0`
pub const F64_TWO_THIRDS: u64 = 0x3fe5_5555_5555_5555;

pub const F64_0_3: u64 = 0x3fd3_3333_3333_3333;

pub const F64_0_4: u64 = 0x3fd9_9999_9999_999a;

pub const F64_0_6: u64 = 0x3fe3_3333_3333_3333;

pub const F64_0_7: u64 = 0x3fe6_6666_6666_6666;

impl Zone {
    /// A zone with no pinned applications.
    pub fn new(id: usize, name: String, x: u64, y: u64, width: u64, height: u64) -> (z: Self)
        ensures
            z@ == zone_view(id, name@, x, y, width, height),
    {
        let z = Zone { id, name, x, y, width, height, applications: Vec::new() };
        assert(z@.applications =~= Seq::<Seq<char>>::empty());
        z
    }
}

/// The view of a zone built by `Zone::new`.
pub open spec fn zone_view(
    id: usize,
    name: Seq<char>,
    x: u64,
    y: u64,
    width: u64,
    height: u64,
) -> ZoneView {
    ZoneView { id, name, x, y, width, height, applications: Seq::empty() }
}

impl Layout {
    /// A built-in layout without padding.
    pub fn new(id: String, name: String, zones: Vec<Zone>) -> (l: Self)
        ensures
            l@ == (LayoutView {
                id: id@,
                name: name@,
                is_built_in: true,
                padding: 0,
                zones: zones@.map_values(|z: Zone| z@),
            }),
    {
        Layout { id, name, is_built_in: true, padding: 0, zones }
    }
}

/// The view of a built-in layout.
pub open spec fn built_in_view(id: Seq<char>, name: Seq<char>, zones: Seq<ZoneView>) -> LayoutView {
    LayoutView { id, name, is_built_in: true, padding: 0, zones }
}

/// The grid zone in row `row` and column `col`, named `Zone <n>`.
pub open spec fn grid_zone(row: int, col: int, name: Seq<char>) -> ZoneView {
    let frac = if col == 0 {
        F64_ZERO
    } else if col == 1 {
        F64_THIRD
    } else {
        F64_TWO_THIRDS
    };
    let top = if row == 0 {
        F64_ZERO
    } else if row == 1 {
        F64_THIRD
    } else {
        F64_TWO_THIRDS
    };
    zone_view((row * 3 + col) as usize, name, frac, top, F64_THIRD, F64_THIRD)
}

/// The seven built-in layouts, in menu order.
pub open spec fn built_in_layouts_view() -> Seq<LayoutView> {
    seq![
        built_in_view(
            "builtin.two-panes"@,
            "Two Panes"@,
            seq![
                zone_view(0, "Left"@, F64_ZERO, F64_ZERO, F64_HALF, F64_ONE),
                zone_view(1, "Right"@, F64_HALF, F64_ZERO, F64_HALF, F64_ONE),
            ],
        ),
        built_in_view(
            "builtin.two-panes-wide"@,
            "Two Panes (Wide + Side)"@,
            seq![
                zone_view(0, "Main"@, F64_ZERO, F64_ZERO, F64_0_7, F64_ONE),
                zone_view(1, "Side"@, F64_0_7, F64_ZERO, F64_0_3, F64_ONE),
            ],
        ),
        built_in_view(
            "builtin.three-panes"@,
            "Three Panes"@,
            seq![
                zone_view(0, "Left"@, F64_ZERO, F64_ZERO, F64_THIRD, F64_ONE),
                zone_view(1, "Center"@, F64_THIRD, F64_ZERO, F64_THIRD, F64_ONE),
                zone_view(2, "Right"@, F64_TWO_THIRDS, F64_ZERO, F64_THIRD, F64_ONE),
            ],
        ),
        built_in_view(
            "builtin.three-panes-ultrawide"@,
            "Three Panes (Ultrawide)"@,
            seq![
                zone_view(0, "Left"@, F64_ZERO, F64_ZERO, F64_QUARTER, F64_ONE),
                zone_view(1, "Center"@, F64_QUARTER, F64_ZERO, F64_HALF, F64_ONE),
                zone_view(2, "Right"@, F64_THREE_QUARTERS, F64_ZERO, F64_QUARTER, F64_ONE),
            ],
        ),
        built_in_view(
            "builtin.quarters"@,
            "Quarters"@,
            seq![
                zone_view(0, "Top-Left"@, F64_ZERO, F64_ZERO, F64_HALF, F64_HALF),
                zone_view(1, "Top-Right"@, F64_HALF, F64_ZERO, F64_HALF, F64_HALF),
                zone_view(2, "Bottom-Left"@, F64_ZERO, F64_HALF, F64_HALF, F64_HALF),
                zone_view(3, "Bottom-Right"@, F64_HALF, F64_HALF, F64_HALF, F64_HALF),
            ],
        ),
        built_in_view(
            "builtin.priority-left"@,
            "Priority (Left Focus)"@,
            seq![
                zone_view(0, "Focus"@, F64_ZERO, F64_ZERO, F64_0_6, F64_ONE),
                zone_view(1, "Top-Right"@, F64_0_6, F64_ZERO, F64_0_4, F64_HALF),
                zone_view(2, "Bottom-Right"@, F64_0_6, F64_HALF, F64_0_4, F64_HALF),
            ],
        ),
        built_in_view(
            "builtin.grid-3x3"@,
            "Grid 3x3"@,
            seq![
                grid_zone(0, 0, "Zone 1"@),
                grid_zone(0, 1, "Zone 2"@),
                grid_zone(0, 2, "Zone 3"@),
                grid_zone(1, 0, "Zone 4"@),
                grid_zone(1, 1, "Zone 5"@),
                grid_zone(1, 2, "Zone 6"@),
                grid_zone(2, 0, "Zone 7"@),
                grid_zone(2, 1, "Zone 8"@),
                grid_zone(2, 2, "Zone 9"@),
            ],
        ),
    ]
}

fn zone(id: usize, name: &str, x: u64, y: u64, width: u64, height: u64) -> (z: Zone)
    ensures
        z@ == zone_view(id, name@, x, y, width, height),
{
    Zone::new(id, name.to_owned(), x, y, width, height)
}

fn built_in(id: &str, name: &str, zones: Vec<Zone>) -> (l: Layout)
    ensures
        l@ == built_in_view(id@, name@, zones@.map_values(|z: Zone| z@)),
{
    Layout::new(id.to_owned(), name.to_owned(), zones)
}

fn grid_3x3_zones() -> (v: Vec<Zone>)
    ensures
        v@.map_values(|z: Zone| z@) == built_in_layouts_view()[6].zones,
{
    let v = vec![
        zone(0, "Zone 1", F64_ZERO, F64_ZERO, F64_THIRD, F64_THIRD),
        zone(1, "Zone 2", F64_THIRD, F64_ZERO, F64_THIRD, F64_THIRD),
        zone(2, "Zone 3", F64_TWO_THIRDS, F64_ZERO, F64_THIRD, F64_THIRD),
        zone(3, "Zone 4", F64_ZERO, F64_THIRD, F64_THIRD, F64_THIRD),
        zone(4, "Zone 5", F64_THIRD, F64_THIRD, F64_THIRD, F64_THIRD),
        zone(5, "Zone 6", F64_TWO_THIRDS, F64_THIRD, F64_THIRD, F64_THIRD),
        zone(6, "Zone 7", F64_ZERO, F64_TWO_THIRDS, F64_THIRD, F64_THIRD),
        zone(7, "Zone 8", F64_THIRD, F64_TWO_THIRDS, F64_THIRD, F64_THIRD),
        zone(8, "Zone 9", F64_TWO_THIRDS, F64_TWO_THIRDS, F64_THIRD, F64_THIRD),
    ];
    assert(v@.map_values(|z: Zone| z@) =~= built_in_layouts_view()[6].zones);
    v
}

/// The seven built-in layouts: Two Panes, Two Panes (Wide + Side), Three
/// Panes, Three Panes (Ultrawide), Quarters, Priority (Left Focus), Grid 3x3.
pub fn built_in_layouts() -> (v: Vec<Layout>)
    ensures
        layouts_view(v@) == built_in_layouts_view(),
{
    let v = vec![
        built_in(
            "builtin.two-panes",
            "Two Panes",
            vec![
                zone(0, "Left", F64_ZERO, F64_ZERO, F64_HALF, F64_ONE),
                zone(1, "Right", F64_HALF, F64_ZERO, F64_HALF, F64_ONE),
            ],
        ),
        built_in(
            "builtin.two-panes-wide",
            "Two Panes (Wide + Side)",
            vec![
                zone(0, "Main", F64_ZERO, F64_ZERO, F64_0_7, F64_ONE),
                zone(1, "Side", F64_0_7, F64_ZERO, F64_0_3, F64_ONE),
            ],
        ),
        built_in(
            "builtin.three-panes",
            "Three Panes",
            vec![
                zone(0, "Left", F64_ZERO, F64_ZERO, F64_THIRD, F64_ONE),
                zone(1, "Center", F64_THIRD, F64_ZERO, F64_THIRD, F64_ONE),
                zone(2, "Right", F64_TWO_THIRDS, F64_ZERO, F64_THIRD, F64_ONE),
            ],
        ),
        built_in(
            "builtin.three-panes-ultrawide",
            "Three Panes (Ultrawide)",
            vec![
                zone(0, "Left", F64_ZERO, F64_ZERO, F64_QUARTER, F64_ONE),
                zone(1, "Center", F64_QUARTER, F64_ZERO, F64_HALF, F64_ONE),
                zone(2, "Right", F64_THREE_QUARTERS, F64_ZERO, F64_QUARTER, F64_ONE),
            ],
        ),
        built_in(
            "builtin.quarters",
            "Quarters",
            vec![
                zone(0, "Top-Left", F64_ZERO, F64_ZERO, F64_HALF, F64_HALF),
                zone(1, "Top-Right", F64_HALF, F64_ZERO, F64_HALF, F64_HALF),
                zone(2, "Bottom-Left", F64_ZERO, F64_HALF, F64_HALF, F64_HALF),
                zone(3, "Bottom-Right", F64_HALF, F64_HALF, F64_HALF, F64_HALF),
            ],
        ),
        built_in(
            "builtin.priority-left",
            "Priority (Left Focus)",
            vec![
                zone(0, "Focus", F64_ZERO, F64_ZERO, F64_0_6, F64_ONE),
                zone(1, "Top-Right", F64_0_6, F64_ZERO, F64_0_4, F64_HALF),
                zone(2, "Bottom-Right", F64_0_6, F64_HALF, F64_0_4, F64_HALF),
            ],
        ),
        built_in("builtin.grid-3x3", "Grid 3x3", grid_3x3_zones()),
    ];
    assert(layouts_view(v@) =~= built_in_layouts_view()) by {
        assert forall|i: int| 0 <= i < 6 implies (#[trigger] layouts_view(v@)[i]).zones
            =~= built_in_layouts_view()[i].zones by {}
    }
    v
}

/// The index of the layout to use for `index`: `index` itself when it names a
/// layout, the last layout when it is past the end, and 0 when there are none.
pub fn clamp_layout_index(index: usize, layouts: &[Layout]) -> (r: usize)
    ensures
        r == clamped_index(index as int, layouts@.len() as int),
{
    if layouts.len() == 0 {
        0
    } else if index < layouts.len() - 1 {
        index
    } else {
        layouts.len() - 1
    }
}

/// `min(index, len - 1)`, or 0 when `len` is 0.
pub open spec fn clamped_index(index: int, len: int) -> int {
    if len <= 0 {
        0
    } else if index < len {
        index
    } else {
        len - 1
    }
}

} // verus!
