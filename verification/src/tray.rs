//! The tray icon: the messages its clicks send, its tool tip, and the command
//! that asks the Plasma applet to toggle its menu.
use vstd::prelude::*;
use crate::config::Settings;
use crate::text::{chars_of, string_of};

verus! {

/// What the tray icon asks of the application.
#[derive(Debug, Clone)]
pub enum TrayMessage {
    /// Run the KWin setup once the tray is up.
    StartupSync,
    /// Open the visual menu at `(x, y)`; `source` says which click asked.
    OpenVisualMenu { source: &'static str, x: i32, y: i32, status: String },
}

/// The tray tool tip: the active layout's name, then the status line.
pub fn tray_tool_tip(settings: &Settings, status: &str) -> (r: String)
    ensures
        r@ == "Active layout: "@ + (if settings.active_layout < settings.layouts.len() {
            settings.layouts@[settings.active_layout as int].name@
        } else {
            "Unknown"@
        }) + seq!['\n'] + status@,
{
    let mut v = chars_of("Active layout: ");
    v = crate::text::append_str(v, settings.active_layout_name());
    v.push('\n');
    v = crate::text::append_str(v, status);
    string_of(v.as_slice())
}

/// Where the menu should open: the click position, when the panel gave one.
#[derive(Debug, Clone, PartialEq, Eq)]
pub struct TrayAnchor {
    pub valid: bool,
    pub x: i32,
    pub y: i32,
    pub width: i32,
    pub height: i32,
    pub source: String,
}

/// The command handed to the Plasma applet when the tray icon is clicked.
#[derive(Debug, Clone, PartialEq, Eq)]
pub struct TrayCommand {
    pub action: String,
    pub reason: String,
    pub sequence: u64,
    pub anchor: TrayAnchor,
}

/// The command for the `sequence`-th click, for `reason`, at `(x, y)`: the
/// position counts as an anchor unless it is the origin, which panels send
/// when they know no position.
pub fn tray_command(reason: &str, sequence: u64, x: i32, y: i32) -> (c: TrayCommand)
    ensures
        c.action@ == "toggleTrayMenu"@,
        c.reason@ == reason@,
        c.sequence == sequence,
        c.anchor.valid == (x != 0 || y != 0),
        c.anchor.x == x,
        c.anchor.y == y,
        c.anchor.width == 0,
        c.anchor.height == 0,
        c.anchor.source@ == (if x != 0 || y != 0 {
            "trayClick"@
        } else {
            "unknown"@
        }),
{
    let valid = x != 0 || y != 0;
    let source = if valid {
        "trayClick"
    } else {
        "unknown"
    };
    TrayCommand {
        action: "toggleTrayMenu".to_owned(),
        reason: reason.to_owned(),
        sequence,
        anchor: TrayAnchor { valid, x, y, width: 0, height: 0, source: source.to_owned() },
    }
}

} // verus!
