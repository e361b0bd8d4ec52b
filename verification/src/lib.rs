//! Verified core of FanzyZones KDE: window-zone layouts, settings
//! normalization, layout editing, global-shortcut key sequences and the small
//! KConfig/command helpers the desktop integration relies on.
pub mod text;
pub mod layout;
pub mod config;
pub mod actions;
pub mod menu;
pub mod shortcuts;
pub mod kconfig;
pub mod kwin;
pub mod tray;
pub mod backend;
