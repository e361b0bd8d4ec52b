# fanzyzones_kde

The verified core of FanzyZones KDE, a FancyZones-style window layout tool for
KDE Plasma, written in Verus. The functions in `src/` carry contracts that
Verus proves, except the few marked `#[verifier::external_body]`, which call
std or the `directories` crate and whose contracts are trusted. Where a result
depends on the environment (the XDG directories), the contract says only what
is handed to the outside call. The `fanzyzones-kde` program in `app/` does the
I/O around the library.

## Layout

- `src/text.rs`: character-level text handling (trimming, ASCII case folding,
  splitting, joining, replacing, decimal numbers, string order) with the
  specifications of the std behaviour it reproduces.
- `src/layout.rs`: zones, layouts and the seven built-in layouts. Zone
  fractions are carried as the bit patterns of their binary64 values.
- `src/config.rs`: the settings, their defaults and `normalize`, with the laws
  that normalization yields a canonical form, and leaves settings alone that
  are canonical already and whose skipped window classes are trimmed and
  lowercased.
- `src/actions.rs`: resolving layouts named on the command line, checking
  layout and zone numbers, storing editor layouts, deleting custom layouts.
- `src/menu.rs`: what each tray-menu action does to the settings and which
  desktop work follows it.
- `src/shortcuts.rs`: the global shortcut table, key codes and their text form
  in both directions (proved to round-trip), and the decisions behind reading
  and rebinding shortcuts through KGlobalAccel.
- `src/kconfig.rs`: Plasma's KConfig files as text: lines, groups, values, the
  system tray's item lists, `kwriteconfig6` arguments and shell quoting.
- `src/kwin.rs`: the KWin script's names and how the results of the commands
  that drive KWin are judged.
- `src/tray.rs`, `src/backend.rs`: the tray icon's messages and commands, and
  the hand-over slots of the layout editor.
- `app/`: the command-line program: argument parsing, files, processes,
  D-Bus, JSON, and the pixel arithmetic on zone fractions.
- `tests/`: tests of the library on concrete values.
