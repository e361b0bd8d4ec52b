//! The FanzyZones global shortcuts: their table, the text form of a Qt key
//! code ("Meta+Ctrl+1") in both directions, and the decisions behind reading
//! and rebinding them through KGlobalAccel. The D-Bus calls themselves are made
//! by the application around this library.
use vstd::prelude::*;
use crate::text::{
    ascii_lower, ascii_lowercase, ascii_lowercase_chars, ascii_upper, ascii_upper_char, chars_eq,
    chars_of, concat_chars, decimal, decimal_chars, is_white_space, join_chars, join_with,
    lemma_decimal_value, lemma_join_front, lemma_split_join, lemma_trim_end_prepend,
    lemma_trim_end_shape, lemma_trim_start_append, lemma_trim_start_shape, lemma_trimmed_idempotent,
    lemma_trimmed_of_trim_end, lemma_trimmed_of_trim_start, lemma_trimmed_shape,
    lemma_trimmed_unchanged, parse_i32, parse_i32_chars,
    parse_int, split_chars, split_on, string_of, trim_chars, trim_end, trim_start, trimmed,
};

verus! {

/// Qt's `Meta` modifier bit.
pub const META: i32 = 0x1000_0000;

/// Qt's `Ctrl` modifier bit.
pub const CTRL: i32 = 0x0400_0000;

/// Qt's `Alt` modifier bit.
pub const ALT: i32 = 0x0800_0000;

/// Qt's `Shift` modifier bit.
pub const SHIFT: i32 = 0x0200_0000;

/// Qt's keypad modifier bit, written `Num` in a sequence string.
pub const KEYPAD: i32 = 0x2000_0000;

pub const KEY_1: i32 = 0x31;

pub const KEY_C: i32 = 0x43;

pub const KEY_SPACE: i32 = 0x20;

pub const KEY_LEFT: i32 = 0x0100_0012;

pub const KEY_RIGHT: i32 = 0x0100_0014;

pub const KEY_UP: i32 = 0x0100_0013;

pub const KEY_DOWN: i32 = 0x0100_0015;

pub const KEY_PGUP: i32 = 0x0100_0016;

pub const KEY_PGDOWN: i32 = 0x0100_0017;

/// Qt's `F1`; `F2` to `F12` follow it.
pub const KEY_F1: i32 = 0x0100_0030;

/// The bits of a key code that name the key, without its modifiers.
pub const KEY_MASK: i32 = 0x01FF_FFFF;

/// The bits of a key code that its text form keeps: the key, the four
/// modifiers and the keypad bit.
pub const KEY_AND_MODIFIERS: i32 = 0x3FFF_FFFF;

// ---------------------------------------------------------------------------
// Key code to text
// ---------------------------------------------------------------------------

/// The name of a key without modifiers: a digit or capital letter stands for
/// itself, a few named keys have names, and `F1`..`F12` are written so.
pub open spec fn key_name_spec(key: i32) -> Option<Seq<char>> {
    if (0x30 <= key <= 0x39) || (0x41 <= key <= 0x5a) {
        Some(seq![key as char])
    } else if key == KEY_SPACE {
        Some("Space"@)
    } else if key == KEY_LEFT {
        Some("Left"@)
    } else if key == KEY_RIGHT {
        Some("Right"@)
    } else if key == KEY_UP {
        Some("Up"@)
    } else if key == KEY_DOWN {
        Some("Down"@)
    } else if key == KEY_PGUP {
        Some("PgUp"@)
    } else if key == KEY_PGDOWN {
        Some("PgDown"@)
    } else if KEY_F1 <= key <= 0x0100_003b {
        Some(seq!['F'] + decimal((key - KEY_F1 + 1) as nat))
    } else {
        None
    }
}

/// The modifier names of `key`, in the order Meta, Ctrl, Alt, Shift, Num
/// (the keypad).
pub open spec fn modifier_names(key: i32) -> Seq<Seq<char>> {
    let s1 = if key & META != 0 {
        seq!["Meta"@]
    } else {
        Seq::<Seq<char>>::empty()
    };
    let s2 = if key & CTRL != 0 {
        s1.push("Ctrl"@)
    } else {
        s1
    };
    let s3 = if key & ALT != 0 {
        s2.push("Alt"@)
    } else {
        s2
    };
    let s4 = if key & SHIFT != 0 {
        s3.push("Shift"@)
    } else {
        s3
    };
    if key & KEYPAD != 0 {
        s4.push("Num"@)
    } else {
        s4
    }
}

/// The text form of a key code: its modifier names and key name joined by
/// `+`; empty for the code 0 and for a key without a name.
pub open spec fn keycode_text(key: i32) -> Seq<char> {
    if key == 0 {
        Seq::<char>::empty()
    } else {
        match key_name_spec(key & KEY_MASK) {
            Some(name) => join_with(modifier_names(key).push(name), seq!['+']),
            None => Seq::<char>::empty(),
        }
    }
}

fn key_name(key: i32) -> (r: Option<Vec<char>>)
    ensures
        match r {
            Some(v) => key_name_spec(key) == Some(v@),
            None => key_name_spec(key) is None,
        },
{
    if (0x30 <= key && key <= 0x39) || (0x41 <= key && key <= 0x5a) {
        let c = crate::text::char_from_ascii_code(key as u32);
        let mut v: Vec<char> = Vec::new();
        v.push(c);
        assert(v@ =~= seq![key as char]);
        Some(v)
    } else if key == KEY_SPACE {
        Some(chars_of("Space"))
    } else if key == KEY_LEFT {
        Some(chars_of("Left"))
    } else if key == KEY_RIGHT {
        Some(chars_of("Right"))
    } else if key == KEY_UP {
        Some(chars_of("Up"))
    } else if key == KEY_DOWN {
        Some(chars_of("Down"))
    } else if key == KEY_PGUP {
        Some(chars_of("PgUp"))
    } else if key == KEY_PGDOWN {
        Some(chars_of("PgDown"))
    } else if KEY_F1 <= key && key <= 0x0100_003b {
        let digits = decimal_chars((key - KEY_F1 + 1) as u128);
        Some(concat_chars(&['F'], digits.as_slice()))
    } else {
        None
    }
}

/// Renders a Qt key code as a portable sequence string ("Meta+Ctrl+1").
pub fn keycode_to_string(key: i32) -> (r: String)
    ensures
        r@ == keycode_text(key),
{
    if key == 0 {
        return String::new();
    }
    let mut parts: Vec<Vec<char>> = Vec::new();
    if key & META != 0 {
        parts.push(chars_of("Meta"));
    }
    let ghost s1 = parts@.map_values(|v: Vec<char>| v@);
    if key & CTRL != 0 {
        parts.push(chars_of("Ctrl"));
    }
    let ghost s2 = parts@.map_values(|v: Vec<char>| v@);
    if key & ALT != 0 {
        parts.push(chars_of("Alt"));
    }
    let ghost s3 = parts@.map_values(|v: Vec<char>| v@);
    if key & SHIFT != 0 {
        parts.push(chars_of("Shift"));
    }
    let ghost s4 = parts@.map_values(|v: Vec<char>| v@);
    if key & KEYPAD != 0 {
        parts.push(chars_of("Num"));
    }
    let ghost s5 = parts@.map_values(|v: Vec<char>| v@);
    proof {
        let m = modifier_names(key);
        assert(s1 =~= (if key & META != 0 {
            seq!["Meta"@]
        } else {
            Seq::<Seq<char>>::empty()
        }));
        assert(s2 =~= (if key & CTRL != 0 {
            s1.push("Ctrl"@)
        } else {
            s1
        }));
        assert(s3 =~= (if key & ALT != 0 {
            s2.push("Alt"@)
        } else {
            s2
        }));
        assert(s4 =~= (if key & SHIFT != 0 {
            s3.push("Shift"@)
        } else {
            s3
        }));
        assert(s5 =~= m);
    }
    match key_name(key & KEY_MASK) {
        Some(name) => {
            let ghost before = parts@.map_values(|v: Vec<char>| v@);
            parts.push(name);
            assert(parts@.map_values(|v: Vec<char>| v@) =~= before.push(name@));
        },
        None => {
            return String::new();
        },
    }
    let sep = vec!['+'];
    assert(sep@ =~= seq!['+']);
    let joined = join_chars(&parts, sep.as_slice());
    string_of(joined.as_slice())
}

// ---------------------------------------------------------------------------
// Text to key code
// ---------------------------------------------------------------------------

pub open spec fn is_ascii_alphanumeric(c: char) -> bool {
    ('0' <= c <= '9') || ('A' <= c <= 'Z') || ('a' <= c <= 'z')
}

/// What one `+`-separated token, trimmed and in ASCII lower case, does to the
/// modifiers and key read so far. A token that means nothing leaves them.
pub open spec fn token_effect(t: Seq<char>, acc: (i32, Option<i32>)) -> (i32, Option<i32>) {
    let mods = acc.0;
    let base = acc.1;
    if t == "meta"@ || t == "super"@ {
        (mods | META, base)
    } else if t == "ctrl"@ || t == "control"@ {
        (mods | CTRL, base)
    } else if t == "alt"@ {
        (mods | ALT, base)
    } else if t == "shift"@ {
        (mods | SHIFT, base)
    } else if t == "num"@ {
        (mods | KEYPAD, base)
    } else if t == "space"@ {
        (mods, Some(KEY_SPACE))
    } else if t == "left"@ {
        (mods, Some(KEY_LEFT))
    } else if t == "right"@ {
        (mods, Some(KEY_RIGHT))
    } else if t == "up"@ {
        (mods, Some(KEY_UP))
    } else if t == "down"@ {
        (mods, Some(KEY_DOWN))
    } else if t == "pgup"@ || t == "pageup"@ || t == "page up"@ {
        (mods, Some(KEY_PGUP))
    } else if t == "pgdown"@ || t == "pagedown"@ || t == "page down"@ {
        (mods, Some(KEY_PGDOWN))
    } else if t.len() == 1 && (t[0] as u32) < 128 {
        // One byte of UTF-8: a single ASCII character.
        let c = ascii_upper(t[0]);
        if is_ascii_alphanumeric(c) {
            (mods, Some(c as i32))
        } else {
            acc
        }
    } else if t.len() > 0 && t[0] == 'f' {
        match parse_i32(t.drop_first()) {
            Some(n) => if 1 <= n <= 12 {
                (mods, Some((KEY_F1 + n - 1) as i32))
            } else {
                acc
            },
            None => acc,
        }
    } else {
        acc
    }
}

/// A token as it is matched: trimmed, then in ASCII lower case.
pub open spec fn normalized_token(t: Seq<char>) -> Seq<char> {
    ascii_lowercase(trimmed(t))
}

/// The modifiers and key read from the tokens, left to right.
pub open spec fn fold_tokens(tokens: Seq<Seq<char>>) -> (i32, Option<i32>)
    decreases tokens.len(),
{
    if tokens.len() == 0 {
        (0i32, None)
    } else {
        token_effect(normalized_token(tokens.last()), fold_tokens(tokens.drop_last()))
    }
}

/// The key code a sequence string stands for: `None` when, once trimmed, it is
/// empty or names no key; the modifiers may come in any order.
pub open spec fn parse_key_sequence(s: Seq<char>) -> Option<i32> {
    let t = trimmed(s);
    if t.len() == 0 {
        None
    } else {
        let acc = fold_tokens(split_on(t, '+'));
        match acc.1 {
            Some(key) => Some(key | acc.0),
            None => None,
        }
    }
}

fn is_word(t: &[char], word: &str) -> (r: bool)
    ensures
        r == (t@ == word@),
{
    let w = chars_of(word);
    chars_eq(t, w.as_slice())
}

fn apply_token(t: &[char], mods: i32, base: Option<i32>) -> (r: (i32, Option<i32>))
    ensures
        r == token_effect(t@, (mods, base)),
{
    if is_word(t, "meta") || is_word(t, "super") {
        (mods | META, base)
    } else if is_word(t, "ctrl") || is_word(t, "control") {
        (mods | CTRL, base)
    } else if is_word(t, "alt") {
        (mods | ALT, base)
    } else if is_word(t, "shift") {
        (mods | SHIFT, base)
    } else if is_word(t, "num") {
        (mods | KEYPAD, base)
    } else if is_word(t, "space") {
        (mods, Some(KEY_SPACE))
    } else if is_word(t, "left") {
        (mods, Some(KEY_LEFT))
    } else if is_word(t, "right") {
        (mods, Some(KEY_RIGHT))
    } else if is_word(t, "up") {
        (mods, Some(KEY_UP))
    } else if is_word(t, "down") {
        (mods, Some(KEY_DOWN))
    } else if is_word(t, "pgup") || is_word(t, "pageup") || is_word(t, "page up") {
        (mods, Some(KEY_PGUP))
    } else if is_word(t, "pgdown") || is_word(t, "pagedown") || is_word(t, "page down") {
        (mods, Some(KEY_PGDOWN))
    } else if t.len() == 1 && (t[0] as u32) < 128 {
        let c = ascii_upper_char(t[0]);
        if ('0' <= c && c <= '9') || ('A' <= c && c <= 'Z') || ('a' <= c && c <= 'z') {
            (mods, Some((c as u32) as i32))
        } else {
            (mods, base)
        }
    } else if t.len() > 0 && t[0] == 'f' {
        let mut rest: Vec<char> = Vec::new();
        let mut i: usize = 1;
        while i < t.len()
            invariant
                1 <= i <= t.len(),
                rest@ == t@.subrange(1, i as int),
            decreases t.len() - i,
        {
            rest.push(t[i]);
            i += 1;
        }
        assert(rest@ =~= t@.drop_first());
        match parse_i32_chars(rest.as_slice()) {
            Some(n) => if 1 <= n && n <= 12 {
                (mods, Some(KEY_F1 + n - 1))
            } else {
                (mods, base)
            },
            None => (mods, base),
        }
    } else {
        (mods, base)
    }
}

/// Parses a portable sequence string into a Qt key code (the modifiers may come
/// in any order).
pub fn string_to_keycode(sequence: &str) -> (r: Option<i32>)
    ensures
        r == parse_key_sequence(sequence@),
{
    let all = chars_of(sequence);
    let t = trim_chars(all.as_slice());
    if t.len() == 0 {
        return None;
    }
    let tokens = split_chars(t.as_slice(), '+');
    let ghost tv = tokens@.map_values(|v: Vec<char>| v@);
    let mut mods: i32 = 0;
    let mut base: Option<i32> = None;
    let mut i: usize = 0;
    while i < tokens.len()
        invariant
            0 <= i <= tokens.len(),
            tv == tokens@.map_values(|v: Vec<char>| v@),
            (mods, base) == fold_tokens(tv.subrange(0, i as int)),
        decreases tokens.len() - i,
    {
        let trimmed_token = trim_chars(tokens[i].as_slice());
        let token = ascii_lowercase_chars(trimmed_token.as_slice());
        let (m, b) = apply_token(token.as_slice(), mods, base);
        assert(tv.subrange(0, i + 1).drop_last() =~= tv.subrange(0, i as int));
        assert(tv.subrange(0, i + 1).last() == tv[i as int]);
        mods = m;
        base = b;
        i += 1;
    }
    assert(tv.subrange(0, tokens.len() as int) =~= tv);
    match base {
        Some(key) => Some(key | mods),
        None => None,
    }
}

// ---------------------------------------------------------------------------
// The shortcut table
// ---------------------------------------------------------------------------

/// One FanzyZones shortcut action: its id, its name as KWin shows it (without
/// the "FanzyZones: " prefix) and its default key code.
pub struct ShortcutDef {
    pub id: &'static str,
    pub friendly: String,
    pub default_key: i32,
}

/// The number of shortcut actions.
pub open spec fn shortcut_count() -> int {
    25
}

pub open spec fn fixed_ids() -> Seq<Seq<char>> {
    seq![
        "next-zone"@,
        "previous-zone"@,
        "next-layout"@,
        "previous-layout"@,
        "snap-focused"@,
        "snap-all"@,
        "toggle-overlay"@,
    ]
}

pub open spec fn fixed_friendly_names() -> Seq<Seq<char>> {
    seq![
        "Snap window to next zone"@,
        "Snap window to previous zone"@,
        "Next layout"@,
        "Previous layout"@,
        "Snap focused window"@,
        "Snap all windows"@,
        "Toggle zone overlay"@,
    ]
}

pub open spec fn fixed_keys() -> Seq<i32> {
    seq![
        CTRL | ALT | KEY_RIGHT,
        CTRL | ALT | KEY_LEFT,
        META | SHIFT | KEY_PGDOWN,
        META | SHIFT | KEY_PGUP,
        META | SHIFT | KEY_SPACE,
        META | KEY_SPACE,
        CTRL | ALT | KEY_C,
    ]
}

/// The id of the `i`-th action: nine "snap-zone-<n>", nine "use-layout-<n>",
/// then the fixed actions.
pub open spec fn def_id(i: int) -> Seq<char> {
    if i < 9 {
        "snap-zone-"@ + decimal((i + 1) as nat)
    } else if i < 18 {
        "use-layout-"@ + decimal((i - 8) as nat)
    } else {
        fixed_ids()[i - 18]
    }
}

pub open spec fn def_friendly(i: int) -> Seq<char> {
    if i < 9 {
        "Snap window to zone "@ + decimal((i + 1) as nat)
    } else if i < 18 {
        "Use layout "@ + decimal((i - 8) as nat)
    } else {
        fixed_friendly_names()[i - 18]
    }
}

/// Default keys: Ctrl+Alt+Num+<n> (the keypad digit) snaps to zone n,
/// Meta+Shift+<n> uses layout n.
pub open spec fn def_key(i: int) -> i32 {
    if i < 9 {
        CTRL | ALT | KEYPAD | ((KEY_1 + i) as i32)
    } else if i < 18 {
        META | SHIFT | ((KEY_1 + i - 9) as i32)
    } else {
        fixed_keys()[i - 18]
    }
}

/// `def` is the `i`-th action of the table.
pub open spec fn is_def(def: ShortcutDef, i: int) -> bool {
    &&& def.id@ == def_id(i)
    &&& def.friendly@ == def_friendly(i)
    &&& def.default_key == def_key(i)
}

fn snap_zone_id(n: i32) -> (r: &'static str)
    requires
        1 <= n <= 9,
    ensures
        r@ == "snap-zone-"@ + decimal(n as nat),
{
    match n {
        1 => {
            proof {
                reveal_strlit("snap-zone-1");
                reveal_strlit("snap-zone-");
                assert("snap-zone-1"@ =~= "snap-zone-"@ + decimal(1));
            }
            "snap-zone-1"
        },
        2 => {
            proof {
                reveal_strlit("snap-zone-2");
                reveal_strlit("snap-zone-");
                assert("snap-zone-2"@ =~= "snap-zone-"@ + decimal(2));
            }
            "snap-zone-2"
        },
        3 => {
            proof {
                reveal_strlit("snap-zone-3");
                reveal_strlit("snap-zone-");
                assert("snap-zone-3"@ =~= "snap-zone-"@ + decimal(3));
            }
            "snap-zone-3"
        },
        4 => {
            proof {
                reveal_strlit("snap-zone-4");
                reveal_strlit("snap-zone-");
                assert("snap-zone-4"@ =~= "snap-zone-"@ + decimal(4));
            }
            "snap-zone-4"
        },
        5 => {
            proof {
                reveal_strlit("snap-zone-5");
                reveal_strlit("snap-zone-");
                assert("snap-zone-5"@ =~= "snap-zone-"@ + decimal(5));
            }
            "snap-zone-5"
        },
        6 => {
            proof {
                reveal_strlit("snap-zone-6");
                reveal_strlit("snap-zone-");
                assert("snap-zone-6"@ =~= "snap-zone-"@ + decimal(6));
            }
            "snap-zone-6"
        },
        7 => {
            proof {
                reveal_strlit("snap-zone-7");
                reveal_strlit("snap-zone-");
                assert("snap-zone-7"@ =~= "snap-zone-"@ + decimal(7));
            }
            "snap-zone-7"
        },
        8 => {
            proof {
                reveal_strlit("snap-zone-8");
                reveal_strlit("snap-zone-");
                assert("snap-zone-8"@ =~= "snap-zone-"@ + decimal(8));
            }
            "snap-zone-8"
        },
        _ => {
            proof {
                reveal_strlit("snap-zone-9");
                reveal_strlit("snap-zone-");
                assert("snap-zone-9"@ =~= "snap-zone-"@ + decimal(9));
            }
            "snap-zone-9"
        },
    }
}

fn use_layout_id(n: i32) -> (r: &'static str)
    requires
        1 <= n <= 9,
    ensures
        r@ == "use-layout-"@ + decimal(n as nat),
{
    match n {
        1 => {
            proof {
                reveal_strlit("use-layout-1");
                reveal_strlit("use-layout-");
                assert("use-layout-1"@ =~= "use-layout-"@ + decimal(1));
            }
            "use-layout-1"
        },
        2 => {
            proof {
                reveal_strlit("use-layout-2");
                reveal_strlit("use-layout-");
                assert("use-layout-2"@ =~= "use-layout-"@ + decimal(2));
            }
            "use-layout-2"
        },
        3 => {
            proof {
                reveal_strlit("use-layout-3");
                reveal_strlit("use-layout-");
                assert("use-layout-3"@ =~= "use-layout-"@ + decimal(3));
            }
            "use-layout-3"
        },
        4 => {
            proof {
                reveal_strlit("use-layout-4");
                reveal_strlit("use-layout-");
                assert("use-layout-4"@ =~= "use-layout-"@ + decimal(4));
            }
            "use-layout-4"
        },
        5 => {
            proof {
                reveal_strlit("use-layout-5");
                reveal_strlit("use-layout-");
                assert("use-layout-5"@ =~= "use-layout-"@ + decimal(5));
            }
            "use-layout-5"
        },
        6 => {
            proof {
                reveal_strlit("use-layout-6");
                reveal_strlit("use-layout-");
                assert("use-layout-6"@ =~= "use-layout-"@ + decimal(6));
            }
            "use-layout-6"
        },
        7 => {
            proof {
                reveal_strlit("use-layout-7");
                reveal_strlit("use-layout-");
                assert("use-layout-7"@ =~= "use-layout-"@ + decimal(7));
            }
            "use-layout-7"
        },
        8 => {
            proof {
                reveal_strlit("use-layout-8");
                reveal_strlit("use-layout-");
                assert("use-layout-8"@ =~= "use-layout-"@ + decimal(8));
            }
            "use-layout-8"
        },
        _ => {
            proof {
                reveal_strlit("use-layout-9");
                reveal_strlit("use-layout-");
                assert("use-layout-9"@ =~= "use-layout-"@ + decimal(9));
            }
            "use-layout-9"
        },
    }
}

/// `prefix` followed by the decimal digits of `n`.
fn numbered(prefix: &str, n: i32) -> (r: String)
    requires
        n >= 0,
    ensures
        r@ == prefix@ + decimal(n as nat),
{
    let p = chars_of(prefix);
    let d = decimal_chars(n as u128);
    string_of(concat_chars(p.as_slice(), d.as_slice()).as_slice())
}

fn fixed_def(j: usize) -> (d: ShortcutDef)
    requires
        j < 7,
    ensures
        d.id@ == fixed_ids()[j as int],
        d.friendly@ == fixed_friendly_names()[j as int],
        d.default_key == fixed_keys()[j as int],
{
    let (id, friendly, default_key) = if j == 0 {
        ("next-zone", "Snap window to next zone", CTRL | ALT | KEY_RIGHT)
    } else if j == 1 {
        ("previous-zone", "Snap window to previous zone", CTRL | ALT | KEY_LEFT)
    } else if j == 2 {
        ("next-layout", "Next layout", META | SHIFT | KEY_PGDOWN)
    } else if j == 3 {
        ("previous-layout", "Previous layout", META | SHIFT | KEY_PGUP)
    } else if j == 4 {
        ("snap-focused", "Snap focused window", META | SHIFT | KEY_SPACE)
    } else if j == 5 {
        ("snap-all", "Snap all windows", META | KEY_SPACE)
    } else {
        ("toggle-overlay", "Toggle zone overlay", CTRL | ALT | KEY_C)
    };
    ShortcutDef { id, friendly: friendly.to_owned(), default_key }
}

/// The FanzyZones shortcut actions in display order. `friendly` matches the
/// KWin-script handler name without the "FanzyZones: " prefix.
pub fn shortcut_defs() -> (r: Vec<ShortcutDef>)
    ensures
        r.len() == shortcut_count(),
        forall|i: int| 0 <= i < shortcut_count() ==> is_def(#[trigger] r[i], i),
{
    let mut list: Vec<ShortcutDef> = Vec::new();
    let mut n: i32 = 1;
    while n <= 9
        invariant
            1 <= n <= 10,
            list.len() == n - 1,
            forall|i: int| 0 <= i < list.len() ==> is_def(#[trigger] list[i], i),
        decreases 10 - n,
    {
        list.push(
            ShortcutDef {
                id: snap_zone_id(n),
                friendly: numbered("Snap window to zone ", n),
                default_key: CTRL | ALT | KEYPAD | (KEY_1 + n - 1),
            },
        );
        n += 1;
    }
    let mut n: i32 = 1;
    while n <= 9
        invariant
            1 <= n <= 10,
            list.len() == n + 8,
            forall|i: int| 0 <= i < list.len() ==> is_def(#[trigger] list[i], i),
        decreases 10 - n,
    {
        list.push(
            ShortcutDef {
                id: use_layout_id(n),
                friendly: numbered("Use layout ", n),
                default_key: META | SHIFT | (KEY_1 + n - 1),
            },
        );
        n += 1;
    }
    let mut j: usize = 0;
    while j < 7
        invariant
            j <= 7,
            list.len() == j + 18,
            forall|i: int| 0 <= i < list.len() ==> is_def(#[trigger] list[i], i),
        decreases 7 - j,
    {
        list.push(fixed_def(j));
        j += 1;
    }
    list
}

// ---------------------------------------------------------------------------
// Reading and rebinding through KGlobalAccel
// ---------------------------------------------------------------------------

/// The KGlobalAccel action name of a shortcut.
pub open spec fn action_name_spec(friendly: Seq<char>) -> Seq<char> {
    "FanzyZones: "@ + friendly
}

/// The KGlobalAccel action name of a shortcut: "FanzyZones: " and its name.
pub fn action_name(friendly: &str) -> (r: String)
    ensures
        r@ == action_name_spec(friendly@),
{
    let p = chars_of("FanzyZones: ");
    let f = chars_of(friendly);
    string_of(concat_chars(p.as_slice(), f.as_slice()).as_slice())
}

/// The name of the action with id `id`, if there is one.
pub fn friendly_for_id(id: &str) -> (r: Option<String>)
    ensures
        match r {
            Some(f) => exists|i: int|
                0 <= i < shortcut_count() && def_id(i) == id@ && f@ == def_friendly(i) && (forall|
                    j: int,
                | 0 <= j < i ==> def_id(j) != id@),
            None => forall|i: int| 0 <= i < shortcut_count() ==> def_id(i) != id@,
        },
{
    let defs = shortcut_defs();
    let mut i: usize = 0;
    while i < defs.len()
        invariant
            0 <= i <= defs.len(),
            defs.len() == shortcut_count(),
            forall|k: int| 0 <= k < shortcut_count() ==> is_def(#[trigger] defs[k], k),
            forall|j: int| 0 <= j < i ==> def_id(j) != id@,
        decreases defs.len() - i,
    {
        assert(is_def(defs[i as int], i as int));
        if crate::text::str_eq(defs[i].id, id) {
            return Some(defs[i].friendly.clone());
        }
        i += 1;
    }
    None
}

/// The current bindings, as `(id, name, sequence)` triples.
pub open spec fn bindings_view(v: Seq<(String, String, String)>) -> Seq<(Seq<char>, Seq<char>, Seq<char>)> {
    v.map_values(|t: (String, String, String)| (t.0@, t.1@, t.2@))
}

/// Whether the first binding listed for `id` has a non-empty sequence.
pub open spec fn is_bound(current: Seq<(Seq<char>, Seq<char>, Seq<char>)>, id: Seq<char>) -> bool
    decreases current.len(),
{
    if current.len() == 0 {
        false
    } else if current[0].0 == id {
        current[0].2.len() > 0
    } else {
        is_bound(current.drop_first(), id)
    }
}

fn bound_in(current: &Vec<(String, String, String)>, id: &str) -> (r: bool)
    ensures
        r == is_bound(bindings_view(current@), id@),
{
    let ghost cv = bindings_view(current@);
    assert(cv.subrange(0, cv.len() as int) =~= cv);
    let mut j: usize = 0;
    while j < current.len()
        invariant
            0 <= j <= current.len(),
            cv == bindings_view(current@),
            is_bound(cv, id@) == is_bound(cv.subrange(j as int, cv.len() as int), id@),
        decreases current.len() - j,
    {
        let ghost rest = cv.subrange(j as int, cv.len() as int);
        assert(rest[0] == cv[j as int]);
        assert(rest.drop_first() =~= cv.subrange(j + 1, cv.len() as int));
        if crate::text::str_eq(current[j].0.as_str(), id) {
            return !current[j].2.as_str().is_empty();
        }
        j += 1;
    }
    assert(cv.subrange(j as int, cv.len() as int) =~= Seq::<(Seq<char>, Seq<char>, Seq<char>)>::empty());
    false
}

/// Of the first `n` actions, those not bound in `current`, each with the text
/// of its default key, in table order.
pub open spec fn pending_defaults(current: Seq<(Seq<char>, Seq<char>, Seq<char>)>, n: nat) -> Seq<(Seq<char>, Seq<char>)>
    decreases n,
{
    if n == 0 {
        Seq::empty()
    } else {
        let prev = pending_defaults(current, (n - 1) as nat);
        let i = n - 1;
        if is_bound(current, def_id(i)) {
            prev
        } else {
            prev.push((def_friendly(i), keycode_text(def_key(i))))
        }
    }
}

/// The `(name, sequence)` pairs to bind so that every action left unbound in
/// `current` gets its default key; bound actions are left as they are.
pub fn default_bindings_to_apply(current: &Vec<(String, String, String)>) -> (r: Vec<(String, String)>)
    ensures
        crate::config::pairs_view(r@) == pending_defaults(bindings_view(current@), shortcut_count() as nat),
{
    let defs = shortcut_defs();
    let mut out: Vec<(String, String)> = Vec::new();
    let mut i: usize = 0;
    while i < defs.len()
        invariant
            0 <= i <= defs.len(),
            defs.len() == shortcut_count(),
            forall|k: int| 0 <= k < shortcut_count() ==> is_def(#[trigger] defs[k], k),
            crate::config::pairs_view(out@) == pending_defaults(bindings_view(current@), i as nat),
        decreases defs.len() - i,
    {
        assert(is_def(defs[i as int], i as int));
        if !bound_in(current, defs[i].id) {
            let ghost before = crate::config::pairs_view(out@);
            let text = keycode_to_string(defs[i].default_key);
            out.push((defs[i].friendly.clone(), text));
            assert(crate::config::pairs_view(out@) =~= before.push(
                (def_friendly(i as int), keycode_text(def_key(i as int))),
            ));
        }
        i += 1;
    }
    out
}

/// What KGlobalAccel reports of each action: its name and its key codes.
pub open spec fn infos_view(v: Seq<(String, Vec<i32>)>) -> Seq<(Seq<char>, Seq<i32>)> {
    v.map_values(|p: (String, Vec<i32>)| (p.0@, p.1@))
}

/// The first key code of the first action named `name`, or 0.
pub open spec fn first_key(infos: Seq<(Seq<char>, Seq<i32>)>, name: Seq<char>) -> i32
    decreases infos.len(),
{
    if infos.len() == 0 {
        0
    } else if infos[0].0 == name {
        if infos[0].1.len() > 0 {
            infos[0].1[0]
        } else {
            0
        }
    } else {
        first_key(infos.drop_first(), name)
    }
}

fn lookup_key(infos: &Vec<(String, Vec<i32>)>, name: &str) -> (r: i32)
    ensures
        r == first_key(infos_view(infos@), name@),
{
    let ghost iv = infos_view(infos@);
    assert(iv.subrange(0, iv.len() as int) =~= iv);
    let mut j: usize = 0;
    while j < infos.len()
        invariant
            0 <= j <= infos.len(),
            iv == infos_view(infos@),
            first_key(iv, name@) == first_key(iv.subrange(j as int, iv.len() as int), name@),
        decreases infos.len() - j,
    {
        let ghost rest = iv.subrange(j as int, iv.len() as int);
        assert(rest[0] == iv[j as int]);
        assert(rest.drop_first() =~= iv.subrange(j + 1, iv.len() as int));
        if crate::text::str_eq(infos[j].0.as_str(), name) {
            if infos[j].1.len() > 0 {
                return infos[j].1[0];
            } else {
                return 0;
            }
        }
        j += 1;
    }
    assert(iv.subrange(j as int, iv.len() as int) =~= Seq::<(Seq<char>, Seq<i32>)>::empty());
    0
}

/// The `(id, name, sequence)` binding of every action, in table order, read
/// from what KGlobalAccel reports: an action it does not report, or reports
/// with no key, has the empty sequence.
pub fn bindings_from_infos(infos: &Vec<(String, Vec<i32>)>) -> (r: Vec<(String, String, String)>)
    ensures
        r.len() == shortcut_count(),
        forall|i: int|
            0 <= i < shortcut_count() ==> #[trigger] bindings_view(r@)[i] == (
                def_id(i),
                def_friendly(i),
                keycode_text(first_key(infos_view(infos@), action_name_spec(def_friendly(i)))),
            ),
{
    let defs = shortcut_defs();
    let mut out: Vec<(String, String, String)> = Vec::new();
    let mut i: usize = 0;
    while i < defs.len()
        invariant
            0 <= i <= defs.len(),
            defs.len() == shortcut_count(),
            forall|k: int| 0 <= k < shortcut_count() ==> is_def(#[trigger] defs[k], k),
            out.len() == i,
            forall|k: int|
                0 <= k < i ==> #[trigger] bindings_view(out@)[k] == (
                    def_id(k),
                    def_friendly(k),
                    keycode_text(first_key(infos_view(infos@), action_name_spec(def_friendly(k)))),
                ),
        decreases defs.len() - i,
    {
        assert(is_def(defs[i as int], i as int));
        let name = action_name(defs[i].friendly.as_str());
        let key = lookup_key(infos, name.as_str());
        let text = keycode_to_string(key);
        let ghost before = out@;
        let id_text = defs[i].id.to_owned();
        let friendly = defs[i].friendly.clone();
        assert(id_text@ == def_id(i as int));
        assert(friendly@ == def_friendly(i as int));
        assert(text@ == keycode_text(
            first_key(infos_view(infos@), action_name_spec(def_friendly(i as int))),
        ));
        out.push((id_text, friendly, text));
        assert(out@[i as int] == (id_text, friendly, text));
        assert forall|k: int| 0 <= k < i + 1 implies #[trigger] bindings_view(out@)[k] == (
            def_id(k),
            def_friendly(k),
            keycode_text(first_key(infos_view(infos@), action_name_spec(def_friendly(k)))),
        ) by {
            if k < i {
                assert(out@[k] == before[k]);
                assert(bindings_view(before)[k] == (
                    def_id(k),
                    def_friendly(k),
                    keycode_text(first_key(infos_view(infos@), action_name_spec(def_friendly(k)))),
                ));
                assert(bindings_view(out@)[k] == bindings_view(before)[k]);
            } else {
                assert(bindings_view(out@)[k] == (out@[k].0@, out@[k].1@, out@[k].2@));
            }
        }
        i += 1;
    }
    out
}

/// The arguments of KGlobalAccel's `setForeignShortcut` that bind the action
/// named `friendly` to `sequence`: the action id `[kwin, name, KWin, name]`
/// and the key codes, none when the sequence names no key (which unbinds).
pub fn foreign_shortcut_request(friendly: &str, sequence: &str) -> (r: (Vec<String>, Vec<i32>))
    ensures
        crate::config::strings_view(r.0@) == seq![
            "kwin"@,
            action_name_spec(friendly@),
            "KWin"@,
            action_name_spec(friendly@),
        ],
        r.1@ == (match parse_key_sequence(sequence@) {
            Some(k) => seq![k],
            None => Seq::<i32>::empty(),
        }),
{
    let name = action_name(friendly);
    let action_id = vec!["kwin".to_owned(), name.clone(), "KWin".to_owned(), name];
    let mut keys: Vec<i32> = Vec::new();
    match string_to_keycode(sequence) {
        Some(k) => keys.push(k),
        None => {},
    }
    assert(crate::config::strings_view(action_id@) =~= seq![
        "kwin"@,
        action_name_spec(friendly@),
        "KWin"@,
        action_name_spec(friendly@),
    ]);
    assert(keys@ =~= (match parse_key_sequence(sequence@) {
        Some(k) => seq![k],
        None => Seq::<i32>::empty(),
    }));
    (action_id, keys)
}

// ---------------------------------------------------------------------------
// Text form and key code agree
// ---------------------------------------------------------------------------

/// The modifier bits read back from `modifier_names(key)`, in the order they
/// are read.
pub open spec fn modifier_bits(key: i32) -> i32 {
    let a = if key & META != 0 {
        0i32 | META
    } else {
        0i32
    };
    let b = if key & CTRL != 0 {
        a | CTRL
    } else {
        a
    };
    let c = if key & ALT != 0 {
        b | ALT
    } else {
        b
    };
    let d = if key & SHIFT != 0 {
        c | SHIFT
    } else {
        c
    };
    if key & KEYPAD != 0 {
        d | KEYPAD
    } else {
        d
    }
}

proof fn lemma_fold_push(ts: Seq<Seq<char>>, t: Seq<char>)
    ensures
        fold_tokens(ts.push(t)) == token_effect(normalized_token(t), fold_tokens(ts)),
{
    assert(ts.push(t).drop_last() =~= ts);
}

proof fn lemma_modifier_fold(key: i32)
    ensures
        fold_tokens(modifier_names(key)) == (modifier_bits(key), None::<i32>),
{
        reveal_strlit("meta");
        reveal_strlit("super");
        reveal_strlit("ctrl");
        reveal_strlit("control");
        reveal_strlit("alt");
        reveal_strlit("shift");
        reveal_strlit("num");
        reveal_strlit("space");
        reveal_strlit("left");
        reveal_strlit("right");
        reveal_strlit("up");
        reveal_strlit("down");
        reveal_strlit("pgup");
        reveal_strlit("pageup");
        reveal_strlit("page up");
        reveal_strlit("pgdown");
        reveal_strlit("pagedown");
        reveal_strlit("page down");
        reveal_strlit("Meta");
        reveal_strlit("Ctrl");
        reveal_strlit("Alt");
        reveal_strlit("Shift");
        reveal_strlit("Num");
    let e = Seq::<Seq<char>>::empty();
    assert(fold_tokens(e) == (0i32, None::<i32>));
    lemma_trimmed_unchanged("Meta"@);
    lemma_trimmed_unchanged("Ctrl"@);
    lemma_trimmed_unchanged("Alt"@);
    lemma_trimmed_unchanged("Shift"@);
    lemma_trimmed_unchanged("Num"@);
    assert(normalized_token("Meta"@) =~= "meta"@);
    assert(normalized_token("Ctrl"@) =~= "ctrl"@);
    assert(normalized_token("Alt"@) =~= "alt"@);
    assert(normalized_token("Shift"@) =~= "shift"@);
    assert(normalized_token("Num"@) =~= "num"@);
    let s1 = if key & META != 0 {
        seq!["Meta"@]
    } else {
        e
    };
    if key & META != 0 {
        assert(s1 =~= e.push("Meta"@));
        lemma_fold_push(e, "Meta"@);
    }
    let s2 = if key & CTRL != 0 {
        s1.push("Ctrl"@)
    } else {
        s1
    };
    if key & CTRL != 0 {
        lemma_fold_push(s1, "Ctrl"@);
    }
    let s3 = if key & ALT != 0 {
        s2.push("Alt"@)
    } else {
        s2
    };
    if key & ALT != 0 {
        lemma_fold_push(s2, "Alt"@);
    }
    let s4 = if key & SHIFT != 0 {
        s3.push("Shift"@)
    } else {
        s3
    };
    if key & SHIFT != 0 {
        lemma_fold_push(s3, "Shift"@);
    }
    if key & KEYPAD != 0 {
        lemma_fold_push(s4, "Num"@);
    }
}

/// The name of a key, read back as the last token, sets the key and keeps the
/// modifiers.
proof fn lemma_name_effect(key: i32, acc: (i32, Option<i32>))
    requires
        key_name_spec(key) is Some,
    ensures
        token_effect(normalized_token(key_name_spec(key)->0), acc) == (acc.0, Some(key)),
{
        reveal_strlit("meta");
        reveal_strlit("super");
        reveal_strlit("ctrl");
        reveal_strlit("control");
        reveal_strlit("alt");
        reveal_strlit("shift");
        reveal_strlit("num");
        reveal_strlit("space");
        reveal_strlit("left");
        reveal_strlit("right");
        reveal_strlit("up");
        reveal_strlit("down");
        reveal_strlit("pgup");
        reveal_strlit("pageup");
        reveal_strlit("page up");
        reveal_strlit("pgdown");
        reveal_strlit("pagedown");
        reveal_strlit("page down");
    let name = key_name_spec(key)->0;
    if (0x30 <= key <= 0x39) || (0x41 <= key <= 0x5a) {
        let c = key as char;
        assert(name =~= seq![c]);
        lemma_trimmed_unchanged(name);
        assert(normalized_token(name) =~= seq![ascii_lower(c)]);
        assert(ascii_upper(ascii_lower(c)) == c);
        assert((c as i32) == key);
    } else if key == KEY_SPACE {
        reveal_strlit("Space");
        lemma_trimmed_unchanged(name);
        assert(normalized_token(name) =~= "space"@);
    } else if key == KEY_LEFT {
        reveal_strlit("Left");
        lemma_trimmed_unchanged(name);
        assert(normalized_token(name) =~= "left"@);
    } else if key == KEY_RIGHT {
        reveal_strlit("Right");
        lemma_trimmed_unchanged(name);
        assert(normalized_token(name) =~= "right"@);
    } else if key == KEY_UP {
        reveal_strlit("Up");
        lemma_trimmed_unchanged(name);
        assert(normalized_token(name) =~= "up"@);
    } else if key == KEY_DOWN {
        reveal_strlit("Down");
        lemma_trimmed_unchanged(name);
        assert(normalized_token(name) =~= "down"@);
    } else if key == KEY_PGUP {
        reveal_strlit("PgUp");
        lemma_trimmed_unchanged(name);
        assert(normalized_token(name) =~= "pgup"@);
    } else if key == KEY_PGDOWN {
        reveal_strlit("PgDown");
        lemma_trimmed_unchanged(name);
        assert(normalized_token(name) =~= "pgdown"@);
    } else {
        let n = (key - KEY_F1 + 1) as nat;
        let d = decimal(n);
        lemma_decimal_value(n);
        assert(name =~= seq!['F'] + d);
        assert(!is_white_space(name.last())) by {
            assert(name.last() == d.last());
            assert(crate::text::is_digit(d[d.len() - 1]));
        }
        lemma_trimmed_unchanged(name);
        let t = normalized_token(name);
        assert(t =~= seq!['f'] + d) by {
            assert forall|i: int| 0 <= i < d.len() implies ascii_lower(#[trigger] d[i]) == d[i] by {
                assert(crate::text::is_digit(d[i]));
            }
        }
        assert(d.len() <= 2) by {
            if n >= 10 {
                assert(decimal(n / 10).len() == 1);
            }
        }
        assert(t.drop_first() =~= d);
        assert(parse_int(d, true) == Some(n as int)) by {
            assert(crate::text::is_digit(d[0]));
        }
        assert(parse_i32(d) == Some(n as i32));
    }
}

/// No modifier name or key name holds a `+`.
proof fn lemma_no_plus(key: i32)
    requires
        key_name_spec(key & KEY_MASK) is Some,
    ensures
        ({
            let parts = modifier_names(key).push(key_name_spec(key & KEY_MASK)->0);
            forall|i: int, k: int| 0 <= i < parts.len() && 0 <= k < parts[i].len() ==> #[trigger] parts[i][k] != '+'
        }),
{
    reveal_strlit("Meta");
    reveal_strlit("Ctrl");
    reveal_strlit("Alt");
    reveal_strlit("Shift");
    reveal_strlit("Num");
    reveal_strlit("Space");
    reveal_strlit("Left");
    reveal_strlit("Right");
    reveal_strlit("Up");
    reveal_strlit("Down");
    reveal_strlit("PgUp");
    reveal_strlit("PgDown");
    let b = key & KEY_MASK;
    let name = key_name_spec(b)->0;
    let parts = modifier_names(key).push(name);
    if KEY_F1 <= b <= 0x0100_003b {
        lemma_decimal_value((b - KEY_F1 + 1) as nat);
    }
    assert forall|i: int, k: int| 0 <= i < parts.len() && 0 <= k < parts[i].len() implies #[trigger] parts[i][k] != '+' by {
        if i == parts.len() - 1 {
            assert(parts[i] == name);
            if KEY_F1 <= b <= 0x0100_003b && k > 0 {
                let d = decimal((b - KEY_F1 + 1) as nat);
                assert(name[k] == d[k - 1]);
                assert(crate::text::is_digit(d[k - 1]));
            }
        }
    }
}

/// The first characters of joined pieces are those of the first piece.
proof fn lemma_join_starts_with(parts: Seq<Seq<char>>, sep: Seq<char>)
    requires
        parts.len() >= 1,
        parts[0].len() > 0,
    ensures
        join_with(parts, sep).len() > 0,
        join_with(parts, sep)[0] == parts[0][0],
    decreases parts.len(),
{
    if parts.len() > 1 {
        lemma_join_starts_with(parts.drop_last(), sep);
    }
}

/// Reading back the text of a key code gives the key code itself, without
/// the bits that the text does not show, whenever the code has a text form.
pub proof fn lemma_keycode_text_round_trip(key: i32)
    requires
        keycode_text(key).len() > 0,
    ensures
        parse_key_sequence(keycode_text(key)) == Some(key & KEY_AND_MODIFIERS),
{
    reveal_strlit("Meta");
    reveal_strlit("Ctrl");
    reveal_strlit("Alt");
    reveal_strlit("Shift");
    reveal_strlit("Num");
    let b = key & KEY_MASK;
    let name = key_name_spec(b)->0;
    let mods = modifier_names(key);
    let parts = mods.push(name);
    let text = join_with(parts, seq!['+']);
    assert(text == keycode_text(key));
    // The text is its own trimmed form.
    assert(name.len() > 0 && !is_white_space(name[0]) && !is_white_space(name.last())) by {
        lemma_name_effect(b, (0i32, None::<i32>));
        reveal_strlit("Space");
        reveal_strlit("Left");
        reveal_strlit("Right");
        reveal_strlit("Up");
        reveal_strlit("Down");
        reveal_strlit("PgUp");
        reveal_strlit("PgDown");
        if KEY_F1 <= b <= 0x0100_003b {
            let d = decimal((b - KEY_F1 + 1) as nat);
            lemma_decimal_value((b - KEY_F1 + 1) as nat);
            assert(crate::text::is_digit(d[d.len() - 1]));
        }
    }
    assert(parts[0].len() > 0 && !is_white_space(parts[0][0]));
    lemma_join_starts_with(parts, seq!['+']);
    assert(!is_white_space(text.last())) by {
        if parts.len() > 1 {
            assert(text == join_with(parts.drop_last(), seq!['+']) + seq!['+'] + name);
        }
    }
    lemma_trimmed_unchanged(text);
    // It splits into its pieces.
    lemma_no_plus(key);
    lemma_split_join(parts, '+');
    // The pieces set the modifiers, then the key.
    lemma_modifier_fold(key);
    lemma_fold_push(mods, name);
    lemma_name_effect(b, (modifier_bits(key), None::<i32>));
    assert(fold_tokens(parts) == (modifier_bits(key), Some(b)));
    assert((key & KEY_MASK) | modifier_bits(key) == key & KEY_AND_MODIFIERS) by (bit_vector);
}

/// A key code whose key has a name has a non-empty text form.
proof fn lemma_named_key_has_text(key: i32)
    requires
        key != 0,
        key_name_spec(key & KEY_MASK) is Some,
    ensures
        keycode_text(key).len() > 0,
{
    let name = key_name_spec(key & KEY_MASK)->0;
    let parts = modifier_names(key).push(name);
    assert(name.len() > 0) by {
        reveal_strlit("Space");
        reveal_strlit("Left");
        reveal_strlit("Right");
        reveal_strlit("Up");
        reveal_strlit("Down");
        reveal_strlit("PgUp");
        reveal_strlit("PgDown");
    }
    if parts.len() > 1 {
        assert(join_with(parts, seq!['+']) == join_with(parts.drop_last(), seq!['+']) + seq!['+']
            + name);
    }
}

/// Every default key of the table has a text form, and reading that text back
/// gives the default key.
pub proof fn lemma_default_keys_round_trip(i: int)
    requires
        0 <= i < shortcut_count(),
    ensures
        keycode_text(def_key(i)).len() > 0,
        parse_key_sequence(keycode_text(def_key(i))) == Some(def_key(i)),
{
    let key = def_key(i);
    if i < 9 {
        let x = (KEY_1 + i) as i32;
        assert(key & KEY_MASK == x && key != 0 && key & KEY_AND_MODIFIERS == key) by (bit_vector)
            requires
                key == CTRL | ALT | KEYPAD | x,
                0x31 <= x <= 0x39,
        ;
    } else if i < 18 {
        let x = (KEY_1 + i - 9) as i32;
        assert(key & KEY_MASK == x && key != 0 && key & KEY_AND_MODIFIERS == key) by (bit_vector)
            requires
                key == META | SHIFT | x,
                0x31 <= x <= 0x39,
        ;
    } else {
        let j = i - 18;
        assert(fixed_keys()[j] == key);
        assert((CTRL | ALT | KEY_RIGHT) & KEY_MASK == KEY_RIGHT) by (bit_vector);
        assert((CTRL | ALT | KEY_LEFT) & KEY_MASK == KEY_LEFT) by (bit_vector);
        assert((META | SHIFT | KEY_PGDOWN) & KEY_MASK == KEY_PGDOWN) by (bit_vector);
        assert((META | SHIFT | KEY_PGUP) & KEY_MASK == KEY_PGUP) by (bit_vector);
        assert((META | SHIFT | KEY_SPACE) & KEY_MASK == KEY_SPACE) by (bit_vector);
        assert((META | KEY_SPACE) & KEY_MASK == KEY_SPACE) by (bit_vector);
        assert((CTRL | ALT | KEY_C) & KEY_MASK == KEY_C) by (bit_vector);
        assert(key != 0 && key & KEY_AND_MODIFIERS == key) by (bit_vector)
            requires
                key == CTRL | ALT | KEY_RIGHT || key == CTRL | ALT | KEY_LEFT || key == META | SHIFT
                    | KEY_PGDOWN || key == META | SHIFT | KEY_PGUP || key == META | SHIFT | KEY_SPACE
                    || key == META | KEY_SPACE || key == CTRL | ALT | KEY_C,
        ;
    }
    lemma_named_key_has_text(key);
    lemma_keycode_text_round_trip(key);
}

// ---------------------------------------------------------------------------
// Token order
// ---------------------------------------------------------------------------

/// The modifier bits one (normalized) token adds.
pub open spec fn token_mods(t: Seq<char>) -> i32 {
    token_effect(t, (0i32, None::<i32>)).0
}

/// The key one (normalized) token names, if it names one.
pub open spec fn token_key(t: Seq<char>) -> Option<i32> {
    token_effect(t, (0i32, None::<i32>)).1
}

/// A token adds its modifier bits and, when it names a key, replaces the key
/// read so far.
proof fn lemma_token_effect_shape(t: Seq<char>, acc: (i32, Option<i32>))
    ensures
        token_effect(t, acc) == (acc.0 | token_mods(t), if token_key(t) is Some {
            token_key(t)
        } else {
            acc.1
        }),
{
    let m = acc.0;
    assert(m | 0i32 == m) by (bit_vector);
    assert(0i32 | META == META && 0i32 | CTRL == CTRL && 0i32 | ALT == ALT && 0i32 | SHIFT == SHIFT
        && 0i32 | KEYPAD == KEYPAD) by (bit_vector);
}

/// Folding more tokens after two prefixes that read the same reads the same.
proof fn lemma_fold_extends(a1: Seq<Seq<char>>, a2: Seq<Seq<char>>, q: Seq<Seq<char>>)
    requires
        fold_tokens(a1) == fold_tokens(a2),
    ensures
        fold_tokens(a1 + q) == fold_tokens(a2 + q),
    decreases q.len(),
{
    if q.len() > 0 {
        lemma_fold_extends(a1, a2, q.drop_last());
        assert((a1 + q).drop_last() =~= a1 + q.drop_last());
        assert((a2 + q).drop_last() =~= a2 + q.drop_last());
        assert((a1 + q).last() == q.last());
        assert((a2 + q).last() == q.last());
    } else {
        assert(a1 + q =~= a1);
        assert(a2 + q =~= a2);
    }
}

/// Law: in a key sequence, two neighbouring tokens may be swapped without
/// changing what it reads as, unless both name a key (then the later one
/// wins). So modifiers may come in any order, before or after the key.
pub proof fn lemma_token_order(p: Seq<Seq<char>>, x: Seq<char>, y: Seq<char>, q: Seq<Seq<char>>)
    requires
        token_key(normalized_token(x)) is None || token_key(normalized_token(y)) is None,
    ensures
        fold_tokens(p.push(x).push(y) + q) == fold_tokens(p.push(y).push(x) + q),
{
    let acc = fold_tokens(p);
    let nx = normalized_token(x);
    let ny = normalized_token(y);
    lemma_fold_push(p, x);
    lemma_fold_push(p.push(x), y);
    lemma_fold_push(p, y);
    lemma_fold_push(p.push(y), x);
    lemma_token_effect_shape(nx, acc);
    lemma_token_effect_shape(ny, acc);
    lemma_token_effect_shape(ny, token_effect(nx, acc));
    lemma_token_effect_shape(nx, token_effect(ny, acc));
    let a = acc.0;
    let mx = token_mods(nx);
    let my = token_mods(ny);
    assert((a | mx) | my == (a | my) | mx) by (bit_vector);
    lemma_fold_extends(p.push(x).push(y), p.push(y).push(x), q);
}

/// The tokens as they are matched: each trimmed and in ASCII lower case.
pub open spec fn normalized_tokens(ts: Seq<Seq<char>>) -> Seq<Seq<char>> {
    ts.map_values(|t: Seq<char>| normalized_token(t))
}

/// The modifier bits that normalized tokens add, together.
pub open spec fn mods_in(ns: Seq<Seq<char>>) -> i32
    decreases ns.len(),
{
    if ns.len() == 0 {
        0i32
    } else {
        mods_in(ns.drop_last()) | token_mods(ns.last())
    }
}

/// The key named by the last normalized token that names one.
pub open spec fn key_in(ns: Seq<Seq<char>>) -> Option<i32>
    decreases ns.len(),
{
    if ns.len() == 0 {
        None
    } else if token_key(ns.last()) is Some {
        token_key(ns.last())
    } else {
        key_in(ns.drop_last())
    }
}

/// At most one of the normalized tokens names a key.
pub open spec fn at_most_one_key(ns: Seq<Seq<char>>) -> bool {
    forall|i: int, j: int|
        0 <= i < j < ns.len() ==> !(token_key(#[trigger] ns[i]) is Some && token_key(
            #[trigger] ns[j],
        ) is Some)
}

/// Reading tokens gives all their modifier bits and the last key named.
proof fn lemma_fold_closed_form(ts: Seq<Seq<char>>)
    ensures
        fold_tokens(ts) == (mods_in(normalized_tokens(ts)), key_in(normalized_tokens(ts))),
    decreases ts.len(),
{
    let ns = normalized_tokens(ts);
    if ts.len() > 0 {
        lemma_fold_closed_form(ts.drop_last());
        assert(ns.drop_last() =~= normalized_tokens(ts.drop_last()));
        assert(ns.last() == normalized_token(ts.last()));
        lemma_token_effect_shape(normalized_token(ts.last()), fold_tokens(ts.drop_last()));
    }
}

/// Taking one token out takes away only its modifier bits.
proof fn lemma_mods_remove(ns: Seq<Seq<char>>, j: int)
    requires
        0 <= j < ns.len(),
    ensures
        mods_in(ns) == mods_in(ns.remove(j)) | token_mods(ns[j]),
    decreases ns.len(),
{
    if j == ns.len() - 1 {
        assert(ns.remove(j) =~= ns.drop_last());
    } else {
        let init = ns.drop_last();
        lemma_mods_remove(init, j);
        let r = ns.remove(j);
        assert(r.drop_last() =~= init.remove(j));
        assert(r.last() == ns.last());
        let a = mods_in(init.remove(j));
        let x = token_mods(ns[j]);
        let y = token_mods(ns.last());
        assert((a | x) | y == (a | y) | x) by (bit_vector);
    }
}

/// Normalized tokens with the same tokens, counted with repeats, add the same
/// modifier bits.
proof fn lemma_mods_permutation(n1: Seq<Seq<char>>, n2: Seq<Seq<char>>)
    requires
        n1.to_multiset() == n2.to_multiset(),
    ensures
        mods_in(n1) == mods_in(n2),
    decreases n1.len(),
{
    broadcast use vstd::seq_lib::group_to_multiset_ensures;

    n1.to_multiset_ensures();
    n2.to_multiset_ensures();
    if n1.len() == 0 {
        assert(n2.len() == 0);
    } else {
        let x = n1.last();
        let init = n1.drop_last();
        assert(init.push(x) =~= n1);
        init.to_multiset_ensures();
        assert(n1.to_multiset().count(x) > 0);
        assert(n2.contains(x));
        let j = choose|j: int| 0 <= j < n2.len() && n2[j] == x;
        let r = n2.remove(j);
        assert(r.to_multiset() =~= n2.to_multiset().remove(x));
        assert(init.to_multiset() =~= n1.to_multiset().remove(x));
        lemma_mods_permutation(init, r);
        lemma_mods_remove(n2, j);
    }
}

/// With at most one key named, the key read is that one.
proof fn lemma_key_in_single(ns: Seq<Seq<char>>, i: int)
    requires
        at_most_one_key(ns),
        0 <= i < ns.len(),
        token_key(ns[i]) is Some,
    ensures
        key_in(ns) == token_key(ns[i]),
    decreases ns.len(),
{
    if i < ns.len() - 1 {
        let init = ns.drop_last();
        assert(!(token_key(ns[i]) is Some && token_key(ns[ns.len() - 1]) is Some));
        assert(at_most_one_key(init)) by {
            assert forall|a: int, b: int| 0 <= a < b < init.len() implies !(token_key(
                #[trigger] init[a],
            ) is Some && token_key(#[trigger] init[b]) is Some) by {
                assert(init[a] == ns[a] && init[b] == ns[b]);
            }
        }
        assert(init[i] == ns[i]);
        lemma_key_in_single(init, i);
    }
}

/// With no key named, none is read.
proof fn lemma_key_in_none(ns: Seq<Seq<char>>)
    requires
        forall|i: int| 0 <= i < ns.len() ==> token_key(#[trigger] ns[i]) is None,
    ensures
        key_in(ns) is None,
    decreases ns.len(),
{
    if ns.len() > 0 {
        let init = ns.drop_last();
        assert(token_key(ns[ns.len() - 1]) is None);
        assert forall|i: int| 0 <= i < init.len() implies token_key(#[trigger] init[i]) is None by {
            assert(init[i] == ns[i]);
        }
        lemma_key_in_none(init);
    }
}

/// Normalized tokens that are the same, counted with repeats, and of which at
/// most one names a key, add the same modifier bits and name the same key.
proof fn lemma_normalized_permutation(n1: Seq<Seq<char>>, n2: Seq<Seq<char>>)
    requires
        n1.to_multiset() == n2.to_multiset(),
        at_most_one_key(n1),
        at_most_one_key(n2),
    ensures
        mods_in(n1) == mods_in(n2),
        key_in(n1) == key_in(n2),
{
    broadcast use vstd::seq_lib::group_to_multiset_ensures;

    lemma_mods_permutation(n1, n2);
    n1.to_multiset_ensures();
    n2.to_multiset_ensures();
    if exists|i: int| 0 <= i < n1.len() && token_key(#[trigger] n1[i]) is Some {
        let i = choose|i: int| 0 <= i < n1.len() && token_key(#[trigger] n1[i]) is Some;
        assert(n1.contains(n1[i]));
        assert(n2.to_multiset().count(n1[i]) > 0);
        let j = choose|j: int| 0 <= j < n2.len() && n2[j] == n1[i];
        lemma_key_in_single(n1, i);
        lemma_key_in_single(n2, j);
    } else {
        lemma_key_in_none(n1);
        assert forall|j: int| 0 <= j < n2.len() implies token_key(#[trigger] n2[j]) is None by {
            assert(n2.contains(n2[j]));
            assert(n1.to_multiset().count(n2[j]) > 0);
            let i = choose|i: int| 0 <= i < n1.len() && n1[i] == n2[j];
            assert(token_key(n1[i]) is None);
        }
        lemma_key_in_none(n2);
    }
}

/// Law: a list of tokens reads the same whatever the order of its tokens, and
/// whatever their case or the spaces around them, as long as at most one of
/// them names a key: two token lists whose trimmed, lower-cased tokens are the
/// same, counted with repeats, read as the same modifiers and key.
pub proof fn lemma_token_permutation(ts1: Seq<Seq<char>>, ts2: Seq<Seq<char>>)
    requires
        normalized_tokens(ts1).to_multiset() == normalized_tokens(ts2).to_multiset(),
        at_most_one_key(normalized_tokens(ts1)),
        at_most_one_key(normalized_tokens(ts2)),
    ensures
        fold_tokens(ts1) == fold_tokens(ts2),
{
    lemma_fold_closed_form(ts1);
    lemma_fold_closed_form(ts2);
    lemma_normalized_permutation(normalized_tokens(ts1), normalized_tokens(ts2));
}

/// What a key sequence reads as, from its normalized tokens: the key named,
/// with all the modifier bits, or nothing when no key is named.
pub open spec fn key_result(ns: Seq<Seq<char>>) -> Option<i32> {
    match key_in(ns) {
        Some(k) => Some(k | mods_in(ns)),
        None => None,
    }
}

/// No token holds a `+`.
pub open spec fn no_plus(toks: Seq<Seq<char>>) -> bool {
    forall|i: int, k: int| 0 <= i < toks.len() && 0 <= k < toks[i].len() ==> #[trigger] toks[i][k] != '+'
}

/// An empty token names no key.
proof fn lemma_empty_token_names_no_key()
    ensures
        token_key(Seq::<char>::empty()) is None,
{
    reveal_strlit("meta");
    reveal_strlit("super");
    reveal_strlit("ctrl");
    reveal_strlit("control");
    reveal_strlit("alt");
    reveal_strlit("shift");
    reveal_strlit("num");
    reveal_strlit("space");
    reveal_strlit("left");
    reveal_strlit("right");
    reveal_strlit("up");
    reveal_strlit("down");
    reveal_strlit("pgup");
    reveal_strlit("pageup");
    reveal_strlit("page up");
    reveal_strlit("pgdown");
    reveal_strlit("pagedown");
    reveal_strlit("page down");
    assert(Seq::<char>::empty() != "meta"@);
    assert(Seq::<char>::empty() != "super"@);
    assert(Seq::<char>::empty() != "ctrl"@);
    assert(Seq::<char>::empty() != "control"@);
    assert(Seq::<char>::empty() != "alt"@);
    assert(Seq::<char>::empty() != "shift"@);
    assert(Seq::<char>::empty() != "num"@);
    assert(Seq::<char>::empty() != "space"@);
    assert(Seq::<char>::empty() != "left"@);
    assert(Seq::<char>::empty() != "right"@);
    assert(Seq::<char>::empty() != "up"@);
    assert(Seq::<char>::empty() != "down"@);
    assert(Seq::<char>::empty() != "pgup"@);
    assert(Seq::<char>::empty() != "pageup"@);
    assert(Seq::<char>::empty() != "page up"@);
    assert(Seq::<char>::empty() != "pgdown"@);
    assert(Seq::<char>::empty() != "pagedown"@);
    assert(Seq::<char>::empty() != "page down"@);
}

/// Joining pieces with `+` and trimming the whole trims only the first piece
/// at its start and the last piece at its end.
proof fn lemma_trimmed_join(ts: Seq<Seq<char>>)
    requires
        ts.len() >= 2,
    ensures
        trimmed(join_with(ts, seq!['+'])) == join_with(
            ts.update(0, trim_start(ts[0])).update(ts.len() - 1, trim_end(ts.last())),
            seq!['+'],
        ),
{
    let sep = seq!['+'];
    let n = ts.len() as int;
    let u = ts.update(0, trim_start(ts[0]));
    let w = u.update(n - 1, trim_end(ts.last()));
    lemma_join_front(ts, sep);
    let b = sep + join_with(ts.drop_first(), sep);
    assert(b[0] == '+');
    assert(ts[0] + sep + join_with(ts.drop_first(), sep) =~= ts[0] + b);
    lemma_trim_start_append(ts[0], b);
    lemma_join_front(u, sep);
    assert(u.drop_first() =~= ts.drop_first());
    assert(trim_start(ts[0]) + b =~= u[0] + sep + join_with(u.drop_first(), sep));
    let a = join_with(u.drop_last(), sep) + sep;
    assert(join_with(u, sep) == join_with(u.drop_last(), sep) + sep + u.last());
    assert(a.last() == '+');
    lemma_trim_end_prepend(a, u.last());
    assert(u.last() == ts.last());
    assert(w.drop_last() =~= u.drop_last());
    assert(join_with(w, sep) == join_with(w.drop_last(), sep) + sep + w.last());
    assert(w.last() == trim_end(ts.last()));
}

/// A key sequence string made of `+`-joined pieces reads as its pieces do,
/// each trimmed and lower-cased.
proof fn lemma_joined_tokens_value(ts: Seq<Seq<char>>)
    requires
        ts.len() >= 1,
        no_plus(ts),
    ensures
        parse_key_sequence(join_with(ts, seq!['+'])) == key_result(normalized_tokens(ts)),
{
    let sep = seq!['+'];
    let s = join_with(ts, sep);
    let n = ts.len() as int;
    let ns = normalized_tokens(ts);
    if n == 1 {
        let t = trimmed(ts[0]);
        lemma_trimmed_shape(ts[0]);
        assert(s == ts[0]);
        if t.len() == 0 {
            lemma_empty_token_names_no_key();
            assert(ascii_lowercase(t) =~= Seq::<char>::empty());
            assert(ns[0] == normalized_token(ts[0]));
            assert(ns.drop_last().len() == 0);
            assert(ns.last() == Seq::<char>::empty());
            assert(key_in(ns) == key_in(ns.drop_last()));
            assert(key_in(ns) is None);
            assert(trimmed(s).len() == 0);
            assert(parse_key_sequence(s) == key_result(ns));
        } else {
            assert forall|i: int, k: int| 0 <= i < 1 && 0 <= k < seq![t][i].len() implies #[trigger] seq![t][i][k] != '+' by {
                let j: int = choose|j: int| 0 <= j < ts[0].len() && ts[0][j] == #[trigger] t[k];
                assert(ts[0][j] != '+');
            }
            lemma_split_join(seq![t], '+');
            assert(join_with(seq![t], sep) == t);
            lemma_fold_closed_form(seq![t]);
            lemma_trimmed_idempotent(ts[0]);
            assert(normalized_tokens(seq![t]) =~= ns);
            assert(trimmed(s) == t);
            assert(split_on(t, '+') == seq![t]);
            assert(fold_tokens(split_on(t, '+')) == (mods_in(ns), key_in(ns)));
            assert(parse_key_sequence(s) == key_result(ns));
        }
    } else {
        let w = ts.update(0, trim_start(ts[0])).update(n - 1, trim_end(ts.last()));
        lemma_trimmed_join(ts);
        lemma_trim_start_shape(ts[0]);
        lemma_trim_end_shape(ts.last());
        assert forall|i: int, k: int| 0 <= i < w.len() && 0 <= k < w[i].len() implies #[trigger] w[i][k] != '+' by {
            if i == n - 1 {
                assert(w[i][k] == ts[n - 1][k]);
            } else if i == 0 {
                assert(w[i][k] == ts[0][ts[0].len() - trim_start(ts[0]).len() + k]);
            } else {
                assert(w[i] == ts[i]);
            }
        }
        lemma_split_join(w, '+');
        lemma_join_front(w, sep);
        assert(join_with(w, sep)[w[0].len() as int] == '+');
        lemma_fold_closed_form(w);
        assert forall|i: int| 0 <= i < n implies #[trigger] normalized_tokens(w)[i] == ns[i] by {
            if i == 0 {
                lemma_trimmed_of_trim_start(ts[0]);
            } else if i == n - 1 {
                lemma_trimmed_of_trim_end(ts[n - 1]);
            }
        }
        assert(normalized_tokens(w) =~= ns);
        assert(trimmed(s) == join_with(w, sep));
        assert(trimmed(s).len() > 0);
        assert(split_on(trimmed(s), '+') == w);
        assert(fold_tokens(w) == (mods_in(ns), key_in(ns)));
        assert(parse_key_sequence(s) == key_result(ns));
    }
}

/// Law: a key sequence string reads the same whatever the order of its
/// `+`-separated parts, and whatever their case or the spaces around them, as
/// long as at most one of them names a key.
pub proof fn lemma_sequence_permutation(toks1: Seq<Seq<char>>, toks2: Seq<Seq<char>>)
    requires
        toks1.len() >= 1,
        toks2.len() >= 1,
        no_plus(toks1),
        no_plus(toks2),
        normalized_tokens(toks1).to_multiset() == normalized_tokens(toks2).to_multiset(),
        at_most_one_key(normalized_tokens(toks1)),
        at_most_one_key(normalized_tokens(toks2)),
    ensures
        parse_key_sequence(join_with(toks1, seq!['+'])) == parse_key_sequence(
            join_with(toks2, seq!['+']),
        ),
{
    lemma_joined_tokens_value(toks1);
    lemma_joined_tokens_value(toks2);
    lemma_normalized_permutation(normalized_tokens(toks1), normalized_tokens(toks2));
}

/// Law: the text of a key code ends with the name of its key, whatever its
/// modifiers: `Space`, `Left`, `Right`, `Up`, `Down`, `PgUp`, `PgDown`, a
/// digit or capital letter for itself, and `F1` to `F12`.
pub proof fn lemma_key_names()
    ensures
        forall|k: i32|
            k != 0 && #[trigger] (k & KEY_MASK) == KEY_SPACE ==> keycode_text(k) == join_with(
                modifier_names(k).push("Space"@),
                seq!['+'],
            ),
        forall|k: i32|
            k != 0 && #[trigger] (k & KEY_MASK) == KEY_LEFT ==> keycode_text(k) == join_with(
                modifier_names(k).push("Left"@),
                seq!['+'],
            ),
        forall|k: i32|
            k != 0 && #[trigger] (k & KEY_MASK) == KEY_RIGHT ==> keycode_text(k) == join_with(
                modifier_names(k).push("Right"@),
                seq!['+'],
            ),
        forall|k: i32|
            k != 0 && #[trigger] (k & KEY_MASK) == KEY_UP ==> keycode_text(k) == join_with(
                modifier_names(k).push("Up"@),
                seq!['+'],
            ),
        forall|k: i32|
            k != 0 && #[trigger] (k & KEY_MASK) == KEY_DOWN ==> keycode_text(k) == join_with(
                modifier_names(k).push("Down"@),
                seq!['+'],
            ),
        forall|k: i32|
            k != 0 && #[trigger] (k & KEY_MASK) == KEY_PGUP ==> keycode_text(k) == join_with(
                modifier_names(k).push("PgUp"@),
                seq!['+'],
            ),
        forall|k: i32|
            k != 0 && #[trigger] (k & KEY_MASK) == KEY_PGDOWN ==> keycode_text(k) == join_with(
                modifier_names(k).push("PgDown"@),
                seq!['+'],
            ),
        forall|k: i32|
            k != 0 && 0x30 <= #[trigger] (k & KEY_MASK) <= 0x5a && !(0x3a <= (k & KEY_MASK) <= 0x40)
                ==> keycode_text(k) == join_with(
                modifier_names(k).push(seq![(k & KEY_MASK) as char]),
                seq!['+'],
            ),
        forall|k: i32|
            k != 0 && KEY_F1 <= #[trigger] (k & KEY_MASK) <= KEY_F1 + 11 ==> keycode_text(k)
                == join_with(
                modifier_names(k).push(seq!['F'] + decimal(((k & KEY_MASK) - KEY_F1 + 1) as nat)),
                seq!['+'],
            ),
{
}

/// Where a modifier's name stands among the modifier names of a key code.
pub open spec fn modifier_rank(name: Seq<char>) -> int {
    if name == "Meta"@ {
        0
    } else if name == "Ctrl"@ {
        1
    } else if name == "Alt"@ {
        2
    } else if name == "Shift"@ {
        3
    } else {
        4
    }
}

/// What `s.push(x)` holds: what `s` holds, and `x`.
proof fn lemma_push_contains(s: Seq<Seq<char>>, x: Seq<char>, y: Seq<char>)
    ensures
        s.push(x).contains(y) == (s.contains(y) || x == y),
{
    if s.contains(y) {
        let i = choose|i: int| 0 <= i < s.len() && s[i] == y;
        assert(s.push(x)[i] == y);
    }
    if x == y {
        assert(s.push(x)[s.len() as int] == y);
    }
    if s.push(x).contains(y) {
        let i = choose|i: int| 0 <= i < s.push(x).len() && s.push(x)[i] == y;
        if i < s.len() {
            assert(s[i] == y);
        }
    }
}

/// Law: the text of a key code names `Meta`, `Ctrl`, `Alt`, `Shift` and
/// `Num` exactly for the modifier bits it holds, each once, in that order.
pub proof fn lemma_modifier_names(k: i32)
    ensures
        modifier_names(k).contains("Meta"@) == (k & META != 0),
        modifier_names(k).contains("Ctrl"@) == (k & CTRL != 0),
        modifier_names(k).contains("Alt"@) == (k & ALT != 0),
        modifier_names(k).contains("Shift"@) == (k & SHIFT != 0),
        modifier_names(k).contains("Num"@) == (k & KEYPAD != 0),
        forall|i: int, j: int|
            0 <= i < j < modifier_names(k).len() ==> modifier_rank(#[trigger] modifier_names(k)[i])
                < modifier_rank(#[trigger] modifier_names(k)[j]),
        forall|i: int|
            0 <= i < modifier_names(k).len() ==> {
                let n = #[trigger] modifier_names(k)[i];
                n == "Meta"@ || n == "Ctrl"@ || n == "Alt"@ || n == "Shift"@ || n == "Num"@
            },
{
    reveal_strlit("Meta");
    reveal_strlit("Ctrl");
    reveal_strlit("Alt");
    reveal_strlit("Shift");
    reveal_strlit("Num");
    assert("Meta"@[0] != "Ctrl"@[0] && "Meta"@.len() != "Alt"@.len() && "Meta"@.len()
        != "Shift"@.len() && "Meta"@.len() != "Num"@.len() && "Ctrl"@.len() != "Alt"@.len()
        && "Ctrl"@.len() != "Shift"@.len() && "Ctrl"@.len() != "Num"@.len() && "Alt"@[0]
        != "Num"@[0] && "Alt"@.len() != "Shift"@.len() && "Shift"@.len() != "Num"@.len());
    assert("Meta"@ != "Ctrl"@ && "Meta"@ != "Alt"@ && "Meta"@ != "Shift"@ && "Meta"@ != "Num"@
        && "Ctrl"@ != "Alt"@ && "Ctrl"@ != "Shift"@ && "Ctrl"@ != "Num"@ && "Alt"@ != "Shift"@
        && "Alt"@ != "Num"@ && "Shift"@ != "Num"@);
    let n = modifier_names(k);
    let s1 = if k & META != 0 {
        seq!["Meta"@]
    } else {
        Seq::<Seq<char>>::empty()
    };
    let s2 = if k & CTRL != 0 {
        s1.push("Ctrl"@)
    } else {
        s1
    };
    let s3 = if k & ALT != 0 {
        s2.push("Alt"@)
    } else {
        s2
    };
    let s4 = if k & SHIFT != 0 {
        s3.push("Shift"@)
    } else {
        s3
    };
    assert(n == if k & KEYPAD != 0 {
        s4.push("Num"@)
    } else {
        s4
    });
    assert(forall|i: int| 0 <= i < s1.len() ==> modifier_rank(#[trigger] s1[i]) == 0);
    assert(forall|i: int| 0 <= i < s2.len() ==> modifier_rank(#[trigger] s2[i]) <= 1);
    assert(forall|i: int| 0 <= i < s3.len() ==> modifier_rank(#[trigger] s3[i]) <= 2);
    assert(forall|i: int| 0 <= i < s4.len() ==> modifier_rank(#[trigger] s4[i]) <= 3);
    assert(s1.contains("Meta"@) == (k & META != 0)) by {
        if k & META != 0 {
            assert(s1[0] == "Meta"@);
        }
    }
    assert(s2.contains("Ctrl"@) == (k & CTRL != 0)) by {
        if k & CTRL != 0 {
            assert(s2[s2.len() - 1] == "Ctrl"@);
        }
    }
    assert(s3.contains("Alt"@) == (k & ALT != 0)) by {
        if k & ALT != 0 {
            assert(s3[s3.len() - 1] == "Alt"@);
        }
    }
    assert(s4.contains("Shift"@) == (k & SHIFT != 0)) by {
        if k & SHIFT != 0 {
            assert(s4[s4.len() - 1] == "Shift"@);
        }
    }
    assert(n.contains("Num"@) == (k & KEYPAD != 0)) by {
        if k & KEYPAD != 0 {
            assert(n[n.len() - 1] == "Num"@);
        }
    }    let names = seq!["Meta"@, "Ctrl"@, "Alt"@, "Shift"@, "Num"@];
    assert forall|w: int| 0 <= w < 5 implies {
        let y = #[trigger] names[w];
        &&& (s2.contains(y) == (s1.contains(y) || (k & CTRL != 0 && y == "Ctrl"@)))
        &&& (s3.contains(y) == (s2.contains(y) || (k & ALT != 0 && y == "Alt"@)))
        &&& (s4.contains(y) == (s3.contains(y) || (k & SHIFT != 0 && y == "Shift"@)))
        &&& (n.contains(y) == (s4.contains(y) || (k & KEYPAD != 0 && y == "Num"@)))
    } by {
        let y = names[w];
        lemma_push_contains(s1, "Ctrl"@, y);
        lemma_push_contains(s2, "Alt"@, y);
        lemma_push_contains(s3, "Shift"@, y);
        lemma_push_contains(s4, "Num"@, y);
    }
    assert(names[0] == "Meta"@ && names[1] == "Ctrl"@ && names[2] == "Alt"@ && names[3] == "Shift"@);
    assert(!s1.contains("Ctrl"@) && !s1.contains("Alt"@) && !s1.contains("Shift"@) && !s1.contains("Num"@)) by {
        if k & META != 0 {
            lemma_push_contains(Seq::<Seq<char>>::empty(), "Meta"@, "Ctrl"@);
            lemma_push_contains(Seq::<Seq<char>>::empty(), "Meta"@, "Alt"@);
            lemma_push_contains(Seq::<Seq<char>>::empty(), "Meta"@, "Shift"@);
            lemma_push_contains(Seq::<Seq<char>>::empty(), "Meta"@, "Num"@);
            assert(Seq::<Seq<char>>::empty().push("Meta"@) == s1);
        }
    }
}

/// Law: the words a key sequence may use, as they are read: `space`, `left`,
/// `right`, `up`, `down` name those keys; `pgup`, `pageup` and `page up` all
/// name Page Up, `pgdown`, `pagedown` and `page down` Page Down; `meta` and
/// `super` add Meta, `ctrl` and `control` Ctrl, `alt` Alt, `shift` Shift and
/// `num` the keypad.
pub proof fn lemma_token_words()
    ensures
        token_key("space"@) == Some(KEY_SPACE) && token_mods("space"@) == 0i32,
        token_key("left"@) == Some(KEY_LEFT) && token_mods("left"@) == 0i32,
        token_key("right"@) == Some(KEY_RIGHT) && token_mods("right"@) == 0i32,
        token_key("up"@) == Some(KEY_UP) && token_mods("up"@) == 0i32,
        token_key("down"@) == Some(KEY_DOWN) && token_mods("down"@) == 0i32,
        token_key("pgup"@) == Some(KEY_PGUP) && token_mods("pgup"@) == 0i32,
        token_key("pageup"@) == Some(KEY_PGUP) && token_mods("pageup"@) == 0i32,
        token_key("page up"@) == Some(KEY_PGUP) && token_mods("page up"@) == 0i32,
        token_key("pgdown"@) == Some(KEY_PGDOWN) && token_mods("pgdown"@) == 0i32,
        token_key("pagedown"@) == Some(KEY_PGDOWN) && token_mods("pagedown"@) == 0i32,
        token_key("page down"@) == Some(KEY_PGDOWN) && token_mods("page down"@) == 0i32,
        token_mods("meta"@) == META && token_key("meta"@) is None,
        token_mods("super"@) == META && token_key("super"@) is None,
        token_mods("ctrl"@) == CTRL && token_key("ctrl"@) is None,
        token_mods("control"@) == CTRL && token_key("control"@) is None,
        token_mods("alt"@) == ALT && token_key("alt"@) is None,
        token_mods("shift"@) == SHIFT && token_key("shift"@) is None,
        token_mods("num"@) == KEYPAD && token_key("num"@) is None,
{
    assert(0i32 | META == META && 0i32 | CTRL == CTRL && 0i32 | ALT == ALT && 0i32 | SHIFT == SHIFT
        && 0i32 | KEYPAD == KEYPAD) by (bit_vector);
    assert(token_mods("meta"@) == META && token_key("meta"@) is None) by {
        reveal_strlit("meta");
    }
    assert(token_mods("super"@) == META && token_key("super"@) is None) by {
        reveal_strlit("super");
    }
    assert(token_mods("ctrl"@) == CTRL && token_key("ctrl"@) is None) by {
        reveal_strlit("ctrl");
        reveal_strlit("meta");
        assert("ctrl"@[0] != "meta"@[0]);
        assert("ctrl"@ != "meta"@);
        reveal_strlit("super");
        assert("ctrl"@.len() != "super"@.len());
        assert("ctrl"@ != "super"@);
    }
    assert(token_mods("control"@) == CTRL && token_key("control"@) is None) by {
        reveal_strlit("control");
        reveal_strlit("meta");
        assert("control"@.len() != "meta"@.len());
        assert("control"@ != "meta"@);
        reveal_strlit("super");
        assert("control"@.len() != "super"@.len());
        assert("control"@ != "super"@);
    }
    assert(token_mods("alt"@) == ALT && token_key("alt"@) is None) by {
        reveal_strlit("alt");
        reveal_strlit("meta");
        assert("alt"@.len() != "meta"@.len());
        assert("alt"@ != "meta"@);
        reveal_strlit("super");
        assert("alt"@.len() != "super"@.len());
        assert("alt"@ != "super"@);
        reveal_strlit("ctrl");
        assert("alt"@.len() != "ctrl"@.len());
        assert("alt"@ != "ctrl"@);
        reveal_strlit("control");
        assert("alt"@.len() != "control"@.len());
        assert("alt"@ != "control"@);
    }
    assert(token_mods("shift"@) == SHIFT && token_key("shift"@) is None) by {
        reveal_strlit("shift");
        reveal_strlit("meta");
        assert("shift"@.len() != "meta"@.len());
        assert("shift"@ != "meta"@);
        reveal_strlit("super");
        assert("shift"@[1] != "super"@[1]);
        assert("shift"@ != "super"@);
        reveal_strlit("ctrl");
        assert("shift"@.len() != "ctrl"@.len());
        assert("shift"@ != "ctrl"@);
        reveal_strlit("control");
        assert("shift"@.len() != "control"@.len());
        assert("shift"@ != "control"@);
        reveal_strlit("alt");
        assert("shift"@.len() != "alt"@.len());
        assert("shift"@ != "alt"@);
    }
    assert(token_mods("num"@) == KEYPAD && token_key("num"@) is None) by {
        reveal_strlit("num");
        reveal_strlit("meta");
        assert("num"@.len() != "meta"@.len());
        assert("num"@ != "meta"@);
        reveal_strlit("super");
        assert("num"@.len() != "super"@.len());
        assert("num"@ != "super"@);
        reveal_strlit("ctrl");
        assert("num"@.len() != "ctrl"@.len());
        assert("num"@ != "ctrl"@);
        reveal_strlit("control");
        assert("num"@.len() != "control"@.len());
        assert("num"@ != "control"@);
        reveal_strlit("alt");
        assert("num"@[0] != "alt"@[0]);
        assert("num"@ != "alt"@);
        reveal_strlit("shift");
        assert("num"@.len() != "shift"@.len());
        assert("num"@ != "shift"@);
    }
    assert(token_key("space"@) == Some(KEY_SPACE) && token_mods("space"@) == 0i32) by {
        reveal_strlit("space");
        reveal_strlit("meta");
        assert("space"@.len() != "meta"@.len());
        assert("space"@ != "meta"@);
        reveal_strlit("super");
        assert("space"@[1] != "super"@[1]);
        assert("space"@ != "super"@);
        reveal_strlit("ctrl");
        assert("space"@.len() != "ctrl"@.len());
        assert("space"@ != "ctrl"@);
        reveal_strlit("control");
        assert("space"@.len() != "control"@.len());
        assert("space"@ != "control"@);
        reveal_strlit("alt");
        assert("space"@.len() != "alt"@.len());
        assert("space"@ != "alt"@);
        reveal_strlit("shift");
        assert("space"@[1] != "shift"@[1]);
        assert("space"@ != "shift"@);
        reveal_strlit("num");
        assert("space"@.len() != "num"@.len());
        assert("space"@ != "num"@);
    }
    assert(token_key("left"@) == Some(KEY_LEFT) && token_mods("left"@) == 0i32) by {
        reveal_strlit("left");
        reveal_strlit("meta");
        assert("left"@[0] != "meta"@[0]);
        assert("left"@ != "meta"@);
        reveal_strlit("super");
        assert("left"@.len() != "super"@.len());
        assert("left"@ != "super"@);
        reveal_strlit("ctrl");
        assert("left"@[0] != "ctrl"@[0]);
        assert("left"@ != "ctrl"@);
        reveal_strlit("control");
        assert("left"@.len() != "control"@.len());
        assert("left"@ != "control"@);
        reveal_strlit("alt");
        assert("left"@.len() != "alt"@.len());
        assert("left"@ != "alt"@);
        reveal_strlit("shift");
        assert("left"@.len() != "shift"@.len());
        assert("left"@ != "shift"@);
        reveal_strlit("num");
        assert("left"@.len() != "num"@.len());
        assert("left"@ != "num"@);
        reveal_strlit("space");
        assert("left"@.len() != "space"@.len());
        assert("left"@ != "space"@);
    }
    assert(token_key("right"@) == Some(KEY_RIGHT) && token_mods("right"@) == 0i32) by {
        reveal_strlit("right");
        reveal_strlit("meta");
        assert("right"@.len() != "meta"@.len());
        assert("right"@ != "meta"@);
        reveal_strlit("super");
        assert("right"@[0] != "super"@[0]);
        assert("right"@ != "super"@);
        reveal_strlit("ctrl");
        assert("right"@.len() != "ctrl"@.len());
        assert("right"@ != "ctrl"@);
        reveal_strlit("control");
        assert("right"@.len() != "control"@.len());
        assert("right"@ != "control"@);
        reveal_strlit("alt");
        assert("right"@.len() != "alt"@.len());
        assert("right"@ != "alt"@);
        reveal_strlit("shift");
        assert("right"@[0] != "shift"@[0]);
        assert("right"@ != "shift"@);
        reveal_strlit("num");
        assert("right"@.len() != "num"@.len());
        assert("right"@ != "num"@);
        reveal_strlit("space");
        assert("right"@[0] != "space"@[0]);
        assert("right"@ != "space"@);
        reveal_strlit("left");
        assert("right"@.len() != "left"@.len());
        assert("right"@ != "left"@);
    }
    assert(token_key("up"@) == Some(KEY_UP) && token_mods("up"@) == 0i32) by {
        reveal_strlit("up");
        reveal_strlit("meta");
        assert("up"@.len() != "meta"@.len());
        assert("up"@ != "meta"@);
        reveal_strlit("super");
        assert("up"@.len() != "super"@.len());
        assert("up"@ != "super"@);
        reveal_strlit("ctrl");
        assert("up"@.len() != "ctrl"@.len());
        assert("up"@ != "ctrl"@);
        reveal_strlit("control");
        assert("up"@.len() != "control"@.len());
        assert("up"@ != "control"@);
        reveal_strlit("alt");
        assert("up"@.len() != "alt"@.len());
        assert("up"@ != "alt"@);
        reveal_strlit("shift");
        assert("up"@.len() != "shift"@.len());
        assert("up"@ != "shift"@);
        reveal_strlit("num");
        assert("up"@.len() != "num"@.len());
        assert("up"@ != "num"@);
        reveal_strlit("space");
        assert("up"@.len() != "space"@.len());
        assert("up"@ != "space"@);
        reveal_strlit("left");
        assert("up"@.len() != "left"@.len());
        assert("up"@ != "left"@);
        reveal_strlit("right");
        assert("up"@.len() != "right"@.len());
        assert("up"@ != "right"@);
    }
    assert(token_key("down"@) == Some(KEY_DOWN) && token_mods("down"@) == 0i32) by {
        reveal_strlit("down");
        reveal_strlit("meta");
        assert("down"@[0] != "meta"@[0]);
        assert("down"@ != "meta"@);
        reveal_strlit("super");
        assert("down"@.len() != "super"@.len());
        assert("down"@ != "super"@);
        reveal_strlit("ctrl");
        assert("down"@[0] != "ctrl"@[0]);
        assert("down"@ != "ctrl"@);
        reveal_strlit("control");
        assert("down"@.len() != "control"@.len());
        assert("down"@ != "control"@);
        reveal_strlit("alt");
        assert("down"@.len() != "alt"@.len());
        assert("down"@ != "alt"@);
        reveal_strlit("shift");
        assert("down"@.len() != "shift"@.len());
        assert("down"@ != "shift"@);
        reveal_strlit("num");
        assert("down"@.len() != "num"@.len());
        assert("down"@ != "num"@);
        reveal_strlit("space");
        assert("down"@.len() != "space"@.len());
        assert("down"@ != "space"@);
        reveal_strlit("left");
        assert("down"@[0] != "left"@[0]);
        assert("down"@ != "left"@);
        reveal_strlit("right");
        assert("down"@.len() != "right"@.len());
        assert("down"@ != "right"@);
        reveal_strlit("up");
        assert("down"@.len() != "up"@.len());
        assert("down"@ != "up"@);
    }
    assert(token_key("pgup"@) == Some(KEY_PGUP) && token_mods("pgup"@) == 0i32) by {
        reveal_strlit("pgup");
        reveal_strlit("meta");
        assert("pgup"@[0] != "meta"@[0]);
        assert("pgup"@ != "meta"@);
        reveal_strlit("super");
        assert("pgup"@.len() != "super"@.len());
        assert("pgup"@ != "super"@);
        reveal_strlit("ctrl");
        assert("pgup"@[0] != "ctrl"@[0]);
        assert("pgup"@ != "ctrl"@);
        reveal_strlit("control");
        assert("pgup"@.len() != "control"@.len());
        assert("pgup"@ != "control"@);
        reveal_strlit("alt");
        assert("pgup"@.len() != "alt"@.len());
        assert("pgup"@ != "alt"@);
        reveal_strlit("shift");
        assert("pgup"@.len() != "shift"@.len());
        assert("pgup"@ != "shift"@);
        reveal_strlit("num");
        assert("pgup"@.len() != "num"@.len());
        assert("pgup"@ != "num"@);
        reveal_strlit("space");
        assert("pgup"@.len() != "space"@.len());
        assert("pgup"@ != "space"@);
        reveal_strlit("left");
        assert("pgup"@[0] != "left"@[0]);
        assert("pgup"@ != "left"@);
        reveal_strlit("right");
        assert("pgup"@.len() != "right"@.len());
        assert("pgup"@ != "right"@);
        reveal_strlit("up");
        assert("pgup"@.len() != "up"@.len());
        assert("pgup"@ != "up"@);
        reveal_strlit("down");
        assert("pgup"@[0] != "down"@[0]);
        assert("pgup"@ != "down"@);
    }
    assert(token_key("pageup"@) == Some(KEY_PGUP) && token_mods("pageup"@) == 0i32) by {
        reveal_strlit("pageup");
        reveal_strlit("meta");
        assert("pageup"@.len() != "meta"@.len());
        assert("pageup"@ != "meta"@);
        reveal_strlit("super");
        assert("pageup"@.len() != "super"@.len());
        assert("pageup"@ != "super"@);
        reveal_strlit("ctrl");
        assert("pageup"@.len() != "ctrl"@.len());
        assert("pageup"@ != "ctrl"@);
        reveal_strlit("control");
        assert("pageup"@.len() != "control"@.len());
        assert("pageup"@ != "control"@);
        reveal_strlit("alt");
        assert("pageup"@.len() != "alt"@.len());
        assert("pageup"@ != "alt"@);
        reveal_strlit("shift");
        assert("pageup"@.len() != "shift"@.len());
        assert("pageup"@ != "shift"@);
        reveal_strlit("num");
        assert("pageup"@.len() != "num"@.len());
        assert("pageup"@ != "num"@);
        reveal_strlit("space");
        assert("pageup"@.len() != "space"@.len());
        assert("pageup"@ != "space"@);
        reveal_strlit("left");
        assert("pageup"@.len() != "left"@.len());
        assert("pageup"@ != "left"@);
        reveal_strlit("right");
        assert("pageup"@.len() != "right"@.len());
        assert("pageup"@ != "right"@);
        reveal_strlit("up");
        assert("pageup"@.len() != "up"@.len());
        assert("pageup"@ != "up"@);
        reveal_strlit("down");
        assert("pageup"@.len() != "down"@.len());
        assert("pageup"@ != "down"@);
    }
    assert(token_key("page up"@) == Some(KEY_PGUP) && token_mods("page up"@) == 0i32) by {
        reveal_strlit("page up");
        reveal_strlit("meta");
        assert("page up"@.len() != "meta"@.len());
        assert("page up"@ != "meta"@);
        reveal_strlit("super");
        assert("page up"@.len() != "super"@.len());
        assert("page up"@ != "super"@);
        reveal_strlit("ctrl");
        assert("page up"@.len() != "ctrl"@.len());
        assert("page up"@ != "ctrl"@);
        reveal_strlit("control");
        assert("page up"@[0] != "control"@[0]);
        assert("page up"@ != "control"@);
        reveal_strlit("alt");
        assert("page up"@.len() != "alt"@.len());
        assert("page up"@ != "alt"@);
        reveal_strlit("shift");
        assert("page up"@.len() != "shift"@.len());
        assert("page up"@ != "shift"@);
        reveal_strlit("num");
        assert("page up"@.len() != "num"@.len());
        assert("page up"@ != "num"@);
        reveal_strlit("space");
        assert("page up"@.len() != "space"@.len());
        assert("page up"@ != "space"@);
        reveal_strlit("left");
        assert("page up"@.len() != "left"@.len());
        assert("page up"@ != "left"@);
        reveal_strlit("right");
        assert("page up"@.len() != "right"@.len());
        assert("page up"@ != "right"@);
        reveal_strlit("up");
        assert("page up"@.len() != "up"@.len());
        assert("page up"@ != "up"@);
        reveal_strlit("down");
        assert("page up"@.len() != "down"@.len());
        assert("page up"@ != "down"@);
    }
    assert(token_key("pgdown"@) == Some(KEY_PGDOWN) && token_mods("pgdown"@) == 0i32) by {
        reveal_strlit("pgdown");
        reveal_strlit("meta");
        assert("pgdown"@.len() != "meta"@.len());
        assert("pgdown"@ != "meta"@);
        reveal_strlit("super");
        assert("pgdown"@.len() != "super"@.len());
        assert("pgdown"@ != "super"@);
        reveal_strlit("ctrl");
        assert("pgdown"@.len() != "ctrl"@.len());
        assert("pgdown"@ != "ctrl"@);
        reveal_strlit("control");
        assert("pgdown"@.len() != "control"@.len());
        assert("pgdown"@ != "control"@);
        reveal_strlit("alt");
        assert("pgdown"@.len() != "alt"@.len());
        assert("pgdown"@ != "alt"@);
        reveal_strlit("shift");
        assert("pgdown"@.len() != "shift"@.len());
        assert("pgdown"@ != "shift"@);
        reveal_strlit("num");
        assert("pgdown"@.len() != "num"@.len());
        assert("pgdown"@ != "num"@);
        reveal_strlit("space");
        assert("pgdown"@.len() != "space"@.len());
        assert("pgdown"@ != "space"@);
        reveal_strlit("left");
        assert("pgdown"@.len() != "left"@.len());
        assert("pgdown"@ != "left"@);
        reveal_strlit("right");
        assert("pgdown"@.len() != "right"@.len());
        assert("pgdown"@ != "right"@);
        reveal_strlit("up");
        assert("pgdown"@.len() != "up"@.len());
        assert("pgdown"@ != "up"@);
        reveal_strlit("down");
        assert("pgdown"@.len() != "down"@.len());
        assert("pgdown"@ != "down"@);
        reveal_strlit("pgup");
        assert("pgdown"@.len() != "pgup"@.len());
        assert("pgdown"@ != "pgup"@);
        reveal_strlit("pageup");
        assert("pgdown"@[1] != "pageup"@[1]);
        assert("pgdown"@ != "pageup"@);
        reveal_strlit("page up");
        assert("pgdown"@.len() != "page up"@.len());
        assert("pgdown"@ != "page up"@);
    }
    assert(token_key("pagedown"@) == Some(KEY_PGDOWN) && token_mods("pagedown"@) == 0i32) by {
        reveal_strlit("pagedown");
        reveal_strlit("meta");
        assert("pagedown"@.len() != "meta"@.len());
        assert("pagedown"@ != "meta"@);
        reveal_strlit("super");
        assert("pagedown"@.len() != "super"@.len());
        assert("pagedown"@ != "super"@);
        reveal_strlit("ctrl");
        assert("pagedown"@.len() != "ctrl"@.len());
        assert("pagedown"@ != "ctrl"@);
        reveal_strlit("control");
        assert("pagedown"@.len() != "control"@.len());
        assert("pagedown"@ != "control"@);
        reveal_strlit("alt");
        assert("pagedown"@.len() != "alt"@.len());
        assert("pagedown"@ != "alt"@);
        reveal_strlit("shift");
        assert("pagedown"@.len() != "shift"@.len());
        assert("pagedown"@ != "shift"@);
        reveal_strlit("num");
        assert("pagedown"@.len() != "num"@.len());
        assert("pagedown"@ != "num"@);
        reveal_strlit("space");
        assert("pagedown"@.len() != "space"@.len());
        assert("pagedown"@ != "space"@);
        reveal_strlit("left");
        assert("pagedown"@.len() != "left"@.len());
        assert("pagedown"@ != "left"@);
        reveal_strlit("right");
        assert("pagedown"@.len() != "right"@.len());
        assert("pagedown"@ != "right"@);
        reveal_strlit("up");
        assert("pagedown"@.len() != "up"@.len());
        assert("pagedown"@ != "up"@);
        reveal_strlit("down");
        assert("pagedown"@.len() != "down"@.len());
        assert("pagedown"@ != "down"@);
        reveal_strlit("pgup");
        assert("pagedown"@.len() != "pgup"@.len());
        assert("pagedown"@ != "pgup"@);
        reveal_strlit("pageup");
        assert("pagedown"@.len() != "pageup"@.len());
        assert("pagedown"@ != "pageup"@);
        reveal_strlit("page up");
        assert("pagedown"@.len() != "page up"@.len());
        assert("pagedown"@ != "page up"@);
    }
    assert(token_key("page down"@) == Some(KEY_PGDOWN) && token_mods("page down"@) == 0i32) by {
        reveal_strlit("page down");
        reveal_strlit("meta");
        assert("page down"@.len() != "meta"@.len());
        assert("page down"@ != "meta"@);
        reveal_strlit("super");
        assert("page down"@.len() != "super"@.len());
        assert("page down"@ != "super"@);
        reveal_strlit("ctrl");
        assert("page down"@.len() != "ctrl"@.len());
        assert("page down"@ != "ctrl"@);
        reveal_strlit("control");
        assert("page down"@.len() != "control"@.len());
        assert("page down"@ != "control"@);
        reveal_strlit("alt");
        assert("page down"@.len() != "alt"@.len());
        assert("page down"@ != "alt"@);
        reveal_strlit("shift");
        assert("page down"@.len() != "shift"@.len());
        assert("page down"@ != "shift"@);
        reveal_strlit("num");
        assert("page down"@.len() != "num"@.len());
        assert("page down"@ != "num"@);
        reveal_strlit("space");
        assert("page down"@.len() != "space"@.len());
        assert("page down"@ != "space"@);
        reveal_strlit("left");
        assert("page down"@.len() != "left"@.len());
        assert("page down"@ != "left"@);
        reveal_strlit("right");
        assert("page down"@.len() != "right"@.len());
        assert("page down"@ != "right"@);
        reveal_strlit("up");
        assert("page down"@.len() != "up"@.len());
        assert("page down"@ != "up"@);
        reveal_strlit("down");
        assert("page down"@.len() != "down"@.len());
        assert("page down"@ != "down"@);
        reveal_strlit("pgup");
        assert("page down"@.len() != "pgup"@.len());
        assert("page down"@ != "pgup"@);
        reveal_strlit("pageup");
        assert("page down"@.len() != "pageup"@.len());
        assert("page down"@ != "pageup"@);
        reveal_strlit("page up");
        assert("page down"@.len() != "page up"@.len());
        assert("page down"@ != "page up"@);
    }
}

/// Law: a key sequence whose last part is the name of a key reads as that key
/// with the modifiers of the other parts:
/// `Up` gives Up and `Down` Down; `PgUp`, `PageUp` and `Page Up` all give
/// Page Up, and `PgDown`, `PageDown` and `Page Down` Page Down.
pub proof fn lemma_key_words_parse(p: Seq<Seq<char>>)
    requires
        no_plus(p),
    ensures
        parse_key_sequence(join_with(p.push("space"@), seq!['+'])) == Some(
            KEY_SPACE | mods_in(normalized_tokens(p)),
        ),
        parse_key_sequence(join_with(p.push("left"@), seq!['+'])) == Some(
            KEY_LEFT | mods_in(normalized_tokens(p)),
        ),
        parse_key_sequence(join_with(p.push("right"@), seq!['+'])) == Some(
            KEY_RIGHT | mods_in(normalized_tokens(p)),
        ),
        parse_key_sequence(join_with(p.push("up"@), seq!['+'])) == Some(
            KEY_UP | mods_in(normalized_tokens(p)),
        ),
        parse_key_sequence(join_with(p.push("down"@), seq!['+'])) == Some(
            KEY_DOWN | mods_in(normalized_tokens(p)),
        ),
        parse_key_sequence(join_with(p.push("pgup"@), seq!['+'])) == Some(
            KEY_PGUP | mods_in(normalized_tokens(p)),
        ),
        parse_key_sequence(join_with(p.push("pageup"@), seq!['+'])) == Some(
            KEY_PGUP | mods_in(normalized_tokens(p)),
        ),
        parse_key_sequence(join_with(p.push("page up"@), seq!['+'])) == Some(
            KEY_PGUP | mods_in(normalized_tokens(p)),
        ),
        parse_key_sequence(join_with(p.push("pgdown"@), seq!['+'])) == Some(
            KEY_PGDOWN | mods_in(normalized_tokens(p)),
        ),
        parse_key_sequence(join_with(p.push("pagedown"@), seq!['+'])) == Some(
            KEY_PGDOWN | mods_in(normalized_tokens(p)),
        ),
        parse_key_sequence(join_with(p.push("page down"@), seq!['+'])) == Some(
            KEY_PGDOWN | mods_in(normalized_tokens(p)),
        ),
{
    lemma_token_words();
    reveal_strlit("space");
    lemma_key_word_parse(p, "space"@);
    reveal_strlit("left");
    lemma_key_word_parse(p, "left"@);
    reveal_strlit("right");
    lemma_key_word_parse(p, "right"@);
    reveal_strlit("up");
    lemma_key_word_parse(p, "up"@);
    reveal_strlit("down");
    lemma_key_word_parse(p, "down"@);
    reveal_strlit("pgup");
    lemma_key_word_parse(p, "pgup"@);
    reveal_strlit("pageup");
    lemma_key_word_parse(p, "pageup"@);
    reveal_strlit("page up");
    lemma_key_word_parse(p, "page up"@);
    reveal_strlit("pgdown");
    lemma_key_word_parse(p, "pgdown"@);
    reveal_strlit("pagedown");
    lemma_key_word_parse(p, "pagedown"@);
    reveal_strlit("page down");
    lemma_key_word_parse(p, "page down"@);
}

/// A key sequence ending in one lower-case word without spaces around it
/// reads as the parts before it and then that word.
proof fn lemma_key_word_parse(p: Seq<Seq<char>>, w: Seq<char>)
    requires
        no_plus(p),
        forall|k: int| 0 <= k < w.len() ==> 'a' <= #[trigger] w[k] <= 'z' || w[k] == ' ',
        w.len() > 0,
        w[0] != ' ',
        w.last() != ' ',
    ensures
        token_key(w) is Some && token_mods(w) == 0i32 ==> parse_key_sequence(
            join_with(p.push(w), seq!['+']),
        ) == Some(token_key(w)->0 | mods_in(normalized_tokens(p))),
{
    let t = p.push(w);
    assert forall|i: int, k: int| 0 <= i < t.len() && 0 <= k < t[i].len() implies #[trigger] t[i][k]
        != '+' by {
        if i < p.len() {
            assert(t[i] == p[i]);
        }
    }
    lemma_joined_tokens_value(t);
    lemma_trimmed_unchanged(w);
    assert(ascii_lowercase(w) =~= w);
    let n = normalized_tokens(p);
    assert(normalized_tokens(t) =~= n.push(w));
    assert(n.push(w).drop_last() =~= n);
    let m = mods_in(n);
    assert(m | 0i32 == m) by (bit_vector);
}

/// Token lists that read alike token by token read alike.
proof fn lemma_same_reading(n1: Seq<Seq<char>>, n2: Seq<Seq<char>>)
    requires
        n1.len() == n2.len(),
        forall|i: int|
            0 <= i < n1.len() ==> token_mods(#[trigger] n1[i]) == token_mods(n2[i]) && token_key(
                n1[i],
            ) == token_key(n2[i]),
    ensures
        mods_in(n1) == mods_in(n2),
        key_in(n1) == key_in(n2),
    decreases n1.len(),
{
    if n1.len() > 0 {
        let a = n1.drop_last();
        let b = n2.drop_last();
        assert forall|i: int| 0 <= i < a.len() implies token_mods(#[trigger] a[i]) == token_mods(b[i])
            && token_key(a[i]) == token_key(b[i]) by {
            assert(a[i] == n1[i] && b[i] == n2[i]);
        }
        lemma_same_reading(a, b);
        assert(token_mods(n1[n1.len() - 1]) == token_mods(n2[n2.len() - 1]));
    }
}

/// Two spellings that read alike can stand for one another anywhere in a key
/// sequence.
proof fn lemma_spelling_substitution(p: Seq<Seq<char>>, q: Seq<Seq<char>>, a: Seq<char>, b: Seq<char>)
    requires
        no_plus(p),
        no_plus(q),
        forall|k: int| 0 <= k < a.len() ==> a[k] != '+',
        forall|k: int| 0 <= k < b.len() ==> b[k] != '+',
        token_mods(normalized_token(a)) == token_mods(normalized_token(b)),
        token_key(normalized_token(a)) == token_key(normalized_token(b)),
    ensures
        parse_key_sequence(join_with(p + seq![a] + q, seq!['+'])) == parse_key_sequence(
            join_with(p + seq![b] + q, seq!['+']),
        ),
{
    let t1 = p + seq![a] + q;
    let t2 = p + seq![b] + q;
    let m = p.len() as int;
    assert forall|i: int, k: int| 0 <= i < t1.len() && 0 <= k < t1[i].len() implies #[trigger] t1[i][k]
        != '+' by {
        if i < m {
            assert(t1[i] == p[i]);
        } else if i > m {
            assert(t1[i] == q[i - m - 1]);
        }
    }
    assert forall|i: int, k: int| 0 <= i < t2.len() && 0 <= k < t2[i].len() implies #[trigger] t2[i][k]
        != '+' by {
        if i < m {
            assert(t2[i] == p[i]);
        } else if i > m {
            assert(t2[i] == q[i - m - 1]);
        }
    }
    lemma_joined_tokens_value(t1);
    lemma_joined_tokens_value(t2);
    let n1 = normalized_tokens(t1);
    let n2 = normalized_tokens(t2);
    assert forall|i: int| 0 <= i < n1.len() implies token_mods(#[trigger] n1[i]) == token_mods(n2[i])
        && token_key(n1[i]) == token_key(n2[i]) by {
        if i != m {
            if i < m {
                assert(t1[i] == p[i] && t2[i] == p[i]);
            } else {
                assert(t1[i] == q[i - m - 1] && t2[i] == q[i - m - 1]);
            }
        }
    }
    lemma_same_reading(n1, n2);
}

/// Law: the spellings of one key or modifier are interchangeable anywhere in
/// a key sequence: `pageup` and `page up` read as `pgup`, `pagedown` and
/// `page down` as `pgdown`, `super` as `meta`, and `control` as `ctrl`.
#[verifier::rlimit(60)]
pub proof fn lemma_key_spellings(p: Seq<Seq<char>>, q: Seq<Seq<char>>)
    requires
        no_plus(p),
        no_plus(q),
    ensures
        parse_key_sequence(join_with(p + seq!["pageup"@] + q, seq!['+'])) == parse_key_sequence(
            join_with(p + seq!["pgup"@] + q, seq!['+']),
        ),
        parse_key_sequence(join_with(p + seq!["page up"@] + q, seq!['+'])) == parse_key_sequence(
            join_with(p + seq!["pgup"@] + q, seq!['+']),
        ),
        parse_key_sequence(join_with(p + seq!["pagedown"@] + q, seq!['+'])) == parse_key_sequence(
            join_with(p + seq!["pgdown"@] + q, seq!['+']),
        ),
        parse_key_sequence(join_with(p + seq!["page down"@] + q, seq!['+'])) == parse_key_sequence(
            join_with(p + seq!["pgdown"@] + q, seq!['+']),
        ),
        parse_key_sequence(join_with(p + seq!["super"@] + q, seq!['+'])) == parse_key_sequence(
            join_with(p + seq!["meta"@] + q, seq!['+']),
        ),
        parse_key_sequence(join_with(p + seq!["control"@] + q, seq!['+'])) == parse_key_sequence(
            join_with(p + seq!["ctrl"@] + q, seq!['+']),
        ),
{
    assert(parse_key_sequence(join_with(p + seq!["pageup"@] + q, seq!['+'])) == parse_key_sequence(
        join_with(p + seq!["pgup"@] + q, seq!['+']),
    )) by {
        lemma_token_words();
        reveal_strlit("pageup");
        reveal_strlit("pgup");
        lemma_trimmed_unchanged("pageup"@);
        lemma_trimmed_unchanged("pgup"@);
        assert(ascii_lowercase("pageup"@) =~= "pageup"@);
        assert(ascii_lowercase("pgup"@) =~= "pgup"@);
        lemma_spelling_substitution(p, q, "pageup"@, "pgup"@);
    }
    assert(parse_key_sequence(join_with(p + seq!["page up"@] + q, seq!['+'])) == parse_key_sequence(
        join_with(p + seq!["pgup"@] + q, seq!['+']),
    )) by {
        lemma_token_words();
        reveal_strlit("page up");
        reveal_strlit("pgup");
        lemma_trimmed_unchanged("page up"@);
        lemma_trimmed_unchanged("pgup"@);
        assert(ascii_lowercase("page up"@) =~= "page up"@);
        assert(ascii_lowercase("pgup"@) =~= "pgup"@);
        lemma_spelling_substitution(p, q, "page up"@, "pgup"@);
    }
    assert(parse_key_sequence(join_with(p + seq!["pagedown"@] + q, seq!['+'])) == parse_key_sequence(
        join_with(p + seq!["pgdown"@] + q, seq!['+']),
    )) by {
        lemma_token_words();
        reveal_strlit("pagedown");
        reveal_strlit("pgdown");
        lemma_trimmed_unchanged("pagedown"@);
        lemma_trimmed_unchanged("pgdown"@);
        assert(ascii_lowercase("pagedown"@) =~= "pagedown"@);
        assert(ascii_lowercase("pgdown"@) =~= "pgdown"@);
        lemma_spelling_substitution(p, q, "pagedown"@, "pgdown"@);
    }
    assert(parse_key_sequence(join_with(p + seq!["page down"@] + q, seq!['+'])) == parse_key_sequence(
        join_with(p + seq!["pgdown"@] + q, seq!['+']),
    )) by {
        lemma_token_words();
        reveal_strlit("page down");
        reveal_strlit("pgdown");
        lemma_trimmed_unchanged("page down"@);
        lemma_trimmed_unchanged("pgdown"@);
        assert(ascii_lowercase("page down"@) =~= "page down"@);
        assert(ascii_lowercase("pgdown"@) =~= "pgdown"@);
        lemma_spelling_substitution(p, q, "page down"@, "pgdown"@);
    }
    assert(parse_key_sequence(join_with(p + seq!["super"@] + q, seq!['+'])) == parse_key_sequence(
        join_with(p + seq!["meta"@] + q, seq!['+']),
    )) by {
        lemma_token_words();
        reveal_strlit("super");
        reveal_strlit("meta");
        lemma_trimmed_unchanged("super"@);
        lemma_trimmed_unchanged("meta"@);
        assert(ascii_lowercase("super"@) =~= "super"@);
        assert(ascii_lowercase("meta"@) =~= "meta"@);
        lemma_spelling_substitution(p, q, "super"@, "meta"@);
    }
    assert(parse_key_sequence(join_with(p + seq!["control"@] + q, seq!['+'])) == parse_key_sequence(
        join_with(p + seq!["ctrl"@] + q, seq!['+']),
    )) by {
        lemma_token_words();
        reveal_strlit("control");
        reveal_strlit("ctrl");
        lemma_trimmed_unchanged("control"@);
        lemma_trimmed_unchanged("ctrl"@);
        assert(ascii_lowercase("control"@) =~= "control"@);
        assert(ascii_lowercase("ctrl"@) =~= "ctrl"@);
        lemma_spelling_substitution(p, q, "control"@, "ctrl"@);
    }
}

} // verus!
