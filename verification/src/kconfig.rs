//! Reading and editing Plasma's KConfig files as text: lines, `[group]`
//! headers, `key=value` entries, the comma-separated item lists of the system
//! tray, and the shell quoting used by the CLI wrapper script.
use vstd::prelude::*;
use crate::config::strings_view;
use crate::text::{
    chars_eq, chars_of, join_chars, join_with, lemma_split_join, split_chars, split_on, string_of,
    trim_chars, trimmed,
};

verus! {

// ---------------------------------------------------------------------------
// Lines
// ---------------------------------------------------------------------------

/// A line without the `\r` of a `\r\n` ending.
pub open spec fn strip_cr(l: Seq<char>) -> Seq<char> {
    if l.len() > 0 && l.last() == '\r' {
        l.drop_last()
    } else {
        l
    }
}

/// The pieces between `\n`s, without a final empty piece, each without a
/// trailing `\r`. This is `str::lines`, except that a `\r` ending a last line
/// that has no `\n` after it is dropped too.
pub open spec fn lines_of(s: Seq<char>) -> Seq<Seq<char>> {
    let parts = split_on(s, '\n');
    let kept = if parts.last().len() == 0 {
        parts.drop_last()
    } else {
        parts
    };
    kept.map_values(|l: Seq<char>| strip_cr(l))
}

/// The lines of a config file, each trimmed.
pub open spec fn config_lines(s: Seq<char>) -> Seq<Seq<char>> {
    lines_of(s).map_values(|l: Seq<char>| trimmed(l))
}

/// The lines of `content`, as `lines_of` describes them.
pub fn text_lines(content: &str) -> (r: Vec<Vec<char>>)
    ensures
        r@.map_values(|v: Vec<char>| v@) == lines_of(content@),
{
    let all = chars_of(content);
    let parts = split_chars(all.as_slice(), '\n');
    let ghost pv = parts@.map_values(|v: Vec<char>| v@);
    proof {
        crate::text::lemma_split_on_nonempty(content@, '\n');
    }
    let n: usize = if parts[parts.len() - 1].len() == 0 {
        parts.len() - 1
    } else {
        parts.len()
    };
    let ghost kept = if pv.last().len() == 0 {
        pv.drop_last()
    } else {
        pv
    };
    assert(kept =~= pv.subrange(0, n as int));
    let mut out: Vec<Vec<char>> = Vec::new();
    let mut i: usize = 0;
    while i < n
        invariant
            0 <= i <= n <= parts.len(),
            pv == parts@.map_values(|v: Vec<char>| v@),
            kept == pv.subrange(0, n as int),
            out@.map_values(|v: Vec<char>| v@) == kept.subrange(0, i as int).map_values(
                |l: Seq<char>| strip_cr(l),
            ),
        decreases n - i,
    {
        let line = parts[i].as_slice();
        let end = if line.len() > 0 && line[line.len() - 1] == '\r' {
            line.len() - 1
        } else {
            line.len()
        };
        let stripped = slice_chars(line, 0, end);
        assert(stripped@ =~= strip_cr(pv[i as int]));
        let ghost before = out@.map_values(|v: Vec<char>| v@);
        out.push(stripped);
        assert(out@.map_values(|v: Vec<char>| v@) =~= before.push(strip_cr(pv[i as int])));
        assert(kept.subrange(0, i + 1).map_values(|l: Seq<char>| strip_cr(l)) =~= kept.subrange(
            0,
            i as int,
        ).map_values(|l: Seq<char>| strip_cr(l)).push(strip_cr(pv[i as int])));
        i += 1;
    }
    assert(kept.subrange(0, n as int) =~= kept);
    out
}

/// The trimmed lines of `content`.
pub fn trimmed_lines(content: &str) -> (r: Vec<Vec<char>>)
    ensures
        r@.map_values(|v: Vec<char>| v@) == config_lines(content@),
{
    let lines = text_lines(content);
    let ghost lv = lines@.map_values(|v: Vec<char>| v@);
    let mut out: Vec<Vec<char>> = Vec::new();
    let mut i: usize = 0;
    while i < lines.len()
        invariant
            0 <= i <= lines.len(),
            lv == lines@.map_values(|v: Vec<char>| v@),
            lv == lines_of(content@),
            out@.map_values(|v: Vec<char>| v@) == lv.subrange(0, i as int).map_values(
                |l: Seq<char>| trimmed(l),
            ),
        decreases lines.len() - i,
    {
        let t = trim_chars(lines[i].as_slice());
        let ghost before = out@.map_values(|v: Vec<char>| v@);
        out.push(t);
        assert(out@.map_values(|v: Vec<char>| v@) =~= before.push(trimmed(lv[i as int])));
        assert(lv.subrange(0, i + 1).map_values(|l: Seq<char>| trimmed(l)) =~= lv.subrange(
            0,
            i as int,
        ).map_values(|l: Seq<char>| trimmed(l)).push(trimmed(lv[i as int])));
        i += 1;
    }
    assert(lv.subrange(0, lines.len() as int) =~= lv);
    out
}

// ---------------------------------------------------------------------------
// Group headers
// ---------------------------------------------------------------------------

/// `[name]` is a group header naming `name`.
pub open spec fn is_header(l: Seq<char>) -> bool {
    l.len() >= 2 && l[0] == '[' && l.last() == ']'
}

pub open spec fn header_name(l: Seq<char>) -> Seq<char> {
    l.subrange(1, l.len() - 1)
}

fn header_of(l: &[char]) -> (r: Option<Vec<char>>)
    ensures
        match r {
            Some(v) => is_header(l@) && v@ == header_name(l@),
            None => !is_header(l@),
        },
{
    if l.len() >= 2 && l[0] == '[' && l[l.len() - 1] == ']' {
        let mut v: Vec<char> = Vec::new();
        let mut k: usize = 1;
        while k + 1 < l.len()
            invariant
                1 <= k < l.len(),
                v@ == l@.subrange(1, k as int),
            decreases l.len() - k,
        {
            v.push(l[k]);
            k += 1;
        }
        Some(v)
    } else {
        None
    }
}

/// `s.split("][")`: the pieces between the `][` that separate the names of
/// nested groups, read left to right.
pub open spec fn split_group_path(s: Seq<char>) -> Seq<Seq<char>>
    decreases s.len(),
{
    if s.len() == 0 {
        seq![Seq::<char>::empty()]
    } else if s.len() >= 2 && s[0] == ']' && s[1] == '[' {
        seq![Seq::<char>::empty()] + split_group_path(s.subrange(2, s.len() as int))
    } else {
        let rest = split_group_path(s.drop_first());
        rest.update(0, seq![s[0]] + rest[0])
    }
}

proof fn lemma_split_group_path_nonempty(s: Seq<char>)
    ensures
        split_group_path(s).len() >= 1,
    decreases s.len(),
{
    if s.len() >= 2 && s[0] == ']' && s[1] == '[' {
        lemma_split_group_path_nonempty(s.subrange(2, s.len() as int));
    } else if s.len() > 0 {
        lemma_split_group_path_nonempty(s.drop_first());
    }
}

/// `parts` with `cur` in front of its first piece.
pub open spec fn prefix_first(cur: Seq<char>, parts: Seq<Seq<char>>) -> Seq<Seq<char>> {
    parts.update(0, cur + parts[0])
}

/// Splits the path of a nested group, written `a][b][c`, into its names.
pub fn split_kconfig_group(group: &str) -> (r: Vec<String>)
    ensures
        strings_view(r@) == split_group_path(group@),
{
    let s = chars_of(group);
    let mut done: Vec<String> = Vec::new();
    let mut cur: Vec<char> = Vec::new();
    let mut i: usize = 0;
    proof {
        lemma_split_group_path_nonempty(s@);
        assert(s@.subrange(0, s@.len() as int) =~= s@);
        assert(prefix_first(Seq::<char>::empty(), split_group_path(s@)) =~= split_group_path(s@));
    }
    while i < s.len()
        invariant
            0 <= i <= s.len(),
            split_group_path(s@) == strings_view(done@) + prefix_first(
                cur@,
                split_group_path(s@.subrange(i as int, s.len() as int)),
            ),
        decreases s.len() - i,
    {
        let ghost rest = s@.subrange(i as int, s.len() as int);
        if i + 1 < s.len() && s[i] == ']' && s[i + 1] == '[' {
            let ghost after = s@.subrange(i + 2, s.len() as int);
            assert(rest.subrange(2, rest.len() as int) =~= after);
            proof {
                lemma_split_group_path_nonempty(after);
            }
            let ghost before = strings_view(done@);
            let piece = string_of(cur.as_slice());
            done.push(piece);
            cur = Vec::new();
            assert(strings_view(done@) =~= before.push(piece@));
            assert(prefix_first(Seq::<char>::empty(), split_group_path(after)) =~= split_group_path(
                after,
            ));
            assert(before + prefix_first(piece@, split_group_path(rest)) =~= before.push(piece@)
                + split_group_path(after));
            i += 2;
        } else {
            let c = s[i];
            let ghost after = s@.subrange(i + 1, s.len() as int);
            assert(rest.drop_first() =~= after);
            proof {
                lemma_split_group_path_nonempty(after);
            }
            let ghost old_cur = cur@;
            assert(rest[0] == c);
            assert(rest.len() >= 2 ==> rest[1] == s@[i + 1]);
            let ghost r = split_group_path(after);
            assert(split_group_path(rest) == r.update(0, seq![c] + r[0]));
            cur.push(c);
            assert(old_cur + (seq![c] + r[0]) =~= cur@ + r[0]);
            assert(prefix_first(old_cur, split_group_path(rest)) =~= prefix_first(
                cur@,
                split_group_path(after),
            ));
            i += 1;
        }
    }
    let ghost before = strings_view(done@);
    assert(s@.subrange(i as int, s.len() as int) =~= Seq::<char>::empty());
    let piece = string_of(cur.as_slice());
    done.push(piece);
    assert(strings_view(done@) =~= before.push(piece@));
    assert(prefix_first(cur@, seq![Seq::<char>::empty()]) =~= seq![piece@]);
    done
}

/// The group paths of every system tray applet in `lines`: the group header
/// in force when a line reads `plugin=org.kde.plasma.systemtray`, split into
/// its names, with `General` added. Also the header in force after `lines`.
pub open spec fn tray_scan(lines: Seq<Seq<char>>) -> (Seq<char>, Seq<Seq<Seq<char>>>)
    decreases lines.len(),
{
    if lines.len() == 0 {
        (Seq::<char>::empty(), Seq::<Seq<Seq<char>>>::empty())
    } else {
        let prev = tray_scan(lines.drop_last());
        let l = lines.last();
        if is_header(l) {
            (header_name(l), prev.1)
        } else if l == "plugin=org.kde.plasma.systemtray"@ {
            (prev.0, prev.1.push(split_group_path(prev.0).push("General"@)))
        } else {
            prev
        }
    }
}

/// The `General` groups of the system tray applets configured in `content`.
pub open spec fn tray_general_groups(content: Seq<char>) -> Seq<Seq<Seq<char>>> {
    tray_scan(config_lines(content)).1
}

pub open spec fn groups_view(v: Seq<Vec<String>>) -> Seq<Seq<Seq<char>>> {
    v.map_values(|g: Vec<String>| strings_view(g@))
}

/// The `General` groups of every system tray applet in the Plasma applets
/// config `content`, each as its path of group names.
pub fn system_tray_general_groups(content: &str) -> (r: Vec<Vec<String>>)
    ensures
        groups_view(r@) == tray_general_groups(content@),
{
    let lines = trimmed_lines(content);
    let ghost lv = lines@.map_values(|v: Vec<char>| v@);
    let marker = chars_of("plugin=org.kde.plasma.systemtray");
    let mut current: Vec<char> = Vec::new();
    let mut groups: Vec<Vec<String>> = Vec::new();
    let mut i: usize = 0;
    while i < lines.len()
        invariant
            0 <= i <= lines.len(),
            lv == lines@.map_values(|v: Vec<char>| v@),
            marker@ == "plugin=org.kde.plasma.systemtray"@,
            (current@, groups_view(groups@)) == tray_scan(lv.subrange(0, i as int)),
        decreases lines.len() - i,
    {
        assert(lv.subrange(0, i + 1).drop_last() =~= lv.subrange(0, i as int));
        assert(lv.subrange(0, i + 1).last() == lines[i as int]@);
        match header_of(lines[i].as_slice()) {
            Some(name) => {
                current = name;
            },
            None => {
                if chars_eq(lines[i].as_slice(), marker.as_slice()) {
                    let path = string_of(current.as_slice());
                    let mut group = split_kconfig_group(path.as_str());
                    let ghost names = strings_view(group@);
                    group.push("General".to_owned());
                    assert(strings_view(group@) =~= names.push("General"@));
                    let ghost before = groups_view(groups@);
                    groups.push(group);
                    assert(groups_view(groups@) =~= before.push(
                        split_group_path(current@).push("General"@),
                    ));
                }
            },
        }
        i += 1;
    }
    assert(lv.subrange(0, lines.len() as int) =~= lv);
    groups
}

// ---------------------------------------------------------------------------
// Values
// ---------------------------------------------------------------------------

/// The index of the first `c` in `s`.
pub open spec fn first_index(s: Seq<char>, c: char) -> Option<int>
    decreases s.len(),
{
    if s.len() == 0 {
        None
    } else if s[0] == c {
        Some(0)
    } else {
        match first_index(s.drop_first(), c) {
            Some(i) => Some(i + 1),
            None => None,
        }
    }
}

proof fn lemma_first_index(s: Seq<char>, c: char, i: int)
    requires
        0 <= i <= s.len(),
        forall|k: int| 0 <= k < i ==> s[k] != c,
        i == s.len() || s[i] == c,
    ensures
        first_index(s, c) == (if i == s.len() {
            None::<int>
        } else {
            Some(i)
        }),
    decreases i,
{
    if i > 0 {
        let t = s.drop_first();
        assert forall|k: int| 0 <= k < i - 1 implies t[k] != c by {
            assert(t[k] == s[k + 1]);
        }
        lemma_first_index(t, c, i - 1);
    }
}

/// The value of `key` in the first `key=value` line of the wanted group, read
/// from `lines` with `in_group` telling whether the wanted group is open.
pub open spec fn value_scan(lines: Seq<Seq<char>>, wanted: Seq<char>, key: Seq<char>, in_group: bool) -> Option<Seq<char>>
    decreases lines.len(),
{
    if lines.len() == 0 {
        None
    } else {
        let l = lines[0];
        let rest = lines.drop_first();
        if is_header(l) {
            value_scan(rest, wanted, key, header_name(l) == wanted)
        } else if in_group && first_index(l, '=') is Some && l.subrange(
            0,
            first_index(l, '=')->0,
        ) == key {
            Some(l.subrange(first_index(l, '=')->0 + 1, l.len() as int))
        } else {
            value_scan(rest, wanted, key, in_group)
        }
    }
}

/// The value of `key` in the group with path `group` of the config text
/// `content`: the text after the first `=` of the first line of that group
/// whose text before the `=` is `key`.
pub open spec fn config_value(content: Seq<char>, group: Seq<Seq<char>>, key: Seq<char>) -> Option<Seq<char>> {
    value_scan(config_lines(content), join_with(group, "]["@), key, false)
}

/// The first `=` of `l`, if any.
fn find_eq(l: &[char]) -> (r: Option<usize>)
    ensures
        match r {
            Some(p) => first_index(l@, '=') == Some(p as int) && p < l.len(),
            None => first_index(l@, '=') is None,
        },
{
    let mut k: usize = 0;
    while k < l.len()
        invariant
            0 <= k <= l.len(),
            forall|j: int| 0 <= j < k ==> l@[j] != '=',
        decreases l.len() - k,
    {
        if l[k] == '=' {
            proof {
                lemma_first_index(l@, '=', k as int);
            }
            return Some(k);
        }
        k += 1;
    }
    proof {
        lemma_first_index(l@, '=', k as int);
    }
    None
}

fn slice_chars(l: &[char], from: usize, to: usize) -> (r: Vec<char>)
    requires
        from <= to <= l.len(),
    ensures
        r@ == l@.subrange(from as int, to as int),
{
    let mut v: Vec<char> = Vec::new();
    let mut k = from;
    while k < to
        invariant
            from <= k <= to <= l.len(),
            v@ == l@.subrange(from as int, k as int),
        decreases to - k,
    {
        v.push(l[k]);
        k += 1;
    }
    v
}

/// The names of `group` joined by `][`, as the header of that group spells it.
fn group_header_text(group: &[String]) -> (r: Vec<char>)
    ensures
        r@ == join_with(strings_view(group@), "]["@),
{
    let mut parts: Vec<Vec<char>> = Vec::new();
    let mut i: usize = 0;
    while i < group.len()
        invariant
            0 <= i <= group.len(),
            parts@.map_values(|v: Vec<char>| v@) == strings_view(group@).subrange(0, i as int),
        decreases group.len() - i,
    {
        let ghost before = parts@.map_values(|v: Vec<char>| v@);
        parts.push(chars_of(group[i].as_str()));
        assert(parts@.map_values(|v: Vec<char>| v@) =~= before.push(group@[i as int]@));
        assert(strings_view(group@).subrange(0, i + 1) =~= strings_view(group@).subrange(
            0,
            i as int,
        ).push(group@[i as int]@));
        i += 1;
    }
    assert(strings_view(group@).subrange(0, group.len() as int) =~= strings_view(group@));
    let sep = chars_of("][");
    join_chars(&parts, sep.as_slice())
}

/// The value of `key` in the group with path `group` of the config text
/// `content`, if the group sets it.
pub fn kconfig_value(content: &str, group: &[String], key: &str) -> (r: Option<String>)
    ensures
        match r {
            Some(v) => config_value(content@, strings_view(group@), key@) == Some(v@),
            None => config_value(content@, strings_view(group@), key@) is None,
        },
{
    let wanted = group_header_text(group);
    let key_chars = chars_of(key);
    let lines = trimmed_lines(content);
    let ghost lv = lines@.map_values(|v: Vec<char>| v@);
    let mut in_group = false;
    let mut i: usize = 0;
    assert(lv.subrange(0, lv.len() as int) =~= lv);
    while i < lines.len()
        invariant
            0 <= i <= lines.len(),
            lv == lines@.map_values(|v: Vec<char>| v@),
            config_value(content@, strings_view(group@), key@) == value_scan(
                lv.subrange(i as int, lv.len() as int),
                wanted@,
                key_chars@,
                in_group,
            ),
            wanted@ == join_with(strings_view(group@), "]["@),
            key_chars@ == key@,
        decreases lines.len() - i,
    {
        let ghost rest = lv.subrange(i as int, lv.len() as int);
        assert(rest[0] == lines[i as int]@);
        assert(rest.drop_first() =~= lv.subrange(i + 1, lv.len() as int));
        let line = lines[i].as_slice();
        match header_of(line) {
            Some(name) => {
                in_group = chars_eq(name.as_slice(), wanted.as_slice());
            },
            None => {
                if in_group {
                    match find_eq(line) {
                        Some(p) => {
                            let k = slice_chars(line, 0, p);
                            if chars_eq(k.as_slice(), key_chars.as_slice()) {
                                let v = slice_chars(line, p + 1, line.len());
                                return Some(string_of(v.as_slice()));
                            }
                        },
                        None => {},
                    }
                }
            },
        }
        i += 1;
    }
    None
}

// ---------------------------------------------------------------------------
// Comma-separated item lists
// ---------------------------------------------------------------------------

/// The items of a comma-separated list: each piece trimmed, blank pieces left
/// out, in order.
pub open spec fn csv_items(parts: Seq<Seq<char>>) -> Seq<Seq<char>>
    decreases parts.len(),
{
    if parts.len() == 0 {
        Seq::<Seq<char>>::empty()
    } else {
        let prev = csv_items(parts.drop_last());
        let t = trimmed(parts.last());
        if t.len() > 0 {
            prev.push(t)
        } else {
            prev
        }
    }
}

/// The items of the list `value`.
pub open spec fn list_items(value: Seq<char>) -> Seq<Seq<char>> {
    csv_items(split_on(value, ','))
}

/// The list `value` with `item` added at the end unless it is already there,
/// written back with `,` between items and without blank items or spaces
/// around them.
pub open spec fn appended_csv(value: Seq<char>, item: Seq<char>) -> Seq<char> {
    let items = list_items(value);
    let all = if items.contains(item) {
        items
    } else {
        items.push(item)
    };
    join_with(all, seq![','])
}

/// Adds `item` to the comma-separated list `value` unless it is already
/// listed; blank entries and the spaces around entries are dropped.
pub fn append_csv_item(value: &str, item: &str) -> (r: String)
    ensures
        r@ == appended_csv(value@, item@),
{
    let v = chars_of(value);
    let parts = split_chars(v.as_slice(), ',');
    let ghost pv = parts@.map_values(|x: Vec<char>| x@);
    let mut items: Vec<Vec<char>> = Vec::new();
    let mut i: usize = 0;
    while i < parts.len()
        invariant
            0 <= i <= parts.len(),
            pv == parts@.map_values(|x: Vec<char>| x@),
            items@.map_values(|x: Vec<char>| x@) == csv_items(pv.subrange(0, i as int)),
        decreases parts.len() - i,
    {
        assert(pv.subrange(0, i + 1).drop_last() =~= pv.subrange(0, i as int));
        assert(pv.subrange(0, i + 1).last() == parts[i as int]@);
        let t = trim_chars(parts[i].as_slice());
        if t.len() > 0 {
            let ghost before = items@.map_values(|x: Vec<char>| x@);
            items.push(t);
            assert(items@.map_values(|x: Vec<char>| x@) =~= before.push(t@));
        }
        i += 1;
    }
    assert(pv.subrange(0, parts.len() as int) =~= pv);
    let ghost iv = items@.map_values(|x: Vec<char>| x@);
    let it = chars_of(item);
    let mut found = false;
    let mut j: usize = 0;
    while j < items.len()
        invariant
            0 <= j <= items.len(),
            iv == items@.map_values(|x: Vec<char>| x@),
            found == (exists|q: int| 0 <= q < j && iv[q] == it@),
        decreases items.len() - j,
    {
        let same = chars_eq(items[j].as_slice(), it.as_slice());
        assert(iv[j as int] == items[j as int]@);
        if same {
            found = true;
        }
        j += 1;
    }
    assert(found == iv.contains(item@));
    if !found {
        items.push(it);
        assert(items@.map_values(|x: Vec<char>| x@) =~= iv.push(item@));
    }
    let sep = vec![','];
    assert(sep@ =~= seq![',']);
    let joined = join_chars(&items, sep.as_slice());
    string_of(joined.as_slice())
}

proof fn lemma_csv_items_props(parts: Seq<Seq<char>>)
    requires
        forall|i: int, k: int| 0 <= i < parts.len() && 0 <= k < parts[i].len() ==> #[trigger] parts[i][k] != ',',
    ensures
        forall|i: int|
            0 <= i < csv_items(parts).len() ==> (#[trigger] csv_items(parts)[i]).len() > 0
                && trimmed(csv_items(parts)[i]) == csv_items(parts)[i],
        forall|i: int, k: int|
            0 <= i < csv_items(parts).len() && 0 <= k < csv_items(parts)[i].len() ==> #[trigger] csv_items(
                parts,
            )[i][k] != ',',
    decreases parts.len(),
{
    if parts.len() > 0 {
        let init = parts.drop_last();
        assert forall|i: int, k: int| 0 <= i < init.len() && 0 <= k < init[i].len() implies #[trigger] init[i][k] != ',' by {
            assert(init[i] == parts[i]);
        }
        lemma_csv_items_props(init);
        let prev = csv_items(init);
        let last = parts.last();
        let t = trimmed(last);
        crate::text::lemma_trimmed_idempotent(last);
        crate::text::lemma_trimmed_shape(last);
        let cur = csv_items(parts);
        assert forall|i: int, k: int| 0 <= i < cur.len() && 0 <= k < cur[i].len() implies #[trigger] cur[i][k] != ',' by {
            if i < prev.len() {
                assert(cur[i] == prev[i]);
            } else {
                assert(cur[i] == t);
                let j = choose|j: int| 0 <= j < last.len() && last[j] == #[trigger] t[k];
                assert(parts[parts.len() - 1][j] != ',');
            }
        }
        assert forall|i: int| 0 <= i < cur.len() implies (#[trigger] cur[i]).len() > 0 && trimmed(cur[i]) == cur[i] by {
            if i < prev.len() {
                assert(cur[i] == prev[i]);
            }
        }
    }
}

proof fn lemma_csv_items_fixed(parts: Seq<Seq<char>>)
    requires
        forall|i: int| 0 <= i < parts.len() ==> (#[trigger] parts[i]).len() > 0 && trimmed(parts[i]) == parts[i],
    ensures
        csv_items(parts) == parts,
    decreases parts.len(),
{
    if parts.len() > 0 {
        let init = parts.drop_last();
        assert forall|i: int| 0 <= i < init.len() implies (#[trigger] init[i]).len() > 0 && trimmed(init[i]) == init[i] by {
            assert(init[i] == parts[i]);
        }
        lemma_csv_items_fixed(init);
        assert(trimmed(parts[parts.len() - 1]) == parts.last());
        assert(init.push(parts.last()) =~= parts);
    }
}

/// Law: after adding an item, the list holds it, and adding it again changes
/// nothing. The item must be a list item as it would be read back: not blank,
/// without spaces around it and without a comma.
pub proof fn lemma_append_csv_idempotent(value: Seq<char>, item: Seq<char>)
    requires
        item.len() > 0,
        trimmed(item) == item,
        forall|k: int| 0 <= k < item.len() ==> item[k] != ',',
    ensures
        list_items(appended_csv(value, item)).contains(item),
        appended_csv(appended_csv(value, item), item) == appended_csv(value, item),
{
    let parts = split_on(value, ',');
    crate::text::lemma_split_on_no_sep(value, ',');
    lemma_csv_items_props(parts);
    let items = csv_items(parts);
    let all = if items.contains(item) {
        items
    } else {
        items.push(item)
    };
    assert(all.contains(item)) by {
        if !items.contains(item) {
            assert(all[items.len() as int] == item);
        }
    }
    assert forall|i: int, k: int| 0 <= i < all.len() && 0 <= k < all[i].len() implies #[trigger] all[i][k] != ',' by {
        if i < items.len() {
            assert(all[i] == items[i]);
        }
    }
    assert forall|i: int| 0 <= i < all.len() implies (#[trigger] all[i]).len() > 0 && trimmed(all[i]) == all[i] by {
        if i < items.len() {
            assert(all[i] == items[i]);
        }
    }
    lemma_split_join(all, ',');
    lemma_csv_items_fixed(all);
    assert(list_items(appended_csv(value, item)) == all);
}

// ---------------------------------------------------------------------------
// Writing the tray's item lists
// ---------------------------------------------------------------------------

/// The write that adds `item` to the list `key` of `group`, if it changes the
/// list: the current value (empty when unset) with the item appended.
pub open spec fn key_update(content: Seq<char>, item: Seq<char>, group: Seq<Seq<char>>, key: Seq<char>) -> Seq<(Seq<Seq<char>>, Seq<char>, Seq<char>)> {
    let current = match config_value(content, group, key) {
        Some(v) => v,
        None => Seq::<char>::empty(),
    };
    let updated = appended_csv(current, item);
    if updated != current {
        seq![(group, key, updated)]
    } else {
        Seq::empty()
    }
}

/// The writes for each of `groups`, for `extraItems` then `knownItems`.
pub open spec fn updates_for(content: Seq<char>, item: Seq<char>, groups: Seq<Seq<Seq<char>>>) -> Seq<(Seq<Seq<char>>, Seq<char>, Seq<char>)>
    decreases groups.len(),
{
    if groups.len() == 0 {
        Seq::empty()
    } else {
        updates_for(content, item, groups.drop_last()) + key_update(
            content,
            item,
            groups.last(),
            "extraItems"@,
        ) + key_update(content, item, groups.last(), "knownItems"@)
    }
}

/// The writes that list `item` among the extra and known items of every
/// system tray configured in `content`.
pub open spec fn tray_updates(content: Seq<char>, item: Seq<char>) -> Seq<(Seq<Seq<char>>, Seq<char>, Seq<char>)> {
    updates_for(content, item, tray_general_groups(content))
}

pub open spec fn writes_view(v: Seq<(Vec<String>, String, String)>) -> Seq<(Seq<Seq<char>>, Seq<char>, Seq<char>)> {
    v.map_values(|w: (Vec<String>, String, String)| (strings_view(w.0@), w.1@, w.2@))
}

fn push_key_update(
    writes: &mut Vec<(Vec<String>, String, String)>,
    content: &str,
    item: &str,
    group: &Vec<String>,
    key: &str,
)
    ensures
        writes_view(final(writes)@) == writes_view(old(writes)@) + key_update(
            content@,
            item@,
            strings_view(group@),
            key@,
        ),
{
    let current = match kconfig_value(content, group.as_slice(), key) {
        Some(v) => v,
        None => String::new(),
    };
    let updated = append_csv_item(current.as_str(), item);
    let ghost before = writes_view(writes@);
    if !crate::text::str_eq(updated.as_str(), current.as_str()) {
        writes.push((group.clone(), key.to_owned(), updated));
        assert(writes_view(writes@) =~= before + key_update(
            content@,
            item@,
            strings_view(group@),
            key@,
        ));
    } else {
        assert(writes_view(writes@) =~= before + key_update(
            content@,
            item@,
            strings_view(group@),
            key@,
        ));
    }
}

/// The `(group, key, value)` writes that add `item` to the extra and known
/// items of every system tray configured in `content`; lists that already
/// hold it are not written.
pub fn tray_config_updates(content: &str, item: &str) -> (r: Vec<(Vec<String>, String, String)>)
    ensures
        writes_view(r@) == tray_updates(content@, item@),
{
    let groups = system_tray_general_groups(content);
    let ghost gv = groups_view(groups@);
    let mut writes: Vec<(Vec<String>, String, String)> = Vec::new();
    let mut i: usize = 0;
    while i < groups.len()
        invariant
            0 <= i <= groups.len(),
            gv == groups_view(groups@),
            writes_view(writes@) == updates_for(content@, item@, gv.subrange(0, i as int)),
        decreases groups.len() - i,
    {
        assert(gv.subrange(0, i + 1).drop_last() =~= gv.subrange(0, i as int));
        assert(gv.subrange(0, i + 1).last() == strings_view(groups[i as int]@));
        push_key_update(&mut writes, content, item, &groups[i], "extraItems");
        push_key_update(&mut writes, content, item, &groups[i], "knownItems");
        i += 1;
    }
    assert(gv.subrange(0, groups.len() as int) =~= gv);
    writes
}

/// The arguments of `kwriteconfig6` that set `key` to `value` in the group
/// with path `group` of the Plasma applets config.
pub open spec fn kwriteconfig_args_spec(group: Seq<Seq<char>>, key: Seq<char>, value: Seq<char>) -> Seq<Seq<char>> {
    seq!["--file"@, "plasma-org.kde.plasma.desktop-appletsrc"@] + group_flags(group) + seq![
        "--key"@,
        key,
        value,
    ]
}

/// `--group <name>` for each name of a group path.
pub open spec fn group_flags(group: Seq<Seq<char>>) -> Seq<Seq<char>>
    decreases group.len(),
{
    if group.len() == 0 {
        Seq::empty()
    } else {
        group_flags(group.drop_last()) + seq!["--group"@, group.last()]
    }
}

/// The arguments of `kwriteconfig6` that set `key` to `value` in the group
/// with path `group` of the Plasma applets config.
pub fn kwriteconfig_args(group: &[String], key: &str, value: &str) -> (r: Vec<String>)
    ensures
        strings_view(r@) == kwriteconfig_args_spec(strings_view(group@), key@, value@),
{
    let mut args: Vec<String> = Vec::new();
    args.push("--file".to_owned());
    args.push("plasma-org.kde.plasma.desktop-appletsrc".to_owned());
    let ghost head = strings_view(args@);
    let mut i: usize = 0;
    while i < group.len()
        invariant
            0 <= i <= group.len(),
            head == seq!["--file"@, "plasma-org.kde.plasma.desktop-appletsrc"@],
            strings_view(args@) == head + group_flags(strings_view(group@).subrange(0, i as int)),
        decreases group.len() - i,
    {
        let ghost gs = strings_view(group@).subrange(0, i + 1);
        assert(gs.drop_last() =~= strings_view(group@).subrange(0, i as int));
        assert(gs.last() == group@[i as int]@);
        let ghost before = strings_view(args@);
        args.push("--group".to_owned());
        args.push(group[i].clone());
        assert(strings_view(args@) =~= before + seq!["--group"@, group@[i as int]@]);
        i += 1;
    }
    assert(strings_view(group@).subrange(0, group.len() as int) =~= strings_view(group@));
    let ghost before = strings_view(args@);
    args.push("--key".to_owned());
    args.push(key.to_owned());
    args.push(value.to_owned());
    assert(strings_view(args@) =~= before + seq!["--key"@, key@, value@]);
    args
}

// ---------------------------------------------------------------------------
// Shell quoting
// ---------------------------------------------------------------------------

/// The text between the quotes: each `'` written as `'\''`.
pub open spec fn quote_body(s: Seq<char>) -> Seq<char>
    decreases s.len(),
{
    if s.len() == 0 {
        Seq::<char>::empty()
    } else {
        quote_body(s.drop_last()) + if s.last() == '\'' {
            seq!['\'', '\\', '\'', '\'']
        } else {
            seq![s.last()]
        }
    }
}

/// `s` as one single-quoted shell word.
pub open spec fn shell_quoted(s: Seq<char>) -> Seq<char> {
    seq!['\''] + quote_body(s) + seq!['\'']
}

/// Quotes `value` as one word for `sh`: inside single quotes, with each `'`
/// closed, escaped and reopened.
pub fn shell_quote(value: &str) -> (r: String)
    ensures
        r@ == shell_quoted(value@),
{
    let s = chars_of(value);
    let mut out: Vec<char> = Vec::new();
    out.push('\'');
    let mut i: usize = 0;
    while i < s.len()
        invariant
            0 <= i <= s.len(),
            out@ == seq!['\''] + quote_body(s@.subrange(0, i as int)),
        decreases s.len() - i,
    {
        let ghost before = out@;
        let c = s[i];
        if c == '\'' {
            out.push('\'');
            out.push('\\');
            out.push('\'');
            out.push('\'');
        } else {
            out.push(c);
        }
        assert(s@.subrange(0, i + 1).drop_last() =~= s@.subrange(0, i as int));
        assert(out@ =~= seq!['\''] + quote_body(s@.subrange(0, i + 1)));
        i += 1;
    }
    out.push('\'');
    assert(s@.subrange(0, s.len() as int) =~= s@);
    assert(out@ =~= shell_quoted(value@));
    string_of(out.as_slice())
}

/// The `export` lines of the wrapper script, one per variable.
pub open spec fn export_lines(env: Seq<(Seq<char>, Seq<char>)>) -> Seq<char>
    decreases env.len(),
{
    if env.len() == 0 {
        Seq::<char>::empty()
    } else {
        export_lines(env.drop_last()) + "export "@ + env.last().0 + seq!['='] + shell_quoted(
            env.last().1,
        ) + seq!['\n']
    }
}

/// The CLI wrapper script: exports each variable, then runs `exe` with the
/// script's arguments.
pub open spec fn wrapper_script(env: Seq<(Seq<char>, Seq<char>)>, exe: Seq<char>) -> Seq<char> {
    "#!/bin/sh\n"@ + export_lines(env) + "exec "@ + shell_quoted(exe) + " \"$@\"\n"@
}

/// The text of the `sh` script that exports the variables `env` (name and
/// value) and runs `exe` with its own arguments.
pub fn cli_wrapper_script(env: &Vec<(String, String)>, exe: &str) -> (r: String)
    ensures
        r@ == wrapper_script(crate::config::pairs_view(env@), exe@),
{
    let ghost ev = crate::config::pairs_view(env@);
    let mut out = chars_of("#!/bin/sh\n");
    let ghost head = out@;
    let mut i: usize = 0;
    while i < env.len()
        invariant
            0 <= i <= env.len(),
            ev == crate::config::pairs_view(env@),
            head == "#!/bin/sh\n"@,
            out@ == head + export_lines(ev.subrange(0, i as int)),
        decreases env.len() - i,
    {
        let ghost es = ev.subrange(0, i + 1);
        assert(es.drop_last() =~= ev.subrange(0, i as int));
        assert(es.last() == (env@[i as int].0@, env@[i as int].1@));
        let quoted = shell_quote(env[i].1.as_str());
        out = crate::text::append_str(out, "export ");
        out = crate::text::append_str(out, env[i].0.as_str());
        out.push('=');
        out = crate::text::append_str(out, quoted.as_str());
        out.push('\n');
        assert(out@ =~= head + export_lines(es));
        i += 1;
    }
    assert(ev.subrange(0, env.len() as int) =~= ev);
    let quoted = shell_quote(exe);
    out = crate::text::append_str(out, "exec ");
    out = crate::text::append_str(out, quoted.as_str());
    out = crate::text::append_str(out, " \"$@\"\n");
    assert(out@ =~= wrapper_script(ev, exe@));
    string_of(out.as_slice())
}

// ---------------------------------------------------------------------------
// Reloading the system trays
// ---------------------------------------------------------------------------

/// The Plasma shell script that adds the applet `__FANZY_PLASMOID_ID__` to the
/// extra and known items of every system tray and reloads their configuration.
pub const TRAY_SCRIPT_TEMPLATE: &'static str = "
        for (const panel of panels()) {
            for (const widget of panel.widgets()) {
                if (widget.type === 'org.kde.plasma.systemtray') {
                    widget.currentConfigGroup = ['General'];
                    const extra = String(widget.readConfig('extraItems') || '').split(',').filter(Boolean);
                    const known = String(widget.readConfig('knownItems') || '').split(',').filter(Boolean);
                    if (extra.indexOf('__FANZY_PLASMOID_ID__') < 0) extra.push('__FANZY_PLASMOID_ID__');
                    if (known.indexOf('__FANZY_PLASMOID_ID__') < 0) known.push('__FANZY_PLASMOID_ID__');
                    widget.writeConfig('extraItems', extra.join(','));
                    widget.writeConfig('knownItems', known.join(','));
                    widget.reloadConfig();
                }
            }
        }
    ";

/// The placeholder in `TRAY_SCRIPT_TEMPLATE` that names the applet.
pub const PLASMOID_PLACEHOLDER: &'static str = "__FANZY_PLASMOID_ID__";

/// The Plasma shell script that adds the applet `plasmoid_id` to every system
/// tray: the template with each placeholder replaced by the id.
pub fn plasmashell_tray_script(plasmoid_id: &str) -> (r: String)
    ensures
        r@ == crate::text::replaced(TRAY_SCRIPT_TEMPLATE@, PLASMOID_PLACEHOLDER@, plasmoid_id@),
{
    let template = chars_of(TRAY_SCRIPT_TEMPLATE);
    let placeholder = chars_of(PLASMOID_PLACEHOLDER);
    let id = chars_of(plasmoid_id);
    proof {
        reveal_strlit("__FANZY_PLASMOID_ID__");
    }
    let r = crate::text::replace_chars(template.as_slice(), placeholder.as_slice(), id.as_slice());
    string_of(r.as_slice())
}

} // verus!
