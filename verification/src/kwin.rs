//! The KWin side: where the KWin script lives, the names under which it is
//! configured and loaded, and how the results of the commands that drive KWin
//! (`kpackagetool6`, `kwriteconfig6`, `busctl`, `qdbus`) are judged. The
//! commands themselves are run by the application around this library.
use vstd::prelude::*;
use crate::config::strings_view;
use crate::text::{
    chars_of, concat_chars, decimal, decimal_chars, is_white_space, parse_i32, parse_i32_chars,
    signed_decimal, signed_decimal_chars, string_of, trim_chars, trimmed,
};

verus! {

/// The `PathBuf` of std, carried through the library without looking inside.
#[verifier::external_type_specification]
#[verifier::external_body]
pub struct ExPathBuf(std::path::PathBuf);

/// The KPackage id of the FanzyZones KWin script.
pub const SCRIPT_ID: &'static str = "fanzyzones_kde";

/// Drives the FanzyZones KWin script found in `script_dir`.
#[derive(Debug)]
pub struct KwinController {
    script_dir: std::path::PathBuf,
}

impl KwinController {
    /// The directory this controller installs the script from.
    pub closed spec fn dir(&self) -> std::path::PathBuf {
        self.script_dir
    }

    pub fn new(script_dir: std::path::PathBuf) -> (c: Self)
        ensures
            c.dir() == script_dir,
    {
        KwinController { script_dir }
    }

    pub fn script_dir(&self) -> (d: &std::path::PathBuf)
        ensures
            *d == self.dir(),
    {
        &self.script_dir
    }
}

/// Of the candidate script directories, the first that exists, else the
/// first: the index to use, given whether each candidate exists.
pub fn first_existing(exists: &[bool]) -> (r: usize)
    ensures
        (exists|i: int| 0 <= i < exists.len() && exists[i]) ==> (r < exists.len() && exists[r as int]
            && forall|j: int| 0 <= j < r ==> !exists[j]),
        !(exists|i: int| 0 <= i < exists.len() && exists[i]) ==> r == 0,
{
    let mut i: usize = 0;
    while i < exists.len()
        invariant
            0 <= i <= exists.len(),
            forall|j: int| 0 <= j < i ==> !exists[j],
        decreases exists.len() - i,
    {
        if exists[i] {
            return i;
        }
        i += 1;
    }
    0
}

// ---------------------------------------------------------------------------
// Names
// ---------------------------------------------------------------------------

/// The `kwinrc` group that holds the script's configuration.
pub fn script_config_group() -> (r: String)
    ensures
        r@ == "Script-"@ + SCRIPT_ID@,
{
    let a = chars_of("Script-");
    let b = chars_of(SCRIPT_ID);
    string_of(concat_chars(a.as_slice(), b.as_slice()).as_slice())
}

/// The `kwinrc` `[Plugins]` key that enables the script.
pub fn script_enabled_key() -> (r: String)
    ensures
        r@ == SCRIPT_ID@ + "Enabled"@,
{
    let a = chars_of(SCRIPT_ID);
    let b = chars_of("Enabled");
    string_of(concat_chars(a.as_slice(), b.as_slice()).as_slice())
}

/// The id under which a one-shot script for `action` is loaded, made unique by
/// the time `millis`.
pub fn one_shot_script_id(action: &str, millis: u128) -> (r: String)
    ensures
        r@ == SCRIPT_ID@ + seq!['_'] + action@ + seq!['_'] + decimal(millis as nat),
{
    let mut v = chars_of(SCRIPT_ID);
    v.push('_');
    v = crate::text::append_str(v, action);
    v.push('_');
    let d = decimal_chars(millis);
    let r = concat_chars(v.as_slice(), d.as_slice());
    string_of(r.as_slice())
}

/// The D-Bus object of the loaded script with number `index`.
pub fn script_object_path(index: i32) -> (r: String)
    ensures
        r@ == "/Scripting/Script"@ + signed_decimal(index as int),
{
    let a = chars_of("/Scripting/Script");
    let d = signed_decimal_chars(index);
    string_of(concat_chars(a.as_slice(), d.as_slice()).as_slice())
}

/// `s` holds `pat` somewhere.
pub open spec fn contains_text(s: Seq<char>, pat: Seq<char>) -> bool {
    exists|i: int| 0 <= i && i + pat.len() <= s.len() && #[trigger] s.subrange(i, i + pat.len()) == pat
}

/// Whether `pat` occurs in `s`.
pub fn contains_chars(s: &[char], pat: &[char]) -> (r: bool)
    ensures
        r == contains_text(s@, pat@),
{
    if pat.len() > s.len() {
        return false;
    }
    let mut i: usize = 0;
    while i <= s.len() - pat.len()
        invariant
            pat.len() <= s.len(),
            0 <= i <= s.len() - pat.len() + 1,
            forall|j: int| 0 <= j < i ==> #[trigger] s@.subrange(j, j + pat.len()) != pat@,
        decreases s.len() - i,
    {
        let mut k: usize = 0;
        let mut same = true;
        while k < pat.len()
            invariant
                0 <= k <= pat.len(),
                i + pat.len() <= s.len(),
                same == (forall|q: int| 0 <= q < k ==> s@[i + q] == pat@[q]),
            decreases pat.len() - k,
        {
            if s[i + k] != pat[k] {
                same = false;
            }
            k += 1;
        }
        if same {
            assert(s@.subrange(i as int, i + pat.len()) =~= pat@);
            return true;
        }
        assert(s@.subrange(i as int, i + pat.len()) != pat@) by {
            let q = choose|q: int| 0 <= q < pat.len() && s@[i + q] != pat@[q];
            assert(s@.subrange(i as int, i + pat.len())[q] != pat@[q]);
        }
        i += 1;
    }
    false
}

/// `str::contains` for a string pattern.
pub fn contains_str(s: &str, pat: &str) -> (r: bool)
    ensures
        r == contains_text(s@, pat@),
{
    let sv = chars_of(s);
    let pv = chars_of(pat);
    contains_chars(sv.as_slice(), pv.as_slice())
}

/// Whether the package list printed by `kpackagetool6 --list` names the
/// script on one of its lines.
pub open spec fn lists_script_spec(stdout: Seq<char>) -> bool {
    exists|i: int|
        0 <= i < crate::kconfig::lines_of(stdout).len() && contains_text(
            #[trigger] crate::kconfig::lines_of(stdout)[i],
            SCRIPT_ID@,
        )
}

/// Whether the package list printed by `kpackagetool6 --list` names the
/// script on one of its lines.
pub fn lists_script(stdout: &str) -> (r: bool)
    ensures
        r == lists_script_spec(stdout@),
{
    let lines = crate::kconfig::text_lines(stdout);
    let ghost lv = lines@.map_values(|v: Vec<char>| v@);
    let id = chars_of(SCRIPT_ID);
    let mut i: usize = 0;
    while i < lines.len()
        invariant
            0 <= i <= lines.len(),
            lv == lines@.map_values(|v: Vec<char>| v@),
            lv == crate::kconfig::lines_of(stdout@),
            id@ == SCRIPT_ID@,
            forall|j: int| 0 <= j < i ==> !contains_text(#[trigger] lv[j], SCRIPT_ID@),
        decreases lines.len() - i,
    {
        if contains_chars(lines[i].as_slice(), id.as_slice()) {
            assert(contains_text(lv[i as int], SCRIPT_ID@));
            return true;
        }
        i += 1;
    }
    false
}

// ---------------------------------------------------------------------------
// Command results
// ---------------------------------------------------------------------------

/// What a finished command left: its program, exit code (none when a signal
/// ended it), and its output as text.
#[derive(Debug, Clone, PartialEq, Eq)]
pub struct CommandResult {
    pub program: String,
    pub status: Option<i32>,
    pub stdout: String,
    pub stderr: String,
}

/// An exit code as `{:?}` writes an `Option<i32>`: `Some(<n>)` or `None`.
pub open spec fn debug_status(status: Option<i32>) -> Seq<char> {
    match status {
        Some(n) => "Some("@ + signed_decimal(n as int) + ")"@,
        None => "None"@,
    }
}

pub fn debug_status_text(status: Option<i32>) -> (r: Vec<char>)
    ensures
        r@ == debug_status(status),
{
    match status {
        Some(n) => {
            let a = chars_of("Some(");
            let d = signed_decimal_chars(n);
            let r = concat_chars(a.as_slice(), d.as_slice());
            crate::text::append_str(r, ")")
        },
        None => chars_of("None"),
    }
}

/// The error text for a command that did not exit with 0.
pub open spec fn failure_text(c: CommandResult) -> Seq<char> {
    c.program@ + " exited with "@ + debug_status(c.status) + "\nstdout:\n"@ + c.stdout@
        + "\nstderr:\n"@ + c.stderr@
}

impl CommandResult {
    /// The result itself when the command exited with 0; otherwise the error
    /// text naming the program, its exit code and its output.
    pub fn ensure_success(self) -> (r: Result<CommandResult, String>)
        ensures
            match r {
                Ok(c) => self.status == Some(0i32) && c == self,
                Err(m) => self.status != Some(0i32) && m@ == failure_text(self),
            },
    {
        if self.status == Some(0i32) {
            Ok(self)
        } else {
            let mut v = chars_of(self.program.as_str());
            v = crate::text::append_str(v, " exited with ");
            let st = debug_status_text(self.status);
            v = concat_chars(v.as_slice(), st.as_slice());
            v = crate::text::append_str(v, "\nstdout:\n");
            v = crate::text::append_str(v, self.stdout.as_str());
            v = crate::text::append_str(v, "\nstderr:\n");
            v = crate::text::append_str(v, self.stderr.as_str());
            Err(string_of(v.as_slice()))
        }
    }
}

/// The pieces of `s` between white space characters, read left to right
/// (`split_whitespace` without dropping the empty pieces, which never read as
/// a number).
pub open spec fn ws_pieces(s: Seq<char>) -> Seq<Seq<char>>
    decreases s.len(),
{
    if s.len() == 0 {
        seq![Seq::<char>::empty()]
    } else if is_white_space(s[0]) {
        seq![Seq::<char>::empty()] + ws_pieces(s.drop_first())
    } else {
        let rest = ws_pieces(s.drop_first());
        rest.update(0, seq![s[0]] + rest[0])
    }
}

proof fn lemma_ws_pieces_nonempty(s: Seq<char>)
    ensures
        ws_pieces(s).len() >= 1,
    decreases s.len(),
{
    if s.len() > 0 {
        lemma_ws_pieces_nonempty(s.drop_first());
    }
}

/// The first of `words` that reads as an `i32`.
pub open spec fn first_int(words: Seq<Seq<char>>) -> Option<i32>
    decreases words.len(),
{
    if words.len() == 0 {
        None
    } else {
        match parse_i32(words[0]) {
            Some(n) => Some(n),
            None => first_int(words.drop_first()),
        }
    }
}

/// The number `busctl` printed: the first white-space separated word of
/// `stdout` that reads as an `i32`; otherwise an error quoting the trimmed
/// output.
pub fn parse_busctl_i32(stdout: &str) -> (r: Result<i32, String>)
    ensures
        match r {
            Ok(n) => first_int(ws_pieces(stdout@)) == Some(n),
            Err(m) => first_int(ws_pieces(stdout@)) is None && m@ == "parse busctl int from '"@
                + trimmed(stdout@) + "'"@,
        },
{
    let s = chars_of(stdout);
    let mut cur: Vec<char> = Vec::new();
    let mut i: usize = 0;
    proof {
        lemma_ws_pieces_nonempty(s@);
        assert(s@.subrange(0, s@.len() as int) =~= s@);
        assert(crate::kconfig::prefix_first(Seq::<char>::empty(), ws_pieces(s@)) =~= ws_pieces(s@));
    }
    while i < s.len()
        invariant
            0 <= i <= s.len(),
            s@ == stdout@,
            first_int(ws_pieces(s@)) == first_int(
                crate::kconfig::prefix_first(cur@, ws_pieces(s@.subrange(i as int, s.len() as int))),
            ),
        decreases s.len() - i,
    {
        let ghost rest = s@.subrange(i as int, s.len() as int);
        let ghost after = s@.subrange(i + 1, s.len() as int);
        assert(rest.drop_first() =~= after);
        assert(rest[0] == s@[i as int]);
        proof {
            lemma_ws_pieces_nonempty(after);
        }
        let c = s[i];
        if crate::text::white_space(c) {
            let ghost tail = ws_pieces(after);
            assert(crate::kconfig::prefix_first(cur@, ws_pieces(rest)) =~= seq![cur@] + tail) by {
                assert(ws_pieces(rest) == seq![Seq::<char>::empty()] + tail);
                assert(Seq::<char>::empty() + cur@ =~= cur@);
                assert(cur@ + Seq::<char>::empty() =~= cur@);
            }
            assert((seq![cur@] + tail).drop_first() =~= tail);
            match parse_i32_chars(cur.as_slice()) {
                Some(n) => {
                    return Ok(n);
                },
                None => {},
            }
            cur = Vec::new();
            assert(crate::kconfig::prefix_first(cur@, tail) =~= tail);
        } else {
            let ghost old_cur = cur@;
            let ghost r = ws_pieces(after);
            assert(ws_pieces(rest) == r.update(0, seq![c] + r[0]));
            cur.push(c);
            assert(old_cur + (seq![c] + r[0]) =~= cur@ + r[0]);
            assert(crate::kconfig::prefix_first(old_cur, ws_pieces(rest)) =~= crate::kconfig::prefix_first(
                cur@,
                r,
            ));
        }
        i += 1;
    }
    assert(s@.subrange(i as int, s.len() as int) =~= Seq::<char>::empty());
    let ghost last = crate::kconfig::prefix_first(cur@, seq![Seq::<char>::empty()]);
    assert(last =~= seq![cur@]);
    assert(last.drop_first() =~= Seq::<Seq<char>>::empty());
    assert(last[0] == cur@);
    assert(first_int(last.drop_first()) is None);
    match parse_i32_chars(cur.as_slice()) {
        Some(n) => {
            assert(first_int(last) == Some(n));
            Ok(n)
        },
        None => {
            let mut m = chars_of("parse busctl int from '");
            let t = trim_chars(s.as_slice());
            m = concat_chars(m.as_slice(), t.as_slice());
            m = crate::text::append_str(m, "'");
            Err(string_of(m.as_slice()))
        },
    }
}

// ---------------------------------------------------------------------------
// Trying one command after another
// ---------------------------------------------------------------------------

/// How running one candidate command went.
pub enum AttemptOutcome {
    /// It ran and exited with `status`, printing `stdout` and `stderr`.
    Exited { status: Option<i32>, stdout: String, stderr: String },
    /// It could not be run.
    Failed { error: String },
}

/// The failure line for an attempt labelled `label`, or none when it exited
/// with 0.
pub open spec fn attempt_failure_spec(label: Seq<char>, outcome: AttemptOutcome) -> Option<Seq<char>> {
    match outcome {
        AttemptOutcome::Exited { status, stdout, stderr } => if status == Some(0i32) {
            None
        } else {
            Some(label + " exited "@ + debug_status(status) + ": "@ + stdout@ + stderr@)
        },
        AttemptOutcome::Failed { error } => Some(label + ": "@ + error@),
    }
}

/// Judges one attempt of a chain of fallback commands: none when it
/// succeeded, so the chain stops, else the line recorded for it.
pub fn attempt_failure(label: &str, outcome: &AttemptOutcome) -> (r: Option<String>)
    ensures
        match r {
            Some(m) => attempt_failure_spec(label@, *outcome) == Some(m@),
            None => attempt_failure_spec(label@, *outcome) is None,
        },
{
    match outcome {
        AttemptOutcome::Exited { status, stdout, stderr } => {
            if *status == Some(0i32) {
                None
            } else {
                let mut v = chars_of(label);
                v = crate::text::append_str(v, " exited ");
                let st = debug_status_text(*status);
                v = concat_chars(v.as_slice(), st.as_slice());
                v = crate::text::append_str(v, ": ");
                v = crate::text::append_str(v, stdout.as_str());
                v = crate::text::append_str(v, stderr.as_str());
                Some(string_of(v.as_slice()))
            }
        },
        AttemptOutcome::Failed { error } => {
            let mut v = chars_of(label);
            v = crate::text::append_str(v, ": ");
            v = crate::text::append_str(v, error.as_str());
            Some(string_of(v.as_slice()))
        },
    }
}

/// The error after every candidate failed: `heading`, then the failure lines,
/// one per line.
pub fn fallback_error(heading: &str, failures: &Vec<String>) -> (r: String)
    ensures
        r@ == heading@ + seq!['\n'] + crate::text::join_with(strings_view(failures@), seq!['\n']),
{
    let mut parts: Vec<Vec<char>> = Vec::new();
    let mut i: usize = 0;
    while i < failures.len()
        invariant
            0 <= i <= failures.len(),
            parts@.map_values(|v: Vec<char>| v@) == strings_view(failures@).subrange(0, i as int),
        decreases failures.len() - i,
    {
        let ghost before = parts@.map_values(|v: Vec<char>| v@);
        parts.push(chars_of(failures[i].as_str()));
        assert(parts@.map_values(|v: Vec<char>| v@) =~= before.push(failures@[i as int]@));
        assert(strings_view(failures@).subrange(0, i + 1) =~= strings_view(failures@).subrange(
            0,
            i as int,
        ).push(failures@[i as int]@));
        i += 1;
    }
    assert(strings_view(failures@).subrange(0, failures.len() as int) =~= strings_view(failures@));
    let sep = vec!['\n'];
    assert(sep@ =~= seq!['\n']);
    let body = crate::text::join_chars(&parts, sep.as_slice());
    let mut v = chars_of(heading);
    v.push('\n');
    let r = concat_chars(v.as_slice(), body.as_slice());
    string_of(r.as_slice())
}

/// What to do after one attempt of a chain of fallback commands.
#[derive(Debug, Clone, PartialEq, Eq)]
pub enum FallbackStep {
    /// The attempt succeeded: the chain is done.
    Done,
    /// The attempt failed and another command is left to try.
    TryNext,
    /// Every command failed; `message` lists why.
    GiveUp { message: String },
}

/// Records one attempt of a chain of fallback commands labelled `label`, with
/// `remaining` commands still left after it: the chain stops at the first
/// command that exits with 0; a failure is added to `failures`, and when no
/// command is left the chain gives up with `heading` and every failure.
pub fn fallback_step(
    failures: &mut Vec<String>,
    label: &str,
    outcome: &AttemptOutcome,
    remaining: usize,
    heading: &str,
) -> (r: FallbackStep)
    ensures
        match attempt_failure_spec(label@, *outcome) {
            None => r == FallbackStep::Done && final(failures)@ == old(failures)@,
            Some(line) => {
                &&& strings_view(final(failures)@) == strings_view(old(failures)@).push(line)
                &&& remaining > 0 ==> r == FallbackStep::TryNext
                &&& remaining == 0 ==> (r matches FallbackStep::GiveUp { message } && message@
                    == heading@ + seq!['\n'] + crate::text::join_with(
                    strings_view(final(failures)@),
                    seq!['\n'],
                ))
            },
        },
{
    match attempt_failure(label, outcome) {
        None => FallbackStep::Done,
        Some(line) => {
            let ghost before = strings_view(failures@);
            failures.push(line);
            assert(strings_view(failures@) =~= before.push(line@));
            if remaining > 0 {
                FallbackStep::TryNext
            } else {
                FallbackStep::GiveUp { message: fallback_error(heading, failures) }
            }
        },
    }
}

/// The heading of the error when no way of asking KWin to reconfigure worked.
pub fn reconfigure_failed_heading() -> (r: &'static str)
    ensures
        r@ == "could not ask KWin to reconfigure; log out/in or restart KWin"@,
{
    "could not ask KWin to reconfigure; log out/in or restart KWin"
}

/// The heading of the error when no way of invoking `shortcut` worked.
pub fn invoke_failed_heading(shortcut: &str) -> (r: String)
    ensures
        r@ == "could not invoke KWin shortcut '"@ + shortcut@ + "'"@,
{
    let v = chars_of("could not invoke KWin shortcut '");
    let v = crate::text::append_str(v, shortcut);
    let v = crate::text::append_str(v, "'");
    string_of(v.as_slice())
}

/// A command line: the program and its arguments.
pub open spec fn commands_view(v: Seq<(String, Vec<String>)>) -> Seq<(Seq<char>, Seq<Seq<char>>)> {
    v.map_values(|c: (String, Vec<String>)| (c.0@, strings_view(c.1@)))
}

/// The ways of asking KWin to reconfigure, tried in order.
pub open spec fn reconfigure_candidates_spec() -> Seq<(Seq<char>, Seq<Seq<char>>)> {
    seq![
        ("qdbus6"@, seq!["org.kde.KWin"@, "/KWin"@, "org.kde.KWin.reconfigure"@]),
        ("qdbus6"@, seq!["org.kde.KWin"@, "/KWin"@, "reconfigure"@]),
        ("qdbus"@, seq!["org.kde.KWin"@, "/KWin"@, "org.kde.KWin.reconfigure"@]),
        ("qdbus"@, seq!["org.kde.KWin"@, "/KWin"@, "reconfigure"@]),
    ]
}

/// The ways of asking KWin to reconfigure, tried in order.
pub fn reconfigure_candidates() -> (r: Vec<(String, Vec<String>)>)
    ensures
        commands_view(r@) == reconfigure_candidates_spec(),
{
    let r = vec![
        ("qdbus6".to_owned(), vec!["org.kde.KWin".to_owned(), "/KWin".to_owned(), "org.kde.KWin.reconfigure".to_owned()]),
        ("qdbus6".to_owned(), vec!["org.kde.KWin".to_owned(), "/KWin".to_owned(), "reconfigure".to_owned()]),
        ("qdbus".to_owned(), vec!["org.kde.KWin".to_owned(), "/KWin".to_owned(), "org.kde.KWin.reconfigure".to_owned()]),
        ("qdbus".to_owned(), vec!["org.kde.KWin".to_owned(), "/KWin".to_owned(), "reconfigure".to_owned()]),
    ];
    assert(commands_view(r@) =~= reconfigure_candidates_spec()) by {
        assert(strings_view(r@[0].1@) =~= seq!["org.kde.KWin"@, "/KWin"@, "org.kde.KWin.reconfigure"@]);
        assert(strings_view(r@[1].1@) =~= seq!["org.kde.KWin"@, "/KWin"@, "reconfigure"@]);
        assert(strings_view(r@[2].1@) =~= seq!["org.kde.KWin"@, "/KWin"@, "org.kde.KWin.reconfigure"@]);
        assert(strings_view(r@[3].1@) =~= seq!["org.kde.KWin"@, "/KWin"@, "reconfigure"@]);
    }
    r
}

/// The ways of invoking the KGlobalAccel shortcut `shortcut` of KWin, tried in
/// order: `busctl`, then `qdbus6`, then `qdbus`.
pub open spec fn invoke_candidates_spec(shortcut: Seq<char>) -> Seq<(Seq<char>, Seq<Seq<char>>)> {
    seq![
        (
            "busctl"@,
            seq![
                "--user"@,
                "call"@,
                "org.kde.kglobalaccel"@,
                "/component/kwin"@,
                "org.kde.kglobalaccel.Component"@,
                "invokeShortcut"@,
                "s"@,
                shortcut,
            ],
        ),
        (
            "qdbus6"@,
            seq![
                "org.kde.kglobalaccel"@,
                "/component/kwin"@,
                "org.kde.kglobalaccel.Component.invokeShortcut"@,
                shortcut,
            ],
        ),
        (
            "qdbus"@,
            seq![
                "org.kde.kglobalaccel"@,
                "/component/kwin"@,
                "org.kde.kglobalaccel.Component.invokeShortcut"@,
                shortcut,
            ],
        ),
    ]
}

/// The ways of invoking the KGlobalAccel shortcut `shortcut` of KWin, tried in
/// order.
pub fn invoke_shortcut_candidates(shortcut: &str) -> (r: Vec<(String, Vec<String>)>)
    ensures
        commands_view(r@) == invoke_candidates_spec(shortcut@),
{
    let r = vec![
        (
            "busctl".to_owned(),
            vec![
                "--user".to_owned(),
                "call".to_owned(),
                "org.kde.kglobalaccel".to_owned(),
                "/component/kwin".to_owned(),
                "org.kde.kglobalaccel.Component".to_owned(),
                "invokeShortcut".to_owned(),
                "s".to_owned(),
                shortcut.to_owned(),
            ],
        ),
        (
            "qdbus6".to_owned(),
            vec![
                "org.kde.kglobalaccel".to_owned(),
                "/component/kwin".to_owned(),
                "org.kde.kglobalaccel.Component.invokeShortcut".to_owned(),
                shortcut.to_owned(),
            ],
        ),
        (
            "qdbus".to_owned(),
            vec![
                "org.kde.kglobalaccel".to_owned(),
                "/component/kwin".to_owned(),
                "org.kde.kglobalaccel.Component.invokeShortcut".to_owned(),
                shortcut.to_owned(),
            ],
        ),
    ];
    assert(commands_view(r@) =~= invoke_candidates_spec(shortcut@)) by {
        assert(strings_view(r@[0].1@) =~= invoke_candidates_spec(shortcut@)[0].1);
        assert(strings_view(r@[1].1@) =~= invoke_candidates_spec(shortcut@)[1].1);
        assert(strings_view(r@[2].1@) =~= invoke_candidates_spec(shortcut@)[2].1);
    }
    r
}

// ---------------------------------------------------------------------------
// Command lines
// ---------------------------------------------------------------------------

/// Owned copies of `v`, in order.
fn owned_all(v: &[&str]) -> (r: Vec<String>)
    ensures
        strings_view(r@) == v@.map_values(|x: &str| x@),
{
    let mut r: Vec<String> = Vec::new();
    let mut i: usize = 0;
    while i < v.len()
        invariant
            0 <= i <= v.len(),
            strings_view(r@) == v@.subrange(0, i as int).map_values(|x: &str| x@),
        decreases v.len() - i,
    {
        let ghost before = strings_view(r@);
        r.push(v[i].to_owned());
        assert(strings_view(r@) =~= before.push(v@[i as int]@));
        assert(v@.subrange(0, i + 1).map_values(|x: &str| x@) =~= v@.subrange(0, i as int).map_values(
            |x: &str| x@,
        ).push(v@[i as int]@));
        i += 1;
    }
    assert(v@.subrange(0, v.len() as int) =~= v@);
    r
}

/// The keys of `kwinrc`'s `[Windows]` group that turn on KWin's own
/// drag-to-edge tiling and maximizing.
pub fn builtin_tiling_keys() -> (r: Vec<String>)
    ensures
        strings_view(r@) == seq!["ElectricBorderTiling"@, "ElectricBorderMaximize"@],
{
    let v = ["ElectricBorderTiling", "ElectricBorderMaximize"];
    let r = owned_all(&v);
    assert(strings_view(r@) =~= seq!["ElectricBorderTiling"@, "ElectricBorderMaximize"@]);
    r
}

/// The `kpackagetool6` arguments that list the installed KWin scripts.
pub fn kpackage_list_args() -> (r: Vec<String>)
    ensures
        strings_view(r@) == seq!["--type"@, "KWin/Script"@, "--list"@],
{
    let v = ["--type", "KWin/Script", "--list"];
    let r = owned_all(&v);
    assert(strings_view(r@) =~= seq!["--type"@, "KWin/Script"@, "--list"@]);
    r
}

/// The `kpackagetool6` arguments that remove the installed FanzyZones script.
pub fn kpackage_remove_args() -> (r: Vec<String>)
    ensures
        strings_view(r@) == seq!["--type"@, "KWin/Script"@, "--remove"@, SCRIPT_ID@],
{
    let v = ["--type", "KWin/Script", "--remove", SCRIPT_ID];
    let r = owned_all(&v);
    assert(strings_view(r@) =~= seq!["--type"@, "KWin/Script"@, "--remove"@, SCRIPT_ID@]);
    r
}

/// The `kpackagetool6` arguments that install the KWin script in `dir`.
pub fn kpackage_install_args(dir: &str) -> (r: Vec<String>)
    ensures
        strings_view(r@) == seq!["--type"@, "KWin/Script"@, "--install"@, dir@],
{
    let v = ["--type", "KWin/Script", "--install", dir];
    let r = owned_all(&v);
    assert(strings_view(r@) =~= seq!["--type"@, "KWin/Script"@, "--install"@, dir@]);
    r
}

/// The `kwriteconfig6` arguments that set `key` to `value` in `group` of `kwinrc`.
pub fn kwinrc_write_args(group: &str, key: &str, value: &str) -> (r: Vec<String>)
    ensures
        strings_view(r@) == seq!["--file"@, "kwinrc"@, "--group"@, group@, "--key"@, key@, value@],
{
    let v = ["--file", "kwinrc", "--group", group, "--key", key, value];
    let r = owned_all(&v);
    assert(strings_view(r@) =~= seq!["--file"@, "kwinrc"@, "--group"@, group@, "--key"@, key@, value@]);
    r
}

/// The `busctl` arguments that unload the KWin script loaded as `key`.
pub fn unload_script_args(key: &str) -> (r: Vec<String>)
    ensures
        strings_view(r@) == seq!["--user"@, "call"@, "org.kde.KWin"@, "/Scripting"@, "org.kde.kwin.Scripting"@, "unloadScript"@, "s"@, key@],
{
    let v = ["--user", "call", "org.kde.KWin", "/Scripting", "org.kde.kwin.Scripting", "unloadScript", "s", key];
    let r = owned_all(&v);
    assert(strings_view(r@) =~= seq!["--user"@, "call"@, "org.kde.KWin"@, "/Scripting"@, "org.kde.kwin.Scripting"@, "unloadScript"@, "s"@, key@]);
    r
}

/// The `busctl` arguments that drop global shortcuts of KWin whose actions are gone.
pub fn shortcut_cleanup_args() -> (r: Vec<String>)
    ensures
        strings_view(r@) == seq!["--user"@, "call"@, "org.kde.kglobalaccel"@, "/component/kwin"@, "org.kde.kglobalaccel.Component"@, "cleanUp"@],
{
    let v = ["--user", "call", "org.kde.kglobalaccel", "/component/kwin", "org.kde.kglobalaccel.Component", "cleanUp"];
    let r = owned_all(&v);
    assert(strings_view(r@) =~= seq!["--user"@, "call"@, "org.kde.kglobalaccel"@, "/component/kwin"@, "org.kde.kglobalaccel.Component"@, "cleanUp"@]);
    r
}

/// The `busctl` arguments that load the declarative KWin script at `path` under the id `id`.
pub fn load_script_args(path: &str, id: &str) -> (r: Vec<String>)
    ensures
        strings_view(r@) == seq!["--user"@, "call"@, "org.kde.KWin"@, "/Scripting"@, "org.kde.kwin.Scripting"@, "loadDeclarativeScript"@, "ss"@, path@, id@],
{
    let v = ["--user", "call", "org.kde.KWin", "/Scripting", "org.kde.kwin.Scripting", "loadDeclarativeScript", "ss", path, id];
    let r = owned_all(&v);
    assert(strings_view(r@) =~= seq!["--user"@, "call"@, "org.kde.KWin"@, "/Scripting"@, "org.kde.kwin.Scripting"@, "loadDeclarativeScript"@, "ss"@, path@, id@]);
    r
}

/// The `busctl` arguments that start the loaded KWin scripts.
pub fn start_scripts_args() -> (r: Vec<String>)
    ensures
        strings_view(r@) == seq!["--user"@, "call"@, "org.kde.KWin"@, "/Scripting"@, "org.kde.kwin.Scripting"@, "start"@],
{
    let v = ["--user", "call", "org.kde.KWin", "/Scripting", "org.kde.kwin.Scripting", "start"];
    let r = owned_all(&v);
    assert(strings_view(r@) =~= seq!["--user"@, "call"@, "org.kde.KWin"@, "/Scripting"@, "org.kde.kwin.Scripting"@, "start"@]);
    r
}

/// The `busctl` arguments that run the loaded KWin script object `object`.
pub fn run_script_args(object: &str) -> (r: Vec<String>)
    ensures
        strings_view(r@) == seq!["--user"@, "call"@, "org.kde.KWin"@, object@, "org.kde.kwin.Script"@, "run"@],
{
    let v = ["--user", "call", "org.kde.KWin", object, "org.kde.kwin.Script", "run"];
    let r = owned_all(&v);
    assert(strings_view(r@) =~= seq!["--user"@, "call"@, "org.kde.KWin"@, object@, "org.kde.kwin.Script"@, "run"@]);
    r
}

} // verus!
