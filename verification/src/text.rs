//! Character-level text handling shared by the configuration, shortcut and
//! KConfig code: trimming, ASCII case folding, splitting, joining and decimal
//! conversion, each with the specification it is proved against.
use vstd::prelude::*;

verus! {

// ---------------------------------------------------------------------------
// Conversions between strings and character vectors
// ---------------------------------------------------------------------------

/// `String::push` from std: appends one character.
#[verifier::external_body]
pub(crate) fn push_char(s: &mut String, c: char)
    ensures
        final(s)@ == old(s)@.push(c),
{
    s.push(c);
}

/// The characters of `s`, in order.
pub fn chars_of(s: &str) -> (v: Vec<char>)
    ensures
        v@ == s@,
{
    broadcast use vstd::string::group_string_axioms;

    let mut v: Vec<char> = Vec::new();
    for c in it: s.chars()
        invariant
            v@ == it.seq().take(it.index() as int),
            it.seq() == s@,
    {
        v.push(c);
    }
    v
}

/// A `String` holding exactly the characters `v`.
pub fn string_of(v: &[char]) -> (s: String)
    ensures
        s@ == v@,
{
    let mut s = String::new();
    let mut i: usize = 0;
    while i < v.len()
        invariant
            0 <= i <= v.len(),
            s@ == v@.subrange(0, i as int),
        decreases v.len() - i,
    {
        push_char(&mut s, v[i]);
        i += 1;
    }
    s
}

/// A `String` holding `s` followed by `t`.
pub fn concat_chars(s: &[char], t: &[char]) -> (r: Vec<char>)
    ensures
        r@ == s@ + t@,
{
    let mut r: Vec<char> = Vec::new();
    let mut i: usize = 0;
    while i < s.len()
        invariant
            0 <= i <= s.len(),
            r@ == s@.subrange(0, i as int),
        decreases s.len() - i,
    {
        r.push(s[i]);
        i += 1;
    }
    let mut j: usize = 0;
    while j < t.len()
        invariant
            0 <= j <= t.len(),
            r@ == s@ + t@.subrange(0, j as int),
        decreases t.len() - j,
    {
        r.push(t[j]);
        j += 1;
    }
    r
}

/// `v` followed by the characters of `s`.
pub fn append_str(v: Vec<char>, s: &str) -> (r: Vec<char>)
    ensures
        r@ == v@ + s@,
{
    let t = chars_of(s);
    concat_chars(v.as_slice(), t.as_slice())
}

/// Character-wise equality of two character vectors.
pub fn chars_eq(a: &[char], b: &[char]) -> (r: bool)
    ensures
        r == (a@ == b@),
{
    if a.len() != b.len() {
        return false;
    }
    let mut i: usize = 0;
    while i < a.len()
        invariant
            a.len() == b.len(),
            0 <= i <= a.len(),
            forall|k: int| 0 <= k < i ==> a@[k] == b@[k],
        decreases a.len() - i,
    {
        if a[i] != b[i] {
            return false;
        }
        i += 1;
    }
    assert(a@ =~= b@);
    true
}

/// Equality of two strings by their characters.
pub fn str_eq(a: &str, b: &str) -> (r: bool)
    ensures
        r == (a@ == b@),
{
    let av = chars_of(a);
    let bv = chars_of(b);
    chars_eq(av.as_slice(), bv.as_slice())
}

// ---------------------------------------------------------------------------
// Whitespace and trimming
// ---------------------------------------------------------------------------

/// The Unicode `White_Space` property, which `char::is_whitespace` tests.
pub open spec fn is_white_space(c: char) -> bool {
    let u = c as u32;
    ||| 0x9 <= u <= 0xd
    ||| u == 0x20
    ||| u == 0x85
    ||| u == 0xa0
    ||| u == 0x1680
    ||| 0x2000 <= u <= 0x200a
    ||| u == 0x2028
    ||| u == 0x2029
    ||| u == 0x202f
    ||| u == 0x205f
    ||| u == 0x3000
}

pub fn white_space(c: char) -> (r: bool)
    ensures
        r == is_white_space(c),
{
    let u = c as u32;
    (0x9 <= u && u <= 0xd) || u == 0x20 || u == 0x85 || u == 0xa0 || u == 0x1680 || (0x2000 <= u
        && u <= 0x200a) || u == 0x2028 || u == 0x2029 || u == 0x202f || u == 0x205f || u == 0x3000
}

/// `s` without its leading white space.
pub open spec fn trim_start(s: Seq<char>) -> Seq<char>
    decreases s.len(),
{
    if s.len() > 0 && is_white_space(s[0]) {
        trim_start(s.drop_first())
    } else {
        s
    }
}

/// `s` without its trailing white space.
pub open spec fn trim_end(s: Seq<char>) -> Seq<char>
    decreases s.len(),
{
    if s.len() > 0 && is_white_space(s.last()) {
        trim_end(s.drop_last())
    } else {
        s
    }
}

/// `s` without leading and trailing white space, as `str::trim` returns it.
pub open spec fn trimmed(s: Seq<char>) -> Seq<char> {
    trim_end(trim_start(s))
}

proof fn lemma_trim_start_at(s: Seq<char>, i: int)
    requires
        0 <= i <= s.len(),
        forall|k: int| 0 <= k < i ==> is_white_space(#[trigger] s[k]),
        i == s.len() || !is_white_space(s[i]),
    ensures
        trim_start(s) == s.subrange(i, s.len() as int),
    decreases i,
{
    if i == 0 {
        assert(s.subrange(0, s.len() as int) =~= s);
    } else {
        assert(is_white_space(s[0]));
        let t = s.drop_first();
        assert forall|k: int| 0 <= k < i - 1 implies is_white_space(#[trigger] t[k]) by {
            assert(t[k] == s[k + 1]);
        }
        lemma_trim_start_at(t, i - 1);
        assert(t.subrange(i - 1, t.len() as int) =~= s.subrange(i, s.len() as int));
    }
}

proof fn lemma_trim_end_at(s: Seq<char>, j: int)
    requires
        0 <= j <= s.len(),
        forall|k: int| j <= k < s.len() ==> is_white_space(#[trigger] s[k]),
        j == 0 || !is_white_space(s[j - 1]),
    ensures
        trim_end(s) == s.subrange(0, j),
    decreases s.len() - j,
{
    if j == s.len() {
        assert(s.subrange(0, j) =~= s);
    } else {
        assert(is_white_space(s.last()));
        let t = s.drop_last();
        assert forall|k: int| j <= k < t.len() implies is_white_space(#[trigger] t[k]) by {
            assert(t[k] == s[k]);
        }
        lemma_trim_end_at(t, j);
        assert(t.subrange(0, j) =~= s.subrange(0, j));
    }
}

/// Text whose first and last characters are not white space is its own
/// trimmed form.
pub proof fn lemma_trimmed_unchanged(t: Seq<char>)
    requires
        t.len() > 0,
        !is_white_space(t[0]),
        !is_white_space(t.last()),
    ensures
        trimmed(t) == t,
{
    assert(trim_start(t) == t);
    assert(trim_end(t) == t);
}

/// `trim_start(s)` is what follows the leading white space of `s`.
pub proof fn lemma_trim_start_shape(s: Seq<char>)
    ensures
        trim_start(s).len() == 0 || !is_white_space(trim_start(s)[0]),
        trim_start(s).len() <= s.len(),
        trim_start(s) == s.subrange(s.len() - trim_start(s).len(), s.len() as int),
        forall|k: int| 0 <= k < s.len() - trim_start(s).len() ==> is_white_space(#[trigger] s[k]),
    decreases s.len(),
{
    if s.len() > 0 && is_white_space(s[0]) {
        lemma_trim_start_shape(s.drop_first());
        let t = trim_start(s.drop_first());
        assert(s.drop_first().subrange(s.len() - 1 - t.len(), s.len() - 1) =~= s.subrange(
            s.len() - t.len(),
            s.len() as int,
        ));
        assert forall|k: int| 0 <= k < s.len() - t.len() implies is_white_space(#[trigger] s[k]) by {
            if k > 0 {
                assert(s[k] == s.drop_first()[k - 1]);
            }
        }
    } else {
        assert(s.subrange(0, s.len() as int) =~= s);
    }
}

/// `trim_end(s)` is what precedes the trailing white space of `s`.
pub proof fn lemma_trim_end_shape(s: Seq<char>)
    ensures
        trim_end(s).len() == 0 || !is_white_space(trim_end(s).last()),
        trim_end(s).len() <= s.len(),
        trim_end(s) == s.subrange(0, trim_end(s).len() as int),
        forall|k: int| trim_end(s).len() <= k < s.len() ==> is_white_space(#[trigger] s[k]),
    decreases s.len(),
{
    if s.len() > 0 && is_white_space(s.last()) {
        lemma_trim_end_shape(s.drop_last());
        let t = trim_end(s.drop_last());
        assert(s.drop_last().subrange(0, t.len() as int) =~= s.subrange(0, t.len() as int));
        assert forall|k: int| t.len() <= k < s.len() implies is_white_space(#[trigger] s[k]) by {
            if k < s.len() - 1 {
                assert(s[k] == s.drop_last()[k]);
            }
        }
    } else {
        assert(s.subrange(0, s.len() as int) =~= s);
    }
}

/// The trimmed form of `s` is `s[i..j]` when white space is all that lies
/// before `i` and from `j` on, and `s[i..j]` starts and ends with a character
/// that is not white space (or is empty).
pub proof fn lemma_trimmed_at(s: Seq<char>, i: int, j: int)
    requires
        0 <= i <= j <= s.len(),
        forall|k: int| 0 <= k < i ==> is_white_space(#[trigger] s[k]),
        forall|k: int| j <= k < s.len() ==> is_white_space(#[trigger] s[k]),
        i < j ==> !is_white_space(s[i]) && !is_white_space(s[j - 1]),
    ensures
        trimmed(s) == s.subrange(i, j),
{
    if i < j {
        lemma_trim_start_at(s, i);
        let t = s.subrange(i, s.len() as int);
        assert forall|k: int| j - i <= k < t.len() implies is_white_space(#[trigger] t[k]) by {
            assert(t[k] == s[k + i]);
        }
        assert(t[j - i - 1] == s[j - 1]);
        lemma_trim_end_at(t, j - i);
        assert(t.subrange(0, j - i) =~= s.subrange(i, j));
    } else {
        assert forall|k: int| 0 <= k < s.len() implies is_white_space(#[trigger] s[k]) by {
            if k >= i {
                assert(j <= k);
            }
        }
        lemma_trim_start_at(s, s.len() as int);
        assert(s.subrange(s.len() as int, s.len() as int) =~= Seq::<char>::empty());
        assert(s.subrange(i, j) =~= Seq::<char>::empty());
    }
}

/// Dropping leading white space first does not change the trimmed form.
pub proof fn lemma_trimmed_of_trim_start(p: Seq<char>)
    ensures
        trimmed(trim_start(p)) == trimmed(p),
{
    lemma_trim_start_shape(p);
    assert(trim_start(trim_start(p)) == trim_start(p));
}

/// Dropping trailing white space first does not change the trimmed form.
pub proof fn lemma_trimmed_of_trim_end(p: Seq<char>)
    ensures
        trimmed(trim_end(p)) == trimmed(p),
{
    lemma_trim_start_shape(p);
    lemma_trim_end_shape(p);
    let u = trim_end(p);
    let m = u.len() as int;
    let i0 = p.len() - trim_start(p).len();
    if m == 0 {
        assert forall|k: int| 0 <= k < p.len() implies is_white_space(#[trigger] p[k]) by {}
        assert(i0 == p.len()) by {
            if i0 < p.len() {
                assert(trim_start(p)[0] == p[i0]);
            }
        }
        lemma_trimmed_at(p, p.len() as int, p.len() as int);
        lemma_trimmed_at(u, 0, 0);
        assert(p.subrange(p.len() as int, p.len() as int) =~= u.subrange(0, 0));
    } else {
        assert(u.last() == p[m - 1]);
        assert(i0 < m) by {
            if i0 >= m {
                assert(is_white_space(p[m - 1]));
            }
        }
        assert(trim_start(p)[0] == p[i0]);
        lemma_trimmed_at(p, i0, m);
        assert forall|k: int| 0 <= k < i0 implies is_white_space(#[trigger] u[k]) by {
            assert(u[k] == p[k]);
        }
        assert(u[i0] == p[i0]);
        lemma_trimmed_at(u, i0, m);
        assert(u.subrange(i0, m) =~= p.subrange(i0, m));
    }
}

/// Leading white space of `a + b` lies in `a` when `b` starts with a
/// character that is not white space.
pub proof fn lemma_trim_start_append(a: Seq<char>, b: Seq<char>)
    requires
        b.len() > 0,
        !is_white_space(b[0]),
    ensures
        trim_start(a + b) == trim_start(a) + b,
    decreases a.len(),
{
    if a.len() == 0 {
        assert(a + b =~= b);
        assert(trim_start(a) + b =~= b);
    } else if is_white_space(a[0]) {
        assert((a + b).drop_first() =~= a.drop_first() + b);
        lemma_trim_start_append(a.drop_first(), b);
    } else {
        assert((a + b)[0] == a[0]);
    }
}

/// Trailing white space of `a + b` lies in `b` when `a` ends with a
/// character that is not white space.
pub proof fn lemma_trim_end_prepend(a: Seq<char>, b: Seq<char>)
    requires
        a.len() > 0,
        !is_white_space(a.last()),
    ensures
        trim_end(a + b) == a + trim_end(b),
    decreases b.len(),
{
    if b.len() == 0 {
        assert(a + b =~= a);
        assert(a + trim_end(b) =~= a);
    } else if is_white_space(b.last()) {
        assert((a + b).drop_last() =~= a + b.drop_last());
        lemma_trim_end_prepend(a, b.drop_last());
    } else {
        assert((a + b).last() == b.last());
    }
}

/// Trimmed text is either empty or starts and ends with a character that is
/// not white space.
pub proof fn lemma_trimmed_shape(s: Seq<char>)
    ensures
        trimmed(s).len() == 0 || (!is_white_space(trimmed(s)[0]) && !is_white_space(
            trimmed(s).last(),
        )),
        forall|k: int|
            0 <= k < trimmed(s).len() ==> exists|j: int| 0 <= j < s.len() && s[j] == #[trigger] trimmed(s)[k],
{
    lemma_trim_start_shape(s);
    let a = trim_start(s);
    lemma_trim_end_shape(a);
    let b = trim_end(a);
    if b.len() > 0 {
        assert(b[0] == a[0]);
    }
    assert forall|k: int| 0 <= k < b.len() implies exists|j: int| 0 <= j < s.len() && s[j] == #[trigger] b[k] by {
        assert(b[k] == a[k]);
        assert(a[k] == s[s.len() - a.len() + k]);
    }
}

/// Trimming twice is trimming once.
pub proof fn lemma_trimmed_idempotent(s: Seq<char>)
    ensures
        trimmed(trimmed(s)) == trimmed(s),
{
    lemma_trimmed_shape(s);
    if trimmed(s).len() > 0 {
        lemma_trimmed_unchanged(trimmed(s));
    } else {
        assert(trimmed(s) =~= Seq::<char>::empty());
    }
}

/// The bounds `(i, j)` such that `trimmed(s) == s[i..j]`.
pub fn trim_bounds(s: &[char]) -> (r: (usize, usize))
    ensures
        r.0 <= r.1 <= s.len(),
        trimmed(s@) == s@.subrange(r.0 as int, r.1 as int),
{
    let mut i: usize = 0;
    while i < s.len() && white_space(s[i])
        invariant
            0 <= i <= s.len(),
            forall|k: int| 0 <= k < i ==> is_white_space(#[trigger] s@[k]),
        decreases s.len() - i,
    {
        i += 1;
    }
    proof {
        lemma_trim_start_at(s@, i as int);
    }
    let mut j: usize = s.len();
    while j > i && white_space(s[j - 1])
        invariant
            i <= j <= s.len(),
            forall|k: int| j <= k < s.len() ==> is_white_space(#[trigger] s@[k]),
        decreases j,
    {
        j -= 1;
    }
    proof {
        let t = s@.subrange(i as int, s.len() as int);
        assert forall|k: int| j - i <= k < t.len() implies is_white_space(#[trigger] t[k]) by {
            assert(t[k] == s@[k + i]);
        }
        if j > i {
            assert(t[j - i - 1] == s@[j - 1]);
        }
        lemma_trim_end_at(t, j - i);
        assert(t.subrange(0, j - i) =~= s@.subrange(i as int, j as int));
    }
    (i, j)
}

/// `str::trim` on a character vector.
pub fn trim_chars(s: &[char]) -> (r: Vec<char>)
    ensures
        r@ == trimmed(s@),
{
    let (i, j) = trim_bounds(s);
    let mut r: Vec<char> = Vec::new();
    let mut k = i;
    while k < j
        invariant
            i <= k <= j <= s.len(),
            r@ == s@.subrange(i as int, k as int),
        decreases j - k,
    {
        r.push(s[k]);
        k += 1;
    }
    r
}

// ---------------------------------------------------------------------------
// Case folding
// ---------------------------------------------------------------------------

/// `char::to_ascii_lowercase`: `A`..=`Z` become `a`..=`z`, other characters stay.
pub open spec fn ascii_lower(c: char) -> char {
    if 'A' <= c <= 'Z' {
        ((c as u32) + 32) as char
    } else {
        c
    }
}

/// `char::to_ascii_uppercase`: `a`..=`z` become `A`..=`Z`, other characters stay.
pub open spec fn ascii_upper(c: char) -> char {
    if 'a' <= c <= 'z' {
        ((c as u32) - 32) as char
    } else {
        c
    }
}

pub open spec fn ascii_lowercase(s: Seq<char>) -> Seq<char> {
    s.map_values(|c: char| ascii_lower(c))
}

pub fn ascii_lower_char(c: char) -> (r: char)
    ensures
        r == ascii_lower(c),
{
    if 'A' <= c && c <= 'Z' {
        let u = (c as u32) + 32;
        char_from_ascii_code(u)
    } else {
        c
    }
}

pub fn ascii_upper_char(c: char) -> (r: char)
    ensures
        r == ascii_upper(c),
{
    if 'a' <= c && c <= 'z' {
        let u = (c as u32) - 32;
        char_from_ascii_code(u)
    } else {
        c
    }
}

/// The character with the ASCII code `u`.
pub fn char_from_ascii_code(u: u32) -> (r: char)
    requires
        u < 128,
    ensures
        r == u as char,
        r as u32 == u,
{
    let b = u as u8;
    b as char
}

/// `str::to_ascii_lowercase` on a character vector.
pub fn ascii_lowercase_chars(s: &[char]) -> (r: Vec<char>)
    ensures
        r@ == ascii_lowercase(s@),
{
    let mut r: Vec<char> = Vec::new();
    let mut i: usize = 0;
    while i < s.len()
        invariant
            0 <= i <= s.len(),
            r@ == ascii_lowercase(s@.subrange(0, i as int)),
        decreases s.len() - i,
    {
        r.push(ascii_lower_char(s[i]));
        i += 1;
        assert(ascii_lowercase(s@.subrange(0, i as int)) =~= ascii_lowercase(
            s@.subrange(0, i - 1),
        ).push(ascii_lower(s@[i - 1])));
    }
    assert(s@.subrange(0, s.len() as int) =~= s@);
    r
}

/// The full Unicode lowercase mapping of `s`, as `str::to_lowercase` computes it.
pub uninterp spec fn unicode_lowercase(s: Seq<char>) -> Seq<char>;

/// `str::to_lowercase` from std (Unicode case mapping). The result depends on
/// the argument alone; it is named by `unicode_lowercase`, whose value is the
/// Unicode data and is not written out here.
#[verifier::external_body]
pub(crate) fn to_lowercase(s: &str) -> (r: String)
    ensures
        r@ == unicode_lowercase(s@),
{
    s.to_lowercase()
}

// ---------------------------------------------------------------------------
// Splitting and joining
// ---------------------------------------------------------------------------

/// `s.split(sep)`: the pieces between occurrences of the character `sep`
/// (always at least one piece).
pub open spec fn split_on(s: Seq<char>, sep: char) -> Seq<Seq<char>>
    decreases s.len(),
{
    if s.len() == 0 {
        seq![Seq::<char>::empty()]
    } else {
        let prev = split_on(s.drop_last(), sep);
        if s.last() == sep {
            prev.push(Seq::<char>::empty())
        } else {
            prev.update(prev.len() - 1, prev.last().push(s.last()))
        }
    }
}

pub proof fn lemma_split_on_nonempty(s: Seq<char>, sep: char)
    ensures
        split_on(s, sep).len() >= 1,
    decreases s.len(),
{
    if s.len() > 0 {
        lemma_split_on_nonempty(s.drop_last(), sep);
    }
}

/// `str::split` on a character separator.
pub fn split_chars(s: &[char], sep: char) -> (r: Vec<Vec<char>>)
    ensures
        r@.map_values(|v: Vec<char>| v@) == split_on(s@, sep),
{
    let mut done: Vec<Vec<char>> = Vec::new();
    let mut cur: Vec<char> = Vec::new();
    let mut i: usize = 0;
    while i < s.len()
        invariant
            0 <= i <= s.len(),
            done@.map_values(|v: Vec<char>| v@).push(cur@) == split_on(
                s@.subrange(0, i as int),
                sep,
            ),
        decreases s.len() - i,
    {
        let ghost before = done@.map_values(|v: Vec<char>| v@).push(cur@);
        let c = s[i];
        assert(s@.subrange(0, i + 1).drop_last() =~= s@.subrange(0, i as int));
        if c == sep {
            let finished = cur;
            done.push(finished);
            cur = Vec::new();
            assert(done@.map_values(|v: Vec<char>| v@) =~= before);
        } else {
            cur.push(c);
            assert(done@.map_values(|v: Vec<char>| v@).push(cur@) =~= before.update(
                before.len() - 1,
                before.last().push(c),
            ));
        }
        i += 1;
    }
    assert(s@.subrange(0, s.len() as int) =~= s@);
    done.push(cur);
    assert(done@.map_values(|v: Vec<char>| v@) =~= split_on(s@, sep));
    done
}

/// Splitting `a + b`, where `b` holds no separator, extends the last piece of
/// `a` by `b`.
proof fn lemma_split_on_append(a: Seq<char>, b: Seq<char>, sep: char)
    requires
        forall|k: int| 0 <= k < b.len() ==> b[k] != sep,
    ensures
        split_on(a + b, sep) == split_on(a, sep).update(
            split_on(a, sep).len() - 1,
            split_on(a, sep).last() + b,
        ),
    decreases b.len(),
{
    lemma_split_on_nonempty(a, sep);
    let pa = split_on(a, sep);
    if b.len() == 0 {
        assert(a + b =~= a);
        assert(pa.last() + b =~= pa.last());
        assert(pa.update(pa.len() - 1, pa.last() + b) =~= pa);
    } else {
        let b0 = b.drop_last();
        lemma_split_on_append(a, b0, sep);
        assert((a + b).drop_last() =~= a + b0);
        assert((a + b).last() == b.last());
        let prev = pa.update(pa.len() - 1, pa.last() + b0);
        assert(prev.last().push(b.last()) =~= pa.last() + b);
        assert(prev.update(prev.len() - 1, prev.last().push(b.last())) =~= pa.update(
            pa.len() - 1,
            pa.last() + b,
        ));
    }
}

/// Splitting pieces joined with a separator that none of them holds gives the
/// pieces back.
pub proof fn lemma_split_join(parts: Seq<Seq<char>>, sep: char)
    requires
        parts.len() >= 1,
        forall|i: int, k: int| 0 <= i < parts.len() && 0 <= k < parts[i].len() ==> #[trigger] parts[i][k] != sep,
    ensures
        split_on(join_with(parts, seq![sep]), sep) == parts,
    decreases parts.len(),
{
    let last = parts.last();
    assert forall|k: int| 0 <= k < last.len() implies last[k] != sep by {
        assert(parts[parts.len() - 1][k] != sep);
    }
    if parts.len() == 1 {
        lemma_split_on_append(Seq::<char>::empty(), parts[0], sep);
        assert(Seq::<char>::empty() + parts[0] =~= parts[0]);
        assert(seq![Seq::<char>::empty()].update(0, Seq::<char>::empty() + parts[0]) =~= parts);
    } else {
        let init = parts.drop_last();
        assert forall|i: int, k: int| 0 <= i < init.len() && 0 <= k < init[i].len() implies #[trigger] init[i][k] != sep by {
            assert(init[i] == parts[i]);
        }
        lemma_split_join(init, sep);
        let j = join_with(init, seq![sep]);
        assert(j + seq![sep] =~= j.push(sep));
        assert(j.push(sep).drop_last() =~= j);
        assert(split_on(j.push(sep), sep) == init.push(Seq::<char>::empty()));
        lemma_split_on_append(j.push(sep), last, sep);
        assert(Seq::<char>::empty() + last =~= last);
        assert(init.push(Seq::<char>::empty()).update(init.len() as int, Seq::<char>::empty() + last) =~= parts);
    }
}

/// No piece of a split holds the separator.
pub proof fn lemma_split_on_no_sep(s: Seq<char>, sep: char)
    ensures
        forall|i: int, k: int|
            0 <= i < split_on(s, sep).len() && 0 <= k < split_on(s, sep)[i].len() ==> #[trigger] split_on(
                s,
                sep,
            )[i][k] != sep,
    decreases s.len(),
{
    if s.len() > 0 {
        lemma_split_on_no_sep(s.drop_last(), sep);
        lemma_split_on_nonempty(s.drop_last(), sep);
        let prev = split_on(s.drop_last(), sep);
        let cur = split_on(s, sep);
        assert forall|i: int, k: int| 0 <= i < cur.len() && 0 <= k < cur[i].len() implies #[trigger] cur[i][k] != sep by {
            if s.last() == sep {
                if i < prev.len() {
                    assert(cur[i] == prev[i]);
                }
            } else {
                if i < prev.len() - 1 {
                    assert(cur[i] == prev[i]);
                } else if k < prev.last().len() {
                    assert(cur[i][k] == prev[i][k]);
                }
            }
        }
    }
}

/// The pieces joined with `sep` between consecutive pieces.
pub open spec fn join_with(parts: Seq<Seq<char>>, sep: Seq<char>) -> Seq<char>
    decreases parts.len(),
{
    if parts.len() == 0 {
        Seq::<char>::empty()
    } else if parts.len() == 1 {
        parts[0]
    } else {
        join_with(parts.drop_last(), sep) + sep + parts.last()
    }
}

/// Joined pieces are the first piece, the separator, and the rest joined.
pub proof fn lemma_join_front(parts: Seq<Seq<char>>, sep: Seq<char>)
    requires
        parts.len() >= 2,
    ensures
        join_with(parts, sep) == parts[0] + sep + join_with(parts.drop_first(), sep),
    decreases parts.len(),
{
    let rest = parts.drop_first();
    let dl = parts.drop_last();
    assert(join_with(parts, sep) == join_with(dl, sep) + sep + parts.last());
    if parts.len() == 2 {
        assert(join_with(dl, sep) == dl[0]);
        assert(join_with(rest, sep) == rest[0]);
        assert(dl[0] == parts[0] && rest[0] == parts.last());
    } else {
        lemma_join_front(dl, sep);
        assert(dl.drop_first() =~= rest.drop_last());
        assert(rest.last() == parts.last());
        assert(dl[0] == parts[0]);
        let x = join_with(rest.drop_last(), sep);
        assert(join_with(rest, sep) == x + sep + rest.last());
        assert(parts[0] + sep + x + sep + parts.last() =~= parts[0] + sep + (x + sep
            + parts.last()));
    }
}

/// `[..].join(sep)` over character vectors.
pub fn join_chars(parts: &Vec<Vec<char>>, sep: &[char]) -> (r: Vec<char>)
    ensures
        r@ == join_with(parts@.map_values(|v: Vec<char>| v@), sep@),
{
    let ghost views = parts@.map_values(|v: Vec<char>| v@);
    let mut r: Vec<char> = Vec::new();
    let mut i: usize = 0;
    while i < parts.len()
        invariant
            0 <= i <= parts.len(),
            views == parts@.map_values(|v: Vec<char>| v@),
            r@ == join_with(views.subrange(0, i as int), sep@),
        decreases parts.len() - i,
    {
        assert(views.subrange(0, i + 1).drop_last() =~= views.subrange(0, i as int));
        if i > 0 {
            r = concat_chars(r.as_slice(), sep);
        } else {
            assert(r@ =~= Seq::<char>::empty());
        }
        r = concat_chars(r.as_slice(), parts[i].as_slice());
        i += 1;
        if i == 1 {
            assert(r@ =~= views.subrange(0, 1)[0]);
        }
    }
    assert(views.subrange(0, parts.len() as int) =~= views);
    r
}

// ---------------------------------------------------------------------------
// Replacing
// ---------------------------------------------------------------------------

/// `str::replace` with a non-empty pattern: every occurrence of `pat`, found
/// left to right without overlaps, replaced by `rep`.
pub open spec fn replaced(s: Seq<char>, pat: Seq<char>, rep: Seq<char>) -> Seq<char>
    decreases s.len(),
{
    if s.len() == 0 || pat.len() == 0 {
        s
    } else if pat.len() <= s.len() && s.subrange(0, pat.len() as int) == pat {
        rep + replaced(s.subrange(pat.len() as int, s.len() as int), pat, rep)
    } else {
        seq![s[0]] + replaced(s.drop_first(), pat, rep)
    }
}

/// `s.replace(pat, rep)` for a non-empty `pat`.
pub fn replace_chars(s: &[char], pat: &[char], rep: &[char]) -> (r: Vec<char>)
    requires
        pat.len() > 0,
    ensures
        r@ == replaced(s@, pat@, rep@),
{
    let mut out: Vec<char> = Vec::new();
    let mut i: usize = 0;
    assert(s@.subrange(0, s.len() as int) =~= s@);
    assert(Seq::<char>::empty() + replaced(s@, pat@, rep@) =~= replaced(s@, pat@, rep@));
    while i < s.len()
        invariant
            0 <= i <= s.len(),
            pat.len() > 0,
            replaced(s@, pat@, rep@) == out@ + replaced(
                s@.subrange(i as int, s.len() as int),
                pat@,
                rep@,
            ),
        decreases s.len() - i,
    {
        let ghost rest = s@.subrange(i as int, s.len() as int);
        let mut same = pat.len() <= s.len() - i;
        if same {
            let mut k: usize = 0;
            while k < pat.len()
                invariant
                    0 <= k <= pat.len(),
                    i + pat.len() <= s.len(),
                    same == (forall|q: int| 0 <= q < k ==> s@[i + q] == pat@[q]),
                decreases pat.len() - k,
            {
                if s[i + k] != pat[k] {
                    same = false;
                }
                k += 1;
            }
            if same {
                assert(rest.subrange(0, pat.len() as int) =~= pat@);
            } else {
                proof {
                    let q = choose|q: int| 0 <= q < pat.len() && s@[i + q] != pat@[q];
                    assert(rest.subrange(0, pat.len() as int)[q] != pat@[q]);
                }
            }
        }
        if same {
            let ghost before = out@;
            let ghost after = s@.subrange(i + pat.len(), s.len() as int);
            assert(rest.subrange(pat.len() as int, rest.len() as int) =~= after);
            out = concat_chars(out.as_slice(), rep);
            assert(before + (rep@ + replaced(after, pat@, rep@)) =~= out@ + replaced(after, pat@, rep@));
            i += pat.len();
        } else {
            let ghost before = out@;
            let ghost after = s@.subrange(i + 1, s.len() as int);
            assert(rest.drop_first() =~= after);
            out.push(s[i]);
            assert(before + (seq![s@[i as int]] + replaced(after, pat@, rep@)) =~= out@ + replaced(
                after,
                pat@,
                rep@,
            ));
            i += 1;
        }
    }
    assert(s@.subrange(i as int, s.len() as int) =~= Seq::<char>::empty());
    assert(out@ + Seq::<char>::empty() =~= out@);
    out
}

// ---------------------------------------------------------------------------
// Decimal numbers
// ---------------------------------------------------------------------------

pub open spec fn is_digit(c: char) -> bool {
    '0' <= c <= '9'
}

pub open spec fn digit_value(c: char) -> int {
    (c as u32) - ('0' as u32)
}

pub open spec fn digit_char(d: int) -> char {
    (d + ('0' as u32)) as char
}

pub open spec fn all_digits(s: Seq<char>) -> bool {
    forall|i: int| 0 <= i < s.len() ==> is_digit(#[trigger] s[i])
}

/// The value of a run of decimal digits.
pub open spec fn digits_value(s: Seq<char>) -> int
    decreases s.len(),
{
    if s.len() == 0 {
        0
    } else {
        digits_value(s.drop_last()) * 10 + digit_value(s.last())
    }
}

/// The decimal digits of `n`, most significant first, with no leading zeros.
pub open spec fn decimal(n: nat) -> Seq<char>
    decreases n,
{
    if n < 10 {
        seq![digit_char(n as int)]
    } else {
        decimal(n / 10).push(digit_char((n % 10) as int))
    }
}

/// The decimal text of a signed integer, as `Display` writes it.
pub open spec fn signed_decimal(n: int) -> Seq<char> {
    if n < 0 {
        seq!['-'] + decimal((-n) as nat)
    } else {
        decimal(n as nat)
    }
}

/// The decimal text of `n` reads back as `n`.
pub proof fn lemma_decimal_value(n: nat)
    ensures
        decimal(n).len() >= 1,
        all_digits(decimal(n)),
        digits_value(decimal(n)) == n,
    decreases n,
{
    let d = decimal(n);
    let r = (n % 10) as int;
    assert(digit_value(digit_char(r)) == r);
    if n < 10 {
        assert(d.drop_last() =~= Seq::<char>::empty());
        assert(digits_value(d) == digits_value(d.drop_last()) * 10 + digit_value(d.last()));
    } else {
        lemma_decimal_value(n / 10);
        assert(d.drop_last() =~= decimal(n / 10));
        assert(d.last() == digit_char(r));
        assert((n / 10) * 10 + r == n);
        assert(digits_value(d) == digits_value(decimal(n / 10)) * 10 + r);
        assert forall|i: int| 0 <= i < d.len() implies is_digit(#[trigger] d[i]) by {
            if i < d.len() - 1 {
                assert(d[i] == decimal(n / 10)[i]);
            }
        }
    }
}

/// The decimal digits of `n`.
pub fn decimal_chars(n: u128) -> (r: Vec<char>)
    ensures
        r@ == decimal(n as nat),
    decreases n,
{
    if n < 10 {
        let c = char_from_ascii_code((n as u32) + 48);
        let mut r: Vec<char> = Vec::new();
        r.push(c);
        assert(r@ =~= decimal(n as nat));
        r
    } else {
        let mut r = decimal_chars(n / 10);
        let c = char_from_ascii_code(((n % 10) as u32) + 48);
        r.push(c);
        r
    }
}

/// The decimal text of `n`, with a leading `-` when negative.
pub fn signed_decimal_chars(n: i32) -> (r: Vec<char>)
    ensures
        r@ == signed_decimal(n as int),
{
    if n < 0 {
        let m: i64 = -(n as i64);
        let digits = decimal_chars(m as u128);
        let mut r: Vec<char> = Vec::new();
        r.push('-');
        let r = concat_chars(r.as_slice(), digits.as_slice());
        assert(r@ =~= signed_decimal(n as int));
        r
    } else {
        decimal_chars(n as u128)
    }
}

/// The sign and digits of an integer literal, as `FromStr` for integers reads
/// them: an optional `+` (or `-` when `signed`), then one or more ASCII digits.
pub open spec fn parse_int(s: Seq<char>, signed: bool) -> Option<int> {
    let neg = signed && s.len() > 0 && s[0] == '-';
    let body = if s.len() > 0 && (s[0] == '+' || neg) {
        s.drop_first()
    } else {
        s
    };
    if body.len() > 0 && all_digits(body) {
        Some(if neg {
            -digits_value(body)
        } else {
            digits_value(body)
        })
    } else {
        None
    }
}

/// `i32::from_str` (`str::parse::<i32>`): `Some` exactly when `s` is an integer
/// literal whose value fits in an `i32`.
pub open spec fn parse_i32(s: Seq<char>) -> Option<i32> {
    match parse_int(s, true) {
        Some(v) => if i32::MIN <= v <= i32::MAX {
            Some(v as i32)
        } else {
            None
        },
        None => None,
    }
}

/// `usize::from_str` (`str::parse::<usize>`).
pub open spec fn parse_usize(s: Seq<char>) -> Option<usize> {
    match parse_int(s, false) {
        Some(v) => if 0 <= v <= usize::MAX {
            Some(v as usize)
        } else {
            None
        },
        None => None,
    }
}

proof fn lemma_digits_value_nonneg(s: Seq<char>)
    requires
        all_digits(s),
    ensures
        digits_value(s) >= 0,
    decreases s.len(),
{
    if s.len() > 0 {
        assert(is_digit(s[s.len() - 1]));
        lemma_digits_value_nonneg(s.drop_last());
    }
}

/// Once a prefix of digits exceeds `bound`, the whole run does too.
proof fn lemma_digits_value_grows(s: Seq<char>, k: int)
    requires
        all_digits(s),
        0 <= k <= s.len(),
    ensures
        digits_value(s.subrange(0, k)) <= digits_value(s),
    decreases s.len() - k,
{
    if k < s.len() {
        let t = s.drop_last();
        assert forall|i: int| 0 <= i < t.len() implies is_digit(#[trigger] t[i]) by {
            assert(t[i] == s[i]);
        }
        assert(is_digit(s[s.len() - 1]));
        assert(t.subrange(0, k) =~= s.subrange(0, k));
        lemma_digits_value_grows(t, k);
        lemma_digits_value_nonneg(t);
    } else {
        assert(s.subrange(0, k) =~= s);
    }
}

/// Reads an integer literal (see `parse_int`), giving up once the magnitude
/// passes `limit`: the result is the value when its magnitude is at most
/// `limit`, and `None` otherwise.
fn parse_bounded(s: &[char], signed: bool, limit: u128) -> (r: Option<(bool, u128)>)
    requires
        limit <= u64::MAX,
    ensures
        match r {
            Some((neg, m)) => parse_int(s@, signed) == Some(if neg {
                -(m as int)
            } else {
                m as int
            }) && m <= limit && (neg ==> signed),
            None => match parse_int(s@, signed) {
                Some(v) => v > limit || v < -(limit as int),
                None => true,
            },
        },
{
    let neg = signed && s.len() > 0 && s[0] == '-';
    let start: usize = if s.len() > 0 && (s[0] == '+' || neg) {
        1
    } else {
        0
    };
    let ghost body = if s@.len() > 0 && (s@[0] == '+' || neg) {
        s@.drop_first()
    } else {
        s@
    };
    assert(body =~= s@.subrange(start as int, s.len() as int));
    if start >= s.len() {
        return None;
    }
    let mut value: u128 = 0;
    let mut i = start;
    while i < s.len()
        invariant
            start <= i <= s.len(),
            body == s@.subrange(start as int, s.len() as int),
            neg == (signed && s@.len() > 0 && s@[0] == '-'),
            body == (if s@.len() > 0 && (s@[0] == '+' || neg) {
                s@.drop_first()
            } else {
                s@
            }),
            limit <= u64::MAX,
            value <= limit,
            all_digits(body.subrange(0, i - start)),
            value as int == digits_value(body.subrange(0, i - start)),
        decreases s.len() - i,
    {
        let c = s[i];
        if !('0' <= c && c <= '9') {
            assert(!is_digit(body[i - start]));
            assert(!all_digits(body));
            assert(parse_int(s@, signed) is None);
            return None;
        }
        let d = (c as u32 - 48) as u128;
        let next = value * 10 + d;
        let ghost prefix = body.subrange(0, i + 1 - start);
        assert(prefix.drop_last() =~= body.subrange(0, i - start));
        assert(all_digits(prefix)) by {
            assert forall|k: int| 0 <= k < prefix.len() implies is_digit(#[trigger] prefix[k]) by {
                if k < prefix.len() - 1 {
                    assert(prefix[k] == body.subrange(0, i - start)[k]);
                }
            }
        }
        if next > limit {
            // The rest of the literal either is not all digits, or makes the
            // value even larger.
            proof {
                if all_digits(body) {
                    lemma_digits_value_grows(body, i + 1 - start);
                    assert(digits_value(body) > limit);
                    assert(parse_int(s@, signed) is Some);
                }
            }
            return None;
        }
        value = next;
        i += 1;
    }
    assert(body.subrange(0, i - start) =~= body);
    Some((neg, value))
}

/// `str::parse::<i32>` on a character vector.
pub fn parse_i32_chars(s: &[char]) -> (r: Option<i32>)
    ensures
        r == parse_i32(s@),
{
    match parse_bounded(s, true, 0x8000_0000) {
        Some((neg, m)) => {
            if neg {
                Some((-(m as i64)) as i32)
            } else if m <= 0x7fff_ffff {
                Some(m as i32)
            } else {
                None
            }
        },
        None => None,
    }
}

/// `str::parse::<usize>` on a character vector.
pub fn parse_usize_chars(s: &[char]) -> (r: Option<usize>)
    ensures
        r == parse_usize(s@),
{
    match parse_bounded(s, false, usize::MAX as u128) {
        Some((_, m)) => Some(m as usize),
        None => None,
    }
}

// ---------------------------------------------------------------------------
// Lexicographic order (the order of `str` and `String`: byte-wise UTF-8
// comparison, which orders characters by code point)
// ---------------------------------------------------------------------------

/// `a < b` in the order of `String`.
pub open spec fn lex_lt(a: Seq<char>, b: Seq<char>) -> bool
    decreases a.len(),
{
    if a.len() == 0 {
        b.len() > 0
    } else if b.len() == 0 {
        false
    } else if a[0] != b[0] {
        a[0] < b[0]
    } else {
        lex_lt(a.drop_first(), b.drop_first())
    }
}

pub proof fn lemma_lex_irreflexive(a: Seq<char>)
    ensures
        !lex_lt(a, a),
    decreases a.len(),
{
    if a.len() > 0 {
        lemma_lex_irreflexive(a.drop_first());
    }
}

pub proof fn lemma_lex_transitive(a: Seq<char>, b: Seq<char>, c: Seq<char>)
    requires
        lex_lt(a, b),
        lex_lt(b, c),
    ensures
        lex_lt(a, c),
    decreases a.len(),
{
    if a.len() > 0 && b.len() > 0 && c.len() > 0 && a[0] == b[0] && b[0] == c[0] {
        lemma_lex_transitive(a.drop_first(), b.drop_first(), c.drop_first());
    }
}

pub proof fn lemma_lex_total(a: Seq<char>, b: Seq<char>)
    requires
        a != b,
    ensures
        lex_lt(a, b) || lex_lt(b, a),
    decreases a.len(),
{
    if a.len() > 0 && b.len() > 0 && a[0] == b[0] {
        if a.drop_first() == b.drop_first() {
            assert(a =~= seq![a[0]] + a.drop_first());
            assert(b =~= seq![b[0]] + b.drop_first());
        }
        lemma_lex_total(a.drop_first(), b.drop_first());
    } else if a.len() == 0 && b.len() == 0 {
        assert(a =~= b);
    }
}

pub proof fn lemma_lex_asymmetric(a: Seq<char>, b: Seq<char>)
    requires
        lex_lt(a, b),
    ensures
        !lex_lt(b, a),
{
    if lex_lt(b, a) {
        lemma_lex_transitive(a, b, a);
        lemma_lex_irreflexive(a);
    }
}

/// `a < b` in the order of `String`.
pub fn lex_less(a: &[char], b: &[char]) -> (r: bool)
    ensures
        r == lex_lt(a@, b@),
{
    let mut i: usize = 0;
    assert(a@.subrange(0, a.len() as int) =~= a@);
    assert(b@.subrange(0, b.len() as int) =~= b@);
    while i < a.len() && i < b.len() && a[i] == b[i]
        invariant
            0 <= i <= a.len(),
            i <= b.len(),
            forall|k: int| 0 <= k < i ==> a@[k] == b@[k],
            lex_lt(a@, b@) == lex_lt(a@.subrange(i as int, a.len() as int), b@.subrange(i as int, b.len() as int)),
        decreases a.len() - i,
    {
        let ghost sa = a@.subrange(i as int, a.len() as int);
        let ghost sb = b@.subrange(i as int, b.len() as int);
        assert(sa.drop_first() =~= a@.subrange(i + 1, a.len() as int));
        assert(sb.drop_first() =~= b@.subrange(i + 1, b.len() as int));
        i += 1;
    }
    let ghost sa = a@.subrange(i as int, a.len() as int);
    let ghost sb = b@.subrange(i as int, b.len() as int);
    if i == a.len() {
        i < b.len()
    } else if i == b.len() {
        false
    } else {
        assert(sa[0] == a@[i as int] && sb[0] == b@[i as int]);
        a[i] < b[i]
    }
}

/// Strictly increasing in the order of `String`: sorted, with no repeats.
pub open spec fn strictly_sorted(s: Seq<Seq<char>>) -> bool {
    forall|i: int, j: int| 0 <= i < j < s.len() ==> lex_lt(#[trigger] s[i], #[trigger] s[j])
}

/// The distinct values of `s` in increasing order: what `sort` followed by
/// `dedup` leaves.
pub open spec fn sorted_distinct(s: Seq<Seq<char>>) -> Seq<Seq<char>> {
    choose|r: Seq<Seq<char>>| strictly_sorted(r) && r.to_set() == s.to_set()
}

/// A strictly increasing sequence is determined by its set of values.
pub proof fn lemma_strictly_sorted_unique(r1: Seq<Seq<char>>, r2: Seq<Seq<char>>)
    requires
        strictly_sorted(r1),
        strictly_sorted(r2),
        r1.to_set() == r2.to_set(),
    ensures
        r1 == r2,
    decreases r1.len(),
{
    if r1.len() == 0 {
        if r2.len() > 0 {
            assert(r2.to_set().contains(r2[0]));
        }
        assert(r1 =~= r2);
    } else {
        assert(r1.to_set().contains(r1[0]));
        assert(r2.len() > 0);
        assert(r2.to_set().contains(r2[0]));
        let j = choose|j: int| 0 <= j < r2.len() && r2[j] == r1[0];
        let k = choose|k: int| 0 <= k < r1.len() && r1[k] == r2[0];
        if j > 0 {
            assert(lex_lt(r2[0], r2[j]));
            if k > 0 {
                assert(lex_lt(r1[0], r1[k]));
                lemma_lex_asymmetric(r1[0], r1[k]);
            } else {
                lemma_lex_irreflexive(r1[0]);
            }
        }
        assert(r1[0] == r2[0]);
        let t1 = r1.drop_first();
        let t2 = r2.drop_first();
        assert forall|x: Seq<char>| t1.to_set().contains(x) <==> t2.to_set().contains(x) by {
            if t1.to_set().contains(x) {
                let a = choose|a: int| 0 <= a < t1.len() && t1[a] == x;
                assert(r1[a + 1] == x);
                assert(r2.to_set().contains(x));
                let b = choose|b: int| 0 <= b < r2.len() && r2[b] == x;
                if b == 0 {
                    assert(lex_lt(r1[0], r1[a + 1]));
                    lemma_lex_irreflexive(x);
                }
                assert(t2[b - 1] == x);
            }
            if t2.to_set().contains(x) {
                let a = choose|a: int| 0 <= a < t2.len() && t2[a] == x;
                assert(r2[a + 1] == x);
                assert(r1.to_set().contains(x));
                let b = choose|b: int| 0 <= b < r1.len() && r1[b] == x;
                if b == 0 {
                    assert(lex_lt(r2[0], r2[a + 1]));
                    lemma_lex_irreflexive(x);
                }
                assert(t1[b - 1] == x);
            }
        }
        assert(t1.to_set() =~= t2.to_set());
        lemma_strictly_sorted_unique(t1, t2);
        assert(r1 =~= seq![r1[0]] + t1);
        assert(r2 =~= seq![r2[0]] + t2);
    }
}

/// `sorted_distinct` is the strictly increasing sequence of the same values.
pub proof fn lemma_sorted_distinct(r: Seq<Seq<char>>, s: Seq<Seq<char>>)
    requires
        strictly_sorted(r),
        r.to_set() == s.to_set(),
    ensures
        sorted_distinct(s) == r,
{
    let c = sorted_distinct(s);
    assert(strictly_sorted(c) && c.to_set() == s.to_set());
    lemma_strictly_sorted_unique(c, r);
}

/// Pushing a value adds it to the set of values.
pub proof fn lemma_push_to_set<A>(s: Seq<A>, x: A)
    ensures
        s.push(x).to_set() == s.to_set().insert(x),
{
    Seq::lemma_to_set_insert_commutes(s, x);
    assert(s.push(x) =~= s + seq![x]);
}

/// Inserting `x` where it belongs keeps a sequence strictly increasing.
pub proof fn lemma_insert_sorted_at(r: Seq<Seq<char>>, p: int, x: Seq<char>)
    requires
        strictly_sorted(r),
        0 <= p <= r.len(),
        forall|k: int| 0 <= k < p ==> lex_lt(#[trigger] r[k], x),
        p == r.len() || (!lex_lt(r[p], x) && r[p] != x),
    ensures
        strictly_sorted(r.insert(p, x)),
        r.insert(p, x).to_set() == r.to_set().insert(x),
{
    let after = r.insert(p, x);
    if p < r.len() {
        lemma_lex_total(r[p], x);
    }
    assert forall|i: int, j: int| 0 <= i < j < after.len() implies lex_lt(
        #[trigger] after[i],
        #[trigger] after[j],
    ) by {
        if j < p {
            assert(lex_lt(r[i], r[j]));
        } else if j == p {
            assert(lex_lt(r[i], x));
        } else if i == p {
            if j - 1 > p {
                assert(lex_lt(r[p], r[j - 1]));
                lemma_lex_transitive(x, r[p], r[j - 1]);
            }
        } else if i < p {
            assert(lex_lt(r[i], x));
            if j - 1 > p {
                assert(lex_lt(r[p], r[j - 1]));
                lemma_lex_transitive(x, r[p], r[j - 1]);
            }
            lemma_lex_transitive(r[i], x, r[j - 1]);
        } else {
            assert(lex_lt(r[i - 1], r[j - 1]));
        }
    }
    assert forall|y: Seq<char>| after.to_set().contains(y) <==> r.to_set().insert(x).contains(y) by {
        if after.to_set().contains(y) {
            let a = choose|a: int| 0 <= a < after.len() && after[a] == y;
            if a < p {
                assert(r[a] == y);
            } else if a > p {
                assert(r[a - 1] == y);
            }
        }
        if r.to_set().contains(y) {
            let a = choose|a: int| 0 <= a < r.len() && r[a] == y;
            if a < p {
                assert(after[a] == y);
            } else {
                assert(after[a + 1] == y);
            }
        }
        if y == x {
            assert(after[p] == y);
        }
    }
    assert(after.to_set() =~= r.to_set().insert(x));
}

/// The number of leading values of `r` below `x`.
pub open spec fn count_below(r: Seq<Seq<char>>, x: Seq<char>) -> int
    decreases r.len(),
{
    if r.len() > 0 && lex_lt(r[0], x) {
        1 + count_below(r.drop_first(), x)
    } else {
        0
    }
}

proof fn lemma_count_below(r: Seq<Seq<char>>, x: Seq<char>)
    requires
        strictly_sorted(r),
    ensures
        0 <= count_below(r, x) <= r.len(),
        forall|k: int| 0 <= k < count_below(r, x) ==> lex_lt(#[trigger] r[k], x),
        count_below(r, x) == r.len() || !lex_lt(r[count_below(r, x)], x),
    decreases r.len(),
{
    if r.len() > 0 && lex_lt(r[0], x) {
        let t = r.drop_first();
        assert forall|i: int, j: int| 0 <= i < j < t.len() implies lex_lt(
            #[trigger] t[i],
            #[trigger] t[j],
        ) by {
            assert(lex_lt(r[i + 1], r[j + 1]));
        }
        lemma_count_below(t, x);
        assert forall|k: int| 0 <= k < count_below(r, x) implies lex_lt(#[trigger] r[k], x) by {
            if k > 0 {
                assert(r[k] == t[k - 1]);
            }
        }
    }
}

/// Every sequence of strings has a strictly increasing arrangement of its
/// values, so `sorted_distinct` is well defined.
pub proof fn lemma_sorted_distinct_exists(s: Seq<Seq<char>>)
    ensures
        strictly_sorted(sorted_distinct(s)),
        sorted_distinct(s).to_set() == s.to_set(),
    decreases s.len(),
{
    if s.len() == 0 {
        let e = Seq::<Seq<char>>::empty();
        assert(e.to_set() =~= s.to_set());
        assert(strictly_sorted(e));
    } else {
        let init = s.drop_last();
        let x = s.last();
        lemma_sorted_distinct_exists(init);
        let r = sorted_distinct(init);
        lemma_count_below(r, x);
        let p = count_below(r, x);
        assert(s =~= init.push(x));
        lemma_push_to_set(init, x);
        if p < r.len() && r[p] == x {
            assert(r.to_set().contains(x));
            assert(r.to_set().insert(x) =~= r.to_set());
            assert(strictly_sorted(r) && r.to_set() == s.to_set());
        } else {
            lemma_insert_sorted_at(r, p, x);
            let r2 = r.insert(p, x);
            assert(strictly_sorted(r2) && r2.to_set() == s.to_set());
        }
    }
}

/// Inserts `x` into the strictly increasing `v`, unless it is already there.
pub fn insert_sorted(v: &mut Vec<Vec<char>>, x: Vec<char>)
    requires
        strictly_sorted(old(v)@.map_values(|e: Vec<char>| e@)),
    ensures
        strictly_sorted(final(v)@.map_values(|e: Vec<char>| e@)),
        final(v)@.map_values(|e: Vec<char>| e@).to_set() == old(v)@.map_values(
            |e: Vec<char>| e@,
        ).to_set().insert(x@),
{
    let ghost before = v@.map_values(|e: Vec<char>| e@);
    let mut p: usize = 0;
    while p < v.len() && lex_less(v[p].as_slice(), x.as_slice())
        invariant
            0 <= p <= v.len(),
            before == v@.map_values(|e: Vec<char>| e@),
            forall|k: int| 0 <= k < p ==> lex_lt(#[trigger] before[k], x@),
        decreases v.len() - p,
    {
        p += 1;
    }
    if p < v.len() && chars_eq(v[p].as_slice(), x.as_slice()) {
        assert(before.to_set().insert(x@) =~= before.to_set()) by {
            assert(before[p as int] == x@);
        }
        return;
    }
    proof {
        lemma_insert_sorted_at(before, p as int, x@);
    }
    v.insert(p, x);
    assert(v@.map_values(|e: Vec<char>| e@) =~= before.insert(p as int, x@));
}

} // verus!
