//! Character-sequence primitives: the specifications of the `str` operations
//! that the parsers use (search, split, trim, replace), and verified
//! implementations of them over `Vec<char>`.

use vstd::prelude::*;

verus! {

// ---------------------------------------------------------------------------
// Conversions between `str`/`String` and `Vec<char>`
// ---------------------------------------------------------------------------

/// `String::push`: appends one character.
#[verifier::external_body]
pub(crate) fn push_char(s: &mut String, c: char)
    ensures
        final(s)@ == old(s)@.push(c),
{
    s.push(c);
}

/// The characters of `s`, in order.
pub fn chars_of(s: &str) -> (v: Vec<char>)
    ensures
        v@ == s@,
{
    broadcast use vstd::string::axiom_spec_iter;

    let mut v: Vec<char> = Vec::new();
    for c in it: s.chars()
        invariant
            v@ == it.seq().take(it.index()),
            it.seq() == s@,
    {
        v.push(c);
    }
    v
}

/// The string made of the characters `v[from..to]`.
pub fn string_of_range(v: &Vec<char>, from: usize, to: usize) -> (s: String)
    requires
        from <= to <= v.len(),
    ensures
        s@ == v@.subrange(from as int, to as int),
{
    let mut s = String::new();
    let mut i: usize = from;
    while i < to
        invariant
            from <= i <= to <= v.len(),
            s@ == v@.subrange(from as int, i as int),
        decreases to - i,
    {
        push_char(&mut s, v[i]);
        i += 1;
        assert(v@.subrange(from as int, i as int) == v@.subrange(from as int, (i - 1) as int).push(
            v@[i - 1],
        ));
    }
    s
}

/// The string made of all the characters of `v`.
pub fn string_of(v: &Vec<char>) -> (s: String)
    ensures
        s@ == v@,
{
    let s = string_of_range(v, 0, v.len());
    assert(v@.subrange(0, v.len() as int) == v@);
    s
}

/// Appends `v[from..to]` to `out`.
pub fn extend_range(out: &mut Vec<char>, v: &Vec<char>, from: usize, to: usize)
    requires
        from <= to <= v.len(),
    ensures
        final(out)@ == old(out)@ + v@.subrange(from as int, to as int),
{
    let mut i: usize = from;
    while i < to
        invariant
            from <= i <= to <= v.len(),
            out@ == old(out)@ + v@.subrange(from as int, i as int),
        decreases to - i,
    {
        out.push(v[i]);
        i += 1;
        assert(v@.subrange(from as int, i as int) == v@.subrange(from as int, (i - 1) as int).push(
            v@[i - 1],
        ));
    }
}

/// Appends all of `v` to `out`.
pub fn extend_all(out: &mut Vec<char>, v: &Vec<char>)
    ensures
        final(out)@ == old(out)@ + v@,
{
    extend_range(out, v, 0, v.len());
    assert(v@.subrange(0, v.len() as int) == v@);
}

// ---------------------------------------------------------------------------
// Character classes
// ---------------------------------------------------------------------------

/// `char::is_whitespace`: the Unicode `White_Space` property.
pub open spec fn is_ws(c: char) -> bool {
    let u = c as u32;
    (0x9 <= u && u <= 0xD) || u == 0x20 || u == 0x85 || u == 0xA0 || u == 0x1680 || (0x2000 <= u
        && u <= 0x200A) || u == 0x2028 || u == 0x2029 || u == 0x202F || u == 0x205F || u == 0x3000
}

pub fn is_whitespace(c: char) -> (b: bool)
    ensures
        b == is_ws(c),
{
    (c >= '\u{9}' && c <= '\u{D}') || c == ' ' || c == '\u{85}' || c == '\u{A0}' || c
        == '\u{1680}' || (c >= '\u{2000}' && c <= '\u{200A}') || c == '\u{2028}' || c == '\u{2029}'
        || c == '\u{202F}' || c == '\u{205F}' || c == '\u{3000}'
}

/// `char::is_ascii_whitespace`: space, tab, line feed, form feed, carriage return.
pub open spec fn is_ascii_ws(c: char) -> bool {
    c == ' ' || c == '\t' || c == '\n' || c == '\u{C}' || c == '\r'
}

pub open spec fn is_ascii_digit(c: char) -> bool {
    '0' <= c && c <= '9'
}

pub open spec fn is_ascii_alnum(c: char) -> bool {
    ('0' <= c && c <= '9') || ('a' <= c && c <= 'z') || ('A' <= c && c <= 'Z')
}

pub fn is_ascii_alphanumeric(c: char) -> (b: bool)
    ensures
        b == is_ascii_alnum(c),
{
    (c >= '0' && c <= '9') || (c >= 'a' && c <= 'z') || (c >= 'A' && c <= 'Z')
}

/// `char::to_ascii_lowercase`.
pub open spec fn lower_char(c: char) -> char {
    if 'A' <= c && c <= 'Z' {
        ((c as u32) + 32) as char
    } else {
        c
    }
}

/// `str::to_ascii_lowercase`.
pub open spec fn lower(s: Seq<char>) -> Seq<char> {
    s.map_values(|c: char| lower_char(c))
}

/// The small letter of an ASCII capital letter, 32 code points above it.
fn ascii_upper_to_lower(c: char) -> (r: char)
    requires
        'A' <= c && c <= 'Z',
    ensures
        r == lower_char(c),
{
    let b = c as u8;
    (b + 32) as char
}

pub fn to_lower(v: &Vec<char>) -> (r: Vec<char>)
    ensures
        r@ == lower(v@),
{
    let mut r: Vec<char> = Vec::new();
    let mut i: usize = 0;
    while i < v.len()
        invariant
            i <= v.len(),
            r@ == lower(v@.take(i as int)),
        decreases v.len() - i,
    {
        let c = v[i];
        if c >= 'A' && c <= 'Z' {
            r.push(ascii_upper_to_lower(c));
        } else {
            r.push(c);
        }
        i += 1;
        assert(lower(v@.take(i as int)) =~= lower(v@.take((i - 1) as int)).push(lower_char(c)));
    }
    assert(v@.take(v.len() as int) == v@);
    r
}

// ---------------------------------------------------------------------------
// Prefixes, suffixes and search
// ---------------------------------------------------------------------------

pub open spec fn starts_with(s: Seq<char>, p: Seq<char>) -> bool {
    p.len() <= s.len() && s.take(p.len() as int) == p
}

pub open spec fn ends_with(s: Seq<char>, p: Seq<char>) -> bool {
    p.len() <= s.len() && s.skip(s.len() - p.len()) == p
}

/// `p` occurs in `s` at position `i`.
pub open spec fn matches_at(s: Seq<char>, i: int, p: Seq<char>) -> bool {
    0 <= i && i + p.len() <= s.len() && s.subrange(i, i + p.len()) == p
}

/// The first position at or after `i` where `p` occurs in `s` (`str::find` on `s[i..]`).
pub open spec fn find_from(s: Seq<char>, p: Seq<char>, i: int) -> Option<int>
    decreases s.len() + 1 - i,
{
    if i < 0 || i + p.len() > s.len() {
        None
    } else if matches_at(s, i, p) {
        Some(i)
    } else {
        find_from(s, p, i + 1)
    }
}

/// `str::find`.
pub open spec fn find(s: Seq<char>, p: Seq<char>) -> Option<int> {
    find_from(s, p, 0)
}

/// `str::contains`.
pub open spec fn contains(s: Seq<char>, p: Seq<char>) -> bool {
    find(s, p) is Some
}

/// The last position before `end` where `c` occurs in `s` (`str::rfind` on `s[..end]`).
pub open spec fn rfind_char_before(s: Seq<char>, c: char, end: int) -> Option<int>
    decreases end,
{
    if end <= 0 || end > s.len() {
        None
    } else if s[end - 1] == c {
        Some(end - 1)
    } else {
        rfind_char_before(s, c, end - 1)
    }
}

pub proof fn lemma_find_from_props(s: Seq<char>, p: Seq<char>, i: int)
    requires
        0 <= i,
    ensures
        find_from(s, p, i) matches Some(k) ==> i <= k && matches_at(s, k, p) && forall|j: int|
            i <= j < k ==> !matches_at(s, j, p),
        find_from(s, p, i) is None ==> forall|j: int| i <= j ==> !matches_at(s, j, p),
    decreases s.len() + 1 - i,
{
    if i + p.len() > s.len() {
    } else if matches_at(s, i, p) {
    } else {
        lemma_find_from_props(s, p, i + 1);
    }
}

pub proof fn lemma_rfind_props(s: Seq<char>, c: char, end: int)
    requires
        0 <= end <= s.len(),
    ensures
        rfind_char_before(s, c, end) matches Some(k) ==> 0 <= k < end && s[k] == c && forall|j: int|
            k < j < end ==> s[j] != c,
        rfind_char_before(s, c, end) is None ==> forall|j: int| 0 <= j < end ==> s[j] != c,
    decreases end,
{
    if end > 0 && s[end - 1] != c {
        lemma_rfind_props(s, c, end - 1);
    }
}

/// Whether `p` occurs in `s` at `i`.
pub fn matches_at_exec(s: &Vec<char>, i: usize, p: &Vec<char>) -> (b: bool)
    ensures
        b == matches_at(s@, i as int, p@),
{
    if i > s.len() || p.len() > s.len() - i {
        return false;
    }
    let mut k: usize = 0;
    while k < p.len()
        invariant
            i + p.len() <= s.len(),
            k <= p.len(),
            forall|j: int| 0 <= j < k ==> s@[i + j] == p@[j],
        decreases p.len() - k,
    {
        if s[i + k] != p[k] {
            assert(s@.subrange(i as int, i + p.len())[k as int] != p@[k as int]);
            return false;
        }
        k += 1;
    }
    assert(s@.subrange(i as int, i + p.len()) =~= p@);
    true
}

/// `str::find` on `s[from..]`, positions counted from the start of `s`.
pub fn find_from_exec(s: &Vec<char>, p: &Vec<char>, from: usize) -> (r: Option<usize>)
    ensures
        match r {
            Some(k) => find_from(s@, p@, from as int) == Some(k as int),
            None => find_from(s@, p@, from as int) is None,
        },
{
    let mut i: usize = from;
    if i > s.len() || p.len() > s.len() - i {
        return None;
    }
    while p.len() <= s.len() - i
        invariant
            from <= i <= s.len(),
            find_from(s@, p@, from as int) == find_from(s@, p@, i as int),
        decreases s.len() - i,
    {
        if matches_at_exec(s, i, p) {
            return Some(i);
        }
        proof {
            if p.len() == 0 {
                assert(s@.subrange(i as int, i as int) =~= p@);
            }
        }
        i += 1;
    }
    None
}

/// The last position before `end` holding `c`.
pub fn rfind_char_before_exec(s: &Vec<char>, c: char, end: usize) -> (r: Option<usize>)
    requires
        end <= s.len(),
    ensures
        match r {
            Some(k) => rfind_char_before(s@, c, end as int) == Some(k as int),
            None => rfind_char_before(s@, c, end as int) is None,
        },
{
    let mut e: usize = end;
    while e > 0
        invariant
            e <= end <= s.len(),
            rfind_char_before(s@, c, end as int) == rfind_char_before(s@, c, e as int),
        decreases e,
    {
        if s[e - 1] == c {
            return Some(e - 1);
        }
        e -= 1;
    }
    None
}

pub fn starts_with_exec(s: &Vec<char>, p: &Vec<char>) -> (b: bool)
    ensures
        b == starts_with(s@, p@),
{
    let b = matches_at_exec(s, 0, p);
    assert(s@.subrange(0, p@.len() as int) == s@.take(p@.len() as int));
    b
}

pub fn ends_with_exec(s: &Vec<char>, p: &Vec<char>) -> (b: bool)
    ensures
        b == ends_with(s@, p@),
{
    if p.len() > s.len() {
        return false;
    }
    let b = matches_at_exec(s, s.len() - p.len(), p);
    assert(s@.subrange(s.len() - p.len(), s.len() as int) == s@.skip(s.len() - p.len()));
    b
}

// ---------------------------------------------------------------------------
// Trimming
// ---------------------------------------------------------------------------

/// Number of leading whitespace characters of `s[from..]`.
pub open spec fn ws_prefix_end(s: Seq<char>, i: int) -> int
    decreases s.len() - i,
{
    if i < 0 || i >= s.len() {
        i
    } else if is_ws(s[i]) {
        ws_prefix_end(s, i + 1)
    } else {
        i
    }
}

/// Position after the last non-whitespace character of `s[..end]`.
pub open spec fn ws_suffix_start(s: Seq<char>, end: int) -> int
    decreases end,
{
    if end <= 0 || end > s.len() {
        end
    } else if is_ws(s[end - 1]) {
        ws_suffix_start(s, end - 1)
    } else {
        end
    }
}

/// `str::trim_start`.
pub open spec fn trim_start(s: Seq<char>) -> Seq<char> {
    s.skip(ws_prefix_end(s, 0))
}

/// `str::trim_end`.
pub open spec fn trim_end(s: Seq<char>) -> Seq<char> {
    s.take(ws_suffix_start(s, s.len() as int))
}

/// `str::trim`.
pub open spec fn trim(s: Seq<char>) -> Seq<char> {
    trim_end(trim_start(s))
}

pub proof fn lemma_ws_prefix_end(s: Seq<char>, i: int)
    requires
        0 <= i <= s.len(),
    ensures
        i <= ws_prefix_end(s, i) <= s.len(),
        forall|j: int| i <= j < ws_prefix_end(s, i) ==> is_ws(s[j]),
        ws_prefix_end(s, i) < s.len() ==> !is_ws(s[ws_prefix_end(s, i)]),
    decreases s.len() - i,
{
    if i < s.len() && is_ws(s[i]) {
        lemma_ws_prefix_end(s, i + 1);
    }
}

pub proof fn lemma_ws_suffix_start(s: Seq<char>, end: int)
    requires
        0 <= end <= s.len(),
    ensures
        0 <= ws_suffix_start(s, end) <= end,
        forall|j: int| ws_suffix_start(s, end) <= j < end ==> is_ws(s[j]),
        ws_suffix_start(s, end) > 0 ==> !is_ws(s[ws_suffix_start(s, end) - 1]),
    decreases end,
{
    if end > 0 && is_ws(s[end - 1]) {
        lemma_ws_suffix_start(s, end - 1);
    }
}

/// The bounds `(a, b)` such that `s[from..to]` trimmed is `s[a..b]`.
pub fn trim_bounds(s: &Vec<char>, from: usize, to: usize) -> (r: (usize, usize))
    requires
        from <= to <= s.len(),
    ensures
        from <= r.0 <= r.1 <= to,
        s@.subrange(r.0 as int, r.1 as int) == trim(s@.subrange(from as int, to as int)),
{
    let ghost t = s@.subrange(from as int, to as int);
    let mut a: usize = from;
    while a < to && is_whitespace(s[a])
        invariant
            from <= a <= to <= s.len(),
            t == s@.subrange(from as int, to as int),
            ws_prefix_end(t, 0) == ws_prefix_end(t, a - from),
        decreases to - a,
    {
        assert(t[a - from] == s@[a as int]);
        a += 1;
    }
    proof {
        if a < to {
            assert(t[a - from] == s@[a as int]);
        }
        assert(ws_prefix_end(t, (a - from) as int) == (a - from));
    }
    let ghost u = t.skip(a - from);
    assert(u =~= s@.subrange(a as int, to as int));
    let mut b: usize = to;
    while b > a && is_whitespace(s[b - 1])
        invariant
            from <= a <= b <= to <= s.len(),
            u == s@.subrange(a as int, to as int),
            ws_suffix_start(u, u.len() as int) == ws_suffix_start(u, b - a),
        decreases b,
    {
        assert(u[b - a - 1] == s@[b - 1]);
        b -= 1;
    }
    proof {
        if b > a {
            assert(u[b - a - 1] == s@[b - 1]);
        }
        assert(ws_suffix_start(u, (b - a) as int) == (b - a));
        assert(u.take(b - a) =~= s@.subrange(a as int, b as int));
    }
    (a, b)
}

// ---------------------------------------------------------------------------
// Replacing
// ---------------------------------------------------------------------------

/// `str::replace` for a non-empty pattern: every occurrence of `p`, found
/// from left to right without overlap, is replaced with `r`.
pub open spec fn replace_all(s: Seq<char>, p: Seq<char>, r: Seq<char>) -> Seq<char>
    decreases s.len(),
{
    if s.len() == 0 || p.len() == 0 {
        s
    } else if starts_with(s, p) {
        r + replace_all(s.skip(p.len() as int), p, r)
    } else {
        seq![s[0]] + replace_all(s.skip(1), p, r)
    }
}

pub fn replace_all_exec(s: &Vec<char>, p: &Vec<char>, r: &Vec<char>) -> (out: Vec<char>)
    requires
        p.len() > 0,
    ensures
        out@ == replace_all(s@, p@, r@),
{
    let mut out: Vec<char> = Vec::new();
    let mut i: usize = 0;
    assert(s@.skip(0) =~= s@);
    while i < s.len()
        invariant
            i <= s.len(),
            p.len() > 0,
            replace_all(s@, p@, r@) == out@ + replace_all(s@.skip(i as int), p@, r@),
        decreases s.len() - i,
    {
        let ghost rest = s@.skip(i as int);
        if matches_at_exec(s, i, p) {
            assert(rest.take(p.len() as int) =~= s@.subrange(i as int, i + p.len()));
            assert(rest.skip(p.len() as int) =~= s@.skip(i + p.len()));
            extend_all(&mut out, r);
            i += p.len();
        } else {
            proof {
                if p.len() <= rest.len() {
                    assert(rest.take(p.len() as int) =~= s@.subrange(i as int, i + p.len()));
                }
            }
            assert(rest.skip(1) =~= s@.skip(i + 1));
            out.push(s[i]);
            i += 1;
        }
    }
    assert(s@.skip(i as int).len() == 0);
    out
}

// ---------------------------------------------------------------------------
// Splitting
// ---------------------------------------------------------------------------

/// First position at or after `i` holding `c`, or `s.len()`.
pub open spec fn index_of_from(s: Seq<char>, c: char, i: int) -> int
    decreases s.len() - i,
{
    if i < 0 || i >= s.len() {
        s.len() as int
    } else if s[i] == c {
        i
    } else {
        index_of_from(s, c, i + 1)
    }
}

pub proof fn lemma_index_of_from(s: Seq<char>, c: char, i: int)
    requires
        0 <= i <= s.len(),
    ensures
        i <= index_of_from(s, c, i) <= s.len(),
        forall|j: int| i <= j < index_of_from(s, c, i) ==> s[j] != c,
        index_of_from(s, c, i) < s.len() ==> s[index_of_from(s, c, i)] == c,
    decreases s.len() - i,
{
    if i < s.len() && s[i] != c {
        lemma_index_of_from(s, c, i + 1);
    }
}

pub fn index_of_from_exec(s: &Vec<char>, c: char, from: usize) -> (r: usize)
    requires
        from <= s.len(),
    ensures
        r == index_of_from(s@, c, from as int),
        from <= r <= s.len(),
{
    proof {
        lemma_index_of_from(s@, c, from as int);
    }
    let mut i: usize = from;
    while i < s.len() && s[i] != c
        invariant
            from <= i <= s.len(),
            index_of_from(s@, c, from as int) == index_of_from(s@, c, i as int),
        decreases s.len() - i,
    {
        i += 1;
    }
    i
}

/// First position at or after `i` holding a whitespace character, or `s.len()`.
pub open spec fn ws_index_from(s: Seq<char>, i: int) -> int
    decreases s.len() - i,
{
    if i < 0 || i >= s.len() {
        s.len() as int
    } else if is_ws(s[i]) {
        i
    } else {
        ws_index_from(s, i + 1)
    }
}

pub proof fn lemma_ws_index_from(s: Seq<char>, i: int)
    requires
        0 <= i <= s.len(),
    ensures
        i <= ws_index_from(s, i) <= s.len(),
        forall|j: int| i <= j < ws_index_from(s, i) ==> !is_ws(s[j]),
        ws_index_from(s, i) < s.len() ==> is_ws(s[ws_index_from(s, i)]),
    decreases s.len() - i,
{
    if i < s.len() && !is_ws(s[i]) {
        lemma_ws_index_from(s, i + 1);
    }
}

pub fn ws_index_from_exec(s: &Vec<char>, from: usize) -> (r: usize)
    requires
        from <= s.len(),
    ensures
        r == ws_index_from(s@, from as int),
        from <= r <= s.len(),
{
    proof {
        lemma_ws_index_from(s@, from as int);
    }
    let mut i: usize = from;
    while i < s.len() && !is_whitespace(s[i])
        invariant
            from <= i <= s.len(),
            ws_index_from(s@, from as int) == ws_index_from(s@, i as int),
        decreases s.len() - i,
    {
        i += 1;
    }
    i
}

/// Drops one trailing carriage return.
pub open spec fn strip_cr(l: Seq<char>) -> Seq<char> {
    if l.len() > 0 && l.last() == '\r' {
        l.drop_last()
    } else {
        l
    }
}

/// `str::lines`: pieces between line feeds, each without a trailing `"\r"`
/// before its line feed; a final line feed ends no extra empty line.
pub open spec fn lines(s: Seq<char>) -> Seq<Seq<char>>
    decreases s.len(),
{
    if s.len() == 0 {
        seq![]
    } else {
        let j = index_of_from(s, '\n', 0);
        if j >= s.len() || j < 0 {
            seq![s]
        } else {
            seq![strip_cr(s.take(j))] + lines(s.skip(j + 1))
        }
    }
}

/// `str::split_inclusive(char::is_whitespace)`: each piece ends with its
/// whitespace character, but the last one, which may have none.
pub open spec fn split_inclusive_ws(s: Seq<char>) -> Seq<Seq<char>>
    decreases s.len(),
{
    if s.len() == 0 {
        seq![]
    } else {
        let j = ws_index_from(s, 0);
        if j >= s.len() || j < 0 {
            seq![s]
        } else {
            seq![s.take(j + 1)] + split_inclusive_ws(s.skip(j + 1))
        }
    }
}

/// `str::split_whitespace`: the maximal runs of non-whitespace characters.
pub open spec fn split_ws(s: Seq<char>) -> Seq<Seq<char>>
    decreases s.len(),
{
    if s.len() == 0 {
        seq![]
    } else if is_ws(s[0]) {
        split_ws(s.skip(1))
    } else {
        let j = ws_index_from(s, 0);
        if j <= 0 || j > s.len() {
            seq![s]
        } else {
            seq![s.take(j)] + split_ws(s.skip(j))
        }
    }
}

/// A line of `s` as a range of positions.
pub struct Span {
    pub start: usize,
    pub end: usize,
}

/// The pieces of `s[from..]` as ranges, relative to `s`.
pub open spec fn spans_view(s: Seq<char>, v: Seq<Span>) -> Seq<Seq<char>> {
    v.map_values(|sp: Span| s.subrange(sp.start as int, sp.end as int))
}

pub open spec fn spans_in_bounds(s: Seq<char>, v: Seq<Span>) -> bool {
    forall|k: int| 0 <= k < v.len() ==> (#[trigger] v[k]).start <= v[k].end <= s.len()
}

/// The lines of `s`, as position ranges.
pub fn line_spans(s: &Vec<char>) -> (r: Vec<Span>)
    ensures
        spans_in_bounds(s@, r@),
        spans_view(s@, r@) == lines(s@),
{
    let mut r: Vec<Span> = Vec::new();
    let mut i: usize = 0;
    assert(s@.skip(0) =~= s@);
    assert(spans_view(s@, r@) + lines(s@) =~= lines(s@));
    while i < s.len()
        invariant
            i <= s.len(),
            spans_in_bounds(s@, r@),
            lines(s@) == spans_view(s@, r@) + lines(s@.skip(i as int)),
        decreases s.len() - i,
    {
        let ghost rest = s@.skip(i as int);
        let j = index_of_from_exec(s, '\n', i);
        proof {
            lemma_index_of_from(s@, '\n', i as int);
            lemma_index_of_from(rest, '\n', 0);
            assert forall|k: int| 0 <= k < j - i implies rest[k] != '\n' by {
                assert(rest[k] == s@[i + k]);
            }
            if j < s.len() {
                assert(rest[j - i] == '\n');
            }
            if index_of_from(rest, '\n', 0) < j - i {
                assert(rest[index_of_from(rest, '\n', 0)] == s@[i + index_of_from(rest, '\n', 0)]);
            }
            assert(index_of_from(rest, '\n', 0) == j - i);
        }
        if j == s.len() {
            r.push(Span { start: i, end: s.len() });
            proof {
                assert(rest =~= s@.subrange(i as int, s.len() as int));
                assert(s@.skip(s.len() as int).len() == 0);
                assert(spans_view(s@, r@) =~= spans_view(s@, r@.drop_last()).push(rest));
            }
            i = s.len();
        } else {
            let end = if j > i && s[j - 1] == '\r' {
                j - 1
            } else {
                j
            };
            r.push(Span { start: i, end: end });
            proof {
                assert(rest.take(j - i) =~= s@.subrange(i as int, j as int));
                assert(strip_cr(rest.take(j - i)) =~= s@.subrange(i as int, end as int));
                assert(rest.skip(j - i + 1) =~= s@.skip(j + 1));
                assert(spans_view(s@, r@) =~= spans_view(s@, r@.drop_last()).push(
                    s@.subrange(i as int, end as int),
                ));
            }
            i = j + 1;
        }
    }
    proof {
        assert(s@.skip(i as int).len() == 0);
        assert(spans_view(s@, r@) + seq![] =~= spans_view(s@, r@));
    }
    r
}

// ---------------------------------------------------------------------------
// Numbers
// ---------------------------------------------------------------------------

/// The value of an ASCII digit in base `radix` (`char::to_digit`).
pub open spec fn digit_value(c: char, radix: nat) -> Option<nat> {
    let d: int = if '0' <= c && c <= '9' {
        c as int - '0' as int
    } else if 'a' <= c && c <= 'z' {
        c as int - 'a' as int + 10
    } else if 'A' <= c && c <= 'Z' {
        c as int - 'A' as int + 10
    } else {
        99
    };
    if d < radix {
        Some(d as nat)
    } else {
        None
    }
}

/// The value of a string of digits in base `radix`, if every character is one.
pub open spec fn digits_value(s: Seq<char>, radix: nat) -> Option<nat>
    decreases s.len(),
{
    if s.len() == 0 {
        Some(0)
    } else {
        match (digits_value(s.drop_last(), radix), digit_value(s.last(), radix)) {
            (Some(v), Some(d)) => Some(v * radix + d),
            _ => None,
        }
    }
}

/// `u64::from_str_radix` with the result bounded by `max`, for unsigned
/// integer types: an optional `+`, then at least one digit.
pub open spec fn parse_unsigned(s: Seq<char>, radix: nat, max: nat) -> Option<nat> {
    if s.len() == 0 {
        None
    } else {
        let digits = if s[0] == '+' {
            s.skip(1)
        } else {
            s
        };
        if digits.len() == 0 {
            None
        } else {
            match digits_value(digits, radix) {
                Some(v) => if v <= max {
                    Some(v)
                } else {
                    None
                },
                None => None,
            }
        }
    }
}

/// `i64::from_str`: an optional sign, then at least one decimal digit, in range.
pub open spec fn parse_i64(s: Seq<char>) -> Option<i64> {
    if s.len() == 0 {
        None
    } else if s[0] == '-' {
        if s.len() == 1 {
            None
        } else {
            match digits_value(s.skip(1), 10) {
                Some(v) => if v <= 0x8000_0000_0000_0000 {
                    Some((0 - v) as i64)
                } else {
                    None
                },
                None => None,
            }
        }
    } else {
        match parse_unsigned(s, 10, 0x7fff_ffff_ffff_ffff) {
            Some(v) => Some(v as i64),
            None => None,
        }
    }
}

pub proof fn lemma_digits_value_take(s: Seq<char>, radix: nat, i: int)
    requires
        0 <= i < s.len(),
    ensures
        s.take(i + 1).drop_last() == s.take(i),
        s.take(i + 1).last() == s[i],
{
    assert(s.take(i + 1).drop_last() =~= s.take(i));
}

/// Value of the digit `c` in base `radix`.
pub fn digit_value_exec(c: char, radix: u32) -> (r: Option<u32>)
    requires
        2 <= radix <= 36,
    ensures
        match r {
            Some(d) => digit_value(c, radix as nat) == Some(d as nat),
            None => digit_value(c, radix as nat) is None,
        },
{
    let d: u32 = if c >= '0' && c <= '9' {
        (c as u32) - ('0' as u32)
    } else if c >= 'a' && c <= 'z' {
        (c as u32) - ('a' as u32) + 10
    } else if c >= 'A' && c <= 'Z' {
        (c as u32) - ('A' as u32) + 10
    } else {
        99
    };
    if d < radix {
        Some(d)
    } else {
        None
    }
}

proof fn lemma_digits_monotone(s: Seq<char>, radix: nat, i: int, j: int)
    requires
        radix >= 1,
        0 <= i <= j <= s.len(),
        digits_value(s.take(j), radix) is Some,
    ensures
        digits_value(s.take(i), radix) is Some,
        digits_value(s.take(i), radix)->0 <= digits_value(s.take(j), radix)->0,
    decreases j - i,
{
    if i < j {
        let t = s.take(j);
        assert(t.drop_last() =~= s.take(j - 1));
        let v = digits_value(s.take(j - 1), radix)->0;
        let d = digit_value(t.last(), radix)->0;
        assert(v * radix + d >= v) by (nonlinear_arith)
            requires
                radix >= 1,
        ;
        lemma_digits_monotone(s, radix, i, j - 1);
    }
}

/// Parses `s[from..to]` as an unsigned integer (`from_str_radix`), bounded by `max`.
pub fn parse_unsigned_exec(s: &Vec<char>, from: usize, to: usize, radix: u32, max: u64) -> (r:
    Option<u64>)
    requires
        from <= to <= s.len(),
        2 <= radix <= 36,
    ensures
        match r {
            Some(v) => parse_unsigned(s@.subrange(from as int, to as int), radix as nat, max as nat)
                == Some(v as nat),
            None => parse_unsigned(s@.subrange(from as int, to as int), radix as nat, max as nat) is None,
        },
{
    let ghost t = s@.subrange(from as int, to as int);
    if from == to {
        return None;
    }
    let start = if s[from] == '+' {
        from + 1
    } else {
        from
    };
    let ghost digits = if t[0] == '+' {
        t.skip(1)
    } else {
        t
    };
    assert(digits =~= s@.subrange(start as int, to as int));
    if start == to {
        return None;
    }
    let mut v: u64 = 0;
    let mut i: usize = start;
    while i < to
        invariant
            start <= i <= to <= s.len(),
            2 <= radix <= 36,
            t == s@.subrange(from as int, to as int),
            t.len() > 0,
            digits == (if t[0] == '+' {
                t.skip(1)
            } else {
                t
            }),
            digits.len() > 0,
            digits == s@.subrange(start as int, to as int),
            digits_value(digits.take(i - start), radix as nat) == Some(v as nat),
            v <= max,
        decreases to - i,
    {
        let c = s[i];
        proof {
            lemma_digits_value_take(digits, radix as nat, i - start);
            assert(digits[i - start] == c);
        }
        match digit_value_exec(c, radix) {
            None => {
                proof {
                    // no longer a number: every longer prefix fails too
                    assert(digits_value(digits.take(i - start + 1), radix as nat) is None);
                    assert(digits.take(digits.len() as int) =~= digits);
                    if digits_value(digits, radix as nat) is Some {
                        lemma_digits_monotone(digits, radix as nat, i - start + 1, digits.len() as int);
                    }
                }
                return None;
            },
            Some(d) => {
                let ok = (d as u64) <= max && v <= (max - d as u64) / (radix as u64);
                if !ok {
                    proof {
                        let vi = v as int;
                        let ri = radix as int;
                        let di = d as int;
                        let mi = max as int;
                        assert(vi * ri + di > mi) by (nonlinear_arith)
                            requires
                                di > mi || vi > (mi - di) / ri,
                                ri >= 2,
                                vi >= 0,
                                di >= 0,
                        ;
                        assert(digits.take(digits.len() as int) =~= digits);
                        if digits_value(digits, radix as nat) is Some {
                            lemma_digits_monotone(digits, radix as nat, i - start + 1, digits.len() as int);
                        }
                    }
                    return None;
                }
                proof {
                    let vi = v as int;
                    let ri = radix as int;
                    let di = d as int;
                    let mi = max as int;
                    assert(vi * ri + di <= mi) by (nonlinear_arith)
                        requires
                            vi <= (mi - di) / ri,
                            ri >= 2,
                            di <= mi,
                    ;
                }
                v = v * (radix as u64) + d as u64;
                i += 1;
            },
        }
    }
    assert(digits.take(digits.len() as int) =~= digits);
    Some(v)
}

/// Decimal digits of `n` (`usize::to_string`).
pub open spec fn decimal(n: nat) -> Seq<char>
    decreases n,
{
    if n < 10 {
        seq![digit_char(n)]
    } else {
        decimal(n / 10) + seq![digit_char(n % 10)]
    }
}

pub open spec fn digit_char(d: nat) -> char {
    ('0' as nat + d) as char
}

/// The character of a decimal digit.
fn digit_to_char(d: u64) -> (c: char)
    requires
        d < 10,
    ensures
        c == digit_char(d as nat),
{
    let b = d as u8;
    (48u8 + b) as char
}

/// Decimal text of `n`.
pub fn decimal_exec(n: u64) -> (r: Vec<char>)
    ensures
        r@ == decimal(n as nat),
    decreases n,
{
    if n < 10 {
        let mut r: Vec<char> = Vec::new();
        r.push(digit_to_char(n));
        assert(r@ =~= seq![digit_char(n as nat)]);
        r
    } else {
        let mut r = decimal_exec(n / 10);
        r.push(digit_to_char(n % 10));
        r
    }
}

} // verus!

verus! {

/// `str::split(sep)`: the pieces between separators, empty ones included.
pub open spec fn split_char(s: Seq<char>, sep: char) -> Seq<Seq<char>>
    decreases s.len(),
{
    let j = index_of_from(s, sep, 0);
    if j >= s.len() || j < 0 {
        seq![s]
    } else {
        seq![s.take(j)] + split_char(s.skip(j + 1), sep)
    }
}

/// The pieces of `v[from..to]` split at `sep`, as ranges of `v`.
pub fn split_char_spans(v: &Vec<char>, from: usize, to: usize, sep: char) -> (r: Vec<Span>)
    requires
        from <= to <= v.len(),
    ensures
        spans_in_bounds(v@, r@),
        r@.len() >= 1,
        spans_view(v@, r@) == split_char(v@.subrange(from as int, to as int), sep),
{
    let mut r: Vec<Span> = Vec::new();
    let mut i: usize = from;
    let ghost whole = v@.subrange(from as int, to as int);
    assert(spans_view(v@, r@) + split_char(whole, sep) =~= split_char(whole, sep));
    loop
        invariant
            from <= i <= to <= v.len(),
            whole == v@.subrange(from as int, to as int),
            spans_in_bounds(v@, r@),
            split_char(whole, sep) == spans_view(v@, r@) + split_char(
                v@.subrange(i as int, to as int),
                sep,
            ),
        decreases to - i,
    {
        let ghost rest = v@.subrange(i as int, to as int);
        let mut j: usize = i;
        while j < to && v[j] != sep
            invariant
                i <= j <= to <= v.len(),
                forall|q: int| i <= q < j ==> v@[q] != sep,
            decreases to - j,
        {
            j += 1;
        }
        proof {
            lemma_index_of_from(rest, sep, 0);
            let w = index_of_from(rest, sep, 0);
            if w < j - i {
                assert(rest[w] == v@[i + w]);
            }
            if j < to {
                assert(rest[j - i] == v@[j as int]);
            }
            assert(w == j - i);
        }
        if j == to {
            r.push(Span { start: i, end: to });
            proof {
                assert(spans_view(v@, r@) =~= spans_view(v@, r@.drop_last()).push(rest));
                assert(spans_view(v@, r@) =~= spans_view(v@, r@.drop_last()) + split_char(rest, sep));
            }
            return r;
        } else {
            r.push(Span { start: i, end: j });
            proof {
                assert(rest.take(j - i) =~= v@.subrange(i as int, j as int));
                assert(rest.skip(j - i + 1) =~= v@.subrange(j + 1, to as int));
                assert(spans_view(v@, r@) =~= spans_view(v@, r@.drop_last()).push(
                    v@.subrange(i as int, j as int),
                ));
            }
            i = j + 1;
        }
    }
}

/// Position where the trailing whitespace of `v[from..to]` begins.
pub fn trim_end_bound(v: &Vec<char>, from: usize, to: usize) -> (r: usize)
    requires
        from <= to <= v.len(),
    ensures
        from <= r <= to,
        v@.subrange(from as int, r as int) == trim_end(v@.subrange(from as int, to as int)),
{
    let ghost u = v@.subrange(from as int, to as int);
    let mut b: usize = to;
    while b > from && is_whitespace(v[b - 1])
        invariant
            from <= b <= to <= v.len(),
            u == v@.subrange(from as int, to as int),
            ws_suffix_start(u, u.len() as int) == ws_suffix_start(u, b - from),
        decreases b,
    {
        assert(u[b - from - 1] == v@[b - 1]);
        b -= 1;
    }
    proof {
        if b > from {
            assert(u[b - from - 1] == v@[b - 1]);
        }
        assert(ws_suffix_start(u, (b - from) as int) == (b - from));
        assert(u.take(b - from) =~= v@.subrange(from as int, b as int));
    }
    b
}

/// `v[from..to]` as a vector.
pub fn slice_vec(v: &Vec<char>, from: usize, to: usize) -> (r: Vec<char>)
    requires
        from <= to <= v.len(),
    ensures
        r@ == v@.subrange(from as int, to as int),
{
    let mut r: Vec<char> = Vec::new();
    extend_range(&mut r, v, from, to);
    r
}

/// Whether `p` occurs in `v`.
pub fn contains_exec(v: &Vec<char>, p: &Vec<char>) -> (b: bool)
    ensures
        b == contains(v@, p@),
{
    find_from_exec(v, p, 0).is_some()
}

} // verus!
