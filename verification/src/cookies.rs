//! Cookies kept for posting: reading `Set-Cookie` values, merging them into
//! a board's jar, writing the `Cookie` header; and reading hidden form
//! fields out of a confirmation page.

use vstd::prelude::*;
use crate::textseq::{
    chars_of, extend_all, extend_range, find, find_from, find_from_exec, index_of_from,
    index_of_from_exec, is_ascii_ws, lemma_find_from_props, lemma_index_of_from, lower,
    matches_at, rfind_char_before, rfind_char_before_exec, lemma_rfind_props, slice_vec,
    starts_with, string_of, string_of_range, to_lower, trim, trim_bounds,
};
use crate::strmap::{keys_of, lookup_in, StrMap};

verus! {

/// The first piece of a `Set-Cookie` value (up to its first `;`).
pub open spec fn cookie_first(raw: Seq<char>) -> Seq<char> {
    trim(raw.take(index_of_from(raw, ';', 0)))
}

/// The name and value of a `Set-Cookie` value: its first piece split at its
/// first `=`, both sides trimmed; none without `=` or with an empty name.
pub open spec fn cookie_pair(raw: Seq<char>) -> Option<(Seq<char>, Seq<char>)> {
    let first = cookie_first(raw);
    let eq = index_of_from(first, '=', 0);
    if eq >= first.len() {
        None
    } else {
        let name = trim(first.take(eq));
        if name.len() == 0 {
            None
        } else {
            Some((name, trim(first.skip(eq + 1))))
        }
    }
}

pub fn parse_set_cookie_pair(raw: &str) -> (r: Option<(String, String)>)
    ensures
        match r {
            Some((n, v)) => cookie_pair(raw@) == Some((n@, v@)),
            None => cookie_pair(raw@) is None,
        },
{
    let v = chars_of(raw);
    let semi = index_of_from_exec(&v, ';', 0);
    let (a, b) = trim_bounds(&v, 0, semi);
    assert(v@.subrange(0, semi as int) =~= v@.take(semi as int));
    let first = slice_vec(&v, a, b);
    let eq = index_of_from_exec(&first, '=', 0);
    if eq == first.len() {
        return None;
    }
    let (n0, n1) = trim_bounds(&first, 0, eq);
    assert(first@.subrange(0, eq as int) =~= first@.take(eq as int));
    if n0 == n1 {
        return None;
    }
    let (v0, v1) = trim_bounds(&first, eq + 1, first.len());
    assert(first@.subrange(eq + 1, first.len() as int) =~= first@.skip(eq + 1));
    Some((string_of_range(&first, n0, n1), string_of_range(&first, v0, v1)))
}

/// A cookie that is never kept: `TAKO`, `BAN` or `__cfduid`, in any ASCII case.
pub open spec fn cookie_dropped(name: Seq<char>) -> bool {
    let l = lower(name);
    l == seq!['t', 'a', 'k', 'o'] || l == seq!['b', 'a', 'n'] || l == seq![
        '_',
        '_',
        'c',
        'f',
        'd',
        'u',
        'i',
        'd',
    ]
}

/// The pair a `Set-Cookie` value contributes to the jar, if any.
pub open spec fn kept_cookie(raw: Seq<char>) -> Option<(Seq<char>, Seq<char>)> {
    match cookie_pair(raw) {
        Some((n, v)) => if cookie_dropped(n) {
            None
        } else {
            Some((n, v))
        },
        None => None,
    }
}

/// The value the last of `vals` that sets cookie `q` gives it.
pub open spec fn last_set_value(vals: Seq<Seq<char>>, q: Seq<char>) -> Option<Seq<char>>
    decreases vals.len(),
{
    if vals.len() == 0 {
        None
    } else {
        match kept_cookie(vals.last()) {
            Some((n, v)) => if n == q {
                Some(v)
            } else {
                last_set_value(vals.drop_last(), q)
            },
            None => last_set_value(vals.drop_last(), q),
        }
    }
}

pub open spec fn opt_str_view(o: Option<String>) -> Option<Seq<char>> {
    match o {
        Some(s) => Some(s@),
        None => None,
    }
}

fn cookie_dropped_exec(name: &Vec<char>) -> (b: bool)
    ensures
        b == cookie_dropped(name@),
{
    let l = to_lower(name);
    let tako = vec!['t', 'a', 'k', 'o'];
    let ban = vec!['b', 'a', 'n'];
    let cf = vec!['_', '_', 'c', 'f', 'd', 'u', 'i', 'd'];
    assert(tako@ =~= seq!['t', 'a', 'k', 'o'] && ban@ =~= seq!['b', 'a', 'n'] && cf@ =~= seq![
        '_',
        '_',
        'c',
        'f',
        'd',
        'u',
        'i',
        'd',
    ]);
    crate::strmap::eq_chars(&l, &tako) || crate::strmap::eq_chars(&l, &ban)
        || crate::strmap::eq_chars(&l, &cf)
}

/// Merges `Set-Cookie` values into a jar, later values winning; values
/// without a usable pair, and the cookies `TAKO`, `BAN` and `__cfduid`, are
/// not kept.
pub fn merge_set_cookie_values(cookies: &mut StrMap<String>, set_cookie_values: &[String])
    requires
        old(cookies).wf(),
    ensures
        final(cookies).wf(),
        forall|q: Seq<char>| #[trigger]
            opt_str_view(final(cookies).lookup(q)) == match last_set_value(
                set_cookie_values@.map_values(|s: String| s@),
                q,
            ) {
                Some(v) => Some(v),
                None => opt_str_view(old(cookies).lookup(q)),
            },
        forall|q: Seq<char>| #[trigger]
            final(cookies).has(q) <==> (old(cookies).has(q) || last_set_value(
                set_cookie_values@.map_values(|s: String| s@),
                q,
            ) is Some),
{
    let ghost vals = set_cookie_values@.map_values(|s: String| s@);
    let mut i: usize = 0;
    while i < set_cookie_values.len()
        invariant
            i <= set_cookie_values@.len(),
            vals == set_cookie_values@.map_values(|s: String| s@),
            cookies.wf(),
            forall|q: Seq<char>| #[trigger]
                opt_str_view(cookies.lookup(q)) == match last_set_value(vals.take(i as int), q) {
                    Some(v) => Some(v),
                    None => opt_str_view(old(cookies).lookup(q)),
                },
            forall|q: Seq<char>| #[trigger]
                cookies.has(q) <==> (old(cookies).has(q) || last_set_value(vals.take(i as int), q) is Some),
        decreases set_cookie_values.len() - i,
    {
        let ghost prefix = vals.take(i + 1);
        assert(prefix.drop_last() =~= vals.take(i as int));
        assert(prefix.last() == set_cookie_values@[i as int]@);
        match parse_set_cookie_pair(set_cookie_values[i].as_str()) {
            Some((name, value)) => {
                let nv = chars_of(name.as_str());
                if !cookie_dropped_exec(&nv) {
                    cookies.insert(name, value);
                }
            },
            None => {},
        }
        i += 1;
    }
    assert(vals.take(set_cookie_values.len() as int) =~= vals);
}

/// The board's cookie jar to keep after a post whose reply set the
/// cookies `set_cookie_values`: `None` (nothing to keep) when the reply set
/// none, else the jar with them merged in.
pub fn jar_after_post(jar: StrMap<String>, set_cookie_values: &[String]) -> (r: Option<StrMap<String>>)
    requires
        jar.wf(),
    ensures
        r is None <==> set_cookie_values@.len() == 0,
        r matches Some(m) ==> {
            &&& m.wf()
            &&& forall|q: Seq<char>| #[trigger]
                opt_str_view(m.lookup(q)) == match last_set_value(
                    set_cookie_values@.map_values(|s: String| s@),
                    q,
                ) {
                    Some(v) => Some(v),
                    None => opt_str_view(jar.lookup(q)),
                }
            &&& forall|q: Seq<char>| #[trigger]
                m.has(q) <==> (jar.has(q) || last_set_value(
                    set_cookie_values@.map_values(|s: String| s@),
                    q,
                ) is Some)
        },
{
    if set_cookie_values.len() == 0 {
        return None;
    }
    let mut m = jar;
    merge_set_cookie_values(&mut m, set_cookie_values);
    Some(m)
}

/// `k=v` for each cookie in key order, joined with `; `.
pub open spec fn header_of(e: Seq<(String, String)>) -> Seq<char>
    decreases e.len(),
{
    if e.len() == 0 {
        seq![]
    } else if e.len() == 1 {
        e[0].0@ + seq!['='] + e[0].1@
    } else {
        header_of(e.drop_last()) + seq![';', ' '] + e.last().0@ + seq!['='] + e.last().1@
    }
}

/// The `Cookie` header for a jar, or none for an empty jar.
pub fn build_cookie_header(cookies: &StrMap<String>) -> (r: Option<String>)
    ensures
        cookies.entries_view().len() == 0 <==> r is None,
        r matches Some(h) ==> h@ == header_of(cookies.entries_view()),
{
    let e = cookies.entries();
    if e.len() == 0 {
        return None;
    }
    let mut out: Vec<char> = Vec::new();
    let mut i: usize = 0;
    while i < e.len()
        invariant
            i <= e@.len(),
            e@ == cookies.entries_view(),
            e@.len() > 0,
            out@ == header_of(e@.take(i as int)),
        decreases e.len() - i,
    {
        let ghost pre = e@.take(i + 1);
        assert(pre.drop_last() =~= e@.take(i as int));
        if i > 0 {
            out.push(';');
            out.push(' ');
        }
        let k = chars_of(e[i].0.as_str());
        let v = chars_of(e[i].1.as_str());
        extend_all(&mut out, &k);
        out.push('=');
        extend_all(&mut out, &v);
        i += 1;
        proof {
            if i == 1 {
                assert(out@ =~= header_of(pre));
            } else {
                assert(out@ =~= header_of(pre));
            }
        }
    }
    assert(e@.take(e.len() as int) =~= e@);
    Some(string_of(&out))
}

// ---------------------------------------------------------------------------
// Hidden form fields
// ---------------------------------------------------------------------------

pub open spec fn lit_value_eq() -> Seq<char> {
    seq!['v', 'a', 'l', 'u', 'e', '=']
}

/// First position at or after `i` holding ASCII whitespace or `>`, or the end.
pub open spec fn value_end_from(s: Seq<char>, i: int) -> int
    decreases s.len() - i,
{
    if i < 0 || i >= s.len() {
        s.len() as int
    } else if is_ascii_ws(s[i]) || s[i] == '>' {
        i
    } else {
        value_end_from(s, i + 1)
    }
}

/// The `value=` of a tag: a quoted value up to its closing quote (none when
/// the quote is not closed), or an unquoted one up to whitespace or `>`.
pub open spec fn tag_value(tag: Seq<char>) -> Option<Seq<char>> {
    match find(tag, lit_value_eq()) {
        None => None,
        Some(vp) => {
            let part = tag.skip(vp + 6);
            if part.len() > 0 && part[0] == '"' {
                let rest = part.skip(1);
                let e = index_of_from(rest, '"', 0);
                if e < rest.len() {
                    Some(rest.take(e))
                } else {
                    None
                }
            } else if part.len() > 0 && part[0] == '\'' {
                let rest = part.skip(1);
                let e = index_of_from(rest, '\'', 0);
                if e < rest.len() {
                    Some(rest.take(e))
                } else {
                    None
                }
            } else {
                Some(part.take(value_end_from(part, 0)))
            }
        },
    }
}

/// Scanning `h` from `cursor` for `pat`: `Some(answer)` when the search ends
/// with an answer, `None` when `pat` occurs no more.  At each occurrence the
/// enclosing tag runs from the last `<` before it to the first `>` at or
/// after it; a missing `<` or `>` ends the search with no value, and a tag
/// without a usable `value=` moves on past the occurrence.
pub open spec fn scan_pattern(h: Seq<char>, pat: Seq<char>, cursor: int) -> Option<Option<Seq<char>>>
    decreases h.len() + 1 - cursor,
{
    match find_from(h, pat, cursor) {
        None => None,
        Some(found) => if found < cursor || found + pat.len() > h.len() || pat.len() == 0 {
            None
        } else {
            match rfind_char_before(h, '<', found) {
                None => Some(None),
                Some(ts) => {
                    let te = index_of_from(h, '>', found);
                    if te >= h.len() {
                        Some(None)
                    } else {
                        match tag_value(h.subrange(ts, te + 1)) {
                            Some(v) => Some(Some(v)),
                            None => scan_pattern(h, pat, found + pat.len()),
                        }
                    }
                },
            }
        },
    }
}

/// `name="N"`, `name='N'` and `name=N`.
pub open spec fn name_patterns(name: Seq<char>) -> Seq<Seq<char>> {
    let key = seq!['n', 'a', 'm', 'e', '='];
    seq![key + seq!['"'] + name + seq!['"'], key + seq!['\''] + name + seq!['\''], key + name]
}

/// The value of the hidden field `name` in a page: the patterns are tried
/// in the order of `name_patterns`.
pub open spec fn hidden_value(h: Seq<char>, name: Seq<char>) -> Option<Seq<char>> {
    let p = name_patterns(name);
    match scan_pattern(h, p[0], 0) {
        Some(x) => x,
        None => match scan_pattern(h, p[1], 0) {
            Some(x) => x,
            None => match scan_pattern(h, p[2], 0) {
                Some(x) => x,
                None => None,
            },
        },
    }
}

fn value_end_exec(s: &Vec<char>, from: usize) -> (r: usize)
    requires
        from <= s.len(),
    ensures
        r == value_end_from(s@, from as int),
        from <= r <= s.len(),
{
    let mut i: usize = from;
    while i < s.len() && !(s[i] == ' ' || s[i] == '\t' || s[i] == '\n' || s[i] == '\u{C}' || s[i]
        == '\r' || s[i] == '>')
        invariant
            from <= i <= s.len(),
            value_end_from(s@, from as int) == value_end_from(s@, i as int),
        decreases s.len() - i,
    {
        i += 1;
    }
    i
}

fn tag_value_exec(tag: &Vec<char>) -> (r: Option<Vec<char>>)
    ensures
        match r {
            Some(v) => tag_value(tag@) == Some(v@),
            None => tag_value(tag@) is None,
        },
{
    let ve = vec!['v', 'a', 'l', 'u', 'e', '='];
    assert(ve@ =~= lit_value_eq());
    let vp = match find_from_exec(tag, &ve, 0) {
        None => {
            return None;
        },
        Some(vp) => vp,
    };
    proof {
        lemma_find_from_props(tag@, ve@, 0);
        assert(matches_at(tag@, vp as int, ve@));
        assert(ve@.len() == 6);
        assert(vp + 6 <= tag.len());
    }
    let part = slice_vec(tag, vp + 6, tag.len());
    assert(part@ =~= tag@.skip(vp + 6));
    if part.len() > 0 && (part[0] == '"' || part[0] == '\'') {
        let q = part[0];
        let rest = slice_vec(&part, 1, part.len());
        assert(rest@ =~= part@.skip(1));
        let e = index_of_from_exec(&rest, q, 0);
        if e < rest.len() {
            let v = slice_vec(&rest, 0, e);
            assert(v@ =~= rest@.take(e as int));
            Some(v)
        } else {
            None
        }
    } else {
        let e = value_end_exec(&part, 0);
        let v = slice_vec(&part, 0, e);
        assert(v@ =~= part@.take(e as int));
        Some(v)
    }
}

fn scan_pattern_exec(h: &Vec<char>, pat: &Vec<char>) -> (r: Option<Option<Vec<char>>>)
    requires
        pat.len() > 0,
    ensures
        match r {
            None => scan_pattern(h@, pat@, 0) is None,
            Some(None) => scan_pattern(h@, pat@, 0) == Some(None::<Seq<char>>),
            Some(Some(v)) => scan_pattern(h@, pat@, 0) == Some(Some(v@)),
        },
{
    let mut cursor: usize = 0;
    loop
        invariant
            cursor <= h.len(),
            pat.len() > 0,
            scan_pattern(h@, pat@, 0) == scan_pattern(h@, pat@, cursor as int),
        decreases h.len() + 1 - cursor,
    {
        let found = match find_from_exec(h, pat, cursor) {
            None => {
                return None;
            },
            Some(f) => f,
        };
        proof {
            lemma_find_from_props(h@, pat@, cursor as int);
            assert(matches_at(h@, found as int, pat@));
        }
        let ts = match rfind_char_before_exec(h, '<', found) {
            None => {
                return Some(None);
            },
            Some(ts) => ts,
        };
        proof {
            lemma_rfind_props(h@, '<', found as int);
        }
        let te = index_of_from_exec(h, '>', found);
        if te == h.len() {
            return Some(None);
        }
        let tag = slice_vec(h, ts, te + 1);
        match tag_value_exec(&tag) {
            Some(v) => {
                return Some(Some(v));
            },
            None => {},
        }
        cursor = found + pat.len();
    }
}

fn name_pattern_exec(name: &Vec<char>, which: usize) -> (r: Vec<char>)
    requires
        which < 3,
    ensures
        r@ == name_patterns(name@)[which as int],
        r@.len() > 0,
{
    let mut r = vec!['n', 'a', 'm', 'e', '='];
    let ghost key = seq!['n', 'a', 'm', 'e', '='];
    assert(r@ =~= key);
    if which == 0 {
        r.push('"');
        extend_all(&mut r, name);
        r.push('"');
        assert(r@ =~= key + seq!['"'] + name@ + seq!['"']);
    } else if which == 1 {
        r.push('\'');
        extend_all(&mut r, name);
        r.push('\'');
        assert(r@ =~= key + seq!['\''] + name@ + seq!['\'']);
    } else {
        extend_all(&mut r, name);
        assert(r@ =~= key + name@);
    }
    r
}

/// The value of the hidden input `name` in an HTML page.
pub fn extract_hidden_input_value(html: &str, name: &str) -> (r: Option<String>)
    ensures
        opt_str_view(r) == hidden_value(html@, name@),
{
    let h = chars_of(html);
    let n = chars_of(name);
    let mut which: usize = 0;
    while which < 3
        invariant
            which <= 3,
            h@ == html@,
            n@ == name@,
            forall|w: int| 0 <= w < which ==> scan_pattern(h@, #[trigger] name_patterns(n@)[w], 0) is None,
        decreases 3 - which,
    {
        let pat = name_pattern_exec(&n, which);
        match scan_pattern_exec(&h, &pat) {
            Some(Some(v)) => {
                return Some(string_of(&v));
            },
            Some(None) => {
                return None;
            },
            None => {},
        }
        which += 1;
    }
    None
}

} // verus!
