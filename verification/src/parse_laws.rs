//! Properties of the text parsers, stated over their inputs and results:
//! every reply anchor of a post body is unwrapped, every numeric reference
//! to a Unicode scalar value is decoded, a thread-list line gives back its
//! key, title and count, and a thread log shows each post body with its
//! anchors unwrapped.

use vstd::prelude::*;
use crate::textseq::{decimal, digit_char, digit_value, digits_value, find_from, index_of_from, matches_at};
use crate::html::{inline_decoded, is_scalar, ncr_decoded, ncr_decoded_from};
use crate::textseq::{is_ws, lines, trim, ws_prefix_end, ws_suffix_start};
use crate::boards::{
    count_of, dat_field, dat_items, dat_items_of, dat_line, rfind, rfind_at_or_before, subject_items,
    subject_line, ResponseItemView, ThreadItemView,
};
use crate::html::{basic_decoded, body_normalized, lit_br, lit_br_slash, lit_br_space};
use crate::textseq::replace_all;
use crate::html::{anchors_stripped, anchors_stripped_from, lit_a_close, lit_a_open};

verus! {

// ---------------------------------------------------------------------------
// Texts and anchors
// ---------------------------------------------------------------------------

/// No character of `s` is `c`.
pub open spec fn free_of(s: Seq<char>, c: char) -> bool {
    forall|j: int| 0 <= j < s.len() ==> s[j] != c
}

/// The reply anchor `<a attrs>inner</a>`.
pub open spec fn anchor_of(attrs: Seq<char>, inner: Seq<char>) -> Seq<char> {
    seq!['<', 'a'] + attrs + seq!['>'] + inner + seq!['<', '/', 'a', '>']
}

/// The texts `ts` with the anchors `<a attrs[k]>inners[k]</a>` between
/// them: `ts[0] a0 ts[1] a1 ... ts[n]`.
pub open spec fn with_anchors(
    ts: Seq<Seq<char>>,
    attrs: Seq<Seq<char>>,
    inners: Seq<Seq<char>>,
) -> Seq<char>
    decreases inners.len(),
{
    if inners.len() == 0 || ts.len() == 0 || attrs.len() == 0 {
        if ts.len() > 0 {
            ts[0]
        } else {
            seq![]
        }
    } else {
        ts[0] + anchor_of(attrs[0], inners[0]) + with_anchors(
            ts.drop_first(),
            attrs.drop_first(),
            inners.drop_first(),
        )
    }
}

/// The same texts with each anchor replaced by its inner text:
/// `ts[0] inners[0] ts[1] ... ts[n]`.
pub open spec fn anchors_replaced(ts: Seq<Seq<char>>, inners: Seq<Seq<char>>) -> Seq<char>
    decreases inners.len(),
{
    if inners.len() == 0 || ts.len() == 0 {
        if ts.len() > 0 {
            ts[0]
        } else {
            seq![]
        }
    } else {
        ts[0] + inners[0] + anchors_replaced(ts.drop_first(), inners.drop_first())
    }
}

/// Pieces of a body with anchors: one more text than anchors; no text and
/// no inner text holds `<`, no attribute text holds `<` or `>`.
pub open spec fn anchor_pieces(ts: Seq<Seq<char>>, attrs: Seq<Seq<char>>, inners: Seq<Seq<char>>) -> bool {
    &&& ts.len() == inners.len() + 1
    &&& attrs.len() == inners.len()
    &&& forall|k: int| 0 <= k < ts.len() ==> free_of(#[trigger] ts[k], '<')
    &&& forall|k: int| 0 <= k < inners.len() ==> free_of(#[trigger] inners[k], '<')
    &&& forall|k: int| 0 <= k < attrs.len() ==> free_of(#[trigger] attrs[k], '<') && free_of(attrs[k], '>')
}

proof fn lemma_find_from_at(s: Seq<char>, p: Seq<char>, i: int, k: int)
    requires
        0 <= i <= k,
        matches_at(s, k, p),
        forall|j: int| i <= j < k ==> !matches_at(s, j, p),
    ensures
        find_from(s, p, i) == Some(k),
    decreases k - i,
{
    if i < k {
        assert(!matches_at(s, i, p));
        lemma_find_from_at(s, p, i + 1, k);
    }
}

proof fn lemma_find_from_none(s: Seq<char>, p: Seq<char>, i: int)
    requires
        0 <= i,
        forall|j: int| i <= j ==> !matches_at(s, j, p),
    ensures
        find_from(s, p, i) is None,
    decreases s.len() + 1 - i,
{
    if i + p.len() <= s.len() {
        assert(!matches_at(s, i, p));
        lemma_find_from_none(s, p, i + 1);
    }
}

proof fn lemma_matches_shift(x: Seq<char>, r: Seq<char>, j: int, p: Seq<char>)
    requires
        0 <= j,
    ensures
        matches_at(x + r, x.len() + j, p) == matches_at(r, j, p),
{
    if j + p.len() <= r.len() {
        assert((x + r).subrange(x.len() + j, x.len() + j + p.len()) =~= r.subrange(j, j + p.len()));
    }
}

proof fn lemma_find_shift(x: Seq<char>, r: Seq<char>, p: Seq<char>, j: int)
    requires
        0 <= j,
    ensures
        find_from(x + r, p, x.len() + j) == (match find_from(r, p, j) {
            Some(k) => Some(k + x.len()),
            None => None,
        }),
    decreases r.len() + 1 - j,
{
    lemma_matches_shift(x, r, j, p);
    if j + p.len() <= r.len() && !matches_at(r, j, p) {
        lemma_find_shift(x, r, p, j + 1);
        assert(x.len() + j + 1 == x.len() + (j + 1));
    }
}

proof fn lemma_anchors_shift(x: Seq<char>, r: Seq<char>, j: int)
    requires
        0 <= j <= r.len(),
    ensures
        anchors_stripped_from(x + r, x.len() + j) == anchors_stripped_from(r, j),
    decreases r.len() - j,
{
    let s = x + r;
    let n = x.len() as int;
    lemma_find_shift(x, r, lit_a_open(), j);
    assert(s.subrange(n + j, s.len() as int) =~= r.subrange(j, r.len() as int));
    match find_from(r, lit_a_open(), j) {
        None => {},
        Some(a) => {
            crate::textseq::lemma_find_from_props(r, lit_a_open(), j);
            lemma_find_shift(x, r, seq!['>'], a);
            match find_from(r, seq!['>'], a) {
                None => {},
                Some(g) => {
                    crate::textseq::lemma_find_from_props(r, seq!['>'], a);
                    lemma_find_shift(x, r, lit_a_close(), g + 1);
                    assert(s.subrange(n + j, n + a) =~= r.subrange(j, a));
                    assert(s.subrange(n + g + 1, s.len() as int) =~= r.subrange(g + 1, r.len() as int));
                    match find_from(r, lit_a_close(), g + 1) {
                        None => {},
                        Some(e) => {
                            crate::textseq::lemma_find_from_props(r, lit_a_close(), g + 1);
                            assert(s.subrange(n + g + 1, n + e) =~= r.subrange(g + 1, e));
                            lemma_anchors_shift(x, r, e + 4);
                            assert(n + e + 4 == n + (e + 4));
                        },
                    }
                },
            }
        },
    }
}

/// A text without tags is left as it is.
pub proof fn law_text_without_tags_kept(t: Seq<char>)
    requires
        free_of(t, '<'),
    ensures
        anchors_stripped(t) == t,
{
    assert forall|j: int| 0 <= j implies !matches_at(t, j, lit_a_open()) by {
        if matches_at(t, j, lit_a_open()) {
            assert(t.subrange(j, j + 2)[0] == t[j]);
        }
    }
    lemma_find_from_none(t, lit_a_open(), 0);
    assert(t.subrange(0, t.len() as int) =~= t);
}

/// An anchor after a text without tags is unwrapped, and the rest is
/// handled the same way: the text, the anchor's inner text, then the rest
/// with its anchors unwrapped.
pub proof fn law_anchor_unwrapped(t: Seq<char>, attrs: Seq<char>, inner: Seq<char>, rest: Seq<char>)
    requires
        free_of(t, '<'),
        free_of(attrs, '>'),
        free_of(inner, '<'),
    ensures
        anchors_stripped(t + anchor_of(attrs, inner) + rest) == t + inner + anchors_stripped(rest),
{
    let anc = anchor_of(attrs, inner);
    let s = t + anc + rest;
    let a = t.len() as int;
    let g = a + 2 + attrs.len();
    let e = g + 1 + inner.len();
    assert(s[a] == '<' && s[a + 1] == 'a');
    assert(s.subrange(a, a + 2) =~= lit_a_open());
    assert forall|j: int| 0 <= j < a implies !matches_at(s, j, lit_a_open()) by {
        assert(s[j] == t[j]);
        if matches_at(s, j, lit_a_open()) {
            assert(s.subrange(j, j + 2)[0] == s[j]);
        }
    }
    lemma_find_from_at(s, lit_a_open(), 0, a);
    assert(s[g] == '>');
    assert(s.subrange(g, g + 1) =~= seq!['>']);
    assert forall|j: int| a <= j < g implies !matches_at(s, j, seq!['>']) by {
        if matches_at(s, j, seq!['>']) {
            assert(s.subrange(j, j + 1)[0] == s[j]);
            if j >= a + 2 {
                assert(s[j] == attrs[j - a - 2]);
            }
        }
    }
    lemma_find_from_at(s, seq!['>'], a, g);
    assert(s.subrange(e, e + 4) =~= lit_a_close());
    assert forall|j: int| g + 1 <= j < e implies !matches_at(s, j, lit_a_close()) by {
        if matches_at(s, j, lit_a_close()) {
            assert(s.subrange(j, j + 4)[0] == s[j]);
            assert(s[j] == inner[j - g - 1]);
        }
    }
    lemma_find_from_at(s, lit_a_close(), g + 1, e);
    assert(s.subrange(0, a) =~= t);
    assert(s.subrange(g + 1, e) =~= inner);
    assert(s =~= (t + anc) + rest);
    lemma_anchors_shift(t + anc, rest, 0);
    assert((t + anc).len() + 0 == e + 4);
}

/// Every anchor of a body is unwrapped: a body made of texts without tags
/// and anchors `<a attrs>inner</a>` between them becomes the texts with
/// each anchor replaced by its inner text.
pub proof fn law_every_anchor_unwrapped(ts: Seq<Seq<char>>, attrs: Seq<Seq<char>>, inners: Seq<Seq<char>>)
    requires
        anchor_pieces(ts, attrs, inners),
    ensures
        anchors_stripped(with_anchors(ts, attrs, inners)) == anchors_replaced(ts, inners),
    decreases inners.len(),
{
    if inners.len() == 0 {
        law_text_without_tags_kept(ts[0]);
    } else {
        assert(free_of(ts[0], '<'));
        assert(free_of(attrs[0], '>'));
        assert(free_of(inners[0], '<'));
        let ts2 = ts.drop_first();
        let at2 = attrs.drop_first();
        let in2 = inners.drop_first();
        assert forall|k: int| 0 <= k < ts2.len() implies free_of(#[trigger] ts2[k], '<') by {
            assert(ts2[k] == ts[k + 1]);
        }
        assert forall|k: int| 0 <= k < in2.len() implies free_of(#[trigger] in2[k], '<') by {
            assert(in2[k] == inners[k + 1]);
        }
        assert forall|k: int| 0 <= k < at2.len() implies free_of(#[trigger] at2[k], '<') && free_of(
            at2[k],
            '>',
        ) by {
            assert(at2[k] == attrs[k + 1]);
        }
        law_every_anchor_unwrapped(ts2, at2, in2);
        law_anchor_unwrapped(ts[0], attrs[0], inners[0], with_anchors(ts2, at2, in2));
    }
}


// ---------------------------------------------------------------------------
// Numeric character references
// ---------------------------------------------------------------------------

/// A hexadecimal digit, small letters above 9.
pub open spec fn hex_char(d: nat) -> char {
    if d < 10 {
        digit_char(d)
    } else {
        ('a' as nat + (d - 10)) as char
    }
}

/// The hexadecimal text of `n`, without leading zeros.
pub open spec fn hex_text(n: nat) -> Seq<char>
    decreases n,
{
    if n < 16 {
        seq![hex_char(n)]
    } else {
        hex_text(n / 16) + seq![hex_char(n % 16)]
    }
}

/// `c` is an ASCII digit or small letter.
pub open spec fn is_alnum_lower(c: char) -> bool {
    ('0' <= c && c <= '9') || ('a' <= c && c <= 'z')
}

proof fn lemma_decimal_value(n: nat)
    ensures
        decimal(n).len() >= 1,
        forall|j: int| 0 <= j < decimal(n).len() ==> '0' <= #[trigger] decimal(n)[j] && decimal(n)[j] <= '9',
        digits_value(decimal(n), 10) == Some(n),
    decreases n,
{
    if n < 10 {
        assert(decimal(n).drop_last() =~= Seq::<char>::empty());
        assert((digit_char(n) as int) == '0' as int + n);
        assert(digit_value(digit_char(n), 10) == Some(n));
        assert(digits_value(decimal(n).drop_last(), 10) == Some(0nat));
        assert(digits_value(decimal(n), 10) == Some(0 * 10 + n));
    } else {
        lemma_decimal_value(n / 10);
        let s = decimal(n);
        assert(s == decimal(n / 10) + seq![digit_char(n % 10)]);
        assert(s.drop_last() =~= decimal(n / 10));
        assert(s.last() == digit_char(n % 10));
        assert(forall|j: int| 0 <= j < s.len() - 1 ==> s[j] == decimal(n / 10)[j]);
        let d = (n % 10) as nat;
        assert((digit_char(d) as int) == '0' as int + d);
        assert(digit_value(digit_char(d), 10) == Some(d));
        assert((n / 10) * 10 + d == n);
        assert(digits_value(s.drop_last(), 10) == Some(n / 10));
        assert(digits_value(s, 10) == Some((n / 10) * 10 + d));
    }
}

proof fn lemma_hex_char_value(d: nat)
    requires
        d < 16,
    ensures
        digit_value(hex_char(d), 16) == Some(d),
        is_alnum_lower(hex_char(d)),
{
    if d < 10 {
        assert((digit_char(d) as int) == '0' as int + d);
    } else {
        assert((hex_char(d) as int) == 'a' as int + (d - 10));
    }
}

proof fn lemma_hex_value(n: nat)
    ensures
        hex_text(n).len() >= 1,
        forall|j: int| 0 <= j < hex_text(n).len() ==> is_alnum_lower(#[trigger] hex_text(n)[j]),
        digits_value(hex_text(n), 16) == Some(n),
    decreases n,
{
    if n < 16 {
        assert(hex_text(n).drop_last() =~= Seq::<char>::empty());
        lemma_hex_char_value(n);
        assert(digits_value(hex_text(n).drop_last(), 16) == Some(0nat));
        assert(digits_value(hex_text(n), 16) == Some(0 * 16 + n));
    } else {
        lemma_hex_value(n / 16);
        let s = hex_text(n);
        assert(s == hex_text(n / 16) + seq![hex_char(n % 16)]);
        assert(s.drop_last() =~= hex_text(n / 16));
        assert(s.last() == hex_char(n % 16));
        assert(forall|j: int| 0 <= j < s.len() - 1 ==> s[j] == hex_text(n / 16)[j]);
        let d = (n % 16) as nat;
        lemma_hex_char_value(d);
        assert((n / 16) * 16 + d == n);
        assert(digits_value(s.drop_last(), 16) == Some(n / 16));
        assert(digits_value(s, 16) == Some((n / 16) * 16 + d));
    }
}

proof fn lemma_index_of_from_at(s: Seq<char>, c: char, i: int, m: int)
    requires
        0 <= i <= m < s.len(),
        s[m] == c,
        forall|j: int| i <= j < m ==> s[j] != c,
    ensures
        index_of_from(s, c, i) == m,
    decreases m - i,
{
    if i < m {
        lemma_index_of_from_at(s, c, i + 1, m);
    }
}

proof fn lemma_ncr_one(body: Seq<char>, u: nat)
    requires
        is_scalar(u),
        body.len() >= 1,
        forall|j: int| 0 <= j < body.len() ==> is_alnum_lower(#[trigger] body[j]),
        crate::html::ncr_value(body) == Some(u as char),
    ensures
        ncr_decoded(seq!['&', '#'] + body + seq![';']) == seq![u as char],
{
    let s = seq!['&', '#'] + body + seq![';'];
    let k = s.len() - 1;
    assert forall|j: int| 2 <= j < k implies s[j] != ';' by {
        assert(s[j] == body[j - 2]);
        assert(is_alnum_lower(body[j - 2]));
    }
    lemma_index_of_from_at(s, ';', 2, k);
    assert(s.subrange(2, k) =~= body);
    assert(ncr_decoded_from(s, k + 1) == Seq::<char>::empty());
    assert(ncr_decoded(s) == seq![u as char] + ncr_decoded_from(s, k + 1));
    assert(seq![u as char] + Seq::<char>::empty() =~= seq![u as char]);
}

/// Every decimal reference `&#N;` to a Unicode scalar value `N` (up to
/// 0x10FFFF, not a surrogate) is decoded to that one character.
pub proof fn law_decimal_reference_decoded(u: nat)
    requires
        is_scalar(u),
    ensures
        ncr_decoded(seq!['&', '#'] + decimal(u) + seq![';']) == seq![u as char],
{
    lemma_decimal_value(u);
    let t = decimal(u);
    assert(t[0] != 'x' && t[0] != 'X' && t[0] != '+');
    assert(crate::html::ncr_value(t) == Some(u as char));
    lemma_ncr_one(t, u);
}

/// Every hexadecimal reference `&#xH;` to a Unicode scalar value is decoded
/// to that one character.
pub proof fn law_hex_reference_decoded(u: nat)
    requires
        is_scalar(u),
    ensures
        ncr_decoded(seq!['&', '#', 'x'] + hex_text(u) + seq![';']) == seq![u as char],
{
    lemma_hex_value(u);
    let h = hex_text(u);
    let t = seq!['x'] + h;
    assert(t.skip(1) =~= h);
    assert(h[0] != '+');
    assert(crate::html::ncr_value(t) == Some(u as char));
    assert forall|j: int| 0 <= j < t.len() implies is_alnum_lower(#[trigger] t[j]) by {
        if j > 0 {
            assert(t[j] == h[j - 1]);
        }
    }
    lemma_ncr_one(t, u);
    assert(seq!['&', '#'] + t + seq![';'] =~= seq!['&', '#', 'x'] + h + seq![';']);
}


// ---------------------------------------------------------------------------
// Thread-list lines
// ---------------------------------------------------------------------------

/// `s` is not empty and neither begins nor ends with whitespace.
pub open spec fn trimmed_text(s: Seq<char>) -> bool {
    s.len() > 0 && !is_ws(s[0]) && !is_ws(s.last())
}

proof fn lemma_trim_id(s: Seq<char>)
    requires
        trimmed_text(s),
    ensures
        trim(s) == s,
{
    assert(ws_prefix_end(s, 0) == 0);
    assert(s.skip(0) =~= s);
    assert(ws_suffix_start(s, s.len() as int) == s.len());
    assert(s.take(s.len() as int) =~= s);
}

proof fn lemma_rfind_at(s: Seq<char>, p: Seq<char>, i: int, m: int)
    requires
        0 <= m <= i,
        matches_at(s, m, p),
        forall|j: int| m < j <= i ==> !matches_at(s, j, p),
    ensures
        rfind_at_or_before(s, p, i) == Some(m),
    decreases i - m,
{
    if m < i {
        assert(!matches_at(s, i, p));
        lemma_rfind_at(s, p, i - 1, m);
    }
}

proof fn lemma_digits_not_ws(n: nat)
    ensures
        trimmed_text(decimal(n)),
        forall|j: int| 0 <= j < decimal(n).len() ==> !is_ws(#[trigger] decimal(n)[j])
            && decimal(n)[j] != ' ' && decimal(n)[j] != '\n',
{
    lemma_decimal_value(n);
    let d = decimal(n);
    assert forall|j: int| 0 <= j < d.len() implies !is_ws(#[trigger] d[j]) && d[j] != ' ' && d[j] != '\n' by {
        assert('0' <= d[j] && d[j] <= '9');
    }
    assert(!is_ws(d[0]));
    assert(!is_ws(d[d.len() - 1]));
}

proof fn lemma_subject_separator(key: Seq<char>, r: Seq<char>)
    requires
        free_of(key, '<'),
    ensures
        crate::textseq::find(key + seq!['<', '>'] + r, seq!['<', '>']) == Some(key.len() as int),
        (key + seq!['<', '>'] + r).take(key.len() as int) == key,
        (key + seq!['<', '>'] + r).skip(key.len() + 2int) == r,
{
    let line = key + seq!['<', '>'] + r;
    let kl = key.len() as int;
    assert(line.subrange(kl, kl + 2) =~= seq!['<', '>']);
    assert forall|j: int| 0 <= j < kl implies !matches_at(line, j, seq!['<', '>']) by {
        assert(line[j] == key[j]);
        if matches_at(line, j, seq!['<', '>']) {
            assert(line.subrange(j, j + 2)[0] == line[j]);
        }
    }
    lemma_find_from_at(line, seq!['<', '>'], 0, kl);
    assert(line.take(kl) =~= key);
    assert(line.skip(kl + 2) =~= r);
}

proof fn lemma_subject_count_split(title: Seq<char>, n: nat)
    requires
        trimmed_text(title),
    ensures
        ({
            let r = title + seq![' ', '('] + decimal(n) + seq![')'];
            &&& trim(r) == r
            &&& rfind(r, seq![' ', '(']) == Some(title.len() as int)
            &&& r.take(title.len() as int) == title
            &&& r.skip(title.len() + 2int) == decimal(n) + seq![')']
        }),
{
    let d = decimal(n);
    let r = title + seq![' ', '('] + d + seq![')'];
    lemma_digits_not_ws(n);
    assert(r[0] == title[0]);
    assert(r.last() == ')');
    assert(!is_ws(')'));
    lemma_trim_id(r);
    let tl = title.len() as int;
    assert(r.subrange(tl, tl + 2) =~= seq![' ', '(']);
    assert forall|j: int| tl < j <= r.len() - 2 implies !matches_at(r, j, seq![' ', '(']) by {
        if matches_at(r, j, seq![' ', '(']) {
            assert(r.subrange(j, j + 2)[0] == r[j]);
            if j == tl + 1 {
                assert(r[j] == '(');
            } else {
                assert(r[j] == d[j - tl - 2]);
            }
        }
    }
    lemma_rfind_at(r, seq![' ', '('], r.len() - 2, tl);
    assert(r.take(tl) =~= title);
    assert(r.skip(tl + 2) =~= d + seq![')']);
}

proof fn lemma_count_of_decimal(n: nat)
    requires
        n <= usize::MAX,
    ensures
        count_of(decimal(n) + seq![')']) == n as usize,
{
    let d = decimal(n);
    let right = d + seq![')'];
    lemma_digits_not_ws(n);
    lemma_decimal_value(n);
    assert(right.skip(right.len() - 1) =~= seq![')']);
    assert(right.drop_last() =~= d);
    lemma_trim_id(d);
    assert(d[0] != '+');
}

/// A thread-list line `key<>title (n)` gives back its key, its title
/// (decoded; it may itself hold ` (`) and its count `n`.
#[verifier::rlimit(60)]
pub proof fn law_subject_line_parsed(key: Seq<char>, title: Seq<char>, n: nat)
    requires
        free_of(key, '<'),
        trimmed_text(title),
        n <= usize::MAX,
    ensures
        subject_line(key + seq!['<', '>'] + title + seq![' ', '('] + decimal(n) + seq![')']) == Some(
            ThreadItemView { dat_file: trim(key), title: inline_decoded(title), response_count: n as usize },
        ),
{
    let r = title + seq![' ', '('] + decimal(n) + seq![')'];
    lemma_subject_separator(key, r);
    lemma_subject_count_split(title, n);
    lemma_count_of_decimal(n);
    lemma_trim_id(title);
    assert(key + seq!['<', '>'] + title + seq![' ', '('] + decimal(n) + seq![')'] =~= key + seq!['<', '>'] + r);
}

/// A thread list of one line `key<>title (n)` lists one thread with that
/// key, title and count.
pub proof fn law_subject_list_of_one_line(key: Seq<char>, title: Seq<char>, n: nat)
    requires
        free_of(key, '<'),
        free_of(key, '\n'),
        free_of(title, '\n'),
        trimmed_text(title),
        n <= usize::MAX,
    ensures
        subject_items(key + seq!['<', '>'] + title + seq![' ', '('] + decimal(n) + seq![')']) == seq![
            ThreadItemView { dat_file: trim(key), title: inline_decoded(title), response_count: n as usize },
        ],
{
    let line = key + seq!['<', '>'] + title + seq![' ', '('] + decimal(n) + seq![')'];
    law_subject_line_parsed(key, title, n);
    lemma_digits_not_ws(n);
    assert forall|j: int| 0 <= j < line.len() implies line[j] != '\n' by {
        let kl = key.len() as int;
        let tl = title.len() as int;
        if j < kl {
            assert(line[j] == key[j]);
        } else if j >= kl + 2 && j < kl + 2 + tl {
            assert(line[j] == title[j - kl - 2]);
        } else if j >= kl + 4 + tl && j < line.len() - 1 {
            assert(line[j] == decimal(n)[j - kl - 4 - tl]);
        }
    }
    crate::textseq::lemma_index_of_from(line, '\n', 0);
    assert(lines(line) == seq![line]);
    let item = ThreadItemView { dat_file: trim(key), title: inline_decoded(title), response_count: n as usize };
    let ls = seq![line];
    assert(ls.drop_last() =~= Seq::<Seq<char>>::empty());
    assert(ls.last() == line);
    assert(crate::boards::subject_items_of(ls.drop_last()) == Seq::<ThreadItemView>::empty());
    assert(crate::boards::subject_items_of(ls) == Seq::<ThreadItemView>::empty().push(item));
    assert(Seq::<ThreadItemView>::empty().push(item) =~= seq![item]);
}


// ---------------------------------------------------------------------------
// Thread logs
// ---------------------------------------------------------------------------

/// Every `<` of `s` is followed by `a` or `/` (it opens or closes an
/// anchor).
pub open spec fn tags_are_anchors(s: Seq<char>) -> bool {
    forall|j: int| 0 <= j < s.len() && #[trigger] s[j] == '<' ==> j + 1 < s.len() && (s[j + 1] == 'a' || s[j + 1] == '/')
}

proof fn lemma_tags_concat(a: Seq<char>, b: Seq<char>)
    requires
        tags_are_anchors(a),
        tags_are_anchors(b),
    ensures
        tags_are_anchors(a + b),
{
    let s = a + b;
    assert forall|j: int| 0 <= j < s.len() && #[trigger] s[j] == '<' implies j + 1 < s.len() && (s[j + 1] == 'a'
        || s[j + 1] == '/') by {
        if j < a.len() {
            assert(a[j] == '<');
            assert(s[j + 1] == a[j + 1]);
        } else {
            assert(b[j - a.len()] == '<');
            assert(s[j + 1] == b[j + 1 - a.len()]);
        }
    }
}

proof fn lemma_free_concat(a: Seq<char>, b: Seq<char>, c: char)
    requires
        free_of(a, c),
        free_of(b, c),
    ensures
        free_of(a + b, c),
{
    assert forall|j: int| 0 <= j < (a + b).len() implies (a + b)[j] != c by {
        if j < a.len() {
            assert((a + b)[j] == a[j]);
        } else {
            assert((a + b)[j] == b[j - a.len()]);
        }
    }
}

proof fn lemma_with_anchors_tags(ts: Seq<Seq<char>>, attrs: Seq<Seq<char>>, inners: Seq<Seq<char>>)
    requires
        anchor_pieces(ts, attrs, inners),
    ensures
        tags_are_anchors(with_anchors(ts, attrs, inners)),
    decreases inners.len(),
{
    assert(free_of(ts[0], '<'));
    if inners.len() > 0 {
        let ts2 = ts.drop_first();
        let at2 = attrs.drop_first();
        let in2 = inners.drop_first();
        assert forall|k: int| 0 <= k < ts2.len() implies free_of(#[trigger] ts2[k], '<') by {
            assert(ts2[k] == ts[k + 1]);
        }
        assert forall|k: int| 0 <= k < in2.len() implies free_of(#[trigger] in2[k], '<') by {
            assert(in2[k] == inners[k + 1]);
        }
        assert forall|k: int| 0 <= k < at2.len() implies free_of(#[trigger] at2[k], '<') && free_of(
            at2[k],
            '>',
        ) by {
            assert(at2[k] == attrs[k + 1]);
        }
        lemma_with_anchors_tags(ts2, at2, in2);
        assert(free_of(attrs[0], '<'));
        assert(free_of(inners[0], '<'));
        let o = seq!['<', 'a'];
        let c = seq!['<', '/', 'a', '>'];
        assert(tags_are_anchors(o));
        assert(tags_are_anchors(seq!['>']));
        assert(tags_are_anchors(c));
        lemma_tags_concat(o, attrs[0]);
        lemma_tags_concat(o + attrs[0], seq!['>']);
        lemma_tags_concat(o + attrs[0] + seq!['>'], inners[0]);
        lemma_tags_concat(o + attrs[0] + seq!['>'] + inners[0], c);
        lemma_tags_concat(ts[0], anchor_of(attrs[0], inners[0]));
        lemma_tags_concat(ts[0] + anchor_of(attrs[0], inners[0]), with_anchors(ts2, at2, in2));
    }
}

proof fn lemma_replaced_free(ts: Seq<Seq<char>>, inners: Seq<Seq<char>>, c: char)
    requires
        ts.len() == inners.len() + 1,
        forall|k: int| 0 <= k < ts.len() ==> free_of(#[trigger] ts[k], c),
        forall|k: int| 0 <= k < inners.len() ==> free_of(#[trigger] inners[k], c),
    ensures
        free_of(anchors_replaced(ts, inners), c),
    decreases inners.len(),
{
    assert(free_of(ts[0], c));
    if inners.len() > 0 {
        let ts2 = ts.drop_first();
        let in2 = inners.drop_first();
        assert forall|k: int| 0 <= k < ts2.len() implies free_of(#[trigger] ts2[k], c) by {
            assert(ts2[k] == ts[k + 1]);
        }
        assert forall|k: int| 0 <= k < in2.len() implies free_of(#[trigger] in2[k], c) by {
            assert(in2[k] == inners[k + 1]);
        }
        lemma_replaced_free(ts2, in2, c);
        assert(free_of(inners[0], c));
        lemma_free_concat(ts[0], inners[0], c);
        lemma_free_concat(ts[0] + inners[0], anchors_replaced(ts2, in2), c);
    }
}

proof fn lemma_replace_none(s: Seq<char>, p: Seq<char>, r: Seq<char>)
    requires
        p.len() > 0,
        forall|j: int| 0 <= j ==> !matches_at(s, j, p),
    ensures
        replace_all(s, p, r) == s,
    decreases s.len(),
{
    if s.len() > 0 {
        assert(!matches_at(s, 0, p));
        if p.len() <= s.len() {
            assert(s.take(p.len() as int) =~= s.subrange(0, p.len() as int));
        }
        let t = s.skip(1);
        assert forall|j: int| 0 <= j implies !matches_at(t, j, p) by {
            assert(!matches_at(s, j + 1, p));
            if j + p.len() <= t.len() {
                assert(t.subrange(j, j + p.len()) =~= s.subrange(j + 1, j + 1 + p.len()));
            }
        }
        lemma_replace_none(t, p, r);
        assert(seq![s[0]] + t =~= s);
    }
}

proof fn lemma_no_match_of_lead(s: Seq<char>, p: Seq<char>, c: char)
    requires
        p.len() > 0,
        p[0] == c,
        free_of(s, c),
    ensures
        forall|j: int| 0 <= j ==> !matches_at(s, j, p),
{
    assert forall|j: int| 0 <= j implies !matches_at(s, j, p) by {
        if matches_at(s, j, p) {
            assert(s.subrange(j, j + p.len())[0] == s[j]);
        }
    }
}

proof fn lemma_no_br(s: Seq<char>, p: Seq<char>)
    requires
        tags_are_anchors(s),
        p.len() >= 2,
        p[0] == '<',
        p[1] == 'b',
    ensures
        forall|j: int| 0 <= j ==> !matches_at(s, j, p),
{
    assert forall|j: int| 0 <= j implies !matches_at(s, j, p) by {
        if matches_at(s, j, p) {
            assert(s.subrange(j, j + p.len())[0] == s[j]);
            assert(s.subrange(j, j + p.len())[1] == s[j + 1]);
        }
    }
}

proof fn lemma_ncr_free(s: Seq<char>, i: int)
    requires
        free_of(s, '&'),
        0 <= i <= s.len(),
    ensures
        ncr_decoded_from(s, i) == s.skip(i),
    decreases s.len() - i,
{
    if i < s.len() {
        lemma_ncr_free(s, i + 1);
        assert(seq![s[i]] + s.skip(i + 1) =~= s.skip(i));
    } else {
        assert(s.skip(i) =~= Seq::<char>::empty());
    }
}

/// A post body of texts and reply anchors, with no entity (`&`) in its
/// texts, is shown as the texts with each anchor replaced by its inner
/// text: the anchors' tags never reach the screen.
pub proof fn law_body_shows_anchor_text(ts: Seq<Seq<char>>, attrs: Seq<Seq<char>>, inners: Seq<Seq<char>>)
    requires
        anchor_pieces(ts, attrs, inners),
        forall|k: int| 0 <= k < ts.len() ==> free_of(#[trigger] ts[k], '&'),
        forall|k: int| 0 <= k < inners.len() ==> free_of(#[trigger] inners[k], '&'),
    ensures
        body_normalized(with_anchors(ts, attrs, inners)) == anchors_replaced(ts, inners),
{
    let s = with_anchors(ts, attrs, inners);
    let nl = seq!['\n'];
    lemma_with_anchors_tags(ts, attrs, inners);
    lemma_no_br(s, lit_br());
    lemma_replace_none(s, lit_br(), nl);
    lemma_no_br(s, lit_br_space());
    lemma_replace_none(s, lit_br_space(), nl);
    lemma_no_br(s, lit_br_slash());
    lemma_replace_none(s, lit_br_slash(), nl);
    law_every_anchor_unwrapped(ts, attrs, inners);
    let x = anchors_replaced(ts, inners);
    lemma_replaced_free(ts, inners, '&');
    let gt = seq!['&', 'g', 't', ';'];
    let lt = seq!['&', 'l', 't', ';'];
    let amp = seq!['&', 'a', 'm', 'p', ';'];
    let quot = seq!['&', 'q', 'u', 'o', 't', ';'];
    let apos = seq!['&', '#', '3', '9', ';'];
    lemma_no_match_of_lead(x, gt, '&');
    lemma_replace_none(x, gt, seq!['>']);
    lemma_no_match_of_lead(x, lt, '&');
    lemma_replace_none(x, lt, seq!['<']);
    lemma_no_match_of_lead(x, amp, '&');
    lemma_replace_none(x, amp, seq!['&']);
    lemma_no_match_of_lead(x, quot, '&');
    lemma_replace_none(x, quot, seq!['"']);
    lemma_no_match_of_lead(x, apos, '&');
    lemma_replace_none(x, apos, seq!['\'']);
    assert(basic_decoded(x) == x);
    lemma_ncr_free(x, 0);
    assert(x.skip(0) =~= x);
}

proof fn lemma_dat_items_of(ls: Seq<Seq<char>>, i: int)
    requires
        0 <= i < ls.len(),
    ensures
        dat_items_of(ls).len() == ls.len(),
        dat_items_of(ls)[i] == dat_line(i + 1, ls[i]),
    decreases ls.len(),
{
    lemma_dat_items_len(ls);
    if i < ls.len() - 1 {
        lemma_dat_items_of(ls.drop_last(), i);
        assert(ls.drop_last()[i] == ls[i]);
    }
}

proof fn lemma_dat_items_len(ls: Seq<Seq<char>>)
    ensures
        dat_items_of(ls).len() == ls.len(),
    decreases ls.len(),
{
    if ls.len() > 0 {
        lemma_dat_items_len(ls.drop_last());
    }
}

/// A thread log lists one post per line, and each post's body is its
/// line's fourth field, trimmed, as `normalize_dat_body_html` shows it.
pub proof fn law_dat_body_is_normalized(content: Seq<char>, i: int)
    requires
        0 <= i < lines(content).len(),
    ensures
        dat_items(content).len() == lines(content).len(),
        dat_items(content)[i].number == (i + 1) as usize,
        dat_items(content)[i].body == body_normalized(trim(dat_field(lines(content)[i], 3))),
{
    lemma_dat_items_of(lines(content), i);
}

/// Every reply anchor of a post is unwrapped on screen: when the trimmed
/// fourth field of line `i` is texts with reply anchors between them (no
/// entity in the texts), post `i` shows the texts with each anchor replaced
/// by its inner text.
pub proof fn law_dat_post_anchors_unwrapped(
    content: Seq<char>,
    i: int,
    ts: Seq<Seq<char>>,
    attrs: Seq<Seq<char>>,
    inners: Seq<Seq<char>>,
)
    requires
        0 <= i < lines(content).len(),
        anchor_pieces(ts, attrs, inners),
        forall|k: int| 0 <= k < ts.len() ==> free_of(#[trigger] ts[k], '&'),
        forall|k: int| 0 <= k < inners.len() ==> free_of(#[trigger] inners[k], '&'),
        trim(dat_field(lines(content)[i], 3)) == with_anchors(ts, attrs, inners),
    ensures
        dat_items(content)[i].body == anchors_replaced(ts, inners),
{
    law_dat_body_is_normalized(content, i);
    law_body_shows_anchor_text(ts, attrs, inners);
}

} // verus!
