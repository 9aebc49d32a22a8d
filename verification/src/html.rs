//! The HTML clean-up applied to thread titles, post names and post bodies:
//! character entities, numeric character references, bold markers in names,
//! anchors and line breaks in bodies.

use vstd::prelude::*;
use crate::textseq::{
    chars_of, extend_range, find_from, find_from_exec, index_of_from, index_of_from_exec, is_whitespace,
    is_ws, lemma_find_from_props, lemma_ws_index_from, parse_unsigned, parse_unsigned_exec,
    replace_all, replace_all_exec, spans_in_bounds, spans_view, split_inclusive_ws, string_of,
    string_of_range, ws_index_from, Span,
};

verus! {

// ---------------------------------------------------------------------------
// Specifications
// ---------------------------------------------------------------------------

pub open spec fn lit_gt() -> Seq<char> {
    seq!['&', 'g', 't', ';']
}

pub open spec fn lit_lt() -> Seq<char> {
    seq!['&', 'l', 't', ';']
}

pub open spec fn lit_amp() -> Seq<char> {
    seq!['&', 'a', 'm', 'p', ';']
}

pub open spec fn lit_quot() -> Seq<char> {
    seq!['&', 'q', 'u', 'o', 't', ';']
}

pub open spec fn lit_apos() -> Seq<char> {
    seq!['&', '#', '3', '9', ';']
}

/// The five named entities, replaced in this order: `&gt;`, `&lt;`, `&amp;`,
/// `&quot;`, `&#39;`.
pub open spec fn basic_decoded(s: Seq<char>) -> Seq<char> {
    replace_all(
        replace_all(
            replace_all(
                replace_all(replace_all(s, lit_gt(), seq!['>']), lit_lt(), seq!['<']),
                lit_amp(),
                seq!['&'],
            ),
            lit_quot(),
            seq!['"'],
        ),
        lit_apos(),
        seq!['\''],
    )
}

/// A Unicode scalar value (`char::from_u32` succeeds).
pub open spec fn is_scalar(u: nat) -> bool {
    u <= 0x10FFFF && !(0xD800 <= u && u <= 0xDFFF)
}

/// The character a numeric reference body denotes: `x` or `X` then hex
/// digits, or decimal digits, as `u32::from_str_radix` reads them.
pub open spec fn ncr_value(t: Seq<char>) -> Option<char> {
    let parsed = if t.len() > 0 && (t[0] == 'x' || t[0] == 'X') {
        parse_unsigned(t.skip(1), 16, 0xFFFF_FFFF)
    } else {
        parse_unsigned(t, 10, 0xFFFF_FFFF)
    };
    match parsed {
        Some(u) => if is_scalar(u) {
            Some(u as char)
        } else {
            None
        },
        None => None,
    }
}

/// Numeric character references decoded in `s[i..]`: each `&#` followed by a
/// `;` whose body denotes a character becomes that character; any other `&`
/// is kept.
pub open spec fn ncr_decoded_from(s: Seq<char>, i: int) -> Seq<char>
    decreases s.len() - i,
{
    if i < 0 || i >= s.len() {
        seq![]
    } else if i + 1 < s.len() && s[i] == '&' && s[i + 1] == '#' {
        let k = index_of_from(s, ';', i + 2);
        if k >= s.len() || k < i + 2 {
            seq!['&'] + ncr_decoded_from(s, i + 1)
        } else {
            match ncr_value(s.subrange(i + 2, k)) {
                Some(c) => seq![c] + ncr_decoded_from(s, k + 1),
                None => seq!['&'] + ncr_decoded_from(s, i + 1),
            }
        }
    } else {
        seq![s[i]] + ncr_decoded_from(s, i + 1)
    }
}

pub open spec fn ncr_decoded(s: Seq<char>) -> Seq<char> {
    ncr_decoded_from(s, 0)
}

/// Entities, then numeric references.
pub open spec fn inline_decoded(s: Seq<char>) -> Seq<char> {
    ncr_decoded(basic_decoded(s))
}

pub open spec fn lit_b_open() -> Seq<char> {
    seq!['<', 'b', '>']
}

pub open spec fn lit_b_close() -> Seq<char> {
    seq!['<', '/', 'b', '>']
}

/// The decoded text of `raw` as a segment of weight `bold`, if it is not empty.
pub open spec fn segment(bold: bool, raw: Seq<char>) -> Seq<(bool, Seq<char>)> {
    let d = inline_decoded(raw);
    if d.len() > 0 {
        seq![(bold, d)]
    } else {
        seq![]
    }
}

/// The next bold marker at or after `i`: its position, length, and the weight
/// it switches to.
pub open spec fn next_bold_tag(s: Seq<char>, i: int) -> Option<(int, int, bool)> {
    match (find_from(s, lit_b_open(), i), find_from(s, lit_b_close(), i)) {
        (Some(o), Some(c)) => if o < c {
            Some((o, 3, true))
        } else {
            Some((c, 4, false))
        },
        (Some(o), None) => Some((o, 3, true)),
        (None, Some(c)) => Some((c, 4, false)),
        (None, None) => None,
    }
}

/// The segments of a name field from position `i`, the text before `i` having
/// left the weight at `bold`.
pub open spec fn name_segments_from(s: Seq<char>, i: int, bold: bool) -> Seq<(bool, Seq<char>)>
    decreases s.len() - i,
{
    if i < 0 || i >= s.len() {
        seq![]
    } else {
        match next_bold_tag(s, i) {
            None => segment(bold, s.subrange(i, s.len() as int)),
            Some((ix, len, next)) => if ix < i || ix + len > s.len() || len < 3 {
                seq![]
            } else {
                segment(bold, s.subrange(i, ix)) + name_segments_from(s, ix + len, next)
            },
        }
    }
}

/// The name field split at `<b>` / `</b>` into decoded segments with their
/// weight; the field starts bold.
pub open spec fn name_segments(s: Seq<char>) -> Seq<(bool, Seq<char>)> {
    name_segments_from(s, 0, true)
}

/// The texts of the segments, joined.
pub open spec fn segments_text(v: Seq<(bool, Seq<char>)>) -> Seq<char>
    decreases v.len(),
{
    if v.len() == 0 {
        seq![]
    } else {
        segments_text(v.drop_last()) + v.last().1
    }
}

/// Each segment split after every whitespace character, keeping its weight.
pub open spec fn segment_tokens(v: Seq<(bool, Seq<char>)>) -> Seq<(bool, Seq<char>)>
    decreases v.len(),
{
    if v.len() == 0 {
        seq![]
    } else {
        let last = v.last();
        segment_tokens(v.drop_last()) + split_inclusive_ws(last.1).map_values(
            |t: Seq<char>| (last.0, t),
        )
    }
}

pub open spec fn lit_a_open() -> Seq<char> {
    seq!['<', 'a']
}

pub open spec fn lit_a_close() -> Seq<char> {
    seq!['<', '/', 'a', '>']
}

/// `s[i..]` with every `<a ...>text</a>` replaced by `text`; an unterminated
/// opening tag is kept, and a missing `</a>` keeps the rest after the tag.
pub open spec fn anchors_stripped_from(s: Seq<char>, i: int) -> Seq<char>
    decreases s.len() - i,
{
    if i < 0 || i > s.len() {
        seq![]
    } else {
        match find_from(s, lit_a_open(), i) {
            None => s.subrange(i, s.len() as int),
            Some(a) => if a < i || a > s.len() {
                seq![]
            } else {
                match find_from(s, seq!['>'], a) {
                    None => s.subrange(i, s.len() as int),
                    Some(g) => if g < a || g >= s.len() {
                        seq![]
                    } else {
                        match find_from(s, lit_a_close(), g + 1) {
                            None => s.subrange(i, a) + s.subrange(g + 1, s.len() as int),
                            Some(e) => if e < g + 1 || e + 4 > s.len() {
                                seq![]
                            } else {
                                s.subrange(i, a) + s.subrange(g + 1, e) + anchors_stripped_from(
                                    s,
                                    e + 4,
                                )
                            },
                        }
                    },
                }
            },
        }
    }
}

pub open spec fn anchors_stripped(s: Seq<char>) -> Seq<char> {
    anchors_stripped_from(s, 0)
}

pub open spec fn lit_br() -> Seq<char> {
    seq!['<', 'b', 'r', '>']
}

pub open spec fn lit_br_space() -> Seq<char> {
    seq!['<', 'b', 'r', ' ', '/', '>']
}

pub open spec fn lit_br_slash() -> Seq<char> {
    seq!['<', 'b', 'r', '/', '>']
}

/// A post body as displayed: line breaks become line feeds, anchors lose
/// their tags, then entities and numeric references are decoded.
pub open spec fn body_normalized(s: Seq<char>) -> Seq<char> {
    let nl = seq!['\n'];
    ncr_decoded(
        basic_decoded(
            anchors_stripped(
                replace_all(
                    replace_all(replace_all(s, lit_br(), nl), lit_br_space(), nl),
                    lit_br_slash(),
                    nl,
                ),
            ),
        ),
    )
}

// ---------------------------------------------------------------------------
// Implementations
// ---------------------------------------------------------------------------

pub(crate) fn basic_decoded_chars(v: &Vec<char>) -> (r: Vec<char>)
    ensures
        r@ == basic_decoded(v@),
{
    let (p1, r1) = (vec!['&', 'g', 't', ';'], vec!['>']);
    let (p2, r2) = (vec!['&', 'l', 't', ';'], vec!['<']);
    let (p3, r3) = (vec!['&', 'a', 'm', 'p', ';'], vec!['&']);
    let (p4, r4) = (vec!['&', 'q', 'u', 'o', 't', ';'], vec!['"']);
    let (p5, r5) = (vec!['&', '#', '3', '9', ';'], vec!['\'']);
    assert(p1@ =~= lit_gt() && r1@ =~= seq!['>']);
    assert(p2@ =~= lit_lt() && r2@ =~= seq!['<']);
    assert(p3@ =~= lit_amp() && r3@ =~= seq!['&']);
    assert(p4@ =~= lit_quot() && r4@ =~= seq!['"']);
    assert(p5@ =~= lit_apos() && r5@ =~= seq!['\'']);
    let a = replace_all_exec(v, &p1, &r1);
    let b = replace_all_exec(&a, &p2, &r2);
    let c = replace_all_exec(&b, &p3, &r3);
    let d = replace_all_exec(&c, &p4, &r4);
    replace_all_exec(&d, &p5, &r5)
}

/// Replaces `&gt;`, `&lt;`, `&amp;`, `&quot;` and `&#39;`, in that order.
pub fn decode_basic_html_entities(input: &str) -> (r: String)
    ensures
        r@ == basic_decoded(input@),
{
    let v = chars_of(input);
    string_of(&basic_decoded_chars(&v))
}

/// `char::from_u32`, trusted to give the character of a Unicode scalar
/// value and `None` for any other number (a surrogate or above 0x10FFFF).
#[verifier::external_body]
fn char_from_u32(u: u32) -> (r: Option<char>)
    ensures
        r == (if is_scalar(u as nat) {
            Some(u as char)
        } else {
            None
        }),
{
    char::from_u32(u)
}

fn ncr_value_exec(v: &Vec<char>, from: usize, to: usize) -> (r: Option<char>)
    requires
        from <= to <= v.len(),
    ensures
        r == ncr_value(v@.subrange(from as int, to as int)),
{
    let ghost t = v@.subrange(from as int, to as int);
    let parsed = if from < to && (v[from] == 'x' || v[from] == 'X') {
        assert(t.skip(1) =~= v@.subrange(from + 1, to as int));
        parse_unsigned_exec(v, from + 1, to, 16, 0xFFFF_FFFF)
    } else {
        parse_unsigned_exec(v, from, to, 10, 0xFFFF_FFFF)
    };
    match parsed {
        Some(u) => char_from_u32(u as u32),
        None => None,
    }
}

pub(crate) fn ncr_decoded_chars(v: &Vec<char>) -> (r: Vec<char>)
    ensures
        r@ == ncr_decoded(v@),
{
    let mut out: Vec<char> = Vec::new();
    let mut i: usize = 0;
    while i < v.len()
        invariant
            i <= v.len(),
            ncr_decoded(v@) == out@ + ncr_decoded_from(v@, i as int),
        decreases v.len() - i,
    {
        if i + 1 < v.len() && v[i] == '&' && v[i + 1] == '#' {
            let k = index_of_from_exec(v, ';', i + 2);
            if k == v.len() {
                out.push('&');
                i += 1;
            } else {
                match ncr_value_exec(v, i + 2, k) {
                    Some(c) => {
                        out.push(c);
                        i = k + 1;
                    },
                    None => {
                        out.push('&');
                        i += 1;
                    },
                }
            }
        } else {
            out.push(v[i]);
            i += 1;
        }
    }
    out
}

/// Decodes `&#NNN;` and `&#xHHHH;` references that denote a character; a
/// reference without `;`, or whose body is no character, is left as it is.
pub fn decode_numeric_char_references(input: &str) -> (r: String)
    ensures
        r@ == ncr_decoded(input@),
{
    let v = chars_of(input);
    string_of(&ncr_decoded_chars(&v))
}

pub(crate) fn inline_decoded_chars(v: &Vec<char>) -> (r: Vec<char>)
    ensures
        r@ == inline_decoded(v@),
{
    ncr_decoded_chars(&basic_decoded_chars(v))
}

/// Named entities, then numeric references.
pub fn decode_inline_html_text(input: &str) -> (r: String)
    ensures
        r@ == inline_decoded(input@),
{
    let v = chars_of(input);
    string_of(&inline_decoded_chars(&v))
}

/// Appends the segment for `v[from..to]` with weight `bold`.
fn push_segment(out: &mut Vec<(bool, String)>, bold: bool, v: &Vec<char>, from: usize, to: usize)
    requires
        from <= to <= v.len(),
    ensures
        final(out).deep_view() == old(out).deep_view() + segment(bold, v@.subrange(from as int, to as int)),
{
    let mut raw: Vec<char> = Vec::new();
    extend_range(&mut raw, v, from, to);
    let d = inline_decoded_chars(&raw);
    if d.len() > 0 {
        out.push((bold, string_of(&d)));
        assert(final(out).deep_view() =~= old(out).deep_view() + seq![(bold, d@)]) by {
            assert(final(out)@ == old(out)@.push((bold, final(out)@.last().1)));
        }
    } else {
        assert(old(out).deep_view() + seq![] =~= old(out).deep_view());
    }
}

/// Splits a name field at `<b>` and `</b>` into decoded segments, each with
/// whether it is bold; the field starts bold, and empty segments are dropped.
pub fn parse_response_name_html(input: &str) -> (r: Vec<(bool, String)>)
    ensures
        r.deep_view() == name_segments(input@),
{
    let v = chars_of(input);
    let open = vec!['<', 'b', '>'];
    let close = vec!['<', '/', 'b', '>'];
    let mut out: Vec<(bool, String)> = Vec::new();
    let mut i: usize = 0;
    let mut bold = true;
    while i < v.len()
        invariant
            i <= v.len(),
            open@ == lit_b_open(),
            close@ == lit_b_close(),
            name_segments(v@) == out.deep_view() + name_segments_from(v@, i as int, bold),
        decreases v.len() - i,
    {
        let o = find_from_exec(&v, &open, i);
        let c = find_from_exec(&v, &close, i);
        proof {
            lemma_find_from_props(v@, open@, i as int);
            lemma_find_from_props(v@, close@, i as int);
        }
        let next: Option<(usize, usize, bool)> = match (o, c) {
            (Some(a), Some(b)) => if a < b {
                Some((a, 3, true))
            } else {
                Some((b, 4, false))
            },
            (Some(a), None) => Some((a, 3, true)),
            (None, Some(b)) => Some((b, 4, false)),
            (None, None) => None,
        };
        match next {
            None => {
                push_segment(&mut out, bold, &v, i, v.len());
                proof {
                    assert(name_segments_from(v@, v.len() as int, bold) == Seq::<(bool, Seq<char>)>::empty());
                }
                i = v.len();
            },
            Some((ix, len, nb)) => {
                push_segment(&mut out, bold, &v, i, ix);
                i = ix + len;
                bold = nb;
            },
        }
    }
    assert(out.deep_view() + Seq::<(bool, Seq<char>)>::empty() =~= out.deep_view());
    out
}

/// The name field without its markup.
pub fn response_name_plain_text(input: &str) -> (r: String)
    ensures
        r@ == segments_text(name_segments(input@)),
{
    let segs = parse_response_name_html(input);
    let mut out = String::new();
    let mut k: usize = 0;
    while k < segs.len()
        invariant
            k <= segs.len(),
            segs.deep_view() == name_segments(input@),
            out@ == segments_text(segs.deep_view().take(k as int)),
        decreases segs.len() - k,
    {
        out.append(segs[k].1.as_str());
        k += 1;
        assert(segs.deep_view().take(k as int).drop_last() =~= segs.deep_view().take(k - 1));
    }
    assert(segs.deep_view().take(segs.len() as int) =~= segs.deep_view());
    out
}

/// Split positions of `v[from..to]` after each whitespace character.
pub(crate) fn split_inclusive_ws_spans(v: &Vec<char>, from: usize, to: usize) -> (r: Vec<Span>)
    requires
        from <= to <= v.len(),
    ensures
        spans_in_bounds(v@, r@),
        spans_view(v@, r@) == split_inclusive_ws(v@.subrange(from as int, to as int)),
{
    let mut r: Vec<Span> = Vec::new();
    let mut i: usize = from;
    let ghost whole = v@.subrange(from as int, to as int);
    assert(whole.skip(0) =~= whole);
    assert(spans_view(v@, r@) + split_inclusive_ws(whole) =~= split_inclusive_ws(whole));
    while i < to
        invariant
            from <= i <= to <= v.len(),
            whole == v@.subrange(from as int, to as int),
            spans_in_bounds(v@, r@),
            split_inclusive_ws(whole) == spans_view(v@, r@) + split_inclusive_ws(
                v@.subrange(i as int, to as int),
            ),
        decreases to - i,
    {
        let ghost rest = v@.subrange(i as int, to as int);
        let mut j: usize = i;
        while j < to && !is_whitespace(v[j])
            invariant
                i <= j <= to <= v.len(),
                rest == v@.subrange(i as int, to as int),
                forall|q: int| i <= q < j ==> !is_ws(v@[q]),
            decreases to - j,
        {
            j += 1;
        }
        proof {
            lemma_ws_index_from(rest, 0);
            let w = ws_index_from(rest, 0);
            if w < j - i {
                assert(rest[w] == v@[i + w]);
            }
            if j < to {
                assert(rest[j - i] == v@[j as int]);
            }
            assert forall|q: int| 0 <= q < j - i implies !is_ws(rest[q]) by {
                assert(rest[q] == v@[i + q]);
            }
            assert(w == j - i);
        }
        if j == to {
            r.push(Span { start: i, end: to });
            proof {
                assert(v@.subrange(to as int, to as int).len() == 0);
                assert(spans_view(v@, r@) =~= spans_view(v@, r@.drop_last()).push(rest));
            }
            i = to;
        } else {
            r.push(Span { start: i, end: j + 1 });
            proof {
                assert(rest.take(j - i + 1) =~= v@.subrange(i as int, j + 1));
                assert(rest.skip(j - i + 1) =~= v@.subrange(j + 1, to as int));
                assert(spans_view(v@, r@) =~= spans_view(v@, r@.drop_last()).push(
                    v@.subrange(i as int, j + 1),
                ));
            }
            i = j + 1;
        }
    }
    assert(v@.subrange(to as int, to as int).len() == 0);
    assert(spans_view(v@, r@) + Seq::<Seq<char>>::empty() =~= spans_view(v@, r@));
    r
}

/// The name field as tokens for wrapping: each segment split after every
/// whitespace character, each token keeping its segment's weight.
pub fn split_response_name_tokens(input: &str) -> (r: Vec<(bool, String)>)
    ensures
        r.deep_view() == segment_tokens(name_segments(input@)),
{
    let segs = parse_response_name_html(input);
    let mut out: Vec<(bool, String)> = Vec::new();
    let mut k: usize = 0;
    while k < segs.len()
        invariant
            k <= segs.len(),
            segs.deep_view() == name_segments(input@),
            out.deep_view() == segment_tokens(segs.deep_view().take(k as int)),
        decreases segs.len() - k,
    {
        let bold = segs[k].0;
        let text = chars_of(segs[k].1.as_str());
        let spans = split_inclusive_ws_spans(&text, 0, text.len());
        assert(text@.subrange(0, text@.len() as int) =~= text@);
        let ghost pieces = split_inclusive_ws(text@);
        let ghost before = out.deep_view();
        let mut q: usize = 0;
        while q < spans.len()
            invariant
                q <= spans.len(),
                spans_in_bounds(text@, spans@),
                spans_view(text@, spans@) == pieces,
                out.deep_view() == before + pieces.take(q as int).map_values(
                    |t: Seq<char>| (bold, t),
                ),
            decreases spans.len() - q,
        {
            let sp = &spans[q];
            assert(spans@[q as int].start <= spans@[q as int].end <= text@.len());
            let ghost prev = out.deep_view();
            let piece = string_of_range(&text, sp.start, sp.end);
            out.push((bold, piece));
            assert(out.deep_view() =~= prev.push((bold, piece@)));
            q += 1;
            assert(pieces[q - 1] == text@.subrange(
                spans@[q - 1].start as int,
                spans@[q - 1].end as int,
            ));
            assert(pieces.take(q as int).map_values(|t: Seq<char>| (bold, t)) =~= pieces.take(
                q - 1,
            ).map_values(|t: Seq<char>| (bold, t)).push((bold, pieces[q - 1])));
        }
        assert(pieces.take(spans.len() as int) =~= pieces);
        k += 1;
        proof {
            let sv = segs.deep_view();
            assert(sv.take(k as int).drop_last() =~= sv.take(k - 1));
            assert(sv.take(k as int).last() == (bold, text@));
        }
    }
    assert(segs.deep_view().take(segs.len() as int) =~= segs.deep_view());
    out
}

pub(crate) fn anchors_stripped_chars(v: &Vec<char>) -> (r: Vec<char>)
    ensures
        r@ == anchors_stripped(v@),
{
    let a_open = vec!['<', 'a'];
    let gt = vec!['>'];
    let a_close = vec!['<', '/', 'a', '>'];
    let mut out: Vec<char> = Vec::new();
    let mut i: usize = 0;
    loop
        invariant
            i <= v.len(),
            a_open@ == lit_a_open(),
            gt@ == seq!['>'],
            a_close@ == lit_a_close(),
            anchors_stripped(v@) == out@ + anchors_stripped_from(v@, i as int),
        decreases v.len() - i,
    {
        let found = find_from_exec(v, &a_open, i);
        proof {
            lemma_find_from_props(v@, a_open@, i as int);
        }
        match found {
            None => {
                extend_range(&mut out, v, i, v.len());
                return out;
            },
            Some(a) => {
                let g = find_from_exec(v, &gt, a);
                proof {
                    lemma_find_from_props(v@, gt@, a as int);
                }
                match g {
                    None => {
                        extend_range(&mut out, v, i, v.len());
                        return out;
                    },
                    Some(g) => {
                        let e = find_from_exec(v, &a_close, g + 1);
                        proof {
                            lemma_find_from_props(v@, a_close@, g + 1);
                        }
                        match e {
                            None => {
                                extend_range(&mut out, v, i, a);
                                extend_range(&mut out, v, g + 1, v.len());
                                return out;
                            },
                            Some(e) => {
                                extend_range(&mut out, v, i, a);
                                extend_range(&mut out, v, g + 1, e);
                                i = e + 4;
                            },
                        }
                    },
                }
            },
        }
    }
}

/// Replaces every `<a ...>text</a>` with `text`.
pub fn strip_anchor_tags(input: &str) -> (r: String)
    ensures
        r@ == anchors_stripped(input@),
{
    let v = chars_of(input);
    string_of(&anchors_stripped_chars(&v))
}

pub(crate) fn body_normalized_chars(v: &Vec<char>) -> (r: Vec<char>)
    ensures
        r@ == body_normalized(v@),
{
    let nl = vec!['\n'];
    let p1 = vec!['<', 'b', 'r', '>'];
    let p2 = vec!['<', 'b', 'r', ' ', '/', '>'];
    let p3 = vec!['<', 'b', 'r', '/', '>'];
    assert(nl@ =~= seq!['\n'] && p1@ =~= lit_br() && p2@ =~= lit_br_space() && p3@ =~= lit_br_slash());
    let a = replace_all_exec(v, &p1, &nl);
    let b = replace_all_exec(&a, &p2, &nl);
    let c = replace_all_exec(&b, &p3, &nl);
    let d = anchors_stripped_chars(&c);
    let e = basic_decoded_chars(&d);
    ncr_decoded_chars(&e)
}

/// A `.dat` post body as displayed: `<br>`, `<br />` and `<br/>` become line
/// feeds, anchors lose their tags, and entities and references are decoded.
pub fn normalize_dat_body_html(body: &str) -> (r: String)
    ensures
        r@ == body_normalized(body@),
{
    let v = chars_of(body);
    string_of(&body_normalized_chars(&v))
}

} // verus!
