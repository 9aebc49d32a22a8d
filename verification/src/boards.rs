//! Thread lists (`subject.txt`) and thread logs (`.dat`): decoding the bytes
//! a board serves, parsing them into rows, and the rules for using a cached
//! copy, refreshing it, and appending a partial download to it.

use vstd::prelude::*;
use crate::textseq::{
    chars_of, ends_with, ends_with_exec, extend_all, find, find_from, find_from_exec,
    lemma_find_from_props, line_spans, lines, matches_at, parse_i64, parse_unsigned,
    parse_unsigned_exec, replace_all, replace_all_exec, slice_vec, spans_in_bounds, spans_view,
    split_ws, starts_with, starts_with_exec, string_of, string_of_range, trim, trim_bounds, Span,
    is_whitespace, is_ws, ws_index_from, lemma_ws_index_from, digits_value, digit_char,
};
use crate::html::{body_normalized, body_normalized_chars, inline_decoded, inline_decoded_chars};

verus! {

// ---------------------------------------------------------------------------
// Decoding
// ---------------------------------------------------------------------------

/// The text that encoding_rs's Shift_JIS decoding (with BOM sniffing, and
/// malformed sequences replaced) produces for `bytes`.
pub uninterp spec fn shift_jis_text(bytes: Seq<u8>) -> Seq<char>;

/// All bytes are ASCII.
pub open spec fn all_ascii(bytes: Seq<u8>) -> bool {
    forall|i: int| 0 <= i < bytes.len() ==> bytes[i] < 0x80
}

pub open spec fn ascii_chars(bytes: Seq<u8>) -> Seq<char> {
    bytes.map_values(|b: u8| b as char)
}

/// Bytes a board serves are decoded as Shift_JIS.
///
/// `encoding_rs::SHIFT_JIS.decode` is trusted to give a result that depends
/// on the bytes alone, and to give ASCII bytes back as the same characters
/// (Shift_JIS is ASCII-compatible and an ASCII input has no byte-order mark).
/// Its allocation panics when `3 * len` overflows, which the bound rules out.
#[verifier::external_body]
pub(crate) fn decode_5ch_bytes(bytes: &[u8]) -> (r: String)
    requires
        bytes@.len() <= isize::MAX / 8,
    ensures
        r@ == shift_jis_text(bytes@),
        all_ascii(bytes@) ==> r@ == ascii_chars(bytes@),
{
    let (text, _, _) = encoding_rs::SHIFT_JIS.decode(bytes);
    text.into_owned()
}

// ---------------------------------------------------------------------------
// Thread lists
// ---------------------------------------------------------------------------

/// A thread of a board's list.
pub struct ThreadItem {
    pub dat_file: String,
    pub title: String,
    pub response_count: usize,
}

pub struct ThreadItemView {
    pub dat_file: Seq<char>,
    pub title: Seq<char>,
    pub response_count: usize,
}

impl DeepView for ThreadItem {
    type V = ThreadItemView;

    open spec fn deep_view(&self) -> ThreadItemView {
        ThreadItemView {
            dat_file: self.dat_file@,
            title: self.title@,
            response_count: self.response_count,
        }
    }
}

impl Clone for ThreadItem {
    fn clone(&self) -> (r: Self)
        ensures
            r.deep_view() == self.deep_view(),
    {
        ThreadItem {
            dat_file: self.dat_file.clone(),
            title: self.title.clone(),
            response_count: self.response_count,
        }
    }
}

pub open spec fn lit_sep() -> Seq<char> {
    seq!['<', '>']
}

pub open spec fn lit_count_open() -> Seq<char> {
    seq![' ', '(']
}

/// The last position where `p` occurs in `s` at or before `i`.
pub open spec fn rfind_at_or_before(s: Seq<char>, p: Seq<char>, i: int) -> Option<int>
    decreases i + 1,
{
    if i < 0 {
        None
    } else if matches_at(s, i, p) {
        Some(i)
    } else {
        rfind_at_or_before(s, p, i - 1)
    }
}

/// `str::rfind`.
pub open spec fn rfind(s: Seq<char>, p: Seq<char>) -> Option<int> {
    rfind_at_or_before(s, p, s.len() - p.len())
}

/// The response count written after a title: what follows the last ` (`,
/// without one `)` at its end, trimmed, read as a `usize` (0 if it is none).
pub open spec fn count_of(right: Seq<char>) -> usize {
    let c = trim(
        if ends_with(right, seq![')']) {
            right.drop_last()
        } else {
            right
        },
    );
    match parse_unsigned(c, 10, usize::MAX as nat) {
        Some(n) => n as usize,
        None => 0,
    }
}

/// A `subject.txt` line: `<key>.dat<>title (count)`; a line without `<>` is
/// skipped.  Key and title are trimmed; a title without ` (` has count 0;
/// the title is HTML-decoded.
pub open spec fn subject_line(line: Seq<char>) -> Option<ThreadItemView> {
    match find(line, lit_sep()) {
        None => None,
        Some(k) => {
            let dat = trim(line.take(k));
            let tp = trim(line.skip(k + 2));
            let (title, count) = match rfind(tp, lit_count_open()) {
                Some(j) => (trim(tp.take(j)), count_of(tp.skip(j + 2))),
                None => (tp, 0usize),
            };
            Some(ThreadItemView { dat_file: dat, title: inline_decoded(title), response_count: count })
        },
    }
}

pub open spec fn subject_items_of(ls: Seq<Seq<char>>) -> Seq<ThreadItemView>
    decreases ls.len(),
{
    if ls.len() == 0 {
        seq![]
    } else {
        match subject_line(ls.last()) {
            Some(t) => subject_items_of(ls.drop_last()).push(t),
            None => subject_items_of(ls.drop_last()),
        }
    }
}

/// The threads of a `subject.txt`, in order.
pub open spec fn subject_items(content: Seq<char>) -> Seq<ThreadItemView> {
    subject_items_of(lines(content))
}

fn rfind_exec(s: &Vec<char>, p: &Vec<char>) -> (r: Option<usize>)
    ensures
        match r {
            Some(k) => rfind(s@, p@) == Some(k as int),
            None => rfind(s@, p@) is None,
        },
{
    if p.len() > s.len() {
        return None;
    }
    let mut i: usize = s.len() - p.len();
    loop
        invariant
            i <= s.len() - p.len(),
            rfind(s@, p@) == rfind_at_or_before(s@, p@, i as int),
        decreases i,
    {
        if crate::textseq::matches_at_exec(s, i, p) {
            return Some(i);
        }
        if i == 0 {
            return None;
        }
        i -= 1;
    }
}

/// Parses a trimmed count piece.
fn count_of_exec(v: &Vec<char>, from: usize, to: usize) -> (r: usize)
    requires
        from <= to <= v.len(),
    ensures
        r == count_of(v@.subrange(from as int, to as int)),
{
    let ghost right = v@.subrange(from as int, to as int);
    let end = if from < to && v[to - 1] == ')' {
        assert(right.drop_last() =~= v@.subrange(from as int, to - 1));
        assert(right.skip(right.len() - 1) =~= seq![')']);
        assert(ends_with(right, seq![')']));
        to - 1
    } else {
        proof {
            if ends_with(right, seq![')']) {
                assert(right.skip(right.len() - 1)[0] == ')');
                assert(right[right.len() - 1] == v@[to - 1]);
            }
        }
        to
    };
    let (a, b) = trim_bounds(v, from, end);
    let max: u64 = usize::MAX as u64;
    assert(max as nat == usize::MAX as nat);
    let ghost c = trim(
        if ends_with(right, seq![')']) {
            right.drop_last()
        } else {
            right
        },
    );
    assert(v@.subrange(a as int, b as int) == c);
    match parse_unsigned_exec(v, a, b, 10, max) {
        Some(n) => {
            assert(parse_unsigned(c, 10, usize::MAX as nat) == Some(n as nat));
            n as usize
        },
        None => 0,
    }
}

fn subject_line_exec(v: &Vec<char>, from: usize, to: usize) -> (r: Option<ThreadItem>)
    requires
        from <= to <= v.len(),
    ensures
        match r {
            Some(t) => subject_line(v@.subrange(from as int, to as int)) == Some(t.deep_view()),
            None => subject_line(v@.subrange(from as int, to as int)) is None,
        },
{
    let line = slice_vec(v, from, to);
    let sep = vec!['<', '>'];
    assert(sep@ =~= lit_sep());
    let k = match find_from_exec(&line, &sep, 0) {
        None => {
            return None;
        },
        Some(k) => k,
    };
    proof {
        lemma_find_from_props(line@, sep@, 0);
        assert(matches_at(line@, k as int, sep@));
    }
    let (d0, d1) = trim_bounds(&line, 0, k);
    assert(line@.subrange(0, k as int) =~= line@.take(k as int));
    let dat = string_of_range(&line, d0, d1);
    let (t0, t1) = trim_bounds(&line, k + 2, line.len());
    assert(line@.subrange(k + 2, line.len() as int) =~= line@.skip(k + 2));
    let tp = slice_vec(&line, t0, t1);
    let open = vec![' ', '('];
    assert(open@ =~= lit_count_open());
    let (title_raw, count): (Vec<char>, usize) = match rfind_exec(&tp, &open) {
        Some(j) => {
            proof {
                lemma_rfind_props(tp@, open@, tp@.len() - open@.len());
            }
            let (a, b) = trim_bounds(&tp, 0, j);
            assert(tp@.subrange(0, j as int) =~= tp@.take(j as int));
            let c = count_of_exec(&tp, j + 2, tp.len());
            assert(tp@.subrange(j + 2, tp.len() as int) =~= tp@.skip(j + 2));
            (slice_vec(&tp, a, b), c)
        },
        None => (tp, 0),
    };
    let title = inline_decoded_chars(&title_raw);
    Some(ThreadItem { dat_file: dat, title: string_of(&title), response_count: count })
}

pub proof fn lemma_rfind_props(s: Seq<char>, p: Seq<char>, i: int)
    ensures
        rfind_at_or_before(s, p, i) matches Some(k) ==> k <= i && matches_at(s, k, p),
    decreases i + 1,
{
    if i >= 0 && !matches_at(s, i, p) {
        lemma_rfind_props(s, p, i - 1);
    }
}

/// The threads listed in the text of a `subject.txt`.
pub fn parse_subject_content(content: &str) -> (r: Vec<ThreadItem>)
    ensures
        r.deep_view() == subject_items(content@),
{
    let v = chars_of(content);
    let spans = line_spans(&v);
    let ghost ls = lines(v@);
    let mut out: Vec<ThreadItem> = Vec::new();
    let mut k: usize = 0;
    while k < spans.len()
        invariant
            k <= spans.len(),
            spans_in_bounds(v@, spans@),
            spans_view(v@, spans@) == ls,
            ls == lines(content@),
            out.deep_view() == subject_items_of(ls.take(k as int)),
        decreases spans.len() - k,
    {
        assert(spans@[k as int].start <= spans@[k as int].end <= v.len());
        let item = subject_line_exec(&v, spans[k].start, spans[k].end);
        assert(ls.take(k + 1).drop_last() =~= ls.take(k as int));
        assert(ls.take(k + 1).last() == ls[k as int]);
        match item {
            Some(t) => {
                let ghost before = out.deep_view();
                out.push(t);
                assert(out.deep_view() =~= before.push(t.deep_view()));
            },
            None => {},
        }
        k += 1;
    }
    assert(ls.take(spans.len() as int) =~= ls);
    out
}

pub open spec fn msg_subject_unparsed() -> Seq<char> {
    "subject.txt を解析できませんでした"@
}

/// The rows of a cached `subject.txt`, used only when it lists a thread.
pub fn subject_rows_from_cache(raw: &[u8]) -> (r: Option<Vec<ThreadItem>>)
    requires
        raw@.len() <= isize::MAX / 8,
    ensures
        subject_items(shift_jis_text(raw@)).len() > 0 <==> r is Some,
        r matches Some(rows) ==> rows.deep_view() == subject_items(shift_jis_text(raw@)),
{
    let content = decode_5ch_bytes(raw);
    let rows = parse_subject_content(content.as_str());
    if rows.len() > 0 {
        Some(rows)
    } else {
        None
    }
}

/// The rows of a downloaded `subject.txt`; one that lists no thread is an error.
pub fn subject_rows_from_download(raw: &[u8]) -> (r: Result<Vec<ThreadItem>, String>)
    requires
        raw@.len() <= isize::MAX / 8,
    ensures
        subject_items(shift_jis_text(raw@)).len() > 0 <==> r is Ok,
        r matches Ok(rows) ==> rows.deep_view() == subject_items(shift_jis_text(raw@)),
        r matches Err(e) ==> e@ == msg_subject_unparsed(),
{
    let content = decode_5ch_bytes(raw);
    let rows = parse_subject_content(content.as_str());
    if rows.len() > 0 {
        Ok(rows)
    } else {
        Err("subject.txt を解析できませんでした".to_owned())
    }
}

// ---------------------------------------------------------------------------
// Thread keys and creation times
// ---------------------------------------------------------------------------

/// The creation time a thread key (`<unix seconds>.dat`) carries: one `.dat`
/// suffix dropped, trimmed, read as an `i64`, kept when positive.
pub open spec fn dat_unix_seconds(dat: Seq<char>) -> Option<i64> {
    let raw = trim(
        if ends_with(dat, crate::urls::lit_dat_ext()) {
            dat.take(dat.len() - 4)
        } else {
            dat
        },
    );
    match parse_i64(raw) {
        Some(u) => if u > 0 {
            Some(u)
        } else {
            None
        },
        None => None,
    }
}

pub fn parse_dat_unix_seconds(dat_file: &str) -> (r: Option<i64>)
    ensures
        r == dat_unix_seconds(dat_file@),
{
    let v = chars_of(dat_file);
    let ext = vec!['.', 'd', 'a', 't'];
    assert(ext@ =~= crate::urls::lit_dat_ext());
    let end = if ends_with_exec(&v, &ext) {
        assert(v@.subrange(0, v.len() - 4) =~= v@.take(v.len() - 4));
        v.len() - 4
    } else {
        assert(v@.subrange(0, v.len() as int) =~= v@);
        v.len()
    };
    let (a, b) = trim_bounds(&v, 0, end);
    let ghost raw = v@.subrange(a as int, b as int);
    if a == b {
        return None;
    }
    if v[a] == '-' {
        // a negative number, or zero, is never a creation time
        assert(raw[0] == '-');
        return None;
    }
    proof {
        assert(raw[0] == v@[a as int]);
    }
    match parse_unsigned_exec(&v, a, b, 10, 0x7fff_ffff_ffff_ffff) {
        Some(u) => {
            if u > 0 {
                Some(u as i64)
            } else {
                None
            }
        },
        None => None,
    }
}

// ---------------------------------------------------------------------------
// Thread logs
// ---------------------------------------------------------------------------

/// A post of a thread.
pub struct ResponseItem {
    pub number: usize,
    pub name: String,
    pub timestamp: String,
    pub id: String,
    pub body: String,
}

pub struct ResponseItemView {
    pub number: usize,
    pub name: Seq<char>,
    pub timestamp: Seq<char>,
    pub id: Seq<char>,
    pub body: Seq<char>,
}

impl DeepView for ResponseItem {
    type V = ResponseItemView;

    open spec fn deep_view(&self) -> ResponseItemView {
        ResponseItemView {
            number: self.number,
            name: self.name@,
            timestamp: self.timestamp@,
            id: self.id@,
            body: self.body@,
        }
    }
}

impl Clone for ResponseItem {
    fn clone(&self) -> (r: Self)
        ensures
            r.deep_view() == self.deep_view(),
    {
        ResponseItem {
            number: self.number,
            name: self.name.clone(),
            timestamp: self.timestamp.clone(),
            id: self.id.clone(),
            body: self.body.clone(),
        }
    }
}

/// `str::split` at a non-empty pattern.
pub open spec fn split_at_pat(s: Seq<char>, p: Seq<char>) -> Seq<Seq<char>>
    decreases s.len(),
{
    match find(s, p) {
        None => seq![s],
        Some(k) => if p.len() == 0 || k < 0 || k + p.len() > s.len() {
            seq![s]
        } else {
            seq![s.take(k)] + split_at_pat(s.skip(k + p.len()), p)
        },
    }
}

/// The `n`-th piece of a `.dat` line, or empty when there are fewer.
pub open spec fn dat_field(line: Seq<char>, n: int) -> Seq<char> {
    let parts = split_at_pat(line, lit_sep());
    if n < parts.len() {
        parts[n]
    } else {
        seq![]
    }
}

pub open spec fn lit_id() -> Seq<char> {
    seq!['I', 'D', ':']
}

pub open spec fn lit_no_id() -> Seq<char> {
    seq!['I', 'D', ':', '-', '-', '-', '-']
}

/// The first whitespace-separated token starting with `ID:`, or `ID:----`.
pub open spec fn first_id_token(toks: Seq<Seq<char>>) -> Seq<char>
    decreases toks.len(),
{
    if toks.len() == 0 {
        lit_no_id()
    } else if starts_with(toks[0], lit_id()) {
        toks[0]
    } else {
        first_id_token(toks.skip(1))
    }
}

/// Post `number` of a `.dat`: `name<>mail<>date and ID<>body<>...`.  The
/// name, date and body are trimmed; the ID is the date's first token starting
/// with `ID:` (or `ID:----`); the time is the date with that token removed,
/// trimmed; the body is normalized.
pub open spec fn dat_line(number: int, line: Seq<char>) -> ResponseItemView {
    let date = trim(dat_field(line, 2));
    let id = first_id_token(split_ws(date));
    ResponseItemView {
        number: number as usize,
        name: trim(dat_field(line, 0)),
        timestamp: trim(replace_all(date, id, seq![])),
        id,
        body: body_normalized(trim(dat_field(line, 3))),
    }
}

pub open spec fn dat_items_of(ls: Seq<Seq<char>>) -> Seq<ResponseItemView>
    decreases ls.len(),
{
    if ls.len() == 0 {
        seq![]
    } else {
        dat_items_of(ls.drop_last()).push(dat_line(ls.len() as int, ls.last()))
    }
}

/// The posts of a `.dat`, one per line, numbered from 1.
pub open spec fn dat_items(content: Seq<char>) -> Seq<ResponseItemView> {
    dat_items_of(lines(content))
}

/// Bounds of field `n` of `v[from..to]`.
fn dat_field_bounds(v: &Vec<char>, from: usize, to: usize, n: usize) -> (r: (usize, usize))
    requires
        from <= to <= v.len(),
    ensures
        from <= r.0 <= r.1 <= to,
        v@.subrange(r.0 as int, r.1 as int) == dat_field(v@.subrange(from as int, to as int), n as int),
{
    let sep = vec!['<', '>'];
    assert(sep@ =~= lit_sep());
    let ghost line = v@.subrange(from as int, to as int);
    let mut start: usize = from;
    let mut k: usize = 0;
    loop
        invariant
            from <= start <= to <= v.len(),
            sep@ == lit_sep(),
            line == v@.subrange(from as int, to as int),
            k <= n,
            dat_field(line, n as int) == (if (n - k) < split_at_pat(
                v@.subrange(start as int, to as int),
                lit_sep(),
            ).len() {
                split_at_pat(v@.subrange(start as int, to as int), lit_sep())[n - k]
            } else {
                seq![]
            }),
        decreases n - k,
    {
        let ghost rest = v@.subrange(start as int, to as int);
        let found = find_from_exec(v, &sep, start);
        match found {
            Some(e) if e < to && to - e >= 2 => {
                proof {
                    lemma_find_from_props(v@, sep@, start as int);
                    lemma_find_shift(v@, sep@, start as int, to as int, e as int);
                    assert(rest.take(e - start) =~= v@.subrange(start as int, e as int));
                    assert(rest.skip(e - start + 2) =~= v@.subrange(e + 2, to as int));
                }
                if k == n {
                    return (start, e);
                }
                start = e + 2;
                k += 1;
            },
            _ => {
                proof {
                    lemma_find_from_props(v@, sep@, start as int);
                    lemma_no_find_in_range(v@, sep@, start as int, to as int, found);
                }
                if k == n {
                    return (start, to);
                }
                return (to, to);
            },
        }
    }
}

proof fn lemma_find_shift(s: Seq<char>, p: Seq<char>, start: int, to: int, e: int)
    requires
        0 <= start <= e,
        e + p.len() <= to <= s.len(),
        p.len() > 0,
        matches_at(s, e, p),
        forall|j: int| start <= j < e ==> !matches_at(s, j, p),
    ensures
        find(s.subrange(start, to), p) == Some(e - start),
{
    let t = s.subrange(start, to);
    assert forall|j: int| 0 <= j < e - start implies !matches_at(t, j, p) by {
        if matches_at(t, j, p) {
            assert(t.subrange(j, j + p.len()) =~= s.subrange(start + j, start + j + p.len()));
            assert(matches_at(s, start + j, p));
        }
    }
    assert(t.subrange(e - start, e - start + p.len()) =~= s.subrange(e, e + p.len()));
    lemma_find_from_scan(t, p, 0, e - start);
}

proof fn lemma_find_from_scan(t: Seq<char>, p: Seq<char>, i: int, target: int)
    requires
        0 <= i <= target,
        matches_at(t, target, p),
        forall|j: int| i <= j < target ==> !matches_at(t, j, p),
    ensures
        find_from(t, p, i) == Some(target),
    decreases target - i,
{
    if i < target {
        lemma_find_from_scan(t, p, i + 1, target);
    }
}

proof fn lemma_no_find_in_range(s: Seq<char>, p: Seq<char>, start: int, to: int, found: Option<usize>)
    requires
        0 <= start <= to <= s.len(),
        p.len() > 0,
        match found {
            Some(e) => find_from(s, p, start) == Some(e as int) && e + p.len() > to,
            None => find_from(s, p, start) is None,
        },
        find_from(s, p, start) matches Some(k) ==> start <= k && matches_at(s, k, p) && forall|
            j: int,
        | start <= j < k ==> !matches_at(s, j, p),
        find_from(s, p, start) is None ==> forall|j: int| start <= j ==> !matches_at(s, j, p),
    ensures
        find(s.subrange(start, to), p) is None,
{
    let t = s.subrange(start, to);
    assert forall|j: int| 0 <= j implies !matches_at(t, j, p) by {
        if matches_at(t, j, p) {
            assert(t.subrange(j, j + p.len()) =~= s.subrange(start + j, start + j + p.len()));
            assert(matches_at(s, start + j, p));
        }
    }
    lemma_find_none_scan(t, p, 0);
}

proof fn lemma_find_none_scan(t: Seq<char>, p: Seq<char>, i: int)
    requires
        0 <= i,
        forall|j: int| i <= j ==> !matches_at(t, j, p),
    ensures
        find_from(t, p, i) is None,
    decreases t.len() + 1 - i,
{
    if i + p.len() <= t.len() {
        lemma_find_none_scan(t, p, i + 1);
    }
}

/// The ID token of a date: its first whitespace-separated token starting
/// with `ID:`, or `ID:----`.
fn first_id_token_exec(v: &Vec<char>) -> (r: Vec<char>)
    ensures
        r@ == first_id_token(split_ws(v@)),
{
    let id = vec!['I', 'D', ':'];
    assert(id@ =~= lit_id());
    let mut i: usize = 0;
    assert(v@.skip(0) =~= v@);
    while i < v.len()
        invariant
            i <= v.len(),
            id@ == lit_id(),
            first_id_token(split_ws(v@)) == first_id_token(split_ws(v@.skip(i as int))),
        decreases v.len() - i,
    {
        let ghost rest = v@.skip(i as int);
        if is_whitespace(v[i]) {
            assert(rest[0] == v@[i as int]);
            assert(rest.skip(1) =~= v@.skip(i + 1));
            i += 1;
        } else {
            let mut j: usize = i;
            while j < v.len() && !is_whitespace(v[j])
                invariant
                    i <= j <= v.len(),
                    forall|q: int| i <= q < j ==> !is_ws(v@[q]),
                decreases v.len() - j,
            {
                j += 1;
            }
            proof {
                lemma_ws_index_from(rest, 0);
                let w = ws_index_from(rest, 0);
                if w < j - i {
                    assert(rest[w] == v@[i + w]);
                }
                if j < v.len() {
                    assert(rest[j - i] == v@[j as int]);
                }
                assert(w == j - i);
                assert(rest[0] == v@[i as int]);
                assert(rest.take(j - i) =~= v@.subrange(i as int, j as int));
                assert(rest.skip(j - i) =~= v@.skip(j as int));
                assert(split_ws(rest)[0] == rest.take(j - i));
                assert(split_ws(rest).skip(1) =~= split_ws(v@.skip(j as int)));
            }
            let tok = slice_vec(v, i, j);
            if starts_with_exec(&tok, &id) {
                return tok;
            }
            i = j;
        }
    }
    assert(v@.skip(i as int).len() == 0);
    let r = vec!['I', 'D', ':', '-', '-', '-', '-'];
    assert(r@ =~= lit_no_id());
    r
}

fn dat_line_exec(number: usize, v: &Vec<char>, from: usize, to: usize) -> (r: ResponseItem)
    requires
        from <= to <= v.len(),
    ensures
        r.deep_view() == dat_line(number as int, v@.subrange(from as int, to as int)),
{
    let (n0, n1) = dat_field_bounds(v, from, to, 0);
    let (nt0, nt1) = trim_bounds(v, n0, n1);
    let name = string_of_range(v, nt0, nt1);
    let (d0, d1) = dat_field_bounds(v, from, to, 2);
    let (dt0, dt1) = trim_bounds(v, d0, d1);
    let date = slice_vec(v, dt0, dt1);
    let id = first_id_token_exec(&date);
    assert(id@.len() > 0) by {
        lemma_first_id_nonempty(split_ws(date@));
    }
    let removed = replace_all_exec(&date, &id, &Vec::new());
    let (s0, s1) = trim_bounds(&removed, 0, removed.len());
    assert(removed@.subrange(0, removed@.len() as int) =~= removed@);
    let timestamp = string_of_range(&removed, s0, s1);
    let (b0, b1) = dat_field_bounds(v, from, to, 3);
    let (bt0, bt1) = trim_bounds(v, b0, b1);
    let raw_body = slice_vec(v, bt0, bt1);
    let body = body_normalized_chars(&raw_body);
    ResponseItem { number, name, timestamp, id: string_of(&id), body: string_of(&body) }
}

proof fn lemma_first_id_nonempty(toks: Seq<Seq<char>>)
    ensures
        first_id_token(toks).len() > 0,
    decreases toks.len(),
{
    if toks.len() > 0 && !starts_with(toks[0], lit_id()) {
        lemma_first_id_nonempty(toks.skip(1));
    }
}

/// The posts of a `.dat` text.
pub fn parse_dat_content(content: &str) -> (r: Vec<ResponseItem>)
    ensures
        r.deep_view() == dat_items(content@),
{
    let v = chars_of(content);
    let spans = line_spans(&v);
    let ghost ls = lines(v@);
    let mut out: Vec<ResponseItem> = Vec::new();
    let mut k: usize = 0;
    while k < spans.len()
        invariant
            k <= spans.len(),
            spans_in_bounds(v@, spans@),
            spans_view(v@, spans@) == ls,
            ls == lines(content@),
            out.deep_view() == dat_items_of(ls.take(k as int)),
        decreases spans.len() - k,
    {
        assert(spans@[k as int].start <= spans@[k as int].end <= v.len());
        let item = dat_line_exec(k + 1, &v, spans[k].start, spans[k].end);
        assert(ls.take(k + 1).drop_last() =~= ls.take(k as int));
        assert(ls.take(k + 1).last() == ls[k as int]);
        let ghost before = out.deep_view();
        out.push(item);
        assert(out.deep_view() =~= before.push(item.deep_view()));
        k += 1;
    }
    assert(ls.take(spans.len() as int) =~= ls);
    out
}

} // verus!

verus! {

pub open spec fn msg_dat_unparsed() -> Seq<char> {
    "dat を解析できませんでした"@
}

/// The posts of a cached `.dat`, used only when it holds a post.
pub fn dat_rows_from_cache(raw: &[u8]) -> (r: Option<Vec<ResponseItem>>)
    requires
        raw@.len() <= isize::MAX / 8,
    ensures
        dat_items(shift_jis_text(raw@)).len() > 0 <==> r is Some,
        r matches Some(rows) ==> rows.deep_view() == dat_items(shift_jis_text(raw@)),
{
    let content = decode_5ch_bytes(raw);
    let rows = parse_dat_content(content.as_str());
    if rows.len() > 0 {
        Some(rows)
    } else {
        None
    }
}

/// The posts of a downloaded `.dat`; one with no post is an error.
pub fn dat_rows_from_download(raw: &[u8]) -> (r: Result<Vec<ResponseItem>, String>)
    requires
        raw@.len() <= isize::MAX / 8,
    ensures
        dat_items(shift_jis_text(raw@)).len() > 0 <==> r is Ok,
        r matches Ok(rows) ==> rows.deep_view() == dat_items(shift_jis_text(raw@)),
        r matches Err(e) ==> e@ == msg_dat_unparsed(),
{
    let content = decode_5ch_bytes(raw);
    let rows = parse_dat_content(content.as_str());
    if rows.len() > 0 {
        Ok(rows)
    } else {
        Err("dat を解析できませんでした".to_owned())
    }
}

/// What a ranged download of a `.dat` brought.
pub enum DatRangeFetchResult {
    /// The whole file.
    Full(Vec<u8>),
    /// The bytes after the cached ones.
    Append(Vec<u8>),
    /// Nothing new.
    NotModified,
}

/// The bytes to keep after a refresh, or the need for a full download.
pub enum DatMerge {
    Bytes(Vec<u8>),
    NeedFullDownload,
}

/// Combines the cached bytes of a log with what a ranged download brought:
/// a full file replaces them; nothing new, or an empty delta, keeps them; a
/// delta is appended when it starts with a line feed, as a 5ch delta does,
/// and otherwise calls for a full download.
pub fn merge_dat_fetch(cached: Vec<u8>, fetched: DatRangeFetchResult) -> (r: DatMerge)
    ensures
        match fetched {
            DatRangeFetchResult::Full(full) => r matches DatMerge::Bytes(b) && b@ == full@,
            DatRangeFetchResult::NotModified => r matches DatMerge::Bytes(b) && b@ == cached@,
            DatRangeFetchResult::Append(delta) => if delta@.len() == 0 {
                r matches DatMerge::Bytes(b) && b@ == cached@
            } else if delta@[0] != 0x0Au8 {
                r is NeedFullDownload
            } else {
                r matches DatMerge::Bytes(b) && b@ == cached@ + delta@
            },
        },
{
    match fetched {
        DatRangeFetchResult::Full(full) => DatMerge::Bytes(full),
        DatRangeFetchResult::NotModified => DatMerge::Bytes(cached),
        DatRangeFetchResult::Append(delta) => {
            if delta.len() == 0 {
                DatMerge::Bytes(cached)
            } else if delta[0] != 0x0Au8 {
                DatMerge::NeedFullDownload
            } else {
                let mut all = cached;
                let mut i: usize = 0;
                let ghost start = all@;
                while i < delta.len()
                    invariant
                        i <= delta.len(),
                        all@ == start + delta@.take(i as int),
                    decreases delta.len() - i,
                {
                    all.push(delta[i]);
                    i += 1;
                    assert(all@ =~= start + delta@.take(i as int));
                }
                assert(delta@.take(delta.len() as int) =~= delta@);
                DatMerge::Bytes(all)
            }
        },
    }
}

/// How the server answered a ranged request.
pub enum RangeReply {
    /// A response with this status.
    Status(u16),
    /// An error status.
    ErrorStatus(u16),
    /// No answer.
    Transport,
}

/// What to do with a ranged request's answer.
#[derive(PartialEq, Eq, Structural, Clone, Copy, Debug)]
pub enum RangeAction {
    /// The body is the whole file.
    UseFull,
    /// The body is the part after the cached bytes.
    UseAppend,
    /// Nothing changed.
    NotModified,
    /// Download the whole file instead.
    DownloadFull,
    /// Give up with the error.
    Fail,
}

/// The handling of a ranged `.dat` request: 200 is the whole file, 206 the
/// appended part, any other success status calls for a full download; error
/// statuses 302 and 416 mean nothing changed, any other error status calls
/// for a full download; a request with no answer fails.
pub fn range_reply_action(reply: &RangeReply) -> (r: RangeAction)
    ensures
        r == (match *reply {
            RangeReply::Status(200) => RangeAction::UseFull,
            RangeReply::Status(206) => RangeAction::UseAppend,
            RangeReply::Status(_) => RangeAction::DownloadFull,
            RangeReply::ErrorStatus(302) => RangeAction::NotModified,
            RangeReply::ErrorStatus(416) => RangeAction::NotModified,
            RangeReply::ErrorStatus(_) => RangeAction::DownloadFull,
            RangeReply::Transport => RangeAction::Fail,
        }),
{
    match reply {
        RangeReply::Status(200) => RangeAction::UseFull,
        RangeReply::Status(206) => RangeAction::UseAppend,
        RangeReply::Status(_) => RangeAction::DownloadFull,
        RangeReply::ErrorStatus(302) => RangeAction::NotModified,
        RangeReply::ErrorStatus(416) => RangeAction::NotModified,
        RangeReply::ErrorStatus(_) => RangeAction::DownloadFull,
        RangeReply::Transport => RangeAction::Fail,
    }
}

// ---------------------------------------------------------------------------
// Creation times as text
// ---------------------------------------------------------------------------

/// The pattern of the creation time shown for a thread: year, month and
/// day, hour and minute.
pub open spec fn minute_pattern() -> Seq<char> {
    "%Y/%m/%d %H:%M"@
}

pub open spec fn is_ascii_digit(c: char) -> bool {
    '0' <= c && c <= '9'
}

/// `t` has the shape of `%Y/%m/%d %H:%M` for a year of four digits:
/// `dddd/dd/dd dd:dd`.
pub open spec fn minute_text_shape(t: Seq<char>) -> bool {
    &&& t.len() == 16
    &&& t[4] == '/' && t[7] == '/' && t[10] == ' ' && t[13] == ':'
    &&& forall|i: int|
        0 <= i < 16 && i != 4 && i != 7 && i != 10 && i != 13 ==> is_ascii_digit(#[trigger] t[i])
}

/// Unix times whose date stays within the years 1 to 9999 in every time
/// zone (local offsets are less than a day).
pub open spec fn four_digit_year_seconds(unix: i64) -> bool {
    -62135596800 + 86400 <= unix && unix <= 253402300799 - 86400
}

/// The day (year, month, day of the month) of the proleptic Gregorian
/// calendar that lies `days` days after 1970-01-01.
pub open spec fn civil_from_days(days: int) -> (int, int, int) {
    let z = days + 719468;
    let era = z / 146097;
    let doe = z - era * 146097;
    let yoe = (doe - doe / 1460 + doe / 36524 - doe / 146096) / 365;
    let doy = doe - (365 * yoe + yoe / 4 - yoe / 100);
    let mp = (5 * doy + 2) / 153;
    let d = doy - (153 * mp + 2) / 5 + 1;
    let m = if mp < 10 { mp + 3 } else { mp - 9 };
    let y = yoe + era * 400;
    (if m <= 2 { y + 1 } else { y }, m, d)
}

/// The last two decimal digits of `n`.
pub open spec fn dec2(n: int) -> Seq<char> {
    seq![digit_char(((n / 10) % 10) as nat), digit_char((n % 10) as nat)]
}

/// The last four decimal digits of `n`.
pub open spec fn dec4(n: int) -> Seq<char> {
    dec2(n / 100) + dec2(n)
}

/// `%Y/%m/%d %H:%M` of the time `s` seconds after 1970-01-01 00:00, for a
/// year of four digits.
pub open spec fn minute_text_of(s: int) -> Seq<char> {
    let (y, m, d) = civil_from_days(s / 86400);
    let sod = s % 86400;
    dec4(y) + seq!['/'] + dec2(m) + seq!['/'] + dec2(d) + seq![' '] + dec2(sod / 3600) + seq![':']
        + dec2((sod % 3600) / 60)
}

/// `minute_text_of` of `unix` moved by the offset `off`.
pub open spec fn minute_text_at(unix: int, off: int) -> Seq<char> {
    minute_text_of(unix + off)
}

/// `t` is the text, to the minute, of the unix time `unix` in some time
/// zone: moved by an offset of less than a day.
pub open spec fn local_minute_text(unix: int, t: Seq<char>) -> bool {
    exists|off: int| -86400 < off < 86400 && #[trigger] minute_text_at(unix, off) == t
}

/// `Local.timestamp_opt(unix, 0).single()` of chrono, formatted with
/// `pattern`: the local date-time of a unix time, or `None`. Trusted, as
/// chrono documents, to give a single local time for every number of
/// seconds in its range (so `Some` for the four-digit years), and its
/// `%Y/%m/%d %H:%M` text to have the shape `dddd/dd/dd dd:dd` there (`%Y`
/// is zero-padded to four digits), namely the text of the unix time moved
/// by the local offset, which chrono keeps under a day either way
/// (`FixedOffset`). Which offset that is depends on the machine's time
/// zone, so it is left open.
/// Only that pattern is accepted: `to_string` panics on a pattern chrono
/// cannot format.
#[verifier::external_body]
fn local_time_text(unix: i64, pattern: &str) -> (r: Option<String>)
    requires
        pattern@ == minute_pattern(),
    ensures
        r is Some || !four_digit_year_seconds(unix),
        r matches Some(t) ==> (four_digit_year_seconds(unix) ==> minute_text_shape(t@)),
        r matches Some(t) ==> (four_digit_year_seconds(unix) ==> local_minute_text(unix as int, t@)),
{
    match chrono::TimeZone::timestamp_opt(&chrono::Local, unix, 0).single() {
        Some(dt) => Some(dt.format(pattern).to_string()),
        None => None,
    }
}

/// The creation time shown for a thread: its key's time in the local time
/// zone to the minute (`dddd/dd/dd dd:dd` for a four-digit year), or `-`
/// when the key carries no time or the time has no single local
/// representation.
pub fn format_thread_created_at(dat_file: &str) -> (r: String)
    ensures
        dat_unix_seconds(dat_file@) is None ==> r@ == seq!['-'],
        dat_unix_seconds(dat_file@) matches Some(u) && four_digit_year_seconds(u)
            ==> minute_text_shape(r@),
        dat_unix_seconds(dat_file@) matches Some(u) ==> (four_digit_year_seconds(u)
            ==> local_minute_text(u as int, r@)),
{
    let unix = match parse_dat_unix_seconds(dat_file) {
        Some(u) => u,
        None => {
            let mut r = String::new();
            crate::textseq::push_char(&mut r, '-');
            return r;
        },
    };
    created_at_text(local_time_text(unix, "%Y/%m/%d %H:%M"))
}

/// The creation time shown for a thread whose key carries a time, from the
/// local text of that time: the text itself, or `-` when there is none.
pub fn created_at_text(local: Option<String>) -> (r: String)
    ensures
        r@ == (match local {
            Some(t) => t@,
            None => seq!['-'],
        }),
{
    match local {
        Some(text) => text,
        None => {
            let mut r = String::new();
            crate::textseq::push_char(&mut r, '-');
            r
        },
    }
}

} // verus!
