//! URL rules: the thread list and log addresses of a board, the directory a
//! board is cached under, the server and board a post goes to, links in post
//! bodies, read.cgi addresses of 5ch.io threads, and image links.

use vstd::prelude::*;
use crate::textseq::{
    chars_of, contains, contains_exec, ends_with, ends_with_exec, extend_all, extend_range, find,
    find_from_exec, index_of_from, index_of_from_exec, is_ascii_alnum, is_ascii_alphanumeric,
    is_ascii_digit, lemma_index_of_from, lower, slice_vec, spans_in_bounds, spans_view, split_char,
    split_char_spans, split_inclusive_ws, starts_with, starts_with_exec, string_of, to_lower, trim,
    trim_bounds, trim_end, trim_end_bound, lines, line_spans, Span,
};
use crate::html::split_inclusive_ws_spans;

verus! {

// ---------------------------------------------------------------------------
// Board addresses
// ---------------------------------------------------------------------------

pub open spec fn lit_subject_txt() -> Seq<char> {
    seq!['s', 'u', 'b', 'j', 'e', 'c', 't', '.', 't', 'x', 't']
}

pub open spec fn lit_dat_ext() -> Seq<char> {
    seq!['.', 'd', 'a', 't']
}

pub open spec fn lit_dat_dir() -> Seq<char> {
    seq!['d', 'a', 't', '/']
}

/// `board/` followed by `rest`, adding the `/` only when missing.
pub open spec fn under_board(board: Seq<char>, rest: Seq<char>) -> Seq<char> {
    if ends_with(board, seq!['/']) {
        board + rest
    } else {
        board + seq!['/'] + rest
    }
}

/// The thread list address of a board.
pub open spec fn subject_url_of(board: Seq<char>) -> Seq<char> {
    under_board(board, lit_subject_txt())
}

/// The `.dat` file name of a thread key: `.dat` is added when missing.
pub open spec fn dat_file_name(dat: Seq<char>) -> Seq<char> {
    if ends_with(dat, lit_dat_ext()) {
        dat
    } else {
        dat + lit_dat_ext()
    }
}

/// The log address of a thread: `<board>/dat/<key>.dat`.
pub open spec fn dat_url_of(board: Seq<char>, dat: Seq<char>) -> Seq<char> {
    under_board(board, lit_dat_dir() + dat_file_name(dat))
}

fn under_board_exec(board: &Vec<char>, rest: &Vec<char>) -> (r: Vec<char>)
    ensures
        r@ == under_board(board@, rest@),
{
    let slash = vec!['/'];
    assert(slash@ =~= seq!['/']);
    let mut r: Vec<char> = Vec::new();
    extend_all(&mut r, board);
    if !ends_with_exec(board, &slash) {
        r.push('/');
    }
    extend_all(&mut r, rest);
    r
}

/// `<board>/subject.txt`.
pub fn subject_url(board_url: &str) -> (r: String)
    ensures
        r@ == subject_url_of(board_url@),
{
    let board = chars_of(board_url);
    let rest = vec!['s', 'u', 'b', 'j', 'e', 'c', 't', '.', 't', 'x', 't'];
    assert(rest@ =~= lit_subject_txt());
    string_of(&under_board_exec(&board, &rest))
}

/// `<board>/dat/<key>.dat`.
pub fn dat_url(board_url: &str, dat_file: &str) -> (r: String)
    ensures
        r@ == dat_url_of(board_url@, dat_file@),
{
    let board = chars_of(board_url);
    let dat = chars_of(dat_file);
    let ext = vec!['.', 'd', 'a', 't'];
    assert(ext@ =~= lit_dat_ext());
    let mut rest = vec!['d', 'a', 't', '/'];
    assert(rest@ =~= lit_dat_dir());
    extend_all(&mut rest, &dat);
    if !ends_with_exec(&dat, &ext) {
        extend_all(&mut rest, &ext);
    }
    string_of(&under_board_exec(&board, &rest))
}

pub open spec fn lit_scheme_sep() -> Seq<char> {
    seq![':', '/', '/']
}

/// What follows the first `://`, or the whole address when it has none.
pub open spec fn after_scheme(s: Seq<char>) -> Seq<char> {
    match find(s, lit_scheme_sep()) {
        Some(k) => s.skip(k + 3),
        None => s,
    }
}

/// The first non-empty piece.
pub open spec fn first_nonempty(v: Seq<Seq<char>>) -> Option<Seq<char>>
    decreases v.len(),
{
    if v.len() == 0 {
        None
    } else if v[0].len() > 0 {
        Some(v[0])
    } else {
        first_nonempty(v.skip(1))
    }
}

/// The non-empty pieces, in order.
pub open spec fn nonempty_parts(v: Seq<Seq<char>>) -> Seq<Seq<char>>
    decreases v.len(),
{
    if v.len() == 0 {
        seq![]
    } else {
        (if v[0].len() > 0 {
            seq![v[0]]
        } else {
            seq![]
        }) + nonempty_parts(v.skip(1))
    }
}

/// Characters allowed in a cache directory name are kept; others become `_`.
pub open spec fn dir_char(c: char) -> char {
    if is_ascii_alnum(c) || c == '_' || c == '-' {
        c
    } else {
        '_'
    }
}

pub open spec fn lit_unknown() -> Seq<char> {
    seq!['u', 'n', 'k', 'n', 'o', 'w', 'n']
}

/// Each character through `dir_char`.
pub open spec fn dir_name(s: Seq<char>) -> Seq<char> {
    s.map_values(|c: char| dir_char(c))
}

/// The directory a board is cached under: the first non-empty path segment
/// after the host (or `unknown`), with unsafe characters replaced.
pub open spec fn board_dir(url: Seq<char>) -> Seq<char> {
    let parts = split_char(after_scheme(url), '/');
    let seg = match first_nonempty(parts.skip(1)) {
        Some(s) => s,
        None => lit_unknown(),
    };
    dir_name(seg)
}

/// Position just after the first `://` of `v`, or 0.
fn after_scheme_start(v: &Vec<char>) -> (r: usize)
    ensures
        r <= v.len(),
        v@.skip(r as int) == after_scheme(v@),
{
    let sep = vec![':', '/', '/'];
    assert(sep@ =~= lit_scheme_sep());
    match find_from_exec(v, &sep, 0) {
        Some(k) => {
            proof {
                crate::textseq::lemma_find_from_props(v@, sep@, 0);
                assert(crate::textseq::matches_at(v@, k as int, sep@));
                assert(sep@.len() == 3);
                assert(k + 3 <= v.len());
            }
            k + 3
        },
        None => {
            assert(v@.skip(0) =~= v@);
            0
        },
    }
}

fn map_dir_chars(v: &Vec<char>, from: usize, to: usize) -> (r: Vec<char>)
    requires
        from <= to <= v.len(),
    ensures
        r@ == dir_name(v@.subrange(from as int, to as int)),
{
    let mut r: Vec<char> = Vec::new();
    let mut i: usize = from;
    while i < to
        invariant
            from <= i <= to <= v.len(),
            r@ == dir_name(v@.subrange(from as int, i as int)),
        decreases to - i,
    {
        let c = v[i];
        if is_ascii_alphanumeric(c) || c == '_' || c == '-' {
            r.push(c);
        } else {
            r.push('_');
        }
        i += 1;
        assert(dir_name(v@.subrange(from as int, i as int)) =~= dir_name(
            v@.subrange(from as int, (i - 1) as int),
        ).push(dir_char(c)));
    }
    r
}

proof fn lemma_first_nonempty_step(v: Seq<Seq<char>>, k: int)
    requires
        0 <= k < v.len(),
        v[k].len() == 0,
    ensures
        first_nonempty(v.skip(k)) == first_nonempty(v.skip(k + 1)),
{
    assert(v.skip(k).skip(1) =~= v.skip(k + 1));
}

proof fn lemma_nonempty_parts_step(v: Seq<Seq<char>>, k: int)
    requires
        0 <= k < v.len(),
    ensures
        nonempty_parts(v.skip(k)) == (if v[k].len() > 0 {
            seq![v[k]]
        } else {
            Seq::<Seq<char>>::empty()
        }) + nonempty_parts(v.skip(k + 1)),
{
    assert(v.skip(k).skip(1) =~= v.skip(k + 1));
}

/// The cache directory name of a board address.
#[verifier::loop_isolation(false)]
pub fn board_dir_from_url(board_url: &str) -> (r: String)
    ensures
        r@ == board_dir(board_url@),
{
    let v = chars_of(board_url);
    let start = after_scheme_start(&v);
    let spans = split_char_spans(&v, start, v.len(), '/');
    assert(v@.subrange(start as int, v.len() as int) =~= v@.skip(start as int));
    let ghost parts = split_char(after_scheme(v@), '/');
    let ghost views = spans_view(v@, spans@);
    assert(views == parts);
    let mut k: usize = 1;
    assert(parts.skip(1) =~= parts.skip(k as int));
    while k < spans.len()
        invariant
            1 <= k <= spans.len(),
            spans_in_bounds(v@, spans@),
            spans_view(v@, spans@) == parts,
            first_nonempty(parts.skip(1)) == first_nonempty(parts.skip(k as int)),
        decreases spans.len() - k,
    {
        let sp = &spans[k];
        assert(spans@[k as int].start <= spans@[k as int].end <= v.len());
        assert(parts[k as int] == v@.subrange(sp.start as int, sp.end as int));
        if sp.start < sp.end {
            assert(parts.skip(k as int)[0] == parts[k as int]);
            assert(first_nonempty(parts.skip(k as int)) == Some(parts[k as int]));
            let r = map_dir_chars(&v, sp.start, sp.end);
            assert(r@ == dir_name(parts[k as int]));
            assert(v@ == board_url@);
            return string_of(&r);
        }
        proof {
            lemma_first_nonempty_step(parts, k as int);
        }
        k += 1;
    }
    assert(parts.skip(k as int).len() == 0);
    let unknown = vec!['u', 'n', 'k', 'n', 'o', 'w', 'n'];
    assert(unknown@ =~= lit_unknown());
    let r = map_dir_chars(&unknown, 0, unknown.len());
    assert(unknown@.subrange(0, 7) =~= unknown@);
    string_of(&r)
}

/// Characters allowed in a cached log's file name are kept; others become `_`.
pub open spec fn dat_name_char(c: char) -> char {
    if is_ascii_alnum(c) || c == '_' || c == '-' || c == '.' {
        c
    } else {
        '_'
    }
}

/// Each character through `dat_name_char`.
pub open spec fn dat_name(s: Seq<char>) -> Seq<char> {
    s.map_values(|c: char| dat_name_char(c))
}

/// The file name a thread log is cached under.
pub fn dat_cache_file_name(dat_file: &str) -> (r: String)
    ensures
        r@ == dat_name(dat_file@),
{
    let v = chars_of(dat_file);
    let mut r: Vec<char> = Vec::new();
    let mut i: usize = 0;
    while i < v.len()
        invariant
            i <= v.len(),
            r@ == dat_name(v@.take(i as int)),
        decreases v.len() - i,
    {
        let c = v[i];
        if is_ascii_alphanumeric(c) || c == '_' || c == '-' || c == '.' {
            r.push(c);
        } else {
            r.push('_');
        }
        i += 1;
        assert(dat_name(v@.take(i as int)) =~= dat_name(v@.take((i - 1) as int)).push(
            dat_name_char(c),
        ));
    }
    assert(v@.take(v.len() as int) =~= v@);
    string_of(&r)
}

pub open spec fn msg_no_server() -> Seq<char> {
    "投稿先サーバーを判定できません"@
}

pub open spec fn msg_no_board() -> Seq<char> {
    "投稿先板を判定できません"@
}

/// The non-empty path pieces of a board address after its scheme.
pub open spec fn board_parts(url: Seq<char>) -> Seq<Seq<char>> {
    nonempty_parts(split_char(after_scheme(url), '/'))
}

/// The server and the board a post to `board_url` goes to: the first two
/// non-empty pieces after the scheme; an error names the piece that is missing.
pub fn parse_board_server(board_url: &str) -> (r: Result<(String, String), String>)
    ensures
        board_parts(board_url@).len() >= 2 <==> r is Ok,
        r matches Ok((server, board)) ==> server@ == board_parts(board_url@)[0] && board@
            == board_parts(board_url@)[1],
        board_parts(board_url@).len() == 0 ==> (r matches Err(e) && e@ == msg_no_server()),
        board_parts(board_url@).len() == 1 ==> (r matches Err(e) && e@ == msg_no_board()),
{
    let v = chars_of(board_url);
    let start = after_scheme_start(&v);
    let spans = split_char_spans(&v, start, v.len(), '/');
    assert(v@.subrange(start as int, v.len() as int) =~= v@.skip(start as int));
    let ghost parts = split_char(after_scheme(v@), '/');
    let mut found: Vec<String> = Vec::new();
    let mut k: usize = 0;
    assert(parts.skip(0) =~= parts);
    while k < spans.len() && found.len() < 2
        invariant
            k <= spans.len(),
            found.len() <= 2,
            spans_in_bounds(v@, spans@),
            spans_view(v@, spans@) == parts,
            nonempty_parts(parts) == found.deep_view() + nonempty_parts(parts.skip(k as int)),
        decreases spans.len() - k,
    {
        let sp = &spans[k];
        assert(spans@[k as int].start <= spans@[k as int].end <= v.len());
        assert(parts[k as int] == v@.subrange(sp.start as int, sp.end as int));
        proof {
            lemma_nonempty_parts_step(parts, k as int);
        }
        if sp.start < sp.end {
            let ghost before = found.deep_view();
            found.push(crate::textseq::string_of_range(&v, sp.start, sp.end));
            assert(found.deep_view() =~= before.push(parts[k as int]));
            assert(nonempty_parts(parts) =~= found.deep_view() + nonempty_parts(parts.skip(k + 1)));
        } else {
            assert(nonempty_parts(parts) =~= found.deep_view() + nonempty_parts(parts.skip(k + 1)));
        }
        k += 1;
    }
    if found.len() == 0 {
        assert(parts.skip(k as int).len() == 0);
        return Err("投稿先サーバーを判定できません".to_owned());
    }
    if found.len() == 1 {
        assert(parts.skip(k as int).len() == 0);
        return Err("投稿先板を判定できません".to_owned());
    }
    let board = found.pop().unwrap();
    let server = found.pop().unwrap();
    Ok((server, board))
}

// ---------------------------------------------------------------------------
// Links in post bodies
// ---------------------------------------------------------------------------

pub open spec fn lit_http() -> Seq<char> {
    seq!['h', 't', 't', 'p', ':', '/', '/']
}

pub open spec fn lit_https() -> Seq<char> {
    seq!['h', 't', 't', 'p', 's', ':', '/', '/']
}

pub open spec fn lit_ttp() -> Seq<char> {
    seq!['t', 't', 'p', ':', '/', '/']
}

pub open spec fn lit_ttps() -> Seq<char> {
    seq!['t', 't', 'p', 's', ':', '/', '/']
}

/// A host-like character: ASCII letter or digit, `.` or `-`.
pub open spec fn host_char(c: char) -> bool {
    is_ascii_alnum(c) || c == '.' || c == '-'
}

/// A token that is shown as a link: it starts (ignoring ASCII case) with
/// `http://`, `https://`, `ttp://` or `ttps://`; or it holds a `.` and a `/`
/// and the part before its first `/` is a dotted host name.
pub open spec fn url_like(t: Seq<char>) -> bool {
    let l = lower(t);
    if starts_with(l, lit_http()) || starts_with(l, lit_https()) || starts_with(l, lit_ttp())
        || starts_with(l, lit_ttps()) {
        true
    } else if contains(t, seq!['.']) && contains(t, seq!['/']) {
        let slash = index_of_from(t, '/', 0);
        let host = t.take(slash);
        contains(host, seq!['.']) && forall|i: int| 0 <= i < host.len() ==> host_char(host[i])
    } else {
        false
    }
}

pub fn is_url_like(token: &str) -> (b: bool)
    ensures
        b == url_like(token@),
{
    let v = chars_of(token);
    is_url_like_chars(&v)
}

#[verifier::loop_isolation(false)]
pub(crate) fn is_url_like_chars(v: &Vec<char>) -> (b: bool)
    ensures
        b == url_like(v@),
{
    let l = to_lower(v);
    let http = vec!['h', 't', 't', 'p', ':', '/', '/'];
    let https = vec!['h', 't', 't', 'p', 's', ':', '/', '/'];
    let ttp = vec!['t', 't', 'p', ':', '/', '/'];
    let ttps = vec!['t', 't', 'p', 's', ':', '/', '/'];
    assert(http@ =~= lit_http() && https@ =~= lit_https() && ttp@ =~= lit_ttp() && ttps@
        =~= lit_ttps());
    if starts_with_exec(&l, &http) || starts_with_exec(&l, &https) || starts_with_exec(&l, &ttp)
        || starts_with_exec(&l, &ttps) {
        return true;
    }
    let dot = vec!['.'];
    let slash = vec!['/'];
    assert(dot@ =~= seq!['.'] && slash@ =~= seq!['/']);
    if contains_exec(v, &dot) && contains_exec(v, &slash) {
        let s = index_of_from_exec(v, '/', 0);
        let host = slice_vec(v, 0, s);
        assert(host@ =~= v@.take(s as int));
        if !contains_exec(&host, &dot) {
            return false;
        }
        let mut i: usize = 0;
        while i < host.len()
            invariant
                i <= host.len(),
                host@ == v@.take(index_of_from(v@, '/', 0)),
                forall|j: int| 0 <= j < i ==> host_char(host@[j]),
            decreases host.len() - i,
        {
            let c = host[i];
            if !(is_ascii_alphanumeric(c) || c == '.' || c == '-') {
                assert(!host_char(host@[i as int]));
                return false;
            }
            i += 1;
        }
        true
    } else {
        false
    }
}

/// A link as it is opened: surrounding whitespace trimmed, `ttp://` and
/// `ttps://` completed with `h`, and `https://` put before a host-and-path
/// form (one that holds a `.` and a `/` and starts with neither scheme).
pub open spec fn normalized_url(u: Seq<char>) -> Seq<char> {
    let t = trim(u);
    if starts_with(t, lit_ttp()) || starts_with(t, lit_ttps()) {
        seq!['h'] + t
    } else if !starts_with(t, lit_http()) && !starts_with(t, lit_https()) && contains(t, seq!['.'])
        && contains(t, seq!['/']) {
        lit_https() + t
    } else {
        t
    }
}

pub(crate) fn normalized_url_chars(v: &Vec<char>) -> (r: Vec<char>)
    ensures
        r@ == normalized_url(v@),
{
    let (a, b) = trim_bounds(v, 0, v.len());
    let t = slice_vec(v, a, b);
    assert(v@.subrange(0, v.len() as int) =~= v@);
    let http = vec!['h', 't', 't', 'p', ':', '/', '/'];
    let https = vec!['h', 't', 't', 'p', 's', ':', '/', '/'];
    let ttp = vec!['t', 't', 'p', ':', '/', '/'];
    let ttps = vec!['t', 't', 'p', 's', ':', '/', '/'];
    let dot = vec!['.'];
    let slash = vec!['/'];
    assert(http@ =~= lit_http() && https@ =~= lit_https() && ttp@ =~= lit_ttp() && ttps@
        =~= lit_ttps() && dot@ =~= seq!['.'] && slash@ =~= seq!['/']);
    if starts_with_exec(&t, &ttp) || starts_with_exec(&t, &ttps) {
        let mut r = vec!['h'];
        extend_all(&mut r, &t);
        r
    } else if !starts_with_exec(&t, &http) && !starts_with_exec(&t, &https) && contains_exec(
        &t,
        &dot,
    ) && contains_exec(&t, &slash) {
        let mut r = https;
        extend_all(&mut r, &t);
        r
    } else {
        t
    }
}

pub fn normalize_url(url: &str) -> (r: String)
    ensures
        r@ == normalized_url(url@),
{
    let v = chars_of(url);
    string_of(&normalized_url_chars(&v))
}

/// The kind of a piece of a post body line.
#[derive(Clone, Copy, PartialEq, Eq, Debug, Structural)]
pub enum BodyTokenKind {
    Plain,
    Url,
    Anchor,
}

impl DeepView for BodyTokenKind {
    type V = BodyTokenKind;

    open spec fn deep_view(&self) -> BodyTokenKind {
        *self
    }
}

/// `>>` followed by at least one ASCII digit and nothing else.
pub open spec fn anchor_like(t: Seq<char>) -> bool {
    starts_with(t, seq!['>', '>']) && t.len() > 2 && forall|i: int|
        2 <= i < t.len() ==> is_ascii_digit(t[i])
}

/// The tokens built so far and the plain text not yet emitted.
pub open spec fn body_tokens_step(
    acc: (Seq<(BodyTokenKind, Seq<char>)>, Seq<char>),
    piece: Seq<char>,
) -> (Seq<(BodyTokenKind, Seq<char>)>, Seq<char>) {
    let trimmed = trim_end(piece);
    let ws = piece.skip(trimmed.len() as int);
    let flushed = if acc.1.len() > 0 {
        acc.0.push((BodyTokenKind::Plain, acc.1))
    } else {
        acc.0
    };
    if trimmed.len() == 0 {
        (acc.0, acc.1 + ws)
    } else if url_like(trimmed) {
        (flushed.push((BodyTokenKind::Url, piece)), seq![])
    } else if anchor_like(trimmed) {
        (flushed.push((BodyTokenKind::Anchor, piece)), seq![])
    } else {
        (acc.0, acc.1 + piece)
    }
}

pub open spec fn body_tokens_fold(pieces: Seq<Seq<char>>) -> (
    Seq<(BodyTokenKind, Seq<char>)>,
    Seq<char>,
)
    decreases pieces.len(),
{
    if pieces.len() == 0 {
        (seq![], seq![])
    } else {
        body_tokens_step(body_tokens_fold(pieces.drop_last()), pieces.last())
    }
}

/// A body line as tokens: the line is split after each whitespace character;
/// a piece whose text is link-like or an anchor `>>N` is a token of its own
/// (with its whitespace), and the pieces between them are joined into plain
/// tokens.
pub open spec fn body_tokens(line: Seq<char>) -> Seq<(BodyTokenKind, Seq<char>)> {
    let acc = body_tokens_fold(split_inclusive_ws(line));
    if acc.1.len() > 0 {
        acc.0.push((BodyTokenKind::Plain, acc.1))
    } else {
        acc.0
    }
}

fn anchor_like_exec(v: &Vec<char>) -> (b: bool)
    ensures
        b == anchor_like(v@),
{
    let aa = vec!['>', '>'];
    assert(aa@ =~= seq!['>', '>']);
    if !starts_with_exec(v, &aa) || v.len() <= 2 {
        return false;
    }
    let mut i: usize = 2;
    while i < v.len()
        invariant
            2 <= i <= v.len(),
            forall|j: int| 2 <= j < i ==> is_ascii_digit(v@[j]),
        decreases v.len() - i,
    {
        if !(v[i] >= '0' && v[i] <= '9') {
            return false;
        }
        i += 1;
    }
    true
}

/// Tokens held as character vectors, viewed as sequences.
pub open spec fn toks_view(v: Seq<(BodyTokenKind, Vec<char>)>) -> Seq<(BodyTokenKind, Seq<char>)> {
    v.map_values(|p: (BodyTokenKind, Vec<char>)| (p.0, p.1@))
}

pub(crate) fn body_tokens_chars(line: &Vec<char>) -> (r: Vec<(BodyTokenKind, Vec<char>)>)
    ensures
        toks_view(r@) == body_tokens(line@),
{
    let spans = split_inclusive_ws_spans(line, 0, line.len());
    assert(line@.subrange(0, line.len() as int) =~= line@);
    let ghost pieces = split_inclusive_ws(line@);
    let mut out: Vec<(BodyTokenKind, Vec<char>)> = Vec::new();
    let mut current: Vec<char> = Vec::new();
    let mut k: usize = 0;
    while k < spans.len()
        invariant
            k <= spans.len(),
            spans_in_bounds(line@, spans@),
            spans_view(line@, spans@) == pieces,
            body_tokens_fold(pieces.take(k as int)) == (toks_view(out@), current@),
        decreases spans.len() - k,
    {
        let sp = &spans[k];
        assert(spans@[k as int].start <= spans@[k as int].end <= line.len());
        let piece = slice_vec(line, sp.start, sp.end);
        assert(pieces[k as int] == piece@);
        let t_end = trim_end_bound(&piece, 0, piece.len());
        assert(piece@.subrange(0, piece.len() as int) =~= piece@);
        let trimmed = slice_vec(&piece, 0, t_end);
        let ghost prev_out = toks_view(out@);
        let ghost prev_cur = current@;
        proof {
            assert(pieces.take(k + 1).drop_last() =~= pieces.take(k as int));
        }
        if t_end == 0 {
            extend_range(&mut current, &piece, 0, piece.len());
            assert(piece@.skip(0) =~= piece@.subrange(0, piece.len() as int));
        } else if is_url_like_chars(&trimmed) || anchor_like_exec(&trimmed) {
            let kind = if is_url_like_chars(&trimmed) {
                BodyTokenKind::Url
            } else {
                BodyTokenKind::Anchor
            };
            if current.len() > 0 {
                out.push((BodyTokenKind::Plain, current));
                assert(toks_view(out@) =~= prev_out.push((BodyTokenKind::Plain, prev_cur)));
            }
            let ghost mid = toks_view(out@);
            out.push((kind, piece));
            assert(toks_view(out@) =~= mid.push((kind, pieces[k as int])));
            current = Vec::new();
            assert(current@ =~= Seq::<char>::empty());
        } else {
            extend_range(&mut current, &piece, 0, piece.len());
        }
        k += 1;
    }
    assert(pieces.take(spans.len() as int) =~= pieces);
    if current.len() > 0 {
        let ghost prev_out = toks_view(out@);
        out.push((BodyTokenKind::Plain, current));
        assert(toks_view(out@) =~= prev_out.push((BodyTokenKind::Plain, current@)));
    }
    out
}

/// Splits a body line into plain text, links and `>>N` anchors.
pub fn split_body_tokens(line: &str) -> (r: Vec<(BodyTokenKind, String)>)
    ensures
        r.deep_view() == body_tokens(line@),
{
    let v = chars_of(line);
    let toks = body_tokens_chars(&v);
    let mut out: Vec<(BodyTokenKind, String)> = Vec::new();
    let mut k: usize = 0;
    while k < toks.len()
        invariant
            k <= toks.len(),
            toks_view(toks@) == body_tokens(line@),
            out.deep_view() == toks_view(toks@).take(k as int),
        decreases toks.len() - k,
    {
        let ghost prev = out.deep_view();
        let text = string_of(&toks[k].1);
        out.push((toks[k].0, text));
        assert(out.deep_view() =~= prev.push((toks@[k as int].0, toks@[k as int].1@)));
        k += 1;
        assert(out.deep_view() =~= toks_view(toks@).take(k as int));
    }
    assert(toks_view(toks@).take(toks.len() as int) =~= toks_view(toks@));
    out
}

} // verus!

verus! {

/// Character vectors viewed as sequences.
pub open spec fn seqs_view(v: Seq<Vec<char>>) -> Seq<Seq<char>> {
    v.map_values(|x: Vec<char>| x@)
}

/// The non-empty pieces of `v[from..to]` split at `sep`.
pub(crate) fn nonempty_pieces(v: &Vec<char>, from: usize, to: usize, sep: char) -> (r: Vec<
    Vec<char>,
>)
    requires
        from <= to <= v.len(),
    ensures
        seqs_view(r@) == nonempty_parts(split_char(v@.subrange(from as int, to as int), sep)),
{
    let spans = split_char_spans(v, from, to, sep);
    let ghost parts = split_char(v@.subrange(from as int, to as int), sep);
    let mut found: Vec<Vec<char>> = Vec::new();
    let mut k: usize = 0;
    assert(parts.skip(0) =~= parts);
    assert(seqs_view(found@) + nonempty_parts(parts) =~= nonempty_parts(parts));
    while k < spans.len()
        invariant
            k <= spans.len(),
            spans_in_bounds(v@, spans@),
            spans_view(v@, spans@) == parts,
            nonempty_parts(parts) == seqs_view(found@) + nonempty_parts(parts.skip(k as int)),
        decreases spans.len() - k,
    {
        let sp = &spans[k];
        assert(spans@[k as int].start <= spans@[k as int].end <= v.len());
        assert(parts[k as int] == v@.subrange(sp.start as int, sp.end as int));
        proof {
            lemma_nonempty_parts_step(parts, k as int);
        }
        let ghost before = seqs_view(found@);
        if sp.start < sp.end {
            found.push(slice_vec(v, sp.start, sp.end));
            assert(seqs_view(found@) =~= before.push(parts[k as int]));
        }
        assert(nonempty_parts(parts) =~= seqs_view(found@) + nonempty_parts(parts.skip(k + 1)));
        k += 1;
    }
    assert(parts.skip(k as int).len() == 0);
    assert(seqs_view(found@) + Seq::<Seq<char>>::empty() =~= seqs_view(found@));
    found
}

/// The part of `s` before the first `c`.
pub open spec fn before_char(s: Seq<char>, c: char) -> Seq<char> {
    s.take(index_of_from(s, c, 0))
}

fn before_char_exec(v: &Vec<char>, c: char) -> (r: Vec<char>)
    ensures
        r@ == before_char(v@, c),
{
    let j = index_of_from_exec(v, c, 0);
    let r = slice_vec(v, 0, j);
    assert(r@ =~= v@.take(j as int));
    r
}

pub open spec fn lit_5ch_io() -> Seq<char> {
    seq!['5', 'c', 'h', '.', 'i', 'o']
}

pub open spec fn lit_dot_5ch_io() -> Seq<char> {
    seq!['.', '5', 'c', 'h', '.', 'i', 'o']
}

pub open spec fn lit_test() -> Seq<char> {
    seq!['t', 'e', 's', 't']
}

pub open spec fn lit_read_cgi() -> Seq<char> {
    seq!['r', 'e', 'a', 'd', '.', 'c', 'g', 'i']
}

/// The thread key of a read.cgi path piece: trimmed, one `.dat` suffix dropped.
pub open spec fn thread_key(piece: Seq<char>) -> Seq<char> {
    let t = trim(piece);
    if ends_with(t, lit_dat_ext()) {
        t.take(t.len() - 4)
    } else {
        t
    }
}

/// The board address and `.dat` file of a 5ch.io read.cgi link:
/// `http(s)://<host>/test/read.cgi/<board>/<key>[/...]` where `<host>` is
/// `5ch.io` or ends with `.5ch.io` (in any ASCII case); the fragment and the
/// query are ignored.  The result is `https://<host>/<board>/` (host in lower
/// case) and `<key>.dat`.
pub open spec fn thread_url_parts(url: Seq<char>) -> Option<(Seq<char>, Seq<char>)> {
    let q = before_char(before_char(normalized_url(url), '#'), '?');
    match find(q, lit_scheme_sep()) {
        None => None,
        Some(k) => {
            let parts = nonempty_parts(split_char(q.skip(k + 3), '/'));
            if parts.len() == 0 {
                None
            } else {
                let host = lower(parts[0]);
                let segs = parts.skip(1);
                if !(host == lit_5ch_io() || ends_with(host, lit_dot_5ch_io())) {
                    None
                } else if segs.len() < 4 || segs[0] != lit_test() || segs[1] != lit_read_cgi() {
                    None
                } else {
                    let board = trim(segs[2]);
                    let key = thread_key(segs[3]);
                    if board.len() == 0 || key.len() == 0 {
                        None
                    } else {
                        Some(
                            (
                                lit_https() + host + seq!['/'] + board + seq!['/'],
                                key + lit_dat_ext(),
                            ),
                        )
                    }
                }
            }
        },
    }
}

fn seq_eq_exec(a: &Vec<char>, b: &Vec<char>) -> (r: bool)
    ensures
        r == (a@ == b@),
{
    if a.len() != b.len() {
        return false;
    }
    let r = matches_at_vec(a, b);
    r
}

fn matches_at_vec(a: &Vec<char>, b: &Vec<char>) -> (r: bool)
    requires
        a.len() == b.len(),
    ensures
        r == (a@ == b@),
{
    let m = crate::textseq::matches_at_exec(a, 0, b);
    assert(a@.subrange(0, b.len() as int) =~= a@);
    m
}

/// The board address and `.dat` file a 5ch.io thread link points to.
#[verifier::loop_isolation(false)]
pub fn parse_5ch_io_thread_url(url: &str) -> (r: Option<(String, String)>)
    ensures
        match r {
            Some((board, dat)) => thread_url_parts(url@) == Some((board@, dat@)),
            None => thread_url_parts(url@) is None,
        },
{
    let v = chars_of(url);
    let n = normalized_url_chars(&v);
    let nf = before_char_exec(&n, '#');
    let q = before_char_exec(&nf, '?');
    let sep = vec![':', '/', '/'];
    assert(sep@ =~= lit_scheme_sep());
    let k = match find_from_exec(&q, &sep, 0) {
        Some(k) => k,
        None => {
            return None;
        },
    };
    proof {
        crate::textseq::lemma_find_from_props(q@, sep@, 0);
        assert(crate::textseq::matches_at(q@, k as int, sep@));
        assert(sep@.len() == 3);
        assert(k + 3 <= q.len());
    }
    let parts = nonempty_pieces(&q, k + 3, q.len(), '/');
    assert(q@.subrange(k + 3, q.len() as int) =~= q@.skip(k + 3));
    if parts.len() == 0 {
        return None;
    }
    let host = to_lower(&parts[0]);
    let five = vec!['5', 'c', 'h', '.', 'i', 'o'];
    let dot_five = vec!['.', '5', 'c', 'h', '.', 'i', 'o'];
    assert(five@ =~= lit_5ch_io() && dot_five@ =~= lit_dot_5ch_io());
    if !(seq_eq_exec(&host, &five) || ends_with_exec(&host, &dot_five)) {
        return None;
    }
    let ghost segs = seqs_view(parts@).skip(1);
    if parts.len() < 5 {
        return None;
    }
    let test = vec!['t', 'e', 's', 't'];
    let read = vec!['r', 'e', 'a', 'd', '.', 'c', 'g', 'i'];
    assert(test@ =~= lit_test() && read@ =~= lit_read_cgi());
    assert(segs[0] == parts@[1]@ && segs[1] == parts@[2]@ && segs[2] == parts@[3]@ && segs[3]
        == parts@[4]@);
    if !seq_eq_exec(&parts[1], &test) || !seq_eq_exec(&parts[2], &read) {
        return None;
    }
    let (b0, b1) = trim_bounds(&parts[3], 0, parts[3].len());
    assert(parts@[3]@.subrange(0, parts@[3]@.len() as int) =~= parts@[3]@);
    let board = slice_vec(&parts[3], b0, b1);
    let (k0, k1) = trim_bounds(&parts[4], 0, parts[4].len());
    assert(parts@[4]@.subrange(0, parts@[4]@.len() as int) =~= parts@[4]@);
    let key0 = slice_vec(&parts[4], k0, k1);
    let ext = vec!['.', 'd', 'a', 't'];
    assert(ext@ =~= lit_dat_ext());
    let key = if ends_with_exec(&key0, &ext) {
        let r = slice_vec(&key0, 0, key0.len() - 4);
        assert(r@ =~= key0@.take(key0@.len() - 4));
        r
    } else {
        key0
    };
    if board.len() == 0 || key.len() == 0 {
        return None;
    }
    let mut board_url = vec!['h', 't', 't', 'p', 's', ':', '/', '/'];
    assert(board_url@ =~= lit_https());
    extend_all(&mut board_url, &host);
    board_url.push('/');
    extend_all(&mut board_url, &board);
    board_url.push('/');
    let mut dat = key;
    extend_all(&mut dat, &ext);
    let ghost expect_board = lit_https() + host@ + seq!['/'] + board@ + seq!['/'];
    assert(board_url@ =~= expect_board);
    Some((string_of(&board_url), string_of(&dat)))
}

/// Adds the link of a token, unless it is not a link, is blank, or is
/// already listed.
pub open spec fn add_url(acc: Seq<Seq<char>>, tok: (BodyTokenKind, Seq<char>)) -> Seq<Seq<char>> {
    if tok.0 != BodyTokenKind::Url {
        acc
    } else {
        let u = trim(tok.1);
        if u.len() == 0 {
            acc
        } else {
            let n = normalized_url(u);
            if acc.contains(n) {
                acc
            } else {
                acc.push(n)
            }
        }
    }
}

pub open spec fn add_urls(acc: Seq<Seq<char>>, toks: Seq<(BodyTokenKind, Seq<char>)>) -> Seq<
    Seq<char>,
>
    decreases toks.len(),
{
    if toks.len() == 0 {
        acc
    } else {
        add_url(add_urls(acc, toks.drop_last()), toks.last())
    }
}

pub open spec fn urls_of_lines(ls: Seq<Seq<char>>) -> Seq<Seq<char>>
    decreases ls.len(),
{
    if ls.len() == 0 {
        seq![]
    } else {
        add_urls(urls_of_lines(ls.drop_last()), body_tokens(ls.last()))
    }
}

/// The links shown in a post body, normalized, each once, in the order
/// they first appear.
pub open spec fn displayed_urls(body: Seq<char>) -> Seq<Seq<char>> {
    urls_of_lines(lines(body))
}

fn contains_seq(v: &Vec<String>, x: &Vec<char>) -> (r: bool)
    ensures
        r == v.deep_view().contains(x@),
{
    let mut i: usize = 0;
    while i < v.len()
        invariant
            i <= v.len(),
            forall|j: int| 0 <= j < i ==> v.deep_view()[j] != x@,
        decreases v.len() - i,
    {
        let c = chars_of(v[i].as_str());
        if seq_eq_exec(&c, x) {
            assert(v.deep_view()[i as int] == x@);
            return true;
        }
        i += 1;
    }
    false
}

fn add_line_urls(urls: &mut Vec<String>, line: &Vec<char>)
    ensures
        final(urls).deep_view() == add_urls(old(urls).deep_view(), body_tokens(line@)),
{
    let toks = body_tokens_chars(line);
    let ghost tv = toks_view(toks@);
    let ghost start = urls.deep_view();
    let mut q: usize = 0;
    while q < toks.len()
        invariant
            q <= toks.len(),
            tv == toks_view(toks@),
            urls.deep_view() == add_urls(start, tv.take(q as int)),
        decreases toks.len() - q,
    {
        assert(tv.take(q + 1).drop_last() =~= tv.take(q as int));
        assert(tv[q as int] == (toks@[q as int].0, toks@[q as int].1@));
        if toks[q].0 == BodyTokenKind::Url {
            let (a, b) = trim_bounds(&toks[q].1, 0, toks[q].1.len());
            assert(toks@[q as int].1@.subrange(0, toks@[q as int].1@.len() as int)
                =~= toks@[q as int].1@);
            if a < b {
                let u = slice_vec(&toks[q].1, a, b);
                let n = normalized_url_chars(&u);
                if !contains_seq(urls, &n) {
                    let ghost before = urls.deep_view();
                    urls.push(string_of(&n));
                    assert(urls.deep_view() =~= before.push(n@));
                }
            }
        }
        q += 1;
    }
    assert(tv.take(toks.len() as int) =~= tv);
}

/// The links of a post body, for its context menu.
pub fn extract_displayed_urls(body: &str) -> (r: Vec<String>)
    ensures
        r.deep_view() == displayed_urls(body@),
{
    let v = chars_of(body);
    let spans = line_spans(&v);
    let ghost ls = lines(v@);
    let mut urls: Vec<String> = Vec::new();
    let mut k: usize = 0;
    assert(urls.deep_view() =~= urls_of_lines(ls.take(0)));
    while k < spans.len()
        invariant
            k <= spans.len(),
            spans_in_bounds(v@, spans@),
            spans_view(v@, spans@) == ls,
            urls.deep_view() == urls_of_lines(ls.take(k as int)),
        decreases spans.len() - k,
    {
        assert(spans@[k as int].start <= spans@[k as int].end <= v.len());
        let line = slice_vec(&v, spans[k].start, spans[k].end);
        assert(line@ == ls[k as int]);
        add_line_urls(&mut urls, &line);
        assert(ls.take(k + 1).drop_last() =~= ls.take(k as int));
        k += 1;
    }
    assert(ls.take(spans.len() as int) =~= ls);
    urls
}

/// Distinct elements.
pub open spec fn no_duplicates(v: Seq<Seq<char>>) -> bool {
    forall|i: int, j: int| 0 <= i < j < v.len() ==> v[i] != v[j]
}

proof fn lemma_add_urls_distinct(acc: Seq<Seq<char>>, toks: Seq<(BodyTokenKind, Seq<char>)>)
    requires
        no_duplicates(acc),
    ensures
        no_duplicates(add_urls(acc, toks)),
    decreases toks.len(),
{
    if toks.len() > 0 {
        lemma_add_urls_distinct(acc, toks.drop_last());
        let a = add_urls(acc, toks.drop_last());
        let t = toks.last();
        if t.0 == BodyTokenKind::Url && trim(t.1).len() > 0 && !a.contains(normalized_url(trim(t.1))) {
            let n = normalized_url(trim(t.1));
            assert forall|i: int, j: int| 0 <= i < j < a.push(n).len() implies a.push(n)[i] != a.push(
                n,
            )[j] by {
                if j == a.len() {
                    assert(a[i] == a.push(n)[i]);
                }
            }
        }
    }
}

proof fn lemma_urls_of_lines_distinct(ls: Seq<Seq<char>>)
    ensures
        no_duplicates(urls_of_lines(ls)),
    decreases ls.len(),
{
    if ls.len() > 0 {
        lemma_urls_of_lines_distinct(ls.drop_last());
        lemma_add_urls_distinct(urls_of_lines(ls.drop_last()), body_tokens(ls.last()));
    }
}

/// The links listed for a post body are pairwise distinct.
pub proof fn law_displayed_urls_distinct(body: Seq<char>)
    ensures
        no_duplicates(displayed_urls(body)),
{
    lemma_urls_of_lines_distinct(lines(body));
}

/// `s` without what starts at its first `?` or `#`.
pub open spec fn without_query(s: Seq<char>) -> Seq<char> {
    let q = index_of_from(s, '?', 0);
    let h = index_of_from(s, '#', 0);
    s.take(if q < h {
        q
    } else {
        h
    })
}

fn without_query_exec(v: &Vec<char>) -> (r: Vec<char>)
    ensures
        r@ == without_query(v@),
{
    let q = index_of_from_exec(v, '?', 0);
    let h = index_of_from_exec(v, '#', 0);
    let e = if q < h {
        q
    } else {
        h
    };
    let r = slice_vec(v, 0, e);
    assert(r@ =~= v@.take(e as int));
    r
}

pub open spec fn lit_jpg() -> Seq<char> {
    seq!['.', 'j', 'p', 'g']
}

pub open spec fn lit_jpeg() -> Seq<char> {
    seq!['.', 'j', 'p', 'e', 'g']
}

pub open spec fn lit_png() -> Seq<char> {
    seq!['.', 'p', 'n', 'g']
}

pub open spec fn lit_gif() -> Seq<char> {
    seq!['.', 'g', 'i', 'f']
}

pub open spec fn lit_webp() -> Seq<char> {
    seq!['.', 'w', 'e', 'b', 'p']
}

pub open spec fn lit_bmp() -> Seq<char> {
    seq!['.', 'b', 'm', 'p']
}

/// A path ending (in any ASCII case) with an image extension.
pub open spec fn has_image_ext(p: Seq<char>) -> bool {
    ends_with(p, lit_jpg()) || ends_with(p, lit_jpeg()) || ends_with(p, lit_png()) || ends_with(
        p,
        lit_gif(),
    ) || ends_with(p, lit_webp()) || ends_with(p, lit_bmp())
}

/// A link previewed as an image: its normalized path, in lower case,
/// ends with `.jpg`, `.jpeg`, `.png`, `.gif`, `.webp` or `.bmp`.
pub open spec fn image_url(u: Seq<char>) -> bool {
    has_image_ext(without_query(lower(normalized_url(u))))
}

fn has_image_ext_exec(p: &Vec<char>) -> (b: bool)
    ensures
        b == has_image_ext(p@),
{
    let jpg = vec!['.', 'j', 'p', 'g'];
    let jpeg = vec!['.', 'j', 'p', 'e', 'g'];
    let png = vec!['.', 'p', 'n', 'g'];
    let gif = vec!['.', 'g', 'i', 'f'];
    let webp = vec!['.', 'w', 'e', 'b', 'p'];
    let bmp = vec!['.', 'b', 'm', 'p'];
    assert(jpg@ =~= lit_jpg() && jpeg@ =~= lit_jpeg() && png@ =~= lit_png() && gif@ =~= lit_gif()
        && webp@ =~= lit_webp() && bmp@ =~= lit_bmp());
    ends_with_exec(p, &jpg) || ends_with_exec(p, &jpeg) || ends_with_exec(p, &png)
        || ends_with_exec(p, &gif) || ends_with_exec(p, &webp) || ends_with_exec(p, &bmp)
}

pub fn is_image_preview_url(url: &str) -> (b: bool)
    ensures
        b == image_url(url@),
{
    let v = chars_of(url);
    let n = normalized_url_chars(&v);
    let l = to_lower(&n);
    let p = without_query_exec(&l);
    has_image_ext_exec(&p)
}

/// The extension an image is cached with: that of the link's path in lower
/// case (`jpeg`, `jpg`, `png`, `gif`, `webp`, `bmp`), else `img`.
pub open spec fn image_cache_ext(u: Seq<char>) -> Seq<char> {
    let p = without_query(lower(u));
    if ends_with(p, lit_jpeg()) {
        lit_jpeg().skip(1)
    } else if ends_with(p, lit_jpg()) {
        lit_jpg().skip(1)
    } else if ends_with(p, lit_png()) {
        lit_png().skip(1)
    } else if ends_with(p, lit_gif()) {
        lit_gif().skip(1)
    } else if ends_with(p, lit_webp()) {
        lit_webp().skip(1)
    } else if ends_with(p, lit_bmp()) {
        lit_bmp().skip(1)
    } else {
        seq!['i', 'm', 'g']
    }
}

pub fn image_cache_extension(url: &str) -> (r: String)
    ensures
        r@ == image_cache_ext(url@),
{
    let v = chars_of(url);
    let l = to_lower(&v);
    let p = without_query_exec(&l);
    let jpg = vec!['.', 'j', 'p', 'g'];
    let jpeg = vec!['.', 'j', 'p', 'e', 'g'];
    let png = vec!['.', 'p', 'n', 'g'];
    let gif = vec!['.', 'g', 'i', 'f'];
    let webp = vec!['.', 'w', 'e', 'b', 'p'];
    let bmp = vec!['.', 'b', 'm', 'p'];
    assert(jpg@ =~= lit_jpg() && jpeg@ =~= lit_jpeg() && png@ =~= lit_png() && gif@ =~= lit_gif()
        && webp@ =~= lit_webp() && bmp@ =~= lit_bmp());
    let chosen = if ends_with_exec(&p, &jpeg) {
        jpeg
    } else if ends_with_exec(&p, &jpg) {
        jpg
    } else if ends_with_exec(&p, &png) {
        png
    } else if ends_with_exec(&p, &gif) {
        gif
    } else if ends_with_exec(&p, &webp) {
        webp
    } else if ends_with_exec(&p, &bmp) {
        bmp
    } else {
        let r = vec!['.', 'i', 'm', 'g'];
        assert(r@.skip(1) =~= seq!['i', 'm', 'g']);
        r
    };
    assert(chosen@.skip(1) =~= chosen@.subrange(1, chosen@.len() as int));
    crate::textseq::string_of_range(&chosen, 1, chosen.len())
}

// ---------------------------------------------------------------------------
// Bundled assets
// ---------------------------------------------------------------------------

/// Files bundled with the program, found under `root`.
pub struct AppAssets {
    pub root: String,
}

/// A requested asset path that is refused: empty, holding `..`, or absolute.
pub open spec fn asset_path_refused(p: Seq<char>) -> bool {
    p.len() == 0 || contains(p, seq!['.', '.']) || starts_with(p, seq!['/']) || starts_with(
        p,
        seq!['\\'],
    )
}

/// A relative path with no root: it starts with no separator (so neither a
/// root nor a UNC or verbatim prefix).
pub open spec fn plain_relative_path(p: Seq<char>) -> bool {
    &&& !starts_with(p, seq!['/'])
    &&& !starts_with(p, seq!['\\'])
}

/// A path that may begin with a drive on Windows: its second character is
/// `:` (a drive is a letter and `:`).
pub open spec fn drive_like(p: Seq<char>) -> bool {
    p.len() >= 2 && p[1] == ':'
}

/// A root that `Path::join` extends as it stands: not a verbatim path
/// `\\?\...` (whose joins are normalized on Windows).
pub open spec fn plain_root(r: Seq<char>) -> bool {
    !starts_with(r, seq!['\\', '\\', '?', '\\'])
}

/// `full` is `root` joined with the relative path `p` as `Path::join` does
/// it: `p` alone under an empty root; `root` then `p` when `root` ends in
/// `/`; when it ends in `\\` (a separator on Windows only), that or with a
/// `/` between; when `root` is a bare drive such as `C:`, with nothing, `/`
/// or `\\` between (Windows puts none after a drive); else with the
/// platform's separator, `/` or `\\`, between.
pub open spec fn joined_under(root: Seq<char>, p: Seq<char>, full: Seq<char>) -> bool {
    if root.len() == 0 {
        full == p
    } else if ends_with(root, seq!['/']) {
        full == root + p
    } else if ends_with(root, seq!['\\']) {
        full == root + p || full == root + seq!['/'] + p
    } else if root.len() == 2 && root[1] == ':' {
        full == root + p || full == root + seq!['/'] + p || full == root + seq!['\\'] + p
    } else {
        full == root + seq!['/'] + p || full == root + seq!['\\'] + p
    }
}

/// What `Path::join` gives for a relative path under a root that is not
/// verbatim: the root joined with the path, or, when the path begins with a
/// drive (Windows only), the path alone, which then replaces the root.
pub open spec fn path_join_result(root: Seq<char>, p: Seq<char>, full: Seq<char>) -> bool {
    joined_under(root, p, full) || (drive_like(p) && full == p)
}

/// `Path::new(root).join(path)` of std, as text. Trusted, as std documents
/// `PathBuf::push`: a relative path with no drive is appended to the root,
/// with a separator put between them unless the root is empty or already
/// ends in one (after a bare drive Windows puts none); which separator is
/// the platform's (`/`, or `\\` on Windows, where both end a root). A path
/// that begins with a drive replaces the root on Windows. For a path with a
/// root, or a verbatim root, nothing is stated.
#[verifier::external_body]
fn join_path(root: &str, path: &str) -> (r: String)
    ensures
        plain_relative_path(path@) && plain_root(root@) ==> path_join_result(root@, path@, r@),
{
    std::path::Path::new(root).join(path).to_string_lossy().into_owned()
}

/// A joined path ends with the relative path, and begins with the root
/// unless the path replaced it.
pub proof fn lemma_joined_under_root(root: Seq<char>, p: Seq<char>, full: Seq<char>)
    requires
        path_join_result(root, p, full),
    ensures
        ends_with(full, p),
        joined_under(root, p, full) ==> starts_with(full, root),
{
    let sl = seq!['/'];
    let bs = seq!['\\'];
    if full == root + p {
        assert(full.take(root.len() as int) =~= root);
        assert(full.skip(full.len() - p.len()) =~= p);
    } else if full == root + sl + p {
        assert(full.take(root.len() as int) =~= root);
        assert(full.skip(full.len() - p.len()) =~= p);
    } else if full == root + bs + p {
        assert(full.take(root.len() as int) =~= root);
        assert(full.skip(full.len() - p.len()) =~= p);
    } else {
        assert(full == p);
        assert(full.skip(0) =~= p);
        if joined_under(root, p, full) {
            assert(root.len() == 0);
            assert(full.take(0) =~= root);
        }
    }
}

impl AppAssets {
    pub fn new(root: String) -> (r: Self)
        ensures
            r.root@ == root@,
    {
        AppAssets { root }
    }

    /// The file of an asset path under the root (joined as `Path::join`
    /// does), or `None` for a refused path.
    pub fn resolve_path(&self, path: &str) -> (r: Option<String>)
        ensures
            asset_path_refused(path@) <==> r is None,
            r matches Some(full) ==> (plain_root(self.root@) ==> {
                &&& path_join_result(self.root@, path@, full@)
                &&& ends_with(full@, path@)
                &&& !drive_like(path@) ==> joined_under(self.root@, path@, full@)
                    && starts_with(full@, self.root@)
            }),
    {
        let p = chars_of(path);
        let dd = vec!['.', '.'];
        let sl = vec!['/'];
        let bs = vec!['\\'];
        assert(dd@ =~= seq!['.', '.'] && sl@ =~= seq!['/'] && bs@ =~= seq!['\\']);
        if p.len() == 0 || contains_exec(&p, &dd) || starts_with_exec(&p, &sl) || starts_with_exec(
            &p,
            &bs,
        ) {
            return None;
        }
        let full = join_path(self.root.as_str(), path);
        proof {
            if plain_root(self.root@) {
                lemma_joined_under_root(self.root@, path@, full@);
            }
        }
        Some(full)
    }
}

} // verus!
