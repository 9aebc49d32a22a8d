//! The thread list as a table: its rows, the text of each cell, sorting by
//! a column, moving a column; the label of a thread tab; and the number of
//! lines a response takes once wrapped.

use vstd::prelude::*;
use crate::strmap::{less_chars, seq_less, str_eq};
use crate::boards::{ResponseItem, ResponseItemView};
use crate::html::{name_segments, response_name_plain_text, segments_text};
use crate::textseq::{chars_of, decimal, decimal_exec, extend_all, lines, string_of};
use unicode_width::{UnicodeWidthChar, UnicodeWidthStr};

verus! {

/// A row of the thread list.
pub struct ThreadTableRow {
    pub number: usize,
    pub board_url: String,
    pub dat_file: String,
    pub title: String,
    pub response_count: usize,
    pub created_at: String,
    /// Responses per day, as shown (one decimal); written by the program
    /// around this library, which computes it in floating point.
    pub momentum_per_day: String,
}

pub struct ThreadTableRowView {
    pub number: usize,
    pub board_url: Seq<char>,
    pub dat_file: Seq<char>,
    pub title: Seq<char>,
    pub response_count: usize,
    pub created_at: Seq<char>,
    pub momentum_per_day: Seq<char>,
}

impl DeepView for ThreadTableRow {
    type V = ThreadTableRowView;

    open spec fn deep_view(&self) -> ThreadTableRowView {
        ThreadTableRowView {
            number: self.number,
            board_url: self.board_url@,
            dat_file: self.dat_file@,
            title: self.title@,
            response_count: self.response_count,
            created_at: self.created_at@,
            momentum_per_day: self.momentum_per_day@,
        }
    }
}

/// The text of a row's cell in the column of `key`.
pub open spec fn cell_of(r: ThreadTableRowView, key: Seq<char>) -> Seq<char> {
    if key == "no"@ {
        decimal(r.number as nat)
    } else if key == "title"@ {
        r.title
    } else if key == "responses"@ {
        decimal(r.response_count as nat)
    } else if key == "created_at"@ {
        r.created_at
    } else if key == "momentum"@ {
        r.momentum_per_day
    } else {
        seq![]
    }
}

pub fn cell_text(row: &ThreadTableRow, key: &str) -> (s: String)
    ensures
        s@ == cell_of(row.deep_view(), key@),
{
    if str_eq(key, "no") {
        string_of(&decimal_exec(row.number as u64))
    } else if str_eq(key, "title") {
        row.title.clone()
    } else if str_eq(key, "responses") {
        string_of(&decimal_exec(row.response_count as u64))
    } else if str_eq(key, "created_at") {
        row.created_at.clone()
    } else if str_eq(key, "momentum") {
        row.momentum_per_day.clone()
    } else {
        String::new()
    }
}

/// The column a table is sorted by.
#[derive(Clone, Copy, PartialEq, Eq, Debug, Structural)]
pub enum SortKey {
    Number,
    Title,
    Responses,
    CreatedAt,
    /// Sorted by the program around this library, which compares the
    /// values as floating-point numbers.
    Momentum,
    Unknown,
}

/// The direction of a sort.
#[derive(Clone, Copy, PartialEq, Eq, Debug, Structural)]
pub enum ColumnSort {
    Ascending,
    Descending,
    Default,
}

pub open spec fn sort_key_of(key: Seq<char>) -> SortKey {
    if key == "no"@ {
        SortKey::Number
    } else if key == "title"@ {
        SortKey::Title
    } else if key == "responses"@ {
        SortKey::Responses
    } else if key == "created_at"@ {
        SortKey::CreatedAt
    } else if key == "momentum"@ {
        SortKey::Momentum
    } else {
        SortKey::Unknown
    }
}

pub fn sort_key(key: &str) -> (k: SortKey)
    ensures
        k == sort_key_of(key@),
{
    if str_eq(key, "no") {
        SortKey::Number
    } else if str_eq(key, "title") {
        SortKey::Title
    } else if str_eq(key, "responses") {
        SortKey::Responses
    } else if str_eq(key, "created_at") {
        SortKey::CreatedAt
    } else if str_eq(key, "momentum") {
        SortKey::Momentum
    } else {
        SortKey::Unknown
    }
}

/// `a` comes after `b` in the column `key`, ascending.
pub open spec fn after_in(a: ThreadTableRowView, b: ThreadTableRowView, key: SortKey) -> bool {
    match key {
        SortKey::Number => a.number > b.number,
        SortKey::Title => seq_less(b.title, a.title),
        SortKey::Responses => a.response_count > b.response_count,
        SortKey::CreatedAt => seq_less(b.created_at, a.created_at),
        _ => false,
    }
}

/// `a` must move past `b` in a sort by `key` in direction `dir`.
pub open spec fn out_of_order(
    a: ThreadTableRowView,
    b: ThreadTableRowView,
    key: SortKey,
    dir: ColumnSort,
) -> bool {
    match dir {
        ColumnSort::Descending => after_in(b, a, key),
        _ => after_in(a, b, key),
    }
}

/// `x` inserted into `s` after every row it does not precede.
pub open spec fn sorted_insert(
    s: Seq<ThreadTableRowView>,
    x: ThreadTableRowView,
    key: SortKey,
    dir: ColumnSort,
) -> Seq<ThreadTableRowView>
    decreases s.len(),
{
    if s.len() == 0 {
        seq![x]
    } else if out_of_order(s.last(), x, key, dir) {
        sorted_insert(s.drop_last(), x, key, dir).push(s.last())
    } else {
        s.push(x)
    }
}

/// The rows sorted by `key` in direction `dir`, rows that compare equal
/// keeping their order.
pub open spec fn sorted_rows(s: Seq<ThreadTableRowView>, key: SortKey, dir: ColumnSort) -> Seq<
    ThreadTableRowView,
>
    decreases s.len(),
{
    if s.len() == 0 {
        seq![]
    } else {
        sorted_insert(sorted_rows(s.drop_last(), key, dir), s.last(), key, dir)
    }
}

fn row_after(a: &ThreadTableRow, b: &ThreadTableRow, key: SortKey) -> (r: bool)
    ensures
        r == after_in(a.deep_view(), b.deep_view(), key),
{
    match key {
        SortKey::Number => a.number > b.number,
        SortKey::Title => less_chars(&chars_of(b.title.as_str()), &chars_of(a.title.as_str())),
        SortKey::Responses => a.response_count > b.response_count,
        SortKey::CreatedAt => less_chars(
            &chars_of(b.created_at.as_str()),
            &chars_of(a.created_at.as_str()),
        ),
        _ => false,
    }
}

fn row_out_of_order(a: &ThreadTableRow, b: &ThreadTableRow, key: SortKey, dir: ColumnSort) -> (r:
    bool)
    ensures
        r == out_of_order(a.deep_view(), b.deep_view(), key, dir),
{
    match dir {
        ColumnSort::Descending => row_after(b, a, key),
        _ => row_after(a, b, key),
    }
}

proof fn lemma_sorted_insert_at(
    s: Seq<ThreadTableRowView>,
    x: ThreadTableRowView,
    key: SortKey,
    dir: ColumnSort,
    j: int,
)
    requires
        0 <= j <= s.len(),
        forall|k: int| j <= k < s.len() ==> #[trigger] out_of_order(s[k], x, key, dir),
        j > 0 ==> !out_of_order(s[j - 1], x, key, dir),
    ensures
        sorted_insert(s, x, key, dir) == s.take(j).push(x) + s.skip(j),
    decreases s.len(),
{
    if s.len() == 0 {
        assert(s.take(j).push(x) + s.skip(j) =~= seq![x]);
    } else if j == s.len() {
        assert(s.take(j) =~= s);
        assert(s.take(j).push(x) + s.skip(j) =~= s.push(x));
    } else {
        assert(out_of_order(s[s.len() - 1], x, key, dir));
        let d = s.drop_last();
        assert forall|k: int| j <= k < d.len() implies #[trigger] out_of_order(d[k], x, key, dir) by {
            assert(d[k] == s[k]);
        }
        if j > 0 {
            assert(d[j - 1] == s[j - 1]);
        }
        lemma_sorted_insert_at(d, x, key, dir, j);
        assert(d.take(j) =~= s.take(j));
        assert((d.take(j).push(x) + d.skip(j)).push(s.last()) =~= s.take(j).push(x) + s.skip(j));
    }
}

/// Sorts the rows by a column (the momentum column excepted: see
/// [`SortKey::Momentum`]); rows that compare equal keep their order, and a
/// column that is not known leaves the order as it is.
pub fn perform_sort(rows: Vec<ThreadTableRow>, key: SortKey, dir: ColumnSort) -> (r: Vec<
    ThreadTableRow,
>)
    ensures
        r.deep_view() == sorted_rows(rows.deep_view(), key, dir),
{
    let ghost rv = rows.deep_view();
    let mut out: Vec<ThreadTableRow> = Vec::new();
    let mut rest = rows;
    let mut pending: Vec<ThreadTableRow> = Vec::new();
    while rest.len() > 0
        invariant
            rest.deep_view() + pending.deep_view().reverse() == rv,
        decreases rest.len(),
    {
        let ghost br = rest.deep_view();
        let ghost bp = pending.deep_view();
        let x = rest.pop().unwrap();
        pending.push(x);
        assert(rest.deep_view() =~= br.drop_last());
        assert(pending.deep_view() =~= bp.push(x.deep_view()));
        assert(pending.deep_view().reverse() =~= seq![x.deep_view()] + bp.reverse());
        assert(br =~= br.drop_last().push(x.deep_view()));
        assert(rest.deep_view() + pending.deep_view().reverse() =~= br + bp.reverse());
    }
    assert(pending.deep_view().reverse() =~= rv);
    let ghost n = rv.len();
    while pending.len() > 0
        invariant
            pending.deep_view().len() == pending@.len(),
            pending.deep_view().reverse() == rv.skip(n - pending@.len()),
            n == rv.len(),
            pending@.len() <= n,
            out.deep_view() == sorted_rows(rv.take(n - pending@.len()), key, dir),
        decreases pending.len(),
    {
        let ghost taken = n - pending@.len();
        let ghost bp = pending.deep_view();
        let x = pending.pop().unwrap();
        proof {
            assert(pending.deep_view() =~= bp.drop_last());
            assert(bp.reverse()[0] == x.deep_view());
            assert(rv.skip(taken)[0] == rv[taken]);
            assert(pending.deep_view().reverse() =~= rv.skip(taken + 1)) by {
                assert(bp.reverse().skip(1) =~= bp.drop_last().reverse());
                assert(rv.skip(taken).skip(1) =~= rv.skip(taken + 1));
            }
            assert(rv.take(taken + 1).drop_last() =~= rv.take(taken));
            assert(rv.take(taken + 1).last() == x.deep_view());
        }
        let mut j = out.len();
        while j > 0 && row_out_of_order(&out[j - 1], &x, key, dir)
            invariant
                j <= out@.len(),
                forall|k: int| j <= k < out@.len() ==> #[trigger] out_of_order(
                    out.deep_view()[k],
                    x.deep_view(),
                    key,
                    dir,
                ),
            decreases j,
        {
            j -= 1;
        }
        let ghost ov = out.deep_view();
        proof {
            lemma_sorted_insert_at(ov, x.deep_view(), key, dir, j as int);
        }
        out.insert(j, x);
        assert(out.deep_view() =~= ov.take(j as int).push(x.deep_view()) + ov.skip(j as int));
    }
    assert(rv.take(n as int) =~= rv);
    out
}

/// Moves the column at `col_ix` to `to_ix`; does nothing when either is
/// out of range or they are the same.
pub fn move_column<T>(columns: &mut Vec<T>, col_ix: usize, to_ix: usize)
    ensures
        if col_ix < old(columns)@.len() && to_ix < old(columns)@.len() && col_ix != to_ix {
            final(columns)@ == old(columns)@.remove(col_ix as int).insert(
                to_ix as int,
                old(columns)@[col_ix as int],
            )
        } else {
            final(columns)@ == old(columns)@
        },
{
    if col_ix >= columns.len() || to_ix >= columns.len() || col_ix == to_ix {
        return;
    }
    let moved = columns.remove(col_ix);
    columns.insert(to_ix, moved);
}

/// The width in columns that a text takes on screen.
pub uninterp spec fn display_width(s: Seq<char>) -> usize;

/// The width in columns that a character takes on screen, none for a
/// control character.
pub uninterp spec fn char_display_width(c: char) -> Option<usize>;

/// The width of a text on screen: `UnicodeWidthStr::width` of unicode-width,
/// whose result is named here and not described.
#[verifier::external_body]
fn str_width(s: &str) -> (w: usize)
    ensures
        w == display_width(s@),
{
    UnicodeWidthStr::width(s)
}

/// The width of a character on screen: `UnicodeWidthChar::width` of
/// unicode-width, whose result is named here and not described.
#[verifier::external_body]
fn char_width(c: char) -> (w: Option<usize>)
    ensures
        w == char_display_width(c),
{
    UnicodeWidthChar::width(c)
}

pub open spec fn width_or_zero(c: char) -> nat {
    match char_display_width(c) {
        Some(w) => w as nat,
        None => 0,
    }
}

/// The longest prefix of `s` whose characters' widths add up to at most
/// `limit`.
pub open spec fn prefix_within(s: Seq<char>, limit: nat) -> Seq<char>
    decreases s.len(),
{
    if s.len() == 0 || width_or_zero(s[0]) > limit {
        seq![]
    } else {
        seq![s[0]] + prefix_within(s.drop_first(), (limit - width_or_zero(s[0])) as nat)
    }
}

/// The label of a thread tab: the title if it is at most 20 columns wide,
/// else as much of it as fits in 17 columns followed by `…`.
pub open spec fn tab_label(title: Seq<char>) -> Seq<char> {
    if display_width(title) <= 20 {
        title
    } else {
        prefix_within(title, 17).push('…')
    }
}

pub fn response_tab_label(title: &str) -> (r: String)
    ensures
        r@ == tab_label(title@),
{
    if str_width(title) <= 20 {
        return title.to_owned();
    }
    let v = chars_of(title);
    let mut out: Vec<char> = Vec::new();
    let mut width: usize = 0;
    let limit: usize = 17;
    let mut i: usize = 0;
    assert(v@.skip(0) =~= v@);
    if v.len() == 0 {
        assert(v@.skip(0) =~= Seq::<char>::empty());
    }
    while i < v.len()
        invariant_except_break
            i <= v@.len(),
            i == v@.len() ==> v@.skip(i as int) == Seq::<char>::empty(),
            width <= limit,
            out@ + prefix_within(v@.skip(i as int), (limit - width) as nat) == prefix_within(v@, 17),
        ensures
            out@ == prefix_within(v@, 17),
        decreases v@.len() - i,
    {
        let c = v[i];
        let cw = match char_width(c) {
            Some(w) => w,
            None => 0,
        };
        assert(v@.skip(i as int)[0] == c);
        assert(v@.skip(i as int).drop_first() =~= v@.skip(i + 1));
        if cw > limit - width {
            assert(prefix_within(v@.skip(i as int), (limit - width) as nat) =~= Seq::<char>::empty());
            assert(out@ =~= prefix_within(v@, 17));
            break;
        }
        out.push(c);
        width = width + cw;
        i += 1;
        if i == v.len() {
            assert(v@.skip(i as int) =~= Seq::<char>::empty());
        }
    }
    out.push('…');
    string_of(&out)
}

/// `a / b` rounded up.
pub open spec fn ceil_div(a: nat, b: nat) -> nat {
    if a % b == 0 {
        a / b
    } else {
        a / b + 1
    }
}

/// The number of lines `text` takes when each of its lines wraps at
/// `cols` columns (an empty line takes one), and at least one.
pub open spec fn wrap_lines(ls: Seq<Seq<char>>, cols: nat) -> nat
    decreases ls.len(),
{
    if ls.len() == 0 {
        0
    } else {
        let w = display_width(ls.last());
        let w1: nat = if w == 0 { 1 } else { w as nat };
        wrap_lines(ls.drop_last(), cols) + ceil_div(w1, cols)
    }
}

pub open spec fn body_wrap_lines(text: Seq<char>, cols: nat) -> nat {
    let n = wrap_lines(lines(text), cols);
    if n == 0 {
        1
    } else {
        n
    }
}

/// The number of lines a response's body takes at `cols_per_line`
/// columns a line, up to `usize::MAX`.
pub fn estimate_body_wrap_lines(text: &str, cols_per_line: usize) -> (n: usize)
    requires
        cols_per_line > 0,
    ensures
        n as nat == if body_wrap_lines(text@, cols_per_line as nat) <= usize::MAX {
            body_wrap_lines(text@, cols_per_line as nat)
        } else {
            usize::MAX as nat
        },
{
    let v = chars_of(text);
    let spans = crate::textseq::line_spans(&v);
    let ghost ls = lines(v@);
    let mut total: usize = 0;
    let ghost mut exact: nat = 0;
    let mut i: usize = 0;
    while i < spans.len()
        invariant
            i <= spans@.len(),
            crate::textseq::spans_view(v@, spans@) == ls,
            crate::textseq::spans_in_bounds(v@, spans@),
            exact == wrap_lines(ls.take(i as int), cols_per_line as nat),
            total as nat == if exact <= usize::MAX { exact } else { usize::MAX as nat },
            cols_per_line > 0,
        decreases spans@.len() - i,
    {
        let sp = &spans[i];
        let line = string_of(&crate::textseq::slice_vec(&v, sp.start, sp.end));
        assert(line@ == ls[i as int]);
        let w = str_width(line.as_str());
        let w1 = if w == 0 { 1 } else { w };
        let q = w1 / cols_per_line;
        let add = if w1 % cols_per_line == 0 {
            q
        } else {
            assert(q < usize::MAX) by (nonlinear_arith)
                requires
                    w1 % cols_per_line != 0,
                    q == w1 / cols_per_line,
                    cols_per_line > 0,
            {
                assert(cols_per_line != 1);
            }
            q + 1
        };
        proof {
            assert(ls.take(i + 1).drop_last() =~= ls.take(i as int));
            exact = exact + ceil_div(w1 as nat, cols_per_line as nat);
        }
        total = total.saturating_add(add);
        i += 1;
    }
    assert(ls.take(i as int) =~= ls);
    if total == 0 {
        1
    } else {
        total
    }
}

/// `s` right-aligned in a field of four characters.
pub open spec fn right_aligned4(s: Seq<char>) -> Seq<char> {
    if s.len() >= 4 {
        s
    } else {
        Seq::new((4 - s.len()) as nat, |i: int| ' ') + s
    }
}

/// The header of a response as it is measured: its number right-aligned
/// in four columns, a space and the plain name.
pub open spec fn header_name(r: ResponseItemView) -> Seq<char> {
    right_aligned4(decimal(r.number as nat)) + seq![' '] + segments_text(name_segments(r.name))
}

/// The number of lines a response's header takes at `cols` columns a
/// line: its name, time and ID side by side with four columns of gaps.
/// (A total past `usize::MAX` counts as `usize::MAX`.)
pub open spec fn header_wrap_lines(r: ResponseItemView, cols: nat) -> nat {
    let sum = display_width(header_name(r)) + display_width(r.timestamp) + display_width(r.id) + 4;
    let total: nat = if sum <= usize::MAX { sum as nat } else { usize::MAX as nat };
    ceil_div(if total == 0 { 1 } else { total }, cols)
}

/// The number of lines a response's header takes at `cols_per_line`
/// columns a line.
pub fn estimate_response_header_wrap_lines(res: &ResponseItem, cols_per_line: usize) -> (n: usize)
    requires
        cols_per_line > 0,
    ensures
        n as nat == header_wrap_lines(res.deep_view(), cols_per_line as nat),
{
    let digits = decimal_exec(res.number as u64);
    let mut name: Vec<char> = Vec::new();
    let mut pad = digits.len();
    while pad < 4
        invariant
            digits.len() <= pad <= 4 || (pad == digits.len() && pad >= 4),
            name@ == Seq::new((pad - digits@.len()) as nat, |i: int| ' '),
        decreases 4 - pad,
    {
        name.push(' ');
        assert(name@ =~= Seq::new((pad + 1 - digits@.len()) as nat, |i: int| ' '));
        pad += 1;
    }
    extend_all(&mut name, &digits);
    name.push(' ');
    let plain = chars_of(response_name_plain_text(res.name.as_str()).as_str());
    extend_all(&mut name, &plain);
    proof {
        let d = decimal(res.number as nat);
        if d.len() >= 4 {
            assert(name@ =~= header_name(res.deep_view()));
        } else {
            assert(name@ =~= header_name(res.deep_view()));
        }
    }
    let name_s = string_of(&name);
    let total = str_width(name_s.as_str()).saturating_add(str_width(res.timestamp.as_str())).saturating_add(
        str_width(res.id.as_str()),
    ).saturating_add(4);
    let t1 = if total == 0 { 1 } else { total };
    let q = t1 / cols_per_line;
    if t1 % cols_per_line == 0 {
        q
    } else {
        assert(q < usize::MAX) by (nonlinear_arith)
            requires
                t1 % cols_per_line != 0,
                q == t1 / cols_per_line,
                cols_per_line > 0,
        {
            assert(cols_per_line != 1);
        }
        q + 1
    }
}

/// The first index of `k` among `keys`.
pub open spec fn first_key_index(keys: Seq<Seq<char>>, k: Seq<char>) -> Option<int>
    decreases keys.len(),
{
    if keys.len() == 0 {
        None
    } else {
        match first_key_index(keys.drop_last(), k) {
            Some(i) => Some(i),
            None => if keys.last() == k {
                Some(keys.len() - 1)
            } else {
                None
            },
        }
    }
}

/// The saved columns that are still known, in their saved order: the index
/// of the known column and of the saved one (whose width it takes).
pub open spec fn saved_columns_kept(defaults: Seq<Seq<char>>, saved: Seq<Seq<char>>) -> Seq<(int, Option<int>)>
    decreases saved.len(),
{
    if saved.len() == 0 {
        seq![]
    } else {
        saved_columns_kept(defaults, saved.drop_last()) + match first_key_index(defaults, saved.last()) {
            Some(i) => seq![(i, Some(saved.len() - 1))],
            None => Seq::<(int, Option<int>)>::empty(),
        }
    }
}

/// The known columns that were not saved, in their own order.
pub open spec fn columns_not_saved(defaults: Seq<Seq<char>>, saved: Seq<Seq<char>>) -> Seq<(int, Option<int>)>
    decreases defaults.len(),
{
    if defaults.len() == 0 {
        seq![]
    } else {
        columns_not_saved(defaults.drop_last(), saved) + if saved.contains(defaults.last()) {
            Seq::<(int, Option<int>)>::empty()
        } else {
            seq![(defaults.len() - 1, None::<int>)]
        }
    }
}

pub open spec fn pair_view(p: (usize, Option<usize>)) -> (int, Option<int>) {
    (p.0 as int, match p.1 {
        Some(j) => Some(j as int),
        None => None,
    })
}

/// The columns of the thread list as saved in a session: the saved ones
/// that are still known, in saved order (each with the saved column whose
/// width it takes), then the known ones that were not saved.
pub fn restored_column_order(defaults: &Vec<String>, saved: &Vec<String>) -> (r: Vec<(usize, Option<usize>)>)
    ensures
        r@.map_values(|p: (usize, Option<usize>)| pair_view(p)) == saved_columns_kept(
            defaults@.map_values(|s: String| s@),
            saved@.map_values(|s: String| s@),
        ) + columns_not_saved(defaults@.map_values(|s: String| s@), saved@.map_values(|s: String| s@)),
{
    let ghost dv = defaults@.map_values(|s: String| s@);
    let ghost sv = saved@.map_values(|s: String| s@);
    let mut out: Vec<(usize, Option<usize>)> = Vec::new();
    let mut j: usize = 0;
    while j < saved.len()
        invariant
            j <= saved@.len(),
            dv == defaults@.map_values(|s: String| s@),
            sv == saved@.map_values(|s: String| s@),
            out@.map_values(|p: (usize, Option<usize>)| pair_view(p)) == saved_columns_kept(dv, sv.take(j as int)),
        decreases saved@.len() - j,
    {
        let mut i: usize = 0;
        let mut found: Option<usize> = None;
        while i < defaults.len()
            invariant
                i <= defaults@.len(),
                j < saved@.len(),
                dv == defaults@.map_values(|s: String| s@),
                sv == saved@.map_values(|s: String| s@),
                found is None ==> first_key_index(dv.take(i as int), sv[j as int]) is None,
                found matches Some(k) ==> first_key_index(dv, sv[j as int]) == Some(k as int),
            decreases defaults@.len() - i,
        {
            if found.is_none() && str_eq(defaults[i].as_str(), saved[j].as_str()) {
                proof {
                    lemma_first_key_index_found(dv, sv[j as int], i as int);
                }
                found = Some(i);
            }
            proof {
                assert(dv.take(i + 1).drop_last() =~= dv.take(i as int));
            }
            i += 1;
        }
        proof {
            assert(dv.take(i as int) =~= dv);
            assert(sv.take(j + 1).drop_last() =~= sv.take(j as int));
            assert(sv.take(j + 1).last() == sv[j as int]);
        }
        let ghost before = out@;
        if let Some(k) = found {
            out.push((k, Some(j)));
            assert(out@ =~= before.push((k, Some(j))));
        }
        assert(out@.map_values(|p: (usize, Option<usize>)| pair_view(p)) =~= saved_columns_kept(dv, sv.take(j + 1)));
        j += 1;
    }
    assert(sv.take(j as int) =~= sv);
    let ghost kept = out@.map_values(|p: (usize, Option<usize>)| pair_view(p));
    let ghost first_len = out@.len();
    let mut d: usize = 0;
    while d < defaults.len()
        invariant
            d <= defaults@.len(),
            dv == defaults@.map_values(|s: String| s@),
            sv == saved@.map_values(|s: String| s@),
            first_len <= out@.len(),
            out@.map_values(|p: (usize, Option<usize>)| pair_view(p)) == kept + columns_not_saved(dv.take(d as int), sv),
        decreases defaults@.len() - d,
    {
        let mut k: usize = 0;
        let mut seen = false;
        while k < saved.len()
            invariant
                k <= saved@.len(),
                d < defaults@.len(),
                dv == defaults@.map_values(|s: String| s@),
                sv == saved@.map_values(|s: String| s@),
                seen == sv.take(k as int).contains(dv[d as int]),
            decreases saved@.len() - k,
        {
            let same = str_eq(defaults[d].as_str(), saved[k].as_str());
            proof {
                assert(sv.take(k + 1) =~= sv.take(k as int).push(sv[k as int]));
                if same {
                    assert(sv.take(k + 1)[k as int] == dv[d as int]);
                }
                if sv.take(k + 1).contains(dv[d as int]) && !same {
                    let t1 = sv.take(k + 1);
                    let w = choose|w: int| 0 <= w < t1.len() && #[trigger] t1[w] == dv[d as int];
                    assert(w < k);
                    assert(sv.take(k as int)[w] == dv[d as int]);
                }
            }
            seen = seen || same;
            k += 1;
        }
        assert(sv.take(k as int) =~= sv);
        proof {
            assert(dv.take(d + 1).drop_last() =~= dv.take(d as int));
            assert(dv.take(d + 1).last() == dv[d as int]);
        }
        let ghost before = out@;
        let ghost rest = columns_not_saved(dv.take(d as int), sv);
        proof {
            assert(columns_not_saved(dv.take(d + 1), sv) == rest + if sv.contains(dv[d as int]) {
                Seq::<(int, Option<int>)>::empty()
            } else {
                seq![(d as int, None::<int>)]
            });
        }
        if !seen {
            out.push((d, None));
            assert(out@ =~= before.push((d, None)));
            assert(out@.map_values(|p: (usize, Option<usize>)| pair_view(p)) =~= before.map_values(|p: (usize, Option<usize>)| pair_view(p)).push((d as int, None::<int>)));
        }
        assert(out@.map_values(|p: (usize, Option<usize>)| pair_view(p)) =~= kept + columns_not_saved(dv.take(d + 1), sv));
        d += 1;
    }
    assert(dv.take(d as int) =~= dv);
    out
}

proof fn lemma_first_key_index_found(keys: Seq<Seq<char>>, k: Seq<char>, i: int)
    requires
        0 <= i < keys.len(),
        keys[i] == k,
        first_key_index(keys.take(i), k) is None,
    ensures
        first_key_index(keys, k) == Some(i),
    decreases keys.len(),
{
    assert(keys.take(i + 1).drop_last() =~= keys.take(i));
    assert(keys.take(i + 1).last() == keys[i]);
    if i + 1 < keys.len() {
        let d = keys.drop_last();
        assert(d.take(i) =~= keys.take(i));
        lemma_first_key_index_found(d, k, i);
    } else {
        assert(keys.take(i + 1) =~= keys);
    }
}

} // verus!
