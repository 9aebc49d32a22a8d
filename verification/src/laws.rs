//! Properties of the reader that hold across operations: what opening a
//! tab leaves on screen, that each thread tab keeps its own reading
//! position, that a thread or board never gets two tabs, that
//! tab navigation can be undone, that gesture trails never repeat a stroke,
//! what the new-response marker points at, and what sorting and moving
//! columns do.

use vstd::prelude::*;
use crate::gestures::{trail_after, GestureDirection, GesturePane, MouseGestureCommand};
use crate::reader::{
    board_tab_opened, first_new_number, gesture_executed, has_board_tab, has_thread_tab,
    is_first_board_tab, is_first_thread_tab, lemma_first_thread_tab_unique, place_saved, tabs_after_open, thread_opened_from,
    with_place, EffectView, OpenThreadView, ReaderState, ThreadTabView,
};
use crate::boards::ResponseItemView;
use crate::session::{
    boards_opened, clamp_ix, saved_thread_ref, session_built, session_restored, strings_view,
    SessionBoardView, SessionState,
};
use crate::strmap::{keys_of, lookup_in, seq_less, StrMap};
use crate::table::{out_of_order, sorted_insert, sorted_rows, ColumnSort, SortKey, ThreadTableRowView};

verus! {

/// No two thread tabs are of the same thread.
pub open spec fn distinct_threads(tabs: Seq<OpenThreadView>) -> bool {
    forall|i: int, j: int|
        0 <= i < j < tabs.len() ==> !(#[trigger] tabs[i].board_url == #[trigger] tabs[j].board_url
            && tabs[i].dat_file == tabs[j].dat_file)
}

/// No two board tabs are of the same board.
pub open spec fn distinct_boards(tabs: Seq<ThreadTabView>) -> bool {
    forall|i: int, j: int|
        0 <= i < j < tabs.len() ==> #[trigger] tabs[i].board_url != #[trigger] tabs[j].board_url
}

proof fn lemma_first_thread_tab_exists(tabs: Seq<OpenThreadView>, url: Seq<char>, dat: Seq<char>)
    requires
        has_thread_tab(tabs, url, dat),
    ensures
        exists|i: int| is_first_thread_tab(tabs, url, dat, i),
    decreases tabs.len(),
{
    let d = tabs.drop_last();
    if has_thread_tab(d, url, dat) {
        lemma_first_thread_tab_exists(d, url, dat);
        let i = choose|i: int| is_first_thread_tab(d, url, dat, i);
        assert forall|j: int| 0 <= j < i implies !(#[trigger] tabs[j].board_url == url
            && tabs[j].dat_file == dat) by {
            assert(tabs[j] == d[j]);
        }
        assert(is_first_thread_tab(tabs, url, dat, i));
    } else {
        let k = choose|k: int| 0 <= k < tabs.len() && #[trigger] tabs[k].board_url == url
            && tabs[k].dat_file == dat;
        if k < tabs.len() - 1 {
            assert(d[k] == tabs[k]);
        }
        assert forall|j: int| 0 <= j < tabs.len() - 1 implies !(#[trigger] tabs[j].board_url
            == url && tabs[j].dat_file == dat) by {
            assert(tabs[j] == d[j]);
        }
        assert(is_first_thread_tab(tabs, url, dat, tabs.len() - 1));
    }
}

proof fn lemma_first_board_tab_exists(tabs: Seq<ThreadTabView>, url: Seq<char>)
    requires
        has_board_tab(tabs, url),
    ensures
        exists|i: int| is_first_board_tab(tabs, url, i),
    decreases tabs.len(),
{
    let d = tabs.drop_last();
    if has_board_tab(d, url) {
        lemma_first_board_tab_exists(d, url);
        let i = choose|i: int| is_first_board_tab(d, url, i);
        assert forall|j: int| 0 <= j < i implies #[trigger] tabs[j].board_url != url by {
            assert(tabs[j] == d[j]);
        }
        assert(is_first_board_tab(tabs, url, i));
    } else {
        let k = choose|k: int| 0 <= k < tabs.len() && #[trigger] tabs[k].board_url == url;
        if k < tabs.len() - 1 {
            assert(d[k] == tabs[k]);
        }
        assert forall|j: int| 0 <= j < tabs.len() - 1 implies #[trigger] tabs[j].board_url != url by {
            assert(tabs[j] == d[j]);
        }
        assert(is_first_board_tab(tabs, url, tabs.len() - 1));
    }
}

proof fn lemma_place_saved_keeps_threads(
    tabs: Seq<OpenThreadView>,
    active: int,
    top: Option<usize>,
    bottom: Option<usize>,
    was: bool,
)
    ensures
        place_saved(tabs, active, top, bottom, was).len() == tabs.len(),
        forall|i: int|
            0 <= i < tabs.len() ==> (#[trigger] place_saved(tabs, active, top, bottom, was)[i]).board_url
                == tabs[i].board_url && place_saved(tabs, active, top, bottom, was)[i].dat_file
                == tabs[i].dat_file && place_saved(tabs, active, top, bottom, was)[i].title
                == tabs[i].title,
{
}

/// Opening a thread shows it: afterwards the active thread tab is a tab of
/// that thread under the title it was opened with, and it is the thread
/// shown.
pub proof fn law_open_thread_shows_thread(
    tabs: Seq<OpenThreadView>,
    active: int,
    top: Option<usize>,
    bottom: Option<usize>,
    was_at_bottom: bool,
    post: ReaderState,
    effects: Seq<EffectView>,
    url: Seq<char>,
    dat: Seq<char>,
    title: Seq<char>,
)
    requires
        thread_opened_from(tabs, active, top, bottom, was_at_bottom, post, effects, url, dat, title),
    ensures
        0 <= post.active_response_tab < post.response_tabs.deep_view().len(),
        post.response_tabs.deep_view()[post.active_response_tab as int].board_url == url,
        post.response_tabs.deep_view()[post.active_response_tab as int].dat_file == dat,
        post.response_tabs.deep_view()[post.active_response_tab as int].title == title,
        post.current_thread matches Some(t) && t.board_url@ == url && t.dat_file@ == dat
            && t.title@ == title,
{
    let saved = place_saved(tabs, active, top, bottom, was_at_bottom);
    lemma_place_saved_keeps_threads(tabs, active, top, bottom, was_at_bottom);
    if has_thread_tab(saved, url, dat) {
        lemma_first_thread_tab_exists(saved, url, dat);
    }
}

/// Opening a thread never gives it a second tab: if no two thread tabs
/// were of the same thread before, none are after.
pub proof fn law_open_thread_keeps_tabs_distinct(
    tabs: Seq<OpenThreadView>,
    active: int,
    top: Option<usize>,
    bottom: Option<usize>,
    was_at_bottom: bool,
    post: ReaderState,
    effects: Seq<EffectView>,
    url: Seq<char>,
    dat: Seq<char>,
    title: Seq<char>,
)
    requires
        distinct_threads(tabs),
        thread_opened_from(tabs, active, top, bottom, was_at_bottom, post, effects, url, dat, title),
    ensures
        distinct_threads(post.response_tabs.deep_view()),
{
    let saved = place_saved(tabs, active, top, bottom, was_at_bottom);
    lemma_place_saved_keeps_threads(tabs, active, top, bottom, was_at_bottom);
    let p = post.response_tabs.deep_view();
    if has_thread_tab(saved, url, dat) {
        lemma_first_thread_tab_exists(saved, url, dat);
        assert forall|i: int, j: int|
            0 <= i < j < p.len() implies !(#[trigger] p[i].board_url == #[trigger] p[j].board_url
            && p[i].dat_file == p[j].dat_file) by {
            assert(p[i].board_url == tabs[i].board_url && p[i].dat_file == tabs[i].dat_file);
            assert(p[j].board_url == tabs[j].board_url && p[j].dat_file == tabs[j].dat_file);
        }
    } else {
        assert forall|i: int, j: int|
            0 <= i < j < p.len() implies !(#[trigger] p[i].board_url == #[trigger] p[j].board_url
            && p[i].dat_file == p[j].dat_file) by {
            if j == p.len() - 1 {
                assert(p[i].board_url == saved[i].board_url && p[i].dat_file == saved[i].dat_file);
                if p[i].board_url == url && p[i].dat_file == dat {
                    assert(saved[i].board_url == url && saved[i].dat_file == dat);
                }
            } else {
                assert(p[i].board_url == tabs[i].board_url && p[i].dat_file == tabs[i].dat_file);
                assert(p[j].board_url == tabs[j].board_url && p[j].dat_file == tabs[j].dat_file);
            }
        }
    }
}

/// Each thread tab keeps its own reading position: opening the thread of
/// the tab at `k` (when no two tabs are of the same thread) makes that tab
/// active and restores the place saved in it, and the place on screen is
/// written into the tab at `saved_into` when that is another tab.
pub proof fn law_open_tab_restores_its_own_place(
    tabs: Seq<OpenThreadView>,
    saved_into: int,
    k: int,
    top: Option<usize>,
    bottom: Option<usize>,
    was_at_bottom: bool,
    post: ReaderState,
    effects: Seq<EffectView>,
)
    requires
        distinct_threads(tabs),
        0 <= k < tabs.len(),
        saved_into != k,
        thread_opened_from(
            tabs,
            saved_into,
            top,
            bottom,
            was_at_bottom,
            post,
            effects,
            tabs[k].board_url,
            tabs[k].dat_file,
            tabs[k].title,
        ),
    ensures
        post.active_response_tab == k,
        post.current_response_top_number == tabs[k].top_response_number,
        post.current_response_bottom_number == tabs[k].bottom_response_number,
        post.current_response_was_at_bottom == tabs[k].was_at_bottom,
        post.pending_restore_response_numbers == Some(
            (tabs[k].top_response_number, tabs[k].bottom_response_number),
        ),
        post.response_tabs.deep_view()[k] == tabs[k],
        0 <= saved_into < tabs.len() ==> post.response_tabs.deep_view()[saved_into] == with_place(
            tabs[saved_into],
            top,
            bottom,
            was_at_bottom,
        ),
{
    let saved = place_saved(tabs, saved_into, top, bottom, was_at_bottom);
    let url = tabs[k].board_url;
    let dat = tabs[k].dat_file;
    lemma_place_saved_keeps_threads(tabs, saved_into, top, bottom, was_at_bottom);
    assert(saved[k] == tabs[k]);
    assert forall|j: int| 0 <= j < k implies !(#[trigger] saved[j].board_url == url
        && saved[j].dat_file == dat) by {
        assert(saved[j].board_url == tabs[j].board_url && saved[j].dat_file == tabs[j].dat_file);
    }
    assert(is_first_thread_tab(saved, url, dat, k));
    lemma_first_thread_tab_unique(saved, url, dat, k);
    let p = post.response_tabs.deep_view();
    assert(p == saved.update(k, OpenThreadView { title: tabs[k].title, ..saved[k] }));
}

/// Going to the next or previous thread tab opens it at the place saved in
/// it, and keeps the place left in the tab one came from (when no two tabs
/// are of the same thread).
pub proof fn law_thread_tab_switch_keeps_each_place(
    pre: ReaderState,
    post: ReaderState,
    effects: Seq<EffectView>,
    command: MouseGestureCommand,
)
    requires
        distinct_threads(pre.response_tabs.deep_view()),
        command == MouseGestureCommand::TabPrev || command == MouseGestureCommand::TabNext,
        command == MouseGestureCommand::TabPrev ==> pre.active_response_tab > 0,
        command == MouseGestureCommand::TabNext ==> pre.active_response_tab + 1
            < pre.response_tabs@.len(),
        pre.active_response_tab < pre.response_tabs@.len(),
        gesture_executed(pre, post, effects, GesturePane::ResponseList, command),
    ensures
        ({
            let tabs = pre.response_tabs.deep_view();
            let a = pre.active_response_tab as int;
            let k = if command == MouseGestureCommand::TabPrev { a - 1 } else { a + 1 };
            &&& post.active_response_tab == k
            &&& post.current_response_top_number == tabs[k].top_response_number
            &&& post.current_response_bottom_number == tabs[k].bottom_response_number
            &&& post.current_response_was_at_bottom == tabs[k].was_at_bottom
            &&& post.response_tabs.deep_view()[a] == with_place(
                tabs[a],
                pre.current_response_top_number,
                pre.current_response_bottom_number,
                pre.current_response_was_at_bottom,
            )
        }),
{
    let tabs = pre.response_tabs.deep_view();
    let a = pre.active_response_tab as int;
    let k = if command == MouseGestureCommand::TabPrev { a - 1 } else { a + 1 };
    assert(pre.response_tabs@.len() == tabs.len());
    law_open_tab_restores_its_own_place(
        tabs,
        a,
        k,
        pre.current_response_top_number,
        pre.current_response_bottom_number,
        pre.current_response_was_at_bottom,
        post,
        effects,
    );
}

/// Opening a board shows it: afterwards the active board tab is the first
/// tab of that board.
pub proof fn law_open_board_tab_shows_board(
    pre: ReaderState,
    post: ReaderState,
    effects: Seq<EffectView>,
    url: Seq<char>,
    name: Seq<char>,
)
    requires
        board_tab_opened(pre, post, effects, url, name),
    ensures
        is_first_board_tab(post.thread_tabs.deep_view(), url, post.active_thread_tab as int),
{
    let t = pre.thread_tabs.deep_view();
    if !has_board_tab(t, url) {
        let p = post.thread_tabs.deep_view();
        assert forall|j: int| 0 <= j < t.len() implies #[trigger] p[j].board_url != url by {
            assert(p[j] == t[j]);
            if t[j].board_url == url {
                assert(has_board_tab(t, url));
            }
        }
    }
}

/// Opening a board twice opens one tab: the second time leaves the board
/// tabs as they are and the same tab active.
pub proof fn law_open_board_tab_twice(
    s0: ReaderState,
    s1: ReaderState,
    s2: ReaderState,
    e1: Seq<EffectView>,
    e2: Seq<EffectView>,
    url: Seq<char>,
    name1: Seq<char>,
    name2: Seq<char>,
)
    requires
        board_tab_opened(s0, s1, e1, url, name1),
        board_tab_opened(s1, s2, e2, url, name2),
    ensures
        s2.thread_tabs == s1.thread_tabs,
        s2.active_thread_tab == s1.active_thread_tab,
        e2 == seq![EffectView::SaveSession],
{
    law_open_board_tab_shows_board(s0, s1, e1, url, name1);
    let t = s1.thread_tabs.deep_view();
    let a = s1.active_thread_tab as int;
    assert(has_board_tab(t, url)) by {
        assert(t[a].board_url == url);
    }
    let b = s2.active_thread_tab as int;
    assert(a == b) by {
        if a < b {
            assert(t[a].board_url != url);
        } else if b < a {
            assert(t[b].board_url != url);
        }
    }
}

/// Opening a board never gives it a second tab.
pub proof fn law_open_board_tab_keeps_tabs_distinct(
    pre: ReaderState,
    post: ReaderState,
    effects: Seq<EffectView>,
    url: Seq<char>,
    name: Seq<char>,
)
    requires
        distinct_boards(pre.thread_tabs.deep_view()),
        board_tab_opened(pre, post, effects, url, name),
    ensures
        distinct_boards(post.thread_tabs.deep_view()),
{
    let t = pre.thread_tabs.deep_view();
    let p = post.thread_tabs.deep_view();
    if !has_board_tab(t, url) {
        assert forall|i: int, j: int|
            0 <= i < j < p.len() implies #[trigger] p[i].board_url != #[trigger] p[j].board_url by {
            assert(p[i] == t[i]);
            if j < t.len() {
                assert(p[j] == t[j]);
            } else if p[i].board_url == url {
                assert(has_board_tab(t, url));
            }
        }
    }
}

/// Going to the next board tab and back returns to the tab one started
/// from, when there was a next tab.
pub proof fn law_tab_next_then_prev(
    s0: ReaderState,
    s1: ReaderState,
    s2: ReaderState,
    e1: Seq<EffectView>,
    e2: Seq<EffectView>,
)
    requires
        s0.active_thread_tab + 1 < s0.thread_tabs@.len(),
        gesture_executed(s0, s1, e1, GesturePane::ThreadList, MouseGestureCommand::TabNext),
        gesture_executed(s1, s2, e2, GesturePane::ThreadList, MouseGestureCommand::TabPrev),
    ensures
        s2 == s0,
{
    let a = s0.active_thread_tab;
    assert(s0.thread_tabs@.len() > 0 && a + 1 < s0.thread_tabs@.len());
    assert(s0.thread_tabs.len() == s0.thread_tabs@.len());
    assert(a + 1 <= usize::MAX);
    assert(s1 == (ReaderState { active_thread_tab: (a + 1) as usize, ..s0 }));
    assert(s1.active_thread_tab == s0.active_thread_tab + 1);
    assert(s2.active_thread_tab == s0.active_thread_tab);
    assert(s2 == (ReaderState { active_thread_tab: s0.active_thread_tab, ..s0 }));
}

/// A trail holds no stroke twice in a row.
pub open spec fn no_repeated_stroke(t: Seq<GestureDirection>) -> bool {
    forall|i: int| 0 < i < t.len() ==> #[trigger] t[i] != t[i - 1]
}

/// Adding a stroke keeps a trail free of strokes repeated in a row.
pub proof fn law_trail_never_repeats(t: Seq<GestureDirection>, d: GestureDirection)
    requires
        no_repeated_stroke(t),
    ensures
        no_repeated_stroke(trail_after(t, d)),
{
    let n = trail_after(t, d);
    if n != t {
        assert forall|i: int| 0 < i < n.len() implies #[trigger] n[i] != n[i - 1] by {
            if i == n.len() - 1 {
                assert(n[i] == d);
                assert(n[i - 1] == t.last());
            } else {
                assert(n[i] == t[i] && n[i - 1] == t[i - 1]);
            }
        }
    }
}

/// The new-response marker points at the lowest number above the highest
/// shown before the refresh; there is none when no response is above it.
pub proof fn law_new_marker_is_first_new(r: Seq<ResponseItemView>, prev: nat)
    ensures
        match first_new_number(r, prev) {
            Some(n) => {
                &&& n > prev
                &&& exists|i: int| 0 <= i < r.len() && #[trigger] r[i].number == n
                &&& forall|i: int| 0 <= i < r.len() && #[trigger] r[i].number > prev ==> n <= r[i].number
            },
            None => forall|i: int| 0 <= i < r.len() ==> #[trigger] r[i].number <= prev,
        },
    decreases r.len(),
{
    if r.len() > 0 {
        let d = r.drop_last();
        law_new_marker_is_first_new(d, prev);
        let last = r.last();
        assert(last == r[r.len() - 1]);
        assert forall|i: int| 0 <= i < d.len() implies #[trigger] r[i] == d[i] by {}
        let m = first_new_number(d, prev);
        match m {
            Some(k) => {
                let w = choose|i: int| 0 <= i < d.len() && #[trigger] d[i].number == k;
                assert(r[w].number == k);
            },
            None => {},
        }
        match first_new_number(r, prev) {
            Some(n) => {
                if n == last.number && last.number > prev && (m matches Some(k) ==> last.number < k) {
                    assert(r[r.len() - 1].number == n);
                    assert forall|i: int| 0 <= i < r.len() && #[trigger] r[i].number > prev implies n <= r[i].number by {
                        if i < r.len() - 1 {
                            assert(d[i].number > prev);
                        }
                    }
                } else {
                    assert forall|i: int| 0 <= i < r.len() && #[trigger] r[i].number > prev implies n <= r[i].number by {
                        if i < r.len() - 1 {
                            assert(d[i].number > prev);
                        }
                    }
                }
            },
            None => {
                assert forall|i: int| 0 <= i < r.len() implies #[trigger] r[i].number <= prev by {
                    if i < r.len() - 1 {
                        assert(d[i].number <= prev);
                    }
                }
            },
        }
    }
}

/// Rows sorted by a column are in order: no row must move past the one
/// after it.
pub proof fn law_sorted_rows_in_order(s: Seq<ThreadTableRowView>, key: SortKey, dir: ColumnSort)
    ensures
        forall|i: int|
            0 <= i < sorted_rows(s, key, dir).len() - 1 ==> !out_of_order(
                #[trigger] sorted_rows(s, key, dir)[i],
                sorted_rows(s, key, dir)[i + 1],
                key,
                dir,
            ),
        sorted_rows(s, key, dir).len() == s.len(),
    decreases s.len(),
{
    if s.len() > 0 {
        law_sorted_rows_in_order(s.drop_last(), key, dir);
        lemma_sorted_insert_in_order(sorted_rows(s.drop_last(), key, dir), s.last(), key, dir);
    }
}

/// `a` and `b` agree before position `k`, where `a` has the smaller
/// character.
pub open spec fn differs_first_below(a: Seq<char>, b: Seq<char>, k: int) -> bool {
    0 <= k < a.len() && k < b.len() && a.take(k) == b.take(k) && a[k] < b[k]
}

/// The order in which titles and creation times are sorted is code point
/// order: `a` comes before `b` exactly when, at the first position where
/// they differ, `a` has the smaller character, or `a` is a proper prefix
/// of `b`.
pub proof fn law_code_point_order(a: Seq<char>, b: Seq<char>)
    ensures
        seq_less(a, b) <==> ((exists|k: int| #[trigger] differs_first_below(a, b, k)) || (a.len()
            < b.len() && b.take(a.len() as int) == a)),
    decreases a.len(),
{
    if a.len() == 0 {
        assert(b.take(0) =~= a);
    } else if b.len() == 0 {
    } else if a[0] != b[0] {
        if a[0] < b[0] {
            assert(a.take(0) =~= b.take(0));
            assert(differs_first_below(a, b, 0));
        }
        assert forall|k: int| !differs_first_below(a, b, k) || a[0] < b[0] by {
            if differs_first_below(a, b, k) && k > 0 {
                assert(a.take(k)[0] == a[0] && b.take(k)[0] == b[0]);
            }
        }
        if a.len() < b.len() && b.take(a.len() as int) == a {
            assert(b.take(a.len() as int)[0] == b[0]);
        }
    } else {
        let a1 = a.skip(1);
        let b1 = b.skip(1);
        law_code_point_order(a1, b1);
        if exists|k: int| #[trigger] differs_first_below(a1, b1, k) {
            let k = choose|k: int| #[trigger] differs_first_below(a1, b1, k);
            assert(a.take(k + 1) =~= seq![a[0]] + a1.take(k));
            assert(b.take(k + 1) =~= seq![b[0]] + b1.take(k));
            assert(differs_first_below(a, b, k + 1));
        }
        if exists|k: int| #[trigger] differs_first_below(a, b, k) {
            let k = choose|k: int| #[trigger] differs_first_below(a, b, k);
            assert(k > 0);
            assert(a1.take(k - 1) =~= a.take(k).skip(1));
            assert(b1.take(k - 1) =~= b.take(k).skip(1));
            assert(differs_first_below(a1, b1, k - 1));
        }
        if a1.len() < b1.len() && b1.take(a1.len() as int) == a1 {
            assert(b.take(a.len() as int) =~= seq![b[0]] + b1.take(a1.len() as int));
            assert(a =~= seq![a[0]] + a1);
        }
        if a.len() < b.len() && b.take(a.len() as int) == a {
            assert(b1.take(a1.len() as int) =~= b.take(a.len() as int).skip(1));
        }
    }
}

/// Sorting by a column orders the rows by that column's value: ascending,
/// no row has a larger value than the row after it; descending, no row has
/// a smaller one (numbers and counts as numbers, titles and creation times
/// in code point order).
pub proof fn law_sorted_rows_by_column(s: Seq<ThreadTableRowView>, key: SortKey, dir: ColumnSort)
    ensures
        forall|i: int| 0 <= i < s.len() - 1 ==> {
            let a = #[trigger] sorted_rows(s, key, dir)[i];
            let b = sorted_rows(s, key, dir)[i + 1];
            &&& key == SortKey::Number ==> (if dir == ColumnSort::Descending {
                a.number >= b.number
            } else {
                a.number <= b.number
            })
            &&& key == SortKey::Responses ==> (if dir == ColumnSort::Descending {
                a.response_count >= b.response_count
            } else {
                a.response_count <= b.response_count
            })
            &&& key == SortKey::Title ==> (if dir == ColumnSort::Descending {
                !seq_less(a.title, b.title)
            } else {
                !seq_less(b.title, a.title)
            })
            &&& key == SortKey::CreatedAt ==> (if dir == ColumnSort::Descending {
                !seq_less(a.created_at, b.created_at)
            } else {
                !seq_less(b.created_at, a.created_at)
            })
        },
{
    law_sorted_rows_in_order(s, key, dir);
    assert forall|i: int| 0 <= i < s.len() - 1 implies {
        let a = #[trigger] sorted_rows(s, key, dir)[i];
        let b = sorted_rows(s, key, dir)[i + 1];
        &&& key == SortKey::Number ==> (if dir == ColumnSort::Descending {
            a.number >= b.number
        } else {
            a.number <= b.number
        })
        &&& key == SortKey::Responses ==> (if dir == ColumnSort::Descending {
            a.response_count >= b.response_count
        } else {
            a.response_count <= b.response_count
        })
        &&& key == SortKey::Title ==> (if dir == ColumnSort::Descending {
            !seq_less(a.title, b.title)
        } else {
            !seq_less(b.title, a.title)
        })
        &&& key == SortKey::CreatedAt ==> (if dir == ColumnSort::Descending {
            !seq_less(a.created_at, b.created_at)
        } else {
            !seq_less(b.created_at, a.created_at)
        })
    } by {
        assert(!out_of_order(sorted_rows(s, key, dir)[i], sorted_rows(s, key, dir)[i + 1], key, dir));
    }
}

proof fn lemma_out_of_order_total(a: ThreadTableRowView, b: ThreadTableRowView, key: SortKey, dir: ColumnSort)
    ensures
        out_of_order(a, b, key, dir) ==> !out_of_order(b, a, key, dir),
{
    crate::strmap::lemma_less_irreflexive(a.title);
    if crate::strmap::seq_less(a.title, b.title) && crate::strmap::seq_less(b.title, a.title) {
        crate::strmap::lemma_less_transitive(a.title, b.title, a.title);
    }
    if crate::strmap::seq_less(a.created_at, b.created_at) && crate::strmap::seq_less(b.created_at, a.created_at) {
        crate::strmap::lemma_less_transitive(a.created_at, b.created_at, a.created_at);
        crate::strmap::lemma_less_irreflexive(a.created_at);
    }
}

proof fn lemma_sorted_insert_in_order(
    s: Seq<ThreadTableRowView>,
    x: ThreadTableRowView,
    key: SortKey,
    dir: ColumnSort,
)
    requires
        forall|i: int| 0 <= i < s.len() - 1 ==> !out_of_order(#[trigger] s[i], s[i + 1], key, dir),
    ensures
        sorted_insert(s, x, key, dir).len() == s.len() + 1,
        forall|i: int|
            0 <= i < sorted_insert(s, x, key, dir).len() - 1 ==> !out_of_order(
                #[trigger] sorted_insert(s, x, key, dir)[i],
                sorted_insert(s, x, key, dir)[i + 1],
                key,
                dir,
            ),
        sorted_insert(s, x, key, dir).len() > 0 && s.len() > 0 ==> (sorted_insert(s, x, key, dir).last()
            == s.last() || sorted_insert(s, x, key, dir).last() == x),
    decreases s.len(),
{
    if s.len() > 0 {
        let d = s.drop_last();
        if out_of_order(s.last(), x, key, dir) {
            assert forall|i: int| 0 <= i < d.len() - 1 implies !out_of_order(#[trigger] d[i], d[i + 1], key, dir) by {
                assert(d[i] == s[i] && d[i + 1] == s[i + 1]);
            }
            lemma_sorted_insert_in_order(d, x, key, dir);
            let r = sorted_insert(d, x, key, dir);
            let n = sorted_insert(s, x, key, dir);
            assert(n == r.push(s.last()));
            assert forall|i: int| 0 <= i < n.len() - 1 implies !out_of_order(#[trigger] n[i], n[i + 1], key, dir) by {
                if i == n.len() - 2 {
                    assert(n[i] == r.last());
                    if d.len() > 0 {
                        if r.last() == d.last() {
                            assert(d.last() == s[s.len() - 2]);
                        } else {
                            lemma_out_of_order_total(s.last(), x, key, dir);
                        }
                    } else {
                        lemma_out_of_order_total(s.last(), x, key, dir);
                    }
                } else {
                    assert(n[i] == r[i] && n[i + 1] == r[i + 1]);
                }
            }
        } else {
            let n = s.push(x);
            assert forall|i: int| 0 <= i < n.len() - 1 implies !out_of_order(#[trigger] n[i], n[i + 1], key, dir) by {
                if i < s.len() - 1 {
                    assert(n[i] == s[i] && n[i + 1] == s[i + 1]);
                }
            }
        }
    }
}

/// Sorting keeps the rows: the sorted rows are the same rows, each as often.
pub proof fn law_sorted_rows_same_rows(s: Seq<ThreadTableRowView>, key: SortKey, dir: ColumnSort)
    ensures
        sorted_rows(s, key, dir).to_multiset() == s.to_multiset(),
    decreases s.len(),
{
    broadcast use vstd::multiset::group_multiset_axioms, vstd::seq_lib::group_to_multiset_ensures;

    if s.len() > 0 {
        law_sorted_rows_same_rows(s.drop_last(), key, dir);
        lemma_sorted_insert_same_rows(sorted_rows(s.drop_last(), key, dir), s.last(), key, dir);
        assert(s =~= s.drop_last().push(s.last()));
    }
}

proof fn lemma_sorted_insert_same_rows(
    s: Seq<ThreadTableRowView>,
    x: ThreadTableRowView,
    key: SortKey,
    dir: ColumnSort,
)
    ensures
        sorted_insert(s, x, key, dir).to_multiset() == s.to_multiset().insert(x),
    decreases s.len(),
{
    broadcast use vstd::multiset::group_multiset_axioms, vstd::seq_lib::group_to_multiset_ensures;

    if s.len() == 0 {
        assert(seq![x] =~= Seq::<ThreadTableRowView>::empty().push(x));
    } else if out_of_order(s.last(), x, key, dir) {
        lemma_sorted_insert_same_rows(s.drop_last(), x, key, dir);
        assert(s =~= s.drop_last().push(s.last()));
        assert(s.to_multiset().insert(x) =~= s.drop_last().to_multiset().insert(x).insert(s.last()));
    }
}

/// Moving a column and moving it back gives the columns one started with.
pub proof fn law_move_column_back<T>(cols: Seq<T>, from: int, to: int)
    requires
        0 <= from < cols.len(),
        0 <= to < cols.len(),
    ensures
        ({
            let moved = cols.remove(from).insert(to, cols[from]);
            moved.remove(to).insert(from, moved[to]) == cols
        }),
{
    let rest = cols.remove(from);
    let moved = rest.insert(to, cols[from]);
    assert(moved[to] == cols[from]);
    assert(moved.remove(to) =~= rest);
    assert(rest.insert(from, cols[from]) =~= cols);
}

/// The board tab opened for a board of a session.
pub open spec fn new_tab(b: SessionBoardView) -> ThreadTabView {
    ThreadTabView { board_name: b.board_name, board_url: b.board_url, threads: seq![], loading: true, error: None }
}

proof fn lemma_boards_opened_fresh(
    cats: Set<Seq<char>>,
    b2c: StrMap<String>,
    list: Seq<SessionBoardView>,
)
    requires
        forall|k: Seq<char>| !#[trigger] b2c.has(k),
        forall|i: int, j: int| 0 <= i < j < list.len() ==> #[trigger] list[i].board_url != #[trigger] list[j].board_url,
    ensures
        boards_opened(seq![], 0, cats, b2c, list).tabs == list.map_values(|b: SessionBoardView| new_tab(b)),
        boards_opened(seq![], 0, cats, b2c, list).cats == cats,
        boards_opened(seq![], 0, cats, b2c, list).active == (if list.len() == 0 { 0 } else { list.len() - 1 }),
    decreases list.len(),
{
    if list.len() > 0 {
        let d = list.drop_last();
        assert forall|i: int, j: int| 0 <= i < j < d.len() implies #[trigger] d[i].board_url != #[trigger] d[j].board_url by {
            assert(d[i] == list[i] && d[j] == list[j]);
        }
        lemma_boards_opened_fresh(cats, b2c, d);
        let r = boards_opened(seq![], 0, cats, b2c, d);
        let b = list.last();
        assert(!has_board_tab(r.tabs, b.board_url)) by {
            if has_board_tab(r.tabs, b.board_url) {
                let k = choose|k: int| 0 <= k < r.tabs.len() && #[trigger] r.tabs[k].board_url == b.board_url;
                assert(r.tabs[k] == new_tab(d[k]));
                assert(list[k].board_url != list[list.len() - 1].board_url);
            }
        }
        assert(b2c.lookup(b.board_url) is None) by {
            assert forall|i: int| 0 <= i < b2c.entries_view().len() implies b2c.entries_view()[i].0@ != b.board_url by {
                if b2c.entries_view()[i].0@ == b.board_url {
                    assert(keys_of(b2c.entries_view())[i] == b.board_url);
                    assert(b2c.has(b.board_url));
                }
            }
            crate::strmap::lemma_lookup_absent(b2c.entries_view(), b.board_url);
        }
        assert(list.map_values(|b: SessionBoardView| new_tab(b)) =~= d.map_values(|b: SessionBoardView| new_tab(b)).push(new_tab(b)));
    }
}

/// Saving the session and restoring it into a window just opened gives
/// back the board tabs, the active board tab, the open categories, the
/// thread tabs with the places reached in them, and the active thread with
/// its place (when no two tabs share a board or a thread, and no board
/// menu was loaded yet).
pub proof fn law_session_round_trip(
    s: ReaderState,
    saved: SessionState,
    fresh: ReaderState,
    post: ReaderState,
    effects: Seq<EffectView>,
)
    requires
        s.wf(),
        s.response_tabs@.len() > 0,
        distinct_threads(s.response_tabs.deep_view()),
        distinct_boards(s.thread_tabs.deep_view()),
        session_built(s, saved),
        fresh.wf(),
        fresh.thread_tabs@.len() == 0,
        forall|k: Seq<char>| !#[trigger] fresh.board_to_category.has(k),
        session_restored(fresh, saved, post, effects),
    ensures
        post.thread_tabs.deep_view().len() == s.thread_tabs@.len(),
        forall|i: int| 0 <= i < s.thread_tabs@.len() ==> {
            &&& (#[trigger] post.thread_tabs.deep_view()[i]).board_url == s.thread_tabs@[i].board_url@
            &&& post.thread_tabs.deep_view()[i].board_name == s.thread_tabs@[i].board_name@
        },
        post.active_thread_tab == s.active_thread_tab,
        forall|k: Seq<char>| #[trigger] post.opened_categories.has(k) <==> s.opened_categories.has(k),
        post.response_tabs.deep_view().len() == s.response_tabs@.len(),
        forall|i: int| 0 <= i < s.response_tabs@.len() ==> #[trigger] post.response_tabs.deep_view()[i]
            == saved_thread_ref(s, i),
        post.active_response_tab == s.active_response_tab,
        post.current_thread matches Some(t) && t.deep_view() == saved_thread_ref(s, s.active_response_tab as int),
        post.current_response_top_number == s.current_response_top_number,
        post.current_response_bottom_number == s.current_response_bottom_number,
        post.current_response_was_at_bottom == s.current_response_was_at_bottom,
{
    let list = saved.thread_tabs.deep_view();
    let st = s.thread_tabs.deep_view();
    assert(fresh.thread_tabs.deep_view() =~= Seq::<ThreadTabView>::empty());
    assert forall|i: int, j: int| 0 <= i < j < list.len() implies #[trigger] list[i].board_url != #[trigger] list[j].board_url by {
        assert(list[i].board_url == st[i].board_url && list[j].board_url == st[j].board_url);
    }
    let cats0 = strings_view(saved.opened_categories@).to_set();
    lemma_boards_opened_fresh(cats0, fresh.board_to_category, list);
    let bo = boards_opened(fresh.thread_tabs.deep_view(), fresh.active_thread_tab as int, cats0, fresh.board_to_category, list);
    assert(fresh.active_thread_tab == 0);
    assert(bo.tabs.len() == st.len());
    assert forall|k: Seq<char>| #[trigger] post.opened_categories.has(k) <==> s.opened_categories.has(k) by {
        assert(cats0.contains(k) == strings_view(saved.opened_categories@).contains(k));
    }
    let tabs = saved.response_tabs.deep_view();
    let a = s.active_response_tab as int;
    assert(clamp_ix(saved.active_response_tab, tabs.len()) == a);
    let t = tabs[a];
    assert(t == saved_thread_ref(s, a));
    assert(place_saved(tabs, a, t.top_response_number, t.bottom_response_number, t.was_at_bottom) =~= tabs);
    let sv = s.response_tabs.deep_view();
    assert(is_first_thread_tab(tabs, t.board_url, t.dat_file, a)) by {
        assert forall|j: int| 0 <= j < a implies !(#[trigger] tabs[j].board_url == t.board_url && tabs[j].dat_file == t.dat_file) by {
            assert(tabs[j] == saved_thread_ref(s, j));
            assert(tabs[j].board_url == sv[j].board_url && tabs[j].dat_file == sv[j].dat_file);
            assert(t.board_url == sv[a].board_url && t.dat_file == sv[a].dat_file);
        }
    }
    crate::reader::lemma_first_thread_tab_unique(tabs, t.board_url, t.dat_file, a);
    assert(tabs.update(a, OpenThreadView { title: t.title, ..tabs[a] }) =~= tabs);
}

} // verus!
