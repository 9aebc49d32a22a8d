//! The state of the reader window: the board tabs with their thread lists,
//! the thread tabs, the responses shown, and what each user action and each
//! finished download does to them. Every operation returns the effects that
//! the program around it carries out (downloads, scrolling, saving the
//! session); it hands the results of downloads back through the `*_loaded`
//! and `*_refreshed` operations.

use vstd::prelude::*;
use crate::boards::{
    dat_unix_seconds, format_thread_created_at, four_digit_year_seconds, local_minute_text, minute_text_shape, ResponseItem, ResponseItemView, ThreadItem,
    ThreadItemView,
};
use crate::table::{ThreadTableRow, ThreadTableRowView};
use crate::menu::{board_categories, build_tree_items, category_of, node_of, opt_string_view, CategoryEntry, CategoryNode};
use crate::strmap::{str_eq, StrMap};
use crate::gestures::{
    extend_trail, gesture_bindings_for, gesture_command_of, gesture_status, gesture_status_text,
    gesture_sequence_key, command_for_gesture, command_for_key, key_bindings_for, key_command_of,
    normalized_key, sequence_key, trail_after, GestureDirection, GesturePane, KeyBindingCommand,
    KeyBindingSettings, MouseGestureCommand, MouseGestureSettings,
};
use crate::textseq::{chars_of, decimal, decimal_exec, extend_all, lower, string_of, trim, trim_bounds};
use crate::html::{name_segments, response_name_plain_text, segments_text};
use crate::post::PostAttemptResult;
use crate::urls::{
    board_dir, board_dir_from_url, image_url, is_image_preview_url, parse_5ch_io_thread_url,
    thread_url_parts,
};

verus! {

/// A board tab: the board and its thread list.
pub struct ThreadTab {
    pub board_name: String,
    pub board_url: String,
    pub threads: Vec<ThreadItem>,
    pub loading: bool,
    pub error: Option<String>,
}

pub struct ThreadTabView {
    pub board_name: Seq<char>,
    pub board_url: Seq<char>,
    pub threads: Seq<ThreadItemView>,
    pub loading: bool,
    pub error: Option<Seq<char>>,
}

pub open spec fn opt_view(o: Option<String>) -> Option<Seq<char>> {
    match o {
        Some(s) => Some(s@),
        None => None,
    }
}

impl DeepView for ThreadTab {
    type V = ThreadTabView;

    open spec fn deep_view(&self) -> ThreadTabView {
        ThreadTabView {
            board_name: self.board_name@,
            board_url: self.board_url@,
            threads: self.threads.deep_view(),
            loading: self.loading,
            error: opt_view(self.error),
        }
    }
}

/// A thread tab, with the place its reader had reached.
pub struct OpenThreadState {
    pub board_url: String,
    pub dat_file: String,
    pub title: String,
    pub top_response_number: Option<usize>,
    pub bottom_response_number: Option<usize>,
    pub was_at_bottom: bool,
}

pub struct OpenThreadView {
    pub board_url: Seq<char>,
    pub dat_file: Seq<char>,
    pub title: Seq<char>,
    pub top_response_number: Option<usize>,
    pub bottom_response_number: Option<usize>,
    pub was_at_bottom: bool,
}

impl DeepView for OpenThreadState {
    type V = OpenThreadView;

    open spec fn deep_view(&self) -> OpenThreadView {
        OpenThreadView {
            board_url: self.board_url@,
            dat_file: self.dat_file@,
            title: self.title@,
            top_response_number: self.top_response_number,
            bottom_response_number: self.bottom_response_number,
            was_at_bottom: self.was_at_bottom,
        }
    }
}

impl OpenThreadState {
    pub fn copy(&self) -> (r: Self)
        ensures
            r.deep_view() == self.deep_view(),
    {
        OpenThreadState {
            board_url: self.board_url.clone(),
            dat_file: self.dat_file.clone(),
            title: self.title.clone(),
            top_response_number: self.top_response_number,
            bottom_response_number: self.bottom_response_number,
            was_at_bottom: self.was_at_bottom,
        }
    }
}

/// How the three panes are laid out.
#[derive(Clone, Copy, PartialEq, Eq, Debug, Structural)]
pub enum LayoutMode {
    Horizontal,
    Vertical,
    Single,
}

/// What the program around the state is asked to do after an operation.
pub enum ReaderEffect {
    /// Save the session (after a short quiet time).
    SaveSession,
    /// Download a board's thread list, from the cache if it has one, and
    /// hand it to `subject_loaded`.
    LoadSubject { board_url: String },
    /// Download a board's thread list anew and hand it to
    /// `subject_refreshed` with the tab's index.
    RefreshSubject { tab_ix: usize, board_url: String },
    /// Download a thread, from the cache if it has one, and hand it to
    /// `dat_loaded` with the place to restore.
    LoadDat {
        board_url: String,
        dat_file: String,
        restore_numbers: (Option<usize>, Option<usize>),
        restore_to_bottom: bool,
    },
    /// Download what is new in a thread and hand it to `dat_refreshed`
    /// with the highest number shown before.
    RefreshDat { board_url: String, dat_file: String, previous_max_number: usize },
    /// Scroll the thread list so that the row of this index is at the top.
    ScrollThreadToItem(usize),
    /// Scroll the responses so that the row of this index is at the top.
    ScrollResponseToItem(usize),
    /// Scroll the thread list by a page, down when `true`.
    ScrollThreadPage(bool),
    /// Scroll the responses by a page, down when `true`.
    ScrollResponsePage(bool),
    /// Forget the distance pulled towards a refresh.
    ResetPullRefresh,
}

pub enum EffectView {
    SaveSession,
    LoadSubject { board_url: Seq<char> },
    RefreshSubject { tab_ix: usize, board_url: Seq<char> },
    LoadDat {
        board_url: Seq<char>,
        dat_file: Seq<char>,
        restore_numbers: (Option<usize>, Option<usize>),
        restore_to_bottom: bool,
    },
    RefreshDat { board_url: Seq<char>, dat_file: Seq<char>, previous_max_number: usize },
    ScrollThreadToItem(usize),
    ScrollResponseToItem(usize),
    ScrollThreadPage(bool),
    ScrollResponsePage(bool),
    ResetPullRefresh,
}

impl DeepView for ReaderEffect {
    type V = EffectView;

    open spec fn deep_view(&self) -> EffectView {
        match self {
            ReaderEffect::SaveSession => EffectView::SaveSession,
            ReaderEffect::LoadSubject { board_url } => EffectView::LoadSubject {
                board_url: board_url@,
            },
            ReaderEffect::RefreshSubject { tab_ix, board_url } => EffectView::RefreshSubject {
                tab_ix: *tab_ix,
                board_url: board_url@,
            },
            ReaderEffect::LoadDat { board_url, dat_file, restore_numbers, restore_to_bottom } =>
                EffectView::LoadDat {
                board_url: board_url@,
                dat_file: dat_file@,
                restore_numbers: *restore_numbers,
                restore_to_bottom: *restore_to_bottom,
            },
            ReaderEffect::RefreshDat { board_url, dat_file, previous_max_number } =>
                EffectView::RefreshDat {
                board_url: board_url@,
                dat_file: dat_file@,
                previous_max_number: *previous_max_number,
            },
            ReaderEffect::ScrollThreadToItem(i) => EffectView::ScrollThreadToItem(*i),
            ReaderEffect::ScrollResponseToItem(i) => EffectView::ScrollResponseToItem(*i),
            ReaderEffect::ScrollThreadPage(d) => EffectView::ScrollThreadPage(*d),
            ReaderEffect::ScrollResponsePage(d) => EffectView::ScrollResponsePage(*d),
            ReaderEffect::ResetPullRefresh => EffectView::ResetPullRefresh,
        }
    }
}

/// The reader's state. Positions in pixels and everything drawn on screen
/// are kept by the program around it.
pub struct ReaderState {
    pub layout_mode: LayoutMode,
    pub active_thread_tab: usize,
    pub active_response_tab: usize,
    pub thread_tabs: Vec<ThreadTab>,
    pub response_tabs: Vec<OpenThreadState>,
    pub responses: Vec<ResponseItem>,
    /// The category of each board, by the board's URL.
    pub board_to_category: StrMap<String>,
    /// The categories open in the board tree.
    pub opened_categories: StrMap<bool>,
    pub current_thread: Option<OpenThreadState>,
    pub current_response_top_number: Option<usize>,
    pub current_response_bottom_number: Option<usize>,
    pub current_response_was_at_bottom: bool,
    /// The first response that is new since the last refresh.
    pub response_new_marker_from: Option<usize>,
    pub pending_restore_response_numbers: Option<(Option<usize>, Option<usize>)>,
    pub pending_restore_response_to_bottom: bool,
    pub response_composer_open: bool,
    pub response_submit_hint: Option<String>,
    /// The confirmation a board asked for before it takes a post.
    pub post_confirm: Option<PostConfirmState>,
    pub footer_status_hint: Option<String>,
    pub current_theme_name: Option<String>,
    pub mouse_gesture_settings: MouseGestureSettings,
    pub key_binding_settings: KeyBindingSettings,
    /// The list that keys act on.
    pub focused_pane: GesturePane,
    /// The gesture being drawn, if any.
    pub gesture_tracking: Option<GestureTracking>,
    /// The image shown over the responses, if any.
    pub image_preview_state: Option<ImagePreviewState>,
    /// Counts image requests, so that a late answer to an earlier one is
    /// ignored.
    pub image_preview_generation: u64,
}

/// Where an image preview stands.
pub enum ImagePreviewStatus {
    Loading,
    Ready { local_path: String },
    Error { message: String },
}

/// The image shown over the responses: the request it answers, its URL and
/// where it stands. (Its place on screen is kept by the program around
/// this library.)
pub struct ImagePreviewState {
    pub request_generation: u64,
    pub url: String,
    pub status: ImagePreviewStatus,
}

/// The request count after one more request (wrapping around).
pub open spec fn next_generation(g: u64) -> u64 {
    if g == u64::MAX {
        0
    } else {
        (g + 1) as u64
    }
}

fn next_generation_exec(g: u64) -> (r: u64)
    ensures
        r == next_generation(g),
{
    if g == u64::MAX {
        0
    } else {
        g + 1
    }
}

/// What hovering a link does to the image preview.
pub enum ImagePreviewStart {
    /// The link is not to an image.
    NotImage,
    /// The image is shown already; only its place changes.
    AlreadyShown,
    /// Download the image for request `generation` and hand it to
    /// `image_preview_loaded`.
    Started { generation: u64 },
}

/// The hidden fields a board's confirmation page gave for a thread, sent
/// back with the next post to it.
pub struct PostConfirmState {
    pub board_url: String,
    pub dat_file: String,
    pub feature: String,
    pub time: String,
}

/// What a press of the post button leads to.
pub enum SubmitStep {
    /// Tell the user something went wrong.
    Alert { title: String, message: String },
    /// Ask the user first.
    Confirm { title: String, message: String, ok_label: String, cancel_label: String },
    /// Send the post.
    Submit,
}

/// The post to send, once started.
pub enum PostStart {
    /// No thread is open: tell the user so.
    NoThread { title: String, message: String },
    /// Send it to this thread, with the confirmation fields if the board
    /// asked for them for this thread.
    Send { board_url: String, dat_file: String, pending_confirm: Option<(String, String)> },
}

/// A gesture being drawn: the list it started on and its strokes so far.
pub struct GestureTracking {
    pub pane: GesturePane,
    pub trail: Vec<GestureDirection>,
}

/// The text shown in place of responses while none are loaded.
pub open spec fn placeholder(body: Seq<char>) -> ResponseItemView {
    ResponseItemView { number: 0, name: "system"@, timestamp: ""@, id: ""@, body }
}

pub open spec fn msg_loading_responses() -> Seq<char> {
    "レス読み込み中..."@
}

pub open spec fn msg_choose_thread() -> Seq<char> {
    "スレッドを選択してください"@
}

pub open spec fn msg_fetch_failed(e: Seq<char>) -> Seq<char> {
    "取得失敗: "@ + e
}

pub open spec fn msg_refreshing_threads() -> Seq<char> {
    "スレッド一覧を更新中..."@
}

pub open spec fn msg_threads_refresh_failed(e: Seq<char>) -> Seq<char> {
    "スレッド一覧の更新に失敗: "@ + e
}

pub open spec fn msg_refreshing_responses() -> Seq<char> {
    "レス一覧を更新中..."@
}

pub open spec fn msg_responses_refresh_failed(e: Seq<char>) -> Seq<char> {
    "レス一覧の更新に失敗: "@ + e
}

fn placeholder_rows(body: String) -> (r: Vec<ResponseItem>)
    ensures
        r.deep_view() == seq![placeholder(body@)],
{
    let v = vec![
        ResponseItem {
            number: 0,
            name: "system".to_owned(),
            timestamp: "".to_owned(),
            id: "".to_owned(),
            body,
        },
    ];
    assert(v.deep_view() =~= seq![placeholder(body@)]);
    v
}

/// No effect at all.
fn no_effects() -> (r: Vec<ReaderEffect>)
    ensures
        r.deep_view() == Seq::<EffectView>::empty(),
{
    Vec::new()
}

/// Only saving the session.
fn save_only() -> (r: Vec<ReaderEffect>)
    ensures
        r.deep_view() == seq![EffectView::SaveSession],
{
    let r = vec![ReaderEffect::SaveSession];
    assert(r.deep_view() =~= seq![EffectView::SaveSession]);
    r
}

/// The character of a hexadecimal digit, capital letters above 9.
pub open spec fn hex_digit(d: nat) -> char {
    if d < 10 {
        ((48 + d) as u8) as char
    } else {
        ((55 + d) as u8) as char
    }
}

/// Two decimal digits of `n` (below 100).
pub open spec fn two_digits(n: nat) -> Seq<char> {
    seq![hex_digit(n / 10), hex_digit(n % 10)]
}

/// Two capital hexadecimal digits of `n` (below 256).
pub open spec fn two_hex_digits(n: nat) -> Seq<char> {
    seq![hex_digit(n / 16), hex_digit(n % 16)]
}

/// The sample response numbered `i` that a window just opened shows.
pub open spec fn sample_response(i: nat) -> ResponseItemView {
    ResponseItemView {
        number: i as usize,
        name: "既にその名前は使われています"@,
        timestamp: "2026/04/19(日) 09:"@ + two_digits(i % 60) + ":00"@,
        id: "ID:"@ + two_hex_digits(i) + two_hex_digits((255 - i) as nat),
        body: "本文ダミー\n2行目の本文ダミー"@,
    }
}

/// The responses a window just opened shows: samples numbered 1 to 5.
pub open spec fn sample_responses() -> Seq<ResponseItemView> {
    Seq::new(5, |k: int| sample_response((k + 1) as nat))
}

fn hex_digit_char(d: u8) -> (c: char)
    requires
        d < 16,
    ensures
        c == hex_digit(d as nat),
{
    if d < 10 {
        (48u8 + d) as char
    } else {
        (55u8 + d) as char
    }
}

fn sample_response_item(i: u8) -> (r: ResponseItem)
    requires
        1 <= i <= 5,
    ensures
        r.deep_view() == sample_response(i as nat),
{
    let mut ts = chars_of("2026/04/19(日) 09:");
    let m = i % 60;
    ts.push(hex_digit_char(m / 10));
    ts.push(hex_digit_char(m % 10));
    let tail = chars_of(":00");
    extend_all(&mut ts, &tail);
    let mut id = chars_of("ID:");
    id.push(hex_digit_char(i / 16));
    id.push(hex_digit_char(i % 16));
    let j: u8 = 255 - i;
    id.push(hex_digit_char(j / 16));
    id.push(hex_digit_char(j % 16));
    let r = ResponseItem {
        number: i as usize,
        name: "既にその名前は使われています".to_owned(),
        timestamp: string_of(&ts),
        id: string_of(&id),
        body: "本文ダミー\n2行目の本文ダミー".to_owned(),
    };
    assert(r.timestamp@ =~= "2026/04/19(日) 09:"@ + two_digits(i as nat % 60) + ":00"@);
    assert(r.id@ =~= "ID:"@ + two_hex_digits(i as nat) + two_hex_digits((255 - i) as nat));
    r
}

fn sample_response_items() -> (r: Vec<ResponseItem>)
    ensures
        r.deep_view() == sample_responses(),
{
    let mut r: Vec<ResponseItem> = Vec::new();
    let mut i: u8 = 1;
    while i <= 5
        invariant
            1 <= i <= 6,
            r.deep_view() =~= sample_responses().take(i - 1),
        decreases 6 - i,
    {
        let item = sample_response_item(i);
        let ghost before = r.deep_view();
        r.push(item);
        assert(r.deep_view() =~= before.push(item.deep_view()));
        i += 1;
    }
    assert(sample_responses().take(5) =~= sample_responses());
    r
}

/// `prefix` followed by `s`.
fn prefixed(prefix: &str, s: &str) -> (r: String)
    ensures
        r@ == prefix@ + s@,
{
    let mut v = chars_of(prefix);
    let w = chars_of(s);
    extend_all(&mut v, &w);
    string_of(&v)
}

/// An index is a valid choice among `n` tabs: one of them, or 0 when there
/// are none.
pub open spec fn active_in(ix: usize, n: nat) -> bool {
    if n == 0 {
        ix == 0
    } else {
        ix < n
    }
}

/// Whether the responses shown are a placeholder.
pub open spec fn placeholder_shown(r: Seq<ResponseItemView>) -> bool {
    r.len() == 1 && r[0].number == 0
}

/// Whether the responses shown are a thread's (not empty and not a
/// placeholder).
pub open spec fn rows_loaded(r: Seq<ResponseItemView>) -> bool {
    r.len() > 0 && !placeholder_shown(r)
}

/// The board tab at `i` is the first one of `url`.
pub open spec fn is_first_board_tab(tabs: Seq<ThreadTabView>, url: Seq<char>, i: int) -> bool {
    &&& 0 <= i < tabs.len()
    &&& tabs[i].board_url == url
    &&& forall|j: int| 0 <= j < i ==> #[trigger] tabs[j].board_url != url
}

/// Some board tab is of `url`.
pub open spec fn has_board_tab(tabs: Seq<ThreadTabView>, url: Seq<char>) -> bool {
    exists|i: int| 0 <= i < tabs.len() && #[trigger] tabs[i].board_url == url
}

/// The thread tab at `i` is the first one of the thread.
pub open spec fn is_first_thread_tab(
    tabs: Seq<OpenThreadView>,
    url: Seq<char>,
    dat: Seq<char>,
    i: int,
) -> bool {
    &&& 0 <= i < tabs.len()
    &&& tabs[i].board_url == url && tabs[i].dat_file == dat
    &&& forall|j: int|
        0 <= j < i ==> !(#[trigger] tabs[j].board_url == url && tabs[j].dat_file == dat)
}

/// Some thread tab is of the thread.
pub open spec fn has_thread_tab(tabs: Seq<OpenThreadView>, url: Seq<char>, dat: Seq<char>) -> bool {
    exists|i: int| 0 <= i < tabs.len() && #[trigger] tabs[i].board_url == url && tabs[i].dat_file == dat
}

/// A thread tab with its reader's place replaced.
pub open spec fn with_place(
    t: OpenThreadView,
    top: Option<usize>,
    bottom: Option<usize>,
    was_at_bottom: bool,
) -> OpenThreadView {
    OpenThreadView {
        top_response_number: top,
        bottom_response_number: bottom,
        was_at_bottom,
        ..t
    }
}

/// The thread tabs with the place on screen written into the active one.
pub open spec fn place_saved(
    tabs: Seq<OpenThreadView>,
    active: int,
    top: Option<usize>,
    bottom: Option<usize>,
    was_at_bottom: bool,
) -> Seq<OpenThreadView> {
    if 0 <= active < tabs.len() {
        tabs.update(active, with_place(tabs[active], top, bottom, was_at_bottom))
    } else {
        tabs
    }
}

/// The thread tabs after a thread is opened: its first tab, retitled, or a
/// new tab at the end; the tab that becomes active; and the place to
/// restore in it.
pub struct OpenedTabs {
    pub tabs: Seq<OpenThreadView>,
    pub active: int,
    pub restore: (Option<usize>, Option<usize>),
    pub to_bottom: bool,
}

pub open spec fn tabs_after_open(
    tabs: Seq<OpenThreadView>,
    url: Seq<char>,
    dat: Seq<char>,
    title: Seq<char>,
) -> OpenedTabs {
    if has_thread_tab(tabs, url, dat) {
        let ix = choose|i: int| is_first_thread_tab(tabs, url, dat, i);
        OpenedTabs {
            tabs: tabs.update(ix, OpenThreadView { title, ..tabs[ix] }),
            active: ix,
            restore: (tabs[ix].top_response_number, tabs[ix].bottom_response_number),
            to_bottom: tabs[ix].was_at_bottom,
        }
    } else {
        OpenedTabs {
            tabs: tabs.push(
                OpenThreadView {
                    board_url: url,
                    dat_file: dat,
                    title,
                    top_response_number: None,
                    bottom_response_number: None,
                    was_at_bottom: false,
                },
            ),
            active: tabs.len() as int,
            restore: (None, None),
            to_bottom: false,
        }
    }
}

/// `post` shows the thread (`url`, `dat`) opened under `title`, where the
/// thread tabs were `tabs` with `active` the active one and the place on
/// screen was (`top`, `bottom`, `was_at_bottom`); `effects` is what was
/// asked for.
pub open spec fn thread_opened_from(
    tabs: Seq<OpenThreadView>,
    active: int,
    top: Option<usize>,
    bottom: Option<usize>,
    was_at_bottom: bool,
    post: ReaderState,
    effects: Seq<EffectView>,
    url: Seq<char>,
    dat: Seq<char>,
    title: Seq<char>,
) -> bool {
    let saved = place_saved(tabs, active, top, bottom, was_at_bottom);
    let o = tabs_after_open(saved, url, dat, title);
    &&& post.response_tabs.deep_view() == o.tabs
    &&& post.active_response_tab == o.active
    &&& post.current_thread matches Some(t) && t.deep_view() == (OpenThreadView {
        board_url: url,
        dat_file: dat,
        title,
        top_response_number: o.restore.0,
        bottom_response_number: o.restore.1,
        was_at_bottom: o.to_bottom,
    })
    &&& post.current_response_top_number == o.restore.0
    &&& post.current_response_bottom_number == o.restore.1
    &&& post.current_response_was_at_bottom == o.to_bottom
    &&& post.response_new_marker_from is None
    &&& post.responses.deep_view() == seq![placeholder(msg_loading_responses())]
    &&& post.pending_restore_response_numbers == Some(o.restore)
    &&& post.pending_restore_response_to_bottom == o.to_bottom
    &&& post.post_confirm is None
    &&& post.response_submit_hint is None
    &&& effects == seq![
        EffectView::SaveSession,
        EffectView::LoadDat {
            board_url: url,
            dat_file: dat,
            restore_numbers: o.restore,
            restore_to_bottom: o.to_bottom,
        },
    ]
}

/// What opening a thread leaves alone: every field but those of the
/// responses pane.
pub open spec fn open_thread_frame(pre: ReaderState, post: ReaderState) -> bool {
    post == (ReaderState {
        response_tabs: post.response_tabs,
        active_response_tab: post.active_response_tab,
        current_thread: post.current_thread,
        current_response_top_number: post.current_response_top_number,
        current_response_bottom_number: post.current_response_bottom_number,
        current_response_was_at_bottom: post.current_response_was_at_bottom,
        response_new_marker_from: post.response_new_marker_from,
        responses: post.responses,
        pending_restore_response_numbers: post.pending_restore_response_numbers,
        pending_restore_response_to_bottom: post.pending_restore_response_to_bottom,
        post_confirm: post.post_confirm,
        response_submit_hint: post.response_submit_hint,
        ..pre
    })
}

/// `post` is the state after the thread (`url`, `dat`) is opened under
/// `title` in `pre`, where the thread tabs were `tabs` and the place on
/// screen is written into the tab at `saved_into` (into none when it is
/// not an index of `tabs`), and `effects` what was asked for.
pub open spec fn thread_opened(
    pre: ReaderState,
    tabs: Seq<OpenThreadView>,
    saved_into: int,
    post: ReaderState,
    effects: Seq<EffectView>,
    url: Seq<char>,
    dat: Seq<char>,
    title: Seq<char>,
) -> bool {
    &&& thread_opened_from(
        tabs,
        saved_into,
        pre.current_response_top_number,
        pre.current_response_bottom_number,
        pre.current_response_was_at_bottom,
        post,
        effects,
        url,
        dat,
        title,
    )
    &&& open_thread_frame(pre, post)
}

/// The highest number among the responses, 0 if there are none.
pub open spec fn max_number(r: Seq<ResponseItemView>) -> nat
    decreases r.len(),
{
    if r.len() == 0 {
        0
    } else {
        let m = max_number(r.drop_last());
        if r.last().number > m {
            r.last().number as nat
        } else {
            m
        }
    }
}

/// The lowest number among the responses above `prev`.
pub open spec fn first_new_number(r: Seq<ResponseItemView>, prev: nat) -> Option<usize>
    decreases r.len(),
{
    if r.len() == 0 {
        None
    } else {
        let m = first_new_number(r.drop_last(), prev);
        let n = r.last().number;
        if n > prev && (m matches Some(k) ==> n < k) {
            Some(n)
        } else {
            m
        }
    }
}

pub proof fn lemma_first_thread_tab_unique(tabs: Seq<OpenThreadView>, url: Seq<char>, dat: Seq<char>, i: int)
    requires
        is_first_thread_tab(tabs, url, dat, i),
    ensures
        has_thread_tab(tabs, url, dat),
        (choose|k: int| is_first_thread_tab(tabs, url, dat, k)) == i,
{
    assert(tabs[i].board_url == url && tabs[i].dat_file == dat);
    let c = choose|k: int| is_first_thread_tab(tabs, url, dat, k);
    if c < i {
        assert(!(tabs[c].board_url == url && tabs[c].dat_file == dat));
    } else if c > i {
        assert(!(tabs[i].board_url == url && tabs[i].dat_file == dat));
    }
}

/// `post` is `pre` after the thread list of the board tab at `tab_ix` starts
/// refreshing, and `effects` what was asked for.
pub open spec fn thread_tab_reloaded(pre: ReaderState, post: ReaderState, effects: Seq<EffectView>, tab_ix: usize) -> bool {
    &&& if tab_ix < pre.thread_tabs@.len() && !pre.thread_tabs@[tab_ix as int].loading {
        &&& post.thread_tabs.deep_view() == pre.thread_tabs.deep_view().update(
            tab_ix as int,
            ThreadTabView {
                loading: true,
                error: None,
                ..pre.thread_tabs.deep_view()[tab_ix as int]
            },
        )
        &&& opt_view(post.footer_status_hint) == Some(msg_refreshing_threads())
        &&& effects == seq![
            EffectView::SaveSession,
            EffectView::RefreshSubject {
                tab_ix,
                board_url: pre.thread_tabs@[tab_ix as int].board_url@,
            },
        ]
    } else {
        &&& post.thread_tabs == pre.thread_tabs
        &&& post.footer_status_hint == pre.footer_status_hint
        &&& effects == Seq::<EffectView>::empty()
    }
    &&& post == (ReaderState {
        thread_tabs: post.thread_tabs,
        footer_status_hint: post.footer_status_hint,
        ..pre
    })
}

/// `post` is `pre` after the board tab at `tab_ix` is closed.
pub open spec fn thread_tab_closed(pre: ReaderState, post: ReaderState, effects: Seq<EffectView>, tab_ix: usize) -> bool {
    &&& if tab_ix < pre.thread_tabs@.len() {
        &&& post.thread_tabs.deep_view() == pre.thread_tabs.deep_view().remove(
            tab_ix as int,
        )
        &&& post.active_thread_tab == (if post.thread_tabs@.len() == 0 {
            0
        } else if pre.active_thread_tab < post.thread_tabs@.len() {
            pre.active_thread_tab as int
        } else {
            post.thread_tabs@.len() - 1
        })
        &&& effects == seq![EffectView::SaveSession]
    } else {
        &&& post.thread_tabs == pre.thread_tabs
        &&& post.active_thread_tab == pre.active_thread_tab
        &&& effects == Seq::<EffectView>::empty()
    }
    &&& post == (ReaderState {
        thread_tabs: post.thread_tabs,
        active_thread_tab: post.active_thread_tab,
        ..pre
    })
}

/// `post` is `pre` after the thread tab at `tab_ix` is closed. When it was
/// the active tab, the tab that takes its place is opened at the place
/// saved in it.
pub open spec fn response_tab_closed(pre: ReaderState, post: ReaderState, effects: Seq<EffectView>, tab_ix: usize) -> bool {
    &&& ({
        let tabs = pre.response_tabs.deep_view();
        let rest = tabs.remove(tab_ix as int);
        if tab_ix >= tabs.len() {
            &&& post == pre
            &&& effects == Seq::<EffectView>::empty()
        } else if rest.len() > 0 && tab_ix == pre.active_response_tab {
            let a = if tab_ix < rest.len() { tab_ix as int } else { rest.len() - 1 };
            thread_opened(
                pre,
                rest,
                -1,
                post,
                effects,
                rest[a].board_url,
                rest[a].dat_file,
                rest[a].title,
            )
        } else if rest.len() > 0 {
            &&& post.response_tabs.deep_view() == rest
            &&& post.active_response_tab == (if tab_ix < pre.active_response_tab {
                pre.active_response_tab - 1
            } else {
                pre.active_response_tab as int
            })
            &&& post == (ReaderState {
                response_tabs: post.response_tabs,
                active_response_tab: post.active_response_tab,
                ..pre
            })
            &&& effects == seq![EffectView::SaveSession]
        } else {
            &&& post.response_tabs@.len() == 0
            &&& post.active_response_tab == 0
            &&& post.current_thread is None
            &&& !post.response_composer_open
            &&& post.response_submit_hint is None
            &&& post.post_confirm is None
            &&& post.current_response_top_number is None
            &&& post.current_response_bottom_number is None
            &&& !post.current_response_was_at_bottom
            &&& post.response_new_marker_from is None
            &&& post.pending_restore_response_numbers is None
            &&& !post.pending_restore_response_to_bottom
            &&& post.responses.deep_view() == seq![placeholder(msg_choose_thread())]
            &&& post == (ReaderState {
                response_tabs: post.response_tabs,
                active_response_tab: post.active_response_tab,
                current_thread: post.current_thread,
                response_composer_open: post.response_composer_open,
                response_submit_hint: post.response_submit_hint,
                post_confirm: post.post_confirm,
                current_response_top_number: post.current_response_top_number,
                current_response_bottom_number: post.current_response_bottom_number,
                current_response_was_at_bottom: post.current_response_was_at_bottom,
                response_new_marker_from: post.response_new_marker_from,
                pending_restore_response_numbers: post.pending_restore_response_numbers,
                pending_restore_response_to_bottom: post.pending_restore_response_to_bottom,
                responses: post.responses,
                ..pre
            })
            &&& effects == seq![EffectView::SaveSession]
        }
    })
}

/// `post` is `pre` after the active thread tab is closed.
pub open spec fn current_thread_closed(pre: ReaderState, post: ReaderState, effects: Seq<EffectView>) -> bool {
    if pre.response_tabs@.len() == 0 {
        post == pre && effects == Seq::<EffectView>::empty()
    } else {
        response_tab_closed(pre, post, effects, pre.active_response_tab)
    }
}

/// `post` is `pre` after the open thread starts refreshing.
pub open spec fn thread_reloaded(pre: ReaderState, post: ReaderState, effects: Seq<EffectView>) -> bool {
    &&& match pre.current_thread {
        None => post == pre && effects == Seq::<EffectView>::empty(),
        Some(t) => {
            &&& post.response_tabs.deep_view() == place_saved(
                pre.response_tabs.deep_view(),
                pre.active_response_tab as int,
                pre.current_response_top_number,
                pre.current_response_bottom_number,
                pre.current_response_was_at_bottom,
            )
            &&& post.responses.deep_view() == (if rows_loaded(
                pre.responses.deep_view(),
            ) {
                pre.responses.deep_view()
            } else {
                seq![placeholder(msg_loading_responses())]
            })
            &&& opt_view(post.footer_status_hint) == Some(msg_refreshing_responses())
            &&& effects == seq![
                EffectView::SaveSession,
                EffectView::RefreshDat {
                    board_url: t.board_url@,
                    dat_file: t.dat_file@,
                    previous_max_number: max_number(pre.responses.deep_view()) as usize,
                },
            ]
            &&& post == (ReaderState {
                response_tabs: post.response_tabs,
                responses: post.responses,
                footer_status_hint: post.footer_status_hint,
                ..pre
            })
        },
    }
}


/// The board tab whose threads are listed: the active one, or the last if
/// the active index is past the end.
pub open spec fn selected_thread_tab(s: ReaderState) -> int {
    if s.thread_tabs@.len() == 0 {
        0
    } else if s.active_thread_tab < s.thread_tabs@.len() {
        s.active_thread_tab as int
    } else {
        s.thread_tabs@.len() - 1
    }
}

/// The number of threads listed.
pub open spec fn listed_thread_count(s: ReaderState) -> nat {
    if selected_thread_tab(s) < s.thread_tabs@.len() {
        s.thread_tabs@[selected_thread_tab(s)].threads@.len()
    } else {
        0
    }
}

/// `post` is `pre` after the gesture command `command` is carried out on
/// the list `pane`, and `effects` what was asked for.
pub open spec fn gesture_executed(
    pre: ReaderState,
    post: ReaderState,
    effects: Seq<EffectView>,
    pane: GesturePane,
    command: MouseGestureCommand,
) -> bool {
    let tn = pre.thread_tabs@.len();
    let rn = pre.response_tabs@.len();
    let ta = pre.active_thread_tab;
    let ra = pre.active_response_tab;
    match (pane, command) {
        (_, MouseGestureCommand::Unassigned) => post == pre && effects == Seq::<EffectView>::empty(),
        (GesturePane::ThreadList, MouseGestureCommand::ScrollTop) => post == pre && effects == seq![
            EffectView::ScrollThreadToItem(0),
        ],
        (GesturePane::ThreadList, MouseGestureCommand::ScrollBottom) => post == pre && effects == (
        if listed_thread_count(pre) > 0 {
            seq![EffectView::ScrollThreadToItem((listed_thread_count(pre) - 1) as usize)]
        } else {
            Seq::<EffectView>::empty()
        }),
        (GesturePane::ThreadList, MouseGestureCommand::Refresh) => {
            &&& effects.len() >= 1
            &&& effects[0] == EffectView::ResetPullRefresh
            &&& if tn == 0 {
                post == pre && effects.len() == 1
            } else {
                thread_tab_reloaded(pre, post, effects.drop_first(), ta)
            }
        },
        (GesturePane::ThreadList, MouseGestureCommand::Close) => if tn == 0 {
            post == pre && effects == Seq::<EffectView>::empty()
        } else {
            thread_tab_closed(pre, post, effects, ta)
        },
        (GesturePane::ThreadList, MouseGestureCommand::TabPrev) => if tn > 0 && ta > 0 {
            post == (ReaderState { active_thread_tab: (ta - 1) as usize, ..pre }) && effects == seq![
                EffectView::SaveSession,
            ]
        } else {
            post == pre && effects == Seq::<EffectView>::empty()
        },
        (GesturePane::ThreadList, MouseGestureCommand::TabNext) => if tn > 0 && ta + 1 < tn {
            post == (ReaderState { active_thread_tab: (ta + 1) as usize, ..pre }) && effects == seq![
                EffectView::SaveSession,
            ]
        } else {
            post == pre && effects == Seq::<EffectView>::empty()
        },
        (GesturePane::ResponseList, MouseGestureCommand::ScrollTop) => post == pre && effects
            == seq![EffectView::ScrollResponseToItem(0)],
        (GesturePane::ResponseList, MouseGestureCommand::ScrollBottom) => post == pre && effects == (
        if pre.responses@.len() > 0 {
            seq![EffectView::ScrollResponseToItem((pre.responses@.len() - 1) as usize)]
        } else {
            Seq::<EffectView>::empty()
        }),
        (GesturePane::ResponseList, MouseGestureCommand::Refresh) => {
            &&& effects.len() >= 1
            &&& effects[0] == EffectView::ResetPullRefresh
            &&& thread_reloaded(pre, post, effects.drop_first())
        },
        (GesturePane::ResponseList, MouseGestureCommand::Close) => current_thread_closed(
            pre,
            post,
            effects,
        ),
        (GesturePane::ResponseList, MouseGestureCommand::TabPrev) => if rn > 0 && ra > 0 {
            let t = pre.response_tabs.deep_view()[ra - 1];
            thread_opened(
                pre,
                pre.response_tabs.deep_view(),
                ra as int,
                post,
                effects,
                t.board_url,
                t.dat_file,
                t.title,
            )
        } else {
            post == pre && effects == Seq::<EffectView>::empty()
        },
        (GesturePane::ResponseList, MouseGestureCommand::TabNext) => if rn > 0 && ra + 1 < rn {
            let t = pre.response_tabs.deep_view()[ra + 1];
            thread_opened(
                pre,
                pre.response_tabs.deep_view(),
                ra as int,
                post,
                effects,
                t.board_url,
                t.dat_file,
                t.title,
            )
        } else {
            post == pre && effects == Seq::<EffectView>::empty()
        },
    }
}

/// The gesture command a key command stands for, where it stands for one.
pub open spec fn key_as_gesture(c: KeyBindingCommand) -> Option<MouseGestureCommand> {
    match c {
        KeyBindingCommand::ScrollTop => Some(MouseGestureCommand::ScrollTop),
        KeyBindingCommand::ScrollBottom => Some(MouseGestureCommand::ScrollBottom),
        KeyBindingCommand::Refresh => Some(MouseGestureCommand::Refresh),
        KeyBindingCommand::Close => Some(MouseGestureCommand::Close),
        _ => None,
    }
}

/// `post` is `pre` after the key command `command` is carried out on the
/// list `pane`: the page keys scroll by a page, the others act as the
/// gesture commands of the same name.
pub open spec fn key_command_executed(
    pre: ReaderState,
    post: ReaderState,
    effects: Seq<EffectView>,
    pane: GesturePane,
    command: KeyBindingCommand,
) -> bool {
    match key_as_gesture(command) {
        Some(g) => gesture_executed(pre, post, effects, pane, g),
        None => post == pre && effects == match (pane, command) {
            (GesturePane::ThreadList, KeyBindingCommand::PageUp) => seq![
                EffectView::ScrollThreadPage(false),
            ],
            (GesturePane::ThreadList, KeyBindingCommand::PageDown) => seq![
                EffectView::ScrollThreadPage(true),
            ],
            (GesturePane::ResponseList, KeyBindingCommand::PageUp) => seq![
                EffectView::ScrollResponsePage(false),
            ],
            (GesturePane::ResponseList, KeyBindingCommand::PageDown) => seq![
                EffectView::ScrollResponsePage(true),
            ],
            _ => Seq::<EffectView>::empty(),
        },
    }
}


/// How a gesture ended.
pub enum GestureEnd {
    /// No gesture was being drawn on that list.
    NotTracking,
    /// The gesture had no stroke.
    EmptyTrail,
    /// The gesture's command was carried out; the text to show.
    Performed { status: String },
}

/// The gesture assignments of a list.
pub open spec fn pane_bindings(s: ReaderState, pane: GesturePane) -> StrMap<MouseGestureCommand> {
    match pane {
        GesturePane::ThreadList => s.mouse_gesture_settings.thread.commands,
        GesturePane::ResponseList => s.mouse_gesture_settings.response.commands,
    }
}

/// The trail of the gesture being drawn on `pane` after a last stroke
/// `direction` (if any).
pub open spec fn final_trail(t: GestureTracking, direction: Option<GestureDirection>) -> Seq<GestureDirection> {
    match direction {
        Some(d) => trail_after(t.trail@, d),
        None => t.trail@,
    }
}


/// The row of the thread list for the thread at `i` of a board tab, but
/// for its creation time (shown in local time) and momentum (written by the
/// program around this library).
pub open spec fn row_matches(r: ThreadTableRowView, t: ThreadTabView, i: int) -> bool {
    &&& r.number == i + 1
    &&& r.board_url == t.board_url
    &&& r.dat_file == t.threads[i].dat_file
    &&& r.title == t.threads[i].title
    &&& r.response_count == t.threads[i].response_count
    &&& r.momentum_per_day == Seq::<char>::empty()
    &&& dat_unix_seconds(t.threads[i].dat_file) is None ==> r.created_at == seq!['-']
    &&& (dat_unix_seconds(t.threads[i].dat_file) matches Some(u) ==> (four_digit_year_seconds(u)
        ==> minute_text_shape(r.created_at) && local_minute_text(u as int, r.created_at)))
}

/// The message shown over the thread list (empty when threads are listed).
pub open spec fn thread_list_message(s: ReaderState) -> Seq<char> {
    let sel = selected_thread_tab(s);
    if sel >= s.thread_tabs@.len() {
        "左の板一覧から板を選択してください"@
    } else {
        let t = s.thread_tabs.deep_view()[sel];
        if t.loading && t.threads.len() == 0 {
            "読み込み中..."@
        } else if t.threads.len() == 0 {
            match t.error {
                Some(e) => msg_fetch_failed(e),
                None => "スレッドがありません"@,
            }
        } else {
            ""@
        }
    }
}


/// The title a thread is opened under from a link: its title in the list
/// of the first tab of its board, if listed there, else the board's
/// directory and the thread's key.
pub open spec fn linked_thread_title(tabs: Seq<ThreadTabView>, board: Seq<char>, dat: Seq<char>) -> Seq<char> {
    if has_board_tab(tabs, board) {
        let t = tabs[choose|i: int| is_first_board_tab(tabs, board, i)];
        if exists|j: int| 0 <= j < t.threads.len() && #[trigger] t.threads[j].dat_file == dat {
            t.threads[choose|j: int| 0 <= j < t.threads.len() && #[trigger] t.threads[j].dat_file == dat
                && forall|k: int| 0 <= k < j ==> t.threads[k].dat_file != dat].title
        } else {
            board_dir(board) + seq![' '] + dat
        }
    } else {
        board_dir(board) + seq![' '] + dat
    }
}

/// `post` is `pre` after the board (`url`, `name`) is opened in a tab, and
/// `effects` what was asked for.
pub open spec fn board_tab_opened(pre: ReaderState, post: ReaderState, effects: Seq<EffectView>, url: Seq<char>, name: Seq<char>) -> bool {
    &&& has_board_tab(pre.thread_tabs.deep_view(), url) ==> {
        &&& post.thread_tabs == pre.thread_tabs
        &&& is_first_board_tab(
            pre.thread_tabs.deep_view(),
            url,
            post.active_thread_tab as int,
        )
        &&& post.opened_categories == pre.opened_categories
        &&& effects == seq![EffectView::SaveSession]
    }
    &&& !has_board_tab(pre.thread_tabs.deep_view(), url) ==> {
        &&& post.thread_tabs.deep_view() == pre.thread_tabs.deep_view().push(
            ThreadTabView {
                board_name: name,
                board_url: url,
                threads: seq![],
                loading: true,
                error: None,
            },
        )
        &&& post.active_thread_tab == pre.thread_tabs@.len()
        &&& forall|k: Seq<char>| #[trigger]
            post.opened_categories.has(k) <==> (pre.opened_categories.has(k)
                || opt_view(pre.board_to_category.lookup(url)) == Some(k))
        &&& effects == seq![
            EffectView::SaveSession,
            EffectView::LoadSubject { board_url: url },
        ]
    }
    &&& post == (ReaderState {
        thread_tabs: post.thread_tabs,
        active_thread_tab: post.active_thread_tab,
        opened_categories: post.opened_categories,
        ..pre
    })
}


/// Where the responses list is scrolled to once a thread has loaded.
pub enum RestoreStep {
    /// Nothing to do now.
    Nothing,
    /// Scroll so that the row of this index is at the bottom.
    ToBottom(usize),
    /// Scroll back to the pixel offset kept by the program around this
    /// library.
    ToOffset,
    /// Scroll so that the row of this index is at the top.
    ToRow(usize),
}

/// The first index whose response satisfies `p`.
pub open spec fn first_index_where(r: Seq<ResponseItemView>, p: spec_fn(usize) -> bool) -> Option<int>
    decreases r.len(),
{
    if r.len() == 0 {
        None
    } else {
        match first_index_where(r.drop_last(), p) {
            Some(i) => Some(i),
            None => if p(r.last().number) {
                Some(r.len() - 1)
            } else {
                None
            },
        }
    }
}

/// The last index whose response satisfies `p`.
pub open spec fn last_index_where(r: Seq<ResponseItemView>, p: spec_fn(usize) -> bool) -> Option<int>
    decreases r.len(),
{
    if r.len() == 0 {
        None
    } else if p(r.last().number) {
        Some(r.len() - 1)
    } else {
        last_index_where(r.drop_last(), p)
    }
}

/// The numbers equal to `t`.
pub open spec fn number_is(t: usize) -> spec_fn(usize) -> bool {
    |n: usize| n == t
}

/// The numbers at least `t`.
pub open spec fn number_from(t: usize) -> spec_fn(usize) -> bool {
    |n: usize| n >= t
}

/// The numbers at most `t`.
pub open spec fn number_upto(t: usize) -> spec_fn(usize) -> bool {
    |n: usize| n <= t
}

/// The row to bring back into view for a saved place: the row numbered
/// `top`, else the row numbered `bottom`, else the first row at or after
/// `top`, else the last row at or before `bottom`.
pub open spec fn restore_index(r: Seq<ResponseItemView>, top: Option<usize>, bottom: Option<usize>) -> Option<int> {
    let exact_top = match top {
        Some(t) => first_index_where(r, number_is(t)),
        None => None,
    };
    let exact_bottom = match bottom {
        Some(b) => first_index_where(r, number_is(b)),
        None => None,
    };
    let after_top = match top {
        Some(t) => first_index_where(r, number_from(t)),
        None => None,
    };
    let before_bottom = match bottom {
        Some(b) => last_index_where(r, number_upto(b)),
        None => None,
    };
    if exact_top is Some {
        exact_top
    } else if exact_bottom is Some {
        exact_bottom
    } else if after_top is Some {
        after_top
    } else {
        before_bottom
    }
}

/// The text copied for a whole response: number, name, time, then the ID
/// and the body on lines of their own.
pub open spec fn copy_text(r: ResponseItemView) -> Seq<char> {
    decimal(r.number as nat) + seq![' '] + segments_text(name_segments(r.name)) + seq![' ']
        + r.timestamp + seq!['\n'] + r.id + seq!['\n'] + r.body
}

impl ReaderState {
    /// The state's invariant: each active index is valid, and the maps are
    /// well formed.
    pub open spec fn wf(&self) -> bool {
        &&& active_in(self.active_thread_tab, self.thread_tabs@.len())
        &&& active_in(self.active_response_tab, self.response_tabs@.len())
        &&& self.board_to_category.wf()
        &&& self.opened_categories.wf()
        &&& self.mouse_gesture_settings.thread.commands.wf()
        &&& self.mouse_gesture_settings.response.commands.wf()
    }

    /// The state of a window just opened, with the settings read.
    pub fn new(mouse_gesture_settings: MouseGestureSettings, key_binding_settings: KeyBindingSettings) -> (r: Self)
        requires
            mouse_gesture_settings.thread.commands.wf(),
            mouse_gesture_settings.response.commands.wf(),
        ensures
            r.wf(),
            r.thread_tabs@.len() == 0,
            r.response_tabs@.len() == 0,
            r.responses.deep_view() == sample_responses(),
            r.current_thread is None,
            r.layout_mode == LayoutMode::Horizontal,
            forall|k: Seq<char>| !#[trigger] r.opened_categories.has(k),
            forall|k: Seq<char>| !#[trigger] r.board_to_category.has(k),
            r.mouse_gesture_settings == mouse_gesture_settings,
            r.key_binding_settings == key_binding_settings,
            r.focused_pane == GesturePane::ThreadList,
            r.gesture_tracking is None,
    {
        ReaderState {
            layout_mode: LayoutMode::Horizontal,
            active_thread_tab: 0,
            active_response_tab: 0,
            thread_tabs: Vec::new(),
            response_tabs: Vec::new(),
            responses: sample_response_items(),
            board_to_category: StrMap::new(),
            opened_categories: StrMap::new(),
            current_thread: None,
            current_response_top_number: None,
            current_response_bottom_number: None,
            current_response_was_at_bottom: false,
            response_new_marker_from: None,
            pending_restore_response_numbers: None,
            pending_restore_response_to_bottom: false,
            response_composer_open: false,
            response_submit_hint: None,
            post_confirm: None,
            footer_status_hint: None,
            current_theme_name: None,
            mouse_gesture_settings,
            key_binding_settings,
            focused_pane: GesturePane::ThreadList,
            gesture_tracking: None,
            image_preview_state: None,
            image_preview_generation: 0,
        }
    }

    /// Whether a placeholder stands in place of responses.
    pub fn has_placeholder_response_row(&self) -> (b: bool)
        ensures
            b == placeholder_shown(self.responses.deep_view()),
    {
        self.responses.len() == 1 && self.responses[0].number == 0
    }

    /// Whether a thread's responses are shown.
    pub fn has_loaded_response_rows(&self) -> (b: bool)
        ensures
            b == rows_loaded(self.responses.deep_view()),
    {
        self.responses.len() > 0 && !self.has_placeholder_response_row()
    }

    /// The index of the first board tab of `url`.
    pub fn board_tab_position(&self, url: &str) -> (r: Option<usize>)
        ensures
            match r {
                Some(i) => is_first_board_tab(self.thread_tabs.deep_view(), url@, i as int),
                None => !has_board_tab(self.thread_tabs.deep_view(), url@),
            },
    {
        let ghost tv = self.thread_tabs.deep_view();
        let mut i: usize = 0;
        while i < self.thread_tabs.len()
            invariant
                i <= self.thread_tabs@.len(),
                tv == self.thread_tabs.deep_view(),
                forall|j: int| 0 <= j < i ==> #[trigger] tv[j].board_url != url@,
            decreases self.thread_tabs@.len() - i,
        {
            if str_eq(self.thread_tabs[i].board_url.as_str(), url) {
                return Some(i);
            }
            i += 1;
        }
        None
    }

    /// Opens the tab of a board, or brings its tab forward if one is open.
    /// A new tab starts loading the board's thread list, and the board's
    /// category opens in the board tree.
    pub fn open_board_tab(&mut self, board_url: String, board_name: String) -> (effects: Vec<
        ReaderEffect,
    >)
        requires
            old(self).wf(),
        ensures
            final(self).wf(),
            board_tab_opened(*old(self), *final(self), effects.deep_view(), board_url@, board_name@),
    {
        if let Some(ix) = self.board_tab_position(board_url.as_str()) {
            self.active_thread_tab = ix;
            return save_only();
        }
        if let Some(category) = self.board_to_category.get(board_url.as_str()) {
            let c = category.clone();
            self.opened_categories.insert(c, true);
        }
        let ghost before = self.thread_tabs.deep_view();
        let url_for_effect = board_url.clone();
        let tab = ThreadTab { board_name, board_url, threads: Vec::new(), loading: true, error: None };
        assert(tab.threads.deep_view() =~= Seq::<ThreadItemView>::empty());
        self.thread_tabs.push(tab);
        assert(self.thread_tabs.deep_view() =~= before.push(
            ThreadTabView {
                board_name: board_name@,
                board_url: board_url@,
                threads: seq![],
                loading: true,
                error: None,
            },
        ));
        self.active_thread_tab = self.thread_tabs.len() - 1;
        let effects = vec![
            ReaderEffect::SaveSession,
            ReaderEffect::LoadSubject { board_url: url_for_effect },
        ];
        assert(effects.deep_view() =~= seq![
            EffectView::SaveSession,
            EffectView::LoadSubject { board_url: board_url@ },
        ]);
        effects
    }
    /// Hands a board's downloaded thread list to its first tab (if one is
    /// still open): the list on success, an empty list and the error on
    /// failure.
    pub fn subject_loaded(&mut self, board_url: &str, result: Result<Vec<ThreadItem>, String>) -> (effects: Vec<ReaderEffect>)
        requires
            old(self).wf(),
        ensures
            final(self).wf(),
            match (
                (choose|i: int| is_first_board_tab(old(self).thread_tabs.deep_view(), board_url@, i)),
                has_board_tab(old(self).thread_tabs.deep_view(), board_url@),
            ) {
                (i, true) => {
                    &&& final(self).thread_tabs.deep_view() == old(self).thread_tabs.deep_view().update(
                        i,
                        ThreadTabView {
                            loading: false,
                            threads: match result {
                                Ok(lines) => lines.deep_view(),
                                Err(_) => seq![],
                            },
                            error: match result {
                                Ok(_) => None,
                                Err(e) => Some(e@),
                            },
                            ..old(self).thread_tabs.deep_view()[i]
                        },
                    )
                    &&& effects.deep_view() == seq![EffectView::SaveSession]
                },
                (_, false) => {
                    &&& final(self).thread_tabs == old(self).thread_tabs
                    &&& effects.deep_view() == Seq::<EffectView>::empty()
                },
            },
            final(self).active_thread_tab == old(self).active_thread_tab,
            final(self).response_tabs == old(self).response_tabs,
            final(self).responses == old(self).responses,
            final(self).current_thread == old(self).current_thread,
            final(self).footer_status_hint == old(self).footer_status_hint,
    {
        match self.board_tab_position(board_url) {
            None => no_effects(),
            Some(i) => {
                proof {
                    let tv = old(self).thread_tabs.deep_view();
                    let c = choose|k: int| is_first_board_tab(tv, board_url@, k);
                    assert(is_first_board_tab(tv, board_url@, i as int));
                    assert(c == i) by {
                        if c < i {
                            assert(tv[c].board_url != board_url@);
                        } else if c > i {
                            assert(tv[i as int].board_url != board_url@);
                        }
                    }
                }
                let ghost before = self.thread_tabs.deep_view();
                let old_tab = self.thread_tabs.remove(i);
                let (threads, error) = match result {
                    Ok(lines) => (lines, None),
                    Err(e) => (Vec::new(), Some(e)),
                };
                let tab = ThreadTab {
                    board_name: old_tab.board_name,
                    board_url: old_tab.board_url,
                    threads,
                    loading: false,
                    error,
                };
                assert(threads.deep_view() == match result {
                    Ok(lines) => lines.deep_view(),
                    Err(_) => Seq::<ThreadItemView>::empty(),
                });
                self.thread_tabs.insert(i, tab);
                assert(self.thread_tabs.deep_view() =~= before.update(i as int, tab.deep_view()));
                save_only()
            },
        }
    }

    /// Starts refreshing the thread list of the tab at `tab_ix`, unless there
    /// is no such tab or it is loading already.
    pub fn reload_thread_tab(&mut self, tab_ix: usize) -> (effects: Vec<ReaderEffect>)
        requires
            old(self).wf(),
        ensures
            final(self).wf(),
            thread_tab_reloaded(*old(self), *final(self), effects.deep_view(), tab_ix),
    {
        if tab_ix >= self.thread_tabs.len() || self.thread_tabs[tab_ix].loading {
            return no_effects();
        }
        let ghost before = self.thread_tabs.deep_view();
        let old_tab = self.thread_tabs.remove(tab_ix);
        let url = old_tab.board_url.clone();
        let tab = ThreadTab {
            board_name: old_tab.board_name,
            board_url: old_tab.board_url,
            threads: old_tab.threads,
            loading: true,
            error: None,
        };
        self.thread_tabs.insert(tab_ix, tab);
        assert(self.thread_tabs.deep_view() =~= before.update(tab_ix as int, tab.deep_view()));
        self.footer_status_hint = Some("スレッド一覧を更新中...".to_owned());
        let effects = vec![
            ReaderEffect::SaveSession,
            ReaderEffect::RefreshSubject { tab_ix, board_url: url },
        ];
        assert(effects.deep_view() =~= seq![
            EffectView::SaveSession,
            EffectView::RefreshSubject { tab_ix, board_url: before[tab_ix as int].board_url },
        ]);
        effects
    }

    /// Hands a refreshed thread list to the tab at `tab_ix` (if there is
    /// one): the list on success; on failure the tab keeps its list and
    /// shows the error, and the footer says the refresh failed.
    pub fn subject_refreshed(&mut self, tab_ix: usize, result: Result<Vec<ThreadItem>, String>) -> (effects: Vec<ReaderEffect>)
        requires
            old(self).wf(),
        ensures
            final(self).wf(),
            if tab_ix < old(self).thread_tabs@.len() {
                &&& final(self).thread_tabs.deep_view() == old(self).thread_tabs.deep_view().update(
                    tab_ix as int,
                    match result {
                        Ok(lines) => ThreadTabView {
                            loading: false,
                            threads: lines.deep_view(),
                            error: None,
                            ..old(self).thread_tabs.deep_view()[tab_ix as int]
                        },
                        Err(e) => ThreadTabView {
                            loading: false,
                            error: Some(e@),
                            ..old(self).thread_tabs.deep_view()[tab_ix as int]
                        },
                    },
                )
                &&& opt_view(final(self).footer_status_hint) == match result {
                    Ok(_) => None,
                    Err(e) => Some(msg_threads_refresh_failed(e@)),
                }
                &&& effects.deep_view() == seq![EffectView::SaveSession]
            } else {
                &&& final(self).thread_tabs == old(self).thread_tabs
                &&& final(self).footer_status_hint == old(self).footer_status_hint
                &&& effects.deep_view() == Seq::<EffectView>::empty()
            },
            final(self).active_thread_tab == old(self).active_thread_tab,
            final(self).response_tabs == old(self).response_tabs,
            final(self).responses == old(self).responses,
            final(self).current_thread == old(self).current_thread,
    {
        if tab_ix >= self.thread_tabs.len() {
            return no_effects();
        }
        let ghost before = self.thread_tabs.deep_view();
        let old_tab = self.thread_tabs.remove(tab_ix);
        let tab = match result {
            Ok(lines) => {
                self.footer_status_hint = None;
                ThreadTab {
                    board_name: old_tab.board_name,
                    board_url: old_tab.board_url,
                    threads: lines,
                    loading: false,
                    error: None,
                }
            },
            Err(e) => {
                self.footer_status_hint = Some(prefixed("スレッド一覧の更新に失敗: ", e.as_str()));
                ThreadTab {
                    board_name: old_tab.board_name,
                    board_url: old_tab.board_url,
                    threads: old_tab.threads,
                    loading: false,
                    error: Some(e),
                }
            },
        };
        self.thread_tabs.insert(tab_ix, tab);
        assert(self.thread_tabs.deep_view() =~= before.update(tab_ix as int, tab.deep_view()));
        save_only()
    }

    /// Closes the board tab at `tab_ix` (if there is one); the active tab
    /// stays where it was, or becomes the last one if it was past the end.
    pub fn close_thread_tab(&mut self, tab_ix: usize) -> (effects: Vec<ReaderEffect>)
        requires
            old(self).wf(),
        ensures
            final(self).wf(),
            thread_tab_closed(*old(self), *final(self), effects.deep_view(), tab_ix),
    {
        if tab_ix >= self.thread_tabs.len() {
            return no_effects();
        }
        let ghost before = self.thread_tabs.deep_view();
        self.thread_tabs.remove(tab_ix);
        assert(self.thread_tabs.deep_view() =~= before.remove(tab_ix as int));
        if self.thread_tabs.len() == 0 {
            self.active_thread_tab = 0;
        } else if self.active_thread_tab >= self.thread_tabs.len() {
            self.active_thread_tab = self.thread_tabs.len() - 1;
        }
        save_only()
    }
    /// The index of the first thread tab of the thread.
    pub fn thread_tab_position(&self, url: &str, dat: &str) -> (r: Option<usize>)
        ensures
            match r {
                Some(i) => is_first_thread_tab(self.response_tabs.deep_view(), url@, dat@, i as int),
                None => !has_thread_tab(self.response_tabs.deep_view(), url@, dat@),
            },
    {
        let ghost tv = self.response_tabs.deep_view();
        let mut i: usize = 0;
        while i < self.response_tabs.len()
            invariant
                i <= self.response_tabs@.len(),
                tv == self.response_tabs.deep_view(),
                forall|j: int|
                    0 <= j < i ==> !(#[trigger] tv[j].board_url == url@ && tv[j].dat_file == dat@),
            decreases self.response_tabs@.len() - i,
        {
            if str_eq(self.response_tabs[i].board_url.as_str(), url) && str_eq(
                self.response_tabs[i].dat_file.as_str(),
                dat,
            ) {
                return Some(i);
            }
            i += 1;
        }
        None
    }

    /// Replaces the thread tab at `ix` by `t`.
    fn set_response_tab(&mut self, ix: usize, t: OpenThreadState)
        requires
            ix < old(self).response_tabs@.len(),
        ensures
            final(self).response_tabs.deep_view() == old(self).response_tabs.deep_view().update(
                ix as int,
                t.deep_view(),
            ),
            final(self).response_tabs@.len() == old(self).response_tabs@.len(),
            *final(self) == (ReaderState { response_tabs: final(self).response_tabs, ..*old(self) }),
    {
        let ghost before = self.response_tabs.deep_view();
        self.response_tabs.remove(ix);
        self.response_tabs.insert(ix, t);
        assert(self.response_tabs.deep_view() =~= before.update(ix as int, t.deep_view()));
    }

    /// Writes the place on screen into the active thread tab.
    fn save_place(&mut self)
        requires
            old(self).wf(),
        ensures
            final(self).wf(),
            final(self).response_tabs.deep_view() == place_saved(
                old(self).response_tabs.deep_view(),
                old(self).active_response_tab as int,
                old(self).current_response_top_number,
                old(self).current_response_bottom_number,
                old(self).current_response_was_at_bottom,
            ),
            *final(self) == (ReaderState { response_tabs: final(self).response_tabs, ..*old(self) }),
    {
        let a = self.active_response_tab;
        if a < self.response_tabs.len() {
            let t = OpenThreadState {
                board_url: self.response_tabs[a].board_url.clone(),
                dat_file: self.response_tabs[a].dat_file.clone(),
                title: self.response_tabs[a].title.clone(),
                top_response_number: self.current_response_top_number,
                bottom_response_number: self.current_response_bottom_number,
                was_at_bottom: self.current_response_was_at_bottom,
            };
            self.set_response_tab(a, t);
        }
    }

    /// Opens a thread: its tab if one is open (retitled), else a new tab at
    /// the end. The place on screen is first written into the tab that was
    /// active; the opened tab's saved place is restored once the thread has
    /// loaded.
    #[verifier::rlimit(40)]
    pub fn open_thread(&mut self, board_url: String, dat_file: String, title: String) -> (effects:
        Vec<ReaderEffect>)
        requires
            old(self).wf(),
        ensures
            final(self).wf(),
            thread_opened(
                *old(self),
                old(self).response_tabs.deep_view(),
                old(self).active_response_tab as int,
                *final(self),
                effects.deep_view(),
                board_url@,
                dat_file@,
                title@,
            ),
    {
        self.save_place();
        self.open_thread_at_saved_place(board_url, dat_file, title)
    }

    /// Opens a thread without writing the place on screen into any tab.
    fn open_thread_at_saved_place(&mut self, board_url: String, dat_file: String, title: String) -> (effects:
        Vec<ReaderEffect>)
        requires
            old(self).wf(),
        ensures
            final(self).wf(),
            thread_opened(
                *old(self),
                old(self).response_tabs.deep_view(),
                -1,
                *final(self),
                effects.deep_view(),
                board_url@,
                dat_file@,
                title@,
            ),
    {
        let ghost saved = self.response_tabs.deep_view();
        let pos = self.thread_tab_position(board_url.as_str(), dat_file.as_str());
        let restore: (Option<usize>, Option<usize>);
        let to_bottom: bool;
        match pos {
            Some(ix) => {
                proof {
                    lemma_first_thread_tab_unique(saved, board_url@, dat_file@, ix as int);
                }
                restore = (
                    self.response_tabs[ix].top_response_number,
                    self.response_tabs[ix].bottom_response_number,
                );
                to_bottom = self.response_tabs[ix].was_at_bottom;
                self.active_response_tab = ix;
                let t = OpenThreadState {
                    board_url: self.response_tabs[ix].board_url.clone(),
                    dat_file: self.response_tabs[ix].dat_file.clone(),
                    title: title.clone(),
                    top_response_number: restore.0,
                    bottom_response_number: restore.1,
                    was_at_bottom: to_bottom,
                };
                self.set_response_tab(ix, t);
            },
            None => {
                restore = (None, None);
                to_bottom = false;
                self.response_tabs.push(
                    OpenThreadState {
                        board_url: board_url.clone(),
                        dat_file: dat_file.clone(),
                        title: title.clone(),
                        top_response_number: None,
                        bottom_response_number: None,
                        was_at_bottom: false,
                    },
                );
                self.active_response_tab = self.response_tabs.len() - 1;
            },
        }
        assert(self.response_tabs.deep_view() =~= tabs_after_open(saved, board_url@, dat_file@, title@).tabs);
        self.post_confirm = None;
        self.response_submit_hint = None;
        self.current_thread = Some(
            OpenThreadState {
                board_url: board_url.clone(),
                dat_file: dat_file.clone(),
                title,
                top_response_number: restore.0,
                bottom_response_number: restore.1,
                was_at_bottom: to_bottom,
            },
        );
        self.current_response_top_number = restore.0;
        self.current_response_bottom_number = restore.1;
        self.current_response_was_at_bottom = to_bottom;
        self.response_new_marker_from = None;
        self.responses = placeholder_rows("レス読み込み中...".to_owned());
        self.pending_restore_response_numbers = Some(restore);
        self.pending_restore_response_to_bottom = to_bottom;
        let effects = vec![
            ReaderEffect::SaveSession,
            ReaderEffect::LoadDat {
                board_url,
                dat_file,
                restore_numbers: restore,
                restore_to_bottom: to_bottom,
            },
        ];
        assert(effects.deep_view() =~= seq![
            EffectView::SaveSession,
            EffectView::LoadDat {
                board_url: board_url@,
                dat_file: dat_file@,
                restore_numbers: restore,
                restore_to_bottom: to_bottom,
            },
        ]);
        effects
    }
    /// Closes the thread tab at `tab_ix` (if there is one). Closing the
    /// active tab opens the tab that takes its place; closing the last tab
    /// clears the responses.
    pub fn close_response_tab(&mut self, tab_ix: usize) -> (effects: Vec<ReaderEffect>)
        requires
            old(self).wf(),
        ensures
            final(self).wf(),
            response_tab_closed(*old(self), *final(self), effects.deep_view(), tab_ix),
    {
        if tab_ix >= self.response_tabs.len() {
            return no_effects();
        }
        let ghost tabs = self.response_tabs.deep_view();
        let was_active = tab_ix == self.active_response_tab;
        self.response_tabs.remove(tab_ix);
        assert(self.response_tabs.deep_view() =~= tabs.remove(tab_ix as int));
        if self.response_tabs.len() > 0 {
            if was_active {
                self.active_response_tab = if tab_ix < self.response_tabs.len() {
                    tab_ix
                } else {
                    self.response_tabs.len() - 1
                };
                let a = self.active_response_tab;
                let next = self.response_tabs[a].copy();
                return self.open_thread_at_saved_place(next.board_url, next.dat_file, next.title);
            } else {
                if tab_ix < self.active_response_tab {
                    self.active_response_tab = self.active_response_tab - 1;
                }
                return save_only();
            }
        }
        self.active_response_tab = 0;
        self.current_thread = None;
        self.response_composer_open = false;
        self.response_submit_hint = None;
        self.post_confirm = None;
        self.current_response_top_number = None;
        self.current_response_bottom_number = None;
        self.current_response_was_at_bottom = false;
        self.response_new_marker_from = None;
        self.pending_restore_response_numbers = None;
        self.pending_restore_response_to_bottom = false;
        self.responses = placeholder_rows("スレッドを選択してください".to_owned());
        save_only()
    }

    /// Closes the active thread tab, if there is any.
    pub fn close_current_thread(&mut self) -> (effects: Vec<ReaderEffect>)
        requires
            old(self).wf(),
        ensures
            final(self).wf(),
            current_thread_closed(*old(self), *final(self), effects.deep_view()),
    {
        if self.response_tabs.len() == 0 {
            return no_effects();
        }
        let ix = self.active_response_tab;
        self.close_response_tab(ix)
    }

    /// The highest number among the responses shown, 0 if none.
    fn shown_max_number(&self) -> (m: usize)
        ensures
            m == max_number(self.responses.deep_view()),
    {
        let ghost rv = self.responses.deep_view();
        let mut m: usize = 0;
        let mut i: usize = 0;
        while i < self.responses.len()
            invariant
                i <= self.responses@.len(),
                rv == self.responses.deep_view(),
                m == max_number(rv.take(i as int)),
            decreases self.responses@.len() - i,
        {
            assert(rv.take(i + 1).drop_last() =~= rv.take(i as int));
            if self.responses[i].number > m {
                m = self.responses[i].number;
            }
            i += 1;
        }
        assert(rv.take(i as int) =~= rv);
        m
    }

    /// Starts refreshing the open thread: the place on screen is written
    /// into the active tab, a placeholder stands in if no responses are
    /// shown, and the highest number shown is kept to mark what is new.
    pub fn reload_current_thread(&mut self) -> (effects: Vec<ReaderEffect>)
        requires
            old(self).wf(),
        ensures
            final(self).wf(),
            thread_reloaded(*old(self), *final(self), effects.deep_view()),
    {
        let (url, dat) = match &self.current_thread {
            None => {
                return no_effects();
            },
            Some(t) => (t.board_url.clone(), t.dat_file.clone()),
        };
        let previous_max = self.shown_max_number();
        self.save_place();
        if !self.has_loaded_response_rows() {
            self.responses = placeholder_rows("レス読み込み中...".to_owned());
        }
        self.footer_status_hint = Some("レス一覧を更新中...".to_owned());
        let effects = vec![
            ReaderEffect::SaveSession,
            ReaderEffect::RefreshDat { board_url: url, dat_file: dat, previous_max_number: previous_max },
        ];
        assert(effects.deep_view() =~= seq![
            EffectView::SaveSession,
            EffectView::RefreshDat {
                board_url: url@,
                dat_file: dat@,
                previous_max_number: previous_max,
            },
        ]);
        effects
    }

    /// Hands a loaded thread to the responses pane (or a placeholder with
    /// the error), with the place to restore once it is drawn.
    pub fn dat_loaded(
        &mut self,
        result: Result<Vec<ResponseItem>, String>,
        restore_numbers: (Option<usize>, Option<usize>),
        restore_to_bottom: bool,
    ) -> (effects: Vec<ReaderEffect>)
        requires
            old(self).wf(),
        ensures
            final(self).wf(),
            final(self).responses.deep_view() == match result {
                Ok(lines) => lines.deep_view(),
                Err(e) => seq![placeholder(msg_fetch_failed(e@))],
            },
            final(self).pending_restore_response_numbers == Some(restore_numbers),
            final(self).pending_restore_response_to_bottom == restore_to_bottom,
            effects.deep_view() == seq![EffectView::SaveSession],
            final(self).thread_tabs == old(self).thread_tabs,
            final(self).response_tabs == old(self).response_tabs,
            final(self).active_thread_tab == old(self).active_thread_tab,
            final(self).active_response_tab == old(self).active_response_tab,
            final(self).current_thread == old(self).current_thread,
            final(self).response_new_marker_from == old(self).response_new_marker_from,
            final(self).footer_status_hint == old(self).footer_status_hint,
    {
        self.responses = match result {
            Ok(lines) => lines,
            Err(e) => placeholder_rows(prefixed("取得失敗: ", e.as_str())),
        };
        self.pending_restore_response_numbers = Some(restore_numbers);
        self.pending_restore_response_to_bottom = restore_to_bottom;
        save_only()
    }

    /// The lowest number above `prev` among the responses shown.
    fn new_marker(&self, prev: usize) -> (r: Option<usize>)
        ensures
            r == first_new_number(self.responses.deep_view(), prev as nat),
    {
        let ghost rv = self.responses.deep_view();
        let mut m: Option<usize> = None;
        let mut i: usize = 0;
        while i < self.responses.len()
            invariant
                i <= self.responses@.len(),
                rv == self.responses.deep_view(),
                m == first_new_number(rv.take(i as int), prev as nat),
            decreases self.responses@.len() - i,
        {
            assert(rv.take(i + 1).drop_last() =~= rv.take(i as int));
            let n = self.responses[i].number;
            if n > prev {
                match m {
                    Some(k) => {
                        if n < k {
                            m = Some(n);
                        }
                    },
                    None => {
                        m = Some(n);
                    },
                }
            }
            i += 1;
        }
        assert(rv.take(i as int) =~= rv);
        m
    }

    /// Hands a refreshed thread to the responses pane. On success the first
    /// response above the highest number shown before is marked as new; on
    /// failure a placeholder with the error stands in only if no responses
    /// were shown, and the footer says the refresh failed.
    pub fn dat_refreshed(
        &mut self,
        result: Result<Vec<ResponseItem>, String>,
        previous_max_number: usize,
    ) -> (effects: Vec<ReaderEffect>)
        requires
            old(self).wf(),
        ensures
            final(self).wf(),
            match result {
                Ok(lines) => {
                    &&& final(self).responses.deep_view() == lines.deep_view()
                    &&& final(self).response_new_marker_from == first_new_number(
                        lines.deep_view(),
                        previous_max_number as nat,
                    )
                    &&& final(self).footer_status_hint is None
                },
                Err(e) => {
                    &&& final(self).responses.deep_view() == (if rows_loaded(
                        old(self).responses.deep_view(),
                    ) {
                        old(self).responses.deep_view()
                    } else {
                        seq![placeholder(msg_fetch_failed(e@))]
                    })
                    &&& final(self).response_new_marker_from == old(self).response_new_marker_from
                    &&& opt_view(final(self).footer_status_hint) == Some(
                        msg_responses_refresh_failed(e@),
                    )
                },
            },
            final(self).pending_restore_response_numbers is None,
            !final(self).pending_restore_response_to_bottom,
            effects.deep_view() == seq![EffectView::SaveSession],
            final(self).thread_tabs == old(self).thread_tabs,
            final(self).response_tabs == old(self).response_tabs,
            final(self).active_thread_tab == old(self).active_thread_tab,
            final(self).active_response_tab == old(self).active_response_tab,
            final(self).current_thread == old(self).current_thread,
    {
        match result {
            Ok(lines) => {
                self.responses = lines;
                self.response_new_marker_from = self.new_marker(previous_max_number);
                self.footer_status_hint = None;
            },
            Err(e) => {
                if !self.has_loaded_response_rows() {
                    self.responses = placeholder_rows(prefixed("取得失敗: ", e.as_str()));
                }
                self.footer_status_hint = Some(prefixed("レス一覧の更新に失敗: ", e.as_str()));
            },
        }
        self.pending_restore_response_numbers = None;
        self.pending_restore_response_to_bottom = false;
        save_only()
    }
    /// Carries out a gesture command on a list.
    pub fn execute_gesture_command(&mut self, pane: GesturePane, command: MouseGestureCommand) -> (effects: Vec<ReaderEffect>)
        requires
            old(self).wf(),
        ensures
            final(self).wf(),
            gesture_executed(*old(self), *final(self), effects.deep_view(), pane, command),
    {
        match (pane, command) {
            (_, MouseGestureCommand::Unassigned) => no_effects(),
            (GesturePane::ThreadList, MouseGestureCommand::ScrollTop) => {
                let e = vec![ReaderEffect::ScrollThreadToItem(0)];
                assert(e.deep_view() =~= seq![EffectView::ScrollThreadToItem(0)]);
                e
            },
            (GesturePane::ThreadList, MouseGestureCommand::ScrollBottom) => {
                let n = self.thread_tabs.len();
                let selected = if n == 0 {
                    0
                } else if self.active_thread_tab < n {
                    self.active_thread_tab
                } else {
                    n - 1
                };
                let count = if selected < n {
                    self.thread_tabs[selected].threads.len()
                } else {
                    0
                };
                if count > 0 {
                    let e = vec![ReaderEffect::ScrollThreadToItem(count - 1)];
                    assert(e.deep_view() =~= seq![EffectView::ScrollThreadToItem((count - 1) as usize)]);
                    e
                } else {
                    no_effects()
                }
            },
            (GesturePane::ThreadList, MouseGestureCommand::Refresh) => {
                let mut e = if self.thread_tabs.len() > 0 {
                    let ix = self.active_thread_tab;
                    self.reload_thread_tab(ix)
                } else {
                    no_effects()
                };
                let ghost rest = e.deep_view();
                e.insert(0, ReaderEffect::ResetPullRefresh);
                assert(e.deep_view().drop_first() =~= rest);
                e
            },
            (GesturePane::ThreadList, MouseGestureCommand::Close) => {
                if self.thread_tabs.len() > 0 {
                    let ix = self.active_thread_tab;
                    self.close_thread_tab(ix)
                } else {
                    no_effects()
                }
            },
            (GesturePane::ThreadList, MouseGestureCommand::TabPrev) => {
                if self.thread_tabs.len() > 0 && self.active_thread_tab > 0 {
                    self.active_thread_tab = self.active_thread_tab - 1;
                    save_only()
                } else {
                    no_effects()
                }
            },
            (GesturePane::ThreadList, MouseGestureCommand::TabNext) => {
                if self.thread_tabs.len() > 0 && self.active_thread_tab + 1 < self.thread_tabs.len() {
                    self.active_thread_tab = self.active_thread_tab + 1;
                    save_only()
                } else {
                    no_effects()
                }
            },
            (GesturePane::ResponseList, MouseGestureCommand::ScrollTop) => {
                let e = vec![ReaderEffect::ScrollResponseToItem(0)];
                assert(e.deep_view() =~= seq![EffectView::ScrollResponseToItem(0)]);
                e
            },
            (GesturePane::ResponseList, MouseGestureCommand::ScrollBottom) => {
                let count = self.responses.len();
                if count > 0 {
                    let e = vec![ReaderEffect::ScrollResponseToItem(count - 1)];
                    assert(e.deep_view() =~= seq![EffectView::ScrollResponseToItem((count - 1) as usize)]);
                    e
                } else {
                    no_effects()
                }
            },
            (GesturePane::ResponseList, MouseGestureCommand::Refresh) => {
                let mut e = self.reload_current_thread();
                let ghost rest = e.deep_view();
                e.insert(0, ReaderEffect::ResetPullRefresh);
                assert(e.deep_view().drop_first() =~= rest);
                e
            },
            (GesturePane::ResponseList, MouseGestureCommand::Close) => self.close_current_thread(),
            (GesturePane::ResponseList, MouseGestureCommand::TabPrev) => {
                if self.response_tabs.len() > 0 && self.active_response_tab > 0 {
                    let new_ix = self.active_response_tab - 1;
                    let tab = self.response_tabs[new_ix].copy();
                    self.open_thread(tab.board_url, tab.dat_file, tab.title)
                } else {
                    no_effects()
                }
            },
            (GesturePane::ResponseList, MouseGestureCommand::TabNext) => {
                if self.response_tabs.len() > 0 && self.active_response_tab + 1 < self.response_tabs.len() {
                    let new_ix = self.active_response_tab + 1;
                    let tab = self.response_tabs[new_ix].copy();
                    self.open_thread(tab.board_url, tab.dat_file, tab.title)
                } else {
                    no_effects()
                }
            },
        }
    }

    /// Carries out a key command on a list.
    pub fn execute_key_binding_command(&mut self, pane: GesturePane, command: KeyBindingCommand) -> (effects: Vec<ReaderEffect>)
        requires
            old(self).wf(),
        ensures
            final(self).wf(),
            key_command_executed(*old(self), *final(self), effects.deep_view(), pane, command),
    {
        match (pane, command) {
            (_, KeyBindingCommand::Unassigned) => no_effects(),
            (_, KeyBindingCommand::ScrollTop) => self.execute_gesture_command(pane, MouseGestureCommand::ScrollTop),
            (_, KeyBindingCommand::ScrollBottom) => self.execute_gesture_command(pane, MouseGestureCommand::ScrollBottom),
            (_, KeyBindingCommand::Refresh) => self.execute_gesture_command(pane, MouseGestureCommand::Refresh),
            (_, KeyBindingCommand::Close) => self.execute_gesture_command(pane, MouseGestureCommand::Close),
            (GesturePane::ThreadList, KeyBindingCommand::PageUp) => {
                let e = vec![ReaderEffect::ScrollThreadPage(false)];
                assert(e.deep_view() =~= seq![EffectView::ScrollThreadPage(false)]);
                e
            },
            (GesturePane::ThreadList, KeyBindingCommand::PageDown) => {
                let e = vec![ReaderEffect::ScrollThreadPage(true)];
                assert(e.deep_view() =~= seq![EffectView::ScrollThreadPage(true)]);
                e
            },
            (GesturePane::ResponseList, KeyBindingCommand::PageUp) => {
                let e = vec![ReaderEffect::ScrollResponsePage(false)];
                assert(e.deep_view() =~= seq![EffectView::ScrollResponsePage(false)]);
                e
            },
            (GesturePane::ResponseList, KeyBindingCommand::PageDown) => {
                let e = vec![ReaderEffect::ScrollResponsePage(true)];
                assert(e.deep_view() =~= seq![EffectView::ScrollResponsePage(true)]);
                e
            },
        }
    }

    /// Handles a key press: when key bindings are on and no dialog is open,
    /// the (lower-cased) key's command for the focused list is carried out.
    pub fn handle_key_binding_key(&mut self, key: &str, control: bool, modal_open: bool) -> (effects: Vec<ReaderEffect>)
        requires
            old(self).wf(),
        ensures
            final(self).wf(),
            ({
                let b = match old(self).focused_pane {
                    GesturePane::ThreadList => old(self).key_binding_settings.thread,
                    GesturePane::ResponseList => old(self).key_binding_settings.response,
                };
                if !old(self).key_binding_settings.enabled || modal_open {
                    *final(self) == *old(self) && effects.deep_view() == Seq::<EffectView>::empty()
                } else {
                    match key_command_of(b, control, lower(key@)) {
                        None => *final(self) == *old(self) && effects.deep_view() == Seq::<EffectView>::empty(),
                        Some(c) => key_command_executed(
                            *old(self),
                            *final(self),
                            effects.deep_view(),
                            old(self).focused_pane,
                            c,
                        ),
                    }
                }
            }),
    {
        if !self.key_binding_settings.enabled || modal_open {
            return no_effects();
        }
        let k = normalized_key(key);
        let bindings = key_bindings_for(&self.key_binding_settings, self.focused_pane);
        match command_for_key(&bindings, control, k.as_str()) {
            None => no_effects(),
            Some(c) => {
                let pane = self.focused_pane;
                self.execute_key_binding_command(pane, c)
            },
        }
    }
    /// Starts tracking a gesture on a list, when gestures are on.
    pub fn begin_mouse_gesture(&mut self, pane: GesturePane) -> (started: bool)
        requires
            old(self).wf(),
        ensures
            final(self).wf(),
            started == old(self).mouse_gesture_settings.enabled,
            started ==> (final(self).gesture_tracking matches Some(t) && t.pane == pane && t.trail@.len() == 0),
            started ==> *final(self) == (ReaderState { gesture_tracking: final(self).gesture_tracking, ..*old(self) }),
            !started ==> *final(self) == *old(self),
    {
        if !self.mouse_gesture_settings.enabled {
            return false;
        }
        self.gesture_tracking = Some(GestureTracking { pane, trail: Vec::new() });
        true
    }

    /// Adds a stroke (if the pointer moved far enough to make one) to the
    /// gesture drawn on `pane`; when the trail grows, returns the text
    /// showing the trail and the command it would run.
    pub fn track_mouse_gesture_move(&mut self, pane: GesturePane, direction: Option<GestureDirection>) -> (status: Option<String>)
        requires
            old(self).wf(),
        ensures
            final(self).wf(),
            match (old(self).gesture_tracking, direction) {
                (Some(t), Some(d)) => if t.pane == pane {
                    &&& (final(self).gesture_tracking matches Some(t2) && t2.pane == pane && t2.trail@ == trail_after(t.trail@, d)
                        && (if t2.trail@ == t.trail@ {
                            status is None
                        } else {
                            status matches Some(x) && x@ == gesture_status(
                                t2.trail@,
                                gesture_command_of(pane_bindings(*old(self), pane), sequence_key(t2.trail@)),
                            )
                        }))
                    &&& *final(self) == (ReaderState { gesture_tracking: final(self).gesture_tracking, ..*old(self) })
                } else {
                    *final(self) == *old(self) && status is None
                },
                _ => *final(self) == *old(self) && status is None,
            },
    {
        let d = match direction {
            Some(d) => d,
            None => {
                return None;
            },
        };
        let tracking = match self.gesture_tracking.take() {
            Some(t) => t,
            None => {
                return None;
            },
        };
        if tracking.pane != pane {
            self.gesture_tracking = Some(tracking);
            return None;
        }
        let mut trail = tracking.trail;
        let changed = extend_trail(&mut trail, d);
        let status = if changed {
            let key = gesture_sequence_key(trail.as_slice());
            let bindings = gesture_bindings_for(&self.mouse_gesture_settings, pane);
            let command = command_for_gesture(bindings, key.as_str());
            Some(gesture_status_text(trail.as_slice(), command))
        } else {
            None
        };
        self.gesture_tracking = Some(GestureTracking { pane, trail });
        status
    }

    /// Ends the gesture drawn on `pane`, adding a last stroke (if the
    /// pointer moved far enough to make one), and carries out the command
    /// its strokes are assigned. The gesture stops being tracked either way.
    pub fn end_mouse_gesture(&mut self, pane: GesturePane, direction: Option<GestureDirection>) -> (r: (GestureEnd, Vec<ReaderEffect>))
        requires
            old(self).wf(),
        ensures
            final(self).wf(),
            ({
                let mid = ReaderState { gesture_tracking: None, ..*old(self) };
                match old(self).gesture_tracking {
                    None => *final(self) == *old(self) && (r.0 is NotTracking) && r.1.deep_view() == Seq::<EffectView>::empty(),
                    Some(t) => if t.pane != pane {
                        *final(self) == mid && (r.0 is NotTracking) && r.1.deep_view() == Seq::<EffectView>::empty()
                    } else if final_trail(t, direction).len() == 0 {
                        *final(self) == mid && (r.0 is EmptyTrail) && r.1.deep_view() == Seq::<EffectView>::empty()
                    } else {
                        let trail = final_trail(t, direction);
                        let command = gesture_command_of(pane_bindings(*old(self), pane), sequence_key(trail));
                        &&& (r.0 matches GestureEnd::Performed { status } && status@ == gesture_status(trail, command))
                        &&& gesture_executed(mid, *final(self), r.1.deep_view(), pane, command)
                    },
                }
            }),
    {
        let tracking = match self.gesture_tracking.take() {
            Some(t) => t,
            None => {
                return (GestureEnd::NotTracking, no_effects());
            },
        };
        if tracking.pane != pane {
            return (GestureEnd::NotTracking, no_effects());
        }
        let mut trail = tracking.trail;
        if let Some(d) = direction {
            extend_trail(&mut trail, d);
        }
        if trail.len() == 0 {
            return (GestureEnd::EmptyTrail, no_effects());
        }
        let key = gesture_sequence_key(trail.as_slice());
        let bindings = gesture_bindings_for(&self.mouse_gesture_settings, pane);
        let command = command_for_gesture(bindings, key.as_str());
        let status = gesture_status_text(trail.as_slice(), command);
        let effects = self.execute_gesture_command(pane, command);
        (GestureEnd::Performed { status }, effects)
    }
    /// The rows of the thread list and the message shown over it.
    pub fn current_thread_rows(&self) -> (r: (Vec<ThreadTableRow>, String))
        ensures
            r.1@ == thread_list_message(*self),
            ({
                let sel = selected_thread_tab(*self);
                if sel < self.thread_tabs@.len() && r.1@ == ""@ {
                    let t = self.thread_tabs.deep_view()[sel];
                    &&& r.0.deep_view().len() == t.threads.len()
                    &&& forall|i: int| 0 <= i < t.threads.len() ==> row_matches(#[trigger] r.0.deep_view()[i], t, i)
                } else {
                    r.0@.len() == 0
                }
            }),
    {
        proof {
            reveal_strlit("");
        }
        let n = self.thread_tabs.len();
        let sel = if n == 0 {
            0
        } else if self.active_thread_tab < n {
            self.active_thread_tab
        } else {
            n - 1
        };
        if sel >= n {
            return (Vec::new(), "左の板一覧から板を選択してください".to_owned());
        }
        let tab = &self.thread_tabs[sel];
        if tab.loading && tab.threads.len() == 0 {
            return (Vec::new(), "読み込み中...".to_owned());
        }
        if tab.threads.len() == 0 {
            return match &tab.error {
                Some(e) => (Vec::new(), prefixed("取得失敗: ", e.as_str())),
                None => (Vec::new(), "スレッドがありません".to_owned()),
            };
        }
        let ghost tv = self.thread_tabs.deep_view()[sel as int];
        let mut rows: Vec<ThreadTableRow> = Vec::new();
        let mut i: usize = 0;
        while i < tab.threads.len()
            invariant
                i <= tab.threads@.len(),
                tv == tab.deep_view(),
                rows.deep_view().len() == i,
                forall|j: int| 0 <= j < i ==> row_matches(#[trigger] rows.deep_view()[j], tv, j),
            decreases tab.threads@.len() - i,
        {
            let th = &tab.threads[i];
            let row = ThreadTableRow {
                number: i + 1,
                board_url: tab.board_url.clone(),
                dat_file: th.dat_file.clone(),
                title: th.title.clone(),
                response_count: th.response_count,
                created_at: format_thread_created_at(th.dat_file.as_str()),
                momentum_per_day: String::new(),
            };
            let ghost before = rows.deep_view();
            rows.push(row);
            assert(rows.deep_view() =~= before.push(row.deep_view()));
            i += 1;
        }
        let msg = String::new();
        assert(msg@ == ""@);
        assert(tv.threads.len() == tab.threads@.len());
        assert(self.thread_tabs.deep_view()[selected_thread_tab(*self)] == tv);
        (rows, msg)
    }

    /// The title over the thread list: the listed board's name.
    pub fn current_board_title(&self) -> (t: String)
        ensures
            t@ == (if self.thread_tabs@.len() == 0 {
                "スレッド一覧"@
            } else {
                self.thread_tabs@[selected_thread_tab(*self)].board_name@
            }),
    {
        let n = self.thread_tabs.len();
        if n == 0 {
            return "スレッド一覧".to_owned();
        }
        let sel = if self.active_thread_tab < n {
            self.active_thread_tab
        } else {
            n - 1
        };
        self.thread_tabs[sel].board_name.clone()
    }

    /// The title over the responses: the open thread's.
    pub fn current_response_title(&self) -> (t: String)
        ensures
            t@ == match self.current_thread {
                Some(c) => c.title@,
                None => "レス表示"@,
            },
    {
        match &self.current_thread {
            Some(c) => c.title.clone(),
            None => "レス表示".to_owned(),
        }
    }
    /// Takes in the board menu once loaded: remembers each board's
    /// category and returns the board tree, with the open categories open.
    pub fn boards_loaded(&mut self, categories: &Vec<CategoryEntry>) -> (tree: Vec<CategoryNode>)
        requires
            old(self).wf(),
        ensures
            final(self).wf(),
            forall|url: Seq<char>| #[trigger] opt_string_view(final(self).board_to_category.lookup(url))
                == category_of(categories.deep_view(), url),
            tree.deep_view().len() == categories.deep_view().len(),
            forall|i: int|
                0 <= i < tree.deep_view().len() ==> #[trigger] tree.deep_view()[i] == node_of(
                    categories.deep_view()[i],
                    old(self).opened_categories.has(categories.deep_view()[i].category_name),
                ),
            *final(self) == (ReaderState { board_to_category: final(self).board_to_category, ..*old(self) }),
    {
        self.board_to_category = board_categories(categories);
        build_tree_items(categories, &self.opened_categories)
    }
    /// Opens or closes the post form.
    pub fn toggle_response_composer(&mut self) -> (open: bool)
        requires
            old(self).wf(),
        ensures
            final(self).wf(),
            open == !old(self).response_composer_open,
            *final(self) == (ReaderState { response_composer_open: open, ..*old(self) }),
    {
        self.response_composer_open = !self.response_composer_open;
        self.response_composer_open
    }

    /// What the post button does: an alert when no thread is open, a
    /// question when the body is blank, else the post is sent.
    pub fn submit_response_draft(&self, body: &str) -> (r: SubmitStep)
        ensures
            self.current_thread is None ==> (r matches SubmitStep::Alert { title, message } && title@ == "エラー"@
                && message@ == "投稿対象のスレッドが未選択です"@),
            self.current_thread is Some && trim(body@).len() == 0 ==> (r matches SubmitStep::Confirm {
                title,
                message,
                ok_label,
                cancel_label,
            } && title@ == "確認"@ && message@ == "本文が空ですが投稿しますか？"@ && ok_label@
                == "投稿する"@ && cancel_label@ == "キャンセル"@),
            self.current_thread is Some && trim(body@).len() > 0 ==> r is Submit,
    {
        if self.current_thread.is_none() {
            return SubmitStep::Alert {
                title: "エラー".to_owned(),
                message: "投稿対象のスレッドが未選択です".to_owned(),
            };
        }
        let v = chars_of(body);
        let (a, b) = trim_bounds(&v, 0, v.len());
        assert(v@.subrange(0, v@.len() as int) =~= v@);
        if a == b {
            SubmitStep::Confirm {
                title: "確認".to_owned(),
                message: "本文が空ですが投稿しますか？".to_owned(),
                ok_label: "投稿する".to_owned(),
                cancel_label: "キャンセル".to_owned(),
            }
        } else {
            SubmitStep::Submit
        }
    }

    /// Starts sending a post to the open thread: the board's confirmation
    /// fields go with it if they were given for this thread, and the form
    /// says the post is being sent.
    pub fn execute_post_submission(&mut self) -> (r: PostStart)
        requires
            old(self).wf(),
        ensures
            final(self).wf(),
            match old(self).current_thread {
                None => {
                    &&& *final(self) == *old(self)
                    &&& r matches PostStart::NoThread { title, message } && title@ == "エラー"@
                        && message@ == "投稿対象のスレッドが未選択です"@
                },
                Some(t) => {
                    &&& r matches PostStart::Send { board_url, dat_file, pending_confirm } && board_url@
                        == t.board_url@ && dat_file@ == t.dat_file@ && match old(self).post_confirm {
                        Some(c) => if c.board_url@ == t.board_url@ && c.dat_file@ == t.dat_file@ {
                            pending_confirm matches Some((f, tm)) && f@ == c.feature@ && tm@ == c.time@
                        } else {
                            pending_confirm is None
                        },
                        None => pending_confirm is None,
                    }
                    &&& opt_view(final(self).response_submit_hint) == Some("投稿処理を送信中..."@)
                    &&& *final(self) == (ReaderState { response_submit_hint: final(self).response_submit_hint, ..*old(self) })
                },
            },
    {
        let (url, dat) = match &self.current_thread {
            None => {
                return PostStart::NoThread {
                    title: "エラー".to_owned(),
                    message: "投稿対象のスレッドが未選択です".to_owned(),
                };
            },
            Some(t) => (t.board_url.clone(), t.dat_file.clone()),
        };
        let pending = match &self.post_confirm {
            Some(c) => {
                if str_eq(c.board_url.as_str(), url.as_str()) && str_eq(c.dat_file.as_str(), dat.as_str()) {
                    Some((c.feature.clone(), c.time.clone()))
                } else {
                    None
                }
            },
            None => None,
        };
        self.response_submit_hint = Some("投稿処理を送信中...".to_owned());
        PostStart::Send { board_url: url, dat_file: dat, pending_confirm: pending }
    }

    /// Takes in the outcome of a post to the thread (`board_url`,
    /// `dat_file`): done; the board's confirmation, kept for the next post;
    /// or a failure, shown in the form.
    pub fn post_finished(&mut self, board_url: String, dat_file: String, result: Result<PostAttemptResult, String>)
        requires
            old(self).wf(),
        ensures
            final(self).wf(),
            match result {
                Ok(PostAttemptResult::Posted) => {
                    &&& final(self).post_confirm is None
                    &&& opt_view(final(self).response_submit_hint) == Some("書き込みが完了しました"@)
                },
                Ok(PostAttemptResult::NeedConfirm { feature, time }) => {
                    &&& final(self).post_confirm matches Some(c) && c.board_url@ == board_url@ && c.dat_file@
                        == dat_file@ && c.feature@ == feature@ && c.time@ == time@
                    &&& opt_view(final(self).response_submit_hint) == Some(
                        "確認ページを通過しました。もう一度「書き込む」で投稿が完了します"@,
                    )
                },
                Err(e) => {
                    &&& final(self).post_confirm == old(self).post_confirm
                    &&& opt_view(final(self).response_submit_hint) == Some("投稿失敗: "@ + e@)
                },
            },
            *final(self) == (ReaderState {
                post_confirm: final(self).post_confirm,
                response_submit_hint: final(self).response_submit_hint,
                ..*old(self)
            }),
    {
        match result {
            Ok(PostAttemptResult::Posted) => {
                self.post_confirm = None;
                self.response_submit_hint = Some("書き込みが完了しました".to_owned());
            },
            Ok(PostAttemptResult::NeedConfirm { feature, time }) => {
                self.post_confirm = Some(PostConfirmState { board_url, dat_file, feature, time });
                self.response_submit_hint = Some(
                    "確認ページを通過しました。もう一度「書き込む」で投稿が完了します".to_owned(),
                );
            },
            Err(e) => {
                self.response_submit_hint = Some(prefixed("投稿失敗: ", e.as_str()));
            },
        }
    }
    /// The title a linked thread is opened under.
    fn linked_title(&self, board: &str, dat: &str) -> (t: String)
        ensures
            t@ == linked_thread_title(self.thread_tabs.deep_view(), board@, dat@),
    {
        let ghost tv = self.thread_tabs.deep_view();
        let fallback = {
            let mut v = chars_of(board_dir_from_url(board).as_str());
            v.push(' ');
            let d = chars_of(dat);
            extend_all(&mut v, &d);
            string_of(&v)
        };
        match self.board_tab_position(board) {
            None => fallback,
            Some(i) => {
                proof {
                    let c = choose|k: int| is_first_board_tab(tv, board@, k);
                    assert(is_first_board_tab(tv, board@, i as int));
                    assert(c == i) by {
                        if c < i {
                            assert(tv[c].board_url != board@);
                        } else if c > i {
                            assert(tv[i as int].board_url != board@);
                        }
                    }
                }
                let tab = &self.thread_tabs[i];
                let ghost th = tab.threads.deep_view();
                let mut j: usize = 0;
                while j < tab.threads.len()
                    invariant
                        j <= tab.threads@.len(),
                        th == tab.threads.deep_view(),
                        tv == self.thread_tabs.deep_view(),
                        tv[i as int].threads == th,
                        has_board_tab(tv, board@),
                        (choose|k: int| is_first_board_tab(tv, board@, k)) == i,
                        forall|k: int| 0 <= k < j ==> #[trigger] th[k].dat_file != dat@,
                    decreases tab.threads@.len() - j,
                {
                    if str_eq(tab.threads[j].dat_file.as_str(), dat) {
                        proof {
                            assert(th[j as int].dat_file == dat@);
                            let w = choose|w: int| 0 <= w < th.len() && #[trigger] th[w].dat_file == dat@
                                && forall|k: int| 0 <= k < w ==> th[k].dat_file != dat@;
                            assert(0 <= j < th.len() && th[j as int].dat_file == dat@ && forall|k: int| 0 <= k < j ==> th[k].dat_file != dat@);
                            assert(w == j) by {
                                if w < j {
                                    assert(th[w].dat_file != dat@);
                                } else if w > j {
                                    assert(th[j as int].dat_file != dat@);
                                }
                            }
                        }
                        return tab.threads[j].title.clone();
                    }
                    j += 1;
                }
                fallback
            },
        }
    }

    /// Opens a thread linked from a response (a 5ch thread URL) in a
    /// thread tab, moving the key focus to the responses; says whether the
    /// link was one.
    pub fn open_5ch_io_url_in_response_tab(&mut self, url: &str) -> (r: (bool, Vec<ReaderEffect>))
        requires
            old(self).wf(),
        ensures
            final(self).wf(),
            match thread_url_parts(url@) {
                None => !r.0 && *final(self) == *old(self) && r.1.deep_view() == Seq::<EffectView>::empty(),
                Some((board, dat)) => {
                    &&& r.0
                    &&& thread_opened(
                        ReaderState { focused_pane: GesturePane::ResponseList, ..*old(self) },
                        old(self).response_tabs.deep_view(),
                        old(self).active_response_tab as int,
                        *final(self),
                        r.1.deep_view(),
                        board,
                        dat,
                        linked_thread_title(old(self).thread_tabs.deep_view(), board, dat),
                    )
                },
            },
    {
        let (board, dat) = match parse_5ch_io_thread_url(url) {
            None => {
                return (false, no_effects());
            },
            Some(p) => p,
        };
        let title = self.linked_title(board.as_str(), dat.as_str());
        self.focused_pane = GesturePane::ResponseList;
        let e = self.open_thread(board, dat, title);
        (true, e)
    }
    /// Shows the image of a link being hovered: a new request unless that
    /// image is shown already.
    pub fn begin_image_preview_for_url(&mut self, url: String) -> (r: ImagePreviewStart)
        requires
            old(self).wf(),
        ensures
            final(self).wf(),
            !image_url(url@) ==> r is NotImage && *final(self) == *old(self),
            image_url(url@) && (old(self).image_preview_state matches Some(st) && st.url@ == url@) ==> r is AlreadyShown
                && *final(self) == *old(self),
            image_url(url@) && !(old(self).image_preview_state matches Some(st) && st.url@ == url@) ==> {
                let g = next_generation(old(self).image_preview_generation);
                &&& r matches ImagePreviewStart::Started { generation } && generation == g
                &&& final(self).image_preview_generation == g
                &&& final(self).image_preview_state matches Some(st) && st.request_generation == g && st.url@ == url@
                    && st.status is Loading
                &&& *final(self) == (ReaderState {
                    image_preview_state: final(self).image_preview_state,
                    image_preview_generation: g,
                    ..*old(self)
                })
            },
    {
        if !is_image_preview_url(url.as_str()) {
            return ImagePreviewStart::NotImage;
        }
        let shown = match &self.image_preview_state {
            Some(st) => str_eq(st.url.as_str(), url.as_str()),
            None => false,
        };
        if shown {
            return ImagePreviewStart::AlreadyShown;
        }
        let g = next_generation_exec(self.image_preview_generation);
        self.image_preview_generation = g;
        self.image_preview_state = Some(
            ImagePreviewState { request_generation: g, url, status: ImagePreviewStatus::Loading },
        );
        ImagePreviewStart::Started { generation: g }
    }

    /// Takes in a downloaded image (its local path) or the error, if it
    /// answers the request still shown.
    pub fn image_preview_loaded(&mut self, generation: u64, result: Result<String, String>)
        requires
            old(self).wf(),
        ensures
            final(self).wf(),
            match old(self).image_preview_state {
                Some(st) => if st.request_generation == generation {
                    &&& final(self).image_preview_state matches Some(n) && n.request_generation == generation
                        && n.url == st.url && match result {
                        Ok(p) => n.status matches ImagePreviewStatus::Ready { local_path } && local_path@ == p@,
                        Err(e) => n.status matches ImagePreviewStatus::Error { message } && message@
                            == "画像取得失敗: "@ + e@,
                    }
                    &&& *final(self) == (ReaderState {
                        image_preview_state: final(self).image_preview_state,
                        ..*old(self)
                    })
                } else {
                    *final(self) == *old(self)
                },
                None => *final(self) == *old(self),
            },
    {
        let st = match self.image_preview_state.take() {
            None => {
                return;
            },
            Some(st) => st,
        };
        if st.request_generation != generation {
            self.image_preview_state = Some(st);
            return;
        }
        let status = match result {
            Ok(p) => ImagePreviewStatus::Ready { local_path: p },
            Err(e) => ImagePreviewStatus::Error { message: prefixed("画像取得失敗: ", e.as_str()) },
        };
        self.image_preview_state = Some(
            ImagePreviewState { request_generation: st.request_generation, url: st.url, status },
        );
    }

    /// Whether the image of `url` is the one shown.
    pub fn is_previewing(&self, url: &str) -> (b: bool)
        ensures
            b == (self.image_preview_state matches Some(st) && st.url@ == url@),
    {
        match &self.image_preview_state {
            Some(st) => str_eq(st.url.as_str(), url),
            None => false,
        }
    }

    /// Hides the image of `url` if it is the one shown; a request still
    /// running for it is then ignored.
    pub fn clear_image_preview_for_url(&mut self, url: &str) -> (cleared: bool)
        requires
            old(self).wf(),
        ensures
            final(self).wf(),
            cleared == (old(self).image_preview_state matches Some(st) && st.url@ == url@),
            cleared ==> *final(self) == (ReaderState {
                image_preview_state: None,
                image_preview_generation: next_generation(old(self).image_preview_generation),
                ..*old(self)
            }),
            !cleared ==> *final(self) == *old(self),
    {
        if self.is_previewing(url) {
            self.image_preview_state = None;
            self.image_preview_generation = next_generation_exec(self.image_preview_generation);
            true
        } else {
            false
        }
    }
    /// Switches the layout of the panes.
    pub fn set_layout_mode(&mut self, mode: LayoutMode) -> (effects: Vec<ReaderEffect>)
        requires
            old(self).wf(),
        ensures
            final(self).wf(),
            *final(self) == (ReaderState { layout_mode: mode, ..*old(self) }),
            effects.deep_view() == seq![EffectView::SaveSession],
    {
        self.layout_mode = mode;
        save_only()
    }

    /// Makes a list the one keys act on.
    pub fn set_focused_pane(&mut self, pane: GesturePane)
        requires
            old(self).wf(),
        ensures
            final(self).wf(),
            *final(self) == (ReaderState { focused_pane: pane, ..*old(self) }),
    {
        self.focused_pane = pane;
    }
    /// The first index among the responses shown whose number is `n`
    /// (`exact`) or at least `n`.
    fn first_row_from(&self, n: usize, exact: bool) -> (r: Option<usize>)
        ensures
            exact ==> r == (match first_index_where(self.responses.deep_view(), number_is(n)) {
                Some(i) => Some(i as usize),
                None => None::<usize>,
            }),
            !exact ==> r == (match first_index_where(self.responses.deep_view(), number_from(n)) {
                Some(i) => Some(i as usize),
                None => None::<usize>,
            }),
    {
        let ghost rv = self.responses.deep_view();
        let ghost p = if exact { number_is(n) } else { number_from(n) };
        let mut i: usize = 0;
        while i < self.responses.len()
            invariant
                i <= self.responses@.len(),
                rv == self.responses.deep_view(),
                p == (if exact { number_is(n) } else { number_from(n) }),
                first_index_where(rv.take(i as int), p) is None,
            decreases self.responses@.len() - i,
        {
            assert(rv.take(i + 1).drop_last() =~= rv.take(i as int));
            let m = self.responses[i].number;
            if (exact && m == n) || (!exact && m >= n) {
                proof {
                    lemma_first_index_prefix(rv, p, i as int + 1);
                }
                return Some(i);
            }
            i += 1;
        }
        assert(rv.take(i as int) =~= rv);
        None
    }

    /// The last index among the responses shown whose number is at most
    /// `n`.
    fn last_row_upto(&self, n: usize) -> (r: Option<usize>)
        ensures
            r == (match last_index_where(self.responses.deep_view(), number_upto(n)) {
                Some(i) => Some(i as usize),
                None => None::<usize>,
            }),
    {
        let ghost rv = self.responses.deep_view();
        let ghost p = number_upto(n);
        let mut i: usize = self.responses.len();
        assert(rv.take(i as int) =~= rv);
        while i > 0
            invariant
                i <= self.responses@.len(),
                rv == self.responses.deep_view(),
                p == number_upto(n),
                last_index_where(rv, p) == last_index_where(rv.take(i as int), p),
            decreases i,
        {
            assert(rv.take(i as int).drop_last() =~= rv.take(i - 1));
            assert(rv.take(i as int).last() == rv[i - 1]);
            if self.responses[i - 1].number <= n {
                return Some(i - 1);
            }
            i -= 1;
        }
        assert(rv.take(0) =~= Seq::<ResponseItemView>::empty());
        None
    }

    /// The row to bring back into view for the place (`top`, `bottom`).
    pub fn restore_row_index(&self, top: Option<usize>, bottom: Option<usize>) -> (r: Option<usize>)
        ensures
            r == (match restore_index(self.responses.deep_view(), top, bottom) {
                Some(i) => Some(i as usize),
                None => None::<usize>,
            }),
    {
        let exact_top = match top {
            Some(t) => self.first_row_from(t, true),
            None => None,
        };
        if exact_top.is_some() {
            return exact_top;
        }
        let exact_bottom = match bottom {
            Some(b) => self.first_row_from(b, true),
            None => None,
        };
        if exact_bottom.is_some() {
            return exact_bottom;
        }
        let after_top = match top {
            Some(t) => self.first_row_from(t, false),
            None => None,
        };
        if after_top.is_some() {
            return after_top;
        }
        match bottom {
            Some(b) => self.last_row_upto(b),
            None => None,
        }
    }

    /// Once a thread has loaded, says where to scroll the responses and
    /// forgets the place that was waiting to be restored: to the bottom if
    /// the reader was there, else back to a kept pixel offset (`has_offset`),
    /// else to the row of the saved place.
    pub fn pending_restore_step(&mut self, has_offset: bool) -> (r: RestoreStep)
        requires
            old(self).wf(),
        ensures
            final(self).wf(),
            !rows_loaded(old(self).responses.deep_view()) ==> *final(self) == *old(self) && (r is Nothing),
            rows_loaded(old(self).responses.deep_view()) && old(self).pending_restore_response_to_bottom ==> {
                &&& (r matches RestoreStep::ToBottom(i) && i == old(self).responses@.len() - 1)
                &&& *final(self) == (ReaderState {
                    pending_restore_response_to_bottom: false,
                    pending_restore_response_numbers: None,
                    ..*old(self)
                })
            },
            rows_loaded(old(self).responses.deep_view()) && !old(self).pending_restore_response_to_bottom && has_offset ==> {
                &&& (r is ToOffset)
                &&& *final(self) == (ReaderState { pending_restore_response_numbers: None, ..*old(self) })
            },
            rows_loaded(old(self).responses.deep_view()) && !old(self).pending_restore_response_to_bottom && !has_offset
                && old(self).pending_restore_response_numbers is None ==> *final(self) == *old(self) && (r is Nothing),
            rows_loaded(old(self).responses.deep_view()) && !old(self).pending_restore_response_to_bottom && !has_offset
                && old(self).pending_restore_response_numbers is Some ==> {
                    let (top, bottom) = old(self).pending_restore_response_numbers->0;
                    &&& *final(self) == (ReaderState { pending_restore_response_numbers: None, ..*old(self) })
                    &&& match restore_index(old(self).responses.deep_view(), top, bottom) {
                        Some(i) => r matches RestoreStep::ToRow(k) && k == i,
                        None => (r is Nothing),
                    }
                },
    {
        if !self.has_loaded_response_rows() {
            return RestoreStep::Nothing;
        }
        if self.pending_restore_response_to_bottom {
            self.pending_restore_response_to_bottom = false;
            self.pending_restore_response_numbers = None;
            return RestoreStep::ToBottom(self.responses.len() - 1);
        }
        if has_offset {
            self.pending_restore_response_numbers = None;
            return RestoreStep::ToOffset;
        }
        match self.pending_restore_response_numbers {
            None => RestoreStep::Nothing,
            Some((top, bottom)) => {
                let n = self.responses.len();
                proof {
                    lemma_restore_index_in_range(self.responses.deep_view(), top, bottom);
                    assert(self.responses.deep_view().len() == n);
                }
                let ix = self.restore_row_index(top, bottom);
                self.pending_restore_response_numbers = None;
                match ix {
                    Some(i) => RestoreStep::ToRow(i),
                    None => RestoreStep::Nothing,
                }
            },
        }
    }

    /// Takes in the rows on screen (the numbers of the first and last
    /// shown): whether the reader is at the bottom, and, unless a place is
    /// still waiting to be restored (`offset_pending` for a pixel offset),
    /// the place reached; both are written into the active thread tab.
    /// Says whether the place changed, so that the session is saved.
    pub fn responses_visible(&mut self, visible_top: Option<usize>, visible_bottom: Option<usize>, offset_pending: bool) -> (changed: bool)
        requires
            old(self).wf(),
        ensures
            final(self).wf(),
            ({
                let rv = old(self).responses.deep_view();
                let at_bottom = match (visible_bottom, rv.len() > 0) {
                    (Some(v), true) => v >= rv.last().number,
                    _ => false,
                };
                let track = !placeholder_shown(rv) && old(self).pending_restore_response_numbers is None
                    && !offset_pending && !old(self).pending_restore_response_to_bottom;
                let moved = track && (old(self).current_response_top_number != visible_top
                    || old(self).current_response_bottom_number != visible_bottom);
                let a = old(self).active_response_tab as int;
                let tabs = old(self).response_tabs.deep_view();
                &&& changed == moved
                &&& final(self).current_response_was_at_bottom == at_bottom
                &&& final(self).current_response_top_number == (if moved { visible_top } else { old(self).current_response_top_number })
                &&& final(self).current_response_bottom_number == (if moved { visible_bottom } else { old(self).current_response_bottom_number })
                &&& final(self).response_tabs.deep_view() == (if 0 <= a < tabs.len() {
                    tabs.update(a, OpenThreadView {
                        was_at_bottom: at_bottom,
                        top_response_number: if moved { visible_top } else { tabs[a].top_response_number },
                        bottom_response_number: if moved { visible_bottom } else { tabs[a].bottom_response_number },
                        ..tabs[a]
                    })
                } else {
                    tabs
                })
                &&& *final(self) == (ReaderState {
                    current_response_was_at_bottom: final(self).current_response_was_at_bottom,
                    current_response_top_number: final(self).current_response_top_number,
                    current_response_bottom_number: final(self).current_response_bottom_number,
                    response_tabs: final(self).response_tabs,
                    ..*old(self)
                })
            }),
    {
        let n = self.responses.len();
        let at_bottom = match visible_bottom {
            Some(v) => n > 0 && v >= self.responses[n - 1].number,
            None => false,
        };
        let track = !self.has_placeholder_response_row() && self.pending_restore_response_numbers.is_none()
            && !offset_pending && !self.pending_restore_response_to_bottom;
        let moved = track && (self.current_response_top_number != visible_top
            || self.current_response_bottom_number != visible_bottom);
        self.current_response_was_at_bottom = at_bottom;
        if moved {
            self.current_response_top_number = visible_top;
            self.current_response_bottom_number = visible_bottom;
        }
        let a = self.active_response_tab;
        if a < self.response_tabs.len() {
            let t = OpenThreadState {
                board_url: self.response_tabs[a].board_url.clone(),
                dat_file: self.response_tabs[a].dat_file.clone(),
                title: self.response_tabs[a].title.clone(),
                top_response_number: if moved { visible_top } else { self.response_tabs[a].top_response_number },
                bottom_response_number: if moved { visible_bottom } else { self.response_tabs[a].bottom_response_number },
                was_at_bottom: at_bottom,
            };
            self.set_response_tab(a, t);
        }
        moved
    }
    /// Brings the board tab at `ix` forward (a tab that was clicked).
    pub fn select_thread_tab(&mut self, ix: usize) -> (effects: Vec<ReaderEffect>)
        requires
            old(self).wf(),
            ix < old(self).thread_tabs@.len(),
        ensures
            final(self).wf(),
            *final(self) == (ReaderState { active_thread_tab: ix, focused_pane: GesturePane::ThreadList, ..*old(self) }),
            effects.deep_view() == seq![EffectView::SaveSession],
    {
        self.focused_pane = GesturePane::ThreadList;
        self.active_thread_tab = ix;
        save_only()
    }
}

/// The text copied for a whole response.
pub fn response_copy_text(res: &ResponseItem) -> (s: String)
    ensures
        s@ == copy_text(res.deep_view()),
{
    let mut v = decimal_exec(res.number as u64);
    v.push(' ');
    let name = chars_of(response_name_plain_text(res.name.as_str()).as_str());
    extend_all(&mut v, &name);
    v.push(' ');
    let ts = chars_of(res.timestamp.as_str());
    extend_all(&mut v, &ts);
    v.push('\n');
    let id = chars_of(res.id.as_str());
    extend_all(&mut v, &id);
    v.push('\n');
    let body = chars_of(res.body.as_str());
    extend_all(&mut v, &body);
    string_of(&v)
}

proof fn lemma_index_where_in_range(r: Seq<ResponseItemView>, p: spec_fn(usize) -> bool)
    ensures
        first_index_where(r, p) matches Some(i) ==> 0 <= i < r.len(),
        last_index_where(r, p) matches Some(i) ==> 0 <= i < r.len(),
    decreases r.len(),
{
    if r.len() > 0 {
        lemma_index_where_in_range(r.drop_last(), p);
    }
}

proof fn lemma_restore_index_in_range(r: Seq<ResponseItemView>, top: Option<usize>, bottom: Option<usize>)
    ensures
        restore_index(r, top, bottom) matches Some(i) ==> 0 <= i < r.len(),
{
    if let Some(t) = top {
        lemma_index_where_in_range(r, number_is(t));
        lemma_index_where_in_range(r, number_from(t));
    }
    if let Some(b) = bottom {
        lemma_index_where_in_range(r, number_is(b));
        lemma_index_where_in_range(r, number_upto(b));
    }
}

proof fn lemma_first_index_prefix(r: Seq<ResponseItemView>, p: spec_fn(usize) -> bool, k: int)
    requires
        0 < k <= r.len(),
        first_index_where(r.take(k - 1), p) is None,
        p(r[k - 1].number),
    ensures
        first_index_where(r, p) == Some(k - 1),
    decreases r.len(),
{
    assert(r.take(k).drop_last() =~= r.take(k - 1));
    assert(r.take(k).last() == r[k - 1]);
    assert(first_index_where(r.take(k), p) == Some(k - 1));
    if k < r.len() {
        let d = r.drop_last();
        assert(d.take(k - 1) =~= r.take(k - 1));
        assert(d[k - 1] == r[k - 1]);
        lemma_first_index_prefix(d, p, k);
    } else {
        assert(r.take(k) =~= r);
    }
}

} // verus!
