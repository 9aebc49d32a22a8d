//! The session saved between runs: which board and thread tabs were open,
//! the place reached in each thread, the open categories and the theme;
//! how it is taken from the reader's state and how it is restored.

use vstd::prelude::*;
use crate::reader::{
    has_board_tab, is_first_board_tab, opt_view, thread_opened_from, EffectView, LayoutMode,
    OpenThreadState, OpenThreadView, ReaderEffect, ReaderState, ThreadTabView,
};
use crate::strmap::StrMap;
use crate::textseq::{chars_of, starts_with, starts_with_exec, slice_vec, string_of};
use crate::boards::ThreadItemView;

verus! {

/// A board tab of the session.
pub struct SessionBoardTab {
    pub board_name: String,
    pub board_url: String,
}

pub struct SessionBoardView {
    pub board_name: Seq<char>,
    pub board_url: Seq<char>,
}

impl DeepView for SessionBoardTab {
    type V = SessionBoardView;

    open spec fn deep_view(&self) -> SessionBoardView {
        SessionBoardView { board_name: self.board_name@, board_url: self.board_url@ }
    }
}

/// A thread tab of the session, with the place reached in it.
pub struct SessionThreadRef {
    pub board_url: String,
    pub dat_file: String,
    pub title: String,
    pub top_response_number: Option<usize>,
    pub bottom_response_number: Option<usize>,
    pub was_at_bottom: bool,
}

impl DeepView for SessionThreadRef {
    type V = OpenThreadView;

    open spec fn deep_view(&self) -> OpenThreadView {
        OpenThreadView {
            board_url: self.board_url@,
            dat_file: self.dat_file@,
            title: self.title@,
            top_response_number: self.top_response_number,
            bottom_response_number: self.bottom_response_number,
            was_at_bottom: self.was_at_bottom,
        }
    }
}

/// The session. (Sizes and scroll offsets in pixels, and the widths of the
/// thread list's columns, are kept beside it by the program around this
/// library.)
pub struct SessionState {
    pub layout_mode: LayoutMode,
    pub active_thread_tab: usize,
    pub active_response_tab: usize,
    pub opened_categories: Vec<String>,
    pub thread_tabs: Vec<SessionBoardTab>,
    pub response_tabs: Vec<SessionThreadRef>,
    pub current_thread: Option<SessionThreadRef>,
    pub theme_name: Option<String>,
}

impl Default for SessionState {
    fn default() -> (r: Self)
        ensures
            r.layout_mode == LayoutMode::Horizontal,
            r.active_thread_tab == 0,
            r.active_response_tab == 0,
            r.opened_categories@.len() == 0,
            r.thread_tabs@.len() == 0,
            r.response_tabs@.len() == 0,
            r.current_thread is None,
            r.theme_name is None,
    {
        SessionState {
            layout_mode: LayoutMode::Horizontal,
            active_thread_tab: 0,
            active_response_tab: 0,
            opened_categories: Vec::new(),
            thread_tabs: Vec::new(),
            response_tabs: Vec::new(),
            current_thread: None,
            theme_name: None,
        }
    }
}

pub open spec fn strings_view(v: Seq<String>) -> Seq<Seq<char>> {
    v.map_values(|s: String| s@)
}

/// The theme's name as saved: without a leading `"Default "`.
pub open spec fn saved_theme_name(n: Seq<char>) -> Seq<char> {
    if starts_with(n, "Default "@) {
        n.skip(8)
    } else {
        n
    }
}

/// The saved form of a thread tab: the active one takes the place on
/// screen.
pub open spec fn saved_thread_ref(s: ReaderState, i: int) -> OpenThreadView {
    let t = s.response_tabs.deep_view()[i];
    if i == s.active_response_tab {
        OpenThreadView {
            top_response_number: s.current_response_top_number,
            bottom_response_number: s.current_response_bottom_number,
            was_at_bottom: s.current_response_was_at_bottom,
            ..t
        }
    } else {
        t
    }
}

fn theme_for_session(name: &String) -> (r: String)
    ensures
        r@ == saved_theme_name(name@),
{
    proof {
        reveal_strlit("Default ");
    }
    let v = chars_of(name.as_str());
    let p = chars_of("Default ");
    if starts_with_exec(&v, &p) {
        string_of(&slice_vec(&v, 8, v.len()))
    } else {
        name.clone()
    }
}

/// The board tab at `b` opened in turn: the new thread list of a board
/// without a tab is appended, and its category opens.
pub struct BoardsOpened {
    pub tabs: Seq<ThreadTabView>,
    pub active: int,
    pub cats: Set<Seq<char>>,
    pub effects: Seq<EffectView>,
}

/// The board tabs, active tab, open categories and effects after the
/// boards of `list` are opened in order, as `open_board_tab` does.
pub open spec fn boards_opened(
    tabs: Seq<ThreadTabView>,
    active: int,
    cats: Set<Seq<char>>,
    b2c: StrMap<String>,
    list: Seq<SessionBoardView>,
) -> BoardsOpened
    decreases list.len(),
{
    if list.len() == 0 {
        BoardsOpened { tabs, active, cats, effects: seq![] }
    } else {
        let r = boards_opened(tabs, active, cats, b2c, list.drop_last());
        let b = list.last();
        if has_board_tab(r.tabs, b.board_url) {
            BoardsOpened {
                tabs: r.tabs,
                active: choose|i: int| is_first_board_tab(r.tabs, b.board_url, i),
                cats: r.cats,
                effects: r.effects + seq![EffectView::SaveSession],
            }
        } else {
            BoardsOpened {
                tabs: r.tabs.push(
                    ThreadTabView {
                        board_name: b.board_name,
                        board_url: b.board_url,
                        threads: seq![],
                        loading: true,
                        error: None,
                    },
                ),
                active: r.tabs.len() as int,
                cats: match opt_view(b2c.lookup(b.board_url)) {
                    Some(c) => r.cats.insert(c),
                    None => r.cats,
                },
                effects: r.effects + seq![
                    EffectView::SaveSession,
                    EffectView::LoadSubject { board_url: b.board_url },
                ],
            }
        }
    }
}

/// `ix` limited to the last of `n` tabs (0 when there are none).
pub open spec fn clamp_ix(ix: usize, n: nat) -> int {
    if n == 0 {
        0
    } else if ix < n {
        ix as int
    } else {
        n - 1
    }
}

fn clamp_exec(ix: usize, n: usize) -> (r: usize)
    ensures
        r == clamp_ix(ix, n as nat),
{
    if n == 0 {
        0
    } else if ix < n {
        ix
    } else {
        n - 1
    }
}

/// `r` is the session saved from `st`: its layout, active tabs, open
/// categories (in order), board tabs, thread tabs (the active one with the
/// place on screen), current thread and theme.
pub open spec fn session_built(st: ReaderState, r: SessionState) -> bool {
    &&& r.layout_mode == st.layout_mode
    &&& r.active_thread_tab == st.active_thread_tab
    &&& r.active_response_tab == st.active_response_tab
    &&& strings_view(r.opened_categories@) == st.opened_categories.keys()
    &&& r.thread_tabs.deep_view() == st.thread_tabs.deep_view().map_values(
        |t: ThreadTabView| SessionBoardView { board_name: t.board_name, board_url: t.board_url },
    )
    &&& r.response_tabs.deep_view().len() == st.response_tabs@.len()
    &&& forall|i: int|
        0 <= i < st.response_tabs@.len() ==> #[trigger] r.response_tabs.deep_view()[i]
            == saved_thread_ref(st, i)
    &&& match st.current_thread {
        None => r.current_thread is None,
        Some(t) => r.current_thread matches Some(c) && c.deep_view() == (OpenThreadView {
            top_response_number: st.current_response_top_number,
            bottom_response_number: st.current_response_bottom_number,
            was_at_bottom: st.current_response_was_at_bottom,
            ..t.deep_view()
        }),
    }
    &&& opt_view(r.theme_name) == match st.current_theme_name {
        None => None,
        Some(n) => Some(saved_theme_name(n@)),
    }
}

/// The thread tabs of a session as the reader holds them.
fn thread_tab_of(r: &SessionThreadRef) -> (t: OpenThreadState)
    ensures
        t.deep_view() == r.deep_view(),
{
    OpenThreadState {
        board_url: r.board_url.clone(),
        dat_file: r.dat_file.clone(),
        title: r.title.clone(),
        top_response_number: r.top_response_number,
        bottom_response_number: r.bottom_response_number,
        was_at_bottom: r.was_at_bottom,
    }
}

/// `post` is `pre` after `session` is restored, and `effects` what was
/// asked for: the session's thread tabs and open categories replace the
/// reader's, the active thread tab's place is set to be restored, the
/// session's board tabs are opened in order, and then the active thread
/// tab's thread (or else the session's current thread) is opened.
pub open spec fn session_restored(
    pre: ReaderState,
    session: SessionState,
    post: ReaderState,
    effects: Seq<EffectView>,
) -> bool {
    let tabs = session.response_tabs.deep_view();
    let ra = clamp_ix(session.active_response_tab, tabs.len());
    let has_tab = ra < tabs.len();
    let top = if has_tab { tabs[ra].top_response_number } else { None };
    let bottom = if has_tab { tabs[ra].bottom_response_number } else { None };
    let was = has_tab && tabs[ra].was_at_bottom;
    let bo = boards_opened(
        pre.thread_tabs.deep_view(),
        pre.active_thread_tab as int,
        strings_view(session.opened_categories@).to_set(),
        pre.board_to_category,
        session.thread_tabs.deep_view(),
    );
    let target = if has_tab {
        Some(tabs[ra])
    } else {
        match session.current_thread {
            Some(c) => Some(c.deep_view()),
            None => None,
        }
    };
    &&& post.layout_mode == session.layout_mode
    &&& post.thread_tabs.deep_view() == bo.tabs
    &&& post.active_thread_tab == clamp_ix(session.active_thread_tab, bo.tabs.len())
    &&& forall|k: Seq<char>| #[trigger] post.opened_categories.has(k) <==> bo.cats.contains(k)
    &&& effects.len() >= bo.effects.len() + 1
    &&& effects.subrange(0, bo.effects.len() as int) == bo.effects
    &&& effects.last() == EffectView::SaveSession
    &&& match target {
        Some(t) => thread_opened_from(
            tabs,
            ra,
            top,
            bottom,
            was,
            post,
            effects.subrange(bo.effects.len() as int, effects.len() - 1),
            t.board_url,
            t.dat_file,
            t.title,
        ),
        None => {
            &&& effects.len() == bo.effects.len() + 1
            &&& post.response_tabs.deep_view() == tabs
            &&& post.active_response_tab == ra
            &&& post.current_response_top_number is None
            &&& post.current_response_bottom_number is None
            &&& !post.current_response_was_at_bottom
            &&& post.pending_restore_response_numbers is None
            &&& !post.pending_restore_response_to_bottom
            &&& post.current_thread == pre.current_thread
            &&& post.responses == pre.responses
        },
    }
    &&& post.board_to_category == pre.board_to_category
    &&& post.footer_status_hint == pre.footer_status_hint
    &&& post.mouse_gesture_settings == pre.mouse_gesture_settings
    &&& post.key_binding_settings == pre.key_binding_settings
    &&& post.current_theme_name == pre.current_theme_name
}

impl ReaderState {
    /// The session to save.
    pub fn build_session_state(&self) -> (r: SessionState)
        ensures
            session_built(*self, r),
    {
        let entries = self.opened_categories.entries();
        let mut cats: Vec<String> = Vec::new();
        let mut i: usize = 0;
        while i < entries.len()
            invariant
                i <= entries@.len(),
                entries@ == self.opened_categories.entries_view(),
                strings_view(cats@) == self.opened_categories.keys().take(i as int),
            decreases entries@.len() - i,
        {
            let ghost before = cats@;
            cats.push(entries[i].0.clone());
            assert(self.opened_categories.keys()[i as int] == entries@[i as int].0@);
            assert(cats@ =~= before.push(entries@[i as int].0));
            assert(self.opened_categories.keys().take(i + 1) =~= self.opened_categories.keys().take(i as int).push(self.opened_categories.keys()[i as int]));
            assert(strings_view(cats@) =~= self.opened_categories.keys().take(i + 1));
            i += 1;
        }
        assert(self.opened_categories.keys().take(i as int) =~= self.opened_categories.keys());
        let mut tabs: Vec<SessionBoardTab> = Vec::new();
        let mut j: usize = 0;
        while j < self.thread_tabs.len()
            invariant
                j <= self.thread_tabs@.len(),
                tabs.deep_view() == self.thread_tabs.deep_view().take(j as int).map_values(
                    |t: ThreadTabView| SessionBoardView { board_name: t.board_name, board_url: t.board_url },
                ),
            decreases self.thread_tabs@.len() - j,
        {
            let ghost before = tabs.deep_view();
            tabs.push(
                SessionBoardTab {
                    board_name: self.thread_tabs[j].board_name.clone(),
                    board_url: self.thread_tabs[j].board_url.clone(),
                },
            );
            assert(self.thread_tabs.deep_view().take(j + 1) =~= self.thread_tabs.deep_view().take(j as int).push(self.thread_tabs.deep_view()[j as int]));
            assert(tabs.deep_view() =~= before.push(SessionBoardView { board_name: self.thread_tabs@[j as int].board_name@, board_url: self.thread_tabs@[j as int].board_url@ }));
            assert(tabs.deep_view() =~= self.thread_tabs.deep_view().take(j + 1).map_values(
                |t: ThreadTabView| SessionBoardView { board_name: t.board_name, board_url: t.board_url },
            ));
            j += 1;
        }
        assert(self.thread_tabs.deep_view().take(j as int) =~= self.thread_tabs.deep_view());
        let mut refs: Vec<SessionThreadRef> = Vec::new();
        let mut k: usize = 0;
        while k < self.response_tabs.len()
            invariant
                k <= self.response_tabs@.len(),
                refs.deep_view().len() == k,
                forall|m: int| 0 <= m < k ==> #[trigger] refs.deep_view()[m] == saved_thread_ref(*self, m),
            decreases self.response_tabs@.len() - k,
        {
            let t = &self.response_tabs[k];
            let active = k == self.active_response_tab;
            let r = SessionThreadRef {
                board_url: t.board_url.clone(),
                dat_file: t.dat_file.clone(),
                title: t.title.clone(),
                top_response_number: if active {
                    self.current_response_top_number
                } else {
                    t.top_response_number
                },
                bottom_response_number: if active {
                    self.current_response_bottom_number
                } else {
                    t.bottom_response_number
                },
                was_at_bottom: if active {
                    self.current_response_was_at_bottom
                } else {
                    t.was_at_bottom
                },
            };
            let ghost before = refs.deep_view();
            refs.push(r);
            assert(refs.deep_view() =~= before.push(r.deep_view()));
            k += 1;
        }
        let current = match &self.current_thread {
            None => None,
            Some(t) => Some(
                SessionThreadRef {
                    board_url: t.board_url.clone(),
                    dat_file: t.dat_file.clone(),
                    title: t.title.clone(),
                    top_response_number: self.current_response_top_number,
                    bottom_response_number: self.current_response_bottom_number,
                    was_at_bottom: self.current_response_was_at_bottom,
                },
            ),
        };
        let theme = match &self.current_theme_name {
            None => None,
            Some(n) => Some(theme_for_session(n)),
        };
        SessionState {
            layout_mode: self.layout_mode,
            active_thread_tab: self.active_thread_tab,
            active_response_tab: self.active_response_tab,
            opened_categories: cats,
            thread_tabs: tabs,
            response_tabs: refs,
            current_thread: current,
            theme_name: theme,
        }
    }
    /// Restores a saved session.
    #[verifier::rlimit(60)]
    pub fn restore_session(&mut self, session: SessionState) -> (effects: Vec<ReaderEffect>)
        requires
            old(self).wf(),
        ensures
            final(self).wf(),
            session_restored(*old(self), session, *final(self), effects.deep_view()),
    {
        let ghost pre = *self;
        let ghost sv = session;
        let SessionState {
            layout_mode,
            active_thread_tab,
            active_response_tab,
            opened_categories,
            thread_tabs,
            response_tabs,
            current_thread,
            theme_name: _,
        } = session;
        self.layout_mode = layout_mode;
        let mut tabs: Vec<OpenThreadState> = Vec::new();
        let mut i: usize = 0;
        while i < response_tabs.len()
            invariant
                i <= response_tabs@.len(),
                tabs.deep_view() == response_tabs.deep_view().take(i as int),
            decreases response_tabs@.len() - i,
        {
            let ghost before = tabs.deep_view();
            tabs.push(thread_tab_of(&response_tabs[i]));
            assert(tabs.deep_view() =~= before.push(response_tabs.deep_view()[i as int]));
            assert(response_tabs.deep_view().take(i + 1) =~= response_tabs.deep_view().take(i as int).push(response_tabs.deep_view()[i as int]));
            i += 1;
        }
        assert(response_tabs.deep_view().take(i as int) =~= response_tabs.deep_view());
        let n = tabs.len();
        let a = clamp_exec(active_response_tab, n);
        let (numbers, to_bottom) = if a < n {
            (Some((tabs[a].top_response_number, tabs[a].bottom_response_number)), tabs[a].was_at_bottom)
        } else {
            (None, false)
        };
        let target = if a < n {
            Some(tabs[a].copy())
        } else {
            match &current_thread {
                Some(c) => Some(thread_tab_of(c)),
                None => None,
            }
        };
        self.response_tabs = tabs;
        self.active_response_tab = a;
        let mut cats: StrMap<bool> = StrMap::new();
        let mut c: usize = 0;
        while c < opened_categories.len()
            invariant
                c <= opened_categories@.len(),
                cats.wf(),
                forall|k: Seq<char>| #[trigger] cats.has(k) <==> strings_view(opened_categories@).take(c as int).contains(k),
            decreases opened_categories@.len() - c,
        {
            cats.insert(opened_categories[c].clone(), true);
            proof {
                let sv2 = strings_view(opened_categories@);
                assert(sv2.take(c + 1) =~= sv2.take(c as int).push(opened_categories@[c as int]@));
                assert forall|k: Seq<char>| #[trigger] cats.has(k) <==> sv2.take(c + 1).contains(k) by {
                    if k == opened_categories@[c as int]@ {
                        assert(sv2.take(c + 1)[c as int] == k);
                    }
                    if sv2.take(c + 1).contains(k) && k != opened_categories@[c as int]@ {
                        let t1 = sv2.take(c + 1);
                        let w = choose|w: int| 0 <= w < t1.len() && #[trigger] t1[w] == k;
                        assert(sv2.take(c as int)[w] == k);
                    }
                }
            }
            c += 1;
        }
        assert(strings_view(opened_categories@).take(c as int) =~= strings_view(opened_categories@));
        self.opened_categories = cats;
        self.pending_restore_response_numbers = numbers;
        self.pending_restore_response_to_bottom = to_bottom;
        self.current_response_top_number = match numbers {
            Some((t, _)) => t,
            None => None,
        };
        self.current_response_bottom_number = match numbers {
            Some((_, b)) => b,
            None => None,
        };
        self.current_response_was_at_bottom = to_bottom;
        let ghost mid = *self;
        let ghost list = thread_tabs.deep_view();
        let ghost cats0 = strings_view(opened_categories@).to_set();
        let mut effects: Vec<ReaderEffect> = Vec::new();
        let mut b: usize = 0;
        while b < thread_tabs.len()
            invariant
                b <= thread_tabs@.len(),
                list == thread_tabs.deep_view(),
                self.wf(),
                *self == (ReaderState {
                    thread_tabs: self.thread_tabs,
                    active_thread_tab: self.active_thread_tab,
                    opened_categories: self.opened_categories,
                    ..mid
                }),
                self.thread_tabs.deep_view() == boards_opened(
                    pre.thread_tabs.deep_view(),
                    pre.active_thread_tab as int,
                    cats0,
                    pre.board_to_category,
                    list.take(b as int),
                ).tabs,
                forall|k: Seq<char>| #[trigger] self.opened_categories.has(k) <==> boards_opened(
                    pre.thread_tabs.deep_view(),
                    pre.active_thread_tab as int,
                    cats0,
                    pre.board_to_category,
                    list.take(b as int),
                ).cats.contains(k),
                effects.deep_view() == boards_opened(
                    pre.thread_tabs.deep_view(),
                    pre.active_thread_tab as int,
                    cats0,
                    pre.board_to_category,
                    list.take(b as int),
                ).effects,
                mid.board_to_category == pre.board_to_category,
            decreases thread_tabs@.len() - b,
        {
            let ghost before = effects.deep_view();
            let mut e = self.open_board_tab(thread_tabs[b].board_url.clone(), thread_tabs[b].board_name.clone());
            let ghost ev = e.deep_view();
            effects.append(&mut e);
            assert(effects.deep_view() =~= before + ev);
            assert(list.take(b + 1).drop_last() =~= list.take(b as int));
            assert(list.take(b + 1).last() == list[b as int]);
            b += 1;
        }
        assert(list.take(b as int) =~= list);
        let bl = self.thread_tabs.len();
        self.active_thread_tab = clamp_exec(active_thread_tab, bl);
        let ghost bo_effects = effects.deep_view();
        let ghost target_v: Option<OpenThreadView> = match &target {
            Some(t) => Some(t.deep_view()),
            None => None,
        };
        let ghost before_open = *self;
        let ghost mut open_ev: Seq<EffectView> = Seq::empty();
        match target {
            Some(t) => {
                let mut e = self.open_thread(t.board_url, t.dat_file, t.title);
                proof {
                    open_ev = e.deep_view();
                }
                effects.append(&mut e);
                assert(effects.deep_view() =~= bo_effects + open_ev);
                assert(effects.deep_view().subrange(bo_effects.len() as int, effects.deep_view().len() as int) =~= open_ev);
            },
            None => {},
        }
        let ghost before_save = effects.deep_view();
        effects.push(ReaderEffect::SaveSession);
        assert(effects.deep_view() =~= before_save.push(EffectView::SaveSession));
        assert(effects.deep_view().subrange(0, bo_effects.len() as int) =~= bo_effects);
        assert(effects.deep_view().subrange(bo_effects.len() as int, effects.deep_view().len() - 1) =~= before_save.subrange(bo_effects.len() as int, before_save.len() as int));
        proof {
            let post = *self;
            let tv = sv.response_tabs.deep_view();
            let bo = boards_opened(
                pre.thread_tabs.deep_view(),
                pre.active_thread_tab as int,
                strings_view(sv.opened_categories@).to_set(),
                pre.board_to_category,
                sv.thread_tabs.deep_view(),
            );
            assert(post.layout_mode == sv.layout_mode);
            assert(post.thread_tabs.deep_view() == bo.tabs);
            assert(post.active_thread_tab == clamp_ix(sv.active_thread_tab, bo.tabs.len()));
            assert(forall|k: Seq<char>| #[trigger] post.opened_categories.has(k) <==> bo.cats.contains(k));
            assert(bo_effects == bo.effects);
            let ra = clamp_ix(sv.active_response_tab, tv.len());
            assert(a == ra);
            assert(before_open.response_tabs.deep_view() == tv);
            let spec_target = if ra < tv.len() {
                Some(tv[ra])
            } else {
                match sv.current_thread {
                    Some(c) => Some(c.deep_view()),
                    None => None,
                }
            };
            assert(target_v == spec_target);
            assert(before_open.current_response_top_number == (if ra < tv.len() { tv[ra].top_response_number } else { None }));
            assert(before_open.current_response_was_at_bottom == (ra < tv.len() && tv[ra].was_at_bottom));
            let ev = effects.deep_view();
            let top = if ra < tv.len() { tv[ra].top_response_number } else { None };
            let bottom = if ra < tv.len() { tv[ra].bottom_response_number } else { None };
            let was = ra < tv.len() && tv[ra].was_at_bottom;
            match target_v {
                Some(t) => {
                    assert(ev.subrange(bo.effects.len() as int, ev.len() - 1) == open_ev);
                    assert(thread_opened_from(
                        tv,
                        ra,
                        top,
                        bottom,
                        was,
                        post,
                        ev.subrange(bo.effects.len() as int, ev.len() - 1),
                        t.board_url,
                        t.dat_file,
                        t.title,
                    ));
                },
                None => {
                    assert(ev.len() == bo.effects.len() + 1);
                    assert(post.response_tabs.deep_view() == tv);
                    assert(post.current_thread == pre.current_thread);
                },
            }
            assert(post.board_to_category == pre.board_to_category);
            assert(post.footer_status_hint == pre.footer_status_hint);
            assert(post.current_theme_name == pre.current_theme_name);
        }
        effects
    }
}

} // verus!
