use gooey::boards::{ResponseItem, ThreadItem};
use gooey::gestures::{
    GestureDirection, GesturePane, KeyBindingCommand, KeyBindingSettings, MouseGestureCommand,
    MouseGestureSettings,
};
use gooey::menu::{BoardEntry, CategoryEntry};
use gooey::reader::{GestureEnd, ImagePreviewStart, ReaderEffect, ReaderState, SubmitStep, PostStart};
use gooey::post::PostAttemptResult;
use gooey::session::SessionState;

fn state() -> ReaderState {
    ReaderState::new(MouseGestureSettings::default(), KeyBindingSettings::default())
}

fn thread(dat: &str, title: &str, count: usize) -> ThreadItem {
    ThreadItem { dat_file: dat.to_string(), title: title.to_string(), response_count: count }
}

fn response(number: usize) -> ResponseItem {
    ResponseItem {
        number,
        name: "n".to_string(),
        timestamp: "t".to_string(),
        id: "ID:x".to_string(),
        body: "b".to_string(),
    }
}

fn is_save(e: &ReaderEffect) -> bool {
    matches!(e, ReaderEffect::SaveSession)
}

#[test]
fn new_state_shows_sample_posts() {
    let s = state();
    assert_eq!(s.responses.len(), 5);
    for (k, r) in s.responses.iter().enumerate() {
        let i = k + 1;
        assert_eq!(r.number, i);
        assert_eq!(r.name, "既にその名前は使われています");
        assert_eq!(r.timestamp, format!("2026/04/19(日) 09:{:02}:00", i % 60));
        assert_eq!(r.id, format!("ID:{:02X}{:02X}", i, 255 - i));
        assert_eq!(r.body, "本文ダミー\n2行目の本文ダミー");
    }
    assert_eq!(s.responses[0].id, "ID:01FE");
    assert_eq!(s.responses[4].timestamp, "2026/04/19(日) 09:05:00");
    assert!(!s.has_placeholder_response_row());
    assert!(s.has_loaded_response_rows());
    assert_eq!(s.current_board_title(), "スレッド一覧");
    assert_eq!(s.current_response_title(), "レス表示");
}

#[test]
fn open_board_tab_adds_then_activates() {
    let mut s = state();
    let e = s.open_board_tab("https://a/b/".to_string(), "B".to_string());
    assert_eq!(e.len(), 2);
    assert!(is_save(&e[0]));
    assert!(matches!(&e[1], ReaderEffect::LoadSubject { board_url } if board_url == "https://a/b/"));
    s.open_board_tab("https://a/c/".to_string(), "C".to_string());
    assert_eq!(s.active_thread_tab, 1);
    let e = s.open_board_tab("https://a/b/".to_string(), "B2".to_string());
    assert_eq!(e.len(), 1);
    assert_eq!(s.thread_tabs.len(), 2);
    assert_eq!(s.active_thread_tab, 0);
    assert_eq!(s.current_board_title(), "B");
}

#[test]
fn board_category_opens_with_tab() {
    let mut s = state();
    let cats = vec![CategoryEntry {
        category_name: "ニュース".to_string(),
        category_content: vec![BoardEntry {
            board_name: "速報".to_string(),
            url: "https://a/news/".to_string(),
            directory_name: "news".to_string(),
        }],
    }];
    let tree = s.boards_loaded(&cats);
    assert_eq!(tree.len(), 1);
    assert!(!tree[0].expanded);
    assert_eq!(tree[0].children[0].id, "https://a/news/");
    s.open_board_tab("https://a/news/".to_string(), "速報".to_string());
    assert!(s.opened_categories.contains_key("ニュース"));
    let tree = s.boards_loaded(&cats);
    assert!(tree[0].expanded);
}

#[test]
fn subject_results_fill_tab() {
    let mut s = state();
    s.open_board_tab("u".to_string(), "B".to_string());
    let (rows, msg) = s.current_thread_rows();
    assert!(rows.is_empty());
    assert_eq!(msg, "読み込み中...");
    s.subject_loaded("u", Ok(vec![thread("1.dat", "T1", 3), thread("abc.dat", "T2", 0)]));
    assert!(!s.thread_tabs[0].loading);
    let (rows, msg) = s.current_thread_rows();
    assert_eq!(msg, "");
    assert_eq!(rows.len(), 2);
    assert_eq!(rows[0].number, 1);
    assert_eq!(rows[1].number, 2);
    assert_eq!(rows[1].title, "T2");
    assert_eq!(rows[1].created_at, "-");
    assert_eq!(rows[0].board_url, "u");
}

#[test]
fn subject_failure_messages() {
    let mut s = state();
    let (_, msg) = s.current_thread_rows();
    assert_eq!(msg, "左の板一覧から板を選択してください");
    s.open_board_tab("u".to_string(), "B".to_string());
    s.subject_loaded("u", Err("boom".to_string()));
    let (_, msg) = s.current_thread_rows();
    assert_eq!(msg, "取得失敗: boom");
    s.subject_loaded("u", Ok(Vec::new()));
    let (_, msg) = s.current_thread_rows();
    assert_eq!(msg, "スレッドがありません");
    assert!(s.subject_loaded("other", Ok(Vec::new())).is_empty());
}

#[test]
fn thread_list_refresh() {
    let mut s = state();
    s.open_board_tab("u".to_string(), "B".to_string());
    assert!(s.reload_thread_tab(0).is_empty(), "a loading tab is not refreshed");
    s.subject_loaded("u", Ok(vec![thread("1.dat", "T", 1)]));
    let e = s.reload_thread_tab(0);
    assert_eq!(e.len(), 2);
    assert!(matches!(&e[1], ReaderEffect::RefreshSubject { tab_ix: 0, board_url } if board_url == "u"));
    assert_eq!(s.footer_status_hint.as_deref(), Some("スレッド一覧を更新中..."));
    s.subject_refreshed(0, Err("net".to_string()));
    assert_eq!(s.thread_tabs[0].threads.len(), 1, "the list is kept on failure");
    assert_eq!(s.thread_tabs[0].error.as_deref(), Some("net"));
    assert_eq!(s.footer_status_hint.as_deref(), Some("スレッド一覧の更新に失敗: net"));
    s.subject_refreshed(0, Ok(vec![thread("2.dat", "U", 2)]));
    assert_eq!(s.footer_status_hint, None);
    assert_eq!(s.thread_tabs[0].threads[0].dat_file, "2.dat");
    assert!(s.reload_thread_tab(5).is_empty());
}

#[test]
fn close_thread_tab_keeps_active_in_range() {
    let mut s = state();
    s.open_board_tab("a".to_string(), "A".to_string());
    s.open_board_tab("b".to_string(), "B".to_string());
    s.open_board_tab("c".to_string(), "C".to_string());
    assert_eq!(s.active_thread_tab, 2);
    s.close_thread_tab(2);
    assert_eq!(s.active_thread_tab, 1);
    s.close_thread_tab(0);
    assert_eq!(s.active_thread_tab, 0);
    assert_eq!(s.thread_tabs[0].board_url, "b");
    s.close_thread_tab(0);
    assert_eq!(s.active_thread_tab, 0);
    assert!(s.thread_tabs.is_empty());
    assert!(s.close_thread_tab(0).is_empty());
}

#[test]
fn open_thread_creates_and_reuses_tabs() {
    let mut s = state();
    let e = s.open_thread("u".to_string(), "1.dat".to_string(), "T1".to_string());
    assert_eq!(e.len(), 2);
    assert!(matches!(&e[1], ReaderEffect::LoadDat { dat_file, restore_numbers: (None, None), restore_to_bottom: false, .. } if dat_file == "1.dat"));
    assert_eq!(s.responses[0].body, "レス読み込み中...");
    s.current_response_top_number = Some(10);
    s.current_response_bottom_number = Some(20);
    s.open_thread("u".to_string(), "2.dat".to_string(), "T2".to_string());
    assert_eq!(s.response_tabs.len(), 2);
    assert_eq!(s.response_tabs[0].top_response_number, Some(10));
    let e = s.open_thread("u".to_string(), "1.dat".to_string(), "T1 new".to_string());
    assert_eq!(s.response_tabs.len(), 2);
    assert_eq!(s.active_response_tab, 0);
    assert_eq!(s.response_tabs[0].title, "T1 new");
    assert_eq!(s.current_response_top_number, Some(10));
    assert_eq!(s.current_response_bottom_number, Some(20));
    assert!(matches!(&e[1], ReaderEffect::LoadDat { restore_numbers: (Some(10), Some(20)), .. }));
    assert_eq!(s.current_response_title(), "T1 new");
}

#[test]
fn dat_load_results() {
    let mut s = state();
    s.open_thread("u".to_string(), "1.dat".to_string(), "T".to_string());
    s.dat_loaded(Err("x".to_string()), (Some(1), None), true);
    assert_eq!(s.responses[0].body, "取得失敗: x");
    assert_eq!(s.pending_restore_response_numbers, Some((Some(1), None)));
    assert!(s.pending_restore_response_to_bottom);
    s.dat_loaded(Ok(vec![response(1), response(2)]), (None, None), false);
    assert!(s.has_loaded_response_rows());
}

#[test]
fn refresh_marks_first_new_response() {
    let mut s = state();
    assert!(s.reload_current_thread().is_empty(), "nothing to refresh without a thread");
    s.open_thread("u".to_string(), "1.dat".to_string(), "T".to_string());
    s.dat_loaded(Ok(vec![response(1), response(2), response(3)]), (None, None), false);
    let e = s.reload_current_thread();
    assert!(matches!(&e[1], ReaderEffect::RefreshDat { previous_max_number: 3, .. }));
    assert_eq!(s.footer_status_hint.as_deref(), Some("レス一覧を更新中..."));
    assert_eq!(s.responses.len(), 3, "loaded responses stay while refreshing");
    s.dat_refreshed(Ok(vec![response(1), response(2), response(3), response(5), response(4)]), 3);
    assert_eq!(s.response_new_marker_from, Some(4));
    assert_eq!(s.footer_status_hint, None);
    s.dat_refreshed(Err("down".to_string()), 5);
    assert_eq!(s.responses.len(), 5);
    assert_eq!(s.footer_status_hint.as_deref(), Some("レス一覧の更新に失敗: down"));
    s.dat_refreshed(Ok(vec![response(1)]), 5);
    assert_eq!(s.response_new_marker_from, None);
}

#[test]
fn refresh_failure_without_rows_shows_error() {
    let mut s = state();
    s.open_thread("u".to_string(), "1.dat".to_string(), "T".to_string());
    s.reload_current_thread();
    s.dat_refreshed(Err("e".to_string()), 0);
    assert_eq!(s.responses[0].body, "取得失敗: e");
}

#[test]
fn close_response_tabs() {
    let mut s = state();
    s.open_thread("u".to_string(), "1.dat".to_string(), "T1".to_string());
    s.open_thread("u".to_string(), "2.dat".to_string(), "T2".to_string());
    s.open_thread("u".to_string(), "3.dat".to_string(), "T3".to_string());
    // closing a tab before the active one shifts the active index
    s.close_response_tab(0);
    assert_eq!(s.active_response_tab, 1);
    assert_eq!(s.response_tabs[1].dat_file, "3.dat");
    // closing the active (last) tab opens the one before it
    let e = s.close_response_tab(1);
    assert!(matches!(&e[1], ReaderEffect::LoadDat { dat_file, .. } if dat_file == "2.dat"));
    assert_eq!(s.active_response_tab, 0);
    assert_eq!(s.current_thread.as_ref().unwrap().dat_file, "2.dat");
    s.close_current_thread();
    assert!(s.response_tabs.is_empty());
    assert!(s.current_thread.is_none());
    assert_eq!(s.responses[0].body, "スレッドを選択してください");
    assert!(s.close_current_thread().is_empty());
}

#[test]
fn gesture_commands_on_lists() {
    let mut s = state();
    s.open_board_tab("a".to_string(), "A".to_string());
    s.open_board_tab("b".to_string(), "B".to_string());
    s.subject_loaded("b", Ok(vec![thread("1.dat", "T", 1), thread("2.dat", "U", 1)]));
    let e = s.execute_gesture_command(GesturePane::ThreadList, MouseGestureCommand::ScrollBottom);
    assert!(matches!(e[0], ReaderEffect::ScrollThreadToItem(1)));
    s.execute_gesture_command(GesturePane::ThreadList, MouseGestureCommand::TabPrev);
    assert_eq!(s.active_thread_tab, 0);
    assert!(s.execute_gesture_command(GesturePane::ThreadList, MouseGestureCommand::TabPrev).is_empty());
    s.execute_gesture_command(GesturePane::ThreadList, MouseGestureCommand::TabNext);
    assert_eq!(s.active_thread_tab, 1);
    let e = s.execute_gesture_command(GesturePane::ThreadList, MouseGestureCommand::Refresh);
    assert!(matches!(e[0], ReaderEffect::ResetPullRefresh));
    assert!(matches!(&e[2], ReaderEffect::RefreshSubject { tab_ix: 1, .. }));
    s.execute_gesture_command(GesturePane::ThreadList, MouseGestureCommand::Close);
    assert_eq!(s.thread_tabs.len(), 1);
    assert!(s.execute_gesture_command(GesturePane::ResponseList, MouseGestureCommand::Unassigned).is_empty());
    let e = s.execute_gesture_command(GesturePane::ResponseList, MouseGestureCommand::ScrollTop);
    assert!(matches!(e[0], ReaderEffect::ScrollResponseToItem(0)));
}

#[test]
fn response_tab_navigation() {
    let mut s = state();
    s.open_thread("u".to_string(), "1.dat".to_string(), "T1".to_string());
    s.open_thread("u".to_string(), "2.dat".to_string(), "T2".to_string());
    s.execute_gesture_command(GesturePane::ResponseList, MouseGestureCommand::TabPrev);
    assert_eq!(s.active_response_tab, 0);
    assert_eq!(s.current_thread.as_ref().unwrap().dat_file, "1.dat");
    s.execute_gesture_command(GesturePane::ResponseList, MouseGestureCommand::TabNext);
    assert_eq!(s.current_thread.as_ref().unwrap().dat_file, "2.dat");
    assert!(s.execute_gesture_command(GesturePane::ResponseList, MouseGestureCommand::TabNext).is_empty());
}

#[test]
fn switching_tabs_restores_each_tabs_place() {
    let mut s = state();
    s.open_thread("u".to_string(), "1.dat".to_string(), "T1".to_string());
    s.open_thread("u".to_string(), "2.dat".to_string(), "T2".to_string());
    s.response_tabs[1].top_response_number = Some(50);
    s.response_tabs[1].bottom_response_number = Some(60);
    s.active_response_tab = 0;
    s.current_response_top_number = Some(10);
    s.current_response_bottom_number = Some(20);
    s.current_response_was_at_bottom = false;
    s.execute_gesture_command(GesturePane::ResponseList, MouseGestureCommand::TabNext);
    assert_eq!(s.active_response_tab, 1);
    assert_eq!(s.current_response_top_number, Some(50));
    assert_eq!(s.current_response_bottom_number, Some(60));
    assert_eq!(s.pending_restore_response_numbers, Some((Some(50), Some(60))));
    assert_eq!(s.response_tabs[0].top_response_number, Some(10));
    assert_eq!(s.response_tabs[1].top_response_number, Some(50));
    // back again: tab 0 opens at the place left in it
    s.current_response_top_number = Some(55);
    s.execute_gesture_command(GesturePane::ResponseList, MouseGestureCommand::TabPrev);
    assert_eq!(s.active_response_tab, 0);
    assert_eq!(s.current_response_top_number, Some(10));
    assert_eq!(s.response_tabs[1].top_response_number, Some(55));
}

#[test]
fn closing_a_tab_opens_the_next_at_its_own_place() {
    let mut s = state();
    s.open_thread("u".to_string(), "1.dat".to_string(), "T1".to_string());
    s.open_thread("u".to_string(), "2.dat".to_string(), "T2".to_string());
    s.response_tabs[1].top_response_number = Some(50);
    s.active_response_tab = 0;
    s.current_response_top_number = Some(10);
    s.close_response_tab(0);
    assert_eq!(s.response_tabs.len(), 1);
    assert_eq!(s.active_response_tab, 0);
    assert_eq!(s.current_response_top_number, Some(50));
    assert_eq!(s.response_tabs[0].top_response_number, Some(50));
    assert_eq!(s.current_thread.as_ref().unwrap().dat_file, "2.dat");
}

#[test]
fn key_bindings() {
    let mut s = state();
    s.open_board_tab("a".to_string(), "A".to_string());
    let e = s.handle_key_binding_key("PageDown", false, false);
    assert!(matches!(e[0], ReaderEffect::ScrollThreadPage(true)));
    assert!(s.handle_key_binding_key("PageDown", false, true).is_empty(), "a dialog blocks keys");
    assert!(s.handle_key_binding_key("x", false, false).is_empty());
    let e = s.handle_key_binding_key("W", true, false);
    assert_eq!(e.len(), 1);
    assert!(s.thread_tabs.is_empty(), "Ctrl+W closes the board tab");
    s.focused_pane = GesturePane::ResponseList;
    let e = s.execute_key_binding_command(GesturePane::ResponseList, KeyBindingCommand::PageUp);
    assert!(matches!(e[0], ReaderEffect::ScrollResponsePage(false)));
    s.key_binding_settings.enabled = false;
    assert!(s.handle_key_binding_key("home", false, false).is_empty());
}

#[test]
fn mouse_gesture_lifecycle() {
    let mut s = state();
    s.open_thread("u".to_string(), "1.dat".to_string(), "T1".to_string());
    assert!(s.begin_mouse_gesture(GesturePane::ResponseList));
    assert_eq!(
        s.track_mouse_gesture_move(GesturePane::ResponseList, Some(GestureDirection::Down)),
        Some("ジェスチャ: ↓ 末尾へ".to_string())
    );
    assert_eq!(s.track_mouse_gesture_move(GesturePane::ResponseList, Some(GestureDirection::Down)), None);
    assert_eq!(s.track_mouse_gesture_move(GesturePane::ThreadList, Some(GestureDirection::Up)), None);
    let (end, effects) = s.end_mouse_gesture(GesturePane::ResponseList, Some(GestureDirection::Right));
    match end {
        GestureEnd::Performed { status } => assert_eq!(status, "ジェスチャ: ↓→ 閉じる"),
        _ => panic!("the gesture was performed"),
    }
    assert!(is_save(&effects[0]));
    assert!(s.response_tabs.is_empty());
    assert!(s.gesture_tracking.is_none());
    let (end, _) = s.end_mouse_gesture(GesturePane::ResponseList, None);
    assert!(matches!(end, GestureEnd::NotTracking));
    s.begin_mouse_gesture(GesturePane::ThreadList);
    let (end, _) = s.end_mouse_gesture(GesturePane::ThreadList, None);
    assert!(matches!(end, GestureEnd::EmptyTrail));
    s.mouse_gesture_settings.enabled = false;
    assert!(!s.begin_mouse_gesture(GesturePane::ThreadList));
}

#[test]
fn linked_threads_open_in_tabs() {
    let mut s = state();
    s.open_board_tab("https://a.5ch.io/news/".to_string(), "N".to_string());
    s.subject_loaded("https://a.5ch.io/news/", Ok(vec![thread("17.dat", "Known", 1)]));
    let (ok, _) = s.open_5ch_io_url_in_response_tab("https://a.5ch.io/test/read.cgi/news/17/");
    assert!(ok);
    assert_eq!(s.current_thread.as_ref().unwrap().title, "Known");
    assert_eq!(s.focused_pane, GesturePane::ResponseList);
    let (ok, _) = s.open_5ch_io_url_in_response_tab("https://a.5ch.io/test/read.cgi/other/9/");
    assert!(ok);
    assert_eq!(s.current_thread.as_ref().unwrap().title, "other 9.dat");
    let (ok, e) = s.open_5ch_io_url_in_response_tab("https://example.com/");
    assert!(!ok);
    assert!(e.is_empty());
}

#[test]
fn posting_flow() {
    let mut s = state();
    assert!(matches!(s.submit_response_draft("x"), SubmitStep::Alert { .. }));
    match s.execute_post_submission() {
        PostStart::NoThread { title, message } => {
            assert_eq!(title, "エラー");
            assert_eq!(message, "投稿対象のスレッドが未選択です");
        }
        PostStart::Send { .. } => panic!("no thread is open"),
    }
    s.open_thread("u".to_string(), "1.dat".to_string(), "T".to_string());
    match s.submit_response_draft("  ") {
        SubmitStep::Confirm { message, .. } => assert_eq!(message, "本文が空ですが投稿しますか？"),
        _ => panic!("a blank body asks first"),
    }
    assert!(matches!(s.submit_response_draft("hi"), SubmitStep::Submit));
    match s.execute_post_submission() {
        PostStart::Send { board_url, dat_file, pending_confirm } => {
            assert_eq!(board_url, "u");
            assert_eq!(dat_file, "1.dat");
            assert!(pending_confirm.is_none());
        }
        PostStart::NoThread { .. } => panic!("a thread is open"),
    }
    assert_eq!(s.response_submit_hint.as_deref(), Some("投稿処理を送信中..."));
    s.post_finished(
        "u".to_string(),
        "1.dat".to_string(),
        Ok(PostAttemptResult::NeedConfirm { feature: "confirmed:a".to_string(), time: "5".to_string() }),
    );
    match s.execute_post_submission() {
        PostStart::Send { pending_confirm, .. } => {
            assert_eq!(pending_confirm, Some(("confirmed:a".to_string(), "5".to_string())))
        }
        PostStart::NoThread { .. } => panic!("a thread is open"),
    }
    s.post_finished("u".to_string(), "1.dat".to_string(), Err("bad".to_string()));
    assert_eq!(s.response_submit_hint.as_deref(), Some("投稿失敗: bad"));
    s.post_finished("u".to_string(), "1.dat".to_string(), Ok(PostAttemptResult::Posted));
    assert!(s.post_confirm.is_none());
    assert_eq!(s.response_submit_hint.as_deref(), Some("書き込みが完了しました"));
    assert!(s.toggle_response_composer());
    assert!(!s.toggle_response_composer());
}

#[test]
fn image_preview_requests() {
    let mut s = state();
    assert!(matches!(s.begin_image_preview_for_url("https://x/a.txt".to_string()), ImagePreviewStart::NotImage));
    let g = match s.begin_image_preview_for_url("https://x/a.png".to_string()) {
        ImagePreviewStart::Started { generation } => generation,
        _ => panic!("started"),
    };
    assert_eq!(g, 1);
    assert!(matches!(s.begin_image_preview_for_url("https://x/a.png".to_string()), ImagePreviewStart::AlreadyShown));
    s.image_preview_loaded(99, Ok("/tmp/old".to_string()));
    assert!(s.is_previewing("https://x/a.png"));
    s.image_preview_loaded(g, Err("404".to_string()));
    match &s.image_preview_state.as_ref().unwrap().status {
        gooey::reader::ImagePreviewStatus::Error { message } => assert_eq!(message, "画像取得失敗: 404"),
        _ => panic!("error shown"),
    }
    assert!(!s.clear_image_preview_for_url("https://x/b.png"));
    assert!(s.clear_image_preview_for_url("https://x/a.png"));
    assert_eq!(s.image_preview_generation, 2);
    assert!(s.image_preview_state.is_none());
}

#[test]
fn session_save_and_restore() {
    let mut s = state();
    s.open_board_tab("a".to_string(), "A".to_string());
    s.open_board_tab("b".to_string(), "B".to_string());
    s.open_thread("u".to_string(), "1.dat".to_string(), "T1".to_string());
    s.open_thread("u".to_string(), "2.dat".to_string(), "T2".to_string());
    s.current_response_top_number = Some(7);
    s.current_theme_name = Some("Default Dark".to_string());
    let saved = s.build_session_state();
    assert_eq!(saved.theme_name.as_deref(), Some("Dark"));
    assert_eq!(saved.response_tabs[1].top_response_number, Some(7));
    assert_eq!(saved.thread_tabs.len(), 2);
    let mut fresh = state();
    let effects = fresh.restore_session(saved);
    assert!(is_save(effects.last().unwrap()));
    assert_eq!(fresh.thread_tabs.len(), 2);
    assert_eq!(fresh.active_thread_tab, 1);
    assert_eq!(fresh.response_tabs.len(), 2);
    assert_eq!(fresh.active_response_tab, 1);
    assert_eq!(fresh.current_thread.as_ref().unwrap().dat_file, "2.dat");
    assert_eq!(fresh.current_response_top_number, Some(7));
    assert_eq!(fresh.pending_restore_response_numbers, Some((Some(7), None)));
}

#[test]
fn restore_of_default_session() {
    let mut fresh = state();
    let effects = fresh.restore_session(SessionState::default());
    assert_eq!(effects.len(), 1);
    assert!(fresh.current_thread.is_none());
    assert!(fresh.thread_tabs.is_empty());
}

#[test]
fn restore_rows_by_number() {
    let mut s = state();
    s.open_thread("u".to_string(), "1.dat".to_string(), "T".to_string());
    s.dat_loaded(Ok(vec![response(2), response(4), response(6)]), (Some(4), Some(6)), false);
    assert_eq!(s.restore_row_index(Some(4), Some(6)), Some(1));
    assert_eq!(s.restore_row_index(Some(5), Some(6)), Some(2));
    assert_eq!(s.restore_row_index(Some(3), None), Some(1));
    assert_eq!(s.restore_row_index(Some(9), Some(5)), Some(1));
    assert_eq!(s.restore_row_index(Some(9), Some(1)), None);
    assert_eq!(s.restore_row_index(None, None), None);
    assert!(matches!(s.pending_restore_step(false), gooey::reader::RestoreStep::ToRow(1)));
    assert!(s.pending_restore_response_numbers.is_none());
    assert!(matches!(s.pending_restore_step(false), gooey::reader::RestoreStep::Nothing));
}

#[test]
fn restore_to_bottom_or_offset() {
    let mut s = state();
    s.open_thread("u".to_string(), "1.dat".to_string(), "T".to_string());
    assert!(matches!(s.pending_restore_step(false), gooey::reader::RestoreStep::Nothing));
    s.dat_loaded(Ok(vec![response(1), response(2)]), (None, None), true);
    assert!(matches!(s.pending_restore_step(true), gooey::reader::RestoreStep::ToBottom(1)));
    assert!(!s.pending_restore_response_to_bottom);
    s.dat_loaded(Ok(vec![response(1), response(2)]), (Some(1), None), false);
    assert!(matches!(s.pending_restore_step(true), gooey::reader::RestoreStep::ToOffset));
}

#[test]
fn visible_rows_are_tracked() {
    let mut s = state();
    s.open_thread("u".to_string(), "1.dat".to_string(), "T".to_string());
    s.dat_loaded(Ok(vec![response(1), response(2), response(3)]), (None, None), false);
    assert!(!s.responses_visible(Some(1), Some(2), false), "a place waits to be restored");
    s.pending_restore_step(false);
    assert!(s.responses_visible(Some(1), Some(2), false));
    assert_eq!(s.current_response_top_number, Some(1));
    assert_eq!(s.response_tabs[0].bottom_response_number, Some(2));
    assert!(!s.current_response_was_at_bottom);
    assert!(!s.responses_visible(Some(1), Some(2), false));
    assert!(s.responses_visible(Some(2), Some(3), false));
    assert!(s.current_response_was_at_bottom);
    assert!(s.response_tabs[0].was_at_bottom);
}

#[test]
fn copy_text_of_a_response() {
    let res = ResponseItem {
        number: 3,
        name: "名無し</b>◆x<b>".to_string(),
        timestamp: "2024/01/01".to_string(),
        id: "ID:q".to_string(),
        body: "本文".to_string(),
    };
    assert_eq!(gooey::reader::response_copy_text(&res), "3 名無し◆x 2024/01/01\nID:q\n本文");
}

#[test]
fn layout_and_focus() {
    let mut s = state();
    let e = s.set_layout_mode(gooey::reader::LayoutMode::Vertical);
    assert_eq!(s.layout_mode, gooey::reader::LayoutMode::Vertical);
    assert!(is_save(&e[0]));
    s.set_focused_pane(GesturePane::ResponseList);
    assert_eq!(s.focused_pane, GesturePane::ResponseList);
}
