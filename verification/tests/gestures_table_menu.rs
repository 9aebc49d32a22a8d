use gooey::boards::ResponseItem;
use gooey::gestures::{
    command_for_gesture, command_for_key, default_key_binding_enabled, default_mouse_gesture_enabled,
    direction_code, direction_label, extend_trail, gesture_command_label, gesture_sequence_key,
    gesture_sequence_label, gesture_status_text, normalized_key, with_default_bindings,
    GestureDirection, KeyBindingCommand, KeyBindingPaneBindings, KeyBindingSettings,
    MouseGestureCommand, MouseGesturePaneBindings, MouseGestureSettings,
};
use gooey::menu::{bbsmenu_from_parsed, board_categories, build_tree_items, group_legacy_boards, BoardEntry, CategoryEntry, LegacyFlatBoardEntry};
use gooey::strmap::StrMap;
use gooey::table::{
    cell_text, estimate_body_wrap_lines, estimate_response_header_wrap_lines, move_column,
    perform_sort, response_tab_label, sort_key, ColumnSort, SortKey, ThreadTableRow,
};

#[test]
fn defaults_are_enabled() {
    assert!(default_mouse_gesture_enabled());
    assert!(default_key_binding_enabled());
    let g = MouseGestureSettings::default();
    assert!(g.enabled);
    let k = KeyBindingSettings::default();
    assert!(k.enabled);
    assert_eq!(k.thread.f5, KeyBindingCommand::Refresh);
    assert_eq!(MouseGestureCommand::default(), MouseGestureCommand::Unassigned);
    assert_eq!(KeyBindingCommand::default(), KeyBindingCommand::Unassigned);
}

#[test]
fn default_gesture_bindings() {
    let b = MouseGesturePaneBindings::default();
    assert_eq!(b.commands.len(), 7);
    assert_eq!(command_for_gesture(&b, "u"), MouseGestureCommand::ScrollTop);
    assert_eq!(command_for_gesture(&b, "d"), MouseGestureCommand::ScrollBottom);
    assert_eq!(command_for_gesture(&b, "l"), MouseGestureCommand::TabPrev);
    assert_eq!(command_for_gesture(&b, "r"), MouseGestureCommand::TabNext);
    assert_eq!(command_for_gesture(&b, "ud"), MouseGestureCommand::Refresh);
    assert_eq!(command_for_gesture(&b, "dr"), MouseGestureCommand::Close);
    assert_eq!(command_for_gesture(&b, "udr"), MouseGestureCommand::Close);
    assert_eq!(command_for_gesture(&b, "lr"), MouseGestureCommand::Unassigned);
}

#[test]
fn empty_gesture_bindings_get_defaults() {
    let empty = MouseGestureSettings {
        enabled: false,
        thread: MouseGesturePaneBindings { commands: StrMap::new() },
        response: MouseGesturePaneBindings::default(),
    };
    let s = with_default_bindings(empty);
    assert!(!s.enabled);
    assert_eq!(command_for_gesture(&s.thread, "u"), MouseGestureCommand::ScrollTop);
    let mut custom = StrMap::new();
    custom.insert("l".to_string(), MouseGestureCommand::Refresh);
    let s2 = with_default_bindings(MouseGestureSettings {
        enabled: true,
        thread: MouseGesturePaneBindings { commands: custom },
        response: MouseGesturePaneBindings::default(),
    });
    assert_eq!(command_for_gesture(&s2.thread, "u"), MouseGestureCommand::Unassigned);
    assert_eq!(command_for_gesture(&s2.thread, "l"), MouseGestureCommand::Refresh);
}

#[test]
fn key_lookup() {
    let b = KeyBindingPaneBindings::default();
    assert_eq!(command_for_key(&b, false, "pageup"), Some(KeyBindingCommand::PageUp));
    assert_eq!(command_for_key(&b, false, "pagedown"), Some(KeyBindingCommand::PageDown));
    assert_eq!(command_for_key(&b, false, "home"), Some(KeyBindingCommand::ScrollTop));
    assert_eq!(command_for_key(&b, false, "end"), Some(KeyBindingCommand::ScrollBottom));
    assert_eq!(command_for_key(&b, false, "f5"), Some(KeyBindingCommand::Refresh));
    assert_eq!(command_for_key(&b, true, "r"), Some(KeyBindingCommand::Refresh));
    assert_eq!(command_for_key(&b, true, "w"), Some(KeyBindingCommand::Close));
    assert_eq!(command_for_key(&b, true, "f5"), None);
    assert_eq!(command_for_key(&b, false, "r"), None);
    assert_eq!(normalized_key("PageUp"), "pageup");
}

#[test]
fn direction_texts() {
    assert_eq!(direction_code(GestureDirection::Up), 'u');
    assert_eq!(direction_code(GestureDirection::Left), 'l');
    assert_eq!(direction_label(GestureDirection::Down), "↓");
    assert_eq!(direction_label(GestureDirection::Right), "→");
    let trail = [GestureDirection::Up, GestureDirection::Down, GestureDirection::Right];
    assert_eq!(gesture_sequence_key(&trail), "udr");
    assert_eq!(gesture_sequence_label(&trail), "↑↓→");
    assert_eq!(gesture_command_label(MouseGestureCommand::Unassigned), "(未割当)");
    assert_eq!(gesture_command_label(MouseGestureCommand::TabNext), "次のタブ");
    assert_eq!(gesture_status_text(&trail, MouseGestureCommand::Close), "ジェスチャ: ↑↓→ 閉じる");
}

#[test]
fn trail_skips_repeated_strokes() {
    let mut trail = Vec::new();
    assert!(extend_trail(&mut trail, GestureDirection::Up));
    assert!(!extend_trail(&mut trail, GestureDirection::Up));
    assert!(extend_trail(&mut trail, GestureDirection::Left));
    assert!(extend_trail(&mut trail, GestureDirection::Up));
    assert_eq!(trail, vec![GestureDirection::Up, GestureDirection::Left, GestureDirection::Up]);
}

fn row(number: usize, title: &str, count: usize, created: &str) -> ThreadTableRow {
    ThreadTableRow {
        number,
        board_url: "u".to_string(),
        dat_file: format!("{number}.dat"),
        title: title.to_string(),
        response_count: count,
        created_at: created.to_string(),
        momentum_per_day: "1.5".to_string(),
    }
}

#[test]
fn cells() {
    let r = row(12, "T", 345, "2024/01/01 00:00");
    assert_eq!(cell_text(&r, "no"), "12");
    assert_eq!(cell_text(&r, "title"), "T");
    assert_eq!(cell_text(&r, "responses"), "345");
    assert_eq!(cell_text(&r, "created_at"), "2024/01/01 00:00");
    assert_eq!(cell_text(&r, "momentum"), "1.5");
    assert_eq!(cell_text(&r, "other"), "");
}

#[test]
fn sorting_is_stable() {
    let rows = vec![row(1, "b", 5, "x"), row(2, "a", 7, "x"), row(3, "b", 5, "y"), row(4, "c", 1, "x")];
    assert_eq!(sort_key("responses"), SortKey::Responses);
    assert_eq!(sort_key("zzz"), SortKey::Unknown);
    let asc = perform_sort(rows, SortKey::Responses, ColumnSort::Ascending);
    let nums: Vec<usize> = asc.iter().map(|r| r.number).collect();
    assert_eq!(nums, vec![4, 1, 3, 2]);
    let desc = perform_sort(asc, SortKey::Title, ColumnSort::Descending);
    let nums: Vec<usize> = desc.iter().map(|r| r.number).collect();
    assert_eq!(nums, vec![4, 1, 3, 2]);
    let by_no = perform_sort(desc, SortKey::Number, ColumnSort::Default);
    let nums: Vec<usize> = by_no.iter().map(|r| r.number).collect();
    assert_eq!(nums, vec![1, 2, 3, 4]);
    let same = perform_sort(by_no, SortKey::Unknown, ColumnSort::Descending);
    let nums: Vec<usize> = same.iter().map(|r| r.number).collect();
    assert_eq!(nums, vec![1, 2, 3, 4]);
    let created = perform_sort(same, SortKey::CreatedAt, ColumnSort::Descending);
    let nums: Vec<usize> = created.iter().map(|r| r.number).collect();
    assert_eq!(nums, vec![3, 1, 2, 4]);
}

#[test]
fn columns_move() {
    let mut cols = vec!["no", "title", "responses", "created_at", "momentum"];
    move_column(&mut cols, 0, 3);
    assert_eq!(cols, vec!["title", "responses", "created_at", "no", "momentum"]);
    move_column(&mut cols, 3, 0);
    assert_eq!(cols, vec!["no", "title", "responses", "created_at", "momentum"]);
    move_column(&mut cols, 1, 9);
    move_column(&mut cols, 2, 2);
    assert_eq!(cols, vec!["no", "title", "responses", "created_at", "momentum"]);
}

#[test]
fn tab_labels() {
    assert_eq!(response_tab_label("short title"), "short title");
    assert_eq!(response_tab_label("12345678901234567890"), "12345678901234567890");
    assert_eq!(response_tab_label("123456789012345678901"), "12345678901234567…");
    // wide characters take two columns each
    assert_eq!(response_tab_label("あいうえおかきくけこさ"), "あいうえおかきく…");
}

#[test]
fn wrap_line_estimates() {
    assert_eq!(estimate_body_wrap_lines("", 10), 1);
    assert_eq!(estimate_body_wrap_lines("abc", 10), 1);
    assert_eq!(estimate_body_wrap_lines("0123456789a", 10), 2);
    assert_eq!(estimate_body_wrap_lines("a\n\nb", 10), 3);
    assert_eq!(estimate_body_wrap_lines("ああああああ", 10), 2);
    let res = ResponseItem {
        number: 5,
        name: "名無し</b>x<b>".to_string(),
        timestamp: "2024/01/01".to_string(),
        id: "ID:abc".to_string(),
        body: String::new(),
    };
    // "   5 名無しx" is 12 columns, the time 10, the ID 6, plus 4: 32
    assert_eq!(estimate_response_header_wrap_lines(&res, 8), 4);
    assert_eq!(estimate_response_header_wrap_lines(&res, 32), 1);
    assert_eq!(estimate_response_header_wrap_lines(&res, 31), 2);
}

fn board(name: &str, url: &str) -> BoardEntry {
    BoardEntry { board_name: name.to_string(), url: url.to_string(), directory_name: String::new() }
}

fn legacy(cat: &str, name: &str, url: &str) -> LegacyFlatBoardEntry {
    LegacyFlatBoardEntry {
        category_name: cat.to_string(),
        board_name: name.to_string(),
        url: url.to_string(),
        directory_name: String::new(),
    }
}

#[test]
fn legacy_menu_is_grouped_by_category() {
    let flat = vec![legacy("z", "1", "u1"), legacy("a", "2", "u2"), legacy("z", "3", "u3")];
    let cats = group_legacy_boards(flat);
    assert_eq!(cats.len(), 2);
    assert_eq!(cats[0].category_name, "a");
    assert_eq!(cats[1].category_name, "z");
    let names: Vec<&str> = cats[1].category_content.iter().map(|b| b.board_name.as_str()).collect();
    assert_eq!(names, vec!["1", "3"]);
}

#[test]
fn menu_layouts_in_order() {
    let current = vec![CategoryEntry { category_name: "c".to_string(), category_content: vec![board("b", "u")] }];
    let r = bbsmenu_from_parsed(Some(current), None, Some(vec![legacy("x", "y", "z")])).ok().unwrap();
    assert_eq!(r[0].category_name, "c");
    let r = bbsmenu_from_parsed(None, None, Some(vec![legacy("x", "y", "z")])).ok().unwrap();
    assert_eq!(r[0].category_name, "x");
    assert_eq!(bbsmenu_from_parsed(None, None, None).err(), Some("bbsmenu.json の形式が想定外です".to_string()));
}

#[test]
fn tree_and_categories() {
    let cats = vec![
        CategoryEntry { category_name: "A".to_string(), category_content: vec![board("b1", "u1"), board("b2", "u2")] },
        CategoryEntry { category_name: "B".to_string(), category_content: vec![board("b3", "u1")] },
    ];
    let mut open: StrMap<bool> = StrMap::new();
    open.insert("B".to_string(), true);
    let tree = build_tree_items(&cats, &open);
    assert_eq!(tree.len(), 2);
    assert!(!tree[0].expanded);
    assert!(tree[1].expanded);
    assert_eq!(tree[0].children.len(), 2);
    assert_eq!(tree[0].children[1].label, "b2");
    let m = board_categories(&cats);
    assert_eq!(m.get("u1").map(|s| s.as_str()), Some("B"));
    assert_eq!(m.get("u2").map(|s| s.as_str()), Some("A"));
    assert_eq!(m.get("u9"), None);
}

#[test]
fn saved_column_order_is_restored() {
    let defaults: Vec<String> = ["no", "title", "responses", "created_at", "momentum"].iter().map(|s| s.to_string()).collect();
    let saved: Vec<String> = ["momentum", "gone", "no"].iter().map(|s| s.to_string()).collect();
    let order = gooey::table::restored_column_order(&defaults, &saved);
    assert_eq!(order, vec![(4, Some(0)), (0, Some(2)), (1, None), (2, None), (3, None)]);
    assert_eq!(
        gooey::table::restored_column_order(&defaults, &Vec::new()),
        vec![(0, None), (1, None), (2, None), (3, None), (4, None)]
    );
}
