//! Mouse gestures and key bindings: the commands they trigger, their default
//! assignments, the trail a gesture leaves and the text shown for it.

use vstd::prelude::*;
use crate::strmap::StrMap;
use crate::textseq::{chars_of, extend_all, string_of, to_lower, lower};

verus! {

/// The list a gesture or a key acts on.
#[derive(Clone, Copy, PartialEq, Eq, Debug, Structural)]
pub enum GesturePane {
    ThreadList,
    ResponseList,
}

/// One stroke of a mouse gesture.
#[derive(Clone, Copy, PartialEq, Eq, Debug, Structural)]
pub enum GestureDirection {
    Up,
    Down,
    Left,
    Right,
}

/// What a mouse gesture does.
#[derive(Clone, Copy, PartialEq, Eq, Debug, Structural)]
pub enum MouseGestureCommand {
    Unassigned,
    ScrollTop,
    ScrollBottom,
    Refresh,
    Close,
    TabPrev,
    TabNext,
}

impl Default for MouseGestureCommand {
    fn default() -> (r: Self)
        ensures
            r == MouseGestureCommand::Unassigned,
    {
        MouseGestureCommand::Unassigned
    }
}

/// What a key does.
#[derive(Clone, Copy, PartialEq, Eq, Debug, Structural)]
pub enum KeyBindingCommand {
    Unassigned,
    PageUp,
    PageDown,
    ScrollTop,
    ScrollBottom,
    Refresh,
    Close,
}

impl Default for KeyBindingCommand {
    fn default() -> (r: Self)
        ensures
            r == KeyBindingCommand::Unassigned,
    {
        KeyBindingCommand::Unassigned
    }
}

/// The gesture assignments of one list, keyed by the gesture's direction
/// codes (`"u"`, `"dr"`, ...).
pub struct MouseGesturePaneBindings {
    pub commands: StrMap<MouseGestureCommand>,
}

/// The gesture assigned by default to a gesture key.
pub open spec fn default_gesture_command(k: Seq<char>) -> Option<MouseGestureCommand> {
    if k == "u"@ {
        Some(MouseGestureCommand::ScrollTop)
    } else if k == "d"@ {
        Some(MouseGestureCommand::ScrollBottom)
    } else if k == "l"@ {
        Some(MouseGestureCommand::TabPrev)
    } else if k == "r"@ {
        Some(MouseGestureCommand::TabNext)
    } else if k == "ud"@ {
        Some(MouseGestureCommand::Refresh)
    } else if k == "dr"@ {
        Some(MouseGestureCommand::Close)
    } else if k == "udr"@ {
        Some(MouseGestureCommand::Close)
    } else {
        None
    }
}

impl Default for MouseGesturePaneBindings {
    fn default() -> (r: Self)
        ensures
            r.commands.wf(),
            forall|k: Seq<char>| #[trigger] r.commands.lookup(k) == default_gesture_command(k),
    {
        let mut commands: StrMap<MouseGestureCommand> = StrMap::new();
        let ghost c0 = commands;
        proof {
            reveal_strlit("u");
            reveal_strlit("d");
            reveal_strlit("l");
            reveal_strlit("r");
            reveal_strlit("ud");
            reveal_strlit("dr");
            reveal_strlit("udr");
            assert("u"@.len() == 1 && "u"@[0] == 'u');
            assert("d"@.len() == 1 && "d"@[0] == 'd');
            assert("l"@.len() == 1 && "l"@[0] == 'l');
            assert("r"@.len() == 1 && "r"@[0] == 'r');
            assert("ud"@.len() == 2 && "ud"@[0] == 'u' && "ud"@[1] == 'd');
            assert("dr"@.len() == 2 && "dr"@[0] == 'd');
            assert("udr"@.len() == 3);
        }
        commands.insert("u".to_owned(), MouseGestureCommand::ScrollTop);
        let ghost c1 = commands;
        commands.insert("d".to_owned(), MouseGestureCommand::ScrollBottom);
        let ghost c2 = commands;
        commands.insert("l".to_owned(), MouseGestureCommand::TabPrev);
        let ghost c3 = commands;
        commands.insert("r".to_owned(), MouseGestureCommand::TabNext);
        let ghost c4 = commands;
        commands.insert("ud".to_owned(), MouseGestureCommand::Refresh);
        let ghost c5 = commands;
        commands.insert("dr".to_owned(), MouseGestureCommand::Close);
        let ghost c6 = commands;
        commands.insert("udr".to_owned(), MouseGestureCommand::Close);
        let ghost c7 = commands;
        assert forall|k: Seq<char>| #[trigger] commands.lookup(k) == default_gesture_command(k) by {
            let _ = (c0.lookup(k), c1.lookup(k), c2.lookup(k), c3.lookup(k), c4.lookup(k), c5.lookup(k), c6.lookup(k));
        }
        let r = MouseGesturePaneBindings { commands };
        r
    }
}

/// The mouse-gesture settings: whether gestures are on, and the assignments
/// of each list. (The stroke length that counts as a move is a distance in
/// pixels, kept by the program around this library.)
pub struct MouseGestureSettings {
    pub enabled: bool,
    pub thread: MouseGesturePaneBindings,
    pub response: MouseGesturePaneBindings,
}

impl Default for MouseGestureSettings {
    fn default() -> (r: Self)
        ensures
            r.enabled,
            r.thread.commands.wf(),
            r.response.commands.wf(),
            forall|k: Seq<char>| #[trigger] r.thread.commands.lookup(k) == default_gesture_command(k),
            forall|k: Seq<char>| #[trigger] r.response.commands.lookup(k) == default_gesture_command(
                k,
            ),
    {
        MouseGestureSettings {
            enabled: default_mouse_gesture_enabled(),
            thread: MouseGesturePaneBindings::default(),
            response: MouseGesturePaneBindings::default(),
        }
    }
}

/// Gestures are on unless the settings say otherwise.
pub fn default_mouse_gesture_enabled() -> (r: bool)
    ensures
        r,
{
    true
}

/// The key assignments of one list.
#[derive(Clone, Copy)]
pub struct KeyBindingPaneBindings {
    pub page_up: KeyBindingCommand,
    pub page_down: KeyBindingCommand,
    pub home: KeyBindingCommand,
    pub end: KeyBindingCommand,
    pub f5: KeyBindingCommand,
    pub ctrl_r: KeyBindingCommand,
    pub ctrl_w: KeyBindingCommand,
}

impl Default for KeyBindingPaneBindings {
    fn default() -> (r: Self)
        ensures
            r == (KeyBindingPaneBindings {
                page_up: KeyBindingCommand::PageUp,
                page_down: KeyBindingCommand::PageDown,
                home: KeyBindingCommand::ScrollTop,
                end: KeyBindingCommand::ScrollBottom,
                f5: KeyBindingCommand::Refresh,
                ctrl_r: KeyBindingCommand::Refresh,
                ctrl_w: KeyBindingCommand::Close,
            }),
    {
        KeyBindingPaneBindings {
            page_up: KeyBindingCommand::PageUp,
            page_down: KeyBindingCommand::PageDown,
            home: KeyBindingCommand::ScrollTop,
            end: KeyBindingCommand::ScrollBottom,
            f5: KeyBindingCommand::Refresh,
            ctrl_r: KeyBindingCommand::Refresh,
            ctrl_w: KeyBindingCommand::Close,
        }
    }
}

/// The key-binding settings: whether they are on, and the assignments of
/// each list.
#[derive(Clone, Copy)]
pub struct KeyBindingSettings {
    pub enabled: bool,
    pub thread: KeyBindingPaneBindings,
    pub response: KeyBindingPaneBindings,
}

impl Default for KeyBindingSettings {
    fn default() -> (r: Self)
        ensures
            r.enabled,
            r.thread == KeyBindingPaneBindings::default_spec(),
            r.response == KeyBindingPaneBindings::default_spec(),
    {
        KeyBindingSettings {
            enabled: default_key_binding_enabled(),
            thread: KeyBindingPaneBindings::default(),
            response: KeyBindingPaneBindings::default(),
        }
    }
}

impl KeyBindingPaneBindings {
    /// The default key assignments.
    pub open spec fn default_spec() -> Self {
        KeyBindingPaneBindings {
            page_up: KeyBindingCommand::PageUp,
            page_down: KeyBindingCommand::PageDown,
            home: KeyBindingCommand::ScrollTop,
            end: KeyBindingCommand::ScrollBottom,
            f5: KeyBindingCommand::Refresh,
            ctrl_r: KeyBindingCommand::Refresh,
            ctrl_w: KeyBindingCommand::Close,
        }
    }
}

/// Key bindings are on unless the settings say otherwise.
pub fn default_key_binding_enabled() -> (r: bool)
    ensures
        r,
{
    true
}

/// The letter a stroke is written with in a gesture key.
pub open spec fn code_of(d: GestureDirection) -> char {
    match d {
        GestureDirection::Up => 'u',
        GestureDirection::Down => 'd',
        GestureDirection::Left => 'l',
        GestureDirection::Right => 'r',
    }
}

/// The arrow a stroke is shown with.
pub open spec fn arrow_of(d: GestureDirection) -> char {
    match d {
        GestureDirection::Up => '↑',
        GestureDirection::Down => '↓',
        GestureDirection::Left => '←',
        GestureDirection::Right => '→',
    }
}

pub fn direction_code(direction: GestureDirection) -> (c: char)
    ensures
        c == code_of(direction),
{
    match direction {
        GestureDirection::Up => 'u',
        GestureDirection::Down => 'd',
        GestureDirection::Left => 'l',
        GestureDirection::Right => 'r',
    }
}

pub fn direction_label(direction: GestureDirection) -> (s: &'static str)
    ensures
        s@ == seq![arrow_of(direction)],
{
    proof {
        reveal_strlit("↑");
        reveal_strlit("↓");
        reveal_strlit("←");
        reveal_strlit("→");
    }
    match direction {
        GestureDirection::Up => "↑",
        GestureDirection::Down => "↓",
        GestureDirection::Left => "←",
        GestureDirection::Right => "→",
    }
}

/// The key of a gesture: the codes of its strokes, in order.
pub open spec fn sequence_key(trail: Seq<GestureDirection>) -> Seq<char> {
    trail.map_values(|d: GestureDirection| code_of(d))
}

/// The label of a gesture: the arrows of its strokes, in order.
pub open spec fn sequence_label(trail: Seq<GestureDirection>) -> Seq<char> {
    trail.map_values(|d: GestureDirection| arrow_of(d))
}

pub fn gesture_sequence_key(trail: &[GestureDirection]) -> (s: String)
    ensures
        s@ == sequence_key(trail@),
{
    let mut out: Vec<char> = Vec::new();
    let mut i: usize = 0;
    while i < trail.len()
        invariant
            i <= trail@.len(),
            out@ == sequence_key(trail@.take(i as int)),
        decreases trail@.len() - i,
    {
        out.push(direction_code(trail[i]));
        assert(trail@.take(i + 1) =~= trail@.take(i as int).push(trail@[i as int]));
        assert(out@ =~= sequence_key(trail@.take(i + 1)));
        i += 1;
    }
    assert(trail@.take(i as int) =~= trail@);
    string_of(&out)
}

pub fn gesture_sequence_label(trail: &[GestureDirection]) -> (s: String)
    ensures
        s@ == sequence_label(trail@),
{
    let mut out: Vec<char> = Vec::new();
    let mut i: usize = 0;
    while i < trail.len()
        invariant
            i <= trail@.len(),
            out@ == sequence_label(trail@.take(i as int)),
        decreases trail@.len() - i,
    {
        let label = chars_of(direction_label(trail[i]));
        extend_all(&mut out, &label);
        assert(trail@.take(i + 1) =~= trail@.take(i as int).push(trail@[i as int]));
        assert(out@ =~= sequence_label(trail@.take(i + 1)));
        i += 1;
    }
    assert(trail@.take(i as int) =~= trail@);
    string_of(&out)
}

/// The command a gesture key is assigned, `None` where it has none.
pub open spec fn gesture_command_of(bindings: StrMap<MouseGestureCommand>, key: Seq<char>) -> MouseGestureCommand {
    match bindings.lookup(key) {
        Some(c) => c,
        None => MouseGestureCommand::Unassigned,
    }
}

pub fn command_for_gesture(bindings: &MouseGesturePaneBindings, gesture_key: &str) -> (c:
    MouseGestureCommand)
    requires
        bindings.commands.wf(),
    ensures
        c == gesture_command_of(bindings.commands, gesture_key@),
{
    match bindings.commands.get(gesture_key) {
        Some(c) => *c,
        None => MouseGestureCommand::Unassigned,
    }
}

/// The command a key is assigned in one list, if the key is one that can be
/// assigned: with Control, `r` and `w`; without, `pageup`, `pagedown`,
/// `home`, `end` and `f5`.
pub open spec fn key_command_of(b: KeyBindingPaneBindings, control: bool, key: Seq<char>) -> Option<
    KeyBindingCommand,
> {
    if control {
        if key == "r"@ {
            Some(b.ctrl_r)
        } else if key == "w"@ {
            Some(b.ctrl_w)
        } else {
            None
        }
    } else if key == "pageup"@ {
        Some(b.page_up)
    } else if key == "pagedown"@ {
        Some(b.page_down)
    } else if key == "home"@ {
        Some(b.home)
    } else if key == "end"@ {
        Some(b.end)
    } else if key == "f5"@ {
        Some(b.f5)
    } else {
        None
    }
}

pub fn command_for_key(bindings: &KeyBindingPaneBindings, control: bool, key: &str) -> (r: Option<
    KeyBindingCommand,
>)
    ensures
        r == key_command_of(*bindings, control, key@),
{
    proof {
        reveal_strlit("r");
        reveal_strlit("w");
        reveal_strlit("pageup");
        reveal_strlit("pagedown");
        reveal_strlit("home");
        reveal_strlit("end");
        reveal_strlit("f5");
    }
    let k = chars_of(key);
    if control {
        if crate::strmap::eq_chars(&k, &chars_of("r")) {
            return Some(bindings.ctrl_r);
        }
        if crate::strmap::eq_chars(&k, &chars_of("w")) {
            return Some(bindings.ctrl_w);
        }
        return None;
    }
    if crate::strmap::eq_chars(&k, &chars_of("pageup")) {
        Some(bindings.page_up)
    } else if crate::strmap::eq_chars(&k, &chars_of("pagedown")) {
        Some(bindings.page_down)
    } else if crate::strmap::eq_chars(&k, &chars_of("home")) {
        Some(bindings.home)
    } else if crate::strmap::eq_chars(&k, &chars_of("end")) {
        Some(bindings.end)
    } else if crate::strmap::eq_chars(&k, &chars_of("f5")) {
        Some(bindings.f5)
    } else {
        None
    }
}

/// The name a gesture command is shown with.
pub open spec fn command_label_of(c: MouseGestureCommand) -> Seq<char> {
    match c {
        MouseGestureCommand::Unassigned => "(未割当)"@,
        MouseGestureCommand::ScrollTop => "先頭へ"@,
        MouseGestureCommand::ScrollBottom => "末尾へ"@,
        MouseGestureCommand::Refresh => "更新"@,
        MouseGestureCommand::Close => "閉じる"@,
        MouseGestureCommand::TabPrev => "前のタブ"@,
        MouseGestureCommand::TabNext => "次のタブ"@,
    }
}

pub fn gesture_command_label(command: MouseGestureCommand) -> (s: &'static str)
    ensures
        s@ == command_label_of(command),
{
    match command {
        MouseGestureCommand::Unassigned => "(未割当)",
        MouseGestureCommand::ScrollTop => "先頭へ",
        MouseGestureCommand::ScrollBottom => "末尾へ",
        MouseGestureCommand::Refresh => "更新",
        MouseGestureCommand::Close => "閉じる",
        MouseGestureCommand::TabPrev => "前のタブ",
        MouseGestureCommand::TabNext => "次のタブ",
    }
}

/// The trail after a stroke: the stroke is added unless it repeats the
/// last one.
pub open spec fn trail_after(trail: Seq<GestureDirection>, d: GestureDirection) -> Seq<
    GestureDirection,
> {
    if trail.len() > 0 && trail.last() == d {
        trail
    } else {
        trail.push(d)
    }
}

/// Adds a stroke to a gesture's trail unless it repeats the last stroke;
/// says whether the trail grew.
pub fn extend_trail(trail: &mut Vec<GestureDirection>, direction: GestureDirection) -> (changed:
    bool)
    ensures
        final(trail)@ == trail_after(old(trail)@, direction),
        changed == (final(trail)@ != old(trail)@),
        changed == !(old(trail)@.len() > 0 && old(trail)@.last() == direction),
{
    let n = trail.len();
    if n > 0 && trail[n - 1] == direction {
        false
    } else {
        trail.push(direction);
        assert(trail@.len() != old(trail)@.len());
        true
    }
}

/// The status text shown while and after a gesture is drawn.
pub open spec fn gesture_status(trail: Seq<GestureDirection>, c: MouseGestureCommand) -> Seq<char> {
    "ジェスチャ: "@ + sequence_label(trail) + seq![' '] + command_label_of(c)
}

pub fn gesture_status_text(trail: &[GestureDirection], command: MouseGestureCommand) -> (s: String)
    ensures
        s@ == gesture_status(trail@, command),
{
    let mut out = chars_of("ジェスチャ: ");
    let label = chars_of(gesture_sequence_label(trail).as_str());
    extend_all(&mut out, &label);
    out.push(' ');
    let cmd = chars_of(gesture_command_label(command));
    extend_all(&mut out, &cmd);
    string_of(&out)
}

/// The gesture assignments of a list.
pub fn gesture_bindings_for(settings: &MouseGestureSettings, pane: GesturePane) -> (b:
    &MouseGesturePaneBindings)
    ensures
        b == (match pane {
            GesturePane::ThreadList => &settings.thread,
            GesturePane::ResponseList => &settings.response,
        }),
{
    match pane {
        GesturePane::ThreadList => &settings.thread,
        GesturePane::ResponseList => &settings.response,
    }
}

/// The key assignments of a list.
pub fn key_bindings_for(settings: &KeyBindingSettings, pane: GesturePane) -> (b:
    KeyBindingPaneBindings)
    ensures
        b == (match pane {
            GesturePane::ThreadList => settings.thread,
            GesturePane::ResponseList => settings.response,
        }),
{
    match pane {
        GesturePane::ThreadList => settings.thread,
        GesturePane::ResponseList => settings.response,
    }
}

/// The key of a key event as bindings are looked up by: lower-cased.
pub fn normalized_key(key: &str) -> (k: String)
    ensures
        k@ == lower(key@),
{
    let v = chars_of(key);
    string_of(&to_lower(&v))
}

/// Gesture settings as read from disk: a list whose assignments are empty
/// gets the default ones.
pub fn with_default_bindings(settings: MouseGestureSettings) -> (r: MouseGestureSettings)
    requires
        settings.thread.commands.wf(),
        settings.response.commands.wf(),
    ensures
        r.enabled == settings.enabled,
        r.thread.commands.wf(),
        r.response.commands.wf(),
        settings.thread.commands.keys().len() > 0 ==> r.thread == settings.thread,
        settings.thread.commands.keys().len() == 0 ==> forall|k: Seq<char>| #[trigger] r.thread.commands.lookup(k) == default_gesture_command(k),
        settings.response.commands.keys().len() > 0 ==> r.response == settings.response,
        settings.response.commands.keys().len() == 0 ==> forall|k: Seq<char>| #[trigger] r.response.commands.lookup(k) == default_gesture_command(k),
{
    let MouseGestureSettings { enabled, thread, response } = settings;
    let thread = if thread.commands.is_empty() {
        MouseGesturePaneBindings::default()
    } else {
        thread
    };
    let response = if response.commands.is_empty() {
        MouseGesturePaneBindings::default()
    } else {
        response
    };
    MouseGestureSettings { enabled, thread, response }
}

} // verus!
