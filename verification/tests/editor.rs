use modal_editor::client::console::{
    IncomingConsoleEvent, KeyCode, KeyEvent, KeyEventKind, OutcomingConsoleEvent,
};
use modal_editor::client::{
    Action, Container, CursorStyle, DrawAction, Mode, Movement, Redraw,
};
use modal_editor::module::editor::vector::CharVectorEditor;
use modal_editor::module::editor::{
    get_cursor_style, insert_mode_keybinding, normal_mode_keybinding, Editor, EditorContentTrait,
};
use modal_editor::module::{ModuleEvent, ModuleView};

fn press(code: KeyCode) -> IncomingConsoleEvent {
    IncomingConsoleEvent::Key(KeyEvent { code, kind: KeyEventKind::Press })
}

fn key(code: KeyCode) -> KeyEvent {
    KeyEvent { code, kind: KeyEventKind::Press }
}

/// An editor on `text` in a window of 80 columns and 24 rows.
fn editor(text: &str) -> CharVectorEditor {
    let mut e: CharVectorEditor = Editor::new();
    e.on_event(IncomingConsoleEvent::File(String::from("file"), Some(text.as_bytes().to_vec())));
    e.on_resize(0, 80, 24, 0);
    e
}

fn text_of(e: &CharVectorEditor) -> String {
    let mut out = Vec::new();
    e.content.read_data(&mut out);
    String::from_utf8(out).unwrap()
}

fn numbered_lines(n: u32) -> String {
    (1..=n).map(|i| format!("L{}\n", i)).collect()
}

fn gutter(e: &CharVectorEditor) -> u32 {
    e.get_offset()
}

fn cursor_is_in_line(e: &CharVectorEditor) -> bool {
    match e.content.get_line_len(e.render_row) {
        Some(n) => e.render_col <= n,
        None => true,
    }
}

fn cursor_is_in_window(e: &CharVectorEditor) -> bool {
    e.view.top <= e.render_row
        && e.render_row <= e.view.bottom
        && e.view.left <= e.render_col
        && e.render_col + gutter(e) <= e.view.right
}

#[test]
fn a_new_editor_is_empty_and_in_normal_mode() {
    let e: CharVectorEditor = Editor::new();
    assert_eq!(e.file_path, None);
    assert_eq!((e.row, e.col, e.render_row, e.render_col), (0, 0, 0, 0));
    assert_eq!(e.mode, Mode::Normal);
    assert_eq!(e.should_redraw, None);
    assert_eq!(e.view, Container { top: 0, right: 0, bottom: 0, left: 0 });
    assert!(e.line_numbered);
    assert_eq!(e.get_offset(), 6);
    assert_eq!(text_of(&e), "");
    assert_eq!(*e.get_container(), e.view);
}

#[test]
fn typing_a_character_in_insert_mode() {
    let mut e = editor("hello\n");
    e.mode = Mode::Insert;
    let events = e.on_event(press(KeyCode::Char('X')));
    assert_eq!(events, None);
    assert_eq!(text_of(&e), "Xhello\n");
    assert_eq!((e.row, e.col), (0, 1));
    assert_eq!((e.render_row, e.render_col), (0, 1));
    assert_eq!(e.should_redraw, Some(Redraw::Line(0, String::from("Xhello"))));
}

#[test]
fn moving_right_at_the_end_of_a_line_wraps() {
    let mut e = editor("ab\ncd\n");
    e.col = 2;
    e.render_col = 2;
    e.on_event(press(KeyCode::Char('l')));
    assert_eq!((e.row, e.col), (1, 0));
    assert_eq!((e.render_row, e.render_col), (1, 0));
    assert_eq!(e.should_redraw, Some(Redraw::Cursor));
}

#[test]
fn moving_down_at_the_bottom_scrolls() {
    let mut e = editor(&numbered_lines(30));
    e.on_resize(0, 80, 10, 0);
    assert_eq!((e.view.top, e.view.bottom), (0, 9));
    e.row = 9;
    e.render_row = 9;
    e.on_event(press(KeyCode::Char('j')));
    assert_eq!(e.view.top, 1);
    assert_eq!(e.view.bottom, 10);
    assert_eq!(e.should_redraw, Some(Redraw::All));
    assert_eq!(e.row, 10);
    assert_eq!(e.render_row, 10);
    assert_eq!(e.render_row - e.view.top, 9);
    let plan = e.on_draw().unwrap();
    assert_eq!(plan.last(), Some(&DrawAction::CursorTo(6, 9, CursorStyle::SteadyBlock)));
}

#[test]
fn moving_up_at_the_top_scrolls_back() {
    let mut e = editor(&numbered_lines(30));
    e.on_resize(0, 80, 10, 0);
    e.trigger_actions(&vec![Action::ScrollBy(5)]);
    assert_eq!((e.view.top, e.view.bottom), (5, 14));
    assert_eq!(e.render_row, 5);
    assert_eq!(e.row, 0);
    assert_eq!(e.should_redraw, Some(Redraw::All));
    e.trigger_actions(&vec![Action::Move(Movement::Up)]);
    assert_eq!((e.view.top, e.view.bottom), (4, 13));
    assert_eq!((e.row, e.render_row), (4, 4));
    assert_eq!(e.should_redraw, Some(Redraw::All));
}

#[test]
fn scrolling_stops_at_the_first_row() {
    let mut e = editor(&numbered_lines(30));
    e.on_resize(0, 80, 10, 0);
    e.trigger_actions(&vec![Action::ScrollBy(-3)]);
    assert_eq!((e.view.top, e.view.bottom), (0, 9));
    e.trigger_actions(&vec![Action::ScrollBy(4), Action::ScrollBy(-1)]);
    assert_eq!((e.view.top, e.view.bottom), (3, 12));
    assert_eq!((e.view.left, e.view.right), (0, 79));
}

#[test]
fn scrolling_stops_at_the_last_coordinate() {
    let mut e = editor("a\n");
    e.on_resize(0, 80, 10, 0);
    for _ in 0..3 {
        e.trigger_actions(&vec![Action::ScrollBy(i32::MAX)]);
    }
    assert_eq!((e.view.top, e.view.bottom), (u32::MAX - 9, u32::MAX));
    assert_eq!(e.render_row, u32::MAX - 9);
}

#[test]
fn the_column_is_remembered_across_a_short_line() {
    let mut e = editor("a long line\nab\nanother long line\n");
    e.trigger_actions(&vec![Action::Move(Movement::LineEnd)]);
    assert_eq!((e.col, e.render_col), (11, 11));
    e.trigger_actions(&vec![Action::Move(Movement::Down)]);
    assert_eq!((e.row, e.col, e.render_col), (1, 11, 2));
    e.trigger_actions(&vec![Action::Move(Movement::Down)]);
    assert_eq!((e.row, e.col, e.render_col), (2, 11, 11));
    e.trigger_actions(&vec![Action::Move(Movement::Up), Action::Move(Movement::Left)]);
    assert_eq!((e.row, e.col, e.render_col), (1, 1, 1));
}

#[test]
fn moving_left_at_the_start_of_a_line_wraps_to_the_end_of_the_line_before() {
    let mut e = editor("abc\nde\n");
    e.trigger_actions(&vec![Action::Move(Movement::Down)]);
    assert_eq!((e.row, e.col), (1, 0));
    e.trigger_actions(&vec![Action::Move(Movement::Left)]);
    assert_eq!((e.row, e.col, e.render_col), (0, 3, 3));
    e.trigger_actions(&vec![Action::Move(Movement::LineStart), Action::Move(Movement::Left)]);
    assert_eq!((e.row, e.col, e.render_col), (0, 0, 0));
}

#[test]
fn moving_down_behind_the_last_line_rolls_back() {
    let mut e = editor("ab\ncd");
    e.trigger_actions(&vec![Action::Move(Movement::Down), Action::Move(Movement::Down)]);
    assert_eq!((e.row, e.render_row), (1, 1));
    e.trigger_actions(&vec![Action::Move(Movement::LineEnd), Action::Move(Movement::Right)]);
    assert_eq!((e.row, e.col, e.render_col), (1, 0, 0));
}

#[test]
fn a_long_line_scrolls_the_window_sideways() {
    let long: String = std::iter::repeat('x').take(200).collect();
    let mut e = editor(&long);
    e.trigger_actions(&vec![Action::Move(Movement::LineEnd)]);
    assert_eq!((e.col, e.render_col), (200, 200));
    assert_eq!((e.view.left, e.view.right), (127, 206));
    assert_eq!(e.should_redraw, Some(Redraw::All));
    e.trigger_actions(&vec![Action::Move(Movement::LineStart)]);
    assert_eq!((e.view.left, e.view.right), (0, 79));
    assert_eq!(e.render_col, 0);
}

#[test]
fn the_cursor_stays_in_its_line_and_in_the_window() {
    let text = "first line of some length\n\nab\nthe fourth\n";
    let moves = [
        Movement::Down,
        Movement::LineEnd,
        Movement::Up,
        Movement::Right,
        Movement::Down,
        Movement::Down,
        Movement::Left,
        Movement::Down,
        Movement::Down,
        Movement::Down,
        Movement::LineStart,
        Movement::Up,
        Movement::LineEnd,
        Movement::Right,
    ];
    for numbered in [true, false] {
        for (w, h) in [(80u32, 24u32), (10, 2), (7, 1)] {
            let mut e = editor(text);
            e.line_numbered = numbered;
            e.on_resize(0, w, h, 0);
            for m in moves {
                e.trigger_actions(&vec![Action::Move(m)]);
                assert!(cursor_is_in_line(&e));
                assert!(cursor_is_in_window(&e));
                e.trigger_actions(&vec![Action::InsertChar('z')]);
                assert!(cursor_is_in_line(&e));
                assert!(cursor_is_in_window(&e));
                e.trigger_actions(&vec![Action::Backspace]);
                assert!(cursor_is_in_line(&e));
                assert!(cursor_is_in_window(&e));
                e.trigger_actions(&vec![Action::Delete]);
                assert!(cursor_is_in_line(&e));
                assert!(cursor_is_in_window(&e));
                for steps in [1, 2, -1, -3] {
                    e.trigger_actions(&vec![Action::ScrollBy(steps)]);
                    assert!(cursor_is_in_line(&e));
                    assert!(cursor_is_in_window(&e));
                }
            }
        }
    }
}

#[test]
fn a_line_end_on_a_row_behind_the_text_lands_in_the_last_line() {
    let mut e = editor("ab\n");
    e.on_resize(0, 80, 9, 0);
    e.trigger_actions(&vec![Action::ScrollBy(2), Action::Move(Movement::Down)]);
    assert_eq!((e.row, e.render_row), (2, 2));
    e.trigger_actions(&vec![Action::ScrollBy(-1), Action::ScrollBy(-1)]);
    assert_eq!((e.view.top, e.row), (0, 2));
    e.trigger_actions(&vec![Action::Move(Movement::LineEnd)]);
    assert_eq!((e.row, e.render_row, e.render_col), (1, 1, 0));
    assert!(cursor_is_in_line(&e));
}

#[test]
fn inserting_a_newline_redraws_everything() {
    let mut e = editor("abcd\n");
    e.trigger_actions(&vec![
        Action::Move(Movement::Right),
        Action::Move(Movement::Right),
        Action::InsertChar('\n'),
    ]);
    assert_eq!(text_of(&e), "ab\ncd\n");
    assert_eq!((e.row, e.col), (1, 0));
    assert_eq!(e.should_redraw, Some(Redraw::All));
}

#[test]
fn backspace_at_the_origin_does_nothing() {
    let mut e = editor("ab\n");
    e.trigger_actions(&vec![Action::Backspace]);
    assert_eq!(text_of(&e), "ab\n");
    assert_eq!((e.row, e.col), (0, 0));
    assert_eq!(e.should_redraw, Some(Redraw::Cursor));
}

#[test]
fn backspace_removes_the_character_before_the_cursor() {
    let mut e = editor("abc\n");
    e.trigger_actions(&vec![Action::Move(Movement::Right), Action::Move(Movement::Right)]);
    e.trigger_actions(&vec![Action::Backspace]);
    assert_eq!(text_of(&e), "ac\n");
    assert_eq!((e.row, e.col), (0, 1));
    assert_eq!(e.should_redraw, Some(Redraw::Line(0, String::from("ac"))));
}

#[test]
fn backspace_at_the_start_of_a_line_joins_it_to_the_line_before() {
    let mut e = editor("ab\ncd\n");
    e.trigger_actions(&vec![Action::Move(Movement::Down), Action::Backspace]);
    assert_eq!(text_of(&e), "abcd\n");
    assert_eq!((e.row, e.col), (0, 2));
    assert_eq!(e.should_redraw, Some(Redraw::All));
}

#[test]
fn delete_removes_the_character_under_the_cursor() {
    let mut e = editor("abc\nd\n");
    e.trigger_actions(&vec![Action::Delete]);
    assert_eq!(text_of(&e), "bc\nd\n");
    assert_eq!(e.should_redraw, Some(Redraw::Line(0, String::from("bc"))));
    e.trigger_actions(&vec![Action::Move(Movement::LineEnd), Action::Delete]);
    assert_eq!(text_of(&e), "bcd\n");
    assert_eq!(e.should_redraw, Some(Redraw::All));
}

#[test]
fn resize_keeps_the_corner_of_the_window() {
    let mut e = editor(&numbered_lines(30));
    e.trigger_actions(&vec![Action::ScrollBy(3)]);
    e.trigger_actions(&vec![Action::Resize(2, 42, 12, 2)]);
    assert_eq!(e.view, Container { top: 3, right: 39, bottom: 12, left: 0 });
    assert_eq!(e.should_redraw, Some(Redraw::All));
    e.trigger_actions(&vec![Action::Resize(5, 1, 5, 9)]);
    assert_eq!(e.view, Container { top: 3, right: 0, bottom: 3, left: 0 });
}

#[test]
fn changing_the_mode_tells_the_host() {
    let mut e = editor("ab\n");
    let events = e.on_event(press(KeyCode::Char('i')));
    assert_eq!(events, Some(vec![OutcomingConsoleEvent::ChangeMode(Mode::Insert)]));
    assert_eq!(e.mode, Mode::Insert);
    assert_eq!(e.should_redraw, Some(Redraw::Cursor));
    let events = e.on_event(press(KeyCode::Esc));
    assert_eq!(events, Some(vec![OutcomingConsoleEvent::ChangeMode(Mode::Normal)]));
    assert_eq!(e.mode, Mode::Normal);
}

#[test]
fn append_at_the_end_of_the_line() {
    let mut e = editor("ab\n");
    let events = e.on_event(press(KeyCode::Char('A')));
    assert_eq!(events, Some(vec![OutcomingConsoleEvent::ChangeMode(Mode::Insert)]));
    assert_eq!((e.row, e.col, e.render_col), (0, 2, 2));
    e.on_event(press(KeyCode::Char('c')));
    assert_eq!(text_of(&e), "abc\n");
}

#[test]
fn saving_hands_the_bytes_to_the_host() {
    let mut e = editor("a\r\nb\r\n");
    let events = e.on_event(press(KeyCode::Char('s')));
    assert_eq!(
        events,
        Some(vec![OutcomingConsoleEvent::WriteFile(String::from("file"), b"a\r\nb\r\n".to_vec())])
    );
    assert_eq!(e.should_redraw, None);
}

#[test]
fn saving_without_a_file_is_reported() {
    let mut e: CharVectorEditor = Editor::new();
    let events = e.trigger_actions(&vec![Action::SaveFile]);
    assert_eq!(
        events,
        Some(vec![OutcomingConsoleEvent::Message(
            String::from("editor"),
            String::from("there isn't any file opened!")
        )])
    );
}

#[test]
fn a_file_that_cannot_be_read_leaves_the_buffer_empty() {
    let mut e = editor("old\n");
    let events = e.on_event(IncomingConsoleEvent::File(String::from("gone"), None));
    assert_eq!(
        events,
        Some(vec![OutcomingConsoleEvent::Message(
            String::from("editor"),
            String::from("the file could not be read")
        )])
    );
    assert_eq!(text_of(&e), "");
    assert_eq!(e.file_path, Some(String::from("gone")));
}

#[test]
fn keys_in_a_mode_without_bindings_are_reported() {
    for mode in [Mode::Visual, Mode::Command] {
        let mut e = editor("ab\n");
        e.mode = mode;
        let events = e.on_event(press(KeyCode::Char('x')));
        assert_eq!(
            events,
            Some(vec![OutcomingConsoleEvent::Message(
                String::from("editor"),
                String::from("this mode has no key bindings")
            )])
        );
        assert_eq!(text_of(&e), "ab\n");
        assert_eq!(e.convert_key_to_actions(key(KeyCode::Enter)), None);
    }
}

#[test]
fn other_actions_only_ask_for_the_cursor() {
    for action in [
        Action::Quit,
        Action::Noop,
        Action::OpenFile(String::from("x")),
        Action::WriteFile(String::from("x")),
    ] {
        let mut e = editor("ab\n");
        assert_eq!(e.trigger_actions(&vec![action]), None);
        assert_eq!(e.should_redraw, Some(Redraw::Cursor));
        assert_eq!(text_of(&e), "ab\n");
    }
    let mut e = editor("ab\n");
    e.trigger_actions(&vec![Action::Move(Movement::Right)]);
    assert_eq!(e.trigger_actions(&vec![]), None);
    assert_eq!(e.should_redraw, None);
}

#[test]
fn a_resize_event_is_not_for_the_editor() {
    let mut e = editor("ab\n");
    let before = e.view;
    assert_eq!(e.on_event(IncomingConsoleEvent::Resize(10, 10)), None);
    assert_eq!(e.view, before);
}

#[test]
fn normal_mode_key_bindings() {
    let one = |c: char| normal_mode_keybinding(key(KeyCode::Char(c)));
    assert_eq!(one('h'), vec![Action::Move(Movement::Left)]);
    assert_eq!(one('j'), vec![Action::Move(Movement::Down)]);
    assert_eq!(one('k'), vec![Action::Move(Movement::Up)]);
    assert_eq!(one('l'), vec![Action::Move(Movement::Right)]);
    assert_eq!(one('i'), vec![Action::ChangeMode(Mode::Insert)]);
    assert_eq!(
        one('I'),
        vec![Action::Move(Movement::LineStart), Action::ChangeMode(Mode::Insert)]
    );
    assert_eq!(one('a'), vec![Action::Move(Movement::Right), Action::ChangeMode(Mode::Insert)]);
    assert_eq!(one('A'), vec![Action::Move(Movement::LineEnd), Action::ChangeMode(Mode::Insert)]);
    assert_eq!(one('s'), vec![Action::SaveFile]);
    assert_eq!(one(':'), vec![Action::ChangeMode(Mode::Command)]);
    assert_eq!(one('q'), vec![Action::Quit]);
    assert_eq!(one('z'), vec![Action::Noop]);
    let other = |code: KeyCode| normal_mode_keybinding(key(code));
    assert_eq!(other(KeyCode::Esc), vec![Action::Quit]);
    assert_eq!(other(KeyCode::PageUp), vec![Action::ScrollBy(-1)]);
    assert_eq!(other(KeyCode::PageDown), vec![Action::ScrollBy(1)]);
    assert_eq!(other(KeyCode::Enter), vec![Action::Move(Movement::Down)]);
    assert_eq!(other(KeyCode::Backspace), vec![Action::Move(Movement::Left)]);
    assert_eq!(other(KeyCode::Up), vec![Action::Move(Movement::Up)]);
    assert_eq!(other(KeyCode::Down), vec![Action::Move(Movement::Down)]);
    assert_eq!(other(KeyCode::Left), vec![Action::Move(Movement::Left)]);
    assert_eq!(other(KeyCode::Right), vec![Action::Move(Movement::Right)]);
    assert_eq!(other(KeyCode::Delete), vec![Action::Noop]);
    assert_eq!(other(KeyCode::Other), vec![Action::Noop]);
}

#[test]
fn insert_mode_key_bindings() {
    let of = |code: KeyCode| insert_mode_keybinding(key(code));
    assert_eq!(of(KeyCode::Char('q')), vec![Action::InsertChar('q')]);
    assert_eq!(of(KeyCode::Enter), vec![Action::InsertChar('\n')]);
    assert_eq!(of(KeyCode::Backspace), vec![Action::Backspace]);
    assert_eq!(of(KeyCode::Delete), vec![Action::Delete]);
    assert_eq!(of(KeyCode::Esc), vec![Action::ChangeMode(Mode::Normal)]);
    assert_eq!(of(KeyCode::Up), vec![Action::Move(Movement::Up)]);
    assert_eq!(of(KeyCode::Down), vec![Action::Move(Movement::Down)]);
    assert_eq!(of(KeyCode::Left), vec![Action::Move(Movement::Left)]);
    assert_eq!(of(KeyCode::Right), vec![Action::Move(Movement::Right)]);
    assert_eq!(of(KeyCode::PageUp), vec![Action::Noop]);
    assert_eq!(of(KeyCode::Other), vec![Action::Noop]);
}

#[test]
fn cursor_styles_by_mode() {
    assert_eq!(get_cursor_style(Mode::Normal), CursorStyle::SteadyBlock);
    assert_eq!(get_cursor_style(Mode::Insert), CursorStyle::BlinkingBar);
    assert_eq!(get_cursor_style(Mode::Visual), CursorStyle::SteadyUnderScore);
    assert_eq!(get_cursor_style(Mode::Command), CursorStyle::BlinkingBar);
}

#[test]
fn nothing_is_drawn_without_a_pending_redraw() {
    let e: CharVectorEditor = Editor::new();
    assert_eq!(e.on_draw(), None);
    let mut e = editor("ab\n");
    assert_eq!(e.should_redraw, Some(Redraw::All));
    e.should_redraw = None;
    assert_eq!(e.on_draw(), None);
}

#[test]
fn the_plan_depends_on_the_pending_redraw_alone() {
    let mut e: CharVectorEditor = Editor::new();
    assert_eq!(e.file_path, None);
    e.should_redraw = Some(Redraw::Cursor);
    assert_eq!(e.on_draw(), Some(vec![DrawAction::CursorTo(6, 0, CursorStyle::SteadyBlock)]));
    e.should_redraw = Some(Redraw::All);
    assert_eq!(
        e.on_draw(),
        Some(vec![
            DrawAction::AskRedraw(Redraw::Line(0, String::from(" "))),
            DrawAction::CursorTo(6, 0, CursorStyle::SteadyBlock),
        ])
    );
    e.on_resize(0, 10, 1, 0);
    e.trigger_actions(&vec![Action::InsertChar('x')]);
    assert_eq!(
        e.on_draw(),
        Some(vec![
            DrawAction::AskRedraw(Redraw::Line(0, String::from("   1  x   "))),
            DrawAction::CursorTo(7, 0, CursorStyle::SteadyBlock),
        ])
    );
}

#[test]
fn scrolling_brings_the_rendered_column_into_the_window() {
    let short: String = std::iter::repeat('a').take(10).collect();
    let long: String = std::iter::repeat('b').take(300).collect();
    let mut e = editor(&format!("{}\n{}\n", short, long));
    e.line_numbered = false;
    e.on_resize(0, 80, 10, 0);
    e.view.left = 10;
    e.view.right = 89;
    e.col = 200;
    e.render_col = 10;
    e.trigger_actions(&vec![Action::ScrollBy(1)]);
    assert_eq!((e.view.top, e.view.bottom), (1, 10));
    assert_eq!((e.row, e.col), (0, 200));
    assert_eq!((e.render_row, e.render_col), (1, 200));
    assert_eq!((e.view.left, e.view.right), (121, 200));
    assert_eq!(e.should_redraw, Some(Redraw::All));
    assert!(cursor_is_in_line(&e));
    assert!(cursor_is_in_window(&e));
    e.trigger_actions(&vec![Action::ScrollBy(-1)]);
    assert_eq!((e.render_row, e.render_col), (0, 10));
    assert_eq!((e.view.left, e.view.right), (10, 89));
    e.col = 3;
    e.trigger_actions(&vec![Action::ScrollBy(1)]);
    assert_eq!((e.render_row, e.render_col), (1, 3));
    assert_eq!((e.view.left, e.view.right), (3, 82));
    assert!(cursor_is_in_window(&e));
}

#[test]
fn rows_with_other_than_plain_text_are_cut_and_filled_by_characters() {
    let mut e: CharVectorEditor = Editor::new();
    e.on_event(IncomingConsoleEvent::File(
        String::from("file"),
        Some(b"h\xe9llo w\xf6rld\n\xe9\n".to_vec()),
    ));
    e.line_numbered = false;
    e.on_resize(0, 8, 2, 0);
    assert_eq!(
        e.on_draw(),
        Some(vec![
            DrawAction::AskRedraw(Redraw::Line(0, String::from("h\u{e9}llo w\u{f6}"))),
            DrawAction::AskRedraw(Redraw::Line(1, String::from("\u{e9}       "))),
            DrawAction::CursorTo(0, 0, CursorStyle::SteadyBlock),
        ])
    );
}

#[test]
fn drawing_the_cursor_alone() {
    let mut e = editor("abc\n");
    e.trigger_actions(&vec![Action::Move(Movement::Right)]);
    assert_eq!(e.on_draw(), Some(vec![DrawAction::CursorTo(7, 0, CursorStyle::SteadyBlock)]));
    e.line_numbered = false;
    e.mode = Mode::Insert;
    assert_eq!(e.on_draw(), Some(vec![DrawAction::CursorTo(1, 0, CursorStyle::BlinkingBar)]));
}

#[test]
fn drawing_one_line() {
    let mut e = editor("abc\ndef\n");
    e.trigger_actions(&vec![Action::Move(Movement::Down), Action::InsertChar('x')]);
    assert_eq!(
        e.on_draw(),
        Some(vec![
            DrawAction::AskRedraw(Redraw::Line(1, format!("{:<80}", "   2  xdef"))),
            DrawAction::CursorTo(7, 1, CursorStyle::SteadyBlock),
        ])
    );
}

#[test]
fn drawing_everything() {
    let mut e = editor("ab\ncd");
    e.on_resize(0, 20, 4, 0);
    let plan = e.on_draw().unwrap();
    assert_eq!(plan.len(), 5);
    assert_eq!(plan[0], DrawAction::AskRedraw(Redraw::Line(0, format!("{:<20}", "   1  ab"))));
    assert_eq!(plan[1], DrawAction::AskRedraw(Redraw::Line(1, format!("{:<20}", "   2  cd"))));
    for (y, label) in [(2u32, "   3  "), (3, "   4  ")] {
        match &plan[y as usize] {
            DrawAction::AskRedraw(Redraw::Line(at, shown)) => {
                assert_eq!(*at, y);
                assert_ne!(*shown, format!("{:<20}", label));
                let colored: String =
                    format!("\u{1b}[38;5;8m{}\u{1b}[39m", label).chars().take(20).collect();
                let plain = format!("{:<20}", format!("\u{1b}[m{}\u{1b}[m", label));
                let nothing = format!("{:<20}", "");
                assert!(*shown == colored || *shown == plain || *shown == nothing);
                assert!(shown.contains(label) || *shown == nothing);
            }
            other => panic!("unexpected intent {:?}", other),
        }
    }
    assert_eq!(plan[4], DrawAction::CursorTo(6, 0, CursorStyle::SteadyBlock));
}

#[test]
fn drawing_everything_without_line_numbers() {
    let mut e = editor("ab\n");
    e.line_numbered = false;
    e.on_resize(0, 20, 3, 0);
    assert_eq!(
        e.on_draw(),
        Some(vec![
            DrawAction::AskRedraw(Redraw::Line(0, format!("{:<20}", "ab"))),
            DrawAction::AskRedraw(Redraw::Line(1, format!("{:<20}", ""))),
            DrawAction::AskRedraw(Redraw::Line(2, format!("{:<20}", ""))),
            DrawAction::CursorTo(0, 0, CursorStyle::SteadyBlock),
        ])
    );
}

#[test]
fn drawing_cuts_lines_at_the_left_edge_of_the_window() {
    let long: String = std::iter::repeat('x').take(100).collect();
    let mut e = editor(&format!("{}\nshort\n", long));
    e.line_numbered = false;
    e.on_resize(0, 20, 2, 0);
    e.trigger_actions(&vec![Action::Move(Movement::LineEnd)]);
    assert_eq!((e.view.left, e.view.right), (81, 100));
    let plan = e.on_draw().unwrap();
    let rest: String = std::iter::repeat('x').take(19).collect();
    assert_eq!(plan[0], DrawAction::AskRedraw(Redraw::Line(0, format!("{:<20}", rest))));
    assert_eq!(plan[1], DrawAction::AskRedraw(Redraw::Line(1, format!("{:<20}", ""))));
    assert_eq!(plan[2], DrawAction::CursorTo(19, 0, CursorStyle::SteadyBlock));
}

#[test]
fn drawing_cuts_rows_to_the_width_of_the_window() {
    let mut e = editor("a line that is longer than the window\n");
    e.on_resize(0, 12, 1, 0);
    assert_eq!(
        e.on_draw(),
        Some(vec![
            DrawAction::AskRedraw(Redraw::Line(0, String::from("   1  a line"))),
            DrawAction::CursorTo(6, 0, CursorStyle::SteadyBlock),
        ])
    );
}

#[test]
fn a_range_redraw_is_passed_on_to_the_host() {
    let mut e = editor("ab\n");
    e.should_redraw = Some(Redraw::Range(1, 2));
    assert_eq!(
        e.on_draw(),
        Some(vec![
            DrawAction::AskRedraw(Redraw::Range(1, 2)),
            DrawAction::CursorTo(6, 0, CursorStyle::SteadyBlock),
        ])
    );
}

#[test]
fn cursor_primitives() {
    let mut e = editor("abc\ndef\n");
    e.write_char('x');
    assert_eq!(text_of(&e), "xabc\ndef\n");
    assert_eq!(e.delete_char(), Some('x'));
    e.move_cursor(Movement::LineEnd);
    assert_eq!((e.col, e.render_col), (3, 3));
    assert_eq!(e.should_redraw, Some(Redraw::Cursor));
    e.scroll_to(2, 1);
    assert_eq!(e.view, Container { top: 1, right: 81, bottom: 24, left: 2 });
    assert_eq!((e.render_row, e.render_col), (1, 3));
    e.render_col = 0;
    e.goto_cursor();
    assert_eq!(e.view, Container { top: 1, right: 79, bottom: 24, left: 0 });
    assert_eq!(e.should_redraw, Some(Redraw::All));
    e.scroll_to(-5, -5);
    assert_eq!(e.view, Container { top: 0, right: 79, bottom: 23, left: 0 });
}
