use modal_editor::client::console::{
    IncomingConsoleEvent, KeyCode, KeyEvent, KeyEventKind, OutcomingConsoleEvent,
};
use modal_editor::client::{Action, Container, CursorStyle, DrawAction, Mode, Movement, Redraw};
use modal_editor::module::command::CommandModule;
use modal_editor::module::{ModuleEvent, ModuleView};

fn press(code: KeyCode) -> IncomingConsoleEvent {
    IncomingConsoleEvent::Key(KeyEvent { code, kind: KeyEventKind::Press })
}

fn typed(text: &str) -> CommandModule {
    let mut m = CommandModule::new();
    for c in text.chars() {
        assert_eq!(m.on_event(press(KeyCode::Char(c))), None);
    }
    m
}

#[test]
fn a_new_prompt_is_empty() {
    let m = CommandModule::new();
    assert_eq!((m.width, m.render_col), (0, 0));
    assert_eq!(m.command_str, "");
    assert_eq!(*m.get_container(), Container { top: 0, left: 0, bottom: 1, right: 20 });
}

#[test]
fn committing_q_asks_the_host_to_quit() {
    let mut m = typed("q");
    assert_eq!(m.command_str, "q");
    assert_eq!(m.render_col, 1);
    let events = m.on_event(press(KeyCode::Enter));
    assert_eq!(events, Some(vec![OutcomingConsoleEvent::Quit]));
    assert_eq!(m.command_str, "");
    assert_eq!(m.render_col, 0);
}

#[test]
fn committing_quit_asks_the_host_to_quit() {
    let mut m = typed("quit");
    assert_eq!(m.on_event(press(KeyCode::Enter)), Some(vec![OutcomingConsoleEvent::Quit]));
    assert_eq!((m.command_str.as_str(), m.render_col), ("", 0));
}

#[test]
fn an_unknown_command_is_reported() {
    for text in ["", "x", "qu", "quit "] {
        let mut m = typed(text);
        assert_eq!(
            m.on_event(press(KeyCode::Enter)),
            Some(vec![OutcomingConsoleEvent::Message(
                String::from("command"),
                format!("unknown command: {}", text)
            )])
        );
        assert_eq!((m.command_str.as_str(), m.render_col), ("", 0));
    }
}

#[test]
fn process_command_empties_the_prompt() {
    let mut m = typed("quit");
    assert_eq!(m.process_command(), vec![OutcomingConsoleEvent::Quit]);
    assert_eq!((m.command_str.as_str(), m.render_col), ("", 0));
}

#[test]
fn a_commit_drops_the_actions_behind_it() {
    let mut m = typed("q");
    let events = m.trigger_actions(&vec![
        Action::InsertChar('\n'),
        Action::InsertChar('x'),
        Action::InsertChar('\n'),
    ]);
    assert_eq!(events, Some(vec![OutcomingConsoleEvent::Quit]));
    assert_eq!((m.command_str.as_str(), m.render_col), ("", 0));
}

#[test]
fn the_cursor_moves_within_the_text() {
    let mut m = typed("abc");
    assert_eq!(m.render_col, 3);
    m.on_event(press(KeyCode::Right));
    assert_eq!(m.render_col, 3);
    m.on_event(press(KeyCode::Left));
    m.on_event(press(KeyCode::Left));
    assert_eq!(m.render_col, 1);
    m.trigger_actions(&vec![Action::Move(Movement::LineStart)]);
    assert_eq!(m.render_col, 0);
    m.on_event(press(KeyCode::Left));
    assert_eq!(m.render_col, 0);
    m.trigger_actions(&vec![Action::Move(Movement::LineEnd)]);
    assert_eq!(m.render_col, 3);
    m.trigger_actions(&vec![Action::Move(Movement::Up), Action::Move(Movement::Down)]);
    assert_eq!((m.command_str.as_str(), m.render_col), ("abc", 3));
}

#[test]
fn characters_are_added_at_the_end() {
    let mut m = typed("ab");
    m.on_event(press(KeyCode::Left));
    m.on_event(press(KeyCode::Left));
    m.on_event(press(KeyCode::Char('c')));
    assert_eq!((m.command_str.as_str(), m.render_col), ("abc", 1));
}

#[test]
fn backspace_removes_the_character_before_the_cursor_of_the_prompt() {
    let mut m = typed("abc");
    m.on_event(press(KeyCode::Left));
    m.on_event(press(KeyCode::Backspace));
    assert_eq!((m.command_str.as_str(), m.render_col), ("ac", 1));
    m.on_event(press(KeyCode::Backspace));
    assert_eq!((m.command_str.as_str(), m.render_col), ("c", 0));
    m.on_event(press(KeyCode::Backspace));
    assert_eq!((m.command_str.as_str(), m.render_col), ("c", 0));
    let mut empty = CommandModule::new();
    empty.on_event(press(KeyCode::Backspace));
    assert_eq!((empty.command_str.as_str(), empty.render_col), ("", 0));
}

#[test]
fn delete_removes_the_character_under_the_cursor_of_the_prompt() {
    let mut m = typed("abc");
    m.on_event(press(KeyCode::Delete));
    assert_eq!((m.command_str.as_str(), m.render_col), ("abc", 3));
    m.trigger_actions(&vec![Action::Move(Movement::LineStart), Action::Delete]);
    assert_eq!((m.command_str.as_str(), m.render_col), ("bc", 0));
    m.render_col = 2;
    m.trigger_actions(&vec![Action::Move(Movement::Left), Action::Delete]);
    assert_eq!((m.command_str.as_str(), m.render_col), ("b", 1));
}

#[test]
fn escape_cancels_the_command() {
    let mut m = typed("qui");
    assert_eq!(m.on_event(press(KeyCode::Esc)), None);
    assert_eq!((m.command_str.as_str(), m.render_col), ("", 0));
    let mut m = typed("qui");
    m.trigger_actions(&vec![Action::ChangeMode(Mode::Insert)]);
    assert_eq!((m.command_str.as_str(), m.render_col), ("qui", 3));
}

#[test]
fn the_prompt_takes_its_width_from_the_rectangle() {
    let mut m = CommandModule::new();
    m.trigger_actions(&vec![Action::Resize(0, 30, 1, 10)]);
    assert_eq!(m.width, 20);
    m.trigger_actions(&vec![Action::Resize(0, 3, 1, 10)]);
    assert_eq!(m.width, 0);
    m.on_resize(22, 80, 24, 0);
    assert_eq!(m.width, 80);
}

#[test]
fn other_events_are_not_for_the_prompt() {
    let mut m = typed("a");
    assert_eq!(m.on_event(IncomingConsoleEvent::Resize(3, 3)), None);
    assert_eq!(m.on_event(IncomingConsoleEvent::File(String::from("f"), None)), None);
    assert_eq!(m.on_event(press(KeyCode::PageUp)), None);
    assert_eq!((m.command_str.as_str(), m.render_col, m.width), ("a", 1, 0));
}

#[test]
fn the_prompt_draws_its_line_and_cursor() {
    let mut m = typed("qu");
    assert_eq!(
        m.on_draw(),
        Some(vec![
            DrawAction::AskRedraw(Redraw::Line(0, String::from(":qu"))),
            DrawAction::CursorTo(3, 0, CursorStyle::BlinkingBlock),
        ])
    );
    m.on_event(press(KeyCode::Left));
    assert_eq!(
        m.on_draw().unwrap()[1],
        DrawAction::CursorTo(2, 0, CursorStyle::BlinkingBlock)
    );
}

#[test]
fn the_prompt_counts_characters_not_bytes() {
    let mut m = typed("h\u{e9}llo");
    assert_eq!(m.render_col, 5);
    m.trigger_actions(&vec![Action::Move(Movement::LineStart), Action::Move(Movement::Right)]);
    m.trigger_actions(&vec![Action::Delete]);
    assert_eq!((m.command_str.as_str(), m.render_col), ("hllo", 1));
}
