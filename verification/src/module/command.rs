//! The command prompt: one line of text behind a colon.

use crate::client::console::{
    event_views, IncomingConsoleEvent, KeyCode, KeyEvent, OutcomingConsoleEvent, OutcomingView,
};
use crate::client::{
    draw_views, Action, Container, CursorStyle, DrawAction, DrawActionView, Mode, Movement,
    Redraw, RedrawView,
};
use crate::module::editor::model::{least, most};
use crate::module::{Module, ModuleEvent, ModuleView};
use crate::text::{as_coord, coord_max};
use vstd::prelude::*;
use vstd::string::*;

verus! {

/// The command prompt.
pub struct CommandModule {
    pub width: u32,
    pub render_col: u32,
    pub command_str: String,
}

/// The state of a command prompt.
pub struct CommandState {
    pub width: int,
    pub col: int,
    pub text: Seq<char>,
}

/// The name under which the prompt speaks to the host.
pub open spec fn prompt_name() -> Seq<char> {
    "command"@
}

/// What the prompt says of a command that it does not know.
pub open spec fn unknown_command_message(command: Seq<char>) -> Seq<char> {
    "unknown command: "@ + command
}

/// What a command asks of the host: `q` and `quit` ask it to quit, and of
/// anything else the host is told that it is no command.
pub open spec fn command_events(command: Seq<char>) -> Seq<OutcomingView> {
    if command == "q"@ || command == "quit"@ {
        seq![OutcomingView::Quit]
    } else {
        seq![OutcomingView::Message(prompt_name(), unknown_command_message(command))]
    }
}

/// What each key asks of the prompt.
pub open spec fn prompt_keys(code: KeyCode) -> Seq<Action> {
    match code {
        KeyCode::Char(c) => seq![Action::InsertChar(c)],
        KeyCode::Esc => seq![Action::ChangeMode(Mode::Normal)],
        KeyCode::Backspace => seq![Action::Backspace],
        KeyCode::Delete => seq![Action::Delete],
        KeyCode::Left => seq![Action::Move(Movement::Left)],
        KeyCode::Right => seq![Action::Move(Movement::Right)],
        KeyCode::Enter => seq![Action::InsertChar('\n')],
        _ => seq![Action::Noop],
    }
}

/// `text` without the character at `at`, if it has one there.
pub open spec fn without(text: Seq<char>, at: int) -> Seq<char> {
    if 0 <= at < text.len() {
        text.remove(at)
    } else {
        text
    }
}

impl CommandState {
    /// The empty prompt of the same width.
    pub open spec fn cleared(self) -> CommandState {
        CommandState { col: 0, text: Seq::empty(), ..self }
    }

    /// Whether the action ends the line: a newline is typed.
    pub open spec fn commits(action: Action) -> bool {
        action == Action::InsertChar('\n')
    }

    /// The state after an action that does not end the line. The cursor
    /// moves within the text; a character is added at the end of the text,
    /// and the cursor moves on by one; backspace removes the character before
    /// the cursor and delete the one under it; leaving for normal mode
    /// empties the prompt.
    pub open spec fn apply(self, action: Action) -> CommandState {
        match action {
            Action::Move(movement) => match movement {
                Movement::Left => CommandState { col: most(0, self.col - 1), ..self },
                Movement::Right => CommandState {
                    col: least(as_coord(self.text.len() as int), self.col + 1),
                    ..self
                },
                Movement::LineEnd => CommandState {
                    col: as_coord(self.text.len() as int),
                    ..self
                },
                Movement::LineStart => CommandState { col: 0, ..self },
                _ => self,
            },
            Action::InsertChar(c) => CommandState {
                col: least(self.col + 1, coord_max()),
                text: self.text.push(c),
                ..self
            },
            Action::Backspace => if self.text.len() > 0 {
                CommandState {
                    col: most(0, self.col - 1),
                    text: without(self.text, self.col - 1),
                    ..self
                }
            } else {
                self
            },
            Action::Delete => if self.text.len() > 0 {
                let text = without(self.text, self.col);
                CommandState { col: least(as_coord(text.len() as int), self.col), text, ..self }
            } else {
                self
            },
            Action::Resize(_, right, _, left) => CommandState {
                width: most(right - left, 0),
                ..self
            },
            Action::ChangeMode(mode) => if mode == Mode::Normal {
                self.cleared()
            } else {
                self
            },
            _ => self,
        }
    }

    /// The state after a list of actions, and what they ask of the host. The
    /// actions are applied in order up to the first that ends the line: the
    /// text is then taken as a command and the prompt emptied, and what
    /// follows in the list is dropped.
    pub open spec fn apply_all(self, actions: Seq<Action>) -> (
        CommandState,
        Option<Seq<OutcomingView>>,
    )
        decreases actions.len(),
    {
        if actions.len() == 0 {
            (self, None)
        } else if Self::commits(actions[0]) {
            (self.cleared(), Some(command_events(self.text)))
        } else {
            self.apply(actions[0]).apply_all(actions.drop_first())
        }
    }

    /// What the prompt draws: its line, a colon before the text, and the
    /// cursor behind the colon and the characters before it.
    pub open spec fn plan(self) -> Seq<DrawActionView> {
        seq![
            DrawActionView::AskRedraw(RedrawView::Line(0, seq![':'] + self.text)),
            DrawActionView::CursorTo(
                least(self.col + 1, coord_max()) as u32,
                0,
                CursorStyle::BlinkingBlock,
            ),
        ]
    }
}

impl View for CommandModule {
    type V = CommandState;

    open spec fn view(&self) -> CommandState {
        CommandState {
            width: self.width as int,
            col: self.render_col as int,
            text: self.command_str@,
        }
    }
}

/// The number of characters of `s` as a coordinate.
fn char_count(s: &String) -> (n: u32)
    ensures
        n == as_coord(s@.len() as int),
{
    let len = s.as_str().unicode_len();
    if len <= u32::MAX as usize {
        len as u32
    } else {
        u32::MAX
    }
}

/// Removes the character at `at` from `s`, if it has one there.
fn remove_char(s: &mut String, at: usize)
    ensures
        final(s)@ == without(old(s)@, at as int),
{
    let len = s.as_str().unicode_len();
    if at < len {
        let before = s.as_str().substring_char(0, at);
        let behind = s.as_str().substring_char(at + 1, len);
        let mut out = String::from_str(before);
        out.append(behind);
        assert(out@ =~= old(s)@.remove(at as int));
        *s = out;
    }
}

impl CommandModule {
    /// An empty prompt.
    pub fn new() -> (r: Self)
        ensures
            r@ == (CommandState { width: 0, col: 0, text: Seq::empty() }),
    {
        CommandModule { width: 0, render_col: 0, command_str: String::new() }
    }

    /// The actions that a key asks for.
    pub fn convert_key_to_actions(&self, key: KeyEvent) -> (r: Vec<Action>)
        ensures
            r@ == prompt_keys(key.code),
    {
        let r = match key.code {
            KeyCode::Char(c) => vec![Action::InsertChar(c)],
            KeyCode::Esc => vec![Action::ChangeMode(Mode::Normal)],
            KeyCode::Backspace => vec![Action::Backspace],
            KeyCode::Delete => vec![Action::Delete],
            KeyCode::Left => vec![Action::Move(Movement::Left)],
            KeyCode::Right => vec![Action::Move(Movement::Right)],
            KeyCode::Enter => vec![Action::InsertChar('\n')],
            _ => vec![Action::Noop],
        };
        assert(r@ =~= prompt_keys(key.code));
        r
    }

    /// Carries out one action that does not end the line.
    fn act(&mut self, action: &Action)
        ensures
            final(self)@ == old(self)@.apply(*action),
    {
        match action {
            Action::Move(movement) => {
                match movement {
                    Movement::Left => {
                        self.render_col = self.render_col.saturating_sub(1);
                    },
                    Movement::Right => {
                        let len = char_count(&self.command_str);
                        self.render_col = if self.render_col < len {
                            self.render_col + 1
                        } else {
                            len
                        };
                    },
                    Movement::LineEnd => {
                        self.render_col = char_count(&self.command_str);
                    },
                    Movement::LineStart => {
                        self.render_col = 0;
                    },
                    _ => {},
                }
            },
            Action::InsertChar(c) => {
                self.render_col = self.render_col.saturating_add(1);
                self.command_str.push(*c);
            },
            Action::Backspace => {
                if self.command_str.as_str().unicode_len() > 0 {
                    if self.render_col > 0 {
                        remove_char(&mut self.command_str, (self.render_col - 1) as usize);
                    }
                    self.render_col = self.render_col.saturating_sub(1);
                }
            },
            Action::Delete => {
                if self.command_str.as_str().unicode_len() > 0 {
                    remove_char(&mut self.command_str, self.render_col as usize);
                    let len = char_count(&self.command_str);
                    if self.render_col > len {
                        self.render_col = len;
                    }
                }
            },
            Action::Resize(_, right, _, left) => {
                self.width = right.saturating_sub(*left) as u32;
            },
            Action::ChangeMode(mode) => {
                match mode {
                    Mode::Normal => {
                        self.command_str = String::new();
                        self.render_col = 0;
                    },
                    _ => {},
                }
            },
            _ => {},
        }
    }

    /// Carries out a list of actions in order, up to the first that ends the
    /// line.
    pub fn trigger_actions(&mut self, actions: &Vec<Action>) -> (r: Option<
        Vec<OutcomingConsoleEvent>,
    >)
        ensures
            final(self)@ == old(self)@.apply_all(actions@).0,
            match r {
                Some(events) => old(self)@.apply_all(actions@).1 == Some(event_views(events@)),
                None => old(self)@.apply_all(actions@).1 is None,
            },
    {
        let n = actions.len();
        let mut i: usize = 0;
        assert(actions@.skip(0) =~= actions@);
        while i < n
            invariant
                n == actions@.len(),
                i <= n,
                old(self)@.apply_all(actions@) == self@.apply_all(actions@.skip(i as int)),
            decreases n - i,
        {
            assert(actions@.skip(i as int).drop_first() =~= actions@.skip(i + 1));
            assert(actions@.skip(i as int)[0] == actions@[i as int]);
            let ends = match &actions[i] {
                Action::InsertChar(c) => *c == '\n',
                _ => false,
            };
            if ends {
                return Some(self.process_command());
            }
            self.act(&actions[i]);
            i += 1;
        }
        None
    }

    /// Takes the text as a command and empties the prompt. Returns what the
    /// command asks of the host.
    pub fn process_command(&mut self) -> (r: Vec<OutcomingConsoleEvent>)
        ensures
            final(self)@ == old(self)@.cleared(),
            event_views(r@) == command_events(old(self)@.text),
    {
        let command = self.command_str.clone();
        self.command_str = String::new();
        self.render_col = 0;
        let events = if command == String::from_str("q") || command == String::from_str("quit") {
            vec![OutcomingConsoleEvent::Quit]
        } else {
            let mut text = String::from_str("unknown command: ");
            text.append(command.as_str());
            vec![OutcomingConsoleEvent::Message(String::from_str("command"), text)]
        };
        assert(event_views(events@) =~= command_events(old(self)@.text));
        events
    }
}

impl ModuleEvent for CommandModule {
    /// A key is turned into actions, and the actions are carried out.
    fn on_event(&mut self, event: IncomingConsoleEvent) -> (r: Option<Vec<OutcomingConsoleEvent>>)
        ensures
            match event {
                IncomingConsoleEvent::Key(key) => final(self)@ == old(self)@.apply_all(
                    prompt_keys(key.code),
                ).0 && match r {
                    Some(events) => old(self)@.apply_all(prompt_keys(key.code)).1 == Some(
                        event_views(events@),
                    ),
                    None => old(self)@.apply_all(prompt_keys(key.code)).1 is None,
                },
                _ => final(self)@ == old(self)@ && r is None,
            },
    {
        match event {
            IncomingConsoleEvent::Key(key) => {
                let actions = self.convert_key_to_actions(key);
                self.trigger_actions(&actions)
            },
            _ => None,
        }
    }

    /// The prompt's line and its cursor.
    fn on_draw(&self) -> (r: Option<Vec<DrawAction>>)
        ensures
            r matches Some(plan) && draw_views(plan@) == self@.plan(),
    {
        let mut line = String::from_str(":");
        line.append(self.command_str.as_str());
        proof {
            reveal_strlit(":");
        }
        let plan = vec![
            DrawAction::AskRedraw(Redraw::Line(0, line)),
            DrawAction::CursorTo(self.render_col.saturating_add(1), 0, CursorStyle::BlinkingBlock),
        ];
        assert(":"@ =~= seq![':']);
        assert(draw_views(plan@) =~= self@.plan());
        Some(plan)
    }

    /// Takes the width of the rectangle as the prompt's width.
    fn on_resize(&mut self, _top: u32, right: u32, _bottom: u32, left: u32)
        ensures
            final(self)@ == (CommandState { width: most(right - left, 0), ..old(self)@ }),
    {
        self.width = right.saturating_sub(left);
    }
}

impl ModuleView for CommandModule {
    fn get_container(&self) -> (r: &Container)
        ensures
            *r == (Container { top: 0, left: 0, bottom: 1, right: 20 }),
    {
        &Container { top: 0, left: 0, bottom: 1, right: 20 }
    }
}

impl Module for CommandModule {

}

} // verus!
