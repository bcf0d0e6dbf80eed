//! The editor module: a text buffer behind a cursor and a viewport.

use crate::text::{
    as_coord, char_at, decode, encode, has_cr, has_line, line_len, line_text, with_delete,
    with_insert,
};
use crate::client::console::{
    event_views, IncomingConsoleEvent, KeyCode, KeyEvent, OutcomingConsoleEvent, OutcomingView,
};
use crate::client::{
    draw_views, Action, Container, CursorStyle, DrawAction, Mode, Movement, Redraw,
};
use crate::module::editor::model::EditorState;
use crate::module::{Module, ModuleEvent, ModuleView};
use crate::utils::{fit_line, format_label, TruncAt};
use crossterm::style::Stylize;
use vstd::prelude::*;
use vstd::string::*;

pub mod laws;
pub mod model;
pub mod vector;

verus! {

/// A text buffer with line-oriented access. Rows and columns count from 0.
pub trait EditorContentTrait: Sized {
    /// The characters of the buffer.
    spec fn text(&self) -> Seq<char>;

    /// Whether newlines are written out with a carriage return before them.
    spec fn crlf(&self) -> bool;

    /// An empty buffer. It writes its newlines with carriage returns.
    fn new() -> (r: Self)
        ensures
            r.text() == Seq::<char>::empty(),
            r.crlf(),
    ;

    /// Replaces the content by the characters of `raw_data`, one for each
    /// byte, without the carriage returns, and records whether there was one.
    fn load_data(&mut self, raw_data: Vec<u8>)
        ensures
            final(self).text() == decode(raw_data@),
            final(self).crlf() == has_cr(raw_data@),
    ;

    /// Appends the content to `buffer` as bytes.
    fn read_data(&self, buffer: &mut Vec<u8>)
        ensures
            final(buffer)@ == old(buffer)@ + encode(self.text(), self.crlf()),
    ;

    /// Line `i`, without its newline.
    fn get_line(&self, i: u32) -> (r: Option<String>)
        ensures
            match r {
                Some(l) => has_line(self.text(), i as nat) && l@ == line_text(
                    self.text(),
                    i as nat,
                ),
                None => !has_line(self.text(), i as nat),
            },
    ;

    /// The length of line `i`, without its newline.
    fn get_line_len(&self, i: u32) -> (r: Option<u32>)
        ensures
            match r {
                Some(n) => has_line(self.text(), i as nat) && n == as_coord(
                    line_len(self.text(), i as nat),
                ),
                None => !has_line(self.text(), i as nat),
            },
    ;

    /// Inserts `c` at the position (`row`, `col`), if there is such a position.
    fn write_char(&mut self, c: char, col: u32, row: u32)
        ensures
            final(self).text() == with_insert(old(self).text(), c, row as nat, col as nat),
            final(self).crlf() == old(self).crlf(),
    ;

    /// Removes the character at the position (`row`, `col`) and returns it, if
    /// there is one.
    fn delete_char(&mut self, col: u32, row: u32) -> (r: Option<char>)
        ensures
            r == char_at(old(self).text(), row as nat, col as nat),
            final(self).text() == with_delete(old(self).text(), row as nat, col as nat),
            final(self).crlf() == old(self).crlf(),
    ;
}

/// A text buffer that keeps its characters in a container `T`.
pub struct EditorContent<T> {
    data: T,
    is_crlf: bool,
}

/// An editor's dealings with files. The editor reads and writes no file
/// itself: it takes the bytes that were read, and hands out the bytes to
/// write.
pub trait EditorIO {
    /// Takes the file at `path` as the editor's file, and its bytes, where
    /// it could be read, as the text. Returns what the host is to be told.
    fn open_file(&mut self, path: String, data: Option<Vec<u8>>) -> Option<
        Vec<OutcomingConsoleEvent>,
    >;

    /// Asks the host to write the text to the editor's file, or tells it
    /// that there is no file.
    fn save_file(&self) -> OutcomingConsoleEvent;

    /// Asks the host to write the text to the file at `path`.
    fn write_file(&self, path: String) -> OutcomingConsoleEvent;
}

/// What an editor is driven by.
pub trait EditorEvent {
    /// Takes in a file that was read.
    fn on_load_file(&mut self, path: String, data: Option<Vec<u8>>);

    /// Carries out a list of actions.
    fn on_action(&mut self, action: Vec<Action>);
}

/// The editor module.
pub struct Editor<T: EditorContentTrait> {
    pub file_path: Option<String>,
    pub content: T,
    pub render_row: u32,
    pub row: u32,
    pub render_col: u32,
    pub col: u32,
    pub should_redraw: Option<Redraw>,
    pub view: Container,
    pub line_numbered: bool,
    pub mode: Mode,
}

impl<T: EditorContentTrait> View for Editor<T> {
    type V = EditorState;

    open spec fn view(&self) -> EditorState {
        EditorState {
            text: self.content.text(),
            crlf: self.content.crlf(),
            path: match self.file_path {
                Some(p) => Some(p@),
                None => None,
            },
            row: self.row as int,
            col: self.col as int,
            render_row: self.render_row as int,
            render_col: self.render_col as int,
            top: self.view.top as int,
            right: self.view.right as int,
            bottom: self.view.bottom as int,
            left: self.view.left as int,
            mode: self.mode,
            redraw: match self.should_redraw {
                Some(r) => Some(r@),
                None => None,
            },
            numbered: self.line_numbered,
        }
    }
}

/// The smaller of two coordinates.
fn lesser(a: u32, b: u32) -> (r: u32)
    ensures
        r == model::least(a as int, b as int),
{
    if a <= b {
        a
    } else {
        b
    }
}

/// The larger of two coordinates.
fn greater(a: u32, b: u32) -> (r: u32)
    ensures
        r == model::most(a as int, b as int),
{
    if a >= b {
        a
    } else {
        b
    }
}

/// `x` brought into `0..=hi`.
fn into_range(x: i64, hi: u32) -> (r: u32)
    ensures
        r == model::clamped(x as int, 0, hi as int),
{
    if x < 0 {
        0
    } else if x > hi as i64 {
        hi
    } else {
        x as u32
    }
}

impl<T: EditorContentTrait> Editor<T> {
    /// An editor with an empty buffer and no file, in normal mode, with line
    /// numbers, its cursor and its window at the origin.
    pub fn new() -> (r: Self)
        ensures
            r@ == (EditorState {
                text: Seq::<char>::empty(),
                crlf: true,
                path: None,
                row: 0,
                col: 0,
                render_row: 0,
                render_col: 0,
                top: 0,
                right: 0,
                bottom: 0,
                left: 0,
                mode: Mode::Normal,
                redraw: None,
                numbered: true,
            }),
    {
        Self {
            file_path: None,
            content: T::new(),
            render_row: 0,
            row: 0,
            render_col: 0,
            col: 0,
            should_redraw: None,
            view: Container::default(),
            line_numbered: true,
            mode: Mode::Normal,
        }
    }

    /// The width of the gutter: 6 columns where lines are numbered.
    pub fn get_offset(&self) -> (r: u32)
        ensures
            r == self@.gutter(),
    {
        if self.line_numbered {
            6
        } else {
            0
        }
    }

    /// The last column at which the cursor can be shown with the gutter
    /// before it.
    fn last_col(&self) -> (r: u32)
        ensures
            r == self@.last_col(),
    {
        u32::MAX - self.get_offset()
    }

    /// Puts the window's corner at column `horizontal` and row `vertical`
    /// and brings the rendered cursor into the window and into its line.
    fn window_at(&mut self, horizontal: i64, vertical: i64)
        ensures
            final(self)@ == old(self)@.window_at(horizontal as int, vertical as int),
    {
        proof {
            reveal(EditorState::window_at);
        }
        let horizontal_size = self.view.get_width();
        self.view.left = into_range(horizontal, u32::MAX - horizontal_size);
        self.view.right = self.view.left + horizontal_size;
        let vertical_size = self.view.get_height();
        self.view.top = into_range(vertical, u32::MAX - vertical_size);
        self.view.bottom = self.view.top + vertical_size;
        self.render_row = lesser(greater(self.view.top, self.row), self.view.bottom);
        match self.content.get_line_len(self.render_row) {
            Some(n) => {
                self.render_col = lesser(lesser(self.col, n), self.last_col());
            },
            None => {
                let edge = self.view.right.saturating_sub(self.get_offset());
                self.render_col = lesser(greater(self.view.left, self.col), edge);
            },
        }
    }

    /// Moves the window sideways, if needed, so that it shows the rendered
    /// column.
    pub fn goto_cursor(&mut self)
        ensures
            final(self)@ == old(self)@.goto_cursor(),
    {
        proof {
            reveal(EditorState::goto_cursor);
        }
        let gutter = self.get_offset() as i64;
        if self.render_col < self.view.left {
            self.window_at(self.render_col as i64, self.view.top as i64);
            self.should_redraw = Some(Redraw::All);
        } else if self.render_col as i64 + gutter > self.view.right as i64 {
            self.window_at(
                self.render_col as i64 + gutter - self.view.get_width() as i64,
                self.view.top as i64,
            );
            self.should_redraw = Some(Redraw::All);
        }
    }

    /// Moves the window's corner to column `horizontal` and row `vertical`,
    /// and then sideways, if needed, so that it shows the rendered column.
    /// Where the window's edges are in order, the rendered row then lies in
    /// the window and the rendered column in its line; and in the window too,
    /// where the window is at least as wide as the gutter.
    pub fn scroll_to(&mut self, horizontal: i64, vertical: i64)
        ensures
            final(self)@ == old(self)@.scroll_to(horizontal as int, vertical as int),
            laws::same_buffer(old(self)@, final(self)@),
            old(self)@.valid() ==> {
                &&& final(self)@.valid()
                &&& laws::row_in_window(final(self)@)
                &&& laws::cursor_in_line(final(self)@)
                &&& laws::roomy(old(self)@) ==> laws::col_in_window(final(self)@)
            },
    {
        proof {
            reveal(EditorState::scroll_to);
            laws::lemma_scroll_keeps(old(self)@, horizontal as int, vertical as int);
            if old(self)@.valid() {
                laws::lemma_scroll_to(old(self)@, horizontal as int, vertical as int);
            }
        }
        self.window_at(horizontal, vertical);
        self.goto_cursor();
    }

    /// Moves the window by `cols` columns and `rows` rows and asks for
    /// everything to be drawn again.
    fn scroll_by(&mut self, cols: i64, rows: i64)
        requires
            -0x1_0000_0000 <= cols <= 0x1_0000_0000,
            -0x1_0000_0000 <= rows <= 0x1_0000_0000,
        ensures
            final(self)@ == old(self)@.scroll_by(cols as int, rows as int),
    {
        proof {
            reveal(EditorState::scroll_by);
        }
        self.scroll_to(self.view.left as i64 + cols, self.view.top as i64 + rows);
        self.should_redraw = Some(Redraw::All);
    }

    /// One row up.
    fn step_up(&mut self)
        ensures
            final(self)@ == old(self)@.step_up(),
    {
        proof {
            reveal(EditorState::step_up);
        }
        if self.render_row == self.view.top {
            self.scroll_by(0, -1);
        }
        self.row = self.row.saturating_sub(1);
    }

    /// One row down, but not below the window.
    fn step_down(&mut self)
        ensures
            final(self)@ == old(self)@.step_down(),
    {
        proof {
            reveal(EditorState::step_down);
        }
        if self.render_row == self.view.bottom {
            self.scroll_by(0, 1);
        }
        self.row = if self.row < self.view.bottom {
            self.row + 1
        } else {
            self.view.bottom
        };
    }

    /// One column to the left, or to the row before.
    fn step_left(&mut self) -> (wrapped: bool)
        ensures
            (final(self)@, wrapped) == old(self)@.step_left(),
    {
        proof {
            reveal(EditorState::step_left);
        }
        if self.render_col == self.view.left {
            self.scroll_by(-1, 0);
        }
        if self.col == 0 && self.row != 0 {
            self.row = self.row - 1;
            if self.render_row == self.view.top {
                self.scroll_by(0, -1);
            }
            true
        } else {
            self.col = lesser(self.render_col, self.col).saturating_sub(1);
            false
        }
    }

    /// One column to the right, or to the start of the next row.
    fn step_right(&mut self, line_len: u32)
        ensures
            final(self)@ == old(self)@.step_right(line_len as int),
    {
        proof {
            reveal(EditorState::step_right);
        }
        if self.render_col as i64 + self.get_offset() as i64 == self.view.right as i64 {
            self.scroll_by(1, 0);
        }
        if self.col >= line_len {
            self.col = 0;
            self.row = self.row.saturating_add(1);
            if self.render_row == self.view.bottom {
                self.scroll_by(0, 1);
            }
        } else {
            self.col = self.col + 1;
        }
    }

    /// The first half of a motion.
    fn step(&mut self, movement: Movement, line_len: u32) -> (wrapped: bool)
        ensures
            (final(self)@, wrapped) == old(self)@.step(movement, line_len as int),
    {
        proof {
            reveal(EditorState::step);
        }
        match movement {
            Movement::Up => {
                self.step_up();
                false
            },
            Movement::Down => {
                self.step_down();
                false
            },
            Movement::Left => self.step_left(),
            Movement::Right => {
                self.step_right(line_len);
                false
            },
            Movement::LineEnd => {
                self.col = line_len;
                false
            },
            Movement::LineStart => {
                self.col = 0;
                false
            },
        }
    }

    /// The second half of a motion.
    fn settle(&mut self, line_len: u32, wrapped: bool)
        ensures
            final(self)@ == old(self)@.settle(line_len as int, wrapped),
    {
        proof {
            reveal(EditorState::settle);
        }
        let mut len = line_len;
        match self.content.get_line_len(self.row) {
            Some(n) => {
                len = n;
            },
            None => {
                self.row = self.row - 1;
                match self.content.get_line_len(self.row) {
                    Some(n) => {
                        len = n;
                    },
                    None => {},
                }
            },
        }
        if wrapped {
            self.col = len;
        }
        self.render_col = lesser(lesser(len, self.col), self.last_col());
        self.goto_cursor();
        self.render_row = lesser(greater(self.view.top, self.row), self.view.bottom);
    }

    /// Moves the cursor. Where the window's edges are in order and the
    /// rendered row lay in the window, the rendered row then lies in the
    /// window and the rendered column in its line; and in the window too,
    /// where the window is at least as wide as the gutter.
    pub fn move_cursor(&mut self, movement: Movement)
        ensures
            final(self)@ == old(self)@.move_cursor(movement),
            (old(self)@.valid() && laws::row_in_window(old(self)@)) ==> {
                &&& final(self)@.valid()
                &&& laws::row_in_window(final(self)@)
                &&& laws::cursor_in_line(final(self)@)
                &&& laws::roomy(old(self)@) ==> laws::col_in_window(final(self)@)
            },
    {
        proof {
            reveal(EditorState::move_cursor);
            if old(self)@.valid() && laws::row_in_window(old(self)@) {
                laws::lemma_move_cursor(old(self)@, movement);
            }
        }
        let line_len = match self.content.get_line_len(self.render_row) {
            Some(n) => n,
            None => 1,
        };
        self.should_redraw = Some(Redraw::Cursor);
        if self.render_row != self.row {
            self.row = self.render_row;
            self.col = self.render_col;
        }
        let wrapped = self.step(movement, line_len);
        self.settle(line_len, wrapped);
    }

    /// Inserts `c` where the cursor is shown in the cursor's row.
    pub fn write_char(&mut self, c: char)
        ensures
            final(self)@ == (EditorState {
                text: with_insert(
                    old(self)@.text,
                    c,
                    old(self)@.row as nat,
                    old(self)@.render_col as nat,
                ),
                ..old(self)@
            }),
    {
        self.content.write_char(c, self.render_col, self.row);
    }

    /// Removes the character where the cursor is shown in the cursor's row,
    /// and returns it.
    pub fn delete_char(&mut self) -> (r: Option<char>)
        ensures
            r == char_at(old(self)@.text, old(self)@.row as nat, old(self)@.render_col as nat),
            final(self)@ == (EditorState {
                text: with_delete(
                    old(self)@.text,
                    old(self)@.row as nat,
                    old(self)@.render_col as nat,
                ),
                ..old(self)@
            }),
    {
        self.content.delete_char(self.render_col, self.row)
    }

    /// Asks for the rendered row to be drawn again, if the text has that line.
    fn ask_line(&mut self)
        ensures
            final(self)@ == old(self)@.asking_line(),
    {
        proof {
            reveal(EditorState::asking_line);
        }
        if let Some(line) = self.content.get_line(self.render_row) {
            self.should_redraw = Some(Redraw::Line(self.render_row, line));
        }
    }

    /// Removes the character under the cursor and asks for what changed to be
    /// drawn again.
    fn delete_here(&mut self)
        ensures
            final(self)@ == old(self)@.delete_here(),
    {
        proof {
            reveal(EditorState::delete_here);
        }
        let joined = match self.delete_char() {
            Some(c) => c == '\n',
            None => false,
        };
        if joined {
            self.should_redraw = Some(Redraw::All);
        } else {
            self.ask_line();
        }
    }

    /// Adopts a window of `height` rows and `width` columns.
    fn resize(&mut self, width: u32, height: u32)
        ensures
            final(self)@ == old(self)@.resized(width as int, height as int),
    {
        proof {
            reveal(EditorState::resized);
        }
        self.view.bottom = self.view.top.saturating_add(height.saturating_sub(1));
        self.view.right = self.view.left.saturating_add(width.saturating_sub(1));
        self.should_redraw = Some(Redraw::All);
    }

    /// Carries out one action, and adds to `events` what it asks of the host.
    pub fn act(&mut self, action: &Action, events: &mut Vec<OutcomingConsoleEvent>)
        ensures
            final(self)@ == old(self)@.apply(*action),
            event_views(final(events)@) == event_views(old(events)@) + old(self)@.emits(*action),
    {
        let ghost before = event_views(events@);
        match action {
            Action::Move(movement) => {
                self.move_cursor(*movement);
            },
            Action::InsertChar(c) => {
                self.write_char(*c);
                self.move_cursor(Movement::Right);
                if *c == '\n' {
                    self.should_redraw = Some(Redraw::All);
                } else {
                    self.ask_line();
                }
            },
            Action::Backspace => {
                if self.render_col == 0 && self.render_row == 0 {
                    self.should_redraw = Some(Redraw::Cursor);
                } else {
                    self.move_cursor(Movement::Left);
                    self.delete_here();
                }
            },
            Action::Delete => {
                self.delete_here();
            },
            Action::ScrollBy(steps) => {
                self.scroll_by(0, *steps as i64);
            },
            Action::Resize(top, right, bottom, left) => {
                let width = right.saturating_sub(*left);
                let height = bottom.saturating_sub(*top);
                self.resize(width as u32, height as u32);
            },
            Action::SaveFile => {
                let event = self.save_file();
                events.push(event);
            },
            Action::ChangeMode(mode) => {
                self.should_redraw = Some(Redraw::Cursor);
                self.mode = *mode;
                events.push(OutcomingConsoleEvent::ChangeMode(*mode));
            },
            _ => {
                self.should_redraw = Some(Redraw::Cursor);
            },
        }
        assert(event_views(events@) =~= before + old(self)@.emits(*action));
    }

    /// Carries out a list of actions in order. The pending redraw is dropped
    /// first. Returns what the actions ask of the host, if anything.
    pub fn trigger_actions(&mut self, actions: &Vec<Action>) -> (r: Option<
        Vec<OutcomingConsoleEvent>,
    >)
        ensures
            final(self)@ == old(self)@.apply_all(actions@),
            match r {
                Some(events) => events@.len() > 0 && event_views(events@) == old(self)@.emits_all(
                    actions@,
                ),
                None => old(self)@.emits_all(actions@).len() == 0,
            },
    {
        let ghost start = self@;
        self.should_redraw = None;
        let mut events: Vec<OutcomingConsoleEvent> = Vec::new();
        let n = actions.len();
        let mut i: usize = 0;
        assert(actions@.take(0) =~= Seq::<Action>::empty());
        assert(event_views(events@) =~= Seq::empty());
        while i < n
            invariant
                n == actions@.len(),
                i <= n,
                self@ == start.apply_all(actions@.take(i as int)),
                event_views(events@) == start.emits_all(actions@.take(i as int)),
            decreases n - i,
        {
            assert(actions@.take(i + 1).drop_last() =~= actions@.take(i as int));
            self.act(&actions[i], &mut events);
            i += 1;
        }
        assert(actions@.take(n as int) =~= actions@);
        if events.is_empty() {
            None
        } else {
            Some(events)
        }
    }

    /// The actions that `key` asks for in the editor's mode, if the mode has
    /// key bindings.
    pub fn convert_key_to_actions(&self, key: KeyEvent) -> (r: Option<Vec<Action>>)
        ensures
            match r {
                Some(actions) => model::mode_keys(self@.mode, key.code) == Some(actions@),
                None => model::mode_keys(self@.mode, key.code) is None,
            },
    {
        match self.mode {
            Mode::Normal => Some(normal_mode_keybinding(key)),
            Mode::Insert => Some(insert_mode_keybinding(key)),
            _ => None,
        }
    }

    /// Where the cursor is to be shown.
    fn cursor_intent(&self) -> (r: DrawAction)
        ensures
            r@ == self@.cursor_intent(),
    {
        let x = self.render_col as i64 + self.get_offset() as i64 - self.view.left as i64;
        let y = self.render_row as i64 - self.view.top as i64;
        DrawAction::CursorTo(
            into_range(x, u32::MAX),
            into_range(y, u32::MAX),
            get_cursor_style(self.mode),
        )
    }

    /// The number of columns of the window.
    fn columns(&self) -> (r: u32)
        ensures
            r == self@.columns(),
    {
        self.view.get_width().saturating_add(1)
    }

    /// What is drawn for row `y` that holds `line`.
    fn row_text(&self, y: u32, line: &str) -> (r: String)
        ensures
            r@ == self@.row_text(y as int, line@),
    {
        let mut shown = if self.line_numbered {
            format_label(y as u64 + 1)
        } else {
            String::new()
        };
        match line.trucate_at(self.view.left as usize) {
            Some(rest) => {
                shown.append(rest.as_str());
            },
            None => {},
        }
        let ghost whole = shown@;
        assert(whole =~= (if self@.numbered {
            crate::utils::line_label((y + 1) as nat)
        } else {
            Seq::empty()
        }) + (match crate::utils::cut_front(line@, self@.left as nat) {
            Some(rest) => rest,
            None => Seq::empty(),
        }));
        fit_line(shown.as_str(), self.columns())
    }

    /// The intent for row `y` of the text.
    fn row_intent(&self, y: u32) -> (r: DrawAction)
        requires
            y >= self.view.top,
        ensures
            self@.row_ok(y as int, r@),
    {
        let shown = match self.content.get_line(y) {
            Some(line) => self.row_text(y, line.as_str()),
            None => {
                let label = if self.line_numbered {
                    dim(format_label(y as u64 + 1).as_str())
                } else {
                    String::new()
                };
                let shown = fit_line(label.as_str(), self.columns());
                assert(self@.blank_text(y as int, shown@));
                shown
            },
        };
        DrawAction::AskRedraw(Redraw::Line(y - self.view.top, shown))
    }

    /// The intents for every row of the window, from the top down.
    fn draw_all(&self) -> (plan: Vec<DrawAction>)
        ensures
            plan@.len() == self@.rows(),
            forall|k: int|
                0 <= k < self@.rows() ==> self@.row_ok(
                    self@.top + k,
                    #[trigger] draw_views(plan@)[k],
                ),
    {
        let mut plan: Vec<DrawAction> = Vec::new();
        if self.view.top > self.view.bottom {
            return plan;
        }
        let mut y: u32 = self.view.top;
        loop
            invariant_except_break
                plan@.len() == y - self.view.top,
            invariant
                self.view.top <= y <= self.view.bottom,
                forall|k: int|
                    0 <= k < plan@.len() ==> self@.row_ok(
                        self@.top + k,
                        #[trigger] draw_views(plan@)[k],
                    ),
            ensures
                plan@.len() == self@.rows(),
                forall|k: int|
                    0 <= k < self@.rows() ==> self@.row_ok(
                        self@.top + k,
                        #[trigger] draw_views(plan@)[k],
                    ),
            decreases self.view.bottom - y,
        {
            let ghost before = draw_views(plan@);
            let intent = self.row_intent(y);
            plan.push(intent);
            assert(draw_views(plan@) =~= before.push(intent@));
            if y == self.view.bottom {
                break ;
            }
            y += 1;
        }
        plan
    }
}

impl<T: EditorContentTrait> EditorIO for Editor<T> {
    /// Where the file could not be read, the text is left empty and the
    /// host is told so.
    fn open_file(&mut self, path: String, data: Option<Vec<u8>>) -> (r: Option<
        Vec<OutcomingConsoleEvent>,
    >)
        ensures
            final(self)@ == old(self)@.on_event(IncomingConsoleEvent::File(path, data)).0,
            match r {
                Some(events) => events@.len() > 0 && event_views(events@) == old(self)@.on_event(
                    IncomingConsoleEvent::File(path, data),
                ).1,
                None => old(self)@.on_event(IncomingConsoleEvent::File(path, data)).1.len() == 0,
            },
    {
        self.file_path = Some(path);
        match data {
            Some(bytes) => {
                self.content.load_data(bytes);
                None
            },
            None => {
                self.content.load_data(Vec::new());
                let events = vec![
                    OutcomingConsoleEvent::Message(
                        String::from_str("editor"),
                        String::from_str("the file could not be read"),
                    ),
                ];
                assert(crate::text::decode(Seq::<u8>::empty()) =~= Seq::<char>::empty());
                assert(event_views(events@) =~= old(self)@.on_event(
                    IncomingConsoleEvent::File(path, data),
                ).1);
                Some(events)
            },
        }
    }

    fn save_file(&self) -> (r: OutcomingConsoleEvent)
        ensures
            seq![r@] == self@.emits(Action::SaveFile),
    {
        match &self.file_path {
            Some(path) => self.write_file(path.clone()),
            None => OutcomingConsoleEvent::Message(
                String::from_str("editor"),
                String::from_str("there isn't any file opened!"),
            ),
        }
    }

    fn write_file(&self, path: String) -> (r: OutcomingConsoleEvent)
        ensures
            r@ == OutcomingView::WriteFile(path@, encode(self@.text, self@.crlf)),
    {
        let mut bytes: Vec<u8> = Vec::new();
        self.content.read_data(&mut bytes);
        assert(bytes@ =~= encode(self@.text, self@.crlf));
        OutcomingConsoleEvent::WriteFile(path, bytes)
    }
}

impl<T: EditorContentTrait> EditorEvent for Editor<T> {
    /// The file is opened; what the host would be told is dropped.
    fn on_load_file(&mut self, path: String, data: Option<Vec<u8>>)
        ensures
            final(self)@ == old(self)@.on_event(IncomingConsoleEvent::File(path, data)).0,
    {
        let _ = self.open_file(path, data);
    }

    /// The actions are carried out; what they ask of the host is dropped.
    fn on_action(&mut self, action: Vec<Action>)
        ensures
            final(self)@ == old(self)@.apply_all(action@),
    {
        let _ = self.trigger_actions(&action);
    }
}

impl<T: EditorContentTrait> ModuleEvent for Editor<T> {
    /// A key is turned into actions by the mode's key bindings, and the
    /// actions are carried out; a file is opened.
    fn on_event(&mut self, event: IncomingConsoleEvent) -> (r: Option<Vec<OutcomingConsoleEvent>>)
        ensures
            final(self)@ == old(self)@.on_event(event).0,
            match r {
                Some(events) => events@.len() > 0 && event_views(events@) == old(self)@.on_event(
                    event,
                ).1,
                None => old(self)@.on_event(event).1.len() == 0,
            },
    {
        match event {
            IncomingConsoleEvent::Key(key) => {
                match self.convert_key_to_actions(key) {
                    Some(actions) => self.trigger_actions(&actions),
                    None => {
                        let events = vec![
                            OutcomingConsoleEvent::Message(
                                String::from_str("editor"),
                                String::from_str("this mode has no key bindings"),
                            ),
                        ];
                        assert(event_views(events@) =~= old(self)@.on_event(event).1);
                        Some(events)
                    },
                }
            },
            IncomingConsoleEvent::File(path, data) => self.open_file(path, data),
            _ => None,
        }
    }

    /// The draw intents for the pending redraw, the cursor last. Nothing is
    /// drawn while no redraw is pending.
    fn on_draw(&self) -> (r: Option<Vec<DrawAction>>)
        ensures
            match r {
                Some(plan) => self@.plan_ok(draw_views(plan@)),
                None => self@.redraw is None,
            },
    {
        let mut plan: Vec<DrawAction> = match &self.should_redraw {
            Some(Redraw::All) => self.draw_all(),
            Some(Redraw::Line(y, text)) => {
                vec![
                    DrawAction::AskRedraw(
                        Redraw::Line(y.saturating_sub(self.view.top), self.row_text(*y, text.as_str())),
                    ),
                ]
            },
            Some(Redraw::Cursor) => Vec::new(),
            Some(Redraw::Range(a, b)) => vec![DrawAction::AskRedraw(Redraw::Range(*a, *b))],
            None => {
                return None;
            },
        };
        let ghost rows = draw_views(plan@);
        let cursor = self.cursor_intent();
        plan.push(cursor);
        assert(draw_views(plan@) =~= rows.push(cursor@));
        proof {
            match self@.redraw {
                Some(crate::client::RedrawView::All) => {
                    assert forall|k: int| 0 <= k < self@.rows() implies self@.row_ok(
                        self@.top + k,
                        #[trigger] draw_views(plan@)[k],
                    ) by {
                        assert(draw_views(plan@)[k] == rows[k]);
                    }
                },
                Some(crate::client::RedrawView::Line(y, text)) => {
                    assert(draw_views(plan@) =~= seq![rows[0], cursor@]);
                },
                Some(crate::client::RedrawView::Cursor) => {
                    assert(draw_views(plan@) =~= seq![cursor@]);
                },
                Some(crate::client::RedrawView::Range(a, b)) => {
                    assert(draw_views(plan@) =~= seq![rows[0], cursor@]);
                },
                None => {},
            }
        }
        Some(plan)
    }

    /// Adopts the rectangle as the size of the window.
    fn on_resize(&mut self, top: u32, right: u32, bottom: u32, left: u32)
        ensures
            final(self)@ == old(self)@.resized(
                model::most(right - left, 0),
                model::most(bottom - top, 0),
            ),
    {
        self.resize(right.saturating_sub(left), bottom.saturating_sub(top));
    }
}

impl<T: EditorContentTrait> ModuleView for Editor<T> {
    fn get_container(&self) -> (r: &Container)
        ensures
            *r == self.view,
    {
        &self.view
    }
}

impl<T: EditorContentTrait> Module for Editor<T> {

}

/// `text` in dark grey: what crossterm's `Stylize::dark_grey` gives when
/// it is formatted. It puts the escape sequence that sets the foreground
/// colour before the text and the one that sets it back behind it; where
/// colours are switched off for the process, both sequences are bare; and
/// for a console that takes no escape sequences it formats nothing.
#[verifier::external_body]
fn dim(text: &str) -> (r: String)
    ensures
        model::is_dimmed(r@, text@),
{
    text.dark_grey().to_string()
}

/// The actions that a key asks for in normal mode.
pub fn normal_mode_keybinding(key: KeyEvent) -> (r: Vec<Action>)
    ensures
        r@ == model::normal_keys(key.code),
{
    let r = match key.code {
        KeyCode::Char(c) => {
            if c == 'k' {
                vec![Action::Move(Movement::Up)]
            } else if c == 'j' {
                vec![Action::Move(Movement::Down)]
            } else if c == 'h' {
                vec![Action::Move(Movement::Left)]
            } else if c == 'l' {
                vec![Action::Move(Movement::Right)]
            } else if c == 'q' {
                vec![Action::Quit]
            } else if c == 'i' {
                vec![Action::ChangeMode(Mode::Insert)]
            } else if c == 'I' {
                vec![Action::Move(Movement::LineStart), Action::ChangeMode(Mode::Insert)]
            } else if c == 'a' {
                vec![Action::Move(Movement::Right), Action::ChangeMode(Mode::Insert)]
            } else if c == 'A' {
                vec![Action::Move(Movement::LineEnd), Action::ChangeMode(Mode::Insert)]
            } else if c == 's' {
                vec![Action::SaveFile]
            } else if c == ':' {
                vec![Action::ChangeMode(Mode::Command)]
            } else {
                vec![Action::Noop]
            }
        },
        KeyCode::PageDown => vec![Action::ScrollBy(1)],
        KeyCode::PageUp => vec![Action::ScrollBy(-1)],
        KeyCode::Backspace => vec![Action::Move(Movement::Left)],
        KeyCode::Enter => vec![Action::Move(Movement::Down)],
        KeyCode::Esc => vec![Action::Quit],
        KeyCode::Up => vec![Action::Move(Movement::Up)],
        KeyCode::Down => vec![Action::Move(Movement::Down)],
        KeyCode::Left => vec![Action::Move(Movement::Left)],
        KeyCode::Right => vec![Action::Move(Movement::Right)],
        _ => vec![Action::Noop],
    };
    assert(r@ =~= model::normal_keys(key.code));
    r
}

/// The actions that a key asks for in insert mode.
pub fn insert_mode_keybinding(key: KeyEvent) -> (r: Vec<Action>)
    ensures
        r@ == model::insert_keys(key.code),
{
    let r = match key.code {
        KeyCode::Char(c) => vec![Action::InsertChar(c)],
        KeyCode::Backspace => vec![Action::Backspace],
        KeyCode::Delete => vec![Action::Delete],
        KeyCode::Up => vec![Action::Move(Movement::Up)],
        KeyCode::Down => vec![Action::Move(Movement::Down)],
        KeyCode::Left => vec![Action::Move(Movement::Left)],
        KeyCode::Right => vec![Action::Move(Movement::Right)],
        KeyCode::Esc => vec![Action::ChangeMode(Mode::Normal)],
        KeyCode::Enter => vec![Action::InsertChar('\n')],
        _ => vec![Action::Noop],
    };
    assert(r@ =~= model::insert_keys(key.code));
    r
}

/// The shape of the cursor in a mode.
pub fn get_cursor_style(mode: Mode) -> (r: CursorStyle)
    ensures
        r == model::cursor_style(mode),
{
    match mode {
        Mode::Normal => CursorStyle::SteadyBlock,
        Mode::Insert => CursorStyle::BlinkingBar,
        Mode::Visual => CursorStyle::SteadyUnderScore,
        Mode::Command => CursorStyle::BlinkingBar,
    }
}

} // verus!
