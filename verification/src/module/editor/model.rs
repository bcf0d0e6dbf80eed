//! The editor as mathematics: its state, and what each motion and action
//! makes of it.
//!
//! Rows and columns are integers between 0 and the largest coordinate. The
//! logical cursor (`row`, `col`) keeps the column that the user last asked
//! for; the rendered cursor (`render_row`, `render_col`) is where the cursor
//! is shown. The window `top..=bottom`, `left..=right` says which part of the
//! text is visible; a numbered editor shows a gutter of 6 columns in it.

use crate::client::console::{IncomingConsoleEvent, KeyCode, OutcomingView};
use crate::client::{Action, CursorStyle, DrawActionView, Mode, Movement, RedrawView};
use crate::text::{
    as_coord, char_at, coord_max, decode, encode, has_cr, has_line, line_len, line_text,
    with_delete, with_insert,
};
use crate::utils::{cut_front, fitted, line_label};
use vstd::prelude::*;

verus! {

/// The smaller of two integers.
pub open spec fn least(a: int, b: int) -> int {
    if a <= b {
        a
    } else {
        b
    }
}

/// The larger of two integers.
pub open spec fn most(a: int, b: int) -> int {
    if a >= b {
        a
    } else {
        b
    }
}

/// `x` brought up to `lo` and then down to `hi`.
pub open spec fn clamped(x: int, lo: int, hi: int) -> int {
    least(most(lo, x), hi)
}

/// The width of the line-number gutter.
pub open spec fn gutter_width(numbered: bool) -> int {
    if numbered {
        6
    } else {
        0
    }
}

/// The name under which the editor speaks to the host.
pub open spec fn module_name() -> Seq<char> {
    "editor"@
}

/// What the editor says when it is asked to save and has no file.
pub open spec fn no_file_message() -> Seq<char> {
    "there isn't any file opened!"@
}

/// What the editor says when a key reaches it in a mode without key
/// bindings.
pub open spec fn no_keys_message() -> Seq<char> {
    "this mode has no key bindings"@
}

/// What the editor says when the file it was told to open could not be read.
pub open spec fn load_failed_message() -> Seq<char> {
    "the file could not be read"@
}

/// The shape of the cursor in each mode.
pub open spec fn cursor_style(mode: Mode) -> CursorStyle {
    match mode {
        Mode::Normal => CursorStyle::SteadyBlock,
        Mode::Insert => CursorStyle::BlinkingBar,
        Mode::Visual => CursorStyle::SteadyUnderScore,
        Mode::Command => CursorStyle::BlinkingBar,
    }
}

/// What each key asks for in normal mode.
pub open spec fn normal_keys(code: KeyCode) -> Seq<Action> {
    match code {
        KeyCode::Char(c) => if c == 'k' {
            seq![Action::Move(Movement::Up)]
        } else if c == 'j' {
            seq![Action::Move(Movement::Down)]
        } else if c == 'h' {
            seq![Action::Move(Movement::Left)]
        } else if c == 'l' {
            seq![Action::Move(Movement::Right)]
        } else if c == 'q' {
            seq![Action::Quit]
        } else if c == 'i' {
            seq![Action::ChangeMode(Mode::Insert)]
        } else if c == 'I' {
            seq![Action::Move(Movement::LineStart), Action::ChangeMode(Mode::Insert)]
        } else if c == 'a' {
            seq![Action::Move(Movement::Right), Action::ChangeMode(Mode::Insert)]
        } else if c == 'A' {
            seq![Action::Move(Movement::LineEnd), Action::ChangeMode(Mode::Insert)]
        } else if c == 's' {
            seq![Action::SaveFile]
        } else if c == ':' {
            seq![Action::ChangeMode(Mode::Command)]
        } else {
            seq![Action::Noop]
        },
        KeyCode::PageDown => seq![Action::ScrollBy(1i32)],
        KeyCode::PageUp => seq![Action::ScrollBy(-1i32)],
        KeyCode::Backspace => seq![Action::Move(Movement::Left)],
        KeyCode::Enter => seq![Action::Move(Movement::Down)],
        KeyCode::Esc => seq![Action::Quit],
        KeyCode::Up => seq![Action::Move(Movement::Up)],
        KeyCode::Down => seq![Action::Move(Movement::Down)],
        KeyCode::Left => seq![Action::Move(Movement::Left)],
        KeyCode::Right => seq![Action::Move(Movement::Right)],
        _ => seq![Action::Noop],
    }
}

/// What each key asks for in insert mode.
pub open spec fn insert_keys(code: KeyCode) -> Seq<Action> {
    match code {
        KeyCode::Char(c) => seq![Action::InsertChar(c)],
        KeyCode::Backspace => seq![Action::Backspace],
        KeyCode::Delete => seq![Action::Delete],
        KeyCode::Up => seq![Action::Move(Movement::Up)],
        KeyCode::Down => seq![Action::Move(Movement::Down)],
        KeyCode::Left => seq![Action::Move(Movement::Left)],
        KeyCode::Right => seq![Action::Move(Movement::Right)],
        KeyCode::Esc => seq![Action::ChangeMode(Mode::Normal)],
        KeyCode::Enter => seq![Action::InsertChar('\n')],
        _ => seq![Action::Noop],
    }
}

/// What a key asks for in a mode: nothing is bound in visual and command
/// mode.
pub open spec fn mode_keys(mode: Mode, code: KeyCode) -> Option<Seq<Action>> {
    match mode {
        Mode::Normal => Some(normal_keys(code)),
        Mode::Insert => Some(insert_keys(code)),
        _ => None,
    }
}

/// `text` in dark grey, as a terminal with colours takes it.
pub open spec fn dim_colored(text: Seq<char>) -> Seq<char> {
    "\x1b[38;5;8m"@ + text + "\x1b[39m"@
}

/// `text` between the marks that are left of dark grey where colours are
/// switched off.
pub open spec fn dim_plain(text: Seq<char>) -> Seq<char> {
    "\x1b[m"@ + text + "\x1b[m"@
}

/// `shown` is what comes of showing `text` in dark grey: the text with
/// colours on or off, or nothing at all where the console takes no escape
/// sequences.
pub open spec fn is_dimmed(shown: Seq<char>, text: Seq<char>) -> bool {
    shown == dim_colored(text) || shown == dim_plain(text) || shown == Seq::<char>::empty()
}

/// The state of an editor.
pub struct EditorState {
    pub text: Seq<char>,
    pub crlf: bool,
    pub path: Option<Seq<char>>,
    pub row: int,
    pub col: int,
    pub render_row: int,
    pub render_col: int,
    pub top: int,
    pub right: int,
    pub bottom: int,
    pub left: int,
    pub mode: Mode,
    pub redraw: Option<RedrawView>,
    pub numbered: bool,
}

impl EditorState {
    /// The width of the gutter of this editor.
    pub open spec fn gutter(self) -> int {
        gutter_width(self.numbered)
    }

    /// The distance between the window's left and right edge.
    pub open spec fn width(self) -> int {
        most(self.right - self.left, 0)
    }

    /// The distance between the window's top and bottom edge.
    pub open spec fn height(self) -> int {
        most(self.bottom - self.top, 0)
    }

    /// The length of line `row` as a coordinate, if the text has that line.
    pub open spec fn len_of(self, row: int) -> Option<int> {
        if row >= 0 && has_line(self.text, row as nat) {
            Some(as_coord(line_len(self.text, row as nat)))
        } else {
            None
        }
    }

    /// The characters of line `row`, if the text has that line.
    pub open spec fn line_of(self, row: int) -> Option<Seq<char>> {
        if row >= 0 && has_line(self.text, row as nat) {
            Some(line_text(self.text, row as nat))
        } else {
            None
        }
    }

    /// The same state with another pending redraw.
    pub open spec fn asking(self, redraw: RedrawView) -> EditorState {
        EditorState { redraw: Some(redraw), ..self }
    }

    /// The last column at which the cursor can be shown with the gutter
    /// before it.
    pub open spec fn last_col(self) -> int {
        coord_max() - self.gutter()
    }

    /// The window put with its corner at column `horizontal` and row
    /// `vertical`, as far as the coordinates allow, with its size kept. The
    /// rendered row is the cursor's row brought into the window. The rendered
    /// column is the cursor's column cut to the line of that row; where the
    /// text has no such line, it is the cursor's column brought into the
    /// window.
    #[verifier::opaque]
    pub open spec fn window_at(self, horizontal: int, vertical: int) -> EditorState {
        let left = clamped(horizontal, 0, coord_max() - self.width());
        let right = left + self.width();
        let top = clamped(vertical, 0, coord_max() - self.height());
        let bottom = top + self.height();
        let render_row = clamped(self.row, top, bottom);
        let moved = EditorState { left, right, top, bottom, render_row, ..self };
        let render_col = match moved.len_of(render_row) {
            Some(n) => least(least(self.col, n), self.last_col()),
            None => most(0, clamped(self.col, left, right - self.gutter())),
        };
        EditorState { render_col, ..moved }
    }

    /// The window moved sideways, if needed, so that it shows the rendered
    /// column; everything is then to be drawn again.
    #[verifier::opaque]
    pub open spec fn goto_cursor(self) -> EditorState {
        if self.render_col < self.left {
            self.window_at(self.render_col, self.top).asking(RedrawView::All)
        } else if self.render_col + self.gutter() > self.right {
            self.window_at(self.render_col + self.gutter() - self.width(), self.top).asking(
                RedrawView::All,
            )
        } else {
            self
        }
    }

    /// The window moved so that its corner lies at column `horizontal` and row
    /// `vertical`, as far as the coordinates allow, with its size kept; the
    /// rendered cursor is brought into its line, and the window then moved
    /// sideways, if needed, so that it shows the rendered column.
    #[verifier::opaque]
    pub open spec fn scroll_to(self, horizontal: int, vertical: int) -> EditorState {
        self.window_at(horizontal, vertical).goto_cursor()
    }

    /// The logical cursor set to what is shown, where it has left the row
    /// that is shown.
    pub open spec fn resync(self) -> EditorState {
        if self.render_row != self.row {
            EditorState { row: self.render_row, col: self.render_col, ..self }
        } else {
            self
        }
    }

    /// The window moved by `rows` rows and `cols` columns, everything to be
    /// drawn again.
    #[verifier::opaque]
    pub open spec fn scroll_by(self, cols: int, rows: int) -> EditorState {
        self.scroll_to(self.left + cols, self.top + rows).asking(RedrawView::All)
    }

    /// One row up: the window follows where the cursor is shown in its top
    /// row.
    #[verifier::opaque]
    pub open spec fn step_up(self) -> EditorState {
        let s = if self.render_row == self.top {
            self.scroll_by(0, -1)
        } else {
            self
        };
        EditorState { row: most(0, s.row - 1), ..s }
    }

    /// One row down, but not below the window: the window follows where the
    /// cursor is shown in its bottom row.
    #[verifier::opaque]
    pub open spec fn step_down(self) -> EditorState {
        let s = if self.render_row == self.bottom {
            self.scroll_by(0, 1)
        } else {
            self
        };
        EditorState { row: least(s.bottom, s.row + 1), ..s }
    }

    /// One column to the left, or, from the first column of a row but the
    /// first, to the row before. The flag says that the cursor changed rows.
    #[verifier::opaque]
    pub open spec fn step_left(self) -> (EditorState, bool) {
        let s = if self.render_col == self.left {
            self.scroll_by(-1, 0)
        } else {
            self
        };
        if s.col == 0 && s.row != 0 {
            let up = EditorState { row: s.row - 1, ..s };
            if up.render_row == up.top {
                (up.scroll_by(0, -1), true)
            } else {
                (up, true)
            }
        } else {
            (EditorState { col: most(0, least(s.render_col, s.col) - 1), ..s }, false)
        }
    }

    /// One column to the right, or, from the end of a line of length `len`, to
    /// the start of the next row.
    #[verifier::opaque]
    pub open spec fn step_right(self, len: int) -> EditorState {
        let s = if self.render_col + self.gutter() == self.right {
            self.scroll_by(1, 0)
        } else {
            self
        };
        if s.col + 1 > len {
            let down = EditorState { col: 0, row: least(s.row + 1, coord_max()), ..s };
            if down.render_row == down.bottom {
                down.scroll_by(0, 1)
            } else {
                down
            }
        } else {
            EditorState { col: s.col + 1, ..s }
        }
    }

    /// The first half of a motion: the logical cursor moves, and the window
    /// follows where the cursor stood at its edge. `len` is the length of the
    /// line that the cursor is shown in. The flag says that the cursor
    /// wrapped to the end of the line before.
    #[verifier::opaque]
    pub open spec fn step(self, movement: Movement, len: int) -> (EditorState, bool) {
        match movement {
            Movement::Up => (self.step_up(), false),
            Movement::Down => (self.step_down(), false),
            Movement::Left => self.step_left(),
            Movement::Right => (self.step_right(len), false),
            Movement::LineEnd => (EditorState { col: len, ..self }, false),
            Movement::LineStart => (EditorState { col: 0, ..self }, false),
        }
    }

    /// The second half of a motion: a row behind the last line is taken back
    /// by one, the rendered column is cut to the line's length, and the window
    /// and the rendered row follow. `len` is the length to fall back on
    /// where the row has no line even then.
    #[verifier::opaque]
    pub open spec fn settle(self, len: int, wrapped: bool) -> EditorState {
        let row = if self.len_of(self.row) is Some {
            self.row
        } else {
            self.row - 1
        };
        let len = match self.len_of(row) {
            Some(n) => n,
            None => len,
        };
        let col = if wrapped {
            len
        } else {
            self.col
        };
        let s = EditorState {
            row,
            col,
            render_col: least(least(len, col), self.last_col()),
            ..self
        }.goto_cursor();
        EditorState { render_row: clamped(s.row, s.top, s.bottom), ..s }
    }

    /// The state after a cursor motion.
    #[verifier::opaque]
    pub open spec fn move_cursor(self, movement: Movement) -> EditorState {
        let len = match self.len_of(self.render_row) {
            Some(n) => n,
            None => 1,
        };
        let (s, wrapped) = self.asking(RedrawView::Cursor).resync().step(movement, len);
        s.settle(len, wrapped)
    }

    /// The same state, asking for its rendered row to be drawn again if the
    /// text has that line.
    #[verifier::opaque]
    pub open spec fn asking_line(self) -> EditorState {
        match self.line_of(self.render_row) {
            Some(line) => self.asking(RedrawView::Line(self.render_row as u32, line)),
            None => self,
        }
    }

    /// The same state after the character under the cursor is removed.
    #[verifier::opaque]
    pub open spec fn delete_here(self) -> EditorState {
        let deleted = char_at(self.text, self.row as nat, self.render_col as nat);
        let s = EditorState {
            text: with_delete(self.text, self.row as nat, self.render_col as nat),
            ..self
        };
        if deleted == Some('\n') {
            s.asking(RedrawView::All)
        } else {
            s.asking_line()
        }
    }

    /// The state after a window of `height` rows and `width` columns is
    /// adopted: the corner stays, the far edges follow.
    #[verifier::opaque]
    pub open spec fn resized(self, width: int, height: int) -> EditorState {
        EditorState {
            bottom: least(self.top + most(height - 1, 0), coord_max()),
            right: least(self.left + most(width - 1, 0), coord_max()),
            ..self
        }.asking(RedrawView::All)
    }

    /// The state after one action.
    pub open spec fn apply(self, action: Action) -> EditorState {
        match action {
            Action::Move(movement) => self.move_cursor(movement),
            Action::InsertChar(c) => {
                let s = EditorState {
                    text: with_insert(self.text, c, self.row as nat, self.render_col as nat),
                    ..self
                }.move_cursor(Movement::Right);
                if c == '\n' {
                    s.asking(RedrawView::All)
                } else {
                    s.asking_line()
                }
            },
            Action::Backspace => {
                if self.render_col == 0 && self.render_row == 0 {
                    self.asking(RedrawView::Cursor)
                } else {
                    self.move_cursor(Movement::Left).delete_here()
                }
            },
            Action::Delete => self.delete_here(),
            Action::ScrollBy(steps) => self.scroll_by(0, steps as int),
            Action::Resize(top, right, bottom, left) => self.resized(
                most(right - left, 0),
                most(bottom - top, 0),
            ),
            Action::SaveFile => self,
            Action::ChangeMode(mode) => EditorState { mode, ..self }.asking(RedrawView::Cursor),
            _ => self.asking(RedrawView::Cursor),
        }
    }

    /// The state after a list of actions: the pending redraw is dropped, then
    /// the actions are applied in order.
    pub open spec fn apply_all(self, actions: Seq<Action>) -> EditorState
        decreases actions.len(),
    {
        if actions.len() == 0 {
            EditorState { redraw: None, ..self }
        } else {
            self.apply_all(actions.drop_last()).apply(actions.last())
        }
    }

    /// What the editor asks of the host on one action: to take note of a new
    /// mode, or to write the text out.
    pub open spec fn emits(self, action: Action) -> Seq<OutcomingView> {
        match action {
            Action::ChangeMode(mode) => seq![OutcomingView::ChangeMode(mode)],
            Action::SaveFile => match self.path {
                Some(path) => seq![OutcomingView::WriteFile(path, encode(self.text, self.crlf))],
                None => seq![OutcomingView::Message(module_name(), no_file_message())],
            },
            _ => Seq::empty(),
        }
    }

    /// What the editor asks of the host over a list of actions, in order.
    pub open spec fn emits_all(self, actions: Seq<Action>) -> Seq<OutcomingView>
        decreases actions.len(),
    {
        if actions.len() == 0 {
            Seq::empty()
        } else {
            self.emits_all(actions.drop_last()) + self.apply_all(actions.drop_last()).emits(
                actions.last(),
            )
        }
    }

    /// The state after an input from the host, and what the editor asks of
    /// the host in answer.
    pub open spec fn on_event(self, event: IncomingConsoleEvent) -> (EditorState, Seq<OutcomingView>) {
        match event {
            IncomingConsoleEvent::Key(key) => match mode_keys(self.mode, key.code) {
                Some(actions) => (self.apply_all(actions), self.emits_all(actions)),
                None => (self, seq![OutcomingView::Message(module_name(), no_keys_message())]),
            },
            IncomingConsoleEvent::File(path, data) => match data {
                Some(bytes) => (
                    EditorState {
                        path: Some(path@),
                        text: decode(bytes@),
                        crlf: has_cr(bytes@),
                        ..self
                    },
                    Seq::empty(),
                ),
                None => (
                    EditorState {
                        path: Some(path@),
                        text: Seq::empty(),
                        crlf: false,
                        ..self
                    },
                    seq![OutcomingView::Message(module_name(), load_failed_message())],
                ),
            },
            _ => (self, Seq::empty()),
        }
    }

    /// Where the cursor is to be shown, in the module's own coordinates.
    pub open spec fn cursor_intent(self) -> DrawActionView {
        DrawActionView::CursorTo(
            clamped(self.render_col + self.gutter() - self.left, 0, coord_max()) as u32,
            clamped(self.render_row - self.top, 0, coord_max()) as u32,
            cursor_style(self.mode),
        )
    }

    /// The number of columns of the window.
    pub open spec fn columns(self) -> int {
        least(self.width() + 1, coord_max())
    }

    /// What is drawn for row `y` that holds `line`: its label, where lines
    /// are numbered, and the line from the window's left edge on, as a line
    /// of as many columns as the window has.
    pub open spec fn row_text(self, y: int, line: Seq<char>) -> Seq<char> {
        let label = if self.numbered {
            line_label((y + 1) as nat)
        } else {
            Seq::empty()
        };
        let shown = match cut_front(line, self.left as nat) {
            Some(rest) => rest,
            None => Seq::empty(),
        };
        fitted(label + shown, self.columns() as nat)
    }

    /// What may be drawn for row `y` where the text has no such line: what
    /// comes of dimming the label, where lines are numbered, as a line of as
    /// many columns as the window has.
    pub open spec fn blank_text(self, y: int, shown: Seq<char>) -> bool {
        if self.numbered {
            exists|dimmed: Seq<char>|
                is_dimmed(dimmed, line_label((y + 1) as nat)) && shown == #[trigger] fitted(
                    dimmed,
                    self.columns() as nat,
                )
        } else {
            shown == fitted(Seq::empty(), self.columns() as nat)
        }
    }

    /// `drawn` is the intent for row `y` of the text: the row's text where the
    /// text has that line, else the dimmed label or a blank line.
    pub open spec fn row_ok(self, y: int, drawn: DrawActionView) -> bool {
        &&& drawn matches DrawActionView::AskRedraw(RedrawView::Line(at, shown))
        &&& at == y - self.top
        &&& match self.line_of(y) {
            Some(line) => shown == self.row_text(y, line),
            None => self.blank_text(y, shown),
        }
    }

    /// The number of rows of the window.
    pub open spec fn rows(self) -> int {
        most(self.bottom - self.top + 1, 0)
    }

    /// `plan` is what the editor draws for its pending redraw: every row of
    /// the window, or one row, or nothing; and then the cursor.
    pub open spec fn plan_ok(self, plan: Seq<DrawActionView>) -> bool {
        match self.redraw {
            Some(RedrawView::All) => {
                &&& plan.len() == self.rows() + 1
                &&& forall|k: int| 0 <= k < self.rows() ==> self.row_ok(self.top + k, #[trigger] plan[k])
                &&& plan[self.rows()] == self.cursor_intent()
            },
            Some(RedrawView::Line(y, text)) => plan == seq![
                DrawActionView::AskRedraw(
                    RedrawView::Line(most(y - self.top, 0) as u32, self.row_text(y as int, text)),
                ),
                self.cursor_intent(),
            ],
            Some(RedrawView::Cursor) => plan == seq![self.cursor_intent()],
            Some(RedrawView::Range(a, b)) => plan == seq![
                DrawActionView::AskRedraw(RedrawView::Range(a, b)),
                self.cursor_intent(),
            ],
            None => false,
        }
    }

    /// Every coordinate is one, and the window's edges are in order.
    pub open spec fn valid(self) -> bool {
        &&& 0 <= self.row <= coord_max()
        &&& 0 <= self.col <= coord_max()
        &&& 0 <= self.render_row <= coord_max()
        &&& 0 <= self.render_col <= coord_max()
        &&& 0 <= self.top <= self.bottom <= coord_max()
        &&& 0 <= self.left <= self.right <= coord_max()
    }
}

} // verus!
