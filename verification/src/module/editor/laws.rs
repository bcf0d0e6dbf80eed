//! What holds of the editor's cursor and window after its motions and
//! actions.

use crate::client::{Action, Movement, RedrawView};
use crate::module::editor::model::{clamped, least, most, EditorState};
use crate::text::{
    as_coord, char_at, coord_max, has_line, lemma_line_start_nonneg, lemma_with_delete,
    line_len, offset_of, with_delete, with_insert,
};
use vstd::prelude::*;

verus! {

/// The rendered column lies within the line of the rendered row, where the
/// text has that line.
pub open spec fn cursor_in_line(s: EditorState) -> bool {
    s.len_of(s.render_row) matches Some(n) ==> s.render_col <= n
}

/// The rendered row lies within the window.
pub open spec fn row_in_window(s: EditorState) -> bool {
    s.top <= s.render_row <= s.bottom
}

/// The rendered column lies within the window, the gutter counted.
pub open spec fn col_in_window(s: EditorState) -> bool {
    s.left <= s.render_col && s.render_col + s.gutter() <= s.right
}

/// The window is at least as wide as the gutter.
pub open spec fn roomy(s: EditorState) -> bool {
    s.right - s.left >= s.gutter()
}

/// The row that is shown is the cursor's row, or a row before it, or a row
/// without a line.
pub open spec fn shown_at_cursor(s: EditorState) -> bool {
    s.render_row <= s.row || s.len_of(s.render_row) is None
}

/// The action moves the cursor and lets the window follow it.
pub open spec fn moves_cursor(s: EditorState, action: Action) -> bool {
    action is Move || action is InsertChar || (action is Backspace && !(s.render_col == 0
        && s.render_row == 0))
}

/// The action leaves the cursor and the window where they are.
pub open spec fn keeps_window(s: EditorState, action: Action) -> bool {
    !moves_cursor(s, action) && !(action is ScrollBy) && !(action is Resize)
}

/// Two states differ at most in the cursor, the window and the pending
/// redraw.
pub open spec fn same_buffer(s: EditorState, t: EditorState) -> bool {
    &&& t.text == s.text
    &&& t.crlf == s.crlf
    &&& t.path == s.path
    &&& t.mode == s.mode
    &&& t.numbered == s.numbered
}

/// The length of a line, as the editor sees it, is a coordinate that is at
/// most the length of the text.
pub proof fn lemma_len_of_bound(s: EditorState, row: int)
    ensures
        s.len_of(row) matches Some(n) ==> 0 <= n <= coord_max() && n <= s.text.len(),
        s.len_of(0) is Some,
{
    if row >= 0 {
        lemma_line_start_nonneg(s.text, row as nat);
    }
}

/// Putting the window keeps its size and the buffer, puts the rendered row
/// into the window and the rendered column into its line.
pub proof fn lemma_window_at(s: EditorState, horizontal: int, vertical: int)
    requires
        s.valid(),
    ensures
        ({
            let t = s.window_at(horizontal, vertical);
            &&& t.valid()
            &&& same_buffer(s, t)
            &&& t.row == s.row
            &&& t.col == s.col
            &&& t.redraw == s.redraw
            &&& t.right - t.left == s.right - s.left
            &&& t.bottom - t.top == s.bottom - s.top
            &&& t.left == clamped(horizontal, 0, coord_max() - (s.right - s.left))
            &&& t.top == clamped(vertical, 0, coord_max() - (s.bottom - s.top))
            &&& t.render_row == clamped(s.row, t.top, t.bottom)
            &&& t.render_col == match t.len_of(t.render_row) {
                Some(n) => least(least(s.col, n), s.last_col()),
                None => most(0, clamped(s.col, t.left, t.right - s.gutter())),
            }
            &&& t.render_col + t.gutter() <= coord_max()
            &&& row_in_window(t)
            &&& cursor_in_line(t)
        }),
{
    reveal(EditorState::window_at);
    let t = s.window_at(horizontal, vertical);
    lemma_len_of_bound(t, t.render_row);
}

/// Scrolling leaves the buffer and the logical cursor as they are.
pub proof fn lemma_scroll_keeps(s: EditorState, horizontal: int, vertical: int)
    ensures
        same_buffer(s, s.scroll_to(horizontal, vertical)),
        s.scroll_to(horizontal, vertical).row == s.row,
        s.scroll_to(horizontal, vertical).col == s.col,
{
    reveal(EditorState::scroll_to);
    reveal(EditorState::goto_cursor);
    reveal(EditorState::window_at);
}

/// Scrolling keeps the window's size and the buffer and moves the window up
/// or down as asked. It puts the rendered row into the window and the
/// rendered column into its line, and, where the window is at least as wide
/// as the gutter, into the window.
pub proof fn lemma_scroll_to(s: EditorState, horizontal: int, vertical: int)
    requires
        s.valid(),
    ensures
        ({
            let t = s.scroll_to(horizontal, vertical);
            &&& t.valid()
            &&& same_buffer(s, t)
            &&& t.row == s.row
            &&& t.col == s.col
            &&& t.right - t.left == s.right - s.left
            &&& t.bottom - t.top == s.bottom - s.top
            &&& t.top == clamped(vertical, 0, coord_max() - (s.bottom - s.top))
            &&& t.render_row == clamped(s.row, t.top, t.bottom)
            &&& row_in_window(t)
            &&& cursor_in_line(t)
            &&& roomy(s) ==> col_in_window(t)
        }),
{
    reveal(EditorState::scroll_to);
    reveal(EditorState::goto_cursor);
    let a = s.window_at(horizontal, vertical);
    lemma_window_at(s, horizontal, vertical);
    lemma_window_at(a, a.render_col, a.top);
    lemma_window_at(a, a.render_col + a.gutter() - a.width(), a.top);
}

/// The first half of a motion leaves the logical row inside the window, if
/// it started from the row that is shown and that row lay inside the window.
pub proof fn lemma_step(s: EditorState, movement: Movement, len: int)
    requires
        s.valid(),
        s.row == s.render_row,
        row_in_window(s),
        0 <= len <= coord_max(),
    ensures
        ({
            let t = s.step(movement, len).0;
            &&& t.valid()
            &&& same_buffer(s, t)
            &&& t.right - t.left == s.right - s.left
            &&& t.bottom - t.top == s.bottom - s.top
            &&& t.top <= t.row <= t.bottom
        }),
{
    reveal(EditorState::step);
    match movement {
        Movement::Up => {
            reveal(EditorState::step_up);
            reveal(EditorState::scroll_by);
            lemma_scroll_to(s, s.left, s.top - 1);
        },
        Movement::Down => {
            reveal(EditorState::step_down);
            reveal(EditorState::scroll_by);
            lemma_scroll_to(s, s.left, s.top + 1);
        },
        Movement::Left => {
            reveal(EditorState::step_left);
            reveal(EditorState::scroll_by);
            lemma_scroll_to(s, s.left - 1, s.top);
            let a = if s.render_col == s.left {
                s.scroll_by(-1, 0)
            } else {
                s
            };
            if a.col == 0 && a.row != 0 {
                let up = EditorState { row: a.row - 1, ..a };
                lemma_scroll_to(up, up.left, up.top - 1);
            }
        },
        Movement::Right => {
            reveal(EditorState::step_right);
            reveal(EditorState::scroll_by);
            lemma_scroll_to(s, s.left + 1, s.top);
            let a = if s.render_col + s.gutter() == s.right {
                s.scroll_by(1, 0)
            } else {
                s
            };
            if a.col + 1 > len {
                let down = EditorState { col: 0, row: least(a.row + 1, coord_max()), ..a };
                lemma_scroll_to(down, down.left, down.top + 1);
            }
        },
        Movement::LineEnd => {},
        Movement::LineStart => {},
    }
}

/// The second half of a motion puts the rendered cursor into its line and
/// into the window, if the logical row lies inside the window.
pub proof fn lemma_settle(s: EditorState, len: int, wrapped: bool)
    requires
        s.valid(),
        s.top <= s.row <= s.bottom,
        0 <= len <= coord_max(),
    ensures
        ({
            let t = s.settle(len, wrapped);
            &&& t.valid()
            &&& same_buffer(s, t)
            &&& cursor_in_line(t)
            &&& row_in_window(t)
            &&& shown_at_cursor(t)
            &&& roomy(s) ==> col_in_window(t)
        }),
{
    reveal(EditorState::settle);
    reveal(EditorState::goto_cursor);
    lemma_len_of_bound(s, s.row);
    lemma_len_of_bound(s, s.row - 1);
    let row = if s.len_of(s.row) is Some {
        s.row
    } else {
        s.row - 1
    };
    let len2 = match s.len_of(row) {
        Some(n) => n,
        None => len,
    };
    let col = if wrapped {
        len2
    } else {
        s.col
    };
    let a = EditorState { row, col, render_col: least(least(len2, col), s.last_col()), ..s };
    lemma_window_at(a, a.render_col, a.top);
    lemma_window_at(a, a.render_col + a.gutter() - a.width(), a.top);
    let b = a.goto_cursor();
    assert(b.top == a.top && b.bottom == a.bottom);
    assert(b.row == row);
}

/// After a cursor motion the rendered column lies within the line of the
/// rendered row, and the rendered row within the window. Where the window is
/// at least as wide as the gutter, the rendered column lies within the
/// window too.
pub proof fn lemma_move_cursor(s: EditorState, movement: Movement)
    requires
        s.valid(),
        row_in_window(s),
    ensures
        ({
            let t = s.move_cursor(movement);
            &&& t.valid()
            &&& same_buffer(s, t)
            &&& cursor_in_line(t)
            &&& row_in_window(t)
            &&& shown_at_cursor(t)
            &&& roomy(s) ==> col_in_window(t)
        }),
{
    reveal(EditorState::move_cursor);
    reveal(EditorState::resync);
    lemma_len_of_bound(s, s.render_row);
    let len = match s.len_of(s.render_row) {
        Some(n) => n,
        None => 1,
    };
    let a = s.asking(RedrawView::Cursor).resync();
    lemma_step(a, movement, len);
    let (b, wrapped) = a.step(movement, len);
    lemma_settle(b, len, wrapped);
}

/// Removing the character under the cursor leaves the rendered column
/// within its line, if the row that is shown is not one behind the cursor's
/// row.
pub proof fn lemma_delete_here(s: EditorState)
    requires
        s.valid(),
        cursor_in_line(s),
        shown_at_cursor(s),
    ensures
        ({
            let t = s.delete_here();
            &&& t.valid()
            &&& cursor_in_line(t)
            &&& t.row == s.row
            &&& t.col == s.col
            &&& t.render_row == s.render_row
            &&& t.render_col == s.render_col
            &&& t.top == s.top
            &&& t.bottom == s.bottom
            &&& t.left == s.left
            &&& t.right == s.right
            &&& t.numbered == s.numbered
        }),
{
    reveal(EditorState::delete_here);
    reveal(EditorState::asking_line);
    let t = s.delete_here();
    let row = s.row as nat;
    let col = s.render_col as nat;
    let shown = s.render_row as nat;
    lemma_with_delete(s.text, row, col, shown);
    lemma_len_of_bound(t, t.render_row);
    lemma_len_of_bound(s, s.render_row);
    if t.len_of(t.render_row) is Some {
        assert(has_line(s.text, shown));
        if char_at(s.text, row, col) is Some {
            if shown == row {
                assert(offset_of(t.text, row, col) is Some);
            } else {
                assert(shown < row);
            }
        } else {
            assert(t.text == s.text);
        }
    }
}

/// After an action the rendered column lies within the line of the rendered
/// row, if it did before; for an action that removes the character under the
/// cursor without moving there, only if the row that is shown is not one
/// behind the cursor's row. Unless the action resizes the window, the
/// rendered row lies within the window. The rendered column lies within the
/// window after an action that moves the cursor or scrolls, if the window is
/// at least as wide as the gutter; and after an action that leaves cursor and
/// window alone, if it did before.
pub proof fn lemma_apply(s: EditorState, action: Action)
    requires
        s.valid(),
        row_in_window(s),
        cursor_in_line(s),
    ensures
        ({
            let t = s.apply(action);
            &&& t.valid()
            &&& (action is Delete ==> shown_at_cursor(s)) ==> cursor_in_line(t)
            &&& !(action is Resize) ==> row_in_window(t)
            &&& ((moves_cursor(s, action) || action is ScrollBy) && roomy(s)) ==> col_in_window(t)
            &&& (keeps_window(s, action) && col_in_window(s)) ==> col_in_window(t)
        }),
{
    reveal(EditorState::asking_line);
    match action {
        Action::Move(movement) => {
            lemma_move_cursor(s, movement);
        },
        Action::InsertChar(c) => {
            let a = EditorState {
                text: with_insert(s.text, c, s.row as nat, s.render_col as nat),
                ..s
            };
            lemma_move_cursor(a, Movement::Right);
        },
        Action::Backspace => {
            if !(s.render_col == 0 && s.render_row == 0) {
                lemma_move_cursor(s, Movement::Left);
                lemma_delete_here(s.move_cursor(Movement::Left));
            }
        },
        Action::Delete => {
            if shown_at_cursor(s) {
                lemma_delete_here(s);
            } else {
                reveal(EditorState::delete_here);
            }
        },
        Action::ScrollBy(steps) => {
            reveal(EditorState::scroll_by);
            lemma_scroll_to(s, s.left, s.top + steps);
        },
        Action::Resize(top, right, bottom, left) => {
            reveal(EditorState::resized);
        },
        _ => {},
    }
}

} // verus!
