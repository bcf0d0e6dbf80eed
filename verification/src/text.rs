//! The line structure of a text, as mathematics over `Seq<char>`.
//!
//! A text is cut into lines at every `'\n'`. A text with `k` newlines has
//! `k + 1` lines; the last one is whatever follows the last newline, and may be
//! empty. A position is a pair of a row and a column, and stands for one offset
//! into the text: the start of the row's line plus the column.

use vstd::prelude::*;

verus! {

/// The largest row or column that the editor's coordinates can name.
pub open spec fn coord_max() -> int {
    0xffff_ffff
}

/// The first offset at or after `from` that holds a newline, or the length of
/// the text if there is none.
pub open spec fn line_end(s: Seq<char>, from: int) -> int
    decreases s.len() - from,
{
    if from < 0 || from >= s.len() || s[from] == '\n' {
        from
    } else {
        line_end(s, from + 1)
    }
}

/// The offset at which line `row` starts. For a row that the text does not
/// have, this lies beyond the end of the text.
pub open spec fn line_start(s: Seq<char>, row: nat) -> int
    decreases row,
{
    if row == 0 {
        0
    } else {
        line_end(s, line_start(s, (row - 1) as nat)) + 1
    }
}

/// Whether the text has a line `row`.
pub open spec fn has_line(s: Seq<char>, row: nat) -> bool {
    line_start(s, row) <= s.len()
}

/// The number of characters of line `row`, its newline not counted.
pub open spec fn line_len(s: Seq<char>, row: nat) -> int {
    line_end(s, line_start(s, row)) - line_start(s, row)
}

/// The characters of line `row`, its newline not included.
pub open spec fn line_text(s: Seq<char>, row: nat) -> Seq<char> {
    s.subrange(line_start(s, row), line_end(s, line_start(s, row)))
}

/// The offset that the position (`row`, `col`) stands for: the line must
/// exist, and the column may point at most just behind its last character.
pub open spec fn offset_of(s: Seq<char>, row: nat, col: nat) -> Option<int> {
    if has_line(s, row) && col <= line_len(s, row) {
        Some(line_start(s, row) + col)
    } else {
        None
    }
}

/// A length as a coordinate: lengths beyond the largest coordinate are
/// reported as the largest coordinate.
pub open spec fn as_coord(n: int) -> int {
    if n <= coord_max() {
        n
    } else {
        coord_max()
    }
}

/// `line_end` finds the end of the line that `from` lies in: nothing between
/// `from` and it is a newline, and it is a newline or the end of the text.
pub proof fn lemma_line_end(s: Seq<char>, from: int)
    requires
        0 <= from <= s.len(),
    ensures
        from <= line_end(s, from) <= s.len(),
        forall|k: int| from <= k < line_end(s, from) ==> s[k] != '\n',
        line_end(s, from) < s.len() ==> s[line_end(s, from)] == '\n',
    decreases s.len() - from,
{
    if from < s.len() && s[from] != '\n' {
        lemma_line_end(s, from + 1);
    }
}

/// An offset that is reached from `from` without passing a newline, and that
/// holds a newline or ends the text, is the line end.
pub proof fn lemma_line_end_is(s: Seq<char>, from: int, e: int)
    requires
        0 <= from <= e <= s.len(),
        forall|k: int| from <= k < e ==> s[k] != '\n',
        e == s.len() || s[e] == '\n',
    ensures
        line_end(s, from) == e,
    decreases e - from,
{
    if from < e {
        lemma_line_end_is(s, from + 1, e);
    }
}

/// Line starts are never negative.
pub proof fn lemma_line_start_nonneg(s: Seq<char>, row: nat)
    ensures
        0 <= line_start(s, row),
        has_line(s, row) ==> line_start(s, row) <= line_end(s, line_start(s, row)) <= s.len(),
        !has_line(s, row) ==> line_end(s, line_start(s, row)) == line_start(s, row),
    decreases row,
{
    if row > 0 {
        lemma_line_start_nonneg(s, (row - 1) as nat);
        if has_line(s, (row - 1) as nat) {
            lemma_line_end(s, line_start(s, (row - 1) as nat));
        }
    }
    if has_line(s, row) {
        lemma_line_end(s, line_start(s, row));
    }
}

/// A later line starts behind the end of every earlier line.
pub proof fn lemma_line_start_increases(s: Seq<char>, r1: nat, r2: nat)
    requires
        r1 < r2,
    ensures
        line_end(s, line_start(s, r1)) < line_start(s, r2),
        line_start(s, r1) < line_start(s, r2),
    decreases r2,
{
    lemma_line_start_nonneg(s, r1);
    lemma_line_start_nonneg(s, (r2 - 1) as nat);
    if r1 + 1 < r2 {
        lemma_line_start_increases(s, r1, (r2 - 1) as nat);
    }
}

/// If the text has a line, it has every earlier line.
pub proof fn lemma_has_earlier_line(s: Seq<char>, r1: nat, r2: nat)
    requires
        r1 <= r2,
        has_line(s, r2),
    ensures
        has_line(s, r1),
{
    if r1 < r2 {
        lemma_line_start_increases(s, r1, r2);
    }
}

/// Two positions that stand for the same offset are the same position.
pub proof fn lemma_offset_unique(s: Seq<char>, r1: nat, c1: nat, r2: nat, c2: nat)
    requires
        offset_of(s, r1, c1) is Some,
        offset_of(s, r1, c1) == offset_of(s, r2, c2),
    ensures
        r1 == r2,
        c1 == c2,
{
    if r1 < r2 {
        lemma_line_start_increases(s, r1, r2);
    }
    if r2 < r1 {
        lemma_line_start_increases(s, r2, r1);
    }
}

/// The start of a line depends only on the text before it.
pub proof fn lemma_line_start_prefix(s: Seq<char>, t: Seq<char>, row: nat, n: int)
    requires
        has_line(s, row),
        line_start(s, row) <= n <= s.len(),
        n <= t.len(),
        forall|k: int| 0 <= k < n ==> s[k] == t[k],
    ensures
        line_start(t, row) == line_start(s, row),
    decreases row,
{
    if row > 0 {
        let prev = (row - 1) as nat;
        lemma_line_start_increases(s, prev, row);
        lemma_line_start_nonneg(s, prev);
        lemma_line_start_prefix(s, t, prev, n);
        let a = line_start(s, prev);
        let e = line_end(s, a);
        lemma_line_end(s, a);
        assert(e < n);
        assert(s[e] == '\n');
        lemma_line_end_is(t, a, e);
    }
}

/// The text after a character is inserted at the position (`row`, `col`):
/// unchanged where the position stands for no offset.
pub open spec fn with_insert(s: Seq<char>, c: char, row: nat, col: nat) -> Seq<char> {
    match offset_of(s, row, col) {
        Some(i) => s.insert(i, c),
        None => s,
    }
}

/// The character at the position (`row`, `col`), if the position stands for
/// an offset that holds one.
pub open spec fn char_at(s: Seq<char>, row: nat, col: nat) -> Option<char> {
    match offset_of(s, row, col) {
        Some(i) => if i < s.len() {
            Some(s[i])
        } else {
            None
        },
        None => None,
    }
}

/// The text after the character at the position (`row`, `col`) is removed:
/// unchanged where there is no such character.
pub open spec fn with_delete(s: Seq<char>, row: nat, col: nat) -> Seq<char> {
    match offset_of(s, row, col) {
        Some(i) => if i < s.len() {
            s.remove(i)
        } else {
            s
        },
        None => s,
    }
}

/// A position keeps its offset when the text changes only at or behind it.
pub proof fn lemma_offset_prefix(s: Seq<char>, t: Seq<char>, row: nat, col: nat)
    requires
        offset_of(s, row, col) is Some,
        offset_of(s, row, col).unwrap() <= t.len(),
        forall|k: int| 0 <= k < offset_of(s, row, col).unwrap() ==> s[k] == t[k],
    ensures
        offset_of(t, row, col) == offset_of(s, row, col),
{
    let i = offset_of(s, row, col).unwrap();
    let a = line_start(s, row);
    lemma_line_start_nonneg(s, row);
    lemma_line_end(s, a);
    lemma_line_start_prefix(s, t, row, a);
    lemma_line_end(t, a);
    if line_end(t, a) < i {
        assert(t[line_end(t, a)] == '\n');
        assert(s[line_end(t, a)] != '\n');
    }
}

/// Inserting a character at a position and then deleting at the same position
/// gives the character back and restores the text.
pub proof fn lemma_insert_then_delete(s: Seq<char>, c: char, row: nat, col: nat)
    ensures
        with_delete(with_insert(s, c, row, col), row, col) == s,
        offset_of(s, row, col) is Some ==> char_at(with_insert(s, c, row, col), row, col) == Some(
            c,
        ),
        offset_of(s, row, col) is None ==> char_at(with_insert(s, c, row, col), row, col) is None,
{
    if offset_of(s, row, col) is Some {
        let i = offset_of(s, row, col).unwrap();
        lemma_line_start_nonneg(s, row);
        let t = s.insert(i, c);
        lemma_offset_prefix(s, t, row, col);
        assert(t.remove(i) =~= s);
    }
}

/// Deleting the character at a position and then inserting it again at the
/// same position restores the text.
pub proof fn lemma_delete_then_insert(s: Seq<char>, row: nat, col: nat)
    requires
        char_at(s, row, col) is Some,
    ensures
        with_insert(with_delete(s, row, col), char_at(s, row, col).unwrap(), row, col) == s,
{
    let i = offset_of(s, row, col).unwrap();
    lemma_line_start_nonneg(s, row);
    let t = s.remove(i);
    lemma_offset_prefix(s, t, row, col);
    assert(t.insert(i, s[i]) =~= s);
}

/// A newline at or behind `from` bounds the line end of `from`.
pub proof fn lemma_line_end_before(s: Seq<char>, from: int, p: int)
    requires
        0 <= from <= p < s.len(),
        s[p] == '\n',
    ensures
        line_end(s, from) <= p,
{
    lemma_line_end(s, from);
}

/// The lines before row `row` are the same in two texts that agree up to
/// an offset in or behind that row.
pub proof fn lemma_lines_before(s: Seq<char>, t: Seq<char>, row: nat, r: nat, n: int)
    requires
        has_line(s, row),
        r < row,
        line_start(s, row) <= n <= s.len(),
        n <= t.len(),
        forall|k: int| 0 <= k < n ==> s[k] == t[k],
    ensures
        has_line(t, r),
        line_start(t, r) == line_start(s, r),
        line_len(t, r) == line_len(s, r),
{
    lemma_line_start_increases(s, r, row);
    lemma_line_start_nonneg(s, r);
    lemma_has_earlier_line(s, r, row);
    lemma_line_start_prefix(s, t, r, n);
    let a = line_start(s, r);
    let e = line_end(s, a);
    lemma_line_end(s, a);
    lemma_line_end_is(t, a, e);
}

/// Removing a character moves no line start back by more than one.
pub proof fn lemma_remove_line_start(s: Seq<char>, i: int, r: nat)
    requires
        0 <= i < s.len(),
        has_line(s.remove(i), r),
    ensures
        line_start(s, r) <= line_start(s.remove(i), r) + 1,
        has_line(s, r),
    decreases r,
{
    let t = s.remove(i);
    lemma_line_start_nonneg(t, r);
    if line_start(t, r) <= i {
        lemma_line_start_prefix(t, s, r, i);
    } else {
        let prev = (r - 1) as nat;
        lemma_has_earlier_line(t, prev, r);
        lemma_remove_line_start(s, i, prev);
        lemma_line_start_nonneg(t, prev);
        lemma_line_start_nonneg(s, prev);
        let at = line_start(t, prev);
        let et = line_end(t, at);
        lemma_line_end(t, at);
        if line_start(t, prev) <= i {
            lemma_line_start_prefix(t, s, prev, i);
        }
        let a = line_start(s, prev);
        lemma_line_end(s, a);
        if et < t.len() {
            let p = if et < i {
                et
            } else {
                et + 1
            };
            assert(s[p] == '\n');
            if a <= p {
                lemma_line_end_before(s, a, p);
            }
        }
    }
}

/// Removing the character at a position leaves the position one that
/// stands for an offset, leaves the lines before its row as they are, and
/// makes no line that was not there.
pub proof fn lemma_with_delete(s: Seq<char>, row: nat, col: nat, r: nat)
    ensures
        offset_of(s, row, col) is Some ==> offset_of(with_delete(s, row, col), row, col) is Some,
        (r < row && offset_of(s, row, col) is Some) ==> has_line(with_delete(s, row, col), r)
            && line_len(with_delete(s, row, col), r) == line_len(s, r),
        has_line(with_delete(s, row, col), r) ==> has_line(s, r),
{
    if char_at(s, row, col) is Some {
        let i = offset_of(s, row, col).unwrap();
        let t = s.remove(i);
        lemma_line_start_nonneg(s, row);
        lemma_offset_prefix(s, t, row, col);
        if r < row {
            lemma_lines_before(s, t, row, r, i);
        }
        if has_line(t, r) {
            lemma_remove_line_start(s, i, r);
        }
    } else if r < row && offset_of(s, row, col) is Some {
        lemma_has_earlier_line(s, r, row);
    }
}

/// The characters that loading `bytes` gives: one for each byte, in order,
/// with the carriage returns left out.
pub open spec fn decode(bytes: Seq<u8>) -> Seq<char> {
    bytes.filter(|b: u8| b != 13u8).map_values(|b: u8| b as char)
}

/// Whether `bytes` holds a carriage return.
pub open spec fn has_cr(bytes: Seq<u8>) -> bool {
    bytes.contains(13u8)
}

/// The bytes that one character is written as: UTF-8, but a newline becomes a
/// carriage return and a newline where `crlf` is set.
pub open spec fn encode_char(c: char, crlf: bool) -> Seq<u8> {
    if c == '\n' && crlf {
        seq![13u8, 10u8]
    } else {
        vstd::utf8::encode_utf8(seq![c])
    }
}

/// The bytes that a text is written as: those of its characters, in order.
pub open spec fn encode(text: Seq<char>, crlf: bool) -> Seq<u8> {
    text.map_values(|c: char| encode_char(c, crlf)).flatten()
}

} // verus!
