//! The text buffer over a vector of characters.

use super::{Editor, EditorContent, EditorContentTrait};
use crate::text::{
    encode_char, has_line, lemma_has_earlier_line, lemma_line_end, lemma_line_end_is,
    lemma_line_start_nonneg, lemma_offset_unique, line_end, line_start, offset_of,
};
use vstd::prelude::*;
use vstd::string::*;

verus! {

/// An editor over a buffer that keeps its items in a vector.
pub type VectorEditor<T> = Editor<EditorContent<Vec<T>>>;

/// An editor over a vector of characters.
pub type CharVectorEditor = VectorEditor<char>;

/// `String::push` appends one character to the string.
pub assume_specification[ String::push ](s: &mut String, c: char)
    ensures
        final(s)@ == old(s)@.push(c),
;

impl EditorContent<Vec<char>> {
    /// The offset that the position (`row`, `col`) stands for, found by
    /// walking the characters and counting rows and columns.
    pub fn get_pos(&self, col: u32, row: u32) -> (r: Option<usize>)
        ensures
            match r {
                Some(i) => offset_of(self.text(), row as nat, col as nat) == Some(i as int),
                None => offset_of(self.text(), row as nat, col as nat) is None,
            },
    {
        let ghost s = self.data@;
        let n = self.data.len();
        let mut line_count: usize = 0;
        let mut col_count: usize = 0;
        let mut i: usize = 0;
        proof {
            lemma_line_end(s, 0);
            lemma_line_start_nonneg(s, row as nat);
        }
        while i < n
            invariant
                s == self.data@,
                n == s.len(),
                i <= n,
                has_line(s, line_count as nat),
                line_count <= line_start(s, line_count as nat),
                i == line_start(s, line_count as nat) + col_count,
                i <= line_end(s, line_start(s, line_count as nat)),
                offset_of(s, row as nat, col as nat) is Some ==> offset_of(
                    s,
                    row as nat,
                    col as nat,
                ).unwrap() >= i,
            decreases n - i,
        {
            if line_count == row as usize && col_count == col as usize {
                return Some(i);
            }
            proof {
                if offset_of(s, row as nat, col as nat) == Some(i as int) {
                    lemma_offset_unique(
                        s,
                        line_count as nat,
                        col_count as nat,
                        row as nat,
                        col as nat,
                    );
                }
                lemma_line_end(s, line_start(s, line_count as nat));
            }
            if self.data[i] == '\n' {
                proof {
                    lemma_line_end(s, i + 1);
                }
                line_count += 1;
                col_count = 0;
            } else {
                col_count += 1;
            }
            i += 1;
        }
        if line_count == row as usize && col_count == col as usize {
            Some(i)
        } else {
            proof {
                if offset_of(s, row as nat, col as nat) is Some {
                    lemma_line_start_nonneg(s, row as nat);
                    lemma_offset_unique(
                        s,
                        line_count as nat,
                        col_count as nat,
                        row as nat,
                        col as nat,
                    );
                }
            }
            None
        }
    }

    /// Where line `row` starts and where it ends.
    fn line_bounds(&self, row: u32) -> (r: Option<(usize, usize)>)
        ensures
            match r {
                Some((a, b)) => has_line(self.data@, row as nat) && a == line_start(
                    self.data@,
                    row as nat,
                ) && b == line_end(self.data@, a as int) && a <= b <= self.data@.len(),
                None => !has_line(self.data@, row as nat),
            },
    {
        let ghost s = self.data@;
        let n = self.data.len();
        let mut start: usize = 0;
        let mut current: u32 = 0;
        loop
            invariant
                s == self.data@,
                n == s.len(),
                start <= n,
                current <= row,
                start == line_start(s, current as nat),
            decreases row - current,
        {
            let mut end: usize = start;
            while end < n && self.data[end] != '\n'
                invariant
                    s == self.data@,
                    n == s.len(),
                    start <= end <= n,
                    forall|k: int| start <= k < end ==> s[k] != '\n',
                decreases n - end,
            {
                end += 1;
            }
            proof {
                lemma_line_end_is(s, start as int, end as int);
            }
            if current == row {
                return Some((start, end));
            }
            if end == n {
                proof {
                    if has_line(s, row as nat) {
                        lemma_has_earlier_line(s, (current + 1) as nat, row as nat);
                    }
                }
                return None;
            }
            start = end + 1;
            current += 1;
        }
    }
}

impl EditorContentTrait for EditorContent<Vec<char>> {
    closed spec fn text(&self) -> Seq<char> {
        self.data@
    }

    closed spec fn crlf(&self) -> bool {
        self.is_crlf
    }

    fn new() -> (r: EditorContent<Vec<char>>) {
        Self { data: Vec::<char>::new(), is_crlf: true }
    }

    fn load_data(&mut self, raw_data: Vec<u8>) {
        let ghost keep = |b: u8| b != 13u8;
        let ghost to_char = |b: u8| b as char;
        let mut data: Vec<char> = Vec::new();
        let mut seen_cr = false;
        let n = raw_data.len();
        let mut i: usize = 0;
        assert(raw_data@.take(0) =~= Seq::<u8>::empty());
        while i < n
            invariant
                n == raw_data@.len(),
                i <= n,
                keep == |b: u8| b != 13u8,
                to_char == |b: u8| b as char,
                data@ == raw_data@.take(i as int).filter(keep).map_values(to_char),
                seen_cr == raw_data@.take(i as int).contains(13u8),
            decreases n - i,
        {
            let b = raw_data[i];
            proof {
                let before = raw_data@.take(i as int);
                assert(raw_data@.take(i + 1) =~= before.push(b));
                Seq::lemma_filter_push(before, b, keep);
                before.filter(keep).lemma_push_map_commute(to_char, b);
                if before.contains(13u8) {
                    let k = choose|k: int| 0 <= k < before.len() && before[k] == 13u8;
                    assert(before.push(b)[k] == 13u8);
                }
                if b == 13u8 {
                    assert(before.push(b)[i as int] == 13u8);
                }
            }
            if b == 13u8 {
                seen_cr = true;
            } else {
                data.push(b as char);
            }
            i += 1;
        }
        assert(raw_data@.take(n as int) =~= raw_data@);
        self.data = data;
        self.is_crlf = seen_cr;
    }

    fn get_line(&self, i: u32) -> (r: Option<String>) {
        match self.line_bounds(i) {
            Some((start, end)) => {
                let mut line = String::new();
                let mut k: usize = start;
                while k < end
                    invariant
                        start <= k <= end <= self.data@.len(),
                        line@ == self.data@.subrange(start as int, k as int),
                    decreases end - k,
                {
                    line.push(self.data[k]);
                    k += 1;
                    assert(self.data@.subrange(start as int, k as int) =~= self.data@.subrange(
                        start as int,
                        k - 1,
                    ).push(self.data@[k - 1]));
                }
                Some(line)
            },
            None => None,
        }
    }

    fn get_line_len(&self, i: u32) -> (r: Option<u32>) {
        match self.line_bounds(i) {
            Some((start, end)) => {
                let len = end - start;
                if len <= u32::MAX as usize {
                    Some(len as u32)
                } else {
                    Some(u32::MAX)
                }
            },
            None => None,
        }
    }

    fn write_char(&mut self, c: char, col: u32, row: u32) {
        if let Some(i) = self.get_pos(col, row) {
            proof {
                lemma_line_start_nonneg(self.data@, row as nat);
            }
            self.data.insert(i, c);
        }
    }

    fn delete_char(&mut self, col: u32, row: u32) -> (r: Option<char>) {
        if let Some(i) = self.get_pos(col, row) {
            if i < self.data.len() {
                return Some(self.data.remove(i));
            }
        }
        None
    }

    fn read_data(&self, buffer: &mut Vec<u8>) {
        let ghost start = buffer@;
        let ghost each = |c: char| encode_char(c, self.is_crlf);
        let n = self.data.len();
        let mut i: usize = 0;
        assert(self.data@.take(0) =~= Seq::<char>::empty());
        assert(self.data@.take(0).map_values(each) =~= Seq::<Seq<u8>>::empty());
        while i < n
            invariant
                n == self.data@.len(),
                i <= n,
                each == |c: char| encode_char(c, self.is_crlf),
                buffer@ == start + self.data@.take(i as int).map_values(each).flatten(),
            decreases n - i,
        {
            let c = self.data[i];
            proof {
                let before = self.data@.take(i as int);
                assert(self.data@.take(i + 1) =~= before.push(c));
                before.lemma_push_map_commute(each, c);
                before.map_values(each).lemma_flatten_push(each(c));
            }
            if c == '\n' && self.is_crlf {
                buffer.push(0x0Du8);
                buffer.push(0x0Au8);
                assert(buffer@ =~= start + self.data@.take(i + 1).map_values(each).flatten());
            } else {
                let mut one = String::new();
                one.push(c);
                let mut bytes = one.as_str().as_bytes_vec();
                assert(one@ =~= seq![c]);
                buffer.append(&mut bytes);
                assert(buffer@ =~= start + self.data@.take(i + 1).map_values(each).flatten());
            }
            i += 1;
        }
        assert(self.data@.take(n as int) =~= self.data@);
    }
}

} // verus!
