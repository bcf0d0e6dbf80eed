use modal_editor::module::editor::{EditorContent, EditorContentTrait};
use modal_editor::utils::{format_label, is_crlf, TruncAt};

fn buffer(text: &str) -> EditorContent<Vec<char>> {
    let mut b = EditorContent::<Vec<char>>::new();
    b.load_data(text.as_bytes().to_vec());
    b
}

fn saved(b: &EditorContent<Vec<char>>) -> Vec<u8> {
    let mut out = Vec::new();
    b.read_data(&mut out);
    out
}

fn round_trips(bytes: &[u8]) -> bool {
    let mut b = EditorContent::<Vec<char>>::new();
    b.load_data(bytes.to_vec());
    saved(&b) == bytes.to_vec()
}

#[test]
fn lines_are_cut_at_newlines() {
    let b = buffer("ab\ncd\n");
    assert_eq!(b.get_line(0), Some(String::from("ab")));
    assert_eq!(b.get_line(1), Some(String::from("cd")));
    assert_eq!(b.get_line(2), Some(String::new()));
    assert_eq!(b.get_line(3), None);
    assert_eq!(b.get_line_len(0), Some(2));
    assert_eq!(b.get_line_len(2), Some(0));
    assert_eq!(b.get_line_len(3), None);
}

#[test]
fn an_empty_buffer_has_one_empty_line() {
    let b = EditorContent::<Vec<char>>::new();
    assert_eq!(b.get_line(0), Some(String::new()));
    assert_eq!(b.get_line_len(0), Some(0));
    assert_eq!(b.get_line(1), None);
    assert_eq!(saved(&b), Vec::<u8>::new());
}

#[test]
fn a_new_buffer_writes_newlines_with_carriage_returns() {
    let mut b = EditorContent::<Vec<char>>::new();
    b.write_char('a', 0, 0);
    b.write_char('\n', 1, 0);
    assert_eq!(saved(&b), b"a\r\n".to_vec());
}

#[test]
fn a_carriage_return_inside_a_line_does_not_end_it() {
    let mut b = buffer("ab\n");
    b.write_char('\r', 1, 0);
    assert_eq!(b.get_line(0), Some(String::from("a\rb")));
    assert_eq!(b.get_line_len(0), Some(3));
    assert_eq!(b.get_line(1), Some(String::new()));
}

#[test]
fn positions_stand_for_offsets() {
    let b = buffer("ab\ncd\n");
    assert_eq!(b.get_pos(0, 0), Some(0));
    assert_eq!(b.get_pos(2, 0), Some(2));
    assert_eq!(b.get_pos(3, 0), None);
    assert_eq!(b.get_pos(0, 1), Some(3));
    assert_eq!(b.get_pos(1, 1), Some(4));
    assert_eq!(b.get_pos(0, 2), Some(6));
    assert_eq!(b.get_pos(1, 2), None);
    assert_eq!(b.get_pos(0, 3), None);
}

#[test]
fn the_end_of_an_unterminated_text_is_a_position() {
    let b = buffer("ab");
    assert_eq!(b.get_pos(2, 0), Some(2));
    assert_eq!(b.get_pos(0, 1), None);
}

#[test]
fn load_strips_carriage_returns_and_save_restores_them() {
    let b = buffer("a\r\nb\r\n");
    assert_eq!(b.get_line(0), Some(String::from("a")));
    assert_eq!(b.get_line(1), Some(String::from("b")));
    assert_eq!(saved(&b), b"a\r\nb\r\n".to_vec());
    let b = buffer("a\nb\n");
    assert_eq!(saved(&b), b"a\nb\n".to_vec());
}

#[test]
fn load_replaces_the_content() {
    let mut b = buffer("old\r\n");
    b.load_data(b"new\n".to_vec());
    assert_eq!(b.get_line(0), Some(String::from("new")));
    assert_eq!(saved(&b), b"new\n".to_vec());
}

#[test]
fn save_appends_to_what_the_buffer_holds() {
    let b = buffer("x\n");
    let mut out = vec![1u8, 2u8];
    b.read_data(&mut out);
    assert_eq!(out, vec![1u8, 2u8, b'x', b'\n']);
}

#[test]
fn round_trip_holds_for_pure_line_ends_only() {
    assert!(round_trips(b""));
    assert!(round_trips(b"no line end"));
    assert!(round_trips(b"a\nb\n"));
    assert!(round_trips(b"a\r\nb\r\n"));
    assert!(round_trips(b"\r\n"));
    assert!(!round_trips(b"a\r\nb\n"));
    assert!(!round_trips(b"a\rb"));
    assert!(!round_trips(b"a\n\rb"));
    assert!(!round_trips(b"\r"));
}

#[test]
fn round_trip_fails_for_bytes_beyond_ascii() {
    assert!(!round_trips(&[0xE9]));
    assert!(!round_trips(&[b'a', 0x80, b'\n']));
    assert!(!round_trips(&[0xC3, 0x83, b'\r', b'\n']));
    assert!(!round_trips(&[0xFF, b'\r']));
    assert!(round_trips(&[0x7F, 0x00, b'\r', b'\n']));
}

#[test]
fn bytes_beyond_ascii_are_written_as_utf8() {
    let b = buffer_of_bytes(&[0xE9, b'\n']);
    assert_eq!(b.get_line(0), Some(String::from("\u{e9}")));
    assert_eq!(b.get_line_len(0), Some(1));
    assert_eq!(saved(&b), vec![0xC3, 0xA9, b'\n']);
}

fn buffer_of_bytes(bytes: &[u8]) -> EditorContent<Vec<char>> {
    let mut b = EditorContent::<Vec<char>>::new();
    b.load_data(bytes.to_vec());
    b
}

#[test]
fn insert_then_delete_restores_the_buffer() {
    for (col, row) in [(0u32, 0u32), (1, 0), (2, 0), (0, 1), (2, 1), (0, 2), (5, 0), (0, 7)] {
        for c in ['x', '\n'] {
            let mut b = buffer("ab\ncd\n");
            b.write_char(c, col, row);
            let back = b.delete_char(col, row);
            assert_eq!(saved(&b), b"ab\ncd\n".to_vec());
            assert_eq!(back.is_some(), buffer("ab\ncd\n").get_pos(col, row).is_some());
            if let Some(d) = back {
                assert_eq!(d, c);
            }
        }
    }
}

#[test]
fn delete_then_insert_restores_the_buffer() {
    for (col, row) in [(0u32, 0u32), (1, 0), (2, 0), (0, 1), (1, 1), (2, 1)] {
        let mut b = buffer("ab\ncd\n");
        let c = b.delete_char(col, row).unwrap();
        b.write_char(c, col, row);
        assert_eq!(saved(&b), b"ab\ncd\n".to_vec());
    }
}

#[test]
fn insert_at_an_unresolved_position_changes_nothing() {
    let mut b = buffer("ab\n");
    b.write_char('x', 3, 0);
    b.write_char('x', 0, 2);
    assert_eq!(saved(&b), b"ab\n".to_vec());
}

#[test]
fn insert_at_the_end_of_the_text_appends() {
    let mut b = buffer("ab");
    b.write_char('c', 2, 0);
    assert_eq!(saved(&b), b"abc".to_vec());
}

#[test]
fn delete_at_the_end_of_the_text_refuses() {
    let mut b = buffer("ab");
    assert_eq!(b.delete_char(2, 0), None);
    assert_eq!(b.delete_char(0, 1), None);
    assert_eq!(saved(&b), b"ab".to_vec());
}

#[test]
fn deleting_a_newline_joins_two_lines() {
    let mut b = buffer("ab\ncd\n");
    assert_eq!(b.delete_char(2, 0), Some('\n'));
    assert_eq!(b.get_line(0), Some(String::from("abcd")));
    assert_eq!(b.get_line(1), Some(String::new()));
    assert_eq!(b.get_line(2), None);
}

#[test]
fn inserting_a_newline_makes_a_new_line() {
    let mut b = buffer("abcd\n");
    b.write_char('\n', 2, 0);
    assert_eq!(b.get_line(0), Some(String::from("ab")));
    assert_eq!(b.get_line(1), Some(String::from("cd")));
}

#[test]
fn is_crlf_knows_both_line_terminators() {
    assert!(is_crlf('\n'));
    assert!(is_crlf('\r'));
    assert!(!is_crlf('a'));
    assert!(!is_crlf(' '));
}

#[test]
fn trucate_at_cuts_the_front_off() {
    assert_eq!("hello".trucate_at(0), Some(String::from("hello")));
    assert_eq!("hello".trucate_at(2), Some(String::from("llo")));
    assert_eq!("hello".trucate_at(5), Some(String::new()));
    assert_eq!("hello".trucate_at(6), None);
    assert_eq!("h\u{e9}llo".trucate_at(2), Some(String::from("llo")));
}

#[test]
fn labels_are_right_aligned_in_four_columns() {
    assert_eq!(format_label(1), "   1  ");
    assert_eq!(format_label(0), "   0  ");
    assert_eq!(format_label(42), "  42  ");
    assert_eq!(format_label(999), " 999  ");
    assert_eq!(format_label(1000), "1000  ");
    assert_eq!(format_label(123456), "123456  ");
    assert_eq!(format_label(4294967296), "4294967296  ");
    for n in [7u64, 10, 99, 100, 9999, 10000, 18446744073709551615] {
        assert_eq!(format_label(n), format!("{:>4}  ", n));
    }
}
