use bad_editor::cursor::MultiCursor;
use bad_editor::editing::EditBatch;
use bad_editor::ropebuffer::RopeBuffer;
use bad_editor::{ByteOffset, MoveTarget};

#[test]
fn find_bytes() {
    let s = "aaaba".to_string();
    let r = RopeBuffer::from_str(&s);
    let positions = r.find_byte_positions_from(ByteOffset(0), b'a');
    assert_eq!(positions, vec![ByteOffset(0), ByteOffset(1), ByteOffset(2), ByteOffset(4)]);
}

#[test]
fn find_bytes_backwards() {
    let s = "aaaba".to_string();
    let r = RopeBuffer::from_str(&s);
    let positions = r.find_byte_positions_backwards_from(ByteOffset(5), b'a');
    assert_eq!(positions, vec![ByteOffset(4), ByteOffset(2), ByteOffset(1), ByteOffset(0)]);
}

#[test]
fn search_backwards_from_inside_needle() {
    let r = RopeBuffer::from_str("abcabc");
    assert_eq!(r.find_prev(ByteOffset(1), "abc"), None);
    assert_eq!(r.find_prev(ByteOffset(3), "abc"), Some(ByteOffset(0)));
    assert_eq!(r.find_prev(ByteOffset(4), "abc"), Some(ByteOffset(0)));
}

#[test]
fn search_forwards_from_inside_needle() {
    let r = RopeBuffer::from_str("abcabc");
    assert_eq!(r.find_next(ByteOffset(1), "abc"), Some(ByteOffset(3)));
    assert_eq!(r.find_next(ByteOffset(3), "abc"), Some(ByteOffset(3)));
    assert_eq!(r.find_next(ByteOffset(4), "abc"), None);
}

#[test]
fn delete_at_eof() {
    let mut r = RopeBuffer::from_str("abc");
    let mut cursors = MultiCursor::new();
    cursors.move_to(&r, MoveTarget::Right(2));
    let del = EditBatch::delete_forward_with_cursors(&cursors, &r);
    r.do_edits(&mut cursors, del);
    assert_eq!(r.to_string(), "ab");
    let del = EditBatch::delete_forward_with_cursors(&cursors, &r);
    r.do_edits(&mut cursors, del);
    assert_eq!(r.to_string(), "ab");
}

#[test]
fn word_boundary_hello_world() {
    let r = RopeBuffer::from_str("hello world");
    assert!(r.is_word_boundary(ByteOffset(0)));
    assert!(!r.is_word_boundary(ByteOffset(1)));
    assert!(r.is_word_boundary(ByteOffset(5)));
    assert!(r.is_word_boundary(ByteOffset(6)));
    assert!(r.is_word_boundary(ByteOffset(11)));
}

#[test]
fn word_boundary_decimal_number() {
    let r = RopeBuffer::from_str(" 1_002.34");
    assert!(r.is_word_boundary(ByteOffset(0)));
    assert!(r.is_word_boundary(ByteOffset(1)));
    assert!(!r.is_word_boundary(ByteOffset(2)));
    assert!(!r.is_word_boundary(ByteOffset(3)));
    assert!(!r.is_word_boundary(ByteOffset(4)));
    assert!(!r.is_word_boundary(ByteOffset(5)));
    assert!(!r.is_word_boundary(ByteOffset(6)));
    assert!(!r.is_word_boundary(ByteOffset(7)));
    assert!(!r.is_word_boundary(ByteOffset(8)));
    assert!(r.is_word_boundary(ByteOffset(9)));
}

#[test]
fn find_next_cycle_wraps_around() {
    let r = RopeBuffer::from_str("abcabc");
    assert_eq!(r.find_next_cycle(ByteOffset(4), "abc"), Some(ByteOffset(0)));
    assert_eq!(r.find_next_cycle(ByteOffset(4), "x"), None);
    assert_eq!(r.find_next(ByteOffset(0), ""), None);
}

#[test]
fn search_with_cursors_selects_next_match() {
    let r = RopeBuffer::from_str("one two one two");
    let mut cursors = MultiCursor::new();
    r.search_with_cursors(&mut cursors, "two");
    assert_eq!(cursors.cursor_count(), 1);
    assert_eq!(cursors.primary().offset, ByteOffset(4));
    assert_eq!(cursors.primary().selection(), Some(ByteOffset(4)..ByteOffset(7)));
    r.search_with_cursors(&mut cursors, "two");
    assert_eq!(cursors.primary().offset, ByteOffset(12));
    r.search_with_cursors(&mut cursors, "two");
    assert_eq!(cursors.primary().offset, ByteOffset(12));
}

#[test]
fn search_backward_selects_previous_match() {
    let r = RopeBuffer::from_str("one two one two");
    let mut cursors = MultiCursor::new();
    cursors.move_to(&r, MoveTarget::End);
    r.search_with_cursors_backward(&mut cursors, "one");
    assert_eq!(cursors.primary().offset, ByteOffset(8));
    r.search_with_cursors_backward(&mut cursors, "one");
    assert_eq!(cursors.primary().offset, ByteOffset(0));
}

#[test]
fn columns_count_grapheme_clusters() {
    let r = RopeBuffer::from_str("x\na\u{1f44d}\u{1f3fb}b");
    assert_eq!(r.byte_to_column(ByteOffset(0)), 0);
    assert_eq!(r.byte_to_column(ByteOffset(3)), 1);
    assert_eq!(r.byte_to_column(ByteOffset(11)), 2);
    assert_eq!(r.len_lines(), 2);
    assert_eq!(r.line_to_byte(1), ByteOffset(2));
}
