use bad_editor::cursor::{Cursor, MultiCursor};
use bad_editor::ropebuffer::RopeBuffer;
use bad_editor::{ByteOffset, MoveTarget};

const SIMPLE_EMOJI: &str = "\u{1f60a}";
const THUMBS_UP_WITH_MODIFIER: &str = "\u{1f44d}\u{1f3fb}";
const FAMILY: &str = "\u{1f468}\u{200d}\u{1f469}\u{200d}\u{1f466}";

fn cursor(offset: usize, selection_from: Option<usize>) -> Cursor {
    Cursor::new_with_selection(ByteOffset(offset), selection_from.map(ByteOffset))
}

#[test]
fn move_right() {
    let s = format!("a{SIMPLE_EMOJI}ä{THUMBS_UP_WITH_MODIFIER}b{FAMILY}");
    let r = RopeBuffer::from_str(&s);
    let mut cursor = Cursor::default();
    let expected_offsets = vec![1, 5, 7, 15, 16, 34, 34, 34];
    for &expected in &expected_offsets {
        cursor.move_to(&r, MoveTarget::Right(1));
        assert_eq!(cursor.offset.0, expected);
    }
}

#[test]
fn move_left() {
    let s = format!("a{SIMPLE_EMOJI}ä{THUMBS_UP_WITH_MODIFIER}b{FAMILY}x");
    let r = RopeBuffer::from_str(&s);
    let mut cursor = Cursor::new_with_offset(ByteOffset(r.len_bytes()));
    let expected_offsets = [0, 0, 1, 5, 7, 15, 16, 34];
    for &expected in expected_offsets.iter().rev() {
        cursor.move_to(&r, MoveTarget::Left(1));
        assert_eq!(cursor.offset.0, expected);
    }
}

#[test]
fn move_home_end() {
    let r = RopeBuffer::from_str("abc\ndef");
    let mut cursor = Cursor::new_with_offset(ByteOffset(1));
    cursor.move_to(&r, MoveTarget::EndOfLine);
    assert_eq!(cursor.offset, ByteOffset(3));
    cursor.move_to(&r, MoveTarget::StartOfLine);
    assert_eq!(cursor.offset, ByteOffset(0));
}

#[test]
fn move_home_end_last_line() {
    let r = RopeBuffer::from_str("abc\ndef");
    let mut cursor = Cursor::new_with_offset(ByteOffset(5));
    cursor.move_to(&r, MoveTarget::StartOfLine);
    assert_eq!(cursor.offset, ByteOffset(4));
    cursor.move_to(&r, MoveTarget::EndOfLine);
    assert_eq!(cursor.offset, ByteOffset(7));
}

#[test]
fn forget_preferred_column_up_on_first_line() {
    let r = RopeBuffer::from_str("abc\ndef");
    let mut cursor = Cursor::new_with_offset(ByteOffset(6));
    cursor.move_to(&r, MoveTarget::Up(1));
    assert_eq!(cursor.memorized_column, Some(2));
    cursor.move_to(&r, MoveTarget::Up(1));
    assert_eq!(cursor.memorized_column, None);
}

#[test]
fn forget_preferred_column_down_on_last_line() {
    let r = RopeBuffer::from_str("abc\ndef");
    let mut cursor = Cursor::new_with_offset(ByteOffset(2));
    cursor.move_to(&r, MoveTarget::Down(1));
    assert_eq!(cursor.memorized_column, Some(2));
    cursor.move_to(&r, MoveTarget::Down(1));
    assert_eq!(cursor.memorized_column, None);
}

#[test]
fn move_up_down() {
    let r = RopeBuffer::from_str("abc\ndef\n\nghi");
    let mut cursor = Cursor::new_with_offset(ByteOffset(2));

    cursor.move_to(&r, MoveTarget::Down(1));
    assert_eq!(r.byte_to_line(cursor.offset), 1);
    assert_eq!(cursor.memorized_column, Some(2));
    assert_eq!(cursor.offset, ByteOffset(6));

    cursor.move_to(&r, MoveTarget::Down(1));
    assert_eq!(r.byte_to_line(cursor.offset), 2);
    assert_eq!(cursor.offset, ByteOffset(8));

    cursor.move_to(&r, MoveTarget::Down(1));
    assert_eq!(r.byte_to_line(cursor.offset), 3);
    assert_eq!(cursor.offset, ByteOffset(11));

    cursor.move_to(&r, MoveTarget::Up(1));
    assert_eq!(r.byte_to_line(cursor.offset), 2);
    assert_eq!(cursor.offset, ByteOffset(8));

    cursor.move_to(&r, MoveTarget::Up(1));
    assert_eq!(r.byte_to_line(cursor.offset), 1);
    assert_eq!(cursor.offset, ByteOffset(6));

    cursor.move_to(&r, MoveTarget::Up(1));
    assert_eq!(r.byte_to_line(cursor.offset), 0);
    assert_eq!(cursor.offset, ByteOffset(2));

    cursor.move_to(&r, MoveTarget::Up(1));
    assert_eq!(cursor.offset, ByteOffset(0));
    assert_eq!(cursor.memorized_column, None, "cursor should forget memorized column");

    cursor.move_to(&r, MoveTarget::Down(1));
    assert_eq!(cursor.offset, ByteOffset(4));
}

fn check_move_1_left_with_selection(mut cursor: Cursor, offset_after_move: ByteOffset) {
    let r = RopeBuffer::from_str("abcde\nfghij");
    cursor.move_to(&r, MoveTarget::Left(1));
    assert_eq!(cursor.offset, offset_after_move);
    assert!(!cursor.has_selection());
}

#[test]
fn move_1_left_with_selection_forward() {
    check_move_1_left_with_selection(cursor(1, Some(5)), ByteOffset(1));
}

#[test]
fn move_1_left_with_selection_backward() {
    check_move_1_left_with_selection(cursor(4, Some(1)), ByteOffset(1));
}

#[test]
fn move_1_left_with_selection_second_line() {
    check_move_1_left_with_selection(cursor(6, Some(7)), ByteOffset(6));
}

fn check_move_1_right_with_selection(mut cursor: Cursor, offset_after_move: ByteOffset) {
    let r = RopeBuffer::from_str("abcde\nfghij");
    cursor.move_to(&r, MoveTarget::Right(1));
    assert_eq!(cursor.offset, offset_after_move);
    assert!(!cursor.has_selection());
}

#[test]
fn move_1_right_with_selection_forward() {
    check_move_1_right_with_selection(cursor(1, Some(5)), ByteOffset(5));
}

#[test]
fn move_1_right_with_selection_backward() {
    check_move_1_right_with_selection(cursor(4, Some(1)), ByteOffset(4));
}

#[test]
fn move_1_right_with_selection_across_line_break() {
    check_move_1_right_with_selection(cursor(5, Some(6)), ByteOffset(6));
}

fn check_move_out_of_bounds(target: MoveTarget, offset_after_move: ByteOffset) {
    let r = RopeBuffer::from_str("0\n234\n67\n9");
    let mut cursor = Cursor::new_with_offset(ByteOffset(5));
    cursor.move_to(&r, target);
    assert_eq!(cursor.offset, offset_after_move);
}

#[test]
fn move_out_of_bounds_left() {
    check_move_out_of_bounds(MoveTarget::Left(100), ByteOffset(0));
}

#[test]
fn move_out_of_bounds_up() {
    check_move_out_of_bounds(MoveTarget::Up(100), ByteOffset(0));
}

#[test]
fn move_out_of_bounds_right() {
    check_move_out_of_bounds(MoveTarget::Right(100), ByteOffset(10));
}

#[test]
fn move_out_of_bounds_down() {
    check_move_out_of_bounds(MoveTarget::Down(100), ByteOffset(10));
}

fn check_line_span(cursor: Cursor, expected: std::ops::Range<usize>) {
    let r = RopeBuffer::from_str("0\n234\n67\n9");
    assert_eq!(cursor.line_span(&r), expected);
}

#[test]
fn cursor_line_span_cases() {
    check_line_span(cursor(0, None), 0..1);
    check_line_span(cursor(1, None), 0..1);
    check_line_span(cursor(2, None), 1..2);
    check_line_span(cursor(0, Some(10)), 0..4);
    check_line_span(cursor(10, Some(0)), 0..4);
    check_line_span(cursor(5, Some(6)), 1..3);
    check_line_span(cursor(6, Some(5)), 1..3);
}

#[test]
fn line_end_cases() {
    for (s, expected) in [("ab", ByteOffset(2)), ("abc\nxyz\n", ByteOffset(3)), ("abcd\r\nxyz\n", ByteOffset(4))] {
        let r = RopeBuffer::from_str(s);
        let cursor = Cursor::default();
        assert_eq!(cursor.line_end(&r), expected, "expected {expected:?} for {s:?}");
    }
}

#[test]
fn matching_pair_cases() {
    let cases = [
        ("((x))", 0, Some(ByteOffset(4))),
        ("[[x]]", 0, Some(ByteOffset(4))),
        ("<<x>>", 0, Some(ByteOffset(4))),
        ("{{x}}", 0, Some(ByteOffset(4))),
        ("((x))", 4, Some(ByteOffset(0))),
        ("[[x]]", 4, Some(ByteOffset(0))),
        ("<<x>>", 4, Some(ByteOffset(0))),
        ("{{x}}", 4, Some(ByteOffset(0))),
        ("(]", 0, None),
        ("[)", 1, None),
        ("(a)", 1, None),
        ("", 0, None),
    ];
    for (s, start, expected) in cases {
        let r = RopeBuffer::from_str(s);
        let cursor = Cursor::new_with_offset(ByteOffset(start));
        assert_eq!(cursor.matching_pair(&r), expected);
    }
}

#[test]
fn esc_keeps_only_the_primary_cursor() {
    let mut cursors = MultiCursor::new();
    cursors.spawn_new_primary(cursor(3, Some(1)));
    assert_eq!(cursors.cursor_count(), 2);
    cursors.esc();
    assert_eq!(cursors.cursor_count(), 1);
    assert_eq!(cursors.primary().offset, ByteOffset(3));
    assert!(!cursors.primary().has_selection());
}

#[test]
fn selection_is_ordered() {
    assert_eq!(cursor(4, Some(1)).selection(), Some(ByteOffset(1)..ByteOffset(4)));
    assert_eq!(cursor(1, Some(4)).selection(), Some(ByteOffset(1)..ByteOffset(4)));
    assert_eq!(cursor(1, None).selection(), None);
}

#[test]
fn line_ranges_merge_touching_and_overlapping_spans() {
    let r = RopeBuffer::from_str("a\nb\nc\nd\ne\nf\n");
    let mut cursors = MultiCursor::new();
    // Given out of order: a selection over lines 3..=4, a cursor on line 0,
    // one on line 1 (touching line 0) and one inside the selection.
    cursors.set_cursors(
        0,
        vec![cursor(8, Some(6)), cursor(0, None), cursor(2, None), cursor(7, None)],
    );
    assert_eq!(cursors.line_ranges(&r), vec![0..2, 3..5]);
}

#[test]
fn line_ranges_single_cursor() {
    let r = RopeBuffer::from_str("one\ntwo\nthree");
    let mut cursors = MultiCursor::new();
    cursors.set_cursors(0, vec![cursor(9, None)]);
    assert_eq!(cursors.line_ranges(&r), vec![2..3]);
}
