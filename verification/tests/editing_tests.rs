use bad_editor::cursor::{Cursor, MultiCursor};
use bad_editor::editing::{Edit, EditBatch};
use bad_editor::ropebuffer::RopeBuffer;
use bad_editor::{ByteOffset, MoveTarget};

#[test]
fn non_overlapping_deletes() {
    let edits = vec![
        Edit::Delete(ByteOffset(15)..ByteOffset(20)),
        Edit::Delete(ByteOffset(5)..ByteOffset(10)),
        Edit::Delete(ByteOffset(25)..ByteOffset(30)),
    ];
    let batch = EditBatch::from_edits(edits);

    assert_eq!(batch.len(), 3);
    assert_eq!(*batch.get(0), Edit::Delete(ByteOffset(5)..ByteOffset(10)));
    assert_eq!(*batch.get(1), Edit::Delete(ByteOffset(15)..ByteOffset(20)));
    assert_eq!(*batch.get(2), Edit::Delete(ByteOffset(25)..ByteOffset(30)));
}

#[test]
fn overlapping_deletes() {
    let edits = vec![
        Edit::Delete(ByteOffset(10)..ByteOffset(20)),
        Edit::Delete(ByteOffset(5)..ByteOffset(15)),
    ];
    let batch = EditBatch::from_edits(edits);

    assert_eq!(batch.len(), 2);
    assert_eq!(*batch.get(0), Edit::Delete(ByteOffset(5)..ByteOffset(10)));
    assert_eq!(*batch.get(1), Edit::Delete(ByteOffset(10)..ByteOffset(20)));
}

#[test]
fn insert_and_delete_cmp() {
    assert!(
        Edit::insert_str(ByteOffset(10), "text") < Edit::Delete(ByteOffset(10)..ByteOffset(20)),
        "Insert should always be before Delete if same offset"
    )
}

#[test]
fn mixed_inserts_and_deletes() {
    let edits = vec![
        Edit::Delete(ByteOffset(5)..ByteOffset(15)),
        Edit::insert_str(ByteOffset(12), "hello"),
        Edit::Delete(ByteOffset(20)..ByteOffset(30)),
        Edit::insert_str(ByteOffset(25), "world"),
    ];

    let batch = EditBatch::from_edits(edits);

    assert_eq!(batch.len(), 4);
    assert_eq!(*batch.get(0), Edit::Delete(ByteOffset(5)..ByteOffset(12)));
    assert_eq!(*batch.get(1), Edit::insert_str(ByteOffset(12), "hello"));
    assert_eq!(*batch.get(2), Edit::Delete(ByteOffset(20)..ByteOffset(25)));
    assert_eq!(*batch.get(3), Edit::insert_str(ByteOffset(25), "world"));
}

#[test]
fn sorting_and_processing() {
    let edits = vec![
        Edit::Delete(ByteOffset(20)..ByteOffset(30)),
        Edit::Delete(ByteOffset(5)..ByteOffset(25)),
        Edit::insert_str(ByteOffset(15), "mid"),
    ];

    let batch = EditBatch::from_edits(edits);

    assert_eq!(batch.len(), 3);
    assert_eq!(*batch.get(0), Edit::Delete(ByteOffset(5)..ByteOffset(15)));
    assert_eq!(*batch.get(1), Edit::insert_str(ByteOffset(15), "mid"));
    assert_eq!(*batch.get(2), Edit::Delete(ByteOffset(20)..ByteOffset(30)));
}

#[test]
fn insert_with_multicursor_same_offset() {
    let mut r = RopeBuffer::from_str("abab");
    let mut cursors = MultiCursor::new();
    cursors.select_to(&r, MoveTarget::Right(2));
    cursors.spawn_new_primary(Cursor::new_with_selection(ByteOffset(2), Some(ByteOffset(4))));
    assert_eq!(cursors.cursor_count(), 2);
    let edits = EditBatch::insert_with_cursors(&cursors, "x");
    r.do_edits(&mut cursors, edits);
    assert_eq!(r.to_string(), "xx");
}

#[test]
fn delete_word() {
    let mut r = RopeBuffer::from_str("hello xxxxxworld");
    let mut cursors = MultiCursor::new();
    cursors.move_to(&r, MoveTarget::Right(11));
    let edits = EditBatch::delete_word_with_cursors(&cursors, &r);
    r.do_edits(&mut cursors, edits);
    assert_eq!(r.to_string(), "hello world")
}

#[test]
fn delete_word_and_space() {
    let mut r = RopeBuffer::from_str("hello xxxxx world");
    let mut cursors = MultiCursor::new();
    cursors.move_to(&r, MoveTarget::Right(12));
    let edits = EditBatch::delete_word_with_cursors(&cursors, &r);
    r.do_edits(&mut cursors, edits);
    assert_eq!(r.to_string(), "hello world")
}

#[test]
fn undo_restores_text_and_cursors() {
    let mut r = RopeBuffer::from_str("hello world");
    let mut cursors = MultiCursor::new();
    cursors.move_to(&r, MoveTarget::Right(5));
    let edits = EditBatch::insert_with_cursors(&cursors, ",");
    r.do_edits(&mut cursors, edits);
    assert_eq!(r.to_string(), "hello, world");
    assert_eq!(cursors.primary().offset, ByteOffset(6));
    let cursors = r.undo(cursors);
    assert_eq!(r.to_string(), "hello world");
    assert_eq!(cursors.primary().offset, ByteOffset(5));
    let cursors = r.redo(cursors);
    assert_eq!(r.to_string(), "hello, world");
    assert_eq!(cursors.primary().offset, ByteOffset(6));
}

#[test]
fn undo_with_nothing_recorded_keeps_everything() {
    let mut r = RopeBuffer::from_str("abc");
    let mut cursors = MultiCursor::new();
    cursors.move_to(&r, MoveTarget::Right(1));
    let cursors = r.undo(cursors);
    assert_eq!(r.to_string(), "abc");
    assert_eq!(cursors.primary().offset, ByteOffset(1));
    let cursors = r.redo(cursors);
    assert_eq!(r.to_string(), "abc");
    assert_eq!(cursors.primary().offset, ByteOffset(1));
}

#[test]
fn undo_of_an_empty_insertion_and_deletion() {
    let mut r = RopeBuffer::from_str("ab cd");
    let mut cursors = MultiCursor::new();
    let edits = EditBatch::from_edits(vec![
        Edit::insert_str(ByteOffset(0), ""),
        Edit::Delete(ByteOffset(0)..ByteOffset(0)),
        Edit::Delete(ByteOffset(2)..ByteOffset(3)),
    ]);
    r.do_edits(&mut cursors, edits);
    assert_eq!(r.to_string(), "abcd");
    let cursors = r.undo(cursors);
    assert_eq!(r.to_string(), "ab cd");
    let _ = r.redo(cursors);
    assert_eq!(r.to_string(), "abcd");
}

#[test]
fn delete_backward_at_start_does_nothing() {
    let r = RopeBuffer::from_str("abc");
    let cursors = MultiCursor::new();
    let edits = EditBatch::delete_backward_with_cursors(&cursors, &r);
    assert!(edits.is_empty());
}

#[test]
fn delete_backward_removes_a_grapheme_cluster() {
    let mut r = RopeBuffer::from_str("ab\u{1f44d}\u{1f3fb}c");
    let mut cursors = MultiCursor::new();
    cursors.move_to(&r, MoveTarget::Right(3));
    let edits = EditBatch::delete_backward_with_cursors(&cursors, &r);
    r.do_edits(&mut cursors, edits);
    assert_eq!(r.to_string(), "abc");
    assert_eq!(cursors.primary().offset, ByteOffset(2));
}

#[test]
fn indent_and_dedent_every_line_of_a_selection() {
    let mut r = RopeBuffer::from_str("a\nb\nc");
    let mut cursors = MultiCursor::new();
    cursors.select_to(&r, MoveTarget::Right(3));
    let edits = EditBatch::indent_with_cursors(&cursors, &r, "    ");
    r.do_edits(&mut cursors, edits);
    assert_eq!(r.to_string(), "    a\n    b\nc");
    let edits = EditBatch::dedent_with_cursors(&cursors, &r, 2, 4);
    r.do_edits(&mut cursors, edits);
    assert_eq!(r.to_string(), "  a\n  b\nc");
}

#[test]
fn dedent_counts_a_tab_as_tab_width_columns() {
    let mut r = RopeBuffer::from_str("\t\tx");
    let mut cursors = MultiCursor::new();
    let edits = EditBatch::dedent_with_cursors(&cursors, &r, 4, 4);
    r.do_edits(&mut cursors, edits);
    assert_eq!(r.to_string(), "\tx");
}

#[test]
fn paste_one_clip_per_cursor() {
    let mut r = RopeBuffer::from_str("ab");
    let mut cursors = MultiCursor::new();
    cursors.spawn_new_primary(Cursor::new_with_offset(ByteOffset(2)));
    let clips = vec!["1".to_string(), "2".to_string()];
    let edits = EditBatch::insert_from_clipboard(&cursors, &clips);
    r.do_edits(&mut cursors, edits);
    assert_eq!(r.to_string(), "1ab2");
}

#[test]
fn paste_joined_clips_when_counts_differ() {
    let mut r = RopeBuffer::from_str("ab");
    let mut cursors = MultiCursor::new();
    let clips = vec!["1".to_string(), "2".to_string()];
    let edits = EditBatch::insert_from_clipboard(&cursors, &clips);
    r.do_edits(&mut cursors, edits);
    assert_eq!(r.to_string(), "12ab");
}

#[test]
fn batch_iterates_in_order_and_backwards() {
    let batch = EditBatch::from_edits(vec![
        Edit::Delete(ByteOffset(15)..ByteOffset(20)),
        Edit::Delete(ByteOffset(5)..ByteOffset(10)),
    ]);
    let forward: Vec<&Edit> = batch.iter().collect();
    assert_eq!(*forward[0], Edit::Delete(ByteOffset(5)..ByteOffset(10)));
    assert_eq!(*forward[1], Edit::Delete(ByteOffset(15)..ByteOffset(20)));
    let backward: Vec<&Edit> = batch.rev_iter().collect();
    assert_eq!(*backward[0], Edit::Delete(ByteOffset(15)..ByteOffset(20)));
    assert_eq!(*backward[1], Edit::Delete(ByteOffset(5)..ByteOffset(10)));
}
