use bad_editor::cursor::Cursor;
use bad_editor::render::{
    layout_line, lineno_width, replacement_symbol, sidebar, size_indicator, status_line_text_left,
    status_line_text_right, unicode_line_break_symbol, visible_cells, CellStyle,
};
use bad_editor::ByteOffset;

#[test]
fn test_replacement_symbols() {
    assert_eq!(replacement_symbol("\u{200C}"), Some("<U+200C>".into()));
    assert_eq!(replacement_symbol("\u{0}"), Some("<00>".into()));
}

#[test]
fn more_replacement_symbols() {
    assert_eq!(replacement_symbol("a"), None);
    assert_eq!(replacement_symbol("\u{1b}"), Some("<27>".into()));
    assert_eq!(replacement_symbol("\u{7f}"), Some("<127>".into()));
    assert_eq!(replacement_symbol("é"), None);
}

#[test]
fn line_break_glyphs() {
    assert_eq!(unicode_line_break_symbol("\n"), Some("⏎"));
    assert_eq!(unicode_line_break_symbol("\r\n"), Some("␍␊"));
    assert_eq!(unicode_line_break_symbol("\u{2028}"), Some("<U+2028>"));
    assert_eq!(unicode_line_break_symbol("x"), None);
}

#[test]
fn line_numbers_and_status() {
    assert_eq!(lineno_width(9), 1);
    assert_eq!(lineno_width(10), 2);
    assert_eq!(lineno_width(12345), 5);
    assert_eq!(sidebar(7, 3, false), "   7 ");
    assert_eq!(sidebar(1234, 2, true), " 1234<");
    assert_eq!(status_line_text_left("f.rs", true, "rust"), "f.rs [+] | ft:rust");
    assert_eq!(status_line_text_left("f.rs", false, "plain"), "f.rs | ft:plain");
    assert_eq!(size_indicator(3, 120), Some("3/120B".to_string()));
    assert_eq!(size_indicator(3, 10000), None);
    assert_eq!(status_line_text_right(4, 12, "3/120B"), " col:4   line:12  3/120B");
    assert_eq!(status_line_text_right(1234, 5, "x"), " col:1234 line:5   x");
}

fn graphemes(s: &[&str]) -> Vec<(String, usize)> {
    s.iter().map(|g| (g.to_string(), 0)).collect()
}

#[test]
fn tabs_expand_to_the_next_stop() {
    let cursors = [Cursor::new_with_offset(ByteOffset(100))];
    let l = layout_line(&graphemes(&["a", "\t", "b"]), 0, &cursors, 100, 4, 80, false, 200, false);
    let texts: Vec<&str> = l.cells.iter().map(|c| c.text.as_str()).collect();
    assert_eq!(texts, vec!["a", " ", " ", " ", "b"]);
    assert_eq!(l.cells[4].column, 4);
}

#[test]
fn cursor_and_selection_styles() {
    let cursors = [
        Cursor::new_with_offset(ByteOffset(0)),
        Cursor::new_with_selection(ByteOffset(3), Some(ByteOffset(2))),
    ];
    let l = layout_line(&graphemes(&["a", "b", "c", "d"]), 0, &cursors, 0, 4, 80, false, 4, false);
    let styles: Vec<CellStyle> = l.cells.iter().map(|c| c.style).collect();
    assert_eq!(styles, vec![CellStyle::TokenReversed, CellStyle::Token, CellStyle::Selected, CellStyle::Token]);
}

#[test]
fn cursor_at_the_end_of_the_text() {
    let cursors = [Cursor::new_with_offset(ByteOffset(2))];
    let l = layout_line(&graphemes(&["a", "b"]), 0, &cursors, 2, 4, 80, true, 2, false);
    assert_eq!(l.cells.len(), 3);
    assert_eq!(l.cells[2].text, " ");
    assert_eq!(l.cells[2].style, CellStyle::TokenReversed);
}

#[test]
fn long_lines_scroll_and_clip() {
    let cursors = [Cursor::new_with_offset(ByteOffset(9))];
    let gs = graphemes(&["0", "1", "2", "3", "4", "5", "6", "7", "8", "9"]);
    let l = layout_line(&gs, 0, &cursors, 9, 4, 5, false, 100, false);
    assert_eq!(l.visible_from_column, 6);
    let (shown, overflow) = visible_cells(&l.cells, l.visible_from_column, 5);
    assert_eq!(shown, vec![6, 7, 8, 9]);
    assert!(!overflow);
    let (shown, overflow) = visible_cells(&l.cells, 0, 5);
    assert_eq!(shown, vec![0, 1, 2, 3, 4]);
    assert!(overflow);
}
