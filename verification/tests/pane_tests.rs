use bad_editor::actions::{Action, KeyCode, PaneAction};
use bad_editor::completer::{CompletionResult, Completer, SuggestionMenu};
use bad_editor::cursor::Cursor;
use bad_editor::editor::{confirmation_answer, App, AppEffect, Confirmation};
use bad_editor::linter::{parse_linter_output, Lint, LinterError};
use bad_editor::pane::{open_failure_message, OpenFailure, Pane, SaveFailure};
use bad_editor::ropebuffer::RopeBuffer;
use bad_editor::settings::{AutoIndent, LineEnding, PaneSettings};
use bad_editor::transforms::Transform;
use bad_editor::{ByteOffset, MoveTarget};

fn pane_with(text: &str) -> Pane {
    let mut p = Pane::empty();
    p.content = RopeBuffer::from_str(text);
    p
}

fn text_of(p: &Pane) -> String {
    p.content.to_string()
}

fn select(p: &mut Pane, from: usize, to: usize) {
    p.cursors.cursors = vec![Cursor::new_with_selection(ByteOffset(to), Some(ByteOffset(from)))];
    p.cursors.primary_index = 0;
}

#[test]
fn typing_replaces_the_selection_and_deselects() {
    let mut p = pane_with("hello world");
    select(&mut p, 0, 5);
    let line = p.handle_event(PaneAction::Insert("bye".to_string()));
    assert_eq!(text_of(&p), "bye world");
    assert_eq!(line, Some(0));
    assert!(p.modified);
    assert!(p.cursors.cursors.iter().all(|c| c.selection_from.is_none()));
}

#[test]
fn undo_then_redo_through_the_pane() {
    let mut p = pane_with("abc");
    p.handle_event(PaneAction::MoveTo(MoveTarget::End));
    p.handle_event(PaneAction::Insert("def".to_string()));
    assert_eq!(text_of(&p), "abcdef");
    p.handle_event(PaneAction::Undo);
    assert_eq!(text_of(&p), "abc");
    p.handle_event(PaneAction::Redo);
    assert_eq!(text_of(&p), "abcdef");
}

#[test]
fn newline_keeps_indentation() {
    let mut p = pane_with("    let x = 1;");
    p.handle_event(PaneAction::MoveTo(MoveTarget::End));
    p.handle_event(PaneAction::InsertNewline);
    assert_eq!(text_of(&p), "    let x = 1;\n    ");
}

#[test]
fn newline_without_autoindent() {
    let mut p = pane_with("\tx");
    p.settings.autoindent = AutoIndent::Off;
    p.handle_event(PaneAction::MoveTo(MoveTarget::End));
    p.handle_event(PaneAction::InsertNewline);
    assert_eq!(text_of(&p), "\tx\n");
}

#[test]
fn transform_rewrites_selections_only() {
    let mut p = pane_with("one two three");
    p.cursors.cursors = vec![
        Cursor::new_with_selection(ByteOffset(3), Some(ByteOffset(0))),
        Cursor::new_with_offset(ByteOffset(5)),
        Cursor::new_with_selection(ByteOffset(13), Some(ByteOffset(8))),
    ];
    p.cursors.primary_index = 0;
    p.transform_selections(Transform::Upper);
    assert_eq!(text_of(&p), "ONE two THREE");
}

#[test]
fn transform_without_selection_changes_nothing() {
    let mut p = pane_with("abc");
    assert_eq!(p.transform_selections(Transform::Upper), None);
    assert_eq!(text_of(&p), "abc");
    assert!(!p.modified);
}

#[test]
fn cut_returns_and_removes_selections() {
    let mut p = pane_with("hello world");
    select(&mut p, 6, 11);
    let (clips, _) = p.cut();
    assert_eq!(clips, vec!["world".to_string()]);
    assert_eq!(text_of(&p), "hello ");
}

#[test]
fn replace_selections_in_order() {
    let mut p = pane_with("a b c");
    p.cursors.cursors = vec![
        Cursor::new_with_selection(ByteOffset(1), Some(ByteOffset(0))),
        Cursor::new_with_selection(ByteOffset(5), Some(ByteOffset(4))),
    ];
    p.cursors.primary_index = 0;
    p.replace_selections(&["x".to_string(), "yy".to_string()]);
    assert_eq!(text_of(&p), "x b yy");
}

#[test]
fn select_all_then_delete() {
    let mut p = pane_with("some text\nmore");
    p.handle_event(PaneAction::SelectAll);
    p.handle_event(PaneAction::DeleteBackward);
    assert_eq!(text_of(&p), "");
}

#[test]
fn find_remembers_the_needle() {
    let mut p = pane_with("xx abc");
    p.handle_event(PaneAction::Find("abc".to_string()));
    assert_eq!(p.last_search.as_deref(), Some("abc"));
    assert_eq!(p.cursors.primary().offset, ByteOffset(3));
}

#[test]
fn scrolling_stops_at_the_last_line() {
    let mut p = pane_with("a\nb\nc");
    p.handle_event(PaneAction::ScrollDown(10));
    assert_eq!(p.viewport_position_row, 2);
    p.handle_event(PaneAction::ScrollUp(1));
    assert_eq!(p.viewport_position_row, 1);
    p.handle_event(PaneAction::ScrollUp(5));
    assert_eq!(p.viewport_position_row, 0);
}

#[test]
fn file_text_trims_and_ends_lines() {
    let mut p = pane_with("a  \r\nb \nc\t");
    assert_eq!(p.file_text(), "a\r\nb\nc\t\n");
    p.settings.normalize_end_of_line = true;
    p.settings.end_of_line = LineEnding::Lf;
    assert_eq!(p.file_text(), "a\nb\nc\t\n");
    p.settings.trim_trailing_whitespace = false;
    p.settings.insert_final_newline = false;
    assert_eq!(p.file_text(), "a  \nb \nc\t");
}

#[test]
fn saving_messages() {
    let mut p = Pane::empty();
    assert!(p.prepare_save().is_none());
    assert_eq!(p.status_msg(), Some("Unable to save: no file specified"));
    let mut q = Pane::for_file("my file.txt", "x", PaneSettings::default(), None, None);
    q.modified = true;
    let (path, text) = q.prepare_save().unwrap();
    assert_eq!(path, "my file.txt");
    assert_eq!(text, "x\n");
    q.finish_save(Ok(()));
    assert!(!q.modified);
    assert_eq!(q.status_msg(), Some("Saved 'my file.txt'"));
    q.finish_save(Err(SaveFailure::CannotWrite("disk full".to_string())));
    assert_eq!(q.status_msg(), Some("Failed to save: disk full"));
}

#[test]
fn pane_for_file_at_location() {
    let p = Pane::for_file("f.txt", "one\ntwo\nthree", PaneSettings::default(), Some(2), Some(3));
    assert_eq!(p.cursors.primary().offset, ByteOffset(6));
    assert_eq!(p.title, "f.txt");
    assert_eq!(p.path.as_deref(), Some("f.txt"));
}

#[test]
fn open_failures() {
    assert_eq!(open_failure_message(&OpenFailure::PermissionDenied, "a b"), "Permission denied: 'a b'");
    assert_eq!(open_failure_message(&OpenFailure::IsADirectory, "d"), "Can not open a directory: d");
    assert_eq!(open_failure_message(&OpenFailure::Other("boom".to_string()), "f"), "boom: f");
}

#[test]
fn completer_from_a_table() {
    let mut c = Completer::new();
    c.insert("hello".to_string(), "hello, world".to_string());
    c.insert("help".to_string(), "help me".to_string());
    c.insert("zebra".to_string(), "stripes".to_string());
    match c.complete("zeb") {
        CompletionResult::ReplaceWith(s) => assert_eq!(s, "zebra"),
        _ => panic!("expected a replacement"),
    }
    match c.complete("zebra") {
        CompletionResult::ReplaceWith(s) => assert_eq!(s, "stripes"),
        _ => panic!("expected the completion"),
    }
    match c.complete("hel") {
        CompletionResult::Menu(m) => {
            assert_eq!(m.current(), "hello");
        }
        _ => panic!("expected a menu"),
    }
    assert!(matches!(c.complete("q"), CompletionResult::NoResults));
}

#[test]
fn autocomplete_in_a_pane() {
    let mut p = pane_with("zeb");
    p.completer.insert("zebra".to_string(), "stripes".to_string());
    p.handle_event(PaneAction::MoveTo(MoveTarget::End));
    p.handle_event(PaneAction::Autocomplete);
    assert_eq!(text_of(&p), "zebra");
    let mut q = pane_with("xyz");
    q.handle_event(PaneAction::MoveTo(MoveTarget::End));
    q.handle_event(PaneAction::Autocomplete);
    assert_eq!(q.status_msg(), Some("no completions"));
}

#[test]
fn suggestion_menu_cycles() {
    let mut m = SuggestionMenu::new(vec!["a".to_string(), "b".to_string()]);
    m.cycle_next();
    assert_eq!(m.current(), "b");
    m.cycle_next();
    assert_eq!(m.current(), "a");
    m.cycle_previous();
    assert_eq!(m.current(), "b");
}

#[test]
fn linter_output_and_errors() {
    let lints = parse_linter_output("a.rs:3:4:error:bad\r\nnoise\nb.rs:1::warning:meh\n");
    assert_eq!(lints.len(), 2);
    assert_eq!(lints[0].filename(), "a.rs");
    assert_eq!(lints[0].lineno(), 3);
    assert!(lints[0].is_error());
    assert_eq!(lints[1].location(), Some(MoveTarget::Location(1, 1)));
    assert_eq!(LinterError::JanetNotInstalled.message(), "linter error: janet not found in $PATH");
    assert_eq!(LinterError::Other("x".to_string()).report(), "linter error: Other(\"x\")");
}

#[test]
fn lints_move_the_cursor_to_the_first_error() {
    let mut app = App::new();
    app.switch_to_new_pane(Pane::for_file("a.rs", "one\ntwo\nthree", PaneSettings::default(), None, None));
    let lints: Vec<Lint> = parse_linter_output("a.rs:1:1:warning:w\na.rs:3:2:error:e\nb.rs:1:1:error:x\n");
    app.apply_lints(lints);
    let p = &app.panes[0];
    assert_eq!(p.lints.len(), 2);
    assert_eq!(p.cursors.primary().offset, ByteOffset(9));
    assert_eq!(p.status_msg(), Some("linted (2 lint(s) in current file)"));
    assert_eq!(app.info.as_deref(), Some("linted"));
}

#[test]
fn editor_panes() {
    let mut app = App::new();
    app.switch_to_new_pane(Pane::empty());
    app.handle_action(Action::NewPane);
    assert_eq!(app.panes.len(), 2);
    assert_eq!(app.current_pane_index, 1);
    app.handle_action(Action::PreviousPane);
    assert_eq!(app.current_pane_index, 0);
    app.handle_action(Action::GoToPane(5));
    assert_eq!(app.info.as_deref(), Some("there is no pane 6"));
    app.handle_action(Action::ClosePane);
    assert_eq!(app.panes.len(), 1);
    app.handle_action(Action::ClosePane);
    assert_eq!(app.panes.len(), 1);
    assert_eq!(app.status_msg(), Some("the last pane can not be closed"));
}

#[test]
fn editor_copy_and_paste() {
    let mut app = App::new();
    let mut p = pane_with("copy me");
    select(&mut p, 0, 4);
    app.switch_to_new_pane(p);
    let effects = app.handle_action(Action::Copy);
    assert!(matches!(&effects[..], [AppEffect::ToClipboard(t)] if t == "copy"));
    app.handle_action(Action::HandledByPane(PaneAction::MoveTo(MoveTarget::End)));
    app.handle_action(Action::Paste);
    assert_eq!(app.panes[0].content.to_string(), "copy mecopy");
}

#[test]
fn editor_commands() {
    let mut app = App::new();
    app.switch_to_new_pane(pane_with("x"));
    app.handle_command("set autoindent sideways");
    assert_eq!(app.info.as_deref(), Some("set error: autoindent must be one of: off, keep"));
    app.handle_command("set autoindent off");
    assert_eq!(app.panes[0].settings.autoindent, AutoIndent::Off);
    let effects = app.handle_command("set ft rust");
    assert!(matches!(&effects[..], [AppEffect::SetFiletype(k, n)] if k == "ft" && n == "rust"));
    app.panes[0].modified = true;
    app.handle_command("lint");
    assert_eq!(app.info.as_deref(), Some("lint error: save your changes before linting"));
    app.handle_command("goto 1");
    assert_eq!(app.action_queue.len(), 1);
}

#[test]
fn confirmation_keys() {
    assert_eq!(confirmation_answer(KeyCode::Char('Y')), Some(Confirmation::SaveFirst));
    assert_eq!(confirmation_answer(KeyCode::Char('n')), Some(Confirmation::Discard));
    assert_eq!(confirmation_answer(KeyCode::Esc), Some(Confirmation::Abort));
    assert_eq!(confirmation_answer(KeyCode::Char('x')), None);
}

#[test]
fn lint_colors_follow_severity() {
    let info = Lint::parse("a.rs:1:1:info:note").unwrap();
    let warning = Lint::parse("a.rs:1:1:warning:careful").unwrap();
    let error = Lint::parse("a.rs:1:1:error:broken").unwrap();
    assert_eq!(info.color(), (0xDD, 0xCC, 0x88));
    assert_eq!(warning.color(), (0xFF, 0xAF, 0));
    assert_eq!(error.color(), (0xDB, 0, 0));
}

#[test]
fn lints_go_to_the_first_pane_of_their_file() {
    let mut app = App::new();
    app.switch_to_new_pane(Pane::for_file("a.rs", "one\ntwo", PaneSettings::default(), None, None));
    app.switch_to_new_pane(Pane::for_file("b.rs", "x", PaneSettings::default(), None, None));
    app.switch_to_new_pane(Pane::for_file("a.rs", "one\ntwo", PaneSettings::default(), None, None));
    let lints: Vec<Lint> = parse_linter_output("a.rs:1:1:warning:w\nb.rs:1:1:info:i\na.rs:2:1:warning:v\n");
    app.apply_lints(lints);
    assert_eq!(app.panes[0].lints.len(), 2);
    assert_eq!(app.panes[1].lints.len(), 1);
    assert_eq!(app.panes[2].lints.len(), 0);
    assert_eq!(app.panes[2].status_msg(), None);
}

#[test]
fn menu_of_completions_cycles_in_place() {
    let mut p = pane_with("ze");
    p.completer.insert("zebra".to_string(), "stripes".to_string());
    p.completer.insert("zero".to_string(), "nothing".to_string());
    p.handle_event(PaneAction::MoveTo(MoveTarget::End));
    p.handle_event(PaneAction::Autocomplete);
    assert_eq!(text_of(&p), "zebra");
    assert!(p.suggestions.is_some());
    p.handle_event(PaneAction::AutocompleteCycleNext);
    assert_eq!(text_of(&p), "zero");
    p.handle_event(PaneAction::AutocompleteCycleNext);
    assert_eq!(text_of(&p), "zebra");
}

#[test]
fn tab_indents_at_the_start_of_a_line() {
    let mut p = pane_with("abc");
    let r = p.handle_event(PaneAction::Tab);
    assert_eq!(text_of(&p), "    abc");
    assert_eq!(r, Some(0));
    let r = p.handle_event(PaneAction::BackTab);
    assert_eq!(text_of(&p), "abc");
    assert_eq!(r, Some(0));
}

#[test]
fn quick_add_selects_the_next_occurrence() {
    let mut p = pane_with("ab ab ab");
    select(&mut p, 0, 2);
    p.handle_event(PaneAction::QuickAddNext);
    assert_eq!(p.cursors.cursor_count(), 2);
    let c = p.cursors.primary();
    assert_eq!(c.offset, ByteOffset(3));
    assert_eq!(c.selection_from, Some(ByteOffset(5)));
}

#[test]
fn spawning_a_cursor_below() {
    let mut p = pane_with("one\ntwo\nthree");
    p.handle_event(PaneAction::SpawnMultiCursorTo(MoveTarget::Down(1)));
    assert_eq!(p.cursors.cursor_count(), 2);
    p.handle_event(PaneAction::SpawnMultiCursorTo(MoveTarget::Up(1)));
    // the cursors moved up land on lines that already hold one
    assert_eq!(p.cursors.cursor_count(), 2);
}

#[test]
fn escape_collapses_then_drops_lints() {
    let mut p = pane_with("ab ab");
    select(&mut p, 0, 2);
    p.handle_event(PaneAction::QuickAddNext);
    p.esc();
    assert_eq!(p.cursors.cursor_count(), 1);
    assert_eq!(p.cursors.primary().selection_from, None);
}

#[test]
fn completions_come_in_byte_order() {
    let mut c = Completer::new();
    c.insert("help".to_string(), "help me".to_string());
    c.insert("hello".to_string(), "hello, world".to_string());
    c.insert("hel".to_string(), "hel!".to_string());
    match c.complete("he") {
        CompletionResult::Menu(mut m) => {
            assert_eq!(m.current(), "hel");
            m.cycle_next();
            assert_eq!(m.current(), "hello");
            m.cycle_next();
            assert_eq!(m.current(), "help");
        }
        _ => panic!("expected a menu"),
    }
    match c.accept("hell") {
        CompletionResult::ReplaceWith(s) => assert_eq!(s, "hello, world"),
        _ => panic!("expected a replacement"),
    }
    match c.accept("he") {
        CompletionResult::ReplaceWith(s) => assert_eq!(s, "hel!"),
        _ => panic!("expected a replacement"),
    }
    assert!(matches!(c.accept("x"), CompletionResult::NoResults));
    match c.complete("") {
        CompletionResult::Menu(m) => assert_eq!(m.current(), "hel"),
        _ => panic!("expected a menu"),
    }
    let mut one = Completer::new();
    one.insert("abc".to_string(), "x".to_string());
    assert!(matches!(one.complete(""), CompletionResult::Menu(_)));
    assert!(matches!(one.complete("a"), CompletionResult::ReplaceWith(_)));
}
