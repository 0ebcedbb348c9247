use bad_editor::cli::expand_path;
use bad_editor::completer::{parse_completions, CompletionResult, Completer};
use bad_editor::prompt_completer::{Arg, CmdBuilder};
use bad_editor::cursor::{Cursor, MultiCursor};
use bad_editor::editor::App;
use bad_editor::ByteOffset;
use bad_editor::linter::Severity;
use bad_editor::actions::{get_action, Action, InputEvent, KeyCode, KeyPress, MouseKind, PaneAction};
use bad_editor::cli::FilePathWithOptionalLocation;
use bad_editor::clipboard::InternalClipboard;
use bad_editor::completer::SuggestionMenu;
use bad_editor::highlight_cache::{should_memorize, ResumePoint, StateCache};
use bad_editor::numbers::{parse_hex_u32, parse_u32, parse_usize};
use bad_editor::prompt_completer::{CmdCompleter, Completion, DirEntry, DirListing};
use bad_editor::settings::{
    AutoIndent, EditorConfigProperties, IndentSize, LineEnding, PaneSettings, SetOutcome,
};
use bad_editor::{IndentKind, MoveTarget};

fn chars(s: &str) -> Vec<char> {
    s.chars().collect()
}

fn key(code: KeyCode, ctrl: bool, alt: bool, shift: bool) -> InputEvent {
    InputEvent::Key(KeyPress { code, ctrl, alt, shift, only_shift: !ctrl && !alt, description: "key".to_string() })
}

#[test]
fn numbers_parse_like_std() {
    assert_eq!(parse_usize(&chars("42")), Some(42));
    assert_eq!(parse_usize(&chars("+7")), Some(7));
    assert_eq!(parse_usize(&chars("")), None);
    assert_eq!(parse_usize(&chars("-1")), None);
    assert_eq!(parse_u32(&chars("4294967296")), None);
    assert_eq!(parse_hex_u32(&chars("1F600")), Some(0x1F600));
    assert_eq!(parse_hex_u32(&chars("xyz")), None);
}

#[test]
fn file_arguments_with_locations() {
    let f = FilePathWithOptionalLocation::parse_from_str("src/main.rs:12:5", false);
    assert_eq!((f.path.as_str(), f.line, f.column), ("src/main.rs", Some(12), Some(5)));
    let f = FilePathWithOptionalLocation::parse_from_str("notes.txt:3", false);
    assert_eq!((f.path.as_str(), f.line, f.column), ("notes.txt", Some(3), None));
    let f = FilePathWithOptionalLocation::parse_from_str("weird:name", false);
    assert_eq!((f.path.as_str(), f.line, f.column), ("weird:name", None, None));
    let f = FilePathWithOptionalLocation::parse_from_str("exists:1", true);
    assert_eq!((f.path.as_str(), f.line, f.column), ("exists:1", None, None));
}

#[test]
fn clipboard_joins_with_line_feeds() {
    let mut c = InternalClipboard::new();
    let text = c.copy(vec!["a".to_string(), "b c".to_string()]);
    assert_eq!(text, "a\nb c");
    assert_eq!(c.content(), &["a".to_string(), "b c".to_string()]);
}

#[test]
fn settings_from_editorconfig_and_set() {
    let s = PaneSettings::from_properties(EditorConfigProperties {
        tab_width: Some(8),
        indent_style: Some(IndentKind::Tabs),
        indent_size: Some(IndentSize::UseTabWidth),
        end_of_line: Some(LineEnding::CrLf),
        insert_final_newline: Some(false),
        trim_trailing_whitespace: None,
    });
    assert_eq!(s.tab_width, 8);
    assert_eq!(s.indent_size, 8);
    assert!(s.normalize_end_of_line);
    assert_eq!(s.indent_as_string(), "\t");
    let mut d = PaneSettings::default();
    assert_eq!(d.indent_as_string(), "    ");
    assert!(matches!(d.set("autoindent", " off "), SetOutcome::Applied));
    assert_eq!(d.autoindent, AutoIndent::Off);
    assert!(matches!(d.set("indent_size", "40"), SetOutcome::Failed(_)));
    assert!(matches!(d.set("nonsense", "1"), SetOutcome::Failed(_)));
    match d.set("ftype", "python") {
        SetOutcome::SetFiletype(f) => assert_eq!(f, "python"),
        other => panic!("unexpected {other:?}"),
    }
}

#[test]
fn keys_map_to_actions() {
    assert!(matches!(get_action(&key(KeyCode::Char('q'), true, false, false)), Action::Quit));
    assert!(matches!(
        get_action(&key(KeyCode::Char('z'), true, false, false)),
        Action::HandledByPane(PaneAction::Undo)
    ));
    assert!(matches!(get_action(&key(KeyCode::Char('3'), false, true, false)), Action::GoToPane(2)));
    match get_action(&key(KeyCode::Char('x'), false, false, false)) {
        Action::HandledByPane(PaneAction::Insert(s)) => assert_eq!(s, "x"),
        other => panic!("unexpected {other:?}"),
    }
    assert!(matches!(
        get_action(&key(KeyCode::Up, false, true, true)),
        Action::HandledByPane(PaneAction::SpawnMultiCursorTo(MoveTarget::Up(1)))
    ));
    assert!(matches!(
        get_action(&InputEvent::Mouse(MouseKind::ScrollDown)),
        Action::HandledByPane(PaneAction::ScrollDown(1))
    ));
    assert!(matches!(get_action(&InputEvent::FocusLost), Action::Nothing));
}

#[test]
fn suggestion_menu_render() {
    let mut m = SuggestionMenu::new(vec!["alpha".to_string(), "beta".to_string(), "gamma".to_string()]);
    assert_eq!(m.render(80), "[alpha] beta  gamma ");
    m.cycle_next();
    assert_eq!(m.render(80), " alpha [beta] gamma ");
}

#[test]
fn command_prompt_completion() {
    let c = CmdCompleter::make_completer(&["rust".to_string(), "python".to_string()]);
    match c.complete("go", 2, &vec![]) {
        Completion::Suggestions(s) => {
            assert_eq!(s.len(), 1);
            assert_eq!(s[0].value, "goto");
        }
        Completion::ListDir(_) => panic!("no files needed"),
    }
    match c.complete(":q", 2, &vec![]) {
        Completion::Suggestions(s) => assert_eq!(s[0].value, "quit"),
        Completion::ListDir(_) => panic!("no files needed"),
    }
    match c.complete("open sr", 7, &vec![]) {
        Completion::ListDir(d) => assert_eq!(d, "."),
        Completion::Suggestions(_) => panic!("the directory is needed first"),
    }
    let listing = DirListing {
        dir: ".".to_string(),
        entries: vec![
            DirEntry { name: "src".to_string(), is_dir: true },
            DirEntry { name: "README.md".to_string(), is_dir: false },
        ],
    };
    match c.complete("open sr", 7, &vec![listing]) {
        Completion::Suggestions(s) => {
            assert_eq!(s.len(), 1);
            assert_eq!(s[0].value, "src/");
            assert_eq!((s[0].start, s[0].end), (5, 7));
        }
        Completion::ListDir(_) => panic!("the directory was listed"),
    }
}

#[test]
fn highlight_state_cache() {
    assert!(should_memorize(0x69));
    assert!(!should_memorize(0x68));
    let mut c: StateCache<&str> = StateCache::new();
    c.insert(105, "a");
    c.insert(233, "b");
    c.insert(105, "c");
    assert_eq!(c.len(), 2);
    assert_eq!(*c.get(0), (105, "c"));
    assert_eq!(c.resume_point(7, 7), ResumePoint::AlreadyThere);
    assert_eq!(c.resume_point(0, 200), ResumePoint::FromCache(0));
    assert_eq!(c.resume_point(50, 10), ResumePoint::FromStart);
    assert_eq!(c.resume_point(5, 10), ResumePoint::FromCurrent);
    c.invalidate_from(200);
    assert_eq!(c.len(), 1);
    c.invalidate_from(0);
    assert_eq!(c.len(), 0);
}

#[test]
fn severity_names() {
    assert_eq!(Severity::Info.name(), "info");
    assert_eq!(Severity::Warning.name(), "warning");
    assert_eq!(Severity::Error.name(), "error");
}

#[test]
fn expanding_the_home_directory() {
    assert_eq!(expand_path("~/notes.txt", Some("/home/me")), "/home/me/notes.txt");
    assert_eq!(expand_path("~/notes.txt", Some("/home/me/")), "/home/me/notes.txt");
    assert_eq!(expand_path("~", Some("/home/me")), "/home/me");
    assert_eq!(expand_path("~/x", None), "~/x");
    assert_eq!(expand_path("~other/x", Some("/home/me")), "~other/x");
    assert_eq!(expand_path("a/~/b", Some("/home/me")), "a/~/b");
    assert_eq!(expand_path("~//etc", Some("/home/me")), "/etc");
}

#[test]
fn reading_a_table_of_completions() {
    let pairs = parse_completions("  fn\tfunction\r\nlet  binding extra\n\n").unwrap();
    assert_eq!(pairs, vec![
        ("fn".to_string(), "function".to_string()),
        ("let".to_string(), "binding".to_string()),
    ]);
    assert!(parse_completions("fn function\nlonely\n").is_none());
    assert_eq!(parse_completions("  \n ").unwrap(), Vec::<(String, String)>::new());
    let c = Completer::from_pairs(&pairs);
    match c.complete("le") {
        CompletionResult::ReplaceWith(s) => assert_eq!(s, "let"),
        _ => panic!("expected a replacement"),
    }
}

#[test]
fn new_panes_complete_from_the_editor_table() {
    let mut app = App::new();
    app.completions = vec![("zebra".to_string(), "stripes".to_string())];
    app.handle_action(bad_editor::actions::Action::NewPane);
    assert_eq!(app.panes.len(), 1);
    match app.panes[0].completer.complete("zeb") {
        CompletionResult::ReplaceWith(s) => assert_eq!(s, "zebra"),
        _ => panic!("expected a replacement"),
    }
}

#[test]
fn command_arguments_one_by_one() {
    let cmd = CmdBuilder::new("goto").arg(Arg::String).arg(Arg::File).build();
    assert_eq!(cmd.n_args(), 2);
    let cmd = CmdBuilder::new("quit").build();
    assert_eq!(cmd.n_args(), 0);
    let cmd = CmdBuilder::new("open").args(Arg::File).build();
    assert_eq!(cmd.n_args(), 1);
}

#[test]
fn cursors_last_first() {
    let mut m = MultiCursor::new();
    m.set_cursors(0, vec![Cursor::new_with_offset(ByteOffset(1)), Cursor::new_with_offset(ByteOffset(5))]);
    let offsets: Vec<usize> = m.rev_iter().map(|c| c.offset.0).collect();
    assert_eq!(offsets, vec![5, 1]);
}
