use bad_editor::actions::{Action, PaneAction};
use bad_editor::commands::{exec_command_for, interpret_command, parse_insertchar, parse_target, CommandOutcome};
use bad_editor::exec::{command_from_template, ExecError};
use bad_editor::transforms::{apply_transform, Transform};
use bad_editor::MoveTarget;

fn chars(s: &str) -> Vec<char> {
    s.chars().collect()
}

fn inform_text(o: CommandOutcome) -> String {
    match o {
        CommandOutcome::Inform(m) => m,
        other => panic!("expected a message, got {other:?}"),
    }
}

#[test]
fn goto_line_and_column() {
    assert_eq!(parse_target(&chars("12:5")), Some(MoveTarget::Location(12, 5)));
    assert_eq!(parse_target(&chars("7")), Some(MoveTarget::Location(7, 1)));
    assert_eq!(parse_target(&chars("B42")), Some(MoveTarget::ByteOffset(42)));
}

#[test]
fn goto_rejects_zero_and_junk() {
    assert_eq!(parse_target(&chars("0")), None);
    assert_eq!(parse_target(&chars("3:0")), None);
    assert_eq!(parse_target(&chars("abc")), None);
    assert_eq!(parse_target(&chars("B")), None);
}

#[test]
fn insertchar_by_code_point_and_name() {
    assert_eq!(parse_insertchar(&chars("U+41")), Some('A'));
    assert_eq!(parse_insertchar(&chars("97")), Some('a'));
    assert_eq!(parse_insertchar(&chars("SNOWMAN")), Some('☃'));
    assert_eq!(parse_insertchar(&chars("U+D800")), None);
    assert_eq!(parse_insertchar(&chars("no such char")), None);
    assert_eq!(parse_insertchar(&chars("-x")), None);
}

#[test]
fn insertchar_command_inserts_all_chars() {
    match interpret_command("c U+41, 66 ,LATIN SMALL LETTER C") {
        CommandOutcome::Enqueue(Action::HandledByPane(PaneAction::Insert(s))) => assert_eq!(s, "ABc"),
        other => panic!("unexpected {other:?}"),
    }
}

#[test]
fn insertchar_command_reports_first_bad_request() {
    assert_eq!(inform_text(interpret_command("insertchar U+41, nope ,66")), "No character with name \" nope \"");
}

#[test]
fn goto_command() {
    match interpret_command("goto 3:4") {
        CommandOutcome::Enqueue(Action::HandledByPane(PaneAction::MoveTo(t))) => {
            assert_eq!(t, MoveTarget::Location(3, 4))
        }
        other => panic!("unexpected {other:?}"),
    }
    assert_eq!(inform_text(interpret_command("goto x")), "goto error: \"x\" is not a valid target");
}

#[test]
fn quit_aliases() {
    for c in ["exit", "quit", "q", ":q"] {
        assert!(matches!(interpret_command(c), CommandOutcome::Enqueue(Action::Quit)));
    }
}

#[test]
fn to_command_transformations() {
    assert!(matches!(interpret_command("to *3"), CommandOutcome::Transform(Transform::Repeat(3))));
    assert!(matches!(interpret_command("to upper"), CommandOutcome::Transform(Transform::Upper)));
    assert!(matches!(interpret_command("to list"), CommandOutcome::Transform(Transform::List)));
    assert_eq!(inform_text(interpret_command("to sideways")), "to error: \"sideways\" is not a valid transformation");
}

#[test]
fn set_command_usage() {
    match interpret_command("set   eol crlf") {
        CommandOutcome::SetOption(k, v) => {
            assert_eq!(k, "eol");
            assert_eq!(v, "crlf");
        }
        other => panic!("unexpected {other:?}"),
    }
    assert_eq!(inform_text(interpret_command("set eol")), "set error: correct usage is 'set KEY VALUE'");
}

#[test]
fn unknown_command() {
    assert_eq!(inform_text(interpret_command("frobnicate now")), "Unknown command 'frobnicate'");
}

#[test]
fn pipe_save_open_find() {
    match interpret_command("|sort -u") {
        CommandOutcome::PipeThroughShell(c) => assert_eq!(c, "sort -u"),
        other => panic!("unexpected {other:?}"),
    }
    assert!(matches!(interpret_command("save"), CommandOutcome::Enqueue(Action::Save)));
    match interpret_command("save ~/x.txt") {
        CommandOutcome::SaveAs(p) => assert_eq!(p, "~/x.txt"),
        other => panic!("unexpected {other:?}"),
    }
    match interpret_command("open a.txt:3") {
        CommandOutcome::Open(p) => assert_eq!(p, "a.txt:3"),
        other => panic!("unexpected {other:?}"),
    }
    match interpret_command("find needle in") {
        CommandOutcome::Enqueue(Action::HandledByPane(PaneAction::Find(n))) => assert_eq!(n, "needle in"),
        other => panic!("unexpected {other:?}"),
    }
    assert!(matches!(interpret_command("lint"), CommandOutcome::Lint));
    assert!(matches!(interpret_command("execute"), CommandOutcome::Exec));
}

#[test]
fn transforms_of_selection_text() {
    assert_eq!(apply_transform(Transform::Repeat(3), "ab"), "ababab");
    assert_eq!(apply_transform(Transform::Repeat(0), "ab"), "");
    assert_eq!(apply_transform(Transform::Upper, "straße"), "STRASSE");
    assert_eq!(apply_transform(Transform::Lower, "ÄB"), "äb");
    assert_eq!(apply_transform(Transform::List, "  a b\n\tc  "), "[a, b, c]");
    assert_eq!(apply_transform(Transform::List, "   "), "[]");
    assert_eq!(apply_transform(Transform::Quoted, "say \"hi\" now"), "\"say\" \"\\\"hi\\\"\" \"now\"");
    assert_eq!(apply_transform(Transform::Quoted, "a\\b c "), "\"a\\\\b\" \"c\" ");
}

#[test]
fn exec_commands_by_filetype() {
    assert_eq!(exec_command_for("python", "x.py").unwrap(), vec!["uv", "run", "x.py"]);
    assert_eq!(exec_command_for("rust", "main.rs").unwrap(), vec!["cargo", "run"]);
    assert_eq!(exec_command_for("bash", "s.sh").unwrap(), vec!["bash", "s.sh"]);
    assert_eq!(exec_command_for("cobol", "x").unwrap_err(), "exec error: no exec command for ft:cobol");
}

#[test]
fn templates_fill_in_the_path() {
    assert_eq!(command_from_template("cat '%f' -n", "a b").unwrap(), vec!["cat", "a b", "-n"]);
    assert_eq!(command_from_template("wc %f%f", "x").unwrap(), vec!["wc", "xx"]);
    assert!(matches!(command_from_template("echo 'unclosed", "x"), Err(ExecError::InvalidTemplate)));
    assert!(matches!(command_from_template("   ", "x"), Err(ExecError::InvalidTemplate)));
}

#[test]
fn exec_error_messages() {
    assert_eq!(ExecError::InvalidTemplate.message(), "exec error: invalid template");
    assert_eq!(
        ExecError::NotFound { executable: "zzz".to_string() }.message(),
        "exec error: cannot execute zzz (no such file)"
    );
}
