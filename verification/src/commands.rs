//! The command line of the editor: what each command asks for.
use crate::actions::{Action, ActionView, PaneAction, PaneActionView};
use crate::charseq::{find_char, find_from, first_non_ws, has_prefix, skip_ws, starts_with, sub_vec, trim_start};
use crate::cli::positive;
use crate::numbers::{parse_hex_u32, parse_u32, parse_usize, spec_parse};
use crate::quoting::{debug_escaped, debug_string};
use crate::settings::{trim_chars, trimmed};
use crate::strings::{chars_of, is_word, push_char, push_str, string_of, to_owned_string};
use crate::transforms::Transform;
use crate::types::MoveTarget;
use vstd::prelude::*;

verus! {

/// The char with code point `v`, if `v` is a Unicode scalar value.
pub open spec fn char_of(v: nat) -> Option<char> {
    if v <= 0xD7FF || (0xE000 <= v && v <= 0x10FFFF) {
        Some(v as char)
    } else {
        None
    }
}

/// `char::from_u32`: the char with that code point, if there is one.
#[verifier::external_body]
fn char_from_u32(v: u32) -> (r: Option<char>)
    ensures
        r == char_of(v as nat),
{
    char::from_u32(v)
}

/// The char that `unicode_names2::character` finds for a name.
pub uninterp spec fn char_named(name: Seq<char>) -> Option<char>;

/// `unicode_names2::character`: the char with the given Unicode name or
/// alias, matched loosely. A name that starts with `-` is not handed to it:
/// its normalisation reads the byte before a leading hyphen.
#[verifier::external_body]
fn character_named(name: &str) -> (r: Option<char>)
    requires
        name@.len() == 0 || name@[0] != '-',
    ensures
        r == char_named(name@),
{
    unicode_names2::character(name)
}

/// The char that a request of `insertchar` names: `U+` and a hexadecimal
/// code point, a decimal code point, or a Unicode name. No name starts with
/// a hyphen.
pub open spec fn insertchar_spec(s: Seq<char>) -> Option<char> {
    if has_prefix(s, seq!['U', '+']) {
        match spec_parse(s.skip(2), 16, u32::MAX as nat) {
            Some(v) => char_of(v),
            None => None,
        }
    } else if s.len() > 0 && '0' <= s[0] <= '9' {
        match spec_parse(s, 10, u32::MAX as nat) {
            Some(v) => char_of(v),
            None => None,
        }
    } else if s.len() > 0 && s[0] == '-' {
        None
    } else {
        char_named(s)
    }
}

/// The char that one request of `insertchar` names.
pub fn parse_insertchar(s: &[char]) -> (r: Option<char>)
    ensures
        r == insertchar_spec(s@),
{
    let prefix = ['U', '+'];
    if starts_with(s, &prefix) {
        let hex = sub_vec(s, 2, s.len());
        proof {
            assert(s@.skip(2) =~= hex@);
        }
        match parse_hex_u32(hex.as_slice()) {
            Some(v) => char_from_u32(v),
            None => None,
        }
    } else if s.len() > 0 && '0' <= s[0] && s[0] <= '9' {
        match parse_u32(s) {
            Some(v) => char_from_u32(v),
            None => None,
        }
    } else if s.len() > 0 && s[0] == '-' {
        None
    } else {
        let name = string_of(s);
        character_named(name.as_str())
    }
}

/// The pieces of `s` between the separators, in order; there is always at
/// least one.
pub open spec fn pieces(s: Seq<char>, sep: char) -> Seq<Seq<char>>
    decreases s.len(),
{
    if s.len() == 0 {
        seq![seq![]]
    } else {
        let p = pieces(s.drop_last(), sep);
        if s.last() == sep {
            p.push(seq![])
        } else {
            p.update(p.len() - 1, p.last().push(s.last()))
        }
    }
}

pub proof fn lemma_pieces_nonempty(s: Seq<char>, sep: char)
    ensures
        pieces(s, sep).len() >= 1,
    decreases s.len(),
{
    if s.len() > 0 {
        lemma_pieces_nonempty(s.drop_last(), sep);
    }
}

/// The views of a list of char vectors.
pub open spec fn char_views(v: Seq<Vec<char>>) -> Seq<Seq<char>> {
    Seq::new(v.len(), |i: int| v[i]@)
}

/// `s` split at each `sep`, as `str::split` does.
pub(crate) fn split_on(s: &[char], sep: char) -> (r: Vec<Vec<char>>)
    ensures
        char_views(r@) == pieces(s@, sep),
{
    let mut done: Vec<Vec<char>> = Vec::new();
    let mut cur: Vec<char> = Vec::new();
    let mut i: usize = 0;
    while i < s.len()
        invariant
            i <= s@.len(),
            char_views(done@).push(cur@) == pieces(s@.take(i as int), sep),
        decreases s@.len() - i,
    {
        let c = s[i];
        let ghost before = char_views(done@).push(cur@);
        proof {
            assert(s@.take(i + 1).drop_last() =~= s@.take(i as int));
            assert(s@.take(i + 1).last() == c);
            lemma_pieces_nonempty(s@.take(i as int), sep);
        }
        if c == sep {
            done.push(cur);
            cur = Vec::new();
            proof {
                assert(char_views(done@).push(cur@) =~= before.push(seq![]));
            }
        } else {
            cur.push(c);
            proof {
                assert(char_views(done@).push(cur@) =~= before.update(before.len() - 1, before.last().push(c)));
            }
        }
        i = i + 1;
    }
    done.push(cur);
    proof {
        assert(s@.take(s@.len() as int) =~= s@);
        assert(char_views(done@) =~= pieces(s@, sep));
    }
    done
}

/// What `insertchar` makes of its pieces: the chars they name, or the first
/// piece, untrimmed, that names none.
pub open spec fn insert_chars(ps: Seq<Seq<char>>) -> Result<Seq<char>, Seq<char>>
    decreases ps.len(),
{
    if ps.len() == 0 {
        Ok(seq![])
    } else {
        match insert_chars(ps.drop_last()) {
            Err(bad) => Err(bad),
            Ok(out) => match insertchar_spec(trimmed(ps.last())) {
                Some(c) => Ok(out.push(c)),
                None => Err(ps.last()),
            },
        }
    }
}

/// The chars named by the comma separated requests of `insertchar`, or the
/// first request that names none.
pub fn insertchar_request(arg: &[char]) -> (r: Result<String, Vec<char>>)
    ensures
        match r {
            Ok(out) => insert_chars(pieces(arg@, ',')) == Ok::<Seq<char>, Seq<char>>(out@),
            Err(bad) => insert_chars(pieces(arg@, ',')) == Err::<Seq<char>, Seq<char>>(bad@),
        },
{
    let ps = split_on(arg, ',');
    let ghost all = pieces(arg@, ',');
    let mut out = String::new();
    let mut i: usize = 0;
    while i < ps.len()
        invariant
            i <= ps@.len(),
            char_views(ps@) == all,
            all == pieces(arg@, ','),
            insert_chars(all.take(i as int)) == Ok::<Seq<char>, Seq<char>>(out@),
        decreases ps@.len() - i,
    {
        proof {
            assert(all.take(i + 1).drop_last() =~= all.take(i as int));
            assert(all.take(i + 1).last() == ps@[i as int]@);
        }
        let t = trim_chars(ps[i].as_slice());
        match parse_insertchar(t.as_slice()) {
            Some(c) => push_char(&mut out, c),
            None => {
                proof {
                    let pre = all.take(i + 1);
                    assert(pre.last() == all[i as int]);
                    assert(all[i as int] == ps@[i as int]@);
                    assert(insert_chars(pre) == Err::<Seq<char>, Seq<char>>(all[i as int]));
                    lemma_insert_chars_err(all, i as int + 1);
                }
                let bad = sub_vec(ps[i].as_slice(), 0, ps[i].len());
                proof {
                    assert(bad@ =~= ps@[i as int]@);
                }
                return Err(bad);
            },
        }
        i = i + 1;
    }
    proof {
        assert(all.take(ps@.len() as int) =~= all);
    }
    Ok(out)
}

proof fn lemma_insert_chars_err(ps: Seq<Seq<char>>, i: int)
    requires
        0 < i <= ps.len(),
        insert_chars(ps.take(i)) is Err,
    ensures
        insert_chars(ps) == insert_chars(ps.take(i)),
    decreases ps.len() - i,
{
    if i < ps.len() {
        assert(ps.take(i + 1).drop_last() =~= ps.take(i));
        lemma_insert_chars_err(ps, i + 1);
    } else {
        assert(ps.take(i) =~= ps);
    }
}

/// Where `goto` goes: `B` and a byte offset, `LINE:COLUMN`, or `LINE`;
/// lines and columns count from one.
pub open spec fn target_spec(s: Seq<char>) -> Option<MoveTarget> {
    if s.len() > 0 && s[0] == 'B' {
        match spec_parse(s.drop_first(), 10, usize::MAX as nat) {
            Some(v) => Some(MoveTarget::ByteOffset(v as usize)),
            None => None,
        }
    } else {
        match find_from(s, ':', 0) {
            Some(k) => match (positive(s.take(k)), positive(s.skip(k + 1))) {
                (Some(line), Some(col)) => Some(MoveTarget::Location(line as usize, col as usize)),
                _ => None,
            },
            None => match positive(s) {
                Some(line) => Some(MoveTarget::Location(line as usize, 1)),
                None => None,
            },
        }
    }
}

/// A positive number.
fn parse_positive(s: &[char]) -> (r: Option<usize>)
    ensures
        r matches Some(v) ==> positive(s@) == Some(v as nat),
        r is None ==> positive(s@) is None,
{
    match parse_usize(s) {
        Some(v) => if v == 0 {
            None
        } else {
            Some(v)
        },
        None => None,
    }
}

/// Where `goto` goes.
pub fn parse_target(s: &[char]) -> (r: Option<MoveTarget>)
    ensures
        r == target_spec(s@),
{
    if s.len() > 0 && s[0] == 'B' {
        let rest = sub_vec(s, 1, s.len());
        proof {
            assert(rest@ =~= s@.drop_first());
        }
        match parse_usize(rest.as_slice()) {
            Some(v) => Some(MoveTarget::ByteOffset(v)),
            None => None,
        }
    } else {
        match find_char(s, ':') {
            Some(k) => {
                let line = sub_vec(s, 0, k);
                let col = sub_vec(s, k + 1, s.len());
                proof {
                    assert(line@ =~= s@.take(k as int));
                    assert(col@ =~= s@.skip(k + 1));
                }
                match (parse_positive(line.as_slice()), parse_positive(col.as_slice())) {
                    (Some(l), Some(c)) => Some(MoveTarget::Location(l, c)),
                    _ => None,
                }
            },
            None => match parse_positive(s) {
                Some(l) => Some(MoveTarget::Location(l, 1)),
                None => None,
            },
        }
    }
}

/// What a command line asks of the editor.
#[derive(Debug)]
pub enum CommandOutcome {
    /// Pipe the selections, or nothing, through this shell command.
    PipeThroughShell(String),
    /// Queue this action.
    Enqueue(Action),
    /// Show this message.
    Inform(String),
    /// Rewrite the text of each selection.
    Transform(Transform),
    /// Run the current file with the program for its file type.
    Exec,
    /// Lint the current file.
    Lint,
    /// Open this file (an argument of the form `FILE[:LINE[:COLUMN]]`).
    Open(String),
    /// Set the setting to the value.
    SetOption(String, String),
    /// Save to this path, once a leading `~` is expanded.
    SaveAs(String),
}

/// A command outcome, with its strings as char sequences.
pub enum OutcomeView {
    PipeThroughShell(Seq<char>),
    Enqueue(ActionView),
    Inform(Seq<char>),
    Transform(Transform),
    Exec,
    Lint,
    Open(Seq<char>),
    SetOption(Seq<char>, Seq<char>),
    SaveAs(Seq<char>),
}

impl CommandOutcome {
    pub open spec fn view(self) -> OutcomeView {
        match self {
            CommandOutcome::PipeThroughShell(c) => OutcomeView::PipeThroughShell(c@),
            CommandOutcome::Enqueue(a) => OutcomeView::Enqueue(a.view()),
            CommandOutcome::Inform(m) => OutcomeView::Inform(m@),
            CommandOutcome::Transform(t) => OutcomeView::Transform(t),
            CommandOutcome::Exec => OutcomeView::Exec,
            CommandOutcome::Lint => OutcomeView::Lint,
            CommandOutcome::Open(a) => OutcomeView::Open(a@),
            CommandOutcome::SetOption(k, v) => OutcomeView::SetOption(k@, v@),
            CommandOutcome::SaveAs(p) => OutcomeView::SaveAs(p@),
        }
    }
}

/// A command line splits at its first space into the command and its
/// argument.
pub open spec fn split_command(s: Seq<char>) -> (Seq<char>, Seq<char>) {
    match find_from(s, ' ', 0) {
        Some(k) => (s.take(k), s.skip(k + 1)),
        None => (s, seq![]),
    }
}

/// What `to ARG` asks for: `*N` repeats, `upper`, `lower`, `list` and
/// `quoted` rewrite; anything else is refused.
pub open spec fn to_spec(arg: Seq<char>) -> OutcomeView {
    let count = if arg.len() > 0 && arg[0] == '*' {
        spec_parse(arg.drop_first(), 10, usize::MAX as nat)
    } else {
        None
    };
    if count is Some {
        OutcomeView::Transform(Transform::Repeat(count->0 as usize))
    } else if arg == "upper"@ {
        OutcomeView::Transform(Transform::Upper)
    } else if arg == "lower"@ {
        OutcomeView::Transform(Transform::Lower)
    } else if arg == "list"@ {
        OutcomeView::Transform(Transform::List)
    } else if arg == "quoted"@ {
        OutcomeView::Transform(Transform::Quoted)
    } else {
        OutcomeView::Inform("to error: "@ + debug_escaped(arg) + " is not a valid transformation"@)
    }
}

/// What `set ARG` asks for: after leading whitespace, a key and, after the
/// first space, its value.
pub open spec fn set_command_spec(arg: Seq<char>) -> OutcomeView {
    let t = trim_start(arg);
    match find_from(t, ' ', 0) {
        Some(k) => OutcomeView::SetOption(t.take(k), t.skip(k + 1)),
        None => OutcomeView::Inform(
            "set error: correct usage is "@ + seq!['\''] + "set KEY VALUE"@ + seq!['\''],
        ),
    }
}

/// What a command line asks for: a line that starts with `|` pipes through
/// the shell command after it; any other is a command and its argument.
pub open spec fn command_spec(s: Seq<char>) -> OutcomeView {
    if s.len() > 0 && s[0] == '|' {
        OutcomeView::PipeThroughShell(s.drop_first())
    } else {
        named_command_spec(split_command(s).0, split_command(s).1)
    }
}

/// What command `c` with argument `arg` asks for.
pub open spec fn named_command_spec(c: Seq<char>, arg: Seq<char>) -> OutcomeView {
        if c == "exit"@ || c == "quit"@ || c == "q"@ || c == ":q"@ {
            OutcomeView::Enqueue(ActionView::Quit)
        } else if c == "find"@ {
            OutcomeView::Enqueue(ActionView::HandledByPane(PaneActionView::Find(arg)))
        } else if c == "goto"@ {
            match target_spec(arg) {
                Some(t) => OutcomeView::Enqueue(ActionView::HandledByPane(PaneActionView::MoveTo(t))),
                None => OutcomeView::Inform("goto error: "@ + debug_escaped(arg) + " is not a valid target"@),
            }
        } else if c == "to"@ {
            to_spec(arg)
        } else if c == "ex"@ || c == "exec"@ || c == "execute"@ {
            OutcomeView::Exec
        } else if c == "lint"@ {
            OutcomeView::Lint
        } else if c == "insertchar"@ || c == "c"@ {
            match insert_chars(pieces(arg, ',')) {
                Ok(out) => OutcomeView::Enqueue(ActionView::HandledByPane(PaneActionView::Insert(out))),
                Err(bad) => OutcomeView::Inform("No character with name "@ + debug_escaped(bad)),
            }
        } else if c == "open"@ {
            OutcomeView::Open(arg)
        } else if c == "set"@ {
            set_command_spec(arg)
        } else if c == "save"@ {
            if arg.len() == 0 {
                OutcomeView::Enqueue(ActionView::Save)
            } else {
                OutcomeView::SaveAs(arg)
            }
        } else {
            OutcomeView::Inform("Unknown command "@ + seq!['\''] + c + seq!['\''])
        }
}

/// `prefix`, the `Debug` form of `arg`, then `suffix`.
fn message_with_debug(prefix: &str, arg: &[char], suffix: &str) -> (m: String)
    ensures
        m@ == prefix@ + debug_escaped(arg@) + suffix@,
{
    let a = string_of(arg);
    let d = debug_string(a.as_str());
    let mut m = String::new();
    push_str(&mut m, prefix);
    push_str(&mut m, d.as_str());
    push_str(&mut m, suffix);
    proof {
        assert(m@ =~= prefix@ + debug_escaped(arg@) + suffix@);
    }
    m
}

/// What `to ARG` asks for.
fn to_command(arg: &[char]) -> (r: CommandOutcome)
    ensures
        r.view() == to_spec(arg@),
{
    if arg.len() > 0 && arg[0] == '*' {
        let n = sub_vec(arg, 1, arg.len());
        proof {
            assert(n@ =~= arg@.drop_first());
        }
        if let Some(reps) = parse_usize(n.as_slice()) {
            return CommandOutcome::Transform(Transform::Repeat(reps));
        }
    }
    if is_word(arg, "upper") {
        CommandOutcome::Transform(Transform::Upper)
    } else if is_word(arg, "lower") {
        CommandOutcome::Transform(Transform::Lower)
    } else if is_word(arg, "list") {
        CommandOutcome::Transform(Transform::List)
    } else if is_word(arg, "quoted") {
        CommandOutcome::Transform(Transform::Quoted)
    } else {
        CommandOutcome::Inform(message_with_debug("to error: ", arg, " is not a valid transformation"))
    }
}

/// What `set ARG` asks for.
fn set_command(arg: &[char]) -> (r: CommandOutcome)
    ensures
        r.view() == set_command_spec(arg@),
{
    let start = first_non_ws(arg);
    let t = sub_vec(arg, start, arg.len());
    proof {
        assert(t@ =~= trim_start(arg@));
    }
    match find_char(t.as_slice(), ' ') {
        Some(k) => {
            let key = sub_vec(t.as_slice(), 0, k);
            let value = sub_vec(t.as_slice(), k + 1, t.len());
            proof {
                assert(key@ =~= t@.take(k as int));
                assert(value@ =~= t@.skip(k + 1));
            }
            CommandOutcome::SetOption(string_of(key.as_slice()), string_of(value.as_slice()))
        },
        None => {
            let mut m = String::new();
            push_str(&mut m, "set error: correct usage is ");
            push_char(&mut m, '\'');
            push_str(&mut m, "set KEY VALUE");
            push_char(&mut m, '\'');
            proof {
                assert(m@ =~= "set error: correct usage is "@ + seq!['\''] + "set KEY VALUE"@ + seq!['\'']);
            }
            CommandOutcome::Inform(m)
        },
    }
}

/// What the command line `s` asks for; `handle_command` of the editor
/// carries it out.
pub fn interpret_command(s: &str) -> (r: CommandOutcome)
    ensures
        r.view() == command_spec(s@),
{
    let cs = chars_of(s);
    if cs.len() > 0 && cs[0] == '|' {
        let rest = sub_vec(cs.as_slice(), 1, cs.len());
        proof {
            assert(rest@ =~= s@.drop_first());
        }
        return CommandOutcome::PipeThroughShell(string_of(rest.as_slice()));
    }
    let (c, arg) = match find_char(cs.as_slice(), ' ') {
        Some(k) => (sub_vec(cs.as_slice(), 0, k), sub_vec(cs.as_slice(), k + 1, cs.len())),
        None => (sub_vec(cs.as_slice(), 0, cs.len()), Vec::new()),
    };
    proof {
        assert(c@ =~= split_command(s@).0);
        assert(arg@ =~= split_command(s@).1);
    }
    named_command(c.as_slice(), arg.as_slice())
}

/// What command `c` with argument `arg` asks for.
#[verifier::rlimit(50)]
fn named_command(c: &[char], arg: &[char]) -> (r: CommandOutcome)
    ensures
        r.view() == named_command_spec(c@, arg@),
{
    if is_word(c, "exit") || is_word(c, "quit") || is_word(c, "q") || is_word(c, ":q") {
        CommandOutcome::Enqueue(Action::Quit)
    } else if is_word(c, "find") {
        CommandOutcome::Enqueue(Action::HandledByPane(PaneAction::Find(string_of(arg))))
    } else if is_word(c, "goto") {
        match parse_target(arg) {
            Some(t) => CommandOutcome::Enqueue(Action::HandledByPane(PaneAction::MoveTo(t))),
            None => CommandOutcome::Inform(message_with_debug("goto error: ", arg, " is not a valid target")),
        }
    } else if is_word(c, "to") {
        to_command(arg)
    } else if is_word(c, "ex") || is_word(c, "exec") || is_word(c, "execute") {
        CommandOutcome::Exec
    } else if is_word(c, "lint") {
        CommandOutcome::Lint
    } else if is_word(c, "insertchar") || is_word(c, "c") {
        match insertchar_request(arg) {
            Ok(out) => CommandOutcome::Enqueue(Action::HandledByPane(PaneAction::Insert(out))),
            Err(bad) => {
                let m = message_with_debug("No character with name ", bad.as_slice(), "");
                proof {
                    reveal_strlit("");
                    assert(m@ =~= "No character with name "@ + debug_escaped(bad@));
                }
                CommandOutcome::Inform(m)
            },
        }
    } else if is_word(c, "open") {
        CommandOutcome::Open(string_of(arg))
    } else if is_word(c, "set") {
        set_command(arg)
    } else if is_word(c, "save") {
        if arg.len() == 0 {
            CommandOutcome::Enqueue(Action::Save)
        } else {
            CommandOutcome::SaveAs(string_of(arg))
        }
    } else {
        let mut m = String::new();
        push_str(&mut m, "Unknown command ");
        push_char(&mut m, '\'');
        let cmd = string_of(c);
        push_str(&mut m, cmd.as_str());
        push_char(&mut m, '\'');
        proof {
            assert(m@ =~= "Unknown command "@ + seq!['\''] + c@ + seq!['\'']);
        }
        CommandOutcome::Inform(m)
    }
}

/// The program, then its arguments, that runs a file of the given type.
pub open spec fn exec_program(ft: Seq<char>, path: Seq<char>) -> Option<Seq<Seq<char>>> {
    if ft == "bash"@ {
        Some(seq!["bash"@, path])
    } else if ft == "haskell"@ {
        Some(seq!["runhaskell"@, path])
    } else if ft == "python"@ {
        Some(seq!["uv"@, "run"@, path])
    } else if ft == "ruby"@ {
        Some(seq!["ruby"@, path])
    } else if ft == "rust"@ {
        Some(seq!["cargo"@, "run"@])
    } else {
        None
    }
}

/// The views of a list of strings.
pub open spec fn string_views(v: Seq<String>) -> Seq<Seq<char>> {
    Seq::new(v.len(), |i: int| v[i]@)
}

/// The words of a command line that runs the file at `path` of type
/// `filetype`, or why there is none.
pub fn exec_command_for(filetype: &str, path: &str) -> (r: Result<Vec<String>, String>)
    ensures
        match r {
            Ok(v) => exec_program(filetype@, path@) == Some(string_views(v@)),
            Err(m) => exec_program(filetype@, path@) is None
                && m@ == "exec error: no exec command for ft:"@ + filetype@,
        },
{
    let ft = chars_of(filetype);
    let ft = ft.as_slice();
    let mut v: Vec<String> = Vec::new();
    if is_word(ft, "bash") {
        v.push(to_owned_string("bash"));
        v.push(to_owned_string(path));
    } else if is_word(ft, "haskell") {
        v.push(to_owned_string("runhaskell"));
        v.push(to_owned_string(path));
    } else if is_word(ft, "python") {
        v.push(to_owned_string("uv"));
        v.push(to_owned_string("run"));
        v.push(to_owned_string(path));
    } else if is_word(ft, "ruby") {
        v.push(to_owned_string("ruby"));
        v.push(to_owned_string(path));
    } else if is_word(ft, "rust") {
        v.push(to_owned_string("cargo"));
        v.push(to_owned_string("run"));
    } else {
        let mut m = String::new();
        push_str(&mut m, "exec error: no exec command for ft:");
        push_str(&mut m, filetype);
        return Err(m);
    }
    proof {
        assert(string_views(v@) =~= exec_program(filetype@, path@)->0);
    }
    Ok(v)
}

} // verus!
