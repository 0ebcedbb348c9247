//! Lints reported by an external linter, one per line of its output, in the
//! form `FILENAME:LINE:COLUMN:SEVERITY:MESSAGE`.
use crate::numbers::{parse_usize, spec_parse};
use crate::commands::{char_views, pieces, split_on};
use crate::quoting::{debug_escaped, debug_string};
use crate::strings::{chars_of, push_str, string_of};
use crate::types::MoveTarget;
use vstd::prelude::*;

verus! {

/// How serious a lint is.
#[derive(Debug, Clone, Copy, PartialEq, Eq, Structural)]
pub enum Severity {
    Info,
    Warning,
    Error,
}

/// Why linting failed.
#[derive(Debug)]
pub enum LinterError {
    FilenameRequired,
    JanetNotInstalled,
    LinterScriptIOError,
    BadLinterScript(String),
    Other(String),
}

/// A lint: a message about a line (and maybe a column) of a file.
#[derive(Debug)]
pub struct Lint {
    pub message: String,
    filename: String,
    line: usize,
    column: Option<usize>,
    level: Severity,
}

/// The first `:` at or after `p`.
pub open spec fn next_colon(cs: Seq<char>, p: int) -> Option<int>
    decreases cs.len() - p,
{
    if p < 0 || p >= cs.len() {
        None
    } else if cs[p] == ':' {
        Some(p)
    } else {
        next_colon(cs, p + 1)
    }
}

/// Every char from `a` to before `b` is an ASCII digit.
pub open spec fn digits_between(cs: Seq<char>, a: int, b: int) -> bool {
    forall|k: int| a <= k < b ==> '0' <= #[trigger] cs[k] <= '9'
}

/// The colour, as red, green and blue, that marks a lint of severity `level`.
pub open spec fn severity_color(level: Severity) -> (u8, u8, u8) {
    match level {
        Severity::Info => (0xDD, 0xCC, 0x88),
        Severity::Warning => (0xFF, 0xAF, 0),
        Severity::Error => (0xDB, 0, 0),
    }
}

/// The word that names a severity.
pub open spec fn severity_name(level: Severity) -> Seq<char> {
    match level {
        Severity::Info => seq!['i', 'n', 'f', 'o'],
        Severity::Warning => seq!['w', 'a', 'r', 'n', 'i', 'n', 'g'],
        Severity::Error => seq!['e', 'r', 'r', 'o', 'r'],
    }
}

/// The severity that a word names.
pub open spec fn severity_of(w: Seq<char>) -> Option<Severity> {
    if w == seq!['i', 'n', 'f', 'o'] {
        Some(Severity::Info)
    } else if w == seq!['w', 'a', 'r', 'n', 'i', 'n', 'g'] {
        Some(Severity::Warning)
    } else if w == seq!['e', 'r', 'r', 'o', 'r'] {
        Some(Severity::Error)
    } else {
        None
    }
}

/// The positions of the four colons of a lint that starts at `i`: a
/// non-empty file name, a non-empty run of digits, a possibly empty run of
/// digits, and a severity, each followed by a colon.
pub open spec fn lint_colons(cs: Seq<char>, i: int) -> Option<(int, int, int, int)> {
    match next_colon(cs, i) {
        Some(c1) => match next_colon(cs, c1 + 1) {
            Some(c2) => match next_colon(cs, c2 + 1) {
                Some(c3) => match next_colon(cs, c3 + 1) {
                    Some(c4) => if c1 > i && c2 > c1 + 1 && digits_between(cs, c1 + 1, c2)
                        && digits_between(cs, c2 + 1, c3) && severity_of(cs.subrange(c3 + 1, c4)) is Some {
                        Some((c1, c2, c3, c4))
                    } else {
                        None
                    },
                    None => None,
                },
                None => None,
            },
            None => None,
        },
        None => None,
    }
}

/// The first position from `i` on where a lint starts.
pub open spec fn first_lint_start(cs: Seq<char>, i: int) -> Option<int>
    decreases cs.len() + 1 - i,
{
    if i < 0 || i > cs.len() {
        None
    } else if lint_colons(cs, i) is Some {
        Some(i)
    } else {
        first_lint_start(cs, i + 1)
    }
}

/// The lint that a line of linter output reports, if any: the fields of the
/// first place in the line where they all match; no lint when the line
/// number is zero or too large. A column that is empty, zero or too large is
/// left out.
pub open spec fn spec_parse_lint(cs: Seq<char>) -> Option<(Seq<char>, nat, Option<nat>, Severity, Seq<char>)> {
    match first_lint_start(cs, 0) {
        Some(i) => {
            let (c1, c2, c3, c4) = lint_colons(cs, i)->0;
            let line = spec_parse(cs.subrange(c1 + 1, c2), 10, usize::MAX as nat);
            let column = spec_parse(cs.subrange(c2 + 1, c3), 10, usize::MAX as nat);
            match line {
                Some(l) => if l == 0 {
                    None
                } else {
                    Some((
                        cs.subrange(i, c1),
                        l,
                        match column {
                            Some(c) => if c == 0 {
                                None
                            } else {
                                Some(c)
                            },
                            None => None,
                        },
                        severity_of(cs.subrange(c3 + 1, c4))->0,
                        cs.subrange(c4 + 1, cs.len() as int),
                    ))
                },
                None => None,
            }
        },
        None => None,
    }
}

/// The first `:` at or after `p`.
fn find_colon(cs: &Vec<char>, p: usize) -> (r: Option<usize>)
    ensures
        r matches Some(c) ==> next_colon(cs@, p as int) == Some(c as int) && p <= c < cs@.len(),
        r is None ==> next_colon(cs@, p as int) is None,
{
    let mut k = p;
    while k < cs.len()
        invariant
            p <= k,
            next_colon(cs@, p as int) == next_colon(cs@, k as int),
        decreases cs@.len() - k,
    {
        if cs[k] == ':' {
            return Some(k);
        }
        k = k + 1;
    }
    None
}

/// Whether the chars from `a` to before `b` are ASCII digits.
fn all_ascii_digits(cs: &Vec<char>, a: usize, b: usize) -> (r: bool)
    requires
        a <= b <= cs@.len(),
    ensures
        r == digits_between(cs@, a as int, b as int),
{
    let mut k = a;
    while k < b
        invariant
            a <= k <= b <= cs@.len(),
            digits_between(cs@, a as int, k as int),
        decreases b - k,
    {
        if !('0' <= cs[k] && cs[k] <= '9') {
            return false;
        }
        k = k + 1;
    }
    true
}

/// The severity that the chars from `a` to before `b` name.
fn severity_between(cs: &Vec<char>, a: usize, b: usize) -> (r: Option<Severity>)
    requires
        a <= b <= cs@.len(),
    ensures
        r == severity_of(cs@.subrange(a as int, b as int)),
{
    let ghost w = cs@.subrange(a as int, b as int);
    let n = b - a;
    assert(forall|k: int| 0 <= k < n ==> w[k] == cs@[a + k]);
    if n == 4 && cs[a] == 'i' && cs[a + 1] == 'n' && cs[a + 2] == 'f' && cs[a + 3] == 'o' {
        assert(w =~= seq!['i', 'n', 'f', 'o']);
        Some(Severity::Info)
    } else if n == 7 && cs[a] == 'w' && cs[a + 1] == 'a' && cs[a + 2] == 'r' && cs[a + 3] == 'n'
        && cs[a + 4] == 'i' && cs[a + 5] == 'n' && cs[a + 6] == 'g' {
        assert(w =~= seq!['w', 'a', 'r', 'n', 'i', 'n', 'g']);
        assert(w.len() != seq!['i', 'n', 'f', 'o'].len());
        Some(Severity::Warning)
    } else if n == 5 && cs[a] == 'e' && cs[a + 1] == 'r' && cs[a + 2] == 'r' && cs[a + 3] == 'o'
        && cs[a + 4] == 'r' {
        assert(w =~= seq!['e', 'r', 'r', 'o', 'r']);
        assert(w.len() != seq!['i', 'n', 'f', 'o'].len());
        assert(w.len() != seq!['w', 'a', 'r', 'n', 'i', 'n', 'g'].len());
        Some(Severity::Error)
    } else {
        proof {
            if w == seq!['i', 'n', 'f', 'o'] {
                assert(w.len() == 4);
                assert(w[0] == 'i' && w[1] == 'n' && w[2] == 'f' && w[3] == 'o');
            }
            if w == seq!['w', 'a', 'r', 'n', 'i', 'n', 'g'] {
                assert(w.len() == 7);
                assert(w[0] == 'w' && w[1] == 'a' && w[2] == 'r' && w[3] == 'n' && w[4] == 'i' && w[5] == 'n' && w[6] == 'g');
            }
            if w == seq!['e', 'r', 'r', 'o', 'r'] {
                assert(w.len() == 5);
                assert(w[0] == 'e' && w[1] == 'r' && w[2] == 'r' && w[3] == 'o' && w[4] == 'r');
            }
        }
        None
    }
}

/// The colons of a lint that starts at `i`.
fn colons_at(cs: &Vec<char>, i: usize) -> (r: Option<(usize, usize, usize, usize)>)
    ensures
        r matches Some(t) ==> lint_colons(cs@, i as int) == Some((t.0 as int, t.1 as int, t.2 as int, t.3 as int))
            && i < t.0 < t.1 < t.2 < t.3 < cs@.len(),
        r is None ==> lint_colons(cs@, i as int) is None,
{
    let _n = cs.len();
    let c1 = match find_colon(cs, i) {
        Some(c) => c,
        None => return None,
    };
    let c2 = match find_colon(cs, c1 + 1) {
        Some(c) => c,
        None => return None,
    };
    let c3 = match find_colon(cs, c2 + 1) {
        Some(c) => c,
        None => return None,
    };
    let c4 = match find_colon(cs, c3 + 1) {
        Some(c) => c,
        None => return None,
    };
    if c1 > i && c2 > c1 + 1 && all_ascii_digits(cs, c1 + 1, c2) && all_ascii_digits(cs, c2 + 1, c3)
        && severity_between(cs, c3 + 1, c4).is_some() {
        Some((c1, c2, c3, c4))
    } else {
        None
    }
}

/// A lint line put together from its parts: whatever comes before the file
/// name, the file name, the line and column as written, the severity's name
/// and the message, with a colon after each of the middle four.
pub open spec fn lint_line(
    pre: Seq<char>,
    file: Seq<char>,
    line: Seq<char>,
    column: Seq<char>,
    level: Severity,
    message: Seq<char>,
) -> Seq<char> {
    pre + file + seq![':'] + line + seq![':'] + column + seq![':'] + severity_name(level) + seq![':'] + message
}

/// `next_colon` finds a colon, at or after where it starts, with none
/// before it from there.
proof fn lemma_next_colon(cs: Seq<char>, p: int)
    requires
        next_colon(cs, p) is Some,
    ensures
        p <= next_colon(cs, p)->0 < cs.len(),
        cs[next_colon(cs, p)->0] == ':',
        forall|k: int| p <= k < next_colon(cs, p)->0 ==> cs[k] != ':',
    decreases cs.len() - p,
{
    if cs[p] != ':' {
        lemma_next_colon(cs, p + 1);
    }
}

/// The word of a severity names it.
proof fn lemma_severity_word(w: Seq<char>)
    requires
        severity_of(w) is Some,
    ensures
        w == severity_name(severity_of(w)->0),
{
}

/// A line that reads as a lint is that lint written out: some text, the
/// file name, the line number as written, the column as written (possibly
/// empty), the severity's name and the message, separated by colons. The
/// file name holds no colon; the line and column are digits, and they are
/// the numbers that the lint holds; the message is all that follows the
/// colon after the severity.
pub proof fn lemma_parsed_lint_written_out(cs: Seq<char>)
    requires
        spec_parse_lint(cs) is Some,
    ensures
        ({
            let (file, l, column, level, message) = spec_parse_lint(cs)->0;
            exists|pre: Seq<char>, dl: Seq<char>, dc: Seq<char>|
                #[trigger] lint_line(pre, file, dl, dc, level, message) == cs
                    && !file.contains(':')
                    && dl.len() > 0
                    && (forall|k: int| 0 <= k < dl.len() ==> '0' <= #[trigger] dl[k] <= '9')
                    && (forall|k: int| 0 <= k < dc.len() ==> '0' <= #[trigger] dc[k] <= '9')
                    && spec_parse(dl, 10, usize::MAX as nat) == Some(l)
                    && (column matches Some(c) ==> spec_parse(dc, 10, usize::MAX as nat) == Some(c))
        }),
{
    let i = first_lint_start(cs, 0)->0;
    lemma_first_lint_start(cs, 0);
    let (c1, c2, c3, c4) = lint_colons(cs, i)->0;
    lemma_next_colon(cs, i);
    lemma_next_colon(cs, c1 + 1);
    lemma_next_colon(cs, c2 + 1);
    lemma_next_colon(cs, c3 + 1);
    lemma_severity_word(cs.subrange(c3 + 1, c4));
    let (file, l, column, level, message) = spec_parse_lint(cs)->0;
    let pre = cs.subrange(0, i);
    let dl = cs.subrange(c1 + 1, c2);
    let dc = cs.subrange(c2 + 1, c3);
    assert(lint_line(pre, file, dl, dc, level, message) =~= cs);
    assert forall|k: int| 0 <= k < dl.len() implies '0' <= #[trigger] dl[k] <= '9' by {
        assert(dl[k] == cs[c1 + 1 + k]);
    }
    assert forall|k: int| 0 <= k < dc.len() implies '0' <= #[trigger] dc[k] <= '9' by {
        assert(dc[k] == cs[c2 + 1 + k]);
    }
    assert(!file.contains(':')) by {
        if file.contains(':') {
            let k = choose|k: int| 0 <= k < file.len() && file[k] == ':';
            assert(cs[i + k] == ':');
        }
    }
}

/// `first_lint_start` finds where the colons of a lint are.
proof fn lemma_first_lint_start(cs: Seq<char>, i: int)
    requires
        first_lint_start(cs, i) is Some,
    ensures
        lint_colons(cs, first_lint_start(cs, i)->0) is Some,
        first_lint_start(cs, i)->0 >= 0,
    decreases cs.len() + 1 - i,
{
    if !(i < 0 || i > cs.len()) && lint_colons(cs, i) is None {
        lemma_first_lint_start(cs, i + 1);
    }
}

impl Severity {
    /// The name of the severity, as the linter writes it.
    pub fn name(&self) -> (s: &'static str)
        ensures
            s@ == severity_name(*self),
            severity_of(s@) == Some(*self),
    {
        match self {
            Severity::Info => {
                proof {
                    reveal_strlit("info");
                    assert("info"@ =~= severity_name(Severity::Info));
                }
                "info"
            },
            Severity::Warning => {
                proof {
                    reveal_strlit("warning");
                    assert("warning"@ =~= severity_name(Severity::Warning));
                }
                "warning"
            },
            Severity::Error => {
                proof {
                    reveal_strlit("error");
                    assert("error"@ =~= severity_name(Severity::Error));
                }
                "error"
            },
        }
    }
}

impl Lint {
    /// The file name, the one-based line, the one-based column if given,
    /// the severity and the message.
    pub closed spec fn spec_fields(&self) -> (Seq<char>, nat, Option<nat>, Severity, Seq<char>) {
        (
            self.filename@,
            self.line as nat,
            match self.column {
                Some(c) => Some(c as nat),
                None => None,
            },
            self.level,
            self.message@,
        )
    }

    /// One-based line number where this lint is located.
    pub fn lineno(&self) -> (n: usize)
        ensures
            n == self.spec_fields().1,
    {
        self.line
    }

    /// Where to move a cursor to see the lint: its line and column, or the
    /// first column.
    pub fn location(&self) -> (t: Option<MoveTarget>)
        ensures
            t == Some(
                MoveTarget::Location(
                    self.spec_fields().1 as usize,
                    match self.spec_fields().2 {
                        Some(c) => c as usize,
                        None => 1usize,
                    },
                ),
            ),
    {
        let col = match self.column {
            Some(c) => c,
            None => 1,
        };
        Some(MoveTarget::Location(self.line, col))
    }

    pub fn is_error(&self) -> (r: bool)
        ensures
            r == (self.spec_fields().3 == Severity::Error),
    {
        match self.level {
            Severity::Error => true,
            _ => false,
        }
    }

    /// How serious the lint is.
    pub fn severity(&self) -> (s: Severity)
        ensures
            s == self.spec_fields().3,
    {
        self.level
    }

    /// The colour, as red, green and blue, in which the lint's line is marked:
    /// a pale yellow for information, orange for a warning, red for an error.
    pub fn color(&self) -> (rgb: (u8, u8, u8))
        ensures
            rgb == severity_color(self.spec_fields().3),
    {
        match self.level {
            Severity::Info => (0xDD, 0xCC, 0x88),
            Severity::Warning => (0xFF, 0xAF, 0),
            Severity::Error => (0xDB, 0, 0),
        }
    }

    /// The file that the lint is about.
    pub fn filename(&self) -> (s: &str)
        ensures
            s@ == self.spec_fields().0,
    {
        self.filename.as_str()
    }

    /// Reads a lint from one line of linter output: see `spec_parse_lint`.
    pub fn parse(line: &str) -> (r: Option<Lint>)
        ensures
            r matches Some(l) ==> spec_parse_lint(line@) == Some(l.spec_fields()),
            r is None ==> spec_parse_lint(line@) is None,
    {
        let cs = chars_of(line);
        let n = cs.len();
        let mut i: usize = 0;
        let mut found: Option<(usize, (usize, usize, usize, usize))> = None;
        while i < n
            invariant_except_break
                found is None,
            invariant
                n == cs@.len(),
                cs@ == line@,
                i <= n,
                first_lint_start(cs@, 0) == first_lint_start(cs@, i as int),
            ensures
                found matches Some(f) ==> first_lint_start(cs@, 0) == Some(f.0 as int) && lint_colons(cs@, f.0 as int) == Some((f.1.0 as int, f.1.1 as int, f.1.2 as int, f.1.3 as int)) && f.0 < f.1.0 < f.1.1 < f.1.2 < f.1.3 < n,
                found is None ==> i == n,
            decreases n - i,
        {
            match colons_at(&cs, i) {
                Some(t) => {
                    found = Some((i, t));
                    break;
                },
                None => {},
            }
            i = i + 1;
        }
        proof {
            if found is None {
                assert(next_colon(cs@, n as int) is None);
                assert(lint_colons(cs@, n as int) is None);
                assert(first_lint_start(cs@, n + 1) is None);
                assert(first_lint_start(cs@, n as int) is None);
            }
        }
        match found {
            None => None,
            Some((start, (c1, c2, c3, c4))) => {
                let line_no = match parse_usize(&cs.as_slice()[c1 + 1..c2]) {
                    Some(v) => v,
                    None => return None,
                };
                if line_no == 0 {
                    return None;
                }
                let column = match parse_usize(&cs.as_slice()[c2 + 1..c3]) {
                    Some(c) => if c == 0 {
                        None
                    } else {
                        Some(c)
                    },
                    None => None,
                };
                let level = match severity_between(&cs, c3 + 1, c4) {
                    Some(l) => l,
                    None => return None,
                };
                let filename = string_of(&cs.as_slice()[start..c1]);
                let message = string_of(&cs.as_slice()[c4 + 1..n]);
                Some(Lint { message, filename, line: line_no, column, level })
            },
        }
    }
}

impl LinterError {
    /// The message for the error, as the editor writes it.
    pub fn message(&self) -> (m: String)
        ensures
            m@ == match self {
                LinterError::FilenameRequired => "linter error: filename required"@,
                LinterError::JanetNotInstalled => "linter error: janet not found in $PATH"@,
                LinterError::LinterScriptIOError => "linter error: failed to read linters.janet"@,
                LinterError::BadLinterScript(msg) => "linters.janet error: "@ + msg@,
                LinterError::Other(msg) => "linter error: "@ + msg@,
            },
    {
        let mut m = String::new();
        match self {
            LinterError::FilenameRequired => push_str(&mut m, "linter error: filename required"),
            LinterError::JanetNotInstalled => push_str(&mut m, "linter error: janet not found in $PATH"),
            LinterError::LinterScriptIOError => push_str(&mut m, "linter error: failed to read linters.janet"),
            LinterError::BadLinterScript(msg) => {
                push_str(&mut m, "linters.janet error: ");
                push_str(&mut m, msg.as_str());
            },
            LinterError::Other(msg) => {
                push_str(&mut m, "linter error: ");
                push_str(&mut m, msg.as_str());
            },
        }
        proof {
            assert(m@ =~= match self {
                LinterError::FilenameRequired => "linter error: filename required"@,
                LinterError::JanetNotInstalled => "linter error: janet not found in $PATH"@,
                LinterError::LinterScriptIOError => "linter error: failed to read linters.janet"@,
                LinterError::BadLinterScript(msg) => "linters.janet error: "@ + msg@,
                LinterError::Other(msg) => "linter error: "@ + msg@,
            });
        }
        m
    }

    /// What the editor shows when linting fails: `linter error: ` and the
    /// `Debug` form of the error.
    pub fn report(&self) -> (m: String)
        ensures
            m@ == "linter error: "@ + match self {
                LinterError::FilenameRequired => "FilenameRequired"@,
                LinterError::JanetNotInstalled => "JanetNotInstalled"@,
                LinterError::LinterScriptIOError => "LinterScriptIOError"@,
                LinterError::BadLinterScript(msg) => "BadLinterScript("@ + debug_escaped(msg@) + ")"@,
                LinterError::Other(msg) => "Other("@ + debug_escaped(msg@) + ")"@,
            },
    {
        let mut m = String::new();
        push_str(&mut m, "linter error: ");
        match self {
            LinterError::FilenameRequired => push_str(&mut m, "FilenameRequired"),
            LinterError::JanetNotInstalled => push_str(&mut m, "JanetNotInstalled"),
            LinterError::LinterScriptIOError => push_str(&mut m, "LinterScriptIOError"),
            LinterError::BadLinterScript(msg) => {
                push_str(&mut m, "BadLinterScript(");
                let d = debug_string(msg.as_str());
                push_str(&mut m, d.as_str());
                push_str(&mut m, ")");
            },
            LinterError::Other(msg) => {
                push_str(&mut m, "Other(");
                let d = debug_string(msg.as_str());
                push_str(&mut m, d.as_str());
                push_str(&mut m, ")");
            },
        }
        proof {
            assert(m@ =~= "linter error: "@ + match self {
                LinterError::FilenameRequired => "FilenameRequired"@,
                LinterError::JanetNotInstalled => "JanetNotInstalled"@,
                LinterError::LinterScriptIOError => "LinterScriptIOError"@,
                LinterError::BadLinterScript(msg) => "BadLinterScript("@ + debug_escaped(msg@) + ")"@,
                LinterError::Other(msg) => "Other("@ + debug_escaped(msg@) + ")"@,
            });
        }
        m
    }
}

/// The lines of `s` as `str::lines` gives them: split at each line feed,
/// with a carriage return right before it dropped, and no empty line after
/// a final line feed.
pub open spec fn text_lines(s: Seq<char>) -> Seq<Seq<char>> {
    let ps = pieces(s, '\n');
    let ended = ps.drop_last().map_values(
        |p: Seq<char>|
            if p.len() > 0 && p.last() == '\r' {
                p.drop_last()
            } else {
                p
            },
    );
    if ps.last().len() == 0 {
        ended
    } else {
        ended.push(ps.last())
    }
}

/// The lints that the first `n` lines report, in order.
pub open spec fn parsed_lints(lines: Seq<Seq<char>>, n: int) -> Seq<(Seq<char>, nat, Option<nat>, Severity, Seq<char>)>
    decreases n,
{
    if n <= 0 {
        seq![]
    } else {
        let before = parsed_lints(lines, n - 1);
        match spec_parse_lint(lines[n - 1]) {
            Some(l) => before.push(l),
            None => before,
        }
    }
}

/// The fields of lints.
pub open spec fn lint_fields(ls: Seq<Lint>) -> Seq<(Seq<char>, nat, Option<nat>, Severity, Seq<char>)> {
    Seq::new(ls.len(), |i: int| ls[i].spec_fields())
}

/// A line that ended with a line feed, without a carriage return before it.
pub(crate) fn ended_line(p: &[char]) -> (r: String)
    ensures
        r@ == if p@.len() > 0 && p@.last() == '\r' {
            p@.drop_last()
        } else {
            p@
        },
{
    if p.len() > 0 && p[p.len() - 1] == '\r' {
        let v = crate::charseq::sub_vec(p, 0, p.len() - 1);
        proof {
            assert(v@ =~= p@.drop_last());
        }
        string_of(v.as_slice())
    } else {
        string_of(p)
    }
}

/// The lints that the output of a linter reports, one per line, in order;
/// lines that report none are skipped.
pub fn parse_linter_output(output: &str) -> (r: Vec<Lint>)
    ensures
        lint_fields(r@) == parsed_lints(text_lines(output@), text_lines(output@).len() as int),
{
    let cs = chars_of(output);
    let ps = split_on(cs.as_slice(), '\n');
    let ghost all = pieces(output@, '\n');
    let ghost lines = text_lines(output@);
    proof {
        crate::commands::lemma_pieces_nonempty(output@, '\n');
    }
    let n = ps.len();
    let mut out: Vec<Lint> = Vec::new();
    let mut i: usize = 0;
    while i < n
        invariant
            char_views(ps@) == all,
            all == pieces(output@, '\n'),
            lines == text_lines(output@),
            n == all.len(),
            n >= 1,
            i <= n,
            i < n ==> lint_fields(out@) == parsed_lints(lines, i as int),
            i == n ==> lint_fields(out@) == parsed_lints(lines, lines.len() as int),
        decreases n - i,
    {
        let p = ps[i].as_slice();
        proof {
            assert(p@ == all[i as int]);
        }
        if i + 1 == n && p.len() == 0 {
            proof {
                assert(lines.len() == n - 1);
            }
            i = i + 1;
            continue;
        }
        let line = if i + 1 < n {
            ended_line(p)
        } else {
            string_of(p)
        };
        proof {
            assert(lines[i as int] == line@);
        }
        let ghost before = out@;
        match Lint::parse(line.as_str()) {
            Some(l) => {
                out.push(l);
                proof {
                    assert(lint_fields(out@) =~= lint_fields(before).push(l.spec_fields()));
                }
            },
            None => {},
        }
        i = i + 1;
        proof {
            if i == n {
                assert(lines.len() == n);
            }
        }
    }
    out
}

} // verus!
