//! The settings of a pane: indentation, line endings and what saving does.
use crate::chars::{char_is_whitespace, is_whitespace};
use crate::numbers::{parse_usize, spec_parse};
use crate::strings::{chars_of, is_word, push_char, push_str, string_of, to_owned_string};
use crate::types::IndentKind;
use vstd::prelude::*;

verus! {

/// What happens to indentation when a newline is inserted.
#[derive(Debug, Clone, Copy, PartialEq, Eq, Structural)]
pub enum AutoIndent {
    /// Do not automatically insert any indentation
    Off,
    /// Keep the current indentation level when a newline is inserted
    Keep,
}

/// A line ending.
#[derive(Debug, Clone, Copy, PartialEq, Eq, Structural)]
pub enum LineEnding {
    Lf,
    CrLf,
    Cr,
}

/// How an indentation size is given in an editorconfig file.
#[derive(Debug, Clone, Copy, PartialEq, Eq, Structural)]
pub enum IndentSize {
    UseTabWidth,
    Value(usize),
}

/// The editorconfig properties that apply to a file, each if it is set.
#[derive(Debug, Clone, Copy, PartialEq, Eq, Structural)]
pub struct EditorConfigProperties {
    pub tab_width: Option<usize>,
    pub indent_style: Option<IndentKind>,
    pub indent_size: Option<IndentSize>,
    pub end_of_line: Option<LineEnding>,
    pub insert_final_newline: Option<bool>,
    pub trim_trailing_whitespace: Option<bool>,
}

/// The settings of a pane.
#[derive(Debug, Clone, Copy)]
pub struct PaneSettings {
    pub indent_kind: IndentKind,
    pub indent_size: usize,
    pub tab_width: usize,
    pub end_of_line: LineEnding,
    pub autoindent: AutoIndent,
    pub trim_trailing_whitespace: bool,
    pub normalize_end_of_line: bool,
    pub insert_final_newline: bool,
    pub debug_scopes: bool,
}

/// The chars of a line ending.
pub open spec fn line_ending_chars(e: LineEnding) -> Seq<char> {
    match e {
        LineEnding::Lf => seq!['\n'],
        LineEnding::CrLf => seq!['\r', '\n'],
        LineEnding::Cr => seq!['\r'],
    }
}

/// `n` copies of `c`.
pub open spec fn repeated(c: char, n: nat) -> Seq<char> {
    Seq::new(n, |_i: int| c)
}

/// One level of indentation: `size` spaces; or, with tabs, as many tabs of
/// `tab` columns as fit in `size` columns, then spaces for the rest.
pub open spec fn indent_string(kind: IndentKind, size: nat, tab: nat) -> Seq<char> {
    match kind {
        IndentKind::Spaces => repeated(' ', size),
        IndentKind::Tabs => if tab > 0 {
            repeated('\t', size / tab) + repeated(' ', size % tab)
        } else {
            repeated(' ', size)
        },
    }
}

/// The default settings.
pub open spec fn default_settings() -> PaneSettings {
    PaneSettings {
        tab_width: 4,
        indent_kind: IndentKind::Spaces,
        indent_size: 4,
        end_of_line: LineEnding::Lf,
        autoindent: AutoIndent::Keep,
        trim_trailing_whitespace: true,
        normalize_end_of_line: false,
        insert_final_newline: true,
        debug_scopes: false,
    }
}

/// The default settings with editorconfig properties applied.
pub open spec fn settings_from(p: EditorConfigProperties) -> PaneSettings {
    let d = default_settings();
    let tab_width = match p.tab_width {
        Some(n) => n,
        None => d.tab_width,
    };
    PaneSettings {
        tab_width,
        indent_kind: match p.indent_style {
            Some(k) => k,
            None => d.indent_kind,
        },
        indent_size: match p.indent_size {
            Some(IndentSize::UseTabWidth) => tab_width,
            Some(IndentSize::Value(n)) => n,
            None => d.indent_size,
        },
        end_of_line: match p.end_of_line {
            Some(e) => e,
            None => d.end_of_line,
        },
        normalize_end_of_line: p.end_of_line is Some,
        insert_final_newline: match p.insert_final_newline {
            Some(b) => b,
            None => d.insert_final_newline,
        },
        trim_trailing_whitespace: match p.trim_trailing_whitespace {
            Some(b) => b,
            None => d.trim_trailing_whitespace,
        },
        ..d
    }
}

/// `s` without whitespace at either end (as `str::trim`).
pub open spec fn trimmed(s: Seq<char>) -> Seq<char>
    decreases s.len(),
{
    if s.len() > 0 && is_whitespace(s[0]) {
        trimmed(s.drop_first())
    } else if s.len() > 0 && is_whitespace(s.last()) {
        trimmed(s.drop_last())
    } else {
        s
    }
}

/// What setting a value did.
#[derive(Debug)]
pub enum SetOutcome {
    /// The setting was changed.
    Applied,
    /// Nothing was changed; the message says why.
    Failed(String),
    /// The file type is to be set to this name.
    SetFiletype(String),
}

/// The trimmed chars of `s`.
pub(crate) fn trim_chars(s: &[char]) -> (r: Vec<char>)
    ensures
        r@ == trimmed(s@),
{
    let mut a: usize = 0;
    let mut b: usize = s.len();
    assert(s@.subrange(0, b as int) =~= s@);
    while a < b && char_is_whitespace(s[a])
        invariant
            a <= b == s@.len(),
            trimmed(s@) == trimmed(s@.subrange(a as int, b as int)),
        decreases b - a,
    {
        proof {
            assert(s@.subrange(a as int, b as int).drop_first() =~= s@.subrange(a + 1, b as int));
        }
        a = a + 1;
    }
    while a < b && char_is_whitespace(s[b - 1])
        invariant
            a <= b <= s@.len(),
            a < b ==> !is_whitespace(s@[a as int]),
            trimmed(s@) == trimmed(s@.subrange(a as int, b as int)),
        decreases b - a,
    {
        proof {
            let t = s@.subrange(a as int, b as int);
            assert(t[0] == s@[a as int]);
            assert(t.drop_last() =~= s@.subrange(a as int, b - 1));
        }
        b = b - 1;
    }
    proof {
        let t = s@.subrange(a as int, b as int);
        if a < b {
            assert(t[0] == s@[a as int]);
            assert(t.last() == s@[b - 1]);
        }
    }
    let mut r: Vec<char> = Vec::new();
    let mut k = a;
    while k < b
        invariant
            a <= k <= b <= s@.len(),
            r@ == s@.subrange(a as int, k as int),
        decreases b - k,
    {
        r.push(s[k]);
        proof {
            assert(r@ =~= s@.subrange(a as int, k + 1));
        }
        k = k + 1;
    }
    r
}

/// What a `SetOutcome` says, as plain values.
pub enum SetView {
    Applied,
    Failed(Seq<char>),
    SetFiletype(Seq<char>),
}

/// The outcome as plain values.
pub open spec fn outcome_view(o: SetOutcome) -> SetView {
    match o {
        SetOutcome::Applied => SetView::Applied,
        SetOutcome::Failed(m) => SetView::Failed(m@),
        SetOutcome::SetFiletype(f) => SetView::SetFiletype(f@),
    }
}

/// `on` and `off` as a boolean.
pub open spec fn on_off(v: Seq<char>) -> Option<bool> {
    if v == "on"@ {
        Some(true)
    } else if v == "off"@ {
        Some(false)
    } else {
        None
    }
}

/// Setting `key` to the trimmed `raw` value: the settings afterwards and
/// what happened. A file type is only named here; a value that is not one
/// of those listed in the message leaves the settings unchanged.
pub open spec fn set_spec(s: PaneSettings, key: Seq<char>, raw: Seq<char>) -> (PaneSettings, SetView) {
    let v = trimmed(raw);
    if key == "autoindent"@ {
        if v == "off"@ {
            (PaneSettings { autoindent: AutoIndent::Off, ..s }, SetView::Applied)
        } else if v == "keep"@ {
            (PaneSettings { autoindent: AutoIndent::Keep, ..s }, SetView::Applied)
        } else {
            (s, SetView::Failed("set error: autoindent must be one of: off, keep"@))
        }
    } else if key == "debug"@ {
        if v == "scopes"@ {
            (PaneSettings { debug_scopes: true, ..s }, SetView::Applied)
        } else if v == "off"@ {
            (PaneSettings { debug_scopes: false, ..s }, SetView::Applied)
        } else {
            (s, SetView::Failed("set error: debug must be one of: scopes, off"@))
        }
    } else if key == "eol"@ {
        if v == "lf"@ {
            (PaneSettings { end_of_line: LineEnding::Lf, ..s }, SetView::Applied)
        } else if v == "crlf"@ {
            (PaneSettings { end_of_line: LineEnding::CrLf, ..s }, SetView::Applied)
        } else if v == "cr"@ {
            (PaneSettings { end_of_line: LineEnding::Cr, ..s }, SetView::Applied)
        } else {
            (s, SetView::Failed("set error: eol must be one of: lf, crlf, cr"@))
        }
    } else if key == "ft"@ || key == "ftype"@ {
        (s, SetView::SetFiletype(v))
    } else if key == "indent_size"@ {
        match spec_parse(v, 10, usize::MAX as nat) {
            Some(n) => if n <= 32 {
                (PaneSettings { indent_size: n as usize, tab_width: n as usize, ..s }, SetView::Applied)
            } else {
                (s, SetView::Failed("set error: indent_size must be a number between 0 and 32"@))
            },
            None => (s, SetView::Failed("set error: indent_size must be a number between 0 and 32"@)),
        }
    } else if key == "indent_style"@ {
        if v == "spaces"@ {
            (PaneSettings { indent_kind: IndentKind::Spaces, ..s }, SetView::Applied)
        } else if v == "tabs"@ {
            (PaneSettings { indent_kind: IndentKind::Tabs, ..s }, SetView::Applied)
        } else {
            (s, SetView::Failed("set error: indent_style must be one of: spaces, tabs"@))
        }
    } else if key == "insert_final_newline"@ {
        match on_off(v) {
            Some(b) => (PaneSettings { insert_final_newline: b, ..s }, SetView::Applied),
            None => (s, SetView::Failed("set error: insert_final_newline must be one of: on, off"@)),
        }
    } else if key == "normalize_end_of_line"@ {
        match on_off(v) {
            Some(b) => (PaneSettings { normalize_end_of_line: b, ..s }, SetView::Applied),
            None => (s, SetView::Failed("set error: normalize_end_of_line must be one of: on, off"@)),
        }
    } else if key == "trim_trailing_whitespace"@ {
        match on_off(v) {
            Some(b) => (PaneSettings { trim_trailing_whitespace: b, ..s }, SetView::Applied),
            None => (s, SetView::Failed("set error: trim_trailing_whitespace must be one of: on, off"@)),
        }
    } else {
        (s, SetView::Failed("set error: "@ + seq!['\''] + key + seq!['\''] + " is not a valid setting"@))
    }
}

/// Setting `indent_size` succeeds exactly for a number from 0 to 32 (white
/// space around it aside). It then sets both the indent size and the tab
/// width to that number, and nothing else; a refusal changes nothing.
pub proof fn lemma_set_indent_size(s: PaneSettings, raw: Seq<char>)
    ensures
        ({
            let (r, outcome) = set_spec(s, "indent_size"@, raw);
            let n = spec_parse(trimmed(raw), 10, usize::MAX as nat);
            &&& (outcome is Applied <==> (n is Some && n->0 <= 32))
            &&& (outcome is Applied ==> {
                &&& n == Some(r.indent_size as nat)
                &&& r.tab_width == r.indent_size
                &&& r == (PaneSettings { indent_size: r.indent_size, tab_width: r.tab_width, ..s })
            })
            &&& (!(outcome is Applied) ==> r == s)
        }),
{
    reveal_strlit("indent_size");
    reveal_strlit("autoindent");
    reveal_strlit("debug");
    reveal_strlit("eol");
    reveal_strlit("ft");
    reveal_strlit("ftype");
    assert("indent_size"@[0] != "autoindent"@[0]);
    assert("indent_size"@ != "autoindent"@);
    assert("indent_size"@[0] != "debug"@[0]);
    assert("indent_size"@ != "debug"@);
    assert("indent_size"@ != "eol"@);
    assert("indent_size"@ != "ft"@);
    assert("indent_size"@ != "ftype"@);
}

/// `on` or `off` as a boolean.
fn on_off_word(v: &[char]) -> (r: Option<bool>)
    ensures
        r == on_off(v@),
{
    if is_word(v, "on") {
        Some(true)
    } else if is_word(v, "off") {
        Some(false)
    } else {
        None
    }
}

/// Another tab fits while it does not pass the indentation size.
proof fn lemma_one_more_tab(count: int, tab: int, width: int, size: int)
    requires
        width == count * tab,
        tab <= size - width,
        tab > 0,
        0 <= width <= size,
        count >= 0,
    ensures
        count + 1 <= size,
        (count + 1) * tab == width + tab,
{
    assert(count + 1 <= size) by (nonlinear_arith)
        requires
            width == count * tab,
            tab <= size - width,
            tab > 0,
            width <= size,
            count >= 0,
    ;
    assert((count + 1) * tab == count * tab + tab) by (nonlinear_arith);
}

/// Once no tab fits any more, the tabs are the quotient and the rest is the
/// remainder.
proof fn lemma_tabs_fit(count: int, tab: int, width: int, size: int)
    requires
        width == count * tab,
        0 <= width <= size,
        size < width + tab,
        tab > 0,
        count >= 0,
    ensures
        count == size / tab,
        size - width == size % tab,
{
    vstd::arithmetic::div_mod::lemma_fundamental_div_mod_converse(size, tab, count, size - width);
}

impl LineEnding {
    /// The line ending as a string.
    pub fn as_str(&self) -> (s: &'static str)
        ensures
            s@ == line_ending_chars(*self),
    {
        match self {
            LineEnding::Lf => {
                proof {
                    reveal_strlit("\n");
                }
                "\n"
            },
            LineEnding::CrLf => {
                proof {
                    reveal_strlit("\r\n");
                }
                "\r\n"
            },
            LineEnding::Cr => {
                proof {
                    reveal_strlit("\r");
                }
                "\r"
            },
        }
    }
}

impl Default for PaneSettings {
    fn default() -> (s: Self)
        ensures
            s == default_settings(),
    {
        PaneSettings {
            tab_width: 4,
            indent_kind: IndentKind::Spaces,
            indent_size: 4,
            end_of_line: LineEnding::Lf,
            autoindent: AutoIndent::Keep,
            trim_trailing_whitespace: true,
            normalize_end_of_line: false,
            insert_final_newline: true,
            debug_scopes: false,
        }
    }
}

impl PaneSettings {
    /// One level of indentation as a string: see `indent_string`.
    pub fn indent_as_string(&self) -> (s: String)
        ensures
            s@ == indent_string(self.indent_kind, self.indent_size as nat, self.tab_width as nat),
    {
        let size = self.indent_size;
        let tab = self.tab_width;
        match self.indent_kind {
            IndentKind::Spaces => {
                let mut s = String::new();
                let mut i: usize = 0;
                while i < size
                    invariant
                        i <= size,
                        s@ == repeated(' ', i as nat),
                    decreases size - i,
                {
                    push_char(&mut s, ' ');
                    proof {
                        assert(s@ =~= repeated(' ', (i + 1) as nat));
                    }
                    i = i + 1;
                }
                s
            },
            IndentKind::Tabs => {
                let mut width: usize = 0;
                let mut count: usize = 0;
                let mut indent = String::new();
                if tab > 0 {
                    while tab <= size - width
                        invariant
                            tab > 0,
                            width <= size,
                            width == count * tab,
                            indent@ == repeated('\t', count as nat),
                        decreases size - width,
                    {
                        push_char(&mut indent, '\t');
                        proof {
                            lemma_one_more_tab(count as int, tab as int, width as int, size as int);
                            assert(indent@ =~= repeated('\t', (count + 1) as nat));
                        }
                        width = width + tab;
                        count = count + 1;
                    }
                    proof {
                        lemma_tabs_fit(count as int, tab as int, width as int, size as int);
                    }
                }
                let ghost tabs = indent@;
                let mut i: usize = 0;
                while i < size - width
                    invariant
                        width <= size,
                        i <= size - width,
                        indent@ == tabs + repeated(' ', i as nat),
                    decreases size - width - i,
                {
                    push_char(&mut indent, ' ');
                    proof {
                        assert(indent@ =~= tabs + repeated(' ', (i + 1) as nat));
                    }
                    i = i + 1;
                }
                proof {
                    if tab == 0 {
                        assert(tabs =~= Seq::<char>::empty());
                        assert(indent@ =~= repeated(' ', size as nat));
                    }
                }
                indent
            },
        }
    }

    /// The default settings with the editorconfig properties of a file
    /// applied: see `settings_from`.
    pub fn from_properties(p: EditorConfigProperties) -> (s: Self)
        ensures
            s == settings_from(p),
    {
        let mut settings = PaneSettings::default();
        if let Some(n) = p.tab_width {
            settings.tab_width = n;
        }
        if let Some(k) = p.indent_style {
            settings.indent_kind = k;
        }
        if let Some(size) = p.indent_size {
            settings.indent_size = match size {
                IndentSize::UseTabWidth => settings.tab_width,
                IndentSize::Value(n) => n,
            };
        }
        if let Some(e) = p.end_of_line {
            settings.end_of_line = e;
            settings.normalize_end_of_line = true;
        }
        if let Some(b) = p.insert_final_newline {
            settings.insert_final_newline = b;
        }
        if let Some(b) = p.trim_trailing_whitespace {
            settings.trim_trailing_whitespace = b;
        }
        settings
    }

    /// Changes setting `setting` to the trimmed `new_value`: see `set_spec`.
    pub fn set(&mut self, setting: &str, new_value: &str) -> (r: SetOutcome)
        ensures
            (*final(self), outcome_view(r)) == set_spec(*old(self), setting@, new_value@),
    {
        let key = chars_of(setting);
        let raw = chars_of(new_value);
        let v = trim_chars(raw.as_slice());
        let k = key.as_slice();
        let vs = v.as_slice();
        if is_word(k, "autoindent") {
            if is_word(vs, "off") {
                self.autoindent = AutoIndent::Off;
                SetOutcome::Applied
            } else if is_word(vs, "keep") {
                self.autoindent = AutoIndent::Keep;
                SetOutcome::Applied
            } else {
                SetOutcome::Failed(to_owned_string("set error: autoindent must be one of: off, keep"))
            }
        } else if is_word(k, "debug") {
            if is_word(vs, "scopes") {
                self.debug_scopes = true;
                SetOutcome::Applied
            } else if is_word(vs, "off") {
                self.debug_scopes = false;
                SetOutcome::Applied
            } else {
                SetOutcome::Failed(to_owned_string("set error: debug must be one of: scopes, off"))
            }
        } else if is_word(k, "eol") {
            if is_word(vs, "lf") {
                self.end_of_line = LineEnding::Lf;
                SetOutcome::Applied
            } else if is_word(vs, "crlf") {
                self.end_of_line = LineEnding::CrLf;
                SetOutcome::Applied
            } else if is_word(vs, "cr") {
                self.end_of_line = LineEnding::Cr;
                SetOutcome::Applied
            } else {
                SetOutcome::Failed(to_owned_string("set error: eol must be one of: lf, crlf, cr"))
            }
        } else if is_word(k, "ft") || is_word(k, "ftype") {
            SetOutcome::SetFiletype(string_of(vs))
        } else if is_word(k, "indent_size") {
            match parse_usize(vs) {
                Some(n) => if n <= 32 {
                    self.indent_size = n;
                    self.tab_width = n;
                    SetOutcome::Applied
                } else {
                    SetOutcome::Failed(to_owned_string("set error: indent_size must be a number between 0 and 32"))
                },
                None => SetOutcome::Failed(to_owned_string("set error: indent_size must be a number between 0 and 32")),
            }
        } else if is_word(k, "indent_style") {
            if is_word(vs, "spaces") {
                self.indent_kind = IndentKind::Spaces;
                SetOutcome::Applied
            } else if is_word(vs, "tabs") {
                self.indent_kind = IndentKind::Tabs;
                SetOutcome::Applied
            } else {
                SetOutcome::Failed(to_owned_string("set error: indent_style must be one of: spaces, tabs"))
            }
        } else if is_word(k, "insert_final_newline") {
            match on_off_word(vs) {
                Some(b) => {
                    self.insert_final_newline = b;
                    SetOutcome::Applied
                },
                None => SetOutcome::Failed(to_owned_string("set error: insert_final_newline must be one of: on, off")),
            }
        } else if is_word(k, "normalize_end_of_line") {
            match on_off_word(vs) {
                Some(b) => {
                    self.normalize_end_of_line = b;
                    SetOutcome::Applied
                },
                None => SetOutcome::Failed(to_owned_string("set error: normalize_end_of_line must be one of: on, off")),
            }
        } else if is_word(k, "trim_trailing_whitespace") {
            match on_off_word(vs) {
                Some(b) => {
                    self.trim_trailing_whitespace = b;
                    SetOutcome::Applied
                },
                None => SetOutcome::Failed(to_owned_string("set error: trim_trailing_whitespace must be one of: on, off")),
            }
        } else {
            let mut msg = to_owned_string("set error: ");
            push_char(&mut msg, '\'');
            push_str(&mut msg, setting);
            push_char(&mut msg, '\'');
            push_str(&mut msg, " is not a valid setting");
            assert(msg@ =~= "set error: "@ + seq!['\''] + setting@ + seq!['\''] + " is not a valid setting"@);
            SetOutcome::Failed(msg)
        }
    }


}

} // verus!
