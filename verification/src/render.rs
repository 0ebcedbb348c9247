//! How a pane is laid out on the screen: what each grapheme cluster of a
//! line shows as and in which style, which part of a long line is visible,
//! the line numbers and the status line. Drawing it is left to the caller.
use crate::chars::{char_is_control, is_control};
use crate::cursor::{spec_selection, Cursor};
use crate::grapheme::{display_width, str_width};
use crate::numbers::{decimal, digit_char, push_decimal};
use crate::strings::{chars_of, push_char, push_str};
use vstd::prelude::*;

verus! {

/// The glyph that stands for a line break, if `g` is one.
pub open spec fn line_break_glyph(g: Seq<char>) -> Option<Seq<char>> {
    if g == seq!['\n'] {
        Some("\u{23ce}"@)
    } else if g == seq!['\r'] {
        Some("\u{240d}"@)
    } else if g == seq!['\r', '\n'] {
        Some("\u{240d}\u{240a}"@)
    } else if g == seq!['\u{000B}'] {
        Some("\u{240b}"@)
    } else if g == seq!['\u{000C}'] {
        Some("\u{240c}"@)
    } else if g == seq!['\u{0085}'] {
        Some("\u{2424}"@)
    } else if g == seq!['\u{2028}'] {
        Some("<U+2028>"@)
    } else if g == seq!['\u{2029}'] {
        Some("<U+2029>"@)
    } else {
        None
    }
}

/// The glyph that stands for a line break, if the grapheme cluster is one.
pub fn unicode_line_break_symbol(grapheme_cluster: &str) -> (r: Option<&'static str>)
    ensures
        match r {
            Some(s) => line_break_glyph(grapheme_cluster@) == Some(s@),
            None => line_break_glyph(grapheme_cluster@) is None,
        },
{
    let cs = chars_of(grapheme_cluster);
    let g = cs.as_slice();
    if g.len() == 1 && g[0] == '\n' {
        proof {
            assert(grapheme_cluster@ =~= seq!['\n']);
        }
        Some("\u{23ce}")
    } else if g.len() == 1 && g[0] == '\r' {
        proof {
            assert(grapheme_cluster@ =~= seq!['\r']);
        }
        Some("\u{240d}")
    } else if g.len() == 2 && g[0] == '\r' && g[1] == '\n' {
        proof {
            assert(grapheme_cluster@ =~= seq!['\r', '\n']);
        }
        Some("\u{240d}\u{240a}")
    } else if g.len() == 1 && g[0] == '\u{000B}' {
        proof {
            assert(grapheme_cluster@ =~= seq!['\u{000B}']);
        }
        Some("\u{240b}")
    } else if g.len() == 1 && g[0] == '\u{000C}' {
        proof {
            assert(grapheme_cluster@ =~= seq!['\u{000C}']);
        }
        Some("\u{240c}")
    } else if g.len() == 1 && g[0] == '\u{0085}' {
        proof {
            assert(grapheme_cluster@ =~= seq!['\u{0085}']);
        }
        Some("\u{2424}")
    } else if g.len() == 1 && g[0] == '\u{2028}' {
        proof {
            assert(grapheme_cluster@ =~= seq!['\u{2028}']);
        }
        Some("<U+2028>")
    } else if g.len() == 1 && g[0] == '\u{2029}' {
        proof {
            assert(grapheme_cluster@ =~= seq!['\u{2029}']);
        }
        Some("<U+2029>")
    } else {
        proof {
            if grapheme_cluster@.len() == 1 {
                assert(grapheme_cluster@[0] == g@[0]);
            }
            if grapheme_cluster@.len() == 2 {
                assert(grapheme_cluster@[0] == g@[0]);
                assert(grapheme_cluster@[1] == g@[1]);
            }
        }
        None
    }
}

/// The char of a hexadecimal digit, upper case.
pub open spec fn hex_digit_char(d: nat) -> char {
    if d < 10 {
        digit_char(d)
    } else {
        ((55 + d) as u8) as char
    }
}

/// `n` in upper case hexadecimal, without leading zeros.
pub open spec fn hex(n: nat) -> Seq<char>
    decreases n,
{
    if n < 16 {
        seq![hex_digit_char(n)]
    } else {
        hex(n / 16).push(hex_digit_char(n % 16))
    }
}

/// Appends `n` in upper case hexadecimal.
fn push_hex(out: &mut String, n: u32)
    ensures
        final(out)@ == old(out)@ + hex(n as nat),
    decreases n,
{
    if n >= 16 {
        push_hex(out, n / 16);
    }
    let d: u8 = (n % 16) as u8;
    let c = if d < 10 {
        (48u8 + d) as char
    } else {
        (55u8 + d) as char
    };
    push_char(out, c);
    proof {
        assert(c == hex_digit_char((n % 16) as nat));
        if n >= 16 {
            assert(old(out)@ + hex(n as nat) =~= old(out)@ + hex((n / 16) as nat) + seq![c]);
        } else {
            assert(old(out)@ + hex(n as nat) =~= old(out)@.push(c));
        }
    }
}

/// `<U+XXXX>` for each char: the code points of an invisible cluster.
pub open spec fn code_points(g: Seq<char>) -> Seq<char>
    decreases g.len(),
{
    if g.len() == 0 {
        seq![]
    } else {
        code_points(g.drop_last()) + "<U+"@ + hex((g.last() as u32) as nat) + ">"@
    }
}

/// `n` in decimal with at least two digits.
pub open spec fn two_digits(n: nat) -> Seq<char> {
    if n < 10 {
        seq!['0'] + decimal(n)
    } else {
        decimal(n)
    }
}

/// What stands for a grapheme cluster that does not show by itself: the
/// code points of a cluster of zero width, or `<NN>` for a one-byte control
/// char.
pub open spec fn replacement(g: Seq<char>) -> Option<Seq<char>> {
    if display_width(g) == 0 {
        Some(code_points(g))
    } else if g.len() == 1 && (g[0] as u32) < 0x80 && is_control(g[0]) {
        Some("<"@ + two_digits((g[0] as u32) as nat) + ">"@)
    } else {
        None
    }
}

/// What stands for a grapheme cluster that does not show by itself.
pub fn replacement_symbol(g: &str) -> (r: Option<String>)
    ensures
        match r {
            Some(s) => replacement(g@) == Some(s@),
            None => replacement(g@) is None,
        },
{
    let cs = chars_of(g);
    if str_width(g) == 0 {
        let mut out = String::new();
        let mut i: usize = 0;
        while i < cs.len()
            invariant
                cs@ == g@,
                i <= cs@.len(),
                out@ == code_points(cs@.take(i as int)),
            decreases cs@.len() - i,
        {
            let c = cs[i];
            proof {
                assert(cs@.take(i + 1).drop_last() =~= cs@.take(i as int));
                assert(cs@.take(i + 1).last() == c);
            }
            push_str(&mut out, "<U+");
            push_hex(&mut out, c as u32);
            push_str(&mut out, ">");
            proof {
                assert(out@ =~= code_points(cs@.take(i + 1)));
            }
            i = i + 1;
        }
        proof {
            assert(cs@.take(cs@.len() as int) =~= g@);
        }
        return Some(out);
    }
    if g.as_bytes().len() != 1 {
        proof {
            if g@.len() == 1 && (g@[0] as u32) < 0x80 {
                assert(vstd::utf8::encode_utf8(g@) =~= seq![g@[0] as u8]) by {
                    reveal_with_fuel(vstd::utf8::encode_utf8, 2);
                }
            }
        }
        return None;
    }
    proof {
        lemma_one_byte(g@);
    }
    let c = cs[0];
    if char_is_control(c) {
        let v = c as u32;
        let mut out = String::new();
        push_str(&mut out, "<");
        if v < 10 {
            push_char(&mut out, '0');
        }
        push_decimal(&mut out, v as usize);
        push_str(&mut out, ">");
        proof {
            assert(out@ =~= "<"@ + two_digits(v as nat) + ">"@);
        }
        Some(out)
    } else {
        None
    }
}

/// A string of one byte is one ASCII char.
proof fn lemma_one_byte(s: Seq<char>)
    requires
        vstd::utf8::encode_utf8(s).len() == 1,
    ensures
        s.len() == 1,
        (s[0] as u32) < 0x80,
{
    if s.len() == 0 {
        assert(vstd::utf8::encode_utf8(s).len() == 0);
    }
    let first = vstd::utf8::encode_scalar(s[0] as u32);
    let rest = s.drop_first();
    assert(vstd::utf8::encode_utf8(s) == first + vstd::utf8::encode_utf8(rest));
    assert(first.len() >= 1);
    if rest.len() > 0 {
        assert(vstd::utf8::encode_utf8(rest) == vstd::utf8::encode_scalar(rest[0] as u32)
            + vstd::utf8::encode_utf8(rest.drop_first()));
        assert(vstd::utf8::encode_utf8(rest).len() >= 1);
    }
}

/// How a cell of the screen is drawn.
#[derive(Debug, Clone, Copy, PartialEq, Eq, Structural)]
pub enum CellStyle {
    /// In the style of its syntax token.
    Token,
    /// In the style of its syntax token, reversed: under a cursor.
    TokenReversed,
    /// In the style of a selection.
    Selected,
    /// A line break or a stand-in within a selection.
    SelectedMarked,
    /// A stand-in for a grapheme cluster that does not show by itself.
    Escaped,
    /// A stand-in under a cursor.
    EscapedReversed,
}

/// A piece of a line on the screen: where it starts, how wide it is, what
/// it shows, how, and the syntax token it belongs to.
#[derive(Debug)]
pub struct Cell {
    pub column: usize,
    pub width: usize,
    pub text: String,
    pub style: CellStyle,
    pub token: usize,
}

/// `a + b`, or `usize::MAX` where that is larger.
pub open spec fn sat_add(a: int, b: int) -> int {
    if a + b <= usize::MAX {
        a + b
    } else {
        usize::MAX as int
    }
}

/// `a - b`, or 0 where that is negative.
pub open spec fn sat_sub(a: int, b: int) -> int {
    if a >= b {
        a - b
    } else {
        0
    }
}

/// What a grapheme cluster shows as, piece by piece: a tab as spaces up to
/// the next tab stop (nothing with a tab width of 0), the first of them
/// reversed under a cursor; a line break as its glyph when selected, as a
/// reversed space under a cursor, otherwise not at all; a cluster that does
/// not show by itself as its stand-in; anything else as itself.
pub open spec fn pieces_of(g: Seq<char>, selected: bool, cursor: bool, column: int, tab: int) -> Seq<(Seq<char>, CellStyle)> {
    if g == seq!['\t'] {
        if tab > 0 {
            let w = tab - column % tab;
            Seq::new(
                w as nat,
                |i: int|
                    (
                        seq![' '],
                        if selected {
                            CellStyle::Selected
                        } else if cursor && i == 0 {
                            CellStyle::TokenReversed
                        } else {
                            CellStyle::Token
                        },
                    ),
            )
        } else {
            seq![]
        }
    } else if line_break_glyph(g) is Some {
        if selected {
            seq![(line_break_glyph(g)->0, CellStyle::SelectedMarked)]
        } else if cursor {
            seq![(seq![' '], CellStyle::TokenReversed)]
        } else {
            seq![]
        }
    } else if replacement(g) is Some {
        seq![
            (
                replacement(g)->0,
                if selected {
                    CellStyle::SelectedMarked
                } else if cursor {
                    CellStyle::EscapedReversed
                } else {
                    CellStyle::Escaped
                },
            ),
        ]
    } else {
        seq![
            (
                g,
                if selected {
                    CellStyle::Selected
                } else if cursor {
                    CellStyle::TokenReversed
                } else {
                    CellStyle::Token
                },
            ),
        ]
    }
}

/// A cell as plain values.
pub open spec fn cell_view(c: Cell) -> (int, int, Seq<char>, CellStyle, int) {
    (c.column as int, c.width as int, c.text@, c.style, c.token as int)
}

/// Column `m` is a tab stop.
pub open spec fn tab_stop(m: int, tab: int) -> bool {
    m % tab == 0
}

/// A tab starting at `column` shows as single spaces, at least one and at
/// most `tab` of them, which reach exactly to the next tab stop after
/// `column`: the first multiple of `tab` greater than `column`.
pub proof fn lemma_tab_reaches_next_stop(selected: bool, cursor: bool, column: int, tab: int)
    requires
        column >= 0,
        tab > 0,
    ensures
        ({
            let ps = pieces_of(seq!['\t'], selected, cursor, column, tab);
            &&& 1 <= ps.len() <= tab
            &&& tab_stop(column + ps.len(), tab)
            &&& forall|m: int| column < m < column + ps.len() ==> !#[trigger] tab_stop(m, tab)
            &&& forall|k: int| 0 <= k < ps.len() ==> (#[trigger] ps[k]).0 == seq![' ']
        }),
{
    let ps = pieces_of(seq!['\t'], selected, cursor, column, tab);
    let w = tab - column % tab;
    assert(ps.len() == w);
    assert((column + w) % tab == 0) by (nonlinear_arith)
        requires
            w == tab - column % tab,
            tab > 0,
    {
        assert(column == tab * (column / tab) + column % tab);
        assert(column + w == tab * (column / tab + 1));
    }
    assert forall|m: int| column < m < column + w implies !#[trigger] tab_stop(m, tab) by {
        assert(m % tab != 0) by (nonlinear_arith)
            requires
                column < m < column + w,
                w == tab - column % tab,
                tab > 0,
                column >= 0,
        {
            let q = column / tab;
            assert(column == tab * q + column % tab);
            assert(tab * q < m);
            assert(m < tab * (q + 1));
        }
    }
}

/// The cells of pieces laid out from `column` on, each as wide as its text.
pub open spec fn laid_out(ps: Seq<(Seq<char>, CellStyle)>, column: int, token: int) -> Seq<(int, int, Seq<char>, CellStyle, int)>
    decreases ps.len(),
{
    if ps.len() == 0 {
        seq![]
    } else {
        let before = laid_out(ps.drop_last(), column, token);
        let start = end_column(ps.drop_last(), column);
        before.push((start, display_width(ps.last().0) as int, ps.last().0, ps.last().1, token))
    }
}

/// The column after pieces laid out from `column` on.
pub open spec fn end_column(ps: Seq<(Seq<char>, CellStyle)>, column: int) -> int
    decreases ps.len(),
{
    if ps.len() == 0 {
        column
    } else {
        sat_add(end_column(ps.drop_last(), column), display_width(ps.last().0) as int)
    }
}

/// Adds one cell.
fn push_cell(cells: &mut Vec<Cell>, column: usize, text: String, style: CellStyle, token: usize) -> (next: usize)
    ensures
        final(cells)@.len() == old(cells)@.len() + 1,
        final(cells)@.take(old(cells)@.len() as int) == old(cells)@,
        cell_view(final(cells)@.last()) == (column as int, display_width(text@) as int, text@, style, token as int),
        next == sat_add(column as int, display_width(text@) as int),
{
    let width = str_width(text.as_str());
    cells.push(Cell { column, width, text, style, token });
    proof {
        assert(cells@.take(old(cells)@.len() as int) =~= old(cells)@);
    }
    column.saturating_add(width)
}

proof fn lemma_laid_out_push(ps: Seq<(Seq<char>, CellStyle)>, p: (Seq<char>, CellStyle), column: int, token: int)
    ensures
        laid_out(ps.push(p), column, token) == laid_out(ps, column, token).push(
            (end_column(ps, column), display_width(p.0) as int, p.0, p.1, token),
        ),
        end_column(ps.push(p), column) == sat_add(end_column(ps, column), display_width(p.0) as int),
{
    assert(ps.push(p).drop_last() =~= ps);
}

/// The views of cells.
pub open spec fn cell_views(cs: Seq<Cell>) -> Seq<(int, int, Seq<char>, CellStyle, int)> {
    Seq::new(cs.len(), |i: int| cell_view(cs[i]))
}

/// Lays out one grapheme cluster from `column` on, appending its cells;
/// returns the column after it.
pub fn represent(
    g: &str,
    selected: bool,
    cursor: bool,
    column: usize,
    tab_width: usize,
    token: usize,
    cells: &mut Vec<Cell>,
) -> (next: usize)
    ensures
        cell_views(final(cells)@) == cell_views(old(cells)@) + laid_out(
            pieces_of(g@, selected, cursor, column as int, tab_width as int),
            column as int,
            token as int,
        ),
        next == end_column(pieces_of(g@, selected, cursor, column as int, tab_width as int), column as int),
{
    let ghost ps = pieces_of(g@, selected, cursor, column as int, tab_width as int);
    let ghost start = cell_views(cells@);
    let cs = chars_of(g);
    if cs.len() == 1 && cs[0] == '\t' {
        proof {
            assert(g@ =~= seq!['\t']);
        }
        if tab_width == 0 {
            proof {
                assert(cell_views(cells@) =~= start + laid_out(ps, column as int, token as int));
            }
            return column;
        }
        let w = tab_width - column % tab_width;
        let mut col = column;
        let mut i: usize = 0;
        while i < w
            invariant
                ps == pieces_of(g@, selected, cursor, column as int, tab_width as int),
                g@ == seq!['\t'],
                tab_width > 0,
                w == tab_width - column % tab_width,
                ps.len() == w,
                i <= w,
                cell_views(cells@) == start + laid_out(ps.take(i as int), column as int, token as int),
                col == end_column(ps.take(i as int), column as int),
            decreases w - i,
        {
            let style = if selected {
                CellStyle::Selected
            } else if cursor && i == 0 {
                CellStyle::TokenReversed
            } else {
                CellStyle::Token
            };
            let mut sp = String::new();
            push_char(&mut sp, ' ');
            let ghost before = cells@;
            col = push_cell(cells, col, sp, style, token);
            proof {
                assert(ps[i as int] == (seq![' '], style));
                assert(ps.take(i + 1) =~= ps.take(i as int).push(ps[i as int]));
                lemma_laid_out_push(ps.take(i as int), ps[i as int], column as int, token as int);
                assert(cells@.take(before.len() as int) == before);
                assert(cell_views(cells@) =~= cell_views(before).push(cell_view(cells@.last())));
            }
            i = i + 1;
        }
        proof {
            assert(ps.take(w as int) =~= ps);
        }
        return col;
    }
    proof {
        if g@.len() == 1 {
            assert(g@[0] == cs@[0]);
            assert(g@ != seq!['\t']);
        } else {
            assert(g@.len() != seq!['\t'].len());
        }
    }
    let (text, style) = match unicode_line_break_symbol(g) {
        Some(glyph) => if selected {
            (crate::strings::to_owned_string(glyph), CellStyle::SelectedMarked)
        } else if cursor {
            let mut sp = String::new();
            push_char(&mut sp, ' ');
            (sp, CellStyle::TokenReversed)
        } else {
            proof {
                assert(cell_views(cells@) =~= start + laid_out(ps, column as int, token as int));
            }
            return column;
        },
        None => match replacement_symbol(g) {
            Some(disp) => (
                disp,
                if selected {
                    CellStyle::SelectedMarked
                } else if cursor {
                    CellStyle::EscapedReversed
                } else {
                    CellStyle::Escaped
                },
            ),
            None => (
                crate::strings::to_owned_string(g),
                if selected {
                    CellStyle::Selected
                } else if cursor {
                    CellStyle::TokenReversed
                } else {
                    CellStyle::Token
                },
            ),
        },
    };
    let ghost before = cells@;
    let next = push_cell(cells, column, text, style, token);
    proof {
        assert(ps =~= seq![(text@, style)]);
        assert(seq![(text@, style)] =~= Seq::<(Seq<char>, CellStyle)>::empty().push((text@, style)));
        lemma_laid_out_push(Seq::<(Seq<char>, CellStyle)>::empty(), (text@, style), column as int, token as int);
        assert(cells@.take(before.len() as int) == before);
        assert(cell_views(cells@) =~= cell_views(before).push(cell_view(cells@.last())));
    }
    next
}

/// The cursor's selection holds byte `o`.
pub open spec fn selects(c: Cursor, o: int) -> bool {
    match spec_selection(c) {
        Some((a, b)) => a <= o && o < b,
        None => false,
    }
}

/// Some cursor selects byte `o`.
pub open spec fn selected_at(cs: Seq<Cursor>, o: int) -> bool {
    exists|i: int| 0 <= i < cs.len() && #[trigger] selects(cs[i], o)
}

/// Some cursor without a selection stands at byte `o`.
pub open spec fn cursor_at(cs: Seq<Cursor>, o: int) -> bool {
    exists|i: int| 0 <= i < cs.len() && (#[trigger] cs[i]).selection_from is None && cs[i].offset.0 == o
}

/// Whether some cursor selects byte `o`, and whether some cursor without a
/// selection stands there.
fn marks_at(cursors: &[Cursor], o: usize) -> (r: (bool, bool))
    ensures
        r.0 == selected_at(cursors@, o as int),
        r.1 == cursor_at(cursors@, o as int),
{
    let mut selected = false;
    let mut cursor = false;
    let mut i: usize = 0;
    while i < cursors.len()
        invariant
            i <= cursors@.len(),
            selected == exists|j: int| 0 <= j < i && #[trigger] selects(cursors@[j], o as int),
            cursor == exists|j: int| 0 <= j < i && (#[trigger] cursors@[j]).selection_from is None && cursors@[j].offset.0 == o,
        decreases cursors@.len() - i,
    {
        let c = cursors[i];
        match c.selection() {
            Some(range) => {
                if range.start.0 <= o && o < range.end.0 {
                    selected = true;
                }
            },
            None => {
                if c.offset.0 == o {
                    cursor = true;
                }
            },
        }
        proof {
            assert(cursors@[i as int] == c);
            assert(selects(c, o as int) == (c.selection_from is Some && match spec_selection(c) {
                Some((a, b)) => a <= o && o < b,
                None => false,
            }));
            if selected {
                if !(exists|j: int| 0 <= j < i && #[trigger] selects(cursors@[j], o as int)) {
                    assert(selects(cursors@[i as int], o as int));
                }
            }
        }
        i = i + 1;
    }
    (selected, cursor)
}

/// The state of laying out a line: the cells so far, the column reached,
/// the first visible column, the byte reached, and whether the last grapheme
/// cluster was selected.
pub type LayoutState = (Seq<(int, int, Seq<char>, CellStyle, int)>, int, int, int, bool);

/// Lays out the first `k` grapheme clusters (with their syntax tokens) of a
/// line that starts at byte `start`. Once the cluster at the primary cursor
/// is laid out, the view scrolls so that the column after it is the last
/// visible one.
pub open spec fn layout_prefix(
    gs: Seq<(Seq<char>, int)>,
    k: int,
    start: int,
    cs: Seq<Cursor>,
    primary: int,
    tab: int,
    avail: int,
    selected_before: bool,
) -> LayoutState
    decreases k,
{
    if k <= 0 {
        (seq![], 0, 0, start, selected_before)
    } else {
        let (cells, column, visible, offset, _) = layout_prefix(gs, k - 1, start, cs, primary, tab, avail, selected_before);
        let g = gs[k - 1];
        let sel = selected_at(cs, offset);
        let ps = pieces_of(g.0, sel, cursor_at(cs, offset), column, tab);
        let next = end_column(ps, column);
        (
            cells + laid_out(ps, column, g.1),
            next,
            if offset == primary {
                sat_sub(next, sat_sub(avail, 1))
            } else {
                visible
            },
            sat_add(offset, vstd::utf8::encode_utf8(g.0).len() as int),
            sel,
        )
    }
}

/// A laid out line: its cells, the first visible column, and whether its
/// last grapheme cluster was selected.
#[derive(Debug)]
pub struct LineLayout {
    pub cells: Vec<Cell>,
    pub visible_from_column: usize,
    pub last_selected: bool,
}

/// The views of grapheme clusters with their tokens.
pub open spec fn grapheme_views(gs: Seq<(String, usize)>) -> Seq<(Seq<char>, int)> {
    Seq::new(gs.len(), |i: int| (gs[i].0@, gs[i].1 as int))
}

/// Lays out a line of grapheme clusters (each with its syntax token) that
/// starts at byte `line_start`: see `layout_prefix`. On the last line a
/// cursor without a selection at the end of the text shows as a reversed
/// space after the line, and the view scrolls to show it.
pub fn layout_line(
    graphemes: &[(String, usize)],
    line_start: usize,
    cursors: &[Cursor],
    primary_offset: usize,
    tab_width: usize,
    available_columns: usize,
    is_last_line: bool,
    text_len: usize,
    selected_before: bool,
) -> (r: LineLayout)
    ensures
        ({
            let (cells, column, visible, offset, sel) = layout_prefix(
                grapheme_views(graphemes@),
                graphemes@.len() as int,
                line_start as int,
                cursors@,
                primary_offset as int,
                tab_width as int,
                available_columns as int,
                selected_before,
            );
            if is_last_line && cursor_at(cursors@, text_len as int) {
                let ps = pieces_of(seq![' '], sel, true, column, tab_width as int);
                &&& cell_views(r.cells@) == cells + laid_out(ps, column, 0)
                &&& r.visible_from_column == sat_sub(sat_add(column, 1), sat_sub(available_columns as int, 1))
                &&& r.last_selected == sel
            } else {
                &&& cell_views(r.cells@) == cells
                &&& r.visible_from_column == visible
                &&& r.last_selected == sel
            }
        }),
{
    let ghost gs = grapheme_views(graphemes@);
    let mut cells: Vec<Cell> = Vec::new();
    let mut column: usize = 0;
    let mut visible: usize = 0;
    let mut offset: usize = line_start;
    let mut sel = selected_before;
    let mut k: usize = 0;
    while k < graphemes.len()
        invariant
            gs == grapheme_views(graphemes@),
            k <= graphemes@.len(),
            layout_prefix(gs, k as int, line_start as int, cursors@, primary_offset as int, tab_width as int, available_columns as int, selected_before)
                == (cell_views(cells@), column as int, visible as int, offset as int, sel),
        decreases graphemes@.len() - k,
    {
        let g = &graphemes[k];
        let (selected, cursor) = marks_at(cursors, offset);
        proof {
            assert(gs[k as int] == (g.0@, g.1 as int));
        }
        let next = represent(g.0.as_str(), selected, cursor, column, tab_width, g.1, &mut cells);
        if offset == primary_offset {
            visible = next.saturating_sub(available_columns.saturating_sub(1));
        }
        column = next;
        offset = offset.saturating_add(g.0.as_str().as_bytes().len());
        sel = selected;
        k = k + 1;
    }
    let (_, end_cursor) = marks_at(cursors, text_len);
    if is_last_line && end_cursor {
        visible = column.saturating_add(1).saturating_sub(available_columns.saturating_sub(1));
        let mut sp = String::new();
        push_char(&mut sp, ' ');
        represent(sp.as_str(), sel, true, column, tab_width, 0, &mut cells);
    }
    LineLayout { cells, visible_from_column: visible, last_selected: sel }
}

/// Which cells of a laid out line show on a screen `avail` columns wide that
/// starts at column `visible`: the cells from there on, in order, while they
/// fit; and whether the line goes on past the right edge.
pub open spec fn shown(cells: Seq<(int, int, Seq<char>, CellStyle, int)>, k: int, visible: int, avail: int) -> (Seq<int>, int, bool)
    decreases k,
{
    if k <= 0 {
        (seq![], 0, false)
    } else {
        let (idx, cur, over) = shown(cells, k - 1, visible, avail);
        let c = cells[k - 1];
        if over || c.0 < visible {
            (idx, cur, over)
        } else if cur + c.1 <= avail {
            (idx.push(k - 1), cur + c.1, false)
        } else {
            (idx, cur, true)
        }
    }
}

/// The indices of the cells that show, and whether the line goes on past
/// the right edge: see `shown`.
pub fn visible_cells(cells: &[Cell], visible_from_column: usize, available_columns: usize) -> (r: (Vec<usize>, bool))
    ensures
        ({
            let (idx, _, over) = shown(cell_views(cells@), cells@.len() as int, visible_from_column as int, available_columns as int);
            &&& r.0@.map_values(|i: usize| i as int) == idx
            &&& r.1 == over
        }),
{
    let ghost cv = cell_views(cells@);
    let mut idx: Vec<usize> = Vec::new();
    let mut current: usize = 0;
    let mut k: usize = 0;
    while k < cells.len()
        invariant
            cv == cell_views(cells@),
            k <= cells@.len(),
            current <= available_columns,
            ({
                let (si, sc, so) = shown(cv, k as int, visible_from_column as int, available_columns as int);
                &&& idx@.map_values(|i: usize| i as int) == si
                &&& sc == current
                &&& !so
            }),
        decreases cells@.len() - k,
    {
        let c = &cells[k];
        proof {
            assert(cv[k as int] == cell_view(cells@[k as int]));
        }
        if c.column < visible_from_column {
            k = k + 1;
            continue;
        }
        if c.width <= available_columns - current {
            let ghost before = idx@;
            idx.push(k);
            current = current + c.width;
            proof {
                assert(idx@.map_values(|i: usize| i as int) =~= before.map_values(|i: usize| i as int).push(k as int));
            }
        } else {
            proof {
                lemma_shown_over(cv, k as int + 1, visible_from_column as int, available_columns as int);
            }
            return (idx, true);
        }
        k = k + 1;
    }
    (idx, false)
}

proof fn lemma_shown_over(cells: Seq<(int, int, Seq<char>, CellStyle, int)>, k: int, visible: int, avail: int)
    requires
        0 < k <= cells.len(),
        shown(cells, k, visible, avail).2,
    ensures
        shown(cells, cells.len() as int, visible, avail) == shown(cells, k, visible, avail),
    decreases cells.len() - k,
{
    if k < cells.len() {
        lemma_shown_over(cells, k + 1, visible, avail);
    }
}

/// `n` spaces.
pub open spec fn spaces(n: int) -> Seq<char> {
    Seq::new(if n > 0 { n as nat } else { 0 }, |_i: int| ' ')
}

/// `s` right-aligned in `w` columns (as `{:w$}` does for numbers).
pub open spec fn pad_left(s: Seq<char>, w: int) -> Seq<char> {
    spaces(w - s.len()) + s
}

/// `s` left-aligned in `w` columns (as `{:<w$}` does).
pub open spec fn pad_right(s: Seq<char>, w: int) -> Seq<char> {
    s + spaces(w - s.len())
}

/// Appends `n` spaces.
fn push_spaces(out: &mut String, n: usize)
    ensures
        final(out)@ == old(out)@ + spaces(n as int),
{
    let mut i: usize = 0;
    while i < n
        invariant
            i <= n,
            out@ == old(out)@ + spaces(i as int),
        decreases n - i,
    {
        push_char(out, ' ');
        i = i + 1;
        proof {
            assert(out@ =~= old(out)@ + spaces(i as int));
        }
    }
}

/// `n` in decimal, as a string.
fn decimal_string(n: usize) -> (s: String)
    ensures
        s@ == decimal(n as nat),
{
    let mut s = String::new();
    push_decimal(&mut s, n);
    proof {
        assert(s@ =~= decimal(n as nat));
    }
    s
}

/// The columns that line numbers up to `n` take: the digits of `n`.
pub fn lineno_width(n: usize) -> (w: usize)
    ensures
        w == decimal(n as nat).len(),
{
    proof {
        lemma_decimal_len(n as nat);
    }
    let mut m = n;
    let mut w: usize = 1;
    while m > 9
        invariant
            w + decimal(m as nat).len() - 1 == decimal(n as nat).len(),
            decimal(n as nat).len() <= if n > 0 { n as int } else { 1 },
        decreases m,
    {
        proof {
            lemma_decimal_len(m as nat);
            lemma_decimal_len((m / 10) as nat);
        }
        m = m / 10;
        w = w + 1;
    }
    proof {
        lemma_decimal_len(m as nat);
    }
    w
}

/// How long a number is in decimal.
proof fn lemma_decimal_len(n: nat)
    ensures
        decimal(n).len() >= 1,
        n < 10 ==> decimal(n).len() == 1,
        n >= 10 ==> decimal(n).len() == decimal(n / 10).len() + 1,
        decimal(n).len() <= if n > 0 { n as int } else { 1 },
    decreases n,
{
    if n >= 10 {
        lemma_decimal_len(n / 10);
    }
}

/// The line number column: a space, the one-based line number right-aligned
/// in `width` columns, then `<` when the line is scrolled to the right.
pub open spec fn sidebar_text(lineno: nat, width: int, scrolled: bool) -> Seq<char> {
    seq![' '] + pad_left(decimal(lineno), width) + seq![if scrolled { '<' } else { ' ' }]
}

/// The line number column of a line.
pub fn sidebar(one_based_lineno: usize, width: usize, scrolled: bool) -> (s: String)
    ensures
        s@ == sidebar_text(one_based_lineno as nat, width as int, scrolled),
{
    let digits = decimal_string(one_based_lineno);
    let n = lineno_width(one_based_lineno);
    let mut s = String::new();
    push_char(&mut s, ' ');
    if n < width {
        push_spaces(&mut s, width - n);
    }
    push_str(&mut s, digits.as_str());
    push_char(&mut s, if scrolled { '<' } else { ' ' });
    proof {
        if n >= width {
            assert(spaces(width - decimal(one_based_lineno as nat).len()) =~= Seq::<char>::empty());
        }
        assert(s@ =~= sidebar_text(one_based_lineno as nat, width as int, scrolled));
    }
    s
}

/// The left part of the status line: the title, `[+] ` when modified, and
/// the file type.
pub open spec fn status_left(title: Seq<char>, modified: bool, ft: Seq<char>) -> Seq<char> {
    title + seq![' '] + (if modified { "[+] "@ } else { seq![] }) + "| ft:"@ + ft
}

/// The left part of the status line.
pub fn status_line_text_left(title: &str, modified: bool, ft: &str) -> (s: String)
    ensures
        s@ == status_left(title@, modified, ft@),
{
    let mut s = String::new();
    push_str(&mut s, title);
    push_char(&mut s, ' ');
    if modified {
        push_str(&mut s, "[+] ");
    }
    push_str(&mut s, "| ft:");
    push_str(&mut s, ft);
    proof {
        assert(s@ =~= status_left(title@, modified, ft@));
    }
    s
}

/// Where the cursor is in the file, `OFFSET/SIZEB`, for files under ten
/// thousand bytes; larger sizes are written with a unit.
pub open spec fn size_indicator_text(offset: nat, size: nat) -> Option<Seq<char>> {
    if size < 10000 {
        Some(decimal(offset) + seq!['/'] + decimal(size) + seq!['B'])
    } else {
        None
    }
}

/// `OFFSET/SIZEB` for a file under ten thousand bytes.
pub fn size_indicator(offset: usize, size: usize) -> (r: Option<String>)
    ensures
        match r {
            Some(s) => size_indicator_text(offset as nat, size as nat) == Some(s@),
            None => size_indicator_text(offset as nat, size as nat) is None,
        },
{
    if size < 10000 {
        let mut s = String::new();
        push_decimal(&mut s, offset);
        push_char(&mut s, '/');
        push_decimal(&mut s, size);
        push_char(&mut s, 'B');
        proof {
            assert(s@ =~= decimal(offset as nat) + seq!['/'] + decimal(size as nat) + seq!['B']);
        }
        Some(s)
    } else {
        None
    }
}

/// The right part of the status line: the one-based column and line, each
/// left-aligned in three columns, then the size indicator.
pub open spec fn status_right(column: nat, line: nat, indicator: Seq<char>) -> Seq<char> {
    " col:"@ + pad_right(decimal(column), 3) + " line:"@ + pad_right(decimal(line), 3) + seq![' '] + indicator
}

/// The right part of the status line.
pub fn status_line_text_right(one_based_column: usize, one_based_line: usize, indicator: &str) -> (s: String)
    ensures
        s@ == status_right(one_based_column as nat, one_based_line as nat, indicator@),
{
    let mut s = String::new();
    push_str(&mut s, " col:");
    push_decimal(&mut s, one_based_column);
    let wc = lineno_width(one_based_column);
    if wc < 3 {
        push_spaces(&mut s, 3 - wc);
    }
    push_str(&mut s, " line:");
    push_decimal(&mut s, one_based_line);
    let wl = lineno_width(one_based_line);
    if wl < 3 {
        push_spaces(&mut s, 3 - wl);
    }
    push_char(&mut s, ' ');
    push_str(&mut s, indicator);
    proof {
        if wc >= 3 {
            assert(spaces(3 - decimal(one_based_column as nat).len()) =~= Seq::<char>::empty());
        }
        if wl >= 3 {
            assert(spaces(3 - decimal(one_based_line as nat).len()) =~= Seq::<char>::empty());
        }
        assert(s@ =~= status_right(one_based_column as nat, one_based_line as nat, indicator@));
    }
    s
}

} // verus!
