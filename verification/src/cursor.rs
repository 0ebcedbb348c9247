//! Cursors: a position in the text, an optional selection anchor and a
//! remembered column for vertical movement; and a set of cursors with one
//! primary cursor.
use crate::ropebuffer::{
    graphemes_from, line_count, line_of, line_start, next_boundary, prev_boundary,
    grapheme_boundary_at, word_boundary_at, RopeBuffer,
};
use crate::spans::{
    all_nonempty, apart, covers, lemma_same_covers, merge_sorted, range_pairs, sort_by_start,
    usize_pairs,
};
use crate::text::{lemma_boundary_by_byte, on_boundary};
use crate::types::{ByteOffset, MoveTarget};
use std::ops::Range;
use vstd::prelude::*;
use vstd::utf8::{is_continuation_byte, valid_utf8};

verus! {

/// A cursor. `selection_from`, when present, is the other end of a selection.
#[derive(Debug, Clone, Copy, Default, PartialEq, Eq)]
pub struct Cursor {
    pub offset: ByteOffset,
    pub selection_from: Option<ByteOffset>,
    pub memorized_column: Option<usize>,
}

/// The position `n` grapheme clusters to the left of `p`, stopping at the start.
pub open spec fn spec_left(text: Seq<u8>, p: int, n: nat) -> int
    decreases n,
{
    if n == 0 {
        p
    } else {
        match prev_boundary(text, p) {
            Some(q) => spec_left(text, q, (n - 1) as nat),
            None => p,
        }
    }
}

/// The position `n` grapheme clusters to the right of `p`, stopping at the end.
pub open spec fn spec_right(text: Seq<u8>, p: int, n: nat) -> int
    decreases n,
{
    if n == 0 {
        p
    } else {
        match next_boundary(text, p) {
            Some(q) => spec_right(text, q, (n - 1) as nat),
            None => p,
        }
    }
}

/// The start of the line holding `p`.
pub open spec fn spec_line_start(text: Seq<u8>, p: int) -> int {
    line_start(text, line_of(text, p))
}

/// The end of the line holding `p`: before its line break, or the end of the
/// text on the last line.
pub open spec fn spec_line_end(text: Seq<u8>, p: int) -> int {
    let l = line_of(text, p);
    if l == line_count(text) - 1 {
        text.len() as int
    } else {
        match prev_boundary(text, line_start(text, l + 1)) {
            Some(q) => q,
            None => 0,
        }
    }
}

/// The column of `p`: grapheme clusters between its line's start and it.
pub open spec fn spec_column(text: Seq<u8>, p: int) -> nat {
    graphemes_from(text.subrange(spec_line_start(text, p), p), 0)
}

/// The nearest word boundary left of `p`, or the start of the text.
pub open spec fn spec_word_left(text: Seq<u8>, p: int) -> int
    decreases p,
{
    match prev_boundary(text, p) {
        Some(q) => if q < p && q >= 0 {
            if word_boundary_at(text, q) {
                q
            } else {
                spec_word_left(text, q)
            }
        } else {
            0
        },
        None => 0,
    }
}

/// The nearest word boundary right of `p`, or the end of the text.
pub open spec fn spec_word_right(text: Seq<u8>, p: int) -> int
    decreases text.len() - p,
{
    match next_boundary(text, p) {
        Some(q) => if p < q <= text.len() {
            if word_boundary_at(text, q) {
                q
            } else {
                spec_word_right(text, q)
            }
        } else {
            text.len() as int
        },
        None => text.len() as int,
    }
}

/// The grapheme cluster boundaries after `p`, one after another: `Some(p)`
/// for `k` = 0, then the `k`-th boundary after `p`, or `None` once they run
/// out.
pub open spec fn boundary_after(text: Seq<u8>, p: int, k: nat) -> Option<int>
    decreases k,
{
    if k == 0 {
        Some(p)
    } else {
        match boundary_after(text, p, (k - 1) as nat) {
            Some(r) => match next_boundary(text, r) {
                Some(n) => if r < n <= text.len() {
                    Some(n)
                } else {
                    None
                },
                None => None,
            },
            None => None,
        }
    }
}

/// `r` is the `k`-th grapheme cluster boundary after `p`.
pub open spec fn nth_boundary_is(text: Seq<u8>, p: int, k: nat, r: int) -> bool {
    boundary_after(text, p, k) == Some(r)
}

/// The boundaries after `p` are the next boundary after `p` followed by
/// the boundaries after it.
proof fn lemma_boundary_after_shift(text: Seq<u8>, p: int, k: nat)
    ensures
        boundary_after(text, p, k + 1) == match next_boundary(text, p) {
            Some(n) => if p < n <= text.len() {
                boundary_after(text, n, k)
            } else {
                None
            },
            None => None,
        },
    decreases k,
{
    if k > 0 {
        lemma_boundary_after_shift(text, p, (k - 1) as nat);
        assert(boundary_after(text, p, k + 1) == match boundary_after(text, p, k) {
            Some(r) => match next_boundary(text, r) {
                Some(m) => if r < m <= text.len() {
                    Some(m)
                } else {
                    None
                },
                None => None,
            },
            None => None,
        });
        match next_boundary(text, p) {
            Some(n) => if p < n <= text.len() {
                assert(boundary_after(text, n, k) == match boundary_after(text, n, (k - 1) as nat) {
                    Some(r) => match next_boundary(text, r) {
                        Some(m) => if r < m <= text.len() {
                            Some(m)
                        } else {
                            None
                        },
                        None => None,
                    },
                    None => None,
                });
            },
            None => {},
        }
    }
}

/// The boundaries after `p` lie after it, and not past the end.
proof fn lemma_boundary_after_later(text: Seq<u8>, p: int, k: nat)
    requires
        boundary_after(text, p, k) is Some,
    ensures
        boundary_after(text, p, k)->0 >= p,
        k > 0 ==> p < boundary_after(text, p, k)->0 <= text.len(),
    decreases k,
{
    if k > 0 {
        lemma_boundary_after_later(text, p, (k - 1) as nat);
    }
}

/// Moving a word right from `p` lands on the first word boundary among the
/// grapheme cluster boundaries after `p`, or at the end of the text where
/// none of them is one: the result lies after `p` unless `p` is the end; it
/// is a word boundary and one of those boundaries, or the end; and none of
/// the boundaries between `p` and it is a word boundary.
pub proof fn lemma_word_right_first_boundary(text: Seq<u8>, p: int)
    requires
        0 <= p <= text.len(),
    ensures
        ({
            let q = spec_word_right(text, p);
            &&& p <= q <= text.len()
            &&& p < text.len() ==> p < q
            &&& q == text.len() || word_boundary_at(text, q)
            &&& q == text.len() || exists|k: nat| k > 0 && #[trigger] boundary_after(text, p, k) == Some(q)
            &&& forall|k: nat, r: int|
                #[trigger] nth_boundary_is(text, p, k, r) && p < r < q ==> !word_boundary_at(text, r)
        }),
    decreases text.len() - p,
{
    let q = spec_word_right(text, p);
    match next_boundary(text, p) {
        Some(n) => {
            if p < n <= text.len() {
                assert(boundary_after(text, p, 1) == Some(n)) by {
                    lemma_boundary_after_shift(text, p, 0);
                }
                if word_boundary_at(text, n) {
                    assert forall|k: nat, r: int|
                        #[trigger] nth_boundary_is(text, p, k, r) && p < r < q implies !word_boundary_at(text, r) by {
                        if k > 0 {
                            lemma_boundary_after_shift(text, p, (k - 1) as nat);
                            lemma_boundary_after_later(text, n, (k - 1) as nat);
                        }
                    }
                } else {
                    lemma_word_right_first_boundary(text, n);
                    if q < text.len() {
                        let k = choose|k: nat| k > 0 && #[trigger] boundary_after(text, n, k) == Some(q);
                        lemma_boundary_after_shift(text, p, k);
                        assert(boundary_after(text, p, k + 1) == Some(q));
                    }
                    assert forall|k: nat, r: int|
                        #[trigger] nth_boundary_is(text, p, k, r) && p < r < q implies !word_boundary_at(text, r) by {
                        if k > 0 {
                            lemma_boundary_after_shift(text, p, (k - 1) as nat);
                            lemma_boundary_after_later(text, n, (k - 1) as nat);
                            if k - 1 == 0 {
                                assert(r == n);
                            } else {
                                assert(nth_boundary_is(text, n, (k - 1) as nat, r));
                            }
                        }
                    }
                }
            } else {
                assert forall|k: nat, r: int|
                    #[trigger] nth_boundary_is(text, p, k, r) && p < r < q implies !word_boundary_at(text, r) by {
                    if k > 0 {
                        lemma_boundary_after_shift(text, p, (k - 1) as nat);
                    }
                }
            }
        },
        None => {
            assert forall|k: nat, r: int|
                #[trigger] nth_boundary_is(text, p, k, r) && p < r < q implies !word_boundary_at(text, r) by {
                if k > 0 {
                    lemma_boundary_after_shift(text, p, (k - 1) as nat);
                }
            }
        },
    }
}

/// The position `col` grapheme clusters into the line of `p`, but no further
/// than the line's end.
pub open spec fn spec_offset_at_column(text: Seq<u8>, p: int, col: nat) -> int {
    let r = spec_right(text, spec_line_start(text, p), col);
    let e = spec_line_end(text, p);
    if e < r {
        e
    } else {
        r
    }
}

/// Moving `n` lines up from `p`, to the remembered column if any.
pub open spec fn spec_up(text: Seq<u8>, p: int, mem: Option<usize>, n: nat) -> int {
    let l = line_of(text, p);
    if l < n {
        0
    } else {
        let ls = line_start(text, l - n);
        match mem {
            Some(col) => spec_offset_at_column(text, ls, col as nat),
            None => ls,
        }
    }
}

/// Moving `n` lines down from `p`, to the remembered column if any; past the
/// last line is the end of the text.
pub open spec fn spec_down(text: Seq<u8>, p: int, mem: Option<usize>, n: nat) -> int {
    let l = line_of(text, p);
    if l + n > line_count(text) {
        text.len() as int
    } else {
        let ls = line_start(text, l + n);
        match mem {
            Some(col) => spec_offset_at_column(text, ls, col as nat),
            None => ls,
        }
    }
}

/// Scanning forward from byte `p + i` for the `close` byte that balances
/// `depth` open brackets.
pub open spec fn scan_forward(text: Seq<u8>, p: int, i: int, depth: int, open: u8, close: u8) -> Option<int>
    decreases text.len() - (p + i),
{
    if p + i >= text.len() || p + i < 0 {
        None
    } else {
        let b = text[p + i];
        if b == close {
            if depth - 1 == 0 {
                Some(p + i)
            } else {
                scan_forward(text, p, i + 1, depth - 1, open, close)
            }
        } else if b == open {
            scan_forward(text, p, i + 1, depth + 1, open, close)
        } else {
            scan_forward(text, p, i + 1, depth, open, close)
        }
    }
}

/// Scanning backward from byte `p - i` for the `close` byte that balances
/// `depth` brackets.
pub open spec fn scan_backward(text: Seq<u8>, p: int, i: int, depth: int, open: u8, close: u8) -> Option<int>
    decreases p - i + 1,
{
    if p - i < 0 || p - i >= text.len() || i <= 0 {
        None
    } else {
        let b = text[p - i];
        if b == close {
            if depth - 1 == 0 {
                Some(p - i)
            } else {
                scan_backward(text, p, i + 1, depth - 1, open, close)
            }
        } else if b == open {
            scan_backward(text, p, i + 1, depth + 1, open, close)
        } else {
            scan_backward(text, p, i + 1, depth, open, close)
        }
    }
}

/// The bracket matching the one at `p`: `()`, `[]`, `{}` and `<>`, searched
/// forward from an opening bracket and backward from a closing one.
pub open spec fn spec_matching_pair(text: Seq<u8>, p: int) -> Option<int> {
    if p < 0 || p >= text.len() {
        None
    } else {
        let b = text[p];
        if b == 0x28 {
            scan_forward(text, p, 1, 1, 0x28, 0x29)
        } else if b == 0x5b {
            scan_forward(text, p, 1, 1, 0x5b, 0x5d)
        } else if b == 0x7b {
            scan_forward(text, p, 1, 1, 0x7b, 0x7d)
        } else if b == 0x3c {
            scan_forward(text, p, 1, 1, 0x3c, 0x3e)
        } else if b == 0x29 {
            scan_backward(text, p, 1, 1, 0x29, 0x28)
        } else if b == 0x5d {
            scan_backward(text, p, 1, 1, 0x5d, 0x5b)
        } else if b == 0x7d {
            scan_backward(text, p, 1, 1, 0x7d, 0x7b)
        } else if b == 0x3e {
            scan_backward(text, p, 1, 1, 0x3e, 0x3c)
        } else {
            None
        }
    }
}

/// `b - d`, but not below zero.
pub open spec fn sat_sub(b: int, d: int) -> int {
    if b >= d {
        b - d
    } else {
        0
    }
}

/// The first of `b`, `b - 1`, ..., `b - 4` (not below zero), from `b - d` on,
/// that is a grapheme cluster boundary.
pub open spec fn nearby_boundary(text: Seq<u8>, b: int, d: int) -> Option<int>
    decreases 5 - d,
{
    if d >= 5 || d < 0 {
        None
    } else if grapheme_boundary_at(text, sat_sub(b, d)) {
        Some(sat_sub(b, d))
    } else {
        nearby_boundary(text, b, d + 1)
    }
}

/// Where a movement toward `target` leads from cursor `c`.
pub open spec fn spec_target(text: Seq<u8>, c: Cursor, target: MoveTarget) -> Option<int> {
    let p = c.offset.0 as int;
    match target {
        MoveTarget::Up(n) => Some(spec_up(text, p, c.memorized_column, n as nat)),
        MoveTarget::Down(n) => Some(spec_down(text, p, c.memorized_column, n as nat)),
        MoveTarget::Left(n) => Some(spec_left(text, p, n as nat)),
        MoveTarget::Right(n) => Some(spec_right(text, p, n as nat)),
        MoveTarget::Start => Some(0),
        MoveTarget::End => Some(text.len() as int),
        MoveTarget::StartOfLine => Some(spec_line_start(text, p)),
        MoveTarget::EndOfLine => Some(spec_line_end(text, p)),
        MoveTarget::NextWordBoundaryLeft => Some(spec_word_left(text, p)),
        MoveTarget::NextWordBoundaryRight => Some(spec_word_right(text, p)),
        MoveTarget::MatchingPair => spec_matching_pair(text, p),
        MoveTarget::ByteOffset(b) => nearby_boundary(text, b as int, 0),
        MoveTarget::Location(line_no, col_no) => {
            let line = sat_sub(line_no as int, 1);
            let col = sat_sub(col_no as int, 1);
            if line <= line_count(text) {
                Some(spec_offset_at_column(text, line_start(text, line), col as nat))
            } else {
                Some(text.len() as int)
            }
        },
    }
}

/// The selected range of a cursor, from its lower to its higher end.
pub open spec fn spec_selection(c: Cursor) -> Option<(int, int)> {
    match c.selection_from {
        Some(s) => if s.0 > c.offset.0 {
            Some((c.offset.0 as int, s.0 as int))
        } else {
            Some((s.0 as int, c.offset.0 as int))
        },
        None => None,
    }
}

/// The cursor moved to `p`, dropping a selection that would become empty.
pub open spec fn spec_move_to_byte(c: Cursor, p: int) -> Cursor {
    let moved = Cursor { offset: ByteOffset(p as usize), ..c };
    if c.selection_from == Some(ByteOffset(p as usize)) {
        Cursor { selection_from: None, ..moved }
    } else {
        moved
    }
}

/// The cursor without its selection.
pub open spec fn spec_deselect(c: Cursor) -> Cursor {
    Cursor { selection_from: None, ..c }
}

/// The cursor after a movement toward `target`. Vertical movement that can
/// go somewhere remembers the column it started from; any other movement
/// forgets it. With a selection, one step left or right goes to its lower or
/// higher end; any movement drops the selection.
pub open spec fn spec_move_to(text: Seq<u8>, c: Cursor, target: MoveTarget) -> Cursor {
    let p = c.offset.0 as int;
    let remembered = match c.memorized_column {
        Some(col) => Some(col),
        None => Some(spec_column(text, p) as usize),
    };
    let mem = match target {
        MoveTarget::Up(_) => if spec_line_start(text, p) > 0 {
            remembered
        } else {
            None
        },
        MoveTarget::Down(_) => if spec_line_end(text, p) < text.len() {
            remembered
        } else {
            None
        },
        _ => None,
    };
    let c1 = Cursor { memorized_column: mem, ..c };
    match spec_selection(c) {
        Some((a, b)) => if target == MoveTarget::Left(1) {
            spec_deselect(spec_move_to_byte(c1, a))
        } else if target == MoveTarget::Right(1) {
            spec_deselect(spec_move_to_byte(c1, b))
        } else {
            let c2 = spec_deselect(c1);
            match spec_target(text, c2, target) {
                Some(o) => spec_move_to_byte(c2, o),
                None => c2,
            }
        },
        None => match spec_target(text, c1, target) {
            Some(o) => spec_move_to_byte(c1, o),
            None => c1,
        },
    }
}

/// The cursor after extending its selection toward `target`.
pub open spec fn spec_select_to(text: Seq<u8>, c: Cursor, target: MoveTarget) -> Cursor {
    match spec_target(text, c, target) {
        Some(o) => {
            let anchored = match c.selection_from {
                Some(_) => c,
                None => Cursor { selection_from: Some(c.offset), ..c },
            };
            spec_move_to_byte(anchored, o)
        },
        None => c,
    }
}

/// The lines that a cursor's selection (or the cursor alone) touches, as a
/// half-open range of line numbers.
pub open spec fn spec_line_span(text: Seq<u8>, c: Cursor) -> (int, int) {
    match c.selection_from {
        Some(sel) => if sel.0 < c.offset.0 {
            (line_of(text, sel.0 as int), line_of(text, c.offset.0 as int) + 1)
        } else {
            (line_of(text, c.offset.0 as int), line_of(text, sel.0 as int) + 1)
        },
        None => (line_of(text, c.offset.0 as int), line_of(text, c.offset.0 as int) + 1),
    }
}

/// The line spans of `cursors` in `text`, in the order of the cursors.
pub open spec fn cursor_line_spans(text: Seq<u8>, cursors: Seq<Cursor>) -> Seq<(int, int)> {
    Seq::new(cursors.len(), |i: int| spec_line_span(text, cursors[i]))
}

impl Cursor {
    /// Both ends of the cursor are char boundaries of `text`.
    pub open spec fn valid_in(self, text: Seq<u8>) -> bool {
        &&& on_boundary(text, self.offset.0 as int)
        &&& (self.selection_from matches Some(s) ==> on_boundary(text, s.0 as int))
    }

    pub open spec fn spec_memorized_column(self) -> Option<usize> {
        self.memorized_column
    }

    pub fn new_with_offset(offset: ByteOffset) -> (c: Cursor)
        ensures
            c.offset == offset,
            c.selection_from is None,
            c.memorized_column is None,
    {
        Cursor { offset, selection_from: None, memorized_column: None }
    }

    pub fn new_with_selection(offset: ByteOffset, selection_from: Option<ByteOffset>) -> (c: Cursor)
        ensures
            c.offset == offset,
            c.selection_from == selection_from,
            c.memorized_column is None,
    {
        Cursor { offset, selection_from, memorized_column: None }
    }

    /// The column remembered for vertical movement.
    pub fn memorized_column(&self) -> (m: Option<usize>)
        ensures
            m == self.memorized_column,
    {
        self.memorized_column
    }

    pub fn current_line_number(&self, content: &RopeBuffer) -> (l: usize)
        requires
            self.offset.0 <= content@.len(),
        ensures
            l == line_of(content@, self.offset.0 as int),
            l < line_count(content@),
            line_start(content@, l as int) <= self.offset.0,
            l + 1 < line_count(content@) ==> self.offset.0 < line_start(content@, l + 1),
            self.offset.0 == content@.len() ==> l + 1 == line_count(content@),
    {
        content.byte_to_line(self.offset)
    }

    pub fn column(&self, content: &RopeBuffer) -> (col: usize)
        requires
            content.wf(),
            self.valid_in(content@),
        ensures
            col == spec_column(content@, self.offset.0 as int),
    {
        content.byte_to_column(self.offset)
    }

    pub fn has_selection(&self) -> (r: bool)
        ensures
            r == self.selection_from is Some,
    {
        self.selection_from.is_some()
    }

    pub fn selection(&self) -> (r: Option<Range<ByteOffset>>)
        ensures
            r is Some == self.selection_from is Some,
            r matches Some(range) ==> spec_selection(*self) == Some(
                (range.start.0 as int, range.end.0 as int),
            ),
    {
        match self.selection_from {
            Some(sel_from) => if sel_from.0 > self.offset.0 {
                Some(self.offset..sel_from)
            } else {
                Some(sel_from..self.offset)
            },
            None => None,
        }
    }

    pub fn deselect(&mut self)
        ensures
            *final(self) == spec_deselect(*old(self)),
    {
        self.selection_from = None;
    }

    fn move_to_byte(&mut self, new_offset: ByteOffset)
        ensures
            *final(self) == spec_move_to_byte(*old(self), new_offset.0 as int),
    {
        self.offset = new_offset;
        if self.selection_from == Some(self.offset) {
            self.deselect();
        }
    }

    fn select_to_byte(&mut self, new_offset: ByteOffset)
        ensures
            *final(self) == spec_move_to_byte(
                match old(self).selection_from {
                    Some(_) => *old(self),
                    None => Cursor { selection_from: Some(old(self).offset), ..*old(self) },
                },
                new_offset.0 as int,
            ),
    {
        if self.selection_from.is_none() {
            self.selection_from = Some(self.offset);
        }
        self.move_to_byte(new_offset);
    }

    pub fn left(&self, content: &RopeBuffer, n: usize) -> (p: ByteOffset)
        requires
            content.wf(),
            on_boundary(content@, self.offset.0 as int),
        ensures
            p.0 == spec_left(content@, self.offset.0 as int, n as nat),
            on_boundary(content@, p.0 as int),
            p.0 <= self.offset.0,
    {
        let mut p = self.offset;
        let mut i: usize = 0;
        while i < n
            invariant
                content.wf(),
                i <= n,
                on_boundary(content@, p.0 as int),
                p.0 <= self.offset.0,
                spec_left(content@, self.offset.0 as int, n as nat) == spec_left(
                    content@,
                    p.0 as int,
                    (n - i) as nat,
                ),
            decreases n - i,
        {
            match content.previous_boundary_from(p) {
                Some(prev) => {
                    p = prev;
                    i = i + 1;
                },
                None => {
                    return p;
                },
            }
        }
        p
    }

    pub fn right(&self, content: &RopeBuffer, n: usize) -> (p: ByteOffset)
        requires
            content.wf(),
            on_boundary(content@, self.offset.0 as int),
        ensures
            p.0 == spec_right(content@, self.offset.0 as int, n as nat),
            on_boundary(content@, p.0 as int),
            self.offset.0 <= p.0,
    {
        let mut p = self.offset;
        let mut i: usize = 0;
        while i < n
            invariant
                content.wf(),
                i <= n,
                on_boundary(content@, p.0 as int),
                self.offset.0 <= p.0,
                spec_right(content@, self.offset.0 as int, n as nat) == spec_right(
                    content@,
                    p.0 as int,
                    (n - i) as nat,
                ),
            decreases n - i,
        {
            match content.next_boundary_from(p) {
                Some(next) => {
                    p = next;
                    i = i + 1;
                },
                None => {
                    return p;
                },
            }
        }
        p
    }

    pub fn line_start(&self, content: &RopeBuffer) -> (p: ByteOffset)
        requires
            content.wf(),
            self.offset.0 <= content@.len(),
        ensures
            p.0 == spec_line_start(content@, self.offset.0 as int),
            on_boundary(content@, p.0 as int),
            p.0 <= self.offset.0,
    {
        content.line_to_byte(self.current_line_number(content))
    }

    pub fn line_end(&self, content: &RopeBuffer) -> (p: ByteOffset)
        requires
            content.wf(),
            self.offset.0 <= content@.len(),
        ensures
            p.0 == spec_line_end(content@, self.offset.0 as int),
            on_boundary(content@, p.0 as int),
    {
        let current_line = self.current_line_number(content);
        let n_lines = content.len_lines();
        if current_line == n_lines - 1 {
            proof {
                lemma_boundary_by_byte(content@, content@.len() as int);
            }
            ByteOffset(content.len_bytes())
        } else {
            let next_start = content.line_to_byte(current_line + 1);
            match content.previous_boundary_from(next_start) {
                Some(p) => p,
                None => ByteOffset(0),
            }
        }
    }

    fn offset_at_column(&self, content: &RopeBuffer, column: usize) -> (p: ByteOffset)
        requires
            content.wf(),
            self.offset.0 <= content@.len(),
        ensures
            p.0 == spec_offset_at_column(content@, self.offset.0 as int, column as nat),
            on_boundary(content@, p.0 as int),
    {
        let c = Cursor::new_with_offset(self.line_start(content));
        let line_end = self.line_end(content);
        let r = c.right(content, column);
        if line_end.0 < r.0 {
            line_end
        } else {
            r
        }
    }

    pub fn up(&self, content: &RopeBuffer, n: usize) -> (p: ByteOffset)
        requires
            content.wf(),
            self.offset.0 <= content@.len(),
        ensures
            p.0 == spec_up(content@, self.offset.0 as int, self.memorized_column, n as nat),
            on_boundary(content@, p.0 as int),
    {
        let current_line = self.current_line_number(content);
        if current_line < n {
            proof {
                lemma_boundary_by_byte(content@, 0);
            }
            ByteOffset(0)
        } else {
            let line_start = content.line_to_byte(current_line - n);
            match self.memorized_column {
                Some(preferred_column) => Cursor::new_with_offset(line_start).offset_at_column(
                    content,
                    preferred_column,
                ),
                None => line_start,
            }
        }
    }

    pub fn down(&self, content: &RopeBuffer, n: usize) -> (p: ByteOffset)
        requires
            content.wf(),
            self.offset.0 <= content@.len(),
        ensures
            p.0 == spec_down(content@, self.offset.0 as int, self.memorized_column, n as nat),
            on_boundary(content@, p.0 as int),
    {
        let current_line = self.current_line_number(content);
        let n_lines = content.len_lines();
        if n > n_lines - current_line {
            proof {
                lemma_boundary_by_byte(content@, content@.len() as int);
            }
            ByteOffset(content.len_bytes())
        } else {
            let line_start = content.line_to_byte(current_line + n);
            match self.memorized_column {
                Some(preferred_column) => Cursor::new_with_offset(line_start).offset_at_column(
                    content,
                    preferred_column,
                ),
                None => line_start,
            }
        }
    }

    fn find_pair_forward(&self, content: &RopeBuffer, close: u8, open: u8) -> (r: Option<ByteOffset>)
        requires
            content.wf(),
            self.offset.0 < content@.len(),
            open != close,
            close < 0x80,
        ensures
            r matches Some(o) ==> scan_forward(content@, self.offset.0 as int, 1, 1, open, close)
                == Some(o.0 as int) && on_boundary(content@, o.0 as int),
            r is None ==> scan_forward(content@, self.offset.0 as int, 1, 1, open, close) is None,
    {
        let len = content.len_bytes();
        let offset = self.offset.0;
        let mut depth: usize = 1;
        let mut i: usize = 1;
        while i < len - offset
            invariant
                content.wf(),
                len == content@.len(),
                offset == self.offset.0,
                offset < len,
                open != close,
                close < 0x80,
                1 <= i,
                1 <= depth <= i,
                scan_forward(content@, offset as int, 1, 1, open, close) == scan_forward(
                    content@,
                    offset as int,
                    i as int,
                    depth as int,
                    open,
                    close,
                ),
            decreases len - offset - i,
        {
            let b = content.byte(ByteOffset(offset + i));
            if b == open {
                depth = depth + 1;
            }
            if b == close {
                depth = depth - 1;
                if depth == 0 {
                    proof {
                        lemma_boundary_by_byte(content@, offset + i);
                    }
                    return Some(ByteOffset(offset + i));
                }
            }
            i = i + 1;
        }
        None
    }

    fn find_pair_backward(&self, content: &RopeBuffer, close: u8, open: u8) -> (r: Option<ByteOffset>)
        requires
            content.wf(),
            self.offset.0 < content@.len(),
            open != close,
            close < 0x80,
        ensures
            r matches Some(o) ==> scan_backward(content@, self.offset.0 as int, 1, 1, open, close)
                == Some(o.0 as int) && on_boundary(content@, o.0 as int),
            r is None ==> scan_backward(content@, self.offset.0 as int, 1, 1, open, close) is None,
    {
        let len = content.len_bytes();
        let offset = self.offset.0;
        let mut depth: usize = 1;
        let mut i: usize = 1;
        while i <= offset
            invariant
                content.wf(),
                len == content@.len(),
                offset == self.offset.0,
                offset < len,
                open != close,
                close < 0x80,
                1 <= i,
                1 <= depth <= i,
                scan_backward(content@, offset as int, 1, 1, open, close) == scan_backward(
                    content@,
                    offset as int,
                    i as int,
                    depth as int,
                    open,
                    close,
                ),
            decreases offset + 1 - i,
        {
            let b = content.byte(ByteOffset(offset - i));
            if b == open {
                depth = depth + 1;
            }
            if b == close {
                depth = depth - 1;
                if depth == 0 {
                    proof {
                        lemma_boundary_by_byte(content@, offset - i);
                    }
                    return Some(ByteOffset(offset - i));
                }
            }
            i = i + 1;
        }
        None
    }

    /// The bracket that matches the one under the cursor, if any.
    pub fn matching_pair(&self, content: &RopeBuffer) -> (r: Option<ByteOffset>)
        requires
            content.wf(),
            self.offset.0 <= content@.len(),
        ensures
            r matches Some(o) ==> spec_matching_pair(content@, self.offset.0 as int) == Some(
                o.0 as int,
            ) && on_boundary(content@, o.0 as int),
            r is None ==> spec_matching_pair(content@, self.offset.0 as int) is None,
    {
        match content.get_byte(self.offset) {
            Some(b) => {
                if b == 0x28 {
                    self.find_pair_forward(content, 0x29, 0x28)
                } else if b == 0x5b {
                    self.find_pair_forward(content, 0x5d, 0x5b)
                } else if b == 0x7b {
                    self.find_pair_forward(content, 0x7d, 0x7b)
                } else if b == 0x3c {
                    self.find_pair_forward(content, 0x3e, 0x3c)
                } else if b == 0x29 {
                    self.find_pair_backward(content, 0x28, 0x29)
                } else if b == 0x5d {
                    self.find_pair_backward(content, 0x5b, 0x5d)
                } else if b == 0x7d {
                    self.find_pair_backward(content, 0x7b, 0x7d)
                } else if b == 0x3e {
                    self.find_pair_backward(content, 0x3c, 0x3e)
                } else {
                    None
                }
            },
            None => None,
        }
    }

    /// Where a movement toward `target` leads; `None` where it leads nowhere.
    pub fn target_byte_offset(&self, content: &RopeBuffer, target: MoveTarget) -> (r: Option<
        ByteOffset,
    >)
        requires
            content.wf(),
            self.valid_in(content@),
        ensures
            r is None <==> spec_target(content@, *self, target) is None,
            r matches Some(o) ==> spec_target(content@, *self, target) == Some(o.0 as int)
                && on_boundary(content@, o.0 as int),
    {
        proof {
            lemma_boundary_by_byte(content@, 0);
            lemma_boundary_by_byte(content@, content@.len() as int);
        }
        match target {
            MoveTarget::Up(n) => Some(self.up(content, n)),
            MoveTarget::Down(n) => Some(self.down(content, n)),
            MoveTarget::Left(n) => Some(self.left(content, n)),
            MoveTarget::Right(n) => Some(self.right(content, n)),
            MoveTarget::Start => Some(ByteOffset(0)),
            MoveTarget::End => Some(ByteOffset(content.len_bytes())),
            MoveTarget::StartOfLine => Some(self.line_start(content)),
            MoveTarget::EndOfLine => Some(self.line_end(content)),
            MoveTarget::NextWordBoundaryLeft => Some(self.word_boundary_left(content)),
            MoveTarget::NextWordBoundaryRight => Some(self.word_boundary_right(content)),
            MoveTarget::MatchingPair => self.matching_pair(content),
            MoveTarget::ByteOffset(b) => {
                // a nearby grapheme cluster boundary tolerates some imprecision
                let mut d: usize = 0;
                while d < 5
                    invariant
                        content.wf(),
                        target == MoveTarget::ByteOffset(b),
                        d <= 5,
                        nearby_boundary(content@, b as int, 0) == nearby_boundary(
                            content@,
                            b as int,
                            d as int,
                        ),
                    decreases 5 - d,
                {
                    let offset = ByteOffset(
                        if b >= d {
                            b - d
                        } else {
                            0
                        },
                    );
                    if content.is_grapheme_cluster_boundary(offset) {
                        return Some(offset);
                    }
                    d = d + 1;
                }
                None
            },
            MoveTarget::Location(line_no, column_no) => {
                let line = if line_no >= 1 {
                    line_no - 1
                } else {
                    0
                };
                let col = if column_no >= 1 {
                    column_no - 1
                } else {
                    0
                };
                match content.try_line_to_byte(line) {
                    Some(line_start) => Some(
                        Cursor::new_with_offset(line_start).offset_at_column(content, col),
                    ),
                    None => Some(ByteOffset(content.len_bytes())),
                }
            },
        }
    }

    /// Moves the cursor toward `target`; see `spec_move_to`.
    pub fn move_to(&mut self, content: &RopeBuffer, target: MoveTarget)
        requires
            content.wf(),
            old(self).valid_in(content@),
        ensures
            *final(self) == spec_move_to(content@, *old(self), target),
            final(self).valid_in(content@),
    {
        match target {
            MoveTarget::Up(_) => {
                if self.line_start(content).0 > 0 {
                    if self.memorized_column.is_none() {
                        self.memorized_column = Some(self.column(content));
                    }
                } else {
                    self.memorized_column = None;
                }
            },
            MoveTarget::Down(_) => {
                if self.line_end(content).0 < content.len_bytes() {
                    if self.memorized_column.is_none() {
                        self.memorized_column = Some(self.column(content));
                    }
                } else {
                    self.memorized_column = None;
                }
            },
            _ => {
                self.memorized_column = None;
            },
        }
        match self.selection() {
            Some(range) => {
                if target == MoveTarget::Left(1) {
                    self.move_to_byte(range.start);
                    self.deselect();
                } else if target == MoveTarget::Right(1) {
                    self.move_to_byte(range.end);
                    self.deselect();
                } else {
                    self.deselect();
                    if let Some(offset) = self.target_byte_offset(content, target) {
                        self.move_to_byte(offset);
                    }
                }
            },
            None => {
                if let Some(offset) = self.target_byte_offset(content, target) {
                    self.move_to_byte(offset);
                }
            },
        }
    }

    /// Extends the selection toward `target`, anchoring it at the current
    /// position if there was none.
    pub fn select_to(&mut self, content: &RopeBuffer, target: MoveTarget)
        requires
            content.wf(),
            old(self).valid_in(content@),
        ensures
            *final(self) == spec_select_to(content@, *old(self), target),
            final(self).valid_in(content@),
    {
        if let Some(offset) = self.target_byte_offset(content, target) {
            self.select_to_byte(offset);
        }
    }

    /// The lines that the cursor, with its selection, touches.
    pub fn line_span(&self, content: &RopeBuffer) -> (r: Range<usize>)
        requires
            self.offset.0 <= content@.len(),
            self.selection_from matches Some(s) ==> s.0 <= content@.len(),
        ensures
            (r.start as int, r.end as int) == spec_line_span(content@, *self),
            r.end <= line_count(content@),
    {
        let _n_lines = content.len_lines();
        match self.selection_from {
            Some(sel) => {
                if sel.0 < self.offset.0 {
                    let lineno_start = content.byte_to_line(sel);
                    let lineno_end = content.byte_to_line(self.offset);
                    lineno_start..lineno_end + 1
                } else {
                    let lineno_start = content.byte_to_line(self.offset);
                    let lineno_end = content.byte_to_line(sel);
                    lineno_start..lineno_end + 1
                }
            },
            None => {
                let lineno = content.byte_to_line(self.offset);
                lineno..lineno + 1
            },
        }
    }

    pub fn word_boundary_left(&self, content: &RopeBuffer) -> (p: ByteOffset)
        requires
            content.wf(),
            on_boundary(content@, self.offset.0 as int),
        ensures
            p.0 == spec_word_left(content@, self.offset.0 as int),
            on_boundary(content@, p.0 as int),
            p.0 <= self.offset.0,
    {
        let mut p = self.offset;
        proof {
            lemma_boundary_by_byte(content@, 0);
        }
        loop
            invariant
                content.wf(),
                on_boundary(content@, p.0 as int),
                p.0 <= self.offset.0,
                spec_word_left(content@, self.offset.0 as int) == spec_word_left(
                    content@,
                    p.0 as int,
                ),
            decreases p.0,
        {
            match content.previous_boundary_from(p) {
                Some(prev) => {
                    if content.is_word_boundary(prev) {
                        return prev;
                    }
                    p = prev;
                },
                None => {
                    return ByteOffset(0);
                },
            }
        }
    }

    pub fn word_boundary_right(&self, content: &RopeBuffer) -> (p: ByteOffset)
        requires
            content.wf(),
            on_boundary(content@, self.offset.0 as int),
        ensures
            p.0 == spec_word_right(content@, self.offset.0 as int),
            on_boundary(content@, p.0 as int),
            self.offset.0 <= p.0,
    {
        let mut p = self.offset;
        let len = content.len_bytes();
        proof {
            lemma_boundary_by_byte(content@, len as int);
        }
        loop
            invariant
                content.wf(),
                len == content@.len(),
                on_boundary(content@, p.0 as int),
                self.offset.0 <= p.0,
                spec_word_right(content@, self.offset.0 as int) == spec_word_right(
                    content@,
                    p.0 as int,
                ),
            decreases len - p.0,
        {
            match content.next_boundary_from(p) {
                Some(next) => {
                    if content.is_word_boundary(next) {
                        return next;
                    }
                    p = next;
                },
                None => {
                    return ByteOffset(len);
                },
            }
        }
    }
}

/// A non-empty set of cursors, one of which is the primary cursor.
#[derive(Debug, Clone)]
pub struct MultiCursor {
    pub cursors: Vec<Cursor>,
    pub primary_index: usize,
}

impl MultiCursor {
    /// There is at least one cursor, and the primary index points at one.
    pub open spec fn wf(&self) -> bool {
        self.cursors@.len() > 0 && self.primary_index < self.cursors@.len()
    }

    /// All cursors are valid in `text`.
    pub open spec fn valid_in(&self, text: Seq<u8>) -> bool {
        &&& self.wf()
        &&& forall|i: int| 0 <= i < self.cursors@.len() ==> #[trigger] self.cursors@[i].valid_in(text)
    }

    pub open spec fn spec_cursors(&self) -> Seq<Cursor> {
        self.cursors@
    }

    pub open spec fn spec_primary(&self) -> Cursor {
        self.cursors@[self.primary_index as int]
    }

    /// A single cursor at the start of the text.
    pub fn new() -> (m: Self)
        ensures
            m.wf(),
            m.cursors@ == seq![Cursor { offset: ByteOffset(0), selection_from: None, memorized_column: None }],
            m.primary_index == 0,
    {
        let mut cursors = Vec::new();
        cursors.push(Cursor { offset: ByteOffset(0), selection_from: None, memorized_column: None });
        MultiCursor { cursors, primary_index: 0 }
    }

    /// The primary cursor.
    pub fn primary(&self) -> (c: &Cursor)
        requires
            self.wf(),
        ensures
            *c == self.spec_primary(),
    {
        &self.cursors[self.primary_index]
    }

    /// The primary cursor, to change it in place.
    pub fn primary_mut(&mut self) -> (c: &mut Cursor)
        requires
            old(self).wf(),
        ensures
            *c == old(self).spec_primary(),
            final(self).cursors@ == old(self).cursors@.update(
                old(self).primary_index as int,
                *final(c),
            ),
            final(self).primary_index == old(self).primary_index,
    {
        let i = self.primary_index;
        &mut self.cursors[i]
    }

    /// The lines that the cursors touch, as ranges sorted by their start, where
    /// ranges that overlap or touch are merged into one.
    pub fn line_ranges(&self, content: &RopeBuffer) -> (r: Vec<Range<usize>>)
        requires
            forall|k: int|
                0 <= k < self.cursors@.len() ==> (#[trigger] self.cursors@[k]).offset.0 <= content@.len()
                    && (self.cursors@[k].selection_from matches Some(s) ==> s.0 <= content@.len()),
        ensures
            forall|line: int|
                covers(range_pairs(r@), line) <==> covers(cursor_line_spans(content@, self.cursors@), line),
            apart(range_pairs(r@)),
            all_nonempty(cursor_line_spans(content@, self.cursors@)) ==> all_nonempty(range_pairs(r@)),
    {
        let n = self.cursors.len();
        let mut spans: Vec<(usize, usize)> = Vec::new();
        let mut i: usize = 0;
        while i < n
            invariant
                n == self.cursors@.len(),
                i <= n,
                forall|k: int|
                    0 <= k < self.cursors@.len() ==> (#[trigger] self.cursors@[k]).offset.0 <= content@.len()
                        && (self.cursors@[k].selection_from matches Some(s) ==> s.0 <= content@.len()),
                usize_pairs(spans@) == cursor_line_spans(content@, self.cursors@).take(i as int),
            decreases n - i,
        {
            let span = self.cursors[i].line_span(content);
            let ghost before = spans@;
            spans.push((span.start, span.end));
            proof {
                let all = cursor_line_spans(content@, self.cursors@);
                assert(usize_pairs(spans@) =~= usize_pairs(before).push((span.start as int, span.end as int)));
                assert(all.take(i + 1) =~= all.take(i as int).push(all[i as int]));
            }
            i = i + 1;
        }
        proof {
            assert(usize_pairs(spans@) =~= cursor_line_spans(content@, self.cursors@));
        }
        let ghost unsorted = spans@;
        sort_by_start(&mut spans);
        proof {
            lemma_same_covers(spans@, unsorted);
        }
        let merged = merge_sorted(&spans);
        let mut r: Vec<Range<usize>> = Vec::new();
        let mut k: usize = 0;
        while k < merged.len()
            invariant
                k <= merged@.len(),
                range_pairs(r@) == usize_pairs(merged@).take(k as int),
            decreases merged@.len() - k,
        {
            let (start, end) = merged[k];
            let ghost before = r@;
            r.push(start..end);
            proof {
                assert(range_pairs(r@) =~= range_pairs(before).push((start as int, end as int)));
                assert(range_pairs(r@) =~= usize_pairs(merged@).take(k + 1));
            }
            k = k + 1;
        }
        proof {
            assert(range_pairs(r@) =~= usize_pairs(merged@));
        }
        r
    }

    pub fn cursor_count(&self) -> (n: usize)
        ensures
            n == self.cursors@.len(),
    {
        self.cursors.len()
    }

    /// Adds a cursor and makes it the primary one.
    pub fn spawn_new_primary(&mut self, new: Cursor)
        ensures
            final(self).cursors@ == old(self).cursors@.push(new),
            final(self).primary_index == old(self).cursors@.len(),
            final(self).wf(),
    {
        self.cursors.push(new);
        self.primary_index = self.cursors.len() - 1;
    }

    /// Replaces all cursors.
    pub fn set_cursors(&mut self, new_primary: usize, cursors: Vec<Cursor>)
        requires
            new_primary < cursors@.len(),
        ensures
            final(self).cursors@ == cursors@,
            final(self).primary_index == new_primary,
            final(self).wf(),
    {
        self.cursors = cursors;
        self.primary_index = new_primary;
    }

    /// Called when Esc is pressed: keeps only the primary cursor, without its
    /// selection.
    pub fn esc(&mut self)
        requires
            old(self).wf(),
        ensures
            final(self).cursors@ == seq![spec_deselect(old(self).spec_primary())],
            final(self).primary_index == 0,
            final(self).wf(),
    {
        let ghost old_cursors = self.cursors@;
        let n = self.cursors.len();
        let mut i: usize = 0;
        while i < n
            invariant
                n == self.cursors@.len(),
                n == old_cursors.len(),
                old_cursors == old(self).cursors@,
                self.primary_index == old(self).primary_index,
                old(self).wf(),
                i <= n,
                forall|j: int| 0 <= j < i ==> #[trigger] self.cursors@[j] == spec_deselect(old_cursors[j]),
                forall|j: int| i <= j < n ==> #[trigger] self.cursors@[j] == old_cursors[j],
            decreases n - i,
        {
            self.cursors[i].deselect();
            i = i + 1;
        }
        let p = self.cursors[self.primary_index];
        self.cursors.set(0, p);
        self.primary_index = 0;
        self.cursors.truncate(1);
        assert(self.cursors@ =~= seq![spec_deselect(old_cursors[old(self).primary_index as int])]);
    }

    /// Moves every cursor toward `target`.
    pub fn move_to(&mut self, content: &RopeBuffer, target: MoveTarget)
        requires
            content.wf(),
            old(self).valid_in(content@),
        ensures
            final(self).cursors@.len() == old(self).cursors@.len(),
            forall|i: int|
                0 <= i < old(self).cursors@.len() ==> #[trigger] final(self).cursors@[i]
                    == spec_move_to(content@, old(self).cursors@[i], target),
            final(self).primary_index == old(self).primary_index,
            final(self).valid_in(content@),
    {
        let ghost old_cursors = self.cursors@;
        let n = self.cursors.len();
        let mut i: usize = 0;
        while i < n
            invariant
                content.wf(),
                n == self.cursors@.len(),
                n == old_cursors.len(),
                self.primary_index == old(self).primary_index,
                old(self).valid_in(content@),
                old_cursors == old(self).cursors@,
                i <= n,
                forall|j: int| 0 <= j < i ==> #[trigger] self.cursors@[j] == spec_move_to(content@, old_cursors[j], target),
                forall|j: int| i <= j < n ==> #[trigger] self.cursors@[j] == old_cursors[j],
                forall|j: int| 0 <= j < n ==> #[trigger] self.cursors@[j].valid_in(content@),
            decreases n - i,
        {
            assert(self.cursors@[i as int].valid_in(content@));
            self.cursors[i].move_to(content, target);
            i = i + 1;
        }
    }

    /// Extends every cursor's selection toward `target`.
    pub fn select_to(&mut self, content: &RopeBuffer, target: MoveTarget)
        requires
            content.wf(),
            old(self).valid_in(content@),
        ensures
            final(self).cursors@.len() == old(self).cursors@.len(),
            forall|i: int|
                0 <= i < old(self).cursors@.len() ==> #[trigger] final(self).cursors@[i]
                    == spec_select_to(content@, old(self).cursors@[i], target),
            final(self).primary_index == old(self).primary_index,
            final(self).valid_in(content@),
    {
        let ghost old_cursors = self.cursors@;
        let n = self.cursors.len();
        let mut i: usize = 0;
        while i < n
            invariant
                content.wf(),
                n == self.cursors@.len(),
                n == old_cursors.len(),
                self.primary_index == old(self).primary_index,
                old(self).valid_in(content@),
                old_cursors == old(self).cursors@,
                i <= n,
                forall|j: int| 0 <= j < i ==> #[trigger] self.cursors@[j] == spec_select_to(content@, old_cursors[j], target),
                forall|j: int| i <= j < n ==> #[trigger] self.cursors@[j] == old_cursors[j],
                forall|j: int| 0 <= j < n ==> #[trigger] self.cursors@[j].valid_in(content@),
            decreases n - i,
        {
            assert(self.cursors@[i as int].valid_in(content@));
            self.cursors[i].select_to(content, target);
            i = i + 1;
        }
    }

    /// A copy of the cursors.
    pub fn duplicate(&self) -> (m: MultiCursor)
        ensures
            m.cursors@ == self.cursors@,
            m.primary_index == self.primary_index,
    {
        let mut cursors: Vec<Cursor> = Vec::new();
        let n = self.cursors.len();
        let mut i: usize = 0;
        while i < n
            invariant
                n == self.cursors@.len(),
                i <= n,
                cursors@ == self.cursors@.subrange(0, i as int),
            decreases n - i,
        {
            cursors.push(self.cursors[i]);
            i = i + 1;
        }
        assert(cursors@ =~= self.cursors@);
        MultiCursor { cursors, primary_index: self.primary_index }
    }

    /// The cursors, in order.
    pub fn iter(&self) -> (it: std::slice::Iter<'_, Cursor>)
        ensures
            vstd::std_specs::slice::into_iter_elts(it) == self.cursors@,
    {
        self.cursors.iter()
    }

    /// The cursors, last first.
    pub fn rev_iter(&self) -> (it: std::iter::Rev<std::slice::Iter<'_, Cursor>>)
        ensures
            vstd::std_specs::iter::IteratorSpec::remaining(&it).unref() == self.cursors@.reverse(),
    {
        let inner = self.cursors.iter();
        let it = inner.rev();
        proof {
            let r = vstd::std_specs::iter::IteratorSpec::remaining(&it);
            let i = vstd::std_specs::iter::IteratorSpec::remaining(&inner);
            assert(r == i.reverse());
            assert(r.unref() =~= i.unref().reverse());
        }
        it
    }

    /// The cursors as a slice, in order.
    pub fn as_slice(&self) -> (s: &[Cursor])
        ensures
            s@ == self.cursors@,
    {
        self.cursors.as_slice()
    }

    /// Adds a cursor, unless one already stands at its offset; the primary
    /// cursor stays. Returns whether the cursor was added.
    pub fn spawn_new(&mut self, new: Cursor) -> (added: bool)
        requires
            old(self).wf(),
        ensures
            final(self).wf(),
            added == !(exists|i: int| 0 <= i < old(self).cursors@.len() && (#[trigger] old(self).cursors@[i]).offset == new.offset),
            added ==> final(self).cursors@ == old(self).cursors@.push(new),
            !added ==> *final(self) == *old(self),
            final(self).primary_index == old(self).primary_index,
    {
        let n = self.cursors.len();
        let mut i: usize = 0;
        while i < n
            invariant
                *self == *old(self),
                old(self).wf(),
                n == self.cursors@.len(),
                i <= n,
                forall|j: int| 0 <= j < i ==> (#[trigger] self.cursors@[j]).offset != new.offset,
            decreases n - i,
        {
            if self.cursors[i].offset.0 == new.offset.0 {
                proof {
                    assert(self.cursors@[i as int].offset == new.offset);
                }
                return false;
            }
            i = i + 1;
        }
        self.cursors.push(new);
        true
    }

    /// Removes every selection.
    pub fn deselect_all(&mut self)
        ensures
            final(self).cursors@.len() == old(self).cursors@.len(),
            forall|i: int|
                0 <= i < old(self).cursors@.len() ==> #[trigger] final(self).cursors@[i]
                    == spec_deselect(old(self).cursors@[i]),
            final(self).primary_index == old(self).primary_index,
    {
        let ghost old_cursors = self.cursors@;
        let n = self.cursors.len();
        let mut i: usize = 0;
        while i < n
            invariant
                n == self.cursors@.len(),
                n == old_cursors.len(),
                self.primary_index == old(self).primary_index,
                old_cursors == old(self).cursors@,
                i <= n,
                forall|j: int| 0 <= j < i ==> #[trigger] self.cursors@[j] == spec_deselect(old_cursors[j]),
                forall|j: int| i <= j < n ==> #[trigger] self.cursors@[j] == old_cursors[j],
            decreases n - i,
        {
            self.cursors[i].deselect();
            i = i + 1;
        }
    }
}

} // verus!
