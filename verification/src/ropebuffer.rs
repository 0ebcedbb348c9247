//! The text buffer of a pane: a rope with undo and redo history.
use crate::grapheme::{
    is_boundary_in, is_grapheme_boundary, next_boundary_in, next_grapheme_boundary,
    prev_boundary_in, prev_grapheme_boundary,
};
use crate::rope::{
    rope_append, rope_clone, rope_remove, rope_split_off,
    rope_byte_slice, rope_byte_to_char, rope_byte_to_line, rope_bytes, chars_before, rope_get_char, rope_from_str, rope_get_byte, rope_len_bytes,
    rope_len_lines, rope_line_count, rope_line_of, rope_line_start, rope_line_to_byte, rope_new,
    rope_to_string, rope_try_line_to_byte,
};
use crate::text::{
    lemma_boundary_by_byte, lemma_char_count_bound, lemma_chars_before_monotone, on_boundary,
};
use crate::chars::{
    ascii_punctuation, char_is_alphabetic, char_is_alphanumeric, char_is_numeric,
    char_is_whitespace, is_alphabetic, is_alphanumeric, is_ascii_punctuation, is_numeric,
    is_whitespace,
};
use crate::types::ByteOffset;
use crate::cursor::{Cursor, MultiCursor};
use crate::editing::{
    all_fit, batch_fits, edit_end, edit_fits, edit_pos, edits_disjoint, edits_sorted,
    inserts_valid, sort_edits, truncate_deletions, views, Edit, EditBatch, EditView,
};
use crate::batch::{
    apply_batch, apply_edit, chained, deleted_before, delta_before, inserted_before, inverse,
    lemma_deleted_bound, lemma_delta_split, lemma_fits_chained, lemma_inverse,
    lemma_position_delta_bounds, position_delta, position_delta_before, shifted, lemma_step,
    lemma_chained_prefix, lemma_inserted_grows, lemma_chain_within, shift_position,
};
use crate::editing::lemma_normalized_fits;
use crate::editing::edit_le;
use ropey::Rope;
use std::ops::Range;
use vstd::prelude::*;
use vstd::string::StringSliceAdditionalSpecFns;
use vstd::utf8::*;

verus! {

broadcast use group_utf8_lib;

/// A text buffer. Its view is the UTF-8 bytes of the text.
pub struct RopeBuffer {
    rope: Rope,
    undo: Vec<(EditBatch, MultiCursor)>,
    redo: Vec<(EditBatch, MultiCursor)>,
}

impl View for RopeBuffer {
    type V = Seq<u8>;

    closed spec fn view(&self) -> Seq<u8> {
        rope_bytes(self.rope)
    }
}

/// The line that holds byte `b`.
pub open spec fn line_of(text: Seq<u8>, b: int) -> int {
    rope_line_of(text, b as nat) as int
}

/// The byte where line `l` starts.
pub open spec fn line_start(text: Seq<u8>, l: int) -> int {
    rope_line_start(text, l as nat) as int
}

/// The number of lines.
pub open spec fn line_count(text: Seq<u8>) -> int {
    rope_line_count(text) as int
}

/// The next grapheme boundary after `p`, or `p` itself at the end.
pub open spec fn next_boundary(text: Seq<u8>, p: int) -> Option<int> {
    match next_grapheme_boundary(text, p as nat) {
        Some(n) => Some(n as int),
        None => None,
    }
}

/// The previous grapheme boundary before `p`.
pub open spec fn prev_boundary(text: Seq<u8>, p: int) -> Option<int> {
    match prev_grapheme_boundary(text, p as nat) {
        Some(n) => Some(n as int),
        None => None,
    }
}

/// The number of grapheme clusters in a valid text, counted from byte `p`.
pub open spec fn graphemes_from(s: Seq<u8>, p: int) -> nat
    decreases s.len() - p,
{
    if p < 0 || p >= s.len() {
        0
    } else {
        match next_boundary(s, p) {
            Some(n) => if p < n <= s.len() {
                1 + graphemes_from(s, n)
            } else {
                0
            },
            None => 0,
        }
    }
}

/// Whether `offset` is a grapheme cluster boundary of the text.
pub open spec fn grapheme_boundary_at(text: Seq<u8>, offset: int) -> bool {
    on_boundary(text, offset) && is_grapheme_boundary(text, offset as nat)
}

/// Unicode `MidLetter` characters.
pub open spec fn is_midletter(c: char) -> bool {
    c == '\u{003A}' || c == '\u{00B7}' || c == '\u{0387}' || c == '\u{055F}' || c == '\u{05F4}'
        || c == '\u{2027}' || c == '\u{FE13}' || c == '\u{FE55}' || c == '\u{FF1A}'
}

/// Unicode `MidNumLet` and `Single_Quote` characters.
pub open spec fn is_midnumletq(c: char) -> bool {
    c == '\u{002E}' || c == '\u{2018}' || c == '\u{2019}' || c == '\u{2024}' || c == '\u{FE52}'
        || c == '\u{FF07}' || c == '\u{FF0E}' || c == '\u{0027}'
}

/// Unicode `MidNum` characters.
pub open spec fn is_midnum(c: char) -> bool {
    c == '\u{066C}' || c == '\u{FE50}' || c == '\u{FE54}' || c == '\u{FF0C}' || c == '\u{FF1B}'
}

/// Whether `c` is a word character (alphanumeric or underscore).
pub open spec fn is_word_char(c: char) -> bool {
    is_alphanumeric(c) || c == '_'
}

/// Whether there is a word boundary between chars `k - 1` and `k` of `cs`: at
/// the ends, and wherever the two neighbours are not both whitespace, both
/// word characters, both ASCII punctuation, or a letter (digit) joined to
/// another letter (digit) by a middle punctuation character.
pub open spec fn word_boundary_between(cs: Seq<char>, k: int) -> bool {
    if k <= 0 || k >= cs.len() {
        true
    } else {
        let prev = cs[k - 1];
        let next = cs[k];
        let pp_alpha = k >= 2 && is_alphabetic(cs[k - 2]);
        let pp_num = k >= 2 && is_numeric(cs[k - 2]);
        let nn_alpha = k + 1 < cs.len() && is_alphabetic(cs[k + 1]);
        let nn_num = k + 1 < cs.len() && is_numeric(cs[k + 1]);
        !((is_whitespace(prev) && is_whitespace(next)) || (is_word_char(prev) && is_word_char(next))
            || (is_ascii_punctuation(prev) && is_ascii_punctuation(next)) || (is_alphabetic(prev)
            && (is_midletter(next) || is_midnumletq(next)) && nn_alpha) || (is_alphabetic(next) && (
        is_midletter(prev) || is_midnumletq(prev)) && pp_alpha) || (is_numeric(prev) && (is_midnum(
            next,
        ) || is_midnumletq(next)) && nn_num) || (is_numeric(next) && (is_midnum(prev)
            || is_midnumletq(prev)) && pp_num))
    }
}

/// Whether byte `offset` (a char boundary) of `text` is a word boundary.
pub open spec fn word_boundary_at(text: Seq<u8>, offset: int) -> bool {
    word_boundary_between(decode_utf8(text), chars_before(text, offset) as int)
}

fn midletter(c: char) -> (r: bool)
    ensures
        r == is_midletter(c),
{
    c == '\u{003A}' || c == '\u{00B7}' || c == '\u{0387}' || c == '\u{055F}' || c == '\u{05F4}'
        || c == '\u{2027}' || c == '\u{FE13}' || c == '\u{FE55}' || c == '\u{FF1A}'
}

fn midnumletq(c: char) -> (r: bool)
    ensures
        r == is_midnumletq(c),
{
    c == '\u{002E}' || c == '\u{2018}' || c == '\u{2019}' || c == '\u{2024}' || c == '\u{FE52}'
        || c == '\u{FF07}' || c == '\u{FF0E}' || c == '\u{0027}'
}

fn midnum(c: char) -> (r: bool)
    ensures
        r == is_midnum(c),
{
    c == '\u{066C}' || c == '\u{FE50}' || c == '\u{FE54}' || c == '\u{FF0C}' || c == '\u{FF1B}'
}

impl RopeBuffer {
    /// The buffer is consistent: valid UTF-8 text, and every recorded batch
    /// inserts UTF-8 text and keeps at least one cursor.
    pub open spec fn wf(&self) -> bool {
        &&& valid_utf8(self@)
        &&& history_ok(self.spec_undo())
        &&& history_ok(self.spec_redo())
    }

    /// The undo history, oldest first: each batch with the cursors to restore.
    pub closed spec fn spec_undo(&self) -> Seq<(Seq<EditView>, Seq<Cursor>, usize)> {
        self.undo@.map_values(
            |h: (EditBatch, MultiCursor)| (h.0@, h.1.cursors@, h.1.primary_index),
        )
    }

    /// The redo history, oldest first.
    pub closed spec fn spec_redo(&self) -> Seq<(Seq<EditView>, Seq<Cursor>, usize)> {
        self.redo@.map_values(
            |h: (EditBatch, MultiCursor)| (h.0@, h.1.cursors@, h.1.primary_index),
        )
    }

    /// An empty buffer with no history.
    pub fn new() -> (r: Self)
        ensures
            r.wf(),
            r@ == Seq::<u8>::empty(),
            r.spec_undo().len() == 0,
            r.spec_redo().len() == 0,
    {
        let r = RopeBuffer { rope: rope_new(), undo: Vec::new(), redo: Vec::new() };
        proof {
            assert(r.spec_undo() =~= Seq::empty());
            assert(r.spec_redo() =~= Seq::empty());
        }
        r
    }

    /// A buffer holding `text`, with no history.
    pub fn from_str(text: &str) -> (r: Self)
        ensures
            r.wf(),
            r@ == text.spec_bytes(),
            r.spec_undo().len() == 0,
            r.spec_redo().len() == 0,
    {
        let r = RopeBuffer { rope: rope_from_str(text), undo: Vec::new(), redo: Vec::new() };
        proof {
            assert(r.spec_undo() =~= Seq::empty());
            assert(r.spec_redo() =~= Seq::empty());
        }
        r
    }

    /// The text as a `String`.
    pub fn to_string(&self) -> (s: String)
        ensures
            encode_utf8(s@) == self@,
    {
        rope_to_string(&self.rope)
    }

    pub fn len_bytes(&self) -> (n: usize)
        ensures
            n == self@.len(),
    {
        rope_len_bytes(&self.rope)
    }

    pub fn len_lines(&self) -> (n: usize)
        ensures
            n == line_count(self@),
            1 <= n <= self@.len() + 1,
    {
        rope_len_lines(&self.rope)
    }

    pub fn line_to_byte(&self, line: usize) -> (b: ByteOffset)
        requires
            self.wf(),
            line <= line_count(self@),
        ensures
            b.0 == line_start(self@, line as int),
            on_boundary(self@, b.0 as int),
            line == 0 ==> b.0 == 0,
            line == line_count(self@) ==> b.0 == self@.len(),
            line < line_count(self@) ==> line_of(self@, b.0 as int) == line,
    {
        ByteOffset(rope_line_to_byte(&self.rope, line))
    }

    pub fn try_line_to_byte(&self, line: usize) -> (b: Option<ByteOffset>)
        requires
            self.wf(),
        ensures
            b is Some <==> line <= line_count(self@),
            b matches Some(x) ==> x.0 == line_start(self@, line as int) && on_boundary(
                self@,
                x.0 as int,
            ),
            b matches Some(x) ==> (line < line_count(self@) ==> line_of(self@, x.0 as int)
                == line),
    {
        match rope_try_line_to_byte(&self.rope, line) {
            Some(x) => Some(ByteOffset(x)),
            None => None,
        }
    }

    pub fn byte_to_line(&self, offset: ByteOffset) -> (line: usize)
        requires
            offset.0 <= self@.len(),
        ensures
            line == line_of(self@, offset.0 as int),
            line < line_count(self@),
            line_start(self@, line as int) <= offset.0,
            line + 1 < line_count(self@) ==> offset.0 < line_start(self@, line + 1),
            offset.0 == self@.len() ==> line + 1 == line_count(self@),
    {
        rope_byte_to_line(&self.rope, offset.0)
    }

    /// The byte at `offset`, if it is within the text.
    pub fn get_byte(&self, offset: ByteOffset) -> (x: Option<u8>)
        ensures
            offset.0 < self@.len() ==> x == Some(self@[offset.0 as int]),
            offset.0 >= self@.len() ==> x is None,
    {
        rope_get_byte(&self.rope, offset.0)
    }

    /// The byte at `offset`.
    pub fn byte(&self, offset: ByteOffset) -> (x: u8)
        requires
            offset.0 < self@.len(),
        ensures
            x == self@[offset.0 as int],
    {
        match rope_get_byte(&self.rope, offset.0) {
            Some(x) => x,
            None => 0,
        }
    }

    /// The text between two char boundaries.
    pub fn slice(&self, range: &Range<ByteOffset>) -> (s: String)
        requires
            self.wf(),
            range.start.0 <= range.end.0,
            on_boundary(self@, range.start.0 as int),
            on_boundary(self@, range.end.0 as int),
        ensures
            encode_utf8(s@) == self@.subrange(range.start.0 as int, range.end.0 as int),
    {
        rope_byte_slice(&self.rope, range.start.0, range.end.0)
    }

    /// Whether `offset` is a char boundary within the text.
    pub fn is_char_boundary(&self, offset: ByteOffset) -> (r: bool)
        requires
            self.wf(),
        ensures
            r == on_boundary(self@, offset.0 as int),
    {
        let len = self.len_bytes();
        if offset.0 > len {
            false
        } else if offset.0 == len {
            proof {
                lemma_boundary_by_byte(self@, offset.0 as int);
            }
            true
        } else {
            let b = self.byte(offset);
            proof {
                lemma_boundary_by_byte(self@, offset.0 as int);
            }
            !(0x80 <= b && b <= 0xbf)
        }
    }

    /// Whether `offset` is an extended grapheme cluster boundary of the text.
    pub fn is_grapheme_cluster_boundary(&self, offset: ByteOffset) -> (r: bool)
        requires
            self.wf(),
        ensures
            r == grapheme_boundary_at(self@, offset.0 as int),
    {
        if !self.is_char_boundary(offset) {
            false
        } else {
            let s = self.to_string();
            let st = s.as_str();
            is_boundary_in(st, offset.0)
        }
    }

    /// The first grapheme boundary after `start`; `None` at the end of the text.
    pub fn next_boundary_from(&self, start: ByteOffset) -> (r: Option<ByteOffset>)
        requires
            self.wf(),
            on_boundary(self@, start.0 as int),
        ensures
            r is None <==> next_boundary(self@, start.0 as int) is None,
            r matches Some(n) ==> next_boundary(self@, start.0 as int) == Some(n.0 as int),
            r is None <==> start.0 == self@.len(),
            r matches Some(n) ==> start.0 < n.0 && on_boundary(self@, n.0 as int),
    {
        let s = self.to_string();
        let st = s.as_str();
        match next_boundary_in(st, start.0) {
            Some(n) => Some(ByteOffset(n)),
            None => None,
        }
    }

    /// The last grapheme boundary before `start`; `None` at the start of the text.
    pub fn previous_boundary_from(&self, start: ByteOffset) -> (r: Option<ByteOffset>)
        requires
            self.wf(),
            on_boundary(self@, start.0 as int),
        ensures
            r is None <==> prev_boundary(self@, start.0 as int) is None,
            r matches Some(n) ==> prev_boundary(self@, start.0 as int) == Some(n.0 as int),
            r is None <==> start.0 == 0,
            r matches Some(n) ==> n.0 < start.0 && on_boundary(self@, n.0 as int),
    {
        let s = self.to_string();
        let st = s.as_str();
        match prev_boundary_in(st, start.0) {
            Some(n) => Some(ByteOffset(n)),
            None => None,
        }
    }

    /// Whether `offset` is a word boundary: see `word_boundary_between`.
    pub fn is_word_boundary(&self, offset: ByteOffset) -> (r: bool)
        requires
            self.wf(),
            on_boundary(self@, offset.0 as int),
        ensures
            r == word_boundary_at(self@, offset.0 as int),
    {
        let k = rope_byte_to_char(&self.rope, offset.0);
        let _total = self.len_bytes();
        proof {
            lemma_chars_before_monotone(self@, offset.0 as int, self@.len() as int);
            assert(self@.subrange(0, self@.len() as int) =~= self@);
            lemma_char_count_bound(self@);
        }
        let ghost cs = decode_utf8(self@);
        if k == 0 {
            return true;
        }
        let prev = match rope_get_char(&self.rope, k - 1) {
            Some(c) => c,
            None => { return true; },
        };
        let next = match rope_get_char(&self.rope, k) {
            Some(c) => c,
            None => { return true; },
        };
        if char_is_whitespace(prev) && char_is_whitespace(next) {
            return false;
        }
        if (char_is_alphanumeric(prev) || prev == '_') && (char_is_alphanumeric(next) || next
            == '_') {
            return false;
        }
        if ascii_punctuation(prev) && ascii_punctuation(next) {
            return false;
        }
        let prevprev = if k >= 2 {
            rope_get_char(&self.rope, k - 2)
        } else {
            None
        };
        let nextnext = if k < usize::MAX {
            rope_get_char(&self.rope, k + 1)
        } else {
            None
        };
        let nextnext_alpha = match nextnext {
            Some(c) => char_is_alphabetic(c),
            None => false,
        };
        let prevprev_alpha = match prevprev {
            Some(c) => char_is_alphabetic(c),
            None => false,
        };
        let nextnext_num = match nextnext {
            Some(c) => char_is_numeric(c),
            None => false,
        };
        let prevprev_num = match prevprev {
            Some(c) => char_is_numeric(c),
            None => false,
        };
        if char_is_alphabetic(prev) && (midletter(next) || midnumletq(next)) && nextnext_alpha {
            return false;
        }
        if char_is_alphabetic(next) && (midletter(prev) || midnumletq(prev)) && prevprev_alpha {
            return false;
        }
        if char_is_numeric(prev) && (midnum(next) || midnumletq(next)) && nextnext_num {
            return false;
        }
        if char_is_numeric(next) && (midnum(prev) || midnumletq(prev)) && prevprev_num {
            return false;
        }
        proof {
            let kk = k as int;
            assert(kk == chars_before(self@, offset.0 as int));
            assert(prev == cs[kk - 1]);
            assert(next == cs[kk]);
            assert(nextnext_alpha == (kk + 1 < cs.len() && is_alphabetic(cs[kk + 1])));
            assert(prevprev_alpha == (kk >= 2 && is_alphabetic(cs[kk - 2])));
            assert(nextnext_num == (kk + 1 < cs.len() && is_numeric(cs[kk + 1])));
            assert(prevprev_num == (kk >= 2 && is_numeric(cs[kk - 2])));
        }
        true
    }

    /// Applies one edit that fits the text.
    fn apply_one(&mut self, e: &Edit)
        requires
            old(self).wf(),
            edit_fits(old(self)@, e@),
        ensures
            final(self)@ == apply_edit(old(self)@, e@),
            final(self).spec_undo() == old(self).spec_undo(),
            final(self).spec_redo() == old(self).spec_redo(),
    {
        let ghost t = self@;
        let _len = rope_len_bytes(&self.rope);
        match e {
            Edit::Insert(offset, r) => {
                let c = rope_byte_to_char(&self.rope, offset.0);
                proof {
                    lemma_chars_before_monotone(t, offset.0 as int, t.len() as int);
                    assert(t.subrange(0, t.len() as int) =~= t);
                    assert(is_char_boundary(t, offset.0 as int));
                }
                let tail = rope_split_off(&mut self.rope, c);
                rope_append(&mut self.rope, rope_clone(r));
                rope_append(&mut self.rope, tail);
            },
            Edit::Delete(range) => {
                let a = rope_byte_to_char(&self.rope, range.start.0);
                let b = rope_byte_to_char(&self.rope, range.end.0);
                proof {
                    lemma_chars_before_monotone(t, range.start.0 as int, range.end.0 as int);
                    lemma_chars_before_monotone(t, range.end.0 as int, t.len() as int);
                    assert(t.subrange(0, t.len() as int) =~= t);
                    assert(is_char_boundary(t, range.start.0 as int));
                    assert(is_char_boundary(t, range.end.0 as int));
                }
                rope_remove(&mut self.rope, a, b);
            },
        }
    }

    /// Applies a batch that fits the text, from its last edit to its first.
    fn edit_rope(&mut self, edits: &EditBatch)
        requires
            old(self).wf(),
            batch_fits(old(self)@, edits@),
        ensures
            final(self)@ == apply_batch(old(self)@, edits@),
            final(self).wf(),
            final(self).spec_undo() == old(self).spec_undo(),
            final(self).spec_redo() == old(self).spec_redo(),
    {
        let ghost es = edits@;
        proof {
            lemma_fits_chained(self@, es);
            assert(es.subrange(0, es.len() as int) =~= es);
        }
        let mut i = edits.len();
        while i > 0
            invariant
                self.wf(),
                i <= es.len(),
                es == edits@,
                self.spec_undo() == old(self).spec_undo(),
                self.spec_redo() == old(self).spec_redo(),
                all_fit(self@, es.subrange(0, i as int)),
                chained(es.subrange(0, i as int), self@.len() as int),
                apply_batch(old(self)@, es) == apply_batch(self@, es.subrange(0, i as int)),
            decreases i,
        {
            let ghost pre = es.subrange(0, i as int);
            proof {
                lemma_step(self@, pre, self@.len() as int);
                assert(pre.last() == es[i - 1]);
                assert(pre.drop_last() =~= es.subrange(0, i - 1));
                assert(edit_fits(self@, pre[pre.len() - 1]));
            }
            let e = edits.get(i - 1);
            let ghost before = self@;
            self.apply_one(e);
            proof {
                assert(valid_utf8(self@));
                assert(self.spec_undo() == old(self).spec_undo());
                assert(edit_pos(pre.last()) <= self@.len()) by {
                    assert(edit_fits(before, pre[pre.len() - 1]));
                }
                let d = es.subrange(0, i - 1);
                assert(chained(d, self@.len() as int)) by {
                    if d.len() > 0 {
                        assert(edit_end(d.last()) <= edit_pos(pre.last()));
                    }
                }
            }
            i = i - 1;
        }
    }

    /// Whether a batch fits the text and the result fits in memory.
    pub fn batch_fits_text(&self, edits: &EditBatch) -> (r: bool)
        requires
            self.wf(),
            inserts_valid(edits@),
        ensures
            r == (batch_fits(self@, edits@) && apply_batch(self@, edits@).len() <= usize::MAX),
    {
        let ghost es = edits@;
        let n = edits.len();
        let len = self.len_bytes();
        let mut i: usize = 0;
        while i < n
            invariant
                self.wf(),
                es == edits@,
                n == es.len(),
                len == self@.len(),
                inserts_valid(es),
                i <= n,
                forall|k: int| 0 <= k < i ==> #[trigger] edit_fits(self@, es[k]),
                forall|k: int| 0 <= k < i && k + 1 < n ==> #[trigger] edit_le(es[k], es[k + 1]),
                forall|k: int| 0 <= k < i && k + 1 < n ==> edit_end(#[trigger] es[k]) <= edit_pos(es[k + 1]),
            decreases n - i,
        {
            let e = edits.get(i);
            let ok = match e {
                Edit::Insert(o, _) => self.is_char_boundary(*o),
                Edit::Delete(range) => range.start.0 <= range.end.0 && self.is_char_boundary(
                    range.start,
                ) && self.is_char_boundary(range.end),
            };
            if !ok {
                proof {
                    assert(!edit_fits(self@, es[i as int]));
                }
                return false;
            }
            if i + 1 < n {
                let next = edits.get(i + 1);
                if next.less_than(e) {
                    proof {
                        assert(!edit_le(es[i as int], es[i + 1]));
                    }
                    return false;
                }
                let end = match e {
                    Edit::Insert(o, _) => o.0,
                    Edit::Delete(range) => range.end.0,
                };
                if end > next.pos().0 {
                    proof {
                        assert(!(edit_end(es[i as int]) <= edit_pos(es[i + 1])));
                    }
                    return false;
                }
            }
            i = i + 1;
        }
        proof {
            assert(batch_fits(self@, es));
            lemma_fits_chained(self@, es);
            lemma_inverse(self@, es);
            lemma_delta_split(es, es.len() as int);
            lemma_deleted_bound(es, self@.len() as int, es.len() as int);
        }
        // the resulting length, without overflowing
        let mut deleted: usize = 0;
        let mut inserted: usize = 0;
        let mut k: usize = 0;
        while k < n
            invariant
                self.wf(),
                es == edits@,
                n == es.len(),
                len == self@.len(),
                batch_fits(self@, es),
                chained(es, len as int),
                k <= n,
                deleted == deleted_before(es, k as int),
                inserted == inserted_before(es, k as int),
                inserted <= usize::MAX,
            decreases n - k,
        {
            proof {
                lemma_deleted_bound(es, len as int, k + 1);
                assert(edit_fits(self@, es[k as int]));
            }
            match edits.get(k) {
                Edit::Insert(_, r) => {
                    let l = rope_len_bytes(r);
                    if inserted > usize::MAX - l {
                        proof {
                            lemma_delta_split(es, es.len() as int);
                            lemma_inserted_grows(es, k as int + 1, es.len() as int);
                            lemma_deleted_bound(es, len as int, es.len() as int);
                            lemma_inverse(self@, es);
                            assert(inserted_before(es, k + 1) == inserted + l);
                        }
                        return false;
                    }
                    inserted = inserted + l;
                },
                Edit::Delete(range) => {
                    deleted = deleted + (range.end.0 - range.start.0);
                },
            }
            k = k + 1;
        }
        proof {
            lemma_deleted_bound(es, len as int, n as int);
            lemma_delta_split(es, n as int);
        }
        len - deleted <= usize::MAX - inserted
    }

    /// The batch that undoes `edits` once they are applied to this text.
    fn inverse_of(&self, edits: &EditBatch) -> (inv: EditBatch)
        requires
            self.wf(),
            batch_fits(self@, edits@),
            apply_batch(self@, edits@).len() <= usize::MAX,
        ensures
            inv@ == truncate_deletions(sort_edits(inverse(self@, edits@))),
            batch_fits(apply_batch(self@, edits@), inv@),
            inserts_valid(inv@),
    {
        let ghost t = self@;
        let ghost es = edits@;
        let ghost inv_s = inverse(t, es);
        let ghost r = apply_batch(t, es);
        proof {
            lemma_fits_chained(t, es);
            lemma_inverse(t, es);
        }
        let n = edits.len();
        let mut inverted: Vec<Edit> = Vec::new();
        let mut n_deleted: usize = 0;
        let mut n_inserted: usize = 0;
        let mut i: usize = 0;
        while i < n
            invariant
                self.wf(),
                t == self@,
                es == edits@,
                n == es.len(),
                inv_s == inverse(t, es),
                r == apply_batch(t, es),
                r.len() <= usize::MAX,
                batch_fits(t, es),
                chained(es, t.len() as int),
                chained(inv_s, r.len() as int),
                i <= n,
                views(inverted@) == inv_s.subrange(0, i as int),
                n_deleted == deleted_before(es, i as int),
                n_inserted == inserted_before(es, i as int),
            decreases n - i,
        {
            proof {
                lemma_deleted_bound(es, t.len() as int, i as int);
                lemma_deleted_bound(es, t.len() as int, i + 1);
                lemma_delta_split(es, i as int);
                lemma_delta_split(es, i + 1);
                lemma_chain_within(inv_s, r.len() as int, i as int);
                lemma_chain_within(es, t.len() as int, i as int);
                assert(edit_fits(t, es[i as int]));
            }
            let ghost old_inv = inverted@;
            match edits.get(i) {
                Edit::Insert(offset, rope) => {
                    let l = rope_len_bytes(rope);
                    let off = offset.0 - n_deleted + n_inserted;
                    inverted.push(Edit::delete(ByteOffset(off), l));
                    n_inserted = n_inserted + l;
                },
                Edit::Delete(range) => {
                    let text = self.slice(range);
                    let off = range.start.0 - n_deleted + n_inserted;
                    inverted.push(Edit::insert_str(ByteOffset(off), text.as_str()));
                    n_deleted = n_deleted + (range.end.0 - range.start.0);
                },
            }
            proof {
                assert(views(inverted@) =~= views(old_inv).push(inv_s[i as int]));
                assert(inv_s.subrange(0, i + 1) =~= inv_s.subrange(0, i as int).push(inv_s[i as int]));
            }
            i = i + 1;
        }
        proof {
            assert(inv_s.subrange(0, n as int) =~= inv_s);
            lemma_normalized_fits(r, inv_s);
        }
        let inv = EditBatch::from_edits(inverted);
        proof {
            let v = inv@;
            assert forall|k: int| 0 <= k < v.len() implies (#[trigger] v[k] matches EditView::Insert(
                _,
                u,
            ) ==> valid_utf8(u)) by {
                assert(edit_fits(r, v[k]));
            }
        }
        inv
    }

    /// Applies a batch of edits, moves the cursors along with the text, and
    /// records how to undo it.
    pub fn do_edits(&mut self, cursors: &mut MultiCursor, edits: EditBatch)
        requires
            old(self).wf(),
            batch_fits(old(self)@, edits@),
            old(cursors).wf(),
            forall|i: int|
                0 <= i < old(cursors).cursors@.len() ==> #[trigger] old(cursors).cursors@[i].valid_in(
                    old(self)@,
                ),
            old(self)@.len() + inserted_before(edits@, edits@.len() as int) <= usize::MAX,
        ensures
            final(self).wf(),
            edits_recorded(*old(self), old(cursors).cursors@, old(cursors).primary_index, edits@, *final(self)),
            final(cursors).cursors@.len() == old(cursors).cursors@.len(),
            final(cursors).primary_index == old(cursors).primary_index,
            forall|i: int|
                0 <= i < old(cursors).cursors@.len() ==> #[trigger] final(cursors).cursors@[i]
                    == shift_cursor(edits@, old(cursors).cursors@[i]),
    {
        let ghost t = self@;
        let ghost es = edits@;
        proof {
            lemma_fits_chained(t, es);
            lemma_inverse(t, es);
            lemma_delta_split(es, es.len() as int);
            lemma_deleted_bound(es, t.len() as int, es.len() as int);
        }
        assert(apply_batch(t, es).len() <= usize::MAX);
        let cursors_before_edits = cursors.duplicate();
        let inverted = self.inverse_of(&edits);
        let ghost undo_before = self.spec_undo();
        self.undo.push((inverted, cursors_before_edits));
        proof {
            assert(self.spec_undo() =~= undo_before.push(
                (
                    truncate_deletions(sort_edits(inverse(t, es))),
                    old(cursors).cursors@,
                    old(cursors).primary_index,
                ),
            ));
            lemma_history_push(
                undo_before,
                (
                    truncate_deletions(sort_edits(inverse(t, es))),
                    old(cursors).cursors@,
                    old(cursors).primary_index,
                ),
            );
        }
        let text_len = self.len_bytes();
        let n = cursors.cursors.len();
        let mut k: usize = 0;
        while k < n
            invariant
                t == self@,
                text_len == t.len(),
                es == edits@,
                batch_fits(t, es),
                chained(es, t.len() as int),
                t.len() + inserted_before(es, es.len() as int) <= usize::MAX,
                n == cursors.cursors@.len(),
                n == old(cursors).cursors@.len(),
                cursors.primary_index == old(cursors).primary_index,
                forall|i: int|
                    0 <= i < n ==> #[trigger] old(cursors).cursors@[i].valid_in(t),
                k <= n,
                forall|i: int| 0 <= i < k ==> #[trigger] cursors.cursors@[i] == shift_cursor(es, old(cursors).cursors@[i]),
                forall|i: int| k <= i < n ==> #[trigger] cursors.cursors@[i] == old(cursors).cursors@[i],
            decreases n - k,
        {
            let c = cursors.cursors[k];
            proof {
                assert(old(cursors).cursors@[k as int].valid_in(t));
            }
            let offset = shift_offset(&edits, c.offset.0, text_len);
            let selection_from = match c.selection_from {
                Some(sel) => Some(ByteOffset(shift_offset(&edits, sel.0, text_len))),
                None => None,
            };
            cursors.cursors.set(
                k,
                Cursor { offset: ByteOffset(offset), selection_from, memorized_column: c.memorized_column },
            );
            k = k + 1;
        }
        let ghost s_undo = self.spec_undo();
        self.edit_rope(&edits);
    }

    /// Restores the last state from the undo stack, if any, and records how to
    /// redo it. Returns the cursors to use: those recorded with the restored
    /// state, or the given ones when there is nothing to undo. A recorded batch
    /// that does not fit the text is dropped.
    pub fn undo(&mut self, cursors: MultiCursor) -> (r: MultiCursor)
        requires
            old(self).wf(),
            cursors.wf(),
        ensures
            final(self).wf(),
            r.wf(),
            history_step(*old(self), cursors.cursors@, cursors.primary_index, *final(self), r.cursors@, r.primary_index, false),
    {
        let ghost undo_before = self.spec_undo();
        let ghost redo_before = self.spec_redo();
        match self.undo.pop() {
            Some((edits, old_cursors)) => {
                proof {
                    assert(self.spec_undo() =~= undo_before.drop_last());
                    assert(undo_before.last() == (edits@, old_cursors.cursors@, old_cursors.primary_index));
                    lemma_history_pop(undo_before);
                    lemma_history_pop(redo_before);
                }
                if self.batch_fits_text(&edits) {
                    let inv = self.inverse_of(&edits);
                    self.redo.push((inv, cursors));
                    proof {
                        assert(self.spec_redo() =~= redo_before.push(
                            (inv@, cursors.cursors@, cursors.primary_index),
                        ));
                        lemma_history_push(redo_before, (inv@, cursors.cursors@, cursors.primary_index));
                    }
                    self.edit_rope(&edits);
                    old_cursors
                } else {
                    cursors
                }
            },
            None => {
                cursors
            },
        }
    }

    /// Restores the next state from the redo stack, if any, and records how to
    /// undo it again. Returns the cursors to use, as `undo` does.
    pub fn redo(&mut self, cursors: MultiCursor) -> (r: MultiCursor)
        requires
            old(self).wf(),
            cursors.wf(),
        ensures
            final(self).wf(),
            r.wf(),
            history_step(*old(self), cursors.cursors@, cursors.primary_index, *final(self), r.cursors@, r.primary_index, true),
    {
        let ghost undo_before = self.spec_undo();
        let ghost redo_before = self.spec_redo();
        match self.redo.pop() {
            Some((edits, old_cursors)) => {
                proof {
                    assert(self.spec_redo() =~= redo_before.drop_last());
                    assert(redo_before.last() == (edits@, old_cursors.cursors@, old_cursors.primary_index));
                    lemma_history_pop(undo_before);
                    lemma_history_pop(redo_before);
                }
                if self.batch_fits_text(&edits) {
                    let inv = self.inverse_of(&edits);
                    self.undo.push((inv, cursors));
                    proof {
                        assert(self.spec_undo() =~= undo_before.push(
                            (inv@, cursors.cursors@, cursors.primary_index),
                        ));
                        lemma_history_push(undo_before, (inv@, cursors.cursors@, cursors.primary_index));
                    }
                    self.edit_rope(&edits);
                    old_cursors
                } else {
                    cursors
                }
            },
            None => {
                cursors
            },
        }
    }

    /// The column of `offset`: the grapheme clusters between the start of its
    /// line and it.
    pub fn byte_to_column(&self, offset: ByteOffset) -> (col: usize)
        requires
            self.wf(),
            on_boundary(self@, offset.0 as int),
        ensures
            col == graphemes_from(
                self@.subrange(line_start(self@, line_of(self@, offset.0 as int)), offset.0 as int),
                0,
            ),
    {
        let line = self.byte_to_line(offset);
        let start = self.line_to_byte(line);
        let s = self.slice(&(start..offset));
        let st = s.as_str();
        count_graphemes(st)
    }
}

/// Every recorded batch inserts UTF-8 text and keeps at least one cursor.
pub open spec fn history_ok(h: Seq<(Seq<EditView>, Seq<Cursor>, usize)>) -> bool {
    forall|i: int| 0 <= i < h.len() ==> #[trigger] entry_ok(h[i])
}

/// A recorded batch inserts UTF-8 text and keeps at least one cursor.
pub open spec fn entry_ok(e: (Seq<EditView>, Seq<Cursor>, usize)) -> bool {
    inserts_valid(e.0) && e.2 < e.1.len()
}

proof fn lemma_history_pop(h: Seq<(Seq<EditView>, Seq<Cursor>, usize)>)
    requires
        history_ok(h),
    ensures
        h.len() > 0 ==> history_ok(h.drop_last()),
        h.len() > 0 ==> entry_ok(h.last()),
{
    if h.len() > 0 {
        assert(entry_ok(h[h.len() - 1]));
        let d = h.drop_last();
        assert forall|i: int| 0 <= i < d.len() implies #[trigger] entry_ok(d[i]) by {
            assert(d[i] == h[i]);
            assert(entry_ok(h[i]));
        }
    }
}

proof fn lemma_history_push(h: Seq<(Seq<EditView>, Seq<Cursor>, usize)>, e: (Seq<EditView>, Seq<Cursor>, usize))
    requires
        history_ok(h),
        entry_ok(e),
    ensures
        history_ok(h.push(e)),
{
    assert forall|i: int| 0 <= i < h.push(e).len() implies #[trigger] entry_ok(h.push(e)[i]) by {
        if i < h.len() {
            assert(entry_ok(h[i]));
        }
    }
}

/// A cursor moved along with the edits of a batch.
pub open spec fn shift_cursor(es: Seq<EditView>, c: Cursor) -> Cursor {
    Cursor {
        offset: ByteOffset(shift_position(es, c.offset.0)),
        selection_from: match c.selection_from {
            Some(s) => Some(ByteOffset(shift_position(es, s.0))),
            None => None,
        },
        memorized_column: c.memorized_column,
    }
}

/// Where `o` ends up once the batch is applied: every insertion at or before
/// it pushes it right, every deletion that begins at or before it pulls it left.
fn shift_offset(edits: &EditBatch, o: usize, len: usize) -> (r: usize)
    requires
        o <= len,
        chained(edits@, len as int),
        len + inserted_before(edits@, edits@.len() as int) <= usize::MAX,
    ensures
        r == shift_position(edits@, o),
        r == shifted(edits@, o as int),
{
    let ghost es = edits@;
    let n = edits.len();
    let mut acc: usize = o;
    let mut i: usize = 0;
    proof {
        lemma_inserted_grows(es, 0, n as int);
    }
    while i < n
        invariant
            es == edits@,
            n == es.len(),
            o <= len,
            chained(es, len as int),
            len + inserted_before(es, n as int) <= usize::MAX,
            i <= n,
            acc == o + position_delta_before(es, o as int, i as int),
        decreases n - i,
    {
        proof {
            lemma_position_delta_bounds(es, o as int, i as int);
            lemma_inserted_grows(es, i + 1, n as int);
            lemma_deleted_bound(es, len as int, i as int);
            lemma_chain_within(es, len as int, i as int);
        }
        match edits.get(i) {
            Edit::Insert(offset, rope) => {
                if offset.0 <= o {
                    acc = acc + rope_len_bytes(rope);
                }
            },
            Edit::Delete(range) => {
                if range.start.0 <= o {
                    let end = if range.end.0 < o {
                        range.end.0
                    } else {
                        o
                    };
                    acc = acc - (end - range.start.0);
                }
            },
        }
        i = i + 1;
    }
    acc
}

/// The number of extended grapheme clusters in `s`.
pub fn count_graphemes(s: &str) -> (n: usize)
    ensures
        n == graphemes_from(s.spec_bytes(), 0),
{
    let len = s.as_bytes().len();
    let mut p: usize = 0;
    let mut count: usize = 0;
    assert(is_char_boundary(s.spec_bytes(), 0));
    while p < len
        invariant
            len == s.spec_bytes().len(),
            p <= len,
            is_char_boundary(s.spec_bytes(), p as int),
            count <= p,
            count + graphemes_from(s.spec_bytes(), p as int) == graphemes_from(s.spec_bytes(), 0),
        decreases len - p,
    {
        match next_boundary_in(s, p) {
            Some(n) => {
                count = count + 1;
                p = n;
            },
            None => {
                p = len;
            },
        }
    }
    count
}

/// `b1` is `b0` after the batch `e` was applied with the cursors `cs`,
/// primary `p`: the text is edited, the undo history records how to go
/// back to it and to those cursors, and the redo history stays.
pub open spec fn edits_recorded(b0: RopeBuffer, cs: Seq<Cursor>, p: usize, e: Seq<EditView>, b1: RopeBuffer) -> bool {
    &&& b1@ == apply_batch(b0@, e)
    &&& b1.spec_undo() == b0.spec_undo().push((truncate_deletions(sort_edits(inverse(b0@, e))), cs, p))
    &&& b1.spec_redo() == b0.spec_redo()
}

/// `b1` is `b0` after a step back through its undo history, or with `redo`
/// forward through its redo history, given the cursors `cs`, primary `p`;
/// `rcs`, `rp` are the cursors that come back. Where the history holds a
/// batch that fits the text, the text becomes what the batch gives, the
/// batch leaves its history, the other history records how to go back to
/// the text and `cs`, and the cursors recorded with the batch come back. A
/// batch that does not fit is dropped and `cs` comes back; an empty history
/// changes nothing.
pub open spec fn history_step(
    b0: RopeBuffer,
    cs: Seq<Cursor>,
    p: usize,
    b1: RopeBuffer,
    rcs: Seq<Cursor>,
    rp: usize,
    redo: bool,
) -> bool {
    let undos = b0.spec_undo();
    let redos = b0.spec_redo();
    let from = if redo {
        redos
    } else {
        undos
    };
    if from.len() == 0 {
        &&& b1@ == b0@
        &&& b1.spec_undo() == undos
        &&& b1.spec_redo() == redos
        &&& rcs == cs
        &&& rp == p
    } else {
        let top = from.last();
        let back = (truncate_deletions(sort_edits(inverse(b0@, top.0))), cs, p);
        if batch_fits(b0@, top.0) && apply_batch(b0@, top.0).len() <= usize::MAX {
            &&& b1@ == apply_batch(b0@, top.0)
            &&& rcs == top.1
            &&& rp == top.2
            &&& if redo {
                b1.spec_redo() == redos.drop_last() && b1.spec_undo() == undos.push(back)
            } else {
                b1.spec_undo() == undos.drop_last() && b1.spec_redo() == redos.push(back)
            }
        } else {
            &&& b1@ == b0@
            &&& rcs == cs
            &&& rp == p
            &&& if redo {
                b1.spec_redo() == redos.drop_last() && b1.spec_undo() == undos
            } else {
                b1.spec_undo() == undos.drop_last() && b1.spec_redo() == redos
            }
        }
    }
}

/// Undoing right after a batch of edits gives back the text, the cursors
/// and the primary cursor from before the edits, and the undo history; the
/// redo history then records how to redo the batch.
pub proof fn lemma_undo_after_edits(
    b0: RopeBuffer,
    cs0: Seq<Cursor>,
    p0: usize,
    e: Seq<EditView>,
    b1: RopeBuffer,
    cs1: Seq<Cursor>,
    p1: usize,
    b2: RopeBuffer,
    rcs: Seq<Cursor>,
    rp: usize,
)
    requires
        b0.wf(),
        batch_fits(b0@, e),
        b0@.len() + inserted_before(e, e.len() as int) <= usize::MAX,
        edits_recorded(b0, cs0, p0, e, b1),
        history_step(b1, cs1, p1, b2, rcs, rp, false),
    ensures
        b2@ == b0@,
        rcs == cs0,
        rp == p0,
        b2.spec_undo() == b0.spec_undo(),
        b2.spec_redo() == b0.spec_redo().push(
            (truncate_deletions(sort_edits(inverse(b1@, truncate_deletions(sort_edits(inverse(b0@, e)))))), cs1, p1),
        ),
{
    crate::batch::lemma_undo_restores(b0@, e);
    crate::batch::lemma_delta_split(e, e.len() as int);
    assert(b1.spec_undo().drop_last() =~= b0.spec_undo());
}

/// Redoing right after undoing a batch of edits gives back the edited text
/// and the cursors that were given to the undo.
pub proof fn lemma_redo_after_undo(
    b0: RopeBuffer,
    cs0: Seq<Cursor>,
    p0: usize,
    e: Seq<EditView>,
    b1: RopeBuffer,
    cs1: Seq<Cursor>,
    p1: usize,
    b2: RopeBuffer,
    rcs2: Seq<Cursor>,
    rp2: usize,
    b3: RopeBuffer,
    rcs3: Seq<Cursor>,
    rp3: usize,
)
    requires
        b0.wf(),
        batch_fits(b0@, e),
        b0@.len() + inserted_before(e, e.len() as int) <= usize::MAX,
        edits_recorded(b0, cs0, p0, e, b1),
        history_step(b1, cs1, p1, b2, rcs2, rp2, false),
        history_step(b2, rcs2, rp2, b3, rcs3, rp3, true),
    ensures
        b3@ == b1@,
        rcs3 == cs1,
        rp3 == p1,
        b3.spec_redo() == b1.spec_redo(),
{
    lemma_undo_after_edits(b0, cs0, p0, e, b1, cs1, p1, b2, rcs2, rp2);
    crate::batch::lemma_redo_restores(b0@, e);
    crate::batch::lemma_fits_chained(b0@, e);
    crate::batch::lemma_inverse(b0@, e);
    crate::batch::lemma_delta_split(e, e.len() as int);
    crate::batch::lemma_deleted_bound(e, b0@.len() as int, e.len() as int);
    assert(b2.spec_redo().drop_last() =~= b1.spec_redo());
}

} // verus!
