//! Searching the text of a buffer, and moving the cursors to what is found.
use crate::cursor::{Cursor, MultiCursor};
use crate::ropebuffer::RopeBuffer;
use crate::types::ByteOffset;
use vstd::prelude::*;
use vstd::string::StringSliceAdditionalSpecFns;

verus! {

/// `s` occurs in `t` at byte `p`.
pub open spec fn matches_at(t: Seq<u8>, p: int, s: Seq<u8>) -> bool {
    0 <= p && p + s.len() <= t.len() && t.subrange(p, p + s.len()) == s
}

/// The first byte from `p` on where `s` occurs.
pub open spec fn first_match_from(t: Seq<u8>, p: int, s: Seq<u8>) -> Option<int>
    decreases t.len() - p,
{
    if p < 0 || p >= t.len() {
        None
    } else if matches_at(t, p, s) {
        Some(p)
    } else {
        first_match_from(t, p + 1, s)
    }
}

/// The last byte before `p` where `s` occurs.
pub open spec fn last_match_below(t: Seq<u8>, p: int, s: Seq<u8>) -> Option<int>
    decreases p,
{
    if p <= 0 {
        None
    } else if matches_at(t, p - 1, s) {
        Some(p - 1)
    } else {
        last_match_below(t, p - 1, s)
    }
}

/// Where searching forward from `start` finds a non-empty `s`: the first
/// occurrence that begins at or after `start`.
pub open spec fn spec_find_next(t: Seq<u8>, start: int, s: Seq<u8>) -> Option<int> {
    if s.len() == 0 {
        None
    } else {
        first_match_from(t, start, s)
    }
}

/// Where searching forward from `start` finds a non-empty `s`, and else
/// searching again from the start of the text.
pub open spec fn spec_find_next_cycle(t: Seq<u8>, start: int, s: Seq<u8>) -> Option<int> {
    match spec_find_next(t, start, s) {
        Some(o) => Some(o),
        None => spec_find_next(t, 0, s),
    }
}

/// Where searching backward from `start` finds a non-empty `s`: the last
/// occurrence that ends at or before `start`.
pub open spec fn spec_find_prev(t: Seq<u8>, start: int, s: Seq<u8>) -> Option<int> {
    if s.len() == 0 || start + 1 < s.len() {
        None
    } else {
        last_match_below(t, start - s.len() + 1, s)
    }
}

/// The positions from `from` up to before `to` that hold byte `c`, in order.
pub open spec fn byte_positions(t: Seq<u8>, from: int, to: int, c: u8) -> Seq<int>
    decreases to - from,
{
    if to <= from {
        Seq::empty()
    } else if t[to - 1] == c {
        byte_positions(t, from, to - 1, c).push(to - 1)
    } else {
        byte_positions(t, from, to - 1, c)
    }
}

/// The positions before `from` that hold byte `c`, nearest first.
pub open spec fn byte_positions_back(t: Seq<u8>, from: int, c: u8) -> Seq<int>
    decreases from,
{
    if from <= 0 {
        Seq::empty()
    } else if t[from - 1] == c {
        seq![from - 1] + byte_positions_back(t, from - 1, c)
    } else {
        byte_positions_back(t, from - 1, c)
    }
}

/// The offsets, as integers.
pub open spec fn offsets(v: Seq<ByteOffset>) -> Seq<int> {
    v.map_values(|b: ByteOffset| b.0 as int)
}

/// A cursor selecting the match of length `n` at `o`.
pub open spec fn match_cursor(o: int, n: int) -> Cursor {
    Cursor {
        offset: ByteOffset(o as usize),
        selection_from: Some(ByteOffset((o + n) as usize)),
        memorized_column: None,
    }
}

/// The higher end of a cursor.
pub open spec fn high_end(c: Cursor) -> int {
    match c.selection_from {
        Some(s) => if c.offset.0 < s.0 {
            s.0 as int
        } else {
            c.offset.0 as int
        },
        None => c.offset.0 as int,
    }
}

/// The lower end of a cursor.
pub open spec fn low_end(c: Cursor) -> int {
    match c.selection_from {
        Some(s) => if s.0 < c.offset.0 {
            s.0 as int
        } else {
            c.offset.0 as int
        },
        None => c.offset.0 as int,
    }
}

/// Searching forward from the cursors `i..`: each cursor past the last match
/// searches from its higher end and selects what it finds. `None` when no
/// match has been found by the time a cursor is done.
pub open spec fn search_forward(
    t: Seq<u8>,
    s: Seq<u8>,
    cs: Seq<Cursor>,
    i: int,
    prev: Option<int>,
    found: Seq<Cursor>,
) -> Option<Seq<Cursor>>
    decreases cs.len() - i,
{
    if i < 0 || i >= cs.len() {
        Some(found)
    } else {
        let start = high_end(cs[i]);
        let step = match prev {
            Some(p) => start > p,
            None => true,
        };
        let (prev2, found2) = if step {
            match spec_find_next(t, start, s) {
                Some(o) => (Some(o), found.push(match_cursor(o, s.len() as int))),
                None => (prev, found),
            }
        } else {
            (prev, found)
        };
        if prev2 is None {
            None
        } else {
            search_forward(t, s, cs, i + 1, prev2, found2)
        }
    }
}

/// Searching backward from the cursors `i` down to `0`: each cursor before
/// the last match searches from its lower end and selects what it finds.
pub open spec fn search_backward(
    t: Seq<u8>,
    s: Seq<u8>,
    cs: Seq<Cursor>,
    i: int,
    prev: Option<int>,
    found: Seq<Cursor>,
) -> Option<Seq<Cursor>>
    decreases i,
{
    if i <= 0 || i > cs.len() {
        Some(found)
    } else {
        let start = low_end(cs[i - 1]);
        let step = match prev {
            Some(p) => start < p,
            None => true,
        };
        let (prev2, found2) = if step {
            match spec_find_prev(t, start, s) {
                Some(o) => (Some(o), found.push(match_cursor(o, s.len() as int))),
                None => (prev, found),
            }
        } else {
            (prev, found)
        };
        if prev2 is None {
            None
        } else {
            search_backward(t, s, cs, i - 1, prev2, found2)
        }
    }
}

/// The first cursor that lies after `o`, or the first cursor.
pub open spec fn first_after(cs: Seq<Cursor>, o: int, i: int) -> int
    decreases cs.len() - i,
{
    if i < 0 || i >= cs.len() {
        0
    } else if cs[i].offset.0 > o {
        i
    } else {
        first_after(cs, o, i + 1)
    }
}

/// A match found forward lies within the text.
proof fn lemma_first_match_fits(t: Seq<u8>, p: int, s: Seq<u8>)
    ensures
        first_match_from(t, p, s) matches Some(o) ==> matches_at(t, o, s) && p <= o,
    decreases t.len() - p,
{
    if 0 <= p < t.len() && !matches_at(t, p, s) {
        lemma_first_match_fits(t, p + 1, s);
    }
}

/// A match found backward lies within the text, before where it started.
proof fn lemma_last_match_fits(t: Seq<u8>, p: int, s: Seq<u8>)
    ensures
        last_match_below(t, p, s) matches Some(o) ==> matches_at(t, o, s) && o < p,
    decreases p,
{
    if p > 0 && !matches_at(t, p - 1, s) {
        lemma_last_match_fits(t, p - 1, s);
    }
}

/// The index of the first cursor after `o`, or `0`.
fn first_after_index(cs: &Vec<Cursor>, o: usize) -> (r: usize)
    ensures
        r == first_after(cs@, o as int, 0),
{
    let mut k: usize = 0;
    while k < cs.len()
        invariant
            k <= cs@.len(),
            first_after(cs@, o as int, 0) == first_after(cs@, o as int, k as int),
        decreases cs@.len() - k,
    {
        if cs[k].offset.0 > o {
            return k;
        }
        k = k + 1;
    }
    0
}

/// The first cursor after `o` is one of the cursors.
proof fn lemma_first_after_bound(cs: Seq<Cursor>, o: int, i: int)
    requires
        cs.len() > 0,
    ensures
        0 <= first_after(cs, o, i) < cs.len(),
    decreases cs.len() - i,
{
    if 0 <= i < cs.len() && cs[i].offset.0 <= o {
        lemma_first_after_bound(cs, o, i + 1);
    }
}

impl RopeBuffer {
    /// Whether `s` occurs at byte `p`.
    fn matches_at(&self, p: usize, s: &[u8]) -> (r: bool)
        ensures
            r == matches_at(self@, p as int, s@),
    {
        let len = self.len_bytes();
        if p > len || s.len() > len - p {
            return false;
        }
        let mut k: usize = 0;
        while k < s.len()
            invariant
                len == self@.len(),
                p + s@.len() <= len,
                k <= s@.len(),
                self@.subrange(p as int, p + k) == s@.subrange(0, k as int),
            decreases s@.len() - k,
        {
            if self.byte(ByteOffset(p + k)) != s[k] {
                proof {
                    assert(self@.subrange(p as int, p + s@.len())[k as int] != s@[k as int]);
                }
                return false;
            }
            proof {
                assert(self@.subrange(p as int, p + k + 1) =~= self@.subrange(p as int, p + k).push(
                    self@[p + k],
                ));
                assert(s@.subrange(0, k + 1) =~= s@.subrange(0, k as int).push(s@[k as int]));
            }
            k = k + 1;
        }
        proof {
            assert(s@.subrange(0, s@.len() as int) =~= s@);
        }
        true
    }

    /// The first occurrence of `s` at or after `start`; `None` for an empty `s`.
    pub fn find_next(&self, start: ByteOffset, s: &str) -> (r: Option<ByteOffset>)
        requires
            start.0 <= self@.len(),
        ensures
            r matches Some(o) ==> spec_find_next(self@, start.0 as int, s.spec_bytes()) == Some(
                o.0 as int,
            ),
            r is None ==> spec_find_next(self@, start.0 as int, s.spec_bytes()) is None,
    {
        let bytes = s.as_bytes();
        if bytes.len() == 0 {
            return None;
        }
        let len = self.len_bytes();
        let mut p = start.0;
        while p < len
            invariant
                len == self@.len(),
                start.0 <= p <= len,
                bytes@ == s.spec_bytes(),
                bytes@.len() > 0,
                first_match_from(self@, start.0 as int, bytes@) == first_match_from(self@, p as int, bytes@),
            decreases len - p,
        {
            if self.matches_at(p, bytes) {
                return Some(ByteOffset(p));
            }
            p = p + 1;
        }
        None
    }

    /// The last occurrence of `s` that ends at or before `start`; `None` for
    /// an empty `s`.
    pub fn find_prev(&self, start: ByteOffset, s: &str) -> (r: Option<ByteOffset>)
        requires
            start.0 <= self@.len(),
        ensures
            r matches Some(o) ==> spec_find_prev(self@, start.0 as int, s.spec_bytes()) == Some(
                o.0 as int,
            ),
            r is None ==> spec_find_prev(self@, start.0 as int, s.spec_bytes()) is None,
    {
        let bytes = s.as_bytes();
        if bytes.len() == 0 {
            return None;
        }
        if start.0 < bytes.len() - 1 {
            return None;
        }
        let first_possible_start = start.0 - (bytes.len() - 1);
        let mut p = first_possible_start;
        while p > 0
            invariant
                p <= first_possible_start,
                first_possible_start + bytes@.len() - 1 == start.0,
                bytes@ == s.spec_bytes(),
                bytes@.len() > 0,
                last_match_below(self@, first_possible_start as int, bytes@) == last_match_below(self@, p as int, bytes@),
            decreases p,
        {
            if self.matches_at(p - 1, bytes) {
                return Some(ByteOffset(p - 1));
            }
            p = p - 1;
        }
        None
    }

    /// The first occurrence of `s` at or after `start`, or else from the start
    /// of the text.
    pub fn find_next_cycle(&self, start: ByteOffset, s: &str) -> (r: Option<ByteOffset>)
        requires
            start.0 <= self@.len(),
        ensures
            r matches Some(o) ==> spec_find_next_cycle(self@, start.0 as int, s.spec_bytes()) == Some(
                o.0 as int,
            ),
            r is None ==> spec_find_next_cycle(self@, start.0 as int, s.spec_bytes()) is None,
    {
        match self.find_next(start, s) {
            Some(o) => Some(o),
            None => self.find_next(ByteOffset(0), s),
        }
    }

    /// The positions at or after `from` that hold byte `c`, in order.
    pub fn find_byte_positions_from(&self, from: ByteOffset, c: u8) -> (r: Vec<ByteOffset>)
        requires
            from.0 <= self@.len(),
        ensures
            offsets(r@) == byte_positions(self@, from.0 as int, self@.len() as int, c),
    {
        let len = self.len_bytes();
        let mut out: Vec<ByteOffset> = Vec::new();
        let mut p = from.0;
        while p < len
            invariant
                len == self@.len(),
                from.0 <= p <= len,
                offsets(out@) == byte_positions(self@, from.0 as int, p as int, c),
            decreases len - p,
        {
            let ghost before = out@;
            if self.byte(ByteOffset(p)) == c {
                out.push(ByteOffset(p));
            }
            proof {
                assert(offsets(out@) =~= byte_positions(self@, from.0 as int, p + 1, c));
            }
            p = p + 1;
        }
        out
    }

    /// The positions before `from` that hold byte `c`, nearest first.
    pub fn find_byte_positions_backwards_from(&self, from: ByteOffset, c: u8) -> (r: Vec<ByteOffset>)
        requires
            from.0 <= self@.len(),
        ensures
            offsets(r@) == byte_positions_back(self@, from.0 as int, c),
    {
        let mut out: Vec<ByteOffset> = Vec::new();
        let mut p = from.0;
        while p > 0
            invariant
                p <= from.0 <= self@.len(),
                offsets(out@) + byte_positions_back(self@, p as int, c) == byte_positions_back(
                    self@,
                    from.0 as int,
                    c,
                ),
            decreases p,
        {
            let ghost before = out@;
            if self.byte(ByteOffset(p - 1)) == c {
                out.push(ByteOffset(p - 1));
                proof {
                    assert(offsets(out@) =~= offsets(before).push(p - 1));
                    assert(offsets(before) + byte_positions_back(self@, p as int, c) =~= offsets(out@)
                        + byte_positions_back(self@, p - 1, c));
                }
            }
            p = p - 1;
        }
        proof {
            assert(offsets(out@) + Seq::<int>::empty() =~= offsets(out@));
        }
        out
    }

    /// The first match at or after each cursor's higher end (a cursor that
    /// lies before the previous match is skipped) becomes a selecting cursor;
    /// the primary one is the first that lies after the old primary cursor.
    /// When the first cursors find nothing, the cursors stay as they are.
    pub fn search_with_cursors(&self, cursors: &mut MultiCursor, s: &str)
        requires
            old(cursors).wf(),
            forall|i: int| 0 <= i < old(cursors).cursors@.len() ==> high_end(#[trigger] old(cursors).cursors@[i]) <= self@.len(),
        ensures
            final(cursors).wf(),
            match search_forward(self@, s.spec_bytes(), old(cursors).cursors@, 0, None, Seq::empty()) {
                None => *final(cursors) == *old(cursors),
                Some(found) => final(cursors).cursors@ == found && final(cursors).primary_index
                    == first_after(found, old(cursors).spec_primary().offset.0 as int, 0),
            },
    {
        let ghost t = self@;
        let ghost sb = s.spec_bytes();
        let ghost cs = cursors.cursors@;
        let _len = self.len_bytes();
        let mut prev_found: Option<ByteOffset> = None;
        let mut new_cursors: Vec<Cursor> = Vec::new();
        let n = cursors.cursors.len();
        let mut i: usize = 0;
        while i < n
            invariant
                t == self@,
                t.len() <= usize::MAX,
                sb == s.spec_bytes(),
                cs == cursors.cursors@,
                *cursors == *old(cursors),
                cursors.wf(),
                n == cs.len(),
                i <= n,
                forall|k: int| 0 <= k < cs.len() ==> high_end(#[trigger] cs[k]) <= t.len(),
                i > 0 ==> prev_found is Some,
                prev_found is Some ==> new_cursors@.len() > 0,
                search_forward(t, sb, cs, 0, None, Seq::empty()) == search_forward(
                    t,
                    sb,
                    cs,
                    i as int,
                    match prev_found {
                        Some(p) => Some(p.0 as int),
                        None => None,
                    },
                    new_cursors@,
                ),
            decreases n - i,
        {
            let c = cursors.cursors[i];
            proof {
                assert(high_end(cs[i as int]) <= t.len());
            }
            let start = match c.selection_from {
                Some(sel) => if c.offset.0 < sel.0 {
                    sel
                } else {
                    c.offset
                },
                None => c.offset,
            };
            let step = match prev_found {
                Some(p) => start.0 > p.0,
                None => true,
            };
            if step {
                match self.find_next(start, s) {
                    Some(offset) => {
                        prev_found = Some(offset);
                        proof {
                            assert(first_match_from(t, start.0 as int, sb) == Some(offset.0 as int));
                            lemma_first_match_fits(t, start.0 as int, sb);
                        }
                        let match_end = ByteOffset(offset.0 + s.len());
                        let found = Cursor::new_with_selection(offset, Some(match_end));
                        proof {
                            assert(found == match_cursor(offset.0 as int, sb.len() as int));
                        }
                        new_cursors.push(found);
                    },
                    None => {},
                }
            }
            if prev_found.is_none() {
                return;
            }
            i = i + 1;
        }
        let primary_offset = cursors.primary().offset;
        let new_primary = first_after_index(&new_cursors, primary_offset.0);
        proof {
            lemma_first_after_bound(new_cursors@, primary_offset.0 as int, 0);
        }
        cursors.set_cursors(new_primary, new_cursors);
    }

    /// Searching backward: going through the cursors from the last, the last
    /// match that ends at or before each cursor's lower end (a cursor that
    /// lies after the previous match is skipped) becomes a selecting cursor;
    /// the primary one is the first of them that lies after the old primary
    /// cursor. When the last cursors find nothing, the cursors stay as they are.
    pub fn search_with_cursors_backward(&self, cursors: &mut MultiCursor, s: &str)
        requires
            old(cursors).wf(),
            forall|i: int| 0 <= i < old(cursors).cursors@.len() ==> low_end(#[trigger] old(cursors).cursors@[i]) <= self@.len(),
        ensures
            final(cursors).wf(),
            match search_backward(self@, s.spec_bytes(), old(cursors).cursors@, old(cursors).cursors@.len() as int, None, Seq::empty()) {
                None => *final(cursors) == *old(cursors),
                Some(found) => final(cursors).cursors@ == found && final(cursors).primary_index
                    == first_after(found, old(cursors).spec_primary().offset.0 as int, 0),
            },
    {
        let ghost t = self@;
        let ghost sb = s.spec_bytes();
        let ghost cs = cursors.cursors@;
        let _len = self.len_bytes();
        let mut prev_found: Option<ByteOffset> = None;
        let mut new_cursors: Vec<Cursor> = Vec::new();
        let n = cursors.cursors.len();
        let mut i: usize = n;
        while i > 0
            invariant
                t == self@,
                t.len() <= usize::MAX,
                sb == s.spec_bytes(),
                cs == cursors.cursors@,
                *cursors == *old(cursors),
                cursors.wf(),
                n == cs.len(),
                i <= n,
                forall|k: int| 0 <= k < cs.len() ==> low_end(#[trigger] cs[k]) <= t.len(),
                i < n ==> prev_found is Some,
                prev_found is Some ==> new_cursors@.len() > 0,
                search_backward(t, sb, cs, n as int, None, Seq::empty()) == search_backward(
                    t,
                    sb,
                    cs,
                    i as int,
                    match prev_found {
                        Some(p) => Some(p.0 as int),
                        None => None,
                    },
                    new_cursors@,
                ),
            decreases i,
        {
            let c = cursors.cursors[i - 1];
            proof {
                assert(low_end(cs[i - 1]) <= t.len());
            }
            let start = match c.selection_from {
                Some(sel) => if sel.0 < c.offset.0 {
                    sel
                } else {
                    c.offset
                },
                None => c.offset,
            };
            let step = match prev_found {
                Some(p) => start.0 < p.0,
                None => true,
            };
            if step {
                match self.find_prev(start, s) {
                    Some(offset) => {
                        prev_found = Some(offset);
                        proof {
                            lemma_last_match_fits(t, start.0 - sb.len() + 1, sb);
                        }
                        let match_end = ByteOffset(offset.0 + s.len());
                        let found = Cursor::new_with_selection(offset, Some(match_end));
                        proof {
                            assert(found == match_cursor(offset.0 as int, sb.len() as int));
                        }
                        new_cursors.push(found);
                    },
                    None => {},
                }
            }
            if prev_found.is_none() {
                return;
            }
            i = i - 1;
        }
        let primary_offset = cursors.primary().offset;
        let new_primary = first_after_index(&new_cursors, primary_offset.0);
        proof {
            lemma_first_after_bound(new_cursors@, primary_offset.0 as int, 0);
        }
        cursors.set_cursors(new_primary, new_cursors);
    }


}

} // verus!
