//! The batches of edits that editing commands make at every cursor.
use crate::cursor::{spec_left, spec_right, spec_selection, spec_word_left, spec_line_span, Cursor, MultiCursor};
use crate::editing::{all_fit, batch_fits, edit_fits, sort_edits, truncate_deletions, views, Edit, EditBatch, EditView};
use crate::ropebuffer::{line_count, line_start, RopeBuffer};
use crate::strings::push_str;
use crate::text::{lemma_boundary_by_byte, on_boundary};
use crate::types::ByteOffset;
use vstd::prelude::*;
use vstd::string::StringSliceAdditionalSpecFns;
use vstd::utf8::*;

verus! {

broadcast use group_utf8_lib;

/// Every cursor of `cs` is valid in `t`.
pub open spec fn cursors_valid(cs: Seq<Cursor>, t: Seq<u8>) -> bool {
    forall|i: int| 0 <= i < cs.len() ==> #[trigger] cs[i].valid_in(t)
}

/// The deletion of a cursor's selection, if it has one.
pub open spec fn selection_edits(c: Cursor) -> Seq<EditView> {
    match spec_selection(c) {
        Some((a, b)) => seq![EditView::Delete(a, b)],
        None => Seq::empty(),
    }
}

/// Typing `s` at a cursor: inserting it, and deleting the selection.
pub open spec fn insert_at(c: Cursor, s: Seq<u8>) -> Seq<EditView> {
    seq![EditView::Insert(c.offset.0 as int, s)] + selection_edits(c)
}

/// Typing `s` at the first `n` cursors.
pub open spec fn insert_edits(cs: Seq<Cursor>, s: Seq<u8>, n: int) -> Seq<EditView>
    decreases n,
{
    if n <= 0 {
        Seq::empty()
    } else {
        insert_edits(cs, s, n - 1) + insert_at(cs[n - 1], s)
    }
}

/// Pasting the `i`-th clip at the `i`-th cursor, for the first `n` cursors.
pub open spec fn clip_edits(cs: Seq<Cursor>, clips: Seq<Seq<u8>>, n: int) -> Seq<EditView>
    decreases n,
{
    if n <= 0 {
        Seq::empty()
    } else {
        clip_edits(cs, clips, n - 1) + insert_at(cs[n - 1], clips[n - 1])
    }
}

/// All the clips, one after the other.
pub open spec fn joined(clips: Seq<Seq<char>>, n: int) -> Seq<char>
    decreases n,
{
    if n <= 0 {
        Seq::empty()
    } else {
        joined(clips, n - 1) + clips[n - 1]
    }
}

/// Backspace at a cursor: its selection, or the grapheme cluster before it.
pub open spec fn backward_at(t: Seq<u8>, c: Cursor) -> Seq<EditView> {
    match spec_selection(c) {
        Some((a, b)) => seq![EditView::Delete(a, b)],
        None => {
            let b = c.offset.0 as int;
            let a = spec_left(t, b, 1);
            if a != b {
                seq![EditView::Delete(a, b)]
            } else {
                Seq::empty()
            }
        },
    }
}

/// Backspace at the first `n` cursors.
pub open spec fn backward_edits(t: Seq<u8>, cs: Seq<Cursor>, n: int) -> Seq<EditView>
    decreases n,
{
    if n <= 0 {
        Seq::empty()
    } else {
        backward_edits(t, cs, n - 1) + backward_at(t, cs[n - 1])
    }
}

/// Delete at a cursor: its selection, or the grapheme cluster after it.
pub open spec fn forward_at(t: Seq<u8>, c: Cursor) -> Seq<EditView> {
    match spec_selection(c) {
        Some((a, b)) => seq![EditView::Delete(a, b)],
        None => {
            let a = c.offset.0 as int;
            let b = spec_right(t, a, 1);
            if a != b {
                seq![EditView::Delete(a, b)]
            } else {
                Seq::empty()
            }
        },
    }
}

/// Delete at a cursor without a selection removes exactly one grapheme
/// cluster: the text from the cursor to the next grapheme cluster boundary
/// after it; where there is none, at the end of the text, nothing. With
/// that cursor alone, the batch is that deletion.
pub proof fn lemma_delete_forward_one_cluster(t: Seq<u8>, c: Cursor)
    requires
        spec_selection(c) is None,
    ensures
        ({
            let a = c.offset.0 as int;
            let expected = match crate::ropebuffer::next_boundary(t, a) {
                Some(b) => if b != a {
                    seq![EditView::Delete(a, b)]
                } else {
                    Seq::empty()
                },
                None => Seq::empty(),
            };
            &&& forward_at(t, c) == expected
            &&& forward_edits(t, seq![c], 1) == expected
        }),
{
    let a = c.offset.0 as int;
    match crate::ropebuffer::next_boundary(t, a) {
        Some(b) => {
            assert(spec_right(t, a, 1) == spec_right(t, b, 0));
        },
        None => {},
    }
    assert(forward_edits(t, seq![c], 0) =~= Seq::<EditView>::empty());
    assert(forward_edits(t, seq![c], 1) =~= forward_at(t, c));
}

/// Delete at the first `n` cursors.
pub open spec fn forward_edits(t: Seq<u8>, cs: Seq<Cursor>, n: int) -> Seq<EditView>
    decreases n,
{
    if n <= 0 {
        Seq::empty()
    } else {
        forward_edits(t, cs, n - 1) + forward_at(t, cs[n - 1])
    }
}

/// Deleting a word back from a cursor: its selection, or the text back to
/// the previous word boundary; when that is a single space, the word
/// before it goes too.
pub open spec fn word_at(t: Seq<u8>, c: Cursor) -> Seq<EditView> {
    match spec_selection(c) {
        Some((a, b)) => seq![EditView::Delete(a, b)],
        None => {
            let b = c.offset.0 as int;
            let a = spec_word_left(t, b);
            if a + 1 == b && t[a] == 0x20u8 {
                seq![EditView::Delete(spec_word_left(t, a), b)]
            } else {
                seq![EditView::Delete(a, b)]
            }
        },
    }
}

/// Deleting a word back from the first `n` cursors.
pub open spec fn word_edits(t: Seq<u8>, cs: Seq<Cursor>, n: int) -> Seq<EditView>
    decreases n,
{
    if n <= 0 {
        Seq::empty()
    } else {
        word_edits(t, cs, n - 1) + word_at(t, cs[n - 1])
    }
}

/// Inserting `s` at the start of each line from `from` to before `to`.
pub open spec fn line_inserts(t: Seq<u8>, from: int, to: int, s: Seq<u8>) -> Seq<EditView>
    decreases to - from,
{
    if to <= from {
        Seq::empty()
    } else {
        line_inserts(t, from, to - 1, s).push(EditView::Insert(line_start(t, to - 1), s))
    }
}

/// Indenting the lines of the first `n` cursors.
pub open spec fn indent_edits(t: Seq<u8>, cs: Seq<Cursor>, n: int, s: Seq<u8>) -> Seq<EditView>
    decreases n,
{
    if n <= 0 {
        Seq::empty()
    } else {
        let span = spec_line_span(t, cs[n - 1]);
        indent_edits(t, cs, n - 1, s) + line_inserts(t, span.0, span.1, s)
    }
}

/// Where a dedent from `p` stops: after spaces (each one column wide) and
/// tabs (each `tab` columns wide) until `width` columns are removed.
pub open spec fn dedent_end(t: Seq<u8>, p: int, removed: int, width: int, tab: int) -> int
    decreases t.len() - p,
{
    if removed >= width || p < 0 || p >= t.len() {
        p
    } else if t[p] == 0x20u8 {
        dedent_end(t, p + 1, removed + 1, width, tab)
    } else if t[p] == 0x09u8 {
        dedent_end(t, p + 1, removed + tab, width, tab)
    } else {
        p
    }
}

/// Dedenting each line from `from` to before `to`.
pub open spec fn line_dedents(t: Seq<u8>, from: int, to: int, width: int, tab: int) -> Seq<EditView>
    decreases to - from,
{
    if to <= from {
        Seq::empty()
    } else {
        let s = line_start(t, to - 1);
        line_dedents(t, from, to - 1, width, tab).push(
            EditView::Delete(s, dedent_end(t, s, 0, width, tab)),
        )
    }
}

/// Dedenting the lines of the first `n` cursors.
pub open spec fn dedent_edits(t: Seq<u8>, cs: Seq<Cursor>, n: int, width: int, tab: int) -> Seq<EditView>
    decreases n,
{
    if n <= 0 {
        Seq::empty()
    } else {
        let span = spec_line_span(t, cs[n - 1]);
        dedent_edits(t, cs, n - 1, width, tab) + line_dedents(t, span.0, span.1, width, tab)
    }
}

/// Appending edits that fit a text to edits that fit it.
proof fn lemma_fit_append(t: Seq<u8>, a: Seq<EditView>, b: Seq<EditView>)
    requires
        all_fit(t, a),
        all_fit(t, b),
    ensures
        all_fit(t, a + b),
{
    assert forall|i: int| 0 <= i < (a + b).len() implies #[trigger] edit_fits(t, (a + b)[i]) by {
        if i < a.len() {
            assert(edit_fits(t, a[i]));
        } else {
            assert(edit_fits(t, b[i - a.len()]));
        }
    }
}

/// The selection of a valid cursor fits the text.
proof fn lemma_selection_fits(t: Seq<u8>, c: Cursor)
    requires
        c.valid_in(t),
    ensures
        all_fit(t, selection_edits(c)),
{
}

/// Typing valid text at valid cursors gives edits that fit.
pub(crate) proof fn lemma_insert_edits_fit(t: Seq<u8>, cs: Seq<Cursor>, s: Seq<u8>, n: int)
    requires
        cursors_valid(cs, t),
        valid_utf8(s),
        n <= cs.len(),
    ensures
        all_fit(t, insert_edits(cs, s, n)),
    decreases n,
{
    if n > 0 {
        lemma_insert_edits_fit(t, cs, s, n - 1);
        assert(cs[n - 1].valid_in(t));
        lemma_selection_fits(t, cs[n - 1]);
        assert(all_fit(t, seq![EditView::Insert(cs[n - 1].offset.0 as int, s)]));
        lemma_fit_append(t, seq![EditView::Insert(cs[n - 1].offset.0 as int, s)], selection_edits(cs[n - 1]));
        lemma_fit_append(t, insert_edits(cs, s, n - 1), insert_at(cs[n - 1], s));
    }
}

/// Pasting valid clips at valid cursors gives edits that fit.
proof fn lemma_clip_edits_fit(t: Seq<u8>, cs: Seq<Cursor>, clips: Seq<Seq<u8>>, n: int)
    requires
        cursors_valid(cs, t),
        forall|i: int| 0 <= i < clips.len() ==> valid_utf8(#[trigger] clips[i]),
        n <= cs.len(),
        n <= clips.len(),
    ensures
        all_fit(t, clip_edits(cs, clips, n)),
    decreases n,
{
    if n > 0 {
        lemma_clip_edits_fit(t, cs, clips, n - 1);
        assert(cs[n - 1].valid_in(t));
        assert(valid_utf8(clips[n - 1]));
        lemma_selection_fits(t, cs[n - 1]);
        let ins = seq![EditView::Insert(cs[n - 1].offset.0 as int, clips[n - 1])];
        assert(all_fit(t, ins));
        lemma_fit_append(t, ins, selection_edits(cs[n - 1]));
        lemma_fit_append(t, clip_edits(cs, clips, n - 1), insert_at(cs[n - 1], clips[n - 1]));
    }
}

/// After an ASCII byte at a boundary comes another boundary.
pub(crate) proof fn lemma_ascii_step(t: Seq<u8>, p: int)
    requires
        valid_utf8(t),
        on_boundary(t, p),
        p < t.len(),
        t[p] < 0x80u8,
    ensures
        on_boundary(t, p + 1),
{
    let rest = t.subrange(p, t.len() as int);
    assert(valid_utf8(rest));
    assert(rest[0] == t[p]);
    assert(length_of_first_scalar(rest) == 1);
    let tail = t.subrange(p + 1, t.len() as int);
    assert(pop_first_scalar(rest) =~= tail);
    assert(valid_utf8(tail));
    lemma_boundary_by_byte(t, p + 1);
    if p + 1 < t.len() {
        assert(valid_first_scalar(tail));
        assert(tail[0] == t[p + 1]);
        assert(!is_continuation_byte(t[p + 1]));
    }
}

impl EditBatch {
    /// Typing `s` at every cursor: it is inserted at each cursor, and each
    /// selection is deleted.
    pub fn insert_with_cursors(cursors: &MultiCursor, s: &str) -> (b: EditBatch)
        ensures
            b@ == truncate_deletions(
                sort_edits(insert_edits(cursors.cursors@, s.spec_bytes(), cursors.cursors@.len() as int)),
            ),
            forall|t: Seq<u8>| #[trigger] cursors_valid(cursors.cursors@, t) ==> batch_fits(t, b@),
    {
        let ghost cs = cursors.cursors@;
        let n = cursors.cursors.len();
        let mut edits: Vec<Edit> = Vec::new();
        let mut i: usize = 0;
        while i < n
            invariant
                cs == cursors.cursors@,
                n == cs.len(),
                i <= n,
                views(edits@) == insert_edits(cs, s.spec_bytes(), i as int),
            decreases n - i,
        {
            let c = cursors.cursors[i];
            let ghost before = views(edits@);
            edits.push(Edit::insert_str(c.offset, s));
            match c.selection() {
                Some(sel) => {
                    edits.push(Edit::Delete(sel));
                },
                None => {},
            }
            proof {
                assert(views(edits@) =~= before + insert_at(cs[i as int], s.spec_bytes()));
            }
            i = i + 1;
        }
        let b = EditBatch::from_edits(edits);
        proof {
            assert forall|t: Seq<u8>| #[trigger] cursors_valid(cs, t) implies batch_fits(t, b@) by {
                lemma_insert_edits_fit(t, cs, s.spec_bytes(), n as int);
            }
        }
        b
    }

    /// Pasting: with as many clips as cursors, each cursor gets its own clip;
    /// otherwise every cursor gets all the clips joined together.
    pub fn insert_from_clipboard(cursors: &MultiCursor, clips: &[String]) -> (b: EditBatch)
        ensures
            clips@.len() == cursors.cursors@.len() ==> b@ == truncate_deletions(
                sort_edits(
                    clip_edits(
                        cursors.cursors@,
                        clips@.map_values(|c: String| encode_utf8(c@)),
                        cursors.cursors@.len() as int,
                    ),
                ),
            ),
            clips@.len() != cursors.cursors@.len() ==> b@ == truncate_deletions(
                sort_edits(
                    insert_edits(
                        cursors.cursors@,
                        encode_utf8(joined(clips@.map_values(|c: String| c@), clips@.len() as int)),
                        cursors.cursors@.len() as int,
                    ),
                ),
            ),
            forall|t: Seq<u8>| #[trigger] cursors_valid(cursors.cursors@, t) ==> batch_fits(t, b@),
    {
        let ghost cs = cursors.cursors@;
        let ghost bytes = clips@.map_values(|c: String| encode_utf8(c@));
        let n = cursors.cursors.len();
        if clips.len() == n {
            let mut edits: Vec<Edit> = Vec::new();
            let mut i: usize = 0;
            while i < n
                invariant
                    cs == cursors.cursors@,
                    n == cs.len(),
                    n == clips@.len(),
                    bytes == clips@.map_values(|c: String| encode_utf8(c@)),
                    i <= n,
                    views(edits@) == clip_edits(cs, bytes, i as int),
                decreases n - i,
            {
                let c = cursors.cursors[i];
                let ghost before = views(edits@);
                edits.push(Edit::insert_str(c.offset, clips[i].as_str()));
                match c.selection() {
                    Some(sel) => {
                        edits.push(Edit::Delete(sel));
                    },
                    None => {},
                }
                proof {
                    assert(bytes[i as int] == encode_utf8(clips@[i as int]@));
                    assert(views(edits@) =~= before + insert_at(cs[i as int], bytes[i as int]));
                }
                i = i + 1;
            }
            let b = EditBatch::from_edits(edits);
            proof {
                assert forall|t: Seq<u8>| #[trigger] cursors_valid(cs, t) implies batch_fits(t, b@) by {
                    assert forall|i: int| 0 <= i < bytes.len() implies valid_utf8(#[trigger] bytes[i]) by {
                        assert(bytes[i] == encode_utf8(clips@[i]@));
                    }
                    lemma_clip_edits_fit(t, cs, bytes, n as int);
                }
            }
            b
        } else {
            let ghost strs = clips@.map_values(|c: String| c@);
            let mut all = String::new();
            let mut k: usize = 0;
            while k < clips.len()
                invariant
                    strs == clips@.map_values(|c: String| c@),
                    k <= clips@.len(),
                    all@ == joined(strs, k as int),
                decreases clips@.len() - k,
            {
                push_str(&mut all, clips[k].as_str());
                proof {
                    assert(strs[k as int] == clips@[k as int]@);
                }
                k = k + 1;
            }
            EditBatch::insert_with_cursors(cursors, all.as_str())
        }
    }

    /// Backspace at every cursor: each selection is deleted, and each cursor
    /// without one deletes the grapheme cluster before it.
    pub fn delete_backward_with_cursors(cursors: &MultiCursor, content: &RopeBuffer) -> (b: EditBatch)
        requires
            content.wf(),
            cursors_valid(cursors.cursors@, content@),
        ensures
            b@ == truncate_deletions(
                sort_edits(backward_edits(content@, cursors.cursors@, cursors.cursors@.len() as int)),
            ),
            batch_fits(content@, b@),
    {
        let ghost cs = cursors.cursors@;
        let ghost t = content@;
        let n = cursors.cursors.len();
        let mut edits: Vec<Edit> = Vec::new();
        let mut i: usize = 0;
        while i < n
            invariant
                content.wf(),
                t == content@,
                cs == cursors.cursors@,
                cursors_valid(cs, t),
                n == cs.len(),
                i <= n,
                views(edits@) == backward_edits(t, cs, i as int),
                all_fit(t, views(edits@)),
            decreases n - i,
        {
            let c = cursors.cursors[i];
            proof {
                assert(cs[i as int].valid_in(t));
            }
            let ghost before = views(edits@);
            match c.selection() {
                Some(sel) => {
                    edits.push(Edit::Delete(sel));
                },
                None => {
                    let a = c.left(content, 1);
                    let b = c.offset;
                    if a.0 != b.0 {
                        edits.push(Edit::Delete(a..b));
                    }
                },
            }
            proof {
                assert(views(edits@) =~= before + backward_at(t, cs[i as int]));
                lemma_fit_append(t, before, backward_at(t, cs[i as int]));
            }
            i = i + 1;
        }
        EditBatch::from_edits(edits)
    }

    /// Delete at every cursor: each selection is deleted, and each cursor
    /// without one deletes the grapheme cluster after it.
    pub fn delete_forward_with_cursors(cursors: &MultiCursor, content: &RopeBuffer) -> (b: EditBatch)
        requires
            content.wf(),
            cursors_valid(cursors.cursors@, content@),
        ensures
            b@ == truncate_deletions(
                sort_edits(forward_edits(content@, cursors.cursors@, cursors.cursors@.len() as int)),
            ),
            batch_fits(content@, b@),
    {
        let ghost cs = cursors.cursors@;
        let ghost t = content@;
        let n = cursors.cursors.len();
        let mut edits: Vec<Edit> = Vec::new();
        let mut i: usize = 0;
        while i < n
            invariant
                content.wf(),
                t == content@,
                cs == cursors.cursors@,
                cursors_valid(cs, t),
                n == cs.len(),
                i <= n,
                views(edits@) == forward_edits(t, cs, i as int),
                all_fit(t, views(edits@)),
            decreases n - i,
        {
            let c = cursors.cursors[i];
            proof {
                assert(cs[i as int].valid_in(t));
            }
            let ghost before = views(edits@);
            match c.selection() {
                Some(sel) => {
                    edits.push(Edit::Delete(sel));
                },
                None => {
                    let a = c.offset;
                    let b = c.right(content, 1);
                    if a.0 != b.0 {
                        edits.push(Edit::Delete(a..b));
                    }
                },
            }
            proof {
                assert(views(edits@) =~= before + forward_at(t, cs[i as int]));
                lemma_fit_append(t, before, forward_at(t, cs[i as int]));
            }
            i = i + 1;
        }
        EditBatch::from_edits(edits)
    }

    /// Deleting a word back from every cursor: see `word_at`.
    pub fn delete_word_with_cursors(cursors: &MultiCursor, content: &RopeBuffer) -> (b: EditBatch)
        requires
            content.wf(),
            cursors_valid(cursors.cursors@, content@),
        ensures
            b@ == truncate_deletions(
                sort_edits(word_edits(content@, cursors.cursors@, cursors.cursors@.len() as int)),
            ),
            batch_fits(content@, b@),
    {
        let ghost cs = cursors.cursors@;
        let ghost t = content@;
        let n = cursors.cursors.len();
        let mut edits: Vec<Edit> = Vec::new();
        let mut i: usize = 0;
        while i < n
            invariant
                content.wf(),
                t == content@,
                cs == cursors.cursors@,
                cursors_valid(cs, t),
                n == cs.len(),
                i <= n,
                views(edits@) == word_edits(t, cs, i as int),
                all_fit(t, views(edits@)),
            decreases n - i,
        {
            let c = cursors.cursors[i];
            proof {
                assert(cs[i as int].valid_in(t));
            }
            let ghost before = views(edits@);
            match c.selection() {
                Some(sel) => {
                    edits.push(Edit::Delete(sel));
                },
                None => {
                    let a = c.word_boundary_left(content);
                    let b = c.offset;
                    if a.0 < b.0 && b.0 - a.0 == 1 && content.byte(a) == 0x20u8 {
                        let cursor = Cursor::new_with_offset(a);
                        let a2 = cursor.word_boundary_left(content);
                        edits.push(Edit::Delete(a2..b));
                    } else {
                        edits.push(Edit::Delete(a..b));
                    }
                },
            }
            proof {
                assert(views(edits@) =~= before + word_at(t, cs[i as int]));
                lemma_fit_append(t, before, word_at(t, cs[i as int]));
            }
            i = i + 1;
        }
        EditBatch::from_edits(edits)
    }
    /// Indenting: `indent` is inserted at the start of every line that a
    /// cursor or its selection touches.
    pub fn indent_with_cursors(cursors: &MultiCursor, content: &RopeBuffer, indent: &str) -> (b: EditBatch)
        requires
            content.wf(),
            cursors_valid(cursors.cursors@, content@),
        ensures
            b@ == truncate_deletions(
                sort_edits(
                    indent_edits(content@, cursors.cursors@, cursors.cursors@.len() as int, indent.spec_bytes()),
                ),
            ),
            batch_fits(content@, b@),
    {
        let ghost cs = cursors.cursors@;
        let ghost t = content@;
        let ghost s = indent.spec_bytes();
        let n = cursors.cursors.len();
        let mut edits: Vec<Edit> = Vec::new();
        let mut i: usize = 0;
        while i < n
            invariant
                content.wf(),
                t == content@,
                s == indent.spec_bytes(),
                cs == cursors.cursors@,
                cursors_valid(cs, t),
                n == cs.len(),
                i <= n,
                views(edits@) == indent_edits(t, cs, i as int, s),
                all_fit(t, views(edits@)),
            decreases n - i,
        {
            let c = cursors.cursors[i];
            proof {
                assert(cs[i as int].valid_in(t));
            }
            let ghost before = views(edits@);
            let span = c.line_span(content);
            let mut l = span.start;
            while l < span.end
                invariant
                    content.wf(),
                    t == content@,
                    s == indent.spec_bytes(),
                    span.end <= line_count(t),
                    span.start <= l,
                    l <= span.end || l == span.start,
                    views(edits@) == before + line_inserts(t, span.start as int, l as int, s),
                    all_fit(t, views(edits@)),
                decreases span.end - l,
            {
                let bpos = content.line_to_byte(l);
                let ghost prev = views(edits@);
                edits.push(Edit::insert_str(bpos, indent));
                proof {
                    assert(views(edits@) =~= prev.push(EditView::Insert(line_start(t, l as int), s)));
                    assert(line_inserts(t, span.start as int, l + 1, s) == line_inserts(t, span.start as int, l as int, s).push(EditView::Insert(line_start(t, l as int), s)));
                    assert forall|k: int| 0 <= k < views(edits@).len() implies #[trigger] edit_fits(t, views(edits@)[k]) by {
                        if k < prev.len() {
                            assert(edit_fits(t, prev[k]));
                        }
                    }
                }
                l = l + 1;
            }
            proof {
                if span.end <= span.start {
                    assert(line_inserts(t, span.start as int, span.end as int, s) =~= Seq::<EditView>::empty());
                    assert(line_inserts(t, span.start as int, span.start as int, s) =~= Seq::<EditView>::empty());
                }
                assert(views(edits@) == before + line_inserts(t, span.start as int, span.end as int, s));
                assert(indent_edits(t, cs, i + 1, s) == indent_edits(t, cs, i as int, s) + line_inserts(
                    t,
                    span.start as int,
                    span.end as int,
                    s,
                ));
            }
            i = i + 1;
        }
        EditBatch::from_edits(edits)
    }

    /// Dedenting: from the start of every line that a cursor or its
    /// selection touches, spaces (one column each) and tabs (`tab_width`
    /// columns each) are deleted until `indent_width` columns are gone.
    pub fn dedent_with_cursors(
        cursors: &MultiCursor,
        content: &RopeBuffer,
        indent_width: usize,
        tab_width: usize,
    ) -> (b: EditBatch)
        requires
            content.wf(),
            cursors_valid(cursors.cursors@, content@),
            indent_width + tab_width <= usize::MAX,
        ensures
            b@ == truncate_deletions(
                sort_edits(
                    dedent_edits(
                        content@,
                        cursors.cursors@,
                        cursors.cursors@.len() as int,
                        indent_width as int,
                        tab_width as int,
                    ),
                ),
            ),
            batch_fits(content@, b@),
    {
        let ghost cs = cursors.cursors@;
        let ghost t = content@;
        let ghost w = indent_width as int;
        let ghost tw = tab_width as int;
        let n = cursors.cursors.len();
        let mut edits: Vec<Edit> = Vec::new();
        let mut i: usize = 0;
        while i < n
            invariant
                content.wf(),
                t == content@,
                w == indent_width,
                tw == tab_width,
                indent_width + tab_width <= usize::MAX,
                cs == cursors.cursors@,
                cursors_valid(cs, t),
                n == cs.len(),
                i <= n,
                views(edits@) == dedent_edits(t, cs, i as int, w, tw),
                all_fit(t, views(edits@)),
            decreases n - i,
        {
            let c = cursors.cursors[i];
            proof {
                assert(cs[i as int].valid_in(t));
            }
            let ghost before = views(edits@);
            let span = c.line_span(content);
            let mut l = span.start;
            while l < span.end
                invariant
                    content.wf(),
                    t == content@,
                    w == indent_width,
                    tw == tab_width,
                    indent_width + tab_width <= usize::MAX,
                    span.end <= line_count(t),
                    span.start <= l,
                    l <= span.end || l == span.start,
                    views(edits@) == before + line_dedents(t, span.start as int, l as int, w, tw),
                    all_fit(t, views(edits@)),
                decreases span.end - l,
            {
                let start = content.line_to_byte(l);
                let mut end = start;
                let mut removed: usize = 0;
                let len = content.len_bytes();
                while removed < indent_width
                    invariant
                        content.wf(),
                        t == content@,
                        len == t.len(),
                        w == indent_width,
                        tw == tab_width,
                        indent_width + tab_width <= usize::MAX,
                        start.0 <= end.0 <= len,
                        on_boundary(t, end.0 as int),
                        dedent_end(t, start.0 as int, 0, w, tw) == dedent_end(t, end.0 as int, removed as int, w, tw),
                    ensures
                        start.0 <= end.0 <= len,
                        on_boundary(t, end.0 as int),
                        dedent_end(t, start.0 as int, 0, w, tw) == end.0 as int,
                    decreases len - end.0,
                {
                    match content.get_byte(end) {
                        Some(0x20u8) => {
                            removed = removed + 1;
                        },
                        Some(0x09u8) => {
                            removed = removed + tab_width;
                        },
                        _ => {
                            break;
                        },
                    }
                    proof {
                        lemma_ascii_step(t, end.0 as int);
                    }
                    end = ByteOffset(end.0 + 1);
                }
                let ghost prev = views(edits@);
                edits.push(Edit::Delete(start..end));
                proof {
                    let e = EditView::Delete(line_start(t, l as int), dedent_end(t, line_start(t, l as int), 0, w, tw));
                    assert(views(edits@) =~= prev.push(e));
                    assert(line_dedents(t, span.start as int, l + 1, w, tw) == line_dedents(t, span.start as int, l as int, w, tw).push(e));
                    assert forall|k: int| 0 <= k < views(edits@).len() implies #[trigger] edit_fits(t, views(edits@)[k]) by {
                        if k < prev.len() {
                            assert(edit_fits(t, prev[k]));
                        }
                    }
                }
                l = l + 1;
            }
            proof {
                if span.end <= span.start {
                    assert(line_dedents(t, span.start as int, span.end as int, w, tw) =~= Seq::<EditView>::empty());
                    assert(line_dedents(t, span.start as int, span.start as int, w, tw) =~= Seq::<EditView>::empty());
                }
                assert(views(edits@) == before + line_dedents(t, span.start as int, span.end as int, w, tw));
                assert(dedent_edits(t, cs, i + 1, w, tw) == dedent_edits(t, cs, i as int, w, tw) + line_dedents(
                    t,
                    span.start as int,
                    span.end as int,
                    w,
                    tw,
                ));
            }
            i = i + 1;
        }
        EditBatch::from_edits(edits)
    }


}

} // verus!
