//! Edits and batches of edits. A batch is kept sorted by position, with
//! deletions cut short where the next edit begins, so that applying it from
//! the last edit to the first never disturbs an edit still to come.
use crate::rope::{rope_bytes, rope_clone, rope_eq, rope_from_str, rope_len_bytes};
use crate::types::ByteOffset;
use ropey::Rope;
use std::ops::Range;
use vstd::prelude::*;
use vstd::string::StringSliceAdditionalSpecFns;
use vstd::utf8::{is_char_boundary, valid_utf8};
use crate::text::on_boundary;

verus! {

/// An edit seen as positions in the text and inserted bytes.
pub enum EditView {
    Insert(int, Seq<u8>),
    Delete(int, int),
}

/// Where an edit begins.
pub open spec fn edit_pos(e: EditView) -> int {
    match e {
        EditView::Insert(p, _) => p,
        EditView::Delete(a, _) => a,
    }
}

/// Where an edit ends in the text it is applied to.
pub open spec fn edit_end(e: EditView) -> int {
    match e {
        EditView::Insert(p, _) => p,
        EditView::Delete(_, b) => b,
    }
}

/// The order of edits: by position; at one position insertions come before
/// deletions, and shorter deletions before longer ones.
pub open spec fn edit_le(x: EditView, y: EditView) -> bool {
    if edit_pos(x) != edit_pos(y) {
        edit_pos(x) < edit_pos(y)
    } else {
        match (x, y) {
            (EditView::Insert(_, _), _) => true,
            (EditView::Delete(_, _), EditView::Insert(_, _)) => false,
            (EditView::Delete(_, e1), EditView::Delete(_, e2)) => e1 <= e2,
        }
    }
}

/// `x` comes strictly before `y`.
pub open spec fn edit_lt(x: EditView, y: EditView) -> bool {
    !edit_le(y, x)
}

/// Inserting `x` into the sorted `s` after every edit that does not come
/// strictly after it.
pub open spec fn sorted_insert(s: Seq<EditView>, x: EditView) -> Seq<EditView>
    decreases s.len(),
{
    if s.len() == 0 {
        seq![x]
    } else if edit_lt(x, s.last()) {
        sorted_insert(s.drop_last(), x).push(s.last())
    } else {
        s.push(x)
    }
}

/// The stable sort of a sequence of edits.
pub open spec fn sort_edits(s: Seq<EditView>) -> Seq<EditView>
    decreases s.len(),
{
    if s.len() == 0 {
        s
    } else {
        sorted_insert(sort_edits(s.drop_last()), s.last())
    }
}

/// Each deletion cut short where the following edit begins.
pub open spec fn truncate_deletions(s: Seq<EditView>) -> Seq<EditView> {
    Seq::new(
        s.len(),
        |i: int|
            match s[i] {
                EditView::Delete(a, b) => if i + 1 < s.len() && edit_pos(s[i + 1]) < b {
                    EditView::Delete(a, edit_pos(s[i + 1]))
                } else {
                    EditView::Delete(a, b)
                },
                e => e,
            },
    )
}

/// Consecutive edits are in order.
pub open spec fn edits_sorted(s: Seq<EditView>) -> bool {
    forall|i: int| 0 <= i < s.len() - 1 ==> #[trigger] edit_le(s[i], s[i + 1])
}

/// No edit reaches past where the next one begins.
pub open spec fn edits_disjoint(s: Seq<EditView>) -> bool {
    forall|i: int| 0 <= i < s.len() - 1 ==> #[trigger] edit_end(s[i]) <= edit_pos(s[i + 1])
}


/// An edit fits a text: its positions are char boundaries of the text, a
/// deletion does not end before it begins, and inserted bytes are UTF-8.
pub open spec fn edit_fits(t: Seq<u8>, e: EditView) -> bool {
    match e {
        EditView::Insert(p, s) => on_boundary(t, p) && valid_utf8(s),
        EditView::Delete(a, b) => a <= b && on_boundary(t, a) && on_boundary(t, b),
    }
}

/// Every edit fits the text.
pub open spec fn all_fit(t: Seq<u8>, s: Seq<EditView>) -> bool {
    forall|i: int| 0 <= i < s.len() ==> #[trigger] edit_fits(t, s[i])
}

/// Every inserted text is UTF-8.
pub open spec fn inserts_valid(s: Seq<EditView>) -> bool {
    forall|i: int|
        0 <= i < s.len() ==> (#[trigger] s[i] matches EditView::Insert(_, t) ==> valid_utf8(t))
}

/// A batch that can be applied to the text: every edit fits, and the edits
/// are sorted and do not overlap.
pub open spec fn batch_fits(t: Seq<u8>, s: Seq<EditView>) -> bool {
    all_fit(t, s) && edits_sorted(s) && edits_disjoint(s)
}

proof fn lemma_le_total(x: EditView, y: EditView)
    ensures
        edit_le(x, y) || edit_le(y, x),
{
}

proof fn lemma_le_trans(x: EditView, y: EditView, z: EditView)
    requires
        edit_le(x, y),
        edit_le(y, z),
    ensures
        edit_le(x, z),
{
}

proof fn lemma_sorted_insert_props(s: Seq<EditView>, x: EditView, p: spec_fn(EditView) -> bool)
    requires
        edits_sorted(s),
        forall|i: int| 0 <= i < s.len() ==> p(#[trigger] s[i]),
        p(x),
    ensures
        edits_sorted(sorted_insert(s, x)),
        forall|i: int| 0 <= i < sorted_insert(s, x).len() ==> p(#[trigger] sorted_insert(s, x)[i]),
        sorted_insert(s, x).len() == s.len() + 1,
        sorted_insert(s, x).last() == x || (s.len() > 0 && sorted_insert(s, x).last() == s.last()),
    decreases s.len(),
{
    lemma_sorted_insert_len(s, x);
    if s.len() == 0 {
    } else if edit_lt(x, s.last()) {
        let d = s.drop_last();
        assert(edits_sorted(d)) by {
            assert forall|i: int| 0 <= i < d.len() - 1 implies #[trigger] edit_le(d[i], d[i + 1]) by {
                assert(edit_le(s[i], s[i + 1]));
            }
        }
        lemma_sorted_insert_props(d, x, p);
        let r = sorted_insert(d, x);
        assert(sorted_insert(s, x) == r.push(s.last()));
        // the new last element is preceded by either x or d's last element
        if r.last() == x {
            lemma_le_total(x, s.last());
        } else {
            let k = s.len() - 2;
            assert(edit_le(s[k], s[k + 1]));
        }
        assert forall|i: int| 0 <= i < r.push(s.last()).len() - 1 implies #[trigger] edit_le(
            r.push(s.last())[i],
            r.push(s.last())[i + 1],
        ) by {
            if i < r.len() - 1 {
                assert(edit_le(r[i], r[i + 1]));
            }
        }
    } else {
        lemma_le_total(x, s.last());
        assert forall|i: int| 0 <= i < s.push(x).len() - 1 implies #[trigger] edit_le(
            s.push(x)[i],
            s.push(x)[i + 1],
        ) by {
            if i < s.len() - 1 {
                assert(edit_le(s[i], s[i + 1]));
            }
        }
    }
}

/// Sorting gives a sorted sequence whose edits all come from the input.
pub proof fn lemma_sort_props(s: Seq<EditView>, p: spec_fn(EditView) -> bool)
    requires
        forall|i: int| 0 <= i < s.len() ==> p(#[trigger] s[i]),
    ensures
        edits_sorted(sort_edits(s)),
        forall|i: int| 0 <= i < sort_edits(s).len() ==> p(#[trigger] sort_edits(s)[i]),
        sort_edits(s).len() == s.len(),
    decreases s.len(),
{
    lemma_sort_len(s);
    if s.len() > 0 {
        let d = s.drop_last();
        assert forall|i: int| 0 <= i < d.len() implies p(#[trigger] d[i]) by {
            assert(p(s[i]));
        }
        lemma_sort_props(d, p);
        assert(p(s[s.len() - 1]));
        lemma_sorted_insert_props(sort_edits(d), s.last(), p);
    }
}

/// Every position of a sorted batch is at least where it begins.
proof fn lemma_sorted_pos(s: Seq<EditView>, i: int, j: int)
    requires
        edits_sorted(s),
        0 <= i <= j < s.len(),
    ensures
        edit_pos(s[i]) <= edit_pos(s[j]),
    decreases j - i,
{
    if i < j {
        lemma_sorted_pos(s, i, j - 1);
        let k = j - 1;
        assert(edit_le(s[k], s[k + 1]));
    }
}

/// Sorting edits that each fit a text, then cutting deletions short, gives a
/// batch that fits the text.
pub proof fn lemma_normalized_fits(t: Seq<u8>, s: Seq<EditView>)
    requires
        all_fit(t, s),
    ensures
        batch_fits(t, truncate_deletions(sort_edits(s))),
{
    let p = |e: EditView| edit_fits(t, e);
    lemma_sort_props(s, p);
    let so = sort_edits(s);
    let tr = truncate_deletions(so);
    assert forall|i: int| 0 <= i < tr.len() implies #[trigger] edit_fits(t, tr[i]) by {
        assert(p(so[i]));
        if i + 1 < so.len() {
            assert(edit_le(so[i], so[i + 1]));
            assert(p(so[i + 1]));
        }
    }
    assert forall|i: int| 0 <= i < tr.len() - 1 implies #[trigger] edit_le(tr[i], tr[i + 1]) by {
        assert(edit_le(so[i], so[i + 1]));
        if i + 2 < so.len() {
            let k = i + 1;
            assert(edit_le(so[k], so[k + 1]));
        }
    }
    assert forall|i: int| 0 <= i < tr.len() - 1 implies #[trigger] edit_end(tr[i]) <= edit_pos(
        tr[i + 1],
    ) by {
        assert(edit_le(so[i], so[i + 1]));
    }
}

/// An edit of a text.
#[derive(Debug)]
pub enum Edit {
    Insert(ByteOffset, Rope),
    Delete(Range<ByteOffset>),
}

impl View for Edit {
    type V = EditView;

    open spec fn view(&self) -> EditView {
        match self {
            Edit::Insert(o, r) => EditView::Insert(o.0 as int, rope_bytes(*r)),
            Edit::Delete(range) => EditView::Delete(range.start.0 as int, range.end.0 as int),
        }
    }
}

/// The views of a sequence of edits.
pub open spec fn views(s: Seq<Edit>) -> Seq<EditView> {
    s.map_values(|e: Edit| e@)
}

impl Edit {
    /// An insertion of `s` at `offset`.
    pub fn insert_str(offset: ByteOffset, s: &str) -> (e: Edit)
        ensures
            e@ == EditView::Insert(offset.0 as int, s.spec_bytes()),
    {
        Edit::Insert(offset, rope_from_str(s))
    }

    /// A deletion of `length` bytes from `offset`.
    pub fn delete(offset: ByteOffset, length: usize) -> (e: Edit)
        requires
            offset.0 + length <= usize::MAX,
        ensures
            e@ == EditView::Delete(offset.0 as int, offset.0 + length),
    {
        Edit::Delete(offset..ByteOffset(offset.0 + length))
    }

    /// Where the edit begins.
    pub fn pos(&self) -> (p: ByteOffset)
        ensures
            p.0 == edit_pos(self@),
    {
        match self {
            Edit::Insert(offset, _) => *offset,
            Edit::Delete(range) => range.start,
        }
    }

    /// A copy of the edit.
    pub fn duplicate(&self) -> (e: Edit)
        ensures
            e@ == self@,
    {
        match self {
            Edit::Insert(offset, r) => Edit::Insert(*offset, rope_clone(r)),
            Edit::Delete(range) => Edit::Delete(range.start..range.end),
        }
    }

    /// Whether `self` comes strictly before `rhs` in the order of edits.
    pub fn less_than(&self, rhs: &Edit) -> (r: bool)
        ensures
            r == edit_lt(self@, rhs@),
    {
        let a = self.pos().0;
        let b = rhs.pos().0;
        if a != b {
            a < b
        } else {
            match (self, rhs) {
                (Edit::Insert(_, _), Edit::Delete(_)) => true,
                (Edit::Delete(x), Edit::Delete(y)) => x.end.0 < y.end.0,
                _ => false,
            }
        }
    }

    /// The edits are equal: same kind, positions and inserted text.
    pub fn equals(&self, rhs: &Edit) -> (r: bool)
        ensures
            r == (self@ == rhs@),
    {
        match (self, rhs) {
            (Edit::Insert(a, x), Edit::Insert(b, y)) => a.0 == b.0 && rope_eq(x, y),
            (Edit::Delete(x), Edit::Delete(y)) => x.start.0 == y.start.0 && x.end.0 == y.end.0,
            _ => false,
        }
    }
}

/// Sorting keeps the number of edits.
pub proof fn lemma_sort_len(s: Seq<EditView>)
    ensures
        sort_edits(s).len() == s.len(),
    decreases s.len(),
{
    if s.len() > 0 {
        lemma_sort_len(s.drop_last());
        lemma_sorted_insert_len(sort_edits(s.drop_last()), s.last());
    }
}

proof fn lemma_sorted_insert_len(s: Seq<EditView>, x: EditView)
    ensures
        sorted_insert(s, x).len() == s.len() + 1,
    decreases s.len(),
{
    if s.len() > 0 && edit_lt(x, s.last()) {
        lemma_sorted_insert_len(s.drop_last(), x);
    }
}

/// Inserting into a sequence sorted by position gives the sorted insertion.
proof fn lemma_sorted_insert_split(s: Seq<EditView>, x: EditView, j: int)
    requires
        0 <= j <= s.len(),
        forall|k: int| j <= k < s.len() ==> #[trigger] edit_lt(x, s[k]),
    ensures
        sorted_insert(s, x) == sorted_insert(s.subrange(0, j), x) + s.subrange(j, s.len() as int),
    decreases s.len() - j,
{
    if j < s.len() {
        assert(edit_lt(x, s[s.len() - 1]));
        assert(s.drop_last().subrange(0, j) =~= s.subrange(0, j));
        lemma_sorted_insert_split(s.drop_last(), x, j);
        assert(s.drop_last().subrange(j, s.drop_last().len() as int).push(s.last()) =~= s.subrange(
            j,
            s.len() as int,
        ));
        assert(sorted_insert(s.subrange(0, j), x) + s.drop_last().subrange(
            j,
            s.drop_last().len() as int,
        ).push(s.last()) =~= (sorted_insert(s.subrange(0, j), x) + s.drop_last().subrange(
            j,
            s.drop_last().len() as int,
        )).push(s.last()));
    } else {
        assert(s.subrange(0, j) =~= s);
        assert(s.subrange(j, s.len() as int) =~= Seq::<EditView>::empty());
        assert(sorted_insert(s, x) + Seq::<EditView>::empty() =~= sorted_insert(s, x));
    }
}

/// Sorting a sorted sequence leaves it as it is.
pub proof fn lemma_sort_sorted(s: Seq<EditView>)
    requires
        edits_sorted(s),
    ensures
        sort_edits(s) == s,
    decreases s.len(),
{
    if s.len() > 0 {
        let d = s.drop_last();
        assert(edits_sorted(d)) by {
            assert forall|i: int| 0 <= i < d.len() - 1 implies #[trigger] edit_le(d[i], d[i + 1]) by {
                assert(edit_le(s[i], s[i + 1]));
            }
        }
        lemma_sort_sorted(d);
        if d.len() > 0 {
            assert(edit_le(s[s.len() - 2], s[s.len() - 1]));
        }
        assert(d.push(s.last()) =~= s);
    }
}

/// Cutting deletions short changes nothing when none overlaps the next edit.
pub proof fn lemma_truncate_disjoint(s: Seq<EditView>)
    requires
        edits_disjoint(s),
    ensures
        truncate_deletions(s) == s,
{
    assert forall|i: int| 0 <= i < s.len() implies #[trigger] truncate_deletions(s)[i] == s[i] by {
        if i + 1 < s.len() {
            assert(edit_end(s[i]) <= edit_pos(s[i + 1]));
        }
    }
    assert(truncate_deletions(s) =~= s);
}

/// A sequence of edits, sorted, with no deletion reaching past the next edit.
#[derive(Debug)]
pub struct EditBatch {
    pub(crate) edits: Vec<Edit>,
}

impl View for EditBatch {
    type V = Seq<EditView>;

    closed spec fn view(&self) -> Seq<EditView> {
        views(self.edits@)
    }
}

impl EditBatch {
    /// Sorts the edits (stably) and cuts each deletion short where the next
    /// edit begins.
    pub fn from_edits(edits: Vec<Edit>) -> (b: Self)
        ensures
            b@ == truncate_deletions(sort_edits(views(edits@))),
            forall|t: Seq<u8>| #[trigger] all_fit(t, views(edits@)) ==> batch_fits(t, b@),
    {
        proof {
            assert forall|t: Seq<u8>| #[trigger] all_fit(t, views(edits@)) implies batch_fits(
                t,
                truncate_deletions(sort_edits(views(edits@))),
            ) by {
                lemma_normalized_fits(t, views(edits@));
            }
        }
        let ghost input = views(edits@);
        let mut rest = edits;
        let mut sorted: Vec<Edit> = Vec::new();
        let n = rest.len();
        let mut i: usize = 0;
        while i < n
            invariant
                n == input.len(),
                i <= n,
                rest@.len() == n - i,
                sorted@.len() == i,
                views(rest@) == input.subrange(i as int, n as int),
                views(sorted@) == sort_edits(input.subrange(0, i as int)),
            decreases n - i,
        {
            let ghost old_rest = rest@;
            let x = rest.remove(0);
            proof {
                assert(views(rest@) =~= views(old_rest).drop_first());
                assert(views(old_rest)[0] == old_rest[0]@);
                assert(input.subrange(i as int, n as int)[0] == input[i as int]);
                assert(views(rest@) =~= input.subrange(i + 1, n as int));
                assert(x@ == input[i as int]);
            }
            let ghost prefix = views(sorted@);
            let mut j = sorted.len();
            while j > 0 && x.less_than(&sorted[j - 1])
                invariant
                    j <= sorted@.len(),
                    prefix == views(sorted@),
                    forall|k: int| j <= k < prefix.len() ==> #[trigger] edit_lt(x@, prefix[k]),
                decreases j,
            {
                j = j - 1;
            }
            proof {
                lemma_sorted_insert_split(prefix, x@, j as int);
                if j > 0 {
                    assert(!edit_lt(x@, prefix[j - 1]));
                    assert(prefix.subrange(0, j as int).last() == prefix[j - 1]);
                }
                assert(input.subrange(0, i + 1).drop_last() =~= input.subrange(0, i as int));
                assert(input.subrange(0, i + 1).last() == input[i as int]);
            }
            sorted.insert(j, x);
            proof {
                assert(views(sorted@) =~= prefix.subrange(0, j as int).push(x@) + prefix.subrange(
                    j as int,
                    prefix.len() as int,
                ));
                if j == 0 {
                    assert(prefix.subrange(0, 0) =~= Seq::<EditView>::empty());
                }
            }
            i = i + 1;
        }
        proof {
            assert(input.subrange(0, n as int) =~= input);
            lemma_sort_len(input);
        }
        let ghost s = views(sorted@);
        let mut out: Vec<Edit> = Vec::new();
        let mut k: usize = 0;
        while k < n
            invariant
                n == s.len(),
                k <= n,
                sorted@.len() == n - k,
                views(sorted@) == s.subrange(k as int, n as int),
                views(out@) == truncate_deletions(s).subrange(0, k as int),
            decreases n - k,
        {
            let next_start: usize = if k + 1 < n {
                sorted[1].pos().0
            } else {
                usize::MAX
            };
            let ghost old_sorted = sorted@;
            let e = sorted.remove(0);
            proof {
                assert(views(sorted@) =~= views(old_sorted).drop_first());
                assert(views(old_sorted)[0] == old_sorted[0]@);
                assert(s.subrange(k as int, n as int)[0] == s[k as int]);
                if k + 1 < n {
                    assert(views(old_sorted)[1] == old_sorted[1]@);
                    assert(s.subrange(k as int, n as int)[1] == s[k + 1]);
                }
                assert(e@ == s[k as int]);
                if k + 1 < n {
                    assert(next_start == edit_pos(s[k + 1]));
                }
            }
            let e2 = match e {
                Edit::Delete(range) => {
                    let end = if next_start < range.end.0 {
                        ByteOffset(next_start)
                    } else {
                        range.end
                    };
                    Edit::Delete(range.start..end)
                },
                other => other,
            };
            proof {
                assert(e2@ == truncate_deletions(s)[k as int]);
            }
            let ghost old_out = out@;
            out.push(e2);
            proof {
                assert(views(out@) =~= views(old_out).push(truncate_deletions(s)[k as int]));
                assert(views(sorted@) =~= s.subrange(k + 1, n as int));
                assert(views(out@) =~= truncate_deletions(s).subrange(0, k + 1));
            }
            k = k + 1;
        }
        proof {
            assert(truncate_deletions(s).subrange(0, n as int) =~= truncate_deletions(s));
        }
        EditBatch { edits: out }
    }

    /// The number of edits.
    pub fn len(&self) -> (n: usize)
        ensures
            n == self@.len(),
    {
        self.edits.len()
    }

    /// Whether the batch holds no edit.
    pub fn is_empty(&self) -> (r: bool)
        ensures
            r == (self@.len() == 0),
    {
        self.edits.len() == 0
    }

    /// The edits, in order.
    pub fn iter(&self) -> (it: std::slice::Iter<'_, Edit>)
        ensures
            views(vstd::std_specs::slice::into_iter_elts(it)) == self@,
    {
        self.edits.iter()
    }

    /// The edits, last first.
    pub fn rev_iter(&self) -> (it: std::iter::Rev<std::slice::Iter<'_, Edit>>)
        ensures
            views(vstd::std_specs::iter::IteratorSpec::remaining(&it).unref().reverse()) == self@,
    {
        let inner = self.edits.iter();
        let it = inner.rev();
        proof {
            let r = vstd::std_specs::iter::IteratorSpec::remaining(&it);
            let i = vstd::std_specs::iter::IteratorSpec::remaining(&inner);
            assert(r == i.reverse());
            assert(r.reverse() =~= i);
            assert(r.unref().reverse() =~= i.unref());
        }
        it
    }

    /// The edit at index `i`.
    pub fn get(&self, i: usize) -> (e: &Edit)
        requires
            i < self@.len(),
        ensures
            e@ == self@[i as int],
    {
        &self.edits[i]
    }
}

} // verus!
