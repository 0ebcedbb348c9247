//! What applying a batch of edits does to a text, to the positions in it, and
//! the batch that undoes it.
use crate::editing::{
    all_fit, batch_fits, edit_end, edit_fits, edit_le, edit_lt, edit_pos, edits_disjoint,
    edits_sorted, lemma_normalized_fits, lemma_truncate_disjoint, sort_edits, sorted_insert,
    truncate_deletions, EditView,
};
use crate::text::{
    lemma_boundary_at_join, lemma_boundary_in_prefix, lemma_boundary_in_suffix,
    lemma_boundary_keep, lemma_boundary_shift, lemma_split_join, on_boundary,
};
use vstd::prelude::*;
use vstd::utf8::{group_utf8_lib, valid_utf8};

verus! {

broadcast use group_utf8_lib;

/// One edit applied to a text.
pub open spec fn apply_edit(t: Seq<u8>, e: EditView) -> Seq<u8> {
    match e {
        EditView::Insert(p, s) => t.subrange(0, p) + s + t.subrange(p, t.len() as int),
        EditView::Delete(a, b) => t.subrange(0, a) + t.subrange(b, t.len() as int),
    }
}

/// A batch applied to a text, from its last edit to its first.
pub open spec fn apply_batch(t: Seq<u8>, es: Seq<EditView>) -> Seq<u8>
    decreases es.len(),
{
    if es.len() == 0 {
        t
    } else {
        apply_batch(apply_edit(t, es.last()), es.drop_last())
    }
}

/// How many bytes an edit adds to the text (negative for deletions).
pub open spec fn delta(e: EditView) -> int {
    match e {
        EditView::Insert(_, s) => s.len() as int,
        EditView::Delete(a, b) => a - b,
    }
}

/// The bytes added by the first `i` edits.
pub open spec fn delta_before(es: Seq<EditView>, i: int) -> int
    decreases i,
{
    if i <= 0 || i > es.len() {
        0
    } else {
        delta_before(es, i - 1) + delta(es[i - 1])
    }
}

/// The bytes inserted by the first `i` edits.
pub open spec fn inserted_before(es: Seq<EditView>, i: int) -> int
    decreases i,
{
    if i <= 0 || i > es.len() {
        0
    } else {
        inserted_before(es, i - 1) + match es[i - 1] {
            EditView::Insert(_, s) => s.len() as int,
            EditView::Delete(_, _) => 0,
        }
    }
}

/// The bytes removed by the first `i` edits.
pub open spec fn deleted_before(es: Seq<EditView>, i: int) -> int
    decreases i,
{
    if i <= 0 || i > es.len() {
        0
    } else {
        deleted_before(es, i - 1) + match es[i - 1] {
            EditView::Insert(_, _) => 0,
            EditView::Delete(a, b) => b - a,
        }
    }
}

/// The edit that undoes `e`, placed at `q` in the edited text.
pub open spec fn inverse_edit(t: Seq<u8>, e: EditView, q: int) -> EditView {
    match e {
        EditView::Insert(_, s) => EditView::Delete(q, q + s.len()),
        EditView::Delete(a, b) => EditView::Insert(q, t.subrange(a, b)),
    }
}

/// The batch that undoes `es` applied to `t`: each edit reversed, at the
/// position where it lands once the edits before it are done.
pub open spec fn inverse(t: Seq<u8>, es: Seq<EditView>) -> Seq<EditView> {
    Seq::new(es.len(), |i: int| inverse_edit(t, es[i], edit_pos(es[i]) + delta_before(es, i)))
}

/// How an edit moves a position `o` of the text: insertions at or before it
/// push it right, deletions that begin at or before it pull it left.
pub open spec fn position_delta(e: EditView, o: int) -> int {
    match e {
        EditView::Insert(p, s) => if p <= o {
            s.len() as int
        } else {
            0
        },
        EditView::Delete(a, b) => if a <= o {
            -((if b < o {
                b
            } else {
                o
            }) - a)
        } else {
            0
        },
    }
}

/// How the first `i` edits move position `o`.
pub open spec fn position_delta_before(es: Seq<EditView>, o: int, i: int) -> int
    decreases i,
{
    if i <= 0 || i > es.len() {
        0
    } else {
        position_delta_before(es, o, i - 1) + position_delta(es[i - 1], o)
    }
}

/// Where position `o` of the text ends up once the batch is applied.
pub open spec fn shifted(es: Seq<EditView>, o: int) -> int {
    o + position_delta_before(es, o, es.len() as int)
}

/// The edits are in order within the first `limit` bytes: each ends where or
/// after it begins, and before the next one begins.
pub open spec fn chained(es: Seq<EditView>, limit: int) -> bool {
    &&& forall|i: int| 0 <= i < es.len() ==> 0 <= #[trigger] edit_pos(es[i]) <= edit_end(es[i])
    &&& edits_disjoint(es)
    &&& (es.len() > 0 ==> edit_end(es.last()) <= limit)
}

/// The edits of a chained batch all end by where the last one begins.
pub proof fn lemma_chained_prefix(es: Seq<EditView>, limit: int)
    requires
        chained(es, limit),
        es.len() > 0,
    ensures
        chained(es.drop_last(), edit_pos(es.last())),
        forall|i: int| 0 <= i < es.len() - 1 ==> edit_end(#[trigger] es[i]) <= edit_pos(es.last()),
    decreases es.len(),
{
    let d = es.drop_last();
    assert forall|i: int| 0 <= i < d.len() - 1 implies #[trigger] edit_end(d[i]) <= edit_pos(d[i + 1]) by {
        assert(edit_end(es[i]) <= edit_pos(es[i + 1]));
    }
    assert forall|i: int| 0 <= i < es.len() - 1 implies edit_end(#[trigger] es[i]) <= edit_pos(
        es.last(),
    ) by {
        lemma_chain_end(es, i, es.len() - 1);
    }
}

proof fn lemma_chain_end(es: Seq<EditView>, i: int, j: int)
    requires
        forall|k: int| 0 <= k < es.len() ==> 0 <= #[trigger] edit_pos(es[k]) <= edit_end(es[k]),
        edits_disjoint(es),
        0 <= i < j < es.len(),
    ensures
        edit_end(es[i]) <= edit_pos(es[j]),
    decreases j - i,
{
    let k = j - 1;
    assert(edit_end(es[k]) <= edit_pos(es[k + 1]));
    if i < k {
        lemma_chain_end(es, i, k);
        assert(edit_pos(es[k]) <= edit_end(es[k]));
    }
}

/// A batch that fits a text is chained within it.
pub proof fn lemma_fits_chained(t: Seq<u8>, es: Seq<EditView>)
    requires
        batch_fits(t, es),
    ensures
        chained(es, t.len() as int),
{
    assert forall|i: int| 0 <= i < es.len() implies 0 <= #[trigger] edit_pos(es[i]) <= edit_end(
        es[i],
    ) by {
        assert(edit_fits(t, es[i]));
    }
    if es.len() > 0 {
        assert(edit_fits(t, es[es.len() - 1]));
    }
}

/// Applying one edit that fits a valid text: the text stays valid, everything
/// before the edit is kept, and the edits before it still fit.
pub proof fn lemma_step(t: Seq<u8>, es: Seq<EditView>, limit: int)
    requires
        valid_utf8(t),
        all_fit(t, es),
        chained(es, limit),
        es.len() > 0,
    ensures
        valid_utf8(apply_edit(t, es.last())),
        apply_edit(t, es.last()).subrange(0, edit_pos(es.last())) == t.subrange(
            0,
            edit_pos(es.last()),
        ),
        all_fit(apply_edit(t, es.last()), es.drop_last()),
        chained(es.drop_last(), edit_pos(es.last())),
        apply_edit(t, es.last()).len() == t.len() + delta(es.last()),
{
    let e = es.last();
    let p = edit_pos(e);
    assert(edit_fits(t, es[es.len() - 1]));
    lemma_chained_prefix(es, limit);
    let a = t.subrange(0, p);
    let t2 = apply_edit(t, e);
    match e {
        EditView::Insert(_, s) => {
            let rest = t.subrange(p, t.len() as int);
            assert(valid_utf8(a));
            assert(valid_utf8(rest));
            lemma_boundary_at_join(s, rest);
            assert(valid_utf8(s + rest));
            assert(t2 =~= a + (s + rest));
            assert(t2.subrange(0, p) =~= a);
        },
        EditView::Delete(_, b) => {
            let rest = t.subrange(b, t.len() as int);
            assert(valid_utf8(a));
            assert(valid_utf8(rest));
            assert(t2 =~= a + rest);
            assert(t2.subrange(0, p) =~= a);
        },
    }
    let d = es.drop_last();
    assert(valid_utf8(t2));
    assert forall|i: int| 0 <= i < d.len() implies #[trigger] edit_fits(t2, d[i]) by {
        assert(edit_fits(t, es[i]));
        assert(edit_end(es[i]) <= p);
        let rest2 = t2.subrange(p, t2.len() as int);
        lemma_split_join(t2, p);
        assert(valid_utf8(rest2)) by {
            match e {
                EditView::Insert(_, s) => {
                    assert(rest2 =~= s + t.subrange(p, t.len() as int));
                },
                EditView::Delete(_, b) => {
                    assert(rest2 =~= t.subrange(b, t.len() as int));
                },
            }
        }
        match d[i] {
            EditView::Insert(q, _) => {
                lemma_boundary_in_prefix(t, p, q);
                lemma_boundary_keep(a, rest2, q);
            },
            EditView::Delete(x, y) => {
                lemma_boundary_in_prefix(t, p, x);
                lemma_boundary_in_prefix(t, p, y);
                lemma_boundary_keep(a, rest2, x);
                lemma_boundary_keep(a, rest2, y);
            },
        }
    }
}

/// Counting from the start, the bytes added by the first `k` edits do not
/// depend on the edits after them.
proof fn lemma_delta_before_prefix(es: Seq<EditView>, k: int)
    requires
        0 <= k < es.len(),
    ensures
        delta_before(es, k) == delta_before(es.drop_last(), k),
    decreases k,
{
    if k > 0 {
        lemma_delta_before_prefix(es, k - 1);
    }
}

/// A chained batch that stays within the first `limit` bytes leaves the rest
/// of the text alone.
pub proof fn lemma_local(t: Seq<u8>, es: Seq<EditView>, limit: int)
    requires
        chained(es, limit),
        0 <= limit <= t.len(),
    ensures
        apply_batch(t, es) == apply_batch(t.subrange(0, limit), es) + t.subrange(
            limit,
            t.len() as int,
        ),
    decreases es.len(),
{
    if es.len() == 0 {
        lemma_split_join(t, limit);
    } else {
        let e = es.last();
        let d = es.drop_last();
        let p = edit_pos(e);
        assert(0 <= edit_pos(es[es.len() - 1]) <= edit_end(es[es.len() - 1]));
        lemma_chained_prefix(es, limit);
        let a = t.subrange(0, limit);
        let t2 = apply_edit(t, e);
        let a2 = apply_edit(a, e);
        assert(t2 =~= a2 + t.subrange(limit, t.len() as int));
        lemma_local(t2, d, p);
        lemma_local(a2, d, p);
        assert(t2.subrange(0, p) =~= a2.subrange(0, p));
        assert(t2.subrange(p, t2.len() as int) =~= a2.subrange(p, a2.len() as int) + t.subrange(
            limit,
            t.len() as int,
        ));
        assert(apply_batch(t, es) == apply_batch(t2, d));
        assert(apply_batch(a, es) == apply_batch(a2, d));
    }
}

/// Appending an edit that begins where a chained batch ends keeps it chained.
proof fn lemma_chained_push(es: Seq<EditView>, x: EditView, limit: int)
    requires
        chained(es, edit_pos(x)),
        0 <= edit_pos(x) <= edit_end(x) <= limit,
    ensures
        chained(es.push(x), limit),
{
    let s = es.push(x);
    assert forall|i: int| 0 <= i < s.len() implies 0 <= #[trigger] edit_pos(s[i]) <= edit_end(
        s[i],
    ) by {
        if i < es.len() {
            assert(0 <= edit_pos(es[i]) <= edit_end(es[i]));
        }
    }
    assert forall|i: int| 0 <= i < s.len() - 1 implies #[trigger] edit_end(s[i]) <= edit_pos(
        s[i + 1],
    ) by {
        if i < es.len() - 1 {
            assert(edit_end(es[i]) <= edit_pos(es[i + 1]));
        }
    }
}


/// The inverse of a batch ends with the inverse of its last edit.
proof fn lemma_inverse_split(t: Seq<u8>, es: Seq<EditView>)
    requires
        es.len() > 0,
        chained(es, t.len() as int),
    ensures
        inverse(t, es) == inverse(t.subrange(0, edit_pos(es.last())), es.drop_last()).push(
            inverse_edit(t, es.last(), edit_pos(es.last()) + delta_before(es.drop_last(), es.len() - 1)),
        ),
{
    let n = es.len() as int;
    let d = es.drop_last();
    let p = edit_pos(es.last());
    let a = t.subrange(0, p);
    lemma_chained_prefix(es, t.len() as int);
    lemma_delta_before_prefix(es, n - 1);
    assert forall|i: int| 0 <= i < d.len() implies #[trigger] inverse(t, es)[i] == inverse(a, d)[i] by {
        lemma_delta_before_prefix(es, i);
        assert(edit_end(es[i]) <= p);
        assert(0 <= edit_pos(es[i]) <= edit_end(es[i]));
        match d[i] {
            EditView::Delete(u, v) => {
                assert(t.subrange(u, v) =~= a.subrange(u, v));
            },
            _ => {},
        }
    }
    assert(inverse(t, es) =~= inverse(a, d).push(
        inverse_edit(t, es.last(), p + delta_before(d, n - 1)),
    ));
}

/// The edits before the last one fit the text before it.
proof fn lemma_prefix_fits(t: Seq<u8>, es: Seq<EditView>)
    requires
        valid_utf8(t),
        all_fit(t, es),
        chained(es, t.len() as int),
        es.len() > 0,
    ensures
        valid_utf8(t.subrange(0, edit_pos(es.last()))),
        valid_utf8(t.subrange(edit_pos(es.last()), t.len() as int)),
        all_fit(t.subrange(0, edit_pos(es.last())), es.drop_last()),
        chained(es.drop_last(), edit_pos(es.last())),
        on_boundary(t, edit_pos(es.last())),
        edit_fits(t, es.last()),
{
    let n = es.len() as int;
    let d = es.drop_last();
    let p = edit_pos(es.last());
    let a = t.subrange(0, p);
    assert(edit_fits(t, es[n - 1]));
    lemma_chained_prefix(es, t.len() as int);
    assert forall|i: int| 0 <= i < d.len() implies #[trigger] edit_fits(a, d[i]) by {
        assert(edit_fits(t, es[i]));
        assert(edit_end(es[i]) <= p);
        match d[i] {
            EditView::Insert(q, _) => {
                lemma_boundary_in_prefix(t, p, q);
            },
            EditView::Delete(x, y) => {
                lemma_boundary_in_prefix(t, p, x);
                lemma_boundary_in_prefix(t, p, y);
            },
        }
    }
}

/// The last edit applied to the rest of the text, from where it begins.
pub open spec fn edited_rest(t: Seq<u8>, e: EditView) -> Seq<u8> {
    match e {
        EditView::Insert(p, s) => s + t.subrange(p, t.len() as int),
        EditView::Delete(_, y) => t.subrange(y, t.len() as int),
    }
}

/// Applying a batch is applying the earlier edits to the text before the last
/// one, followed by the rest as the last edit leaves it.
proof fn lemma_apply_split(t: Seq<u8>, es: Seq<EditView>)
    requires
        valid_utf8(t),
        all_fit(t, es),
        chained(es, t.len() as int),
        es.len() > 0,
    ensures
        apply_batch(t, es) == apply_batch(t.subrange(0, edit_pos(es.last())), es.drop_last())
            + edited_rest(t, es.last()),
        valid_utf8(edited_rest(t, es.last())),
        edited_rest(t, es.last()).len() == t.len() - edit_pos(es.last()) + delta(es.last()),
{
    let e = es.last();
    let d = es.drop_last();
    let p = edit_pos(e);
    lemma_prefix_fits(t, es);
    let a = t.subrange(0, p);
    let b = t.subrange(p, t.len() as int);
    let eb = edited_rest(t, e);
    let t2 = apply_edit(t, e);
    assert(t2 =~= a + eb);
    match e {
        EditView::Insert(_, s) => {
            lemma_boundary_at_join(s, b);
        },
        EditView::Delete(_, y) => {},
    }
    lemma_local(t2, d, p);
    assert(t2.subrange(0, p) =~= a);
    assert(t2.subrange(p, t2.len() as int) =~= eb);
}

/// Applying a batch that fits a valid text, then its inverse, gives the text
/// back; the result is valid UTF-8, of the expected length, and the inverse
/// fits it.
pub proof fn lemma_inverse(t: Seq<u8>, es: Seq<EditView>)
    requires
        valid_utf8(t),
        all_fit(t, es),
        chained(es, t.len() as int),
    ensures
        valid_utf8(apply_batch(t, es)),
        apply_batch(t, es).len() == t.len() + delta_before(es, es.len() as int),
        all_fit(apply_batch(t, es), inverse(t, es)),
        chained(inverse(t, es), apply_batch(t, es).len() as int),
        apply_batch(apply_batch(t, es), inverse(t, es)) == t,
    decreases es.len(),
{
    let n = es.len() as int;
    if n == 0 {
        assert(inverse(t, es) =~= Seq::<EditView>::empty());
    } else {
        let e = es.last();
        let d = es.drop_last();
        let p = edit_pos(e);
        lemma_prefix_fits(t, es);
        let a = t.subrange(0, p);
        let b = t.subrange(p, t.len() as int);
        lemma_split_join(t, p);
        lemma_inverse(a, d);
        let x = apply_batch(a, d);
        let inv_d = inverse(a, d);
        lemma_apply_split(t, es);
        let eb = edited_rest(t, e);
        let r = apply_batch(t, es);
        lemma_boundary_at_join(x, eb);
        lemma_delta_before_prefix(es, n - 1);
        let q = x.len() as int;
        let inv_e = inverse_edit(t, e, q);
        lemma_inverse_split(t, es);
        assert(inverse(t, es) == inv_d.push(inv_e));
        restore_after_inverse(t, e, x, q);
        let xb = apply_edit(r, inv_e);
        assert(xb == x + b);
        lemma_local(x + b, inv_d, q);
        assert((x + b).subrange(0, q) =~= x);
        assert((x + b).subrange(q, (x + b).len() as int) =~= b);
        assert(inv_d.push(inv_e).drop_last() =~= inv_d);
        assert(inv_d.push(inv_e).last() == inv_e);
        assert(apply_batch(r, inverse(t, es)) == apply_batch(xb, inv_d));
        inverse_fits_after(t, e, x, inv_d);
        lemma_chained_push(inv_d, inv_e, r.len() as int);
    }
}

/// Undoing the last edit at `q = |x|` turns `x` followed by the edited rest
/// back into `x` followed by the rest.
proof fn restore_after_inverse(t: Seq<u8>, e: EditView, x: Seq<u8>, q: int)
    requires
        q == x.len(),
        edit_fits(t, e),
    ensures
        apply_edit(x + edited_rest(t, e), inverse_edit(t, e, q)) == x + t.subrange(
            edit_pos(e),
            t.len() as int,
        ),
{
    let p = edit_pos(e);
    let b = t.subrange(p, t.len() as int);
    let r = x + edited_rest(t, e);
    match e {
        EditView::Insert(_, s) => {
            assert(apply_edit(r, inverse_edit(t, e, q)) =~= x + b);
        },
        EditView::Delete(_, y) => {
            assert(t.subrange(p, y) + t.subrange(y, t.len() as int) =~= b);
            assert(apply_edit(r, inverse_edit(t, e, q)) =~= x + b);
        },
    }
}

/// The inverse of the earlier edits, followed by the inverse of the last one,
/// fits `x` followed by the edited rest.
proof fn inverse_fits_after(t: Seq<u8>, e: EditView, x: Seq<u8>, inv_d: Seq<EditView>)
    requires
        valid_utf8(t),
        valid_utf8(x),
        edit_fits(t, e),
        valid_utf8(edited_rest(t, e)),
        all_fit(x, inv_d),
    ensures
        all_fit(x + edited_rest(t, e), inv_d.push(inverse_edit(t, e, x.len() as int))),
{
    let eb = edited_rest(t, e);
    let r = x + eb;
    let p = edit_pos(e);
    let b = t.subrange(p, t.len() as int);
    let l = inv_d.push(inverse_edit(t, e, x.len() as int));
    lemma_boundary_at_join(x, eb);
    assert forall|i: int| 0 <= i < l.len() implies #[trigger] edit_fits(r, l[i]) by {
        if i < inv_d.len() {
            assert(edit_fits(x, inv_d[i]));
            match inv_d[i] {
                EditView::Insert(u, _) => {
                    lemma_boundary_keep(x, eb, u);
                },
                EditView::Delete(u, v) => {
                    lemma_boundary_keep(x, eb, u);
                    lemma_boundary_keep(x, eb, v);
                },
            }
        } else {
            match e {
                EditView::Insert(_, s) => {
                    assert(valid_utf8(b));
                    lemma_boundary_at_join(s, b);
                    lemma_boundary_shift(x, eb, s.len() as int);
                },
                EditView::Delete(_, y) => {
                    lemma_boundary_in_suffix(t, p, y);
                    let b2 = t.subrange(p, t.len() as int);
                    lemma_boundary_in_prefix(b2, y - p, y - p);
                    assert(b2.subrange(0, y - p) =~= t.subrange(p, y));
                },
            }
        }
    }
}

/// The bytes added by the first `i` edits are those inserted less those deleted.
pub proof fn lemma_delta_split(es: Seq<EditView>, i: int)
    requires
        0 <= i <= es.len(),
    ensures
        delta_before(es, i) == inserted_before(es, i) - deleted_before(es, i),
        inserted_before(es, i) >= 0,
    decreases i,
{
    if i > 0 {
        lemma_delta_split(es, i - 1);
    }
}

/// Within a chained batch, the bytes deleted before an edit do not exceed
/// where it begins.
pub proof fn lemma_deleted_bound(es: Seq<EditView>, limit: int, i: int)
    requires
        chained(es, limit),
        0 <= i <= es.len(),
    ensures
        i < es.len() ==> deleted_before(es, i) <= edit_pos(es[i]),
        i == es.len() && es.len() > 0 ==> deleted_before(es, i) <= edit_end(es.last()),
        i == es.len() && es.len() == 0 ==> deleted_before(es, i) == 0,
        i > 0 ==> deleted_before(es, i) <= edit_end(es[i - 1]),
        deleted_before(es, i) >= 0,
    decreases i,
{
    if i > 0 {
        lemma_deleted_bound(es, limit, i - 1);
        assert(0 <= edit_pos(es[i - 1]) <= edit_end(es[i - 1]));
        if i < es.len() {
            assert(edit_end(es[i - 1]) <= edit_pos(es[i]));
        }
    }
}

/// How the first `i` edits move a position lies between the bytes they
/// delete (taken away) and the bytes they insert (added).
pub proof fn lemma_position_delta_bounds(es: Seq<EditView>, o: int, i: int)
    requires
        0 <= i <= es.len(),
        forall|k: int| 0 <= k < es.len() ==> 0 <= #[trigger] edit_pos(es[k]) <= edit_end(es[k]),
    ensures
        -deleted_before(es, i) <= position_delta_before(es, o, i) <= inserted_before(es, i),
    decreases i,
{
    if i > 0 {
        lemma_position_delta_bounds(es, o, i - 1);
        assert(0 <= edit_pos(es[i - 1]) <= edit_end(es[i - 1]));
    }
}

/// The bytes inserted by the first edits only grow with more edits.
pub proof fn lemma_inserted_grows(es: Seq<EditView>, i: int, j: int)
    requires
        0 <= i <= j <= es.len(),
    ensures
        inserted_before(es, i) <= inserted_before(es, j),
    decreases j - i,
{
    if i < j {
        lemma_inserted_grows(es, i, j - 1);
    }
}

/// Every edit of a chained batch ends within the limit.
pub proof fn lemma_chain_within(es: Seq<EditView>, limit: int, i: int)
    requires
        chained(es, limit),
        0 <= i < es.len(),
    ensures
        0 <= edit_pos(es[i]) <= edit_end(es[i]) <= limit,
{
    assert(0 <= edit_pos(es[i]) <= edit_end(es[i]));
    if i < es.len() - 1 {
        lemma_chain_end(es, i, es.len() - 1);
        assert(0 <= edit_pos(es[es.len() - 1]) <= edit_end(es[es.len() - 1]));
    }
}

/// A position moved by a batch.
pub open spec fn shift_position(es: Seq<EditView>, o: usize) -> usize {
    shifted(es, o as int) as usize
}

/// A chained batch stays chained when its limit grows.
proof fn lemma_chained_widen(es: Seq<EditView>, limit: int, wider: int)
    requires
        chained(es, limit),
        limit <= wider,
    ensures
        chained(es, wider),
{
}

/// Inserting an edit that begins at or after the end of a chained batch into
/// its sorted place only moves it before empty deletions at its position, so
/// the batch stays chained and does the same to any text long enough.
proof fn lemma_sorted_insert_chained(t: Seq<u8>, sd: Seq<EditView>, x: EditView, limit: int)
    requires
        chained(sd, edit_pos(x)),
        0 <= edit_pos(x) <= edit_end(x) <= limit,
        limit <= t.len(),
    ensures
        chained(sorted_insert(sd, x), limit),
        apply_batch(t, sorted_insert(sd, x)) == apply_batch(t, sd.push(x)),
    decreases sd.len(),
{
    if sd.len() == 0 || !edit_lt(x, sd.last()) {
        lemma_chained_push(sd, x, limit);
        assert(sorted_insert(sd, x) =~= sd.push(x));
    } else {
        let last = sd.last();
        let d = sd.drop_last();
        let p = edit_pos(x);
        assert(0 <= edit_pos(sd[sd.len() - 1]) <= edit_end(sd[sd.len() - 1]));
        // only an empty deletion at the same position comes after x
        assert(edit_pos(last) == p);
        assert(last matches EditView::Delete(_, _));
        assert(x matches EditView::Insert(_, _));
        assert(edit_end(last) == p);
        lemma_chained_prefix(sd, p);
        lemma_sorted_insert_chained(t, d, x, p);
        let si = sorted_insert(d, x);
        assert(sorted_insert(sd, x) == si.push(last));
        lemma_chained_push(si, last, limit);
        // the empty deletion changes no text it fits
        assert(apply_edit(t, last) =~= t);
        assert(si.push(last).drop_last() =~= si);
        assert(apply_batch(t, si.push(last)) == apply_batch(t, si));
        let t2 = apply_edit(t, x);
        assert(apply_edit(t2, last) =~= t2);
        assert(sd.push(x).drop_last() =~= sd);
        assert(d.push(x).drop_last() =~= d);
        assert(apply_batch(t, sd.push(x)) == apply_batch(t2, sd));
        assert(apply_batch(t2, sd) == apply_batch(apply_edit(t2, last), d));
        assert(apply_batch(t, d.push(x)) == apply_batch(t2, d));
    }
}

/// Sorting a chained batch keeps it chained and does not change what it does
/// to a text.
pub proof fn lemma_sort_chained(t: Seq<u8>, es: Seq<EditView>, limit: int)
    requires
        chained(es, limit),
        limit <= t.len(),
    ensures
        chained(sort_edits(es), limit),
        apply_batch(t, sort_edits(es)) == apply_batch(t, es),
    decreases es.len(),
{
    if es.len() > 0 {
        let x = es.last();
        let d = es.drop_last();
        let p = edit_pos(x);
        assert(0 <= edit_pos(es[es.len() - 1]) <= edit_end(es[es.len() - 1]));
        lemma_chained_prefix(es, limit);
        let t2 = apply_edit(t, x);
        assert(t2.len() >= p) by {
            match x {
                EditView::Insert(_, _) => {},
                EditView::Delete(a, b) => {},
            }
        }
        lemma_sort_chained(t2, d, p);
        let sd = sort_edits(d);
        lemma_sorted_insert_chained(t, sd, x, limit);
        assert(sd.push(x).drop_last() =~= sd);
        assert(apply_batch(t, sd.push(x)) == apply_batch(t2, sd));
    }
}

/// The batch that undoes an edit: the inverse, sorted, with deletions cut
/// short, fits the edited text and turns it back into the original, for any
/// batch that fits a UTF-8 text.
pub proof fn lemma_undo_restores(t: Seq<u8>, es: Seq<EditView>)
    requires
        valid_utf8(t),
        batch_fits(t, es),
    ensures
        valid_utf8(apply_batch(t, es)),
        batch_fits(apply_batch(t, es), truncate_deletions(sort_edits(inverse(t, es)))),
        apply_batch(apply_batch(t, es), truncate_deletions(sort_edits(inverse(t, es)))) == t,
{
    let r = apply_batch(t, es);
    let inv = inverse(t, es);
    lemma_fits_chained(t, es);
    lemma_inverse(t, es);
    lemma_sort_chained(r, inv, r.len() as int);
    lemma_truncate_disjoint(sort_edits(inv));
    lemma_normalized_fits(r, inv);
}

/// Redoing what was undone: the batch that undoes the undoing batch fits the
/// original text and gives back the edited one.
pub proof fn lemma_redo_restores(t: Seq<u8>, es: Seq<EditView>)
    requires
        valid_utf8(t),
        batch_fits(t, es),
    ensures
        ({
            let r = apply_batch(t, es);
            let u = truncate_deletions(sort_edits(inverse(t, es)));
            let v = truncate_deletions(sort_edits(inverse(r, u)));
            batch_fits(t, v) && apply_batch(t, v) == r
        }),
{
    let r = apply_batch(t, es);
    let u = truncate_deletions(sort_edits(inverse(t, es)));
    lemma_undo_restores(t, es);
    lemma_undo_restores(r, u);
}

} // verus!
