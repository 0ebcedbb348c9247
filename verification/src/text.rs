//! Facts about UTF-8 byte sequences: where char boundaries lie after texts are
//! cut and joined.
use vstd::prelude::*;
use vstd::utf8::*;

verus! {

broadcast use group_utf8_lib;

/// A char boundary of `text` that lies within it.
pub open spec fn on_boundary(text: Seq<u8>, p: int) -> bool {
    0 <= p <= text.len() && is_char_boundary(text, p)
}

/// The first byte of a non-empty valid UTF-8 text starts a char.
pub proof fn lemma_first_byte_leads(b: Seq<u8>)
    requires
        valid_utf8(b),
        b.len() > 0,
    ensures
        !is_continuation_byte(b[0]),
{
    assert(is_char_boundary(b, 0));
}

/// Where two valid texts are joined there is a char boundary.
pub proof fn lemma_boundary_at_join(a: Seq<u8>, b: Seq<u8>)
    requires
        valid_utf8(a),
        valid_utf8(b),
    ensures
        valid_utf8(a + b),
        is_char_boundary(a + b, a.len() as int),
{
    assert(valid_utf8(a + b));
    if b.len() == 0 {
        assert(a + b =~= a);
    } else {
        lemma_first_byte_leads(b);
        assert((a + b)[a.len() as int] == b[0]);
    }
}

/// A boundary of `b` is, shifted by `a`'s length, a boundary of `a + b`.
pub proof fn lemma_boundary_shift(a: Seq<u8>, b: Seq<u8>, p: int)
    requires
        valid_utf8(a),
        valid_utf8(b),
        on_boundary(b, p),
    ensures
        on_boundary(a + b, a.len() + p),
{
    assert(valid_utf8(a + b));
    if p == b.len() {
        assert((a + b).len() == a.len() + p);
    } else {
        assert(!is_continuation_byte(b[p]));
        assert((a + b)[a.len() + p] == b[p]);
    }
}

/// A boundary of `a` stays a boundary of `a + b`.
pub proof fn lemma_boundary_keep(a: Seq<u8>, b: Seq<u8>, p: int)
    requires
        valid_utf8(a),
        valid_utf8(b),
        on_boundary(a, p),
    ensures
        on_boundary(a + b, p),
{
    assert(valid_utf8(a + b));
    if p == a.len() {
        lemma_boundary_at_join(a, b);
    } else {
        assert(!is_continuation_byte(a[p]));
        assert((a + b)[p] == a[p]);
    }
}

/// A boundary of `t` before a boundary `k` is a boundary of `t`'s first `k` bytes.
pub proof fn lemma_boundary_in_prefix(t: Seq<u8>, k: int, p: int)
    requires
        valid_utf8(t),
        on_boundary(t, k),
        on_boundary(t, p),
        p <= k,
    ensures
        valid_utf8(t.subrange(0, k)),
        on_boundary(t.subrange(0, k), p),
{
    assert(valid_utf8(t.subrange(0, k)));
    if p < k {
        assert(!is_continuation_byte(t[p]));
        assert(t.subrange(0, k)[p] == t[p]);
    }
}

/// A boundary of `t` after a boundary `k` is, less `k`, a boundary of the rest.
pub proof fn lemma_boundary_in_suffix(t: Seq<u8>, k: int, p: int)
    requires
        valid_utf8(t),
        on_boundary(t, k),
        on_boundary(t, p),
        k <= p,
    ensures
        valid_utf8(t.subrange(k, t.len() as int)),
        on_boundary(t.subrange(k, t.len() as int), p - k),
{
    assert(valid_utf8(t.subrange(k, t.len() as int)));
    if p < t.len() {
        assert(!is_continuation_byte(t[p]));
        assert(t.subrange(k, t.len() as int)[p - k] == t[p]);
    }
}

/// Splitting a valid text at a boundary and joining the parts gives it back.
pub proof fn lemma_split_join(t: Seq<u8>, k: int)
    requires
        0 <= k <= t.len(),
    ensures
        t.subrange(0, k) + t.subrange(k, t.len() as int) == t,
{
    assert(t.subrange(0, k) + t.subrange(k, t.len() as int) =~= t);
}

/// Fewer chars precede an earlier boundary.
pub proof fn lemma_chars_before_monotone(t: Seq<u8>, p: int, q: int)
    requires
        valid_utf8(t),
        on_boundary(t, p),
        on_boundary(t, q),
        p <= q,
    ensures
        decode_utf8(t.subrange(0, p)).len() <= decode_utf8(t.subrange(0, q)).len(),
        decode_utf8(t.subrange(0, q)).len() <= decode_utf8(t).len(),
{
    lemma_boundary_in_prefix(t, q, p);
    let tq = t.subrange(0, q);
    assert(tq.subrange(0, p) =~= t.subrange(0, p));
    assert(decode_utf8(tq) =~= decode_utf8(tq.subrange(0, p)) + decode_utf8(
        tq.subrange(p, tq.len() as int),
    ));
    assert(decode_utf8(t) =~= decode_utf8(t.subrange(0, q)) + decode_utf8(
        t.subrange(q, t.len() as int),
    ));
}

/// In a valid text a position is a char boundary exactly when it is the end
/// or its byte is not a continuation byte.
pub proof fn lemma_boundary_by_byte(t: Seq<u8>, p: int)
    requires
        valid_utf8(t),
        0 <= p <= t.len(),
    ensures
        is_char_boundary(t, p) <==> (p == t.len() || !is_continuation_byte(t[p])),
{
}

/// A valid text has no more chars than bytes.
pub proof fn lemma_char_count_bound(t: Seq<u8>)
    requires
        valid_utf8(t),
    ensures
        decode_utf8(t).len() <= t.len(),
    decreases t.len(),
{
    if t.len() > 0 {
        let rest = pop_first_scalar(t);
        assert(length_of_first_scalar(t) >= 1);
        assert(length_of_first_scalar(t) <= t.len());
        assert(rest.len() < t.len());
        lemma_char_count_bound(rest);
    }
}

/// Encoding two char sequences one after the other.
pub proof fn lemma_encode_concat(a: Seq<char>, b: Seq<char>)
    ensures
        encode_utf8(a + b) == encode_utf8(a) + encode_utf8(b),
    decreases a.len(),
{
    if a.len() == 0 {
        assert(a + b =~= b);
        assert(encode_utf8(a) =~= Seq::<u8>::empty());
        assert(encode_utf8(a) + encode_utf8(b) =~= encode_utf8(b));
    } else {
        assert((a + b)[0] == a[0]);
        assert((a + b).drop_first() =~= a.drop_first() + b);
        lemma_encode_concat(a.drop_first(), b);
        assert(encode_utf8(a + b) =~= encode_utf8(a) + encode_utf8(b));
    }
}

} // verus!
