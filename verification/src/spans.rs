//! Half-open ranges of line numbers: sorting them by their start and merging
//! those that overlap or touch.
use std::ops::Range;
use vstd::prelude::*;

verus! {

/// Whether one of `spans`, each read as the half-open range `start..end`,
/// holds `line`.
pub open spec fn covers(spans: Seq<(int, int)>, line: int) -> bool {
    exists|k: int| 0 <= k < spans.len() && spans[k].0 <= line && line < spans[k].1
}

/// Every range ends before the next one starts: they neither overlap nor touch.
pub open spec fn apart(spans: Seq<(int, int)>) -> bool {
    forall|a: int, b: int| 0 <= a < b < spans.len() ==> #[trigger] spans[a].1 < #[trigger] spans[b].0
}

/// Every range holds at least one line.
pub open spec fn all_nonempty(spans: Seq<(int, int)>) -> bool {
    forall|k: int| 0 <= k < spans.len() ==> #[trigger] spans[k].0 < spans[k].1
}

/// The ranges of `v` as pairs of integers.
pub open spec fn range_pairs(v: Seq<Range<usize>>) -> Seq<(int, int)> {
    Seq::new(v.len(), |i: int| (v[i].start as int, v[i].end as int))
}

/// The pairs of `v` as pairs of integers.
pub open spec fn usize_pairs(v: Seq<(usize, usize)>) -> Seq<(int, int)> {
    Seq::new(v.len(), |i: int| (v[i].0 as int, v[i].1 as int))
}

/// `a` and `b` hold the same pairs, whatever their order and repetitions.
pub open spec fn same_elements(a: Seq<(usize, usize)>, b: Seq<(usize, usize)>) -> bool {
    forall|x: (usize, usize)| a.contains(x) <==> b.contains(x)
}

/// Sorted by start.
pub open spec fn sorted_by_start(v: Seq<(usize, usize)>) -> bool {
    forall|a: int, b: int| 0 <= a < b < v.len() ==> #[trigger] v[a].0 <= #[trigger] v[b].0
}

/// Exchanging two entries keeps the elements.
proof fn lemma_swap_same(s: Seq<(usize, usize)>, i: int, j: int)
    requires
        0 <= i < s.len(),
        0 <= j < s.len(),
    ensures
        same_elements(s.update(i, s[j]).update(j, s[i]), s),
{
    let t = s.update(i, s[j]).update(j, s[i]);
    assert forall|x: (usize, usize)| t.contains(x) <==> s.contains(x) by {
        if t.contains(x) {
            let k = choose|k: int| 0 <= k < t.len() && t[k] == x;
            if k == j {
                assert(s[i] == x);
            } else if k == i {
                assert(s[j] == x);
            } else {
                assert(s[k] == x);
            }
        }
        if s.contains(x) {
            let k = choose|k: int| 0 <= k < s.len() && s[k] == x;
            if k == i {
                assert(t[j] == x);
            } else if k == j {
                if i == j {
                    assert(t[j] == x);
                } else {
                    assert(t[i] == x);
                }
            } else {
                assert(t[k] == x);
            }
        }
    }
}

/// Two lists with the same elements cover the same lines, and one has only
/// non-empty ranges when the other has.
pub(crate) proof fn lemma_same_covers(a: Seq<(usize, usize)>, b: Seq<(usize, usize)>)
    requires
        same_elements(a, b),
    ensures
        forall|line: int| covers(usize_pairs(a), line) <==> covers(usize_pairs(b), line),
        all_nonempty(usize_pairs(a)) <==> all_nonempty(usize_pairs(b)),
{
    assert forall|line: int| covers(usize_pairs(a), line) implies covers(usize_pairs(b), line) by {
        let k = choose|k: int| 0 <= k < usize_pairs(a).len() && usize_pairs(a)[k].0 <= line && line < usize_pairs(a)[k].1;
        assert(a.contains(a[k]));
        let j = choose|j: int| 0 <= j < b.len() && b[j] == a[k];
        assert(usize_pairs(b)[j] == usize_pairs(a)[k]);
    }
    assert forall|line: int| covers(usize_pairs(b), line) implies covers(usize_pairs(a), line) by {
        let k = choose|k: int| 0 <= k < usize_pairs(b).len() && usize_pairs(b)[k].0 <= line && line < usize_pairs(b)[k].1;
        assert(b.contains(b[k]));
        let j = choose|j: int| 0 <= j < a.len() && a[j] == b[k];
        assert(usize_pairs(a)[j] == usize_pairs(b)[k]);
    }
    if all_nonempty(usize_pairs(a)) {
        assert forall|k: int| 0 <= k < usize_pairs(b).len() implies #[trigger] usize_pairs(b)[k].0 < usize_pairs(b)[k].1 by {
            assert(b.contains(b[k]));
            let j = choose|j: int| 0 <= j < a.len() && a[j] == b[k];
            assert(usize_pairs(a)[j] == usize_pairs(b)[k]);
        }
    }
    if all_nonempty(usize_pairs(b)) {
        assert forall|k: int| 0 <= k < usize_pairs(a).len() implies #[trigger] usize_pairs(a)[k].0 < usize_pairs(a)[k].1 by {
            assert(a.contains(a[k]));
            let j = choose|j: int| 0 <= j < b.len() && b[j] == a[k];
            assert(usize_pairs(b)[j] == usize_pairs(a)[k]);
        }
    }
}

/// Sorts `v` by start, by insertion.
pub(crate) fn sort_by_start(v: &mut Vec<(usize, usize)>)
    ensures
        final(v)@.len() == old(v)@.len(),
        same_elements(final(v)@, old(v)@),
        sorted_by_start(final(v)@),
{
    let n = v.len();
    let mut i: usize = 0;
    while i < n
        invariant
            n == v@.len(),
            i <= n,
            same_elements(v@, old(v)@),
            forall|a: int, b: int| 0 <= a < b < i ==> #[trigger] v@[a].0 <= #[trigger] v@[b].0,
        decreases n - i,
    {
        let mut j: usize = i;
        while j > 0 && v[j - 1].0 > v[j].0
            invariant
                n == v@.len(),
                i < n,
                j <= i,
                same_elements(v@, old(v)@),
                forall|a: int, b: int|
                    0 <= a < b <= i && a != j && b != j ==> #[trigger] v@[a].0 <= #[trigger] v@[b].0,
                forall|b: int| j < b <= i ==> v@[j as int].0 <= #[trigger] v@[b].0,
            decreases j,
        {
            let ghost w = v@;
            let x = v[j - 1];
            let y = v[j];
            v.set(j - 1, y);
            v.set(j, x);
            proof {
                lemma_swap_same(w, j - 1, j as int);
                assert(v@ == w.update(j - 1, w[j as int]).update(j as int, w[j - 1]));
            }
            j = j - 1;
        }
        proof {
            assert forall|a: int, b: int| 0 <= a < b <= i implies #[trigger] v@[a].0 <= #[trigger] v@[b].0 by {
                if b == j && a < j - 1 {
                    assert(v@[a].0 <= v@[j - 1].0);
                }
            }
        }
        i = i + 1;
    }
}

/// Merges the ranges of `v`, sorted by start, wherever one overlaps or touches
/// the next.
pub(crate) fn merge_sorted(v: &Vec<(usize, usize)>) -> (m: Vec<(usize, usize)>)
    requires
        sorted_by_start(v@),
    ensures
        forall|line: int| covers(usize_pairs(m@), line) <==> covers(usize_pairs(v@), line),
        apart(usize_pairs(m@)),
        all_nonempty(usize_pairs(v@)) ==> all_nonempty(usize_pairs(m@)),
{
    let n = v.len();
    let mut m: Vec<(usize, usize)> = Vec::new();
    let mut i: usize = 0;
    while i < n
        invariant
            n == v@.len(),
            i <= n,
            sorted_by_start(v@),
            forall|line: int| covers(usize_pairs(m@), line) <==> covers(usize_pairs(v@.take(i as int)), line),
            apart(usize_pairs(m@)),
            all_nonempty(usize_pairs(v@)) ==> all_nonempty(usize_pairs(m@)),
            m@.len() > 0 ==> forall|b: int| i <= b < n ==> m@.last().0 <= #[trigger] v@[b].0,
        decreases n - i,
    {
        let s = v[i];
        let len = m.len();
        let ghost pm = usize_pairs(m@);
        let ghost pv = usize_pairs(v@.take(i as int));
        let ghost pv2 = usize_pairs(v@.take(i + 1));
        proof {
            assert(pv2 == pv.push((s.0 as int, s.1 as int)));
            if all_nonempty(usize_pairs(v@)) {
                assert(usize_pairs(v@)[i as int].0 < usize_pairs(v@)[i as int].1);
            }
        }
        if len > 0 && m[len - 1].1 >= s.0 {
            let last = m[len - 1];
            let end = if s.1 > last.1 { s.1 } else { last.1 };
            m.set(len - 1, (last.0, end));
            proof {
                let pm2 = usize_pairs(m@);
                assert(pm2 == pm.update(len - 1, (last.0 as int, end as int)));
                assert forall|line: int| covers(pm2, line) <==> covers(pv2, line) by {
                    if covers(pm2, line) {
                        let k = choose|k: int| 0 <= k < pm2.len() && pm2[k].0 <= line && line < pm2[k].1;
                        if k == len - 1 {
                            if line < last.1 {
                                assert(pm[k].0 <= line && line < pm[k].1);
                                assert(covers(pm, line));
                                assert(covers(pv, line));
                                let q = choose|q: int| 0 <= q < pv.len() && pv[q].0 <= line && line < pv[q].1;
                                assert(pv2[q] == pv[q]);
                            } else {
                                assert(pv2[i as int].0 <= line && line < pv2[i as int].1);
                            }
                        } else {
                            assert(pm[k] == pm2[k]);
                            assert(covers(pm, line));
                            assert(covers(pv, line));
                            let q = choose|q: int| 0 <= q < pv.len() && pv[q].0 <= line && line < pv[q].1;
                            assert(pv2[q] == pv[q]);
                        }
                    }
                    if covers(pv2, line) {
                        let q = choose|q: int| 0 <= q < pv2.len() && pv2[q].0 <= line && line < pv2[q].1;
                        if q == i {
                            assert(pm2[len - 1].0 <= line && line < pm2[len - 1].1);
                        } else {
                            assert(pv[q] == pv2[q]);
                            assert(covers(pm, line));
                            let k = choose|k: int| 0 <= k < pm.len() && pm[k].0 <= line && line < pm[k].1;
                            if k == len - 1 {
                                assert(pm2[k].0 <= line && line < pm2[k].1);
                            } else {
                                assert(pm2[k] == pm[k]);
                            }
                        }
                    }
                }
            }
        } else {
            m.push(s);
            proof {
                let pm2 = usize_pairs(m@);
                assert(pm2 == pm.push((s.0 as int, s.1 as int)));
                assert forall|line: int| covers(pm2, line) <==> covers(pv2, line) by {
                    if covers(pm2, line) {
                        let k = choose|k: int| 0 <= k < pm2.len() && pm2[k].0 <= line && line < pm2[k].1;
                        if k == len {
                            assert(pv2[i as int].0 <= line && line < pv2[i as int].1);
                        } else {
                            assert(pm[k] == pm2[k]);
                            assert(covers(pm, line));
                            assert(covers(pv, line));
                            let q = choose|q: int| 0 <= q < pv.len() && pv[q].0 <= line && line < pv[q].1;
                            assert(pv2[q] == pv[q]);
                        }
                    }
                    if covers(pv2, line) {
                        let q = choose|q: int| 0 <= q < pv2.len() && pv2[q].0 <= line && line < pv2[q].1;
                        if q == i {
                            assert(pm2[len as int].0 <= line && line < pm2[len as int].1);
                        } else {
                            assert(pv[q] == pv2[q]);
                            assert(covers(pm, line));
                            let k = choose|k: int| 0 <= k < pm.len() && pm[k].0 <= line && line < pm[k].1;
                            assert(pm2[k] == pm[k]);
                        }
                    }
                }
                if len > 0 {
                    assert forall|a: int, b: int| 0 <= a < b < pm2.len() implies #[trigger] pm2[a].1 < #[trigger] pm2[b].0 by {
                        if b == len {
                            assert(pm[len - 1].0 <= s.0);
                            if a < len - 1 {
                                assert(pm[a].1 < pm[len - 1].0);
                            }
                        } else {
                            assert(pm2[a] == pm[a] && pm2[b] == pm[b]);
                        }
                    }
                }
            }
        }
        i = i + 1;
    }
    proof {
        assert(v@.take(n as int) == v@);
    }
    m
}

} // verus!
