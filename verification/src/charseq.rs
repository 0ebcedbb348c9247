//! Sequences of chars: prefixes, searches, trimming, and UTF-8 lengths.
use crate::chars::{char_is_whitespace, is_whitespace};
use vstd::prelude::*;
use vstd::utf8::*;

verus! {

/// The number of bytes that `c` takes in UTF-8.
pub open spec fn char_len(c: char) -> nat {
    if (c as u32) < 0x80 {
        1
    } else if (c as u32) < 0x800 {
        2
    } else if (c as u32) < 0x10000 {
        3
    } else {
        4
    }
}

/// The number of bytes that `cs` takes in UTF-8.
pub open spec fn byte_len(cs: Seq<char>) -> nat
    decreases cs.len(),
{
    if cs.len() == 0 {
        0
    } else {
        byte_len(cs.drop_last()) + char_len(cs.last())
    }
}

/// `b` is a prefix of `a`.
pub open spec fn has_prefix(a: Seq<char>, b: Seq<char>) -> bool {
    b.len() <= a.len() && a.subrange(0, b.len() as int) == b
}

/// The index of the first char of `cs` from `i` on that is not whitespace.
pub open spec fn skip_ws(cs: Seq<char>, i: int) -> int
    decreases cs.len() - i,
{
    if i < 0 || i >= cs.len() {
        cs.len() as int
    } else if is_whitespace(cs[i]) {
        skip_ws(cs, i + 1)
    } else {
        i
    }
}

/// `cs` without its leading whitespace (as `str::trim_start`).
pub open spec fn trim_start(cs: Seq<char>) -> Seq<char> {
    cs.subrange(skip_ws(cs, 0), cs.len() as int)
}

/// The first index of `c` in `cs` from `i` on.
pub open spec fn find_from(cs: Seq<char>, c: char, i: int) -> Option<int>
    decreases cs.len() - i,
{
    if i < 0 || i >= cs.len() {
        None
    } else if cs[i] == c {
        Some(i)
    } else {
        find_from(cs, c, i + 1)
    }
}

/// The last index of `c` among the first `n` chars of `cs`.
pub open spec fn rfind_below(cs: Seq<char>, c: char, n: int) -> Option<int>
    decreases n,
{
    if n <= 0 || n > cs.len() {
        None
    } else if cs[n - 1] == c {
        Some(n - 1)
    } else {
        rfind_below(cs, c, n - 1)
    }
}

/// The index of the first char that starts at byte `pos`, if one does.
pub open spec fn char_index_at(cs: Seq<char>, pos: int) -> Option<int>
    decreases cs.len(),
{
    if pos == byte_len(cs) {
        Some(cs.len() as int)
    } else if cs.len() == 0 {
        None
    } else {
        char_index_at(cs.drop_last(), pos)
    }
}

/// The UTF-8 length of a char.
pub fn utf8_len(c: char) -> (n: usize)
    ensures
        n == char_len(c),
        1 <= n <= 4,
{
    let u = c as u32;
    if u < 0x80 {
        1
    } else if u < 0x800 {
        2
    } else if u < 0x10000 {
        3
    } else {
        4
    }
}

/// A longer prefix takes more bytes.
pub proof fn lemma_byte_len_prefix(cs: Seq<char>, i: int, j: int)
    requires
        0 <= i <= j <= cs.len(),
    ensures
        byte_len(cs.subrange(0, i)) <= byte_len(cs.subrange(0, j)),
        byte_len(cs.subrange(0, j)) <= byte_len(cs),
    decreases cs.len(), j,
{
    if j < cs.len() {
        lemma_byte_len_prefix(cs.drop_last(), i, j);
        assert(cs.drop_last().subrange(0, i) =~= cs.subrange(0, i));
        assert(cs.drop_last().subrange(0, j) =~= cs.subrange(0, j));
    } else if i < j {
        lemma_byte_len_prefix(cs, i, j - 1);
        assert(cs.subrange(0, j).drop_last() =~= cs.subrange(0, j - 1));
    } else {
        assert(cs.subrange(0, j) =~= cs);
    }
}

/// Bytes of a concatenation add up.
pub proof fn lemma_byte_len_concat(a: Seq<char>, b: Seq<char>)
    ensures
        byte_len(a + b) == byte_len(a) + byte_len(b),
    decreases b.len(),
{
    if b.len() == 0 {
        assert(a + b =~= a);
    } else {
        lemma_byte_len_concat(a, b.drop_last());
        assert((a + b).drop_last() =~= a + b.drop_last());
    }
}

/// One char takes as many bytes as its UTF-8 encoding.
proof fn lemma_char_len_encode(c: char)
    ensures
        encode_scalar(c as u32).len() == char_len(c),
{
    char_is_scalar(c);
}

/// The bytes of `cs` are those of its UTF-8 encoding.
pub proof fn lemma_byte_len_encode(cs: Seq<char>)
    ensures
        byte_len(cs) == encode_utf8(cs).len(),
    decreases cs.len(),
{
    if cs.len() > 0 {
        lemma_byte_len_encode(cs.drop_first());
        lemma_char_len_encode(cs[0]);
        lemma_byte_len_concat(seq![cs[0]], cs.drop_first());
        assert(seq![cs[0]] + cs.drop_first() =~= cs);
        let one = seq![cs[0]];
        assert(one.drop_last() =~= Seq::<char>::empty());
        assert(one.last() == cs[0]);
        assert(byte_len(Seq::<char>::empty()) == 0);
        assert(byte_len(one) == byte_len(one.drop_last()) + char_len(one.last()));
    }
}

/// The UTF-8 length of the first `n` chars.
pub fn prefix_byte_len(cs: &[char], n: usize) -> (b: usize)
    requires
        n <= cs@.len(),
        byte_len(cs@) <= usize::MAX,
    ensures
        b == byte_len(cs@.subrange(0, n as int)),
{
    let mut total: usize = 0;
    let mut i: usize = 0;
    while i < n
        invariant
            n <= cs@.len(),
            byte_len(cs@) <= usize::MAX,
            i <= n,
            total == byte_len(cs@.subrange(0, i as int)),
        decreases n - i,
    {
        proof {
            lemma_byte_len_prefix(cs@, i + 1, cs@.len() as int);
            assert(cs@.subrange(0, i + 1).drop_last() =~= cs@.subrange(0, i as int));
        }
        total = total + utf8_len(cs[i]);
        i = i + 1;
    }
    total
}

/// The index of the first char that is not whitespace (or the length).
pub fn first_non_ws(cs: &[char]) -> (i: usize)
    ensures
        i == skip_ws(cs@, 0),
        i <= cs@.len(),
{
    let mut i: usize = 0;
    while i < cs.len() && char_is_whitespace(cs[i])
        invariant
            i <= cs@.len(),
            skip_ws(cs@, 0) == skip_ws(cs@, i as int),
        decreases cs@.len() - i,
    {
        i = i + 1;
    }
    i
}

/// Whether `b` is a prefix of `a`.
pub fn starts_with(a: &[char], b: &[char]) -> (r: bool)
    ensures
        r == has_prefix(a@, b@),
{
    if b.len() > a.len() {
        return false;
    }
    let mut i: usize = 0;
    while i < b.len()
        invariant
            b@.len() <= a@.len(),
            i <= b@.len(),
            a@.subrange(0, i as int) == b@.subrange(0, i as int),
        decreases b@.len() - i,
    {
        if a[i] != b[i] {
            proof {
                assert(a@.subrange(0, b@.len() as int)[i as int] == a@[i as int]);
            }
            return false;
        }
        proof {
            assert(a@.subrange(0, i + 1) =~= a@.subrange(0, i as int).push(a@[i as int]));
            assert(b@.subrange(0, i + 1) =~= b@.subrange(0, i as int).push(b@[i as int]));
        }
        i = i + 1;
    }
    assert(b@.subrange(0, b@.len() as int) =~= b@);
    true
}

/// The first index of `c` in `cs`.
pub fn find_char(cs: &[char], c: char) -> (r: Option<usize>)
    ensures
        r matches Some(i) ==> find_from(cs@, c, 0) == Some(i as int) && i < cs@.len(),
        r is None ==> find_from(cs@, c, 0) is None,
{
    let mut i: usize = 0;
    while i < cs.len()
        invariant
            i <= cs@.len(),
            find_from(cs@, c, 0) == find_from(cs@, c, i as int),
        decreases cs@.len() - i,
    {
        if cs[i] == c {
            return Some(i);
        }
        i = i + 1;
    }
    None
}

/// The last index of `c` in `cs`.
pub fn rfind_char(cs: &[char], c: char) -> (r: Option<usize>)
    ensures
        r matches Some(i) ==> rfind_below(cs@, c, cs@.len() as int) == Some(i as int) && i < cs@.len(),
        r is None ==> rfind_below(cs@, c, cs@.len() as int) is None,
{
    let mut n = cs.len();
    while n > 0
        invariant
            n <= cs@.len(),
            rfind_below(cs@, c, cs@.len() as int) == rfind_below(cs@, c, n as int),
        decreases n,
    {
        if cs[n - 1] == c {
            return Some(n - 1);
        }
        n = n - 1;
    }
    None
}

/// A copy of `cs[a..b]`.
pub fn sub_vec(cs: &[char], a: usize, b: usize) -> (r: Vec<char>)
    requires
        a <= b <= cs@.len(),
    ensures
        r@ == cs@.subrange(a as int, b as int),
{
    let mut r: Vec<char> = Vec::new();
    let mut k = a;
    while k < b
        invariant
            a <= k <= b <= cs@.len(),
            r@ == cs@.subrange(a as int, k as int),
        decreases b - k,
    {
        r.push(cs[k]);
        proof {
            assert(r@ =~= cs@.subrange(a as int, k + 1));
        }
        k = k + 1;
    }
    r
}

} // verus!
