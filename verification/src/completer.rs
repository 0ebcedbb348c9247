//! The menu of completion suggestions shown under the cursor line.
use crate::grapheme::{display_width, str_width};
use crate::strings::{push_char, push_str, string_of};
use radix_trie::TrieCommon;
use vstd::prelude::*;
use vstd::utf8::encode_utf8;

verus! {

/// The columns that a suggestion takes in the menu: its width and a space
/// on either side.
pub open spec fn item_width(s: Seq<char>) -> int {
    display_width(s) as int + 2
}

/// A suggestion as the menu shows it when it is not the current one.
pub open spec fn piece(s: Seq<char>) -> Seq<char> {
    seq![' '] + s + seq![' ']
}

/// The pieces of suggestions `a` to before `b`, in order.
pub open spec fn pieces(sugs: Seq<Seq<char>>, a: int, b: int) -> Seq<char>
    decreases b - a,
{
    if b <= a {
        Seq::empty()
    } else {
        pieces(sugs, a, b - 1) + piece(sugs[b - 1])
    }
}

/// Going left from suggestion `j - 1`, the first suggestion that still fits
/// when the menu already takes `width` columns of `max`.
pub open spec fn left_start(sugs: Seq<Seq<char>>, j: int, width: int, max: int) -> int
    decreases j,
{
    if j <= 0 {
        0
    } else if width + item_width(sugs[j - 1]) > max {
        j
    } else {
        left_start(sugs, j - 1, width + item_width(sugs[j - 1]), max)
    }
}

/// The columns taken once the suggestions from `left_start` on are added.
pub open spec fn left_width(sugs: Seq<Seq<char>>, j: int, width: int, max: int) -> int
    decreases j,
{
    if j <= 0 {
        width
    } else if width + item_width(sugs[j - 1]) > max {
        width
    } else {
        left_width(sugs, j - 1, width + item_width(sugs[j - 1]), max)
    }
}

/// Going right from suggestion `j`, where the suggestions that still fit end.
pub open spec fn right_end(sugs: Seq<Seq<char>>, j: int, width: int, max: int) -> int
    decreases sugs.len() - j,
{
    if j < 0 || j >= sugs.len() {
        sugs.len() as int
    } else if width + item_width(sugs[j]) > max {
        j
    } else {
        right_end(sugs, j + 1, width + item_width(sugs[j]), max)
    }
}

/// The menu line for suggestion `idx` within `max_width` columns: the
/// current suggestion in brackets; the next one if it fits strictly; then as
/// many earlier ones as fit, nearest first; then as many later ones as fit.
pub open spec fn menu_line(sugs: Seq<Seq<char>>, idx: int, max_width: int) -> Seq<char> {
    let max = max_width - 2;
    let w0 = item_width(sugs[idx]);
    let take_next = idx + 1 < sugs.len() && w0 + item_width(sugs[idx + 1]) < max;
    let w1 = if take_next {
        w0 + item_width(sugs[idx + 1])
    } else {
        w0
    };
    let a = left_start(sugs, idx, w1, max);
    let w2 = left_width(sugs, idx, w1, max);
    let e = right_end(sugs, idx + 2, w2, max);
    pieces(sugs, a, idx) + seq!['['] + sugs[idx] + seq![']'] + (if take_next {
        piece(sugs[idx + 1])
    } else {
        Seq::empty()
    }) + (if idx + 2 <= e {
        pieces(sugs, idx + 2, e)
    } else {
        Seq::empty()
    })
}

/// The index after `i` among `n`, going round from the last to the first.
pub open spec fn next_index(i: int, n: int) -> int {
    if i + 1 < n {
        i + 1
    } else {
        0
    }
}

/// The index before `i` among `n`, going round from the first to the last.
pub open spec fn previous_index(i: int, n: int) -> int {
    if i > 0 {
        i - 1
    } else {
        n - 1
    }
}

/// Cycling through a menu forward and then backward, or backward and then
/// forward, comes back to the same suggestion.
pub proof fn lemma_cycle_round_trip(i: int, n: int)
    requires
        0 <= i < n,
    ensures
        previous_index(next_index(i, n), n) == i,
        next_index(previous_index(i, n), n) == i,
        0 <= next_index(i, n) < n,
        0 <= previous_index(i, n) < n,
{
}

/// Completion suggestions, one of which is the current one.
pub struct SuggestionMenu {
    current_idx: usize,
    suggestions: Vec<String>,
}

impl SuggestionMenu {
    /// The suggestions, as char sequences.
    pub closed spec fn spec_suggestions(&self) -> Seq<Seq<char>> {
        self.suggestions@.map_values(|s: String| s@)
    }

    /// The index of the current suggestion.
    pub closed spec fn spec_index(&self) -> int {
        self.current_idx as int
    }

    /// There is a current suggestion.
    pub open spec fn wf(&self) -> bool {
        0 <= self.spec_index() < self.spec_suggestions().len()
    }

    /// A menu of the given suggestions, the first one current.
    pub fn new(suggestions: Vec<String>) -> (m: Self)
        requires
            suggestions@.len() > 0,
        ensures
            m.wf(),
            m.spec_index() == 0,
            m.spec_suggestions() == suggestions@.map_values(|s: String| s@),
    {
        SuggestionMenu { current_idx: 0, suggestions }
    }

    /// The current suggestion.
    pub fn current(&self) -> (s: &str)
        requires
            self.wf(),
        ensures
            s@ == self.spec_suggestions()[self.spec_index()],
    {
        self.suggestions[self.current_idx].as_str()
    }

    /// Makes the next suggestion current, going round from the last to the first.
    pub fn cycle_next(&mut self)
        requires
            old(self).wf(),
        ensures
            final(self).wf(),
            final(self).spec_suggestions() == old(self).spec_suggestions(),
            final(self).spec_index() == next_index(old(self).spec_index(), old(self).spec_suggestions().len() as int),
    {
        assert(self.suggestions@.len() == self.spec_suggestions().len());
        if self.current_idx < self.suggestions.len() - 1 {
            self.current_idx = self.current_idx + 1;
        } else {
            self.current_idx = 0;
        }
    }

    /// Makes the previous suggestion current, going round from the first to the last.
    pub fn cycle_previous(&mut self)
        requires
            old(self).wf(),
        ensures
            final(self).wf(),
            final(self).spec_suggestions() == old(self).spec_suggestions(),
            final(self).spec_index() == previous_index(old(self).spec_index(), old(self).spec_suggestions().len() as int),
    {
        assert(self.suggestions@.len() == self.spec_suggestions().len());
        if self.current_idx > 0 {
            self.current_idx = self.current_idx - 1;
        } else {
            self.current_idx = self.suggestions.len() - 1;
        }
    }

    /// The menu as one line of at most `max_width` columns: see `menu_line`.
    pub fn render(&self, max_width: usize) -> (line: String)
        requires
            self.wf(),
            max_width >= 2,
        ensures
            line@ == menu_line(self.spec_suggestions(), self.spec_index(), max_width as int),
    {
        let ghost sugs = self.spec_suggestions();
        let idx = self.current_idx;
        let n = self.suggestions.len();
        let max: u128 = (max_width - 2) as u128;
        let cur = self.suggestions[idx].as_str();
        proof {
            assert(sugs[idx as int] == self.suggestions@[idx as int]@);
        }
        let w0: u128 = str_width(cur) as u128 + 2;
        let take_next = if idx + 1 < n {
            let wn = str_width(self.suggestions[idx + 1].as_str()) as u128 + 2;
            proof {
                assert(sugs[idx + 1] == self.suggestions@[idx + 1]@);
            }
            w0 + wn < max
        } else {
            false
        };
        let w1: u128 = if take_next {
            w0 + str_width(self.suggestions[idx + 1].as_str()) as u128 + 2
        } else {
            w0
        };
        // earlier suggestions, nearest first
        let mut a: usize = idx;
        let mut width: u128 = w1;
        while a > 0
            invariant
                sugs == self.spec_suggestions(),
                n == sugs.len(),
                a <= idx < n,
                width <= w1 + max,
                w1 <= 2 * (u64::MAX as int + 2),
                max <= usize::MAX,
                left_start(sugs, idx as int, w1 as int, max as int) == left_start(sugs, a as int, width as int, max as int),
                left_width(sugs, idx as int, w1 as int, max as int) == left_width(sugs, a as int, width as int, max as int),
            ensures
                a <= idx,
                width <= w1 + max,
                left_start(sugs, idx as int, w1 as int, max as int) == a,
                left_width(sugs, idx as int, w1 as int, max as int) == width,
            decreases a,
        {
            let w = str_width(self.suggestions[a - 1].as_str()) as u128 + 2;
            proof {
                assert(sugs[a - 1] == self.suggestions@[a - 1]@);
            }
            if width + w > max {
                break;
            }
            width = width + w;
            a = a - 1;
        }
        // later suggestions
        let mut e: usize = if idx + 1 < n {
            idx + 2
        } else {
            n
        };
        let w2 = width;
        let ghost e0 = e;
        proof {
            assert(left_start(sugs, idx as int, w1 as int, max as int) == a);
            assert(left_width(sugs, idx as int, w1 as int, max as int) == w2);
        }
        let mut width2: u128 = w2;
        while e < n
            invariant
                sugs == self.spec_suggestions(),
                n == sugs.len(),
                e <= n,
                idx + 2 <= e || e == n,
                width2 <= w2 + max,
                w2 <= w1 + max,
                w1 <= 2 * (u64::MAX as int + 2),
                max <= usize::MAX,
                right_end(sugs, idx + 2, w2 as int, max as int) == right_end(sugs, e as int, width2 as int, max as int),
            ensures
                e <= n,
                idx + 2 <= e || e == n,
                right_end(sugs, idx + 2, w2 as int, max as int) == e,
            decreases n - e,
        {
            let w = str_width(self.suggestions[e].as_str()) as u128 + 2;
            proof {
                assert(sugs[e as int] == self.suggestions@[e as int]@);
            }
            if width2 + w > max {
                break;
            }
            width2 = width2 + w;
            e = e + 1;
        }
        let mut line = String::new();
        let mut k = a;
        while k < idx
            invariant
                sugs == self.spec_suggestions(),
                n == sugs.len(),
                a <= k <= idx < n,
                line@ == pieces(sugs, a as int, k as int),
            decreases idx - k,
        {
            push_char(&mut line, ' ');
            push_str(&mut line, self.suggestions[k].as_str());
            push_char(&mut line, ' ');
            proof {
                assert(sugs[k as int] == self.suggestions@[k as int]@);
                assert(line@ =~= pieces(sugs, a as int, k + 1));
            }
            k = k + 1;
        }
        push_char(&mut line, '[');
        push_str(&mut line, cur);
        push_char(&mut line, ']');
        if take_next {
            push_char(&mut line, ' ');
            push_str(&mut line, self.suggestions[idx + 1].as_str());
            push_char(&mut line, ' ');
        }
        let ghost before_rest = line@;
        let mut k = e;
        if idx + 1 < n {
            k = idx + 2;
        }
        proof {
            if k == e {
                assert(pieces(sugs, idx + 2, k as int) =~= Seq::<char>::empty());
            }
        }
        while k < e
            invariant
                sugs == self.spec_suggestions(),
                n == sugs.len(),
                k <= e <= n,
                idx + 2 <= k || k == e,
                line@ == before_rest + pieces(sugs, idx + 2, k as int),
            decreases e - k,
        {
            push_char(&mut line, ' ');
            push_str(&mut line, self.suggestions[k].as_str());
            push_char(&mut line, ' ');
            proof {
                assert(sugs[k as int] == self.suggestions@[k as int]@);
                assert(line@ =~= before_rest + pieces(sugs, idx + 2, k + 1));
            }
            k = k + 1;
        }
        proof {
            let mid = if take_next {
                piece(sugs[idx + 1])
            } else {
                Seq::<char>::empty()
            };
            if idx + 2 > e {
                assert(pieces(sugs, idx + 2, k as int) =~= Seq::<char>::empty());
            }
            assert(line@ =~= menu_line(sugs, idx as int, max_width as int));
        }
        line
    }
}

/// What completing a word gives: nothing, one replacement, or a menu.
pub enum CompletionResult {
    NoResults,
    ReplaceWith(String),
    Menu(SuggestionMenu),
}

/// A completion result, with its strings as char sequences.
pub enum CompletionView {
    NoResults,
    ReplaceWith(Seq<char>),
    Menu(Seq<Seq<char>>, int),
}

impl CompletionResult {
    pub open spec fn view(&self) -> CompletionView {
        match self {
            CompletionResult::NoResults => CompletionView::NoResults,
            CompletionResult::ReplaceWith(s) => CompletionView::ReplaceWith(s@),
            CompletionResult::Menu(m) => CompletionView::Menu(m.spec_suggestions(), m.spec_index()),
        }
    }
}

#[verifier::external_type_specification]
#[verifier::external_body]
#[verifier::reject_recursive_types(K)]
#[verifier::reject_recursive_types(V)]
pub struct ExTrie<K, V>(radix_trie::Trie<K, V>);

/// The entries of a trie, key to value.
pub uninterp spec fn trie_entries(t: radix_trie::Trie<String, String>) -> Map<Seq<char>, Seq<char>>;

/// A table without entries.
pub open spec fn no_entries() -> Map<Seq<char>, Seq<char>> {
    Map::empty()
}

/// `Trie::new`: an empty trie.
#[verifier::external_body]
fn new_trie() -> (t: radix_trie::Trie<String, String>)
    ensures
        trie_entries(t) == no_entries(),
{
    radix_trie::Trie::new()
}

/// `Trie::insert`: the key now maps to the value.
#[verifier::external_body]
fn trie_insert(t: &mut radix_trie::Trie<String, String>, key: String, value: String)
    ensures
        trie_entries(*final(t)) == trie_entries(*old(t)).insert(key@, value@),
{
    t.insert(key, value);
}

/// The subtrie that `Trie::get_raw_descendant` finds for a stem, as plain
/// values: whether its node has no children, the key and value stored at
/// its node, and all its keys and values in the order in which the trie
/// walks them.
pub struct Descendant {
    pub leaf: bool,
    pub key: Option<String>,
    pub value: Option<String>,
    pub keys: Vec<String>,
    pub values: Vec<String>,
}

/// The views of a list of strings.
pub open spec fn string_views(v: Seq<String>) -> Seq<Seq<char>> {
    Seq::new(v.len(), |i: int| v[i]@)
}

/// `k` starts with `stem`.
pub open spec fn extends(k: Seq<char>, stem: Seq<char>) -> bool {
    stem.len() <= k.len() && k.subrange(0, stem.len() as int) == stem
}

/// `a` comes before `b` in the order of bytes in which a trie walks its
/// keys: a proper prefix comes first, and otherwise the first byte in which
/// they differ decides.
pub open spec fn bytes_before(a: Seq<u8>, b: Seq<u8>) -> bool {
    ||| a.len() < b.len() && b.subrange(0, a.len() as int) == a
    ||| exists|i: int| 0 <= i < a.len() && i < b.len() && a.subrange(0, i) == b.subrange(0, i) && a[i] < b[i]
}

/// `a` comes before `b` in the order of their UTF-8 bytes.
pub open spec fn key_before(a: Seq<char>, b: Seq<char>) -> bool {
    bytes_before(encode_utf8(a), encode_utf8(b))
}

/// `ks` lists the keys of `m` that extend `stem`, each once, in the order
/// of their bytes.
pub open spec fn lists_extensions(m: Map<Seq<char>, Seq<char>>, stem: Seq<char>, ks: Seq<Seq<char>>) -> bool {
    &&& forall|i: int| 0 <= i < ks.len() ==> m.dom().contains(#[trigger] ks[i]) && extends(ks[i], stem)
    &&& forall|k: Seq<char>| #[trigger] m.dom().contains(k) && extends(k, stem) ==> ks.contains(k)
    &&& forall|i: int, j: int| 0 <= i < j < ks.len() ==> key_before(#[trigger] ks[i], #[trigger] ks[j])
}

/// What a lookup of a stem in a trie with entries `m` gives, as
/// `Trie::get_raw_descendant` finds it. With no subtrie no key extends the
/// stem. A subtrie lists each entry whose key extends the stem once, with
/// its value, in the order of their bytes; the key at its node, if any,
/// comes first and has its value. Its node has no children exactly when it
/// holds no key other than its own. For a non-empty stem the node is below
/// the root, where a node without a key of its own has at least two keys
/// below it; for the empty stem it is the root, whose own key is the empty
/// one.
pub open spec fn descendant_fits(m: Map<Seq<char>, Seq<char>>, stem: Seq<char>, r: Option<Descendant>) -> bool {
    match r {
        None => forall|k: Seq<char>| #[trigger] m.dom().contains(k) ==> !extends(k, stem),
        Some(d) => {
            let ks = string_views(d.keys@);
            let vs = string_views(d.values@);
            &&& ks.len() == vs.len()
            &&& lists_extensions(m, stem, ks)
            &&& forall|i: int| 0 <= i < ks.len() ==> m[#[trigger] ks[i]] == vs[i]
            &&& ks.no_duplicates()
            &&& (d.key matches Some(k) ==> ks.len() > 0 && ks[0] == k@ && (d.value matches Some(v)
                && v@ == m[k@]))
            &&& (d.key is None ==> d.value is None)
            &&& (d.leaf <==> (ks.len() == 0 || (ks.len() == 1 && (d.key matches Some(k) && k@ == ks[0]))))
            &&& (stem.len() > 0 && d.key is None ==> ks.len() >= 2)
            &&& (stem.len() == 0 ==> (d.key is Some <==> m.dom().contains(Seq::<char>::empty())))
        },
    }
}

/// The keys of `m` that extend `stem`, in the order of their bytes.
pub open spec fn extension_list(m: Map<Seq<char>, Seq<char>>, stem: Seq<char>) -> Seq<Seq<char>> {
    choose|ks: Seq<Seq<char>>| lists_extensions(m, stem, ks)
}

/// What completing `stem` from a table `m` gives. With no word extending
/// it, nothing. With one word, that word, or what it completes to when it
/// is the stem itself; except that for the empty stem one word other than
/// the empty one comes as a menu. With more words, a menu of them in the
/// order of their bytes, the first one current.
pub open spec fn completion_for(m: Map<Seq<char>, Seq<char>>, stem: Seq<char>) -> CompletionView {
    let ks = extension_list(m, stem);
    if ks.len() == 0 {
        CompletionView::NoResults
    } else if ks.len() == 1 && (stem.len() > 0 || ks[0].len() == 0) {
        if ks[0] == stem {
            CompletionView::ReplaceWith(m[stem])
        } else {
            CompletionView::ReplaceWith(ks[0])
        }
    } else {
        CompletionView::Menu(ks, 0)
    }
}

/// What accepting a completion of `stem` from a table `m` gives: what the
/// first word that extends it, in the order of bytes, completes to.
pub open spec fn acceptance_for(m: Map<Seq<char>, Seq<char>>, stem: Seq<char>) -> CompletionView {
    let ks = extension_list(m, stem);
    if ks.len() > 0 {
        CompletionView::ReplaceWith(m[ks[0]])
    } else {
        CompletionView::NoResults
    }
}

/// No byte string comes before itself, and of two byte strings at most one
/// comes before the other.
proof fn lemma_bytes_before_asym(a: Seq<u8>, b: Seq<u8>)
    ensures
        !bytes_before(a, a),
        !(bytes_before(a, b) && bytes_before(b, a)),
{
    if bytes_before(a, b) && bytes_before(b, a) {
        if a.len() < b.len() && b.subrange(0, a.len() as int) == a {
            let j = choose|j: int| 0 <= j < b.len() && j < a.len() && b.subrange(0, j) == a.subrange(0, j) && b[j] < a[j];
            assert(b[j] == b.subrange(0, a.len() as int)[j]);
        } else if b.len() < a.len() && a.subrange(0, b.len() as int) == b {
            let i = choose|i: int| 0 <= i < a.len() && i < b.len() && a.subrange(0, i) == b.subrange(0, i) && a[i] < b[i];
            assert(a[i] == a.subrange(0, b.len() as int)[i]);
        } else {
            let i = choose|i: int| 0 <= i < a.len() && i < b.len() && a.subrange(0, i) == b.subrange(0, i) && a[i] < b[i];
            let j = choose|j: int| 0 <= j < b.len() && j < a.len() && b.subrange(0, j) == a.subrange(0, j) && b[j] < a[j];
            if i < j {
                assert(a[i] == a.subrange(0, j)[i]);
                assert(b[i] == b.subrange(0, j)[i]);
            } else if j < i {
                assert(a[j] == a.subrange(0, i)[j]);
                assert(b[j] == b.subrange(0, i)[j]);
            }
        }
    }
}

/// Two lists of keys, each in strictly increasing order of bytes, that hold
/// the same keys are the same list.
proof fn lemma_sorted_unique(a: Seq<Seq<char>>, b: Seq<Seq<char>>)
    requires
        forall|i: int, j: int| 0 <= i < j < a.len() ==> key_before(#[trigger] a[i], #[trigger] a[j]),
        forall|i: int, j: int| 0 <= i < j < b.len() ==> key_before(#[trigger] b[i], #[trigger] b[j]),
        forall|x: Seq<char>| a.contains(x) <==> b.contains(x),
    ensures
        a == b,
    decreases a.len(),
{
    if a.len() == 0 {
        if b.len() > 0 {
            assert(b.contains(b[0]));
        }
        assert(a =~= b);
    } else {
        assert(a.contains(a[0]));
        let j = choose|j: int| 0 <= j < b.len() && b[j] == a[0];
        assert(b.contains(b[0]));
        let i = choose|i: int| 0 <= i < a.len() && a[i] == b[0];
        if i > 0 && j > 0 {
            assert(key_before(b[0], b[j]));
            assert(key_before(a[0], a[i]));
            lemma_bytes_before_asym(encode_utf8(a[0]), encode_utf8(b[0]));
        }
        assert(a[0] == b[0]);
        let a1 = a.drop_first();
        let b1 = b.drop_first();
        assert forall|x: Seq<char>| a1.contains(x) implies b1.contains(x) by {
            let k = choose|k: int| 0 <= k < a1.len() && a1[k] == x;
            assert(a[k + 1] == x);
            assert(key_before(a[0], a[k + 1]));
            lemma_bytes_before_asym(encode_utf8(a[0]), encode_utf8(a[0]));
            assert(a.contains(x));
            let l = choose|l: int| 0 <= l < b.len() && b[l] == x;
            assert(l != 0);
            assert(b1[l - 1] == x);
        }
        assert forall|x: Seq<char>| b1.contains(x) implies a1.contains(x) by {
            let k = choose|k: int| 0 <= k < b1.len() && b1[k] == x;
            assert(b[k + 1] == x);
            assert(key_before(b[0], b[k + 1]));
            lemma_bytes_before_asym(encode_utf8(b[0]), encode_utf8(b[0]));
            assert(b.contains(x));
            let l = choose|l: int| 0 <= l < a.len() && a[l] == x;
            assert(l != 0);
            assert(a1[l - 1] == x);
        }
        assert forall|p: int, q: int| 0 <= p < q < a1.len() implies key_before(#[trigger] a1[p], #[trigger] a1[q]) by {
            assert(key_before(a[p + 1], a[q + 1]));
        }
        assert forall|p: int, q: int| 0 <= p < q < b1.len() implies key_before(#[trigger] b1[p], #[trigger] b1[q]) by {
            assert(key_before(b[p + 1], b[q + 1]));
        }
        lemma_sorted_unique(a1, b1);
        assert forall|k: int| 0 <= k < a.len() implies a[k] == b[k] by {
            if k > 0 {
                assert(a[k] == a1[k - 1] && b[k] == b1[k - 1]);
            }
        }
        assert(a =~= b);
    }
}

/// Whatever subtrie a lookup finds, completing and accepting give what
/// `completion_for` and `acceptance_for` say: they depend on the entries
/// and the stem alone.
pub proof fn lemma_lookup_determined(m: Map<Seq<char>, Seq<char>>, stem: Seq<char>, d: Option<Descendant>)
    requires
        descendant_fits(m, stem, d),
    ensures
        completion_of(d, stem) == completion_for(m, stem),
        acceptance_of(d) == acceptance_for(m, stem),
{
    let ks = match d {
        Some(x) => string_views(x.keys@),
        None => Seq::<Seq<char>>::empty(),
    };
    if d is None {
        assert forall|k: Seq<char>| #[trigger] m.dom().contains(k) && extends(k, stem) implies ks.contains(k) by {}
    }
    assert(lists_extensions(m, stem, ks));
    let c = extension_list(m, stem);
    assert(lists_extensions(m, stem, c));
    assert forall|x: Seq<char>| c.contains(x) <==> ks.contains(x) by {
        if c.contains(x) {
            let i = choose|i: int| 0 <= i < c.len() && c[i] == x;
            assert(m.dom().contains(c[i]) && extends(c[i], stem));
        }
        if ks.contains(x) {
            let i = choose|i: int| 0 <= i < ks.len() && ks[i] == x;
            assert(m.dom().contains(ks[i]) && extends(ks[i], stem));
        }
    }
    lemma_sorted_unique(c, ks);
    match d {
        None => {},
        Some(x) => {
            if ks.len() == 1 && !x.leaf && stem.len() == 0 {
                if ks[0].len() == 0 {
                    assert(ks[0] =~= Seq::<char>::empty());
                }
            }
            if ks.len() == 1 && x.leaf && stem.len() == 0 {
                assert(stem =~= Seq::<char>::empty());
                assert(Seq::<char>::empty().subrange(0, 0) =~= stem);
                assert(extends(Seq::<char>::empty(), stem));
                assert(ks.contains(Seq::<char>::empty()));
            }
            if ks.len() == 1 && x.leaf && stem.len() > 0 && x.key is Some && ks[0] == stem {
                assert(x.value is Some);
            }
        },
    }
}

/// `Trie::get_raw_descendant`, with the subtrie it finds read out into
/// plain values (`SubTrie::is_leaf`, `key`, `value`, `keys`, `values`).
/// The contract (`descendant_fits`) claims what the crate's code fixes: the
/// root for the empty stem, else the first node below it whose key extends
/// the stem; keys walked in pre-order by nibble, which is the order of their
/// bytes; and the trie's invariant that a node below the root holds a key
/// or has at least two children.
#[verifier::external_body]
fn raw_descendant(t: &radix_trie::Trie<String, String>, stem: &str) -> (r: Option<Descendant>)
    ensures
        descendant_fits(trie_entries(*t), stem@, r),
{
    match t.get_raw_descendant(stem) {
        Some(sub) => Some(Descendant {
            leaf: sub.is_leaf(),
            key: sub.key().cloned(),
            value: sub.value().cloned(),
            keys: sub.keys().cloned().collect(),
            values: sub.values().cloned().collect(),
        }),
        None => None,
    }
}

/// What completing `stem` gives for a looked-up subtrie: nothing without a
/// subtrie; for a node without children, its value when its key is the stem
/// itself, else its key; otherwise a menu of all the keys, the first one
/// current.
pub open spec fn completion_of(d: Option<Descendant>, stem: Seq<char>) -> CompletionView {
    match d {
        None => CompletionView::NoResults,
        Some(d) => if d.leaf {
            match d.key {
                Some(k) => if k@ == stem {
                    match d.value {
                        Some(v) => CompletionView::ReplaceWith(v@),
                        None => CompletionView::NoResults,
                    }
                } else {
                    CompletionView::ReplaceWith(k@)
                },
                None => CompletionView::NoResults,
            }
        } else if d.keys@.len() > 0 {
            CompletionView::Menu(string_views(d.keys@), 0)
        } else {
            CompletionView::NoResults
        },
    }
}

/// What accepting a completion of a stem gives for a looked-up subtrie: its
/// first value, if any.
pub open spec fn acceptance_of(d: Option<Descendant>) -> CompletionView {
    match d {
        Some(d) => if d.values@.len() > 0 {
            CompletionView::ReplaceWith(d.values@[0]@)
        } else {
            CompletionView::NoResults
        },
        None => CompletionView::NoResults,
    }
}

/// Completing `stem`, given what the trie holds below it.
pub fn completion_from(d: Option<Descendant>, stem: &str) -> (r: CompletionResult)
    ensures
        r.view() == completion_of(d, stem@),
{
    match d {
        None => CompletionResult::NoResults,
        Some(d) => if d.leaf {
            match d.key {
                Some(k) => if crate::strings::chars_eq(
                    crate::strings::chars_of(k.as_str()).as_slice(),
                    crate::strings::chars_of(stem).as_slice(),
                ) {
                    match d.value {
                        Some(v) => CompletionResult::ReplaceWith(v),
                        None => CompletionResult::NoResults,
                    }
                } else {
                    CompletionResult::ReplaceWith(k)
                },
                None => CompletionResult::NoResults,
            }
        } else if d.keys.len() > 0 {
            let ghost ks = d.keys@;
            let m = SuggestionMenu::new(d.keys);
            proof {
                assert(m.spec_suggestions() =~= string_views(ks));
            }
            CompletionResult::Menu(m)
        } else {
            CompletionResult::NoResults
        },
    }
}

/// Accepting a completion, given what the trie holds below the stem.
pub fn acceptance_from(d: Option<Descendant>) -> (r: CompletionResult)
    ensures
        r.view() == acceptance_of(d),
{
    match d {
        Some(d) => if d.values.len() > 0 {
            let mut values = d.values;
            let v = values.swap_remove(0);
            CompletionResult::ReplaceWith(v)
        } else {
            CompletionResult::NoResults
        },
        None => CompletionResult::NoResults,
    }
}

/// Word completion from a table of words and what each completes to.
pub struct Completer {
    trie: radix_trie::Trie<String, String>,
}

impl Completer {
    /// The table: word to completion.
    pub closed spec fn entries(&self) -> Map<Seq<char>, Seq<char>> {
        trie_entries(self.trie)
    }

    /// A completer with an empty table.
    pub fn new() -> (c: Self)
        ensures
            c.entries() == no_entries(),
    {
        Completer { trie: new_trie() }
    }

    /// Adds a word and what it completes to.
    pub fn insert(&mut self, key: String, value: String)
        ensures
            final(self).entries() == old(self).entries().insert(key@, value@),
    {
        trie_insert(&mut self.trie, key, value);
    }

    /// Completes `stem` from the table: see `completion_for`.
    pub fn complete(&self, stem: &str) -> (r: CompletionResult)
        ensures
            r.view() == completion_for(self.entries(), stem@),
    {
        let d = raw_descendant(&self.trie, stem);
        proof {
            lemma_lookup_determined(self.entries(), stem@, d);
        }
        completion_from(d, stem)
    }

    /// Accepts a completion of `stem`: see `acceptance_for`.
    pub fn accept(&self, stem: &str) -> (r: CompletionResult)
        ensures
            r.view() == acceptance_for(self.entries(), stem@),
    {
        let d = raw_descendant(&self.trie, stem);
        proof {
            lemma_lookup_determined(self.entries(), stem@, d);
        }
        acceptance_from(d)
    }
}

/// The table that a list of words and completions gives, a later entry for
/// a word taking the place of an earlier one.
pub open spec fn table_of(ps: Seq<(Seq<char>, Seq<char>)>) -> Map<Seq<char>, Seq<char>>
    decreases ps.len(),
{
    if ps.len() == 0 {
        no_entries()
    } else {
        table_of(ps.drop_last()).insert(ps.last().0, ps.last().1)
    }
}

/// The views of a list of pairs of strings.
pub open spec fn pair_views(v: Seq<(String, String)>) -> Seq<(Seq<char>, Seq<char>)> {
    Seq::new(v.len(), |i: int| (v[i].0@, v[i].1@))
}

/// The word and completion that a line of a table of completions gives: its
/// first two words, separated by ASCII whitespace.
pub open spec fn line_pair(l: Seq<char>) -> Option<(Seq<char>, Seq<char>)> {
    let ws = crate::transforms::ascii_words(l);
    if ws.len() >= 2 {
        Some((ws[0], ws[1]))
    } else {
        None
    }
}

/// The entries of a table of completions: one line each, once the text is
/// trimmed, holding a word and what it completes to; `None` when a line
/// holds fewer than two words.
pub open spec fn completion_pairs(text: Seq<char>) -> Option<Seq<(Seq<char>, Seq<char>)>> {
    let lines = crate::linter::text_lines(crate::settings::trimmed(text));
    if forall|i: int| 0 <= i < lines.len() ==> (#[trigger] line_pair(lines[i])) is Some {
        Some(Seq::new(lines.len(), |i: int| line_pair(lines[i])->0))
    } else {
        None
    }
}

/// The words of `cs`: see `ascii_words`.
fn words_of(cs: &[char]) -> (r: Vec<Vec<char>>)
    ensures
        crate::commands::char_views(r@) == crate::transforms::ascii_words(cs@),
{
    let mut words: Vec<Vec<char>> = Vec::new();
    let mut in_word = false;
    let mut i: usize = 0;
    while i < cs.len()
        invariant
            i <= cs@.len(),
            crate::commands::char_views(words@) == crate::transforms::ascii_words(cs@.take(i as int)),
            in_word == crate::transforms::ends_in_word(cs@.take(i as int)),
        decreases cs@.len() - i,
    {
        let c = cs[i];
        let ghost pre = cs@.take(i as int);
        let ghost w = crate::transforms::ascii_words(pre);
        proof {
            crate::transforms::lemma_take_last(cs@, i as int);
        }
        if crate::chars::ascii_whitespace(c) {
            in_word = false;
        } else if in_word {
            proof {
                crate::transforms::lemma_words_nonempty(pre);
            }
            let ghost before = words@;
            let mut last = words.pop().unwrap();
            last.push(c);
            words.push(last);
            proof {
                assert(crate::commands::char_views(words@) =~= w.update(w.len() - 1, w.last().push(c)));
            }
        } else {
            let mut v: Vec<char> = Vec::new();
            v.push(c);
            let ghost before = words@;
            words.push(v);
            in_word = true;
            proof {
                assert(v@ =~= seq![c]);
                assert(crate::commands::char_views(words@) =~= w.push(seq![c]));
            }
        }
        i = i + 1;
        proof {
            let now = cs@.take(i as int);
            assert(now.last() == c);
            assert(now.drop_last() == pre);
        }
    }
    proof {
        assert(cs@.take(cs@.len() as int) =~= cs@);
    }
    words
}

/// Reads a table of completions: see `completion_pairs`.
pub fn parse_completions(text: &str) -> (r: Option<Vec<(String, String)>>)
    ensures
        match r {
            Some(v) => completion_pairs(text@) == Some(pair_views(v@)),
            None => completion_pairs(text@) is None,
        },
{
    let cs = chars_of_str(text);
    let t = crate::settings::trim_chars(cs.as_slice());
    let ps = crate::commands::split_on(t.as_slice(), '\n');
    let ghost tt = crate::settings::trimmed(text@);
    let ghost all = crate::commands::pieces(tt, '\n');
    let ghost lines = crate::linter::text_lines(tt);
    proof {
        crate::commands::lemma_pieces_nonempty(tt, '\n');
    }
    let n = ps.len();
    let mut out: Vec<(String, String)> = Vec::new();
    let mut i: usize = 0;
    while i < n
        invariant
            crate::commands::char_views(ps@) == all,
            all == crate::commands::pieces(tt, '\n'),
            lines == crate::linter::text_lines(tt),
            tt == crate::settings::trimmed(text@),
            n == all.len(),
            n >= 1,
            i <= n,
            lines.len() == n || (lines.len() == n - 1 && all.last().len() == 0),
            out@.len() == (if i < lines.len() { i as int } else { lines.len() as int }),
            forall|j: int| 0 <= j < out@.len() ==> line_pair(#[trigger] lines[j]) == Some(pair_views(out@)[j]),
        decreases n - i,
    {
        let p = ps[i].as_slice();
        proof {
            assert(p@ == all[i as int]);
        }
        if i + 1 == n && p.len() == 0 {
            i = i + 1;
            continue;
        }
        let line = if i + 1 < n {
            crate::linter::ended_line(p)
        } else {
            string_of(p)
        };
        proof {
            assert(i < lines.len());
            assert(line@ == lines[i as int]);
        }
        let lc = chars_of_str(line.as_str());
        let ws = words_of(lc.as_slice());
        if ws.len() < 2 {
            proof {
                assert(line_pair(lines[i as int]) is None);
            }
            return None;
        }
        let w0 = string_of(ws[0].as_slice());
        let w1 = string_of(ws[1].as_slice());
        proof {
            assert(crate::commands::char_views(ws@)[0] == ws@[0]@);
            assert(crate::commands::char_views(ws@)[1] == ws@[1]@);
        }
        let ghost before = out@;
        out.push((w0, w1));
        proof {
            assert forall|j: int| 0 <= j < out@.len() implies line_pair(#[trigger] lines[j]) == Some(pair_views(out@)[j]) by {
                if j < before.len() {
                    assert(pair_views(out@)[j] == pair_views(before)[j]);
                }
            }
        }
        i = i + 1;
    }
    proof {
        assert(out@.len() == lines.len());
        assert(pair_views(out@) =~= Seq::new(lines.len(), |j: int| line_pair(lines[j])->0));
    }
    Some(out)
}

/// The chars of a string.
fn chars_of_str(s: &str) -> (v: Vec<char>)
    ensures
        v@ == s@,
{
    crate::strings::chars_of(s)
}

/// Copies of the strings of a list of pairs.
fn copy_pairs(v: &Vec<(String, String)>) -> (r: Vec<(String, String)>)
    ensures
        pair_views(r@) == pair_views(v@),
{
    let mut r: Vec<(String, String)> = Vec::new();
    let mut i: usize = 0;
    while i < v.len()
        invariant
            i <= v@.len(),
            pair_views(r@) == pair_views(v@).take(i as int),
        decreases v@.len() - i,
    {
        let a = crate::strings::to_owned_string(v[i].0.as_str());
        let b = crate::strings::to_owned_string(v[i].1.as_str());
        let ghost before = r@;
        r.push((a, b));
        proof {
            assert(pair_views(r@) =~= pair_views(before).push((a@, b@)));
            assert(pair_views(v@)[i as int] == (a@, b@));
            assert(pair_views(r@) =~= pair_views(v@).take(i + 1));
        }
        i = i + 1;
    }
    proof {
        assert(pair_views(v@).take(v@.len() as int) =~= pair_views(v@));
    }
    r
}

impl Completer {
    /// A completer whose table holds the given words and what they complete
    /// to, in order: see `table_of`.
    pub fn from_pairs(pairs: &Vec<(String, String)>) -> (c: Self)
        ensures
            c.entries() == table_of(pair_views(pairs@)),
    {
        let mut c = Completer::new();
        let ps = copy_pairs(pairs);
        let mut rest = ps;
        let ghost all = pair_views(pairs@);
        let n = rest.len();
        let mut i: usize = 0;
        proof {
            assert(all.take(0) =~= Seq::<(Seq<char>, Seq<char>)>::empty());
            assert(rest@.skip(0) =~= rest@);
        }
        let ghost full = rest@;
        while i < n
            invariant
                i <= n,
                n == all.len(),
                pair_views(full) == all,
                rest@ == full.skip(i as int),
                c.entries() == table_of(all.take(i as int)),
            decreases n - i,
        {
            proof {
                assert(rest@.len() == n - i);
            }
            let (k, v) = rest.remove(0);
            proof {
                assert(full[i as int] == (k, v));
                assert(all[i as int] == (k@, v@));
                assert(all.take(i + 1).drop_last() =~= all.take(i as int));
                assert(rest@ =~= full.skip(i + 1));
            }
            c.insert(k, v);
            i = i + 1;
        }
        proof {
            assert(all.take(n as int) =~= all);
        }
        c
    }
}

} // verus!
