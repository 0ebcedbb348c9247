//! What the `to` command does to the text of a selection.
use crate::chars::{ascii_whitespace, is_ascii_whitespace};
use crate::strings::{chars_of, push_char, push_str};
use vstd::prelude::*;

verus! {

/// How the text of each selection is rewritten.
#[derive(Debug, Clone, Copy, PartialEq, Eq, Structural)]
pub enum Transform {
    /// The text, the given number of times over.
    Repeat(usize),
    /// The text in upper case.
    Upper,
    /// The text in lower case.
    Lower,
    /// The words of the text as a bracketed, comma separated list.
    List,
    /// Each word of the text between double quotes.
    Quoted,
}

/// What `str::to_uppercase` gives for a string.
pub uninterp spec fn upper_case(s: Seq<char>) -> Seq<char>;

/// What `str::to_lowercase` gives for a string.
pub uninterp spec fn lower_case(s: Seq<char>) -> Seq<char>;

/// `str::to_uppercase`.
#[verifier::external_body]
fn to_upper(s: &str) -> (r: String)
    ensures
        r@ == upper_case(s@),
{
    s.to_uppercase()
}

/// `str::to_lowercase`.
#[verifier::external_body]
fn to_lower(s: &str) -> (r: String)
    ensures
        r@ == lower_case(s@),
{
    s.to_lowercase()
}

/// `n` copies of `s`, one after another.
pub open spec fn repeat_seq(s: Seq<char>, n: nat) -> Seq<char>
    decreases n,
{
    if n == 0 {
        seq![]
    } else {
        repeat_seq(s, (n - 1) as nat) + s
    }
}

/// The last char of `s` is part of a word.
pub open spec fn ends_in_word(s: Seq<char>) -> bool {
    s.len() > 0 && !is_ascii_whitespace(s.last())
}

/// The words of `s`, in order: its maximal runs of chars that are not ASCII
/// whitespace.
pub open spec fn ascii_words(s: Seq<char>) -> Seq<Seq<char>>
    decreases s.len(),
{
    if s.len() == 0 {
        seq![]
    } else {
        let w = ascii_words(s.drop_last());
        let c = s.last();
        if is_ascii_whitespace(c) {
            w
        } else if !ends_in_word(s.drop_last()) {
            w.push(seq![c])
        } else {
            w.update(w.len() - 1, w.last().push(c))
        }
    }
}

/// The words joined by `", "`.
pub open spec fn comma_joined(ws: Seq<Seq<char>>) -> Seq<char>
    decreases ws.len(),
{
    if ws.len() == 0 {
        seq![]
    } else if ws.len() == 1 {
        ws[0]
    } else {
        comma_joined(ws.drop_last()) + seq![',', ' '] + ws.last()
    }
}

/// The words of `s` as a list: `[a, b, c]`.
pub open spec fn list_form(s: Seq<char>) -> Seq<char> {
    seq!['['] + comma_joined(ascii_words(s)) + seq![']']
}

/// `s` with a double quote opened before each word and every `"` and `\`
/// inside a word escaped by a backslash; the quote after the last char of a
/// word is added when the word ends.
pub open spec fn quoted_prefix(s: Seq<char>) -> Seq<char>
    decreases s.len(),
{
    if s.len() == 0 {
        seq![]
    } else {
        let p = quoted_prefix(s.drop_last());
        let c = s.last();
        let was_in_word = ends_in_word(s.drop_last());
        if is_ascii_whitespace(c) {
            (if was_in_word { p.push('"') } else { p }).push(c)
        } else {
            let opened = if was_in_word { p } else { p.push('"') };
            (if c == '"' || c == '\\' { opened.push('\\') } else { opened }).push(c)
        }
    }
}

/// Each word of `s` between double quotes, with `"` and `\` escaped; the
/// whitespace between words is kept as it is.
pub open spec fn quoted_form(s: Seq<char>) -> Seq<char> {
    if ends_in_word(s) {
        quoted_prefix(s).push('"')
    } else {
        quoted_prefix(s)
    }
}

/// What a transformation makes of a text.
pub open spec fn transformed(t: Transform, s: Seq<char>) -> Seq<char> {
    match t {
        Transform::Repeat(n) => repeat_seq(s, n as nat),
        Transform::Upper => upper_case(s),
        Transform::Lower => lower_case(s),
        Transform::List => list_form(s),
        Transform::Quoted => quoted_form(s),
    }
}

pub(crate) proof fn lemma_words_nonempty(s: Seq<char>)
    requires
        ends_in_word(s),
    ensures
        ascii_words(s).len() > 0,
    decreases s.len(),
{
    if ends_in_word(s.drop_last()) {
        lemma_words_nonempty(s.drop_last());
    }
}

proof fn lemma_joined_extend(ws: Seq<Seq<char>>, c: char)
    requires
        ws.len() > 0,
    ensures
        comma_joined(ws.update(ws.len() - 1, ws.last().push(c))) == comma_joined(ws).push(c),
{
    let u = ws.update(ws.len() - 1, ws.last().push(c));
    if ws.len() > 1 {
        assert(u.drop_last() =~= ws.drop_last());
        assert(u.last() == ws.last().push(c));
        assert(comma_joined(u) =~= comma_joined(ws).push(c));
    }
}

proof fn lemma_joined_push(ws: Seq<Seq<char>>, x: Seq<char>)
    ensures
        comma_joined(ws.push(x)) == if ws.len() == 0 {
            x
        } else {
            comma_joined(ws) + seq![',', ' '] + x
        },
{
    if ws.len() > 0 {
        assert(ws.push(x).drop_last() =~= ws);
    }
}

pub(crate) proof fn lemma_take_last(s: Seq<char>, i: int)
    requires
        0 <= i < s.len(),
    ensures
        s.take(i + 1).drop_last() == s.take(i),
        s.take(i + 1).last() == s[i],
{
    assert(s.take(i + 1).drop_last() =~= s.take(i));
}

/// The text `n` times over.
fn repeated_text(s: &str, n: usize) -> (r: String)
    ensures
        r@ == repeat_seq(s@, n as nat),
{
    let mut out = String::new();
    let mut i: usize = 0;
    while i < n
        invariant
            i <= n,
            out@ == repeat_seq(s@, i as nat),
        decreases n - i,
    {
        push_str(&mut out, s);
        i = i + 1;
    }
    out
}

/// The words of the text as a list.
fn list_text(s: &str) -> (r: String)
    ensures
        r@ == list_form(s@),
{
    let cs = chars_of(s);
    let mut out = String::new();
    push_char(&mut out, '[');
    let mut in_word = false;
    let mut any = false;
    let mut i: usize = 0;
    while i < cs.len()
        invariant
            i <= cs@.len(),
            cs@ == s@,
            out@ == seq!['['] + comma_joined(ascii_words(cs@.take(i as int))),
            in_word == ends_in_word(cs@.take(i as int)),
            any == (ascii_words(cs@.take(i as int)).len() > 0),
        decreases cs@.len() - i,
    {
        let c = cs[i];
        let ghost pre = cs@.take(i as int);
        let ghost w = ascii_words(pre);
        proof {
            lemma_take_last(cs@, i as int);
        }
        if ascii_whitespace(c) {
            in_word = false;
        } else {
            if in_word {
                proof {
                    lemma_words_nonempty(pre);
                    lemma_joined_extend(w, c);
                }
            } else {
                proof {
                    lemma_joined_push(w, seq![c]);
                }
                if any {
                    push_char(&mut out, ',');
                    push_char(&mut out, ' ');
                }
            }
            push_char(&mut out, c);
            in_word = true;
            any = true;
        }
        i = i + 1;
        proof {
            let now = cs@.take(i as int);
            assert(now.last() == c);
            if !is_ascii_whitespace(c) {
                if in_word && ends_in_word(pre) {
                    assert(comma_joined(ascii_words(now)) == comma_joined(w).push(c));
                }
            }
            assert(out@ =~= seq!['['] + comma_joined(ascii_words(now)));
        }
    }
    push_char(&mut out, ']');
    proof {
        assert(cs@.take(cs@.len() as int) =~= s@);
    }
    out
}

/// Each word of the text between double quotes.
fn quoted_text(s: &str) -> (r: String)
    ensures
        r@ == quoted_form(s@),
{
    let cs = chars_of(s);
    let mut out = String::new();
    let mut in_word = false;
    let mut i: usize = 0;
    while i < cs.len()
        invariant
            i <= cs@.len(),
            cs@ == s@,
            out@ == quoted_prefix(cs@.take(i as int)),
            in_word == ends_in_word(cs@.take(i as int)),
        decreases cs@.len() - i,
    {
        let c = cs[i];
        proof {
            lemma_take_last(cs@, i as int);
        }
        if ascii_whitespace(c) {
            if in_word {
                push_char(&mut out, '"');
            }
            push_char(&mut out, c);
            in_word = false;
        } else {
            if !in_word {
                push_char(&mut out, '"');
            }
            if c == '"' || c == '\\' {
                push_char(&mut out, '\\');
            }
            push_char(&mut out, c);
            in_word = true;
        }
        i = i + 1;
    }
    if in_word {
        push_char(&mut out, '"');
    }
    proof {
        assert(cs@.take(cs@.len() as int) =~= s@);
    }
    out
}

/// The text of a selection after a transformation.
pub fn apply_transform(t: Transform, s: &str) -> (r: String)
    ensures
        r@ == transformed(t, s@),
{
    match t {
        Transform::Repeat(n) => repeated_text(s, n),
        Transform::Upper => to_upper(s),
        Transform::Lower => to_lower(s),
        Transform::List => list_text(s),
        Transform::Quoted => quoted_text(s),
    }
}

} // verus!
