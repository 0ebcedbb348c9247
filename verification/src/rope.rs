//! The `ropey` text rope, seen through the bytes of its UTF-8 contents.
//!
//! Every item here is trusted: its contract states what ropey's documentation
//! and source say of the method it calls. Line indexing follows ropey's own
//! (Unicode) notion of line breaks, which is named rather than spelled out.
use ropey::Rope;
use vstd::prelude::*;
use vstd::string::StringSliceAdditionalSpecFns;
use vstd::utf8::{decode_utf8, encode_utf8, is_char_boundary, valid_utf8};

verus! {

#[verifier::external_type_specification]
#[verifier::external_body]
pub struct ExRope(Rope);

/// The UTF-8 bytes that a rope holds.
pub uninterp spec fn rope_bytes(r: Rope) -> Seq<u8>;

/// ropey's `line_to_byte`: the byte where the given line starts.
pub uninterp spec fn rope_line_start(text: Seq<u8>, line: nat) -> nat;

/// ropey's `byte_to_line`: the number of line breaks before the given byte.
pub uninterp spec fn rope_line_of(text: Seq<u8>, b: nat) -> nat;

/// ropey's `len_lines`: one more than the number of line breaks.
pub uninterp spec fn rope_line_count(text: Seq<u8>) -> nat;

/// Number of chars that precede byte `b` (a char boundary) of `text`.
pub open spec fn chars_before(text: Seq<u8>, b: int) -> nat {
    decode_utf8(text.subrange(0, b)).len()
}

/// Number of chars in `text`.
pub open spec fn char_count(text: Seq<u8>) -> nat {
    decode_utf8(text).len()
}

/// `Rope::new`: an empty rope.
#[verifier::external_body]
pub(crate) fn rope_new() -> (r: Rope)
    ensures
        rope_bytes(r) == Seq::<u8>::empty(),
{
    Rope::new()
}

/// `Rope::from_str`: a rope holding the UTF-8 encoding of `s`.
#[verifier::external_body]
pub(crate) fn rope_from_str(s: &str) -> (r: Rope)
    ensures
        rope_bytes(r) == s.spec_bytes(),
{
    Rope::from_str(s)
}

/// `Rope::clone`: a rope with the same contents.
#[verifier::external_body]
pub(crate) fn rope_clone(r: &Rope) -> (c: Rope)
    ensures
        rope_bytes(c) == rope_bytes(*r),
{
    r.clone()
}

/// `Rope == Rope`: compares the contents.
#[verifier::external_body]
pub(crate) fn rope_eq(a: &Rope, b: &Rope) -> (res: bool)
    ensures
        res == (rope_bytes(*a) == rope_bytes(*b)),
{
    a == b
}

/// `Rope::len_bytes`.
#[verifier::external_body]
pub(crate) fn rope_len_bytes(r: &Rope) -> (n: usize)
    ensures
        n == rope_bytes(*r).len(),
{
    r.len_bytes()
}

/// `Rope::len_lines`: at least one line, and at most one more line than bytes.
#[verifier::external_body]
pub(crate) fn rope_len_lines(r: &Rope) -> (n: usize)
    ensures
        n == rope_line_count(rope_bytes(*r)),
        1 <= n <= rope_bytes(*r).len() + 1,
{
    r.len_lines()
}

/// `Rope::line_to_byte`: the start of a line is a char boundary within the
/// text; line 0 starts at byte 0, the one-past-the-end line at the end, and a
/// line's start lies on that line.
#[verifier::external_body]
pub(crate) fn rope_line_to_byte(r: &Rope, line: usize) -> (b: usize)
    requires
        line <= rope_line_count(rope_bytes(*r)),
    ensures
        b == rope_line_start(rope_bytes(*r), line as nat),
        b <= rope_bytes(*r).len(),
        line == 0 ==> b == 0,
        line == rope_line_count(rope_bytes(*r)) ==> b == rope_bytes(*r).len(),
        line < rope_line_count(rope_bytes(*r)) ==> rope_line_of(rope_bytes(*r), b as nat) == line,
        valid_utf8(rope_bytes(*r)) ==> is_char_boundary(rope_bytes(*r), b as int),
{
    r.line_to_byte(line)
}

/// `Rope::try_line_to_byte`: `None` exactly when the line is past the end.
#[verifier::external_body]
pub(crate) fn rope_try_line_to_byte(r: &Rope, line: usize) -> (b: Option<usize>)
    ensures
        b is Some <==> line <= rope_line_count(rope_bytes(*r)),
        b matches Some(x) ==> x == rope_line_start(rope_bytes(*r), line as nat),
        b matches Some(x) ==> x <= rope_bytes(*r).len(),
        b matches Some(x) ==> (line < rope_line_count(rope_bytes(*r)) ==> rope_line_of(
            rope_bytes(*r),
            x as nat,
        ) == line),
        b matches Some(x) ==> (valid_utf8(rope_bytes(*r)) ==> is_char_boundary(
            rope_bytes(*r),
            x as int,
        )),
{
    r.try_line_to_byte(line).ok()
}

/// `Rope::byte_to_line`: the line holding byte `b`, whose start is at or
/// before `b`; the end of the text is on the last line.
#[verifier::external_body]
pub(crate) fn rope_byte_to_line(r: &Rope, b: usize) -> (line: usize)
    requires
        b <= rope_bytes(*r).len(),
    ensures
        line == rope_line_of(rope_bytes(*r), b as nat),
        line < rope_line_count(rope_bytes(*r)),
        rope_line_start(rope_bytes(*r), line as nat) <= b,
        line + 1 < rope_line_count(rope_bytes(*r)) ==> b < rope_line_start(
            rope_bytes(*r),
            (line + 1) as nat,
        ),
        b == rope_bytes(*r).len() ==> line + 1 == rope_line_count(rope_bytes(*r)),
{
    r.byte_to_line(b)
}

/// `Rope::byte_to_char`: at a char boundary, the number of chars before it.
#[verifier::external_body]
pub(crate) fn rope_byte_to_char(r: &Rope, b: usize) -> (c: usize)
    requires
        b <= rope_bytes(*r).len(),
    ensures
        is_char_boundary(rope_bytes(*r), b as int) ==> c == chars_before(rope_bytes(*r), b as int),
{
    r.byte_to_char(b)
}

/// `Rope::get_byte`: the byte at `b`, if there is one.
#[verifier::external_body]
pub(crate) fn rope_get_byte(r: &Rope, b: usize) -> (x: Option<u8>)
    ensures
        b < rope_bytes(*r).len() ==> x == Some(rope_bytes(*r)[b as int]),
        b >= rope_bytes(*r).len() ==> x is None,
{
    r.get_byte(b)
}

/// `Rope::get_char`: the char with index `c`, if there is one.
#[verifier::external_body]
pub(crate) fn rope_get_char(r: &Rope, c: usize) -> (x: Option<char>)
    ensures
        c < char_count(rope_bytes(*r)) ==> x == Some(decode_utf8(rope_bytes(*r))[c as int]),
        c >= char_count(rope_bytes(*r)) ==> x is None,
{
    r.get_char(c)
}

/// `Rope::split_off`: keeps the chars before index `c` and returns the rest.
#[verifier::external_body]
pub(crate) fn rope_split_off(r: &mut Rope, c: usize) -> (tail: Rope)
    requires
        c <= char_count(rope_bytes(*old(r))),
    ensures
        forall|p: int|
            #![trigger is_char_boundary(rope_bytes(*old(r)), p)]
            is_char_boundary(rope_bytes(*old(r)), p) && chars_before(rope_bytes(*old(r)), p) == c
                ==> rope_bytes(*final(r)) == rope_bytes(*old(r)).subrange(0, p) && rope_bytes(
                tail,
            ) == rope_bytes(*old(r)).subrange(p, rope_bytes(*old(r)).len() as int),
{
    r.split_off(c)
}

/// `Rope::append`: the contents of `other` follow.
#[verifier::external_body]
pub(crate) fn rope_append(r: &mut Rope, other: Rope)
    ensures
        rope_bytes(*final(r)) == rope_bytes(*old(r)) + rope_bytes(other),
{
    r.append(other)
}

/// `Rope::remove`: drops the chars with indices in `a..c`.
#[verifier::external_body]
pub(crate) fn rope_remove(r: &mut Rope, a: usize, c: usize)
    requires
        a <= c <= char_count(rope_bytes(*old(r))),
    ensures
        forall|p: int, q: int|
            #![trigger is_char_boundary(rope_bytes(*old(r)), p), is_char_boundary(rope_bytes(*old(r)), q)]
            is_char_boundary(rope_bytes(*old(r)), p) && is_char_boundary(rope_bytes(*old(r)), q)
                && chars_before(rope_bytes(*old(r)), p) == a && chars_before(
                rope_bytes(*old(r)),
                q,
            ) == c ==> rope_bytes(*final(r)) == rope_bytes(*old(r)).subrange(0, p) + rope_bytes(
                *old(r),
            ).subrange(q, rope_bytes(*old(r)).len() as int),
{
    r.remove(a..c)
}

/// `Rope::byte_slice` of `a..b`, turned into a `String`.
#[verifier::external_body]
pub(crate) fn rope_byte_slice(r: &Rope, a: usize, b: usize) -> (s: String)
    requires
        a <= b <= rope_bytes(*r).len(),
        is_char_boundary(rope_bytes(*r), a as int),
        is_char_boundary(rope_bytes(*r), b as int),
    ensures
        encode_utf8(s@) == rope_bytes(*r).subrange(a as int, b as int),
{
    r.byte_slice(a..b).to_string()
}

/// The whole contents of a rope as a `String` (`Rope`'s `Display`).
#[verifier::external_body]
pub(crate) fn rope_to_string(r: &Rope) -> (s: String)
    ensures
        encode_utf8(s@) == rope_bytes(*r),
{
    r.to_string()
}

} // verus!
