//! Extended grapheme cluster boundaries (`unicode-segmentation`) and display
//! widths (`unicode-width`). These follow Unicode tables and are named, not
//! spelled out; the trusted items state the short facts the crates' sources give.
use unicode_segmentation::GraphemeCursor;
use unicode_width::UnicodeWidthStr;
use vstd::prelude::*;
use vstd::string::StringSliceAdditionalSpecFns;
use vstd::utf8::is_char_boundary;

verus! {

/// The first extended grapheme cluster boundary after byte `start` of `text`.
pub uninterp spec fn next_grapheme_boundary(text: Seq<u8>, start: nat) -> Option<nat>;

/// The last extended grapheme cluster boundary before byte `start` of `text`.
pub uninterp spec fn prev_grapheme_boundary(text: Seq<u8>, start: nat) -> Option<nat>;

/// Whether byte `offset` of `text` is an extended grapheme cluster boundary.
pub uninterp spec fn is_grapheme_boundary(text: Seq<u8>, offset: nat) -> bool;

/// The display width in terminal columns of a string.
pub uninterp spec fn display_width(s: Seq<char>) -> nat;

/// `GraphemeCursor::next_boundary` over the whole of `s`: `None` only at the
/// end; otherwise a char boundary further on.
#[verifier::external_body]
pub(crate) fn next_boundary_in(s: &str, start: usize) -> (r: Option<usize>)
    requires
        start <= s.spec_bytes().len(),
        is_char_boundary(s.spec_bytes(), start as int),
    ensures
        r is None <==> next_grapheme_boundary(s.spec_bytes(), start as nat) is None,
        r matches Some(n) ==> next_grapheme_boundary(s.spec_bytes(), start as nat) == Some(
            n as nat,
        ),
        r is None <==> start == s.spec_bytes().len(),
        r matches Some(n) ==> start < n <= s.spec_bytes().len() && is_char_boundary(
            s.spec_bytes(),
            n as int,
        ),
{
    match GraphemeCursor::new(start, s.len(), true).next_boundary(s, 0) {
        Ok(found) => found,
        Err(_) => None,
    }
}

/// `GraphemeCursor::prev_boundary` over the whole of `s`: `None` only at the
/// start; otherwise a char boundary further back.
#[verifier::external_body]
pub(crate) fn prev_boundary_in(s: &str, start: usize) -> (r: Option<usize>)
    requires
        start <= s.spec_bytes().len(),
        is_char_boundary(s.spec_bytes(), start as int),
    ensures
        r is None <==> prev_grapheme_boundary(s.spec_bytes(), start as nat) is None,
        r matches Some(n) ==> prev_grapheme_boundary(s.spec_bytes(), start as nat) == Some(
            n as nat,
        ),
        r is None <==> start == 0,
        r matches Some(n) ==> n < start && is_char_boundary(s.spec_bytes(), n as int),
{
    match GraphemeCursor::new(start, s.len(), true).prev_boundary(s, 0) {
        Ok(found) => found,
        Err(_) => None,
    }
}

/// `GraphemeCursor::is_boundary` over the whole of `s`; both ends are boundaries.
#[verifier::external_body]
pub(crate) fn is_boundary_in(s: &str, offset: usize) -> (r: bool)
    requires
        offset <= s.spec_bytes().len(),
        is_char_boundary(s.spec_bytes(), offset as int),
    ensures
        r == is_grapheme_boundary(s.spec_bytes(), offset as nat),
        offset == 0 || offset == s.spec_bytes().len() ==> r,
{
    match GraphemeCursor::new(offset, s.len(), true).is_boundary(s, 0) {
        Ok(b) => b,
        Err(_) => false,
    }
}

/// `UnicodeWidthStr::width`.
#[verifier::external_body]
pub(crate) fn str_width(s: &str) -> (w: usize)
    ensures
        w == display_width(s@),
{
    UnicodeWidthStr::width(s)
}

} // verus!
