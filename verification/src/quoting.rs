//! Quoting file paths for display.
use crate::chars::{char_is_control, char_is_whitespace, is_control, is_whitespace};
use crate::strings::{chars_of, push_char, push_str, to_owned_string};
use vstd::prelude::*;

verus! {

/// How `{:?}` writes a string: escaped and between double quotes.
pub uninterp spec fn debug_escaped(s: Seq<char>) -> Seq<char>;

/// `format!("{s:?}")`: the `Debug` form of a string.
#[verifier::external_body]
pub(crate) fn debug_string(s: &str) -> (r: String)
    ensures
        r@ == debug_escaped(s@),
{
    format!("{s:?}")
}

/// A char that makes a path unreadable unquoted: whitespace other than a
/// plain space, or a control character.
pub open spec fn is_special(c: char) -> bool {
    c != '\'' && c != '"' && c != ' ' && (is_whitespace(c) || is_control(c))
}

/// `s` between two copies of `q`.
pub open spec fn surrounded(s: Seq<char>, q: char) -> Seq<char> {
    seq![q] + s + seq![q]
}

/// The quoted form of a path: `''` for the empty path; the path itself when it
/// holds no space, quote or special char; between single quotes when it holds
/// no single quote; between double quotes when it holds no double quote; and
/// otherwise, or whenever it holds a special char, its `Debug` form.
pub open spec fn quoted_path(s: Seq<char>) -> Seq<char> {
    if s.len() == 0 {
        seq!['\'', '\'']
    } else if exists|i: int| 0 <= i < s.len() && #[trigger] is_special(s[i]) {
        debug_escaped(s)
    } else if !s.contains('\'') && !s.contains('"') && !s.contains(' ') {
        s
    } else if !s.contains('\'') {
        surrounded(s, '\'')
    } else if !s.contains('"') {
        surrounded(s, '"')
    } else {
        debug_escaped(s)
    }
}

/// Quotes strings with spaces, quotes, or control characters in them, for
/// visual clarity only: the result is not made safe for a shell.
pub fn quote_path(s: &str) -> (r: String)
    ensures
        r@ == quoted_path(s@),
{
    let cs = chars_of(s);
    if cs.len() == 0 {
        let mut r = String::new();
        push_char(&mut r, '\'');
        push_char(&mut r, '\'');
        assert(r@ =~= seq!['\'', '\'']);
        return r;
    }
    let mut single_quote = false;
    let mut double_quote = false;
    let mut space = false;
    let mut special = false;
    let mut i: usize = 0;
    while i < cs.len()
        invariant
            cs@ == s@,
            i <= cs.len(),
            single_quote <==> exists|k: int| 0 <= k < i && cs@[k] == '\'',
            double_quote <==> exists|k: int| 0 <= k < i && cs@[k] == '"',
            space <==> exists|k: int| 0 <= k < i && cs@[k] == ' ',
            special <==> exists|k: int| 0 <= k < i && #[trigger] is_special(cs@[k]),
        decreases cs.len() - i,
    {
        let c = cs[i];
        if c == '\'' {
            single_quote = true;
        } else if c == '"' {
            double_quote = true;
        } else if c == ' ' {
            space = true;
        } else if char_is_whitespace(c) || char_is_control(c) {
            special = true;
        }
        proof {
            assert(is_special(c) == (c != '\'' && c != '"' && c != ' ' && (is_whitespace(c)
                || is_control(c))));
            if single_quote {
                assert(exists|k: int| 0 <= k < i + 1 && cs@[k] == '\'');
            }
            if double_quote {
                assert(exists|k: int| 0 <= k < i + 1 && cs@[k] == '"');
            }
            if space {
                assert(exists|k: int| 0 <= k < i + 1 && cs@[k] == ' ');
            }
            if special {
                assert(exists|k: int| 0 <= k < i + 1 && #[trigger] is_special(cs@[k]));
            }
        }
        i = i + 1;
    }
    proof {
        assert(single_quote == s@.contains('\''));
        assert(double_quote == s@.contains('"'));
        assert(space == s@.contains(' '));
    }
    if !special {
        if !single_quote && !double_quote && !space {
            return to_owned_string(s);
        }
        if !single_quote {
            let mut r = String::new();
            push_char(&mut r, '\'');
            push_str(&mut r, s);
            push_char(&mut r, '\'');
            assert(r@ =~= surrounded(s@, '\''));
            return r;
        }
        if !double_quote {
            let mut r = String::new();
            push_char(&mut r, '"');
            push_str(&mut r, s);
            push_char(&mut r, '"');
            assert(r@ =~= surrounded(s@, '"'));
            return r;
        }
    }
    debug_string(s)
}

} // verus!
