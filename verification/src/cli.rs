//! File arguments with an optional location: `FILE`, `FILE:LINE` or
//! `FILE:LINE:COLUMN`.
use crate::numbers::{parse_usize, spec_parse};
use crate::strings::{chars_of, push_char, push_str, string_of, to_owned_string};
use vstd::prelude::*;

verus! {

/// A file path with an optional one-based line and column.
#[derive(Debug, Clone)]
pub struct FilePathWithOptionalLocation {
    pub path: String,
    pub line: Option<usize>,
    pub column: Option<usize>,
}

/// The last `:` in `cs`.
pub open spec fn last_colon(cs: Seq<char>) -> Option<int>
    decreases cs.len(),
{
    if cs.len() == 0 {
        None
    } else if cs.last() == ':' {
        Some(cs.len() - 1)
    } else {
        last_colon(cs.drop_last())
    }
}

/// A positive number, as `str::parse::<NonZeroUsize>` reads it.
pub open spec fn positive(cs: Seq<char>) -> Option<nat> {
    match spec_parse(cs, 10, usize::MAX as nat) {
        Some(v) => if v == 0 {
            None
        } else {
            Some(v)
        },
        None => None,
    }
}

/// How an argument splits into a path, a line and a column. An argument
/// that names an existing file is all path. Otherwise a positive number
/// after the last colon is the line, and if another positive number comes
/// after the colon before it, the two are the line and the column.
pub open spec fn split_location(cs: Seq<char>, exists: bool) -> (Seq<char>, Option<nat>, Option<nat>) {
    if exists {
        (cs, None, None)
    } else {
        match last_colon(cs) {
            Some(k) => match positive(cs.subrange(k + 1, cs.len() as int)) {
                Some(last) => {
                    let pre1 = cs.subrange(0, k);
                    match last_colon(pre1) {
                        Some(k2) => match positive(pre1.subrange(k2 + 1, pre1.len() as int)) {
                            Some(second_last) => (pre1.subrange(0, k2), Some(second_last), Some(last)),
                            None => (pre1, Some(last), None),
                        },
                        None => (pre1, Some(last), None),
                    }
                },
                None => (cs, None, None),
            },
            None => (cs, None, None),
        }
    }
}

/// The last `:` among the first `n` chars.
fn find_last_colon(cs: &Vec<char>, n: usize) -> (r: Option<usize>)
    requires
        n <= cs@.len(),
    ensures
        r matches Some(k) ==> last_colon(cs@.subrange(0, n as int)) == Some(k as int) && k < n,
        r is None ==> last_colon(cs@.subrange(0, n as int)) is None,
{
    let mut k = n;
    while k > 0
        invariant
            k <= n <= cs@.len(),
            last_colon(cs@.subrange(0, n as int)) == last_colon(cs@.subrange(0, k as int)),
        decreases k,
    {
        proof {
            assert(cs@.subrange(0, k as int).drop_last() =~= cs@.subrange(0, k - 1));
        }
        if cs[k - 1] == ':' {
            return Some(k - 1);
        }
        k = k - 1;
    }
    None
}

/// A positive number written by `cs[a..b]`.
fn positive_between(cs: &Vec<char>, a: usize, b: usize) -> (r: Option<usize>)
    requires
        a <= b <= cs@.len(),
    ensures
        r matches Some(v) ==> positive(cs@.subrange(a as int, b as int)) == Some(v as nat),
        r is None ==> positive(cs@.subrange(a as int, b as int)) is None,
{
    match parse_usize(&cs.as_slice()[a..b]) {
        Some(v) => if v == 0 {
            None
        } else {
            Some(v)
        },
        None => None,
    }
}

impl FilePathWithOptionalLocation {
    /// Splits `arg` into a path and a location: see `split_location`.
    /// `arg_exists` tells whether `arg` itself names an existing file.
    pub fn parse_from_str(arg: &str, arg_exists: bool) -> (r: Self)
        ensures
            (r.path@, match r.line {
                Some(l) => Some(l as nat),
                None => None,
            }, match r.column {
                Some(c) => Some(c as nat),
                None => None,
            }) == split_location(arg@, arg_exists),
    {
        let cs = chars_of(arg);
        let n = cs.len();
        proof {
            assert(cs@.subrange(0, n as int) =~= cs@);
        }
        if arg_exists {
            return FilePathWithOptionalLocation { path: string_of(cs.as_slice()), line: None, column: None };
        }
        if let Some(k) = find_last_colon(&cs, n) {
            if let Some(last) = positive_between(&cs, k + 1, n) {
                proof {
                    assert(cs@.subrange(0, k as int).subrange(0, k as int) =~= cs@.subrange(0, k as int));
                }
                if let Some(k2) = find_last_colon(&cs, k) {
                    let ghost pre1 = cs@.subrange(0, k as int);
                    proof {
                        assert(pre1.subrange(k2 + 1, pre1.len() as int) =~= cs@.subrange(k2 + 1, k as int));
                        assert(pre1.subrange(0, k2 as int) =~= cs@.subrange(0, k2 as int));
                    }
                    if let Some(second_last) = positive_between(&cs, k2 + 1, k) {
                        return FilePathWithOptionalLocation {
                            path: string_of(&cs.as_slice()[0..k2]),
                            line: Some(second_last),
                            column: Some(last),
                        };
                    }
                }
                return FilePathWithOptionalLocation {
                    path: string_of(&cs.as_slice()[0..k]),
                    line: Some(last),
                    column: None,
                };
            }
        }
        FilePathWithOptionalLocation { path: string_of(cs.as_slice()), line: None, column: None }
    }

    /// A path with no location.
    pub fn from_path(path: String) -> (r: Self)
        ensures
            r.path == path,
            r.line is None,
            r.column is None,
    {
        FilePathWithOptionalLocation { path, line: None, column: None }
    }
}

/// `rest` joined to the directory `dir` as a path: an absolute `rest`
/// stands alone; otherwise a slash goes between them unless `dir` is empty
/// or already ends with one.
pub open spec fn joined_path(dir: Seq<char>, rest: Seq<char>) -> Seq<char> {
    if rest.len() > 0 && rest[0] == '/' {
        rest
    } else if dir.len() == 0 || dir.last() == '/' {
        dir + rest
    } else {
        dir + seq!['/'] + rest
    }
}

/// `path` with a leading `~` standing for the home directory `home`, where
/// there is one: `~` alone is the home directory, and `~/REST` is REST in
/// it. Any other path stays as it is.
pub open spec fn expanded_path(path: Seq<char>, home: Option<Seq<char>>) -> Seq<char> {
    if path.len() >= 2 && path[0] == '~' && path[1] == '/' {
        match home {
            Some(h) => joined_path(h, path.subrange(2, path.len() as int)),
            None => path,
        }
    } else if path == seq!['~'] {
        match home {
            Some(h) => h,
            None => path,
        }
    } else {
        path
    }
}

/// Expands a leading `~` in `path` to the home directory `home`, when
/// there is one: see `expanded_path`.
pub fn expand_path(path: &str, home: Option<&str>) -> (r: String)
    ensures
        r@ == expanded_path(path@, match home {
            Some(h) => Some(h@),
            None => None,
        }),
{
    let cs = chars_of(path);
    let n = cs.len();
    if n >= 2 && cs[0] == '~' && cs[1] == '/' {
        match home {
            Some(h) => {
                let hs = chars_of(h);
                let mut out = String::new();
                if n > 2 && cs[2] == '/' {
                    let mut k: usize = 2;
                    while k < n
                        invariant
                            2 <= k <= n,
                            n == cs@.len(),
                            out@ == cs@.subrange(2, k as int),
                        decreases n - k,
                    {
                        push_char(&mut out, cs[k]);
                        proof {
                            assert(out@ =~= cs@.subrange(2, k + 1));
                        }
                        k = k + 1;
                    }
                    proof {
                        assert(cs@.subrange(2, n as int)[0] == '/');
                    }
                    return out;
                }
                push_str(&mut out, h);
                if hs.len() > 0 && hs[hs.len() - 1] != '/' {
                    push_char(&mut out, '/');
                }
                let ghost base = out@;
                let mut k: usize = 2;
                while k < n
                    invariant
                        2 <= k <= n,
                        n == cs@.len(),
                        out@ == base + cs@.subrange(2, k as int),
                    decreases n - k,
                {
                    push_char(&mut out, cs[k]);
                    proof {
                        assert(out@ =~= base + cs@.subrange(2, k + 1));
                    }
                    k = k + 1;
                }
                proof {
                    let rest = cs@.subrange(2, n as int);
                    if n > 2 {
                        assert(rest[0] == cs@[2]);
                    }
                    if hs@.len() > 0 {
                        assert(hs@.last() == hs@[hs@.len() - 1]);
                    }
                    assert(out@ =~= joined_path(h@, rest));
                }
                out
            },
            None => to_owned_string(path),
        }
    } else if n == 1 && cs[0] == '~' {
        proof {
            assert(path@ =~= seq!['~']);
        }
        match home {
            Some(h) => to_owned_string(h),
            None => to_owned_string(path),
        }
    } else {
        proof {
            if path@ == seq!['~'] {
                assert(path@.len() == 1);
            }
        }
        to_owned_string(path)
    }
}

} // verus!
