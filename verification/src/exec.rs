//! Running a file: the command line built from a template, and what is said
//! when it cannot run.
use crate::commands::string_views;
use crate::strings::{chars_of, push_char, push_str, string_of};
use vstd::prelude::*;

verus! {

/// Why a command could not run.
#[derive(Debug)]
pub enum ExecError {
    InvalidTemplate,
    NonUTF8Path,
    NotFound { executable: String },
    PermissionDenied { executable: String },
    Unknown(String),
}

impl ExecError {
    /// The message for the error.
    pub fn message(&self) -> (m: String)
        ensures
            m@ == match self {
                ExecError::InvalidTemplate => "exec error: invalid template"@,
                ExecError::NonUTF8Path => "exec error: file path must be valid UTF-8"@,
                ExecError::NotFound { executable } => "exec error: cannot execute "@ + executable@ + " (no such file)"@,
                ExecError::PermissionDenied { executable } => "exec error: cannot execute "@ + executable@
                    + " (permission denied)"@,
                ExecError::Unknown(e) => "exec error: "@ + e@,
            },
    {
        let mut m = String::new();
        match self {
            ExecError::InvalidTemplate => push_str(&mut m, "exec error: invalid template"),
            ExecError::NonUTF8Path => push_str(&mut m, "exec error: file path must be valid UTF-8"),
            ExecError::NotFound { executable } => {
                push_str(&mut m, "exec error: cannot execute ");
                push_str(&mut m, executable.as_str());
                push_str(&mut m, " (no such file)");
            },
            ExecError::PermissionDenied { executable } => {
                push_str(&mut m, "exec error: cannot execute ");
                push_str(&mut m, executable.as_str());
                push_str(&mut m, " (permission denied)");
            },
            ExecError::Unknown(e) => {
                push_str(&mut m, "exec error: ");
                push_str(&mut m, e.as_str());
            },
        }
        proof {
            assert(m@ =~= match self {
                ExecError::InvalidTemplate => "exec error: invalid template"@,
                ExecError::NonUTF8Path => "exec error: file path must be valid UTF-8"@,
                ExecError::NotFound { executable } => "exec error: cannot execute "@ + executable@ + " (no such file)"@,
                ExecError::PermissionDenied { executable } => "exec error: cannot execute "@ + executable@
                    + " (permission denied)"@,
                ExecError::Unknown(e) => "exec error: "@ + e@,
            });
        }
        m
    }
}

/// The words that `shlex::split` makes of a string, if it can.
pub uninterp spec fn shell_words(s: Seq<char>) -> Option<Seq<Seq<char>>>;

/// `shlex::split`: the words of a string as a POSIX shell would split it,
/// or nothing where its quoting is broken.
#[verifier::external_body]
fn shlex_split(s: &str) -> (r: Option<Vec<String>>)
    ensures
        match r {
            Some(v) => shell_words(s@) == Some(string_views(v@)),
            None => shell_words(s@) is None,
        },
{
    shlex::split(s)
}

/// `s` with each `%f`, from left to right, replaced by `path`.
pub open spec fn fill_template(s: Seq<char>, path: Seq<char>) -> Seq<char>
    decreases s.len(),
{
    if s.len() >= 2 && s[0] == '%' && s[1] == 'f' {
        path + fill_template(s.skip(2), path)
    } else if s.len() > 0 {
        seq![s[0]] + fill_template(s.drop_first(), path)
    } else {
        seq![]
    }
}

/// The template with each `%f` replaced by the path.
fn filled(template: &[char], path: &str) -> (r: String)
    ensures
        r@ == fill_template(template@, path@),
{
    let n = template.len();
    let mut out = String::new();
    let mut i: usize = 0;
    proof {
        assert(template@.skip(0) =~= template@);
        assert(out@ + fill_template(template@, path@) =~= fill_template(template@, path@));
    }
    while i < n
        invariant
            n == template@.len(),
            i <= n,
            out@ + fill_template(template@.skip(i as int), path@) == fill_template(template@, path@),
        decreases n - i,
    {
        let ghost rest = template@.skip(i as int);
        if i + 1 < n && template[i] == '%' && template[i + 1] == 'f' {
            proof {
                assert(rest[0] == '%' && rest[1] == 'f');
                assert(rest.skip(2) =~= template@.skip(i + 2));
            }
            push_str(&mut out, path);
            i = i + 2;
        } else {
            proof {
                assert(rest[0] == template@[i as int]);
                if i + 1 < n {
                    assert(rest[1] == template@[i + 1]);
                }
                assert(rest.drop_first() =~= template@.skip(i + 1));
            }
            push_char(&mut out, template[i]);
            i = i + 1;
        }
        proof {
            assert(out@ + fill_template(template@.skip(i as int), path@) =~= fill_template(template@, path@));
        }
    }
    proof {
        assert(template@.skip(n as int) =~= Seq::<char>::empty());
        assert(out@ =~= fill_template(template@, path@));
    }
    out
}

/// The words of the command line that a template makes for a file: the
/// program, then its arguments. A template that the shell cannot split, or
/// that holds no word, is invalid.
pub fn command_from_template(template: &str, path: &str) -> (r: Result<Vec<String>, ExecError>)
    ensures
        match shell_words(fill_template(template@, path@)) {
            Some(ws) => if ws.len() > 0 {
                r matches Ok(v) && string_views(v@) == ws
            } else {
                r matches Err(ExecError::InvalidTemplate)
            },
            None => r matches Err(ExecError::InvalidTemplate),
        },
{
    let cs = chars_of(template);
    let command_line = filled(cs.as_slice(), path);
    match shlex_split(command_line.as_str()) {
        Some(words) => if words.len() > 0 {
            Ok(words)
        } else {
            Err(ExecError::InvalidTemplate)
        },
        None => Err(ExecError::InvalidTemplate),
    }
}

} // verus!
