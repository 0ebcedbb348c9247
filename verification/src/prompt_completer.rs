//! Completion of command lines typed at the prompt: command names, and the
//! arguments that each command takes.
use crate::charseq::{
    byte_len, char_index_at, char_len, find_char, find_from, first_non_ws, has_prefix,
    lemma_byte_len_concat, lemma_byte_len_encode, lemma_byte_len_prefix, prefix_byte_len,
    rfind_below, rfind_char, skip_ws, starts_with, sub_vec, trim_start, utf8_len,
};
use vstd::string::StringSliceAdditionalSpecFns;
use crate::strings::{chars_of, push_char, push_str, string_of, to_owned_string};
use vstd::prelude::*;

verus! {

/// An argument that a command takes.
#[derive(Debug)]
pub enum Arg {
    /// Any text; nothing to suggest.
    String,
    /// A file name.
    File,
    /// This word.
    Literal(String),
    /// Any one of these.
    OneOf(Vec<Arg>),
    /// These, one after the other.
    Sequence(Vec<Arg>),
}

/// A suggested completion: the text to put in place of bytes `start..end`
/// of the line, and whether a space follows it.
#[derive(Debug, Clone)]
pub struct Suggestion {
    pub value: String,
    pub description: Option<String>,
    pub start: usize,
    pub end: usize,
    pub append_whitespace: bool,
}

/// A file in a directory, and whether it is a directory itself.
#[derive(Debug, Clone)]
pub struct DirEntry {
    pub name: String,
    pub is_dir: bool,
}

/// The files of a directory, named as the command line names it.
#[derive(Debug, Clone)]
pub struct DirListing {
    pub dir: String,
    pub entries: Vec<DirEntry>,
}

/// How an argument completes: it does not fit; it is complete and the next
/// argument starts at the given byte; these suggestions; or the files of the
/// given directory are needed first.
#[derive(Debug)]
pub enum ArgCompleteResult {
    NoMatch,
    SkipTo(usize),
    Suggest(Vec<Suggestion>),
    ListDir(String),
}

/// What completing a command line gives: suggestions, or the directory
/// whose files are needed first.
#[derive(Debug)]
pub enum Completion {
    Suggestions(Vec<Suggestion>),
    ListDir(String),
}

/// A suggestion as plain values.
pub type SuggestionView = (Seq<char>, Option<Seq<char>>, int, int, bool);

/// A result as plain values.
pub enum ResultView {
    NoMatch,
    SkipTo(int),
    Suggest(Seq<SuggestionView>),
    ListDir(Seq<char>),
}

/// The plain values of a suggestion.
pub open spec fn sugg_view(s: Suggestion) -> SuggestionView {
    (
        s.value@,
        match s.description {
            Some(d) => Some(d@),
            None => None,
        },
        s.start as int,
        s.end as int,
        s.append_whitespace,
    )
}

/// The plain values of suggestions.
pub open spec fn suggs_view(v: Seq<Suggestion>) -> Seq<SuggestionView> {
    v.map_values(|s: Suggestion| sugg_view(s))
}

/// The plain values of a result.
pub open spec fn result_view(r: ArgCompleteResult) -> ResultView {
    match r {
        ArgCompleteResult::NoMatch => ResultView::NoMatch,
        ArgCompleteResult::SkipTo(p) => ResultView::SkipTo(p as int),
        ArgCompleteResult::Suggest(v) => ResultView::Suggest(suggs_view(v@)),
        ArgCompleteResult::ListDir(d) => ResultView::ListDir(d@),
    }
}

/// The entries of a directory as (name, is a directory) pairs.
pub open spec fn entries_view(v: Seq<DirEntry>) -> Seq<(Seq<char>, bool)> {
    v.map_values(|e: DirEntry| (e.name@, e.is_dir))
}

/// The entries listed for directory `d`, if it was listed.
pub open spec fn listed(ls: Seq<DirListing>, d: Seq<char>) -> Option<Seq<(Seq<char>, bool)>>
    decreases ls.len(),
{
    if ls.len() == 0 {
        None
    } else if ls[0].dir@ == d {
        Some(entries_view(ls[0].entries@))
    } else {
        listed(ls.drop_first(), d)
    }
}

/// Suggestions for the files among `entries` whose names begin with
/// `prefix`, in the order listed; directories get a trailing `/`, and after a
/// bare `~` every name gets a leading `/`.
pub open spec fn file_suggestions(
    entries: Seq<(Seq<char>, bool)>,
    prefix: Seq<char>,
    tilde: bool,
    start: int,
    end: int,
    ws: bool,
) -> Seq<SuggestionView>
    decreases entries.len(),
{
    if entries.len() == 0 {
        Seq::empty()
    } else {
        let rest = file_suggestions(entries.drop_last(), prefix, tilde, start, end, ws);
        let (name, is_dir) = entries.last();
        if has_prefix(name, prefix) {
            let v = (if tilde {
                seq!['/'] + name
            } else {
                name
            }) + (if is_dir {
                seq!['/']
            } else {
                Seq::empty()
            });
            rest.push((v, None, start, end, ws))
        } else {
            rest
        }
    }
}

/// Where a file argument's directory and file name part split: the part
/// before the last `/` and the part after it; a bare `~` is the home
/// directory; with no `/`, the current directory.
pub open spec fn file_parts(input: Seq<char>) -> (Seq<char>, Seq<char>) {
    match rfind_below(input, '/', input.len() as int) {
        Some(k) => (input.subrange(0, k), input.subrange(k + 1, input.len() as int)),
        None => if input == seq!['~'] {
            (seq!['~'], Seq::empty())
        } else {
            (seq!['.'], input)
        },
    }
}

/// Completing `arg` from `s`, which starts at byte `off` of the line:
/// leading whitespace is skipped; a literal that `s` goes past is complete;
/// a literal that begins with `s` is suggested; a file name with a space in
/// it is complete; otherwise the files of its directory are suggested once
/// they are listed; a sequence completes its arguments one after the other;
/// a choice gathers the suggestions of all its options.
pub open spec fn complete_spec(arg: Arg, s: Seq<char>, off: int, is_last: bool, ls: Seq<DirListing>) -> ResultView
    decreases arg, 0int,
{
    let input = trim_start(s);
    let end = off + byte_len(s);
    let start = end - byte_len(input);
    match arg {
        Arg::String => ResultView::Suggest(Seq::empty()),
        Arg::Literal(lit) => if byte_len(input) > byte_len(lit@) && has_prefix(input, lit@) {
            ResultView::SkipTo(off + byte_len(lit@))
        } else if has_prefix(lit@, input) {
            ResultView::Suggest(seq![(lit@, None, start, end, !is_last)])
        } else {
            ResultView::NoMatch
        },
        Arg::File => match find_from(input, ' ', 0) {
            Some(i) => ResultView::SkipTo(start + byte_len(input.subrange(0, i))),
            None => {
                let (dir, prefix) = file_parts(input);
                match listed(ls, dir) {
                    Some(entries) => ResultView::Suggest(
                        file_suggestions(entries, prefix, input == seq!['~'], end - byte_len(prefix), end, !is_last),
                    ),
                    None => ResultView::ListDir(dir),
                }
            },
        },
        Arg::Sequence(args) => {
            proof {
                assert(decreases_to!(arg => args));
            }
            seq_spec(args@, 0, s, off, ls)
        },
        Arg::OneOf(choices) => {
            proof {
                assert(decreases_to!(arg => choices));
            }
            oneof_spec(choices@, choices@.len() as int, s, off, is_last, ls)
        },
    }
}

/// Completing the arguments of a sequence from the `i`-th on.
pub open spec fn seq_spec(args: Seq<Arg>, i: int, s: Seq<char>, off: int, ls: Seq<DirListing>) -> ResultView
    decreases args, args.len() - i,
{
    if i < 0 || i >= args.len() {
        ResultView::NoMatch
    } else {
        match complete_spec(args[i], s, off, i + 1 == args.len(), ls) {
            ResultView::SkipTo(p) => match char_index_at(s, p - off) {
                Some(j) => seq_spec(args, i + 1, s.subrange(j, s.len() as int), p, ls),
                None => ResultView::NoMatch,
            },
            r => r,
        }
    }
}

/// The suggestions of the first `n` options of a choice, or the first
/// directory one of them needs listed.
pub open spec fn oneof_spec(choices: Seq<Arg>, n: int, s: Seq<char>, off: int, is_last: bool, ls: Seq<DirListing>) -> ResultView
    decreases choices, n,
{
    if n <= 0 || n > choices.len() {
        ResultView::Suggest(Seq::empty())
    } else {
        match oneof_spec(choices, n - 1, s, off, is_last, ls) {
            ResultView::ListDir(d) => ResultView::ListDir(d),
            ResultView::Suggest(v) => match complete_spec(choices[n - 1], s, off, is_last, ls) {
                ResultView::Suggest(w) => ResultView::Suggest(v + w),
                ResultView::ListDir(d) => ResultView::ListDir(d),
                _ => ResultView::Suggest(v),
            },
            r => r,
        }
    }
}

/// The bytes of a string are those of its chars.
proof fn lemma_str_bytes(s: &str)
    ensures
        byte_len(s@) == s.spec_bytes().len(),
{
    lemma_byte_len_encode(s@);
}

/// The index of the char that starts at byte `pos` of `cs`.
fn char_index(cs: &Vec<char>, pos: usize) -> (r: Option<usize>)
    requires
        byte_len(cs@) <= usize::MAX,
    ensures
        r matches Some(j) ==> char_index_at(cs@, pos as int) == Some(j as int) && j <= cs@.len(),
        r is None ==> char_index_at(cs@, pos as int) is None,
{
    let n = cs.len();
    let mut j = n;
    let mut total = prefix_byte_len(cs.as_slice(), n);
    proof {
        assert(cs@.subrange(0, n as int) =~= cs@);
    }
    loop
        invariant
            j <= n == cs@.len(),
            total == byte_len(cs@.subrange(0, j as int)),
            char_index_at(cs@, pos as int) == char_index_at(cs@.subrange(0, j as int), pos as int),
        decreases j,
    {
        if total == pos {
            return Some(j);
        }
        if j == 0 {
            return None;
        }
        proof {
            assert(cs@.subrange(0, j as int).drop_last() =~= cs@.subrange(0, j - 1));
            assert(cs@.subrange(0, j as int).last() == cs@[j - 1]);
        }
        total = total - utf8_len(cs[j - 1]);
        j = j - 1;
    }
}

/// The chars of a string, with its byte length.
fn chars_and_len(s: &str) -> (r: (Vec<char>, usize))
    ensures
        r.0@ == s@,
        r.1 == byte_len(s@),
{
    proof {
        lemma_str_bytes(s);
    }
    let b = s.as_bytes();
    (chars_of(s), b.len())
}

/// The entries listed for directory `dir`.
fn find_listing<'a>(ls: &'a Vec<DirListing>, dir: &Vec<char>) -> (r: Option<&'a Vec<DirEntry>>)
    ensures
        r matches Some(v) ==> listed(ls@, dir@) == Some(entries_view(v@)),
        r is None ==> listed(ls@, dir@) is None,
{
    let mut i: usize = 0;
    assert(ls@.subrange(0, ls@.len() as int) =~= ls@);
    while i < ls.len()
        invariant
            i <= ls@.len(),
            listed(ls@, dir@) == listed(ls@.subrange(i as int, ls@.len() as int), dir@),
        decreases ls@.len() - i,
    {
        let d = chars_of(ls[i].dir.as_str());
        let ghost rest = ls@.subrange(i as int, ls@.len() as int);
        proof {
            assert(rest[0] == ls@[i as int]);
            assert(rest.drop_first() =~= ls@.subrange(i + 1, ls@.len() as int));
        }
        if crate::strings::chars_eq(d.as_slice(), dir.as_slice()) {
            return Some(&ls[i].entries);
        }
        i = i + 1;
    }
    proof {
        assert(ls@.subrange(i as int, ls@.len() as int) =~= Seq::<DirListing>::empty());
    }
    None
}

/// Suggestions for the entries whose names begin with `prefix`.
fn suggest_files(
    entries: &Vec<DirEntry>,
    prefix: &Vec<char>,
    tilde: bool,
    start: usize,
    end: usize,
    ws: bool,
) -> (r: Vec<Suggestion>)
    ensures
        suggs_view(r@) == file_suggestions(entries_view(entries@), prefix@, tilde, start as int, end as int, ws),
{
    let ghost ev = entries_view(entries@);
    let mut out: Vec<Suggestion> = Vec::new();
    let mut i: usize = 0;
    while i < entries.len()
        invariant
            ev == entries_view(entries@),
            i <= entries@.len(),
            suggs_view(out@) == file_suggestions(ev.subrange(0, i as int), prefix@, tilde, start as int, end as int, ws),
        decreases entries@.len() - i,
    {
        let name = chars_of(entries[i].name.as_str());
        proof {
            assert(ev.subrange(0, i + 1).drop_last() =~= ev.subrange(0, i as int));
            assert(ev.subrange(0, i + 1).last() == ev[i as int]);
            assert(ev[i as int] == (entries@[i as int].name@, entries@[i as int].is_dir));
        }
        if starts_with(name.as_slice(), prefix.as_slice()) {
            let mut v = String::new();
            if tilde {
                push_char(&mut v, '/');
            }
            push_str(&mut v, entries[i].name.as_str());
            if entries[i].is_dir {
                push_char(&mut v, '/');
            }
            let ghost value = (if tilde {
                seq!['/'] + name@
            } else {
                name@
            }) + (if entries@[i as int].is_dir {
                seq!['/']
            } else {
                Seq::<char>::empty()
            });
            assert(v@ =~= value);
            let sg = Suggestion { value: v, description: None, start, end, append_whitespace: ws };
            let ghost before = out@;
            out.push(sg);
            proof {
                assert(suggs_view(out@) =~= suggs_view(before).push(sugg_view(sg)));
            }
        }
        i = i + 1;
    }
    proof {
        assert(ev.subrange(0, entries@.len() as int) =~= ev);
    }
    out
}

impl Arg {
    /// Completes the argument from `s`, which starts at byte `s_offset` of
    /// the line: see `complete_spec`.
    pub fn complete(&self, s: &str, s_offset: usize, is_last: bool, ls: &Vec<DirListing>) -> (r: ArgCompleteResult)
        requires
            s_offset + s.spec_bytes().len() <= usize::MAX,
        ensures
            result_view(r) == complete_spec(*self, s@, s_offset as int, is_last, ls@),
    {
        proof {
            lemma_str_bytes(s);
        }
        let (cs, _n) = chars_and_len(s);
        self.complete_chars(&cs, s_offset, is_last, ls)
    }

    #[verifier::rlimit(50)]
    fn complete_chars(&self, s: &Vec<char>, s_offset: usize, is_last: bool, ls: &Vec<DirListing>) -> (r: ArgCompleteResult)
        requires
            s_offset + byte_len(s@) <= usize::MAX,
        ensures
            result_view(r) == complete_spec(*self, s@, s_offset as int, is_last, ls@),
            result_view(r) matches ResultView::SkipTo(p) ==> s_offset <= p <= s_offset + byte_len(s@),
        decreases self,
    {
        let n = s.len();
        let i0 = first_non_ws(s.as_slice());
        let input = sub_vec(s.as_slice(), i0, n);
        let blen_s = prefix_byte_len(s.as_slice(), n);
        let blen_pre = prefix_byte_len(s.as_slice(), i0);
        proof {
            assert(s@.subrange(0, n as int) =~= s@);
            assert(input@ == trim_start(s@));
            lemma_byte_len_concat(s@.subrange(0, i0 as int), input@);
            assert(s@.subrange(0, i0 as int) + input@ =~= s@);
        }
        let blen_input = blen_s - blen_pre;
        let end = s_offset + blen_s;
        let start = end - blen_input;
        match self {
            Arg::String => {
                let v: Vec<Suggestion> = Vec::new();
                assert(suggs_view(v@) =~= Seq::<SuggestionView>::empty());
                ArgCompleteResult::Suggest(v)
            },
            Arg::Literal(lit) => {
                let (lc, lit_len) = chars_and_len(lit.as_str());
                if blen_input > lit_len && starts_with(input.as_slice(), lc.as_slice()) {
                    ArgCompleteResult::SkipTo(s_offset + lit_len)
                } else if starts_with(lc.as_slice(), input.as_slice()) {
                    let mut v: Vec<Suggestion> = Vec::new();
                    v.push(Suggestion {
                        value: lit.clone(),
                        description: None,
                        start,
                        end,
                        append_whitespace: !is_last,
                    });
                    proof {
                        assert(suggs_view(v@) =~= seq![(lit@, None::<Seq<char>>, start as int, end as int, !is_last)]);
                    }
                    ArgCompleteResult::Suggest(v)
                } else {
                    ArgCompleteResult::NoMatch
                }
            },
            Arg::File => {
                match find_char(input.as_slice(), ' ') {
                    Some(i) => {
                        proof {
                            lemma_byte_len_prefix(input@, i as int, input@.len() as int);
                            assert(input@.subrange(0, input@.len() as int) =~= input@);
                        }
                        let b = prefix_byte_len(input.as_slice(), i);
                        ArgCompleteResult::SkipTo(start + b)
                    },
                    None => {
                        let m = input.len();
                        let tilde = m == 1 && input[0] == '~';
                        proof {
                            if input@ == seq!['~'] {
                                assert(input@[0] == '~');
                            }
                            if tilde {
                                assert(input@ =~= seq!['~']);
                            }
                        }
                        let (dir, prefix) = match rfind_char(input.as_slice(), '/') {
                            Some(k) => (sub_vec(input.as_slice(), 0, k), sub_vec(input.as_slice(), k + 1, m)),
                            None => if tilde {
                                let mut d: Vec<char> = Vec::new();
                                d.push('~');
                                proof {
                                    assert(d@ =~= seq!['~']);
                                }
                                (d, Vec::new())
                            } else {
                                let mut d: Vec<char> = Vec::new();
                                d.push('.');
                                proof {
                                    assert(d@ =~= seq!['.']);
                                }
                                (d, sub_vec(input.as_slice(), 0, m))
                            },
                        };
                        proof {
                            assert(input@.subrange(0, m as int) =~= input@);
                            assert((dir@, prefix@) == file_parts(input@));
                            lemma_byte_len_prefix(s@, i0 as int, n as int);
                        }
                        match find_listing(ls, &dir) {
                            Some(entries) => {
                                proof {
                                    assert(byte_len(input@) <= byte_len(s@));
                                    assert(prefix@.subrange(0, prefix@.len() as int) =~= prefix@);
                                    assert(byte_len(prefix@) <= byte_len(input@)) by {
                                        match rfind_below(input@, '/', input@.len() as int) {
                                            Some(k) => {
                                                lemma_byte_len_concat(input@.subrange(0, k + 1), prefix@);
                                                assert(input@.subrange(0, k + 1) + prefix@ =~= input@);
                                            },
                                            None => {},
                                        }
                                    }
                                }
                                let blen_prefix = prefix_byte_len(prefix.as_slice(), prefix.len());
                                let v = suggest_files(entries, &prefix, tilde, end - blen_prefix, end, !is_last);
                                ArgCompleteResult::Suggest(v)
                            },
                            None => ArgCompleteResult::ListDir(string_of(dir.as_slice())),
                        }
                    },
                }
            },
            Arg::Sequence(args) => {
                let ghost a = args@;
                let mut cur: Vec<char> = sub_vec(s.as_slice(), 0, n);
                let mut off = s_offset;
                let mut i: usize = 0;
                proof {
                    assert(s@.subrange(0, n as int) =~= s@);
                }
                while i < args.len()
                    invariant
                        a == args@,
                        *self is Sequence,
                        self->Sequence_0 == *args,
                        i <= a.len(),
                        off + byte_len(cur@) <= usize::MAX,
                        seq_spec(a, 0, s@, s_offset as int, ls@) == seq_spec(a, i as int, cur@, off as int, ls@),
                    decreases a.len() - i,
                {
                    proof {
                        assert(decreases_to!(*self => self->Sequence_0));
                        vstd::std_specs::vec::axiom_vec_index_decreases(self->Sequence_0, i as int);
                    }
                    let r = args[i].complete_chars(&cur, off, i + 1 == args.len(), ls);
                    match r {
                        ArgCompleteResult::SkipTo(p) => {
                            proof {
                                lemma_byte_len_prefix(cur@, 0, cur@.len() as int);
                                assert(cur@.subrange(0, cur@.len() as int) =~= cur@);
                            }
                            match char_index(&cur, p - off) {
                                Some(j) => {
                                    proof {
                                        lemma_byte_len_concat(cur@.subrange(0, j as int), cur@.subrange(j as int, cur@.len() as int));
                                        assert(cur@.subrange(0, j as int) + cur@.subrange(j as int, cur@.len() as int) =~= cur@);
                                        lemma_char_index_len(cur@, (p - off) as int);
                                    }
                                    let len = cur.len();
                                    cur = sub_vec(cur.as_slice(), j, len);
                                    off = p;
                                },
                                None => {
                                    return ArgCompleteResult::NoMatch;
                                },
                            }
                        },
                        other => {
                            return other;
                        },
                    }
                    i = i + 1;
                }
                ArgCompleteResult::NoMatch
            },
            Arg::OneOf(choices) => {
                let ghost c = choices@;
                let mut acc: Vec<Suggestion> = Vec::new();
                let mut k: usize = 0;
                assert(suggs_view(acc@) =~= Seq::<SuggestionView>::empty());
                while k < choices.len()
                    invariant
                        c == choices@,
                        *self is OneOf,
                        self->OneOf_0 == *choices,
                        k <= c.len(),
                        s_offset + byte_len(s@) <= usize::MAX,
                        oneof_spec(c, k as int, s@, s_offset as int, is_last, ls@) == ResultView::Suggest(suggs_view(acc@)),
                    decreases c.len() - k,
                {
                    proof {
                        assert(decreases_to!(*self => self->OneOf_0));
                        vstd::std_specs::vec::axiom_vec_index_decreases(self->OneOf_0, k as int);
                    }
                    let r = choices[k].complete_chars(s, s_offset, is_last, ls);
                    match r {
                        ArgCompleteResult::Suggest(w) => {
                            let mut w = w;
                            let ghost before = acc@;
                            let ghost wv = w@;
                            acc.append(&mut w);
                            proof {
                                assert(suggs_view(acc@) =~= suggs_view(before) + suggs_view(wv));
                            }
                        },
                        ArgCompleteResult::ListDir(d) => {
                            proof {
                                lemma_oneof_listdir(c, k + 1, c.len() as int, s@, s_offset as int, is_last, ls@);
                            }
                            return ArgCompleteResult::ListDir(d);
                        },
                        _ => {},
                    }
                    k = k + 1;
                }
                ArgCompleteResult::Suggest(acc)
            },
        }
    }
}

/// Where `char_index_at` lands, the prefix has exactly `pos` bytes.
proof fn lemma_char_index_len(cs: Seq<char>, pos: int)
    ensures
        char_index_at(cs, pos) matches Some(j) ==> 0 <= j <= cs.len() && byte_len(cs.subrange(0, j)) == pos,
    decreases cs.len(),
{
    if pos == byte_len(cs) {
        assert(cs.subrange(0, cs.len() as int) =~= cs);
    } else if cs.len() > 0 {
        lemma_char_index_len(cs.drop_last(), pos);
        match char_index_at(cs.drop_last(), pos) {
            Some(j) => {
                assert(cs.drop_last().subrange(0, j) =~= cs.subrange(0, j));
            },
            None => {},
        }
    }
}

/// Once an option of a choice needs a directory listed, so does the choice.
proof fn lemma_oneof_listdir(choices: Seq<Arg>, k: int, m: int, s: Seq<char>, off: int, is_last: bool, ls: Seq<DirListing>)
    requires
        0 <= k <= m <= choices.len(),
        oneof_spec(choices, k, s, off, is_last, ls) is ListDir,
    ensures
        oneof_spec(choices, m, s, off, is_last, ls) == oneof_spec(choices, k, s, off, is_last, ls),
    decreases m - k,
{
    if k < m {
        lemma_oneof_listdir(choices, k, m - 1, s, off, is_last, ls);
    }
}

/// A command: its names (the first is its primary name), the arguments it
/// takes, and a line of help.
#[derive(Debug)]
pub struct Cmd {
    pub prefixes: Vec<String>,
    pub args: Arg,
    pub help: String,
}

/// Builds a command.
#[derive(Debug)]
pub struct CmdBuilder {
    cmd: Cmd,
}

/// The commands that the prompt completes.
#[derive(Debug)]
pub struct CmdCompleter {
    cmds: Vec<Cmd>,
}

/// An argument as plain values.
pub enum ArgView {
    String,
    File,
    Literal(Seq<char>),
    OneOf(Seq<ArgView>),
    Sequence(Seq<ArgView>),
}

/// The plain values of an argument.
pub open spec fn arg_view(a: Arg) -> ArgView
    decreases a, 0int,
{
    match a {
        Arg::String => ArgView::String,
        Arg::File => ArgView::File,
        Arg::Literal(l) => ArgView::Literal(l@),
        Arg::OneOf(v) => {
            proof {
                assert(decreases_to!(a => v));
            }
            ArgView::OneOf(arg_views(v@, v@.len() as int))
        },
        Arg::Sequence(v) => {
            proof {
                assert(decreases_to!(a => v));
            }
            ArgView::Sequence(arg_views(v@, v@.len() as int))
        },
    }
}

/// The plain values of the first `n` arguments.
pub open spec fn arg_views(v: Seq<Arg>, n: int) -> Seq<ArgView>
    decreases v, n,
{
    if n <= 0 || n > v.len() {
        Seq::empty()
    } else {
        arg_views(v, n - 1).push(arg_view(v[n - 1]))
    }
}

/// The first `k` views of `v` stay when an argument is added after them.
proof fn lemma_arg_views_push(v: Seq<Arg>, a: Arg, k: int)
    requires
        0 <= k <= v.len(),
    ensures
        arg_views(v.push(a), k) == arg_views(v, k),
    decreases k,
{
    if k > 0 {
        lemma_arg_views_push(v, a, k - 1);
        assert(v.push(a)[k - 1] == v[k - 1]);
    }
}

/// There is one view for each of the first `k` arguments.
proof fn lemma_arg_views_len(v: Seq<Arg>, k: int)
    requires
        0 <= k <= v.len(),
    ensures
        arg_views(v, k).len() == k,
    decreases k,
{
    if k > 0 {
        lemma_arg_views_len(v, k - 1);
    }
}

/// The arguments `args` followed by `a`.
pub open spec fn with_arg(args: ArgView, a: ArgView) -> ArgView {
    match args {
        ArgView::Sequence(vs) => ArgView::Sequence(vs.push(a)),
        other => ArgView::Sequence(seq![other, a]),
    }
}

/// How many arguments `args` stands for: the length of a sequence, else one.
pub open spec fn arg_count(args: ArgView) -> nat {
    match args {
        ArgView::Sequence(vs) => vs.len(),
        _ => 1,
    }
}

/// A command as plain values: names, arguments, help.
pub type CmdView = (Seq<Seq<char>>, ArgView, Seq<char>);

/// The plain values of a command.
pub open spec fn cmd_view(c: Cmd) -> CmdView {
    (c.prefixes@.map_values(|p: String| p@), arg_view(c.args), c.help@)
}

/// A completion as plain values.
pub enum CompletionView {
    Suggestions(Seq<SuggestionView>),
    ListDir(Seq<char>),
}

/// The plain values of a completion.
pub open spec fn completion_view(c: Completion) -> CompletionView {
    match c {
        Completion::Suggestions(v) => CompletionView::Suggestions(suggs_view(v@)),
        Completion::ListDir(d) => CompletionView::ListDir(d@),
    }
}

/// The command has `a` among its names.
pub open spec fn has_name(c: Cmd, a: Seq<char>) -> bool {
    exists|i: int| 0 <= i < c.prefixes@.len() && #[trigger] c.prefixes@[i]@ == a
}

/// The command takes arguments: anything but an empty sequence.
pub open spec fn spec_takes_args(c: Cmd) -> bool {
    match c.args {
        Arg::Sequence(v) => v@.len() > 0,
        _ => true,
    }
}

/// The first of the commands from `i` on that has name `a`.
pub open spec fn first_named(cmds: Seq<Cmd>, a: Seq<char>, i: int) -> Option<int>
    decreases cmds.len() - i,
{
    if i < 0 || i >= cmds.len() {
        None
    } else if has_name(cmds[i], a) {
        Some(i)
    } else {
        first_named(cmds, a, i + 1)
    }
}

/// The commands among the first `n` whose primary name begins with `input`,
/// each suggested with its help over bytes `0..pos`.
pub open spec fn name_suggestions(cmds: Seq<Cmd>, input: Seq<char>, pos: int, n: int) -> Seq<SuggestionView>
    decreases n,
{
    if n <= 0 || n > cmds.len() {
        Seq::empty()
    } else {
        let rest = name_suggestions(cmds, input, pos, n - 1);
        let c = cmds[n - 1];
        if has_prefix(c.prefixes@[0]@, input) {
            rest.push((c.prefixes@[0]@, Some(c.help@), 0, pos, spec_takes_args(c)))
        } else {
            rest
        }
    }
}

/// Completing the arguments of a command from `s`, at byte `off`.
pub open spec fn arg_completion(c: Cmd, s: Seq<char>, off: int, ls: Seq<DirListing>) -> CompletionView {
    match complete_spec(c.args, s, off, true, ls) {
        ResultView::Suggest(v) => CompletionView::Suggestions(v),
        ResultView::ListDir(d) => CompletionView::ListDir(d),
        _ => CompletionView::Suggestions(Seq::empty()),
    }
}

/// Completing the first `pos` bytes of a command line: a whole command name
/// becomes the command's primary name; after a command name and a space,
/// the command's arguments complete; otherwise the commands whose primary
/// names begin with what is typed are suggested.
pub open spec fn line_completion(cmds: Seq<Cmd>, input: Seq<char>, pos: int, ls: Seq<DirListing>) -> CompletionView {
    match first_named(cmds, input, 0) {
        Some(i) => CompletionView::Suggestions(
            seq![(cmds[i].prefixes@[0]@, None, 0, pos, spec_takes_args(cmds[i]))],
        ),
        None => match find_from(input, ' ', 0) {
            Some(k) => {
                let first = input.subrange(0, k);
                match first_named(cmds, first, 0) {
                    Some(i) => arg_completion(cmds[i], input.subrange(k + 1, input.len() as int), byte_len(first) as int + 1, ls),
                    None => CompletionView::Suggestions(Seq::empty()),
                }
            },
            None => CompletionView::Suggestions(name_suggestions(cmds, input, pos, cmds.len() as int)),
        },
    }
}

impl Cmd {
    /// Every command has a primary name.
    pub open spec fn wf(&self) -> bool {
        self.prefixes@.len() > 0
    }

    /// Whether `alias` is one of the command's names.
    pub fn has_alias(&self, alias: &str) -> (r: bool)
        ensures
            r == has_name(*self, alias@),
    {
        let a = chars_of(alias);
        let mut i: usize = 0;
        while i < self.prefixes.len()
            invariant
                a@ == alias@,
                i <= self.prefixes@.len(),
                forall|k: int| 0 <= k < i ==> #[trigger] self.prefixes@[k]@ != alias@,
            decreases self.prefixes@.len() - i,
        {
            let p = chars_of(self.prefixes[i].as_str());
            if crate::strings::chars_eq(p.as_slice(), a.as_slice()) {
                return true;
            }
            i = i + 1;
        }
        false
    }

    /// How many arguments the command takes: see `arg_count`.
    pub fn n_args(&self) -> (n: usize)
        ensures
            n == arg_count(arg_view(self.args)),
    {
        match &self.args {
            Arg::Sequence(v) => {
                proof {
                    lemma_arg_views_len(v@, v@.len() as int);
                }
                v.len()
            },
            _ => 1,
        }
    }

    /// Whether the command takes arguments.
    pub fn takes_args(&self) -> (r: bool)
        ensures
            r == spec_takes_args(*self),
    {
        match &self.args {
            Arg::Sequence(v) => v.len() > 0,
            _ => true,
        }
    }

    /// The command's first name.
    pub fn primary_name(&self) -> (s: &str)
        requires
            self.wf(),
        ensures
            s@ == self.prefixes@[0]@,
    {
        self.prefixes[0].as_str()
    }

    /// The command's help.
    pub fn help_text(&self) -> (s: &str)
        ensures
            s@ == self.help@,
    {
        self.help.as_str()
    }

    /// Completes the command's arguments from `s`, at byte `s_offset`.
    pub fn arg_complete(&self, s: &str, s_offset: usize, ls: &Vec<DirListing>) -> (r: Completion)
        requires
            s_offset + s.spec_bytes().len() <= usize::MAX,
        ensures
            completion_view(r) == arg_completion(*self, s@, s_offset as int, ls@),
    {
        match self.args.complete(s, s_offset, true, ls) {
            ArgCompleteResult::Suggest(v) => Completion::Suggestions(v),
            ArgCompleteResult::ListDir(d) => Completion::ListDir(d),
            _ => {
                let v: Vec<Suggestion> = Vec::new();
                assert(suggs_view(v@) =~= Seq::<SuggestionView>::empty());
                Completion::Suggestions(v)
            },
        }
    }
}

impl CmdBuilder {
    /// A command with the given primary name, no arguments and no help.
    pub fn new(prefix: &str) -> (b: Self)
        ensures
            cmd_view(b.spec_cmd()) == (seq![prefix@], ArgView::Sequence(Seq::empty()), Seq::<char>::empty()),
            b.spec_cmd().wf(),
    {
        let mut prefixes: Vec<String> = Vec::new();
        prefixes.push(to_owned_string(prefix));
        let args = Arg::Sequence(Vec::new());
        let b = CmdBuilder { cmd: Cmd { prefixes, args, help: String::new() } };
        proof {
            assert(b.cmd.prefixes@.map_values(|p: String| p@) =~= seq![prefix@]);
            let v = b.cmd.args->Sequence_0;
            assert(arg_views(v@, 0) =~= Seq::<ArgView>::empty());
        }
        b
    }

    /// The command being built.
    pub closed spec fn spec_cmd(&self) -> Cmd {
        self.cmd
    }

    /// Adds another name.
    pub fn alias(self, prefix: &str) -> (b: Self)
        ensures
            cmd_view(b.spec_cmd()) == (
                cmd_view(self.spec_cmd()).0.push(prefix@),
                cmd_view(self.spec_cmd()).1,
                cmd_view(self.spec_cmd()).2,
            ),
            self.spec_cmd().wf() ==> b.spec_cmd().wf(),
    {
        let mut b = self;
        let ghost before = b.cmd.prefixes@;
        b.cmd.prefixes.push(to_owned_string(prefix));
        proof {
            assert(b.cmd.prefixes@.map_values(|p: String| p@) =~= before.map_values(|p: String| p@).push(prefix@));
        }
        b
    }

    /// Sets the arguments.
    pub fn args(self, args: Arg) -> (b: Self)
        ensures
            cmd_view(b.spec_cmd()) == (cmd_view(self.spec_cmd()).0, arg_view(args), cmd_view(self.spec_cmd()).2),
            self.spec_cmd().wf() ==> b.spec_cmd().wf(),
    {
        let mut b = self;
        b.cmd.args = args;
        b
    }

    /// Adds an argument after those the command takes.
    pub fn arg(self, a: Arg) -> (b: Self)
        ensures
            cmd_view(b.spec_cmd()) == (
                cmd_view(self.spec_cmd()).0,
                with_arg(cmd_view(self.spec_cmd()).1, arg_view(a)),
                cmd_view(self.spec_cmd()).2,
            ),
            self.spec_cmd().wf() ==> b.spec_cmd().wf(),
    {
        let CmdBuilder { cmd } = self;
        let Cmd { prefixes, args, help } = cmd;
        let ghost old_args = args;
        let new_args = match args {
            Arg::Sequence(v) => {
                let mut v = v;
                let ghost before = v@;
                v.push(a);
                proof {
                    lemma_arg_views_push(before, a, before.len() as int);
                }
                Arg::Sequence(v)
            },
            other => {
                let mut v: Vec<Arg> = Vec::new();
                v.push(other);
                v.push(a);
                proof {
                    assert(v@[0] == old_args);
                    assert(arg_views(v@, 0) =~= Seq::<ArgView>::empty());
                    assert(arg_views(v@, 1) =~= seq![arg_view(old_args)]);
                    assert(arg_views(v@, 2) =~= seq![arg_view(old_args), arg_view(a)]);
                }
                Arg::Sequence(v)
            },
        };
        CmdBuilder { cmd: Cmd { prefixes, args: new_args, help } }
    }

    /// Sets the help.
    pub fn help(self, help: &str) -> (b: Self)
        ensures
            cmd_view(b.spec_cmd()) == (cmd_view(self.spec_cmd()).0, cmd_view(self.spec_cmd()).1, help@),
            self.spec_cmd().wf() ==> b.spec_cmd().wf(),
    {
        let mut b = self;
        b.cmd.help = to_owned_string(help);
        b
    }

    /// The command.
    pub fn build(self) -> (c: Cmd)
        ensures
            c == self.spec_cmd(),
    {
        self.cmd
    }
}

impl CmdCompleter {
    /// The commands.
    pub closed spec fn spec_cmds(&self) -> Seq<Cmd> {
        self.cmds@
    }

    /// Every command has a primary name.
    pub open spec fn wf(&self) -> bool {
        forall|i: int| 0 <= i < self.spec_cmds().len() ==> #[trigger] self.spec_cmds()[i].wf()
    }

    /// A completer for the given commands.
    pub fn new(cmds: Vec<Cmd>) -> (c: Self)
        ensures
            c.spec_cmds() == cmds@,
    {
        CmdCompleter { cmds }
    }

    /// The first command that has the name `name`.
    fn find_named(&self, name: &str) -> (r: Option<usize>)
        ensures
            r matches Some(i) ==> first_named(self.cmds@, name@, 0) == Some(i as int) && i < self.cmds@.len(),
            r is None ==> first_named(self.cmds@, name@, 0) is None,
    {
        let n = self.cmds.len();
        let mut i: usize = 0;
        while i < n
            invariant
                n == self.cmds@.len(),
                i <= n,
                first_named(self.cmds@, name@, 0) == first_named(self.cmds@, name@, i as int),
            decreases n - i,
        {
            if self.cmds[i].has_alias(name) {
                return Some(i);
            }
            i = i + 1;
        }
        None
    }

    /// The commands whose primary name begins with `input`.
    fn name_suggestions(&self, input: &Vec<char>, pos: usize) -> (v: Vec<Suggestion>)
        requires
            self.wf(),
        ensures
            suggs_view(v@) == name_suggestions(self.cmds@, input@, pos as int, self.cmds@.len() as int),
    {
        let n = self.cmds.len();
        let mut v: Vec<Suggestion> = Vec::new();
        let mut c: usize = 0;
        assert(suggs_view(v@) =~= Seq::<SuggestionView>::empty());
        while c < n
            invariant
                n == self.cmds@.len(),
                c <= n,
                self.wf(),
                suggs_view(v@) == name_suggestions(self.cmds@, input@, pos as int, c as int),
            decreases n - c,
        {
            proof {
                assert(self.spec_cmds()[c as int].wf());
            }
            let name = chars_of(self.cmds[c].primary_name());
            if starts_with(name.as_slice(), input.as_slice()) {
                let sg = Suggestion {
                    value: to_owned_string(self.cmds[c].primary_name()),
                    description: Some(to_owned_string(self.cmds[c].help_text())),
                    start: 0,
                    end: pos,
                    append_whitespace: self.cmds[c].takes_args(),
                };
                let ghost before = v@;
                v.push(sg);
                proof {
                    assert(suggs_view(v@) =~= suggs_view(before).push(sugg_view(sg)));
                }
            }
            c = c + 1;
        }
        v
    }

    /// The primary name of command `i` as the only suggestion.
    fn name_suggestion(&self, i: usize, pos: usize) -> (r: Completion)
        requires
            self.wf(),
            i < self.cmds@.len(),
        ensures
            completion_view(r) == CompletionView::Suggestions(
                seq![(self.cmds@[i as int].prefixes@[0]@, None, 0, pos as int, spec_takes_args(self.cmds@[i as int]))],
            ),
    {
        proof {
            assert(self.spec_cmds()[i as int].wf());
        }
        let mut v: Vec<Suggestion> = Vec::new();
        v.push(Suggestion {
            value: to_owned_string(self.cmds[i].primary_name()),
            description: None,
            start: 0,
            end: pos,
            append_whitespace: self.cmds[i].takes_args(),
        });
        assert(suggs_view(v@) =~= seq![(self.cmds@[i as int].prefixes@[0]@, None::<Seq<char>>, 0int, pos as int, spec_takes_args(self.cmds@[i as int]))]);
        Completion::Suggestions(v)
    }

    /// Completes the first `pos` bytes of `line`: see `line_completion`.
    #[verifier::rlimit(50)]
    pub fn complete(&self, line: &str, pos: usize, ls: &Vec<DirListing>) -> (r: Completion)
        requires
            self.wf(),
            char_index_at(line@, pos as int) is Some,
        ensures
            completion_view(r) == line_completion(
                self.spec_cmds(),
                line@.subrange(0, char_index_at(line@, pos as int)->0),
                pos as int,
                ls@,
            ),
    {
        proof {
            lemma_str_bytes(line);
        }
        let (cs, _total) = chars_and_len(line);
        let j = match char_index(&cs, pos) {
            Some(j) => j,
            None => {
                return Completion::Suggestions(Vec::new());
            },
        };
        let input = sub_vec(cs.as_slice(), 0, j);
        let input_str = string_of(input.as_slice());
        if let Some(i) = self.find_named(input_str.as_str()) {
            return self.name_suggestion(i, pos);
        }
        match find_char(input.as_slice(), ' ') {
            Some(k) => {
                let first = sub_vec(input.as_slice(), 0, k);
                let rest = sub_vec(input.as_slice(), k + 1, j);
                let first_str = string_of(first.as_slice());
                let rest_str = string_of(rest.as_slice());
                proof {
                    lemma_byte_len_prefix(cs@, j as int, cs@.len() as int);
                    assert(cs@.subrange(0, cs@.len() as int) =~= cs@);
                }
                let first_len = prefix_byte_len(input.as_slice(), k);
                proof {
                    lemma_find_from(input@, ' ', 0);
                    assert(input@[k as int] == ' ');
                    lemma_byte_len_prefix(cs@, j as int, cs@.len() as int);
                    assert(cs@.subrange(0, cs@.len() as int) =~= cs@);
                    lemma_byte_len_concat(first@, input@.subrange(k as int, j as int));
                    assert(first@ + input@.subrange(k as int, j as int) =~= input@);
                    lemma_byte_len_concat(seq![' '], rest@);
                    assert(seq![' '] + rest@ =~= input@.subrange(k as int, j as int));
                    assert(byte_len(seq![' ']) == 1) by {
                        let sp = seq![' '];
                        assert(sp.drop_last() =~= Seq::<char>::empty());
                        assert(sp.last() == ' ');
                        assert(char_len(' ') == 1);
                        assert(byte_len(Seq::<char>::empty()) == 0);
                    }
                    lemma_byte_len_encode(rest@);
                    lemma_byte_len_prefix(input@, k as int, j as int);
                    assert(input@.subrange(0, k as int) == first@);
                }
                match self.find_named(first_str.as_str()) {
                    Some(c) => self.cmds[c].arg_complete(rest_str.as_str(), first_len + 1, ls),
                    None => {
                        let v: Vec<Suggestion> = Vec::new();
                        assert(suggs_view(v@) =~= Seq::<SuggestionView>::empty());
                        Completion::Suggestions(v)
                    },
                }
            },
            None => Completion::Suggestions(self.name_suggestions(&input, pos)),
        }
    }
}

/// What `find_from` finds is the char searched for.
proof fn lemma_find_from(cs: Seq<char>, c: char, i: int)
    ensures
        find_from(cs, c, i) matches Some(k) ==> i <= k < cs.len() && cs[k] == c,
    decreases cs.len() - i,
{
    if 0 <= i < cs.len() && cs[i] != c {
        lemma_find_from(cs, c, i + 1);
    }
}

proof fn lemma_arg_views_prefix(w: Seq<Arg>, v: Seq<Arg>, n: int)
    requires
        0 <= n <= v.len() <= w.len(),
        forall|i: int| 0 <= i < v.len() ==> w[i] == v[i],
    ensures
        arg_views(w, n) == arg_views(v, n),
    decreases n,
{
    if n > 0 {
        lemma_arg_views_prefix(w, v, n - 1);
    }
}

/// A list of arguments, with the plain values of what it holds.
fn push_arg(v: &mut Vec<Arg>, a: Arg)
    ensures
        final(v)@ == old(v)@.push(a),
        arg_views(final(v)@, final(v)@.len() as int) == arg_views(old(v)@, old(v)@.len() as int).push(arg_view(a)),
{
    let ghost before = v@;
    v.push(a);
    proof {
        lemma_arg_views_prefix(v@, before, before.len() as int);
        assert(v@[before.len() as int] == a);
    }
}

/// The literal `s`.
fn lit(s: &str) -> (a: Arg)
    ensures
        arg_view(a) == ArgView::Literal(s@),
{
    Arg::Literal(to_owned_string(s))
}

/// One of two arguments.
fn choice2(a: Arg, b: Arg) -> (r: Arg)
    ensures
        arg_view(r) == ArgView::OneOf(seq![arg_view(a), arg_view(b)]),
{
    let mut v: Vec<Arg> = Vec::new();
    assert(arg_views(v@, 0) =~= Seq::<ArgView>::empty());
    push_arg(&mut v, a);
    push_arg(&mut v, b);
    assert(arg_views(v@, 2) =~= seq![arg_view(a), arg_view(b)]);
    Arg::OneOf(v)
}

/// One of three arguments.
fn choice3(a: Arg, b: Arg, c: Arg) -> (r: Arg)
    ensures
        arg_view(r) == ArgView::OneOf(seq![arg_view(a), arg_view(b), arg_view(c)]),
{
    let mut v: Vec<Arg> = Vec::new();
    assert(arg_views(v@, 0) =~= Seq::<ArgView>::empty());
    push_arg(&mut v, a);
    push_arg(&mut v, b);
    push_arg(&mut v, c);
    assert(arg_views(v@, 3) =~= seq![arg_view(a), arg_view(b), arg_view(c)]);
    Arg::OneOf(v)
}

/// One of four arguments.
fn choice4(a: Arg, b: Arg, c: Arg, d: Arg) -> (r: Arg)
    ensures
        arg_view(r) == ArgView::OneOf(seq![arg_view(a), arg_view(b), arg_view(c), arg_view(d)]),
{
    let mut v: Vec<Arg> = Vec::new();
    assert(arg_views(v@, 0) =~= Seq::<ArgView>::empty());
    push_arg(&mut v, a);
    push_arg(&mut v, b);
    push_arg(&mut v, c);
    push_arg(&mut v, d);
    assert(arg_views(v@, 4) =~= seq![arg_view(a), arg_view(b), arg_view(c), arg_view(d)]);
    Arg::OneOf(v)
}

/// Two arguments, one after the other.
fn seq2(a: Arg, b: Arg) -> (r: Arg)
    ensures
        arg_view(r) == ArgView::Sequence(seq![arg_view(a), arg_view(b)]),
{
    let mut v: Vec<Arg> = Vec::new();
    assert(arg_views(v@, 0) =~= Seq::<ArgView>::empty());
    push_arg(&mut v, a);
    push_arg(&mut v, b);
    assert(arg_views(v@, 2) =~= seq![arg_view(a), arg_view(b)]);
    Arg::Sequence(v)
}

/// Any one of the given words.
fn choice_of_words(words: &[String]) -> (r: Arg)
    ensures
        arg_view(r) == ArgView::OneOf(words@.map_values(|w: String| ArgView::Literal(w@))),
{
    let mut v: Vec<Arg> = Vec::new();
    let mut i: usize = 0;
    assert(arg_views(v@, 0) =~= Seq::<ArgView>::empty());
    while i < words.len()
        invariant
            i <= words@.len(),
            v@.len() == i,
            arg_views(v@, i as int) == words@.subrange(0, i as int).map_values(|w: String| ArgView::Literal(w@)),
        decreases words@.len() - i,
    {
        push_arg(&mut v, lit(words[i].as_str()));
        proof {
            assert(words@.subrange(0, i + 1).map_values(|w: String| ArgView::Literal(w@)) =~= words@.subrange(0, i as int).map_values(|w: String| ArgView::Literal(w@)).push(ArgView::Literal(words@[i as int]@)));
        }
        i = i + 1;
    }
    assert(words@.subrange(0, words@.len() as int) =~= words@);
    Arg::OneOf(v)
}

/// A command with its parts.
pub open spec fn cmd_entry(names: Seq<Seq<char>>, args: ArgView, help: Seq<char>) -> CmdView {
    (names, args, help)
}

/// No arguments.
pub open spec fn no_args() -> ArgView {
    ArgView::Sequence(Seq::empty())
}

/// The commands that the prompt knows, given the file type names.
pub open spec fn command_table(fts: Seq<Seq<char>>) -> Seq<CmdView> {
    seq![
        cmd_entry(seq!["exec"@, "x"@], ArgView::String, "exec [TEMPLATE]"@),
        cmd_entry(seq!["find"@], ArgView::String, "find STR"@),
        cmd_entry(seq!["goto"@], ArgView::String, "goto LINE[:COL]"@),
        cmd_entry(seq!["insertchar"@, "c"@], ArgView::String, "insertchar CODEPOINT[, CODEPOINT]..."@),
        cmd_entry(seq!["lint"@], no_args(), "lint"@),
        cmd_entry(seq!["open"@], ArgView::File, "open FILE"@),
        cmd_entry(seq!["save"@], ArgView::File, "save [FILE]"@),
        cmd_entry(
            seq!["set"@],
            ArgView::OneOf(
                seq![
                    ArgView::Sequence(seq![ArgView::Literal("autoindent"@), ArgView::OneOf(seq![ArgView::Literal("off"@), ArgView::Literal("keep"@)])]),
                    ArgView::Sequence(seq![ArgView::Literal("eol"@), ArgView::OneOf(seq![ArgView::Literal("lf"@), ArgView::Literal("crlf"@), ArgView::Literal("cr"@)])]),
                    ArgView::Sequence(seq![ArgView::Literal("ftype"@), ArgView::OneOf(fts.map_values(|f: Seq<char>| ArgView::Literal(f)))]),
                    ArgView::Sequence(seq![ArgView::Literal("debug"@), ArgView::OneOf(seq![ArgView::Literal("off"@), ArgView::Literal("scopes"@)])]),
                ],
            ),
            "set KEY VALUE"@,
        ),
        cmd_entry(
            seq!["to"@],
            ArgView::OneOf(seq![ArgView::Literal("lower"@), ArgView::Literal("upper"@), ArgView::Literal("quoted"@), ArgView::Literal("list"@)]),
            "to (lower|upper|quoted|list)"@,
        ),
        cmd_entry(seq!["quit"@, ":q"@, "exit"@, "q"@], no_args(), "quit"@),
    ]
}

/// Adds a command to a list, with its plain values.
fn push_cmd(v: &mut Vec<Cmd>, c: Cmd)
    ensures
        final(v)@ == old(v)@.push(c),
{
    v.push(c);
}

impl CmdCompleter {
    /// The commands of the prompt: see `command_table`.
    pub fn make_completer(filetypes: &[String]) -> (c: CmdCompleter)
        ensures
            c.wf(),
            c.spec_cmds().map_values(|x: Cmd| cmd_view(x)) == command_table(
                filetypes@.map_values(|s: String| s@),
            ),
    {
        let mut cmds: Vec<Cmd> = Vec::new();
        let c0 = CmdBuilder::new("exec").alias("x").args(Arg::String).help("exec [TEMPLATE]").build();
        let c1 = CmdBuilder::new("find").args(Arg::String).help("find STR").build();
        let c2 = CmdBuilder::new("goto").args(Arg::String).help("goto LINE[:COL]").build();
        let c3 = CmdBuilder::new("insertchar").alias("c").args(Arg::String).help(
            "insertchar CODEPOINT[, CODEPOINT]...",
        ).build();
        let c4 = CmdBuilder::new("lint").help("lint").build();
        let c5 = CmdBuilder::new("open").args(Arg::File).help("open FILE").build();
        let c6 = CmdBuilder::new("save").args(Arg::File).help("save [FILE]").build();
        let set_args = choice4(
            seq2(lit("autoindent"), choice2(lit("off"), lit("keep"))),
            seq2(lit("eol"), choice3(lit("lf"), lit("crlf"), lit("cr"))),
            seq2(lit("ftype"), choice_of_words(filetypes)),
            seq2(lit("debug"), choice2(lit("off"), lit("scopes"))),
        );
        let c7 = CmdBuilder::new("set").args(set_args).help("set KEY VALUE").build();
        let to_args = choice4(lit("lower"), lit("upper"), lit("quoted"), lit("list"));
        let c8 = CmdBuilder::new("to").args(to_args).help("to (lower|upper|quoted|list)").build();
        let c9 = CmdBuilder::new("quit").alias(":q").alias("exit").alias("q").help("quit").build();
        let ghost g = seq![c0, c1, c2, c3, c4, c5, c6, c7, c8, c9];
        push_cmd(&mut cmds, c0);
        push_cmd(&mut cmds, c1);
        push_cmd(&mut cmds, c2);
        push_cmd(&mut cmds, c3);
        push_cmd(&mut cmds, c4);
        push_cmd(&mut cmds, c5);
        push_cmd(&mut cmds, c6);
        push_cmd(&mut cmds, c7);
        push_cmd(&mut cmds, c8);
        push_cmd(&mut cmds, c9);
        let c = CmdCompleter { cmds };
        proof {
            let fts = filetypes@.map_values(|s: String| s@);
            let t = command_table(fts);
            assert(cmds@ =~= g);
            assert(filetypes@.map_values(|w: String| ArgView::Literal(w@)) =~= fts.map_values(|f: Seq<char>| ArgView::Literal(f)));
            assert(cmd_view(g[0]).0 =~= seq!["exec"@, "x"@]);
            assert(cmd_view(g[0]) == t[0]);
            assert(cmd_view(g[1]).0 =~= seq!["find"@]);
            assert(cmd_view(g[1]) == t[1]);
            assert(cmd_view(g[2]).0 =~= seq!["goto"@]);
            assert(cmd_view(g[2]) == t[2]);
            assert(cmd_view(g[3]).0 =~= seq!["insertchar"@, "c"@]);
            assert(cmd_view(g[3]) == t[3]);
            assert(cmd_view(g[4]).0 =~= seq!["lint"@]);
            assert(cmd_view(g[4]) == t[4]);
            assert(cmd_view(g[5]).0 =~= seq!["open"@]);
            assert(cmd_view(g[5]) == t[5]);
            assert(cmd_view(g[6]).0 =~= seq!["save"@]);
            assert(cmd_view(g[6]) == t[6]);
            assert(cmd_view(g[7]).0 =~= seq!["set"@]);
            assert(cmd_view(g[7]) == t[7]);
            assert(cmd_view(g[8]).0 =~= seq!["to"@]);
            assert(cmd_view(g[8]) == t[8]);
            assert(cmd_view(g[9]).0 =~= seq!["quit"@, ":q"@, "exit"@, "q"@]);
            assert(cmd_view(g[9]) == t[9]);
            assert(c.spec_cmds().map_values(|x: Cmd| cmd_view(x)) =~= t);
            assert forall|i: int| 0 <= i < c.spec_cmds().len() implies #[trigger] c.spec_cmds()[i].wf() by {
                assert(c.spec_cmds()[i] == g[i]);
                assert(cmd_view(g[i]) == t[i]);
                assert(cmd_view(g[i]).0.len() > 0);
            }
        }
        c
    }
}

} // verus!
