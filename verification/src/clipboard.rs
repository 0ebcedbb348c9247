//! The editor's own clipboard: the texts last copied, one per cursor.
use crate::strings::{push_char, push_str};
use vstd::prelude::*;

verus! {

/// The texts joined with line feeds between them.
pub open spec fn joined_lines(clips: Seq<Seq<char>>, n: int) -> Seq<char>
    decreases n,
{
    if n <= 0 {
        Seq::empty()
    } else if n == 1 {
        clips[0]
    } else {
        joined_lines(clips, n - 1) + seq!['\n'] + clips[n - 1]
    }
}

/// The clipboard.
#[derive(Debug, Default)]
pub struct InternalClipboard {
    clips: Vec<String>,
}

impl InternalClipboard {
    /// The copied texts.
    pub closed spec fn spec_clips(&self) -> Seq<Seq<char>> {
        self.clips@.map_values(|s: String| s@)
    }

    /// An empty clipboard.
    pub fn new() -> (c: Self)
        ensures
            c.spec_clips().len() == 0,
    {
        InternalClipboard { clips: Vec::new() }
    }

    /// Keeps `content` as the copied texts, and gives them joined with line
    /// feeds, which is what goes to the system clipboard.
    pub fn copy(&mut self, content: Vec<String>) -> (text: String)
        ensures
            final(self).spec_clips() == content@.map_values(|s: String| s@),
            text@ == joined_lines(final(self).spec_clips(), final(self).spec_clips().len() as int),
    {
        self.clips = content;
        let ghost clips = self.spec_clips();
        let mut text = String::new();
        let mut i: usize = 0;
        while i < self.clips.len()
            invariant
                clips == self.spec_clips(),
                i <= self.clips@.len(),
                text@ == joined_lines(clips, i as int),
            decreases self.clips@.len() - i,
        {
            if i > 0 {
                push_char(&mut text, '\n');
            }
            push_str(&mut text, self.clips[i].as_str());
            proof {
                assert(clips[i as int] == self.clips@[i as int]@);
                if i == 0 {
                    assert(text@ =~= clips[0]);
                }
            }
            i = i + 1;
        }
        text
    }

    /// The copied texts.
    pub fn content(&self) -> (c: &[String])
        ensures
            c@.map_values(|s: String| s@) == self.spec_clips(),
    {
        self.clips.as_slice()
    }
}

} // verus!
