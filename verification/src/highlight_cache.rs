//! The states that the syntax highlighter keeps along a text, line by line,
//! so that highlighting can resume near any line instead of at the start.
use vstd::prelude::*;

verus! {

/// A state is kept after every line whose number has the bits `0x69` set.
pub open spec fn keeps_state_after(line: usize) -> bool {
    line & 0x69 == 0x69
}

/// Whether the state after line `line` is kept.
pub fn should_memorize(line: usize) -> (r: bool)
    ensures
        r == keeps_state_after(line),
{
    line & 0x69 == 0x69
}

/// Kept states, by the line they belong to, in increasing order of lines.
pub struct StateCache<S> {
    entries: Vec<(usize, S)>,
}

/// Where highlighting resumes to reach a line.
#[derive(Debug, Clone, Copy, PartialEq, Eq, Structural)]
pub enum ResumePoint {
    /// The highlighter is already at the line.
    AlreadyThere,
    /// From the kept state at this index of the cache.
    FromCache(usize),
    /// From the start of the text.
    FromStart,
    /// From where the highlighter is now.
    FromCurrent,
}

impl<S> StateCache<S> {
    /// The lines that states are kept for, in order.
    pub closed spec fn lines(&self) -> Seq<usize> {
        self.entries@.map_values(|e: (usize, S)| e.0)
    }

    /// The kept states, in the order of their lines.
    pub closed spec fn states(&self) -> Seq<S> {
        self.entries@.map_values(|e: (usize, S)| e.1)
    }

    /// The lines are strictly increasing.
    pub open spec fn wf(&self) -> bool {
        forall|i: int, j: int| 0 <= i < j < self.lines().len() ==> self.lines()[i] < self.lines()[j]
    }

    /// An empty cache.
    pub fn new() -> (c: Self)
        ensures
            c.wf(),
            c.lines().len() == 0,
    {
        StateCache { entries: Vec::new() }
    }

    /// The number of kept states.
    pub fn len(&self) -> (n: usize)
        ensures
            n == self.lines().len(),
    {
        self.entries.len()
    }

    /// The kept state at an index, with its line.
    pub fn get(&self, i: usize) -> (e: &(usize, S))
        requires
            i < self.lines().len(),
        ensures
            e.0 == self.lines()[i as int],
            e.1 == self.states()[i as int],
    {
        &self.entries[i]
    }

    /// Keeps `state` for `line`, in place of any state kept for it before.
    pub fn insert(&mut self, line: usize, state: S)
        requires
            old(self).wf(),
        ensures
            final(self).wf(),
            old(self).lines().contains(line) ==> final(self).lines() == old(self).lines(),
            !old(self).lines().contains(line) ==> final(self).lines().len() == old(self).lines().len() + 1,
            final(self).lines().contains(line),
            forall|l: usize| #[trigger] final(self).lines().contains(l) <==> (old(self).lines().contains(l) || l == line),
            final(self).states()[final(self).lines().index_of(line)] == state,
    {
        let n = self.entries.len();
        let mut i: usize = 0;
        while i < n && self.entries[i].0 < line
            invariant
                n == self.entries@.len(),
                *self == *old(self),
                old(self).wf(),
                i <= n,
                forall|j: int| 0 <= j < i ==> self.lines()[j] < line,
            decreases n - i,
        {
            proof {
                assert(self.lines()[i as int] == self.entries@[i as int].0);
            }
            i = i + 1;
        }
        let ghost old_lines = self.lines();
        let ghost old_states = self.states();
        if i < n && self.entries[i].0 == line {
            self.entries.set(i, (line, state));
            proof {
                assert(self.lines() =~= old_lines);
                assert(old_lines[i as int] == line);
                assert(old_lines.index_of(line) == i) by {
                    assert(old_lines.contains(line));
                    let k = old_lines.index_of(line);
                    assert(old_lines[k] == line);
                    if k < i {
                        assert(old_lines[k] < line);
                    } else if k > i {
                        assert(old_lines[i as int] < old_lines[k]);
                    }
                }
                assert(self.states()[i as int] == state);
            }
        } else {
            self.entries.insert(i, (line, state));
            proof {
                assert(self.lines() =~= old_lines.insert(i as int, line));
                assert(self.states() =~= old_states.insert(i as int, state));
                assert(!old_lines.contains(line)) by {
                    if old_lines.contains(line) {
                        let k = old_lines.index_of(line);
                        if k < i {
                            assert(old_lines[k] < line);
                        } else {
                            assert(old_lines[i as int] > line || i == n);
                            if k > i {
                                assert(old_lines[i as int] < old_lines[k]);
                            }
                        }
                    }
                }
                let nl = self.lines();
                assert forall|a: int, b: int| 0 <= a < b < nl.len() implies nl[a] < nl[b] by {
                    if b < i {
                    } else if a > i {
                        assert(nl[a] == old_lines[a - 1]);
                        assert(nl[b] == old_lines[b - 1]);
                    } else if a == i {
                        assert(nl[b] == old_lines[b - 1]);
                        assert(old_lines[i as int] > line);
                        if b - 1 > i {
                            assert(old_lines[i as int] < old_lines[b - 1]);
                        }
                    } else {
                        if b == i {
                        } else {
                            assert(nl[b] == old_lines[b - 1]);
                            assert(old_lines[a] < line);
                            assert(old_lines[a] < old_lines[b - 1]);
                        }
                    }
                }
                assert(nl[i as int] == line);
                assert(nl.index_of(line) == i) by {
                    assert(nl.contains(line));
                    let k = nl.index_of(line);
                    if k < i {
                        assert(nl[k] < nl[i as int]);
                    } else if k > i {
                        assert(nl[i as int] < nl[k]);
                    }
                }
                assert forall|l: usize| #[trigger] nl.contains(l) <==> (old_lines.contains(l) || l == line) by {
                    if nl.contains(l) {
                        let k = nl.index_of(l);
                        if k < i {
                            assert(old_lines[k] == l);
                        } else if k > i {
                            assert(old_lines[k - 1] == l);
                        }
                    }
                    if old_lines.contains(l) {
                        let k = old_lines.index_of(l);
                        if k < i {
                            assert(nl[k] == l);
                        } else {
                            assert(nl[k + 1] == l);
                        }
                    }
                }
            }
        }
    }

    /// Drops every state kept for line `lineno` or a later one.
    pub fn invalidate_from(&mut self, lineno: usize)
        requires
            old(self).wf(),
        ensures
            final(self).wf(),
            forall|l: usize| #[trigger] final(self).lines().contains(l) <==> (old(self).lines().contains(l) && l < lineno),
            final(self).lines() == old(self).lines().take(final(self).lines().len() as int),
            final(self).states() == old(self).states().take(final(self).lines().len() as int),
    {
        let n = self.entries.len();
        let mut i: usize = 0;
        while i < n && self.entries[i].0 < lineno
            invariant
                n == self.entries@.len(),
                *self == *old(self),
                old(self).wf(),
                i <= n,
                forall|j: int| 0 <= j < i ==> self.lines()[j] < lineno,
            decreases n - i,
        {
            proof {
                assert(self.lines()[i as int] == self.entries@[i as int].0);
            }
            i = i + 1;
        }
        let ghost old_lines = self.lines();
        self.entries.truncate(i);
        proof {
            assert(self.lines() =~= old_lines.take(i as int));
            assert(self.states() =~= old(self).states().take(i as int));
            assert forall|l: usize| #[trigger] self.lines().contains(l) <==> (old_lines.contains(l) && l < lineno) by {
                if old_lines.contains(l) && l < lineno {
                    let k = old_lines.index_of(l);
                    if k >= i {
                        assert(old_lines[i as int] >= lineno);
                        if k > i {
                            assert(old_lines[i as int] < old_lines[k]);
                        }
                    }
                    assert(self.lines()[k] == l);
                }
            }
        }
    }

    /// The index of the state kept for the last line at or before `target`,
    /// if there is one.
    pub fn last_at_or_before(&self, target: usize) -> (r: Option<usize>)
        requires
            self.wf(),
        ensures
            r matches Some(i) ==> i < self.lines().len() && self.lines()[i as int] <= target && (i + 1
                < self.lines().len() ==> self.lines()[i + 1] > target),
            r is None ==> forall|j: int| 0 <= j < self.lines().len() ==> self.lines()[j] > target,
    {
        let n = self.entries.len();
        let mut i: usize = 0;
        while i < n && self.entries[i].0 <= target
            invariant
                n == self.entries@.len(),
                self.wf(),
                i <= n,
                forall|j: int| 0 <= j < i ==> self.lines()[j] <= target,
            decreases n - i,
        {
            proof {
                assert(self.lines()[i as int] == self.entries@[i as int].0);
            }
            i = i + 1;
        }
        proof {
            if i < n {
                assert(self.lines()[i as int] == self.entries@[i as int].0);
                assert forall|j: int| i <= j < n implies self.lines()[j] > target by {
                    if j > i {
                        assert(self.lines()[i as int] < self.lines()[j]);
                    }
                }
            }
        }
        if i == 0 {
            None
        } else {
            Some(i - 1)
        }
    }

    /// Where highlighting resumes to reach line `target` from line
    /// `current`: nowhere when it is there; else from the last state kept at
    /// or before the target; else from the start when it is past the target;
    /// else from where it is.
    pub fn resume_point(&self, current: usize, target: usize) -> (r: ResumePoint)
        requires
            self.wf(),
        ensures
            current == target ==> r == ResumePoint::AlreadyThere,
            current != target ==> match r {
                ResumePoint::FromCache(i) => i < self.lines().len() && self.lines()[i as int] <= target && (i
                    + 1 < self.lines().len() ==> self.lines()[i + 1] > target),
                ResumePoint::FromStart => current > target && forall|j: int|
                    0 <= j < self.lines().len() ==> self.lines()[j] > target,
                ResumePoint::FromCurrent => current < target && forall|j: int|
                    0 <= j < self.lines().len() ==> self.lines()[j] > target,
                ResumePoint::AlreadyThere => false,
            },
    {
        if current == target {
            return ResumePoint::AlreadyThere;
        }
        match self.last_at_or_before(target) {
            Some(i) => ResumePoint::FromCache(i),
            None => if current > target {
                ResumePoint::FromStart
            } else {
                ResumePoint::FromCurrent
            },
        }
    }
}

} // verus!
