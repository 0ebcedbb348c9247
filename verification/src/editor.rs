//! The editor: its panes, the queue of actions, the clipboard and the
//! messages, and what each action and command does to them. What needs the
//! terminal, the file system or other programs comes back as effects for the
//! caller to carry out.
use crate::actions::{Action, KeyCode, PaneAction};
use crate::cli::FilePathWithOptionalLocation;
use crate::clipboard::{joined_lines, InternalClipboard};
use crate::completer::{pair_views, table_of, Completer};
use crate::commands::{command_spec, interpret_command, CommandOutcome, OutcomeView};
use crate::numbers::{decimal, push_decimal};
use crate::linter::Lint;
use crate::pane::{
    cut_done, escaped, fresh_pane, handled, lints_received, pasted, selection_texts, string_views, transform_done, Pane,
};
use crate::settings::{set_spec, SetOutcome, SetView};
use crate::strings::push_str;
use std::collections::VecDeque;
use vstd::prelude::*;

verus! {

/// Whether the command prompt is open.
#[derive(Debug, Clone, Copy, PartialEq, Eq, Structural)]
pub enum AppState {
    Idle,
    InPrompt,
}

/// What the caller of the editor is to do after an action.
#[derive(Debug)]
pub enum AppEffect {
    /// Open the command prompt, with this text already typed.
    Prompt(Option<String>),
    /// The highlighting of the current pane is out of date from this line on.
    Restyle(usize),
    /// Put this text on the system clipboard.
    ToClipboard(String),
    /// Save the current pane to its file.
    Save,
    /// Save the current pane to this path.
    SaveAs(String),
    /// Open this file in the current pane, once any unsaved changes there are
    /// dealt with.
    Open(FilePathWithOptionalLocation),
    /// Ask whether to save the current pane before closing it; then close it
    /// with `close_current_pane`, unless the user backs out.
    ConfirmClose,
    /// Pipe the selections, or nothing, through this shell command.
    PipeThroughShell(String),
    /// Run the current file.
    Exec,
    /// Lint the current file.
    Lint,
    /// Open the file that this argument names (`FILE[:LINE[:COLUMN]]`).
    OpenArgument(String),
    /// Highlight the current pane as the file type named second; the first
    /// is the setting as it was written, for the message if there is no such
    /// file type.
    SetFiletype(String, String),
    /// Save to this path once a leading `~` is expanded.
    SaveAsExpanded(String),
}

/// The editor.
pub struct App {
    pub panes: Vec<Pane>,
    pub current_pane_index: usize,
    pub state: AppState,
    pub action_queue: VecDeque<Action>,
    pub clipboard: InternalClipboard,
    pub info: Option<String>,
    /// The table of completions that new panes start with: word, completion.
    pub completions: Vec<(String, String)>,
}

impl App {
    /// Every pane is consistent, and the current index points at a pane
    /// whenever there is one.
    pub open spec fn wf(&self) -> bool {
        &&& self.panes@.len() > 0 ==> self.current_pane_index < self.panes@.len()
        &&& forall|i: int| 0 <= i < self.panes@.len() ==> (#[trigger] self.panes@[i]).wf()
    }

    /// The current pane.
    pub open spec fn spec_current(&self) -> Pane {
        self.panes@[self.current_pane_index as int]
    }

    /// An editor without panes, idle, with nothing queued.
    pub fn new() -> (a: App)
        ensures
            a.wf(),
            a.panes@.len() == 0,
            a.current_pane_index == 0,
            a.state == AppState::Idle,
            a.action_queue@.len() == 0,
            a.clipboard.spec_clips().len() == 0,
            a.info is None,
            a.completions@.len() == 0,
    {
        App {
            panes: Vec::new(),
            current_pane_index: 0,
            state: AppState::Idle,
            action_queue: VecDeque::new(),
            clipboard: InternalClipboard::new(),
            info: None,
            completions: Vec::new(),
        }
    }

    /// Adds a pane and makes it the current one.
    pub fn switch_to_new_pane(&mut self, pane: Pane)
        requires
            old(self).wf(),
            pane.wf(),
        ensures
            final(self).wf(),
            final(self).panes@ == old(self).panes@.push(pane),
            final(self).current_pane_index == old(self).panes@.len(),
            final(self).info == old(self).info,
            final(self).state == old(self).state,
            keeps_setup(*old(self), *final(self)),
    {
        self.panes.push(pane);
        self.current_pane_index = self.panes.len() - 1;
        proof {
            assert forall|i: int| 0 <= i < self.panes@.len() implies (#[trigger] self.panes@[i]).wf() by {
                if i < old(self).panes@.len() {
                    assert(old(self).panes@[i].wf());
                }
            }
        }
    }

    /// Puts `pane` in place of the current one.
    pub fn replace_current_pane(&mut self, pane: Pane)
        requires
            old(self).wf(),
            old(self).panes@.len() > 0,
            pane.wf(),
        ensures
            final(self).wf(),
            final(self).panes@ == old(self).panes@.update(old(self).current_pane_index as int, pane),
            final(self).current_pane_index == old(self).current_pane_index,
            final(self).info == old(self).info,
            keeps_setup(*old(self), *final(self)),
    {
        let i = self.current_pane_index;
        self.panes.set(i, pane);
        proof {
            assert forall|j: int| 0 <= j < self.panes@.len() implies (#[trigger] self.panes@[j]).wf() by {
                if j != i {
                    assert(old(self).panes@[j].wf());
                }
            }
        }
    }

    /// The message to show: the current pane's, else the editor's.
    pub fn status_msg(&self) -> (m: Option<&str>)
        requires
            self.wf(),
            self.panes@.len() > 0,
        ensures
            self.spec_current().info matches Some(i) ==> m matches Some(s) && s@ == i@,
            self.spec_current().info is None ==> match self.info {
                Some(i) => m matches Some(s) && s@ == i@,
                None => m is None,
            },
    {
        match self.panes[self.current_pane_index].status_msg() {
            Some(msg) => Some(msg),
            None => match &self.info {
                Some(msg) => Some(msg.as_str()),
                None => None,
            },
        }
    }

    /// Forgets every message, the editor's and the panes'.
    pub fn clear_status_msg(&mut self)
        requires
            old(self).wf(),
        ensures
            final(self).wf(),
            final(self).info is None,
            final(self).panes@.len() == old(self).panes@.len(),
            forall|i: int|
                0 <= i < old(self).panes@.len() ==> #[trigger] final(self).panes@[i] == (Pane {
                    info: None,
                    ..old(self).panes@[i]
                }),
            final(self).current_pane_index == old(self).current_pane_index,
            final(self).state == old(self).state,
            final(self).action_queue@ == old(self).action_queue@,
            final(self).clipboard == old(self).clipboard,
    {
        self.info = None;
        let n = self.panes.len();
        let mut i: usize = 0;
        while i < n
            invariant
                n == self.panes@.len(),
                n == old(self).panes@.len(),
                i <= n,
                self.info is None,
                self.current_pane_index == old(self).current_pane_index,
                self.state == old(self).state,
                self.action_queue@ == old(self).action_queue@,
                self.clipboard == old(self).clipboard,
                old(self).wf(),
                forall|j: int| 0 <= j < i ==> #[trigger] self.panes@[j] == (Pane { info: None, ..old(self).panes@[j] }),
                forall|j: int| i <= j < n ==> #[trigger] self.panes@[j] == old(self).panes@[j],
            decreases n - i,
        {
            let mut pane = self.panes.remove(i);
            pane.clear_status_msg();
            self.panes.insert(i, pane);
            i = i + 1;
        }
        proof {
            assert forall|j: int| 0 <= j < self.panes@.len() implies (#[trigger] self.panes@[j]).wf() by {
                assert(old(self).panes@[j].wf());
            }
        }
    }

    /// Shows a message of the editor.
    pub fn inform(&mut self, msg: String)
        ensures
            *final(self) == (App { info: Some(msg), ..*old(self) }),
    {
        self.info = Some(msg);
    }

    /// Queues an action.
    pub fn enqueue(&mut self, action: Action)
        ensures
            final(self).action_queue@ == old(self).action_queue@.push(action),
            final(self).panes == old(self).panes,
            final(self).current_pane_index == old(self).current_pane_index,
            final(self).info == old(self).info,
            final(self).state == old(self).state,
            final(self).clipboard == old(self).clipboard,
    {
        self.action_queue.push_back(action);
    }

    /// Takes the next queued action, if any.
    pub fn next_action(&mut self) -> (a: Option<Action>)
        ensures
            old(self).action_queue@.len() == 0 ==> a is None && final(self).action_queue@.len() == 0,
            old(self).action_queue@.len() > 0 ==> a == Some(old(self).action_queue@[0])
                && final(self).action_queue@ == old(self).action_queue@.drop_first(),
            final(self).panes == old(self).panes,
            final(self).current_pane_index == old(self).current_pane_index,
            final(self).info == old(self).info,
            final(self).state == old(self).state,
            final(self).clipboard == old(self).clipboard,
    {
        self.action_queue.pop_front()
    }

    /// Carries out a pane action on the current pane.
    fn on_current_pane(&mut self, pa: PaneAction) -> (r: Option<usize>)
        requires
            old(self).wf(),
            old(self).panes@.len() > 0,
            pa matches PaneAction::ScrollDown(n) ==> old(self).spec_current().viewport_position_row + n <= usize::MAX,
        ensures
            final(self).wf(),
            final(self).panes@.len() == old(self).panes@.len(),
            final(self).current_pane_index == old(self).current_pane_index,
            handled(old(self).spec_current(), pa, final(self).spec_current(), r),
            forall|j: int|
                0 <= j < old(self).panes@.len() && j != old(self).current_pane_index ==> #[trigger] final(self).panes@[j]
                    == old(self).panes@[j],
            final(self).info == old(self).info,
            final(self).state == old(self).state,
            final(self).action_queue@ == old(self).action_queue@,
            final(self).clipboard == old(self).clipboard,
            final(self).completions == old(self).completions,
    {
        let i = self.current_pane_index;
        let mut pane = self.panes.remove(i);
        proof {
            assert(old(self).panes@[i as int].wf());
        }
        let r = pane.handle_event(pa);
        self.panes.insert(i, pane);
        proof {
            assert forall|j: int| 0 <= j < self.panes@.len() implies (#[trigger] self.panes@[j]).wf() by {
                if j != i {
                    assert(old(self).panes@[j].wf());
                }
            }
        }
        r
    }

    /// Closes the current pane; the one before it becomes current.
    pub fn close_current_pane(&mut self)
        requires
            old(self).wf(),
            old(self).panes@.len() > 1,
        ensures
            final(self).wf(),
            final(self).panes@ == old(self).panes@.remove(old(self).current_pane_index as int),
            final(self).current_pane_index == if old(self).current_pane_index > 0 {
                old(self).current_pane_index - 1
            } else {
                0
            },
            final(self).info == old(self).info,
            keeps_setup(*old(self), *final(self)),
    {
        let i = self.current_pane_index;
        self.panes.remove(i);
        self.current_pane_index = i.saturating_sub(1);
        proof {
            assert forall|j: int| 0 <= j < self.panes@.len() implies (#[trigger] self.panes@[j]).wf() by {
                if j < i {
                    assert(old(self).panes@[j].wf());
                } else {
                    assert(old(self).panes@[j + 1].wf());
                }
            }
        }
    }

    /// Informs the current pane.
    fn inform_current_pane(&mut self, msg: String)
        requires
            old(self).wf(),
            old(self).panes@.len() > 0,
        ensures
            final(self).wf(),
            final(self).panes@ == old(self).panes@.update(
                old(self).current_pane_index as int,
                Pane { info: Some(msg), ..old(self).spec_current() },
            ),
            final(self).current_pane_index == old(self).current_pane_index,
            final(self).info == old(self).info,
            keeps_setup(*old(self), *final(self)),
    {
        let i = self.current_pane_index;
        let mut pane = self.panes.remove(i);
        pane.inform(msg);
        self.panes.insert(i, pane);
        proof {
            assert(old(self).panes@[i as int].wf());
            assert(self.panes@ =~= old(self).panes@.update(i as int, Pane { info: Some(msg), ..old(self).spec_current() }));
            assert forall|j: int| 0 <= j < self.panes@.len() implies (#[trigger] self.panes@[j]).wf() by {
                if j != i {
                    assert(old(self).panes@[j].wf());
                }
            }
        }
    }

    /// Changes a setting of the current pane: see `set_spec`. A refusal
    /// becomes the editor's message; a file type comes back as an effect.
    pub fn set(&mut self, setting: &str, new_value: &str) -> (effects: Vec<AppEffect>)
        requires
            old(self).wf(),
            old(self).panes@.len() > 0,
        ensures
            final(self).wf(),
            final(self).current_pane_index == old(self).current_pane_index,
            final(self).action_queue@ == old(self).action_queue@,
            final(self).state == old(self).state,
            final(self).clipboard == old(self).clipboard,
            set_done(
                old(self).panes@,
                old(self).current_pane_index as int,
                old(self).info,
                setting@,
                new_value@,
                *final(self),
                effects@,
            ),
    {
        let i = self.current_pane_index;
        let mut pane = self.panes.remove(i);
        proof {
            assert(old(self).panes@[i as int].wf());
        }
        let outcome = pane.settings.set(setting, new_value);
        let ghost changed = pane;
        self.panes.insert(i, pane);
        proof {
            assert(self.panes@ =~= old(self).panes@.update(i as int, changed));
        }
        proof {
            assert forall|j: int| 0 <= j < self.panes@.len() implies (#[trigger] self.panes@[j]).wf() by {
                if j != i {
                    assert(old(self).panes@[j].wf());
                }
            }
        }
        let mut effects: Vec<AppEffect> = Vec::new();
        match outcome {
            SetOutcome::Applied => {},
            SetOutcome::Failed(msg) => self.inform(msg),
            SetOutcome::SetFiletype(name) => effects.push(
                AppEffect::SetFiletype(crate::strings::to_owned_string(setting), name),
            ),
        }
        effects
    }

    /// Carries out a command line: see `command_spec`. Messages are cleared
    /// first; linting is refused while the current pane has unsaved changes.
    pub fn handle_command(&mut self, s: &str) -> (effects: Vec<AppEffect>)
        requires
            old(self).wf(),
            old(self).panes@.len() > 0,
        ensures
            final(self).wf(),
            command_done(*old(self), command_spec(s@), *final(self), effects@),
    {
        self.clear_status_msg();
        let ghost ps = cleared_panes(old(self).panes@);
        proof {
            assert(self.panes@ =~= ps);
        }
        let outcome = interpret_command(s);
        let mut effects: Vec<AppEffect> = Vec::new();
        match outcome {
            CommandOutcome::PipeThroughShell(c) => effects.push(AppEffect::PipeThroughShell(c)),
            CommandOutcome::Enqueue(a) => {
                let ghost q = self.action_queue@;
                self.enqueue(a);
                proof {
                    assert(self.action_queue@.drop_last() =~= q);
                }
            },
            CommandOutcome::Inform(m) => self.inform(m),
            CommandOutcome::Transform(t) => {
                let i = self.current_pane_index;
                let mut pane = self.panes.remove(i);
                proof {
                    assert(self.panes@.len() + 1 == old(self).panes@.len());
                }
                let line = pane.transform_selections(t);
                self.panes.insert(i, pane);
                proof {
                    assert(self.panes@ =~= ps.update(i as int, pane));
                }
                if let Some(l) = line {
                    effects.push(AppEffect::Restyle(l));
                }
            },
            CommandOutcome::Exec => effects.push(AppEffect::Exec),
            CommandOutcome::Lint => {
                if self.panes[self.current_pane_index].modified {
                    self.inform(String::from_str("lint error: save your changes before linting"));
                } else {
                    let i = self.current_pane_index;
                    let mut pane = self.panes.remove(i);
                    pane.lints = Vec::new();
                    self.panes.insert(i, pane);
                    proof {
                        assert(self.panes@ =~= ps.update(i as int, pane));
                    }
                    proof {
                        assert forall|j: int| 0 <= j < self.panes@.len() implies (#[trigger] self.panes@[j]).wf() by {
                            assert(old(self).panes@[j].wf());
                        }
                    }
                    effects.push(AppEffect::Lint);
                }
            },
            CommandOutcome::Open(arg) => effects.push(AppEffect::OpenArgument(arg)),
            CommandOutcome::SetOption(k, v) => {
                effects = self.set(k.as_str(), v.as_str());
            },
            CommandOutcome::SaveAs(p) => effects.push(AppEffect::SaveAsExpanded(p)),
        }
        effects
    }
}

/// `new` keeps the state, the queue, the clipboard and the table of
/// completions of `old`.
pub open spec fn keeps_setup(old: App, new: App) -> bool {
    &&& new.completions == old.completions
    &&& new.state == old.state
    &&& new.action_queue@ == old.action_queue@
    &&& new.clipboard == old.clipboard
}

/// `new` is `old` with its current pane replaced by `p`: the current index,
/// the message, the state, the queue and the clipboard stay.
pub open spec fn current_replaced(old: App, p: Pane, new: App) -> bool {
    &&& new.panes@ == old.panes@.update(old.current_pane_index as int, p)
    &&& new.current_pane_index == old.current_pane_index
    &&& new.info == old.info
    &&& keeps_setup(old, new)
}

/// The panes `ps` with their messages cleared.
pub open spec fn cleared_panes(ps: Seq<Pane>) -> Seq<Pane> {
    Seq::new(ps.len(), |i: int| Pane { info: None, ..ps[i] })
}

/// `new` is the editor once the setting `k` of pane `i` of `ps` is set to
/// `v` (see `set_spec`), the editor's message having been `info`: a refusal
/// becomes the message, and a file type comes back as an effect.
pub open spec fn set_done(
    ps: Seq<Pane>,
    i: int,
    info: Option<String>,
    k: Seq<char>,
    v: Seq<char>,
    new: App,
    effects: Seq<AppEffect>,
) -> bool {
    let (settings, outcome) = set_spec(ps[i].settings, k, v);
    &&& new.panes@ == ps.update(i, Pane { settings, ..ps[i] })
    &&& match outcome {
        SetView::Applied => effects.len() == 0 && new.info == info,
        SetView::Failed(m) => {
            &&& effects.len() == 0
            &&& new.info matches Some(x) && x@ == m
        },
        SetView::SetFiletype(name) => {
            &&& effects.len() == 1
            &&& new.info == info
            &&& effects[0] matches AppEffect::SetFiletype(kk, n) && kk@ == k && n@ == name
        },
    }
}

/// What carrying out the command `o` does to the editor `old`, and what it
/// leaves to the caller. Every message is cleared first; the current index,
/// the state and the clipboard stay, and so does the queue unless an action
/// is queued.
pub open spec fn command_done(old: App, o: OutcomeView, new: App, effects: Seq<AppEffect>) -> bool {
    let ps = cleared_panes(old.panes@);
    let i = old.current_pane_index as int;
    let same_queue = new.action_queue@ == old.action_queue@;
    &&& new.current_pane_index == old.current_pane_index
    &&& new.state == old.state
    &&& new.clipboard == old.clipboard
    &&& match o {
        OutcomeView::PipeThroughShell(c) => {
            &&& new.panes@ == ps && new.info is None && same_queue
            &&& effects.len() == 1
            &&& effects[0] matches AppEffect::PipeThroughShell(x) && x@ == c
        },
        OutcomeView::Enqueue(a) => {
            &&& new.panes@ == ps && new.info is None
            &&& new.action_queue@.len() == old.action_queue@.len() + 1
            &&& new.action_queue@.drop_last() == old.action_queue@
            &&& new.action_queue@.last().view() == a
            &&& effects.len() == 0
        },
        OutcomeView::Inform(m) => {
            &&& new.panes@ == ps && same_queue
            &&& effects.len() == 0
            &&& new.info matches Some(x) && x@ == m
        },
        OutcomeView::Transform(t) => {
            &&& new.panes@ == ps.update(i, new.spec_current())
            &&& transform_done(ps[i], t, new.spec_current(), restyle_line(effects))
            &&& new.info is None && same_queue
            &&& effects.len() <= 1
            &&& (effects.len() == 1 ==> effects[0] is Restyle)
        },
        OutcomeView::Exec => {
            &&& new.panes@ == ps && new.info is None && same_queue
            &&& effects.len() == 1
            &&& effects[0] is Exec
        },
        OutcomeView::Lint => if old.spec_current().modified {
            &&& new.panes@ == ps && same_queue
            &&& effects.len() == 0
            &&& new.info matches Some(x) && x@ == "lint error: save your changes before linting"@
        } else {
            &&& new.panes@ == ps.update(i, Pane { lints: new.spec_current().lints, ..ps[i] })
            &&& new.spec_current().lints@.len() == 0
            &&& new.info is None && same_queue
            &&& effects.len() == 1
            &&& effects[0] is Lint
        },
        OutcomeView::Open(a) => {
            &&& new.panes@ == ps && new.info is None && same_queue
            &&& effects.len() == 1
            &&& effects[0] matches AppEffect::OpenArgument(x) && x@ == a
        },
        OutcomeView::SetOption(k, v) => set_done(ps, i, None, k, v, new, effects) && same_queue,
        OutcomeView::SaveAs(p) => {
            &&& new.panes@ == ps && new.info is None && same_queue
            &&& effects.len() == 1
            &&& effects[0] matches AppEffect::SaveAsExpanded(x) && x@ == p
        },
    }
}

impl App {
    /// Esc on the current pane; the editor's message goes too.
    fn esc_current(&mut self)
        requires
            old(self).wf(),
            old(self).panes@.len() > 0,
        ensures
            final(self).wf(),
            current_replaced(App { info: None, ..*old(self) }, final(self).spec_current(), *final(self)),
            escaped(old(self).spec_current(), final(self).spec_current()),
    {
        let i = self.current_pane_index;
        let mut pane = self.panes.remove(i);
        proof {
            assert(old(self).panes@[i as int].wf());
        }
        pane.esc();
        self.panes.insert(i, pane);
        self.info = None;
        proof {
            assert(self.panes@ =~= old(self).panes@.update(i as int, pane));
            assert forall|j: int| 0 <= j < self.panes@.len() implies (#[trigger] self.panes@[j]).wf() by {
                if j != i {
                    assert(old(self).panes@[j].wf());
                }
            }
        }
    }

    /// Cuts the selections of the current pane to the clipboard.
    fn cut_current(&mut self) -> (effects: Vec<AppEffect>)
        requires
            old(self).wf(),
            old(self).panes@.len() > 0,
        ensures
            final(self).wf(),
            ({
                let clips = selection_texts(
                    old(self).spec_current().content@,
                    old(self).spec_current().cursors.cursors@,
                    old(self).spec_current().cursors.cursors@.len() as int,
                );
                &&& final(self).clipboard.spec_clips() == clips
                &&& current_replaced(App { clipboard: final(self).clipboard, ..*old(self) }, final(self).spec_current(), *final(self))
                &&& cut_done(old(self).spec_current(), final(self).spec_current(), clips, restyle_line(effects@.drop_first()))
                &&& 1 <= effects@.len() <= 2
                &&& effects@[0] matches AppEffect::ToClipboard(t) && t@ == joined_lines(clips, clips.len() as int)
                &&& (effects@.len() == 2 ==> effects@[1] is Restyle)
            }),
    {
        let mut effects: Vec<AppEffect> = Vec::new();
        let i = self.current_pane_index;
        let mut pane = self.panes.remove(i);
        proof {
            assert(old(self).panes@[i as int].wf());
        }
        let (clips, line) = pane.cut();
        self.panes.insert(i, pane);
        proof {
            assert(self.panes@ =~= old(self).panes@.update(i as int, pane));
            assert forall|j: int| 0 <= j < self.panes@.len() implies (#[trigger] self.panes@[j]).wf() by {
                if j != i {
                    assert(old(self).panes@[j].wf());
                }
            }
        }
        let ghost cv = clips@;
        let text = self.clipboard.copy(clips);
        proof {
            assert(cv.map_values(|s: String| s@) =~= string_views(cv));
        }
        effects.push(AppEffect::ToClipboard(text));
        if let Some(l) = line {
            effects.push(AppEffect::Restyle(l));
        }
        proof {
            assert(effects@.drop_first().len() == effects@.len() - 1);
            if effects@.len() == 2 {
                assert(effects@.drop_first()[0] == effects@[1]);
            }
        }
        effects
    }

    /// Pastes the clipboard into the current pane.
    fn paste_current(&mut self) -> (effects: Vec<AppEffect>)
        requires
            old(self).wf(),
            old(self).panes@.len() > 0,
        ensures
            final(self).wf(),
            current_replaced(*old(self), final(self).spec_current(), *final(self)),
            pasted(old(self).spec_current(), old(self).clipboard.spec_clips(), final(self).spec_current(), restyle_line(effects@)),
            effects@.len() <= 1,
            effects@.len() == 1 ==> effects@[0] is Restyle,
    {
        let mut effects: Vec<AppEffect> = Vec::new();
        let clips = copy_strings(self.clipboard.content());
        proof {
            assert(string_views(clips@) =~= self.clipboard.spec_clips());
        }
        let i = self.current_pane_index;
        let mut pane = self.panes.remove(i);
        proof {
            assert(old(self).panes@[i as int].wf());
        }
        let line = pane.insert_from_clipboard(clips.as_slice());
        self.panes.insert(i, pane);
        proof {
            assert(self.panes@ =~= old(self).panes@.update(i as int, pane));
            assert forall|j: int| 0 <= j < self.panes@.len() implies (#[trigger] self.panes@[j]).wf() by {
                if j != i {
                    assert(old(self).panes@[j].wf());
                }
            }
        }
        if let Some(l) = line {
            effects.push(AppEffect::Restyle(l));
        }
        effects
    }

    /// Carries out an action: see `action_done`. While the command prompt is
    /// open nothing happens.
    #[verifier::rlimit(50)]
    pub fn handle_action(&mut self, action: Action) -> (effects: Vec<AppEffect>)
        requires
            old(self).wf(),
            old(self).panes@.len() > 0 || needs_no_pane(action),
            action matches Action::HandledByPane(PaneAction::ScrollDown(n))
                ==> old(self).spec_current().viewport_position_row + n <= usize::MAX,
            action matches Action::GoToPane(i) ==> i < usize::MAX,
        ensures
            final(self).wf(),
            old(self).panes@.len() > 0 ==> final(self).panes@.len() > 0,
            action_done(*old(self), action, *final(self), effects@),
    {
        if self.state == AppState::InPrompt {
            return Vec::new();
        }
        let mut effects: Vec<AppEffect> = Vec::new();
        match action {
            Action::Nothing => {},
            Action::Quit => {},
            Action::Resize(_, _) => {},
            Action::Esc => self.esc_current(),
            Action::Command(cmd) => {
                effects = self.handle_command(cmd.as_str());
            },
            Action::CommandPrompt => {
                self.info = None;
                effects.push(AppEffect::Prompt(None));
            },
            Action::CommandPromptEdit(stub) => {
                self.info = None;
                effects.push(AppEffect::Prompt(Some(stub)));
            },
            Action::SetInfo(s) => self.inform(s),
            Action::HandledByPane(pa) => {
                if let Some(line) = self.on_current_pane(pa) {
                    effects.push(AppEffect::Restyle(line));
                }
                proof {
                    assert(self.panes@ =~= old(self).panes@.update(
                        old(self).current_pane_index as int,
                        self.spec_current(),
                    ));
                }
            },
            Action::Copy => {
                proof {
                    assert(old(self).panes@[old(self).current_pane_index as int].wf());
                }
                let clips = self.panes[self.current_pane_index].selections();
                let ghost cv = clips@;
                let text = self.clipboard.copy(clips);
                proof {
                    assert(cv.map_values(|s: String| s@) =~= string_views(cv));
                }
                effects.push(AppEffect::ToClipboard(text));
            },
            Action::Cut => {
                effects = self.cut_current();
            },
            Action::Paste => {
                effects = self.paste_current();
            },
            Action::Save => effects.push(AppEffect::Save),
            Action::SaveAs(path) => effects.push(AppEffect::SaveAs(path)),
            Action::Open(loc) => effects.push(AppEffect::Open(loc)),
            Action::NewPane => {
                let mut pane = Pane::empty();
                pane.completer = Completer::from_pairs(&self.completions);
                self.switch_to_new_pane(pane);
            },
            Action::ClosePane => {
                if self.panes.len() > 1 {
                    let needs_confirmation = self.panes[self.current_pane_index].modified
                        && self.panes[self.current_pane_index].path.is_some();
                    if needs_confirmation {
                        effects.push(AppEffect::ConfirmClose);
                    } else {
                        self.close_current_pane();
                    }
                } else {
                    self.inform_current_pane(String::from_str("the last pane can not be closed"));
                }
            },
            Action::GoToPane(idx) => {
                if idx < self.panes.len() {
                    self.current_pane_index = idx;
                } else {
                    let mut m = String::new();
                    push_str(&mut m, "there is no pane ");
                    push_decimal(&mut m, idx + 1);
                    self.inform(m);
                }
            },
            Action::NextPane => {
                if self.current_pane_index < self.panes.len() - 1 {
                    self.current_pane_index = self.current_pane_index + 1;
                }
            },
            Action::PreviousPane => {
                if self.current_pane_index > 0 {
                    self.current_pane_index = self.current_pane_index - 1;
                }
            },
        }
        effects
    }
}

/// A copy of the strings.
fn copy_strings(v: &[String]) -> (r: Vec<String>)
    ensures
        r@.len() == v@.len(),
        forall|i: int| 0 <= i < v@.len() ==> #[trigger] r@[i]@ == v@[i]@,
{
    let mut r: Vec<String> = Vec::new();
    let mut i: usize = 0;
    while i < v.len()
        invariant
            i <= v@.len(),
            r@.len() == i,
            forall|j: int| 0 <= j < i ==> #[trigger] r@[j]@ == v@[j]@,
        decreases v@.len() - i,
    {
        r.push(crate::strings::to_owned_string(v[i].as_str()));
        i = i + 1;
    }
    r
}

/// The actions that an editor without panes can carry out: they do not
/// touch the current pane.
pub open spec fn needs_no_pane(a: Action) -> bool {
    a is Nothing || a is Quit || a is Resize || a is NewPane
}

/// The line from which `effects` ask for the highlighting to be redone, if
/// they do.
pub open spec fn restyle_line(effects: Seq<AppEffect>) -> Option<usize> {
    if effects.len() > 0 && effects[0] is Restyle {
        Some(effects[0]->Restyle_0)
    } else {
        None
    }
}

/// What an action does to the editor, and what it leaves to the caller.
pub open spec fn action_done(old: App, a: Action, new: App, effects: Seq<AppEffect>) -> bool {
    if old.state == AppState::InPrompt {
        new == old && effects.len() == 0
    } else {
        match a {
            Action::Nothing => new == old && effects.len() == 0,
            Action::Quit => new == old && effects.len() == 0,
            Action::Resize(_, _) => new == old && effects.len() == 0,
            Action::Esc => {
                &&& current_replaced(App { info: None, ..old }, new.spec_current(), new)
                &&& escaped(old.spec_current(), new.spec_current())
                &&& effects.len() == 0
            },
            Action::Command(c) => command_done(old, command_spec(c@), new, effects),
            Action::CommandPrompt => {
                &&& new == (App { info: None, ..old })
                &&& effects.len() == 1
                &&& effects[0] matches AppEffect::Prompt(p) && p is None
            },
            Action::CommandPromptEdit(stub) => {
                &&& new == (App { info: None, ..old })
                &&& effects.len() == 1
                &&& effects[0] matches AppEffect::Prompt(p) && p matches Some(x) && x@ == stub@
            },
            Action::SetInfo(s) => new == (App { info: Some(s), ..old }) && effects.len() == 0,
            Action::HandledByPane(pa) => {
                &&& handled(old.spec_current(), pa, new.spec_current(), restyle_line(effects))
                &&& current_replaced(old, new.spec_current(), new)
                &&& effects.len() <= 1
                &&& (effects.len() == 1 ==> effects[0] is Restyle)
            },
            Action::Copy => {
                let clips = selection_texts(
                    old.spec_current().content@,
                    old.spec_current().cursors.cursors@,
                    old.spec_current().cursors.cursors@.len() as int,
                );
                &&& new.clipboard.spec_clips() == clips
                &&& new == (App { clipboard: new.clipboard, ..old })
                &&& effects.len() == 1
                &&& effects[0] matches AppEffect::ToClipboard(t) && t@ == joined_lines(clips, clips.len() as int)
            },
            Action::Cut => {
                let clips = selection_texts(
                    old.spec_current().content@,
                    old.spec_current().cursors.cursors@,
                    old.spec_current().cursors.cursors@.len() as int,
                );
                &&& new.clipboard.spec_clips() == clips
                &&& current_replaced(App { clipboard: new.clipboard, ..old }, new.spec_current(), new)
                &&& cut_done(old.spec_current(), new.spec_current(), clips, restyle_line(effects.drop_first()))
                &&& 1 <= effects.len() <= 2
                &&& effects[0] matches AppEffect::ToClipboard(t) && t@ == joined_lines(clips, clips.len() as int)
                &&& (effects.len() == 2 ==> effects[1] is Restyle)
            },
            Action::Paste => {
                &&& current_replaced(old, new.spec_current(), new)
                &&& pasted(old.spec_current(), old.clipboard.spec_clips(), new.spec_current(), restyle_line(effects))
                &&& effects.len() <= 1
                &&& (effects.len() == 1 ==> effects[0] is Restyle)
            },
            Action::Save => new == old && effects.len() == 1 && effects[0] is Save,
            Action::SaveAs(p) => {
                &&& new == old
                &&& effects.len() == 1
                &&& effects[0] matches AppEffect::SaveAs(x) && x@ == p@
            },
            Action::Open(_) => new == old && effects.len() == 1 && effects[0] is Open,
            Action::NewPane => {
                &&& new.panes@ == old.panes@.push(new.panes@.last())
                &&& fresh_pane(new.panes@.last())
                &&& new.panes@.last().completer.entries() == table_of(pair_views(old.completions@))
                &&& new.current_pane_index == old.panes@.len()
                &&& new.info == old.info
                &&& keeps_setup(old, new)
                &&& effects.len() == 0
            },
            Action::ClosePane => if old.panes@.len() <= 1 {
                &&& current_replaced(old, Pane { info: new.spec_current().info, ..old.spec_current() }, new)
                &&& new.spec_current().info matches Some(i) && i@ == "the last pane can not be closed"@
                &&& effects.len() == 0
            } else if old.spec_current().modified && old.spec_current().path is Some {
                new == old && effects.len() == 1 && effects[0] is ConfirmClose
            } else {
                &&& new.panes@ == old.panes@.remove(old.current_pane_index as int)
                &&& new.current_pane_index == if old.current_pane_index > 0 {
                    old.current_pane_index - 1
                } else {
                    0
                }
                &&& new.info == old.info
                &&& keeps_setup(old, new)
                &&& effects.len() == 0
            },
            Action::GoToPane(i) => if i < old.panes@.len() {
                new == (App { current_pane_index: i, ..old }) && effects.len() == 0
            } else {
                &&& effects.len() == 0
                &&& new == (App { info: new.info, ..old })
                &&& new.info matches Some(m) && m@ == "there is no pane "@ + decimal((i + 1) as nat)
            },
            Action::NextPane => {
                &&& new == (App {
                    current_pane_index: if old.current_pane_index + 1 < old.panes@.len() {
                        (old.current_pane_index + 1) as usize
                    } else {
                        old.current_pane_index
                    },
                    ..old
                })
                &&& effects.len() == 0
            },
            Action::PreviousPane => {
                &&& new == (App {
                    current_pane_index: if old.current_pane_index > 0 {
                        (old.current_pane_index - 1) as usize
                    } else {
                        old.current_pane_index
                    },
                    ..old
                })
                &&& effects.len() == 0
            },
        }
    }
}

/// The lints of `ls` about the file `f`, in order.
pub open spec fn lints_about(ls: Seq<Lint>, f: Seq<char>) -> Seq<Lint>
    decreases ls.len(),
{
    if ls.len() == 0 {
        Seq::empty()
    } else if ls.last().spec_fields().0 == f {
        lints_about(ls.drop_last(), f).push(ls.last())
    } else {
        lints_about(ls.drop_last(), f)
    }
}

/// The lints of `ls` about other files than `f`, in order.
pub open spec fn lints_not_about(ls: Seq<Lint>, f: Seq<char>) -> Seq<Lint>
    decreases ls.len(),
{
    if ls.len() == 0 {
        Seq::empty()
    } else if ls.last().spec_fields().0 != f {
        lints_not_about(ls.drop_last(), f).push(ls.last())
    } else {
        lints_not_about(ls.drop_last(), f)
    }
}

/// The lints of `ls` that the panes before `i` of `ps` leave: each pane
/// takes those about its file.
pub open spec fn lints_left(ls: Seq<Lint>, ps: Seq<Pane>, i: int) -> Seq<Lint>
    decreases i,
{
    if i <= 0 {
        ls
    } else {
        match ps[i - 1].path {
            Some(p) => lints_not_about(lints_left(ls, ps, i - 1), p@),
            None => lints_left(ls, ps, i - 1),
        }
    }
}

/// The lints of `ls` that pane `i` of `ps` receives: those about its file
/// that the panes before it left.
pub open spec fn lints_for(ls: Seq<Lint>, ps: Seq<Pane>, i: int) -> Seq<Lint> {
    match ps[i].path {
        Some(p) => lints_about(lints_left(ls, ps, i), p@),
        None => Seq::empty(),
    }
}

impl App {
    /// Hands the lints of a linting run to the panes of the files they are
    /// about: going through the panes in order, each pane whose file has
    /// lints left receives them, in order (see `lints_received`), so a file
    /// open in two panes gives them to the first. Then the editor says it
    /// is done.
    pub fn apply_lints(&mut self, lints: Vec<Lint>)
        requires
            old(self).wf(),
        ensures
            final(self).wf(),
            final(self).panes@.len() == old(self).panes@.len(),
            forall|i: int|
                0 <= i < old(self).panes@.len() ==> {
                    let mine = #[trigger] lints_for(lints@, old(self).panes@, i);
                    &&& mine.len() > 0 ==> lints_received(old(self).panes@[i], mine, final(self).panes@[i])
                    &&& mine.len() == 0 ==> final(self).panes@[i] == old(self).panes@[i]
                },
            final(self).current_pane_index == old(self).current_pane_index,
            keeps_setup(*old(self), *final(self)),
            final(self).info matches Some(m) && m@ == "linted"@,
    {
        let ghost ls = lints@;
        let ghost ps = self.panes@;
        let n = self.panes.len();
        let mut rest = lints;
        let mut i: usize = 0;
        while i < n
            invariant
                n == self.panes@.len(),
                n == ps.len(),
                ps == old(self).panes@,
                ls == lints@,
                i <= n,
                self.current_pane_index == old(self).current_pane_index,
                keeps_setup(*old(self), *self),
                self.info == old(self).info,
                old(self).wf(),
                forall|j: int| 0 <= j < n ==> (#[trigger] self.panes@[j]).wf(),
                rest@ == lints_left(ls, ps, i as int),
                forall|j: int|
                    0 <= j < i ==> {
                        let mine = #[trigger] lints_for(ls, ps, j);
                        &&& mine.len() > 0 ==> lints_received(ps[j], mine, self.panes@[j])
                        &&& mine.len() == 0 ==> self.panes@[j] == ps[j]
                    },
                forall|j: int| i <= j < n ==> #[trigger] self.panes@[j] == ps[j],
            decreases n - i,
        {
            let ghost before = self.panes@;
            let mut pane = self.panes.remove(i);
            proof {
                assert(pane == before[i as int]);
                assert(before[i as int].wf());
            }
            let path = match &pane.path {
                Some(p) => Some(crate::strings::chars_of(p.as_str())),
                None => None,
            };
            if let Some(p) = path {
                let ghost rest0 = rest@;
                let mut mine: Vec<Lint> = Vec::new();
                let mut others: Vec<Lint> = Vec::new();
                let mut k: usize = 0;
                let total = rest.len();
                proof {
                    assert(rest0.skip(0) =~= rest0);
                    assert(rest0.take(0) =~= Seq::<Lint>::empty());
                }
                while rest.len() > 0
                    invariant
                        k <= rest0.len(),
                        rest0.len() == total,
                        rest@ == rest0.skip(k as int),
                        mine@ == lints_about(rest0.take(k as int), p@),
                        others@ == lints_not_about(rest0.take(k as int), p@),
                    decreases rest@.len(),
                {
                    proof {
                        assert(rest0.skip(k as int).len() == rest0.len() - k);
                    }
                    let l = rest.remove(0);
                    proof {
                        assert(rest0.take(k + 1).drop_last() =~= rest0.take(k as int));
                        assert(rest0.take(k + 1).last() == l);
                        assert(rest@ =~= rest0.skip(k + 1));
                    }
                    let f = crate::strings::chars_of(l.filename());
                    if crate::strings::chars_eq(f.as_slice(), p.as_slice()) {
                        mine.push(l);
                    } else {
                        others.push(l);
                    }
                    k = k + 1;
                }
                proof {
                    assert(rest0.take(k as int) =~= rest0);
                }
                rest = others;
                if mine.len() > 0 {
                    pane.receive_lints(mine);
                }
            }
            self.panes.insert(i, pane);
            proof {
                assert forall|j: int| 0 <= j < n implies (#[trigger] self.panes@[j]).wf() by {
                    if j != i {
                        assert(self.panes@[j] == before[j]);
                    }
                }
                assert forall|j: int| 0 <= j < i + 1 implies {
                    let mine = #[trigger] lints_for(ls, ps, j);
                    &&& mine.len() > 0 ==> lints_received(ps[j], mine, self.panes@[j])
                    &&& mine.len() == 0 ==> self.panes@[j] == ps[j]
                } by {
                    if j < i {
                        assert(self.panes@[j] == before[j]);
                    }
                }
                assert forall|j: int| i + 1 <= j < n implies #[trigger] self.panes@[j] == ps[j] by {
                    assert(self.panes@[j] == before[j]);
                }
            }
            i = i + 1;
        }
        self.inform(String::from_str("linted"));
    }
}

/// What the user answered when asked whether to save before closing.
#[derive(Debug, Clone, Copy, PartialEq, Eq, Structural)]
pub enum Confirmation {
    /// Save, then go on.
    SaveFirst,
    /// Go on without saving.
    Discard,
    /// Keep the pane as it is.
    Abort,
}

/// The answer that a key gives to the question whether to save:
/// `y`, `n` or `a` (either case), or Esc to abort; other keys give none.
pub open spec fn answer_of(code: KeyCode) -> Option<Confirmation> {
    match code {
        KeyCode::Char(c) => if c == 'y' || c == 'Y' {
            Some(Confirmation::SaveFirst)
        } else if c == 'n' || c == 'N' {
            Some(Confirmation::Discard)
        } else if c == 'a' || c == 'A' {
            Some(Confirmation::Abort)
        } else {
            None
        },
        KeyCode::Esc => Some(Confirmation::Abort),
        _ => None,
    }
}

/// The answer that a key gives to the question whether to save.
pub fn confirmation_answer(code: KeyCode) -> (r: Option<Confirmation>)
    ensures
        r == answer_of(code),
{
    match code {
        KeyCode::Char(c) => if c == 'y' || c == 'Y' {
            Some(Confirmation::SaveFirst)
        } else if c == 'n' || c == 'N' {
            Some(Confirmation::Discard)
        } else if c == 'a' || c == 'A' {
            Some(Confirmation::Abort)
        } else {
            None
        },
        KeyCode::Esc => Some(Confirmation::Abort),
        _ => None,
    }
}

impl App {
    /// Whether closing or replacing the current pane asks first: it has
    /// unsaved changes and a file.
    pub fn must_confirm(&self) -> (r: bool)
        requires
            self.wf(),
            self.panes@.len() > 0,
        ensures
            r == (self.spec_current().modified && self.spec_current().path is Some),
    {
        self.panes[self.current_pane_index].modified && self.panes[self.current_pane_index].path.is_some()
    }
}

} // verus!
