//! A pane: one text buffer with its cursors, its settings and what the user
//! sees of it.
use crate::actions::PaneAction;
use crate::batch::{apply_batch, inserted_before, inverse};
use crate::quoting::quoted_path;
use crate::batches::{
    backward_edits, clip_edits, cursors_valid, dedent_edits, forward_edits, indent_edits, insert_edits, joined, word_edits,
};
use crate::completer::{
    acceptance_for, completion_for, next_index, previous_index, Completer, CompletionResult, CompletionView,
    SuggestionMenu,
};
use crate::cursor::{spec_deselect, spec_line_start, spec_move_to, spec_select_to, spec_selection, Cursor, MultiCursor};
use crate::editing::{batch_fits, edit_pos, sort_edits, truncate_deletions, Edit, EditBatch, EditView};
use crate::linter::{lint_fields, Lint, Severity};
use crate::numbers::decimal;
use crate::rope::rope_len_bytes;
use crate::search::{first_after, search_backward, search_forward, spec_find_next_cycle};
use crate::chars::is_whitespace;
use crate::ropebuffer::{line_count, line_of, line_start, shift_cursor, RopeBuffer};
use crate::strings::{chars_of, push_char, push_str, string_of};
use crate::settings::{default_settings, indent_string, line_ending_chars, AutoIndent, PaneSettings};
use crate::text::on_boundary;
use crate::transforms::{apply_transform, transformed, Transform};
use crate::types::{ByteOffset, MoveTarget};
use vstd::prelude::*;
use vstd::string::StringSliceAdditionalSpecFns;
use vstd::utf8::{decode_utf8, encode_utf8};

verus! {

/// `a - b`, or 0 where that is negative.
pub open spec fn sat_sub(a: int, b: int) -> int {
    if a >= b {
        a - b
    } else {
        0
    }
}

/// `a + b`, or `usize::MAX` where that is larger.
pub open spec fn sat_add(a: int, b: int) -> int {
    if a + b <= usize::MAX {
        a + b
    } else {
        usize::MAX as int
    }
}

/// The first visible line once the view has moved so that `line` shows with
/// two lines of context, in a view of `height` lines of a text of `lines`
/// lines whose first visible line was `top`.
pub open spec fn viewport_top_for(top: int, height: int, line: int, lines: int) -> int {
    let pad = 2;
    if line < sat_add(top, pad) {
        sat_sub(line, pad)
    } else if line >= sat_sub(sat_add(top, height), pad) {
        let wanted_last = if sat_add(line, pad + 1) < lines {
            sat_add(line, pad + 1)
        } else {
            lines
        };
        sat_sub(wanted_last, height)
    } else {
        top
    }
}

/// The cursors that a search for `needle` from the cursors `before` in
/// `text` finds, forward or backward, or `None` where an occurrence is missing.
pub open spec fn search_found(text: Seq<u8>, needle: Seq<u8>, before: Seq<Cursor>, backward: bool) -> Option<
    Seq<Cursor>,
> {
    if backward {
        search_backward(text, needle, before, before.len() as int, None, Seq::empty())
    } else {
        search_forward(text, needle, before, 0, None, Seq::empty())
    }
}

/// `after` is what a search for `needle` makes of the cursors `before` in
/// `text`: unchanged where an occurrence is missing; else the cursors found,
/// with the first one at or after the old primary cursor as the primary one;
/// or, where a found cursor is not on char boundaries, one cursor at the start.
pub open spec fn searched(text: Seq<u8>, needle: Seq<u8>, before: MultiCursor, after: MultiCursor, backward: bool) -> bool {
    match search_found(text, needle, before.cursors@, backward) {
        None => after == before,
        Some(found) => if cursors_valid(found, text) {
            &&& after.cursors@ == found
            &&& after.primary_index == first_after(found, before.spec_primary().offset.0 as int, 0)
        } else {
            &&& after.cursors@ == seq![Cursor { offset: ByteOffset(0), selection_from: None, memorized_column: None }]
            &&& after.primary_index == 0
        },
    }
}

/// Where a quick add puts its new cursor, as its offset and the other end of
/// its selection: at the next occurrence of the selection of `c` in `text`,
/// searching on from the selection's end and then from the start, unless that
/// occurrence is the selection itself.
pub open spec fn quick_add_target(text: Seq<u8>, c: Cursor) -> Option<(int, int)> {
    match spec_selection(c) {
        None => None,
        Some((a, b)) => {
            match spec_find_next_cycle(text, b, text.subrange(a, b)) {
                Some(o) => if o != a {
                    Some((o, o + (b - a)))
                } else {
                    None
                },
                None => None,
            }
        },
    }
}

/// `new` is `old` after a search for `needle`: the cursors go where
/// `searched` says and the view follows the primary cursor.
pub open spec fn search_done(old: Pane, new: Pane, needle: Seq<u8>, backward: bool) -> bool {
    &&& searched(old.content@, needle, old.cursors, new.cursors, backward)
    &&& view_follows(old, new)
    &&& new == (Pane { cursors: new.cursors, viewport_position_row: new.viewport_position_row, ..old })
}

/// `new` is `old` after a quick add: without a selection at the primary
/// cursor nothing changes; otherwise a cursor selecting the next occurrence
/// (see `quick_add_target`) is added as the primary one, where it lies on
/// char boundaries, and the view follows the primary cursor.
pub open spec fn quick_added(old: Pane, new: Pane) -> bool {
    if old.cursors.spec_primary().selection_from is None {
        new == old
    } else {
        &&& match quick_add_target(old.content@, old.cursors.spec_primary()) {
            Some((o, e)) => if on_boundary(old.content@, o) && on_boundary(old.content@, e) {
                &&& new.cursors.cursors@ == old.cursors.cursors@.push(
                    Cursor { offset: ByteOffset(o as usize), selection_from: Some(ByteOffset(e as usize)), memorized_column: None },
                )
                &&& new.cursors.primary_index == old.cursors.cursors@.len()
            } else {
                &&& new.cursors.cursors@ == old.cursors.cursors@
                &&& new.cursors.primary_index == old.cursors.primary_index
            },
            None => {
                &&& new.cursors.cursors@ == old.cursors.cursors@
                &&& new.cursors.primary_index == old.cursors.primary_index
            },
        }
        &&& view_follows(old, new)
        &&& new == (Pane { cursors: new.cursors, viewport_position_row: new.viewport_position_row, ..old })
    }
}

/// Adds each of `news` in turn to the cursors `cs` in the text `t`, unless
/// a cursor already stands at its offset; the view, whose first line is
/// `top` and which is `height` lines high, follows each cursor that is
/// added. Gives the cursors and the first line of the view.
pub open spec fn spawned(t: Seq<u8>, cs: Seq<Cursor>, news: Seq<Cursor>, top: int, height: int) -> (Seq<Cursor>, int)
    decreases news.len(),
{
    if news.len() == 0 {
        (cs, top)
    } else {
        let before = spawned(t, cs, news.drop_last(), top, height);
        let c = news.last();
        if exists|i: int| 0 <= i < before.0.len() && (#[trigger] before.0[i]).offset == c.offset {
            before
        } else {
            (before.0.push(c), viewport_top_for(before.1, height, line_of(t, c.offset.0 as int), line_count(t)))
        }
    }
}

/// `new` is `old` after spawning cursors toward `target`: the selections
/// go, then a copy of each cursor moved toward the target is added unless a
/// cursor already stands where it lands (see `spawned`).
pub open spec fn spawned_to(old: Pane, new: Pane, target: MoveTarget) -> bool {
    let des = deselected(old.cursors.cursors@);
    let r = spawned(
        old.content@,
        des,
        moved_cursors(old.content@, des, target),
        old.viewport_position_row as int,
        old.viewport_height as int,
    );
    &&& new.cursors.cursors@ == r.0
    &&& new.viewport_position_row == r.1
    &&& new.cursors.primary_index == old.cursors.primary_index
    &&& new == (Pane { cursors: new.cursors, viewport_position_row: new.viewport_position_row, ..old })
}

/// Replacing the text from `start` to `end` with `ins`.
pub open spec fn replace_batch(start: int, end: int, ins: Seq<u8>) -> Seq<EditView> {
    truncate_deletions(sort_edits(seq![EditView::Delete(start, end), EditView::Insert(start, ins)]))
}

/// `new` is `old` after the completion `c` of the word from `start` to
/// `end`: with nothing found a message says so; a replacement takes the
/// word's place; a menu opens, and its current suggestion takes the word's
/// place.
pub open spec fn completion_applied(old: Pane, start: int, end: int, c: CompletionView, new: Pane, r: Option<usize>) -> bool {
    match c {
        CompletionView::NoResults => new == (Pane { info: new.info, ..old }) && (new.info matches Some(m) && m@
            == "no completions"@) && r is None,
        CompletionView::ReplaceWith(w) => after_batch(old, replace_batch(start, end, encode_utf8(w)), new, r, false),
        CompletionView::Menu(sugs, i) => {
            &&& new.suggestions matches Some(m) && m.spec_suggestions() == sugs && m.spec_index() == i
            &&& after_batch(
                Pane { suggestions: new.suggestions, ..old },
                replace_batch(start, end, encode_utf8(sugs[i])),
                new,
                r,
                false,
            )
        },
    }
}

/// The start of the word before the primary cursor of `p`, its end, and
/// the word.
pub open spec fn stem_of(p: Pane) -> (int, int, Seq<char>) {
    let end = p.cursors.spec_primary().offset.0 as int;
    let start = stem_begin(p.content@, end);
    (start, end, decode_utf8(p.content@.subrange(start, end)))
}

/// `new` is `old` after completing the word before the primary cursor:
/// what the completer's table gives for it (see `completion_for`) is put in
/// place (see `completion_applied`).
pub open spec fn autocompleted(old: Pane, new: Pane, r: Option<usize>) -> bool {
    let (start, end, stem) = stem_of(old);
    completion_applied(old, start, end, completion_for(old.completer.entries(), stem), new, r)
}

/// `new` is `old` after accepting a completion of the word before the
/// primary cursor: the completion of the first word of the table that
/// extends it takes its place (see `acceptance_for`), or a message says
/// that there is none.
pub open spec fn accepted(old: Pane, new: Pane, r: Option<usize>) -> bool {
    let (start, end, stem) = stem_of(old);
    completion_applied(old, start, end, acceptance_for(old.completer.entries(), stem), new, r)
}

/// `new` is `old` after cycling the open menu forward or backward. Without
/// a menu, or where the current suggestion does not end at the primary
/// cursor, nothing changes. Otherwise the next (or previous) suggestion
/// becomes current and takes the place of the current one.
pub open spec fn cycled(old: Pane, new: Pane, forward: bool, r: Option<usize>) -> bool {
    match old.suggestions {
        None => new == old && r is None,
        Some(m) => {
            let sugs = m.spec_suggestions();
            let len = encode_utf8(sugs[m.spec_index()]).len() as int;
            let end = old.cursors.spec_primary().offset.0 as int;
            if len > end || !on_boundary(old.content@, end - len) {
                new == old && r is None
            } else {
                let i = if forward {
                    next_index(m.spec_index(), sugs.len() as int)
                } else {
                    previous_index(m.spec_index(), sugs.len() as int)
                };
                &&& new.suggestions matches Some(m2) && m2.spec_suggestions() == sugs && m2.spec_index() == i
                &&& after_batch(
                    Pane { suggestions: new.suggestions, ..old },
                    replace_batch(end - len, end, encode_utf8(sugs[i])),
                    new,
                    r,
                    false,
                )
            }
        },
    }
}

/// The indentation batch of `p`: see `indent_edits`.
pub open spec fn indent_batch(p: Pane) -> Seq<EditView> {
    truncate_deletions(sort_edits(indent_edits(
        p.content@,
        p.cursors.cursors@,
        p.cursors.cursors@.len() as int,
        encode_utf8(indent_string(p.settings.indent_kind, p.settings.indent_size as nat, p.settings.tab_width as nat)),
    )))
}

/// `new` is `old` after dedenting: see `dedent_edits`. Where the indent size
/// and the tab width together do not fit in a `usize`, nothing changes.
pub open spec fn dedented(old: Pane, new: Pane, r: Option<usize>) -> bool {
    if old.settings.indent_size + old.settings.tab_width <= usize::MAX {
        after_batch(
            old,
            truncate_deletions(sort_edits(dedent_edits(
                old.content@,
                old.cursors.cursors@,
                old.cursors.cursors@.len() as int,
                old.settings.indent_size as int,
                old.settings.tab_width as int,
            ))),
            new,
            r,
            false,
        )
    } else {
        new == old && r is None
    }
}

/// `new` is `old` after Tab: an open menu cycles forward; otherwise the
/// lines indent when a cursor has a selection or the primary cursor is at the
/// start of its line; otherwise, with a single cursor, the word before it
/// is completed.
pub open spec fn tabbed(old: Pane, new: Pane, r: Option<usize>) -> bool {
    let primary = old.cursors.spec_primary();
    if old.suggestions is Some {
        cycled(old, new, true, r)
    } else if has_selection(old.cursors.cursors@) || spec_line_start(old.content@, primary.offset.0 as int)
        == primary.offset.0 {
        after_batch(old, indent_batch(old), new, r, false)
    } else if old.cursors.cursors@.len() != 1 || primary.selection_from is Some {
        new == old && r is None
    } else {
        autocompleted(old, new, r)
    }
}

/// `p` is a new, empty pane: untitled, without a file, text or history,
/// with one cursor at the start, the default settings and nothing else;
/// its completer is not said.
pub open spec fn fresh_pane(p: Pane) -> bool {
    &&& p.title@ == "untitled"@
    &&& p.path is None
    &&& p.content@ == Seq::<u8>::empty()
    &&& p.content.spec_undo().len() == 0
    &&& p.content.spec_redo().len() == 0
    &&& p.cursors.cursors@ == seq![Cursor { offset: ByteOffset(0), selection_from: None, memorized_column: None }]
    &&& p.cursors.primary_index == 0
    &&& p.viewport_position_row == 0
    &&& p.viewport_width == 0
    &&& p.viewport_height == 0
    &&& !p.modified
    &&& p.settings == default_settings()
    &&& p.last_search is None
    &&& p.lints@.len() == 0
    &&& p.info is None
    &&& p.suggestions is None
}

/// `new` is `old` after Esc: several cursors or a selection collapse to the
/// primary cursor without its selection; otherwise the lints go. The menu
/// of suggestions and the message go either way.
pub open spec fn escaped(old: Pane, new: Pane) -> bool {
    if old.cursors.cursors@.len() > 1 || old.cursors.spec_primary().selection_from is Some {
        &&& new.cursors.cursors@ == seq![Cursor { selection_from: None, ..old.cursors.spec_primary() }]
        &&& new.cursors.primary_index == 0
        &&& new == (Pane { cursors: new.cursors, suggestions: None, info: None, ..old })
    } else {
        &&& new.lints@.len() == 0
        &&& new == (Pane { lints: new.lints, suggestions: None, info: None, ..old })
    }
}

/// `new` is `old` after cutting, and `clips` the texts cut: the texts of the
/// selections, in cursor order, which are then deleted. Without a selection
/// nothing changes.
pub open spec fn cut_done(old: Pane, new: Pane, clips: Seq<Seq<char>>, r: Option<usize>) -> bool {
    let cs = old.cursors.cursors@;
    &&& clips == selection_texts(old.content@, cs, cs.len() as int)
    &&& clips.len() == 0 ==> new == old && r is None
    &&& clips.len() > 0 ==> after_batch(old, typing_batch(cs, Seq::empty()), new, r, true)
}

/// `new` is `old` after pasting `clips`: one text per cursor where their
/// numbers agree, otherwise all the texts joined by line feeds at every
/// cursor.
pub open spec fn pasted(old: Pane, clips: Seq<Seq<char>>, new: Pane, r: Option<usize>) -> bool {
    let cs = old.cursors.cursors@;
    if clips.len() == cs.len() {
        after_batch(
            old,
            truncate_deletions(sort_edits(clip_edits(cs, clips.map_values(|c: Seq<char>| encode_utf8(c)), cs.len() as int))),
            new,
            r,
            false,
        )
    } else {
        after_batch(old, typing_batch(cs, encode_utf8(joined(clips, clips.len() as int))), new, r, false)
    }
}

/// `new` is `old` after rewriting the text of every selection with `t`, the
/// selections then removed. Without a selection nothing changes.
pub open spec fn transform_done(old: Pane, t: Transform, new: Pane, r: Option<usize>) -> bool {
    let cs = old.cursors.cursors@;
    if has_selection(cs) {
        after_batch(
            old,
            truncate_deletions(sort_edits(clip_edits(cs, transformed_clips(old.content@, cs, t), cs.len() as int))),
            new,
            r,
            true,
        )
    } else {
        new == old && r is None
    }
}

/// `new` is `old` once it holds the lints `ls` of its file: a message says
/// how many there are, and where one is an error the cursors collapse to the
/// place of the first error, the view following.
pub open spec fn lints_received(old: Pane, ls: Seq<Lint>, new: Pane) -> bool {
    let lf = lint_fields(ls);
    &&& new.lints@ == ls
    &&& new.info matches Some(m) && m@ == "linted ("@ + decimal(ls.len() as nat) + " lint(s) in current file)"@
    &&& match first_error(lf, ls.len() as int) {
        None => new == (Pane { lints: new.lints, info: new.info, ..old }),
        Some(k) => {
            &&& new.cursors.cursors@ == seq![
                spec_move_to(old.content@, Cursor { selection_from: None, ..old.cursors.spec_primary() }, error_target(lf[k])),
            ]
            &&& new.cursors.primary_index == 0
            &&& view_follows(old, new)
            &&& new == (Pane {
                lints: new.lints,
                info: new.info,
                cursors: new.cursors,
                viewport_position_row: new.viewport_position_row,
                ..old
            })
        },
    }
}

/// A pane.
pub struct Pane {
    pub title: String,
    pub path: Option<String>,
    pub content: RopeBuffer,
    pub viewport_position_row: usize,
    pub viewport_width: u16,
    pub viewport_height: u16,
    pub modified: bool,
    pub cursors: MultiCursor,
    pub settings: PaneSettings,
    pub last_search: Option<String>,
    pub lints: Vec<Lint>,
    pub info: Option<String>,
    pub suggestions: Option<SuggestionMenu>,
    pub completer: Completer,
}

impl Pane {
    /// The buffer is consistent, the cursors are on char boundaries of the
    /// text, and an open menu of suggestions has a current one.
    pub open spec fn wf(&self) -> bool {
        &&& self.content.wf()
        &&& self.cursors.wf()
        &&& cursors_valid(self.cursors.cursors@, self.content@)
        &&& (self.suggestions matches Some(m) ==> m.wf())
    }

    /// An empty pane without a file.
    pub fn empty() -> (p: Pane)
        ensures
            p.wf(),
            fresh_pane(p),
            p.completer.entries() == crate::completer::no_entries(),
    {
        let content = RopeBuffer::new();
        let cursors = MultiCursor::new();
        proof {
            assert(on_boundary(content@, 0));
        }
        Pane {
            title: String::from_str("untitled"),
            path: None,
            content,
            cursors,
            viewport_position_row: 0,
            viewport_height: 0,
            viewport_width: 0,
            settings: PaneSettings::default(),
            suggestions: None,
            last_search: None,
            lints: Vec::new(),
            info: None,
            modified: false,
            completer: Completer::new(),
        }
    }

    /// The message to show, if any.
    pub fn status_msg(&self) -> (m: Option<&str>)
        ensures
            m matches Some(s) ==> self.info matches Some(i) && s@ == i@,
            m is None ==> self.info is None,
    {
        match &self.info {
            Some(s) => Some(s.as_str()),
            None => None,
        }
    }

    /// Forgets the message.
    pub fn clear_status_msg(&mut self)
        ensures
            *final(self) == (Pane { info: None, ..*old(self) }),
    {
        self.info = None;
    }

    /// Shows a message.
    pub fn inform(&mut self, msg: String)
        ensures
            *final(self) == (Pane { info: Some(msg), ..*old(self) }),
    {
        self.info = Some(msg);
    }

    /// Called when Esc is pressed: several cursors or a selection collapse
    /// to the primary cursor without selection; otherwise the lints are
    /// dropped. Suggestions and the message go either way.
    pub fn esc(&mut self)
        requires
            old(self).wf(),
        ensures
            final(self).wf(),
            escaped(*old(self), *final(self)),
    {
        if self.cursors.cursor_count() > 1 || self.cursors.primary().has_selection() {
            let ghost p = self.cursors.spec_primary();
            self.cursors.esc();
            proof {
                assert(self.cursors.cursors@[0] == Cursor { selection_from: None, ..p });
                assert(p.valid_in(self.content@)) by {
                    assert(old(self).cursors.cursors@[old(self).cursors.primary_index as int].valid_in(self.content@));
                }
                assert(cursors_valid(self.cursors.cursors@, self.content@));
            }
        } else {
            self.lints = Vec::new();
        }
        self.suggestions = None;
        self.info = None;
    }

    /// The size of the view, in columns and rows.
    pub fn update_viewport_size(&mut self, columns: u16, rows: u16)
        ensures
            *final(self) == (Pane { viewport_width: columns, viewport_height: rows, ..*old(self) }),
    {
        self.viewport_width = columns;
        self.viewport_height = rows;
    }

    /// Moves the view so that `line_number` shows with two lines of context.
    pub fn adjust_viewport_to_show_line(&mut self, line_number: usize)
        ensures
            final(self).viewport_position_row == viewport_top_for(
                old(self).viewport_position_row as int,
                old(self).viewport_height as int,
                line_number as int,
                line_count(old(self).content@),
            ),
            *final(self) == (Pane { viewport_position_row: final(self).viewport_position_row, ..*old(self) }),
    {
        let pad: usize = 2;
        let vh = self.viewport_height as usize;
        let last_visible_line_number = self.viewport_position_row.saturating_add(vh);
        if line_number < self.viewport_position_row.saturating_add(pad) {
            self.viewport_position_row = line_number.saturating_sub(pad);
        } else if line_number >= last_visible_line_number.saturating_sub(pad) {
            let lines = self.content.len_lines();
            let wanted = line_number.saturating_add(pad + 1);
            let desired_last_visible_line_number = if wanted < lines {
                wanted
            } else {
                lines
            };
            self.viewport_position_row = desired_last_visible_line_number.saturating_sub(vh);
        }
    }

    /// Moves the view so that the primary cursor shows.
    pub fn adjust_viewport(&mut self)
        requires
            old(self).wf(),
        ensures
            final(self).viewport_position_row == viewport_top_for(
                old(self).viewport_position_row as int,
                old(self).viewport_height as int,
                line_of(old(self).content@, old(self).cursors.spec_primary().offset.0 as int),
                line_count(old(self).content@),
            ),
            *final(self) == (Pane { viewport_position_row: final(self).viewport_position_row, ..*old(self) }),
    {
        proof {
            assert(self.cursors.cursors@[self.cursors.primary_index as int].valid_in(self.content@));
        }
        let line_number = self.cursors.primary().current_line_number(&self.content);
        self.adjust_viewport_to_show_line(line_number);
    }

    /// Whether every cursor is on char boundaries of the text.
    pub fn cursors_fit(content: &RopeBuffer, cursors: &MultiCursor) -> (r: bool)
        requires
            content.wf(),
        ensures
            r == cursors_valid(cursors.cursors@, content@),
    {
        let n = cursors.cursors.len();
        let mut i: usize = 0;
        while i < n
            invariant
                content.wf(),
                n == cursors.cursors@.len(),
                i <= n,
                cursors_valid(cursors.cursors@.take(i as int), content@),
            decreases n - i,
        {
            let c = cursors.cursors[i];
            let ok = content.is_char_boundary(c.offset) && match c.selection_from {
                Some(s) => content.is_char_boundary(s),
                None => true,
            };
            if !ok {
                proof {
                    assert(!cursors.cursors@[i as int].valid_in(content@));
                }
                return false;
            }
            proof {
                let now = cursors.cursors@.take(i + 1);
                assert forall|j: int| 0 <= j < now.len() implies #[trigger] now[j].valid_in(content@) by {
                    if j < i {
                        assert(now[j] == cursors.cursors@.take(i as int)[j]);
                    }
                }
            }
            i = i + 1;
        }
        proof {
            assert(cursors.cursors@.take(n as int) =~= cursors.cursors@);
        }
        true
    }

    /// Whether a text of `len` bytes and all the bytes that the batch inserts
    /// fit in memory together.
    fn fits_in_memory(len: usize, edits: &EditBatch) -> (r: bool)
        ensures
            r == (len + inserted_before(edits@, edits@.len() as int) <= usize::MAX),
    {
        let n = edits.len();
        let mut total: usize = len;
        let mut i: usize = 0;
        while i < n
            invariant
                n == edits@.len(),
                i <= n,
                total == len + inserted_before(edits@, i as int),
            decreases n - i,
        {
            proof {
                lemma_inserted_nonneg(edits@, i as int);
            }
            match edits.get(i) {
                Edit::Insert(_, rope) => {
                    let k = rope_len_bytes(rope);
                    match total.checked_add(k) {
                        Some(t) => total = t,
                        None => {
                            proof {
                                lemma_inserted_grows(edits@, i + 1, n as int);
                            }
                            return false;
                        },
                    }
                },
                Edit::Delete(_) => {},
            }
            i = i + 1;
        }
        true
    }

    /// After an edit or an undo, the cursors are checked against the text;
    /// cursors that are not all on char boundaries give way to a single
    /// cursor at the start.
    fn repair_cursors(&mut self)
        requires
            old(self).content.wf(),
            old(self).cursors.wf(),
            old(self).suggestions matches Some(m) ==> m.wf(),
        ensures
            final(self).wf(),
            cursors_valid(old(self).cursors.cursors@, old(self).content@) ==> *final(self) == *old(self),
            !cursors_valid(old(self).cursors.cursors@, old(self).content@) ==> *final(self) == (Pane {
                cursors: final(self).cursors,
                ..*old(self)
            }) && final(self).cursors.cursors@ == seq![
                Cursor { offset: ByteOffset(0), selection_from: None, memorized_column: None },
            ],
    {
        if !Self::cursors_fit(&self.content, &self.cursors) {
            self.cursors = MultiCursor::new();
            proof {
                assert(on_boundary(self.content@, 0)) by {
                    vstd::utf8::is_char_boundary_start_end_of_seq(self.content@);
                }
                assert(self.cursors.cursors@[0].valid_in(self.content@));
            }
        }
    }

    /// Applies a batch of edits that fits the text: the text, the cursors and
    /// the undo history change as `RopeBuffer::do_edits` says, the pane is
    /// marked modified, and the view follows the primary cursor. Returns the
    /// first line whose highlighting is out of date. An empty batch, or one
    /// whose text would not fit in memory, changes nothing.
    pub fn apply_editbatch(&mut self, edits: EditBatch) -> (r: Option<usize>)
        requires
            old(self).wf(),
            batch_fits(old(self).content@, edits@),
        ensures
            final(self).wf(),
            !applies(old(self).content@, edits@) ==> *final(self) == *old(self) && r is None,
            applies(old(self).content@, edits@) ==> {
                &&& final(self).content@ == apply_batch(old(self).content@, edits@)
                &&& final(self).content.spec_undo() == old(self).content.spec_undo().push(
                    (
                        truncate_deletions(sort_edits(inverse(old(self).content@, edits@))),
                        old(self).cursors.cursors@,
                        old(self).cursors.primary_index,
                    ),
                )
                &&& final(self).content.spec_redo() == old(self).content.spec_redo()
                &&& final(self).cursors.cursors@ == cursors_after(
                    final(self).content@,
                    edits@,
                    old(self).cursors.cursors@,
                )
                &&& r == Some(line_of(old(self).content@, edit_pos(edits@[0])) as usize)
                &&& final(self).cursors.primary_index == if cursors_valid(
                    shifted_cursors(edits@, old(self).cursors.cursors@),
                    final(self).content@,
                ) {
                    old(self).cursors.primary_index
                } else {
                    0
                }
                &&& view_follows(*old(self), *final(self))
                &&& *final(self) == (Pane {
                    content: final(self).content,
                    cursors: final(self).cursors,
                    modified: true,
                    viewport_position_row: final(self).viewport_position_row,
                    ..*old(self)
                })
            },
    {
        if edits.is_empty() {
            return None;
        }
        if !Self::fits_in_memory(self.content.len_bytes(), &edits) {
            return None;
        }
        let first = edits.get(0).pos();
        proof {
            assert(crate::editing::edit_fits(self.content@, edits@[0]));
        }
        let line = self.content.byte_to_line(first);
        let ghost before = self.cursors.cursors@;
        proof {
            assert forall|i: int| 0 <= i < before.len() implies #[trigger] before[i].valid_in(self.content@) by {
                assert(cursors_valid(before, self.content@));
            }
        }
        self.content.do_edits(&mut self.cursors, edits);
        proof {
            assert(self.cursors.cursors@ =~= shifted_cursors(edits@, before));
        }
        self.repair_cursors();
        self.modified = true;
        self.adjust_viewport();
        Some(line)
    }

    /// Applies a batch, then removes every selection.
    fn edit_then_deselect(&mut self, edits: EditBatch) -> (r: Option<usize>)
        requires
            old(self).wf(),
            batch_fits(old(self).content@, edits@),
        ensures
            final(self).wf(),
            after_batch(*old(self), edits@, *final(self), r, true),
    {
        let r = self.apply_editbatch(edits);
        let ghost before = self.cursors.cursors@;
        self.cursors.deselect_all();
        proof {
            assert forall|i: int| 0 <= i < self.cursors.cursors@.len() implies #[trigger] self.cursors.cursors@[i].valid_in(
                self.content@,
            ) by {
                assert(cursors_valid(before, self.content@));
                assert(before[i].valid_in(self.content@));
            }
            assert(self.cursors.cursors@ =~= deselected(before));
        }
        r
    }

    /// Types `s` at every cursor, in place of its selection.
    pub fn insert_text(&mut self, s: &str) -> (r: Option<usize>)
        requires
            old(self).wf(),
        ensures
            final(self).wf(),
            after_batch(*old(self), typing_batch(old(self).cursors.cursors@, s.spec_bytes()), *final(self), r, true),
    {
        let edits = EditBatch::insert_with_cursors(&self.cursors, s);
        self.edit_then_deselect(edits)
    }

    /// Deletes the selections, or the grapheme before each cursor.
    pub fn delete_backward(&mut self) -> (r: Option<usize>)
        requires
            old(self).wf(),
        ensures
            final(self).wf(),
            after_batch(
                *old(self),
                truncate_deletions(sort_edits(backward_edits(
                    old(self).content@,
                    old(self).cursors.cursors@,
                    old(self).cursors.cursors@.len() as int,
                ))),
                *final(self),
                r,
                true,
            ),
    {
        let edits = EditBatch::delete_backward_with_cursors(&self.cursors, &self.content);
        self.edit_then_deselect(edits)
    }

    /// Deletes the selections, or the grapheme after each cursor.
    pub fn delete_forward(&mut self) -> (r: Option<usize>)
        requires
            old(self).wf(),
        ensures
            final(self).wf(),
            after_batch(
                *old(self),
                truncate_deletions(sort_edits(forward_edits(
                    old(self).content@,
                    old(self).cursors.cursors@,
                    old(self).cursors.cursors@.len() as int,
                ))),
                *final(self),
                r,
                true,
            ),
    {
        let edits = EditBatch::delete_forward_with_cursors(&self.cursors, &self.content);
        self.edit_then_deselect(edits)
    }

    /// Deletes the selections, or the word before each cursor.
    pub fn delete_word(&mut self) -> (r: Option<usize>)
        requires
            old(self).wf(),
        ensures
            final(self).wf(),
            after_batch(
                *old(self),
                truncate_deletions(sort_edits(word_edits(
                    old(self).content@,
                    old(self).cursors.cursors@,
                    old(self).cursors.cursors@.len() as int,
                ))),
                *final(self),
                r,
                true,
            ),
    {
        let edits = EditBatch::delete_word_with_cursors(&self.cursors, &self.content);
        self.edit_then_deselect(edits)
    }

    /// Indents the lines of every cursor by one level of the settings.
    pub fn indent(&mut self) -> (r: Option<usize>)
        requires
            old(self).wf(),
        ensures
            final(self).wf(),
            after_batch(*old(self), indent_batch(*old(self)), *final(self), r, false),
    {
        let indent = self.settings.indent_as_string();
        let edits = EditBatch::indent_with_cursors(&self.cursors, &self.content, indent.as_str());
        self.apply_editbatch(edits)
    }

    /// Removes up to one level of indentation from the lines of every
    /// cursor. Settings whose indent size and tab width together overflow
    /// change nothing.
    pub fn dedent(&mut self) -> (r: Option<usize>)
        requires
            old(self).wf(),
        ensures
            final(self).wf(),
            dedented(*old(self), *final(self), r),
    {
        if self.settings.indent_size.checked_add(self.settings.tab_width).is_none() {
            return None;
        }
        let edits = EditBatch::dedent_with_cursors(
            &self.cursors,
            &self.content,
            self.settings.indent_size,
            self.settings.tab_width,
        );
        self.apply_editbatch(edits)
    }

    /// Pastes: one clip per cursor when there are as many clips as cursors,
    /// otherwise all clips joined by newlines at every cursor.
    pub fn insert_from_clipboard(&mut self, clips: &[String]) -> (r: Option<usize>)
        requires
            old(self).wf(),
        ensures
            final(self).wf(),
            pasted(*old(self), string_views(clips@), *final(self), r),
    {
        let edits = EditBatch::insert_from_clipboard(&self.cursors, clips);
        proof {
            let sv = string_views(clips@);
            assert(sv =~= clips@.map_values(|c: String| c@));
            assert(sv.map_values(|c: Seq<char>| encode_utf8(c)) =~= clips@.map_values(|c: String| encode_utf8(c@)));
        }
        self.apply_editbatch(edits)
    }

    /// Moves every cursor toward `target`; the view follows.
    pub fn move_cursors(&mut self, target: MoveTarget)
        requires
            old(self).wf(),
        ensures
            final(self).wf(),
            cursors_changed(
                *old(self),
                *final(self),
                moved_cursors(old(self).content@, old(self).cursors.cursors@, target),
                old(self).cursors.primary_index as int,
            ),
    {
        self.cursors.move_to(&self.content, target);
        proof {
            assert(self.cursors.cursors@ =~= moved_cursors(old(self).content@, old(self).cursors.cursors@, target));
        }
        self.adjust_viewport();
    }

    /// Extends every cursor's selection toward `target`; the view follows.
    pub fn select_cursors(&mut self, target: MoveTarget)
        requires
            old(self).wf(),
        ensures
            final(self).wf(),
            cursors_changed(
                *old(self),
                *final(self),
                selected_cursors(old(self).content@, old(self).cursors.cursors@, target),
                old(self).cursors.primary_index as int,
            ),
    {
        self.cursors.select_to(&self.content, target);
        proof {
            assert(self.cursors.cursors@ =~= selected_cursors(old(self).content@, old(self).cursors.cursors@, target));
        }
        self.adjust_viewport();
    }

    /// Selects the whole text with a single cursor, which ends at the end.
    pub fn select_all(&mut self)
        requires
            old(self).wf(),
        ensures
            final(self).wf(),
            final(self).cursors.cursors@ == seq![
                spec_select_to(
                    old(self).content@,
                    Cursor {
                        offset: ByteOffset(0),
                        selection_from: None,
                        memorized_column: old(self).cursors.spec_primary().memorized_column,
                    },
                    MoveTarget::End,
                ),
            ],
            final(self).cursors.primary_index == 0,
            *final(self) == (Pane { cursors: final(self).cursors, ..*old(self) }),
    {
        self.cursors.esc();
        proof {
            vstd::utf8::is_char_boundary_start_end_of_seq(self.content@);
        }
        let cursor = self.cursors.primary_mut();
        cursor.offset = ByteOffset(0);
        proof {
            assert(on_boundary(self.content@, 0));
        }
        cursor.select_to(&self.content, MoveTarget::End);
        proof {
            assert(self.cursors.cursors@[0].valid_in(self.content@));
            assert(cursors_valid(self.cursors.cursors@, self.content@));
        }
    }

    /// Undoes the last batch of edits, if there is one that fits the text:
    /// the text goes back and the cursors recorded with the batch return.
    pub fn undo(&mut self)
        requires
            old(self).wf(),
        ensures
            final(self).wf(),
            history_stepped(*old(self), *final(self), false),
    {
        let cursors = self.cursors.duplicate();
        self.cursors = self.content.undo(cursors);
        self.repair_cursors();
        self.modified = true;
        self.adjust_viewport();
    }

    /// Redoes the last undone batch, if there is one that fits the text.
    pub fn redo(&mut self)
        requires
            old(self).wf(),
        ensures
            final(self).wf(),
            history_stepped(*old(self), *final(self), true),
    {
        let cursors = self.cursors.duplicate();
        self.cursors = self.content.redo(cursors);
        self.repair_cursors();
        self.modified = true;
        self.adjust_viewport();
    }

    /// Searches forward from the cursors for `needle`; see
    /// `RopeBuffer::search_with_cursors`. Found cursors that are not on char
    /// boundaries give way to a single cursor at the start.
    fn search_forward_from_cursors(&mut self, needle: &str)
        requires
            old(self).wf(),
        ensures
            final(self).wf(),
            searched(old(self).content@, needle.spec_bytes(), old(self).cursors, final(self).cursors, false),
            view_follows(*old(self), *final(self)),
            *final(self) == (Pane {
                cursors: final(self).cursors,
                viewport_position_row: final(self).viewport_position_row,
                ..*old(self)
            }),
    {
        proof {
            assert forall|i: int| 0 <= i < self.cursors.cursors@.len() implies crate::search::high_end(
                #[trigger] self.cursors.cursors@[i],
            ) <= self.content@.len() by {
                assert(self.cursors.cursors@[i].valid_in(self.content@));
            }
        }
        self.content.search_with_cursors(&mut self.cursors, needle);
        self.repair_cursors();
        self.adjust_viewport();
    }

    /// Searches backward from the cursors for `needle`.
    fn search_backward_from_cursors(&mut self, needle: &str)
        requires
            old(self).wf(),
        ensures
            final(self).wf(),
            searched(old(self).content@, needle.spec_bytes(), old(self).cursors, final(self).cursors, true),
            view_follows(*old(self), *final(self)),
            *final(self) == (Pane {
                cursors: final(self).cursors,
                viewport_position_row: final(self).viewport_position_row,
                ..*old(self)
            }),
    {
        proof {
            assert forall|i: int| 0 <= i < self.cursors.cursors@.len() implies crate::search::low_end(
                #[trigger] self.cursors.cursors@[i],
            ) <= self.content@.len() by {
                assert(self.cursors.cursors@[i].valid_in(self.content@));
            }
        }
        self.content.search_with_cursors_backward(&mut self.cursors, needle);
        self.repair_cursors();
        self.adjust_viewport();
    }

    /// Finds `needle` from the cursors and remembers it for repeated search.
    pub fn find(&mut self, needle: String)
        requires
            old(self).wf(),
        ensures
            final(self).wf(),
            final(self).last_search == Some(needle),
            search_done(*old(self), Pane { last_search: old(self).last_search, ..*final(self) }, encode_utf8(needle@), false),
    {
        self.search_forward_from_cursors(needle.as_str());
        self.last_search = Some(needle);
    }

    /// Searches again for the last needle, forward or backward.
    pub fn repeat_find(&mut self, backward: bool)
        requires
            old(self).wf(),
        ensures
            final(self).wf(),
            old(self).last_search is None ==> *final(self) == *old(self),
            old(self).last_search matches Some(n) ==> search_done(*old(self), *final(self), encode_utf8(n@), backward),
    {
        let needle = match &self.last_search {
            Some(s) => s.clone(),
            None => return,
        };
        if backward {
            self.search_backward_from_cursors(needle.as_str());
        } else {
            self.search_forward_from_cursors(needle.as_str());
        }
    }

    /// Adds a cursor that selects the next occurrence of the primary
    /// selection, searching on from its end and then from the start; the new
    /// cursor becomes the primary one. Nothing happens without a selection, or
    /// when the next occurrence is the selection itself.
    pub fn quick_add_next(&mut self)
        requires
            old(self).wf(),
        ensures
            final(self).wf(),
            quick_added(*old(self), *final(self)),
    {
        proof {
            assert(self.cursors.cursors@[self.cursors.primary_index as int].valid_in(self.content@));
        }
        let selection = match self.cursors.primary().selection() {
            Some(sel) => sel,
            None => return,
        };
        let selection_str = self.content.slice(&selection);
        let len = self.content.len_bytes();
        if let Some(offset) = self.content.find_next_cycle(selection.end, selection_str.as_str()) {
            if offset.0 != selection.start.0 {
                let width = selection.end.0 - selection.start.0;
                if offset.0 <= len && width <= len - offset.0 {
                    let sel_end = ByteOffset(offset.0 + width);
                    if self.content.is_char_boundary(offset) && self.content.is_char_boundary(sel_end) {
                        let new_cursor = Cursor::new_with_selection(offset, Some(sel_end));
                        let ghost before = self.cursors.cursors@;
                        self.cursors.spawn_new_primary(new_cursor);
                        proof {
                            assert forall|i: int| 0 <= i < self.cursors.cursors@.len() implies #[trigger] self.cursors.cursors@[i].valid_in(
                                self.content@,
                            ) by {
                                if i < before.len() {
                                    assert(before[i].valid_in(self.content@));
                                }
                            }
                        }
                    }
                }
            }
        }
        self.adjust_viewport();
    }

    /// Scrolls the view down by `n` lines, no further than the last line.
    pub fn scroll_down(&mut self, n: usize)
        requires
            old(self).viewport_position_row + n <= usize::MAX,
        ensures
            final(self).viewport_position_row == if old(self).viewport_position_row + n < line_count(old(self).content@) - 1 {
                old(self).viewport_position_row + n
            } else {
                line_count(old(self).content@) - 1
            },
            *final(self) == (Pane { viewport_position_row: final(self).viewport_position_row, ..*old(self) }),
    {
        let new_pos = self.viewport_position_row + n;
        let last = self.content.len_lines() - 1;
        self.viewport_position_row = if new_pos < last {
            new_pos
        } else {
            last
        };
    }

    /// Scrolls the view up by `n` lines, no further than the first line.
    pub fn scroll_up(&mut self, n: usize)
        ensures
            final(self).viewport_position_row == sat_sub(old(self).viewport_position_row as int, n as int),
            *final(self) == (Pane { viewport_position_row: final(self).viewport_position_row, ..*old(self) }),
    {
        self.viewport_position_row = self.viewport_position_row.saturating_sub(n);
    }

    /// The texts of the selections, in cursor order.
    pub fn selections(&self) -> (r: Vec<String>)
        requires
            self.wf(),
        ensures
            string_views(r@) == selection_texts(self.content@, self.cursors.cursors@, self.cursors.cursors@.len() as int),
    {
        let n = self.cursors.cursors.len();
        let mut out: Vec<String> = Vec::new();
        let mut i: usize = 0;
        while i < n
            invariant
                self.wf(),
                n == self.cursors.cursors@.len(),
                i <= n,
                string_views(out@) == selection_texts(self.content@, self.cursors.cursors@, i as int),
            decreases n - i,
        {
            let c = self.cursors.cursors[i];
            let ghost before = out@;
            match c.selection() {
                Some(sel) => {
                    proof {
                        assert(self.cursors.cursors@[i as int].valid_in(self.content@));
                    }
                    let text = self.content.slice(&sel);
                    proof {
                        vstd::utf8::encode_utf8_decode_utf8(text@);
                    }
                    out.push(text);
                    proof {
                        assert(string_views(out@) =~= string_views(before).push(text@));
                    }
                },
                None => {},
            }
            i = i + 1;
        }
        out
    }

    /// Whether any cursor has a selection.
    fn any_selection(&self) -> (r: bool)
        ensures
            r == exists|i: int| 0 <= i < self.cursors.cursors@.len() && (#[trigger] self.cursors.cursors@[i]).selection_from is Some,
    {
        let n = self.cursors.cursors.len();
        let mut i: usize = 0;
        while i < n
            invariant
                n == self.cursors.cursors@.len(),
                i <= n,
                forall|j: int| 0 <= j < i ==> (#[trigger] self.cursors.cursors@[j]).selection_from is None,
            decreases n - i,
        {
            if self.cursors.cursors[i].has_selection() {
                return true;
            }
            i = i + 1;
        }
        false
    }

    /// Cuts the selections: returns their texts, in cursor order, and
    /// deletes them. Without a selection nothing changes.
    pub fn cut(&mut self) -> (r: (Vec<String>, Option<usize>))
        requires
            old(self).wf(),
        ensures
            final(self).wf(),
            cut_done(*old(self), *final(self), string_views(r.0@), r.1),
    {
        let clips = self.selections();
        if clips.len() == 0 {
            return (clips, None);
        }
        let empty = String::new();
        let es = empty.as_str();
        let edits = EditBatch::insert_with_cursors(&self.cursors, es);
        proof {
            assert(es@ =~= Seq::<char>::empty());
            assert(encode_utf8(es@) =~= Seq::<u8>::empty()) by {
                reveal_with_fuel(encode_utf8, 1);
            }
        }
        let line = self.edit_then_deselect(edits);
        (clips, line)
    }

    /// Rewrites the text of every selection with `t`, then removes the
    /// selections. Without a selection nothing changes.
    pub fn transform_selections(&mut self, t: Transform) -> (r: Option<usize>)
        requires
            old(self).wf(),
        ensures
            final(self).wf(),
            transform_done(*old(self), t, *final(self), r),
    {
        if !self.any_selection() {
            return None;
        }
        let n = self.cursors.cursors.len();
        let ghost tc = transformed_clips(self.content@, self.cursors.cursors@, t);
        let mut clips: Vec<String> = Vec::new();
        let mut i: usize = 0;
        while i < n
            invariant
                self.wf(),
                n == self.cursors.cursors@.len(),
                tc == transformed_clips(self.content@, self.cursors.cursors@, t),
                i <= n,
                clips@.len() == i,
                forall|j: int| 0 <= j < i ==> encode_utf8(#[trigger] clips@[j]@) == tc[j],
            decreases n - i,
        {
            let c = self.cursors.cursors[i];
            match c.selection() {
                Some(sel) => {
                    proof {
                        assert(self.cursors.cursors@[i as int].valid_in(self.content@));
                    }
                    let text = self.content.slice(&sel);
                    proof {
                        vstd::utf8::encode_utf8_decode_utf8(text@);
                    }
                    clips.push(apply_transform(t, text.as_str()));
                },
                None => {
                    clips.push(String::new());
                    proof {
                        assert(clips@[i as int]@ =~= Seq::<char>::empty());
                        assert(encode_utf8(Seq::<char>::empty()) =~= Seq::<u8>::empty()) by {
                            reveal_with_fuel(encode_utf8, 1);
                        }
                    }
                },
            }
            i = i + 1;
        }
        let edits = EditBatch::insert_from_clipboard(&self.cursors, clips.as_slice());
        proof {
            assert(clips@.map_values(|c: String| encode_utf8(c@)) =~= tc);
        }
        self.edit_then_deselect(edits)
    }

    /// Deselects every cursor, then adds, for each of them, a cursor moved
    /// toward `target`, unless a cursor already stands where it lands. The
    /// view follows each added cursor.
    pub fn spawn_cursors_to(&mut self, target: MoveTarget)
        requires
            old(self).wf(),
        ensures
            final(self).wf(),
            spawned_to(*old(self), *final(self), target),
    {
        let ghost old_cs = self.cursors.cursors@;
        let ghost t = self.content@;
        let ghost top = self.viewport_position_row as int;
        self.cursors.deselect_all();
        let ghost des = self.cursors.cursors@;
        proof {
            assert(des =~= deselected(old_cs));
            assert forall|i: int| 0 <= i < des.len() implies #[trigger] des[i].valid_in(self.content@) by {
                assert(old_cs[i].valid_in(self.content@));
            }
        }
        let n = self.cursors.cursors.len();
        let mut moved: Vec<Cursor> = Vec::new();
        let mut i: usize = 0;
        while i < n
            invariant
                self.content.wf(),
                self.cursors.cursors@ == des,
                n == des.len(),
                cursors_valid(des, self.content@),
                i <= n,
                moved@.len() == i,
                forall|j: int| 0 <= j < i ==> #[trigger] moved@[j] == spec_move_to(self.content@, des[j], target),
                forall|j: int| 0 <= j < i ==> (#[trigger] moved@[j]).valid_in(self.content@),
            decreases n - i,
        {
            let mut c = self.cursors.cursors[i];
            proof {
                assert(des[i as int].valid_in(self.content@));
            }
            c.move_to(&self.content, target);
            moved.push(c);
            i = i + 1;
        }
        proof {
            assert(moved@ =~= moved_cursors(t, des, target));
            assert(moved@.take(0) =~= Seq::<Cursor>::empty());
        }
        let mut k: usize = 0;
        while k < n
            invariant
                self.wf(),
                n == moved@.len(),
                k <= n,
                t == self.content@,
                moved@ == moved_cursors(t, des, target),
                forall|j: int| 0 <= j < n ==> (#[trigger] moved@[j]).valid_in(t),
                *self == (Pane {
                    cursors: self.cursors,
                    viewport_position_row: self.viewport_position_row,
                    ..*old(self)
                }),
                self.cursors.primary_index == old(self).cursors.primary_index,
                spawned(t, des, moved@.take(k as int), top, old(self).viewport_height as int) == (
                    self.cursors.cursors@,
                    self.viewport_position_row as int,
                ),
            decreases n - k,
        {
            let c = moved[k];
            let ghost before = self.cursors.cursors@;
            let added = self.cursors.spawn_new(c);
            proof {
                assert(moved@.take(k + 1).drop_last() =~= moved@.take(k as int));
                assert(moved@.take(k + 1).last() == c);
                assert(moved@[k as int].valid_in(self.content@));
                if added {
                    assert forall|j: int| 0 <= j < self.cursors.cursors@.len() implies #[trigger] self.cursors.cursors@[j].valid_in(
                        self.content@,
                    ) by {
                        if j < before.len() {
                            assert(cursors_valid(before, self.content@));
                            assert(before[j].valid_in(self.content@));
                        }
                    }
                }
            }
            if added {
                let line = c.current_line_number(&self.content);
                self.adjust_viewport_to_show_line(line);
            }
            k = k + 1;
        }
        proof {
            assert(moved@.take(n as int) =~= moved@);
        }
    }

    /// The text that a new line starts with at `offset`: the line ending of
    /// the settings, then the spaces and tabs that begin the current line, up
    /// to the offset.
    fn newline_text(&self, offset: ByteOffset, eol: &str) -> (r: String)
        requires
            self.content.wf(),
            on_boundary(self.content@, offset.0 as int),
        ensures
            encode_utf8(r@) == encode_utf8(eol@) + indent_bytes(self.content@, offset.0 as int),
    {
        let c = Cursor::new_with_offset(offset);
        let ls = c.line_start(&self.content);
        let mut k = ls.0;
        let ghost t = self.content@;
        while k < offset.0 && (self.content.byte(ByteOffset(k)) == 32u8 || self.content.byte(ByteOffset(k)) == 9u8)
            invariant
                self.content.wf(),
                t == self.content@,
                ls.0 <= k <= offset.0,
                offset.0 <= t.len(),
                on_boundary(t, k as int),
                indent_end(t, ls.0 as int, offset.0 as int) == indent_end(t, k as int, offset.0 as int),
            decreases offset.0 - k,
        {
            proof {
                crate::batches::lemma_ascii_step(t, k as int);
            }
            k = k + 1;
        }
        let indent = self.content.slice(&(ls..ByteOffset(k)));
        let mut out = String::new();
        crate::strings::push_str(&mut out, eol);
        crate::strings::push_str(&mut out, indent.as_str());
        proof {
            crate::text::lemma_encode_concat(eol@, indent@);
        }
        out
    }

    /// Starts a new line at every cursor, in place of its selection: just
    /// the line ending, or, when indentation is kept, the line ending and
    /// the indentation of the current line. The selections go.
    pub fn insert_newline(&mut self) -> (r: Option<usize>)
        requires
            old(self).wf(),
        ensures
            final(self).wf(),
            after_batch(*old(self), newline_batch(*old(self)), *final(self), r, true),
    {
        let eol = self.settings.end_of_line.as_str();
        match self.settings.autoindent {
            AutoIndent::Off => self.insert_text(eol),
            AutoIndent::Keep => {
                let n = self.cursors.cursors.len();
                let ghost nc = newline_clips(self.content@, self.cursors.cursors@, eol@);
                let mut texts: Vec<String> = Vec::new();
                let mut i: usize = 0;
                while i < n
                    invariant
                        self.wf(),
                        n == self.cursors.cursors@.len(),
                        nc == newline_clips(self.content@, self.cursors.cursors@, eol@),
                        i <= n,
                        texts@.len() == i,
                        forall|j: int| 0 <= j < i ==> encode_utf8(#[trigger] texts@[j]@) == nc[j],
                    decreases n - i,
                {
                    let c = self.cursors.cursors[i];
                    proof {
                        assert(self.cursors.cursors@[i as int].valid_in(self.content@));
                    }
                    texts.push(self.newline_text(c.offset, eol));
                    i = i + 1;
                }
                let edits = EditBatch::insert_from_clipboard(&self.cursors, texts.as_slice());
                proof {
                    assert(texts@.map_values(|c: String| encode_utf8(c@)) =~= nc);
                }
                self.edit_then_deselect(edits)
            },
        }
    }

    /// The start of the word before the primary cursor: the ASCII letters,
    /// digits and underscores that end at it.
    fn stem_start(&self) -> (r: usize)
        requires
            self.wf(),
        ensures
            r == stem_begin(self.content@, self.cursors.spec_primary().offset.0 as int),
            r <= self.cursors.spec_primary().offset.0,
            on_boundary(self.content@, r as int),
    {
        proof {
            assert(self.cursors.cursors@[self.cursors.primary_index as int].valid_in(self.content@));
        }
        let end = self.cursors.primary().offset.0;
        let mut start = end;
        let ghost t = self.content@;
        while start > 0 && is_word_byte(self.content.byte(ByteOffset(start - 1)))
            invariant
                self.wf(),
                t == self.content@,
                start <= end <= t.len(),
                end == self.cursors.spec_primary().offset.0,
                on_boundary(t, start as int),
                stem_begin(t, end as int) == stem_begin_from(t, start as int),
            decreases start,
        {
            proof {
                crate::text::lemma_boundary_by_byte(t, start - 1);
            }
            start = start - 1;
        }
        start
    }

    /// Replaces the text from `start` to `end` with `ins`.
    fn replace_range(&mut self, start: usize, end: usize, ins: &str) -> (r: Option<usize>)
        requires
            old(self).wf(),
            start <= end,
            on_boundary(old(self).content@, start as int),
            on_boundary(old(self).content@, end as int),
        ensures
            final(self).wf(),
            after_batch(*old(self), replace_batch(start as int, end as int, ins.spec_bytes()), *final(self), r, false),
    {
        let mut edits: Vec<Edit> = Vec::new();
        edits.push(Edit::delete(ByteOffset(start), end - start));
        edits.push(Edit::insert_str(ByteOffset(start), ins));
        proof {
            assert(crate::editing::views(edits@) =~= seq![
                EditView::Delete(start as int, end as int),
                EditView::Insert(start as int, ins.spec_bytes()),
            ]);
            vstd::utf8::encode_utf8_valid_utf8(ins@);
            assert(crate::editing::all_fit(self.content@, crate::editing::views(edits@)));
        }
        let batch = EditBatch::from_edits(edits);
        self.apply_editbatch(batch)
    }

    /// Puts the completion `result` of the word from `start` to `end` in
    /// place: see `completion_applied`.
    pub fn apply_completion(&mut self, start: usize, end: usize, result: CompletionResult) -> (r: Option<usize>)
        requires
            old(self).wf(),
            start <= end,
            on_boundary(old(self).content@, start as int),
            on_boundary(old(self).content@, end as int),
            result matches CompletionResult::Menu(m) ==> m.wf(),
        ensures
            final(self).wf(),
            completion_applied(*old(self), start as int, end as int, result.view(), *final(self), r),
    {
        match result {
            CompletionResult::NoResults => {
                self.inform(String::from_str("no completions"));
                None
            },
            CompletionResult::ReplaceWith(ins) => self.replace_range(start, end, ins.as_str()),
            CompletionResult::Menu(menu) => {
                let ins = crate::strings::to_owned_string(menu.current());
                self.suggestions = Some(menu);
                self.replace_range(start, end, ins.as_str())
            },
        }
    }

    /// Completes the word before the single cursor, when there is one
    /// cursor and no selection: see `autocompleted`. Otherwise nothing
    /// happens.
    pub fn autocomplete(&mut self) -> (r: Option<usize>)
        requires
            old(self).wf(),
        ensures
            final(self).wf(),
            old(self).cursors.cursors@.len() != 1 || old(self).cursors.spec_primary().selection_from is Some
                ==> *final(self) == *old(self) && r is None,
            old(self).cursors.cursors@.len() == 1 && old(self).cursors.spec_primary().selection_from is None
                ==> autocompleted(*old(self), *final(self), r),
    {
        if self.cursors.cursor_count() != 1 || self.cursors.primary().has_selection() {
            return None;
        }
        let start = self.stem_start();
        let end = self.cursors.primary().offset.0;
        proof {
            assert(self.cursors.cursors@[self.cursors.primary_index as int].valid_in(self.content@));
        }
        let stem = self.content.slice(&(ByteOffset(start)..ByteOffset(end)));
        proof {
            vstd::utf8::encode_utf8_decode_utf8(stem@);
        }
        let result = self.completer.complete(stem.as_str());
        proof {
            if result is Menu {
                assert(result.view() is Menu);
            }
        }
        self.apply_completion(start, end, result)
    }

    /// Accepts a completion of the word before the primary cursor: see
    /// `accepted`.
    pub fn accept_suggestion(&mut self) -> (r: Option<usize>)
        requires
            old(self).wf(),
        ensures
            final(self).wf(),
            accepted(*old(self), *final(self), r),
    {
        let start = self.stem_start();
        let end = self.cursors.primary().offset.0;
        proof {
            assert(self.cursors.cursors@[self.cursors.primary_index as int].valid_in(self.content@));
        }
        let stem = self.content.slice(&(ByteOffset(start)..ByteOffset(end)));
        proof {
            vstd::utf8::encode_utf8_decode_utf8(stem@);
        }
        let result = self.completer.accept(stem.as_str());
        match result {
            CompletionResult::Menu(_) => None,
            _ => self.apply_completion(start, end, result),
        }
    }

    /// Moves to the next (or previous) suggestion of the open menu and
    /// puts it in place of the current one, which ends at the primary
    /// cursor: see `cycled`.
    pub fn cycle_suggestion(&mut self, forward: bool) -> (r: Option<usize>)
        requires
            old(self).wf(),
        ensures
            final(self).wf(),
            cycled(*old(self), *final(self), forward, r),
    {
        let mut menu = match self.suggestions.take() {
            Some(m) => m,
            None => return None,
        };
        proof {
            assert(self.cursors.cursors@[self.cursors.primary_index as int].valid_in(self.content@));
        }
        let stem_length = menu.current().as_bytes().len();
        let end = self.cursors.primary().offset.0;
        if stem_length > end || !self.content.is_char_boundary(ByteOffset(end - stem_length)) {
            self.suggestions = Some(menu);
            return None;
        }
        let start = end - stem_length;
        if forward {
            menu.cycle_next();
        } else {
            menu.cycle_previous();
        }
        let ins = crate::strings::to_owned_string(menu.current());
        self.suggestions = Some(menu);
        self.replace_range(start, end, ins.as_str())
    }

    /// Tab: see `tabbed`.
    pub fn tab(&mut self) -> (r: Option<usize>)
        requires
            old(self).wf(),
        ensures
            final(self).wf(),
            tabbed(*old(self), *final(self), r),
    {
        if self.suggestions.is_some() {
            return self.cycle_suggestion(true);
        }
        proof {
            assert(self.cursors.cursors@[self.cursors.primary_index as int].valid_in(self.content@));
        }
        let at_line_start = self.cursors.primary().line_start(&self.content).0 == self.cursors.primary().offset.0;
        if self.any_selection() || at_line_start {
            self.indent()
        } else {
            self.autocomplete()
        }
    }

    /// Shift-Tab: cycles an open menu backward, otherwise dedents.
    pub fn back_tab(&mut self) -> (r: Option<usize>)
        requires
            old(self).wf(),
        ensures
            final(self).wf(),
            old(self).suggestions is Some ==> cycled(*old(self), *final(self), false, r),
            old(self).suggestions is None ==> dedented(*old(self), *final(self), r),
    {
        if self.suggestions.is_some() {
            self.cycle_suggestion(false)
        } else {
            self.dedent()
        }
    }

    /// A pane for the file at `path`, holding `text` (empty for a file that
    /// does not exist yet), with the given settings. With a line, the cursor
    /// goes to that line and column (the first column without one) and the
    /// view starts three lines above it.
    pub fn for_file(path: &str, text: &str, settings: PaneSettings, line: Option<usize>, column: Option<usize>) -> (p: Pane)
        ensures
            p.wf(),
            p.content@ == text.spec_bytes(),
            p.path matches Some(q) && q@ == path@,
            p.title@ == quoted_path(path@),
            p.settings == settings,
            !p.modified,
            line is None ==> p.cursors.cursors@ == seq![
                Cursor { offset: ByteOffset(0), selection_from: None, memorized_column: None },
            ] && p.viewport_position_row == 0,
            line matches Some(l) ==> p.cursors.cursors@ == seq![
                spec_move_to(
                    text.spec_bytes(),
                    Cursor { offset: ByteOffset(0), selection_from: None, memorized_column: None },
                    MoveTarget::Location(l, match column { Some(c) => c, None => 1 }),
                ),
            ] && p.viewport_position_row == sat_sub(line_of(text.spec_bytes(), p.cursors.cursors@[0].offset.0 as int), 3),
    {
        let mut pane = Pane::empty();
        pane.content = RopeBuffer::from_str(text);
        proof {
            vstd::utf8::is_char_boundary_start_end_of_seq(pane.content@);
            assert(pane.cursors.cursors@[0].valid_in(pane.content@));
        }
        pane.path = Some(crate::strings::to_owned_string(path));
        pane.title = crate::quoting::quote_path(path);
        pane.settings = settings;
        if let Some(line_no) = line {
            let column_no = match column {
                Some(c) => c,
                None => 1,
            };
            let cursor = pane.cursors.primary_mut();
            cursor.move_to(&pane.content, MoveTarget::Location(line_no, column_no));
            proof {
                assert(pane.cursors.cursors@[0].valid_in(pane.content@));
            }
            let cursor_line_no = pane.cursors.primary().current_line_number(&pane.content);
            pane.viewport_position_row = cursor_line_no.saturating_sub(3);
        }
        pane
    }

    /// Carries out a pane action. Every action but scrolling, Tab, Shift-Tab
    /// and cycling through suggestions closes the menu of suggestions first.
    /// Returns the first line whose highlighting the action made stale.
    pub fn handle_event(&mut self, event: PaneAction) -> (r: Option<usize>)
        requires
            old(self).wf(),
            event matches PaneAction::ScrollDown(n) ==> old(self).viewport_position_row + n <= usize::MAX,
        ensures
            final(self).wf(),
            handled(*old(self), event, *final(self), r),
    {
        let keep = match event {
            PaneAction::ScrollDown(_) => true,
            PaneAction::ScrollUp(_) => true,
            PaneAction::Tab => true,
            PaneAction::BackTab => true,
            PaneAction::AutocompleteCyclePrevious => true,
            PaneAction::AutocompleteCycleNext => true,
            _ => false,
        };
        if !keep {
            self.suggestions = None;
        }
        let ghost base = *self;
        match event {
            PaneAction::MoveTo(target) => {
                self.move_cursors(target);
                None
            },
            PaneAction::SpawnMultiCursorTo(target) => {
                self.spawn_cursors_to(target);
                None
            },
            PaneAction::SelectTo(target) => {
                self.select_cursors(target);
                None
            },
            PaneAction::SelectAll => {
                self.select_all();
                None
            },
            PaneAction::Insert(s) => self.insert_text(s.as_str()),
            PaneAction::InsertNewline => self.insert_newline(),
            PaneAction::DeleteBackward => self.delete_backward(),
            PaneAction::DeleteForward => self.delete_forward(),
            PaneAction::DeleteWord => self.delete_word(),
            PaneAction::Indent => self.indent(),
            PaneAction::Dedent => self.dedent(),
            PaneAction::MoveLinesUp => None,
            PaneAction::MoveLinesDown => None,
            PaneAction::Undo => {
                self.undo();
                None
            },
            PaneAction::Redo => {
                self.redo();
                None
            },
            PaneAction::Find(needle) => {
                self.find(needle);
                None
            },
            PaneAction::RepeatFind => {
                self.repeat_find(false);
                None
            },
            PaneAction::RepeatFindBackward => {
                self.repeat_find(true);
                None
            },
            PaneAction::QuickAddNext => {
                self.quick_add_next();
                None
            },
            PaneAction::ScrollDown(n) => {
                self.scroll_down(n);
                None
            },
            PaneAction::ScrollUp(n) => {
                self.scroll_up(n);
                None
            },
            PaneAction::Tab => self.tab(),
            PaneAction::BackTab => self.back_tab(),
            PaneAction::Autocomplete => self.autocomplete(),
            PaneAction::AutocompleteAcceptSuggestion => self.accept_suggestion(),
            PaneAction::AutocompleteCycleNext => self.cycle_suggestion(true),
            PaneAction::AutocompleteCyclePrevious => self.cycle_suggestion(false),
        }
    }
}

/// The actions that leave the menu of suggestions open.
pub open spec fn keeps_suggestions(e: PaneAction) -> bool {
    match e {
        PaneAction::ScrollDown(_) => true,
        PaneAction::ScrollUp(_) => true,
        PaneAction::Tab => true,
        PaneAction::BackTab => true,
        PaneAction::AutocompleteCyclePrevious => true,
        PaneAction::AutocompleteCycleNext => true,
        _ => false,
    }
}

/// The batch that starts a new line at every cursor of `p`: the line
/// ending, followed, when indentation is kept, by the indentation of the
/// current line.
pub open spec fn newline_batch(p: Pane) -> Seq<EditView> {
    let eol = line_ending_chars(p.settings.end_of_line);
    match p.settings.autoindent {
        AutoIndent::Off => typing_batch(p.cursors.cursors@, encode_utf8(eol)),
        AutoIndent::Keep => truncate_deletions(sort_edits(clip_edits(
            p.cursors.cursors@,
            newline_clips(p.content@, p.cursors.cursors@, eol),
            p.cursors.cursors@.len() as int,
        ))),
    }
}

/// What a pane action does to a pane. `p` is the pane once the menu of
/// suggestions is closed, where the action closes it.
pub open spec fn handled(old: Pane, e: PaneAction, new: Pane, r: Option<usize>) -> bool {
    let p = if keeps_suggestions(e) {
        old
    } else {
        Pane { suggestions: None, ..old }
    };
    let cs = p.cursors.cursors@;
    let n = cs.len() as int;
    &&& (!edits_text(e) ==> r is None)
    &&& match e {
        PaneAction::MoveTo(t) => cursors_changed(p, new, moved_cursors(p.content@, cs, t), p.cursors.primary_index as int),
        PaneAction::SelectTo(t) => cursors_changed(p, new, selected_cursors(p.content@, cs, t), p.cursors.primary_index as int),
        PaneAction::SpawnMultiCursorTo(t) => spawned_to(p, new, t),
        PaneAction::SelectAll => {
            &&& new.cursors.cursors@ == seq![
                spec_select_to(
                    p.content@,
                    Cursor { offset: ByteOffset(0), selection_from: None, memorized_column: p.cursors.spec_primary().memorized_column },
                    MoveTarget::End,
                ),
            ]
            &&& new.cursors.primary_index == 0
            &&& new == (Pane { cursors: new.cursors, ..p })
        },
        PaneAction::Insert(s) => after_batch(p, typing_batch(cs, encode_utf8(s@)), new, r, true),
        PaneAction::InsertNewline => after_batch(p, newline_batch(p), new, r, true),
        PaneAction::DeleteBackward => after_batch(p, truncate_deletions(sort_edits(backward_edits(p.content@, cs, n))), new, r, true),
        PaneAction::DeleteForward => after_batch(p, truncate_deletions(sort_edits(forward_edits(p.content@, cs, n))), new, r, true),
        PaneAction::DeleteWord => after_batch(p, truncate_deletions(sort_edits(word_edits(p.content@, cs, n))), new, r, true),
        PaneAction::Indent => after_batch(p, indent_batch(p), new, r, false),
        PaneAction::Dedent => dedented(p, new, r),
        PaneAction::MoveLinesUp => new == p,
        PaneAction::MoveLinesDown => new == p,
        PaneAction::Undo => history_stepped(p, new, false),
        PaneAction::Redo => history_stepped(p, new, true),
        PaneAction::Find(needle) => new.last_search == Some(needle) && search_done(
            p,
            Pane { last_search: p.last_search, ..new },
            encode_utf8(needle@),
            false,
        ),
        PaneAction::RepeatFind => match p.last_search {
            None => new == p,
            Some(needle) => search_done(p, new, encode_utf8(needle@), false),
        },
        PaneAction::RepeatFindBackward => match p.last_search {
            None => new == p,
            Some(needle) => search_done(p, new, encode_utf8(needle@), true),
        },
        PaneAction::QuickAddNext => quick_added(p, new),
        PaneAction::ScrollDown(k) => new == (Pane {
            viewport_position_row: (if p.viewport_position_row + k < line_count(p.content@) - 1 {
                p.viewport_position_row + k
            } else {
                line_count(p.content@) - 1
            }) as usize,
            ..p
        }),
        PaneAction::ScrollUp(k) => new == (Pane {
            viewport_position_row: sat_sub(p.viewport_position_row as int, k as int) as usize,
            ..p
        }),
        PaneAction::Tab => tabbed(p, new, r),
        PaneAction::BackTab => if p.suggestions is Some {
            cycled(p, new, false, r)
        } else {
            dedented(p, new, r)
        },
        PaneAction::Autocomplete => if n != 1 || p.cursors.spec_primary().selection_from is Some {
            new == p && r is None
        } else {
            autocompleted(p, new, r)
        },
        PaneAction::AutocompleteAcceptSuggestion => accepted(p, new, r),
        PaneAction::AutocompleteCycleNext => cycled(p, new, true, r),
        PaneAction::AutocompleteCyclePrevious => cycled(p, new, false, r),
    }
}

/// The actions that may edit the text, and then name the first line whose
/// highlighting is stale.
pub open spec fn edits_text(e: PaneAction) -> bool {
    match e {
        PaneAction::Insert(_) => true,
        PaneAction::InsertNewline => true,
        PaneAction::DeleteBackward => true,
        PaneAction::DeleteForward => true,
        PaneAction::DeleteWord => true,
        PaneAction::Indent => true,
        PaneAction::Dedent => true,
        PaneAction::Tab => true,
        PaneAction::BackTab => true,
        PaneAction::Autocomplete => true,
        PaneAction::AutocompleteAcceptSuggestion => true,
        PaneAction::AutocompleteCycleNext => true,
        PaneAction::AutocompleteCyclePrevious => true,
        _ => false,
    }
}

/// A byte that a word to complete is made of: an ASCII letter or digit, or
/// an underscore.
pub open spec fn word_byte(b: u8) -> bool {
    (0x30 <= b <= 0x39) || (0x41 <= b <= 0x5a) || (0x61 <= b <= 0x7a) || b == 0x5f
}

/// Whether the byte belongs to a word to complete.
fn is_word_byte(b: u8) -> (r: bool)
    ensures
        r == word_byte(b),
{
    (0x30 <= b && b <= 0x39) || (0x41 <= b && b <= 0x5a) || (0x61 <= b && b <= 0x7a) || b == 0x5f
}

/// Going back from `p` over word bytes.
pub open spec fn stem_begin_from(t: Seq<u8>, p: int) -> int
    decreases p,
{
    if p > 0 && p <= t.len() && word_byte(t[p - 1]) {
        stem_begin_from(t, p - 1)
    } else {
        p
    }
}

/// Where the word that ends at `p` begins.
pub open spec fn stem_begin(t: Seq<u8>, p: int) -> int {
    stem_begin_from(t, p)
}

/// Going on from `i` over spaces and tabs, not past `p`.
pub open spec fn indent_end(t: Seq<u8>, i: int, p: int) -> int
    decreases p - i,
{
    if i < p && i < t.len() && (t[i] == 32u8 || t[i] == 9u8) {
        indent_end(t, i + 1, p)
    } else {
        i
    }
}

/// The spaces and tabs that begin the line of `p`, up to `p`.
pub open spec fn indent_bytes(t: Seq<u8>, p: int) -> Seq<u8> {
    let ls = spec_line_start(t, p);
    t.subrange(ls, indent_end(t, ls, p))
}

/// What each cursor inserts to start a new line that keeps the
/// indentation.
pub open spec fn newline_clips(t: Seq<u8>, cs: Seq<Cursor>, eol: Seq<char>) -> Seq<Seq<u8>> {
    Seq::new(cs.len(), |i: int| encode_utf8(eol) + indent_bytes(t, cs[i].offset.0 as int))
}

impl Pane {
    /// Puts `texts`, in order, in place of the selections, in cursor order,
    /// then removes the selections. Without a selection, or with a different
    /// number of texts, nothing changes.
    pub fn replace_selections(&mut self, texts: &[String]) -> (r: Option<usize>)
        requires
            old(self).wf(),
        ensures
            final(self).wf(),
            !has_selection(old(self).cursors.cursors@) || texts@.len() != selection_count(
                old(self).cursors.cursors@,
                old(self).cursors.cursors@.len() as int,
            ) ==> *final(self) == *old(self) && r is None,
            has_selection(old(self).cursors.cursors@) && texts@.len() == selection_count(
                old(self).cursors.cursors@,
                old(self).cursors.cursors@.len() as int,
            ) ==> after_batch(
                *old(self),
                truncate_deletions(sort_edits(clip_edits(
                    old(self).cursors.cursors@,
                    replacement_clips(old(self).cursors.cursors@, string_views(texts@)),
                    old(self).cursors.cursors@.len() as int,
                ))),
                *final(self),
                r,
                true,
            ),
    {
        if !self.any_selection() {
            return None;
        }
        let n = self.cursors.cursors.len();
        let ghost cs = self.cursors.cursors@;
        let ghost rc = replacement_clips(cs, string_views(texts@));
        let mut clips: Vec<String> = Vec::new();
        let mut k: usize = 0;
        let mut i: usize = 0;
        while i < n
            invariant
                *self == *old(self),
                old(self).wf(),
                n == cs.len(),
                cs == self.cursors.cursors@,
                rc == replacement_clips(cs, string_views(texts@)),
                i <= n,
                k == selection_count(cs, i as int),
                k <= i,
                clips@.len() == i,
                forall|j: int| 0 <= j < i ==> encode_utf8(#[trigger] clips@[j]@) == rc[j],
            decreases n - i,
        {
            proof {
                lemma_selection_count_step(cs, i as int);
            }
            if self.cursors.cursors[i].has_selection() {
                if k >= texts.len() {
                    proof {
                        lemma_selection_count_grows(cs, i as int + 1, n as int);
                    }
                    return None;
                }
                clips.push(crate::strings::to_owned_string(texts[k].as_str()));
                k = k + 1;
            } else {
                clips.push(String::new());
                proof {
                    assert(encode_utf8(clips@[i as int]@) =~= Seq::<u8>::empty()) by {
                        reveal_with_fuel(encode_utf8, 1);
                    }
                }
            }
            i = i + 1;
        }
        if k != texts.len() {
            return None;
        }
        let edits = EditBatch::insert_from_clipboard(&self.cursors, clips.as_slice());
        proof {
            assert(clips@.map_values(|c: String| encode_utf8(c@)) =~= rc);
        }
        self.edit_then_deselect(edits)
    }

    /// Takes the lints found for this pane's file: the cursors collapse to
    /// the place of the first error, if there is one; a message says how
    /// many lints there are.
    pub fn receive_lints(&mut self, lints: Vec<Lint>)
        requires
            old(self).wf(),
        ensures
            final(self).wf(),
            lints_received(*old(self), lints@, *final(self)),
    {
        let n = lints.len();
        let ghost lf = lint_fields(lints@);
        let mut i: usize = 0;
        let mut target: Option<MoveTarget> = None;
        while i < n
            invariant_except_break
                target is None,
                first_error(lf, i as int) is None,
            invariant
                lf == lint_fields(lints@),
                n == lints@.len(),
                i <= n,
            ensures
                target is None ==> first_error(lf, n as int) is None,
                target matches Some(t) ==> first_error(lf, n as int) matches Some(k) && 0 <= k < n && t
                    == error_target(lf[k]),
            decreases n - i,
        {
            proof {
                assert(lf[i as int] == lints@[i as int].spec_fields());
            }
            if lints[i].is_error() {
                target = lints[i].location();
                proof {
                    assert(first_error(lf, i + 1) == Some(i as int));
                    lemma_first_error_stable(lf, i + 1, n as int);
                }
                break;
            }
            i = i + 1;
        }
        if let Some(t) = target {
            self.cursors.esc();
            proof {
                assert(self.cursors.cursors@[0].valid_in(self.content@)) by {
                    assert(old(self).cursors.cursors@[old(self).cursors.primary_index as int].valid_in(self.content@));
                }
            }
            let ghost esc_primary = self.cursors.spec_primary();
            let cursor = self.cursors.primary_mut();
            cursor.move_to(&self.content, t);
            proof {
                assert(esc_primary == Cursor { selection_from: None, ..old(self).cursors.spec_primary() });
                assert(self.cursors.cursors@ =~= seq![spec_move_to(self.content@, esc_primary, t)]);
                assert(cursors_valid(self.cursors.cursors@, self.content@));
            }
            self.adjust_viewport();
        }
        let mut m = String::new();
        crate::strings::push_str(&mut m, "linted (");
        crate::numbers::push_decimal(&mut m, n);
        crate::strings::push_str(&mut m, " lint(s) in current file)");
        self.inform(m);
        self.lints = lints;
    }

    /// The text to write to the file: each line with its trailing
    /// whitespace trimmed when the settings say so, its line ending replaced
    /// by that of the settings when they normalize line endings, and a line
    /// ending added to a last line without one when they ask for a final
    /// newline.
    pub fn file_text(&self) -> (r: String)
        requires
            self.content.wf(),
        ensures
            r@ == saved_lines(self.content@, self.settings, line_count(self.content@)),
    {
        let n = self.content.len_lines();
        let mut out = String::new();
        let mut l: usize = 0;
        while l < n
            invariant
                self.content.wf(),
                n == line_count(self.content@),
                l <= n,
                out@ == saved_lines(self.content@, self.settings, l as int),
            decreases n - l,
        {
            let a = self.content.line_to_byte(l);
            let b = self.content.line_to_byte(l + 1);
            if a.0 <= b.0 {
                let full = self.content.slice(&(a..b));
                proof {
                    vstd::utf8::encode_utf8_decode_utf8(full@);
                }
                let piece = saved_line_text(full.as_str(), &self.settings);
                crate::strings::push_str(&mut out, piece.as_str());
            }
            l = l + 1;
        }
        out
    }
}

impl Pane {
    /// What saving writes, and where: the path and the text of the file.
    /// Without a path there is nothing to save, and a message says so.
    pub fn prepare_save(&mut self) -> (r: Option<(String, String)>)
        requires
            old(self).wf(),
        ensures
            final(self).wf(),
            old(self).path is None ==> r is None && *final(self) == (Pane {
                info: Some(final(self).info->0),
                ..*old(self)
            }) && final(self).info->0@ == "Unable to save: no file specified"@,
            old(self).path matches Some(p) ==> *final(self) == *old(self) && (r matches Some(w) && w.0@ == p@
                && w.1@ == saved_lines(old(self).content@, old(self).settings, line_count(old(self).content@))),
    {
        match &self.path {
            Some(p) => {
                let path = crate::strings::to_owned_string(p.as_str());
                let text = self.file_text();
                Some((path, text))
            },
            None => {
                self.inform(String::from_str("Unable to save: no file specified"));
                None
            },
        }
    }

    /// Records how saving went: on success the pane is no longer modified
    /// and says where it was saved; otherwise the message says why not.
    pub fn finish_save(&mut self, result: Result<(), SaveFailure>)
        requires
            old(self).wf(),
        ensures
            final(self).wf(),
            *final(self) == (Pane { modified: final(self).modified, info: final(self).info, ..*old(self) }),
            result is Ok ==> !final(self).modified,
            result is Err ==> final(self).modified == old(self).modified,
            final(self).info matches Some(m) && m@ == match result {
                Ok(_) => "Saved "@ + quoted_path(match old(self).path {
                    Some(p) => p@,
                    None => seq![],
                }),
                Err(SaveFailure::CannotOpen(e)) => "Unable to save: "@ + e@,
                Err(SaveFailure::CannotWrite(e)) => "Failed to save: "@ + e@,
            },
    {
        let mut m = String::new();
        match result {
            Ok(()) => {
                self.modified = false;
                push_str(&mut m, "Saved ");
                let q = match &self.path {
                    Some(p) => crate::quoting::quote_path(p.as_str()),
                    None => crate::quoting::quote_path(""),
                };
                push_str(&mut m, q.as_str());
                proof {
                    reveal_strlit("");
                }
            },
            Err(SaveFailure::CannotOpen(e)) => {
                push_str(&mut m, "Unable to save: ");
                push_str(&mut m, e.as_str());
            },
            Err(SaveFailure::CannotWrite(e)) => {
                push_str(&mut m, "Failed to save: ");
                push_str(&mut m, e.as_str());
            },
        }
        self.inform(m);
    }

    /// Gives the pane a new file path: when it differs from the old one,
    /// the title follows it. Returns whether it changed, and so whether the
    /// highlighting has to follow the new file.
    pub fn set_path(&mut self, path: &str) -> (changed: bool)
        ensures
            changed == !(old(self).path matches Some(p) && p@ == path@),
            changed ==> (final(self).path matches Some(p) && p@ == path@),
            changed ==> final(self).title@ == quoted_path(path@),
            changed ==> *final(self) == (Pane { path: final(self).path, title: final(self).title, ..*old(self) }),
            !changed ==> *final(self) == *old(self),
    {
        let same = match &self.path {
            Some(p) => crate::strings::chars_eq(chars_of(p.as_str()).as_slice(), chars_of(path).as_slice()),
            None => false,
        };
        if same {
            return false;
        }
        self.path = Some(crate::strings::to_owned_string(path));
        self.title = crate::quoting::quote_path(path);
        true
    }
}

/// Why saving failed: the file could not be opened for writing, or writing
/// to it failed; each with the system's message.
#[derive(Debug)]
pub enum SaveFailure {
    CannotOpen(String),
    CannotWrite(String),
}

/// Why opening a file failed.
#[derive(Debug)]
pub enum OpenFailure {
    PermissionDenied,
    IsADirectory,
    /// Any other error, with the system's message.
    Other(String),
}

/// The message for a file that could not be opened.
pub fn open_failure_message(failure: &OpenFailure, path: &str) -> (m: String)
    ensures
        m@ == match failure {
            OpenFailure::PermissionDenied => "Permission denied: "@ + quoted_path(path@),
            OpenFailure::IsADirectory => "Can not open a directory: "@ + quoted_path(path@),
            OpenFailure::Other(e) => e@ + ": "@ + quoted_path(path@),
        },
{
    let q = crate::quoting::quote_path(path);
    let mut m = String::new();
    match failure {
        OpenFailure::PermissionDenied => push_str(&mut m, "Permission denied: "),
        OpenFailure::IsADirectory => push_str(&mut m, "Can not open a directory: "),
        OpenFailure::Other(e) => {
            push_str(&mut m, e.as_str());
            push_str(&mut m, ": ");
        },
    }
    push_str(&mut m, q.as_str());
    proof {
        assert(m@ =~= match failure {
            OpenFailure::PermissionDenied => "Permission denied: "@ + quoted_path(path@),
            OpenFailure::IsADirectory => "Can not open a directory: "@ + quoted_path(path@),
            OpenFailure::Other(e) => e@ + ": "@ + quoted_path(path@),
        });
    }
    m
}

/// The chars of line `l`.
pub open spec fn line_chars(t: Seq<u8>, l: int) -> Seq<char> {
    let a = line_start(t, l);
    let b = line_start(t, l + 1);
    if a <= b {
        decode_utf8(t.subrange(a, b))
    } else {
        seq![]
    }
}

/// The first `n` lines as they are written to the file.
pub open spec fn saved_lines(t: Seq<u8>, s: PaneSettings, n: int) -> Seq<char>
    decreases n,
{
    if n <= 0 {
        seq![]
    } else {
        saved_lines(t, s, n - 1) + saved_line(line_chars(t, n - 1), s)
    }
}

/// A char that ends a line.
pub open spec fn is_line_end(c: char) -> bool {
    c == '\u{000A}' || c == '\u{000D}' || c == '\u{000B}' || c == '\u{000C}' || c == '\u{0085}' || c == '\u{2028}'
        || c == '\u{2029}'
}

/// `s` without its trailing whitespace (as `str::trim_end`).
pub open spec fn trim_end(s: Seq<char>) -> Seq<char>
    decreases s.len(),
{
    if s.len() > 0 && is_whitespace(s.last()) {
        trim_end(s.drop_last())
    } else {
        s
    }
}

/// One line as it is written to the file.
pub open spec fn saved_line(full: Seq<char>, s: PaneSettings) -> Seq<char> {
    let eol = line_ending_chars(s.end_of_line);
    if full.len() >= 2 && full[full.len() - 2] == '\r' && full.last() == '\n' {
        let body = full.drop_last().drop_last();
        (if s.trim_trailing_whitespace {
            trim_end(body)
        } else {
            body
        }) + (if s.normalize_end_of_line {
            eol
        } else {
            seq!['\r', '\n']
        })
    } else if full.len() > 0 && is_line_end(full.last()) {
        let body = full.drop_last();
        (if s.trim_trailing_whitespace {
            trim_end(body)
        } else {
            body
        }) + (if s.normalize_end_of_line {
            eol
        } else {
            seq![full.last()]
        })
    } else if full.len() > 0 {
        full + (if s.insert_final_newline {
            eol
        } else {
            seq![]
        })
    } else {
        seq![]
    }
}

/// The chars before the trailing whitespace.
fn trim_end_chars(cs: &[char], n: usize) -> (r: usize)
    requires
        n <= cs@.len(),
    ensures
        r <= n,
        cs@.take(r as int) == trim_end(cs@.take(n as int)),
{
    let mut k = n;
    while k > 0 && crate::chars::char_is_whitespace(cs[k - 1])
        invariant
            k <= n <= cs@.len(),
            trim_end(cs@.take(n as int)) == trim_end(cs@.take(k as int)),
        decreases k,
    {
        proof {
            assert(cs@.take(k as int).drop_last() =~= cs@.take(k - 1));
            assert(cs@.take(k as int).last() == cs@[k - 1]);
        }
        k = k - 1;
    }
    proof {
        if k > 0 {
            assert(cs@.take(k as int).last() == cs@[k - 1]);
        }
    }
    k
}

/// One line as it is written to the file.
fn saved_line_text(full: &str, s: &PaneSettings) -> (r: String)
    ensures
        r@ == saved_line(full@, *s),
{
    let cs = chars_of(full);
    let n = cs.len();
    let eol = s.end_of_line.as_str();
    let mut out = String::new();
    let crlf = n >= 2 && cs[n - 2] == '\r' && cs[n - 1] == '\n';
    let other_end = n > 0 && {
        let c = cs[n - 1];
        c == '\u{000A}' || c == '\u{000D}' || c == '\u{000B}' || c == '\u{000C}' || c == '\u{0085}' || c == '\u{2028}'
            || c == '\u{2029}'
    };
    if crlf || other_end {
        let body_len: usize = if crlf {
            n - 2
        } else {
            n - 1
        };
        let keep = if s.trim_trailing_whitespace {
            trim_end_chars(cs.as_slice(), body_len)
        } else {
            body_len
        };
        let body = crate::charseq::sub_vec(cs.as_slice(), 0, keep);
        push_str(&mut out, string_of(body.as_slice()).as_str());
        if s.normalize_end_of_line {
            push_str(&mut out, eol);
        } else if crlf {
            push_char(&mut out, '\r');
            push_char(&mut out, '\n');
        } else {
            push_char(&mut out, cs[n - 1]);
        }
        proof {
            let full_s = full@;
            let b = if crlf {
                full_s.drop_last().drop_last()
            } else {
                full_s.drop_last()
            };
            assert(b =~= cs@.take(body_len as int));
            assert(body@ =~= cs@.take(keep as int));
            if !s.trim_trailing_whitespace {
                assert(body@ =~= b);
            }
            assert(out@ =~= saved_line(full@, *s));
        }
    } else if n > 0 {
        push_str(&mut out, full);
        if s.insert_final_newline {
            push_str(&mut out, eol);
        }
        proof {
            assert(out@ =~= saved_line(full@, *s));
        }
    } else {
        proof {
            assert(out@ =~= saved_line(full@, *s));
        }
    }
    out
}

/// Where the cursor goes for an error lint: its line and column.
pub open spec fn error_target(l: (Seq<char>, nat, Option<nat>, Severity, Seq<char>)) -> MoveTarget {
    MoveTarget::Location(
        l.1 as usize,
        match l.2 {
            Some(c) => c as usize,
            None => 1usize,
        },
    )
}

proof fn lemma_first_error_stable(ls: Seq<(Seq<char>, nat, Option<nat>, Severity, Seq<char>)>, j: int, m: int)
    requires
        0 <= j <= m,
        first_error(ls, j) is Some,
    ensures
        first_error(ls, m) == first_error(ls, j),
    decreases m - j,
{
    if j < m {
        lemma_first_error_stable(ls, j, m - 1);
    }
}

/// The index of the first error among the first `n` lints.
pub open spec fn first_error(ls: Seq<(Seq<char>, nat, Option<nat>, Severity, Seq<char>)>, n: int) -> Option<int>
    decreases n,
{
    if n <= 0 {
        None
    } else {
        match first_error(ls, n - 1) {
            Some(k) => Some(k),
            None => if ls[n - 1].3 == Severity::Error {
                Some(n - 1)
            } else {
                None
            },
        }
    }
}

/// How many of the first `n` cursors have a selection.
pub open spec fn selection_count(cs: Seq<Cursor>, n: int) -> int
    decreases n,
{
    if n <= 0 {
        0
    } else {
        selection_count(cs, n - 1) + if cs[n - 1].selection_from is Some {
            1int
        } else {
            0int
        }
    }
}

proof fn lemma_selection_count_step(cs: Seq<Cursor>, i: int)
    requires
        0 <= i,
    ensures
        selection_count(cs, i + 1) == selection_count(cs, i) + if cs[i].selection_from is Some {
            1int
        } else {
            0int
        },
{
}

proof fn lemma_selection_count_grows(cs: Seq<Cursor>, i: int, j: int)
    requires
        0 <= i <= j,
    ensures
        selection_count(cs, i) <= selection_count(cs, j),
    decreases j - i,
{
    if i < j {
        lemma_selection_count_grows(cs, i, j - 1);
    }
}

/// What each cursor puts in place of its selection: the next of the given
/// texts, or nothing without a selection.
pub open spec fn replacement_clips(cs: Seq<Cursor>, texts: Seq<Seq<char>>) -> Seq<Seq<u8>> {
    Seq::new(
        cs.len(),
        |i: int|
            if cs[i].selection_from is Some {
                encode_utf8(texts[selection_count(cs, i)])
            } else {
                Seq::empty()
            },
    )
}

/// Some cursor has a selection.
pub open spec fn has_selection(cs: Seq<Cursor>) -> bool {
    exists|i: int| 0 <= i < cs.len() && (#[trigger] cs[i]).selection_from is Some
}

/// The views of a list of strings.
pub open spec fn string_views(v: Seq<String>) -> Seq<Seq<char>> {
    Seq::new(v.len(), |i: int| v[i]@)
}

/// The texts of the selections of the first `n` cursors, in order.
pub open spec fn selection_texts(t: Seq<u8>, cs: Seq<Cursor>, n: int) -> Seq<Seq<char>>
    decreases n,
{
    if n <= 0 {
        seq![]
    } else {
        let before = selection_texts(t, cs, n - 1);
        match spec_selection(cs[n - 1]) {
            Some((a, b)) => before.push(decode_utf8(t.subrange(a, b))),
            None => before,
        }
    }
}

/// What each cursor puts in place of its selection when `t` rewrites the
/// selections: the rewritten text, or nothing without a selection.
pub open spec fn transformed_clips(text: Seq<u8>, cs: Seq<Cursor>, t: Transform) -> Seq<Seq<u8>> {
    Seq::new(
        cs.len(),
        |i: int|
            match spec_selection(cs[i]) {
                Some((a, b)) => encode_utf8(transformed(t, decode_utf8(text.subrange(a, b)))),
                None => Seq::empty(),
            },
    )
}

/// The cursors moved toward a target.
pub open spec fn moved_cursors(t: Seq<u8>, cs: Seq<Cursor>, target: MoveTarget) -> Seq<Cursor> {
    Seq::new(cs.len(), |i: int| spec_move_to(t, cs[i], target))
}

/// The cursors with their selections extended toward a target.
pub open spec fn selected_cursors(t: Seq<u8>, cs: Seq<Cursor>, target: MoveTarget) -> Seq<Cursor> {
    Seq::new(cs.len(), |i: int| spec_select_to(t, cs[i], target))
}

/// Cursors brought back by undo or redo, or a single cursor at the start
/// where one of them is off a char boundary of the text.
pub open spec fn restored(t: Seq<u8>, cs: Seq<Cursor>) -> Seq<Cursor> {
    if cursors_valid(cs, t) {
        cs
    } else {
        seq![Cursor { offset: ByteOffset(0), selection_from: None, memorized_column: None }]
    }
}

/// Typing at cursors on char boundaries of a UTF-8 text is a batch that
/// fits the text, and undoing it gives the text back.
pub proof fn lemma_typing_undone(t: Seq<u8>, cs: Seq<Cursor>, s: Seq<char>)
    requires
        vstd::utf8::valid_utf8(t),
        cursors_valid(cs, t),
    ensures
        batch_fits(t, typing_batch(cs, encode_utf8(s))),
        apply_batch(
            apply_batch(t, typing_batch(cs, encode_utf8(s))),
            truncate_deletions(sort_edits(inverse(t, typing_batch(cs, encode_utf8(s))))),
        ) == t,
{
    vstd::utf8::encode_utf8_valid_utf8(s);
    crate::batches::lemma_insert_edits_fit(t, cs, encode_utf8(s), cs.len() as int);
    crate::editing::lemma_normalized_fits(t, insert_edits(cs, encode_utf8(s), cs.len() as int));
    crate::batch::lemma_undo_restores(t, typing_batch(cs, encode_utf8(s)));
}

/// Undoing right after an edit of a pane gives back its text, the cursors
/// it had before the edit, and its undo history.
pub proof fn lemma_pane_edit_undone(
    p0: Pane,
    b: Seq<EditView>,
    p1: Pane,
    r: Option<usize>,
    deselect: bool,
    p2: Pane,
)
    requires
        p0.wf(),
        batch_fits(p0.content@, b),
        applies(p0.content@, b),
        after_batch(p0, b, p1, r, deselect),
        history_stepped(p1, p2, false),
    ensures
        p2.content@ == p0.content@,
        p2.cursors.cursors@ == p0.cursors.cursors@,
        p2.cursors.primary_index == p0.cursors.primary_index,
        p2.content.spec_undo() == p0.content.spec_undo(),
{
    crate::batch::lemma_undo_restores(p0.content@, b);
    lemma_inserted_nonneg(b, b.len() as int);
    let top = p1.content.spec_undo().last();
    assert(top.1 == p0.cursors.cursors@);
    assert(p1.content.spec_undo().drop_last() =~= p0.content.spec_undo());
}

/// The batch that typing `s` makes: `s` at every cursor, in place of its
/// selection.
pub open spec fn typing_batch(cs: Seq<Cursor>, s: Seq<u8>) -> Seq<EditView> {
    truncate_deletions(sort_edits(insert_edits(cs, s, cs.len() as int)))
}

/// The cursors without their selections.
pub open spec fn deselected(cs: Seq<Cursor>) -> Seq<Cursor> {
    Seq::new(cs.len(), |i: int| spec_deselect(cs[i]))
}

/// The view of `new` follows its primary cursor from where the view of `old`
/// stood.
pub open spec fn view_follows(old: Pane, new: Pane) -> bool {
    new.viewport_position_row == viewport_top_for(
        old.viewport_position_row as int,
        old.viewport_height as int,
        line_of(new.content@, new.cursors.spec_primary().offset.0 as int),
        line_count(new.content@),
    )
}

/// `new` is `old` after undo, or with `redo` after redo. Where the history
/// holds a batch that fits the text, the text becomes what the batch gives,
/// the batch leaves the history and the other history records how to go
/// back, and the cursors recorded with the batch return (a single cursor at
/// the start where one of them is off a char boundary of the text). A batch
/// that does not fit is dropped, and an empty history changes nothing. The
/// pane is marked modified and the view follows the primary cursor.
pub open spec fn history_stepped(old: Pane, new: Pane, redo: bool) -> bool {
    let undos = old.content.spec_undo();
    let redos = old.content.spec_redo();
    let from = if redo {
        redos
    } else {
        undos
    };
    &&& view_follows(old, new)
    &&& new == (Pane {
        content: new.content,
        cursors: new.cursors,
        modified: true,
        viewport_position_row: new.viewport_position_row,
        ..old
    })
    &&& if from.len() == 0 {
        &&& new.content@ == old.content@
        &&& new.content.spec_undo() == undos
        &&& new.content.spec_redo() == redos
        &&& new.cursors.cursors@ == old.cursors.cursors@
        &&& new.cursors.primary_index == old.cursors.primary_index
    } else {
        let top = from.last();
        let back = (
            truncate_deletions(sort_edits(inverse(old.content@, top.0))),
            old.cursors.cursors@,
            old.cursors.primary_index,
        );
        if batch_fits(old.content@, top.0) && apply_batch(old.content@, top.0).len() <= usize::MAX {
            let t = apply_batch(old.content@, top.0);
            &&& new.content@ == t
            &&& if redo {
                new.content.spec_redo() == redos.drop_last() && new.content.spec_undo() == undos.push(back)
            } else {
                new.content.spec_undo() == undos.drop_last() && new.content.spec_redo() == redos.push(back)
            }
            &&& if cursors_valid(top.1, t) {
                new.cursors.cursors@ == top.1 && new.cursors.primary_index == top.2
            } else {
                new.cursors.cursors@ == seq![Cursor { offset: ByteOffset(0), selection_from: None, memorized_column: None }]
                    && new.cursors.primary_index == 0
            }
        } else {
            &&& new.content@ == old.content@
            &&& if redo {
                new.content.spec_redo() == redos.drop_last() && new.content.spec_undo() == undos
            } else {
                new.content.spec_undo() == undos.drop_last() && new.content.spec_redo() == redos
            }
            &&& new.cursors.cursors@ == old.cursors.cursors@
            &&& new.cursors.primary_index == old.cursors.primary_index
        }
    }
}

/// `new` is `old` with the cursors `cs`, primary `primary`, and the view
/// following the primary cursor; nothing else changes.
pub open spec fn cursors_changed(old: Pane, new: Pane, cs: Seq<Cursor>, primary: int) -> bool {
    &&& new.cursors.cursors@ == cs
    &&& new.cursors.primary_index == primary
    &&& view_follows(old, new)
    &&& new == (Pane { cursors: new.cursors, viewport_position_row: new.viewport_position_row, ..old })
}

/// `new` is `old` after the batch `b`: when the batch applies, the text is
/// edited, the undo history records how to go back, the pane is modified,
/// the cursors move with the edits and the view follows the primary cursor;
/// otherwise nothing changes. With `deselect`, every selection is then
/// removed. Nothing else changes either way. `r` is the first line whose
/// highlighting the edit makes stale, where the batch applies.
pub open spec fn after_batch(old: Pane, b: Seq<EditView>, new: Pane, r: Option<usize>, deselect: bool) -> bool {
    if applies(old.content@, b) {
        let t = apply_batch(old.content@, b);
        let moved = cursors_after(t, b, old.cursors.cursors@);
        &&& r == Some(line_of(old.content@, edit_pos(b[0])) as usize)
        &&& new.content@ == t
        &&& new.content.spec_undo() == old.content.spec_undo().push(
            (truncate_deletions(sort_edits(inverse(old.content@, b))), old.cursors.cursors@, old.cursors.primary_index),
        )
        &&& new.content.spec_redo() == old.content.spec_redo()
        &&& new.cursors.cursors@ == if deselect {
            deselected(moved)
        } else {
            moved
        }
        &&& new.cursors.primary_index == if cursors_valid(shifted_cursors(b, old.cursors.cursors@), t) {
            old.cursors.primary_index
        } else {
            0
        }
        &&& view_follows(old, new)
        &&& new == (Pane {
            content: new.content,
            cursors: new.cursors,
            modified: true,
            viewport_position_row: new.viewport_position_row,
            ..old
        })
    } else {
        &&& new.cursors.cursors@ == if deselect {
            deselected(old.cursors.cursors@)
        } else {
            old.cursors.cursors@
        }
        &&& new.cursors.primary_index == old.cursors.primary_index
        &&& new == (Pane { cursors: new.cursors, ..old })
        &&& r is None
    }
}

/// A batch is applied when it holds an edit and the text with everything it
/// inserts fits in memory.
pub open spec fn applies(t: Seq<u8>, es: Seq<EditView>) -> bool {
    es.len() > 0 && t.len() + inserted_before(es, es.len() as int) <= usize::MAX
}

/// The cursors moved along with a batch of edits.
pub open spec fn shifted_cursors(es: Seq<EditView>, cs: Seq<Cursor>) -> Seq<Cursor> {
    Seq::new(cs.len(), |i: int| shift_cursor(es, cs[i]))
}

/// The cursors after a batch: moved along with the edits, or, where that
/// puts one off a char boundary of the new text, a single cursor at the
/// start.
pub open spec fn cursors_after(t: Seq<u8>, es: Seq<EditView>, cs: Seq<Cursor>) -> Seq<Cursor> {
    if cursors_valid(shifted_cursors(es, cs), t) {
        shifted_cursors(es, cs)
    } else {
        seq![Cursor { offset: ByteOffset(0), selection_from: None, memorized_column: None }]
    }
}

/// `inserted_before` never decreases.
proof fn lemma_inserted_nonneg(es: Seq<EditView>, i: int)
    ensures
        inserted_before(es, i) >= 0,
    decreases i,
{
    if i > 0 && i <= es.len() {
        lemma_inserted_nonneg(es, i - 1);
    }
}

/// `inserted_before` grows with its bound.
proof fn lemma_inserted_grows(es: Seq<EditView>, i: int, j: int)
    requires
        0 <= i <= j <= es.len(),
    ensures
        inserted_before(es, i) <= inserted_before(es, j),
    decreases j - i,
{
    if i < j {
        lemma_inserted_grows(es, i, j - 1);
    }
}

} // verus!
