//! Equality and order of edits: by position; at one position insertions
//! come first, and deletions by where they end.
use crate::editing::{edit_pos, Edit, EditView};
use core::cmp::Ordering;
use vstd::prelude::*;
use vstd::std_specs::cmp::{PartialEqSpecImpl, PartialOrdSpecImpl};

verus! {

/// The order of two edits, as `partial_cmp` gives it.
pub open spec fn edit_order(x: EditView, y: EditView) -> Ordering {
    if edit_pos(x) < edit_pos(y) {
        Ordering::Less
    } else if edit_pos(y) < edit_pos(x) {
        Ordering::Greater
    } else {
        match (x, y) {
            (EditView::Insert(_, _), EditView::Delete(_, _)) => Ordering::Less,
            (EditView::Delete(_, _), EditView::Insert(_, _)) => Ordering::Greater,
            (EditView::Delete(_, e1), EditView::Delete(_, e2)) => if e1 < e2 {
                Ordering::Less
            } else if e2 < e1 {
                Ordering::Greater
            } else {
                Ordering::Equal
            },
            _ => Ordering::Equal,
        }
    }
}

impl PartialEq for Edit {
    fn eq(&self, other: &Self) -> (r: bool) {
        self.equals(other)
    }
}

impl PartialEqSpecImpl for Edit {
    open spec fn obeys_eq_spec() -> bool {
        true
    }

    open spec fn eq_spec(&self, other: &Self) -> bool {
        self@ == other@
    }
}

impl PartialOrd for Edit {
    fn partial_cmp(&self, other: &Self) -> (r: Option<Ordering>) {
        let a = self.pos().0;
        let b = other.pos().0;
        if a < b {
            Some(Ordering::Less)
        } else if b < a {
            Some(Ordering::Greater)
        } else {
            match (self, other) {
                (Edit::Insert(_, _), Edit::Delete(_)) => Some(Ordering::Less),
                (Edit::Delete(_), Edit::Insert(_, _)) => Some(Ordering::Greater),
                (Edit::Delete(x), Edit::Delete(y)) => if x.end.0 < y.end.0 {
                    Some(Ordering::Less)
                } else if y.end.0 < x.end.0 {
                    Some(Ordering::Greater)
                } else {
                    Some(Ordering::Equal)
                },
                _ => Some(Ordering::Equal),
            }
        }
    }
}

impl PartialOrdSpecImpl for Edit {
    open spec fn obeys_partial_cmp_spec() -> bool {
        true
    }

    open spec fn partial_cmp_spec(&self, other: &Self) -> Option<Ordering> {
        Some(edit_order(self@, other@))
    }
}

} // verus!
