//! A selectable list: an ordered sequence of items with one optional cursor
//! and wrap-around navigation.
//!
//! The navigation policy is the wrapping, panic-free one: on a non-empty list
//! `next` and `previous` select index 0 when nothing is selected and otherwise
//! step with wrap-around; on an empty list both leave the cursor untouched
//! (it is `None` whenever the list is well formed).

use vstd::prelude::*;

verus! {

/// An ordered sequence paired with an optional selection cursor.
pub struct StatefulList<T> {
    pub items: Vec<T>,
    pub selected: Option<usize>,
}

/// The cursor a call to `next` leaves behind, given the old cursor and the
/// list length: select 0 from no selection, step forward with wrap-around
/// otherwise, and do nothing on an empty list.
pub open spec fn next_selection(sel: Option<usize>, len: nat) -> Option<usize> {
    if len == 0 {
        sel
    } else {
        match sel {
            None => Some(0usize),
            Some(i) => Some((((i + 1) as int % len as int)) as usize),
        }
    }
}

/// The cursor a call to `previous` leaves behind: select 0 from no selection,
/// step backward with wrap-around otherwise, and do nothing on an empty list.
pub open spec fn previous_selection(sel: Option<usize>, len: nat) -> Option<usize> {
    if len == 0 {
        sel
    } else {
        match sel {
            None => Some(0usize),
            Some(i) => Some(if i == 0 { (len - 1) as usize } else { (i - 1) as usize }),
        }
    }
}

impl<T> StatefulList<T> {
    /// If the cursor is set, it points inside the list.
    pub open spec fn wf(&self) -> bool {
        self.selected matches Some(i) ==> i < self.items@.len()
    }

    /// Wraps a sequence of items with no selection.
    pub fn from_vec(items: Vec<T>) -> (l: StatefulList<T>)
        ensures
            l.items == items,
            l.selected is None,
            l.wf(),
    {
        StatefulList { items, selected: None }
    }

    /// Clears the selection; always succeeds, whatever was selected before.
    pub fn unselect(&mut self)
        ensures
            final(self).items == old(self).items,
            final(self).selected is None,
            final(self).wf(),
    {
        self.selected = None;
    }

    /// Advances the cursor with wrap-around; a no-op on an empty list.
    pub fn next(&mut self)
        requires
            old(self).wf(),
        ensures
            final(self).items == old(self).items,
            final(self).selected == next_selection(old(self).selected, old(self).items@.len()),
            final(self).wf(),
    {
        if self.items.len() > 0 {
            let len = self.items.len();
            self.selected = match self.selected {
                Some(i) => {
                    proof {
                        if i + 1 == len {
                            vstd::arithmetic::div_mod::lemma_mod_self_0(len as int);
                        } else {
                            vstd::arithmetic::div_mod::lemma_small_mod((i + 1) as nat, len as nat);
                        }
                    }
                    if i + 1 == len {
                        Some(0)
                    } else {
                        Some(i + 1)
                    }
                },
                None => Some(0),
            };
        }
    }

    /// Moves the cursor back with wrap-around; a no-op on an empty list.
    pub fn previous(&mut self)
        requires
            old(self).wf(),
        ensures
            final(self).items == old(self).items,
            final(self).selected == previous_selection(
                old(self).selected,
                old(self).items@.len(),
            ),
            final(self).wf(),
    {
        if self.items.len() > 0 {
            let len = self.items.len();
            self.selected = match self.selected {
                Some(i) => {
                    if i == 0 {
                        Some(len - 1)
                    } else {
                        Some(i - 1)
                    }
                },
                None => Some(0),
            };
        }
    }

    /// The item under the cursor, if any; never reads out of bounds.
    pub fn current(&self) -> (r: Option<&T>)
        requires
            self.wf(),
        ensures
            match r {
                Some(t) => {
                    &&& self.selected matches Some(i)
                    &&& *t == self.items@[self.selected->0 as int]
                },
                None => self.selected is None,
            },
    {
        match self.selected {
            Some(i) => Some(&self.items[i]),
            None => None,
        }
    }

    /// The cursor itself, as the interface layer reads it for highlighting.
    pub fn selected_index(&self) -> (r: Option<usize>)
        ensures
            r == self.selected,
    {
        self.selected
    }
}

} // verus!
