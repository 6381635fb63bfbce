//! The view model: one named view over selectable lists, either a single
//! track list or a paired artist/track view with a focus toggle. Every view
//! answers the same navigation calls, which go to the active list; the
//! current track always comes from the track list, whichever list has focus.

use vstd::prelude::*;

use crate::model::Artist;
use crate::model::Track;
use crate::widget::StatefulList;
use crate::widget::next_selection;
use crate::widget::previous_selection;

verus! {

/// Which of the two lists of a paired view is active for navigation.
#[derive(Clone, Copy, Debug, PartialEq, Eq, Structural)]
pub enum Focus {
    First,
    Second,
}

/// A view over the catalog: a single track list, or an artist list paired
/// with a track list and a focus toggle. Switching between views is a full
/// replacement done by the interface layer; no state carries over.
pub enum ViewModel {
    Track(StatefulList<Track>),
    Library { artists: StatefulList<Artist>, tracks: StatefulList<Track>, focus: Focus },
}

/// A list after `next`: the same items, the cursor advanced with
/// wrap-around.
pub open spec fn list_next<T>(l: StatefulList<T>) -> StatefulList<T> {
    StatefulList { items: l.items, selected: next_selection(l.selected, l.items@.len()) }
}

/// A list after `previous`: the same items, the cursor moved back with
/// wrap-around.
pub open spec fn list_previous<T>(l: StatefulList<T>) -> StatefulList<T> {
    StatefulList { items: l.items, selected: previous_selection(l.selected, l.items@.len()) }
}

/// A list after `unselect`: the same items, no cursor.
pub open spec fn list_unselect<T>(l: StatefulList<T>) -> StatefulList<T> {
    StatefulList { items: l.items, selected: None }
}

/// What `next` does to a view: it advances the active list and nothing else.
pub open spec fn vm_next(v: ViewModel) -> ViewModel {
    match v {
        ViewModel::Track(l) => ViewModel::Track(list_next(l)),
        ViewModel::Library { artists, tracks, focus } => match focus {
            Focus::First => ViewModel::Library { artists: list_next(artists), tracks, focus },
            Focus::Second => ViewModel::Library { artists, tracks: list_next(tracks), focus },
        },
    }
}

/// What `previous` does to a view: it moves the active list back and
/// nothing else.
pub open spec fn vm_previous(v: ViewModel) -> ViewModel {
    match v {
        ViewModel::Track(l) => ViewModel::Track(list_previous(l)),
        ViewModel::Library { artists, tracks, focus } => match focus {
            Focus::First => ViewModel::Library {
                artists: list_previous(artists),
                tracks,
                focus,
            },
            Focus::Second => ViewModel::Library {
                artists,
                tracks: list_previous(tracks),
                focus,
            },
        },
    }
}

/// What `unselect` does to a view: it clears the active list's cursor and
/// nothing else.
pub open spec fn vm_unselect(v: ViewModel) -> ViewModel {
    match v {
        ViewModel::Track(l) => ViewModel::Track(list_unselect(l)),
        ViewModel::Library { artists, tracks, focus } => match focus {
            Focus::First => ViewModel::Library {
                artists: list_unselect(artists),
                tracks,
                focus,
            },
            Focus::Second => ViewModel::Library {
                artists,
                tracks: list_unselect(tracks),
                focus,
            },
        },
    }
}

/// What `change_focus` does to a view: it toggles the paired view's focus
/// and is a no-op on a single list.
pub open spec fn vm_change_focus(v: ViewModel) -> ViewModel {
    match v {
        ViewModel::Track(l) => ViewModel::Track(l),
        ViewModel::Library { artists, tracks, focus } => ViewModel::Library {
            artists,
            tracks,
            focus: match focus {
                Focus::First => Focus::Second,
                Focus::Second => Focus::First,
            },
        },
    }
}

/// The current track of a view: the track list's selected item, whichever
/// list has focus; selecting an artist never itself yields a current track.
pub open spec fn vm_current(v: ViewModel) -> Option<Track> {
    let l = match v {
        ViewModel::Track(l) => l,
        ViewModel::Library { tracks, .. } => tracks,
    };
    match l.selected {
        Some(i) => Some(l.items@[i as int]),
        None => None,
    }
}

impl ViewModel {
    /// Every list of the view is well formed.
    pub open spec fn wf(&self) -> bool {
        match self {
            ViewModel::Track(l) => l.wf(),
            ViewModel::Library { artists, tracks, .. } => artists.wf() && tracks.wf(),
        }
    }

    /// Advance the active list's cursor with wrap-around.
    pub fn next(&mut self)
        requires
            old(self).wf(),
        ensures
            final(self).wf(),
            *final(self) == vm_next(*old(self)),
    {
        match self {
            ViewModel::Track(l) => l.next(),
            ViewModel::Library { artists, tracks, focus } => match *focus {
                Focus::First => artists.next(),
                Focus::Second => tracks.next(),
            },
        }
    }

    /// Move the active list's cursor back with wrap-around.
    pub fn previous(&mut self)
        requires
            old(self).wf(),
        ensures
            final(self).wf(),
            *final(self) == vm_previous(*old(self)),
    {
        match self {
            ViewModel::Track(l) => l.previous(),
            ViewModel::Library { artists, tracks, focus } => match *focus {
                Focus::First => artists.previous(),
                Focus::Second => tracks.previous(),
            },
        }
    }

    /// Clear the active list's cursor.
    pub fn unselect(&mut self)
        requires
            old(self).wf(),
        ensures
            final(self).wf(),
            *final(self) == vm_unselect(*old(self)),
    {
        match self {
            ViewModel::Track(l) => l.unselect(),
            ViewModel::Library { artists, tracks, focus } => match *focus {
                Focus::First => artists.unselect(),
                Focus::Second => tracks.unselect(),
            },
        }
    }

    /// Toggle which list of a paired view is active; a no-op on a single
    /// list.
    pub fn change_focus(&mut self)
        requires
            old(self).wf(),
        ensures
            final(self).wf(),
            *final(self) == vm_change_focus(*old(self)),
    {
        match self {
            ViewModel::Track(_) => {},
            ViewModel::Library { focus, .. } => {
                *focus = match *focus {
                    Focus::First => Focus::Second,
                    Focus::Second => Focus::First,
                };
            },
        }
    }

    /// The current track, always resolved from the track list.
    pub fn current(&self) -> (r: Option<&Track>)
        requires
            self.wf(),
        ensures
            match r {
                Some(t) => vm_current(*self) == Some(*t),
                None => vm_current(*self) is None,
            },
    {
        match self {
            ViewModel::Track(l) => l.current(),
            ViewModel::Library { tracks, .. } => tracks.current(),
        }
    }
}

/// Focus toggling in the paired view: with focus on the artist list, `next`
/// moves only the artist cursor; after one `change_focus`, `next` moves
/// only the track cursor; and the current track depends on the track list
/// alone, so neither the focus nor any artist navigation changes it.
pub proof fn lemma_focus_toggle(artists: StatefulList<Artist>, tracks: StatefulList<Track>)
    ensures
        vm_next(ViewModel::Library { artists, tracks, focus: Focus::First })
            == (ViewModel::Library { artists: list_next(artists), tracks, focus: Focus::First }),
        vm_change_focus(ViewModel::Library { artists, tracks, focus: Focus::First })
            == (ViewModel::Library { artists, tracks, focus: Focus::Second }),
        vm_next(vm_change_focus(ViewModel::Library { artists, tracks, focus: Focus::First }))
            == (ViewModel::Library { artists, tracks: list_next(tracks), focus: Focus::Second }),
        vm_current(vm_change_focus(ViewModel::Library { artists, tracks, focus: Focus::First }))
            == vm_current(ViewModel::Library { artists, tracks, focus: Focus::First }),
        vm_current(ViewModel::Library { artists: list_next(artists), tracks, focus: Focus::First })
            == vm_current(ViewModel::Library { artists, tracks, focus: Focus::First }),
{
}

} // verus!
