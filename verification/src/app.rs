//! The application state the interactive loop owns: the current view and
//! the playback port. Navigation calls go to the view; an explicit select on
//! the track view hands the current track's path to the player.

use vstd::prelude::*;

use crate::player::Player;
use crate::view::ViewModel;
use crate::view::vm_current;
use crate::view::vm_next;
use crate::view::vm_previous;
use crate::view::vm_unselect;

verus! {

/// The interactive state: one view and one player.
pub struct App<P: Player> {
    pub view: ViewModel,
    pub player: P,
}

impl<P: Player> App<P> {
    /// The view is well formed.
    pub open spec fn wf(&self) -> bool {
        self.view.wf()
    }

    /// Move the active list's cursor back; the player is not touched.
    pub fn previous(&mut self)
        requires
            old(self).wf(),
        ensures
            final(self).wf(),
            final(self).view == vm_previous(old(self).view),
            final(self).player == old(self).player,
    {
        self.view.previous();
    }

    /// Advance the active list's cursor; the player is not touched.
    pub fn next(&mut self)
        requires
            old(self).wf(),
        ensures
            final(self).wf(),
            final(self).view == vm_next(old(self).view),
            final(self).player == old(self).player,
    {
        self.view.next();
    }

    /// Hand the current track's path to the player -- literally, with no
    /// existence check -- when the view is the single track list and a track
    /// is selected; otherwise leave the player untouched. The paired view
    /// never plays, even when its track list has focus and a selection: there
    /// the artist list scopes a query, and playing stays with the single
    /// list, as the interface drives it. The view itself never changes.
    pub fn select(&mut self)
        requires
            old(self).wf(),
        ensures
            final(self).wf(),
            final(self).view == old(self).view,
            match old(self).view {
                ViewModel::Track(_) => match vm_current(old(self).view) {
                    Some(t) => final(self).player.plays() == old(self).player.plays().push(
                        t.file_path@,
                    ) && final(self).player.pause_toggles() == old(self).player.pause_toggles(),
                    None => final(self).player == old(self).player,
                },
                ViewModel::Library { .. } => final(self).player == old(self).player,
            },
    {
        let path: Option<String> = match &self.view {
            ViewModel::Track(_) => match self.view.current() {
                Some(t) => Some(t.file_path.clone()),
                None => None,
            },
            ViewModel::Library { .. } => None,
        };
        if let Some(p) = path {
            self.player.play_new_track(p.as_str());
        }
    }

    /// Clear the active list's cursor; the player is not touched.
    pub fn unselect(&mut self)
        requires
            old(self).wf(),
        ensures
            final(self).wf(),
            final(self).view == vm_unselect(old(self).view),
            final(self).player == old(self).player,
    {
        self.view.unselect();
    }

    /// Hand the player exactly one pause toggle and nothing else; the view
    /// is not touched.
    pub fn toggle_pause(&mut self)
        ensures
            final(self).view == old(self).view,
            final(self).player.plays() == old(self).player.plays(),
            final(self).player.pause_toggles() == old(self).player.pause_toggles() + 1,
    {
        self.player.toggle_pause();
    }
}

} // verus!
