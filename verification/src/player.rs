//! The playback port: the capability the core drives when a track is
//! selected, but does not itself implement. The surrounding program supplies
//! an implementation over a real audio output; a playback failure there is
//! reported by that layer and never crashes the navigation loop.
//!
//! The port carries an abstract history -- the paths handed to it, and how
//! many pause toggles it has taken -- so that callers can state exactly
//! which commands they issue. An implementation decides what the history
//! means for it; the core's contracts only ever append to it.

use vstd::prelude::*;

verus! {

/// A sink for playback commands.
pub trait Player {
    /// The paths handed to the port so far, oldest first. The default body
    /// lets an implementation outside the verifier leave this ghost history
    /// undefined; verified callers reason about it abstractly either way.
    open spec fn plays(&self) -> Seq<Seq<char>> {
        Seq::empty()
    }

    /// How many pause toggles the port has taken so far.
    open spec fn pause_toggles(&self) -> nat {
        0
    }

    /// Start playing the file at the given path, replacing whatever was
    /// playing. The path is passed through literally; a missing file
    /// surfaces as the implementation's own error, not as a core error.
    fn play_new_track(&mut self, path: &str)
        ensures
            final(self).plays() == old(self).plays().push(path@),
            final(self).pause_toggles() == old(self).pause_toggles(),
    ;

    /// Pause playback, or resume it when it is already paused.
    fn toggle_pause(&mut self)
        ensures
            final(self).plays() == old(self).plays(),
            final(self).pause_toggles() == old(self).pause_toggles() + 1,
    ;
}

} // verus!
