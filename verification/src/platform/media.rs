//! Media hooks for deterministic playback control in tests.

use vstd::prelude::*;

verus! {

/// Playback state of a media element.
#[derive(Debug, Clone, Copy, PartialEq, Eq, Structural)]
pub enum MediaState {
    Playing,
    Paused,
    Ended,
}

/// In-memory playback state holder used in tests.
pub struct NoopMediaHooks {
    pub state: MediaState,
}

impl NoopMediaHooks {
    /// A fresh holder starts out paused.
    pub fn new() -> (r: NoopMediaHooks)
        ensures
            r.state == MediaState::Paused,
    {
        NoopMediaHooks { state: MediaState::Paused }
    }

    pub fn play(&mut self)
        ensures
            final(self).state == MediaState::Playing,
    {
        self.state = MediaState::Playing;
    }

    pub fn pause(&mut self)
        ensures
            final(self).state == MediaState::Paused,
    {
        self.state = MediaState::Paused;
    }

    pub fn state(&self) -> (s: MediaState)
        ensures
            s == self.state,
    {
        self.state
    }
}

} // verus!
