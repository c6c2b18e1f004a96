//! What a player looks like once a detection strategy has finished with it.
//! Strategies and the inject control both hand the core a
//! [`PlaybackEvent`]; the core never sees window titles, process names or
//! any other raw platform field.
//!
//! Times are counted in nanoseconds: a position or a duration from the
//! start of the item, an instant from the Unix epoch.

use vstd::prelude::*;

verus! {

#[derive(Clone, Copy, Debug, PartialEq, Eq, Structural)]
pub enum PlaybackStatus {
    Playing,
    Paused,
    Stopped,
}

impl PlaybackStatus {
    pub open spec fn spec_label(self) -> Seq<char> {
        match self {
            PlaybackStatus::Playing => "Playing"@,
            PlaybackStatus::Paused => "Paused"@,
            PlaybackStatus::Stopped => "Stopped"@,
        }
    }

    pub fn label(self) -> (label: &'static str)
        ensures
            label@ == self.spec_label(),
    {
        match self {
            PlaybackStatus::Playing => "Playing",
            PlaybackStatus::Paused => "Paused",
            PlaybackStatus::Stopped => "Stopped",
        }
    }
}

/// Where an observation came from.
#[derive(Clone, Copy, Debug, PartialEq, Eq, Structural)]
pub enum PlaybackSource {
    /// A detection strategy watching a real player.
    Detected,
    /// The inject control on the Diagnostics page.
    Injected,
}

impl PlaybackSource {
    pub open spec fn spec_tag(self) -> Seq<char> {
        match self {
            PlaybackSource::Detected => "detected"@,
            PlaybackSource::Injected => "injected"@,
        }
    }

    /// Stable identifier used in log events.
    pub fn tag(self) -> (tag: &'static str)
        ensures
            tag@ == self.spec_tag(),
    {
        match self {
            PlaybackSource::Detected => "detected",
            PlaybackSource::Injected => "injected",
        }
    }
}

/// One normalized observation of a player. Never carries raw platform
/// fields.
#[derive(Clone, Debug, PartialEq, Eq)]
pub struct PlaybackEvent {
    /// The player table name, or `"Injected"`.
    pub player: String,
    /// Verbatim from the player; may be empty.
    pub title: String,
    pub status: PlaybackStatus,
    /// Nanoseconds from the start of the item.
    pub position: u64,
    /// Nanoseconds; zero means unknown.
    pub duration: u64,
    /// Nanoseconds since the Unix epoch.
    pub observed_at: u64,
    pub source: PlaybackSource,
    /// Whether the player's window is in front. `None` when the platform
    /// cannot tell; the accrual rule treats that as watchable, so a source
    /// without a focus signal still records.
    pub foreground: Option<bool>,
}

impl PlaybackEvent {
    /// A copy of this event.
    pub fn copied(&self) -> (copy: PlaybackEvent)
        ensures
            copy == *self,
    {
        PlaybackEvent {
            player: self.player.clone(),
            title: self.title.clone(),
            status: self.status,
            position: self.position,
            duration: self.duration,
            observed_at: self.observed_at,
            source: self.source,
            foreground: self.foreground,
        }
    }
}

} // verus!
