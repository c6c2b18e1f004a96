//! The pure half of every detection strategy: what one refresh saw in, at
//! most one normalized [`PlaybackEvent`] out. Nothing here touches a
//! platform API.
//!
//! Times are nanoseconds: positions and lengths from the start of the
//! timeline, instants from the Unix epoch.

use vstd::prelude::*;

use crate::playback::{PlaybackEvent, PlaybackSource, PlaybackStatus};
use crate::players::{texts, Player};
use crate::text::{lowercase, same_text, to_lowercase};

verus! {

/// One media session as the strategy last saw it, matched to the player
/// table or not. Diagnostics lists every row, which is how a new table
/// entry is found, so a strategy reports the sessions it cannot use as well
/// as the one it can.
#[derive(Clone, Debug, PartialEq, Eq)]
pub struct SessionFacts {
    /// The platform's own id for the session's source: an SMTC source app
    /// user model id, an MPRIS bus name.
    pub app_id: String,
    /// Empty unless the session matched the table and its media properties
    /// could be read.
    pub title: String,
    /// The platform's own word for the state, not a normalized one, so a
    /// value the strategy did not recognise still reads as itself.
    pub status: String,
    /// The table name, or `None` when nothing claimed the id.
    pub player: Option<String>,
    /// A player a person turned off claimed the session.
    pub hidden: bool,
}

/// What a session holds, in the terms every strategy can express. The
/// platform's own vocabulary stops at the strategy: SMTC's six values and
/// MPRIS's three strings both arrive here as these four.
#[derive(Clone, Copy, Debug, PartialEq, Eq, Structural)]
pub enum SessionState {
    Playing,
    Paused,
    Stopped,
    /// The session exists but has said nothing yet. Never an observation.
    Settling,
}

#[derive(Clone, Debug, PartialEq, Eq)]
pub struct SessionSnapshot {
    pub title: String,
    pub state: SessionState,
    pub start: u64,
    pub end: u64,
    pub position: u64,
    /// When the player last wrote the timeline, or `None` if it never has.
    pub updated: Option<u64>,
}

pub struct Matched<'a> {
    pub player: &'a Player,
    pub snapshot: SessionSnapshot,
}

/// Everything one refresh saw. The front is read once per refresh, not
/// once per session, so two sessions of one player agree about it.
pub struct Reading<'a> {
    pub front: Front,
    pub sessions: Vec<Seen<'a>>,
}

/// One session, whether or not anything can be done with it. The tracking
/// hangs off the row, so a strategy cannot watch a session without also
/// listing it for Diagnostics.
pub struct Seen<'a> {
    pub app_id: String,
    /// The platform's own word for the state.
    pub status: String,
    pub tracking: Tracking<'a>,
}

pub enum Tracking<'a> {
    /// No table entry claimed this session's id.
    Unknown,
    /// A player a person turned off claimed it, so it is not watched.
    Hidden(&'a Player),
    /// The table claimed it, but the platform would not say what it holds
    /// this refresh. Keeps the observation out of `Absent`.
    Unreadable(&'a Player),
    Watched(Matched<'a>),
}

impl Seen<'_> {
    /// The Diagnostics row. The title and the player come off the tracking,
    /// so an unmatched session cannot carry either.
    pub fn facts(&self) -> (facts: SessionFacts)
        ensures
            facts.app_id == self.app_id,
            facts.status == self.status,
            facts.hidden == (self.tracking is Hidden),
            match self.tracking {
                Tracking::Unknown => facts.title@.len() == 0 && facts.player is None,
                Tracking::Hidden(player) => facts.title@.len() == 0 && facts.player == Some(player.name),
                Tracking::Unreadable(player) => facts.title@.len() == 0 && facts.player == Some(
                    player.name,
                ),
                Tracking::Watched(matched) => facts.title == matched.snapshot.title && facts.player
                    == Some(matched.player.name),
            },
    {
        let (title, player) = match &self.tracking {
            Tracking::Unknown => (String::new(), None),
            Tracking::Hidden(player) => (String::new(), Some(player.name.clone())),
            Tracking::Unreadable(player) => (String::new(), Some(player.name.clone())),
            Tracking::Watched(matched) => (matched.snapshot.title.clone(), Some(matched.player.name.clone())),
        };
        let hidden = match &self.tracking {
            Tracking::Hidden(_) => true,
            _ => false,
        };
        SessionFacts { app_id: self.app_id.clone(), title, status: self.status.clone(), player, hidden }
    }
}

/// The first session from `i` on that is playing.
pub open spec fn first_playing(matched: Seq<Matched>, i: int) -> Option<int>
    decreases matched.len() - i,
{
    if i < 0 || i >= matched.len() {
        None
    } else if matched[i].snapshot.state == SessionState::Playing {
        Some(i)
    } else {
        first_playing(matched, i + 1)
    }
}

/// The session a refresh reports: the first playing one, else the first.
pub open spec fn spec_chosen(matched: Seq<Matched>) -> Option<int> {
    match first_playing(matched, 0) {
        Some(i) => Some(i),
        None => if matched.len() > 0 {
            Some(0)
        } else {
            None
        },
    }
}

proof fn lemma_first_playing(matched: Seq<Matched>, i: int)
    ensures
        match first_playing(matched, i) {
            Some(j) => i <= j < matched.len() && 0 <= j,
            None => true,
        },
    decreases matched.len() - i,
{
    if i < 0 || i >= matched.len() {
    } else if matched[i].snapshot.state == SessionState::Playing {
    } else {
        lemma_first_playing(matched, i + 1);
    }
}

/// Prefer the Playing session, else the first.
pub fn chosen_session(matched: &[Matched]) -> (chosen: Option<usize>)
    ensures
        match chosen {
            Some(i) => spec_chosen(matched@) == Some(i as int) && i < matched@.len(),
            None => spec_chosen(matched@) is None,
        },
{
    let mut i: usize = 0;
    while i < matched.len()
        invariant
            i <= matched@.len(),
            first_playing(matched@, 0) == first_playing(matched@, i as int),
        decreases matched@.len() - i,
    {
        if matched[i].snapshot.state == SessionState::Playing {
            return Some(i);
        }
        i = i + 1;
    }
    if matched.len() > 0 {
        Some(0)
    } else {
        None
    }
}

/// What sat in front of everything else at one refresh. Ryuuji's own
/// window is `Own`, not `Exe`, so looking at the countdown does not read as
/// looking away from the player.
#[derive(Clone, Debug, PartialEq, Eq)]
pub enum Front {
    Unknown,
    Own,
    /// The lowercased file name of the process that owns the window.
    Exe(String),
}

/// A player is in front whenever the front window's file name is any one of
/// its executables, and behind whenever it names executables and the front
/// window's file name is none of them.
pub proof fn lemma_front_of_any_executable(name: String, player: Player)
    ensures
        (exists|k: int| 0 <= k < player.executables@.len() && (#[trigger] player.executables@[k])@ == name@)
            ==> Front::Exe(name).spec_of(&player) == Some(true),
        (player.executables@.len() > 0 && forall|k: int| 0 <= k < player.executables@.len() ==> (#[trigger] player.executables@[k])@ != name@)
            ==> Front::Exe(name).spec_of(&player) == Some(false),
{
    if exists|k: int| 0 <= k < player.executables@.len() && (#[trigger] player.executables@[k])@ == name@ {
        let k = choose|k: int| 0 <= k < player.executables@.len() && (#[trigger] player.executables@[k])@ == name@;
        assert(player@.executables[k] == name@);
    }
    if player.executables@.len() > 0 && forall|k: int| 0 <= k < player.executables@.len() ==> (#[trigger] player.executables@[k])@ != name@ {
        assert forall|k: int| 0 <= k < player@.executables.len() implies player@.executables[k] != name@ by {
            assert(player@.executables[k] == player.executables@[k]@);
        }
    }
}

/// The file name every packaged app's window belongs to.
pub open spec fn frame_host() -> Seq<char> {
    "applicationframehost.exe"@
}

impl Front {
    /// Every packaged app's window belongs to ApplicationFrameHost, so that
    /// name says nothing about which app is in front.
    pub fn from_reading(own: bool, exe: Option<String>) -> (front: Front)
        ensures
            own ==> front is Own,
            !own ==> match exe {
                Some(name) => if lowercase(name@) == frame_host() {
                    front is Unknown
                } else {
                    front matches Front::Exe(lower) && lower@ == lowercase(name@)
                },
                None => front is Unknown,
            },
    {
        if own {
            return Front::Own;
        }
        match exe {
            Some(name) => {
                let lower = to_lowercase(name.as_str());
                if same_text(lower.as_str(), "applicationframehost.exe") {
                    Front::Unknown
                } else {
                    Front::Exe(lower)
                }
            },
            None => Front::Unknown,
        }
    }

    pub open spec fn spec_of(&self, player: &Player) -> Option<bool> {
        match self {
            Front::Exe(name) => if player@.executables.len() != 0 {
                Some(player@.executables.contains(name@))
            } else {
                None
            },
            _ => None,
        }
    }

    /// Whether `player` owns the front window. `None` when nothing can be
    /// said: the front is unknown or Ryuuji's own, or the player names no
    /// executables and would otherwise never read as in front.
    pub fn of(&self, player: &Player) -> (owns: Option<bool>)
        ensures
            owns == self.spec_of(player),
    {
        match self {
            Front::Exe(name) => {
                if player.executables.len() == 0 {
                    return None;
                }
                let mut i: usize = 0;
                while i < player.executables.len()
                    invariant
                        i <= player.executables@.len(),
                        player.executables@.len() != 0,
                        *self == Front::Exe(*name),
                        forall|k: int| 0 <= k < i ==> texts(player.executables@)[k] != name@,
                    decreases player.executables@.len() - i,
                {
                    if same_text(player.executables[i].as_str(), name.as_str()) {
                        assert(player@.executables[i as int] == name@);
                        assert(player@.executables.contains(name@));
                        return Some(true);
                    }
                    i = i + 1;
                }
                Some(false)
            },
            _ => None,
        }
    }
}

/// The position a snapshot stands at `now`. Chromium writes a tab's
/// timeline only when playback starts, pauses or seeks, so the position it
/// reports goes stale while the video plays on. A playing session is moved
/// on by the time since the timeline was written, and stops at the end of
/// the item when its length is known. The playback rate is not read,
/// because accrual already caps credit at wall time.
pub open spec fn spec_advanced(snapshot: SessionSnapshot, now: u64) -> u64 {
    if snapshot.state != SessionState::Playing {
        snapshot.position
    } else {
        match snapshot.updated {
            None => snapshot.position,
            Some(updated) => {
                let since = if now >= updated { now - updated } else { 0 };
                let moved = if snapshot.position + since > u64::MAX {
                    u64::MAX as int
                } else {
                    snapshot.position + since
                };
                if snapshot.end > snapshot.start && moved > snapshot.end {
                    snapshot.end
                } else {
                    moved as u64
                }
            },
        }
    }
}

pub fn advanced_position(snapshot: &SessionSnapshot, now: u64) -> (position: u64)
    ensures
        position == spec_advanced(*snapshot, now),
{
    if snapshot.state != SessionState::Playing {
        return snapshot.position;
    }
    let updated = match snapshot.updated {
        Some(updated) => updated,
        None => return snapshot.position,
    };
    let since = now.saturating_sub(updated);
    let moved = snapshot.position.saturating_add(since);
    if snapshot.end > snapshot.start && moved > snapshot.end {
        snapshot.end
    } else {
        moved
    }
}

/// The status a settled state reports.
pub open spec fn status_of(state: SessionState) -> Option<PlaybackStatus> {
    match state {
        SessionState::Stopped => Some(PlaybackStatus::Stopped),
        SessionState::Playing => Some(PlaybackStatus::Playing),
        SessionState::Paused => Some(PlaybackStatus::Paused),
        SessionState::Settling => None,
    }
}

/// The event a matched session makes at `now`, or none while it settles.
/// Times are relative to the timeline start.
pub open spec fn spec_normalize(matched: Matched, now: u64, front: Front) -> Option<PlaybackEvent> {
    let snapshot = matched.snapshot;
    match status_of(snapshot.state) {
        None => None,
        Some(status) => Some(
            PlaybackEvent {
                player: matched.player.name,
                title: snapshot.title,
                status,
                position: if spec_advanced(snapshot, now) >= snapshot.start {
                    (spec_advanced(snapshot, now) - snapshot.start) as u64
                } else {
                    0
                },
                duration: if snapshot.end >= snapshot.start {
                    (snapshot.end - snapshot.start) as u64
                } else {
                    0
                },
                observed_at: now,
                source: PlaybackSource::Detected,
                foreground: front.spec_of(matched.player),
            },
        ),
    }
}

/// A settling session is not an observation yet.
pub fn normalize(matched: &Matched, now: u64, front: &Front) -> (event: Option<PlaybackEvent>)
    ensures
        event == spec_normalize(*matched, now, *front),
{
    let snapshot = &matched.snapshot;
    let status = match snapshot.state {
        SessionState::Stopped => PlaybackStatus::Stopped,
        SessionState::Playing => PlaybackStatus::Playing,
        SessionState::Paused => PlaybackStatus::Paused,
        SessionState::Settling => return None,
    };
    Some(
        PlaybackEvent {
            player: matched.player.name.clone(),
            title: snapshot.title.clone(),
            status,
            position: advanced_position(snapshot, now).saturating_sub(snapshot.start),
            duration: snapshot.end.saturating_sub(snapshot.start),
            observed_at: now,
            source: PlaybackSource::Detected,
            foreground: front.of(matched.player),
        },
    )
}

pub enum Observation {
    /// No session matched the player table.
    Absent,
    /// The chosen session is between states and says nothing yet.
    Transitional,
    Seen(PlaybackEvent),
}

/// How long a session that is merely paused waits while another matched
/// session is still unreadable: a player publishes its media properties
/// within about two seconds of starting, and the wait is only observable at
/// poll boundaries, so this is that measurement and one poll over.
pub const SETTLE: u64 = 3_000_000_000;

/// Whether the unreadable run is young enough to keep waiting on.
pub open spec fn spec_settling(since: Option<u64>, now: u64) -> bool {
    match since {
        Some(since) => (if now >= since { now - since } else { 0 }) < SETTLE,
        None => false,
    }
}

pub fn settling(since: Option<u64>, now: u64) -> (waiting: bool)
    ensures
        waiting == spec_settling(since, now),
{
    match since {
        Some(since) => now.saturating_sub(since) < SETTLE,
        None => false,
    }
}

/// What a refresh observed. `unreadable_since` is when the current run of
/// matched sessions whose media or timeline could not be read began, and
/// `None` when every matched session read this refresh. Such a session
/// keeps the observation out of `Absent`, since one that exists but is not
/// ready has not vanished, and for [`SETTLE`] it also holds back a session
/// that is merely paused. A playing session is reported whatever is
/// unreadable.
pub open spec fn spec_observe(matched: Seq<Matched>, unreadable_since: Option<u64>, now: u64, front: Front) -> Observation {
    match spec_chosen(matched) {
        Some(i) => if matched[i].snapshot.state != SessionState::Playing && spec_settling(unreadable_since, now) {
            Observation::Transitional
        } else {
            match spec_normalize(matched[i], now, front) {
                Some(event) => Observation::Seen(event),
                None => Observation::Transitional,
            }
        },
        None => if unreadable_since is Some {
            Observation::Transitional
        } else {
            Observation::Absent
        },
    }
}

pub fn observe(matched: &[Matched], unreadable_since: Option<u64>, now: u64, front: &Front) -> (observation: Observation)
    ensures
        observation == spec_observe(matched@, unreadable_since, now, *front),
{
    match chosen_session(matched) {
        Some(i) => {
            let chosen = &matched[i];
            if chosen.snapshot.state != SessionState::Playing && settling(unreadable_since, now) {
                Observation::Transitional
            } else {
                match normalize(chosen, now, front) {
                    Some(event) => Observation::Seen(event),
                    None => Observation::Transitional,
                }
            }
        },
        None => {
            if unreadable_since.is_some() {
                Observation::Transitional
            } else {
                Observation::Absent
            }
        },
    }
}

/// Two events that differ at most in when they were observed.
pub open spec fn spec_same_except_time(a: PlaybackEvent, b: PlaybackEvent) -> bool {
    &&& a.player@ == b.player@
    &&& a.title@ == b.title@
    &&& a.status == b.status
    &&& a.position == b.position
    &&& a.duration == b.duration
    &&& a.source == b.source
    &&& a.foreground == b.foreground
}

pub fn same_except_time(a: &PlaybackEvent, b: &PlaybackEvent) -> (same: bool)
    ensures
        same == spec_same_except_time(*a, *b),
{
    same_text(a.player.as_str(), b.player.as_str()) && same_text(a.title.as_str(), b.title.as_str())
        && a.status == b.status && a.position == b.position && a.duration == b.duration && a.source
        == b.source && a.foreground == b.foreground
}

/// Drops observations equal to the last one in every field except
/// `observed_at`; synthesises Stopped when the session vanishes.
pub struct Dedup {
    last: Option<PlaybackEvent>,
}

impl Default for Dedup {
    fn default() -> (dedup: Dedup)
        ensures
            dedup.last() is None,
    {
        Dedup { last: None }
    }
}

impl Dedup {
    /// The last event let through.
    pub closed spec fn last(&self) -> Option<PlaybackEvent> {
        self.last
    }

    /// The event an observation makes at `now`, before the comparison with
    /// the last one: nothing while it settles, what was seen, or, when the
    /// session vanished, the last event stopped, unless it already was.
    pub open spec fn candidate(&self, observation: Observation, now: u64) -> Option<PlaybackEvent> {
        match observation {
            Observation::Transitional => None,
            Observation::Seen(event) => Some(event),
            Observation::Absent => match self.last() {
                None => None,
                Some(last) => if last.status == PlaybackStatus::Stopped {
                    None
                } else {
                    Some(PlaybackEvent { status: PlaybackStatus::Stopped, observed_at: now, ..last })
                },
            },
        }
    }

    pub fn let_through(&mut self, observation: Observation, now: u64) -> (admitted: Option<PlaybackEvent>)
        ensures
            match old(self).candidate(observation, now) {
                Some(event) => if old(self).last() is Some && spec_same_except_time(
                    event,
                    old(self).last().unwrap(),
                ) {
                    admitted is None && final(self).last() == old(self).last()
                } else {
                    admitted == Some(event) && final(self).last() == Some(event)
                },
                None => admitted is None && final(self).last() == old(self).last(),
            },
    {
        let event = match observation {
            Observation::Transitional => return None,
            Observation::Seen(event) => event,
            Observation::Absent => {
                let last = match &self.last {
                    Some(last) => last,
                    None => return None,
                };
                if last.status == PlaybackStatus::Stopped {
                    return None;
                }
                let mut stopped = last.copied();
                stopped.status = PlaybackStatus::Stopped;
                stopped.observed_at = now;
                stopped
            },
        };
        if let Some(last) = &self.last {
            if same_except_time(&event, last) {
                return None;
            }
        }
        self.last = Some(event.copied());
        Some(event)
    }

    /// Whether the last event let through was playing.
    pub fn is_playing(&self) -> (playing: bool)
        ensures
            playing == (self.last() matches Some(last) && last.status == PlaybackStatus::Playing),
    {
        match &self.last {
            Some(last) => last.status == PlaybackStatus::Playing,
            None => false,
        }
    }
}

} // verus!
