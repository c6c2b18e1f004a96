//! The viewing a run of playback events describes.
//!
//! Detection reports one player at a time and repeats itself; the core
//! wants to know when a different title starts and how much of it has
//! actually been watched. [`WatchSession`] keeps what that takes across
//! events: which player and title are being watched, where the player last
//! was, and the time credited so far against the recording threshold.
//! Durations and instants are nanoseconds, as in [`PlaybackEvent`].

use vstd::prelude::*;

use crate::history::{HistoryId, RecordOutcome, Watch, WatchOutcome};
use crate::library::Decline;
use crate::matching::ProposedMatch;
use crate::playback::{PlaybackEvent, PlaybackStatus};
use crate::text::{blank, is_blank, same_text};

verus! {

/// The most one event can credit when the player never says how long the
/// file is: fifteen seconds. Position deltas are unbounded then, so wall
/// time is the only measure and a long gap has to mean something other
/// than watching.
pub const MAX_STEP: u64 = 15_000_000_000;

/// The threshold when the duration is unknown: two minutes. With a known
/// duration the threshold is half the episode instead.
pub const FALLBACK_THRESHOLD: u64 = 120_000_000_000;

/// Across-events memory of what is being watched. The viewing is what one
/// player and title have come to. The cursor is where the player last was,
/// and it advances on every event, Stopped and untitled ones included,
/// because a position is only a delta against the one before it. The
/// viewing changes only when a titled event names another player or title:
/// a Stopped in the middle of a viewing keeps it, which is what guards a
/// spurious Stopped-then-Playing pair from detection.
#[derive(Clone, Debug, Default, PartialEq, Eq)]
pub struct WatchSession {
    pub viewing: Option<Viewing>,
    pub cursor: Cursor,
}

/// One player and title being watched, and what watching it has come to.
#[derive(Clone, Debug, PartialEq, Eq)]
pub struct Viewing {
    /// The player being watched.
    pub player: String,
    /// The raw title being watched.
    pub title: String,
    /// The last non-zero duration reported for this viewing; an event that
    /// does not know it does not forget it.
    pub duration: u64,
    pub accrued: u64,
    /// What the viewing's recording became once it wrote one: `Recorded`,
    /// or `Undone` after an undo. Nothing records again while it is set.
    pub recorded: Option<RecordOutcome>,
    /// The history row this viewing has written, once it has one.
    pub row: Option<HistoryId>,
    /// What the viewing last put in its row, or tried to. A failed write is
    /// remembered too, so a broken table costs one notice per change of
    /// reason rather than one per event.
    pub logged: Option<Logged>,
}

/// Where the player last was, and when.
#[derive(Clone, Copy, Debug, Default, PartialEq, Eq, Structural)]
pub struct Cursor {
    pub position: u64,
    pub seen: Option<u64>,
}

/// What a viewing's history row says, as far as the next write cares.
#[derive(Clone, Copy, Debug, PartialEq, Eq, Structural)]
pub enum Logged {
    Added,
    Declined(Decline),
    Recorded,
    Ignored,
}

impl Logged {
    pub open spec fn spec_of(outcome: WatchOutcome) -> Logged {
        match outcome {
            WatchOutcome::Added => Logged::Added,
            WatchOutcome::Declined(decline) => Logged::Declined(decline),
            WatchOutcome::Recorded(_) => Logged::Recorded,
            WatchOutcome::Ignored => Logged::Ignored,
        }
    }

    pub fn of(outcome: WatchOutcome) -> (logged: Logged)
        ensures
            logged == Logged::spec_of(outcome),
    {
        match outcome {
            WatchOutcome::Added => Logged::Added,
            WatchOutcome::Declined(decline) => Logged::Declined(decline),
            WatchOutcome::Recorded(_) => Logged::Recorded,
            WatchOutcome::Ignored => Logged::Ignored,
        }
    }
}

/// What one event told the session. A first event is both a new viewing
/// and a countdown, so the two are separate facts rather than variants.
#[derive(Clone, Copy, Debug, PartialEq, Eq, Structural)]
pub struct Observed {
    /// A titled player other than the one being watched.
    pub new_viewing: bool,
    /// `Some` whenever a viewing stands.
    pub progress: Option<Accrual>,
}

/// The session's side of the countdown. What the threshold came to is the
/// app's to say, since only it can run the gates and the write.
#[derive(Clone, Copy, Debug, PartialEq, Eq, Structural)]
pub struct Accrual {
    /// Time credited as watched so far.
    pub accrued: u64,
    /// Half the episode when its duration is known, else a flat two minutes.
    pub threshold: u64,
    /// What the viewing's recording became, once it has written its
    /// episode: the app shows it instead of running the gates again.
    pub recorded: Option<RecordOutcome>,
}

/// An event that names something to watch: playing or paused, with a title
/// that is more than whitespace.
pub open spec fn titled(event: PlaybackEvent) -> bool {
    (event.status == PlaybackStatus::Playing || event.status == PlaybackStatus::Paused)
        && !is_blank(event.title@)
}

/// The wall time from `seen` to `now`; a clock that stepped back gives
/// nothing.
pub open spec fn wall_gap(seen: u64, now: u64) -> u64 {
    if now >= seen {
        (now - seen) as u64
    } else {
        0
    }
}

pub open spec fn min(a: u64, b: u64) -> u64 {
    if a <= b {
        a
    } else {
        b
    }
}

/// Time `event` proves was watched since the cursor, in a file `duration`
/// long. Nobody watches more file time than wall time has passed, so the
/// position delta is capped by the wall gap: a seek credits only the
/// seconds it took, a stalled player credits nothing, and a rewind
/// saturates to nothing. A paused or background player credits nothing.
pub open spec fn spec_credit(cursor: Cursor, event: PlaybackEvent, duration: u64) -> u64 {
    if event.status != PlaybackStatus::Playing || event.foreground == Some(false) {
        0
    } else {
        match cursor.seen {
            None => 0,
            Some(seen) => {
                let gap = wall_gap(seen, event.observed_at);
                if duration == 0 {
                    min(gap, MAX_STEP)
                } else {
                    let moved = if event.position >= cursor.position {
                        (event.position - cursor.position) as u64
                    } else {
                        0
                    };
                    min(moved, gap)
                }
            },
        }
    }
}

/// Half a known duration, else the fallback.
pub open spec fn spec_threshold(duration: u64) -> u64 {
    if duration == 0 {
        FALLBACK_THRESHOLD
    } else {
        duration / 2
    }
}

pub open spec fn saturating_add(a: u64, b: u64) -> u64 {
    if a + b > u64::MAX {
        u64::MAX
    } else {
        (a + b) as u64
    }
}

impl Viewing {
    pub open spec fn spec_is(&self, event: PlaybackEvent) -> bool {
        self.player@ == event.player@ && self.title@ == event.title@
    }

    /// A viewing that has watched nothing yet.
    pub open spec fn fresh(&self) -> bool {
        &&& self.duration == 0
        &&& self.accrued == 0
        &&& self.recorded.is_none()
        &&& self.row.is_none()
        &&& self.logged.is_none()
    }

    pub fn new(player: String, title: String) -> (viewing: Viewing)
        ensures
            viewing.player@ == player@,
            viewing.title@ == title@,
            viewing.fresh(),
    {
        Viewing { player, title, duration: 0, accrued: 0, recorded: None, row: None, logged: None }
    }

    pub fn is(&self, event: &PlaybackEvent) -> (is: bool)
        ensures
            is == self.spec_is(*event),
    {
        same_text(self.player.as_str(), event.player.as_str()) && same_text(
            self.title.as_str(),
            event.title.as_str(),
        )
    }
}

impl Cursor {
    pub fn credit(self, event: &PlaybackEvent, duration: u64) -> (credit: u64)
        ensures
            credit == spec_credit(self, *event, duration),
    {
        if event.status != PlaybackStatus::Playing || event.foreground == Some(false) {
            return 0;
        }
        let seen = match self.seen {
            Some(seen) => seen,
            None => return 0,
        };
        let gap = if event.observed_at >= seen {
            event.observed_at - seen
        } else {
            0
        };
        if duration == 0 {
            if gap <= MAX_STEP {
                gap
            } else {
                MAX_STEP
            }
        } else {
            let moved = if event.position >= self.position {
                event.position - self.position
            } else {
                0
            };
            if moved <= gap {
                moved
            } else {
                gap
            }
        }
    }
}

/// The credit one event gives never exceeds the wall time since the
/// cursor's last sighting: nobody watches faster than the clock.
pub proof fn lemma_credit_within_wall_time(cursor: Cursor, event: PlaybackEvent, duration: u64)
    ensures
        match cursor.seen {
            Some(seen) => spec_credit(cursor, event, duration) <= wall_gap(seen, event.observed_at),
            None => spec_credit(cursor, event, duration) == 0,
        },
        duration == 0 ==> spec_credit(cursor, event, duration) <= MAX_STEP,
        duration != 0 ==> spec_credit(cursor, event, duration) <= (if event.position
            >= cursor.position {
            event.position - cursor.position
        } else {
            0
        }),
{
}

impl WatchSession {
    pub open spec fn spec_is_watching(&self, event: PlaybackEvent) -> bool {
        match self.viewing {
            Some(viewing) => viewing.spec_is(event),
            None => false,
        }
    }

    pub open spec fn spec_progress(&self) -> Option<Accrual> {
        match self.viewing {
            Some(viewing) => Some(
                Accrual {
                    accrued: viewing.accrued,
                    threshold: spec_threshold(viewing.duration),
                    recorded: viewing.recorded,
                },
            ),
            None => None,
        }
    }

    pub open spec fn spec_open_row(&self) -> Option<HistoryId> {
        match self.viewing {
            Some(viewing) => if viewing.logged == Some(Logged::Recorded) {
                None
            } else {
                viewing.row
            },
            None => None,
        }
    }

    pub open spec fn spec_logged(&self) -> Option<Logged> {
        match self.viewing {
            Some(viewing) => viewing.logged,
            None => None,
        }
    }

    /// Picks up the viewing the persisted match describes, so a relaunch
    /// under a still-open player does not propose the same title again.
    /// When the newest history row belongs to that viewing it is picked up
    /// too, so the relaunch does not log the same watch a second time.
    pub fn resume(last_match: Option<&ProposedMatch>, newest: Option<&Watch>) -> (session:
        WatchSession)
        ensures
            session.cursor == (Cursor { position: 0, seen: None }),
            match last_match {
                None => session.viewing.is_none(),
                Some(m) => match session.viewing {
                    None => false,
                    Some(viewing) => {
                        &&& viewing.player@ == m.player@
                        &&& viewing.title@ == m.raw_title@
                        &&& viewing.duration == 0
                        &&& viewing.accrued == 0
                        &&& viewing.recorded.is_none()
                        &&& match newest {
                            Some(watch) if watch.player@ == m.player@ && watch.raw_title@
                                == m.raw_title@ => {
                                &&& viewing.row == Some(watch.id)
                                &&& viewing.logged == Some(Logged::spec_of(watch.outcome))
                            },
                            _ => viewing.row.is_none() && viewing.logged.is_none(),
                        }
                    },
                },
            },
    {
        let viewing = match last_match {
            None => None,
            Some(m) => {
                let mut viewing = Viewing::new(m.player.clone(), m.raw_title.clone());
                match newest {
                    Some(watch) => {
                        if same_text(watch.player.as_str(), m.player.as_str()) && same_text(
                            watch.raw_title.as_str(),
                            m.raw_title.as_str(),
                        ) {
                            viewing.row = Some(watch.id);
                            viewing.logged = Some(Logged::of(watch.outcome));
                        }
                    },
                    None => {},
                }
                Some(viewing)
            },
        };
        WatchSession { viewing, cursor: Cursor { position: 0, seen: None } }
    }

    /// Takes one event: starts a new viewing when a titled event names
    /// another player or title, credits the time the event proves was
    /// watched, and moves the cursor.
    pub fn observe(&mut self, event: &PlaybackEvent) -> (observed: Observed)
        ensures
            observed.new_viewing == (titled(*event) && !old(self).spec_is_watching(*event)),
            final(self).cursor == (Cursor {
                position: event.position,
                seen: Some(event.observed_at),
            }),
            observed.progress == final(self).spec_progress(),
            // An untitled event leaves the viewing as it was.
            !titled(*event) ==> final(self).viewing == old(self).viewing,
            // A new viewing is the event's player and title, with nothing
            // credited yet: the cursor belongs to what was watched before.
            observed.new_viewing ==> match final(self).viewing {
                Some(viewing) => {
                    &&& viewing.spec_is(*event)
                    &&& viewing.duration == event.duration
                    &&& viewing.accrued == 0
                    &&& viewing.recorded.is_none()
                    &&& viewing.row.is_none()
                    &&& viewing.logged.is_none()
                },
                None => false,
            },
            // The same viewing goes on: the duration is kept unless the
            // event knows it, and the event's credit is added.
            titled(*event) && !observed.new_viewing ==> match (old(self).viewing, final(self).viewing) {
                (Some(before), Some(after)) => {
                    &&& after.player == before.player
                    &&& after.title == before.title
                    &&& after.duration == (if event.duration != 0 {
                        event.duration
                    } else {
                        before.duration
                    })
                    &&& after.accrued == saturating_add(
                        before.accrued,
                        spec_credit(old(self).cursor, *event, after.duration),
                    )
                    &&& after.recorded == before.recorded
                    &&& after.row == before.row
                    &&& after.logged == before.logged
                },
                _ => false,
            },
    {
        let is_titled = (event.status == PlaybackStatus::Playing || event.status
            == PlaybackStatus::Paused) && !blank(event.title.as_str());
        let new_viewing = is_titled && !self.is_watching(event);
        if new_viewing {
            self.viewing = Some(Viewing::new(event.player.clone(), event.title.clone()));
        }
        let cursor = self.cursor;
        if is_titled {
            match self.viewing.as_mut() {
                Some(viewing) => {
                    if event.duration != 0 {
                        viewing.duration = event.duration;
                    }
                    if !new_viewing {
                        let credit = cursor.credit(event, viewing.duration);
                        viewing.accrued = viewing.accrued.saturating_add(credit);
                    }
                },
                None => {},
            }
        }
        self.cursor = Cursor { position: event.position, seen: Some(event.observed_at) };
        Observed { new_viewing, progress: self.progress() }
    }

    /// The episode has been written into `row`; nothing more records until
    /// the key changes.
    pub fn mark_recorded(&mut self, row: HistoryId)
        ensures
            final(self).cursor == old(self).cursor,
            match (old(self).viewing, final(self).viewing) {
                (None, None) => true,
                (Some(before), Some(after)) => {
                    &&& after.player == before.player
                    &&& after.title == before.title
                    &&& after.duration == before.duration
                    &&& after.accrued == before.accrued
                    &&& after.recorded == Some(RecordOutcome::Recorded(row))
                    &&& after.row == Some(row)
                    &&& after.logged == Some(Logged::Recorded)
                },
                _ => false,
            },
    {
        self.wrote(row, Logged::Recorded);
        match self.viewing.as_mut() {
            Some(viewing) => {
                viewing.recorded = Some(RecordOutcome::Recorded(row));
            },
            None => {},
        }
    }

    /// The recording in `row` was undone. The viewing that wrote it still
    /// writes nothing more, and now says its recording was undone.
    pub fn undid(&mut self, row: HistoryId)
        ensures
            final(self).cursor == old(self).cursor,
            match (old(self).viewing, final(self).viewing) {
                (None, None) => true,
                (Some(before), Some(after)) => {
                    &&& after.player == before.player
                    &&& after.title == before.title
                    &&& after.duration == before.duration
                    &&& after.accrued == before.accrued
                    &&& after.recorded == (if before.recorded == Some(RecordOutcome::Recorded(row)) {
                        Some(RecordOutcome::Undone)
                    } else {
                        before.recorded
                    })
                    &&& after.row == before.row
                    &&& after.logged == before.logged
                },
                _ => false,
            },
    {
        match self.viewing.as_mut() {
            Some(viewing) => {
                if viewing.recorded == Some(RecordOutcome::Recorded(row)) {
                    viewing.recorded = Some(RecordOutcome::Undone);
                }
            },
            None => {},
        }
    }

    /// The row the next write for this viewing goes into: its own, unless
    /// that row already holds a recording, which nothing overwrites.
    pub fn open_row(&self) -> (row: Option<HistoryId>)
        ensures
            row == self.spec_open_row(),
    {
        match &self.viewing {
            Some(viewing) => if viewing.logged == Some(Logged::Recorded) {
                None
            } else {
                viewing.row
            },
            None => None,
        }
    }

    pub fn logged(&self) -> (logged: Option<Logged>)
        ensures
            logged == self.spec_logged(),
    {
        match &self.viewing {
            Some(viewing) => viewing.logged,
            None => None,
        }
    }

    /// `row` now says `logged`.
    pub fn wrote(&mut self, row: HistoryId, logged: Logged)
        ensures
            final(self).cursor == old(self).cursor,
            match (old(self).viewing, final(self).viewing) {
                (None, None) => true,
                (Some(before), Some(after)) => {
                    &&& after.player == before.player
                    &&& after.title == before.title
                    &&& after.duration == before.duration
                    &&& after.accrued == before.accrued
                    &&& after.recorded == before.recorded
                    &&& after.row == Some(row)
                    &&& after.logged == Some(logged)
                },
                _ => false,
            },
    {
        match self.viewing.as_mut() {
            Some(viewing) => {
                viewing.row = Some(row);
                viewing.logged = Some(logged);
            },
            None => {},
        }
    }

    /// A write of `logged` failed; the row, if any, still says what it did.
    pub fn tried(&mut self, logged: Logged)
        ensures
            final(self).cursor == old(self).cursor,
            match (old(self).viewing, final(self).viewing) {
                (None, None) => true,
                (Some(before), Some(after)) => {
                    &&& after.player == before.player
                    &&& after.title == before.title
                    &&& after.duration == before.duration
                    &&& after.accrued == before.accrued
                    &&& after.recorded == before.recorded
                    &&& after.row == before.row
                    &&& after.logged == Some(logged)
                },
                _ => false,
            },
    {
        match self.viewing.as_mut() {
            Some(viewing) => {
                viewing.logged = Some(logged);
            },
            None => {},
        }
    }

    pub fn is_watching(&self, event: &PlaybackEvent) -> (watching: bool)
        ensures
            watching == self.spec_is_watching(*event),
    {
        match &self.viewing {
            Some(viewing) => viewing.is(event),
            None => false,
        }
    }

    /// The countdown of the standing viewing, `None` when nothing is being
    /// watched.
    pub fn progress(&self) -> (progress: Option<Accrual>)
        ensures
            progress == self.spec_progress(),
    {
        match &self.viewing {
            Some(viewing) => {
                let threshold = if viewing.duration == 0 {
                    FALLBACK_THRESHOLD
                } else {
                    viewing.duration / 2
                };
                Some(
                    Accrual {
                        accrued: viewing.accrued,
                        threshold,
                        recorded: viewing.recorded,
                    },
                )
            },
            None => None,
        }
    }
}

} // verus!
