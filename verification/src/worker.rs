//! The decisions of the worker every detection strategy runs inside: how a
//! burst of messages becomes one wake, how a refresh becomes the
//! Diagnostics rows and at most one event, and how soon the worker looks
//! again. The thread, the channel and the platform source stay outside.

use vstd::prelude::*;

use crate::playback::PlaybackEvent;
use crate::players::PlayerRow;
use crate::session::{spec_observe, Dedup, Matched, Observation, Reading, Seen, SessionFacts, Tracking, observe};

verus! {

/// How long the worker waits between looks while something moves: a player
/// that never raises a timeline event still moves its position, and a
/// session that was unreadable may be ready now. Nanoseconds.
pub const POLL: u64 = 1_000_000_000;

/// How soon the worker looks again when the platform says nothing.
#[derive(Clone, Copy, Debug, PartialEq, Eq, Structural)]
pub enum Pace {
    /// Nanoseconds until the next look.
    Poll(u64),
    /// Nothing is moving; wait for the platform to speak.
    Idle,
}

impl Pace {
    /// Poll while something plays or a matched session cannot be read yet;
    /// otherwise wait for the platform.
    pub fn watching(playing: bool, unreadable: usize) -> (pace: Pace)
        ensures
            pace == if playing || unreadable > 0 {
                Pace::Poll(POLL)
            } else {
                Pace::Idle
            },
    {
        if playing || unreadable > 0 {
            Pace::Poll(POLL)
        } else {
            Pace::Idle
        }
    }
}

/// What woke the worker, after a burst has been coalesced.
#[derive(Clone, Copy, Debug, PartialEq, Eq, Structural)]
pub struct Wake {
    /// The platform announced a change to the session set, so per-session
    /// subscriptions may be attached to sessions that are gone.
    pub sessions_changed: bool,
}

/// What the worker's channel carries.
pub enum Msg {
    SessionsChanged,
    SessionChanged,
    /// The person's newest player rows.
    Players(Vec<PlayerRow>),
    Stop,
}

/// The mailbox's memory between refreshes: the newest rows the messages
/// carried, for the worker to take before the next refresh.
pub struct Inbox {
    pub rows: Option<Vec<PlayerRow>>,
}

/// Whether a burst holds a stop.
pub open spec fn stops(msgs: Seq<Msg>) -> bool {
    exists|i: int| 0 <= i < msgs.len() && #[trigger] msgs[i] is Stop
}

/// Whether a burst announces a change to the session set.
pub open spec fn announces(msgs: Seq<Msg>) -> bool {
    exists|i: int| 0 <= i < msgs.len() && #[trigger] msgs[i] is SessionsChanged
}

/// The rows a burst leaves: the last it carried, else what was there.
pub open spec fn newest_rows(rows: Option<Vec<PlayerRow>>, msgs: Seq<Msg>) -> Option<Vec<PlayerRow>>
    decreases msgs.len(),
{
    if msgs.len() == 0 {
        rows
    } else {
        match msgs.last() {
            Msg::Players(newer) => Some(newer),
            _ => newest_rows(rows, msgs.drop_last()),
        }
    }
}

impl Inbox {
    pub fn new() -> (inbox: Inbox)
        ensures
            inbox.rows is None,
    {
        Inbox { rows: None }
    }

    /// Records what one message means for the next refresh. False means
    /// stop.
    pub fn note(&mut self, wake: &mut Wake, msg: Msg) -> (go_on: bool)
        ensures
            go_on == !(msg is Stop),
            final(wake).sessions_changed == (old(wake).sessions_changed || msg is SessionsChanged),
            final(self).rows == match msg {
                Msg::Players(rows) => Some(rows),
                _ => old(self).rows,
            },
    {
        match msg {
            Msg::SessionsChanged => {
                wake.sessions_changed = true;
            },
            Msg::SessionChanged => {},
            Msg::Players(rows) => {
                self.rows = Some(rows);
            },
            Msg::Stop => {
                return false;
            },
        }
        true
    }

    /// Coalesces a burst of messages into one wake without losing the
    /// session-set signal, keeping the newest rows. `None` means stop.
    pub fn burst(&mut self, msgs: Vec<Msg>) -> (wake: Option<Wake>)
        ensures
            stops(msgs@) ==> wake is None,
            !stops(msgs@) ==> wake == Some(Wake { sessions_changed: announces(msgs@) }) && final(self).rows
                == newest_rows(old(self).rows, msgs@),
    {
        let ghost all = msgs@;
        let total = msgs.len();
        let mut wake = Wake { sessions_changed: false };
        let mut pending = msgs;
        let mut taken: usize = 0;
        while pending.len() > 0
            invariant
                all.len() == total,
                all == msgs@,
                taken + pending@.len() == all.len(),
                pending@ == all.skip(taken as int),
                !stops(all.take(taken as int)),
                wake.sessions_changed == announces(all.take(taken as int)),
                self.rows == newest_rows(old(self).rows, all.take(taken as int)),
            decreases pending@.len(),
        {
            let msg = pending.remove(0);
            assert(msg == all[taken as int]);
            assert(all.take(taken + 1).drop_last() =~= all.take(taken as int));
            if !self.note(&mut wake, msg) {
                assert(all[taken as int] is Stop);
                assert(stops(all)) by {
                    assert(all[taken as int] is Stop);
                }
                return None;
            }
            assert(!stops(all.take(taken + 1))) by {
                if stops(all.take(taken + 1)) {
                    let i = choose|i: int| 0 <= i < all.take(taken + 1).len() && #[trigger] all.take(taken + 1)[i] is Stop;
                    if i < taken {
                        assert(all.take(taken as int)[i] is Stop);
                    }
                }
            }
            assert(wake.sessions_changed == announces(all.take(taken + 1))) by {
                if announces(all.take(taken + 1)) && !announces(all.take(taken as int)) {
                    let i = choose|i: int| 0 <= i < all.take(taken + 1).len() && #[trigger] all.take(taken + 1)[i] is SessionsChanged;
                    if i < taken {
                        assert(all.take(taken as int)[i] is SessionsChanged);
                    }
                }
                if announces(all.take(taken as int)) {
                    let i = choose|i: int| 0 <= i < all.take(taken as int).len() && #[trigger] all.take(taken as int)[i] is SessionsChanged;
                    assert(all.take(taken + 1)[i] is SessionsChanged);
                }
                if all[taken as int] is SessionsChanged {
                    assert(all.take(taken + 1)[taken as int] is SessionsChanged);
                }
            }
            taken = taken + 1;
        }
        assert(all.take(all.len() as int) =~= all);
        Some(wake)
    }
}

/// What one refresh hands the outside: every session's Diagnostics row, at
/// most one event for the sink, and how soon to look again.
pub struct Published {
    pub rows: Vec<SessionFacts>,
    pub event: Option<PlaybackEvent>,
    pub pace: Pace,
}

/// Whether `facts` is the Diagnostics row of `seen`.
pub open spec fn row_of(seen: Seen, facts: SessionFacts) -> bool {
    &&& facts.app_id == seen.app_id
    &&& facts.status == seen.status
    &&& facts.hidden == (seen.tracking is Hidden)
    &&& match seen.tracking {
        Tracking::Unknown => facts.title@.len() == 0 && facts.player is None,
        Tracking::Hidden(player) => facts.title@.len() == 0 && facts.player == Some(player.name),
        Tracking::Unreadable(player) => facts.title@.len() == 0 && facts.player == Some(player.name),
        Tracking::Watched(matched) => facts.title == matched.snapshot.title && facts.player == Some(
            matched.player.name,
        ),
    }
}

/// The watched sessions of a refresh, in order.
pub open spec fn watched_of<'a>(sessions: Seq<Seen<'a>>) -> Seq<Matched<'a>>
    decreases sessions.len(),
{
    if sessions.len() == 0 {
        Seq::empty()
    } else {
        let earlier = watched_of(sessions.drop_last());
        match sessions.last().tracking {
            Tracking::Watched(matched) => earlier.push(matched),
            _ => earlier,
        }
    }
}

/// How many matched sessions of a refresh could not be read.
pub open spec fn unreadable_of(sessions: Seq<Seen>) -> nat
    decreases sessions.len(),
{
    if sessions.len() == 0 {
        0
    } else {
        unreadable_of(sessions.drop_last()) + if sessions.last().tracking is Unreadable {
            1nat
        } else {
            0nat
        }
    }
}

/// When the current run of unreadable refreshes began: it ends when every
/// matched session reads, and otherwise keeps its start.
pub open spec fn next_unreadable_since(unreadable: nat, since: Option<u64>, now: u64) -> Option<u64> {
    if unreadable == 0 {
        None
    } else if since is Some {
        since
    } else {
        Some(now)
    }
}

/// The one path from a refresh to the core: every session becomes a
/// Diagnostics row, the watched ones become at most one event. The counts
/// the observation needs are derived from the rows rather than carried
/// beside them, so a strategy cannot report a matched session it forgot to
/// count.
pub struct Publisher {
    pub dedup: Dedup,
    /// When the current run of unreadable matched sessions began, and `None`
    /// while every matched session reads.
    pub unreadable_since: Option<u64>,
}

impl Publisher {
    pub fn new() -> (publisher: Publisher)
        ensures
            publisher.dedup.last() is None,
            publisher.unreadable_since is None,
    {
        Publisher { dedup: Dedup::default(), unreadable_since: None }
    }

    pub fn publish(&mut self, reading: Reading, now: u64) -> (published: Published)
        ensures
            published.rows@.len() == reading.sessions@.len(),
            forall|i: int| 0 <= i < reading.sessions@.len() ==> row_of(reading.sessions@[i], #[trigger] published.rows@[i]),
            final(self).unreadable_since == next_unreadable_since(
                unreadable_of(reading.sessions@),
                old(self).unreadable_since,
                now,
            ),
            ({
                let observation = spec_observe(
                    watched_of(reading.sessions@),
                    final(self).unreadable_since,
                    now,
                    reading.front,
                );
                match old(self).dedup.candidate(observation, now) {
                    Some(event) => if old(self).dedup.last() is Some && crate::session::spec_same_except_time(
                        event,
                        old(self).dedup.last().unwrap(),
                    ) {
                        published.event is None && final(self).dedup.last() == old(self).dedup.last()
                    } else {
                        published.event == Some(event) && final(self).dedup.last() == Some(event)
                    },
                    None => published.event is None && final(self).dedup.last() == old(self).dedup.last(),
                }
            }),
            published.pace == if (final(self).dedup.last() matches Some(last) && last.status
                == crate::playback::PlaybackStatus::Playing) || unreadable_of(reading.sessions@) > 0 {
                Pace::Poll(POLL)
            } else {
                Pace::Idle
            },
    {
        let Reading { front, sessions } = reading;
        let ghost all = sessions@;
        let total = sessions.len();
        let mut sessions = sessions;
        let mut rows: Vec<SessionFacts> = Vec::new();
        let mut watched: Vec<Matched> = Vec::new();
        let mut unreadable: usize = 0;
        let mut taken: usize = 0;
        while sessions.len() > 0
            invariant
                all.len() == total,
                taken + sessions@.len() == all.len(),
                sessions@ == all.skip(taken as int),
                rows@.len() == taken,
                forall|i: int| 0 <= i < taken ==> row_of(all[i], #[trigger] rows@[i]),
                watched@ == watched_of(all.take(taken as int)),
                unreadable == unreadable_of(all.take(taken as int)),
                unreadable <= taken,
            decreases sessions@.len(),
        {
            let seen = sessions.remove(0);
            assert(seen == all[taken as int]);
            assert(all.take(taken + 1).drop_last() =~= all.take(taken as int));
            rows.push(seen.facts());
            match seen.tracking {
                Tracking::Unknown => {},
                Tracking::Hidden(_) => {},
                Tracking::Unreadable(_) => {
                    unreadable = unreadable + 1;
                },
                Tracking::Watched(matched) => {
                    watched.push(matched);
                },
            }
            taken = taken + 1;
        }
        assert(all.take(all.len() as int) =~= all);
        self.unreadable_since = if unreadable == 0 {
            None
        } else if self.unreadable_since.is_some() {
            self.unreadable_since
        } else {
            Some(now)
        };
        let observation = observe(watched.as_slice(), self.unreadable_since, now, &front);
        let event = self.dedup.let_through(observation, now);
        let pace = Pace::watching(self.dedup.is_playing(), unreadable);
        Published { rows, event, pace }
    }
}

} // verus!
