//! The library's records, the identities the store mints, and the state a
//! shell renders.

use vstd::prelude::*;

use crate::text::same_text;

verus! {

/// Identity of a stored library entry. Only the store mints these.
#[derive(Clone, Copy, Debug, PartialEq, Eq, Structural, Hash, PartialOrd, Ord)]
pub struct EntryId(pub i64);

impl EntryId {
    pub fn as_i64(self) -> (id: i64)
        ensures
            id == self.0,
    {
        self.0
    }
}

/// Identity of a stored watch event. Only the store mints these.
#[derive(Clone, Copy, Debug, PartialEq, Eq, Structural, Hash, PartialOrd, Ord)]
pub struct WatchEventId(pub i64);

impl WatchEventId {
    pub fn as_i64(self) -> (id: i64)
        ensures
            id == self.0,
    {
        self.0
    }
}

/// Every episode a file carries, from `start` to `end` inclusive; a single
/// episode is a range of one.
#[derive(Clone, Copy, Debug, PartialEq, Eq, Structural)]
pub struct EpisodeRange {
    pub start: u32,
    pub end: u32,
}

impl EpisodeRange {
    pub open spec fn spec_contains(self, n: u32) -> bool {
        self.start <= n && n <= self.end
    }

    pub fn contains(&self, n: u32) -> (b: bool)
        ensures
            b == self.spec_contains(n),
    {
        self.start <= n && n <= self.end
    }
}

/// Why a viewing past its threshold wrote nothing, in the order the gates
/// run: the match first, then the entry.
#[derive(Clone, Copy, Debug, PartialEq, Eq, Structural)]
pub enum Decline {
    NotExact,
    Completed,
    NoEpisode,
    NotNext,
    /// The episode lies past the entry's known total.
    PastTotal,
}

impl Decline {
    pub const ALL: [Decline; 5] = [
        Decline::NotExact,
        Decline::Completed,
        Decline::NoEpisode,
        Decline::NotNext,
        Decline::PastTotal,
    ];

    pub open spec fn spec_tag(self) -> Seq<char> {
        match self {
            Decline::NotExact => "not-exact"@,
            Decline::Completed => "completed"@,
            Decline::NoEpisode => "no-episode"@,
            Decline::NotNext => "not-next"@,
            Decline::PastTotal => "past-total"@,
        }
    }

    /// The decline a stored tag names, if any.
    pub open spec fn spec_from_tag(tag: Seq<char>) -> Option<Decline> {
        if tag == "not-exact"@ {
            Some(Decline::NotExact)
        } else if tag == "completed"@ {
            Some(Decline::Completed)
        } else if tag == "no-episode"@ {
            Some(Decline::NoEpisode)
        } else if tag == "not-next"@ {
            Some(Decline::NotNext)
        } else if tag == "past-total"@ {
            Some(Decline::PastTotal)
        } else {
            None
        }
    }

    /// Stable identifier, as stored in a history row's reason.
    pub fn tag(self) -> (tag: &'static str)
        ensures
            tag@ == self.spec_tag(),
    {
        match self {
            Decline::NotExact => "not-exact",
            Decline::Completed => "completed",
            Decline::NoEpisode => "no-episode",
            Decline::NotNext => "not-next",
            Decline::PastTotal => "past-total",
        }
    }

    /// Inverse of [`Decline::tag`].
    pub fn from_tag(tag: &str) -> (found: Option<Decline>)
        ensures
            found == Decline::spec_from_tag(tag@),
    {
        if same_text(tag, "not-exact") {
            Some(Decline::NotExact)
        } else if same_text(tag, "completed") {
            Some(Decline::Completed)
        } else if same_text(tag, "no-episode") {
            Some(Decline::NoEpisode)
        } else if same_text(tag, "not-next") {
            Some(Decline::NotNext)
        } else if same_text(tag, "past-total") {
            Some(Decline::PastTotal)
        } else {
            None
        }
    }

    pub open spec fn spec_label(self) -> Seq<char> {
        match self {
            Decline::NotExact => "Not recorded: no exact match"@,
            Decline::Completed => "Not recorded: show is completed"@,
            Decline::NoEpisode => "Not recorded: no episode number"@,
            Decline::NotNext => "Not recorded: not the next episode"@,
            Decline::PastTotal => "Not recorded: past the last episode"@,
        }
    }

    /// Human-readable label.
    pub fn label(self) -> (label: &'static str)
        ensures
            label@ == self.spec_label(),
    {
        match self {
            Decline::NotExact => "Not recorded: no exact match",
            Decline::Completed => "Not recorded: show is completed",
            Decline::NoEpisode => "Not recorded: no episode number",
            Decline::NotNext => "Not recorded: not the next episode",
            Decline::PastTotal => "Not recorded: past the last episode",
        }
    }
}

/// Where a show sits in the user's library, in the order the UI lists
/// them. Tags are stored in the library database.
#[derive(Clone, Copy, Debug, PartialEq, Eq, Structural)]
pub enum WatchStatus {
    Watching,
    Completed,
    OnHold,
    Dropped,
    PlanToWatch,
}

impl WatchStatus {
    pub const ALL: [WatchStatus; 5] = [
        WatchStatus::Watching,
        WatchStatus::Completed,
        WatchStatus::OnHold,
        WatchStatus::Dropped,
        WatchStatus::PlanToWatch,
    ];

    pub open spec fn spec_tag(self) -> Seq<char> {
        match self {
            WatchStatus::Watching => "watching"@,
            WatchStatus::Completed => "completed"@,
            WatchStatus::OnHold => "on-hold"@,
            WatchStatus::Dropped => "dropped"@,
            WatchStatus::PlanToWatch => "plan-to-watch"@,
        }
    }

    pub open spec fn spec_label(self) -> Seq<char> {
        match self {
            WatchStatus::Watching => "Watching"@,
            WatchStatus::Completed => "Completed"@,
            WatchStatus::OnHold => "On hold"@,
            WatchStatus::Dropped => "Dropped"@,
            WatchStatus::PlanToWatch => "Plan to watch"@,
        }
    }

    /// The status a stored tag names, if any.
    pub open spec fn spec_from_tag(tag: Seq<char>) -> Option<WatchStatus> {
        if tag == "watching"@ {
            Some(WatchStatus::Watching)
        } else if tag == "completed"@ {
            Some(WatchStatus::Completed)
        } else if tag == "on-hold"@ {
            Some(WatchStatus::OnHold)
        } else if tag == "dropped"@ {
            Some(WatchStatus::Dropped)
        } else if tag == "plan-to-watch"@ {
            Some(WatchStatus::PlanToWatch)
        } else {
            None
        }
    }

    /// Stable identifier, as stored.
    pub fn tag(self) -> (tag: &'static str)
        ensures
            tag@ == self.spec_tag(),
    {
        match self {
            WatchStatus::Watching => "watching",
            WatchStatus::Completed => "completed",
            WatchStatus::OnHold => "on-hold",
            WatchStatus::Dropped => "dropped",
            WatchStatus::PlanToWatch => "plan-to-watch",
        }
    }

    /// Inverse of [`WatchStatus::tag`].
    pub fn from_tag(tag: &str) -> (found: Option<WatchStatus>)
        ensures
            found == WatchStatus::spec_from_tag(tag@),
            match found {
                Some(status) => status.spec_tag() == tag@,
                None => forall|status: WatchStatus| status.spec_tag() != tag@,
            },
    {
        if same_text(tag, "watching") {
            Some(WatchStatus::Watching)
        } else if same_text(tag, "completed") {
            Some(WatchStatus::Completed)
        } else if same_text(tag, "on-hold") {
            Some(WatchStatus::OnHold)
        } else if same_text(tag, "dropped") {
            Some(WatchStatus::Dropped)
        } else if same_text(tag, "plan-to-watch") {
            Some(WatchStatus::PlanToWatch)
        } else {
            None
        }
    }

    /// Human-readable label.
    pub fn label(self) -> (label: &'static str)
        ensures
            label@ == self.spec_label(),
    {
        match self {
            WatchStatus::Watching => "Watching",
            WatchStatus::Completed => "Completed",
            WatchStatus::OnHold => "On hold",
            WatchStatus::Dropped => "Dropped",
            WatchStatus::PlanToWatch => "Plan to watch",
        }
    }
}

/// No two statuses share a tag, so a stored status reads back as itself.
pub proof fn lemma_watch_status_tags_distinct(status: WatchStatus, other: WatchStatus)
    ensures
        status.spec_tag() == other.spec_tag() ==> status == other,
{
    reveal_strlit("watching");
    reveal_strlit("completed");
    reveal_strlit("on-hold");
    reveal_strlit("dropped");
    reveal_strlit("plan-to-watch");
    assert("watching"@.len() == 8);
    assert("completed"@.len() == 9);
    assert("on-hold"@.len() == 7);
    assert("dropped"@.len() == 7);
    assert("plan-to-watch"@.len() == 13);
    assert("on-hold"@[0] != "dropped"@[0]);
}

/// Reading a decline's stored tag back gives that decline, and nothing
/// else reads as one.
pub proof fn lemma_decline_tags_round_trip(decline: Decline)
    ensures
        Decline::spec_from_tag(decline.spec_tag()) == Some(decline),
{
    reveal_strlit("not-exact");
    reveal_strlit("completed");
    reveal_strlit("no-episode");
    reveal_strlit("not-next");
    reveal_strlit("past-total");
    assert("past-total"@.len() == 10);
    assert("past-total"@[0] != "no-episode"@[0]);
    assert("not-exact"@.len() == 9);
    assert("completed"@.len() == 9);
    assert("no-episode"@.len() == 10);
    assert("not-next"@.len() == 8);
    assert("not-exact"@[0] != "completed"@[0]);
}

/// Reading a status's stored tag back gives that status.
pub proof fn lemma_watch_status_tags_round_trip(status: WatchStatus)
    ensures
        WatchStatus::spec_from_tag(status.spec_tag()) == Some(status),
{
    lemma_watch_status_tags_distinct(status, WatchStatus::Watching);
    lemma_watch_status_tags_distinct(status, WatchStatus::Completed);
    lemma_watch_status_tags_distinct(status, WatchStatus::OnHold);
    lemma_watch_status_tags_distinct(status, WatchStatus::Dropped);
}

/// A show about to be added to the library.
#[derive(Clone, Debug, PartialEq, Eq)]
pub struct NewEntry {
    pub title: String,
    pub status: WatchStatus,
    /// Episodes watched so far.
    pub progress: u32,
    /// Total episode count when known.
    pub total: Option<u32>,
    /// Watching again after Completed; lets a recorded episode land on a
    /// finished show.
    pub rewatching: bool,
}

/// One tracked show as stored.
#[derive(Clone, Debug, PartialEq, Eq)]
pub struct LibraryEntry {
    pub id: EntryId,
    pub title: String,
    pub status: WatchStatus,
    /// Episodes watched so far.
    pub progress: u32,
    /// Total episode count when known.
    pub total: Option<u32>,
    /// Watching again after Completed; lets a recorded episode land on a
    /// finished show.
    pub rewatching: bool,
}

} // verus!
