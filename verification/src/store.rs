//! The part of the library store that needs no database: the rows SQLite
//! hands over, read into the library's records with every check a row must
//! pass, and the decisions a write makes before it touches a table.
//!
//! Stored times are whole seconds since the Unix epoch; the records carry
//! nanoseconds.

use vstd::prelude::*;

use crate::history::{HistoryId, HistoryPage, Recorded, Watch, WatchOutcome};
use crate::library::{Decline, EntryId, EpisodeRange, LibraryEntry, WatchStatus};
use crate::matching::{Confidence, Link, ProposedMatch};
use crate::text::same_text;

verus! {

pub const NANOS_PER_SEC: u64 = 1_000_000_000;

/// The library's schema version as SQLite stores it (`PRAGMA user_version`).
#[derive(Clone, Copy, Debug, PartialEq, Eq, Structural)]
pub struct SchemaVersion(pub i64);

/// The library file was not a readable database and now lives at `backup`.
#[derive(Clone, Debug, PartialEq, Eq)]
pub struct Recovered {
    pub backup: String,
}

/// An entry and the watch that last moved its progress, both as stored
/// after the same transaction.
#[derive(Clone, Debug, PartialEq, Eq)]
pub struct Recording {
    pub entry: LibraryEntry,
    pub watch: Watch,
}

/// An entry added from a watch and that watch's row carrying the mark, both
/// as stored after the same transaction.
#[derive(Clone, Debug, PartialEq, Eq)]
pub struct Added {
    pub entry: LibraryEntry,
    pub watch: Watch,
}

/// What the store finds broken in its own rows, or refuses to write.
#[derive(Clone, Copy, Debug, PartialEq, Eq)]
pub enum RowError {
    NotFound { id: EntryId },
    InvalidRow { id: EntryId, field: &'static str },
    InvalidLastMatch { field: &'static str },
    InvalidHistoryRow { id: HistoryId, field: &'static str },
    /// The row is missing, not a recording, or already undone.
    NothingToUndo { id: HistoryId },
    /// The entry's progress is no longer what the recording wrote, so
    /// putting `progress_before` back would erase whatever moved it since.
    MovedOn { id: HistoryId },
    /// A write aimed at a watch's own row found it missing or already
    /// holding a recording, which nothing may overwrite.
    WatchClosed { id: HistoryId },
}

/// A stored count as a `u32`, when it is one.
pub open spec fn spec_count(value: i64) -> Option<u32> {
    if 0 <= value <= u32::MAX {
        Some(value as u32)
    } else {
        None
    }
}

/// A stored time as nanoseconds since the epoch: a negative stamp, or one
/// past what nanoseconds can count, is a broken row.
pub open spec fn spec_unix_time(secs: i64) -> Option<u64> {
    if 0 <= secs && secs * (NANOS_PER_SEC as int) <= u64::MAX {
        Some((secs * (NANOS_PER_SEC as int)) as u64)
    } else {
        None
    }
}

/// An optional stored time: `None` stays `None`, a broken one is `Err`.
pub open spec fn spec_optional_time(secs: Option<i64>) -> Result<Option<u64>, ()> {
    match secs {
        None => Ok(None),
        Some(secs) => match spec_unix_time(secs) {
            Some(at) => Ok(Some(at)),
            None => Err(()),
        },
    }
}

/// An optional stored count: `None` stays `None`, a broken one is `Err`.
pub open spec fn spec_optional_count(value: Option<i64>) -> Result<Option<u32>, ()> {
    match value {
        None => Ok(None),
        Some(value) => match spec_count(value) {
            Some(n) => Ok(Some(n)),
            None => Err(()),
        },
    }
}

/// The entry column as an id.
pub open spec fn entry_of(id: Option<i64>) -> Option<EntryId> {
    match id {
        Some(id) => Some(EntryId(id)),
        None => None,
    }
}

/// The two episode columns read as one value: both NULL is no episode, both
/// set and ordered is the span, anything else is a broken row.
pub open spec fn spec_episode_range(low: Option<i64>, high: Option<i64>) -> Result<Option<EpisodeRange>, ()> {
    match (low, high) {
        (None, None) => Ok(None),
        (Some(low), Some(high)) => match (spec_count(low), spec_count(high)) {
            (Some(start), Some(end)) => if start <= end {
                Ok(Some(EpisodeRange { start, end }))
            } else {
                Err(())
            },
            _ => Err(()),
        },
        _ => Err(()),
    }
}

/// The two episode columns a range is written as.
pub open spec fn episode_columns(episode: Option<EpisodeRange>) -> (Option<i64>, Option<i64>) {
    match episode {
        Some(range) => (Some(range.start as i64), Some(range.end as i64)),
        None => (None, None),
    }
}

pub fn count(value: i64) -> (n: Option<u32>)
    ensures
        n == spec_count(value),
{
    if 0 <= value && value <= 0xFFFF_FFFFi64 {
        Some(value as u32)
    } else {
        None
    }
}

/// Inverse of [`unix_secs`] on whole seconds; a negative stamp is a broken
/// row.
pub fn unix_time(secs: i64) -> (at: Option<u64>)
    ensures
        at == spec_unix_time(secs),
{
    if secs < 0 {
        return None;
    }
    let secs = secs as u64;
    secs.checked_mul(NANOS_PER_SEC)
}

/// A time as the whole seconds the store writes.
pub fn unix_secs(at: u64) -> (secs: i64)
    ensures
        secs == at / NANOS_PER_SEC,
{
    (at / NANOS_PER_SEC) as i64
}

pub fn optional_time(secs: Option<i64>) -> (at: Result<Option<u64>, ()>)
    ensures
        at == spec_optional_time(secs),
{
    match secs {
        None => Ok(None),
        Some(secs) => match unix_time(secs) {
            Some(at) => Ok(Some(at)),
            None => Err(()),
        },
    }
}

pub fn optional_count(value: Option<i64>) -> (n: Result<Option<u32>, ()>)
    ensures
        n == spec_optional_count(value),
{
    match value {
        None => Ok(None),
        Some(value) => match count(value) {
            Some(n) => Ok(Some(n)),
            None => Err(()),
        },
    }
}

/// The two episode columns read as one value.
pub fn episode_range(low: Option<i64>, high: Option<i64>) -> (range: Result<Option<EpisodeRange>, ()>)
    ensures
        range == spec_episode_range(low, high),
{
    match (low, high) {
        (None, None) => Ok(None),
        (Some(low), Some(high)) => {
            let start = match count(low) {
                Some(start) => start,
                None => return Err(()),
            };
            let end = match count(high) {
                Some(end) => end,
                None => return Err(()),
            };
            if start <= end {
                Ok(Some(EpisodeRange { start, end }))
            } else {
                Err(())
            }
        },
        _ => Err(()),
    }
}

/// Writing a well-formed range as its two columns and reading them back
/// gives the range; no episode reads back as no episode.
pub proof fn lemma_episode_columns_round_trip(episode: Option<EpisodeRange>)
    requires
        match episode {
            Some(range) => range.start <= range.end,
            None => true,
        },
    ensures
        spec_episode_range(episode_columns(episode).0, episode_columns(episode).1) == Ok::<
            Option<EpisodeRange>,
            (),
        >(episode),
{
}

/// A time written as whole seconds reads back as the start of its second.
pub proof fn lemma_unix_time_round_trip(at: u64)
    ensures
        spec_unix_time((at / NANOS_PER_SEC) as i64) == Some(
            ((at / NANOS_PER_SEC) * NANOS_PER_SEC) as u64,
        ),
        (at / NANOS_PER_SEC) * NANOS_PER_SEC <= at < (at / NANOS_PER_SEC) * NANOS_PER_SEC
            + NANOS_PER_SEC,
{
    assert((at / NANOS_PER_SEC) * NANOS_PER_SEC <= at) by (nonlinear_arith);
    assert(at < (at / NANOS_PER_SEC) * NANOS_PER_SEC + NANOS_PER_SEC) by (nonlinear_arith);
}

/// A library row as SQLite hands it over, before the domain checks.
pub struct RawEntry {
    pub id: i64,
    pub title: String,
    pub status: String,
    pub progress: i64,
    pub total: Option<i64>,
    pub rewatching: bool,
}

impl RawEntry {
    /// The first column that breaks the row, in the order they are read.
    pub open spec fn fault(&self) -> Option<Seq<char>> {
        if WatchStatus::spec_from_tag(self.status@) is None {
            Some("status"@)
        } else if spec_count(self.progress) is None {
            Some("progress"@)
        } else if spec_optional_count(self.total) is Err {
            Some("total"@)
        } else {
            None
        }
    }

    /// The entry the row holds, or which column breaks it.
    pub fn parse(self) -> (parsed: Result<LibraryEntry, RowError>)
        ensures
            match parsed {
                Ok(entry) => {
                    &&& self.fault() is None
                    &&& entry.id == EntryId(self.id)
                    &&& entry.title == self.title
                    &&& WatchStatus::spec_from_tag(self.status@) == Some(entry.status)
                    &&& spec_count(self.progress) == Some(entry.progress)
                    &&& spec_optional_count(self.total) == Ok::<Option<u32>, ()>(entry.total)
                    &&& entry.rewatching == self.rewatching
                },
                Err(error) => error matches RowError::InvalidRow { id, field } && id == EntryId(
                    self.id,
                ) && self.fault() == Some(field@),
            },
    {
        let id = EntryId(self.id);
        let status = match WatchStatus::from_tag(self.status.as_str()) {
            Some(status) => status,
            None => return Err(RowError::InvalidRow { id, field: "status" }),
        };
        let progress = match count(self.progress) {
            Some(progress) => progress,
            None => return Err(RowError::InvalidRow { id, field: "progress" }),
        };
        let total = match optional_count(self.total) {
            Ok(total) => total,
            Err(()) => return Err(RowError::InvalidRow { id, field: "total" }),
        };
        Ok(LibraryEntry { id, title: self.title, status, progress, total, rewatching: self.rewatching })
    }
}

/// The last-match row as SQLite hands it over, before the domain checks.
pub struct RawLastMatch {
    pub raw_title: String,
    pub parsed_title: String,
    pub episode: Option<i64>,
    pub season: Option<i64>,
    pub release_group: Option<String>,
    pub entry_id: Option<i64>,
    pub confidence: String,
    pub player: String,
    pub at: i64,
    pub episode_end: Option<i64>,
}

impl RawLastMatch {
    /// The first column that breaks the row, in the order they are read.
    pub open spec fn fault(&self) -> Option<Seq<char>> {
        if spec_episode_range(self.episode, self.episode_end) is Err {
            Some("episode"@)
        } else if spec_optional_count(self.season) is Err {
            Some("season"@)
        } else if Confidence::spec_from_tag(self.confidence@) is None {
            Some("confidence"@)
        } else if Link::spec_from_columns(
            entry_of(self.entry_id),
            Confidence::spec_from_tag(self.confidence@).unwrap(),
        ) is None {
            Some("link"@)
        } else if spec_unix_time(self.at) is None {
            Some("at"@)
        } else {
            None
        }
    }

    /// The proposal the row holds, or which column breaks it.
    pub fn parse(self) -> (parsed: Result<ProposedMatch, RowError>)
        ensures
            match parsed {
                Ok(m) => {
                    &&& self.fault() is None
                    &&& m.raw_title == self.raw_title
                    &&& m.parsed_title == self.parsed_title
                    &&& spec_episode_range(self.episode, self.episode_end) == Ok::<
                        Option<EpisodeRange>,
                        (),
                    >(m.episode)
                    &&& spec_optional_count(self.season) == Ok::<Option<u32>, ()>(m.season)
                    &&& m.release_group == self.release_group
                    &&& Link::spec_from_columns(
                        entry_of(self.entry_id),
                        Confidence::spec_from_tag(self.confidence@).unwrap(),
                    ) == Some(m.link)
                    &&& m.player == self.player
                    &&& spec_unix_time(self.at) == Some(m.at)
                },
                Err(error) => error matches RowError::InvalidLastMatch { field } && self.fault()
                    == Some(field@),
            },
    {
        let episode = match episode_range(self.episode, self.episode_end) {
            Ok(episode) => episode,
            Err(()) => return Err(RowError::InvalidLastMatch { field: "episode" }),
        };
        let season = match optional_count(self.season) {
            Ok(season) => season,
            Err(()) => return Err(RowError::InvalidLastMatch { field: "season" }),
        };
        let confidence = match Confidence::from_tag(self.confidence.as_str()) {
            Some(confidence) => confidence,
            None => return Err(RowError::InvalidLastMatch { field: "confidence" }),
        };
        let entry = match self.entry_id {
            Some(id) => Some(EntryId(id)),
            None => None,
        };
        let link = match Link::from_columns(entry, confidence) {
            Some(link) => link,
            None => return Err(RowError::InvalidLastMatch { field: "link" }),
        };
        let at = match unix_time(self.at) {
            Some(at) => at,
            None => return Err(RowError::InvalidLastMatch { field: "at" }),
        };
        Ok(ProposedMatch {
            raw_title: self.raw_title,
            parsed_title: self.parsed_title,
            episode,
            season,
            release_group: self.release_group,
            link,
            player: self.player,
            at,
        })
    }
}

/// A history row as SQLite hands it over, before the domain checks.
pub struct RawWatch {
    pub id: i64,
    pub entry_id: Option<i64>,
    pub episode: Option<i64>,
    pub episode_end: Option<i64>,
    pub progress_before: Option<i64>,
    pub progress: Option<i64>,
    pub raw_title: Option<String>,
    pub player: Option<String>,
    pub at: i64,
    pub undone_at: Option<i64>,
    pub parsed_title: Option<String>,
    pub confidence: String,
    pub reason: Option<String>,
    pub recorded_at: Option<i64>,
    pub added_at: Option<i64>,
    /// Set only for a row its other columns cannot tell apart.
    pub kind: Option<String>,
}

impl RawWatch {
    /// What the row came to, given its link and episode, or the column that
    /// breaks it. The outcome is `kind` when it names one, else it is read
    /// from which columns are set: the progress pair means a recording,
    /// else a reason means a decline, else the added mark alone.
    pub open spec fn spec_outcome(&self, link: Link, episode: Option<EpisodeRange>) -> Result<WatchOutcome, Seq<char>> {
        match self.kind {
            Some(kind) => if kind@ == "ignored"@ {
                // An ignore is nothing being done, so a row claiming one
                // alongside a write or a refusal is contradictory.
                if self.progress is Some || self.reason is Some {
                    Err("kind"@)
                } else {
                    Ok(WatchOutcome::Ignored)
                }
            } else {
                Err("kind"@)
            },
            None => match (self.progress_before, self.progress, self.recorded_at) {
                (Some(before), Some(progress), Some(recorded_at)) => {
                    if !(link is Exact) {
                        Err("link"@)
                    } else if episode is None {
                        Err("episode"@)
                    } else if spec_count(before) is None {
                        Err("progress_before"@)
                    } else if spec_count(progress) is None {
                        Err("progress"@)
                    } else if spec_unix_time(recorded_at) is None {
                        Err("recorded_at"@)
                    } else if spec_optional_time(self.undone_at) is Err {
                        Err("undone_at"@)
                    } else {
                        Ok(
                            WatchOutcome::Recorded(
                                Recorded {
                                    progress_before: spec_count(before).unwrap(),
                                    progress: spec_count(progress).unwrap(),
                                    at: spec_unix_time(recorded_at).unwrap(),
                                    undone_at: spec_optional_time(self.undone_at).unwrap(),
                                },
                            ),
                        )
                    }
                },
                (None, None, None) => if self.undone_at is Some {
                    Err("undone_at"@)
                } else {
                    match self.reason {
                        Some(reason) => match Decline::spec_from_tag(reason@) {
                            Some(decline) => Ok(WatchOutcome::Declined(decline)),
                            None => Err("reason"@),
                        },
                        None => if self.added_at is Some {
                            Ok(WatchOutcome::Added)
                        } else {
                            Err("outcome"@)
                        },
                    }
                },
                _ => Err("progress"@),
            },
        }
    }

    /// The link the row's two columns spell, when its confidence parses.
    pub open spec fn spec_link(&self) -> Option<Link> {
        match Confidence::spec_from_tag(self.confidence@) {
            Some(confidence) => Link::spec_from_columns(entry_of(self.entry_id), confidence),
            None => None,
        }
    }

    /// The first column that breaks the row, in the order they are read.
    pub open spec fn fault(&self) -> Option<Seq<char>> {
        if Confidence::spec_from_tag(self.confidence@) is None {
            Some("confidence"@)
        } else if self.spec_link() is None {
            Some("link"@)
        } else if spec_episode_range(self.episode, self.episode_end) is Err {
            Some("episode"@)
        } else if self.spec_outcome(
            self.spec_link().unwrap(),
            spec_episode_range(self.episode, self.episode_end).unwrap(),
        ) is Err {
            Some(
                self.spec_outcome(
                    self.spec_link().unwrap(),
                    spec_episode_range(self.episode, self.episode_end).unwrap(),
                )->Err_0,
            )
        } else if spec_unix_time(self.at) is None {
            Some("at"@)
        } else if self.raw_title is None {
            Some("raw_title"@)
        } else if self.player is None {
            Some("player"@)
        } else if spec_optional_time(self.added_at) is Err {
            Some("added_at"@)
        } else {
            None
        }
    }

    fn outcome(&self, link: Link, episode: Option<EpisodeRange>) -> (outcome: Result<WatchOutcome, &'static str>)
        ensures
            match outcome {
                Ok(outcome) => self.spec_outcome(link, episode) == Ok::<WatchOutcome, Seq<char>>(outcome),
                Err(field) => self.spec_outcome(link, episode) == Err::<WatchOutcome, Seq<char>>(field@),
            },
    {
        match &self.kind {
            Some(kind) => {
                if same_text(kind.as_str(), "ignored") {
                    if self.progress.is_some() || self.reason.is_some() {
                        Err("kind")
                    } else {
                        Ok(WatchOutcome::Ignored)
                    }
                } else {
                    Err("kind")
                }
            },
            None => match (self.progress_before, self.progress, self.recorded_at) {
                (Some(before), Some(progress), Some(recorded_at)) => {
                    if !matches!(link, Link::Exact(_)) {
                        return Err("link");
                    }
                    if episode.is_none() {
                        return Err("episode");
                    }
                    let progress_before = match count(before) {
                        Some(n) => n,
                        None => return Err("progress_before"),
                    };
                    let progress = match count(progress) {
                        Some(n) => n,
                        None => return Err("progress"),
                    };
                    let at = match unix_time(recorded_at) {
                        Some(at) => at,
                        None => return Err("recorded_at"),
                    };
                    let undone_at = match optional_time(self.undone_at) {
                        Ok(undone_at) => undone_at,
                        Err(()) => return Err("undone_at"),
                    };
                    Ok(WatchOutcome::Recorded(Recorded { progress_before, progress, at, undone_at }))
                },
                (None, None, None) => {
                    if self.undone_at.is_some() {
                        return Err("undone_at");
                    }
                    match &self.reason {
                        Some(reason) => match Decline::from_tag(reason.as_str()) {
                            Some(decline) => Ok(WatchOutcome::Declined(decline)),
                            None => Err("reason"),
                        },
                        None => if self.added_at.is_some() {
                            Ok(WatchOutcome::Added)
                        } else {
                            Err("outcome")
                        },
                    }
                },
                _ => Err("progress"),
            },
        }
    }

    /// The watch the row holds, or which column breaks it.
    pub fn parse(self) -> (parsed: Result<Watch, RowError>)
        ensures
            match parsed {
                Ok(watch) => {
                    &&& self.fault() is None
                    &&& watch.id == HistoryId(self.id)
                    &&& spec_unix_time(self.at) == Some(watch.at)
                    &&& self.raw_title == Some(watch.raw_title)
                    &&& watch.parsed_title@ == match self.parsed_title {
                        Some(title) => title@,
                        None => Seq::<char>::empty(),
                    }
                    &&& self.player == Some(watch.player)
                    &&& spec_episode_range(self.episode, self.episode_end) == Ok::<
                        Option<EpisodeRange>,
                        (),
                    >(watch.episode)
                    &&& self.spec_link() == Some(watch.link)
                    &&& self.spec_outcome(watch.link, watch.episode) == Ok::<
                        WatchOutcome,
                        Seq<char>,
                    >(watch.outcome)
                    &&& spec_optional_time(self.added_at) == Ok::<Option<u64>, ()>(watch.added_at)
                },
                Err(error) => error matches RowError::InvalidHistoryRow { id, field } && id
                    == HistoryId(self.id) && self.fault() == Some(field@),
            },
    {
        let id = HistoryId(self.id);
        let confidence = match Confidence::from_tag(self.confidence.as_str()) {
            Some(confidence) => confidence,
            None => return Err(RowError::InvalidHistoryRow { id, field: "confidence" }),
        };
        let entry = match self.entry_id {
            Some(entry) => Some(EntryId(entry)),
            None => None,
        };
        let link = match Link::from_columns(entry, confidence) {
            Some(link) => link,
            None => return Err(RowError::InvalidHistoryRow { id, field: "link" }),
        };
        let episode = match episode_range(self.episode, self.episode_end) {
            Ok(episode) => episode,
            Err(()) => return Err(RowError::InvalidHistoryRow { id, field: "episode" }),
        };
        let outcome = match self.outcome(link, episode) {
            Ok(outcome) => outcome,
            Err(field) => return Err(RowError::InvalidHistoryRow { id, field }),
        };
        let at = match unix_time(self.at) {
            Some(at) => at,
            None => return Err(RowError::InvalidHistoryRow { id, field: "at" }),
        };
        let RawWatch { raw_title, player, parsed_title, added_at, .. } = self;
        let raw_title = match raw_title {
            Some(title) => title,
            None => return Err(RowError::InvalidHistoryRow { id, field: "raw_title" }),
        };
        let parsed_title = match parsed_title {
            Some(title) => title,
            None => String::new(),
        };
        let player = match player {
            Some(player) => player,
            None => return Err(RowError::InvalidHistoryRow { id, field: "player" }),
        };
        let added_at = match optional_time(added_at) {
            Ok(added_at) => added_at,
            Err(()) => return Err(RowError::InvalidHistoryRow { id, field: "added_at" }),
        };
        Ok(Watch { id, at, raw_title, parsed_title, player, episode, link, outcome, added_at })
    }
}

/// The recording an undo would take back: its entry and what it wrote.
/// A missing row, one that did not record, one already undone, or one
/// whose link names no entry has nothing to undo.
pub open spec fn spec_undo_target(watch: Option<Watch>) -> Option<(EntryId, Recorded)> {
    match watch {
        Some(watch) => match (watch.outcome, watch.link.spec_entry()) {
            (WatchOutcome::Recorded(recorded), Some(entry)) => if recorded.undone_at is None {
                Some((entry, recorded))
            } else {
                None
            },
            _ => None,
        },
        None => None,
    }
}

/// What undoing row `id` would take back, given the row as found.
pub fn undo_target(id: HistoryId, watch: &Option<Watch>) -> (target: Result<(EntryId, Recorded), RowError>)
    ensures
        match target {
            Ok(target) => spec_undo_target(*watch) == Some(target),
            Err(error) => spec_undo_target(*watch) is None && error == RowError::NothingToUndo { id },
        },
{
    let watch = match watch {
        Some(watch) => watch,
        None => return Err(RowError::NothingToUndo { id }),
    };
    match (watch.outcome, watch.link.entry()) {
        (WatchOutcome::Recorded(recorded), Some(entry)) => {
            if recorded.undone_at.is_none() {
                Ok((entry, recorded))
            } else {
                Err(RowError::NothingToUndo { id })
            }
        },
        _ => Err(RowError::NothingToUndo { id }),
    }
}

/// An undo goes ahead only while the entry still stands where the
/// recording left it; restoring otherwise would erase whatever moved it.
pub fn check_unmoved(id: HistoryId, progress: u32, recorded: Recorded) -> (checked: Result<(), RowError>)
    ensures
        checked is Ok <==> progress == recorded.progress,
        checked is Err ==> checked == Err::<(), RowError>(RowError::MovedOn { id }),
{
    if progress != recorded.progress {
        Err(RowError::MovedOn { id })
    } else {
        Ok(())
    }
}

/// How many rows a page of `limit` reads: one past the limit, to learn
/// whether older ones exist, as far as the database's integers reach.
pub fn rows_wanted(limit: usize) -> (wanted: i64)
    ensures
        wanted == if limit >= i64::MAX { i64::MAX as int } else { limit + 1 },
{
    if limit as u64 >= 0x7FFF_FFFF_FFFF_FFFFu64 {
        0x7FFF_FFFF_FFFF_FFFFi64
    } else {
        limit as i64 + 1
    }
}

/// The page a read of up to one row past `limit` makes: the first `limit`
/// rows, and whether there were more.
pub fn page_of(watches: Vec<Watch>, limit: usize) -> (page: HistoryPage)
    ensures
        page.more == (watches@.len() > limit),
        page.watches@ == if watches@.len() > limit {
            watches@.take(limit as int)
        } else {
            watches@
        },
{
    let more = watches.len() > limit;
    let mut watches = watches;
    watches.truncate(limit);
    HistoryPage { watches, more }
}

/// A stored episode count as a `u32`; a sum too large for one, or a
/// negative one, reads as the largest.
pub fn episode_total(sum: i64) -> (total: u32)
    ensures
        total == match spec_count(sum) {
            Some(n) => n,
            None => u32::MAX,
        },
{
    match count(sum) {
        Some(n) => n,
        None => u32::MAX,
    }
}

} // verus!
