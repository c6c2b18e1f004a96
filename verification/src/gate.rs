//! The decisions the app makes between an observation and a write: the
//! proposal a title makes, the recording a viewing has earned or the first
//! gate that refuses it, what the countdown came to, how a stored row joins
//! the library in memory, and what a library edit does to the standing
//! proposal.

use vstd::prelude::*;

use crate::history::{HistoryId, NewRecording, RecordOutcome};
use crate::library::{Decline, EntryId, EpisodeRange, LibraryEntry, NewEntry, WatchStatus};
use crate::matching::{entry_index, resolve, spec_resolve, Link, ProposedMatch, Resolution};
use crate::playback::PlaybackEvent;
use crate::reading::Reading;
use crate::state::WatchProgress;
use crate::watch::{Accrual, Logged};

verus! {

/// The entry and episodes the standing proposal has earned a recording
/// for, or the first gate that refuses it. The gates run in the order a
/// decline would be explained in: the match, then the entry.
pub open spec fn spec_earned(last_match: Option<ProposedMatch>, library: Seq<LibraryEntry>) -> Result<(EntryId, EpisodeRange), Decline> {
    match last_match {
        None => Err(Decline::NotExact),
        Some(last) => match last.link {
            Link::Exact(id) => match entry_index(library, id, 0) {
                None => Err(Decline::NotExact),
                Some(i) => {
                    let entry = library[i];
                    if entry.status == WatchStatus::Completed && !entry.rewatching {
                        Err(Decline::Completed)
                    } else {
                        match last.episode {
                            None => Err(Decline::NoEpisode),
                            Some(range) => if !(entry.progress < u32::MAX && range.start <= entry.progress
                                + 1 <= range.end) {
                                // A batch spanning the next episode was
                                // watched through its end.
                                Err(Decline::NotNext)
                            } else if entry.total is Some && range.end > entry.total.unwrap() {
                                Err(Decline::PastTotal)
                            } else {
                                Ok((id, range))
                            },
                        }
                    }
                },
            },
            _ => Err(Decline::NotExact),
        },
    }
}

/// The first entry under `id`.
fn find_entry(library: &[LibraryEntry], id: EntryId) -> (found: Option<usize>)
    ensures
        match found {
            Some(i) => entry_index(library@, id, 0) == Some(i as int) && i < library@.len(),
            None => entry_index(library@, id, 0) is None,
        },
{
    let mut i: usize = 0;
    while i < library.len()
        invariant
            i <= library@.len(),
            entry_index(library@, id, 0) == entry_index(library@, id, i as int),
        decreases library@.len() - i,
    {
        if library[i].id == id {
            return Some(i);
        }
        i = i + 1;
    }
    None
}

/// The write the standing viewing has earned, filling `watch` when the
/// viewing already has a row, or the first gate that refuses it.
pub fn earned(last_match: &Option<ProposedMatch>, library: &[LibraryEntry], watch: Option<HistoryId>) -> (earned: Result<NewRecording, Decline>)
    ensures
        match earned {
            Ok(write) => {
                &&& spec_earned(*last_match, library@) == Ok::<(EntryId, EpisodeRange), Decline>(
                    (write.entry, write.episode),
                )
                &&& write.watch == watch
                &&& write.raw_title == last_match.unwrap().raw_title
                &&& write.parsed_title == last_match.unwrap().parsed_title
                &&& write.player == last_match.unwrap().player
            },
            Err(decline) => spec_earned(*last_match, library@) == Err::<(EntryId, EpisodeRange), Decline>(
                decline,
            ),
        },
{
    let last = match last_match {
        Some(last) => last,
        None => return Err(Decline::NotExact),
    };
    let id = match last.link {
        Link::Exact(id) => id,
        _ => return Err(Decline::NotExact),
    };
    let i = match find_entry(library, id) {
        Some(i) => i,
        None => return Err(Decline::NotExact),
    };
    let entry = &library[i];
    if entry.status == WatchStatus::Completed && !entry.rewatching {
        return Err(Decline::Completed);
    }
    let range = match last.episode {
        Some(range) => range,
        None => return Err(Decline::NoEpisode),
    };
    let next = match entry.progress.checked_add(1) {
        Some(next) => next,
        None => return Err(Decline::NotNext),
    };
    if !range.contains(next) {
        return Err(Decline::NotNext);
    }
    if let Some(total) = entry.total {
        if range.end > total {
            return Err(Decline::PastTotal);
        }
    }
    Ok(
        NewRecording {
            watch,
            entry: id,
            episode: range,
            raw_title: last.raw_title.clone(),
            parsed_title: last.parsed_title.clone(),
            player: last.player.clone(),
        },
    )
}

/// A recording only ever moves an entry forward: the entry it names is in
/// the library, not completed unless rewatched, and the episodes it carries
/// hold the one after the entry's progress, so the new progress (the last
/// of them) lies past the old and within any known total.
pub proof fn lemma_earned_moves_forward(last_match: Option<ProposedMatch>, library: Seq<LibraryEntry>)
    ensures
        match spec_earned(last_match, library) {
            Ok((id, range)) => match entry_index(library, id, 0) {
                Some(i) => {
                    &&& library[i].progress < range.end
                    &&& range.start <= library[i].progress + 1
                    &&& (library[i].status == WatchStatus::Completed ==> library[i].rewatching)
                    &&& match library[i].total {
                        Some(total) => range.end <= total,
                        None => true,
                    }
                    &&& last_match.unwrap().link == Link::Exact(id)
                },
                None => false,
            },
            Err(_) => true,
        },
{
}

/// What reaching the threshold asks of the app: an outcome that stands, or
/// the recording to write.
#[derive(Clone, Debug, PartialEq, Eq)]
pub enum RecordStep {
    Settled(RecordOutcome),
    Write(NewRecording),
}

/// What the countdown came to. A viewing that has written its episode
/// keeps what that became and runs no gate again; one short of the
/// threshold is still counting; past it, the gates decide between a
/// decline and the write.
pub fn record_step(accrual: Accrual, last_match: &Option<ProposedMatch>, library: &[LibraryEntry], watch: Option<HistoryId>) -> (step: RecordStep)
    ensures
        match accrual.recorded {
            Some(outcome) => step == RecordStep::Settled(outcome),
            None => if accrual.accrued < accrual.threshold {
                step == RecordStep::Settled(RecordOutcome::Counting)
            } else {
                match spec_earned(*last_match, library@) {
                    Err(decline) => step == RecordStep::Settled(RecordOutcome::Declined(decline)),
                    Ok((entry, episode)) => step matches RecordStep::Write(write) && write.entry == entry
                        && write.episode == episode && write.watch == watch && write.raw_title
                        == last_match.unwrap().raw_title && write.parsed_title
                        == last_match.unwrap().parsed_title && write.player == last_match.unwrap().player,
                }
            },
        },
{
    if let Some(outcome) = accrual.recorded {
        return RecordStep::Settled(outcome);
    }
    if accrual.accrued < accrual.threshold {
        return RecordStep::Settled(RecordOutcome::Counting);
    }
    match earned(last_match, library, watch) {
        Ok(write) => RecordStep::Write(write),
        Err(decline) => RecordStep::Settled(RecordOutcome::Declined(decline)),
    }
}

/// The library with `entry` in place of the first stored row under its id,
/// or appended when none is.
pub fn upsert(library: &mut Vec<LibraryEntry>, entry: LibraryEntry)
    ensures
        match entry_index(old(library)@, entry.id, 0) {
            Some(i) => final(library)@ == old(library)@.update(i, entry),
            None => final(library)@ == old(library)@.push(entry),
        },
{
    match find_entry(library.as_slice(), entry.id) {
        Some(i) => library.set(i, entry),
        None => library.push(entry),
    }
}

/// What a library edit does to a proposal that names no entry: the link the
/// library now resolves its title to, when that names one. A proposal that
/// already names an entry is left alone, because nothing deletes an entry
/// and so a link never goes stale.
pub open spec fn spec_re_resolved(standing: ProposedMatch, library: Seq<LibraryEntry>) -> Option<Link> {
    if standing.link.spec_entry() is Some {
        None
    } else {
        match spec_resolve(standing.parsed_title@, library) {
            Resolution::Exact(entry) => Some(Link::Exact(entry)),
            Resolution::Likely { entry, .. } => Some(Link::Likely(entry)),
            Resolution::Unmatched => None,
        }
    }
}

pub fn re_resolved(standing: &ProposedMatch, library: &[LibraryEntry]) -> (link: Option<Link>)
    ensures
        link == spec_re_resolved(*standing, library@),
{
    if standing.link.names_entry() {
        return None;
    }
    match resolve(standing.parsed_title.as_str(), library) {
        Resolution::Exact(entry) => Some(Link::Exact(entry)),
        Resolution::Likely { entry, .. } => Some(Link::Likely(entry)),
        Resolution::Unmatched => None,
    }
}

/// The entry Add to library creates from a proposal that names none: the
/// title shown for it, being watched, from the start.
pub fn proposed_entry(last_match: &Option<ProposedMatch>) -> (entry: Option<NewEntry>)
    ensures
        match *last_match {
            Some(last) => if last.link.spec_entry() is Some {
                entry is None
            } else {
                entry matches Some(new) && new.title@ == (if last.parsed_title@.len() == 0 {
                    last.raw_title@
                } else {
                    last.parsed_title@
                }) && new.status == WatchStatus::Watching && new.progress == 0 && new.total is None
                    && !new.rewatching
            },
            None => entry is None,
        },
{
    let last = match last_match {
        Some(last) => last,
        None => return None,
    };
    if last.link.names_entry() {
        return None;
    }
    Some(
        NewEntry {
            title: last.shown_title().to_owned(),
            status: WatchStatus::Watching,
            progress: 0,
            total: None,
            rewatching: false,
        },
    )
}

/// The countdown after row `id` was undone: a countdown showing that
/// recording now shows it undone.
pub fn after_undo(progress: Option<WatchProgress>, id: HistoryId) -> (after: Option<WatchProgress>)
    ensures
        match progress {
            Some(p) => if p.outcome == RecordOutcome::Recorded(id) {
                after == Some(WatchProgress { outcome: RecordOutcome::Undone, ..p })
            } else {
                after == progress
            },
            None => after is None,
        },
{
    match progress {
        Some(p) => {
            if p.outcome == RecordOutcome::Recorded(id) {
                Some(WatchProgress { outcome: RecordOutcome::Undone, ..p })
            } else {
                Some(p)
            }
        },
        None => None,
    }
}

/// One playback title's proposal against the library, from what the title
/// reads as: its anime title resolved against the library, with the
/// episodes, season and release group it carries.
pub fn propose(event: &PlaybackEvent, reading: &Reading, library: &[LibraryEntry]) -> (proposal: ProposedMatch)
    ensures
        proposal.raw_title == event.title,
        proposal.player == event.player,
        proposal.at == event.observed_at,
        proposal.parsed_title@ == match reading.spec_text_claim(crate::element::ElementKind::AnimeTitle) {
            Some(claim) => claim.0,
            None => Seq::<char>::empty(),
        },
        proposal.episode == match reading.spec_episodes() {
            Some(claim) => Some(claim.0),
            None => None,
        },
        proposal.season == match reading.spec_season() {
            Some(claim) => Some(claim.0),
            None => None,
        },
        match reading.spec_text_claim(crate::element::ElementKind::ReleaseGroup) {
            Some(claim) => proposal.release_group matches Some(group) && group@ == claim.0,
            None => proposal.release_group is None,
        },
        proposal.link == match spec_resolve(proposal.parsed_title@, library@) {
            Resolution::Exact(entry) => Link::Exact(entry),
            Resolution::Likely { entry, .. } => Link::Likely(entry),
            Resolution::Unmatched => Link::Unmatched,
        },
{
    let parsed_title = match reading.title() {
        Some(claim) => claim.value.to_owned(),
        None => String::new(),
    };
    let link = match resolve(parsed_title.as_str(), library) {
        Resolution::Exact(entry) => Link::Exact(entry),
        Resolution::Likely { entry, .. } => Link::Likely(entry),
        Resolution::Unmatched => Link::Unmatched,
    };
    let episode = match reading.episodes() {
        Some(claim) => Some(claim.value),
        None => None,
    };
    let season = match reading.season() {
        Some(claim) => Some(claim.value),
        None => None,
    };
    let release_group = match reading.release_group() {
        Some(claim) => Some(claim.value.to_owned()),
        None => None,
    };
    ProposedMatch {
        raw_title: event.title.clone(),
        parsed_title,
        episode,
        season,
        release_group,
        link,
        player: event.player.clone(),
        at: event.observed_at,
    }
}

/// Whether a decline must be written to the viewing's row: not when the
/// row already says it, or a failed write of it was already noticed, and
/// never over a recording or an ignore, which nothing rewrites.
pub fn decline_due(logged: Option<Logged>, decline: Decline) -> (due: bool)
    ensures
        due == match logged {
            Some(Logged::Declined(said)) => said != decline,
            Some(Logged::Recorded) => false,
            Some(Logged::Ignored) => false,
            _ => true,
        },
{
    match logged {
        Some(Logged::Declined(said)) => said != decline,
        Some(Logged::Recorded) => false,
        Some(Logged::Ignored) => false,
        _ => true,
    }
}

} // verus!
