//! The watch log: one row per viewing that reached its threshold, whether
//! it recorded an episode or was declined, plus a viewing whose show was
//! added to the library first. Rows are never deleted; an undo marks its
//! recording and leaves the row where it was.

use vstd::prelude::*;

use crate::library::{Decline, EpisodeRange, LibraryEntry};
use crate::matching::Link;

verus! {

/// Identity of a stored history row. Only the store mints these.
#[derive(Clone, Copy, Debug, PartialEq, Eq, Structural, Hash, PartialOrd, Ord)]
pub struct HistoryId(pub i64);

impl HistoryId {
    pub fn as_i64(self) -> (id: i64)
        ensures
            id == self.0,
    {
        self.0
    }
}

/// What reaching the threshold did for the standing viewing.
#[derive(Clone, Copy, Debug, PartialEq, Eq, Structural)]
pub enum RecordOutcome {
    /// Still short of the threshold, or a write failed and the next event
    /// past it tries again.
    Counting,
    Recorded(HistoryId),
    /// The recording this viewing wrote was undone.
    Undone,
    /// The threshold was met and the gates refused the write. Recomputed on
    /// every event, so a decline never outlives what caused it.
    Declined(Decline),
}

/// The progress write a recorded watch made. Times are nanoseconds since
/// the Unix epoch.
#[derive(Clone, Copy, Debug, PartialEq, Eq, Structural)]
pub struct Recorded {
    pub progress_before: u32,
    pub progress: u32,
    pub at: u64,
    /// Undoing marks the row and puts `progress_before` back.
    pub undone_at: Option<u64>,
}

/// What a watch came to. A recording is final; a decline is rewritten while
/// the viewing goes on.
#[derive(Clone, Copy, Debug, PartialEq, Eq, Structural)]
pub enum WatchOutcome {
    /// The show was added to the library and nothing has recorded or
    /// declined since.
    Added,
    Declined(Decline),
    Recorded(Recorded),
    /// The person said not to track this file. Unlike a decline, no gate
    /// refused it, so nothing about the library or the episode can change
    /// it back; only saying to stop ignoring does.
    Ignored,
}

/// One viewing in the watch log, as stored. Times are nanoseconds since the
/// Unix epoch.
#[derive(Clone, Debug, PartialEq, Eq)]
pub struct Watch {
    pub id: HistoryId,
    /// When the row was first written.
    pub at: u64,
    pub raw_title: String,
    /// Empty for recordings made before the log kept it.
    pub parsed_title: String,
    pub player: String,
    pub episode: Option<EpisodeRange>,
    /// The proposal's link as of the row's last write.
    pub link: Link,
    pub outcome: WatchOutcome,
    /// When Add to library created the entry this watch links to.
    pub added_at: Option<u64>,
}

/// A progress write that watching is about to cause. The titles and player
/// name the proposal it was decided on, since the last match is one row and
/// gets overwritten.
#[derive(Clone, Debug, PartialEq, Eq)]
pub struct NewRecording {
    /// The viewing's own row when it already has an unrecorded one, which
    /// the recording then fills.
    pub watch: Option<HistoryId>,
    pub entry: crate::library::EntryId,
    /// Every episode the file carries; progress moves to its end.
    pub episode: EpisodeRange,
    pub raw_title: String,
    pub parsed_title: String,
    pub player: String,
}

/// The newest watches, and whether older ones lie past the limit.
#[derive(Clone, Debug, PartialEq, Eq)]
pub struct HistoryPage {
    pub watches: Vec<Watch>,
    pub more: bool,
}

impl Default for HistoryPage {
    fn default() -> (page: HistoryPage)
        ensures
            page.watches@.len() == 0,
            !page.more,
    {
        HistoryPage { watches: Vec::new(), more: false }
    }
}

/// A library entry standing at `progress` under `id`.
pub open spec fn stands_at(library: Seq<LibraryEntry>, id: crate::library::EntryId, progress: u32) -> bool {
    exists|i: int| 0 <= i < library.len() && #[trigger] library[i].id == id && library[i].progress == progress
}

impl Watch {
    pub open spec fn spec_shown_at(&self) -> u64 {
        match self.outcome {
            WatchOutcome::Recorded(recorded) => recorded.at,
            _ => self.at,
        }
    }

    /// The time a row shows: when it recorded, else when it was written.
    pub fn shown_at(&self) -> (at: u64)
        ensures
            at == self.spec_shown_at(),
    {
        match self.outcome {
            WatchOutcome::Recorded(recorded) => recorded.at,
            _ => self.at,
        }
    }

    pub open spec fn spec_undoable(&self, library: Seq<LibraryEntry>) -> bool {
        match self.outcome {
            WatchOutcome::Recorded(recorded) => {
                &&& recorded.undone_at.is_none()
                &&& match self.link.spec_entry() {
                    Some(id) => stands_at(library, id, recorded.progress),
                    None => false,
                }
            },
            _ => false,
        }
    }

    /// Whether Undo may be offered: a recording not yet undone whose entry
    /// still stands at the progress it wrote. The store refuses any other
    /// undo, so this only keeps the button from promising one.
    pub fn undoable(&self, library: &[LibraryEntry]) -> (undoable: bool)
        ensures
            undoable == self.spec_undoable(library@),
    {
        let recorded = match self.outcome {
            WatchOutcome::Recorded(recorded) => recorded,
            _ => return false,
        };
        if recorded.undone_at.is_some() {
            return false;
        }
        let id = match Link::entry(self.link) {
            Some(id) => id,
            None => return false,
        };
        let mut i: usize = 0;
        while i < library.len()
            invariant
                i <= library@.len(),
                self.link.spec_entry() == Some(id),
                self.outcome == WatchOutcome::Recorded(recorded),
                recorded.undone_at.is_none(),
                forall|j: int| 0 <= j < i ==> !(#[trigger] library@[j].id == id && library@[j].progress == recorded.progress),
            decreases library@.len() - i,
        {
            if library[i].id == id && library[i].progress == recorded.progress {
                assert(library@[i as int].id == id && library@[i as int].progress == recorded.progress);
                return true;
            }
            i = i + 1;
        }
        false
    }
}

/// A date on the local calendar.
#[derive(Clone, Copy, Debug, PartialEq, Eq, Structural)]
pub struct CivilDate {
    pub year: i16,
    pub month: i8,
    pub day: i8,
}

/// How a day is named beside the ones near it.
#[derive(Clone, Copy, Debug, PartialEq, Eq, Structural)]
pub enum DayName {
    Today,
    Yesterday,
    /// Named by weekday and date.
    ThisYear,
    /// Named by weekday, date and year.
    OtherYear,
}

/// Today, Yesterday, or the weekday and date, with the year when it is not
/// this year's.
pub fn day_name(date: CivilDate, today: CivilDate, yesterday: Option<CivilDate>) -> (name: DayName)
    ensures
        name == if date == today {
            DayName::Today
        } else if yesterday == Some(date) {
            DayName::Yesterday
        } else if date.year == today.year {
            DayName::ThisYear
        } else {
            DayName::OtherYear
        },
{
    if date == today {
        DayName::Today
    } else if yesterday == Some(date) {
        DayName::Yesterday
    } else if date.year == today.year {
        DayName::ThisYear
    } else {
        DayName::OtherYear
    }
}

/// Watches that show under the same local day, in the page's order.
pub struct Day<'a> {
    /// Today, Yesterday, or the weekday and date.
    pub label: String,
    pub watches: Vec<&'a Watch>,
}

/// Where each run of equal dates among the first `n` begins and ends.
pub open spec fn runs(dates: Seq<CivilDate>, n: int) -> Seq<(int, int)>
    decreases n,
{
    if n <= 0 {
        Seq::empty()
    } else {
        let earlier = runs(dates, n - 1);
        if n - 1 > 0 && dates[n - 1] == dates[n - 2] {
            earlier.update(earlier.len() - 1, (earlier.last().0, n))
        } else {
            earlier.push((n - 1, n))
        }
    }
}

proof fn lemma_runs_shape(dates: Seq<CivilDate>, n: int)
    requires
        0 <= n <= dates.len(),
    ensures
        n > 0 ==> runs(dates, n).len() > 0 && runs(dates, n).last().1 == n,
        n == 0 ==> runs(dates, n).len() == 0,
        runs(dates, n).len() <= n,
        forall|k: int| 0 <= k < runs(dates, n).len() ==> 0 <= (#[trigger] runs(dates, n)[k]).0 < runs(dates, n)[k].1 <= n,
    decreases n,
{
    if n > 0 {
        lemma_runs_shape(dates, n - 1);
    }
}

/// Groups a page of watches under the local days they show at: a run of
/// watches on one date is one day, named by the label of its first watch.
/// `dates[i]` is the local date `watches[i]` shows at and `labels[i]` its
/// name; the page is newest first, so the days are too.
pub fn days<'a>(watches: &'a [Watch], dates: &[CivilDate], labels: &[String]) -> (days: Vec<Day<'a>>)
    requires
        dates@.len() == watches@.len(),
        labels@.len() == watches@.len(),
    ensures
        days@.len() == runs(dates@, watches@.len() as int).len(),
        forall|k: int|
            0 <= k < days@.len() ==> {
                let (start, end) = runs(dates@, watches@.len() as int)[k];
                &&& (#[trigger] days@[k]).label@ == labels@[start]@
                &&& days@[k].watches@.len() == end - start
                &&& forall|j: int| 0 <= j < end - start ==> *days@[k].watches@[j] == watches@[start + j]
            },
{
    let mut days: Vec<Day<'a>> = Vec::new();
    let mut i: usize = 0;
    while i < watches.len()
        invariant
            i <= watches@.len(),
            dates@.len() == watches@.len(),
            labels@.len() == watches@.len(),
            days@.len() == runs(dates@, i as int).len(),
            forall|k: int|
                0 <= k < days@.len() ==> {
                    let (start, end) = runs(dates@, i as int)[k];
                    &&& (#[trigger] days@[k]).label@ == labels@[start]@
                    &&& days@[k].watches@.len() == end - start
                    &&& forall|j: int| 0 <= j < end - start ==> *days@[k].watches@[j] == watches@[start + j]
                },
        decreases watches@.len() - i,
    {
        proof {
            lemma_runs_shape(dates@, i as int);
        }
        if i > 0 && dates[i] == dates[i - 1] {
            let mut last = days.pop().unwrap();
            last.watches.push(&watches[i]);
            days.push(last);
        } else {
            let mut run: Vec<&'a Watch> = Vec::new();
            run.push(&watches[i]);
            days.push(Day { label: labels[i].clone(), watches: run });
        }
        i = i + 1;
    }
    days
}

} // verus!
