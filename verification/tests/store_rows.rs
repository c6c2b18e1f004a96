use ryuuji::history::{HistoryId, Recorded, Watch, WatchOutcome};
use ryuuji::library::{Decline, EntryId, EpisodeRange, WatchStatus};
use ryuuji::matching::Link;
use ryuuji::store::{
    check_unmoved, episode_range, episode_total, page_of, rows_wanted, undo_target, unix_secs, unix_time,
    RawEntry, RawLastMatch, RawWatch, RowError,
};

const SEC: u64 = 1_000_000_000;

fn entry_row(status: &str) -> RawEntry {
    RawEntry {
        id: 7,
        title: "x".to_string(),
        status: status.to_string(),
        progress: 0,
        total: None,
        rewatching: false,
    }
}

fn last_match_row() -> RawLastMatch {
    RawLastMatch {
        raw_title: "Show - 03.mkv".to_string(),
        parsed_title: "Show".to_string(),
        episode: Some(3),
        season: None,
        release_group: None,
        entry_id: None,
        confidence: "unmatched".to_string(),
        player: "mpv".to_string(),
        at: 1_700_000_000,
        episode_end: Some(3),
    }
}

/// The row a recording of episode 1 of entry 1 writes.
fn recorded_row() -> RawWatch {
    RawWatch {
        id: 1,
        entry_id: Some(1),
        episode: Some(1),
        episode_end: Some(1),
        progress_before: Some(0),
        progress: Some(1),
        raw_title: Some("Show - 01.mkv".to_string()),
        player: Some("mpv".to_string()),
        at: 1_700_000_000,
        undone_at: None,
        parsed_title: Some("Show".to_string()),
        confidence: "exact".to_string(),
        reason: None,
        recorded_at: Some(1_700_000_000),
        added_at: None,
        kind: None,
    }
}

fn copy(row: &RawWatch) -> RawWatch {
    RawWatch {
        id: row.id,
        entry_id: row.entry_id,
        episode: row.episode,
        episode_end: row.episode_end,
        progress_before: row.progress_before,
        progress: row.progress,
        raw_title: row.raw_title.clone(),
        player: row.player.clone(),
        at: row.at,
        undone_at: row.undone_at,
        parsed_title: row.parsed_title.clone(),
        confidence: row.confidence.clone(),
        reason: row.reason.clone(),
        recorded_at: row.recorded_at,
        added_at: row.added_at,
        kind: row.kind.clone(),
    }
}

#[test]
fn garbage_status_surfaces_as_invalid_row() {
    assert_eq!(
        entry_row("bogus").parse(),
        Err(RowError::InvalidRow { id: EntryId(7), field: "status" })
    );
}

#[test]
fn an_entry_row_reads_back_as_stored() {
    let row = RawEntry { total: Some(12), progress: 3, ..entry_row("on-hold") };
    let entry = row.parse().unwrap();
    assert_eq!(entry.id, EntryId(7));
    assert_eq!(entry.status, WatchStatus::OnHold);
    assert_eq!(entry.progress, 3);
    assert_eq!(entry.total, Some(12));
    assert_eq!(
        RawEntry { progress: -1, ..entry_row("watching") }.parse(),
        Err(RowError::InvalidRow { id: EntryId(7), field: "progress" })
    );
    assert_eq!(
        RawEntry { total: Some(1 << 40), ..entry_row("watching") }.parse(),
        Err(RowError::InvalidRow { id: EntryId(7), field: "total" })
    );
}

#[test]
fn garbage_history_row_surfaces_as_invalid() {
    let mut row = recorded_row();
    assert!(copy(&row).parse().is_ok());
    let steps: Vec<(fn(&mut RawWatch), &str)> = vec![
        (|r| { r.episode = Some(5); r.episode_end = Some(2); }, "episode"),
        (|r| { r.episode = Some(1); r.episode_end = Some(1); r.progress = Some(-1); }, "progress"),
        (|r| { r.progress = Some(1); r.undone_at = Some(-5); }, "undone_at"),
        (|r| { r.undone_at = None; r.confidence = "likely".to_string(); }, "link"),
        (|r| { r.confidence = "bogus".to_string(); }, "confidence"),
        (|r| { r.confidence = "exact".to_string(); r.progress = None; }, "progress"),
        (|r| { r.progress_before = None; r.recorded_at = None; r.undone_at = Some(5); }, "undone_at"),
        (|r| { r.undone_at = None; }, "outcome"),
        (|r| { r.reason = Some("bogus".to_string()); }, "reason"),
        (|r| { r.reason = Some("not-next".to_string()); r.raw_title = None; }, "raw_title"),
        (|r| { r.raw_title = Some("x".to_string()); r.kind = Some("bogus".to_string()); }, "kind"),
        (|r| { r.kind = Some("ignored".to_string()); }, "kind"),
    ];
    for (broken, field) in steps {
        broken(&mut row);
        assert_eq!(
            copy(&row).parse(),
            Err(RowError::InvalidHistoryRow { id: HistoryId(1), field }),
            "{field}"
        );
    }
}

#[test]
fn a_recorded_row_reads_back_as_the_recording() {
    let watch = recorded_row().parse().unwrap();
    assert_eq!(watch.id, HistoryId(1));
    assert_eq!(watch.at, 1_700_000_000 * SEC);
    assert_eq!(watch.episode, Some(EpisodeRange { start: 1, end: 1 }));
    assert_eq!(watch.link, Link::Exact(EntryId(1)));
    assert_eq!(
        watch.outcome,
        WatchOutcome::Recorded(Recorded {
            progress_before: 0,
            progress: 1,
            at: 1_700_000_000 * SEC,
            undone_at: None,
        })
    );
    assert_eq!(watch.parsed_title, "Show");
}

#[test]
fn declined_added_and_ignored_rows_read_from_their_columns() {
    let base = RawWatch {
        progress_before: None,
        progress: None,
        recorded_at: None,
        parsed_title: None,
        ..recorded_row()
    };
    let declined = RawWatch { reason: Some("completed".to_string()), ..copy(&base) }.parse().unwrap();
    assert_eq!(declined.outcome, WatchOutcome::Declined(Decline::Completed));
    assert_eq!(declined.parsed_title, "");
    let added = RawWatch { added_at: Some(5), ..copy(&base) }.parse().unwrap();
    assert_eq!(added.outcome, WatchOutcome::Added);
    assert_eq!(added.added_at, Some(5 * SEC));
    let ignored = RawWatch { kind: Some("ignored".to_string()), ..copy(&base) }.parse().unwrap();
    assert_eq!(ignored.outcome, WatchOutcome::Ignored);
}

#[test]
fn disagreeing_episode_columns_are_invalid() {
    for (low, high) in [(Some(5), Some(2)), (Some(3), None), (None, Some(3)), (Some(-1), Some(3))] {
        let row = RawLastMatch { episode: low, episode_end: high, ..last_match_row() };
        assert_eq!(row.parse(), Err(RowError::InvalidLastMatch { field: "episode" }));
    }
}

#[test]
fn last_match_round_trips_a_batch() {
    let row = RawLastMatch { episode: Some(1), episode_end: Some(12), ..last_match_row() };
    let m = row.parse().unwrap();
    assert_eq!(m.episode, Some(EpisodeRange { start: 1, end: 12 }));
    assert_eq!(m.link, Link::Unmatched);
    assert_eq!(m.at, 1_700_000_000 * SEC);
    assert_eq!(unix_secs(m.at), 1_700_000_000);
}

#[test]
fn garbage_confidence_surfaces_as_invalid_last_match() {
    let row = RawLastMatch { confidence: "bogus".to_string(), ..last_match_row() };
    assert_eq!(row.parse(), Err(RowError::InvalidLastMatch { field: "confidence" }));
}

#[test]
fn exact_without_an_entry_surfaces_as_invalid_last_match() {
    let row = RawLastMatch { entry_id: None, confidence: "exact".to_string(), ..last_match_row() };
    assert_eq!(row.parse(), Err(RowError::InvalidLastMatch { field: "link" }));
}

#[test]
fn unmatched_with_an_entry_surfaces_as_invalid_last_match() {
    let row = RawLastMatch { entry_id: Some(4), confidence: "unmatched".to_string(), ..last_match_row() };
    assert_eq!(row.parse(), Err(RowError::InvalidLastMatch { field: "link" }));
}

#[test]
fn stored_times_are_whole_non_negative_seconds() {
    assert_eq!(unix_time(0), Some(0));
    assert_eq!(unix_time(2), Some(2 * SEC));
    assert_eq!(unix_time(-1), None);
    assert_eq!(unix_time(i64::MAX), None);
    assert_eq!(unix_secs(2 * SEC + 999_999_999), 2);
    assert_eq!(unix_time(unix_secs(5 * SEC + 7)), Some(5 * SEC));
    assert_eq!(
        RawLastMatch { at: -3, ..last_match_row() }.parse(),
        Err(RowError::InvalidLastMatch { field: "at" })
    );
}

#[test]
fn episode_columns_read_as_one_range() {
    assert_eq!(episode_range(None, None), Ok(None));
    assert_eq!(episode_range(Some(2), Some(2)), Ok(Some(EpisodeRange { start: 2, end: 2 })));
    assert_eq!(episode_range(Some(2), Some(1)), Err(()));
    assert_eq!(episode_range(Some(1 << 33), Some(1 << 34)), Err(()));
}

fn recorded_watch(undone: bool) -> Watch {
    let mut row = recorded_row();
    if undone {
        row.undone_at = Some(9);
    }
    row.parse().unwrap()
}

#[test]
fn undo_takes_back_only_a_standing_recording() {
    let id = HistoryId(1);
    let (entry, recorded) = undo_target(id, &Some(recorded_watch(false))).unwrap();
    assert_eq!(entry, EntryId(1));
    assert_eq!(recorded.progress_before, 0);
    assert_eq!(undo_target(id, &Some(recorded_watch(true))), Err(RowError::NothingToUndo { id }));
    assert_eq!(undo_target(id, &None), Err(RowError::NothingToUndo { id }));
    assert_eq!(check_unmoved(id, 1, recorded), Ok(()));
    assert_eq!(check_unmoved(id, 2, recorded), Err(RowError::MovedOn { id }));
}

#[test]
fn a_page_reads_one_row_past_its_limit() {
    assert_eq!(rows_wanted(10), 11);
    assert_eq!(rows_wanted(usize::MAX), i64::MAX);
    let rows: Vec<Watch> = (0..3).map(|_| recorded_watch(false)).collect();
    let page = page_of(rows.clone(), 2);
    assert!(page.more);
    assert_eq!(page.watches.len(), 2);
    let page = page_of(rows, 3);
    assert!(!page.more);
    assert_eq!(page.watches.len(), 3);
    assert_eq!(episode_total(4), 4);
    assert_eq!(episode_total(-1), u32::MAX);
    assert_eq!(episode_total(1 << 40), u32::MAX);
}
