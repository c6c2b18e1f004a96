use ryuuji::history::{HistoryId, Watch, WatchOutcome};
use ryuuji::library::{Decline, EntryId, EpisodeRange};
use ryuuji::matching::{Link, ProposedMatch};
use ryuuji::playback::{PlaybackEvent, PlaybackSource, PlaybackStatus};
use ryuuji::watch::{Accrual, Logged, Observed, WatchSession, FALLBACK_THRESHOLD, MAX_STEP};

const NANOS: u64 = 1_000_000_000;

fn at(secs: u64) -> u64 {
    secs * NANOS
}

fn secs(value: u64) -> u64 {
    value * NANOS
}

fn accrued(session: &WatchSession) -> u64 {
    session.progress().map_or(0, |progress| progress.accrued)
}

fn event(title: &str, status: PlaybackStatus, position: u64, seen: u64) -> PlaybackEvent {
    PlaybackEvent {
        player: "mpv".into(),
        title: title.into(),
        status,
        position: secs(position),
        duration: secs(1420),
        observed_at: at(seen),
        source: PlaybackSource::Detected,
        foreground: None,
    }
}

fn playing(title: &str) -> PlaybackEvent {
    event(title, PlaybackStatus::Playing, 305, 1_000)
}

/// A same-title Playing event at `position` seen at `seen`.
fn playing_at(position: u64, seen: u64) -> PlaybackEvent {
    event("Show - 03.mkv", PlaybackStatus::Playing, position, seen)
}

fn persisted() -> ProposedMatch {
    ProposedMatch {
        raw_title: "Show - 03.mkv".into(),
        parsed_title: "Show".into(),
        episode: Some(EpisodeRange { start: 3, end: 3 }),
        season: None,
        release_group: None,
        link: Link::Unmatched,
        player: "mpv".into(),
        at: at(900),
    }
}

#[test]
fn first_titled_event_starts_a_viewing() {
    let mut session = WatchSession::default();
    assert!(session.observe(&playing("Show - 03.mkv")).new_viewing);
    let mut paused = WatchSession::default();
    assert!(
        paused
            .observe(&event("Show - 03.mkv", PlaybackStatus::Paused, 0, 1_000))
            .new_viewing
    );
}

#[test]
fn first_event_is_a_new_viewing_and_a_countdown() {
    let mut session = WatchSession::default();
    let observed = session.observe(&playing("Show - 03.mkv"));
    assert_eq!(
        observed,
        Observed {
            new_viewing: true,
            progress: Some(Accrual {
                accrued: 0,
                threshold: secs(710),
                recorded: None,
            }),
        }
    );
}

#[test]
fn same_title_continues_the_viewing() {
    let mut session = WatchSession::default();
    session.observe(&playing("Show - 03.mkv"));
    assert!(!session.observe(&playing_at(400, 1_060)).new_viewing);
    assert!(
        !session
            .observe(&event("Show - 03.mkv", PlaybackStatus::Paused, 400, 1_070))
            .new_viewing
    );
}

#[test]
fn title_change_starts_a_new_viewing() {
    let mut session = WatchSession::default();
    session.observe(&playing("Show - 03.mkv"));
    assert!(session.observe(&playing("Show - 04.mkv")).new_viewing);
    assert!(!session.observe(&playing("Show - 04.mkv")).new_viewing);
}

#[test]
fn player_change_starts_a_new_viewing() {
    let mut session = WatchSession::default();
    session.observe(&playing("Show - 03.mkv"));
    let other = PlaybackEvent {
        player: "vlc".into(),
        ..playing("Show - 03.mkv")
    };
    assert!(session.observe(&other).new_viewing);
    assert!(!session.observe(&other).new_viewing);
}

#[test]
fn blank_title_neither_starts_nor_ends_a_viewing() {
    let mut session = WatchSession::default();
    let observed = session.observe(&playing(""));
    assert_eq!(
        observed,
        Observed {
            new_viewing: false,
            progress: None
        }
    );
    assert!(!session.observe(&playing("  \t")).new_viewing);
    assert_eq!(session.viewing, None);

    session.observe(&playing("Show - 03.mkv"));
    let observed = session.observe(&playing(""));
    assert!(!observed.new_viewing);
    assert!(observed.progress.is_some());
    assert!(!session.observe(&playing("Show - 03.mkv")).new_viewing);
}

#[test]
fn stopped_keeps_the_cursor() {
    let mut session = WatchSession::default();
    session.observe(&playing("Show - 03.mkv"));
    let stopped = event("Show - 03.mkv", PlaybackStatus::Stopped, 1_400, 2_100);
    assert!(!session.observe(&stopped).new_viewing);
    assert_eq!(session.cursor.position, secs(1_400));
    assert_eq!(session.cursor.seen, Some(at(2_100)));
    // Stopped does not end the viewing either: the same title coming
    // back is the same viewing.
    assert!(!session.observe(&playing("Show - 03.mkv")).new_viewing);
}

#[test]
fn cursor_follows_the_last_position_and_time() {
    let mut session = WatchSession::default();
    assert_eq!(session.cursor.position, 0);
    assert_eq!(session.cursor.seen, None);

    session.observe(&event("Show - 03.mkv", PlaybackStatus::Playing, 305, 1_000));
    assert_eq!(session.cursor.position, secs(305));
    assert_eq!(session.cursor.seen, Some(at(1_000)));

    session.observe(&event("Show - 03.mkv", PlaybackStatus::Paused, 610, 1_305));
    assert_eq!(session.cursor.position, secs(610));
    assert_eq!(session.cursor.seen, Some(at(1_305)));

    session.observe(&event("", PlaybackStatus::Playing, 7, 1_400));
    assert_eq!(session.cursor.position, secs(7));
    assert_eq!(session.cursor.seen, Some(at(1_400)));
}

#[test]
fn resume_seeds_the_key_from_a_persisted_match() {
    let persisted = persisted();
    let mut session = WatchSession::resume(Some(&persisted), None);
    assert!(!session.observe(&playing("Show - 03.mkv")).new_viewing);
    assert!(session.observe(&playing("Show - 04.mkv")).new_viewing);

    let mut empty = WatchSession::resume(None, None);
    assert_eq!(empty, WatchSession::default());
    assert!(empty.observe(&playing("Show - 03.mkv")).new_viewing);
}

fn newest_row(raw_title: &str, outcome: WatchOutcome) -> Watch {
    Watch {
        id: HistoryId(7),
        at: at(800),
        raw_title: raw_title.into(),
        parsed_title: "Show".into(),
        player: "mpv".into(),
        episode: Some(EpisodeRange { start: 3, end: 3 }),
        link: Link::Unmatched,
        outcome,
        added_at: None,
    }
}

#[test]
fn resume_picks_up_the_newest_row_only_when_it_is_the_same_viewing() {
    let persisted = persisted();
    let declined = newest_row("Show - 03.mkv", WatchOutcome::Declined(Decline::NotExact));
    let session = WatchSession::resume(Some(&persisted), Some(&declined));
    assert_eq!(session.open_row(), Some(HistoryId(7)));
    assert_eq!(session.logged(), Some(Logged::Declined(Decline::NotExact)));

    let other = newest_row("Show - 02.mkv", WatchOutcome::Declined(Decline::NotExact));
    let session = WatchSession::resume(Some(&persisted), Some(&other));
    assert_eq!((session.open_row(), session.logged()), (None, None));
    assert_eq!(
        WatchSession::resume(None, Some(&declined)),
        WatchSession::default()
    );
    let _ = EntryId(3);
}

#[test]
fn a_recorded_row_takes_no_further_write_and_a_new_viewing_forgets_it() {
    let mut session = WatchSession::default();
    session.observe(&playing_at(100, 1_000));
    session.wrote(HistoryId(4), Logged::Declined(Decline::NotNext));
    assert_eq!(session.open_row(), Some(HistoryId(4)));
    session.mark_recorded(HistoryId(4));
    assert_eq!(session.open_row(), None);
    assert_eq!(session.logged(), Some(Logged::Recorded));

    session.observe(&event("Show - 04.mkv", PlaybackStatus::Playing, 5, 1_005));
    assert_eq!((session.open_row(), session.logged()), (None, None));
}

#[test]
fn a_failed_write_is_remembered_without_a_row() {
    let mut session = WatchSession::default();
    session.observe(&playing_at(100, 1_000));
    session.tried(Logged::Declined(Decline::NotExact));
    assert_eq!(session.open_row(), None);
    assert_eq!(session.logged(), Some(Logged::Declined(Decline::NotExact)));
}

#[test]
fn steady_playback_credits_the_position_delta() {
    let mut session = WatchSession::default();
    session.observe(&playing_at(100, 1_000));
    session.observe(&playing_at(101, 1_001));
    session.observe(&playing_at(160, 1_060));
    assert_eq!(accrued(&session), secs(60));
}

#[test]
fn a_rewind_credits_nothing() {
    let mut session = WatchSession::default();
    session.observe(&playing_at(600, 1_000));
    session.observe(&playing_at(100, 1_001));
    assert_eq!(accrued(&session), 0);
    // And the cursor moved, so playback from the new spot counts.
    session.observe(&playing_at(110, 1_011));
    assert_eq!(accrued(&session), secs(10));
}

#[test]
fn a_seek_credits_only_the_wall_gap() {
    let mut session = WatchSession::default();
    session.observe(&playing_at(100, 1_000));
    session.observe(&playing_at(400, 1_001));
    assert_eq!(accrued(&session), secs(1));
}

#[test]
fn a_stall_credits_nothing() {
    let mut session = WatchSession::default();
    session.observe(&playing_at(100, 1_000));
    session.observe(&playing_at(100, 1_005));
    assert_eq!(accrued(&session), 0);
}

#[test]
fn a_paused_stretch_credits_nothing() {
    let mut session = WatchSession::default();
    session.observe(&playing_at(100, 1_000));
    session.observe(&playing_at(110, 1_010));
    session.observe(&event("Show - 03.mkv", PlaybackStatus::Paused, 110, 1_011));
    session.observe(&event("Show - 03.mkv", PlaybackStatus::Paused, 110, 1_600));
    session.observe(&playing_at(110, 1_601));
    assert_eq!(accrued(&session), secs(10));
    session.observe(&playing_at(170, 1_661));
    assert_eq!(accrued(&session), secs(70));
}

#[test]
fn a_background_player_credits_nothing_and_an_unknown_one_credits() {
    let mut session = WatchSession::default();
    session.observe(&playing_at(100, 1_000));
    session.observe(&PlaybackEvent {
        foreground: Some(false),
        ..playing_at(160, 1_060)
    });
    assert_eq!(accrued(&session), 0);
    session.observe(&PlaybackEvent {
        foreground: Some(true),
        ..playing_at(170, 1_070)
    });
    assert_eq!(accrued(&session), secs(10));
    session.observe(&PlaybackEvent {
        foreground: None,
        ..playing_at(180, 1_080)
    });
    assert_eq!(accrued(&session), secs(20));
}

#[test]
fn stopped_then_playing_on_one_title_keeps_the_accrual_and_recorded() {
    let mut session = WatchSession::default();
    session.observe(&playing_at(100, 1_000));
    session.observe(&playing_at(400, 1_300));
    session.mark_recorded(HistoryId(1));
    session.observe(&event("Show - 03.mkv", PlaybackStatus::Stopped, 400, 1_301));
    assert_eq!(accrued(&session), secs(300));
    assert!(session.progress().unwrap().recorded.is_some());
    session.observe(&playing_at(401, 1_302));
    assert_eq!(accrued(&session), secs(301));
    assert!(session.progress().unwrap().recorded.is_some());
}

#[test]
fn unknown_duration_caps_each_step_at_fifteen_seconds() {
    let unknown = |position, seen| PlaybackEvent {
        duration: 0,
        ..playing_at(position, seen)
    };
    let mut session = WatchSession::default();
    session.observe(&unknown(0, 1_000));
    session.observe(&unknown(60, 1_060));
    assert_eq!(accrued(&session), MAX_STEP);
    session.observe(&unknown(65, 1_065));
    assert_eq!(accrued(&session), secs(20));
}

#[test]
fn a_known_duration_survives_an_event_that_does_not_know_it() {
    let mut session = WatchSession::default();
    session.observe(&playing_at(0, 1_000));
    session.observe(&PlaybackEvent {
        duration: 0,
        ..playing_at(60, 1_060)
    });
    assert_eq!(accrued(&session), secs(60));
    assert_eq!(session.progress().unwrap().threshold, secs(710));
}

#[test]
fn a_lazy_player_pushing_a_chunk_after_a_gap_is_credited_intact() {
    let mut session = WatchSession::default();
    session.observe(&playing_at(100, 1_000));
    session.observe(&playing_at(130, 1_030));
    assert_eq!(accrued(&session), secs(30));
}

#[test]
fn threshold_is_half_a_known_duration_and_two_minutes_otherwise() {
    let mut known = WatchSession::default();
    let progress = known.observe(&playing_at(0, 1_000)).progress.unwrap();
    assert_eq!(progress.threshold, secs(710));

    let mut unknown = WatchSession::default();
    let progress = unknown
        .observe(&PlaybackEvent {
            duration: 0,
            ..playing_at(0, 1_000)
        })
        .progress
        .unwrap();
    assert_eq!(progress.threshold, FALLBACK_THRESHOLD);
}

#[test]
fn a_new_key_resets_the_accrual_and_recorded() {
    let mut session = WatchSession::default();
    session.observe(&playing_at(100, 1_000));
    session.observe(&playing_at(400, 1_300));
    session.mark_recorded(HistoryId(1));

    let observed = session.observe(&event("Show - 04.mkv", PlaybackStatus::Playing, 5, 1_305));
    assert!(observed.new_viewing);
    assert_eq!(
        observed.progress,
        Some(Accrual {
            accrued: 0,
            threshold: secs(710),
            recorded: None,
        })
    );
    // Nothing from the old title's cursor leaks into the first credit.
    assert_eq!(accrued(&session), 0);
}

#[test]
fn mark_recorded_sticks_across_same_title_events() {
    let mut session = WatchSession::default();
    session.observe(&playing_at(100, 1_000));
    session.mark_recorded(HistoryId(1));
    assert!(session
        .observe(&playing_at(160, 1_060))
        .progress
        .unwrap()
        .recorded
        .is_some());
    assert!(session
        .observe(&event("Show - 03.mkv", PlaybackStatus::Paused, 160, 1_070))
        .progress
        .unwrap()
        .recorded
        .is_some());
    assert!(session
        .observe(&event("Show - 03.mkv", PlaybackStatus::Stopped, 160, 1_080))
        .progress
        .unwrap()
        .recorded
        .is_some());
    assert!(session
        .observe(&playing_at(220, 1_140))
        .progress
        .unwrap()
        .recorded
        .is_some());
}

#[test]
fn a_backwards_clock_credits_nothing() {
    let mut session = WatchSession::default();
    session.observe(&playing_at(100, 1_000));
    session.observe(&playing_at(160, 940));
    assert_eq!(accrued(&session), 0);
    assert_eq!(session.cursor.seen, Some(at(940)));
}
