use ryuuji::playback::{PlaybackEvent, PlaybackSource, PlaybackStatus};
use ryuuji::players::Player;
use ryuuji::session::{
    chosen_session, normalize, observe, Dedup, Front, Matched, Observation, SessionSnapshot, SessionState, Seen,
    Tracking, SETTLE,
};

const SEC: u64 = 1_000_000_000;

/// A player whose executable is its lowercased name plus `.exe`.
fn player(name: &str) -> Player {
    Player {
        name: name.to_owned(),
        smtc_app_ids: Vec::new(),
        mpris_ids: Vec::new(),
        executables: vec![format!("{}.exe", name.to_lowercase())],
        hidden: false,
    }
}

fn exe(name: &str) -> Front {
    Front::Exe(name.to_owned())
}

fn snapshot(state: SessionState) -> SessionSnapshot {
    SessionSnapshot {
        title: "Episode 3".to_owned(),
        state,
        start: 0,
        end: 1440 * SEC,
        position: 90 * SEC,
        updated: None,
    }
}

/// A playing snapshot whose timeline was written `secs` before now.
fn written_ago(secs: u64) -> SessionSnapshot {
    SessionSnapshot { updated: Some(now() - secs * SEC), ..snapshot(SessionState::Playing) }
}

fn position_of(snapshot: SessionSnapshot) -> u64 {
    let mpv = player("mpv");
    let matched = Matched { player: &mpv, snapshot };
    normalize(&matched, now(), &Front::Unknown).unwrap().position
}

fn now() -> u64 {
    1_700_000_000 * SEC
}

fn event(status: PlaybackStatus, position_secs: u64) -> PlaybackEvent {
    PlaybackEvent {
        player: "mpv".to_owned(),
        title: "Episode 3".to_owned(),
        status,
        position: position_secs * SEC,
        duration: 1440 * SEC,
        observed_at: now(),
        source: PlaybackSource::Detected,
        foreground: None,
    }
}

#[test]
fn choose_prefers_the_playing_session() {
    let (mpv, vlc) = (player("mpv"), player("VLC"));
    let matched = [
        Matched { player: &mpv, snapshot: snapshot(SessionState::Paused) },
        Matched { player: &vlc, snapshot: snapshot(SessionState::Playing) },
    ];
    assert_eq!(matched[chosen_session(&matched).unwrap()].player.name, "VLC");
}

#[test]
fn choose_falls_back_to_the_first() {
    let (mpv, vlc) = (player("mpv"), player("VLC"));
    let matched = [
        Matched { player: &mpv, snapshot: snapshot(SessionState::Paused) },
        Matched { player: &vlc, snapshot: snapshot(SessionState::Stopped) },
    ];
    assert_eq!(matched[chosen_session(&matched).unwrap()].player.name, "mpv");
    assert!(chosen_session(&[]).is_none());
}

#[test]
fn normalize_maps_each_settled_state() {
    let mpv = player("mpv");
    for (state, status) in [
        (SessionState::Stopped, PlaybackStatus::Stopped),
        (SessionState::Playing, PlaybackStatus::Playing),
        (SessionState::Paused, PlaybackStatus::Paused),
    ] {
        let matched = Matched { player: &mpv, snapshot: snapshot(state) };
        assert_eq!(normalize(&matched, now(), &Front::Unknown), Some(event(status, 90)));
    }
}

#[test]
fn normalize_skips_a_settling_session() {
    let mpv = player("mpv");
    let matched = Matched { player: &mpv, snapshot: snapshot(SessionState::Settling) };
    assert_eq!(normalize(&matched, now(), &Front::Unknown), None);
}

#[test]
fn normalize_subtracts_start_time_and_saturates() {
    let mpv = player("mpv");
    let mut shifted = snapshot(SessionState::Playing);
    shifted.start = 100 * SEC;
    shifted.end = 400 * SEC;
    shifted.position = 130 * SEC;
    let matched = Matched { player: &mpv, snapshot: shifted.clone() };
    let normalized = normalize(&matched, now(), &Front::Unknown).unwrap();
    assert_eq!(normalized.position, 30 * SEC);
    assert_eq!(normalized.duration, 300 * SEC);

    shifted.position = 20 * SEC;
    shifted.end = 50 * SEC;
    let matched = Matched { player: &mpv, snapshot: shifted };
    let normalized = normalize(&matched, now(), &Front::Unknown).unwrap();
    assert_eq!(normalized.position, 0);
    assert_eq!(normalized.duration, 0);
}

#[test]
fn a_playing_position_moves_on_by_the_time_since_the_timeline_was_written() {
    assert_eq!(position_of(written_ago(30)), 120 * SEC);
}

#[test]
fn a_moved_position_stops_at_the_end_of_the_item() {
    let near_end = SessionSnapshot { position: 1430 * SEC, ..written_ago(60) };
    assert_eq!(position_of(near_end), 1440 * SEC);
}

#[test]
fn a_position_moves_past_any_end_when_the_length_is_unknown() {
    let unknown_length = SessionSnapshot { end: 0, ..written_ago(30) };
    assert_eq!(position_of(unknown_length), 120 * SEC);
}

#[test]
fn a_paused_or_never_written_timeline_does_not_move() {
    let paused = SessionSnapshot { state: SessionState::Paused, ..written_ago(30) };
    let never_written = SessionSnapshot { updated: None, ..written_ago(30) };
    for snapshot in [paused, never_written] {
        assert_eq!(position_of(snapshot), 90 * SEC);
    }
}

#[test]
fn a_timeline_written_after_now_does_not_move_the_position_back() {
    let from_the_future = SessionSnapshot { updated: Some(now() + 30 * SEC), ..snapshot(SessionState::Playing) };
    assert_eq!(position_of(from_the_future), 90 * SEC);
}

fn seen<'a>(app_id: &str, tracking: Tracking<'a>) -> Seen<'a> {
    Seen { app_id: app_id.to_owned(), status: "Playing".to_owned(), tracking }
}

#[test]
fn the_row_carries_a_title_only_for_a_watched_session_and_a_player_for_any_matched_one() {
    let mpv = player("mpv");
    let unknown = seen("Spotify.exe", Tracking::Unknown).facts();
    assert_eq!((unknown.title.as_str(), unknown.player.as_deref()), ("", None));
    let unreadable = seen("mpv.exe", Tracking::Unreadable(&mpv)).facts();
    assert_eq!((unreadable.title.as_str(), unreadable.player.as_deref()), ("", Some("mpv")));
    assert!(!unreadable.hidden);
    let hidden = seen("mpv.exe", Tracking::Hidden(&mpv)).facts();
    assert_eq!((hidden.title.as_str(), hidden.player.as_deref(), hidden.hidden), ("", Some("mpv"), true));
    let watched = seen(
        "mpv.exe",
        Tracking::Watched(Matched { player: &mpv, snapshot: snapshot(SessionState::Playing) }),
    )
    .facts();
    assert_eq!((watched.title.as_str(), watched.player.as_deref()), ("Episode 3", Some("mpv")));
    assert_eq!(watched.app_id, "mpv.exe");
    assert_eq!(watched.status, "Playing");
}

#[test]
fn front_of_compares_the_whole_file_name_against_the_players_executables() {
    let mpv = player("mpv");
    assert_eq!(exe("mpv.exe").of(&mpv), Some(true));
    assert_eq!(exe("notepad.exe").of(&mpv), Some(false));
    assert_eq!(exe("some-mpv-skin.exe").of(&mpv), Some(false));
    assert_eq!(Front::Unknown.of(&mpv), None);
    assert_eq!(Front::Own.of(&mpv), None);
}

#[test]
fn front_of_a_player_without_executables_is_unknown_never_behind() {
    let bare = Player { executables: Vec::new(), ..player("mpv") };
    assert_eq!(exe("mpv.exe").of(&bare), None);
    assert_eq!(exe("notepad.exe").of(&bare), None);
}

#[test]
fn from_reading_lowercases_and_maps_own_and_the_frame_host_to_unknowns() {
    assert_eq!(Front::from_reading(false, Some("MPV.EXE".to_owned())), exe("mpv.exe"));
    assert_eq!(Front::from_reading(true, Some("ryuuji.exe".to_owned())), Front::Own);
    assert_eq!(Front::from_reading(false, None), Front::Unknown);
    assert_eq!(Front::from_reading(false, Some("ApplicationFrameHost.exe".to_owned())), Front::Unknown);
}

#[test]
fn normalize_carries_the_front() {
    let mpv = player("mpv");
    let matched = Matched { player: &mpv, snapshot: snapshot(SessionState::Playing) };
    for (front, foreground) in [
        (exe("mpv.exe"), Some(true)),
        (exe("vlc.exe"), Some(false)),
        (Front::Own, None),
        (Front::Unknown, None),
    ] {
        let event = normalize(&matched, now(), &front).unwrap();
        assert_eq!(event.foreground, foreground, "{front:?}");
    }
}

#[test]
fn two_instances_of_one_player_both_read_as_in_front() {
    let mpv = player("mpv");
    let matched = [
        Matched { player: &mpv, snapshot: snapshot(SessionState::Playing) },
        Matched { player: &mpv, snapshot: snapshot(SessionState::Paused) },
    ];
    for m in &matched {
        let event = normalize(m, now(), &exe("mpv.exe")).unwrap();
        assert_eq!(event.foreground, Some(true));
    }
}

#[test]
fn unreadable_matched_session_is_transitional_not_absent() {
    assert!(matches!(observe(&[], Some(now()), now(), &Front::Unknown), Observation::Transitional));
    let mpv = player("mpv");
    let matched = [Matched { player: &mpv, snapshot: snapshot(SessionState::Playing) }];
    assert!(matches!(observe(&matched, Some(now()), now(), &Front::Unknown), Observation::Seen(_)));
}

#[test]
fn no_sessions_is_absent() {
    assert!(matches!(observe(&[], None, now(), &Front::Unknown), Observation::Absent));
}

#[test]
fn a_paused_candidate_waits_while_a_matched_session_is_still_unreadable() {
    let mpv = player("mpv");
    let matched = [Matched { player: &mpv, snapshot: snapshot(SessionState::Paused) }];
    assert!(matches!(observe(&matched, Some(now()), now(), &Front::Unknown), Observation::Transitional));
}

#[test]
fn a_paused_candidate_is_reported_once_the_settling_window_has_passed() {
    let mpv = player("mpv");
    let matched = [Matched { player: &mpv, snapshot: snapshot(SessionState::Paused) }];
    assert!(matches!(observe(&matched, Some(now() - SETTLE), now(), &Front::Unknown), Observation::Seen(_)));
}

#[test]
fn a_playing_candidate_is_reported_however_long_a_session_has_been_unreadable() {
    let mpv = player("mpv");
    let matched = [Matched { player: &mpv, snapshot: snapshot(SessionState::Playing) }];
    let hour = 3_600 * SEC;
    assert!(matches!(observe(&matched, Some(now() - hour), now(), &Front::Unknown), Observation::Seen(_)));
}

#[test]
fn dedup_drops_events_equal_except_observed_at() {
    let mut dedup = Dedup::default();
    let first = event(PlaybackStatus::Playing, 90);
    assert_eq!(dedup.let_through(Observation::Seen(first.clone()), now()), Some(first.clone()));
    let later = PlaybackEvent { observed_at: now() + SEC, ..first };
    assert_eq!(dedup.let_through(Observation::Seen(later), now()), None);
    assert!(dedup.is_playing());
}

#[test]
fn dedup_passes_position_changes() {
    let mut dedup = Dedup::default();
    dedup.let_through(Observation::Seen(event(PlaybackStatus::Playing, 90)), now());
    let moved = event(PlaybackStatus::Playing, 91);
    assert_eq!(dedup.let_through(Observation::Seen(moved.clone()), now()), Some(moved));
}

#[test]
fn dedup_passes_a_foreground_flip_at_the_same_position() {
    let mut dedup = Dedup::default();
    let front = PlaybackEvent { foreground: Some(true), ..event(PlaybackStatus::Playing, 90) };
    dedup.let_through(Observation::Seen(front.clone()), now());
    let behind = PlaybackEvent { foreground: Some(false), ..front };
    assert_eq!(dedup.let_through(Observation::Seen(behind.clone()), now()), Some(behind));
}

#[test]
fn dedup_synthesises_stopped_when_the_session_vanishes() {
    let mut dedup = Dedup::default();
    dedup.let_through(Observation::Seen(event(PlaybackStatus::Playing, 90)), now());
    let later = now() + 5 * SEC;
    let stopped = dedup.let_through(Observation::Absent, later).unwrap();
    assert_eq!(stopped.status, PlaybackStatus::Stopped);
    assert_eq!(stopped.title, "Episode 3");
    assert_eq!(stopped.player, "mpv");
    assert_eq!(stopped.position, 90 * SEC);
    assert_eq!(stopped.observed_at, later);
    assert!(!dedup.is_playing());
    assert_eq!(dedup.let_through(Observation::Absent, later), None);
}

#[test]
fn dedup_ignores_transitional_observations() {
    let mut dedup = Dedup::default();
    assert_eq!(dedup.let_through(Observation::Transitional, now()), None);
    assert!(!dedup.is_playing());
    dedup.let_through(Observation::Seen(event(PlaybackStatus::Playing, 90)), now());
    assert_eq!(dedup.let_through(Observation::Transitional, now()), None);
    assert!(dedup.is_playing());
}
