use ryuuji::playback::{PlaybackEvent, PlaybackStatus};
use ryuuji::players::{read_players, Player, PlayerRow};
use ryuuji::session::{Front, Matched, Reading, Seen, SessionSnapshot, SessionState, Tracking, SETTLE};
use ryuuji::user_file::{TomlEntry, TomlValue};
use ryuuji::worker::{Inbox, Msg, Pace, Publisher, Wake, POLL};

const SEC: u64 = 1_000_000_000;

fn player(name: &str) -> Player {
    Player {
        name: name.to_owned(),
        smtc_app_ids: Vec::new(),
        mpris_ids: Vec::new(),
        executables: Vec::new(),
        hidden: false,
    }
}

fn snapshot(state: SessionState) -> SessionSnapshot {
    SessionSnapshot {
        title: "Episode 3".to_owned(),
        state,
        start: 0,
        end: 1440 * SEC,
        position: 90 * SEC,
        updated: None,
    }
}

fn now() -> u64 {
    1_700_000_000 * SEC
}

/// A paused browser tab, optionally beside a player whose session cannot be
/// read yet, which is what a launch looks like.
fn paused_tab<'a>(brave: &'a Player, mpv: &'a Player, title: &str, unreadable: bool) -> Reading<'a> {
    let mut sessions = vec![Seen {
        app_id: "brave.exe".to_owned(),
        status: "Paused".to_owned(),
        tracking: Tracking::Watched(Matched {
            player: brave,
            snapshot: SessionSnapshot { title: title.to_owned(), ..snapshot(SessionState::Paused) },
        }),
    }];
    if unreadable {
        sessions.push(Seen {
            app_id: "mpv.exe".to_owned(),
            status: "Opened".to_owned(),
            tracking: Tracking::Unreadable(mpv),
        });
    }
    Reading { front: Front::Unknown, sessions }
}

fn watched<'a>(mpv: &'a Player, state: SessionState, status: &str) -> Reading<'a> {
    Reading {
        front: Front::Unknown,
        sessions: vec![Seen {
            app_id: "mpv.exe".to_owned(),
            status: status.to_owned(),
            tracking: Tracking::Watched(Matched { player: mpv, snapshot: snapshot(state) }),
        }],
    }
}

fn hidden_mpv_rows() -> Vec<PlayerRow> {
    let table = vec![TomlEntry {
        key: "player".to_owned(),
        value: TomlValue::Array(vec![TomlValue::Table(vec![
            TomlEntry { key: "name".to_owned(), value: TomlValue::String("mpv".to_owned()) },
            TomlEntry { key: "hidden".to_owned(), value: TomlValue::Boolean(true) },
        ])]),
    }];
    read_players(&table, &mut Vec::new())
}

#[test]
fn a_burst_coalesces_into_one_wake_that_keeps_the_session_set_bit() {
    let mut inbox = Inbox::new();
    assert_eq!(
        inbox.burst(vec![Msg::SessionChanged, Msg::SessionsChanged, Msg::SessionChanged]),
        Some(Wake { sessions_changed: true })
    );
    assert_eq!(inbox.burst(vec![Msg::SessionChanged]), Some(Wake { sessions_changed: false }));
}

#[test]
fn a_burst_of_rows_leaves_the_newest_for_the_worker() {
    let mut inbox = Inbox::new();
    let newer = hidden_mpv_rows();
    assert_eq!(
        inbox.burst(vec![Msg::Players(Vec::new()), Msg::SessionChanged, Msg::Players(newer.clone())]),
        Some(Wake { sessions_changed: false })
    );
    assert_eq!(inbox.rows.take(), Some(newer));
    inbox.burst(vec![Msg::SessionChanged]);
    assert_eq!(inbox.rows, None);
}

#[test]
fn stop_ends_the_worker_even_in_the_middle_of_a_burst() {
    let mut inbox = Inbox::new();
    assert_eq!(inbox.burst(vec![Msg::SessionsChanged, Msg::Stop, Msg::SessionChanged]), None);
}

#[test]
fn one_message_is_noted_for_the_next_refresh() {
    let mut inbox = Inbox::new();
    let mut wake = Wake { sessions_changed: false };
    assert!(inbox.note(&mut wake, Msg::SessionChanged));
    assert!(!wake.sessions_changed);
    assert!(inbox.note(&mut wake, Msg::SessionsChanged));
    assert!(wake.sessions_changed);
    assert!(!inbox.note(&mut wake, Msg::Stop));
}

#[test]
fn the_worker_polls_while_playing_or_while_a_session_is_unreadable() {
    assert_eq!(Pace::watching(true, 0), Pace::Poll(POLL));
    assert_eq!(Pace::watching(false, 1), Pace::Poll(POLL));
    assert_eq!(Pace::watching(false, 0), Pace::Idle);
}

#[test]
fn a_hidden_session_is_listed_and_never_watched() {
    let mpv = player("mpv");
    let mut publisher = Publisher::new();
    let reading = Reading {
        front: Front::Unknown,
        sessions: vec![Seen {
            app_id: "mpv.exe".to_owned(),
            status: "Playing".to_owned(),
            tracking: Tracking::Hidden(&mpv),
        }],
    };
    let published = publisher.publish(reading, now());
    assert_eq!(published.pace, Pace::Idle);
    assert_eq!(published.rows[0].player.as_deref(), Some("mpv"));
    assert!(published.rows[0].hidden);
    assert!(published.event.is_none());
}

#[test]
fn every_session_reaches_the_mirror_and_only_the_watched_one_reaches_the_sink() {
    let mpv = player("mpv");
    let mut publisher = Publisher::new();
    let reading = Reading {
        front: Front::Unknown,
        sessions: vec![
            Seen { app_id: "Spotify.exe".to_owned(), status: "Playing".to_owned(), tracking: Tracking::Unknown },
            Seen {
                app_id: "mpv.exe".to_owned(),
                status: "Playing".to_owned(),
                tracking: Tracking::Watched(Matched { player: &mpv, snapshot: snapshot(SessionState::Playing) }),
            },
        ],
    };
    let published = publisher.publish(reading, now());
    assert_eq!(published.pace, Pace::Poll(POLL));
    assert_eq!(published.rows.len(), 2);
    assert_eq!(published.rows[0].player, None);
    assert_eq!(published.rows[1].player.as_deref(), Some("mpv"));
    assert_eq!(published.rows[1].title, "Episode 3");
    let event: PlaybackEvent = published.event.unwrap();
    assert_eq!(event.player, "mpv");
    assert_eq!(event.status, PlaybackStatus::Playing);
}

#[test]
fn an_unreadable_session_is_counted_so_the_observation_is_not_absent() {
    let mpv = player("mpv");
    let mut publisher = Publisher::new();
    assert!(publisher.publish(watched(&mpv, SessionState::Playing, "Playing"), now()).event.is_some());
    let unreadable = Reading {
        front: Front::Unknown,
        sessions: vec![Seen {
            app_id: "mpv.exe".to_owned(),
            status: "Playing".to_owned(),
            tracking: Tracking::Unreadable(&mpv),
        }],
    };
    let published = publisher.publish(unreadable, now() + SEC);
    assert_eq!(published.pace, Pace::Poll(POLL));
    assert!(published.event.is_none(), "no Stopped was synthesised");
    assert_eq!(published.rows[0].player.as_deref(), Some("mpv"));
}

#[test]
fn a_repeated_reading_is_not_sunk_twice() {
    let mpv = player("mpv");
    let mut publisher = Publisher::new();
    let mut sunk = 0;
    for offset in [0, 1] {
        let published = publisher.publish(watched(&mpv, SessionState::Paused, "Paused"), now() + offset * SEC);
        assert_eq!(published.pace, Pace::Idle);
        sunk += usize::from(published.event.is_some());
    }
    assert_eq!(sunk, 1);
}

#[test]
fn an_empty_reading_after_a_watched_one_synthesises_stopped() {
    let mpv = player("mpv");
    let mut publisher = Publisher::new();
    assert!(publisher.publish(watched(&mpv, SessionState::Playing, "Playing"), now()).event.is_some());
    let published = publisher.publish(Reading { front: Front::Unknown, sessions: Vec::new() }, now() + SEC);
    assert_eq!(published.pace, Pace::Idle);
    assert_eq!(published.event.unwrap().status, PlaybackStatus::Stopped);
    assert!(published.rows.is_empty());
}

#[test]
fn a_paused_player_beside_an_unreadable_session_is_held_back_then_reported() {
    let mpv = player("mpv");
    let brave = player("brave");
    let mut publisher = Publisher::new();

    let published = publisher.publish(paused_tab(&brave, &mpv, "Video", true), now());
    assert_eq!(published.pace, Pace::Poll(POLL), "the second look has to happen");
    assert!(published.event.is_none(), "the tab was reported at once");

    let published = publisher.publish(paused_tab(&brave, &mpv, "Video", true), now() + SETTLE);
    assert_eq!(published.pace, Pace::Poll(POLL));
    assert_eq!(published.event.unwrap().player, "brave");
}

#[test]
fn the_hold_starts_over_when_every_matched_session_reads_again() {
    let mpv = player("mpv");
    let brave = player("brave");
    let mut publisher = Publisher::new();
    publisher.publish(paused_tab(&brave, &mpv, "Video", true), now());
    assert!(publisher.publish(paused_tab(&brave, &mpv, "Video", true), now() + SETTLE).event.is_some());

    let published = publisher.publish(paused_tab(&brave, &mpv, "Video", false), now() + SETTLE);
    assert_eq!(published.pace, Pace::Idle);
    assert!(published.event.is_none(), "the same tab was sunk twice");

    // A different title, so dedup cannot hide what the hold did.
    let published = publisher.publish(paused_tab(&brave, &mpv, "Another video", true), now() + SETTLE);
    assert_eq!(published.pace, Pace::Poll(POLL));
    assert!(published.event.is_none(), "the hold did not start over");
}

#[test]
fn a_poll_that_hears_nothing_wakes_without_the_set_bit() {
    let mut inbox = Inbox::new();
    assert_eq!(inbox.burst(Vec::new()), Some(Wake { sessions_changed: false }));
    assert!(inbox.rows.is_none());
}
