use ryuuji::diagnostics::{join, newest, DataDir, DataDirError, DataDirSource};
use ryuuji::gate::{after_undo, earned, propose, proposed_entry, re_resolved, record_step, upsert, RecordStep};
use ryuuji::history::{day_name, days, CivilDate, DayName, HistoryId, NewRecording, RecordOutcome, Recorded, Watch, WatchOutcome};
use ryuuji::library::{Decline, EntryId, EpisodeRange, LibraryEntry, WatchStatus};
use ryuuji::matching::{Link, ProposedMatch};
use ryuuji::playback::{PlaybackEvent, PlaybackSource, PlaybackStatus};
use ryuuji::reading::Reading;
use ryuuji::settings::{read_settings, render, settings_with_theme, themes};
use ryuuji::smtc::{needs_resubscribe, status_label, RawStatus};
use ryuuji::session::SessionState;
use ryuuji::state::{chain_text, AppState, Command, Detail, NowPlaying, Page, Settings, ThemePreference, WatchProgress};
use ryuuji::user_file::{not_toml_problem, placed_problem, trimmed, unreadable_problem, unknown_keys, TomlEntry, TomlValue, UserFile};
use ryuuji::watch::Accrual;

const SEC: u64 = 1_000_000_000;

fn secs(n: u64) -> u64 {
    n * SEC
}

fn show(progress: u32) -> LibraryEntry {
    LibraryEntry {
        id: EntryId(3),
        title: "Show".into(),
        status: WatchStatus::Watching,
        progress,
        total: None,
        rewatching: false,
    }
}

fn recorded(progress: u32, undone_at: Option<u64>) -> Watch {
    Watch {
        id: HistoryId(1),
        at: secs(100),
        raw_title: "Show - 02.mkv".into(),
        parsed_title: "Show".into(),
        player: "mpv".into(),
        episode: Some(EpisodeRange { start: progress, end: progress }),
        link: Link::Exact(EntryId(3)),
        outcome: WatchOutcome::Recorded(Recorded { progress_before: progress - 1, progress, at: secs(160), undone_at }),
        added_at: None,
    }
}

#[test]
fn undo_is_offered_only_while_the_entry_stands_at_the_recording() {
    assert!(recorded(2, None).undoable(&[show(2)]));
    assert!(!recorded(2, None).undoable(&[show(3)]));
    assert!(!recorded(2, Some(secs(200))).undoable(&[show(1)]));
    assert!(!recorded(2, Some(secs(200))).undoable(&[show(2)]));
    assert!(!recorded(2, None).undoable(&[]));
    let declined = Watch { outcome: WatchOutcome::Declined(Decline::NotNext), ..recorded(2, None) };
    assert!(!declined.undoable(&[show(2)]));
}

#[test]
fn a_row_shows_when_it_recorded_or_else_when_it_was_written() {
    assert_eq!(recorded(2, None).shown_at(), secs(160));
    let added = Watch { outcome: WatchOutcome::Added, ..recorded(2, None) };
    assert_eq!(added.shown_at(), secs(100));
}

#[test]
fn playback_status_labels() {
    assert_eq!(PlaybackStatus::Playing.label(), "Playing");
    assert_eq!(PlaybackStatus::Paused.label(), "Paused");
    assert_eq!(PlaybackStatus::Stopped.label(), "Stopped");
}

#[test]
fn decline_labels_say_why_nothing_was_recorded() {
    assert_eq!(Decline::NotExact.label(), "Not recorded: no exact match");
    assert_eq!(Decline::Completed.label(), "Not recorded: show is completed");
    assert_eq!(Decline::NoEpisode.label(), "Not recorded: no episode number");
    assert_eq!(Decline::NotNext.label(), "Not recorded: not the next episode");
}

#[test]
fn default_state_is_empty_library_on_library_page() {
    let state = AppState::default();
    assert_eq!(state.page, Page::Library);
    assert_eq!(state.detail, None);
    assert!(state.library.is_empty());
    assert_eq!(state.now_playing, NowPlaying::Idle);
    assert_eq!(state.last_match, None);
    assert_eq!(state.watch_progress, None);
    assert_eq!(state.settings.theme, ThemePreference::System);
    assert!(state.notices.is_empty());
}

#[test]
fn every_tag_reads_back_as_its_value() {
    for page in Page::ALL {
        assert_eq!(Page::from_tag(page.tag()), Some(page));
    }
    assert_eq!(Page::from_tag("nope"), None);
    for theme in ThemePreference::ALL {
        assert_eq!(ThemePreference::from_tag(theme.tag()), Some(theme));
    }
    assert_eq!(ThemePreference::from_tag("nope"), None);
    for status in WatchStatus::ALL {
        assert_eq!(WatchStatus::from_tag(status.tag()), Some(status));
    }
    for decline in Decline::ALL {
        assert_eq!(Decline::from_tag(decline.tag()), Some(decline));
    }
    assert_eq!(Decline::from_tag("nope"), None);
    assert_eq!(Page::NowPlaying.label(), "Now playing");
    assert_eq!(Detail::Diagnostics.label(), "Diagnostics");
    assert_eq!(ThemePreference::default(), ThemePreference::System);
    assert_eq!(Settings::default().theme, ThemePreference::System);
}

#[test]
fn navigation_moves_only_the_view() {
    let mut state = AppState::default();
    assert!(state.navigate(&Command::OpenDetail(Detail::Diagnostics)));
    assert_eq!((state.page, state.detail), (Page::Library, Some(Detail::Diagnostics)));
    assert!(state.navigate(&Command::SelectPage(Page::Settings)));
    assert_eq!((state.page, state.detail), (Page::Settings, None));
    assert!(state.navigate(&Command::OpenDetail(Detail::Diagnostics)));
    assert!(state.navigate(&Command::CloseDetail));
    assert_eq!((state.page, state.detail), (Page::Settings, None));
    assert!(state.navigate(&Command::DismissNotice));
    assert!(!state.navigate(&Command::AddProposedToLibrary));
}

fn event(title: &str, status: PlaybackStatus) -> PlaybackEvent {
    PlaybackEvent {
        player: "mpv".into(),
        title: title.into(),
        status,
        position: secs(305),
        duration: secs(1420),
        observed_at: 0,
        source: PlaybackSource::Detected,
        foreground: None,
    }
}

#[test]
fn now_playing_follows_the_status_and_the_title() {
    assert_eq!(NowPlaying::of(&event("Show - 01", PlaybackStatus::Stopped)), NowPlaying::Idle);
    assert_eq!(NowPlaying::of(&event("  ", PlaybackStatus::Playing)), NowPlaying::Detecting);
    assert_eq!(
        NowPlaying::of(&event("Show - 01", PlaybackStatus::Paused)),
        NowPlaying::Playing {
            title: "Show - 01".into(),
            player: "mpv".into(),
            status: PlaybackStatus::Paused,
            position: secs(305),
            duration: secs(1420),
        }
    );
}

fn exact(episode: Option<EpisodeRange>) -> Option<ProposedMatch> {
    Some(ProposedMatch {
        raw_title: "Show - 03.mkv".into(),
        parsed_title: "Show".into(),
        episode,
        season: None,
        release_group: None,
        link: Link::Exact(EntryId(3)),
        player: "mpv".into(),
        at: 0,
    })
}

fn one(n: u32) -> Option<EpisodeRange> {
    Some(EpisodeRange { start: n, end: n })
}

#[test]
fn the_gates_run_in_order_and_a_passing_viewing_earns_its_episodes() {
    let library = [show(2)];
    let write = earned(&exact(one(3)), &library, Some(HistoryId(9))).unwrap();
    assert_eq!(
        write,
        NewRecording {
            watch: Some(HistoryId(9)),
            entry: EntryId(3),
            episode: EpisodeRange { start: 3, end: 3 },
            raw_title: "Show - 03.mkv".into(),
            parsed_title: "Show".into(),
            player: "mpv".into(),
        }
    );
    // A batch spanning the next episode was watched through its end.
    assert!(earned(&exact(Some(EpisodeRange { start: 1, end: 12 })), &library, None).is_ok());
    assert_eq!(earned(&None, &library, None), Err(Decline::NotExact));
    let likely = exact(one(3)).map(|m| ProposedMatch { link: Link::Likely(EntryId(3)), ..m });
    assert_eq!(earned(&likely, &library, None), Err(Decline::NotExact));
    assert_eq!(earned(&exact(one(3)), &[], None), Err(Decline::NotExact));
    let completed = LibraryEntry { status: WatchStatus::Completed, ..show(2) };
    assert_eq!(earned(&exact(one(3)), &[completed.clone()], None), Err(Decline::Completed));
    let rewatching = LibraryEntry { rewatching: true, ..completed };
    assert!(earned(&exact(one(3)), &[rewatching], None).is_ok());
    assert_eq!(earned(&exact(None), &library, None), Err(Decline::NoEpisode));
    assert_eq!(earned(&exact(one(5)), &library, None), Err(Decline::NotNext));
    assert_eq!(earned(&exact(one(2)), &library, None), Err(Decline::NotNext));
    let short = LibraryEntry { total: Some(2), ..show(2) };
    assert_eq!(earned(&exact(one(3)), &[short], None), Err(Decline::PastTotal));
    let full = LibraryEntry { progress: u32::MAX, ..show(2) };
    assert_eq!(earned(&exact(one(3)), &[full], None), Err(Decline::NotNext));
}

#[test]
fn the_countdown_settles_once_recorded_and_writes_only_past_the_threshold() {
    let library = [show(2)];
    let counting = Accrual { accrued: secs(10), threshold: secs(120), recorded: None };
    assert_eq!(record_step(counting, &exact(one(3)), &library, None), RecordStep::Settled(RecordOutcome::Counting));
    let done = Accrual { accrued: secs(500), threshold: secs(120), recorded: Some(RecordOutcome::Undone) };
    assert_eq!(record_step(done, &exact(one(3)), &library, None), RecordStep::Settled(RecordOutcome::Undone));
    let due = Accrual { accrued: secs(120), threshold: secs(120), recorded: None };
    assert!(matches!(record_step(due, &exact(one(3)), &library, None), RecordStep::Write(_)));
    assert_eq!(
        record_step(due, &exact(one(4)), &library, None),
        RecordStep::Settled(RecordOutcome::Declined(Decline::NotNext))
    );
}

#[test]
fn a_stored_row_replaces_its_entry_or_joins_the_library() {
    let mut library = vec![show(2)];
    upsert(&mut library, show(5));
    assert_eq!(library, vec![show(5)]);
    let other = LibraryEntry { id: EntryId(4), ..show(0) };
    upsert(&mut library, other.clone());
    assert_eq!(library, vec![show(5), other]);
}

#[test]
fn a_library_edit_links_a_standing_proposal_that_named_nothing() {
    let unmatched = ProposedMatch { link: Link::Unmatched, ..exact(one(3)).unwrap() };
    assert_eq!(re_resolved(&unmatched, &[show(0)]), Some(Link::Exact(EntryId(3))));
    assert_eq!(re_resolved(&unmatched, &[]), None);
    let linked = exact(one(3)).unwrap();
    assert_eq!(re_resolved(&linked, &[]), None);
}

#[test]
fn add_to_library_makes_a_watching_entry_from_an_unmatched_proposal() {
    let unmatched = ProposedMatch { link: Link::Unmatched, ..exact(one(3)).unwrap() };
    let entry = proposed_entry(&Some(unmatched.clone())).unwrap();
    assert_eq!(entry.title, "Show");
    assert_eq!(entry.status, WatchStatus::Watching);
    assert_eq!((entry.progress, entry.total, entry.rewatching), (0, None, false));
    let untitled = ProposedMatch { parsed_title: String::new(), ..unmatched };
    assert_eq!(proposed_entry(&Some(untitled)).unwrap().title, "Show - 03.mkv");
    assert_eq!(proposed_entry(&exact(one(3))), None);
    assert_eq!(proposed_entry(&None), None);
}

#[test]
fn an_undo_shows_the_countdown_undone() {
    let progress = WatchProgress { accrued: 1, threshold: 1, outcome: RecordOutcome::Recorded(HistoryId(4)) };
    assert_eq!(after_undo(Some(progress), HistoryId(4)).unwrap().outcome, RecordOutcome::Undone);
    assert_eq!(after_undo(Some(progress), HistoryId(5)), Some(progress));
    assert_eq!(after_undo(None, HistoryId(4)), None);
}

#[test]
fn a_title_without_elements_proposes_nothing_to_match() {
    let reading = Reading::default();
    let proposal = propose(&event("Something", PlaybackStatus::Playing), &reading, &[show(0)]);
    assert_eq!(proposal.raw_title, "Something");
    assert_eq!(proposal.parsed_title, "");
    assert_eq!(proposal.episode, None);
    assert_eq!(proposal.link, Link::Unmatched);
    assert_eq!(proposal.player, "mpv");
}

#[test]
fn an_error_chain_joins_its_causes() {
    assert_eq!(chain_text(&[]), "");
    assert_eq!(chain_text(&["library query failed".to_string()]), "library query failed");
    assert_eq!(chain_text(&["outer".to_string(), "middle".to_string(), "root".to_string()]), "outer: middle: root");
}

fn entry(key: &str, value: TomlValue) -> TomlEntry {
    TomlEntry { key: key.to_owned(), value }
}

#[test]
fn settings_read_the_theme_and_name_every_problem() {
    let mut problems = Vec::new();
    let settings = read_settings(&[entry("theme", TomlValue::String("dark".into()))], &mut problems);
    assert_eq!(settings.theme, ThemePreference::Dark);
    assert!(problems.is_empty());

    let settings = read_settings(
        &[entry("colour", TomlValue::Integer(1)), entry("theme", TomlValue::String("purple".into()))],
        &mut problems,
    );
    assert_eq!(settings.theme, ThemePreference::System);
    assert_eq!(
        problems,
        [
            "theme = \"purple\" isn't one of \"system\" | \"light\" | \"dark\", so it is \"system\".",
            "colour isn't a setting Ryuuji knows, so it is ignored.",
        ]
    );
    let mut problems = Vec::new();
    let settings = read_settings(&[entry("theme", TomlValue::Boolean(true))], &mut problems);
    assert_eq!(settings.theme, ThemePreference::System);
    assert_eq!(problems, ["theme should be text, not boolean, so it is \"system\"."]);
    assert_eq!(read_settings(&[], &mut Vec::new()).theme, ThemePreference::System);
}

#[test]
fn a_fresh_settings_file_explains_itself_and_holds_the_theme() {
    assert_eq!(themes(), "\"system\" | \"light\" | \"dark\"");
    assert_eq!(
        render(&Settings { theme: ThemePreference::Dark }),
        "# Ryuuji settings. A save applies at once. Changing a setting in Ryuuji changes only its own line here.\n\
         # theme = \"system\" | \"light\" | \"dark\"\n\
         theme = \"dark\"\n"
    );
}

#[test]
fn user_files_are_named_and_their_unknown_keys_listed_in_order() {
    assert_eq!(UserFile::Settings.file_name(), "settings.toml");
    assert_eq!(UserFile::Players.file_name(), "players.toml");
    let table = [entry("b", TomlValue::Float), entry("theme", TomlValue::Datetime), entry("a", TomlValue::Float)];
    assert_eq!(unknown_keys(&table, &["theme"]), ["b", "a"]);
    assert_eq!(TomlValue::Float.type_str(), "float");
    assert_eq!(trimmed("\u{3000} mpv \t"), "mpv");
    assert_eq!(trimmed("   "), "");
}

#[test]
fn raw_status_round_trips_winrt_values() {
    for (value, status) in RawStatus::ALL.into_iter().enumerate() {
        assert_eq!(RawStatus::from_winrt(value as i32), Some(status));
    }
    assert_eq!(RawStatus::from_winrt(6), None);
    assert_eq!(RawStatus::from_winrt(-1), None);
    assert_eq!(RawStatus::Closed.label(), "Closed");
    assert_eq!(RawStatus::Paused.label(), "Paused");
    assert_eq!(status_label(4), "Playing");
    assert_eq!(status_label(-7), "Unknown(-7)");
    assert_eq!(status_label(i32::MIN), "Unknown(-2147483648)");
}

#[test]
fn closed_and_stopped_settle_as_stopped_while_opened_and_changing_do_not() {
    assert_eq!(RawStatus::Closed.state(), SessionState::Stopped);
    assert_eq!(RawStatus::Stopped.state(), SessionState::Stopped);
    assert_eq!(RawStatus::Playing.state(), SessionState::Playing);
    assert_eq!(RawStatus::Paused.state(), SessionState::Paused);
    assert_eq!(RawStatus::Opened.state(), SessionState::Settling);
    assert_eq!(RawStatus::Changing.state(), SessionState::Settling);
    assert!(needs_resubscribe(true, 1, 1));
    assert!(needs_resubscribe(false, 2, 1));
    assert!(!needs_resubscribe(false, 1, 1));
}

#[test]
fn propose_carries_player_and_at() {
    let mut playing = event("[Subs] Show - 03 (1080p).mkv", PlaybackStatus::Playing);
    playing.observed_at = secs(1_756_400_000);
    let proposal = propose(&playing, &Reading::default(), &[]);
    assert_eq!(proposal.raw_title, playing.title);
    assert_eq!(proposal.player, "mpv");
    assert_eq!(proposal.at, playing.observed_at);
}

#[test]
fn propose_without_a_title_is_unmatched() {
    let proposal = propose(&event("", PlaybackStatus::Playing), &Reading::default(), &[show(0)]);
    assert_eq!(proposal.parsed_title, "");
    assert_eq!(proposal.link, Link::Unmatched);
}

#[test]
fn override_wins_over_platform_default() {
    let tmp = tempfile::tempdir().unwrap();
    let wanted = tmp.path().join("override").to_string_lossy().into_owned();
    let platform = tmp.path().join("platform");
    let dir = DataDir::from_parts(Some(wanted.clone()), Some(platform.to_string_lossy().into_owned())).unwrap();
    assert_eq!(dir.root(), wanted);
    assert_eq!(dir.source(), DataDirSource::EnvOverride);
    assert!(!platform.exists());
}

#[test]
fn empty_override_counts_as_unset() {
    let dir = DataDir::from_parts(Some(String::new()), Some("/data/platform".to_owned())).unwrap();
    assert_eq!(dir.root(), "/data/platform");
    assert_eq!(dir.source(), DataDirSource::PlatformDefault);
}

#[test]
fn nothing_to_choose_from_is_an_error() {
    assert!(matches!(DataDir::from_parts(None, None), Err(DataDirError::NoPlatformDir)));
}

#[test]
fn the_data_dir_names_its_files_under_its_root() {
    let dir = DataDir::at("/home/u/ryuuji".to_owned());
    assert_eq!(dir.source(), DataDirSource::Explicit);
    assert_eq!(dir.logs(), "/home/u/ryuuji/logs");
    assert_eq!(dir.library_db(), "/home/u/ryuuji/library.sqlite");
    assert_eq!(dir.settings_file(), "/home/u/ryuuji/settings.toml");
    assert_eq!(join("/home/u/", "logs"), "/home/u/logs");
    assert_eq!(join("", "logs"), "logs");
}

#[test]
fn the_newest_file_is_the_last_of_the_newest_and_an_unknown_time_is_oldest() {
    assert_eq!(newest(&[]), None);
    assert_eq!(newest(&[Some(5), Some(9), Some(7)]), Some(1));
    assert_eq!(newest(&[Some(9), None, Some(9)]), Some(2));
    assert_eq!(newest(&[None, None]), Some(1));
    assert_eq!(newest(&[Some(1), None]), Some(0));
}

fn date(year: i16, month: i8, day: i8) -> CivilDate {
    CivilDate { year, month, day }
}

#[test]
fn days_read_today_yesterday_then_weekday_and_date() {
    let today = date(2026, 9, 15);
    let yesterday = Some(date(2026, 9, 14));
    assert_eq!(day_name(today, today, yesterday), DayName::Today);
    assert_eq!(day_name(date(2026, 9, 14), today, yesterday), DayName::Yesterday);
    assert_eq!(day_name(date(2026, 9, 10), today, yesterday), DayName::ThisYear);
    assert_eq!(day_name(date(2025, 12, 31), today, yesterday), DayName::OtherYear);
}

#[test]
fn days_group_a_page_by_the_local_date_each_row_shows() {
    let page = vec![recorded(3, None), recorded(2, None), recorded(1, None)];
    let dates = [date(2026, 9, 15), date(2026, 9, 15), date(2026, 9, 13)];
    let labels = ["Today".to_owned(), "Today".to_owned(), "Sunday, 13 September".to_owned()];
    let grouped = days(&page, &dates, &labels);
    assert_eq!(grouped.len(), 2);
    assert_eq!(grouped[0].label, "Today");
    assert_eq!(grouped[0].watches.len(), 2);
    assert_eq!(*grouped[0].watches[1], page[1]);
    assert_eq!(grouped[1].label, "Sunday, 13 September");
    assert_eq!(grouped[1].watches.len(), 1);
    assert_eq!(*grouped[1].watches[0], page[2]);
}

#[test]
fn a_parse_problem_is_placed_by_line_and_column_on_one_line() {
    let text = "known = 1\nbroken = [unterminated\n";
    assert_eq!(placed_problem(text, " unclosed array\n", Some(32)), "line 2, column 23: unclosed array");
    assert_eq!(placed_problem(text, "bad\nvalue", Some(0)), "line 1, column 1: bad, value");
    assert_eq!(placed_problem(text, "bad", None), "bad");
    assert_eq!(placed_problem("\u{f6}x", "bad", Some(1)), "bad");
    assert_eq!(placed_problem("\u{f6}x", "bad", Some(2)), "line 1, column 2: bad");
    assert_eq!(placed_problem("ab", "bad", Some(9)), "bad");
}

#[test]
fn a_file_that_is_not_toml_is_placed_where_it_breaks() {
    let text = "known = 1\nbroken = [unterminated\n";
    let err = text.parse::<toml::Table>().unwrap_err();
    let problem = placed_problem(text, err.message(), err.span().map(|span| span.start));
    assert!(problem.contains("line 2, column 23: unclosed array"), "{problem:?}");
    assert!(!problem.contains('\n'));
}

#[test]
fn a_theme_save_to_a_missing_file_writes_the_starter_with_it() {
    let text = settings_with_theme(None, ThemePreference::Dark).unwrap();
    assert!(text.starts_with("# Ryuuji settings."));
    assert!(text.ends_with("theme = \"dark\"\n"));
}

#[test]
fn a_theme_save_keeps_comments_unknown_keys_and_order() {
    let text = "# mine\nfuture_knob = 3 # later\ntheme = \"light\"\n\n# end\n";
    assert_eq!(
        settings_with_theme(Some(text), ThemePreference::Dark).unwrap(),
        "# mine\nfuture_knob = 3 # later\ntheme = \"dark\"\n\n# end\n"
    );
}

#[test]
fn a_theme_save_replaces_a_theme_it_could_not_read() {
    assert_eq!(settings_with_theme(Some("theme = \"blue\"\n"), ThemePreference::Dark).unwrap(), "theme = \"dark\"\n");
}

#[test]
fn a_theme_save_leaves_a_file_that_is_not_toml_alone() {
    assert_eq!(settings_with_theme(Some("theme = [unterminated"), ThemePreference::Dark), None);
}

#[test]
fn a_file_that_applies_nothing_says_why_in_one_sentence() {
    assert_eq!(
        not_toml_problem("line 2, column 23: unclosed array"),
        "It isn't valid TOML (line 2, column 23: unclosed array), so none of it applies."
    );
    assert!(unreadable_problem("Is a directory (os error 21)").starts_with("It couldn't be read"));
}
