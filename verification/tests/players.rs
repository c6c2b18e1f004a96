use ryuuji::players::{read_players, too_short, Player, PlayerRow, PlayerTable, TableError, MIN_PATTERN_LEN};
use ryuuji::user_file::{read_document, Loaded, TomlEntry, TomlValue};

fn text(value: &str) -> TomlValue {
    TomlValue::String(value.to_owned())
}

fn list(items: &[&str]) -> TomlValue {
    TomlValue::Array(items.iter().map(|item| text(item)).collect())
}

fn entry(key: &str, value: TomlValue) -> TomlEntry {
    TomlEntry { key: key.to_owned(), value }
}

/// A `[[player]]` table.
fn row(fields: Vec<TomlEntry>) -> TomlValue {
    TomlValue::Table(fields)
}

/// A `players.toml` holding `rows`.
fn file(rows: Vec<TomlValue>) -> Vec<TomlEntry> {
    vec![entry("player", TomlValue::Array(rows))]
}

/// The rows as the core reads them from `players.toml`.
fn rows(rows: Vec<TomlValue>) -> Vec<PlayerRow> {
    read_players(&file(rows), &mut Vec::new())
}

fn player(name: &str, app_id: &str) -> Player {
    Player {
        name: name.to_owned(),
        smtc_app_ids: vec![app_id.to_owned()],
        mpris_ids: Vec::new(),
        executables: vec![format!("{}.exe", name.to_lowercase())],
        hidden: false,
    }
}

fn names(table: &PlayerTable) -> Vec<String> {
    table.players().iter().map(|p| p.name.clone()).collect()
}

fn named<'a>(table: &'a PlayerTable, name: &str) -> &'a Player {
    table.players().iter().find(|p| p.name == name).unwrap()
}

fn firefox_row() -> Player {
    Player {
        name: "Firefox".to_owned(),
        smtc_app_ids: Vec::new(),
        mpris_ids: vec!["firefox".to_owned()],
        executables: vec!["firefox.exe".to_owned()],
        hidden: false,
    }
}

fn table(players: Vec<Player>) -> PlayerTable {
    PlayerTable::from_players(players).unwrap()
}

/// What the registry reports for release Firefox.
fn mozilla_firefox() -> Player {
    Player {
        name: "Mozilla Firefox".to_owned(),
        smtc_app_ids: vec!["D52277D1BA334E98".to_owned()],
        mpris_ids: Vec::new(),
        executables: vec!["firefox.exe".to_owned()],
        hidden: false,
    }
}

/// A small stand-in for the built-in table: local players, then browsers.
fn base() -> PlayerTable {
    table(vec![
        Player {
            name: "mpv".to_owned(),
            smtc_app_ids: vec!["mpv.exe".to_owned()],
            mpris_ids: vec!["mpv".to_owned()],
            executables: vec!["mpv.exe".to_owned()],
            hidden: false,
        },
        Player {
            name: "Brave".to_owned(),
            smtc_app_ids: vec!["Brave".to_owned()],
            mpris_ids: Vec::new(),
            executables: vec!["brave.exe".to_owned()],
            hidden: false,
        },
        Player {
            name: "Firefox".to_owned(),
            smtc_app_ids: Vec::new(),
            mpris_ids: vec!["firefox".to_owned()],
            executables: vec!["firefox.exe".to_owned()],
            hidden: false,
        },
    ])
}

#[test]
fn a_pattern_is_too_short_below_three_chars() {
    assert_eq!(MIN_PATTERN_LEN, 3);
    assert!(too_short("ab"));
    assert!(!too_short("abc"));
    assert!(too_short("é"));
}

#[test]
fn extend_completes_a_row_written_for_another_platform() {
    let mut table = table(vec![firefox_row()]);
    assert_eq!(table.extend(vec![mozilla_firefox()]).unwrap(), 1);
    assert_eq!(names(&table), ["Firefox"]);
    assert_eq!(table.match_app_id("D52277D1BA334E98").map(|p| p.name.as_str()), Some("Firefox"));
    assert_eq!(
        table.match_mpris("org.mpris.MediaPlayer2.firefox.instance42", None).map(|p| p.name.as_str()),
        Some("Firefox")
    );
}

#[test]
fn extend_fills_by_name_when_the_executables_differ() {
    let mut table = table(vec![Player {
        name: "Waterfox".to_owned(),
        smtc_app_ids: Vec::new(),
        mpris_ids: vec!["waterfox".to_owned()],
        executables: Vec::new(),
        hidden: false,
    }]);
    let discovered = Player {
        name: "Waterfox".to_owned(),
        smtc_app_ids: vec!["0123456789ABCDEF".to_owned()],
        mpris_ids: Vec::new(),
        executables: vec!["Waterfox.EXE".to_owned()],
        hidden: false,
    };
    assert_eq!(table.extend(vec![discovered]).unwrap(), 1);
    assert_eq!(names(&table), ["Waterfox"]);
    assert_eq!(table.players()[0].executables, ["waterfox.exe"]);
    assert_eq!(table.match_app_id("0123456789abcdef").map(|p| p.name.as_str()), Some("Waterfox"));
}

#[test]
fn extend_appends_after_the_known_rows_and_lowercases() {
    let mut table = base();
    let added = table.extend(vec![player("LibreWolf", "83C1C0F3FA8524B1")]).unwrap();
    assert_eq!(added, 1);
    assert_eq!(names(&table).last().map(String::as_str), Some("LibreWolf"));
    assert_eq!(
        table.match_app_id("83C1C0F3FA8524B1;PrivateBrowsingAUMID").map(|p| p.name.as_str()),
        Some("LibreWolf")
    );
}

#[test]
fn extend_never_overrides_a_pattern_list_a_known_row_already_wrote() {
    let mut table = base();
    let before = names(&table);
    let changed = table.extend(vec![player("Brave", "0123456789ABCDEF")]).unwrap();
    assert_eq!(changed, 0);
    assert_eq!(names(&table), before);
    assert_eq!(table.match_app_id("0123456789ABCDEF"), None);
    assert_eq!(table.match_app_id("Brave").map(|p| p.name.as_str()), Some("Brave"));
}

#[test]
fn extend_rejects_a_short_pattern_and_adds_nothing() {
    let mut table = base();
    let before = names(&table);
    let result = table.extend(vec![player("LibreWolf", "83C1C0F3FA8524B1"), player("Odd", "ab")]);
    assert!(
        matches!(result, Err(TableError::ShortPattern { ref name, .. }) if name == "Odd"),
        "{result:?}"
    );
    assert_eq!(names(&table), before);
}

#[test]
fn match_mpris_cuts_the_instance_suffix_and_ignores_case() {
    let table = table(vec![firefox_row()]);
    for bus_name in [
        "org.mpris.MediaPlayer2.firefox",
        "org.mpris.MediaPlayer2.firefox.instance1234",
        "org.mpris.MediaPlayer2.Firefox.instance_1_2",
    ] {
        assert_eq!(table.match_mpris(bus_name, None).map(|p| p.name.as_str()), Some("Firefox"), "{bus_name}");
    }
}

#[test]
fn match_mpris_is_whole_not_substring_and_needs_the_prefix() {
    let table = table(vec![firefox_row()]);
    assert_eq!(table.match_mpris("org.mpris.MediaPlayer2.firefox-esr-wrapper", None), None);
    assert_eq!(table.match_mpris("firefox", None), None);
    assert_eq!(table.match_mpris("org.mpris.MediaPlayer2.mpv", None), None);
}

#[test]
fn match_mpris_falls_back_to_the_desktop_entry() {
    let table = table(vec![firefox_row()]);
    assert_eq!(
        table.match_mpris("org.mpris.MediaPlayer2.io.example.Wrapper", Some("Firefox")).map(|p| p.name.as_str()),
        Some("Firefox")
    );
    assert_eq!(table.match_mpris("org.mpris.MediaPlayer2.io.example.Wrapper", Some("mpv")), None);
}

#[test]
fn match_is_case_insensitive_and_substring() {
    let table = base();
    for app_id in [
        "MPV.EXE",
        "C:\\tools\\mpv.exe",
        "Microsoft.AutoGenerated.{8B7C2A1E-0000-4000-8000-000000000000}\\mpv.exe",
    ] {
        assert_eq!(table.match_app_id(app_id).map(|p| p.name.as_str()), Some("mpv"));
    }
    assert_eq!(table.match_app_id("Spotify.exe"), None);
}

#[test]
fn parse_lowercases_patterns_so_an_uppercase_entry_still_matches() {
    let table = table(vec![Player {
        name: "MPV".to_owned(),
        smtc_app_ids: vec!["MPV.EXE".to_owned()],
        mpris_ids: Vec::new(),
        executables: vec!["MPV.EXE".to_owned()],
        hidden: false,
    }]);
    assert_eq!(table.players()[0].smtc_app_ids, ["mpv.exe"]);
    assert_eq!(table.players()[0].executables, ["mpv.exe"]);
    assert_eq!(table.match_app_id("C:\\tools\\mpv.exe").map(|p| p.name.as_str()), Some("MPV"));
}

#[test]
fn pattern_shorter_than_three_chars_is_rejected_and_names_the_field() {
    for field in ["smtc_app_ids", "mpris_ids", "executables"] {
        let mut x = Player {
            name: "x".to_owned(),
            smtc_app_ids: Vec::new(),
            mpris_ids: Vec::new(),
            executables: Vec::new(),
            hidden: false,
        };
        match field {
            "smtc_app_ids" => x.smtc_app_ids = vec!["ab".to_owned()],
            "mpris_ids" => x.mpris_ids = vec!["ab".to_owned()],
            _ => x.executables = vec!["ab".to_owned()],
        }
        let result = PlayerTable::from_players(vec![x]);
        assert!(
            matches!(
                result,
                Err(TableError::ShortPattern { ref name, field: got, ref pattern })
                    if name == "x" && got == field && pattern == "ab"
            ),
            "{field}"
        );
    }
}

#[test]
fn duplicate_player_name_is_rejected() {
    let result = PlayerTable::from_players(vec![player("mpv", "mpv.exe"), player("mpv", "mpv2.exe")]);
    assert!(matches!(result, Err(TableError::DuplicateName { ref name }) if name == "mpv"));
}

#[test]
fn missing_id_lists_are_empty() {
    let table = table(vec![Player {
        name: "bare".to_owned(),
        smtc_app_ids: Vec::new(),
        mpris_ids: Vec::new(),
        executables: Vec::new(),
        hidden: false,
    }]);
    assert_eq!(table.players().len(), 1);
    assert_eq!(table.match_app_id("bare"), None);
}

#[test]
fn with_no_rows_is_the_base_table() {
    let table = base().with_rows(Vec::new());
    assert_eq!(names(&table), names(&base()));
}

#[test]
fn a_row_named_like_a_builtin_replaces_only_the_lists_it_wrote() {
    let table = base().with_rows(rows(vec![row(vec![entry("name", text("mpv")), entry("executables", list(&[]))])]));
    assert_eq!(names(&table), names(&base()));
    let mpv = named(&table, "mpv");
    assert!(mpv.executables.is_empty());
    assert_eq!(mpv.smtc_app_ids, ["mpv.exe"]);
    assert_eq!(mpv.mpris_ids, ["mpv"]);
    assert!(!mpv.hidden);
}

#[test]
fn a_row_meets_a_builtin_whatever_the_case_and_keeps_its_name() {
    let table = base().with_rows(rows(vec![row(vec![entry("name", text("brave")), entry("hidden", TomlValue::Boolean(true))])]));
    assert_eq!(names(&table), names(&base()));
    let brave = table.match_app_id("Brave.TOV6AIDIK4HLZU7TATPUSWV77Q").unwrap();
    assert_eq!(brave.name, "Brave");
    assert!(brave.hidden);
}

#[test]
fn a_new_row_goes_ahead_of_the_builtins_and_wins_a_shared_id() {
    let table = base().with_rows(rows(vec![
        row(vec![entry("name", text("Wrapper")), entry("smtc_app_ids", list(&["mpv.exe"]))]),
        row(vec![entry("name", text("PotPlayer")), entry("smtc_app_ids", list(&["potplayer"]))]),
    ]));
    assert_eq!(names(&table)[..3], ["Wrapper", "PotPlayer", "mpv"]);
    assert_eq!(table.match_app_id("C:\\tools\\mpv.exe").map(|p| p.name.as_str()), Some("Wrapper"));
}

#[test]
fn discovery_fills_a_hidden_row_and_it_stays_hidden() {
    let mut table =
        base().with_rows(rows(vec![row(vec![entry("name", text("Firefox")), entry("hidden", TomlValue::Boolean(true))])]));
    assert_eq!(table.extend(vec![mozilla_firefox()]).unwrap(), 1);
    assert_eq!(names(&table), names(&base()));
    let firefox = table.match_app_id("D52277D1BA334E98").unwrap();
    assert_eq!(firefox.name, "Firefox");
    assert!(firefox.hidden);
}

#[test]
fn emptied_lists_stay_empty_and_keep_the_tie_to_discovery() {
    let mut table = base().with_rows(rows(vec![row(vec![
        entry("name", text("Firefox")),
        entry("executables", list(&[])),
        entry("smtc_app_ids", list(&[])),
    ])]));
    assert_eq!(table.extend(vec![mozilla_firefox()]).unwrap(), 1);
    assert_eq!(names(&table), names(&base()));
    let firefox = named(&table, "Firefox");
    assert!(firefox.executables.is_empty());
    assert!(firefox.smtc_app_ids.is_empty());
    assert_eq!(table.match_app_id("D52277D1BA334E98"), None);
}

#[test]
fn a_row_for_a_discovered_browser_meets_it_whatever_the_case() {
    let mut table =
        base().with_rows(rows(vec![row(vec![entry("name", text("librewolf")), entry("hidden", TomlValue::Boolean(true))])]));
    let librewolf = Player {
        name: "LibreWolf".to_owned(),
        smtc_app_ids: vec!["83C1C0F3FA8524B1".to_owned()],
        mpris_ids: Vec::new(),
        executables: vec!["librewolf.exe".to_owned()],
        hidden: false,
    };
    assert_eq!(table.extend(vec![librewolf]).unwrap(), 1);
    let found = table.match_app_id("83C1C0F3FA8524B1").unwrap();
    assert_eq!(found.name, "LibreWolf");
    assert!(found.hidden);
    assert_eq!(names(&table).iter().filter(|name| name.eq_ignore_ascii_case("librewolf")).count(), 1);
}

#[test]
fn new_rows_keep_what_discovery_found_and_the_same_rows_change_nothing() {
    let hidden = |name: &str| rows(vec![row(vec![entry("name", text(name)), entry("hidden", TomlValue::Boolean(true))])]);
    let mut table = base().with_rows(hidden("mpv"));
    assert_eq!(table.extend(vec![mozilla_firefox()]).unwrap(), 1);
    assert!(!table.set_rows(hidden("mpv")));
    assert!(table.set_rows(hidden("Firefox")));
    let firefox = table.match_app_id("D52277D1BA334E98").unwrap();
    assert!(firefox.hidden);
    assert!(!named(&table, "mpv").hidden);
}

#[test]
fn a_row_sharing_an_executable_does_not_take_a_discovered_hash() {
    let mut table = base().with_rows(rows(vec![row(vec![
        entry("name", text("Firefox Nightly")),
        entry("executables", list(&["firefox.exe"])),
        entry("smtc_app_ids", list(&["6F193CCC56814779"])),
    ])]));
    assert_eq!(table.extend(vec![mozilla_firefox()]).unwrap(), 1);
    assert_eq!(table.match_app_id("D52277D1BA334E98").map(|p| p.name.as_str()), Some("Firefox"));
}

#[test]
fn a_row_is_read_trimmed_and_lowercased() {
    let read = rows(vec![row(vec![
        entry("name", text("  PotPlayer ")),
        entry("smtc_app_ids", list(&[" PotPlayerMini64.EXE "])),
    ])]);
    assert_eq!(read.len(), 1);
    assert_eq!(read[0].name(), "PotPlayer");
    assert_eq!(read[0].smtc_app_ids().unwrap(), ["potplayermini64.exe"]);
    assert_eq!(read[0].mpris_ids(), None);
    assert!(!read[0].hidden());
}

#[test]
fn every_dropped_row_and_unknown_key_is_said_once() {
    let table = vec![
        entry("colour", text("red")),
        entry(
            "player",
            TomlValue::Array(vec![
                row(vec![entry("name", text("mpv")), entry("volume", TomlValue::Integer(3))]),
                row(vec![entry("name", text("MPV"))]),
                row(vec![entry("smtc_app_ids", list(&["abc"]))]),
                row(vec![entry("name", text("Short")), entry("executables", list(&["ab"]))]),
                row(vec![entry("name", TomlValue::Integer(4))]),
                row(vec![entry("name", text("x")), entry("hidden", text("yes"))]),
                row(vec![entry("name", text("y")), entry("mpris_ids", text("y"))]),
                row(vec![entry("name", text("z")), entry("mpris_ids", TomlValue::Array(vec![TomlValue::Boolean(true)]))]),
                text("not a table"),
                row(vec![entry("name", text("  "))]),
            ]),
        ),
    ];
    let mut problems = Vec::new();
    let read = read_players(&table, &mut problems);
    assert_eq!(read.len(), 1);
    assert_eq!(read[0].name(), "mpv");
    assert_eq!(
        problems,
        [
            "colour isn't something players.toml holds, so it is ignored.",
            "Player \"mpv\": volume isn't something a player holds, so it is ignored.",
            "Player \"MPV\": an earlier row has the same name, so the row is ignored.",
            "Player 3: it has no name, so the row is ignored.",
            "Player \"Short\": executables holds \"ab\", shorter than 3 characters, so the row is ignored.",
            "Player 5: name should be text, not integer, so the row is ignored.",
            "Player \"x\": hidden should be true or false, not string, so the row is ignored.",
            "Player \"y\": mpris_ids should be a list like [\"mpv.exe\"], not string, so the row is ignored.",
            "Player \"z\": mpris_ids should hold text, not boolean, so the row is ignored.",
            "Player 9: it should be a [[player]] table, not string, so the row is ignored.",
            "Player \"  \": its name is empty, so the row is ignored.",
        ]
    );
}

#[test]
fn players_that_are_not_rows_apply_nothing() {
    let mut problems = Vec::new();
    let read = read_players(&[entry("player", text("mpv"))], &mut problems);
    assert!(read.is_empty());
    assert_eq!(problems, ["player should be [[player]] rows, not string, so no row applies."]);
    let mut problems = Vec::new();
    assert!(read_players(&[], &mut problems).is_empty());
    assert!(problems.is_empty());
}

/// What loading a players file holding `text` keeps: its rows and the
/// problems it names, or the one problem that says it is not TOML.
fn loaded(text: &str) -> Loaded<Vec<PlayerRow>> {
    match read_document(text) {
        Ok(table) => {
            let mut problems = Vec::new();
            let rows = read_players(&table, &mut problems);
            Loaded { value: Some(rows), problems }
        }
        Err(problem) => Loaded { value: None, problems: vec![problem] },
    }
}

#[test]
fn read_all_keeps_what_load_keeps() {
    let text = "[[player]]\nname = \"mpv\"\nhidden = true\n\
                [[player]]\nname = \"Odd\"\nexecutables = [\"ab\"]\n";
    assert_eq!(PlayerRow::read_all(text), loaded(text).value.unwrap());
    assert!(PlayerRow::read_all("[[player]\n").is_empty());
}

#[test]
fn an_emptied_list_is_kept_apart_from_one_left_out() {
    let loaded = loaded("[[player]]\nname = \"mpv\"\nexecutables = []\nsmtc_app_ids = [\"MPV.EXE\"]\n");
    let rows = loaded.value.unwrap();
    assert_eq!(rows.len(), 1);
    assert_eq!(rows[0].name(), "mpv");
    assert_eq!(rows[0].smtc_app_ids(), Some(&["mpv.exe".to_owned()][..]));
    assert_eq!(rows[0].mpris_ids(), None);
    assert_eq!(rows[0].executables(), Some(&[][..]));
    assert!(!rows[0].hidden());
}

#[test]
fn a_players_file_that_is_not_toml_says_where() {
    let loaded = loaded("[[player]\n");
    assert_eq!(loaded.value, None);
    assert!(loaded.problems[0].starts_with("It isn't valid TOML (line 1, column "), "{:?}", loaded.problems);
}
