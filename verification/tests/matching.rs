use ryuuji::library::{EntryId, LibraryEntry, WatchStatus};
use ryuuji::matching::{levenshtein, normalize_title, resolve, Confidence, Link, ProposedMatch, Resolution};

fn library(titles: &[&str]) -> Vec<LibraryEntry> {
    titles
        .iter()
        .enumerate()
        .map(|(index, title)| LibraryEntry {
            id: EntryId(index as i64 + 1),
            title: (*title).to_owned(),
            status: WatchStatus::Watching,
            progress: 0,
            total: None,
            rewatching: false,
        })
        .collect()
}

fn chars(text: &str) -> Vec<char> {
    text.chars().collect()
}

#[test]
fn punctuation_variants_normalize_alike() {
    assert_eq!(normalize_title("Frieren - Beyond Journey's End"), normalize_title("Frieren: Beyond Journey's End"));
    assert_eq!(normalize_title("Fate/stay night"), "fate stay night");
}

#[test]
fn leading_the_is_dropped() {
    assert_eq!(normalize_title("The Apothecary Diaries"), "apothecary diaries");
}

#[test]
fn roman_numerals_become_digits() {
    assert_eq!(normalize_title("Mob Psycho 100 II"), "mob psycho 100 2");
}

#[test]
fn season_phrasings_collapse_to_the_number() {
    assert_eq!(normalize_title("2nd Season"), "2");
    assert_eq!(normalize_title("Season 2"), "2");
    assert_eq!(normalize_title("S2"), "2");
}

#[test]
fn ampersand_is_spelled_out() {
    assert_eq!(normalize_title("Hana & Alice"), "hana and alice");
}

#[test]
fn more_season_phrasings_and_leading_zeros() {
    assert_eq!(normalize_title("Show S 02"), "show 2");
    assert_eq!(normalize_title("Show s03"), "show 3");
    assert_eq!(normalize_title("Show Third Season"), "show 3");
    assert_eq!(normalize_title("Show Season"), "show season");
    assert_eq!(normalize_title("Show s123"), "show s123");
    assert_eq!(normalize_title(""), "");
    assert_eq!(normalize_title("  --  "), "");
}

#[test]
fn levenshtein_counts_single_char_edits() {
    assert_eq!(levenshtein(&chars("kitten"), &chars("sitting")), 3);
    assert_eq!(levenshtein(&chars("kitten"), &chars("kitten")), 0);
    assert_eq!(levenshtein(&chars(""), &chars("abc")), 3);
    assert_eq!(levenshtein(&chars("abc"), &chars("")), 3);
}

#[test]
fn resolve_finds_an_exact_match_through_normalization() {
    let library = library(&["Frieren: Beyond Journey's End"]);
    assert_eq!(resolve("Frieren - Beyond Journey's End", &library), Resolution::Exact(library[0].id));
}

#[test]
fn resolve_finds_a_likely_match_above_the_threshold() {
    let library = library(&["Frieren Beyond Journeys End"]);
    let Resolution::Likely { entry, distance, longest } = resolve("Frieren Beyond Journey End", &library) else {
        panic!("expected a likely match");
    };
    assert_eq!(entry, library[0].id);
    assert_eq!(distance, 1);
    assert_eq!(longest, 27);
    assert!(1.0 - distance as f64 / longest as f64 >= 0.85);
}

#[test]
fn resolve_prefers_the_first_entry_on_a_tie() {
    let library = library(&["abcdefgx", "abcdefgy"]);
    assert!(matches!(
        resolve("abcdefgz", &library),
        Resolution::Likely { entry, .. } if entry == library[0].id
    ));
}

#[test]
fn resolve_without_a_close_entry_is_unmatched() {
    let library = library(&["Frieren"]);
    assert_eq!(resolve("Mushoku Tensei", &library), Resolution::Unmatched);
    assert_eq!(resolve("", &library), Resolution::Unmatched);
}

#[test]
fn resolve_never_calls_a_short_needle_likely() {
    let library = library(&["abcz"]);
    assert_eq!(resolve("abcd", &library), Resolution::Unmatched);
}

#[test]
fn a_resolution_becomes_its_link() {
    let id = EntryId(4);
    assert_eq!(Link::from(Resolution::Exact(id)), Link::Exact(id));
    assert_eq!(Link::from(Resolution::Likely { entry: id, distance: 1, longest: 9 }), Link::Likely(id));
    assert_eq!(Link::from(Resolution::Unmatched), Link::Unmatched);
}

#[test]
fn link_from_columns_rejects_a_disagreeing_pair() {
    let id = EntryId(1);
    assert_eq!(Link::from_columns(Some(id), Confidence::Exact), Some(Link::Exact(id)));
    assert_eq!(Link::from_columns(Some(id), Confidence::Likely), Some(Link::Likely(id)));
    assert_eq!(Link::from_columns(None, Confidence::Unmatched), Some(Link::Unmatched));
    assert_eq!(Link::from_columns(None, Confidence::Exact), None);
    assert_eq!(Link::from_columns(None, Confidence::Likely), None);
    assert_eq!(Link::from_columns(Some(id), Confidence::Unmatched), None);
}

#[test]
fn confidence_tags_and_labels_round_trip() {
    for confidence in Confidence::ALL {
        assert_eq!(Confidence::from_tag(confidence.tag()), Some(confidence));
    }
    assert_eq!(Confidence::from_tag("sure"), None);
    assert_eq!(Confidence::Exact.label(), "Exact match");
    assert_eq!(Link::Likely(EntryId(2)).confidence(), Confidence::Likely);
    assert!(Link::Exact(EntryId(2)).names_entry());
    assert!(!Link::Unmatched.names_entry());
}

#[test]
fn title_in_prefers_the_entry_then_parsed_then_raw() {
    let library = library(&["Frieren: Beyond Journey's End"]);
    let proposal = ProposedMatch {
        raw_title: "[Subs] Show - 03.mkv".to_owned(),
        parsed_title: "Show".to_owned(),
        episode: None,
        season: None,
        release_group: Some("Subs".to_owned()),
        link: Link::Unmatched,
        player: "mpv".to_owned(),
        at: 0,
    };
    assert_eq!(proposal.shown_title(), "Show");
    assert_eq!(proposal.title_in(&library), "Show");
    let matched = ProposedMatch { link: Link::Exact(library[0].id), ..proposal.clone() };
    assert_eq!(matched.title_in(&library), "Frieren: Beyond Journey's End");
    let raw = ProposedMatch { parsed_title: String::new(), ..proposal };
    assert_eq!(raw.shown_title(), "[Subs] Show - 03.mkv");
    assert_eq!(raw.title_in(&library), "[Subs] Show - 03.mkv");
}

#[test]
fn the_loose_form_is_lowercase_words_whatever_the_case() {
    for title in ["Mob Psycho 100 II", "  Fate/stay night -- [UBW] ", "The Apothecary Diaries Season 2", "", "Café & Co."] {
        let normal = normalize_title(title);
        assert!(
            normal.is_empty()
                || normal.split(' ').all(|t| !t.is_empty() && t.bytes().all(|b| b.is_ascii_lowercase() || b.is_ascii_digit())),
            "{normal:?}"
        );
        assert_eq!(normalize_title(&title.to_ascii_uppercase()), normal);
    }
}
