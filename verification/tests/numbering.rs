use std::ops::Range;

use ryuuji::element::ElementKind;
use ryuuji::keyword::{KeywordGroup, KeywordTable, PreidentifiedEntry, TableError};
use ryuuji::numbering::scanner::{version, Scanner};
use ryuuji::numbering::{read, read_with, Extent, NumberShape};

fn table() -> KeywordTable {
    let groups = vec![
        KeywordGroup {
            kind: "anime_type".to_owned(),
            flags: "unidentifiable".to_owned(),
            values: vec!["OVA".to_owned(), "ONA".to_owned()],
        },
        KeywordGroup {
            kind: "anime_type".to_owned(),
            flags: "default".to_owned(),
            values: vec!["OAD".to_owned()],
        },
    ];
    KeywordTable::from_groups(&groups, &[]).unwrap()
}

fn pieces(word: &str, extent: Extent) -> Vec<(ElementKind, String, Range<usize>, bool)> {
    read(word, extent, &table())
        .map(|numbering| {
            numbering
                .pieces
                .into_iter()
                .map(|piece| (piece.kind, piece.part.text, piece.part.at, piece.held))
                .collect()
        })
        .unwrap_or_default()
}

#[test]
fn a_version_suffix_reads_the_number_and_the_version() {
    assert_eq!(
        pieces("05v2", Extent::Episode),
        [
            (ElementKind::EpisodeNumber, "05".to_owned(), 0..2, false),
            (ElementKind::ReleaseVersion, "2".to_owned(), 2..4, false),
        ]
    );
    assert_eq!(
        pieces("3v1", Extent::Volume),
        [
            (ElementKind::VolumeNumber, "3".to_owned(), 0..1, false),
            (ElementKind::ReleaseVersion, "1".to_owned(), 1..3, false),
        ]
    );
}

#[test]
fn a_range_reads_both_ends_and_their_versions() {
    assert_eq!(
        pieces("01v2-02v3", Extent::Episode),
        [
            (ElementKind::EpisodeNumber, "01".to_owned(), 0..2, false),
            (ElementKind::EpisodeNumber, "02".to_owned(), 5..7, false),
            (ElementKind::ReleaseVersion, "2".to_owned(), 2..4, false),
            (ElementKind::ReleaseVersion, "3".to_owned(), 7..9, false),
        ]
    );
    assert!(pieces("02-01", Extent::Episode).is_empty());
    assert!(pieces("1900-1901", Extent::Episode).is_empty());
    assert!(pieces("1v2-2", Extent::Volume).is_empty());
}

#[test]
fn a_season_and_episode_word_reads_every_number() {
    assert_eq!(
        pieces("S01-02E03-04v2", Extent::Episode),
        [
            (ElementKind::AnimeSeason, "01".to_owned(), 1..3, false),
            (ElementKind::AnimeSeason, "02".to_owned(), 4..6, false),
            (ElementKind::EpisodeNumber, "03".to_owned(), 7..9, false),
            (ElementKind::EpisodeNumber, "04".to_owned(), 10..12, false),
            (ElementKind::ReleaseVersion, "2".to_owned(), 12..14, false),
        ]
    );
    assert_eq!(
        pieces("2x05", Extent::Episode),
        [
            (ElementKind::AnimeSeason, "2".to_owned(), 0..1, false),
            (ElementKind::EpisodeNumber, "05".to_owned(), 2..4, false),
        ]
    );
    assert!(pieces("S00E01", Extent::Episode).is_empty());
}

#[test]
fn a_type_glued_to_its_number_holds_the_type() {
    let numbering = read("OVA1", Extent::Episode, &table()).unwrap();
    assert_eq!(
        pieces("OVA1", Extent::Episode),
        [
            (ElementKind::AnimeType, "OVA".to_owned(), 0..3, true),
            (ElementKind::EpisodeNumber, "1".to_owned(), 3..4, false),
        ]
    );
    assert_eq!(numbering.used, 3..4);
    assert_eq!(
        pieces("OVA01v2", Extent::Episode),
        [
            (ElementKind::AnimeType, "OVA".to_owned(), 0..3, true),
            (ElementKind::EpisodeNumber, "01".to_owned(), 3..5, false),
            (ElementKind::ReleaseVersion, "2".to_owned(), 5..7, false),
        ]
    );
}

#[test]
fn an_identifiable_type_is_taken_with_its_number() {
    assert_eq!(
        pieces("oad2", Extent::Episode),
        [
            (ElementKind::AnimeType, "oad".to_owned(), 0..3, false),
            (ElementKind::EpisodeNumber, "2".to_owned(), 3..4, false),
        ]
    );
    assert!(pieces("XYZ2", Extent::Episode).is_empty());
}

#[test]
fn fractions_and_partials_read_the_whole_word() {
    assert_eq!(pieces("07.5", Extent::Episode), [(ElementKind::EpisodeNumber, "07.5".to_owned(), 0..4, false)]);
    assert_eq!(pieces("04.1", Extent::Episode), [(ElementKind::EpisodeNumber, "04.1".to_owned(), 0..4, false)]);
    assert!(pieces("1.11", Extent::Episode).is_empty());
    assert!(pieces("8.0", Extent::Episode).is_empty());
    assert_eq!(pieces("4a", Extent::Episode), [(ElementKind::EpisodeNumber, "4a".to_owned(), 0..2, false)]);
    assert!(pieces("4d", Extent::Episode).is_empty());
}

#[test]
fn a_number_sign_and_a_counter_read_their_digits() {
    assert_eq!(
        pieces("#01-02v2", Extent::Episode),
        [
            (ElementKind::EpisodeNumber, "01".to_owned(), 1..3, false),
            (ElementKind::EpisodeNumber, "02".to_owned(), 4..6, false),
            (ElementKind::ReleaseVersion, "2".to_owned(), 6..8, false),
        ]
    );
    assert_eq!(pieces("12話", Extent::Episode), [(ElementKind::EpisodeNumber, "12".to_owned(), 0..2, false)]);
}

#[test]
fn only_shapes_that_give_up_on_their_first_episode_decide() {
    let table = table();
    let decides = |word: &str| read(word, Extent::Episode, &table).map(|numbering| numbering.decides);
    for word in ["01-02", "#03", "07.5", "4a", "OVA1", "OVA01-02"] {
        assert_eq!(decides(word), Some(true), "{word}");
    }
    for word in ["05v2", "S01E02", "12\u{8a71}", "OVA01v2"] {
        assert_eq!(decides(word), Some(false), "{word}");
    }
}

#[test]
fn a_trimmed_word_keeps_offsets_into_the_original() {
    let table = table();
    let numbering = read("-05v2-", Extent::Episode, &table).unwrap();
    assert_eq!(numbering.used, 0..6);
    assert_eq!(numbering.pieces[0].part.at, 1..3);
    assert!(read("05", Extent::Episode, &table).is_none());
    assert!(read("--", Extent::Episode, &table).is_none());
}

#[test]
fn one_shape_reads_only_its_own_words() {
    let table = table();
    assert!(read_with("07.5", NumberShape::Fraction, &table).is_some());
    assert!(read_with("05v2", NumberShape::Fraction, &table).is_none());
    let numbering = read_with(" 3v1", NumberShape::VersionSuffix(Extent::Volume), &table).unwrap();
    assert_eq!(numbering.used, 0..4);
    assert_eq!(numbering.pieces[0].part.at, 1..2);
}

#[test]
fn digits_carry_byte_offsets_past_multibyte_chars() {
    let mut scanner = Scanner::new("第12話");
    assert!(scanner.eat('第'));
    let digits = scanner.digits(4).unwrap();
    assert_eq!(digits.text, "12");
    assert_eq!(digits.at, 3..5);
    assert!(scanner.eat('話'));
    assert!(scanner.done());
}

#[test]
fn a_version_spans_its_letter() {
    let mut scanner = Scanner::new("v2");
    let part = version(&mut scanner).unwrap();
    assert_eq!(part.text, "2");
    assert_eq!(part.at, 0..2);
    let mut scanner = Scanner::new("vx");
    assert!(version(&mut scanner).is_none());
    assert_eq!(scanner.offset(), 0);
}

fn group(kind: &str, flags: &str, values: &[&str]) -> KeywordGroup {
    KeywordGroup {
        kind: kind.to_owned(),
        flags: flags.to_owned(),
        values: values.iter().map(|v| v.to_string()).collect(),
    }
}

#[test]
fn duplicated_text_keeps_both_kinds_in_table_order() {
    let table = KeywordTable::from_groups(
        &[group("file_extension", "default", &["TS", "MKV"]), group("other", "invalid", &["TS"]), group("audio_term", "default", &["FLAC"])],
        &[PreidentifiedEntry { text: "Mahou Shoujo".to_owned(), kind: "anime_title".to_owned() }],
    )
    .unwrap();
    assert_eq!(table.find_any("TS").map(|keyword| keyword.kind), Some(ElementKind::FileExtension));
    assert_eq!(table.find(ElementKind::Other, "TS").map(|keyword| keyword.kind), Some(ElementKind::Other));
    assert_eq!(table.find(ElementKind::Other, "TS").map(|keyword| keyword.valid), Some(false));
    assert_eq!(table.find_any("FLAC").map(|keyword| keyword.kind), Some(ElementKind::AudioTerm));
    assert_eq!(table.find_any("flac"), None);
    assert_eq!(table.preidentified().len(), 1);
}

#[test]
fn unknown_kind_is_rejected() {
    let error = KeywordTable::from_groups(&[group("nope", "default", &["X"])], &[]).unwrap_err();
    assert!(matches!(error, TableError::UnknownKind { kind } if kind == "nope"));
}

#[test]
fn unknown_flags_are_rejected() {
    let error = KeywordTable::from_groups(&[group("source", "bogus", &["X"])], &[]).unwrap_err();
    assert!(matches!(error, TableError::UnknownFlags { flags } if flags == "bogus"));
}

#[test]
fn empty_value_is_rejected() {
    let error = KeywordTable::from_groups(&[group("source", "default", &[""])], &[]).unwrap_err();
    assert!(matches!(error, TableError::EmptyValue { kind } if kind == "source"));
}

#[test]
fn lowercase_value_is_rejected() {
    let error = KeywordTable::from_groups(&[group("source", "default", &["Bd"])], &[]).unwrap_err();
    assert!(matches!(error, TableError::NotUppercase { value } if value == "Bd"));
}

#[test]
fn duplicate_value_under_one_kind_is_rejected() {
    let error = KeywordTable::from_groups(&[group("source", "default", &["BD", "BD"])], &[]).unwrap_err();
    assert!(matches!(error, TableError::Duplicate { kind, value } if kind == "source" && value == "BD"));
}

#[test]
fn a_preidentified_entry_needs_a_known_kind_and_text() {
    let error = KeywordTable::from_groups(&[], &[PreidentifiedEntry { text: String::new(), kind: "anime_title".to_owned() }]).unwrap_err();
    assert!(matches!(error, TableError::EmptyValue { kind } if kind == "anime_title"));
    let error = KeywordTable::from_groups(&[], &[PreidentifiedEntry { text: "X".to_owned(), kind: "nope".to_owned() }]).unwrap_err();
    assert!(matches!(error, TableError::UnknownKind { kind } if kind == "nope"));
}
