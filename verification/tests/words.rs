use ryuuji::element::{ElementKind, Elements, Span};
use ryuuji::keyword::{KeywordGroup, KeywordTable};
use ryuuji::reading::Options;
use ryuuji::words::{has_word, is_resolution, prelude, remove_ignored, strip_extension};

#[test]
fn resolutions_match_dimensions_and_scanlines() {
    for word in ["1280x720", "1920X1080", "640×480", "720p", "1080P", "1080i"] {
        assert!(is_resolution(word), "{word}");
    }
    for word in ["10x10", "720", "720px", "x264", "1080pp"] {
        assert!(!is_resolution(word), "{word}");
    }
}

#[test]
fn a_word_matches_whole_and_case_insensitively() {
    assert!(has_word("Bokura Ga Ita", "ITA"));
    assert!(has_word("The End of Evangelion", "end"));
    assert!(!has_word("Weekend", "END"));
    assert!(!has_word("Specials", "Special"));
}

#[test]
fn removing_an_ignored_string_maps_the_rest_back_to_the_input() {
    let input = "[EnigmaBD 1080p]";
    let mut text = input.to_owned();
    let origin = remove_ignored(&mut text, &["Enigma".to_owned()]).unwrap();
    assert_eq!(text, "[BD 1080p]");
    assert_eq!(&input[origin[1]..origin[3]], "BD");
    assert_eq!(&input[origin[4]..origin[9]], "1080p");
    assert_eq!(origin[text.len()], input.len());
    assert_eq!(remove_ignored(&mut text, &["Enigma".to_owned()]), None);
}

#[test]
fn every_occurrence_goes_and_a_multibyte_cut_keeps_the_byte_map() {
    let input = "a\u{f6}b\u{f6}c";
    let mut text = input.to_owned();
    let origin = remove_ignored(&mut text, &["".to_owned(), "\u{f6}".to_owned()]).unwrap();
    assert_eq!(text, "abc");
    assert_eq!(origin, vec![0, 3, 6, 7]);
    let mut joined = "EnEnigmaigma".to_owned();
    remove_ignored(&mut joined, &["Enigma".to_owned()]);
    assert_eq!(joined, "Enigma");
}

fn extensions() -> KeywordTable {
    let group = KeywordGroup {
        kind: "file_extension".to_owned(),
        flags: "default".to_owned(),
        values: vec!["MKV".to_owned(), "MP4".to_owned()],
    };
    KeywordTable::from_groups(&[group], &[]).unwrap()
}

/// The name left once a known extension is cut off, and the elements the
/// cut recorded.
fn strip(input: &str, options: &Options) -> (String, Elements) {
    let mut text = input.to_owned();
    let mut elements = Elements::default();
    strip_extension(&mut text, options, &extensions(), &mut elements);
    (text, elements)
}

#[test]
fn known_extension_is_stripped_with_original_case() {
    let read = prelude("Toradora!.MKV", &Options::default(), &extensions());
    assert_eq!(read.elements.get(ElementKind::FileExtension), Some("MKV"));
    assert_eq!(read.elements.get(ElementKind::FileName), Some("Toradora!"));
    assert_eq!(read.elements.facts()[0].span, Span { start: 10, end: 13 });
}

#[test]
fn extension_stays_when_parsing_is_disabled() {
    let options = Options { parse_file_extension: false, ..Options::default() };
    let read = prelude("Toradora!.mkv", &options, &extensions());
    assert_eq!(read.elements.get(ElementKind::FileExtension), None);
    assert_eq!(read.elements.get(ElementKind::FileName), Some("Toradora!.mkv"));
}

#[test]
fn unknown_extension_stays() {
    let read = prelude("Toradora!.xyz", &Options::default(), &extensions());
    assert_eq!(read.elements.get(ElementKind::FileExtension), None);
    assert_eq!(read.elements.get(ElementKind::FileName), Some("Toradora!.xyz"));
}

#[test]
fn ignored_strings_are_removed_before_tokenization() {
    let options = Options { ignored_strings: vec!["Enigma".to_owned()], ..Options::default() };
    let read = prelude("[EnigmaBD 1080p].mkv", &options, &extensions());
    assert_eq!(read.elements.get(ElementKind::FileName), Some("[BD 1080p]"));
    assert_eq!(read.elements.get(ElementKind::FileExtension), Some("mkv"));
    assert_eq!(read.text, "[BD 1080p]");
    let origin = read.origin.unwrap();
    assert_eq!(origin[1], 7);
    assert_eq!(read.elements.facts()[1].span, Span { start: 0, end: 16 });
}

#[test]
fn an_extension_is_cut_only_after_the_last_dot_and_when_short_and_plain() {
    assert_eq!(strip("Show.S01.mkv", &Options::default()).0, "Show.S01");
    assert_eq!(strip("Show.mkv.part", &Options::default()).0, "Show.mkv.part");
    assert_eq!(strip("Show.mk-v", &Options::default()).0, "Show.mk-v");
    assert_eq!(strip("Show", &Options::default()).0, "Show");
    assert_eq!(strip("Sh\u{f6}w.mp4", &Options::default()).1.facts()[0].span, Span { start: 6, end: 9 });
}
