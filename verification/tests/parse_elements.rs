use ryuuji::element::{ElementKind, Elements, Fact, Span};
use ryuuji::reading::{Alternative, Certainty, Options, Reading, Sense};
use ryuuji::library::EpisodeRange;
use ryuuji::rule::RuleName;

fn fact(kind: ElementKind, value: &str) -> Fact {
    Fact {
        kind,
        value: value.to_owned(),
        span: Span { start: 0, end: 0 },
        by: RuleName::Terms,
        certainty: Certainty::Shaped,
    }
}

fn elements(items: &[(ElementKind, &str)]) -> Elements {
    let mut elements = Elements::default();
    for (kind, value) in items {
        elements.push(fact(*kind, value));
    }
    elements
}

fn reading(items: &[(ElementKind, &str)]) -> Reading {
    Reading::new(elements(items), &Options::default())
}

#[test]
fn labels_round_trip_for_every_kind() {
    for kind in ElementKind::ALL {
        assert_eq!(ElementKind::from_label(kind.label()), Some(kind));
    }
    assert_eq!(ElementKind::from_label("no_such_kind"), None);
}

#[test]
fn push_appends_for_every_kind() {
    let elements = elements(&[
        (ElementKind::AudioTerm, "FLAC"),
        (ElementKind::AudioTerm, "Dual Audio"),
        (ElementKind::VideoResolution, "720p"),
        (ElementKind::VideoResolution, "1080p"),
    ]);
    assert_eq!(elements.get_all(ElementKind::AudioTerm), ["FLAC", "Dual Audio"]);
    assert_eq!(elements.get(ElementKind::AudioTerm), Some("FLAC"));
    assert_eq!(elements.get_all(ElementKind::VideoResolution), ["720p", "1080p"]);
    assert_eq!(elements.get(ElementKind::VideoResolution), Some("720p"));
    assert_eq!(elements.len(), 4);
}

#[test]
fn retract_drops_the_first_matching_fact_only() {
    let mut elements = elements(&[(ElementKind::Other, "Ita"), (ElementKind::Other, "Ita")]);
    elements.retract(ElementKind::Other, "Ita");
    assert_eq!(elements.get_all(ElementKind::Other), ["Ita"]);
    elements.retract(ElementKind::Other, "END");
    assert_eq!(elements.len(), 1);
}

#[test]
fn empty_values_are_ignored() {
    let elements = elements(&[(ElementKind::AnimeTitle, "")]);
    assert!(elements.is_empty());
}

#[test]
fn a_span_slices_the_input_it_was_read_from() {
    let input = "[Group] Show - 05";
    assert_eq!(Span { start: 8, end: 12 }.slice(input), "Show");
    assert_eq!(Span { start: 3, end: 3 }.slice(input), "");
}

#[test]
fn retagging_changes_only_the_first_fact_of_a_kind() {
    let mut elements = elements(&[(ElementKind::EpisodeNumber, "08"), (ElementKind::EpisodeNumber, "09")]);
    elements.retag_first(ElementKind::EpisodeNumber, ElementKind::EpisodeNumberAlt);
    assert_eq!(elements.get_all(ElementKind::EpisodeNumberAlt), ["08"]);
    assert_eq!(elements.get_all(ElementKind::EpisodeNumber), ["09"]);
    assert_eq!(elements.iter(), [(ElementKind::EpisodeNumberAlt, "08"), (ElementKind::EpisodeNumber, "09")]);
    assert!(elements.contains(ElementKind::EpisodeNumberAlt));
    assert!(!elements.contains(ElementKind::AnimeTitle));
    assert_eq!(elements.fact(ElementKind::EpisodeNumber).map(|f| f.value.as_str()), Some("09"));
}

#[test]
fn singular_kinds_are_the_ones_read_once() {
    assert!(ElementKind::ReleaseVersion.is_singular());
    assert!(!ElementKind::AudioTerm.is_singular());
}

#[test]
fn labels_round_trip_for_every_rule() {
    for name in RuleName::ALL {
        assert_eq!(RuleName::from_label(name.label()), Some(name));
    }
    assert_eq!(RuleName::from_label("no_such_rule"), None);
}

#[test]
fn certainty_orders_weakest_first() {
    assert!(Certainty::Guessed < Certainty::Shaped);
    assert!(Certainty::Shaped < Certainty::Stated);
    assert_eq!(Certainty::ALL.iter().min(), Some(&Certainty::Guessed));
}

#[test]
fn labels_round_trip_for_every_certainty() {
    for certainty in Certainty::ALL {
        assert_eq!(Certainty::from_label(certainty.label()), Some(certainty));
    }
    assert_eq!(Certainty::from_label("sure"), None);
}

#[test]
fn the_weaker_certainty_is_the_lower_one() {
    assert_eq!(Certainty::Stated.weaker(Certainty::Guessed), Certainty::Guessed);
    assert_eq!(Certainty::Shaped.weaker(Certainty::Stated), Certainty::Shaped);
}

#[test]
fn episodes_of_a_single_value_is_one_wide() {
    let reading = reading(&[(ElementKind::EpisodeNumber, "03")]);
    assert_eq!(reading.episodes().map(|e| e.value), Some(EpisodeRange { start: 3, end: 3 }));
}

#[test]
fn episodes_span_a_batch_whatever_the_claim_order() {
    let reading = reading(&[(ElementKind::EpisodeNumber, "12"), (ElementKind::EpisodeNumber, "01")]);
    assert_eq!(reading.episodes().map(|e| e.value), Some(EpisodeRange { start: 1, end: 12 }));
}

#[test]
fn episodes_is_none_without_an_episode_number() {
    assert_eq!(Reading::default().episodes(), None);
    let reading = reading(&[(ElementKind::EpisodeNumberAlt, "08")]);
    assert_eq!(reading.episodes(), None);
}

#[test]
fn episodes_skips_values_without_a_leading_number() {
    let reading = reading(&[(ElementKind::EpisodeNumber, "abc"), (ElementKind::EpisodeNumber, "4a")]);
    assert_eq!(reading.episodes().map(|e| e.value), Some(EpisodeRange { start: 4, end: 4 }));
    let only_garbage = self::reading(&[(ElementKind::EpisodeNumber, "v2")]);
    assert_eq!(only_garbage.episodes(), None);
}

#[test]
fn episodes_ignores_the_alternate_number() {
    let reading = reading(&[(ElementKind::EpisodeNumber, "05v2"), (ElementKind::EpisodeNumberAlt, "08")]);
    assert_eq!(reading.episodes().map(|e| e.value), Some(EpisodeRange { start: 5, end: 5 }));
}

#[test]
fn season_reads_the_first_anime_season() {
    let reading = reading(&[(ElementKind::AnimeSeason, "2"), (ElementKind::AnimeSeason, "3")]);
    assert_eq!(reading.season().map(|s| s.value), Some(2));
}

#[test]
fn certainty_is_the_weakest_reader() {
    let mut elements = Elements::default();
    elements.push(fact(ElementKind::AnimeTitle, "Show"));
    elements.push(Fact { certainty: Certainty::Guessed, ..fact(ElementKind::EpisodeNumber, "5") });
    let reading = Reading::new(elements, &Options::default());
    assert_eq!(reading.title().map(|t| t.certainty), Some(Certainty::Shaped));
    assert_eq!(reading.certainty(), Some(Certainty::Guessed));
    assert_eq!(Reading::default().certainty(), None);
}

#[test]
fn the_release_group_and_title_are_read_with_their_rule() {
    let reading = reading(&[(ElementKind::ReleaseGroup, "Group"), (ElementKind::AnimeTitle, "Show")]);
    let group = reading.release_group().unwrap();
    assert_eq!(group.value, "Group");
    assert_eq!(group.by, RuleName::Terms);
    assert_eq!(reading.title().map(|t| t.value), Some("Show"));
}

#[test]
fn an_alternative_describes_both_senses() {
    let alternative = Alternative {
        span: Span { start: 9, end: 10 },
        text: "5".to_owned(),
        taken: Sense { kind: Some(ElementKind::EpisodeNumber), rule: RuleName::Terms },
        passed: Sense { kind: None, rule: RuleName::Terms },
    };
    assert_eq!(alternative.passed_description(), "a word of the title");
}

#[test]
fn a_passed_kind_is_described_by_its_label() {
    let alternative = Alternative {
        span: Span { start: 0, end: 2 },
        text: "05".to_owned(),
        taken: Sense { kind: None, rule: RuleName::Terms },
        passed: Sense { kind: Some(ElementKind::EpisodeTitle), rule: RuleName::Terms },
    };
    assert_eq!(alternative.passed_description(), "the episode title");
    let episode = Alternative { passed: Sense { kind: Some(ElementKind::EpisodeNumber), rule: RuleName::Terms }, ..alternative };
    assert_eq!(episode.passed_description(), "episode 05");
}
