use ryuuji::element::{ElementKind, Elements, Fact, Span};
use ryuuji::engine::{apply, settle_scheme, Verdict};
use ryuuji::reading::{Certainty, Options, Reading, Sense};
use ryuuji::rule::RuleName;
use ryuuji::keyword::KeywordTable;
use ryuuji::numbering::Extent;
use ryuuji::rules::{take_number, take_number_from};
use ryuuji::tape::{Delimiters, Shape, Tape, Token};

fn fact(kind: ElementKind, value: &str) -> Fact {
    Fact {
        kind,
        value: value.to_owned(),
        span: Span { start: 0, end: 0 },
        by: RuleName::Terms,
        certainty: Certainty::Shaped,
    }
}

fn word(text: &str, start: usize) -> Token {
    Token::new(Shape::Word, text.to_owned(), Span { start, end: start + text.len() }, false, None)
}

fn tape() -> Tape {
    Tape::new(vec![
        word("Show", 0),
        Token::new(Shape::Delimiter, " ".to_owned(), Span { start: 4, end: 5 }, false, None),
        word("05v2", 5),
    ])
}

fn reading() -> Reading {
    Reading::new(Elements::default(), &Options::default())
}

fn facts(reading: &Reading) -> Vec<(ElementKind, &str, Span)> {
    reading.elements().facts().iter().map(|fact| (fact.kind, fact.value.as_str(), fact.span)).collect()
}

#[test]
fn take_part_reads_two_values_off_one_token() {
    let mut tape = tape();
    let mut reading = reading();
    let verdict = Verdict::nothing()
        .take_part(ElementKind::EpisodeNumber, 2, 0..2, "05")
        .take_part(ElementKind::ReleaseVersion, 2, 2..4, "2");
    apply(RuleName::Legacy, Certainty::Stated, verdict, &mut tape, &mut reading);
    assert_eq!(
        facts(&reading),
        [
            (ElementKind::EpisodeNumber, "05", Span { start: 5, end: 7 }),
            (ElementKind::ReleaseVersion, "2", Span { start: 7, end: 9 }),
        ]
    );
    assert!(!tape.tokens[2].is_free());
    assert!(tape.tokens[0].is_free());
    assert_eq!(reading.elements().facts()[0].certainty, Certainty::Stated);
}

#[test]
fn take_run_folds_the_run_and_takes_its_free_tokens() {
    let mut tape = tape();
    let mut reading = reading();
    let verdict = Verdict::nothing().take_run(ElementKind::AnimeTitle, 0..3, Delimiters::Folded);
    apply(RuleName::Legacy, Certainty::Shaped, verdict, &mut tape, &mut reading);
    assert_eq!(facts(&reading), [(ElementKind::AnimeTitle, "Show 05v2", Span { start: 0, end: 9 })]);
    assert!(tape.tokens.iter().all(|token| !token.is_free()));
}

#[test]
fn a_held_taking_records_the_value_and_leaves_the_word() {
    let mut tape = tape();
    let mut reading = reading();
    apply(RuleName::Legacy, Certainty::Stated, Verdict::nothing().hold(ElementKind::AnimeType, 0), &mut tape, &mut reading);
    assert_eq!(reading.elements().get(ElementKind::AnimeType), Some("Show"));
    assert!(tape.tokens[0].is_free());
}

#[test]
fn spend_takes_without_a_fact() {
    let mut tape = tape();
    let mut reading = reading();
    apply(RuleName::Legacy, Certainty::Stated, Verdict::nothing().spend(ElementKind::EpisodePrefix, 0), &mut tape, &mut reading);
    assert!(reading.elements().is_empty());
    assert!(!tape.tokens[0].is_free());
}

#[test]
fn a_second_fact_of_a_singular_kind_refuses_the_whole_verdict() {
    let mut tape = tape();
    let mut elements = Elements::default();
    elements.push(fact(ElementKind::ReleaseVersion, "1"));
    let mut reading = Reading::new(elements, &Options::default());
    let verdict = Verdict::nothing()
        .take_part(ElementKind::EpisodeNumber, 2, 0..2, "05")
        .take_part(ElementKind::ReleaseVersion, 2, 2..4, "2");
    apply(RuleName::Legacy, Certainty::Stated, verdict, &mut tape, &mut reading);
    assert_eq!(reading.elements().len(), 1);
    assert!(tape.tokens[2].is_free());
}

#[test]
fn a_provisional_episode_settles_two_schemes_by_size() {
    let mut tape = Tape::new(vec![word("08", 0), word("05", 3), word("05", 6), word("12", 9)]);
    let mut reading = reading();
    let by = RuleName::Legacy;
    apply(by, Certainty::Stated, Verdict::nothing().take(ElementKind::EpisodeNumber, 0).provisional(), &mut tape, &mut reading);
    apply(by, Certainty::Stated, Verdict::nothing().take(ElementKind::EpisodeNumber, 1), &mut tape, &mut reading);
    assert_eq!(reading.elements().get_all(ElementKind::EpisodeNumberAlt), ["08"]);
    assert_eq!(reading.elements().get_all(ElementKind::EpisodeNumber), ["05"]);
    apply(by, Certainty::Stated, Verdict::nothing().take(ElementKind::EpisodeNumber, 2), &mut tape, &mut reading);
    assert_eq!(reading.elements().len(), 2);
    assert!(!tape.tokens[2].is_free());
    apply(by, Certainty::Stated, Verdict::nothing().take(ElementKind::EpisodeNumber, 3), &mut tape, &mut reading);
    assert_eq!(reading.elements().get_all(ElementKind::EpisodeNumberAlt), ["08", "12"]);
}

#[test]
fn a_retraction_records_what_the_text_could_have_been() {
    let mut tape = tape();
    let mut elements = Elements::default();
    elements.push(Fact { span: Span { start: 0, end: 4 }, ..fact(ElementKind::Other, "Show") });
    let mut reading = Reading::new(elements, &Options::default());
    apply(RuleName::Prelude, Certainty::Stated, Verdict::nothing().retract(ElementKind::Other, "Show"), &mut tape, &mut reading);
    assert!(reading.elements().is_empty());
    let alternative = &reading.alternatives()[0];
    assert_eq!(alternative.text, "Show");
    assert_eq!(alternative.taken.kind, None);
    assert_eq!(alternative.passed.kind, Some(ElementKind::Other));
    assert_eq!(alternative.passed.rule, RuleName::Legacy);
}

#[test]
fn instead_names_the_kind_the_rule_took_and_the_one_it_passed() {
    let mut tape = tape();
    let mut reading = reading();
    let passed = Sense { kind: None, rule: RuleName::Legacy };
    apply(
        RuleName::Legacy,
        Certainty::Guessed,
        Verdict::nothing().take(ElementKind::EpisodeNumber, 2).instead(2, passed),
        &mut tape,
        &mut reading,
    );
    let alternative = &reading.alternatives()[0];
    assert_eq!(alternative.taken.kind, Some(ElementKind::EpisodeNumber));
    assert_eq!(alternative.passed, passed);
    assert_eq!(alternative.span, Span { start: 5, end: 9 });
}

#[test]
fn a_verdict_takes_only_what_it_does_not_hold() {
    let verdict = Verdict::nothing().hold(ElementKind::AnimeType, 0).take(ElementKind::EpisodeNumber, 1);
    assert!(verdict.takes(ElementKind::EpisodeNumber));
    assert!(!verdict.takes(ElementKind::AnimeType));
    assert!(Verdict::nothing().is_nothing());
    assert!(!Verdict::nothing().provisional().is_nothing());
}

#[test]
fn settling_an_equal_number_drops_it() {
    let mut elements = Elements::default();
    elements.push(fact(ElementKind::EpisodeNumber, "05"));
    assert_eq!(settle_scheme(&mut elements, "05"), None);
    assert_eq!(settle_scheme(&mut elements, "07"), Some(ElementKind::EpisodeNumberAlt));
    assert_eq!(settle_scheme(&mut elements, "03"), Some(ElementKind::EpisodeNumber));
    assert_eq!(elements.get_all(ElementKind::EpisodeNumberAlt), ["05"]);
    let mut empty = Elements::default();
    assert_eq!(settle_scheme(&mut empty, "03"), Some(ElementKind::EpisodeNumber));
}

#[test]
fn a_kept_run_spells_its_delimiters() {
    let tape = tape();
    assert_eq!(tape.value(0..3, Delimiters::Kept), "Show 05v2");
    assert_eq!(tape.span(0..2), Span { start: 0, end: 5 });
    let underscored = Tape::new(vec![
        word("A", 0),
        Token::new(Shape::Delimiter, "_".to_owned(), Span { start: 1, end: 2 }, false, None),
        word("B", 2),
    ]);
    assert_eq!(underscored.value(0..3, Delimiters::Folded), "A B");
    assert_eq!(underscored.value(0..3, Delimiters::Kept), "A_B");
}

fn no_keywords() -> KeywordTable {
    KeywordTable::from_groups(&[], &[]).unwrap()
}

#[test]
fn take_number_reads_a_word_shape_into_its_pieces() {
    let mut tape = tape();
    let mut reading = reading();
    let verdict = take_number(Verdict::nothing(), 2, "05v2", Extent::Episode, &no_keywords());
    apply(RuleName::EpisodeVersion, Certainty::Shaped, verdict, &mut tape, &mut reading);
    assert_eq!(
        facts(&reading),
        [
            (ElementKind::EpisodeNumber, "05", Span { start: 5, end: 7 }),
            (ElementKind::ReleaseVersion, "2", Span { start: 7, end: 9 }),
        ]
    );
    assert!(!tape.tokens[2].is_free());
}

#[test]
fn take_number_from_takes_a_plain_tail_whole_at_its_own_bytes() {
    let mut tape = Tape::new(vec![word("Show", 0), word("x12", 5)]);
    let mut reading = reading();
    let verdict = take_number_from(Verdict::nothing(), 1, "x12", 1, Extent::Episode, &no_keywords());
    assert!(verdict.takes(ElementKind::EpisodeNumber));
    apply(RuleName::EpisodeInWord, Certainty::Shaped, verdict, &mut tape, &mut reading);
    assert_eq!(facts(&reading), [(ElementKind::EpisodeNumber, "12", Span { start: 6, end: 8 })]);
}

#[test]
fn take_number_from_shifts_a_shape_past_the_skipped_bytes() {
    let mut tape = Tape::new(vec![word("x05v2", 0)]);
    let mut reading = reading();
    let verdict = take_number_from(Verdict::nothing(), 0, "x05v2", 1, Extent::Episode, &no_keywords());
    apply(RuleName::EpisodeVersion, Certainty::Shaped, verdict, &mut tape, &mut reading);
    assert_eq!(
        facts(&reading),
        [
            (ElementKind::EpisodeNumber, "05", Span { start: 1, end: 3 }),
            (ElementKind::ReleaseVersion, "2", Span { start: 3, end: 5 }),
        ]
    );
}

#[test]
fn a_value_of_the_rules_own_may_place_its_fact_past_the_token() {
    let mut tape = tape();
    let mut reading = reading();
    let verdict = Verdict::nothing().take_part(ElementKind::EpisodeNumber, 2, 3..30, "7");
    apply(RuleName::Legacy, Certainty::Stated, verdict, &mut tape, &mut reading);
    assert_eq!(facts(&reading), [(ElementKind::EpisodeNumber, "7", Span { start: 8, end: 35 })]);
}
