//! What a number-shaped word spells: `05v2`, `01-02`, `S01E06`, `OVA1`,
//! `07.5`, `4a`, `#12`, `12話`. These read text and answer; the rules
//! decide.

pub mod scanner;

use std::ops::Range;

use vstd::prelude::*;
use vstd::utf8::encode_utf8;

use crate::element::ElementKind;
use crate::keyword::{KeywordTable, first_match, to_uppercase, uppercase};
use crate::text::{
    byte_offset, char_width, chars_of, digit, is_ascii_digit, lemma_encode_concat, lemma_offset_monotone,
    lemma_offset_step, leading_number, spec_leading_number, string_of_range,
};
use scanner::{
    Part, PartView, Scanner, after, bounded, eat_episode_separator, found, part_view, read_any, read_char,
    read_digits, read_episode_separator, read_version, skip_any, version,
};

verus! {

pub const ANIME_YEAR_MIN: u32 = 1900;
pub const ANIME_YEAR_MAX: u32 = 2050;
pub const EPISODE_NUMBER_MAX: u32 = ANIME_YEAR_MIN - 1;
pub const VOLUME_NUMBER_MAX: u32 = 20;

/// A number counted off against a prefix. Episodes and volumes differ only
/// in their bounds and in which shapes they may take.
#[derive(Clone, Copy, Debug, PartialEq, Eq, Structural)]
pub enum Extent {
    Episode,
    Volume,
}

impl Extent {
    pub open spec fn spec_number(self) -> ElementKind {
        match self {
            Extent::Episode => ElementKind::EpisodeNumber,
            Extent::Volume => ElementKind::VolumeNumber,
        }
    }

    pub open spec fn spec_max_digits(self) -> usize {
        match self {
            Extent::Episode => 4,
            Extent::Volume => 2,
        }
    }

    pub open spec fn spec_max_value(self) -> u32 {
        match self {
            Extent::Episode => EPISODE_NUMBER_MAX,
            Extent::Volume => VOLUME_NUMBER_MAX,
        }
    }

    pub fn number(self) -> (kind: ElementKind)
        ensures
            kind == self.spec_number(),
    {
        match self {
            Extent::Episode => ElementKind::EpisodeNumber,
            Extent::Volume => ElementKind::VolumeNumber,
        }
    }

    fn max_digits(self) -> (max: usize)
        ensures
            max == self.spec_max_digits(),
    {
        match self {
            Extent::Episode => 4,
            Extent::Volume => 2,
        }
    }

    pub fn max_value(self) -> (max: u32)
        ensures
            max == self.spec_max_value(),
    {
        match self {
            Extent::Episode => EPISODE_NUMBER_MAX,
            Extent::Volume => VOLUME_NUMBER_MAX,
        }
    }
}

/// A number as the bound checks compare it: a digit run that overflows
/// `u32`, or no digit run at all, compares above every bound.
pub open spec fn leading_value_of(text: Seq<char>) -> u32 {
    match spec_leading_number(text) {
        Some(n) => n,
        None => u32::MAX,
    }
}

pub fn leading_value(text: &str) -> (value: u32)
    ensures
        value == leading_value_of(text@),
{
    match leading_number(chars_of(text).as_slice()) {
        Some(n) => n,
        None => u32::MAX,
    }
}

/// One value a word spells. A held piece leaves its chars to a title, the
/// way an unidentifiable term does.
#[derive(Debug, PartialEq, Eq)]
pub struct Piece {
    pub kind: ElementKind,
    pub part: Part,
    pub held: bool,
}

#[verifier::ext_equal]
pub ghost struct PieceView {
    pub kind: ElementKind,
    pub part: PartView,
    pub held: bool,
}

impl View for Piece {
    type V = PieceView;

    open spec fn view(&self) -> PieceView {
        PieceView { kind: self.kind, part: self.part@, held: self.held }
    }
}

/// What one word spells, in reading order, and the byte range of the word
/// the numbers use up. `OVA1` uses up only the `1`; every other shape uses
/// up the whole word, so no stray `S`, `v` or `#` is left for a title.
#[derive(Debug, PartialEq, Eq)]
pub struct Numbering {
    pub pieces: Vec<Piece>,
    pub used: Range<usize>,
    /// The first episode decides for the whole word: when it only repeats
    /// an episode already read, the word records nothing. A range, a number
    /// sign, a fraction and a part letter decide; a version suffix, a season
    /// with its episode and a counter record the rest regardless.
    pub decides: bool,
}

#[verifier::ext_equal]
pub ghost struct NumberingView {
    pub pieces: Seq<PieceView>,
    pub used_start: int,
    pub used_end: int,
    pub decides: bool,
}

pub open spec fn pieces_view(pieces: Seq<Piece>) -> Seq<PieceView> {
    pieces.map_values(|p: Piece| p@)
}

impl View for Numbering {
    type V = NumberingView;

    open spec fn view(&self) -> NumberingView {
        NumberingView {
            pieces: pieces_view(self.pieces@),
            used_start: self.used.start as int,
            used_end: self.used.end as int,
            decides: self.decides,
        }
    }
}

pub open spec fn numbering_view(numbering: Option<Numbering>) -> Option<NumberingView> {
    match numbering {
        Some(n) => Some(n@),
        None => None,
    }
}

/// Every range of a numbering lies within `0..total`.
pub open spec fn within(numbering: Option<NumberingView>, total: int) -> bool {
    match numbering {
        Some(n) => {
            &&& 0 <= n.used_start <= n.used_end <= total
            &&& forall|i: int| 0 <= i < n.pieces.len() ==> 0 <= (#[trigger] n.pieces[i]).part.start <= n.pieces[i].part.end <= total
        },
        None => true,
    }
}

pub open spec fn total(chars: Seq<char>) -> int {
    byte_offset(chars, chars.len() as int)
}

pub open spec fn piece(kind: ElementKind, part: PartView) -> PieceView {
    PieceView { kind, part, held: false }
}

/// A piece for a part that may be missing.
pub open spec fn optional_piece(kind: ElementKind, part: Option<PartView>) -> Seq<PieceView> {
    match part {
        Some(p) => seq![piece(kind, p)],
        None => Seq::empty(),
    }
}

/// A numbering of the whole word.
pub open spec fn whole_of(w: Seq<char>, pieces: Seq<PieceView>, decides: bool) -> NumberingView {
    NumberingView { pieces, used_start: 0, used_end: total(w), decides }
}

pub open spec fn shifted_part(p: PartView, by: int) -> PartView {
    PartView { text: p.text, start: p.start + by, end: p.end + by }
}

pub open spec fn shifted(n: NumberingView, by: int) -> NumberingView {
    NumberingView {
        pieces: n.pieces.map_values(|p: PieceView| PieceView { part: shifted_part(p.part, by), ..p }),
        used_start: n.used_start + by,
        used_end: n.used_end + by,
        decides: n.decides,
    }
}

/// `05v2`: a number and its release version.
pub open spec fn spec_version_suffix(w: Seq<char>, extent: Extent) -> Option<NumberingView> {
    match read_digits(w, 0, extent.spec_max_digits() as int) {
        None => None,
        Some((number, p1)) => match read_version(w, p1) {
            None => None,
            Some((version, p2)) => if p2 != w.len() {
                None
            } else {
                Some(whole_of(w, seq![piece(extent.spec_number(), number), piece(ElementKind::ReleaseVersion, version)], false))
            },
        },
    }
}

/// `01-02v2`, `01+02`: a batch, the lower bound within the extent's limit.
pub open spec fn spec_range(w: Seq<char>, extent: Extent) -> Option<NumberingView> {
    let max = extent.spec_max_digits() as int;
    match read_digits(w, 0, max) {
        None => None,
        Some((lower, p1)) => {
            let lower_version = if extent == Extent::Episode {
                read_version(w, p1)
            } else {
                None
            };
            let p2 = after(lower_version, p1);
            match read_any(w, p2, seq!['-', '~', '&', '+']) {
                None => None,
                Some(p3) => match read_digits(w, p3, max) {
                    None => None,
                    Some((upper, p4)) => {
                        let upper_version = read_version(w, p4);
                        let p5 = after(upper_version, p4);
                        if p5 != w.len() || leading_value_of(lower.text) >= leading_value_of(upper.text)
                            || leading_value_of(lower.text) > extent.spec_max_value() {
                            None
                        } else {
                            Some(
                                whole_of(
                                    w,
                                    seq![piece(extent.spec_number(), lower), piece(extent.spec_number(), upper)]
                                        + optional_piece(ElementKind::ReleaseVersion, found(lower_version))
                                        + optional_piece(ElementKind::ReleaseVersion, found(upper_version)),
                                    true,
                                ),
                            )
                        }
                    },
                },
            }
        },
    }
}

/// A `-` and a second number, with an optional letter before it.
pub open spec fn second_number(w: Seq<char>, pos: int, letters: Seq<char>, max: int) -> Option<(PartView, int)> {
    match read_char(w, pos, '-') {
        None => None,
        Some(q) => read_digits(w, skip_any(w, q, letters), max),
    }
}

/// `S01E06v2`, `2x05`, `S01-02E03-04`: seasons and episodes together.
pub open spec fn spec_season_and_episode(w: Seq<char>) -> Option<NumberingView> {
    let p0 = skip_any(w, 0, seq!['S', 's']);
    match read_digits(w, p0, 2) {
        None => None,
        Some((first_season, p1)) => {
            let second_season = second_number(w, p1, seq!['S', 's'], 2);
            let p2 = after(second_season, p1);
            match read_episode_separator(w, p2) {
                None => None,
                Some(p3) => match read_digits(w, p3, 4) {
                    None => None,
                    Some((first_episode, p4)) => {
                        let second_episode = second_number(w, p4, seq!['E', 'e'], 4);
                        let p5 = after(second_episode, p4);
                        let release_version = read_version(w, p5);
                        let p6 = after(release_version, p5);
                        if p6 != w.len() || leading_value_of(first_season.text) == 0 {
                            None
                        } else {
                            Some(
                                whole_of(
                                    w,
                                    seq![piece(ElementKind::AnimeSeason, first_season)]
                                        + optional_piece(ElementKind::AnimeSeason, found(second_season))
                                        + seq![piece(ElementKind::EpisodeNumber, first_episode)]
                                        + optional_piece(ElementKind::EpisodeNumber, found(second_episode))
                                        + optional_piece(ElementKind::ReleaseVersion, found(release_version)),
                                    false,
                                ),
                            )
                        }
                    },
                },
            }
        },
    }
}

/// Two words that differ at most in the case of their ASCII letters.
pub open spec fn same_but_case(a: Seq<char>, b: Seq<char>) -> bool {
    a.len() == b.len() && forall|i: int| 0 <= i < a.len() ==> crate::text::ascii_lower(#[trigger] a[i]) == crate::text::ascii_lower(b[i])
}

/// The sets of chars a season word reads one of, each holding both cases
/// of every letter in it.
pub open spec fn season_sets(set: Seq<char>) -> bool {
    ||| set == seq!['S', 's']
    ||| set == seq!['E', 'e']
    ||| set == seq!['v', 'V']
    ||| set == seq!['E', 'e', 'x', 'X']
    ||| set == seq![' ', '.', '_', '-', ':', 'x', 'X']
}

/// Two chars with the same lower case are one char, or an ASCII capital
/// and its small letter.
proof fn lemma_case_pair(c: char, d: char)
    requires
        crate::text::ascii_lower(c) == crate::text::ascii_lower(d),
    ensures
        c == d || ('A' <= c <= 'Z' && (d as u32) == (c as u32) + 32) || ('A' <= d <= 'Z' && (c as u32) == (d as u32) + 32),
{
    if 'A' <= c <= 'Z' {
        assert(crate::text::ascii_lower(c) as u32 == (c as u32) + 32);
    }
    if 'A' <= d <= 'Z' {
        assert(crate::text::ascii_lower(d) as u32 == (d as u32) + 32);
    }
}

/// Chars that differ only in case are digits together, and then equal; are
/// one byte wide together; and stand in each case-closed set the season
/// word reads together.
proof fn lemma_case_pair_reads(c: char, d: char)
    requires
        crate::text::ascii_lower(c) == crate::text::ascii_lower(d),
    ensures
        is_ascii_digit(c) <==> is_ascii_digit(d),
        is_ascii_digit(c) ==> c == d,
        (c == '-') <==> (d == '-'),
        seq!['S', 's'].contains(c) <==> seq!['S', 's'].contains(d),
        seq!['E', 'e'].contains(c) <==> seq!['E', 'e'].contains(d),
        seq!['v', 'V'].contains(c) <==> seq!['v', 'V'].contains(d),
        seq!['E', 'e', 'x', 'X'].contains(c) <==> seq!['E', 'e', 'x', 'X'].contains(d),
        seq![' ', '.', '_', '-', ':', 'x', 'X'].contains(c) <==> seq![' ', '.', '_', '-', ':', 'x', 'X'].contains(d),
        c != d ==> (c as u32) < 128 && (d as u32) < 128,
{
    lemma_case_pair(c, d);
    lemma_set2('S', 's', c);
    lemma_set2('S', 's', d);
    lemma_set2('E', 'e', c);
    lemma_set2('E', 'e', d);
    lemma_set2('v', 'V', c);
    lemma_set2('v', 'V', d);
    lemma_set4('E', 'e', 'x', 'X', c);
    lemma_set4('E', 'e', 'x', 'X', d);
    lemma_set7(c);
    lemma_set7(d);
}

proof fn lemma_set2(x: char, y: char, c: char)
    ensures
        seq![x, y].contains(c) <==> (c == x || c == y),
{
    if c == x {
        assert(seq![x, y][0] == c);
    } else if c == y {
        assert(seq![x, y][1] == c);
    }
}

proof fn lemma_set4(x: char, y: char, z: char, w: char, c: char)
    ensures
        seq![x, y, z, w].contains(c) <==> (c == x || c == y || c == z || c == w),
{
    let s = seq![x, y, z, w];
    if c == x {
        assert(s[0] == c);
    } else if c == y {
        assert(s[1] == c);
    } else if c == z {
        assert(s[2] == c);
    } else if c == w {
        assert(s[3] == c);
    }
}

proof fn lemma_set7(c: char)
    ensures
        seq![' ', '.', '_', '-', ':', 'x', 'X'].contains(c) <==> (c == ' ' || c == '.' || c == '_' || c == '-' || c == ':' || c == 'x'
            || c == 'X'),
{
    let s = seq![' ', '.', '_', '-', ':', 'x', 'X'];
    if c == ' ' {
        assert(s[0] == c);
    } else if c == '.' {
        assert(s[1] == c);
    } else if c == '_' {
        assert(s[2] == c);
    } else if c == '-' {
        assert(s[3] == c);
    } else if c == ':' {
        assert(s[4] == c);
    } else if c == 'x' {
        assert(s[5] == c);
    } else if c == 'X' {
        assert(s[6] == c);
    }
}

proof fn lemma_case_digit_count(a: Seq<char>, b: Seq<char>, pos: int, max: int)
    requires
        same_but_case(a, b),
    ensures
        scanner::digit_count(a, pos, max) == scanner::digit_count(b, pos, max),
        forall|k: int| pos <= k < pos + scanner::digit_count(a, pos, max) ==> #[trigger] a[k] == b[k],
        scanner::digit_count(a, pos, max) >= 0,
        scanner::digit_count(a, pos, max) > 0 ==> 0 <= pos && pos + scanner::digit_count(a, pos, max) <= a.len(),
    decreases a.len() - pos,
{
    if max > 0 && 0 <= pos < a.len() {
        lemma_case_pair_reads(a[pos], b[pos]);
        if is_ascii_digit(a[pos]) {
            lemma_case_digit_count(a, b, pos + 1, max - 1);
        }
    }
}

proof fn lemma_case_offset(a: Seq<char>, b: Seq<char>, i: int)
    requires
        same_but_case(a, b),
        0 <= i <= a.len(),
    ensures
        byte_offset(a, i) == byte_offset(b, i),
    decreases i,
{
    if i > 0 {
        lemma_case_offset(a, b, i - 1);
        lemma_offset_step(a, i - 1);
        lemma_offset_step(b, i - 1);
        lemma_case_pair_reads(a[i - 1], b[i - 1]);
        crate::text::lemma_width(a[i - 1]);
        crate::text::lemma_width(b[i - 1]);
    }
}

/// Every read a season word is made of gives the same on two words that
/// differ only in case.
proof fn lemma_case_reads(a: Seq<char>, b: Seq<char>)
    requires
        same_but_case(a, b),
    ensures
        forall|pos: int, max: int| #[trigger] read_digits(a, pos, max) == read_digits(b, pos, max),
        forall|pos: int| #[trigger] read_char(a, pos, '-') == read_char(b, pos, '-'),
        forall|pos: int, set: Seq<char>|
            season_sets(set) ==> #[trigger] read_any(a, pos, set) == read_any(b, pos, set),
        forall|i: int| 0 <= i <= a.len() ==> #[trigger] byte_offset(a, i) == byte_offset(b, i),
{
    assert forall|i: int| 0 <= i <= a.len() implies #[trigger] byte_offset(a, i) == byte_offset(b, i) by {
        lemma_case_offset(a, b, i);
    }
    assert forall|pos: int, max: int| #[trigger] read_digits(a, pos, max) == read_digits(b, pos, max) by {
        lemma_case_digit_count(a, b, pos, max);
        let n = scanner::digit_count(a, pos, max);
        if n > 0 {
            assert(a.subrange(pos, pos + n) =~= b.subrange(pos, pos + n));
            lemma_case_offset(a, b, pos);
            lemma_case_offset(a, b, pos + n);
        }
    }
    assert forall|pos: int| #[trigger] read_char(a, pos, '-') == read_char(b, pos, '-') by {
        if 0 <= pos < a.len() {
            lemma_case_pair_reads(a[pos], b[pos]);
        }
    }
    assert forall|pos: int, set: Seq<char>| season_sets(set) implies #[trigger] read_any(a, pos, set) == read_any(b, pos, set) by {
        if 0 <= pos < a.len() {
            lemma_case_pair_reads(a[pos], b[pos]);
        }
    }
}

/// A season and episode word reads the same whatever the case of its
/// letters: `s01e02`, `S01E02` and `S01e02` give the same seasons,
/// episodes and version at the same places.
pub proof fn lemma_season_and_episode_ignores_case(a: Seq<char>, b: Seq<char>)
    requires
        same_but_case(a, b),
    ensures
        spec_season_and_episode(a) == spec_season_and_episode(b),
{
    lemma_case_reads(a, b);
    assert(byte_offset(a, a.len() as int) == byte_offset(b, b.len() as int));
}

/// The whole word as one number, within the extent's limit.
pub open spec fn spec_whole_word(w: Seq<char>, extent: Extent) -> Option<NumberingView> {
    if leading_value_of(w) > extent.spec_max_value() {
        None
    } else {
        Some(whole_of(w, seq![piece(extent.spec_number(), PartView { text: w, start: 0, end: total(w) })], true))
    }
}

/// `07.5` is an episode; `1.11` and `8.0` are parts of titles and `5.1` is
/// an audio term, so any other fraction needs a leading zero (`04.1`)
/// before it counts, since no title or term writes one.
pub open spec fn spec_fraction(w: Seq<char>) -> Option<NumberingView> {
    match read_digits(w, 0, usize::MAX as int) {
        None => None,
        Some((whole, p1)) => match read_char(w, p1, '.') {
            None => None,
            Some(p2) => {
                let leading_zero = whole.text.len() > 1 && whole.text[0] == '0';
                let rest = if leading_zero {
                    match read_digits(w, p2, 1) {
                        Some((_, q)) => Some(q),
                        None => None,
                    }
                } else {
                    read_char(w, p2, '5')
                };
                match rest {
                    Some(q) => if q == w.len() {
                        spec_whole_word(w, Extent::Episode)
                    } else {
                        None
                    },
                    None => None,
                }
            },
        },
    }
}

pub open spec fn is_part_letter(c: char) -> bool {
    ('A' <= c && c <= 'C') || ('a' <= c && c <= 'c')
}

/// `4a`: an episode and a part letter.
pub open spec fn spec_partial(w: Seq<char>) -> Option<NumberingView> {
    let digits = scanner::digit_count(w, 0, w.len() as int);
    if digits > 0 && w.len() - digits == 1 && is_part_letter(w[digits]) {
        spec_whole_word(w, Extent::Episode)
    } else {
        None
    }
}

/// `#01-02v2`: a number sign, then one or two episodes and a version.
pub open spec fn spec_number_sign(w: Seq<char>) -> Option<NumberingView> {
    if w.len() == 0 || w[0] != '#' {
        None
    } else {
        let rest = w.drop_first();
        match read_digits(rest, 0, 4) {
            None => None,
            Some((first, p1)) => {
                let second = match read_any(rest, p1, seq!['-', '~', '&', '+']) {
                    Some(q) => read_digits(rest, q, 4),
                    None => None,
                };
                let p2 = after(second, p1);
                let release_version = read_version(rest, p2);
                let p3 = after(release_version, p2);
                if p3 != rest.len() || leading_value_of(first.text) > EPISODE_NUMBER_MAX {
                    None
                } else {
                    let seconds = match found(second) {
                        Some(e) => if leading_value_of(e.text) <= EPISODE_NUMBER_MAX {
                            seq![piece(ElementKind::EpisodeNumber, e)]
                        } else {
                            Seq::empty()
                        },
                        None => Seq::empty(),
                    };
                    let read = NumberingView {
                        pieces: seq![piece(ElementKind::EpisodeNumber, first)] + seconds + optional_piece(
                            ElementKind::ReleaseVersion,
                            found(release_version),
                        ),
                        used_start: 0,
                        used_end: total(rest),
                        decides: true,
                    };
                    Some(NumberingView { used_start: 0, used_end: total(w), ..shifted(read, 1) })
                }
            },
        }
    }
}

/// `12話`: a digit run closed by the Japanese episode counter. The `第`
/// before it is an episode prefix, read by the in-word prefix rule.
pub open spec fn spec_counter(w: Seq<char>) -> Option<NumberingView> {
    if w.len() == 0 || w.last() != '話' {
        None
    } else {
        match read_digits(w, 0, 4) {
            None => None,
            Some((episode, p1)) => match read_char(w, p1, '話') {
                None => None,
                Some(p2) => if p2 != w.len() {
                    None
                } else {
                    Some(whole_of(w, seq![piece(ElementKind::EpisodeNumber, episode)], false))
                },
            },
        }
    }
}

/// The UTF-8 length of a word.
fn byte_len(word: &str) -> (len: usize)
    requires
        encode_utf8(word@).len() <= usize::MAX,
    ensures
        len == total(word@),
{
    proof {
        lemma_offset_monotone(word@, 0, word@.len() as int);
    }
    word.len()
}

impl Numbering {
    fn new(used: Range<usize>) -> (numbering: Numbering)
        ensures
            numbering@ == (NumberingView {
                pieces: Seq::empty(),
                used_start: used.start as int,
                used_end: used.end as int,
                decides: false,
            }),
    {
        let numbering = Numbering { pieces: Vec::new(), used, decides: false };
        assert(numbering@.pieces =~= Seq::<PieceView>::empty());
        numbering
    }

    fn push(&mut self, kind: ElementKind, part: Part)
        ensures
            final(self)@ == (NumberingView { pieces: old(self)@.pieces.push(piece(kind, part@)), ..old(self)@ }),
    {
        let ghost before = self.pieces@;
        self.pieces.push(Piece { kind, part, held: false });
        assert(pieces_view(self.pieces@) =~= pieces_view(before).push(piece(kind, part@)));
    }

    /// Moves every range `by` bytes on.
    pub fn shift(self, by: usize) -> (numbering: Numbering)
        requires
            within(Some(self@), usize::MAX - by),
        ensures
            numbering@ == shifted(self@, by as int),
    {
        let mut pieces: Vec<Piece> = Vec::new();
        let mut i: usize = 0;
        while i < self.pieces.len()
            invariant
                i <= self.pieces@.len(),
                within(Some(self@), usize::MAX - by),
                pieces_view(pieces@) =~= shifted(self@, by as int).pieces.take(i as int),
            decreases self.pieces@.len() - i,
        {
            let old_piece = &self.pieces[i];
            assert(self@.pieces[i as int] == old_piece@);
            let moved = Piece {
                kind: old_piece.kind,
                part: Part { text: old_piece.part.text.clone(), at: old_piece.part.at.start + by..old_piece.part.at.end + by },
                held: old_piece.held,
            };
            let ghost before = pieces_view(pieces@);
            pieces.push(moved);
            assert(pieces_view(pieces@) =~= before.push(moved@));
            i = i + 1;
        }
        Numbering { pieces, used: self.used.start + by..self.used.end + by, decides: self.decides }
    }
}

/// `05v2`: a number and its release version.
pub fn version_suffix(word: &str, extent: Extent) -> (numbering: Option<Numbering>)
    requires
        encode_utf8(word@).len() <= usize::MAX,
    ensures
        numbering_view(numbering) == spec_version_suffix(word@, extent),
        within(numbering_view(numbering), total(word@)),
{
    let mut scanner = Scanner::new(word);
    let number = match scanner.digits(extent.max_digits()) {
        Some(part) => part,
        None => return None,
    };
    let release_version = match version(&mut scanner) {
        Some(part) => part,
        None => return None,
    };
    if !scanner.done() {
        return None;
    }
    let mut numbering = Numbering::new(0..byte_len(word));
    numbering.push(extent.number(), number);
    numbering.push(ElementKind::ReleaseVersion, release_version);
    Some(numbering)
}

/// `01-02v2`, `01+02`: a batch, the lower bound within the extent's limit.
pub fn range(word: &str, extent: Extent) -> (numbering: Option<Numbering>)
    requires
        encode_utf8(word@).len() <= usize::MAX,
    ensures
        numbering_view(numbering) == spec_range(word@, extent),
        within(numbering_view(numbering), total(word@)),
{
    let mut scanner = Scanner::new(word);
    let lower = match scanner.digits(extent.max_digits()) {
        Some(part) => part,
        None => return None,
    };
    // Only an episode range carries a version on its lower bound.
    let lower_version = match extent {
        Extent::Episode => version(&mut scanner),
        Extent::Volume => None,
    };
    if !scanner.eat_any(&['-', '~', '&', '+']) {
        return None;
    }
    let upper = match scanner.digits(extent.max_digits()) {
        Some(part) => part,
        None => return None,
    };
    let upper_version = version(&mut scanner);
    if !scanner.done() {
        return None;
    }
    if leading_value(lower.text.as_str()) >= leading_value(upper.text.as_str()) {
        return None;
    }
    if leading_value(lower.text.as_str()) > extent.max_value() {
        return None;
    }
    let mut numbering = Numbering::new(0..byte_len(word));
    numbering.decides = true;
    numbering.push(extent.number(), lower);
    numbering.push(extent.number(), upper);
    match lower_version {
        Some(part) => numbering.push(ElementKind::ReleaseVersion, part),
        None => {},
    }
    match upper_version {
        Some(part) => numbering.push(ElementKind::ReleaseVersion, part),
        None => {},
    }
    assert(numbering@.pieces =~= spec_range(word@, extent)->0.pieces);
    Some(numbering)
}

/// A `-` and a second number, with an optional letter before it; rewinds
/// when there is none.
fn second(scanner: &mut Scanner, letters: &[char], max: usize) -> (part: Option<Part>)
    requires
        old(scanner).wf(),
    ensures
        final(scanner).wf(),
        final(scanner).spec_chars() == old(scanner).spec_chars(),
        part_view(part) == found(second_number(old(scanner).spec_chars(), old(scanner).spec_pos(), letters@, max as int)),
        final(scanner).spec_pos() == after(second_number(old(scanner).spec_chars(), old(scanner).spec_pos(), letters@, max as int), old(scanner).spec_pos()),
        bounded(part_view(part), old(scanner).spec_chars()),
{
    let saved = scanner.position();
    if !scanner.eat('-') {
        return None;
    }
    scanner.eat_any(letters);
    match scanner.digits(max) {
        Some(part) => Some(part),
        None => {
            scanner.rewind(saved);
            None
        },
    }
}

/// `S01E06v2`, `2x05`, `S01-02E03-04`: seasons and episodes together.
pub fn season_and_episode(word: &str) -> (numbering: Option<Numbering>)
    requires
        encode_utf8(word@).len() <= usize::MAX,
    ensures
        numbering_view(numbering) == spec_season_and_episode(word@),
        within(numbering_view(numbering), total(word@)),
{
    let mut scanner = Scanner::new(word);
    scanner.eat_any(&['S', 's']);
    let first_season = match scanner.digits(2) {
        Some(part) => part,
        None => return None,
    };
    let second_season = second(&mut scanner, &['S', 's'], 2);
    if !eat_episode_separator(&mut scanner) {
        return None;
    }
    let first_episode = match scanner.digits(4) {
        Some(part) => part,
        None => return None,
    };
    let second_episode = second(&mut scanner, &['E', 'e'], 4);
    let release_version = version(&mut scanner);
    if !scanner.done() {
        return None;
    }
    if leading_value(first_season.text.as_str()) == 0 {
        return None;
    }
    let mut numbering = Numbering::new(0..byte_len(word));
    numbering.push(ElementKind::AnimeSeason, first_season);
    match second_season {
        Some(part) => numbering.push(ElementKind::AnimeSeason, part),
        None => {},
    }
    numbering.push(ElementKind::EpisodeNumber, first_episode);
    match second_episode {
        Some(part) => numbering.push(ElementKind::EpisodeNumber, part),
        None => {},
    }
    match release_version {
        Some(part) => numbering.push(ElementKind::ReleaseVersion, part),
        None => {},
    }
    assert(numbering@.pieces =~= spec_season_and_episode(word@)->0.pieces);
    Some(numbering)
}

/// The whole word as one number, within the extent's limit.
fn whole_word(word: &str, extent: Extent) -> (numbering: Option<Numbering>)
    requires
        encode_utf8(word@).len() <= usize::MAX,
    ensures
        numbering_view(numbering) == spec_whole_word(word@, extent),
        within(numbering_view(numbering), total(word@)),
{
    if leading_value(word) > extent.max_value() {
        return None;
    }
    let len = byte_len(word);
    let mut numbering = Numbering::new(0..len);
    numbering.decides = true;
    numbering.push(extent.number(), Part { text: word.to_owned(), at: 0..len });
    Some(numbering)
}

/// `07.5` is an episode; `1.11` and `8.0` are parts of titles and `5.1` is
/// an audio term, so any other fraction needs a leading zero (`04.1`)
/// before it counts, since no title or term writes one.
pub fn fraction(word: &str) -> (numbering: Option<Numbering>)
    requires
        encode_utf8(word@).len() <= usize::MAX,
    ensures
        numbering_view(numbering) == spec_fraction(word@),
        within(numbering_view(numbering), total(word@)),
{
    let mut scanner = Scanner::new(word);
    let whole = match scanner.digits(usize::MAX) {
        Some(part) => part,
        None => return None,
    };
    if !scanner.eat('.') {
        return None;
    }
    let digits = chars_of(whole.text.as_str());
    let leading_zero = digits.len() > 1 && digits[0] == '0';
    let fraction_ok = if leading_zero {
        scanner.digits(1).is_some()
    } else {
        scanner.eat('5')
    };
    if !fraction_ok || !scanner.done() {
        return None;
    }
    whole_word(word, Extent::Episode)
}

/// `4a`: an episode and a part letter.
pub fn partial(word: &str) -> (numbering: Option<Numbering>)
    requires
        encode_utf8(word@).len() <= usize::MAX,
    ensures
        numbering_view(numbering) == spec_partial(word@),
        within(numbering_view(numbering), total(word@)),
{
    let chars = chars_of(word);
    let mut digits: usize = 0;
    while digits < chars.len() && digit(chars[digits])
        invariant
            digits <= chars@.len(),
            chars@ == word@,
            scanner::digit_count(chars@, 0, chars@.len() as int) == digits + scanner::digit_count(
                chars@,
                digits as int,
                chars@.len() - digits,
            ),
        decreases chars@.len() - digits,
    {
        digits = digits + 1;
    }
    if digits > 0 && chars.len() - digits == 1 {
        let c = chars[digits];
        if ('A' <= c && c <= 'C') || ('a' <= c && c <= 'c') {
            return whole_word(word, Extent::Episode);
        }
    }
    None
}

/// `#01-02v2`: a number sign, then one or two episodes and a version.
pub fn number_sign(word: &str) -> (numbering: Option<Numbering>)
    requires
        encode_utf8(word@).len() <= usize::MAX,
    ensures
        numbering_view(numbering) == spec_number_sign(word@),
        within(numbering_view(numbering), total(word@)),
{
    let chars = chars_of(word);
    if chars.len() == 0 || chars[0] != '#' {
        return None;
    }
    let rest = string_of_range(chars.as_slice(), 1, chars.len());
    proof {
        assert(rest@ =~= word@.drop_first());
        lemma_run_bytes_total(word@);
    }
    let mut scanner = Scanner::new(rest.as_str());
    let first = match scanner.digits(4) {
        Some(part) => part,
        None => return None,
    };
    let saved = scanner.position();
    let second = if scanner.eat_any(&['-', '~', '&', '+']) {
        match scanner.digits(4) {
            Some(part) => Some(part),
            None => {
                scanner.rewind(saved);
                None
            },
        }
    } else {
        None
    };
    let release_version = version(&mut scanner);
    if !scanner.done() {
        return None;
    }
    if leading_value(first.text.as_str()) > EPISODE_NUMBER_MAX {
        return None;
    }
    let mut numbering = Numbering::new(0..byte_len(rest.as_str()));
    numbering.decides = true;
    numbering.push(ElementKind::EpisodeNumber, first);
    match second {
        Some(episode) => {
            if leading_value(episode.text.as_str()) <= EPISODE_NUMBER_MAX {
                numbering.push(ElementKind::EpisodeNumber, episode);
            }
        },
        None => {},
    }
    match release_version {
        Some(part) => numbering.push(ElementKind::ReleaseVersion, part),
        None => {},
    }
    proof {
        lemma_offset_monotone(word@, 0, word@.len() as int);
        lemma_within_weaken(Some(numbering@), total(rest@), usize::MAX - 1);
    }
    let mut numbering = numbering.shift(1);
    numbering.used = 0..byte_len(word);
    Some(numbering)
}

/// The number sign is one byte, so the rest of the word starts one byte in.
proof fn lemma_run_bytes_total(w: Seq<char>)
    requires
        w.len() > 0,
        w[0] == '#',
    ensures
        total(w) == total(w.drop_first()) + 1,
{
    lemma_offset_monotone(w, 0, w.len() as int);
    lemma_offset_monotone(w.drop_first(), 0, w.len() - 1);
    assert(w =~= seq![w[0]] + w.drop_first());
    lemma_encode_concat(seq![w[0]], w.drop_first());
    lemma_offset_step(w, 0);
    assert(w.take(1) =~= seq![w[0]]);
    assert(w.take(0) =~= Seq::<char>::empty());
}

/// `12話`: a digit run closed by the Japanese episode counter. The `第`
/// before it is an episode prefix, read by the in-word prefix rule.
pub fn counter(word: &str) -> (numbering: Option<Numbering>)
    requires
        encode_utf8(word@).len() <= usize::MAX,
    ensures
        numbering_view(numbering) == spec_counter(word@),
        within(numbering_view(numbering), total(word@)),
{
    let chars = chars_of(word);
    if chars.len() == 0 || chars[chars.len() - 1] != '話' {
        return None;
    }
    let mut scanner = Scanner::new(word);
    let episode = match scanner.digits(4) {
        Some(part) => part,
        None => return None,
    };
    if !scanner.eat('話') || !scanner.done() {
        return None;
    }
    let mut numbering = Numbering::new(0..byte_len(word));
    numbering.push(ElementKind::EpisodeNumber, episode);
    Some(numbering)
}

/// The shapes a word may be read as; `Any` tries them in order and the
/// first that fits the word whole wins.
#[derive(Clone, Copy, Debug, PartialEq, Eq, Structural)]
pub enum NumberShape {
    VersionSuffix(Extent),
    Range(Extent),
    SeasonAndEpisode,
    TypeAndEpisode,
    Fraction,
    Partial,
    NumberSign,
    Counter,
    Any(Extent),
}

/// The chars trimmed off a word's ends before a shape reads it.
pub open spec fn is_trim(c: char) -> bool {
    c == ' ' || c == '-'
}

pub open spec fn trim_start(w: Seq<char>, i: int) -> int
    decreases w.len() - i,
{
    if 0 <= i < w.len() && is_trim(w[i]) {
        trim_start(w, i + 1)
    } else {
        i
    }
}

pub open spec fn trim_end(w: Seq<char>, lo: int, e: int) -> int
    decreases e,
{
    if 0 <= lo < e <= w.len() && is_trim(w[e - 1]) {
        trim_end(w, lo, e - 1)
    } else {
        e
    }
}

/// A plain number: one digit or more and nothing else.
pub open spec fn all_digits(w: Seq<char>) -> bool {
    w.len() > 0 && forall|i: int| 0 <= i < w.len() ==> #[trigger] is_ascii_digit(w[i])
}

/// The index of the first ascii digit at or after `from`, or the length.
pub open spec fn digit_index(w: Seq<char>, from: int) -> int
    decreases w.len() - from,
{
    if from < 0 || from >= w.len() {
        w.len() as int
    } else if is_ascii_digit(w[from]) {
        from
    } else {
        digit_index(w, from + 1)
    }
}

pub open spec fn or_else(a: Option<NumberingView>, b: Option<NumberingView>) -> Option<NumberingView> {
    if a is Some {
        a
    } else {
        b
    }
}

/// What a word spells under the shapes, tried in order.
pub open spec fn spec_read(w: Seq<char>, extent: Extent, table: KeywordTable) -> Option<NumberingView>
    decreases w.len(), 3nat,
{
    spec_read_with(w, NumberShape::Any(extent), table)
}

/// One shape run over the word trimmed of dashes and spaces, with the
/// pieces shifted back to the word's own offsets. A plain number is no
/// shape at all. The dashes and spaces trimmed off the front are used up
/// with the number, and so is the rest of the word.
pub open spec fn spec_read_with(w: Seq<char>, shape: NumberShape, table: KeywordTable) -> Option<NumberingView>
    decreases w.len(), 2nat,
{
    if all_digits(w) {
        None
    } else {
        let lead = trim_start(w, 0);
        let end = trim_end(w, lead, w.len() as int);
        if !(0 <= lead < end <= w.len()) {
            None
        } else {
            match spec_shape(shape, w.subrange(lead, end), table) {
                None => None,
                Some(n) => {
                    let start = byte_offset(w, lead);
                    let s = shifted(n, start);
                    Some(NumberingView { used_start: if s.used_start == start { 0 } else { s.used_start }, used_end: total(w), ..s })
                },
            }
        }
    }
}

pub open spec fn spec_shape(shape: NumberShape, w: Seq<char>, table: KeywordTable) -> Option<NumberingView>
    decreases w.len(), 1nat,
{
    match shape {
        NumberShape::VersionSuffix(extent) => spec_version_suffix(w, extent),
        NumberShape::Range(extent) => spec_range(w, extent),
        NumberShape::SeasonAndEpisode => spec_season_and_episode(w),
        NumberShape::TypeAndEpisode => spec_type_and_episode(w, table),
        NumberShape::Fraction => spec_fraction(w),
        NumberShape::Partial => spec_partial(w),
        NumberShape::NumberSign => spec_number_sign(w),
        NumberShape::Counter => spec_counter(w),
        NumberShape::Any(extent) => or_else(
            spec_version_suffix(w, extent),
            or_else(
                spec_range(w, extent),
                match extent {
                    Extent::Episode => or_else(
                        spec_season_and_episode(w),
                        or_else(
                            spec_type_and_episode(w, table),
                            or_else(spec_fraction(w), or_else(spec_partial(w), or_else(spec_number_sign(w), spec_counter(w)))),
                        ),
                    ),
                    Extent::Volume => None,
                },
            ),
        ),
    }
}

/// `OVA1`: an anime type glued to its number. The type stays a title word
/// when the table says it is not identifiable; the number is read through
/// the other shapes, or whole.
pub open spec fn spec_type_and_episode(w: Seq<char>, table: KeywordTable) -> Option<NumberingView>
    decreases w.len(), 0nat,
{
    let d = digit_index(w, 0);
    if d <= 0 || d >= w.len() {
        None
    } else {
        match first_match(table.spec_entries(), uppercase(w.take(d)), Some(ElementKind::AnimeType)) {
            None => None,
            Some(keyword) => {
                let number = w.skip(d);
                let by = byte_offset(w, d);
                let base = match spec_read(number, Extent::Episode, table) {
                    Some(n) => shifted(n, by),
                    None => NumberingView {
                        pieces: seq![piece(ElementKind::EpisodeNumber, PartView { text: number, start: by, end: total(w) })],
                        used_start: by,
                        used_end: total(w),
                        decides: true,
                    },
                };
                Some(
                    NumberingView {
                        pieces: seq![
                            PieceView {
                                kind: ElementKind::AnimeType,
                                part: PartView { text: w.take(d), start: 0, end: by },
                                held: !keyword.identifiable,
                            },
                        ] + base.pieces,
                        ..base
                    },
                )
            },
        }
    }
}

/// A shifted numbering stays within the shifted bound.
proof fn lemma_shifted_within(n: NumberingView, a: int, by: int)
    requires
        within(Some(n), a),
        0 <= by,
    ensures
        within(Some(shifted(n, by)), a + by),
{
    let s = shifted(n, by);
    assert forall|i: int| 0 <= i < s.pieces.len() implies 0 <= (#[trigger] s.pieces[i]).part.start <= s.pieces[i].part.end <= a + by by {
        assert(s.pieces[i].part == shifted_part(n.pieces[i].part, by));
    }
}

fn is_plain_number(chars: &[char]) -> (plain: bool)
    ensures
        plain == all_digits(chars@),
{
    if chars.len() == 0 {
        return false;
    }
    let mut i: usize = 0;
    while i < chars.len()
        invariant
            i <= chars@.len(),
            forall|k: int| 0 <= k < i ==> #[trigger] is_ascii_digit(chars@[k]),
        decreases chars@.len() - i,
    {
        if !digit(chars[i]) {
            return false;
        }
        i = i + 1;
    }
    true
}

/// The shapes, tried in order; the first that fits the word whole wins.
pub fn read(word: &str, extent: Extent, table: &KeywordTable) -> (numbering: Option<Numbering>)
    requires
        encode_utf8(word@).len() <= usize::MAX,
    ensures
        numbering_view(numbering) == spec_read(word@, extent, *table),
        within(numbering_view(numbering), total(word@)),
    decreases word@.len(), 3nat,
{
    read_with(word, NumberShape::Any(extent), table)
}

/// Runs one shape over the word trimmed of dashes and spaces, with the
/// pieces shifted back to the word's own offsets. A plain number is no
/// shape at all.
pub fn read_with(word: &str, shape: NumberShape, table: &KeywordTable) -> (numbering: Option<Numbering>)
    requires
        encode_utf8(word@).len() <= usize::MAX,
    ensures
        numbering_view(numbering) == spec_read_with(word@, shape, *table),
        within(numbering_view(numbering), total(word@)),
    decreases word@.len(), 2nat,
{
    let chars = chars_of(word);
    if is_plain_number(chars.as_slice()) {
        return None;
    }
    let mut lead: usize = 0;
    while lead < chars.len() && (chars[lead] == ' ' || chars[lead] == '-')
        invariant
            lead <= chars@.len(),
            trim_start(chars@, 0) == trim_start(chars@, lead as int),
        decreases chars@.len() - lead,
    {
        lead = lead + 1;
    }
    let mut end: usize = chars.len();
    while end > lead && (chars[end - 1] == ' ' || chars[end - 1] == '-')
        invariant
            lead <= end <= chars@.len(),
            trim_end(chars@, lead as int, chars@.len() as int) == trim_end(chars@, lead as int, end as int),
        decreases end,
    {
        end = end - 1;
    }
    if lead == end {
        return None;
    }
    let trimmed = string_of_range(chars.as_slice(), lead, end);
    proof {
        crate::text::lemma_run_bytes(chars@, lead as int, end as int);
        lemma_offset_monotone(chars@, lead as int, end as int);
        lemma_offset_monotone(chars@, end as int, chars@.len() as int);
        lemma_offset_monotone(trimmed@, 0, trimmed@.len() as int);
    }
    let start = crate::text::offset_of(chars.as_slice(), lead);
    let numbering = match run_shape(shape, trimmed.as_str(), table) {
        Some(n) => n,
        None => return None,
    };
    proof {
        lemma_within_weaken(Some(numbering@), total(trimmed@), usize::MAX - start);
        lemma_shifted_within(numbering@, total(trimmed@), start as int);
        lemma_offset_monotone(word@, 0, word@.len() as int);
    }
    let mut numbering = numbering.shift(start);
    // The dashes and spaces trimmed off are used up with the number, so a
    // glued `S01E01-` leaves no dash behind for a title.
    if numbering.used.start == start {
        numbering.used = 0..numbering.used.end;
    }
    numbering.used = numbering.used.start..byte_len(word);
    Some(numbering)
}

fn run_shape(shape: NumberShape, word: &str, table: &KeywordTable) -> (numbering: Option<Numbering>)
    requires
        encode_utf8(word@).len() <= usize::MAX,
    ensures
        numbering_view(numbering) == spec_shape(shape, word@, *table),
        within(numbering_view(numbering), total(word@)),
    decreases word@.len(), 1nat,
{
    match shape {
        NumberShape::VersionSuffix(extent) => version_suffix(word, extent),
        NumberShape::Range(extent) => range(word, extent),
        NumberShape::SeasonAndEpisode => season_and_episode(word),
        NumberShape::TypeAndEpisode => type_and_episode(word, table),
        NumberShape::Fraction => fraction(word),
        NumberShape::Partial => partial(word),
        NumberShape::NumberSign => number_sign(word),
        NumberShape::Counter => counter(word),
        NumberShape::Any(extent) => {
            let numbering = version_suffix(word, extent);
            if numbering.is_some() {
                return numbering;
            }
            let numbering = range(word, extent);
            if numbering.is_some() {
                return numbering;
            }
            match extent {
                Extent::Episode => {
                    let numbering = season_and_episode(word);
                    if numbering.is_some() {
                        return numbering;
                    }
                    let numbering = type_and_episode(word, table);
                    if numbering.is_some() {
                        return numbering;
                    }
                    let numbering = fraction(word);
                    if numbering.is_some() {
                        return numbering;
                    }
                    let numbering = partial(word);
                    if numbering.is_some() {
                        return numbering;
                    }
                    let numbering = number_sign(word);
                    if numbering.is_some() {
                        return numbering;
                    }
                    counter(word)
                },
                Extent::Volume => None,
            }
        },
    }
}

/// `OVA1`: an anime type glued to its number. The type stays a title word
/// when the table says it is not identifiable; the number is read through
/// the other shapes, or whole.
pub fn type_and_episode(word: &str, table: &KeywordTable) -> (numbering: Option<Numbering>)
    requires
        encode_utf8(word@).len() <= usize::MAX,
    ensures
        numbering_view(numbering) == spec_type_and_episode(word@, *table),
        within(numbering_view(numbering), total(word@)),
    decreases word@.len(), 0nat,
{
    let chars = chars_of(word);
    let mut d: usize = 0;
    while d < chars.len() && !digit(chars[d])
        invariant
            d <= chars@.len(),
            digit_index(chars@, 0) == digit_index(chars@, d as int),
        decreases chars@.len() - d,
    {
        d = d + 1;
    }
    if d == chars.len() {
        return None;
    }
    let prefix = string_of_range(chars.as_slice(), 0, d);
    let upper = to_uppercase(prefix.as_str());
    let keyword = match table.find(ElementKind::AnimeType, upper.as_str()) {
        Some(keyword) => keyword,
        None => return None,
    };
    assert(prefix@ =~= word@.take(d as int));
    proof {
        crate::text::lemma_run_bytes(chars@, d as int, chars@.len() as int);
        lemma_offset_monotone(chars@, 0, d as int);
        lemma_offset_monotone(chars@, d as int, chars@.len() as int);
        assert(chars@.take(0) =~= Seq::<char>::empty());
    }
    let digit_pos = crate::text::offset_of(chars.as_slice(), d);
    let number = string_of_range(chars.as_slice(), d, chars.len());
    assert(number@ =~= word@.skip(d as int));
    proof {
        lemma_offset_monotone(number@, 0, number@.len() as int);
    }
    let len = byte_len(word);
    let mut numbering = match read(number.as_str(), Extent::Episode, table) {
        Some(n) => {
            proof {
                lemma_within_weaken(Some(n@), total(number@), usize::MAX - digit_pos);
                lemma_shifted_within(n@, total(number@), digit_pos as int);
            }
            n.shift(digit_pos)
        },
        None => {
            let mut n = Numbering::new(digit_pos..len);
            n.decides = true;
            n.push(ElementKind::EpisodeNumber, Part { text: number, at: digit_pos..len });
            n
        },
    };
    let ghost before = pieces_view(numbering.pieces@);
    let first = Piece {
        kind: ElementKind::AnimeType,
        part: Part { text: prefix, at: 0..digit_pos },
        held: !keyword.identifiable,
    };
    numbering.pieces.insert(0, first);
    assert(pieces_view(numbering.pieces@) =~= seq![first@] + before);
    Some(numbering)
}

/// A numbering within a bound is within every larger one.
pub proof fn lemma_within_weaken(n: Option<NumberingView>, a: int, b: int)
    requires
        within(n, a),
        a <= b,
    ensures
        within(n, b),
{
}

} // verus!
