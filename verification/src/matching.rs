//! Matching a playback title against the library: the loose form titles are
//! compared in, the edit distance behind a likely match, and the link a
//! proposal carries to the entry it names.

use vstd::prelude::*;

use crate::library::{EntryId, EpisodeRange, LibraryEntry};
use crate::text::{
    alphanumeric, ascii_lower, char_from_ascii, chars_of, digit, is_ascii_alphanumeric, is_ascii_digit, leading_number,
    push_char, same_chars, same_text, spec_leading_number, string_of, to_ascii_lower, ascii_upper, upper_seq,
};

verus! {

/// How sure the matcher is that a proposal names a library entry,
/// strongest first. Tags are stored in the database.
#[derive(Clone, Copy, Debug, PartialEq, Eq, Structural)]
pub enum Confidence {
    Exact,
    Likely,
    Unmatched,
}

impl Confidence {
    pub const ALL: [Confidence; 3] = [Confidence::Exact, Confidence::Likely, Confidence::Unmatched];

    pub open spec fn spec_tag(self) -> Seq<char> {
        match self {
            Confidence::Exact => "exact"@,
            Confidence::Likely => "likely"@,
            Confidence::Unmatched => "unmatched"@,
        }
    }

    pub open spec fn spec_label(self) -> Seq<char> {
        match self {
            Confidence::Exact => "Exact match"@,
            Confidence::Likely => "Likely match"@,
            Confidence::Unmatched => "No library entry"@,
        }
    }

    /// The confidence a stored tag names, if any.
    pub open spec fn spec_from_tag(tag: Seq<char>) -> Option<Confidence> {
        if tag == "exact"@ {
            Some(Confidence::Exact)
        } else if tag == "likely"@ {
            Some(Confidence::Likely)
        } else if tag == "unmatched"@ {
            Some(Confidence::Unmatched)
        } else {
            None
        }
    }

    /// Stable identifier, as stored.
    pub fn tag(self) -> (tag: &'static str)
        ensures
            tag@ == self.spec_tag(),
    {
        match self {
            Confidence::Exact => "exact",
            Confidence::Likely => "likely",
            Confidence::Unmatched => "unmatched",
        }
    }

    /// Inverse of [`Confidence::tag`].
    pub fn from_tag(tag: &str) -> (found: Option<Confidence>)
        ensures
            found == Confidence::spec_from_tag(tag@),
            match found {
                Some(confidence) => confidence.spec_tag() == tag@,
                None => forall|confidence: Confidence| confidence.spec_tag() != tag@,
            },
    {
        if same_text(tag, "exact") {
            Some(Confidence::Exact)
        } else if same_text(tag, "likely") {
            Some(Confidence::Likely)
        } else if same_text(tag, "unmatched") {
            Some(Confidence::Unmatched)
        } else {
            None
        }
    }

    /// Human-readable label.
    pub fn label(self) -> (label: &'static str)
        ensures
            label@ == self.spec_label(),
    {
        match self {
            Confidence::Exact => "Exact match",
            Confidence::Likely => "Likely match",
            Confidence::Unmatched => "No library entry",
        }
    }
}

/// No two confidences share a tag, so reading a stored tag back gives the
/// confidence that wrote it.
pub proof fn lemma_confidence_tags_round_trip(confidence: Confidence, other: Confidence)
    ensures
        confidence.spec_tag() == other.spec_tag() ==> confidence == other,
        Confidence::spec_from_tag(confidence.spec_tag()) == Some(confidence),
{
    reveal_strlit("exact");
    reveal_strlit("likely");
    reveal_strlit("unmatched");
    assert("exact"@.len() == 5);
    assert("likely"@.len() == 6);
    assert("unmatched"@.len() == 9);
}

/// Which library entry a proposal names, and how surely. The two travel
/// together, so an entry without a confidence, or an `Exact` without an
/// entry, cannot be built, in memory or off the store.
#[derive(Clone, Copy, Debug, PartialEq, Eq, Structural)]
pub enum Link {
    Exact(EntryId),
    Likely(EntryId),
    Unmatched,
}

impl Link {
    pub open spec fn spec_entry(self) -> Option<EntryId> {
        match self {
            Link::Exact(entry) => Some(entry),
            Link::Likely(entry) => Some(entry),
            Link::Unmatched => None,
        }
    }

    pub open spec fn spec_confidence(self) -> Confidence {
        match self {
            Link::Exact(_) => Confidence::Exact,
            Link::Likely(_) => Confidence::Likely,
            Link::Unmatched => Confidence::Unmatched,
        }
    }

    pub fn entry(self) -> (entry: Option<EntryId>)
        ensures
            entry == self.spec_entry(),
    {
        match self {
            Link::Exact(entry) => Some(entry),
            Link::Likely(entry) => Some(entry),
            Link::Unmatched => None,
        }
    }

    pub fn confidence(self) -> (confidence: Confidence)
        ensures
            confidence == self.spec_confidence(),
    {
        match self {
            Link::Exact(_) => Confidence::Exact,
            Link::Likely(_) => Confidence::Likely,
            Link::Unmatched => Confidence::Unmatched,
        }
    }

    pub fn names_entry(self) -> (names: bool)
        ensures
            names == self.spec_entry().is_some(),
    {
        self.entry().is_some()
    }

    /// The link two stored columns spell, or `None` when they disagree.
    pub open spec fn spec_from_columns(entry: Option<EntryId>, confidence: Confidence) -> Option<Link> {
        match (entry, confidence) {
            (Some(entry), Confidence::Exact) => Some(Link::Exact(entry)),
            (Some(entry), Confidence::Likely) => Some(Link::Likely(entry)),
            (None, Confidence::Unmatched) => Some(Link::Unmatched),
            _ => None,
        }
    }

    /// The store's two columns as one value, or `None` when they disagree.
    pub fn from_columns(entry: Option<EntryId>, confidence: Confidence) -> (link: Option<Link>)
        ensures
            link == Link::spec_from_columns(entry, confidence),
            match link {
                Some(link) => link.spec_entry() == entry && link.spec_confidence() == confidence,
                None => match (entry, confidence) {
                    (Some(_), Confidence::Unmatched) => true,
                    (None, Confidence::Exact) => true,
                    (None, Confidence::Likely) => true,
                    _ => false,
                },
            },
    {
        match (entry, confidence) {
            (Some(entry), Confidence::Exact) => Some(Link::Exact(entry)),
            (Some(entry), Confidence::Likely) => Some(Link::Likely(entry)),
            (None, Confidence::Unmatched) => Some(Link::Unmatched),
            _ => None,
        }
    }
}

/// Writing a link as its two columns and reading them back gives the link.
pub proof fn lemma_link_columns_round_trip(link: Link)
    ensures
        ({
            let entry = link.spec_entry();
            let confidence = link.spec_confidence();
            forall|other: Link|
                other.spec_entry() == entry && other.spec_confidence() == confidence ==> other
                    == link
        }),
{
}

/// One playback title's decision against the library.
#[derive(Clone, Debug, PartialEq, Eq)]
pub struct ProposedMatch {
    pub raw_title: String,
    /// Empty when the parser found no title.
    pub parsed_title: String,
    /// Every episode the file carries; a batch spans more than one.
    pub episode: Option<EpisodeRange>,
    pub season: Option<u32>,
    pub release_group: Option<String>,
    pub link: Link,
    pub player: String,
    /// Nanoseconds since the Unix epoch.
    pub at: u64,
}

/// What one char of a title becomes before it is split into words: `&`
/// is spelled out, an ASCII letter or digit is lowered, anything else is a
/// space.
pub open spec fn clean_piece(c: char) -> Seq<char> {
    if c == '&' {
        seq![' ', 'a', 'n', 'd', ' ']
    } else if is_ascii_alphanumeric(c) {
        seq![ascii_lower(c)]
    } else {
        seq![' ']
    }
}

pub open spec fn cleaned(s: Seq<char>) -> Seq<char>
    decreases s.len(),
{
    if s.len() == 0 {
        Seq::empty()
    } else {
        cleaned(s.drop_last()) + clean_piece(s.last())
    }
}

/// The words of `s[i..]` split at spaces, after the words in `done` and the
/// word `current` read so far.
pub open spec fn split_words(s: Seq<char>, i: int, current: Seq<char>, done: Seq<Seq<char>>) -> Seq<Seq<char>>
    decreases s.len() - i,
{
    if i < 0 || i >= s.len() {
        if current.len() > 0 {
            done.push(current)
        } else {
            done
        }
    } else if s[i] == ' ' {
        split_words(s, i + 1, Seq::empty(), if current.len() > 0 { done.push(current) } else { done })
    } else {
        split_words(s, i + 1, current.push(s[i]), done)
    }
}

pub open spec fn words(s: Seq<char>) -> Seq<Seq<char>> {
    split_words(s, 0, Seq::empty(), Seq::empty())
}

/// A roman numeral word as its digit.
pub open spec fn roman(token: Seq<char>) -> Seq<char> {
    if token == seq!['i', 'i'] {
        seq!['2']
    } else if token == seq!['i', 'i', 'i'] {
        seq!['3']
    } else if token == seq!['i', 'v'] {
        seq!['4']
    } else if token == seq!['v', 'i'] {
        seq!['6']
    } else if token == seq!['v', 'i', 'i'] {
        seq!['7']
    } else if token == seq!['v', 'i', 'i', 'i'] {
        seq!['8']
    } else if token == seq!['i', 'x'] {
        seq!['9']
    } else {
        token
    }
}

pub open spec fn ordinal_of(token: Seq<char>) -> Option<u32> {
    if token == "1st"@ || token == "first"@ {
        Some(1)
    } else if token == "2nd"@ || token == "second"@ {
        Some(2)
    } else if token == "3rd"@ || token == "third"@ {
        Some(3)
    } else if token == "4th"@ || token == "fourth"@ {
        Some(4)
    } else if token == "5th"@ || token == "fifth"@ {
        Some(5)
    } else if token == "6th"@ || token == "sixth"@ {
        Some(6)
    } else if token == "7th"@ || token == "seventh"@ {
        Some(7)
    } else if token == "8th"@ || token == "eighth"@ {
        Some(8)
    } else if token == "9th"@ || token == "ninth"@ {
        Some(9)
    } else {
        None
    }
}

/// A word of digits as a number that fits `u32`.
pub open spec fn number_of(token: Seq<char>) -> Option<u32> {
    if token.len() > 0 && forall|i: int| 0 <= i < token.len() ==> #[trigger] is_ascii_digit(token[i]) {
        spec_leading_number(token)
    } else {
        None
    }
}

/// `s` plus one or two digits, as in "s2" or "s02".
pub open spec fn shorthand_of(token: Seq<char>) -> Option<u32> {
    if token.len() >= 2 && token.len() <= 3 && token[0] == 's' {
        number_of(token.drop_first())
    } else {
        None
    }
}

pub open spec fn digit_char(d: u32) -> char {
    ((('0' as u32) + d) as u32) as char
}

/// A number in decimal, without leading zeros.
pub open spec fn decimal(n: u32) -> Seq<char>
    decreases n,
{
    if n < 10 {
        seq![digit_char(n)]
    } else {
        decimal(n / 10) + seq![digit_char(n % 10)]
    }
}

/// Season phrasings collapsed to the bare number, from word `i` on.
pub open spec fn collapse(tokens: Seq<Seq<char>>, i: int) -> Seq<Seq<char>>
    decreases tokens.len() - i,
{
    if i < 0 || i >= tokens.len() {
        Seq::empty()
    } else {
        let token = tokens[i];
        let next = if i + 1 < tokens.len() {
            Some(tokens[i + 1])
        } else {
            None
        };
        let next_number = match next {
            Some(t) => number_of(t),
            None => None,
        };
        if token == "season"@ && next_number is Some {
            seq![decimal(next_number->0)] + collapse(tokens, i + 2)
        } else if ordinal_of(token) is Some && next == Some("season"@) {
            seq![decimal(ordinal_of(token)->0)] + collapse(tokens, i + 2)
        } else if token == "s"@ && next_number is Some {
            seq![decimal(next_number->0)] + collapse(tokens, i + 2)
        } else if shorthand_of(token) is Some {
            seq![decimal(shorthand_of(token)->0)] + collapse(tokens, i + 1)
        } else {
            seq![token] + collapse(tokens, i + 1)
        }
    }
}

/// Words joined by single spaces.
pub open spec fn joined(words: Seq<Seq<char>>) -> Seq<char>
    decreases words.len(),
{
    if words.len() == 0 {
        Seq::empty()
    } else if words.len() == 1 {
        words[0]
    } else {
        joined(words.drop_last()) + seq![' '] + words.last()
    }
}

/// The words without a leading "the".
pub open spec fn without_the(tokens: Seq<Seq<char>>) -> Seq<Seq<char>> {
    if tokens.len() > 0 && tokens[0] == seq!['t', 'h', 'e'] {
        tokens.drop_first()
    } else {
        tokens
    }
}

/// Every word with roman numerals as digits.
pub open spec fn romans(tokens: Seq<Seq<char>>) -> Seq<Seq<char>> {
    tokens.map_values(|t: Seq<char>| roman(t))
}

/// The loose form matching compares titles in.
pub open spec fn spec_normalize(title: Seq<char>) -> Seq<char> {
    joined(collapse(without_the(romans(words(cleaned(title)))), 0))
}

pub open spec fn words_view(words: Seq<Vec<char>>) -> Seq<Seq<char>> {
    words.map_values(|w: Vec<char>| w@)
}

fn clean(title: &str) -> (out: Vec<char>)
    ensures
        out@ == cleaned(title@),
{
    let chars = chars_of(title);
    let mut out: Vec<char> = Vec::new();
    let mut i: usize = 0;
    while i < chars.len()
        invariant
            i <= chars@.len(),
            chars@ == title@,
            out@ == cleaned(chars@.take(i as int)),
        decreases chars@.len() - i,
    {
        let c = chars[i];
        let ghost before = out@;
        if c == '&' {
            out.push(' ');
            out.push('a');
            out.push('n');
            out.push('d');
            out.push(' ');
        } else if alphanumeric(c) {
            out.push(to_ascii_lower(c));
        } else {
            out.push(' ');
        }
        assert(chars@.take(i + 1).drop_last() =~= chars@.take(i as int));
        assert(out@ =~= before + clean_piece(c));
        i = i + 1;
    }
    assert(chars@.take(chars@.len() as int) =~= chars@);
    out
}

fn split(s: &[char]) -> (out: Vec<Vec<char>>)
    ensures
        words_view(out@) == words(s@),
{
    let mut out: Vec<Vec<char>> = Vec::new();
    let mut current: Vec<char> = Vec::new();
    let mut i: usize = 0;
    assert(current@ =~= Seq::<char>::empty());
    assert(words_view(out@) =~= Seq::<Seq<char>>::empty());
    while i < s.len()
        invariant
            i <= s@.len(),
            split_words(s@, 0, Seq::empty(), Seq::empty()) == split_words(s@, i as int, current@, words_view(out@)),
        decreases s@.len() - i,
    {
        if s[i] == ' ' {
            if current.len() > 0 {
                let ghost before = words_view(out@);
                let word = current;
                out.push(word);
                assert(words_view(out@) =~= before.push(word@));
                current = Vec::new();
            } else {
                current = Vec::new();
            }
            assert(current@ =~= Seq::<char>::empty());
        } else {
            current.push(s[i]);
        }
        i = i + 1;
    }
    if current.len() > 0 {
        let ghost before = words_view(out@);
        let word = current;
        out.push(word);
        assert(words_view(out@) =~= before.push(word@));
    }
    out
}

fn equals(token: &[char], text: &str) -> (same: bool)
    ensures
        same == (token@ == text@),
{
    let chars = chars_of(text);
    same_chars(token, chars.as_slice())
}

/// A copy of some chars.
fn copy_chars(chars: &[char]) -> (out: Vec<char>)
    ensures
        out@ == chars@,
{
    let mut out: Vec<char> = Vec::new();
    let mut i: usize = 0;
    while i < chars.len()
        invariant
            i <= chars@.len(),
            out@ == chars@.take(i as int),
        decreases chars@.len() - i,
    {
        out.push(chars[i]);
        i = i + 1;
    }
    assert(chars@.take(chars@.len() as int) =~= chars@);
    out
}

fn rewrite_roman(token: &[char]) -> (out: Vec<char>)
    ensures
        out@ == roman(token@),
{
    let rewritten = if same_chars(token, &['i', 'i']) {
        '2'
    } else if same_chars(token, &['i', 'i', 'i']) {
        '3'
    } else if same_chars(token, &['i', 'v']) {
        '4'
    } else if same_chars(token, &['v', 'i']) {
        '6'
    } else if same_chars(token, &['v', 'i', 'i']) {
        '7'
    } else if same_chars(token, &['v', 'i', 'i', 'i']) {
        '8'
    } else if same_chars(token, &['i', 'x']) {
        '9'
    } else {
        return copy_chars(token);
    };
    let mut out: Vec<char> = Vec::new();
    out.push(rewritten);
    out
}

fn ordinal(token: &[char]) -> (n: Option<u32>)
    ensures
        n == ordinal_of(token@),
{
    if equals(token, "1st") || equals(token, "first") {
        Some(1)
    } else if equals(token, "2nd") || equals(token, "second") {
        Some(2)
    } else if equals(token, "3rd") || equals(token, "third") {
        Some(3)
    } else if equals(token, "4th") || equals(token, "fourth") {
        Some(4)
    } else if equals(token, "5th") || equals(token, "fifth") {
        Some(5)
    } else if equals(token, "6th") || equals(token, "sixth") {
        Some(6)
    } else if equals(token, "7th") || equals(token, "seventh") {
        Some(7)
    } else if equals(token, "8th") || equals(token, "eighth") {
        Some(8)
    } else if equals(token, "9th") || equals(token, "ninth") {
        Some(9)
    } else {
        None
    }
}

fn parse_number(token: &[char]) -> (n: Option<u32>)
    ensures
        n == number_of(token@),
{
    if token.len() == 0 {
        return None;
    }
    let mut i: usize = 0;
    while i < token.len()
        invariant
            i <= token@.len(),
            forall|k: int| 0 <= k < i ==> #[trigger] is_ascii_digit(token@[k]),
        decreases token@.len() - i,
    {
        if !digit(token[i]) {
            return None;
        }
        i = i + 1;
    }
    leading_number(token)
}

fn season_shorthand(token: &[char]) -> (n: Option<u32>)
    ensures
        n == shorthand_of(token@),
{
    if token.len() >= 2 && token.len() <= 3 && token[0] == 's' {
        let mut digits: Vec<char> = Vec::new();
        let mut i: usize = 1;
        while i < token.len()
            invariant
                1 <= i <= token@.len(),
                digits@ == token@.subrange(1, i as int),
            decreases token@.len() - i,
        {
            digits.push(token[i]);
            i = i + 1;
        }
        assert(digits@ =~= token@.drop_first());
        parse_number(digits.as_slice())
    } else {
        None
    }
}

fn to_decimal(n: u32) -> (out: Vec<char>)
    ensures
        out@ == decimal(n),
    decreases n,
{
    if n < 10 {
        let mut out: Vec<char> = Vec::new();
        out.push(char_from_ascii(48 + n));
        out
    } else {
        let mut out = to_decimal(n / 10);
        out.push(char_from_ascii(48 + n % 10));
        out
    }
}

/// A char of the loose form's words: an ASCII lower-case letter or a digit.
pub open spec fn loose_char(c: char) -> bool {
    ('a' <= c && c <= 'z') || is_ascii_digit(c)
}

/// A word of the loose form: not empty, of loose chars only.
pub open spec fn loose_word(w: Seq<char>) -> bool {
    w.len() > 0 && forall|i: int| 0 <= i < w.len() ==> loose_char(#[trigger] w[i])
}

pub open spec fn loose_words(ws: Seq<Seq<char>>) -> bool {
    forall|k: int| 0 <= k < ws.len() ==> loose_word(#[trigger] ws[k])
}

/// Loose words separated by single spaces, or nothing at all.
pub open spec fn spaced_words(r: Seq<char>) -> bool {
    &&& forall|i: int| 0 <= i < r.len() ==> #[trigger] r[i] == ' ' || loose_char(r[i])
    &&& r.len() > 0 ==> r[0] != ' ' && r.last() != ' '
    &&& forall|i: int, j: int| #![trigger r[i], r[j]] 0 <= i && j == i + 1 && j < r.len() ==> !(r[i] == ' ' && r[j] == ' ')
}

proof fn lemma_clean_piece_loose(c: char)
    ensures
        forall|i: int| 0 <= i < clean_piece(c).len() ==> #[trigger] clean_piece(c)[i] == ' ' || loose_char(clean_piece(c)[i]),
{
    if c != '&' && is_ascii_alphanumeric(c) && 'A' <= c && c <= 'Z' {
        assert((((c as u32) + 32) as char) as u32 == (c as u32) + 32);
    }
}

proof fn lemma_cleaned_loose(s: Seq<char>)
    ensures
        forall|i: int| 0 <= i < cleaned(s).len() ==> #[trigger] cleaned(s)[i] == ' ' || loose_char(cleaned(s)[i]),
    decreases s.len(),
{
    if s.len() > 0 {
        lemma_cleaned_loose(s.drop_last());
        lemma_clean_piece_loose(s.last());
        let a = cleaned(s.drop_last());
        let b = clean_piece(s.last());
        assert forall|i: int| 0 <= i < cleaned(s).len() implies #[trigger] cleaned(s)[i] == ' ' || loose_char(cleaned(s)[i]) by {
            if i < a.len() {
                assert(cleaned(s)[i] == a[i]);
            } else {
                assert(cleaned(s)[i] == b[i - a.len()]);
            }
        }
    }
}

proof fn lemma_split_loose(s: Seq<char>, i: int, current: Seq<char>, done: Seq<Seq<char>>)
    requires
        forall|k: int| 0 <= k < s.len() ==> #[trigger] s[k] == ' ' || loose_char(s[k]),
        loose_words(done),
        forall|k: int| 0 <= k < current.len() ==> loose_char(#[trigger] current[k]),
    ensures
        loose_words(split_words(s, i, current, done)),
    decreases s.len() - i,
{
    let pushed = if current.len() > 0 { done.push(current) } else { done };
    assert(loose_words(pushed)) by {
        assert forall|k: int| 0 <= k < pushed.len() implies loose_word(#[trigger] pushed[k]) by {
            if k < done.len() {
                assert(pushed[k] == done[k]);
            }
        }
    }
    if i < 0 || i >= s.len() {
    } else if s[i] == ' ' {
        lemma_split_loose(s, i + 1, Seq::empty(), pushed);
    } else {
        let next = current.push(s[i]);
        assert forall|k: int| 0 <= k < next.len() implies loose_char(#[trigger] next[k]) by {
            if k < current.len() {
                assert(next[k] == current[k]);
            }
        }
        lemma_split_loose(s, i + 1, next, done);
    }
}

proof fn lemma_decimal_loose(n: u32)
    ensures
        loose_word(decimal(n)),
    decreases n,
{
    if n >= 10 {
        lemma_decimal_loose(n / 10);
        let a = decimal(n / 10);
        let r = decimal(n);
        assert forall|i: int| 0 <= i < r.len() implies loose_char(#[trigger] r[i]) by {
            if i < a.len() {
                assert(r[i] == a[i]);
            }
        }
    }
}

proof fn lemma_collapse_loose(tokens: Seq<Seq<char>>, i: int)
    requires
        loose_words(tokens),
    ensures
        loose_words(collapse(tokens, i)),
    decreases tokens.len() - i,
{
    if 0 <= i < tokens.len() {
        let token = tokens[i];
        let next = if i + 1 < tokens.len() { Some(tokens[i + 1]) } else { None };
        let next_number = match next {
            Some(t) => number_of(t),
            None => None,
        };
        let (head, from) = if token == "season"@ && next_number is Some {
            lemma_decimal_loose(next_number->0);
            (decimal(next_number->0), i + 2)
        } else if ordinal_of(token) is Some && next == Some("season"@) {
            lemma_decimal_loose(ordinal_of(token)->0);
            (decimal(ordinal_of(token)->0), i + 2)
        } else if token == "s"@ && next_number is Some {
            lemma_decimal_loose(next_number->0);
            (decimal(next_number->0), i + 2)
        } else if shorthand_of(token) is Some {
            lemma_decimal_loose(shorthand_of(token)->0);
            (decimal(shorthand_of(token)->0), i + 1)
        } else {
            (token, i + 1)
        };
        lemma_collapse_loose(tokens, from);
        let rest = collapse(tokens, from);
        assert(collapse(tokens, i) == seq![head] + rest);
        assert forall|k: int| 0 <= k < collapse(tokens, i).len() implies loose_word(#[trigger] collapse(tokens, i)[k]) by {
            if k > 0 {
                assert(collapse(tokens, i)[k] == rest[k - 1]);
            }
        }
    }
}

proof fn lemma_joined_spaced(ws: Seq<Seq<char>>)
    requires
        loose_words(ws),
    ensures
        spaced_words(joined(ws)),
        ws.len() > 0 ==> joined(ws).len() > 0,
    decreases ws.len(),
{
    if ws.len() == 1 {
        assert(loose_word(ws[0]));
    } else if ws.len() > 1 {
        let init = ws.drop_last();
        assert forall|k: int| 0 <= k < init.len() implies loose_word(#[trigger] init[k]) by {
            assert(init[k] == ws[k]);
        }
        lemma_joined_spaced(init);
        let a = joined(init);
        let w = ws.last();
        assert(loose_word(ws[ws.len() - 1]));
        let r = joined(ws);
        assert(r == a + seq![' '] + w);
        let n = a.len() as int;
        assert forall|i: int| 0 <= i < r.len() implies #[trigger] r[i] == ' ' || loose_char(r[i]) by {
            if i < n {
                assert(r[i] == a[i]);
            } else if i > n {
                assert(r[i] == w[i - n - 1]);
            }
        }
        assert(r[0] == a[0]);
        assert(r.last() == w[w.len() - 1]);
        assert forall|i: int, j: int| #![trigger r[i], r[j]] 0 <= i && j == i + 1 && j < r.len() implies !(r[i] == ' '
            && r[j] == ' ') by {
            if j < n {
                assert(r[i] == a[i] && r[j] == a[j]);
            } else if j == n {
                assert(r[i] == a[n - 1]);
            } else if i == n {
                assert(r[j] == w[0]);
            } else {
                assert(r[j] == w[j - n - 1]);
            }
        }
    }
}

proof fn lemma_clean_piece_upper(c: char)
    ensures
        clean_piece(ascii_upper(c)) == clean_piece(c),
{
    if 'a' <= c && c <= 'z' {
        let u = ((c as u32) - 32) as char;
        assert(u as u32 == (c as u32) - 32);
        assert((((u as u32) + 32) as char) as u32 == c as u32);
    }
}

proof fn lemma_cleaned_upper(s: Seq<char>)
    ensures
        cleaned(upper_seq(s)) == cleaned(s),
    decreases s.len(),
{
    if s.len() > 0 {
        assert(upper_seq(s).drop_last() =~= upper_seq(s.drop_last()));
        lemma_cleaned_upper(s.drop_last());
        lemma_clean_piece_upper(s.last());
    }
}

/// Every title folds to lowercase ASCII letters and digits in non-empty
/// words set apart by single spaces, or to nothing; and the fold does not
/// depend on the case of the title's ASCII letters.
pub proof fn lemma_normal_form(title: Seq<char>)
    ensures
        spaced_words(spec_normalize(title)),
        spec_normalize(upper_seq(title)) == spec_normalize(title),
{
    lemma_cleaned_upper(title);
    let c = cleaned(title);
    lemma_cleaned_loose(title);
    lemma_split_loose(c, 0, Seq::empty(), Seq::empty());
    let ws = words(c);
    let rs = romans(ws);
    assert forall|k: int| 0 <= k < rs.len() implies loose_word(#[trigger] rs[k]) by {
        assert(loose_word(ws[k]));
        let t = ws[k];
        assert(rs[k] == roman(t));
        if rs[k] != t {
            assert(forall|i: int| 0 <= i < rs[k].len() ==> is_ascii_digit(#[trigger] rs[k][i]));
        }
    }
    let wt = without_the(rs);
    assert forall|k: int| 0 <= k < wt.len() implies loose_word(#[trigger] wt[k]) by {
        if rs.len() > 0 && rs[0] == seq!['t', 'h', 'e'] {
            assert(wt[k] == rs[k + 1]);
        }
    }
    lemma_collapse_loose(wt, 0);
    lemma_joined_spaced(collapse(wt, 0));
}

/// The units digit `n` spelled in lower-case roman numerals: `i` for one,
/// `iv` for four, `v` and the ones after it from five, `ix` for nine.
pub open spec fn roman_numeral(n: nat) -> Seq<char>
    decreases n,
{
    if n == 0 {
        Seq::empty()
    } else if n == 4 {
        seq!['i', 'v']
    } else if n == 9 {
        seq!['i', 'x']
    } else if n >= 5 {
        seq!['v'] + roman_numeral((n - 5) as nat)
    } else {
        roman_numeral((n - 1) as nat).push('i')
    }
}

proof fn lemma_cleaned_concat(a: Seq<char>, b: Seq<char>)
    ensures
        cleaned(a + b) == cleaned(a) + cleaned(b),
    decreases b.len(),
{
    if b.len() == 0 {
        assert(a + b =~= a);
        assert(cleaned(a) + cleaned(b) =~= cleaned(a));
    } else {
        assert((a + b).drop_last() =~= a + b.drop_last());
        lemma_cleaned_concat(a, b.drop_last());
        assert(cleaned(a + b) =~= cleaned(a) + cleaned(b));
    }
}

/// A word of lower-case letters and digits comes through cleaning as it is.
proof fn lemma_cleaned_loose_word(w: Seq<char>)
    requires
        forall|i: int| 0 <= i < w.len() ==> loose_char(#[trigger] w[i]),
    ensures
        cleaned(w) == w,
    decreases w.len(),
{
    if w.len() > 0 {
        lemma_cleaned_loose_word(w.drop_last());
        let c = w.last();
        assert(loose_char(w[w.len() - 1]));
        assert(clean_piece(c) == seq![c]);
        assert(w.drop_last().push(c) =~= w);
    }
}

/// Reading a spaceless tail into the current word.
proof fn lemma_split_tail(s: Seq<char>, j: int, current: Seq<char>, done: Seq<Seq<char>>)
    requires
        0 <= j <= s.len(),
        forall|i: int| j <= i < s.len() ==> #[trigger] s[i] != ' ',
        current.len() + (s.len() - j) > 0,
    ensures
        split_words(s, j, current, done) == done.push(current + s.skip(j)),
    decreases s.len() - j,
{
    if j == s.len() {
        assert(s.skip(j) =~= Seq::<char>::empty());
        assert(current + s.skip(j) =~= current);
    } else {
        lemma_split_tail(s, j + 1, current.push(s[j]), done);
        assert(current.push(s[j]) + s.skip(j + 1) =~= current + s.skip(j));
    }
}

/// Splitting a text, a space and a word is splitting the text, then the
/// word.
proof fn lemma_split_then_word(c: Seq<char>, w: Seq<char>, i: int, current: Seq<char>, done: Seq<Seq<char>>)
    requires
        0 <= i <= c.len(),
        w.len() > 0,
        forall|k: int| 0 <= k < w.len() ==> #[trigger] w[k] != ' ',
    ensures
        split_words(c + seq![' '] + w, i, current, done) == split_words(c, i, current, done).push(w),
    decreases c.len() - i,
{
    let s = c + seq![' '] + w;
    if i == c.len() {
        let pushed = if current.len() > 0 { done.push(current) } else { done };
        assert(s[i] == ' ');
        assert forall|k: int| i + 1 <= k < s.len() implies #[trigger] s[k] != ' ' by {
            assert(s[k] == w[k - i - 1]);
        }
        lemma_split_tail(s, i + 1, Seq::empty(), pushed);
        assert(Seq::<char>::empty() + s.skip(i + 1) =~= w);
    } else {
        assert(s[i] == c[i]);
        if c[i] == ' ' {
            lemma_split_then_word(c, w, i + 1, Seq::empty(), if current.len() > 0 { done.push(current) } else { done });
        } else {
            lemma_split_then_word(c, w, i + 1, current.push(c[i]), done);
        }
    }
}

/// A roman numeral word from ii to ix reads as the digit of its value,
/// wherever the title puts it last; a lone `v` stays a letter and `i` a
/// word.
pub proof fn lemma_roman_numeral_reads_as_its_value(title: Seq<char>, n: nat)
    requires
        2 <= n <= 9,
        n != 5,
    ensures
        spec_normalize(title + seq![' '] + roman_numeral(n)) == spec_normalize(title + seq![' '] + decimal(n as u32)),
{
    let r = roman_numeral(n);
    let d = decimal(n as u32);
    assert(roman_numeral(0) =~= Seq::<char>::empty());
    assert(roman_numeral(1) =~= seq!['i']);
    assert(roman_numeral(2) =~= seq!['i', 'i']);
    assert(roman_numeral(3) =~= seq!['i', 'i', 'i']);
    assert(roman_numeral(4) =~= seq!['i', 'v']);
    assert(roman_numeral(6) =~= seq!['v', 'i']);
    assert(roman_numeral(7) =~= seq!['v', 'i', 'i']);
    assert(roman_numeral(8) =~= seq!['v', 'i', 'i', 'i']);
    assert(roman_numeral(9) =~= seq!['i', 'x']);
    assert(d =~= seq![digit_char(n as u32)]);
    assert(roman(r) =~= d);
    assert(roman(d) =~= d);
    assert forall|i: int| 0 <= i < r.len() implies loose_char(#[trigger] r[i]) by {}
    assert forall|i: int| 0 <= i < d.len() implies loose_char(#[trigger] d[i]) by {}
    let c = cleaned(title);
    lemma_cleaned_concat(title + seq![' '], r);
    lemma_cleaned_concat(title, seq![' ']);
    lemma_cleaned_concat(title + seq![' '], d);
    lemma_cleaned_loose_word(r);
    lemma_cleaned_loose_word(d);
    assert(cleaned(seq![' ']) =~= seq![' ']) by {
        assert(seq![' '].drop_last() =~= Seq::<char>::empty());
        assert(cleaned(Seq::<char>::empty()) =~= Seq::<char>::empty());
        assert(clean_piece(' ') =~= seq![' ']);
        assert(seq![' '].last() == ' ');
    }
    assert(cleaned(title + seq![' '] + r) == c + seq![' '] + r);
    assert(cleaned(title + seq![' '] + d) == c + seq![' '] + d);
    lemma_split_then_word(c, r, 0, Seq::empty(), Seq::empty());
    lemma_split_then_word(c, d, 0, Seq::empty(), Seq::empty());
    let ws = words(c);
    assert(romans(ws.push(r)) =~= romans(ws).push(roman(r)));
    assert(romans(ws.push(d)) =~= romans(ws).push(roman(d)));
}

/// Folds a title to the loose form matching compares: lowercase ASCII
/// alphanumeric tokens, `&` spelled out, a leading "the" dropped, roman
/// numerals and season phrasings reduced to the bare number.
pub fn normalize_title(title: &str) -> (normal: String)
    ensures
        normal@ == spec_normalize(title@),
{
    let cleaned = clean(title);
    let split = split(cleaned.as_slice());
    let ghost split_words = words_view(split@);
    let mut tokens: Vec<Vec<char>> = Vec::new();
    let mut i: usize = 0;
    while i < split.len()
        invariant
            i <= split@.len(),
            split_words == words_view(split@),
            words_view(tokens@) == romans(split_words.take(i as int)),
        decreases split@.len() - i,
    {
        let ghost before = words_view(tokens@);
        let word = rewrite_roman(split[i].as_slice());
        tokens.push(word);
        assert(words_view(tokens@) =~= before.push(word@));
        assert(split_words.take(i + 1) =~= split_words.take(i as int).push(split_words[i as int]));
        assert(split_words[i as int] == split[i as int]@);
        assert(words_view(tokens@) =~= romans(split_words.take(i + 1)));
        i = i + 1;
    }
    assert(split_words.take(split_words.len() as int) =~= split_words);
    let ghost romans = words_view(tokens@);
    if tokens.len() > 0 && same_chars(tokens[0].as_slice(), &['t', 'h', 'e']) {
        let ghost before = words_view(tokens@);
        tokens.remove(0);
        assert(words_view(tokens@) =~= before.drop_first());
    }
    let ghost ts = words_view(tokens@);
    assert(ts == without_the(romans));
    let mut out: Vec<Vec<char>> = Vec::new();
    let mut i: usize = 0;
    while i < tokens.len()
        invariant
            i <= tokens@.len() + 1,
            ts == words_view(tokens@),
            collapse(ts, 0) == words_view(out@) + collapse(ts, i as int),
        decreases tokens@.len() + 1 - i,
    {
        let token = tokens[i].as_slice();
        let next_number = if i + 1 < tokens.len() {
            parse_number(tokens[i + 1].as_slice())
        } else {
            None
        };
        let next_is_season = i + 1 < tokens.len() && equals(tokens[i + 1].as_slice(), "season");
        let ghost before = words_view(out@);
        let ghost at = i as int;
        assert(ts[i as int] == token@);
        if i + 1 < tokens.len() {
            assert(ts[i + 1] == tokens[i + 1]@);
        }
        let ghost next: Option<Seq<char>> = if i + 1 < tokens.len() {
            Some(ts[i + 1])
        } else {
            None
        };
        assert(next_number == match next {
            Some(t) => number_of(t),
            None => None,
        });
        assert(next_is_season == (next == Some("season"@)));
        if equals(token, "season") && next_number.is_some() {
            let n = match next_number {
                Some(n) => n,
                None => 0,
            };
            out.push(to_decimal(n));
            i = i + 2;
            assert(collapse(ts, at) == seq![decimal(n)] + collapse(ts, at + 2));
        } else if ordinal(token).is_some() && next_is_season {
            let n = match ordinal(token) {
                Some(n) => n,
                None => 0,
            };
            out.push(to_decimal(n));
            i = i + 2;
            assert(collapse(ts, at) == seq![decimal(n)] + collapse(ts, at + 2));
        } else if equals(token, "s") && next_number.is_some() {
            let n = match next_number {
                Some(n) => n,
                None => 0,
            };
            out.push(to_decimal(n));
            i = i + 2;
            assert(collapse(ts, at) == seq![decimal(n)] + collapse(ts, at + 2));
        } else if season_shorthand(token).is_some() {
            let n = match season_shorthand(token) {
                Some(n) => n,
                None => 0,
            };
            out.push(to_decimal(n));
            i = i + 1;
            assert(collapse(ts, at) == seq![decimal(n)] + collapse(ts, at + 1));
        } else {
            out.push(copy_chars(token));
            i = i + 1;
            assert(collapse(ts, at) == seq![ts[at]] + collapse(ts, at + 1));
        }
        assert(words_view(out@) =~= before + seq![words_view(out@).last()]);
    }
    let mut normal = String::new();
    let mut k: usize = 0;
    while k < out.len()
        invariant
            k <= out@.len(),
            normal@ == joined(words_view(out@).take(k as int)),
        decreases out@.len() - k,
    {
        if k > 0 {
            push_char(&mut normal, ' ');
        }
        let ghost before = normal@;
        let word = string_of(out[k].as_slice());
        crate::text::push_str(&mut normal, word.as_str());
        assert(words_view(out@).take(k + 1).drop_last() =~= words_view(out@).take(k as int));
        k = k + 1;
    }
    assert(words_view(out@).take(out@.len() as int) =~= words_view(out@));
    normal
}

pub open spec fn min_nat(a: nat, b: nat) -> nat {
    if a <= b {
        a
    } else {
        b
    }
}

/// The Levenshtein distance: the fewest single-char insertions,
/// deletions and substitutions that turn `a` into `b`.
pub open spec fn lev(a: Seq<char>, b: Seq<char>) -> nat
    decreases a.len() + b.len(),
{
    if a.len() == 0 {
        b.len()
    } else if b.len() == 0 {
        a.len()
    } else {
        let substitution = lev(a.drop_last(), b.drop_last()) + (if a.last() == b.last() {
            0nat
        } else {
            1nat
        });
        min_nat(min_nat(substitution, lev(a.drop_last(), b) + 1), lev(a, b.drop_last()) + 1)
    }
}

/// The distance is never more than the longer length.
pub proof fn lemma_lev_bound(a: Seq<char>, b: Seq<char>)
    ensures
        lev(a, b) <= if a.len() >= b.len() {
            a.len()
        } else {
            b.len()
        },
    decreases a.len() + b.len(),
{
    if a.len() > 0 && b.len() > 0 {
        lemma_lev_bound(a.drop_last(), b.drop_last());
    }
}

/// A title is at distance zero from itself.
pub proof fn lemma_lev_self(a: Seq<char>)
    ensures
        lev(a, a) == 0,
    decreases a.len(),
{
    if a.len() > 0 {
        lemma_lev_self(a.drop_last());
    }
}

/// The distance between two titles.
pub fn levenshtein(a: &[char], b: &[char]) -> (distance: usize)
    ensures
        distance == lev(a@, b@),
{
    let mut prev: Vec<u128> = Vec::new();
    let mut j: usize = 0;
    while j < b.len()
        invariant
            j <= b@.len(),
            prev@.len() == j,
            forall|k: int| 0 <= k < j ==> #[trigger] prev@[k] == lev(Seq::<char>::empty(), b@.take(k)),
        decreases b@.len() - j,
    {
        prev.push(j as u128);
        j = j + 1;
    }
    prev.push(b.len() as u128);
    assert(b@.take(b@.len() as int) =~= b@);
    assert forall|k: int| 0 <= k <= b@.len() implies #[trigger] prev@[k] == lev(a@.take(0), b@.take(k)) by {
        assert(a@.take(0) =~= Seq::<char>::empty());
    }
    let mut i: usize = 0;
    while i < a.len()
        invariant
            i <= a@.len(),
            prev@.len() == b@.len() + 1,
            forall|k: int| 0 <= k <= b@.len() ==> #[trigger] prev@[k] == lev(a@.take(i as int), b@.take(k)),
        decreases a@.len() - i,
    {
        let ghost row = a@.take(i + 1);
        assert(row.drop_last() =~= a@.take(i as int));
        assert(row.last() == a@[i as int]);
        let mut current: Vec<u128> = Vec::new();
        current.push((i + 1) as u128);
        assert(b@.take(0) =~= Seq::<char>::empty());
        let mut j: usize = 0;
        while j < b.len()
            invariant
                i < a@.len(),
                j <= b@.len(),
                row == a@.take(i + 1),
                row.drop_last() == a@.take(i as int),
                row.last() == a@[i as int],
                prev@.len() == b@.len() + 1,
                forall|k: int| 0 <= k <= b@.len() ==> #[trigger] prev@[k] == lev(a@.take(i as int), b@.take(k)),
                current@.len() == j + 1,
                forall|k: int| 0 <= k <= j ==> #[trigger] current@[k] == lev(row, b@.take(k)),
            decreases b@.len() - j,
        {
            let ghost col = b@.take(j + 1);
            assert(col.drop_last() =~= b@.take(j as int));
            assert(col.last() == b@[j as int]);
            let cost: u128 = if a[i] == b[j] {
                0
            } else {
                1
            };
            proof {
                lemma_lev_bound(a@.take(i as int), b@.take(j as int));
                lemma_lev_bound(a@.take(i as int), col);
                lemma_lev_bound(row, b@.take(j as int));
            }
            let substitution = prev[j] + cost;
            let deletion = prev[j + 1] + 1;
            let insertion = current[j] + 1;
            let mut best = substitution;
            if deletion < best {
                best = deletion;
            }
            if insertion < best {
                best = insertion;
            }
            current.push(best);
            j = j + 1;
        }
        prev = current;
        i = i + 1;
    }
    assert(a@.take(a@.len() as int) =~= a@);
    proof {
        lemma_lev_bound(a@, b@);
    }
    prev[b.len()] as usize
}

/// What [`resolve`] decided. An entry and the confidence in it travel in
/// the same variant. A likely match keeps the distance and the length its
/// similarity was decided on, so the caller can report the score.
#[derive(Clone, Copy, Debug, PartialEq, Eq, Structural)]
pub enum Resolution {
    Exact(EntryId),
    Likely { entry: EntryId, distance: usize, longest: usize },
    Unmatched,
}

impl From<Resolution> for Link {
    fn from(resolution: Resolution) -> (link: Link) {
        match resolution {
            Resolution::Exact(entry) => Link::Exact(entry),
            Resolution::Likely { entry, .. } => Link::Likely(entry),
            Resolution::Unmatched => Link::Unmatched,
        }
    }
}

impl vstd::std_specs::convert::FromSpecImpl<Resolution> for Link {
    open spec fn obeys_from_spec() -> bool {
        true
    }

    open spec fn from_spec(resolution: Resolution) -> Link {
        match resolution {
            Resolution::Exact(entry) => Link::Exact(entry),
            Resolution::Likely { entry, .. } => Link::Likely(entry),
            Resolution::Unmatched => Link::Unmatched,
        }
    }
}

/// The index of the first entry at or after `from` whose title folds to
/// `needle`.
pub open spec fn exact_index(library: Seq<LibraryEntry>, needle: Seq<char>, from: int) -> Option<int>
    decreases library.len() - from,
{
    if from < 0 || from >= library.len() {
        None
    } else if spec_normalize(library[from].title@) == needle {
        Some(from)
    } else {
        exact_index(library, needle, from + 1)
    }
}

pub open spec fn longer(a: Seq<char>, b: Seq<char>) -> nat {
    if a.len() >= b.len() {
        a.len()
    } else {
        b.len()
    }
}

/// The closest of the first `n` entries to `needle`, with its distance and
/// the longer length: the first of equally close ones. A closer entry has
/// a smaller distance over its longer length.
pub open spec fn closest(library: Seq<LibraryEntry>, needle: Seq<char>, n: int) -> Option<(int, nat, nat)>
    decreases n,
{
    if n <= 0 || n > library.len() {
        None
    } else {
        let title = spec_normalize(library[n - 1].title@);
        let d = lev(title, needle);
        let l = longer(title, needle);
        match closest(library, needle, n - 1) {
            None => Some((n - 1, d, l)),
            Some((k, top_d, top_l)) => if d * top_l < top_d * l {
                Some((n - 1, d, l))
            } else {
                Some((k, top_d, top_l))
            },
        }
    }
}

/// The matching decision for an already-parsed title: an entry whose title
/// folds to the same form, else for a needle of five chars or more the
/// closest entry when its similarity, one minus the distance over the
/// longer length, is at least 0.85.
pub open spec fn spec_resolve(parsed_title: Seq<char>, library: Seq<LibraryEntry>) -> Resolution {
    let needle = spec_normalize(parsed_title);
    if needle.len() == 0 {
        Resolution::Unmatched
    } else if exact_index(library, needle, 0) is Some {
        Resolution::Exact(library[exact_index(library, needle, 0)->0].id)
    } else if needle.len() < 5 {
        Resolution::Unmatched
    } else {
        match closest(library, needle, library.len() as int) {
            Some((k, d, l)) => if 20 * d <= 3 * l {
                Resolution::Likely { entry: library[k].id, distance: d as usize, longest: l as usize }
            } else {
                Resolution::Unmatched
            },
            None => Resolution::Unmatched,
        }
    }
}

/// The product of two lengths, which cannot overflow.
fn product(a: usize, b: usize) -> (p: u128)
    ensures
        p == a * b,
{
    assert((a as int) * (b as int) <= (u64::MAX as int) * (u64::MAX as int)) by (nonlinear_arith)
        requires
            a <= u64::MAX,
            b <= u64::MAX,
    ;
    (a as u128) * (b as u128)
}

/// The matching decision for an already-parsed title.
pub fn resolve(parsed_title: &str, library: &[LibraryEntry]) -> (resolution: Resolution)
    ensures
        resolution == spec_resolve(parsed_title@, library@),
{
    let normal = normalize_title(parsed_title);
    let needle = chars_of(normal.as_str());
    if needle.len() == 0 {
        return Resolution::Unmatched;
    }
    let ghost lib = library@;
    let ghost goal = spec_normalize(parsed_title@);
    let mut i: usize = 0;
    while i < library.len()
        invariant
            i <= lib.len(),
            lib == library@,
            needle@ == goal,
            normal@ == goal,
            goal.len() > 0,
            goal == spec_normalize(parsed_title@),
            exact_index(lib, goal, 0) == exact_index(lib, goal, i as int),
        decreases lib.len() - i,
    {
        let title = normalize_title(library[i].title.as_str());
        if same_text(title.as_str(), normal.as_str()) {
            assert(lib[i as int] == library[i as int]);
            assert(spec_normalize(lib[i as int].title@) == goal);
            assert(exact_index(lib, goal, i as int) == Some(i as int));
            return Resolution::Exact(library[i].id);
        }
        i = i + 1;
    }
    if needle.len() < 5 {
        return Resolution::Unmatched;
    }
    let mut best: Option<(usize, usize, usize)> = None;
    let mut i: usize = 0;
    while i < library.len()
        invariant
            i <= lib.len(),
            lib == library@,
            needle@ == goal,
            goal.len() >= 5,
            match best {
                Some((k, d, l)) => closest(lib, goal, i as int) == Some((k as int, d as nat, l as nat)) && k < i,
                None => closest(lib, goal, i as int) is None && i == 0,
            },
        decreases lib.len() - i,
    {
        let title = chars_of(normalize_title(library[i].title.as_str()).as_str());
        let d = levenshtein(title.as_slice(), needle.as_slice());
        let l = if title.len() >= needle.len() {
            title.len()
        } else {
            needle.len()
        };
        best = match best {
            None => Some((i, d, l)),
            Some((k, top_d, top_l)) => {
                if product(d, top_l) < product(top_d, l) {
                    Some((i, d, l))
                } else {
                    Some((k, top_d, top_l))
                }
            },
        };
        i = i + 1;
    }
    match best {
        Some((k, d, l)) => {
            if 20 * (d as u128) <= 3 * (l as u128) {
                Resolution::Likely { entry: library[k].id, distance: d, longest: l }
            } else {
                Resolution::Unmatched
            }
        },
        None => Resolution::Unmatched,
    }
}

impl ProposedMatch {
    /// What to call this proposal without a library to consult: the parsed
    /// title, else the raw player title.
    pub open spec fn spec_shown_title(&self) -> Seq<char> {
        if self.parsed_title@.len() == 0 {
            self.raw_title@
        } else {
            self.parsed_title@
        }
    }

    /// The matched entry's title, else the shown title.
    pub open spec fn spec_title_in(&self, library: Seq<LibraryEntry>) -> Seq<char> {
        match self.link.spec_entry() {
            Some(id) => match entry_index(library, id, 0) {
                Some(k) => library[k].title@,
                None => self.spec_shown_title(),
            },
            None => self.spec_shown_title(),
        }
    }

    pub fn shown_title(&self) -> (title: &str)
        ensures
            title@ == self.spec_shown_title(),
    {
        if self.parsed_title.as_str().is_empty() {
            self.raw_title.as_str()
        } else {
            self.parsed_title.as_str()
        }
    }

    /// The matched entry's title, else [`ProposedMatch::shown_title`].
    pub fn title_in<'a>(&'a self, library: &'a [LibraryEntry]) -> (title: &'a str)
        ensures
            title@ == self.spec_title_in(library@),
    {
        match self.link.entry() {
            Some(id) => {
                let mut i: usize = 0;
                while i < library.len()
                    invariant
                        i <= library@.len(),
                        self.link.spec_entry() == Some(id),
                        entry_index(library@, id, 0) == entry_index(library@, id, i as int),
                    decreases library@.len() - i,
                {
                    if library[i].id == id {
                        return library[i].title.as_str();
                    }
                    i = i + 1;
                }
                self.shown_title()
            },
            None => self.shown_title(),
        }
    }
}

/// The index of the first entry at or after `from` with this id.
pub open spec fn entry_index(library: Seq<LibraryEntry>, id: EntryId, from: int) -> Option<int>
    decreases library.len() - from,
{
    if from < 0 || from >= library.len() {
        None
    } else if library[from].id == id {
        Some(from)
    } else {
        entry_index(library, id, from + 1)
    }
}

/// `entry_index` finds the first entry under `id` at or after `from`, and
/// finds one exactly when there is one.
proof fn lemma_entry_index(library: Seq<LibraryEntry>, id: EntryId, from: int)
    requires
        0 <= from,
    ensures
        match entry_index(library, id, from) {
            Some(k) => from <= k < library.len() && library[k].id == id && forall|j: int| from <= j < k ==> library[j].id != id,
            None => forall|j: int| from <= j < library.len() ==> library[j].id != id,
        },
    decreases library.len() - from,
{
    if from < library.len() && library[from].id != id {
        lemma_entry_index(library, id, from + 1);
    }
}

/// A proposal whose link names an entry the library holds is called by the
/// title of the first entry under that id; any other is called by its shown
/// title.
pub proof fn lemma_title_in(proposal: ProposedMatch, library: Seq<LibraryEntry>)
    ensures
        (proposal.link.spec_entry() matches Some(id) && exists|i: int| 0 <= i < library.len() && #[trigger] library[i].id == id)
            ==> exists|k: int|
            #![trigger library[k]]
            0 <= k < library.len() && library[k].id == proposal.link.spec_entry()->0 && (forall|j: int|
                0 <= j < k ==> library[j].id != proposal.link.spec_entry()->0) && proposal.spec_title_in(library)
                == library[k].title@,
        !(proposal.link.spec_entry() matches Some(id) && exists|i: int| 0 <= i < library.len() && #[trigger] library[i].id == id)
            ==> proposal.spec_title_in(library) == proposal.spec_shown_title(),
{
    match proposal.link.spec_entry() {
        Some(id) => {
            lemma_entry_index(library, id, 0);
            match entry_index(library, id, 0) {
                Some(k) => {
                    assert(library[k].id == id);
                },
                None => {},
            }
        },
        None => {},
    }
}

} // verus!
