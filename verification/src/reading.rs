//! What one name says, and how sure the reader is of it.

use vstd::prelude::*;

use crate::element::{ElementKind, Elements, Fact, Span, is_first, has_kind};
use crate::library::EpisodeRange;
use crate::rule::RuleName;
use crate::text::{chars_of, leading_number, push_char, push_str, same_text, spec_leading_number};

verus! {

/// The evidence behind a value, weakest first, so the minimum over a
/// reading's fields is the reading's certainty.
#[derive(Clone, Copy, Debug, PartialEq, Eq, Structural, PartialOrd, Ord, Hash)]
pub enum Certainty {
    /// A reading that displaced another the name also supports; every
    /// guess names what it displaced.
    Guessed,
    /// A shape the corpus settles: a number set off by a dash, a number
    /// alone in brackets, the first bracket group as the release group.
    Shaped,
    /// The name says so: a table term, `Episode 12`, `S02E04`.
    Stated,
}

impl Certainty {
    pub const ALL: [Certainty; 3] = [Certainty::Guessed, Certainty::Shaped, Certainty::Stated];

    /// The place in the order, weakest first.
    pub open spec fn rank(self) -> int {
        match self {
            Certainty::Guessed => 0,
            Certainty::Shaped => 1,
            Certainty::Stated => 2,
        }
    }

    pub open spec fn spec_label(self) -> Seq<char> {
        match self {
            Certainty::Guessed => "guessed"@,
            Certainty::Shaped => "shaped"@,
            Certainty::Stated => "stated"@,
        }
    }

    pub fn label(self) -> (text: &'static str)
        ensures
            text@ == self.spec_label(),
    {
        match self {
            Certainty::Guessed => "guessed",
            Certainty::Shaped => "shaped",
            Certainty::Stated => "stated",
        }
    }

    /// Inverse of [`Certainty::label`].
    pub fn from_label(text: &str) -> (found: Option<Certainty>)
        ensures
            match found {
                Some(value) => value.spec_label() == text@,
                None => forall|value: Certainty| value.spec_label() != text@,
            },
    {
        if same_text(text, "guessed") {
            Some(Certainty::Guessed)
        } else if same_text(text, "shaped") {
            Some(Certainty::Shaped)
        } else if same_text(text, "stated") {
            Some(Certainty::Stated)
        } else {
            None
        }
    }

    /// The weaker of two certainties.
    pub fn weaker(self, other: Certainty) -> (weaker: Certainty)
        ensures
            weaker == (if other.rank() < self.rank() {
                other
            } else {
                self
            }),
    {
        let a = self.position();
        let b = other.position();
        if b < a {
            other
        } else {
            self
        }
    }

    fn position(self) -> (rank: u8)
        ensures
            rank == self.rank(),
    {
        match self {
            Certainty::Guessed => 0,
            Certainty::Shaped => 1,
            Certainty::Stated => 2,
        }
    }
}

/// No two certainties share a label.
pub proof fn lemma_certainty_labels_distinct(a: Certainty, b: Certainty)
    ensures
        a.spec_label() == b.spec_label() ==> a == b,
{
    reveal_strlit("guessed");
    reveal_strlit("shaped");
    reveal_strlit("stated");
    assert("guessed"@.len() == 7);
    assert("shaped"@[1] != "stated"@[1]);
}

/// Knobs for the reader. A document may name only the knobs it changes;
/// the rest keep the defaults.
#[derive(Clone, Debug, PartialEq, Eq)]
pub struct Options {
    /// Characters that may split a token group; `-` is never a delimiter.
    pub allowed_delimiters: String,
    /// Substrings removed from the filename before tokenization.
    pub ignored_strings: Vec<String>,
    pub parse_episode_number: bool,
    pub parse_episode_title: bool,
    pub parse_file_extension: bool,
    pub parse_release_group: bool,
}

/// Two option sets that say the same.
pub open spec fn same_options(a: Options, b: Options) -> bool {
    &&& a.allowed_delimiters@ == b.allowed_delimiters@
    &&& a.ignored_strings@.len() == b.ignored_strings@.len()
    &&& forall|i: int| 0 <= i < a.ignored_strings@.len() ==> (#[trigger] a.ignored_strings@[i])@ == b.ignored_strings@[i]@
    &&& a.parse_episode_number == b.parse_episode_number
    &&& a.parse_episode_title == b.parse_episode_title
    &&& a.parse_file_extension == b.parse_file_extension
    &&& a.parse_release_group == b.parse_release_group
}

impl Options {
    /// A copy that says the same.
    pub fn copy(&self) -> (copy: Options)
        ensures
            same_options(copy, *self),
    {
        let mut ignored: Vec<String> = Vec::new();
        let mut i: usize = 0;
        while i < self.ignored_strings.len()
            invariant
                i <= self.ignored_strings@.len(),
                ignored@.len() == i,
                forall|k: int| 0 <= k < i ==> (#[trigger] ignored@[k])@ == self.ignored_strings@[k]@,
            decreases self.ignored_strings@.len() - i,
        {
            ignored.push(self.ignored_strings[i].clone());
            i = i + 1;
        }
        Options {
            allowed_delimiters: self.allowed_delimiters.clone(),
            ignored_strings: ignored,
            parse_episode_number: self.parse_episode_number,
            parse_episode_title: self.parse_episode_title,
            parse_file_extension: self.parse_file_extension,
            parse_release_group: self.parse_release_group,
        }
    }
}

impl Default for Options {
    fn default() -> (options: Options)
        ensures
            options.allowed_delimiters@ == " _.&+,|"@,
            options.ignored_strings@.len() == 0,
            options.parse_episode_number,
            options.parse_episode_title,
            options.parse_file_extension,
            options.parse_release_group,
    {
        Options {
            allowed_delimiters: " _.&+,|".to_owned(),
            ignored_strings: Vec::new(),
            parse_episode_number: true,
            parse_episode_title: true,
            parse_file_extension: true,
            parse_release_group: true,
        }
    }
}

/// One field of the typed reading: the value, how sure the reader is of
/// it, and the rule that read it.
#[derive(Clone, Debug, PartialEq, Eq)]
pub struct Claim<T> {
    pub value: T,
    pub certainty: Certainty,
    pub by: RuleName,
}

/// One way to read a piece of a name. `kind: None` is the text left where
/// it stands, which for an unenclosed word means a word of the anime title.
#[derive(Clone, Copy, Debug, PartialEq, Eq, Structural)]
pub struct Sense {
    pub kind: Option<ElementKind>,
    pub rule: RuleName,
}

/// A doubt a rule stated, or a value a later rule took back. `Byousoku 5
/// Centimeter` reads `5` as the episode because nothing in the name marks
/// one, and records that `5` is also a word of the title, so Now playing
/// can show the choice instead of a silent guess.
#[derive(Clone, Debug, PartialEq, Eq)]
pub struct Alternative {
    pub span: Span,
    /// The disputed value as the reading holds it: `Ita`, `5`.
    pub text: String,
    pub taken: Sense,
    pub passed: Sense,
}

/// An alternative as the specifications see it.
#[verifier::ext_equal]
pub ghost struct AlternativeView {
    pub span: Span,
    pub text: Seq<char>,
    pub taken: Sense,
    pub passed: Sense,
}

impl View for Alternative {
    type V = AlternativeView;

    open spec fn view(&self) -> AlternativeView {
        AlternativeView { span: self.span, text: self.text@, taken: self.taken, passed: self.passed }
    }
}

/// The views of some alternatives.
pub open spec fn alternatives_view(alternatives: Seq<Alternative>) -> Seq<AlternativeView> {
    alternatives.map_values(|a: Alternative| a@)
}

/// `s` with every `_` as a space.
pub open spec fn underscores_to_spaces(s: Seq<char>) -> Seq<char> {
    s.map_values(|c: char| if c == '_' { ' ' } else { c })
}

/// What else a text could have been, as copy for a shell.
pub open spec fn spec_describe(kind: Option<ElementKind>, text: Seq<char>) -> Seq<char> {
    match kind {
        None => "a word of the title"@,
        Some(ElementKind::AnimeTitle) => "the title"@,
        Some(ElementKind::EpisodeNumber) => "episode "@ + text,
        Some(ElementKind::AnimeSeason) => "season "@ + text,
        Some(ElementKind::AnimeYear) => "the year "@ + text,
        Some(kind) => "the "@ + underscores_to_spaces(kind.spec_label()),
    }
}

impl Alternative {
    /// What else the text could have been, as copy for a shell: `a word of
    /// the title`, `the episode title`. A shell already shows what the text
    /// was taken as, so only the passed sense is described.
    pub fn passed_description(&self) -> (description: String)
        ensures
            description@ == spec_describe(self.passed.kind, self.text@),
    {
        describe(self.passed.kind, self.text.as_str())
    }
}

fn describe(kind: Option<ElementKind>, text: &str) -> (description: String)
    ensures
        description@ == spec_describe(kind, text@),
{
    let mut out = String::new();
    match kind {
        None => push_str(&mut out, "a word of the title"),
        Some(ElementKind::AnimeTitle) => push_str(&mut out, "the title"),
        Some(ElementKind::EpisodeNumber) => {
            push_str(&mut out, "episode ");
            push_str(&mut out, text);
        },
        Some(ElementKind::AnimeSeason) => {
            push_str(&mut out, "season ");
            push_str(&mut out, text);
        },
        Some(ElementKind::AnimeYear) => {
            push_str(&mut out, "the year ");
            push_str(&mut out, text);
        },
        Some(kind) => {
            push_str(&mut out, "the ");
            let label = chars_of(kind.label());
            let ghost start = out@;
            let mut i: usize = 0;
            while i < label.len()
                invariant
                    i <= label@.len(),
                    label@ == kind.spec_label(),
                    out@ == start + underscores_to_spaces(label@.take(i as int)),
                decreases label@.len() - i,
            {
                let c = if label[i] == '_' {
                    ' '
                } else {
                    label[i]
                };
                push_char(&mut out, c);
                i = i + 1;
                assert(out@ =~= start + underscores_to_spaces(label@.take(i as int)));
            }
            assert(label@.take(label@.len() as int) =~= label@);
        },
    }
    assert(out@ =~= spec_describe(kind, text@));
    out
}

/// The facts of one kind, in order.
pub open spec fn facts_of(facts: Seq<Fact>, kind: ElementKind) -> Seq<Fact>
    decreases facts.len(),
{
    if facts.len() == 0 {
        Seq::empty()
    } else {
        let rest = facts_of(facts.drop_last(), kind);
        if facts.last().kind == kind {
            rest.push(facts.last())
        } else {
            rest
        }
    }
}

/// The leading numbers of the facts that have one, in order.
pub open spec fn numbers_of(facts: Seq<Fact>) -> Seq<u32>
    decreases facts.len(),
{
    if facts.len() == 0 {
        Seq::empty()
    } else {
        let rest = numbers_of(facts.drop_last());
        match spec_leading_number(facts.last().value@) {
            Some(n) => rest.push(n),
            None => rest,
        }
    }
}

pub open spec fn seq_min(s: Seq<u32>) -> u32
    decreases s.len(),
{
    if s.len() <= 1 {
        s[0]
    } else {
        let rest = seq_min(s.drop_last());
        if s.last() < rest {
            s.last()
        } else {
            rest
        }
    }
}

pub open spec fn seq_max(s: Seq<u32>) -> u32
    decreases s.len(),
{
    if s.len() <= 1 {
        s[0]
    } else {
        let rest = seq_max(s.drop_last());
        if s.last() > rest {
            s.last()
        } else {
            rest
        }
    }
}

/// The weakest certainty among some facts; `Stated` for none.
pub open spec fn weakest(facts: Seq<Fact>) -> Certainty
    decreases facts.len(),
{
    if facts.len() == 0 {
        Certainty::Stated
    } else {
        let rest = weakest(facts.drop_last());
        if facts.last().certainty.rank() < rest.rank() {
            facts.last().certainty
        } else {
            rest
        }
    }
}

/// The claim a reader makes of a fact's text.
pub open spec fn text_claim_of(fact: Fact) -> (Seq<char>, Certainty, RuleName) {
    (fact.value@, fact.certainty, fact.by)
}

/// What one name says.
///
/// [`Reading::elements`] is the element list; the typed readers beside it
/// are what matching consumes. Each carries the certainty of the rule that
/// read it, and a guessed one is explained by [`Reading::alternatives`].
/// The readers derive from the element list, so there is one record of what
/// the reader found.
#[derive(Clone, Debug, PartialEq, Eq)]
pub struct Reading {
    elements: Elements,
    alternatives: Vec<Alternative>,
    /// An episode was read off a prefix, so a second episode number may be
    /// the same episode under another scheme.
    provisional_episode: bool,
    /// The options this reading was made under; a rule that reads more
    /// than one kind gates each on them.
    options: Options,
}

impl Default for Reading {
    fn default() -> (reading: Reading)
        ensures
            reading.spec_elements().len() == 0,
            reading.spec_alternatives().len() == 0,
            !reading.spec_provisional_episode(),
    {
        Reading::new(Elements::new(), &Options::default())
    }
}

impl Reading {
    pub closed spec fn spec_elements(&self) -> Seq<Fact> {
        self.elements@
    }

    pub closed spec fn spec_alternatives(&self) -> Seq<Alternative> {
        self.alternatives@
    }

    pub closed spec fn spec_provisional_episode(&self) -> bool {
        self.provisional_episode
    }

    pub closed spec fn spec_options(&self) -> Options {
        self.options
    }

    pub fn new(elements: Elements, options: &Options) -> (reading: Reading)
        ensures
            reading.spec_elements() == elements@,
            reading.spec_alternatives().len() == 0,
            !reading.spec_provisional_episode(),
            same_options(reading.spec_options(), *options),
    {
        Reading {
            elements,
            alternatives: Vec::new(),
            provisional_episode: false,
            options: options.copy(),
        }
    }

    /// The options this reading was made under.
    pub fn options(&self) -> (options: &Options)
        ensures
            *options == self.spec_options(),
    {
        &self.options
    }

    pub fn elements(&self) -> (elements: &Elements)
        ensures
            elements@ == self.spec_elements(),
    {
        &self.elements
    }

    pub fn elements_mut(&mut self) -> (elements: &mut Elements)
        ensures
            elements@ == old(self).spec_elements(),
            final(self).spec_elements() == final(elements)@,
            final(self).spec_alternatives() == old(self).spec_alternatives(),
            final(self).spec_provisional_episode() == old(self).spec_provisional_episode(),
            final(self).spec_options() == old(self).spec_options(),
    {
        &mut self.elements
    }

    pub fn push_alternative(&mut self, alternative: Alternative)
        ensures
            final(self).spec_alternatives() == old(self).spec_alternatives().push(alternative),
            final(self).spec_elements() == old(self).spec_elements(),
            final(self).spec_provisional_episode() == old(self).spec_provisional_episode(),
            final(self).spec_options() == old(self).spec_options(),
    {
        self.alternatives.push(alternative);
    }

    pub fn provisional_episode(&self) -> (provisional: bool)
        ensures
            provisional == self.spec_provisional_episode(),
    {
        self.provisional_episode
    }

    pub fn set_provisional_episode(&mut self)
        ensures
            final(self).spec_provisional_episode(),
            final(self).spec_elements() == old(self).spec_elements(),
            final(self).spec_alternatives() == old(self).spec_alternatives(),
            final(self).spec_options() == old(self).spec_options(),
    {
        self.provisional_episode = true;
    }

    pub fn alternatives(&self) -> (alternatives: &[Alternative])
        ensures
            alternatives@ == self.spec_alternatives(),
    {
        self.alternatives.as_slice()
    }

    pub open spec fn spec_text_claim(&self, kind: ElementKind) -> Option<(Seq<char>, Certainty, RuleName)> {
        if has_kind(self.spec_elements(), kind) {
            Some(text_claim_of(self.spec_elements()[choose|i: int| is_first(self.spec_elements(), i, kind)]))
        } else {
            None
        }
    }

    fn text_claim(&self, kind: ElementKind) -> (claim: Option<Claim<&str>>)
        ensures
            match claim {
                Some(claim) => self.spec_text_claim(kind) == Some((claim.value@, claim.certainty, claim.by)),
                None => self.spec_text_claim(kind).is_none(),
            },
    {
        match self.elements.fact(kind) {
            Some(fact) => {
                proof {
                    let i = choose|i: int| is_first(self.spec_elements(), i, kind) && *fact == self.spec_elements()[i];
                    crate::element::lemma_first_unique(self.spec_elements(), i, kind);
                }
                Some(Claim { value: fact.value.as_str(), certainty: fact.certainty, by: fact.by })
            },
            None => None,
        }
    }

    /// The anime title, as the first title fact has it.
    pub fn title(&self) -> (claim: Option<Claim<&str>>)
        ensures
            match claim {
                Some(claim) => self.spec_text_claim(ElementKind::AnimeTitle) == Some((claim.value@, claim.certainty, claim.by)),
                None => self.spec_text_claim(ElementKind::AnimeTitle).is_none(),
            },
    {
        self.text_claim(ElementKind::AnimeTitle)
    }

    pub fn release_group(&self) -> (claim: Option<Claim<&str>>)
        ensures
            match claim {
                Some(claim) => self.spec_text_claim(ElementKind::ReleaseGroup) == Some((claim.value@, claim.certainty, claim.by)),
                None => self.spec_text_claim(ElementKind::ReleaseGroup).is_none(),
            },
    {
        self.text_claim(ElementKind::ReleaseGroup)
    }

    /// Every episode number the name carries, as the span from lowest to
    /// highest, the weakest certainty among the episode facts, and the rule
    /// of the first of them.
    pub open spec fn spec_episodes(&self) -> Option<(EpisodeRange, Certainty, RuleName)> {
        let episodes = facts_of(self.spec_elements(), ElementKind::EpisodeNumber);
        let numbers = numbers_of(episodes);
        if numbers.len() == 0 {
            None
        } else {
            Some(
                (
                    EpisodeRange { start: seq_min(numbers), end: seq_max(numbers) },
                    weakest(episodes),
                    episodes[0].by,
                ),
            )
        }
    }

    /// Every episode number the name carries, as the span from lowest to
    /// highest. A batch like `01-02` reads two values in claim order, so the
    /// ends are the min and max rather than the first and last; a single
    /// episode is a range of one. `EpisodeNumberAlt` is one episode under a
    /// second numbering scheme and never widens the range. The certainty is
    /// the weakest among the values.
    pub fn episodes(&self) -> (claim: Option<Claim<EpisodeRange>>)
        ensures
            match claim {
                Some(claim) => self.spec_episodes() == Some((claim.value, claim.certainty, claim.by)),
                None => self.spec_episodes().is_none(),
            },
    {
        let facts = self.elements.facts();
        let kind = ElementKind::EpisodeNumber;
        let mut have = false;
        let mut low: u32 = 0;
        let mut high: u32 = 0;
        let mut weak = Certainty::Stated;
        let mut first_by: Option<RuleName> = None;
        let mut i: usize = 0;
        while i < facts.len()
            invariant
                i <= facts@.len(),
                facts@ == self.spec_elements(),
                kind == ElementKind::EpisodeNumber,
                ({
                    let episodes = facts_of(facts@.take(i as int), kind);
                    let numbers = numbers_of(episodes);
                    &&& have == (numbers.len() > 0)
                    &&& have ==> low == seq_min(numbers) && high == seq_max(numbers)
                    &&& weak == weakest(episodes)
                    &&& first_by == (if episodes.len() > 0 {
                        Some(episodes[0].by)
                    } else {
                        None
                    })
                }),
            decreases facts@.len() - i,
        {
            let fact = &facts[i];
            let ghost before = facts_of(facts@.take(i as int), kind);
            let ghost next = facts@.take(i + 1);
            assert(next.drop_last() =~= facts@.take(i as int));
            assert(next.last() == facts@[i as int]);
            assert(facts_of(next, kind) == (if next.last().kind == kind {
                facts_of(next.drop_last(), kind).push(next.last())
            } else {
                facts_of(next.drop_last(), kind)
            }));
            if fact.kind == ElementKind::EpisodeNumber {
                let ghost after = before.push(*fact);
                assert(after.drop_last() =~= before);
                let value = chars_of(fact.value.as_str());
                match leading_number(value.as_slice()) {
                    Some(n) => {
                        let ghost nums = numbers_of(before);
                        assert(nums.push(n).drop_last() =~= nums);
                        if !have {
                            low = n;
                            high = n;
                            have = true;
                        } else {
                            if n < low {
                                low = n;
                            }
                            if n > high {
                                high = n;
                            }
                        }
                    },
                    None => {},
                }
                weak = fact.certainty.weaker(weak);
                if first_by.is_none() {
                    first_by = Some(fact.by);
                }
                proof {
                    if before.len() > 0 {
                        assert(after[0] == before[0]);
                    }
                    assert(facts_of(next, kind) == after);
                    assert(after.last() == *fact);
                }
            } else {
                assert(facts_of(next, kind) == before);
            }
            i = i + 1;
        }
        assert(facts@.take(facts@.len() as int) =~= facts@);
        if have {
            match first_by {
                Some(by) => Some(Claim { value: EpisodeRange { start: low, end: high }, certainty: weak, by }),
                None => None,
            }
        } else {
            None
        }
    }

    pub open spec fn spec_season(&self) -> Option<(u32, Certainty, RuleName)> {
        if has_kind(self.spec_elements(), ElementKind::AnimeSeason) {
            let fact = self.spec_elements()[choose|i: int| is_first(self.spec_elements(), i, ElementKind::AnimeSeason)];
            match spec_leading_number(fact.value@) {
                Some(n) => Some((n, fact.certainty, fact.by)),
                None => None,
            }
        } else {
            None
        }
    }

    /// The leading number of the first season value.
    pub fn season(&self) -> (claim: Option<Claim<u32>>)
        ensures
            match claim {
                Some(claim) => self.spec_season() == Some((claim.value, claim.certainty, claim.by)),
                None => self.spec_season().is_none(),
            },
    {
        match self.elements.fact(ElementKind::AnimeSeason) {
            Some(fact) => {
                proof {
                    let i = choose|i: int| is_first(self.spec_elements(), i, ElementKind::AnimeSeason) && *fact == self.spec_elements()[i];
                    crate::element::lemma_first_unique(self.spec_elements(), i, ElementKind::AnimeSeason);
                }
                let value = chars_of(fact.value.as_str());
                match leading_number(value.as_slice()) {
                    Some(n) => Some(Claim { value: n, certainty: fact.certainty, by: fact.by }),
                    None => None,
                }
            },
            None => None,
        }
    }

    /// The weakest certainty among the typed readers that found a value,
    /// so one guess makes the whole reading a guess. `None` when none did.
    pub open spec fn spec_certainty(&self) -> Option<Certainty> {
        weaker_of(
            weaker_of(
                match self.spec_text_claim(ElementKind::AnimeTitle) {
                    Some(c) => Some(c.1),
                    None => None,
                },
                match self.spec_episodes() {
                    Some(c) => Some(c.1),
                    None => None,
                },
            ),
            weaker_of(
                match self.spec_season() {
                    Some(c) => Some(c.1),
                    None => None,
                },
                match self.spec_text_claim(ElementKind::ReleaseGroup) {
                    Some(c) => Some(c.1),
                    None => None,
                },
            ),
        )
    }

    pub fn certainty(&self) -> (certainty: Option<Certainty>)
        ensures
            certainty == self.spec_certainty(),
    {
        let title = match self.title() {
            Some(claim) => Some(claim.certainty),
            None => None,
        };
        let episodes = match self.episodes() {
            Some(claim) => Some(claim.certainty),
            None => None,
        };
        let season = match self.season() {
            Some(claim) => Some(claim.certainty),
            None => None,
        };
        let group = match self.release_group() {
            Some(claim) => Some(claim.certainty),
            None => None,
        };
        weaker_option(weaker_option(title, episodes), weaker_option(season, group))
    }
}

/// The weaker of two optional certainties; a missing one does not count.
pub open spec fn weaker_of(a: Option<Certainty>, b: Option<Certainty>) -> Option<Certainty> {
    match (a, b) {
        (Some(x), Some(y)) => Some(if y.rank() < x.rank() { y } else { x }),
        (Some(x), None) => Some(x),
        (None, Some(y)) => Some(y),
        (None, None) => None,
    }
}

fn weaker_option(a: Option<Certainty>, b: Option<Certainty>) -> (weaker: Option<Certainty>)
    ensures
        weaker == weaker_of(a, b),
{
    match (a, b) {
        (Some(x), Some(y)) => Some(x.weaker(y)),
        (Some(x), None) => Some(x),
        (None, Some(y)) => Some(y),
        (None, None) => None,
    }
}

} // verus!
