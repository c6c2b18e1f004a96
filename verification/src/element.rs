//! The elements a name holds: what kind each is, where in the input it was
//! read, which rule read it and how sure that rule is.

use vstd::prelude::*;
use vstd::string::StringSliceAdditionalSpecFns;

use crate::reading::Certainty;
use crate::rule::RuleName;
use crate::text::same_text;

verus! {

/// A byte range into the string the caller passed to the reader. The
/// reader never rewrites that string, so a span always slices it, and a
/// shell can point at what a rule read.
#[derive(Clone, Copy, Debug, PartialEq, Eq, Structural, Hash)]
pub struct Span {
    pub start: usize,
    pub end: usize,
}

impl Span {
    /// The spanned text. The span must lie on char boundaries of `input`.
    pub fn slice<'a>(&self, input: &'a str) -> (text: &'a str)
        requires
            self.start <= self.end <= input.spec_bytes().len(),
            vstd::utf8::is_char_boundary(input.spec_bytes(), self.start as int),
            vstd::utf8::is_char_boundary(input.spec_bytes(), self.end as int),
        ensures
            text.spec_bytes() == input.spec_bytes().subrange(self.start as int, self.end as int),
    {
        let (head, _) = input.split_at(self.end);
        proof {
            let bytes = input.spec_bytes();
            let prefix = bytes.subrange(0, self.end as int);
            vstd::utf8::encode_utf8_valid_utf8(input@);
            vstd::utf8::valid_utf8_split(bytes, self.end as int);
            assert(head.spec_bytes() == prefix);
            if self.start < self.end {
                vstd::utf8::is_char_boundary_iff_not_is_continuation_byte(bytes, self.start as int);
                vstd::utf8::is_char_boundary_iff_not_is_continuation_byte(prefix, self.start as int);
            } else {
                vstd::utf8::is_char_boundary_start_end_of_seq(prefix);
            }
        }
        let (_, part) = head.split_at(self.start);
        assert(part.spec_bytes() =~= input.spec_bytes().subrange(self.start as int, self.end as int));
        part
    }
}

/// A category of information extracted from a filename.
#[derive(Clone, Copy, Debug, PartialEq, Eq, Structural, Hash)]
pub enum ElementKind {
    AnimeSeason,
    AnimeSeasonPrefix,
    AnimeTitle,
    AnimeType,
    AnimeYear,
    AudioTerm,
    DeviceCompatibility,
    EpisodeNumber,
    EpisodeNumberAlt,
    EpisodePrefix,
    EpisodeTitle,
    FileChecksum,
    FileExtension,
    FileName,
    Language,
    Other,
    ReleaseGroup,
    ReleaseInformation,
    ReleaseVersion,
    Source,
    Subtitles,
    VideoResolution,
    VideoTerm,
    VolumeNumber,
    VolumePrefix,
}

impl ElementKind {
    pub const ALL: [ElementKind; 25] = [
        ElementKind::AnimeSeason,
        ElementKind::AnimeSeasonPrefix,
        ElementKind::AnimeTitle,
        ElementKind::AnimeType,
        ElementKind::AnimeYear,
        ElementKind::AudioTerm,
        ElementKind::DeviceCompatibility,
        ElementKind::EpisodeNumber,
        ElementKind::EpisodeNumberAlt,
        ElementKind::EpisodePrefix,
        ElementKind::EpisodeTitle,
        ElementKind::FileChecksum,
        ElementKind::FileExtension,
        ElementKind::FileName,
        ElementKind::Language,
        ElementKind::Other,
        ElementKind::ReleaseGroup,
        ElementKind::ReleaseInformation,
        ElementKind::ReleaseVersion,
        ElementKind::Source,
        ElementKind::Subtitles,
        ElementKind::VideoResolution,
        ElementKind::VideoTerm,
        ElementKind::VolumeNumber,
        ElementKind::VolumePrefix,
    ];

    pub open spec fn spec_label(self) -> Seq<char> {
        match self {
            ElementKind::AnimeSeason => "anime_season"@,
            ElementKind::AnimeSeasonPrefix => "anime_season_prefix"@,
            ElementKind::AnimeTitle => "anime_title"@,
            ElementKind::AnimeType => "anime_type"@,
            ElementKind::AnimeYear => "anime_year"@,
            ElementKind::AudioTerm => "audio_term"@,
            ElementKind::DeviceCompatibility => "device_compatibility"@,
            ElementKind::EpisodeNumber => "episode_number"@,
            ElementKind::EpisodeNumberAlt => "episode_number_alt"@,
            ElementKind::EpisodePrefix => "episode_prefix"@,
            ElementKind::EpisodeTitle => "episode_title"@,
            ElementKind::FileChecksum => "file_checksum"@,
            ElementKind::FileExtension => "file_extension"@,
            ElementKind::FileName => "file_name"@,
            ElementKind::Language => "language"@,
            ElementKind::Other => "other"@,
            ElementKind::ReleaseGroup => "release_group"@,
            ElementKind::ReleaseInformation => "release_information"@,
            ElementKind::ReleaseVersion => "release_version"@,
            ElementKind::Source => "source"@,
            ElementKind::Subtitles => "subtitles"@,
            ElementKind::VideoResolution => "video_resolution"@,
            ElementKind::VideoTerm => "video_term"@,
            ElementKind::VolumeNumber => "volume_number"@,
            ElementKind::VolumePrefix => "volume_prefix"@,
        }
    }

    pub fn label(self) -> (text: &'static str)
        ensures
            text@ == self.spec_label(),
    {
        match self {
            ElementKind::AnimeSeason => "anime_season",
            ElementKind::AnimeSeasonPrefix => "anime_season_prefix",
            ElementKind::AnimeTitle => "anime_title",
            ElementKind::AnimeType => "anime_type",
            ElementKind::AnimeYear => "anime_year",
            ElementKind::AudioTerm => "audio_term",
            ElementKind::DeviceCompatibility => "device_compatibility",
            ElementKind::EpisodeNumber => "episode_number",
            ElementKind::EpisodeNumberAlt => "episode_number_alt",
            ElementKind::EpisodePrefix => "episode_prefix",
            ElementKind::EpisodeTitle => "episode_title",
            ElementKind::FileChecksum => "file_checksum",
            ElementKind::FileExtension => "file_extension",
            ElementKind::FileName => "file_name",
            ElementKind::Language => "language",
            ElementKind::Other => "other",
            ElementKind::ReleaseGroup => "release_group",
            ElementKind::ReleaseInformation => "release_information",
            ElementKind::ReleaseVersion => "release_version",
            ElementKind::Source => "source",
            ElementKind::Subtitles => "subtitles",
            ElementKind::VideoResolution => "video_resolution",
            ElementKind::VideoTerm => "video_term",
            ElementKind::VolumeNumber => "volume_number",
            ElementKind::VolumePrefix => "volume_prefix",
        }
    }

    /// Inverse of [`ElementKind::label`].
    pub fn from_label(text: &str) -> (found: Option<ElementKind>)
        ensures
            match found {
                Some(value) => value.spec_label() == text@,
                None => forall|value: ElementKind| value.spec_label() != text@,
            },
    {
        if same_text(text, "anime_season") {
            Some(ElementKind::AnimeSeason)
        } else if same_text(text, "anime_season_prefix") {
            Some(ElementKind::AnimeSeasonPrefix)
        } else if same_text(text, "anime_title") {
            Some(ElementKind::AnimeTitle)
        } else if same_text(text, "anime_type") {
            Some(ElementKind::AnimeType)
        } else if same_text(text, "anime_year") {
            Some(ElementKind::AnimeYear)
        } else if same_text(text, "audio_term") {
            Some(ElementKind::AudioTerm)
        } else if same_text(text, "device_compatibility") {
            Some(ElementKind::DeviceCompatibility)
        } else if same_text(text, "episode_number") {
            Some(ElementKind::EpisodeNumber)
        } else if same_text(text, "episode_number_alt") {
            Some(ElementKind::EpisodeNumberAlt)
        } else if same_text(text, "episode_prefix") {
            Some(ElementKind::EpisodePrefix)
        } else if same_text(text, "episode_title") {
            Some(ElementKind::EpisodeTitle)
        } else if same_text(text, "file_checksum") {
            Some(ElementKind::FileChecksum)
        } else if same_text(text, "file_extension") {
            Some(ElementKind::FileExtension)
        } else if same_text(text, "file_name") {
            Some(ElementKind::FileName)
        } else if same_text(text, "language") {
            Some(ElementKind::Language)
        } else if same_text(text, "other") {
            Some(ElementKind::Other)
        } else if same_text(text, "release_group") {
            Some(ElementKind::ReleaseGroup)
        } else if same_text(text, "release_information") {
            Some(ElementKind::ReleaseInformation)
        } else if same_text(text, "release_version") {
            Some(ElementKind::ReleaseVersion)
        } else if same_text(text, "source") {
            Some(ElementKind::Source)
        } else if same_text(text, "subtitles") {
            Some(ElementKind::Subtitles)
        } else if same_text(text, "video_resolution") {
            Some(ElementKind::VideoResolution)
        } else if same_text(text, "video_term") {
            Some(ElementKind::VideoTerm)
        } else if same_text(text, "volume_number") {
            Some(ElementKind::VolumeNumber)
        } else if same_text(text, "volume_prefix") {
            Some(ElementKind::VolumePrefix)
        } else {
            None
        }
    }

    /// A singular kind holds one value per filename, so the terms rule
    /// reads no second one. Rules that read shapes append regardless, as
    /// `[v2]` beside `05v2` makes two release versions.
    pub open spec fn spec_is_singular(self) -> bool {
        !(self == ElementKind::AnimeSeason || self == ElementKind::AnimeType || self
            == ElementKind::AudioTerm || self == ElementKind::DeviceCompatibility || self
            == ElementKind::EpisodeNumber || self == ElementKind::Language || self
            == ElementKind::Other || self == ElementKind::ReleaseInformation || self
            == ElementKind::Source || self == ElementKind::VideoTerm)
    }

    pub fn is_singular(self) -> (singular: bool)
        ensures
            singular == self.spec_is_singular(),
    {
        !(self == ElementKind::AnimeSeason || self == ElementKind::AnimeType || self
            == ElementKind::AudioTerm || self == ElementKind::DeviceCompatibility || self
            == ElementKind::EpisodeNumber || self == ElementKind::Language || self
            == ElementKind::Other || self == ElementKind::ReleaseInformation || self
            == ElementKind::Source || self == ElementKind::VideoTerm)
    }
}

/// One value the reader read, and the evidence behind it: where in the
/// input, which rule, and how sure that rule is.
#[derive(Clone, Debug, PartialEq, Eq)]
pub struct Fact {
    pub kind: ElementKind,
    /// Not always the spanned text as written: `v2` reads as `2`, and a
    /// title's delimiters fold to spaces.
    pub value: String,
    pub span: Span,
    pub by: RuleName,
    pub certainty: Certainty,
}

/// A fact as the specifications see it.
#[verifier::ext_equal]
pub ghost struct FactView {
    pub kind: ElementKind,
    pub value: Seq<char>,
    pub span: Span,
    pub by: RuleName,
    pub certainty: Certainty,
}

impl View for Fact {
    type V = FactView;

    open spec fn view(&self) -> FactView {
        FactView { kind: self.kind, value: self.value@, span: self.span, by: self.by, certainty: self.certainty }
    }
}

/// The views of some facts.
pub open spec fn facts_view(facts: Seq<Fact>) -> Seq<FactView> {
    facts.map_values(|f: Fact| f@)
}

/// `i` is the first fact of `kind`.
pub open spec fn is_first(facts: Seq<Fact>, i: int, kind: ElementKind) -> bool {
    &&& 0 <= i < facts.len()
    &&& facts[i].kind == kind
    &&& forall|j: int| 0 <= j < i ==> #[trigger] facts[j].kind != kind
}

pub open spec fn has_kind(facts: Seq<Fact>, kind: ElementKind) -> bool {
    exists|i: int| 0 <= i < facts.len() && #[trigger] facts[i].kind == kind
}

/// Some fact is of `kind` exactly when the facts hold a value of `kind`:
/// what `contains` says is what `get_all` finds non-empty.
pub proof fn lemma_contains_iff_values(facts: Seq<Fact>, kind: ElementKind)
    ensures
        has_kind(facts, kind) <==> values_of(facts, kind).len() > 0,
    decreases facts.len(),
{
    if facts.len() > 0 {
        let rest = facts.drop_last();
        lemma_contains_iff_values(rest, kind);
        if has_kind(rest, kind) {
            let i = choose|i: int| 0 <= i < rest.len() && #[trigger] rest[i].kind == kind;
            assert(facts[i].kind == kind);
        }
        if has_kind(facts, kind) && facts.last().kind != kind {
            let i = choose|i: int| 0 <= i < facts.len() && #[trigger] facts[i].kind == kind;
            assert(rest[i].kind == kind);
        }
        if facts.last().kind == kind {
            assert(facts[facts.len() - 1].kind == kind);
        }
    }
}

/// There is one first fact of a kind.
pub proof fn lemma_first_unique(facts: Seq<Fact>, i: int, kind: ElementKind)
    requires
        is_first(facts, i, kind),
    ensures
        forall|j: int| is_first(facts, j, kind) ==> j == i,
        has_kind(facts, kind),
        (choose|j: int| is_first(facts, j, kind)) == i,
{
    assert forall|j: int| is_first(facts, j, kind) implies j == i by {
        if j < i {
        } else if j > i {
            assert(facts[i].kind == kind);
        }
    }
    assert(facts[i].kind == kind);
}

/// The values of every fact of `kind`, in order.
pub open spec fn values_of(facts: Seq<Fact>, kind: ElementKind) -> Seq<Seq<char>>
    decreases facts.len(),
{
    if facts.len() == 0 {
        Seq::empty()
    } else {
        let rest = values_of(facts.drop_last(), kind);
        if facts.last().kind == kind {
            rest.push(facts.last().value@)
        } else {
            rest
        }
    }
}

/// `i` is the first fact of `kind` whose value is `value`.
pub open spec fn is_first_with(facts: Seq<Fact>, i: int, kind: ElementKind, value: Seq<char>) -> bool {
    &&& 0 <= i < facts.len()
    &&& facts[i].kind == kind
    &&& facts[i].value@ == value
    &&& forall|j: int| 0 <= j < i ==> !(#[trigger] facts[j].kind == kind && facts[j].value@ == value)
}

/// The elements read out of one name, in the order the rules read them.
/// Never sorted by position: the order of repeated kinds is what the rules
/// claimed, and a pre-identified term comes before one the table matched
/// whatever their places in the name.
#[derive(Clone, Debug, Default, PartialEq, Eq)]
pub struct Elements {
    facts: Vec<Fact>,
}

impl View for Elements {
    type V = Seq<Fact>;

    closed spec fn view(&self) -> Seq<Fact> {
        self.facts@
    }
}

impl Elements {
    pub fn new() -> (elements: Elements)
        ensures
            elements@ == Seq::<Fact>::empty(),
    {
        Elements { facts: Vec::new() }
    }

    fn position_of(&self, kind: ElementKind) -> (position: Option<usize>)
        ensures
            match position {
                Some(i) => is_first(self@, i as int, kind),
                None => !has_kind(self@, kind),
            },
    {
        let mut i: usize = 0;
        while i < self.facts.len()
            invariant
                i <= self@.len(),
                self@ == self.facts@,
                forall|j: int| 0 <= j < i ==> #[trigger] self@[j].kind != kind,
            decreases self@.len() - i,
        {
            if self.facts[i].kind == kind {
                return Some(i);
            }
            i = i + 1;
        }
        None
    }

    /// The value of the first fact of a kind.
    pub fn get(&self, kind: ElementKind) -> (value: Option<&str>)
        ensures
            match value {
                Some(value) => exists|i: int| is_first(self@, i, kind) && value@ == self@[i].value@,
                None => !has_kind(self@, kind),
            },
    {
        match self.position_of(kind) {
            Some(i) => Some(self.facts[i].value.as_str()),
            None => None,
        }
    }

    /// The values of every fact of a kind, in order.
    pub fn get_all(&self, kind: ElementKind) -> (values: Vec<&str>)
        ensures
            values@.len() == values_of(self@, kind).len(),
            forall|i: int| 0 <= i < values@.len() ==> #[trigger] values@[i]@ == values_of(self@, kind)[i],
    {
        let mut values: Vec<&str> = Vec::new();
        let mut i: usize = 0;
        while i < self.facts.len()
            invariant
                i <= self@.len(),
                self@ == self.facts@,
                values@.len() == values_of(self@.take(i as int), kind).len(),
                forall|j: int| 0 <= j < values@.len() ==> #[trigger] values@[j]@ == values_of(self@.take(i as int), kind)[j],
            decreases self@.len() - i,
        {
            assert(self@.take(i + 1).drop_last() =~= self@.take(i as int));
            if self.facts[i].kind == kind {
                values.push(self.facts[i].value.as_str());
            }
            i = i + 1;
        }
        assert(self@.take(self@.len() as int) =~= self@);
        values
    }

    pub fn contains(&self, kind: ElementKind) -> (contains: bool)
        ensures
            contains == has_kind(self@, kind),
    {
        self.position_of(kind).is_some()
    }

    /// Every fact as its kind and value, in order.
    pub fn iter(&self) -> (pairs: Vec<(ElementKind, &str)>)
        ensures
            pairs@.len() == self@.len(),
            forall|i: int| 0 <= i < pairs@.len() ==> (#[trigger] pairs@[i]).0 == self@[i].kind && pairs@[i].1@ == self@[i].value@,
    {
        let mut pairs: Vec<(ElementKind, &str)> = Vec::new();
        let mut i: usize = 0;
        while i < self.facts.len()
            invariant
                i <= self@.len(),
                self@ == self.facts@,
                pairs@.len() == i,
                forall|j: int| 0 <= j < i ==> (#[trigger] pairs@[j]).0 == self@[j].kind && pairs@[j].1@ == self@[j].value@,
            decreases self@.len() - i,
        {
            pairs.push((self.facts[i].kind, self.facts[i].value.as_str()));
            i = i + 1;
        }
        pairs
    }

    pub fn facts(&self) -> (facts: &[Fact])
        ensures
            facts@ == self@,
    {
        self.facts.as_slice()
    }

    /// The first fact of a kind.
    pub fn fact(&self, kind: ElementKind) -> (fact: Option<&Fact>)
        ensures
            match fact {
                Some(fact) => exists|i: int| is_first(self@, i, kind) && *fact == self@[i],
                None => !has_kind(self@, kind),
            },
    {
        match self.position_of(kind) {
            Some(i) => Some(&self.facts[i]),
            None => None,
        }
    }

    pub fn len(&self) -> (len: usize)
        ensures
            len == self@.len(),
    {
        self.facts.len()
    }

    pub fn is_empty(&self) -> (empty: bool)
        ensures
            empty == (self@.len() == 0),
    {
        self.facts.len() == 0
    }

    /// Appends a fact. An empty value is no fact at all.
    pub fn push(&mut self, fact: Fact)
        ensures
            final(self)@ == (if fact.value@.len() == 0 {
                old(self)@
            } else {
                old(self)@.push(fact)
            }),
    {
        if !fact.value.as_str().is_empty() {
            self.facts.push(fact);
        }
    }

    /// The first fact of the kind with this value.
    pub fn first_with(&self, kind: ElementKind, value: &str) -> (found: Option<&Fact>)
        ensures
            match found {
                Some(fact) => exists|i: int| is_first_with(self@, i, kind, value@) && *fact == self@[i],
                None => forall|i: int| !is_first_with(self@, i, kind, value@),
            },
    {
        let mut i: usize = 0;
        while i < self.facts.len()
            invariant
                i <= self@.len(),
                self@ == self.facts@,
                forall|j: int| 0 <= j < i ==> !(#[trigger] self@[j].kind == kind && self@[j].value@ == value@),
            decreases self@.len() - i,
        {
            if self.facts[i].kind == kind && same_text(self.facts[i].value.as_str(), value) {
                assert(is_first_with(self@, i as int, kind, value@));
                return Some(&self.facts[i]);
            }
            i = i + 1;
        }
        None
    }

    /// Drops the first fact of the kind with this value.
    pub fn retract(&mut self, kind: ElementKind, value: &str)
        ensures
            (forall|i: int| !is_first_with(old(self)@, i, kind, value@)) ==> final(self)@ == old(self)@,
            forall|i: int| is_first_with(old(self)@, i, kind, value@) ==> final(self)@ == old(self)@.remove(i),
    {
        let mut i: usize = 0;
        while i < self.facts.len()
            invariant
                i <= self@.len(),
                self@ == self.facts@,
                self@ == old(self)@,
                forall|j: int| 0 <= j < i ==> !(#[trigger] self@[j].kind == kind && self@[j].value@ == value@),
            decreases self@.len() - i,
        {
            if self.facts[i].kind == kind && same_text(self.facts[i].value.as_str(), value) {
                proof {
                    assert(is_first_with(self@, i as int, kind, value@));
                    assert forall|k: int| is_first_with(self@, k, kind, value@) implies k == i by {
                        if k < i {
                        } else if k > i {
                            assert(!(self@[i as int].kind == kind && self@[i as int].value@ == value@));
                        }
                    }
                }
                self.facts.remove(i);
                return;
            }
            i = i + 1;
        }
    }

    /// Gives the first fact of `from` the kind `to`.
    pub fn retag_first(&mut self, from: ElementKind, to: ElementKind)
        ensures
            !has_kind(old(self)@, from) ==> final(self)@ == old(self)@,
            forall|i: int| is_first(old(self)@, i, from) ==> final(self)@ == old(self)@.update(i, Fact { kind: to, ..old(self)@[i] }),
    {
        match self.position_of(from) {
            Some(i) => {
                let mut fact = self.facts.remove(i);
                let ghost removed = fact;
                fact.kind = to;
                self.facts.insert(i, fact);
                proof {
                    assert forall|k: int| is_first(old(self)@, k, from) implies k == i by {
                        if k < i {
                        } else if k > i {
                            assert(old(self)@[i as int].kind == from);
                        }
                    }
                    assert(self@ =~= old(self)@.update(i as int, Fact { kind: to, ..old(self)@[i as int] }));
                }
            },
            None => {},
        }
    }
}

/// No two kinds share a label, so a label read back names the kind that
/// wrote it.
pub proof fn lemma_element_labels_distinct(a: ElementKind, b: ElementKind)
    ensures
        a.spec_label() == b.spec_label() ==> a == b,
{
    reveal_strlit("anime_season");
    reveal_strlit("anime_season_prefix");
    reveal_strlit("anime_title");
    reveal_strlit("anime_type");
    reveal_strlit("anime_year");
    reveal_strlit("audio_term");
    reveal_strlit("device_compatibility");
    reveal_strlit("episode_number");
    reveal_strlit("episode_number_alt");
    reveal_strlit("episode_prefix");
    reveal_strlit("episode_title");
    reveal_strlit("file_checksum");
    reveal_strlit("file_extension");
    reveal_strlit("file_name");
    reveal_strlit("language");
    reveal_strlit("other");
    reveal_strlit("release_group");
    reveal_strlit("release_information");
    reveal_strlit("release_version");
    reveal_strlit("source");
    reveal_strlit("subtitles");
    reveal_strlit("video_resolution");
    reveal_strlit("video_term");
    reveal_strlit("volume_number");
    reveal_strlit("volume_prefix");
    assert("anime_season"@.len() == 12);
    assert("anime_season_prefix"@.len() == 19);
    assert("anime_title"@.len() == 11);
    assert("anime_type"@.len() == 10);
    assert("anime_year"@.len() == 10);
    assert("audio_term"@.len() == 10);
    assert("device_compatibility"@.len() == 20);
    assert("episode_number"@.len() == 14);
    assert("episode_number_alt"@.len() == 18);
    assert("episode_prefix"@.len() == 14);
    assert("episode_title"@.len() == 13);
    assert("file_checksum"@.len() == 13);
    assert("file_extension"@.len() == 14);
    assert("file_name"@.len() == 9);
    assert("language"@.len() == 8);
    assert("other"@.len() == 5);
    assert("release_group"@.len() == 13);
    assert("release_information"@.len() == 19);
    assert("release_version"@.len() == 15);
    assert("source"@.len() == 6);
    assert("subtitles"@.len() == 9);
    assert("video_resolution"@.len() == 16);
    assert("video_term"@.len() == 10);
    assert("volume_number"@.len() == 13);
    assert("volume_prefix"@.len() == 13);
    assert("anime_season_prefix"@[0] != "release_information"@[0]);
    assert("anime_type"@[6] != "anime_year"@[6]);
    assert("anime_type"@[1] != "audio_term"@[1]);
    assert("anime_type"@[0] != "video_term"@[0]);
    assert("anime_year"@[1] != "audio_term"@[1]);
    assert("anime_year"@[0] != "video_term"@[0]);
    assert("audio_term"@[0] != "video_term"@[0]);
    assert("episode_number"@[8] != "episode_prefix"@[8]);
    assert("episode_number"@[0] != "file_extension"@[0]);
    assert("episode_prefix"@[0] != "file_extension"@[0]);
    assert("episode_title"@[0] != "file_checksum"@[0]);
    assert("episode_title"@[0] != "release_group"@[0]);
    assert("episode_title"@[0] != "volume_number"@[0]);
    assert("episode_title"@[0] != "volume_prefix"@[0]);
    assert("file_checksum"@[0] != "release_group"@[0]);
    assert("file_checksum"@[0] != "volume_number"@[0]);
    assert("file_checksum"@[0] != "volume_prefix"@[0]);
    assert("file_name"@[0] != "subtitles"@[0]);
    assert("release_group"@[0] != "volume_number"@[0]);
    assert("release_group"@[0] != "volume_prefix"@[0]);
    assert("volume_number"@[7] != "volume_prefix"@[7]);
}

} // verus!
