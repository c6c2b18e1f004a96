//! The names of the reader's rules: a rule's fixture key, its Diagnostics
//! label, and what a fact reports as its reader.

use vstd::prelude::*;

use crate::text::same_text;

verus! {

/// A rule's name. Closed, so a fixture cannot name a rule that does not
/// exist.
#[derive(Clone, Copy, Debug, PartialEq, Eq, Structural, Hash)]
pub enum RuleName {
    /// The extension strip and the file name, read before any rule runs.
    Prelude,
    Preidentified,
    Terms,
    SeasonWord,
    EpisodePrefix,
    VolumePrefix,
    Checksum,
    Resolution,
    Year,
    IsolatedResolution,
    EpisodeInWord,
    VolumeInWord,
    EpisodePair,
    EpisodeVersion,
    EpisodeRange,
    SeasonEpisode,
    EpisodeType,
    EpisodeFraction,
    EpisodePartial,
    EpisodeSign,
    EpisodeCounter,
    /// The passes not yet lifted into rules of their own.
    Legacy,
}

impl RuleName {
    pub const ALL: [RuleName; 22] = [
        RuleName::Prelude,
        RuleName::Preidentified,
        RuleName::Terms,
        RuleName::SeasonWord,
        RuleName::EpisodePrefix,
        RuleName::VolumePrefix,
        RuleName::Checksum,
        RuleName::Resolution,
        RuleName::Year,
        RuleName::IsolatedResolution,
        RuleName::EpisodeInWord,
        RuleName::VolumeInWord,
        RuleName::EpisodePair,
        RuleName::EpisodeVersion,
        RuleName::EpisodeRange,
        RuleName::SeasonEpisode,
        RuleName::EpisodeType,
        RuleName::EpisodeFraction,
        RuleName::EpisodePartial,
        RuleName::EpisodeSign,
        RuleName::EpisodeCounter,
        RuleName::Legacy,
    ];

    pub open spec fn spec_label(self) -> Seq<char> {
        match self {
            RuleName::Prelude => "prelude"@,
            RuleName::Preidentified => "preidentified"@,
            RuleName::Terms => "terms"@,
            RuleName::SeasonWord => "season_word"@,
            RuleName::EpisodePrefix => "episode_prefix"@,
            RuleName::VolumePrefix => "volume_prefix"@,
            RuleName::Checksum => "checksum"@,
            RuleName::Resolution => "resolution"@,
            RuleName::Year => "year"@,
            RuleName::IsolatedResolution => "isolated_resolution"@,
            RuleName::EpisodeInWord => "episode_in_word"@,
            RuleName::VolumeInWord => "volume_in_word"@,
            RuleName::EpisodePair => "episode_pair"@,
            RuleName::EpisodeVersion => "episode_version"@,
            RuleName::EpisodeRange => "episode_range"@,
            RuleName::SeasonEpisode => "season_episode"@,
            RuleName::EpisodeType => "episode_type"@,
            RuleName::EpisodeFraction => "episode_fraction"@,
            RuleName::EpisodePartial => "episode_partial"@,
            RuleName::EpisodeSign => "episode_sign"@,
            RuleName::EpisodeCounter => "episode_counter"@,
            RuleName::Legacy => "legacy"@,
        }
    }

    pub fn label(self) -> (text: &'static str)
        ensures
            text@ == self.spec_label(),
    {
        match self {
            RuleName::Prelude => "prelude",
            RuleName::Preidentified => "preidentified",
            RuleName::Terms => "terms",
            RuleName::SeasonWord => "season_word",
            RuleName::EpisodePrefix => "episode_prefix",
            RuleName::VolumePrefix => "volume_prefix",
            RuleName::Checksum => "checksum",
            RuleName::Resolution => "resolution",
            RuleName::Year => "year",
            RuleName::IsolatedResolution => "isolated_resolution",
            RuleName::EpisodeInWord => "episode_in_word",
            RuleName::VolumeInWord => "volume_in_word",
            RuleName::EpisodePair => "episode_pair",
            RuleName::EpisodeVersion => "episode_version",
            RuleName::EpisodeRange => "episode_range",
            RuleName::SeasonEpisode => "season_episode",
            RuleName::EpisodeType => "episode_type",
            RuleName::EpisodeFraction => "episode_fraction",
            RuleName::EpisodePartial => "episode_partial",
            RuleName::EpisodeSign => "episode_sign",
            RuleName::EpisodeCounter => "episode_counter",
            RuleName::Legacy => "legacy",
        }
    }

    /// Inverse of [`RuleName::label`].
    pub fn from_label(text: &str) -> (found: Option<RuleName>)
        ensures
            match found {
                Some(value) => value.spec_label() == text@,
                None => forall|value: RuleName| value.spec_label() != text@,
            },
    {
        if same_text(text, "prelude") {
            Some(RuleName::Prelude)
        } else if same_text(text, "preidentified") {
            Some(RuleName::Preidentified)
        } else if same_text(text, "terms") {
            Some(RuleName::Terms)
        } else if same_text(text, "season_word") {
            Some(RuleName::SeasonWord)
        } else if same_text(text, "episode_prefix") {
            Some(RuleName::EpisodePrefix)
        } else if same_text(text, "volume_prefix") {
            Some(RuleName::VolumePrefix)
        } else if same_text(text, "checksum") {
            Some(RuleName::Checksum)
        } else if same_text(text, "resolution") {
            Some(RuleName::Resolution)
        } else if same_text(text, "year") {
            Some(RuleName::Year)
        } else if same_text(text, "isolated_resolution") {
            Some(RuleName::IsolatedResolution)
        } else if same_text(text, "episode_in_word") {
            Some(RuleName::EpisodeInWord)
        } else if same_text(text, "volume_in_word") {
            Some(RuleName::VolumeInWord)
        } else if same_text(text, "episode_pair") {
            Some(RuleName::EpisodePair)
        } else if same_text(text, "episode_version") {
            Some(RuleName::EpisodeVersion)
        } else if same_text(text, "episode_range") {
            Some(RuleName::EpisodeRange)
        } else if same_text(text, "season_episode") {
            Some(RuleName::SeasonEpisode)
        } else if same_text(text, "episode_type") {
            Some(RuleName::EpisodeType)
        } else if same_text(text, "episode_fraction") {
            Some(RuleName::EpisodeFraction)
        } else if same_text(text, "episode_partial") {
            Some(RuleName::EpisodePartial)
        } else if same_text(text, "episode_sign") {
            Some(RuleName::EpisodeSign)
        } else if same_text(text, "episode_counter") {
            Some(RuleName::EpisodeCounter)
        } else if same_text(text, "legacy") {
            Some(RuleName::Legacy)
        } else {
            None
        }
    }
}

/// No two rules share a label, so a label read back names the rule that
/// wrote it.
pub proof fn lemma_rule_labels_distinct(a: RuleName, b: RuleName)
    ensures
        a.spec_label() == b.spec_label() ==> a == b,
{
    reveal_strlit("prelude");
    reveal_strlit("preidentified");
    reveal_strlit("terms");
    reveal_strlit("season_word");
    reveal_strlit("episode_prefix");
    reveal_strlit("volume_prefix");
    reveal_strlit("checksum");
    reveal_strlit("resolution");
    reveal_strlit("year");
    reveal_strlit("isolated_resolution");
    reveal_strlit("episode_in_word");
    reveal_strlit("volume_in_word");
    reveal_strlit("episode_pair");
    reveal_strlit("episode_version");
    reveal_strlit("episode_range");
    reveal_strlit("season_episode");
    reveal_strlit("episode_type");
    reveal_strlit("episode_fraction");
    reveal_strlit("episode_partial");
    reveal_strlit("episode_sign");
    reveal_strlit("episode_counter");
    reveal_strlit("legacy");
    assert("prelude"@.len() == 7);
    assert("preidentified"@.len() == 13);
    assert("terms"@.len() == 5);
    assert("season_word"@.len() == 11);
    assert("episode_prefix"@.len() == 14);
    assert("volume_prefix"@.len() == 13);
    assert("checksum"@.len() == 8);
    assert("resolution"@.len() == 10);
    assert("year"@.len() == 4);
    assert("isolated_resolution"@.len() == 19);
    assert("episode_in_word"@.len() == 15);
    assert("volume_in_word"@.len() == 14);
    assert("episode_pair"@.len() == 12);
    assert("episode_version"@.len() == 15);
    assert("episode_range"@.len() == 13);
    assert("season_episode"@.len() == 14);
    assert("episode_type"@.len() == 12);
    assert("episode_fraction"@.len() == 16);
    assert("episode_partial"@.len() == 15);
    assert("episode_sign"@.len() == 12);
    assert("episode_counter"@.len() == 15);
    assert("legacy"@.len() == 6);
    assert("preidentified"@[0] != "volume_prefix"@[0]);
    assert("preidentified"@[0] != "episode_range"@[0]);
    assert("episode_prefix"@[0] != "volume_in_word"@[0]);
    assert("episode_prefix"@[0] != "season_episode"@[0]);
    assert("volume_prefix"@[0] != "episode_range"@[0]);
    assert("episode_in_word"@[8] != "episode_version"@[8]);
    assert("episode_in_word"@[8] != "episode_partial"@[8]);
    assert("episode_in_word"@[8] != "episode_counter"@[8]);
    assert("volume_in_word"@[0] != "season_episode"@[0]);
    assert("episode_pair"@[8] != "episode_type"@[8]);
    assert("episode_pair"@[8] != "episode_sign"@[8]);
    assert("episode_version"@[8] != "episode_partial"@[8]);
    assert("episode_version"@[8] != "episode_counter"@[8]);
    assert("episode_type"@[8] != "episode_sign"@[8]);
    assert("episode_partial"@[8] != "episode_counter"@[8]);
}
} // verus!
