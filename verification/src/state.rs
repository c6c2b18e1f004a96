//! The application state the shells render, the commands they send, and
//! the part of handling a command that touches nothing but that state.

use vstd::prelude::*;

use crate::history::{HistoryId, RecordOutcome};
use crate::library::{EntryId, EpisodeRange, LibraryEntry, NewEntry, WatchStatus};
use crate::matching::ProposedMatch;
use crate::playback::{PlaybackEvent, PlaybackStatus};
use crate::text::{blank, is_blank, same_text};

verus! {

/// Every destination in the navigation pane, in pane order, so the variant
/// list is the pane list. A view reached from a page rather than from the
/// pane is a [`Detail`]. Tags are the navigation item tags.
#[derive(Clone, Copy, Debug, PartialEq, Eq, Structural)]
pub enum Page {
    Library,
    NowPlaying,
    Settings,
}

impl Page {
    pub const ALL: [Page; 3] = [Page::Library, Page::NowPlaying, Page::Settings];

    pub open spec fn spec_tag(self) -> Seq<char> {
        match self {
            Page::Library => "library"@,
            Page::NowPlaying => "now-playing"@,
            Page::Settings => "settings"@,
        }
    }

    pub open spec fn spec_label(self) -> Seq<char> {
        match self {
            Page::Library => "Library"@,
            Page::NowPlaying => "Now playing"@,
            Page::Settings => "Settings"@,
        }
    }

    pub open spec fn spec_from_tag(tag: Seq<char>) -> Option<Page> {
        if tag == "library"@ {
            Some(Page::Library)
        } else if tag == "now-playing"@ {
            Some(Page::NowPlaying)
        } else if tag == "settings"@ {
            Some(Page::Settings)
        } else {
            None
        }
    }

    /// Stable identifier: the navigation item tag.
    pub fn tag(self) -> (tag: &'static str)
        ensures
            tag@ == self.spec_tag(),
    {
        match self {
            Page::Library => "library",
            Page::NowPlaying => "now-playing",
            Page::Settings => "settings",
        }
    }

    /// Inverse of [`Page::tag`].
    pub fn from_tag(tag: &str) -> (found: Option<Page>)
        ensures
            found == Page::spec_from_tag(tag@),
    {
        if same_text(tag, "library") {
            Some(Page::Library)
        } else if same_text(tag, "now-playing") {
            Some(Page::NowPlaying)
        } else if same_text(tag, "settings") {
            Some(Page::Settings)
        } else {
            None
        }
    }

    /// Human-readable label.
    pub fn label(self) -> (label: &'static str)
        ensures
            label@ == self.spec_label(),
    {
        match self {
            Page::Library => "Library",
            Page::NowPlaying => "Now playing",
            Page::Settings => "Settings",
        }
    }
}

/// Reading a page's tag back gives that page.
pub proof fn lemma_page_tags_round_trip(page: Page)
    ensures
        Page::spec_from_tag(page.spec_tag()) == Some(page),
{
    reveal_strlit("library");
    reveal_strlit("now-playing");
    reveal_strlit("settings");
    assert("library"@.len() == 7);
    assert("now-playing"@.len() == 11);
    assert("settings"@.len() == 8);
}

/// A view a page opens over itself. The page underneath stays selected and
/// closing the detail returns to it. Nothing routes to a detail by name, so
/// unlike a [`Page`] it needs no tag.
#[derive(Clone, Copy, Debug, PartialEq, Eq, Structural)]
pub enum Detail {
    Diagnostics,
}

impl Detail {
    /// Human-readable label.
    pub fn label(self) -> (label: &'static str)
        ensures
            label@ == "Diagnostics"@,
    {
        match self {
            Detail::Diagnostics => "Diagnostics",
        }
    }
}

/// Which colour theme the shell should request from the platform, in the
/// order the UI lists them. Tags are written to `settings.toml`.
#[derive(Clone, Copy, Debug, PartialEq, Eq, Structural)]
pub enum ThemePreference {
    /// Follow the operating system setting.
    System,
    Light,
    Dark,
}

impl ThemePreference {
    pub const ALL: [ThemePreference; 3] = [ThemePreference::System, ThemePreference::Light, ThemePreference::Dark];

    pub open spec fn spec_tag(self) -> Seq<char> {
        match self {
            ThemePreference::System => "system"@,
            ThemePreference::Light => "light"@,
            ThemePreference::Dark => "dark"@,
        }
    }

    pub open spec fn spec_label(self) -> Seq<char> {
        match self {
            ThemePreference::System => "System"@,
            ThemePreference::Light => "Light"@,
            ThemePreference::Dark => "Dark"@,
        }
    }

    pub open spec fn spec_from_tag(tag: Seq<char>) -> Option<ThemePreference> {
        if tag == "system"@ {
            Some(ThemePreference::System)
        } else if tag == "light"@ {
            Some(ThemePreference::Light)
        } else if tag == "dark"@ {
            Some(ThemePreference::Dark)
        } else {
            None
        }
    }

    /// Stable identifier, as written to `settings.toml`.
    pub fn tag(self) -> (tag: &'static str)
        ensures
            tag@ == self.spec_tag(),
    {
        match self {
            ThemePreference::System => "system",
            ThemePreference::Light => "light",
            ThemePreference::Dark => "dark",
        }
    }

    /// Inverse of [`ThemePreference::tag`].
    pub fn from_tag(tag: &str) -> (found: Option<ThemePreference>)
        ensures
            found == ThemePreference::spec_from_tag(tag@),
    {
        if same_text(tag, "system") {
            Some(ThemePreference::System)
        } else if same_text(tag, "light") {
            Some(ThemePreference::Light)
        } else if same_text(tag, "dark") {
            Some(ThemePreference::Dark)
        } else {
            None
        }
    }

    /// Human-readable label.
    pub fn label(self) -> (label: &'static str)
        ensures
            label@ == self.spec_label(),
    {
        match self {
            ThemePreference::System => "System",
            ThemePreference::Light => "Light",
            ThemePreference::Dark => "Dark",
        }
    }
}

impl Default for ThemePreference {
    fn default() -> (theme: ThemePreference)
        ensures
            theme == ThemePreference::System,
    {
        ThemePreference::System
    }
}

/// Reading a theme's tag back gives that theme.
pub proof fn lemma_theme_tags_round_trip(theme: ThemePreference)
    ensures
        ThemePreference::spec_from_tag(theme.spec_tag()) == Some(theme),
{
    reveal_strlit("system");
    reveal_strlit("light");
    reveal_strlit("dark");
    assert("system"@.len() == 6);
    assert("light"@.len() == 5);
    assert("dark"@.len() == 4);
}

/// Everything the user can configure, as persisted in `settings.toml`.
#[derive(Clone, Copy, Debug, PartialEq, Eq, Structural)]
pub struct Settings {
    pub theme: ThemePreference,
}

impl Default for Settings {
    fn default() -> (settings: Settings)
        ensures
            settings.theme == ThemePreference::System,
    {
        Settings { theme: ThemePreference::System }
    }
}

/// What the detection side currently reports.
#[derive(Clone, Debug, PartialEq, Eq)]
pub enum NowPlaying {
    /// No player activity.
    Idle,
    /// A player is open but nothing has been identified yet.
    Detecting,
    /// A player reported something with a title.
    Playing {
        title: String,
        player: String,
        status: PlaybackStatus,
        /// Nanoseconds from the start of the item.
        position: u64,
        /// Nanoseconds; zero means unknown.
        duration: u64,
    },
}

impl Default for NowPlaying {
    fn default() -> (now: NowPlaying)
        ensures
            now is Idle,
    {
        NowPlaying::Idle
    }
}

impl NowPlaying {
    /// What the shell shows for one observation: a stopped player is idle,
    /// one without a title is still being identified, and anything else
    /// plays as reported.
    pub fn of(event: &PlaybackEvent) -> (now: NowPlaying)
        ensures
            event.status == PlaybackStatus::Stopped ==> now is Idle,
            event.status != PlaybackStatus::Stopped && is_blank(event.title@) ==> now is Detecting,
            event.status != PlaybackStatus::Stopped && !is_blank(event.title@) ==> (now matches NowPlaying::Playing { title, player, status, position, duration } && title == event.title && player == event.player && status == event.status && position == event.position && duration == event.duration),
    {
        match event.status {
            PlaybackStatus::Stopped => NowPlaying::Idle,
            _ => {
                if blank(event.title.as_str()) {
                    NowPlaying::Detecting
                } else {
                    NowPlaying::Playing {
                        title: event.title.clone(),
                        player: event.player.clone(),
                        status: event.status,
                        position: event.position,
                        duration: event.duration,
                    }
                }
            },
        }
    }
}

/// How far the standing viewing is from being recorded as an episode, and
/// what came of getting there.
#[derive(Clone, Copy, Debug, PartialEq, Eq, Structural)]
pub struct WatchProgress {
    /// Nanoseconds credited as watched so far.
    pub accrued: u64,
    /// Half the episode when its duration is known, else a flat two minutes.
    pub threshold: u64,
    pub outcome: RecordOutcome,
}

/// A progress write that watching is about to cause. The title and player
/// name the proposal it was decided on, since the last match is one row and
/// gets overwritten.
#[derive(Clone, Debug, PartialEq, Eq)]
pub struct NewWatchEvent {
    pub entry: EntryId,
    /// Every episode the file carries; progress moves to its end.
    pub episode: EpisodeRange,
    pub raw_title: String,
    pub player: String,
}

/// One progress write that watching caused, as stored. Rows are never
/// deleted: undoing one marks it and puts `progress_before` back. Times are
/// nanoseconds since the Unix epoch.
#[derive(Clone, Debug, PartialEq, Eq)]
pub struct WatchEvent {
    pub id: HistoryId,
    pub entry: EntryId,
    pub episode: EpisodeRange,
    pub progress_before: u32,
    pub progress: u32,
    pub raw_title: String,
    pub player: String,
    pub at: u64,
    pub undone_at: Option<u64>,
}

/// Everything a shell can ask the core to do.
#[derive(Clone, Debug, PartialEq, Eq)]
pub enum Command {
    /// Selects a pane destination, closing any open detail.
    SelectPage(Page),
    /// Opens a detail over the current page.
    OpenDetail(Detail),
    /// Returns from the open detail to the page under it.
    CloseDetail,
    AddEntry(NewEntry),
    SetProgress { id: EntryId, progress: u32 },
    SetStatus { id: EntryId, status: WatchStatus },
    SetTheme(ThemePreference),
    /// Drops the oldest notice.
    DismissNotice,
    /// A detection strategy or the inject control observed a player.
    Playback(PlaybackEvent),
    /// Creates a Watching entry from the unmatched last proposal and relinks it.
    AddProposedToLibrary,
    /// Takes back a recording: its entry returns to the progress before it.
    UndoRecording(HistoryId),
}

/// Something the shell should surface to the user until dismissed.
#[derive(Clone, Debug, PartialEq, Eq)]
pub enum Notice {
    SaveFailed { detail: String },
    /// `settings.toml` exists but could not be used; the app runs on defaults
    /// and leaves the file alone.
    SettingsUnreadable { detail: String },
    /// The library file was not a readable database. It was moved to
    /// `backup` and a fresh one created.
    LibraryReset { backup: String },
}

/// The whole application state as the shell sees it.
#[derive(Clone, Debug, PartialEq, Eq)]
pub struct AppState {
    pub page: Page,
    /// The detail open over [`AppState::page`], which stays selected under it.
    pub detail: Option<Detail>,
    pub library: Vec<LibraryEntry>,
    pub now_playing: NowPlaying,
    /// The latest playback title's proposal against the library. Survives
    /// restarts via the store.
    pub last_match: Option<ProposedMatch>,
    /// The standing viewing's countdown to a recorded episode and what came
    /// of it, so the shell can show both. `None` when nothing is being
    /// watched.
    pub watch_progress: Option<WatchProgress>,
    pub settings: Settings,
    /// Oldest first; the shell shows the front one.
    pub notices: Vec<Notice>,
}

impl Default for AppState {
    fn default() -> (state: AppState)
        ensures
            state.page == Page::Library,
            state.detail is None,
            state.library@.len() == 0,
            state.now_playing is Idle,
            state.last_match is None,
            state.watch_progress is None,
            state.settings.theme == ThemePreference::System,
            state.notices@.len() == 0,
    {
        AppState {
            page: Page::Library,
            detail: None,
            library: Vec::new(),
            now_playing: NowPlaying::Idle,
            last_match: None,
            watch_progress: None,
            settings: Settings { theme: ThemePreference::System },
            notices: Vec::new(),
        }
    }
}

impl AppState {
    /// Handles a command that only moves the view: the page, the detail
    /// over it, or the front notice. Returns whether `command` was one.
    pub fn navigate(&mut self, command: &Command) -> (handled: bool)
        ensures
            handled == (command is SelectPage || command is OpenDetail || command is CloseDetail
                || command is DismissNotice),
            final(self).library == old(self).library,
            final(self).now_playing == old(self).now_playing,
            final(self).last_match == old(self).last_match,
            final(self).watch_progress == old(self).watch_progress,
            final(self).settings == old(self).settings,
            match *command {
                Command::SelectPage(page) => final(self).page == page && final(self).detail is None
                    && final(self).notices@ == old(self).notices@,
                Command::OpenDetail(detail) => final(self).page == old(self).page && final(self).detail
                    == Some(detail) && final(self).notices@ == old(self).notices@,
                Command::CloseDetail => final(self).page == old(self).page && final(self).detail is None
                    && final(self).notices@ == old(self).notices@,
                Command::DismissNotice => final(self).page == old(self).page && final(self).detail
                    == old(self).detail && final(self).notices@ == if old(self).notices@.len() == 0 {
                    old(self).notices@
                } else {
                    old(self).notices@.drop_first()
                },
                _ => final(self).page == old(self).page && final(self).detail == old(self).detail
                    && final(self).notices@ == old(self).notices@,
            },
    {
        match command {
            Command::SelectPage(page) => {
                self.page = *page;
                self.detail = None;
                true
            },
            Command::OpenDetail(detail) => {
                self.detail = Some(*detail);
                true
            },
            Command::CloseDetail => {
                self.detail = None;
                true
            },
            Command::DismissNotice => {
                if self.notices.len() != 0 {
                    self.notices.remove(0);
                }
                true
            },
            _ => false,
        }
    }
}

/// An error and its causes as one line, outermost first, joined with `": "`.
pub fn chain_text(messages: &[String]) -> (chain: String)
    ensures
        chain@ == joined_chain(messages@),
{
    let mut chain = String::new();
    let mut i: usize = 0;
    while i < messages.len()
        invariant
            i <= messages@.len(),
            chain@ == joined_chain(messages@.take(i as int)),
        decreases messages@.len() - i,
    {
        if i != 0 {
            crate::text::push_str(&mut chain, ": ");
        }
        crate::text::push_str(&mut chain, messages[i].as_str());
        assert(messages@.take(i + 1).drop_last() =~= messages@.take(i as int));
        i = i + 1;
    }
    assert(messages@.take(messages@.len() as int) =~= messages@);
    chain
}

/// Messages joined with `": "`.
pub open spec fn joined_chain(messages: Seq<String>) -> Seq<char>
    decreases messages.len(),
{
    if messages.len() == 0 {
        Seq::empty()
    } else if messages.len() == 1 {
        messages[0]@
    } else {
        joined_chain(messages.drop_last()) + ": "@ + messages.last()@
    }
}

} // verus!
