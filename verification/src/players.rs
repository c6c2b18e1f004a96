//! The player table: which media players Ryuuji recognises and how each
//! strategy identifies them. A base of known rows (the built-in ones and
//! what discovery found) lies under the rows a person wrote in
//! `players.toml`, and every match reads the two laid together.

use vstd::prelude::*;

use crate::text::{chars_of, contains, contains_text, int_text, lowercase, occurs_at, push_int, push_str, push_u64, same_text, string_of_range, to_lowercase};
use crate::user_file::{
    debug_quote, debug_quoted, get, lookup, parse_toml, spec_trim, strs, toml_parsed, trimmed, unknown_keys, unknown_keys_of,
    TomlEntry, TomlValue,
};

verus! {

/// The shortest pattern a player row may hold. Shorter ones would claim
/// sessions that merely contain them.
pub const MIN_PATTERN_LEN: usize = 3;

pub open spec fn spec_too_short(pattern: Seq<char>) -> bool {
    pattern.len() < MIN_PATTERN_LEN
}

/// Whether `pattern` is too short to identify a player. The one rule every
/// player list is held to, the built-in table's and discovery's included.
pub fn too_short(pattern: &str) -> (short: bool)
    ensures
        short == spec_too_short(pattern@),
{
    let chars = chars_of(pattern);
    chars.len() < MIN_PATTERN_LEN
}

/// The texts of a list, in order.
pub open spec fn texts(list: Seq<String>) -> Seq<Seq<char>> {
    list.map_values(|text: String| text@)
}

pub open spec fn optional_texts(list: Option<Vec<String>>) -> Option<Seq<Seq<char>>> {
    match list {
        Some(list) => Some(texts(list@)),
        None => None,
    }
}

/// A copy of a list of texts.
pub fn copy_texts(list: &[String]) -> (copy: Vec<String>)
    ensures
        texts(copy@) == texts(list@),
{
    let mut copy: Vec<String> = Vec::new();
    let mut i: usize = 0;
    while i < list.len()
        invariant
            i <= list@.len(),
            copy@.len() == i,
            forall|k: int| 0 <= k < i ==> #[trigger] copy@[k]@ == list@[k]@,
        decreases list@.len() - i,
    {
        copy.push(list[i].clone());
        i = i + 1;
    }
    assert(texts(copy@) =~= texts(list@));
    copy
}

/// Whether two lists hold the same texts in the same order.
pub fn same_texts(a: &[String], b: &[String]) -> (same: bool)
    ensures
        same == (texts(a@) == texts(b@)),
{
    if a.len() != b.len() {
        assert(texts(a@).len() != texts(b@).len());
        return false;
    }
    let mut i: usize = 0;
    while i < a.len()
        invariant
            i <= a@.len(),
            a@.len() == b@.len(),
            texts(a@).take(i as int) == texts(b@).take(i as int),
        decreases a@.len() - i,
    {
        if a[i] != b[i] {
            assert(texts(a@)[i as int] != texts(b@)[i as int]);
            return false;
        }
        assert(texts(a@).take(i + 1) =~= texts(b@).take(i + 1)) by {
            assert forall|k: int| 0 <= k < i + 1 implies texts(a@)[k] == texts(b@)[k] by {
                if k < i {
                    assert(texts(a@).take(i as int)[k] == texts(b@).take(i as int)[k]);
                }
            }
        }
        i = i + 1;
    }
    assert(texts(a@).take(a@.len() as int) =~= texts(a@));
    assert(texts(b@).take(b@.len() as int) =~= texts(b@));
    true
}

pub fn same_optional_texts(a: &Option<Vec<String>>, b: &Option<Vec<String>>) -> (same: bool)
    ensures
        same == (optional_texts(*a) == optional_texts(*b)),
{
    match (a, b) {
        (Some(a), Some(b)) => same_texts(a.as_slice(), b.as_slice()),
        (None, None) => true,
        _ => false,
    }
}

/// What a player row says, as text.
pub struct RowView {
    pub name: Seq<char>,
    pub smtc_app_ids: Option<Seq<Seq<char>>>,
    pub mpris_ids: Option<Seq<Seq<char>>>,
    pub executables: Option<Seq<Seq<char>>>,
    pub hidden: bool,
}

/// One `[[player]]` row as the person wrote it. A row named like a known
/// player changes only the lists it writes, so each list keeps "left out"
/// (`None`) apart from "emptied" (`Some` of nothing). Only a read of the
/// person's file makes one, so every row is checked, trimmed and lowercased
/// by the time anyone holds it.
#[derive(Clone, Debug, PartialEq, Eq)]
pub struct PlayerRow {
    pub(crate) name: String,
    pub(crate) smtc_app_ids: Option<Vec<String>>,
    pub(crate) mpris_ids: Option<Vec<String>>,
    pub(crate) executables: Option<Vec<String>>,
    pub(crate) hidden: bool,
}

impl View for PlayerRow {
    type V = RowView;

    closed spec fn view(&self) -> RowView {
        RowView {
            name: self.name@,
            smtc_app_ids: optional_texts(self.smtc_app_ids),
            mpris_ids: optional_texts(self.mpris_ids),
            executables: optional_texts(self.executables),
            hidden: self.hidden,
        }
    }
}

impl PlayerRow {
    /// The rows `text` would load as `players.toml`, without the problems.
    /// Nothing is left if it is not TOML.
    pub fn read_all(text: &str) -> (rows: Vec<PlayerRow>)
        ensures
            rows_view(rows@) == match toml_parsed(text@) {
                Ok(table) => spec_read_players(table).0,
                Err(_) => Seq::empty(),
            },
    {
        match parse_toml(text) {
            Ok(table) => {
                let mut problems: Vec<String> = Vec::new();
                read_players(table.as_slice(), &mut problems)
            },
            Err(_) => {
                let rows: Vec<PlayerRow> = Vec::new();
                assert(rows_view(rows@) =~= Seq::<RowView>::empty());
                rows
            },
        }
    }

    pub fn name(&self) -> (name: &str)
        ensures
            name@ == self@.name,
    {
        self.name.as_str()
    }

    pub fn smtc_app_ids(&self) -> (ids: Option<&[String]>)
        ensures
            match ids {
                Some(ids) => self@.smtc_app_ids == Some(texts(ids@)),
                None => self@.smtc_app_ids is None,
            },
    {
        match &self.smtc_app_ids {
            Some(ids) => Some(ids.as_slice()),
            None => None,
        }
    }

    pub fn mpris_ids(&self) -> (ids: Option<&[String]>)
        ensures
            match ids {
                Some(ids) => self@.mpris_ids == Some(texts(ids@)),
                None => self@.mpris_ids is None,
            },
    {
        match &self.mpris_ids {
            Some(ids) => Some(ids.as_slice()),
            None => None,
        }
    }

    pub fn executables(&self) -> (exes: Option<&[String]>)
        ensures
            match exes {
                Some(exes) => self@.executables == Some(texts(exes@)),
                None => self@.executables is None,
            },
    {
        match &self.executables {
            Some(exes) => Some(exes.as_slice()),
            None => None,
        }
    }

    /// The player is known but never watched.
    pub fn hidden(&self) -> (hidden: bool)
        ensures
            hidden == self@.hidden,
    {
        self.hidden
    }

    /// Whether two rows say the same.
    pub fn same(&self, other: &PlayerRow) -> (same: bool)
        ensures
            same == (self@ == other@),
    {
        same_text(self.name.as_str(), other.name.as_str()) && same_optional_texts(
            &self.smtc_app_ids,
            &other.smtc_app_ids,
        ) && same_optional_texts(&self.mpris_ids, &other.mpris_ids) && same_optional_texts(
            &self.executables,
            &other.executables,
        ) && self.hidden == other.hidden
    }
}

pub open spec fn rows_view(rows: Seq<PlayerRow>) -> Seq<RowView> {
    rows.map_values(|row: PlayerRow| row@)
}

/// Whether two row lists say the same, row by row.
pub fn same_rows(a: &[PlayerRow], b: &[PlayerRow]) -> (same: bool)
    ensures
        same == (rows_view(a@) == rows_view(b@)),
{
    if a.len() != b.len() {
        assert(rows_view(a@).len() != rows_view(b@).len());
        return false;
    }
    let mut i: usize = 0;
    while i < a.len()
        invariant
            i <= a@.len(),
            a@.len() == b@.len(),
            rows_view(a@).take(i as int) == rows_view(b@).take(i as int),
        decreases a@.len() - i,
    {
        if !a[i].same(&b[i]) {
            assert(rows_view(a@)[i as int] != rows_view(b@)[i as int]);
            return false;
        }
        assert(rows_view(a@).take(i + 1) =~= rows_view(b@).take(i + 1)) by {
            assert forall|k: int| 0 <= k < i + 1 implies rows_view(a@)[k] == rows_view(b@)[k] by {
                if k < i {
                    assert(rows_view(a@).take(i as int)[k] == rows_view(b@).take(i as int)[k]);
                }
            }
        }
        i = i + 1;
    }
    assert(rows_view(a@).take(a@.len() as int) =~= rows_view(a@));
    assert(rows_view(b@).take(b@.len() as int) =~= rows_view(b@));
    true
}

/// What the table knows of a player, as text.
pub struct PlayerView {
    pub name: Seq<char>,
    pub smtc_app_ids: Seq<Seq<char>>,
    pub mpris_ids: Seq<Seq<char>>,
    pub executables: Seq<Seq<char>>,
    pub hidden: bool,
}

#[derive(Clone, Debug, PartialEq, Eq)]
pub struct Player {
    pub name: String,
    /// Substrings of the SMTC source app user model id, lowercased so a
    /// match only has to lowercase the app id.
    pub smtc_app_ids: Vec<String>,
    /// What the player calls itself on the session bus: the tail of its
    /// `org.mpris.MediaPlayer2.` name with any `.instance…` suffix cut, or
    /// its desktop entry. Lowercased and matched whole.
    pub mpris_ids: Vec<String>,
    /// File names of the player's executables, lowercased. The foreground
    /// window is tied to a player by this name alone, so two instances of
    /// one player read the same.
    pub executables: Vec<String>,
    /// A person turned the player off. Its sessions are still matched, so
    /// discovery finds the row and does not add the player again, but none
    /// of them is watched.
    pub hidden: bool,
}

impl View for Player {
    type V = PlayerView;

    open spec fn view(&self) -> PlayerView {
        PlayerView {
            name: self.name@,
            smtc_app_ids: texts(self.smtc_app_ids@),
            mpris_ids: texts(self.mpris_ids@),
            executables: texts(self.executables@),
            hidden: self.hidden,
        }
    }
}

pub open spec fn players_view(players: Seq<Player>) -> Seq<PlayerView> {
    players.map_values(|player: Player| player@)
}

/// A player that only has a name.
pub open spec fn bare(name: Seq<char>) -> PlayerView {
    PlayerView {
        name,
        smtc_app_ids: Seq::empty(),
        mpris_ids: Seq::empty(),
        executables: Seq::empty(),
        hidden: false,
    }
}

/// `player` with the lists `row` wrote, emptied ones included, and its
/// hidden mark. The name stays, because history stores it.
pub open spec fn spec_apply(player: PlayerView, row: RowView) -> PlayerView {
    PlayerView {
        name: player.name,
        smtc_app_ids: match row.smtc_app_ids {
            Some(ids) => ids,
            None => player.smtc_app_ids,
        },
        mpris_ids: match row.mpris_ids {
            Some(ids) => ids,
            None => player.mpris_ids,
        },
        executables: match row.executables {
            Some(exes) => exes,
            None => player.executables,
        },
        hidden: row.hidden,
    }
}

/// Whether a player found at runtime is `known`: the same name, or an
/// executable both list.
pub open spec fn spec_is_same(known: PlayerView, other: PlayerView) -> bool {
    ||| known.name == other.name
    ||| exists|i: int, j: int|
        0 <= i < known.executables.len() && 0 <= j < other.executables.len()
            && #[trigger] known.executables[i] == #[trigger] other.executables[j]
}

/// `known` with the lists it left empty taken from `other`, and whether
/// anything was taken.
pub open spec fn spec_fill(known: PlayerView, other: PlayerView) -> (PlayerView, bool) {
    let smtc = known.smtc_app_ids.len() == 0 && other.smtc_app_ids.len() != 0;
    let mpris = known.mpris_ids.len() == 0 && other.mpris_ids.len() != 0;
    let exes = known.executables.len() == 0 && other.executables.len() != 0;
    (
        PlayerView {
            name: known.name,
            smtc_app_ids: if smtc { other.smtc_app_ids } else { known.smtc_app_ids },
            mpris_ids: if mpris { other.mpris_ids } else { known.mpris_ids },
            executables: if exes { other.executables } else { known.executables },
            hidden: known.hidden,
        },
        smtc || mpris || exes,
    )
}

impl Player {
    /// A player that only has a name.
    pub fn named(name: &str) -> (player: Player)
        ensures
            player@ == bare(name@),
    {
        let player = Player {
            name: name.to_owned(),
            smtc_app_ids: Vec::new(),
            mpris_ids: Vec::new(),
            executables: Vec::new(),
            hidden: false,
        };
        assert(texts(player.smtc_app_ids@) =~= Seq::<Seq<char>>::empty());
        assert(texts(player.mpris_ids@) =~= Seq::<Seq<char>>::empty());
        assert(texts(player.executables@) =~= Seq::<Seq<char>>::empty());
        player
    }

    /// A copy of this player.
    pub fn copy(&self) -> (copy: Player)
        ensures
            copy@ == self@,
    {
        Player {
            name: self.name.clone(),
            smtc_app_ids: copy_texts(self.smtc_app_ids.as_slice()),
            mpris_ids: copy_texts(self.mpris_ids.as_slice()),
            executables: copy_texts(self.executables.as_slice()),
            hidden: self.hidden,
        }
    }

    /// Takes the lists `row` wrote, emptied ones included, and whether it is
    /// hidden. The name stays, because history stores it.
    pub fn apply(&mut self, row: &PlayerRow)
        ensures
            final(self)@ == spec_apply(old(self)@, row@),
    {
        if let Some(ids) = row.smtc_app_ids() {
            self.smtc_app_ids = copy_texts(ids);
        }
        if let Some(ids) = row.mpris_ids() {
            self.mpris_ids = copy_texts(ids);
        }
        if let Some(exes) = row.executables() {
            self.executables = copy_texts(exes);
        }
        self.hidden = row.hidden();
    }

    /// Whether a player found at runtime is this row. The name, or a shared
    /// executable: the registry says "Mozilla Firefox" where the row says
    /// "Firefox", and both say `firefox.exe`.
    pub fn is_same(&self, other: &Player) -> (same: bool)
        ensures
            same == spec_is_same(self@, other@),
    {
        if self.name == other.name {
            return true;
        }
        let mut i: usize = 0;
        while i < self.executables.len()
            invariant
                i <= self.executables@.len(),
                self.name@ != other.name@,
                forall|a: int, b: int|
                    0 <= a < i && 0 <= b < other.executables@.len() ==> texts(self.executables@)[a]
                        != texts(other.executables@)[b],
            decreases self.executables@.len() - i,
        {
            let mut j: usize = 0;
            while j < other.executables.len()
                invariant
                    i < self.executables@.len(),
                    j <= other.executables@.len(),
                    forall|b: int|
                        0 <= b < j ==> texts(self.executables@)[i as int] != texts(
                            other.executables@,
                        )[b],
                decreases other.executables@.len() - j,
            {
                if self.executables[i] == other.executables[j] {
                    assert(self@.executables[i as int] == other@.executables[j as int]);
                    return true;
                }
                j = j + 1;
            }
            i = i + 1;
        }
        false
    }

    /// Fills the pattern lists this row left empty from `other`. A list the
    /// row already wrote is never overridden. Returns whether anything was
    /// filled.
    pub fn fill_from(&mut self, other: Player) -> (filled: bool)
        ensures
            (final(self)@, filled) == spec_fill(old(self)@, other@),
    {
        let mut filled = false;
        let Player { smtc_app_ids, mpris_ids, executables, .. } = other;
        if self.smtc_app_ids.len() == 0 && smtc_app_ids.len() != 0 {
            self.smtc_app_ids = smtc_app_ids;
            filled = true;
        }
        if self.mpris_ids.len() == 0 && mpris_ids.len() != 0 {
            self.mpris_ids = mpris_ids;
            filled = true;
        }
        if self.executables.len() == 0 && executables.len() != 0 {
            self.executables = executables;
            filled = true;
        }
        filled
    }
}

/// The first index from `i` on whose player's lowercase name is `name`.
pub open spec fn named_from(players: Seq<PlayerView>, name: Seq<char>, i: int) -> Option<int>
    decreases players.len() - i,
{
    if i < 0 || i >= players.len() {
        None
    } else if lowercase(players[i].name) == name {
        Some(i)
    } else {
        named_from(players, name, i + 1)
    }
}

proof fn lemma_named_from(players: Seq<PlayerView>, name: Seq<char>, i: int)
    ensures
        match named_from(players, name, i) {
            Some(j) => i <= j < players.len() && 0 <= j && lowercase(players[j].name) == name,
            None => true,
        },
    decreases players.len() - i,
{
    if i < 0 || i >= players.len() {
    } else if lowercase(players[i].name) == name {
    } else {
        lemma_named_from(players, name, i + 1);
    }
}

/// The base after the first `k` rows are laid over it, and the players
/// those rows added. A row named like a base player, whatever the case,
/// changes the first such player in place; any other row adds a player of
/// its own.
pub open spec fn layered(base: Seq<PlayerView>, rows: Seq<RowView>, k: int) -> (Seq<PlayerView>, Seq<PlayerView>)
    decreases k,
{
    if k <= 0 {
        (base, Seq::empty())
    } else {
        let (players, added) = layered(base, rows, k - 1);
        let row = rows[k - 1];
        match named_from(players, lowercase(row.name), 0) {
            Some(i) => (players.update(i, spec_apply(players[i], row)), added),
            None => (players, added.push(spec_apply(bare(row.name), row))),
        }
    }
}

/// The rows laid over the base: the players the rows added, in the order
/// written, ahead of the base, so a row wins an id it shares with a base
/// player.
pub open spec fn spec_lay(base: Seq<PlayerView>, rows: Seq<RowView>) -> Seq<PlayerView> {
    let (players, added) = layered(base, rows, rows.len() as int);
    added + players
}

/// A copy of a list of players.
pub fn copy_players(players: &[Player]) -> (copy: Vec<Player>)
    ensures
        players_view(copy@) == players_view(players@),
{
    let mut copy: Vec<Player> = Vec::new();
    let mut i: usize = 0;
    while i < players.len()
        invariant
            i <= players@.len(),
            copy@.len() == i,
            forall|k: int| 0 <= k < i ==> #[trigger] copy@[k]@ == players@[k]@,
        decreases players@.len() - i,
    {
        copy.push(players[i].copy());
        i = i + 1;
    }
    assert(players_view(copy@) =~= players_view(players@));
    copy
}

/// The first player whose lowercase name is `name`.
fn find_named(players: &[Player], name: &str) -> (found: Option<usize>)
    ensures
        match found {
            Some(i) => named_from(players_view(players@), name@, 0) == Some(i as int),
            None => named_from(players_view(players@), name@, 0) is None,
        },
{
    let ghost view = players_view(players@);
    let mut i: usize = 0;
    while i < players.len()
        invariant
            i <= players@.len(),
            view == players_view(players@),
            named_from(view, name@, 0) == named_from(view, name@, i as int),
        decreases players@.len() - i,
    {
        let lower = to_lowercase(players[i].name.as_str());
        if same_text(lower.as_str(), name) {
            return Some(i);
        }
        i = i + 1;
    }
    None
}

/// The base with `rows` laid over it.
fn laid(base: &[Player], rows: &[PlayerRow]) -> (players: Vec<Player>)
    ensures
        players_view(players@) == spec_lay(players_view(base@), rows_view(rows@)),
{
    let ghost base_view = players_view(base@);
    let ghost rows_v = rows_view(rows@);
    let mut players = copy_players(base);
    let mut added: Vec<Player> = Vec::new();
    let mut k: usize = 0;
    while k < rows.len()
        invariant
            k <= rows@.len(),
            base_view == players_view(base@),
            rows_v == rows_view(rows@),
            (players_view(players@), players_view(added@)) == layered(base_view, rows_v, k as int),
        decreases rows@.len() - k,
    {
        let row = &rows[k];
        let name = to_lowercase(row.name());
        let found = find_named(players.as_slice(), name.as_str());
        proof {
            lemma_named_from(players_view(players@), name@, 0);
        }
        match found {
            Some(i) => {
                let mut player = players[i].copy();
                player.apply(row);
                let ghost before = players@;
                players.set(i, player);
                assert(players_view(players@) =~= players_view(before).update(
                    i as int,
                    spec_apply(players_view(before)[i as int], rows_v[k as int]),
                ));
            },
            None => {
                let mut player = Player::named(row.name());
                player.apply(row);
                let ghost before = added@;
                added.push(player);
                assert(players_view(added@) =~= players_view(before).push(
                    spec_apply(bare(rows_v[k as int].name), rows_v[k as int]),
                ));
            },
        }
        k = k + 1;
    }
    let ghost front = added@;
    let ghost back = players@;
    added.append(&mut players);
    assert(players_view(added@) =~= players_view(front) + players_view(back));
    added
}

/// The first index from `i` on that holds a pattern too short to use.
pub open spec fn first_short(list: Seq<Seq<char>>, i: int) -> Option<int>
    decreases list.len() - i,
{
    if i < 0 || i >= list.len() {
        None
    } else if spec_too_short(list[i]) {
        Some(i)
    } else {
        first_short(list, i + 1)
    }
}

proof fn lemma_first_short(list: Seq<Seq<char>>, i: int)
    ensures
        match first_short(list, i) {
            Some(j) => i <= j < list.len() && 0 <= j,
            None => true,
        },
    decreases list.len() - i,
{
    if i < 0 || i >= list.len() {
    } else if spec_too_short(list[i]) {
    } else {
        lemma_first_short(list, i + 1);
    }
}

/// The first list, in the order the lists are checked, that holds a
/// pattern too short to use, with that pattern.
pub open spec fn spec_short_pattern(player: PlayerView) -> Option<(Seq<char>, Seq<char>)> {
    match first_short(player.smtc_app_ids, 0) {
        Some(k) => Some(("smtc_app_ids"@, player.smtc_app_ids[k])),
        None => match first_short(player.mpris_ids, 0) {
            Some(k) => Some(("mpris_ids"@, player.mpris_ids[k])),
            None => match first_short(player.executables, 0) {
                Some(k) => Some(("executables"@, player.executables[k])),
                None => None,
            },
        },
    }
}

/// Why a list of players cannot become a table.
#[derive(Clone, Debug, PartialEq, Eq)]
pub enum TableError {
    ShortPattern { name: String, field: &'static str, pattern: String },
    DuplicateName { name: String },
}

/// Whether `error` says that `player` holds `short`, a pattern too short to
/// use, in the list `short.0`.
pub open spec fn names_short_pattern(error: TableError, player: PlayerView) -> bool {
    match error {
        TableError::ShortPattern { name, field, pattern } => {
            &&& name@ == player.name
            &&& spec_short_pattern(player) == Some((field@, pattern@))
        },
        _ => false,
    }
}

fn find_short(list: &[String]) -> (found: Option<usize>)
    ensures
        match found {
            Some(i) => first_short(texts(list@), 0) == Some(i as int) && i < list@.len(),
            None => first_short(texts(list@), 0) is None,
        },
{
    let ghost view = texts(list@);
    let mut i: usize = 0;
    while i < list.len()
        invariant
            i <= list@.len(),
            view == texts(list@),
            first_short(view, 0) == first_short(view, i as int),
        decreases list@.len() - i,
    {
        if too_short(list[i].as_str()) {
            return Some(i);
        }
        i = i + 1;
    }
    None
}

/// The player, unless one of its lists holds a pattern too short to use.
pub fn check_patterns(player: &Player) -> (checked: Result<(), TableError>)
    ensures
        match checked {
            Ok(()) => spec_short_pattern(player@) is None,
            Err(error) => names_short_pattern(error, player@),
        },
{
    if let Some(k) = find_short(player.smtc_app_ids.as_slice()) {
        return Err(
            TableError::ShortPattern {
                name: player.name.clone(),
                field: "smtc_app_ids",
                pattern: player.smtc_app_ids[k].clone(),
            },
        );
    }
    if let Some(k) = find_short(player.mpris_ids.as_slice()) {
        return Err(
            TableError::ShortPattern {
                name: player.name.clone(),
                field: "mpris_ids",
                pattern: player.mpris_ids[k].clone(),
            },
        );
    }
    if let Some(k) = find_short(player.executables.as_slice()) {
        return Err(
            TableError::ShortPattern {
                name: player.name.clone(),
                field: "executables",
                pattern: player.executables[k].clone(),
            },
        );
    }
    Ok(())
}

/// Every text of a list lowercased.
pub open spec fn lowered_texts(list: Seq<Seq<char>>) -> Seq<Seq<char>> {
    list.map_values(|text: Seq<char>| lowercase(text))
}

/// A player with every pattern lowercased, as the table matches them.
pub open spec fn lowered(player: PlayerView) -> PlayerView {
    PlayerView {
        name: player.name,
        smtc_app_ids: lowered_texts(player.smtc_app_ids),
        mpris_ids: lowered_texts(player.mpris_ids),
        executables: lowered_texts(player.executables),
        hidden: player.hidden,
    }
}

fn lowercase_list(list: &mut Vec<String>)
    ensures
        texts(final(list)@) == lowered_texts(texts(old(list)@)),
{
    let ghost before = texts(list@);
    let mut lowered: Vec<String> = Vec::new();
    let mut i: usize = 0;
    while i < list.len()
        invariant
            i <= list@.len(),
            before == texts(list@),
            lowered@.len() == i,
            forall|k: int| 0 <= k < i ==> #[trigger] lowered@[k]@ == lowercase(list@[k]@),
        decreases list@.len() - i,
    {
        lowered.push(to_lowercase(list[i].as_str()));
        i = i + 1;
    }
    assert(texts(lowered@) =~= lowered_texts(before));
    *list = lowered;
}

fn lowercase_patterns(player: &mut Player)
    ensures
        final(player)@ == lowered(old(player)@),
{
    lowercase_list(&mut player.smtc_app_ids);
    lowercase_list(&mut player.mpris_ids);
    lowercase_list(&mut player.executables);
}

/// Whether a player before `i` carries the same name as the one at `i`.
pub open spec fn named_earlier(players: Seq<PlayerView>, i: int) -> bool {
    exists|j: int| 0 <= j < i && #[trigger] players[j].name == players[i].name
}

/// The first player from `i` on that cannot join a table: one holding a
/// pattern too short to use, or one named like a player before it.
pub open spec fn first_unfit(players: Seq<PlayerView>, i: int) -> Option<int>
    decreases players.len() - i,
{
    if i < 0 || i >= players.len() {
        None
    } else if spec_short_pattern(players[i]) is Some || named_earlier(players, i) {
        Some(i)
    } else {
        first_unfit(players, i + 1)
    }
}

/// What the table holds, as text.
pub struct TableView {
    /// The known rows: built in, and what discovery found.
    pub base: Seq<PlayerView>,
    /// The rows the person wrote.
    pub rows: Seq<RowView>,
    /// The base with the rows laid over it, which every match reads.
    pub players: Seq<PlayerView>,
}

/// The players Ryuuji recognises, in two layers, as Windows Terminal keeps
/// its profiles. The base holds the built-in rows and what discovery found,
/// and the person's rows lie over it. Discovery reads and writes the base
/// alone, so a person's row can neither mislead it nor be refilled by it.
pub struct PlayerTable {
    base: Vec<Player>,
    rows: Vec<PlayerRow>,
    players: Vec<Player>,
}

impl View for PlayerTable {
    type V = TableView;

    closed spec fn view(&self) -> TableView {
        TableView {
            base: players_view(self.base@),
            rows: rows_view(self.rows@),
            players: players_view(self.players@),
        }
    }
}

impl PlayerTable {
    /// The players every match reads are the rows laid over the base.
    pub open spec fn wf(&self) -> bool {
        self@.players == spec_lay(self@.base, self@.rows)
    }

    /// A table of `base` with no rows over it.
    pub fn of(base: Vec<Player>) -> (table: PlayerTable)
        ensures
            table.wf(),
            table@.base == players_view(base@),
            table@.rows.len() == 0,
    {
        let players = copy_players(base.as_slice());
        let table = PlayerTable { base, rows: Vec::new(), players };
        assert(rows_view(table.rows@) =~= Seq::<RowView>::empty());
        assert(spec_lay(players_view(table.base@), Seq::<RowView>::empty()) =~= players_view(table.base@));
        table
    }

    /// The table a list of players makes: each is checked in order, its
    /// patterns lowercased once all pass. A pattern too short to use, or a
    /// name given twice, refuses the whole list.
    pub fn from_players(players: Vec<Player>) -> (table: Result<PlayerTable, TableError>)
        ensures
            match table {
                Ok(table) => {
                    &&& first_unfit(players_view(players@), 0) is None
                    &&& table.wf()
                    &&& table@.base == players_view(players@).map_values(|p: PlayerView| lowered(p))
                    &&& table@.rows.len() == 0
                },
                Err(error) => match first_unfit(players_view(players@), 0) {
                    Some(i) => if spec_short_pattern(players_view(players@)[i]) is Some {
                        names_short_pattern(error, players_view(players@)[i])
                    } else {
                        error matches TableError::DuplicateName { name } && name@ == players_view(
                            players@,
                        )[i].name
                    },
                    None => false,
                },
            },
    {
        let ghost view = players_view(players@);
        let mut index: usize = 0;
        while index < players.len()
            invariant
                index <= players@.len(),
                view == players_view(players@),
                first_unfit(view, 0) == first_unfit(view, index as int),
            decreases players@.len() - index,
        {
            let player = &players[index];
            if let Err(error) = check_patterns(player) {
                return Err(error);
            }
            let mut j: usize = 0;
            while j < index
                invariant
                    j <= index < players@.len(),
                    view == players_view(players@),
                    spec_short_pattern(view[index as int]) is None,
                    first_unfit(view, 0) == first_unfit(view, index as int),
                    forall|e: int| 0 <= e < j ==> view[e].name != view[index as int].name,
                decreases index - j,
            {
                if players[j].name == players[index].name {
                    assert(view[j as int].name == view[index as int].name);
                    assert(named_earlier(view, index as int));
                    assert(first_unfit(view, index as int) == Some(index as int));
                    return Err(TableError::DuplicateName { name: players[index].name.clone() });
                }
                j = j + 1;
            }
            assert(!named_earlier(view, index as int));
            index = index + 1;
        }
        let mut lowered_players: Vec<Player> = Vec::new();
        let mut players = players;
        let mut k: usize = 0;
        while k < players.len()
            invariant
                k <= players@.len(),
                view == players_view(players@),
                lowered_players@.len() == k,
                forall|i: int| 0 <= i < k ==> #[trigger] lowered_players@[i]@ == lowered(view[i]),
            decreases players@.len() - k,
        {
            let mut player = players[k].copy();
            lowercase_patterns(&mut player);
            lowered_players.push(player);
            k = k + 1;
        }
        assert(players_view(lowered_players@) =~= view.map_values(|p: PlayerView| lowered(p)));
        Ok(PlayerTable::of(lowered_players))
    }

    /// The table with the person's `rows` laid over its base in place of the
    /// rows it had.
    pub fn with_rows(self, rows: Vec<PlayerRow>) -> (table: PlayerTable)
        ensures
            table.wf(),
            table@.base == self@.base,
            table@.rows == rows_view(rows@),
    {
        let players = laid(self.base.as_slice(), rows.as_slice());
        PlayerTable { base: self.base, rows, players }
    }

    /// Lays `rows` over the base in place of the rows it had. Returns
    /// whether they differed; the same rows again change nothing.
    pub fn set_rows(&mut self, rows: Vec<PlayerRow>) -> (changed: bool)
        requires
            old(self).wf(),
        ensures
            final(self).wf(),
            final(self)@.base == old(self)@.base,
            changed == (rows_view(rows@) != old(self)@.rows),
            changed ==> final(self)@.rows == rows_view(rows@),
            !changed ==> final(self)@ == old(self)@,
    {
        if same_rows(rows.as_slice(), self.rows.as_slice()) {
            return false;
        }
        self.players = laid(self.base.as_slice(), rows.as_slice());
        self.rows = rows;
        true
    }

    /// The players every match reads, in match order.
    pub fn players(&self) -> (players: &[Player])
        ensures
            players_view(players@) == self@.players,
    {
        self.players.as_slice()
    }

    /// The known rows under the person's.
    pub fn base(&self) -> (base: &[Player])
        ensures
            players_view(base@) == self@.base,
    {
        self.base.as_slice()
    }
}

/// The first player from `i` on that a player found at runtime is.
pub open spec fn first_same(players: Seq<PlayerView>, found: PlayerView, i: int) -> Option<int>
    decreases players.len() - i,
{
    if i < 0 || i >= players.len() {
        None
    } else if spec_is_same(players[i], found) {
        Some(i)
    } else {
        first_same(players, found, i + 1)
    }
}

proof fn lemma_first_same(players: Seq<PlayerView>, found: PlayerView, i: int)
    ensures
        match first_same(players, found, i) {
            Some(j) => i <= j < players.len() && 0 <= j,
            None => true,
        },
    decreases players.len() - i,
{
    if i < 0 || i >= players.len() {
    } else if spec_is_same(players[i], found) {
    } else {
        lemma_first_same(players, found, i + 1);
    }
}

/// The first player from `i` on holding a pattern too short to use.
pub open spec fn first_short_player(players: Seq<PlayerView>, i: int) -> Option<int>
    decreases players.len() - i,
{
    if i < 0 || i >= players.len() {
        None
    } else if spec_short_pattern(players[i]) is Some {
        Some(i)
    } else {
        first_short_player(players, i + 1)
    }
}

/// The base after the first `k` players found at runtime joined it, and how
/// many rows that appended or filled. One the base knows, by name or by a
/// shared executable, fills only the lists its row left empty; any other is
/// appended after the rows already there.
pub open spec fn extended(base: Seq<PlayerView>, found: Seq<PlayerView>, k: int) -> (Seq<PlayerView>, int)
    decreases k,
{
    if k <= 0 {
        (base, 0)
    } else {
        let (players, changed) = extended(base, found, k - 1);
        let player = lowered(found[k - 1]);
        match first_same(players, player, 0) {
            Some(i) => {
                let (filled, did) = spec_fill(players[i], player);
                (players.update(i, filled), if did { changed + 1 } else { changed })
            },
            None => (players.push(player), changed + 1),
        }
    }
}

fn find_same(players: &[Player], found: &Player) -> (same: Option<usize>)
    ensures
        match same {
            Some(i) => first_same(players_view(players@), found@, 0) == Some(i as int),
            None => first_same(players_view(players@), found@, 0) is None,
        },
{
    let ghost view = players_view(players@);
    let mut i: usize = 0;
    while i < players.len()
        invariant
            i <= players@.len(),
            view == players_view(players@),
            first_same(view, found@, 0) == first_same(view, found@, i as int),
        decreases players@.len() - i,
    {
        if players[i].is_same(found) {
            return Some(i);
        }
        i = i + 1;
    }
    None
}

impl PlayerTable {
    /// Adds players found at runtime to the base, then lays the person's
    /// rows over it again. One the base does not know is appended after the
    /// built-in entries, so a built-in entry still wins a match. One it
    /// knows, by name or by a shared executable, fills only the pattern
    /// lists its row left empty: a row written for one platform is completed
    /// by the other's discovery, never shadowed, and a built-in pattern list
    /// is never overridden. A short pattern rejects the whole batch. Returns
    /// how many rows were appended or filled.
    pub fn extend(&mut self, players: Vec<Player>) -> (changed: Result<usize, TableError>)
        requires
            old(self).wf(),
        ensures
            final(self).wf(),
            final(self)@.rows == old(self)@.rows,
            match changed {
                Ok(changed) => {
                    &&& first_short_player(players_view(players@), 0) is None
                    &&& (final(self)@.base, changed as int) == extended(
                        old(self)@.base,
                        players_view(players@),
                        players@.len() as int,
                    )
                },
                Err(error) => {
                    &&& final(self)@ == old(self)@
                    &&& match first_short_player(players_view(players@), 0) {
                        Some(i) => names_short_pattern(error, players_view(players@)[i]),
                        None => false,
                    }
                },
            },
    {
        let ghost found = players_view(players@);
        let mut index: usize = 0;
        while index < players.len()
            invariant
                index <= players@.len(),
                found == players_view(players@),
                first_short_player(found, 0) == first_short_player(found, index as int),
                self@ == old(self)@,
                self.wf(),
            decreases players@.len() - index,
        {
            if let Err(error) = check_patterns(&players[index]) {
                return Err(error);
            }
            index = index + 1;
        }
        let ghost start = players_view(self.base@);
        let ghost rows = rows_view(self.rows@);
        let mut changed: usize = 0;
        let mut k: usize = 0;
        while k < players.len()
            invariant
                k <= players@.len(),
                found == players_view(players@),
                rows == rows_view(self.rows@),
                self@.players == spec_lay(start, rows),
                changed <= k,
                (players_view(self.base@), changed as int) == extended(start, found, k as int),
                changed == 0 ==> players_view(self.base@) == start,
            decreases players@.len() - k,
        {
            let mut player = players[k].copy();
            lowercase_patterns(&mut player);
            let same = find_same(self.base.as_slice(), &player);
            proof {
                lemma_first_same(players_view(self.base@), player@, 0);
            }
            let ghost before = players_view(self.base@);
            match same {
                Some(i) => {
                    let mut known = self.base[i].copy();
                    let did = known.fill_from(player);
                    self.base.set(i, known);
                    assert(players_view(self.base@) =~= before.update(i as int, spec_fill(before[i as int], lowered(found[k as int])).0)) by {
                    }
                    if did {
                        changed = changed + 1;
                    } else {
                        assert(players_view(self.base@) =~= before);
                    }
                },
                None => {
                    self.base.push(player);
                    assert(players_view(self.base@) =~= before.push(lowered(found[k as int])));
                    changed = changed + 1;
                },
            }
            k = k + 1;
        }
        if changed > 0 {
            self.players = laid(self.base.as_slice(), self.rows.as_slice());
        }
        Ok(changed)
    }
}

/// The first player from `i` on that `claims`.
pub open spec fn first_where(players: Seq<PlayerView>, claims: spec_fn(PlayerView) -> bool, i: int) -> Option<int>
    decreases players.len() - i,
{
    if i < 0 || i >= players.len() {
        None
    } else if claims(players[i]) {
        Some(i)
    } else {
        first_where(players, claims, i + 1)
    }
}

proof fn lemma_first_where(players: Seq<PlayerView>, claims: spec_fn(PlayerView) -> bool, i: int)
    ensures
        match first_where(players, claims, i) {
            Some(j) => i <= j < players.len() && 0 <= j && claims(players[j]),
            None => true,
        },
    decreases players.len() - i,
{
    if i < 0 || i >= players.len() {
    } else if claims(players[i]) {
    } else {
        lemma_first_where(players, claims, i + 1);
    }
}

/// Whether one of the player's SMTC patterns occurs in the lowercased app
/// id.
pub open spec fn claims_app_id(player: PlayerView, app_id: Seq<char>) -> bool {
    exists|k: int| 0 <= k < player.smtc_app_ids.len() && contains_text(app_id, #[trigger] player.smtc_app_ids[k])
}

/// The bus name prefix every MPRIS player's name starts with.
pub open spec fn mpris_prefix() -> Seq<char> {
    "org.mpris.MediaPlayer2."@
}

/// The first place from `i` on where `pattern` occurs in `text`.
pub open spec fn first_at(text: Seq<char>, pattern: Seq<char>, i: int) -> Option<int>
    decreases text.len() + 1 - i,
{
    if i < 0 || i > text.len() {
        None
    } else if occurs_at(text, pattern, i) {
        Some(i)
    } else {
        first_at(text, pattern, i + 1)
    }
}

pub proof fn lemma_first_at(text: Seq<char>, pattern: Seq<char>, i: int)
    ensures
        match first_at(text, pattern, i) {
            Some(j) => i <= j && occurs_at(text, pattern, j),
            None => true,
        },
    decreases text.len() + 1 - i,
{
    if i < 0 || i > text.len() {
    } else if occurs_at(text, pattern, i) {
    } else {
        lemma_first_at(text, pattern, i + 1);
    }
}

/// What a bus name says its player calls itself: the tail after the
/// well-known prefix, cut before any `.instance` suffix, lowercased; `None`
/// for a name without the prefix.
pub open spec fn bus_tail(bus_name: Seq<char>) -> Option<Seq<char>> {
    let prefix = mpris_prefix();
    if bus_name.len() >= prefix.len() && bus_name.take(prefix.len() as int) == prefix {
        let tail = bus_name.skip(prefix.len() as int);
        Some(
            lowercase(
                match first_at(tail, ".instance"@, 0) {
                    Some(at) => tail.take(at),
                    None => tail,
                },
            ),
        )
    } else {
        None
    }
}

/// Whether one of the player's MPRIS ids is the bus tail, or the desktop
/// entry when there is one.
pub open spec fn claims_mpris(player: PlayerView, tail: Seq<char>, entry: Option<Seq<char>>) -> bool {
    exists|k: int|
        0 <= k < player.mpris_ids.len() && (#[trigger] player.mpris_ids[k] == tail || entry == Some(
            player.mpris_ids[k],
        ))
}

/// The first place `pattern` occurs in `text`.
fn find_text(text: &[char], pattern: &[char]) -> (at: Option<usize>)
    ensures
        match at {
            Some(at) => first_at(text@, pattern@, 0) == Some(at as int),
            None => first_at(text@, pattern@, 0) is None,
        },
{
    if pattern.len() > text.len() {
        assert forall|i: int| 0 <= i <= text@.len() implies #[trigger] first_at(text@, pattern@, i) is None by {
            lemma_no_room(text@, pattern@, i);
        }
        return None;
    }
    let mut at: usize = 0;
    while at <= text.len() - pattern.len()
        invariant
            pattern@.len() <= text@.len(),
            at <= text@.len() - pattern@.len() + 1,
            first_at(text@, pattern@, 0) == first_at(text@, pattern@, at as int),
        decreases text@.len() - pattern@.len() + 1 - at,
    {
        let mut k: usize = 0;
        let n = text.len();
        while k < pattern.len() && text[at + k] == pattern[k]
            invariant
                n == text@.len(),
                pattern@.len() <= text@.len(),
                at + pattern@.len() <= text@.len(),
                k <= pattern@.len(),
                forall|j: int| 0 <= j < k ==> text@[at + j] == pattern@[j],
            decreases pattern@.len() - k,
        {
            k = k + 1;
        }
        if k == pattern.len() {
            assert(text@.subrange(at as int, at + pattern@.len()) =~= pattern@);
            return Some(at);
        }
        assert(text@.subrange(at as int, at + pattern@.len())[k as int] != pattern@[k as int]);
        at = at + 1;
    }
    proof {
        lemma_no_room(text@, pattern@, at as int);
    }
    None
}

/// Past the last place a pattern fits, it occurs nowhere further on.
proof fn lemma_no_room(text: Seq<char>, pattern: Seq<char>, i: int)
    requires
        i > text.len() - pattern.len(),
    ensures
        first_at(text, pattern, i) is None,
    decreases text.len() + 1 - i,
{
    if i < 0 || i > text.len() {
    } else {
        lemma_no_room(text, pattern, i + 1);
    }
}

/// The claim of a player on a lowercased app id.
pub open spec fn app_id_claim(app_id: Seq<char>) -> spec_fn(PlayerView) -> bool {
    |player: PlayerView| claims_app_id(player, app_id)
}

/// The claim of a player on a bus tail and desktop entry.
pub open spec fn mpris_claim(tail: Seq<char>, entry: Option<Seq<char>>) -> spec_fn(PlayerView) -> bool {
    |player: PlayerView| claims_mpris(player, tail, entry)
}

impl PlayerTable {
    /// Case-insensitive substring match of any pattern against the SMTC app
    /// id; first table entry wins. Substring, because an unpackaged app's id
    /// is a system-assigned string that merely contains the exe name.
    pub fn match_app_id(&self, app_id: &str) -> (found: Option<&Player>)
        ensures
            match first_where(self@.players, app_id_claim(lowercase(app_id@)), 0) {
                Some(i) => found is Some && found.unwrap()@ == self@.players[i],
                None => found is None,
            },
    {
        let lower = to_lowercase(app_id);
        let id = chars_of(lower.as_str());
        let ghost claims = app_id_claim(lowercase(app_id@));
        let ghost view = self@.players;
        let mut i: usize = 0;
        while i < self.players.len()
            invariant
                i <= self.players@.len(),
                view == players_view(self.players@),
                id@ == lowercase(app_id@),
                claims == app_id_claim(lowercase(app_id@)),
                first_where(view, claims, 0) == first_where(view, claims, i as int),
            decreases self.players@.len() - i,
        {
            let player = &self.players[i];
            let mut k: usize = 0;
            while k < player.smtc_app_ids.len()
                invariant
                    i < self.players@.len(),
                    view == players_view(self.players@),
                    claims == app_id_claim(lowercase(app_id@)),
                    first_where(view, claims, 0) == first_where(view, claims, i as int),
                    k <= player.smtc_app_ids@.len(),
                    player@ == view[i as int],
                    id@ == lowercase(app_id@),
                    forall|j: int| 0 <= j < k ==> !contains_text(id@, #[trigger] player@.smtc_app_ids[j]),
                decreases player.smtc_app_ids@.len() - k,
            {
                let pattern = chars_of(player.smtc_app_ids[k].as_str());
                if contains(id.as_slice(), pattern.as_slice()) {
                    assert(contains_text(id@, player@.smtc_app_ids[k as int]));
                    assert(claims(view[i as int]));
                    return Some(player);
                }
                k = k + 1;
            }
            assert(!claims(view[i as int]));
            i = i + 1;
        }
        None
    }

    /// The player an MPRIS session belongs to. The bus name's tail after the
    /// well-known prefix, with any `.instance…` suffix cut, is compared whole
    /// and case-insensitively; the desktop entry answers the same way. Whole,
    /// not substring: the tail is the app's own short name, and `firefox`
    /// must not claim `firefox-esr-wrapper`. First table entry wins.
    pub fn match_mpris(&self, bus_name: &str, desktop_entry: Option<&str>) -> (found: Option<&Player>)
        ensures
            match bus_tail(bus_name@) {
                Some(tail) => {
                    let entry = match desktop_entry {
                        Some(entry) => Some(lowercase(entry@)),
                        None => None,
                    };
                    match first_where(self@.players, mpris_claim(tail, entry), 0) {
                        Some(i) => found is Some && found.unwrap()@ == self@.players[i],
                        None => found is None,
                    }
                },
                None => found is None,
            },
    {
        let bus = chars_of(bus_name);
        let prefix = chars_of("org.mpris.MediaPlayer2.");
        if bus.len() < prefix.len() {
            return None;
        }
        let mut p: usize = 0;
        while p < prefix.len()
            invariant
                p <= prefix@.len() <= bus@.len(),
                prefix@ == mpris_prefix(),
                bus@ == bus_name@,
                forall|j: int| 0 <= j < p ==> bus@[j] == prefix@[j],
            decreases prefix@.len() - p,
        {
            if bus[p] != prefix[p] {
                assert(bus@.take(prefix@.len() as int)[p as int] != prefix@[p as int]);
                return None;
            }
            p = p + 1;
        }
        assert(bus@.take(prefix@.len() as int) =~= prefix@);
        let mut tail_chars: Vec<char> = Vec::new();
        let mut t: usize = prefix.len();
        while t < bus.len()
            invariant
                prefix@.len() <= t <= bus@.len(),
                tail_chars@ == bus@.subrange(prefix@.len() as int, t as int),
            decreases bus@.len() - t,
        {
            tail_chars.push(bus[t]);
            assert(tail_chars@ =~= bus@.subrange(prefix@.len() as int, t + 1));
            t = t + 1;
        }
        assert(tail_chars@ =~= bus@.skip(prefix@.len() as int));
        let instance = chars_of(".instance");
        let end = match find_text(tail_chars.as_slice(), instance.as_slice()) {
            Some(at) => {
                proof {
                    lemma_first_at(tail_chars@, instance@, 0);
                }
                at
            },
            None => tail_chars.len(),
        };
        let cut = string_of_range(tail_chars.as_slice(), 0, end);
        assert(cut@ =~= match first_at(tail_chars@, instance@, 0) {
            Some(at) => tail_chars@.take(at),
            None => tail_chars@,
        });
        let tail = to_lowercase(cut.as_str());
        let entry = match desktop_entry {
            Some(entry) => Some(to_lowercase(entry)),
            None => None,
        };
        let ghost entry_view = match desktop_entry {
            Some(entry) => Some(lowercase(entry@)),
            None => None,
        };
        assert(bus_tail(bus_name@) == Some(tail@));
        let ghost claims = mpris_claim(tail@, entry_view);
        let ghost view = self@.players;
        let mut i: usize = 0;
        while i < self.players.len()
            invariant
                i <= self.players@.len(),
                view == players_view(self.players@),
                entry_view == match entry {
                    Some(e) => Some(e@),
                    None => None::<Seq<char>>,
                },
                claims == mpris_claim(tail@, entry_view),
                first_where(view, claims, 0) == first_where(view, claims, i as int),
                bus_tail(bus_name@) == Some(tail@),
                entry_view == match desktop_entry {
                    Some(entry) => Some(lowercase(entry@)),
                    None => None,
                },
            decreases self.players@.len() - i,
        {
            let player = &self.players[i];
            let mut k: usize = 0;
            while k < player.mpris_ids.len()
                invariant
                    i < self.players@.len(),
                    view == players_view(self.players@),
                    claims == mpris_claim(tail@, entry_view),
                    first_where(view, claims, 0) == first_where(view, claims, i as int),
                    bus_tail(bus_name@) == Some(tail@),
                    entry_view == match desktop_entry {
                        Some(entry) => Some(lowercase(entry@)),
                        None => None,
                    },
                    k <= player.mpris_ids@.len(),
                    player@ == view[i as int],
                    entry_view == match entry {
                        Some(e) => Some(e@),
                        None => None::<Seq<char>>,
                    },
                    forall|j: int|
                        0 <= j < k ==> !(#[trigger] player@.mpris_ids[j] == tail@ || entry_view == Some(
                            player@.mpris_ids[j],
                        )),
                decreases player.mpris_ids@.len() - k,
            {
                let id = &player.mpris_ids[k];
                let hit = match &entry {
                    Some(entry) => same_text(id.as_str(), entry.as_str()),
                    None => false,
                };
                if same_text(id.as_str(), tail.as_str()) || hit {
                    assert(player@.mpris_ids[k as int] == tail@ || entry_view == Some(player@.mpris_ids[k as int]));
                    assert(claims(view[i as int]));
                    return Some(player);
                }
                k = k + 1;
            }
            assert(!claims(view[i as int]));
            i = i + 1;
        }
        None
    }
}

proof fn lemma_layered_keeps_base(base: Seq<PlayerView>, rows: Seq<RowView>, k: int)
    ensures
        layered(base, rows, k).0.len() == base.len(),
        forall|i: int| 0 <= i < base.len() ==> #[trigger] layered(base, rows, k).0[i].name == base[i].name,
    decreases k,
{
    if k > 0 {
        lemma_layered_keeps_base(base, rows, k - 1);
        let (players, added) = layered(base, rows, k - 1);
        lemma_named_from(players, lowercase(rows[k - 1].name), 0);
    }
}

/// Laying a person's rows over the base keeps every base player, in order
/// and under its own name, which history stores, after the players the
/// rows added.
pub proof fn lemma_lay_keeps_base(base: Seq<PlayerView>, rows: Seq<RowView>)
    ensures
        spec_lay(base, rows).len() >= base.len(),
        forall|i: int|
            0 <= i < base.len() ==> #[trigger] spec_lay(base, rows)[spec_lay(base, rows).len() - base.len()
                + i].name == base[i].name,
{
    lemma_layered_keeps_base(base, rows, rows.len() as int);
    let (players, added) = layered(base, rows, rows.len() as int);
    assert forall|i: int| 0 <= i < base.len() implies #[trigger] spec_lay(base, rows)[spec_lay(base, rows).len()
        - base.len() + i].name == base[i].name by {
        assert(spec_lay(base, rows)[spec_lay(base, rows).len() - base.len() + i] == players[i]);
        assert(layered(base, rows, rows.len() as int).0[i].name == base[i].name);
    }
}

/// Whether `after` is `before` under the same name and mark, with every
/// list `before` held still held.
pub open spec fn keeps_known(before: PlayerView, after: PlayerView) -> bool {
    &&& after.name == before.name
    &&& after.hidden == before.hidden
    &&& before.smtc_app_ids.len() != 0 ==> after.smtc_app_ids == before.smtc_app_ids
    &&& before.mpris_ids.len() != 0 ==> after.mpris_ids == before.mpris_ids
    &&& before.executables.len() != 0 ==> after.executables == before.executables
}

/// Players found at runtime never override a list a known row already
/// holds, and never rename, hide, drop or reorder the known rows; whatever
/// they add comes after them.
pub proof fn lemma_extend_keeps_known(base: Seq<PlayerView>, found: Seq<PlayerView>, k: int)
    ensures
        extended(base, found, k).0.len() >= base.len(),
        forall|i: int| 0 <= i < base.len() ==> keeps_known(base[i], #[trigger] extended(base, found, k).0[i]),
    decreases k,
{
    if k > 0 {
        lemma_extend_keeps_known(base, found, k - 1);
        let (players, changed) = extended(base, found, k - 1);
        let player = lowered(found[k - 1]);
        lemma_first_same(players, player, 0);
        assert forall|i: int| 0 <= i < base.len() implies keeps_known(base[i], #[trigger] extended(base, found, k).0[i]) by {
            assert(keeps_known(base[i], players[i]));
        }
    }
}

/// The texts of a list, each trimmed, or the type of the first item that
/// is not text.
pub open spec fn list_texts(items: Seq<TomlValue>) -> Result<Seq<Seq<char>>, Seq<char>>
    decreases items.len(),
{
    if items.len() == 0 {
        Ok(Seq::empty())
    } else {
        match items[0] {
            TomlValue::String(text) => match list_texts(items.drop_first()) {
                Ok(rest) => Ok(seq![spec_trim(text@)] + rest),
                Err(kind) => Err(kind),
            },
            other => Err(other.spec_type_str()),
        }
    }
}

/// A pattern list of a row, or why it cannot be read: left out, a list of
/// text, or something else.
pub open spec fn list_field(fields: Seq<TomlEntry>, key: Seq<char>) -> Result<Option<Seq<Seq<char>>>, Seq<char>> {
    match lookup(fields, key) {
        None => Ok(None),
        Some(TomlValue::Array(items)) => match list_texts(items@) {
            Ok(list) => Ok(Some(list)),
            Err(kind) => Err(key + " should hold text, not "@ + kind),
        },
        Some(other) => Err(key + " should be a list like [\"mpv.exe\"], not "@ + other.spec_type_str()),
    }
}

/// Whether a row hides its player, or why the mark cannot be read.
pub open spec fn hidden_field(fields: Seq<TomlEntry>) -> Result<bool, Seq<char>> {
    match lookup(fields, "hidden"@) {
        None => Ok(false),
        Some(TomlValue::Boolean(hidden)) => Ok(hidden),
        Some(other) => Err("hidden should be true or false, not "@ + other.spec_type_str()),
    }
}

/// A `[[player]]` row's fields, or why one of them cannot be read. The
/// name and every pattern are trimmed.
pub open spec fn spec_row_fields(row: TomlValue) -> Result<RowView, Seq<char>> {
    match row {
        TomlValue::Table(fields) => match lookup(fields@, "name"@) {
            Some(TomlValue::String(name)) => match hidden_field(fields@) {
                Err(reason) => Err(reason),
                Ok(hidden) => match list_field(fields@, "smtc_app_ids"@) {
                    Err(reason) => Err(reason),
                    Ok(smtc) => match list_field(fields@, "mpris_ids"@) {
                        Err(reason) => Err(reason),
                        Ok(mpris) => match list_field(fields@, "executables"@) {
                            Err(reason) => Err(reason),
                            Ok(exes) => Ok(
                                RowView {
                                    name: spec_trim(name@),
                                    smtc_app_ids: smtc,
                                    mpris_ids: mpris,
                                    executables: exes,
                                    hidden,
                                },
                            ),
                        },
                    },
                },
            },
            Some(other) => Err("name should be text, not "@ + other.spec_type_str()),
            None => Err("it has no name"@),
        },
        other => Err("it should be a [[player]] table, not "@ + other.spec_type_str()),
    }
}

/// The first pattern of an optional list too short to use.
pub open spec fn short_in(list: Option<Seq<Seq<char>>>) -> Option<Seq<char>> {
    match list {
        Some(list) => match first_short(list, 0) {
            Some(k) => Some(list[k]),
            None => None,
        },
        None => None,
    }
}

/// Why a row cannot be used beside the rows accepted before it, if it
/// cannot: an empty name, a name an earlier row has whatever the case, or a
/// pattern too short to use.
pub open spec fn spec_unusable(row: RowView, earlier: Seq<RowView>) -> Option<Seq<char>> {
    if row.name.len() == 0 {
        Some("its name is empty"@)
    } else if exists|j: int| 0 <= j < earlier.len() && lowercase(#[trigger] earlier[j].name) == lowercase(row.name) {
        Some("an earlier row has the same name"@)
    } else {
        match short_in(row.smtc_app_ids) {
            Some(short) => Some("smtc_app_ids"@ + " holds "@ + debug_quote(short) + ", shorter than 3 characters"@),
            None => match short_in(row.mpris_ids) {
                Some(short) => Some("mpris_ids"@ + " holds "@ + debug_quote(short) + ", shorter than 3 characters"@),
                None => match short_in(row.executables) {
                    Some(short) => Some("executables"@ + " holds "@ + debug_quote(short) + ", shorter than 3 characters"@),
                    None => None,
                },
            },
        }
    }
}

pub open spec fn lowered_list(list: Option<Seq<Seq<char>>>) -> Option<Seq<Seq<char>>> {
    match list {
        Some(list) => Some(lowered_texts(list)),
        None => None,
    }
}

/// A row with every pattern lowercased, as the table matches them.
pub open spec fn lowered_row(row: RowView) -> RowView {
    RowView {
        name: row.name,
        smtc_app_ids: lowered_list(row.smtc_app_ids),
        mpris_ids: lowered_list(row.mpris_ids),
        executables: lowered_list(row.executables),
        hidden: row.hidden,
    }
}

/// How problems name a row: by its name when it has one, else by its place.
pub open spec fn row_label(row: TomlValue, index: int) -> Seq<char> {
    match row {
        TomlValue::Table(fields) => match lookup(fields@, "name"@) {
            Some(TomlValue::String(name)) => "Player "@ + debug_quote(name@),
            _ => "Player "@ + int_text(index + 1),
        },
        _ => "Player "@ + int_text(index + 1),
    }
}

/// The keys a `[[player]]` row may hold.
pub open spec fn row_keys() -> Seq<Seq<char>> {
    seq!["name"@, "smtc_app_ids"@, "mpris_ids"@, "executables"@, "hidden"@]
}

/// One sentence for each key of a row that a player does not hold.
pub open spec fn row_key_problems(row: TomlValue, label: Seq<char>) -> Seq<Seq<char>> {
    match row {
        TomlValue::Table(fields) => unknown_keys_of(fields@, row_keys()).map_values(
            |key: Seq<char>| label + ": "@ + key + " isn't something a player holds, so it is ignored."@,
        ),
        _ => Seq::empty(),
    }
}

/// The rows the first `k` `[[player]]` rows make, and the problems they
/// raise. A row that cannot be read or used is dropped with a sentence that
/// says why; the others are kept with their patterns lowercased.
pub open spec fn read_rows(rows: Seq<TomlValue>, k: int) -> (Seq<RowView>, Seq<Seq<char>>)
    decreases k,
{
    if k <= 0 {
        (Seq::empty(), Seq::empty())
    } else {
        let (players, problems) = read_rows(rows, k - 1);
        let row = rows[k - 1];
        let label = row_label(row, k - 1);
        let problems = problems + row_key_problems(row, label);
        match spec_row_fields(row) {
            Err(reason) => (players, problems.push(label + ": "@ + reason + ", so the row is ignored."@)),
            Ok(fields) => match spec_unusable(fields, players) {
                Some(reason) => (players, problems.push(label + ": "@ + reason + ", so the row is ignored."@)),
                None => (players.push(lowered_row(fields)), problems),
            },
        }
    }
}

/// One sentence for each key of `players.toml` that it does not hold.
pub open spec fn file_key_problems(table: Seq<TomlEntry>) -> Seq<Seq<char>> {
    unknown_keys_of(table, seq!["player"@]).map_values(
        |key: Seq<char>| key + " isn't something players.toml holds, so it is ignored."@,
    )
}

/// The rows `players.toml` makes, and the problems it raises.
pub open spec fn spec_read_players(table: Seq<TomlEntry>) -> (Seq<RowView>, Seq<Seq<char>>) {
    match lookup(table, "player"@) {
        None => (Seq::empty(), file_key_problems(table)),
        Some(TomlValue::Array(rows)) => {
            let (players, problems) = read_rows(rows@, rows@.len() as int);
            (players, file_key_problems(table) + problems)
        },
        Some(other) => (
            Seq::empty(),
            file_key_problems(table).push(
                "player should be [[player]] rows, not "@ + other.spec_type_str() + ", so no row applies."@,
            ),
        ),
    }
}

/// A list item's text, trimmed, when it is text.
pub open spec fn trimmed_text(value: TomlValue) -> Option<Seq<char>> {
    match value {
        TomlValue::String(text) => Some(spec_trim(text@)),
        _ => None,
    }
}

fn push_problem(problems: &mut Vec<String>, problem: String)
    ensures
        texts(final(problems)@) == texts(old(problems)@).push(problem@),
{
    let ghost before = problems@;
    problems.push(problem);
    assert(texts(problems@) =~= texts(before).push(problem@));
}

fn read_list(items: &[TomlValue]) -> (list: Result<Vec<String>, &'static str>)
    ensures
        match list {
            Ok(list) => list_texts(items@) == Ok::<Seq<Seq<char>>, Seq<char>>(texts(list@)),
            Err(kind) => list_texts(items@) == Err::<Seq<Seq<char>>, Seq<char>>(kind@),
        },
{
    let mut list: Vec<String> = Vec::new();
    let mut i: usize = 0;
    while i < items.len()
        invariant
            i <= items@.len(),
            list@.len() == i,
            forall|k: int| 0 <= k < i ==> trimmed_text(#[trigger] items@[k]) == Some(list@[k]@),
        decreases items@.len() - i,
    {
        match &items[i] {
            TomlValue::String(text) => list.push(trimmed(text.as_str())),
            other => {
                proof {
                    lemma_list_texts_prefix(items@, i as int);
                }
                return Err(other.type_str());
            },
        }
        i = i + 1;
    }
    proof {
        lemma_list_texts_all(items@, texts(list@));
    }
    Ok(list)
}

proof fn lemma_list_texts_prefix(items: Seq<TomlValue>, i: int)
    requires
        0 <= i < items.len(),
        forall|k: int| 0 <= k < i ==> trimmed_text(#[trigger] items[k]) is Some,
        trimmed_text(items[i]) is None,
    ensures
        list_texts(items) == Err::<Seq<Seq<char>>, Seq<char>>(items[i].spec_type_str()),
    decreases i,
{
    if i > 0 {
        assert forall|k: int| 0 <= k < i - 1 implies trimmed_text(#[trigger] items.drop_first()[k]) is Some by {
            assert(items.drop_first()[k] == items[k + 1]);
        }
        lemma_list_texts_prefix(items.drop_first(), i - 1);
        assert(items.drop_first()[i - 1] == items[i]);
        assert(trimmed_text(items[0]) is Some);
    }
}

proof fn lemma_list_texts_all(items: Seq<TomlValue>, list: Seq<Seq<char>>)
    requires
        list.len() == items.len(),
        forall|k: int| 0 <= k < items.len() ==> trimmed_text(#[trigger] items[k]) == Some(list[k]),
    ensures
        list_texts(items) == Ok::<Seq<Seq<char>>, Seq<char>>(list),
    decreases items.len(),
{
    if items.len() > 0 {
        assert forall|k: int| 0 <= k < items.len() - 1 implies trimmed_text(#[trigger] items.drop_first()[k])
            == Some(list.drop_first()[k]) by {
            assert(items.drop_first()[k] == items[k + 1]);
        }
        lemma_list_texts_all(items.drop_first(), list.drop_first());
        assert(trimmed_text(items[0]) == Some(list[0]));
        assert(list =~= seq![list[0]] + list.drop_first());
    } else {
        assert(list =~= Seq::<Seq<char>>::empty());
    }
}

fn read_list_field(fields: &[TomlEntry], key: &str) -> (list: Result<Option<Vec<String>>, String>)
    ensures
        match list {
            Ok(list) => list_field(fields@, key@) == Ok::<Option<Seq<Seq<char>>>, Seq<char>>(optional_texts(list)),
            Err(reason) => list_field(fields@, key@) == Err::<Option<Seq<Seq<char>>>, Seq<char>>(reason@),
        },
{
    match get(fields, key) {
        None => Ok(None),
        Some(TomlValue::Array(items)) => match read_list(items.as_slice()) {
            Ok(list) => Ok(Some(list)),
            Err(kind) => {
                let mut reason = key.to_owned();
                push_str(&mut reason, " should hold text, not ");
                push_str(&mut reason, kind);
                Err(reason)
            },
        },
        Some(other) => {
            let mut reason = key.to_owned();
            push_str(&mut reason, " should be a list like [\"mpv.exe\"], not ");
            push_str(&mut reason, other.type_str());
            Err(reason)
        },
    }
}

/// The row's fields, or why one of them cannot be read. Read by hand
/// rather than through a derive so the reason names the field.
fn row_fields(row: &TomlValue) -> (read: Result<PlayerRow, String>)
    ensures
        match read {
            Ok(player) => spec_row_fields(*row) == Ok::<RowView, Seq<char>>(player@),
            Err(reason) => spec_row_fields(*row) == Err::<RowView, Seq<char>>(reason@),
        },
{
    let fields = match row {
        TomlValue::Table(fields) => fields,
        other => {
            let mut reason = "it should be a [[player]] table, not ".to_owned();
            push_str(&mut reason, other.type_str());
            return Err(reason);
        },
    };
    let name = match get(fields.as_slice(), "name") {
        Some(TomlValue::String(name)) => trimmed(name.as_str()),
        Some(other) => {
            let mut reason = "name should be text, not ".to_owned();
            push_str(&mut reason, other.type_str());
            return Err(reason);
        },
        None => return Err("it has no name".to_owned()),
    };
    let hidden = match get(fields.as_slice(), "hidden") {
        None => false,
        Some(TomlValue::Boolean(hidden)) => *hidden,
        Some(other) => {
            let mut reason = "hidden should be true or false, not ".to_owned();
            push_str(&mut reason, other.type_str());
            return Err(reason);
        },
    };
    let smtc_app_ids = read_list_field(fields.as_slice(), "smtc_app_ids")?;
    let mpris_ids = read_list_field(fields.as_slice(), "mpris_ids")?;
    let executables = read_list_field(fields.as_slice(), "executables")?;
    Ok(PlayerRow { name, smtc_app_ids, mpris_ids, executables, hidden })
}

fn short_field(list: &Option<Vec<String>>, field: &str) -> (reason: Option<String>)
    ensures
        match reason {
            Some(reason) => short_in(optional_texts(*list)) is Some && reason@ == field@ + " holds "@ + debug_quote(
                short_in(optional_texts(*list)).unwrap(),
            ) + ", shorter than 3 characters"@,
            None => short_in(optional_texts(*list)) is None,
        },
{
    match list {
        Some(list) => match find_short(list.as_slice()) {
            Some(k) => {
                let mut reason = field.to_owned();
                push_str(&mut reason, " holds ");
                push_str(&mut reason, debug_quoted(list[k].as_str()).as_str());
                push_str(&mut reason, ", shorter than 3 characters");
                Some(reason)
            },
            None => None,
        },
        None => None,
    }
}

/// Why `row` cannot be used beside the rows before it, if it cannot.
fn unusable(row: &PlayerRow, earlier: &[PlayerRow]) -> (reason: Option<String>)
    ensures
        match reason {
            Some(reason) => spec_unusable(row@, rows_view(earlier@)) == Some(reason@),
            None => spec_unusable(row@, rows_view(earlier@)) is None,
        },
{
    if row.name.as_str().is_empty() {
        return Some("its name is empty".to_owned());
    }
    // Names meet built-in names without regard to case, so they meet each
    // other the same way.
    let name = to_lowercase(row.name.as_str());
    let ghost view = rows_view(earlier@);
    let mut j: usize = 0;
    while j < earlier.len()
        invariant
            j <= earlier@.len(),
            view == rows_view(earlier@),
            name@ == lowercase(row@.name),
            row@.name.len() != 0,
            forall|e: int| 0 <= e < j ==> lowercase(#[trigger] view[e].name) != lowercase(row@.name),
        decreases earlier@.len() - j,
    {
        let other = to_lowercase(earlier[j].name.as_str());
        if same_text(other.as_str(), name.as_str()) {
            assert(lowercase(view[j as int].name) == lowercase(row@.name));
            return Some("an earlier row has the same name".to_owned());
        }
        j = j + 1;
    }
    assert(!(exists|e: int| 0 <= e < view.len() && lowercase(#[trigger] view[e].name) == lowercase(row@.name)));
    assert(row@.smtc_app_ids == optional_texts(row.smtc_app_ids));
    assert(row@.mpris_ids == optional_texts(row.mpris_ids));
    if let Some(reason) = short_field(&row.smtc_app_ids, "smtc_app_ids") {
        return Some(reason);
    }
    if let Some(reason) = short_field(&row.mpris_ids, "mpris_ids") {
        return Some(reason);
    }
    short_field(&row.executables, "executables")
}

fn lowercase_optional(list: &mut Option<Vec<String>>)
    ensures
        optional_texts(*final(list)) == lowered_list(optional_texts(*old(list))),
{
    if let Some(items) = list {
        lowercase_list(items);
    }
}

fn lowercase_row(row: &mut PlayerRow)
    ensures
        final(row)@ == lowered_row(old(row)@),
{
    lowercase_optional(&mut row.smtc_app_ids);
    lowercase_optional(&mut row.mpris_ids);
    lowercase_optional(&mut row.executables);
}

fn label_of(row: &TomlValue, index: usize) -> (label: String)
    requires
        index < usize::MAX,
    ensures
        label@ == row_label(*row, index as int),
{
    let mut label = "Player ".to_owned();
    if let TomlValue::Table(fields) = row {
        if let Some(TomlValue::String(name)) = get(fields.as_slice(), "name") {
            push_str(&mut label, debug_quoted(name.as_str()).as_str());
            return label;
        }
    }
    push_u64(&mut label, (index + 1) as u64);
    label
}

/// The rows `players.toml` makes, pushing one sentence to `problems` for
/// everything it drops: an unknown key is ignored, and a row that cannot be
/// read, or cannot be used beside the rows before it, is left out. Every
/// row kept is trimmed and has its patterns lowercased.
pub fn read_players(table: &[TomlEntry], problems: &mut Vec<String>) -> (rows: Vec<PlayerRow>)
    ensures
        rows_view(rows@) == spec_read_players(table@).0,
        texts(final(problems)@) == texts(old(problems)@) + spec_read_players(table@).1,
{
    let ghost start = texts(problems@);
    let known: [&str; 1] = ["player"];
    assert(strs(known@) =~= seq!["player"@]);
    let keys = unknown_keys(table, &known);
    let mut i: usize = 0;
    while i < keys.len()
        invariant
            i <= keys@.len(),
            texts(keys@) == unknown_keys_of(table@, seq!["player"@]),
            texts(problems@) == start + file_key_problems(table@).take(i as int),
        decreases keys@.len() - i,
    {
        let mut problem = keys[i].clone();
        push_str(&mut problem, " isn't something players.toml holds, so it is ignored.");
        push_problem(problems, problem);
        assert(file_key_problems(table@).take(i + 1) =~= file_key_problems(table@).take(i as int).push(
            file_key_problems(table@)[i as int],
        ));
        i = i + 1;
    }
    assert(file_key_problems(table@).take(keys@.len() as int) =~= file_key_problems(table@));
    let rows = match get(table, "player") {
        None => {
            assert(rows_view(Seq::<PlayerRow>::empty()) =~= Seq::<RowView>::empty());
            return Vec::new();
        },
        Some(TomlValue::Array(rows)) => rows,
        Some(other) => {
            let mut problem = "player should be [[player]] rows, not ".to_owned();
            push_str(&mut problem, other.type_str());
            push_str(&mut problem, ", so no row applies.");
            push_problem(problems, problem);
            assert(rows_view(Seq::<PlayerRow>::empty()) =~= Seq::<RowView>::empty());
            return Vec::new();
        },
    };
    let ghost middle = texts(problems@);
    let mut players: Vec<PlayerRow> = Vec::new();
    let mut index: usize = 0;
    while index < rows.len()
        invariant
            index <= rows@.len(),
            lookup(table@, "player"@) == Some(TomlValue::Array(*rows)),
            middle == start + file_key_problems(table@),
            (rows_view(players@), texts(problems@).skip(middle.len() as int)) == read_rows(rows@, index as int),
            texts(problems@).take(middle.len() as int) == middle,
            texts(problems@).len() >= middle.len(),
        decreases rows@.len() - index,
    {
        let row = &rows[index];
        let label = label_of(row, index);
        let ghost label_view = label@;
        let ghost before = texts(problems@);
        if let TomlValue::Table(fields) = row {
            let row_known: [&str; 5] = ["name", "smtc_app_ids", "mpris_ids", "executables", "hidden"];
            assert(strs(row_known@) =~= row_keys());
            let keys = unknown_keys(fields.as_slice(), &row_known);
            let mut k: usize = 0;
            while k < keys.len()
                invariant
                    k <= keys@.len(),
                    texts(keys@) == unknown_keys_of(fields@, row_keys()),
                    texts(problems@) == before + row_key_problems(*row, label_view).take(k as int),
                    *row == TomlValue::Table(*fields),
                    label@ == label_view,
                decreases keys@.len() - k,
            {
                let mut problem = label.clone();
                push_str(&mut problem, ": ");
                push_str(&mut problem, keys[k].as_str());
                push_str(&mut problem, " isn't something a player holds, so it is ignored.");
                push_problem(problems, problem);
                assert(row_key_problems(*row, label_view).take(k + 1) =~= row_key_problems(*row, label_view).take(
                    k as int,
                ).push(row_key_problems(*row, label_view)[k as int]));
                k = k + 1;
            }
            assert(row_key_problems(*row, label_view).take(keys@.len() as int) =~= row_key_problems(
                *row,
                label_view,
            ));
        } else {
            assert(texts(problems@) =~= before + row_key_problems(*row, label_view));
        }
        let ghost keyed = texts(problems@);
        let refusal = match row_fields(row) {
            Err(reason) => Some(reason),
            Ok(mut player) => match unusable(&player, players.as_slice()) {
                Some(reason) => Some(reason),
                None => {
                    lowercase_row(&mut player);
                    let ghost pre = players@;
                    players.push(player);
                    assert(rows_view(players@) =~= rows_view(pre).push(players@.last()@));
                    None
                },
            },
        };
        if let Some(reason) = refusal {
            let mut problem = label;
            push_str(&mut problem, ": ");
            push_str(&mut problem, reason.as_str());
            push_str(&mut problem, ", so the row is ignored.");
            push_problem(problems, problem);
        }
        assert(texts(problems@).take(middle.len() as int) =~= middle);
        assert(texts(problems@).skip(middle.len() as int) =~= read_rows(rows@, index + 1).1);
        index = index + 1;
    }
    assert(texts(problems@) =~= middle + texts(problems@).skip(middle.len() as int));
    players
}

/// Every row a read of `players.toml` keeps has a name, and no two kept
/// rows share a name, whatever the case: a later row that would is dropped
/// with a problem.
pub proof fn lemma_read_rows_named_once(rows: Seq<TomlValue>, k: int)
    ensures
        forall|i: int| 0 <= i < read_rows(rows, k).0.len() ==> (#[trigger] read_rows(rows, k).0[i]).name.len() != 0,
        forall|i: int, j: int|
            0 <= i < j < read_rows(rows, k).0.len() ==> lowercase((#[trigger] read_rows(rows, k).0[i]).name)
                != lowercase((#[trigger] read_rows(rows, k).0[j]).name),
    decreases k,
{
    if k > 0 {
        lemma_read_rows_named_once(rows, k - 1);
        let (players, problems) = read_rows(rows, k - 1);
        let after = read_rows(rows, k).0;
        assert forall|i: int, j: int|
            0 <= i < j < after.len() implies lowercase((#[trigger] after[i]).name) != lowercase(
                (#[trigger] after[j]).name,
            ) by {
            if j == players.len() && after.len() > players.len() {
                let fields = spec_row_fields(rows[k - 1])->Ok_0;
                assert(after[j].name == fields.name);
                assert(after[i] == players[i]);
                if lowercase(players[i].name) == lowercase(fields.name) {
                    assert(exists|e: int| 0 <= e < players.len() && lowercase(#[trigger] players[e].name) == lowercase(fields.name));
                }
            } else {
                assert(after[i] == players[i]);
                assert(after[j] == players[j]);
            }
        }
        assert forall|i: int| 0 <= i < after.len() implies (#[trigger] after[i]).name.len() != 0 by {
            if i < players.len() {
                assert(after[i] == players[i]);
            }
        }
    }
}

} // verus!
