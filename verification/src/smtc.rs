//! The decisions of the Windows SMTC strategy: what a raw playback status
//! means, what a refresh does with each session it reads, and when the
//! per-session subscriptions must be made afresh. The WinRT calls stay
//! outside.

use vstd::prelude::*;

use crate::gecko::{is_install_hash, spec_is_install_hash};
use crate::players::{app_id_claim, first_where, Player, PlayerTable};
use crate::session::{Matched, SessionSnapshot, SessionState, Tracking};
use crate::text::{int_text, lowercase, push_int, push_str, same_text};

verus! {

/// `GlobalSystemMediaTransportControlsSessionPlaybackStatus` as it comes off
/// the wire, in declaration order. Read into [`SessionState`] here; nothing
/// else sees six values.
#[derive(Clone, Copy, Debug, PartialEq, Eq, Structural)]
pub enum RawStatus {
    Closed,
    Opened,
    Changing,
    Stopped,
    Playing,
    Paused,
}

impl RawStatus {
    pub const ALL: [RawStatus; 6] = [
        RawStatus::Closed,
        RawStatus::Opened,
        RawStatus::Changing,
        RawStatus::Stopped,
        RawStatus::Playing,
        RawStatus::Paused,
    ];

    /// The status a WinRT value names: its place in the declaration.
    pub open spec fn spec_from_winrt(value: i32) -> Option<RawStatus> {
        if value == 0 {
            Some(RawStatus::Closed)
        } else if value == 1 {
            Some(RawStatus::Opened)
        } else if value == 2 {
            Some(RawStatus::Changing)
        } else if value == 3 {
            Some(RawStatus::Stopped)
        } else if value == 4 {
            Some(RawStatus::Playing)
        } else if value == 5 {
            Some(RawStatus::Paused)
        } else {
            None
        }
    }

    /// The WinRT value of a status.
    pub open spec fn spec_winrt(self) -> i32 {
        match self {
            RawStatus::Closed => 0,
            RawStatus::Opened => 1,
            RawStatus::Changing => 2,
            RawStatus::Stopped => 3,
            RawStatus::Playing => 4,
            RawStatus::Paused => 5,
        }
    }

    pub open spec fn spec_label(self) -> Seq<char> {
        match self {
            RawStatus::Closed => "Closed"@,
            RawStatus::Opened => "Opened"@,
            RawStatus::Changing => "Changing"@,
            RawStatus::Stopped => "Stopped"@,
            RawStatus::Playing => "Playing"@,
            RawStatus::Paused => "Paused"@,
        }
    }

    /// Closed and Stopped are Stopped; Opened and Changing are a session
    /// that has not settled.
    pub open spec fn spec_state(self) -> SessionState {
        match self {
            RawStatus::Closed => SessionState::Stopped,
            RawStatus::Stopped => SessionState::Stopped,
            RawStatus::Playing => SessionState::Playing,
            RawStatus::Paused => SessionState::Paused,
            RawStatus::Opened => SessionState::Settling,
            RawStatus::Changing => SessionState::Settling,
        }
    }

    pub fn from_winrt(value: i32) -> (status: Option<RawStatus>)
        ensures
            status == RawStatus::spec_from_winrt(value),
    {
        if value == 0 {
            Some(RawStatus::Closed)
        } else if value == 1 {
            Some(RawStatus::Opened)
        } else if value == 2 {
            Some(RawStatus::Changing)
        } else if value == 3 {
            Some(RawStatus::Stopped)
        } else if value == 4 {
            Some(RawStatus::Playing)
        } else if value == 5 {
            Some(RawStatus::Paused)
        } else {
            None
        }
    }

    pub fn label(self) -> (label: &'static str)
        ensures
            label@ == self.spec_label(),
    {
        match self {
            RawStatus::Closed => "Closed",
            RawStatus::Opened => "Opened",
            RawStatus::Changing => "Changing",
            RawStatus::Stopped => "Stopped",
            RawStatus::Playing => "Playing",
            RawStatus::Paused => "Paused",
        }
    }

    pub fn state(self) -> (state: SessionState)
        ensures
            state == self.spec_state(),
    {
        match self {
            RawStatus::Closed => SessionState::Stopped,
            RawStatus::Stopped => SessionState::Stopped,
            RawStatus::Playing => SessionState::Playing,
            RawStatus::Paused => SessionState::Paused,
            RawStatus::Opened => SessionState::Settling,
            RawStatus::Changing => SessionState::Settling,
        }
    }
}

/// Every status's WinRT value reads back as that status, and nothing else
/// reads as one.
pub proof fn lemma_raw_status_round_trip(status: RawStatus, value: i32)
    ensures
        RawStatus::spec_from_winrt(status.spec_winrt()) == Some(status),
        RawStatus::spec_from_winrt(value) is Some <==> 0 <= value < 6,
{
}

/// The platform's own word for a raw status, shown in Diagnostics: its
/// label, or the value itself when the status is not one the strategy
/// knows, so it still reads as itself.
pub open spec fn spec_status_label(raw: i32) -> Seq<char> {
    match RawStatus::spec_from_winrt(raw) {
        Some(status) => status.spec_label(),
        None => "Unknown("@ + int_text(raw as int) + ")"@,
    }
}

pub fn status_label(raw: i32) -> (label: String)
    ensures
        label@ == spec_status_label(raw),
{
    match RawStatus::from_winrt(raw) {
        Some(status) => status.label().to_owned(),
        None => {
            let mut label = String::new();
            push_str(&mut label, "Unknown(");
            push_int(&mut label, raw as i64);
            push_str(&mut label, ")");
            label
        },
    }
}

/// What a refresh does with one session it could read.
pub enum Plan<'a> {
    /// No table entry claimed the app id, or the status is not one the
    /// strategy knows.
    Unknown,
    /// A player a person turned off claimed it; it is listed, not watched.
    Hidden(&'a Player),
    /// Read the session's media and timeline and watch it.
    Read(&'a Player, RawStatus),
}

/// The plan for a session with `app_id` and raw status `raw`: a hidden
/// player's session is only listed, a known player in a known status is
/// read, and anything else is unknown.
pub fn plan<'a>(table: &'a PlayerTable, app_id: &str, raw: i32) -> (plan: Plan<'a>)
    ensures
        match first_where(table@.players, app_id_claim(lowercase(app_id@)), 0) {
            Some(i) => if table@.players[i].hidden {
                plan matches Plan::Hidden(player) && player@ == table@.players[i]
            } else {
                match RawStatus::spec_from_winrt(raw) {
                    Some(status) => plan matches Plan::Read(player, s) && player@ == table@.players[i] && s
                        == status,
                    None => plan is Unknown,
                }
            },
            None => plan is Unknown,
        },
{
    match table.match_app_id(app_id) {
        Some(player) => {
            if player.hidden {
                Plan::Hidden(player)
            } else {
                match RawStatus::from_winrt(raw) {
                    Some(status) => Plan::Read(player, status),
                    None => Plan::Unknown,
                }
            }
        },
        None => Plan::Unknown,
    }
}

/// The tracking a plan comes to, given the snapshot a read produced when
/// the plan asked for one: a read that failed leaves the session
/// unreadable rather than unknown.
pub fn tracking_of<'a>(plan: Plan<'a>, snapshot: Option<SessionSnapshot>) -> (tracking: Tracking<'a>)
    ensures
        match plan {
            Plan::Unknown => tracking is Unknown,
            Plan::Hidden(player) => tracking matches Tracking::Hidden(p) && p == player,
            Plan::Read(player, status) => match snapshot {
                Some(snapshot) => tracking matches Tracking::Watched(matched) && matched.player == player
                    && matched.snapshot == snapshot,
                None => tracking matches Tracking::Unreadable(p) && p == player,
            },
        },
{
    match plan {
        Plan::Unknown => Tracking::Unknown,
        Plan::Hidden(player) => Tracking::Hidden(player),
        Plan::Read(player, _) => match snapshot {
            Some(snapshot) => Tracking::Watched(Matched { player, snapshot }),
            None => Tracking::Unreadable(player),
        },
    }
}

/// Whether the per-session subscriptions must be made afresh: the session
/// set changed since they were made, or the sessions worth watching are not
/// as many as the subscriptions.
pub fn needs_resubscribe(stale: bool, live: usize, subscribed: usize) -> (again: bool)
    ensures
        again == (stale || live != subscribed),
{
    stale || live != subscribed
}

/// Whether an app id is an install hash worth a registry scan: shaped like
/// one, not already found unmatched after a scan, and claimed by no player.
pub fn is_unknown_hash(table: &PlayerTable, unknown_hashes: &[String], app_id: &str) -> (unknown: bool)
    ensures
        unknown == (spec_is_install_hash(app_id@) && !crate::players::texts(unknown_hashes@).contains(
            app_id@,
        ) && first_where(table@.players, app_id_claim(lowercase(app_id@)), 0) is None),
{
    if !is_install_hash(app_id) {
        return false;
    }
    let mut i: usize = 0;
    while i < unknown_hashes.len()
        invariant
            i <= unknown_hashes@.len(),
            forall|k: int| 0 <= k < i ==> crate::players::texts(unknown_hashes@)[k] != app_id@,
        decreases unknown_hashes@.len() - i,
    {
        if same_text(unknown_hashes[i].as_str(), app_id) {
            assert(crate::players::texts(unknown_hashes@)[i as int] == app_id@);
            return false;
        }
        i = i + 1;
    }
    table.match_app_id(app_id).is_none()
}

} // verus!
