//! Turn a stream of connection observations into chronicle entries.
//!
//! Pure state machine: no OS calls, no clock.

use super::{EntryKind, KindModel};
use crate::link;
use crate::link::{Change, LinkTracker, Observation};
use vstd::prelude::*;

verus! {

/// A level, or 0 where none was read.
pub open spec fn level(rssi_dbm: Option<i32>) -> i32 {
    match rssi_dbm {
        Some(level) => level,
        None => 0,
    }
}

/// The entry that reports a change.
pub open spec fn kind_of(change: link::ChangeModel) -> KindModel {
    match change {
        link::ChangeModel::Associated { ssid, bssid, rssi_dbm } => KindModel::Associated {
            ssid,
            bssid,
            rssi_dbm: level(rssi_dbm),
        },
        link::ChangeModel::Disconnected { last_bssid } => KindModel::Disconnected { last_bssid },
        link::ChangeModel::Roamed { from_bssid, to_bssid, rssi_dbm } => KindModel::Roamed {
            from_bssid,
            to_bssid,
            rssi_dbm: level(rssi_dbm),
        },
        link::ChangeModel::SignalShift { bssid, from_dbm, to_dbm } => KindModel::SignalShift {
            bssid,
            from_dbm,
            to_dbm,
        },
    }
}

/// The entries that a poll implies: one for a change, none without.
pub open spec fn kinds_for(change: Option<link::ChangeModel>) -> Seq<KindModel> {
    match change {
        Some(change) => seq![kind_of(change)],
        None => seq![],
    }
}

/// What entries say, in order.
pub open spec fn kinds(entries: Seq<EntryKind>) -> Seq<KindModel> {
    entries.map_values(|kind: EntryKind| kind@)
}

/// Emits entries only on *change*, with hysteresis on signal level.
///
/// The alternative — logging every poll — buries the story in noise: a stable
/// link polled every two seconds is 43 200 identical lines a day. The chronicle
/// records transitions, and the signal only when it has genuinely moved.
#[derive(Debug)]
pub struct ChangeDetector {
    link: LinkTracker,
}

impl View for ChangeDetector {
    type V = link::LinkModel;

    closed spec fn view(&self) -> link::LinkModel {
        self.link@
    }
}

impl ChangeDetector {
    /// `threshold_db` — how far the signal must move from the last *reported*
    /// level before a shift is recorded. Values under ~5 dB chase driver noise:
    /// most Windows drivers reconstruct dBm from a 0..100 quality scale with
    /// about 2 dB of quantisation.
    pub fn new(threshold_db: i32) -> (r: Self)
        ensures
            r@ == link::LinkModel::fresh(threshold_db),
    {
        ChangeDetector { link: LinkTracker::new(threshold_db) }
    }

    /// Feed one observation; returns the entries it implies, in order.
    pub fn observe(&mut self, current: Observation) -> (r: Vec<EntryKind>)
        ensures
            final(self)@ == old(self)@.after(current@),
            kinds(r@) == kinds_for(old(self)@.change(current@)),
    {
        let mut out: Vec<EntryKind> = Vec::new();
        if let Some(change) = self.link.observe(current) {
            out.push(entry_kind(change));
        }
        proof {
            assert(kinds(out@) =~= kinds_for(old(self)@.change(current@)));
        }
        out
    }
}

fn entry_kind(change: Change) -> (r: EntryKind)
    ensures
        r@ == kind_of(change@),
{
    match change {
        Change::Associated { ssid, bssid, rssi_dbm } => EntryKind::Associated {
            ssid,
            bssid,
            rssi_dbm: level_or_zero(rssi_dbm),
        },
        Change::Disconnected { last_bssid } => EntryKind::Disconnected { last_bssid },
        Change::Roamed { from_bssid, to_bssid, rssi_dbm } => EntryKind::Roamed {
            from_bssid,
            to_bssid,
            rssi_dbm: level_or_zero(rssi_dbm),
        },
        Change::SignalShift { bssid, from_dbm, to_dbm } => EntryKind::SignalShift {
            bssid,
            from_dbm,
            to_dbm,
        },
    }
}

fn level_or_zero(rssi_dbm: Option<i32>) -> (r: i32)
    ensures
        r == level(rssi_dbm),
{
    match rssi_dbm {
        Some(level) => level,
        None => 0,
    }
}

/// What a poll makes the chronicle say: an entry for each thing that it changed,
/// with the values that the poll and the one before it give, and nothing where it
/// changed nothing. A level that was not read is given as 0.
pub proof fn lemma_entries_say_what_changed(
    watched: link::LinkModel,
    before: link::ObservationModel,
    poll: link::ObservationModel,
)
    requires
        watched.previous == Some(before),
    ensures
        !before.connected && poll.connected ==> kinds_for(watched.change(poll)) == seq![
            KindModel::Associated {
                ssid: poll.ssid,
                bssid: poll.bssid,
                rssi_dbm: match poll.rssi_dbm {
                    Some(level) => level,
                    None => 0,
                },
            },
        ],
        before.connected && !poll.connected ==> kinds_for(watched.change(poll)) == seq![
            KindModel::Disconnected { last_bssid: before.bssid },
        ],
        !before.connected && !poll.connected ==> kinds_for(watched.change(poll)).len() == 0,
        before.connected && poll.connected && !link::may_be_one(before.bssid, poll.bssid)
            ==> kinds_for(watched.change(poll)) == seq![
            KindModel::Roamed {
                from_bssid: before.bssid->0,
                to_bssid: poll.bssid->0,
                rssi_dbm: match poll.rssi_dbm {
                    Some(level) => level,
                    None => 0,
                },
            },
        ],
        before.connected && poll.connected && link::may_be_one(before.bssid, poll.bssid) ==> match (
            watched.reported_rssi,
            poll.rssi_dbm,
        ) {
            (Some(from), Some(to)) => if to - from >= watched.threshold_db || from - to
                >= watched.threshold_db {
                kinds_for(watched.change(poll)) == seq![
                    KindModel::SignalShift { bssid: poll.bssid, from_dbm: from, to_dbm: to },
                ]
            } else {
                kinds_for(watched.change(poll)).len() == 0
            },
            _ => kinds_for(watched.change(poll)).len() == 0,
        },
{
}

/// The first poll of a link is an association where it is connected, and nothing
/// where it is not.
pub proof fn lemma_the_first_entry_is_an_association(
    threshold_db: i32,
    poll: link::ObservationModel,
)
    ensures
        kinds_for(link::LinkModel::fresh(threshold_db).change(poll)) == (if poll.connected {
            seq![
                KindModel::Associated {
                    ssid: poll.ssid,
                    bssid: poll.bssid,
                    rssi_dbm: match poll.rssi_dbm {
                        Some(level) => level,
                        None => 0,
                    },
                },
            ]
        } else {
            Seq::<KindModel>::empty()
        }),
{
}

} // verus!
