//! Link changes as chronicle events.

use super::types::{EventKind, EventModel};
use crate::link;
use crate::link::{Change, LinkTracker, Observation};
use vstd::prelude::*;

verus! {

/// The event that reports a change. Only a disconnect has a reason.
pub open spec fn event_of(change: link::ChangeModel, reason: Option<u16>) -> EventModel {
    match change {
        link::ChangeModel::Associated { ssid, bssid, rssi_dbm } => EventModel::Associated {
            ssid,
            bssid,
            rssi_dbm,
        },
        link::ChangeModel::Disconnected { last_bssid } => EventModel::Disconnected {
            last_bssid,
            reason_code: reason,
        },
        link::ChangeModel::Roamed { from_bssid, to_bssid, rssi_dbm } => EventModel::Roamed {
            from_bssid,
            to_bssid,
            rssi_dbm,
        },
        link::ChangeModel::SignalShift { bssid, from_dbm, to_dbm } => EventModel::SignalShift {
            bssid,
            from_dbm,
            to_dbm,
        },
    }
}

/// Emits an event only on change, with hysteresis on signal level.
#[derive(Debug)]
pub struct ChangeDetector {
    link: LinkTracker,
}

impl View for ChangeDetector {
    type V = link::LinkModel;

    closed spec fn view(&self) -> link::LinkModel {
        self.link@
    }
}

impl ChangeDetector {
    pub fn new(threshold_db: i32) -> (r: Self)
        ensures
            r@ == link::LinkModel::fresh(threshold_db),
    {
        ChangeDetector { link: LinkTracker::new(threshold_db) }
    }

    /// Feed one observation; returns the event it implies.
    pub fn observe(&mut self, current: Observation, reason: Option<u16>) -> (r: Option<EventKind>)
        ensures
            final(self)@ == old(self)@.after(current@),
            match r {
                Some(event) => old(self)@.change(current@) is Some && event@ == event_of(
                    old(self)@.change(current@)->0,
                    reason,
                ),
                None => old(self)@.change(current@) is None,
            },
    {
        match self.link.observe(current) {
            Some(Change::Associated { ssid, bssid, rssi_dbm }) => Some(
                EventKind::Associated { ssid, bssid, rssi_dbm },
            ),
            Some(Change::Disconnected { last_bssid }) => Some(
                EventKind::Disconnected { last_bssid, reason_code: reason },
            ),
            Some(Change::Roamed { from_bssid, to_bssid, rssi_dbm }) => Some(
                EventKind::Roamed { from_bssid, to_bssid, rssi_dbm },
            ),
            Some(Change::SignalShift { bssid, from_dbm, to_dbm }) => Some(
                EventKind::SignalShift { bssid, from_dbm, to_dbm },
            ),
            None => None,
        }
    }
}

/// What a poll makes the chronicle say, with the values that the poll and the
/// one before it give; only a disconnect carries the reason.
pub proof fn lemma_events_say_what_changed(
    watched: link::LinkModel,
    before: link::ObservationModel,
    poll: link::ObservationModel,
    reason: Option<u16>,
)
    requires
        watched.previous == Some(before),
    ensures
        !before.connected && poll.connected ==> watched.change(poll) is Some && event_of(
            watched.change(poll)->0,
            reason,
        ) == (EventModel::Associated {
            ssid: poll.ssid,
            bssid: poll.bssid,
            rssi_dbm: poll.rssi_dbm,
        }),
        before.connected && !poll.connected ==> watched.change(poll) is Some && event_of(
            watched.change(poll)->0,
            reason,
        ) == (EventModel::Disconnected { last_bssid: before.bssid, reason_code: reason }),
        !before.connected && !poll.connected ==> watched.change(poll) is None,
        before.connected && poll.connected && !link::may_be_one(before.bssid, poll.bssid)
            ==> watched.change(poll) is Some && event_of(watched.change(poll)->0, reason) == (
        EventModel::Roamed {
            from_bssid: before.bssid->0,
            to_bssid: poll.bssid->0,
            rssi_dbm: poll.rssi_dbm,
        }),
        before.connected && poll.connected && link::may_be_one(before.bssid, poll.bssid) ==> match (
            watched.reported_rssi,
            poll.rssi_dbm,
        ) {
            (Some(from), Some(to)) => if to - from >= watched.threshold_db || from - to
                >= watched.threshold_db {
                watched.change(poll) is Some && event_of(watched.change(poll)->0, reason) == (
                EventModel::SignalShift { bssid: poll.bssid, from_dbm: from, to_dbm: to })
            } else {
                watched.change(poll) is None
            },
            _ => watched.change(poll) is None,
        },
{
}

} // verus!
