//! Laws of the firmware's stream of entries: what is told has to do with what is
//! recorded and counted.

use super::detect;
use super::laws::{told, Note, Noted};
use super::metrics::MetricsModel;
use super::recorder;
use super::recorder::ChronicleModel;
use super::types;
use super::types::{ClockReading, EventModel, IdentityModel, MetricsSnapshot, Sink, VecSink};
use crate::link;
use crate::schema;
use crate::wlan;
use crate::wlan::WifiStatus;
use core::convert::Infallible;
use vstd::prelude::*;

verus! {

/// An entry carries its stream, its place in it, the reading of the clock, and
/// what happened where.
pub proof fn lemma_entries_carry_their_stream(
    identity: IdentityModel,
    sequence: u64,
    reading: ClockReading,
    interface_id: Option<Seq<char>>,
    event: EventModel,
)
    ensures
        ({
            let entry = types::entry_of(identity, sequence, reading, interface_id, event);
            &&& entry.schema_version == 1
            &&& entry.device_id == identity.device_id
            &&& entry.boot_id == identity.boot_id
            &&& entry.sequence == sequence
            &&& entry.clock == reading
            &&& entry.interface_id == interface_id
            &&& entry.event == event
            &&& identity.device_id matches Some(device) ==> entry.event_id == schema::event_key(
                device,
                identity.boot_id,
                sequence as nat,
            )
            &&& identity.device_id is None ==> entry.event_id == schema::event_key(
                "anonymous"@,
                identity.boot_id,
                sequence as nat,
            )
        }),
{
}

/// A recorder starts with an empty window and nothing known of a link, at the
/// number that it is given.
pub proof fn lemma_recorders_start_empty<S>(
    sink: S,
    reading: ClockReading,
    identity: IdentityModel,
    initial_sequence: u64,
    threshold_db: i32,
)
    ensures
        ({
            let start = recorder::started_at(
                sink,
                reading,
                identity,
                initial_sequence,
                threshold_db,
            );
            &&& start.sink == sink
            &&& start.identity == identity
            &&& start.next_sequence == initial_sequence
            &&& start.links.dom() == Set::<Seq<char>>::empty()
            &&& start.metrics == MetricsModel::fresh(reading.monotonic_ms)
            &&& threshold_db >= 1 ==> start.threshold_db == threshold_db
            &&& threshold_db < 1 ==> start.threshold_db == 1
        }),
{
    assert(recorder::started_at(
        sink,
        reading,
        identity,
        initial_sequence,
        threshold_db,
    ).links.dom() =~= Set::<Seq<char>>::empty());
}

/// What a recorder is told besides polls is counted as what it is, and changes
/// nothing else.
pub proof fn lemma_notes_are_counted<S>(
    before: ChronicleModel<S>,
    reading: ClockReading,
    flag: bool,
)
    ensures
        recorder::attempting_at(before, reading) == (ChronicleModel {
            metrics: told(
                before.metrics,
                Noted { at_ms: reading.monotonic_ms, note: Note::Attempt },
            ),
            ..before
        }),
        recorder::addressed_at(before, reading) == (ChronicleModel {
            metrics: told(
                before.metrics,
                Noted { at_ms: reading.monotonic_ms, note: Note::Address },
            ),
            ..before
        }),
        recorder::backed_at(before, reading, flag) == (ChronicleModel {
            metrics: told(
                before.metrics,
                Noted { at_ms: reading.monotonic_ms, note: Note::Backend { reachable: flag } },
            ),
            ..before
        }),
        recorder::expecting_at(before, reading, flag) == (ChronicleModel {
            metrics: told(
                before.metrics,
                Noted { at_ms: reading.monotonic_ms, note: Note::Expecting { expected: flag } },
            ),
            ..before
        }),
{
}

/// What is counted of a poll: the poll itself, and a roam after it where the
/// station was on one access point before and is on another now.
pub open spec fn counted(
    metrics: MetricsModel,
    known: Option<link::ObservationModel>,
    poll: link::ObservationModel,
    at_ms: u64,
    reason: Option<u16>,
) -> MetricsModel {
    let after = told(
        metrics,
        Noted {
            at_ms,
            note: Note::Poll { connected: poll.connected, rssi_dbm: poll.rssi_dbm, reason },
        },
    );
    if known is Some && known->0.connected && poll.connected && !link::may_be_one(
        known->0.bssid,
        poll.bssid,
    ) {
        told(after, Noted { at_ms, note: Note::Roam })
    } else {
        after
    }
}

/// What was known of a link: the last poll of it, where there was one.
pub open spec fn last_poll<S>(state: ChronicleModel<S>, id: Seq<char>) -> Option<
    link::ObservationModel,
> {
    if state.links.dom().contains(id) {
        state.links[id].previous
    } else {
        None
    }
}

/// Every poll is counted, whether or not it is recorded and whatever the sink
/// answers, and is what is known of its link from there on; nothing else that is
/// known changes.
pub proof fn lemma_polls_are_counted<S: Sink>(
    before: ChronicleModel<S>,
    reading: ClockReading,
    status: WifiStatus,
    reason: Option<u16>,
    after: ChronicleModel<S>,
    result: Result<usize, S::Error>,
    other: Seq<char>,
)
    requires
        recorder::observed_at(before, reading, status, reason, after, result),
        other != status.interface.guid@,
    ensures
        ({
            let id = status.interface.guid@;
            let poll = wlan::observed(status.connection);
            &&& after.metrics == counted(
                before.metrics,
                last_poll(before, id),
                poll,
                reading.monotonic_ms,
                reason,
            )
            &&& last_poll(after, id) == Some(poll)
            &&& after.links.dom().contains(other) == before.links.dom().contains(other)
            &&& before.links.dom().contains(other) ==> after.links[other] == before.links[other]
            &&& after.identity == before.identity
            &&& after.threshold_db == before.threshold_db
        }),
{
}

/// A poll is recorded exactly where it changed something: one entry for the
/// interface, with the next number and what changed.
pub proof fn lemma_changes_are_recorded(
    before: ChronicleModel<VecSink>,
    reading: ClockReading,
    status: WifiStatus,
    reason: Option<u16>,
    after: ChronicleModel<VecSink>,
    result: Result<usize, Infallible>,
    known: link::ObservationModel,
)
    requires
        recorder::observed_at(before, reading, status, reason, after, result),
        before.links.dom().contains(status.interface.guid@),
        before.links[status.interface.guid@].previous == Some(known),
        before.next_sequence < u64::MAX,
    ensures
        ({
            let id = status.interface.guid@;
            let poll = wlan::observed(status.connection);
            let link = before.links[id];
            let entries = before.sink.entries();
            let record = |event: EventModel|
                types::entry_of(before.identity, before.next_sequence, reading, Some(id), event);
            let silent = after.sink == before.sink && after.next_sequence == before.next_sequence
                && result == Ok::<usize, Infallible>(0);
            let one = after.next_sequence == before.next_sequence + 1 && result == Ok::<
                usize,
                Infallible,
            >(1);
            &&& !known.connected && !poll.connected ==> silent
            &&& !known.connected && poll.connected ==> one && after.sink.entries() == entries.push(
                record(
                    EventModel::Associated {
                        ssid: poll.ssid,
                        bssid: poll.bssid,
                        rssi_dbm: poll.rssi_dbm,
                    },
                ),
            )
            &&& known.connected && !poll.connected ==> one && after.sink.entries() == entries.push(
                record(EventModel::Disconnected { last_bssid: known.bssid, reason_code: reason }),
            )
            &&& known.connected && poll.connected && !link::may_be_one(known.bssid, poll.bssid)
                ==> one && after.sink.entries() == entries.push(
                record(
                    EventModel::Roamed {
                        from_bssid: known.bssid->0,
                        to_bssid: poll.bssid->0,
                        rssi_dbm: poll.rssi_dbm,
                    },
                ),
            )
            &&& known.connected && poll.connected && link::may_be_one(known.bssid, poll.bssid)
                ==> match (link.reported_rssi, poll.rssi_dbm) {
                (Some(from), Some(to)) => if to - from >= link.threshold_db || from - to
                    >= link.threshold_db {
                    one && after.sink.entries() == entries.push(
                        record(
                            EventModel::SignalShift {
                                bssid: poll.bssid,
                                from_dbm: from,
                                to_dbm: to,
                            },
                        ),
                    )
                } else {
                    silent
                },
                _ => silent,
            }
        }),
{
    let id = status.interface.guid@;
    let poll = wlan::observed(status.connection);
    let link = before.links[id];
    detect::lemma_events_say_what_changed(link, known, poll, reason);
    let noted = recorder::polled(before, reading, id, poll, reason);
    if let Some(change) = link.change(poll) {
        let event = detect::event_of(change, reason);
        match result {
            Ok(_) => {
                recorder::lemma_memory_keeps_every_entry(
                    noted,
                    reading,
                    Some(id),
                    event,
                    after,
                    Ok(()),
                );
                recorder::lemma_recording_uses_one_number(
                    noted,
                    reading,
                    Some(id),
                    event,
                    after,
                    Ok(()),
                );
            },
            Err(error) => {
                recorder::lemma_memory_keeps_every_entry(
                    noted,
                    reading,
                    Some(id),
                    event,
                    after,
                    Err(error),
                );
            },
        }
    }
}

/// The first poll of a link is recorded where there is an association, and only
/// there.
pub proof fn lemma_first_polls_are_recorded(
    before: ChronicleModel<VecSink>,
    reading: ClockReading,
    status: WifiStatus,
    reason: Option<u16>,
    after: ChronicleModel<VecSink>,
    result: Result<usize, Infallible>,
)
    requires
        recorder::observed_at(before, reading, status, reason, after, result),
        !before.links.dom().contains(status.interface.guid@),
    ensures
        ({
            let id = status.interface.guid@;
            let poll = wlan::observed(status.connection);
            &&& !poll.connected ==> after.sink == before.sink && result == Ok::<usize, Infallible>(
                0,
            )
            &&& poll.connected ==> result == Ok::<usize, Infallible>(1) && after.sink.entries()
                == before.sink.entries().push(
                types::entry_of(
                    before.identity,
                    before.next_sequence,
                    reading,
                    Some(id),
                    EventModel::Associated {
                        ssid: poll.ssid,
                        bssid: poll.bssid,
                        rssi_dbm: poll.rssi_dbm,
                    },
                ),
            )
        }),
{
    let id = status.interface.guid@;
    let poll = wlan::observed(status.connection);
    let noted = recorder::polled(before, reading, id, poll, reason);
    if poll.connected {
        let event = EventModel::Associated {
            ssid: poll.ssid,
            bssid: poll.bssid,
            rssi_dbm: poll.rssi_dbm,
        };
        match result {
            Ok(_) => {
                recorder::lemma_memory_keeps_every_entry(
                    noted,
                    reading,
                    Some(id),
                    event,
                    after,
                    Ok(()),
                );
            },
            Err(error) => {
                recorder::lemma_memory_keeps_every_entry(
                    noted,
                    reading,
                    Some(id),
                    event,
                    after,
                    Err(error),
                );
            },
        }
    }
}

/// A heartbeat is recorded as one entry of no interface, with what the window
/// counted up to then, and is what the caller gets.
pub proof fn lemma_heartbeats_are_recorded(
    before: ChronicleModel<VecSink>,
    reading: ClockReading,
    after: ChronicleModel<VecSink>,
    result: Result<MetricsSnapshot, Infallible>,
)
    requires
        recorder::emitted_at(before, reading, after, result),
    ensures
        ({
            let snapshot = before.metrics.accounted(reading.monotonic_ms).heartbeat();
            &&& result == Ok::<MetricsSnapshot, Infallible>(snapshot)
            &&& after.sink.entries() == before.sink.entries().push(
                types::entry_of(
                    before.identity,
                    before.next_sequence,
                    reading,
                    None,
                    EventModel::Metrics { snapshot },
                ),
            )
            &&& before.next_sequence < u64::MAX ==> after.next_sequence == before.next_sequence + 1
            &&& after.links == before.links
            &&& after.metrics.window_started_ms == reading.monotonic_ms
        }),
{
    let metrics = before.metrics.accounted(reading.monotonic_ms);
    let noted = ChronicleModel { metrics, ..before };
    let event = EventModel::Metrics { snapshot: metrics.heartbeat() };
    match result {
        Ok(_) => {
            let kept = ChronicleModel { metrics, ..after };
            recorder::lemma_memory_keeps_every_entry(noted, reading, None, event, kept, Ok(()));
            recorder::lemma_recording_uses_one_number(noted, reading, None, event, kept, Ok(()));
        },
        Err(error) => {
            recorder::lemma_memory_keeps_every_entry(
                noted,
                reading,
                None,
                event,
                after,
                Err(error),
            );
        },
    }
}

/// An event of the caller's own is recorded as one entry with the next number,
/// and changes nothing that is known or counted.
pub proof fn lemma_own_events_are_recorded(
    before: ChronicleModel<VecSink>,
    reading: ClockReading,
    interface_id: Option<Seq<char>>,
    event: EventModel,
    after: ChronicleModel<VecSink>,
    result: Result<(), Infallible>,
)
    requires
        recorder::recorded(before, reading, interface_id, event, after, result),
    ensures
        result is Ok,
        after.sink.entries().len() == before.sink.entries().len() + 1,
        after.sink.entries().drop_last() == before.sink.entries(),
        after.sink.entries().last().event == event,
        after.sink.entries().last().interface_id == interface_id,
        after.sink.entries().last().sequence == before.next_sequence,
        after.sink.entries().last().clock == reading,
        before.next_sequence < u64::MAX ==> after.next_sequence == before.next_sequence + 1,
        after.links == before.links,
        after.metrics == before.metrics,
{
    recorder::lemma_memory_keeps_every_entry(before, reading, interface_id, event, after, result);
    recorder::lemma_recording_uses_one_number(before, reading, interface_id, event, after, result);
    assert(after.sink.entries().drop_last() =~= before.sink.entries());
}

/// An interface that is polled for the first time gets a link of its own, with
/// the hysteresis that the recorder was made with.
pub proof fn lemma_new_links_take_the_threshold<S: Sink>(
    before: ChronicleModel<S>,
    reading: ClockReading,
    status: WifiStatus,
    reason: Option<u16>,
    after: ChronicleModel<S>,
    result: Result<usize, S::Error>,
)
    requires
        recorder::observed_at(before, reading, status, reason, after, result),
        !before.links.dom().contains(status.interface.guid@),
        before.threshold_db >= 1,
    ensures
        after.links.dom() == before.links.dom().insert(status.interface.guid@),
        after.links[status.interface.guid@].threshold_db == before.threshold_db,
{
    assert(after.links.dom() =~= before.links.dom().insert(status.interface.guid@));
}

} // verus!
