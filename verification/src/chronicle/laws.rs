//! Laws of the stream of entries: what a poll has to do with what is recorded
//! of it.

use super::detect;
use super::recorder;
use super::recorder::{
    CollectorEvent, CollectorSample, EventModel, RecorderModel, SampleModel, WatchModel,
};
use crate::chronicle;
use crate::chronicle::{ClockQuality, IdentityModel, KindModel, Sink, Stamp, VecSink};
use crate::link;
use crate::scan;
use crate::scan::Class;
use crate::schema;
use crate::text;
use crate::time;
use vstd::prelude::*;

verus! {

// ---------------------------------------------------------------------------
// Entries and identities
// ---------------------------------------------------------------------------

/// An entry carries its stream, its place in it, its time in both forms, and
/// what happened where.
pub proof fn lemma_entries_carry_their_stream(
    identity: IdentityModel,
    sequence: u64,
    stamp: Stamp,
    interface_guid: Option<Seq<char>>,
    kind: KindModel,
)
    ensures
        ({
            let entry = chronicle::entry_of(identity, sequence, stamp, interface_guid, kind);
            &&& entry.schema_version == 1
            &&& entry.device_id == identity.device_id
            &&& entry.boot_id == identity.boot_id
            &&& entry.sequence == sequence
            &&& entry.quality == identity.clock_quality
            &&& entry.source == "system_utc"@
            &&& entry.monotonic_ms == stamp.monotonic_ms
            &&& entry.epoch_seconds == stamp.epoch_seconds
            &&& entry.time == time::epoch_text(stamp.epoch_seconds as int)
            &&& entry.interface_guid == interface_guid
            &&& entry.kind == kind
            &&& identity.device_id matches Some(device) ==> entry.event_id == schema::event_key(
                device,
                identity.boot_id,
                sequence as nat,
            )
            &&& identity.device_id is None ==> entry.event_id == schema::event_key(
                "anonymous"@,
                identity.boot_id,
                sequence as nat,
            )
        }),
{
}

/// Entries of one stream have keys of their own.
pub proof fn lemma_entries_have_their_own_keys(
    identity: IdentityModel,
    sequence: u64,
    other: u64,
    stamp: Stamp,
    interface_guid: Option<Seq<char>>,
    kind: KindModel,
)
    requires
        sequence != other,
    ensures
        chronicle::entry_of(identity, sequence, stamp, interface_guid, kind).event_id
            != chronicle::entry_of(identity, other, stamp, interface_guid, kind).event_id,
{
    let device = schema::device_component(identity.device_id);
    if schema::event_key(device, identity.boot_id, sequence as nat) == schema::event_key(
        device,
        identity.boot_id,
        other as nat,
    ) {
        schema::lemma_event_keys_are_unambiguous(
            device,
            identity.boot_id,
            sequence as nat,
            device,
            identity.boot_id,
            other as nat,
        );
    }
}

/// A blank device name is none; another one is kept as it is. A boot id is bared
/// of the white space around it, and where there is none the process stands in.
pub proof fn lemma_identities_are_bared(
    before: Seq<char>,
    name: Seq<char>,
    after: Seq<char>,
    process_id: u32,
    started_epoch: i64,
)
    requires
        scan::all_in(before, Class::Space),
        scan::all_in(after, Class::Space),
        name.len() > 0,
        !scan::is_space(name[0]),
        !scan::is_space(name.last()),
    ensures
        ({
            let full = before + name + after;
            let known = chronicle::identity_of(Some(full), Some(full), process_id, started_epoch);
            let blank = chronicle::identity_of(
                Some(before),
                Some(after),
                process_id,
                started_epoch,
            );
            let bare = chronicle::identity_of(None, None, process_id, started_epoch);
            let process = "process-"@ + text::decimal(process_id as nat) + "-"@
                + text::signed_decimal(started_epoch as int);
            &&& known.device_id == Some(full)
            &&& known.boot_id == name
            &&& blank.device_id is None
            &&& blank.boot_id == process
            &&& bare.device_id is None
            &&& bare.boot_id == process
            &&& known.clock_quality == ClockQuality::Unknown
            &&& blank.clock_quality == ClockQuality::Unknown
        }),
{
    scan::lemma_trimming_bares_the_text(before, name, after, Class::Space);
    scan::lemma_trimming_leaves_nothing(before, Class::Space);
    scan::lemma_trimming_leaves_nothing(after, Class::Space);
}

// ---------------------------------------------------------------------------
// Polls
// ---------------------------------------------------------------------------

/// An event of an interface.
pub open spec fn told_of(interface_id: Seq<char>, kind: KindModel) -> EventModel {
    EventModel { interface_id: Some(interface_id), kind }
}

/// A sample says what changed of its own link since the one before it, and of no
/// other: connecting, losing the link, another access point, or a level that
/// moved far enough either way.
pub proof fn lemma_samples_say_what_changed(
    watch: WatchModel,
    id: Seq<char>,
    before: link::ObservationModel,
    poll: link::ObservationModel,
    other: Seq<char>,
)
    requires
        watch.links.dom().contains(id),
        watch.links[id].previous == Some(before),
        !watch.interface_errors.dom().contains(id),
        other != id,
    ensures
        ({
            let sample = SampleModel { interface_id: id, observation: Some(poll), failure: None };
            let (after, told) = recorder::sample_step(watch, sample);
            let level = match poll.rssi_dbm {
                Some(level) => level,
                None => 0,
            };
            &&& after.links.dom().contains(id) && after.links[id].previous == Some(poll)
            &&& after.links.dom().contains(other) == watch.links.dom().contains(other)
            &&& watch.links.dom().contains(other) ==> after.links[other] == watch.links[other]
            &&& !before.connected && !poll.connected ==> told.len() == 0
            &&& !before.connected && poll.connected ==> told == seq![
                told_of(
                    id,
                    KindModel::Associated { ssid: poll.ssid, bssid: poll.bssid, rssi_dbm: level },
                ),
            ]
            &&& before.connected && !poll.connected ==> told == seq![
                told_of(id, KindModel::Disconnected { last_bssid: before.bssid }),
            ]
            &&& before.connected && poll.connected && !link::may_be_one(before.bssid, poll.bssid)
                ==> told == seq![
                told_of(
                    id,
                    KindModel::Roamed {
                        from_bssid: before.bssid->0,
                        to_bssid: poll.bssid->0,
                        rssi_dbm: level,
                    },
                ),
            ]
            &&& before.connected && poll.connected && link::may_be_one(before.bssid, poll.bssid)
                ==> match (watch.links[id].reported_rssi, poll.rssi_dbm) {
                (Some(from), Some(to)) => if to - from >= watch.links[id].threshold_db || from - to
                    >= watch.links[id].threshold_db {
                    told == seq![
                        told_of(
                            id,
                            KindModel::SignalShift {
                                bssid: poll.bssid,
                                from_dbm: from,
                                to_dbm: to,
                            },
                        ),
                    ]
                } else {
                    told.len() == 0
                },
                _ => told.len() == 0,
            }
        }),
{
    let watched = watch.links[id];
    detect::lemma_entries_say_what_changed(watched, before, poll);
    let change = watched.change(poll);
    let kinds = detect::kinds_for(change);
    let told = recorder::link_events(id, change);
    assert(kinds.len() == told.len());
    if change is Some {
        assert(kinds[0] == told[0].kind);
        assert(kinds =~= seq![kinds[0]]);
    }
    let none: Seq<EventModel> = seq![];
    assert(none + told =~= told);
}

/// A failed query for events is reported once, under a source of its own, and so
/// is the recovery from it; events are passed on as they came, and no query says
/// anything of a link.
pub proof fn lemma_event_queries_are_reported(
    watch: WatchModel,
    source: Seq<char>,
    message: String,
    list: Vec<CollectorEvent>,
)
    ensures
        ({
            let own = source + "_events"@;
            let (failed, told) = recorder::events_step(watch, source, Err(message));
            let (well, recovered) = recorder::events_step(failed, source, Ok(list));
            let fault = EventModel {
                interface_id: None,
                kind: KindModel::CollectorError { source: own, message: message@ },
            };
            let recovery = EventModel {
                interface_id: None,
                kind: KindModel::CollectorRecovered { source: own },
            };
            &&& watch.event_error != Some(message@) ==> told == seq![fault]
            &&& watch.event_error == Some(message@) ==> told.len() == 0
            &&& recorder::events_step(failed, source, Err(message)).1.len() == 0
            &&& recovered == seq![recovery] + recorder::event_models(list@)
            &&& recorder::events_step(well, source, Ok(list)).1 == recorder::event_models(list@)
            &&& failed.links == watch.links && well.links == watch.links
            &&& failed.interface_errors == watch.interface_errors
            &&& failed.collector_error == watch.collector_error
        }),
{
}

/// A failed poll is reported once, under the collector's name, and so is the
/// recovery from it, ahead of what the samples say.
pub proof fn lemma_failed_polls_are_reported(
    watch: WatchModel,
    source: Seq<char>,
    message: String,
    list: Vec<CollectorSample>,
)
    ensures
        ({
            let (failed, told) = recorder::collected_step(watch, source, Err(message));
            let (well, recovered) = recorder::collected_step(failed, source, Ok(list));
            let fault = EventModel {
                interface_id: None,
                kind: KindModel::CollectorError { source, message: message@ },
            };
            let recovery = EventModel {
                interface_id: None,
                kind: KindModel::CollectorRecovered { source },
            };
            &&& watch.collector_error != Some(message@) ==> told == seq![fault]
            &&& watch.collector_error == Some(message@) ==> told.len() == 0
            &&& recorder::collected_step(failed, source, Err(message)).1.len() == 0
            &&& recovered.len() > 0 && recovered[0] == recovery
            &&& watch.collector_error is None ==> recovered.drop_first()
                == recorder::collected_step(watch, source, Ok(list)).1
            &&& watch.collector_error is None ==> well.links == recorder::collected_step(
                watch,
                source,
                Ok(list),
            ).0.links
            &&& failed.links == watch.links
            &&& failed.interface_errors == watch.interface_errors
        }),
{
    let failed = recorder::collected_step(watch, source, Err(message)).0;
    let recovered = recorder::collected_step(failed, source, Ok(list)).1;
    let calm = WatchModel { collector_error: None, ..watch };
    assert((WatchModel { collector_error: None, ..failed }) =~= calm);
    if watch.collector_error is None {
        assert(recovered.drop_first() =~= recorder::collected_step(watch, source, Ok(list)).1);
    }
}

/// A poll in which nothing fails records what its samples say, one after
/// another, and the events that it collected after them.
pub proof fn lemma_polls_record_samples_then_events(
    watch: WatchModel,
    source: Seq<char>,
    samples: Vec<CollectorSample>,
    list: Vec<CollectorEvent>,
)
    requires
        watch.collector_error is None,
        watch.event_error is None,
    ensures
        ({
            let (after, told) = recorder::poll_step(watch, source, Ok(samples), Ok(list));
            let (left, changes) = recorder::samples_step(
                watch,
                recorder::sample_models(samples@),
            );
            &&& told == changes + recorder::event_models(list@)
            &&& after.links == left.links
            &&& after.interface_errors == left.interface_errors
            &&& after.collector_error is None
            &&& after.event_error is None
        }),
{
    let calm = WatchModel { collector_error: None, ..watch };
    assert(calm =~= watch);
    lemma_samples_leave_the_rest(watch, recorder::sample_models(samples@));
}

proof fn lemma_samples_leave_the_rest(watch: WatchModel, samples: Seq<SampleModel>)
    ensures
        recorder::samples_step(watch, samples).0.event_error == watch.event_error,
        recorder::samples_step(watch, samples).0.collector_error == watch.collector_error,
        recorder::samples_step(watch, samples).0.threshold_db == watch.threshold_db,
    decreases samples.len(),
{
    if samples.len() > 0 {
        lemma_samples_leave_the_rest(watch, samples.drop_last());
    }
}

/// Samples are taken in one after another: the first of them on its own, and the
/// others from what it left.
pub proof fn lemma_samples_are_taken_in_order(watch: WatchModel, samples: Seq<SampleModel>)
    requires
        samples.len() > 0,
    ensures
        ({
            let (after, told) = recorder::samples_step(watch, samples);
            let (first, heard) = recorder::sample_step(watch, samples[0]);
            let (rest, more) = recorder::samples_step(first, samples.drop_first());
            after == rest && told == heard + more
        }),
    decreases samples.len(),
{
    let shorter = samples.drop_last();
    let (first, heard) = recorder::sample_step(watch, samples[0]);
    if samples.len() == 1 {
        assert(shorter =~= seq![]);
        assert(samples.drop_first() =~= seq![]);
        let none: Seq<EventModel> = seq![];
        assert(none + heard =~= heard);
        assert(heard + none =~= heard);
    } else {
        lemma_samples_are_taken_in_order(watch, shorter);
        assert(shorter.drop_first() =~= samples.drop_first().drop_last());
        assert(samples.drop_first().last() == samples.last());
        let (before, earlier) = recorder::samples_step(watch, shorter);
        let (_, some) = recorder::samples_step(first, shorter.drop_first());
        let (_, last) = recorder::sample_step(before, samples.last());
        assert(heard + some + last =~= heard + (some + last));
    }
}

// ---------------------------------------------------------------------------
// Numbers
// ---------------------------------------------------------------------------

/// The entries of a step are numbered one after another, as far as numbers go,
/// and the next step goes on where this one ended.
pub proof fn lemma_steps_are_numbered(
    before: RecorderModel<VecSink>,
    events: Seq<EventModel>,
    stamps: Seq<Stamp>,
    after: RecorderModel<VecSink>,
    result: Result<usize, std::io::Error>,
    i: int,
)
    requires
        recorder::recorded(before, events, stamps, after, result),
        before.next_sequence + events.len() <= u64::MAX,
        0 <= i < events.len(),
    ensures
        after.next_sequence == before.next_sequence + events.len(),
        ({
            let old_count = before.sink.entries().len();
            let entry = after.sink.entries()[old_count + i];
            &&& after.sink.entries().len() == old_count + events.len()
            &&& after.sink.entries().take(old_count as int) == before.sink.entries()
            &&& entry.sequence == before.next_sequence + i
            &&& entry.kind == events[i].kind
            &&& entry.interface_guid == events[i].interface_id
            &&& entry.boot_id == before.identity.boot_id
            &&& entry.device_id == before.identity.device_id
            &&& entry.epoch_seconds == stamps[i].epoch_seconds
            &&& entry.monotonic_ms == stamps[i].monotonic_ms
        }),
{
    recorder::lemma_memory_keeps_every_entry(before, events, stamps, after, result);
    let entries = recorder::step_entries(
        before.identity,
        before.next_sequence,
        events,
        stamps,
        events.len(),
    );
    let old_count = before.sink.entries().len();
    assert(after.sink.entries()[old_count + i] == entries[i]);
    assert(after.sink.entries().take(old_count as int) =~= before.sink.entries());
}

/// An interface that is polled for the first time gets a link of its own, with
/// the hysteresis that the recorder was made with, or 1 where that is less.
pub proof fn lemma_new_links_take_the_threshold(
    watch: WatchModel,
    id: Seq<char>,
    poll: link::ObservationModel,
)
    requires
        !watch.links.dom().contains(id),
    ensures
        ({
            let sample = SampleModel { interface_id: id, observation: Some(poll), failure: None };
            let (after, _) = recorder::sample_step(watch, sample);
            &&& after.links.dom() == watch.links.dom().insert(id)
            &&& after.links[id].previous == Some(poll)
            &&& watch.threshold_db >= 1 ==> after.links[id].threshold_db == watch.threshold_db
            &&& watch.threshold_db < 1 ==> after.links[id].threshold_db == 1
            &&& after.threshold_db == watch.threshold_db
        }),
        recorder::fresh_watch(watch.threshold_db).threshold_db == watch.threshold_db,
        recorder::fresh_watch(watch.threshold_db).links.dom() == Set::<Seq<char>>::empty(),
        recorder::fresh_watch(watch.threshold_db).collector_error is None,
        recorder::fresh_watch(watch.threshold_db).event_error is None,
{
    let sample = SampleModel { interface_id: id, observation: Some(poll), failure: None };
    let (after, _) = recorder::sample_step(watch, sample);
    assert(after.links.dom() =~= watch.links.dom().insert(id));
    assert(recorder::fresh_watch(watch.threshold_db).links.dom() =~= Set::<Seq<char>>::empty());
}

/// Every entry that is handed to a sink uses up a number, whether or not the
/// sink takes it: after a step without an error all of them are used up, and
/// after one with an error at least one is, and none beyond the events.
pub proof fn lemma_numbers_are_used_up<S: Sink>(
    before: RecorderModel<S>,
    events: Seq<EventModel>,
    stamps: Seq<Stamp>,
    after: RecorderModel<S>,
    result: Result<usize, std::io::Error>,
)
    requires
        recorder::recorded(before, events, stamps, after, result),
        before.next_sequence + events.len() <= u64::MAX,
    ensures
        result matches Ok(count) ==> count == events.len() && after.next_sequence
            == before.next_sequence + events.len(),
        result is Err ==> events.len() > 0 && before.next_sequence < after.next_sequence
            <= before.next_sequence + events.len(),
        events.len() == 0 ==> result is Ok && after.sink == before.sink,
{
    if events.len() == 0 {
        assert(exists|between: S, flushed: Result<(), std::io::Error>| #[trigger]
            recorder::step_completes(before, events, stamps, between, flushed, after, result));
        let (between, flushed) = choose|between: S, flushed: Result<(), std::io::Error>| #[trigger]
            recorder::step_completes(before, events, stamps, between, flushed, after, result);
        let states = choose|states: Seq<S>|
            {
                &&& #[trigger] recorder::passes_through(
                    states,
                    before.identity,
                    before.next_sequence,
                    events,
                    stamps,
                    events.len() as int,
                )
                &&& states[0] == before.sink
                &&& states.last() == between
            };
        assert(states[0] == states.last());
    }
}

} // verus!
