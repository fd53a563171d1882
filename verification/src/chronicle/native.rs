//! What the operating system's collector makes of what it reads.

use super::recorder;
use super::recorder::{CollectorEvent, CollectorSample};
use crate::chronicle;
use crate::chronicle::EntryKind;
use crate::counting;
use crate::events;
use crate::events::WlanEvent;
use crate::text::owned;
use crate::time;
use crate::wlan;
use crate::wlan::{observation, WifiStatus};
use std::time::Duration;
use vstd::prelude::*;

verus! {

// ---------------------------------------------------------------------------
// Samples
// ---------------------------------------------------------------------------

/// What a poll of an interface says. A query that failed is a failure to
/// observe, and no disconnect.
pub open spec fn sampled(status: WifiStatus) -> recorder::SampleModel {
    match status.connection_error {
        Some(message) => recorder::SampleModel {
            interface_id: status.interface.guid@,
            observation: None,
            failure: Some(
                recorder::FailureModel { source: "current_connection"@, message: message@ },
            ),
        },
        None => recorder::SampleModel {
            interface_id: status.interface.guid@,
            observation: Some(wlan::observed(status.connection)),
            failure: None,
        },
    }
}

/// The samples that polled interfaces amount to.
pub fn samples_of(statuses: &Vec<WifiStatus>) -> (r: Vec<CollectorSample>)
    ensures
        recorder::sample_models(r@) == statuses@.map_values(|status: WifiStatus| sampled(status)),
{
    let mut samples: Vec<CollectorSample> = Vec::new();
    let mut i: usize = 0;
    while i < statuses.len()
        invariant
            i <= statuses@.len(),
            samples@.len() == i,
            forall|j: int| 0 <= j < i ==> (#[trigger] samples@[j])@ == sampled(statuses@[j]),
        decreases statuses@.len() - i,
    {
        let status = &statuses[i];
        let interface_id = status.interface.guid.as_str();
        let sample = match &status.connection_error {
            Some(message) => CollectorSample::failed(
                interface_id,
                "current_connection",
                message.as_str(),
            ),
            None => CollectorSample::observed(interface_id, observation(&status.connection)),
        };
        samples.push(sample);
        i = i + 1;
    }
    proof {
        assert(recorder::sample_models(samples@) =~= statuses@.map_values(
            |status: WifiStatus| sampled(status),
        ));
    }
    samples
}

// ---------------------------------------------------------------------------
// The tail of the event log
// ---------------------------------------------------------------------------

/// How far back a poll looks into the event log: two intervals, but no less
/// than two minutes and no more than an hour.
pub open spec fn lookback_for(interval_seconds: int) -> int {
    if 2 * interval_seconds < 120 {
        120
    } else if 2 * interval_seconds > 3_600 {
        3_600
    } else {
        2 * interval_seconds
    }
}

/// How many of the newest events of the log a poll reads at most.
pub const LOG_EVENTS_PER_POLL: usize = 512;

/// How many seconds of the event log a poll reads.
pub fn lookback(interval: Duration) -> (r: u64)
    ensures
        r == lookback_for(time::duration_nanos(interval) as int / 1_000_000_000),
{
    let seconds: u64 = interval.as_secs();
    if seconds < 60 {
        120
    } else if seconds > 1_800 {
        3_600
    } else {
        2 * seconds
    }
}

/// How far the event log was read.
#[derive(Debug, Clone, Copy)]
pub struct NativeCollector {
    pub last_log_epoch: i64,
    pub last_log_record_id: Option<u64>,
}

/// Whether an event was not read before. Record numbers decide where they are
/// known, times elsewhere.
pub open spec fn is_fresh(tail: NativeCollector, event: events::EventModel) -> bool {
    match (tail.last_log_record_id, event.record_id) {
        (Some(previous), Some(record)) => record > previous,
        _ => event.epoch_seconds > tail.last_log_epoch,
    }
}

/// What tells whether an event was not read before.
pub open spec fn fresh_to(tail: NativeCollector) -> spec_fn(events::EventModel) -> bool {
    |event: events::EventModel| is_fresh(tail, event)
}

/// The events that were not read before, oldest first; the log gives the newest
/// first.
pub open spec fn fresh(tail: NativeCollector, log: Seq<events::EventModel>) -> Seq<
    events::EventModel,
> {
    log.filter(fresh_to(tail)).reverse()
}

/// The lowest record number among events.
pub open spec fn lowest_record(log: Seq<events::EventModel>) -> Option<u64>
    decreases log.len(),
{
    if log.len() == 0 {
        None
    } else {
        match (lowest_record(log.drop_last()), log.last().record_id) {
            (Some(low), Some(record)) => Some(
                if record < low {
                    record
                } else {
                    low
                },
            ),
            (None, Some(record)) => Some(record),
            (low, None) => low,
        }
    }
}

/// The highest record number among events.
pub open spec fn highest_record(log: Seq<events::EventModel>) -> Option<u64>
    decreases log.len(),
{
    if log.len() == 0 {
        None
    } else {
        match (highest_record(log.drop_last()), log.last().record_id) {
            (Some(high), Some(record)) => Some(
                if record > high {
                    record
                } else {
                    high
                },
            ),
            (None, Some(record)) => Some(record),
            (high, None) => high,
        }
    }
}

/// The latest time among events and `since`.
pub open spec fn latest(since: i64, log: Seq<events::EventModel>) -> i64
    decreases log.len(),
{
    if log.len() == 0 {
        since
    } else {
        let before = latest(since, log.drop_last());
        if log.last().epoch_seconds > before {
            log.last().epoch_seconds
        } else {
            before
        }
    }
}

/// The gap before the events that were not read before, if records are missing
/// there: the log rotated, or outran the poll.
pub open spec fn gap(tail: NativeCollector, log: Seq<events::EventModel>) -> Seq<
    recorder::EventModel,
> {
    match (tail.last_log_record_id, lowest_record(fresh(tail, log))) {
        (Some(previous), Some(first)) => if first > previous + 1 {
            seq![
                recorder::EventModel {
                    interface_id: None,
                    kind: chronicle::KindModel::HistoryGap {
                        after_record_id: previous,
                        before_record_id: first,
                    },
                },
            ]
        } else {
            seq![]
        },
        _ => seq![],
    }
}

/// What a log event is recorded as.
pub open spec fn logged(event: events::EventModel) -> recorder::EventModel {
    recorder::EventModel {
        interface_id: match event.field("InterfaceGuid"@) {
            Some(guid) => Some(guid),
            None => event.field("DeviceGuid"@),
        },
        kind: chronicle::KindModel::LogEvent {
            event_id: event.event_id,
            record_id: event.record_id,
            meaning: event.meaning,
            fields: event.data,
        },
    }
}

/// What a read of the log is recorded as.
pub open spec fn tailed(tail: NativeCollector, log: Seq<events::EventModel>) -> Seq<
    recorder::EventModel,
> {
    gap(tail, log) + fresh(tail, log).map_values(|event: events::EventModel| logged(event))
}

/// How far the log was read after a read of it.
pub open spec fn moved(tail: NativeCollector, log: Seq<events::EventModel>) -> NativeCollector {
    NativeCollector {
        last_log_epoch: latest(tail.last_log_epoch, log),
        last_log_record_id: match highest_record(log) {
            Some(newest) => Some(
                match tail.last_log_record_id {
                    Some(previous) => if previous > newest {
                        previous
                    } else {
                        newest
                    },
                    None => newest,
                },
            ),
            None => tail.last_log_record_id,
        },
    }
}

fn is_new(tail: &NativeCollector, event: &WlanEvent) -> (r: bool)
    ensures
        r == is_fresh(*tail, event@),
{
    match (tail.last_log_record_id, event.record_id) {
        (Some(previous), Some(record)) => record > previous,
        _ => event.epoch_seconds > tail.last_log_epoch,
    }
}

fn log_event(event: &WlanEvent) -> (r: CollectorEvent)
    ensures
        r@ == logged(event@),
{
    let r = CollectorEvent {
        interface_id: owned(event.interface_guid()),
        kind: EntryKind::LogEvent {
            event_id: event.event_id,
            record_id: event.record_id,
            meaning: event.meaning.to_owned(),
            fields: event.data.clone(),
        },
    };
    proof {
        assert(chronicle::field_texts(event.data) =~= event@.data);
    }
    r
}

proof fn lemma_reversed_prefix(log: Seq<events::EventModel>, tail: NativeCollector, i: int)
    requires
        0 < i <= log.len(),
    ensures
        fresh(tail, log.take(i)) == (if is_fresh(tail, log[i - 1]) {
            seq![log[i - 1]] + fresh(tail, log.take(i - 1))
        } else {
            fresh(tail, log.take(i - 1))
        }),
{
    reveal(Seq::filter);
    assert(log.take(i).drop_last() =~= log.take(i - 1));
    if is_fresh(tail, log[i - 1]) {
        assert(fresh(tail, log.take(i)) =~= seq![log[i - 1]] + fresh(tail, log.take(i - 1)));
    }
}

impl NativeCollector {
    /// Start to read the log at a time.
    pub fn from_time(now: i64) -> (r: Self)
        ensures
            r.last_log_epoch == now,
            r.last_log_record_id is None,
    {
        NativeCollector { last_log_epoch: now, last_log_record_id: None }
    }

    /// What a poll of the log comes to: what is to be recorded of the events
    /// that it read, or the failure to read them, after which the next poll
    /// starts where this one did.
    pub fn collect_events(&mut self, log: Result<Vec<WlanEvent>, String>) -> (r: Result<
        Vec<CollectorEvent>,
        String,
    >)
        ensures
            match log {
                Ok(log) => {
                    &&& r is Ok
                    &&& recorder::event_models(r->Ok_0@) == tailed(
                        *old(self),
                        events::models(log@),
                    )
                    &&& *final(self) == moved(*old(self), events::models(log@))
                },
                Err(message) => {
                    &&& r == Err::<Vec<CollectorEvent>, String>(message)
                    &&& *final(self) == *old(self)
                },
            },
    {
        match log {
            Ok(log) => Ok(self.absorb_log(&log)),
            Err(message) => Err(message),
        }
    }

    /// What is to be recorded of a read of the log, which has the newest event
    /// first. What was read before is not recorded again, and records that are
    /// missing in between are recorded as a gap.
    pub fn absorb_log(&mut self, log: &Vec<WlanEvent>) -> (r: Vec<CollectorEvent>)
        ensures
            recorder::event_models(r@) == tailed(*old(self), events::models(log@)),
            *final(self) == moved(*old(self), events::models(log@)),
    {
        let tail: NativeCollector = *self;
        let ghost all = events::models(log@);
        let mut out: Vec<CollectorEvent> = Vec::new();
        let first: Option<u64> = self.first_fresh(log);
        match (tail.last_log_record_id, first) {
            (Some(previous), Some(first)) => if first > previous && first - previous > 1 {
                out.push(
                    CollectorEvent {
                        interface_id: None,
                        kind: EntryKind::HistoryGap {
                            after_record_id: previous,
                            before_record_id: first,
                        },
                    },
                );
            },
            _ => {},
        }
        proof {
            assert(recorder::event_models(out@) =~= gap(tail, all));
            assert(all.take(log@.len() as int) =~= all);
        }
        let mut i: usize = log.len();
        let ghost as_logged = |event: events::EventModel| logged(event);
        proof {
            assert(recorder::event_models(out@) + fresh(tail, all.take(i as int)).map_values(
                as_logged,
            ) =~= tailed(tail, all));
        }
        while i > 0
            invariant
                i <= log@.len(),
                all == events::models(log@),
                as_logged == (|event: events::EventModel| logged(event)),
                recorder::event_models(out@) + fresh(tail, all.take(i as int)).map_values(as_logged)
                    == tailed(tail, all),
            decreases i,
        {
            let ghost before = out@;
            proof {
                lemma_reversed_prefix(all, tail, i as int);
                assert(all[i - 1] == log@[i - 1]@);
            }
            if is_new(&tail, &log[i - 1]) {
                let event = log_event(&log[i - 1]);
                out.push(event);
                proof {
                    let rest = fresh(tail, all.take(i - 1));
                    assert((seq![all[i - 1]] + rest).map_values(as_logged) =~= seq![event@]
                        + rest.map_values(as_logged));
                    assert(recorder::event_models(out@) =~= recorder::event_models(before).push(
                        event@,
                    ));
                    assert(recorder::event_models(out@) + rest.map_values(as_logged)
                        =~= recorder::event_models(before) + (seq![all[i - 1]] + rest).map_values(
                        as_logged,
                    ));
                }
            }
            i = i - 1;
        }
        proof {
            reveal(Seq::filter);
            assert(fresh(tail, all.take(0)) =~= seq![]);
            assert(recorder::event_models(out@) + fresh(tail, all.take(0)).map_values(as_logged)
                =~= recorder::event_models(out@));
        }
        self.move_on(log);
        out
    }

    fn first_fresh(&self, log: &Vec<WlanEvent>) -> (r: Option<u64>)
        ensures
            r == lowest_record(fresh(*self, events::models(log@))),
    {
        let ghost all = events::models(log@);
        let ghost wanted = fresh(*self, all);
        let mut low: Option<u64> = None;
        let mut i: usize = log.len();
        let ghost mut n: int = 0;
        proof {
            assert(all.take(log@.len() as int) =~= all);
            assert(wanted.take(0) =~= seq![]);
            assert(wanted.skip(0) =~= wanted);
        }
        while i > 0
            invariant
                i <= log@.len(),
                all == events::models(log@),
                wanted == fresh(*self, all),
                0 <= n <= wanted.len(),
                wanted.skip(n) == fresh(*self, all.take(i as int)),
                low == lowest_record(wanted.take(n)),
            decreases i,
        {
            proof {
                lemma_reversed_prefix(all, *self, i as int);
                assert(all[i - 1] == log@[i - 1]@);
            }
            if is_new(self, &log[i - 1]) {
                proof {
                    assert(wanted.skip(n).len() > 0);
                    assert(wanted.skip(n)[0] == all[i - 1]);
                    assert(wanted.take(n + 1).drop_last() =~= wanted.take(n));
                    assert(wanted.take(n + 1).last() == all[i - 1]);
                    assert(wanted.skip(n + 1) =~= wanted.skip(n).drop_first());
                    assert((seq![all[i - 1]] + fresh(*self, all.take(i - 1))).drop_first()
                        =~= fresh(*self, all.take(i - 1)));
                }
                match log[i - 1].record_id {
                    Some(record) => {
                        low = match low {
                            Some(known) => if record < known {
                                Some(record)
                            } else {
                                Some(known)
                            },
                            None => Some(record),
                        };
                    },
                    None => {},
                }
                proof {
                    n = n + 1;
                }
            }
            i = i - 1;
        }
        proof {
            reveal(Seq::filter);
            assert(fresh(*self, all.take(0)) =~= seq![]);
            assert(wanted.take(n) =~= wanted) by {
                assert(wanted.skip(n).len() == 0);
            }
        }
        low
    }

    fn move_on(&mut self, log: &Vec<WlanEvent>)
        ensures
            *final(self) == moved(*old(self), events::models(log@)),
    {
        let ghost all = events::models(log@);
        let mut newest: Option<u64> = None;
        let mut epoch: i64 = self.last_log_epoch;
        let mut i: usize = 0;
        proof {
            assert(all.take(0) =~= seq![]);
        }
        while i < log.len()
            invariant
                i <= log@.len(),
                all == events::models(log@),
                *self == *old(self),
                newest == highest_record(all.take(i as int)),
                epoch == latest(self.last_log_epoch, all.take(i as int)),
            decreases log@.len() - i,
        {
            proof {
                assert(all.take(i + 1).drop_last() =~= all.take(i as int));
                assert(all.take(i + 1).last() == log@[i as int]@);
            }
            if log[i].epoch_seconds > epoch {
                epoch = log[i].epoch_seconds;
            }
            match log[i].record_id {
                Some(record) => {
                    newest = match newest {
                        Some(known) => if record > known {
                            Some(record)
                        } else {
                            Some(known)
                        },
                        None => Some(record),
                    };
                },
                None => {},
            }
            i = i + 1;
        }
        proof {
            assert(all.take(i as int) =~= all);
        }
        self.last_log_epoch = epoch;
        match newest {
            Some(record) => {
                self.last_log_record_id = match self.last_log_record_id {
                    Some(previous) => if previous > record {
                        Some(previous)
                    } else {
                        Some(record)
                    },
                    None => Some(record),
                };
            },
            None => {},
        }
    }
}

// ---------------------------------------------------------------------------
// Laws
// ---------------------------------------------------------------------------

proof fn lemma_read_to_the_end(tail: NativeCollector, log: Seq<events::EventModel>, i: int)
    requires
        0 <= i < log.len(),
    ensures
        log[i].epoch_seconds <= latest(tail.last_log_epoch, log),
        log[i].record_id matches Some(record) ==> (highest_record(log) matches Some(newest)
            && record <= newest),
    decreases log.len(),
{
    if i < log.len() - 1 {
        lemma_read_to_the_end(tail, log.drop_last(), i);
    }
}

/// What was read of the log is not recorded again.
pub proof fn lemma_nothing_is_recorded_twice(tail: NativeCollector, log: Seq<events::EventModel>)
    ensures
        tailed(moved(tail, log), log) == Seq::<recorder::EventModel>::empty(),
{
    let after = moved(tail, log);
    assert forall|i: int| 0 <= i < log.len() implies !fresh_to(after)(#[trigger] log[i]) by {
        lemma_read_to_the_end(tail, log, i);
    }
    log.lemma_all_neg_filter_empty(fresh_to(after));
    assert(fresh(after, log) =~= seq![]);
    assert(gap(after, log) =~= seq![]);
    assert(tailed(after, log) =~= seq![]);
}

/// Where the log no longer has the record that follows the last one read, what
/// is recorded begins with the gap.
pub proof fn lemma_lost_records_are_a_gap(tail: NativeCollector, log: Seq<events::EventModel>)
    requires
        tail.last_log_record_id is Some,
        lowest_record(fresh(tail, log)) is Some,
        lowest_record(fresh(tail, log))->0 > tail.last_log_record_id->0 + 1,
    ensures
        tailed(tail, log).len() > 0,
        tailed(tail, log)[0].kind == (chronicle::KindModel::HistoryGap {
            after_record_id: tail.last_log_record_id->0,
            before_record_id: lowest_record(fresh(tail, log))->0,
        }),
{
}

/// No record is lost between two reads: one that is numbered above all that
/// were read is recorded.
pub proof fn lemma_later_records_are_recorded(
    tail: NativeCollector,
    log: Seq<events::EventModel>,
    i: int,
)
    requires
        0 <= i < log.len(),
        tail.last_log_record_id is Some,
        log[i].record_id is Some,
        log[i].record_id->0 > tail.last_log_record_id->0,
    ensures
        tailed(tail, log).contains(logged(log[i])),
{
    log.lemma_filter_contains(fresh_to(tail), i);
    let kept = log.filter(fresh_to(tail));
    let k = kept.index_of(log[i]);
    let later = fresh(tail, log);
    let p = kept.len() - 1 - k;
    assert(later[p] == log[i]);
    let as_logged = |event: events::EventModel| logged(event);
    assert(later.map_values(as_logged)[p] == logged(log[i]));
    assert(tailed(tail, log)[gap(tail, log).len() + p] == logged(log[i]));
}

/// What tells whether an event is numbered above `record`.
pub open spec fn numbered_above(record: u64) -> spec_fn(events::EventModel) -> bool {
    |event: events::EventModel| event.record_id is Some && event.record_id->0 > record
}

/// Whether `low` is the lowest record number among events, all of which have
/// one.
pub open spec fn is_lowest(low: u64, log: Seq<events::EventModel>) -> bool {
    &&& exists|i: int| 0 <= i < log.len() && (#[trigger] log[i]).record_id == Some(low)
    &&& forall|i: int| 0 <= i < log.len() ==> (#[trigger] log[i]).record_id->0 >= low
}

proof fn lemma_lowest(log: Seq<events::EventModel>)
    requires
        forall|i: int| 0 <= i < log.len() ==> (#[trigger] log[i]).record_id is Some,
    ensures
        log.len() == 0 ==> lowest_record(log) is None,
        log.len() > 0 ==> lowest_record(log) is Some && is_lowest(lowest_record(log)->0, log),
    decreases log.len(),
{
    if log.len() > 0 {
        let shorter = log.drop_last();
        assert forall|i: int| 0 <= i < shorter.len() implies (
        #[trigger] shorter[i]).record_id is Some by {
            assert(shorter[i] == log[i]);
        }
        lemma_lowest(shorter);
        let low = lowest_record(log)->0;
        assert(log.last() == log[log.len() - 1]);
        if shorter.len() > 0 && low == lowest_record(shorter)->0 {
            let i = choose|i: int|
                0 <= i < shorter.len() && (#[trigger] shorter[i]).record_id == Some(low);
            assert(log[i].record_id == Some(low));
        } else {
            assert(log[log.len() - 1].record_id == Some(low));
        }
        assert forall|i: int| 0 <= i < log.len() implies (#[trigger] log[i]).record_id->0
            >= low by {
            if i < log.len() - 1 {
                assert(shorter[i] == log[i]);
            }
        }
    }
}

proof fn lemma_highest(log: Seq<events::EventModel>)
    requires
        forall|i: int| 0 <= i < log.len() ==> (#[trigger] log[i]).record_id is Some,
        log.len() > 0,
    ensures
        highest_record(log) is Some,
        exists|i: int| 0 <= i < log.len() && (#[trigger] log[i]).record_id == highest_record(log),
    decreases log.len(),
{
    let shorter = log.drop_last();
    assert(log[log.len() - 1] == log.last());
    if shorter.len() > 0 {
        assert forall|i: int| 0 <= i < shorter.len() implies (
        #[trigger] shorter[i]).record_id is Some by {
            assert(shorter[i] == log[i]);
        }
        lemma_highest(shorter);
        let i = choose|i: int|
            0 <= i < shorter.len() && (#[trigger] shorter[i]).record_id == highest_record(shorter);
        assert(log[i] == shorter[i]);
    }
}

/// What a read of a log whose events are all numbered comes to, once a record
/// was read before: the events numbered above it, oldest first, after one gap
/// where the lowest of them does not follow it. The read moves on to the
/// highest number that is known, after which no event up to there is recorded.
pub proof fn lemma_numbered_records_are_tailed(
    tail: NativeCollector,
    log: Seq<events::EventModel>,
    later: Seq<events::EventModel>,
)
    requires
        tail.last_log_record_id is Some,
        forall|i: int| 0 <= i < log.len() ==> (#[trigger] log[i]).record_id is Some,
        forall|i: int| 0 <= i < later.len() ==> (#[trigger] later[i]).record_id is Some,
    ensures
        ({
            let previous = tail.last_log_record_id->0;
            let unread = log.filter(numbered_above(previous)).reverse();
            let lowest = lowest_record(unread);
            let told = unread.map_values(|event: events::EventModel| logged(event));
            let newest = moved(tail, log).last_log_record_id;
            &&& lowest is Some <==> unread.len() > 0
            &&& unread.len() > 0 ==> is_lowest(lowest->0, unread)
            &&& tailed(tail, log) == (if unread.len() > 0 && lowest->0 > previous + 1 {
                seq![
                    recorder::EventModel {
                        interface_id: None,
                        kind: chronicle::KindModel::HistoryGap {
                            after_record_id: previous,
                            before_record_id: lowest->0,
                        },
                    },
                ] + told
            } else {
                told
            })
            &&& forall|i: int|
                0 <= i < told.len() ==> (#[trigger] told[i]).kind is LogEvent
            &&& newest is Some
            &&& newest->0 >= previous
            &&& forall|i: int| 0 <= i < log.len() ==> (#[trigger] log[i]).record_id->0 <= newest->0
            &&& newest->0 == previous || exists|i: int|
                0 <= i < log.len() && (#[trigger] log[i]).record_id == newest
            &&& (forall|i: int|
                0 <= i < later.len() ==> (#[trigger] later[i]).record_id->0 <= newest->0)
                ==> tailed(moved(tail, log), later) == Seq::<recorder::EventModel>::empty()
        }),
{
    let previous = tail.last_log_record_id->0;
    lemma_fresh_is_numbered_above(tail, log);
    let unread = fresh(tail, log);
    let told = unread.map_values(|event: events::EventModel| logged(event));
    assert forall|i: int| 0 <= i < unread.len() implies (#[trigger] unread[i]).record_id is Some by {
        let kept = log.filter(fresh_to(tail));
        assert(kept[kept.len() - 1 - i] == unread[i]);
        log.lemma_filter_contains_rev(fresh_to(tail), unread[i]);
    }
    lemma_lowest(unread);
    if gap(tail, log).len() == 0 {
        assert(tailed(tail, log) =~= told);
    }
    let after = moved(tail, log);
    if log.len() > 0 {
        lemma_highest(log);
    }
    assert forall|i: int| 0 <= i < log.len() implies (#[trigger] log[i]).record_id->0
        <= after.last_log_record_id->0 by {
        lemma_read_to_the_end(tail, log, i);
    }
    if forall|i: int|
        0 <= i < later.len() ==> (#[trigger] later[i]).record_id->0
            <= after.last_log_record_id->0 {
        assert forall|i: int| 0 <= i < later.len() implies !fresh_to(after)(
            #[trigger] later[i],
        ) by {}
        later.lemma_all_neg_filter_empty(fresh_to(after));
        assert(fresh(after, later) =~= seq![]);
        assert(tailed(after, later) =~= seq![]);
    }
}

proof fn lemma_fresh_is_numbered_above(tail: NativeCollector, log: Seq<events::EventModel>)
    requires
        tail.last_log_record_id is Some,
        forall|i: int| 0 <= i < log.len() ==> (#[trigger] log[i]).record_id is Some,
    ensures
        log.filter(fresh_to(tail)) == log.filter(numbered_above(tail.last_log_record_id->0)),
    decreases log.len(),
{
    reveal(Seq::filter);
    if log.len() > 0 {
        let shorter = log.drop_last();
        assert forall|i: int| 0 <= i < shorter.len() implies (
        #[trigger] shorter[i]).record_id is Some by {
            assert(shorter[i] == log[i]);
        }
        lemma_fresh_is_numbered_above(tail, shorter);
        assert(log[log.len() - 1] == log.last());
    }
}

/// Events without a number, or where none was read before, are recorded if they
/// are later than all that was read, and the read moves on to the latest time.
pub proof fn lemma_unnumbered_records_go_by_time(
    tail: NativeCollector,
    log: Seq<events::EventModel>,
    event: events::EventModel,
)
    requires
        tail.last_log_record_id is None || event.record_id is None,
    ensures
        fresh(tail, log).contains(event) <==> log.contains(event) && event.epoch_seconds
            > tail.last_log_epoch,
        moved(tail, log).last_log_epoch >= tail.last_log_epoch,
        log.contains(event) ==> moved(tail, log).last_log_epoch >= event.epoch_seconds,
        log.len() == 0 ==> moved(tail, log) == tail,
        moved(tail, log).last_log_epoch == tail.last_log_epoch || exists|i: int|
            0 <= i < log.len() && (#[trigger] log[i]).epoch_seconds == moved(
                tail,
                log,
            ).last_log_epoch,
{
    let kept = log.filter(fresh_to(tail));
    counting::lemma_picked_elements(log, fresh_to(tail), event);
    if fresh(tail, log).contains(event) {
        let i = fresh(tail, log).index_of(event);
        assert(kept[kept.len() - 1 - i] == event);
    }
    if kept.contains(event) {
        let i = kept.index_of(event);
        assert(fresh(tail, log)[kept.len() - 1 - i] == event);
    }
    if log.contains(event) {
        lemma_read_to_the_end(tail, log, log.index_of(event));
    }
    lemma_latest_is_one_of_them(tail.last_log_epoch, log);
}

proof fn lemma_latest_is_one_of_them(since: i64, log: Seq<events::EventModel>)
    ensures
        latest(since, log) >= since,
        latest(since, log) == since || exists|i: int|
            0 <= i < log.len() && (#[trigger] log[i]).epoch_seconds == latest(since, log),
    decreases log.len(),
{
    if log.len() > 0 {
        let shorter = log.drop_last();
        lemma_latest_is_one_of_them(since, shorter);
        assert(log[log.len() - 1] == log.last());
        if latest(since, log) != since && latest(since, log) == latest(since, shorter) {
            let i = choose|i: int|
                0 <= i < shorter.len() && (#[trigger] shorter[i]).epoch_seconds == latest(
                    since,
                    shorter,
                );
            assert(log[i] == shorter[i]);
        }
    }
}

/// A log event is recorded with its number, its meaning and its data, under the
/// interface that it names, by either name.
pub proof fn lemma_log_events_are_recorded_whole(event: events::EventModel)
    ensures
        logged(event).kind matches chronicle::KindModel::LogEvent {
            event_id,
            record_id,
            meaning,
            fields,
        } && event_id == event.event_id && record_id == event.record_id && meaning == event.meaning
            && fields == event.data,
        event.data.dom().contains("InterfaceGuid"@) ==> logged(event).interface_id == Some(
            event.data["InterfaceGuid"@],
        ),
        !event.data.dom().contains("InterfaceGuid"@) && event.data.dom().contains("DeviceGuid"@)
            ==> logged(event).interface_id == Some(event.data["DeviceGuid"@]),
        !event.data.dom().contains("InterfaceGuid"@) && !event.data.dom().contains("DeviceGuid"@)
            ==> logged(event).interface_id is None,
{
}

/// A poll that failed is a failure under its interface and no observation, and
/// one that did not is an observation and no failure.
pub proof fn lemma_failed_polls_observe_nothing(status: WifiStatus)
    ensures
        sampled(status).interface_id == status.interface.guid@,
        status.connection_error is Some <==> sampled(status).observation is None,
        status.connection_error is Some <==> sampled(status).failure is Some,
        sampled(status).failure matches Some(failure) ==> failure.source == "current_connection"@
            && failure.message == (status.connection_error->0)@,
        sampled(status).observation matches Some(observed) ==> observed == wlan::observed(
            status.connection,
        ),
{
}

/// A poll looks back twice its interval, within two minutes and an hour, and
/// never less far than a poll of a shorter interval.
pub proof fn lemma_polls_look_back_twice_the_interval(interval: int, longer: int)
    requires
        0 <= interval <= longer,
    ensures
        120 <= lookback_for(interval) <= 3_600,
        60 <= interval <= 1_800 ==> lookback_for(interval) == interval + interval,
        interval < 60 ==> lookback_for(interval) == 120,
        interval > 1_800 ==> lookback_for(interval) == 3_600,
        lookback_for(interval) <= lookback_for(longer),
        interval <= 1_800 ==> lookback_for(interval) >= 2 * interval,
{
}

/// The seconds that a poll looks back follow from its interval, and a log is
/// read from the time at which the collector was started.
pub proof fn lemma_collectors_start_where_they_are_told(
    interval: Duration,
    seconds: u64,
    now: i64,
    collector: NativeCollector,
)
    requires
        call_ensures(lookback, (interval,), seconds),
        call_ensures(NativeCollector::from_time, (now,), collector),
    ensures
        120 <= seconds <= 3_600,
        60_000_000_000 <= time::duration_nanos(interval) < 1_800_000_000_000 ==> seconds == 2 * (
        time::duration_nanos(interval) / 1_000_000_000),
        collector.last_log_epoch == now,
        collector.last_log_record_id is None,
{
}

} // verus!
