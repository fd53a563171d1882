//! Portable collector contract and chronicle recording loop.

use super::detect;
use super::detect::ChangeDetector;
use super::{ChronicleIdentity, Entry, EntryKind, ProcessClock, Sink, VecSink};
use crate::chronicle;
use crate::chronicle::Observation;
use crate::link;
use crate::ordered::StringMap;
use crate::text;
use crate::text::same_text;
use crate::time;
use std::time::Duration;
use vstd::prelude::*;

verus! {

// ---------------------------------------------------------------------------
// Options, samples and events
// ---------------------------------------------------------------------------

/// How a recorder works.
#[derive(Debug)]
pub struct RecorderOptions {
    /// Delay between polls.
    pub interval: Duration,
    /// Hysteresis for [`EntryKind::SignalShift`], in dB.
    pub signal_threshold_db: i32,
    /// Fleet and boot identity included in every entry.
    pub identity: ChronicleIdentity,
    /// First sequence number. A durable agent should restore this from spool.
    pub initial_sequence: u64,
    /// The monotonic clock that entries are stamped with.
    pub clock: ProcessClock,
}

impl RecorderOptions {
    /// The defaults for a process with an identity and a clock: a poll every
    /// five seconds, 8 dB of hysteresis, numbers from 1.
    pub fn for_process(identity: ChronicleIdentity, clock: ProcessClock) -> (r: Self)
        ensures
            time::duration_nanos(r.interval) == 5 * 1_000_000_000,
            r.signal_threshold_db == 8,
            r.identity == identity,
            r.initial_sequence == 1,
            r.clock == clock,
    {
        RecorderOptions {
            interval: Duration::from_secs(5),
            signal_threshold_db: 8,
            identity,
            initial_sequence: 1,
            clock,
        }
    }
}

/// A per-interface collector failure. It is evidence about observation health,
/// not evidence that the interface disconnected.
#[derive(Debug, PartialEq, Eq)]
pub struct CollectorFailure {
    pub source: String,
    pub message: String,
}

/// What a [`CollectorFailure`] says.
#[verifier::ext_equal]
pub struct FailureModel {
    pub source: Seq<char>,
    pub message: Seq<char>,
}

impl View for CollectorFailure {
    type V = FailureModel;

    open spec fn view(&self) -> FailureModel {
        FailureModel { source: self.source@, message: self.message@ }
    }
}

impl Clone for CollectorFailure {
    fn clone(&self) -> (r: Self)
        ensures
            r == *self,
    {
        CollectorFailure { source: self.source.clone(), message: self.message.clone() }
    }
}

/// One interface result from a [`Collector`] poll.
#[derive(Debug)]
pub struct CollectorSample {
    pub interface_id: String,
    pub observation: Option<Observation>,
    pub failure: Option<CollectorFailure>,
}

/// What a [`CollectorSample`] says.
#[verifier::ext_equal]
pub struct SampleModel {
    pub interface_id: Seq<char>,
    pub observation: Option<link::ObservationModel>,
    pub failure: Option<FailureModel>,
}

impl View for CollectorSample {
    type V = SampleModel;

    open spec fn view(&self) -> SampleModel {
        SampleModel {
            interface_id: self.interface_id@,
            observation: match self.observation {
                Some(observation) => Some(observation@),
                None => None,
            },
            failure: match self.failure {
                Some(failure) => Some(failure@),
                None => None,
            },
        }
    }
}

impl CollectorSample {
    /// An interface that was observed.
    pub fn observed(interface_id: &str, observation: Observation) -> (r: Self)
        ensures
            r@ == (SampleModel {
                interface_id: interface_id@,
                observation: Some(observation@),
                failure: None,
            }),
    {
        CollectorSample {
            interface_id: interface_id.to_owned(),
            observation: Some(observation),
            failure: None,
        }
    }

    /// An interface that could not be observed.
    pub fn failed(interface_id: &str, source: &str, message: &str) -> (r: Self)
        ensures
            r@ == (SampleModel {
                interface_id: interface_id@,
                observation: None,
                failure: Some(FailureModel { source: source@, message: message@ }),
            }),
    {
        CollectorSample {
            interface_id: interface_id.to_owned(),
            observation: None,
            failure: Some(
                CollectorFailure { source: source.to_owned(), message: message.to_owned() },
            ),
        }
    }
}

/// A native or device-specific event already expressed as a chronicle kind.
#[derive(Debug)]
pub struct CollectorEvent {
    pub interface_id: Option<String>,
    pub kind: EntryKind,
}

/// What a [`CollectorEvent`] says.
#[verifier::ext_equal]
pub struct EventModel {
    pub interface_id: Option<Seq<char>>,
    pub kind: chronicle::KindModel,
}

impl View for CollectorEvent {
    type V = EventModel;

    open spec fn view(&self) -> EventModel {
        EventModel { interface_id: text::opt_text(self.interface_id), kind: self.kind@ }
    }
}

/// What events say, in order.
pub open spec fn event_models(events: Seq<CollectorEvent>) -> Seq<EventModel> {
    events.map_values(|event: CollectorEvent| event@)
}

/// What samples say, in order.
pub open spec fn sample_models(samples: Seq<CollectorSample>) -> Seq<SampleModel> {
    samples.map_values(|sample: CollectorSample| sample@)
}

/// Portable source contract. Implementations may use nl80211, WLAN API, a
/// modem SDK, firmware IPC, or test fixtures; the recorder does not care. A
/// failure is a message.
///
/// The relations say what an implementation admits; one that does not say
/// admits everything.
pub trait Collector: Sized {
    /// Whether the collector may go by `name`.
    open spec fn named(&self, name: Seq<char>) -> bool {
        true
    }

    /// Whether a poll may turn `self` into `after` and return `outcome`.
    open spec fn polled(
        &self,
        after: Self,
        outcome: Result<Vec<CollectorSample>, String>,
    ) -> bool {
        true
    }

    /// Whether asking for the events of an interval may turn `self` into
    /// `after` and return `outcome`.
    open spec fn asked(
        &self,
        interval: Duration,
        after: Self,
        outcome: Result<Vec<CollectorEvent>, String>,
    ) -> bool {
        true
    }

    fn name(&self) -> (r: &'static str)
        ensures
            self.named(r@),
    ;

    fn collect(&mut self) -> (r: Result<Vec<CollectorSample>, String>)
        ensures
            old(self).polled(*final(self), r),
    ;

    /// What happened by itself since the poll before. A source that does not
    /// say otherwise has no events of its own.
    fn collect_events(&mut self, interval: Duration) -> (r: Result<Vec<CollectorEvent>, String>)
        ensures
            has_no_events(*old(self), *final(self), r) || old(self).asked(
                interval,
                *final(self),
                r,
            ),
        default_ensures
            has_no_events(*old(self), *final(self), r),
    {
        let none: Vec<CollectorEvent> = Vec::new();
        Ok(none)
    }
}

/// Whether a source answered that there are no events, and stays as it is.
pub open spec fn has_no_events<C>(
    before: C,
    after: C,
    outcome: Result<Vec<CollectorEvent>, String>,
) -> bool {
    after == before && (outcome matches Ok(events) && events@.len() == 0)
}

/// Whether a collector that is asked for the events of an interval may turn
/// into `after` and return `outcome`: as it says itself, or as one does that has
/// no events of its own.
pub open spec fn asked_events<C: Collector>(
    before: C,
    interval: Duration,
    after: C,
    outcome: Result<Vec<CollectorEvent>, String>,
) -> bool {
    has_no_events(before, after, outcome) || before.asked(interval, after, outcome)
}

// ---------------------------------------------------------------------------
// What a poll amounts to
// ---------------------------------------------------------------------------

/// What a recorder knows of the links that it polls.
#[verifier::ext_equal]
pub struct WatchModel {
    pub threshold_db: i32,
    pub links: Map<Seq<char>, link::LinkModel>,
    pub collector_error: Option<Seq<char>>,
    pub interface_errors: Map<Seq<char>, FailureModel>,
    pub event_error: Option<Seq<char>>,
}

/// What is known of a link: nothing, unless it was polled before.
pub open spec fn known_link(watch: WatchModel, interface_id: Seq<char>) -> link::LinkModel {
    if watch.links.dom().contains(interface_id) {
        watch.links[interface_id]
    } else {
        link::LinkModel::fresh(watch.threshold_db)
    }
}

/// The event that reports a collector failure.
pub open spec fn error_event(
    interface_id: Option<Seq<char>>,
    source: Seq<char>,
    message: Seq<char>,
) -> EventModel {
    EventModel { interface_id, kind: chronicle::KindModel::CollectorError { source, message } }
}

/// The event that reports a recovery.
pub open spec fn recovery_event(interface_id: Option<Seq<char>>, source: Seq<char>) -> EventModel {
    EventModel { interface_id, kind: chronicle::KindModel::CollectorRecovered { source } }
}

/// What taking in one sample leaves, and which events it implies. A failure is
/// reported unless it is the one reported last, and says nothing of the link;
/// otherwise a recovery is reported, and what changed of the link.
pub open spec fn sample_step(watch: WatchModel, sample: SampleModel) -> (
    WatchModel,
    Seq<EventModel>,
) {
    let id = sample.interface_id;
    match sample.failure {
        Some(failure) => (
            WatchModel { interface_errors: watch.interface_errors.insert(id, failure), ..watch },
            if watch.interface_errors.dom().contains(id) && watch.interface_errors[id] == failure {
                seq![]
            } else {
                seq![error_event(Some(id), failure.source, failure.message)]
            },
        ),
        None => {
            let recovered = WatchModel {
                interface_errors: watch.interface_errors.remove(id),
                ..watch
            };
            let recovery: Seq<EventModel> = if watch.interface_errors.dom().contains(id) {
                seq![recovery_event(Some(id), watch.interface_errors[id].source)]
            } else {
                seq![]
            };
            match sample.observation {
                Some(poll) => {
                    let link = known_link(watch, id);
                    (
                        WatchModel { links: watch.links.insert(id, link.after(poll)), ..recovered },
                        recovery + link_events(id, link.change(poll)),
                    )
                },
                None => (recovered, recovery),
            }
        },
    }
}

/// The events that a change of a link implies.
pub open spec fn link_events(
    interface_id: Seq<char>,
    change: Option<link::ChangeModel>,
) -> Seq<EventModel> {
    match change {
        Some(change) => seq![
            EventModel { interface_id: Some(interface_id), kind: detect::kind_of(change) },
        ],
        None => seq![],
    }
}

/// What taking in samples, one after another, leaves and implies.
pub open spec fn samples_step(watch: WatchModel, samples: Seq<SampleModel>) -> (
    WatchModel,
    Seq<EventModel>,
)
    decreases samples.len(),
{
    if samples.len() == 0 {
        (watch, seq![])
    } else {
        let (before, events) = samples_step(watch, samples.drop_last());
        let (after, more) = sample_step(before, samples.last());
        (after, events + more)
    }
}

/// What a poll's outcome leaves and implies. A poll that fails is reported
/// unless it failed in the same way before, and changes nothing else.
pub open spec fn collected_step(
    watch: WatchModel,
    source: Seq<char>,
    samples: Result<Vec<CollectorSample>, String>,
) -> (WatchModel, Seq<EventModel>) {
    match samples {
        Ok(list) => {
            let well = WatchModel { collector_error: None, ..watch };
            let (after, events) = samples_step(well, sample_models(list@));
            if watch.collector_error is Some {
                (after, seq![recovery_event(None, source)] + events)
            } else {
                (after, events)
            }
        },
        Err(message) => (
            WatchModel { collector_error: Some(message@), ..watch },
            if watch.collector_error == Some(message@) {
                seq![]
            } else {
                seq![error_event(None, source, message@)]
            },
        ),
    }
}

/// What the outcome of an event query leaves and implies.
pub open spec fn events_step(
    watch: WatchModel,
    source: Seq<char>,
    collected: Result<Vec<CollectorEvent>, String>,
) -> (WatchModel, Seq<EventModel>) {
    let event_source = source + "_events"@;
    match collected {
        Ok(list) => (
            WatchModel { event_error: None, ..watch },
            if watch.event_error is Some {
                seq![recovery_event(None, event_source)] + event_models(list@)
            } else {
                event_models(list@)
            },
        ),
        Err(message) => (
            WatchModel { event_error: Some(message@), ..watch },
            if watch.event_error == Some(message@) {
                seq![]
            } else {
                seq![error_event(None, event_source, message@)]
            },
        ),
    }
}

/// What one poll leaves and implies.
pub open spec fn poll_step(
    watch: WatchModel,
    source: Seq<char>,
    samples: Result<Vec<CollectorSample>, String>,
    collected: Result<Vec<CollectorEvent>, String>,
) -> (WatchModel, Seq<EventModel>) {
    let (polled, changes) = collected_step(watch, source, samples);
    let (after, events) = events_step(polled, source, collected);
    (after, changes + events)
}

/// What a recorder has seen of the links that it polls.
#[derive(Debug)]
pub struct Watch {
    threshold_db: i32,
    detectors: StringMap<ChangeDetector>,
    last_collector_error: Option<String>,
    interface_errors: StringMap<CollectorFailure>,
    last_event_error: Option<String>,
}

impl View for Watch {
    type V = WatchModel;

    closed spec fn view(&self) -> WatchModel {
        WatchModel {
            threshold_db: self.threshold_db,
            links: self.detectors@.map_values(|d: ChangeDetector| d@),
            collector_error: text::opt_text(self.last_collector_error),
            interface_errors: self.interface_errors@.map_values(|f: CollectorFailure| f@),
            event_error: text::opt_text(self.last_event_error),
        }
    }
}

/// A watch that has seen nothing.
pub open spec fn fresh_watch(threshold_db: i32) -> WatchModel {
    WatchModel {
        threshold_db,
        links: Map::empty(),
        collector_error: None,
        interface_errors: Map::empty(),
        event_error: None,
    }
}

fn says(value: &Option<String>, message: &str) -> (r: bool)
    ensures
        r == (text::opt_text(*value) == Some(message@)),
{
    match value {
        Some(text) => same_text(text.as_str(), message),
        None => false,
    }
}

impl Watch {
    /// A watch that has seen nothing.
    pub fn new(threshold_db: i32) -> (r: Self)
        ensures
            r@ == fresh_watch(threshold_db),
    {
        let r = Watch {
            threshold_db,
            detectors: StringMap::new(),
            last_collector_error: None,
            interface_errors: StringMap::new(),
            last_event_error: None,
        };
        proof {
            assert(r@.links =~= Map::<Seq<char>, link::LinkModel>::empty());
            assert(r@.interface_errors =~= Map::<Seq<char>, FailureModel>::empty());
        }
        r
    }

    /// Take in the outcome of a poll; returns the events it implies, in order.
    pub fn absorb(
        &mut self,
        source: &str,
        samples: Result<Vec<CollectorSample>, String>,
        collected: Result<Vec<CollectorEvent>, String>,
    ) -> (r: Vec<CollectorEvent>)
        ensures
            (final(self)@, event_models(r@)) == poll_step(old(self)@, source@, samples, collected),
    {
        let mut events: Vec<CollectorEvent> = Vec::new();
        proof {
            assert(event_models(events@) =~= seq![]);
        }
        self.absorb_samples(source, samples, &mut events);
        self.absorb_events(source, collected, &mut events);
        proof {
            let (polled, changes) = collected_step(old(self)@, source@, samples);
            assert(Seq::<EventModel>::empty() + changes =~= changes);
        }
        events
    }

    fn absorb_samples(
        &mut self,
        source: &str,
        samples: Result<Vec<CollectorSample>, String>,
        events: &mut Vec<CollectorEvent>,
    )
        ensures
            final(self)@ == collected_step(old(self)@, source@, samples).0,
            event_models(final(events)@) == event_models(old(events)@) + collected_step(
                old(self)@,
                source@,
                samples,
            ).1,
    {
        let ghost before = self@;
        let ghost earlier = event_models(events@);
        match samples {
            Ok(list) => {
                let ghost well = WatchModel { collector_error: None, ..before };
                let recovered = self.last_collector_error.is_some();
                self.last_collector_error = None;
                proof {
                    assert(self@ =~= well);
                }
                if recovered {
                    events.push(
                        CollectorEvent {
                            interface_id: None,
                            kind: EntryKind::CollectorRecovered { source: source.to_owned() },
                        },
                    );
                    proof {
                        assert(event_models(events@) =~= earlier.push(
                            recovery_event(None, source@),
                        ));
                    }
                }
                let ghost noted = event_models(events@);
                self.process_samples(list, events);
                proof {
                    let more = samples_step(well, sample_models(list@)).1;
                    if recovered {
                        assert(noted + more =~= earlier + (seq![recovery_event(None, source@)]
                            + more));
                    }
                }
            },
            Err(message) => {
                if !says(&self.last_collector_error, message.as_str()) {
                    events.push(
                        CollectorEvent {
                            interface_id: None,
                            kind: EntryKind::CollectorError {
                                source: source.to_owned(),
                                message: message.clone(),
                            },
                        },
                    );
                    proof {
                        assert(event_models(events@) =~= earlier + seq![
                            error_event(None, source@, message@),
                        ]);
                    }
                } else {
                    proof {
                        assert(earlier + Seq::<EventModel>::empty() =~= earlier);
                    }
                }
                self.last_collector_error = Some(message);
                proof {
                    assert(self@ =~= WatchModel { collector_error: Some(message@), ..before });
                }
            },
        }
    }

    fn absorb_events(
        &mut self,
        source: &str,
        collected: Result<Vec<CollectorEvent>, String>,
        events: &mut Vec<CollectorEvent>,
    )
        ensures
            final(self)@ == events_step(old(self)@, source@, collected).0,
            event_models(final(events)@) == event_models(old(events)@) + events_step(
                old(self)@,
                source@,
                collected,
            ).1,
    {
        let ghost before = self@;
        let ghost earlier = event_models(events@);
        let mut event_source = source.to_owned();
        event_source.append("_events");
        match collected {
            Ok(list) => {
                let recovered = self.last_event_error.is_some();
                self.last_event_error = None;
                proof {
                    assert(self@ =~= WatchModel { event_error: None, ..before });
                }
                if recovered {
                    let ghost named = event_source@;
                    events.push(
                        CollectorEvent {
                            interface_id: None,
                            kind: EntryKind::CollectorRecovered { source: event_source },
                        },
                    );
                    proof {
                        assert(event_models(events@) =~= earlier.push(recovery_event(None, named)));
                    }
                }
                let ghost noted = events@;
                let mut list = list;
                let ghost all = list@;
                events.append(&mut list);
                proof {
                    assert(event_models(events@) =~= event_models(noted) + event_models(all));
                    if recovered {
                        assert(event_models(noted) + event_models(all) =~= earlier + (seq![
                            recovery_event(None, source@ + "_events"@),
                        ] + event_models(all)));
                    }
                }
            },
            Err(message) => {
                if !says(&self.last_event_error, message.as_str()) {
                    let ghost named = event_source@;
                    events.push(
                        CollectorEvent {
                            interface_id: None,
                            kind: EntryKind::CollectorError {
                                source: event_source,
                                message: message.clone(),
                            },
                        },
                    );
                    proof {
                        assert(event_models(events@) =~= earlier + seq![
                            error_event(None, named, message@),
                        ]);
                    }
                } else {
                    proof {
                        assert(earlier + Seq::<EventModel>::empty() =~= earlier);
                    }
                }
                self.last_event_error = Some(message);
                proof {
                    assert(self@ =~= WatchModel { event_error: Some(message@), ..before });
                }
            },
        }
    }

    fn process_samples(&mut self, samples: Vec<CollectorSample>, events: &mut Vec<CollectorEvent>)
        ensures
            final(self)@ == samples_step(old(self)@, sample_models(samples@)).0,
            event_models(final(events)@) == event_models(old(events)@) + samples_step(
                old(self)@,
                sample_models(samples@),
            ).1,
    {
        let ghost before = self@;
        let ghost earlier = event_models(events@);
        let ghost all = sample_models(samples@);
        let mut i: usize = 0;
        proof {
            assert(earlier + samples_step(before, all.take(0)).1 =~= earlier);
        }
        while i < samples.len()
            invariant
                i <= samples@.len(),
                all == sample_models(samples@),
                self@ == samples_step(before, all.take(i as int)).0,
                event_models(events@) == earlier + samples_step(before, all.take(i as int)).1,
            decreases samples@.len() - i,
        {
            let ghost watch = self@;
            let ghost noted = event_models(events@);
            self.process_sample(&samples[i], events);
            proof {
                let longer = all.take(i + 1);
                assert(longer.drop_last() =~= all.take(i as int));
                assert(longer.last() == samples@[i as int]@);
                let known = samples_step(before, all.take(i as int)).1;
                let more = sample_step(watch, samples@[i as int]@).1;
                assert(samples_step(before, longer).1 == known + more);
                assert((earlier + known) + more =~= earlier + (known + more));
            }
            i = i + 1;
        }
        proof {
            assert(all.take(i as int) =~= all);
        }
    }

    fn process_sample(&mut self, sample: &CollectorSample, events: &mut Vec<CollectorEvent>)
        ensures
            final(self)@ == sample_step(old(self)@, sample@).0,
            event_models(final(events)@) == event_models(old(events)@) + sample_step(
                old(self)@,
                sample@,
            ).1,
    {
        let ghost before = self@;
        let ghost earlier = event_models(events@);
        let ghost id = sample.interface_id@;
        let ghost errors = self.interface_errors@;
        if let Some(failure) = &sample.failure {
            let known = match self.interface_errors.get(sample.interface_id.as_str()) {
                Some(previous) => same_text(previous.source.as_str(), failure.source.as_str())
                    && same_text(previous.message.as_str(), failure.message.as_str()),
                None => false,
            };
            proof {
                assert(before.interface_errors.dom().contains(id) == errors.dom().contains(id));
                if errors.dom().contains(id) {
                    assert(before.interface_errors[id] == errors[id]@);
                    assert(known == (errors[id]@ =~= failure@));
                }
            }
            if !known {
                events.push(
                    CollectorEvent {
                        interface_id: Some(sample.interface_id.clone()),
                        kind: EntryKind::CollectorError {
                            source: failure.source.clone(),
                            message: failure.message.clone(),
                        },
                    },
                );
                proof {
                    assert(event_models(events@) =~= earlier + seq![
                        error_event(Some(id), failure.source@, failure.message@),
                    ]);
                }
            } else {
                proof {
                    assert(earlier + Seq::<EventModel>::empty() =~= earlier);
                }
            }
            self.interface_errors.insert(sample.interface_id.clone(), failure.clone());
            proof {
                assert(self@.interface_errors =~= before.interface_errors.insert(id, failure@));
                assert(self@ =~= sample_step(before, sample@).0);
            }
            return;
        }
        let ghost recovery: Seq<EventModel> = if before.interface_errors.dom().contains(id) {
            seq![recovery_event(Some(id), before.interface_errors[id].source)]
        } else {
            seq![]
        };
        match self.interface_errors.remove(sample.interface_id.as_str()) {
            Some(previous) => {
                let ghost source = previous.source@;
                events.push(
                    CollectorEvent {
                        interface_id: Some(sample.interface_id.clone()),
                        kind: EntryKind::CollectorRecovered { source: previous.source },
                    },
                );
                proof {
                    assert(before.interface_errors.dom().contains(id));
                    assert(before.interface_errors[id].source == source);
                    assert(event_models(events@) =~= earlier + recovery);
                }
            },
            None => {
                proof {
                    assert(!before.interface_errors.dom().contains(id));
                    assert(earlier + recovery =~= earlier);
                }
            },
        }
        let ghost recovered = WatchModel {
            interface_errors: before.interface_errors.remove(id),
            ..before
        };
        proof {
            assert(self@.interface_errors =~= recovered.interface_errors);
            assert(self@ =~= recovered);
        }
        if let Some(observation) = &sample.observation {
            let ghost poll = observation@;
            let ghost kept = self.detectors@;
            let mut detector = match self.detectors.remove(sample.interface_id.as_str()) {
                Some(detector) => detector,
                None => ChangeDetector::new(self.threshold_db),
            };
            let ghost link = detector@;
            proof {
                assert(before.links.dom() =~= kept.dom());
                assert(link == known_link(before, id));
            }
            let mut kinds = detector.observe(observation.clone());
            let ghost reported = kinds@;
            self.detectors.insert(sample.interface_id.clone(), detector);
            proof {
                assert(self@.links =~= before.links.insert(id, link.after(poll)));
                assert(self@ =~= sample_step(before, sample@).0);
                assert(detect::kinds(reported).len() == reported.len());
            }
            let ghost noted = event_models(events@);
            match kinds.pop() {
                Some(kind) => {
                    proof {
                        assert(detect::kinds(reported)[0] == kind@);
                    }
                    events.push(
                        CollectorEvent { interface_id: Some(sample.interface_id.clone()), kind },
                    );
                    proof {
                        assert(event_models(events@) =~= noted + link_events(
                            id,
                            link.change(poll),
                        ));
                    }
                },
                None => {
                    proof {
                        assert(noted + link_events(id, link.change(poll)) =~= noted);
                    }
                },
            }
            proof {
                assert((earlier + recovery) + link_events(id, link.change(poll)) =~= earlier + (
                recovery + link_events(id, link.change(poll))));
            }
        }
    }
}

// ---------------------------------------------------------------------------
// What recording amounts to
// ---------------------------------------------------------------------------

/// What a recorder holds.
#[verifier::ext_equal]
#[verifier::reject_recursive_types(S)]
pub struct RecorderModel<S> {
    pub sink: S,
    pub identity: chronicle::IdentityModel,
    pub interval: Duration,
    pub next_sequence: u64,
    pub watch: WatchModel,
}

/// The number `count` places after `sequence`, as far as numbers go.
pub open spec fn numbered(sequence: u64, count: int) -> u64 {
    if sequence + count > u64::MAX {
        u64::MAX
    } else {
        (sequence + count) as u64
    }
}

/// Whether a sink that is handed an event, stamped so by the clocks, may turn
/// into `after` and return `result`.
pub open spec fn handed<S: Sink>(
    sink: S,
    identity: chronicle::IdentityModel,
    sequence: u64,
    event: EventModel,
    stamp: chronicle::Stamp,
    after: S,
    result: Result<(), std::io::Error>,
) -> bool {
    stamp.is_read() && sink.wrote(
        chronicle::entry_of(identity, sequence, stamp, event.interface_id, event.kind),
        after,
        result,
    )
}

/// Whether a sink may take in an event, stamped so, and turn into `after`.
pub open spec fn takes<S: Sink>(
    sink: S,
    identity: chronicle::IdentityModel,
    sequence: u64,
    event: EventModel,
    stamp: chronicle::Stamp,
    after: S,
) -> bool {
    exists|wrote: Result<(), std::io::Error>|
        wrote is Ok && #[trigger] handed(sink, identity, sequence, event, stamp, after, wrote)
}

/// Whether writing the first `count` events takes the sink through `states`.
pub open spec fn passes_through<S: Sink>(
    states: Seq<S>,
    identity: chronicle::IdentityModel,
    sequence: u64,
    events: Seq<EventModel>,
    stamps: Seq<chronicle::Stamp>,
    count: int,
) -> bool {
    &&& states.len() == count + 1
    &&& forall|i: int|
        0 <= i < count ==> takes(
            #[trigger] states[i],
            identity,
            numbered(sequence, i),
            events[i],
            stamps[i],
            states[i + 1],
        )
}

/// Whether writing the first `count` events, one after another, may turn
/// `sink` into `after`.
pub open spec fn written_through<S: Sink>(
    sink: S,
    identity: chronicle::IdentityModel,
    sequence: u64,
    events: Seq<EventModel>,
    stamps: Seq<chronicle::Stamp>,
    count: int,
    after: S,
) -> bool {
    exists|states: Seq<S>|
        {
            &&& #[trigger] passes_through(states, identity, sequence, events, stamps, count)
            &&& states[0] == sink
            &&& states.last() == after
        }
}

/// Whether a step that implies `events` may end with all of them written, and
/// flushed where there are any.
pub open spec fn step_completes<S: Sink>(
    before: RecorderModel<S>,
    events: Seq<EventModel>,
    stamps: Seq<chronicle::Stamp>,
    between: S,
    flushed: Result<(), std::io::Error>,
    after: RecorderModel<S>,
    result: Result<usize, std::io::Error>,
) -> bool {
    &&& written_through(
        before.sink,
        before.identity,
        before.next_sequence,
        events,
        stamps,
        events.len() as int,
        between,
    )
    &&& after.next_sequence == numbered(before.next_sequence, events.len() as int)
    &&& if events.len() == 0 {
        after.sink == between && (result matches Ok(count) && count == 0)
    } else {
        between.flushed(after.sink, flushed) && match flushed {
            Ok(_) => (result matches Ok(count) && count == events.len()),
            Err(error) => result == Err::<usize, std::io::Error>(error),
        }
    }
}

/// Whether a step that implies `events` may end with the one at position `i`
/// refused: those before it are written, those after it are not tried, and its
/// number is used up.
pub open spec fn step_fails<S: Sink>(
    before: RecorderModel<S>,
    events: Seq<EventModel>,
    stamps: Seq<chronicle::Stamp>,
    i: int,
    between: S,
    refused: Result<(), std::io::Error>,
    after: RecorderModel<S>,
    result: Result<usize, std::io::Error>,
) -> bool {
    &&& 0 <= i < events.len()
    &&& written_through(
        before.sink,
        before.identity,
        before.next_sequence,
        events,
        stamps,
        i,
        between,
    )
    &&& handed(
        between,
        before.identity,
        numbered(before.next_sequence, i),
        events[i],
        stamps[i],
        after.sink,
        refused,
    )
    &&& after.next_sequence == numbered(before.next_sequence, i + 1)
    &&& match refused {
        Err(error) => result == Err::<usize, std::io::Error>(error),
        Ok(_) => false,
    }
}

/// Whether recording `events` may turn `before` into `after` and return
/// `result`.
pub open spec fn recorded<S: Sink>(
    before: RecorderModel<S>,
    events: Seq<EventModel>,
    stamps: Seq<chronicle::Stamp>,
    after: RecorderModel<S>,
    result: Result<usize, std::io::Error>,
) -> bool {
    ||| exists|between: S, flushed: Result<(), std::io::Error>| #[trigger]
        step_completes(before, events, stamps, between, flushed, after, result)
    ||| exists|i: int, between: S, refused: Result<(), std::io::Error>| #[trigger]
        step_fails(before, events, stamps, i, between, refused, after, result)
}

/// Whether a poll whose outcomes are `samples` and `collected` may turn
/// `before` into `after` and return `result`: the events that it implies are
/// recorded in order.
pub open spec fn stepped<S: Sink>(
    before: RecorderModel<S>,
    source: Seq<char>,
    samples: Result<Vec<CollectorSample>, String>,
    collected: Result<Vec<CollectorEvent>, String>,
    stamps: Seq<chronicle::Stamp>,
    after: RecorderModel<S>,
    result: Result<usize, std::io::Error>,
) -> bool {
    let (watch, events) = poll_step(before.watch, source, samples, collected);
    &&& after.watch == watch
    &&& after.identity == before.identity
    &&& after.interval == before.interval
    &&& recorded(before, events, stamps, after, result)
}

/// Whether a poll of `collector`, which leaves `left`, may turn `before` into
/// `after` and return `result`: the collector is asked for its name, for its
/// samples and then for the events of the recorder's interval, and what it
/// answers is recorded.
pub open spec fn polls<S: Sink, C: Collector>(
    before: RecorderModel<S>,
    collector: C,
    source: Seq<char>,
    samples: Result<Vec<CollectorSample>, String>,
    between: C,
    collected: Result<Vec<CollectorEvent>, String>,
    left: C,
    stamps: Seq<chronicle::Stamp>,
    after: RecorderModel<S>,
    result: Result<usize, std::io::Error>,
) -> bool {
    &&& collector.named(source)
    &&& collector.polled(between, samples)
    &&& asked_events(between, before.interval, left, collected)
    &&& stepped(before, source, samples, collected, stamps, after, result)
}

// ---------------------------------------------------------------------------
// The recorder
// ---------------------------------------------------------------------------

/// Polls a collector and writes what changed to a sink.
#[verifier::reject_recursive_types(S)]
#[verifier::reject_recursive_types(C)]
pub struct Recorder<S: Sink, C: Collector> {
    sink: S,
    collector: C,
    watch: Watch,
    options: RecorderOptions,
    next_sequence: u64,
}

impl<S: Sink, C: Collector> View for Recorder<S, C> {
    type V = RecorderModel<S>;

    closed spec fn view(&self) -> RecorderModel<S> {
        RecorderModel {
            sink: self.sink,
            identity: self.options.identity@,
            interval: self.options.interval,
            next_sequence: self.next_sequence,
            watch: self.watch@,
        }
    }
}

impl<S: Sink, C: Collector> Recorder<S, C> {
    /// The collector that is polled, as it stands.
    pub closed spec fn held_collector(&self) -> C {
        self.collector
    }

    /// A recorder that has seen nothing.
    pub fn with_collector(sink: S, collector: C, options: RecorderOptions) -> (r: Self)
        ensures
            r@ == (RecorderModel {
                sink,
                identity: options.identity@,
                interval: options.interval,
                next_sequence: options.initial_sequence,
                watch: fresh_watch(options.signal_threshold_db),
            }),
            r.held_collector() == collector,
    {
        Recorder {
            sink,
            collector,
            watch: Watch::new(options.signal_threshold_db),
            next_sequence: options.initial_sequence,
            options,
        }
    }

    /// One poll: observe, detect and write. Returns entries written.
    ///
    /// The collector that is left is the one that was asked for its events:
    /// what it answered is what a call of `collect_events` returned.
    pub fn step(&mut self) -> (r: Result<usize, std::io::Error>)
        ensures
            exists|
                source: Seq<char>,
                samples: Result<Vec<CollectorSample>, String>,
                asking: &mut C,
                collected: Result<Vec<CollectorEvent>, String>,
                stamps: Seq<chronicle::Stamp>,
            |
                #[trigger] polls(
                    old(self)@,
                    old(self).held_collector(),
                    source,
                    samples,
                    *asking,
                    collected,
                    final(self).held_collector(),
                    stamps,
                    final(self)@,
                    r,
                ) && *final(asking) == final(self).held_collector() && #[trigger] call_ensures(
                    C::collect_events,
                    (asking, old(self)@.interval),
                    collected,
                ),
    {
        let source = self.collector.name();
        let samples = self.collector.collect();
        let ghost between = self.collector;
        let collected = self.collector.collect_events(self.options.interval);
        let ghost left = self.collector;
        proof {
            assert(self@ =~= old(self)@);
        }
        let r = self.record_poll(source, samples, collected);
        proof {
            let stamps = choose|stamps: Seq<chronicle::Stamp>| #[trigger]
                stepped(old(self)@, source@, samples, collected, stamps, self@, r);
            assert(polls(
                old(self)@,
                old(self).held_collector(),
                source@,
                samples,
                between,
                collected,
                left,
                stamps,
                self@,
                r,
            ));
        }
        r
    }

    /// Take in the outcomes of a poll, and write what they imply.
    pub fn record_poll(
        &mut self,
        source: &str,
        samples: Result<Vec<CollectorSample>, String>,
        collected: Result<Vec<CollectorEvent>, String>,
    ) -> (r: Result<usize, std::io::Error>)
        ensures
            exists|stamps: Seq<chronicle::Stamp>| #[trigger]
                stepped(old(self)@, source@, samples, collected, stamps, final(self)@, r),
            final(self).held_collector() == old(self).held_collector(),
    {
        let ghost before = self@;
        let events = self.watch.absorb(source, samples, collected);
        let ghost said = event_models(events@);
        let ghost absorbed = self@;
        let r = self.write_all(events);
        proof {
            let stamps = choose|stamps: Seq<chronicle::Stamp>| #[trigger]
                recorded(absorbed, said, stamps, self@, r);
            assert(recorded(absorbed, said, stamps, self@, r));
            lemma_watch_is_no_matter(before, absorbed, said, stamps, self@, r);
            assert(stepped(before, source@, samples, collected, stamps, self@, r));
        }
        r
    }

    fn write_one(&mut self, event: &CollectorEvent) -> (r: Result<(), std::io::Error>)
        ensures
            exists|stamp: chronicle::Stamp| #[trigger]
                handed(
                    old(self)@.sink,
                    old(self)@.identity,
                    old(self)@.next_sequence,
                    event@,
                    stamp,
                    final(self)@.sink,
                    r,
                ),
            final(self)@.watch == old(self)@.watch,
            final(self)@.identity == old(self)@.identity,
            final(self)@.interval == old(self)@.interval,
            final(self).held_collector() == old(self).held_collector(),
            final(self)@.next_sequence == numbered(old(self)@.next_sequence, 1),
    {
        let entry = Entry::stamped(
            &self.options.clock,
            &self.options.identity,
            self.next_sequence,
            text::copied(&event.interface_id),
            event.kind.clone(),
        );
        let ghost stamp = choose|stamp: chronicle::Stamp|
            stamp.is_read() && entry@ == #[trigger] chronicle::entry_of(
                old(self)@.identity,
                old(self)@.next_sequence,
                stamp,
                event@.interface_id,
                event@.kind,
            );
        self.next_sequence = self.next_sequence.saturating_add(1);
        let wrote = self.sink.write(&entry);
        proof {
            assert(handed(
                old(self)@.sink,
                old(self)@.identity,
                old(self)@.next_sequence,
                event@,
                stamp,
                self@.sink,
                wrote,
            ));
        }
        wrote
    }

    #[verifier::rlimit(60)]
    #[verifier::spinoff_prover]
    fn write_all(&mut self, events: Vec<CollectorEvent>) -> (r: Result<usize, std::io::Error>)
        ensures
            exists|stamps: Seq<chronicle::Stamp>| #[trigger]
                recorded(old(self)@, event_models(events@), stamps, final(self)@, r),
            final(self)@.watch == old(self)@.watch,
            final(self)@.identity == old(self)@.identity,
            final(self)@.interval == old(self)@.interval,
            final(self).held_collector() == old(self).held_collector(),
    {
        let ghost before = self@;
        let ghost said = event_models(events@);
        let ghost mut stamps: Seq<chronicle::Stamp> = seq![];
        let ghost mut states: Seq<S> = seq![before.sink];
        let written: usize = events.len();
        let mut i: usize = 0;
        while i < events.len()
            invariant
                before == old(self)@,
                i <= events@.len(),
                written == events@.len(),
                said == event_models(events@),
                stamps.len() == i,
                self@.watch == before.watch,
                self@.identity == before.identity,
                self@.interval == before.interval,
                self.held_collector() == old(self).held_collector(),
                self@.next_sequence == numbered(before.next_sequence, i as int),
                passes_through(
                    states,
                    before.identity,
                    before.next_sequence,
                    said,
                    stamps,
                    i as int,
                ),
                states[0] == before.sink,
                states.last() == self@.sink,
            decreases events@.len() - i,
        {
            let ghost between = self@.sink;
            let ghost sequence = self@.next_sequence;
            let wrote = self.write_one(&events[i]);
            let ghost stamp = choose|stamp: chronicle::Stamp| #[trigger]
                handed(
                    between,
                    before.identity,
                    sequence,
                    events@[i as int]@,
                    stamp,
                    self@.sink,
                    wrote,
                );
            let ghost earlier = stamps;
            proof {
                lemma_event_at(events@, i as int);
                stamps = stamps.push(stamp);
            }
            match wrote {
                Ok(_) => {
                    proof {
                        assert(takes(
                            between,
                            before.identity,
                            sequence,
                            said[i as int],
                            stamp,
                            self@.sink,
                        ));
                        lemma_one_more(
                            states,
                            before.identity,
                            before.next_sequence,
                            said,
                            earlier,
                            stamp,
                            self@.sink,
                        );
                        states = states.push(self@.sink);
                    }
                },
                Err(error) => {
                    let r: Result<usize, std::io::Error> = Err(error);
                    proof {
                        lemma_stamps_go_on(
                            states,
                            before.identity,
                            before.next_sequence,
                            said,
                            earlier,
                            stamp,
                        );
                        assert(written_through(
                            before.sink,
                            before.identity,
                            before.next_sequence,
                            said,
                            stamps,
                            i as int,
                            between,
                        ));
                        assert(step_fails(
                            before,
                            said,
                            stamps,
                            i as int,
                            between,
                            wrote,
                            self@,
                            r,
                        ));
                        assert(recorded(before, said, stamps, self@, r));
                    }
                    return r;
                },
            }
            i = i + 1;
        }
        let ghost between = self@.sink;
        proof {
            assert(written_through(
                before.sink,
                before.identity,
                before.next_sequence,
                said,
                stamps,
                i as int,
                between,
            ));
        }
        if written == 0 {
            let r: Result<usize, std::io::Error> = Ok(0);
            proof {
                assert(step_completes(before, said, stamps, between, Ok(()), self@, r));
                assert(recorded(before, said, stamps, self@, r));
            }
            return r;
        }
        let flushed = self.sink.flush();
        match flushed {
            Ok(_) => {
                let r: Result<usize, std::io::Error> = Ok(written);
                proof {
                    assert(step_completes(before, said, stamps, between, flushed, self@, r));
                    assert(recorded(before, said, stamps, self@, r));
                }
                r
            },
            Err(error) => {
                let r: Result<usize, std::io::Error> = Err(error);
                proof {
                    assert(step_completes(before, said, stamps, between, flushed, self@, r));
                    assert(recorded(before, said, stamps, self@, r));
                }
                r
            },
        }
    }

    /// How long to wait between polls.
    pub fn interval(&self) -> (r: Duration)
        ensures
            r == self@.interval,
    {
        self.options.interval
    }

    /// The number of the next entry.
    pub fn next_sequence(&self) -> (r: u64)
        ensures
            r == self@.next_sequence,
    {
        self.next_sequence
    }

    /// The sink, which the recorder gives up.
    pub fn into_sink(self) -> (r: S)
        ensures
            r == self@.sink,
    {
        self.sink
    }
}

/// Recording goes by the sink, the identity and the number alone.
proof fn lemma_watch_is_no_matter<S: Sink>(
    before: RecorderModel<S>,
    absorbed: RecorderModel<S>,
    events: Seq<EventModel>,
    stamps: Seq<chronicle::Stamp>,
    after: RecorderModel<S>,
    result: Result<usize, std::io::Error>,
)
    requires
        absorbed.sink == before.sink,
        absorbed.identity == before.identity,
        absorbed.next_sequence == before.next_sequence,
        recorded(absorbed, events, stamps, after, result),
    ensures
        recorded(before, events, stamps, after, result),
{
    if exists|between: S, flushed: Result<(), std::io::Error>| #[trigger]
        step_completes(absorbed, events, stamps, between, flushed, after, result) {
        let (between, flushed) = choose|between: S, flushed: Result<(), std::io::Error>| #[trigger]
            step_completes(absorbed, events, stamps, between, flushed, after, result);
        assert(step_completes(before, events, stamps, between, flushed, after, result));
    } else {
        let (i, between, refused) = choose|
            i: int,
            between: S,
            refused: Result<(), std::io::Error>,
        | #[trigger]
            step_fails(absorbed, events, stamps, i, between, refused, after, result);
        assert(step_fails(before, events, stamps, i, between, refused, after, result));
    }
}

proof fn lemma_event_at(events: Seq<CollectorEvent>, i: int)
    requires
        0 <= i < events.len(),
    ensures
        event_models(events)[i] == events[i]@,
{
}

/// A sink that took one more event passed through one more state.
proof fn lemma_one_more<S: Sink>(
    states: Seq<S>,
    identity: chronicle::IdentityModel,
    sequence: u64,
    events: Seq<EventModel>,
    stamps: Seq<chronicle::Stamp>,
    stamp: chronicle::Stamp,
    after: S,
)
    requires
        passes_through(states, identity, sequence, events, stamps, stamps.len() as int),
        takes(
            states.last(),
            identity,
            numbered(sequence, stamps.len() as int),
            events[stamps.len() as int],
            stamp,
            after,
        ),
    ensures
        passes_through(
            states.push(after),
            identity,
            sequence,
            events,
            stamps.push(stamp),
            stamps.len() as int + 1,
        ),
{
    let more = states.push(after);
    let longer = stamps.push(stamp);
    assert forall|i: int| 0 <= i < stamps.len() + 1 implies takes(
        #[trigger] more[i],
        identity,
        numbered(sequence, i),
        events[i],
        longer[i],
        more[i + 1],
    ) by {
        if i < stamps.len() {
            assert(more[i] == states[i] && more[i + 1] == states[i + 1]);
            assert(longer[i] == stamps[i]);
        }
    }
}

/// What was written stays written when one more stamp is known.
proof fn lemma_stamps_go_on<S: Sink>(
    states: Seq<S>,
    identity: chronicle::IdentityModel,
    sequence: u64,
    events: Seq<EventModel>,
    stamps: Seq<chronicle::Stamp>,
    stamp: chronicle::Stamp,
)
    requires
        passes_through(states, identity, sequence, events, stamps, stamps.len() as int),
    ensures
        passes_through(
            states,
            identity,
            sequence,
            events,
            stamps.push(stamp),
            stamps.len() as int,
        ),
{
    let longer = stamps.push(stamp);
    assert forall|i: int| 0 <= i < stamps.len() implies takes(
        #[trigger] states[i],
        identity,
        numbered(sequence, i),
        events[i],
        longer[i],
        states[i + 1],
    ) by {
        assert(longer[i] == stamps[i]);
    }
}

// ---------------------------------------------------------------------------
// Laws
// ---------------------------------------------------------------------------

/// Whether an event is about collecting, not about a link.
pub open spec fn is_about_collecting(event: EventModel) -> bool {
    event.kind is CollectorError || event.kind is CollectorRecovered
}

/// A collector that cannot observe is no evidence of a disconnect: a failed
/// poll leaves every link as it was, and reports nothing but the failure.
pub proof fn lemma_failures_are_no_disconnects(
    watch: WatchModel,
    source: Seq<char>,
    message: String,
    sample: SampleModel,
)
    requires
        sample.failure is Some,
    ensures
        collected_step(watch, source, Err(message)).0.links == watch.links,
        forall|i: int|
            0 <= i < collected_step(watch, source, Err(message)).1.len() ==> is_about_collecting(
                #[trigger] collected_step(watch, source, Err(message)).1[i],
            ),
        sample_step(watch, sample).0.links == watch.links,
        forall|i: int|
            0 <= i < sample_step(watch, sample).1.len() ==> is_about_collecting(
                #[trigger] sample_step(watch, sample).1[i],
            ),
{
}

/// A failure that persists is reported once, and so is the recovery from it,
/// for a collector and for an interface.
pub proof fn lemma_failures_are_reported_once(
    watch: WatchModel,
    source: Seq<char>,
    message: String,
    nothing: Vec<CollectorSample>,
    sample: SampleModel,
)
    requires
        sample.failure is Some,
        nothing@.len() == 0,
    ensures
        ({
            let failed = collected_step(watch, source, Err(message)).0;
            let well = collected_step(failed, source, Ok(nothing)).0;
            &&& collected_step(failed, source, Err(message)).1 == Seq::<EventModel>::empty()
            &&& collected_step(failed, source, Ok(nothing)).1 == seq![recovery_event(None, source)]
            &&& collected_step(well, source, Ok(nothing)).1 == Seq::<EventModel>::empty()
        }),
        ({
            let failed = sample_step(watch, sample).0;
            let idle = SampleModel {
                interface_id: sample.interface_id,
                observation: None,
                failure: None,
            };
            let well = sample_step(failed, idle).0;
            &&& sample_step(failed, sample).1 == Seq::<EventModel>::empty()
            &&& sample_step(failed, idle).1 == seq![
                recovery_event(Some(sample.interface_id), (sample.failure->0).source),
            ]
            &&& sample_step(well, idle).1 == Seq::<EventModel>::empty()
        }),
{
    let failed = sample_step(watch, sample).0;
    assert(failed.interface_errors[sample.interface_id] == sample.failure->0);
    let down = collected_step(watch, source, Err(message)).0;
    assert(sample_models(nothing@) =~= seq![]);
    assert(collected_step(down, source, Ok(nothing)).1 =~= seq![recovery_event(None, source)]);
}

/// What a sample that failed comes to among others: the links stay as they
/// were, the failure is reported unless it is the one that is pending for the
/// interface, and nothing is known otherwise of another interface.
pub proof fn lemma_failed_samples_report_themselves(
    watch: WatchModel,
    samples: Seq<SampleModel>,
    i: int,
)
    requires
        0 <= i < samples.len(),
        samples[i].failure is Some,
    ensures
        ({
            let id = samples[i].interface_id;
            let failure = samples[i].failure->0;
            let (before, earlier) = samples_step(watch, samples.take(i));
            let (after, told) = samples_step(watch, samples.take(i + 1));
            let pending = before.interface_errors;
            &&& after.links == before.links
            &&& told == earlier + (if pending.dom().contains(id) && pending[id] == failure {
                Seq::<EventModel>::empty()
            } else {
                seq![error_event(Some(id), failure.source, failure.message)]
            })
            &&& after.interface_errors.dom().contains(id)
            &&& after.interface_errors[id] == failure
            &&& forall|other: Seq<char>|
                other != id ==> (#[trigger] after.interface_errors.dom().contains(other)
                    == pending.dom().contains(other)) && (pending.dom().contains(other)
                    ==> after.interface_errors[other] == pending[other])
            &&& is_prefix(told, samples_step(watch, samples).1)
        }),
{
    assert(samples.take(i + 1).drop_last() =~= samples.take(i));
    lemma_samples_go_on(watch, samples, i + 1);
}

/// The first sample of an interface that did not fail after one that did
/// reports one recovery, from that failure, ahead of what changed of the link.
pub proof fn lemma_recoveries_follow_failures(
    watch: WatchModel,
    samples: Seq<SampleModel>,
    i: int,
    j: int,
)
    requires
        0 <= i < j < samples.len(),
        samples[i].failure is Some,
        samples[j].failure is None,
        samples[j].interface_id == samples[i].interface_id,
        forall|k: int|
            i < k < j ==> (#[trigger] samples[k]).interface_id != samples[i].interface_id,
    ensures
        ({
            let id = samples[i].interface_id;
            let (before, earlier) = samples_step(watch, samples.take(j));
            let (after, told) = samples_step(watch, samples.take(j + 1));
            let changes = match samples[j].observation {
                Some(poll) => link_events(id, known_link(before, id).change(poll)),
                None => Seq::<EventModel>::empty(),
            };
            &&& told == earlier + (seq![
                recovery_event(Some(id), (samples[i].failure->0).source),
            ] + changes)
            &&& !after.interface_errors.dom().contains(id)
            &&& is_prefix(told, samples_step(watch, samples).1)
        }),
{
    lemma_failures_stay_pending(watch, samples, i, j);
    assert(samples.take(j + 1).drop_last() =~= samples.take(j));
    lemma_samples_go_on(watch, samples, j + 1);
    let (before, earlier) = samples_step(watch, samples.take(j));
    let id = samples[i].interface_id;
    let recovery = seq![recovery_event(Some(id), (samples[i].failure->0).source)];
    assert(recovery + Seq::<EventModel>::empty() =~= recovery);
}

/// Whether `events` begin with `first`.
pub open spec fn is_prefix(first: Seq<EventModel>, events: Seq<EventModel>) -> bool {
    first.len() <= events.len() && events.take(first.len() as int) == first
}

proof fn lemma_samples_go_on(watch: WatchModel, samples: Seq<SampleModel>, i: int)
    requires
        0 <= i <= samples.len(),
    ensures
        is_prefix(samples_step(watch, samples.take(i)).1, samples_step(watch, samples).1),
    decreases samples.len() - i,
{
    let first = samples_step(watch, samples.take(i)).1;
    if i == samples.len() {
        assert(samples.take(i) =~= samples);
        assert(first.take(first.len() as int) =~= first);
    } else {
        lemma_samples_go_on(watch, samples, i + 1);
        assert(samples.take(i + 1).drop_last() =~= samples.take(i));
        let next = samples_step(watch, samples.take(i + 1)).1;
        let all = samples_step(watch, samples).1;
        assert(next.take(first.len() as int) =~= first);
        assert(all.take(first.len() as int) =~= all.take(next.len() as int).take(
            first.len() as int,
        ));
    }
}

proof fn lemma_failures_stay_pending(
    watch: WatchModel,
    samples: Seq<SampleModel>,
    i: int,
    j: int,
)
    requires
        0 <= i < j <= samples.len(),
        samples[i].failure is Some,
        forall|k: int|
            i < k < j ==> (#[trigger] samples[k]).interface_id != samples[i].interface_id,
    ensures
        samples_step(watch, samples.take(j)).0.interface_errors.dom().contains(
            samples[i].interface_id,
        ),
        samples_step(watch, samples.take(j)).0.interface_errors[samples[i].interface_id]
            == samples[i].failure->0,
    decreases j,
{
    assert(samples.take(j).drop_last() =~= samples.take(j - 1));
    assert(samples.take(j).last() == samples[j - 1]);
    if j > i + 1 {
        lemma_failures_stay_pending(watch, samples, i, j - 1);
    }
}

/// Whether samples are of interfaces that did not fail, each of which occurs
/// once.
pub open spec fn are_unfailed_once(samples: Seq<SampleModel>) -> bool {
    &&& forall|i: int| 0 <= i < samples.len() ==> (#[trigger] samples[i]).failure is None
    &&& forall|i: int, j: int|
        0 <= i < j < samples.len() ==> (#[trigger] samples[i]).interface_id != (
        #[trigger] samples[j]).interface_id
}

/// Whether samples are of observed interfaces, each of which occurs once.
pub open spec fn are_observed_once(samples: Seq<SampleModel>) -> bool {
    &&& are_unfailed_once(samples)
    &&& forall|i: int| 0 <= i < samples.len() ==> (#[trigger] samples[i]).observation is Some
}

/// Whether taking a sample in once more is no news.
pub open spec fn is_settled(watch: WatchModel, sample: SampleModel) -> bool {
    &&& !watch.interface_errors.dom().contains(sample.interface_id)
    &&& sample.observation matches Some(poll) ==> {
        &&& watch.links.dom().contains(sample.interface_id)
        &&& watch.links[sample.interface_id].change(poll) is None
        &&& watch.links[sample.interface_id].after(poll) == watch.links[sample.interface_id]
    }
}

proof fn lemma_fewer_are_unfailed(samples: Seq<SampleModel>)
    requires
        are_unfailed_once(samples),
        samples.len() > 0,
    ensures
        are_unfailed_once(samples.drop_last()),
{
    let shorter = samples.drop_last();
    assert forall|i: int| 0 <= i < shorter.len() implies (#[trigger] shorter[i]).failure is None by {
        assert(shorter[i] == samples[i]);
    }
    assert forall|i: int, j: int| 0 <= i < j < shorter.len() implies (
    #[trigger] shorter[i]).interface_id != (#[trigger] shorter[j]).interface_id by {
        assert(shorter[i] == samples[i]);
        assert(shorter[j] == samples[j]);
    }
}

proof fn lemma_samples_settle(watch: WatchModel, samples: Seq<SampleModel>)
    requires
        are_unfailed_once(samples),
        forall|id: Seq<char>| (#[trigger] known_link(watch, id)).threshold_db >= 1,
    ensures
        forall|i: int|
            0 <= i < samples.len() ==> is_settled(
                samples_step(watch, samples).0,
                #[trigger] samples[i],
            ),
        forall|id: Seq<char>|
            (#[trigger] known_link(samples_step(watch, samples).0, id)).threshold_db >= 1,
    decreases samples.len(),
{
    if samples.len() > 0 {
        let shorter = samples.drop_last();
        let before = samples_step(watch, shorter).0;
        let after = samples_step(watch, samples).0;
        let last = samples.last();
        lemma_fewer_are_unfailed(samples);
        lemma_samples_settle(watch, shorter);
        assert(last == samples[samples.len() - 1]);
        assert(last.failure is None);
        let known = known_link(before, last.interface_id);
        assert(after.interface_errors == before.interface_errors.remove(last.interface_id));
        match last.observation {
            Some(poll) => {
                link::lemma_repetition_is_silent(known, poll);
                assert(after.links == before.links.insert(last.interface_id, known.after(poll)));
                assert(known.after(poll).threshold_db == known.threshold_db);
            },
            None => {
                assert(after.links == before.links);
            },
        }
        assert forall|i: int| 0 <= i < samples.len() implies is_settled(
            after,
            #[trigger] samples[i],
        ) by {
            if i < samples.len() - 1 {
                assert(shorter[i] == samples[i]);
                assert(is_settled(before, shorter[i]));
                assert(samples[i].interface_id != samples[samples.len() - 1].interface_id);
            }
        }
        assert forall|id: Seq<char>| (#[trigger] known_link(after, id)).threshold_db >= 1 by {
            assert(known_link(before, id).threshold_db >= 1);
        }
    }
}

proof fn lemma_settled_samples_are_silent(watch: WatchModel, samples: Seq<SampleModel>)
    requires
        are_unfailed_once(samples),
        forall|i: int| 0 <= i < samples.len() ==> is_settled(watch, #[trigger] samples[i]),
    ensures
        samples_step(watch, samples) == (watch, Seq::<EventModel>::empty()),
    decreases samples.len(),
{
    if samples.len() > 0 {
        let shorter = samples.drop_last();
        assert forall|i: int| 0 <= i < shorter.len() implies is_settled(
            watch,
            #[trigger] shorter[i],
        ) by {
            assert(shorter[i] == samples[i]);
        }
        lemma_fewer_are_unfailed(samples);
        lemma_settled_samples_are_silent(watch, shorter);
        let last = samples.last();
        assert(last == samples[samples.len() - 1]);
        assert(is_settled(watch, last));
        let id = last.interface_id;
        if last.observation is Some {
            assert(watch.links.insert(id, watch.links[id]) =~= watch.links);
        }
        assert(watch.interface_errors.remove(id) =~= watch.interface_errors);
        let (after, events) = sample_step(watch, last);
        assert(after == watch);
        assert(events =~= Seq::<EventModel>::empty());
    }
}

/// The hysteresis of every link is positive from the start, and no poll changes
/// that.
pub proof fn lemma_thresholds_stay_positive(
    threshold_db: i32,
    watch: WatchModel,
    source: Seq<char>,
    samples: Result<Vec<CollectorSample>, String>,
    collected: Result<Vec<CollectorEvent>, String>,
)
    requires
        forall|id: Seq<char>| (#[trigger] known_link(watch, id)).threshold_db >= 1,
    ensures
        forall|id: Seq<char>|
            (#[trigger] known_link(fresh_watch(threshold_db), id)).threshold_db >= 1,
        forall|id: Seq<char>|
            (#[trigger] known_link(
                poll_step(watch, source, samples, collected).0,
                id,
            )).threshold_db >= 1,
{
    let polled = collected_step(watch, source, samples).0;
    assert forall|id: Seq<char>| (#[trigger] known_link(polled, id)).threshold_db >= 1 by {
        assert(known_link(watch, id).threshold_db >= 1);
        match samples {
            Ok(list) => {
                let well = WatchModel { collector_error: None, ..watch };
                assert forall|other: Seq<char>|
                    (#[trigger] known_link(well, other)).threshold_db >= 1 by {
                    assert(known_link(well, other) == known_link(watch, other));
                }
                lemma_samples_keep_thresholds(well, sample_models(list@));
                assert(known_link(samples_step(well, sample_models(list@)).0, id).threshold_db
                    >= 1);
            },
            Err(_) => {
                assert(known_link(polled, id) == known_link(watch, id));
            },
        }
    }
    let after = poll_step(watch, source, samples, collected).0;
    assert forall|id: Seq<char>| (#[trigger] known_link(after, id)).threshold_db >= 1 by {
        assert(known_link(after, id) == known_link(polled, id));
    }
}

proof fn lemma_samples_keep_thresholds(watch: WatchModel, samples: Seq<SampleModel>)
    requires
        forall|id: Seq<char>| (#[trigger] known_link(watch, id)).threshold_db >= 1,
    ensures
        forall|id: Seq<char>|
            (#[trigger] known_link(samples_step(watch, samples).0, id)).threshold_db >= 1,
    decreases samples.len(),
{
    if samples.len() > 0 {
        lemma_samples_keep_thresholds(watch, samples.drop_last());
        let before = samples_step(watch, samples.drop_last()).0;
        let after = samples_step(watch, samples).0;
        assert forall|id: Seq<char>| (#[trigger] known_link(after, id)).threshold_db >= 1 by {
            assert(known_link(before, id).threshold_db >= 1);
            assert(known_link(before, samples.last().interface_id).threshold_db >= 1);
        }
    }
}

/// The chronicle records changes and not polls: interfaces that are polled
/// twice with the same outcome are silent the second time, and nothing is left that
/// could break the silence, however often the poll is repeated.
pub proof fn lemma_repeated_polls_are_silent(watch: WatchModel, samples: Seq<SampleModel>)
    requires
        are_unfailed_once(samples),
        forall|id: Seq<char>| (#[trigger] known_link(watch, id)).threshold_db >= 1,
    ensures
        ({
            let once = samples_step(watch, samples).0;
            samples_step(once, samples) == (once, Seq::<EventModel>::empty())
        }),
{
    lemma_samples_settle(watch, samples);
    lemma_settled_samples_are_silent(samples_step(watch, samples).0, samples);
}

/// What `count` polls, one after another, leave and imply if each fails with
/// `message` while no events come in.
pub open spec fn failing_polls(
    watch: WatchModel,
    source: Seq<char>,
    message: String,
    quiet: Vec<CollectorEvent>,
    count: nat,
) -> (WatchModel, Seq<EventModel>)
    decreases count,
{
    if count == 0 {
        (watch, seq![])
    } else {
        let (before, events) = failing_polls(
            watch,
            source,
            message,
            quiet,
            (count - 1) as nat,
        );
        let (after, more) = poll_step(before, source, Err(message), Ok(quiet));
        (after, events + more)
    }
}

/// An outage of the collector is two events, however many polls it takes: the
/// first failing poll reports the failure, and the poll that succeeds again, with
/// what was seen before the outage, reports the recovery. No link change is
/// reported, and all is known of the links that was known before.
pub proof fn lemma_outages_are_reported_as_such(
    start: WatchModel,
    source: Seq<char>,
    good: Vec<CollectorSample>,
    message: String,
    quiet: Vec<CollectorEvent>,
    count: nat,
)
    requires
        count >= 1,
        quiet@.len() == 0,
        start.event_error is None,
        are_unfailed_once(sample_models(good@)),
        forall|id: Seq<char>| (#[trigger] known_link(start, id)).threshold_db >= 1,
    ensures
        ({
            let seen = poll_step(start, source, Ok(good), Ok(quiet)).0;
            let (down, failures) = failing_polls(seen, source, message, quiet, count);
            &&& failing_polls(seen, source, message, quiet, 1).1 == seq![
                error_event(None, source, message@),
            ]
            &&& failures == seq![error_event(None, source, message@)]
            &&& poll_step(down, source, Ok(good), Ok(quiet)) == (
                seen,
                seq![recovery_event(None, source)],
            )
        }),
{
    let well = WatchModel { collector_error: None, ..start };
    let models = sample_models(good@);
    let seen = poll_step(start, source, Ok(good), Ok(quiet)).0;
    assert forall|id: Seq<char>| (#[trigger] known_link(well, id)).threshold_db >= 1 by {
        assert(known_link(well, id) == known_link(start, id));
    }
    lemma_samples_keep_errors(well, models);
    assert(seen == samples_step(well, models).0);
    lemma_repeated_polls_are_silent(well, models);
    assert(samples_step(seen, models) == (seen, Seq::<EventModel>::empty()));
    lemma_outage(seen, source, message, quiet, 1);
    lemma_outage(seen, source, message, quiet, count);
    let down = failing_polls(seen, source, message, quiet, count).0;
    assert(WatchModel { collector_error: None, ..down } == seen);
    assert(event_models(quiet@) =~= seq![]);
    let recovery = seq![recovery_event(None, source)];
    assert(recovery + Seq::<EventModel>::empty() =~= recovery);
    assert(collected_step(down, source, Ok(good)) == (seen, recovery));
}

proof fn lemma_outage(
    watch: WatchModel,
    source: Seq<char>,
    message: String,
    quiet: Vec<CollectorEvent>,
    count: nat,
)
    requires
        count >= 1,
        quiet@.len() == 0,
        watch.collector_error is None,
        watch.event_error is None,
    ensures
        failing_polls(watch, source, message, quiet, count) == (
            (WatchModel { collector_error: Some(message@), ..watch }),
            seq![error_event(None, source, message@)],
        ),
    decreases count,
{
    let down = WatchModel { collector_error: Some(message@), ..watch };
    let error = seq![error_event(None, source, message@)];
    let none = Seq::<EventModel>::empty();
    assert(event_models(quiet@) =~= none);
    assert(error + none =~= error);
    assert(none + error =~= error);
    assert(none + none =~= none);
    if count == 1 {
        assert(failing_polls(watch, source, message, quiet, 0) == (watch, none));
        assert(poll_step(watch, source, Err(message), Ok(quiet)) == (down, error));
    } else {
        lemma_outage(watch, source, message, quiet, (count - 1) as nat);
        assert(poll_step(down, source, Err(message), Ok(quiet)) == (down, none));
    }
}

proof fn lemma_samples_keep_errors(watch: WatchModel, samples: Seq<SampleModel>)
    ensures
        samples_step(watch, samples).0.collector_error == watch.collector_error,
        samples_step(watch, samples).0.event_error == watch.event_error,
    decreases samples.len(),
{
    if samples.len() > 0 {
        lemma_samples_keep_errors(watch, samples.drop_last());
    }
}

/// The event that records an association.
pub open spec fn association_event(sample: SampleModel) -> EventModel {
    let poll = sample.observation->0;
    EventModel {
        interface_id: Some(sample.interface_id),
        kind: detect::kind_of(
            link::ChangeModel::Associated {
                ssid: poll.ssid,
                bssid: poll.bssid,
                rssi_dbm: poll.rssi_dbm,
            },
        ),
    }
}

proof fn lemma_first_samples(threshold_db: i32, samples: Seq<SampleModel>)
    requires
        are_observed_once(samples),
        forall|i: int|
            0 <= i < samples.len() ==> ((#[trigger] samples[i]).observation->0).connected,
    ensures
        samples_step(fresh_watch(threshold_db), samples).1 == samples.map_values(
            |sample: SampleModel| association_event(sample),
        ),
        forall|id: Seq<char>|
            (forall|i: int| 0 <= i < samples.len() ==> (#[trigger] samples[i]).interface_id != id)
                ==> !(#[trigger] samples_step(
                fresh_watch(threshold_db),
                samples,
            ).0.links.dom().contains(id)),
        samples_step(fresh_watch(threshold_db), samples).0.interface_errors == Map::<
            Seq<char>,
            FailureModel,
        >::empty(),
        samples_step(fresh_watch(threshold_db), samples).0.threshold_db == fresh_watch(
            threshold_db,
        ).threshold_db,
    decreases samples.len(),
{
    let start = fresh_watch(threshold_db);
    let as_event = |sample: SampleModel| association_event(sample);
    if samples.len() == 0 {
        assert(samples.map_values(as_event) =~= seq![]);
        assert(start.interface_errors =~= Map::empty());
    } else {
        let shorter = samples.drop_last();
        let last = samples.last();
        let n = samples.len() - 1;
        assert forall|i: int| 0 <= i < shorter.len() implies ((
        #[trigger] shorter[i]).observation->0).connected by {
            assert(shorter[i] == samples[i]);
        }
        lemma_fewer_are_unfailed(samples);
        assert forall|i: int| 0 <= i < shorter.len() implies (
        #[trigger] shorter[i]).observation is Some by {
            assert(shorter[i] == samples[i]);
        }
        lemma_first_samples(threshold_db, shorter);
        let (before, events) = samples_step(start, shorter);
        assert(last == samples[n]);
        assert(last.failure is None && last.observation is Some);
        assert forall|i: int| 0 <= i < shorter.len() implies (#[trigger] shorter[i]).interface_id
            != last.interface_id by {
            assert(shorter[i] == samples[i]);
            assert(samples[i].interface_id != samples[n].interface_id);
        }
        assert(!before.links.dom().contains(last.interface_id));
        let (after, more) = sample_step(before, last);
        assert(more =~= seq![association_event(last)]);
        assert(samples.map_values(as_event) =~= shorter.map_values(as_event).push(
            association_event(last),
        ));
        assert(events + more =~= samples.map_values(as_event));
        assert(after.interface_errors =~= Map::empty());
        assert forall|id: Seq<char>|
            (forall|i: int| 0 <= i < samples.len() ==> (#[trigger] samples[i]).interface_id != id)
                implies !(#[trigger] after.links.dom().contains(id)) by {
            assert(samples[n].interface_id != id);
            assert forall|i: int| 0 <= i < shorter.len() implies (
            #[trigger] shorter[i]).interface_id != id by {
                assert(shorter[i] == samples[i]);
            }
            assert(!before.links.dom().contains(id));
        }
    }
}

/// A recorder that starts on associated interfaces records one association for
/// each of them, and nothing else.
pub proof fn lemma_associations_are_recorded(threshold_db: i32, samples: Seq<SampleModel>)
    requires
        are_observed_once(samples),
        forall|i: int|
            0 <= i < samples.len() ==> ((#[trigger] samples[i]).observation->0).connected,
    ensures
        samples_step(fresh_watch(threshold_db), samples).1 == samples.map_values(
            |sample: SampleModel| association_event(sample),
        ),
{
    lemma_first_samples(threshold_db, samples);
}

/// The entries that a step's events make, with consecutive numbers.
pub open spec fn step_entries(
    identity: chronicle::IdentityModel,
    sequence: u64,
    events: Seq<EventModel>,
    stamps: Seq<chronicle::Stamp>,
    count: nat,
) -> Seq<chronicle::EntryModel> {
    Seq::new(
        count,
        |i: int|
            chronicle::entry_of(
                identity,
                numbered(sequence, i),
                stamps[i],
                events[i].interface_id,
                events[i].kind,
            ),
    )
}

/// A sink in memory keeps every entry of a step, in order and with consecutive
/// numbers, and never fails.
pub proof fn lemma_memory_keeps_every_entry(
    before: RecorderModel<VecSink>,
    events: Seq<EventModel>,
    stamps: Seq<chronicle::Stamp>,
    after: RecorderModel<VecSink>,
    result: Result<usize, std::io::Error>,
)
    requires
        recorded(before, events, stamps, after, result),
    ensures
        result is Ok,
        result->Ok_0 == events.len(),
        after.sink.entries() == before.sink.entries() + step_entries(
            before.identity,
            before.next_sequence,
            events,
            stamps,
            events.len(),
        ),
{
    assert(exists|between: VecSink, flushed: Result<(), std::io::Error>| #[trigger]
        step_completes(before, events, stamps, between, flushed, after, result));
    let (between, flushed) = choose|between: VecSink, flushed: Result<(), std::io::Error>|
        #[trigger] step_completes(before, events, stamps, between, flushed, after, result);
    let states = choose|states: Seq<VecSink>|
        {
            &&& #[trigger] passes_through(
                states,
                before.identity,
                before.next_sequence,
                events,
                stamps,
                events.len() as int,
            )
            &&& states[0] == before.sink
            &&& states.last() == between
        };
    lemma_memory_grows(
        states,
        before.identity,
        before.next_sequence,
        events,
        stamps,
        events.len() as int,
        events.len(),
    );
}

proof fn lemma_memory_grows(
    states: Seq<VecSink>,
    identity: chronicle::IdentityModel,
    sequence: u64,
    events: Seq<EventModel>,
    stamps: Seq<chronicle::Stamp>,
    count: int,
    upto: nat,
)
    requires
        passes_through(states, identity, sequence, events, stamps, count),
        upto <= count,
    ensures
        states[upto as int].entries() == states[0].entries() + step_entries(
            identity,
            sequence,
            events,
            stamps,
            upto,
        ),
    decreases upto,
{
    if upto == 0 {
        assert(step_entries(identity, sequence, events, stamps, 0) =~= seq![]);
        assert(states[0].entries() + Seq::<chronicle::EntryModel>::empty() =~= states[0].entries());
    } else {
        let last = (upto - 1) as nat;
        lemma_memory_grows(states, identity, sequence, events, stamps, count, last);
        assert(takes(
            states[last as int],
            identity,
            numbered(sequence, last as int),
            events[last as int],
            stamps[last as int],
            states[last as int + 1],
        ));
        let shorter = step_entries(identity, sequence, events, stamps, last);
        let longer = step_entries(identity, sequence, events, stamps, upto);
        lemma_step_entries_grow(identity, sequence, events, stamps, last);
        assert(states[0].entries() + shorter.push(longer[last as int]) =~= (states[0].entries()
            + shorter).push(longer[last as int]));
    }
}

proof fn lemma_step_entries_grow(
    identity: chronicle::IdentityModel,
    sequence: u64,
    events: Seq<EventModel>,
    stamps: Seq<chronicle::Stamp>,
    count: nat,
)
    ensures
        step_entries(identity, sequence, events, stamps, count + 1) == step_entries(
            identity,
            sequence,
            events,
            stamps,
            count,
        ).push(
            chronicle::entry_of(
                identity,
                numbered(sequence, count as int),
                stamps[count as int],
                events[count as int].interface_id,
                events[count as int].kind,
            ),
        ),
{
}

} // verus!
