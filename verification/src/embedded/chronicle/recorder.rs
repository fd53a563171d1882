//! Change-only recorder with fleet-safe identity and heartbeat metrics.

use super::detect;
use super::detect::ChangeDetector;
use super::metrics;
use super::metrics::MetricsTracker;
use super::types;
use super::types::{
    Clock, ClockReading, ConnectivityStage, Entry, EventKind, Identity, MetricsSnapshot, Sink,
    VecSink, SCHEMA_VERSION,
};
use crate::link;
use crate::ordered::StringMap;
use crate::schema;
use crate::schema::event_id;
use crate::text;
use crate::text::{copied, owned};
use crate::wlan;
use crate::wlan::{observation, WifiStatus};
use vstd::prelude::*;

verus! {

// ---------------------------------------------------------------------------
// What a recorder does
// ---------------------------------------------------------------------------

/// What a recorder holds: its sink, its stream, and what it knows of each link
/// and of the path.
#[verifier::ext_equal]
#[verifier::reject_recursive_types(S)]
pub struct ChronicleModel<S> {
    pub sink: S,
    pub identity: types::IdentityModel,
    pub next_sequence: u64,
    pub threshold_db: i32,
    pub links: Map<Seq<char>, link::LinkModel>,
    pub metrics: metrics::MetricsModel,
}

/// The number after `sequence`, as far as numbers go.
pub open spec fn following(sequence: u64) -> u64 {
    if sequence == u64::MAX {
        sequence
    } else {
        (sequence + 1) as u64
    }
}

/// What a recorder knows of a link: nothing, unless it was polled before.
pub open spec fn known_link<S>(state: ChronicleModel<S>, interface_id: Seq<char>) -> link::LinkModel {
    if state.links.dom().contains(interface_id) {
        state.links[interface_id]
    } else {
        link::LinkModel::fresh(state.threshold_db)
    }
}

/// Whether handing one event to the sink may turn `before` into `after` and
/// return `result`. The number is used up whether or not the write succeeds.
pub open spec fn written<S: Sink>(
    before: ChronicleModel<S>,
    reading: ClockReading,
    interface_id: Option<Seq<char>>,
    event: types::EventModel,
    after: ChronicleModel<S>,
    result: Result<(), S::Error>,
) -> bool {
    let entry = types::entry_of(
        before.identity,
        before.next_sequence,
        reading,
        interface_id,
        event,
    );
    &&& before.sink.wrote(entry, after.sink, result)
    &&& after == ChronicleModel {
        sink: after.sink,
        next_sequence: following(before.next_sequence),
        ..before
    }
}

/// Whether recording one event may turn `before` into `after`, by way of the
/// write that leads to `between` and returns `wrote`: a failed write is
/// returned, a successful one is flushed.
pub open spec fn recorded_via<S: Sink>(
    before: ChronicleModel<S>,
    reading: ClockReading,
    interface_id: Option<Seq<char>>,
    event: types::EventModel,
    between: ChronicleModel<S>,
    wrote: Result<(), S::Error>,
    after: ChronicleModel<S>,
    result: Result<(), S::Error>,
) -> bool {
    &&& written(before, reading, interface_id, event, between, wrote)
    &&& match wrote {
        Ok(_) => {
            &&& between.sink.flushed(after.sink, result)
            &&& after == ChronicleModel { sink: after.sink, ..between }
        },
        Err(_) => after == between && result == wrote,
    }
}

/// Whether recording one event may turn `before` into `after` and return
/// `result`.
pub open spec fn recorded<S: Sink>(
    before: ChronicleModel<S>,
    reading: ClockReading,
    interface_id: Option<Seq<char>>,
    event: types::EventModel,
    after: ChronicleModel<S>,
    result: Result<(), S::Error>,
) -> bool {
    exists|between: ChronicleModel<S>, wrote: Result<(), S::Error>|
        recorded_via(before, reading, interface_id, event, between, wrote, after, result)
}

/// The state once a poll is taken in, before anything is recorded of it.
pub open spec fn polled<S>(
    before: ChronicleModel<S>,
    reading: ClockReading,
    interface_id: Seq<char>,
    poll: link::ObservationModel,
    reason: Option<u16>,
) -> ChronicleModel<S> {
    let link = known_link(before, interface_id);
    let metrics = before.metrics.polled(
        reading.monotonic_ms,
        poll.connected,
        poll.rssi_dbm,
        reason,
    );
    ChronicleModel {
        links: before.links.insert(interface_id, link.after(poll)),
        metrics: if link.roams_to(poll) {
            metrics.roaming(reading.monotonic_ms)
        } else {
            metrics
        },
        ..before
    }
}

/// Whether a poll of `status` at `reading` may turn `before` into `after` and
/// return `result`: a poll that changes nothing is not recorded.
pub open spec fn observed_at<S: Sink>(
    before: ChronicleModel<S>,
    reading: ClockReading,
    status: WifiStatus,
    reason: Option<u16>,
    after: ChronicleModel<S>,
    result: Result<usize, S::Error>,
) -> bool {
    let id = status.interface.guid@;
    let poll = wlan::observed(status.connection);
    let noted = polled(before, reading, id, poll, reason);
    match known_link(before, id).change(poll) {
        None => after == noted && result == Ok::<usize, S::Error>(0),
        Some(change) => match result {
            Ok(count) => count == 1 && recorded(
                noted,
                reading,
                Some(id),
                detect::event_of(change, reason),
                after,
                Ok(()),
            ),
            Err(error) => recorded(
                noted,
                reading,
                Some(id),
                detect::event_of(change, reason),
                after,
                Err(error),
            ),
        },
    }
}

/// Whether a heartbeat at `reading` may turn `before` into `after` and return
/// `result`: the window restarts only once its heartbeat is recorded.
pub open spec fn emitted_at<S: Sink>(
    before: ChronicleModel<S>,
    reading: ClockReading,
    after: ChronicleModel<S>,
    result: Result<MetricsSnapshot, S::Error>,
) -> bool {
    let metrics = before.metrics.accounted(reading.monotonic_ms);
    let noted = ChronicleModel { metrics, ..before };
    let event = types::EventModel::Metrics { snapshot: metrics.heartbeat() };
    match result {
        Ok(snapshot) => {
            &&& snapshot == metrics.heartbeat()
            &&& after.metrics == metrics.restarted(reading.monotonic_ms)
            &&& recorded(
                noted,
                reading,
                None,
                event,
                ChronicleModel { metrics, ..after },
                Ok(()),
            )
        },
        Err(error) => recorded(noted, reading, None, event, after, Err(error)),
    }
}

// ---------------------------------------------------------------------------
// The recorder
// ---------------------------------------------------------------------------

/// Change-only recorder with fleet-safe identity and heartbeat metrics.
///
/// Metrics describe one logical connectivity path. Firmware with independent
/// Wi-Fi and cellular links should keep one recorder per path rather than
/// interleaving their connected states.
#[verifier::reject_recursive_types(S)]
#[verifier::reject_recursive_types(C)]
pub struct Chronicle<S: Sink, C: Clock> {
    sink: S,
    clock: C,
    identity: Identity,
    next_sequence: u64,
    signal_threshold_db: i32,
    detectors: StringMap<ChangeDetector>,
    metrics: MetricsTracker,
}

impl<S: Sink, C: Clock> View for Chronicle<S, C> {
    type V = ChronicleModel<S>;

    closed spec fn view(&self) -> ChronicleModel<S> {
        ChronicleModel {
            sink: self.sink,
            identity: self.identity@,
            next_sequence: self.next_sequence,
            threshold_db: self.signal_threshold_db,
            links: self.detectors@.map_values(|d: ChangeDetector| d@),
            metrics: self.metrics@,
        }
    }
}

impl<S: Sink, C: Clock> Chronicle<S, C> {
    /// The clock that readings are taken from, as it stands.
    pub closed spec fn held_clock(&self) -> C {
        self.clock
    }

    /// A recorder whose window starts at the clock's reading.
    pub fn new(
        sink: S,
        clock: C,
        identity: Identity,
        initial_sequence: u64,
        signal_threshold_db: i32,
    ) -> (r: Self)
        ensures
            exists|reading: ClockReading|
                clock.reads(reading, r.held_clock()) && r@ == #[trigger] started_at(
                    sink,
                    reading,
                    identity@,
                    initial_sequence,
                    signal_threshold_db,
                ),
    {
        let mut clock = clock;
        let reading = clock.now();
        Self::new_at(reading, sink, clock, identity, initial_sequence, signal_threshold_db)
    }

    /// A recorder whose window starts at `reading`.
    pub fn new_at(
        reading: ClockReading,
        sink: S,
        clock: C,
        identity: Identity,
        initial_sequence: u64,
        signal_threshold_db: i32,
    ) -> (r: Self)
        ensures
            r@ == started_at(sink, reading, identity@, initial_sequence, signal_threshold_db),
            r.held_clock() == clock,
    {
        let r = Chronicle {
            sink,
            clock,
            identity,
            next_sequence: initial_sequence,
            signal_threshold_db: if signal_threshold_db < 1 {
                1
            } else {
                signal_threshold_db
            },
            detectors: StringMap::new(),
            metrics: MetricsTracker::new(reading.monotonic_ms),
        };
        proof {
            assert(r@.links =~= Map::<Seq<char>, link::LinkModel>::empty());
        }
        r
    }

    /// Take in a poll of an interface; record what it changes. Returns how many
    /// entries that took.
    pub fn observe_status(&mut self, status: &WifiStatus) -> (r: Result<usize, S::Error>)
        ensures
            exists|reading: ClockReading|
                old(self).held_clock().reads(reading, final(self).held_clock()) && #[trigger]
                observed_at(old(self)@, reading, *status, None, final(self)@, r),
    {
        self.observe_status_with_reason(status, None)
    }

    /// Take in a poll of an interface, with the reason of a disconnect.
    pub fn observe_status_with_reason(
        &mut self,
        status: &WifiStatus,
        disconnect_reason: Option<u16>,
    ) -> (r: Result<usize, S::Error>)
        ensures
            exists|reading: ClockReading|
                old(self).held_clock().reads(reading, final(self).held_clock()) && #[trigger]
                observed_at(
                    old(self)@,
                    reading,
                    *status,
                    disconnect_reason,
                    final(self)@,
                    r,
                ),
    {
        let reading = self.clock.now();
        proof {
            assert(self@ =~= old(self)@);
        }
        self.observe_status_at(reading, status, disconnect_reason)
    }

    /// Take in a poll of an interface that was made at `reading`.
    pub fn observe_status_at(
        &mut self,
        reading: ClockReading,
        status: &WifiStatus,
        disconnect_reason: Option<u16>,
    ) -> (r: Result<usize, S::Error>)
        ensures
            observed_at(old(self)@, reading, *status, disconnect_reason, final(self)@, r),
            final(self).held_clock() == old(self).held_clock(),
    {
        let ghost before = self@;
        let interface_id = status.interface.guid.clone();
        let poll = observation(&status.connection);
        let ghost seen = poll@;
        self.metrics.observe_connection(
            reading.monotonic_ms,
            poll.connected,
            poll.rssi_dbm,
            disconnect_reason,
        );
        let ghost kept = self.detectors@;
        let mut detector = match self.detectors.remove(interface_id.as_str()) {
            Some(detector) => detector,
            None => ChangeDetector::new(self.signal_threshold_db),
        };
        let ghost link = detector@;
        proof {
            assert(before.links.dom() =~= kept.dom());
            assert(link == known_link(before, interface_id@));
        }
        let event = detector.observe(poll, disconnect_reason);
        self.detectors.insert(interface_id.clone(), detector);
        proof {
            assert(self@.links =~= before.links.insert(interface_id@, link.after(seen)));
        }
        match event {
            Some(event) => {
                if let EventKind::Roamed { .. } = &event {
                    self.metrics.roam(reading.monotonic_ms);
                }
                proof {
                    assert(self@ =~= polled(before, reading, interface_id@, seen, disconnect_reason));
                }
                let outcome = self.write_and_flush(reading, Some(interface_id), event);
                match outcome {
                    Ok(done) => {
                        proof {
                            assert(done == ());
                        }
                        Ok(1)
                    },
                    Err(error) => Err(error),
                }
            },
            None => {
                proof {
                    assert(self@ =~= polled(before, reading, interface_id@, seen, disconnect_reason));
                }
                Ok(0)
            },
        }
    }

    /// An attempt to associate begins.
    pub fn note_association_attempt(&mut self, interface_id: &str, ssid: Option<&str>) -> (r: Result<
        (),
        S::Error,
    >)
        ensures
            exists|reading: ClockReading|
                old(self).held_clock().reads(reading, final(self).held_clock()) && #[trigger]
                recorded(
                    attempting_at(old(self)@, reading),
                    reading,
                    Some(interface_id@),
                    types::EventModel::AssociationAttempt { ssid: text::opt_str(ssid) },
                    final(self)@,
                    r,
                ),
    {
        let reading = self.clock.now();
        proof {
            assert(self@ =~= old(self)@);
        }
        self.note_association_attempt_at(reading, interface_id, ssid)
    }

    /// An attempt to associate began at `reading`.
    pub fn note_association_attempt_at(
        &mut self,
        reading: ClockReading,
        interface_id: &str,
        ssid: Option<&str>,
    ) -> (r: Result<(), S::Error>)
        ensures
            recorded(
                attempting_at(old(self)@, reading),
                reading,
                Some(interface_id@),
                types::EventModel::AssociationAttempt { ssid: text::opt_str(ssid) },
                final(self)@,
                r,
            ),
            final(self).held_clock() == old(self).held_clock(),
    {
        self.metrics.association_attempt(reading.monotonic_ms);
        proof {
            assert(self@ =~= attempting_at(old(self)@, reading));
        }
        self.write_interface_event(
            reading,
            interface_id,
            EventKind::AssociationAttempt { ssid: owned(ssid) },
        )
    }

    /// The interface has an address.
    pub fn note_ip_acquired(&mut self, interface_id: &str, address: Option<&str>) -> (r: Result<
        (),
        S::Error,
    >)
        ensures
            exists|reading: ClockReading|
                old(self).held_clock().reads(reading, final(self).held_clock()) && #[trigger]
                recorded(
                    addressed_at(old(self)@, reading),
                    reading,
                    Some(interface_id@),
                    types::EventModel::IpAcquired { address: text::opt_str(address) },
                    final(self)@,
                    r,
                ),
    {
        let reading = self.clock.now();
        proof {
            assert(self@ =~= old(self)@);
        }
        self.note_ip_acquired_at(reading, interface_id, address)
    }

    /// The interface has had an address since `reading`.
    pub fn note_ip_acquired_at(
        &mut self,
        reading: ClockReading,
        interface_id: &str,
        address: Option<&str>,
    ) -> (r: Result<(), S::Error>)
        ensures
            recorded(
                addressed_at(old(self)@, reading),
                reading,
                Some(interface_id@),
                types::EventModel::IpAcquired { address: text::opt_str(address) },
                final(self)@,
                r,
            ),
            final(self).held_clock() == old(self).held_clock(),
    {
        self.metrics.ip_acquired(reading.monotonic_ms);
        proof {
            assert(self@ =~= addressed_at(old(self)@, reading));
        }
        self.write_interface_event(
            reading,
            interface_id,
            EventKind::IpAcquired { address: owned(address) },
        )
    }

    /// The backend was tried.
    pub fn note_backend_result(
        &mut self,
        interface_id: &str,
        endpoint: &str,
        reachable: bool,
        latency_ms: Option<u32>,
    ) -> (r: Result<(), S::Error>)
        ensures
            exists|reading: ClockReading|
                old(self).held_clock().reads(reading, final(self).held_clock()) && #[trigger]
                recorded(
                    backed_at(old(self)@, reading, reachable),
                    reading,
                    Some(interface_id@),
                    types::EventModel::BackendCheck { endpoint: endpoint@, reachable, latency_ms },
                    final(self)@,
                    r,
                ),
    {
        let reading = self.clock.now();
        proof {
            assert(self@ =~= old(self)@);
        }
        self.note_backend_result_at(reading, interface_id, endpoint, reachable, latency_ms)
    }

    /// The backend was tried at `reading`.
    pub fn note_backend_result_at(
        &mut self,
        reading: ClockReading,
        interface_id: &str,
        endpoint: &str,
        reachable: bool,
        latency_ms: Option<u32>,
    ) -> (r: Result<(), S::Error>)
        ensures
            recorded(
                backed_at(old(self)@, reading, reachable),
                reading,
                Some(interface_id@),
                types::EventModel::BackendCheck { endpoint: endpoint@, reachable, latency_ms },
                final(self)@,
                r,
            ),
            final(self).held_clock() == old(self).held_clock(),
    {
        self.metrics.backend_result(reading.monotonic_ms, reachable);
        proof {
            assert(self@ =~= backed_at(old(self)@, reading, reachable));
        }
        self.write_interface_event(
            reading,
            interface_id,
            EventKind::BackendCheck { endpoint: endpoint.to_owned(), reachable, latency_ms },
        )
    }

    /// A stage of the path failed.
    pub fn note_connectivity_failure(
        &mut self,
        interface_id: Option<&str>,
        stage: ConnectivityStage,
        code: Option<i32>,
    ) -> (r: Result<(), S::Error>)
        ensures
            exists|reading: ClockReading|
                old(self).held_clock().reads(reading, final(self).held_clock()) && #[trigger]
                recorded(
                    old(self)@,
                    reading,
                    text::opt_str(interface_id),
                    types::EventModel::ConnectivityFailure { stage, code },
                    final(self)@,
                    r,
                ),
    {
        let reading = self.clock.now();
        proof {
            assert(self@ =~= old(self)@);
        }
        self.write_and_flush(
            reading,
            owned(interface_id),
            EventKind::ConnectivityFailure { stage, code },
        )
    }

    /// Connectivity is expected, or not, from now on.
    pub fn set_connectivity_expected(&mut self, expected: bool)
        ensures
            exists|reading: ClockReading|
                old(self).held_clock().reads(reading, final(self).held_clock()) && final(self)@
                    == #[trigger] expecting_at(old(self)@, reading, expected),
    {
        let reading = self.clock.now();
        proof {
            assert(self@ =~= old(self)@);
        }
        self.set_connectivity_expected_at(reading, expected)
    }

    /// Connectivity is expected, or not, from `reading` on.
    pub fn set_connectivity_expected_at(&mut self, reading: ClockReading, expected: bool)
        ensures
            final(self)@ == expecting_at(old(self)@, reading, expected),
            final(self).held_clock() == old(self).held_clock(),
    {
        self.metrics.set_expected(reading.monotonic_ms, expected);
        proof {
            assert(self@ =~= expecting_at(old(self)@, reading, expected));
        }
    }

    /// Record the window's heartbeat and start a new window.
    pub fn emit_metrics(&mut self) -> (r: Result<MetricsSnapshot, S::Error>)
        ensures
            exists|reading: ClockReading|
                old(self).held_clock().reads(reading, final(self).held_clock()) && #[trigger]
                emitted_at(old(self)@, reading, final(self)@, r),
    {
        let reading = self.clock.now();
        proof {
            assert(self@ =~= old(self)@);
        }
        self.emit_metrics_at(reading)
    }

    /// Record the heartbeat of the window that ends at `reading`.
    pub fn emit_metrics_at(&mut self, reading: ClockReading) -> (r: Result<
        MetricsSnapshot,
        S::Error,
    >)
        ensures
            emitted_at(old(self)@, reading, final(self)@, r),
            final(self).held_clock() == old(self).held_clock(),
    {
        let ghost before = self@;
        let snapshot = self.metrics.snapshot(reading.monotonic_ms);
        let ghost noted = ChronicleModel {
            metrics: before.metrics.accounted(reading.monotonic_ms),
            ..before
        };
        proof {
            assert(self@ =~= noted);
        }
        let outcome = self.write_and_flush(reading, None, EventKind::Metrics { snapshot });
        match outcome {
            Ok(done) => {
                proof {
                    assert(done == ());
                }
                let ghost kept = self@;
                self.metrics.reset_window(reading.monotonic_ms);
                proof {
                    assert(ChronicleModel { metrics: noted.metrics, ..self@ } =~= kept);
                }
                Ok(snapshot)
            },
            Err(error) => Err(error),
        }
    }

    /// Record an event of the caller's own.
    pub fn record(&mut self, interface_id: Option<String>, event: EventKind) -> (r: Result<
        (),
        S::Error,
    >)
        ensures
            exists|reading: ClockReading|
                old(self).held_clock().reads(reading, final(self).held_clock()) && #[trigger]
                recorded(
                    old(self)@,
                    reading,
                    text::opt_text(interface_id),
                    event@,
                    final(self)@,
                    r,
                ),
    {
        let reading = self.clock.now();
        proof {
            assert(self@ =~= old(self)@);
        }
        self.record_at(reading, interface_id, event)
    }

    /// Record an event of the caller's own that happened at `reading`.
    pub fn record_at(
        &mut self,
        reading: ClockReading,
        interface_id: Option<String>,
        event: EventKind,
    ) -> (r: Result<(), S::Error>)
        ensures
            recorded(
                old(self)@,
                reading,
                text::opt_text(interface_id),
                event@,
                final(self)@,
                r,
            ),
            final(self).held_clock() == old(self).held_clock(),
    {
        self.write_and_flush(reading, interface_id, event)
    }

    /// The number of the next entry.
    pub fn next_sequence(&self) -> (r: u64)
        ensures
            r == self@.next_sequence,
    {
        self.next_sequence
    }

    /// The clock, for firmware that drives it by hand: what becomes of it
    /// becomes of the recorder's clock, and of nothing else.
    pub fn clock_mut(&mut self) -> (r: &mut C)
        ensures
            *r == old(self).held_clock(),
            final(self).held_clock() == *final(r),
            final(self)@ == old(self)@,
    {
        &mut self.clock
    }

    /// The sink.
    pub fn sink(&self) -> (r: &S)
        ensures
            *r == self@.sink,
    {
        &self.sink
    }

    /// The sink, which the recorder gives up.
    pub fn into_sink(self) -> (r: S)
        ensures
            r == self@.sink,
    {
        self.sink
    }

    fn write_and_flush(
        &mut self,
        reading: ClockReading,
        interface_id: Option<String>,
        event: EventKind,
    ) -> (r: Result<(), S::Error>)
        ensures
            recorded(
                old(self)@,
                reading,
                text::opt_text(interface_id),
                event@,
                final(self)@,
                r,
            ),
            final(self).held_clock() == old(self).held_clock(),
    {
        let ghost before = self@;
        let ghost interface = text::opt_text(interface_id);
        let ghost said = event@;
        let wrote = self.write_at(reading, interface_id, event);
        let ghost between = self@;
        match wrote {
            Err(error) => {
                proof {
                    assert(recorded_via(
                        before,
                        reading,
                        interface,
                        said,
                        between,
                        wrote,
                        between,
                        wrote,
                    ));
                }
                Err(error)
            },
            Ok(()) => {
                let flushed = self.sink.flush();
                proof {
                    assert(self@ =~= ChronicleModel { sink: self@.sink, ..between });
                    assert(recorded_via(
                        before,
                        reading,
                        interface,
                        said,
                        between,
                        wrote,
                        self@,
                        flushed,
                    ));
                }
                flushed
            },
        }
    }

    fn write_interface_event(
        &mut self,
        reading: ClockReading,
        interface_id: &str,
        event: EventKind,
    ) -> (r: Result<(), S::Error>)
        ensures
            recorded(old(self)@, reading, Some(interface_id@), event@, final(self)@, r),
            final(self).held_clock() == old(self).held_clock(),
    {
        self.write_and_flush(reading, Some(interface_id.to_owned()), event)
    }

    fn write_at(
        &mut self,
        reading: ClockReading,
        interface_id: Option<String>,
        event: EventKind,
    ) -> (r: Result<(), S::Error>)
        ensures
            written(
                old(self)@,
                reading,
                text::opt_text(interface_id),
                event@,
                final(self)@,
                r,
            ),
            final(self).held_clock() == old(self).held_clock(),
    {
        let ghost before = self@;
        let sequence: u64 = self.next_sequence;
        self.next_sequence = self.next_sequence.saturating_add(1);
        let device_component = match &self.identity.device_id {
            Some(id) => id.as_str(),
            None => "anonymous",
        };
        let entry = Entry {
            schema_version: SCHEMA_VERSION,
            device_id: copied(&self.identity.device_id),
            boot_id: self.identity.boot_id.clone(),
            sequence,
            event_id: event_id(device_component, self.identity.boot_id.as_str(), sequence),
            clock: reading,
            interface_id,
            event,
        };
        let wrote = self.sink.write(&entry);
        proof {
            assert(entry@ =~= types::entry_of(
                before.identity,
                before.next_sequence,
                reading,
                entry@.interface_id,
                entry@.event,
            ));
            assert(self@ =~= ChronicleModel {
                sink: self@.sink,
                next_sequence: following(before.next_sequence),
                ..before
            });
        }
        wrote
    }
}

/// A recorder that has seen nothing.
pub open spec fn started_at<S>(
    sink: S,
    reading: ClockReading,
    identity: types::IdentityModel,
    initial_sequence: u64,
    signal_threshold_db: i32,
) -> ChronicleModel<S> {
    ChronicleModel {
        sink,
        identity,
        next_sequence: initial_sequence,
        threshold_db: if signal_threshold_db < 1 {
            1
        } else {
            signal_threshold_db
        },
        links: Map::empty(),
        metrics: metrics::MetricsModel::fresh(reading.monotonic_ms),
    }
}

/// The state once an attempt to associate is counted.
pub open spec fn attempting_at<S>(
    before: ChronicleModel<S>,
    reading: ClockReading,
) -> ChronicleModel<S> {
    ChronicleModel { metrics: before.metrics.attempting(reading.monotonic_ms), ..before }
}

/// The state once an address is counted.
pub open spec fn addressed_at<S>(
    before: ChronicleModel<S>,
    reading: ClockReading,
) -> ChronicleModel<S> {
    ChronicleModel { metrics: before.metrics.addressed(reading.monotonic_ms), ..before }
}

/// The state once a try of the backend is counted.
pub open spec fn backed_at<S>(
    before: ChronicleModel<S>,
    reading: ClockReading,
    reachable: bool,
) -> ChronicleModel<S> {
    ChronicleModel { metrics: before.metrics.backed(reading.monotonic_ms, reachable), ..before }
}

/// The state once connectivity is expected, or not.
pub open spec fn expecting_at<S>(
    before: ChronicleModel<S>,
    reading: ClockReading,
    expected: bool,
) -> ChronicleModel<S> {
    ChronicleModel { metrics: before.metrics.expecting(reading.monotonic_ms, expected), ..before }
}

// ---------------------------------------------------------------------------
// Laws
// ---------------------------------------------------------------------------

/// What holds of every recorder: thresholds are positive, so that a repeated
/// reading is never a shift, and the metrics are consistent.
pub open spec fn sound<S>(state: ChronicleModel<S>) -> bool {
    &&& state.threshold_db >= 1
    &&& forall|id: Seq<char>| #[trigger]
        state.links.dom().contains(id) ==> state.links[id].threshold_db >= 1
    &&& state.metrics.consistent()
}

/// A recorder starts sound.
pub proof fn lemma_starts_sound<S>(
    sink: S,
    reading: ClockReading,
    identity: types::IdentityModel,
    initial_sequence: u64,
    signal_threshold_db: i32,
)
    ensures
        sound(started_at(sink, reading, identity, initial_sequence, signal_threshold_db)),
{
}

/// Recording uses up one number and touches nothing but the sink, whatever the
/// sink answers.
pub proof fn lemma_recording_uses_one_number<S: Sink>(
    before: ChronicleModel<S>,
    reading: ClockReading,
    interface_id: Option<Seq<char>>,
    event: types::EventModel,
    after: ChronicleModel<S>,
    result: Result<(), S::Error>,
)
    requires
        recorded(before, reading, interface_id, event, after, result),
    ensures
        after == (ChronicleModel {
            sink: after.sink,
            next_sequence: following(before.next_sequence),
            ..before
        }),
{
}

/// A poll keeps the recorder sound.
pub proof fn lemma_polls_stay_sound<S: Sink>(
    before: ChronicleModel<S>,
    reading: ClockReading,
    status: WifiStatus,
    reason: Option<u16>,
    after: ChronicleModel<S>,
    result: Result<usize, S::Error>,
)
    requires
        sound(before),
        observed_at(before, reading, status, reason, after, result),
    ensures
        sound(after),
        known_link(after, status.interface.guid@) == known_link(
            before,
            status.interface.guid@,
        ).after(wlan::observed(status.connection)),
{
    let poll = wlan::observed(status.connection);
    let id = status.interface.guid@;
    let t = reading.monotonic_ms;
    metrics::lemma_metrics_stay_consistent(
        before.metrics,
        t,
        true,
        poll.connected,
        poll.rssi_dbm,
        reason,
        true,
    );
    metrics::lemma_metrics_stay_consistent(
        before.metrics.polled(t, poll.connected, poll.rssi_dbm, reason),
        t,
        true,
        true,
        None,
        None,
        true,
    );
    let noted = polled(before, reading, id, poll, reason);
    assert forall|other: Seq<char>| #[trigger]
        noted.links.dom().contains(other) implies noted.links[other].threshold_db >= 1 by {
        if other != id {
            assert(before.links.dom().contains(other));
        }
    }
    match known_link(before, id).change(poll) {
        None => {},
        Some(change) => {
            let event = detect::event_of(change, reason);
            match result {
                Ok(_) => lemma_recording_uses_one_number(
                    noted,
                    reading,
                    Some(id),
                    event,
                    after,
                    Ok(()),
                ),
                Err(error) => lemma_recording_uses_one_number(
                    noted,
                    reading,
                    Some(id),
                    event,
                    after,
                    Err(error),
                ),
            }
        },
    }
}

/// What the caller notes keeps the recorder sound.
pub proof fn lemma_notes_stay_sound<S>(
    before: ChronicleModel<S>,
    reading: ClockReading,
    reachable: bool,
    expected: bool,
)
    requires
        sound(before),
    ensures
        sound(attempting_at(before, reading)),
        sound(addressed_at(before, reading)),
        sound(backed_at(before, reading, reachable)),
        sound(expecting_at(before, reading, expected)),
{
    metrics::lemma_metrics_stay_consistent(
        before.metrics,
        reading.monotonic_ms,
        expected,
        true,
        None,
        None,
        reachable,
    );
}

/// The chronicle records changes only: a poll that repeats the one before it
/// writes nothing and uses no number.
pub proof fn lemma_repeated_poll_is_not_recorded<S: Sink>(
    before: ChronicleModel<S>,
    first: ClockReading,
    second: ClockReading,
    status: WifiStatus,
    reason: Option<u16>,
    between: ChronicleModel<S>,
    first_result: Result<usize, S::Error>,
    after: ChronicleModel<S>,
    second_result: Result<usize, S::Error>,
)
    requires
        sound(before),
        observed_at(before, first, status, reason, between, first_result),
        observed_at(between, second, status, reason, after, second_result),
    ensures
        second_result == Ok::<usize, S::Error>(0),
        after.sink == between.sink,
        after.next_sequence == between.next_sequence,
{
    let poll = wlan::observed(status.connection);
    lemma_polls_stay_sound(before, first, status, reason, between, first_result);
    link::lemma_repetition_is_silent(known_link(before, status.interface.guid@), poll);
}

/// A heartbeat keeps the recorder sound, and one that was recorded leaves an
/// empty window.
pub proof fn lemma_heartbeats_stay_sound<S: Sink>(
    before: ChronicleModel<S>,
    reading: ClockReading,
    after: ChronicleModel<S>,
    result: Result<MetricsSnapshot, S::Error>,
)
    requires
        sound(before),
        emitted_at(before, reading, after, result),
    ensures
        sound(after),
        result is Ok ==> after.metrics.heartbeat() == metrics::MetricsModel::fresh(
            reading.monotonic_ms,
        ).heartbeat(),
        result is Ok && result->Ok_0.connectivity_uptime_permille is Some ==> (
        result->Ok_0).connectivity_uptime_permille->0 <= 1000,
{
    let t = reading.monotonic_ms;
    let accounted = before.metrics.accounted(t);
    metrics::lemma_metrics_stay_consistent(before.metrics, t, true, true, None, None, true);
    metrics::lemma_metrics_stay_consistent(accounted, t, true, true, None, None, true);
    let noted = ChronicleModel { metrics: accounted, ..before };
    let event = types::EventModel::Metrics { snapshot: accounted.heartbeat() };
    match result {
        Ok(_) => lemma_recording_uses_one_number(
            noted,
            reading,
            None,
            event,
            ChronicleModel { metrics: accounted, ..after },
            Ok(()),
        ),
        Err(error) => lemma_recording_uses_one_number(
            noted,
            reading,
            None,
            event,
            after,
            Err(error),
        ),
    }
    metrics::lemma_new_window_is_empty(accounted, t);
}

/// Heartbeats cover the time without a gap: one that was recorded ends where the
/// next window starts, one that was not leaves its window open with all that it
/// counted. On a clock that does not go back, none counts more time than its
/// window lasted.
pub proof fn lemma_heartbeats_follow_each_other<S: Sink>(
    before: ChronicleModel<S>,
    reading: ClockReading,
    after: ChronicleModel<S>,
    result: Result<MetricsSnapshot, S::Error>,
)
    requires
        emitted_at(before, reading, after, result),
    ensures
        match result {
            Ok(heartbeat) => {
                &&& heartbeat.window_started_ms == before.metrics.window_started_ms
                &&& heartbeat.window_ended_ms == reading.monotonic_ms
                &&& after.metrics.window_started_ms == heartbeat.window_ended_ms
            },
            Err(_) => after.metrics == before.metrics.accounted(reading.monotonic_ms),
        },
        before.metrics.within_window() && before.metrics.last_accounted_ms
            <= reading.monotonic_ms ==> {
            &&& after.metrics.within_window()
            &&& result matches Ok(heartbeat) ==> {
                let length = heartbeat.window_ended_ms - heartbeat.window_started_ms;
                &&& heartbeat.expected_connectivity_ms <= length
                &&& heartbeat.wifi_connected_ms <= length
                &&& heartbeat.expected_wifi_connected_ms <= length
            }
        },
{
    let t = reading.monotonic_ms;
    let accounted = before.metrics.accounted(t);
    let noted = ChronicleModel { metrics: accounted, ..before };
    let event = types::EventModel::Metrics { snapshot: accounted.heartbeat() };
    match result {
        Ok(_) => {},
        Err(error) => lemma_recording_uses_one_number(
            noted,
            reading,
            None,
            event,
            after,
            Err(error),
        ),
    }
    if before.metrics.within_window() && before.metrics.last_accounted_ms <= t {
        metrics::lemma_times_stay_within_the_window(
            before.metrics,
            t,
            true,
            true,
            None,
            None,
            true,
        );
    }
}

/// A sink in memory keeps every entry as it was recorded, in order, and never
/// fails.
pub proof fn lemma_memory_keeps_every_entry(
    before: ChronicleModel<VecSink>,
    reading: ClockReading,
    interface_id: Option<Seq<char>>,
    event: types::EventModel,
    after: ChronicleModel<VecSink>,
    result: Result<(), core::convert::Infallible>,
)
    requires
        recorded(before, reading, interface_id, event, after, result),
    ensures
        result is Ok,
        after.sink.entries() == before.sink.entries().push(
            types::entry_of(before.identity, before.next_sequence, reading, interface_id, event),
        ),
{
}

/// Entries of one stream have different keys while their numbers differ.
pub proof fn lemma_entries_have_their_own_keys(
    identity: types::IdentityModel,
    sequence1: u64,
    reading1: ClockReading,
    interface1: Option<Seq<char>>,
    event1: types::EventModel,
    sequence2: u64,
    reading2: ClockReading,
    interface2: Option<Seq<char>>,
    event2: types::EventModel,
)
    requires
        sequence1 != sequence2,
    ensures
        types::entry_of(identity, sequence1, reading1, interface1, event1).event_id
            != types::entry_of(identity, sequence2, reading2, interface2, event2).event_id,
{
    let device = schema::device_component(identity.device_id);
    if schema::event_key(device, identity.boot_id, sequence1 as nat) == schema::event_key(
        device,
        identity.boot_id,
        sequence2 as nat,
    ) {
        schema::lemma_event_keys_are_unambiguous(
            device,
            identity.boot_id,
            sequence1 as nat,
            device,
            identity.boot_id,
            sequence2 as nat,
        );
    }
}

} // verus!
