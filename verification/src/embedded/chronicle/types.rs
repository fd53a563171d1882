//! The chronicle's schema: clocks, identities, events, entries and sinks.

use crate::schema;
use crate::text;
use crate::text::copied;
use core::convert::Infallible;
use vstd::prelude::*;

pub use crate::schema::CHRONICLE_SCHEMA_VERSION as SCHEMA_VERSION;

verus! {

/// How trustworthy the wall clock was at a reading.
#[derive(Debug, Clone, Copy, PartialEq, Eq, Structural)]
pub enum ClockQuality {
    Unknown,
    Synchronized,
    Unsynchronized,
}

/// One firmware clock reading. Monotonic time is mandatory; wall time is not.
#[derive(Debug, Clone, Copy, PartialEq, Eq, Structural)]
pub struct ClockReading {
    pub monotonic_ms: u64,
    pub unix_epoch_ms: Option<i64>,
    pub quality: ClockQuality,
}

/// Clock implemented by an RTOS tick counter, hardware timer or firmware SDK.
///
/// What a clock reads is its own affair: `reads` is a relation by which an
/// implementation may say it.
pub trait Clock: Sized {
    /// Whether the clock may read `reading` and turn into `after`.
    open spec fn reads(&self, reading: ClockReading, after: Self) -> bool {
        true
    }

    fn now(&mut self) -> (r: ClockReading)
        ensures
            old(self).reads(r, *final(self)),
    ;
}

/// Stable identity of one device boot.
#[derive(Debug, Clone, PartialEq, Eq)]
pub struct Identity {
    pub device_id: Option<String>,
    pub boot_id: String,
}

/// Where in the chain from radio to backend a failure lies.
#[derive(Debug, Clone, Copy, PartialEq, Eq, Structural)]
pub enum ConnectivityStage {
    Radio,
    Authentication,
    Ip,
    Dns,
    Tcp,
    Tls,
    Backend,
}

/// Aggregated heartbeat suitable for a fleet metric or an offline spool.
#[derive(Debug, Clone, Copy, PartialEq, Eq)]
pub struct MetricsSnapshot {
    pub window_started_ms: u64,
    pub window_ended_ms: u64,
    pub expected_connectivity_ms: u64,
    /// Total radio-associated time, including periods where connectivity was optional.
    pub wifi_connected_ms: u64,
    /// Radio-associated time while connectivity was expected.
    pub expected_wifi_connected_ms: u64,
    /// Connected/expected ratio in tenths of one percent (0..=1000).
    pub connectivity_uptime_permille: Option<u16>,
    pub association_attempts: u32,
    pub disconnect_count: u32,
    pub roam_count: u32,
    pub backend_successes: u32,
    pub backend_failures: u32,
    pub rssi_sample_count: u32,
    pub rssi_min_dbm: Option<i32>,
    pub rssi_max_dbm: Option<i32>,
    pub rssi_mean_dbm: Option<i32>,
    pub last_disconnect_reason: Option<u16>,
    pub last_time_to_associate_ms: Option<u64>,
    pub last_time_to_ip_ms: Option<u64>,
    pub last_time_to_backend_ms: Option<u64>,
}

/// What happened.
#[derive(Debug)]
pub enum EventKind {
    AssociationAttempt { ssid: Option<String> },
    Associated { ssid: Option<String>, bssid: Option<String>, rssi_dbm: Option<i32> },
    Disconnected { last_bssid: Option<String>, reason_code: Option<u16> },
    Roamed { from_bssid: String, to_bssid: String, rssi_dbm: Option<i32> },
    SignalShift { bssid: Option<String>, from_dbm: i32, to_dbm: i32 },
    IpAcquired { address: Option<String> },
    BackendCheck { endpoint: String, reachable: bool, latency_ms: Option<u32> },
    ConnectivityFailure { stage: ConnectivityStage, code: Option<i32> },
    Metrics { snapshot: MetricsSnapshot },
}

/// What an [`EventKind`] says.
#[verifier::ext_equal]
pub enum EventModel {
    AssociationAttempt { ssid: Option<Seq<char>> },
    Associated { ssid: Option<Seq<char>>, bssid: Option<Seq<char>>, rssi_dbm: Option<i32> },
    Disconnected { last_bssid: Option<Seq<char>>, reason_code: Option<u16> },
    Roamed { from_bssid: Seq<char>, to_bssid: Seq<char>, rssi_dbm: Option<i32> },
    SignalShift { bssid: Option<Seq<char>>, from_dbm: i32, to_dbm: i32 },
    IpAcquired { address: Option<Seq<char>> },
    BackendCheck { endpoint: Seq<char>, reachable: bool, latency_ms: Option<u32> },
    ConnectivityFailure { stage: ConnectivityStage, code: Option<i32> },
    Metrics { snapshot: MetricsSnapshot },
}

impl View for EventKind {
    type V = EventModel;

    open spec fn view(&self) -> EventModel {
        match *self {
            EventKind::AssociationAttempt { ssid } => EventModel::AssociationAttempt {
                ssid: text::opt_text(ssid),
            },
            EventKind::Associated { ssid, bssid, rssi_dbm } => EventModel::Associated {
                ssid: text::opt_text(ssid),
                bssid: text::opt_text(bssid),
                rssi_dbm,
            },
            EventKind::Disconnected { last_bssid, reason_code } => EventModel::Disconnected {
                last_bssid: text::opt_text(last_bssid),
                reason_code,
            },
            EventKind::Roamed { from_bssid, to_bssid, rssi_dbm } => EventModel::Roamed {
                from_bssid: from_bssid@,
                to_bssid: to_bssid@,
                rssi_dbm,
            },
            EventKind::SignalShift { bssid, from_dbm, to_dbm } => EventModel::SignalShift {
                bssid: text::opt_text(bssid),
                from_dbm,
                to_dbm,
            },
            EventKind::IpAcquired { address } => EventModel::IpAcquired {
                address: text::opt_text(address),
            },
            EventKind::BackendCheck { endpoint, reachable, latency_ms } => EventModel::BackendCheck {
                endpoint: endpoint@,
                reachable,
                latency_ms,
            },
            EventKind::ConnectivityFailure { stage, code } => EventModel::ConnectivityFailure {
                stage,
                code,
            },
            EventKind::Metrics { snapshot } => EventModel::Metrics { snapshot },
        }
    }
}

impl Clone for EventKind {
    fn clone(&self) -> (r: Self)
        ensures
            r == *self,
    {
        match self {
            EventKind::AssociationAttempt { ssid } => EventKind::AssociationAttempt {
                ssid: copied(ssid),
            },
            EventKind::Associated { ssid, bssid, rssi_dbm } => EventKind::Associated {
                ssid: copied(ssid),
                bssid: copied(bssid),
                rssi_dbm: *rssi_dbm,
            },
            EventKind::Disconnected { last_bssid, reason_code } => EventKind::Disconnected {
                last_bssid: copied(last_bssid),
                reason_code: *reason_code,
            },
            EventKind::Roamed { from_bssid, to_bssid, rssi_dbm } => EventKind::Roamed {
                from_bssid: from_bssid.clone(),
                to_bssid: to_bssid.clone(),
                rssi_dbm: *rssi_dbm,
            },
            EventKind::SignalShift { bssid, from_dbm, to_dbm } => EventKind::SignalShift {
                bssid: copied(bssid),
                from_dbm: *from_dbm,
                to_dbm: *to_dbm,
            },
            EventKind::IpAcquired { address } => EventKind::IpAcquired { address: copied(address) },
            EventKind::BackendCheck { endpoint, reachable, latency_ms } => EventKind::BackendCheck {
                endpoint: endpoint.clone(),
                reachable: *reachable,
                latency_ms: *latency_ms,
            },
            EventKind::ConnectivityFailure { stage, code } => EventKind::ConnectivityFailure {
                stage: *stage,
                code: *code,
            },
            EventKind::Metrics { snapshot } => EventKind::Metrics { snapshot: *snapshot },
        }
    }
}

/// One recorded event with its envelope.
#[derive(Debug)]
pub struct Entry {
    pub schema_version: u16,
    pub device_id: Option<String>,
    pub boot_id: String,
    pub sequence: u64,
    pub event_id: String,
    pub clock: ClockReading,
    pub interface_id: Option<String>,
    pub event: EventKind,
}

/// What an [`Entry`] says.
#[verifier::ext_equal]
pub struct EntryModel {
    pub schema_version: u16,
    pub device_id: Option<Seq<char>>,
    pub boot_id: Seq<char>,
    pub sequence: u64,
    pub event_id: Seq<char>,
    pub clock: ClockReading,
    pub interface_id: Option<Seq<char>>,
    pub event: EventModel,
}

impl View for Entry {
    type V = EntryModel;

    open spec fn view(&self) -> EntryModel {
        EntryModel {
            schema_version: self.schema_version,
            device_id: text::opt_text(self.device_id),
            boot_id: self.boot_id@,
            sequence: self.sequence,
            event_id: self.event_id@,
            clock: self.clock,
            interface_id: text::opt_text(self.interface_id),
            event: self.event@,
        }
    }
}

impl Clone for Entry {
    fn clone(&self) -> (r: Self)
        ensures
            r == *self,
    {
        Entry {
            schema_version: self.schema_version,
            device_id: copied(&self.device_id),
            boot_id: self.boot_id.clone(),
            sequence: self.sequence,
            event_id: self.event_id.clone(),
            clock: self.clock,
            interface_id: copied(&self.interface_id),
            event: self.event.clone(),
        }
    }
}

/// What an [`Identity`] says.
#[verifier::ext_equal]
pub struct IdentityModel {
    pub device_id: Option<Seq<char>>,
    pub boot_id: Seq<char>,
}

impl View for Identity {
    type V = IdentityModel;

    open spec fn view(&self) -> IdentityModel {
        IdentityModel { device_id: text::opt_text(self.device_id), boot_id: self.boot_id@ }
    }
}

/// The entry that records an event: the stream's identity, the event's place
/// in it and the key made of both.
pub open spec fn entry_of(
    identity: IdentityModel,
    sequence: u64,
    reading: ClockReading,
    interface_id: Option<Seq<char>>,
    event: EventModel,
) -> EntryModel {
    EntryModel {
        schema_version: SCHEMA_VERSION,
        device_id: identity.device_id,
        boot_id: identity.boot_id,
        sequence,
        event_id: schema::event_key(
            schema::device_component(identity.device_id),
            identity.boot_id,
            sequence as nat,
        ),
        clock: reading,
        interface_id,
        event,
    }
}

/// Caller-owned durable destination: flash ring, NVS, MQTT spool or RAM.
///
/// What a sink does with an entry is its own affair: `wrote` and `flushed` are
/// relations by which an implementation may say it; one that says nothing may do
/// anything.
pub trait Sink: Sized {
    type Error;

    /// Whether a write of `entry` may turn `self` into `after` and return
    /// `result`.
    open spec fn wrote(&self, entry: EntryModel, after: Self, result: Result<(), Self::Error>) -> bool {
        true
    }

    /// Whether a flush may turn `self` into `after` and return `result`.
    open spec fn flushed(&self, after: Self, result: Result<(), Self::Error>) -> bool {
        true
    }

    fn write(&mut self, entry: &Entry) -> (r: Result<(), Self::Error>)
        ensures
            old(self).wrote(entry@, *final(self), r),
    ;

    fn flush(&mut self) -> (r: Result<(), Self::Error>)
        ensures
            old(self).flushed(*final(self), r),
    ;
}

/// A sink that keeps everything in memory.
#[derive(Debug)]
pub struct VecSink(pub Vec<Entry>);

impl VecSink {
    /// What the entries in the sink say, in order.
    pub open spec fn entries(&self) -> Seq<EntryModel> {
        self.0@.map_values(|e: Entry| e@)
    }
}

impl Default for VecSink {
    fn default() -> (r: Self)
        ensures
            r.entries() == Seq::<EntryModel>::empty(),
    {
        let r = VecSink(Vec::new());
        proof {
            assert(r.entries() =~= Seq::<EntryModel>::empty());
        }
        r
    }
}

impl Sink for VecSink {
    type Error = Infallible;

    open spec fn wrote(&self, entry: EntryModel, after: Self, result: Result<(), Infallible>) -> bool {
        result is Ok && after.entries() == self.entries().push(entry)
    }

    open spec fn flushed(&self, after: Self, result: Result<(), Infallible>) -> bool {
        result is Ok && after == *self
    }

    fn write(&mut self, entry: &Entry) -> (r: Result<(), Infallible>) {
        self.0.push(entry.clone());
        proof {
            assert(self.entries() =~= old(self).entries().push(entry@));
        }
        Ok(())
    }

    fn flush(&mut self) -> (r: Result<(), Infallible>) {
        Ok(())
    }
}

} // verus!
