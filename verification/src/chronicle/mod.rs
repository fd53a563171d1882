//! The chronicle: recording what the radio does, as it happens.
//!
//! Reading history and writing it are different problems. [`crate::events`]
//! reads what Windows already recorded; this module records our own — which is
//! the only way history exists on platforms whose OS keeps no log, and the only
//! way it survives in a fleet where the OS log rotates away before anyone looks.
//!
//! - [`Entry`] / [`EntryKind`] — one recorded observation.
//! - [`Sink`] — where entries go.
//! - [`ChangeDetector`] — pure state machine turning a stream of connection
//!   observations into entries.
//! - [`Collector`] / [`Recorder`] — portable collection contract and loop.

pub mod detect;
pub mod jsonl;
pub mod laws;
pub mod lines;
pub mod native;
pub mod recorder;

use crate::connectivity;
use crate::connectivity::ConnectivityReport;
use crate::ordered::StringMap;
use crate::scan;
use crate::scan::{trim, Class};
use crate::schema;
use crate::schema::event_id;
use crate::text;
use crate::text::{append_decimal, append_signed, chars_of, copied, string_of};
use crate::time;
use crate::time::{format_epoch, now_epoch_seconds};
use std::time::{Duration, Instant, SystemTime};
use vstd::prelude::*;

pub use crate::link::Observation;
pub use crate::schema::CHRONICLE_SCHEMA_VERSION;
pub use detect::ChangeDetector;
pub use jsonl::{read_recent_jsonl, JsonlRead, RotationPolicy};
pub use native::NativeCollector;
pub use recorder::{
    Collector, CollectorEvent, CollectorFailure, CollectorSample, Recorder, RecorderOptions,
};

verus! {

// ---------------------------------------------------------------------------
// Clocks and identities
// ---------------------------------------------------------------------------

/// How trustworthy the wall clock was when an event was stamped.
#[derive(Debug, Clone, Copy, PartialEq, Eq, Structural)]
pub enum ClockQuality {
    Unknown,
    Synchronized,
    Unsynchronized,
}

/// Clock provenance carried by every entry.
#[derive(Debug, PartialEq, Eq)]
pub struct ClockMetadata {
    pub quality: ClockQuality,
    pub source: String,
    /// Process-monotonic time. Useful for ordering when wall time jumps.
    pub monotonic_ms: u64,
}

/// Stable identity for one recorder process or device boot.
#[derive(Debug, PartialEq, Eq)]
pub struct ChronicleIdentity {
    pub device_id: Option<String>,
    pub boot_id: String,
    pub clock_quality: ClockQuality,
}

impl Clone for ChronicleIdentity {
    fn clone(&self) -> (r: Self)
        ensures
            r == *self,
    {
        ChronicleIdentity {
            device_id: copied(&self.device_id),
            boot_id: self.boot_id.clone(),
            clock_quality: self.clock_quality,
        }
    }
}

/// What a [`ChronicleIdentity`] says.
#[verifier::ext_equal]
pub struct IdentityModel {
    pub device_id: Option<Seq<char>>,
    pub boot_id: Seq<char>,
    pub clock_quality: ClockQuality,
}

impl View for ChronicleIdentity {
    type V = IdentityModel;

    open spec fn view(&self) -> IdentityModel {
        IdentityModel {
            device_id: text::opt_text(self.device_id),
            boot_id: self.boot_id@,
            clock_quality: self.clock_quality,
        }
    }
}

/// A value without white space around it, unless that leaves nothing.
pub open spec fn meaningful(value: Seq<char>) -> Option<Seq<char>> {
    let bare = scan::trimmed(value, Class::Space);
    if bare.len() == 0 {
        None
    } else {
        Some(bare)
    }
}

/// The identity of a process, from the device name of its environment, the
/// boot id of the system, and its own number and start.
pub open spec fn identity_of(
    device: Option<Seq<char>>,
    boot: Option<Seq<char>>,
    process_id: u32,
    started_epoch: i64,
) -> IdentityModel {
    IdentityModel {
        device_id: match device {
            Some(name) => if meaningful(name) is Some {
                Some(name)
            } else {
                None
            },
            None => None,
        },
        boot_id: match boot {
            Some(id) => match meaningful(id) {
                Some(bare) => bare,
                None => process_boot_id(process_id, started_epoch),
            },
            None => process_boot_id(process_id, started_epoch),
        },
        clock_quality: ClockQuality::Unknown,
    }
}

/// What stands for the boot id where the system has none.
pub open spec fn process_boot_id(process_id: u32, started_epoch: i64) -> Seq<char> {
    "process-"@ + text::decimal(process_id as nat) + "-"@ + text::signed_decimal(
        started_epoch as int,
    )
}

/// The boot id in a file's contents, without white space around it.
pub fn native_boot_id(contents: &Option<String>) -> (r: Option<String>)
    ensures
        text::opt_text(r) == (match *contents {
            Some(value) => meaningful(value@),
            None => None,
        }),
{
    match contents {
        Some(value) => {
            let chars = chars_of(value.as_str());
            let bare = trim(chars.as_slice(), Class::Space);
            if bare.len() == 0 {
                None
            } else {
                Some(string_of(bare))
            }
        },
        None => None,
    }
}

/// The identity of a process. A device name that is blank counts as none.
pub fn process_identity(
    device: Option<String>,
    boot: &Option<String>,
    process_id: u32,
    started_epoch: i64,
) -> (r: ChronicleIdentity)
    ensures
        r@ == identity_of(
            text::opt_text(device),
            text::opt_text(*boot),
            process_id,
            started_epoch,
        ),
{
    let device_id = match device {
        Some(name) => {
            let chars = chars_of(name.as_str());
            if trim(chars.as_slice(), Class::Space).len() == 0 {
                None
            } else {
                Some(name)
            }
        },
        None => None,
    };
    let boot_id = match native_boot_id(boot) {
        Some(id) => id,
        None => {
            let mut id = "process-".to_owned();
            append_decimal(&mut id, process_id as u64);
            id.append("-");
            append_signed(&mut id, started_epoch);
            id
        },
    };
    ChronicleIdentity { device_id, boot_id, clock_quality: ClockQuality::Unknown }
}

/// A point of the monotonic clock.
#[verifier::external_type_specification]
#[verifier::external_body]
pub struct ExInstant(Instant);

/// `Instant::now` reads the monotonic clock; nothing is known of the reading.
#[verifier::external_body]
fn monotonic_clock() -> (r: Instant) {
    Instant::now()
}

/// `Instant::elapsed` is the time since a point of the monotonic clock; nothing
/// is known of how much it is.
#[verifier::external_body]
fn time_since(start: &Instant) -> (r: Duration) {
    start.elapsed()
}

/// When the process started, by its monotonic clock.
#[derive(Debug)]
pub struct ProcessClock {
    started: Instant,
}

impl ProcessClock {
    /// A clock that starts now.
    pub fn start() -> (r: Self) {
        ProcessClock { started: monotonic_clock() }
    }

    /// The same clock again.
    pub fn same(&self) -> (r: Self)
        ensures
            r == *self,
    {
        ProcessClock { started: self.started }
    }

    /// Milliseconds since the process started, as far as 64 bits hold them.
    pub fn monotonic_ms(&self) -> (r: u64)
        ensures
            exists|passed: Duration| r == #[trigger] millis_of(passed),
    {
        let passed = time_since(&self.started);
        let r: u64 = passed.as_millis() as u64;
        proof {
            assert(r == millis_of(passed));
        }
        r
    }
}

/// The whole milliseconds of a duration, as far as 64 bits hold them.
pub open spec fn millis_of(passed: Duration) -> u64 {
    (time::duration_nanos(passed) / 1_000_000) as u128 as u64
}

// ---------------------------------------------------------------------------
// Entries
// ---------------------------------------------------------------------------

/// One recorded observation.
#[derive(Debug)]
pub struct Entry {
    pub schema_version: u16,
    pub device_id: Option<String>,
    pub boot_id: String,
    /// Monotonic within one `(device_id, boot_id)` stream.
    pub sequence: u64,
    /// Deduplication key derived from the stream identity.
    pub event_id: String,
    pub clock: ClockMetadata,
    /// Seconds since the Unix epoch, stamped at write time.
    pub epoch_seconds: i64,
    /// The same instant as RFC 3339 UTC, for humans grepping the file.
    pub time: String,
    /// Interface responsible for the entry. `None` is reserved for process-wide
    /// collector health and callers that construct entries manually.
    pub interface_guid: Option<String>,
    pub kind: EntryKind,
}

/// What happened.
#[derive(Debug)]
pub enum EntryKind {
    /// The interface associated (or the recorder started while associated).
    Associated { ssid: Option<String>, bssid: Option<String>, rssi_dbm: i32 },
    /// The association was lost.
    Disconnected { last_bssid: Option<String> },
    /// The association moved to a different BSSID without an observed gap.
    Roamed { from_bssid: String, to_bssid: String, rssi_dbm: i32 },
    /// Signal moved beyond the hysteresis threshold since last reported.
    SignalShift { bssid: Option<String>, from_dbm: i32, to_dbm: i32 },
    /// A WLAN AutoConfig event observed while recording (Windows only).
    LogEvent {
        event_id: u32,
        record_id: Option<u64>,
        meaning: String,
        fields: StringMap<String>,
    },
    /// A native collector failed. This is deliberately not represented as a
    /// disconnect: inability to observe the interface is not evidence that the
    /// radio disconnected.
    CollectorError { source: String, message: String },
    /// Emitted once when a previously failing collector succeeds again.
    CollectorRecovered { source: String },
    /// Windows rotated or outpaced the bounded event-log query between polls.
    HistoryGap { after_record_id: u64, before_record_id: u64 },
    /// End-to-end state beyond association, collected on explicit targets.
    Connectivity { report: Box<ConnectivityReport> },
}

/// What an [`EntryKind`] says.
#[verifier::ext_equal]
pub enum KindModel {
    Associated { ssid: Option<Seq<char>>, bssid: Option<Seq<char>>, rssi_dbm: i32 },
    Disconnected { last_bssid: Option<Seq<char>> },
    Roamed { from_bssid: Seq<char>, to_bssid: Seq<char>, rssi_dbm: i32 },
    SignalShift { bssid: Option<Seq<char>>, from_dbm: i32, to_dbm: i32 },
    LogEvent {
        event_id: u32,
        record_id: Option<u64>,
        meaning: Seq<char>,
        fields: Map<Seq<char>, Seq<char>>,
    },
    CollectorError { source: Seq<char>, message: Seq<char> },
    CollectorRecovered { source: Seq<char> },
    HistoryGap { after_record_id: u64, before_record_id: u64 },
    Connectivity { report: connectivity::ReportModel },
}

/// The texts that a map gives to its keys.
pub open spec fn field_texts(fields: StringMap<String>) -> Map<Seq<char>, Seq<char>> {
    fields@.map_values(|value: String| value@)
}

impl View for EntryKind {
    type V = KindModel;

    open spec fn view(&self) -> KindModel {
        match *self {
            EntryKind::Associated { ssid, bssid, rssi_dbm } => KindModel::Associated {
                ssid: text::opt_text(ssid),
                bssid: text::opt_text(bssid),
                rssi_dbm,
            },
            EntryKind::Disconnected { last_bssid } => KindModel::Disconnected {
                last_bssid: text::opt_text(last_bssid),
            },
            EntryKind::Roamed { from_bssid, to_bssid, rssi_dbm } => KindModel::Roamed {
                from_bssid: from_bssid@,
                to_bssid: to_bssid@,
                rssi_dbm,
            },
            EntryKind::SignalShift { bssid, from_dbm, to_dbm } => KindModel::SignalShift {
                bssid: text::opt_text(bssid),
                from_dbm,
                to_dbm,
            },
            EntryKind::LogEvent { event_id, record_id, meaning, fields } => KindModel::LogEvent {
                event_id,
                record_id,
                meaning: meaning@,
                fields: field_texts(fields),
            },
            EntryKind::CollectorError { source, message } => KindModel::CollectorError {
                source: source@,
                message: message@,
            },
            EntryKind::CollectorRecovered { source } => KindModel::CollectorRecovered {
                source: source@,
            },
            EntryKind::HistoryGap { after_record_id, before_record_id } => KindModel::HistoryGap {
                after_record_id,
                before_record_id,
            },
            EntryKind::Connectivity { report } => KindModel::Connectivity { report: (*report)@ },
        }
    }
}

impl Clone for EntryKind {
    fn clone(&self) -> (r: Self)
        ensures
            r@ == self@,
    {
        match self {
            EntryKind::Associated { ssid, bssid, rssi_dbm } => EntryKind::Associated {
                ssid: copied(ssid),
                bssid: copied(bssid),
                rssi_dbm: *rssi_dbm,
            },
            EntryKind::Disconnected { last_bssid } => EntryKind::Disconnected {
                last_bssid: copied(last_bssid),
            },
            EntryKind::Roamed { from_bssid, to_bssid, rssi_dbm } => EntryKind::Roamed {
                from_bssid: from_bssid.clone(),
                to_bssid: to_bssid.clone(),
                rssi_dbm: *rssi_dbm,
            },
            EntryKind::SignalShift { bssid, from_dbm, to_dbm } => EntryKind::SignalShift {
                bssid: copied(bssid),
                from_dbm: *from_dbm,
                to_dbm: *to_dbm,
            },
            EntryKind::LogEvent { event_id, record_id, meaning, fields } => EntryKind::LogEvent {
                event_id: *event_id,
                record_id: *record_id,
                meaning: meaning.clone(),
                fields: fields.clone(),
            },
            EntryKind::CollectorError { source, message } => EntryKind::CollectorError {
                source: source.clone(),
                message: message.clone(),
            },
            EntryKind::CollectorRecovered { source } => EntryKind::CollectorRecovered {
                source: source.clone(),
            },
            EntryKind::HistoryGap { after_record_id, before_record_id } => EntryKind::HistoryGap {
                after_record_id: *after_record_id,
                before_record_id: *before_record_id,
            },
            EntryKind::Connectivity { report } => EntryKind::Connectivity {
                report: Box::new((**report).clone()),
            },
        }
    }
}

/// What an [`Entry`] says.
#[verifier::ext_equal]
pub struct EntryModel {
    pub schema_version: u16,
    pub device_id: Option<Seq<char>>,
    pub boot_id: Seq<char>,
    pub sequence: u64,
    pub event_id: Seq<char>,
    pub quality: ClockQuality,
    pub source: Seq<char>,
    pub monotonic_ms: u64,
    pub epoch_seconds: i64,
    pub time: Seq<char>,
    pub interface_guid: Option<Seq<char>>,
    pub kind: KindModel,
}

impl View for Entry {
    type V = EntryModel;

    open spec fn view(&self) -> EntryModel {
        EntryModel {
            schema_version: self.schema_version,
            device_id: text::opt_text(self.device_id),
            boot_id: self.boot_id@,
            sequence: self.sequence,
            event_id: self.event_id@,
            quality: self.clock.quality,
            source: self.clock.source@,
            monotonic_ms: self.clock.monotonic_ms,
            epoch_seconds: self.epoch_seconds,
            time: self.time@,
            interface_guid: text::opt_text(self.interface_guid),
            kind: self.kind@,
        }
    }
}

impl Clone for Entry {
    fn clone(&self) -> (r: Self)
        ensures
            r@ == self@,
    {
        Entry {
            schema_version: self.schema_version,
            device_id: copied(&self.device_id),
            boot_id: self.boot_id.clone(),
            sequence: self.sequence,
            event_id: self.event_id.clone(),
            clock: ClockMetadata {
                quality: self.clock.quality,
                source: self.clock.source.clone(),
                monotonic_ms: self.clock.monotonic_ms,
            },
            epoch_seconds: self.epoch_seconds,
            time: self.time.clone(),
            interface_guid: copied(&self.interface_guid),
            kind: self.kind.clone(),
        }
    }
}

/// When an entry was stamped: by the wall clock, in seconds, and by the
/// process's monotonic clock, in milliseconds.
#[verifier::ext_equal]
pub struct Stamp {
    pub epoch_seconds: i64,
    pub monotonic_ms: u64,
}

impl Stamp {
    /// Whether the stamp is a reading of the wall clock and a time that passed
    /// by the monotonic one.
    pub open spec fn is_read(self) -> bool {
        exists|wall: SystemTime, passed: Duration| #[trigger] stamp_at(wall, passed) == self
    }
}

/// The stamp of a reading of the wall clock and of a time that passed by the
/// monotonic one.
pub open spec fn stamp_at(wall: SystemTime, passed: Duration) -> Stamp {
    Stamp { epoch_seconds: time::seconds_at(wall), monotonic_ms: millis_of(passed) }
}

/// The entry that records what happened: the stream's identity, the place in
/// it, the key made of both, and the time.
pub open spec fn entry_of(
    identity: IdentityModel,
    sequence: u64,
    stamp: Stamp,
    interface_guid: Option<Seq<char>>,
    kind: KindModel,
) -> EntryModel {
    EntryModel {
        schema_version: CHRONICLE_SCHEMA_VERSION,
        device_id: identity.device_id,
        boot_id: identity.boot_id,
        sequence,
        event_id: schema::event_key(
            schema::device_component(identity.device_id),
            identity.boot_id,
            sequence as nat,
        ),
        quality: identity.clock_quality,
        source: "system_utc"@,
        monotonic_ms: stamp.monotonic_ms,
        epoch_seconds: stamp.epoch_seconds,
        time: time::epoch_text(stamp.epoch_seconds as int),
        interface_guid,
        kind,
    }
}

/// The state of a process that stamps entries of its own stream.
#[derive(Debug)]
pub struct Process {
    pub identity: ChronicleIdentity,
    pub clock: ProcessClock,
    pub next_sequence: u64,
}

impl Entry {
    /// Stamp an entry of the process's own stream with the current time.
    pub fn now(process: &mut Process, kind: EntryKind) -> (r: Self)
        ensures
            exists|stamp: Stamp|
                stamp.is_read() && r@ == #[trigger] entry_of(
                    old(process).identity@,
                    old(process).next_sequence,
                    stamp,
                    None,
                    kind@,
                ),
            final(process).identity == old(process).identity,
            final(process).clock == old(process).clock,
            final(process).next_sequence == (if old(process).next_sequence == u64::MAX {
                0
            } else {
                (old(process).next_sequence + 1) as u64
            }),
    {
        Self::now_for_interface(process, None, kind)
    }

    /// Stamp an entry of the process's own stream for an interface.
    pub fn now_for_interface(
        process: &mut Process,
        interface_guid: Option<String>,
        kind: EntryKind,
    ) -> (r: Self)
        ensures
            exists|stamp: Stamp|
                stamp.is_read() && r@ == #[trigger] entry_of(
                    old(process).identity@,
                    old(process).next_sequence,
                    stamp,
                    text::opt_text(interface_guid),
                    kind@,
                ),
            final(process).identity == old(process).identity,
            final(process).clock == old(process).clock,
            final(process).next_sequence == (if old(process).next_sequence == u64::MAX {
                0
            } else {
                (old(process).next_sequence + 1) as u64
            }),
    {
        let sequence: u64 = process.next_sequence;
        process.next_sequence = if sequence == u64::MAX {
            0
        } else {
            sequence + 1
        };
        Self::stamped(&process.clock, &process.identity, sequence, interface_guid, kind)
    }

    /// Stamp using a caller-owned identity and sequence. Recorders use this so
    /// an offline spool can resume sequence numbers after a restart.
    pub fn stamped(
        clock: &ProcessClock,
        identity: &ChronicleIdentity,
        sequence: u64,
        interface_guid: Option<String>,
        kind: EntryKind,
    ) -> (r: Self)
        ensures
            exists|stamp: Stamp|
                stamp.is_read() && r@ == #[trigger] entry_of(
                    identity@,
                    sequence,
                    stamp,
                    text::opt_text(interface_guid),
                    kind@,
                ),
    {
        let epoch_seconds: i64 = now_epoch_seconds();
        let monotonic_ms: u64 = clock.monotonic_ms();
        proof {
            let wall = choose|wall: SystemTime| epoch_seconds == #[trigger] time::seconds_at(wall);
            let passed = choose|passed: Duration| monotonic_ms == #[trigger] millis_of(passed);
            assert(stamp_at(wall, passed) == (Stamp { epoch_seconds, monotonic_ms }));
        }
        Self::stamped_at(epoch_seconds, monotonic_ms, identity, sequence, interface_guid, kind)
    }

    /// Stamp with a time that is known.
    pub fn stamped_at(
        epoch_seconds: i64,
        monotonic_ms: u64,
        identity: &ChronicleIdentity,
        sequence: u64,
        interface_guid: Option<String>,
        kind: EntryKind,
    ) -> (r: Self)
        ensures
            r@ == entry_of(
                identity@,
                sequence,
                (Stamp { epoch_seconds, monotonic_ms }),
                text::opt_text(interface_guid),
                kind@,
            ),
    {
        let device_component = match &identity.device_id {
            Some(id) => id.as_str(),
            None => "anonymous",
        };
        Entry {
            schema_version: CHRONICLE_SCHEMA_VERSION,
            device_id: copied(&identity.device_id),
            boot_id: identity.boot_id.clone(),
            sequence,
            event_id: event_id(device_component, identity.boot_id.as_str(), sequence),
            clock: ClockMetadata {
                quality: identity.clock_quality,
                source: "system_utc".to_owned(),
                monotonic_ms,
            },
            epoch_seconds,
            time: format_epoch(epoch_seconds),
            interface_guid,
            kind,
        }
    }
}

// ---------------------------------------------------------------------------
// Sinks
// ---------------------------------------------------------------------------

/// Why a sink failed.
#[verifier::external_type_specification]
#[verifier::external_body]
pub struct ExIoError(std::io::Error);

/// Where chronicle entries go.
///
/// Implementations must be durable-ish, not transactional: a recorder is a
/// long-running loop and a crash should cost at most the unflushed tail.
///
/// What a sink does with an entry is its own affair: `wrote` and `flushed` are
/// relations by which an implementation may say it; one that says nothing may do
/// anything.
pub trait Sink: Sized {
    /// Whether a write of `entry` may turn `self` into `after` and return
    /// `result`.
    open spec fn wrote(&self, entry: EntryModel, after: Self, result: Result<(), std::io::Error>) -> bool {
        true
    }

    /// Whether a flush may turn `self` into `after` and return `result`.
    open spec fn flushed(&self, after: Self, result: Result<(), std::io::Error>) -> bool {
        true
    }

    fn write(&mut self, entry: &Entry) -> (r: Result<(), std::io::Error>)
        ensures
            old(self).wrote(entry@, *final(self), r),
    ;

    fn flush(&mut self) -> (r: Result<(), std::io::Error>)
        ensures
            old(self).flushed(*final(self), r),
    ;
}

/// A sink that keeps everything in memory. For tests and for callers that want
/// to batch entries somewhere themselves.
#[derive(Debug)]
pub struct VecSink(pub Vec<Entry>);

impl VecSink {
    /// What the entries in the sink say, in order.
    pub open spec fn entries(&self) -> Seq<EntryModel> {
        self.0@.map_values(|e: Entry| e@)
    }
}

impl Default for VecSink {
    fn default() -> (r: Self)
        ensures
            r.entries() == Seq::<EntryModel>::empty(),
    {
        let r = VecSink(Vec::new());
        proof {
            assert(r.entries() =~= Seq::<EntryModel>::empty());
        }
        r
    }
}

impl Sink for VecSink {
    open spec fn wrote(
        &self,
        entry: EntryModel,
        after: Self,
        result: Result<(), std::io::Error>,
    ) -> bool {
        result is Ok && after.entries() == self.entries().push(entry)
    }

    open spec fn flushed(&self, after: Self, result: Result<(), std::io::Error>) -> bool {
        result is Ok && after == *self
    }

    fn write(&mut self, entry: &Entry) -> (r: Result<(), std::io::Error>) {
        self.0.push(entry.clone());
        proof {
            assert(self.entries() =~= old(self).entries().push(entry@));
        }
        Ok(())
    }

    fn flush(&mut self) -> (r: Result<(), std::io::Error>) {
        Ok(())
    }
}

} // verus!
