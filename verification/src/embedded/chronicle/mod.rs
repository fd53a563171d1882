//! Change chronicle and connectivity metrics for firmware.
//!
//! Time and durability are application-owned: the clock is injected, and the
//! sink is the caller's.

pub mod detect;
pub mod laws;
pub mod metrics;
pub mod recorder;
pub mod stream;
pub mod types;

pub use metrics::MetricsTracker;
pub use recorder::Chronicle;

pub use types::{
    Clock, ClockQuality, ClockReading, ConnectivityStage, Entry, EventKind, Identity,
    MetricsSnapshot, Sink, VecSink, SCHEMA_VERSION,
};
