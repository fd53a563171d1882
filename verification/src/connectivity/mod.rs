//! End-to-end connectivity diagnosis after radio association.
//!
//! The module performs no periodic work and has no built-in Internet target.
//! Callers explicitly choose every DNS/TCP/Internet endpoint, keeping the core
//! local-first and suitable for isolated IoT networks. It decides which probes
//! to run and what their outcomes mean; running them is the caller's part.

pub mod diagnose;
pub mod ip;
pub mod laws;
pub mod probe;
pub mod reading;

use crate::text;
use crate::text::copied;
use crate::time;
use std::time::Duration;
use vstd::prelude::*;

pub use diagnose::{plan, report, ProbePlan, ProbeResults, Step};

verus! {

/// What to diagnose.
#[derive(Debug)]
pub struct ConnectivityConfig {
    /// Name whose resolver path should be checked, for example `broker.lan`.
    pub dns_name: Option<String>,
    /// Service endpoint proving LAN/application reachability.
    pub tcp_target: Option<String>,
    /// Explicit external endpoint proving Internet reachability.
    pub internet_target: Option<String>,
    /// HTTP endpoint with a known status, commonly a local 204 endpoint. Core
    /// handles `http://`; a transport crate can add HTTPS without coupling TLS
    /// dependencies to core.
    pub captive_portal_url: Option<String>,
    pub captive_portal_expected_status: u16,
    /// TLS service in `host:port` form. The core delegates certificate
    /// validation to a caller-supplied probe so it remains dependency-light.
    pub tls_target: Option<String>,
    /// Endpoint sampled repeatedly for connection-loss and jitter estimates.
    pub quality_target: Option<String>,
    pub quality_attempts: u8,
    pub timeout: Duration,
}

impl Clone for ConnectivityConfig {
    fn clone(&self) -> (r: Self)
        ensures
            r == *self,
    {
        ConnectivityConfig {
            dns_name: copied(&self.dns_name),
            tcp_target: copied(&self.tcp_target),
            internet_target: copied(&self.internet_target),
            captive_portal_url: copied(&self.captive_portal_url),
            captive_portal_expected_status: self.captive_portal_expected_status,
            tls_target: copied(&self.tls_target),
            quality_target: copied(&self.quality_target),
            quality_attempts: self.quality_attempts,
            timeout: self.timeout,
        }
    }
}

impl Default for ConnectivityConfig {
    fn default() -> (r: Self)
        ensures
            r.dns_name is None,
            r.tcp_target is None,
            r.internet_target is None,
            r.captive_portal_url is None,
            r.captive_portal_expected_status == 204,
            r.tls_target is None,
            r.quality_target is None,
            r.quality_attempts == 4,
            time::duration_nanos(r.timeout) == 3 * 1_000_000_000,
    {
        ConnectivityConfig {
            dns_name: None,
            tcp_target: None,
            internet_target: None,
            captive_portal_url: None,
            captive_portal_expected_status: 204,
            tls_target: None,
            quality_target: None,
            quality_attempts: 4,
            timeout: Duration::from_secs(3),
        }
    }
}

/// How a stage came out.
#[derive(Debug, Clone, Copy, PartialEq, Eq, Structural)]
pub enum StageStatus {
    Pass,
    Fail,
    Unknown,
    Skipped,
}

/// One stage of the path from radio to Internet.
#[derive(Debug)]
pub struct DiagnosticStage {
    pub status: StageStatus,
    pub evidence: String,
    pub latency_ms: Option<u64>,
}

/// What a [`DiagnosticStage`] says.
#[verifier::ext_equal]
pub struct StageModel {
    pub status: StageStatus,
    pub evidence: Seq<char>,
    pub latency_ms: Option<u64>,
}

impl View for DiagnosticStage {
    type V = StageModel;

    open spec fn view(&self) -> StageModel {
        StageModel {
            status: self.status,
            evidence: self.evidence@,
            latency_ms: self.latency_ms,
        }
    }
}

impl Clone for DiagnosticStage {
    fn clone(&self) -> (r: Self)
        ensures
            r == *self,
    {
        DiagnosticStage {
            status: self.status,
            evidence: self.evidence.clone(),
            latency_ms: self.latency_ms,
        }
    }
}

/// A stage without a latency.
pub open spec fn untimed(status: StageStatus, evidence: Seq<char>) -> StageModel {
    StageModel { status, evidence, latency_ms: None }
}

/// A stage that took `latency_ms`.
pub open spec fn timed(status: StageStatus, evidence: Seq<char>, latency_ms: u64) -> StageModel {
    StageModel { status, evidence, latency_ms: Some(latency_ms) }
}

/// Where an interface has its address from.
#[derive(Debug, Clone, Copy, PartialEq, Eq, Structural)]
pub enum IpAssignment {
    Dhcp,
    Static,
    LinkLocal,
    Unknown,
}

/// How an interface is configured.
#[derive(Debug)]
pub struct IpConfiguration {
    pub assignment: IpAssignment,
    pub addresses: Vec<String>,
    pub gateway: Option<String>,
    pub evidence: String,
}

/// What an [`IpConfiguration`] says.
#[verifier::ext_equal]
pub struct ConfigurationModel {
    pub assignment: IpAssignment,
    pub addresses: Seq<Seq<char>>,
    pub gateway: Option<Seq<char>>,
    pub evidence: Seq<char>,
}

impl View for IpConfiguration {
    type V = ConfigurationModel;

    open spec fn view(&self) -> ConfigurationModel {
        ConfigurationModel {
            assignment: self.assignment,
            addresses: text::texts(self.addresses@),
            gateway: text::opt_text(self.gateway),
            evidence: self.evidence@,
        }
    }
}

/// Copy a list of strings.
fn copied_texts(list: &Vec<String>) -> (r: Vec<String>)
    ensures
        r@ == list@,
{
    let mut out: Vec<String> = Vec::new();
    let mut i: usize = 0;
    while i < list.len()
        invariant
            i <= list.len(),
            out@ == list@.take(i as int),
        decreases list.len() - i,
    {
        out.push(list[i].clone());
        i = i + 1;
        proof {
            assert(out@ =~= list@.take(i as int));
        }
    }
    proof {
        assert(list@.take(i as int) =~= list@);
    }
    out
}

impl Clone for IpConfiguration {
    fn clone(&self) -> (r: Self)
        ensures
            r@ == self@,
    {
        IpConfiguration {
            assignment: self.assignment,
            addresses: copied_texts(&self.addresses),
            gateway: copied(&self.gateway),
            evidence: self.evidence.clone(),
        }
    }
}

/// How connection attempts to one endpoint went.
#[derive(Debug)]
pub struct PacketQuality {
    pub attempts: u8,
    pub successes: u8,
    /// How long each successful attempt took, in nanoseconds, in order.
    pub latencies_ns: Vec<u64>,
}

impl Clone for PacketQuality {
    fn clone(&self) -> (r: Self)
        ensures
            r.attempts == self.attempts,
            r.successes == self.successes,
            r.latencies_ns@ == self.latencies_ns@,
    {
        PacketQuality {
            attempts: self.attempts,
            successes: self.successes,
            latencies_ns: self.latencies_ns.clone(),
        }
    }
}

/// What was found of each stage.
#[derive(Debug)]
pub struct ConnectivityReport {
    pub observed_at_epoch_seconds: i64,
    pub interface_id: Option<String>,
    pub radio: DiagnosticStage,
    pub authentication: DiagnosticStage,
    /// Kept as `dhcp` for schema compatibility; evidence distinguishes a
    /// proven DHCP lease from explicit static configuration and unknown origin.
    pub dhcp: DiagnosticStage,
    pub ip_configuration: Option<IpConfiguration>,
    pub gateway: DiagnosticStage,
    pub dns: DiagnosticStage,
    pub tcp: DiagnosticStage,
    pub captive_portal: DiagnosticStage,
    pub tls: DiagnosticStage,
    pub packet_quality: DiagnosticStage,
    pub packet_quality_measurement: Option<PacketQuality>,
    pub internet: DiagnosticStage,
}

/// What a [`ConnectivityReport`] says.
#[verifier::ext_equal]
pub struct ReportModel {
    pub observed_at_epoch_seconds: i64,
    pub interface_id: Option<Seq<char>>,
    pub radio: StageModel,
    pub authentication: StageModel,
    pub dhcp: StageModel,
    pub ip_configuration: Option<ConfigurationModel>,
    pub gateway: StageModel,
    pub dns: StageModel,
    pub tcp: StageModel,
    pub captive_portal: StageModel,
    pub tls: StageModel,
    pub packet_quality: StageModel,
    /// Attempts, successes and latencies.
    pub packet_quality_measurement: Option<(u8, u8, Seq<u64>)>,
    pub internet: StageModel,
}

/// What an optional configuration says.
pub open spec fn configuration_model(value: Option<IpConfiguration>) -> Option<ConfigurationModel> {
    match value {
        Some(c) => Some(c@),
        None => None,
    }
}

/// What an optional measurement says.
pub open spec fn quality_model(value: Option<PacketQuality>) -> Option<(u8, u8, Seq<u64>)> {
    match value {
        Some(q) => Some((q.attempts, q.successes, q.latencies_ns@)),
        None => None,
    }
}

impl View for ConnectivityReport {
    type V = ReportModel;

    open spec fn view(&self) -> ReportModel {
        ReportModel {
            observed_at_epoch_seconds: self.observed_at_epoch_seconds,
            interface_id: text::opt_text(self.interface_id),
            radio: self.radio@,
            authentication: self.authentication@,
            dhcp: self.dhcp@,
            ip_configuration: configuration_model(self.ip_configuration),
            gateway: self.gateway@,
            dns: self.dns@,
            tcp: self.tcp@,
            captive_portal: self.captive_portal@,
            tls: self.tls@,
            packet_quality: self.packet_quality@,
            packet_quality_measurement: quality_model(self.packet_quality_measurement),
            internet: self.internet@,
        }
    }
}

impl Clone for ConnectivityReport {
    fn clone(&self) -> (r: Self)
        ensures
            r@ == self@,
    {
        ConnectivityReport {
            observed_at_epoch_seconds: self.observed_at_epoch_seconds,
            interface_id: copied(&self.interface_id),
            radio: self.radio.clone(),
            authentication: self.authentication.clone(),
            dhcp: self.dhcp.clone(),
            ip_configuration: match &self.ip_configuration {
                Some(c) => Some(c.clone()),
                None => None,
            },
            gateway: self.gateway.clone(),
            dns: self.dns.clone(),
            tcp: self.tcp.clone(),
            captive_portal: self.captive_portal.clone(),
            tls: self.tls.clone(),
            packet_quality: self.packet_quality.clone(),
            packet_quality_measurement: match &self.packet_quality_measurement {
                Some(q) => Some(q.clone()),
                None => None,
            },
            internet: self.internet.clone(),
        }
    }
}

} // verus!
