//! What the outcome of a probe means.

use super::{ConnectivityReport, DiagnosticStage, PacketQuality, StageStatus};
use crate::connectivity;
use crate::connectivity::ip;
use crate::connectivity::ip::{is_loopback, is_unspecified, LocalAddress};
use crate::scan;
use crate::scan::{find, split_lines, split_once, split_words, strip_prefix};
use crate::text;
use crate::text::{append_decimal, chars_of, read_unsigned, string_of};
use crate::wlan;
use crate::wlan::from_utf8_lossy;
use vstd::prelude::*;

verus! {

// ---------------------------------------------------------------------------
// Stages
// ---------------------------------------------------------------------------

/// A stage without a latency.
pub fn stage(status: StageStatus, evidence: String) -> (r: DiagnosticStage)
    ensures
        r@ == connectivity::untimed(status, evidence@),
{
    DiagnosticStage { status, evidence, latency_ms: None }
}

/// A stage that took `latency_ms`.
pub fn timed_stage(status: StageStatus, evidence: String, latency_ms: u64) -> (r: DiagnosticStage)
    ensures
        r@ == connectivity::timed(status, evidence@, latency_ms),
{
    DiagnosticStage { status, evidence, latency_ms: Some(latency_ms) }
}

/// `a` followed by `b`.
pub fn join2(a: &str, b: &str) -> (r: String)
    ensures
        r@ == a@ + b@,
{
    let mut out = a.to_owned();
    out.append(b);
    out
}

/// `a` followed by `b` and `c`.
pub fn join3(a: &str, b: &str, c: &str) -> (r: String)
    ensures
        r@ == a@ + b@ + c@,
{
    let mut out = join2(a, b);
    out.append(c);
    out
}

/// The report of a machine whose radio collector failed: no stage behind the
/// radio was tried.
pub open spec fn unavailable(epoch: i64, message: Seq<char>) -> connectivity::ReportModel {
    let skipped = connectivity::untimed(StageStatus::Skipped, "radio unavailable"@);
    connectivity::ReportModel {
        observed_at_epoch_seconds: epoch,
        interface_id: None,
        radio: connectivity::untimed(StageStatus::Fail, "radio collector failed: "@ + message),
        authentication: skipped,
        dhcp: skipped,
        ip_configuration: None,
        gateway: skipped,
        dns: skipped,
        tcp: skipped,
        captive_portal: skipped,
        tls: skipped,
        packet_quality: skipped,
        packet_quality_measurement: None,
        internet: skipped,
    }
}

fn no_radio() -> (r: DiagnosticStage)
    ensures
        r@ == connectivity::untimed(StageStatus::Skipped, "radio unavailable"@),
{
    stage(StageStatus::Skipped, "radio unavailable".to_owned())
}

/// The report of a machine whose radio collector failed with `message`.
pub fn unavailable_report(epoch: i64, message: &str) -> (r: ConnectivityReport)
    ensures
        r@ == unavailable(epoch, message@),
{
    ConnectivityReport {
        observed_at_epoch_seconds: epoch,
        interface_id: None,
        radio: stage(StageStatus::Fail, join2("radio collector failed: ", message)),
        authentication: no_radio(),
        dhcp: no_radio(),
        ip_configuration: None,
        gateway: no_radio(),
        dns: no_radio(),
        tcp: no_radio(),
        captive_portal: no_radio(),
        tls: no_radio(),
        packet_quality: no_radio(),
        packet_quality_measurement: None,
        internet: no_radio(),
    }
}

// ---------------------------------------------------------------------------
// Routes
// ---------------------------------------------------------------------------

/// What asking the system for a route to a target came to.
#[derive(Debug)]
pub enum RouteOutcome {
    /// The target has no address.
    Unresolved,
    /// The route starts at a local address.
    Local(LocalAddress),
    /// There is no route.
    Failed(String),
}

/// The stage that a route lookup amounts to.
pub open spec fn route_model(outcome: RouteOutcome) -> connectivity::StageModel {
    match outcome {
        RouteOutcome::Unresolved => connectivity::untimed(
            StageStatus::Unknown,
            "target could not be resolved for route/IP test"@,
        ),
        RouteOutcome::Local(local) => if !ip::unspecified(local.ip) && !ip::loopback(local.ip) {
            connectivity::untimed(
                StageStatus::Pass,
                "usable local address "@ + local.text@ + " (assignment source unavailable)"@,
            )
        } else {
            connectivity::untimed(
                StageStatus::Fail,
                "route selected unusable local address "@ + local.text@,
            )
        },
        RouteOutcome::Failed(error) => connectivity::untimed(
            StageStatus::Fail,
            "no usable IP route: "@ + error@,
        ),
    }
}

/// What a route lookup says about the local address.
pub fn ip_route(outcome: &RouteOutcome) -> (r: DiagnosticStage)
    ensures
        r@ == route_model(*outcome),
{
    match outcome {
        RouteOutcome::Unresolved => stage(
            StageStatus::Unknown,
            "target could not be resolved for route/IP test".to_owned(),
        ),
        RouteOutcome::Local(local) => if !is_unspecified(&local.ip) && !is_loopback(&local.ip) {
            stage(
                StageStatus::Pass,
                join3(
                    "usable local address ",
                    local.text.as_str(),
                    " (assignment source unavailable)",
                ),
            )
        } else {
            stage(
                StageStatus::Fail,
                join2("route selected unusable local address ", local.text.as_str()),
            )
        },
        RouteOutcome::Failed(error) => stage(
            StageStatus::Fail,
            join2("no usable IP route: ", error.as_str()),
        ),
    }
}

// ---------------------------------------------------------------------------
// Names and endpoints
// ---------------------------------------------------------------------------

/// Why a target could not be resolved.
pub fn unresolved(target: &str, error: &str) -> (r: String)
    ensures
        r@ == "could not resolve "@ + target@ + ": "@ + error@,
{
    let mut out = join3("could not resolve ", target, ": ");
    out.append(error);
    out
}

/// The stage that looking up `name` amounts to: `found` says whether the
/// resolver returned an address, or why it failed.
pub open spec fn lookup_model(
    name: Seq<char>,
    found: Result<bool, String>,
    latency_ms: u64,
) -> connectivity::StageModel {
    match found {
        Ok(true) => connectivity::timed(StageStatus::Pass, "resolved "@ + name, latency_ms),
        Ok(false) => connectivity::timed(
            StageStatus::Fail,
            "resolver returned no address for "@ + name,
            latency_ms,
        ),
        Err(error) => connectivity::timed(
            StageStatus::Fail,
            "DNS lookup failed for "@ + name + ": "@ + error@,
            latency_ms,
        ),
    }
}

/// What a name lookup says.
pub fn resolve_name(name: &str, found: &Result<bool, String>, latency_ms: u64) -> (r: DiagnosticStage)
    ensures
        r@ == lookup_model(name@, *found, latency_ms),
{
    match found {
        Ok(true) => timed_stage(StageStatus::Pass, join2("resolved ", name), latency_ms),
        Ok(false) => timed_stage(
            StageStatus::Fail,
            join2("resolver returned no address for ", name),
            latency_ms,
        ),
        Err(error) => {
            let mut evidence = join3("DNS lookup failed for ", name, ": ");
            evidence.append(error.as_str());
            timed_stage(StageStatus::Fail, evidence, latency_ms)
        },
    }
}

/// One attempt to connect to an address of a target.
#[derive(Debug)]
pub struct Attempt {
    pub address: String,
    /// Why it failed, if it did.
    pub error: Option<String>,
}

/// Whether the next address is still to be tried: up to the first success.
pub fn keep_trying(attempts: &Vec<Attempt>) -> (r: bool)
    ensures
        r == (attempts@.len() == 0 || attempts@.last().error is Some),
{
    if attempts.len() == 0 {
        true
    } else {
        attempts[attempts.len() - 1].error.is_some()
    }
}

/// The stage that connecting to `target` amounts to: `attempts` are the
/// addresses tried, or why there were none to try. The last one decides.
pub open spec fn connect_model(
    target: Seq<char>,
    attempts: Result<Vec<Attempt>, String>,
    latency_ms: u64,
) -> connectivity::StageModel {
    match attempts {
        Err(error) => connectivity::timed(StageStatus::Fail, error@, latency_ms),
        Ok(list) => if list@.len() == 0 {
            connectivity::timed(
                StageStatus::Fail,
                "could not connect to "@ + target + ": "@ + "no address"@,
                latency_ms,
            )
        } else {
            match list@.last().error {
                None => connectivity::timed(
                    StageStatus::Pass,
                    "connected to "@ + target + " via "@ + list@.last().address@,
                    latency_ms,
                ),
                Some(error) => connectivity::timed(
                    StageStatus::Fail,
                    "could not connect to "@ + target + ": "@ + error@,
                    latency_ms,
                ),
            }
        },
    }
}

/// What the attempts to connect to a target say.
pub fn connect_target(
    target: &str,
    attempts: &Result<Vec<Attempt>, String>,
    latency_ms: u64,
) -> (r: DiagnosticStage)
    ensures
        r@ == connect_model(target@, *attempts, latency_ms),
{
    match attempts {
        Err(error) => timed_stage(StageStatus::Fail, error.clone(), latency_ms),
        Ok(list) => {
            if list.len() == 0 {
                let mut evidence = join3("could not connect to ", target, ": ");
                evidence.append("no address");
                return timed_stage(StageStatus::Fail, evidence, latency_ms);
            }
            let last = &list[list.len() - 1];
            match &last.error {
                None => {
                    let mut evidence = join3("connected to ", target, " via ");
                    evidence.append(last.address.as_str());
                    timed_stage(StageStatus::Pass, evidence, latency_ms)
                },
                Some(error) => {
                    let mut evidence = join3("could not connect to ", target, ": ");
                    evidence.append(error.as_str());
                    timed_stage(StageStatus::Fail, evidence, latency_ms)
                },
            }
        },
    }
}

// ---------------------------------------------------------------------------
// Captive portals
// ---------------------------------------------------------------------------

/// What to do about a captive portal URL.
#[derive(Debug)]
pub enum PortalStep {
    /// Nothing can be fetched; this is the stage.
    Done(DiagnosticStage),
    /// Send `request` to `target`.
    Fetch { target: String, request: String },
}

/// What a [`PortalStep`] says.
#[verifier::ext_equal]
pub enum PortalModel {
    Done(connectivity::StageModel),
    Fetch { target: Seq<char>, request: Seq<char> },
}

impl View for PortalStep {
    type V = PortalModel;

    open spec fn view(&self) -> PortalModel {
        match *self {
            PortalStep::Done(stage) => PortalModel::Done(stage@),
            PortalStep::Fetch { target, request } => PortalModel::Fetch {
                target: target@,
                request: request@,
            },
        }
    }
}

/// The request for `path` at `authority`.
pub open spec fn portal_request(
    path: Seq<char>,
    authority: Seq<char>,
    version: Seq<char>,
) -> Seq<char> {
    "GET /"@ + path + " HTTP/1.1\r\nHost: "@ + authority
        + "\r\nConnection: close\r\nUser-Agent: radiochron/"@ + version + "\r\n\r\n"@
}

/// The authority and the path of a URL behind its scheme.
pub open spec fn authority_and_path(rest: Seq<char>) -> (Seq<char>, Seq<char>) {
    match scan::cut(rest, '/') {
        Some(parts) => parts,
        None => (rest, seq![]),
    }
}

/// What to do about a captive portal URL: only `http://` can be fetched, and
/// the port is 80 unless the URL has one.
pub open spec fn portal_model(url: Seq<char>, version: Seq<char>) -> PortalModel {
    match scan::after_prefix(url, "http://"@) {
        None => PortalModel::Done(
            connectivity::untimed(
                StageStatus::Unknown,
                "HTTPS captive-portal probes require the agent TLS transport"@,
            ),
        ),
        Some(rest) => {
            let (authority, path) = authority_and_path(rest);
            if authority.len() == 0 {
                PortalModel::Done(
                    connectivity::untimed(StageStatus::Fail, "captive portal URL has no host"@),
                )
            } else {
                PortalModel::Fetch {
                    target: if authority.contains(':') {
                        authority
                    } else {
                        authority + ":80"@
                    },
                    request: portal_request(path, authority, version),
                }
            }
        },
    }
}

/// Decide what to do about a captive portal URL.
pub fn portal_probe(url: &str, version: &str) -> (r: PortalStep)
    ensures
        r@ == portal_model(url@, version@),
{
    let chars = chars_of(url);
    let scheme = chars_of("http://");
    let rest = match strip_prefix(chars.as_slice(), scheme.as_slice()) {
        Some(rest) => rest,
        None => {
            return PortalStep::Done(
                stage(
                    StageStatus::Unknown,
                    "HTTPS captive-portal probes require the agent TLS transport".to_owned(),
                ),
            );
        },
    };
    let empty: Vec<char> = Vec::new();
    let (authority, path) = match split_once(rest, '/') {
        Some(parts) => parts,
        None => (rest, empty.as_slice()),
    };
    proof {
        assert((authority@, path@) == authority_and_path(rest@));
    }
    if authority.len() == 0 {
        return PortalStep::Done(
            stage(StageStatus::Fail, "captive portal URL has no host".to_owned()),
        );
    }
    let host = string_of(authority);
    let colon: usize = find(authority, ':', 0);
    proof {
        scan::lemma_position(authority@, ':', 0);
        if colon < authority@.len() {
            assert(authority@.contains(':'));
        }
    }
    let target = if colon < authority.len() {
        host.clone()
    } else {
        join2(host.as_str(), ":80")
    };
    let mut request = "GET /".to_owned();
    request.append(string_of(path).as_str());
    request.append(" HTTP/1.1\r\nHost: ");
    request.append(host.as_str());
    request.append("\r\nConnection: close\r\nUser-Agent: radiochron/");
    request.append(version);
    request.append("\r\n\r\n");
    PortalStep::Fetch { target, request }
}

/// Why a portal could not be asked.
#[derive(Debug)]
pub enum PortalFailure {
    /// The host could not be resolved; the text says why.
    Unresolved(String),
    /// The host has no address.
    NoAddress,
    /// The connection failed.
    Unreachable(String),
    /// The request could not be sent.
    Request(String),
    /// The response could not be read.
    Response(String),
}

/// What a failure to ask the portal says.
pub open spec fn portal_failure_text(failure: PortalFailure) -> Seq<char> {
    match failure {
        PortalFailure::Unresolved(error) => error@,
        PortalFailure::NoAddress => "portal host has no address"@,
        PortalFailure::Unreachable(error) => "portal endpoint is unreachable: "@ + error@,
        PortalFailure::Request(error) => "portal request failed: "@ + error@,
        PortalFailure::Response(error) => "portal response failed: "@ + error@,
    }
}

/// The stage of a portal that could not be asked.
pub fn portal_failed(failure: &PortalFailure, latency_ms: u64) -> (r: DiagnosticStage)
    ensures
        r@ == connectivity::timed(StageStatus::Fail, portal_failure_text(*failure), latency_ms),
{
    let evidence = match failure {
        PortalFailure::Unresolved(error) => error.clone(),
        PortalFailure::NoAddress => "portal host has no address".to_owned(),
        PortalFailure::Unreachable(error) => join2(
            "portal endpoint is unreachable: ",
            error.as_str(),
        ),
        PortalFailure::Request(error) => join2("portal request failed: ", error.as_str()),
        PortalFailure::Response(error) => join2("portal response failed: ", error.as_str()),
    };
    timed_stage(StageStatus::Fail, evidence, latency_ms)
}

/// The status of an HTTP response: the second word of its first line.
pub open spec fn http_status(response: Seq<char>) -> Option<nat> {
    let lines = scan::lines(response);
    let words = scan::words(if lines.len() == 0 {
        seq![]
    } else {
        lines[0]
    });
    if words.len() < 2 {
        None
    } else {
        text::at_most(text::parse_unsigned(words[1], 10), u16::MAX as nat)
    }
}

/// The status of an HTTP response, from its bytes.
pub fn response_status(response: &[u8]) -> (r: Option<u16>)
    ensures
        match r {
            Some(status) => http_status(wlan::lossy_utf8(response@)) == Some(status as nat),
            None => http_status(wlan::lossy_utf8(response@)) is None,
        },
{
    let body = from_utf8_lossy(response);
    status_of(body.as_str())
}

/// The status of an HTTP response.
pub fn status_of(response: &str) -> (r: Option<u16>)
    ensures
        match r {
            Some(status) => http_status(response@) == Some(status as nat),
            None => http_status(response@) is None,
        },
{
    let chars = chars_of(response);
    let lines = split_lines(chars.as_slice());
    if lines.len() == 0 {
        return None;
    }
    let words = split_words(lines[0]);
    if words.len() < 2 {
        return None;
    }
    match read_unsigned(words[1], 10, 65_535) {
        Some(status) => Some(status as u16),
        None => None,
    }
}

/// What a portal's answer means: the expected status passes; a redirect is a
/// captive portal, and any other status an interception.
pub open spec fn portal_verdict(status: Option<u16>, expected_status: u16) -> (
    StageStatus,
    Seq<char>,
) {
    match status {
        Some(actual) => if actual == expected_status {
            (
                StageStatus::Pass,
                "portal sentinel returned expected HTTP "@ + text::decimal(actual as nat),
            )
        } else if 300 <= actual <= 399 {
            (
                StageStatus::Fail,
                "captive portal suspected: sentinel redirected with HTTP "@ + text::decimal(
                    actual as nat,
                ),
            )
        } else {
            (
                StageStatus::Fail,
                "captive portal or interception suspected: expected HTTP "@ + text::decimal(
                    expected_status as nat,
                ) + ", got "@ + text::decimal(actual as nat),
            )
        },
        None => (StageStatus::Fail, "portal sentinel returned a malformed HTTP response"@),
    }
}

/// Judge a portal's answer.
pub fn portal_outcome(status: Option<u16>, expected_status: u16) -> (r: (StageStatus, String))
    ensures
        (r.0, r.1@) == portal_verdict(status, expected_status),
{
    match status {
        Some(actual) => if actual == expected_status {
            let mut evidence = "portal sentinel returned expected HTTP ".to_owned();
            append_decimal(&mut evidence, actual as u64);
            (StageStatus::Pass, evidence)
        } else if 300 <= actual && actual <= 399 {
            let mut evidence = "captive portal suspected: sentinel redirected with HTTP ".to_owned();
            append_decimal(&mut evidence, actual as u64);
            (StageStatus::Fail, evidence)
        } else {
            let mut evidence =
                "captive portal or interception suspected: expected HTTP ".to_owned();
            append_decimal(&mut evidence, expected_status as u64);
            evidence.append(", got ");
            append_decimal(&mut evidence, actual as u64);
            (StageStatus::Fail, evidence)
        },
        None => (
            StageStatus::Fail,
            "portal sentinel returned a malformed HTTP response".to_owned(),
        ),
    }
}

/// The stage that a portal's response amounts to.
pub fn portal_answer(response: &[u8], expected_status: u16, latency_ms: u64) -> (r: DiagnosticStage)
    ensures
        exists|status: Option<u16>|
            {
                &&& match status {
                    Some(code) => http_status(wlan::lossy_utf8(response@)) == Some(code as nat),
                    None => http_status(wlan::lossy_utf8(response@)) is None,
                }
                &&& r@ == connectivity::timed(
                    (#[trigger] portal_verdict(status, expected_status)).0,
                    portal_verdict(status, expected_status).1,
                    latency_ms,
                )
            },
{
    let code = response_status(response);
    let (status, evidence) = portal_outcome(code, expected_status);
    timed_stage(status, evidence, latency_ms)
}

// ---------------------------------------------------------------------------
// Connection quality
// ---------------------------------------------------------------------------

/// How many attempts a quality probe makes, whatever was asked for.
pub fn quality_attempts(asked: u8) -> (r: u8)
    ensures
        r == (if asked < 1 {
            1
        } else if asked > 20 {
            20
        } else {
            asked
        }),
{
    if asked < 1 {
        1
    } else if asked > 20 {
        20
    } else {
        asked
    }
}

/// Sum up a quality probe: one latency for each attempt that succeeded.
pub fn measured(attempts: u8, latencies_ns: Vec<u64>) -> (r: PacketQuality)
    requires
        latencies_ns@.len() <= attempts,
    ensures
        r.attempts == attempts,
        r.successes == latencies_ns@.len(),
        r.latencies_ns@ == latencies_ns@,
{
    PacketQuality { attempts, successes: latencies_ns.len() as u8, latencies_ns }
}

/// The share of attempts that failed, in tenths of a percent, rounded to the
/// nearest; a tie goes to the even number.
pub open spec fn loss_tenths(attempts: int, successes: int) -> int {
    let scaled = (attempts - successes) * 1000;
    let whole = scaled / attempts;
    let twice_rest = 2 * (scaled % attempts);
    if twice_rest < attempts || twice_rest == attempts && whole % 2 == 0 {
        whole
    } else {
        whole + 1
    }
}

/// What a quality probe says.
pub open spec fn quality_text(attempts: int, successes: int) -> Seq<char> {
    let tenths = loss_tenths(attempts, successes);
    text::decimal(successes as nat) + " of "@ + text::decimal(attempts as nat)
        + " TCP probes succeeded ("@ + text::decimal((tenths / 10) as nat) + "."@ + text::decimal(
        (tenths % 10) as nat,
    ) + "% loss)"@
}

/// The stage that a quality probe amounts to: it passes where no attempt
/// failed.
pub open spec fn quality_model(quality: PacketQuality) -> connectivity::StageModel {
    connectivity::untimed(
        if quality.successes == quality.attempts {
            StageStatus::Pass
        } else {
            StageStatus::Fail
        },
        quality_text(quality.attempts as int, quality.successes as int),
    )
}

/// Whether a measurement is one that a quality probe can make.
pub open spec fn is_measurement(quality: PacketQuality) -> bool {
    1 <= quality.attempts <= 20 && quality.successes <= quality.attempts
}

/// What a quality probe says about the path.
pub fn quality_stage(quality: &PacketQuality) -> (r: DiagnosticStage)
    requires
        is_measurement(*quality),
    ensures
        r@ == quality_model(*quality),
{
    let attempts: u64 = quality.attempts as u64;
    let successes: u64 = quality.successes as u64;
    let scaled: u64 = (attempts - successes) * 1000;
    let whole: u64 = scaled / attempts;
    let rest: u64 = scaled % attempts;
    let tenths: u64 = if 2 * rest < attempts || 2 * rest == attempts && whole % 2 == 0 {
        whole
    } else {
        whole + 1
    };
    let mut evidence = String::new();
    append_decimal(&mut evidence, successes);
    evidence.append(" of ");
    append_decimal(&mut evidence, attempts);
    evidence.append(" TCP probes succeeded (");
    append_decimal(&mut evidence, tenths / 10);
    evidence.append(".");
    append_decimal(&mut evidence, tenths % 10);
    evidence.append("% loss)");
    proof {
        assert(evidence@ =~= quality_text(attempts as int, successes as int));
    }
    stage(
        if quality.successes == quality.attempts {
            StageStatus::Pass
        } else {
            StageStatus::Fail
        },
        evidence,
    )
}

} // verus!
