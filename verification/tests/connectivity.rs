use radiochron::connectivity::probe::{
    connect_target, ip_route, keep_trying, measured, portal_answer, portal_failed, portal_outcome,
    portal_probe, quality_attempts, quality_stage, resolve_name, unavailable_report, unresolved,
    Attempt, PortalFailure, PortalStep, RouteOutcome,
};
use radiochron::connectivity::ip::{IpAddress, LocalAddress};
use radiochron::connectivity::{
    plan, report, ConnectivityConfig, DiagnosticStage, IpAssignment, IpConfiguration, ProbeResults,
    StageStatus, Step,
};
use radiochron::wlan::{CurrentConnection, WifiStatus, WlanInterface};

fn attempt(address: &str, error: Option<&str>) -> Attempt {
    Attempt {
        address: address.into(),
        error: error.map(str::to_string),
    }
}

#[test]
fn tcp_probe_distinguishes_reachable_from_closed() {
    let open = connect_target(
        "127.0.0.1:4000",
        &Ok(vec![attempt("127.0.0.1:4000", None)]),
        1,
    );
    assert_eq!(open.status, StageStatus::Pass);
    assert_eq!(open.evidence, "connected to 127.0.0.1:4000 via 127.0.0.1:4000");
    assert_eq!(open.latency_ms, Some(1));
    let closed = connect_target(
        "127.0.0.1:4000",
        &Ok(vec![attempt("127.0.0.1:4000", Some("Connection refused"))]),
        1,
    );
    assert_eq!(closed.status, StageStatus::Fail);
    assert_eq!(
        closed.evidence,
        "could not connect to 127.0.0.1:4000: Connection refused"
    );
}

#[test]
fn malformed_target_is_a_failure_not_a_panic() {
    let error = unresolved("not-an-endpoint", "invalid socket address");
    let result = connect_target("not-an-endpoint", &Err(error), 10);
    assert_eq!(result.status, StageStatus::Fail);
    assert_eq!(
        result.evidence,
        "could not resolve not-an-endpoint: invalid socket address"
    );
}

#[test]
fn portal_status_distinguishes_expected_sentinel_from_redirect() {
    assert_eq!(portal_outcome(Some(204), 204).0, StageStatus::Pass);
    assert_eq!(portal_outcome(Some(302), 204).0, StageStatus::Fail);
    assert_eq!(portal_outcome(None, 204).0, StageStatus::Fail);
}

#[test]
fn packet_quality_reports_connection_attempt_loss() {
    let quality = measured(3, vec![1_000_000, 2_000_000, 3_000_000]);
    assert_eq!(quality.successes, 3);
    let stage = quality_stage(&quality);
    assert_eq!(stage.status, StageStatus::Pass);
    assert_eq!(stage.evidence, "3 of 3 TCP probes succeeded (0.0% loss)");
    assert_eq!(quality.latencies_ns.len(), 3);
}

#[test]
fn lost_probes_are_counted_in_tenths() {
    let stage = quality_stage(&measured(3, vec![5]));
    assert_eq!(stage.status, StageStatus::Fail);
    assert_eq!(stage.evidence, "1 of 3 TCP probes succeeded (66.7% loss)");
    assert_eq!(
        quality_stage(&measured(20, vec![])).evidence,
        "0 of 20 TCP probes succeeded (100.0% loss)"
    );
    assert_eq!(quality_attempts(0), 1);
    assert_eq!(quality_attempts(7), 7);
    assert_eq!(quality_attempts(200), 20);
}

#[test]
fn addresses_are_tried_until_one_answers() {
    let mut attempts = vec![attempt("a", Some("refused"))];
    assert!(keep_trying(&attempts));
    attempts.push(attempt("b", None));
    assert!(!keep_trying(&attempts));
    let stage = connect_target("x:1", &Ok(attempts), 3);
    assert_eq!(stage.status, StageStatus::Pass);
    assert_eq!(stage.evidence, "connected to x:1 via b");
    assert_eq!(
        connect_target("x:1", &Ok(vec![]), 3).evidence,
        "could not connect to x:1: no address"
    );
}

#[test]
fn names_resolve_or_say_why_not() {
    assert_eq!(resolve_name("a.lan", &Ok(true), 1).evidence, "resolved a.lan");
    assert_eq!(
        resolve_name("a.lan", &Ok(false), 1).evidence,
        "resolver returned no address for a.lan"
    );
    let failed = resolve_name("a.lan", &Err("timed out".into()), 1);
    assert_eq!(failed.status, StageStatus::Fail);
    assert_eq!(failed.evidence, "DNS lookup failed for a.lan: timed out");
}

#[test]
fn a_portal_is_asked_at_its_own_path() {
    match portal_probe("http://portal.lan/check/me", "1.2.3") {
        PortalStep::Fetch { target, request } => {
            assert_eq!(target, "portal.lan:80");
            assert_eq!(
                request,
                "GET /check/me HTTP/1.1\r\nHost: portal.lan\r\nConnection: close\r\nUser-Agent: radiochron/1.2.3\r\n\r\n"
            );
        }
        PortalStep::Done(stage) => panic!("unexpected {stage:?}"),
    }
    match portal_probe("http://portal.lan:8080", "1.2.3") {
        PortalStep::Fetch { target, request } => {
            assert_eq!(target, "portal.lan:8080");
            assert!(request.starts_with("GET / HTTP/1.1\r\nHost: portal.lan:8080\r\n"));
        }
        PortalStep::Done(stage) => panic!("unexpected {stage:?}"),
    }
}

#[test]
fn a_portal_that_cannot_be_asked_is_said_to_be_so() {
    match portal_probe("https://portal.lan/", "1.2.3") {
        PortalStep::Done(stage) => assert_eq!(stage.status, StageStatus::Unknown),
        other => panic!("unexpected {other:?}"),
    }
    match portal_probe("http:///path", "1.2.3") {
        PortalStep::Done(stage) => {
            assert_eq!(stage.status, StageStatus::Fail);
            assert_eq!(stage.evidence, "captive portal URL has no host");
        }
        other => panic!("unexpected {other:?}"),
    }
}

#[test]
fn failed_portal_requests_say_where_they_failed() {
    let said = |failure: PortalFailure| portal_failed(&failure, 4).evidence;
    assert_eq!(said(PortalFailure::Unresolved("why".into())), "why");
    assert_eq!(said(PortalFailure::NoAddress), "portal host has no address");
    assert_eq!(
        said(PortalFailure::Unreachable("why".into())),
        "portal endpoint is unreachable: why"
    );
    assert_eq!(
        said(PortalFailure::Request("why".into())),
        "portal request failed: why"
    );
    assert_eq!(
        said(PortalFailure::Response("why".into())),
        "portal response failed: why"
    );
}

#[test]
fn portal_answers_are_read_from_their_first_line() {
    let answer = |bytes: &[u8]| portal_answer(bytes, 204, 9);
    let good = answer(b"HTTP/1.1 204 No Content\r\nX: 1\r\n\r\n");
    assert_eq!(good.status, StageStatus::Pass);
    assert_eq!(good.evidence, "portal sentinel returned expected HTTP 204");
    assert_eq!(good.latency_ms, Some(9));
    assert_eq!(
        answer(b"HTTP/1.1 302 Found\r\n").evidence,
        "captive portal suspected: sentinel redirected with HTTP 302"
    );
    assert_eq!(
        answer(b"HTTP/1.1 200 OK\r\n").evidence,
        "captive portal or interception suspected: expected HTTP 204, got 200"
    );
    assert_eq!(
        answer(b"\xff\xfe\x00").evidence,
        "portal sentinel returned a malformed HTTP response"
    );
    assert_eq!(
        answer(b"").evidence,
        "portal sentinel returned a malformed HTTP response"
    );
}

fn local(octets: [u8; 4], text: &str) -> LocalAddress {
    LocalAddress {
        ip: IpAddress::V4(octets),
        text: text.into(),
    }
}

#[test]
fn routes_start_at_usable_addresses() {
    let used = ip_route(&RouteOutcome::Local(local([192, 0, 2, 7], "192.0.2.7")));
    assert_eq!(used.status, StageStatus::Pass);
    assert_eq!(
        used.evidence,
        "usable local address 192.0.2.7 (assignment source unavailable)"
    );
    let loopback = ip_route(&RouteOutcome::Local(local([127, 0, 0, 1], "127.0.0.1")));
    assert_eq!(loopback.status, StageStatus::Fail);
    assert_eq!(
        ip_route(&RouteOutcome::Unresolved).status,
        StageStatus::Unknown
    );
    assert_eq!(
        ip_route(&RouteOutcome::Failed("why".into())).evidence,
        "no usable IP route: why"
    );
}

fn status(connected: bool) -> WifiStatus {
    WifiStatus {
        interface: WlanInterface {
            guid: "wlan0".into(),
            description: "radio".into(),
            state: "connected".into(),
        },
        connection: if connected {
            Some(CurrentConnection {
                profile_name: None,
                ssid: Some("lab".into()),
                bssid: None,
                phy_type: "he".into(),
                signal_quality: 80,
                rssi_dbm_estimate: -60,
                rx_rate_kbps: 1,
                tx_rate_kbps: 1,
            })
        } else {
            None
        },
        connection_error: None,
    }
}

fn no_results() -> ProbeResults {
    ProbeResults {
        ip_configuration: None,
        route: None,
        dns: None,
        tcp: None,
        captive_portal: None,
        tls: None,
        quality: None,
        internet: None,
    }
}

fn passed(evidence: &str) -> DiagnosticStage {
    DiagnosticStage {
        status: StageStatus::Pass,
        evidence: evidence.into(),
        latency_ms: Some(2),
    }
}

#[test]
fn nothing_is_probed_without_a_target() {
    let plan = plan(&ConnectivityConfig::default(), &vec![status(true)]);
    assert_eq!(plan.interface_id.as_deref(), Some("wlan0"));
    assert_eq!(plan.authentication.evidence, "associated with lab");
    assert_eq!(plan.associated, Some(0));
    assert_eq!(plan.route_target, None);
    for step in [
        &plan.dns,
        &plan.tcp,
        &plan.captive_portal,
        &plan.tls,
        &plan.quality,
        &plan.internet,
    ] {
        assert!(matches!(step, Step::Skip(_)));
    }
}

#[test]
fn nothing_is_probed_without_an_association() {
    let config = ConnectivityConfig {
        dns_name: Some("broker.lan".into()),
        internet_target: Some("192.0.2.1:443".into()),
        ..ConnectivityConfig::default()
    };
    let plan = plan(&config, &vec![status(false)]);
    assert_eq!(plan.authentication.status, StageStatus::Fail);
    match &plan.dns {
        Step::Skip(stage) => assert_eq!(stage.evidence, "association has not completed"),
        Step::Run(target) => panic!("unexpected {target}"),
    }
    let report = report(100, plan, no_results());
    assert_eq!(report.internet.status, StageStatus::Skipped);
    assert_eq!(report.dhcp.evidence, "association has not completed");
    assert_eq!(report.gateway.status, StageStatus::Skipped);
}

#[test]
fn a_report_carries_what_the_probes_found() {
    let config = ConnectivityConfig {
        dns_name: Some("broker.lan".into()),
        tcp_target: Some("broker.lan:1883".into()),
        quality_target: Some("broker.lan:1883".into()),
        ..ConnectivityConfig::default()
    };
    let plan = plan(&config, &vec![status(false), status(true)]);
    assert_eq!(plan.associated, Some(1));
    assert_eq!(plan.route_target.as_deref(), Some("broker.lan:1883"));
    let results = ProbeResults {
        ip_configuration: Some(IpConfiguration {
            assignment: IpAssignment::Dhcp,
            addresses: vec!["192.0.2.7".into()],
            gateway: Some("192.0.2.1".into()),
            evidence: "active LEASE".into(),
        }),
        dns: Some(passed("resolved broker.lan")),
        tcp: Some(passed("connected")),
        quality: Some(measured(4, vec![1, 2, 3, 4])),
        ..no_results()
    };
    let report = report(100, plan, results);
    assert_eq!(report.observed_at_epoch_seconds, 100);
    assert_eq!(report.radio.evidence, "2 Wi-Fi interface(s) reported");
    assert_eq!(report.dhcp.evidence, "ip assignment is dhcp: active lease");
    assert_eq!(report.gateway.evidence, "default gateway is 192.0.2.1");
    assert_eq!(report.dns.evidence, "resolved broker.lan");
    assert_eq!(report.tcp.latency_ms, Some(2));
    assert_eq!(report.packet_quality.status, StageStatus::Pass);
    assert_eq!(report.packet_quality_measurement.unwrap().successes, 4);
    assert_eq!(report.tls.evidence, "no TLS target supplied");
}

#[test]
fn a_radio_that_cannot_be_read_skips_everything() {
    let report = unavailable_report(7, "no driver");
    assert_eq!(report.radio.status, StageStatus::Fail);
    assert_eq!(report.radio.evidence, "radio collector failed: no driver");
    assert_eq!(report.tcp.status, StageStatus::Skipped);
    assert_eq!(report.interface_id, None);
    let plan = plan(&ConnectivityConfig::default(), &vec![]);
    assert_eq!(plan.radio.evidence, "no Wi-Fi interface reported");
    assert_eq!(plan.authentication.status, StageStatus::Skipped);
}
