use radiochron::events::detect::detect;
use radiochron::events::{meaning, Verdict, WlanEvent};
use radiochron::ordered::StringMap;

fn event(id: u32, at: i64, fields: &[(&str, &str)]) -> WlanEvent {
    let mut data = StringMap::new();
    for (name, value) in fields {
        data.insert((*name).to_string(), (*value).to_string());
    }

    WlanEvent {
        event_id: id,
        record_id: None,
        time_created: "2026-07-20T08:00:00.0000000Z".into(),
        epoch_seconds: at,
        meaning: meaning(id),
        data,
        named_fields: true,
    }
}

fn has(verdict: &Verdict, id: &str) -> bool {
    verdict.findings.iter().any(|f| f.id == id)
}

fn check_a_roam_is_not_a_reconnect_loop() {
    // The exact pattern a healthy link produces: teardown, start, success,
    // all on one session, with a benign hint code. Repeated four times.
    let mut events = Vec::new();
    for i in 0..4 {
        let base = i * 200;
        events.push(event(
            11004,
            base,
            &[("ConnectionId", "0x11"), ("SecurityHintCode", "0")],
        ));
        events.push(event(11010, base + 1, &[("ConnectionId", "0x11")]));
        events.push(event(11005, base + 2, &[("ConnectionId", "0x11")]));
    }

    let verdict = detect(&events);
    assert!(
        !has(&verdict, "reconnect_loop"),
        "roams must not fire the loop rule"
    );
    assert!(!has(&verdict, "credential_mismatch"));
}

#[test]
fn detect_a_roam_is_not_a_reconnect_loop() {
    check_a_roam_is_not_a_reconnect_loop();
}

#[test]
fn tests_a_roam_is_not_a_reconnect_loop() {
    check_a_roam_is_not_a_reconnect_loop();
}

fn check_five_failed_attempts_in_half_a_minute_is_a_loop() {
    let mut events = Vec::new();
    for i in 0..5i64 {
        let cid = format!("0x{:x}", 0xb + i);
        events.push(event(8000, i * 5, &[("ConnectionId", &cid)]));
        events.push(event(11000, i * 5 + 1, &[("ConnectionId", &cid)]));
        events.push(event(
            8002,
            i * 5 + 2,
            &[("ConnectionId", &cid), ("ReasonCode", "229396")],
        ));
    }

    let verdict = detect(&events);
    let finding = verdict
        .findings
        .iter()
        .find(|f| f.id == "reconnect_loop")
        .expect("expected a loop finding");
    assert_eq!(finding.severity, "critical");
    assert_eq!(finding.detail["attempts"], 5);
}

#[test]
fn detect_five_failed_attempts_in_half_a_minute_is_a_loop() {
    check_five_failed_attempts_in_half_a_minute_is_a_loop();
}

#[test]
fn tests_five_failed_attempts_in_half_a_minute_is_a_loop() {
    check_five_failed_attempts_in_half_a_minute_is_a_loop();
}

fn check_user_requested_disconnects_never_count_as_failures() {
    let mut events = Vec::new();
    for i in 0..5i64 {
        let cid = format!("0x{i:x}");
        events.push(event(8000, i * 5, &[("ConnectionId", &cid)]));
        // ReasonCode 3: the user asked for a different network.
        events.push(event(8003, i * 5 + 2, &[("ReasonCode", "3")]));
    }

    assert!(!has(&detect(&events), "reconnect_loop"));
}

#[test]
fn detect_user_requested_disconnects_never_count_as_failures() {
    check_user_requested_disconnects_never_count_as_failures();
}

#[test]
fn tests_user_requested_disconnects_never_count_as_failures() {
    check_user_requested_disconnects_never_count_as_failures();
}

fn check_successful_reassociations_do_not_trip_the_rule() {
    // Distinct sessions, but they succeed — a campus roam, not a fault.
    let mut events = Vec::new();
    for i in 0..5i64 {
        let cid = format!("0x{i:x}");
        events.push(event(8000, i * 5, &[("ConnectionId", &cid)]));
        events.push(event(8001, i * 5 + 2, &[("ConnectionId", &cid)]));
    }

    assert!(!has(&detect(&events), "reconnect_loop"));
}

#[test]
fn detect_successful_reassociations_do_not_trip_the_rule() {
    check_successful_reassociations_do_not_trip_the_rule();
}

#[test]
fn tests_successful_reassociations_do_not_trip_the_rule() {
    check_successful_reassociations_do_not_trip_the_rule();
}

fn check_repeated_key_exchange_failures_name_the_access_point() {
    let events: Vec<WlanEvent> = (0..4)
        .map(|i| {
            event(
                11006,
                i * 30,
                &[("PeerMac", "0a:08:2a:aa:bb:8b"), ("ReasonCode", "0x48005")],
            )
        })
        .collect();

    let verdict = detect(&events);
    let finding = verdict
        .findings
        .iter()
        .find(|f| f.id == "access_point_key_exchange_failing")
        .expect("expected a bad-AP finding");
    assert_eq!(finding.detail["peer_mac"], "0a:08:2a:aa:bb:8b");
}

#[test]
fn detect_repeated_key_exchange_failures_name_the_access_point() {
    check_repeated_key_exchange_failures_name_the_access_point();
}

#[test]
fn tests_repeated_key_exchange_failures_name_the_access_point() {
    check_repeated_key_exchange_failures_name_the_access_point();
}

fn check_failures_spread_across_hours_do_not_blame_an_access_point() {
    let events: Vec<WlanEvent> = (0..4)
        .map(|i| event(11006, i * 3600, &[("PeerMac", "0a:08:2a:aa:bb:8b")]))
        .collect();

    assert!(!has(&detect(&events), "access_point_key_exchange_failing"));
}

#[test]
fn detect_failures_spread_across_hours_do_not_blame_an_access_point() {
    check_failures_spread_across_hours_do_not_blame_an_access_point();
}

#[test]
fn tests_failures_spread_across_hours_do_not_blame_an_access_point() {
    check_failures_spread_across_hours_do_not_blame_an_access_point();
}

fn check_one_psk_hint_is_a_warning_not_a_critical_claim() {
    let events = vec![event(
        11004,
        0,
        &[("SecurityHintCode", "294932"), ("SSID", "MyNet")],
    )];

    let verdict = detect(&events);
    assert_eq!(verdict.findings[0].id, "credential_mismatch");
    assert_eq!(verdict.findings[0].severity, "warning");
}

#[test]
fn detect_one_psk_hint_is_a_warning_not_a_critical_claim() {
    check_one_psk_hint_is_a_warning_not_a_critical_claim();
}

#[test]
fn tests_one_psk_hint_is_a_warning_not_a_critical_claim() {
    check_one_psk_hint_is_a_warning_not_a_critical_claim();
}

fn check_repeated_psk_hints_for_one_ssid_are_critical() {
    let events = vec![
        event(
            11004,
            0,
            &[("SecurityHintCode", "294932"), ("SSID", "MyNet")],
        ),
        event(
            11004,
            30,
            &[("SecurityHintCode", "294932"), ("SSID", "MyNet")],
        ),
    ];

    let verdict = detect(&events);
    assert_eq!(verdict.findings[0].id, "credential_mismatch");
    assert_eq!(verdict.findings[0].severity, "critical");
}

#[test]
fn detect_repeated_psk_hints_for_one_ssid_are_critical() {
    check_repeated_psk_hints_for_one_ssid_are_critical();
}

#[test]
fn tests_repeated_psk_hints_for_one_ssid_are_critical() {
    check_repeated_psk_hints_for_one_ssid_are_critical();
}

fn check_repeated_psk_hints_without_an_ssid_stay_a_warning() {
    let events = vec![
        event(11004, 0, &[("SecurityHintCode", "294932")]),
        event(11004, 30, &[("SecurityHintCode", "294932")]),
    ];

    let verdict = detect(&events);
    assert_eq!(verdict.findings[0].id, "credential_mismatch");
    assert_eq!(verdict.findings[0].severity, "warning");
}

#[test]
fn detect_repeated_psk_hints_without_an_ssid_stay_a_warning() {
    check_repeated_psk_hints_without_an_ssid_stay_a_warning();
}

#[test]
fn tests_repeated_psk_hints_without_an_ssid_stay_a_warning() {
    check_repeated_psk_hints_without_an_ssid_stay_a_warning();
}

fn check_unnamed_fields_are_reported_rather_than_read_as_a_clean_history() {
    let mut e = event(8002, 0, &[]);
    e.named_fields = false;

    assert!(has(&detect(&[e]), "event_fields_unnamed"));
}

#[test]
fn detect_unnamed_fields_are_reported_rather_than_read_as_a_clean_history() {
    check_unnamed_fields_are_reported_rather_than_read_as_a_clean_history();
}

#[test]
fn tests_unnamed_fields_are_reported_rather_than_read_as_a_clean_history() {
    check_unnamed_fields_are_reported_rather_than_read_as_a_clean_history();
}

#[test]
fn findings_come_with_the_most_pressing_first() {
    let mut events = vec![event(8002, 0, &[])];
    events[0].named_fields = false;
    for i in 0..4 {
        events.push(event(
            11006,
            i * 30,
            &[("PeerMac", "bb"), ("ReasonCode", "0x48005")],
        ));
        events.push(event(11006, i * 30, &[("PeerMac", "aa"), ("ReasonCode", "x")]));
    }
    let verdict = detect(&events);
    let ids: Vec<&str> = verdict.findings.iter().map(|f| f.id).collect();
    assert_eq!(
        ids,
        [
            "access_point_key_exchange_failing",
            "access_point_key_exchange_failing",
            "event_fields_unnamed"
        ]
    );
    assert_eq!(
        verdict.findings[0].title,
        "4 key-exchange failures against a single AP (aa)"
    );
    assert!(verdict.findings[0].detail["reason_codes"]
        .as_array()
        .unwrap()
        .is_empty());
    assert_eq!(verdict.findings[1].detail["reason_codes"][3], 0x48005);
    assert_eq!(verdict.findings[2].detail["total"], 9);
    assert_eq!(verdict.events_considered, 9);
    assert_eq!(verdict.window_seconds, 120);
}

#[test]
fn the_order_of_the_events_does_not_matter() {
    let mut events = Vec::new();
    for i in 0..3i64 {
        let cid = format!("0x{i:x}");
        events.push(event(8000, i * 7, &[("ConnectionId", &cid)]));
        events.push(event(8002, i * 7 + 1, &[("ReasonCode", &cid)]));
    }
    let forwards = detect(&events);
    events.reverse();
    let backwards = detect(&events);
    assert_eq!(forwards.findings.len(), 1);
    assert_eq!(forwards.findings[0].severity, "warning");
    assert_eq!(
        forwards.findings[0].title,
        "3 connection attempts and 3 failures in 120s"
    );
    assert_eq!(forwards.findings[0].detail, backwards.findings[0].detail);
    assert_eq!(forwards.findings[0].detail["successes"], 0);
}

#[test]
fn an_empty_history_says_nothing() {
    let verdict = detect(&[]);
    assert!(verdict.findings.is_empty());
    assert_eq!(verdict.events_considered, 0);
}

#[test]
fn times_at_the_ends_of_the_range_are_no_trouble() {
    let events: Vec<WlanEvent> = [i64::MIN, 0, i64::MAX]
        .iter()
        .map(|at| event(11006, *at, &[("PeerMac", "aa")]))
        .collect();
    assert!(detect(&events).findings.is_empty());
    assert!(detect(&[event(8002, i64::MIN, &[])]).findings.is_empty());
}

#[test]
fn failures_cluster_by_time_and_not_by_place() {
    let failures = |times: &[i64]| -> Vec<WlanEvent> {
        times
            .iter()
            .map(|at| event(11006, *at, &[("PeerMac", "aa")]))
            .collect()
    };
    let id = "access_point_key_exchange_failing";
    assert!(!has(&detect(&failures(&[0, 1000, 100])), id));
    assert!(!has(&detect(&failures(&[0, 100, 1000])), id));
    assert!(!has(&detect(&failures(&[0, 100, 301])), id));
    assert!(has(&detect(&failures(&[300, 5000, 0, 100])), id));
}
