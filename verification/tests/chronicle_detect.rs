use radiochron::chronicle::{ChangeDetector, EntryKind, Observation};

fn obs(bssid: Option<&str>, rssi: Option<i32>) -> Observation {
    Observation {
        connected: bssid.is_some(),
        ssid: bssid.map(|_| "Net".to_string()),
        bssid: bssid.map(str::to_string),
        rssi_dbm: rssi,
    }
}

fn kinds(entries: &[EntryKind]) -> Vec<&'static str> {
    entries
        .iter()
        .map(|e| match e {
            EntryKind::Associated { .. } => "associated",
            EntryKind::Disconnected { .. } => "disconnected",
            EntryKind::Roamed { .. } => "roamed",
            EntryKind::SignalShift { .. } => "signal_shift",
            EntryKind::LogEvent { .. } => "log_event",
            EntryKind::CollectorError { .. } => "collector_error",
            EntryKind::CollectorRecovered { .. } => "collector_recovered",
            EntryKind::HistoryGap { .. } => "history_gap",
            EntryKind::Connectivity { .. } => "connectivity",
        })
        .collect()
}

#[test]
fn a_stable_link_produces_one_entry_then_silence() {
    let mut d = ChangeDetector::new(8);
    assert_eq!(
        kinds(&d.observe(obs(Some("aa"), Some(-60)))),
        ["associated"]
    );

    // 43 more identical polls: the chronicle stays quiet.
    for _ in 0..43 {
        assert!(d.observe(obs(Some("aa"), Some(-61))).is_empty());
    }
}

#[test]
fn drift_below_the_threshold_is_noise_beyond_it_is_a_shift() {
    let mut d = ChangeDetector::new(8);
    d.observe(obs(Some("aa"), Some(-60)));

    assert!(
        d.observe(obs(Some("aa"), Some(-66))).is_empty(),
        "6 dB is inside hysteresis"
    );

    let shift = d.observe(obs(Some("aa"), Some(-69)));
    assert_eq!(
        kinds(&shift),
        ["signal_shift"],
        "9 dB from the reported -60 must fire"
    );
    match &shift[0] {
        EntryKind::SignalShift {
            from_dbm, to_dbm, ..
        } => {
            assert_eq!((*from_dbm, *to_dbm), (-60, -69));
        }
        other => panic!("unexpected {other:?}"),
    }

    // The baseline moved to -69: another 6 dB stays quiet again.
    assert!(d.observe(obs(Some("aa"), Some(-64))).is_empty());
}

#[test]
fn a_bssid_change_is_a_roam_and_resets_the_baseline() {
    let mut d = ChangeDetector::new(8);
    d.observe(obs(Some("aa"), Some(-75)));

    let roam = d.observe(obs(Some("bb"), Some(-55)));
    assert_eq!(kinds(&roam), ["roamed"]);

    // -55 is the new baseline, so a poll at -60 (5 dB) is quiet, and the
    // 20 dB jump at the roam itself was not double-reported as a shift.
    assert!(d.observe(obs(Some("bb"), Some(-60))).is_empty());
}

#[test]
fn a_gap_and_return_to_the_same_ap_is_disconnect_then_associate_not_a_roam() {
    let mut d = ChangeDetector::new(8);
    d.observe(obs(Some("aa"), Some(-60)));

    assert_eq!(kinds(&d.observe(obs(None, None))), ["disconnected"]);
    assert_eq!(
        kinds(&d.observe(obs(Some("aa"), Some(-62)))),
        ["associated"]
    );
}

#[test]
fn disconnected_polls_say_nothing_repeatedly() {
    let mut d = ChangeDetector::new(8);
    assert!(d.observe(obs(None, None)).is_empty());
    assert!(d.observe(obs(None, None)).is_empty());
}

#[test]
fn missing_rssi_never_panics_and_recovers_the_baseline() {
    let mut d = ChangeDetector::new(8);
    d.observe(obs(Some("aa"), None));
    // Baseline arrives late: first real reading becomes it silently.
    assert!(d.observe(obs(Some("aa"), Some(-70))).is_empty());
    // And from there hysteresis works normally.
    assert_eq!(
        kinds(&d.observe(obs(Some("aa"), Some(-80)))),
        ["signal_shift"]
    );
}

#[test]
fn extreme_levels_do_not_overflow_the_hysteresis() {
    let mut d = ChangeDetector::new(8);
    d.observe(obs(Some("aa"), Some(i32::MAX)));
    assert_eq!(
        kinds(&d.observe(obs(Some("aa"), Some(i32::MIN)))),
        ["signal_shift"]
    );
}
