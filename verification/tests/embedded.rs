use radiochron::embedded::chronicle::{
    Chronicle, Clock, ClockQuality, ClockReading, ConnectivityStage, Entry, EventKind, Identity,
    MetricsTracker, Sink, VecSink, SCHEMA_VERSION,
};
use radiochron::embedded::{bss_entry, Collector, Snapshot};
use radiochron::wlan::bss::BssEntry;
use radiochron::wlan::{CurrentConnection, WifiStatus, WlanInterface};

struct MockCollector;

impl Collector for MockCollector {
    type Error = core::convert::Infallible;

    fn collect_status(&mut self, output: &mut Vec<WifiStatus>) -> Result<(), Self::Error> {
        output.push(WifiStatus {
            interface: WlanInterface {
                guid: "wifi0".to_string(),
                description: "mock radio".to_string(),
                state: "connected".to_string(),
            },
            connection: Some(CurrentConnection {
                profile_name: None,
                ssid: Some("lab".to_string()),
                bssid: Some("02:00:00:00:00:01".to_string()),
                phy_type: "802.11n".to_string(),
                signal_quality: 80,
                rssi_dbm_estimate: -60,
                rx_rate_kbps: 72_000,
                tx_rate_kbps: 72_000,
            }),
            connection_error: None,
        });
        Ok(())
    }

    fn collect_bss(&mut self, output: &mut Vec<BssEntry>) -> Result<(), Self::Error> {
        output.push(bss_entry(
            "wifi0",
            Some("lab"),
            [0x02, 0, 0, 0, 0, 1],
            -60,
            2_437_000,
            0x0010,
            &[48, 2, 1, 0],
        ));
        Ok(())
    }
}

#[test]
fn firmware_adapter_reuses_snapshot_and_runs_analysis() {
    let mut snapshot = Snapshot {
        statuses: Vec::with_capacity(1),
        bss: Vec::with_capacity(8),
    };
    snapshot.refresh(&mut MockCollector).unwrap();

    assert_eq!(snapshot.statuses.len(), 1);
    assert_eq!(snapshot.bss.len(), 1);
    assert_eq!(snapshot.bss[0].channel, Some(6));
    assert_eq!(snapshot.bss[0].information_elements.element_ids, vec![48]);
    assert_eq!(snapshot.analyze().bss_count, 1);
}

#[test]
fn a_snapshot_is_refilled_and_not_extended() {
    let mut snapshot = Snapshot::new();
    snapshot.refresh(&mut MockCollector).unwrap();
    snapshot.refresh(&mut MockCollector).unwrap();
    assert_eq!(snapshot.statuses.len(), 1);
    assert_eq!(
        snapshot.analyze().associated_bssid.as_deref(),
        Some("02:00:00:00:00:01")
    );
}

#[derive(Debug)]
struct ManualClock {
    now_ms: u64,
}

impl Clock for ManualClock {
    fn now(&mut self) -> ClockReading {
        ClockReading {
            monotonic_ms: self.now_ms,
            unix_epoch_ms: None,
            quality: ClockQuality::Unknown,
        }
    }
}

fn status(connected: bool, bssid: &str, rssi: i32) -> WifiStatus {
    WifiStatus {
        interface: WlanInterface {
            guid: "wifi0".into(),
            description: "test".into(),
            state: if connected {
                "connected".into()
            } else {
                "disconnected".into()
            },
        },
        connection: if connected {
            Some(CurrentConnection {
                profile_name: None,
                ssid: Some("lab".into()),
                bssid: Some(bssid.into()),
                phy_type: "802.11n".into(),
                signal_quality: 80,
                rssi_dbm_estimate: rssi,
                rx_rate_kbps: 72_000,
                tx_rate_kbps: 72_000,
            })
        } else {
            None
        },
        connection_error: None,
    }
}

fn identity() -> Identity {
    Identity {
        device_id: Some("device".into()),
        boot_id: "boot".into(),
    }
}

fn recorder() -> Chronicle<VecSink, ManualClock> {
    Chronicle::new(
        VecSink::default(),
        ManualClock { now_ms: 0 },
        identity(),
        7,
        8,
    )
}

#[test]
fn records_changes_with_versioned_deduplicable_envelope() {
    let mut chronicle = recorder();
    assert!(matches!(chronicle.observe_status(&status(true, "aa", -60)), Ok(1)));
    chronicle.clock_mut().now_ms = 1000;
    assert!(matches!(chronicle.observe_status(&status(true, "aa", -62)), Ok(0)));
    chronicle.clock_mut().now_ms = 2000;
    assert!(matches!(
        chronicle.observe_status_with_reason(&status(false, "", 0), Some(15)),
        Ok(1)
    ));

    let entries = &chronicle.sink().0;
    assert_eq!(entries.len(), 2);
    assert_eq!(entries[0].schema_version, SCHEMA_VERSION);
    assert_eq!(entries[0].sequence, 7);
    assert_eq!(entries[0].event_id, "radiochron:1:6:device:4:boot:7");
    assert!(matches!(
        entries[1].event,
        EventKind::Disconnected {
            reason_code: Some(15),
            ..
        }
    ));
}

#[test]
fn metrics_measure_elapsed_time_and_connection_stages() {
    let mut chronicle = recorder();
    chronicle
        .note_association_attempt("wifi0", Some("lab"))
        .unwrap();
    chronicle.clock_mut().now_ms = 1000;
    chronicle.observe_status(&status(true, "aa", -60)).unwrap();
    chronicle.clock_mut().now_ms = 1500;
    chronicle
        .note_ip_acquired("wifi0", Some("192.0.2.2"))
        .unwrap();
    chronicle.clock_mut().now_ms = 2000;
    chronicle
        .note_backend_result("wifi0", "broker", true, Some(20))
        .unwrap();
    chronicle.clock_mut().now_ms = 5000;

    let metrics = chronicle.emit_metrics().unwrap();
    assert_eq!(metrics.expected_connectivity_ms, 5000);
    assert_eq!(metrics.wifi_connected_ms, 4000);
    assert_eq!(metrics.expected_wifi_connected_ms, 4000);
    assert_eq!(metrics.connectivity_uptime_permille, Some(800));
    assert_eq!(metrics.association_attempts, 1);
    assert_eq!(metrics.backend_successes, 1);
    assert_eq!(metrics.last_time_to_associate_ms, Some(1000));
    assert_eq!(metrics.last_time_to_ip_ms, Some(1500));
    assert_eq!(metrics.last_time_to_backend_ms, Some(2000));
    assert_eq!(metrics.rssi_mean_dbm, Some(-60));
}

#[test]
fn disabling_expectation_removes_sleep_from_the_denominator() {
    let mut tracker = MetricsTracker::new(0);
    tracker.observe_connection(0, true, None, None);
    tracker.set_expected(1000, false);
    tracker.set_expected(9000, true);
    let metrics = tracker.snapshot(10_000);

    assert_eq!(metrics.expected_connectivity_ms, 2000);
    assert_eq!(metrics.wifi_connected_ms, 10_000);
    assert_eq!(metrics.expected_wifi_connected_ms, 2000);
    assert_eq!(metrics.connectivity_uptime_permille, Some(1000));
}

#[test]
fn a_heartbeat_starts_a_new_window() {
    let mut chronicle = recorder();
    chronicle.observe_status(&status(true, "aa", -60)).unwrap();
    chronicle.clock_mut().now_ms = 1000;
    chronicle.emit_metrics().unwrap();
    chronicle.clock_mut().now_ms = 1500;
    let metrics = chronicle.emit_metrics().unwrap();
    assert_eq!(metrics.window_started_ms, 1000);
    assert_eq!(metrics.window_ended_ms, 1500);
    assert_eq!(metrics.wifi_connected_ms, 500);
    assert_eq!(metrics.rssi_sample_count, 0);
    assert_eq!(metrics.rssi_mean_dbm, None);
}

#[test]
fn time_without_the_expectation_is_left_out() {
    let mut chronicle = recorder();
    chronicle.set_connectivity_expected(false);
    chronicle.clock_mut().now_ms = 4000;
    chronicle.set_connectivity_expected(true);
    chronicle.clock_mut().now_ms = 5000;
    let metrics = chronicle.emit_metrics().unwrap();
    assert_eq!(metrics.expected_connectivity_ms, 1000);
    assert_eq!(metrics.connectivity_uptime_permille, Some(0));
}

#[test]
fn a_roam_and_a_failure_are_recorded() {
    let mut chronicle = recorder();
    chronicle.observe_status(&status(true, "aa", -60)).unwrap();
    chronicle.observe_status(&status(true, "bb", -50)).unwrap();
    chronicle
        .note_connectivity_failure(Some("wifi0"), ConnectivityStage::Dns, Some(-2))
        .unwrap();
    assert_eq!(chronicle.next_sequence(), 10);
    let entries = chronicle.into_sink().0;
    assert_ne!(entries[0].event_id, entries[1].event_id);
    assert_ne!(entries[1].event_id, entries[2].event_id);
    assert!(matches!(entries[1].event, EventKind::Roamed { .. }));
    assert!(matches!(
        entries[2].event,
        EventKind::ConnectivityFailure {
            stage: ConnectivityStage::Dns,
            code: Some(-2)
        }
    ));
}

struct FailingSink {
    fails: bool,
    kept: usize,
    flushed: usize,
}

impl Sink for FailingSink {
    type Error = &'static str;

    fn write(&mut self, _entry: &Entry) -> Result<(), Self::Error> {
        if self.fails {
            return Err("no room");
        }
        self.kept += 1;
        Ok(())
    }

    fn flush(&mut self) -> Result<(), Self::Error> {
        self.flushed += 1;
        if self.flushed == 2 {
            return Err("no flush");
        }
        Ok(())
    }
}

#[test]
fn a_failed_write_is_told_to_the_caller() {
    let mut chronicle = Chronicle::new(
        FailingSink {
            fails: true,
            kept: 0,
            flushed: 0,
        },
        ManualClock { now_ms: 0 },
        identity(),
        1,
        8,
    );
    assert!(matches!(
        chronicle.observe_status(&status(true, "aa", -60)),
        Err("no room")
    ));
    assert_eq!(chronicle.sink().kept, 0);
    assert_eq!(chronicle.sink().flushed, 0);
    // The number is used up all the same.
    assert_eq!(chronicle.next_sequence(), 2);
}

#[test]
fn every_entry_is_flushed() {
    let mut chronicle = Chronicle::new(
        FailingSink {
            fails: false,
            kept: 0,
            flushed: 0,
        },
        ManualClock { now_ms: 0 },
        identity(),
        1,
        8,
    );
    assert_eq!(chronicle.observe_status(&status(true, "aa", -60)), Ok(1));
    assert_eq!(chronicle.sink().flushed, 1);
    // A poll that changes nothing is not flushed either.
    assert_eq!(chronicle.observe_status(&status(true, "aa", -60)), Ok(0));
    assert_eq!(chronicle.sink().flushed, 1);
    // A heartbeat that could not be flushed leaves its window open.
    chronicle.clock_mut().now_ms = 1000;
    assert_eq!(chronicle.emit_metrics(), Err("no flush"));
    chronicle.clock_mut().now_ms = 3000;
    let heartbeat = chronicle.emit_metrics().unwrap();
    assert_eq!(heartbeat.window_started_ms, 0);
    assert_eq!(heartbeat.window_ended_ms, 3000);
    assert_eq!(heartbeat.wifi_connected_ms, 3000);
    assert_eq!(chronicle.sink().flushed, 3);
    assert_eq!(chronicle.sink().kept, 3);
}

#[test]
fn entries_carry_the_reading_of_the_clock() {
    let mut chronicle = Chronicle::new(
        VecSink::default(),
        ManualClock { now_ms: 5 },
        identity(),
        1,
        8,
    );
    chronicle.clock_mut().now_ms = 77;
    chronicle
        .record(None, EventKind::IpAcquired { address: None })
        .unwrap();
    assert_eq!(chronicle.sink().0[0].clock.monotonic_ms, 77);
}

#[test]
fn no_more_time_is_counted_than_passed() {
    let mut tracker = MetricsTracker::new(100);
    tracker.observe_connection(150, true, None, None);
    tracker.set_expected(400, false);
    let metrics = tracker.snapshot(600);
    assert_eq!(metrics.window_ended_ms - metrics.window_started_ms, 500);
    assert_eq!(metrics.expected_connectivity_ms, 300);
    assert_eq!(metrics.wifi_connected_ms, 450);
}
