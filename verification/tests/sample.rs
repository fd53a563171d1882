use radiochron::wlan::sample::{
    first_connection, read_sample, run_bounds, summarize, window_closes, Sample,
};
use radiochron::wlan::{CurrentConnection, WifiStatus, WlanInterface};

fn sample(elapsed_ms: u128, bssid: Option<&str>, rssi: Option<i32>) -> Sample {
    Sample {
        elapsed_ms,
        connected: bssid.is_some(),
        bssid: bssid.map(str::to_string),
        signal_quality: rssi.map(|_| 70),
        rssi_dbm_estimate: rssi,
        rx_rate_kbps: rssi.map(|_| 400_000),
        tx_rate_kbps: rssi.map(|_| 300_000),
    }
}

#[test]
fn counts_roams_between_distinct_bssids() {
    let run = summarize(
        4,
        1000,
        Some("Net".into()),
        vec![
            sample(0, Some("aa:aa:aa:aa:aa:aa"), Some(-50)),
            sample(1000, Some("aa:aa:aa:aa:aa:aa"), Some(-55)),
            sample(2000, Some("bb:bb:bb:bb:bb:bb"), Some(-60)),
            sample(3000, Some("aa:aa:aa:aa:aa:aa"), Some(-52)),
        ],
    );

    assert_eq!(run.roam_count, 2);
    assert_eq!(run.bssids_seen.len(), 2);
}

#[test]
fn a_drop_and_return_to_the_same_ap_is_not_a_roam() {
    let run = summarize(
        3,
        1000,
        Some("Net".into()),
        vec![
            sample(0, Some("aa:aa:aa:aa:aa:aa"), Some(-50)),
            sample(1000, None, None),
            sample(2000, Some("aa:aa:aa:aa:aa:aa"), Some(-51)),
        ],
    );

    assert_eq!(run.roam_count, 0);
    assert_eq!(run.disconnected_samples, 1);
}

#[test]
fn reports_the_swing_not_just_the_mean() {
    let run = summarize(
        3,
        1000,
        None,
        vec![
            sample(0, Some("aa:aa:aa:aa:aa:aa"), Some(-45)),
            sample(1000, Some("aa:aa:aa:aa:aa:aa"), Some(-85)),
            sample(2000, Some("aa:aa:aa:aa:aa:aa"), Some(-65)),
        ],
    );

    assert_eq!(run.rssi_min_dbm, Some(-85));
    assert_eq!(run.rssi_max_dbm, Some(-45));
    assert_eq!(run.rssi_mean_dbm, Some(-65));
    // A 40 dB swing is the finding here; the mean alone looks unremarkable.
    assert_eq!(run.rssi_swing_db, Some(40));
}

#[test]
fn an_entirely_disconnected_run_yields_no_signal_statistics() {
    let run = summarize(
        2,
        1000,
        None,
        vec![sample(0, None, None), sample(1000, None, None)],
    );

    assert_eq!(run.disconnected_samples, 2);
    assert_eq!(run.rssi_mean_dbm, None);
    assert_eq!(run.rssi_swing_db, None);
    assert!(run.bssids_seen.is_empty());
}

#[test]
fn the_mean_is_cut_towards_zero() {
    let run = summarize(
        2,
        1000,
        None,
        vec![
            sample(0, Some("aa"), Some(-50)),
            sample(1000, Some("aa"), Some(-51)),
        ],
    );
    assert_eq!(run.rssi_mean_dbm, Some(-50));
    assert_eq!(run.sample_count, 2);
    assert_eq!(run.rx_rate_min_kbps, Some(400_000));
    assert_eq!(run.rx_rate_max_kbps, Some(400_000));
}

#[test]
fn a_run_keeps_to_its_bounds() {
    assert_eq!(run_bounds(0, 0), (1, 250));
    assert_eq!(run_bounds(30, 1000), (30, 1000));
    assert_eq!(run_bounds(500, 250), (120, 250));
}

#[test]
fn a_window_closes_when_the_next_reading_would_miss_it() {
    assert!(!window_closes(1_000, 1_000, 2_000));
    assert!(window_closes(1_001, 1_000, 2_000));
    assert!(window_closes(u128::MAX, u128::MAX, 2_000));
}

fn status(bssid: Option<&str>) -> WifiStatus {
    WifiStatus {
        interface: WlanInterface {
            guid: "g".into(),
            description: "d".into(),
            state: "s".into(),
        },
        connection: bssid.map(|bssid| CurrentConnection {
            profile_name: None,
            ssid: Some("Net".into()),
            bssid: Some(bssid.into()),
            phy_type: "he".into(),
            signal_quality: 80,
            rssi_dbm_estimate: -60,
            rx_rate_kbps: 100,
            tx_rate_kbps: 200,
        }),
        connection_error: None,
    }
}

#[test]
fn a_reading_takes_the_first_association() {
    let statuses = vec![status(None), status(Some("aa")), status(Some("bb"))];
    assert_eq!(
        first_connection(&statuses).unwrap().bssid.as_deref(),
        Some("aa")
    );
    let mut ssid = None;
    let reading = read_sample(7, &Some(statuses), &mut ssid);
    assert!(reading.connected);
    assert_eq!(reading.elapsed_ms, 7);
    assert_eq!(reading.bssid.as_deref(), Some("aa"));
    assert_eq!(reading.rssi_dbm_estimate, Some(-60));
    assert_eq!(ssid.as_deref(), Some("Net"));
}

#[test]
fn a_failed_reading_is_a_disconnected_sample() {
    let mut ssid = Some("kept".to_string());
    let reading = read_sample(7, &None, &mut ssid);
    assert!(!reading.connected);
    assert_eq!(reading.bssid, None);
    assert_eq!(ssid.as_deref(), Some("kept"));
}
