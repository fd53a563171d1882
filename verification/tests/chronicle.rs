use radiochron::chronicle::recorder::Watch;
use radiochron::chronicle::{
    native_boot_id, process_identity, ChronicleIdentity, ClockQuality, Collector, CollectorEvent,
    CollectorSample, Entry, EntryKind, NativeCollector, Observation, Process, ProcessClock,
    Recorder, RecorderOptions, Sink, VecSink, CHRONICLE_SCHEMA_VERSION,
};
use radiochron::chronicle::native::{lookback, samples_of, LOG_EVENTS_PER_POLL};
use radiochron::events::{meaning, WlanEvent};
use radiochron::ordered::StringMap;
use radiochron::schema::event_id;
use radiochron::wlan::{CurrentConnection, WifiStatus, WlanInterface};
use std::time::Duration;

#[test]
fn mod_event_ids_are_unambiguous_when_identity_contains_colons() {
    assert_ne!(event_id("a:b", "c", 1), event_id("a", "b:c", 1));
}

#[test]
fn tests_event_ids_are_unambiguous_when_identity_contains_colons() {
    assert_ne!(event_id("a:b", "c", 1), event_id("a", "b:c", 1));
}

struct FakeCollector {
    polls: Vec<Vec<CollectorSample>>,
}

impl Collector for FakeCollector {
    fn name(&self) -> &'static str {
        "fake"
    }

    fn collect(&mut self) -> Result<Vec<CollectorSample>, String> {
        Ok(self.polls.remove(0))
    }
}

fn associated(bssid: &str, rssi: i32) -> Observation {
    Observation {
        connected: true,
        ssid: Some("lab".into()),
        bssid: Some(bssid.into()),
        rssi_dbm: Some(rssi),
    }
}

fn options(initial_sequence: u64) -> RecorderOptions {
    RecorderOptions {
        initial_sequence,
        ..RecorderOptions::for_process(
            ChronicleIdentity {
                device_id: Some("device".into()),
                boot_id: "boot".into(),
                clock_quality: ClockQuality::Synchronized,
            },
            ProcessClock::start(),
        )
    }
}

fn check_injected_collector() {
    let collector = FakeCollector {
        polls: vec![vec![CollectorSample::observed(
            "wlan0",
            associated("aa:bb:cc:dd:ee:ff", -55),
        )]],
    };
    let mut recorder = Recorder::with_collector(VecSink::default(), collector, options(7));

    assert_eq!(recorder.step().unwrap(), 1);
    assert_eq!(recorder.next_sequence(), 8);
    let entry = &recorder.into_sink().0[0];
    assert_eq!(entry.event_id, "radiochron:1:6:device:4:boot:7");
    assert_eq!(entry.schema_version, CHRONICLE_SCHEMA_VERSION);
}

#[test]
fn recorder_injected_collector_records_versioned_ordered_entries() {
    check_injected_collector();
}

#[test]
fn tests_injected_collector_records_versioned_ordered_entries() {
    check_injected_collector();
}

#[test]
fn a_repeated_poll_records_nothing() {
    let poll = || {
        vec![CollectorSample::observed(
            "wlan0",
            associated("aa:bb:cc:dd:ee:ff", -55),
        )]
    };
    let collector = FakeCollector {
        polls: vec![poll(), poll()],
    };
    let mut recorder = Recorder::with_collector(VecSink::default(), collector, options(1));
    assert_eq!(recorder.step().unwrap(), 1);
    assert_eq!(recorder.step().unwrap(), 0);
    assert_eq!(recorder.next_sequence(), 2);
    assert_eq!(recorder.interval(), Duration::from_secs(5));
}

/// A collector that tells of every question as an event.
struct EchoCollector {
    asked: u64,
}

impl Collector for EchoCollector {
    fn name(&self) -> &'static str {
        "echo"
    }

    fn collect(&mut self) -> Result<Vec<CollectorSample>, String> {
        self.asked += 1;
        Err("no radio".into())
    }

    fn collect_events(&mut self, interval: Duration) -> Result<Vec<CollectorEvent>, String> {
        Ok(vec![CollectorEvent {
            interface_id: Some("wlan0".into()),
            kind: EntryKind::HistoryGap {
                after_record_id: self.asked,
                before_record_id: interval.as_secs(),
            },
        }])
    }
}

#[test]
fn a_step_asks_the_collector_and_records_its_answers() {
    let mut recorder =
        Recorder::with_collector(VecSink::default(), EchoCollector { asked: 0 }, options(1));
    assert_eq!(recorder.step().unwrap(), 2);
    // The same failure is not reported again.
    assert_eq!(recorder.step().unwrap(), 1);
    let entries = recorder.into_sink().0;
    assert!(matches!(
        &entries[0].kind,
        EntryKind::CollectorError { source, message } if source == "echo" && message == "no radio"
    ));
    for (entry, asked) in [(&entries[1], 1), (&entries[2], 2)] {
        assert_eq!(entry.interface_guid.as_deref(), Some("wlan0"));
        assert!(matches!(
            entry.kind,
            EntryKind::HistoryGap { after_record_id, before_record_id: 5 }
                if after_record_id == asked
        ));
    }
    assert_eq!(entries[2].sequence, 3);
}

#[test]
fn a_recovery_comes_before_what_changed() {
    let mut watch = Watch::new(8);
    let samples = vec![
        CollectorSample::failed("wlan0", "driver", "busy"),
        CollectorSample::observed("wlan1", associated("bb", -50)),
        CollectorSample::failed("wlan0", "driver", "busy"),
        CollectorSample::observed("wlan0", associated("aa", -55)),
    ];
    let events = watch.absorb("fake", Ok(samples), Ok(Vec::new()));
    assert_eq!(events.len(), 4);
    assert!(matches!(events[0].kind, EntryKind::CollectorError { .. }));
    assert_eq!(events[1].interface_id.as_deref(), Some("wlan1"));
    assert!(matches!(
        &events[2].kind,
        EntryKind::CollectorRecovered { source } if source == "driver"
    ));
    assert!(matches!(events[3].kind, EntryKind::Associated { .. }));
}

#[test]
fn an_outage_is_two_events_and_no_link_change() {
    let mut watch = Watch::new(0);
    let good = || {
        Ok(vec![
            CollectorSample::observed("wlan0", associated("aa", -55)),
            CollectorSample::observed("wlan1", Observation::default()),
        ])
    };
    watch.absorb("fake", good(), Ok(Vec::new()));
    let first = watch.absorb("fake", Err("no radio".into()), Ok(Vec::new()));
    assert_eq!(first.len(), 1);
    assert_eq!(first[0].interface_id, None);
    assert!(matches!(
        &first[0].kind,
        EntryKind::CollectorError { source, message } if source == "fake" && message == "no radio"
    ));
    for _ in 0..3 {
        assert!(watch
            .absorb("fake", Err("no radio".into()), Ok(Vec::new()))
            .is_empty());
    }
    let last = watch.absorb("fake", good(), Ok(Vec::new()));
    assert_eq!(last.len(), 1);
    assert!(matches!(
        &last[0].kind,
        EntryKind::CollectorRecovered { source } if source == "fake"
    ));
}

#[test]
fn every_interface_is_recorded_once_and_then_silent() {
    let mut watch = Watch::new(8);
    let poll = || {
        Ok(vec![
            CollectorSample::observed("wlan0", associated("aa", -55)),
            CollectorSample::observed("wlan1", associated("bb", -60)),
        ])
    };
    let first = watch.absorb("fake", poll(), Ok(vec![]));
    let ids: Vec<Option<&str>> = first.iter().map(|e| e.interface_id.as_deref()).collect();
    assert_eq!(ids, [Some("wlan0"), Some("wlan1")]);
    for _ in 0..10 {
        assert!(watch.absorb("fake", poll(), Ok(vec![])).is_empty());
    }
}

#[test]
fn a_failing_interface_is_reported_once_and_is_no_disconnect() {
    let mut watch = Watch::new(8);
    let first = watch.absorb(
        "fake",
        Ok(vec![CollectorSample::observed("wlan0", associated("aa", -55))]),
        Ok(vec![]),
    );
    assert_eq!(first.len(), 1);
    assert!(matches!(first[0].kind, EntryKind::Associated { .. }));

    let failed = || Ok(vec![CollectorSample::failed("wlan0", "current_connection", "denied")]);
    let second = watch.absorb("fake", failed(), Ok(vec![]));
    assert_eq!(second.len(), 1);
    match &second[0].kind {
        EntryKind::CollectorError { source, message } => {
            assert_eq!(source, "current_connection");
            assert_eq!(message, "denied");
        }
        other => panic!("unexpected {other:?}"),
    }
    assert_eq!(second[0].interface_id.as_deref(), Some("wlan0"));
    assert!(watch.absorb("fake", failed(), Ok(vec![])).is_empty());

    let back = watch.absorb(
        "fake",
        Ok(vec![CollectorSample::observed("wlan0", associated("aa", -55))]),
        Ok(vec![]),
    );
    assert_eq!(back.len(), 1);
    assert!(matches!(back[0].kind, EntryKind::CollectorRecovered { .. }));
}

#[test]
fn a_failing_collector_is_reported_once_and_recovers() {
    let mut watch = Watch::new(8);
    let first = watch.absorb("fake", Err("no radio".into()), Ok(vec![]));
    assert_eq!(first.len(), 1);
    match &first[0].kind {
        EntryKind::CollectorError { source, message } => {
            assert_eq!(source, "fake");
            assert_eq!(message, "no radio");
        }
        other => panic!("unexpected {other:?}"),
    }
    assert!(watch
        .absorb("fake", Err("no radio".into()), Ok(vec![]))
        .is_empty());
    let back = watch.absorb("fake", Ok(vec![]), Ok(vec![]));
    assert_eq!(back.len(), 1);
    assert!(matches!(back[0].kind, EntryKind::CollectorRecovered { .. }));
}

struct ShortSink {
    room: usize,
    taken: Vec<u64>,
}

impl Sink for ShortSink {
    fn write(&mut self, entry: &Entry) -> std::io::Result<()> {
        if self.taken.len() == self.room {
            return Err(std::io::Error::new(std::io::ErrorKind::Other, "full"));
        }
        self.taken.push(entry.sequence);
        Ok(())
    }

    fn flush(&mut self) -> std::io::Result<()> {
        Ok(())
    }
}

#[test]
fn a_full_sink_stops_a_step() {
    let collector = FakeCollector {
        polls: vec![vec![
            CollectorSample::observed("wlan0", associated("aa", -55)),
            CollectorSample::observed("wlan1", associated("bb", -55)),
        ]],
    };
    let sink = ShortSink {
        room: 1,
        taken: vec![],
    };
    let mut recorder = Recorder::with_collector(sink, collector, options(1));
    assert_eq!(recorder.step().unwrap_err().to_string(), "full");
    assert_eq!(recorder.into_sink().taken, vec![1]);
}

#[test]
fn entries_of_a_process_are_numbered_and_stamped() {
    let mut process = Process {
        identity: process_identity(Some("dev".into()), &Some("abc\n".into()), 17, 1_000),
        clock: ProcessClock::start(),
        next_sequence: 5,
    };
    let first = Entry::now(
        &mut process,
        EntryKind::CollectorRecovered {
            source: "fake".into(),
        },
    );
    let second = Entry::now_for_interface(
        &mut process,
        Some("wlan0".into()),
        EntryKind::Disconnected { last_bssid: None },
    );
    assert_eq!((first.sequence, second.sequence), (5, 6));
    assert_eq!(first.event_id, "radiochron:1:3:dev:3:abc:5");
    assert_eq!(second.interface_guid.as_deref(), Some("wlan0"));
    assert_eq!(first.clock.source, "system_utc");
    assert!(first.epoch_seconds > 1_600_000_000);
    assert!(second.clock.monotonic_ms >= first.clock.monotonic_ms);

    let at = Entry::stamped_at(
        1_784_528_615,
        12,
        &process.identity,
        9,
        None,
        EntryKind::Disconnected { last_bssid: None },
    );
    assert_eq!(at.time, "2026-07-20T06:23:35Z");
    assert_eq!(at.clock.monotonic_ms, 12);
}

#[test]
fn identities_fall_back_to_the_process() {
    assert_eq!(native_boot_id(&Some(" id \n".into())).as_deref(), Some("id"));
    assert_eq!(native_boot_id(&Some(" \n".into())), None);
    assert_eq!(native_boot_id(&None), None);
    let identity = process_identity(Some("  ".into()), &None, 17, 1_000);
    assert_eq!(identity.device_id, None);
    assert_eq!(identity.boot_id, "process-17-1000");
}

#[test]
fn the_event_id_of_a_nameless_device_is_its_own() {
    assert_ne!(event_id("", "boot", 1), event_id("boot", "", 1));
    assert_eq!(event_id("device", "boot", 7), "radiochron:1:6:device:4:boot:7");
}

fn status(error: Option<&str>, connected: bool) -> WifiStatus {
    WifiStatus {
        interface: WlanInterface {
            guid: "wlan0".into(),
            description: "radio".into(),
            state: "connected".into(),
        },
        connection: if connected {
            Some(CurrentConnection {
                profile_name: None,
                ssid: Some("lab".into()),
                bssid: Some("aa".into()),
                phy_type: "he".into(),
                signal_quality: 80,
                rssi_dbm_estimate: -60,
                rx_rate_kbps: 1,
                tx_rate_kbps: 1,
            })
        } else {
            None
        },
        connection_error: error.map(str::to_string),
    }
}

#[test]
fn polled_interfaces_become_samples() {
    let samples = samples_of(&vec![
        status(None, true),
        status(None, false),
        status(Some("denied"), true),
    ]);
    let first = samples[0].observation.as_ref().unwrap();
    assert!(first.connected);
    assert_eq!(first.rssi_dbm, Some(-60));
    let second = samples[1].observation.as_ref().unwrap();
    assert!(!second.connected);
    assert!(samples[2].observation.is_none());
    let failure = samples[2].failure.as_ref().unwrap();
    assert_eq!(failure.source, "current_connection");
    assert_eq!(failure.message, "denied");
}

#[test]
fn the_lookback_covers_two_intervals_within_bounds() {
    assert_eq!(lookback(Duration::from_secs(5)), 120);
    assert_eq!(lookback(Duration::from_secs(600)), 1_200);
    assert_eq!(lookback(Duration::from_secs(100_000)), 3_600);
    assert_eq!(lookback(Duration::from_secs(u64::MAX)), 3_600);
}

fn log_event(id: u32, record_id: Option<u64>, epoch_seconds: i64) -> WlanEvent {
    let mut data = StringMap::new();
    data.insert("InterfaceGuid".to_string(), "{abc}".to_string());
    WlanEvent {
        event_id: id,
        record_id,
        time_created: "2026-07-20T08:00:00Z".into(),
        epoch_seconds,
        meaning: meaning(id),
        data,
        named_fields: true,
    }
}

fn record_of(event: &CollectorEvent) -> Option<u64> {
    match &event.kind {
        EntryKind::LogEvent { record_id, .. } => *record_id,
        other => panic!("unexpected {other:?}"),
    }
}

#[test]
fn the_tail_of_the_log_is_read_once_and_in_order() {
    let mut collector = NativeCollector::from_time(100);
    // The log has the newest event first.
    let log = vec![
        log_event(8001, Some(11), 103),
        log_event(8000, Some(10), 103),
        log_event(8003, Some(9), 99),
    ];
    let first = collector.absorb_log(&log);
    assert_eq!(first.iter().map(record_of).collect::<Vec<_>>(), [Some(10), Some(11)]);
    assert_eq!(first[0].interface_id.as_deref(), Some("{abc}"));
    assert_eq!(collector.last_log_record_id, Some(11));
    assert_eq!(collector.last_log_epoch, 103);
    assert!(collector.absorb_log(&log).is_empty());

    // A record of the same second is still new.
    let next = collector.absorb_log(&vec![log_event(8002, Some(12), 103)]);
    assert_eq!(next.iter().map(record_of).collect::<Vec<_>>(), [Some(12)]);
}

#[test]
fn a_log_that_cannot_be_read_is_read_again_from_the_same_place() {
    let mut collector = NativeCollector {
        last_log_epoch: 100,
        last_log_record_id: Some(11),
    };
    assert_eq!(
        collector.collect_events(Err("denied".into())).unwrap_err(),
        "denied"
    );
    assert_eq!(collector.last_log_record_id, Some(11));
    let out = collector
        .collect_events(Ok(vec![log_event(8001, Some(12), 105)]))
        .unwrap();
    assert_eq!(out.iter().map(record_of).collect::<Vec<_>>(), [Some(12)]);
    assert_eq!(collector.last_log_record_id, Some(12));
    assert_eq!(LOG_EVENTS_PER_POLL, 512);
}

#[test]
fn records_that_went_missing_are_a_gap() {
    let mut collector = NativeCollector {
        last_log_epoch: 100,
        last_log_record_id: Some(11),
    };
    let out = collector.absorb_log(&vec![
        log_event(8001, Some(21), 105),
        log_event(8000, Some(20), 104),
    ]);
    assert_eq!(out.len(), 3);
    match &out[0].kind {
        EntryKind::HistoryGap {
            after_record_id,
            before_record_id,
        } => assert_eq!((*after_record_id, *before_record_id), (11, 20)),
        other => panic!("unexpected {other:?}"),
    }
    assert_eq!(record_of(&out[1]), Some(20));
}

#[test]
fn a_log_without_record_numbers_is_told_apart_by_time() {
    let mut collector = NativeCollector::from_time(100);
    let out = collector.absorb_log(&vec![
        log_event(8001, None, 101),
        log_event(8000, None, 100),
    ]);
    assert_eq!(out.len(), 1);
    assert_eq!(collector.last_log_record_id, None);
    assert_eq!(collector.last_log_epoch, 101);
}
