use radiochron::embedded::Snapshot;
use radiochron::esp_idf::{
    channel_frequency_khz, map_access_point, AccessPoint, AuthMethod, Driver, EspIdfCollector,
    PhyProtocol, ProtocolSet, ScanRecord,
};
use radiochron::wlan::bss::{band_and_channel, SecurityMode};

#[derive(Default)]
struct MockDriver {
    connected: bool,
    associated: Option<AccessPoint>,
    visible: Vec<AccessPoint>,
}

impl Driver for MockDriver {
    type Error = core::convert::Infallible;

    fn is_connected(&mut self) -> Result<bool, Self::Error> {
        Ok(self.connected)
    }

    fn associated_access_point(&mut self) -> Result<Option<AccessPoint>, Self::Error> {
        Ok(self.associated.clone())
    }

    fn scan(&mut self, output: &mut Vec<AccessPoint>) -> Result<(), Self::Error> {
        output.extend(self.visible.iter().cloned());
        Ok(())
    }
}

fn ap() -> AccessPoint {
    AccessPoint {
        ssid: Some("lab".into()),
        bssid: [0x02, 0, 0, 0, 0, 1],
        channel: 6,
        center_frequency_khz: None,
        signal_dbm: -61,
        phy_type: "802.11n".into(),
        security: SecurityMode::Wpa2Personal,
    }
}

#[test]
fn maps_status_and_scan_without_inventing_raw_ies() {
    let access_point = ap();
    let driver = MockDriver {
        connected: true,
        associated: Some(access_point.clone()),
        visible: vec![access_point],
    };
    let mut collector = EspIdfCollector::new(driver);
    let mut snapshot = Snapshot::new();
    snapshot.refresh(&mut collector).unwrap();

    let connection = snapshot.statuses[0].connection.as_ref().unwrap();
    assert_eq!(connection.ssid.as_deref(), Some("lab"));
    assert_eq!(connection.bssid.as_deref(), Some("02:00:00:00:00:01"));
    assert_eq!(snapshot.bss[0].channel, Some(6));
    assert_eq!(
        snapshot.bss[0].reported_security,
        Some(SecurityMode::Wpa2Personal)
    );
    assert!(!snapshot.bss[0].ie_data_complete);
}

#[test]
fn channel_conversion_covers_24_and_5_ghz() {
    assert_eq!(channel_frequency_khz(1), 2_412_000);
    assert_eq!(channel_frequency_khz(14), 2_484_000);
    assert_eq!(channel_frequency_khz(36), 5_180_000);
}

#[test]
fn channels_survive_the_conversion() {
    for channel in (1..=14).chain(36..=177) {
        let (_, back) = band_and_channel(channel_frequency_khz(channel));
        assert_eq!(back, Some(u16::from(channel)));
    }
}

#[test]
fn a_station_without_an_association_is_disconnected() {
    let mut collector = EspIdfCollector::with_interface_id(MockDriver::default(), "sta");
    let mut snapshot = Snapshot::new();
    snapshot.refresh(&mut collector).unwrap();
    assert_eq!(snapshot.statuses[0].interface.guid, "sta");
    assert!(snapshot.statuses[0].connection.is_none());
    assert!(snapshot.bss.is_empty());
    collector.driver_mut().connected = true;
    assert!(collector.into_inner().connected);
}

fn record(protocols: Vec<PhyProtocol>) -> ScanRecord {
    ScanRecord {
        ssid: "".into(),
        bssid: [1; 6],
        channel: 11,
        signal_strength: -70,
        protocols: ProtocolSet::of(&protocols),
        auth_method: Some(AuthMethod::Wpa3Personal),
    }
}

#[test]
fn a_record_of_the_sdk_is_normalised() {
    let mapped = map_access_point(record(vec![
        PhyProtocol::B,
        PhyProtocol::Bgn,
        PhyProtocol::Bg,
        PhyProtocol::B,
    ]));
    assert_eq!(mapped.ssid, None);
    assert_eq!(mapped.channel, 11);
    assert_eq!(mapped.signal_dbm, -70);
    assert_eq!(mapped.phy_type, "802.11b/g/n");
    assert_eq!(mapped.security, SecurityMode::Wpa3Personal);
    let mut bare = record(vec![]);
    bare.auth_method = None;
    bare.ssid = "lab".into();
    let mapped = map_access_point(bare);
    assert_eq!(mapped.ssid.as_deref(), Some("lab"));
    assert_eq!(mapped.phy_type, "unknown");
    assert_eq!(mapped.security, SecurityMode::Unknown);
}

#[test]
fn the_widest_protocol_names_the_radio() {
    let name = |protocols: Vec<PhyProtocol>| map_access_point(record(protocols)).phy_type;
    assert_eq!(name(vec![PhyProtocol::Lr]), "802.11lr");
    assert_eq!(name(vec![PhyProtocol::Lr, PhyProtocol::B]), "802.11b");
    assert_eq!(name(vec![PhyProtocol::B, PhyProtocol::Bg]), "802.11b/g");
    assert_eq!(
        name(vec![PhyProtocol::BgnLr, PhyProtocol::Bgn]),
        "802.11b/g/n/lr"
    );
}
