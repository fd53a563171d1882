use radiochron::mcp::{summaries, summary_value};
use radiochron::wlan::bss::{
    band_and_channel, decode_rates, parse_information_elements, read_entry, BssEntry, BssSummary,
    InformationElements,
};
use radiochron::wlan::sys::{Dot11Ssid, Guid, WlanBssEntry, WlanRateSet};
use radiochron::wlan::{
    guid_to_string, interface_state, mac_to_string, phy_type, quality_from_rssi,
    rssi_from_quality, ssid_to_string,
};

/// Build a TLV: id, length, value.
fn tlv(id: u8, value: &[u8]) -> Vec<u8> {
    let mut out = vec![id, value.len() as u8];
    out.extend_from_slice(value);
    out
}

#[test]
fn empty_blob_yields_empty_summary() {
    let ie = parse_information_elements(&[]);
    assert_eq!(ie.element_count, 0);
    assert_eq!(ie.byte_length, 0);
    assert!(!ie.has_rsn);
}

#[test]
fn detects_rsn_and_ht() {
    let mut bytes = tlv(0, b"MyNet");
    bytes.extend(tlv(48, &[1, 0])); // RSN
    bytes.extend(tlv(45, &[0; 26])); // HT capabilities

    let ie = parse_information_elements(&bytes);
    assert!(ie.has_rsn);
    assert!(ie.has_ht);
    assert!(!ie.has_vht);
    assert_eq!(ie.element_count, 3);
    assert!(ie.names.contains(&"RSN".to_string()));
}

#[test]
fn detects_legacy_wpa_via_vendor_oui() {
    // 00:50:F2 with subtype 1 == WPA v1.
    let bytes = tlv(221, &[0x00, 0x50, 0xf2, 0x01, 0x01, 0x00]);
    let ie = parse_information_elements(&bytes);
    assert!(ie.has_wpa);
    assert_eq!(ie.vendor_ouis, vec!["00:50:f2".to_string()]);
}

#[test]
fn vendor_oui_without_wpa_subtype_is_not_wpa() {
    let bytes = tlv(221, &[0x00, 0x50, 0xf2, 0x02]); // subtype 2 == WMM
    let ie = parse_information_elements(&bytes);
    assert!(!ie.has_wpa);
}

#[test]
fn detects_he_and_eht_extensions() {
    let mut bytes = tlv(255, &[35]); // HE capabilities
    bytes.extend(tlv(255, &[108])); // EHT operation
    let ie = parse_information_elements(&bytes);
    assert!(ie.has_he);
    assert!(ie.has_eht);
    assert_eq!(ie.extension_ids, vec![35, 108]);
}

#[test]
fn truncated_element_stops_the_walk_without_panicking() {
    // Declares 10 bytes of value but supplies 2.
    let bytes = [48u8, 10, 0x01, 0x00];
    let ie = parse_information_elements(&bytes);
    assert_eq!(ie.element_count, 0);
    assert!(!ie.has_rsn);
}

#[test]
fn rates_decode_and_drop_the_basic_flag() {
    // 0x8016 == basic-rate flag | 22 units => 11 Mbps; 0x0018 => 12 Mbps.
    let rates: Vec<f64> = decode_rates(&[0x8016, 0x0018, 0, 0], 4)
        .into_iter()
        .map(|half| f64::from(half) / 2.0)
        .collect();
    assert_eq!(rates, vec![11.0, 12.0]);
}

/// A Wi-Fi 7 AP is not something we can rely on having in radio range, so the
/// EHT path is pinned here instead: a realistic composite beacon carrying
/// every generation of capability element at once.
#[test]
fn composite_beacon_reports_every_capability_generation() {
    let mut bytes = tlv(0, b"Wi-Fi 7 AP"); // SSID
    bytes.extend(tlv(1, &[0x82, 0x84, 0x8b, 0x96])); // supported rates
    bytes.extend(tlv(7, b"IL\0")); // country
    bytes.extend(tlv(11, &[0x01, 0x00, 0x20])); // BSS load
    bytes.extend(tlv(48, &[0x01, 0x00, 0x00, 0x0f, 0xac, 0x04])); // RSN
    bytes.extend(tlv(45, &[0; 26])); // HT capabilities
    bytes.extend(tlv(61, &[0; 22])); // HT operation
    bytes.extend(tlv(191, &[0; 12])); // VHT capabilities
    bytes.extend(tlv(192, &[0; 5])); // VHT operation
    bytes.extend(tlv(255, &[35, 0, 0])); // ext 35 = HE capabilities
    bytes.extend(tlv(255, &[36, 0, 0])); // ext 36 = HE operation
    bytes.extend(tlv(255, &[108, 0, 0])); // ext 108 = EHT capabilities
    bytes.extend(tlv(255, &[106, 0, 0])); // ext 106 = EHT operation
    bytes.extend(tlv(221, &[0x00, 0x50, 0xf2, 0x02, 0x01, 0x01])); // WMM, not WPA

    let ie = parse_information_elements(&bytes);

    assert!(ie.has_rsn);
    assert!(ie.has_ht);
    assert!(ie.has_vht);
    assert!(ie.has_he);
    assert!(
        ie.has_eht,
        "EHT must be detected from extension IDs 106/108"
    );
    assert!(ie.has_country);
    assert!(ie.has_bss_load);
    // Vendor subtype 2 is WMM; only subtype 1 means legacy WPA.
    assert!(!ie.has_wpa);
    assert_eq!(ie.extension_ids, vec![35, 36, 106, 108]);
}

/// WPA/RSN transitional APs advertise both. Both flags must survive, and the
/// summary must prefer the stronger one.
#[test]
fn transitional_ap_reports_both_wpa_and_rsn() {
    let mut bytes = tlv(48, &[0x01, 0x00]); // RSN
    bytes.extend(tlv(221, &[0x00, 0x50, 0xf2, 0x01, 0x01, 0x00])); // WPA v1

    let ie = parse_information_elements(&bytes);
    assert!(ie.has_rsn);
    assert!(ie.has_wpa);
    assert_eq!(summary_with(ie).security, "rsn");
}

#[test]
fn open_network_reports_open() {
    let ie = parse_information_elements(&tlv(0, b"Guest"));
    assert_eq!(summary_with(ie).security, "open");
}

#[test]
fn band_and_channel_cover_all_three_bands() {
    assert_eq!(band_and_channel(2_412_000), ("2.4GHz", Some(1)));
    assert_eq!(band_and_channel(2_462_000), ("2.4GHz", Some(11)));
    assert_eq!(band_and_channel(2_484_000), ("2.4GHz", Some(14)));
    assert_eq!(band_and_channel(5_180_000), ("5GHz", Some(36)));
    assert_eq!(band_and_channel(5_765_000), ("5GHz", Some(153)));
    // 6 GHz has its own numbering: channel 1 is centred at 5955 MHz.
    assert_eq!(band_and_channel(5_955_000), ("6GHz", Some(1)));
    assert_eq!(band_and_channel(6_295_000), ("6GHz", Some(69)));
    assert_eq!(band_and_channel(1_000_000), ("unknown", None));
}

#[test]
fn summary_drops_the_bulky_fields() {
    let entry = sample_entry(parse_information_elements(&tlv(48, &[0x01, 0x00])));
    let json = summary_value(&BssSummary::from(&entry)).to_string();

    for bulky in ["names", "rates_mbps", "timestamp", "element_ids"] {
        assert!(!json.contains(bulky), "summary must not carry {bulky}");
    }
    assert!(json.contains("\"security\":\"rsn\""));
}

fn summary_with(ie: InformationElements) -> BssSummary {
    BssSummary::from(&sample_entry(ie))
}

fn sample_entry(information_elements: InformationElements) -> BssEntry {
    let (band, channel) = band_and_channel(5_180_000);
    BssEntry {
        interface_guid: "00000000-0000-0000-0000-000000000000".into(),
        ssid: Some("Net".into()),
        bssid: "aa:bb:cc:dd:ee:ff".into(),
        bss_type: "infrastructure".into(),
        phy_type: "he".into(),
        rssi_dbm: -60,
        link_quality: 80,
        center_frequency_khz: 5_180_000,
        band,
        channel,
        beacon_period_tu: 100,
        in_reg_domain: true,
        capability_information: 0,
        reported_security: None,
        timestamp: 0,
        host_timestamp: 0,
        rates_half_mbps: vec![12, 24],
        ie_data_complete: true,
        information_elements,
    }
}

#[test]
fn a_summary_says_what_the_entry_says() {
    let mut bytes = tlv(45, &[0; 26]);
    bytes.extend(tlv(255, &[35]));
    let mut entry = sample_entry(parse_information_elements(&bytes));
    entry.ssid = None;
    entry.channel = None;
    let list = summaries(&vec![entry]);
    assert_eq!(list[0]["ssid"], serde_json::Value::Null);
    assert_eq!(list[0]["bssid"], "aa:bb:cc:dd:ee:ff");
    assert_eq!(list[0]["band"], "5GHz");
    assert_eq!(list[0]["channel"], serde_json::Value::Null);
    assert_eq!(list[0]["rssi_dbm"], -60);
    assert_eq!(list[0]["phy_type"], "he");
    assert_eq!(list[0]["security"], "open");
    assert_eq!(list[0]["caps"], "HT,HE");
}

#[test]
fn an_element_cut_off_in_its_header_is_left_out() {
    let mut bytes = tlv(48, &[1, 0]);
    bytes.push(45);
    let ie = parse_information_elements(&bytes);
    assert_eq!(ie.element_count, 1);
    assert_eq!(ie.byte_length, 5);
    assert_eq!(ie.element_ids, vec![48]);
}

#[test]
fn repeated_elements_are_counted_and_named_once() {
    let mut bytes = tlv(221, &[0x00, 0x50, 0xf2, 0x02]);
    bytes.extend(tlv(221, &[0x00, 0x50, 0xf2, 0x04]));
    let ie = parse_information_elements(&bytes);
    assert_eq!(ie.element_count, 2);
    assert_eq!(ie.element_ids, vec![221]);
    assert_eq!(ie.vendor_ouis, vec!["00:50:f2".to_string()]);
}

fn raw_entry(ie_offset: u32, ie_size: u32) -> WlanBssEntry {
    let mut ssid = [0u8; 32];
    ssid[..3].copy_from_slice(b"lab");
    let mut rates = [0u16; 126];
    rates[0] = 0x8002;
    rates[1] = 0x006c;
    WlanBssEntry {
        dot11_ssid: Dot11Ssid { ssid_length: 3, ssid },
        phy_id: 0,
        dot11_bssid: [0x02, 0x1b, 0xff, 0x00, 0xa0, 0x09],
        dot11_bss_type: 1,
        dot11_bss_phy_type: 7,
        rssi: -61,
        link_quality: 78,
        in_reg_domain: 1,
        beacon_period: 100,
        timestamp: 5,
        host_timestamp: 6,
        capability_information: 0x0411,
        ch_center_frequency: 2_437_000,
        rate_set: WlanRateSet { rate_set_length: 4, rate_set: rates },
        ie_offset,
        ie_size,
    }
}

#[test]
fn a_native_entry_is_decoded() {
    let mut allocation = vec![0u8; 10];
    allocation.extend(tlv(48, &[1, 0]));
    let entry = read_entry(&raw_entry(10, 4), &allocation, "guid");
    assert_eq!(entry.interface_guid, "guid");
    assert_eq!(entry.ssid.as_deref(), Some("lab"));
    assert_eq!(entry.bssid, "02:1b:ff:00:a0:09");
    assert_eq!(entry.bss_type, "infrastructure");
    assert_eq!(entry.channel, Some(6));
    assert_eq!(entry.rates_half_mbps, vec![2, 108]);
    assert!(entry.information_elements.has_rsn);
}

#[test]
fn elements_of_an_impossible_size_are_not_read() {
    let mut allocation = vec![0u8; 10];
    allocation.extend(tlv(48, &[1, 0]));
    for (offset, size) in [(10, 4097), (10, 0), (0, 4), (u32::MAX, u32::MAX)] {
        let entry = read_entry(&raw_entry(offset, size), &allocation, "guid");
        assert_eq!(entry.information_elements.element_count, 0);
    }
}

#[test]
fn network_names_are_read_as_utf8() {
    let mut ssid = [0u8; 32];
    ssid[..5].copy_from_slice("caf\u{e9}".as_bytes());
    assert_eq!(
        ssid_to_string(&Dot11Ssid { ssid_length: 5, ssid }).as_deref(),
        Some("caf\u{e9}")
    );
    ssid[4] = 0xff;
    assert_eq!(
        ssid_to_string(&Dot11Ssid { ssid_length: 5, ssid }).as_deref(),
        Some("caf\u{fffd}\u{fffd}")
    );
    assert_eq!(ssid_to_string(&Dot11Ssid { ssid_length: 0, ssid }), None);
}

#[test]
fn addresses_types_and_qualities_have_their_forms() {
    assert_eq!(mac_to_string(&[0, 1, 0x0f, 0x10, 0xab, 0xff]), "00:01:0f:10:ab:ff");
    assert_eq!(quality_from_rssi(-100), 0);
    assert_eq!(quality_from_rssi(-75), 50);
    assert_eq!(quality_from_rssi(-50), 100);
    assert_eq!(quality_from_rssi(-20), 100);
    assert_eq!(quality_from_rssi(i32::MIN), 0);
    assert_eq!(phy_type(10), "he");
    assert_eq!(phy_type(-3), "unknown_-3");
    assert_eq!(interface_state(1), "connected");
    assert_eq!(interface_state(8), "unknown_8");
    assert_eq!(rssi_from_quality(0), -100);
    assert_eq!(rssi_from_quality(71), -65);
    assert_eq!(rssi_from_quality(500), -50);
    let guid = Guid {
        data1: 0x0123abcd,
        data2: 0x0045,
        data3: 0xffee,
        data4: [1, 2, 3, 4, 5, 6, 7, 0xf8],
    };
    assert_eq!(guid_to_string(&guid), "0123abcd-0045-ffee-0102-0304050607f8");
}
