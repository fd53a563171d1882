//! What scans and sampling runs have to do with the beacons and the readings
//! that they sum up.

use super::bss;
use super::bss::{BssEntry, Element, InformationElements};
use super::sample;
use super::sample::{Sample, SampleRun};
use super::CurrentConnection;
use crate::text;
use crate::wlan;
use vstd::prelude::*;

verus! {

// ---------------------------------------------------------------------------
// Beacons
// ---------------------------------------------------------------------------

/// Whether bytes end in the middle of an element, or have none.
pub open spec fn is_cut_short(rest: Seq<u8>) -> bool {
    rest.len() < 2 || 2 + rest[1] > rest.len()
}

/// Whether a beacon carries an element with an id.
pub open spec fn carries(list: Seq<Element>, id: u8) -> bool {
    exists|i: int| 0 <= i < list.len() && (#[trigger] list[i]).id == id
}

/// Whether a beacon carries an extension whose id is from `low` to `high`.
pub open spec fn extends(list: Seq<Element>, low: u8, high: u8) -> bool {
    exists|i: int|
        0 <= i < list.len() && (#[trigger] list[i]).id == 255 && list[i].value.len() >= 1 && low
            <= list[i].value[0] <= high
}

/// Whether a beacon carries the legacy WPA element.
pub open spec fn carries_wpa(list: Seq<Element>) -> bool {
    exists|i: int|
        {
            &&& 0 <= i < list.len()
            &&& (#[trigger] list[i]).id == 221
            &&& list[i].value.len() >= 4
            &&& list[i].value[0] == 0x00
            &&& list[i].value[1] == 0x50
            &&& list[i].value[2] == 0xf2
            &&& list[i].value[3] == 0x01
        }
}

proof fn lemma_beacon(ie: InformationElements, list: Seq<Element>, rest: Seq<u8>)
    requires
        forall|i: int| 0 <= i < list.len() ==> (#[trigger] list[i]).value.len() <= 255,
        is_cut_short(rest),
        bss::summarises(ie, bss::encoded(list) + rest),
    ensures
        bss::elements(bss::encoded(list) + rest) == list,
{
    bss::lemma_elements_read_back(list, rest);
    assert(list + bss::elements(rest) =~= list);
}

/// The elements that a beacon carries, up to where it is cut short, decide what
/// is said of it: the flags, the ids in ascending order, and how many there are.
pub proof fn lemma_beacons_are_summed_up(
    ie: InformationElements,
    list: Seq<Element>,
    rest: Seq<u8>,
)
    requires
        forall|i: int| 0 <= i < list.len() ==> (#[trigger] list[i]).value.len() <= 255,
        is_cut_short(rest),
        bss::summarises(ie, bss::encoded(list) + rest),
    ensures
        ie.element_count == list.len(),
        ie.byte_length == (bss::encoded(list) + rest).len(),
        ie.has_rsn == carries(list, 48),
        ie.has_wpa == carries_wpa(list),
        ie.has_bss_load == carries(list, 11),
        ie.has_country == carries(list, 7),
        ie.has_ht == (carries(list, 45) || carries(list, 61)),
        ie.has_vht == (carries(list, 191) || carries(list, 192)),
        ie.has_he == extends(list, 35, 38),
        ie.has_eht == extends(list, 106, 108),
        forall|id: u8| #[trigger] ie.element_ids@.contains(id) <==> carries(list, id),
        forall|id: u8| #[trigger] ie.extension_ids@.contains(id) <==> extends(list, id, id),
        forall|i: int, j: int|
            0 <= i < j < ie.element_ids@.len() ==> ie.element_ids@[i] < ie.element_ids@[j],
        forall|i: int, j: int|
            0 <= i < j < ie.extension_ids@.len() ==> ie.extension_ids@[i] < ie.extension_ids@[j],
{
    lemma_beacon(ie, list, rest);
    assert forall|id: u8| bss::has_element(list, id) == #[trigger] carries(list, id) by {}
    assert forall|id: u8| bss::has_extension(list, id) == #[trigger] extends(list, id, id) by {
        if bss::has_extension(list, id) {
            let i = choose|i: int|
                0 <= i < list.len() && bss::is_extension(#[trigger] list[i]) && list[i].value[0]
                    == id;
            assert(list[i].id == 255);
        }
        if extends(list, id, id) {
            let i = choose|i: int|
                0 <= i < list.len() && (#[trigger] list[i]).id == 255 && list[i].value.len() >= 1
                    && id <= list[i].value[0] <= id;
            assert(bss::is_extension(list[i]));
        }
    }
    assert(bss::has_wpa_element(list) == carries_wpa(list)) by {
        if bss::has_wpa_element(list) {
            let i = choose|i: int| 0 <= i < list.len() && bss::is_wpa(#[trigger] list[i]);
            let head = list[i].value.take(4);
            assert(head[0] == list[i].value[0] && head[1] == list[i].value[1]);
            assert(head[2] == list[i].value[2] && head[3] == list[i].value[3]);
            assert(list[i].id == 221);
        }
        if carries_wpa(list) {
            let i = choose|i: int|
                {
                    &&& 0 <= i < list.len()
                    &&& (#[trigger] list[i]).id == 221
                    &&& list[i].value.len() >= 4
                    &&& list[i].value[0] == 0x00
                    &&& list[i].value[1] == 0x50
                    &&& list[i].value[2] == 0xf2
                    &&& list[i].value[3] == 0x01
                };
            assert(list[i].value.take(4) =~= seq![0x00u8, 0x50u8, 0xf2u8, 0x01u8]);
            assert(bss::is_wpa(list[i]));
        }
    }
    lemma_range(list, 35, 38);
    lemma_range(list, 106, 108);
}

proof fn lemma_range(list: Seq<Element>, low: u8, high: u8)
    ensures
        extends(list, low, high) <==> exists|id: u8|
            low <= id <= high && #[trigger] bss::has_extension(list, id),
{
    if extends(list, low, high) {
        let i = choose|i: int|
            0 <= i < list.len() && (#[trigger] list[i]).id == 255 && list[i].value.len() >= 1
                && low <= list[i].value[0] <= high;
        assert(bss::is_extension(list[i]));
        assert(bss::has_extension(list, list[i].value[0]));
    }
    if exists|id: u8| low <= id <= high && #[trigger] bss::has_extension(list, id) {
        let id = choose|id: u8| low <= id <= high && #[trigger] bss::has_extension(list, id);
        let i = choose|i: int|
            0 <= i < list.len() && bss::is_extension(#[trigger] list[i]) && list[i].value[0] == id;
        assert(list[i].id == 255);
    }
}

/// Every element is named, every extension by its number, and every vendor by
/// its OUI; nothing else is listed.
pub proof fn lemma_elements_are_named(
    ie: InformationElements,
    list: Seq<Element>,
    rest: Seq<u8>,
    i: int,
)
    requires
        forall|k: int| 0 <= k < list.len() ==> (#[trigger] list[k]).value.len() <= 255,
        is_cut_short(rest),
        bss::summarises(ie, bss::encoded(list) + rest),
        0 <= i < list.len(),
    ensures
        bss::lists(text::texts(ie.names@), bss::element_name(list[i].id)),
        list[i].id == 255 && list[i].value.len() >= 1 ==> bss::lists(
            text::texts(ie.names@),
            "Extension "@ + text::decimal(list[i].value[0] as nat),
        ),
        list[i].id == 221 && list[i].value.len() >= 3 ==> bss::lists(
            text::texts(ie.vendor_ouis@),
            wlan::colon_hex(list[i].value.take(3)),
        ),
{
    lemma_beacon(ie, list, rest);
    lemma_named(list, i);
    let names = bss::names_seen(list);
    let ouis = bss::ouis_seen(list);
    bss::lemma_lists_by_multiset(text::texts(ie.names@), names, bss::element_name(list[i].id));
    if list[i].id == 255 && list[i].value.len() >= 1 {
        bss::lemma_lists_by_multiset(
            text::texts(ie.names@),
            names,
            bss::extension_name(list[i].value[0]),
        );
    }
    if list[i].id == 221 && list[i].value.len() >= 3 {
        bss::lemma_lists_by_multiset(
            text::texts(ie.vendor_ouis@),
            ouis,
            wlan::colon_hex(list[i].value.take(3)),
        );
    }
}

proof fn lemma_listed(list: Seq<Seq<char>>, value: Seq<char>, other: Seq<char>)
    ensures
        bss::lists(bss::listed(list, value), value),
        bss::lists(list, other) ==> bss::lists(bss::listed(list, value), other),
{
    if !bss::lists(list, value) {
        let longer = list.push(value);
        assert(longer[list.len() as int] == value);
        if bss::lists(list, other) {
            let i = choose|i: int|
                0 <= i < list.len() && text::lower_text(#[trigger] list[i]) == text::lower_text(
                    other,
                );
            assert(longer[i] == list[i]);
        }
    }
}

proof fn lemma_named(list: Seq<Element>, i: int)
    requires
        0 <= i < list.len(),
    ensures
        bss::lists(bss::names_seen(list), bss::element_name(list[i].id)),
        bss::is_extension(list[i]) ==> bss::lists(
            bss::names_seen(list),
            bss::extension_name(list[i].value[0]),
        ),
        bss::is_vendor(list[i]) ==> bss::lists(
            bss::ouis_seen(list),
            wlan::colon_hex(list[i].value.take(3)),
        ),
    decreases list.len(),
{
    let element = list.last();
    let earlier = bss::names_seen(list.drop_last());
    let named = bss::listed(earlier, bss::element_name(element.id));
    let ouis = bss::ouis_seen(list.drop_last());
    let name = bss::element_name(list[i].id);
    let extension = bss::extension_name(list[i].value[0]);
    let oui = wlan::colon_hex(list[i].value.take(3));
    lemma_listed(earlier, bss::element_name(element.id), name);
    lemma_listed(earlier, bss::element_name(element.id), extension);
    lemma_listed(named, bss::extension_name(element.value[0]), name);
    lemma_listed(named, bss::extension_name(element.value[0]), extension);
    lemma_listed(ouis, wlan::colon_hex(element.value.take(3)), oui);
    if i < list.len() - 1 {
        assert(list.drop_last()[i] == list[i]);
        lemma_named(list.drop_last(), i);
    }
}

/// How elements are called.
pub proof fn lemma_names_of_elements(id: u8)
    ensures
        bss::element_name(0) == "SSID"@,
        bss::element_name(1) == "Supported rates"@,
        bss::element_name(3) == "DS parameter set"@,
        bss::element_name(5) == "TIM"@,
        bss::element_name(7) == "Country"@,
        bss::element_name(11) == "BSS load"@,
        bss::element_name(32) == "Power constraint"@,
        bss::element_name(45) == "HT capabilities"@,
        bss::element_name(48) == "RSN"@,
        bss::element_name(50) == "Extended supported rates"@,
        bss::element_name(61) == "HT operation"@,
        bss::element_name(70) == "RM enabled capabilities"@,
        bss::element_name(107) == "Interworking"@,
        bss::element_name(127) == "Extended capabilities"@,
        bss::element_name(191) == "VHT capabilities"@,
        bss::element_name(192) == "VHT operation"@,
        bss::element_name(195) == "Transmit power envelope"@,
        bss::element_name(201) == "Reduced neighbor report"@,
        bss::element_name(221) == "Vendor specific"@,
        bss::element_name(255) == "Extension"@,
        !seq![
            0u8,
            1,
            3,
            5,
            7,
            11,
            32,
            45,
            48,
            50,
            61,
            70,
            107,
            127,
            191,
            192,
            195,
            201,
            221,
            255,
        ].contains(id) ==> bss::element_name(id) == "IE "@ + text::decimal(id as nat),
{
    let known = seq![
        0u8,
        1,
        3,
        5,
        7,
        11,
        32,
        45,
        48,
        50,
        61,
        70,
        107,
        127,
        191,
        192,
        195,
        201,
        221,
        255,
    ];
    assert(known[0] == 0 && known[1] == 1 && known[2] == 3 && known[3] == 5 && known[4] == 7);
    assert(known[5] == 11 && known[6] == 32 && known[7] == 45 && known[8] == 48 && known[9] == 50);
    assert(known[10] == 61 && known[11] == 70 && known[12] == 107 && known[13] == 127);
    assert(known[14] == 191 && known[15] == 192 && known[16] == 195 && known[17] == 201);
    assert(known[18] == 221 && known[19] == 255);
}

// ---------------------------------------------------------------------------
// Summaries
// ---------------------------------------------------------------------------

/// A network whose beacon carries an RSN element is protected by it; one that
/// carries the WPA vendor element and no RSN element is protected by that; only
/// one that carries neither is open.
pub proof fn lemma_protected_networks_are_not_open(
    entry: BssEntry,
    list: Seq<Element>,
    rest: Seq<u8>,
)
    requires
        forall|i: int| 0 <= i < list.len() ==> (#[trigger] list[i]).value.len() <= 255,
        is_cut_short(rest),
        bss::summarises(entry.information_elements, bss::encoded(list) + rest),
    ensures
        ({
            let security = bss::summary_of(entry).security;
            &&& (security == "rsn"@) <==> carries(list, 48)
            &&& (security == "wpa"@) <==> carries_wpa(list) && !carries(list, 48)
            &&& (security == "open"@) <==> !carries_wpa(list) && !carries(list, 48)
        }),
{
    reveal_strlit("rsn");
    reveal_strlit("wpa");
    reveal_strlit("open");
    assert("rsn"@[0] == 'r' && "wpa"@[0] == 'w' && "open"@.len() == 4);
    lemma_beacons_are_summed_up(entry.information_elements, list, rest);
}

/// The flags alone decide in the same way, whoever set them.
pub proof fn lemma_security_follows_the_flags(entry: BssEntry)
    ensures
        ({
            let ie = entry.information_elements;
            let security = bss::summary_of(entry).security;
            &&& (security == "rsn"@) <==> ie.has_rsn
            &&& (security == "wpa"@) <==> ie.has_wpa && !ie.has_rsn
            &&& (security == "open"@) <==> !ie.has_wpa && !ie.has_rsn
        }),
{
    reveal_strlit("rsn");
    reveal_strlit("wpa");
    reveal_strlit("open");
    assert("rsn"@[0] == 'r' && "wpa"@[0] == 'w' && "open"@.len() == 4);
}

/// A summary keeps what the entry says of the network, the access point, the
/// band, the channel, the level and the PHY.
pub proof fn lemma_summaries_keep_the_entry(entry: BssEntry)
    ensures
        match entry.ssid {
            Some(ssid) => bss::summary_of(entry).ssid == Some(ssid@),
            None => bss::summary_of(entry).ssid is None,
        },
        bss::summary_of(entry).bssid == entry.bssid@,
        bss::summary_of(entry).band == entry.band@,
        bss::summary_of(entry).channel == entry.channel,
        bss::summary_of(entry).rssi_dbm == entry.rssi_dbm,
        bss::summary_of(entry).phy_type == entry.phy_type@,
{
}

/// The capabilities of a summary are those of the entry, in the order of their
/// generations, separated by commas.
pub proof fn lemma_capabilities_are_listed(entry: BssEntry)
    ensures
        ({
            let ie = entry.information_elements;
            let caps = bss::summary_of(entry).caps;
            match (ie.has_ht, ie.has_vht, ie.has_he, ie.has_eht) {
                (false, false, false, false) => caps == ""@,
                (true, false, false, false) => caps == "HT"@,
                (false, true, false, false) => caps == "VHT"@,
                (true, true, false, false) => caps == "HT,VHT"@,
                (false, false, true, false) => caps == "HE"@,
                (true, false, true, false) => caps == "HT,HE"@,
                (false, true, true, false) => caps == "VHT,HE"@,
                (true, true, true, false) => caps == "HT,VHT,HE"@,
                (false, false, false, true) => caps == "EHT"@,
                (true, false, false, true) => caps == "HT,EHT"@,
                (false, true, false, true) => caps == "VHT,EHT"@,
                (true, true, false, true) => caps == "HT,VHT,EHT"@,
                (false, false, true, true) => caps == "HE,EHT"@,
                (true, false, true, true) => caps == "HT,HE,EHT"@,
                (false, true, true, true) => caps == "VHT,HE,EHT"@,
                (true, true, true, true) => caps == "HT,VHT,HE,EHT"@,
            }
        }),
{
    reveal_strlit("");
    reveal_strlit(",");
    reveal_strlit("HT");
    reveal_strlit("VHT");
    reveal_strlit("HE");
    reveal_strlit("EHT");
    reveal_strlit("HT,VHT");
    reveal_strlit("HT,HE");
    reveal_strlit("VHT,HE");
    reveal_strlit("HT,VHT,HE");
    reveal_strlit("HT,EHT");
    reveal_strlit("VHT,EHT");
    reveal_strlit("HT,VHT,EHT");
    reveal_strlit("HE,EHT");
    reveal_strlit("HT,HE,EHT");
    reveal_strlit("VHT,HE,EHT");
    reveal_strlit("HT,VHT,HE,EHT");
    let ie = entry.information_elements;
    let caps = bss::summary_of(entry).caps;
    match (ie.has_ht, ie.has_vht, ie.has_he, ie.has_eht) {
        (false, false, false, false) => assert(caps =~= ""@),
        (true, false, false, false) => assert(caps =~= "HT"@),
        (false, true, false, false) => assert(caps =~= "VHT"@),
        (true, true, false, false) => assert(caps =~= "HT,VHT"@),
        (false, false, true, false) => assert(caps =~= "HE"@),
        (true, false, true, false) => assert(caps =~= "HT,HE"@),
        (false, true, true, false) => assert(caps =~= "VHT,HE"@),
        (true, true, true, false) => assert(caps =~= "HT,VHT,HE"@),
        (false, false, false, true) => assert(caps =~= "EHT"@),
        (true, false, false, true) => assert(caps =~= "HT,EHT"@),
        (false, true, false, true) => assert(caps =~= "VHT,EHT"@),
        (true, true, false, true) => assert(caps =~= "HT,VHT,EHT"@),
        (false, false, true, true) => assert(caps =~= "HE,EHT"@),
        (true, false, true, true) => assert(caps =~= "HT,HE,EHT"@),
        (false, true, true, true) => assert(caps =~= "VHT,HE,EHT"@),
        (true, true, true, true) => assert(caps =~= "HT,VHT,HE,EHT"@),
    }
}

/// The center of every channel of a band is read as that channel of that band,
/// to the last kHz of its MHz; what lies outside all bands is unknown.
pub proof fn lemma_channels_lie_in_their_bands(channel: int, khz: u32)
    ensures
        1 <= channel <= 13 && khz as int / 1000 == 2407 + 5 * channel ==> bss::band_of(khz) == (
            "2.4GHz"@,
            Some(channel as u16),
        ),
        khz as int / 1000 == 2484 ==> bss::band_of(khz) == ("2.4GHz"@, Some(14u16)),
        0 <= channel <= 179 && khz as int / 1000 == 5000 + 5 * channel ==> bss::band_of(khz) == (
            "5GHz"@,
            Some(channel as u16),
        ),
        1 <= channel <= 235 && khz as int / 1000 == 5950 + 5 * channel ==> bss::band_of(khz) == (
            "6GHz"@,
            Some(channel as u16),
        ),
        5_925_000 <= khz < 5_955_000 ==> bss::band_of(khz).0 == "6GHz"@ && bss::band_of(
            khz,
        ).1 is None,
        khz < 2_412_000 || 2_473_000 <= khz < 2_484_000 || 2_485_000 <= khz < 5_000_000 || 5_896_000
            <= khz < 5_925_000 || khz >= 7_126_000 ==> bss::band_of(khz).0 == "unknown"@
            && bss::band_of(khz).1 is None,
        2_412_000 <= khz < 2_473_000 ==> bss::band_of(khz).0 == "2.4GHz"@,
        5_000_000 <= khz < 5_896_000 ==> bss::band_of(khz).0 == "5GHz"@,
        5_955_000 <= khz < 7_126_000 ==> bss::band_of(khz).0 == "6GHz"@,
{
}

/// Where a rate stands in a rate set: with its "basic rate" flag or without.
pub open spec fn holds_rate(rate_set: Seq<u16>, rate: u16) -> bool {
    exists|i: int|
        0 <= i < rate_set.len() && ((#[trigger] rate_set[i]) == rate || rate_set[i] == rate
            + 0x8000)
}

/// The rates of a set are those that stand in it, flagged or not, but for zero.
pub proof fn lemma_rates_are_those_of_the_set(rate_set: Seq<u16>, rate: u16)
    ensures
        bss::rates_of(rate_set).contains(rate) <==> 0 < rate < 0x8000 && holds_rate(rate_set, rate),
    decreases rate_set.len(),
{
    if rate_set.len() > 0 {
        let shorter = rate_set.drop_last();
        let before = bss::rates_of(shorter);
        let after = bss::rates_of(rate_set);
        let last = rate_set.last();
        lemma_rates_are_those_of_the_set(shorter, rate);
        assert(rate_set[rate_set.len() - 1] == last);
        if holds_rate(shorter, rate) {
            let i = choose|i: int|
                0 <= i < shorter.len() && ((#[trigger] shorter[i]) == rate || shorter[i] == rate
                    + 0x8000);
            assert(rate_set[i] == shorter[i]);
        }
        if holds_rate(rate_set, rate) {
            let i = choose|i: int|
                0 <= i < rate_set.len() && ((#[trigger] rate_set[i]) == rate || rate_set[i] == rate
                    + 0x8000);
            if i < rate_set.len() - 1 {
                assert(shorter[i] == rate_set[i]);
            }
        }
        if before.contains(rate) {
            let i = before.index_of(rate);
            assert(after[i] == rate);
        }
        if after.contains(rate) {
            let i = after.index_of(rate);
            if i < before.len() {
                assert(before[i] == rate);
            }
        }
        if bss::rate_units(last) == rate && rate > 0 {
            assert(after[after.len() - 1] == rate);
        }
    }
}

/// What numbers of BSS types, PHY types and interface states stand for.
pub proof fn lemma_numbers_have_names(value: i32)
    ensures
        bss::bss_type_name(1) == "infrastructure"@,
        bss::bss_type_name(2) == "independent"@,
        bss::bss_type_name(3) == "any"@,
        value < 1 || value > 3 ==> bss::bss_type_name(value) == "unknown_"@ + text::signed_decimal(
            value as int,
        ),
        wlan::phy_name(4) == "ofdm"@,
        wlan::phy_name(5) == "hrdsss"@,
        wlan::phy_name(6) == "erp"@,
        wlan::phy_name(7) == "ht"@,
        wlan::phy_name(8) == "vht"@,
        wlan::phy_name(10) == "he"@,
        wlan::phy_name(11) == "eht"@,
        value < 4 || value == 9 || value > 11 ==> wlan::phy_name(value) == "unknown_"@
            + text::signed_decimal(value as int),
        wlan::state_name(1) == "connected"@,
        wlan::state_name(4) == "disconnected"@,
{
}

// ---------------------------------------------------------------------------
// Levels and addresses
// ---------------------------------------------------------------------------

/// Quality is nothing at -100 dBm and below, all at -50 dBm and above, and two
/// percent more for each dB between.
pub proof fn lemma_quality_is_linear(rssi_dbm: int)
    ensures
        rssi_dbm <= -100 ==> wlan::quality(rssi_dbm) == 0,
        rssi_dbm >= -50 ==> wlan::quality(rssi_dbm) == 100,
        -100 <= rssi_dbm < -50 ==> wlan::quality(rssi_dbm + 1) == wlan::quality(rssi_dbm) + 2,
{
}

/// An interface with an association is a connected link with its values, one
/// without is a disconnected link without any.
pub proof fn lemma_associations_are_observed(connection: CurrentConnection)
    ensures
        wlan::observed(Some(connection)).connected,
        wlan::observed(Some(connection)).rssi_dbm == Some(connection.rssi_dbm_estimate),
        wlan::observed(Some(connection)).bssid == (match connection.bssid {
            Some(bssid) => Some(bssid@),
            None => None,
        }),
        wlan::observed(Some(connection)).ssid == (match connection.ssid {
            Some(ssid) => Some(ssid@),
            None => None,
        }),
        !wlan::observed(None).connected,
        wlan::observed(None).rssi_dbm is None,
        wlan::observed(None).bssid is None,
{
}

/// A byte is written as two digits that read as the byte, in lower case.
pub proof fn lemma_hex_digits_read_back(b: u8)
    ensures
        text::digits_value(text::hex2(b), 16) == Some(b as nat),
        text::hex2(b).len() == 2,
        forall|i: int|
            0 <= i < 2 ==> ('0' <= #[trigger] text::hex2(b)[i] <= '9' || 'a' <= text::hex2(b)[i]
                <= 'f'),
{
    let s = text::hex2(b);
    let head = s.drop_last();
    assert(head.drop_last() =~= seq![]);
    assert(head.last() == s[0] && s.last() == s[1]);
    reveal_with_fuel(text::digits_value, 3);
    lemma_hex_digit((b / 16) as int);
    lemma_hex_digit((b % 16) as int);
    assert(text::digits_value(head, 16) == Some((b / 16) as nat));
    assert((b / 16) * 16 + b % 16 == b);
}

proof fn lemma_hex_digit(d: int)
    requires
        0 <= d < 16,
    ensures
        text::digit_value(text::hex_char(d), 16) == Some(d as nat),
        '0' <= text::hex_char(d) <= '9' || 'a' <= text::hex_char(d) <= 'f',
{
}

/// A hardware address is its bytes in order, two digits each, with colons
/// between.
pub proof fn lemma_addresses_read_back(bytes: Seq<u8>, i: int)
    requires
        0 <= i < bytes.len(),
    ensures
        wlan::colon_hex(bytes).len() == 3 * bytes.len() - 1,
        text::digits_value(wlan::colon_hex(bytes).subrange(3 * i, 3 * i + 2), 16) == Some(
            bytes[i] as nat,
        ),
        i < bytes.len() - 1 ==> wlan::colon_hex(bytes)[3 * i + 2] == ':',
    decreases bytes.len(),
{
    let all = wlan::colon_hex(bytes);
    lemma_hex_digits_read_back(bytes[i]);
    if bytes.len() == 1 {
        assert(all.subrange(0, 2) =~= text::hex2(bytes[0]));
    } else {
        let shorter = bytes.drop_last();
        let before = wlan::colon_hex(shorter);
        lemma_hex_digits_read_back(bytes.last());
        if i < bytes.len() - 1 {
            lemma_addresses_read_back(shorter, i);
            assert(shorter[i] == bytes[i]);
            assert(all.subrange(3 * i, 3 * i + 2) =~= before.subrange(3 * i, 3 * i + 2));
        } else {
            lemma_addresses_read_back(shorter, 0);
            assert(all.subrange(3 * i, 3 * i + 2) =~= text::hex2(bytes.last()));
        }
    }
}

/// A network name is as many of its bytes as the length says, and never more
/// than the field has.
pub proof fn lemma_names_are_as_long_as_they_say(ssid: wlan::sys::Dot11Ssid, i: int)
    ensures
        ssid.ssid_length <= 32 ==> wlan::ssid_bytes(ssid).len() == ssid.ssid_length,
        ssid.ssid_length > 32 ==> wlan::ssid_bytes(ssid).len() == 32,
        0 <= i < wlan::ssid_bytes(ssid).len() ==> wlan::ssid_bytes(ssid)[i] == ssid.ssid@[i],
{
}

// ---------------------------------------------------------------------------
// Sampling runs
// ---------------------------------------------------------------------------

/// The places of samples without an association.
pub open spec fn outages(samples: Seq<Sample>) -> Set<int> {
    Set::new(|i: int| 0 <= i < samples.len() && !samples[i].connected)
}

/// Whether the sample at `j` names another access point than the last sample
/// before it that names one.
pub open spec fn changes_at(samples: Seq<Sample>, j: int) -> bool {
    &&& 0 <= j < samples.len()
    &&& samples[j].bssid is Some
    &&& exists|i: int| #[trigger] is_last_named(samples, i, j) && samples[i].bssid->0@
        != samples[j].bssid->0@
}

/// Whether the sample at `i` is the last before `j` that names an access point.
pub open spec fn is_last_named(samples: Seq<Sample>, i: int, j: int) -> bool {
    &&& 0 <= i < j
    &&& samples[i].bssid is Some
    &&& forall|k: int| i < k < j ==> (#[trigger] samples[k]).bssid is None
}

/// The places of samples with a new access point.
pub open spec fn changes(samples: Seq<Sample>) -> Set<int> {
    Set::new(|j: int| changes_at(samples, j))
}

proof fn lemma_outages(samples: Seq<Sample>)
    ensures
        outages(samples).finite(),
        outages(samples).len() == sample::gaps(samples),
    decreases samples.len(),
{
    if samples.len() == 0 {
        assert(outages(samples) =~= Set::empty());
    } else {
        let shorter = samples.drop_last();
        let n = samples.len() - 1;
        lemma_outages(shorter);
        assert(samples[n] == samples.last());
        assert forall|i: int| 0 <= i < n implies #[trigger] shorter[i] == samples[i] by {}
        if samples.last().connected {
            assert(outages(samples) =~= outages(shorter));
        } else {
            assert(outages(samples) =~= outages(shorter).insert(n));
        }
    }
}

proof fn lemma_stations(samples: Seq<Sample>)
    ensures
        forall|t: Seq<char>| #[trigger]
            sample::stations(samples).contains(t) <==> exists|i: int|
                0 <= i < samples.len() && (#[trigger] samples[i]).bssid is Some
                    && samples[i].bssid->0@ == t,
        sample::stations(samples).len() == 0 <==> forall|i: int|
            0 <= i < samples.len() ==> (#[trigger] samples[i]).bssid is None,
        sample::stations(samples).len() > 0 ==> exists|i: int|
            #[trigger] is_last_named(samples, i, samples.len() as int) && samples[i].bssid->0@
                == sample::stations(samples).last(),
    decreases samples.len(),
{
    if samples.len() > 0 {
        let shorter = samples.drop_last();
        let n = samples.len() - 1;
        let before = sample::stations(shorter);
        let after = sample::stations(samples);
        lemma_stations(shorter);
        assert(samples[n] == samples.last());
        assert forall|i: int| 0 <= i < n implies #[trigger] shorter[i] == samples[i] by {}
        assert forall|t: Seq<char>| #[trigger] after.contains(t) <==> exists|i: int|
            0 <= i < samples.len() && (#[trigger] samples[i]).bssid is Some && samples[i].bssid->0@
                == t by {
            if after.contains(t) {
                let k = after.index_of(t);
                if k < before.len() {
                    assert(before[k] == t);
                    assert(before.contains(t));
                    let i = choose|i: int|
                        0 <= i < shorter.len() && (#[trigger] shorter[i]).bssid is Some
                            && shorter[i].bssid->0@ == t;
                    assert(samples[i].bssid is Some);
                } else {
                    assert(samples[n].bssid is Some);
                }
            }
            if exists|i: int|
                0 <= i < samples.len() && (#[trigger] samples[i]).bssid is Some
                    && samples[i].bssid->0@ == t {
                let i = choose|i: int|
                    0 <= i < samples.len() && (#[trigger] samples[i]).bssid is Some
                        && samples[i].bssid->0@ == t;
                if i < n {
                    assert(shorter[i].bssid is Some);
                    assert(before.contains(t));
                    let k = before.index_of(t);
                    assert(after[k] == t);
                } else {
                    assert(after[after.len() - 1] == t);
                }
            }
        }
        if after.len() > 0 {
            if samples.last().bssid is Some {
                assert(is_last_named(samples, n, samples.len() as int));
            } else {
                let i = choose|i: int| #[trigger]
                    is_last_named(shorter, i, n) && shorter[i].bssid->0@ == before.last();
                assert forall|k: int| i < k < samples.len() implies (
                #[trigger] samples[k]).bssid is None by {
                    if k < n {
                        assert(shorter[k].bssid is None);
                    }
                }
                assert(is_last_named(samples, i, samples.len() as int));
            }
        }
        if samples.last().bssid is Some {
            assert(samples[n].bssid is Some);
        } else if before.len() > 0 {
            assert(exists|i: int| 0 <= i < n && (#[trigger] shorter[i]).bssid is Some);
            let i = choose|i: int| 0 <= i < n && (#[trigger] shorter[i]).bssid is Some;
            assert(samples[i].bssid is Some);
        } else {
            assert forall|i: int| 0 <= i < samples.len() implies (
            #[trigger] samples[i]).bssid is None by {
                if i < n {
                    assert(shorter[i].bssid is None);
                }
            }
        }
    }
}

proof fn lemma_changes(samples: Seq<Sample>)
    ensures
        changes(samples).finite(),
        changes(samples).len() == sample::transitions(sample::stations(samples)),
    decreases samples.len(),
{
    if samples.len() == 0 {
        assert(changes(samples) =~= Set::empty());
    } else {
        let shorter = samples.drop_last();
        let n = samples.len() - 1;
        let before = sample::stations(shorter);
        let after = sample::stations(samples);
        lemma_changes(shorter);
        lemma_stations(shorter);
        assert(samples[n] == samples.last());
        assert forall|i: int| 0 <= i < n implies #[trigger] shorter[i] == samples[i] by {}
        assert forall|j: int| 0 <= j < n implies changes_at(samples, j) == changes_at(
            shorter,
            j,
        ) by {
            assert forall|i: int| is_last_named(samples, i, j) == is_last_named(shorter, i, j) by {
                if is_last_named(samples, i, j) {
                    assert forall|k: int| i < k < j implies (#[trigger] shorter[k]).bssid is None by {
                        assert(samples[k].bssid is None);
                    }
                }
                if is_last_named(shorter, i, j) {
                    assert forall|k: int| i < k < j implies (#[trigger] samples[k]).bssid is None by {
                        assert(shorter[k].bssid is None);
                    }
                }
            }
            if changes_at(samples, j) {
                let i = choose|i: int| #[trigger]
                    is_last_named(samples, i, j) && samples[i].bssid->0@ != samples[j].bssid->0@;
                assert(is_last_named(shorter, i, j));
            }
            if changes_at(shorter, j) {
                let i = choose|i: int| #[trigger]
                    is_last_named(shorter, i, j) && shorter[i].bssid->0@ != shorter[j].bssid->0@;
                assert(is_last_named(samples, i, j));
            }
        }
        let grows = samples.last().bssid is Some && before.len() > 0 && before.last()
            != samples.last().bssid->0@;
        if samples.last().bssid is Some {
            assert(after.drop_last() =~= before);
            if before.len() > 0 {
                assert(after[after.len() - 2] == before.last());
                let i = choose|i: int| #[trigger]
                    is_last_named(shorter, i, n) && shorter[i].bssid->0@ == before.last();
                assert forall|k: int| i < k < n implies (#[trigger] samples[k]).bssid is None by {
                    assert(shorter[k].bssid is None);
                }
                assert(is_last_named(samples, i, n));
                assert(changes_at(samples, n) == grows) by {
                    if changes_at(samples, n) {
                        let m = choose|m: int| #[trigger]
                            is_last_named(samples, m, n) && samples[m].bssid->0@
                                != samples[n].bssid->0@;
                        if m < i {
                            assert(samples[i].bssid is None);
                        } else if i < m {
                            assert(samples[m].bssid is None);
                        }
                        assert(m == i);
                    }
                }
            } else {
                if changes_at(samples, n) {
                    let m = choose|m: int| #[trigger]
                        is_last_named(samples, m, n) && samples[m].bssid->0@
                            != samples[n].bssid->0@;
                    assert(shorter[m].bssid is None);
                }
            }
        }
        if grows {
            assert(changes(samples) =~= changes(shorter).insert(n));
        } else {
            assert(changes(samples) =~= changes(shorter));
        }
    }
}

/// A run counts the samples without an association, and the samples that name
/// another access point than the last one named before; it lists each access
/// point that a sample names, once.
pub proof fn lemma_runs_count_their_samples(run: SampleRun, samples: Seq<Sample>)
    requires
        sample::aggregates(run, samples),
    ensures
        run.sample_count == samples.len(),
        run.disconnected_samples == outages(samples).len(),
        run.roam_count == changes(samples).len(),
        text::texts(run.bssids_seen@).no_duplicates(),
        forall|t: Seq<char>| #[trigger]
            text::texts(run.bssids_seen@).contains(t) <==> exists|i: int|
                0 <= i < samples.len() && (#[trigger] samples[i]).bssid is Some
                    && samples[i].bssid->0@ == t,
{
    lemma_outages(samples);
    lemma_changes(samples);
    lemma_stations(samples);
    sample::lemma_distinct_has_no_repeats(sample::stations(samples));
    let seen = text::texts(run.bssids_seen@);
    assert forall|t: Seq<char>| #[trigger] seen.contains(t) <==> exists|i: int|
        0 <= i < samples.len() && (#[trigger] samples[i]).bssid is Some && samples[i].bssid->0@
            == t by {
        assert(sample::distinct(sample::stations(samples)).contains(t)
            <==> sample::stations(samples).contains(t));
    }
}

/// The levels that were read, from the first sample on.
pub open spec fn level_sum(samples: Seq<Sample>) -> int
    decreases samples.len(),
{
    if samples.len() == 0 {
        0
    } else {
        (match samples[0].rssi_dbm_estimate {
            Some(level) => level as int,
            None => 0,
        }) + level_sum(samples.drop_first())
    }
}

/// The places of samples with a level.
pub open spec fn readings(samples: Seq<Sample>) -> Set<int> {
    Set::new(|i: int| 0 <= i < samples.len() && samples[i].rssi_dbm_estimate is Some)
}

proof fn lemma_level_sum_push(samples: Seq<Sample>, last: Sample)
    ensures
        level_sum(samples.push(last)) == level_sum(samples) + (match last.rssi_dbm_estimate {
            Some(level) => level as int,
            None => 0,
        }),
    decreases samples.len(),
{
    let longer = samples.push(last);
    if samples.len() == 0 {
        assert(longer.drop_first() =~= samples);
        assert(longer[0] == last);
    } else {
        assert(longer[0] == samples[0]);
        assert(longer.drop_first() =~= samples.drop_first().push(last));
        lemma_level_sum_push(samples.drop_first(), last);
    }
}

proof fn lemma_levels(samples: Seq<Sample>)
    ensures
        sample::total(sample::levels(samples)) == level_sum(samples),
        readings(samples).finite(),
        readings(samples).len() == sample::levels(samples).len(),
        forall|v: int| #[trigger]
            sample::levels(samples).contains(v) <==> exists|i: int|
                0 <= i < samples.len() && (#[trigger] samples[i]).rssi_dbm_estimate == Some(
                    v as i32,
                ) && v as i32 == v,
    decreases samples.len(),
{
    if samples.len() == 0 {
        assert(readings(samples) =~= Set::empty());
    } else {
        let shorter = samples.drop_last();
        let n = samples.len() - 1;
        let before = sample::levels(shorter);
        let after = sample::levels(samples);
        lemma_levels(shorter);
        lemma_level_sum_push(shorter, samples.last());
        assert(shorter.push(samples.last()) =~= samples);
        assert(samples[n] == samples.last());
        assert forall|i: int| 0 <= i < n implies #[trigger] shorter[i] == samples[i] by {}
        if samples.last().rssi_dbm_estimate is Some {
            assert(readings(samples) =~= readings(shorter).insert(n));
            assert(after.drop_last() =~= before);
        } else {
            assert(readings(samples) =~= readings(shorter));
        }
        assert forall|v: int| #[trigger] after.contains(v) <==> exists|i: int|
            0 <= i < samples.len() && (#[trigger] samples[i]).rssi_dbm_estimate == Some(v as i32)
                && v as i32 == v by {
            if after.contains(v) {
                let k = after.index_of(v);
                if k < before.len() {
                    assert(before[k] == v);
                    assert(before.contains(v));
                    let i = choose|i: int|
                        0 <= i < shorter.len() && (#[trigger] shorter[i]).rssi_dbm_estimate == Some(
                            v as i32,
                        ) && v as i32 == v;
                    assert(samples[i].rssi_dbm_estimate == Some(v as i32));
                } else {
                    assert(samples[n].rssi_dbm_estimate == Some(v as i32));
                }
            }
            if exists|i: int|
                0 <= i < samples.len() && (#[trigger] samples[i]).rssi_dbm_estimate == Some(
                    v as i32,
                ) && v as i32 == v {
                let i = choose|i: int|
                    0 <= i < samples.len() && (#[trigger] samples[i]).rssi_dbm_estimate == Some(
                        v as i32,
                    ) && v as i32 == v;
                if i < n {
                    assert(shorter[i].rssi_dbm_estimate == Some(v as i32));
                    assert(before.contains(v));
                    let k = before.index_of(v);
                    assert(after[k] == v);
                } else {
                    assert(after[after.len() - 1] == v);
                }
            }
        }
    }
}

/// The extremes of a run are levels that were read, and no level lies outside
/// them; the swing is what lies between; the mean is the sum over the number of
/// levels, without its fraction. A run without a level has none of these.
pub proof fn lemma_runs_measure_their_levels(run: SampleRun, samples: Seq<Sample>)
    requires
        sample::aggregates(run, samples),
    ensures
        ({
            let count = readings(samples).len() as int;
            if count == 0 {
                &&& run.rssi_min_dbm is None
                &&& run.rssi_max_dbm is None
                &&& run.rssi_mean_dbm is None
                &&& run.rssi_swing_db is None
            } else {
                &&& run.rssi_min_dbm is Some && run.rssi_max_dbm is Some
                    && run.rssi_mean_dbm is Some && run.rssi_swing_db is Some
                &&& exists|i: int|
                    0 <= i < samples.len() && (#[trigger] samples[i]).rssi_dbm_estimate
                        == run.rssi_min_dbm
                &&& exists|i: int|
                    0 <= i < samples.len() && (#[trigger] samples[i]).rssi_dbm_estimate
                        == run.rssi_max_dbm
                &&& forall|i: int|
                    0 <= i < samples.len() && (#[trigger] samples[i]).rssi_dbm_estimate is Some
                        ==> run.rssi_min_dbm->0 <= samples[i].rssi_dbm_estimate->0
                        <= run.rssi_max_dbm->0
                &&& run.rssi_swing_db->0 == run.rssi_max_dbm->0 - run.rssi_min_dbm->0
                &&& level_sum(samples) >= 0 ==> 0 <= level_sum(samples) - run.rssi_mean_dbm->0
                    * count < count
                &&& level_sum(samples) <= 0 ==> 0 <= run.rssi_mean_dbm->0 * count - level_sum(
                    samples,
                ) < count
            }
        }),
{
    lemma_levels(samples);
    let all = sample::levels(samples);
    let count = all.len() as int;
    if count > 0 {
        assert(all.contains(all[0]));
        let low = run.rssi_min_dbm->0 as int;
        let high = run.rssi_max_dbm->0 as int;
        assert(all.contains(low));
        assert(all.contains(high));
        assert forall|i: int|
            0 <= i < samples.len() && (
            #[trigger] samples[i]).rssi_dbm_estimate is Some implies run.rssi_min_dbm->0
            <= samples[i].rssi_dbm_estimate->0 <= run.rssi_max_dbm->0 by {
            let v = samples[i].rssi_dbm_estimate->0 as int;
            assert(all.contains(v));
            let k = all.index_of(v);
            assert(all[k] == v);
        }
        let sum = sample::total(all);
        let mean = run.rssi_mean_dbm->0 as int;
        if sum >= 0 {
            vstd::arithmetic::div_mod::lemma_fundamental_div_mod(sum, count);
            vstd::arithmetic::div_mod::lemma_mod_bound(sum, count);
            assert(count * (sum / count) == (sum / count) * count) by (nonlinear_arith);
        } else {
            vstd::arithmetic::div_mod::lemma_fundamental_div_mod(-sum, count);
            vstd::arithmetic::div_mod::lemma_mod_bound(-sum, count);
            let q = (-sum) / count;
            assert(-(count * q) == (-q) * count) by (nonlinear_arith);
        }
        if sum == 0 {
            assert(mean * count - sum >= 0 && mean * count - sum < count) by {
                assert(sum / count == 0) by (nonlinear_arith)
                    requires
                        sum == 0,
                        count > 0,
                ;
                assert(mean == 0);
                assert(mean * count == 0) by (nonlinear_arith)
                    requires
                        mean == 0,
                ;
            }
        }
    } else {
        if run.rssi_min_dbm is Some {
            assert(all.contains(run.rssi_min_dbm->0 as int));
        }
        if run.rssi_max_dbm is Some {
            assert(all.contains(run.rssi_max_dbm->0 as int));
        }
    }
}

proof fn lemma_rates(samples: Seq<Sample>)
    ensures
        forall|v: int| #[trigger]
            sample::rates(samples).contains(v) <==> exists|i: int|
                0 <= i < samples.len() && (#[trigger] samples[i]).rx_rate_kbps == Some(v as u32)
                    && v as u32 == v,
    decreases samples.len(),
{
    if samples.len() > 0 {
        let shorter = samples.drop_last();
        let n = samples.len() - 1;
        let before = sample::rates(shorter);
        let after = sample::rates(samples);
        lemma_rates(shorter);
        assert(samples[n] == samples.last());
        assert forall|i: int| 0 <= i < n implies #[trigger] shorter[i] == samples[i] by {}
        assert forall|v: int| #[trigger] after.contains(v) <==> exists|i: int|
            0 <= i < samples.len() && (#[trigger] samples[i]).rx_rate_kbps == Some(v as u32) && v
                as u32 == v by {
            if after.contains(v) {
                let k = after.index_of(v);
                if k < before.len() {
                    assert(before[k] == v);
                    assert(before.contains(v));
                    let i = choose|i: int|
                        0 <= i < shorter.len() && (#[trigger] shorter[i]).rx_rate_kbps == Some(
                            v as u32,
                        ) && v as u32 == v;
                    assert(samples[i].rx_rate_kbps == Some(v as u32));
                } else {
                    assert(samples[n].rx_rate_kbps == Some(v as u32));
                }
            }
            if exists|i: int|
                0 <= i < samples.len() && (#[trigger] samples[i]).rx_rate_kbps == Some(v as u32)
                    && v as u32 == v {
                let i = choose|i: int|
                    0 <= i < samples.len() && (#[trigger] samples[i]).rx_rate_kbps == Some(v as u32)
                        && v as u32 == v;
                if i < n {
                    assert(shorter[i].rx_rate_kbps == Some(v as u32));
                    assert(before.contains(v));
                    let k = before.index_of(v);
                    assert(after[k] == v);
                } else {
                    assert(after[after.len() - 1] == v);
                }
            }
        }
    }
}

/// The extremes of the receive rate are rates that were read, and no rate lies
/// outside them.
pub proof fn lemma_runs_measure_their_rates(run: SampleRun, samples: Seq<Sample>, i: int)
    requires
        sample::aggregates(run, samples),
    ensures
        0 <= i < samples.len() && samples[i].rx_rate_kbps is Some ==> run.rx_rate_min_kbps is Some
            && run.rx_rate_max_kbps is Some && run.rx_rate_min_kbps->0
            <= samples[i].rx_rate_kbps->0 <= run.rx_rate_max_kbps->0,
        run.rx_rate_min_kbps is Some ==> exists|k: int|
            0 <= k < samples.len() && (#[trigger] samples[k]).rx_rate_kbps == run.rx_rate_min_kbps,
        run.rx_rate_max_kbps is Some ==> exists|k: int|
            0 <= k < samples.len() && (#[trigger] samples[k]).rx_rate_kbps == run.rx_rate_max_kbps,
{
    lemma_rates(samples);
    let all = sample::rates(samples);
    if 0 <= i < samples.len() && samples[i].rx_rate_kbps is Some {
        let v = samples[i].rx_rate_kbps->0 as int;
        assert(all.contains(v));
        let k = all.index_of(v);
        assert(all[k] == v);
    }
    if run.rx_rate_min_kbps is Some {
        assert(all.contains(run.rx_rate_min_kbps->0 as int));
    }
    if run.rx_rate_max_kbps is Some {
        assert(all.contains(run.rx_rate_max_kbps->0 as int));
    }
}

} // verus!
