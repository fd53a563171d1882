//! Laws of what is read from a radio: states, identifiers, list entries and
//! samples.

use crate::text;
use crate::wlan;
use crate::wlan::analyze::{analyze, Analysis};
use crate::wlan::bss;
use crate::wlan::bss::BssEntry;
use crate::wlan::laws::lemma_hex_digits_read_back;
use crate::wlan::sample;
use crate::wlan::sample::Sample;
use crate::wlan::sys::{Guid, WlanBssEntry};
use crate::wlan::{CurrentConnection, WifiStatus};
use vstd::prelude::*;

verus! {

/// Only the first state is a connection, and every state has a name of its own.
pub proof fn lemma_states_are_told_apart(a: i32, b: i32)
    requires
        0 <= a <= 7,
        0 <= b <= 7,
    ensures
        wlan::state_name(a) == "connected"@ <==> a == 1,
        wlan::state_name(a) == wlan::state_name(b) <==> a == b,
        wlan::state_name(0) == "not_ready"@,
        wlan::state_name(2) == "ad_hoc_network_formed"@,
        wlan::state_name(3) == "disconnecting"@,
        wlan::state_name(4) == "disconnected"@,
        wlan::state_name(5) == "associating"@,
        wlan::state_name(6) == "discovering"@,
        wlan::state_name(7) == "authenticating"@,
        wlan::state_name((a + 8) as i32) == "unknown_"@ + text::decimal((a + 8) as nat),
{
    reveal_strlit("not_ready");
    reveal_strlit("connected");
    reveal_strlit("ad_hoc_network_formed");
    reveal_strlit("disconnecting");
    reveal_strlit("disconnected");
    reveal_strlit("associating");
    reveal_strlit("discovering");
    reveal_strlit("authenticating");
    assert("not_ready"@.len() == 9 && "not_ready"@[0] == 'n');
    assert("connected"@.len() == 9 && "connected"@[0] == 'c');
    assert("ad_hoc_network_formed"@.len() == 21);
    assert("disconnecting"@.len() == 13);
    assert("disconnected"@.len() == 12);
    assert("associating"@.len() == 11 && "associating"@[0] == 'a');
    assert("discovering"@.len() == 11 && "discovering"@[0] == 'd');
    assert("authenticating"@.len() == 14);
}

/// A GUID is written in five groups, each of which reads as its part.
pub proof fn lemma_guids_read_back(guid: Guid, i: int)
    requires
        0 <= i < 8,
    ensures
        ({
            let written = wlan::guid_text(guid);
            let at = if i < 2 {
                19 + 2 * i
            } else {
                20 + 2 * i
            };
            &&& written.len() == 36
            &&& written[8] == '-' && written[13] == '-' && written[18] == '-' && written[23] == '-'
            &&& text::digits_value(written.subrange(0, 8), 16) == Some(guid.data1 as nat)
            &&& text::digits_value(written.subrange(9, 13), 16) == Some(guid.data2 as nat)
            &&& text::digits_value(written.subrange(14, 18), 16) == Some(guid.data3 as nat)
            &&& text::digits_value(written.subrange(at, at + 2), 16) == Some(guid.data4@[i] as nat)
        }),
{
    reveal_strlit("-");
    let written = wlan::guid_text(guid);
    let high = (guid.data1 / 65536) as u16;
    let low = (guid.data1 % 65536) as u16;
    lemma_words_read_back(high);
    lemma_words_read_back(low);
    lemma_words_read_back(guid.data2);
    lemma_words_read_back(guid.data3);
    assert forall|k: int| 0 <= k < 8 implies text::hex2(#[trigger] guid.data4@[k]).len() == 2 by {
        lemma_hex_digits_read_back(guid.data4@[k]);
    }
    lemma_hex_digits_read_back(guid.data4@[i]);
    assert(written.subrange(0, 8) =~= wlan::hex4(high) + wlan::hex4(low));
    lemma_digits_join(wlan::hex4(high), wlan::hex4(low), high as nat, low as nat);
    assert(high * 65536 + low == guid.data1);
    assert(written.subrange(9, 13) =~= wlan::hex4(guid.data2));
    assert(written.subrange(14, 18) =~= wlan::hex4(guid.data3));
    let at = if i < 2 {
        19 + 2 * i
    } else {
        20 + 2 * i
    };
    assert(written.subrange(at, at + 2) =~= text::hex2(guid.data4@[i]));
}

proof fn lemma_words_read_back(value: u16)
    ensures
        wlan::hex4(value).len() == 4,
        text::digits_value(wlan::hex4(value), 16) == Some(value as nat),
{
    let high = (value / 256) as u8;
    let low = (value % 256) as u8;
    lemma_hex_digits_read_back(high);
    lemma_hex_digits_read_back(low);
    let b = text::hex2(low);
    let all = wlan::hex4(value);
    let three = all.drop_last();
    let head = b.drop_last();
    reveal_with_fuel(text::digits_value, 3);
    assert(three.drop_last() =~= text::hex2(high));
    assert(head.drop_last() =~= seq![]);
    assert(three.last() == b[0] && head.last() == b[0]);
    assert(all.last() == b[1] && b.last() == b[1]);
    assert(high * 256 + low == value);
}

proof fn lemma_digits_join(a: Seq<char>, b: Seq<char>, high: nat, low: nat)
    requires
        b.len() == 4,
        text::digits_value(a, 16) == Some(high),
        text::digits_value(b, 16) == Some(low),
    ensures
        text::digits_value(a + b, 16) == Some(high * 65536 + low),
{
    let all = a + b;
    let b3 = b.drop_last();
    let b2 = b3.drop_last();
    let b1 = b2.drop_last();
    let a3 = all.drop_last();
    let a2 = a3.drop_last();
    let a1 = a2.drop_last();
    assert(b1.drop_last() =~= seq![]);
    assert(a1.drop_last() =~= a);
    assert(a1.last() == b[0] && b1.last() == b[0]);
    assert(a2.last() == b[1] && b2.last() == b[1]);
    assert(a3.last() == b[2] && b3.last() == b[2]);
    assert(all.last() == b[3] && b.last() == b[3]);
    reveal_with_fuel(text::digits_value, 6);
    assert(text::digits_value(b1, 16) is Some);
    assert(text::digits_value(b2, 16) is Some);
    assert(text::digits_value(b3, 16) is Some);
    let d0 = text::digit_value(b[0], 16)->0;
    let d1 = text::digit_value(b[1], 16)->0;
    let d2 = text::digit_value(b[2], 16)->0;
    let d3 = text::digit_value(b[3], 16)->0;
    assert(text::digits_value(b1, 16) == Some(d0));
    assert(text::digits_value(b2, 16) == Some(d0 * 16 + d1));
    assert(text::digits_value(b3, 16) == Some((d0 * 16 + d1) * 16 + d2));
    assert(low == ((d0 * 16 + d1) * 16 + d2) * 16 + d3);
    assert(text::digits_value(a1, 16) == Some(high * 16 + d0));
    assert(text::digits_value(a2, 16) == Some((high * 16 + d0) * 16 + d1));
    assert(text::digits_value(a3, 16) == Some(((high * 16 + d0) * 16 + d1) * 16 + d2));
}

/// The elements of an entry lie where it says, as far as it says both where and
/// how many, and no more of them than a beacon can carry.
pub proof fn lemma_elements_lie_where_the_entry_says(entry: WlanBssEntry)
    ensures
        ({
            let (start, end) = bss::ie_range(entry);
            &&& 0 <= end - start <= 4096
            &&& entry.ie_offset != 0 && 1 <= entry.ie_size <= 4096 ==> start == entry.ie_offset
                && end - start == entry.ie_size
            &&& entry.ie_offset == 0 || entry.ie_size == 0 || entry.ie_size > 4096 ==> start == end
        }),
{
}

/// An entry of the list is read field by field.
pub proof fn lemma_list_entries_are_read(
    entry: WlanBssEntry,
    allocation: &[u8],
    guid: &str,
    read: BssEntry,
)
    requires
        call_ensures(bss::read_entry, (&entry, allocation, guid), read),
    ensures
        read.interface_guid@ == guid@,
        read.bssid@ == wlan::colon_hex(entry.dot11_bssid@),
        read.ssid is None <==> entry.dot11_ssid.ssid_length == 0,
        read.rssi_dbm == entry.rssi,
        read.link_quality == entry.link_quality,
        read.center_frequency_khz == entry.ch_center_frequency,
        read.beacon_period_tu == entry.beacon_period,
        read.in_reg_domain <==> entry.in_reg_domain != 0,
        read.capability_information == entry.capability_information,
        read.timestamp == entry.timestamp,
        read.host_timestamp == entry.host_timestamp,
        read.reported_security is None,
        read.ie_data_complete,
{
}

/// The current association is that of the first interface that has one.
pub proof fn lemma_the_first_association_is_current(statuses: Seq<WifiStatus>, i: int)
    ensures
        (0 <= i < statuses.len() && statuses[i].connection is Some && forall|k: int|
            0 <= k < i ==> (#[trigger] statuses[k]).connection is None)
            ==> sample::current_association(statuses) == statuses[i].connection,
        (forall|k: int| 0 <= k < statuses.len() ==> (#[trigger] statuses[k]).connection is None)
            ==> sample::current_association(statuses) is None,
{
    if 0 <= i < statuses.len() && statuses[i].connection is Some && forall|k: int|
        0 <= k < i ==> (#[trigger] statuses[k]).connection is None {
        lemma_first_from(statuses, 0, i);
    }
    if forall|k: int| 0 <= k < statuses.len() ==> (#[trigger] statuses[k]).connection is None {
        lemma_none_from(statuses, 0);
    }
}

proof fn lemma_first_from(statuses: Seq<WifiStatus>, from: int, i: int)
    requires
        0 <= from <= i < statuses.len(),
        statuses[i].connection is Some,
        forall|k: int| from <= k < i ==> (#[trigger] statuses[k]).connection is None,
    ensures
        sample::first_associated(statuses, from) == Some(i),
    decreases i - from,
{
    if from < i {
        assert(statuses[from].connection is None);
        lemma_first_from(statuses, from + 1, i);
    }
}

proof fn lemma_none_from(statuses: Seq<WifiStatus>, from: int)
    requires
        0 <= from,
        forall|k: int| from <= k < statuses.len() ==> (#[trigger] statuses[k]).connection is None,
    ensures
        sample::first_associated(statuses, from) is None,
    decreases statuses.len() - from,
{
    if from < statuses.len() {
        assert(statuses[from].connection is None);
        lemma_none_from(statuses, from + 1);
    }
}

/// A sample has the values of the association at its time, and none without.
pub proof fn lemma_samples_have_the_values_of_the_association(
    read: Sample,
    elapsed_ms: u128,
    connection: Option<CurrentConnection>,
)
    requires
        sample::reads(read, elapsed_ms, connection),
    ensures
        read.elapsed_ms == elapsed_ms,
        read.connected <==> connection is Some,
        connection matches Some(c) ==> read.bssid == c.bssid && read.rssi_dbm_estimate == Some(
            c.rssi_dbm_estimate,
        ) && read.signal_quality == Some(c.signal_quality) && read.rx_rate_kbps == Some(
            c.rx_rate_kbps,
        ) && read.tx_rate_kbps == Some(c.tx_rate_kbps),
        connection is None ==> read.bssid is None && read.rssi_dbm_estimate is None
            && read.signal_quality is None && read.rx_rate_kbps is None
            && read.tx_rate_kbps is None,
{
}

/// A run lasts as long as was asked for, at least one second and at most two
/// minutes, and reads no oftener than four times a second; it ends where another
/// reading would lie behind its window.
pub proof fn lemma_runs_are_bounded(
    duration_s: u64,
    interval_ms: u64,
    bounds: (u64, u64),
    elapsed: u128,
    interval: u128,
    window: u128,
    closes: bool,
)
    requires
        call_ensures(sample::run_bounds, (duration_s, interval_ms), bounds),
        call_ensures(sample::window_closes, (elapsed, interval, window), closes),
    ensures
        1 <= bounds.0 <= 120,
        1 <= duration_s <= 120 ==> bounds.0 == duration_s,
        duration_s > 120 ==> bounds.0 == 120,
        bounds.1 >= 250,
        interval_ms >= 250 ==> bounds.1 == interval_ms,
        interval_ms < 250 ==> bounds.1 == 250,
        closes <==> elapsed + interval > window,
{
}

/// The level that a quality stands for has that quality, up to the half percent
/// that a whole dBm leaves out.
pub proof fn lemma_levels_have_their_quality(quality: u32, level: i32, again: u32)
    requires
        call_ensures(wlan::rssi_from_quality, (quality,), level),
        call_ensures(wlan::quality_from_rssi, (level,), again),
        quality <= 100,
    ensures
        -100 <= level <= -50,
        again <= quality <= again + 1,
        quality % 2 == 0 ==> again == quality,
{
}

/// A summary of a scan counts the entries and names the access point of the
/// association.
pub proof fn lemma_scans_are_summed_up(
    entries: Vec<BssEntry>,
    connection: Option<&CurrentConnection>,
    summary: Analysis,
)
    requires
        call_ensures(analyze, (&entries, connection), summary),
    ensures
        summary.bss_count == entries@.len(),
        connection is None ==> summary.associated_bssid is None,
        connection matches Some(c) ==> (summary.associated_bssid is Some <==> c.bssid is Some)
            && (c.bssid matches Some(bssid) ==> summary.associated_bssid->0@ == bssid@),
{
}

} // verus!
