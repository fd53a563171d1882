//! Bare-metal integration for Wi-Fi firmware SDKs.
//!
//! RadioChron does not guess which vendor owns the radio. Firmware translates
//! its SDK's association and scan callbacks into the platform-neutral WLAN
//! types, while this module handles snapshot reuse and analysis.

pub mod chronicle;

use crate::text;
use crate::text::owned;
use crate::wlan;
use crate::wlan::analyze::{analyze, Analysis};
use crate::wlan::bss;
use crate::wlan::bss::{band_and_channel, parse_information_elements, BssEntry};
use crate::wlan::sample;
use crate::wlan::sample::first_connection;
use crate::wlan::{mac_to_string, quality_from_rssi, WifiStatus};
use vstd::prelude::*;

verus! {

/// Firmware-side collector contract.
///
/// Implement this for ESP-IDF, Zephyr, Embassy or a vendor HAL. Implementors
/// append to the supplied vectors so a long-running task can reuse capacity and
/// avoid allocating a fresh scan buffer on every poll.
///
/// What a collector finds is its own affair: `read_status` and `read_bss` are
/// relations by which an implementation may say it; one that says nothing may do
/// anything.
pub trait Collector: Sized {
    type Error;

    /// Whether reading the associations may turn `self` into `after` and
    /// `before` into `filled`, and return `result`.
    open spec fn read_status(
        &self,
        before: Seq<WifiStatus>,
        after: Self,
        filled: Seq<WifiStatus>,
        result: Result<(), Self::Error>,
    ) -> bool {
        true
    }

    /// Whether reading the scan may turn `self` into `after` and `before` into
    /// `filled`, and return `result`.
    open spec fn read_bss(
        &self,
        before: Seq<BssEntry>,
        after: Self,
        filled: Seq<BssEntry>,
        result: Result<(), Self::Error>,
    ) -> bool {
        true
    }

    fn collect_status(&mut self, output: &mut Vec<WifiStatus>) -> (r: Result<(), Self::Error>)
        ensures
            old(self).read_status(old(output)@, *final(self), final(output)@, r),
    ;

    fn collect_bss(&mut self, output: &mut Vec<BssEntry>) -> (r: Result<(), Self::Error>)
        ensures
            old(self).read_bss(old(output)@, *final(self), final(output)@, r),
    ;
}

/// Reusable capture buffer for a firmware task.
#[derive(Debug)]
pub struct Snapshot {
    pub statuses: Vec<WifiStatus>,
    pub bss: Vec<BssEntry>,
}

/// Whether a refresh may turn `collector` into `after` and fill a snapshot with
/// `statuses` and `bss`, by way of the status query that leads to `between` and
/// returns `queried`: both buffers start empty, and a failed status query keeps
/// the scan from being read.
pub open spec fn refreshed_via<C: Collector>(
    collector: C,
    between: C,
    queried: Result<(), C::Error>,
    after: C,
    statuses: Seq<WifiStatus>,
    bss: Seq<BssEntry>,
    result: Result<(), C::Error>,
) -> bool {
    &&& collector.read_status(Seq::empty(), between, statuses, queried)
    &&& match queried {
        Ok(_) => between.read_bss(Seq::empty(), after, bss, result),
        Err(_) => after == between && bss == Seq::<BssEntry>::empty() && result == queried,
    }
}

impl Default for Snapshot {
    fn default() -> (r: Self)
        ensures
            r.statuses@ == Seq::<WifiStatus>::empty(),
            r.bss@ == Seq::<BssEntry>::empty(),
    {
        Snapshot::new()
    }
}

impl Snapshot {
    /// A snapshot without observations.
    pub fn new() -> (r: Self)
        ensures
            r.statuses@ == Seq::<WifiStatus>::empty(),
            r.bss@ == Seq::<BssEntry>::empty(),
    {
        Snapshot { statuses: Vec::new(), bss: Vec::new() }
    }

    /// Replace this snapshot with the latest firmware observations.
    ///
    /// On an error the buffers can contain a partial capture and must not be
    /// treated as a complete scan.
    pub fn refresh<C: Collector>(&mut self, collector: &mut C) -> (r: Result<(), C::Error>)
        ensures
            exists|between: C, queried: Result<(), C::Error>| #[trigger]
                refreshed_via(
                    *old(collector),
                    between,
                    queried,
                    *final(collector),
                    final(self).statuses@,
                    final(self).bss@,
                    r,
                ),
    {
        self.statuses.clear();
        self.bss.clear();
        let ghost start = *collector;
        let queried = collector.collect_status(&mut self.statuses);
        let ghost between = *collector;
        match queried {
            Ok(_) => {
                let r = collector.collect_bss(&mut self.bss);
                proof {
                    assert(refreshed_via(
                        start,
                        between,
                        queried,
                        *collector,
                        self.statuses@,
                        self.bss@,
                        r,
                    ));
                }
                r
            },
            Err(error) => {
                proof {
                    assert(refreshed_via(
                        start,
                        between,
                        queried,
                        *collector,
                        self.statuses@,
                        self.bss@,
                        queried,
                    ));
                }
                Err(error)
            },
        }
    }

    /// Analyze the scan against the first associated interface, if any.
    pub fn analyze(&self) -> (r: Analysis)
        ensures
            r.bss_count == self.bss@.len(),
            text::opt_text(r.associated_bssid) == (match sample::current_association(
                self.statuses@,
            ) {
                Some(c) => text::opt_text(c.bssid),
                None => None,
            }),
    {
        analyze(&self.bss, first_connection(&self.statuses))
    }
}

/// Whether `entry` is the full form of the observation that firmware commonly
/// has of a BSS; what it does not have is marked as unknown.
pub open spec fn is_observation(
    entry: BssEntry,
    interface_id: Seq<char>,
    ssid: Option<Seq<char>>,
    bssid: Seq<u8>,
    rssi_dbm: i32,
    center_frequency_khz: u32,
    capability_information: u16,
    information_elements: Seq<u8>,
) -> bool {
    &&& entry.interface_guid@ == interface_id
    &&& text::opt_text(entry.ssid) == ssid
    &&& entry.bssid@ == wlan::colon_hex(bssid)
    &&& entry.bss_type@ == "infrastructure"@
    &&& entry.phy_type@ == "unknown"@
    &&& entry.rssi_dbm == rssi_dbm
    &&& entry.link_quality == wlan::quality(rssi_dbm as int)
    &&& entry.center_frequency_khz == center_frequency_khz
    &&& (entry.band@, entry.channel) == bss::band_of(center_frequency_khz)
    &&& entry.beacon_period_tu == 0
    &&& !entry.in_reg_domain
    &&& entry.capability_information == capability_information
    &&& entry.reported_security is None
    &&& entry.timestamp == 0
    &&& entry.host_timestamp == 0
    &&& entry.rates_half_mbps@ == Seq::<u16>::empty()
    &&& entry.ie_data_complete
    &&& bss::summarises(entry.information_elements, information_elements)
}

/// Convert the minimum observation commonly exposed by firmware Wi-Fi SDKs
/// into RadioChron's full BSS model.
///
/// Callers may fill optional SDK-specific fields (PHY, rates, beacon period,
/// timestamps and regulatory-domain state) on the returned public struct.
pub fn bss_entry(
    interface_id: &str,
    ssid: Option<&str>,
    bssid: [u8; 6],
    rssi_dbm: i32,
    center_frequency_khz: u32,
    capability_information: u16,
    information_elements: &[u8],
) -> (r: BssEntry)
    ensures
        is_observation(
            r,
            interface_id@,
            text::opt_str(ssid),
            bssid@,
            rssi_dbm,
            center_frequency_khz,
            capability_information,
            information_elements@,
        ),
{
    let (band, channel) = band_and_channel(center_frequency_khz);
    BssEntry {
        interface_guid: interface_id.to_owned(),
        ssid: owned(ssid),
        bssid: mac_to_string(&bssid),
        bss_type: "infrastructure".to_owned(),
        phy_type: "unknown".to_owned(),
        rssi_dbm,
        link_quality: quality_from_rssi(rssi_dbm),
        center_frequency_khz,
        band,
        channel,
        beacon_period_tu: 0,
        in_reg_domain: false,
        capability_information,
        reported_security: None,
        timestamp: 0,
        host_timestamp: 0,
        rates_half_mbps: Vec::new(),
        ie_data_complete: true,
        information_elements: parse_information_elements(information_elements),
    }
}

// ---------------------------------------------------------------------------
// Laws
// ---------------------------------------------------------------------------

/// A refresh starts from nothing: what it holds is what the collector read into
/// empty buffers, and where the associations could not be read there is no scan
/// and the failure is returned.
pub proof fn lemma_refreshes_start_from_nothing<C: Collector>(
    collector: C,
    between: C,
    queried: Result<(), C::Error>,
    after: C,
    statuses: Seq<WifiStatus>,
    bss: Seq<BssEntry>,
    result: Result<(), C::Error>,
)
    requires
        refreshed_via(collector, between, queried, after, statuses, bss, result),
    ensures
        collector.read_status(seq![], between, statuses, queried),
        queried is Err ==> bss.len() == 0 && result == queried && after == between,
        queried is Ok ==> between.read_bss(seq![], after, bss, result),
        result is Ok ==> queried is Ok,
{
}

/// A bare observation says what was observed; nothing is claimed of what was
/// not.
pub proof fn lemma_observations_claim_no_more(
    entry: BssEntry,
    interface_id: Seq<char>,
    ssid: Option<Seq<char>>,
    bssid: Seq<u8>,
    rssi_dbm: i32,
    center_frequency_khz: u32,
    capability_information: u16,
    information_elements: Seq<u8>,
)
    requires
        is_observation(
            entry,
            interface_id,
            ssid,
            bssid,
            rssi_dbm,
            center_frequency_khz,
            capability_information,
            information_elements,
        ),
    ensures
        entry.interface_guid@ == interface_id,
        text::opt_text(entry.ssid) == ssid,
        entry.bssid@ == wlan::colon_hex(bssid),
        entry.rssi_dbm == rssi_dbm,
        entry.center_frequency_khz == center_frequency_khz,
        entry.capability_information == capability_information,
        entry.reported_security is None,
        entry.rates_half_mbps@.len() == 0,
        !entry.in_reg_domain,
        entry.beacon_period_tu == 0 && entry.timestamp == 0 && entry.host_timestamp == 0,
        entry.ie_data_complete,
{
}

} // verus!
