//! ESP-IDF collector for RadioChron.
//!
//! The generic [`Driver`] boundary is host-testable; firmware implements it for
//! its Wi-Fi handle and hands over what the SDK reports as a [`ScanRecord`].

use crate::embedded;
use crate::embedded::{bss_entry, Collector};
use crate::text;
use crate::text::{as_deref, copied};
use crate::wlan;
use crate::wlan::bss;
use crate::wlan::bss::{BssEntry, SecurityMode};
use crate::wlan::{
    mac_to_string, quality_from_rssi, CurrentConnection, WifiStatus, WlanInterface,
};
use embedded_svc::wifi::Protocol;
use enumset::EnumSet;
use vstd::prelude::*;

verus! {

// ---------------------------------------------------------------------------
// What the SDK reports
// ---------------------------------------------------------------------------

/// How a network authenticates, as the SDK names it.
#[derive(Debug, Clone, Copy, PartialEq, Eq, Structural)]
pub enum AuthMethod {
    Open,
    Wep,
    Wpa,
    Wpa2Personal,
    WpaWpa2Personal,
    Wpa2Enterprise,
    Wpa3Personal,
    Wpa2Wpa3Personal,
    WapiPersonal,
}

/// A protocol set that an access point can support.
#[derive(Debug, Clone, Copy, PartialEq, Eq, Structural)]
pub enum PhyProtocol {
    B,
    Bg,
    Bgn,
    BgnLr,
    Lr,
}

/// The protocol sets that an access point supports, in an `EnumSet` of the SDK's
/// own protocols.
#[verifier::external_body]
pub struct ProtocolSet {
    set: EnumSet<Protocol>,
}

/// Which protocol sets are in a [`ProtocolSet`].
pub uninterp spec fn protocols_in(protocols: ProtocolSet) -> Set<PhyProtocol>;

impl ProtocolSet {
    /// The set of the protocol sets that the SDK lists.
    pub fn of(listed: &Vec<PhyProtocol>) -> (r: Self)
        ensures
            protocols_in(r) == listed@.to_set(),
    {
        let mut protocols = ProtocolSet::empty();
        let mut i: usize = 0;
        proof {
            assert(listed@.take(0).to_set() =~= Set::<PhyProtocol>::empty());
        }
        while i < listed.len()
            invariant
                i <= listed@.len(),
                protocols_in(protocols) == listed@.take(i as int).to_set(),
            decreases listed@.len() - i,
        {
            let ghost before = listed@.take(i as int);
            let _ = protocols.insert(listed[i]);
            proof {
                let upto = listed@.take(i + 1);
                assert(upto =~= before.push(listed@[i as int]));
                assert forall|protocol: PhyProtocol|
                    upto.to_set().contains(protocol) <==> before.to_set().insert(
                        listed@[i as int],
                    ).contains(protocol) by {
                    if upto.contains(protocol) {
                        let k = upto.index_of(protocol);
                        if k < i {
                            assert(before[k] == protocol);
                        }
                    }
                    if before.contains(protocol) {
                        let k = before.index_of(protocol);
                        assert(upto[k] == protocol);
                    }
                    assert(upto[i as int] == listed@[i as int]);
                }
                assert(upto.to_set() =~= before.to_set().insert(listed@[i as int]));
            }
            i = i + 1;
        }
        proof {
            assert(listed@.take(i as int) =~= listed@);
        }
        protocols
    }

    /// `EnumSet::empty` has nothing in it.
    #[verifier::external_body]
    fn empty() -> (r: Self)
        ensures
            protocols_in(r) == Set::<PhyProtocol>::empty(),
    {
        ProtocolSet { set: EnumSet::empty() }
    }

    /// `EnumSet::insert` adds one protocol set and leaves the others; it tells
    /// whether it was missing before.
    #[verifier::external_body]
    fn insert(&mut self, protocol: PhyProtocol) -> (r: bool)
        ensures
            protocols_in(*final(self)) == protocols_in(*old(self)).insert(protocol),
            r == !protocols_in(*old(self)).contains(protocol),
    {
        self.set.insert(match protocol {
            PhyProtocol::B => Protocol::P802D11B,
            PhyProtocol::Bg => Protocol::P802D11BG,
            PhyProtocol::Bgn => Protocol::P802D11BGN,
            PhyProtocol::BgnLr => Protocol::P802D11BGNLR,
            PhyProtocol::Lr => Protocol::P802D11LR,
        })
    }

    /// `EnumSet::contains` tells whether a protocol set is in the set.
    #[verifier::external_body]
    fn contains(&self, protocol: PhyProtocol) -> (r: bool)
        ensures
            r == protocols_in(*self).contains(protocol),
    {
        self.set.contains(match protocol {
            PhyProtocol::B => Protocol::P802D11B,
            PhyProtocol::Bg => Protocol::P802D11BG,
            PhyProtocol::Bgn => Protocol::P802D11BGN,
            PhyProtocol::BgnLr => Protocol::P802D11BGNLR,
            PhyProtocol::Lr => Protocol::P802D11LR,
        })
    }
}

/// One access point as the SDK reports it.
pub struct ScanRecord {
    /// Empty where the network is hidden.
    pub ssid: String,
    pub bssid: [u8; 6],
    pub channel: u8,
    pub signal_strength: i8,
    pub protocols: ProtocolSet,
    pub auth_method: Option<AuthMethod>,
}

/// Normalized subset returned by ESP-IDF's scan and associated-AP APIs.
#[derive(Debug, Clone, PartialEq, Eq)]
pub struct AccessPoint {
    pub ssid: Option<String>,
    pub bssid: [u8; 6],
    pub channel: u8,
    /// Supply an exact value when the SDK exposes band/frequency separately.
    pub center_frequency_khz: Option<u32>,
    pub signal_dbm: i32,
    pub phy_type: String,
    pub security: SecurityMode,
}

/// The name of the widest of several protocol sets.
pub open spec fn phy_name(protocols: Set<PhyProtocol>) -> Seq<char> {
    if protocols.contains(PhyProtocol::BgnLr) {
        "802.11b/g/n/lr"@
    } else if protocols.contains(PhyProtocol::Bgn) {
        "802.11b/g/n"@
    } else if protocols.contains(PhyProtocol::Bg) {
        "802.11b/g"@
    } else if protocols.contains(PhyProtocol::B) {
        "802.11b"@
    } else if protocols.contains(PhyProtocol::Lr) {
        "802.11lr"@
    } else {
        "unknown"@
    }
}

fn phy_type(protocols: &ProtocolSet) -> (r: String)
    ensures
        r@ == phy_name(protocols_in(*protocols)),
{
    let name = if protocols.contains(PhyProtocol::BgnLr) {
        "802.11b/g/n/lr"
    } else if protocols.contains(PhyProtocol::Bgn) {
        "802.11b/g/n"
    } else if protocols.contains(PhyProtocol::Bg) {
        "802.11b/g"
    } else if protocols.contains(PhyProtocol::B) {
        "802.11b"
    } else if protocols.contains(PhyProtocol::Lr) {
        "802.11lr"
    } else {
        "unknown"
    };
    name.to_owned()
}

/// The protection that an authentication method stands for.
pub open spec fn protection(method: Option<AuthMethod>) -> SecurityMode {
    match method {
        Some(AuthMethod::Open) => SecurityMode::Open,
        Some(AuthMethod::Wep) => SecurityMode::Wep,
        Some(AuthMethod::Wpa) => SecurityMode::WpaPersonal,
        Some(AuthMethod::Wpa2Personal) => SecurityMode::Wpa2Personal,
        Some(AuthMethod::WpaWpa2Personal) => SecurityMode::WpaWpa2Personal,
        Some(AuthMethod::Wpa2Enterprise) => SecurityMode::Wpa2Enterprise,
        Some(AuthMethod::Wpa3Personal) => SecurityMode::Wpa3Personal,
        Some(AuthMethod::Wpa2Wpa3Personal) => SecurityMode::Wpa2Wpa3Personal,
        Some(AuthMethod::WapiPersonal) => SecurityMode::WapiPersonal,
        None => SecurityMode::Unknown,
    }
}

fn security_mode(method: Option<AuthMethod>) -> (r: SecurityMode)
    ensures
        r == protection(method),
{
    match method {
        Some(AuthMethod::Open) => SecurityMode::Open,
        Some(AuthMethod::Wep) => SecurityMode::Wep,
        Some(AuthMethod::Wpa) => SecurityMode::WpaPersonal,
        Some(AuthMethod::Wpa2Personal) => SecurityMode::Wpa2Personal,
        Some(AuthMethod::WpaWpa2Personal) => SecurityMode::WpaWpa2Personal,
        Some(AuthMethod::Wpa2Enterprise) => SecurityMode::Wpa2Enterprise,
        Some(AuthMethod::Wpa3Personal) => SecurityMode::Wpa3Personal,
        Some(AuthMethod::Wpa2Wpa3Personal) => SecurityMode::Wpa2Wpa3Personal,
        Some(AuthMethod::WapiPersonal) => SecurityMode::WapiPersonal,
        None => SecurityMode::Unknown,
    }
}

/// Normalise what the SDK reports of an access point.
pub fn map_access_point(info: ScanRecord) -> (r: AccessPoint)
    ensures
        text::opt_text(r.ssid) == (if info.ssid@.len() == 0 {
            None
        } else {
            Some(info.ssid@)
        }),
        r.bssid == info.bssid,
        r.channel == info.channel,
        r.center_frequency_khz is None,
        r.signal_dbm == info.signal_strength,
        r.phy_type@ == phy_name(protocols_in(info.protocols)),
        r.security == protection(info.auth_method),
{
    let hidden = info.ssid.as_str().unicode_len() == 0;
    AccessPoint {
        ssid: if hidden {
            None
        } else {
            Some(info.ssid)
        },
        bssid: info.bssid,
        channel: info.channel,
        center_frequency_khz: None,
        signal_dbm: info.signal_strength as i32,
        phy_type: phy_type(&info.protocols),
        security: security_mode(info.auth_method),
    }
}

/// The center frequency of a channel: 14 has its own, 1 to 13 lie in the
/// 2.4 GHz band, the rest are counted from 5 GHz.
pub open spec fn frequency_of(channel: u8) -> int {
    if channel == 14 {
        2_484_000
    } else if 1 <= channel <= 13 {
        (2_407 + channel * 5) * 1_000
    } else {
        (5_000 + channel * 5) * 1_000
    }
}

/// The center frequency of a channel, in kHz.
pub fn channel_frequency_khz(channel: u8) -> (r: u32)
    ensures
        r == frequency_of(channel),
{
    match channel {
        14 => 2_484_000,
        1..=13 => (2_407 + channel as u32 * 5) * 1_000,
        _ => (5_000 + channel as u32 * 5) * 1_000,
    }
}

/// A channel's frequency leads back to the channel, in both bands that the
/// conversion covers.
pub proof fn lemma_channels_round_trip(channel: u8)
    requires
        channel <= 179,
    ensures
        bss::band_of(frequency_of(channel) as u32).1 == Some(channel as u16),
        bss::band_of(frequency_of(channel) as u32).0 == (if 1 <= channel <= 14 {
            "2.4GHz"@
        } else {
            "5GHz"@
        }),
{
}

// ---------------------------------------------------------------------------
// The driver boundary
// ---------------------------------------------------------------------------

/// Small testable boundary over ESP-IDF Wi-Fi operations.
///
/// What the radio answers is its own affair: `said_connected`, `said_associated`
/// and `said_visible` are relations by which an implementation may say it; one
/// that says nothing may do anything.
pub trait Driver: Sized {
    type Error;

    open spec fn said_connected(&self, after: Self, result: Result<bool, Self::Error>) -> bool {
        true
    }

    open spec fn said_associated(
        &self,
        after: Self,
        result: Result<Option<AccessPoint>, Self::Error>,
    ) -> bool {
        true
    }

    open spec fn said_visible(
        &self,
        before: Seq<AccessPoint>,
        after: Self,
        filled: Seq<AccessPoint>,
        result: Result<(), Self::Error>,
    ) -> bool {
        true
    }

    fn is_connected(&mut self) -> (r: Result<bool, Self::Error>)
        ensures
            old(self).said_connected(*final(self), r),
    ;

    fn associated_access_point(&mut self) -> (r: Result<Option<AccessPoint>, Self::Error>)
        ensures
            old(self).said_associated(*final(self), r),
    ;

    fn scan(&mut self, output: &mut Vec<AccessPoint>) -> (r: Result<(), Self::Error>)
        ensures
            old(self).said_visible(old(output)@, *final(self), final(output)@, r),
    ;
}

// ---------------------------------------------------------------------------
// Statuses and entries
// ---------------------------------------------------------------------------

/// The signal level that is assumed of an association without one.
pub open spec fn level_of(associated: Option<AccessPoint>) -> i32 {
    match associated {
        Some(ap) => ap.signal_dbm,
        None => -100i32,
    }
}

/// Whether `status` says that the station is connected, or not, to
/// `associated`.
pub open spec fn is_status(
    status: WifiStatus,
    interface_id: Seq<char>,
    connected: bool,
    associated: Option<AccessPoint>,
) -> bool {
    &&& status.interface.guid@ == interface_id
    &&& status.interface.description@ == "ESP-IDF station"@
    &&& status.interface.state@ == (if connected {
        "connected"@
    } else {
        "disconnected"@
    })
    &&& status.connection_error is None
    &&& match status.connection {
        Some(c) => {
            &&& connected
            &&& c.profile_name is None
            &&& text::opt_text(c.ssid) == (match associated {
                Some(ap) => text::opt_text(ap.ssid),
                None => None,
            })
            &&& text::opt_text(c.bssid) == (match associated {
                Some(ap) => Some(wlan::colon_hex(ap.bssid@)),
                None => None,
            })
            &&& c.phy_type@ == (match associated {
                Some(ap) => ap.phy_type@,
                None => "unknown"@,
            })
            &&& c.signal_quality == wlan::quality(level_of(associated) as int)
            &&& c.rssi_dbm_estimate == level_of(associated)
            &&& c.rx_rate_kbps == 0
            &&& c.tx_rate_kbps == 0
        },
        None => !connected,
    }
}

/// The status of a station that is connected, or not, to `associated`.
pub fn station_status(
    interface_id: &str,
    connected: bool,
    associated: &Option<AccessPoint>,
) -> (r: WifiStatus)
    ensures
        is_status(r, interface_id@, connected, *associated),
{
    let connection = if connected {
        let signal_dbm: i32 = match associated {
            Some(ap) => ap.signal_dbm,
            None => -100,
        };
        Some(
            CurrentConnection {
                profile_name: None,
                ssid: match associated {
                    Some(ap) => copied(&ap.ssid),
                    None => None,
                },
                bssid: match associated {
                    Some(ap) => Some(mac_to_string(&ap.bssid)),
                    None => None,
                },
                phy_type: match associated {
                    Some(ap) => ap.phy_type.clone(),
                    None => "unknown".to_owned(),
                },
                signal_quality: quality_from_rssi(signal_dbm),
                rssi_dbm_estimate: signal_dbm,
                rx_rate_kbps: 0,
                tx_rate_kbps: 0,
            },
        )
    } else {
        None
    };
    let state = if connected {
        "connected"
    } else {
        "disconnected"
    };
    WifiStatus {
        interface: WlanInterface {
            guid: interface_id.to_owned(),
            description: "ESP-IDF station".to_owned(),
            state: state.to_owned(),
        },
        connection,
        connection_error: None,
    }
}

/// The frequency of an access point: the SDK's, or that of its channel.
pub open spec fn frequency(ap: AccessPoint) -> int {
    match ap.center_frequency_khz {
        Some(khz) => khz as int,
        None => frequency_of(ap.channel),
    }
}

/// Whether `entry` is what `ap` says, and no more: the SDK exposes normalised
/// fields, not the raw beacon body, so the elements are never called complete.
pub open spec fn is_entry(entry: BssEntry, interface_id: Seq<char>, ap: AccessPoint) -> bool {
    exists|minimal: BssEntry| #[trigger] is_entry_from(entry, minimal, interface_id, ap)
}

/// Whether `entry` is `minimal`, the bare observation of `ap`, with the fields
/// that the SDK normalises filled in.
pub open spec fn is_entry_from(
    entry: BssEntry,
    minimal: BssEntry,
    interface_id: Seq<char>,
    ap: AccessPoint,
) -> bool {
    &&& embedded::is_observation(
        minimal,
        interface_id,
        text::opt_text(ap.ssid),
        ap.bssid@,
        ap.signal_dbm,
        frequency(ap) as u32,
        if ap.security != SecurityMode::Open {
            0x0010
        } else {
            0
        },
        Seq::empty(),
    )
    &&& entry == BssEntry {
        phy_type: ap.phy_type,
        reported_security: Some(ap.security),
        ie_data_complete: false,
        ..minimal
    }
}

/// The entry of one visible access point.
pub fn visible_entry(interface_id: &str, ap: &AccessPoint) -> (r: BssEntry)
    ensures
        is_entry(r, interface_id@, *ap),
{
    let frequency: u32 = match ap.center_frequency_khz {
        Some(khz) => khz,
        None => channel_frequency_khz(ap.channel),
    };
    let protected = ap.security != SecurityMode::Open;
    let none: [u8; 0] = [];
    let mut entry = bss_entry(
        interface_id,
        as_deref(&ap.ssid),
        ap.bssid,
        ap.signal_dbm,
        frequency,
        if protected {
            0x0010
        } else {
            0
        },
        none.as_slice(),
    );
    let ghost minimal = entry;
    proof {
        assert(none@ =~= Seq::empty());
    }
    entry.phy_type = ap.phy_type.clone();
    entry.reported_security = Some(ap.security);
    entry.ie_data_complete = false;
    proof {
        assert(is_entry_from(entry, minimal, interface_id@, *ap));
    }
    entry
}

// ---------------------------------------------------------------------------
// The collector
// ---------------------------------------------------------------------------

/// RadioChron collector owning an ESP-IDF Wi-Fi handle.
#[verifier::reject_recursive_types(D)]
pub struct EspIdfCollector<D> {
    driver: D,
    interface_id: String,
    scan_buffer: Vec<AccessPoint>,
}

impl<D> EspIdfCollector<D> {
    /// The Wi-Fi handle.
    pub closed spec fn handle(&self) -> D {
        self.driver
    }

    /// The name of the interface in statuses and entries.
    pub closed spec fn interface(&self) -> Seq<char> {
        self.interface_id@
    }

    pub fn new(driver: D) -> (r: Self)
        ensures
            r.handle() == driver,
            r.interface() == "wifi0"@,
    {
        Self::with_interface_id(driver, "wifi0")
    }

    pub fn with_interface_id(driver: D, interface_id: &str) -> (r: Self)
        ensures
            r.handle() == driver,
            r.interface() == interface_id@,
    {
        EspIdfCollector {
            driver,
            interface_id: interface_id.to_owned(),
            scan_buffer: Vec::new(),
        }
    }

    pub fn driver_mut(&mut self) -> (r: &mut D)
        ensures
            *r == old(self).handle(),
            final(self).handle() == *final(r),
            final(self).interface() == old(self).interface(),
    {
        &mut self.driver
    }

    pub fn into_inner(self) -> (r: D)
        ensures
            r == self.handle(),
    {
        self.driver
    }
}

/// Whether asking the driver for the association may turn it from `driver`
/// into `after` and fill `statuses`, by way of the answer `connected` that
/// leads to `between`, and of `associated` where there is a connection.
pub open spec fn asked_status<D: Driver>(
    driver: D,
    interface_id: Seq<char>,
    before: Seq<WifiStatus>,
    connected: Result<bool, D::Error>,
    between: D,
    associated: Result<Option<AccessPoint>, D::Error>,
    after: D,
    filled: Seq<WifiStatus>,
    result: Result<(), D::Error>,
) -> bool {
    &&& driver.said_connected(between, connected)
    &&& match connected {
        Err(error) => after == between && filled == before && result == Err::<(), D::Error>(error),
        Ok(false) => {
            &&& after == between
            &&& result is Ok
            &&& filled.len() == before.len() + 1
            &&& filled.drop_last() == before
            &&& is_status(filled.last(), interface_id, false, None)
        },
        Ok(true) => {
            &&& between.said_associated(after, associated)
            &&& match associated {
                Err(error) => filled == before && result == Err::<(), D::Error>(error),
                Ok(ap) => {
                    &&& result is Ok
                    &&& filled.len() == before.len() + 1
                    &&& filled.drop_last() == before
                    &&& is_status(filled.last(), interface_id, true, ap)
                },
            }
        },
    }
}

/// Whether asking the driver for a scan may turn it from `driver` into `after`
/// and fill `entries`, by way of the access points `visible`: one entry for
/// each, in order, unless the scan fails.
pub open spec fn asked_bss<D: Driver>(
    driver: D,
    interface_id: Seq<char>,
    before: Seq<BssEntry>,
    visible: Seq<AccessPoint>,
    after: D,
    filled: Seq<BssEntry>,
    result: Result<(), D::Error>,
) -> bool {
    &&& driver.said_visible(Seq::empty(), after, visible, result)
    &&& match result {
        Err(_) => filled == before,
        Ok(_) => {
            &&& filled.len() == before.len() + visible.len()
            &&& filled.take(before.len() as int) == before
            &&& forall|i: int|
                0 <= i < visible.len() ==> is_entry(
                    filled[before.len() + i],
                    interface_id,
                    #[trigger] visible[i],
                )
        },
    }
}

impl<D: Driver> Collector for EspIdfCollector<D> {
    type Error = D::Error;

    open spec fn read_status(
        &self,
        before: Seq<WifiStatus>,
        after: Self,
        filled: Seq<WifiStatus>,
        result: Result<(), D::Error>,
    ) -> bool {
        &&& after.interface() == self.interface()
        &&& exists|
            connected: Result<bool, D::Error>,
            between: D,
            associated: Result<Option<AccessPoint>, D::Error>,
        | #[trigger]
            asked_status(
                self.handle(),
                self.interface(),
                before,
                connected,
                between,
                associated,
                after.handle(),
                filled,
                result,
            )
    }

    open spec fn read_bss(
        &self,
        before: Seq<BssEntry>,
        after: Self,
        filled: Seq<BssEntry>,
        result: Result<(), D::Error>,
    ) -> bool {
        &&& after.interface() == self.interface()
        &&& exists|visible: Seq<AccessPoint>| #[trigger]
            asked_bss(
                self.handle(),
                self.interface(),
                before,
                visible,
                after.handle(),
                filled,
                result,
            )
    }

    fn collect_status(&mut self, output: &mut Vec<WifiStatus>) -> (r: Result<(), D::Error>) {
        let ghost start = *self;
        let ghost before = output@;
        let connected = self.driver.is_connected();
        let ghost between = self.driver;
        let is_up = match connected {
            Ok(up) => up,
            Err(error) => {
                proof {
                    assert(asked_status(
                        start.handle(),
                        start.interface(),
                        before,
                        connected,
                        between,
                        Ok(None),
                        self.handle(),
                        output@,
                        Err(error),
                    ));
                    assert(start.read_status(before, *self, output@, Err(error)));
                }
                return Err(error);
            },
        };
        if !is_up {
            output.push(station_status(self.interface_id.as_str(), false, &None));
            let r: Result<(), D::Error> = Ok(());
            proof {
                assert(output@.drop_last() =~= before);
                assert(asked_status(
                    start.handle(),
                    start.interface(),
                    before,
                    connected,
                    between,
                    Ok(None),
                    self.handle(),
                    output@,
                    r,
                ));
                assert(start.read_status(before, *self, output@, r));
            }
            return r;
        }
        let associated = self.driver.associated_access_point();
        match associated {
            Ok(ap) => {
                output.push(station_status(self.interface_id.as_str(), true, &ap));
                let r: Result<(), D::Error> = Ok(());
                proof {
                    assert(output@.drop_last() =~= before);
                    assert(asked_status(
                        start.handle(),
                        start.interface(),
                        before,
                        connected,
                        between,
                        associated,
                        self.handle(),
                        output@,
                        r,
                    ));
                }
                r
            },
            Err(error) => {
                proof {
                    assert(asked_status(
                        start.handle(),
                        start.interface(),
                        before,
                        connected,
                        between,
                        associated,
                        self.handle(),
                        output@,
                        Err(error),
                    ));
                }
                Err(error)
            },
        }
    }

    fn collect_bss(&mut self, output: &mut Vec<BssEntry>) -> (r: Result<(), D::Error>) {
        let ghost start = *self;
        let ghost before = output@;
        self.scan_buffer.clear();
        let scanned = self.driver.scan(&mut self.scan_buffer);
        let ghost visible = self.scan_buffer@;
        match scanned {
            Err(error) => {
                proof {
                    assert(asked_bss(
                        start.handle(),
                        start.interface(),
                        before,
                        visible,
                        self.handle(),
                        output@,
                        scanned,
                    ));
                }
                Err(error)
            },
            Ok(done) => {
                let mut i: usize = 0;
                proof {
                    assert(output@.take(before.len() as int) =~= before);
                }
                while i < self.scan_buffer.len()
                    invariant
                        i <= visible.len(),
                        self.scan_buffer@ == visible,
                        output@.len() == before.len() + i,
                        output@.take(before.len() as int) == before,
                        forall|k: int|
                            0 <= k < i ==> is_entry(
                                output@[before.len() + k],
                                self.interface(),
                                #[trigger] visible[k],
                            ),
                    decreases visible.len() - i,
                {
                    let entry = visible_entry(self.interface_id.as_str(), &self.scan_buffer[i]);
                    output.push(entry);
                    i = i + 1;
                    proof {
                        assert(output@.take(before.len() as int) =~= before);
                    }
                }
                self.scan_buffer.clear();
                proof {
                    assert(asked_bss(
                        start.handle(),
                        start.interface(),
                        before,
                        visible,
                        self.handle(),
                        output@,
                        scanned,
                    ));
                }
                Ok(done)
            },
        }
    }
}

// ---------------------------------------------------------------------------
// Laws
// ---------------------------------------------------------------------------

/// The widest protocol set names the radio: long range together with the
/// others, then 802.11n, g and b, and long range alone only where nothing else
/// is supported.
pub proof fn lemma_radios_are_named_by_their_widest_set(protocols: Set<PhyProtocol>)
    ensures
        phy_name(protocols) == "802.11b/g/n/lr"@ <==> protocols.contains(PhyProtocol::BgnLr),
        phy_name(protocols) == "802.11b/g/n"@ <==> protocols.contains(PhyProtocol::Bgn)
            && !protocols.contains(PhyProtocol::BgnLr),
        phy_name(protocols) == "802.11b/g"@ <==> protocols.contains(PhyProtocol::Bg)
            && !protocols.contains(PhyProtocol::Bgn) && !protocols.contains(PhyProtocol::BgnLr),
        phy_name(protocols) == "802.11b"@ <==> protocols.contains(PhyProtocol::B)
            && !protocols.contains(PhyProtocol::Bg) && !protocols.contains(PhyProtocol::Bgn)
            && !protocols.contains(PhyProtocol::BgnLr),
        phy_name(protocols) == "802.11lr"@ <==> protocols.contains(PhyProtocol::Lr)
            && protocols.subset_of(Set::empty().insert(PhyProtocol::Lr)),
        phy_name(protocols) == "unknown"@ <==> protocols == Set::<PhyProtocol>::empty(),
{
    reveal_strlit("802.11b/g/n/lr");
    reveal_strlit("802.11b/g/n");
    reveal_strlit("802.11b/g");
    reveal_strlit("802.11b");
    reveal_strlit("802.11lr");
    reveal_strlit("unknown");
    assert("802.11b/g/n/lr"@.len() == 14);
    assert("802.11b/g/n"@.len() == 11);
    assert("802.11b/g"@.len() == 9);
    assert("802.11b"@.len() == 7 && "802.11b"@[0] == '8');
    assert("802.11lr"@.len() == 8);
    assert("unknown"@.len() == 7 && "unknown"@[0] == 'u');
    let only = Set::<PhyProtocol>::empty().insert(PhyProtocol::Lr);
    if protocols.subset_of(only) {
        assert(protocols.contains(PhyProtocol::B) ==> only.contains(PhyProtocol::B));
        assert(protocols.contains(PhyProtocol::Bg) ==> only.contains(PhyProtocol::Bg));
        assert(protocols.contains(PhyProtocol::Bgn) ==> only.contains(PhyProtocol::Bgn));
        assert(protocols.contains(PhyProtocol::BgnLr) ==> only.contains(PhyProtocol::BgnLr));
    }
    if phy_name(protocols) == "unknown"@ {
        assert forall|p: PhyProtocol| !#[trigger] protocols.contains(p) by {
            match p {
                PhyProtocol::B => {},
                PhyProtocol::Bg => {},
                PhyProtocol::Bgn => {},
                PhyProtocol::BgnLr => {},
                PhyProtocol::Lr => {},
            }
        }
        assert(protocols =~= Set::empty());
    }
}

/// A network is open only where the SDK says so; what it does not say is
/// unknown; and different methods are different protections.
pub proof fn lemma_methods_are_told_apart(a: Option<AuthMethod>, b: Option<AuthMethod>)
    ensures
        protection(a) == SecurityMode::Open <==> a == Some(AuthMethod::Open),
        protection(a) == SecurityMode::Unknown <==> a is None,
        protection(a) == protection(b) <==> a == b,
        protection(Some(AuthMethod::Wep)) == SecurityMode::Wep,
        protection(Some(AuthMethod::Wpa)) == SecurityMode::WpaPersonal,
        protection(Some(AuthMethod::Wpa2Personal)) == SecurityMode::Wpa2Personal,
        protection(Some(AuthMethod::WpaWpa2Personal)) == SecurityMode::WpaWpa2Personal,
        protection(Some(AuthMethod::Wpa2Enterprise)) == SecurityMode::Wpa2Enterprise,
        protection(Some(AuthMethod::Wpa3Personal)) == SecurityMode::Wpa3Personal,
        protection(Some(AuthMethod::Wpa2Wpa3Personal)) == SecurityMode::Wpa2Wpa3Personal,
        protection(Some(AuthMethod::WapiPersonal)) == SecurityMode::WapiPersonal,
{
}

/// Neighbouring channels of a band lie 5 MHz apart: the first of the 2.4 GHz
/// band at 2412 MHz, the fourteenth 12 MHz above the thirteenth, and channel 36
/// at 5180 MHz.
pub proof fn lemma_channels_lie_five_megahertz_apart(channel: u8)
    requires
        channel < 255,
    ensures
        frequency_of(1) == 2_412_000,
        frequency_of(36) == 5_180_000,
        channel != 0 && channel != 13 && channel != 14 ==> frequency_of((channel + 1) as u8)
            == frequency_of(channel) + 5_000,
        frequency_of(14) == frequency_of(13) + 12_000,
{
}

/// What the SDK reports of an access point is kept: an empty name is a hidden
/// one, and everything else is as it was reported.
pub proof fn lemma_records_are_kept(info: ScanRecord, ap: AccessPoint)
    requires
        call_ensures(map_access_point, (info,), ap),
    ensures
        ap.ssid is None <==> info.ssid@.len() == 0,
        ap.ssid matches Some(ssid) ==> ssid@ == info.ssid@,
        ap.bssid == info.bssid,
        ap.channel == info.channel,
        ap.signal_dbm == info.signal_strength,
        ap.security == SecurityMode::Open <==> info.auth_method == Some(AuthMethod::Open),
        ap.center_frequency_khz is None,
{
    lemma_methods_are_told_apart(info.auth_method, None);
}

/// A station that is connected has a connection to the access point that it is
/// associated to, at that one's level, and one that is not has none.
pub proof fn lemma_statuses_say_the_association(
    status: WifiStatus,
    interface_id: Seq<char>,
    connected: bool,
    associated: Option<AccessPoint>,
)
    requires
        is_status(status, interface_id, connected, associated),
    ensures
        status.interface.guid@ == interface_id,
        status.connection is Some <==> connected,
        status.interface.state@ == "connected"@ <==> connected,
        status.interface.state@ == "disconnected"@ <==> !connected,
        status.connection_error is None,
        status.connection matches Some(c) ==> match associated {
            Some(ap) => {
                &&& c.rssi_dbm_estimate == ap.signal_dbm
                &&& text::opt_text(c.ssid) == text::opt_text(ap.ssid)
                &&& c.bssid matches Some(bssid) && bssid@ == wlan::colon_hex(ap.bssid@)
                &&& c.phy_type@ == ap.phy_type@
                &&& c.signal_quality == wlan::quality(ap.signal_dbm as int)
            },
            None => {
                &&& c.rssi_dbm_estimate == -100
                &&& c.signal_quality == 0
                &&& c.ssid is None
                &&& c.bssid is None
                &&& c.phy_type@ == "unknown"@
            },
        },
{
    reveal_strlit("connected");
    reveal_strlit("disconnected");
    assert("connected"@.len() == 9);
    assert("disconnected"@.len() == 12);
}

/// An entry says what the access point is, and has the privacy bit set exactly
/// where the network is not open; its elements are never called complete.
pub proof fn lemma_entries_say_the_access_point(
    entry: BssEntry,
    interface_id: Seq<char>,
    ap: AccessPoint,
)
    requires
        is_entry(entry, interface_id, ap),
    ensures
        entry.interface_guid@ == interface_id,
        text::opt_text(entry.ssid) == text::opt_text(ap.ssid),
        entry.bssid@ == wlan::colon_hex(ap.bssid@),
        entry.rssi_dbm == ap.signal_dbm,
        entry.link_quality == wlan::quality(ap.signal_dbm as int),
        entry.phy_type@ == ap.phy_type@,
        entry.reported_security == Some(ap.security),
        entry.capability_information == (if ap.security == SecurityMode::Open {
            0u16
        } else {
            16u16
        }),
        !entry.ie_data_complete,
        ap.center_frequency_khz matches Some(khz) ==> entry.center_frequency_khz == khz,
        ap.center_frequency_khz is None && ap.channel <= 179 ==> entry.channel == Some(
            ap.channel as u16,
        ) && entry.band@ == (if 1 <= ap.channel <= 14 {
            "2.4GHz"@
        } else {
            "5GHz"@
        }),
{
    lemma_channels_round_trip_where_they_can(ap.channel);
}

proof fn lemma_channels_round_trip_where_they_can(channel: u8)
    ensures
        channel <= 179 ==> bss::band_of(frequency_of(channel) as u32).1 == Some(channel as u16)
            && bss::band_of(frequency_of(channel) as u32).0 == (if 1 <= channel <= 14 {
            "2.4GHz"@
        } else {
            "5GHz"@
        }),
{
    if channel <= 179 {
        lemma_channels_round_trip(channel);
    }
}

/// Asking for the status fails exactly where one of the driver's answers is an
/// error, with that error and nothing added; otherwise one status is added,
/// which has a connection exactly where the driver says so.
pub proof fn lemma_driver_errors_are_passed_on<D: Driver>(
    driver: D,
    interface_id: Seq<char>,
    before: Seq<WifiStatus>,
    connected: Result<bool, D::Error>,
    between: D,
    associated: Result<Option<AccessPoint>, D::Error>,
    after: D,
    filled: Seq<WifiStatus>,
    result: Result<(), D::Error>,
)
    requires
        asked_status(
            driver,
            interface_id,
            before,
            connected,
            between,
            associated,
            after,
            filled,
            result,
        ),
    ensures
        connected matches Err(error) ==> result == Err::<(), D::Error>(error) && filled == before,
        connected matches Ok(up) ==> up ==> (associated matches Err(error) ==> result == Err::<
            (),
            D::Error,
        >(error) && filled == before),
        connected matches Ok(up) ==> !up || associated is Ok ==> {
            &&& result is Ok
            &&& filled.len() == before.len() + 1
            &&& filled.take(before.len() as int) == before
            &&& filled.last().connection is Some <==> up
            &&& filled.last().interface.guid@ == interface_id
        },
{
    if result is Ok {
        assert(filled.take(before.len() as int) =~= filled.drop_last());
    }
}

/// A scan adds one entry for each access point that the driver saw, in its order
/// and behind what was there, and one that failed adds nothing.
pub proof fn lemma_scans_are_listed_in_order<D: Driver>(
    driver: D,
    interface_id: Seq<char>,
    before: Seq<BssEntry>,
    visible: Seq<AccessPoint>,
    after: D,
    filled: Seq<BssEntry>,
    result: Result<(), D::Error>,
    i: int,
)
    requires
        asked_bss(driver, interface_id, before, visible, after, filled, result),
        0 <= i < visible.len(),
    ensures
        result is Err ==> filled == before,
        result is Ok ==> {
            &&& filled.len() == before.len() + visible.len()
            &&& filled.take(before.len() as int) == before
            &&& filled[before.len() + i].bssid@ == wlan::colon_hex(visible[i].bssid@)
            &&& filled[before.len() + i].rssi_dbm == visible[i].signal_dbm
            &&& filled[before.len() + i].interface_guid@ == interface_id
        },
{
    if result is Ok {
        lemma_entries_say_the_access_point(filled[before.len() + i], interface_id, visible[i]);
    }
}

} // verus!
