//! The platform-neutral WLAN model: interfaces, associations and what is
//! derived from a signal reading.

pub mod analyze;
pub mod bss;
pub mod laws;
pub mod reading;
pub mod sample;
pub mod sys;

use crate::link;
use crate::link::Observation;
use crate::text;
use crate::text::{append_hex2, append_signed, copied};
use crate::wlan::sys::{Dot11Ssid, Guid};
use vstd::prelude::*;
use vstd::utf8::*;

verus! {

/// One WLAN interface of the machine.
#[derive(Debug, Clone, PartialEq, Eq)]
pub struct WlanInterface {
    pub guid: String,
    pub description: String,
    pub state: String,
}

/// The association an interface currently has.
#[derive(Debug, Clone, PartialEq, Eq)]
pub struct CurrentConnection {
    pub profile_name: Option<String>,
    pub ssid: Option<String>,
    pub bssid: Option<String>,
    pub phy_type: String,
    pub signal_quality: u32,
    pub rssi_dbm_estimate: i32,
    pub rx_rate_kbps: u32,
    pub tx_rate_kbps: u32,
}

/// One interface with its association. A query that failed leaves its message
/// in `connection_error`; that is no evidence of a disconnect.
#[derive(Debug, Clone, PartialEq, Eq)]
pub struct WifiStatus {
    pub interface: WlanInterface,
    pub connection: Option<CurrentConnection>,
    pub connection_error: Option<String>,
}

/// What a poll of the association says: an interface without an association is
/// a disconnected link.
pub open spec fn observed(connection: Option<CurrentConnection>) -> link::ObservationModel {
    match connection {
        Some(c) => link::ObservationModel {
            connected: true,
            ssid: text::opt_text(c.ssid),
            bssid: text::opt_text(c.bssid),
            rssi_dbm: Some(c.rssi_dbm_estimate),
        },
        None => link::ObservationModel {
            connected: false,
            ssid: None,
            bssid: None,
            rssi_dbm: None,
        },
    }
}

/// The observation that a poll of the association amounts to.
pub fn observation(connection: &Option<CurrentConnection>) -> (r: Observation)
    ensures
        r@ == observed(*connection),
{
    match connection {
        Some(c) => Observation {
            connected: true,
            ssid: copied(&c.ssid),
            bssid: copied(&c.bssid),
            rssi_dbm: Some(c.rssi_dbm_estimate),
        },
        None => Observation { connected: false, ssid: None, bssid: None, rssi_dbm: None },
    }
}

/// Signal quality in percent: 0 at -100 dBm and below, 100 at -50 dBm and
/// above, linear between.
pub open spec fn quality(rssi_dbm: int) -> int {
    if rssi_dbm <= -100 {
        0
    } else if rssi_dbm >= -50 {
        100
    } else {
        2 * (rssi_dbm + 100)
    }
}

/// Signal quality in percent for a level in dBm.
pub fn quality_from_rssi(rssi_dbm: i32) -> (r: u32)
    ensures
        r == quality(rssi_dbm as int),
{
    if rssi_dbm <= -100 {
        0
    } else if rssi_dbm >= -50 {
        100
    } else {
        (2 * (rssi_dbm + 100)) as u32
    }
}

/// Bytes as two hexadecimal digits each, separated by colons.
pub open spec fn colon_hex(bytes: Seq<u8>) -> Seq<char>
    decreases bytes.len(),
{
    if bytes.len() == 0 {
        seq![]
    } else if bytes.len() == 1 {
        text::hex2(bytes[0])
    } else {
        colon_hex(bytes.drop_last()).push(':') + text::hex2(bytes.last())
    }
}

/// Bytes in the notation of hardware addresses.
pub fn colon_separated(bytes: &[u8]) -> (r: String)
    ensures
        r@ == colon_hex(bytes@),
{
    let mut out = String::new();
    let mut i: usize = 0;
    while i < bytes.len()
        invariant
            i <= bytes.len(),
            out@ == colon_hex(bytes@.take(i as int)),
        decreases bytes.len() - i,
    {
        if i > 0 {
            out.push(':');
        }
        append_hex2(&mut out, bytes[i]);
        proof {
            let longer = bytes@.take(i + 1);
            assert(longer.drop_last() =~= bytes@.take(i as int));
            if i == 0 {
                assert(out@ =~= text::hex2(bytes@[0]));
            }
        }
        i = i + 1;
    }
    proof {
        assert(bytes@.take(i as int) =~= bytes@);
    }
    out
}

/// A hardware address as text.
pub fn mac_to_string(mac: &[u8; 6]) -> (r: String)
    ensures
        r@ == colon_hex(mac@),
{
    colon_separated(mac.as_slice())
}

/// What `String::from_utf8_lossy` makes of bytes.
pub uninterp spec fn lossy_utf8(bytes: Seq<u8>) -> Seq<char>;

/// `String::from_utf8_lossy` reads bytes as UTF-8, with a replacement
/// character for what is not; bytes that are valid UTF-8 are decoded.
#[verifier::external_body]
pub(crate) fn from_utf8_lossy(bytes: &[u8]) -> (r: String)
    ensures
        r@ == lossy_utf8(bytes@),
        valid_utf8(bytes@) ==> r@ == decode_utf8(bytes@),
{
    String::from_utf8_lossy(bytes).into_owned()
}

/// The bytes of a network name: as many as the length says and the field has.
pub open spec fn ssid_bytes(ssid: Dot11Ssid) -> Seq<u8> {
    if ssid.ssid_length < 32 {
        ssid.ssid@.take(ssid.ssid_length as int)
    } else {
        ssid.ssid@
    }
}

/// A network name as text; a hidden network has none.
pub fn ssid_to_string(ssid: &Dot11Ssid) -> (r: Option<String>)
    ensures
        text::opt_text(r) == (if ssid_bytes(*ssid).len() == 0 {
            None
        } else {
            Some(lossy_utf8(ssid_bytes(*ssid)))
        }),
{
    let len: usize = if ssid.ssid_length < 32 {
        ssid.ssid_length as usize
    } else {
        32
    };
    if len == 0 {
        return None;
    }
    let bytes = vstd::slice::slice_subrange(ssid.ssid.as_slice(), 0, len);
    proof {
        assert(bytes@ =~= ssid_bytes(*ssid));
    }
    Some(from_utf8_lossy(bytes))
}

/// The name of a PHY type.
pub open spec fn phy_name(value: i32) -> Seq<char> {
    if value == 4 {
        "ofdm"@
    } else if value == 5 {
        "hrdsss"@
    } else if value == 6 {
        "erp"@
    } else if value == 7 {
        "ht"@
    } else if value == 8 {
        "vht"@
    } else if value == 10 {
        "he"@
    } else if value == 11 {
        "eht"@
    } else {
        "unknown_"@ + text::signed_decimal(value as int)
    }
}

/// A PHY type as text.
pub fn phy_type(value: i32) -> (r: String)
    ensures
        r@ == phy_name(value),
{
    let name = match value {
        4 => "ofdm",
        5 => "hrdsss",
        6 => "erp",
        7 => "ht",
        8 => "vht",
        10 => "he",
        11 => "eht",
        _ => {
            let mut out = "unknown_".to_owned();
            append_signed(&mut out, value as i64);
            return out;
        },
    };
    name.to_owned()
}

/// The state of an interface.
pub open spec fn state_name(value: i32) -> Seq<char> {
    if value == 0 {
        "not_ready"@
    } else if value == 1 {
        "connected"@
    } else if value == 2 {
        "ad_hoc_network_formed"@
    } else if value == 3 {
        "disconnecting"@
    } else if value == 4 {
        "disconnected"@
    } else if value == 5 {
        "associating"@
    } else if value == 6 {
        "discovering"@
    } else if value == 7 {
        "authenticating"@
    } else {
        "unknown_"@ + text::signed_decimal(value as int)
    }
}

/// The state of an interface as text.
pub fn interface_state(value: i32) -> (r: String)
    ensures
        r@ == state_name(value),
{
    let name = match value {
        0 => "not_ready",
        1 => "connected",
        2 => "ad_hoc_network_formed",
        3 => "disconnecting",
        4 => "disconnected",
        5 => "associating",
        6 => "discovering",
        7 => "authenticating",
        _ => {
            let mut out = "unknown_".to_owned();
            append_signed(&mut out, value as i64);
            return out;
        },
    };
    name.to_owned()
}

/// Two bytes as four hexadecimal digits.
pub open spec fn hex4(value: u16) -> Seq<char> {
    text::hex2((value / 256) as u8) + text::hex2((value % 256) as u8)
}

/// A GUID in its usual form, in lower case and without braces.
pub open spec fn guid_text(guid: Guid) -> Seq<char> {
    hex4((guid.data1 / 65536) as u16) + hex4((guid.data1 % 65536) as u16) + "-"@ + hex4(guid.data2)
        + "-"@ + hex4(guid.data3) + "-"@ + text::hex2(guid.data4@[0]) + text::hex2(guid.data4@[1])
        + "-"@ + text::hex2(guid.data4@[2]) + text::hex2(guid.data4@[3]) + text::hex2(
        guid.data4@[4],
    ) + text::hex2(guid.data4@[5]) + text::hex2(guid.data4@[6]) + text::hex2(guid.data4@[7])
}

fn append_hex4(s: &mut String, value: u16)
    ensures
        final(s)@ == old(s)@ + hex4(value),
{
    append_hex2(s, (value / 256) as u8);
    append_hex2(s, (value % 256) as u8);
    proof {
        assert(s@ =~= old(s)@ + hex4(value));
    }
}

/// A GUID as text.
pub fn guid_to_string(guid: &Guid) -> (r: String)
    ensures
        r@ == guid_text(*guid),
{
    let mut out = String::new();
    append_hex4(&mut out, (guid.data1 / 65536) as u16);
    append_hex4(&mut out, (guid.data1 % 65536) as u16);
    out.append("-");
    append_hex4(&mut out, guid.data2);
    out.append("-");
    append_hex4(&mut out, guid.data3);
    out.append("-");
    append_hex2(&mut out, guid.data4[0]);
    append_hex2(&mut out, guid.data4[1]);
    out.append("-");
    append_hex2(&mut out, guid.data4[2]);
    append_hex2(&mut out, guid.data4[3]);
    append_hex2(&mut out, guid.data4[4]);
    append_hex2(&mut out, guid.data4[5]);
    append_hex2(&mut out, guid.data4[6]);
    append_hex2(&mut out, guid.data4[7]);
    proof {
        assert(out@ =~= guid_text(*guid));
    }
    out
}

/// The signal level that a quality in percent stands for: -100 dBm at 0, -50
/// dBm at 100, linear between.
pub fn rssi_from_quality(quality: u32) -> (r: i32)
    ensures
        r == (if quality >= 100 {
            -50int
        } else {
            quality as int / 2 - 100
        }),
{
    if quality >= 100 {
        -50
    } else {
        (quality / 2) as i32 - 100
    }
}

} // verus!
