//! The structures of `wlanapi.h`, field by field.

use vstd::prelude::*;

verus! {

/// `WLAN_API_VERSION_2_0` — the client version for Vista and later.
pub const WLAN_API_VERSION_2_0: u32 = 2;

/// `wlan_intf_opcode_current_connection` — 8th member of `WLAN_INTF_OPCODE`,
/// counting from `wlan_intf_opcode_autoconf_start = 0`.
pub const WLAN_INTF_OPCODE_CURRENT_CONNECTION: i32 = 7;

/// `dot11_BSS_type_any`.
pub const DOT11_BSS_TYPE_ANY: i32 = 3;

#[derive(Clone, Copy, Debug, PartialEq, Eq)]
pub struct Guid {
    pub data1: u32,
    pub data2: u16,
    pub data3: u16,
    pub data4: [u8; 8],
}

#[derive(Clone, Copy)]
pub struct Dot11Ssid {
    pub ssid_length: u32,
    pub ssid: [u8; 32],
}

#[derive(Clone, Copy)]
pub struct WlanInterfaceInfo {
    pub interface_guid: Guid,
    pub interface_description: [u16; 256],
    pub state: i32,
}

pub struct WlanInterfaceInfoList {
    pub num_items: u32,
    pub index: u32,
    /// Variable-length in C; `num_items` entries start here.
    pub interface_info: [WlanInterfaceInfo; 1],
}

#[derive(Clone, Copy)]
pub struct WlanAssociationAttributes {
    pub dot11_ssid: Dot11Ssid,
    pub dot11_bss_type: i32,
    pub dot11_bssid: [u8; 6],
    pub dot11_phy_type: i32,
    pub dot11_phy_index: u32,
    pub signal_quality: u32,
    pub rx_rate: u32,
    pub tx_rate: u32,
}

#[derive(Clone, Copy)]
pub struct WlanSecurityAttributes {
    pub security_enabled: i32,
    pub one_x_enabled: i32,
    pub dot11_auth_algorithm: i32,
    pub dot11_cipher_algorithm: i32,
}

pub struct WlanConnectionAttributes {
    pub state: i32,
    pub connection_mode: i32,
    pub profile_name: [u16; 256],
    pub association: WlanAssociationAttributes,
    pub security: WlanSecurityAttributes,
}

#[derive(Clone, Copy)]
pub struct WlanRateSet {
    pub rate_set_length: u32,
    pub rate_set: [u16; 126],
}

#[derive(Clone, Copy)]
pub struct WlanBssEntry {
    pub dot11_ssid: Dot11Ssid,
    pub phy_id: u32,
    pub dot11_bssid: [u8; 6],
    pub dot11_bss_type: i32,
    pub dot11_bss_phy_type: i32,
    pub rssi: i32,
    pub link_quality: u32,
    pub in_reg_domain: u8,
    pub beacon_period: u16,
    pub timestamp: u64,
    pub host_timestamp: u64,
    pub capability_information: u16,
    pub ch_center_frequency: u32,
    pub rate_set: WlanRateSet,
    pub ie_offset: u32,
    pub ie_size: u32,
}

pub struct WlanBssList {
    pub total_size: u32,
    pub num_items: u32,
    /// Variable-length in C; `num_items` entries start here.
    pub bss_entries: [WlanBssEntry; 1],
}

} // verus!
