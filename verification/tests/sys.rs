use radiochron::wlan::sys::{Dot11Ssid, Guid, WlanBssEntry, WlanInterfaceInfo, WlanRateSet};

/// The structures hold as much as those of `wlanapi.h` do under the MSVC/mingw
/// x64 layout rules: a field that is missing or has the wrong type shows here.
/// Where the fields lie is up to the copies that the interface is called with,
/// which have the layout of C and are measured where they stand.
#[test]
fn struct_layouts_match_the_c_abi() {
    assert_eq!(std::mem::size_of::<Guid>(), 16);
    assert_eq!(std::mem::size_of::<Dot11Ssid>(), 36);
    assert_eq!(std::mem::size_of::<WlanRateSet>(), 256);
    // 4-byte aligned GUID + 512-byte description + 4-byte state.
    assert_eq!(std::mem::size_of::<WlanInterfaceInfo>(), 532);
    // Contains u64 fields, so the struct is 8-byte aligned.
    assert_eq!(std::mem::align_of::<WlanBssEntry>(), 8);
}
