use radiochron::connectivity::ip::linux;
use radiochron::connectivity::ip::linux::{LinuxFiles, NetworkProfile};
use radiochron::connectivity::ip::macos;
use radiochron::connectivity::ip::macos::{ServiceState, StoreQuery};
use radiochron::connectivity::ip::windows;
use radiochron::connectivity::ip::windows::Adapter;
use radiochron::connectivity::ip::{
    fallback_configuration, is_link_local, is_loopback, is_unspecified, IpAddress, LocalAddress,
};
use radiochron::connectivity::IpAssignment;

const ROUTES: &str = "Iface\tDestination\tGateway\tFlags\n\
                      wlan0\t0000A8C0\t00000000\t0001\n\
                      eth0\t00000000\t0101000A\t0003\n\
                      wlan0\t00000000\t0100A8C0\t0003\n";

fn selected(octets: [u8; 4], text: &str) -> Option<LocalAddress> {
    Some(LocalAddress {
        ip: IpAddress::V4(octets),
        text: text.into(),
    })
}

fn files() -> LinuxFiles {
    LinuxFiles {
        lease: None,
        other_leases: vec![],
        profile: None,
        routes: Some(ROUTES.into()),
    }
}

#[test]
fn addresses_are_told_apart() {
    assert!(is_unspecified(&IpAddress::V4([0; 4])));
    assert!(!is_unspecified(&IpAddress::V4([0, 0, 0, 1])));
    assert!(is_unspecified(&IpAddress::V6([0; 8])));
    assert!(is_loopback(&IpAddress::V4([127, 9, 9, 9])));
    assert!(is_loopback(&IpAddress::V6([0, 0, 0, 0, 0, 0, 0, 1])));
    assert!(!is_loopback(&IpAddress::V6([1, 0, 0, 0, 0, 0, 0, 1])));
    assert!(is_link_local(&IpAddress::V4([169, 254, 1, 1])));
    assert!(!is_link_local(&IpAddress::V4([169, 253, 1, 1])));
    assert!(is_link_local(&IpAddress::V6([0xfebf, 0, 0, 0, 0, 0, 0, 1])));
    assert!(!is_link_local(&IpAddress::V6([0xfec0, 0, 0, 0, 0, 0, 0, 1])));
}

#[test]
fn a_linux_lease_proves_dhcp() {
    let mut files = files();
    files.lease = Some("# lease\nADDRESS=192.168.0.7/24\nROUTER = \"192.168.0.1\"\n".into());
    let found = linux::platform_inspect(
        "ifindex:3",
        "wlan0",
        &selected([192, 168, 0, 9], "192.168.0.9"),
        &files,
    );
    assert_eq!(found.assignment, IpAssignment::Dhcp);
    assert_eq!(found.addresses, vec!["192.168.0.9", "192.168.0.7"]);
    assert_eq!(found.gateway.as_deref(), Some("192.168.0.1"));
    assert_eq!(
        found.evidence,
        "active systemd-networkd lease /run/systemd/netif/leases/3"
    );
    assert_eq!(linux::lease_path("4"), "/run/systemd/netif/leases/4");
    assert_eq!(linux::link_path("ifindex:4"), "/run/systemd/netif/links/4");
}

#[test]
fn a_linux_lease_of_another_client_has_to_match() {
    let mut files = files();
    files.other_leases = vec!["lease { interface \"wlan0\"; fixed-address 192.168.0.9; }".into()];
    let found = linux::platform_inspect(
        "3",
        "wlan0",
        &selected([192, 168, 0, 9], "192.168.0.9"),
        &files,
    );
    assert_eq!(found.assignment, IpAssignment::Dhcp);
    assert_eq!(found.gateway.as_deref(), Some("192.168.0.1"));
    let other = linux::platform_inspect(
        "3",
        "wlan0",
        &selected([192, 168, 0, 8], "192.168.0.8"),
        &files,
    );
    assert_eq!(other.assignment, IpAssignment::Unknown);
    assert_eq!(
        linux::platform_inspect("3", "wlan0", &None, &files).assignment,
        IpAssignment::Unknown
    );
}

#[test]
fn a_linux_profile_proves_a_static_address() {
    let mut files = files();
    files.profile = Some(NetworkProfile {
        path: "/etc/systemd/network/10.network".into(),
        contents: "[Network]\nDHCP=No\n Address=10.0.0.2/24\n".into(),
    });
    let found = linux::platform_inspect("3", "eth0", &None, &files);
    assert_eq!(found.assignment, IpAssignment::Static);
    assert_eq!(found.gateway.as_deref(), Some("10.0.1.1"));
    assert_eq!(
        linux::network_file("NETWORK_FILE=/a/b\n").as_deref(),
        Some("/a/b")
    );
    files.profile = Some(NetworkProfile {
        path: "p".into(),
        contents: "DHCP=yes\nAddress=10.0.0.2/24\n".into(),
    });
    let found = linux::platform_inspect(
        "3",
        "wlan1",
        &selected([169, 254, 0, 1], "169.254.0.1"),
        &files,
    );
    assert_eq!(found.assignment, IpAssignment::LinkLocal);
    assert_eq!(found.gateway, None);
}

fn service(interface: &str, method: Option<&str>, has_dhcp_info: bool) -> ServiceState {
    ServiceState {
        key: "State:/Network/Service/ABC/IPv4".into(),
        interface_name: Some(interface.into()),
        addresses: vec!["10.0.0.2".into()],
        router: Some("10.0.0.1".into()),
        has_dhcp_info,
        method: method.map(str::to_string),
    }
}

#[test]
fn macos_services_are_found_by_their_interface() {
    let query = StoreQuery::Services(vec![
        service("en1", Some("DHCP"), false),
        service("en0", Some("Manual"), false),
    ]);
    let found = macos::platform_inspect("en0", &selected([10, 0, 0, 2], "10.0.0.2"), &query);
    assert_eq!(found.assignment, IpAssignment::Static);
    assert_eq!(found.addresses, vec!["10.0.0.2"]);
    assert_eq!(
        found.evidence,
        "SystemConfiguration service ABC, ConfigMethod=Manual"
    );
    assert_eq!(
        macos::platform_inspect("en1", &None, &query).assignment,
        IpAssignment::Dhcp
    );
    assert_eq!(
        macos::platform_inspect("en9", &None, &query).evidence,
        "no SystemConfiguration IPv4 service matched the Wi-Fi interface"
    );
    let leased = StoreQuery::Services(vec![service("en0", None, true)]);
    let found = macos::platform_inspect("en0", &None, &leased);
    assert_eq!(found.assignment, IpAssignment::Dhcp);
    assert_eq!(
        found.evidence,
        "SystemConfiguration service ABC, ConfigMethod=unknown"
    );
    assert_eq!(macos::service_id("elsewhere"), "");
    assert_eq!(macos::setup_key("ABC"), "Setup:/Network/Service/ABC/IPv4");
    assert_eq!(
        macos::platform_inspect("en0", &None, &StoreQuery::NotMade).evidence,
        "could not create SystemConfiguration query"
    );
    assert_eq!(
        macos::platform_inspect("en0", &None, &StoreQuery::NoKeys).evidence,
        "SystemConfiguration returned no IPv4 service keys"
    );
}

#[test]
fn windows_adapters_are_found_by_their_guid() {
    let adapters = Some(vec![Adapter {
        name: "{ABC-1}".into(),
        dhcp_enabled: 1,
        addresses: vec!["192.0.2.7".into(), "0.0.0.0".into(), "".into()],
        gateways: vec!["0.0.0.0".into(), "192.0.2.1".into()],
    }]);
    let found = windows::platform_inspect(
        "abc-1",
        &selected([192, 0, 2, 9], "192.0.2.9"),
        &adapters,
    );
    assert_eq!(found.assignment, IpAssignment::Dhcp);
    assert_eq!(found.addresses, vec!["192.0.2.7", "192.0.2.9"]);
    assert_eq!(found.gateway.as_deref(), Some("192.0.2.1"));
    assert_eq!(
        found.evidence,
        "Windows IP Helper reports DhcpEnabled=1"
    );
    assert_eq!(
        windows::platform_inspect("other", &None, &adapters).evidence,
        "GetAdaptersInfo did not return the associated WLAN adapter"
    );
    assert_eq!(windows::c_string(b"eth\0rest"), "eth");
    assert_eq!(windows::c_string(b"\xffa"), "\u{fffd}a");
}

#[test]
fn a_fallback_knows_the_selected_address_alone() {
    let found = fallback_configuration(&selected([169, 254, 3, 4], "169.254.3.4"), "why");
    assert_eq!(found.assignment, IpAssignment::LinkLocal);
    assert_eq!(found.addresses, vec!["169.254.3.4"]);
    assert_eq!(found.gateway, None);
    assert_eq!(found.evidence, "why");
    assert_eq!(
        fallback_configuration(&None, "why").assignment,
        IpAssignment::Unknown
    );
}
