//! Linux: leases, network profiles and the routing table, from the contents of
//! the files that hold them.

use super::{assignment_of, lists_text, selected_list, LocalAddress};
use crate::connectivity;
use crate::connectivity::ip;
use crate::connectivity::probe::{join2, join3};
use crate::connectivity::{IpAssignment, IpConfiguration};
use crate::scan;
use crate::scan::{
    contains, find, matches_at, split_lines, split_once, split_words, strip_prefix, trim, Class,
};
use crate::text;
use crate::text::{append_decimal, chars_of, read_unsigned, same_chars, string_of};
use vstd::prelude::*;

verus! {

// ---------------------------------------------------------------------------
// Settings
// ---------------------------------------------------------------------------

/// The value that a `KEY=value` line gives to `name`, without white space and
/// quotes around it.
pub open spec fn setting_in(line: Seq<char>, name: Seq<char>) -> Option<Seq<char>> {
    match scan::cut(line, '=') {
        Some(parts) => if scan::trimmed(parts.0, Class::Space) == name {
            Some(scan::trimmed(scan::trimmed(parts.1, Class::Space), Class::Quote))
        } else {
            None
        },
        None => None,
    }
}

/// The value that the first line from `i` on gives to `name`.
pub open spec fn setting_from(lines: Seq<Seq<char>>, name: Seq<char>, i: int) -> Option<Seq<char>>
    decreases lines.len() - i,
{
    if i < 0 || i >= lines.len() {
        None
    } else if setting_in(lines[i], name) is Some {
        setting_in(lines[i], name)
    } else {
        setting_from(lines, name, i + 1)
    }
}

/// The value that a file gives to `name`.
pub open spec fn setting(contents: Seq<char>, name: Seq<char>) -> Option<Seq<char>> {
    setting_from(scan::lines(contents), name, 0)
}

/// The value that a file gives to `name`: that of the first line that has it.
pub fn value(contents: &str, name: &str) -> (r: Option<String>)
    ensures
        text::opt_text(r) == setting(contents@, name@),
{
    let chars = chars_of(contents);
    let wanted = chars_of(name);
    let lines = split_lines(chars.as_slice());
    let ghost all = scan::lines(contents@);
    let mut i: usize = 0;
    while i < lines.len()
        invariant
            i <= lines@.len(),
            all == scan::lines(contents@),
            lines@.len() == all.len(),
            forall|k: int| 0 <= k < lines@.len() ==> (#[trigger] lines@[k])@ == all[k],
            wanted@ == name@,
            setting(contents@, name@) == setting_from(all, name@, i as int),
        decreases lines@.len() - i,
    {
        proof {
            assert(lines@[i as int]@ == all[i as int]);
        }
        if let Some((key, rest)) = split_once(lines[i], '=') {
            if same_chars(trim(key, Class::Space), wanted.as_slice()) {
                return Some(string_of(trim(trim(rest, Class::Space), Class::Quote)));
            }
        }
        i = i + 1;
    }
    None
}

// ---------------------------------------------------------------------------
// Leases and routes
// ---------------------------------------------------------------------------

/// Whether a lease file speaks of `address` on `interface`.
pub open spec fn lease_names(lease: Seq<char>, address: Seq<char>, interface: Seq<char>) -> bool {
    scan::holds(lease, address) && (scan::holds(lease, "interface \""@ + interface + "\""@)
        || scan::holds(lease, "fixed-address"@) || scan::holds(lease, "ADDRESS="@))
}

/// Whether some lease file speaks of the selected address.
pub open spec fn lease_matches(
    leases: Seq<String>,
    interface: Seq<char>,
    selected: Option<LocalAddress>,
) -> bool {
    match selected {
        Some(local) => exists|i: int|
            0 <= i < leases.len() && lease_names(
                (#[trigger] leases[i])@,
                local.text@,
                interface,
            ),
        None => false,
    }
}

fn network_manager_lease_matches(
    leases: &Vec<String>,
    interface: &str,
    selected: &Option<LocalAddress>,
) -> (r: bool)
    ensures
        r == lease_matches(leases@, interface@, *selected),
{
    let local = match selected {
        Some(local) => local,
        None => {
            return false;
        },
    };
    let needle = chars_of(local.text.as_str());
    let marker_text = join3("interface \"", interface, "\"");
    let marker = chars_of(marker_text.as_str());
    let fixed = chars_of("fixed-address");
    let address = chars_of("ADDRESS=");
    let mut i: usize = 0;
    while i < leases.len()
        invariant
            i <= leases@.len(),
            *selected == Some(*local),
            needle@ == local.text@,
            marker@ == "interface \""@ + interface@ + "\""@,
            fixed@ == "fixed-address"@,
            address@ == "ADDRESS="@,
            forall|k: int|
                0 <= k < i ==> !lease_names((#[trigger] leases@[k])@, local.text@, interface@),
        decreases leases@.len() - i,
    {
        let lease = chars_of(leases[i].as_str());
        if contains(lease.as_slice(), needle.as_slice()) && (contains(
            lease.as_slice(),
            marker.as_slice(),
        ) || contains(lease.as_slice(), fixed.as_slice()) || contains(
            lease.as_slice(),
            address.as_slice(),
        )) {
            proof {
                assert(lease_names(leases@[i as int]@, local.text@, interface@));
            }
            return true;
        }
        i = i + 1;
    }
    false
}

/// An IPv4 address whose octets are the bytes of `raw`, the lowest first.
pub open spec fn dotted(raw: nat) -> Seq<char> {
    text::decimal(raw % 256) + "."@ + text::decimal(raw / 256 % 256) + "."@ + text::decimal(
        raw / 65_536 % 256,
    ) + "."@ + text::decimal(raw / 16_777_216 % 256)
}

/// The gateway that a line of the routing table gives: that of the interface's
/// default route.
pub open spec fn gateway_in(line: Seq<char>, interface: Seq<char>) -> Option<Seq<char>> {
    let fields = scan::words(line);
    if fields.len() < 4 || fields[0] != interface || fields[1] != "00000000"@ {
        None
    } else {
        match text::at_most(text::parse_unsigned(fields[2], 16), u32::MAX as nat) {
            Some(raw) => Some(dotted(raw)),
            None => None,
        }
    }
}

/// The gateway that the first line from `i` on gives.
pub open spec fn gateway_from(lines: Seq<Seq<char>>, interface: Seq<char>, i: int) -> Option<
    Seq<char>,
>
    decreases lines.len() - i,
{
    if i < 0 || i >= lines.len() {
        None
    } else if gateway_in(lines[i], interface) is Some {
        gateway_in(lines[i], interface)
    } else {
        gateway_from(lines, interface, i + 1)
    }
}

/// The gateway of an interface in a routing table, whose first line is a
/// heading.
pub open spec fn gateway(routes: Option<String>, interface: Seq<char>) -> Option<Seq<char>> {
    match routes {
        Some(table) => gateway_from(scan::lines(table@), interface, 1),
        None => None,
    }
}

fn dotted_text(raw: u32) -> (r: String)
    ensures
        r@ == dotted(raw as nat),
{
    let mut out = String::new();
    append_decimal(&mut out, (raw % 256) as u64);
    out.append(".");
    append_decimal(&mut out, (raw / 256 % 256) as u64);
    out.append(".");
    append_decimal(&mut out, (raw / 65_536 % 256) as u64);
    out.append(".");
    append_decimal(&mut out, (raw / 16_777_216 % 256) as u64);
    proof {
        assert(out@ =~= dotted(raw as nat));
    }
    out
}

/// The gateway of an interface in a routing table.
pub fn linux_gateway(routes: &Option<String>, interface: &str) -> (r: Option<String>)
    ensures
        text::opt_text(r) == gateway(*routes, interface@),
{
    let table = match routes {
        Some(table) => table,
        None => {
            return None;
        },
    };
    let chars = chars_of(table.as_str());
    let wanted = chars_of(interface);
    let default_route = chars_of("00000000");
    let lines = split_lines(chars.as_slice());
    let ghost all = scan::lines(table@);
    let mut i: usize = 1;
    while i < lines.len()
        invariant
            1 <= i,
            *routes == Some(*table),
            all == scan::lines(table@),
            lines@.len() == all.len(),
            forall|k: int| 0 <= k < lines@.len() ==> (#[trigger] lines@[k])@ == all[k],
            wanted@ == interface@,
            default_route@ == "00000000"@,
            gateway_from(all, interface@, 1) == gateway_from(all, interface@, i as int),
        decreases lines@.len() - i,
    {
        proof {
            assert(lines@[i as int]@ == all[i as int]);
        }
        let fields = split_words(lines[i]);
        if fields.len() >= 4 && same_chars(fields[0], wanted.as_slice()) && same_chars(
            fields[1],
            default_route.as_slice(),
        ) {
            if let Some(raw) = read_unsigned(fields[2], 16, 0xffff_ffff) {
                return Some(dotted_text(raw as u32));
            }
        }
        i = i + 1;
    }
    None
}

// ---------------------------------------------------------------------------
// Inspection
// ---------------------------------------------------------------------------

/// The number by which systemd files an interface.
pub open spec fn file_index(interface_id: Seq<char>) -> Seq<char> {
    match scan::after_prefix(interface_id, "ifindex:"@) {
        Some(index) => index,
        None => interface_id,
    }
}

fn index_of(interface_id: &str) -> (r: String)
    ensures
        r@ == file_index(interface_id@),
{
    let chars = chars_of(interface_id);
    let prefix = chars_of("ifindex:");
    match strip_prefix(chars.as_slice(), prefix.as_slice()) {
        Some(index) => string_of(index),
        None => interface_id.to_owned(),
    }
}

/// Where systemd keeps the lease of an interface.
pub fn lease_path(interface_id: &str) -> (r: String)
    ensures
        r@ == "/run/systemd/netif/leases/"@ + file_index(interface_id@),
{
    join2("/run/systemd/netif/leases/", index_of(interface_id).as_str())
}

/// Where systemd keeps the state of an interface.
pub fn link_path(interface_id: &str) -> (r: String)
    ensures
        r@ == "/run/systemd/netif/links/"@ + file_index(interface_id@),
{
    join2("/run/systemd/netif/links/", index_of(interface_id).as_str())
}

/// The network profile that the state of an interface names.
pub fn network_file(link: &str) -> (r: Option<String>)
    ensures
        text::opt_text(r) == setting(link@, "NETWORK_FILE"@),
{
    value(link, "NETWORK_FILE")
}

/// A network profile with its path.
#[derive(Debug)]
pub struct NetworkProfile {
    pub path: String,
    pub contents: String,
}

/// What the machine's files say; `None` where a file cannot be read.
#[derive(Debug)]
pub struct LinuxFiles {
    /// The lease that systemd keeps of the interface.
    pub lease: Option<String>,
    /// The leases of other DHCP clients.
    pub other_leases: Vec<String>,
    /// The network profile that the state of the interface names.
    pub profile: Option<NetworkProfile>,
    /// The routing table.
    pub routes: Option<String>,
}

/// The address of a lease: what stands before its prefix length.
pub open spec fn lease_address(lease: Seq<char>) -> Option<Seq<char>> {
    match setting(lease, "ADDRESS"@) {
        Some(address) => Some(address.take(scan::position(address, '/', 0))),
        None => None,
    }
}

/// The selected address and that of the lease, without repeats.
pub open spec fn lease_addresses(lease: Seq<char>, selected: Option<LocalAddress>) -> Seq<
    Seq<char>,
> {
    let known = ip::selected_text(selected);
    match lease_address(lease) {
        Some(address) => if known.contains(address) {
            known
        } else {
            known.push(address)
        },
        None => known,
    }
}

/// Whether a profile disables DHCP and defines an address.
pub open spec fn explicitly_static(profile: Seq<char>) -> bool {
    let dhcp = match setting(profile, "DHCP"@) {
        Some(value) => text::lower_text(value),
        None => seq![],
    };
    let lines = scan::lines(profile);
    (dhcp == "no"@ || dhcp == "false"@ || dhcp == "0"@) && exists|i: int|
        0 <= i < lines.len() && scan::stands_at(
            scan::trimmed(#[trigger] lines[i], Class::Space),
            "Address="@,
            0,
        )
}

/// How an interface is configured, from the machine's files: an active lease
/// proves DHCP, a profile that disables it proves a static address, and
/// anything else is not guessed at.
pub open spec fn configuration(
    interface_id: Seq<char>,
    interface_name: Seq<char>,
    selected: Option<LocalAddress>,
    files: LinuxFiles,
) -> connectivity::ConfigurationModel {
    if files.lease is Some {
        let lease = files.lease->0@;
        connectivity::ConfigurationModel {
            assignment: IpAssignment::Dhcp,
            addresses: lease_addresses(lease, selected),
            gateway: match setting(lease, "ROUTER"@) {
                Some(router) => Some(router),
                None => gateway(files.routes, interface_name),
            },
            evidence: "active systemd-networkd lease "@ + ("/run/systemd/netif/leases/"@
                + file_index(interface_id)),
        }
    } else if lease_matches(files.other_leases@, interface_name, selected) {
        connectivity::ConfigurationModel {
            assignment: IpAssignment::Dhcp,
            addresses: ip::selected_text(selected),
            gateway: gateway(files.routes, interface_name),
            evidence: "active address matches a NetworkManager/dhclient lease"@,
        }
    } else if files.profile is Some && explicitly_static(files.profile->0.contents@) {
        connectivity::ConfigurationModel {
            assignment: IpAssignment::Static,
            addresses: ip::selected_text(selected),
            gateway: gateway(files.routes, interface_name),
            evidence: "active systemd-networkd profile "@ + files.profile->0.path@
                + " explicitly disables DHCP and defines Address"@,
        }
    } else {
        connectivity::ConfigurationModel {
            assignment: ip::route_assignment(selected),
            addresses: ip::selected_text(selected),
            gateway: gateway(files.routes, interface_name),
            evidence: if ip::route_assignment(selected) == IpAssignment::LinkLocal {
                "route selected a link-local address"@
            } else {
                "no matching DHCP lease or explicit active static profile was found"@
            },
        }
    }
}

fn is_explicitly_static(profile: &str) -> (r: bool)
    ensures
        r == explicitly_static(profile@),
{
    let off = match value(profile, "DHCP") {
        Some(dhcp) => text::same_ignoring_case(dhcp.as_str(), "no") || text::same_ignoring_case(
            dhcp.as_str(),
            "false",
        ) || text::same_ignoring_case(dhcp.as_str(), "0"),
        None => false,
    };
    proof {
        reveal_strlit("no");
        reveal_strlit("false");
        reveal_strlit("0");
        assert(text::lower_text("no"@) =~= "no"@);
        assert(text::lower_text("false"@) =~= "false"@);
        assert(text::lower_text("0"@) =~= "0"@);
    }
    if !off {
        return false;
    }
    let chars = chars_of(profile);
    let marker = chars_of("Address=");
    let lines = split_lines(chars.as_slice());
    let ghost all = scan::lines(profile@);
    let mut i: usize = 0;
    while i < lines.len()
        invariant
            i <= lines@.len(),
            all == scan::lines(profile@),
            lines@.len() == all.len(),
            forall|k: int| 0 <= k < lines@.len() ==> (#[trigger] lines@[k])@ == all[k],
            marker@ == "Address="@,
            off,
            off ==> ({
                let dhcp = match setting(profile@, "DHCP"@) {
                    Some(value) => text::lower_text(value),
                    None => seq![],
                };
                dhcp == "no"@ || dhcp == "false"@ || dhcp == "0"@
            }),
            forall|k: int|
                0 <= k < i ==> !scan::stands_at(
                    scan::trimmed(#[trigger] all[k], Class::Space),
                    "Address="@,
                    0,
                ),
        decreases lines@.len() - i,
    {
        proof {
            assert(lines@[i as int]@ == all[i as int]);
        }
        if matches_at(trim(lines[i], Class::Space), marker.as_slice(), 0) {
            return true;
        }
        i = i + 1;
    }
    false
}

/// How an interface is configured, from the machine's files.
pub fn platform_inspect(
    interface_id: &str,
    interface_name: &str,
    selected: &Option<LocalAddress>,
    files: &LinuxFiles,
) -> (r: IpConfiguration)
    ensures
        r@ == configuration(interface_id@, interface_name@, *selected, *files),
{
    let mut addresses = selected_list(selected);
    if let Some(lease) = &files.lease {
        if let Some(address) = value(lease.as_str(), "ADDRESS") {
            let chars = chars_of(address.as_str());
            let end: usize = find(chars.as_slice(), '/', 0);
            let bare = string_of(vstd::slice::slice_subrange(chars.as_slice(), 0, end));
            proof {
                assert(bare@ =~= address@.take(end as int));
            }
            if !lists_text(&addresses, bare.as_str()) {
                let ghost known = text::texts(addresses@);
                addresses.push(bare);
                proof {
                    assert(text::texts(addresses@) =~= known.push(bare@));
                }
            }
        }
        return IpConfiguration {
            assignment: IpAssignment::Dhcp,
            addresses,
            gateway: match value(lease.as_str(), "ROUTER") {
                Some(router) => Some(router),
                None => linux_gateway(&files.routes, interface_name),
            },
            evidence: join2(
                "active systemd-networkd lease ",
                lease_path(interface_id).as_str(),
            ),
        };
    }
    if network_manager_lease_matches(&files.other_leases, interface_name, selected) {
        return IpConfiguration {
            assignment: IpAssignment::Dhcp,
            addresses,
            gateway: linux_gateway(&files.routes, interface_name),
            evidence: "active address matches a NetworkManager/dhclient lease".to_owned(),
        };
    }
    if let Some(profile) = &files.profile {
        if is_explicitly_static(profile.contents.as_str()) {
            return IpConfiguration {
                assignment: IpAssignment::Static,
                addresses,
                gateway: linux_gateway(&files.routes, interface_name),
                evidence: join3(
                    "active systemd-networkd profile ",
                    profile.path.as_str(),
                    " explicitly disables DHCP and defines Address",
                ),
            };
        }
    }
    let assignment = assignment_of(selected);
    let evidence = if assignment == IpAssignment::LinkLocal {
        "route selected a link-local address"
    } else {
        "no matching DHCP lease or explicit active static profile was found"
    };
    IpConfiguration {
        assignment,
        addresses,
        gateway: linux_gateway(&files.routes, interface_name),
        evidence: evidence.to_owned(),
    }
}

/// The absence of a lease is never taken for a static address: one is reported
/// only where the active profile says so.
pub proof fn lemma_static_is_never_guessed(
    interface_id: Seq<char>,
    interface_name: Seq<char>,
    selected: Option<LocalAddress>,
    files: LinuxFiles,
)
    requires
        configuration(interface_id, interface_name, selected, files).assignment
            == IpAssignment::Static,
    ensures
        files.lease is None,
        files.profile is Some,
        explicitly_static(files.profile->0.contents@),
{
}

} // verus!
