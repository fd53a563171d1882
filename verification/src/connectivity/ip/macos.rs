//! macOS: the services that SystemConfiguration knows.

use super::{add_selected, fallback_configuration, LocalAddress};
use crate::connectivity;
use crate::connectivity::ip;
use crate::connectivity::probe::{join2, join3};
use crate::connectivity::{IpAssignment, IpConfiguration};
use crate::scan;
use crate::scan::{strip_prefix, strip_suffix};
use crate::text;
use crate::text::{as_deref, chars_of, copied, same_text, string_of};
use vstd::prelude::*;

verus! {

/// One IPv4 service of the dynamic store.
#[derive(Debug)]
pub struct ServiceState {
    /// The key of its state, `State:/Network/Service/<id>/IPv4`.
    pub key: String,
    pub interface_name: Option<String>,
    pub addresses: Vec<String>,
    pub router: Option<String>,
    /// Whether there is DHCP information on it.
    pub has_dhcp_info: bool,
    /// How it is set up.
    pub method: Option<String>,
}

/// What asking the dynamic store came to.
#[derive(Debug)]
pub enum StoreQuery {
    /// The query could not be made.
    NotMade,
    /// There are no keys.
    NoKeys,
    /// These are the services.
    Services(Vec<ServiceState>),
}

/// The id of the service with a key; a key of another shape has none.
pub open spec fn id_of(key: Seq<char>) -> Seq<char> {
    match scan::after_prefix(key, "State:/Network/Service/"@) {
        Some(rest) => match scan::before_suffix(rest, "/IPv4"@) {
            Some(id) => id,
            None => seq![],
        },
        None => seq![],
    }
}

/// The id of the service with a key.
pub fn service_id(key: &str) -> (r: String)
    ensures
        r@ == id_of(key@),
{
    let chars = chars_of(key);
    let prefix = chars_of("State:/Network/Service/");
    let suffix = chars_of("/IPv4");
    match strip_prefix(chars.as_slice(), prefix.as_slice()) {
        Some(rest) => match strip_suffix(rest, suffix.as_slice()) {
            Some(id) => string_of(id),
            None => String::new(),
        },
        None => String::new(),
    }
}

/// The key of a service's setup.
pub fn setup_key(service_id: &str) -> (r: String)
    ensures
        r@ == "Setup:/Network/Service/"@ + service_id@ + "/IPv4"@,
{
    join3("Setup:/Network/Service/", service_id, "/IPv4")
}

/// Where a service has its address from.
pub open spec fn service_assignment(has_dhcp_info: bool, method: Option<Seq<char>>) -> IpAssignment {
    if has_dhcp_info || method == Some("DHCP"@) || method == Some("BOOTP"@) || method == Some(
        "INFORM"@,
    ) {
        IpAssignment::Dhcp
    } else if method == Some("Manual"@) {
        IpAssignment::Static
    } else {
        IpAssignment::Unknown
    }
}

fn assignment(has_dhcp_info: bool, method: Option<&str>) -> (r: IpAssignment)
    ensures
        r == service_assignment(has_dhcp_info, text::opt_str(method)),
{
    match method {
        Some(name) => if has_dhcp_info || same_text(name, "DHCP") || same_text(name, "BOOTP")
            || same_text(name, "INFORM") {
            IpAssignment::Dhcp
        } else if same_text(name, "Manual") {
            IpAssignment::Static
        } else {
            IpAssignment::Unknown
        },
        None => if has_dhcp_info {
            IpAssignment::Dhcp
        } else {
            IpAssignment::Unknown
        },
    }
}

/// The position of the first service of `interface` from `i` on.
pub open spec fn service_of(services: Seq<ServiceState>, interface: Seq<char>, i: int) -> Option<int>
    decreases services.len() - i,
{
    if i < 0 || i >= services.len() {
        None
    } else if text::opt_text(services[i].interface_name) == Some(interface) {
        Some(i)
    } else {
        service_of(services, interface, i + 1)
    }
}

/// What a service says about the interface that it configures.
pub open spec fn service_configuration(
    service: ServiceState,
    selected: Option<LocalAddress>,
) -> connectivity::ConfigurationModel {
    let method = text::opt_text(service.method);
    connectivity::ConfigurationModel {
        assignment: service_assignment(service.has_dhcp_info, method),
        addresses: ip::with_selected(text::texts(service.addresses@), selected),
        gateway: text::opt_text(service.router),
        evidence: "SystemConfiguration service "@ + id_of(service.key@) + ", ConfigMethod="@ + (
        match method {
            Some(name) => name,
            None => "unknown"@,
        }),
    }
}

/// How an interface is configured, from the dynamic store.
pub open spec fn configuration(
    interface: Seq<char>,
    selected: Option<LocalAddress>,
    query: StoreQuery,
) -> connectivity::ConfigurationModel {
    match query {
        StoreQuery::NotMade => ip::fallback(
            selected,
            "could not create SystemConfiguration query"@,
        ),
        StoreQuery::NoKeys => ip::fallback(
            selected,
            "SystemConfiguration returned no IPv4 service keys"@,
        ),
        StoreQuery::Services(services) => match service_of(services@, interface, 0) {
            Some(i) => service_configuration(services@[i], selected),
            None => ip::fallback(
                selected,
                "no SystemConfiguration IPv4 service matched the Wi-Fi interface"@,
            ),
        },
    }
}

fn configuration_of(service: &ServiceState, selected: &Option<LocalAddress>) -> (r: IpConfiguration)
    ensures
        r@ == service_configuration(*service, *selected),
{
    let mut addresses: Vec<String> = Vec::new();
    let mut i: usize = 0;
    while i < service.addresses.len()
        invariant
            i <= service.addresses@.len(),
            addresses@ == service.addresses@.take(i as int),
        decreases service.addresses@.len() - i,
    {
        addresses.push(service.addresses[i].clone());
        i = i + 1;
        proof {
            assert(addresses@ =~= service.addresses@.take(i as int));
        }
    }
    proof {
        assert(addresses@ =~= service.addresses@);
    }
    add_selected(&mut addresses, selected);
    let method = as_deref(&service.method);
    let mut evidence = join2("SystemConfiguration service ", service_id(service.key.as_str()).as_str());
    evidence.append(", ConfigMethod=");
    evidence.append(
        match method {
            Some(name) => name,
            None => "unknown",
        },
    );
    IpConfiguration {
        assignment: assignment(service.has_dhcp_info, method),
        addresses,
        gateway: copied(&service.router),
        evidence,
    }
}

/// How an interface is configured, from the dynamic store: the first service
/// of the interface decides.
pub fn platform_inspect(
    interface_name: &str,
    selected: &Option<LocalAddress>,
    query: &StoreQuery,
) -> (r: IpConfiguration)
    ensures
        r@ == configuration(interface_name@, *selected, *query),
{
    let services = match query {
        StoreQuery::NotMade => {
            return fallback_configuration(selected, "could not create SystemConfiguration query");
        },
        StoreQuery::NoKeys => {
            return fallback_configuration(
                selected,
                "SystemConfiguration returned no IPv4 service keys",
            );
        },
        StoreQuery::Services(services) => services,
    };
    let mut i: usize = 0;
    while i < services.len()
        invariant
            i <= services@.len(),
            *query == StoreQuery::Services(*services),
            service_of(services@, interface_name@, 0) == service_of(
                services@,
                interface_name@,
                i as int,
            ),
        decreases services@.len() - i,
    {
        if let Some(name) = &services[i].interface_name {
            if same_text(name.as_str(), interface_name) {
                return configuration_of(&services[i], selected);
            }
        }
        i = i + 1;
    }
    fallback_configuration(
        selected,
        "no SystemConfiguration IPv4 service matched the Wi-Fi interface",
    )
}

} // verus!
