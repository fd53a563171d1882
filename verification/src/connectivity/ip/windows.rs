//! Windows: the adapters that the IP Helper lists.

use super::{add_selected, fallback_configuration, LocalAddress};
use crate::connectivity;
use crate::connectivity::ip;
use crate::connectivity::{IpAssignment, IpConfiguration};
use crate::scan;
use crate::scan::{trim, Class};
use crate::text;
use crate::text::{append_decimal, chars_of, same_ignoring_case, same_text, string_of};
use crate::wlan;
use crate::wlan::from_utf8_lossy;
use vstd::prelude::*;

verus! {

/// One adapter of the list.
#[derive(Debug)]
pub struct Adapter {
    pub name: String,
    pub dhcp_enabled: u32,
    /// The texts of its address list.
    pub addresses: Vec<String>,
    /// The texts of its gateway list.
    pub gateways: Vec<String>,
}

/// The bytes before the first zero.
pub open spec fn before_zero(bytes: Seq<u8>) -> Seq<u8>
    decreases bytes.len(),
{
    if bytes.len() == 0 || bytes[0] == 0 {
        seq![]
    } else {
        seq![bytes[0]] + before_zero(bytes.drop_first())
    }
}

/// The text of a zero-terminated field.
pub fn c_string(bytes: &[u8]) -> (r: String)
    ensures
        r@ == wlan::lossy_utf8(before_zero(bytes@)),
{
    let mut len: usize = 0;
    proof {
        assert(bytes@.skip(0) =~= bytes@);
        assert(bytes@.take(0) + before_zero(bytes@) =~= before_zero(bytes@));
    }
    while len < bytes.len() && bytes[len] != 0
        invariant
            len <= bytes@.len(),
            before_zero(bytes@) == bytes@.take(len as int) + before_zero(bytes@.skip(len as int)),
        decreases bytes@.len() - len,
    {
        proof {
            let rest = bytes@.skip(len as int);
            assert(rest.drop_first() =~= bytes@.skip(len + 1));
            assert(bytes@.take(len as int) + (seq![rest[0]] + before_zero(rest.drop_first()))
                =~= bytes@.take(len + 1) + before_zero(bytes@.skip(len + 1)));
        }
        len = len + 1;
    }
    let field = vstd::slice::slice_subrange(bytes, 0, len);
    proof {
        assert(before_zero(bytes@.skip(len as int)) =~= seq![]);
        assert(field@ =~= before_zero(bytes@));
    }
    from_utf8_lossy(field)
}

/// Whether a text of a list is an address: not empty, and not the one that
/// stands for none.
pub open spec fn is_address(value: Seq<char>) -> bool {
    value.len() > 0 && value != "0.0.0.0"@
}

/// The addresses of a list.
pub open spec fn addresses_in(list: Seq<Seq<char>>) -> Seq<Seq<char>>
    decreases list.len(),
{
    if list.len() == 0 {
        seq![]
    } else if is_address(list.last()) {
        addresses_in(list.drop_last()).push(list.last())
    } else {
        addresses_in(list.drop_last())
    }
}

/// The addresses of a list.
pub fn list(values: &Vec<String>) -> (r: Vec<String>)
    ensures
        text::texts(r@) == addresses_in(text::texts(values@)),
{
    let ghost all = text::texts(values@);
    let mut out: Vec<String> = Vec::new();
    let mut i: usize = 0;
    proof {
        assert(text::texts(out@) =~= addresses_in(all.take(0)));
    }
    while i < values.len()
        invariant
            i <= values@.len(),
            all == text::texts(values@),
            text::texts(out@) == addresses_in(all.take(i as int)),
        decreases values@.len() - i,
    {
        let ghost known = text::texts(out@);
        proof {
            assert(all.take(i + 1).drop_last() =~= all.take(i as int));
            assert(all.take(i + 1).last() == values@[i as int]@);
        }
        if values[i].as_str().unicode_len() > 0 && !same_text(values[i].as_str(), "0.0.0.0") {
            out.push(values[i].clone());
            proof {
                assert(text::texts(out@) =~= known.push(values@[i as int]@));
            }
        }
        i = i + 1;
    }
    proof {
        assert(all.take(i as int) =~= all);
    }
    out
}

/// Whether an adapter is the one that `interface_id` names: braces and the case
/// of letters do not matter.
pub open spec fn is_adapter(name: Seq<char>, interface_id: Seq<char>) -> bool {
    text::lower_text(scan::trimmed(name, Class::Brace)) == text::lower_text(
        scan::trimmed(interface_id, Class::Brace),
    )
}

/// The position of the adapter that `interface_id` names, from `i` on.
pub open spec fn adapter_of(adapters: Seq<Adapter>, interface_id: Seq<char>, i: int) -> Option<int>
    decreases adapters.len() - i,
{
    if i < 0 || i >= adapters.len() {
        None
    } else if is_adapter(adapters[i].name@, interface_id) {
        Some(i)
    } else {
        adapter_of(adapters, interface_id, i + 1)
    }
}

/// What an adapter says about its configuration.
pub open spec fn adapter_configuration(
    adapter: Adapter,
    selected: Option<LocalAddress>,
) -> connectivity::ConfigurationModel {
    let gateways = addresses_in(text::texts(adapter.gateways@));
    connectivity::ConfigurationModel {
        assignment: if adapter.dhcp_enabled != 0 {
            IpAssignment::Dhcp
        } else {
            IpAssignment::Static
        },
        addresses: ip::with_selected(addresses_in(text::texts(adapter.addresses@)), selected),
        gateway: if gateways.len() == 0 {
            None
        } else {
            Some(gateways[0])
        },
        evidence: "Windows IP Helper reports DhcpEnabled="@ + text::decimal(
            adapter.dhcp_enabled as nat,
        ),
    }
}

/// How an interface is configured, from the list of adapters, if there is one.
pub open spec fn configuration(
    interface_id: Seq<char>,
    selected: Option<LocalAddress>,
    adapters: Option<Vec<Adapter>>,
) -> connectivity::ConfigurationModel {
    let unknown = ip::fallback(
        selected,
        "GetAdaptersInfo did not return the associated WLAN adapter"@,
    );
    match adapters {
        None => unknown,
        Some(list) => match adapter_of(list@, interface_id, 0) {
            Some(i) => adapter_configuration(list@[i], selected),
            None => unknown,
        },
    }
}

fn configuration_of(adapter: &Adapter, selected: &Option<LocalAddress>) -> (r: IpConfiguration)
    ensures
        r@ == adapter_configuration(*adapter, *selected),
{
    let mut addresses = list(&adapter.addresses);
    add_selected(&mut addresses, selected);
    let gateways = list(&adapter.gateways);
    let mut evidence = "Windows IP Helper reports DhcpEnabled=".to_owned();
    append_decimal(&mut evidence, adapter.dhcp_enabled as u64);
    proof {
        let texts = text::texts(gateways@);
        assert(texts.len() == gateways@.len());
        assert(gateways@.len() > 0 ==> texts[0] == gateways@[0]@);
    }
    IpConfiguration {
        assignment: if adapter.dhcp_enabled != 0 {
            IpAssignment::Dhcp
        } else {
            IpAssignment::Static
        },
        addresses,
        gateway: if gateways.len() == 0 {
            None
        } else {
            Some(gateways[0].clone())
        },
        evidence,
    }
}

/// How an interface is configured, from the list of adapters.
pub fn platform_inspect(
    interface_id: &str,
    selected: &Option<LocalAddress>,
    adapters: &Option<Vec<Adapter>>,
) -> (r: IpConfiguration)
    ensures
        r@ == configuration(interface_id@, *selected, *adapters),
{
    if let Some(list) = adapters {
        let id = chars_of(interface_id);
        let wanted = string_of(trim(id.as_slice(), Class::Brace));
        let mut i: usize = 0;
        while i < list.len()
            invariant
                i <= list@.len(),
                *adapters == Some(*list),
                wanted@ == scan::trimmed(interface_id@, Class::Brace),
                adapter_of(list@, interface_id@, 0) == adapter_of(list@, interface_id@, i as int),
            decreases list@.len() - i,
        {
            let chars = chars_of(list[i].name.as_str());
            let name = string_of(trim(chars.as_slice(), Class::Brace));
            if same_ignoring_case(name.as_str(), wanted.as_str()) {
                return configuration_of(&list[i], selected);
            }
            i = i + 1;
        }
    }
    fallback_configuration(
        selected,
        "GetAdaptersInfo did not return the associated WLAN adapter",
    )
}

} // verus!
