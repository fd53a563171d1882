//! Where an interface has its address from.

pub mod linux;
pub mod macos;
pub mod windows;

use super::{ConfigurationModel, IpAssignment, IpConfiguration};
use crate::text;
use crate::text::same_text;
use vstd::prelude::*;

verus! {

/// An IP address.
#[derive(Debug, Clone, Copy, PartialEq, Eq)]
pub enum IpAddress {
    V4([u8; 4]),
    V6([u16; 8]),
}

/// A local address with its text.
#[derive(Debug)]
pub struct LocalAddress {
    pub ip: IpAddress,
    pub text: String,
}

/// Whether an address is the one that stands for none.
pub open spec fn unspecified(ip: IpAddress) -> bool {
    match ip {
        IpAddress::V4(octets) => octets@ == seq![0u8, 0u8, 0u8, 0u8],
        IpAddress::V6(segments) => segments@ == seq![
            0u16,
            0u16,
            0u16,
            0u16,
            0u16,
            0u16,
            0u16,
            0u16,
        ],
    }
}

/// Whether an address is the machine's own.
pub open spec fn loopback(ip: IpAddress) -> bool {
    match ip {
        IpAddress::V4(octets) => octets@[0] == 127,
        IpAddress::V6(segments) => segments@ == seq![
            0u16,
            0u16,
            0u16,
            0u16,
            0u16,
            0u16,
            0u16,
            1u16,
        ],
    }
}

/// Whether an address is one that the machine gave itself: `169.254.0.0/16`
/// or `fe80::/10`.
pub open spec fn link_local(ip: IpAddress) -> bool {
    match ip {
        IpAddress::V4(octets) => octets@[0] == 169 && octets@[1] == 254,
        IpAddress::V6(segments) => 0xfe80 <= segments@[0] <= 0xfebf,
    }
}

/// Whether an address is the one that stands for none.
pub fn is_unspecified(ip: &IpAddress) -> (r: bool)
    ensures
        r == unspecified(*ip),
{
    match ip {
        IpAddress::V4(octets) => {
            let r = octets[0] == 0 && octets[1] == 0 && octets[2] == 0 && octets[3] == 0;
            proof {
                if r {
                    assert(octets@ =~= seq![0u8, 0u8, 0u8, 0u8]);
                }
            }
            r
        },
        IpAddress::V6(segments) => {
            let r = leading_zeros(segments) && segments[7] == 0;
            proof {
                let none = seq![0u16, 0u16, 0u16, 0u16, 0u16, 0u16, 0u16, 0u16];
                if r {
                    assert(segments@ =~= none);
                }
            }
            r
        },
    }
}

fn leading_zeros(segments: &[u16; 8]) -> (r: bool)
    ensures
        r == forall|i: int| 0 <= i < 7 ==> segments@[i] == 0,
{
    segments[0] == 0 && segments[1] == 0 && segments[2] == 0 && segments[3] == 0 && segments[4] == 0
        && segments[5] == 0 && segments[6] == 0
}

/// Whether an address is the machine's own.
pub fn is_loopback(ip: &IpAddress) -> (r: bool)
    ensures
        r == loopback(*ip),
{
    match ip {
        IpAddress::V4(octets) => octets[0] == 127,
        IpAddress::V6(segments) => {
            let r = leading_zeros(segments) && segments[7] == 1;
            proof {
                let own = seq![0u16, 0u16, 0u16, 0u16, 0u16, 0u16, 0u16, 1u16];
                if r {
                    assert(segments@ =~= own);
                }
            }
            r
        },
    }
}

/// Whether an address is one that the machine gave itself.
pub fn is_link_local(ip: &IpAddress) -> (r: bool)
    ensures
        r == link_local(*ip),
{
    match ip {
        IpAddress::V4(octets) => octets[0] == 169 && octets[1] == 254,
        IpAddress::V6(segments) => {
            let first: u16 = segments[0];
            proof {
                assert((first & 0xffc0 == 0xfe80) == (0xfe80 <= first && first <= 0xfebf))
                    by (bit_vector);
            }
            first & 0xffc0 == 0xfe80
        },
    }
}

/// The text of the address that a route selected, where there is one.
pub open spec fn selected_text(selected: Option<LocalAddress>) -> Seq<Seq<char>> {
    match selected {
        Some(local) => seq![local.text@],
        None => seq![],
    }
}

/// `addresses` with the selected one behind them, unless it is there already.
pub open spec fn with_selected(
    addresses: Seq<Seq<char>>,
    selected: Option<LocalAddress>,
) -> Seq<Seq<char>> {
    match selected {
        Some(local) => if addresses.contains(local.text@) {
            addresses
        } else {
            addresses.push(local.text@)
        },
        None => addresses,
    }
}

/// Whether a list has a text.
pub fn lists_text(list: &Vec<String>, value: &str) -> (r: bool)
    ensures
        r == text::texts(list@).contains(value@),
{
    let ghost seen = text::texts(list@);
    let mut i: usize = 0;
    while i < list.len()
        invariant
            i <= list.len(),
            seen == text::texts(list@),
            forall|j: int| 0 <= j < i ==> seen[j] != value@,
        decreases list.len() - i,
    {
        if same_text(list[i].as_str(), value) {
            proof {
                assert(seen[i as int] == value@);
            }
            return true;
        }
        i = i + 1;
    }
    false
}

/// Put the selected address behind the others, unless it is there already.
pub fn add_selected(addresses: &mut Vec<String>, selected: &Option<LocalAddress>)
    ensures
        text::texts(final(addresses)@) == with_selected(text::texts(old(addresses)@), *selected),
{
    if let Some(local) = selected {
        if !lists_text(&*addresses, local.text.as_str()) {
            addresses.push(local.text.clone());
            proof {
                assert(text::texts(addresses@) =~= text::texts(old(addresses)@).push(local.text@));
            }
        }
    }
}

/// The addresses that are known from the route alone.
pub fn selected_list(selected: &Option<LocalAddress>) -> (r: Vec<String>)
    ensures
        text::texts(r@) == selected_text(*selected),
{
    let mut out: Vec<String> = Vec::new();
    if let Some(local) = selected {
        out.push(local.text.clone());
    }
    proof {
        assert(text::texts(out@) =~= selected_text(*selected));
    }
    out
}

/// What the route alone says about where the address is from.
pub open spec fn route_assignment(selected: Option<LocalAddress>) -> IpAssignment {
    match selected {
        Some(local) => if link_local(local.ip) {
            IpAssignment::LinkLocal
        } else {
            IpAssignment::Unknown
        },
        None => IpAssignment::Unknown,
    }
}

/// What the route alone says about where the address is from.
pub fn assignment_of(selected: &Option<LocalAddress>) -> (r: IpAssignment)
    ensures
        r == route_assignment(*selected),
{
    match selected {
        Some(local) => if is_link_local(&local.ip) {
            IpAssignment::LinkLocal
        } else {
            IpAssignment::Unknown
        },
        None => IpAssignment::Unknown,
    }
}

/// What remains to be said where the platform knows nothing of an interface.
pub open spec fn fallback(selected: Option<LocalAddress>, evidence: Seq<char>) -> ConfigurationModel {
    ConfigurationModel {
        assignment: route_assignment(selected),
        addresses: selected_text(selected),
        gateway: None,
        evidence,
    }
}

/// What remains to be said where the platform knows nothing of an interface.
pub fn fallback_configuration(selected: &Option<LocalAddress>, evidence: &str) -> (r:
    IpConfiguration)
    ensures
        r@ == fallback(*selected, evidence@),
{
    IpConfiguration {
        assignment: assignment_of(selected),
        addresses: selected_list(selected),
        gateway: None,
        evidence: evidence.to_owned(),
    }
}

} // verus!
