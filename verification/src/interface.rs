//! Choice of the network interface and of the source address of a scan.

use vstd::prelude::*;
use crate::address::{AddressRange, ScanError};
use crate::options::MacAddress;

verus! {

/// What a scan needs to know of a network interface.
#[derive(Clone, Debug)]
pub struct InterfaceInfo {
    pub name: String,
    pub index: u32,
    pub is_up: bool,
    pub is_loopback: bool,
    pub mac: Option<MacAddress>,
    /// The addresses assigned to the interface, each with its network.
    pub ips: Vec<AddressRange>,
}

/// True when one of the blocks is an IPv4 block.
pub open spec fn has_ipv4(ips: Seq<AddressRange>) -> bool {
    exists|index: int| 0 <= index < ips.len() && (#[trigger] ips[index]).is_v4()
}

impl InterfaceInfo {
    /// An interface can be scanned by default when it has a hardware
    /// address, is up, is not a loopback and has an IPv4 address.
    pub open spec fn is_eligible(&self) -> bool {
        &&& self.mac.is_some()
        &&& self.is_up
        &&& !self.is_loopback
        &&& has_ipv4(self.ips@)
    }

    /// An interface is ready for a scan when it is up, is not a loopback and
    /// has an address.
    pub open spec fn is_ready(&self) -> bool {
        self.is_up && !self.is_loopback && self.ips@.len() > 0
    }

    /// The position of the first IPv4 address of the interface.
    pub fn first_ipv4(&self) -> (position: Option<usize>)
        ensures
            match position {
                Some(found) => {
                    &&& found < self.ips@.len()
                    &&& self.ips@[found as int].is_v4()
                    &&& forall|index: int| 0 <= index < found ==> !(#[trigger] self.ips@[index]).is_v4()
                },
                None => !has_ipv4(self.ips@),
            },
    {
        let mut at: usize = 0;
        while at < self.ips.len()
            invariant
                at <= self.ips@.len(),
                forall|index: int| 0 <= index < at ==> !(#[trigger] self.ips@[index]).is_v4(),
            decreases self.ips@.len() - at,
        {
            match self.ips[at] {
                AddressRange::V4 { address, prefix } => {
                    return Some(at);
                },
                AddressRange::V6 { address, prefix } => {},
            }
            at = at + 1;
        }
        None
    }

    /// Tells whether the interface can be scanned by default.
    pub fn eligible(&self) -> (yes: bool)
        ensures
            yes == self.is_eligible(),
    {
        self.mac.is_some() && self.is_up && !self.is_loopback && self.first_ipv4().is_some()
    }

    /// Tells whether the interface is ready for a scan.
    pub fn ready(&self) -> (yes: bool)
        ensures
            yes == self.is_ready(),
    {
        self.is_up && !self.is_loopback && self.ips.len() > 0
    }
}

/// Picks the interface to scan when the operator names none: the first
/// one, in the order of the system, that can be scanned by default.
pub fn select_default_interface(interfaces: &Vec<InterfaceInfo>) -> (selected: Option<
    &InterfaceInfo,
>)
    ensures
        match selected {
            Some(interface) => exists|position: int|
                {
                    &&& 0 <= position < interfaces@.len()
                    &&& *interface == #[trigger] interfaces@[position]
                    &&& interface.is_eligible()
                    &&& forall|earlier: int|
                        0 <= earlier < position ==> !(#[trigger] interfaces@[earlier]).is_eligible()
                },
            None => forall|position: int|
                0 <= position < interfaces@.len() ==> !(#[trigger] interfaces@[position]).is_eligible(),
        },
{
    let mut at: usize = 0;
    while at < interfaces.len()
        invariant
            at <= interfaces@.len(),
            forall|earlier: int|
                0 <= earlier < at ==> !(#[trigger] interfaces@[earlier]).is_eligible(),
        decreases interfaces@.len() - at,
    {
        if interfaces[at].eligible() {
            return Some(&interfaces[at]);
        }
        at = at + 1;
    }
    None
}

/// The number of interfaces among the first `count` that are ready.
pub open spec fn ready_among(interfaces: Seq<InterfaceInfo>, count: nat) -> nat
    decreases count,
{
    if count == 0 {
        0
    } else {
        ready_among(interfaces, (count - 1) as nat) + if interfaces[count - 1].is_ready() {
            1nat
        } else {
            0nat
        }
    }
}

/// Counts the interfaces that are ready for a scan.
pub fn count_ready_interfaces(interfaces: &Vec<InterfaceInfo>) -> (count: usize)
    ensures
        count == ready_among(interfaces@, interfaces@.len()),
{
    let mut count: usize = 0;
    let mut at: usize = 0;
    while at < interfaces.len()
        invariant
            at <= interfaces@.len(),
            count <= at,
            count == ready_among(interfaces@, at as nat),
        decreases interfaces@.len() - at,
    {
        if interfaces[at].ready() {
            count = count + 1;
        }
        at = at + 1;
    }
    count
}

/// The protocol address that requests announce as their sender: the forced
/// one if there is one, else the first IPv4 address of the interface.
pub fn find_source_ip(interface: &InterfaceInfo, forced: Option<u32>) -> (source: Result<
    u32,
    ScanError,
>)
    ensures
        match source {
            Ok(ipv4) => match forced {
                Some(wanted) => ipv4 == wanted,
                None => exists|position: int|
                    {
                        &&& 0 <= position < interface.ips@.len()
                        &&& #[trigger] interface.ips@[position] matches AddressRange::V4 {
                            address,
                            prefix,
                        }
                        &&& address == ipv4
                        &&& forall|earlier: int|
                            0 <= earlier < position ==> !(#[trigger] interface.ips@[earlier]).is_v4()
                    },
            },
            Err(error) => forced.is_none() && !has_ipv4(interface.ips@) && error
                == ScanError::NoSourceAddress,
        },
{
    match forced {
        Some(wanted) => Ok(wanted),
        None => match interface.first_ipv4() {
            Some(position) => match interface.ips[position] {
                AddressRange::V4 { address, prefix } => Ok(address),
                AddressRange::V6 { address, prefix } => Err(ScanError::NoSourceAddress),
            },
            None => Err(ScanError::NoSourceAddress),
        },
    }
}

} // verus!
