//! Scan configuration shared by every part of the engine.

use vstd::prelude::*;

verus! {

/// A 48-bit link-layer address.
#[derive(Clone, Copy, Debug, PartialEq, Eq, Structural)]
pub struct MacAddress(pub u8, pub u8, pub u8, pub u8, pub u8, pub u8);

impl MacAddress {
    /// The six octets of the address, first on the wire first.
    pub open spec fn bytes(self) -> Seq<u8> {
        seq![self.0, self.1, self.2, self.3, self.4, self.5]
    }

    /// The octet at position `index`, counted from the first on the wire.
    pub fn octet(&self, index: usize) -> (value: u8)
        requires
            index < 6,
        ensures
            value == self.bytes()[index as int],
    {
        if index == 0 {
            self.0
        } else if index == 1 {
            self.1
        } else if index == 2 {
            self.2
        } else if index == 3 {
            self.3
        } else if index == 4 {
            self.4
        } else {
            self.5
        }
    }

    /// The address every station on a segment listens to.
    pub fn broadcast() -> (mac: MacAddress)
        ensures
            mac.bytes() == seq![0xffu8, 0xffu8, 0xffu8, 0xffu8, 0xffu8, 0xffu8],
    {
        MacAddress(0xff, 0xff, 0xff, 0xff, 0xff, 0xff)
    }

    /// The all-zero address, used where the target hardware address is unknown.
    pub fn zero() -> (mac: MacAddress)
        ensures
            mac.bytes() == seq![0u8, 0u8, 0u8, 0u8, 0u8, 0u8],
    {
        MacAddress(0, 0, 0, 0, 0, 0)
    }
}

/// How the final inventory is rendered.
#[derive(Clone, Copy, Debug, PartialEq, Eq, Structural)]
pub enum OutputFormat {
    Plain,
    Json,
    Yaml,
    Csv,
}

/// Immutable snapshot of the operator's choices for one scan.
#[derive(Clone, Copy, Debug)]
pub struct ScanOptions {
    /// Number of full passes over the target address space.
    pub retry_count: usize,
    /// Whether each pass visits the targets in a shuffled order.
    pub randomize_targets: bool,
    /// How long to keep listening once the last request has left.
    pub timeout_ms: u64,
    /// Explicit pause between two requests, in milliseconds.
    pub interval_ms: Option<u64>,
    /// Desired throughput in bytes per second, used when no interval is given.
    pub bandwidth: Option<u64>,
    /// Sender protocol address to announce instead of the interface's own.
    pub source_ipv4: Option<u32>,
    /// Sender hardware address to announce instead of the interface's own.
    pub source_mac: Option<MacAddress>,
    /// Destination hardware address to use instead of broadcast.
    pub destination_mac: Option<MacAddress>,
    /// 802.1Q VLAN identifier to tag every request with.
    pub vlan_id: Option<u16>,
    /// ARP hardware type to use instead of Ethernet.
    pub hw_type: Option<u16>,
    /// ARP protocol type to use instead of IPv4.
    pub proto_type: Option<u16>,
    /// Whether a reverse lookup is attempted for each new host.
    pub resolve_hostname: bool,
    /// Rendering of the results.
    pub output: OutputFormat,
}

impl ScanOptions {
    /// True when the results go to the terminal as a table.
    pub fn is_plain_output(&self) -> (plain: bool)
        ensures
            plain == (self.output == OutputFormat::Plain),
    {
        match self.output {
            OutputFormat::Plain => true,
            _ => false,
        }
    }

    /// True when requests carry an 802.1Q tag.
    pub fn has_vlan(&self) -> (tagged: bool)
        ensures
            tagged == self.vlan_id.is_some(),
    {
        self.vlan_id.is_some()
    }

    /// A timing hint of zero leaves the send interval undefined.
    pub open spec fn timing_is_valid(&self) -> bool {
        match self.interval_ms {
            Some(interval) => interval > 0,
            None => match self.bandwidth {
                Some(bandwidth) => bandwidth > 0,
                None => true,
            },
        }
    }

    /// Tells whether the timing hints can be turned into a send interval.
    pub fn has_valid_timing(&self) -> (valid: bool)
        ensures
            valid == self.timing_is_valid(),
    {
        match self.interval_ms {
            Some(interval) => interval > 0,
            None => match self.bandwidth {
                Some(bandwidth) => bandwidth > 0,
                None => true,
            },
        }
    }
}

impl Default for ScanOptions {
    /// One sequential pass, two seconds of listening, default pacing, no overrides.
    fn default() -> (options: ScanOptions)
        ensures
            options.retry_count == 1,
            !options.randomize_targets,
            options.timeout_ms == 2000,
            options.interval_ms.is_none(),
            options.bandwidth.is_none(),
            options.source_ipv4.is_none(),
            options.source_mac.is_none(),
            options.destination_mac.is_none(),
            options.vlan_id.is_none(),
            options.hw_type.is_none(),
            options.proto_type.is_none(),
            !options.resolve_hostname,
            options.output == OutputFormat::Plain,
    {
        ScanOptions {
            retry_count: 1,
            randomize_targets: false,
            timeout_ms: 2000,
            interval_ms: None,
            bandwidth: None,
            source_ipv4: None,
            source_mac: None,
            destination_mac: None,
            vlan_id: None,
            hw_type: None,
            proto_type: None,
            resolve_hostname: false,
            output: OutputFormat::Plain,
        }
    }
}

} // verus!
