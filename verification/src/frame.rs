//! Binary layout of the frames that a scan sends and receives: an Ethernet
//! header, an optional 802.1Q tag and an ARP payload for Ethernet and IPv4.
//! Multi-byte fields are big-endian.

use vstd::prelude::*;
use crate::options::{MacAddress, ScanOptions};

verus! {

/// EtherType of an ARP payload.
pub const ETHERTYPE_ARP: u16 = 0x0806;

/// EtherType that announces an 802.1Q tag.
pub const ETHERTYPE_VLAN: u16 = 0x8100;

/// ARP protocol type of IPv4, which is also its EtherType.
pub const PROTOCOL_IPV4: u16 = 0x0800;

/// ARP hardware type of Ethernet.
pub const HARDWARE_ETHERNET: u16 = 1;

/// ARP operation code of a request.
pub const OPERATION_REQUEST: u16 = 1;

/// ARP operation code of a reply.
pub const OPERATION_REPLY: u16 = 2;

/// Length of an Ethernet header without a tag.
pub const ETHERNET_HEADER_LEN: usize = 14;

/// Length of an 802.1Q tag.
pub const VLAN_TAG_LEN: usize = 4;

/// Length of an ARP payload for Ethernet and IPv4.
pub const ARP_PAYLOAD_LEN: usize = 28;

/// Big-endian encoding of a 16-bit field.
pub open spec fn be16(value: u16) -> Seq<u8> {
    seq![(value / 256) as u8, (value % 256) as u8]
}

/// Big-endian encoding of a 32-bit field.
pub open spec fn be32(value: u32) -> Seq<u8> {
    seq![
        (value / 0x100_0000) as u8,
        ((value / 0x1_0000) % 256) as u8,
        ((value / 0x100) % 256) as u8,
        (value % 256) as u8,
    ]
}

/// The 16-bit big-endian field that starts at `at`.
pub open spec fn u16_at(bytes: Seq<u8>, at: int) -> u16
    recommends
        0 <= at,
        at + 2 <= bytes.len(),
{
    (bytes[at] as int * 256 + bytes[at + 1] as int) as u16
}

/// The 32-bit big-endian field that starts at `at`.
pub open spec fn u32_at(bytes: Seq<u8>, at: int) -> u32
    recommends
        0 <= at,
        at + 4 <= bytes.len(),
{
    (bytes[at] as int * 0x100_0000 + bytes[at + 1] as int * 0x1_0000 + bytes[at + 2] as int * 0x100
        + bytes[at + 3] as int) as u32
}

/// The hardware address that starts at `at`.
pub open spec fn mac_at(bytes: Seq<u8>, at: int) -> MacAddress
    recommends
        0 <= at,
        at + 6 <= bytes.len(),
{
    MacAddress(
        bytes[at],
        bytes[at + 1],
        bytes[at + 2],
        bytes[at + 3],
        bytes[at + 4],
        bytes[at + 5],
    )
}

/// The fields of one ARP frame on Ethernet. The hardware and protocol address
/// lengths are fixed at six and four.
#[derive(Clone, Copy, Debug, PartialEq, Eq, Structural)]
pub struct ArpFrame {
    pub destination: MacAddress,
    pub source: MacAddress,
    /// Identifier of the 802.1Q tag, if the frame carries one.
    pub vlan_id: Option<u16>,
    pub hw_type: u16,
    pub proto_type: u16,
    pub operation: u16,
    pub sender_mac: MacAddress,
    pub sender_ipv4: u32,
    pub target_mac: MacAddress,
    pub target_ipv4: u32,
}

impl ArpFrame {
    /// A VLAN identifier has twelve bits.
    pub open spec fn well_formed(self) -> bool {
        match self.vlan_id {
            Some(id) => id < 4096,
            None => true,
        }
    }

    /// The Ethernet header: both addresses, the tag if any, and the EtherType.
    pub open spec fn header(self) -> Seq<u8> {
        let addresses = self.destination.bytes() + self.source.bytes();
        match self.vlan_id {
            Some(id) => addresses + be16(ETHERTYPE_VLAN) + be16((id % 4096) as u16) + be16(
                ETHERTYPE_ARP,
            ),
            None => addresses + be16(ETHERTYPE_ARP),
        }
    }

    /// The ARP payload.
    pub open spec fn payload(self) -> Seq<u8> {
        be16(self.hw_type) + be16(self.proto_type) + seq![6u8, 4u8] + be16(self.operation)
            + self.sender_mac.bytes() + be32(self.sender_ipv4) + self.target_mac.bytes() + be32(
            self.target_ipv4,
        )
    }

    /// The frame as it goes on the wire.
    pub open spec fn encode(self) -> Seq<u8> {
        self.header() + self.payload()
    }

    /// Lays the frame out as bytes. The priority and drop-eligible bits of a
    /// tag are zero, and only the low twelve bits of the identifier are kept.
    pub fn to_bytes(&self) -> (bytes: Vec<u8>)
        ensures
            bytes@ == self.encode(),
            bytes@.len() == if self.vlan_id.is_some() {
                46int
            } else {
                42int
            },
    {
        let mut bytes: Vec<u8> = Vec::new();
        push_mac(&mut bytes, self.destination);
        push_mac(&mut bytes, self.source);
        match self.vlan_id {
            Some(id) => {
                push_u16(&mut bytes, ETHERTYPE_VLAN);
                push_u16(&mut bytes, id % 4096);
            },
            None => {},
        }
        push_u16(&mut bytes, ETHERTYPE_ARP);
        assert(bytes@ =~= self.header());
        push_u16(&mut bytes, self.hw_type);
        push_u16(&mut bytes, self.proto_type);
        bytes.push(6);
        bytes.push(4);
        push_u16(&mut bytes, self.operation);
        push_mac(&mut bytes, self.sender_mac);
        push_u32(&mut bytes, self.sender_ipv4);
        push_mac(&mut bytes, self.target_mac);
        push_u32(&mut bytes, self.target_ipv4);
        assert(bytes@ =~= self.header() + self.payload());
        bytes
    }
}

fn push_u16(bytes: &mut Vec<u8>, value: u16)
    ensures
        final(bytes)@ == old(bytes)@ + be16(value),
{
    bytes.push((value / 256) as u8);
    bytes.push((value % 256) as u8);
    assert(bytes@ =~= old(bytes)@ + be16(value));
}

fn push_u32(bytes: &mut Vec<u8>, value: u32)
    ensures
        final(bytes)@ == old(bytes)@ + be32(value),
{
    bytes.push((value / 0x100_0000) as u8);
    bytes.push(((value / 0x1_0000) % 256) as u8);
    bytes.push(((value / 0x100) % 256) as u8);
    bytes.push((value % 256) as u8);
    assert(bytes@ =~= old(bytes)@ + be32(value));
}

fn push_mac(bytes: &mut Vec<u8>, mac: MacAddress)
    ensures
        final(bytes)@ == old(bytes)@ + mac.bytes(),
{
    bytes.push(mac.0);
    bytes.push(mac.1);
    bytes.push(mac.2);
    bytes.push(mac.3);
    bytes.push(mac.4);
    bytes.push(mac.5);
    assert(bytes@ =~= old(bytes)@ + mac.bytes());
}

/// The request that probes `target_ipv4`. The options may force the sender
/// addresses, the destination, the tag and the ARP types; without them the
/// interface's own addresses, broadcast, no tag, Ethernet and IPv4 are used.
pub open spec fn request_for(
    interface_mac: MacAddress,
    interface_ipv4: u32,
    target_ipv4: u32,
    options: ScanOptions,
) -> ArpFrame {
    let source = match options.source_mac {
        Some(forced) => forced,
        None => interface_mac,
    };
    ArpFrame {
        destination: match options.destination_mac {
            Some(forced) => forced,
            None => MacAddress(0xff, 0xff, 0xff, 0xff, 0xff, 0xff),
        },
        source,
        vlan_id: match options.vlan_id {
            Some(id) => Some((id % 4096) as u16),
            None => None,
        },
        hw_type: match options.hw_type {
            Some(forced) => forced,
            None => HARDWARE_ETHERNET,
        },
        proto_type: match options.proto_type {
            Some(forced) => forced,
            None => PROTOCOL_IPV4,
        },
        operation: OPERATION_REQUEST,
        sender_mac: source,
        sender_ipv4: match options.source_ipv4 {
            Some(forced) => forced,
            None => interface_ipv4,
        },
        target_mac: MacAddress(0, 0, 0, 0, 0, 0),
        target_ipv4,
    }
}

/// Builds the fields of the request that probes `target_ipv4`.
pub fn arp_request(
    interface_mac: MacAddress,
    interface_ipv4: u32,
    target_ipv4: u32,
    options: &ScanOptions,
) -> (frame: ArpFrame)
    ensures
        frame == request_for(interface_mac, interface_ipv4, target_ipv4, *options),
        frame.well_formed(),
{
    let source = match options.source_mac {
        Some(forced) => forced,
        None => interface_mac,
    };
    ArpFrame {
        destination: match options.destination_mac {
            Some(forced) => forced,
            None => MacAddress::broadcast(),
        },
        source,
        vlan_id: match options.vlan_id {
            Some(id) => Some(id % 4096),
            None => None,
        },
        hw_type: match options.hw_type {
            Some(forced) => forced,
            None => HARDWARE_ETHERNET,
        },
        proto_type: match options.proto_type {
            Some(forced) => forced,
            None => PROTOCOL_IPV4,
        },
        operation: OPERATION_REQUEST,
        sender_mac: source,
        sender_ipv4: match options.source_ipv4 {
            Some(forced) => forced,
            None => interface_ipv4,
        },
        target_mac: MacAddress::zero(),
        target_ipv4,
    }
}

/// Builds the bytes of the request that probes `target_ipv4`, ready to be
/// handed to the link-layer channel.
pub fn build_arp_request(
    interface_mac: MacAddress,
    interface_ipv4: u32,
    target_ipv4: u32,
    options: &ScanOptions,
) -> (bytes: Vec<u8>)
    ensures
        bytes@ == request_for(interface_mac, interface_ipv4, target_ipv4, *options).encode(),
        bytes@.len() == if options.vlan_id.is_some() {
            46int
        } else {
            42int
        },
{
    arp_request(interface_mac, interface_ipv4, target_ipv4, options).to_bytes()
}

/// Where the ARP payload starts, if `bytes` holds an Ethernet header, tagged
/// or not, whose EtherType is ARP.
pub open spec fn arp_offset(bytes: Seq<u8>) -> Option<int> {
    if bytes.len() < 14 {
        None
    } else if u16_at(bytes, 12) == ETHERTYPE_ARP {
        Some(14int)
    } else if u16_at(bytes, 12) == ETHERTYPE_VLAN && bytes.len() >= 18 && u16_at(bytes, 16)
        == ETHERTYPE_ARP {
        Some(18int)
    } else {
        None
    }
}

/// The fields of the ARP frame that `bytes` holds, if it holds one: an
/// Ethernet header whose EtherType, behind the tag if there is one, is ARP,
/// followed by at least a whole ARP payload. Bytes behind the payload are
/// padding.
pub open spec fn parse(bytes: Seq<u8>) -> Option<ArpFrame> {
    match arp_offset(bytes) {
        Some(at) => if bytes.len() < at + 28 {
            None
        } else {
            Some(
                ArpFrame {
                    destination: mac_at(bytes, 0),
                    source: mac_at(bytes, 6),
                    vlan_id: if at == 18 {
                        Some((u16_at(bytes, 14) % 4096) as u16)
                    } else {
                        None
                    },
                    hw_type: u16_at(bytes, at),
                    proto_type: u16_at(bytes, at + 2),
                    operation: u16_at(bytes, at + 6),
                    sender_mac: mac_at(bytes, at + 8),
                    sender_ipv4: u32_at(bytes, at + 14),
                    target_mac: mac_at(bytes, at + 18),
                    target_ipv4: u32_at(bytes, at + 24),
                },
            )
        },
        None => None,
    }
}

fn read_u16(bytes: &[u8], at: usize) -> (value: u16)
    requires
        at + 2 <= bytes@.len(),
    ensures
        value == u16_at(bytes@, at as int),
{
    let high: u16 = bytes[at] as u16;
    let low: u16 = bytes[at + 1] as u16;
    high * 256 + low
}

fn read_u32(bytes: &[u8], at: usize) -> (value: u32)
    requires
        at + 4 <= bytes@.len(),
    ensures
        value == u32_at(bytes@, at as int),
{
    let first: u32 = bytes[at] as u32;
    let second: u32 = bytes[at + 1] as u32;
    let third: u32 = bytes[at + 2] as u32;
    let fourth: u32 = bytes[at + 3] as u32;
    first * 0x100_0000 + second * 0x1_0000 + third * 0x100 + fourth
}

fn read_mac(bytes: &[u8], at: usize) -> (mac: MacAddress)
    requires
        at + 6 <= bytes@.len(),
    ensures
        mac == mac_at(bytes@, at as int),
{
    MacAddress(
        bytes[at],
        bytes[at + 1],
        bytes[at + 2],
        bytes[at + 3],
        bytes[at + 4],
        bytes[at + 5],
    )
}

/// Decodes an inbound frame. Anything that is too short or is not ARP gives
/// `None`; nothing is read beyond the length of `bytes`.
pub fn parse_arp_frame(bytes: &[u8]) -> (frame: Option<ArpFrame>)
    ensures
        frame == parse(bytes@),
{
    if bytes.len() < 14 {
        return None;
    }
    let outer: u16 = read_u16(bytes, 12);
    let mut at: usize = 14;
    let mut vlan_id: Option<u16> = None;
    if outer != ETHERTYPE_ARP {
        if outer != ETHERTYPE_VLAN || bytes.len() < 18 {
            return None;
        }
        let inner: u16 = read_u16(bytes, 16);
        if inner != ETHERTYPE_ARP {
            return None;
        }
        vlan_id = Some(read_u16(bytes, 14) % 4096);
        at = 18;
    }
    if bytes.len() < at + 28 {
        return None;
    }
    Some(
        ArpFrame {
            destination: read_mac(bytes, 0),
            source: read_mac(bytes, 6),
            vlan_id,
            hw_type: read_u16(bytes, at),
            proto_type: read_u16(bytes, at + 2),
            operation: read_u16(bytes, at + 6),
            sender_mac: read_mac(bytes, at + 8),
            sender_ipv4: read_u32(bytes, at + 14),
            target_mac: read_mac(bytes, at + 18),
            target_ipv4: read_u32(bytes, at + 24),
        },
    )
}

/// The ARP hardware type that replies must carry.
pub open spec fn expected_hw_type(options: ScanOptions) -> u16 {
    match options.hw_type {
        Some(forced) => forced,
        None => HARDWARE_ETHERNET,
    }
}

/// The ARP protocol type that replies must carry.
pub open spec fn expected_proto_type(options: ScanOptions) -> u16 {
    match options.proto_type {
        Some(forced) => forced,
        None => PROTOCOL_IPV4,
    }
}

/// The host that announces itself in `bytes`: its protocol and hardware
/// address, if `bytes` is an ARP reply with the expected hardware and
/// protocol types.
pub open spec fn reply_in(bytes: Seq<u8>, options: ScanOptions) -> Option<(u32, MacAddress)> {
    match parse(bytes) {
        Some(frame) => if frame.operation == OPERATION_REPLY && frame.hw_type == expected_hw_type(
            options,
        ) && frame.proto_type == expected_proto_type(options) {
            Some((frame.sender_ipv4, frame.sender_mac))
        } else {
            None
        },
        None => None,
    }
}

/// Filters an inbound frame: gives the sender's addresses for an ARP reply
/// of the expected types, and `None` for everything else.
pub fn decode_reply(bytes: &[u8], options: &ScanOptions) -> (reply: Option<(u32, MacAddress)>)
    ensures
        reply == reply_in(bytes@, *options),
{
    let expected_hw: u16 = match options.hw_type {
        Some(forced) => forced,
        None => HARDWARE_ETHERNET,
    };
    let expected_proto: u16 = match options.proto_type {
        Some(forced) => forced,
        None => PROTOCOL_IPV4,
    };
    match parse_arp_frame(bytes) {
        Some(frame) => {
            if frame.operation == OPERATION_REPLY && frame.hw_type == expected_hw
                && frame.proto_type == expected_proto {
                Some((frame.sender_ipv4, frame.sender_mac))
            } else {
                None
            }
        },
        None => None,
    }
}

/// The two bytes of a 16-bit field give the field back.
proof fn lemma_u16_value(value: u16)
    ensures
        be16(value).len() == 2,
        be16(value)[0] as int * 256 + be16(value)[1] as int == value,
{
}

/// The four bytes of a 32-bit field give the field back.
proof fn lemma_u32_value(value: u32)
    ensures
        be32(value).len() == 4,
        be32(value)[0] as int * 0x100_0000 + be32(value)[1] as int * 0x1_0000 + be32(value)[2] as int
            * 0x100 + be32(value)[3] as int == value,
{
}

/// Byte `k` of a frame's ARP payload.
spec fn payload_byte(frame: ArpFrame, k: int) -> u8 {
    if k < 2 {
        be16(frame.hw_type)[k]
    } else if k < 4 {
        be16(frame.proto_type)[k - 2]
    } else if k == 4 {
        6u8
    } else if k == 5 {
        4u8
    } else if k < 8 {
        be16(frame.operation)[k - 6]
    } else if k < 14 {
        frame.sender_mac.bytes()[k - 8]
    } else if k < 18 {
        be32(frame.sender_ipv4)[k - 14]
    } else if k < 24 {
        frame.target_mac.bytes()[k - 18]
    } else {
        be32(frame.target_ipv4)[k - 24]
    }
}

/// The payload is twenty-eight bytes long and holds its fields in order.
proof fn lemma_payload_bytes(frame: ArpFrame)
    ensures
        frame.payload().len() == 28,
        forall|k: int| 0 <= k < 28 ==> #[trigger] frame.payload()[k] == payload_byte(frame, k),
{
    let a = be16(frame.hw_type) + be16(frame.proto_type);
    let b = a + seq![6u8, 4u8];
    let c = b + be16(frame.operation);
    let d = c + frame.sender_mac.bytes();
    let e = d + be32(frame.sender_ipv4);
    let f = e + frame.target_mac.bytes();
    let g = f + be32(frame.target_ipv4);
    assert(a.len() == 4);
    assert(b.len() == 6);
    assert(c.len() == 8);
    assert(d.len() == 14);
    assert(e.len() == 18);
    assert(f.len() == 24);
    assert(g.len() == 28);
    assert(g == frame.payload());
    assert forall|k: int| 0 <= k < 28 implies #[trigger] g[k] == payload_byte(frame, k) by {
        if k < 24 {
            assert(g[k] == f[k]);
            if k < 18 {
                assert(f[k] == e[k]);
                if k < 14 {
                    assert(e[k] == d[k]);
                    if k < 8 {
                        assert(d[k] == c[k]);
                        if k < 6 {
                            assert(c[k] == b[k]);
                            if k < 4 {
                                assert(b[k] == a[k]);
                            }
                        }
                    }
                }
            }
        }
    }
}

/// The fields of a frame's ARP payload stand at their offsets, whatever
/// surrounds the payload.
proof fn lemma_payload_layout(frame: ArpFrame, before: Seq<u8>, after: Seq<u8>)
    ensures
        frame.payload().len() == 28,
        ({
            let bytes = before + frame.payload() + after;
            let at = before.len() as int;
            &&& u16_at(bytes, at) == frame.hw_type
            &&& u16_at(bytes, at + 2) == frame.proto_type
            &&& u16_at(bytes, at + 6) == frame.operation
            &&& mac_at(bytes, at + 8) == frame.sender_mac
            &&& u32_at(bytes, at + 14) == frame.sender_ipv4
            &&& mac_at(bytes, at + 18) == frame.target_mac
            &&& u32_at(bytes, at + 24) == frame.target_ipv4
        }),
{
    let payload = frame.payload();
    let bytes = before + payload + after;
    let at = before.len() as int;
    lemma_payload_bytes(frame);
    assert forall|k: int| 0 <= k < 28 implies #[trigger] bytes[at + k] == payload_byte(frame, k) by {
        assert(bytes[at + k] == payload[k]);
    }
    lemma_u16_value(frame.hw_type);
    lemma_u16_value(frame.proto_type);
    lemma_u16_value(frame.operation);
    lemma_u32_value(frame.sender_ipv4);
    lemma_u32_value(frame.target_ipv4);
    assert(u16_at(bytes, at) == frame.hw_type) by {
        assert(bytes[at + 0] == payload_byte(frame, 0));
        assert(bytes[at + 1] == payload_byte(frame, 1));
    }
    assert(u16_at(bytes, at + 2) == frame.proto_type) by {
        assert(bytes[at + 2] == payload_byte(frame, 2));
        assert(bytes[at + 3] == payload_byte(frame, 3));
    }
    assert(u16_at(bytes, at + 6) == frame.operation) by {
        assert(bytes[at + 6] == payload_byte(frame, 6));
        assert(bytes[at + 7] == payload_byte(frame, 7));
    }
    assert(mac_at(bytes, at + 8) == frame.sender_mac) by {
        assert(bytes[at + 8] == payload_byte(frame, 8));
        assert(bytes[at + 9] == payload_byte(frame, 9));
        assert(bytes[at + 10] == payload_byte(frame, 10));
        assert(bytes[at + 11] == payload_byte(frame, 11));
        assert(bytes[at + 12] == payload_byte(frame, 12));
        assert(bytes[at + 13] == payload_byte(frame, 13));
    }
    assert(u32_at(bytes, at + 14) == frame.sender_ipv4) by {
        assert(bytes[at + 14] == payload_byte(frame, 14));
        assert(bytes[at + 15] == payload_byte(frame, 15));
        assert(bytes[at + 16] == payload_byte(frame, 16));
        assert(bytes[at + 17] == payload_byte(frame, 17));
    }
    assert(mac_at(bytes, at + 18) == frame.target_mac) by {
        assert(bytes[at + 18] == payload_byte(frame, 18));
        assert(bytes[at + 19] == payload_byte(frame, 19));
        assert(bytes[at + 20] == payload_byte(frame, 20));
        assert(bytes[at + 21] == payload_byte(frame, 21));
        assert(bytes[at + 22] == payload_byte(frame, 22));
        assert(bytes[at + 23] == payload_byte(frame, 23));
    }
    assert(u32_at(bytes, at + 24) == frame.target_ipv4) by {
        assert(bytes[at + 24] == payload_byte(frame, 24));
        assert(bytes[at + 25] == payload_byte(frame, 25));
        assert(bytes[at + 26] == payload_byte(frame, 26));
        assert(bytes[at + 27] == payload_byte(frame, 27));
    }
}

/// The fields of a frame's Ethernet header stand at their offsets, whatever
/// follows the header.
proof fn lemma_header_layout(frame: ArpFrame, after: Seq<u8>)
    requires
        frame.well_formed(),
    ensures
        frame.header().len() == if frame.vlan_id.is_some() {
            18int
        } else {
            14int
        },
        ({
            let bytes = frame.header() + after;
            &&& mac_at(bytes, 0) == frame.destination
            &&& mac_at(bytes, 6) == frame.source
            &&& frame.vlan_id.is_none() ==> u16_at(bytes, 12) == ETHERTYPE_ARP
            &&& frame.vlan_id.is_some() ==> u16_at(bytes, 12) == ETHERTYPE_VLAN && u16_at(
                bytes,
                14,
            ) == frame.vlan_id.unwrap() && u16_at(bytes, 16) == ETHERTYPE_ARP
        }),
{
    let header = frame.header();
    let bytes = header + after;
    let dst = frame.destination;
    let src = frame.source;
    match frame.vlan_id {
        Some(id) => {
            let tci: u16 = (id % 4096) as u16;
            let explicit: Seq<u8> = seq![
                dst.0,
                dst.1,
                dst.2,
                dst.3,
                dst.4,
                dst.5,
                src.0,
                src.1,
                src.2,
                src.3,
                src.4,
                src.5,
                be16(ETHERTYPE_VLAN)[0],
                be16(ETHERTYPE_VLAN)[1],
                be16(tci)[0],
                be16(tci)[1],
                be16(ETHERTYPE_ARP)[0],
                be16(ETHERTYPE_ARP)[1],
            ];
            assert(header =~= explicit);
            assert forall|k: int| 0 <= k < 18 implies #[trigger] bytes[k] == explicit[k] by {
                assert(bytes[k] == header[k]);
            }
            assert(mac_at(bytes, 0) == dst);
            assert(mac_at(bytes, 6) == src);
            assert(u16_at(bytes, 12) == ETHERTYPE_VLAN);
            assert(u16_at(bytes, 14) == tci);
            assert(u16_at(bytes, 16) == ETHERTYPE_ARP);
        },
        None => {
            let explicit: Seq<u8> = seq![
                dst.0,
                dst.1,
                dst.2,
                dst.3,
                dst.4,
                dst.5,
                src.0,
                src.1,
                src.2,
                src.3,
                src.4,
                src.5,
                be16(ETHERTYPE_ARP)[0],
                be16(ETHERTYPE_ARP)[1],
            ];
            assert(header =~= explicit);
            assert forall|k: int| 0 <= k < 14 implies #[trigger] bytes[k] == explicit[k] by {
                assert(bytes[k] == header[k]);
            }
            assert(mac_at(bytes, 0) == dst);
            assert(mac_at(bytes, 6) == src);
            assert(u16_at(bytes, 12) == ETHERTYPE_ARP);
        },
    }
}

/// Decoding inverts encoding: the bytes of a well-formed frame, followed by
/// any padding, decode to that frame.
pub proof fn lemma_parse_inverts_encode(frame: ArpFrame, padding: Seq<u8>)
    requires
        frame.well_formed(),
    ensures
        parse(frame.encode() + padding) == Some(frame),
{
    let bytes = frame.encode() + padding;
    lemma_header_layout(frame, frame.payload() + padding);
    lemma_payload_layout(frame, frame.header(), padding);
    assert(bytes =~= frame.header() + (frame.payload() + padding));
    assert(bytes =~= frame.header() + frame.payload() + padding);
    assert(bytes.len() == frame.header().len() + 28 + padding.len());
    let decoded = parse(bytes);
    assert(decoded.is_some());
    assert(decoded.unwrap().vlan_id == frame.vlan_id);
    assert(decoded.unwrap() == frame);
}

/// A reply of the expected types is accepted, and what is reported is the
/// sender's protocol and hardware address.
pub proof fn lemma_reply_is_accepted(frame: ArpFrame, padding: Seq<u8>, options: ScanOptions)
    requires
        frame.well_formed(),
        frame.operation == OPERATION_REPLY,
        frame.hw_type == expected_hw_type(options),
        frame.proto_type == expected_proto_type(options),
    ensures
        reply_in(frame.encode() + padding, options) == Some((frame.sender_ipv4, frame.sender_mac)),
{
    lemma_parse_inverts_encode(frame, padding);
}

/// The scanner never mistakes one of its own requests for a reply.
pub proof fn lemma_request_is_not_a_reply(
    interface_mac: MacAddress,
    interface_ipv4: u32,
    target_ipv4: u32,
    sent_with: ScanOptions,
    received_with: ScanOptions,
)
    ensures
        reply_in(
            request_for(interface_mac, interface_ipv4, target_ipv4, sent_with).encode(),
            received_with,
        ).is_none(),
{
    let frame = request_for(interface_mac, interface_ipv4, target_ipv4, sent_with);
    lemma_parse_inverts_encode(frame, Seq::<u8>::empty());
    assert(frame.encode() + Seq::<u8>::empty() =~= frame.encode());
}

/// A frame whose EtherType is neither ARP nor that of a tag is dropped, and
/// so is one that is too short to hold an Ethernet header and an ARP payload.
pub proof fn lemma_foreign_frames_are_dropped(bytes: Seq<u8>, options: ScanOptions)
    requires
        bytes.len() < 42 || (u16_at(bytes, 12) != ETHERTYPE_ARP && u16_at(bytes, 12)
            != ETHERTYPE_VLAN),
    ensures
        reply_in(bytes, options).is_none(),
{
}

} // verus!
