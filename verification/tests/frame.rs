use arp_scan::frame::{
    arp_request, build_arp_request, decode_reply, parse_arp_frame, ArpFrame, ETHERTYPE_ARP,
    HARDWARE_ETHERNET, OPERATION_REPLY, OPERATION_REQUEST, PROTOCOL_IPV4,
};
use arp_scan::options::{MacAddress, ScanOptions};

fn reply_from(ipv4: u32, mac: MacAddress) -> ArpFrame {
    ArpFrame {
        destination: MacAddress(0x02, 0x00, 0x00, 0x00, 0x00, 0x01),
        source: mac,
        vlan_id: None,
        hw_type: HARDWARE_ETHERNET,
        proto_type: PROTOCOL_IPV4,
        operation: OPERATION_REPLY,
        sender_mac: mac,
        sender_ipv4: ipv4,
        target_mac: MacAddress(0x02, 0x00, 0x00, 0x00, 0x00, 0x01),
        target_ipv4: 0x0a00_0001,
    }
}

#[test]
fn request_has_the_standard_layout() {
    let options = ScanOptions::default();
    let source = MacAddress(0x02, 0x11, 0x22, 0x33, 0x44, 0x55);
    let bytes = build_arp_request(source, 0xc0a8_0102, 0xc0a8_0164, &options);
    let expected: Vec<u8> = vec![
        0xff, 0xff, 0xff, 0xff, 0xff, 0xff, // destination: broadcast
        0x02, 0x11, 0x22, 0x33, 0x44, 0x55, // source
        0x08, 0x06, // EtherType: ARP
        0x00, 0x01, // hardware type: Ethernet
        0x08, 0x00, // protocol type: IPv4
        0x06, 0x04, // address lengths
        0x00, 0x01, // operation: request
        0x02, 0x11, 0x22, 0x33, 0x44, 0x55, // sender hardware address
        192, 168, 1, 2, // sender protocol address
        0x00, 0x00, 0x00, 0x00, 0x00, 0x00, // target hardware address
        192, 168, 1, 100, // target protocol address
    ];
    assert_eq!(bytes.len(), 42);
    assert_eq!(bytes, expected);
}

#[test]
fn tagged_request_carries_the_tag_before_the_ethertype() {
    let mut options = ScanOptions::default();
    options.vlan_id = Some(0x0123);
    let source = MacAddress(0x02, 0x11, 0x22, 0x33, 0x44, 0x55);
    let bytes = build_arp_request(source, 0x0a00_0001, 0x0a00_0002, &options);
    assert_eq!(bytes.len(), 46);
    assert_eq!(&bytes[12..18], &[0x81, 0x00, 0x01, 0x23, 0x08, 0x06]);
    assert_eq!(&bytes[18..22], &[0x00, 0x01, 0x08, 0x00]);
    assert_eq!(&bytes[42..46], &[10, 0, 0, 2]);
}

#[test]
fn tag_keeps_only_twelve_bits_of_the_identifier() {
    let mut options = ScanOptions::default();
    options.vlan_id = Some(0xf00a);
    let bytes = build_arp_request(MacAddress::zero(), 1, 2, &options);
    assert_eq!(&bytes[14..16], &[0x00, 0x0a]);
}

#[test]
fn overrides_replace_the_defaults() {
    let mut options = ScanOptions::default();
    options.source_ipv4 = Some(0x0a0a_0a0a);
    options.source_mac = Some(MacAddress(1, 2, 3, 4, 5, 6));
    options.destination_mac = Some(MacAddress(9, 8, 7, 6, 5, 4));
    options.hw_type = Some(6);
    options.proto_type = Some(0x86dd);
    let frame = arp_request(MacAddress(0xaa, 0, 0, 0, 0, 1), 0xc0a8_0001, 0xc0a8_0002, &options);
    assert_eq!(frame.destination, MacAddress(9, 8, 7, 6, 5, 4));
    assert_eq!(frame.source, MacAddress(1, 2, 3, 4, 5, 6));
    assert_eq!(frame.sender_mac, MacAddress(1, 2, 3, 4, 5, 6));
    assert_eq!(frame.sender_ipv4, 0x0a0a_0a0a);
    assert_eq!(frame.hw_type, 6);
    assert_eq!(frame.proto_type, 0x86dd);
    assert_eq!(frame.operation, OPERATION_REQUEST);
    assert_eq!(frame.target_mac, MacAddress::zero());
    assert_eq!(frame.target_ipv4, 0xc0a8_0002);
    assert_eq!(frame.vlan_id, None);
}

#[test]
fn decoding_inverts_encoding() {
    let frame = reply_from(0x0a00_0005, MacAddress(0xaa, 0xbb, 0xcc, 0x00, 0x00, 0x01));
    assert_eq!(parse_arp_frame(&frame.to_bytes()), Some(frame));

    let mut tagged = frame;
    tagged.vlan_id = Some(42);
    let bytes = tagged.to_bytes();
    assert_eq!(bytes.len(), 46);
    assert_eq!(parse_arp_frame(&bytes), Some(tagged));
}

#[test]
fn padding_behind_the_payload_is_ignored() {
    let frame = reply_from(0x0a00_0005, MacAddress(0xaa, 0xbb, 0xcc, 0x00, 0x00, 0x01));
    let mut bytes = frame.to_bytes();
    bytes.resize(60, 0);
    assert_eq!(parse_arp_frame(&bytes), Some(frame));
}

#[test]
fn reply_of_the_expected_types_is_accepted() {
    let options = ScanOptions::default();
    let mac = MacAddress(0xaa, 0xbb, 0xcc, 0x00, 0x00, 0x01);
    let bytes = reply_from(0x0a00_0005, mac).to_bytes();
    assert_eq!(decode_reply(&bytes, &options), Some((0x0a00_0005, mac)));
}

#[test]
fn request_is_not_a_reply() {
    let options = ScanOptions::default();
    let bytes = build_arp_request(MacAddress(2, 0, 0, 0, 0, 1), 1, 2, &options);
    assert!(parse_arp_frame(&bytes).is_some());
    assert_eq!(decode_reply(&bytes, &options), None);
}

#[test]
fn foreign_ethertype_is_dropped() {
    let options = ScanOptions::default();
    let mut bytes = reply_from(1, MacAddress(2, 0, 0, 0, 0, 2)).to_bytes();
    bytes[12] = 0x08;
    bytes[13] = 0x00;
    assert_eq!(parse_arp_frame(&bytes), None);
    assert_eq!(decode_reply(&bytes, &options), None);
}

#[test]
fn truncated_frames_are_dropped() {
    let options = ScanOptions::default();
    let bytes = reply_from(1, MacAddress(2, 0, 0, 0, 0, 2)).to_bytes();
    for length in 0..42 {
        assert_eq!(decode_reply(&bytes[..length], &options), None);
    }
    assert!(decode_reply(&bytes[..42], &options).is_some());

    let mut tagged = reply_from(1, MacAddress(2, 0, 0, 0, 0, 2));
    tagged.vlan_id = Some(7);
    let bytes = tagged.to_bytes();
    for length in 0..46 {
        assert_eq!(decode_reply(&bytes[..length], &options), None);
    }
    assert!(decode_reply(&bytes, &options).is_some());
}

#[test]
fn mismatched_types_are_dropped() {
    let options = ScanOptions::default();
    let mut frame = reply_from(1, MacAddress(2, 0, 0, 0, 0, 2));
    frame.hw_type = 6;
    assert_eq!(decode_reply(&frame.to_bytes(), &options), None);

    let mut frame = reply_from(1, MacAddress(2, 0, 0, 0, 0, 2));
    frame.proto_type = 0x86dd;
    assert_eq!(decode_reply(&frame.to_bytes(), &options), None);

    let mut expecting = ScanOptions::default();
    expecting.hw_type = Some(6);
    let mut frame = reply_from(1, MacAddress(2, 0, 0, 0, 0, 2));
    frame.hw_type = 6;
    assert!(decode_reply(&frame.to_bytes(), &expecting).is_some());
    assert_eq!(
        decode_reply(&reply_from(1, MacAddress(2, 0, 0, 0, 0, 2)).to_bytes(), &expecting),
        None
    );
}

#[test]
fn constants_have_their_assigned_values() {
    assert_eq!(ETHERTYPE_ARP, 0x0806);
    assert_eq!(PROTOCOL_IPV4, 0x0800);
    assert_eq!(HARDWARE_ETHERNET, 1);
    assert_eq!(OPERATION_REQUEST, 1);
    assert_eq!(OPERATION_REPLY, 2);
}
