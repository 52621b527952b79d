use arp_scan::collector::{Collector, FrameAction};
use arp_scan::frame::{ArpFrame, HARDWARE_ETHERNET, OPERATION_REPLY, PROTOCOL_IPV4};
use arp_scan::options::{MacAddress, ScanOptions};
use arp_scan::vendor::VendorTable;

fn reply_bytes(ipv4: u32, mac: MacAddress) -> Vec<u8> {
    ArpFrame {
        destination: MacAddress(0x02, 0, 0, 0, 0, 0x01),
        source: mac,
        vlan_id: None,
        hw_type: HARDWARE_ETHERNET,
        proto_type: PROTOCOL_IPV4,
        operation: OPERATION_REPLY,
        sender_mac: mac,
        sender_ipv4: ipv4,
        target_mac: MacAddress(0x02, 0, 0, 0, 0, 0x01),
        target_ipv4: 0x0a00_0001,
    }
    .to_bytes()
}

#[test]
fn frame_that_is_not_arp_counts_as_received_only() {
    let options = ScanOptions::default();
    let mut collector = Collector::new();
    let mut bytes = reply_bytes(0x0a00_0005, MacAddress(0xaa, 0xbb, 0xcc, 0, 0, 1));
    bytes[12] = 0x86;
    bytes[13] = 0xdd;
    assert_eq!(collector.receive_frame(&bytes, &options), FrameAction::Ignore);
    assert_eq!(collector.received(), 1);
    assert_eq!(collector.accepted(), 0);
    assert_eq!(collector.host_count(), 0);
}

#[test]
fn first_reply_creates_one_entry() {
    let options = ScanOptions::default();
    let vendors = VendorTable::new();
    let mut collector = Collector::new();
    let mac = MacAddress(0xaa, 0xbb, 0xcc, 0x00, 0x00, 0x01);
    let action = collector.receive_frame(&reply_bytes(0x0a00_0005, mac), &options);
    assert_eq!(
        action,
        FrameAction::Resolve { ipv4: 0x0a00_0005, mac, lookup_hostname: false }
    );
    assert_eq!(collector.host_count(), 0);
    assert!(collector.record_target(0x0a00_0005, mac, None, &vendors));
    assert_eq!(collector.received(), 1);
    assert_eq!(collector.accepted(), 1);
    assert_eq!(collector.host_count(), 1);
    assert!(collector.is_known(0x0a00_0005));

    let (summary, targets) = collector.finish(1234);
    assert_eq!(summary.packet_count, 1);
    assert_eq!(summary.arp_count, 1);
    assert_eq!(summary.duration_ms, 1234);
    assert_eq!(targets.len(), 1);
    assert_eq!(targets[0].ipv4, 0x0a00_0005);
    assert_eq!(targets[0].mac, mac);
    assert_eq!(targets[0].hostname, None);
    assert_eq!(targets[0].vendor, None);
}

#[test]
fn second_reply_from_the_same_address_changes_nothing() {
    let mut options = ScanOptions::default();
    options.resolve_hostname = true;
    let mut vendors = VendorTable::new();
    assert!(vendors.add("AA:BB:CC", "Acme"));
    let mut collector = Collector::new();
    let first = MacAddress(0xaa, 0xbb, 0xcc, 0x00, 0x00, 0x01);
    let second = MacAddress(0x11, 0x22, 0x33, 0x44, 0x55, 0x66);

    let action = collector.receive_frame(&reply_bytes(0x0a00_0005, first), &options);
    assert_eq!(
        action,
        FrameAction::Resolve { ipv4: 0x0a00_0005, mac: first, lookup_hostname: true }
    );
    assert!(collector.record_target(0x0a00_0005, first, Some(String::from("printer")), &vendors));

    let action = collector.receive_frame(&reply_bytes(0x0a00_0005, second), &options);
    assert_eq!(action, FrameAction::Ignore);
    assert!(!collector.record_target(0x0a00_0005, second, Some(String::from("other")), &vendors));

    assert_eq!(collector.received(), 2);
    assert_eq!(collector.accepted(), 2);
    let (_, targets) = collector.finish(0);
    assert_eq!(targets.len(), 1);
    assert_eq!(targets[0].ipv4, 0x0a00_0005);
    assert_eq!(targets[0].mac, first);
    assert_eq!(targets[0].hostname, Some(String::from("printer")));
    assert_eq!(targets[0].vendor, Some(String::from("Acme")));
}

#[test]
fn hosts_are_kept_in_the_order_of_their_first_reply() {
    let options = ScanOptions::default();
    let vendors = VendorTable::new();
    let mut collector = Collector::new();
    for ipv4 in [0x0a00_0009u32, 0x0a00_0003, 0x0a00_0007, 0x0a00_0003] {
        let mac = MacAddress(2, 0, 0, 0, 0, (ipv4 & 0xff) as u8);
        if let FrameAction::Resolve { ipv4, mac, .. } =
            collector.receive_frame(&reply_bytes(ipv4, mac), &options)
        {
            collector.record_target(ipv4, mac, None, &vendors);
        }
    }
    assert!(collector.can_receive());
    let (summary, targets) = collector.finish(10);
    assert_eq!(summary.packet_count, 4);
    assert_eq!(summary.arp_count, 4);
    let order: Vec<u32> = targets.iter().map(|target| target.ipv4).collect();
    assert_eq!(order, vec![0x0a00_0009, 0x0a00_0003, 0x0a00_0007]);
}

#[test]
fn empty_collection_reports_nothing() {
    let collector = Collector::new();
    assert!(!collector.is_known(0));
    let (summary, targets) = collector.finish(2000);
    assert_eq!(summary.packet_count, 0);
    assert_eq!(summary.arp_count, 0);
    assert_eq!(summary.duration_ms, 2000);
    assert!(targets.is_empty());
}
