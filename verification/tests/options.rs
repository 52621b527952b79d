use arp_scan::options::{MacAddress, OutputFormat, ScanOptions};

#[test]
fn defaults_are_one_sequential_pass_without_overrides() {
    let options = ScanOptions::default();
    assert_eq!(options.retry_count, 1);
    assert!(!options.randomize_targets);
    assert_eq!(options.timeout_ms, 2000);
    assert_eq!(options.interval_ms, None);
    assert_eq!(options.bandwidth, None);
    assert_eq!(options.source_ipv4, None);
    assert_eq!(options.source_mac, None);
    assert_eq!(options.destination_mac, None);
    assert_eq!(options.vlan_id, None);
    assert_eq!(options.hw_type, None);
    assert_eq!(options.proto_type, None);
    assert!(!options.resolve_hostname);
    assert_eq!(options.output, OutputFormat::Plain);
    assert!(options.is_plain_output());
    assert!(!options.has_vlan());
    assert!(options.has_valid_timing());
}

#[test]
fn output_is_plain_only_for_the_table() {
    let mut options = ScanOptions::default();
    for output in [OutputFormat::Json, OutputFormat::Yaml, OutputFormat::Csv] {
        options.output = output;
        assert!(!options.is_plain_output());
    }
    options.vlan_id = Some(10);
    assert!(options.has_vlan());
}

#[test]
fn timing_hint_of_zero_is_not_valid() {
    let mut options = ScanOptions::default();
    options.interval_ms = Some(0);
    assert!(!options.has_valid_timing());
    options.bandwidth = Some(1000);
    assert!(!options.has_valid_timing());
    options.interval_ms = Some(5);
    options.bandwidth = Some(0);
    assert!(options.has_valid_timing());
    options.interval_ms = None;
    assert!(!options.has_valid_timing());
    options.bandwidth = Some(1);
    assert!(options.has_valid_timing());
}

#[test]
fn hardware_addresses_give_their_octets() {
    let mac = MacAddress(1, 2, 3, 4, 5, 6);
    let octets: Vec<u8> = (0..6).map(|index| mac.octet(index)).collect();
    assert_eq!(octets, vec![1, 2, 3, 4, 5, 6]);
    assert_eq!(MacAddress::broadcast(), MacAddress(0xff, 0xff, 0xff, 0xff, 0xff, 0xff));
    assert_eq!(MacAddress::zero(), MacAddress(0, 0, 0, 0, 0, 0));
}
