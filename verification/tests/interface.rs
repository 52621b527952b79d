use arp_scan::address::{AddressRange, ScanError};
use arp_scan::interface::{
    count_ready_interfaces, find_source_ip, select_default_interface, InterfaceInfo,
};
use arp_scan::options::MacAddress;

fn interface(name: &str, up: bool, loopback: bool, mac: bool, ips: Vec<AddressRange>) -> InterfaceInfo {
    InterfaceInfo {
        name: String::from(name),
        index: 1,
        is_up: up,
        is_loopback: loopback,
        mac: if mac { Some(MacAddress(2, 0, 0, 0, 0, 1)) } else { None },
        ips,
    }
}

fn v4(address: u32) -> AddressRange {
    AddressRange::V4 { address, prefix: 24 }
}

fn v6() -> AddressRange {
    AddressRange::V6 { address: 0xfe80 << 112, prefix: 64 }
}

#[test]
fn default_interface_is_the_first_that_can_be_scanned() {
    let interfaces = vec![
        interface("lo", true, true, true, vec![v4(0x7f00_0001)]),
        interface("nomac", true, false, false, vec![v4(0x0a00_0001)]),
        interface("down", false, false, true, vec![v4(0x0a00_0002)]),
        interface("noip", true, false, true, Vec::new()),
        interface("only6", true, false, true, vec![v6()]),
        interface("eth0", true, false, true, vec![v6(), v4(0xc0a8_0102)]),
        interface("eth1", true, false, true, vec![v4(0xc0a8_0202)]),
    ];
    let selected = select_default_interface(&interfaces);
    assert_eq!(selected.map(|interface| interface.name.as_str()), Some("eth0"));
    assert_eq!(interfaces[5].first_ipv4(), Some(1));
    assert!(interfaces[5].eligible());
    assert!(!interfaces[4].eligible());
}

#[test]
fn no_interface_is_selected_when_none_can_be_scanned() {
    let interfaces = vec![
        interface("lo", true, true, true, vec![v4(0x7f00_0001)]),
        interface("only6", true, false, true, vec![v6()]),
    ];
    assert!(select_default_interface(&interfaces).is_none());
    assert!(select_default_interface(&Vec::new()).is_none());
}

#[test]
fn ready_interfaces_are_counted() {
    let interfaces = vec![
        interface("lo", true, true, true, vec![v4(0x7f00_0001)]),
        interface("nomac", true, false, false, vec![v4(0x0a00_0001)]),
        interface("down", false, false, true, vec![v4(0x0a00_0002)]),
        interface("noip", true, false, true, Vec::new()),
        interface("only6", true, false, true, vec![v6()]),
        interface("eth0", true, false, true, vec![v4(0xc0a8_0102)]),
    ];
    assert_eq!(count_ready_interfaces(&interfaces), 3);
    assert_eq!(count_ready_interfaces(&Vec::new()), 0);
    assert!(interfaces[1].ready());
    assert!(!interfaces[3].ready());
}

#[test]
fn source_address_is_forced_or_the_first_of_the_interface() {
    let eth0 = interface("eth0", true, false, true, vec![v6(), v4(0xc0a8_0102), v4(0x0a00_0001)]);
    assert_eq!(find_source_ip(&eth0, None), Ok(0xc0a8_0102));
    assert_eq!(find_source_ip(&eth0, Some(0x0a0a_0a0a)), Ok(0x0a0a_0a0a));
    let only6 = interface("only6", true, false, true, vec![v6()]);
    assert_eq!(find_source_ip(&only6, None), Err(ScanError::NoSourceAddress));
    assert_eq!(find_source_ip(&only6, Some(1)), Ok(1));
}
