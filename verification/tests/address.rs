use arp_scan::address::{
    compute_network_size, exchange, shuffle, AddressRange, NetworkIterator, ScanError,
};

fn drain(mut iterator: NetworkIterator) -> Vec<u32> {
    let mut addresses = Vec::new();
    while let Some(address) = iterator.next() {
        addresses.push(address);
    }
    assert_eq!(iterator.next(), None);
    addresses
}

#[test]
fn blocks_are_built_only_with_a_valid_prefix() {
    assert_eq!(
        AddressRange::v4(0x0a00_0000, 24),
        Some(AddressRange::V4 { address: 0x0a00_0000, prefix: 24 })
    );
    assert_eq!(AddressRange::v4(0, 32), Some(AddressRange::V4 { address: 0, prefix: 32 }));
    assert_eq!(AddressRange::v4(0, 33), None);
    assert_eq!(AddressRange::v6(1, 128), Some(AddressRange::V6 { address: 1, prefix: 128 }));
    assert_eq!(AddressRange::v6(1, 129), None);
}

#[test]
fn sizes_of_the_blocks_add_up() {
    let ranges = vec![
        AddressRange::V4 { address: 0x0a00_0000, prefix: 30 },
        AddressRange::V4 { address: 0xc0a8_0100, prefix: 30 },
    ];
    assert_eq!(compute_network_size(&ranges), Ok(8));

    let ranges = vec![
        AddressRange::V4 { address: 0xc0a8_0101, prefix: 24 },
        AddressRange::V4 { address: 0x0a00_0001, prefix: 32 },
        AddressRange::V4 { address: 0x0a00_0000, prefix: 31 },
        AddressRange::V4 { address: 0xac10_0000, prefix: 16 },
    ];
    assert_eq!(compute_network_size(&ranges), Ok(256 + 1 + 2 + 65536));
    assert_eq!(compute_network_size(&Vec::new()), Ok(0));
}

#[test]
fn block_of_all_addresses_is_announced_as_one_less() {
    let ranges = vec![AddressRange::V4 { address: 0, prefix: 0 }];
    assert_eq!(compute_network_size(&ranges), Ok(0xffff_ffff));
    let ranges = vec![
        AddressRange::V4 { address: 0, prefix: 0 },
        AddressRange::V4 { address: 0, prefix: 1 },
    ];
    assert_eq!(compute_network_size(&ranges), Ok(0xffff_ffff + 0x8000_0000));
}

#[test]
fn ipv6_block_is_a_sizing_error() {
    let ranges = vec![
        AddressRange::V4 { address: 0x0a00_0000, prefix: 30 },
        AddressRange::V6 { address: 1, prefix: 64 },
    ];
    assert_eq!(compute_network_size(&ranges), Err(ScanError::Ipv6NotSupported));
    assert_eq!(
        NetworkIterator::new(&ranges, false).err(),
        Some(ScanError::Ipv6NotSupported)
    );
    assert_eq!(NetworkIterator::new(&ranges, true).err(), Some(ScanError::Ipv6NotSupported));
}

#[test]
fn sequential_pass_goes_block_after_block() {
    let ranges = vec![
        AddressRange::V4 { address: 0xc0a8_0105, prefix: 30 },
        AddressRange::V4 { address: 0x0a00_0000, prefix: 31 },
        AddressRange::V4 { address: 0x0a00_0063, prefix: 32 },
    ];
    let iterator = NetworkIterator::new(&ranges, false).unwrap();
    assert_eq!(
        drain(iterator),
        vec![
            0xc0a8_0104,
            0xc0a8_0105,
            0xc0a8_0106,
            0xc0a8_0107,
            0x0a00_0000,
            0x0a00_0001,
            0x0a00_0063,
        ]
    );
}

#[test]
fn pass_includes_network_and_broadcast_addresses() {
    let ranges = vec![AddressRange::V4 { address: 0xc0a8_0180, prefix: 24 }];
    let addresses = drain(NetworkIterator::new(&ranges, false).unwrap());
    assert_eq!(addresses.len(), 256);
    assert_eq!(addresses[0], 0xc0a8_0100);
    assert_eq!(addresses[255], 0xc0a8_01ff);
}

#[test]
fn pass_reaches_the_last_address_of_the_space() {
    let ranges = vec![AddressRange::V4 { address: 0xffff_ffff, prefix: 30 }];
    let addresses = drain(NetworkIterator::new(&ranges, false).unwrap());
    assert_eq!(addresses, vec![0xffff_fffc, 0xffff_fffd, 0xffff_fffe, 0xffff_ffff]);
}

#[test]
fn pass_over_nothing_is_empty() {
    assert!(drain(NetworkIterator::new(&Vec::new(), false).unwrap()).is_empty());
    assert!(drain(NetworkIterator::new(&Vec::new(), true).unwrap()).is_empty());
}

#[test]
fn shuffled_pass_visits_the_same_addresses() {
    let ranges = vec![
        AddressRange::V4 { address: 0xc0a8_0100, prefix: 24 },
        AddressRange::V4 { address: 0x0a00_0000, prefix: 30 },
    ];
    let mut expected = drain(NetworkIterator::new(&ranges, false).unwrap());
    let mut shuffled = drain(NetworkIterator::new(&ranges, true).unwrap());
    assert_eq!(shuffled.len(), 260);
    expected.sort();
    shuffled.sort();
    assert_eq!(shuffled, expected);
}

#[test]
fn two_shuffled_passes_differ() {
    let ranges = vec![AddressRange::V4 { address: 0x0a00_0000, prefix: 20 }];
    let first = drain(NetworkIterator::new(&ranges, true).unwrap());
    let second = drain(NetworkIterator::new(&ranges, true).unwrap());
    assert_eq!(first.len(), 4096);
    assert_eq!(second.len(), 4096);
    assert_ne!(first, second);
}

#[test]
fn overlapping_blocks_are_visited_once_each() {
    let ranges = vec![
        AddressRange::V4 { address: 0x0a00_0000, prefix: 31 },
        AddressRange::V4 { address: 0x0a00_0000, prefix: 31 },
    ];
    let addresses = drain(NetworkIterator::new(&ranges, false).unwrap());
    assert_eq!(addresses, vec![0x0a00_0000, 0x0a00_0001, 0x0a00_0000, 0x0a00_0001]);
}

#[test]
fn shuffle_keeps_the_items() {
    let mut items: Vec<u32> = (0..1000).collect();
    shuffle(&mut items);
    assert_ne!(items, (0..1000).collect::<Vec<u32>>());
    items.sort();
    assert_eq!(items, (0..1000).collect::<Vec<u32>>());

    let mut one = vec![7u32];
    shuffle(&mut one);
    assert_eq!(one, vec![7]);
    let mut none: Vec<u32> = Vec::new();
    shuffle(&mut none);
    assert!(none.is_empty());
}

#[test]
fn exchange_swaps_two_positions() {
    let mut items = vec![1u32, 2, 3, 4];
    exchange(&mut items, 0, 3);
    assert_eq!(items, vec![4, 2, 3, 1]);
    exchange(&mut items, 1, 1);
    assert_eq!(items, vec![4, 2, 3, 1]);
}
