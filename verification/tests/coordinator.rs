use arp_scan::address::{AddressRange, ScanError};
use arp_scan::collector::Collector;
use arp_scan::coordinator::{Coordinator, CoordinatorAction, ScanPhase, WAIT_STEP_MS};

fn two_small_blocks() -> Vec<AddressRange> {
    vec![
        AddressRange::V4 { address: 0x0a00_0000, prefix: 30 },
        AddressRange::V4 { address: 0xc0a8_0100, prefix: 30 },
    ]
}

#[test]
fn scan_without_responders_ends_empty_after_the_timeout() {
    let timeout_ms: u64 = 250;
    let mut coordinator = Coordinator::new(two_small_blocks(), false, 1, 10, timeout_ms).unwrap();
    let collector = Collector::new();
    let mut sent: Vec<u32> = Vec::new();
    let mut elapsed_ms: u128 = 0;
    loop {
        match coordinator.step(false) {
            CoordinatorAction::Send { target, pause_ms } => {
                assert_eq!(pause_ms, 10);
                sent.push(target);
                elapsed_ms += pause_ms as u128;
            }
            CoordinatorAction::Wait { pause_ms } => {
                assert_eq!(pause_ms, WAIT_STEP_MS);
                elapsed_ms += pause_ms as u128;
            }
            CoordinatorAction::Stop => break,
        }
    }
    assert_eq!(
        sent,
        vec![
            0x0a00_0000,
            0x0a00_0001,
            0x0a00_0002,
            0x0a00_0003,
            0xc0a8_0100,
            0xc0a8_0101,
            0xc0a8_0102,
            0xc0a8_0103,
        ]
    );
    assert_eq!(coordinator.waited(), 300);
    assert_eq!(coordinator.current_phase(), ScanPhase::Stopped);
    let (summary, targets) = collector.finish(elapsed_ms);
    assert!(targets.is_empty());
    assert_eq!(summary.packet_count, 0);
    assert_eq!(summary.arp_count, 0);
    assert!(summary.duration_ms >= timeout_ms as u128);
}

#[test]
fn every_pass_visits_every_address() {
    let mut coordinator = Coordinator::new(two_small_blocks(), true, 3, 5, 0).unwrap();
    let mut sent: Vec<u32> = Vec::new();
    loop {
        match coordinator.step(false) {
            CoordinatorAction::Send { target, .. } => sent.push(target),
            CoordinatorAction::Wait { .. } => panic!("nothing to wait for"),
            CoordinatorAction::Stop => break,
        }
    }
    assert_eq!(sent.len(), 24);
    for pass in sent.chunks(8) {
        let mut pass = pass.to_vec();
        pass.sort();
        assert_eq!(
            pass,
            vec![
                0x0a00_0000,
                0x0a00_0001,
                0x0a00_0002,
                0x0a00_0003,
                0xc0a8_0100,
                0xc0a8_0101,
                0xc0a8_0102,
                0xc0a8_0103,
            ]
        );
    }
}

#[test]
fn interrupt_ends_the_sending_at_once() {
    let mut coordinator = Coordinator::new(two_small_blocks(), false, 2, 10, 1000).unwrap();
    assert_eq!(coordinator.current_phase(), ScanPhase::Sending);
    assert_eq!(
        coordinator.step(false),
        CoordinatorAction::Send { target: 0x0a00_0000, pause_ms: 10 }
    );
    assert_eq!(
        coordinator.step(false),
        CoordinatorAction::Send { target: 0x0a00_0001, pause_ms: 10 }
    );
    assert_eq!(coordinator.step(true), CoordinatorAction::Stop);
    assert_eq!(coordinator.current_phase(), ScanPhase::Stopped);
    assert_eq!(coordinator.step(false), CoordinatorAction::Stop);
    assert_eq!(coordinator.waited(), 0);
}

#[test]
fn interrupt_ends_the_waiting_early() {
    let ranges = vec![AddressRange::V4 { address: 0x0a00_0001, prefix: 32 }];
    let mut coordinator = Coordinator::new(ranges, false, 1, 10, 1000).unwrap();
    assert_eq!(
        coordinator.step(false),
        CoordinatorAction::Send { target: 0x0a00_0001, pause_ms: 10 }
    );
    assert_eq!(coordinator.step(false), CoordinatorAction::Wait { pause_ms: 100 });
    assert_eq!(coordinator.current_phase(), ScanPhase::Waiting);
    assert_eq!(coordinator.step(false), CoordinatorAction::Wait { pause_ms: 100 });
    assert_eq!(coordinator.step(true), CoordinatorAction::Stop);
    assert_eq!(coordinator.waited(), 200);
}

#[test]
fn scan_of_nothing_only_waits() {
    let mut coordinator = Coordinator::new(Vec::new(), false, 5, 10, 100).unwrap();
    assert_eq!(coordinator.step(false), CoordinatorAction::Wait { pause_ms: 100 });
    assert_eq!(coordinator.step(false), CoordinatorAction::Stop);

    let mut coordinator = Coordinator::new(two_small_blocks(), false, 0, 10, 0).unwrap();
    assert_eq!(coordinator.step(false), CoordinatorAction::Stop);
}

#[test]
fn scan_of_an_ipv6_block_is_refused() {
    let ranges = vec![AddressRange::V6 { address: 1, prefix: 64 }];
    assert_eq!(
        Coordinator::new(ranges, false, 1, 10, 100).err(),
        Some(ScanError::Ipv6NotSupported)
    );
}
