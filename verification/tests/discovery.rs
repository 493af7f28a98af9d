use captura_bandera::ReplyFilter;
use captura_bandera::{
    broadcast_targets_from, discovery_broadcast_targets, InterfaceAddr, GLOBAL_BROADCAST,
};

#[test]
fn targets_always_include_global_broadcast() {
    let targets = discovery_broadcast_targets();
    assert!(targets.contains(&0xFFFF_FFFF));
}

#[test]
fn targets_have_no_duplicates() {
    let targets = discovery_broadcast_targets();
    for (i, a) in targets.iter().enumerate() {
        for b in &targets[i + 1..] {
            assert_ne!(a, b);
        }
    }
}

#[test]
fn directed_broadcasts_come_from_non_loopback_ipv4_interfaces() {
    let lan = (u32::from_be_bytes([192, 168, 1, 20]), u32::from_be_bytes([255, 255, 255, 0]));
    let vpn = (u32::from_be_bytes([26, 10, 0, 5]), u32::from_be_bytes([255, 0, 0, 0]));
    let ifaces = vec![
        InterfaceAddr { is_loopback: true, ipv4: Some((u32::from_be_bytes([127, 0, 0, 1]), u32::from_be_bytes([255, 0, 0, 0]))) },
        InterfaceAddr { is_loopback: false, ipv4: Some(lan) },
        InterfaceAddr { is_loopback: false, ipv4: None },
        InterfaceAddr { is_loopback: false, ipv4: Some((u32::from_be_bytes([10, 0, 0, 1]), 0xFFFF_FFFF)) },
        InterfaceAddr { is_loopback: false, ipv4: Some(vpn) },
        InterfaceAddr { is_loopback: false, ipv4: Some(lan) },
    ];
    let targets = broadcast_targets_from(&ifaces);
    assert_eq!(
        targets,
        vec![
            GLOBAL_BROADCAST,
            u32::from_be_bytes([192, 168, 1, 255]),
            u32::from_be_bytes([26, 255, 255, 255]),
        ]
    );
}

#[test]
fn repeated_discovery_replies_are_kept_once() {
    let mut seen = ReplyFilter::new();
    assert!(seen.first_seen((1234, 7, 5000)));
    assert!(!seen.first_seen((1234, 7, 5000)));
    assert!(seen.first_seen((1234, 8, 5000)));
    assert!(seen.first_seen((1234, 7, 5001)));
    assert!(seen.first_seen((99, 7, 5000)));
    assert_eq!(seen.seen.len(), 4);
}
