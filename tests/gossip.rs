use ebpf_node::blacklist::PrefixKey;
use std::hash::Hasher;
use ebpf_node::control::{step, ControlAction, ControlEvent, Phase, DEFAULT_OFFENDER};
use ebpf_node::gossip::{attack_block, get_ip_from_multiaddr, is_attack_report, message_id, AddrComponent};

#[test]
fn equal_payloads_share_identity() {
    let from_a = b"ATTACK from 10.0.0.9".to_vec();
    let from_b = b"ATTACK from 10.0.0.9".to_vec();
    assert_eq!(message_id(&from_a), message_id(&from_b));
    assert_ne!(message_id(b"ATTACK one"), message_id(b"ATTACK two"));
}

#[test]
fn message_id_is_default_hasher_digest() {
    let mut s = std::collections::hash_map::DefaultHasher::new();
    s.write(b"hello");
    assert_eq!(message_id(b"hello"), s.finish());
}

#[test]
fn attack_marker_recognised() {
    assert!(is_attack_report(b"ATTACK"));
    assert!(is_attack_report(b"ATTACK 1.2.3.4"));
    assert!(!is_attack_report(b"ATTAC"));
    assert!(!is_attack_report(b"attack"));
    assert!(!is_attack_report(b" ATTACK"));
    assert!(!is_attack_report(b""));
}

#[test]
fn attack_blocks_offender_host() {
    assert_eq!(attack_block(b"ATTACK!", DEFAULT_OFFENDER), Some(PrefixKey::new(32, 0x01020304)));
    assert_eq!(attack_block(b"hello", DEFAULT_OFFENDER), None);
}

#[test]
fn first_ipv4_of_multiaddr() {
    let a = vec![AddrComponent::Other, AddrComponent::Ip4(7), AddrComponent::Ip4(9)];
    assert_eq!(get_ip_from_multiaddr(&a), Some(7));
    assert_eq!(get_ip_from_multiaddr(&vec![AddrComponent::Other]), None);
    assert_eq!(get_ip_from_multiaddr(&vec![]), None);
}

#[test]
fn control_lifecycle() {
    let (p, a) = step(Phase::Initializing, &ControlEvent::Loaded, DEFAULT_OFFENDER);
    assert_eq!((p, a), (Phase::Attaching, ControlAction::Attach));
    let (p, a) = step(p, &ControlEvent::Attached, DEFAULT_OFFENDER);
    assert_eq!((p, a), (Phase::Running, ControlAction::Join));
    let (p, a) = step(p, &ControlEvent::Tick, DEFAULT_OFFENDER);
    assert_eq!((p, a), (Phase::Running, ControlAction::Report));
    let (p, a) = step(p, &ControlEvent::Message(b"ATTACK".to_vec()), 0x0a000005);
    assert_eq!((p, a), (Phase::Running, ControlAction::Block(PrefixKey::new(32, 0x0a000005))));
    let (p, a) = step(p, &ControlEvent::Message(b"hi".to_vec()), DEFAULT_OFFENDER);
    assert_eq!((p, a), (Phase::Running, ControlAction::Ignore));
    let (p, a) = step(p, &ControlEvent::Interrupt, DEFAULT_OFFENDER);
    assert_eq!((p, a), (Phase::ShuttingDown, ControlAction::Exit(0)));
    let (p, a) = step(p, &ControlEvent::Tick, DEFAULT_OFFENDER);
    assert_eq!((p, a), (Phase::ShuttingDown, ControlAction::Ignore));
}

#[test]
fn attach_failure_is_fatal() {
    let (p, a) = step(Phase::Attaching, &ControlEvent::Failed, DEFAULT_OFFENDER);
    assert_eq!((p, a), (Phase::ShuttingDown, ControlAction::Exit(1)));
    let (p, a) = step(Phase::Initializing, &ControlEvent::Failed, DEFAULT_OFFENDER);
    assert_eq!((p, a), (Phase::ShuttingDown, ControlAction::Exit(1)));
    // Messages before running are not acted on.
    let (p, a) = step(Phase::Attaching, &ControlEvent::Message(b"ATTACK".to_vec()), DEFAULT_OFFENDER);
    assert_eq!((p, a), (Phase::Attaching, ControlAction::Ignore));
}
