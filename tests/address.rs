use marecchia::address::{Address, Component};

fn dns(host: &str) -> Component {
    Component::Other(host.as_bytes().to_vec())
}

fn last_is(addr: &Address, peer: &[u8]) -> bool {
    matches!(addr.components().last(), Some(Component::P2p(p)) if p.as_slice() == peer)
}

#[test]
fn dial_target_appends_peer() {
    let peer = vec![1u8, 2, 3];
    let addr = Address::new(vec![dns("example.org")]);
    let target = addr.dial_target(&peer);
    assert_eq!(target.components().len(), 2);
    assert!(last_is(&target, &peer));
}

#[test]
fn dial_target_keeps_existing_suffix() {
    let peer = vec![9u8, 9];
    let addr = Address::new(vec![dns("example.org"), Component::P2p(peer.clone())]);
    let target = addr.dial_target(&peer);
    assert_eq!(target.components().len(), 2);
    assert!(last_is(&target, &peer));
}

#[test]
fn dial_target_appends_after_other_peer() {
    let peer = vec![9u8, 9];
    let addr = Address::new(vec![dns("relay"), Component::P2p(vec![1])]);
    let target = addr.dial_target(&peer);
    assert_eq!(target.components().len(), 3);
    assert!(last_is(&target, &peer));
}

#[test]
fn empty_address_ends_with_no_peer() {
    assert!(!Address::empty().ends_with_peer(&vec![1]));
    let target = Address::empty().dial_target(&vec![1]);
    assert_eq!(target.components().len(), 1);
}
