use marecchia::actions::Action;
use marecchia::address::{Address, Component};
use marecchia::event_loop::{EventLoop, RegistrationStatus};
use marecchia::events::{
    Command, ComposedSwarmEvent, GossipsubEvent, IdentifyEvent, PeerRecord, PingEvent, Registration,
    RendezvousEvent, RequestError, SubscribeFailure, SwarmEvent,
};
use marecchia::protocol::{ClientError, Namespace, REGISTRATION_TTL_SECS};

type Node = EventLoop<u32, u32>;

fn node(namespace: &str, capacity: usize) -> Node {
    EventLoop::new(Namespace::new(namespace.to_string()).unwrap(), capacity)
}

/// Requests `segment_id` with sink `sink` and reports a successful
/// subscription; returns the actions of both steps.
fn request(n: &mut Node, segment_id: &str, sink: u32) -> Vec<Action<u32, u32>> {
    let actions = n.handle_command(Command::RequestSegment { segment_id: segment_id.to_string(), sender: sink });
    assert_eq!(actions.len(), 1);
    let mut out = Vec::new();
    for a in actions {
        match a {
            Action::Subscribe { topic, segment_id, sender } => {
                assert_eq!(topic, segment_id);
                out.extend(n.subscribed(segment_id, sender, Ok(())));
            }
            _ => panic!("expected a subscription"),
        }
    }
    out
}

fn message(topic: &str, data: Vec<u8>) -> SwarmEvent {
    SwarmEvent::Behaviour(ComposedSwarmEvent::Gossipsub(GossipsubEvent::Message { topic: topic.to_string(), data }))
}

fn ping_failure(peer: Vec<u8>) -> SwarmEvent {
    SwarmEvent::Behaviour(ComposedSwarmEvent::Ping(PingEvent { peer, result: Err("timeout".to_string()) }))
}

#[test]
fn happy_path_single_segment() {
    let mut a = node("S1", 10);
    let mut b = node("S1", 10);
    let published = b.handle_command(Command::ProvideSegment { segment_id: "seg-1".to_string(), data: vec![0x01, 0x02, 0x03] });
    let (topic, data) = match published.into_iter().next() {
        Some(Action::Publish { topic, data }) => (topic, data),
        _ => panic!("expected a publication"),
    };
    assert_eq!(topic, "seg-1");
    assert!(request(&mut a, "seg-1", 7).is_empty());
    let resolved = a.handle_event(message(&topic, data));
    assert_eq!(resolved.len(), 1);
    match &resolved[0] {
        Action::ResolveRequest { sender, result } => {
            assert_eq!(*sender, 7);
            assert_eq!(result, &Ok(vec![0x01, 0x02, 0x03]));
        }
        _ => panic!("expected a resolution"),
    }
    assert_eq!(a.pending_requests(), 0);
}

#[test]
fn second_message_is_ignored() {
    let mut a = node("S1", 10);
    request(&mut a, "seg-1", 1);
    assert_eq!(a.handle_event(message("seg-1", vec![1])).len(), 1);
    assert!(a.handle_event(message("seg-1", vec![2])).is_empty());
}

#[test]
fn no_provider_stays_pending_until_evicted() {
    let mut a = node("S1", 10);
    assert!(request(&mut a, "seg-x", 100).is_empty());
    for i in 0..9u32 {
        assert!(request(&mut a, &format!("other-{}", i), i).is_empty());
        assert!(a.is_pending("seg-x"));
    }
    let evicted = request(&mut a, "other-9", 9);
    assert_eq!(evicted.len(), 1);
    match &evicted[0] {
        Action::ResolveRequest { sender, result } => {
            assert_eq!(*sender, 100);
            assert_eq!(result, &Err(RequestError::Timeout));
        }
        _ => panic!("expected a timeout"),
    }
    assert!(!a.is_pending("seg-x"));
}

#[test]
fn capacity_overflow_scenario() {
    let mut a = node("S1", 2);
    assert!(request(&mut a, "r1", 1).is_empty());
    assert!(request(&mut a, "r2", 2).is_empty());
    let out = request(&mut a, "r3", 3);
    assert_eq!(out.len(), 1);
    assert!(matches!(out[0], Action::ResolveRequest { sender: 1, result: Err(RequestError::Timeout) }));
    assert!(a.is_pending("r2"));
    assert!(a.is_pending("r3"));
    assert_eq!(a.pending_requests(), 2);
}

#[test]
fn subscribe_failure_resolves_at_once() {
    let mut a = node("S1", 2);
    let out = a.subscribed("seg".to_string(), 5, Err(SubscribeFailure::NotAllowed));
    assert_eq!(out.len(), 1);
    assert!(matches!(
        out[0],
        Action::ResolveRequest { sender: 5, result: Err(RequestError::SubscribeError(SubscribeFailure::NotAllowed)) }
    ));
    assert_eq!(a.pending_requests(), 0);
}

#[test]
fn dial_appends_peer_and_failure_propagates() {
    let mut a = node("S1", 10);
    let peer = vec![7u8, 7, 7];
    let addr = Address::new(vec![Component::Other(vec![4, 127, 0, 0, 1])]);
    let out = a.handle_command(Command::Dial { peer_id: peer.clone(), peer_addr: addr, sender: 11 });
    let (peer_id, sender) = match out.into_iter().next() {
        Some(Action::Dial { peer_id, address, sender }) => {
            assert_eq!(address.components().len(), 2);
            assert!(matches!(address.components().last(), Some(Component::P2p(p)) if *p == peer));
            (peer_id, sender)
        }
        _ => panic!("expected a dial"),
    };
    assert!(a.dial_attempted(peer_id, sender, Ok(())).is_empty());
    assert_eq!(a.pending_dials(), 1);
    let failed = a.handle_event(SwarmEvent::OutgoingConnectionError { peer_id: Some(peer.clone()), error: "unreachable".to_string() });
    assert_eq!(failed.len(), 1);
    match &failed[0] {
        Action::ResolveDial { sender, result } => {
            assert_eq!(*sender, 11);
            assert_eq!(result, &Err(ClientError::DialError("unreachable".to_string())));
        }
        _ => panic!("expected a dial resolution"),
    }
    assert_eq!(a.pending_dials(), 0);
    assert!(a.is_running());
}

#[test]
fn dial_refused_at_once() {
    let mut a = node("S1", 10);
    let out = a.dial_attempted(vec![1], Some(3), Err("no addresses".to_string()));
    assert_eq!(out.len(), 1);
    assert!(matches!(&out[0], Action::ResolveDial { sender: 3, result: Err(ClientError::DialError(e)) } if e == "no addresses"));
    assert_eq!(a.pending_dials(), 0);
}

#[test]
fn dial_success_on_connection() {
    let mut a = node("S1", 10);
    a.dial_attempted(vec![1], Some(1), Ok(()));
    a.dial_attempted(vec![2], Some(2), Ok(()));
    a.dial_attempted(vec![1], Some(3), Ok(()));
    assert!(a.handle_event(SwarmEvent::ConnectionEstablished { peer_id: vec![1], dialer: false }).is_empty());
    let out = a.handle_event(SwarmEvent::ConnectionEstablished { peer_id: vec![1], dialer: true });
    assert_eq!(out.len(), 2);
    assert!(matches!(out[0], Action::ResolveDial { sender: 1, result: Ok(()) }));
    assert!(matches!(out[1], Action::ResolveDial { sender: 3, result: Ok(()) }));
    assert_eq!(a.pending_dials(), 1);
    let (requests, dials) = a.shutdown();
    assert!(requests.is_empty());
    assert_eq!(dials, vec![2]);
}

#[test]
fn ping_loss_disconnects() {
    let mut a = node("S1", 10);
    let peer = vec![5u8, 5];
    for _ in 0..3 {
        let out = a.handle_event(ping_failure(peer.clone()));
        assert_eq!(out.len(), 1);
        assert!(matches!(&out[0], Action::Disconnect { peer_id } if *peer_id == peer));
    }
}

#[test]
fn ping_success_does_nothing_visible() {
    let mut a = node("S1", 10);
    let out = a.handle_event(SwarmEvent::Behaviour(ComposedSwarmEvent::Ping(PingEvent { peer: vec![1], result: Ok(1500) })));
    assert!(out.is_empty());
}

#[test]
fn unsupported_peer_is_disconnected() {
    let mut a = node("S1", 10);
    let out = a.handle_event(SwarmEvent::Behaviour(ComposedSwarmEvent::Gossipsub(GossipsubEvent::GossipsubNotSupported { peer_id: vec![3] })));
    assert!(matches!(&out[0], Action::Disconnect { peer_id } if *peer_id == vec![3]));
}

#[test]
fn discovery_dials_each_address_once() {
    let mut a = node("S1", 10);
    let p1 = vec![1u8];
    let p2 = vec![2u8];
    let registrations = vec![
        Registration {
            peer_id: p1.clone(),
            addresses: vec![
                Address::new(vec![Component::Other(vec![10])]),
                Address::new(vec![Component::Other(vec![11]), Component::P2p(p1.clone())]),
            ],
        },
        Registration { peer_id: p2.clone(), addresses: vec![Address::new(vec![Component::Other(vec![12])])] },
    ];
    let out = a.handle_event(SwarmEvent::Behaviour(ComposedSwarmEvent::Rendezvous(RendezvousEvent::Discovered {
        registrations,
        cookie: vec![9, 9],
    })));
    assert_eq!(out.len(), 3);
    let expected = [(&p1, 2usize), (&p1, 2usize), (&p2, 2usize)];
    for (action, (peer, len)) in out.iter().zip(expected.iter()) {
        match action {
            Action::Dial { peer_id, address, sender } => {
                assert_eq!(peer_id, *peer);
                assert!(sender.is_none());
                assert_eq!(address.components().len(), *len);
                assert!(matches!(address.components().last(), Some(Component::P2p(p)) if p == *peer));
            }
            _ => panic!("expected a dial"),
        }
    }
}

#[test]
fn registration_then_discovery_with_cookie() {
    let mut a = node("S1", 10);
    let start = a.start();
    assert!(matches!(&start[0], Action::Register { namespace, ttl } if namespace == "S1" && *ttl == REGISTRATION_TTL_SECS));
    let out = a.handle_rendezvous_event(RendezvousEvent::Registered { ttl: 60 });
    assert_eq!(a.registration(), RegistrationStatus::Registered { ttl: 60 });
    assert!(matches!(&out[0], Action::Discover { namespace, cookie: None } if namespace == "S1"));
    a.handle_rendezvous_event(RendezvousEvent::Discovered { registrations: Vec::new(), cookie: vec![4] });
    let out = a.handle_rendezvous_event(RendezvousEvent::Registered { ttl: 30 });
    assert!(matches!(&out[0], Action::Discover { cookie: Some(c), .. } if *c == vec![4]));
}

#[test]
fn register_failure_is_noted() {
    let mut a = node("S1", 10);
    assert!(a.handle_rendezvous_event(RendezvousEvent::RegisterFailed { error: "refused".to_string() }).is_empty());
    assert_eq!(a.registration(), RegistrationStatus::Failed);
    assert!(a.handle_rendezvous_event(RendezvousEvent::DiscoverFailed { error: "x".to_string() }).is_empty());
    assert!(a.handle_rendezvous_event(RendezvousEvent::Expired { peer: vec![1] }).is_empty());
    assert_eq!(a.registration(), RegistrationStatus::Failed);
}

#[test]
fn quit_stops_and_hands_back_sinks() {
    let mut a = node("S1", 10);
    request(&mut a, "s1", 1);
    request(&mut a, "s2", 2);
    assert!(a.handle_command(Command::Quit).is_empty());
    assert!(!a.is_running());
    let (requests, dials) = a.shutdown();
    assert_eq!(requests, vec![1, 2]);
    assert!(dials.is_empty());
}

#[test]
fn every_sink_leaves_exactly_once() {
    let mut a = node("S1", 2);
    let mut resolved: Vec<u32> = Vec::new();
    let collect = |actions: Vec<Action<u32, u32>>, resolved: &mut Vec<u32>| {
        for act in actions {
            if let Action::ResolveRequest { sender, .. } = act {
                resolved.push(sender);
            }
        }
    };
    for (i, id) in ["a", "b", "a", "c", "d"].iter().enumerate() {
        let out = request(&mut a, id, i as u32);
        collect(out, &mut resolved);
    }
    let out = a.handle_event(message("d", vec![1]));
    collect(out, &mut resolved);
    let out = a.subscribed("e".to_string(), 5, Err(SubscribeFailure::PublishFailed));
    collect(out, &mut resolved);
    let (left, _) = a.shutdown();
    resolved.extend(left);
    resolved.sort();
    assert_eq!(resolved, vec![0, 1, 2, 3, 4, 5]);
}

#[test]
fn lifecycle_events_change_nothing() {
    let mut a = node("S1", 10);
    a.dial_attempted(vec![1], Some(1), Ok(()));
    assert!(a.handle_event(SwarmEvent::Other).is_empty());
    assert!(a.handle_event(SwarmEvent::ConnectionClosed { peer_id: vec![1] }).is_empty());
    assert!(a.handle_event(SwarmEvent::OutgoingConnectionError { peer_id: None, error: "e".to_string() }).is_empty());
    assert!(a.handle_event(SwarmEvent::Behaviour(ComposedSwarmEvent::Identify(IdentifyEvent::Other))).is_empty());
    assert!(a.handle_event(SwarmEvent::Behaviour(ComposedSwarmEvent::Relay)).is_empty());
    assert_eq!(a.pending_dials(), 1);
}

#[test]
fn identify_records_replace_earlier_ones() {
    let mut a = node("S1", 10);
    let record = |peer: u8, proto: &str| PeerRecord {
        peer_id: vec![peer],
        listen_addrs: vec![Address::new(vec![Component::Other(vec![peer, 0])])],
        protocols: vec![proto.to_string()],
    };
    let identify = |r: PeerRecord| SwarmEvent::Behaviour(ComposedSwarmEvent::Identify(IdentifyEvent::Received(r)));
    assert!(a.handle_event(identify(record(1, "/a"))).is_empty());
    assert!(a.handle_event(identify(record(2, "/b"))).is_empty());
    assert!(a.handle_event(identify(record(1, "/c"))).is_empty());
    let peers = a.known_peers();
    assert_eq!(peers.len(), 2);
    assert_eq!(peers[0].peer_id, vec![1]);
    assert_eq!(peers[0].protocols, vec!["/c".to_string()]);
    assert_eq!(peers[1].peer_id, vec![2]);
    assert_eq!(peers[1].listen_addrs.len(), 1);
}
