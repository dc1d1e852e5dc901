use marecchia::config::{NodeConfig, DEFAULT_RENDEZVOUS_HOST};
use marecchia::protocol::{ClientError, Namespace};

fn config() -> NodeConfig {
    NodeConfig::new(Namespace::new("S1".to_string()).unwrap())
}

#[test]
fn defaults() {
    let c = config();
    assert_eq!(c.namespace().as_str(), "S1");
    assert_eq!(c.rendezvous_host(), DEFAULT_RENDEZVOUS_HOST);
    assert_eq!(c.rendezvous_host(), "rendezvous.marecchia.io");
    assert_eq!(c.rendezvous_peer(), &None);
    assert_eq!(c.ping(), (5, 10));
    assert_eq!(c.idle_connection_timeout_secs(), 60);
    assert_eq!(c.dial_concurrency(), 5);
    assert_eq!(c.max_inbound_negotiating(), 16);
    assert_eq!(c.request_registry_capacity(), 10);
}

#[test]
fn overrides() {
    let c = config()
        .with_rendezvous("node.example".to_string(), vec![4, 2])
        .with_request_registry_capacity(2)
        .with_ping(1, 3)
        .unwrap()
        .with_dial_concurrency(7)
        .unwrap();
    assert_eq!(c.rendezvous_host(), "node.example");
    assert_eq!(c.rendezvous_peer(), &Some(vec![4, 2]));
    assert_eq!(c.request_registry_capacity(), 2);
    assert_eq!(c.ping(), (1, 3));
    assert_eq!(c.dial_concurrency(), 7);
}

#[test]
fn zero_timings_are_refused() {
    assert!(matches!(config().with_ping(0, 10), Err(ClientError::ConfigError(_))));
    assert!(matches!(config().with_ping(5, 0), Err(ClientError::ConfigError(_))));
    assert!(matches!(config().with_dial_concurrency(0), Err(ClientError::ConfigError(_))));
}
