//! Options of a peer node, with their defaults.
use crate::protocol::{ClientError, Namespace};
use vstd::prelude::*;

verus! {

/// Host name of the default rendezvous and relay node.
pub const DEFAULT_RENDEZVOUS_HOST: &'static str = "rendezvous.marecchia.io";

/// Seconds between liveness probes.
pub const DEFAULT_PING_INTERVAL_SECS: u64 = 5;

/// Seconds after which a liveness probe counts as failed.
pub const DEFAULT_PING_TIMEOUT_SECS: u64 = 10;

/// Seconds after which an idle connection is closed.
pub const DEFAULT_IDLE_CONNECTION_TIMEOUT_SECS: u64 = 60;

/// Parallel dial attempts per peer.
pub const DEFAULT_DIAL_CONCURRENCY: u8 = 5;

/// Inbound streams that may negotiate at once.
pub const DEFAULT_MAX_INBOUND_NEGOTIATING: usize = 16;

/// Segment requests pending at once.
pub const DEFAULT_REQUEST_REGISTRY_CAPACITY: usize = 10;

/// Commands that may wait for the loop.
pub const COMMAND_BUFFER: usize = 20;

/// Options of a peer node.
pub struct NodeConfig {
    namespace: Namespace,
    rendezvous_host: String,
    rendezvous_peer: Option<Vec<u8>>,
    ping_interval_secs: u64,
    ping_timeout_secs: u64,
    idle_connection_timeout_secs: u64,
    dial_concurrency: u8,
    max_inbound_negotiating: usize,
    request_registry_capacity: usize,
}

impl NodeConfig {
    pub closed spec fn spec_namespace(&self) -> Seq<char> {
        self.namespace@
    }

    pub closed spec fn spec_rendezvous_host(&self) -> Seq<char> {
        self.rendezvous_host@
    }

    pub closed spec fn spec_rendezvous_peer(&self) -> Option<Seq<u8>> {
        match self.rendezvous_peer {
            Some(p) => Some(p@),
            None => None,
        }
    }

    pub closed spec fn spec_ping(&self) -> (u64, u64) {
        (self.ping_interval_secs, self.ping_timeout_secs)
    }

    pub closed spec fn spec_idle_connection_timeout_secs(&self) -> u64 {
        self.idle_connection_timeout_secs
    }

    pub closed spec fn spec_dial_concurrency(&self) -> u8 {
        self.dial_concurrency
    }

    pub closed spec fn spec_max_inbound_negotiating(&self) -> usize {
        self.max_inbound_negotiating
    }

    pub closed spec fn spec_request_registry_capacity(&self) -> usize {
        self.request_registry_capacity
    }

    /// Options for `namespace`, every other one at its default; the
    /// rendezvous node's peer id is unset.
    pub fn new(namespace: Namespace) -> (r: Self)
        ensures
            r.spec_namespace() == namespace@,
            r.spec_rendezvous_host() == DEFAULT_RENDEZVOUS_HOST@,
            r.spec_rendezvous_peer() == None::<Seq<u8>>,
            r.spec_ping() == (DEFAULT_PING_INTERVAL_SECS, DEFAULT_PING_TIMEOUT_SECS),
            r.spec_idle_connection_timeout_secs() == DEFAULT_IDLE_CONNECTION_TIMEOUT_SECS,
            r.spec_dial_concurrency() == DEFAULT_DIAL_CONCURRENCY,
            r.spec_max_inbound_negotiating() == DEFAULT_MAX_INBOUND_NEGOTIATING,
            r.spec_request_registry_capacity() == DEFAULT_REQUEST_REGISTRY_CAPACITY,
    {
        NodeConfig {
            namespace,
            rendezvous_host: DEFAULT_RENDEZVOUS_HOST.to_owned(),
            rendezvous_peer: None,
            ping_interval_secs: DEFAULT_PING_INTERVAL_SECS,
            ping_timeout_secs: DEFAULT_PING_TIMEOUT_SECS,
            idle_connection_timeout_secs: DEFAULT_IDLE_CONNECTION_TIMEOUT_SECS,
            dial_concurrency: DEFAULT_DIAL_CONCURRENCY,
            max_inbound_negotiating: DEFAULT_MAX_INBOUND_NEGOTIATING,
            request_registry_capacity: DEFAULT_REQUEST_REGISTRY_CAPACITY,
        }
    }

    /// The same options with the rendezvous node at `host`, with peer id `peer`.
    pub fn with_rendezvous(self, host: String, peer: Vec<u8>) -> (r: Self)
        ensures
            r.spec_rendezvous_host() == host@,
            r.spec_rendezvous_peer() == Some(peer@),
            r.spec_namespace() == self.spec_namespace(),
            r.spec_ping() == self.spec_ping(),
            r.spec_request_registry_capacity() == self.spec_request_registry_capacity(),
    {
        NodeConfig { rendezvous_host: host, rendezvous_peer: Some(peer), ..self }
    }

    /// The same options with other liveness timings. Refused when either is
    /// zero.
    pub fn with_ping(self, interval_secs: u64, timeout_secs: u64) -> (r: Result<Self, ClientError>)
        ensures
            r.is_ok() == (interval_secs > 0 && timeout_secs > 0),
            r matches Ok(c) ==> c.spec_ping() == (interval_secs, timeout_secs) && c.spec_namespace()
                == self.spec_namespace() && c.spec_request_registry_capacity()
                == self.spec_request_registry_capacity(),
    {
        if interval_secs == 0 || timeout_secs == 0 {
            return Err(ClientError::ConfigError("liveness timings must be positive".to_owned()));
        }
        Ok(NodeConfig { ping_interval_secs: interval_secs, ping_timeout_secs: timeout_secs, ..self })
    }

    /// The same options with another dial concurrency. Refused when zero.
    pub fn with_dial_concurrency(self, n: u8) -> (r: Result<Self, ClientError>)
        ensures
            r.is_ok() == (n > 0),
            r matches Ok(c) ==> c.spec_dial_concurrency() == n && c.spec_namespace() == self.spec_namespace()
                && c.spec_ping() == self.spec_ping(),
    {
        if n == 0 {
            return Err(ClientError::ConfigError("dial concurrency must be positive".to_owned()));
        }
        Ok(NodeConfig { dial_concurrency: n, ..self })
    }

    /// The same options with another registry capacity.
    pub fn with_request_registry_capacity(self, capacity: usize) -> (r: Self)
        ensures
            r.spec_request_registry_capacity() == capacity,
            r.spec_namespace() == self.spec_namespace(),
            r.spec_ping() == self.spec_ping(),
    {
        NodeConfig { request_registry_capacity: capacity, ..self }
    }

    pub fn namespace(&self) -> (r: &Namespace)
        ensures
            r@ == self.spec_namespace(),
    {
        &self.namespace
    }

    pub fn rendezvous_host(&self) -> (r: &String)
        ensures
            r@ == self.spec_rendezvous_host(),
    {
        &self.rendezvous_host
    }

    pub fn rendezvous_peer(&self) -> (r: &Option<Vec<u8>>)
        ensures
            match r {
                Some(p) => self.spec_rendezvous_peer() == Some(p@),
                None => self.spec_rendezvous_peer() is None,
            },
    {
        &self.rendezvous_peer
    }

    /// Seconds between liveness probes, and before one counts as failed.
    pub fn ping(&self) -> (r: (u64, u64))
        ensures
            r == self.spec_ping(),
    {
        (self.ping_interval_secs, self.ping_timeout_secs)
    }

    pub fn idle_connection_timeout_secs(&self) -> (r: u64)
        ensures
            r == self.spec_idle_connection_timeout_secs(),
    {
        self.idle_connection_timeout_secs
    }

    pub fn dial_concurrency(&self) -> (r: u8)
        ensures
            r == self.spec_dial_concurrency(),
    {
        self.dial_concurrency
    }

    pub fn max_inbound_negotiating(&self) -> (r: usize)
        ensures
            r == self.spec_max_inbound_negotiating(),
    {
        self.max_inbound_negotiating
    }

    pub fn request_registry_capacity(&self) -> (r: usize)
        ensures
            r == self.spec_request_registry_capacity(),
    {
        self.request_registry_capacity
    }
}

} // verus!
