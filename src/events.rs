//! What reaches the loop: the application's commands and the network's
//! events, as plain values.
use crate::address::{Address, ComponentView};
use vstd::multiset::Multiset;
use vstd::prelude::*;

verus! {

/// Why subscribing to a segment's topic failed.
#[derive(Debug, Clone, Copy, PartialEq, Eq)]
pub enum SubscribeFailure {
    /// The subscription could not be announced to peers.
    PublishFailed,
    /// The topic filter refused the topic.
    NotAllowed,
}

/// Why a segment request ended without data.
#[derive(Debug, Clone, Copy, PartialEq, Eq)]
pub enum RequestError {
    /// The request was displaced from the registry by a newer one.
    Timeout,
    /// Subscribing to the segment's topic failed.
    SubscribeError(SubscribeFailure),
}

/// What the application asks of the loop.
pub enum Command<R, D> {
    /// Connect to `peer_id` at `peer_addr`; `sender` learns the outcome.
    Dial { peer_id: Vec<u8>, peer_addr: Address, sender: D },
    /// Publish `data` as the segment `segment_id`.
    ProvideSegment { segment_id: String, data: Vec<u8> },
    /// Fetch the segment `segment_id`; `sender` receives it.
    RequestSegment { segment_id: String, sender: R },
    /// Stop the loop.
    Quit,
}

/// The sinks that a command hands to the loop.
pub open spec fn command_request_sinks<R, D>(c: Command<R, D>) -> Multiset<R> {
    match c {
        Command::RequestSegment { sender, .. } => Multiset::empty().insert(sender),
        _ => Multiset::empty(),
    }
}

/// The dial sinks that a command hands to the loop.
pub open spec fn command_dial_sinks<R, D>(c: Command<R, D>) -> Multiset<D> {
    match c {
        Command::Dial { sender, .. } => Multiset::empty().insert(sender),
        _ => Multiset::empty(),
    }
}

/// A peer that the rendezvous node returned, with the addresses it advertised.
pub struct Registration {
    pub peer_id: Vec<u8>,
    pub addresses: Vec<Address>,
}

impl View for Registration {
    type V = (Seq<u8>, Seq<Seq<ComponentView>>);

    open spec fn view(&self) -> (Seq<u8>, Seq<Seq<ComponentView>>) {
        (self.peer_id@, self.addresses@.map_values(|a: Address| a@))
    }
}

/// Outcome of one liveness probe of `peer`: the round trip in microseconds,
/// or why it failed.
pub struct PingEvent {
    pub peer: Vec<u8>,
    pub result: Result<u64, String>,
}

/// Events of the rendezvous client.
pub enum RendezvousEvent {
    /// Peers of the namespace, and the cookie for the next query.
    Discovered { registrations: Vec<Registration>, cookie: Vec<u8> },
    DiscoverFailed { error: String },
    /// A registration learnt earlier has expired.
    Expired { peer: Vec<u8> },
    Registered { ttl: u64 },
    RegisterFailed { error: String },
}

/// Events of the publish/subscribe protocol.
pub enum GossipsubEvent {
    /// A message arrived on `topic`.
    Message { topic: String, data: Vec<u8> },
    Subscribed { peer_id: Vec<u8>, topic: String },
    Unsubscribed { peer_id: Vec<u8>, topic: String },
    /// `peer_id` connected but does not speak the protocol.
    GossipsubNotSupported { peer_id: Vec<u8> },
    /// `peer_id` is too slow to take the messages sent to it.
    SlowPeer { peer_id: Vec<u8> },
}

/// What a peer told about itself through identify.
pub struct PeerRecord {
    pub peer_id: Vec<u8>,
    pub listen_addrs: Vec<Address>,
    pub protocols: Vec<String>,
}

/// Mathematical value of a [`PeerRecord`].
pub type PeerRecordView = (Seq<u8>, Seq<Seq<ComponentView>>, Seq<Seq<char>>);

impl View for PeerRecord {
    type V = PeerRecordView;

    open spec fn view(&self) -> PeerRecordView {
        (
            self.peer_id@,
            self.listen_addrs@.map_values(|a: Address| a@),
            self.protocols@.map_values(|p: String| p@),
        )
    }
}

/// Events of the identify protocol.
pub enum IdentifyEvent {
    /// A peer's identification record arrived.
    Received(PeerRecord),
    /// Records sent or pushed, and failures, are only observed.
    Other,
}

/// One event of the composed network behaviour, tagged by sub-behaviour.
pub enum ComposedSwarmEvent {
    Ping(PingEvent),
    Identify(IdentifyEvent),
    Rendezvous(RendezvousEvent),
    /// Relay reservations and circuits are only observed.
    Relay,
    Gossipsub(GossipsubEvent),
}

/// One event of the network.
pub enum SwarmEvent {
    Behaviour(ComposedSwarmEvent),
    /// A connection to `peer_id` is up; `dialer` when this node dialled it.
    ConnectionEstablished { peer_id: Vec<u8>, dialer: bool },
    ConnectionClosed { peer_id: Vec<u8> },
    /// An outgoing connection failed.
    OutgoingConnectionError { peer_id: Option<Vec<u8>>, error: String },
    /// Listener and other lifecycle events, only observed.
    Other,
}

} // verus!
