//! The decisions of a peer node's event loop. The loop itself, which awaits
//! commands and network events, lives with the host; it hands each input to an
//! [`EventLoop`] and performs the [`Action`]s that come back. Reply sinks are
//! generic: `R` answers a segment request, `D` answers a dial.
use crate::actions::{
    bag, disconnect, discover, opt_bytes, lemma_no_sinks, lemma_sinks_concat, lemma_sinks_of_short, register_for,
    request_sink_of, dial_sink_of, request_sinks, dial_sinks, resolve_dial, resolve_request, views, Action,
    ActionView,
};
use crate::address::{bytes_equal, Component, ComponentView};
use crate::discovery::{discovery_dials, dials_for_discovery, is_peer_dial, lemma_discovery_dials};
use crate::events::{
    command_dial_sinks, command_request_sinks, Command, ComposedSwarmEvent, GossipsubEvent, IdentifyEvent,
    PeerRecord, PeerRecordView, PingEvent, Registration, RendezvousEvent, RequestError, SubscribeFailure,
    SwarmEvent,
};
use crate::protocol::{topic_for, ClientError, Namespace, REGISTRATION_TTL_SECS};
use crate::registry::{after_insert, after_remove, option_bag, sinks_of, SegmentRequestCache};
use vstd::multiset::Multiset;
use vstd::prelude::*;

verus! {

/// Actions that a command calls for.
pub open spec fn command_actions<R, D>(c: Command<R, D>) -> Seq<ActionView<R, D>> {
    match c {
        Command::Dial { peer_id, peer_addr, sender } => seq![
            ActionView::Dial {
                peer_id: peer_id@,
                address: peer_addr@.push(ComponentView::P2p(peer_id@)),
                sender: Some(sender),
            },
        ],
        Command::ProvideSegment { segment_id, data } => seq![
            ActionView::Publish { topic: segment_id@, data: data@ },
        ],
        Command::RequestSegment { segment_id, sender } => seq![
            ActionView::Subscribe { topic: segment_id@, segment_id: segment_id@, sender },
        ],
        Command::Quit => seq![],
    }
}

/// Where the registration with the rendezvous node stands.
#[derive(Debug, Clone, Copy, PartialEq, Eq)]
pub enum RegistrationStatus {
    /// Registration asked for, no answer yet.
    Pending,
    /// Registered for `ttl` seconds.
    Registered { ttl: u64 },
    /// The rendezvous node refused the registration.
    Failed,
}

/// State of one node's loop.
pub struct EventLoop<R, D> {
    namespace: Namespace,
    cookie: Option<Vec<u8>>,
    status: RegistrationStatus,
    last_rtt: Option<(Vec<u8>, u64)>,
    known_peers: Vec<PeerRecord>,
    segment_request: SegmentRequestCache<R>,
    pending_dial: Vec<(Vec<u8>, D)>,
    running: bool,
}

impl<R, D> EventLoop<R, D> {
    pub closed spec fn spec_namespace(&self) -> Seq<char> {
        self.namespace@
    }

    pub closed spec fn spec_cookie(&self) -> Option<Seq<u8>> {
        opt_bytes(self.cookie)
    }

    pub closed spec fn spec_status(&self) -> RegistrationStatus {
        self.status
    }

    pub closed spec fn spec_last_rtt(&self) -> Option<(Seq<u8>, u64)> {
        match self.last_rtt {
            Some((p, t)) => Some((p@, t)),
            None => None,
        }
    }

    /// What each identified peer told about itself.
    pub closed spec fn spec_peers(&self) -> Seq<PeerRecordView> {
        self.known_peers@.map_values(|p: PeerRecord| p@)
    }

    /// Pending segment requests, oldest first.
    pub closed spec fn requests(&self) -> Seq<(String, R)> {
        self.segment_request.entries()
    }

    pub closed spec fn spec_capacity(&self) -> nat {
        self.segment_request.spec_capacity()
    }

    /// Dials under way, each with the peer it is for.
    pub closed spec fn dials(&self) -> Seq<(Seq<u8>, D)> {
        self.pending_dial@.map_values(|e: (Vec<u8>, D)| (e.0@, e.1))
    }

    pub closed spec fn spec_running(&self) -> bool {
        self.running
    }

    /// Request sinks the loop holds.
    pub open spec fn held_requests(&self) -> Multiset<R> {
        sinks_of(self.requests()).to_multiset()
    }

    /// Dial sinks the loop holds.
    pub open spec fn held_dials(&self) -> Multiset<D> {
        dial_bag(self.dials())
    }

    /// Pending requests have distinct segment ids and never outnumber the
    /// registry's capacity.
    pub open spec fn wf(&self) -> bool {
        &&& crate::registry::keys_unique(self.requests())
        &&& self.requests().len() <= self.spec_capacity()
        &&& peers_unique(self.spec_peers())
    }

    /// The state left unchanged but for the registry.
    pub open spec fn same_but_requests(&self, other: &Self) -> bool {
        &&& self.spec_peers() == other.spec_peers()
        &&& self.spec_namespace() == other.spec_namespace()
        &&& self.spec_cookie() == other.spec_cookie()
        &&& self.spec_status() == other.spec_status()
        &&& self.spec_last_rtt() == other.spec_last_rtt()
        &&& self.spec_capacity() == other.spec_capacity()
        &&& self.dials() == other.dials()
        &&& self.spec_running() == other.spec_running()
    }

    /// Namespace, capacity and running flag agree.
    pub open spec fn same_core(&self, other: &Self) -> bool {
        &&& self.spec_peers() == other.spec_peers()
        &&& self.spec_namespace() == other.spec_namespace()
        &&& self.spec_capacity() == other.spec_capacity()
        &&& self.spec_running() == other.spec_running()
    }

    /// No sink is lost between `self` and `next`: the sinks held before are
    /// exactly those held after and those that `actions` carry.
    pub open spec fn keeps_sinks(&self, next: &Self, actions: Seq<ActionView<R, D>>) -> bool {
        self.accounts(next, Multiset::empty(), Multiset::empty(), actions)
    }

    /// Sinks are accounted for between `self` and `next`: those held before
    /// and those handed in (`in_requests`, `in_dials`) are exactly those held
    /// after and those that `actions` carry out.
    pub open spec fn accounts(
        &self,
        next: &Self,
        in_requests: Multiset<R>,
        in_dials: Multiset<D>,
        actions: Seq<ActionView<R, D>>,
    ) -> bool {
        &&& self.held_requests().add(in_requests) == next.held_requests().add(request_sinks(actions))
        &&& self.held_dials().add(in_dials) == next.held_dials().add(dial_sinks(actions))
    }

    /// Effect of a liveness probe's outcome: a round trip is recorded, a
    /// failure closes the connections to the peer.
    pub open spec fn ping_post(&self, next: &Self, event: PingEvent, actions: Seq<ActionView<R, D>>) -> bool {
        &&& next.same_core(self)
        &&& next.requests() == self.requests()
        &&& next.dials() == self.dials()
        &&& next.spec_cookie() == self.spec_cookie()
        &&& next.spec_status() == self.spec_status()
        &&& match event.result {
            Ok(rtt) => next.spec_last_rtt() == Some((event.peer@, rtt)) && actions.len() == 0,
            Err(_) => next.spec_last_rtt() == self.spec_last_rtt() && actions == seq![
                disconnect::<R, D>(event.peer@),
            ],
        }
    }

    /// Effect of a rendezvous event: a discovery rolls the cookie forward and
    /// dials every advertised address; a registration is noted and followed
    /// by a discovery query; a refused registration is noted.
    pub open spec fn rendezvous_post(&self, next: &Self, event: RendezvousEvent, actions: Seq<ActionView<R, D>>) -> bool {
        &&& next.same_core(self)
        &&& next.requests() == self.requests()
        &&& next.dials() == self.dials()
        &&& next.spec_last_rtt() == self.spec_last_rtt()
        &&& match event {
            RendezvousEvent::Discovered { registrations, cookie } => next.spec_cookie() == Some(cookie@)
                && next.spec_status() == self.spec_status() && actions == discovery_dials::<R, D>(
                registrations@.map_values(|g: Registration| g@),
            ),
            RendezvousEvent::Registered { ttl } => next.spec_cookie() == self.spec_cookie()
                && next.spec_status() == RegistrationStatus::Registered { ttl } && actions == seq![
                discover::<R, D>(self.spec_namespace(), self.spec_cookie()),
            ],
            RendezvousEvent::RegisterFailed { .. } => next.spec_cookie() == self.spec_cookie()
                && next.spec_status() == RegistrationStatus::Failed && actions.len() == 0,
            _ => next.spec_cookie() == self.spec_cookie() && next.spec_status() == self.spec_status()
                && actions.len() == 0,
        }
    }

    /// Effect of a publish/subscribe event: a message resolves the pending
    /// request of its topic, if any, with its data; a peer that does not speak
    /// the protocol is disconnected.
    pub open spec fn gossipsub_post(&self, next: &Self, event: GossipsubEvent, actions: Seq<ActionView<R, D>>) -> bool {
        &&& next.same_core(self)
        &&& next.dials() == self.dials()
        &&& next.spec_cookie() == self.spec_cookie()
        &&& next.spec_status() == self.spec_status()
        &&& next.spec_last_rtt() == self.spec_last_rtt()
        &&& match event {
            GossipsubEvent::Message { topic, data } => {
                let (entries, taken) = after_remove(self.requests(), topic@);
                &&& next.requests() == entries
                &&& actions == match taken {
                    Some(s) => seq![resolve_request::<R, D>(s, Ok(data@))],
                    None => seq![],
                }
            },
            GossipsubEvent::GossipsubNotSupported { peer_id } => next.requests() == self.requests() && actions
                == seq![disconnect::<R, D>(peer_id@)],
            _ => next.requests() == self.requests() && actions.len() == 0,
        }
    }

    /// Effect of settling the dials under way for `peer`: each sink learns the
    /// outcome, the other dials stay.
    pub open spec fn settle_post(&self, next: &Self, peer: Seq<u8>, error: Option<String>, actions: Seq<ActionView<R, D>>) -> bool {
        &&& next.same_core(self)
        &&& next.requests() == self.requests()
        &&& next.spec_cookie() == self.spec_cookie()
        &&& next.spec_status() == self.spec_status()
        &&& next.spec_last_rtt() == self.spec_last_rtt()
        &&& next.dials() == dials_kept(self.dials(), peer)
        &&& actions == dials_settled::<R, D>(self.dials(), peer, dial_outcome(error))
    }

    /// Nothing changes and nothing is to be done.
    pub open spec fn idle_post(&self, next: &Self, actions: Seq<ActionView<R, D>>) -> bool {
        &&& next.same_core(self)
        &&& next.same_but_requests(self)
        &&& next.requests() == self.requests()
        &&& actions.len() == 0
    }

    /// Effect of an identify event: a received record is kept, replacing the
    /// peer's earlier one.
    pub open spec fn identify_post(&self, next: &Self, event: IdentifyEvent, actions: Seq<ActionView<R, D>>) -> bool {
        &&& next.spec_namespace() == self.spec_namespace()
        &&& next.spec_capacity() == self.spec_capacity()
        &&& next.spec_running() == self.spec_running()
        &&& next.requests() == self.requests()
        &&& next.dials() == self.dials()
        &&& next.spec_cookie() == self.spec_cookie()
        &&& next.spec_status() == self.spec_status()
        &&& next.spec_last_rtt() == self.spec_last_rtt()
        &&& actions.len() == 0
        &&& match event {
            IdentifyEvent::Received(rec) => next.spec_peers() == record_peer(self.spec_peers(), rec@),
            IdentifyEvent::Other => next.spec_peers() == self.spec_peers(),
        }
    }

    /// Effect of an event of the composed behaviour.
    pub open spec fn behaviour_post(&self, next: &Self, event: ComposedSwarmEvent, actions: Seq<ActionView<R, D>>) -> bool {
        match event {
            ComposedSwarmEvent::Ping(e) => self.ping_post(next, e, actions),
            ComposedSwarmEvent::Rendezvous(e) => self.rendezvous_post(next, e, actions),
            ComposedSwarmEvent::Gossipsub(e) => self.gossipsub_post(next, e, actions),
            ComposedSwarmEvent::Identify(e) => self.identify_post(next, e, actions),
            ComposedSwarmEvent::Relay => self.idle_post(next, actions),
        }
    }

    /// Effect of a network event: behaviour events go to their sub-behaviour;
    /// a connection this node dialled settles the dials for its peer with
    /// success, a failed outgoing connection settles them with its error.
    pub open spec fn event_post(&self, next: &Self, event: SwarmEvent, actions: Seq<ActionView<R, D>>) -> bool {
        match event {
            SwarmEvent::Behaviour(e) => self.behaviour_post(next, e, actions),
            SwarmEvent::ConnectionEstablished { peer_id, dialer } => if dialer {
                self.settle_post(next, peer_id@, None, actions)
            } else {
                self.idle_post(next, actions)
            },
            SwarmEvent::OutgoingConnectionError { peer_id: Some(p), error } => self.settle_post(
                next,
                p@,
                Some(error),
                actions,
            ),
            _ => self.idle_post(next, actions),
        }
    }

    /// A loop for `namespace` whose registry holds at most `capacity` requests.
    pub fn new(namespace: Namespace, capacity: usize) -> (r: Self)
        ensures
            r.wf(),
            r.spec_namespace() == namespace@,
            r.spec_cookie() == None::<Seq<u8>>,
            r.spec_status() == RegistrationStatus::Pending,
            r.spec_last_rtt() == None::<(Seq<u8>, u64)>,
            r.spec_peers() == Seq::<PeerRecordView>::empty(),
            r.requests() == Seq::<(String, R)>::empty(),
            r.spec_capacity() == capacity,
            r.dials() == Seq::<(Seq<u8>, D)>::empty(),
            r.spec_running(),
    {
        let r = EventLoop {
            namespace,
            cookie: None,
            status: RegistrationStatus::Pending,
            last_rtt: None,
            known_peers: Vec::new(),
            segment_request: SegmentRequestCache::new(capacity),
            pending_dial: Vec::new(),
            running: true,
        };
        assert(r.dials() =~= Seq::<(Seq<u8>, D)>::empty());
        assert(r.spec_peers() =~= Seq::<PeerRecordView>::empty());
        r
    }

    /// Whether the loop goes on; false once `Quit` has been handled.
    pub fn is_running(&self) -> (r: bool)
        ensures
            r == self.spec_running(),
    {
        self.running
    }

    /// Where the registration with the rendezvous node stands.
    pub fn registration(&self) -> (r: RegistrationStatus)
        ensures
            r == self.spec_status(),
    {
        self.status
    }

    /// Number of pending segment requests.
    pub fn pending_requests(&self) -> (r: usize)
        ensures
            r == self.requests().len(),
    {
        self.segment_request.len()
    }

    /// Whether a request for `segment_id` is pending.
    pub fn is_pending(&self, segment_id: &str) -> (r: bool)
        requires
            self.wf(),
        ensures
            r == crate::registry::keys_of(self.requests()).contains(segment_id@),
    {
        self.segment_request.contains(segment_id)
    }

    /// What each identified peer told about itself, first identified first.
    pub fn known_peers(&self) -> (r: &Vec<PeerRecord>)
        ensures
            r@.map_values(|p: PeerRecord| p@) == self.spec_peers(),
    {
        &self.known_peers
    }

    /// Number of dials awaiting their outcome.
    pub fn pending_dials(&self) -> (r: usize)
        ensures
            r == self.dials().len(),
    {
        self.pending_dial.len()
    }

    /// The first work of the loop: register the namespace with the
    /// rendezvous node, once.
    pub fn start(&self) -> (r: Vec<Action<R, D>>)
        ensures
            views(r@) == seq![register_for::<R, D>(self.spec_namespace())],
    {
        let mut r: Vec<Action<R, D>> = Vec::new();
        r.push(Action::Register { namespace: self.namespace.as_str().to_owned(), ttl: REGISTRATION_TTL_SECS });
        assert(views(r@) =~= seq![register_for::<R, D>(self.spec_namespace())]);
        r
    }

    /// Turns a command into the work it needs. `Quit` stops the loop.
    pub fn handle_command(&mut self, command: Command<R, D>) -> (r: Vec<Action<R, D>>)
        requires
            old(self).wf(),
        ensures
            final(self).wf(),
            views(r@) == command_actions(command),
            final(self).requests() == old(self).requests(),
            final(self).spec_running() == (old(self).spec_running() && !(command is Quit)),
            final(self).spec_namespace() == old(self).spec_namespace(),
            final(self).spec_cookie() == old(self).spec_cookie(),
            final(self).spec_status() == old(self).spec_status(),
            final(self).spec_last_rtt() == old(self).spec_last_rtt(),
            final(self).spec_peers() == old(self).spec_peers(),
            final(self).spec_capacity() == old(self).spec_capacity(),
            final(self).dials() == old(self).dials(),
            old(self).accounts(
                final(self),
                command_request_sinks(command),
                command_dial_sinks(command),
                views(r@),
            ),
    {
        let ghost c = command;
        let mut r: Vec<Action<R, D>> = Vec::new();
        match command {
            Command::Dial { peer_id, peer_addr, sender } => {
                let address = peer_addr.with(Component::P2p(peer_id.clone()));
                r.push(Action::Dial { peer_id, address, sender: Some(sender) });
            },
            Command::ProvideSegment { segment_id, data } => {
                let topic = topic_for(&segment_id);
                r.push(Action::Publish { topic, data });
            },
            Command::RequestSegment { segment_id, sender } => {
                let topic = topic_for(&segment_id);
                r.push(Action::Subscribe { topic, segment_id, sender });
            },
            Command::Quit => {
                self.running = false;
            },
        }
        proof {
            assert(views(r@) =~= command_actions(c));
            lemma_sinks_of_short(views(r@));
        }
        r
    }

    /// Takes the outcome of subscribing to the topic of `segment_id` for a
    /// request whose sink is `sender`. On success the request joins the
    /// registry, and a sink it displaces learns of a timeout; on failure
    /// `sender` learns of the failure at once.
    pub fn subscribed(&mut self, segment_id: String, sender: R, outcome: Result<(), SubscribeFailure>) -> (r: Vec<
        Action<R, D>,
    >)
        requires
            old(self).wf(),
        ensures
            final(self).wf(),
            final(self).same_but_requests(old(self)),
            match outcome {
                Ok(()) => {
                    let (entries, displaced) = after_insert(
                        old(self).requests(),
                        old(self).spec_capacity(),
                        segment_id,
                        sender,
                    );
                    final(self).requests() == entries && views(r@) == displaced_actions::<R, D>(displaced)
                },
                Err(f) => final(self).requests() == old(self).requests() && views(r@) == seq![
                    resolve_request::<R, D>(sender, Err(RequestError::SubscribeError(f))),
                ],
            },
            old(self).accounts(final(self), bag(sender), Multiset::empty(), views(r@)),
    {
        let ghost hr0 = self.held_requests();
        let ghost hd0 = self.held_dials();
        let ghost before = self.requests();
        let ghost key = segment_id;
        let ghost s = sender;
        let mut r: Vec<Action<R, D>> = Vec::new();
        match outcome {
            Ok(()) => {
                let displaced = self.segment_request.insert(segment_id, sender);
                proof {
                    crate::registry::lemma_insert_keeps_sinks(before, self.spec_capacity(), key, s);
                }
                match displaced {
                    Some(old_sender) => {
                        r.push(Action::ResolveRequest { sender: old_sender, result: Err(RequestError::Timeout) });
                    },
                    None => {},
                }
                proof {
                    let d = after_insert(before, self.spec_capacity(), key, s).1;
                    assert(views(r@) =~= displaced_actions::<R, D>(d));
                    lemma_sinks_of_short(views(r@));
                    assert(request_sinks(views(r@)) =~= option_bag(d));
                }
            },
            Err(f) => {
                r.push(Action::ResolveRequest { sender, result: Err(RequestError::SubscribeError(f)) });
                proof {
                    assert(views(r@) =~= seq![
                        resolve_request::<R, D>(s, Err(RequestError::SubscribeError(f))),
                    ]);
                    lemma_sinks_of_short(views(r@));
                    assert(self.held_requests().insert(s) =~= self.held_requests().add(bag(s)));
                }
            },
        }
        proof {
            assert(hr0.add(Multiset::empty()) =~= hr0);
            assert(hd0.add(Multiset::empty()) =~= hd0);
            assert(hr0.add(bag(s)) =~= hr0.insert(s));
            lemma_sinks_of_short(views(r@));
            assert(dial_sinks(views(r@)) =~= Multiset::<D>::empty());
        }
        r
    }

    /// Takes the outcome of handing a dial for `peer_id` to the network. A dial
    /// under way keeps its sink until the connection is made or fails; a dial
    /// refused at once gives its sink the error.
    pub fn dial_attempted(&mut self, peer_id: Vec<u8>, sender: Option<D>, outcome: Result<(), String>) -> (r: Vec<
        Action<R, D>,
    >)
        requires
            old(self).wf(),
        ensures
            final(self).wf(),
            final(self).requests() == old(self).requests(),
            final(self).spec_namespace() == old(self).spec_namespace(),
            final(self).spec_cookie() == old(self).spec_cookie(),
            final(self).spec_status() == old(self).spec_status(),
            final(self).spec_last_rtt() == old(self).spec_last_rtt(),
            final(self).spec_peers() == old(self).spec_peers(),
            final(self).spec_capacity() == old(self).spec_capacity(),
            final(self).spec_running() == old(self).spec_running(),
            match (sender, outcome) {
                (Some(s), Ok(())) => final(self).dials() == old(self).dials().push((peer_id@, s)) && r@.len()
                    == 0,
                (Some(s), Err(e)) => final(self).dials() == old(self).dials() && views(r@) == seq![
                    resolve_dial::<R, D>(s, Err(ClientError::DialError(e))),
                ],
                (None, _) => final(self).dials() == old(self).dials() && r@.len() == 0,
            },
            old(self).accounts(final(self), Multiset::empty(), option_bag(sender), views(r@)),
    {
        let ghost hr0 = self.held_requests();
        let ghost hd0 = self.held_dials();
        broadcast use vstd::seq_lib::group_to_multiset_ensures, vstd::multiset::group_multiset_axioms;

        let ghost before = self.dials();
        let ghost sd = sender;
        let mut r: Vec<Action<R, D>> = Vec::new();
        match sender {
            Some(s) => match outcome {
                Ok(()) => {
                    let ghost sv = s;
                    self.pending_dial.push((peer_id, s));
                    proof {
                        assert(self.dials() =~= before.push((peer_id@, sv)));
                        assert(self.dials().map_values(|e: (Seq<u8>, D)| e.1) =~= before.map_values(
                            |e: (Seq<u8>, D)| e.1,
                        ).push(sv));
                        assert(self.held_dials() =~= hd0.insert(sv));
                        assert(hd0.add(option_bag(sd)) =~= hd0.insert(sv));
                        assert(views(r@) =~= Seq::<ActionView<R, D>>::empty());
                        lemma_sinks_of_short(views(r@));
                        assert(self.held_dials().add(dial_sinks(views(r@))) =~= self.held_dials());
                    }
                },
                Err(e) => {
                    let ghost sv = s;
                    let ghost ev = e;
                    r.push(Action::ResolveDial { sender: s, result: Err(ClientError::DialError(e)) });
                    proof {
                        assert(views(r@) =~= seq![
                            resolve_dial::<R, D>(sv, Err(ClientError::DialError(ev))),
                        ]);
                    }
                },
            },
            None => {},
        }
        proof {
            lemma_sinks_of_short(views(r@));
        }
        proof {
            assert(hr0.add(Multiset::empty()) =~= hr0);
            assert(hd0.add(Multiset::empty()) =~= hd0);
            lemma_sinks_of_short(views(r@));
            assert(request_sinks(views(r@)) =~= Multiset::<R>::empty());
        }
        r
    }

    /// Takes the outcome of a liveness probe.
    pub fn handle_ping_event(&mut self, event: PingEvent) -> (r: Vec<Action<R, D>>)
        requires
            old(self).wf(),
        ensures
            final(self).wf(),
            old(self).ping_post(final(self), event, views(r@)),
            old(self).keeps_sinks(final(self), views(r@)),
    {
        broadcast use vstd::multiset::group_multiset_axioms;

        let ghost e = event;
        let mut r: Vec<Action<R, D>> = Vec::new();
        match event.result {
            Ok(rtt) => {
                self.last_rtt = Some((event.peer, rtt));
            },
            Err(_) => {
                r.push(Action::Disconnect { peer_id: event.peer });
            },
        }
        proof {
            assert(e.result is Err ==> views(r@) =~= seq![disconnect::<R, D>(e.peer@)]);
            lemma_sinks_of_short(views(r@));
            assert(self.held_requests().add(Multiset::empty()) =~= self.held_requests());
            assert(self.held_dials().add(Multiset::empty()) =~= self.held_dials());
        }
        r
    }

    /// Takes an event of the rendezvous client.
    pub fn handle_rendezvous_event(&mut self, event: RendezvousEvent) -> (r: Vec<Action<R, D>>)
        requires
            old(self).wf(),
        ensures
            final(self).wf(),
            old(self).rendezvous_post(final(self), event, views(r@)),
            old(self).keeps_sinks(final(self), views(r@)),
    {
        broadcast use vstd::multiset::group_multiset_axioms;

        let ghost e = event;
        let mut r: Vec<Action<R, D>> = Vec::new();
        match event {
            RendezvousEvent::Discovered { registrations, cookie } => {
                self.cookie = Some(cookie);
                r = dials_for_discovery(registrations);
            },
            RendezvousEvent::Registered { ttl } => {
                self.status = RegistrationStatus::Registered { ttl };
                let cookie = match &self.cookie {
                    Some(c) => Some(c.clone()),
                    None => None,
                };
                r.push(Action::Discover { namespace: self.namespace.as_str().to_owned(), cookie });
                proof {
                    assert(views(r@) =~= seq![discover::<R, D>(self.spec_namespace(), self.spec_cookie())]);
                }
            },
            RendezvousEvent::RegisterFailed { .. } => {
                self.status = RegistrationStatus::Failed;
            },
            _ => {},
        }
        proof {
            if let RendezvousEvent::Discovered { registrations, cookie } = e {
                let regs = registrations@.map_values(|g: Registration| g@);
                lemma_discovery_dials::<R, D>(regs);
                let acts = views(r@);
                assert forall|k: int| 0 <= k < acts.len() implies #[trigger] request_sink_of(acts[k])
                    == Multiset::<R>::empty() && dial_sink_of(acts[k]) == Multiset::<D>::empty() by {
                    assert(is_peer_dial(acts[k]));
                }
                lemma_no_sinks(acts);
            } else {
                lemma_sinks_of_short(views(r@));
            }
            assert(self.held_requests().add(Multiset::empty()) =~= self.held_requests());
            assert(self.held_dials().add(Multiset::empty()) =~= self.held_dials());
        }
        r
    }

    /// Takes an identify event, keeping what a peer told about itself.
    pub fn handle_identify_event(&mut self, event: IdentifyEvent) -> (r: Vec<Action<R, D>>)
        requires
            old(self).wf(),
        ensures
            final(self).wf(),
            old(self).identify_post(final(self), event, views(r@)),
            old(self).keeps_sinks(final(self), views(r@)),
    {
        broadcast use vstd::multiset::group_multiset_axioms;

        let ghost hr0 = self.held_requests();
        let ghost hd0 = self.held_dials();
        match event {
            IdentifyEvent::Received(record) => self.record_peer(record),
            IdentifyEvent::Other => {},
        }
        let r: Vec<Action<R, D>> = Vec::new();
        proof {
            lemma_sinks_of_short(views(r@));
            assert(hr0.add(Multiset::empty()) =~= hr0);
            assert(hd0.add(Multiset::empty()) =~= hd0);
        }
        r
    }

    /// Keeps `record`, in place of the peer's earlier record if any.
    fn record_peer(&mut self, record: PeerRecord)
        requires
            old(self).wf(),
        ensures
            final(self).wf(),
            final(self).spec_peers() == record_peer(old(self).spec_peers(), record@),
            final(self).requests() == old(self).requests(),
            final(self).spec_namespace() == old(self).spec_namespace(),
            final(self).spec_capacity() == old(self).spec_capacity(),
            final(self).spec_running() == old(self).spec_running(),
            final(self).dials() == old(self).dials(),
            final(self).spec_cookie() == old(self).spec_cookie(),
            final(self).spec_status() == old(self).spec_status(),
            final(self).spec_last_rtt() == old(self).spec_last_rtt(),
    {
        let ghost peers = self.spec_peers();
        let ghost rec = record@;
        match self.find_peer(&record.peer_id) {
            Some(i) => {
                self.known_peers.set(i, record);
                proof {
                    assert(self.spec_peers() =~= peers.update(i as int, rec));
                    assert forall|a: int, b: int|
                        0 <= a < self.spec_peers().len() && 0 <= b < self.spec_peers().len() && a != b
                        implies self.spec_peers()[a].0 != self.spec_peers()[b].0 by {
                        assert(peers[i as int].0 == rec.0);
                    }
                }
            },
            None => {
                self.known_peers.push(record);
                proof {
                    assert(self.spec_peers() =~= peers.push(rec));
                    assert forall|a: int, b: int|
                        0 <= a < self.spec_peers().len() && 0 <= b < self.spec_peers().len() && a != b
                        implies self.spec_peers()[a].0 != self.spec_peers()[b].0 by {
                        if a < peers.len() && b < peers.len() {
                        } else if a < peers.len() {
                            assert(self.spec_peers()[b] == rec);
                        } else {
                            assert(self.spec_peers()[a] == rec);
                        }
                    }
                }
            },
        }
    }

    /// Index of the record for `peer`.
    fn find_peer(&self, peer: &Vec<u8>) -> (r: Option<usize>)
        requires
            self.wf(),
        ensures
            match r {
                Some(i) => i < self.spec_peers().len() && i == peer_position(self.spec_peers(), peer@),
                None => forall|j: int| 0 <= j < self.spec_peers().len() ==> self.spec_peers()[j].0 != peer@,
            },
    {
        let ghost peers = self.spec_peers();
        let mut i: usize = 0;
        while i < self.known_peers.len()
            invariant
                self.wf(),
                i <= self.known_peers@.len(),
                forall|j: int| 0 <= j < i ==> peers[j].0 != peer@,
                peers == self.spec_peers(),
            decreases self.known_peers@.len() - i,
        {
            if bytes_equal(&self.known_peers[i].peer_id, peer) {
                proof {
                    let p = peer_position(peers, peer@);
                    assert(peers[i as int].0 == peer@);
                    assert(0 <= p < peers.len() && peers[p].0 == peer@);
                    assert(p == i);
                }
                return Some(i);
            }
            i += 1;
        }
        None
    }

    /// Takes an event of the composed behaviour. Relay reservations and
    /// circuits are only observed.
    pub fn handle_behaviour_event(&mut self, event: ComposedSwarmEvent) -> (r: Vec<Action<R, D>>)
        requires
            old(self).wf(),
        ensures
            final(self).wf(),
            old(self).behaviour_post(final(self), event, views(r@)),
            old(self).keeps_sinks(final(self), views(r@)),
    {
        broadcast use vstd::multiset::group_multiset_axioms;

        match event {
            ComposedSwarmEvent::Ping(e) => self.handle_ping_event(e),
            ComposedSwarmEvent::Rendezvous(e) => self.handle_rendezvous_event(e),
            ComposedSwarmEvent::Gossipsub(e) => self.handle_gossipsub_event(e),
            ComposedSwarmEvent::Identify(e) => self.handle_identify_event(e),
            ComposedSwarmEvent::Relay => {
                let r: Vec<Action<R, D>> = Vec::new();
                proof {
                    lemma_sinks_of_short(views(r@));
                    assert(self.held_requests().add(Multiset::empty()) =~= self.held_requests());
                    assert(self.held_dials().add(Multiset::empty()) =~= self.held_dials());
                }
                r
            },
        }
    }

    /// Takes one network event.
    pub fn handle_event(&mut self, event: SwarmEvent) -> (r: Vec<Action<R, D>>)
        requires
            old(self).wf(),
        ensures
            final(self).wf(),
            old(self).event_post(final(self), event, views(r@)),
            old(self).keeps_sinks(final(self), views(r@)),
    {
        broadcast use vstd::multiset::group_multiset_axioms;

        match event {
            SwarmEvent::Behaviour(e) => self.handle_behaviour_event(e),
            SwarmEvent::ConnectionEstablished { peer_id, dialer: true } => self.settle_dials(&peer_id, None),
            SwarmEvent::OutgoingConnectionError { peer_id: Some(p), error } => self.settle_dials(&p, Some(error)),
            _ => {
                let r: Vec<Action<R, D>> = Vec::new();
                proof {
                    lemma_sinks_of_short(views(r@));
                    assert(self.held_requests().add(Multiset::empty()) =~= self.held_requests());
                    assert(self.held_dials().add(Multiset::empty()) =~= self.held_dials());
                }
                r
            },
        }
    }

    /// Ends the loop, handing back every sink still held: the pending
    /// requests' oldest first, then the dials' in the order they began.
    /// Dropping them tells their awaiters that the connection closed.
    pub fn shutdown(self) -> (r: (Vec<R>, Vec<D>))
        ensures
            r.0@ == sinks_of(self.requests()),
            r.1@ == self.dials().map_values(|e: (Seq<u8>, D)| e.1),
    {
        let requests = self.segment_request.into_sinks();
        let mut rest = self.pending_dial;
        let ghost all = rest@;
        let mut dials: Vec<D> = Vec::new();
        while rest.len() > 0
            invariant
                all.map_values(|e: (Vec<u8>, D)| e.1) == dials@ + rest@.map_values(|e: (Vec<u8>, D)| e.1),
            decreases rest@.len(),
        {
            let ghost prev = rest@;
            let (_, sink) = rest.remove(0);
            proof {
                assert(prev.map_values(|e: (Vec<u8>, D)| e.1) =~= seq![sink] + rest@.map_values(
                    |e: (Vec<u8>, D)| e.1,
                ));
                assert(dials@.push(sink) + rest@.map_values(|e: (Vec<u8>, D)| e.1) =~= dials@ + prev.map_values(
                    |e: (Vec<u8>, D)| e.1,
                ));
            }
            dials.push(sink);
        }
        proof {
            assert(dials@ + rest@.map_values(|e: (Vec<u8>, D)| e.1) =~= dials@);
            assert(self.dials().map_values(|e: (Seq<u8>, D)| e.1) =~= all.map_values(|e: (Vec<u8>, D)| e.1));
        }
        (requests, dials)
    }

    /// Gives every dial under way for `peer` its outcome: success when `error`
    /// is `None`, else the error.
    fn settle_dials(&mut self, peer: &Vec<u8>, error: Option<String>) -> (r: Vec<Action<R, D>>)
        requires
            old(self).wf(),
        ensures
            final(self).wf(),
            old(self).settle_post(final(self), peer@, error, views(r@)),
            old(self).keeps_sinks(final(self), views(r@)),
    {
        let ghost hr0 = self.held_requests();
        let ghost hd0 = self.held_dials();
        broadcast use vstd::multiset::group_multiset_axioms;

        let ghost all = self.dials();
        let mut rest: Vec<(Vec<u8>, D)> = Vec::new();
        std::mem::swap(&mut rest, &mut self.pending_dial);
        let mut kept: Vec<(Vec<u8>, D)> = Vec::new();
        let mut r: Vec<Action<R, D>> = Vec::new();
        let ghost mut i: int = 0;
        assert(dial_views(rest@) =~= all.skip(0));
        assert(all.take(0) =~= Seq::<(Seq<u8>, D)>::empty());
        assert(dial_views(kept@) =~= dials_kept(all.take(0), peer@));
        assert(views(r@) =~= dials_settled::<R, D>(all.take(0), peer@, dial_outcome(error)));
        while rest.len() > 0
            invariant
                0 <= i <= all.len(),
                dial_views(rest@) == all.skip(i),
                dial_views(kept@) == dials_kept(all.take(i), peer@),
                views(r@) == dials_settled::<R, D>(all.take(i), peer@, dial_outcome(error)),
            decreases rest@.len(),
        {
            let ghost prev = rest@;
            let (p, sink) = rest.remove(0);
            proof {
                assert(dial_views(prev).len() == all.len() - i);
                assert(dial_views(prev)[0] == (p@, sink));
                assert(all.skip(i)[0] == all[i]);
                assert(all[i] == (p@, sink));
                assert(rest@ =~= prev.subrange(1, prev.len() as int));
                assert forall|k: int| 0 <= k < dial_views(rest@).len() implies #[trigger] dial_views(rest@)[k]
                    == all.skip(i + 1)[k] by {
                    assert(dial_views(rest@)[k] == dial_views(prev)[k + 1]);
                    assert(all.skip(i)[k + 1] == all[i + 1 + k]);
                }
                assert(dial_views(rest@) =~= all.skip(i + 1));
                assert(all.take(i + 1).drop_last() =~= all.take(i));
                assert(all.take(i + 1).last() == all[i]);
            }
            if bytes_equal(&p, peer) {
                let ghost sv = sink;
                let result = match &error {
                    Some(e) => Err(ClientError::DialError(e.clone())),
                    None => Ok(()),
                };
                r.push(Action::ResolveDial { sender: sink, result });
                proof {
                    assert(views(r@) =~= dials_settled::<R, D>(all.take(i), peer@, dial_outcome(error)).push(
                        resolve_dial::<R, D>(sv, dial_outcome(error)),
                    ));
                }
            } else {
                let ghost kv = kept@;
                kept.push((p, sink));
                proof {
                    assert(dial_views(kept@) =~= dial_views(kv).push(all[i]));
                }
            }
            proof {
                i = i + 1;
            }
        }
        proof {
            assert(all.take(i) =~= all);
        }
        self.pending_dial = kept;
        proof {
            lemma_settle_keeps_sinks::<R, D>(all, peer@, dial_outcome(error));
            assert(self.dials() == dial_views(self.pending_dial@));
            assert(self.held_requests().add(Multiset::empty()) =~= self.held_requests());
        }
        proof {
            assert(hr0.add(Multiset::empty()) =~= hr0);
            assert(hd0.add(Multiset::empty()) =~= hd0);
        }
        r
    }

    /// Takes an event of the publish/subscribe protocol.
    pub fn handle_gossipsub_event(&mut self, event: GossipsubEvent) -> (r: Vec<Action<R, D>>)
        requires
            old(self).wf(),
        ensures
            final(self).wf(),
            old(self).gossipsub_post(final(self), event, views(r@)),
            old(self).keeps_sinks(final(self), views(r@)),
    {
        let ghost hr0 = self.held_requests();
        let ghost hd0 = self.held_dials();
        broadcast use vstd::multiset::group_multiset_axioms;

        let ghost e = event;
        let ghost before = self.requests();
        let mut r: Vec<Action<R, D>> = Vec::new();
        match event {
            GossipsubEvent::Message { topic, data } => {
                let ghost dv = data@;
                match self.segment_request.remove(topic.as_str()) {
                    Some(sender) => {
                        let ghost sv = sender;
                        r.push(Action::ResolveRequest { sender, result: Ok(data) });
                        proof {
                            assert(views(r@) =~= seq![resolve_request::<R, D>(sv, Ok(dv))]);
                        }
                    },
                    None => {
                        assert(views(r@) =~= Seq::<ActionView<R, D>>::empty());
                    },
                }
                proof {
                    crate::registry::lemma_remove_keeps_sinks(before, topic@);
                    lemma_sinks_of_short(views(r@));
                    assert(request_sinks(views(r@)) =~= option_bag(after_remove(before, topic@).1));
                }
            },
            GossipsubEvent::GossipsubNotSupported { peer_id } => {
                r.push(Action::Disconnect { peer_id });
                proof {
                    lemma_sinks_of_short(views(r@));
                }
            },
            _ => {},
        }
        proof {
            if !(e is Message) {
                lemma_sinks_of_short(views(r@));
                assert(self.held_requests().add(Multiset::empty()) =~= self.held_requests());
            }
            assert(self.held_dials().add(Multiset::empty()) =~= self.held_dials());
            if let GossipsubEvent::GossipsubNotSupported { peer_id } = e {
                assert(views(r@) =~= seq![disconnect::<R, D>(peer_id@)]);
            }
        }
        proof {
            assert(hr0.add(Multiset::empty()) =~= hr0);
            assert(hd0.add(Multiset::empty()) =~= hd0);
        }
        r
    }
}

/// Actions after subscribing for a request: the sink the registry displaced,
/// if any, learns that its request timed out.
pub open spec fn displaced_actions<R, D>(displaced: Option<R>) -> Seq<ActionView<R, D>> {
    match displaced {
        Some(s) => seq![resolve_request(s, Err(RequestError::Timeout))],
        None => seq![],
    }
}

/// Position of the record for `peer`, or -1.
pub open spec fn peer_position(peers: Seq<PeerRecordView>, peer: Seq<u8>) -> int {
    if exists|i: int| 0 <= i < peers.len() && peers[i].0 == peer {
        choose|i: int| 0 <= i < peers.len() && peers[i].0 == peer
    } else {
        -1
    }
}

/// No peer has two records.
pub open spec fn peers_unique(peers: Seq<PeerRecordView>) -> bool {
    forall|i: int, j: int| 0 <= i < peers.len() && 0 <= j < peers.len() && i != j ==> peers[i].0 != peers[j].0
}

/// Records after learning `rec`: it replaces the record of the same peer, or
/// joins the others.
pub open spec fn record_peer(peers: Seq<PeerRecordView>, rec: PeerRecordView) -> Seq<PeerRecordView> {
    let i = peer_position(peers, rec.0);
    if i >= 0 {
        peers.update(i, rec)
    } else {
        peers.push(rec)
    }
}

/// The dials under way that are not for `peer`.
pub open spec fn dials_kept<D>(dials: Seq<(Seq<u8>, D)>, peer: Seq<u8>) -> Seq<(Seq<u8>, D)>
    decreases dials.len(),
{
    if dials.len() == 0 {
        seq![]
    } else if dials.last().0 == peer {
        dials_kept(dials.drop_last(), peer)
    } else {
        dials_kept(dials.drop_last(), peer).push(dials.last())
    }
}

/// `result` for the sink of every dial under way for `peer`, in order.
pub open spec fn dials_settled<R, D>(dials: Seq<(Seq<u8>, D)>, peer: Seq<u8>, result: Result<(), ClientError>) -> Seq<
    ActionView<R, D>,
>
    decreases dials.len(),
{
    if dials.len() == 0 {
        seq![]
    } else if dials.last().0 == peer {
        dials_settled(dials.drop_last(), peer, result).push(resolve_dial(dials.last().1, result))
    } else {
        dials_settled(dials.drop_last(), peer, result)
    }
}

/// Views of dials under way.
pub open spec fn dial_views<D>(v: Seq<(Vec<u8>, D)>) -> Seq<(Seq<u8>, D)> {
    v.map_values(|e: (Vec<u8>, D)| (e.0@, e.1))
}

/// What a dial sink learns when its connection is made (`None`) or fails
/// with `error`.
pub open spec fn dial_outcome(error: Option<String>) -> Result<(), ClientError> {
    match error {
        Some(e) => Err(ClientError::DialError(e)),
        None => Ok(()),
    }
}

/// Sinks of a sequence of dials.
pub open spec fn dial_bag<D>(dials: Seq<(Seq<u8>, D)>) -> Multiset<D> {
    dials.map_values(|e: (Seq<u8>, D)| e.1).to_multiset()
}

/// Across any run of steps, no reply sink is lost or duplicated: when each
/// step accounts for its sinks, the run does, with the sinks handed in and
/// the actions of both steps together. Every sink handed to the loop thus
/// leaves it exactly once, in an action or at shutdown.
pub proof fn lemma_run_accounts<R, D>(
    a: EventLoop<R, D>,
    b: EventLoop<R, D>,
    c: EventLoop<R, D>,
    in_ab: (Multiset<R>, Multiset<D>),
    in_bc: (Multiset<R>, Multiset<D>),
    first: Seq<ActionView<R, D>>,
    second: Seq<ActionView<R, D>>,
)
    requires
        a.accounts(&b, in_ab.0, in_ab.1, first),
        b.accounts(&c, in_bc.0, in_bc.1, second),
    ensures
        a.accounts(&c, in_ab.0.add(in_bc.0), in_ab.1.add(in_bc.1), first + second),
{
    broadcast use vstd::multiset::group_multiset_axioms;

    lemma_sinks_concat(first, second);
    assert forall|v: R| #[trigger] a.held_requests().add(in_ab.0.add(in_bc.0)).count(v) == c.held_requests().add(
        request_sinks(first + second),
    ).count(v) by {
        assert(a.held_requests().add(in_ab.0).count(v) == b.held_requests().add(request_sinks(first)).count(v));
        assert(b.held_requests().add(in_bc.0).count(v) == c.held_requests().add(request_sinks(second)).count(v));
    }
    assert forall|v: D| #[trigger] a.held_dials().add(in_ab.1.add(in_bc.1)).count(v) == c.held_dials().add(
        dial_sinks(first + second),
    ).count(v) by {
        assert(a.held_dials().add(in_ab.1).count(v) == b.held_dials().add(dial_sinks(first)).count(v));
        assert(b.held_dials().add(in_bc.1).count(v) == c.held_dials().add(dial_sinks(second)).count(v));
    }
    assert(a.held_requests().add(in_ab.0.add(in_bc.0)) =~= c.held_requests().add(request_sinks(first + second)));
    assert(a.held_dials().add(in_ab.1.add(in_bc.1)) =~= c.held_dials().add(dial_sinks(first + second)));
}

/// Settling the dials for a peer loses no sink: each either stays under way or
/// is handed to exactly one resolution.
pub proof fn lemma_settle_keeps_sinks<R, D>(dials: Seq<(Seq<u8>, D)>, peer: Seq<u8>, result: Result<(), ClientError>)
    ensures
        dial_bag(dials) =~= dial_bag(dials_kept(dials, peer)).add(
            dial_sinks(dials_settled::<R, D>(dials, peer, result)),
        ),
        request_sinks(dials_settled::<R, D>(dials, peer, result)) =~= Multiset::<R>::empty(),
    decreases dials.len(),
{
    broadcast use vstd::seq_lib::group_to_multiset_ensures, vstd::multiset::group_multiset_axioms;

    if dials.len() == 0 {
        assert(dials.map_values(|e: (Seq<u8>, D)| e.1) =~= Seq::<D>::empty());
        assert(dials_kept(dials, peer).map_values(|e: (Seq<u8>, D)| e.1) =~= Seq::<D>::empty());
    } else {
        let init = dials.drop_last();
        let last = dials.last();
        lemma_settle_keeps_sinks::<R, D>(init, peer, result);
        assert(dials.map_values(|e: (Seq<u8>, D)| e.1) =~= init.map_values(|e: (Seq<u8>, D)| e.1).push(last.1));
        let settled = dials_settled::<R, D>(dials, peer, result);
        if last.0 == peer {
            let s0 = dials_settled::<R, D>(init, peer, result);
            assert(settled.drop_last() =~= s0);
        } else {
            let k0 = dials_kept(init, peer);
            assert(dials_kept(dials, peer).map_values(|e: (Seq<u8>, D)| e.1) =~= k0.map_values(
                |e: (Seq<u8>, D)| e.1,
            ).push(last.1));
        }
    }
}

} // verus!
