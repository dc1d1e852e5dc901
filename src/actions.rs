//! Work that the loop hands to its host, and the reply sinks it carries.
use crate::address::{Address, ComponentView};
use crate::events::RequestError;
use crate::protocol::{ClientError, REGISTRATION_TTL_SECS};
use vstd::multiset::Multiset;
use vstd::prelude::*;

verus! {

/// Work for the host to perform.
pub enum Action<R, D> {
    /// Register the namespace with the rendezvous node.
    Register { namespace: String, ttl: u64 },
    /// Ask the rendezvous node for peers of the namespace, past `cookie`.
    Discover { namespace: String, cookie: Option<Vec<u8>> },
    /// Dial `address`; the outcome goes back through
    /// [`EventLoop::dial_attempted`] with `peer_id` and `sender`.
    Dial { peer_id: Vec<u8>, address: Address, sender: Option<D> },
    /// Publish `data` on `topic`; a failure is only reported.
    Publish { topic: String, data: Vec<u8> },
    /// Subscribe to `topic`; the outcome goes back through
    /// [`EventLoop::subscribed`] with `segment_id` and `sender`.
    Subscribe { topic: String, segment_id: String, sender: R },
    /// Close every connection to `peer_id`.
    Disconnect { peer_id: Vec<u8> },
    /// Deliver `result` to a segment request's sink.
    ResolveRequest { sender: R, result: Result<Vec<u8>, RequestError> },
    /// Deliver `result` to a dial's sink.
    ResolveDial { sender: D, result: Result<(), ClientError> },
}

/// Mathematical value of an [`Action`].
pub enum ActionView<R, D> {
    Register { namespace: Seq<char>, ttl: u64 },
    Discover { namespace: Seq<char>, cookie: Option<Seq<u8>> },
    Dial { peer_id: Seq<u8>, address: Seq<ComponentView>, sender: Option<D> },
    Publish { topic: Seq<char>, data: Seq<u8> },
    Subscribe { topic: Seq<char>, segment_id: Seq<char>, sender: R },
    Disconnect { peer_id: Seq<u8> },
    ResolveRequest { sender: R, result: Result<Seq<u8>, RequestError> },
    ResolveDial { sender: D, result: Result<(), ClientError> },
}

/// View of an optional byte string.
pub open spec fn opt_bytes(o: Option<Vec<u8>>) -> Option<Seq<u8>> {
    match o {
        Some(v) => Some(v@),
        None => None,
    }
}

/// View of a segment request's result.
pub open spec fn result_view(r: Result<Vec<u8>, RequestError>) -> Result<Seq<u8>, RequestError> {
    match r {
        Ok(v) => Ok(v@),
        Err(e) => Err(e),
    }
}

impl<R, D> View for Action<R, D> {
    type V = ActionView<R, D>;

    open spec fn view(&self) -> ActionView<R, D> {
        match self {
            Action::Register { namespace, ttl } => ActionView::Register { namespace: namespace@, ttl: *ttl },
            Action::Discover { namespace, cookie } => ActionView::Discover {
                namespace: namespace@,
                cookie: opt_bytes(*cookie),
            },
            Action::Dial { peer_id, address, sender } => ActionView::Dial {
                peer_id: peer_id@,
                address: address@,
                sender: *sender,
            },
            Action::Publish { topic, data } => ActionView::Publish { topic: topic@, data: data@ },
            Action::Subscribe { topic, segment_id, sender } => ActionView::Subscribe {
                topic: topic@,
                segment_id: segment_id@,
                sender: *sender,
            },
            Action::Disconnect { peer_id } => ActionView::Disconnect { peer_id: peer_id@ },
            Action::ResolveRequest { sender, result } => ActionView::ResolveRequest {
                sender: *sender,
                result: result_view(*result),
            },
            Action::ResolveDial { sender, result } => ActionView::ResolveDial {
                sender: *sender,
                result: *result,
            },
        }
    }
}

/// Views of a sequence of actions.
pub open spec fn views<R, D>(actions: Seq<Action<R, D>>) -> Seq<ActionView<R, D>> {
    actions.map_values(|a: Action<R, D>| a@)
}

/// The request sink an action carries, if any.
pub open spec fn request_sink_of<R, D>(a: ActionView<R, D>) -> Multiset<R> {
    match a {
        ActionView::Subscribe { sender, .. } => Multiset::empty().insert(sender),
        ActionView::ResolveRequest { sender, .. } => Multiset::empty().insert(sender),
        _ => Multiset::empty(),
    }
}

/// The dial sink an action carries, if any.
pub open spec fn dial_sink_of<R, D>(a: ActionView<R, D>) -> Multiset<D> {
    match a {
        ActionView::Dial { sender: Some(s), .. } => Multiset::empty().insert(s),
        ActionView::ResolveDial { sender, .. } => Multiset::empty().insert(sender),
        _ => Multiset::empty(),
    }
}

/// Every request sink that `actions` carry.
pub open spec fn request_sinks<R, D>(actions: Seq<ActionView<R, D>>) -> Multiset<R>
    decreases actions.len(),
{
    if actions.len() == 0 {
        Multiset::empty()
    } else {
        request_sinks(actions.drop_last()).add(request_sink_of(actions.last()))
    }
}

/// Every dial sink that `actions` carry.
pub open spec fn dial_sinks<R, D>(actions: Seq<ActionView<R, D>>) -> Multiset<D>
    decreases actions.len(),
{
    if actions.len() == 0 {
        Multiset::empty()
    } else {
        dial_sinks(actions.drop_last()).add(dial_sink_of(actions.last()))
    }
}

/// The one-element bag of `x`.
pub open spec fn bag<T>(x: T) -> Multiset<T> {
    Multiset::empty().insert(x)
}

/// Registration of `namespace` for the usual time to live.
pub open spec fn register_for<R, D>(namespace: Seq<char>) -> ActionView<R, D> {
    ActionView::Register { namespace, ttl: REGISTRATION_TTL_SECS }
}

/// Delivery of `result` to the dial sink `sender`.
pub open spec fn resolve_dial<R, D>(sender: D, result: Result<(), ClientError>) -> ActionView<R, D> {
    ActionView::ResolveDial { sender, result }
}

/// Delivery of `result` to the request sink `sender`.
pub open spec fn resolve_request<R, D>(sender: R, result: Result<Seq<u8>, RequestError>) -> ActionView<R, D> {
    ActionView::ResolveRequest { sender, result }
}

/// Closing the connections to `peer`.
pub open spec fn disconnect<R, D>(peer: Seq<u8>) -> ActionView<R, D> {
    ActionView::Disconnect { peer_id: peer }
}

/// A discovery query for `namespace`, past `cookie`.
pub open spec fn discover<R, D>(namespace: Seq<char>, cookie: Option<Seq<u8>>) -> ActionView<R, D> {
    ActionView::Discover { namespace, cookie }
}

/// The sinks of two runs of actions, one after the other, are those of each.
pub proof fn lemma_sinks_concat<R, D>(first: Seq<ActionView<R, D>>, second: Seq<ActionView<R, D>>)
    ensures
        request_sinks(first + second) =~= request_sinks(first).add(request_sinks(second)),
        dial_sinks(first + second) =~= dial_sinks(first).add(dial_sinks(second)),
    decreases second.len(),
{
    broadcast use vstd::multiset::group_multiset_axioms;

    if second.len() == 0 {
        assert(first + second =~= first);
    } else {
        lemma_sinks_concat(first, second.drop_last());
        assert((first + second).drop_last() =~= first + second.drop_last());
        assert((first + second).last() == second.last());
    }
}

/// Sinks carried by sequences of at most one action.
pub proof fn lemma_sinks_of_short<R, D>(actions: Seq<ActionView<R, D>>)
    requires
        actions.len() <= 1,
    ensures
        actions.len() == 0 ==> request_sinks(actions) == Multiset::<R>::empty(),
        actions.len() == 0 ==> dial_sinks(actions) == Multiset::<D>::empty(),
        actions.len() == 1 ==> request_sinks(actions) == request_sink_of(actions[0]),
        actions.len() == 1 ==> dial_sinks(actions) == dial_sink_of(actions[0]),
{
    broadcast use vstd::multiset::group_multiset_axioms;

    if actions.len() == 1 {
        assert(actions.drop_last() =~= Seq::<ActionView<R, D>>::empty());
        assert(request_sinks(actions.drop_last()) == Multiset::<R>::empty());
        assert(dial_sinks(actions.drop_last()) == Multiset::<D>::empty());
        assert(Multiset::<R>::empty().add(request_sink_of(actions[0])) =~= request_sink_of(actions[0]));
        assert(Multiset::<D>::empty().add(dial_sink_of(actions[0])) =~= dial_sink_of(actions[0]));
    }
}

/// Actions that carry no sink, in any number, carry no sink together.
pub proof fn lemma_no_sinks<R, D>(actions: Seq<ActionView<R, D>>)
    requires
        forall|k: int|
            0 <= k < actions.len() ==> #[trigger] request_sink_of(actions[k]) == Multiset::<R>::empty()
                && dial_sink_of(actions[k]) == Multiset::<D>::empty(),
    ensures
        request_sinks(actions) == Multiset::<R>::empty(),
        dial_sinks(actions) == Multiset::<D>::empty(),
    decreases actions.len(),
{
    broadcast use vstd::multiset::group_multiset_axioms;

    if actions.len() > 0 {
        let init = actions.drop_last();
        assert forall|k: int| 0 <= k < init.len() implies #[trigger] request_sink_of(init[k]) == Multiset::<R>::empty()
            && dial_sink_of(init[k]) == Multiset::<D>::empty() by {
            assert(init[k] == actions[k]);
        }
        lemma_no_sinks(init);
        assert(request_sink_of(actions[actions.len() - 1]) == Multiset::<R>::empty());
        assert(request_sinks(actions) =~= Multiset::<R>::empty());
        assert(dial_sinks(actions) =~= Multiset::<D>::empty());
    }
}

} // verus!
