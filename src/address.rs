//! Multiaddresses as ordered sequences of protocol components.
use vstd::prelude::*;

verus! {

/// One component of a multiaddress: a `/p2p/<peer>` component with the peer
/// id's bytes, or any other protocol component in its binary encoding.
#[derive(Debug)]
pub enum Component {
    P2p(Vec<u8>),
    Other(Vec<u8>),
}

/// Mathematical value of a [`Component`].
pub enum ComponentView {
    P2p(Seq<u8>),
    Other(Seq<u8>),
}

impl View for Component {
    type V = ComponentView;

    open spec fn view(&self) -> ComponentView {
        match self {
            Component::P2p(peer) => ComponentView::P2p(peer@),
            Component::Other(bytes) => ComponentView::Other(bytes@),
        }
    }
}

/// Whether the last component of `addr` is `/p2p/<peer>`.
pub open spec fn ends_with_peer(addr: Seq<ComponentView>, peer: Seq<u8>) -> bool {
    addr.len() > 0 && addr.last() == ComponentView::P2p(peer)
}

/// The address to dial to reach `peer` at `addr`: `addr` itself when it
/// already ends in `/p2p/<peer>`, otherwise `addr/p2p/<peer>`.
pub open spec fn dial_target(addr: Seq<ComponentView>, peer: Seq<u8>) -> Seq<ComponentView> {
    if ends_with_peer(addr, peer) {
        addr
    } else {
        addr.push(ComponentView::P2p(peer))
    }
}

/// Whether two byte strings are equal.
pub(crate) fn bytes_equal(a: &Vec<u8>, b: &Vec<u8>) -> (r: bool)
    ensures
        r == (a@ == b@),
{
    if a.len() != b.len() {
        return false;
    }
    let mut i: usize = 0;
    while i < a.len()
        invariant
            a@.len() == b@.len(),
            i <= a@.len(),
            forall|j: int| 0 <= j < i ==> a@[j] == b@[j],
        decreases a@.len() - i,
    {
        if a[i] != b[i] {
            return false;
        }
        i += 1;
    }
    assert(a@ =~= b@);
    true
}

/// A multiaddress, components in order.
#[derive(Debug)]
pub struct Address {
    components: Vec<Component>,
}

impl View for Address {
    type V = Seq<ComponentView>;

    closed spec fn view(&self) -> Seq<ComponentView> {
        self.components@.map_values(|c: Component| c@)
    }
}

impl Address {
    /// The address made of `components`, in order.
    pub fn new(components: Vec<Component>) -> (r: Address)
        ensures
            r@ == components@.map_values(|c: Component| c@),
    {
        Address { components }
    }

    /// The address with no component.
    pub fn empty() -> (r: Address)
        ensures
            r@ == Seq::<ComponentView>::empty(),
    {
        let r = Address { components: Vec::new() };
        assert(r@ =~= Seq::<ComponentView>::empty());
        r
    }

    /// The components, in order.
    pub fn components(&self) -> (r: &Vec<Component>)
        ensures
            r@.map_values(|c: Component| c@) == self@,
    {
        &self.components
    }

    /// Appends `component`.
    pub fn with(self, component: Component) -> (r: Address)
        ensures
            r@ == self@.push(component@),
    {
        let mut components = self.components;
        let ghost before = components@;
        components.push(component);
        let r = Address { components };
        assert(r@ =~= before.map_values(|c: Component| c@).push(component@));
        r
    }

    /// Whether the last component is `/p2p/<peer>`.
    pub fn ends_with_peer(&self, peer: &Vec<u8>) -> (r: bool)
        ensures
            r == ends_with_peer(self@, peer@),
    {
        let n = self.components.len();
        if n == 0 {
            return false;
        }
        match &self.components[n - 1] {
            Component::P2p(last) => bytes_equal(last, peer),
            Component::Other(_) => false,
        }
    }

    /// The address to dial to reach `peer` here: unchanged when it already
    /// ends in `/p2p/<peer>`, otherwise with that component appended.
    pub fn dial_target(self, peer: &Vec<u8>) -> (r: Address)
        ensures
            r@ == dial_target(self@, peer@),
    {
        if self.ends_with_peer(peer) {
            self
        } else {
            self.with(Component::P2p(peer.clone()))
        }
    }
}

} // verus!
