//! Dials for the peers that a rendezvous discovery returns.
use crate::actions::{views, Action, ActionView};
use crate::address::{dial_target, Address, ComponentView};
use crate::events::Registration;
use vstd::prelude::*;

verus! {

/// The dial, carrying no sink, for `peer` at `addr`.
pub open spec fn peer_dial<R, D>(peer: Seq<u8>, addr: Seq<ComponentView>) -> ActionView<R, D> {
    ActionView::Dial { peer_id: peer, address: dial_target(addr, peer), sender: None }
}

/// Whether `a` is a dial without a sink for an address that ends with
/// `/p2p/<peer>` of the peer it is for.
pub open spec fn is_peer_dial<R, D>(a: ActionView<R, D>) -> bool {
    match a {
        ActionView::Dial { peer_id, address, sender } => sender is None && crate::address::ends_with_peer(
            address,
            peer_id,
        ),
        _ => false,
    }
}

/// Dials for the addresses of one peer, in order.
pub open spec fn registration_dials<R, D>(peer: Seq<u8>, addrs: Seq<Seq<ComponentView>>) -> Seq<ActionView<R, D>>
    decreases addrs.len(),
{
    if addrs.len() == 0 {
        seq![]
    } else {
        registration_dials(peer, addrs.drop_last()).push(peer_dial(peer, addrs.last()))
    }
}

/// Dials for every address of every peer discovered, in order.
pub open spec fn discovery_dials<R, D>(regs: Seq<(Seq<u8>, Seq<Seq<ComponentView>>)>) -> Seq<ActionView<R, D>>
    decreases regs.len(),
{
    if regs.len() == 0 {
        seq![]
    } else {
        discovery_dials(regs.drop_last()) + registration_dials(regs.last().0, regs.last().1)
    }
}

/// Number of addresses over all registrations.
pub open spec fn address_count(regs: Seq<(Seq<u8>, Seq<Seq<ComponentView>>)>) -> nat
    decreases regs.len(),
{
    if regs.len() == 0 {
        0
    } else {
        address_count(regs.drop_last()) + regs.last().1.len()
    }
}

/// Dials for every address of every discovered peer, with `/p2p/<peer>`
/// appended where the address lacks it.
pub(crate) fn dials_for_discovery<R, D>(registrations: Vec<Registration>) -> (r: Vec<Action<R, D>>)
    ensures
        views(r@) == discovery_dials::<R, D>(registrations@.map_values(|g: Registration| g@)),
{
    let ghost all = registrations@.map_values(|g: Registration| g@);
    let mut rest = registrations;
    let mut r: Vec<Action<R, D>> = Vec::new();
    let ghost mut i: int = 0;
    assert(all.take(0) =~= Seq::<(Seq<u8>, Seq<Seq<ComponentView>>)>::empty());
    assert(views(r@) =~= discovery_dials::<R, D>(all.take(0)));
    while rest.len() > 0
        invariant
            0 <= i <= all.len(),
            rest@.map_values(|g: Registration| g@) == all.skip(i),
            views(r@) == discovery_dials::<R, D>(all.take(i)),
        decreases rest@.len(),
    {
        let ghost prev = rest@;
        let registration = rest.remove(0);
        proof {
            let pv = prev.map_values(|g: Registration| g@);
            assert(pv.len() == all.len() - i);
            assert(pv[0] == registration@);
            assert(all.skip(i)[0] == all[i]);
            assert(rest@ =~= prev.subrange(1, prev.len() as int));
            let rv = rest@.map_values(|g: Registration| g@);
            assert forall|k: int| 0 <= k < rv.len() implies #[trigger] rv[k] == all.skip(i + 1)[k] by {
                assert(rv[k] == pv[k + 1]);
                assert(all.skip(i)[k + 1] == all[i + 1 + k]);
            }
            assert(rv =~= all.skip(i + 1));
        }
        let Registration { peer_id, addresses } = registration;
        let ghost addrs = addresses@.map_values(|a: Address| a@);
        let ghost base = views(r@);
        let mut pending = addresses;
        let ghost mut j: int = 0;
        assert(addrs.take(0) =~= Seq::<Seq<ComponentView>>::empty());
        assert(views(r@) =~= base + registration_dials::<R, D>(peer_id@, addrs.take(0)));
        while pending.len() > 0
            invariant
                0 <= j <= addrs.len(),
                pending@.map_values(|a: Address| a@) == addrs.skip(j),
                views(r@) == base + registration_dials::<R, D>(peer_id@, addrs.take(j)),
            decreases pending@.len(),
        {
            let ghost prev_addrs = pending@;
            let address = pending.remove(0);
            proof {
                let pv = prev_addrs.map_values(|a: Address| a@);
                assert(pv.len() == addrs.len() - j);
                assert(pv[0] == address@);
                assert(addrs.skip(j)[0] == addrs[j]);
                assert(addrs[j] == address@);
                assert(pending@ =~= prev_addrs.subrange(1, prev_addrs.len() as int));
                let qv = pending@.map_values(|a: Address| a@);
                assert forall|k: int| 0 <= k < qv.len() implies #[trigger] qv[k] == addrs.skip(j + 1)[k] by {
                    assert(qv[k] == pv[k + 1]);
                    assert(addrs.skip(j)[k + 1] == addrs[j + 1 + k]);
                }
                assert(qv =~= addrs.skip(j + 1));
                assert(addrs.take(j + 1).drop_last() =~= addrs.take(j));
            }
            let ghost rv = views(r@);
            let target = address.dial_target(&peer_id);
            r.push(Action::Dial { peer_id: peer_id.clone(), address: target, sender: None });
            proof {
                assert(views(r@) =~= rv.push(peer_dial::<R, D>(peer_id@, addrs[j])));
                assert(views(r@) =~= base + registration_dials::<R, D>(peer_id@, addrs.take(j + 1)));
                j = j + 1;
            }
        }
        proof {
            assert(addrs.take(j) =~= addrs);
            assert(all.take(i + 1).drop_last() =~= all.take(i));
            assert(all.take(i + 1).last() == all[i]);
            assert(all[i] == (peer_id@, addrs));
            i = i + 1;
        }
    }
    proof {
        assert(all.take(i) =~= all);
    }
    r
}

/// One dial per advertised address of a peer, each for `addr/p2p/<peer>`.
pub proof fn lemma_registration_dials<R, D>(peer: Seq<u8>, addrs: Seq<Seq<ComponentView>>)
    ensures
        registration_dials::<R, D>(peer, addrs).len() == addrs.len(),
        forall|a: int|
            0 <= a < addrs.len() ==> #[trigger] registration_dials::<R, D>(peer, addrs)[a] == peer_dial::<R, D>(
                peer,
                addrs[a],
            ),
    decreases addrs.len(),
{
    if addrs.len() > 0 {
        lemma_registration_dials::<R, D>(peer, addrs.drop_last());
    }
}

/// For a discovery, every advertised address gets exactly one dial, in order,
/// and every address dialled ends with `/p2p/<peer>` of the peer that
/// advertised it. No dial carries a sink.
pub proof fn lemma_discovery_dials<R, D>(regs: Seq<(Seq<u8>, Seq<Seq<ComponentView>>)>)
    ensures
        discovery_dials::<R, D>(regs).len() == address_count(regs),
        forall|k: int|
            0 <= k < discovery_dials::<R, D>(regs).len() ==> is_peer_dial(
                #[trigger] discovery_dials::<R, D>(regs)[k],
            ),
        forall|r: int, a: int|
            0 <= r < regs.len() && 0 <= a < regs[r].1.len() ==> #[trigger] discovery_dials::<R, D>(regs)[address_count(
                regs.take(r),
            ) + a] == peer_dial::<R, D>(regs[r].0, regs[r].1[a]),
    decreases regs.len(),
{
    if regs.len() > 0 {
        let init = regs.drop_last();
        let last = regs.last();
        lemma_discovery_dials::<R, D>(init);
        lemma_registration_dials::<R, D>(last.0, last.1);
        let whole = discovery_dials::<R, D>(regs);
        let head = discovery_dials::<R, D>(init);
        let tail = registration_dials::<R, D>(last.0, last.1);
        assert(whole == head + tail);
        assert forall|k: int| 0 <= k < whole.len() implies is_peer_dial(#[trigger] whole[k]) by {
            if k < head.len() {
                assert(whole[k] == head[k]);
            } else {
                assert(whole[k] == tail[k - head.len()]);
            }
        }
        assert forall|r: int, a: int| 0 <= r < regs.len() && 0 <= a < regs[r].1.len() implies #[trigger] whole[address_count(
            regs.take(r),
        ) + a] == peer_dial::<R, D>(regs[r].0, regs[r].1[a]) by {
            if r == regs.len() - 1 {
                assert(regs.take(r) =~= init);
                assert(whole[address_count(init) + a] == tail[a]);
            } else {
                assert(regs.take(r) =~= init.take(r));
                assert(init[r] == regs[r]);
                lemma_address_count_prefix(init, r);
                assert(whole[address_count(regs.take(r)) + a] == head[address_count(init.take(r)) + a]);
            }
        }
    }
}

/// Addresses of a strict prefix of the registrations come before those of the
/// registration that follows it.
proof fn lemma_address_count_prefix(regs: Seq<(Seq<u8>, Seq<Seq<ComponentView>>)>, r: int)
    requires
        0 <= r < regs.len(),
    ensures
        address_count(regs.take(r)) + regs[r].1.len() <= address_count(regs),
    decreases regs.len(),
{
    if r < regs.len() - 1 {
        lemma_address_count_prefix(regs.drop_last(), r);
        assert(regs.drop_last().take(r) =~= regs.take(r));
    } else {
        assert(regs.take(r) =~= regs.drop_last());
    }
}

} // verus!
