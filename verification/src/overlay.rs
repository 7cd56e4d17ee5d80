//! The in-process overlay: a set of peers, each a node with its local store,
//! among which messages are delivered and lookups are forwarded hop by hop.

use crate::error::DhtError;
use crate::messages::Outbound;
use crate::node::stored_after_signal;
use crate::node::LookupOutcome;
use crate::node::Node;
use crate::node::NodeState;
use crate::store::KeyValueStore;
use crate::store::Stored;
use vstd::prelude::*;

verus! {

/// A node with its local store.
pub struct Peer {
    pub node: Node,
    pub store: KeyValueStore,
}

/// A peer as contracts see it.
pub struct PeerState {
    pub node: NodeState,
    pub store: Map<i32, Stored>,
}

impl View for Peer {
    type V = PeerState;

    open spec fn view(&self) -> PeerState {
        PeerState { node: self.node@, store: self.store@ }
    }
}

/// Whether every store of `peers` is well-formed.
pub open spec fn stores_wf(peers: Seq<Peer>) -> bool {
    forall|i: int| 0 <= i < peers.len() ==> (#[trigger] peers[i]).store.wf()
}

/// The peers as contracts see them.
pub open spec fn states_of(peers: Seq<Peer>) -> Seq<PeerState> {
    peers.map_values(|p: Peer| p@)
}

/// The index at or after `from` of the first peer whose node has id `id`.
pub open spec fn first_with_id(states: Seq<PeerState>, id: i32, from: int) -> Option<int>
    decreases states.len() - from,
{
    if from < 0 || from >= states.len() {
        None
    } else if states[from].node.id == id {
        Some(from)
    } else {
        first_with_id(states, id, from + 1)
    }
}

/// The index of the peer that messages to `id` reach: the first with that id.
pub open spec fn spec_index_of(states: Seq<PeerState>, id: i32) -> Option<int> {
    first_with_id(states, id, 0)
}

/// The peer `state` after it received `signal`.
pub open spec fn peer_after_signal(state: PeerState, signal: crate::messages::Signal) -> PeerState {
    PeerState {
        node: state.node.after_signal(signal),
        store: stored_after_signal(state.store, state.node.id, signal),
    }
}

/// The outcome of forwarding a lookup for `pos` from node `at` with `hops`
/// forwarding steps left: the owner that a node on the way names; an
/// unreachable peer when a hop names a node that is not among the peers; not
/// found when a node knows of nobody to forward to or the steps run out.
pub open spec fn spec_resolve(states: Seq<PeerState>, at: i32, pos: i32, hops: nat) -> Result<
    i32,
    DhtError,
>
    decreases hops,
{
    match spec_index_of(states, at) {
        None => Err(DhtError::PeerUnreachable),
        Some(i) => match states[i].node.route(pos) {
            LookupOutcome::Owner(owner) => Ok(owner),
            LookupOutcome::Forward(next) => if hops == 0 || next == at {
                Err(DhtError::NotFound)
            } else {
                spec_resolve(states, next, pos, (hops - 1) as nat)
            },
        },
    }
}

/// The index of the peer that messages to `id` reach.
pub fn index_of(peers: &Vec<Peer>, id: i32) -> (found: Option<usize>)
    ensures
        match found {
            Some(i) => spec_index_of(states_of(peers@), id) == Some(i as int) && i < peers@.len()
                && peers@[i as int].node.id == id,
            None => spec_index_of(states_of(peers@), id) is None,
        },
{
    let mut i: usize = 0;
    while i < peers.len()
        invariant
            i <= peers@.len(),
            spec_index_of(states_of(peers@), id) == first_with_id(states_of(peers@), id, i as int),
        decreases peers@.len() - i,
    {
        if peers[i].node.id == id {
            return Some(i);
        }
        i = i + 1;
    }
    None
}

/// Delivers `parcel` to the peer it is addressed to, which handles it.
pub fn deliver(peers: &mut Vec<Peer>, parcel: Outbound) -> (outcome: Result<(), DhtError>)
    requires
        stores_wf(old(peers)@),
    ensures
        stores_wf(final(peers)@),
        match spec_index_of(states_of(old(peers)@), parcel.to) {
            Some(i) => outcome is Ok && states_of(final(peers)@) == states_of(old(peers)@).update(
                i,
                peer_after_signal(states_of(old(peers)@)[i], parcel.message@),
            ),
            None => outcome == Err::<(), DhtError>(DhtError::PeerUnreachable) && final(peers)@
                == old(peers)@,
        },
{
    match index_of(peers, parcel.to) {
        Some(i) => {
            let ghost before = peers@;
            assert(before[i as int].store.wf());
            let mut peer = peers.remove(i);
            peer.node.receive(parcel.message, &mut peer.store);
            peers.insert(i, peer);
            proof {
                assert(peers@ =~= before.update(i as int, peer));
                assert forall|j: int| 0 <= j < peers@.len() implies (#[trigger] peers@[j]).store.wf() by {
                    if j != i {
                        assert(peers@[j] == before[j]);
                    }
                }
                assert(states_of(peers@) =~= states_of(before).update(
                    i as int,
                    peer_after_signal(states_of(before)[i as int], parcel.message@),
                ));
            }
            Ok(())
        },
        None => Err(DhtError::PeerUnreachable),
    }
}

/// Resolves the owner of ring position `pos`, starting at node `start` and
/// forwarding at most `max_hops` times.
pub fn resolve(peers: &Vec<Peer>, start: i32, pos: i32, max_hops: u32) -> (outcome: Result<
    i32,
    DhtError,
>)
    ensures
        outcome == spec_resolve(states_of(peers@), start, pos, max_hops as nat),
{
    let mut at: i32 = start;
    let mut left: u32 = max_hops;
    loop
        invariant
            spec_resolve(states_of(peers@), start, pos, max_hops as nat) == spec_resolve(
                states_of(peers@),
                at,
                pos,
                left as nat,
            ),
        decreases left,
    {
        match index_of(peers, at) {
            None => {
                return Err(DhtError::PeerUnreachable);
            },
            Some(i) => {
                match peers[i].node.route(pos) {
                    LookupOutcome::Owner(owner) => {
                        return Ok(owner);
                    },
                    LookupOutcome::Forward(next) => {
                        if left == 0 || next == at {
                            return Err(DhtError::NotFound);
                        }
                        at = next;
                        left = left - 1;
                    },
                }
            },
        }
    }
}

} // verus!
