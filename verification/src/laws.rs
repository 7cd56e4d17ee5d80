//! What holds of the overlay whatever the nodes, keys and values: hashing
//! agrees everywhere, maintenance settles, forwarding makes progress, and
//! what is stored is found again, on the node and on its neighbours.

use crate::directory::greatest_below;
use crate::directory::greatest_of;
use crate::directory::spec_ring_predecessor;
use crate::error::DhtError;
use crate::hashing::spec_hash_key;
use crate::hashing::spec_key_position;
use crate::messages::Parcel;
use crate::messages::Signal;
use crate::node::closest_known_preceding;
use crate::node::fixed_fingers;
use crate::node::resolved_finger;
use crate::node::spec_get;
use crate::node::stored_after_signal;
use crate::node::LookupOutcome;
use crate::node::NodeState;
use crate::overlay::spec_index_of;
use crate::overlay::spec_resolve;
use crate::overlay::PeerState;
use crate::ring::lemma_pow2_values;
use crate::ring::pow2;
use crate::ring::spec_in_range;
use crate::ring::on_ring;
use crate::ring::spec_distance;
use crate::ring::spec_finger_target;
use crate::ring::strictly_between;
use crate::store::Stored;
use vstd::prelude::*;

verus! {

/// A step that can change a node: a message from a peer, a recomputation of
/// the finger table, or a join.
pub enum Step {
    Receive(Signal),
    Fix(Seq<i32>),
    Join { node_id: i32, candidate: Option<i32> },
}

/// The node after `step`.
pub open spec fn after_step(node: NodeState, step: Step) -> NodeState {
    match step {
        Step::Receive(signal) => node.after_signal(signal),
        Step::Fix(known) => node.after_fix(known),
        Step::Join { node_id, candidate } => node.after_join(node_id, candidate),
    }
}

/// The node after each of `steps` in turn.
pub open spec fn after_steps(node: NodeState, steps: Seq<Step>) -> NodeState
    decreases steps.len(),
{
    if steps.len() == 0 {
        node
    } else {
        after_step(after_steps(node, steps.drop_last()), steps.last())
    }
}

/// Whether `step` is a join of the node `id` itself or the notice that
/// another node joined behind it.
pub open spec fn is_join_step(id: i32, step: Step) -> bool {
    match step {
        Step::Receive(Signal::NotifyJoin { .. }) => true,
        Step::Join { node_id, .. } => node_id == id,
        _ => false,
    }
}

/// The node after it was offered each of `offers` as successor in turn.
pub open spec fn after_offers(node: NodeState, offers: Seq<i32>) -> NodeState
    decreases offers.len(),
{
    if offers.len() == 0 {
        node
    } else {
        after_offers(node, offers.drop_last()).adopt(offers.last())
    }
}

/// The node after `rounds` maintenance rounds. In a round the node runs a
/// stabilization step, which leaves it unchanged, is offered as successor
/// whoever stabilized towards it, and recomputes its fingers from `known`.
pub open spec fn after_rounds(
    node: NodeState,
    offers: Seq<i32>,
    known: Seq<i32>,
    rounds: nat,
) -> NodeState
    decreases rounds,
{
    if rounds == 0 {
        node
    } else {
        after_offers(after_rounds(node, offers, known, (rounds - 1) as nat), offers).after_fix(
            known,
        )
    }
}

/// Hashing is deterministic: a key has one digest and one ring position,
/// whoever computes them and however often, and the position is on the ring.
pub proof fn lemma_hashing_is_deterministic(a: Seq<char>, b: Seq<char>, j: int, k: int)
    ensures
        a == b ==> spec_hash_key(a) == spec_hash_key(b),
        j == k ==> spec_key_position(j) == spec_key_position(k),
        on_ring(spec_key_position(k)),
{
}

/// The predecessor that a join is given is the ring predecessor: among
/// members on the ring, it is another member than the one that joins, and no
/// other member is closer before the joining position. Only where no other
/// member is registered is there none.
pub proof fn lemma_join_names_the_ring_predecessor(ids: Set<i32>, id: i32)
    requires
        on_ring(id as int),
        forall|k: i32| ids.contains(k) ==> on_ring(k as int),
    ensures
        match spec_ring_predecessor(ids, id) {
            Some(p) => ids.contains(p) && p != id && forall|k: i32|
                ids.contains(k) && k != id ==> spec_distance(p as int, id as int) <= spec_distance(
                    k as int,
                    id as int,
                ),
            None => forall|k: i32| ids.contains(k) ==> k == id,
        },
{
    if exists|p: i32| greatest_below(ids, id, p) {
        let p = choose|p: i32| greatest_below(ids, id, p);
        assert forall|k: i32| ids.contains(k) && k != id implies spec_distance(p as int, id as int)
            <= spec_distance(k as int, id as int) by {
            assert(on_ring(k as int));
            assert(on_ring(p as int));
            assert(spec_distance(p as int, id as int) == id - p);
            if k < id {
                assert(k <= p);
                assert(spec_distance(k as int, id as int) == id - k);
            } else {
                assert(spec_distance(k as int, id as int) == 1024 + id - k);
            }
        }
    } else if exists|g: i32| greatest_of(ids.remove(id), g) {
        let g = choose|g: i32| greatest_of(ids.remove(id), g);
        assert(ids.contains(g) && g != id);
        assert(on_ring(g as int));
        assert(g > id) by {
            if g < id {
                lemma_some_greatest_below(ids, id, g);
            }
        }
        assert forall|k: i32| ids.contains(k) && k != id implies spec_distance(g as int, id as int)
            <= spec_distance(k as int, id as int) by {
            assert(on_ring(k as int));
            assert(ids.remove(id).contains(k));
            assert(k <= g);
            if k < id {
                lemma_some_greatest_below(ids, id, k);
            }
            assert(spec_distance(k as int, id as int) == 1024 + id - k);
            assert(spec_distance(g as int, id as int) == 1024 + id - g);
        }
    } else {
        assert forall|k: i32| ids.contains(k) implies k == id by {
            if k != id {
                assert(on_ring(k as int));
                lemma_some_greatest(ids.remove(id), k);
            }
        }
    }
}

/// A set of ring positions with a member below `id` has a greatest member
/// below `id`.
proof fn lemma_some_greatest_below(ids: Set<i32>, id: i32, k: i32)
    requires
        ids.contains(k),
        k < id,
        forall|j: i32| ids.contains(j) ==> on_ring(j as int),
    ensures
        exists|p: i32| greatest_below(ids, id, p),
    decreases id - k,
{
    if forall|j: i32| ids.contains(j) && j < id ==> j <= k {
        assert(greatest_below(ids, id, k));
    } else {
        let j = choose|j: i32| ids.contains(j) && j < id && !(j <= k);
        lemma_some_greatest_below(ids, id, j);
    }
}

/// A set of ring positions with a member has a greatest member.
proof fn lemma_some_greatest(ids: Set<i32>, k: i32)
    requires
        ids.contains(k),
        forall|j: i32| ids.contains(j) ==> on_ring(j as int),
    ensures
        exists|g: i32| greatest_of(ids, g),
    decreases 1024 - k,
{
    if forall|j: i32| ids.contains(j) ==> j <= k {
        assert(greatest_of(ids, k));
    } else {
        let j = choose|j: i32| ids.contains(j) && !(j <= k);
        assert(on_ring(j as int) && on_ring(k as int));
        lemma_some_greatest(ids, j);
    }
}

/// Offers of a successor leave a node's id and predecessor alone.
pub proof fn lemma_offers_keep_identity(node: NodeState, offers: Seq<i32>)
    ensures
        after_offers(node, offers).id == node.id,
        after_offers(node, offers).predecessor == node.predecessor,
    decreases offers.len(),
{
    if offers.len() > 0 {
        lemma_offers_keep_identity(node, offers.drop_last());
    }
}

/// Maintenance settles after one round: whatever the node held before and
/// whoever was offered to it as successor, a round leaves it with the finger
/// table that its id and the known membership determine, and further rounds
/// change nothing.
pub proof fn lemma_maintenance_settles(
    node: NodeState,
    offers: Seq<i32>,
    known: Seq<i32>,
    rounds: nat,
)
    requires
        rounds >= 1,
    ensures
        after_rounds(node, offers, known, rounds) == node.after_fix(known),
        after_rounds(node, offers, known, rounds).fingers == fixed_fingers(node.id, known),
        after_rounds(node, offers, known, rounds).predecessor == node.predecessor,
    decreases rounds,
{
    let before = after_rounds(node, offers, known, (rounds - 1) as nat);
    if rounds > 1 {
        lemma_maintenance_settles(node, offers, known, (rounds - 1) as nat);
    }
    lemma_offers_keep_identity(before, offers);
}

/// What the closest known preceding id is, when there is one: an id of
/// `known` at a positive distance before the target.
pub proof fn lemma_closest_known_is_known(known: Seq<i32>, target: i32)
    ensures
        match closest_known_preceding(known, target) {
            Some(m) => known.contains(m) && spec_distance(m as int, target as int) > 0 && (forall|
                i: int,
            |
                0 <= i < known.len() && spec_distance(#[trigger] known[i] as int, target as int) > 0
                    ==> spec_distance(m as int, target as int) <= spec_distance(
                    known[i] as int,
                    target as int,
                )),
            None => forall|i: int|
                0 <= i < known.len() ==> spec_distance(#[trigger] known[i] as int, target as int)
                    == 0,
        },
    decreases known.len(),
{
    if known.len() > 0 {
        let head = known.drop_last();
        lemma_closest_known_is_known(head, target);
        let rest = closest_known_preceding(head, target);
        assert forall|i: int| 0 <= i < head.len() implies head[i] == known[i] by {}
        match rest {
            Some(b) => {
                assert(head.contains(b));
                let j = choose|j: int| 0 <= j < head.len() && head[j] == b;
                assert(known[j] == b);
            },
            None => {},
        }
        match closest_known_preceding(known, target) {
            Some(m) => {
                if m == known.last() && !(rest == Some(m)) {
                    assert(known[known.len() - 1] == m);
                }
                assert forall|i: int|
                    0 <= i < known.len() && spec_distance(
                        #[trigger] known[i] as int,
                        target as int,
                    ) > 0 implies spec_distance(m as int, target as int) <= spec_distance(
                    known[i] as int,
                    target as int,
                ) by {
                    if i < head.len() {
                        assert(head[i] == known[i]);
                    }
                }
            },
            None => {
                assert forall|i: int| 0 <= i < known.len() implies spec_distance(
                    #[trigger] known[i] as int,
                    target as int,
                ) == 0 by {
                    if i < head.len() {
                        assert(head[i] == known[i]);
                    }
                }
            },
        }
    }
}

/// A sole member converges on itself: when the node knows of no id but its
/// own, every maintenance round leaves it with itself as successor, and it
/// sends nothing while it has no predecessor but itself.
pub proof fn lemma_sole_member_converges(
    node: NodeState,
    offers: Seq<i32>,
    known: Seq<i32>,
    rounds: nat,
)
    requires
        rounds >= 1,
        forall|i: int| 0 <= i < known.len() ==> known[i] == node.id,
    ensures
        after_rounds(node, offers, known, rounds).successor() == Some(node.id),
        node.lonely() ==> after_rounds(node, offers, known, rounds).stabilize_out()
            == Seq::<Parcel>::empty(),
{
    lemma_maintenance_settles(node, offers, known, rounds);
    let target = spec_finger_target(node.id as int, 0nat) as i32;
    lemma_closest_known_is_known(known, target);
    assert(fixed_fingers(node.id, known).contains_key(0i32));
    assert(resolved_finger(node.id, known, 0i32) == node.id) by {
        match closest_known_preceding(known, target) {
            Some(m) => {
                let j = choose|j: int| 0 <= j < known.len() && known[j] == m;
                assert(known[j] == node.id);
            },
            None => {},
        }
    }
}

/// Knowing itself is enough for a node to take itself for its successor:
/// recomputing the fingers from a membership that lists the node's own id
/// fills slot 0 with that id, whoever else is listed.
pub proof fn lemma_listed_node_is_its_own_first_finger(node: NodeState, known: Seq<i32>)
    requires
        known.contains(node.id),
    ensures
        node.after_fix(known).successor() is Some,
        spec_distance(
            node.id as int,
            node.after_fix(known).successor()->0 as int,
        ) == 0,
{
    lemma_pow2_values();
    lemma_step_distance(node.id as int, 1);
    let target = spec_finger_target(node.id as int, 0nat) as i32;
    assert(spec_distance(node.id as int, target as int) == 1);
    lemma_closest_known_is_known(known, target);
    let j = choose|j: int| 0 <= j < known.len() && known[j] == node.id;
    assert(spec_distance(known[j] as int, target as int) == 1);
    assert(fixed_fingers(node.id, known).contains_key(0i32));
    match closest_known_preceding(known, target) {
        Some(m) => {
            assert(spec_distance(m as int, target as int) == 1);
        },
        None => {},
    }
}

/// Offers never leave a node with a successor farther away than an offered
/// one: after the offers the node has a successor, and it is at most as far
/// clockwise as any node that was offered.
pub proof fn lemma_offers_leave_the_closest(node: NodeState, offers: Seq<i32>, i: int)
    requires
        0 <= i < offers.len(),
        spec_distance(node.id as int, offers[i] as int) > 0,
    ensures
        after_offers(node, offers).successor() is Some,
        0 < spec_distance(node.id as int, after_offers(node, offers).successor()->0 as int)
            <= spec_distance(node.id as int, offers[i] as int),
    decreases offers.len(),
{
    let head = offers.drop_last();
    let before = after_offers(node, head);
    lemma_offers_keep_identity(node, head);
    if i < head.len() {
        assert(head[i] == offers[i]);
        lemma_offers_leave_the_closest(node, head, i);
    }
}

/// After offers a node's successor is the one it had or one that was offered.
pub proof fn lemma_offers_choose_among_the_offered(node: NodeState, offers: Seq<i32>)
    ensures
        after_offers(node, offers).successor() == node.successor() || (after_offers(
            node,
            offers,
        ).successor() is Some && offers.contains(after_offers(node, offers).successor()->0)),
    decreases offers.len(),
{
    if offers.len() > 0 {
        let head = offers.drop_last();
        lemma_offers_choose_among_the_offered(node, head);
        let before = after_offers(node, head);
        if before.successor() is Some && head.contains(before.successor()->0) {
            let j = choose|j: int| 0 <= j < head.len() && head[j] == before.successor()->0;
            assert(offers[j] == before.successor()->0);
        }
        assert(offers[offers.len() - 1] == offers.last());
    }
}

/// Stabilization finds the successor: a node that has recomputed its fingers
/// from a membership that lists it, and is then offered its true successor
/// `s` among others that are no closer, ends with a successor at the
/// position of `s`.
pub proof fn lemma_stabilization_finds_the_successor(
    node: NodeState,
    known: Seq<i32>,
    offers: Seq<i32>,
    s: i32,
)
    requires
        known.contains(node.id),
        offers.contains(s),
        spec_distance(node.id as int, s as int) > 0,
        forall|i: int|
            0 <= i < offers.len() ==> spec_distance(node.id as int, #[trigger] offers[i] as int)
                == 0 || spec_distance(node.id as int, offers[i] as int) >= spec_distance(
                node.id as int,
                s as int,
            ),
    ensures
        after_offers(node.after_fix(known), offers).successor() is Some,
        spec_distance(
            node.id as int,
            after_offers(node.after_fix(known), offers).successor()->0 as int,
        ) == spec_distance(node.id as int, s as int),
{
    let base = node.after_fix(known);
    lemma_listed_node_is_its_own_first_finger(node, known);
    let i = choose|i: int| 0 <= i < offers.len() && offers[i] == s;
    lemma_offers_leave_the_closest(base, offers, i);
    lemma_offers_choose_among_the_offered(base, offers);
    let got = after_offers(base, offers).successor()->0;
    if after_offers(base, offers).successor() == base.successor() {
        assert(spec_distance(base.id as int, got as int) == 0);
    } else {
        let j = choose|j: int| 0 <= j < offers.len() && offers[j] == got;
        assert(offers[j] == got);
    }
}

/// An offered successor never moves the successor pointer away: after the
/// offer the recorded successor is at most as far clockwise as it was.
pub proof fn lemma_offer_never_recedes(node: NodeState, s: i32)
    requires
        node.successor() is Some,
        spec_distance(node.id as int, node.successor()->0 as int) > 0,
    ensures
        node.adopt(s).successor() is Some,
        0 < spec_distance(node.id as int, node.adopt(s).successor()->0 as int) <= spec_distance(
            node.id as int,
            node.successor()->0 as int,
        ),
        node.adopt(s).adopt(s) == node.adopt(s),
{
    let once = node.adopt(s);
    assert(once.adopt(s).fingers =~= once.fingers);
}

/// A node's own position lies in the range from the node up to any of its
/// fingers.
proof fn lemma_own_position_in_every_range(node: NodeState, upto: int)
    requires
        upto <= 10,
    ensures
        node.owns_up_to(node.id, upto),
    decreases upto,
{
    if upto > 0 {
        lemma_own_position_in_every_range(node, upto - 1);
    }
}

/// A node is the owner of its own position, whatever its fingers and its
/// predecessor hold.
pub proof fn lemma_own_position_resolves_to_self(node: NodeState)
    ensures
        node.route(node.id) == LookupOutcome::Owner(node.id),
{
    lemma_own_position_in_every_range(node, 10);
}

/// A scan of the fingers yields the node itself or a finger strictly between
/// the node and the position.
proof fn lemma_scan_is_self_or_between(node: NodeState, pos: i32, upto: int)
    requires
        upto <= 10,
    ensures
        node.scan_preceding(pos, upto) == node.id || strictly_between(
            node.scan_preceding(pos, upto) as int,
            node.id as int,
            pos as int,
        ),
    decreases upto,
{
    if upto > 0 {
        lemma_scan_is_self_or_between(node, pos, upto - 1);
    }
}

/// Forwarding makes progress: the next hop is the node itself, which then
/// knows of nobody to forward to, or it is another node, strictly between the
/// forwarding node and the position, and so strictly closer to the position.
pub proof fn lemma_forward_makes_progress(node: NodeState, pos: i32)
    ensures
        match node.route(pos) {
            LookupOutcome::Owner(owner) => owner == node.id,
            LookupOutcome::Forward(next) => next == node.id || (strictly_between(
                next as int,
                node.id as int,
                pos as int,
            ) && spec_distance(next as int, pos as int) < spec_distance(
                node.id as int,
                pos as int,
            )),
        },
{
    lemma_scan_is_self_or_between(node, pos, 10);
}

/// A node without fingers owns every position.
pub proof fn lemma_node_without_fingers_owns_all(node: NodeState, pos: i32)
    requires
        node.fingers == Map::<i32, i32>::empty(),
    ensures
        node.route(pos) == LookupOutcome::Owner(node.id),
{
    reveal_with_fuel(NodeState::owns_up_to, 11);
}

/// Whether no peer names itself as next hop for `pos`.
pub open spec fn nobody_stuck(states: Seq<PeerState>, pos: i32) -> bool {
    forall|i: int|
        0 <= i < states.len() ==> (#[trigger] states[i]).node.route(pos) != LookupOutcome::Forward(
            states[i].node.id,
        )
}

/// Forwarding ends: where no peer is at a loss for a next hop, as many steps
/// as the clockwise distance from the start to the position, and so
/// `RING_SIZE - 1` steps from anywhere, are enough. The lookup names an owner
/// or meets a node that is not among the peers.
pub proof fn lemma_forwarding_ends(states: Seq<PeerState>, at: i32, pos: i32, hops: nat)
    requires
        nobody_stuck(states, pos),
        hops >= spec_distance(at as int, pos as int),
    ensures
        spec_resolve(states, at, pos, hops) != Err::<i32, DhtError>(DhtError::NotFound),
    decreases hops,
{
    match spec_index_of(states, at) {
        None => {},
        Some(i) => {
            lemma_index_names_the_id(states, at, 0);
            let node = states[i].node;
            lemma_forward_makes_progress(node, pos);
            match node.route(pos) {
                LookupOutcome::Owner(_) => {},
                LookupOutcome::Forward(next) => {
                    assert(next != at);
                    assert(hops > 0);
                    lemma_forwarding_ends(states, next, pos, (hops - 1) as nat);
                },
            }
        },
    }
}

/// The peer found for an id has that id.
proof fn lemma_index_names_the_id(states: Seq<PeerState>, id: i32, from: int)
    requires
        0 <= from,
    ensures
        match crate::overlay::first_with_id(states, id, from) {
            Some(i) => from <= i < states.len() && states[i].node.id == id,
            None => true,
        },
    decreases states.len() - from,
{
    if from < states.len() && states[from].node.id != id {
        lemma_index_names_the_id(states, id, from + 1);
    }
}

/// The owner that a lookup names is a peer that takes itself for the owner
/// of the position.
pub proof fn lemma_resolved_owner_claims_position(
    states: Seq<PeerState>,
    at: i32,
    pos: i32,
    hops: nat,
)
    ensures
        match spec_resolve(states, at, pos, hops) {
            Ok(owner) => spec_index_of(states, owner) is Some && states[spec_index_of(
                states,
                owner,
            )->0].node.owns(pos),
            Err(_) => true,
        },
    decreases hops,
{
    match spec_index_of(states, at) {
        None => {},
        Some(i) => {
            lemma_index_names_the_id(states, at, 0);
            let node = states[i].node;
            match node.route(pos) {
                LookupOutcome::Owner(_) => {},
                LookupOutcome::Forward(next) => {
                    if hops > 0 && next != at {
                        lemma_resolved_owner_claims_position(states, next, pos, (hops - 1) as nat);
                    }
                },
            }
        },
    }
}

/// Whether a peer takes itself for the owner of `pos` only if `pos` lies in
/// the range from that peer up to every peer.
pub open spec fn well_informed(states: Seq<PeerState>, pos: i32) -> bool {
    forall|i: int, j: int|
        0 <= i < states.len() && 0 <= j < states.len() && (#[trigger] states[i]).node.owns(pos)
            ==> spec_in_range(
            pos as int,
            states[i].node.id as int,
            (#[trigger] states[j]).node.id as int,
        )
}

/// Where the finger tables know enough, a lookup names the true owner: of
/// all peers, the owner named is the closest that precedes or matches the
/// position, for the position lies in the range from the owner up to every
/// peer.
pub proof fn lemma_resolution_names_the_true_owner(
    states: Seq<PeerState>,
    at: i32,
    pos: i32,
    hops: nat,
)
    requires
        well_informed(states, pos),
    ensures
        match spec_resolve(states, at, pos, hops) {
            Ok(owner) => forall|j: int|
                0 <= j < states.len() ==> spec_in_range(
                    pos as int,
                    owner as int,
                    (#[trigger] states[j]).node.id as int,
                ),
            Err(_) => true,
        },
{
    lemma_resolved_owner_claims_position(states, at, pos, hops);
    match spec_resolve(states, at, pos, hops) {
        Ok(owner) => {
            lemma_index_names_the_id(states, owner, 0);
            let o = spec_index_of(states, owner)->0;
            assert forall|j: int| 0 <= j < states.len() implies spec_in_range(
                pos as int,
                owner as int,
                (#[trigger] states[j]).node.id as int,
            ) by {
                assert(states[o].node.owns(pos));
            }
        },
        Err(_) => {},
    }
}

/// Whether `id` is the id of one of the peers.
pub open spec fn is_peer(states: Seq<PeerState>, id: i32) -> bool {
    exists|j: int| 0 <= j < states.len() && (#[trigger] states[j]).node.id == id
}

/// Whether the peer `s` follows `n` on the ring: no peer at another position
/// than `n` comes sooner clockwise.
pub open spec fn follows(states: Seq<PeerState>, n: i32, s: i32) -> bool {
    &&& is_peer(states, s)
    &&& forall|j: int|
        0 <= j < states.len() ==> spec_distance(n as int, (#[trigger] states[j]).node.id as int)
            == 0 || 0 < spec_distance(n as int, s as int) <= spec_distance(
            n as int,
            states[j].node.id as int,
        )
}

/// Whether every finger of `node` names a peer.
pub open spec fn fingers_name_peers(states: Seq<PeerState>, node: NodeState) -> bool {
    forall|slot: i32| #[trigger]
        node.fingers.contains_key(slot) ==> is_peer(states, node.fingers[slot])
}

/// Whether the successor pointers have converged: every peer records the
/// peer that follows it on the ring as successor, and its fingers name peers.
pub open spec fn successors_converged(states: Seq<PeerState>) -> bool {
    forall|i: int|
        0 <= i < states.len() ==> (#[trigger] states[i]).node.successor() is Some && follows(
            states,
            states[i].node.id,
            states[i].node.successor()->0,
        ) && fingers_name_peers(states, states[i].node)
}

/// An owner's position range ends before each of its fingers.
proof fn lemma_owner_respects_every_finger(node: NodeState, pos: i32, upto: int, slot: i32)
    requires
        node.owns_up_to(pos, upto),
        0 <= slot < upto <= 10,
        node.fingers.contains_key(slot),
    ensures
        spec_in_range(pos as int, node.id as int, node.fingers[slot] as int),
    decreases upto,
{
    if slot < upto - 1 {
        lemma_owner_respects_every_finger(node, pos, upto - 1, slot);
    }
}

/// A node that does not take itself for the owner has a finger that the
/// position does not come before.
proof fn lemma_non_owner_has_a_rival(node: NodeState, pos: i32, upto: int) -> (slot: i32)
    requires
        !node.owns_up_to(pos, upto),
        upto <= 10,
    ensures
        0 <= slot < upto,
        node.fingers.contains_key(slot),
        !spec_in_range(pos as int, node.id as int, node.fingers[slot] as int),
    decreases upto,
{
    let top = (upto - 1) as i32;
    if node.fingers.contains_key(top) && !spec_in_range(
        pos as int,
        node.id as int,
        node.fingers[top] as int,
    ) {
        top
    } else {
        lemma_non_owner_has_a_rival(node, pos, upto - 1)
    }
}

/// Where a finger lies strictly between the node and the position, the scan
/// yields such a finger.
proof fn lemma_scan_finds_a_finger(node: NodeState, pos: i32, upto: int, slot: i32) -> (found: i32)
    requires
        0 <= slot < upto <= 10,
        node.fingers.contains_key(slot),
        strictly_between(node.fingers[slot] as int, node.id as int, pos as int),
    ensures
        node.fingers.contains_key(found),
        node.fingers[found] == node.scan_preceding(pos, upto),
        strictly_between(node.scan_preceding(pos, upto) as int, node.id as int, pos as int),
    decreases upto,
{
    let top = (upto - 1) as i32;
    if node.fingers.contains_key(top) && strictly_between(
        node.fingers[top] as int,
        node.id as int,
        pos as int,
    ) {
        top
    } else {
        lemma_scan_finds_a_finger(node, pos, upto - 1, slot)
    }
}

/// A peer's id is found among the peers.
proof fn lemma_peer_is_found(states: Seq<PeerState>, id: i32, from: int, j: int)
    requires
        0 <= from <= j < states.len(),
        states[j].node.id == id,
    ensures
        crate::overlay::first_with_id(states, id, from) is Some,
    decreases states.len() - from,
{
    if states[from].node.id != id {
        lemma_peer_is_found(states, id, from + 1, j);
    }
}

/// With its successor in slot 0, a node that takes itself for the owner of a
/// position is the true owner: the position lies in the range from the node
/// up to every peer.
proof fn lemma_converged_owner_is_true_owner(states: Seq<PeerState>, node: NodeState, pos: i32)
    requires
        node.successor() is Some,
        follows(states, node.id, node.successor()->0),
        node.owns(pos),
    ensures
        forall|j: int|
            0 <= j < states.len() ==> spec_in_range(
                pos as int,
                node.id as int,
                (#[trigger] states[j]).node.id as int,
            ),
{
    let s = node.successor()->0;
    lemma_owner_respects_every_finger(node, pos, 10, 0i32);
    let ds = spec_distance(node.id as int, s as int);
    let dp = spec_distance(node.id as int, pos as int);
    assert(ds == 0 || dp < ds);
    assert forall|j: int| 0 <= j < states.len() implies spec_in_range(
        pos as int,
        node.id as int,
        (#[trigger] states[j]).node.id as int,
    ) by {
        let dj = spec_distance(node.id as int, states[j].node.id as int);
        assert(dj == 0 || 0 < ds <= dj);
    }
}

/// With its successor in slot 0 and fingers that name peers, a node that
/// does not take itself for the owner of a position on which no peer sits
/// forwards to another peer, strictly closer to the position.
proof fn lemma_converged_node_forwards(states: Seq<PeerState>, node: NodeState, pos: i32)
    requires
        node.successor() is Some,
        follows(states, node.id, node.successor()->0),
        fingers_name_peers(states, node),
        !node.owns(pos),
        forall|j: int|
            0 <= j < states.len() ==> spec_distance(
                (#[trigger] states[j]).node.id as int,
                pos as int,
            ) != 0,
    ensures
        node.route(pos) == LookupOutcome::Forward(node.closest_preceding(pos)),
        node.closest_preceding(pos) != node.id,
        is_peer(states, node.closest_preceding(pos)),
        0 < spec_distance(node.id as int, pos as int),
        spec_distance(node.closest_preceding(pos) as int, pos as int) < spec_distance(
            node.id as int,
            pos as int,
        ),
{
    let s = node.successor()->0;
    let rival = lemma_non_owner_has_a_rival(node, pos, 10);
    let f = node.fingers[rival];
    let ds = spec_distance(node.id as int, s as int);
    let dp = spec_distance(node.id as int, pos as int);
    let df = spec_distance(node.id as int, f as int);
    assert(df != 0 && dp >= df);
    assert(is_peer(states, f));
    let fj = choose|j: int| 0 <= j < states.len() && (#[trigger] states[j]).node.id == f;
    assert(spec_distance(node.id as int, states[fj].node.id as int) == df);
    assert(0 < ds <= df);
    let sj = choose|j: int| 0 <= j < states.len() && (#[trigger] states[j]).node.id == s;
    assert(spec_distance(states[sj].node.id as int, pos as int) != 0);
    assert(ds != dp) by {
        if ds == dp {
            lemma_same_distance_same_place(node.id as int, s as int, pos as int);
        }
    }
    assert(strictly_between(s as int, node.id as int, pos as int));
    let found = lemma_scan_finds_a_finger(node, pos, 10, 0i32);
    assert(is_peer(states, node.fingers[found]));
    lemma_forward_makes_progress(node, pos);
}

/// What a lookup step does once the successor pointers have converged: the
/// peer asked is the true owner, or it forwards to another peer, strictly
/// closer to the position.
proof fn lemma_converged_step(states: Seq<PeerState>, at: i32, pos: i32)
    requires
        successors_converged(states),
        is_peer(states, at),
        forall|j: int|
            0 <= j < states.len() && spec_distance(
                (#[trigger] states[j]).node.id as int,
                pos as int,
            ) == 0 ==> spec_distance(at as int, pos as int) == 0,
    ensures
        spec_index_of(states, at) is Some,
        0 <= spec_index_of(states, at)->0 < states.len(),
        match states[spec_index_of(states, at)->0].node.route(pos) {
            LookupOutcome::Owner(owner) => owner == at && forall|j: int|
                0 <= j < states.len() ==> spec_in_range(
                    pos as int,
                    at as int,
                    (#[trigger] states[j]).node.id as int,
                ),
            LookupOutcome::Forward(next) => next != at && is_peer(states, next) && 0
                < spec_distance(at as int, pos as int) && spec_distance(next as int, pos as int)
                < spec_distance(at as int, pos as int),
        },
{
    let w = choose|j: int| 0 <= j < states.len() && (#[trigger] states[j]).node.id == at;
    lemma_peer_is_found(states, at, 0, w);
    lemma_index_names_the_id(states, at, 0);
    let i = spec_index_of(states, at)->0;
    let node = states[i].node;
    assert(node.id == at);
    assert(node.successor() is Some && follows(states, node.id, node.successor()->0)
        && fingers_name_peers(states, node));
    if node.owns(pos) {
        lemma_converged_owner_is_true_owner(states, node, pos);
    } else {
        if spec_distance(at as int, pos as int) == 0 {
            lemma_owns_congruent_position(node, pos, 10);
        }
        lemma_converged_node_forwards(states, node, pos);
    }
}

/// Routing is correct once the successor pointers have converged: a lookup
/// that starts at a peer, with at least as many steps as the clockwise
/// distance to the position, names an owner, and the owner is the true one,
/// the closest peer that precedes or matches the position. A position on
/// which a peer other than the start sits is left out: the peer before it
/// knows of nobody strictly before the position to forward to.
pub proof fn lemma_routing_is_correct_after_convergence(
    states: Seq<PeerState>,
    at: i32,
    pos: i32,
    hops: nat,
)
    requires
        successors_converged(states),
        is_peer(states, at),
        hops >= spec_distance(at as int, pos as int),
        forall|j: int|
            0 <= j < states.len() && spec_distance(
                (#[trigger] states[j]).node.id as int,
                pos as int,
            ) == 0 ==> spec_distance(at as int, pos as int) == 0,
    ensures
        spec_resolve(states, at, pos, hops) is Ok,
        is_peer(states, spec_resolve(states, at, pos, hops)->Ok_0),
        forall|j: int|
            0 <= j < states.len() ==> spec_in_range(
                pos as int,
                spec_resolve(states, at, pos, hops)->Ok_0 as int,
                (#[trigger] states[j]).node.id as int,
            ),
    decreases hops,
{
    lemma_converged_step(states, at, pos);
    let i = spec_index_of(states, at)->0;
    match states[i].node.route(pos) {
        LookupOutcome::Owner(owner) => {},
        LookupOutcome::Forward(next) => {
            lemma_routing_is_correct_after_convergence(states, next, pos, (hops - 1) as nat);
        },
    }
}

/// A node takes itself for the owner of every position that coincides with
/// its own.
proof fn lemma_owns_congruent_position(node: NodeState, pos: i32, upto: int)
    requires
        upto <= 10,
        spec_distance(node.id as int, pos as int) == 0,
    ensures
        node.owns_up_to(pos, upto),
    decreases upto,
{
    if upto > 0 {
        lemma_owns_congruent_position(node, pos, upto - 1);
    }
}

/// Two positions at the same clockwise distance from a third coincide.
proof fn lemma_same_distance_same_place(from: int, a: int, b: int)
    requires
        spec_distance(from, a) == spec_distance(from, b),
    ensures
        spec_distance(a, b) == 0,
{
    let qa = (a - from) / 1024;
    let qb = (b - from) / 1024;
    vstd::arithmetic::div_mod::lemma_fundamental_div_mod(a - from, 1024);
    vstd::arithmetic::div_mod::lemma_fundamental_div_mod(b - from, 1024);
    assert(b - a == 1024 * (qb - qa) + 0);
    vstd::arithmetic::div_mod::lemma_mod_multiples_vanish(qb - qa, 0, 1024);
}

/// A position `step` places clockwise of `id` is at distance `step` from it.
proof fn lemma_step_distance(id: int, step: int)
    requires
        0 <= step < 1024,
    ensures
        spec_distance(id, (id + step) % 1024) == step,
{
    let t = (id + step) % 1024;
    let q = (id + step) / 1024;
    vstd::arithmetic::div_mod::lemma_fundamental_div_mod(id + step, 1024);
    assert(t - id == 1024 * (-q) + step);
    vstd::arithmetic::div_mod::lemma_mod_multiples_vanish(-q, step, 1024);
    vstd::arithmetic::div_mod::lemma_small_mod(step as nat, 1024);
}

/// Powers of two grow with the exponent.
proof fn lemma_pow2_grows(i: nat, j: nat)
    requires
        i <= j,
    ensures
        1 <= pow2(i) <= pow2(j),
    decreases j,
{
    if j == 0 {
    } else if i == j {
        lemma_pow2_grows(0, (j - 1) as nat);
    } else {
        lemma_pow2_grows(i, (j - 1) as nat);
    }
}

/// The finger slots reach ever farther: slot `i` aims at the position `2^i`
/// steps clockwise of the node, so a higher slot aims farther than a lower
/// one.
pub proof fn lemma_finger_targets_grow(id: i32, i: nat, j: nat)
    requires
        i <= j < 10,
    ensures
        spec_distance(id as int, spec_finger_target(id as int, i)) == pow2(i),
        spec_distance(id as int, spec_finger_target(id as int, i)) <= spec_distance(
            id as int,
            spec_finger_target(id as int, j),
        ),
{
    lemma_pow2_values();
    lemma_pow2_grows(i, j);
    lemma_pow2_grows(j, 9);
    lemma_step_distance(id as int, pow2(i) as int);
    lemma_step_distance(id as int, pow2(j) as int);
}

/// The notice of a join ends a node's solitude: a node without a predecessor
/// other than itself takes the node that joined for its predecessor, and so
/// is no longer its own.
pub proof fn lemma_join_notice_ends_solitude(node: NodeState, joined: i32)
    requires
        node.lonely(),
        spec_distance(node.id as int, joined as int) > 0,
    ensures
        node.after_notify_join(joined).predecessor == Some(joined),
        !node.after_notify_join(joined).lonely(),
        node.after_notify_join(joined).successor() is Some,
{
}

/// What is inserted is found again, and what is deleted is not: on the store
/// of the node that took the insert, a get for the key yields the value, and
/// after a delete it reports that nothing was found.
pub proof fn lemma_insert_get_round_trip(
    store: Map<i32, Stored>,
    key: i32,
    value: Seq<char>,
    node_id: i32,
)
    ensures
        spec_get(store.insert(key, Stored { value, node_id }), key) == Ok::<Seq<char>, DhtError>(
            value,
        ),
        spec_get(store.remove(key), key) == Err::<Seq<char>, DhtError>(DhtError::NotFound),
        spec_get(store.insert(key, Stored { value, node_id }).remove(key), key) == Err::<
            Seq<char>,
            DhtError,
        >(DhtError::NotFound),
{
}

/// Replication reaches the neighbours: an insert on a node with a recorded
/// successor and predecessor addresses a copy to each, and a neighbour that
/// receives its copy holds the value under the key.
pub proof fn lemma_replication_reaches_neighbours(
    node: NodeState,
    key: i32,
    value: Seq<char>,
    neighbour_store: Map<i32, Stored>,
    neighbour_id: i32,
)
    requires
        node.successor() is Some,
        node.predecessor is Some,
    ensures
        node.to_neighbours(Signal::ReplicateData { key, value }) == seq![
            Parcel { to: node.successor()->0, signal: Signal::ReplicateData { key, value } },
            Parcel { to: node.predecessor->0, signal: Signal::ReplicateData { key, value } },
        ],
        spec_get(
            stored_after_signal(
                neighbour_store,
                neighbour_id,
                Signal::ReplicateData { key, value },
            ),
            key,
        ) == Ok::<Seq<char>, DhtError>(value),
{
    assert(node.to_neighbours(Signal::ReplicateData { key, value }) =~= seq![
        Parcel { to: node.successor()->0, signal: Signal::ReplicateData { key, value } },
        Parcel { to: node.predecessor->0, signal: Signal::ReplicateData { key, value } },
    ]);
}

/// Whether the ids that `step` brings are ring positions.
pub open spec fn step_on_ring(step: Step) -> bool {
    match step {
        Step::Receive(Signal::NotifyJoin { new_node_id }) => on_ring(new_node_id as int),
        Step::Receive(Signal::UpdateSuccessor { new_successor_id }) => on_ring(
            new_successor_id as int,
        ),
        Step::Receive(_) => true,
        Step::Fix(known) => forall|i: int| 0 <= i < known.len() ==> on_ring(#[trigger] known[i] as int),
        Step::Join { candidate, .. } => match candidate {
            Some(p) => on_ring(p as int),
            None => true,
        },
    }
}

/// The protocol keeps a node on the ring: a step that brings ring positions
/// only leaves a valid node valid.
pub proof fn lemma_steps_keep_nodes_valid(node: NodeState, step: Step)
    requires
        node.valid(),
        step_on_ring(step),
    ensures
        after_step(node, step).valid(),
{
    match step {
        Step::Fix(known) => {
            let after = node.after_fix(known);
            assert forall|slot: i32| #[trigger] after.fingers.contains_key(slot) implies 0 <= slot
                < 10 && on_ring(after.fingers[slot] as int) by {
                let target = spec_finger_target(node.id as int, slot as nat) as i32;
                lemma_closest_known_is_known(known, target);
                match closest_known_preceding(known, target) {
                    Some(m) => {
                        let j = choose|j: int| 0 <= j < known.len() && known[j] == m;
                        assert(on_ring(known[j] as int));
                    },
                    None => {},
                }
            }
        },
        _ => {},
    }
}

/// A node that nobody joined has no predecessor: as long as the node does not
/// join and receives no notice of a join, its predecessor stays unset.
pub proof fn lemma_predecessor_unset_until_join(node: NodeState, steps: Seq<Step>)
    requires
        node.predecessor is None,
        forall|i: int| 0 <= i < steps.len() ==> !is_join_step(node.id, #[trigger] steps[i]),
    ensures
        after_steps(node, steps).predecessor is None,
        after_steps(node, steps).id == node.id,
    decreases steps.len(),
{
    if steps.len() > 0 {
        let head = steps.drop_last();
        assert forall|i: int| 0 <= i < head.len() implies !is_join_step(
            node.id,
            #[trigger] head[i],
        ) by {
            assert(head[i] == steps[i]);
        }
        lemma_predecessor_unset_until_join(node, head);
        assert(!is_join_step(node.id, steps[steps.len() - 1]));
    }
}

} // verus!
