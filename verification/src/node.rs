//! A ring node: its identity, predecessor pointer and finger table, and the
//! protocol steps that read and change them.

use crate::directory::spec_ring_predecessor;
use crate::directory::spec_upsert;
use crate::directory::Member;
use crate::directory::NodeDirectory;
use crate::error::DhtError;
use crate::hashing::key_position;
use crate::hashing::spec_key_position;
use crate::messages::DeleteKeyValue;
use crate::messages::FingerTableUpdate;
use crate::messages::FixFingersMessage;
use crate::messages::GetKeyValue;
use crate::messages::HealthCheck;
use crate::messages::Heartbeat;
use crate::messages::InsertKeyValue;
use crate::messages::JoinMessage;
use crate::messages::LookupMessage;
use crate::messages::NotifyJoin;
use crate::messages::Outbound;
use crate::messages::Parcel;
use crate::messages::PeerMessage;
use crate::messages::ReplicateData;
use crate::messages::Signal;
use crate::messages::StabilizeMessage;
use crate::messages::TransferData;
use crate::messages::UpdateSuccessor;
use crate::messages::parcels_of;
use crate::ring::distance;
use crate::ring::on_ring;
use crate::ring::finger_target;
use crate::ring::in_range;
use crate::ring::spec_in_range;
use crate::ring::spec_distance;
use crate::ring::spec_finger_target;
use crate::ring::strictly_between;
use crate::ring::FINGER_COUNT;
use crate::store::pairs_of;
use crate::store::KeyValueStore;
use crate::store::Pair;
use crate::store::Stored;
use std::collections::HashMap;
use vstd::prelude::*;
use vstd::std_specs::hash::group_hash_axioms;

verus! {

broadcast use group_hash_axioms;

/// A ring node.
#[derive(Clone, Debug)]
pub struct Node {
    pub id: i32,
    pub address: String,
    pub port: i32,
    pub predecessor: Option<i32>,
    pub fingers: HashMap<i32, i32>,
}

/// The part of a node that the protocol reads and changes.
pub struct NodeState {
    pub id: i32,
    pub predecessor: Option<i32>,
    pub fingers: Map<i32, i32>,
}

/// What a lookup tells the caller.
#[derive(Clone, Copy, Debug, PartialEq, Eq, Structural)]
pub enum LookupOutcome {
    /// The node asked owns the position.
    Owner(i32),
    /// The node asked does not own the position; the named node is the next
    /// hop. A node that names itself knows of no node to forward to.
    Forward(i32),
}

impl NodeState {
    /// Whether the state fits the ring: the node's id and its predecessor
    /// are ring positions, and the finger table has slots `0` to
    /// `FINGER_COUNT - 1` only, each naming a ring position.
    pub open spec fn valid(self) -> bool {
        &&& on_ring(self.id as int)
        &&& match self.predecessor {
            Some(p) => on_ring(p as int),
            None => true,
        }
        &&& forall|slot: i32| #[trigger]
            self.fingers.contains_key(slot) ==> 0 <= slot < 10 && on_ring(self.fingers[slot] as int)
    }

    /// The recorded successor: finger slot 0, when it is filled.
    pub open spec fn successor(self) -> Option<i32> {
        if self.fingers.contains_key(0i32) {
            Some(self.fingers[0i32])
        } else {
            None
        }
    }

    /// Whether `s` is a better successor than the recorded one: `s` is
    /// another position, and no successor is recorded, or the recorded one is
    /// this node itself, or `s` comes sooner clockwise.
    pub open spec fn prefers(self, s: i32) -> bool {
        &&& spec_distance(self.id as int, s as int) > 0
        &&& match self.successor() {
            Some(cur) => spec_distance(self.id as int, cur as int) == 0 || spec_distance(
                self.id as int,
                s as int,
            ) < spec_distance(self.id as int, cur as int),
            None => true,
        }
    }

    /// The state after `s` was offered as successor.
    pub open spec fn adopt(self, s: i32) -> NodeState {
        if self.prefers(s) {
            NodeState { fingers: self.fingers.insert(0i32, s), ..self }
        } else {
            self
        }
    }

    /// Whether the node has no predecessor other than itself.
    pub open spec fn lonely(self) -> bool {
        match self.predecessor {
            Some(p) => p == self.id,
            None => true,
        }
    }

    /// The state after the node learned that `s` joined right behind it: `s`
    /// is offered as successor, and a node without another predecessor takes
    /// `s` for its predecessor.
    pub open spec fn after_notify_join(self, s: i32) -> NodeState {
        let adopted = self.adopt(s);
        if self.lonely() && spec_distance(self.id as int, s as int) > 0 {
            NodeState { predecessor: Some(s), ..adopted }
        } else {
            adopted
        }
    }

    /// The state after a join under `node_id` for which the directory named
    /// `candidate` as predecessor. A node that joins an empty ring becomes its
    /// own predecessor and successor. A join under another id leaves the node
    /// as it is.
    pub open spec fn after_join(self, node_id: i32, candidate: Option<i32>) -> NodeState {
        if node_id != self.id {
            self
        } else {
            match candidate {
                Some(p) => NodeState { predecessor: Some(p), ..self },
                None => NodeState {
                    predecessor: Some(self.id),
                    fingers: self.fingers.insert(0i32, self.id),
                    ..self
                },
            }
        }
    }

    /// The state after the finger table was recomputed from `known`.
    pub open spec fn after_fix(self, known: Seq<i32>) -> NodeState {
        NodeState { fingers: fixed_fingers(self.id, known), ..self }
    }

    /// What a stabilization step sends: the node's own id to its predecessor,
    /// unless it has none or is its own.
    pub open spec fn stabilize_out(self) -> Seq<Parcel> {
        match self.predecessor {
            Some(p) => if p == self.id {
                Seq::<Parcel>::empty()
            } else {
                seq![Parcel { to: p, signal: Signal::UpdateSuccessor { new_successor_id: self.id } }]
            },
            None => Seq::<Parcel>::empty(),
        }
    }

    /// The neighbours in the order in which they are written to: the
    /// successor, then the predecessor, each if recorded.
    pub open spec fn neighbours(self) -> Seq<i32> {
        let first = match self.successor() {
            Some(s) => seq![s],
            None => Seq::<i32>::empty(),
        };
        let second = match self.predecessor {
            Some(p) => seq![p],
            None => Seq::<i32>::empty(),
        };
        first + second
    }

    /// `signal` addressed to each neighbour in turn.
    pub open spec fn to_neighbours(self, signal: Signal) -> Seq<Parcel> {
        self.neighbours().map_values(|n: i32| Parcel { to: n, signal })
    }

    /// The ids that the node itself knows of: its predecessor, then what its
    /// finger slots below `upto` name, from the lowest slot up.
    pub open spec fn acquaintances(self, upto: int) -> Seq<i32>
        decreases upto,
    {
        if upto <= 0 {
            match self.predecessor {
                Some(p) => seq![p],
                None => Seq::<i32>::empty(),
            }
        } else {
            let below = self.acquaintances(upto - 1);
            let slot = (upto - 1) as i32;
            if self.fingers.contains_key(slot) {
                below.push(self.fingers[slot])
            } else {
                below
            }
        }
    }

    /// Whether the node is its own predecessor although `members` names
    /// another node.
    pub open spec fn estranged(self, members: Set<i32>) -> bool {
        self.predecessor == Some(self.id) && exists|k: i32| members.contains(k) && k != self.id
    }

    /// The state after `signal` was received.
    pub open spec fn after_signal(self, signal: Signal) -> NodeState {
        match signal {
            Signal::NotifyJoin { new_node_id } => self.after_notify_join(new_node_id),
            Signal::UpdateSuccessor { new_successor_id } => self.adopt(new_successor_id),
            _ => self,
        }
    }

    /// The finger found when the slots below `upto` are scanned downward for
    /// the first one that lies strictly between this node and `pos`; this
    /// node's id when there is none.
    pub open spec fn scan_preceding(self, pos: i32, upto: int) -> i32
        decreases upto,
    {
        if upto <= 0 {
            self.id
        } else {
            let slot = (upto - 1) as i32;
            if self.fingers.contains_key(slot) && strictly_between(
                self.fingers[slot] as int,
                self.id as int,
                pos as int,
            ) {
                self.fingers[slot]
            } else {
                self.scan_preceding(pos, upto - 1)
            }
        }
    }

    /// The closest preceding node for `pos`: the finger table is scanned from
    /// its highest slot downward.
    pub open spec fn closest_preceding(self, pos: i32) -> i32 {
        self.scan_preceding(pos, 10)
    }

    /// Whether `pos` lies in the range from this node up to the node that
    /// each filled finger slot below `upto` names.
    pub open spec fn owns_up_to(self, pos: i32, upto: int) -> bool
        decreases upto,
    {
        if upto <= 0 {
            true
        } else {
            let slot = (upto - 1) as i32;
            (self.fingers.contains_key(slot) ==> spec_in_range(
                pos as int,
                self.id as int,
                self.fingers[slot] as int,
            )) && self.owns_up_to(pos, upto - 1)
        }
    }

    /// Whether this node takes itself for the owner of `pos`: of the ids it
    /// knows, its own and those in its finger slots, its own is the closest
    /// that precedes or matches `pos`. That is, `pos` lies in the range from
    /// this node up to each of its fingers.
    pub open spec fn owns(self, pos: i32) -> bool {
        self.owns_up_to(pos, 10)
    }

    /// The routing decision for `pos`: the owner is the node itself, or the
    /// lookup goes on to the closest preceding node, which is the node itself
    /// when it knows a node at `pos` but none before it.
    pub open spec fn route(self, pos: i32) -> LookupOutcome {
        if self.owns(pos) {
            LookupOutcome::Owner(self.id)
        } else {
            LookupOutcome::Forward(self.closest_preceding(pos))
        }
    }
}

/// The closest known id that strictly precedes `target`: among the ids of
/// `known` at a positive clockwise distance before `target`, the one at the
/// least distance, and of several at that distance the first listed.
pub open spec fn closest_known_preceding(known: Seq<i32>, target: i32) -> Option<i32>
    decreases known.len(),
{
    if known.len() == 0 {
        None
    } else {
        let rest = closest_known_preceding(known.drop_last(), target);
        let last = known.last();
        let d = spec_distance(last as int, target as int);
        if d > 0 && match rest {
            Some(b) => d < spec_distance(b as int, target as int),
            None => true,
        } {
            Some(last)
        } else {
            rest
        }
    }
}

/// What finger slot `slot` of node `id` resolves to when `known` is what the
/// node knows of the membership: the closest known id strictly before the
/// slot's target, or `id` itself.
pub open spec fn resolved_finger(id: i32, known: Seq<i32>, slot: i32) -> i32 {
    match closest_known_preceding(known, spec_finger_target(id as int, slot as nat) as i32) {
        Some(m) => m,
        None => id,
    }
}

/// The finger table of node `id` recomputed from `known`: every slot filled.
pub open spec fn fixed_fingers(id: i32, known: Seq<i32>) -> Map<i32, i32> {
    Map::new(|slot: i32| 0 <= slot < 10, |slot: i32| resolved_finger(id, known, slot))
}

/// The store after each pair of `data`, in order, was stored under `node_id`.
pub open spec fn put_all(m: Map<i32, Stored>, data: Seq<Pair>, node_id: i32) -> Map<i32, Stored>
    decreases data.len(),
{
    if data.len() == 0 {
        m
    } else {
        put_all(m, data.drop_last(), node_id).insert(
            data.last().key,
            Stored { value: data.last().value, node_id },
        )
    }
}

/// The store of node `node_id` after it received `signal`.
pub open spec fn stored_after_signal(m: Map<i32, Stored>, node_id: i32, signal: Signal) -> Map<
    i32,
    Stored,
> {
    match signal {
        Signal::ReplicateData { key, value } => m.insert(key, Stored { value, node_id }),
        Signal::TransferData { data } => put_all(m, data, node_id),
        _ => m,
    }
}

/// What a get for `key` reports on a store that holds `m`: the value, or that
/// nothing was found.
pub open spec fn spec_get(m: Map<i32, Stored>, key: i32) -> Result<Seq<char>, DhtError> {
    if m.contains_key(key) {
        Ok(m[key].value)
    } else {
        Err(DhtError::NotFound)
    }
}

/// What a join under `node_id` sends when the directory named `candidate` as
/// predecessor: a notice to that predecessor.
pub open spec fn join_out(node_id: i32, candidate: Option<i32>) -> Seq<Parcel> {
    match candidate {
        Some(p) => seq![Parcel { to: p, signal: Signal::NotifyJoin { new_node_id: node_id } }],
        None => Seq::<Parcel>::empty(),
    }
}

/// Registers `node` in the directory with its address, port and predecessor.
/// A node whose id is already registered is refused.
pub fn insert_node(directory: &mut NodeDirectory, node: &Node) -> (outcome: Result<(), DhtError>)
    requires
        old(directory).wf(),
    ensures
        final(directory).wf(),
        match outcome {
            Ok(_) => !old(directory)@.contains_key(node.id) && final(directory)@ == old(
                directory,
            )@.insert(
                node.id,
                Member { address: node.address@, port: node.port, predecessor: node.predecessor },
            ) && final(directory).ids() == old(directory).ids().push(node.id),
            Err(e) => old(directory)@.contains_key(node.id) && e == DhtError::PersistenceFailure
                && final(directory)@ == old(directory)@ && final(directory).ids() == old(
                directory,
            ).ids(),
        },
{
    directory.insert(node.id, node.address.clone(), node.port, node.predecessor)
}

/// The closest id of `known` that strictly precedes `target`.
pub fn closest_known(known: &Vec<i32>, target: i32) -> (best: Option<i32>)
    ensures
        best == closest_known_preceding(known@, target),
{
    let mut best: Option<i32> = None;
    let mut best_d: i32 = 0;
    let mut i: usize = 0;
    while i < known.len()
        invariant
            i <= known@.len(),
            best == closest_known_preceding(known@.take(i as int), target),
            best is Some ==> best_d == spec_distance(best->0 as int, target as int),
        decreases known@.len() - i,
    {
        let d: i32 = distance(known[i], target);
        assert(known@.take(i + 1).drop_last() =~= known@.take(i as int));
        let closer = match best {
            Some(_) => d < best_d,
            None => true,
        };
        if d > 0 && closer {
            best = Some(known[i]);
            best_d = d;
        }
        i = i + 1;
    }
    assert(known@.take(i as int) =~= known@);
    best
}

impl View for Node {
    type V = NodeState;

    open spec fn view(&self) -> NodeState {
        NodeState { id: self.id, predecessor: self.predecessor, fingers: self.fingers@ }
    }
}

impl Node {
    /// A node that has not joined: no predecessor, no fingers.
    pub fn new(id: i32, address: String, port: i32) -> (node: Node)
        ensures
            node.id == id,
            node.address@ == address@,
            node.port == port,
            node.predecessor is None,
            node.fingers@ == Map::<i32, i32>::empty(),
            on_ring(id as int) ==> node@.valid(),
    {
        Node { id, address, port, predecessor: None, fingers: HashMap::new() }
    }

    /// The recorded successor, if there is one.
    pub fn successor(&self) -> (s: Option<i32>)
        ensures
            s == self@.successor(),
    {
        let slot: i32 = 0;
        match self.fingers.get(&slot) {
            Some(f) => Some(*f),
            None => None,
        }
    }

    /// The closest preceding node for position `id`: the first finger, from
    /// the highest slot downward, that lies strictly between this node and
    /// `id`; this node itself when there is none.
    pub fn closest_preceding_node(&self, id: i32) -> (hop: i32)
        ensures
            hop == self@.closest_preceding(id),
    {
        let span: i32 = distance(self.id, id);
        let mut upto: i32 = FINGER_COUNT;
        while upto > 0
            invariant
                0 <= upto <= 10,
                span == spec_distance(self.id as int, id as int),
                self@.closest_preceding(id) == self@.scan_preceding(id, upto as int),
            decreases upto,
        {
            let slot: i32 = upto - 1;
            match self.fingers.get(&slot) {
                Some(f) => {
                    let d: i32 = distance(self.id, *f);
                    if 0 < d && d < span {
                        return *f;
                    }
                },
                None => {},
            }
            upto = slot;
        }
        self.id
    }

    /// Offers `s` as successor: it is taken when it is better than the
    /// recorded one.
    fn offer_successor(&mut self, s: i32)
        ensures
            final(self)@ == old(self)@.adopt(s),
            final(self).address == old(self).address,
            final(self).port == old(self).port,
    {
        let d: i32 = distance(self.id, s);
        if d > 0 {
            let better = match self.successor() {
                Some(cur) => {
                    let dc: i32 = distance(self.id, cur);
                    dc == 0 || d < dc
                },
                None => true,
            };
            if better {
                self.fingers.insert(0, s);
            }
        }
    }

    /// Handles the notice that `msg.new_node_id` joined right behind this
    /// node.
    pub fn notify_join(&mut self, msg: NotifyJoin)
        ensures
            final(self)@ == old(self)@.after_notify_join(msg.new_node_id),
            final(self).address == old(self).address,
            final(self).port == old(self).port,
    {
        let lonely = match self.predecessor {
            Some(p) => p == self.id,
            None => true,
        };
        self.offer_successor(msg.new_node_id);
        if lonely && distance(self.id, msg.new_node_id) > 0 {
            self.predecessor = Some(msg.new_node_id);
        }
    }

    /// Handles a node's claim to be this node's successor: the successor
    /// pointer moves only to a node that comes sooner clockwise.
    pub fn update_successor(&mut self, msg: UpdateSuccessor)
        ensures
            final(self)@ == old(self)@.adopt(msg.new_successor_id),
            final(self).address == old(self).address,
            final(self).port == old(self).port,
    {
        self.offer_successor(msg.new_successor_id);
    }

    /// Joins the ring under `msg.node_id`: the directory names the ring
    /// predecessor, the record for `msg.node_id` is upserted with it and with
    /// this node's address and port, and the predecessor, if any, is sent a
    /// notice.
    pub fn join(&mut self, msg: JoinMessage, directory: &mut NodeDirectory) -> (out: Vec<Outbound>)
        requires
            old(directory).wf(),
        ensures
            final(directory).wf(),
            final(directory)@ == spec_upsert(
                old(directory)@,
                msg.node_id,
                Member {
                    address: old(self).address@,
                    port: old(self).port,
                    predecessor: spec_ring_predecessor(old(directory)@.dom(), msg.node_id),
                },
            ),
            final(self)@ == old(self)@.after_join(
                msg.node_id,
                spec_ring_predecessor(old(directory)@.dom(), msg.node_id),
            ),
            parcels_of(out@) == join_out(
                msg.node_id,
                spec_ring_predecessor(old(directory)@.dom(), msg.node_id),
            ),
            final(self).address == old(self).address,
            final(self).port == old(self).port,
    {
        let candidate = directory.ring_predecessor(msg.node_id);
        directory.upsert(msg.node_id, self.address.clone(), self.port, candidate);
        let mut out: Vec<Outbound> = Vec::new();
        match candidate {
            Some(p) => {
                if msg.node_id == self.id {
                    self.predecessor = Some(p);
                }
                out.push(
                    Outbound {
                        to: p,
                        message: PeerMessage::NotifyJoin(NotifyJoin { new_node_id: msg.node_id }),
                    },
                );
            },
            None => {
                if msg.node_id == self.id {
                    self.predecessor = Some(self.id);
                    self.fingers.insert(0, self.id);
                }
            },
        }
        assert(parcels_of(out@) =~= join_out(msg.node_id, candidate));
        out
    }

    /// One stabilization step: the node asks its predecessor to confirm it as
    /// successor. The node itself does not change.
    pub fn stabilize(&self, msg: StabilizeMessage) -> (out: Vec<Outbound>)
        ensures
            parcels_of(out@) == self@.stabilize_out(),
    {
        let mut out: Vec<Outbound> = Vec::new();
        match self.predecessor {
            Some(p) => {
                if p != self.id {
                    out.push(
                        Outbound {
                            to: p,
                            message: PeerMessage::UpdateSuccessor(
                                UpdateSuccessor { new_successor_id: self.id },
                            ),
                        },
                    );
                }
            },
            None => {},
        }
        assert(parcels_of(out@) =~= self@.stabilize_out());
        out
    }

    /// Recomputes every finger slot from `known`, the ids that the node knows
    /// of: slot `i` becomes the closest known id strictly before
    /// `(id + 2^i) mod RING_SIZE`, or the node's own id.
    pub fn update_finger_table(&mut self, known: &Vec<i32>)
        ensures
            final(self)@ == old(self)@.after_fix(known@),
            final(self).address == old(self).address,
            final(self).port == old(self).port,
    {
        let mut table: HashMap<i32, i32> = HashMap::new();
        let mut slot: i32 = 0;
        while slot < FINGER_COUNT
            invariant
                0 <= slot <= 10,
                table@ == Map::new(
                    |k: i32| 0 <= k < slot,
                    |k: i32| resolved_finger(self.id, known@, k),
                ),
            decreases 10 - slot,
        {
            let target: i32 = finger_target(self.id, slot);
            let resolved: i32 = match closest_known(known, target) {
                Some(m) => m,
                None => self.id,
            };
            table.insert(slot, resolved);
            slot = slot + 1;
            assert(table@ =~= Map::new(
                |k: i32| 0 <= k < slot,
                |k: i32| resolved_finger(self.id, known@, k),
            ));
        }
        assert(table@ =~= fixed_fingers(self.id, known@));
        self.fingers = table;
    }

    /// Recomputes the finger table from the members that the directory lists.
    pub fn fix_fingers(&mut self, msg: FixFingersMessage, directory: &NodeDirectory)
        requires
            directory.wf(),
        ensures
            final(self)@ == old(self)@.after_fix(directory.ids()),
            final(self).address == old(self).address,
            final(self).port == old(self).port,
    {
        let known = directory.member_ids();
        self.update_finger_table(&known);
    }

    /// Refreshes the finger table from what the node itself knows: the nodes
    /// that its predecessor pointer and its finger slots name, slots from the
    /// lowest up.
    pub fn refresh_fingers(&mut self, msg: FingerTableUpdate)
        ensures
            final(self)@ == old(self)@.after_fix(old(self)@.acquaintances(10)),
            final(self).address == old(self).address,
            final(self).port == old(self).port,
    {
        let mut known: Vec<i32> = Vec::new();
        match self.predecessor {
            Some(p) => {
                known.push(p);
            },
            None => {},
        }
        let mut slot: i32 = 0;
        while slot < FINGER_COUNT
            invariant
                0 <= slot <= 10,
                known@ == self@.acquaintances(slot as int),
            decreases 10 - slot,
        {
            match self.fingers.get(&slot) {
                Some(f) => {
                    known.push(*f);
                },
                None => {},
            }
            slot = slot + 1;
        }
        self.update_finger_table(&known);
    }

    /// Addresses `signal` to each neighbour: the successor, then the
    /// predecessor, each if recorded.
    fn neighbour_ids(&self) -> (ids: Vec<i32>)
        ensures
            ids@ == self@.neighbours(),
    {
        let mut ids: Vec<i32> = Vec::new();
        match self.successor() {
            Some(s) => {
                ids.push(s);
            },
            None => {},
        }
        match self.predecessor {
            Some(p) => {
                ids.push(p);
            },
            None => {},
        }
        assert(ids@ =~= self@.neighbours());
        ids
    }

    /// Stores the pair of `msg` under this node's id and sends a copy to the
    /// successor and to the predecessor, each if recorded.
    pub fn insert(&self, msg: InsertKeyValue, store: &mut KeyValueStore) -> (out: Vec<Outbound>)
        requires
            old(store).wf(),
        ensures
            final(store).wf(),
            final(store)@ == old(store)@.insert(
                msg.key,
                Stored { value: msg.value@, node_id: self.id },
            ),
            parcels_of(out@) == self@.to_neighbours(
                Signal::ReplicateData { key: msg.key, value: msg.value@ },
            ),
    {
        let ids = self.neighbour_ids();
        let mut out: Vec<Outbound> = Vec::new();
        let mut i: usize = 0;
        while i < ids.len()
            invariant
                i <= ids@.len(),
                out@.len() == i,
                forall|j: int|
                    0 <= j < i ==> (#[trigger] out@[j])@ == (Parcel {
                        to: ids@[j],
                        signal: Signal::ReplicateData { key: msg.key, value: msg.value@ },
                    }),
            decreases ids@.len() - i,
        {
            out.push(
                Outbound {
                    to: ids[i],
                    message: PeerMessage::ReplicateData(
                        ReplicateData { key: msg.key, value: msg.value.clone() },
                    ),
                },
            );
            i = i + 1;
        }
        assert(parcels_of(out@) =~= self@.to_neighbours(
            Signal::ReplicateData { key: msg.key, value: msg.value@ },
        ));
        store.put(msg.key, msg.value, self.id);
        out
    }

    /// The value that this node stores under the key of `msg`. Only the local
    /// store is read.
    pub fn get(&self, msg: GetKeyValue, store: &KeyValueStore) -> (value: Result<String, DhtError>)
        requires
            store.wf(),
        ensures
            match value {
                Ok(v) => spec_get(store@, msg.key) == Ok::<Seq<char>, DhtError>(v@),
                Err(e) => spec_get(store@, msg.key) == Err::<Seq<char>, DhtError>(e),
            },
    {
        match store.get(msg.key) {
            Some(v) => Ok(v),
            None => Err(DhtError::NotFound),
        }
    }

    /// Removes what this node stores under the key of `msg`. Nothing is sent
    /// to other nodes.
    pub fn delete(&self, msg: DeleteKeyValue, store: &mut KeyValueStore)
        requires
            old(store).wf(),
        ensures
            final(store).wf(),
            final(store)@ == old(store)@.remove(msg.key),
    {
        store.delete(msg.key);
    }

    /// Keeps a copy of the pair of `msg` under this node's id.
    pub fn replicate(&self, msg: ReplicateData, store: &mut KeyValueStore)
        requires
            old(store).wf(),
        ensures
            final(store).wf(),
            final(store)@ == old(store)@.insert(
                msg.key,
                Stored { value: msg.value@, node_id: self.id },
            ),
    {
        store.put(msg.key, msg.value, self.id);
    }

    /// Keeps every pair of `msg` under this node's id, in the order given.
    pub fn transfer(&self, msg: TransferData, store: &mut KeyValueStore)
        requires
            old(store).wf(),
        ensures
            final(store).wf(),
            final(store)@ == put_all(old(store)@, pairs_of(msg.data@), self.id),
    {
        let ghost pairs = pairs_of(msg.data@);
        let mut i: usize = 0;
        while i < msg.data.len()
            invariant
                store.wf(),
                i <= msg.data@.len(),
                pairs == pairs_of(msg.data@),
                store@ == put_all(old(store)@, pairs.take(i as int), self.id),
            decreases msg.data@.len() - i,
        {
            assert(pairs.take(i + 1).drop_last() =~= pairs.take(i as int));
            store.put(msg.data[i].key, msg.data[i].value.clone(), self.id);
            i = i + 1;
        }
        assert(pairs.take(i as int) =~= pairs);
    }

    /// Probes the neighbours: a heartbeat goes to the successor and to the
    /// predecessor, each if recorded.
    pub fn health_check(&self, msg: HealthCheck) -> (out: Vec<Outbound>)
        ensures
            parcels_of(out@) == self@.to_neighbours(Signal::Heartbeat),
    {
        let ids = self.neighbour_ids();
        let mut out: Vec<Outbound> = Vec::new();
        let mut i: usize = 0;
        while i < ids.len()
            invariant
                i <= ids@.len(),
                out@.len() == i,
                forall|j: int|
                    0 <= j < i ==> (#[trigger] out@[j])@ == (Parcel {
                        to: ids@[j],
                        signal: Signal::Heartbeat,
                    }),
            decreases ids@.len() - i,
        {
            out.push(Outbound { to: ids[i], message: PeerMessage::Heartbeat(Heartbeat) });
            i = i + 1;
        }
        assert(parcels_of(out@) =~= self@.to_neighbours(Signal::Heartbeat));
        out
    }

    /// Handles a message from another node.
    pub fn receive(&mut self, message: PeerMessage, store: &mut KeyValueStore)
        requires
            old(store).wf(),
        ensures
            final(store).wf(),
            final(self)@ == old(self)@.after_signal(message@),
            final(store)@ == stored_after_signal(old(store)@, old(self).id, message@),
            final(self).address == old(self).address,
            final(self).port == old(self).port,
    {
        match message {
            PeerMessage::NotifyJoin(m) => self.notify_join(m),
            PeerMessage::UpdateSuccessor(m) => self.update_successor(m),
            PeerMessage::ReplicateData(m) => self.replicate(m, store),
            PeerMessage::TransferData(m) => self.transfer(m, store),
            PeerMessage::Heartbeat(_) => {},
        }
    }

    /// Checks the node against the directory: a node that is its own
    /// predecessor while another member is registered violates the ring's
    /// rules.
    pub fn audit(&self, directory: &NodeDirectory) -> (verdict: Result<(), DhtError>)
        requires
            directory.wf(),
        ensures
            match verdict {
                Ok(_) => !self@.estranged(directory@.dom()),
                Err(e) => self@.estranged(directory@.dom()) && e == DhtError::InvariantViolation,
            },
    {
        match self.predecessor {
            Some(p) => {
                if p != self.id {
                    return Ok(());
                }
            },
            None => {
                return Ok(());
            },
        }
        let ids = directory.member_ids();
        let mut i: usize = 0;
        while i < ids.len()
            invariant
                i <= ids@.len(),
                self.predecessor == Some(self.id),
                ids@.to_set() == directory@.dom(),
                forall|j: int| 0 <= j < i ==> ids@[j] == self.id,
            decreases ids@.len() - i,
        {
            if ids[i] != self.id {
                assert(ids@.to_set().contains(ids@[i as int]));
                assert(directory@.dom().contains(ids@[i as int]));
                return Err(DhtError::InvariantViolation);
            }
            i = i + 1;
        }
        assert forall|k: i32| directory@.dom().contains(k) implies k == self.id by {
            assert(ids@.to_set().contains(k));
            let j = choose|j: int| 0 <= j < ids@.len() && ids@[j] == k;
            assert(ids@[j] == self.id);
        }
        Ok(())
    }

    /// Whether this node takes itself for the owner of position `pos`: `pos`
    /// lies in the range from this node up to each of its fingers.
    pub fn owns(&self, pos: i32) -> (mine: bool)
        ensures
            mine == self@.owns(pos),
    {
        let mut upto: i32 = FINGER_COUNT;
        while upto > 0
            invariant
                0 <= upto <= 10,
                self@.owns(pos) == self@.owns_up_to(pos, upto as int),
            decreases upto,
        {
            let slot: i32 = upto - 1;
            match self.fingers.get(&slot) {
                Some(f) => {
                    if !in_range(pos, self.id, *f) {
                        return false;
                    }
                },
                None => {},
            }
            upto = slot;
        }
        true
    }

    /// The routing decision for ring position `pos`.
    pub fn route(&self, pos: i32) -> (outcome: LookupOutcome)
        ensures
            outcome == self@.route(pos),
    {
        if self.owns(pos) {
            LookupOutcome::Owner(self.id)
        } else {
            LookupOutcome::Forward(self.closest_preceding_node(pos))
        }
    }

    /// Who owns the key of `msg`, as far as this node can tell: the key is
    /// hashed to its ring position, and the position is routed.
    pub fn lookup(&self, msg: LookupMessage) -> (outcome: LookupOutcome)
        ensures
            outcome == self@.route(spec_key_position(msg.key as int) as i32),
    {
        self.route(key_position(msg.key))
    }
}

} // verus!
