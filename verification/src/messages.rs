//! The operations that a node is asked to perform and the messages that
//! nodes send to each other.

use crate::store::pairs_of;
use crate::store::KeyValue;
use crate::store::Pair;
use vstd::prelude::*;

verus! {

/// Asks a node to join the ring under `node_id`.
#[derive(Clone, Debug, PartialEq, Eq)]
pub struct JoinMessage {
    pub node_id: i32,
}

/// Asks a node to run one stabilization step.
#[derive(Clone, Debug, PartialEq, Eq)]
pub struct StabilizeMessage;

/// Asks a node to recompute its finger table from the directory.
#[derive(Clone, Debug, PartialEq, Eq)]
pub struct FixFingersMessage;

/// Asks a node to refresh its finger table.
#[derive(Clone, Debug, PartialEq, Eq)]
pub struct FingerTableUpdate;

/// Asks a node who owns `key`.
#[derive(Clone, Debug, PartialEq, Eq)]
pub struct LookupMessage {
    pub key: i32,
}

/// Tells a node that `new_node_id` has joined right behind it.
#[derive(Clone, Debug, PartialEq, Eq)]
pub struct NotifyJoin {
    pub new_node_id: i32,
}

/// Tells a node that `new_successor_id` considers itself its successor.
#[derive(Clone, Debug, PartialEq, Eq)]
pub struct UpdateSuccessor {
    pub new_successor_id: i32,
}

/// Asks a node to store `value` under `key`.
#[derive(Clone, Debug, PartialEq, Eq)]
pub struct InsertKeyValue {
    pub key: i32,
    pub value: String,
}

/// Asks a node for the value it stores under `key`.
#[derive(Clone, Debug, PartialEq, Eq)]
pub struct GetKeyValue {
    pub key: i32,
}

/// Asks a node to remove what it stores under `key`.
#[derive(Clone, Debug, PartialEq, Eq)]
pub struct DeleteKeyValue {
    pub key: i32,
}

/// Asks a node to probe its neighbours.
#[derive(Clone, Debug, PartialEq, Eq)]
pub struct HealthCheck;

/// A liveness probe.
#[derive(Clone, Debug, PartialEq, Eq)]
pub struct Heartbeat;

/// Hands a node a copy of a record to keep.
#[derive(Clone, Debug, PartialEq, Eq)]
pub struct ReplicateData {
    pub key: i32,
    pub value: String,
}

/// Hands a node a batch of records to keep.
#[derive(Clone, Debug, PartialEq, Eq)]
pub struct TransferData {
    pub data: Vec<KeyValue>,
}

/// A message from one node to another.
#[derive(Clone, Debug, PartialEq, Eq)]
pub enum PeerMessage {
    NotifyJoin(NotifyJoin),
    UpdateSuccessor(UpdateSuccessor),
    ReplicateData(ReplicateData),
    TransferData(TransferData),
    Heartbeat(Heartbeat),
}

/// A message with the node it is addressed to.
#[derive(Clone, Debug, PartialEq, Eq)]
pub struct Outbound {
    pub to: i32,
    pub message: PeerMessage,
}

/// A message between nodes as contracts see it.
pub enum Signal {
    NotifyJoin { new_node_id: i32 },
    UpdateSuccessor { new_successor_id: i32 },
    ReplicateData { key: i32, value: Seq<char> },
    TransferData { data: Seq<Pair> },
    Heartbeat,
}

/// An addressed message as contracts see it.
pub struct Parcel {
    pub to: i32,
    pub signal: Signal,
}

impl View for PeerMessage {
    type V = Signal;

    open spec fn view(&self) -> Signal {
        match *self {
            PeerMessage::NotifyJoin(m) => Signal::NotifyJoin { new_node_id: m.new_node_id },
            PeerMessage::UpdateSuccessor(m) => Signal::UpdateSuccessor {
                new_successor_id: m.new_successor_id,
            },
            PeerMessage::ReplicateData(m) => Signal::ReplicateData { key: m.key, value: m.value@ },
            PeerMessage::TransferData(m) => Signal::TransferData { data: pairs_of(m.data@) },
            PeerMessage::Heartbeat(_) => Signal::Heartbeat,
        }
    }
}

impl View for Outbound {
    type V = Parcel;

    open spec fn view(&self) -> Parcel {
        Parcel { to: self.to, signal: self.message@ }
    }
}

/// The addressed messages of `out`, in order, as contracts see them.
pub open spec fn parcels_of(out: Seq<Outbound>) -> Seq<Parcel> {
    out.map_values(|o: Outbound| o@)
}

} // verus!
