use chord_dht::directory::NodeDirectory;
use chord_dht::error::DhtError;
use chord_dht::hashing::key_position;
use chord_dht::messages::DeleteKeyValue;
use chord_dht::messages::FingerTableUpdate;
use chord_dht::messages::FixFingersMessage;
use chord_dht::messages::GetKeyValue;
use chord_dht::messages::HealthCheck;
use chord_dht::messages::Heartbeat;
use chord_dht::messages::InsertKeyValue;
use chord_dht::messages::JoinMessage;
use chord_dht::messages::LookupMessage;
use chord_dht::messages::NotifyJoin;
use chord_dht::messages::Outbound;
use chord_dht::messages::PeerMessage;
use chord_dht::messages::ReplicateData;
use chord_dht::messages::StabilizeMessage;
use chord_dht::messages::TransferData;
use chord_dht::messages::UpdateSuccessor;
use chord_dht::node::closest_known;
use chord_dht::node::insert_node;
use chord_dht::node::LookupOutcome;
use chord_dht::node::Node;
use chord_dht::store::KeyValue;
use chord_dht::store::KeyValueStore;
use std::collections::HashMap;

fn node(id: i32) -> Node {
    Node::new(id, "127.0.0.1".to_string(), 5079 + id)
}

fn fingers_of(pairs: &[(i32, i32)]) -> HashMap<i32, i32> {
    let mut fingers = HashMap::new();
    for (slot, id) in pairs {
        fingers.insert(*slot, *id);
    }
    fingers
}

#[test]
fn a_new_node_has_no_predecessor_and_no_fingers() {
    let n = Node::new(1, "127.0.0.1".to_string(), 5080);
    assert_eq!(n.id, 1);
    assert_eq!(n.address, "127.0.0.1");
    assert_eq!(n.port, 5080);
    assert_eq!(n.predecessor, None);
    assert!(n.fingers.is_empty());
    assert_eq!(n.successor(), None);
}

#[test]
fn a_lone_node_keeps_no_predecessor_until_a_join() {
    let mut n = node(1);
    let mut store = KeyValueStore::new();
    let directory = NodeDirectory::new();
    n.stabilize(StabilizeMessage);
    n.fix_fingers(FixFingersMessage, &directory);
    n.refresh_fingers(FingerTableUpdate);
    n.update_successor(UpdateSuccessor { new_successor_id: 9 });
    n.insert(InsertKeyValue { key: 1, value: "a".to_string() }, &mut store);
    n.receive(PeerMessage::Heartbeat(Heartbeat), &mut store);
    n.receive(PeerMessage::ReplicateData(ReplicateData { key: 2, value: "b".to_string() }), &mut store);
    n.health_check(HealthCheck);
    n.lookup(LookupMessage { key: 1 });
    assert_eq!(n.predecessor, None);
    n.notify_join(NotifyJoin { new_node_id: 2 });
    assert_eq!(n.predecessor, Some(2));
}

#[test]
fn joining_an_empty_ring_makes_the_node_its_own_neighbour() {
    let mut n = node(1);
    let mut directory = NodeDirectory::new();
    let out = n.join(JoinMessage { node_id: 1 }, &mut directory);
    assert!(out.is_empty());
    assert_eq!(n.predecessor, Some(1));
    assert_eq!(n.successor(), Some(1));
    assert_eq!(directory.member_ids(), vec![1]);
    assert_eq!(directory.predecessor_of(1), Some(None));
    let rows = directory.list_all();
    assert_eq!(rows[0].address, "127.0.0.1");
    assert_eq!(rows[0].port, 5080);
}

#[test]
fn join_scenario_of_a_ring_of_two() {
    let mut directory = NodeDirectory::new();
    let mut store1 = KeyValueStore::new();
    let mut store2 = KeyValueStore::new();
    let mut n1 = node(1);
    let mut n2 = node(2);
    n1.join(JoinMessage { node_id: 1 }, &mut directory);

    let out = n2.join(JoinMessage { node_id: 2 }, &mut directory);
    assert_eq!(
        out,
        vec![Outbound { to: 1, message: PeerMessage::NotifyJoin(NotifyJoin { new_node_id: 2 }) }]
    );
    assert_eq!(directory.predecessor_of(2), Some(Some(1)));
    assert_eq!(n2.predecessor, Some(1));
    for parcel in out {
        n1.receive(parcel.message, &mut store1);
    }
    assert_eq!(n1.successor(), Some(2));
    assert_eq!(n1.predecessor, Some(2));

    let out = n1.stabilize(StabilizeMessage);
    assert_eq!(
        out,
        vec![Outbound {
            to: 2,
            message: PeerMessage::UpdateSuccessor(UpdateSuccessor { new_successor_id: 1 }),
        }]
    );
    for parcel in out {
        n2.receive(parcel.message, &mut store2);
    }
    assert_eq!(n2.predecessor, Some(1));
    assert_eq!(n2.successor(), Some(1));
    assert_eq!(n1.successor(), Some(2));
    assert_eq!(directory.predecessor_of(2), Some(Some(1)));
    assert_eq!(directory.predecessor_of(1), Some(None));
}

#[test]
fn join_below_every_member_wraps_around() {
    let mut directory = NodeDirectory::new();
    let mut n5 = node(5);
    let mut n9 = node(9);
    let mut n2 = node(2);
    n5.join(JoinMessage { node_id: 5 }, &mut directory);
    n9.join(JoinMessage { node_id: 9 }, &mut directory);
    let out = n2.join(JoinMessage { node_id: 2 }, &mut directory);
    assert_eq!(
        out,
        vec![Outbound { to: 9, message: PeerMessage::NotifyJoin(NotifyJoin { new_node_id: 2 }) }]
    );
    assert_eq!(n2.predecessor, Some(9));
    assert_eq!(directory.predecessor_of(2), Some(Some(9)));
    assert_eq!(directory.predecessor_of(9), Some(Some(5)));
}

#[test]
fn joining_again_keeps_the_record_and_renews_the_predecessor() {
    let mut directory = NodeDirectory::new();
    let mut n5 = node(5);
    let mut n9 = node(9);
    n5.join(JoinMessage { node_id: 5 }, &mut directory);
    n9.join(JoinMessage { node_id: 9 }, &mut directory);
    let out = n5.join(JoinMessage { node_id: 5 }, &mut directory);
    assert_eq!(
        out,
        vec![Outbound { to: 9, message: PeerMessage::NotifyJoin(NotifyJoin { new_node_id: 5 }) }]
    );
    assert_eq!(n5.predecessor, Some(9));
    assert_eq!(directory.predecessor_of(5), Some(Some(9)));
    assert_eq!(directory.len(), 2);
}

#[test]
fn a_join_under_another_id_leaves_the_node_alone() {
    let mut directory = NodeDirectory::new();
    let mut n1 = node(1);
    n1.join(JoinMessage { node_id: 1 }, &mut directory);
    let before = n1.clone();
    let out = n1.join(JoinMessage { node_id: 4 }, &mut directory);
    assert_eq!(
        out,
        vec![Outbound { to: 1, message: PeerMessage::NotifyJoin(NotifyJoin { new_node_id: 4 }) }]
    );
    assert_eq!(n1.predecessor, before.predecessor);
    assert_eq!(n1.fingers, before.fingers);
    assert_eq!(directory.predecessor_of(4), Some(Some(1)));
    let rows = directory.list_all();
    assert_eq!(rows[1].address, "127.0.0.1");
    assert_eq!(rows[1].port, 5080);
}

#[test]
fn the_successor_pointer_moves_only_to_a_closer_node() {
    let mut n = node(10);
    n.update_successor(UpdateSuccessor { new_successor_id: 50 });
    assert_eq!(n.successor(), Some(50));
    n.update_successor(UpdateSuccessor { new_successor_id: 70 });
    assert_eq!(n.successor(), Some(50));
    n.update_successor(UpdateSuccessor { new_successor_id: 5 });
    assert_eq!(n.successor(), Some(50));
    n.update_successor(UpdateSuccessor { new_successor_id: 20 });
    assert_eq!(n.successor(), Some(20));
    n.update_successor(UpdateSuccessor { new_successor_id: 10 });
    assert_eq!(n.successor(), Some(20));
    n.update_successor(UpdateSuccessor { new_successor_id: 20 });
    assert_eq!(n.successor(), Some(20));
    assert_eq!(n.predecessor, None);
}

#[test]
fn a_node_that_is_its_own_successor_takes_any_other() {
    let mut n = node(10);
    n.fingers = fingers_of(&[(0, 10)]);
    n.update_successor(UpdateSuccessor { new_successor_id: 5 });
    assert_eq!(n.successor(), Some(5));
}

#[test]
fn a_join_notice_leaves_a_known_predecessor_in_place() {
    let mut n = node(10);
    n.predecessor = Some(3);
    n.notify_join(NotifyJoin { new_node_id: 12 });
    assert_eq!(n.predecessor, Some(3));
    assert_eq!(n.successor(), Some(12));
    n.notify_join(NotifyJoin { new_node_id: 10 });
    assert_eq!(n.predecessor, Some(3));
    assert_eq!(n.successor(), Some(12));
}

#[test]
fn stabilize_is_silent_without_another_predecessor() {
    let mut n = node(4);
    assert!(n.stabilize(StabilizeMessage).is_empty());
    n.predecessor = Some(4);
    assert!(n.stabilize(StabilizeMessage).is_empty());
}

#[test]
fn stabilize_is_idempotent() {
    let mut n = node(4);
    n.predecessor = Some(2);
    n.fingers = fingers_of(&[(0, 6)]);
    let first = n.stabilize(StabilizeMessage);
    let second = n.stabilize(StabilizeMessage);
    assert_eq!(
        first,
        vec![Outbound {
            to: 2,
            message: PeerMessage::UpdateSuccessor(UpdateSuccessor { new_successor_id: 4 }),
        }]
    );
    assert_eq!(first, second);
    assert_eq!(n.predecessor, Some(2));
    assert_eq!(n.fingers, fingers_of(&[(0, 6)]));
}

#[test]
fn closest_known_picks_the_nearest_id_before_the_target() {
    assert_eq!(closest_known(&vec![1, 2, 3], 2), Some(1));
    assert_eq!(closest_known(&vec![1, 2, 3], 3), Some(2));
    assert_eq!(closest_known(&vec![1, 2, 3], 5), Some(3));
    assert_eq!(closest_known(&vec![1, 2, 3], 1), Some(3));
    assert_eq!(closest_known(&vec![3, 2, 1], 5), Some(3));
    assert_eq!(closest_known(&vec![7], 7), None);
    assert_eq!(closest_known(&vec![], 7), None);
    assert_eq!(closest_known(&vec![1000], 4), Some(1000));
}

#[test]
fn closest_known_prefers_the_first_of_ids_that_coincide_on_the_ring() {
    assert_eq!(closest_known(&vec![5, 1029], 9), Some(5));
    assert_eq!(closest_known(&vec![1029, 5], 9), Some(1029));
}

#[test]
fn fix_fingers_fills_every_slot_from_the_directory() {
    let mut directory = NodeDirectory::new();
    for id in [1, 2, 3] {
        directory.upsert(id, "h".to_string(), 1, None);
    }
    let mut n1 = node(1);
    n1.fix_fingers(FixFingersMessage, &directory);
    assert_eq!(
        n1.fingers,
        fingers_of(&[(0, 1), (1, 2), (2, 3), (3, 3), (4, 3), (5, 3), (6, 3), (7, 3), (8, 3), (9, 3)])
    );
    let mut n2 = node(2);
    n2.fix_fingers(FixFingersMessage, &directory);
    assert_eq!(
        n2.fingers,
        fingers_of(&[(0, 2), (1, 3), (2, 3), (3, 3), (4, 3), (5, 3), (6, 3), (7, 3), (8, 3), (9, 3)])
    );
    let mut n3 = node(3);
    n3.fix_fingers(FixFingersMessage, &directory);
    assert_eq!(
        n3.fingers,
        fingers_of(&[(0, 3), (1, 3), (2, 3), (3, 3), (4, 3), (5, 3), (6, 3), (7, 3), (8, 3), (9, 3)])
    );
}

#[test]
fn fix_fingers_falls_back_to_the_node_itself() {
    let mut n = node(6);
    n.fingers = fingers_of(&[(0, 9), (12, 4)]);
    n.predecessor = Some(2);
    n.update_finger_table(&vec![]);
    assert_eq!(
        n.fingers,
        fingers_of(&[(0, 6), (1, 6), (2, 6), (3, 6), (4, 6), (5, 6), (6, 6), (7, 6), (8, 6), (9, 6)])
    );
    assert_eq!(n.predecessor, Some(2));
    assert_eq!(n.id, 6);
}

#[test]
fn fix_fingers_wraps_targets_around_the_ring() {
    let mut n = node(1000);
    n.update_finger_table(&vec![1000, 4, 600]);
    // targets: 1001, 1002, 1004, 1008, 1016, 8, 40, 104, 232, 488
    assert_eq!(
        n.fingers,
        fingers_of(&[
            (0, 1000),
            (1, 1000),
            (2, 1000),
            (3, 1000),
            (4, 1000),
            (5, 4),
            (6, 4),
            (7, 4),
            (8, 4),
            (9, 4)
        ])
    );
}

#[test]
fn fix_fingers_is_idempotent() {
    let mut n = node(1);
    n.update_finger_table(&vec![1, 40, 300]);
    let once = n.fingers.clone();
    n.update_finger_table(&vec![1, 40, 300]);
    assert_eq!(n.fingers, once);
}

#[test]
fn refresh_fingers_resolves_against_the_nodes_own_acquaintances() {
    let mut n = node(1);
    n.predecessor = Some(5);
    n.fingers = fingers_of(&[(0, 2), (3, 9)]);
    n.refresh_fingers(FingerTableUpdate);
    // known: 5, 2, 9; targets: 2, 3, 5, 9, 17, ...
    assert_eq!(
        n.fingers,
        fingers_of(&[(0, 9), (1, 2), (2, 2), (3, 5), (4, 9), (5, 9), (6, 9), (7, 9), (8, 9), (9, 9)])
    );
    assert_eq!(n.predecessor, Some(5));
}

#[test]
fn closest_preceding_node_scans_from_the_highest_slot() {
    let mut n = node(10);
    n.fingers = fingers_of(&[(0, 12), (1, 14), (2, 20), (3, 40), (4, 100)]);
    assert_eq!(n.closest_preceding_node(50), 40);
    assert_eq!(n.closest_preceding_node(40), 20);
    assert_eq!(n.closest_preceding_node(101), 100);
    assert_eq!(n.closest_preceding_node(13), 12);
    assert_eq!(n.closest_preceding_node(12), 10);
    assert_eq!(n.closest_preceding_node(11), 10);
    assert_eq!(n.closest_preceding_node(10), 10);
    assert_eq!(n.closest_preceding_node(5), 100);
}

#[test]
fn closest_preceding_node_takes_the_first_match_from_the_top() {
    let mut n = node(10);
    n.fingers = fingers_of(&[(0, 30), (1, 20)]);
    assert_eq!(n.closest_preceding_node(50), 20);
    n.fingers = fingers_of(&[(0, 20), (1, 30)]);
    assert_eq!(n.closest_preceding_node(50), 30);
}

#[test]
fn closest_preceding_node_ignores_slots_off_the_table() {
    let mut n = node(10);
    n.fingers = fingers_of(&[(10, 30), (-1, 20)]);
    assert_eq!(n.closest_preceding_node(50), 10);
    assert!(n.owns(50));
}

#[test]
fn a_node_owns_its_own_position_whatever_its_fingers() {
    let mut n = node(10);
    assert_eq!(n.route(10), LookupOutcome::Owner(10));
    n.fingers = fingers_of(&[(0, 12), (1, 14), (9, 7)]);
    n.predecessor = Some(7);
    assert_eq!(n.route(10), LookupOutcome::Owner(10));
    assert_eq!(n.route(10 + 1024), LookupOutcome::Owner(10));
}

#[test]
fn a_node_without_fingers_owns_every_position() {
    let n = node(10);
    assert_eq!(n.route(11), LookupOutcome::Owner(10));
    assert_eq!(n.route(9), LookupOutcome::Owner(10));
    assert_eq!(n.route(0), LookupOutcome::Owner(10));
    assert_eq!(n.lookup(LookupMessage { key: 77 }), LookupOutcome::Owner(10));
}

#[test]
fn route_owns_up_to_the_nearest_finger() {
    let mut n = node(10);
    n.fingers = fingers_of(&[(0, 20), (1, 40)]);
    assert!(n.owns(15));
    assert_eq!(n.route(15), LookupOutcome::Owner(10));
    assert_eq!(n.route(19), LookupOutcome::Owner(10));
    assert!(!n.owns(20));
    assert_eq!(n.route(21), LookupOutcome::Forward(20));
    assert_eq!(n.route(40), LookupOutcome::Forward(20));
    assert_eq!(n.route(41), LookupOutcome::Forward(40));
    assert_eq!(n.route(9), LookupOutcome::Forward(40));
}

#[test]
fn route_names_the_node_itself_when_a_finger_sits_on_the_position() {
    let mut n = node(10);
    n.fingers = fingers_of(&[(0, 20)]);
    assert!(!n.owns(20));
    assert_eq!(n.route(20), LookupOutcome::Forward(10));
}

#[test]
fn lookup_routes_the_hashed_position_of_the_key() {
    let mut n = node(10);
    n.fingers = fingers_of(&[(0, 200), (1, 500), (2, 900)]);
    for key in [0, 1, 5, 42, -3, 9999] {
        let pos = key_position(key);
        assert_eq!(n.lookup(LookupMessage { key }), n.route(pos));
    }
}

#[test]
fn insert_stores_locally_and_replicates_to_both_neighbours() {
    let mut n = node(2);
    n.predecessor = Some(1);
    n.fingers = fingers_of(&[(0, 3)]);
    let mut store = KeyValueStore::new();
    let out = n.insert(InsertKeyValue { key: 7, value: "seven".to_string() }, &mut store);
    assert_eq!(
        out,
        vec![
            Outbound {
                to: 3,
                message: PeerMessage::ReplicateData(ReplicateData { key: 7, value: "seven".to_string() }),
            },
            Outbound {
                to: 1,
                message: PeerMessage::ReplicateData(ReplicateData { key: 7, value: "seven".to_string() }),
            },
        ]
    );
    assert_eq!(store.get(7), Some("seven".to_string()));
    assert_eq!(store.holder(7), Some(2));
}

#[test]
fn insert_replicates_only_to_recorded_neighbours() {
    let mut store = KeyValueStore::new();
    let mut n = node(2);
    assert!(n.insert(InsertKeyValue { key: 1, value: "a".to_string() }, &mut store).is_empty());
    n.predecessor = Some(1);
    let out = n.insert(InsertKeyValue { key: 1, value: "a".to_string() }, &mut store);
    assert_eq!(
        out,
        vec![Outbound {
            to: 1,
            message: PeerMessage::ReplicateData(ReplicateData { key: 1, value: "a".to_string() }),
        }]
    );
    n.predecessor = None;
    n.fingers = fingers_of(&[(0, 3), (1, 9)]);
    let out = n.insert(InsertKeyValue { key: 1, value: "a".to_string() }, &mut store);
    assert_eq!(
        out,
        vec![Outbound {
            to: 3,
            message: PeerMessage::ReplicateData(ReplicateData { key: 1, value: "a".to_string() }),
        }]
    );
}

#[test]
fn insert_then_get_returns_the_value() {
    let n = node(2);
    let mut store = KeyValueStore::new();
    n.insert(InsertKeyValue { key: 7, value: "seven".to_string() }, &mut store);
    assert_eq!(n.get(GetKeyValue { key: 7 }, &store), Ok("seven".to_string()));
    n.insert(InsertKeyValue { key: 7, value: "sept".to_string() }, &mut store);
    assert_eq!(n.get(GetKeyValue { key: 7 }, &store), Ok("sept".to_string()));
}

#[test]
fn delete_then_get_reports_not_found() {
    let n = node(2);
    let mut store = KeyValueStore::new();
    n.insert(InsertKeyValue { key: 7, value: "seven".to_string() }, &mut store);
    n.delete(DeleteKeyValue { key: 7 }, &mut store);
    assert_eq!(n.get(GetKeyValue { key: 7 }, &store), Err(DhtError::NotFound));
    n.delete(DeleteKeyValue { key: 7 }, &mut store);
    assert_eq!(n.get(GetKeyValue { key: 7 }, &store), Err(DhtError::NotFound));
}

#[test]
fn get_of_a_key_never_stored_reports_not_found() {
    let n = node(2);
    let store = KeyValueStore::new();
    assert_eq!(n.get(GetKeyValue { key: 1 }, &store), Err(DhtError::NotFound));
}

#[test]
fn replicate_stores_under_the_receiving_node() {
    let n = node(3);
    let mut store = KeyValueStore::new();
    store.put(7, "old".to_string(), 2);
    n.replicate(ReplicateData { key: 7, value: "seven".to_string() }, &mut store);
    assert_eq!(store.get(7), Some("seven".to_string()));
    assert_eq!(store.holder(7), Some(3));
}

#[test]
fn transfer_stores_every_pair_in_order() {
    let n = node(3);
    let mut store = KeyValueStore::new();
    store.put(9, "nine".to_string(), 1);
    n.transfer(
        TransferData {
            data: vec![
                KeyValue { key: 1, value: "a".to_string() },
                KeyValue { key: 2, value: "b".to_string() },
                KeyValue { key: 1, value: "c".to_string() },
            ],
        },
        &mut store,
    );
    assert_eq!(store.get(1), Some("c".to_string()));
    assert_eq!(store.get(2), Some("b".to_string()));
    assert_eq!(store.get(9), Some("nine".to_string()));
    assert_eq!(store.holder(1), Some(3));
    assert_eq!(store.holder(2), Some(3));
    assert_eq!(store.holder(9), Some(1));
    assert_eq!(store.len(), 3);
}

#[test]
fn an_empty_transfer_changes_nothing() {
    let n = node(3);
    let mut store = KeyValueStore::new();
    store.put(9, "nine".to_string(), 1);
    n.transfer(TransferData { data: vec![] }, &mut store);
    assert_eq!(store.len(), 1);
    assert_eq!(store.holder(9), Some(1));
}

#[test]
fn health_check_probes_successor_then_predecessor() {
    let mut n = node(2);
    assert!(n.health_check(HealthCheck).is_empty());
    n.predecessor = Some(1);
    n.fingers = fingers_of(&[(0, 3)]);
    assert_eq!(
        n.health_check(HealthCheck),
        vec![
            Outbound { to: 3, message: PeerMessage::Heartbeat(Heartbeat) },
            Outbound { to: 1, message: PeerMessage::Heartbeat(Heartbeat) },
        ]
    );
}

#[test]
fn receive_dispatches_by_message() {
    let mut n = node(5);
    let mut store = KeyValueStore::new();
    n.receive(PeerMessage::UpdateSuccessor(UpdateSuccessor { new_successor_id: 8 }), &mut store);
    assert_eq!(n.successor(), Some(8));
    assert_eq!(n.predecessor, None);
    n.receive(PeerMessage::NotifyJoin(NotifyJoin { new_node_id: 6 }), &mut store);
    assert_eq!(n.successor(), Some(6));
    assert_eq!(n.predecessor, Some(6));
    n.receive(PeerMessage::ReplicateData(ReplicateData { key: 1, value: "a".to_string() }), &mut store);
    assert_eq!(store.get(1), Some("a".to_string()));
    assert_eq!(store.holder(1), Some(5));
    n.receive(
        PeerMessage::TransferData(TransferData { data: vec![KeyValue { key: 2, value: "b".to_string() }] }),
        &mut store,
    );
    assert_eq!(store.get(2), Some("b".to_string()));
    n.receive(PeerMessage::Heartbeat(Heartbeat), &mut store);
    assert_eq!(store.len(), 2);
    assert_eq!(n.successor(), Some(6));
    assert_eq!(n.predecessor, Some(6));
    assert_eq!(n.address, "127.0.0.1");
    assert_eq!(n.port, 5084);
}

#[test]
fn audit_reports_a_node_that_is_its_own_predecessor_among_others() {
    let mut directory = NodeDirectory::new();
    directory.upsert(1, "h".to_string(), 1, None);
    let mut n = node(1);
    assert_eq!(n.audit(&directory), Ok(()));
    n.predecessor = Some(1);
    assert_eq!(n.audit(&directory), Ok(()));
    directory.upsert(2, "h".to_string(), 1, Some(1));
    assert_eq!(n.audit(&directory), Err(DhtError::InvariantViolation));
    n.predecessor = Some(2);
    assert_eq!(n.audit(&directory), Ok(()));
    n.predecessor = None;
    assert_eq!(n.audit(&directory), Ok(()));
}

#[test]
fn audit_of_an_unregistered_node_counts_every_member_as_another() {
    let mut directory = NodeDirectory::new();
    let mut n = node(1);
    n.predecessor = Some(1);
    assert_eq!(n.audit(&directory), Ok(()));
    directory.upsert(2, "h".to_string(), 1, None);
    assert_eq!(n.audit(&directory), Err(DhtError::InvariantViolation));
}

#[test]
fn insert_node_registers_the_node_with_its_predecessor() {
    let mut directory = NodeDirectory::new();
    let mut n = node(4);
    n.predecessor = Some(2);
    assert_eq!(insert_node(&mut directory, &n), Ok(()));
    assert_eq!(directory.member_ids(), vec![4]);
    assert_eq!(directory.predecessor_of(4), Some(Some(2)));
    let rows = directory.list_all();
    assert_eq!(rows[0].address, "127.0.0.1");
    assert_eq!(rows[0].port, 5083);
}

#[test]
fn insert_node_refuses_an_id_that_is_registered() {
    let mut directory = NodeDirectory::new();
    let mut n = node(4);
    assert_eq!(insert_node(&mut directory, &n), Ok(()));
    n.predecessor = Some(2);
    assert_eq!(insert_node(&mut directory, &n), Err(DhtError::PersistenceFailure));
    assert_eq!(directory.predecessor_of(4), Some(None));
    assert_eq!(directory.len(), 1);
}
