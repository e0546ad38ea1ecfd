use kv_store::error::KvError;
use kv_store::replication::controller::{choose_new_leader, decide, ControllerDecision, FollowerStatus};
use kv_store::replication::transport::{frame_message, message_len};
use kv_store::replication::{
    ControllerMessage, FollowerRole, LeaderRole, Node, NodeAddr, NodeCore, NodeRole, OutboundEvent, HEARTBEAT_TIMEOUT_TICKS,
    PeerMessage, ReplicationMessage,
};
use kv_store::store::memory::ArcRwLockKvStore;
use kv_store::wal::frame::{Frame, ScanStop};
use kv_store::wal::{EncodedEntry, Operation, WalEntry};

fn store() -> ArcRwLockKvStore {
    ArcRwLockKvStore::new(kv_store::wal::writer::WalLog::new(Vec::new(), &[]).unwrap())
}

fn entry(offset: u64, payload: &[u8]) -> EncodedEntry {
    EncodedEntry {
        entry: WalEntry {
            offset,
            operation: Operation::Put,
            key: "k".to_string(),
            value: "v".to_string(),
        },
        payload: payload.to_vec(),
    }
}

fn follower() -> Node {
    Node::new(9001, NodeRole::FOLLOWER(FollowerRole::new(None, None)), store())
}

fn leader() -> Node {
    Node::new(9000, NodeRole::LEADER(LeaderRole::new()), store())
}

#[test]
fn new_node_is_on_loopback_with_v4_id() {
    let node = leader();
    assert_eq!(node.core.addr, NodeAddr::V4 { octets: [127, 0, 0, 1], port: 9000 });
    assert_eq!(node.core.last_read_offset, 0);
    assert_eq!((node.core.id >> 76) & 0xF, 4);
    assert_eq!((node.core.id >> 62) & 0x3, 2);
    let other = NodeCore::new(9000, store());
    assert_ne!(other.id, node.core.id);
}

#[test]
fn follower_appends_shipped_entries() {
    let mut node = follower();
    let result = node.handle(ReplicationMessage::AppendEntries {
        entries: vec![entry(1, b"one"), entry(2, b"two")],
    });
    assert_eq!(result, Ok(None));
    assert_eq!(node.core.last_read_offset, 2);
    assert_eq!(node.core.kv_store.get_byte_pos(1), Some(&0));
    assert_eq!(node.core.kv_store.get_byte_pos(2), Some(&11));
    let scan = node.core.kv_store.wal_log().get_entries(2).unwrap();
    assert_eq!(scan.frames, vec![Frame { pos: 11, payload: b"two".to_vec() }]);
}

#[test]
fn follower_accepts_heartbeat() {
    let mut node = follower();
    let result = node.handle(ReplicationMessage::Heartbeat { leader_id: 1, leader_offset: 4 });
    assert_eq!(result, Ok(None));
    assert_eq!(node.core.kv_store.wal_log().len(), 0);
}

#[test]
fn follower_rejects_leader_messages() {
    let mut node = follower();
    let result = node.handle(ReplicationMessage::FetchEntries { replica_node_id: 1, from_offset: 0 });
    assert_eq!(result, Err(KvError::InvalidInput));
    let result = node.handle(ReplicationMessage::AckOffset { replica_node_id: 1, last_applied_offset: 0 });
    assert_eq!(result, Err(KvError::InvalidInput));
}

fn follower_timer(node: &Node) -> u64 {
    match &node.role {
        NodeRole::FOLLOWER(f) => f.heartbeat_timer(),
        _ => panic!("expected a follower"),
    }
}

#[test]
fn follower_reports_a_silent_leader() {
    let mut node = Node::new(9001, NodeRole::FOLLOWER(FollowerRole::new(Some(42), None)), store());
    assert_eq!(follower_timer(&node), HEARTBEAT_TIMEOUT_TICKS);
    for _ in 1..HEARTBEAT_TIMEOUT_TICKS {
        assert!(node.tick().unwrap().is_none());
    }
    let events = node.tick().unwrap().unwrap();
    assert_eq!(events.len(), 1);
    match &events[0] {
        OutboundEvent::ToController(m) => assert_eq!(*m, ControllerMessage::LeaderFailed { leader_id: 42 }),
        _ => panic!("expected a report to the controller"),
    }
    assert_eq!(follower_timer(&node), HEARTBEAT_TIMEOUT_TICKS);
}

#[test]
fn heartbeat_restarts_the_timer() {
    let mut node = Node::new(9001, NodeRole::FOLLOWER(FollowerRole::new(Some(42), None)), store());
    node.tick().unwrap();
    node.tick().unwrap();
    assert_eq!(follower_timer(&node), HEARTBEAT_TIMEOUT_TICKS - 2);
    node.handle(ReplicationMessage::Heartbeat { leader_id: 42, leader_offset: 0 }).unwrap();
    assert_eq!(follower_timer(&node), HEARTBEAT_TIMEOUT_TICKS);
}

#[test]
fn follower_without_leader_reports_nothing() {
    let mut node = follower();
    for _ in 0..(2 * HEARTBEAT_TIMEOUT_TICKS) {
        assert!(node.tick().unwrap().is_none());
    }
}

#[test]
fn leader_rejects_follower_messages() {
    let mut node = leader();
    let result = node.handle(ReplicationMessage::Heartbeat { leader_id: 1, leader_offset: 4 });
    assert_eq!(result, Err(KvError::InvalidInput));
    let result = node.handle(ReplicationMessage::AppendEntries { entries: vec![] });
    assert_eq!(result, Err(KvError::InvalidInput));
}

#[test]
fn leader_fetch_of_unknown_offset_is_not_found() {
    let mut node = leader();
    let result = node.handle(ReplicationMessage::FetchEntries { replica_node_id: 1, from_offset: 0 });
    assert_eq!(result, Err(KvError::NotFound));
}

#[test]
fn leader_fetch_reads_from_the_fetched_offset() {
    let mut node = leader();
    node.core.kv_store.append_to_log(9, b"x");
    node.core.kv_store.append_to_log(0, b"y");
    let result = node.handle(ReplicationMessage::FetchEntries { replica_node_id: 7, from_offset: 9 });
    let scan = result.unwrap().unwrap();
    assert_eq!(
        scan.frames,
        vec![Frame { pos: 0, payload: b"x".to_vec() }, Frame { pos: 9, payload: b"y".to_vec() }]
    );
    assert_eq!(scan.stop, ScanStop::End);
    let result = node.handle(ReplicationMessage::FetchEntries { replica_node_id: 7, from_offset: 0 });
    assert_eq!(result.unwrap().unwrap().frames, vec![Frame { pos: 9, payload: b"y".to_vec() }]);
}

#[test]
fn leader_tick_ships_what_a_follower_lacks() {
    let mut node = leader();
    node.core.kv_store.append_to_log(1, b"one");
    node.core.kv_store.append_to_log(2, b"two");
    node.core.last_read_offset = 2;
    let ack = node.handle(ReplicationMessage::AckOffset { replica_node_id: 7, last_applied_offset: 1 });
    assert_eq!(ack, Ok(None));
    let events = node.tick().unwrap().unwrap();
    assert_eq!(events.len(), 1);
    match &events[0] {
        OutboundEvent::ToPeers(msgs) => {
            assert_eq!(msgs.len(), 2);
            match &msgs[0] {
                PeerMessage::Heartbeat { leader_id, leader_offset } => {
                    assert_eq!(*leader_id, node.core.id);
                    assert_eq!(*leader_offset, 2);
                }
                _ => panic!("expected a heartbeat"),
            }
            match &msgs[1] {
                PeerMessage::AppendEntries { entries } => {
                    assert_eq!(entries.frames.len(), 2);
                    assert_eq!(entries.frames[0].payload, b"one".to_vec());
                }
                _ => panic!("expected entries"),
            }
        }
        _ => panic!("expected peer messages"),
    }
}

#[test]
fn leader_tick_sends_only_heartbeat_to_caught_up_follower() {
    let mut node = leader();
    node.core.last_read_offset = 5;
    node.handle(ReplicationMessage::AckOffset { replica_node_id: 7, last_applied_offset: 5 }).unwrap();
    let events = node.tick().unwrap().unwrap();
    match &events[0] {
        OutboundEvent::ToPeers(msgs) => assert_eq!(msgs.len(), 1),
        _ => panic!("expected peer messages"),
    }
}

#[test]
fn leader_tick_reports_missing_offset() {
    let mut node = leader();
    node.core.last_read_offset = 5;
    node.handle(ReplicationMessage::AckOffset { replica_node_id: 7, last_applied_offset: 3 }).unwrap();
    assert!(matches!(node.tick(), Err(KvError::NotFound)));
}

#[test]
fn promotion_and_demotion() {
    let mut node = follower();
    node.handle_control(ControllerMessage::PromoteToLeader);
    assert!(matches!(node.role, NodeRole::LEADER(_)));
    let addr = NodeAddr::V4 { octets: [10, 0, 0, 2], port: 8002 };
    node.handle_control(ControllerMessage::DemoteToFollower { new_leader_id: 42, new_leader_addr: addr });
    match &node.role {
        NodeRole::FOLLOWER(f) => {
            assert_eq!(f.leader_id(), Some(42));
            assert_eq!(f.leader_addr(), Some(addr));
        }
        _ => panic!("expected a follower"),
    }
    node.handle_control(ControllerMessage::LeaderFailed { leader_id: 42 });
    assert!(matches!(node.role, NodeRole::FOLLOWER(_)));
}

fn status(id: u128, offset: u64) -> FollowerStatus {
    FollowerStatus { id, addr: NodeAddr::V4 { octets: [127, 0, 0, 1], port: 8000 + id as u16 }, last_read_offset: offset }
}

#[test]
fn failover_picks_follower_that_read_furthest() {
    let followers = vec![status(1, 3), status(2, 9), status(3, 9), status(4, 1)];
    assert_eq!(choose_new_leader(&followers), Some(1));
    assert_eq!(choose_new_leader(&[]), None);
}

#[test]
fn failover_promotes_one_and_demotes_the_rest() {
    let followers = vec![status(1, 3), status(2, 9), status(3, 4)];
    match decide(&followers, ControllerMessage::LeaderFailed { leader_id: 99 }) {
        ControllerDecision::Send(msgs) => {
            let demote = ControllerMessage::DemoteToFollower {
                new_leader_id: 2,
                new_leader_addr: followers[1].addr,
            };
            assert_eq!(msgs, vec![(1, ControllerMessage::PromoteToLeader), (0, demote), (2, demote)]);
        }
        ControllerDecision::Stop => panic!("expected a failover"),
    }
    assert!(matches!(decide(&[], ControllerMessage::LeaderFailed { leader_id: 99 }), ControllerDecision::Stop));
    match decide(&followers, ControllerMessage::PromoteToLeader) {
        ControllerDecision::Send(msgs) => assert!(msgs.is_empty()),
        ControllerDecision::Stop => panic!("expected nothing to send"),
    }
}

#[test]
fn message_frame_round_trip() {
    let data = frame_message(&[5, 6, 7]);
    assert_eq!(frame_message(&[]), vec![0, 0, 0, 0]);
    assert_eq!(data, vec![3, 0, 0, 0, 5, 6, 7]);
    assert_eq!(message_len(&data[..4]), 3);
    assert_eq!(message_len(&[0x00, 0x01, 0x00, 0x00]), 256);
}

#[test]
fn leader_tick_fails_on_a_corrupt_batch() {
    let mut data = kv_store::wal::frame::encode_frame(b"one");
    data[9] ^= 0x01;
    let log = kv_store::wal::writer::WalLog::new(data, &[1]).unwrap();
    let mut node = Node::new(9000, NodeRole::LEADER(LeaderRole::new()), ArcRwLockKvStore::new(log));
    node.core.last_read_offset = 3;
    node.handle(ReplicationMessage::AckOffset { replica_node_id: 7, last_applied_offset: 1 }).unwrap();
    assert!(matches!(node.tick(), Err(KvError::InvalidData)));
    let fetched = node.handle(ReplicationMessage::FetchEntries { replica_node_id: 7, from_offset: 1 });
    assert_eq!(fetched, Err(KvError::InvalidData));
}
