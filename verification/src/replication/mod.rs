//! Replication between a leader node and its followers, and the messages
//! that nodes and the controller exchange.
pub mod controller;
pub mod leader;
pub mod replica;
pub mod transport;

use std::collections::HashMap;
use vstd::prelude::*;
use crate::error::KvError;
use crate::store::memory::ArcRwLockKvStore;
use crate::wal::EncodedEntry;
use crate::wal::frame::FrameScan;
use crate::replication::leader::{leader_handles, leader_ticks};
use crate::replication::replica::{follower_handles, follower_ticks};

verus! {

/// A node's network address.
#[derive(Clone, Copy, Debug, PartialEq, Eq)]
pub enum NodeAddr {
    V4 { octets: [u8; 4], port: u16 },
    V6 { segments: [u16; 8], port: u16, flowinfo: u32, scope_id: u32 },
}

/// Messages from the controller to the nodes, and from a node to the controller.
#[derive(Clone, Copy, Debug, PartialEq, Eq)]
pub enum ControllerMessage {
    PromoteToLeader,
    DemoteToFollower { new_leader_id: u128, new_leader_addr: NodeAddr },
    LeaderFailed { leader_id: u128 },
}

/// Messages between nodes, as the nodes receive them.
pub enum ReplicationMessage {
    /// Entries for a follower to append to its log, in order.
    AppendEntries { entries: Vec<EncodedEntry> },
    Heartbeat { leader_id: u128, leader_offset: u64 },
    /// A follower asks for the entries from a logical offset on.
    FetchEntries { replica_node_id: u128, from_offset: u64 },
    /// A follower reports the last logical offset it has applied.
    AckOffset { replica_node_id: u128, last_applied_offset: u64 },
}

/// A message that the leader sends to its peers. The entries it ships are
/// the checked frames of its log, whose payloads are serialized entries.
pub enum PeerMessage {
    Heartbeat { leader_id: u128, leader_offset: u64 },
    AppendEntries { entries: FrameScan },
}

/// What a peer message stands for.
pub enum PeerMessageView {
    Heartbeat { leader_id: u128, leader_offset: u64 },
    AppendEntries { entries: Seq<(int, Seq<u8>)> },
}

impl View for PeerMessage {
    type V = PeerMessageView;

    open spec fn view(&self) -> PeerMessageView {
        match self {
            PeerMessage::Heartbeat { leader_id, leader_offset } => PeerMessageView::Heartbeat {
                leader_id: *leader_id,
                leader_offset: *leader_offset,
            },
            PeerMessage::AppendEntries { entries } => PeerMessageView::AppendEntries {
                entries: entries@.0,
            },
        }
    }
}

pub open spec fn peer_messages_view(ms: Seq<PeerMessage>) -> Seq<PeerMessageView> {
    ms.map_values(|m: PeerMessage| m@)
}

/// Something a node hands on after a tick.
pub enum OutboundEvent {
    ToPeers(Vec<PeerMessage>),
    ToController(ControllerMessage),
}

/// The state that every node has, whatever its role.
pub struct NodeCore {
    pub id: u128,
    pub addr: NodeAddr,
    pub kv_store: ArcRwLockKvStore,
    pub last_read_offset: u64,
}

/// The bits that make a random identifier a version-4 UUID: the version
/// nibble is 4 and the variant bits are `10`.
pub open spec fn is_v4_uuid(id: u128) -> bool {
    id & 0xF000_C000_0000_0000_0000u128 == 0x4000_8000_0000_0000_0000u128
}

/// Calls `uuid::Uuid::new_v4` and hands back the UUID as a `u128`
/// (`Uuid::as_u128`). The value is random; the contract states only the
/// version and variant bits that `new_v4` sets on every value.
#[verifier::external_body]
fn fresh_node_id() -> (id: u128)
    ensures
        is_v4_uuid(id),
{
    uuid::Uuid::new_v4().as_u128()
}

impl NodeCore {
    /// A node on the loopback address at `port`, with a fresh random identifier,
    /// the given store, and nothing read yet.
    pub fn new(port: u16, kv_store: ArcRwLockKvStore) -> (core: NodeCore)
        ensures
            is_v4_uuid(core.id),
            core.addr == (NodeAddr::V4 { octets: [127u8, 0u8, 0u8, 1u8], port }),
            core.kv_store == kv_store,
            core.last_read_offset == 0,
    {
        let id = fresh_node_id();
        NodeCore {
            id,
            addr: NodeAddr::V4 { octets: [127u8, 0u8, 0u8, 1u8], port },
            kv_store,
            last_read_offset: 0,
        }
    }
}

/// A node: its core state and its role.
pub struct Node {
    pub core: NodeCore,
    pub role: NodeRole,
}

impl Node {
    /// A node in the given role, on the loopback address at `port`.
    pub fn new(port: u16, role: NodeRole, kv_store: ArcRwLockKvStore) -> (node: Node)
        ensures
            is_v4_uuid(node.core.id),
            node.core.addr == (NodeAddr::V4 { octets: [127u8, 0u8, 0u8, 1u8], port }),
            node.core.kv_store == kv_store,
            node.core.last_read_offset == 0,
            node.role == role,
    {
        Node { core: NodeCore::new(port, kv_store), role }
    }
}

/// A node's role.
pub enum NodeRole {
    LEADER(LeaderRole),
    FOLLOWER(FollowerRole),
}

/// The leader's state: for each follower, the last logical offset it has
/// acknowledged, from which the leader ships it the rest of the log.
pub struct LeaderRole {
    replication_map: HashMap<u128, u64>,
}

impl LeaderRole {
    /// For each follower, the last logical offset it has acknowledged.
    pub closed spec fn replication(&self) -> Map<u128, u64> {
        self.replication_map@
    }

    /// A leader that knows of no follower yet.
    pub fn new() -> (role: LeaderRole)
        ensures
            role.replication() == Map::<u128, u64>::empty(),
    {
        LeaderRole { replication_map: HashMap::new() }
    }
}

/// How many ticks a follower waits for a heartbeat before it reports its
/// leader as failed.
pub const HEARTBEAT_TIMEOUT_TICKS: u64 = 10;

/// A follower's state: the leader it follows, where known, and the ticks
/// left before it reports that leader as failed unless a heartbeat comes.
pub struct FollowerRole {
    leader_id: Option<u128>,
    leader_addr: Option<NodeAddr>,
    heartbeat_timer: u64,
}

impl FollowerRole {
    /// The leader this follower follows, where known.
    pub closed spec fn leader(&self) -> (Option<u128>, Option<NodeAddr>) {
        (self.leader_id, self.leader_addr)
    }

    /// Ticks left before the leader is reported as failed.
    pub closed spec fn timer(&self) -> u64 {
        self.heartbeat_timer
    }

    /// A follower of the given leader, whose heartbeat timer starts full.
    pub fn new(leader_id: Option<u128>, leader_addr: Option<NodeAddr>) -> (role: FollowerRole)
        ensures
            role.leader() == (leader_id, leader_addr),
            role.timer() == HEARTBEAT_TIMEOUT_TICKS,
    {
        FollowerRole { leader_id, leader_addr, heartbeat_timer: HEARTBEAT_TIMEOUT_TICKS }
    }

    /// The identifier of the leader this follower follows.
    pub fn leader_id(&self) -> (id: Option<u128>)
        ensures
            id == self.leader().0,
    {
        self.leader_id
    }

    /// The address of the leader this follower follows.
    pub fn leader_addr(&self) -> (addr: Option<NodeAddr>)
        ensures
            addr == self.leader().1,
    {
        self.leader_addr
    }

    /// Ticks left before the leader is reported as failed.
    pub fn heartbeat_timer(&self) -> (ticks: u64)
        ensures
            ticks == self.timer(),
    {
        self.heartbeat_timer
    }

    /// Restarts the heartbeat timer.
    pub(crate) fn reset_timer(&mut self)
        ensures
            final(self).leader() == old(self).leader(),
            final(self).timer() == HEARTBEAT_TIMEOUT_TICKS,
    {
        self.heartbeat_timer = HEARTBEAT_TIMEOUT_TICKS;
    }

    /// Counts one tick down; at the last tick, restarts the timer and says so.
    pub(crate) fn count_down(&mut self) -> (expired: bool)
        ensures
            final(self).leader() == old(self).leader(),
            expired == (old(self).timer() <= 1),
            final(self).timer() == if expired {
                HEARTBEAT_TIMEOUT_TICKS
            } else {
                (old(self).timer() - 1) as u64
            },
    {
        if self.heartbeat_timer <= 1 {
            self.heartbeat_timer = HEARTBEAT_TIMEOUT_TICKS;
            true
        } else {
            self.heartbeat_timer = self.heartbeat_timer - 1;
            false
        }
    }
}

/// The handling of what reaches a node: messages from its peers, and ticks.
/// On a message, the result is the batch of log frames to ship back, if any.
pub trait NodeHandler {
    fn on_message(&mut self, msg: ReplicationMessage, core: &mut NodeCore) -> (result: Result<
        Option<FrameScan>,
        KvError,
    >);

    fn on_tick(&mut self, core: &mut NodeCore) -> (result: Result<Option<Vec<OutboundEvent>>, KvError>);
}

/// How a node in role `role` handles a message: as its role's handler does.
pub open spec fn role_handles(
    role: NodeRole,
    role_after: NodeRole,
    core: NodeCore,
    core_after: NodeCore,
    msg: ReplicationMessage,
    result: Result<Option<FrameScan>, KvError>,
) -> bool {
    match role {
        NodeRole::LEADER(l) => {
            &&& (role_after matches NodeRole::LEADER(l2) && leader_handles(
                l.replication(),
                l2.replication(),
                msg,
                core.kv_store.log(),
                result,
            ))
            &&& core_after == core
        },
        NodeRole::FOLLOWER(f) => {
            &&& (role_after matches NodeRole::FOLLOWER(f2) && follower_handles(f, f2, core, core_after, msg, result))
        },
    }
}

/// How a node in role `role` comes out of a tick: a leader sends its
/// heartbeats and batches, a follower counts down to reporting its leader.
pub open spec fn role_ticks(
    role: NodeRole,
    role_after: NodeRole,
    core: NodeCore,
    core_after: NodeCore,
    result: Result<Option<Vec<OutboundEvent>>, KvError>,
) -> bool {
    &&& core_after == core
    &&& match role {
        NodeRole::LEADER(l) => role_after == role && leader_ticks(l.replication(), core, result),
        NodeRole::FOLLOWER(f) => role_after matches NodeRole::FOLLOWER(f2) && follower_ticks(f, f2, result),
    }
}

impl NodeHandler for NodeRole {
    fn on_message(&mut self, msg: ReplicationMessage, core: &mut NodeCore) -> (result: Result<
        Option<FrameScan>,
        KvError,
    >)
        ensures
            role_handles(*old(self), *final(self), *old(core), *final(core), msg, result),
    {
        match self {
            NodeRole::FOLLOWER(r) => r.on_message(msg, core),
            NodeRole::LEADER(r) => r.on_message(msg, core),
        }
    }

    fn on_tick(&mut self, core: &mut NodeCore) -> (result: Result<Option<Vec<OutboundEvent>>, KvError>)
        ensures
            role_ticks(*old(self), *final(self), *old(core), *final(core), result),
    {
        match self {
            NodeRole::FOLLOWER(r) => r.on_tick(core),
            NodeRole::LEADER(r) => r.on_tick(core),
        }
    }
}

} // verus!
