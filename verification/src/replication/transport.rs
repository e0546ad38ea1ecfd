//! What a node does with what reaches it, and how messages are framed on the wire.
use vstd::prelude::*;
use vstd::bytes::*;
use vstd::slice::*;
use crate::error::KvError;
use crate::replication::{NodeAddr, NodeCore, ControllerMessage, FollowerRole, HEARTBEAT_TIMEOUT_TICKS, LeaderRole, Node, NodeHandler, NodeRole, OutboundEvent, ReplicationMessage, role_handles, role_ticks};
use crate::wal::frame::FrameScan;

verus! {

/// How a node's role follows a message from the controller: a promotion makes
/// it a leader that knows no follower yet, a demotion a fresh follower of the
/// named leader, whose heartbeat timer starts full; a report of a failed leader is for the controller and changes nothing.
pub open spec fn role_after_control(before: NodeRole, after: NodeRole, msg: ControllerMessage) -> bool {
    match msg {
        ControllerMessage::PromoteToLeader => after matches NodeRole::LEADER(l) && l.replication()
            == Map::<u128, u64>::empty(),
        ControllerMessage::DemoteToFollower { new_leader_id, new_leader_addr } => after matches NodeRole::FOLLOWER(f)
            && f.leader() == (Some(new_leader_id), Some(new_leader_addr)) && f.timer()
            == HEARTBEAT_TIMEOUT_TICKS,
        ControllerMessage::LeaderFailed { .. } => after == before,
    }
}

impl Node {
    /// Handles a message from a peer in the node's role.
    pub fn handle(&mut self, msg: ReplicationMessage) -> (result: Result<Option<FrameScan>, KvError>)
        ensures
            role_handles(old(self).role, final(self).role, old(self).core, final(self).core, msg, result),
    {
        match &mut self.role {
            NodeRole::FOLLOWER(r) => r.on_message(msg, &mut self.core),
            NodeRole::LEADER(r) => r.on_message(msg, &mut self.core),
        }
    }

    /// Runs the periodic work of the node's role.
    pub fn tick(&mut self) -> (result: Result<Option<Vec<OutboundEvent>>, KvError>)
        ensures
            role_ticks(old(self).role, final(self).role, old(self).core, final(self).core, result),
    {
        self.role.on_tick(&mut self.core)
    }

    /// Follows a message from the controller.
    pub fn handle_control(&mut self, msg: ControllerMessage)
        ensures
            role_after_control(old(self).role, final(self).role, msg),
            final(self).core == old(self).core,
    {
        match msg {
            ControllerMessage::PromoteToLeader => {
                self.role = NodeRole::LEADER(LeaderRole::new());
            },
            ControllerMessage::DemoteToFollower { new_leader_addr, new_leader_id } => {
                self.role = NodeRole::FOLLOWER(FollowerRole::new(Some(new_leader_id), Some(new_leader_addr)));
            },
            _ => {},
        }
    }
}

/// The bytes that carry a serialized message between nodes: its length
/// (4 bytes, little endian, kept to its low 32 bits), then the message.
pub open spec fn message_frame(encoded: Seq<u8>) -> Seq<u8> {
    spec_u32_to_le_bytes(encoded.len() as u32) + encoded
}

/// Frames a serialized message for the wire.
pub fn frame_message(encoded: &[u8]) -> (data: Vec<u8>)
    ensures
        data@ == message_frame(encoded@),
{
    let len = #[verifier::truncate] (encoded.len() as u32);
    let mut data = u32_to_le_bytes(len);
    let mut body = slice_to_vec(encoded);
    data.append(&mut body);
    data
}

/// The length of the message that the 4-byte header `header` announces.
pub fn message_len(header: &[u8]) -> (len: usize)
    requires
        header@.len() == 4,
    ensures
        len == spec_u32_from_le_bytes(header@),
{
    u32_from_le_bytes(header) as usize
}

/// A framed message announces its own length in its first four bytes, and
/// the message follows them.
pub proof fn law_message_frame_round_trip(encoded: Seq<u8>)
    requires
        encoded.len() <= u32::MAX,
    ensures
        spec_u32_from_le_bytes(message_frame(encoded).subrange(0, 4)) == encoded.len(),
        message_frame(encoded).subrange(4, 4 + encoded.len() as int) == encoded,
        message_frame(encoded).len() == 4 + encoded.len(),
{
    lemma_auto_spec_u32_to_from_le_bytes();
    let f = message_frame(encoded);
    assert(f.subrange(0, 4) =~= spec_u32_to_le_bytes(encoded.len() as u32));
    assert(f.subrange(4, 4 + encoded.len() as int) =~= encoded);
}

/// A demoted node trusts its new leader for a full timeout: right after a
/// demotion, the node follows the named leader with a full heartbeat timer,
/// and its next tick reports nothing and only counts the timer down.
pub proof fn law_demotion_then_tick_is_quiet(
    before: NodeRole,
    demoted: NodeRole,
    after: NodeRole,
    core: NodeCore,
    core_after: NodeCore,
    new_leader_id: u128,
    new_leader_addr: NodeAddr,
    result: Result<Option<Vec<OutboundEvent>>, KvError>,
)
    requires
        role_after_control(before, demoted, ControllerMessage::DemoteToFollower { new_leader_id, new_leader_addr }),
        role_ticks(demoted, after, core, core_after, result),
    ensures
        demoted matches NodeRole::FOLLOWER(f) && f.leader() == (Some(new_leader_id), Some(new_leader_addr))
            && f.timer() == HEARTBEAT_TIMEOUT_TICKS,
        result matches Ok(None),
        after matches NodeRole::FOLLOWER(f) && f.leader() == (Some(new_leader_id), Some(new_leader_addr))
            && f.timer() == HEARTBEAT_TIMEOUT_TICKS - 1,
        core_after == core,
{
}

} // verus!
