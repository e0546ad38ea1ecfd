//! How a follower handles what the leader sends it, and how it notices that
//! the leader has gone silent.
use vstd::prelude::*;
use crate::error::KvError;
use crate::replication::{ControllerMessage, FollowerRole, HEARTBEAT_TIMEOUT_TICKS, NodeCore, NodeHandler, OutboundEvent, ReplicationMessage};
use crate::store::KvStore;
use crate::wal::{EncodedEntry, Wal, read_result};
use crate::wal::frame::{FrameScan, lemma_scan_new_frame};
use crate::wal::writer::{appended_log, frame_fits};

verus! {

/// Each entry as its logical offset and its serialized form.
pub open spec fn entries_view(es: Seq<EncodedEntry>) -> Seq<(u64, Seq<u8>)> {
    es.map_values(|e: EncodedEntry| (e.entry.offset, e.payload@))
}

/// The node's read offset after appending `es` in order to a log of `bytes`
/// and `index`: the offset of the last entry that was appended, or `start`
/// when none was.
pub open spec fn read_offset_after(
    bytes: Seq<u8>,
    index: Map<u64, u64>,
    es: Seq<(u64, Seq<u8>)>,
    start: u64,
) -> u64
    decreases es.len(),
{
    if es.len() == 0 {
        start
    } else if frame_fits(appended_log(bytes, index, es.drop_last()).0, es.last().1) {
        es.last().0
    } else {
        read_offset_after(bytes, index, es.drop_last(), start)
    }
}

/// The parts of a node that neither its log nor its read offset are stay as they were.
pub open spec fn same_identity_and_data(before: NodeCore, after: NodeCore) -> bool {
    &&& after.id == before.id
    &&& after.addr == before.addr
    &&& after.kv_store.contents() == before.kv_store.contents()
}

/// How a follower handles a message: it appends shipped entries to its log
/// and moves its read offset to the last one appended; a heartbeat restarts
/// its heartbeat timer; it does not handle the leader's messages.
pub open spec fn follower_handles(
    role: FollowerRole,
    role_after: FollowerRole,
    before: NodeCore,
    after: NodeCore,
    msg: ReplicationMessage,
    result: Result<Option<FrameScan>, KvError>,
) -> bool {
    match msg {
        ReplicationMessage::AppendEntries { entries } => {
            let bytes = before.kv_store.log().log_bytes();
            let index = before.kv_store.log().log_index();
            let appended = appended_log(bytes, index, entries_view(entries@));
            &&& role_after == role
            &&& same_identity_and_data(before, after)
            &&& after.kv_store.log().log_bytes() == appended.0
            &&& after.kv_store.log().log_index() == appended.1
            &&& after.last_read_offset == read_offset_after(
                bytes,
                index,
                entries_view(entries@),
                before.last_read_offset,
            )
            &&& result matches Ok(None)
        },
        ReplicationMessage::Heartbeat { .. } => {
            &&& role_after.leader() == role.leader()
            &&& role_after.timer() == HEARTBEAT_TIMEOUT_TICKS
            &&& after == before
            &&& result matches Ok(None)
        },
        _ => {
            &&& role_after == role
            &&& after == before
            &&& result == Err::<Option<FrameScan>, KvError>(KvError::InvalidInput)
        },
    }
}

/// How a follower comes out of a tick: its heartbeat timer counts down; when
/// it runs out, the follower reports its leader, where it knows one, as
/// failed to the controller, and the timer starts over.
pub open spec fn follower_ticks(
    role: FollowerRole,
    role_after: FollowerRole,
    result: Result<Option<Vec<OutboundEvent>>, KvError>,
) -> bool {
    &&& role_after.leader() == role.leader()
    &&& if role.timer() <= 1 {
        &&& role_after.timer() == HEARTBEAT_TIMEOUT_TICKS
        &&& match role.leader().0 {
            Some(l) => result matches Ok(Some(events)) && events@.len() == 1 && (
            events@[0] matches OutboundEvent::ToController(m) && m == (ControllerMessage::LeaderFailed {
                leader_id: l,
            })),
            None => result matches Ok(None),
        }
    } else {
        &&& role_after.timer() == role.timer() - 1
        &&& result matches Ok(None)
    }
}

impl NodeHandler for FollowerRole {
    fn on_message(&mut self, msg: ReplicationMessage, core: &mut NodeCore) -> (result: Result<
        Option<FrameScan>,
        KvError,
    >)
        ensures
            follower_handles(*old(self), *final(self), *old(core), *final(core), msg, result),
    {
        match msg {
            ReplicationMessage::AppendEntries { entries } => {
                let ghost es = entries_view(entries@);
                let ghost start = *core;
                let mut i: usize = 0;
                while i < entries.len()
                    invariant
                        i <= entries@.len(),
                        es == entries_view(entries@),
                        same_identity_and_data(start, *core),
                        ({
                            let bytes = start.kv_store.log().log_bytes();
                            let index = start.kv_store.log().log_index();
                            let done = appended_log(bytes, index, es.subrange(0, i as int));
                            &&& core.kv_store.log().log_bytes() == done.0
                            &&& core.kv_store.log().log_index() == done.1
                            &&& core.last_read_offset == read_offset_after(
                                bytes,
                                index,
                                es.subrange(0, i as int),
                                start.last_read_offset,
                            )
                        }),
                    decreases entries@.len() - i,
                {
                    let entry = &entries[i];
                    let logged = core.kv_store.wal_log().len();
                    let size = entry.payload.len();
                    proof {
                        let prefix = es.subrange(0, i + 1);
                        assert(prefix.drop_last() =~= es.subrange(0, i as int));
                        assert(prefix.last() == (entry.entry.offset, entry.payload@));
                    }
                    if size <= u32::MAX as usize && size <= usize::MAX - 8 && logged <= usize::MAX - 8
                        - size {
                        core.kv_store.append_to_log(entry.entry.offset, entry.payload.as_slice());
                        core.last_read_offset = entry.entry.offset;
                    }
                    i = i + 1;
                }
                assert(es.subrange(0, i as int) =~= es);
                Ok(None)
            },
            ReplicationMessage::Heartbeat { leader_id, leader_offset } => {
                self.reset_timer();
                Ok(None)
            },
            _ => Err(KvError::InvalidInput),
        }
    }

    fn on_tick(&mut self, core: &mut NodeCore) -> (result: Result<Option<Vec<OutboundEvent>>, KvError>)
        ensures
            follower_ticks(*old(self), *final(self), result),
            *final(core) == *old(core),
    {
        if self.count_down() {
            match self.leader_id() {
                Some(l) => Ok(
                    Some(vec![OutboundEvent::ToController(ControllerMessage::LeaderFailed { leader_id: l })]),
                ),
                None => Ok(None),
            }
        } else {
            Ok(None)
        }
    }
}

/// A follower serves what it was sent: once it has appended a batch whose
/// last entry fit the log, reading that entry's offset from its log finds
/// exactly that entry's payload, checksum intact, as the log's last frame,
/// and the follower's read offset is that entry's offset.
pub proof fn law_follower_reads_back_last_entry(
    bytes: Seq<u8>,
    index: Map<u64, u64>,
    es: Seq<(u64, Seq<u8>)>,
    start: u64,
)
    requires
        es.len() > 0,
        frame_fits(appended_log(bytes, index, es.drop_last()).0, es.last().1),
    ensures
        ({
            let before = appended_log(bytes, index, es.drop_last());
            let after = appended_log(bytes, index, es);
            &&& read_result(after.0, after.1, es.last().0) == Ok::<Seq<(int, Seq<u8>)>, KvError>(
                seq![(before.0.len() as int, es.last().1)],
            )
            &&& read_offset_after(bytes, index, es, start) == es.last().0
        }),
{
    let before = appended_log(bytes, index, es.drop_last());
    lemma_scan_new_frame(before.0, es.last().1, true);
}

} // verus!

verus! {

/// A heartbeat changes nothing but the timer: the node's core (identity,
/// address, store and log, read offset) stays exactly as it was, the
/// follower still follows the same leader, and its timer starts over.
pub proof fn law_heartbeat_only_restarts_timer(
    role: FollowerRole,
    role_after: FollowerRole,
    before: NodeCore,
    after: NodeCore,
    leader_id: u128,
    leader_offset: u64,
    result: Result<Option<FrameScan>, KvError>,
)
    requires
        follower_handles(
            role,
            role_after,
            before,
            after,
            ReplicationMessage::Heartbeat { leader_id, leader_offset },
            result,
        ),
    ensures
        after == before,
        after.last_read_offset == before.last_read_offset,
        role_after.leader() == role.leader(),
        role_after.timer() == HEARTBEAT_TIMEOUT_TICKS,
        result matches Ok(None),
{
}

proof fn lemma_read_offset_is_appended(
    bytes: Seq<u8>,
    index: Map<u64, u64>,
    es: Seq<(u64, Seq<u8>)>,
    start: u64,
)
    ensures
        appended_log(bytes, index, es).0.len() >= bytes.len(),
        read_offset_after(bytes, index, es, start) != start ==> {
            let ro = read_offset_after(bytes, index, es, start);
            let ix = appended_log(bytes, index, es).1;
            &&& ix.contains_key(ro)
            &&& ix[ro] >= bytes.len()
            &&& exists|i: int| 0 <= i < es.len() && #[trigger] es[i].0 == ro
        },
    decreases es.len(),
{
    if es.len() > 0 {
        let init = es.drop_last();
        lemma_read_offset_is_appended(bytes, index, init, start);
        if frame_fits(appended_log(bytes, index, init).0, es.last().1) {
            assert(es[es.len() - 1].0 == es.last().0);
        } else if read_offset_after(bytes, index, es, start) != start {
            let i = choose|i: int| 0 <= i < init.len() && #[trigger] init[i].0 == read_offset_after(
                bytes,
                index,
                init,
                start,
            );
            assert(es[i] == init[i]);
        }
    }
}

/// A follower's read offset moves only to an entry it appended: when a
/// message changes it, the message shipped an entry at that offset, and the
/// follower's log now indexes that offset at a frame it wrote while handling
/// the message.
pub proof fn law_read_offset_moves_only_to_appended_entries(
    role: FollowerRole,
    role_after: FollowerRole,
    before: NodeCore,
    after: NodeCore,
    msg: ReplicationMessage,
    result: Result<Option<FrameScan>, KvError>,
)
    requires
        follower_handles(role, role_after, before, after, msg, result),
    ensures
        after.last_read_offset != before.last_read_offset ==> {
            &&& msg is AppendEntries
            &&& exists|i: int|
                0 <= i < msg->entries@.len() && #[trigger] msg->entries@[i].entry.offset == after.last_read_offset
            &&& after.kv_store.log().log_index().contains_key(after.last_read_offset)
            &&& after.kv_store.log().log_index()[after.last_read_offset]
                >= before.kv_store.log().log_bytes().len()
        },
{
    match msg {
        ReplicationMessage::AppendEntries { entries } => {
            let es = entries_view(entries@);
            lemma_read_offset_is_appended(
                before.kv_store.log().log_bytes(),
                before.kv_store.log().log_index(),
                es,
                before.last_read_offset,
            );
            if after.last_read_offset != before.last_read_offset {
                let i = choose|i: int| 0 <= i < es.len() && #[trigger] es[i].0 == after.last_read_offset;
                assert(entries@[i].entry.offset == after.last_read_offset);
            }
        },
        _ => {},
    }
}

} // verus!
