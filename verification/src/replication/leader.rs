//! How the leader answers its followers and what it sends them on each tick.
use vstd::prelude::*;
use crate::error::KvError;
use crate::replication::{LeaderRole, NodeCore, NodeHandler, OutboundEvent, PeerMessage, PeerMessageView, ReplicationMessage, peer_messages_view};
use crate::wal::{Wal, read_result};
use vstd::std_specs::iter::IteratorSpec;
use crate::wal::frame::{FrameScan, ScanStop};
use crate::wal::writer::WalLog;

verus! {

broadcast use vstd::std_specs::hash::group_hash_axioms;

/// What reading logical offset `offset` from `log` gives.
pub open spec fn log_read(log: WalLog, offset: u64) -> Result<Seq<(int, Seq<u8>)>, KvError> {
    read_result(log.log_bytes(), log.log_index(), offset)
}

/// What a tick sends a follower that has acknowledged `written`: a heartbeat,
/// and, when it is behind the leader, the frames of the log from its offset
/// on; a failed read fails the tick.
pub open spec fn messages_for(written: u64, leader_id: u128, leader_offset: u64, log: WalLog) -> Result<
    Seq<PeerMessageView>,
    KvError,
> {
    let beat = PeerMessageView::Heartbeat { leader_id, leader_offset };
    if written < leader_offset {
        match log_read(log, written) {
            Ok(frames) => Ok(seq![beat, PeerMessageView::AppendEntries { entries: frames }]),
            Err(e) => Err(e),
        }
    } else {
        Ok(seq![beat])
    }
}

/// A tick over the followers in `order`: the messages for each, one follower
/// after another, or the first failure among them.
pub open spec fn tick_result(order: Seq<(u128, u64)>, leader_id: u128, leader_offset: u64, log: WalLog) -> Result<
    Seq<PeerMessageView>,
    KvError,
>
    decreases order.len(),
{
    if order.len() == 0 {
        Ok(Seq::empty())
    } else {
        match tick_result(order.drop_last(), leader_id, leader_offset, log) {
            Err(e) => Err(e),
            Ok(sent) => match messages_for(order.last().1, leader_id, leader_offset, log) {
                Ok(more) => Ok(sent + more),
                Err(e) => Err(e),
            },
        }
    }
}

/// `order` lists the pairs of `m`, each once.
pub open spec fn lists_map(order: Seq<(u128, u64)>, m: Map<u128, u64>) -> bool {
    &&& order.no_duplicates()
    &&& order.len() == m.dom().len()
    &&& forall|i: int| 0 <= i < order.len() ==> #[trigger] m.contains_key(order[i].0) && m[order[i].0] == order[i].1
}

/// How the leader handles a message: it answers a fetch with the frames of
/// its log from the fetched entry on, and records a follower's acknowledgement.
pub open spec fn leader_handles(
    before: Map<u128, u64>,
    after: Map<u128, u64>,
    msg: ReplicationMessage,
    log: WalLog,
    result: Result<Option<FrameScan>, KvError>,
) -> bool {
    match msg {
        ReplicationMessage::FetchEntries { from_offset, .. } => {
            &&& after == before
            &&& match log_read(log, from_offset) {
                Err(e) => result == Err::<Option<FrameScan>, KvError>(e),
                Ok(frames) => result matches Ok(Some(s)) && s@.0 == frames && s.stop == ScanStop::End,
            }
        },
        ReplicationMessage::AckOffset { replica_node_id, last_applied_offset } => {
            &&& after == before.insert(replica_node_id, last_applied_offset)
            &&& result matches Ok(None)
        },
        _ => {
            &&& after == before
            &&& result == Err::<Option<FrameScan>, KvError>(KvError::InvalidInput)
        },
    }
}

/// How a leader's tick comes out: for some order of its followers, either
/// the one event that carries all their messages to the peers, or the first
/// failure and nothing else.
pub open spec fn leader_ticks(
    replication: Map<u128, u64>,
    core: NodeCore,
    result: Result<Option<Vec<OutboundEvent>>, KvError>,
) -> bool {
    exists|order: Seq<(u128, u64)>| #[trigger] lists_map(order, replication) && match tick_result(
        order,
        core.id,
        core.last_read_offset,
        core.kv_store.log(),
    ) {
        Ok(sent) => result matches Ok(Some(events)) && events@.len() == 1 && (events@[0] matches OutboundEvent::ToPeers(
            msgs,
        ) && peer_messages_view(msgs@) == sent && batches_whole(msgs@)),
        Err(e) => result == Err::<Option<Vec<OutboundEvent>>, KvError>(e),
    }
}

/// Every batch among `msgs` reached the end of the log cleanly.
pub open spec fn batches_whole(msgs: Seq<PeerMessage>) -> bool {
    forall|i: int|
        0 <= i < msgs.len() ==> (#[trigger] msgs[i] matches PeerMessage::AppendEntries { entries }
            ==> entries.stop == ScanStop::End)
}

impl NodeHandler for LeaderRole {
    fn on_message(&mut self, msg: ReplicationMessage, core: &mut NodeCore) -> (result: Result<
        Option<FrameScan>,
        KvError,
    >)
        ensures
            leader_handles(old(self).replication(), final(self).replication(), msg, old(core).kv_store.log(), result),
            *final(core) == *old(core),
    {
        match msg {
            ReplicationMessage::FetchEntries { replica_node_id, from_offset } => {
                match core.kv_store.wal_log().get_entries(from_offset) {
                    Ok(entries) => Ok(Some(entries)),
                    Err(e) => Err(e),
                }
            },
            ReplicationMessage::AckOffset { replica_node_id, last_applied_offset } => {
                self.replication_map.insert(replica_node_id, last_applied_offset);
                Ok(None)
            },
            _ => Err(KvError::InvalidInput),
        }
    }

    fn on_tick(&mut self, core: &mut NodeCore) -> (result: Result<Option<Vec<OutboundEvent>>, KvError>)
        ensures
            leader_ticks(old(self).replication(), *old(core), result),
            *final(self) == *old(self),
            *final(core) == *old(core),
    {
        let ghost log = core.kv_store.log();
        let mut ret: Vec<PeerMessage> = Vec::new();
        let mut failure: Option<KvError> = None;
        let ghost mut order: Seq<(u128, u64)> = Seq::empty();
        let followers = self.replication_map.iter();
        let ghost listed = followers.remaining();
        assert(listed == vstd::std_specs::hash::spec_hash_map_iter(&self.replication_map).remaining());
        assert(peer_messages_view(ret@) =~= Seq::<PeerMessageView>::empty());
        for pair in it: followers
            invariant
                it.seq() == listed,
                listed.no_duplicates(),
                listed == vstd::std_specs::hash::spec_hash_map_iter(&self.replication_map).remaining(),
                order.len() == it.index(),
                forall|i: int| 0 <= i < it.index() ==> #[trigger] order[i] == (*it.seq()[i].0, *it.seq()[i].1),
                match failure {
                    None => tick_result(order, core.id, core.last_read_offset, log) == Ok::<
                        Seq<PeerMessageView>,
                        KvError,
                    >(peer_messages_view(ret@)),
                    Some(e) => tick_result(order, core.id, core.last_read_offset, log) == Err::<
                        Seq<PeerMessageView>,
                        KvError,
                    >(e),
                },
                log == core.kv_store.log(),
                batches_whole(ret@),
        {
            let (_replica_node_id, last_written_offset) = pair;
            let ghost prev_order = order;
            proof {
                order = order.push((*pair.0, *pair.1));
                assert(order.drop_last() =~= prev_order);
            }
            if failure.is_none() {
                let ghost prev = peer_messages_view(ret@);
                let beat = PeerMessage::Heartbeat { leader_id: core.id, leader_offset: core.last_read_offset };
                let ghost beat_view = beat@;
                if *last_written_offset < core.last_read_offset {
                    match core.kv_store.wal_log().get_entries(*last_written_offset) {
                        Ok(entries) => {
                            ret.push(beat);
                            let batch = PeerMessage::AppendEntries { entries };
                            let ghost batch_view = batch@;
                            ret.push(batch);
                            assert(peer_messages_view(ret@) =~= prev + seq![beat_view, batch_view]);
                        },
                        Err(e) => {
                            failure = Some(e);
                        },
                    }
                } else {
                    ret.push(beat);
                    assert(peer_messages_view(ret@) =~= prev + seq![beat_view]);
                }
            }
        }
        proof {
            let m = self.replication_map@;
            assert(order.len() == listed.len());
            assert forall|i: int, j: int| 0 <= i < order.len() && 0 <= j < order.len() && i != j implies order[i] != order[j] by {
                assert(listed[i] != listed[j]);
            }
            assert forall|i: int| 0 <= i < order.len() implies #[trigger] m.contains_key(order[i].0) && m[order[i].0] == order[i].1 by {
                assert(m.contains_key(*listed[i].0));
            }
            assert(lists_map(order, m));
        }
        match failure {
            Some(e) => Err(e),
            None => Ok(Some(vec![OutboundEvent::ToPeers(ret)])),
        }
    }
}

/// A fresh leader that hears a follower acknowledge an offset behind its own
/// ships that follower, on its next tick, a heartbeat and then the frames of
/// its log from the acknowledged entry on; when that read fails, the tick
/// fails with the read's error and sends nothing.
pub proof fn law_ack_then_tick(
    acks: Map<u128, u64>,
    replica: u128,
    acked: u64,
    core: NodeCore,
    result: Result<Option<Vec<OutboundEvent>>, KvError>,
)
    requires
        acks == Map::<u128, u64>::empty().insert(replica, acked),
        acked < core.last_read_offset,
        leader_ticks(acks, core, result),
    ensures
        ({
            let beat = PeerMessageView::Heartbeat {
                leader_id: core.id,
                leader_offset: core.last_read_offset,
            };
            match log_read(core.kv_store.log(), acked) {
                Ok(frames) => result matches Ok(Some(events)) && events@.len() == 1 && (
                events@[0] matches OutboundEvent::ToPeers(msgs) && peer_messages_view(msgs@) == seq![
                    beat,
                    PeerMessageView::AppendEntries { entries: frames },
                ]),
                Err(e) => result == Err::<Option<Vec<OutboundEvent>>, KvError>(e),
            }
        }),
{
    let log = core.kv_store.log();
    let order = choose|order: Seq<(u128, u64)>| #[trigger] lists_map(order, acks) && match tick_result(
        order,
        core.id,
        core.last_read_offset,
        log,
    ) {
        Ok(sent) => result matches Ok(Some(events)) && events@.len() == 1 && (events@[0] matches OutboundEvent::ToPeers(
            msgs,
        ) && peer_messages_view(msgs@) == sent && batches_whole(msgs@)),
        Err(e) => result == Err::<Option<Vec<OutboundEvent>>, KvError>(e),
    };
    assert(acks.dom() =~= set![replica]);
    assert(acks.dom().len() == 1);
    assert(acks.contains_key(order[0].0));
    assert(order =~= seq![(replica, acked)]);
    assert(order.drop_last() =~= Seq::<(u128, u64)>::empty());
    let beat = PeerMessageView::Heartbeat { leader_id: core.id, leader_offset: core.last_read_offset };
    assert(tick_result(order.drop_last(), core.id, core.last_read_offset, log) == Ok::<
        Seq<PeerMessageView>,
        KvError,
    >(Seq::empty()));
    assert(order.last() == (replica, acked));
    match log_read(log, acked) {
        Ok(frames) => {
            assert(Seq::<PeerMessageView>::empty() + seq![
                beat,
                PeerMessageView::AppendEntries { entries: frames },
            ] =~= seq![beat, PeerMessageView::AppendEntries { entries: frames }]);
        },
        Err(e) => {},
    }
}

/// How many heartbeats `ms` holds.
pub open spec fn heartbeat_count(ms: Seq<PeerMessageView>) -> nat
    decreases ms.len(),
{
    if ms.len() == 0 {
        0
    } else {
        heartbeat_count(ms.drop_last()) + if ms.last() is Heartbeat {
            1nat
        } else {
            0nat
        }
    }
}

/// How many batches of entries `ms` holds.
pub open spec fn batch_count(ms: Seq<PeerMessageView>) -> nat
    decreases ms.len(),
{
    if ms.len() == 0 {
        0
    } else {
        batch_count(ms.drop_last()) + if ms.last() is AppendEntries {
            1nat
        } else {
            0nat
        }
    }
}

/// How many of the followers in `order` have acknowledged less than `leader_offset`.
pub open spec fn behind_count(order: Seq<(u128, u64)>, leader_offset: u64) -> nat
    decreases order.len(),
{
    if order.len() == 0 {
        0
    } else {
        behind_count(order.drop_last(), leader_offset) + if order.last().1 < leader_offset {
            1nat
        } else {
            0nat
        }
    }
}

proof fn lemma_counts_add(a: Seq<PeerMessageView>, b: Seq<PeerMessageView>)
    ensures
        heartbeat_count(a + b) == heartbeat_count(a) + heartbeat_count(b),
        batch_count(a + b) == batch_count(a) + batch_count(b),
    decreases b.len(),
{
    if b.len() > 0 {
        assert((a + b).drop_last() =~= a + b.drop_last());
        lemma_counts_add(a, b.drop_last());
    } else {
        assert(a + b =~= a);
    }
}

proof fn lemma_counts_of_pair(x: PeerMessageView, y: PeerMessageView)
    ensures
        heartbeat_count(seq![x]) == (if x is Heartbeat { 1nat } else { 0nat }),
        batch_count(seq![x]) == (if x is AppendEntries { 1nat } else { 0nat }),
        heartbeat_count(seq![x, y]) == (if x is Heartbeat { 1nat } else { 0nat }) + (if y is Heartbeat { 1nat } else { 0nat }),
        batch_count(seq![x, y]) == (if x is AppendEntries { 1nat } else { 0nat }) + (if y is AppendEntries { 1nat } else { 0nat }),
{
    assert(seq![x].drop_last() =~= Seq::<PeerMessageView>::empty());
    assert(heartbeat_count(Seq::<PeerMessageView>::empty()) == 0);
    assert(batch_count(Seq::<PeerMessageView>::empty()) == 0);
    assert(heartbeat_count(seq![x]) == (if x is Heartbeat { 1nat } else { 0nat }));
    assert(batch_count(seq![x]) == (if x is AppendEntries { 1nat } else { 0nat }));
    assert(seq![x, y].drop_last() =~= seq![x]);
}

/// What a tick over the followers in `order` gives, follower by follower.
proof fn lemma_tick_over_order(order: Seq<(u128, u64)>, leader_id: u128, leader_offset: u64, log: WalLog)
    ensures
        match tick_result(order, leader_id, leader_offset, log) {
            Ok(sent) => {
                &&& heartbeat_count(sent) == order.len()
                &&& batch_count(sent) == behind_count(order, leader_offset)
                &&& sent.len() == heartbeat_count(sent) + batch_count(sent)
                &&& forall|p: int|
                    0 <= p < sent.len() && (#[trigger] sent[p] is Heartbeat) ==> sent[p] == (PeerMessageView::Heartbeat { leader_id, leader_offset })
                &&& forall|p: int|
                    0 <= p < sent.len() ==> (#[trigger] sent[p] matches PeerMessageView::AppendEntries {
                        entries,
                    } ==> exists|i: int|
                        0 <= i < order.len() && order[i].1 < leader_offset && #[trigger] log_read(log, order[i].1)
                            == Ok::<Seq<(int, Seq<u8>)>, KvError>(entries))
            },
            Err(e) => exists|i: int|
                0 <= i < order.len() && order[i].1 < leader_offset && #[trigger] log_read(log, order[i].1)
                    == Err::<Seq<(int, Seq<u8>)>, KvError>(e),
        },
    decreases order.len(),
{
    if order.len() == 0 {
        return;
    }
    let init = order.drop_last();
    lemma_tick_over_order(init, leader_id, leader_offset, log);
    let last = order.last();
    let beat = PeerMessageView::Heartbeat { leader_id, leader_offset };
    match tick_result(init, leader_id, leader_offset, log) {
        Err(e) => {
            let i = choose|i: int|
                0 <= i < init.len() && init[i].1 < leader_offset && #[trigger] log_read(log, init[i].1)
                    == Err::<Seq<(int, Seq<u8>)>, KvError>(e);
            assert(order[i] == init[i]);
        },
        Ok(sent) => {
            match messages_for(last.1, leader_id, leader_offset, log) {
                Err(e) => {
                    assert(order[order.len() - 1] == last);
                    assert(last.1 < leader_offset);
                    assert(log_read(log, order[order.len() - 1].1) == Err::<Seq<(int, Seq<u8>)>, KvError>(e));
                },
                Ok(more) => {
                    let all = sent + more;
                    lemma_counts_add(sent, more);
                    if last.1 < leader_offset {
                        let frames = log_read(log, last.1)->Ok_0;
                        lemma_counts_of_pair(beat, PeerMessageView::AppendEntries { entries: frames });
                        assert(more == seq![beat, PeerMessageView::AppendEntries { entries: frames }]);
                        assert(behind_count(order, leader_offset) == behind_count(init, leader_offset) + 1);
                    } else {
                        lemma_counts_of_pair(beat, beat);
                        assert(more == seq![beat]);
                        assert(behind_count(order, leader_offset) == behind_count(init, leader_offset));
                    }
                    assert(heartbeat_count(all) == order.len());
                    assert(batch_count(all) == behind_count(order, leader_offset));
                    assert(all.len() == heartbeat_count(all) + batch_count(all));
                    assert forall|p: int|
                        0 <= p < all.len() && (#[trigger] all[p] is Heartbeat) implies all[p] == beat by {
                        if p >= sent.len() {
                            assert(all[p] == more[p - sent.len()]);
                        } else {
                            assert(all[p] == sent[p]);
                        }
                    }
                    assert forall|p: int|
                        0 <= p < all.len() implies (#[trigger] all[p] matches PeerMessageView::AppendEntries {
                            entries,
                        } ==> exists|i: int|
                            0 <= i < order.len() && order[i].1 < leader_offset && #[trigger] log_read(log, order[i].1)
                                == Ok::<Seq<(int, Seq<u8>)>, KvError>(entries)) by {
                        if p >= sent.len() {
                            assert(all[p] == more[p - sent.len()]);
                            assert(order[order.len() - 1] == last);
                        } else {
                            assert(all[p] == sent[p]);
                            match all[p] {
                                PeerMessageView::AppendEntries { entries } => {
                                    let i = choose|i: int|
                                        0 <= i < init.len() && init[i].1 < leader_offset && #[trigger] log_read(log, init[i].1)
                                            == Ok::<Seq<(int, Seq<u8>)>, KvError>(entries);
                                    assert(order[i] == init[i]);
                                },
                                _ => {},
                            }
                        }
                    }
                },
            }
        },
    }
}

/// A tick reaches every follower: when it goes through, its messages hold one
/// heartbeat from this leader per follower and one batch per follower that is
/// behind, each batch the frames of the log from some lagging follower's
/// acknowledged offset on, and nothing else; when it fails, the failure is
/// that of reading the log from some lagging follower's offset.
pub proof fn law_tick_reaches_every_follower(
    acks: Map<u128, u64>,
    core: NodeCore,
    result: Result<Option<Vec<OutboundEvent>>, KvError>,
)
    requires
        leader_ticks(acks, core, result),
    ensures
        ({
            let log = core.kv_store.log();
            let offset = core.last_read_offset;
            match result {
                Ok(Some(events)) => events@.len() == 1 && (events@[0] matches OutboundEvent::ToPeers(msgs)
                    && exists|order: Seq<(u128, u64)>| #[trigger] lists_map(order, acks) && {
                    let sent = peer_messages_view(msgs@);
                    &&& heartbeat_count(sent) == acks.dom().len()
                    &&& batch_count(sent) == behind_count(order, offset)
                    &&& sent.len() == heartbeat_count(sent) + batch_count(sent)
                    &&& forall|p: int|
                        0 <= p < sent.len() && (#[trigger] sent[p] is Heartbeat) ==> sent[p] == (PeerMessageView::Heartbeat {
                            leader_id: core.id,
                            leader_offset: offset,
                        })
                    &&& forall|p: int|
                        0 <= p < sent.len() ==> (#[trigger] sent[p] matches PeerMessageView::AppendEntries {
                            entries,
                        } ==> exists|r: u128|
                            acks.contains_key(r) && acks[r] < offset && #[trigger] log_read(log, acks[r])
                                == Ok::<Seq<(int, Seq<u8>)>, KvError>(entries))
                }),
                Ok(None) => false,
                Err(e) => exists|r: u128|
                    acks.contains_key(r) && acks[r] < offset && #[trigger] log_read(log, acks[r]) == Err::<
                        Seq<(int, Seq<u8>)>,
                        KvError,
                    >(e),
            }
        }),
{
    let log = core.kv_store.log();
    let offset = core.last_read_offset;
    let order = choose|order: Seq<(u128, u64)>| #[trigger] lists_map(order, acks) && match tick_result(
        order,
        core.id,
        offset,
        log,
    ) {
        Ok(sent) => result matches Ok(Some(events)) && events@.len() == 1 && (events@[0] matches OutboundEvent::ToPeers(
            msgs,
        ) && peer_messages_view(msgs@) == sent && batches_whole(msgs@)),
        Err(e) => result == Err::<Option<Vec<OutboundEvent>>, KvError>(e),
    };
    lemma_tick_over_order(order, core.id, offset, log);
    match tick_result(order, core.id, offset, log) {
        Ok(sent) => {
            assert forall|p: int|
                0 <= p < sent.len() implies (#[trigger] sent[p] matches PeerMessageView::AppendEntries {
                    entries,
                } ==> exists|r: u128|
                    acks.contains_key(r) && acks[r] < offset && #[trigger] log_read(log, acks[r])
                        == Ok::<Seq<(int, Seq<u8>)>, KvError>(entries)) by {
                match sent[p] {
                    PeerMessageView::AppendEntries { entries } => {
                        let i = choose|i: int|
                            0 <= i < order.len() && order[i].1 < offset && #[trigger] log_read(log, order[i].1)
                                == Ok::<Seq<(int, Seq<u8>)>, KvError>(entries);
                        assert(acks.contains_key(order[i].0));
                    },
                    _ => {},
                }
            }
        },
        Err(e) => {
            let i = choose|i: int|
                0 <= i < order.len() && order[i].1 < offset && #[trigger] log_read(log, order[i].1)
                    == Err::<Seq<(int, Seq<u8>)>, KvError>(e);
            assert(acks.contains_key(order[i].0));
        },
    }
}

/// The leader keeps the latest acknowledgement: after it handles
/// `AckOffset{replica, offset}`, it records `offset` for `replica`, whatever it
/// held before, and every other follower keeps what it had.
pub proof fn law_ack_records_offset(
    before: Map<u128, u64>,
    after: Map<u128, u64>,
    replica: u128,
    offset: u64,
    log: WalLog,
    result: Result<Option<FrameScan>, KvError>,
    other: u128,
)
    requires
        leader_handles(
            before,
            after,
            ReplicationMessage::AckOffset { replica_node_id: replica, last_applied_offset: offset },
            log,
            result,
        ),
    ensures
        result matches Ok(None),
        after.contains_key(replica),
        after[replica] == offset,
        other != replica ==> after.contains_key(other) == before.contains_key(other),
        other != replica && before.contains_key(other) ==> after[other] == before[other],
{
}

/// Two acknowledgements from one follower: the later one is what the leader
/// keeps.
pub proof fn law_later_ack_wins(
    m0: Map<u128, u64>,
    m1: Map<u128, u64>,
    m2: Map<u128, u64>,
    replica: u128,
    first: u64,
    second: u64,
    log: WalLog,
    r1: Result<Option<FrameScan>, KvError>,
    r2: Result<Option<FrameScan>, KvError>,
)
    requires
        leader_handles(
            m0,
            m1,
            ReplicationMessage::AckOffset { replica_node_id: replica, last_applied_offset: first },
            log,
            r1,
        ),
        leader_handles(
            m1,
            m2,
            ReplicationMessage::AckOffset { replica_node_id: replica, last_applied_offset: second },
            log,
            r2,
        ),
    ensures
        m2.contains_key(replica),
        m2[replica] == second,
{
}

} // verus!
