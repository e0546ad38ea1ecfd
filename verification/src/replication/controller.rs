//! The controller's failover decision: when the leader fails, the follower
//! that has read furthest becomes the new leader.
use vstd::prelude::*;
use crate::replication::{ControllerMessage, NodeAddr};

verus! {

/// What the controller knows of a follower.
#[derive(Clone, Copy, Debug, PartialEq, Eq)]
pub struct FollowerStatus {
    pub id: u128,
    pub addr: NodeAddr,
    pub last_read_offset: u64,
}

/// `i` is the first follower that has read furthest.
pub open spec fn is_first_furthest(followers: Seq<FollowerStatus>, i: int) -> bool {
    &&& 0 <= i < followers.len()
    &&& forall|j: int| 0 <= j < followers.len() ==> #[trigger] followers[j].last_read_offset
        <= followers[i].last_read_offset
    &&& forall|j: int| 0 <= j < i ==> #[trigger] followers[j].last_read_offset
        < followers[i].last_read_offset
}

/// The follower that has read furthest, the first of them where several
/// have; none when there are no followers.
pub fn choose_new_leader(followers: &[FollowerStatus]) -> (chosen: Option<usize>)
    ensures
        match chosen {
            Some(i) => is_first_furthest(followers@, i as int),
            None => followers@.len() == 0,
        },
{
    if followers.len() == 0 {
        return None;
    }
    let mut best: usize = 0;
    let mut i: usize = 1;
    while i < followers.len()
        invariant
            0 <= best < i <= followers@.len(),
            forall|j: int| 0 <= j < i ==> #[trigger] followers@[j].last_read_offset
                <= followers@[best as int].last_read_offset,
            forall|j: int| 0 <= j < best ==> #[trigger] followers@[j].last_read_offset
                < followers@[best as int].last_read_offset,
        decreases followers@.len() - i,
    {
        if followers[i].last_read_offset > followers[best].last_read_offset {
            best = i;
        }
        i = i + 1;
    }
    Some(best)
}

/// What the controller does with a message.
pub enum ControllerDecision {
    /// Send each message to the follower at its index, in order.
    Send(Vec<(usize, ControllerMessage)>),
    /// The leader failed and no follower is left to take over: stop.
    Stop,
}

/// The messages of a failover to follower `leader`: its promotion, then, to
/// every other follower in order, a demotion that names the new leader.
pub open spec fn failover_messages(followers: Seq<FollowerStatus>, leader: int) -> Seq<(usize, ControllerMessage)> {
    seq![(leader as usize, ControllerMessage::PromoteToLeader)] + Seq::new(
        (followers.len() - 1) as nat,
        |k: int| {
            let j = if k < leader { k } else { k + 1 };
            (
                j as usize,
                ControllerMessage::DemoteToFollower {
                    new_leader_id: followers[leader].id,
                    new_leader_addr: followers[leader].addr,
                },
            )
        },
    )
}

/// The controller's answer to a message: when the leader has failed, promote
/// the follower that has read furthest and demote the others to follow it;
/// stop when there is no follower; ignore every other message.
pub fn decide(followers: &[FollowerStatus], msg: ControllerMessage) -> (decision: ControllerDecision)
    ensures
        match msg {
            ControllerMessage::LeaderFailed { .. } => match decision {
                ControllerDecision::Stop => followers@.len() == 0,
                ControllerDecision::Send(msgs) => exists|i: int| #[trigger] is_first_furthest(followers@, i)
                    && msgs@ == failover_messages(followers@, i),
            },
            _ => decision matches ControllerDecision::Send(msgs) && msgs@.len() == 0,
        },
{
    match msg {
        ControllerMessage::LeaderFailed { leader_id } => {
            let leader = match choose_new_leader(followers) {
                Some(i) => i,
                None => {
                    return ControllerDecision::Stop;
                },
            };
            let mut msgs: Vec<(usize, ControllerMessage)> = Vec::new();
            msgs.push((leader, ControllerMessage::PromoteToLeader));
            let demotion = ControllerMessage::DemoteToFollower {
                new_leader_id: followers[leader].id,
                new_leader_addr: followers[leader].addr,
            };
            let ghost expected = failover_messages(followers@, leader as int);
            let mut j: usize = 0;
            while j < followers.len()
                invariant
                    leader < followers@.len(),
                    j <= followers@.len(),
                    expected == failover_messages(followers@, leader as int),
                    demotion == (ControllerMessage::DemoteToFollower {
                        new_leader_id: followers@[leader as int].id,
                        new_leader_addr: followers@[leader as int].addr,
                    }),
                    msgs@.len() == 1 + (if j <= leader { j as int } else { j - 1 }),
                    forall|k: int| 0 <= k < msgs@.len() ==> #[trigger] msgs@[k] == expected[k],
                decreases followers@.len() - j,
            {
                if j != leader {
                    msgs.push((j, demotion));
                }
                j = j + 1;
            }
            assert(msgs@ =~= expected);
            ControllerDecision::Send(msgs)
        },
        _ => ControllerDecision::Send(Vec::new()),
    }
}

} // verus!

verus! {

/// Some message after the first of `msgs` sends `m` to follower `j`.
pub open spec fn sends_to(msgs: Seq<(usize, ControllerMessage)>, j: int, m: ControllerMessage) -> bool {
    exists|k: int| 1 <= k < msgs.len() && #[trigger] msgs[k] == (j as usize, m)
}

/// A failover reaches every follower: when follower `i` is the first that read
/// furthest, the failover's messages are as many as the followers, the first
/// promotes `i`, and every other follower, however far it has read, is told
/// once to follow `i`.
pub proof fn law_failover_reaches_every_follower(followers: Seq<FollowerStatus>, msgs: Seq<(usize, ControllerMessage)>)
    requires
        followers.len() <= usize::MAX,
        exists|i: int| #[trigger] is_first_furthest(followers, i) && msgs == failover_messages(followers, i),
    ensures
        exists|i: int|
            #[trigger] is_first_furthest(followers, i) && {
                let demotion = ControllerMessage::DemoteToFollower {
                    new_leader_id: followers[i].id,
                    new_leader_addr: followers[i].addr,
                };
                &&& msgs.len() == followers.len()
                &&& msgs[0] == (i as usize, ControllerMessage::PromoteToLeader)
                &&& forall|j: int|
                    0 <= j < followers.len() && j != i ==> #[trigger] sends_to(msgs, j, demotion)
                &&& forall|k: int|
                    1 <= k < msgs.len() ==> (#[trigger] msgs[k]).1 == demotion && msgs[k].0 != i as usize
                        && msgs[k].0 < followers.len()
            },
{
    let i = choose|i: int| #[trigger] is_first_furthest(followers, i) && msgs == failover_messages(followers, i);
    let demotion = ControllerMessage::DemoteToFollower {
        new_leader_id: followers[i].id,
        new_leader_addr: followers[i].addr,
    };
    assert forall|j: int| 0 <= j < followers.len() && j != i implies #[trigger] sends_to(msgs, j, demotion) by {
        let k = if j < i { j + 1 } else { j };
        assert(msgs[k] == (j as usize, demotion));
    }
    assert forall|k: int| 1 <= k < msgs.len() implies (#[trigger] msgs[k]).1 == demotion && msgs[k].0 != i as usize
        && msgs[k].0 < followers.len() by {
        let j = if k - 1 < i { k - 1 } else { k };
        assert(msgs[k] == (j as usize, demotion));
    }
    assert(msgs[0] == (i as usize, ControllerMessage::PromoteToLeader));
    assert(is_first_furthest(followers, i));
}

} // verus!
