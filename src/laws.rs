//! Properties of the protocol that relate several steps or several nodes.
use vstd::prelude::*;
use crate::history::lemma_merge_idempotent;
use crate::message::{Message, MessageType};
use crate::history::zxids_ascending;
use crate::node::{NodeStatus, NodeView, Outgoing, outranks, quorum, stamped};

verus! {

/// A node that starts a campaign takes on the next epoch, and announces
/// exactly that epoch: its epoch goes up by one.
pub proof fn lemma_campaign_raises_epoch(n: NodeView, out: Seq<Outgoing>)
    requires
        n.can_run(),
        n.campaign(out),
    ensures
        n.run().epoch == n.epoch + 1,
        out[0].msg.epoch == n.run().epoch,
{
}

/// A node that follows the sender of a better heartbeat takes on the sender's
/// epoch, which is never below its own.
pub proof fn lemma_follow_takes_leader_epoch(n: NodeView, m: Message, now: u64)
    requires
        m.msg_type == MessageType::Heartbeat,
        n.sender_outranks(m),
    ensures
        n.follow(m, now).epoch == m.epoch,
        m.epoch >= n.epoch,
{
}

/// Leader quality is a strict total order on `(epoch, last zxid, id)`: no
/// candidate outranks itself, of two distinct candidates exactly one outranks
/// the other, and outranking is transitive. Every node therefore agrees on who
/// is the better leader.
pub proof fn lemma_outranks_total_order(a: (int, int, int), b: (int, int, int), c: (int, int, int))
    ensures
        !outranks(a.0, a.1, a.2, a.0, a.1, a.2),
        a != b ==> (outranks(a.0, a.1, a.2, b.0, b.1, b.2) != outranks(b.0, b.1, b.2, a.0, a.1, a.2)),
        outranks(a.0, a.1, a.2, b.0, b.1, b.2) && outranks(b.0, b.1, b.2, c.0, c.1, c.2) ==> outranks(
            a.0,
            a.1,
            a.2,
            c.0,
            c.1,
            c.2,
        ),
{
}

/// A leader applies a transaction only once strictly more than a quorum of
/// distinct other nodes acknowledged its current `(epoch, last zxid)`: the
/// supporters at that moment are such a set, and each of their
/// acknowledgements is on record.
pub proof fn lemma_quorum_gate(n: NodeView, m: Message, now: u64)
    requires
        n.wf(),
        n.status == NodeStatus::Leading,
        n.next(m, now).committed != n.committed,
    ensures
        m.msg_type == MessageType::AckTX,
        n.next(m, now).committed == n.last_zxid(),
        n.supporters.insert(m.sender_id).len() > quorum(n.cluster_size as int),
        forall|s: i32| #[trigger]
            n.supporters.insert(m.sender_id).contains(s) ==> s != n.id && n.next(
                m,
                now,
            ).acks.contains((s as int, n.epoch as int, n.last_zxid())),
{
}

/// The record of acknowledgements grows only by the message being handled, and
/// only when that message is an acknowledgement.
pub proof fn lemma_acks_only_from_messages(n: NodeView, m: Message, now: u64)
    ensures
        n.next(m, now).acks == n.acks || (m.msg_type == MessageType::AckTX && n.next(m, now).acks
            == n.acks.insert((m.sender_id as int, m.epoch as int, m.last_zxid as int))),
{
}

/// Replaying the same `Recovery` twice against a leader leaves its log as the
/// first replay left it: no duplicate entry appears.
pub proof fn lemma_recovery_idempotent(n: NodeView, m: Message, now: u64)
    requires
        n.wf(),
        m.msg_type == MessageType::Recovery,
    ensures
        n.next(m, now).next(m, now).history == n.next(m, now).history,
{
    if n.accepts(m) && n.status == NodeStatus::Leading {
        lemma_merge_idempotent(n.history, m.tx);
    }
}

/// A follower whose log is a prefix of its leader's keeps it a prefix when the
/// leader stamps a client write and the follower handles the resulting
/// proposal.
pub proof fn lemma_write_keeps_prefix(
    leader: NodeView,
    follower: NodeView,
    w: Message,
    out: Seq<Outgoing>,
    now: u64,
)
    requires
        leader.wf(),
        follower.wf(),
        follower.id != leader.id,
        follower.status == NodeStatus::Following,
        follower.leader_id == Some(leader.id),
        follower.history.is_prefix_of(leader.history),
        w.msg_type == MessageType::Write,
        leader.accepts(w),
        leader.stamps_write(w),
        leader.sends(w, out),
    ensures
        follower.next(out[0].msg, now).history.is_prefix_of(leader.next(w, now).history),
{
    let p = out[0].msg;
    let lh = leader.history;
    let fh = follower.history;
    let lh2 = leader.next(w, now).history;
    assert(follower.accepts(p));
    if fh.len() == lh.len() {
        assert(fh =~= lh);
    } else if fh.len() > 0 {
        assert(fh[fh.len() - 1] == lh[fh.len() - 1]);
        assert(lh[fh.len() - 1].zxid < lh[lh.len() - 1].zxid);
    }
    assert(lh2 =~= lh.push(p.tx));
}

/// After a follower asks its leader for a snapshot and takes the answer, its
/// log equals the leader's.
pub proof fn lemma_sync_matches_leader(
    leader: NodeView,
    follower: NodeView,
    request: Message,
    out: Seq<Outgoing>,
    now: u64,
)
    requires
        leader.wf(),
        follower.wf(),
        follower.id != leader.id,
        follower.status == NodeStatus::Following,
        follower.leader_id == Some(leader.id),
        leader.status == NodeStatus::Leading,
        request.msg_type == MessageType::SyncRequest,
        leader.accepts(request),
        request.sender_id == follower.id,
        leader.sends(request, out),
    ensures
        follower.next(out[0].msg, now).history == leader.history,
{
    assert(follower.accepts(out[0].msg));
}

/// Two client writes stamped one after the other by a leader end in its log in
/// that order, the first at the lower zxid; a follower that takes both
/// resulting proposals keeps them in the same order.
pub proof fn lemma_write_order(
    leader: NodeView,
    w1: Message,
    w2: Message,
    out1: Seq<Outgoing>,
    out2: Seq<Outgoing>,
    follower: NodeView,
    now: u64,
)
    requires
        leader.wf(),
        w1.msg_type == MessageType::Write,
        w2.msg_type == MessageType::Write,
        leader.accepts(w1),
        leader.stamps_write(w1),
        leader.sends(w1, out1),
        leader.next(w1, now).accepts(w2),
        leader.next(w1, now).stamps_write(w2),
        leader.next(w1, now).sends(w2, out2),
        follower.wf(),
        follower.id != leader.id,
        follower.status == NodeStatus::Following,
        follower.leader_id == Some(leader.id),
        follower.appends_write(out1[0].msg),
        follower.next(out1[0].msg, now).appends_write(out2[0].msg),
    ensures
        ({
            let h = leader.next(w1, now).next(w2, now).history;
            let z = leader.last_zxid();
            &&& h.len() == leader.history.len() + 2
            &&& h[h.len() - 2] == stamped(w1.tx, z + 1)
            &&& h[h.len() - 1] == stamped(w2.tx, z + 2)
            &&& zxids_ascending(h) ==> h[h.len() - 2].zxid < h[h.len() - 1].zxid
        }),
        ({
            let f = follower.next(out1[0].msg, now).next(out2[0].msg, now).history;
            &&& f.len() >= 2
            &&& f[f.len() - 2] == out1[0].msg.tx
            &&& f[f.len() - 1] == out2[0].msg.tx
            &&& f[f.len() - 2].zxid < f[f.len() - 1].zxid
        }),
{
    let f1 = follower.next(out1[0].msg, now);
    assert(follower.accepts(out1[0].msg));
    assert(f1.accepts(out2[0].msg));
    assert(out2[0].msg.sender_id == leader.id);
    assert(f1.history == follower.history.push(out1[0].msg.tx));
    let f2 = f1.next(out2[0].msg, now);
    assert(f2.history == f1.history.push(out2[0].msg.tx));
}

} // verus!
