//! The node state machine: one role, one epoch, one log, and the rules by which
//! a node reacts to each message and timer event.
use vstd::prelude::*;
use std::collections::HashSet;
use crate::history::{
    is_ascending, last_zxid, last_zxid_of, merge_recovered, merge_recovered_tx, zxids_ascending,
    lemma_merge_keeps_order, lemma_push_keeps_order,
};
use crate::message::{Message, MessageType, Transaction, TxActions, BROADCAST_ID};

verus! {

broadcast use vstd::std_specs::hash::group_hash_axioms;

/// A follower that heard nothing from its leader for longer than this runs for
/// election.
pub const HEARTBEAT_TIMEOUT_MS: u64 = 5000;

/// How long a new follower waits after replaying its log before it asks the
/// leader for a snapshot.
pub const DISCOVERY_PAUSE_MS: u64 = 2000;

/// The role a node currently plays.
#[derive(Clone, Copy, Debug, PartialEq, Eq, Structural)]
pub enum NodeStatus {
    Following,
    Leading,
    Running,
}

/// A message that a node wants sent, after waiting `pause_ms` milliseconds.
#[derive(Debug)]
pub struct Outgoing {
    pub pause_ms: u64,
    pub msg: Message,
}

/// The state of one cluster member.
pub struct Node {
    pub id: i32,
    pub status: NodeStatus,
    pub leader_id: Option<i32>,
    pub epoch: i32,
    pub history: Vec<Transaction>,
    pub cluster_size: i32,
    /// When the node last heard from its leader, or began waiting for one (ms).
    pub last_alive_from_leader: u64,
    /// Nodes that endorsed the current candidacy, or that acknowledged the
    /// leader's current log tail.
    pub supporting_nodes: HashSet<i32>,
    /// The zxid of the last transaction that this node applied.
    pub committed_zxid: i32,
    /// Every matching acknowledgement `(sender, epoch, zxid)` received as leader.
    pub acks: Ghost<Set<(int, int, int)>>,
}

/// The abstract state of a node.
pub struct NodeView {
    pub id: i32,
    pub status: NodeStatus,
    pub leader_id: Option<i32>,
    pub epoch: i32,
    pub history: Seq<Transaction>,
    pub cluster_size: i32,
    pub last_alive: u64,
    pub supporters: Set<i32>,
    pub committed: i32,
    pub acks: Set<(int, int, int)>,
}

impl View for Node {
    type V = NodeView;

    open spec fn view(&self) -> NodeView {
        NodeView {
            id: self.id,
            status: self.status,
            leader_id: self.leader_id,
            epoch: self.epoch,
            history: self.history@,
            cluster_size: self.cluster_size,
            last_alive: self.last_alive_from_leader,
            supporters: self.supporting_nodes@,
            committed: self.committed_zxid,
            acks: self.acks@,
        }
    }
}

/// A strict majority threshold: a decision needs strictly more supporters.
pub open spec fn quorum(cluster_size: int) -> int {
    (cluster_size + 1) / 2
}

/// The cluster-wide total order on leader candidates: higher epoch first, then
/// higher last zxid, then higher id.
pub open spec fn outranks(c_epoch: int, c_zxid: int, c_id: int, epoch: int, zxid: int, id: int) -> bool {
    ||| c_epoch > epoch
    ||| (c_epoch == epoch && c_zxid > zxid)
    ||| (c_epoch == epoch && c_zxid == zxid && c_id > id)
}

/// A blank transaction, as `Transaction::new` makes it.
pub open spec fn is_blank(t: Transaction) -> bool {
    &&& t.zxid == -1
    &&& t.action == TxActions::NA
    &&& t.key@ == Seq::<char>::empty()
    &&& t.val@ == Seq::<char>::empty()
}

/// `t` with its zxid replaced by `z`.
pub open spec fn stamped(t: Transaction, z: int) -> Transaction {
    Transaction { zxid: z as i32, ..t }
}

/// The outgoing message has these header fields.
pub open spec fn is_msg(
    o: Outgoing,
    pause: u64,
    msg_type: MessageType,
    sender: i32,
    receiver: i32,
    epoch: int,
    last_zxid: int,
) -> bool {
    &&& o.pause_ms == pause
    &&& o.msg.msg_type == msg_type
    &&& o.msg.sender_id == sender
    &&& o.msg.receiver_id == receiver
    &&& o.msg.epoch == epoch
    &&& o.msg.last_zxid == last_zxid
}

/// The outgoing message carries no transaction and no log.
pub open spec fn is_bare(o: Outgoing) -> bool {
    is_blank(o.msg.tx) && o.msg.history@.len() == 0
}

/// The outgoing message has these header fields and no payload.
pub open spec fn is_bare_msg(
    o: Outgoing,
    pause: u64,
    msg_type: MessageType,
    sender: i32,
    receiver: i32,
    epoch: int,
    last_zxid: int,
) -> bool {
    is_msg(o, pause, msg_type, sender, receiver, epoch, last_zxid) && is_bare(o)
}

impl NodeView {
    pub open spec fn last_zxid(self) -> int {
        last_zxid_of(self.history)
    }

    /// The cluster has a member, the log is ordered, and a leader's supporters
    /// are only nodes other than itself that acknowledged its current
    /// `(epoch, last zxid)`.
    pub open spec fn wf(self) -> bool {
        &&& self.cluster_size >= 1
        &&& zxids_ascending(self.history)
        &&& self.status == NodeStatus::Leading ==> forall|s: i32| #[trigger]
            self.supporters.contains(s) ==> s != self.id && self.acks.contains(
            (s as int, self.epoch as int, self.last_zxid()),
        )
    }

    /// Messages sent by this node, or addressed to another node, are ignored.
    pub open spec fn accepts(self, m: Message) -> bool {
        &&& m.sender_id != self.id
        &&& (m.receiver_id == BROADCAST_ID || m.receiver_id == self.id)
    }

    /// The sender of `m` is a better leader than this node; the epoch of a
    /// candidacy counts one higher than the one it carries.
    pub open spec fn sender_outranks(self, m: Message) -> bool {
        let c_epoch = if m.msg_type == MessageType::Running {
            m.epoch + 1
        } else {
            m.epoch as int
        };
        outranks(c_epoch, m.last_zxid as int, m.sender_id as int, self.epoch as int, self.last_zxid(), self.id as int)
    }

    /// The epoch can still grow by one.
    pub open spec fn can_run(self) -> bool {
        self.epoch < i32::MAX
    }

    pub open spec fn raise_epoch(self, e: i32) -> NodeView {
        NodeView { epoch: if e > self.epoch { e } else { self.epoch }, ..self }
    }

    pub open spec fn give_up(self, now: u64) -> NodeView {
        NodeView {
            status: NodeStatus::Following,
            leader_id: None,
            last_alive: now,
            supporters: Set::empty(),
            ..self
        }
    }

    pub open spec fn follow(self, m: Message, now: u64) -> NodeView {
        NodeView {
            status: NodeStatus::Following,
            leader_id: Some(m.sender_id),
            last_alive: now,
            epoch: m.epoch,
            supporters: Set::empty(),
            ..self
        }
    }

    /// A campaign for the next epoch, which the node takes on at once.
    pub open spec fn run(self) -> NodeView {
        NodeView {
            status: NodeStatus::Running,
            leader_id: None,
            epoch: (self.epoch + 1) as i32,
            supporters: Set::empty().insert(self.id),
            ..self
        }
    }

    pub open spec fn timed_out(self, now: u64) -> bool {
        self.leader_id is None || now as int - self.last_alive as int > HEARTBEAT_TIMEOUT_MS as int
    }

    pub open spec fn after_commit(self, m: Message) -> NodeView {
        if self.status == NodeStatus::Following && self.leader_id == Some(m.sender_id) && m.epoch
            == self.epoch && m.last_zxid == self.last_zxid() {
            NodeView { committed: self.last_zxid() as i32, ..self }
        } else {
            self
        }
    }

    pub open spec fn ack_matches(self, m: Message) -> bool {
        self.status == NodeStatus::Leading && m.epoch == self.epoch && m.last_zxid == self.last_zxid()
    }

    /// A matching acknowledgement gives the leader a quorum.
    pub open spec fn ack_commits(self, m: Message) -> bool {
        self.ack_matches(m) && self.supporters.insert(m.sender_id).len() > quorum(
            self.cluster_size as int,
        )
    }

    pub open spec fn after_ack(self, m: Message) -> NodeView {
        if self.ack_matches(m) {
            let acks = self.acks.insert((m.sender_id as int, m.epoch as int, m.last_zxid as int));
            if self.ack_commits(m) {
                NodeView {
                    committed: self.last_zxid() as i32,
                    supporters: Set::empty(),
                    acks,
                    ..self
                }
            } else {
                NodeView { supporters: self.supporters.insert(m.sender_id), acks, ..self }
            }
        } else {
            self
        }
    }

    /// A leader takes a client write (from a reserved, negative id) while its
    /// zxids are not exhausted.
    pub open spec fn stamps_write(self, m: Message) -> bool {
        self.status == NodeStatus::Leading && m.sender_id < 0 && self.last_zxid() < i32::MAX
    }

    /// A follower takes a proposal of its leader that carries the next zxid.
    pub open spec fn appends_write(self, m: Message) -> bool {
        &&& self.status == NodeStatus::Following
        &&& self.leader_id == Some(m.sender_id)
        &&& m.tx.zxid == self.last_zxid() + 1
    }

    pub open spec fn after_write(self, m: Message) -> NodeView {
        if self.stamps_write(m) {
            NodeView {
                history: self.history.push(stamped(m.tx, self.last_zxid() + 1)),
                supporters: Set::empty(),
                ..self
            }
        } else if self.appends_write(m) {
            NodeView { history: self.history.push(m.tx), ..self }
        } else {
            self
        }
    }

    pub open spec fn takes_sync(self, m: Message) -> bool {
        &&& self.status == NodeStatus::Following
        &&& self.leader_id == Some(m.sender_id)
        &&& zxids_ascending(m.history@)
    }

    pub open spec fn after_sync(self, m: Message) -> NodeView {
        if self.takes_sync(m) {
            NodeView { history: m.history@, ..self }
        } else {
            self
        }
    }

    pub open spec fn after_recovery(self, m: Message) -> NodeView {
        if self.status == NodeStatus::Leading {
            NodeView {
                history: merge_recovered(self.history, m.tx),
                supporters: if self.history.len() == 0 {
                    Set::empty()
                } else {
                    self.supporters
                },
                ..self
            }
        } else {
            self
        }
    }

    /// A heartbeat makes this node start following its sender.
    pub open spec fn heartbeat_follows(self, m: Message) -> bool {
        ||| (self.status == NodeStatus::Following && self.leader_id is None && self.sender_outranks(m))
        ||| (self.status == NodeStatus::Leading && self.sender_outranks(m))
    }

    pub open spec fn after_heartbeat(self, m: Message, now: u64) -> NodeView {
        if self.heartbeat_follows(m) {
            self.follow(m, now)
        } else if self.status == NodeStatus::Following && self.leader_id is None {
            self.raise_epoch(m.epoch)
        } else if self.status == NodeStatus::Following && self.leader_id == Some(m.sender_id) {
            NodeView { last_alive: now, ..self.raise_epoch(m.epoch) }
        } else if self.status == NodeStatus::Running && self.sender_outranks(m) {
            self.give_up(now)
        } else {
            self
        }
    }

    /// An approval completes a strict majority for this candidate.
    pub open spec fn approve_wins(self, m: Message) -> bool {
        &&& self.status == NodeStatus::Running
        &&& self.supporters.insert(m.sender_id).len() > quorum(self.cluster_size as int)
    }

    pub open spec fn after_approve(self, m: Message) -> NodeView {
        if self.approve_wins(m) {
            NodeView {
                status: NodeStatus::Leading,
                leader_id: None,
                supporters: Set::empty(),
                ..self
            }
        } else if self.status == NodeStatus::Running {
            NodeView { supporters: self.supporters.insert(m.sender_id), ..self }
        } else {
            self
        }
    }

    pub open spec fn after_reject(self, m: Message, now: u64) -> NodeView {
        if self.status == NodeStatus::Running {
            if self.sender_outranks(m) {
                self.give_up(now)
            } else {
                self.raise_epoch(m.epoch)
            }
        } else {
            self
        }
    }

    /// The state after handling message `m` at time `now`.
    pub open spec fn next(self, m: Message, now: u64) -> NodeView {
        if !self.accepts(m) {
            self
        } else {
            match m.msg_type {
                MessageType::Commit => self.after_commit(m),
                MessageType::AckTX => self.after_ack(m),
                MessageType::Write => self.after_write(m),
                MessageType::Sync => self.after_sync(m),
                MessageType::Recovery => self.after_recovery(m),
                MessageType::Heartbeat => self.after_heartbeat(m, now),
                MessageType::Approve => self.after_approve(m),
                MessageType::Reject => self.after_reject(m, now),
                _ => self,
            }
        }
    }

    /// The announcement that starts a campaign: it carries the epoch that the
    /// node takes on, one above its current one.
    pub open spec fn campaign(self, out: Seq<Outgoing>) -> bool {
        &&& out.len() == 1
        &&& is_bare_msg(
            out[0],
            0,
            MessageType::Running,
            self.id,
            BROADCAST_ID,
            self.epoch + 1,
            self.last_zxid(),
        )
    }

    /// The discovery handshake with a new leader: every entry of the log is
    /// replayed as a `Recovery`, then, after a pause, a snapshot is requested.
    pub open spec fn discovery(self, leader: i32, out: Seq<Outgoing>) -> bool {
        let n = self.history.len() as int;
        &&& out.len() == n + 1
        &&& forall|k: int|
            0 <= k < n ==> {
                &&& is_msg(#[trigger] out[k], 0, MessageType::Recovery, self.id, leader, 0, 0)
                &&& out[k].msg.tx == self.history[k]
                &&& out[k].msg.history@.len() == 0
            }
        &&& is_bare_msg(out[n], DISCOVERY_PAUSE_MS, MessageType::SyncRequest, self.id, leader, 0, 0)
    }

    /// The messages sent while handling `m`.
    pub open spec fn sends(self, m: Message, out: Seq<Outgoing>) -> bool {
        if !self.accepts(m) {
            out.len() == 0
        } else {
            match m.msg_type {
                MessageType::AckTX => if self.ack_commits(m) {
                    out.len() == 1 && is_bare_msg(
                        out[0],
                        0,
                        MessageType::Commit,
                        self.id,
                        BROADCAST_ID,
                        self.epoch as int,
                        self.last_zxid(),
                    )
                } else {
                    out.len() == 0
                },
                MessageType::Write => if self.stamps_write(m) {
                    &&& out.len() == 1
                    &&& is_msg(
                        out[0],
                        0,
                        MessageType::Write,
                        self.id,
                        BROADCAST_ID,
                        self.epoch as int,
                        self.last_zxid() + 1,
                    )
                    &&& out[0].msg.tx == stamped(m.tx, self.last_zxid() + 1)
                    &&& out[0].msg.history@.len() == 0
                } else if self.appends_write(m) {
                    out.len() == 1 && is_bare_msg(
                        out[0],
                        0,
                        MessageType::AckTX,
                        self.id,
                        m.sender_id,
                        m.epoch as int,
                        m.tx.zxid as int,
                    )
                } else {
                    out.len() == 0
                },
                MessageType::SyncRequest => if self.status == NodeStatus::Leading {
                    &&& out.len() == 1
                    &&& is_msg(
                        out[0],
                        0,
                        MessageType::Sync,
                        self.id,
                        m.sender_id,
                        self.epoch as int,
                        self.last_zxid(),
                    )
                    &&& is_blank(out[0].msg.tx)
                    &&& out[0].msg.history@ == self.history
                } else {
                    out.len() == 0
                },
                MessageType::Heartbeat => if self.heartbeat_follows(m) {
                    self.discovery(m.sender_id, out)
                } else {
                    out.len() == 0
                },
                MessageType::Running => out.len() == 1 && is_bare_msg(
                    out[0],
                    0,
                    if self.sender_outranks(m) {
                        MessageType::Approve
                    } else {
                        MessageType::Reject
                    },
                    self.id,
                    m.sender_id,
                    m.epoch as int,
                    self.last_zxid(),
                ),
                _ => out.len() == 0,
            }
        }
    }
}


/// No node's epoch ever decreases: handling any message leaves it equal or
/// higher.
pub proof fn lemma_epoch_never_decreases(n: NodeView, m: Message, now: u64)
    ensures
        n.next(m, now).epoch >= n.epoch,
{
}

impl Node {
    pub open spec fn wf(&self) -> bool {
        self@.wf()
    }

    /// The state of a fresh node.
    pub open spec fn new_view(id: i32, cluster_size: i32, now: u64) -> NodeView {
        NodeView {
            id,
            status: NodeStatus::Following,
            leader_id: None,
            epoch: 0,
            history: Seq::empty(),
            cluster_size,
            last_alive: now,
            supporters: Set::empty(),
            committed: 0,
            acks: Set::empty(),
        }
    }

    /// A fresh follower with no leader, epoch 0 and an empty log.
    pub fn new(id: i32, cluster_size: i32, now: u64) -> (r: Node)
        requires
            cluster_size >= 1,
        ensures
            r@ == Node::new_view(id, cluster_size, now),
            r.wf(),
    {
        Node {
            id,
            status: NodeStatus::Following,
            leader_id: None,
            epoch: 0,
            history: Vec::new(),
            cluster_size,
            last_alive_from_leader: now,
            supporting_nodes: HashSet::new(),
            committed_zxid: 0,
            acks: Ghost(Set::empty()),
        }
    }

    /// The zxid of the newest entry of the log, or 0.
    pub fn last_zxid(&self) -> (r: i32)
        ensures
            r as int == self@.last_zxid(),
    {
        last_zxid(&self.history)
    }

    /// Whether the sender of `msg` is a better leader than this node.
    pub fn sender_is_better_leader(&self, msg: &Message) -> (r: bool)
        ensures
            r == self@.sender_outranks(*msg),
    {
        let zxid = self.last_zxid() as i64;
        let epoch = self.epoch as i64;
        let mut c_epoch = msg.epoch as i64;
        if msg.msg_type == MessageType::Running {
            c_epoch = c_epoch + 1;
        }
        let c_zxid = msg.last_zxid as i64;
        if c_epoch != epoch {
            return c_epoch > epoch;
        }
        if c_zxid != zxid {
            return c_zxid > zxid;
        }
        msg.sender_id > self.id
    }

    /// Whether a count of supporters is a strict majority of the cluster.
    fn has_quorum(&self, count: usize) -> (r: bool)
        requires
            self.cluster_size >= 1,
        ensures
            r == (count as int > quorum(self.cluster_size as int)),
    {
        count as i128 > (self.cluster_size as i128 + 1) / 2
    }

    /// Applies the newest entry of the log.
    pub fn execute_tx(&mut self)
        ensures
            final(self)@ == (NodeView { committed: old(self)@.last_zxid() as i32, ..old(self)@ }),
    {
        self.committed_zxid = self.last_zxid();
    }

    /// Leaves a campaign or a leadership: back to a leaderless follower.
    fn give_up_election(&mut self, now: u64)
        requires
            old(self).wf(),
        ensures
            final(self)@ == old(self)@.give_up(now),
            final(self).wf(),
    {
        self.status = NodeStatus::Following;
        self.leader_id = None;
        self.last_alive_from_leader = now;
        self.supporting_nodes = HashSet::new();
    }

    /// Starts following the sender of `msg`, and replays the log to it before
    /// asking it for a snapshot.
    fn follow_and_discovery(&mut self, msg: &Message, now: u64) -> (out: Vec<Outgoing>)
        requires
            old(self).wf(),
        ensures
            final(self)@ == old(self)@.follow(*msg, now),
            old(self)@.discovery(msg.sender_id, out@),
            final(self).wf(),
    {
        self.leader_id = Some(msg.sender_id);
        self.last_alive_from_leader = now;
        self.status = NodeStatus::Following;
        self.epoch = msg.epoch;
        self.supporting_nodes = HashSet::new();
        let mut out: Vec<Outgoing> = Vec::new();
        let mut i: usize = 0;
        while i < self.history.len()
            invariant
                self@ == old(self)@.follow(*msg, now),
                0 <= i <= self.history.len(),
                out@.len() == i,
                forall|k: int|
                    0 <= k < i ==> {
                        &&& is_msg(
                            #[trigger] out@[k],
                            0,
                            MessageType::Recovery,
                            self.id,
                            msg.sender_id,
                            0,
                            0,
                        )
                        &&& out@[k].msg.tx == self.history@[k]
                        &&& out@[k].msg.history@.len() == 0
                    },
            decreases self.history.len() - i,
        {
            let mut m = Message::new(self.id, MessageType::Recovery);
            m.receiver_id = msg.sender_id;
            m.tx = self.history[i].clone();
            out.push(Outgoing { pause_ms: 0, msg: m });
            i = i + 1;
        }
        let mut request = Message::new(self.id, MessageType::SyncRequest);
        request.receiver_id = msg.sender_id;
        out.push(Outgoing { pause_ms: DISCOVERY_PAUSE_MS, msg: request });
        out
    }

    /// Becomes a candidate for the next epoch and announces it.
    fn starts_running(&mut self) -> (out: Vec<Outgoing>)
        requires
            old(self).wf(),
            old(self)@.can_run(),
        ensures
            final(self)@ == old(self)@.run(),
            old(self)@.campaign(out@),
            final(self).wf(),
    {
        self.status = NodeStatus::Running;
        self.leader_id = None;
        self.epoch = self.epoch + 1;
        self.supporting_nodes = HashSet::new();
        self.supporting_nodes.insert(self.id);
        assert(self.supporting_nodes@ =~= Set::empty().insert(self.id));
        let mut campaign = Message::new(self.id, MessageType::Running);
        campaign.last_zxid = self.last_zxid();
        campaign.epoch = self.epoch;
        let mut out: Vec<Outgoing> = Vec::new();
        out.push(Outgoing { pause_ms: 0, msg: campaign });
        out
    }

    /// The periodic heartbeat: a leader announces its epoch and last zxid.
    pub fn heartbeat(&self) -> (out: Vec<Outgoing>)
        ensures
            self.status == NodeStatus::Leading ==> out@.len() == 1 && is_bare_msg(
                out@[0],
                0,
                MessageType::Heartbeat,
                self.id,
                BROADCAST_ID,
                self.epoch as int,
                self@.last_zxid(),
            ),
            self.status != NodeStatus::Leading ==> out@.len() == 0,
    {
        let mut out: Vec<Outgoing> = Vec::new();
        if self.status == NodeStatus::Leading {
            let mut beat = Message::new(self.id, MessageType::Heartbeat);
            beat.last_zxid = self.last_zxid();
            beat.epoch = self.epoch;
            out.push(Outgoing { pause_ms: 0, msg: beat });
        }
        out
    }

    /// The periodic failure check: a follower without a leader, or whose leader
    /// has been silent for too long, runs for election.
    pub fn monitor(&mut self, now: u64) -> (out: Vec<Outgoing>)
        requires
            old(self).wf(),
        ensures
            final(self).wf(),
            old(self).status == NodeStatus::Following && old(self)@.timed_out(now)
                && old(self)@.can_run() ==> final(self)@ == old(self)@.run() && old(self)@.campaign(
                out@,
            ),
            !(old(self).status == NodeStatus::Following && old(self)@.timed_out(now)
                && old(self)@.can_run()) ==> final(self)@ == old(self)@ && out@.len() == 0,
    {
        let silent = now > self.last_alive_from_leader && now - self.last_alive_from_leader
            > HEARTBEAT_TIMEOUT_MS;
        if self.status == NodeStatus::Following && (self.leader_id.is_none() || silent)
            && self.epoch < i32::MAX {
            self.starts_running()
        } else {
            Vec::new()
        }
    }

    /// Whether `id` is the recognized leader.
    fn led_by(&self, id: i32) -> (r: bool)
        ensures
            r == (self.leader_id == Some(id)),
    {
        match self.leader_id {
            Some(l) => l == id,
            None => false,
        }
    }

    fn on_commit(&mut self, msg: &Message)
        requires
            old(self).wf(),
            old(self)@.accepts(*msg),
            msg.msg_type == MessageType::Commit,
        ensures
            final(self)@ == old(self)@.next(*msg, 0),
            final(self).wf(),
    {
        if self.status == NodeStatus::Following && self.led_by(msg.sender_id) && msg.epoch
            == self.epoch && msg.last_zxid == self.last_zxid() {
            self.execute_tx();
        }
    }

    fn on_ack(&mut self, msg: &Message) -> (out: Vec<Outgoing>)
        requires
            old(self).wf(),
            old(self)@.accepts(*msg),
            msg.msg_type == MessageType::AckTX,
        ensures
            final(self)@ == old(self)@.next(*msg, 0),
            old(self)@.sends(*msg, out@),
            final(self).wf(),
    {
        let mut out: Vec<Outgoing> = Vec::new();
        if self.status != NodeStatus::Leading {
            return out;
        }
        let z = self.last_zxid();
        if msg.last_zxid == z && msg.epoch == self.epoch {
            self.supporting_nodes.insert(msg.sender_id);
            self.acks = Ghost(
                self.acks@.insert((msg.sender_id as int, msg.epoch as int, msg.last_zxid as int)),
            );
            if self.has_quorum(self.supporting_nodes.len()) {
                let mut commit = Message::new(self.id, MessageType::Commit);
                commit.epoch = self.epoch;
                commit.last_zxid = z;
                self.execute_tx();
                self.supporting_nodes = HashSet::new();
                out.push(Outgoing { pause_ms: 0, msg: commit });
            }
        }
        out
    }

    fn on_write(&mut self, msg: &Message) -> (out: Vec<Outgoing>)
        requires
            old(self).wf(),
            old(self)@.accepts(*msg),
            msg.msg_type == MessageType::Write,
        ensures
            final(self)@ == old(self)@.next(*msg, 0),
            old(self)@.sends(*msg, out@),
            final(self).wf(),
    {
        let mut out: Vec<Outgoing> = Vec::new();
        let z = self.last_zxid();
        if self.status == NodeStatus::Leading && msg.sender_id < 0 {
            if z < i32::MAX {
                let mut tx = msg.tx.clone();
                tx.zxid = z + 1;
                proof {
                    lemma_push_keeps_order(self.history@, tx);
                }
                self.history.push(tx.clone());
                self.supporting_nodes = HashSet::new();
                let mut proposal = Message::new(self.id, MessageType::Write);
                proposal.tx = tx;
                proposal.epoch = self.epoch;
                proposal.last_zxid = z + 1;
                out.push(Outgoing { pause_ms: 0, msg: proposal });
            }
            return out;
        }
        if self.status == NodeStatus::Following && self.led_by(msg.sender_id) && msg.tx.zxid as i64
            == z as i64 + 1 {
            proof {
                lemma_push_keeps_order(self.history@, msg.tx);
            }
            self.history.push(msg.tx.clone());
            let mut ack = Message::new(self.id, MessageType::AckTX);
            ack.receiver_id = msg.sender_id;
            ack.last_zxid = msg.tx.zxid;
            ack.epoch = msg.epoch;
            out.push(Outgoing { pause_ms: 0, msg: ack });
        }
        out
    }

    fn on_sync(&mut self, msg: &Message)
        requires
            old(self).wf(),
            old(self)@.accepts(*msg),
            msg.msg_type == MessageType::Sync,
        ensures
            final(self)@ == old(self)@.next(*msg, 0),
            final(self).wf(),
    {
        if self.status == NodeStatus::Following && self.led_by(msg.sender_id) && is_ascending(
            &msg.history,
        ) {
            self.history = msg.history.clone();
            assert(self.history@ =~= msg.history@);
        }
    }

    fn on_sync_request(&self, msg: &Message) -> (out: Vec<Outgoing>)
        requires
            self.wf(),
            self@.accepts(*msg),
            msg.msg_type == MessageType::SyncRequest,
        ensures
            self@.sends(*msg, out@),
    {
        let mut out: Vec<Outgoing> = Vec::new();
        if self.status == NodeStatus::Leading {
            let mut snapshot = Message::new(self.id, MessageType::Sync);
            snapshot.receiver_id = msg.sender_id;
            snapshot.epoch = self.epoch;
            snapshot.last_zxid = self.last_zxid();
            snapshot.history = self.history.clone();
            assert(snapshot.history@ =~= self.history@);
            out.push(Outgoing { pause_ms: 0, msg: snapshot });
        }
        out
    }

    fn on_recovery(&mut self, msg: &Message)
        requires
            old(self).wf(),
            old(self)@.accepts(*msg),
            msg.msg_type == MessageType::Recovery,
        ensures
            final(self)@ == old(self)@.next(*msg, 0),
            final(self).wf(),
    {
        if self.status == NodeStatus::Leading {
            proof {
                lemma_merge_keeps_order(self.history@, msg.tx);
            }
            if self.history.len() == 0 {
                self.supporting_nodes = HashSet::new();
            }
            merge_recovered_tx(&mut self.history, &msg.tx);
        }
    }

    fn on_heartbeat(&mut self, msg: &Message, now: u64) -> (out: Vec<Outgoing>)
        requires
            old(self).wf(),
            old(self)@.accepts(*msg),
            msg.msg_type == MessageType::Heartbeat,
        ensures
            final(self)@ == old(self)@.next(*msg, now),
            old(self)@.sends(*msg, out@),
            final(self).wf(),
    {
        let better = self.sender_is_better_leader(msg);
        match self.status {
            NodeStatus::Following => {
                if self.leader_id.is_none() {
                    if better {
                        return self.follow_and_discovery(msg, now);
                    }
                    if msg.epoch > self.epoch {
                        self.epoch = msg.epoch;
                    }
                } else if self.led_by(msg.sender_id) {
                    self.last_alive_from_leader = now;
                    if msg.epoch > self.epoch {
                        self.epoch = msg.epoch;
                    }
                }
                Vec::new()
            },
            NodeStatus::Running => {
                if better {
                    self.give_up_election(now);
                }
                Vec::new()
            },
            NodeStatus::Leading => {
                if better {
                    self.give_up_election(now);
                    self.follow_and_discovery(msg, now)
                } else {
                    Vec::new()
                }
            },
        }
    }

    fn on_running(&self, msg: &Message) -> (out: Vec<Outgoing>)
        requires
            self@.accepts(*msg),
            msg.msg_type == MessageType::Running,
        ensures
            self@.sends(*msg, out@),
    {
        let verdict = if self.sender_is_better_leader(msg) {
            MessageType::Approve
        } else {
            MessageType::Reject
        };
        let mut answer = Message::new(self.id, verdict);
        answer.epoch = msg.epoch;
        answer.last_zxid = self.last_zxid();
        answer.receiver_id = msg.sender_id;
        let mut out: Vec<Outgoing> = Vec::new();
        out.push(Outgoing { pause_ms: 0, msg: answer });
        out
    }

    fn on_approve(&mut self, msg: &Message)
        requires
            old(self).wf(),
            old(self)@.accepts(*msg),
            msg.msg_type == MessageType::Approve,
        ensures
            final(self)@ == old(self)@.next(*msg, 0),
            final(self).wf(),
    {
        if self.status != NodeStatus::Running {
            return;
        }
        self.supporting_nodes.insert(msg.sender_id);
        if self.has_quorum(self.supporting_nodes.len()) {
            self.status = NodeStatus::Leading;
            self.leader_id = None;
            self.supporting_nodes = HashSet::new();
        }
    }

    fn on_reject(&mut self, msg: &Message, now: u64)
        requires
            old(self).wf(),
            old(self)@.accepts(*msg),
            msg.msg_type == MessageType::Reject,
        ensures
            final(self)@ == old(self)@.next(*msg, now),
            final(self).wf(),
    {
        if self.status != NodeStatus::Running {
            return;
        }
        if self.sender_is_better_leader(msg) {
            self.give_up_election(now);
        } else if msg.epoch > self.epoch {
            self.epoch = msg.epoch;
        }
    }

    /// Handles one message from the bus at time `now` and returns what this
    /// node sends in reply. A message from this node itself, or addressed to
    /// another node, is ignored.
    pub fn answer(&mut self, msg: &Message, now: u64) -> (out: Vec<Outgoing>)
        requires
            old(self).wf(),
        ensures
            final(self)@ == old(self)@.next(*msg, now),
            old(self)@.sends(*msg, out@),
            final(self).wf(),
            final(self).epoch >= old(self).epoch,
    {
        proof {
            lemma_epoch_never_decreases(self@, *msg, now);
        }
        if msg.sender_id == self.id || (msg.receiver_id != BROADCAST_ID && msg.receiver_id
            != self.id) {
            return Vec::new();
        }
        match msg.msg_type {
            MessageType::Commit => {
                self.on_commit(msg);
                Vec::new()
            },
            MessageType::AckTX => self.on_ack(msg),
            MessageType::Write => self.on_write(msg),
            MessageType::Sync => {
                self.on_sync(msg);
                Vec::new()
            },
            MessageType::SyncRequest => self.on_sync_request(msg),
            MessageType::Recovery => {
                self.on_recovery(msg);
                Vec::new()
            },
            MessageType::Heartbeat => self.on_heartbeat(msg, now),
            MessageType::Running => self.on_running(msg),
            MessageType::Approve => {
                self.on_approve(msg);
                Vec::new()
            },
            MessageType::Reject => {
                self.on_reject(msg, now);
                Vec::new()
            },
            MessageType::Blank => Vec::new(),
            MessageType::Quit => Vec::new(),
        }
    }

    /// A crash: the node drops to follower, loses its log and its supporters.
    pub fn crash(&mut self)
        requires
            old(self).wf(),
        ensures
            final(self)@ == (NodeView {
                status: NodeStatus::Following,
                history: Seq::empty(),
                supporters: Set::empty(),
                committed: 0,
                ..old(self)@
            }),
            final(self).wf(),
    {
        self.status = NodeStatus::Following;
        self.history = Vec::new();
        self.supporting_nodes = HashSet::new();
        self.committed_zxid = 0;
    }
}

} // verus!
