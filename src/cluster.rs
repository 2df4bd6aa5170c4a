//! The cluster coordinator over an in-memory broadcast bus: it owns the nodes,
//! carries every sent message to every reachable node in the order it was
//! sent, drives the nodes' timers, injects client writes and crashes.
use vstd::prelude::*;
use std::collections::VecDeque;
use crate::message::{Message, MessageType, Transaction, TxActions, BROADCAST_ID, COORDINATOR_ID};
use crate::node::{Node, NodeStatus, NodeView, Outgoing};

verus! {

/// How often leaders emit heartbeats and followers check on their leader (ms).
pub const MONITOR_PERIOD_MS: u64 = 1000;

/// How long a crashed node stays unreachable (ms).
pub const CRASH_HOLD_MS: u64 = 20000;

/// How many messages one delivery phase carries at most.
pub const DELIVERY_BUDGET: usize = 100000;

/// The coordinator's leader cache before any heartbeat was seen.
pub const UNKNOWN_LEADER: i32 = -5;

/// The sender of the last heartbeat among `msgs`, or `current` if none is one.
pub open spec fn last_heartbeat_sender(msgs: Seq<Message>, current: i32) -> i32
    decreases msgs.len(),
{
    if msgs.len() == 0 {
        current
    } else if msgs.last().msg_type == MessageType::Heartbeat {
        msgs.last().sender_id
    } else {
        last_heartbeat_sender(msgs.drop_last(), current)
    }
}

/// No node's epoch is lower in `after` than in `before`.
pub open spec fn epochs_kept(before: Seq<Node>, after: Seq<Node>) -> bool {
    &&& after.len() == before.len()
    &&& forall|i: int| 0 <= i < before.len() ==> #[trigger] after[i].epoch >= before[i].epoch
}

/// The state of a node after it handled `msgs`, in order, at time `now`.
pub open spec fn run_msgs(n: NodeView, msgs: Seq<Message>, now: u64) -> NodeView
    decreases msgs.len(),
{
    if msgs.len() == 0 {
        n
    } else {
        run_msgs(n, msgs.drop_last(), now).next(msgs.last(), now)
    }
}

/// The messages of a node's outgoing list.
pub open spec fn msgs_of(out: Seq<Outgoing>) -> Seq<Message> {
    out.map_values(|o: Outgoing| o.msg)
}

/// The messages of several outgoing lists, joined in order.
pub open spec fn flat_msgs(outs: Seq<Seq<Outgoing>>) -> Seq<Message>
    decreases outs.len(),
{
    if outs.len() == 0 {
        Seq::empty()
    } else {
        flat_msgs(outs.drop_last()) + msgs_of(outs.last())
    }
}

/// Every reply of a delivery, one group per delivered message, joined in order.
pub open spec fn all_replies(outss: Seq<Seq<Seq<Outgoing>>>) -> Seq<Message>
    decreases outss.len(),
{
    if outss.len() == 0 {
        Seq::empty()
    } else {
        all_replies(outss.drop_last()) + flat_msgs(outss.last())
    }
}

/// The failure check of one node at time `now`.
pub open spec fn monitor_step(n: NodeView, now: u64) -> NodeView {
    if n.status == NodeStatus::Following && n.timed_out(now) && n.can_run() {
        n.run()
    } else {
        n
    }
}

/// A cluster of nodes with ids `0..size`, its bus and its clock.
pub struct Zookeeper {
    pub size: i32,
    pub servers: Vec<Node>,
    /// Messages sent and not yet delivered, oldest first.
    pub in_flight: VecDeque<Message>,
    /// Messages delivered since the coordinator last looked for the leader.
    pub observed: Vec<Message>,
    /// The last leader the coordinator heard a heartbeat from.
    pub latest_leader: i32,
    /// The simulated time (ms).
    pub now: u64,
    /// Node `i` is unreachable while `now < down_until[i]`.
    pub down_until: Vec<u64>,
}

/// The abstract state of a cluster.
pub struct ZkView {
    pub size: i32,
    pub servers: Seq<NodeView>,
    pub in_flight: Seq<Message>,
    pub observed: Seq<Message>,
    pub latest_leader: i32,
    pub now: u64,
    pub down_until: Seq<u64>,
}

impl View for Zookeeper {
    type V = ZkView;

    open spec fn view(&self) -> ZkView {
        ZkView {
            size: self.size,
            servers: self.servers@.map_values(|n: Node| n@),
            in_flight: self.in_flight@,
            observed: self.observed@,
            latest_leader: self.latest_leader,
            now: self.now,
            down_until: self.down_until@,
        }
    }
}

impl ZkView {
    /// Node `i` is reachable at the current time.
    pub open spec fn is_up(self, i: int) -> bool {
        self.now >= self.down_until[i]
    }

    /// Node `i` after it handled `msgs`, if it is reachable.
    pub open spec fn reach(self, i: int, msgs: Seq<Message>) -> NodeView {
        if self.is_up(i) {
            run_msgs(self.servers[i], msgs, self.now)
        } else {
            self.servers[i]
        }
    }

    /// Size, clock, leader cache and crash marks are the same in `b`.
    pub open spec fn same_frame(self, b: ZkView) -> bool {
        &&& b.size == self.size
        &&& b.servers.len() == self.servers.len()
        &&& b.latest_leader == self.latest_leader
        &&& b.now == self.now
        &&& b.down_until == self.down_until
    }

    /// The messages delivered between `self` and `b`.
    pub open spec fn delivered(self, b: ZkView) -> Seq<Message> {
        b.observed.skip(self.observed.len() as int)
    }

    /// `outs` holds one reply list per node: what each reachable node sends
    /// when, having handled `d`, it is handed `m`; an unreachable node sends
    /// nothing.
    pub open spec fn replies_to(self, d: Seq<Message>, m: Message, outs: Seq<Seq<Outgoing>>) -> bool {
        &&& outs.len() == self.servers.len()
        &&& forall|i: int|
            0 <= i < self.servers.len() ==> if self.is_up(i) {
                self.reach(i, d).sends(m, #[trigger] outs[i])
            } else {
                outs[i].len() == 0
            }
    }

    /// `outss[k]` holds the replies to the `k`-th delivered message.
    pub open spec fn reply_log(self, d: Seq<Message>, outss: Seq<Seq<Seq<Outgoing>>>) -> bool {
        &&& outss.len() == d.len()
        &&& forall|k: int| 0 <= k < d.len() ==> self.replies_to(d.take(k), d[k], #[trigger] outss[k])
    }

    /// The bus of `b` after a delivery with these replies: the old queue and
    /// then every reply, in order, is what was delivered followed by what is
    /// still queued.
    pub open spec fn bus_after(self, b: ZkView, outss: Seq<Seq<Seq<Outgoing>>>) -> bool {
        let d = self.delivered(b);
        &&& self.reply_log(d, outss)
        &&& self.in_flight + all_replies(outss) == d + b.in_flight
    }

    /// `b` follows from delivering at most `budget` messages, oldest first:
    /// every message goes to every reachable node, which handles it and puts
    /// its replies at the end of the bus; nothing is lost or reordered; the
    /// bus is empty unless the budget is spent; and the coordinator records
    /// each delivered message.
    pub open spec fn delivers(self, b: ZkView, budget: nat) -> bool {
        let d = self.delivered(b);
        &&& self.same_frame(b)
        &&& self.observed.is_prefix_of(b.observed)
        &&& d.len() <= budget
        &&& (b.in_flight.len() == 0 || d.len() == budget)
        &&& exists|outss: Seq<Seq<Seq<Outgoing>>>| #[trigger] self.bus_after(b, outss)
        &&& forall|i: int| 0 <= i < self.servers.len() ==> #[trigger] b.servers[i] == self.reach(i, d)
    }

    /// Ids from `j` up of the reachable leaders, highest first.
    pub open spec fn beat_senders(self, j: int) -> Seq<int>
        decreases self.servers.len() - j,
    {
        if j >= self.servers.len() || j < 0 {
            Seq::empty()
        } else if self.is_up(j) && self.servers[j].status == NodeStatus::Leading {
            self.beat_senders(j + 1).push(j)
        } else {
            self.beat_senders(j + 1)
        }
    }

    /// Ids below `j` of the reachable nodes whose failure check fires, in order.
    pub open spec fn runners(self, j: int) -> Seq<int>
        decreases j,
    {
        if j <= 0 {
            Seq::empty()
        } else if self.is_up(j - 1) && monitor_step(self.servers[j - 1], self.now) != self.servers[j
            - 1] {
            self.runners(j - 1).push(j - 1)
        } else {
            self.runners(j - 1)
        }
    }

    /// `b` follows from every reachable leader queuing one heartbeat, highest
    /// id first.
    pub open spec fn beats_queued(self, b: ZkView) -> bool {
        let ids = self.beat_senders(0);
        let added = b.in_flight.skip(self.in_flight.len() as int);
        &&& self.same_frame(b)
        &&& b.servers == self.servers
        &&& b.observed == self.observed
        &&& self.in_flight.is_prefix_of(b.in_flight)
        &&& added.len() == ids.len()
        &&& forall|k: int|
            0 <= k < ids.len() ==> {
                let m = #[trigger] added[k];
                let n = self.servers[ids[k]];
                &&& m.msg_type == MessageType::Heartbeat
                &&& m.sender_id == ids[k]
                &&& m.receiver_id == BROADCAST_ID
                &&& m.epoch == n.epoch
                &&& m.last_zxid == n.last_zxid()
            }
    }

    /// `b` follows from every reachable node running its failure check in id
    /// order, each new candidate queuing its announcement.
    pub open spec fn monitors_ran(self, b: ZkView) -> bool {
        let ids = self.runners(self.servers.len() as int);
        let added = b.in_flight.skip(self.in_flight.len() as int);
        &&& self.same_frame(b)
        &&& b.observed == self.observed
        &&& forall|i: int|
            0 <= i < self.servers.len() ==> #[trigger] b.servers[i] == if self.is_up(i) {
                monitor_step(self.servers[i], self.now)
            } else {
                self.servers[i]
            }
        &&& self.in_flight.is_prefix_of(b.in_flight)
        &&& added.len() == ids.len()
        &&& forall|k: int|
            0 <= k < ids.len() ==> {
                let m = #[trigger] added[k];
                let n = b.servers[ids[k]];
                &&& m.msg_type == MessageType::Running
                &&& m.sender_id == ids[k]
                &&& m.receiver_id == BROADCAST_ID
                &&& m.epoch == n.epoch
                &&& m.last_zxid == n.last_zxid()
            }
    }

    /// The clock after one period.
    pub open spec fn advanced(self) -> ZkView {
        ZkView {
            now: if self.now <= u64::MAX - MONITOR_PERIOD_MS {
                (self.now + MONITOR_PERIOD_MS) as u64
            } else {
                self.now
            },
            ..self
        }
    }

    /// One period through the given intermediate states: the clock advances,
    /// heartbeats are queued, the bus is delivered, failure checks run, and
    /// the bus is delivered again.
    pub open spec fn tick_via(self, m1: ZkView, m2: ZkView, m3: ZkView, b: ZkView) -> bool {
        &&& self.advanced().beats_queued(m1)
        &&& m1.delivers(m2, DELIVERY_BUDGET as nat)
        &&& m2.monitors_ran(m3)
        &&& m3.delivers(b, DELIVERY_BUDGET as nat)
    }

    /// `b` follows from one period of simulated time.
    pub open spec fn ticks(self, b: ZkView) -> bool {
        exists|m1: ZkView, m2: ZkView, m3: ZkView| #[trigger] self.tick_via(m1, m2, m3, b)
    }

    /// `trace` goes from `self` to `b` one period at a time.
    pub open spec fn is_trace(self, trace: Seq<ZkView>, b: ZkView, periods: nat) -> bool {
        &&& trace.len() == periods + 1
        &&& trace[0] == self
        &&& trace[periods as int] == b
        &&& forall|k: int| #![trigger trace[k]] 0 <= k < periods ==> trace[k].ticks(trace[k + 1])
    }

    /// `b` follows from `periods` periods of simulated time.
    pub open spec fn runs(self, b: ZkView, periods: nat) -> bool {
        exists|trace: Seq<ZkView>| #[trigger] self.is_trace(trace, b, periods)
    }
}

proof fn lemma_run_msgs_push(n: NodeView, d: Seq<Message>, m: Message, now: u64)
    ensures
        run_msgs(n, d.push(m), now) == run_msgs(n, d, now).next(m, now),
{
    assert(d.push(m).drop_last() =~= d);
}

impl Zookeeper {
    /// Node `i` stands at index `i`, knows the cluster size, and is well-formed.
    pub open spec fn wf(&self) -> bool {
        &&& self.size >= 1
        &&& self.servers@.len() == self.size
        &&& self.down_until@.len() == self.size
        &&& forall|i: int|
            #![trigger self.servers@[i]]
            0 <= i < self.size ==> {
                &&& self.servers@[i].wf()
                &&& self.servers@[i].id == i
                &&& self.servers@[i].cluster_size == self.size
            }
    }

    /// A cluster of `size` fresh followers with ids `0..size` at time 0.
    pub fn new(size: i32) -> (r: Zookeeper)
        requires
            size >= 1,
        ensures
            r.wf(),
            r.size == size,
            r.now == 0,
            r.latest_leader == UNKNOWN_LEADER,
            r.in_flight@.len() == 0,
            r.observed@.len() == 0,
            forall|i: int|
                0 <= i < size ==> (#[trigger] r.servers@[i])@ == Node::new_view(i as i32, size, 0),
            forall|i: int| 0 <= i < size ==> #[trigger] r.down_until@[i] == 0,
    {
        let mut servers: Vec<Node> = Vec::new();
        let mut down_until: Vec<u64> = Vec::new();
        let mut i: i32 = 0;
        while i < size
            invariant
                0 <= i <= size,
                servers@.len() == i,
                down_until@.len() == i,
                forall|k: int|
                    #![trigger servers@[k]]
                    0 <= k < i ==> {
                        &&& servers@[k]@ == Node::new_view(k as i32, size, 0)
                        &&& servers@[k].wf()
                    },
                forall|k: int| 0 <= k < i ==> #[trigger] down_until@[k] == 0,
            decreases size - i,
        {
            servers.push(Node::new(i, size, 0));
            down_until.push(0);
            i = i + 1;
        }
        Zookeeper {
            size,
            servers,
            in_flight: VecDeque::new(),
            observed: Vec::new(),
            latest_leader: UNKNOWN_LEADER,
            now: 0,
            down_until,
        }
    }

    /// The write request that a client sends to `leader`.
    pub fn write_request(leader: i32, key: String, val: String) -> (r: Message)
        ensures
            r.msg_type == MessageType::Write,
            r.sender_id == COORDINATOR_ID,
            r.receiver_id == leader,
            r.epoch == 0,
            r.last_zxid == 0,
            r.tx.zxid == -1,
            r.tx.action == TxActions::New,
            r.tx.key@ == key@,
            r.tx.val@ == val@,
            r.history@.len() == 0,
    {
        let mut tx = Transaction::new();
        tx.action = TxActions::New;
        tx.key = key;
        tx.val = val;
        let mut update = Message::new(COORDINATOR_ID, MessageType::Write);
        update.receiver_id = leader;
        update.tx = tx;
        update
    }

    /// Submits a client write to the cached leader.
    pub fn new_transaction(&mut self, key: String, val: String)
        ensures
            final(self).in_flight@.len() == old(self).in_flight@.len() + 1,
            final(self).in_flight@.drop_last() == old(self).in_flight@,
            ({
                let m = final(self).in_flight@.last();
                &&& m.msg_type == MessageType::Write
                &&& m.sender_id == COORDINATOR_ID
                &&& m.receiver_id == old(self).latest_leader
                &&& m.epoch == 0
                &&& m.last_zxid == 0
                &&& m.tx.zxid == -1
                &&& m.tx.action == TxActions::New
                &&& m.tx.key@ == key@
                &&& m.tx.val@ == val@
                &&& m.history@.len() == 0
            }),
            final(self).observed == old(self).observed,
            final(self).servers == old(self).servers,
            final(self).size == old(self).size,
            final(self).down_until == old(self).down_until,
            final(self).now == old(self).now,
            final(self).latest_leader == old(self).latest_leader,
    {
        let update = Zookeeper::write_request(self.latest_leader, key, val);
        self.in_flight.push_back(update);
        assert(self.in_flight@.drop_last() =~= old(self).in_flight@);
    }

    /// The shutdown signal: a `Quit` from the coordinator to every node.
    pub fn shutdown_message() -> (r: Message)
        ensures
            Message::is_fresh(r, COORDINATOR_ID, MessageType::Quit),
    {
        Message::new(COORDINATOR_ID, MessageType::Quit)
    }

    /// Broadcasts the shutdown signal.
    pub fn quit(&mut self)
        ensures
            final(self).in_flight@.len() == old(self).in_flight@.len() + 1,
            final(self).in_flight@.drop_last() == old(self).in_flight@,
            Message::is_fresh(final(self).in_flight@.last(), COORDINATOR_ID, MessageType::Quit),
            final(self).observed == old(self).observed,
            final(self).servers == old(self).servers,
            final(self).size == old(self).size,
            final(self).down_until == old(self).down_until,
            final(self).now == old(self).now,
            final(self).latest_leader == old(self).latest_leader,
    {
        let msg = Zookeeper::shutdown_message();
        self.in_flight.push_back(msg);
        assert(self.in_flight@.drop_last() =~= old(self).in_flight@);
    }

    /// Puts the messages of `out` on the bus, in order.
    fn enqueue(&mut self, out: Vec<Outgoing>)
        ensures
            final(self).in_flight@ == old(self).in_flight@ + msgs_of(out@),
            final(self).servers == old(self).servers,
            final(self).size == old(self).size,
            final(self).down_until == old(self).down_until,
            final(self).now == old(self).now,
            final(self).observed == old(self).observed,
            final(self).latest_leader == old(self).latest_leader,
    {
        let ghost all = msgs_of(out@);
        let mut out = out;
        let ghost k: int = 0;
        while out.len() > 0
            invariant
                0 <= k <= all.len(),
                msgs_of(out@) == all.skip(k),
                self.in_flight@ == old(self).in_flight@ + all.take(k),
                self.servers == old(self).servers,
                self.size == old(self).size,
                self.down_until == old(self).down_until,
                self.now == old(self).now,
                self.observed == old(self).observed,
                self.latest_leader == old(self).latest_leader,
            decreases out@.len(),
        {
            let ghost before = out@;
            let o = out.remove(0);
            proof {
                assert(msgs_of(before).len() == before.len());
                assert(all.skip(k).len() == all.len() - k);
                assert(k < all.len());
                assert(msgs_of(before)[0] == o.msg);
                assert(all.skip(k)[0] == all[k]);
                assert(all[k] == o.msg);
                assert(all.take(k + 1) =~= all.take(k).push(o.msg));
                assert(msgs_of(out@) =~= msgs_of(before).skip(1));
                assert(all.skip(k).skip(1) =~= all.skip(k + 1));
            }
            self.in_flight.push_back(o.msg);
            proof {
                k = k + 1;
            }
        }
        assert(all.take(k) =~= all);
    }

    /// Hands one message to every reachable node (the sender filters itself
    /// out) and to the coordinator, and queues the replies.
    fn deliver_one(&mut self, msg: Message) -> (outs: Ghost<Seq<Seq<Outgoing>>>)
        requires
            old(self).wf(),
        ensures
            final(self).wf(),
            epochs_kept(old(self).servers@, final(self).servers@),
            old(self)@.same_frame(final(self)@),
            final(self)@.observed == old(self)@.observed.push(msg),
            forall|i: int|
                0 <= i < old(self).size ==> #[trigger] final(self)@.servers[i] == if old(
                    self,
                )@.is_up(i) {
                    old(self)@.servers[i].next(msg, old(self).now)
                } else {
                    old(self)@.servers[i]
                },
            old(self)@.replies_to(Seq::empty(), msg, outs@),
            final(self)@.in_flight == old(self)@.in_flight + flat_msgs(outs@),
    {
        let ghost mut outs: Seq<Seq<Outgoing>> = Seq::empty();
        let mut j: usize = 0;
        while j < self.servers.len()
            invariant
                self.wf(),
                0 <= j <= self.servers@.len(),
                epochs_kept(old(self).servers@, self.servers@),
                forall|i: int|
                    #![trigger self.servers@[i]]
                    0 <= i < j ==> self.servers@[i]@ == if old(self)@.is_up(i) {
                        old(self).servers@[i]@.next(msg, old(self).now)
                    } else {
                        old(self).servers@[i]@
                    },
                forall|i: int|
                    #![trigger self.servers@[i]]
                    j <= i < self.size ==> self.servers@[i] == old(self).servers@[i],
                self.observed == old(self).observed,
                outs.len() == j,
                forall|i: int|
                    0 <= i < j ==> if old(self)@.is_up(i) {
                        old(self)@.servers[i].sends(msg, #[trigger] outs[i])
                    } else {
                        outs[i].len() == 0
                    },
                self.in_flight@ == old(self).in_flight@ + flat_msgs(outs),
                self.size == old(self).size,
                self.down_until == old(self).down_until,
                self.now == old(self).now,
                self.latest_leader == old(self).latest_leader,
            decreases self.servers@.len() - j,
        {
            assert(old(self)@.servers[j as int] == old(self).servers@[j as int]@);
            if self.now >= self.down_until[j] {
                let now = self.now;
                let out = self.servers[j].answer(&msg, now);
                let ghost sent = out@;
                self.enqueue(out);
                proof {
                    let outs2 = outs.push(sent);
                    assert(outs2.drop_last() =~= outs);
                    assert(flat_msgs(outs2) == flat_msgs(outs) + msgs_of(sent));
                    assert(self.in_flight@ =~= old(self).in_flight@ + flat_msgs(outs2));
                    outs = outs2;
                }
            } else {
                proof {
                    let outs2 = outs.push(Seq::empty());
                    assert(outs2.drop_last() =~= outs);
                    assert(msgs_of(Seq::<Outgoing>::empty()) =~= Seq::<Message>::empty());
                    assert(flat_msgs(outs2) =~= flat_msgs(outs));
                    outs = outs2;
                }
            }
            j = j + 1;
        }
        self.observed.push(msg);
        assert(self@.servers.len() == old(self)@.servers.len());
        proof {
            assert forall|i: int| 0 <= i < old(self)@.servers.len() implies old(self)@.reach(
                i,
                Seq::empty(),
            ) == old(self)@.servers[i] by {}
        }
        Ghost(outs)
    }

    /// Carries messages, oldest first, until the bus is empty or `budget`
    /// messages were delivered; undelivered messages keep their order. Every
    /// delivered message is recorded for the coordinator.
    pub fn deliver(&mut self, budget: usize)
        requires
            old(self).wf(),
        ensures
            final(self).wf(),
            epochs_kept(old(self).servers@, final(self).servers@),
            old(self)@.delivers(final(self)@, budget as nat),
    {
        let mut left = budget;
        let ghost mut outss: Seq<Seq<Seq<Outgoing>>> = Seq::empty();
        assert(old(self)@.delivered(self@) =~= Seq::<Message>::empty());
        assert(old(self)@.in_flight + all_replies(outss) =~= Seq::<Message>::empty() + self@.in_flight);
        while self.in_flight.len() > 0 && left > 0
            invariant
                self.wf(),
                epochs_kept(old(self).servers@, self.servers@),
                old(self)@.same_frame(self@),
                old(self)@.observed.is_prefix_of(self@.observed),
                old(self)@.delivered(self@).len() + left == budget,
                old(self)@.reply_log(old(self)@.delivered(self@), outss),
                old(self)@.in_flight + all_replies(outss) == old(self)@.delivered(self@) + self@.in_flight,
                forall|i: int|
                    0 <= i < old(self)@.servers.len() ==> #[trigger] self@.servers[i] == old(
                        self,
                    )@.reach(i, old(self)@.delivered(self@)),
            decreases left,
        {
            let ghost before = self@;
            let ghost d = old(self)@.delivered(before);
            let msg = self.in_flight.pop_front().unwrap();
            let ghost popped = self@;
            let outs = self.deliver_one(msg);
            left = left - 1;
            proof {
                let d2 = old(self)@.delivered(self@);
                assert(d2 =~= d.push(msg));
                assert(before.in_flight =~= seq![msg] + popped.in_flight);
                let o2 = outss.push(outs@);
                assert(o2.drop_last() =~= outss);
                assert(all_replies(o2) == all_replies(outss) + flat_msgs(outs@));
                assert(old(self)@.in_flight + all_replies(outss) == d + before.in_flight);
                assert(self@.in_flight == popped.in_flight + flat_msgs(outs@));
                assert(old(self)@.in_flight + all_replies(o2) =~= (old(self)@.in_flight
                    + all_replies(outss)) + flat_msgs(outs@));
                assert((d + before.in_flight) + flat_msgs(outs@) =~= d2 + self@.in_flight);
                assert forall|k: int| 0 <= k < d2.len() implies old(self)@.replies_to(
                    d2.take(k),
                    d2[k],
                    #[trigger] o2[k],
                ) by {
                    if k < d.len() {
                        assert(d2.take(k) =~= d.take(k));
                        assert(o2[k] == outss[k]);
                    } else {
                        assert(d2.take(k) =~= d);
                        assert(o2[k] == outs@);
                        assert forall|i: int| 0 <= i < popped.servers.len() implies popped.servers[i]
                            == #[trigger] old(self)@.reach(i, d) by {}
                        assert forall|i: int| 0 <= i < popped.servers.len() && popped.is_up(i) implies popped.reach(
                            i,
                            Seq::empty(),
                        ) == #[trigger] old(self)@.reach(i, d) by {}
                    }
                }
                outss = o2;
                assert forall|i: int| 0 <= i < old(self)@.servers.len() implies #[trigger] self@.servers[i]
                    == old(self)@.reach(i, d2) by {
                    lemma_run_msgs_push(old(self)@.servers[i], d, msg, old(self).now);
                }
            }
        }
        assert(old(self)@.bus_after(self@, outss));
    }

    /// One period of simulated time: the clock advances, reachable leaders
    /// emit heartbeats (highest id first), the bus settles, reachable nodes run
    /// their failure check (lowest id first), and the bus settles again.
    #[verifier::rlimit(50)]
    pub fn tick(&mut self)
        requires
            old(self).wf(),
        ensures
            final(self).wf(),
            epochs_kept(old(self).servers@, final(self).servers@),
            old(self)@.ticks(final(self)@),
    {
        if self.now <= u64::MAX - MONITOR_PERIOD_MS {
            self.now = self.now + MONITOR_PERIOD_MS;
        }
        let ghost a = self@;
        assert(a == old(self)@.advanced());
        let mut j: usize = self.servers.len();
        while j > 0
            invariant
                self.wf(),
                0 <= j <= self.servers@.len(),
                self.servers == old(self).servers,
                a.same_frame(self@),
                self@.servers == a.servers,
                self@.observed == a.observed,
                a.in_flight.is_prefix_of(self@.in_flight),
                ({
                    let ids = a.beat_senders(j as int);
                    let added = self@.in_flight.skip(a.in_flight.len() as int);
                    &&& forall|k: int| 0 <= k < ids.len() ==> j <= #[trigger] ids[k] < a.servers.len()
                    &&& added.len() == ids.len()
                    &&& forall|k: int|
                        0 <= k < ids.len() ==> {
                            let m = #[trigger] added[k];
                            let n = a.servers[ids[k]];
                            &&& m.msg_type == MessageType::Heartbeat
                            &&& m.sender_id == ids[k]
                            &&& m.receiver_id == BROADCAST_ID
                            &&& m.epoch == n.epoch
                            &&& m.last_zxid == n.last_zxid()
                        }
                }),
            decreases j,
        {
            j = j - 1;
            if self.now >= self.down_until[j] {
                let out = self.servers[j].heartbeat();
                let ghost before = self@.in_flight;
                self.enqueue(out);
                proof {
                    let added0 = before.skip(a.in_flight.len() as int);
                    let added1 = self@.in_flight.skip(a.in_flight.len() as int);
                    assert(self@.servers[j as int] == self.servers@[j as int]@);
                    if a.servers[j as int].status == NodeStatus::Leading {
                        assert(msgs_of(out@)[0] == out@[0].msg);
                        assert(added1 =~= added0.push(out@[0].msg));
                    } else {
                        assert(added1 =~= added0);
                    }
                    assert(self@.in_flight.subrange(0, a.in_flight.len() as int)
                        =~= before.subrange(0, a.in_flight.len() as int));
                }
            } else {
                assert(a.beat_senders(j as int + 1) == a.beat_senders(j as int));
            }
        }
        let ghost m1 = self@;
        self.deliver(DELIVERY_BUDGET);
        let ghost m2 = self@;
        j = 0;
        while j < self.servers.len()
            invariant
                self.wf(),
                0 <= j <= self.servers@.len(),
                epochs_kept(old(self).servers@, self.servers@),
                m2.same_frame(self@),
                self@.observed == m2.observed,
                forall|i: int|
                    0 <= i < j ==> #[trigger] self@.servers[i] == if m2.is_up(i) {
                        monitor_step(m2.servers[i], m2.now)
                    } else {
                        m2.servers[i]
                    },
                forall|i: int| j <= i < m2.servers.len() ==> #[trigger] self@.servers[i] == m2.servers[i],
                forall|i: int|
                    #![trigger self.servers@[i]]
                    j <= i < m2.servers.len() ==> self.servers@[i].epoch == m2.servers[i].epoch,
                m2.in_flight.is_prefix_of(self@.in_flight),
                ({
                    let ids = m2.runners(j as int);
                    let added = self@.in_flight.skip(m2.in_flight.len() as int);
                    &&& added.len() == ids.len()
                    &&& forall|k: int|
                        0 <= k < ids.len() ==> {
                            let m = #[trigger] added[k];
                            let n = self@.servers[ids[k]];
                            &&& 0 <= ids[k] < j
                            &&& m.msg_type == MessageType::Running
                            &&& m.sender_id == ids[k]
                            &&& m.receiver_id == BROADCAST_ID
                            &&& m.epoch == n.epoch
                            &&& m.last_zxid == n.last_zxid()
                        }
                }),
            decreases self.servers@.len() - j,
        {
            let ghost before = self@;
            let ghost sv = self.servers@;
            assert(before.servers[j as int] == sv[j as int]@);
            assert(before.servers[j as int] == m2.servers[j as int]);
            if self.now >= self.down_until[j] {
                let now = self.now;
                let out = self.servers[j].monitor(now);
                self.enqueue(out);
                proof {
                    let added0 = before.in_flight.skip(m2.in_flight.len() as int);
                    let added1 = self@.in_flight.skip(m2.in_flight.len() as int);
                    assert(msgs_of(out@).len() == out@.len());
                    assert(self@.servers[j as int] == self.servers@[j as int]@);
                    if monitor_step(m2.servers[j as int], m2.now) != m2.servers[j as int] {
                        assert(msgs_of(out@)[0] == out@[0].msg);
                        assert(added1 =~= added0.push(out@[0].msg));
                    } else {
                        assert(added1 =~= added0);
                    }
                    assert(self@.in_flight.subrange(0, m2.in_flight.len() as int)
                        =~= before.in_flight.subrange(0, m2.in_flight.len() as int));
                }
            } else {
                assert(m2.runners(j as int + 1) == m2.runners(j as int));
            }
            proof {
                assert forall|i: int| 0 <= i < m2.servers.len() && i != j implies #[trigger] self@.servers[i]
                    == before.servers[i] by {
                    assert(self.servers@[i] == sv[i]);
                    assert(self@.servers[i] == self.servers@[i]@);
                    assert(before.servers[i] == sv[i]@);
                }
            }
            j = j + 1;
        }
        let ghost m3 = self@;
        assert(m2.monitors_ran(m3));
        self.deliver(DELIVERY_BUDGET);
        assert(old(self)@.tick_via(m1, m2, m3, self@));
    }

    /// Lets `periods` periods of simulated time pass.
    #[verifier::rlimit(50)]
    pub fn run_for(&mut self, periods: u32)
        requires
            old(self).wf(),
        ensures
            final(self).wf(),
            epochs_kept(old(self).servers@, final(self).servers@),
            old(self)@.runs(final(self)@, periods as nat),
    {
        let ghost trace: Seq<ZkView> = seq![self@];
        let mut p: u32 = 0;
        while p < periods
            invariant
                self.wf(),
                epochs_kept(old(self).servers@, self.servers@),
                0 <= p <= periods,
                old(self)@.is_trace(trace, self@, p as nat),
            decreases periods - p,
        {
            let ghost before = self@;
            self.tick();
            proof {
                let t2 = trace.push(self@);
                assert forall|k: int| #![trigger t2[k]] 0 <= k < p + 1 implies t2[k].ticks(t2[k + 1]) by {
                    if k < p {
                        assert(t2[k] == trace[k] && t2[k + 1] == trace[k + 1]);
                    } else {
                        assert(t2[k] == before);
                    }
                }
                trace = t2;
            }
            p = p + 1;
        }
    }

    /// Crashes the cached leader: it drops to follower, loses its log, and is
    /// unreachable for `CRASH_HOLD_MS`. Nothing happens while no leader is known.
    pub fn crash_leader(&mut self)
        requires
            old(self).wf(),
        ensures
            final(self).wf(),
            final(self).size == old(self).size,
            final(self).now == old(self).now,
            final(self).latest_leader == old(self).latest_leader,
            final(self).in_flight == old(self).in_flight,
            !(0 <= old(self).latest_leader < old(self).size) ==> final(self).servers
                == old(self).servers && final(self).down_until == old(self).down_until,
            0 <= old(self).latest_leader < old(self).size ==> {
                let l = old(self).latest_leader as int;
                &&& final(self).servers@ == old(self).servers@.update(l, final(self).servers@[l])
                &&& final(self).servers@[l]@ == (NodeView {
                    status: NodeStatus::Following,
                    history: Seq::empty(),
                    supporters: Set::empty(),
                    committed: 0,
                    ..old(self).servers@[l]@
                })
                &&& final(self).down_until@ == old(self).down_until@.update(
                    l,
                    if old(self).now <= u64::MAX - CRASH_HOLD_MS {
                        (old(self).now + CRASH_HOLD_MS) as u64
                    } else {
                        u64::MAX
                    },
                )
            },
    {
        if self.latest_leader < 0 || self.latest_leader >= self.size {
            return;
        }
        let l = self.latest_leader as usize;
        self.servers[l].crash();
        let until = if self.now <= u64::MAX - CRASH_HOLD_MS {
            self.now + CRASH_HOLD_MS
        } else {
            u64::MAX
        };
        self.down_until.set(l, until);
    }

    /// Updates the leader cache from the heartbeats delivered since the last
    /// look: the sender of the latest one wins.
    pub fn find_latest_leader(&mut self)
        ensures
            final(self).latest_leader == last_heartbeat_sender(
                old(self).observed@,
                old(self).latest_leader,
            ),
            final(self).observed@.len() == 0,
            final(self).servers == old(self).servers,
            final(self).size == old(self).size,
            final(self).down_until == old(self).down_until,
            final(self).now == old(self).now,
            final(self).in_flight == old(self).in_flight,
    {
        self.latest_leader = leader_from_heartbeats(&self.observed, self.latest_leader);
        self.observed = Vec::new();
    }
}

/// The sender of the last heartbeat among `msgs`, or `current` when none of
/// them is a heartbeat.
pub fn leader_from_heartbeats(msgs: &Vec<Message>, current: i32) -> (r: i32)
    ensures
        r == last_heartbeat_sender(msgs@, current),
{
    let mut latest = current;
    let mut i: usize = 0;
    while i < msgs.len()
        invariant
            0 <= i <= msgs@.len(),
            latest == last_heartbeat_sender(msgs@.take(i as int), current),
        decreases msgs@.len() - i,
    {
        assert(msgs@.take(i as int + 1).drop_last() =~= msgs@.take(i as int));
        if msgs[i].msg_type == MessageType::Heartbeat {
            latest = msgs[i].sender_id;
        }
        i = i + 1;
    }
    assert(msgs@.take(i as int) =~= msgs@);
    latest
}

} // verus!
