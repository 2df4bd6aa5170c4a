use zab_cluster::message::{Message, MessageType, Transaction, TxActions, BROADCAST_ID, COORDINATOR_ID};
use zab_cluster::node::{Node, NodeStatus, Outgoing, DISCOVERY_PAUSE_MS, HEARTBEAT_TIMEOUT_MS};

fn tx(zxid: i32, key: &str) -> Transaction {
    let mut t = Transaction::new();
    t.zxid = zxid;
    t.action = TxActions::New;
    t.key = key.to_string();
    t.val = format!("val-{}", key);
    t
}

fn msg(sender: i32, kind: MessageType, epoch: i32, last_zxid: i32) -> Message {
    let mut m = Message::new(sender, kind);
    m.epoch = epoch;
    m.last_zxid = last_zxid;
    m
}

fn leader(id: i32, size: i32, epoch: i32, zxids: &[i32]) -> Node {
    let mut n = Node::new(id, size, 0);
    n.status = NodeStatus::Leading;
    n.epoch = epoch;
    for z in zxids {
        n.history.push(tx(*z, &format!("k{}", z)));
    }
    n
}

fn follower_of(id: i32, size: i32, leader_id: i32, epoch: i32, zxids: &[i32]) -> Node {
    let mut n = Node::new(id, size, 0);
    n.leader_id = Some(leader_id);
    n.epoch = epoch;
    for z in zxids {
        n.history.push(tx(*z, &format!("k{}", z)));
    }
    n
}

fn zxids(n: &Node) -> Vec<i32> {
    n.history.iter().map(|t| t.zxid).collect()
}

fn kinds(out: &[Outgoing]) -> Vec<MessageType> {
    out.iter().map(|o| o.msg.msg_type).collect()
}

#[test]
fn blank_transaction_and_message() {
    let t = Transaction::new();
    assert_eq!(t.zxid, -1);
    assert!(matches!(t.action, TxActions::NA));
    assert_eq!(t.key, "");
    assert_eq!(t.val, "");
    let m = Message::new(4, MessageType::Heartbeat);
    assert_eq!(m.sender_id, 4);
    assert_eq!(m.msg_type, MessageType::Heartbeat);
    assert_eq!(m.receiver_id, BROADCAST_ID);
    assert_eq!(m.epoch, 0);
    assert_eq!(m.last_zxid, 0);
    assert_eq!(m.tx.zxid, -1);
    assert!(m.history.is_empty());
}

#[test]
fn fresh_node_is_leaderless_follower() {
    let n = Node::new(3, 5, 7);
    assert_eq!(n.status, NodeStatus::Following);
    assert_eq!(n.leader_id, None);
    assert_eq!(n.epoch, 0);
    assert_eq!(n.last_zxid(), 0);
    assert_eq!(n.last_alive_from_leader, 7);
    assert!(n.supporting_nodes.is_empty());
}

#[test]
fn last_zxid_is_newest_entry() {
    let n = follower_of(1, 3, 0, 1, &[1, 2, 5]);
    assert_eq!(n.last_zxid(), 5);
}

#[test]
fn better_leader_by_epoch_then_zxid_then_id() {
    let n = follower_of(5, 10, 9, 3, &[1, 2]);
    assert!(n.sender_is_better_leader(&msg(0, MessageType::Heartbeat, 4, 0)));
    assert!(!n.sender_is_better_leader(&msg(9, MessageType::Heartbeat, 2, 9)));
    assert!(n.sender_is_better_leader(&msg(0, MessageType::Heartbeat, 3, 3)));
    assert!(!n.sender_is_better_leader(&msg(9, MessageType::Heartbeat, 3, 1)));
    assert!(n.sender_is_better_leader(&msg(6, MessageType::Heartbeat, 3, 2)));
    assert!(!n.sender_is_better_leader(&msg(4, MessageType::Heartbeat, 3, 2)));
}

#[test]
fn candidacy_epoch_counts_one_higher() {
    let n = follower_of(5, 10, 9, 3, &[]);
    // A candidacy carrying epoch 2 counts as epoch 3 and ties on epoch.
    assert!(n.sender_is_better_leader(&msg(6, MessageType::Running, 2, 0)));
    assert!(!n.sender_is_better_leader(&msg(4, MessageType::Running, 2, 0)));
    assert!(!n.sender_is_better_leader(&msg(9, MessageType::Running, 1, 0)));
    assert!(n.sender_is_better_leader(&msg(0, MessageType::Running, 3, 0)));
    let fresh = Node::new(4, 10, 0);
    assert!(fresh.sender_is_better_leader(&msg(1, MessageType::Running, 0, 0)));
    assert!(!fresh.sender_is_better_leader(&msg(1, MessageType::Heartbeat, 0, 0)));
}

#[test]
fn own_and_misaddressed_messages_are_ignored() {
    let mut n = Node::new(2, 3, 0);
    let out = n.answer(&msg(2, MessageType::Heartbeat, 9, 9), 10);
    assert!(out.is_empty());
    assert_eq!(n.leader_id, None);
    let mut m = msg(1, MessageType::Heartbeat, 9, 9);
    m.receiver_id = 0;
    let out = n.answer(&m, 10);
    assert!(out.is_empty());
    assert_eq!(n.epoch, 0);
}

#[test]
fn monitor_starts_campaign_when_leaderless() {
    let mut n = follower_of(4, 5, 0, 2, &[1, 2, 3]);
    n.leader_id = None;
    let out = n.monitor(1000);
    assert_eq!(n.status, NodeStatus::Running);
    assert_eq!(n.epoch, 3);
    assert!(n.supporting_nodes.contains(&4));
    assert_eq!(n.supporting_nodes.len(), 1);
    assert_eq!(out.len(), 1);
    assert_eq!(out[0].msg.msg_type, MessageType::Running);
    assert_eq!(out[0].msg.epoch, 3);
    assert_eq!(out[0].msg.last_zxid, 3);
    assert_eq!(out[0].msg.receiver_id, BROADCAST_ID);
}

#[test]
fn monitor_waits_for_heartbeat_timeout() {
    let mut n = follower_of(4, 5, 0, 2, &[]);
    n.last_alive_from_leader = 1000;
    assert!(n.monitor(1000 + HEARTBEAT_TIMEOUT_MS).is_empty());
    assert_eq!(n.status, NodeStatus::Following);
    let out = n.monitor(1001 + HEARTBEAT_TIMEOUT_MS);
    assert_eq!(kinds(&out), vec![MessageType::Running]);
    assert_eq!(n.status, NodeStatus::Running);
    assert_eq!(n.leader_id, None);
}

#[test]
fn monitor_leaves_leaders_alone() {
    let mut n = leader(1, 3, 1, &[]);
    assert!(n.monitor(1_000_000).is_empty());
    assert_eq!(n.status, NodeStatus::Leading);
}

#[test]
fn only_leaders_emit_heartbeats() {
    let n = leader(1, 3, 4, &[1, 2]);
    let out = n.heartbeat();
    assert_eq!(out.len(), 1);
    assert_eq!(out[0].msg.msg_type, MessageType::Heartbeat);
    assert_eq!(out[0].msg.epoch, 4);
    assert_eq!(out[0].msg.last_zxid, 2);
    assert_eq!(out[0].msg.sender_id, 1);
    let f = follower_of(2, 3, 1, 4, &[]);
    assert!(f.heartbeat().is_empty());
}

#[test]
fn running_message_gets_approve_or_reject() {
    let mut n = follower_of(3, 5, 4, 1, &[1]);
    let out = n.answer(&msg(4, MessageType::Running, 2, 1), 0);
    assert_eq!(out.len(), 1);
    assert_eq!(out[0].msg.msg_type, MessageType::Approve);
    assert_eq!(out[0].msg.receiver_id, 4);
    assert_eq!(out[0].msg.epoch, 2);
    assert_eq!(out[0].msg.last_zxid, 1);
    let out = n.answer(&msg(2, MessageType::Running, 0, 1), 0);
    assert_eq!(out[0].msg.msg_type, MessageType::Reject);
    assert_eq!(out[0].msg.receiver_id, 2);
}

#[test]
fn majority_of_approvals_makes_leader() {
    // Five nodes: a quorum is 3, so a candidate needs 4 supporters, itself included.
    let mut n = Node::new(4, 5, 0);
    n.monitor(1000);
    let mut a = msg(0, MessageType::Approve, 1, 0);
    a.receiver_id = 4;
    n.answer(&a, 0);
    n.answer(&a, 0);
    a.sender_id = 1;
    n.answer(&a, 0);
    assert_eq!(n.status, NodeStatus::Running);
    assert_eq!(n.supporting_nodes.len(), 3);
    a.sender_id = 2;
    n.answer(&a, 0);
    assert_eq!(n.status, NodeStatus::Leading);
    assert_eq!(n.epoch, 1);
    assert_eq!(n.leader_id, None);
    assert!(n.supporting_nodes.is_empty());
}

#[test]
fn reject_from_better_node_ends_campaign() {
    let mut n = Node::new(1, 5, 0);
    n.monitor(1000);
    n.answer(&msg(2, MessageType::Reject, 1, 0), 1500);
    assert_eq!(n.status, NodeStatus::Following);
    assert_eq!(n.leader_id, None);
    assert_eq!(n.last_alive_from_leader, 1500);
    assert!(n.supporting_nodes.is_empty());
}

#[test]
fn reject_from_lesser_node_keeps_campaign() {
    let mut n = Node::new(3, 5, 0);
    n.monitor(1000);
    // Epoch 0, zxid 0 and a lower id: the rejecting node is a lesser leader.
    n.answer(&msg(0, MessageType::Reject, 0, 0), 1500);
    assert_eq!(n.status, NodeStatus::Running);
    assert_eq!(n.epoch, 1);
    assert!(n.supporting_nodes.contains(&3));
}

#[test]
fn reject_from_higher_epoch_ends_campaign() {
    let mut n = Node::new(3, 5, 0);
    n.monitor(1000);
    n.answer(&msg(0, MessageType::Reject, 2, 0), 1500);
    assert_eq!(n.status, NodeStatus::Following);
    assert_eq!(n.epoch, 1);
}

#[test]
fn leaderless_follower_follows_better_heartbeat_and_discovers() {
    let mut n = follower_of(1, 5, 0, 1, &[1, 2]);
    n.leader_id = None;
    let out = n.answer(&msg(3, MessageType::Heartbeat, 2, 2), 500);
    assert_eq!(n.leader_id, Some(3));
    assert_eq!(n.epoch, 2);
    assert_eq!(n.last_alive_from_leader, 500);
    assert_eq!(kinds(&out), vec![MessageType::Recovery, MessageType::Recovery, MessageType::SyncRequest]);
    assert_eq!(out[0].msg.tx.zxid, 1);
    assert_eq!(out[1].msg.tx.zxid, 2);
    assert!(out.iter().all(|o| o.msg.receiver_id == 3 && o.msg.sender_id == 1));
    assert_eq!(out[0].pause_ms, 0);
    assert_eq!(out[2].pause_ms, DISCOVERY_PAUSE_MS);
}

#[test]
fn lesser_heartbeat_changes_nothing() {
    let mut n = follower_of(7, 10, 0, 3, &[1]);
    n.leader_id = None;
    let out = n.answer(&msg(2, MessageType::Heartbeat, 3, 1), 10);
    assert!(out.is_empty());
    assert_eq!(n.leader_id, None);
    assert_eq!(n.epoch, 3);
    // A stale heartbeat with a lower epoch never lowers it.
    n.answer(&msg(2, MessageType::Heartbeat, 1, 1), 10);
    assert_eq!(n.epoch, 3);
}

#[test]
fn heartbeat_from_leader_refreshes_follower() {
    let mut n = follower_of(1, 3, 2, 1, &[]);
    n.answer(&msg(2, MessageType::Heartbeat, 4, 0), 9000);
    assert_eq!(n.last_alive_from_leader, 9000);
    assert_eq!(n.epoch, 4);
    n.answer(&msg(0, MessageType::Heartbeat, 9, 0), 9999);
    assert_eq!(n.last_alive_from_leader, 9000);
    assert_eq!(n.leader_id, Some(2));
}

#[test]
fn candidate_gives_up_on_better_heartbeat() {
    let mut n = Node::new(1, 3, 0);
    n.monitor(1000);
    n.answer(&msg(2, MessageType::Heartbeat, 1, 0), 1200);
    assert_eq!(n.status, NodeStatus::Following);
    assert_eq!(n.leader_id, None);
    assert_eq!(n.last_alive_from_leader, 1200);
}

#[test]
fn leader_steps_down_for_better_leader() {
    let mut n = leader(1, 3, 2, &[1]);
    let out = n.answer(&msg(2, MessageType::Heartbeat, 3, 1), 50);
    assert_eq!(n.status, NodeStatus::Following);
    assert_eq!(n.leader_id, Some(2));
    assert_eq!(n.epoch, 3);
    assert_eq!(kinds(&out), vec![MessageType::Recovery, MessageType::SyncRequest]);
}

#[test]
fn leader_ignores_lesser_heartbeat() {
    let mut n = leader(2, 3, 2, &[1]);
    let out = n.answer(&msg(1, MessageType::Heartbeat, 2, 1), 50);
    assert!(out.is_empty());
    assert_eq!(n.status, NodeStatus::Leading);
    assert_eq!(n.epoch, 2);
    assert_eq!(n.leader_id, None);
}

#[test]
fn campaign_raises_epoch_and_win_keeps_it() {
    let mut n = Node::new(2, 3, 0);
    let out = n.monitor(1000);
    assert_eq!(n.epoch, 1);
    assert_eq!(out[0].msg.epoch, 1);
    n.answer(&msg(0, MessageType::Approve, 1, 0), 1000);
    n.answer(&msg(1, MessageType::Approve, 1, 0), 1000);
    assert_eq!(n.status, NodeStatus::Leading);
    assert_eq!(n.epoch, 1);
}

#[test]
fn leader_stamps_client_write() {
    let mut n = leader(0, 3, 2, &[1, 2]);
    let mut w = Message::new(COORDINATOR_ID, MessageType::Write);
    w.receiver_id = 0;
    w.tx = tx(-1, "a");
    let out = n.answer(&w, 0);
    assert_eq!(zxids(&n), vec![1, 2, 3]);
    assert_eq!(n.history[2].key, "a");
    assert_eq!(out.len(), 1);
    assert_eq!(out[0].msg.msg_type, MessageType::Write);
    assert_eq!(out[0].msg.receiver_id, BROADCAST_ID);
    assert_eq!(out[0].msg.epoch, 2);
    assert_eq!(out[0].msg.tx.zxid, 3);
    assert_eq!(out[0].msg.tx.key, "a");
    assert_eq!(out[0].msg.tx.val, "val-a");
}

#[test]
fn leader_ignores_writes_from_other_nodes() {
    let mut n = leader(0, 3, 2, &[1]);
    let mut w = msg(1, MessageType::Write, 2, 0);
    w.tx = tx(2, "b");
    assert!(n.answer(&w, 0).is_empty());
    assert_eq!(zxids(&n), vec![1]);
}

#[test]
fn follower_appends_next_proposal_and_acks() {
    let mut n = follower_of(1, 3, 0, 2, &[1]);
    let mut w = msg(0, MessageType::Write, 2, 2);
    w.tx = tx(2, "b");
    let out = n.answer(&w, 0);
    assert_eq!(zxids(&n), vec![1, 2]);
    assert_eq!(out.len(), 1);
    assert_eq!(out[0].msg.msg_type, MessageType::AckTX);
    assert_eq!(out[0].msg.receiver_id, 0);
    assert_eq!(out[0].msg.last_zxid, 2);
    assert_eq!(out[0].msg.epoch, 2);
}

#[test]
fn follower_ignores_out_of_order_or_foreign_proposals() {
    let mut n = follower_of(1, 3, 0, 2, &[1]);
    let mut w = msg(0, MessageType::Write, 2, 3);
    w.tx = tx(3, "c");
    assert!(n.answer(&w, 0).is_empty());
    w.tx = tx(1, "a");
    assert!(n.answer(&w, 0).is_empty());
    w.sender_id = 2;
    w.tx = tx(2, "b");
    assert!(n.answer(&w, 0).is_empty());
    assert_eq!(zxids(&n), vec![1]);
}

#[test]
fn commit_needs_strictly_more_than_quorum_acks() {
    // Five nodes: the quorum is 3, so four distinct followers must acknowledge.
    let mut n = leader(0, 5, 1, &[1]);
    let ack = |s: i32| {
        let mut m = msg(s, MessageType::AckTX, 1, 1);
        m.receiver_id = 0;
        m
    };
    for s in [1, 2, 3, 3, 1] {
        assert!(n.answer(&ack(s), 0).is_empty());
        assert_eq!(n.committed_zxid, 0);
    }
    assert_eq!(n.supporting_nodes.len(), 3);
    let out = n.answer(&ack(4), 0);
    assert_eq!(n.committed_zxid, 1);
    assert!(n.supporting_nodes.is_empty());
    assert_eq!(out.len(), 1);
    assert_eq!(out[0].msg.msg_type, MessageType::Commit);
    assert_eq!(out[0].msg.epoch, 1);
    assert_eq!(out[0].msg.last_zxid, 1);
    assert_eq!(out[0].msg.receiver_id, BROADCAST_ID);
}

#[test]
fn stale_acks_do_not_count() {
    let mut n = leader(0, 3, 2, &[1, 2]);
    n.answer(&msg(1, MessageType::AckTX, 2, 1), 0);
    n.answer(&msg(2, MessageType::AckTX, 1, 2), 0);
    assert!(n.supporting_nodes.is_empty());
    assert_eq!(n.committed_zxid, 0);
}

#[test]
fn follower_applies_matching_commit() {
    let mut n = follower_of(1, 3, 0, 2, &[1, 2]);
    n.answer(&msg(0, MessageType::Commit, 2, 1), 0);
    assert_eq!(n.committed_zxid, 0);
    n.answer(&msg(2, MessageType::Commit, 2, 2), 0);
    assert_eq!(n.committed_zxid, 0);
    n.answer(&msg(0, MessageType::Commit, 2, 2), 0);
    assert_eq!(n.committed_zxid, 2);
}

#[test]
fn execute_tx_applies_tail() {
    let mut n = follower_of(1, 3, 0, 2, &[4, 6]);
    n.execute_tx();
    assert_eq!(n.committed_zxid, 6);
}

#[test]
fn leader_answers_sync_request_with_snapshot() {
    let mut n = leader(0, 3, 2, &[1, 2]);
    let mut r = Message::new(1, MessageType::SyncRequest);
    r.receiver_id = 0;
    let out = n.answer(&r, 0);
    assert_eq!(out.len(), 1);
    assert_eq!(out[0].msg.msg_type, MessageType::Sync);
    assert_eq!(out[0].msg.sender_id, 0);
    assert_eq!(out[0].msg.receiver_id, 1);
    assert_eq!(out[0].msg.history.iter().map(|t| t.zxid).collect::<Vec<_>>(), vec![1, 2]);
    let mut f = follower_of(1, 3, 1, 2, &[]);
    assert!(f.answer(&r, 0).is_empty());
}

#[test]
fn follower_takes_snapshot_from_leader_only() {
    let mut n = follower_of(1, 3, 0, 2, &[1]);
    let mut s = msg(0, MessageType::Sync, 2, 3);
    s.receiver_id = 1;
    s.history = vec![tx(1, "a"), tx(2, "b"), tx(3, "c")];
    n.answer(&s, 0);
    assert_eq!(zxids(&n), vec![1, 2, 3]);
    let mut bad = s.clone();
    bad.history = vec![tx(2, "b"), tx(1, "a")];
    n.answer(&bad, 0);
    assert_eq!(zxids(&n), vec![1, 2, 3]);
    let mut foreign = s.clone();
    foreign.sender_id = 2;
    foreign.history = vec![];
    n.answer(&foreign, 0);
    assert_eq!(zxids(&n), vec![1, 2, 3]);
}

#[test]
fn recovery_fills_interior_gap() {
    let mut n = leader(0, 3, 1, &[1, 4]);
    let mut r = Message::new(1, MessageType::Recovery);
    r.tx = tx(2, "two");
    n.answer(&r, 0);
    assert_eq!(zxids(&n), vec![1, 2, 4]);
    assert_eq!(n.history[1].key, "two");
}

#[test]
fn recovery_into_empty_log() {
    let mut n = leader(0, 3, 1, &[]);
    let mut r = Message::new(1, MessageType::Recovery);
    r.tx = tx(5, "five");
    n.answer(&r, 0);
    assert_eq!(zxids(&n), vec![5]);
}

#[test]
fn recovery_does_not_merge_at_boundaries() {
    let mut n = leader(0, 3, 1, &[3, 4]);
    let mut r = Message::new(1, MessageType::Recovery);
    r.tx = tx(1, "one");
    n.answer(&r, 0);
    r.tx = tx(9, "nine");
    n.answer(&r, 0);
    assert_eq!(zxids(&n), vec![3, 4]);
}

#[test]
fn recovery_replayed_twice_adds_one_entry() {
    let mut n = leader(0, 3, 1, &[1, 3]);
    let mut r = Message::new(2, MessageType::Recovery);
    r.tx = tx(2, "two");
    n.answer(&r, 0);
    n.answer(&r, 0);
    assert_eq!(zxids(&n), vec![1, 2, 3]);
    let mut e = leader(0, 3, 1, &[]);
    e.answer(&r, 0);
    e.answer(&r, 0);
    assert_eq!(zxids(&e), vec![2]);
}

#[test]
fn followers_ignore_recovery() {
    let mut n = follower_of(1, 3, 0, 1, &[1, 3]);
    let mut r = Message::new(2, MessageType::Recovery);
    r.tx = tx(2, "two");
    n.answer(&r, 0);
    assert_eq!(zxids(&n), vec![1, 3]);
}

#[test]
fn crash_wipes_log_and_role() {
    let mut n = leader(0, 3, 5, &[1, 2]);
    n.execute_tx();
    n.crash();
    assert_eq!(n.status, NodeStatus::Following);
    assert!(n.history.is_empty());
    assert_eq!(n.committed_zxid, 0);
    assert_eq!(n.epoch, 5);
}
