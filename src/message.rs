//! The protocol vocabulary: transactions, message kinds and the message envelope.
use vstd::prelude::*;

verus! {

/// Receiver id meaning "every node should evaluate this message".
pub const BROADCAST_ID: i32 = -1;

/// Sender id of the cluster coordinator, which also submits client writes.
pub const COORDINATOR_ID: i32 = -2;

/// What a transaction does to its key.
#[derive(Clone, Copy, Debug, PartialEq, Eq, Structural)]
pub enum TxActions {
    NA,
    Del,
    New,
}

/// One write intent, or one entry of a node's history.
#[derive(Debug)]
pub struct Transaction {
    pub zxid: i32,
    pub action: TxActions,
    pub key: String,
    pub val: String,
}

impl Clone for Transaction {
    fn clone(&self) -> (r: Self)
        ensures
            r == *self,
    {
        Transaction { zxid: self.zxid, action: self.action, key: self.key.clone(), val: self.val.clone() }
    }
}

impl Transaction {
    /// A blank transaction: no zxid assigned yet, no action, empty key and value.
    pub fn new() -> (r: Transaction)
        ensures
            r.zxid == -1,
            r.action == TxActions::NA,
            r.key@ == Seq::<char>::empty(),
            r.val@ == Seq::<char>::empty(),
    {
        Transaction { zxid: -1, action: TxActions::NA, key: String::new(), val: String::new() }
    }
}

/// The kinds of message that travel on the bus.
#[derive(Clone, Copy, Debug, PartialEq, Eq, Structural)]
pub enum MessageType {
    Blank,
    Heartbeat,
    Running,
    Approve,
    Reject,
    Recovery,
    SyncRequest,
    Sync,
    Write,
    AckTX,
    Commit,
    Quit,
}

/// The only unit of communication between nodes and the coordinator.
#[derive(Debug)]
pub struct Message {
    pub msg_type: MessageType,
    pub sender_id: i32,
    pub last_zxid: i32,
    pub epoch: i32,
    pub receiver_id: i32,
    pub tx: Transaction,
    pub history: Vec<Transaction>,
}

impl Clone for Message {
    fn clone(&self) -> (r: Self)
        ensures
            r.msg_type == self.msg_type,
            r.sender_id == self.sender_id,
            r.last_zxid == self.last_zxid,
            r.epoch == self.epoch,
            r.receiver_id == self.receiver_id,
            r.tx == self.tx,
            r.history@ == self.history@,
    {
        let history = self.history.clone();
        assert(history@ =~= self.history@);
        Message {
            msg_type: self.msg_type,
            sender_id: self.sender_id,
            last_zxid: self.last_zxid,
            epoch: self.epoch,
            receiver_id: self.receiver_id,
            tx: self.tx.clone(),
            history,
        }
    }
}

impl Message {
    /// Whether `m` has the neutral field values that `Message::new` gives.
    pub open spec fn is_fresh(m: Message, sender_id: i32, msg_type: MessageType) -> bool {
        &&& m.sender_id == sender_id
        &&& m.msg_type == msg_type
        &&& m.last_zxid == 0
        &&& m.epoch == 0
        &&& m.receiver_id == BROADCAST_ID
        &&& m.tx.zxid == -1
        &&& m.tx.action == TxActions::NA
        &&& m.tx.key@ == Seq::<char>::empty()
        &&& m.tx.val@ == Seq::<char>::empty()
        &&& m.history@ == Seq::<Transaction>::empty()
    }

    /// A message from `sender_id` of kind `msg_type`, addressed to everyone, with
    /// every other field neutral.
    pub fn new(sender_id: i32, msg_type: MessageType) -> (r: Message)
        ensures
            Message::is_fresh(r, sender_id, msg_type),
    {
        Message {
            msg_type,
            sender_id,
            last_zxid: 0,
            epoch: 0,
            receiver_id: BROADCAST_ID,
            tx: Transaction::new(),
            history: Vec::new(),
        }
    }
}

} // verus!
