//! Messages on their way through the node, and the records that the store keeps of them.
use crate::bytes::copy_bytes;
use crate::peer::{optional_peer_bytes, PeerId};
use vstd::prelude::*;

verus! {

/// A message that waits to be propagated.
pub struct PendingMessage {
    /// the message to broadcast
    pub content: Vec<u8>,
    /// time of receipt, in nanoseconds since the Unix epoch
    pub received_at: u128,
    /// peer that the message came from
    pub source: Option<PeerId>,
    /// status of relay
    pub relayed: bool,
}

/// What a pending message holds.
#[verifier::ext_equal]
pub struct PendingMessageView {
    pub content: Seq<u8>,
    pub received_at: nat,
    pub source: Option<Seq<u8>>,
    pub relayed: bool,
}

impl View for PendingMessage {
    type V = PendingMessageView;

    open spec fn view(&self) -> PendingMessageView {
        PendingMessageView {
            content: self.content@,
            received_at: self.received_at as nat,
            source: optional_peer_bytes(self.source),
            relayed: self.relayed,
        }
    }
}

impl Clone for PendingMessage {
    /// Another message with the same contents.
    fn clone(&self) -> (copy: PendingMessage)
        ensures
            copy@ == self@,
    {
        let source = match &self.source {
            Some(peer) => Some(peer.clone()),
            None => None,
        };
        PendingMessage {
            content: copy_bytes(&self.content),
            received_at: self.received_at,
            source,
            relayed: self.relayed,
        }
    }
}

/// The record that the store keeps of a pending message.
#[derive(Debug)]
pub struct PendingMessageCache {
    /// identifier of the message
    pub msg_id: Vec<u8>,
    /// the message to broadcast
    pub content: Vec<u8>,
    /// Unix timestamp of the message's reception, in nanoseconds, most significant byte first
    pub received_at: Vec<u8>,
    /// bytes of the peer that the message came from
    pub source: Vec<u8>,
    /// status of relay
    pub relayed: bool,
}

/// What the record of a pending message holds.
#[verifier::ext_equal]
pub struct PendingRecord {
    pub msg_id: Seq<u8>,
    pub content: Seq<u8>,
    pub received_at: Seq<u8>,
    pub source: Seq<u8>,
    pub relayed: bool,
}

impl View for PendingMessageCache {
    type V = PendingRecord;

    open spec fn view(&self) -> PendingRecord {
        PendingRecord {
            msg_id: self.msg_id@,
            content: self.content@,
            received_at: self.received_at@,
            source: self.source@,
            relayed: self.relayed,
        }
    }
}

impl Clone for PendingMessageCache {
    /// Another record with the same contents.
    fn clone(&self) -> (copy: PendingMessageCache)
        ensures
            copy@ == self@,
            copy.msg_id@ == self.msg_id@,
            copy.content@ == self.content@,
            copy.received_at@ == self.received_at@,
            copy.source@ == self.source@,
            copy.relayed == self.relayed,
    {
        PendingMessageCache {
            msg_id: copy_bytes(&self.msg_id),
            content: copy_bytes(&self.content),
            received_at: copy_bytes(&self.received_at),
            source: copy_bytes(&self.source),
            relayed: self.relayed,
        }
    }
}

/// What a list of records of pending messages holds.
pub open spec fn pending_records(records: Seq<PendingMessageCache>) -> Seq<PendingRecord> {
    records.map_values(|record: PendingMessageCache| record@)
}

/// A message as it is handed on to other peers.
#[derive(Debug)]
pub struct FluffTransitionMessage {
    /// masked source of the message
    pub source: Option<u64>,
    /// message content
    pub data: Vec<u8>,
    /// randomized sequence number for the message: the bits of a double-precision number
    pub sequence_number: u64,
}

impl Default for FluffTransitionMessage {
    /// An empty message without a source.
    fn default() -> (message: FluffTransitionMessage)
        ensures
            message.source is None,
            message.data@ == Seq::<u8>::empty(),
            message.sequence_number == 0,
    {
        FluffTransitionMessage { source: None, data: Vec::new(), sequence_number: 0 }
    }
}

/// A queue entry: the peers to which a message goes next.
#[derive(Debug)]
pub struct MessageCache {
    /// bytes of each of the peers
    pub peers: Vec<Vec<u8>>,
    /// identifier of the message
    pub msg_id: Vec<u8>,
    /// the message as the peers get it
    pub fluff_msg: FluffTransitionMessage,
    /// whether the message was selected for the fluff phase
    pub is_fluff: bool,
}

/// What a queue entry holds.
#[verifier::ext_equal]
pub struct QueueEntry {
    pub peers: Seq<Seq<u8>>,
    pub msg_id: Seq<u8>,
    pub source: Option<u64>,
    pub data: Seq<u8>,
    pub sequence_number: u64,
    pub is_fluff: bool,
}

/// The contents of a list of byte strings.
pub open spec fn byte_strings(list: Seq<Vec<u8>>) -> Seq<Seq<u8>> {
    list.map_values(|bytes: Vec<u8>| bytes@)
}

impl View for MessageCache {
    type V = QueueEntry;

    open spec fn view(&self) -> QueueEntry {
        QueueEntry {
            peers: byte_strings(self.peers@),
            msg_id: self.msg_id@,
            source: self.fluff_msg.source,
            data: self.fluff_msg.data@,
            sequence_number: self.fluff_msg.sequence_number,
            is_fluff: self.is_fluff,
        }
    }
}

/// What a list of queue entries holds.
pub open spec fn queue_entries(entries: Seq<MessageCache>) -> Seq<QueueEntry> {
    entries.map_values(|entry: MessageCache| entry@)
}

/// A list of records of pending messages holds just what the records hold, in their order.
pub proof fn records_hold_their_fields(records: Seq<PendingMessageCache>, i: int)
    requires
        0 <= i < records.len(),
    ensures
        pending_records(records).len() == records.len(),
        pending_records(records)[i].msg_id == records[i].msg_id@,
        pending_records(records)[i].content == records[i].content@,
        pending_records(records)[i].received_at == records[i].received_at@,
        pending_records(records)[i].source == records[i].source@,
        pending_records(records)[i].relayed == records[i].relayed,
{
}

/// A list of queue entries holds just what the entries hold, in their order.
pub proof fn entries_hold_their_fields(entries: Seq<MessageCache>, i: int)
    requires
        0 <= i < entries.len(),
    ensures
        queue_entries(entries).len() == entries.len(),
        queue_entries(entries)[i].peers.len() == entries[i].peers@.len(),
        forall|j: int|
            0 <= j < entries[i].peers@.len() ==> #[trigger] queue_entries(entries)[i].peers[j]
                == entries[i].peers@[j]@,
        queue_entries(entries)[i].msg_id == entries[i].msg_id@,
        queue_entries(entries)[i].source == entries[i].fluff_msg.source,
        queue_entries(entries)[i].data == entries[i].fluff_msg.data@,
        queue_entries(entries)[i].sequence_number == entries[i].fluff_msg.sequence_number,
        queue_entries(entries)[i].is_fluff == entries[i].is_fluff,
{
}

} // verus!
