//! The byte form in which records are kept in the store.
use crate::message::{
    pending_records, queue_entries, FluffTransitionMessage, MessageCache, PendingMessageCache,
};
use vstd::prelude::*;

#[allow(unused_imports)]
use crate::message::{PendingRecord, QueueEntry};

verus! {

/// What `bincode::encode_to_vec` writes for these records of pending messages.
pub uninterp spec fn pending_encoding(records: Seq<PendingRecord>) -> Seq<u8>;

/// The records of pending messages that `bincode::serde::decode_from_slice` reads from these
/// bytes, if it reads any list of records at all, on a machine whose addresses have `word_bits`
/// bits: a declared length that does not fit is cut to that width.
pub uninterp spec fn pending_decoding(bytes: Seq<u8>, word_bits: nat) -> Option<Seq<PendingRecord>>;

/// What `bincode::encode_to_vec` writes for these queue entries.
pub uninterp spec fn queue_encoding(entries: Seq<QueueEntry>) -> Seq<u8>;

/// The queue entries that `bincode::serde::decode_from_slice` reads from these bytes, if it reads
/// any list of entries at all, on a machine whose addresses have `word_bits` bits: a declared
/// length that does not fit is cut to that width.
pub uninterp spec fn queue_decoding(bytes: Seq<u8>, word_bits: nat) -> Option<Seq<QueueEntry>>;

/// Writes records with `bincode::encode_to_vec` in its standard configuration: their number, then
/// the fields of each in order. Writing to a vector does not fail, and what is written is read
/// back on the same machine as it was.
#[verifier::external_body]
pub(crate) fn encode_pending(records: &Vec<PendingMessageCache>) -> (bytes: Vec<u8>)
    ensures
        bytes@ == pending_encoding(pending_records(records@)),
        pending_decoding(bytes@, usize::BITS as nat) == Some(pending_records(records@)),
{
    let rows: Vec<_> = records
        .iter()
        .map(|r| (&r.msg_id, &r.content, &r.received_at, &r.source, r.relayed))
        .collect();
    bincode::encode_to_vec(&rows, bincode::config::standard()).unwrap_or_default()
}

/// Reads records with `bincode::serde::decode_from_slice` in the standard configuration. A declared
/// length that the bytes do not bear out makes it fail, and sets aside a bounded amount of memory
/// only. What follows the records is not looked at.
#[verifier::external_body]
pub(crate) fn decode_pending(bytes: &[u8]) -> (records: Option<Vec<PendingMessageCache>>)
    ensures
        records is None <==> pending_decoding(bytes@, usize::BITS as nat) is None,
        records matches Some(r) ==> pending_decoding(bytes@, usize::BITS as nat) == Some(pending_records(r@)),
{
    let rows: Vec<(Vec<u8>, Vec<u8>, Vec<u8>, Vec<u8>, bool)> =
        bincode::serde::decode_from_slice(bytes, bincode::config::standard()).ok()?.0;
    let record = |(msg_id, content, received_at, source, relayed)| PendingMessageCache {
        msg_id, content, received_at, source, relayed,
    };
    Some(rows.into_iter().map(record).collect())
}

/// Writes queue entries with `bincode::encode_to_vec` in its standard configuration: their number,
/// then the fields of each in order, the sequence number as the eight bytes of a double-precision
/// number. Writing to a vector does not fail, and what is written is read back on the same
/// machine as it was.
#[verifier::external_body]
pub(crate) fn encode_queue(entries: &Vec<MessageCache>) -> (bytes: Vec<u8>)
    ensures
        bytes@ == queue_encoding(queue_entries(entries@)),
        queue_decoding(bytes@, usize::BITS as nat) == Some(queue_entries(entries@)),
{
    let row = |e: &MessageCache| {
        let sequence = e.fluff_msg.sequence_number.to_le_bytes();
        let message = (e.fluff_msg.source, e.fluff_msg.data.clone(), sequence);
        (e.peers.clone(), e.msg_id.clone(), message, e.is_fluff)
    };
    let rows: Vec<_> = entries.iter().map(row).collect();
    bincode::encode_to_vec(&rows, bincode::config::standard()).unwrap_or_default()
}

/// Reads queue entries with `bincode::serde::decode_from_slice` in the standard configuration. A
/// declared length that the bytes do not bear out makes it fail, and sets aside a bounded amount of
/// memory only. What follows the entries is not looked at.
#[verifier::external_body]
pub(crate) fn decode_queue(bytes: &[u8]) -> (entries: Option<Vec<MessageCache>>)
    ensures
        entries is None <==> queue_decoding(bytes@, usize::BITS as nat) is None,
        entries matches Some(e) ==> queue_decoding(bytes@, usize::BITS as nat) == Some(queue_entries(e@)),
{
    let rows: Vec<(Vec<Vec<u8>>, Vec<u8>, (Option<u64>, Vec<u8>, [u8; 8]), bool)> =
        bincode::serde::decode_from_slice(bytes, bincode::config::standard()).ok()?.0;
    let entry = |(peers, msg_id, (source, data, sequence), is_fluff)| MessageCache {
        peers,
        msg_id,
        fluff_msg: FluffTransitionMessage { source, data, sequence_number: u64::from_le_bytes(sequence) },
        is_fluff,
    };
    Some(rows.into_iter().map(entry).collect())
}

} // verus!
