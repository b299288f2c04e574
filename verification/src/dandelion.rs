//! Which waiting messages are due, and what the store is told of them.
use crate::bytes::{big_endian_u64, copy_bytes, same_bytes};
use crate::codec::{decode_pending, encode_pending};
use crate::message::{pending_records, PendingMessage, PendingMessageCache};
use crate::peer::PeerId;
use crate::pending::PendingMessages;
use vstd::prelude::*;

#[allow(unused_imports)]
use crate::bytes::big_endian_bytes;
#[allow(unused_imports)]
use crate::codec::{pending_decoding, pending_encoding};
#[allow(unused_imports)]
use crate::message::{PendingMessageView, PendingRecord};
#[allow(unused_imports)]
use crate::peer::canonical_peer;
#[allow(unused_imports)]
use crate::pending::{with_new, Pending};

verus! {

/// Whether a message has waited at least `timeout` nanoseconds at the time `now`. A message that
/// seems to come from the future has not waited at all.
pub open spec fn is_due(message: PendingMessageView, timeout: nat, now: nat) -> bool {
    let waited: nat = if now >= message.received_at { (now - message.received_at) as nat } else { 0 };
    waited >= timeout
}

/// A message that `source` handed on at the time `now`.
pub open spec fn fresh_message(content: Seq<u8>, source: Seq<u8>, now: nat) -> PendingMessageView {
    PendingMessageView { content, received_at: now, source: Some(source), relayed: false }
}

/// The record that the store keeps of a waiting message whose source is known.
pub open spec fn record_of(entry: Pending) -> PendingRecord {
    PendingRecord {
        msg_id: entry.0,
        content: entry.1.content,
        received_at: big_endian_bytes(entry.1.received_at, 8),
        source: entry.1.source->0,
        relayed: entry.1.relayed,
    }
}

/// The messages that are due at the time `now`, in the order in which they stand.
pub open spec fn due_messages(pending: Seq<Pending>, timeout: nat, now: nat) -> Seq<Pending> {
    pending.filter(|entry: Pending| is_due(entry.1, timeout, now))
}

/// The records of the messages that are due at the time `now`.
pub open spec fn due_records(pending: Seq<Pending>, timeout: nat, now: nat) -> Seq<PendingRecord> {
    due_messages(pending, timeout, now).map_values(|entry: Pending| record_of(entry))
}

/// Whether the source of every message that is due at the time `now` is known.
pub open spec fn due_sources_known(pending: Seq<Pending>, timeout: nat, now: nat) -> bool {
    forall|i: int|
        0 <= i < pending.len() && is_due((#[trigger] pending[i]).1, timeout, now)
            ==> pending[i].1.source is Some
}

/// Whether a record tells a message: its identifier and contents, when it came, from whom, and
/// whether it was relayed.
pub open spec fn holds_message(record: PendingMessageCache, entry: Pending) -> bool {
    &&& record.msg_id@ == entry.0
    &&& record.content@ == entry.1.content
    &&& record.received_at@ == big_endian_bytes(entry.1.received_at, 8)
    &&& Some(record.source@) == entry.1.source
    &&& record.relayed == entry.1.relayed
}

/// Whether a record tells a waiting message that came `timeout` or more before `now`.
pub open spec fn tells_of_a_due_message(
    record: PendingMessageCache,
    pending: Seq<Pending>,
    timeout: nat,
    now: nat,
) -> bool {
    exists|i: int|
        {
            &&& 0 <= i < pending.len()
            &&& holds_message(record, #[trigger] pending[i])
            &&& timeout == 0 || now >= pending[i].1.received_at + timeout
        }
}

/// Whether one of the records tells a message.
pub open spec fn is_told_of(entry: Pending, records: Seq<PendingMessageCache>) -> bool {
    exists|k: int| 0 <= k < records.len() && holds_message(#[trigger] records[k], entry)
}

/// Whether the source of every record is read as it stands.
pub open spec fn sources_read(records: Seq<PendingRecord>) -> bool {
    forall|i: int|
        0 <= i < records.len() ==> canonical_peer((#[trigger] records[i]).source) == Some(records[i].source)
}

/// Whether a record at or after `from` has the identifier `id`.
pub open spec fn id_from(records: Seq<PendingRecord>, from: int, id: Seq<u8>) -> bool {
    exists|i: int| from <= i < records.len() && #[trigger] records[i].msg_id == id
}

/// Those of the first `count` records whose identifier no later record has.
pub open spec fn last_of_each_id(records: Seq<PendingRecord>, count: nat) -> Seq<PendingRecord>
    decreases count,
{
    if count == 0 {
        Seq::empty()
    } else {
        let earlier = last_of_each_id(records, (count - 1) as nat);
        if id_from(records, count as int, records[count - 1].msg_id) {
            earlier
        } else {
            earlier.push(records[count - 1])
        }
    }
}

/// The records of pending messages that `bytes` hold. Bytes that hold no list of records hold
/// none; where two records have the same identifier, the later one counts.
pub open spec fn stored_pending(bytes: Seq<u8>) -> Seq<PendingRecord> {
    match pending_decoding(bytes, usize::BITS as nat) {
        Some(records) => last_of_each_id(records, records.len()),
        None => Seq::empty(),
    }
}

/// The messages of a node that wait to be propagated.
pub struct Dandelion {
    /// nanoseconds that a message waits before it is propagated
    pub stem_timeout: u128,
    /// messages to propagate
    pub pending_messages: PendingMessages,
}

impl Clone for Dandelion {
    /// The same messages and the same time to wait.
    fn clone(&self) -> (copy: Dandelion)
        ensures
            copy.stem_timeout == self.stem_timeout,
            copy.pending_messages@ == self.pending_messages@,
    {
        Dandelion { stem_timeout: self.stem_timeout, pending_messages: self.pending_messages.clone() }
    }
}

impl Dandelion {
    /// No identifier occurs twice among the waiting messages.
    pub open spec fn wf(&self) -> bool {
        self.pending_messages.wf()
    }

    /// No message waits yet.
    pub fn new(stem_timeout: u128) -> (dandelion: Dandelion)
        ensures
            dandelion.wf(),
            dandelion.stem_timeout == stem_timeout,
            dandelion.pending_messages@ == Seq::<Pending>::empty(),
    {
        Dandelion { stem_timeout, pending_messages: PendingMessages::new() }
    }

    /// Takes in a message that `source` handed on, unless one with the same identifier waits
    /// already.
    pub fn receive(&mut self, id: Vec<u8>, content: Vec<u8>, source: PeerId, now: u128)
        requires
            old(self).wf(),
        ensures
            final(self).wf(),
            final(self).stem_timeout == old(self).stem_timeout,
            final(self).pending_messages@ == with_new(
                old(self).pending_messages@,
                id@,
                fresh_message(content@, source@, now as nat),
            ),
            (forall|i: int|
                0 <= i < old(self).pending_messages@.len() ==> (#[trigger] old(self).pending_messages@[i]).0
                    != id@) ==> final(self).pending_messages@ == old(self).pending_messages@.push(
                (
                    id@,
                    PendingMessageView {
                        content: content@,
                        received_at: now as nat,
                        source: Some(source@),
                        relayed: false,
                    },
                ),
            ),
            (exists|i: int|
                0 <= i < old(self).pending_messages@.len() && (#[trigger] old(self).pending_messages@[i]).0
                    == id@) ==> final(self).pending_messages@ == old(self).pending_messages@,
    {
        let message = PendingMessage { content, received_at: now, source: Some(source), relayed: false };
        self.pending_messages.insert_new(id, message);
    }

    /// Whether the source of every message that is due at the time `now` is known.
    pub fn sources_known(&self, now: u128) -> (known: bool)
        ensures
            known == due_sources_known(self.pending_messages@, self.stem_timeout as nat, now as nat),
            known <==> forall|i: int|
                0 <= i < self.pending_messages@.len() && (self.stem_timeout == 0 || now
                    >= (#[trigger] self.pending_messages@[i]).1.received_at + self.stem_timeout)
                    ==> self.pending_messages@[i].1.source is Some,
    {
        let ghost pending = self.pending_messages@;
        let mut i: usize = 0;
        while i < self.pending_messages.len()
            invariant
                pending == self.pending_messages@,
                i <= pending.len(),
                forall|j: int|
                    0 <= j < i && is_due((#[trigger] pending[j]).1, self.stem_timeout as nat, now as nat)
                        ==> pending[j].1.source is Some,
            decreases pending.len() - i,
        {
            let (_id, message) = self.pending_messages.at(i);
            if now.saturating_sub(message.received_at) >= self.stem_timeout && message.source.is_none() {
                assert(is_due(pending[i as int].1, self.stem_timeout as nat, now as nat));
                return false;
            }
            i += 1;
        }
        true
    }

    /// The records of the messages that are due at the time `now`.
    pub fn due(&self, now: u128) -> (records: Vec<PendingMessageCache>)
        requires
            due_sources_known(self.pending_messages@, self.stem_timeout as nat, now as nat),
        ensures
            pending_records(records@) == due_records(
                self.pending_messages@,
                self.stem_timeout as nat,
                now as nat,
            ),
            sources_read(pending_records(records@)),
            forall|k: int|
                0 <= k < records@.len() ==> tells_of_a_due_message(
                    #[trigger] records@[k],
                    self.pending_messages@,
                    self.stem_timeout as nat,
                    now as nat,
                ),
            forall|i: int|
                0 <= i < self.pending_messages@.len() && (self.stem_timeout == 0 || now
                    >= (#[trigger] self.pending_messages@[i]).1.received_at + self.stem_timeout)
                    ==> is_told_of(self.pending_messages@[i], records@),
    {
        let ghost pending = self.pending_messages@;
        let ghost timeout = self.stem_timeout as nat;
        let ghost due = |entry: Pending| is_due(entry.1, timeout, now as nat);
        let ghost record = |entry: Pending| record_of(entry);
        let mut records: Vec<PendingMessageCache> = Vec::new();
        let mut i: usize = 0;
        proof {
            reveal(Seq::filter);
            assert(pending_records(records@) =~= pending.take(0).filter(due).map_values(record));
        }
        while i < self.pending_messages.len()
            invariant
                pending == self.pending_messages@,
                timeout == self.stem_timeout,
                due == (|entry: Pending| is_due(entry.1, timeout, now as nat)),
                record == (|entry: Pending| record_of(entry)),
                due_sources_known(pending, timeout, now as nat),
                i <= pending.len(),
                pending_records(records@) == pending.take(i as int).filter(due).map_values(record),
                sources_read(pending_records(records@)),
            decreases pending.len() - i,
        {
            let ghost earlier = records@;
            let ghost kept = pending.take(i as int).filter(due);
            proof {
                reveal(Seq::filter);
                assert(pending.take(i + 1).drop_last() =~= pending.take(i as int));
            }
            let (id, message) = self.pending_messages.at(i);
            if now.saturating_sub(message.received_at) >= self.stem_timeout {
                assert(is_due(pending[i as int].1, timeout, now as nat));
                match &message.source {
                    Some(source) => {
                        let next = PendingMessageCache {
                            msg_id: copy_bytes(id),
                            content: copy_bytes(&message.content),
                            received_at: big_endian_u64(message.received_at),
                            source: source.to_bytes(),
                            relayed: message.relayed,
                        };
                        assert(next@ == record_of(pending[i as int]));
                        records.push(next);
                        assert(pending_records(records@) =~= pending_records(earlier).push(next@));
                        assert(kept.push(pending[i as int]).map_values(record)
                            =~= kept.map_values(record).push(next@));
                    },
                    None => {
                        assert(false);
                    },
                }
            }
            i += 1;
        }
        assert(pending.take(i as int) =~= pending);
        proof {
            let messages = due_messages(pending, timeout, now as nat);
            assert(messages == pending.filter(due));
            assert forall|k: int| 0 <= k < records@.len() implies tells_of_a_due_message(
                #[trigger] records@[k],
                pending,
                timeout,
                now as nat,
            ) by {
                let j = due_at(pending, timeout, now as nat, k);
                assert(pending_records(records@)[k] == records@[k]@);
                assert(records@[k]@ == record_of(pending[j]));
                assert(holds_message(records@[k], pending[j]));
            }
            assert forall|j: int|
                0 <= j < pending.len() && (timeout == 0 || now >= (#[trigger] pending[j]).1.received_at
                    + timeout) implies is_told_of(pending[j], records@) by {
                let k = place_of_due(pending, timeout, now as nat, j);
                assert(pending_records(records@)[k] == records@[k]@);
                assert(records@[k]@ == record_of(pending[j]));
                assert(holds_message(records@[k], pending[j]));
            }
        }
        records
    }

    /// The bytes that the store is to keep of the messages that are due at the time `now`. They
    /// read back as the records of these messages.
    pub fn encode_due(&self, now: u128) -> (bytes: Vec<u8>)
        requires
            due_sources_known(self.pending_messages@, self.stem_timeout as nat, now as nat),
        ensures
            ({
                let records = due_records(
                    self.pending_messages@,
                    self.stem_timeout as nat,
                    now as nat,
                );
                &&& bytes@ == pending_encoding(records)
                &&& pending_decoding(bytes@, usize::BITS as nat) == Some(records)
                &&& sources_read(records)
            }),
    {
        encode_pending(&self.due(now))
    }
}

/// The records of pending messages that stored bytes hold.
pub fn read_pending(stored: &[u8]) -> (records: Vec<PendingMessageCache>)
    ensures
        pending_records(records@) == stored_pending(stored@),
{
    match decode_pending(stored) {
        Some(records) => keep_last_of_each_id(&records),
        None => {
            let records = Vec::new();
            assert(pending_records(records@) =~= Seq::empty());
            records
        },
    }
}

/// Leaves out each record whose identifier a later record has.
pub fn keep_last_of_each_id(records: &Vec<PendingMessageCache>) -> (kept: Vec<PendingMessageCache>)
    ensures
        pending_records(kept@) == last_of_each_id(pending_records(records@), records@.len()),
{
    let ghost views = pending_records(records@);
    let mut kept: Vec<PendingMessageCache> = Vec::new();
    let mut i: usize = 0;
    assert(pending_records(kept@) =~= last_of_each_id(views, 0));
    while i < records.len()
        invariant
            i <= records.len(),
            views == pending_records(records@),
            pending_records(kept@) == last_of_each_id(views, i as nat),
        decreases records.len() - i,
    {
        let ghost earlier = kept@;
        let mut superseded = false;
        let mut j: usize = i + 1;
        while j < records.len()
            invariant
                i < j <= records.len(),
                views == pending_records(records@),
                superseded == exists|k: int|
                    i + 1 <= k < j && #[trigger] views[k].msg_id == views[i as int].msg_id,
            decreases records.len() - j,
        {
            assert(views[j as int].msg_id == records@[j as int].msg_id@);
            if same_bytes(&records[j].msg_id, &records[i].msg_id) {
                superseded = true;
            }
            j += 1;
        }
        if !superseded {
            let next = records[i].clone();
            kept.push(next);
            assert(pending_records(kept@) =~= pending_records(earlier).push(next@));
        }
        i += 1;
    }
    kept
}

/// Where the message of the record at `k` waits. It came `timeout` or more before `now`.
proof fn due_at(pending: Seq<Pending>, timeout: nat, now: nat, k: int) -> (i: int)
    requires
        0 <= k < due_records(pending, timeout, now).len(),
    ensures
        0 <= i < pending.len(),
        pending[i] == due_messages(pending, timeout, now)[k],
        due_records(pending, timeout, now)[k] == record_of(pending[i]),
        timeout == 0 || now >= pending[i].1.received_at + timeout,
{
    let due = |entry: Pending| is_due(entry.1, timeout, now);
    let messages = due_messages(pending, timeout, now);
    assert(messages == pending.filter(due));
    assert(messages.contains(messages[k]));
    pending.lemma_filter_contains_rev(due, messages[k]);
    pending.lemma_filter_pred(due, k);
    choose|i: int| 0 <= i < pending.len() && pending[i] == messages[k]
}

/// Which record tells the message at `i`, that came `timeout` or more before `now`.
proof fn place_of_due(pending: Seq<Pending>, timeout: nat, now: nat, i: int) -> (k: int)
    requires
        0 <= i < pending.len(),
        timeout == 0 || now >= pending[i].1.received_at + timeout,
    ensures
        0 <= k < due_records(pending, timeout, now).len(),
        due_messages(pending, timeout, now)[k] == pending[i],
        due_records(pending, timeout, now)[k] == record_of(pending[i]),
{
    let due = |entry: Pending| is_due(entry.1, timeout, now);
    let messages = due_messages(pending, timeout, now);
    assert(messages == pending.filter(due));
    pending.lemma_filter_contains(due, i);
    choose|k: int| 0 <= k < messages.len() && messages[k] == pending[i]
}

/// A waiting message has a record among those that are written at the time `now` exactly if `now` is
/// at least the time at which it came and the timeout together, or there is no timeout.
pub proof fn records_are_of_those_that_waited(pending: Seq<Pending>, timeout: nat, now: nat, i: int)
    requires
        forall|a: int, b: int|
            #![trigger pending[a], pending[b]]
            0 <= a < b < pending.len() ==> pending[a].0 != pending[b].0,
        0 <= i < pending.len(),
    ensures
        (exists|k: int|
            0 <= k < due_records(pending, timeout, now).len() && (#[trigger] due_records(
                pending,
                timeout,
                now,
            )[k]).msg_id == pending[i].0) <==> (timeout == 0 || now >= pending[i].1.received_at + timeout),
{
    let records = due_records(pending, timeout, now);
    if exists|k: int| 0 <= k < records.len() && (#[trigger] records[k]).msg_id == pending[i].0 {
        let k = choose|k: int| 0 <= k < records.len() && (#[trigger] records[k]).msg_id == pending[i].0;
        let j = due_at(pending, timeout, now, k);
        assert(pending[j].0 == pending[i].0);
        assert(i == j);
    }
    if timeout == 0 || now >= pending[i].1.received_at + timeout {
        let k = place_of_due(pending, timeout, now, i);
        assert(records[k].msg_id == pending[i].0);
    }
}

/// Every record that is written at the time `now` is of a message that waits and came long enough
/// before: it has the identifier, the contents, the source and the status of that message, and the
/// eight digits to the base 256 of the time at which it came.
pub proof fn records_tell_their_messages(pending: Seq<Pending>, timeout: nat, now: nat, k: int)
    requires
        0 <= k < due_records(pending, timeout, now).len(),
        due_sources_known(pending, timeout, now),
    ensures
        exists|i: int|
            #![trigger pending[i]]
            {
                let record = due_records(pending, timeout, now)[k];
                &&& 0 <= i < pending.len()
                &&& timeout == 0 || now >= pending[i].1.received_at + timeout
                &&& record.msg_id == pending[i].0
                &&& record.content == pending[i].1.content
                &&& Some(record.source) == pending[i].1.source
                &&& record.relayed == pending[i].1.relayed
                &&& record.received_at.len() == 8
                &&& forall|place: int|
                    0 <= place < 8 ==> #[trigger] record.received_at[place] as int == (
                    pending[i].1.received_at as int / vstd::arithmetic::power::pow(
                        256,
                        (7 - place) as nat,
                    )) % 256
            },
{
    let i = due_at(pending, timeout, now, k);
    let record = due_records(pending, timeout, now)[k];
    assert(pending[i].1.source is Some);
    crate::bytes::big_endian_digit(pending[i].1.received_at, 8, 0);
    assert forall|place: int| 0 <= place < 8 implies #[trigger] record.received_at[place] as int == (
    pending[i].1.received_at as int / vstd::arithmetic::power::pow(256, (7 - place) as nat)) % 256 by {
        crate::bytes::big_endian_digit(pending[i].1.received_at, 8, place);
    }
}

/// What is due can be written exactly if the source of every message that came `timeout` or more
/// before `now` is known.
pub proof fn only_due_sources_must_be_known(pending: Seq<Pending>, timeout: nat, now: nat)
    ensures
        due_sources_known(pending, timeout, now) <==> forall|i: int|
            0 <= i < pending.len() && (timeout == 0 || now >= (#[trigger] pending[i]).1.received_at + timeout)
                ==> pending[i].1.source is Some,
{
}

/// Bytes from which no list of records is read hold none. Of a list that is read, a record counts
/// exactly if no later one has its identifier.
pub proof fn stored_records_are_the_last_of_their_ids(
    bytes: Seq<u8>,
    records: Seq<PendingRecord>,
    record: PendingRecord,
)
    ensures
        pending_decoding(bytes, usize::BITS as nat) is None ==> stored_pending(bytes).len() == 0,
        pending_decoding(bytes, usize::BITS as nat) == Some(records) ==> (stored_pending(bytes).contains(record)
            <==> exists|k: int|
            {
                &&& 0 <= k < records.len()
                &&& #[trigger] records[k] == record
                &&& forall|later: int| k < later < records.len() ==> (#[trigger] records[later]).msg_id
                    != record.msg_id
            }),
{
    crate::laws::last_record_of_an_id_counts(records, records.len(), record);
    if exists|k: int|
        0 <= k < records.len() && #[trigger] records[k] == record && !id_from(records, k + 1, record.msg_id) {
        let k = choose|k: int|
            0 <= k < records.len() && #[trigger] records[k] == record && !id_from(
                records,
                k + 1,
                record.msg_id,
            );
        assert forall|later: int| k < later < records.len() implies (#[trigger] records[later]).msg_id
            != record.msg_id by {
            if records[later].msg_id == record.msg_id {
                assert(id_from(records, k + 1, record.msg_id));
            }
        }
    }
}

} // verus!
