//! What holds of the node as a whole.
use vstd::prelude::*;

#[allow(unused_imports)]
use crate::codec::{pending_decoding, queue_decoding};
#[allow(unused_imports)]
use crate::dandelion::{
    due_messages, due_records, due_sources_known, fresh_message, id_from, is_due, last_of_each_id, record_of,
    sources_read, stored_pending,
};
#[allow(unused_imports)]
use crate::message::{PendingMessageView, PendingRecord};
#[allow(unused_imports)]
use crate::node::{pending_after, stem_outcome, transition_outcome, NodeEvent};
#[allow(unused_imports)]
use crate::peer::{canonical_peer, read_as_they_stand};
#[allow(unused_imports)]
use crate::pending::{
    distinct_ids, filter_keeps_ids_distinct, has_id, not_from, with_new, Pending,
};
#[allow(unused_imports)]
use crate::propagation::{
    entry_for, handed_on, is_fluff_pick, is_stem_pick, picks_allowed, picks_read, sources_valid, stem_picks,
};
#[allow(unused_imports)]
use crate::selection::{available, is_selection, other_than, selection_excludes_source};
#[allow(unused_imports)]
use crate::spread::{spread_is_bounded, spread_of};
#[allow(unused_imports)]
use crate::validation::{
    first_peers_valid, queue_is_reported, queue_peers_valid, report_for, reports_come_from_the_queue, reports_on,
    stored_queue, Report,
};

verus! {

/// Whether the source of every message is known.
pub open spec fn all_sources_known(pending: Seq<Pending>) -> bool {
    forall|i: int| 0 <= i < pending.len() ==> (#[trigger] pending[i]).1.source is Some
}

/// Once a message came, one waits under its identifier; it is that message if none did before.
pub proof fn new_message_is_kept(pending: Seq<Pending>, id: Seq<u8>, message: PendingMessageView)
    ensures
        has_id(with_new(pending, id, message), id),
        !has_id(pending, id) ==> with_new(pending, id, message).contains((id, message)),
{
    let after = with_new(pending, id, message);
    if !has_id(pending, id) {
        assert(after[pending.len() as int] == (id, message));
        assert(after[pending.len() as int].0 == id);
    }
}

/// A message that was seen before changes nothing, whatever it holds.
pub proof fn seen_message_changes_nothing(
    pending: Seq<Pending>,
    id: Seq<u8>,
    first: PendingMessageView,
    second: PendingMessageView,
)
    ensures
        with_new(with_new(pending, id, first), id, second) == with_new(pending, id, first),
{
    new_message_is_kept(pending, id, first);
}

/// A waiting message stays as it is through whatever the node is told, but for the closing of the
/// connection to its source.
pub proof fn waiting_messages_stay(pending: Seq<Pending>, event: NodeEvent, now: nat, entry: Pending)
    requires
        pending.contains(entry),
        event matches NodeEvent::ConnectionClosed(peer) ==> entry.1.source != Some(peer@),
    ensures
        pending_after(pending, event, now).contains(entry),
{
    let after = pending_after(pending, event, now);
    let i = choose|i: int| 0 <= i < pending.len() && pending[i] == entry;
    match event {
        NodeEvent::ConnectionClosed(peer) => {
            disconnect_drops_just_its_messages(pending, peer@, entry);
        },
        NodeEvent::Message { .. } => {
            assert(after[i] == entry);
        },
        NodeEvent::Other => {},
    }
}

/// Once a peer is gone, no message that came from it waits, and every other message still does.
pub proof fn disconnect_drops_just_its_messages(pending: Seq<Pending>, peer: Seq<u8>, entry: Pending)
    ensures
        not_from(pending, peer).contains(entry) <==> pending.contains(entry) && entry.1.source != Some(peer),
{
    let keep = |e: Pending| e.1.source != Some(peer);
    assert(not_from(pending, peer) == pending.filter(keep));
    if pending.contains(entry) && entry.1.source != Some(peer) {
        let i = choose|i: int| 0 <= i < pending.len() && pending[i] == entry;
        pending.lemma_filter_contains(keep, i);
    }
    if not_from(pending, peer).contains(entry) {
        pending.lemma_filter_contains_rev(keep, entry);
        let i = choose|i: int| 0 <= i < pending.filter(keep).len() && pending.filter(keep)[i] == entry;
        pending.lemma_filter_pred(keep, i);
    }
}

/// Whatever the node is told, no identifier ever occurs twice among the waiting messages and their
/// sources stay known, so that those which are due can always be written to the store.
pub proof fn events_keep_messages_sound(pending: Seq<Pending>, event: NodeEvent, now: nat)
    requires
        distinct_ids(pending),
        all_sources_known(pending),
    ensures
        distinct_ids(pending_after(pending, event, now)),
        all_sources_known(pending_after(pending, event, now)),
        forall|timeout: nat, later: nat|
            #[trigger] due_sources_known(pending_after(pending, event, now), timeout, later),
{
    let after = pending_after(pending, event, now);
    match event {
        NodeEvent::ConnectionClosed(peer) => {
            let keep = |e: Pending| e.1.source != Some(peer@);
            filter_keeps_ids_distinct(pending, keep);
            assert(after == pending.filter(keep));
            assert forall|i: int| 0 <= i < after.len() implies (#[trigger] after[i]).1.source is Some by {
                assert(after.contains(after[i]));
                pending.lemma_filter_contains_rev(keep, after[i]);
                let k = choose|k: int| 0 <= k < pending.len() && pending[k] == after[i];
                assert(pending[k].1.source is Some);
            }
        },
        NodeEvent::Message { propagation_source, message_id, data } => {
            if !has_id(pending, message_id@) {
                assert forall|i: int, j: int|
                    #![trigger after[i], after[j]]
                    0 <= i < j < after.len() implies after[i].0 != after[j].0 by {
                    assert(after[i] == pending[i]);
                    if j < pending.len() {
                        assert(after[j] == pending[j]);
                    }
                }
                assert forall|i: int| 0 <= i < after.len() implies (#[trigger] after[i]).1.source is Some by {
                    if i < pending.len() {
                        assert(after[i] == pending[i]);
                    }
                }
            }
        },
        NodeEvent::Other => {},
    }
}

/// A message that is due stays due.
pub proof fn due_stays_due(message: PendingMessageView, timeout: nat, now: nat, later: nat)
    requires
        is_due(message, timeout, now),
        now <= later,
    ensures
        is_due(message, timeout, later),
{
}

/// A message is written to the store exactly if it waits and is due.
pub proof fn due_messages_are_the_due_ones(pending: Seq<Pending>, timeout: nat, now: nat, entry: Pending)
    ensures
        due_messages(pending, timeout, now).contains(entry) <==> pending.contains(entry) && is_due(
            entry.1,
            timeout,
            now,
        ),
{
    let due = |e: Pending| is_due(e.1, timeout, now);
    assert(due_messages(pending, timeout, now) == pending.filter(due));
    if pending.contains(entry) && is_due(entry.1, timeout, now) {
        let i = choose|i: int| 0 <= i < pending.len() && pending[i] == entry;
        pending.lemma_filter_contains(due, i);
    }
    if pending.filter(due).contains(entry) {
        pending.lemma_filter_contains_rev(due, entry);
        let i = choose|i: int| 0 <= i < pending.filter(due).len() && pending.filter(due)[i] == entry;
        pending.lemma_filter_pred(due, i);
    }
}

/// Where no two records have the same identifier, each is the last of its identifier.
proof fn distinct_records_are_kept(records: Seq<PendingRecord>, count: nat)
    requires
        count <= records.len(),
        forall|i: int, j: int|
            #![trigger records[i], records[j]]
            0 <= i < j < records.len() ==> records[i].msg_id != records[j].msg_id,
    ensures
        last_of_each_id(records, count) == records.take(count as int),
    decreases count,
{
    if count == 0 {
        assert(records.take(0) =~= Seq::empty());
    } else {
        distinct_records_are_kept(records, (count - 1) as nat);
        assert(!id_from(records, count as int, records[count - 1].msg_id));
        assert(records.take(count as int) =~= records.take(count - 1).push(records[count - 1]));
    }
}

/// What the node wrote to the store of the messages that were due reads back as their records.
pub proof fn pending_messages_read_back(pending: Seq<Pending>, timeout: nat, now: nat, bytes: Seq<u8>)
    requires
        distinct_ids(pending),
        pending_decoding(bytes, usize::BITS as nat) == Some(due_records(pending, timeout, now)),
    ensures
        stored_pending(bytes) == due_records(pending, timeout, now),
{
    let due = |e: Pending| is_due(e.1, timeout, now);
    let messages = due_messages(pending, timeout, now);
    let records = due_records(pending, timeout, now);
    assert(messages == pending.filter(due));
    filter_keeps_ids_distinct(pending, due);
    assert forall|i: int, j: int|
        #![trigger records[i], records[j]]
        0 <= i < j < records.len() implies records[i].msg_id != records[j].msg_id by {
        assert(records[i] == record_of(messages[i]));
        assert(records[j] == record_of(messages[j]));
    }
    distinct_records_are_kept(records, records.len());
    assert(records.take(records.len() as int) =~= records);
}

/// Of the records that were read, one counts exactly if no later one has its identifier.
pub proof fn last_record_of_an_id_counts(records: Seq<PendingRecord>, count: nat, record: PendingRecord)
    requires
        count <= records.len(),
    ensures
        last_of_each_id(records, count).contains(record) <==> exists|k: int|
            0 <= k < count && #[trigger] records[k] == record && !id_from(records, k + 1, record.msg_id),
    decreases count,
{
    if count > 0 {
        let fewer = (count - 1) as nat;
        let earlier = last_of_each_id(records, fewer);
        let kept = last_of_each_id(records, count);
        let next = records[count - 1];
        last_record_of_an_id_counts(records, fewer, record);
        if kept.contains(record) {
            let i = choose|i: int| 0 <= i < kept.len() && kept[i] == record;
            if i < earlier.len() {
                assert(earlier[i] == record);
                assert(earlier.contains(record));
            } else {
                assert(records[count - 1] == record);
            }
        }
        if exists|k: int|
            0 <= k < count && #[trigger] records[k] == record && !id_from(records, k + 1, record.msg_id) {
            let k = choose|k: int|
                0 <= k < count && #[trigger] records[k] == record && !id_from(records, k + 1, record.msg_id);
            if k < fewer {
                let i = choose|i: int| 0 <= i < earlier.len() && earlier[i] == record;
                assert(kept[i] == record);
            } else {
                assert(kept[earlier.len() as int] == record);
            }
        }
    }
}

/// No two of the first `count` records that are the last of their identifiers share one.
proof fn last_records_have_distinct_ids(records: Seq<PendingRecord>, count: nat, i: int, j: int)
    requires
        count <= records.len(),
        0 <= i < j < last_of_each_id(records, count).len(),
    ensures
        last_of_each_id(records, count)[i].msg_id != last_of_each_id(records, count)[j].msg_id,
    decreases count,
{
    let fewer = (count - 1) as nat;
    let earlier = last_of_each_id(records, fewer);
    if j < earlier.len() {
        last_records_have_distinct_ids(records, fewer, i, j);
    } else {
        assert(earlier.contains(earlier[i]));
        last_record_of_an_id_counts(records, fewer, earlier[i]);
        let k = choose|k: int|
            0 <= k < fewer && #[trigger] records[k] == earlier[i] && !id_from(
                records,
                k + 1,
                earlier[i].msg_id,
            );
        assert(records[count - 1].msg_id != earlier[i].msg_id);
    }
}

/// Whatever bytes the store gives back, no identifier occurs twice among the records they hold.
pub proof fn stored_ids_are_distinct(bytes: Seq<u8>, i: int, j: int)
    requires
        0 <= i < j < stored_pending(bytes).len(),
    ensures
        stored_pending(bytes)[i].msg_id != stored_pending(bytes)[j].msg_id,
{
    let records = pending_decoding(bytes, usize::BITS as nat)->0;
    last_records_have_distinct_ids(records, records.len(), i, j);
}

/// Where chance does not turn the messages to fluff, handing them on is extending the stem: for
/// the same peers picked and the same numbers drawn the same is written, the same inputs are
/// refused with the same error, and the same picks are allowed.
pub proof fn without_fluff_the_stem_is_extended(
    stored: Seq<u8>,
    peers: Seq<Seq<u8>>,
    picks: Seq<Seq<Seq<u8>>>,
    numbers: Seq<u64>,
)
    ensures
        transition_outcome(stored, false, peers, picks, numbers) == stem_outcome(
            stored,
            peers,
            picks,
            numbers,
        ),
        picks_allowed(stored_pending(stored), false, peers, picks) == stem_picks(
            stored_pending(stored),
            peers,
            picks,
        ),
{
}

/// No message is ever handed to the peer that it came from, nor to a peer that is not of the
/// network, and no entry tells a source.
pub proof fn handing_on_hides_the_source(
    records: Seq<PendingRecord>,
    fluff: bool,
    peers: Seq<Seq<u8>>,
    picks: Seq<Seq<Seq<u8>>>,
    numbers: Seq<u64>,
    i: int,
)
    requires
        picks_allowed(records, fluff, peers, picks),
        0 <= i < records.len(),
    ensures
        handed_on(records, picks, numbers, fluff).len() == records.len(),
        handed_on(records, picks, numbers, fluff)[i].source is None,
        forall|peer: Seq<u8>| #[trigger]
            handed_on(records, picks, numbers, fluff)[i].peers.contains(peer) ==> peers.contains(peer)
                && canonical_peer(records[i].source) != Some(peer),
{
    let picked = picks[i];
    let source = records[i].source;
    assert(handed_on(records, picks, numbers, fluff)[i] == entry_for(records[i], picked, numbers[i], fluff));
    if fluff {
        assert(is_fluff_pick(records[i], peers, picks[i]));
        selection_excludes_source(picked, peers, source);
    } else {
        assert(is_stem_pick(records[i], peers, picks[i]));
        let other = other_than(source);
        let next = picked[0];
        peers.lemma_filter_contains_rev(other, next);
        let k = choose|k: int| 0 <= k < available(peers, source).len() && available(peers, source)[k] == next;
        peers.lemma_filter_pred(other, k);
        assert forall|peer: Seq<u8>| #[trigger] picked.contains(peer) implies peer == next by {
            let j = choose|j: int| 0 <= j < picked.len() && picked[j] == peer;
            assert(j == 0);
        }
    }
}

/// What the node wrote of the messages that were due is never refused for a source, and what it
/// queued is never refused for a peer.
pub proof fn own_writes_are_not_refused(
    records: Seq<PendingRecord>,
    peers: Seq<Seq<u8>>,
    picks: Seq<Seq<Seq<u8>>>,
    numbers: Seq<u64>,
    fluff: bool,
)
    requires
        sources_read(records),
        picks_read(picks),
        picks.len() == records.len(),
    ensures
        sources_valid(records, peers),
        queue_peers_valid(handed_on(records, picks, numbers, fluff)),
{
    let entries = handed_on(records, picks, numbers, fluff);
    assert forall|i: int| 0 <= i < entries.len() implies first_peers_valid(
        #[trigger] entries[i],
        entries[i].peers.len() as int,
    ) by {
        assert(read_as_they_stand(picks[i]));
    }
}

/// Whatever is reported after a round through the store is a message that was due, with its
/// identifier and contents unchanged, and it is reported for a peer of the network that it did not
/// come from. `first` is what the node wrote of the messages that were due, `second` what it wrote
/// after handing them on.
pub proof fn reports_are_due_messages(
    pending: Seq<Pending>,
    timeout: nat,
    now: nat,
    first: Seq<u8>,
    fluff: bool,
    peers: Seq<Seq<u8>>,
    picks: Seq<Seq<Seq<u8>>>,
    numbers: Seq<u64>,
    second: Seq<u8>,
    report: Report,
)
    requires
        distinct_ids(pending),
        due_sources_known(pending, timeout, now),
        pending_decoding(first, usize::BITS as nat) == Some(due_records(pending, timeout, now)),
        sources_read(due_records(pending, timeout, now)),
        picks_allowed(stored_pending(first), fluff, peers, picks),
        picks_read(picks),
        queue_decoding(second, usize::BITS as nat) == Some(
            handed_on(stored_pending(first), picks, numbers, fluff),
        ),
        reports_on(stored_queue(second)).contains(report),
    ensures
        peers.contains(report.peer),
        exists|i: int|
            #![trigger pending[i]]
            {
                &&& 0 <= i < pending.len()
                &&& is_due(pending[i].1, timeout, now)
                &&& pending[i].0 == report.msg_id
                &&& pending[i].1.content == report.data
                &&& pending[i].1.source != Some(report.peer)
            },
{
    let messages = due_messages(pending, timeout, now);
    let records = due_records(pending, timeout, now);
    let entries = handed_on(records, picks, numbers, fluff);
    pending_messages_read_back(pending, timeout, now, first);
    reports_come_from_the_queue(entries, report);
    let (k, j) = choose|k: int, j: int|
        0 <= k < entries.len() && 0 <= j < entries[k].peers.len() && report == report_for(
            entries[k],
            #[trigger] entries[k].peers[j],
        );
    assert(read_as_they_stand(picks[k]));
    assert(report.peer == picks[k][j]);
    assert(entries[k].peers.contains(report.peer));
    handing_on_hides_the_source(records, fluff, peers, picks, numbers, k);
    let message = messages[k];
    assert(records[k] == record_of(message));
    assert(messages.contains(message));
    due_messages_are_the_due_ones(pending, timeout, now, message);
    let i = choose|i: int| 0 <= i < pending.len() && pending[i] == message;
    assert(pending[i].1.source is Some);
    assert(pending[i].1.source->0 == records[k].source);
}

/// Every message that was due and has a peer to go to is reported after a round through the store,
/// under its identifier and with its contents.
pub proof fn due_messages_are_reported(
    pending: Seq<Pending>,
    timeout: nat,
    now: nat,
    first: Seq<u8>,
    fluff: bool,
    peers: Seq<Seq<u8>>,
    picks: Seq<Seq<Seq<u8>>>,
    numbers: Seq<u64>,
    second: Seq<u8>,
    i: int,
)
    requires
        distinct_ids(pending),
        due_sources_known(pending, timeout, now),
        pending_decoding(first, usize::BITS as nat) == Some(due_records(pending, timeout, now)),
        picks_allowed(stored_pending(first), fluff, peers, picks),
        queue_decoding(second, usize::BITS as nat) == Some(
            handed_on(stored_pending(first), picks, numbers, fluff),
        ),
        0 <= i < pending.len(),
        is_due(pending[i].1, timeout, now),
        available(peers, pending[i].1.source->0).len() > 0,
    ensures
        exists|report: Report|
            #![trigger reports_on(stored_queue(second)).contains(report)]
            {
                &&& reports_on(stored_queue(second)).contains(report)
                &&& report.msg_id == pending[i].0
                &&& report.data == pending[i].1.content
            },
{
    let messages = due_messages(pending, timeout, now);
    let records = due_records(pending, timeout, now);
    let entries = handed_on(records, picks, numbers, fluff);
    pending_messages_read_back(pending, timeout, now, first);
    due_messages_are_the_due_ones(pending, timeout, now, pending[i]);
    let k = choose|k: int| 0 <= k < messages.len() && messages[k] == pending[i];
    assert(records[k] == record_of(messages[k]));
    let candidates = available(peers, records[k].source);
    if fluff {
        assert(is_fluff_pick(records[k], peers, picks[k]));
        spread_is_bounded(candidates.len());
        assert(spread_of(candidates.len()) > 0) by (nonlinear_arith)
            requires
                candidates.len() > 0,
                spread_of(candidates.len()) * spread_of(candidates.len()) >= candidates.len(),
                spread_of(candidates.len()) >= 0,
        ;
    } else {
        assert(is_stem_pick(records[k], peers, picks[k]));
    }
    queue_is_reported(entries, k, 0);
    let report = report_for(entries[k], entries[k].peers[0]);
    assert(reports_on(stored_queue(second)).contains(report));
}

/// Every message that came `timeout` or more before `now`, or any message where there is no timeout,
/// is reported after a round through the store for each peer that was picked for it, under its
/// identifier and with all of its contents.
pub proof fn due_messages_reach_every_picked_peer(
    pending: Seq<Pending>,
    timeout: nat,
    now: nat,
    first: Seq<u8>,
    fluff: bool,
    peers: Seq<Seq<u8>>,
    picks: Seq<Seq<Seq<u8>>>,
    numbers: Seq<u64>,
    second: Seq<u8>,
    i: int,
)
    requires
        distinct_ids(pending),
        pending_decoding(first, usize::BITS as nat) == Some(due_records(pending, timeout, now)),
        picks_allowed(stored_pending(first), fluff, peers, picks),
        picks_read(picks),
        queue_decoding(second, usize::BITS as nat) == Some(
            handed_on(stored_pending(first), picks, numbers, fluff),
        ),
        0 <= i < pending.len(),
        timeout == 0 || now >= pending[i].1.received_at + timeout,
    ensures
        exists|k: int|
            {
                &&& 0 <= k < picks.len()
                &&& stored_pending(first)[k].msg_id == pending[i].0
                &&& forall|j: int|
                    0 <= j < picks[k].len() ==> reports_on(stored_queue(second)).contains(
                        Report {
                            msg_id: pending[i].0,
                            peer: #[trigger] picks[k][j],
                            data: pending[i].1.content,
                        },
                    )
            },
{
    let messages = due_messages(pending, timeout, now);
    let records = due_records(pending, timeout, now);
    let entries = handed_on(records, picks, numbers, fluff);
    pending_messages_read_back(pending, timeout, now, first);
    due_messages_are_the_due_ones(pending, timeout, now, pending[i]);
    let k = choose|k: int| 0 <= k < messages.len() && messages[k] == pending[i];
    assert(records[k] == record_of(messages[k]));
    assert(read_as_they_stand(picks[k]));
    assert forall|j: int| 0 <= j < picks[k].len() implies reports_on(entries).contains(
        Report { msg_id: pending[i].0, peer: #[trigger] picks[k][j], data: pending[i].1.content },
    ) by {
        assert(entries[k].peers[j] == picks[k][j]);
        queue_is_reported(entries, k, j);
    }
}

} // verus!
