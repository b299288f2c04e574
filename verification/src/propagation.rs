//! Handing pending messages on, to one more peer along the stem or to many in the fluff phase.
use crate::bytes::copy_bytes;
use crate::message::{
    byte_strings, pending_records, queue_entries, FluffTransitionMessage, MessageCache, PendingMessageCache,
};
use crate::peer::{peer_bytes, PeerId};
use crate::selection::{available_peers, choose_one, shuffle};
use crate::spread::spread_factor;
use vstd::prelude::*;

#[allow(unused_imports)]
use crate::message::{PendingRecord, QueueEntry};
#[allow(unused_imports)]
use crate::peer::{canonical_peer, read_as_they_stand};
#[allow(unused_imports)]
use crate::selection::{available, first_shuffled_are_a_selection, is_selection};
#[allow(unused_imports)]
use crate::spread::{spread_is_bounded, spread_of};

verus! {

/// Why pending messages cannot be handed on.
#[derive(Debug, PartialEq, Eq, Structural)]
pub enum PropagationError {
    /// no peer identifier is read from the source of a message
    InvalidSource,
    /// there is no peer but the source of a message
    NoAvailablePeer,
}

/// The queue entry that hands a message on to `peers`. It does not tell the source.
pub open spec fn entry_for(
    record: PendingRecord,
    peers: Seq<Seq<u8>>,
    sequence_number: u64,
    is_fluff: bool,
) -> QueueEntry {
    QueueEntry {
        peers,
        msg_id: record.msg_id,
        source: None,
        data: record.content,
        sequence_number,
        is_fluff,
    }
}

/// The queue entry that hands a message on in the fluff phase, to the first peers of a shuffled
/// list of those that are available.
pub open spec fn fluff_entry(record: PendingRecord, shuffled: Seq<Seq<u8>>, sequence_number: u64) -> QueueEntry {
    entry_for(record, shuffled.take(spread_of(shuffled.len()) as int), sequence_number, true)
}

/// The queue entry that hands a message on along the stem, to one peer.
pub open spec fn stem_entry(record: PendingRecord, next_peer: Seq<u8>, sequence_number: u64) -> QueueEntry {
    entry_for(record, seq![next_peer], sequence_number, false)
}

/// Whether every source can be held against the peers: an identifier is read from each, unless
/// there is no peer.
pub open spec fn sources_valid(records: Seq<PendingRecord>, peers: Seq<Seq<u8>>) -> bool {
    peers.len() > 0 ==> forall|i: int|
        0 <= i < records.len() ==> canonical_peer((#[trigger] records[i]).source) is Some
}

/// Whether every message has a peer to go to.
pub open spec fn all_have_peers(records: Seq<PendingRecord>, peers: Seq<Seq<u8>>) -> bool {
    forall|i: int| 0 <= i < records.len() ==> available(peers, (#[trigger] records[i]).source).len() > 0
}

/// Whether `picked` are peers that the message of `record` may go to in the fluff phase.
pub open spec fn is_fluff_pick(record: PendingRecord, peers: Seq<Seq<u8>>, picked: Seq<Seq<u8>>) -> bool {
    is_selection(picked, available(peers, record.source))
}

/// Whether `picked` is one peer that the message of `record` may go to along the stem.
pub open spec fn is_stem_pick(record: PendingRecord, peers: Seq<Seq<u8>>, picked: Seq<Seq<u8>>) -> bool {
    &&& picked.len() == 1
    &&& available(peers, record.source).contains(picked[0])
}

/// Whether each of the messages may go to the peers picked for it in the fluff phase.
pub open spec fn fluff_picks(records: Seq<PendingRecord>, peers: Seq<Seq<u8>>, picks: Seq<Seq<Seq<u8>>>) -> bool {
    &&& picks.len() == records.len()
    &&& forall|i: int| 0 <= i < picks.len() ==> is_fluff_pick(records[i], peers, #[trigger] picks[i])
}

/// Whether each of the messages may go to the peer picked for it along the stem.
pub open spec fn stem_picks(records: Seq<PendingRecord>, peers: Seq<Seq<u8>>, picks: Seq<Seq<Seq<u8>>>) -> bool {
    &&& picks.len() == records.len()
    &&& forall|i: int| 0 <= i < picks.len() ==> is_stem_pick(records[i], peers, #[trigger] picks[i])
}

/// Whether each of the messages may go to the peers picked for it, in the fluff phase or along the
/// stem.
pub open spec fn picks_allowed(
    records: Seq<PendingRecord>,
    fluff: bool,
    peers: Seq<Seq<u8>>,
    picks: Seq<Seq<Seq<u8>>>,
) -> bool {
    if fluff {
        fluff_picks(records, peers, picks)
    } else {
        stem_picks(records, peers, picks)
    }
}

/// Whether every peer that was picked is read as it stands.
pub open spec fn picks_read(picks: Seq<Seq<Seq<u8>>>) -> bool {
    forall|i: int| 0 <= i < picks.len() ==> read_as_they_stand(#[trigger] picks[i])
}

/// The queue entries that hand each message on to the peers picked for it, under the sequence
/// number drawn for it.
pub open spec fn handed_on(
    records: Seq<PendingRecord>,
    picks: Seq<Seq<Seq<u8>>>,
    numbers: Seq<u64>,
    is_fluff: bool,
) -> Seq<QueueEntry> {
    Seq::new(records.len(), |i: int| entry_for(records[i], picks[i], numbers[i], is_fluff))
}

/// Whether `numbers` are what `draw` gave, each at its own position; positions fit a `usize`.
pub open spec fn numbers_drawn<F: Fn(usize) -> u64>(draw: F, numbers: Seq<u64>) -> bool {
    &&& numbers.len() <= usize::MAX
    &&& forall|i: int| 0 <= i < numbers.len() ==> draw.ensures((i as usize,), #[trigger] numbers[i])
}

/// Draws a sequence number for each of `count` messages.
pub fn draw_numbers<F: Fn(usize) -> u64>(draw: F, count: usize) -> (numbers: Vec<u64>)
    requires
        forall|i: usize| draw.requires((i,)),
    ensures
        numbers@.len() == count,
        numbers_drawn(draw, numbers@),
        forall|i: usize| i < count ==> draw.ensures((i,), #[trigger] numbers@[i as int]),
{
    let mut numbers: Vec<u64> = Vec::new();
    let mut i: usize = 0;
    while i < count
        invariant
            i <= count,
            numbers@.len() == i,
            forall|i: usize| draw.requires((i,)),
            numbers_drawn(draw, numbers@),
        decreases count - i,
    {
        let number = draw(i);
        numbers.push(number);
        i += 1;
    }
    numbers
}

/// The message of a record as other peers get it, without its source.
fn masked(record: &PendingMessageCache, sequence_number: u64) -> (message: FluffTransitionMessage)
    ensures
        message.source is None,
        message.data@ == record.content@,
        message.sequence_number == sequence_number,
{
    FluffTransitionMessage { source: None, data: copy_bytes(&record.content), sequence_number }
}

/// Hands a message on to the first peers of a shuffled list of those that are available.
pub fn fluff_message(
    record: &PendingMessageCache,
    shuffled: &Vec<PeerId>,
    sequence_number: u64,
) -> (entry: MessageCache)
    ensures
        entry@ == fluff_entry(record@, peer_bytes(shuffled@), sequence_number),
        entry.msg_id@ == record.msg_id@,
        entry.fluff_msg.source is None,
        entry.fluff_msg.data@ == record.content@,
        entry.fluff_msg.sequence_number == sequence_number,
        entry.is_fluff,
        entry.peers@.len() <= shuffled@.len(),
        entry.peers@.len() == shuffled@.len() || entry.peers@.len() >= 3,
        entry.peers@.len() * entry.peers@.len() >= shuffled@.len(),
        entry.peers@.len() > 3 ==> (entry.peers@.len() - 1) * (entry.peers@.len() - 1) < shuffled@.len(),
        forall|i: int| 0 <= i < entry.peers@.len() ==> (#[trigger] entry.peers@[i])@ == shuffled@[i]@,
        read_as_they_stand(entry@.peers),
{
    let spread = spread_factor(shuffled.len());
    let ghost all = peer_bytes(shuffled@);
    proof {
        spread_is_bounded(all.len());
    }
    let mut peers: Vec<Vec<u8>> = Vec::new();
    assert(byte_strings(peers@) =~= all.take(0));
    let mut i: usize = 0;
    while i < spread
        invariant
            i <= spread <= shuffled.len(),
            all == peer_bytes(shuffled@),
            byte_strings(peers@) == all.take(i as int),
            read_as_they_stand(byte_strings(peers@)),
            peers@.len() == i,
            forall|j: int| 0 <= j < i ==> (#[trigger] peers@[j])@ == shuffled@[j]@,
        decreases spread - i,
    {
        let ghost earlier = peers@;
        let bytes = shuffled[i].to_bytes();
        peers.push(bytes);
        assert(byte_strings(peers@) =~= byte_strings(earlier).push(bytes@));
        assert(all.take(i + 1) =~= all.take(i as int).push(all[i as int]));
        i += 1;
    }
    MessageCache {
        peers,
        msg_id: copy_bytes(&record.msg_id),
        fluff_msg: masked(record, sequence_number),
        is_fluff: true,
    }
}

/// Hands a message on to one peer.
pub fn stem_message(record: &PendingMessageCache, next_peer: &PeerId, sequence_number: u64) -> (entry: MessageCache)
    ensures
        entry@ == stem_entry(record@, next_peer@, sequence_number),
        entry.msg_id@ == record.msg_id@,
        entry.fluff_msg.source is None,
        entry.fluff_msg.data@ == record.content@,
        entry.fluff_msg.sequence_number == sequence_number,
        !entry.is_fluff,
        entry.peers@.len() == 1,
        entry.peers@[0]@ == next_peer@,
        read_as_they_stand(entry@.peers),
{
    let mut peers: Vec<Vec<u8>> = Vec::new();
    peers.push(next_peer.to_bytes());
    assert(byte_strings(peers@) =~= seq![next_peer@]);
    MessageCache {
        peers,
        msg_id: copy_bytes(&record.msg_id),
        fluff_msg: masked(record, sequence_number),
        is_fluff: false,
    }
}

/// Hands each message on in the fluff phase, to peers picked at random and under its own of the
/// sequence numbers.
pub fn fluff_queue(
    records: &Vec<PendingMessageCache>,
    peers: &Vec<PeerId>,
    numbers: &Vec<u64>,
) -> (entries: Vec<MessageCache>)
    requires
        numbers@.len() == records@.len(),
        sources_valid(pending_records(records@), peer_bytes(peers@)),
    ensures
        exists|picks: Seq<Seq<Seq<u8>>>|
            #![trigger handed_on(pending_records(records@), picks, numbers@, true)]
            {
                &&& fluff_picks(pending_records(records@), peer_bytes(peers@), picks)
                &&& picks_read(picks)
                &&& queue_entries(entries@) == handed_on(
                    pending_records(records@),
                    picks,
                    numbers@,
                    true,
                )
            },
{
    let ghost views = pending_records(records@);
    let ghost all = peer_bytes(peers@);
    let ghost mut picks: Seq<Seq<Seq<u8>>> = Seq::empty();
    let mut entries: Vec<MessageCache> = Vec::new();
    let mut i: usize = 0;
    while i < records.len()
        invariant
            i <= records.len(),
            numbers@.len() == records@.len(),
            entries.len() == i,
            picks.len() == i,
            picks_read(picks),
            views == pending_records(records@),
            all == peer_bytes(peers@),
            sources_valid(views, all),
            forall|j: int| 0 <= j < i ==> is_fluff_pick(views[j], all, #[trigger] picks[j]),
            forall|j: int|
                0 <= j < i ==> (#[trigger] queue_entries(entries@)[j]) == entry_for(
                    views[j],
                    picks[j],
                    numbers@[j],
                    true,
                ),
        decreases records.len() - i,
    {
        let ghost earlier = entries@;
        assert(views[i as int] == records@[i as int]@);
        let mut candidates = available_peers(peers, &records[i].source);
        shuffle(&mut candidates);
        let entry = fluff_message(&records[i], &candidates, numbers[i]);
        proof {
            first_shuffled_are_a_selection(
                peer_bytes(candidates@),
                available(all, views[i as int].source),
            );
            picks = picks.push(entry@.peers);
        }
        entries.push(entry);
        assert(queue_entries(entries@) =~= queue_entries(earlier).push(entry@));
        i += 1;
    }
    assert(queue_entries(entries@) =~= handed_on(views, picks, numbers@, true));
    entries
}

/// Hands each message on along the stem, to a peer picked at random and under its own of the
/// sequence numbers.
pub fn stem_queue(
    records: &Vec<PendingMessageCache>,
    peers: &Vec<PeerId>,
    numbers: &Vec<u64>,
) -> (entries: Vec<MessageCache>)
    requires
        numbers@.len() == records@.len(),
        sources_valid(pending_records(records@), peer_bytes(peers@)),
        all_have_peers(pending_records(records@), peer_bytes(peers@)),
    ensures
        exists|picks: Seq<Seq<Seq<u8>>>|
            #![trigger handed_on(pending_records(records@), picks, numbers@, false)]
            {
                &&& stem_picks(pending_records(records@), peer_bytes(peers@), picks)
                &&& picks_read(picks)
                &&& queue_entries(entries@) == handed_on(
                    pending_records(records@),
                    picks,
                    numbers@,
                    false,
                )
            },
{
    let ghost views = pending_records(records@);
    let ghost all = peer_bytes(peers@);
    let ghost mut picks: Seq<Seq<Seq<u8>>> = Seq::empty();
    let mut entries: Vec<MessageCache> = Vec::new();
    let mut i: usize = 0;
    while i < records.len()
        invariant
            i <= records.len(),
            numbers@.len() == records@.len(),
            entries.len() == i,
            picks.len() == i,
            picks_read(picks),
            views == pending_records(records@),
            all == peer_bytes(peers@),
            sources_valid(views, all),
            all_have_peers(views, all),
            forall|j: int| 0 <= j < i ==> is_stem_pick(views[j], all, #[trigger] picks[j]),
            forall|j: int|
                0 <= j < i ==> (#[trigger] queue_entries(entries@)[j]) == entry_for(
                    views[j],
                    picks[j],
                    numbers@[j],
                    false,
                ),
        decreases records.len() - i,
    {
        let ghost earlier = entries@;
        assert(views[i as int] == records@[i as int]@);
        let candidates = available_peers(peers, &records[i].source);
        assert(peer_bytes(candidates@) == available(all, views[i as int].source));
        match choose_one(&candidates) {
            Some(next_peer) => {
                let entry = stem_message(&records[i], next_peer, numbers[i]);
                proof {
                    let k = choose|k: int| 0 <= k < candidates@.len() && candidates@[k] == *next_peer;
                    assert(peer_bytes(candidates@)[k] == next_peer@);
                    picks = picks.push(entry@.peers);
                }
                entries.push(entry);
                assert(queue_entries(entries@) =~= queue_entries(earlier).push(entry@));
            },
            None => {
                assert(false);
            },
        }
        i += 1;
    }
    assert(queue_entries(entries@) =~= handed_on(views, picks, numbers@, false));
    entries
}

/// Whether every source can be held against the peers.
pub fn check_sources(records: &Vec<PendingMessageCache>, peers: &Vec<PeerId>) -> (valid: bool)
    ensures
        valid == sources_valid(pending_records(records@), peer_bytes(peers@)),
{
    let ghost views = pending_records(records@);
    if peers.len() == 0 {
        return true;
    }
    let mut i: usize = 0;
    while i < records.len()
        invariant
            i <= records.len(),
            views == pending_records(records@),
            peer_bytes(peers@).len() > 0,
            forall|j: int| 0 <= j < i ==> canonical_peer((#[trigger] views[j]).source) is Some,
        decreases records.len() - i,
    {
        assert(views[i as int].source == records@[i as int].source@);
        if PeerId::from_bytes(records[i].source.as_slice()).is_none() {
            return false;
        }
        i += 1;
    }
    true
}

/// Whether every message has a peer to go to.
pub fn check_peers(records: &Vec<PendingMessageCache>, peers: &Vec<PeerId>) -> (valid: bool)
    requires
        sources_valid(pending_records(records@), peer_bytes(peers@)),
    ensures
        valid == all_have_peers(pending_records(records@), peer_bytes(peers@)),
{
    let ghost views = pending_records(records@);
    let mut i: usize = 0;
    while i < records.len()
        invariant
            i <= records.len(),
            views == pending_records(records@),
            sources_valid(views, peer_bytes(peers@)),
            forall|j: int|
                0 <= j < i ==> available(peer_bytes(peers@), (#[trigger] views[j]).source).len() > 0,
        decreases records.len() - i,
    {
        assert(views[i as int].source == records@[i as int].source@);
        let candidates = available_peers(peers, &records[i].source);
        assert(candidates@.len() == peer_bytes(candidates@).len());
        if candidates.len() == 0 {
            return false;
        }
        i += 1;
    }
    true
}

/// Handing messages on gives one entry for each, in their order: it goes to the peers that were
/// picked for the message, under its identifier, with all of its contents, with the number that was
/// drawn for it and without its source.
pub proof fn handing_on_keeps_the_messages(
    records: Seq<PendingRecord>,
    picks: Seq<Seq<Seq<u8>>>,
    numbers: Seq<u64>,
    is_fluff: bool,
    i: int,
)
    requires
        0 <= i < records.len(),
    ensures
        handed_on(records, picks, numbers, is_fluff).len() == records.len(),
        handed_on(records, picks, numbers, is_fluff)[i].peers == picks[i],
        handed_on(records, picks, numbers, is_fluff)[i].msg_id == records[i].msg_id,
        handed_on(records, picks, numbers, is_fluff)[i].data == records[i].content,
        handed_on(records, picks, numbers, is_fluff)[i].sequence_number == numbers[i],
        handed_on(records, picks, numbers, is_fluff)[i].source is None,
        handed_on(records, picks, numbers, is_fluff)[i].is_fluff == is_fluff,
{
}

/// Which peers a message may go to, out of `n` that are listed besides its source. Along the stem it
/// is one of these. In the fluff phase it is all of them where there are three or fewer, otherwise
/// at least three, so many that their number squared covers all, and not one more than that takes;
/// none is picked more often than it is listed.
pub proof fn picks_are_exact(
    records: Seq<PendingRecord>,
    fluff: bool,
    peers: Seq<Seq<u8>>,
    picks: Seq<Seq<Seq<u8>>>,
    i: int,
    n: int,
)
    requires
        picks_allowed(records, fluff, peers, picks),
        0 <= i < records.len(),
        match canonical_peer(records[i].source) {
            Some(own) => n == peers.len() - peers.to_multiset().count(own),
            None => n == peers.len(),
        },
    ensures
        picks.len() == records.len(),
        !fluff ==> picks[i].len() == 1 && peers.contains(picks[i][0]) && canonical_peer(records[i].source)
            != Some(picks[i][0]),
        fluff ==> {
            &&& picks[i].len() <= n
            &&& picks[i].len() == n || picks[i].len() >= 3
            &&& picks[i].len() * picks[i].len() >= n
            &&& picks[i].len() > 3 ==> (picks[i].len() - 1) * (picks[i].len() - 1) < n
            &&& forall|peer: Seq<u8>|
                #![trigger picks[i].to_multiset().count(peer)]
                picks[i].to_multiset().count(peer) <= if canonical_peer(records[i].source) == Some(peer) {
                    0
                } else {
                    peers.to_multiset().count(peer)
                }
        },
{
    if fluff {
        assert(is_fluff_pick(records[i], peers, picks[i]));
        crate::selection::selection_is_exact(picks[i], peers, records[i].source, n);
    } else {
        assert(is_stem_pick(records[i], peers, picks[i]));
        crate::selection::all_but_the_source_are_available(peers, records[i].source, picks[i][0]);
    }
}

/// Sources are in order exactly if there is no peer or an identifier is read from each. Every
/// message has a peer to go to exactly if for each there is a listed peer that is not its source.
pub proof fn refusals_are_for_sources_and_lone_peers(records: Seq<PendingRecord>, peers: Seq<Seq<u8>>)
    ensures
        sources_valid(records, peers) <==> peers.len() == 0 || forall|i: int|
            0 <= i < records.len() ==> canonical_peer((#[trigger] records[i]).source) is Some,
        all_have_peers(records, peers) <==> forall|i: int|
            0 <= i < records.len() ==> has_another_peer(#[trigger] records[i], peers),
{
    assert forall|i: int| 0 <= i < records.len() implies (available(peers, (#[trigger] records[i]).source).len()
        > 0 <==> has_another_peer(records[i], peers)) by {
        let source = records[i].source;
        let found = available(peers, source);
        if found.len() > 0 {
            assert(found.contains(found[0]));
            crate::selection::all_but_the_source_are_available(peers, source, found[0]);
            let k = choose|k: int| 0 <= k < peers.len() && peers[k] == found[0];
            assert(canonical_peer(source) != Some(peers[k]));
        }
        if has_another_peer(records[i], peers) {
            let k = choose|k: int|
                0 <= k < peers.len() && canonical_peer(source) != Some(#[trigger] peers[k]);
            assert(peers.contains(peers[k]));
            crate::selection::all_but_the_source_are_available(peers, source, peers[k]);
        }
    }
    if all_have_peers(records, peers) {
        assert forall|i: int| 0 <= i < records.len() implies has_another_peer(#[trigger] records[i], peers) by {
            assert(available(peers, records[i].source).len() > 0);
        }
    }
    if forall|i: int| 0 <= i < records.len() ==> has_another_peer(#[trigger] records[i], peers) {
        assert forall|i: int| 0 <= i < records.len() implies available(peers, (#[trigger] records[i]).source).len()
            > 0 by {
            assert(has_another_peer(records[i], peers));
        }
    }
}

/// Whether a listed peer is not the source of a message.
pub open spec fn has_another_peer(record: PendingRecord, peers: Seq<Seq<u8>>) -> bool {
    exists|k: int| 0 <= k < peers.len() && canonical_peer(record.source) != Some(#[trigger] peers[k])
}

/// Numbers that were drawn were drawn each for its own position.
pub proof fn numbers_are_drawn_for_their_positions<F: Fn(usize) -> u64>(draw: F, numbers: Seq<u64>, i: usize)
    requires
        numbers_drawn(draw, numbers),
        i < numbers.len(),
    ensures
        draw.ensures((i,), numbers[i as int]),
{
}

} // verus!
