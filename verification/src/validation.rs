//! Reporting queued messages as valid and publishing those that were accepted.
use crate::bytes::copy_bytes;
use crate::codec::decode_queue;
use crate::message::{queue_entries, MessageCache};
use crate::peer::PeerId;
use vstd::prelude::*;

#[allow(unused_imports)]
use crate::codec::queue_decoding;
#[allow(unused_imports)]
use crate::message::{byte_strings, QueueEntry};
#[allow(unused_imports)]
use crate::peer::{canonical_peer, stem_topic_of};

verus! {

/// A message to publish on a topic.
pub struct Publish {
    pub topic: String,
    pub data: Vec<u8>,
}

/// What a message to publish holds: its topic and its data.
pub open spec fn publication(publish: Publish) -> (Seq<char>, Seq<u8>) {
    (publish.topic@, publish.data@)
}

/// The report that a queued message is valid, to be made for a peer.
pub struct ValidationReport {
    /// identifier of the message
    pub msg_id: Vec<u8>,
    /// peer that the message goes to
    pub peer: PeerId,
    /// the message
    pub data: Vec<u8>,
}

/// What a report holds.
#[verifier::ext_equal]
pub struct Report {
    pub msg_id: Seq<u8>,
    pub peer: Seq<u8>,
    pub data: Seq<u8>,
}

impl View for ValidationReport {
    type V = Report;

    open spec fn view(&self) -> Report {
        Report { msg_id: self.msg_id@, peer: self.peer@, data: self.data@ }
    }
}

/// What a list of reports holds.
pub open spec fn report_views(reports: Seq<ValidationReport>) -> Seq<Report> {
    reports.map_values(|report: ValidationReport| report@)
}

/// The report on a queued message for one of its peers, whose identifier is read from `peer`.
pub open spec fn report_for(entry: QueueEntry, peer: Seq<u8>) -> Report {
    Report { msg_id: entry.msg_id, peer: canonical_peer(peer)->0, data: entry.data }
}

/// The reports on a queued message, one for each of its peers, in their order.
pub open spec fn entry_reports(entry: QueueEntry) -> Seq<Report> {
    Seq::new(entry.peers.len(), |i: int| report_for(entry, entry.peers[i]))
}

/// The reports on queued messages, in the order of the queue.
pub open spec fn reports_on(entries: Seq<QueueEntry>) -> Seq<Report>
    decreases entries.len(),
{
    if entries.len() == 0 {
        Seq::empty()
    } else {
        reports_on(entries.drop_last()) + entry_reports(entries.last())
    }
}

/// The number of peers of the queue entries before the position `i`.
pub open spec fn reports_before(entries: Seq<QueueEntry>, i: int) -> nat
    decreases i,
{
    if i <= 0 {
        0
    } else {
        reports_before(entries, i - 1) + entries[i - 1].peers.len()
    }
}

/// Whether the report at a position is on the message with the given identifier and contents, for
/// the peer whose identifier is read from `peer`.
pub open spec fn reported(
    reports: Seq<ValidationReport>,
    at: int,
    msg_id: Seq<u8>,
    peer: Seq<u8>,
    data: Seq<u8>,
) -> bool {
    &&& 0 <= at < reports.len()
    &&& reports[at].msg_id@ == msg_id
    &&& Some(reports[at].peer@) == canonical_peer(peer)
    &&& reports[at].data@ == data
}

/// Whether an identifier is read from each of the first `count` peers of a queue entry.
pub open spec fn first_peers_valid(entry: QueueEntry, count: int) -> bool {
    forall|i: int| 0 <= i < count ==> canonical_peer(#[trigger] entry.peers[i]) is Some
}

/// Whether an identifier is read from every peer of every queue entry.
pub open spec fn queue_peers_valid(entries: Seq<QueueEntry>) -> bool {
    forall|i: int|
        0 <= i < entries.len() ==> first_peers_valid(#[trigger] entries[i], entries[i].peers.len() as int)
}

/// The queue entries that `bytes` hold. Bytes that hold no list of entries hold none.
pub open spec fn stored_queue(bytes: Seq<u8>) -> Seq<QueueEntry> {
    match queue_decoding(bytes, usize::BITS as nat) {
        Some(entries) => entries,
        None => Seq::empty(),
    }
}

/// The queue entries that stored bytes hold.
pub fn read_queue(stored: &[u8]) -> (entries: Vec<MessageCache>)
    ensures
        queue_entries(entries@) == stored_queue(stored@),
{
    match decode_queue(stored) {
        Some(entries) => entries,
        None => {
            let entries = Vec::new();
            assert(queue_entries(entries@) =~= Seq::empty());
            entries
        },
    }
}

/// The reports on queued messages, in the order of the queue; none if no identifier is read from
/// one of the queued peers.
pub fn queue_reports(entries: &Vec<MessageCache>) -> (reports: Option<Vec<ValidationReport>>)
    ensures
        reports is Some <==> queue_peers_valid(queue_entries(entries@)),
        reports matches Some(r) ==> report_views(r@) == reports_on(queue_entries(entries@)),
        reports matches Some(r) ==> r@.len() == reports_before(queue_entries(entries@), entries@.len() as int),
        reports matches Some(r) ==> forall|i: int, j: int|
            0 <= i < entries@.len() && 0 <= j < entries@[i].peers@.len() ==> reported(
                r@,
                reports_before(queue_entries(entries@), i) + j,
                entries@[i].msg_id@,
                #[trigger] entries@[i].peers@[j]@,
                entries@[i].fluff_msg.data@,
            ),
{
    let ghost views = queue_entries(entries@);
    let mut reports: Vec<ValidationReport> = Vec::new();
    let mut i: usize = 0;
    assert(report_views(reports@) =~= reports_on(views.take(0)));
    while i < entries.len()
        invariant
            i <= entries.len(),
            views == queue_entries(entries@),
            queue_peers_valid(views.take(i as int)),
            report_views(reports@) == reports_on(views.take(i as int)),
        decreases entries.len() - i,
    {
        let entry = &entries[i];
        let ghost made = reports_on(views.take(i as int));
        let ghost own = entry_reports(entry@);
        assert(views[i as int] == entry@);
        let mut j: usize = 0;
        assert(made =~= made + own.take(0));
        while j < entry.peers.len()
            invariant
                j <= entry.peers.len(),
                i < entries.len(),
                views == queue_entries(entries@),
                views[i as int] == entry@,
                own == entry_reports(entry@),
                first_peers_valid(entry@, j as int),
                report_views(reports@) == made + own.take(j as int),
            decreases entry.peers.len() - j,
        {
            let ghost earlier = reports@;
            assert(entry@.peers[j as int] == entry.peers@[j as int]@);
            match PeerId::from_bytes(entry.peers[j].as_slice()) {
                Some(peer) => {
                    let report = ValidationReport {
                        msg_id: copy_bytes(&entry.msg_id),
                        peer,
                        data: copy_bytes(&entry.fluff_msg.data),
                    };
                    reports.push(report);
                    assert(report@ == own[j as int]);
                    assert(report_views(reports@) =~= report_views(earlier).push(report@));
                    assert(made + own.take(j + 1) =~= (made + own.take(j as int)).push(own[j as int]));
                },
                None => {
                    assert(!first_peers_valid(views[i as int], views[i as int].peers.len() as int));
                    return None;
                },
            }
            j += 1;
        }
        proof {
            assert(own.take(j as int) =~= own);
            let next = views.take(i + 1);
            assert(next.drop_last() =~= views.take(i as int));
            assert forall|k: int| 0 <= k < next.len() implies first_peers_valid(
                #[trigger] next[k],
                next[k].peers.len() as int,
            ) by {
                if k < i {
                    assert(next[k] == views.take(i as int)[k]);
                }
            }
        }
        i += 1;
    }
    assert(views.take(i as int) =~= views);
    proof {
        reports_are_counted(views);
        assert forall|i: int, j: int|
            0 <= i < entries@.len() && 0 <= j < entries@[i].peers@.len() implies reported(
            reports@,
            reports_before(views, i) + j,
            entries@[i].msg_id@,
            #[trigger] entries@[i].peers@[j]@,
            entries@[i].fluff_msg.data@,
        ) by {
            assert(views[i] == entries@[i]@);
            assert(views[i].peers[j] == entries@[i].peers@[j]@);
            reports_stand_at_their_places(views, i, j);
            let at = reports_before(views, i) + j;
            assert(report_views(reports@)[at] == reports@[at]@);
        }
    }
    Some(reports)
}

impl ValidationReport {
    /// What to publish once the report was made: the message, on the topic of its peer, if the
    /// report was accepted; otherwise nothing.
    pub fn outcome(self, accepted: bool) -> (publish: Option<Publish>)
        ensures
            publish is Some <==> accepted,
            publish matches Some(p) ==> publication(p) == (stem_topic_of(self@.peer), self@.data),
            publish matches Some(p) ==> p.topic@ == "stem-"@ + crate::peer::base58(self.peer@) && p.data@
                == self.data@,
    {
        if accepted {
            Some(Publish { topic: self.peer.stem_topic(), data: self.data })
        } else {
            None
        }
    }
}

/// Every report is on one of the queued messages, for one of its peers.
pub proof fn reports_come_from_the_queue(entries: Seq<QueueEntry>, report: Report)
    requires
        reports_on(entries).contains(report),
    ensures
        exists|i: int, j: int|
            0 <= i < entries.len() && 0 <= j < entries[i].peers.len() && report == report_for(
                entries[i],
                #[trigger] entries[i].peers[j],
            ),
    decreases entries.len(),
{
    if entries.len() > 0 {
        let rest = entries.drop_last();
        let own = entry_reports(entries.last());
        let k = choose|k: int| 0 <= k < reports_on(entries).len() && reports_on(entries)[k] == report;
        if k < reports_on(rest).len() {
            assert(reports_on(rest)[k] == report);
            reports_come_from_the_queue(rest, report);
            let (i, j) = choose|i: int, j: int|
                0 <= i < rest.len() && 0 <= j < rest[i].peers.len() && report == report_for(
                    rest[i],
                    #[trigger] rest[i].peers[j],
                );
            assert(entries[i].peers[j] == rest[i].peers[j]);
        } else {
            let j = k - reports_on(rest).len();
            assert(own[j] == report);
            let last = entries.len() - 1;
            assert(report == report_for(entries[last], entries[last].peers[j]));
        }
    }
}

/// Every queued message is reported for each of its peers.
pub proof fn queue_is_reported(entries: Seq<QueueEntry>, i: int, j: int)
    requires
        0 <= i < entries.len(),
        0 <= j < entries[i].peers.len(),
    ensures
        reports_on(entries).contains(report_for(entries[i], entries[i].peers[j])),
    decreases entries.len(),
{
    let rest = entries.drop_last();
    let own = entry_reports(entries.last());
    let all = reports_on(entries);
    let report = report_for(entries[i], entries[i].peers[j]);
    if i < rest.len() {
        queue_is_reported(rest, i, j);
        let k = choose|k: int| 0 <= k < reports_on(rest).len() && reports_on(rest)[k] == report;
        assert(all[k] == report);
    } else {
        assert(own[j] == report);
        assert(all[reports_on(rest).len() + j] == report);
    }
}

/// The entries before a position have as many peers, whatever follows.
proof fn reports_before_a_prefix(entries: Seq<QueueEntry>, i: int)
    requires
        0 <= i < entries.len(),
    ensures
        reports_before(entries.drop_last(), i) == reports_before(entries, i),
    decreases i,
{
    if i > 0 {
        reports_before_a_prefix(entries, i - 1);
        assert(entries.drop_last()[i - 1] == entries[i - 1]);
    }
}

/// There are as many reports as the queued messages have peers.
pub proof fn reports_are_counted(entries: Seq<QueueEntry>)
    ensures
        reports_on(entries).len() == reports_before(entries, entries.len() as int),
    decreases entries.len(),
{
    if entries.len() > 0 {
        let rest = entries.drop_last();
        reports_are_counted(rest);
        reports_before_a_prefix(entries, rest.len() as int);
    }
}

/// The report for the peer at `j` of the queued message at `i` comes after those of the messages
/// before it and of the peers before it. It is on that message, with its identifier and all of its
/// contents, and for that peer and no other.
pub proof fn reports_stand_at_their_places(entries: Seq<QueueEntry>, i: int, j: int)
    requires
        0 <= i < entries.len(),
        0 <= j < entries[i].peers.len(),
    ensures
        reports_before(entries, i) + j < reports_on(entries).len(),
        reports_on(entries)[reports_before(entries, i) + j].msg_id == entries[i].msg_id,
        reports_on(entries)[reports_before(entries, i) + j].data == entries[i].data,
        reports_on(entries)[reports_before(entries, i) + j].peer == canonical_peer(entries[i].peers[j])->0,
    decreases entries.len(),
{
    let rest = entries.drop_last();
    reports_are_counted(rest);
    reports_before_a_prefix(entries, i);
    let at = reports_before(entries, i) + j;
    if i < rest.len() {
        assert(rest[i] == entries[i]);
        reports_stand_at_their_places(rest, i, j);
        assert(reports_on(entries)[at] == reports_on(rest)[at]);
    } else {
        assert(reports_on(entries)[at] == entry_reports(entries.last())[j]);
    }
}

/// Bytes from which no queue is read hold none; otherwise they hold the queue that is read. A queue
/// is in order exactly if an identifier is read from each of the peers of each of its entries.
pub proof fn queues_are_those_that_are_read(bytes: Seq<u8>, entries: Seq<QueueEntry>)
    ensures
        queue_decoding(bytes, usize::BITS as nat) is None ==> stored_queue(bytes).len() == 0,
        queue_decoding(bytes, usize::BITS as nat) == Some(entries) ==> stored_queue(bytes) == entries,
        queue_peers_valid(entries) <==> forall|i: int, j: int|
            0 <= i < entries.len() && 0 <= j < entries[i].peers.len() ==> canonical_peer(
                #[trigger] entries[i].peers[j],
            ) is Some,
{
    if queue_peers_valid(entries) {
        assert forall|i: int, j: int|
            0 <= i < entries.len() && 0 <= j < entries[i].peers.len() implies canonical_peer(
            #[trigger] entries[i].peers[j],
        ) is Some by {
            assert(first_peers_valid(entries[i], entries[i].peers.len() as int));
        }
    }
}

} // verus!
