//! The messages that wait to be propagated, each under its identifier.
use crate::bytes::{copy_bytes, same_bytes};
use crate::message::PendingMessage;
use crate::peer::{same_optional_peer, PeerId};
use vstd::prelude::*;

#[allow(unused_imports)]
use crate::message::PendingMessageView;

verus! {

/// A waiting message and its identifier.
pub type Pending = (Seq<u8>, PendingMessageView);

/// Whether no two of these messages have the same identifier.
pub open spec fn distinct_ids(pending: Seq<Pending>) -> bool {
    forall|i: int, j: int|
        #![trigger pending[i], pending[j]]
        0 <= i < j < pending.len() ==> pending[i].0 != pending[j].0
}

/// Whether one of these messages has the identifier `id`.
pub open spec fn has_id(pending: Seq<Pending>, id: Seq<u8>) -> bool {
    exists|i: int| 0 <= i < pending.len() && #[trigger] pending[i].0 == id
}

/// The messages that did not come from `peer`, in the order in which they stand.
pub open spec fn not_from(pending: Seq<Pending>, peer: Seq<u8>) -> Seq<Pending> {
    pending.filter(|entry: Pending| entry.1.source != Some(peer))
}

/// The messages once `message` came under the identifier `id`: it is added, unless a message with
/// that identifier waits already.
pub open spec fn with_new(pending: Seq<Pending>, id: Seq<u8>, message: PendingMessageView) -> Seq<Pending> {
    if has_id(pending, id) {
        pending
    } else {
        pending.push((id, message))
    }
}

/// Leaving messages out leaves identifiers distinct.
pub proof fn filter_keeps_ids_distinct(pending: Seq<Pending>, keep: spec_fn(Pending) -> bool)
    requires
        distinct_ids(pending),
    ensures
        distinct_ids(pending.filter(keep)),
    decreases pending.len(),
{
    reveal(Seq::filter);
    if pending.len() > 0 {
        let rest = pending.drop_last();
        assert(distinct_ids(rest));
        filter_keeps_ids_distinct(rest, keep);
        let kept = pending.filter(keep);
        assert forall|i: int, j: int|
            #![trigger kept[i], kept[j]]
            0 <= i < j < kept.len() implies kept[i].0 != kept[j].0 by {
            if j == rest.filter(keep).len() {
                assert(kept[i] == rest.filter(keep)[i]);
                assert(rest.filter(keep).contains(kept[i]));
                rest.lemma_filter_contains_rev(keep, kept[i]);
                let k = choose|k: int| 0 <= k < rest.len() && rest[k] == kept[i];
                assert(pending[k] == kept[i]);
                assert(kept[j] == pending.last());
            } else {
                assert(kept[i] == rest.filter(keep)[i]);
                assert(kept[j] == rest.filter(keep)[j]);
            }
        }
    }
}

/// Waiting messages, in the order in which they came; no identifier occurs twice.
pub struct PendingMessages {
    entries: Vec<(Vec<u8>, PendingMessage)>,
}

impl View for PendingMessages {
    type V = Seq<Pending>;

    closed spec fn view(&self) -> Seq<Pending> {
        self.entries@.map_values(|entry: (Vec<u8>, PendingMessage)| (entry.0@, entry.1@))
    }
}

impl Clone for PendingMessages {
    /// The same messages, in the same order.
    fn clone(&self) -> (copy: PendingMessages)
        ensures
            copy@ == self@,
    {
        let mut entries: Vec<(Vec<u8>, PendingMessage)> = Vec::new();
        let mut i: usize = 0;
        while i < self.entries.len()
            invariant
                i <= self.entries.len(),
                entries.len() == i,
                forall|j: int|
                    0 <= j < i ==> (#[trigger] entries@[j]).0@ == self.entries@[j].0@ && entries@[j].1@
                        == self.entries@[j].1@,
            decreases self.entries.len() - i,
        {
            entries.push((copy_bytes(&self.entries[i].0), self.entries[i].1.clone()));
            i += 1;
        }
        let copy = PendingMessages { entries };
        assert(copy@ =~= self@);
        copy
    }
}

impl PendingMessages {
    /// No identifier occurs twice.
    pub open spec fn wf(&self) -> bool {
        distinct_ids(self@)
    }

    /// No message waits yet.
    pub fn new() -> (pending: PendingMessages)
        ensures
            pending.wf(),
            pending@ == Seq::<Pending>::empty(),
    {
        let pending = PendingMessages { entries: Vec::new() };
        assert(pending@ =~= Seq::<Pending>::empty());
        pending
    }

    /// The number of messages that wait.
    pub fn len(&self) -> (count: usize)
        ensures
            count == self@.len(),
    {
        self.entries.len()
    }

    /// The identifier and the message at a position.
    pub fn at(&self, position: usize) -> (entry: (&Vec<u8>, &PendingMessage))
        requires
            position < self@.len(),
        ensures
            (entry.0@, entry.1@) == self@[position as int],
            entry.1.content@ == self@[position as int].1.content,
            entry.1.received_at == self@[position as int].1.received_at,
            entry.1.relayed == self@[position as int].1.relayed,
            match entry.1.source {
                Some(peer) => self@[position as int].1.source == Some(peer@),
                None => self@[position as int].1.source is None,
            },
    {
        (&self.entries[position].0, &self.entries[position].1)
    }

    /// The position of the message with the identifier `id`.
    fn position(&self, id: &Vec<u8>) -> (position: Option<usize>)
        ensures
            position is None <==> !has_id(self@, id@),
            position matches Some(p) ==> p < self@.len() && self@[p as int].0 == id@,
    {
        let mut i: usize = 0;
        while i < self.entries.len()
            invariant
                i <= self@.len(),
                self@.len() == self.entries@.len(),
                forall|j: int| 0 <= j < i ==> (#[trigger] self@[j]).0 != id@,
            decreases self.entries.len() - i,
        {
            assert(self@[i as int].0 == self.entries@[i as int].0@);
            if same_bytes(&self.entries[i].0, id) {
                return Some(i);
            }
            i += 1;
        }
        None
    }

    /// Whether a message with the identifier `id` waits.
    pub fn contains_key(&self, id: &Vec<u8>) -> (found: bool)
        ensures
            found == has_id(self@, id@),
            found == exists|i: int| 0 <= i < self@.len() && #[trigger] self@[i].0 == id@,
    {
        self.position(id).is_some()
    }

    /// The message that waits under the identifier `id`.
    pub fn get(&self, id: &Vec<u8>) -> (message: Option<&PendingMessage>)
        ensures
            message is Some <==> has_id(self@, id@),
            message matches Some(m) ==> self@.contains((id@, m@)),
    {
        match self.position(id) {
            Some(i) => {
                assert(self@[i as int] == (id@, self.entries@[i as int].1@));
                Some(&self.entries[i].1)
            },
            None => None,
        }
    }

    /// Adds a message, unless one with the same identifier waits already.
    pub fn insert_new(&mut self, id: Vec<u8>, message: PendingMessage)
        requires
            old(self).wf(),
        ensures
            final(self).wf(),
            final(self)@ == with_new(old(self)@, id@, message@),
    {
        if !self.contains_key(&id) {
            let ghost added = (id@, message@);
            self.entries.push((id, message));
            assert(self@ =~= old(self)@.push(added));
        }
    }

    /// Drops the messages that came from `peer`.
    pub fn remove_from(&mut self, peer: &PeerId)
        requires
            old(self).wf(),
        ensures
            final(self).wf(),
            final(self)@ == not_from(old(self)@, peer@),
    {
        let source = Some(peer.clone());
        let ghost all = self@;
        let ghost keep = |entry: Pending| entry.1.source != Some(peer@);
        let ghost mut seen: int = 0;
        let mut i: usize = 0;
        assert(all.take(0).filter(keep) =~= Seq::<Pending>::empty()) by {
            reveal(Seq::filter);
        }
        assert(self@ =~= all.take(0).filter(keep) + all.skip(0));
        while i < self.entries.len()
            invariant
                0 <= seen <= all.len(),
                i == all.take(seen).filter(keep).len(),
                self@ == all.take(seen).filter(keep) + all.skip(seen),
                self@.len() == self.entries@.len(),
                keep == (|entry: Pending| entry.1.source != Some(peer@)),
                source is Some,
                source->0@ == peer@,
            decreases all.len() - seen,
        {
            let ghost kept = all.take(seen).filter(keep);
            let ghost before = self@;
            proof {
                reveal(Seq::filter);
                assert(all.take(seen + 1).drop_last() =~= all.take(seen));
                assert(before[i as int] == all[seen]);
                assert(self.entries@[i as int].1@ == all[seen].1);
            }
            if same_optional_peer(&self.entries[i].1.source, &source) {
                self.entries.remove(i);
                assert(self@ =~= before.remove(i as int));
                assert(before.remove(i as int) =~= kept + all.skip(seen + 1));
            } else {
                i += 1;
                assert(before =~= kept.push(all[seen]) + all.skip(seen + 1));
            }
            proof {
                seen = seen + 1;
            }
        }
        proof {
            assert(all.take(seen) =~= all);
            assert(self@ =~= all.filter(keep));
            filter_keeps_ids_distinct(all, keep);
        }
    }
}

} // verus!
