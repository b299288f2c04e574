//! Picking the peers that a message goes to next.
use crate::peer::{peer_bytes, PeerId};
use rand::seq::{IndexedRandom, SliceRandom};
use vstd::prelude::*;

#[allow(unused_imports)]
use crate::peer::canonical_peer;
#[allow(unused_imports)]
use crate::spread::spread_of;

verus! {

/// The test that a peer is not the one whose identifier is read from `source`.
pub open spec fn other_than(source: Seq<u8>) -> spec_fn(Seq<u8>) -> bool {
    |peer: Seq<u8>| canonical_peer(source) != Some(peer)
}

/// The peers that a message may go to, when the identifier of the peer it came from is read from
/// `source`: all but that peer.
pub open spec fn available(peers: Seq<Seq<u8>>, source: Seq<u8>) -> Seq<Seq<u8>> {
    peers.filter(other_than(source))
}

/// Whether `chosen` are as many of the peers `from` as a message is handed on to, none of them
/// more often than it occurs there.
pub open spec fn is_selection(chosen: Seq<Seq<u8>>, from: Seq<Seq<u8>>) -> bool {
    &&& chosen.len() == spread_of(from.len())
    &&& chosen.to_multiset().subset_of(from.to_multiset())
}

/// Puts peers into random order, by `SliceRandom::shuffle` of `rand` on the thread's generator:
/// the same peers stand in the list afterwards, in whatever order.
#[verifier::external_body]
pub(crate) fn shuffle(peers: &mut Vec<PeerId>)
    ensures
        peer_bytes(final(peers)@).to_multiset() == peer_bytes(old(peers)@).to_multiset(),
{
    peers.shuffle(&mut rand::rng())
}

/// Picks one item at random, by `IndexedRandom::choose` of `rand` on the thread's generator: one
/// of the items, whichever it is, or nothing where there is none.
#[verifier::external_body]
pub(crate) fn choose_one<T>(items: &Vec<T>) -> (item: Option<&T>)
    ensures
        item is None <==> items@.len() == 0,
        item matches Some(i) ==> items@.contains(*i),
{
    items.choose(&mut rand::rng())
}

/// The peers that a message may go to, all but the one that it came from. An identifier must be
/// read from the bytes of the source, unless there is no peer to hold it against.
pub fn available_peers(peers: &Vec<PeerId>, source: &Vec<u8>) -> (found: Vec<PeerId>)
    requires
        peers@.len() > 0 ==> canonical_peer(source@) is Some,
    ensures
        peer_bytes(found@) == available(peer_bytes(peers@), source@),
        forall|i: int|
            0 <= i < peers@.len() && canonical_peer(source@) != Some((#[trigger] peers@[i])@) ==> peer_bytes(
                found@,
            ).contains(peers@[i]@),
        forall|peer: Seq<u8>|
            #![trigger peer_bytes(found@).to_multiset().count(peer)]
            peer_bytes(found@).to_multiset().count(peer) == if canonical_peer(source@) == Some(peer) {
                0
            } else {
                peer_bytes(peers@).to_multiset().count(peer)
            },
{
    let ghost all = peer_bytes(peers@);
    let ghost other = other_than(source@);
    let mut found: Vec<PeerId> = Vec::new();
    proof {
        reveal(Seq::filter);
        assert(peer_bytes(found@) =~= all.take(0).filter(other));
    }
    match PeerId::from_bytes(source.as_slice()) {
        Some(source_peer) => {
            let mut i: usize = 0;
            while i < peers.len()
                invariant
                    i <= peers.len(),
                    all == peer_bytes(peers@),
                    canonical_peer(source@) == Some(source_peer@),
                    other == other_than(source@),
                    peer_bytes(found@) == all.take(i as int).filter(other),
                decreases peers.len() - i,
            {
                let ghost earlier = found@;
                proof {
                    reveal(Seq::filter);
                    assert(all.take(i + 1).drop_last() =~= all.take(i as int));
                }
                if !peers[i].same(&source_peer) {
                    let peer = peers[i].clone();
                    found.push(peer);
                    assert(peer_bytes(found@) =~= peer_bytes(earlier).push(peer@));
                }
                i += 1;
            }
            assert(all.take(i as int) =~= all);
        },
        None => {
            assert(all =~= all.take(0));
        },
    }
    proof {
        assert forall|peer: Seq<u8>|
            #![trigger peer_bytes(found@).to_multiset().count(peer)]
            peer_bytes(found@).to_multiset().count(peer) == if canonical_peer(source@) == Some(peer) {
                0
            } else {
                all.to_multiset().count(peer)
            } by {
            all_but_the_source_are_available(all, source@, peer);
        }
        assert forall|i: int|
            0 <= i < peers@.len() && canonical_peer(source@) != Some((#[trigger] peers@[i])@) implies peer_bytes(
            found@,
        ).contains(peers@[i]@) by {
            assert(all[i] == peers@[i]@);
            assert(all.contains(peers@[i]@));
            all_but_the_source_are_available(all, source@, peers@[i]@);
        }
    }
    found
}

/// The first peers of a shuffled list, as many as a message is handed on to, are a selection.
pub proof fn first_shuffled_are_a_selection(shuffled: Seq<Seq<u8>>, from: Seq<Seq<u8>>)
    requires
        shuffled.to_multiset() == from.to_multiset(),
    ensures
        shuffled.len() == from.len(),
        is_selection(shuffled.take(spread_of(shuffled.len()) as int), from),
{
    broadcast use vstd::seq_lib::group_to_multiset_ensures;

    crate::spread::spread_is_bounded(shuffled.len());
    let k = spread_of(shuffled.len()) as int;
    vstd::seq_lib::to_multiset_len(shuffled);
    vstd::seq_lib::to_multiset_len(from);
    assert(shuffled =~= shuffled.take(k) + shuffled.skip(k));
    vstd::seq_lib::lemma_multiset_commutative(shuffled.take(k), shuffled.skip(k));
}

/// A selection holds no peer but those it was made from, and never the source of the message.
pub proof fn selection_excludes_source(chosen: Seq<Seq<u8>>, peers: Seq<Seq<u8>>, source: Seq<u8>)
    requires
        is_selection(chosen, available(peers, source)),
    ensures
        forall|peer: Seq<u8>| #[trigger]
            chosen.contains(peer) ==> peers.contains(peer) && canonical_peer(source) != Some(peer),
{
    broadcast use vstd::seq_lib::group_to_multiset_ensures;

    let from = available(peers, source);
    let other = other_than(source);
    assert forall|peer: Seq<u8>| #[trigger] chosen.contains(peer) implies peers.contains(peer)
        && canonical_peer(source) != Some(peer) by {
        assert(chosen.to_multiset().count(peer) > 0);
        assert(from.to_multiset().count(peer) > 0);
        assert(from.contains(peer));
        peers.lemma_filter_contains_rev(other, peer);
        let i = choose|i: int| 0 <= i < from.len() && from[i] == peer;
        peers.lemma_filter_pred(other, i);
    }
}

/// Where no peer is listed twice, a selection holds no peer twice.
pub proof fn selection_has_no_duplicates(chosen: Seq<Seq<u8>>, peers: Seq<Seq<u8>>, source: Seq<u8>)
    requires
        peers.no_duplicates(),
        is_selection(chosen, available(peers, source)),
    ensures
        chosen.no_duplicates(),
{
    broadcast use vstd::seq_lib::group_to_multiset_ensures;

    let from = available(peers, source);
    let other = other_than(source);
    filter_keeps_no_duplicates(peers, other);
    from.lemma_multiset_has_no_duplicates();
    assert forall|x: Seq<u8>| chosen.to_multiset().contains(x) implies chosen.to_multiset().count(x)
        == 1 by {
        assert(from.to_multiset().count(x) >= chosen.to_multiset().count(x));
        assert(from.to_multiset().contains(x));
    }
    chosen.lemma_multiset_has_no_duplicates_conv();
}

/// Leaving items out of a list without duplicates leaves a list without duplicates.
proof fn filter_keeps_no_duplicates(list: Seq<Seq<u8>>, keep: spec_fn(Seq<u8>) -> bool)
    requires
        list.no_duplicates(),
    ensures
        list.filter(keep).no_duplicates(),
    decreases list.len(),
{
    reveal(Seq::filter);
    if list.len() > 0 {
        let rest = list.drop_last();
        filter_keeps_no_duplicates(rest, keep);
        if rest.filter(keep).contains(list.last()) {
            rest.lemma_filter_contains_rev(keep, list.last());
            let k = choose|k: int| 0 <= k < rest.len() && rest[k] == list.last();
            assert(list[k] == list[list.len() - 1]);
        }
    }
}

/// Leaving items out of a list leaves those that are kept as often as they were there, and no others.
proof fn filter_counts(list: Seq<Seq<u8>>, keep: spec_fn(Seq<u8>) -> bool, item: Seq<u8>)
    ensures
        list.filter(keep).to_multiset().count(item) == if keep(item) {
            list.to_multiset().count(item)
        } else {
            0
        },
    decreases list.len(),
{
    broadcast use vstd::seq_lib::group_to_multiset_ensures;

    reveal(Seq::filter);
    if list.len() > 0 {
        let rest = list.drop_last();
        filter_counts(rest, keep, item);
        assert(list =~= rest.push(list.last()));
        vstd::seq_lib::to_multiset_build(rest, list.last());
        vstd::seq_lib::to_multiset_build(rest.filter(keep), list.last());
    } else {
        assert(list.filter(keep) =~= list);
        assert(!list.contains(item));
    }
}

/// Leaving one item out of a list makes it shorter by as often as the item was there.
proof fn filter_shortens(list: Seq<Seq<u8>>, keep: spec_fn(Seq<u8>) -> bool, out: Seq<u8>)
    requires
        forall|item: Seq<u8>| #[trigger] keep(item) <==> item != out,
    ensures
        list.filter(keep).len() == list.len() - list.to_multiset().count(out),
    decreases list.len(),
{
    broadcast use vstd::seq_lib::group_to_multiset_ensures;

    reveal(Seq::filter);
    if list.len() > 0 {
        let rest = list.drop_last();
        filter_shortens(rest, keep, out);
        assert(list =~= rest.push(list.last()));
        vstd::seq_lib::to_multiset_build(rest, list.last());
    } else {
        assert(!list.contains(out));
    }
}

/// Every peer but the one that a message came from is available to it, as often as it is listed,
/// and that one is not. So there are as many available peers as listed ones, less the source.
pub proof fn all_but_the_source_are_available(peers: Seq<Seq<u8>>, source: Seq<u8>, peer: Seq<u8>)
    ensures
        available(peers, source).contains(peer) <==> peers.contains(peer) && canonical_peer(source) != Some(
            peer,
        ),
        available(peers, source).to_multiset().count(peer) == if canonical_peer(source) == Some(peer) {
            0
        } else {
            peers.to_multiset().count(peer)
        },
        canonical_peer(source) is None ==> available(peers, source).len() == peers.len(),
        canonical_peer(source) == Some(peer) ==> available(peers, source).len() == peers.len()
            - peers.to_multiset().count(peer),
{
    broadcast use vstd::seq_lib::group_to_multiset_ensures;

    let other = other_than(source);
    let found = available(peers, source);
    filter_counts(peers, other, peer);
    assert(found.contains(peer) <==> found.to_multiset().count(peer) > 0);
    assert(peers.contains(peer) <==> peers.to_multiset().count(peer) > 0);
    if canonical_peer(source) == Some(peer) {
        filter_shortens(peers, other, peer);
    }
    if canonical_peer(source) is None {
        everything_is_kept(peers, other);
    }
}

/// Leaving nothing out of a list leaves the list.
proof fn everything_is_kept(list: Seq<Seq<u8>>, keep: spec_fn(Seq<u8>) -> bool)
    requires
        forall|item: Seq<u8>| #[trigger] keep(item),
    ensures
        list.filter(keep) == list,
    decreases list.len(),
{
    reveal(Seq::filter);
    if list.len() > 0 {
        everything_is_kept(list.drop_last(), keep);
        assert(list.drop_last().push(list.last()) =~= list);
    }
}

/// How many peers a selection holds, out of `n` that are listed besides the source: all where there
/// are three or fewer, otherwise at least three, so many that their number squared covers all, and
/// not one more than that takes. None is picked more often than it is listed, and the source never.
pub proof fn selection_is_exact(chosen: Seq<Seq<u8>>, peers: Seq<Seq<u8>>, source: Seq<u8>, n: int)
    requires
        is_selection(chosen, available(peers, source)),
        match canonical_peer(source) {
            Some(own) => n == peers.len() - peers.to_multiset().count(own),
            None => n == peers.len(),
        },
    ensures
        chosen.len() <= n,
        chosen.len() == n || chosen.len() >= 3,
        chosen.len() * chosen.len() >= n,
        chosen.len() > 3 ==> (chosen.len() - 1) * (chosen.len() - 1) < n,
        forall|peer: Seq<u8>|
            #![trigger chosen.to_multiset().count(peer)]
            chosen.to_multiset().count(peer) <= if canonical_peer(source) == Some(peer) {
                0
            } else {
                peers.to_multiset().count(peer)
            },
{
    let from = available(peers, source);
    crate::spread::spread_is_exact(from.len());
    match canonical_peer(source) {
        Some(own) => all_but_the_source_are_available(peers, source, own),
        None => all_but_the_source_are_available(peers, source, source),
    }
    assert(from.len() == n);
    assert forall|peer: Seq<u8>|
        #![trigger chosen.to_multiset().count(peer)]
        chosen.to_multiset().count(peer) <= if canonical_peer(source) == Some(peer) {
            0
        } else {
            peers.to_multiset().count(peer)
        } by {
        all_but_the_source_are_available(peers, source, peer);
        assert(chosen.to_multiset().count(peer) <= from.to_multiset().count(peer));
    }
}

} // verus!
