//! The node: what it keeps, and what it does with what it is told.
use crate::address::{address_peer, find_peer, AddressError};
use crate::codec::encode_queue;
use crate::command::{parse_command, Command};
use crate::connect::Attempt;
use crate::dandelion::{read_pending, Dandelion};
use crate::peer::{peer_bytes, PeerId};
use crate::propagation::{
    check_peers, check_sources, draw_numbers, fluff_queue, stem_queue, PropagationError,
};
use crate::selection::choose_one;
use crate::validation::{queue_reports, read_queue, Publish, ValidationReport};
use vstd::prelude::*;
use vstd::string::{StrSliceExecFns, StringExecFns};

#[allow(unused_imports)]
use crate::address::{address_peer_of, component_views, first_peer};
#[allow(unused_imports)]
use crate::codec::{pending_decoding, pending_encoding, queue_decoding, queue_encoding};
#[allow(unused_imports)]
use crate::command::{command_of, CommandView};
#[allow(unused_imports)]
use crate::connect::Stage;
#[allow(unused_imports)]
use crate::dandelion::{due_records, due_sources_known, fresh_message, sources_read, stored_pending};
#[allow(unused_imports)]
use crate::message::{pending_records, queue_entries};
#[allow(unused_imports)]
use crate::peer::{canonical_peer, is_peer_id, stem_topic_of};
#[allow(unused_imports)]
use crate::pending::{not_from, with_new, Pending};
#[allow(unused_imports)]
use crate::propagation::{
    all_have_peers, handed_on, has_another_peer, numbers_drawn, picks_allowed, picks_read, sources_valid, stem_picks,
};
#[allow(unused_imports)]
use crate::validation::{
    queue_peers_valid, report_views, reported, reports_before, reports_on, stored_queue,
};

verus! {

/// The places in the store.
#[derive(Debug, Clone, Copy, PartialEq, Eq, Structural)]
pub enum StoreKey {
    /// records of messages that wait to be handed on
    PendingFluff,
    /// queue entries of messages that are to be reported as valid
    Validate,
}

/// Bytes to be kept in a place of the store.
pub struct StoreWrite {
    pub key: StoreKey,
    pub value: Vec<u8>,
}

/// What the network tells the node.
pub enum NodeEvent {
    /// the connection to a peer was closed
    ConnectionClosed(PeerId),
    /// a peer handed on a message
    Message { propagation_source: PeerId, message_id: Vec<u8>, data: Vec<u8> },
    /// anything else
    Other,
}

/// What a line that the user typed comes to.
pub enum LineAction {
    /// connect to the peer at an address
    Connect(String),
    /// publish a message
    Publish(Publish),
    /// nothing
    Nothing,
}

/// The messages that wait, once the node is told of an event at the time `now`. The messages of a
/// peer that is gone are dropped; a message that was not seen before is added.
pub open spec fn pending_after(pending: Seq<Pending>, event: NodeEvent, now: nat) -> Seq<Pending> {
    match event {
        NodeEvent::ConnectionClosed(peer) => not_from(pending, peer@),
        NodeEvent::Message { propagation_source, message_id, data } => with_new(
            pending,
            message_id@,
            fresh_message(data@, propagation_source@, now),
        ),
        NodeEvent::Other => pending,
    }
}

/// Whether `topic` is the topic of one of the peers.
pub open spec fn is_topic_of_a_peer(peers: Seq<Seq<u8>>, topic: Seq<char>) -> bool {
    exists|i: int| 0 <= i < peers.len() && stem_topic_of(#[trigger] peers[i]) == topic
}

/// The topic to publish on when `topic` was picked: that topic if it is one of a peer, otherwise
/// the common one.
pub open spec fn topic_for(peers: Seq<Seq<u8>>, topic: Seq<char>) -> Seq<char> {
    if is_topic_of_a_peer(peers, topic) {
        topic
    } else {
        "dandelion"@
    }
}

/// What a write to the store holds, or why there is none.
pub open spec fn written(write: Result<StoreWrite, PropagationError>) -> Result<
    (StoreKey, Seq<u8>),
    PropagationError,
> {
    match write {
        Ok(write) => Ok((write.key, write.value@)),
        Err(error) => Err(error),
    }
}

/// What handing on along the stem comes to, for the messages whose records `stored` holds: the
/// queue entries for the peers that were picked and the numbers that were drawn, or why the
/// messages cannot be handed on.
pub open spec fn stem_outcome(
    stored: Seq<u8>,
    peers: Seq<Seq<u8>>,
    picks: Seq<Seq<Seq<u8>>>,
    numbers: Seq<u64>,
) -> Result<(StoreKey, Seq<u8>), PropagationError> {
    let records = stored_pending(stored);
    if !sources_valid(records, peers) {
        Err(PropagationError::InvalidSource)
    } else if !all_have_peers(records, peers) {
        Err(PropagationError::NoAvailablePeer)
    } else {
        Ok((StoreKey::Validate, queue_encoding(handed_on(records, picks, numbers, false))))
    }
}

/// What handing on comes to, in the fluff phase where `fluff` says so, otherwise along the stem.
/// In the fluff phase a message that no peer is there for is handed on to none.
pub open spec fn transition_outcome(
    stored: Seq<u8>,
    fluff: bool,
    peers: Seq<Seq<u8>>,
    picks: Seq<Seq<Seq<u8>>>,
    numbers: Seq<u64>,
) -> Result<(StoreKey, Seq<u8>), PropagationError> {
    let records = stored_pending(stored);
    if !sources_valid(records, peers) {
        Err(PropagationError::InvalidSource)
    } else if !fluff && !all_have_peers(records, peers) {
        Err(PropagationError::NoAvailablePeer)
    } else {
        Ok((StoreKey::Validate, queue_encoding(handed_on(records, picks, numbers, fluff))))
    }
}

/// A node of the network.
pub struct DandelionNode {
    /// messages that wait to be propagated
    pub dandelion: Dandelion,
    /// peers of the node
    pub peers: Vec<PeerId>,
}

impl DandelionNode {
    /// No identifier occurs twice among the waiting messages.
    pub open spec fn wf(&self) -> bool {
        self.dandelion.wf()
    }

    /// The peers that the node knows of.
    pub open spec fn known_peers(&self) -> Seq<Seq<u8>> {
        peer_bytes(self.peers@)
    }

    /// The messages that wait.
    pub open spec fn pending(&self) -> Seq<Pending> {
        self.dandelion.pending_messages@
    }

    /// The nanoseconds that a message waits.
    pub open spec fn timeout(&self) -> nat {
        self.dandelion.stem_timeout as nat
    }

    /// A node that knows of no peer and of no message.
    pub fn new(stem_timeout: u128) -> (node: DandelionNode)
        ensures
            node.wf(),
            node.timeout() == stem_timeout,
            node.dandelion.stem_timeout == stem_timeout,
            node.dandelion.pending_messages@.len() == 0,
            node.peers@.len() == 0,
            node.pending() == Seq::<Pending>::empty(),
            node.known_peers() == Seq::<Seq<u8>>::empty(),
    {
        let node = DandelionNode { dandelion: Dandelion::new(stem_timeout), peers: Vec::new() };
        assert(node.known_peers() =~= Seq::<Seq<u8>>::empty());
        node
    }

    /// The records of the messages that are due at the time `now`, for the place of those that
    /// wait to be handed on. They read back as they are.
    pub fn process_pending_messages(&self, now: u128) -> (write: StoreWrite)
        requires
            due_sources_known(self.pending(), self.timeout(), now as nat),
        ensures
            write.key == StoreKey::PendingFluff,
            write.value@ == pending_encoding(due_records(self.pending(), self.timeout(), now as nat)),
            pending_decoding(write.value@, usize::BITS as nat) == Some(
                due_records(self.pending(), self.timeout(), now as nat),
            ),
            sources_read(due_records(self.pending(), self.timeout(), now as nat)),
            write.value@ == pending_encoding(
                due_records(self.dandelion.pending_messages@, self.dandelion.stem_timeout as nat, now as nat),
            ),
    {
        StoreWrite { key: StoreKey::PendingFluff, value: self.dandelion.encode_due(now) }
    }

    /// Hands on the messages whose records `stored` holds: in the fluff phase where `fluff` says
    /// so, otherwise along the stem. `all_peers` are the peers of the network and `draw` gives the
    /// sequence number of each message by its position.
    pub fn transition_to_fluff<F: Fn(usize) -> u64>(
        &self,
        stored: &[u8],
        fluff: bool,
        all_peers: &Vec<PeerId>,
        draw: F,
    ) -> (write: Result<StoreWrite, PropagationError>)
        requires
            forall|i: usize| draw.requires((i,)),
        ensures
            ({
                let records = stored_pending(stored@);
                let peers = peer_bytes(all_peers@);
                exists|picks: Seq<Seq<Seq<u8>>>, numbers: Seq<u64>|
                    #![trigger transition_outcome(stored@, fluff, peers, picks, numbers)]
                    {
                        &&& written(write) == transition_outcome(stored@, fluff, peers, picks, numbers)
                        &&& write matches Ok(w) ==> {
                            &&& picks_allowed(records, fluff, peers, picks)
                            &&& picks_read(picks)
                            &&& numbers.len() == records.len()
                            &&& numbers_drawn(draw, numbers)
                            &&& queue_decoding(w.value@, usize::BITS as nat) == Some(
                                handed_on(records, picks, numbers, fluff),
                            )
                            &&& w.key == StoreKey::Validate
                            &&& w.value@ == queue_encoding(handed_on(records, picks, numbers, fluff))
                        }
                    }
            }),
    {
        if fluff {
            let ghost peers = peer_bytes(all_peers@);
            let records = read_pending(stored);
            if !check_sources(&records, all_peers) {
                assert(transition_outcome(stored@, fluff, peers, Seq::empty(), Seq::empty()) is Err);
                return Err(PropagationError::InvalidSource);
            }
            let numbers = draw_numbers(draw, records.len());
            let entries = fluff_queue(&records, all_peers, &numbers);
            let write = Ok(StoreWrite { key: StoreKey::Validate, value: encode_queue(&entries) });
            proof {
                let views = pending_records(records@);
                let picks = choose|picks: Seq<Seq<Seq<u8>>>|
                    #![trigger handed_on(views, picks, numbers@, true)]
                    picks_allowed(views, true, peers, picks) && picks_read(picks) && queue_entries(entries@) == handed_on(
                        views,
                        picks,
                        numbers@,
                        true,
                    );
                assert(written(write) == transition_outcome(stored@, fluff, peers, picks, numbers@));
            }
            write
        } else {
            let write = self.extend_stem_phase(stored, all_peers, draw);
            proof {
                let peers = peer_bytes(all_peers@);
                let records = stored_pending(stored@);
                let (picks, numbers) = choose|picks: Seq<Seq<Seq<u8>>>, numbers: Seq<u64>|
                    #![trigger stem_outcome(stored@, peers, picks, numbers)]
                    {
                        &&& written(write) == stem_outcome(stored@, peers, picks, numbers)
                        &&& write matches Ok(w) ==> {
                            &&& stem_picks(records, peers, picks)
                            &&& picks_read(picks)
                            &&& numbers.len() == records.len()
                            &&& numbers_drawn(draw, numbers)
                            &&& queue_decoding(w.value@, usize::BITS as nat) == Some(
                                handed_on(records, picks, numbers, false),
                            )
                            &&& w.key == StoreKey::Validate
                            &&& w.value@ == queue_encoding(handed_on(records, picks, numbers, false))
                        }
                    };
                assert(written(write) == transition_outcome(stored@, fluff, peers, picks, numbers));
            }
            write
        }
    }

    /// Hands on the messages whose records `stored` holds, each to one more peer along the stem.
    pub fn extend_stem_phase<F: Fn(usize) -> u64>(
        &self,
        stored: &[u8],
        all_peers: &Vec<PeerId>,
        draw: F,
    ) -> (write: Result<StoreWrite, PropagationError>)
        requires
            forall|i: usize| draw.requires((i,)),
        ensures
            ({
                let records = stored_pending(stored@);
                let peers = peer_bytes(all_peers@);
                exists|picks: Seq<Seq<Seq<u8>>>, numbers: Seq<u64>|
                    #![trigger stem_outcome(stored@, peers, picks, numbers)]
                    {
                        &&& written(write) == stem_outcome(stored@, peers, picks, numbers)
                        &&& write matches Ok(w) ==> {
                            &&& stem_picks(records, peers, picks)
                            &&& picks_read(picks)
                            &&& numbers.len() == records.len()
                            &&& numbers_drawn(draw, numbers)
                            &&& queue_decoding(w.value@, usize::BITS as nat) == Some(
                                handed_on(records, picks, numbers, false),
                            )
                            &&& w.key == StoreKey::Validate
                            &&& w.value@ == queue_encoding(handed_on(records, picks, numbers, false))
                        }
                    }
            }),
    {
        let ghost peers = peer_bytes(all_peers@);
        let records = read_pending(stored);
        if !check_sources(&records, all_peers) {
            assert(stem_outcome(stored@, peers, Seq::empty(), Seq::empty()) is Err);
            return Err(PropagationError::InvalidSource);
        }
        if !check_peers(&records, all_peers) {
            assert(stem_outcome(stored@, peers, Seq::empty(), Seq::empty()) is Err);
            return Err(PropagationError::NoAvailablePeer);
        }
        let numbers = draw_numbers(draw, records.len());
        let entries = stem_queue(&records, all_peers, &numbers);
        let write = Ok(StoreWrite { key: StoreKey::Validate, value: encode_queue(&entries) });
        proof {
            let views = pending_records(records@);
            let picks = choose|picks: Seq<Seq<Seq<u8>>>|
                #![trigger handed_on(views, picks, numbers@, false)]
                stem_picks(views, peers, picks) && picks_read(picks) && queue_entries(entries@) == handed_on(
                    views,
                    picks,
                    numbers@,
                    false,
                );
            assert(written(write) == stem_outcome(stored@, peers, picks, numbers@));
        }
        write
    }

    /// The reports to make on the messages whose queue entries `stored` holds, in the order of the
    /// queue; none if no identifier is read from one of the queued peers.
    pub fn validate_message(&self, stored: &[u8]) -> (reports: Option<Vec<ValidationReport>>)
        ensures
            reports is Some <==> queue_peers_valid(stored_queue(stored@)),
            reports matches Some(r) ==> report_views(r@) == reports_on(stored_queue(stored@)),
            reports matches Some(r) ==> r@.len() == reports_before(
                stored_queue(stored@),
                stored_queue(stored@).len() as int,
            ),
            reports matches Some(r) ==> forall|i: int, j: int|
                0 <= i < stored_queue(stored@).len() && 0 <= j < stored_queue(stored@)[i].peers.len()
                    ==> reported(
                    r@,
                    reports_before(stored_queue(stored@), i) + j,
                    stored_queue(stored@)[i].msg_id,
                    #[trigger] stored_queue(stored@)[i].peers[j],
                    stored_queue(stored@)[i].data,
                ),
    {
        let entries = read_queue(stored);
        let reports = queue_reports(&entries);
        proof {
            let queue = stored_queue(stored@);
            assert(queue == queue_entries(entries@));
            if reports is Some {
                let r = reports->0;
                assert forall|i: int, j: int| 0 <= i < queue.len() && 0 <= j < queue[i].peers.len() implies reported(
                    r@,
                    reports_before(queue, i) + j,
                    queue[i].msg_id,
                    #[trigger] queue[i].peers[j],
                    queue[i].data,
                ) by {
                    assert(queue[i] == entries@[i]@);
                    assert(queue[i].peers[j] == entries@[i].peers@[j]@);
                }
            }
        }
        reports
    }

    /// Drops the messages of a peer that is gone.
    pub fn handle_peer_disconnect(&mut self, peer: PeerId)
        requires
            old(self).wf(),
        ensures
            final(self).wf(),
            final(self).pending() == not_from(old(self).pending(), peer@),
            final(self).timeout() == old(self).timeout(),
            final(self).known_peers() == old(self).known_peers(),
    {
        self.dandelion.pending_messages.remove_from(&peer);
    }

    /// Takes in what the network tells at the time `now`.
    pub fn handle_event(&mut self, event: NodeEvent, now: u128)
        requires
            old(self).wf(),
        ensures
            final(self).wf(),
            final(self).pending() == pending_after(old(self).pending(), event, now as nat),
            final(self).timeout() == old(self).timeout(),
            final(self).known_peers() == old(self).known_peers(),
    {
        match event {
            NodeEvent::ConnectionClosed(peer) => {
                self.handle_peer_disconnect(peer);
            },
            NodeEvent::Message { propagation_source, message_id, data } => {
                self.dandelion.receive(message_id, data, propagation_source, now);
            },
            NodeEvent::Other => {},
        }
    }

    /// Notes which peers there are.
    pub fn set_all_peers(&mut self, all_peers: Vec<PeerId>)
        ensures
            final(self).known_peers() == peer_bytes(all_peers@),
            final(self).peers@ == all_peers@,
            final(self).dandelion == old(self).dandelion,
    {
        self.peers = all_peers;
    }

    /// The topic to publish on when `topic` was picked among those subscribed to: that topic if it
    /// is one of a known peer, otherwise the common one.
    pub fn matching_topic(&self, topic: &String) -> (matched: String)
        ensures
            matched@ == topic_for(self.known_peers(), topic@),
            (exists|i: int|
                0 <= i < self.peers@.len() && "stem-"@ + crate::peer::base58((#[trigger] self.peers@[i])@)
                    == topic@) ==> matched@ == topic@,
            (forall|i: int|
                0 <= i < self.peers@.len() ==> "stem-"@ + crate::peer::base58((#[trigger] self.peers@[i])@)
                    != topic@) ==> matched@ == "dandelion"@,
    {
        let ghost known = self.known_peers();
        let mut i: usize = 0;
        while i < self.peers.len()
            invariant
                i <= self.peers.len(),
                known == peer_bytes(self.peers@),
                forall|j: int| 0 <= j < i ==> stem_topic_of(#[trigger] known[j]) != topic@,
                forall|j: int|
                    0 <= j < i ==> "stem-"@ + crate::peer::base58((#[trigger] self.peers@[j])@) != topic@,
            decreases self.peers.len() - i,
        {
            assert(known[i as int] == self.peers@[i as int]@);
            let own = self.peers[i].stem_topic();
            if own == *topic {
                return own;
            }
            i += 1;
        }
        String::from_str("dandelion")
    }

    /// The topic to publish on when one of `topics`, those subscribed to, is picked at random.
    pub fn random_topic(&self, topics: &Vec<String>) -> (topic: String)
        requires
            topics@.len() > 0,
        ensures
            exists|i: int|
                0 <= i < topics@.len() && topic@ == topic_for(
                    self.known_peers(),
                    (#[trigger] topics@[i])@,
                ),
    {
        match choose_one(topics) {
            Some(picked) => self.matching_topic(picked),
            None => {
                assert(false);
                String::from_str("dandelion")
            },
        }
    }

    /// What a line comes to. A message that is to be sent goes out on a random topic among
    /// `topics`, those subscribed to.
    pub fn handle_line(&self, line: &str, topics: &Vec<String>) -> (action: LineAction)
        requires
            command_of(line@) is Send ==> topics@.len() > 0,
        ensures
            match command_of(line@) {
                CommandView::AddPeer(address) => action is Connect && action->Connect_0@ == address,
                CommandView::Send(text) => {
                    &&& action is Publish
                    &&& action->Publish_0.data@ == vstd::utf8::encode_utf8(text)
                    &&& exists|i: int|
                        0 <= i < topics@.len() && action->Publish_0.topic@ == topic_for(
                            self.known_peers(),
                            (#[trigger] topics@[i])@,
                        )
                },
                CommandView::Other => action is Nothing,
            },
    {
        match parse_command(line) {
            Command::AddPeer(address) => LineAction::Connect(address),
            Command::Send(text) => {
                let topic = self.random_topic(topics);
                LineAction::Publish(Publish { topic, data: text.as_str().as_bytes_vec() })
            },
            Command::Other => LineAction::Nothing,
        }
    }

    /// Begins an attempt to connect to the peer that an address names.
    pub fn connect(&self, address: &str) -> (attempt: Result<Attempt, AddressError>)
        ensures
            match attempt {
                Ok(a) => {
                    &&& address_peer_of(address@) == Ok::<Seq<u8>, AddressError>(a.peer@)
                    &&& a.progress@ == Stage::Checking
                    &&& a.progress is Checking
                },
                Err(e) => address_peer_of(address@) == Err::<Seq<u8>, AddressError>(e),
            },
    {
        match address_peer(address) {
            Ok(peer) => Ok(Attempt::new(peer)),
            Err(e) => Err(e),
        }
    }

    /// Begins an attempt to connect to the peer that an address names, given its components: for
    /// each that names a peer the bytes of that peer, for each other nothing.
    pub fn connect_to(&self, components: &Vec<Option<Vec<u8>>>) -> (attempt: Result<Attempt, AddressError>)
        requires
            forall|i: int|
                0 <= i < components@.len() && (#[trigger] components@[i]) is Some ==> is_peer_id(
                    components@[i]->0@,
                ),
        ensures
            match attempt {
                Ok(a) => {
                    &&& first_peer(component_views(components@)) == Some(a.peer@)
                    &&& a.progress@ == Stage::Checking
                    &&& a.progress is Checking
                },
                Err(e) => {
                    &&& e == AddressError::NoPeerId
                    &&& first_peer(component_views(components@)) is None
                },
            },
    {
        match find_peer(components) {
            Some(peer) => Ok(Attempt::new(peer)),
            None => Err(AddressError::NoPeerId),
        }
    }

    /// What came of a subscription: that the topic was subscribed to before is no failure.
    pub fn subscribe<E>(&self, outcome: Result<bool, E>) -> (subscribed: Result<bool, E>)
        ensures
            match outcome {
                Ok(_) => subscribed == Ok::<bool, E>(true),
                Err(e) => subscribed == Err::<bool, E>(e),
            },
    {
        match outcome {
            Ok(_) => Ok(true),
            Err(e) => Err(e),
        }
    }

    /// The peer to hang up on when `peer` is to go: itself where it is connected, otherwise none.
    pub fn disconnect(&self, peer: PeerId, connected: bool) -> (hang_up: Option<PeerId>)
        ensures
            hang_up == if connected { Some(peer) } else { None },
    {
        if connected { Some(peer) } else { None }
    }
}

/// What a node keeps is what its fields hold.
pub proof fn nodes_keep_what_they_hold(node: DandelionNode)
    ensures
        node.pending() == node.dandelion.pending_messages@,
        node.timeout() == node.dandelion.stem_timeout,
        node.known_peers().len() == node.peers@.len(),
        forall|i: int| 0 <= i < node.peers@.len() ==> #[trigger] node.known_peers()[i] == node.peers@[i]@,
{
}

/// A message whose identifier no waiting message has is added to those that wait, with all of its
/// contents, the time at which it came and the peer that it came from; nothing else changes.
pub proof fn new_messages_are_taken_in_whole(
    pending: Seq<Pending>,
    source: PeerId,
    id: Vec<u8>,
    data: Vec<u8>,
    now: nat,
)
    requires
        forall|i: int| 0 <= i < pending.len() ==> (#[trigger] pending[i]).0 != id@,
    ensures
        ({
            let event = NodeEvent::Message { propagation_source: source, message_id: id, data };
            let after = pending_after(pending, event, now);
            &&& after.len() == pending.len() + 1
            &&& forall|i: int| 0 <= i < pending.len() ==> #[trigger] after[i] == pending[i]
            &&& after.last().0 == id@
            &&& after.last().1.content == data@
            &&& after.last().1.received_at == now
            &&& after.last().1.source == Some(source@)
            &&& !after.last().1.relayed
        }),
{
}

/// A message whose identifier a waiting message has changes nothing, and neither does anything else
/// that the network tells but the closing of a connection.
pub proof fn seen_messages_are_passed_over(
    pending: Seq<Pending>,
    source: PeerId,
    id: Vec<u8>,
    data: Vec<u8>,
    now: nat,
)
    ensures
        (exists|i: int| 0 <= i < pending.len() && (#[trigger] pending[i]).0 == id@) ==> pending_after(
            pending,
            NodeEvent::Message { propagation_source: source, message_id: id, data },
            now,
        ) == pending,
        pending_after(pending, NodeEvent::Other, now) == pending,
{
}

/// Once the connection to a peer is closed, just those messages wait that waited before and did not
/// come from it, in the order in which they stood.
pub proof fn closed_connections_drop_their_messages(pending: Seq<Pending>, peer: PeerId, now: nat, entry: Pending)
    ensures
        pending_after(pending, NodeEvent::ConnectionClosed(peer), now).contains(entry) <==> pending.contains(entry)
            && entry.1.source != Some(peer@),
        (forall|i: int| 0 <= i < pending.len() ==> (#[trigger] pending[i]).1.source != Some(peer@))
            ==> pending_after(pending, NodeEvent::ConnectionClosed(peer), now) == pending,
{
    crate::laws::disconnect_drops_just_its_messages(pending, peer@, entry);
    if forall|i: int| 0 <= i < pending.len() ==> (#[trigger] pending[i]).1.source != Some(peer@) {
        nothing_of_the_peer_is_dropped(pending, peer@);
    }
}

/// Where no message came from a peer, none is dropped with it.
proof fn nothing_of_the_peer_is_dropped(pending: Seq<Pending>, peer: Seq<u8>)
    requires
        forall|i: int| 0 <= i < pending.len() ==> (#[trigger] pending[i]).1.source != Some(peer),
    ensures
        not_from(pending, peer) == pending,
    decreases pending.len(),
{
    reveal(Seq::filter);
    if pending.len() > 0 {
        let rest = pending.drop_last();
        assert forall|i: int| 0 <= i < rest.len() implies (#[trigger] rest[i]).1.source != Some(peer) by {
            assert(rest[i] == pending[i]);
        }
        nothing_of_the_peer_is_dropped(rest, peer);
        assert(pending[pending.len() - 1].1.source != Some(peer));
        assert(rest.push(pending.last()) =~= pending);
    }
}

/// A picked topic is used if it is that of a peer; otherwise the common one is.
pub proof fn topics_are_those_of_peers(peers: Seq<Seq<u8>>, topic: Seq<char>)
    ensures
        (exists|i: int| 0 <= i < peers.len() && "stem-"@ + crate::peer::base58(#[trigger] peers[i]) == topic)
            ==> topic_for(peers, topic) == topic,
        (forall|i: int| 0 <= i < peers.len() ==> "stem-"@ + crate::peer::base58(#[trigger] peers[i]) != topic)
            ==> topic_for(peers, topic) == "dandelion"@,
{
    if exists|i: int| 0 <= i < peers.len() && "stem-"@ + crate::peer::base58(#[trigger] peers[i]) == topic {
        let i = choose|i: int|
            0 <= i < peers.len() && "stem-"@ + crate::peer::base58(#[trigger] peers[i]) == topic;
        assert(stem_topic_of(peers[i]) == topic);
    }
}

/// Messages are refused for their sources exactly if there is a peer and no identifier is read from
/// the source of one of them; for want of peers exactly if, besides, they go along the stem and no
/// listed peer is other than the source of one of them. Otherwise the queue entries are written.
pub proof fn handing_on_is_refused_only_for_cause(
    stored: Seq<u8>,
    fluff: bool,
    peers: Seq<Seq<u8>>,
    picks: Seq<Seq<Seq<u8>>>,
    numbers: Seq<u64>,
)
    ensures
        ({
            let records = stored_pending(stored);
            let outcome = transition_outcome(stored, fluff, peers, picks, numbers);
            let unread = peers.len() > 0 && exists|i: int|
                0 <= i < records.len() && canonical_peer((#[trigger] records[i]).source) is None;
            let lone = exists|i: int| 0 <= i < records.len() && !has_another_peer(#[trigger] records[i], peers);
            &&& outcome == Err::<(StoreKey, Seq<u8>), PropagationError>(PropagationError::InvalidSource)
                <==> unread
            &&& outcome == Err::<(StoreKey, Seq<u8>), PropagationError>(PropagationError::NoAvailablePeer)
                <==> !unread && !fluff && lone
            &&& outcome is Ok ==> outcome->Ok_0.0 == StoreKey::Validate && outcome->Ok_0.1 == queue_encoding(
                handed_on(records, picks, numbers, fluff),
            )
        }),
{
    crate::propagation::refusals_are_for_sources_and_lone_peers(stored_pending(stored), peers);
}

} // verus!
