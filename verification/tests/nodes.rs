//! A node and the messages that pass through it.
use libp2p_dandelion::address::AddressError;
use libp2p_dandelion::connect::ConnectAction;
use libp2p_dandelion::dandelion::{keep_last_of_each_id, read_pending, Dandelion};
use libp2p_dandelion::message::{
    FluffTransitionMessage, MessageCache, PendingMessage, PendingMessageCache,
};
use libp2p_dandelion::node::{DandelionNode, LineAction, NodeEvent, StoreKey};
use libp2p_dandelion::pending::PendingMessages;
use libp2p_dandelion::propagation::{
    check_peers, check_sources, draw_numbers, fluff_message, fluff_queue, stem_message, stem_queue,
    PropagationError,
};
use libp2p_dandelion::selection::available_peers;
use libp2p_dandelion::validation::{queue_reports, read_queue};
use libp2p_dandelion::PeerId;
use std::collections::{HashMap, HashSet};

type PendingRow = (Vec<u8>, (Vec<u8>, Vec<u8>, Vec<u8>, bool));
type QueueRow = (Vec<Vec<u8>>, Vec<u8>, (Option<usize>, Vec<u8>, f64), bool);

fn bytes_of(key: u8) -> Vec<u8> {
    vec![0, 1, key]
}

fn peer(key: u8) -> PeerId {
    PeerId::from_bytes(&bytes_of(key)).unwrap()
}

fn peers(keys: std::ops::Range<u8>) -> Vec<PeerId> {
    keys.map(peer).collect()
}

fn message(source: u8, id: &[u8], data: &[u8]) -> NodeEvent {
    NodeEvent::Message {
        propagation_source: peer(source),
        message_id: id.to_vec(),
        data: data.to_vec(),
    }
}

fn record(id: &[u8], content: &[u8], source: Vec<u8>) -> PendingMessageCache {
    PendingMessageCache {
        msg_id: id.to_vec(),
        content: content.to_vec(),
        received_at: vec![0; 8],
        source,
        relayed: false,
    }
}

fn encode_pending(rows: &Vec<PendingRow>) -> Vec<u8> {
    bincode::encode_to_vec(rows, bincode::config::standard()).unwrap()
}

fn encode_queue(rows: &Vec<QueueRow>) -> Vec<u8> {
    bincode::encode_to_vec(rows, bincode::config::standard()).unwrap()
}

fn row(id: &[u8], content: &[u8], source: Vec<u8>) -> PendingRow {
    (id.to_vec(), (content.to_vec(), vec![0; 8], source, false))
}

#[test]
fn a_new_node_is_empty() {
    let node = DandelionNode::new(30);
    assert_eq!(node.dandelion.stem_timeout, 30);
    assert_eq!(node.dandelion.pending_messages.len(), 0);
    assert!(node.peers.is_empty());
}

#[test]
fn a_message_waits_as_it_came() {
    let mut node = DandelionNode::new(30);
    node.handle_event(message(1, b"id", b"hello"), 17);
    let waiting = node.dandelion.pending_messages.get(&b"id".to_vec()).unwrap();
    assert_eq!(waiting.content, b"hello");
    assert_eq!(waiting.received_at, 17);
    assert_eq!(waiting.source.as_ref().unwrap().to_bytes(), bytes_of(1));
    assert!(!waiting.relayed);
    assert!(node.dandelion.pending_messages.get(&b"other".to_vec()).is_none());
}

#[test]
fn a_message_seen_before_changes_nothing() {
    let mut node = DandelionNode::new(30);
    node.handle_event(message(1, b"id", b"first"), 1);
    node.handle_event(message(2, b"id", b"second"), 2);
    assert_eq!(node.dandelion.pending_messages.len(), 1);
    let (id, waiting) = node.dandelion.pending_messages.at(0);
    assert_eq!((id.as_slice(), waiting.content.as_slice()), (&b"id"[..], &b"first"[..]));
}

#[test]
fn other_events_change_nothing() {
    let mut node = DandelionNode::new(30);
    node.handle_event(message(1, b"id", b"first"), 1);
    node.handle_event(NodeEvent::Other, 2);
    assert_eq!(node.dandelion.pending_messages.len(), 1);
}

#[test]
fn a_waiting_message_stays_until_its_source_is_gone() {
    let mut node = DandelionNode::new(30);
    node.handle_event(message(1, b"id", b"first"), 1);
    let later = vec![
        message(2, b"id", b"second"),
        message(2, b"other", b"third"),
        NodeEvent::ConnectionClosed(peer(2)),
        NodeEvent::Other,
    ];
    for event in later {
        node.handle_event(event, 5);
        let waiting = node.dandelion.pending_messages.get(&b"id".to_vec()).unwrap();
        assert_eq!(waiting.content, b"first");
        assert_eq!(waiting.received_at, 1);
        assert_eq!(waiting.source.as_ref().unwrap().to_bytes(), bytes_of(1));
    }
    node.handle_event(NodeEvent::ConnectionClosed(peer(1)), 6);
    assert_eq!(node.dandelion.pending_messages.len(), 0);
}

#[test]
fn a_gone_peer_takes_its_messages_along() {
    let mut node = DandelionNode::new(30);
    for (source, id) in [(1u8, b"a"), (2, b"b"), (1, b"c"), (3, b"d"), (1, b"e")] {
        node.handle_event(message(source, id, b""), 0);
    }
    node.handle_event(NodeEvent::ConnectionClosed(peer(1)), 1);
    let left = &node.dandelion.pending_messages;
    assert_eq!(left.len(), 2);
    assert_eq!((left.at(0).0.as_slice(), left.at(1).0.as_slice()), (&b"b"[..], &b"d"[..]));
    assert!(left.contains_key(&b"b".to_vec()) && !left.contains_key(&b"a".to_vec()));
    node.handle_peer_disconnect(peer(9));
    assert_eq!(node.dandelion.pending_messages.len(), 2);
    node.handle_peer_disconnect(peer(2));
    assert_eq!(node.dandelion.pending_messages.len(), 1);
}

#[test]
fn messages_without_a_source_outlive_every_peer() {
    let mut pending = PendingMessages::new();
    let message = PendingMessage { content: vec![], received_at: 0, source: None, relayed: true };
    pending.insert_new(b"id".to_vec(), message.clone());
    pending.remove_from(&peer(1));
    assert!(pending.clone().contains_key(&b"id".to_vec()));
}

#[test]
fn due_messages_are_written_in_the_store_format() {
    let mut node = DandelionNode::new(10);
    node.handle_event(message(9, b"7", b"hi"), 258);
    let write = node.process_pending_messages(268);
    assert_eq!(write.key, StoreKey::PendingFluff);
    let expected: Vec<u8> =
        [&[1u8, 1, b'7', 2, b'h', b'i', 8][..], &[0, 0, 0, 0, 0, 0, 1, 2], &[3, 0, 1, 9], &[0]].concat();
    assert_eq!(write.value, expected);
    let mut map: HashMap<Vec<u8>, (Vec<u8>, Vec<u8>, Vec<u8>, bool)> = HashMap::new();
    map.insert(b"7".to_vec(), (b"hi".to_vec(), vec![0, 0, 0, 0, 0, 0, 1, 2], bytes_of(9), false));
    assert_eq!(write.value, bincode::encode_to_vec(&map, bincode::config::standard()).unwrap());
}

#[test]
fn only_due_messages_are_written() {
    let mut node = DandelionNode::new(10);
    node.handle_event(message(1, b"a", b"A"), 0);
    node.handle_event(message(2, b"b", b"B"), 5);
    node.handle_event(message(3, b"c", b"C"), 100);
    let ids = |now: u128| -> Vec<Vec<u8>> {
        let records = read_pending(&node.process_pending_messages(now).value);
        records.into_iter().map(|record| record.msg_id).collect()
    };
    assert_eq!(ids(9), Vec::<Vec<u8>>::new());
    assert_eq!(ids(10), vec![b"a".to_vec()]);
    assert_eq!(ids(14), vec![b"a".to_vec()]);
    assert_eq!(ids(15), vec![b"a".to_vec(), b"b".to_vec()]);
    assert_eq!(ids(110), vec![b"a".to_vec(), b"b".to_vec(), b"c".to_vec()]);
    assert_eq!(node.process_pending_messages(0).value, vec![0]);
}

#[test]
fn without_a_timeout_everything_is_due() {
    let mut dandelion = Dandelion::new(0);
    dandelion.receive(b"a".to_vec(), vec![], peer(1), 50);
    assert_eq!(dandelion.clone().due(3).len(), 1);
}

#[test]
fn sources_of_due_messages_are_looked_for() {
    let mut dandelion = Dandelion::new(10);
    let message = PendingMessage { content: vec![], received_at: 0, source: None, relayed: false };
    dandelion.pending_messages.insert_new(b"a".to_vec(), message);
    assert!(dandelion.sources_known(9));
    assert!(!dandelion.sources_known(10));
}

#[test]
fn written_messages_read_back() {
    let mut node = DandelionNode::new(0);
    node.handle_event(message(1, b"a", b"A"), 3);
    node.handle_event(message(2, b"", b""), 4);
    let records = read_pending(&node.process_pending_messages(5).value);
    assert_eq!(records.len(), 2);
    assert_eq!(records[0].msg_id, b"a");
    assert_eq!(records[0].content, b"A");
    assert_eq!(records[0].received_at, vec![0, 0, 0, 0, 0, 0, 0, 3]);
    assert_eq!(records[0].source, bytes_of(1));
    assert!(!records[0].relayed);
    assert_eq!(records[1].msg_id, b"");
    assert_eq!(records[1].source, bytes_of(2));
}

#[test]
fn unreadable_bytes_hold_nothing() {
    assert!(read_pending(&[]).is_empty());
    assert!(read_pending(&[1]).is_empty());
    assert!(read_pending(&[255; 40]).is_empty());
    assert!(read_pending(&[253, 255, 255, 255, 255, 255, 255, 255, 255]).is_empty());
    assert!(read_queue(&[]).is_empty());
    assert!(read_queue(&[3, 1, 2]).is_empty());
    assert!(read_queue(&[253, 255, 255, 255, 255, 255, 255, 255, 255]).is_empty());
}

#[test]
fn bytes_after_the_records_are_not_looked_at() {
    let mut stored = encode_pending(&vec![row(b"a", b"A", bytes_of(1))]);
    stored.extend([9, 9, 9]);
    assert_eq!(read_pending(&stored).len(), 1);
}

#[test]
fn the_later_of_two_records_counts() {
    let rows = vec![
        row(b"a", b"old", bytes_of(1)),
        row(b"b", b"B", bytes_of(2)),
        row(b"a", b"new", bytes_of(3)),
    ];
    let records = read_pending(&encode_pending(&rows));
    assert_eq!(records.len(), 2);
    assert_eq!((records[0].msg_id.as_slice(), records[0].content.as_slice()), (&b"b"[..], &b"B"[..]));
    assert_eq!((records[1].msg_id.as_slice(), records[1].content.as_slice()), (&b"a"[..], &b"new"[..]));
    let map: HashMap<Vec<u8>, (Vec<u8>, Vec<u8>, Vec<u8>, bool)> =
        bincode::decode_from_slice(&encode_pending(&rows), bincode::config::standard()).unwrap().0;
    assert_eq!(map[&b"a".to_vec()].0, b"new");
    assert!(keep_last_of_each_id(&vec![]).is_empty());
}

#[test]
fn the_source_is_not_available() {
    let all = peers(0..5);
    let found = available_peers(&all, &bytes_of(2));
    let keys: Vec<u8> = found.iter().map(|peer| peer.to_bytes()[2]).collect();
    assert_eq!(keys, vec![0, 1, 3, 4]);
    assert_eq!(available_peers(&all, &bytes_of(9)).len(), 5);
    assert!(available_peers(&vec![peer(1)], &bytes_of(1)).is_empty());
    assert!(available_peers(&vec![], &b"nobody".to_vec()).is_empty());
}

/// Bytes from which the same peer is read as from `bytes_of(key)`.
fn long_bytes_of(key: u8) -> Vec<u8> {
    vec![0x80, 0x80, 0x80, 0x80, 0x80, 0x80, 0x80, 0x80, 0x80, 2, 1, key]
}

#[test]
fn a_source_in_a_long_form_is_still_the_source() {
    let found = available_peers(&peers(0..3), &long_bytes_of(1));
    let keys: Vec<u8> = found.iter().map(|peer| peer.to_bytes()[2]).collect();
    assert_eq!(keys, vec![0, 2]);
    let node = DandelionNode::new(0);
    let stored = encode_pending(&vec![row(b"a", b"A", long_bytes_of(1))]);
    for fluff in [true, false] {
        let write = node.transition_to_fluff(&stored, fluff, &peers(0..2), |_| 3).ok().unwrap();
        let entries = read_queue(&write.value);
        assert_eq!(entries.len(), 1);
        assert_eq!(entries[0].peers, vec![bytes_of(0)]);
        assert_eq!(entries[0].is_fluff, fluff);
    }
    let refused = node.extend_stem_phase(&stored, &peers(1..2), |_| 3).err();
    assert_eq!(refused, Some(PropagationError::NoAvailablePeer));
}

#[test]
fn a_queued_peer_in_a_long_form_is_reported() {
    let stored =
        encode_queue(&vec![(vec![long_bytes_of(1)], b"a".to_vec(), (None, b"A".to_vec(), 0.0), true)]);
    let mut reports = DandelionNode::new(0).validate_message(&stored).unwrap();
    assert_eq!(reports.len(), 1);
    assert_eq!(reports[0].peer.to_bytes(), bytes_of(1));
    let publish = reports.remove(0).outcome(true).unwrap();
    assert_eq!(publish.topic, peer(1).stem_topic());
}

#[test]
fn a_length_that_is_not_borne_out_makes_bytes_unreadable() {
    let mut stored = encode_pending(&vec![row(b"a", b"A", bytes_of(1))]);
    assert_eq!(read_pending(&stored).len(), 1);
    stored[0] = 2;
    assert!(read_pending(&stored).is_empty());
}

#[test]
fn fluff_goes_to_the_first_of_a_shuffled_list() {
    let entry = fluff_message(&record(b"a", b"A", bytes_of(99)), &peers(0..10), 7);
    assert_eq!(entry.peers, vec![bytes_of(0), bytes_of(1), bytes_of(2), bytes_of(3)]);
    assert_eq!(entry.msg_id, b"a");
    assert_eq!(entry.fluff_msg.source, None);
    assert_eq!(entry.fluff_msg.data, b"A");
    assert_eq!(entry.fluff_msg.sequence_number, 7);
    assert!(entry.is_fluff);
}

#[test]
fn stem_goes_to_one_peer() {
    let entry = stem_message(&record(b"a", b"A", bytes_of(99)), &peer(4), 8);
    assert_eq!(entry.peers, vec![bytes_of(4)]);
    assert_eq!(entry.msg_id, b"a");
    assert_eq!(entry.fluff_msg.source, None);
    assert_eq!(entry.fluff_msg.data, b"A");
    assert_eq!(entry.fluff_msg.sequence_number, 8);
    assert!(!entry.is_fluff);
}

#[test]
fn fluff_peers_are_picked_at_random_and_never_the_source() {
    let records = vec![record(b"a", b"A", bytes_of(3))];
    let all = peers(0..11);
    let mut seen = HashSet::new();
    for _ in 0..200 {
        let entry = &fluff_queue(&records, &all, &vec![1])[0];
        assert_eq!(entry.peers.len(), 4);
        let distinct: HashSet<Vec<u8>> = entry.peers.iter().cloned().collect();
        assert_eq!(distinct.len(), 4);
        assert!(!distinct.contains(&bytes_of(3)));
        assert!(entry.peers.iter().all(|bytes| bytes[2] < 11));
        seen.extend(distinct);
    }
    assert_eq!(seen.len(), 10);
}

#[test]
fn the_next_stem_peer_is_picked_at_random_and_never_the_source() {
    let records = vec![record(b"a", b"A", bytes_of(3))];
    let all = peers(0..5);
    let mut seen = HashSet::new();
    for _ in 0..200 {
        let entry = &stem_queue(&records, &all, &vec![1])[0];
        assert_eq!(entry.peers.len(), 1);
        assert_ne!(entry.peers[0], bytes_of(3));
        seen.insert(entry.peers[0].clone());
    }
    assert_eq!(seen.len(), 4);
}

#[test]
fn each_message_gets_its_own_number() {
    assert_eq!(draw_numbers(|position| 10 + position as u64, 3), vec![10, 11, 12]);
    assert!(draw_numbers(|_| 1, 0).is_empty());
    let records = vec![record(b"a", b"A", bytes_of(9)), record(b"b", b"B", bytes_of(9))];
    let all = peers(0..4);
    for entries in [fluff_queue(&records, &all, &vec![5, 6]), stem_queue(&records, &all, &vec![5, 6])] {
        let found: Vec<(&[u8], u64)> =
            entries.iter().map(|e| (e.msg_id.as_slice(), e.fluff_msg.sequence_number)).collect();
        assert_eq!(found, vec![(&b"a"[..], 5), (&b"b"[..], 6)]);
    }
    let stored = encode_pending(&vec![row(b"a", b"A", bytes_of(9)), row(b"b", b"B", bytes_of(9))]);
    for fluff in [true, false] {
        let draw = |position: usize| 7 + position as u64;
        let write = DandelionNode::new(0).transition_to_fluff(&stored, fluff, &all, draw).ok().unwrap();
        let numbers: Vec<u64> =
            read_queue(&write.value).iter().map(|e| e.fluff_msg.sequence_number).collect();
        assert_eq!(numbers, vec![7, 8]);
    }
}

#[test]
fn without_fluff_the_same_is_written_as_by_extending_the_stem() {
    let node = DandelionNode::new(0);
    let good = encode_pending(&vec![row(b"a", b"A", bytes_of(0)), row(b"b", b"B", bytes_of(1))]);
    let bad = encode_pending(&vec![row(b"a", b"A", b"nobody".to_vec())]);
    let draw = |position: usize| 3 + position as u64;
    for stored in [&good, &bad, &vec![]] {
        for all in [peers(0..2), peers(0..1), vec![]] {
            let turned = node.transition_to_fluff(stored, false, &all, draw).map(|w| (w.key, w.value));
            let extended = node.extend_stem_phase(stored, &all, draw).map(|w| (w.key, w.value));
            assert_eq!(turned, extended);
        }
    }
}

#[test]
fn stored_records_have_distinct_identifiers() {
    let ids: [&[u8]; 7] = [b"a", b"b", b"a", b"c", b"b", b"a", b""];
    let rows: Vec<PendingRow> =
        ids.iter().enumerate().map(|(i, id)| row(id, &[i as u8], bytes_of(1))).collect();
    let records = read_pending(&encode_pending(&rows));
    let found: Vec<(&[u8], u8)> = records.iter().map(|r| (r.msg_id.as_slice(), r.content[0])).collect();
    assert_eq!(found, vec![(&b"c"[..], 3), (&b"b"[..], 4), (&b"a"[..], 5), (&b""[..], 6)]);
}

#[test]
fn sources_and_peers_are_checked() {
    let good = vec![record(b"a", b"A", bytes_of(1))];
    let bad = vec![record(b"a", b"A", bytes_of(1)), record(b"b", b"B", b"nobody".to_vec())];
    assert!(check_sources(&good, &peers(1..3)));
    assert!(!check_sources(&bad, &peers(1..3)));
    assert!(check_sources(&bad, &vec![]));
    assert!(check_peers(&good, &peers(1..3)));
    assert!(!check_peers(&good, &peers(1..2)));
    assert!(!check_peers(&good, &vec![]));
    assert!(check_peers(&vec![], &vec![]));
}

#[test]
fn fluff_transition_writes_the_queue() {
    let node = DandelionNode::new(0);
    let stored = encode_pending(&vec![row(b"a", b"A", bytes_of(1)), row(b"b", b"B", bytes_of(0))]);
    let write = node.transition_to_fluff(&stored, true, &peers(0..2), |_| 0.25f64.to_bits()).ok().unwrap();
    assert_eq!(write.key, StoreKey::Validate);
    let expected = vec![
        (vec![bytes_of(0)], b"a".to_vec(), (None, b"A".to_vec(), 0.25), true),
        (vec![bytes_of(1)], b"b".to_vec(), (None, b"B".to_vec(), 0.25), true),
    ];
    assert_eq!(write.value, encode_queue(&expected));
}

#[test]
fn queue_is_written_in_the_store_format() {
    let node = DandelionNode::new(0);
    let stored = encode_pending(&vec![row(b"a", b"AB", bytes_of(9))]);
    let write = node.transition_to_fluff(&stored, true, &peers(3..4), |_| 0x3fd0_0000_0000_0000).ok().unwrap();
    let expected: Vec<u8> =
        [&[1u8, 1, 3, 0, 1, 3][..], &[1, b'a'], &[0, 2, b'A', b'B'], &[0, 0, 0, 0, 0, 0, 0xd0, 0x3f], &[1]]
            .concat();
    assert_eq!(write.value, expected);
}

#[test]
fn stem_extension_writes_the_queue() {
    let node = DandelionNode::new(0);
    let stored = encode_pending(&vec![row(b"a", b"A", bytes_of(1))]);
    let expected = encode_queue(&vec![(vec![bytes_of(0)], b"a".to_vec(), (None, b"A".to_vec(), 0.5), false)]);
    let draw = |_: usize| 0.5f64.to_bits();
    let write = node.transition_to_fluff(&stored, false, &peers(0..2), draw).ok().unwrap();
    assert_eq!((write.key, &write.value), (StoreKey::Validate, &expected));
    let write = node.extend_stem_phase(&stored, &peers(0..2), draw).ok().unwrap();
    assert_eq!((write.key, &write.value), (StoreKey::Validate, &expected));
}

#[test]
fn nothing_stored_gives_an_empty_queue() {
    let node = DandelionNode::new(0);
    for fluff in [true, false] {
        let write = node.transition_to_fluff(&[], fluff, &vec![], |_| 0).ok().unwrap();
        assert_eq!(write.value, vec![0]);
    }
}

#[test]
fn fluff_without_peers_goes_to_nobody() {
    let node = DandelionNode::new(0);
    let stored = encode_pending(&vec![row(b"a", b"A", b"nobody".to_vec())]);
    let write = node.transition_to_fluff(&stored, true, &vec![], |_| 0).ok().unwrap();
    let entries = read_queue(&write.value);
    assert_eq!(entries.len(), 1);
    assert!(entries[0].peers.is_empty());
}

#[test]
fn a_source_that_is_no_peer_is_refused() {
    let node = DandelionNode::new(0);
    let stored = encode_pending(&vec![row(b"a", b"A", b"nobody".to_vec())]);
    for fluff in [true, false] {
        let refused = node.transition_to_fluff(&stored, fluff, &peers(0..3), |_| 0).err();
        assert_eq!(refused, Some(PropagationError::InvalidSource));
    }
    let refused = node.extend_stem_phase(&stored, &peers(0..3), |_| 0).err();
    assert_eq!(refused, Some(PropagationError::InvalidSource));
}

#[test]
fn a_stem_needs_another_peer() {
    let node = DandelionNode::new(0);
    let stored = encode_pending(&vec![row(b"a", b"A", bytes_of(1))]);
    for all in [vec![], peers(1..2)] {
        let refused = node.transition_to_fluff(&stored, false, &all, |_| 0).err();
        assert_eq!(refused, Some(PropagationError::NoAvailablePeer));
        let refused = node.extend_stem_phase(&stored, &all, |_| 0).err();
        assert_eq!(refused, Some(PropagationError::NoAvailablePeer));
    }
}

#[test]
fn queued_messages_are_reported_for_each_peer() {
    let stored = encode_queue(&vec![
        (vec![bytes_of(1), bytes_of(2)], b"a".to_vec(), (None, b"A".to_vec(), 0.0), true),
        (vec![], b"b".to_vec(), (Some(4), b"B".to_vec(), 0.0), true),
        (vec![bytes_of(3)], b"c".to_vec(), (None, b"C".to_vec(), 0.0), false),
    ]);
    let reports = DandelionNode::new(0).validate_message(&stored).unwrap();
    let found: Vec<(Vec<u8>, Vec<u8>, Vec<u8>)> =
        reports.into_iter().map(|r| (r.msg_id, r.peer.to_bytes(), r.data)).collect();
    assert_eq!(
        found,
        vec![
            (b"a".to_vec(), bytes_of(1), b"A".to_vec()),
            (b"a".to_vec(), bytes_of(2), b"A".to_vec()),
            (b"c".to_vec(), bytes_of(3), b"C".to_vec()),
        ]
    );
}

#[test]
fn a_queue_reads_back_with_all_its_fields() {
    let stored = encode_queue(&vec![(vec![bytes_of(1)], b"a".to_vec(), (Some(4), b"A".to_vec(), -1.5), false)]);
    let entries = read_queue(&stored);
    assert_eq!(entries.len(), 1);
    assert_eq!(entries[0].fluff_msg.source, Some(4));
    assert_eq!(entries[0].fluff_msg.sequence_number, (-1.5f64).to_bits());
    assert!(!entries[0].is_fluff);
}

#[test]
fn a_queued_peer_that_is_no_peer_is_refused() {
    let entry = MessageCache {
        peers: vec![bytes_of(1), b"nobody".to_vec()],
        msg_id: vec![],
        fluff_msg: FluffTransitionMessage::default(),
        is_fluff: true,
    };
    assert!(queue_reports(&vec![entry]).is_none());
    assert!(queue_reports(&vec![]).unwrap().is_empty());
    assert!(DandelionNode::new(0).validate_message(&[]).unwrap().is_empty());
}

#[test]
fn accepted_reports_are_published_to_the_peer() {
    let stored =
        encode_queue(&vec![(vec![bytes_of(1), bytes_of(2)], b"a".to_vec(), (None, b"A".to_vec(), 0.0), true)]);
    let mut reports = DandelionNode::new(0).validate_message(&stored).unwrap();
    assert!(reports.remove(0).outcome(false).is_none());
    let publish = reports.remove(0).outcome(true).unwrap();
    assert_eq!(publish.topic, peer(2).stem_topic());
    assert_eq!(publish.data, b"A");
}

#[test]
fn a_round_through_the_store_never_returns_to_the_source() {
    for fluff in [true, false] {
        let mut node = DandelionNode::new(10);
        for source in 0..6u8 {
            node.handle_event(message(source, &[source], &[source, source]), source as u128);
        }
        let first = node.process_pending_messages(13);
        let second = node.transition_to_fluff(&first.value, fluff, &peers(0..12), |_| 3).ok().unwrap();
        let reports = node.validate_message(&second.value).unwrap();
        assert_eq!(reports.len(), if fluff { 16 } else { 4 });
        let mut ids = HashSet::new();
        for report in reports {
            let source = report.msg_id[0];
            assert!(source < 4);
            assert_eq!(report.data, vec![source, source]);
            assert_ne!(report.peer.to_bytes(), bytes_of(source));
            ids.insert(source);
        }
        assert_eq!(ids.len(), 4);
    }
}

#[test]
fn the_topic_of_a_known_peer_is_used() {
    let mut node = DandelionNode::new(0);
    let topic = peer(1).stem_topic();
    assert_eq!(node.matching_topic(&topic), "dandelion");
    node.set_all_peers(peers(0..3));
    assert_eq!(node.matching_topic(&topic), topic);
    assert_eq!(node.matching_topic(&peer(5).stem_topic()), "dandelion");
    assert_eq!(node.random_topic(&vec![topic.clone()]), topic);
    assert_eq!(node.random_topic(&vec!["elsewhere".to_string()]), "dandelion");
}

#[test]
fn random_topics_vary() {
    let mut node = DandelionNode::new(0);
    node.set_all_peers(peers(0..2));
    let topics = vec![peer(0).stem_topic(), peer(1).stem_topic(), "elsewhere".to_string()];
    let seen: HashSet<String> = (0..200).map(|_| node.random_topic(&topics)).collect();
    let expected: HashSet<String> =
        [topics[0].clone(), topics[1].clone(), "dandelion".to_string()].into_iter().collect();
    assert_eq!(seen, expected);
}

#[test]
fn lines_come_to_actions() {
    let mut node = DandelionNode::new(0);
    node.set_all_peers(peers(0..1));
    let topics = vec![peer(0).stem_topic()];
    match node.handle_line("send h\u{e9}", &topics) {
        LineAction::Publish(publish) => {
            assert_eq!(publish.topic, topics[0]);
            assert_eq!(publish.data, vec![b'h', 0xc3, 0xa9]);
        }
        _ => panic!("the line sends a message"),
    }
    match node.handle_line("add peer /ip4/1.2.3.4", &vec![]) {
        LineAction::Connect(address) => assert_eq!(address, "/ip4/1.2.3.4"),
        _ => panic!("the line adds a peer"),
    }
    assert!(matches!(node.handle_line("hello", &vec![]), LineAction::Nothing));
}

#[test]
fn connecting_begins_with_the_peer_of_the_address() {
    let node = DandelionNode::new(0);
    let address = format!("/ip4/1.2.3.4/tcp/5/p2p/{}", libp2p::PeerId::from_bytes(&bytes_of(7)).unwrap());
    let attempt = node.connect(&address).ok().unwrap();
    assert_eq!(attempt.peer.to_bytes(), bytes_of(7));
    assert!(matches!(attempt.action(), ConnectAction::AskConnected));
    assert_eq!(node.connect("/ip4/1.2.3.4/tcp/5").err(), Some(AddressError::NoPeerId));
    assert_eq!(node.connect("x").err(), Some(AddressError::Malformed));
    let attempt = node.connect_to(&vec![None, Some(bytes_of(7)), Some(bytes_of(8))]).ok().unwrap();
    assert_eq!(attempt.peer.to_bytes(), bytes_of(7));
    assert_eq!(node.connect_to(&vec![None]).err(), Some(AddressError::NoPeerId));
}

#[test]
fn subscriptions_count_even_where_they_stood_before() {
    let node = DandelionNode::new(0);
    assert_eq!(node.subscribe::<String>(Ok(true)), Ok(true));
    assert_eq!(node.subscribe::<String>(Ok(false)), Ok(true));
    assert_eq!(node.subscribe(Err("not allowed".to_string())), Err("not allowed".to_string()));
}

#[test]
fn only_connected_peers_are_hung_up_on() {
    let node = DandelionNode::new(0);
    assert_eq!(node.disconnect(peer(4), true).unwrap().to_bytes(), bytes_of(4));
    assert!(node.disconnect(peer(4), false).is_none());
}
