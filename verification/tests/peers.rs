//! Peer identifiers, addresses and topics.
use libp2p_dandelion::address::{address_peer, find_peer, AddressError};
use libp2p_dandelion::peer::same_optional_peer;
use libp2p_dandelion::PeerId;

const FIRST: &str = "QmYyQSo1c1Ym7orWxLYvCrM2EmxFTANf8wXmmE7DWjhx5N";
const SECOND: &str = "12D3KooWEyoppNCUx8Yx66oV9fJnriXwCcXwDDUA2kj6vnc6iDEp";

fn bytes_of(text: &str) -> Vec<u8> {
    text.parse::<libp2p::PeerId>().unwrap().to_bytes()
}

fn peer(text: &str) -> PeerId {
    PeerId::from_bytes(&bytes_of(text)).unwrap()
}

fn identifier(code: u8, declared: u8, length: usize) -> Vec<u8> {
    let mut bytes = vec![code, declared];
    bytes.resize(2 + length, 5);
    bytes
}

#[test]
fn peer_keeps_its_bytes() {
    assert_eq!(peer(FIRST).to_bytes(), bytes_of(FIRST));
    assert_eq!(peer(SECOND).to_bytes(), bytes_of(SECOND));
}

/// A number below 128 in ten bytes: the last one holds a bit that falls off the end.
fn long_form(number: u8) -> Vec<u8> {
    let mut bytes = vec![0x80 | number];
    bytes.extend([0x80; 8]);
    bytes.push(2);
    bytes
}

#[test]
fn short_byte_forms_are_read_as_they_stand() {
    let mut accepted = 0;
    for code in [0u8, 1, 0x11, 0x12, 0x13, 0x80] {
        for declared in [0u8, 1, 41, 42, 43, 63, 64, 65, 127, 128, 255] {
            for length in [0usize, 1, 41, 42, 43, 63, 64, 65, 127, 128, 255] {
                let form = identifier(code, declared, length);
                let limit = match code {
                    0 => Some(42),
                    0x12 => Some(64),
                    _ => None,
                };
                let expected = match limit {
                    Some(limit) if declared <= limit && length == declared as usize => Some(form.clone()),
                    _ => None,
                };
                accepted += expected.is_some() as usize;
                assert_eq!(PeerId::from_bytes(&form).map(|peer| peer.to_bytes()), expected, "{form:?}");
            }
        }
    }
    assert_eq!(accepted, 11);
}

#[test]
fn long_byte_forms_are_read_as_short_ones() {
    let digest = [7u8; 32];
    let cases = [
        ([long_form(0x12), vec![0]].concat(), vec![0x12, 0]),
        ([long_form(0), vec![0]].concat(), vec![0, 0]),
        ([vec![0x12], long_form(0)].concat(), vec![0x12, 0]),
        ([long_form(0x12), long_form(0)].concat(), vec![0x12, 0]),
        ([long_form(0x12), vec![32], digest.to_vec()].concat(), [&[0x12, 32][..], &digest].concat()),
        ([vec![0x12], long_form(32), digest.to_vec()].concat(), [&[0x12, 32][..], &digest].concat()),
        ([long_form(0), long_form(1), vec![9]].concat(), vec![0, 1, 9]),
    ];
    for (form, written) in cases {
        let peer = PeerId::from_bytes(&form).unwrap();
        assert_eq!(peer.to_bytes(), written, "{form:?}");
        let short = PeerId::from_bytes(&written).unwrap();
        assert!(peer.same(&short));
        assert_eq!(peer.stem_topic(), short.stem_topic());
    }
}

#[test]
fn other_byte_forms_are_not_read() {
    let mut eleven = vec![0x92];
    eleven.extend([0x80; 9]);
    eleven.extend([2, 0]);
    let forms = [
        vec![],
        vec![0],
        vec![0x12],
        vec![0x12, 0x80],
        vec![0x80, 0, 0],
        vec![0x92, 0, 0],
        eleven,
        [long_form(0x13), vec![0]].concat(),
        [long_form(0), vec![43], vec![5; 43]].concat(),
        [long_form(0x12), vec![1]].concat(),
        [long_form(0x12), vec![0, 0]].concat(),
    ];
    for form in forms {
        assert!(PeerId::from_bytes(&form).is_none(), "{form:?}");
    }
}

#[test]
fn limits_of_byte_forms() {
    assert!(PeerId::from_bytes(&identifier(0, 42, 42)).is_some());
    assert!(PeerId::from_bytes(&identifier(0, 43, 43)).is_none());
    assert!(PeerId::from_bytes(&identifier(0x12, 64, 64)).is_some());
    assert!(PeerId::from_bytes(&identifier(0x12, 65, 65)).is_none());
    assert!(PeerId::from_bytes(&identifier(0x12, 32, 31)).is_none());
    assert!(PeerId::from_bytes(&identifier(0x12, 32, 33)).is_none());
    assert!(PeerId::from_bytes(&[]).is_none());
}

#[test]
fn stem_topic_is_the_displayed_peer() {
    assert_eq!(peer(FIRST).stem_topic(), format!("stem-{FIRST}"));
    assert_eq!(peer(SECOND).stem_topic(), format!("stem-{SECOND}"));
    assert_eq!(PeerId::from_bytes(&[0, 0]).unwrap().stem_topic(), "stem-11");
}

#[test]
fn different_peers_have_different_topics() {
    assert_ne!(peer(FIRST).stem_topic(), peer(SECOND).stem_topic());
    assert_eq!(peer(FIRST).stem_topic(), peer(FIRST).clone().stem_topic());
}

#[test]
fn peers_are_compared_by_their_bytes() {
    assert!(peer(FIRST).same(&peer(FIRST)));
    assert!(!peer(FIRST).same(&peer(SECOND)));
    assert!(same_optional_peer(&Some(peer(FIRST)), &Some(peer(FIRST))));
    assert!(!same_optional_peer(&Some(peer(FIRST)), &Some(peer(SECOND))));
    assert!(!same_optional_peer(&Some(peer(FIRST)), &None));
    assert!(!same_optional_peer(&None, &Some(peer(FIRST))));
    assert!(same_optional_peer(&None, &None));
}

#[test]
fn address_names_its_peer() {
    let found = address_peer(&format!("/ip4/127.0.0.1/tcp/4001/p2p/{FIRST}")).ok().unwrap();
    assert_eq!(found.to_bytes(), bytes_of(FIRST));
}

#[test]
fn address_names_its_first_peer() {
    let found = address_peer(&format!("/p2p/{SECOND}/p2p-circuit/p2p/{FIRST}")).ok().unwrap();
    assert_eq!(found.to_bytes(), bytes_of(SECOND));
}

#[test]
fn address_without_a_peer() {
    assert_eq!(address_peer("/ip4/127.0.0.1/tcp/4001").err(), Some(AddressError::NoPeerId));
    assert_eq!(address_peer("/p2p-circuit").err(), Some(AddressError::NoPeerId));
    assert_eq!(address_peer("").err(), Some(AddressError::NoPeerId));
}

#[test]
fn text_that_is_no_address() {
    assert_eq!(address_peer("/").err(), Some(AddressError::Malformed));
    assert_eq!(address_peer("127.0.0.1").err(), Some(AddressError::Malformed));
    assert_eq!(address_peer("/p2p/nobody").err(), Some(AddressError::Malformed));
}

#[test]
fn address_errors_are_put_into_words() {
    let error = address_peer("/ip4/127.0.0.1/tcp/4001").err().unwrap();
    assert_eq!(error.message(), "Address must contain peer ID");
    assert_eq!(address_peer("x").err().unwrap().message(), "Address is malformed");
}

#[test]
fn first_component_that_names_a_peer() {
    let components = vec![None, Some(bytes_of(SECOND)), None, Some(bytes_of(FIRST))];
    assert_eq!(find_peer(&components).unwrap().to_bytes(), bytes_of(SECOND));
    assert!(find_peer(&vec![None, None]).is_none());
    assert!(find_peer(&vec![]).is_none());
}
