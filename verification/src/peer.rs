//! Peer identifiers and the topics that belong to them.
use crate::bytes::{copy_bytes, same_bytes};
use vstd::prelude::*;
use vstd::string::StringExecFns;

verus! {

/// The code that opens a multihash holding a short public key as it is.
pub const IDENTITY_CODE: u8 = 0x00;

/// The code that opens a multihash holding a SHA-256 digest.
pub const SHA256_CODE: u8 = 0x12;

/// Whether `bytes` are the byte form that a peer identifier is written in: a one-byte code, a
/// one-byte length and a digest of that length. A key kept as it is may take 42 bytes, any other
/// digest 64.
pub open spec fn is_peer_id(bytes: Seq<u8>) -> bool {
    &&& bytes.len() >= 2
    &&& bytes.len() == 2 + bytes[1]
    &&& {
        ||| bytes[0] == SHA256_CODE && bytes[1] <= 64
        ||| bytes[0] == IDENTITY_CODE && bytes[1] <= 42
    }
}

/// The byte form of the peer identifier that `libp2p::PeerId::from_bytes` reads from these bytes,
/// if it reads one.
pub uninterp spec fn canonical_peer(bytes: Seq<u8>) -> Option<Seq<u8>>;

/// The text that `libp2p::PeerId` displays for the identifier with these bytes: their base-58
/// form.
pub uninterp spec fn base58(bytes: Seq<u8>) -> Seq<char>;

/// The topic on which messages for the peer with these bytes are published.
pub open spec fn stem_topic_of(peer: Seq<u8>) -> Seq<char> {
    "stem-"@ + base58(peer)
}

/// Reads a peer identifier with `libp2p::PeerId::from_bytes` and writes it with
/// `libp2p::PeerId::to_bytes`. What is written has the form that `is_peer_id` describes, and
/// whatever has that form is read as it stands. Other bytes may be read too: the code and the
/// length are variable-length integers, and a needlessly long one can be taken for a short one.
/// Which of them are read is not stated.
#[verifier::external_body]
fn parse_peer_id(bytes: &[u8]) -> (peer: Option<Vec<u8>>)
    ensures
        peer is None <==> canonical_peer(bytes@) is None,
        peer matches Some(p) ==> canonical_peer(bytes@) == Some(p@),
        peer matches Some(p) ==> is_peer_id(p@) && canonical_peer(p@) == Some(p@),
        is_peer_id(bytes@) ==> peer is Some && peer->0@ == bytes@,
{
    libp2p::PeerId::from_bytes(bytes).ok().map(|peer| peer.to_bytes())
}

/// What `libp2p::PeerId` displays for the identifier with these bytes. Base 58 can be read back,
/// so no other identifier is displayed alike.
#[verifier::external_body]
fn display_peer_id(bytes: &[u8]) -> (text: String)
    requires
        is_peer_id(bytes@),
    ensures
        text@ == base58(bytes@),
        forall|other: Seq<u8>| is_peer_id(other) && #[trigger] base58(other) == text@ ==> other == bytes@,
{
    libp2p::PeerId::from_bytes(bytes).unwrap().to_string()
}

/// The identifier of a peer of the network, held in the byte form that it is written in.
pub struct PeerId {
    bytes: Vec<u8>,
}

impl View for PeerId {
    type V = Seq<u8>;

    closed spec fn view(&self) -> Seq<u8> {
        self.bytes@
    }
}

/// The byte forms of a list of peers.
pub open spec fn peer_bytes(peers: Seq<PeerId>) -> Seq<Seq<u8>> {
    peers.map_values(|peer: PeerId| peer@)
}

/// Whether each of these byte strings is read as the identifier whose byte form it is.
pub open spec fn read_as_they_stand(list: Seq<Seq<u8>>) -> bool {
    forall|i: int| 0 <= i < list.len() ==> canonical_peer(#[trigger] list[i]) == Some(list[i])
}

/// The byte form of a peer that may be missing.
pub open spec fn optional_peer_bytes(peer: Option<PeerId>) -> Option<Seq<u8>> {
    match peer {
        Some(peer) => Some(peer@),
        None => None,
    }
}

impl PeerId {
    #[verifier::type_invariant]
    spec fn well_formed(self) -> bool {
        is_peer_id(self.bytes@) && canonical_peer(self.bytes@) == Some(self.bytes@)
    }

    /// Reads an identifier from bytes. The byte form of an identifier is read as it stands; other
    /// bytes may be read as an identifier too, which then has its own byte form.
    pub fn from_bytes(bytes: &[u8]) -> (peer: Option<PeerId>)
        ensures
            peer is Some <==> canonical_peer(bytes@) is Some,
            peer matches Some(p) ==> canonical_peer(bytes@) == Some(p@),
            is_peer_id(bytes@) ==> peer is Some && peer->0@ == bytes@,
    {
        match parse_peer_id(bytes) {
            Some(bytes) => Some(PeerId { bytes }),
            None => None,
        }
    }

    /// The byte form of the identifier. It is read as it stands.
    pub fn to_bytes(&self) -> (bytes: Vec<u8>)
        ensures
            bytes@ == self@,
            is_peer_id(bytes@),
            canonical_peer(bytes@) == Some(bytes@),
    {
        proof {
            use_type_invariant(self);
        }
        copy_bytes(&self.bytes)
    }

    /// Whether both values stand for the same peer.
    pub fn same(&self, other: &PeerId) -> (same: bool)
        ensures
            same == (self@ == other@),
    {
        same_bytes(&self.bytes, &other.bytes)
    }

    /// The topic on which messages for this peer are published. No other peer has the same one.
    pub fn stem_topic(&self) -> (topic: String)
        ensures
            topic@ == stem_topic_of(self@),
            topic@ == "stem-"@ + base58(self@),
            forall|other: Seq<u8>|
                is_peer_id(other) && #[trigger] stem_topic_of(other) == topic@ ==> other == self@,
    {
        proof {
            use_type_invariant(self);
        }
        let text = display_peer_id(self.bytes.as_slice());
        let topic = String::from_str("stem-").concat(text.as_str());
        proof {
            assert forall|other: Seq<u8>|
                is_peer_id(other) && #[trigger] stem_topic_of(other) == topic@ implies other == self@ by {
                let n = "stem-"@.len() as int;
                assert(base58(other) =~= stem_topic_of(other).skip(n));
                assert(text@ =~= topic@.skip(n));
            }
        }
        topic
    }
}

impl Clone for PeerId {
    /// Another value for the same peer.
    fn clone(&self) -> (copy: PeerId)
        ensures
            copy@ == self@,
    {
        proof {
            use_type_invariant(self);
        }
        PeerId { bytes: copy_bytes(&self.bytes) }
    }
}

/// Whether two peers, either of which may be missing, are the same.
pub fn same_optional_peer(a: &Option<PeerId>, b: &Option<PeerId>) -> (same: bool)
    ensures
        same == (optional_peer_bytes(*a) == optional_peer_bytes(*b)),
{
    match (a, b) {
        (Some(a), Some(b)) => a.same(b),
        (None, None) => true,
        _ => false,
    }
}

/// The byte forms of a list of peers are those of its members, one for one.
pub proof fn peer_bytes_are_one_for_one(peers: Seq<PeerId>)
    ensures
        peer_bytes(peers).len() == peers.len(),
        forall|i: int| 0 <= i < peers.len() ==> #[trigger] peer_bytes(peers)[i] == peers[i]@,
{
}

} // verus!
