//! Addresses of peers.
use crate::peer::PeerId;
use libp2p::multiaddr::Protocol;
use libp2p::Multiaddr;
use vstd::prelude::*;
use vstd::string::StringExecFns;

#[allow(unused_imports)]
use crate::peer::is_peer_id;

verus! {

/// Why an address names no peer.
#[derive(Debug, PartialEq, Eq, Structural)]
pub enum AddressError {
    /// the text is not an address
    Malformed,
    /// the address has no component that names a peer
    NoPeerId,
}

/// How an address that names no peer is put to the user.
pub open spec fn address_error_text(error: AddressError) -> Seq<char> {
    match error {
        AddressError::Malformed => "Address is malformed"@,
        AddressError::NoPeerId => "Address must contain peer ID"@,
    }
}

impl AddressError {
    /// How the error is put to the user.
    pub fn message(&self) -> (text: String)
        ensures
            text@ == address_error_text(*self),
            text@ == match self {
                AddressError::Malformed => "Address is malformed"@,
                AddressError::NoPeerId => "Address must contain peer ID"@,
            },
    {
        match self {
            AddressError::Malformed => String::from_str("Address is malformed"),
            AddressError::NoPeerId => String::from_str("Address must contain peer ID"),
        }
    }
}

/// The components of the address that `libp2p::Multiaddr` reads from a text, if it reads one: for
/// each component that names a peer the bytes of that peer, for each other component nothing.
pub uninterp spec fn address_components(text: Seq<char>) -> Option<Seq<Option<Seq<u8>>>>;

/// What a list of components holds.
pub open spec fn component_views(components: Seq<Option<Vec<u8>>>) -> Seq<Option<Seq<u8>>> {
    components.map_values(
        |component: Option<Vec<u8>>|
            match component {
                Some(bytes) => Some(bytes@),
                None => None,
            },
    )
}

/// Reads an address with the `FromStr` of `libp2p::Multiaddr` and lists its components with
/// `Multiaddr::iter`. A component that names a peer holds a `libp2p::PeerId`, whose bytes are
/// those of a peer identifier.
#[verifier::external_body]
fn parse_address(text: &str) -> (components: Option<Vec<Option<Vec<u8>>>>)
    ensures
        components is None <==> address_components(text@) is None,
        components matches Some(c) ==> address_components(text@) == Some(component_views(c@)),
        components matches Some(c) ==> forall|i: int|
            0 <= i < c@.len() && (#[trigger] c@[i]) is Some ==> is_peer_id(c@[i]->0@),
{
    let address: Multiaddr = text.parse().ok()?;
    let peer = |component| match component {
        Protocol::P2p(peer) => Some(peer.to_bytes()),
        _ => None,
    };
    Some(address.iter().map(peer).collect())
}

/// The first peer that the components of an address name.
pub open spec fn first_peer(components: Seq<Option<Seq<u8>>>) -> Option<Seq<u8>>
    decreases components.len(),
{
    if components.len() == 0 {
        None
    } else if components[0] is Some {
        components[0]
    } else {
        first_peer(components.skip(1))
    }
}

/// The peer that an address names, or why it names none.
pub open spec fn address_peer_of(text: Seq<char>) -> Result<Seq<u8>, AddressError> {
    match address_components(text) {
        None => Err(AddressError::Malformed),
        Some(components) => match first_peer(components) {
            None => Err(AddressError::NoPeerId),
            Some(peer) => Ok(peer),
        },
    }
}

/// The first peer that the components of an address name.
pub fn find_peer(components: &Vec<Option<Vec<u8>>>) -> (peer: Option<PeerId>)
    requires
        forall|i: int|
            0 <= i < components@.len() && (#[trigger] components@[i]) is Some ==> is_peer_id(
                components@[i]->0@,
            ),
    ensures
        peer is Some <==> first_peer(component_views(components@)) is Some,
        peer matches Some(p) ==> first_peer(component_views(components@)) == Some(p@),
        peer is None <==> forall|i: int| 0 <= i < components@.len() ==> (#[trigger] components@[i]) is None,
        peer matches Some(p) ==> exists|i: int|
            {
                &&& 0 <= i < components@.len()
                &&& (#[trigger] components@[i]) is Some
                &&& components@[i]->0@ == p@
                &&& forall|j: int| 0 <= j < i ==> (#[trigger] components@[j]) is None
            },
{
    let ghost views = component_views(components@);
    let mut i: usize = 0;
    assert(views.skip(0) =~= views);
    while i < components.len()
        invariant
            i <= components.len(),
            views == component_views(components@),
            first_peer(views) == first_peer(views.skip(i as int)),
            forall|j: int| 0 <= j < i ==> (#[trigger] components@[j]) is None,
            forall|j: int|
                0 <= j < components@.len() && (#[trigger] components@[j]) is Some ==> is_peer_id(
                    components@[j]->0@,
                ),
        decreases components.len() - i,
    {
        assert(views.skip(i as int)[0] == views[i as int]);
        assert(views.skip(i as int).skip(1) =~= views.skip(i + 1));
        if let Some(bytes) = &components[i] {
            return PeerId::from_bytes(bytes.as_slice());
        }
        i += 1;
    }
    None
}

/// The peer that an address names, or why it names none.
pub fn address_peer(text: &str) -> (peer: Result<PeerId, AddressError>)
    ensures
        match peer {
            Ok(p) => address_peer_of(text@) == Ok::<Seq<u8>, AddressError>(p@),
            Err(e) => address_peer_of(text@) == Err::<Seq<u8>, AddressError>(e),
        },
{
    match parse_address(text) {
        None => Err(AddressError::Malformed),
        Some(components) => match find_peer(&components) {
            None => Err(AddressError::NoPeerId),
            Some(peer) => Ok(peer),
        },
    }
}

/// The first peer that an address names is that of a component before which no component names one;
/// there is none exactly if no component names a peer.
pub proof fn first_peer_comes_first(components: Seq<Option<Seq<u8>>>)
    ensures
        first_peer(components) is None <==> forall|i: int|
            0 <= i < components.len() ==> (#[trigger] components[i]) is None,
        first_peer(components) is Some ==> exists|i: int|
            {
                &&& 0 <= i < components.len()
                &&& #[trigger] components[i] == first_peer(components)
                &&& forall|j: int| 0 <= j < i ==> (#[trigger] components[j]) is None
            },
    decreases components.len(),
{
    if components.len() > 0 {
        let rest = components.skip(1);
        if components[0] is Some {
            assert(components[0] == first_peer(components));
        } else {
            first_peer_comes_first(rest);
            if first_peer(components) is Some {
                let i = choose|i: int|
                    {
                        &&& 0 <= i < rest.len()
                        &&& #[trigger] rest[i] == first_peer(rest)
                        &&& forall|j: int| 0 <= j < i ==> (#[trigger] rest[j]) is None
                    };
                assert(components[i + 1] == first_peer(components));
                assert forall|j: int| 0 <= j < i + 1 implies (#[trigger] components[j]) is None by {
                    if j > 0 {
                        assert(rest[j - 1] is None);
                    }
                }
            } else {
                assert forall|j: int| 0 <= j < components.len() implies (#[trigger] components[j]) is None by {
                    if j > 0 {
                        assert(rest[j - 1] is None);
                    }
                }
            }
        }
    }
}

/// A text is malformed exactly if no address is read from it; an address has no peer exactly if none
/// of its components names one; otherwise the peer is the first that is named.
pub proof fn addresses_name_their_first_peer(text: Seq<char>, components: Seq<Option<Seq<u8>>>, at: int)
    ensures
        address_components(text) is None <==> address_peer_of(text) == Err::<Seq<u8>, AddressError>(
            AddressError::Malformed,
        ),
        address_components(text) == Some(components) && (forall|i: int|
            0 <= i < components.len() ==> (#[trigger] components[i]) is None) ==> address_peer_of(text) == Err::<
            Seq<u8>,
            AddressError,
        >(AddressError::NoPeerId),
        address_components(text) == Some(components) && 0 <= at < components.len() && components[at] is Some && (
        forall|i: int| 0 <= i < at ==> (#[trigger] components[i]) is None) ==> address_peer_of(text) == Ok::<
            Seq<u8>,
            AddressError,
        >(components[at]->0),
{
    first_peer_comes_first(components);
}

} // verus!
