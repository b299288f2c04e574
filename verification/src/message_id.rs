//! Identifiers of messages, made from their contents.
use std::collections::hash_map::DefaultHasher;
use std::hash::{Hash, Hasher};
use vstd::prelude::*;

#[allow(unused_imports)]
use vstd::std_specs::hash::DefaultHasherAdditionalSpecFns;

verus! {

/// The decimal digits of a number, as ASCII characters.
pub open spec fn decimal(n: nat) -> Seq<u8>
    decreases n,
{
    if n < 10 {
        seq![(48 + n) as u8]
    } else {
        decimal(n / 10).push((48 + n % 10) as u8)
    }
}

/// What the `Hash::hash` of std feeds a hasher for a vector of bytes, on a machine whose addresses
/// have `word_bits` bits and whose integers begin, or do not begin, with their least significant
/// byte.
pub uninterp spec fn fed_by_hash(content: Seq<u8>, word_bits: nat, little_endian: bool) -> Seq<Seq<u8>>;

/// The hash of a message's contents on such a machine.
pub open spec fn content_hash(content: Seq<u8>, word_bits: nat, little_endian: bool) -> u64 {
    DefaultHasher::spec_finish(fed_by_hash(content, word_bits, little_endian))
}

/// The identifier of a message on such a machine: the decimal digits of the hash of its contents.
pub open spec fn content_id(content: Seq<u8>, word_bits: nat, little_endian: bool) -> Seq<u8> {
    decimal(content_hash(content, word_bits, little_endian) as nat)
}

/// Feeds contents to a hasher, by the `Hash::hash` that std gives a vector of bytes. What it feeds
/// comes after what was fed before and depends on the contents, on the width of the machine's
/// addresses and on its byte order, and on nothing else. Which byte order the machine has is not
/// stated.
#[verifier::external_body]
fn feed(content: &Vec<u8>, hasher: &mut DefaultHasher)
    ensures
        exists|little_endian: bool|
            final(hasher)@ == old(hasher)@ + #[trigger] fed_by_hash(
                content@,
                usize::BITS as nat,
                little_endian,
            ),
{
    content.hash(hasher)
}

/// The decimal digits of a number, as ASCII characters.
fn decimal_digits(n: u64) -> (digits: Vec<u8>)
    ensures
        digits@ == decimal(n as nat),
    decreases n,
{
    if n < 10 {
        let mut digits: Vec<u8> = Vec::new();
        digits.push(48 + n as u8);
        assert(digits@ =~= decimal(n as nat));
        digits
    } else {
        let mut digits = decimal_digits(n / 10);
        digits.push(48 + (n % 10) as u8);
        digits
    }
}

/// The identifier of a message whose contents have the hash `hash`: its decimal digits.
pub fn id_of_hash(hash: u64) -> (id: Vec<u8>)
    ensures
        id@ == decimal(hash as nat),
{
    decimal_digits(hash)
}

/// The identifier of a message with the given contents: the decimal digits of their hash on this
/// machine, whichever byte order it has.
pub fn message_id(content: &Vec<u8>) -> (id: Vec<u8>)
    ensures
        exists|little_endian: bool|
            id@ == #[trigger] content_id(content@, usize::BITS as nat, little_endian) && id@ == decimal(
                DefaultHasher::spec_finish(
                    fed_by_hash(content@, usize::BITS as nat, little_endian),
                ) as nat,
            ),
{
    let mut hasher = DefaultHasher::new();
    feed(content, &mut hasher);
    let id = id_of_hash(hasher.finish());
    proof {
        let nothing = Seq::<Seq<u8>>::empty();
        let little_endian = choose|little_endian: bool|
            hasher@ == nothing + #[trigger] fed_by_hash(content@, usize::BITS as nat, little_endian);
        assert(hasher@ =~= fed_by_hash(content@, usize::BITS as nat, little_endian));
        assert(id@ == content_id(content@, usize::BITS as nat, little_endian));
    }
    id
}

/// Messages are addressed by their contents: on one machine, messages with equal contents have
/// equal identifiers, and messages have equal identifiers exactly where the hashes of the whole of
/// their contents are equal.
pub proof fn messages_are_content_addressed(a: Seq<u8>, b: Seq<u8>, word_bits: nat, little_endian: bool)
    ensures
        a == b ==> content_id(a, word_bits, little_endian) == content_id(b, word_bits, little_endian),
        content_id(a, word_bits, little_endian) == content_id(b, word_bits, little_endian)
            <==> DefaultHasher::spec_finish(fed_by_hash(a, word_bits, little_endian))
            == DefaultHasher::spec_finish(fed_by_hash(b, word_bits, little_endian)),
{
    if content_id(a, word_bits, little_endian) == content_id(b, word_bits, little_endian) {
        ids_tell_hashes_apart(
            content_hash(a, word_bits, little_endian) as nat,
            content_hash(b, word_bits, little_endian) as nat,
        );
    }
}

/// Identifiers are the same only where the hashes are.
pub proof fn ids_tell_hashes_apart(a: nat, b: nat)
    requires
        decimal(a) == decimal(b),
    ensures
        a == b,
    decreases a,
{
    decimal_len(a);
    decimal_len(b);
    assert(decimal(a).last() == (48 + a % 10) as u8);
    assert(decimal(b).last() == (48 + b % 10) as u8);
    if a >= 10 && b >= 10 {
        assert(decimal(a).drop_last() =~= decimal(a / 10));
        assert(decimal(b).drop_last() =~= decimal(b / 10));
        ids_tell_hashes_apart(a / 10, b / 10);
    }
}

/// A number of two digits or more has more than one digit, any other number one.
proof fn decimal_len(n: nat)
    ensures
        decimal(n).len() >= 1,
        n >= 10 ==> decimal(n).len() >= 2,
        n < 10 ==> decimal(n).len() == 1,
    decreases n,
{
    if n >= 10 {
        decimal_len(n / 10);
    }
}

/// Each character of an identifier is the digit of its place to the base ten, the first that of the
/// highest place, and there is no leading zero but for the number zero itself.
pub proof fn decimal_digit(n: nat, i: int)
    requires
        0 <= i < decimal(n).len(),
    ensures
        decimal(n)[i] as int == 48 + (n as int / vstd::arithmetic::power::pow(
            10,
            (decimal(n).len() - 1 - i) as nat,
        )) % 10,
        n < vstd::arithmetic::power::pow(10, decimal(n).len()),
        decimal(n).len() > 1 ==> n >= vstd::arithmetic::power::pow(10, (decimal(n).len() - 1) as nat),
    decreases n,
{
    vstd::arithmetic::power::lemma_pow0(10);
    vstd::arithmetic::power::lemma_pow1(10);
    if n >= 10 {
        let rest = decimal(n / 10);
        let len = rest.len();
        decimal_len(n / 10);
        assert(decimal(n).len() == len + 1);
        decimal_digit(n / 10, if i < len { i } else { 0 });
        assert(vstd::arithmetic::power::pow(10, len + 1) == 10 * vstd::arithmetic::power::pow(10, len)) by {
            reveal(vstd::arithmetic::power::pow);
        }
        assert(vstd::arithmetic::power::pow(10, len) == 10 * vstd::arithmetic::power::pow(
            10,
            (len - 1) as nat,
        )) by {
            reveal(vstd::arithmetic::power::pow);
        }
        if i < len {
            let place = (len - 1 - i) as nat;
            let power = vstd::arithmetic::power::pow(10, place);
            vstd::arithmetic::power::lemma_pow_positive(10, place);
            assert(vstd::arithmetic::power::pow(10, place + 1) == 10 * power) by {
                reveal(vstd::arithmetic::power::pow);
            }
            vstd::arithmetic::div_mod::lemma_div_denominator(n as int, 10, power);
            assert(decimal(n)[i] == rest[i]);
        }
    }
}

} // verus!
