//! Byte strings: comparing, copying and laying out integers.
use vstd::prelude::*;

verus! {

/// Whether two byte strings are the same.
pub fn same_bytes(a: &Vec<u8>, b: &Vec<u8>) -> (same: bool)
    ensures
        same == (a@ == b@),
{
    let same = a == b;
    assert(same ==> a@ =~= b@);
    same
}

/// A copy of a byte string.
pub fn copy_bytes(bytes: &Vec<u8>) -> (copy: Vec<u8>)
    ensures
        copy@ == bytes@,
{
    let copy = bytes.clone();
    assert(copy@ =~= bytes@);
    copy
}

/// The last `count` bytes of `value`, most significant first.
pub open spec fn big_endian_bytes(value: nat, count: nat) -> Seq<u8>
    decreases count,
{
    if count == 0 {
        Seq::empty()
    } else {
        big_endian_bytes(value / 256, (count - 1) as nat).push((value % 256) as u8)
    }
}

/// The number that a byte string spells with its most significant byte first.
pub open spec fn big_endian_value(bytes: Seq<u8>) -> nat
    decreases bytes.len(),
{
    if bytes.len() == 0 {
        0
    } else {
        256 * big_endian_value(bytes.drop_last()) + bytes.last() as nat
    }
}

/// The last eight bytes of `value`, most significant first.
pub fn big_endian_u64(value: u128) -> (bytes: Vec<u8>)
    ensures
        bytes@ == big_endian_bytes(value as nat, 8),
{
    let mut bytes: Vec<u8> = Vec::new();
    let mut shift: u128 = 64;
    while shift > 0
        invariant
            shift <= 64,
            shift % 8 == 0,
            8 * bytes@.len() == 64 - shift,
            bytes@ == big_endian_bytes((value >> shift) as nat, bytes@.len()),
        decreases shift,
    {
        let ghost before = shift;
        shift = shift - 8;
        bytes.push(((value >> shift) & 0xff) as u8);
        proof {
            let rest = value >> shift;
            assert(rest & 0xff == rest % 256) by (bit_vector);
            assert(value >> before == (value >> shift) / 256) by (bit_vector)
                requires
                    8 <= before <= 64,
                    shift == before - 8,
            ;
        }
    }
    assert(value >> 0 == value) by (bit_vector);
    bytes
}

/// The bytes of a number spell that number, when there are enough of them to hold it.
pub proof fn big_endian_reads_back(value: nat, count: nat)
    requires
        value < vstd::arithmetic::power::pow(256, count),
    ensures
        big_endian_bytes(value, count).len() == count,
        big_endian_value(big_endian_bytes(value, count)) == value,
    decreases count,
{
    reveal(vstd::arithmetic::power::pow);
    if count > 0 {
        let fewer = (count - 1) as nat;
        let bytes = big_endian_bytes(value, count);
        assert(vstd::arithmetic::power::pow(256, count) == 256 * vstd::arithmetic::power::pow(256, fewer));
        assert(value / 256 < vstd::arithmetic::power::pow(256, fewer)) by (nonlinear_arith)
            requires
                value < 256 * vstd::arithmetic::power::pow(256, fewer),
        ;
        big_endian_reads_back(value / 256, fewer);
        assert(bytes.drop_last() =~= big_endian_bytes(value / 256, fewer));
    }
}

/// Each byte of a number is the digit of its place to the base 256, the first byte that of the
/// highest place.
pub proof fn big_endian_digit(value: nat, count: nat, i: int)
    requires
        0 <= i < count,
    ensures
        big_endian_bytes(value, count).len() == count,
        big_endian_bytes(value, count)[i] as int == (value as int / vstd::arithmetic::power::pow(
            256,
            (count - 1 - i) as nat,
        )) % 256,
    decreases count,
{
    let fewer = (count - 1) as nat;
    let rest = big_endian_bytes(value / 256, fewer);
    vstd::arithmetic::power::lemma_pow0(256);
    if fewer > 0 {
        big_endian_digit(value / 256, fewer, if i < fewer { i } else { 0 });
    }
    if i < fewer {
        let place = (fewer - 1 - i) as nat;
        let power = vstd::arithmetic::power::pow(256, place);
        vstd::arithmetic::power::lemma_pow_positive(256, place);
        assert(vstd::arithmetic::power::pow(256, place + 1) == 256 * power) by {
            reveal(vstd::arithmetic::power::pow);
        }
        vstd::arithmetic::div_mod::lemma_div_denominator(value as int, 256, power);
        assert(big_endian_bytes(value, count)[i] == rest[i]);
    }
}

} // verus!
