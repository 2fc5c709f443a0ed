//! Fixed-width, endian-aware conversion between integers and their byte
//! encodings. The default wire order is big-endian ("network order");
//! little-endian variants are explicit. `usize` and `isize` are always encoded
//! as exactly 8 bytes, regardless of the host pointer width.

use vstd::bytes::spec_u128_from_le_bytes;
use vstd::bytes::spec_u128_to_le_bytes;
use vstd::bytes::spec_u16_from_le_bytes;
use vstd::bytes::spec_u16_to_le_bytes;
use vstd::bytes::spec_u32_from_le_bytes;
use vstd::bytes::spec_u32_to_le_bytes;
use vstd::bytes::spec_u64_from_le_bytes;
use vstd::bytes::spec_u64_to_le_bytes;
use vstd::bytes::lemma_auto_spec_u128_to_from_le_bytes;
use vstd::bytes::lemma_auto_spec_u16_to_from_le_bytes;
use vstd::bytes::lemma_auto_spec_u32_to_from_le_bytes;
use vstd::bytes::lemma_auto_spec_u64_to_from_le_bytes;
use vstd::bytes::u128_from_le_bytes;
use vstd::bytes::u128_to_le_bytes;
use vstd::bytes::u16_from_le_bytes;
use vstd::bytes::u16_to_le_bytes;
use vstd::bytes::u32_from_le_bytes;
use vstd::bytes::u32_to_le_bytes;
use vstd::bytes::u64_from_le_bytes;
use vstd::bytes::u64_to_le_bytes;
use vstd::prelude::*;

verus! {

/// The big-endian encoding of a [`u16`]: its little-endian bytes, reversed.
pub open spec fn spec_u16_to_be_bytes(x: u16) -> Seq<u8> {
    spec_u16_to_le_bytes(x).reverse()
}

/// The [`u16`] whose big-endian encoding is the given two bytes.
pub open spec fn spec_u16_from_be_bytes(s: Seq<u8>) -> u16
    recommends
        s.len() == 2,
{
    spec_u16_from_le_bytes(s.reverse())
}

/// The big-endian encoding of a [`u32`]: its little-endian bytes, reversed.
pub open spec fn spec_u32_to_be_bytes(x: u32) -> Seq<u8> {
    spec_u32_to_le_bytes(x).reverse()
}

/// The [`u32`] whose big-endian encoding is the given four bytes.
pub open spec fn spec_u32_from_be_bytes(s: Seq<u8>) -> u32
    recommends
        s.len() == 4,
{
    spec_u32_from_le_bytes(s.reverse())
}

/// The big-endian encoding of a [`u64`]: its little-endian bytes, reversed.
pub open spec fn spec_u64_to_be_bytes(x: u64) -> Seq<u8> {
    spec_u64_to_le_bytes(x).reverse()
}

/// The [`u64`] whose big-endian encoding is the given eight bytes.
pub open spec fn spec_u64_from_be_bytes(s: Seq<u8>) -> u64
    recommends
        s.len() == 8,
{
    spec_u64_from_le_bytes(s.reverse())
}

/// The big-endian encoding of a [`u128`]: its little-endian bytes, reversed.
pub open spec fn spec_u128_to_be_bytes(x: u128) -> Seq<u8> {
    spec_u128_to_le_bytes(x).reverse()
}

/// The [`u128`] whose big-endian encoding is the given sixteen bytes.
pub open spec fn spec_u128_from_be_bytes(s: Seq<u8>) -> u128
    recommends
        s.len() == 16,
{
    spec_u128_from_le_bytes(s.reverse())
}

/// Reverses a byte vector.
pub fn reverse_vec(v: &Vec<u8>) -> (r: Vec<u8>)
    ensures
        r@ == v@.reverse(),
{
    let mut r: Vec<u8> = Vec::new();
    let mut i: usize = v.len();
    while i > 0
        invariant
            i <= v.len(),
            r@.len() == v.len() - i,
            forall|j: int| 0 <= j < r@.len() ==> r@[j] == v@[v@.len() - 1 - j],
        decreases i,
    {
        i = i - 1;
        r.push(v[i]);
    }
    proof {
        assert(r@ =~= v@.reverse());
    }
    r
}

/// Encodes a [`u16`] as two big-endian bytes.
pub fn u16_to_be_vec(x: u16) -> (r: Vec<u8>)
    ensures
        r@ == spec_u16_to_be_bytes(x),
        r@.len() == 2,
{
    let le = u16_to_le_bytes(x);
    reverse_vec(&le)
}

/// Decodes a [`u16`] from two big-endian bytes.
pub fn u16_from_be_vec(s: &Vec<u8>) -> (x: u16)
    requires
        s@.len() == 2,
    ensures
        x == spec_u16_from_be_bytes(s@),
{
    let r = reverse_vec(s);
    u16_from_le_bytes(r.as_slice())
}

/// Decodes a [`u16`] from two little-endian bytes.
pub fn u16_from_le_vec(s: &Vec<u8>) -> (x: u16)
    requires
        s@.len() == 2,
    ensures
        x == spec_u16_from_le_bytes(s@),
{
    u16_from_le_bytes(s.as_slice())
}

/// Encodes a [`u32`] as four big-endian bytes.
pub fn u32_to_be_vec(x: u32) -> (r: Vec<u8>)
    ensures
        r@ == spec_u32_to_be_bytes(x),
        r@.len() == 4,
{
    let le = u32_to_le_bytes(x);
    reverse_vec(&le)
}

/// Decodes a [`u32`] from four big-endian bytes.
pub fn u32_from_be_vec(s: &Vec<u8>) -> (x: u32)
    requires
        s@.len() == 4,
    ensures
        x == spec_u32_from_be_bytes(s@),
{
    let r = reverse_vec(s);
    u32_from_le_bytes(r.as_slice())
}

/// Decodes a [`u32`] from four little-endian bytes.
pub fn u32_from_le_vec(s: &Vec<u8>) -> (x: u32)
    requires
        s@.len() == 4,
    ensures
        x == spec_u32_from_le_bytes(s@),
{
    u32_from_le_bytes(s.as_slice())
}

/// Encodes a [`u64`] as eight big-endian bytes.
pub fn u64_to_be_vec(x: u64) -> (r: Vec<u8>)
    ensures
        r@ == spec_u64_to_be_bytes(x),
        r@.len() == 8,
{
    let le = u64_to_le_bytes(x);
    reverse_vec(&le)
}

/// Decodes a [`u64`] from eight big-endian bytes.
pub fn u64_from_be_vec(s: &Vec<u8>) -> (x: u64)
    requires
        s@.len() == 8,
    ensures
        x == spec_u64_from_be_bytes(s@),
{
    let r = reverse_vec(s);
    u64_from_le_bytes(r.as_slice())
}

/// Decodes a [`u64`] from eight little-endian bytes.
pub fn u64_from_le_vec(s: &Vec<u8>) -> (x: u64)
    requires
        s@.len() == 8,
    ensures
        x == spec_u64_from_le_bytes(s@),
{
    u64_from_le_bytes(s.as_slice())
}

/// Encodes a [`u128`] as sixteen big-endian bytes.
pub fn u128_to_be_vec(x: u128) -> (r: Vec<u8>)
    ensures
        r@ == spec_u128_to_be_bytes(x),
        r@.len() == 16,
{
    let le = u128_to_le_bytes(x);
    reverse_vec(&le)
}

/// Decodes a [`u128`] from sixteen big-endian bytes.
pub fn u128_from_be_vec(s: &Vec<u8>) -> (x: u128)
    requires
        s@.len() == 16,
    ensures
        x == spec_u128_from_be_bytes(s@),
{
    let r = reverse_vec(s);
    u128_from_le_bytes(r.as_slice())
}

/// Decodes a [`u128`] from sixteen little-endian bytes.
pub fn u128_from_le_vec(s: &Vec<u8>) -> (x: u128)
    requires
        s@.len() == 16,
    ensures
        x == spec_u128_from_le_bytes(s@),
{
    u128_from_le_bytes(s.as_slice())
}

/// Round trip: encoding a [`u16`] in either byte order and decoding it in the
/// same order yields the value back, and each encoding is two bytes long.
pub proof fn lemma_u16_round_trip(x: u16)
    ensures
        spec_u16_to_be_bytes(x).len() == 2,
        spec_u16_to_le_bytes(x).len() == 2,
        spec_u16_from_be_bytes(spec_u16_to_be_bytes(x)) == x,
        spec_u16_from_le_bytes(spec_u16_to_le_bytes(x)) == x,
{
    lemma_auto_spec_u16_to_from_le_bytes();
    assert(spec_u16_to_le_bytes(x).reverse().reverse() =~= spec_u16_to_le_bytes(x));
}

/// Round trip: encoding a [`u32`] in either byte order and decoding it in the
/// same order yields the value back, and each encoding is four bytes long.
pub proof fn lemma_u32_round_trip(x: u32)
    ensures
        spec_u32_to_be_bytes(x).len() == 4,
        spec_u32_to_le_bytes(x).len() == 4,
        spec_u32_from_be_bytes(spec_u32_to_be_bytes(x)) == x,
        spec_u32_from_le_bytes(spec_u32_to_le_bytes(x)) == x,
{
    lemma_auto_spec_u32_to_from_le_bytes();
    assert(spec_u32_to_le_bytes(x).reverse().reverse() =~= spec_u32_to_le_bytes(x));
}

/// Round trip: encoding a [`u64`] in either byte order and decoding it in the
/// same order yields the value back, and each encoding is eight bytes long.
pub proof fn lemma_u64_round_trip(x: u64)
    ensures
        spec_u64_to_be_bytes(x).len() == 8,
        spec_u64_to_le_bytes(x).len() == 8,
        spec_u64_from_be_bytes(spec_u64_to_be_bytes(x)) == x,
        spec_u64_from_le_bytes(spec_u64_to_le_bytes(x)) == x,
{
    lemma_auto_spec_u64_to_from_le_bytes();
    assert(spec_u64_to_le_bytes(x).reverse().reverse() =~= spec_u64_to_le_bytes(x));
}

/// Round trip: encoding a [`u128`] in either byte order and decoding it in the
/// same order yields the value back, and each encoding is sixteen bytes long.
pub proof fn lemma_u128_round_trip(x: u128)
    ensures
        spec_u128_to_be_bytes(x).len() == 16,
        spec_u128_to_le_bytes(x).len() == 16,
        spec_u128_from_be_bytes(spec_u128_to_be_bytes(x)) == x,
        spec_u128_from_le_bytes(spec_u128_to_le_bytes(x)) == x,
{
    lemma_auto_spec_u128_to_from_le_bytes();
    assert(spec_u128_to_le_bytes(x).reverse().reverse() =~= spec_u128_to_le_bytes(x));
}

} // verus!
