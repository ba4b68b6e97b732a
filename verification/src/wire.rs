//! The byte encodings of the values that records and commands are made of:
//! integers in little-endian order, an optional time behind a one-byte tag,
//! an identity as its 32 bytes.

use vstd::prelude::*;
use vstd::bytes::{
    spec_u32_from_le_bytes, spec_u32_to_le_bytes, spec_u64_from_le_bytes, spec_u64_to_le_bytes,
};
use crate::address::Address;

verus! {

/// The four bytes of `x`, lowest first.
pub open spec fn u32_bytes(x: u32) -> Seq<u8> {
    spec_u32_to_le_bytes(x)
}

/// The eight bytes of `x`, lowest first.
pub open spec fn u64_bytes(x: u64) -> Seq<u8> {
    spec_u64_to_le_bytes(x)
}

/// The eight bytes of `x` in two's complement, lowest first.
pub open spec fn i64_bytes(x: i64) -> Seq<u8> {
    spec_u64_to_le_bytes(#[verifier::truncate] (x as u64))
}

/// An absent time as the byte 0, a present one as the byte 1 and its eight
/// bytes.
pub open spec fn option_i64_bytes(x: Option<i64>) -> Seq<u8> {
    match x {
        None => seq![0u8],
        Some(t) => seq![1u8] + i64_bytes(t),
    }
}

/// The encodings of the integers have their fixed lengths, and equal
/// encodings come from equal integers.
pub proof fn lemma_integer_bytes()
    ensures
        forall|x: u32| #[trigger] u32_bytes(x).len() == 4,
        forall|x: u64| #[trigger] u64_bytes(x).len() == 8,
        forall|x: i64| #[trigger] i64_bytes(x).len() == 8,
        forall|x: u32, y: u32| #[trigger] u32_bytes(x) == #[trigger] u32_bytes(y) ==> x == y,
        forall|x: u64, y: u64| #[trigger] u64_bytes(x) == #[trigger] u64_bytes(y) ==> x == y,
        forall|x: i64, y: i64| #[trigger] i64_bytes(x) == #[trigger] i64_bytes(y) ==> x == y,
        forall|s: Seq<u8>| s.len() == 4 ==> #[trigger] u32_bytes(spec_u32_from_le_bytes(s)) == s,
        forall|s: Seq<u8>| s.len() == 8 ==> #[trigger] u64_bytes(spec_u64_from_le_bytes(s)) == s,
{
    vstd::bytes::lemma_auto_spec_u32_to_from_le_bytes();
    vstd::bytes::lemma_auto_spec_u64_to_from_le_bytes();
    assert forall|x: u32, y: u32| #[trigger] u32_bytes(x) == #[trigger] u32_bytes(y) implies x == y by {
        assert(spec_u32_to_le_bytes(x).len() == 4 && spec_u32_to_le_bytes(y).len() == 4);
    }
    assert forall|x: u64, y: u64| #[trigger] u64_bytes(x) == #[trigger] u64_bytes(y) implies x == y by {
        assert(spec_u64_to_le_bytes(x).len() == 8 && spec_u64_to_le_bytes(y).len() == 8);
    }
    assert forall|x: i64, y: i64| #[trigger] i64_bytes(x) == #[trigger] i64_bytes(y) implies x == y by {
        let a = #[verifier::truncate] (x as u64);
        let b = #[verifier::truncate] (y as u64);
        assert(spec_u64_to_le_bytes(a).len() == 8 && spec_u64_to_le_bytes(b).len() == 8);
        assert(x as u64 == y as u64 ==> x == y) by (bit_vector);
    }
}

/// The encoding of an optional time is one byte or nine, begins with its
/// tag, and equal encodings come from equal values.
pub proof fn lemma_option_i64_bytes(x: Option<i64>)
    ensures
        option_i64_bytes(x).len() == (if x.is_some() { 9int } else { 1int }),
        option_i64_bytes(x)[0] == (if x.is_some() { 1u8 } else { 0u8 }),
        x.is_some() ==> option_i64_bytes(x).subrange(1, 9) == i64_bytes(x.unwrap()),
{
    lemma_integer_bytes();
    if let Some(t) = x {
        assert(option_i64_bytes(x).subrange(1, 9) =~= i64_bytes(t));
    }
}

/// Two sequences cut at the same place are equal exactly when both parts
/// are.
pub proof fn lemma_concat_parts<A>(a1: Seq<A>, b1: Seq<A>, a2: Seq<A>, b2: Seq<A>)
    requires
        a1 + b1 == a2 + b2,
        a1.len() == a2.len(),
    ensures
        a1 == a2,
        b1 == b2,
{
    assert(a1 =~= (a1 + b1).subrange(0, a1.len() as int));
    assert(a2 =~= (a2 + b2).subrange(0, a2.len() as int));
    assert(b1 =~= (a1 + b1).subrange(a1.len() as int, (a1 + b1).len() as int));
    assert(b2 =~= (a2 + b2).subrange(a2.len() as int, (a2 + b2).len() as int));
}

/// Two neighbouring ranges of a sequence make up the range that spans them.
pub proof fn lemma_subrange_join<A>(s: Seq<A>, from: int, mid: int, to: int)
    requires
        0 <= from <= mid <= to <= s.len(),
    ensures
        s.subrange(from, mid) + s.subrange(mid, to) == s.subrange(from, to),
{
    assert(s.subrange(from, mid) + s.subrange(mid, to) =~= s.subrange(from, to));
}

/// Appends the four bytes of `x`.
pub(crate) fn put_u32(out: &mut Vec<u8>, x: u32)
    ensures
        final(out)@ == old(out)@ + u32_bytes(x),
{
    let mut bytes = vstd::bytes::u32_to_le_bytes(x);
    out.append(&mut bytes);
}

/// Appends the eight bytes of `x`.
pub(crate) fn put_u64(out: &mut Vec<u8>, x: u64)
    ensures
        final(out)@ == old(out)@ + u64_bytes(x),
{
    let mut bytes = vstd::bytes::u64_to_le_bytes(x);
    out.append(&mut bytes);
}

/// Appends the eight bytes of `x`.
pub(crate) fn put_i64(out: &mut Vec<u8>, x: i64)
    ensures
        final(out)@ == old(out)@ + i64_bytes(x),
{
    let mut bytes = vstd::bytes::u64_to_le_bytes(#[verifier::truncate] (x as u64));
    out.append(&mut bytes);
}

/// Appends the tag of `x` and, where a time is present, its eight bytes.
pub(crate) fn put_option_i64(out: &mut Vec<u8>, x: Option<i64>)
    ensures
        final(out)@ == old(out)@ + option_i64_bytes(x),
{
    match x {
        None => {
            out.push(0u8);
            assert(out@ =~= old(out)@ + option_i64_bytes(x));
        },
        Some(t) => {
            out.push(1u8);
            put_i64(out, t);
            assert(out@ =~= old(out)@ + option_i64_bytes(x));
        },
    }
}

/// Appends the 32 bytes of `address`.
pub(crate) fn put_address(out: &mut Vec<u8>, address: &Address)
    ensures
        final(out)@ == old(out)@ + address@,
{
    let mut i: usize = 0;
    while i < 32
        invariant
            i <= 32,
            out@ == old(out)@ + address@.subrange(0, i as int),
        decreases 32 - i,
    {
        out.push(address.bytes[i]);
        assert(out@ =~= old(out)@ + address@.subrange(0, i + 1));
        i += 1;
    }
    assert(address@.subrange(0, 32) =~= address@);
}

/// The integer whose four bytes stand at `at`.
pub(crate) fn get_u32(bytes: &[u8], at: usize) -> (x: u32)
    requires
        at + 4 <= bytes@.len(),
    ensures
        u32_bytes(x) == bytes@.subrange(at as int, at + 4),
{
    proof {
        lemma_integer_bytes();
    }
    let _ = bytes.len();
    vstd::bytes::u32_from_le_bytes(vstd::slice::slice_subrange(bytes, at, at + 4))
}

/// The integer whose eight bytes stand at `at`.
pub(crate) fn get_u64(bytes: &[u8], at: usize) -> (x: u64)
    requires
        at + 8 <= bytes@.len(),
    ensures
        u64_bytes(x) == bytes@.subrange(at as int, at + 8),
{
    proof {
        lemma_integer_bytes();
    }
    let _ = bytes.len();
    vstd::bytes::u64_from_le_bytes(vstd::slice::slice_subrange(bytes, at, at + 8))
}

/// The integer whose eight bytes, in two's complement, stand at `at`.
pub(crate) fn get_i64(bytes: &[u8], at: usize) -> (x: i64)
    requires
        at + 8 <= bytes@.len(),
    ensures
        i64_bytes(x) == bytes@.subrange(at as int, at + 8),
{
    let raw = get_u64(bytes, at);
    assert((raw as i64) as u64 == raw) by (bit_vector);
    #[verifier::truncate]
    (raw as i64)
}

/// The identity whose 32 bytes stand at `at`.
pub(crate) fn get_address(bytes: &[u8], at: usize) -> (address: Address)
    requires
        at + 32 <= bytes@.len(),
    ensures
        address@ == bytes@.subrange(at as int, at + 32),
{
    let _ = bytes.len();
    let mut raw = [0u8; 32];
    let mut i: usize = 0;
    while i < 32
        invariant
            i <= 32,
            at + 32 <= bytes.len(),
            forall|j: int| 0 <= j < i ==> raw@[j] == bytes@[at + j],
        decreases 32 - i,
    {
        raw[i] = bytes[at + i];
        i += 1;
    }
    let address = Address { bytes: raw };
    assert(address@ =~= bytes@.subrange(at as int, at + 32));
    address
}

} // verus!
