//! Byte buffers.

use crate::varint::{decoding, encoding, law_decode_encode, law_decoded_range, VarInt, VARINT_BOUND};
use bytes::{Buf, Bytes, BytesMut};
use vstd::prelude::*;

verus! {

/// `bytes::Bytes`, a shared immutable run of octets.
#[verifier::external_type_specification]
#[verifier::external_body]
pub struct ExBytes(bytes::Bytes);

/// `bytes::BytesMut`, a growable run of octets.
#[verifier::external_type_specification]
#[verifier::external_body]
pub struct ExBytesMut(bytes::BytesMut);

/// The octets that a `Bytes` holds.
pub uninterp spec fn octets(b: Bytes) -> Seq<u8>;

/// The octets that a `BytesMut` holds.
pub uninterp spec fn octets_mut(b: BytesMut) -> Seq<u8>;

/// `Bytes::len` counts the octets held, which lie in one slice and are therefore no more than
/// the largest allocation.
pub assume_specification[ Bytes::len ](b: &Bytes) -> (n: usize)
    ensures
        n == octets(*b).len(),
        n <= isize::MAX,
;

/// `Bytes::split_to` takes the first `at` octets out of the buffer and returns them; it
/// panics when there are fewer.
pub assume_specification[ Bytes::split_to ](b: &mut Bytes, at: usize) -> (front: Bytes)
    requires
        at <= octets(*old(b)).len(),
    ensures
        octets(front) == octets(*old(b)).take(at as int),
        octets(*final(b)) == octets(*old(b)).skip(at as int),
;

/// `Bytes::clone` yields another handle on the same octets.
pub assume_specification[ <Bytes as Clone>::clone ](b: &Bytes) -> (c: Bytes)
    ensures
        octets(c) == octets(*b),
;

/// `Bytes` dereferences to the slice of the octets it holds.
#[verifier::external_body]
pub(crate) fn as_slice(b: &Bytes) -> (s: &[u8])
    ensures
        s@ == octets(*b),
{
    &b[..]
}

/// `Bytes::from` takes over the octets of a vector.
#[verifier::external_body]
pub(crate) fn from_vec(v: Vec<u8>) -> (b: Bytes)
    ensures
        octets(b) == v@,
{
    Bytes::from(v)
}

/// `Bytes::slice` with a range that ends at `n` yields the first `n` octets; it panics when
/// there are fewer.
#[verifier::external_body]
pub(crate) fn prefix(b: &Bytes, n: usize) -> (p: Bytes)
    requires
        n <= octets(*b).len(),
    ensures
        octets(p) == octets(*b).take(n as int),
{
    b.slice(..n)
}

/// `BytesMut::new` holds nothing.
pub assume_specification[ BytesMut::new ]() -> (b: BytesMut)
    ensures
        octets_mut(b) == Seq::<u8>::empty(),
;

/// `BytesMut::len` counts the octets held.
pub assume_specification[ BytesMut::len ](b: &BytesMut) -> (n: usize)
    ensures
        n == octets_mut(*b).len(),
;

/// `BytesMut::extend_from_slice` appends the slice. It panics where it grows past the largest
/// allocation, and as it grows it doubles and may keep room for octets taken off the front:
/// up to a quarter of that there is room.
pub assume_specification[ BytesMut::extend_from_slice ](b: &mut BytesMut, extend: &[u8])
    requires
        4 * (octets_mut(*old(b)).len() + extend@.len()) <= isize::MAX,
    ensures
        octets_mut(*final(b)) == octets_mut(*old(b)) + extend@,
;

/// `BytesMut::split_to` takes the first `at` octets out of the buffer and returns them; it
/// panics when there are fewer.
pub assume_specification[ BytesMut::split_to ](b: &mut BytesMut, at: usize) -> (front: BytesMut)
    requires
        at <= octets_mut(*old(b)).len(),
    ensures
        octets_mut(front) == octets_mut(*old(b)).take(at as int),
        octets_mut(*final(b)) == octets_mut(*old(b)).skip(at as int),
;

/// `BytesMut::freeze` makes the octets immutable.
pub assume_specification[ BytesMut::freeze ](b: BytesMut) -> (f: Bytes)
    ensures
        octets(f) == octets_mut(b),
;

/// `BytesMut` dereferences to the slice of the octets it holds.
#[verifier::external_body]
pub(crate) fn as_slice_mut(b: &BytesMut) -> (s: &[u8])
    ensures
        s@ == octets_mut(*b),
{
    &b[..]
}

/// `Buf::advance` drops the first `n` octets; it panics when there are fewer.
#[verifier::external_body]
pub(crate) fn advance_mut(b: &mut BytesMut, n: usize)
    requires
        n <= octets_mut(*old(b)).len(),
    ensures
        octets_mut(*final(b)) == octets_mut(*old(b)).skip(n as int),
{
    b.advance(n)
}

/// The integer at the front of `s` and what follows it, or `None` where `s` ends too early.
pub open spec fn take_varint(s: Seq<u8>) -> Option<(VarInt, Seq<u8>)> {
    match decoding(s) {
        Some((v, n)) => Some((v, s.skip(n as int))),
        None => None,
    }
}

/// The first `n` octets of `s` and what follows them, or `None` where there are fewer.
pub open spec fn take_octets(s: Seq<u8>, n: u64) -> Option<(Seq<u8>, Seq<u8>)> {
    if n <= s.len() {
        Some((s.take(n as int), s.skip(n as int)))
    } else {
        None
    }
}

/// Taking the integer that was put in front of `rest` leaves `rest`.
pub proof fn lemma_take_varint(x: u64, rest: Seq<u8>)
    requires
        x < VARINT_BOUND,
    ensures
        take_varint(encoding(x) + rest) == Some((VarInt::of(x), rest)),
{
    law_decode_encode(x, rest);
    assert((encoding(x) + rest).skip(encoding(x).len() as int) =~= rest);
}

/// Taking an integer shortens what is left.
pub proof fn lemma_take_varint_shortens(s: Seq<u8>)
    ensures
        take_varint(s) matches Some((v, rest)) ==> rest.len() < s.len() && v.value() < VARINT_BOUND,
{
    law_decoded_range(s);
}

/// Taking as many octets as were put in front of `rest` leaves `rest`.
pub proof fn lemma_take_octets(data: Seq<u8>, rest: Seq<u8>)
    requires
        data.len() <= u64::MAX,
    ensures
        take_octets(data + rest, data.len() as u64) == Some((data, rest)),
{
    assert((data + rest).take(data.len() as int) =~= data);
    assert((data + rest).skip(data.len() as int) =~= rest);
}

/// Take the integer at the front of `buf`, or leave `buf` as it is.
pub(crate) fn get_varint(buf: &mut Bytes) -> (r: Option<VarInt>)
    ensures
        match take_varint(octets(*old(buf))) {
            Some((v, rest)) => r == Some(v) && octets(*final(buf)) == rest,
            None => r is None && *final(buf) == *old(buf),
        },
{
    match VarInt::decode(as_slice(buf)) {
        Some((v, n)) => {
            let _front = buf.split_to(n);
            Some(v)
        },
        None => None,
    }
}

/// Take the first `n` octets of `buf`, or leave `buf` as it is where there are fewer.
pub(crate) fn get_octets(buf: &mut Bytes, n: u64) -> (r: Option<Bytes>)
    ensures
        match take_octets(octets(*old(buf)), n) {
            Some((data, rest)) => r is Some && octets(r->0) == data && octets(*final(buf)) == rest,
            None => r is None && *final(buf) == *old(buf),
        },
{
    if n <= buf.len() as u64 {
        Some(buf.split_to(n as usize))
    } else {
        None
    }
}

/// Append `data` to `out`.
pub(crate) fn append(out: &mut Vec<u8>, data: &[u8])
    ensures
        final(out)@ == old(out)@ + data@,
{
    out.extend_from_slice(data);
    assert(out@ =~= old(out)@ + data@);
}

} // verus!
