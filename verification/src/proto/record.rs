//! Record layer.
//!
//! On a byte-stream transport, frames are carried in records: a variable-length integer
//! Size followed by that many octets of frames. A frame never spans records.

use crate::buffer::{advance_mut, append, as_slice_mut, from_vec, lemma_take_varint, octets, octets_mut, take_varint};
use crate::transport_error::{transport_error, TransportError, PROTOCOL_VIOLATION};
use crate::varint::{encoding, group_varint, VarInt, VARINT_BOUND};
use bytes::{Bytes, BytesMut};
use vstd::prelude::*;

verus! {

broadcast use group_varint;

/// Incremental parser that splits a byte stream into records.
pub struct Deframer {
    buf: BytesMut,
}

/// The record made of `frames`.
pub open spec fn record(frames: Seq<u8>) -> Seq<u8> {
    encoding(frames.len() as u64) + frames
}

/// The records made of each of `payloads`, one after the other.
pub open spec fn records(payloads: Seq<Seq<u8>>) -> Seq<u8>
    decreases payloads.len(),
{
    if payloads.len() == 0 {
        Seq::empty()
    } else {
        record(payloads[0]) + records(payloads.skip(1))
    }
}

/// The frames of the record at the front of `s` and what follows the record; `None` where
/// the record is not complete yet, an error where its Size exceeds `max_size`.
pub open spec fn next_record(s: Seq<u8>, max_size: u64) -> Result<
    Option<(Seq<u8>, Seq<u8>)>,
    TransportError<Seq<char>>,
> {
    match take_varint(s) {
        None => Ok(None),
        Some((size, rest)) => if size.value() > max_size {
            Err(transport_error(PROTOCOL_VIOLATION, "record exceeds max_record_size"@))
        } else if rest.len() < size.value() {
            Ok(None)
        } else {
            Ok(Some((rest.take(size.value() as int), rest.skip(size.value() as int))))
        },
    }
}

/// All the records at the front of `s` that are complete, up to the first that is too large.
pub open spec fn all_records(s: Seq<u8>, max_size: u64) -> Seq<Seq<u8>>
    decreases s.len(),
{
    match next_record(s, max_size) {
        Ok(Some((payload, rest))) => if rest.len() < s.len() {
            seq![payload] + all_records(rest, max_size)
        } else {
            Seq::empty()
        },
        _ => Seq::empty(),
    }
}

/// A record gives back the frames it was made of and leaves what follows it, unless the
/// frames exceed the limit.
pub proof fn law_record_round_trip(frames: Seq<u8>, rest: Seq<u8>, max_size: u64)
    requires
        frames.len() < VARINT_BOUND,
    ensures
        frames.len() <= max_size ==> next_record(record(frames) + rest, max_size) == Ok::<
            _,
            TransportError<Seq<char>>,
        >(Some((frames, rest))),
        frames.len() > max_size ==> next_record(record(frames) + rest, max_size) == Err::<
            Option<(Seq<u8>, Seq<u8>)>,
            _,
        >(transport_error(PROTOCOL_VIOLATION, "record exceeds max_record_size"@)),
{
    lemma_take_varint(frames.len() as u64, frames + rest);
    assert(record(frames) + rest =~= encoding(frames.len() as u64) + (frames + rest));
    assert((frames + rest).take(frames.len() as int) =~= frames);
    assert((frames + rest).skip(frames.len() as int) =~= rest);
}

/// As long as a record is incomplete nothing comes out, and the decision that its Size is too
/// large is never taken back by octets that arrive later.
pub proof fn law_record_prefix(s: Seq<u8>, more: Seq<u8>, max_size: u64)
    ensures
        next_record(s, max_size) matches Ok(Some((payload, rest))) ==> next_record(s + more, max_size)
            == Ok::<_, TransportError<Seq<char>>>(Some((payload, rest + more))),
        next_record(s, max_size) is Err ==> next_record(s + more, max_size) == next_record(
            s,
            max_size,
        ),
{
    crate::varint::law_decode_prefix(s, more);
    crate::varint::law_decoded_range(s);
    if let Some((size, rest)) = take_varint(s) {
        let n = crate::varint::decoding(s).unwrap().1;
        assert((s + more).skip(n as int) =~= rest + more);
        if rest.len() >= size.value() {
            assert((rest + more).take(size.value() as int) =~= rest.take(size.value() as int));
            assert((rest + more).skip(size.value() as int) =~= rest.skip(size.value() as int)
                + more);
        }
    }
}

/// A stream of records gives back the payloads it was made of, in order and none other.
pub proof fn law_records_round_trip(payloads: Seq<Seq<u8>>, max_size: u64)
    requires
        forall|i: int|
            0 <= i < payloads.len() ==> (#[trigger] payloads[i]).len() <= max_size
                && payloads[i].len() < VARINT_BOUND,
    ensures
        all_records(records(payloads), max_size) == payloads,
    decreases payloads.len(),
{
    if payloads.len() == 0 {
        assert(take_varint(Seq::<u8>::empty()) is None) by {
            reveal(crate::varint::decoding);
        }
    } else {
        let rest = records(payloads.skip(1));
        law_record_round_trip(payloads[0], rest, max_size);
        law_records_round_trip(payloads.skip(1), max_size);
        crate::varint::law_decode_encode(payloads[0].len() as u64, Seq::empty());
        assert(seq![payloads[0]] + payloads.skip(1) =~= payloads);
    }
}

/// Taking a record shortens what is left.
pub proof fn lemma_next_record_shortens(s: Seq<u8>, max_size: u64)
    ensures
        next_record(s, max_size) matches Ok(Some((payload, rest))) ==> rest.len() < s.len()
            && payload.len() <= max_size && payload.len() < s.len(),
{
    crate::buffer::lemma_take_varint_shortens(s);
}

impl View for Deframer {
    type V = Seq<u8>;

    /// The octets that no record was made of yet.
    closed spec fn view(&self) -> Seq<u8> {
        octets_mut(self.buf)
    }
}

impl Default for Deframer {
    /// A parser that has seen nothing.
    fn default() -> (d: Deframer)
        ensures
            d@ == Seq::<u8>::empty(),
    {
        Deframer { buf: BytesMut::new() }
    }
}

impl Deframer {
    /// Number of octets that no record was made of yet.
    pub fn buffered(&self) -> (n: usize)
        ensures
            n == self@.len(),
    {
        self.buf.len()
    }

    /// Buffer freshly received transport octets.
    pub fn push(&mut self, data: &[u8])
        requires
            4 * (old(self)@.len() + data@.len()) <= isize::MAX,
        ensures
            final(self)@ == old(self)@ + data@,
    {
        self.buf.extend_from_slice(data);
    }

    /// Extract the frames of the next complete record, if any.
    ///
    /// `max_size` is the advertised `max_record_size`; a larger Size is a violation by the
    /// peer.
    pub fn next(&mut self, max_size: u64) -> (r: Result<Option<Bytes>, TransportError>)
        ensures
            match next_record(old(self)@, max_size) {
                Ok(Some((payload, rest))) => r is Ok && r->Ok_0 is Some && octets(r->Ok_0->0)
                    == payload && final(self)@ == rest,
                Ok(None) => r is Ok && r->Ok_0 is None && final(self)@ == old(self)@,
                Err(e) => r is Err && r->Err_0@ == e && final(self)@ == old(self)@,
            },
    {
        let (size, header): (u64, usize) = match VarInt::decode(as_slice_mut(&self.buf)) {
            None => {
                return Ok(None);
            },
            Some((v, n)) => (v.into_inner(), n),
        };
        if size > max_size {
            return Err(TransportError::new(PROTOCOL_VIOLATION, "record exceeds max_record_size"));
        }
        if ((self.buf.len() - header) as u64) < size {
            return Ok(None);
        }
        advance_mut(&mut self.buf, header);
        Ok(Some(self.buf.split_to(size as usize).freeze()))
    }
}

/// Prefix assembled frames with their record Size.
pub fn wrap(frames: &[u8]) -> (r: Bytes)
    requires
        frames@.len() < VARINT_BOUND,
    ensures
        octets(r) == record(frames@),
{
    let mut out: Vec<u8> = Vec::new();
    match VarInt::from_u64(frames.len() as u64) {
        Ok(size) => size.encode(&mut out),
        Err(_) => {},
    }
    append(&mut out, frames);
    assert(out@ =~= record(frames@));
    from_vec(out)
}

} // verus!
