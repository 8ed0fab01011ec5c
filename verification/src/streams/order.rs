//! In-order arrival of stream data.
//!
//! The carrier is ordered, so the data of a stream arrives in offset order; a gap or an
//! overlap can only be a fault of the peer.

use crate::stream_id::StreamId;
use crate::varint::group_varint;
use rustc_hash::FxHashMap;
use vstd::prelude::*;

verus! {

broadcast use group_varint;

/// `rustc_hash::FxBuildHasher`, which makes the hashers of an `FxHashMap`.
#[verifier::external_type_specification]
#[verifier::external_body]
pub struct ExFxBuildHasher(rustc_hash::FxBuildHasher);

/// `FxHashMap::default` holds nothing.
#[verifier::external_body]
fn no_offsets() -> (m: FxHashMap<u64, u64>)
    ensures
        m@.dom() == Set::<u64>::empty(),
{
    FxHashMap::default()
}

/// `FxHashMap::get` yields the value stored under the key, if any.
#[verifier::external_body]
fn get_offset(m: &FxHashMap<u64, u64>, id: u64) -> (v: Option<u64>)
    ensures
        v == (if m@.dom().contains(id) {
            Some(m@[id])
        } else {
            None
        }),
{
    m.get(&id).copied()
}

/// `FxHashMap::insert` stores a value under the key in place of an earlier one.
#[verifier::external_body]
fn set_offset(m: &mut FxHashMap<u64, u64>, id: u64, offset: u64)
    ensures
        final(m)@ == old(m)@.insert(id, offset),
{
    m.insert(id, offset);
}

/// `FxHashMap::remove` drops the key and its value.
#[verifier::external_body]
fn remove_offset(m: &mut FxHashMap<u64, u64>, id: u64)
    ensures
        final(m)@ == old(m)@.remove(id),
{
    m.remove(&id);
}

/// Next expected receive offset of each live stream.
pub struct ReceiveOrder {
    offsets: FxHashMap<u64, u64>,
}

/// Where the data of a stream must go on; a stream that is not known starts at zero.
pub open spec fn expected_offset(offsets: Map<u64, u64>, id: StreamId) -> u64 {
    if offsets.dom().contains(id.0.value()) {
        offsets[id.0.value()]
    } else {
        0
    }
}

/// The sum, or the largest number where it does not fit. No frame names that offset.
pub open spec fn saturating_sum(offset: u64, len: nat) -> u64 {
    if offset + len <= u64::MAX {
        (offset + len) as u64
    } else {
        u64::MAX
    }
}

/// The offsets after `len` octets of data arrived at the expected place; a stream that ends
/// with them is forgotten.
pub open spec fn offsets_after(
    offsets: Map<u64, u64>,
    id: StreamId,
    len: nat,
    fin: bool,
) -> Map<u64, u64> {
    if fin {
        offsets.remove(id.0.value())
    } else {
        offsets.insert(id.0.value(), saturating_sum(expected_offset(offsets, id), len))
    }
}

/// Where each stream stands, by the number of its identifier.
impl View for ReceiveOrder {
    type V = Map<u64, u64>;

    closed spec fn view(&self) -> Map<u64, u64> {
        self.offsets@
    }
}

impl ReceiveOrder {
    /// No stream is known.
    pub fn new() -> (o: ReceiveOrder)
        ensures
            o@ == Map::<u64, u64>::empty(),
    {
        let o = ReceiveOrder { offsets: no_offsets() };
        assert(o@ =~= Map::<u64, u64>::empty());
        o
    }

    /// Take note of `len` octets of data at `offset`, unless they are out of order.
    pub fn advance(&mut self, id: StreamId, offset: u64, len: usize, fin: bool) -> (ok: bool)
        ensures
            ok == (offset == expected_offset(old(self)@, id)),
            final(self)@ == (if ok {
                offsets_after(old(self)@, id, len as nat, fin)
            } else {
                old(self)@
            }),
    {
        let key: u64 = id.0.into_inner();
        let expected: u64 = match get_offset(&self.offsets, key) {
            Some(expected) => expected,
            None => 0,
        };
        if offset != expected {
            return false;
        }
        if fin {
            remove_offset(&mut self.offsets, key);
        } else {
            set_offset(&mut self.offsets, key, expected.saturating_add(len as u64));
        }
        true
    }

    /// The stream was reset: its data ended.
    pub fn forget(&mut self, id: StreamId)
        ensures
            final(self)@ == old(self)@.remove(id.0.value()),
    {
        remove_offset(&mut self.offsets, id.0.into_inner());
    }
}

/// Data that continues where the last data of its stream ended is in order, and nothing else
/// is.
pub proof fn law_contiguous(offsets: Map<u64, u64>, id: StreamId, len: nat, offset: u64)
    requires
        expected_offset(offsets, id) + len <= u64::MAX,
    ensures
        offset == expected_offset(offsets_after(offsets, id, len, false), id) <==> offset
            == expected_offset(offsets, id) + len,
{
}

/// What arrives on one stream has no bearing on where another must go on.
pub proof fn law_streams_independent(
    offsets: Map<u64, u64>,
    id: StreamId,
    other: StreamId,
    len: nat,
    fin: bool,
)
    requires
        id != other,
    ensures
        expected_offset(offsets_after(offsets, id, len, fin), other) == expected_offset(
            offsets,
            other,
        ),
{
    assert(id.0.value() != other.0.value()) by {
        crate::varint::VarInt::lemma_value_of(id.0);
        crate::varint::VarInt::lemma_value_of(other.0);
    }
}

/// After the end of a stream was received, its data must not go on: the only offset accepted
/// is zero, which contradicts the final size of a stream that carried anything.
pub proof fn law_data_after_end(offsets: Map<u64, u64>, id: StreamId, len: nat, offset: u64)
    ensures
        offset == expected_offset(offsets_after(offsets, id, len, true), id) <==> offset == 0,
{
}

} // verus!
