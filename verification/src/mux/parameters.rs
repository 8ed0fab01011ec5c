//! QMux and stream-related transport parameters.

use crate::buffer::{from_vec, get_varint, octets, take_varint};
use crate::mux::error::Error;
use crate::mux::DEFAULT_MAX_RECORD_SIZE;
use crate::proto::params::{forbidden, MAX_RECORD_SIZE};
use crate::streams::reliable;
use crate::transport_parameters::{
    find_integer, integer, lemma_integer_said, lemma_lone_varint, lemma_present,
    lemma_split_written, lemma_value_absent, lemma_value_at, lone_varint, nonzero, occurs, present,
    read_parameters, says, split, value_of, views, well_formed, write_integer,
    written, Parameter, Table, INITIAL_MAX_DATA, INITIAL_MAX_STREAMS_BIDI, INITIAL_MAX_STREAMS_UNI,
    INITIAL_MAX_STREAM_DATA_BIDI_LOCAL, INITIAL_MAX_STREAM_DATA_BIDI_REMOTE,
    INITIAL_MAX_STREAM_DATA_UNI, MAX_DATAGRAM_FRAME_SIZE, MAX_IDLE_TIMEOUT, MAX_STREAM_COUNT,
};
use crate::varint::{encoding, group_varint, VarInt, VARINT_BOUND};
use bytes::Bytes;
use std::collections::HashSet;
use vstd::prelude::*;

verus! {

broadcast use {group_varint, vstd::std_specs::hash::group_hash_axioms};

/// QMux and stream-related transport parameters.
#[derive(Debug, Copy, Clone, Eq, PartialEq, Structural)]
#[non_exhaustive]
pub struct Parameters {
    /// Maximum idle timeout in milliseconds, or zero for no idle timeout.
    pub max_idle_timeout: VarInt,
    /// Initial connection-level stream-data credit.
    pub initial_max_data: VarInt,
    /// Initial stream-data credit for locally initiated bidirectional streams.
    pub initial_max_stream_data_bidi_local: VarInt,
    /// Initial stream-data credit for remotely initiated bidirectional streams.
    pub initial_max_stream_data_bidi_remote: VarInt,
    /// Initial stream-data credit for unidirectional streams.
    pub initial_max_stream_data_uni: VarInt,
    /// Initial number of bidirectional streams the peer may initiate.
    pub initial_max_streams_bidi: VarInt,
    /// Initial number of unidirectional streams the peer may initiate.
    pub initial_max_streams_uni: VarInt,
    /// Largest encoded DATAGRAM frame accepted, or zero when unsupported.
    pub max_datagram_frame_size: VarInt,
    /// Largest QMux Frames field accepted in one record.
    pub max_record_size: VarInt,
}

/// The parameters of an endpoint that announces none.
pub open spec fn default_parameters() -> Parameters {
    Parameters {
        max_idle_timeout: VarInt::of(0),
        initial_max_data: VarInt::of(0),
        initial_max_stream_data_bidi_local: VarInt::of(0),
        initial_max_stream_data_bidi_remote: VarInt::of(0),
        initial_max_stream_data_uni: VarInt::of(0),
        initial_max_streams_bidi: VarInt::of(0),
        initial_max_streams_uni: VarInt::of(0),
        max_datagram_frame_size: VarInt::of(0),
        max_record_size: VarInt::of(DEFAULT_MAX_RECORD_SIZE),
    }
}

/// The parameters that concern streams.
pub open spec fn stream_parameters(p: Parameters) -> reliable::Parameters {
    reliable::Parameters {
        initial_max_data: p.initial_max_data,
        initial_max_stream_data_bidi_local: p.initial_max_stream_data_bidi_local,
        initial_max_stream_data_bidi_remote: p.initial_max_stream_data_bidi_remote,
        initial_max_stream_data_uni: p.initial_max_stream_data_uni,
        initial_max_streams_bidi: p.initial_max_streams_bidi,
        initial_max_streams_uni: p.initial_max_streams_uni,
    }
}

/// What makes parameters invalid: records that are too small, or more streams than can exist.
pub open spec fn invalid(p: Parameters) -> Option<Error<Seq<char>>> {
    if p.max_record_size.value() < DEFAULT_MAX_RECORD_SIZE {
        Some(Error::TransportParameter("max_record_size is smaller than the draft default"))
    } else if p.initial_max_streams_bidi.value() > MAX_STREAM_COUNT
        || p.initial_max_streams_uni.value() > MAX_STREAM_COUNT {
        Some(Error::TransportParameter("initial_max_streams exceeds the QUIC limit"))
    } else {
        None
    }
}

/// The parameters to write: each that is neither zero nor its default.
pub open spec fn parameter_table(p: Parameters) -> Table {
    seq![
        (MAX_IDLE_TIMEOUT, nonzero(p.max_idle_timeout)),
        (INITIAL_MAX_DATA, nonzero(p.initial_max_data)),
        (INITIAL_MAX_STREAM_DATA_BIDI_LOCAL, nonzero(p.initial_max_stream_data_bidi_local)),
        (INITIAL_MAX_STREAM_DATA_BIDI_REMOTE, nonzero(p.initial_max_stream_data_bidi_remote)),
        (INITIAL_MAX_STREAM_DATA_UNI, nonzero(p.initial_max_stream_data_uni)),
        (INITIAL_MAX_STREAMS_BIDI, nonzero(p.initial_max_streams_bidi)),
        (INITIAL_MAX_STREAMS_UNI, nonzero(p.initial_max_streams_uni)),
        (MAX_DATAGRAM_FRAME_SIZE, nonzero(p.max_datagram_frame_size)),
        (
            MAX_RECORD_SIZE,
            if p.max_record_size.value() == DEFAULT_MAX_RECORD_SIZE {
                None
            } else {
                nonzero(p.max_record_size)
            },
        ),
    ]
}

/// Whether the identifier is one of those above.
pub open spec fn known(id: u64) -> bool {
    id == 0x01 || 0x04 <= id <= 0x09 || id == 0x20 || id == MAX_RECORD_SIZE
}

/// What is wrong with the parameter at position `i`. Unknown ones may hold anything and occur
/// repeatedly.
pub open spec fn fault_at(params: Seq<Parameter<Seq<u8>>>, i: int) -> Option<&'static str> {
    let id = params[i].id.value();
    if forbidden(id) {
        Some("prohibited QUIC v1 parameter")
    } else if !known(id) {
        None
    } else if occurs(params, i, id) {
        Some("duplicate parameter")
    } else {
        match take_varint(params[i].value) {
            None => Some("malformed parameter value"),
            Some((v, rest)) => if rest.len() > 0 {
                Some("parameter value has trailing bytes")
            } else {
                None
            },
        }
    }
}

/// What is wrong with the earliest faulty one of the first `n` parameters.
pub open spec fn first_fault(params: Seq<Parameter<Seq<u8>>>, n: int) -> Option<&'static str>
    decreases n,
{
    if n <= 0 {
        None
    } else {
        match first_fault(params, n - 1) {
            Some(reason) => Some(reason),
            None => fault_at(params, n - 1),
        }
    }
}

/// The parameters that a faultless list holds.
pub open spec fn parameter_values(params: Seq<Parameter<Seq<u8>>>) -> Parameters {
    let zero = VarInt::of(0);
    Parameters {
        max_idle_timeout: integer(params, MAX_IDLE_TIMEOUT, zero)->0,
        initial_max_data: integer(params, INITIAL_MAX_DATA, zero)->0,
        initial_max_stream_data_bidi_local: integer(
            params,
            INITIAL_MAX_STREAM_DATA_BIDI_LOCAL,
            zero,
        )->0,
        initial_max_stream_data_bidi_remote: integer(
            params,
            INITIAL_MAX_STREAM_DATA_BIDI_REMOTE,
            zero,
        )->0,
        initial_max_stream_data_uni: integer(params, INITIAL_MAX_STREAM_DATA_UNI, zero)->0,
        initial_max_streams_bidi: integer(params, INITIAL_MAX_STREAMS_BIDI, zero)->0,
        initial_max_streams_uni: integer(params, INITIAL_MAX_STREAMS_UNI, zero)->0,
        max_datagram_frame_size: integer(params, MAX_DATAGRAM_FRAME_SIZE, zero)->0,
        max_record_size: integer(
            params,
            MAX_RECORD_SIZE,
            VarInt::of(DEFAULT_MAX_RECORD_SIZE),
        )->0,
    }
}

/// What the octets of a QX_TRANSPORT_PARAMETERS frame announce.
pub open spec fn announced(s: Seq<u8>) -> Result<Parameters, Error<Seq<char>>> {
    let params = split(s).0;
    match first_fault(params, params.len() as int) {
        Some(reason) => Err(Error::TransportParameter(reason)),
        None => if split(s).1 is Some {
            Err(Error::TransportParameter("malformed parameter"))
        } else {
            let p = parameter_values(params);
            match invalid(p) {
                Some(e) => Err(e),
                None => Ok(p),
            }
        },
    }
}

/// Every integer is below 2^62.
pub open spec fn encodable(p: Parameters) -> bool {
    &&& p.max_idle_timeout.value() < VARINT_BOUND
    &&& p.initial_max_data.value() < VARINT_BOUND
    &&& p.initial_max_stream_data_bidi_local.value() < VARINT_BOUND
    &&& p.initial_max_stream_data_bidi_remote.value() < VARINT_BOUND
    &&& p.initial_max_stream_data_uni.value() < VARINT_BOUND
    &&& p.initial_max_streams_bidi.value() < VARINT_BOUND
    &&& p.initial_max_streams_uni.value() < VARINT_BOUND
    &&& p.max_datagram_frame_size.value() < VARINT_BOUND
    &&& p.max_record_size.value() < VARINT_BOUND
}

impl Default for Parameters {
    /// The parameters of an endpoint that announces none.
    fn default() -> (p: Parameters)
        ensures
            p == default_parameters(),
    {
        let zero = VarInt::from_u32(0);
        Parameters {
            max_idle_timeout: zero,
            initial_max_data: zero,
            initial_max_stream_data_bidi_local: zero,
            initial_max_stream_data_bidi_remote: zero,
            initial_max_stream_data_uni: zero,
            initial_max_streams_bidi: zero,
            initial_max_streams_uni: zero,
            max_datagram_frame_size: zero,
            max_record_size: VarInt::from_u32(16_382),
        }
    }
}

/// A fault behind faultless parameters is the first.
proof fn lemma_first_fault(params: Seq<Parameter<Seq<u8>>>, i: int, n: int)
    requires
        0 <= i < n,
        first_fault(params, i) is None,
        fault_at(params, i) is Some,
    ensures
        first_fault(params, n) == fault_at(params, i),
    decreases n,
{
    if n > i + 1 {
        lemma_first_fault(params, i, n - 1);
    }
}

proof fn lemma_faultless(params: Seq<Parameter<Seq<u8>>>, n: int)
    requires
        0 <= n <= params.len(),
    ensures
        first_fault(params, n) is None <==> forall|i: int|
            0 <= i < n ==> #[trigger] fault_at(params, i) is None,
    decreases n,
{
    if n > 0 {
        lemma_faultless(params, n - 1);
        if first_fault(params, n - 1) is None {
            assert(fault_at(params, n - 1) is None <==> first_fault(params, n) is None);
        } else {
            let i = choose|i: int| 0 <= i < n - 1 && #[trigger] fault_at(params, i) is Some;
            assert(fault_at(params, i) is Some);
        }
    }
}

/// In a faultless list the value of a known parameter is an integer.
proof fn lemma_readable(params: Seq<Parameter<Seq<u8>>>, n: int, id: u64)
    requires
        0 <= n <= params.len(),
        known(id),
        forall|i: int| 0 <= i < n ==> #[trigger] fault_at(params, i) is None,
    ensures
        value_of(params, n, id) matches Some(v) ==> lone_varint(v) is Some,
    decreases n,
{
    if n > 0 {
        assert(fault_at(params, n - 1) is None);
        lemma_readable(params, n - 1, id);
    }
}

fn is_known(id: u64) -> (b: bool)
    ensures
        b == known(id),
{
    matches!(id, 0x01 | 0x04..=0x09 | 0x20 | MAX_RECORD_SIZE)
}

/// Look at one value.
fn check_value(value: &Bytes) -> (r: Option<&'static str>)
    ensures
        r == (match take_varint(octets(*value)) {
            None => Some("malformed parameter value"),
            Some((v, rest)) => if rest.len() > 0 {
                Some("parameter value has trailing bytes")
            } else {
                None
            },
        }),
{
    let mut rest = value.clone();
    match get_varint(&mut rest) {
        None => Some("malformed parameter value"),
        Some(_) => if rest.len() > 0 {
            Some("parameter value has trailing bytes")
        } else {
            None
        },
    }
}

/// Look for the earliest fault.
fn check(params: &Vec<Parameter>) -> (r: Option<&'static str>)
    ensures
        r == first_fault(views(params@), params@.len() as int),
{
    let ghost list = views(params@);
    let mut seen: HashSet<u64> = HashSet::new();
    let mut i: usize = 0;
    while i < params.len()
        invariant
            i <= params.len(),
            list == views(params@),
            first_fault(list, i as int) is None,
            forall|id: u64|
                #[trigger] seen@.contains(id) <==> known(id) && occurs(list, i as int, id),
        decreases params.len() - i,
    {
        assert(list[i as int] == params@[i as int]@);
        let id: u64 = params[i].id.into_inner();
        let ghost before = seen@;
        if matches!(id, 0x00 | 0x02 | 0x03 | 0x0a..=0x10) {
            proof {
                lemma_first_fault(list, i as int, list.len() as int);
            }
            return Some("prohibited QUIC v1 parameter");
        }
        if is_known(id) {
            if !seen.insert(id) {
                proof {
                    lemma_first_fault(list, i as int, list.len() as int);
                }
                return Some("duplicate parameter");
            }
            if let Some(reason) = check_value(&params[i].value) {
                proof {
                    lemma_first_fault(list, i as int, list.len() as int);
                }
                return Some(reason);
            }
        }
        proof {
            assert forall|x: u64| #[trigger] seen@.contains(x) <==> known(x) && occurs(
                list,
                i + 1,
                x,
            ) by {
                assert(seen@ == if known(id) {
                    before.insert(id)
                } else {
                    before
                });
                if occurs(list, i as int, x) {
                    let k = choose|k: int| 0 <= k < i && (#[trigger] list[k]).id.value() == x;
                    assert(0 <= k < i + 1 && list[k].id.value() == x);
                }
                if occurs(list, i + 1, x) && x != id {
                    let k = choose|k: int| 0 <= k < i + 1 && (#[trigger] list[k]).id.value() == x;
                    assert(0 <= k < i && list[k].id.value() == x);
                }
                if x == id {
                    assert(0 <= i < i + 1 && list[i as int].id.value() == x);
                }
            }
        }
        i += 1;
    }
    None
}

/// The integer that a known parameter of a faultless list holds.
fn known_integer(params: &Vec<Parameter>, id: u64, default: VarInt) -> (v: VarInt)
    requires
        known(id),
        forall|i: int|
            0 <= i < params@.len() ==> #[trigger] fault_at(views(params@), i) is None,
    ensures
        Some(v) == integer(views(params@), id, default),
{
    proof {
        lemma_readable(views(params@), params@.len() as int, id);
    }
    match find_integer(params, id, default) {
        Some(v) => v,
        None => default,
    }
}

/// Append a parameter unless its value is zero or it is to be omitted.
fn encode_parameter(
    out: &mut Vec<u8>,
    id: u64,
    value: VarInt,
    omit: bool,
    Ghost(t): Ghost<Table>,
)
    requires
        id < VARINT_BOUND,
        old(out)@ == written(t),
    ensures
        final(out)@ == written(
            t.push(
                (
                    id,
                    if omit {
                        None
                    } else {
                        nonzero(value)
                    },
                ),
            ),
        ),
{
    let present = if value.into_inner() == 0 || omit {
        None
    } else {
        Some(value)
    };
    write_integer(out, id, present, Ghost(t));
}

impl Parameters {
    /// The parameters that concern streams.
    pub fn streams(self) -> (p: reliable::Parameters)
        ensures
            p == stream_parameters(self),
    {
        reliable::Parameters {
            initial_max_data: self.initial_max_data,
            initial_max_stream_data_bidi_local: self.initial_max_stream_data_bidi_local,
            initial_max_stream_data_bidi_remote: self.initial_max_stream_data_bidi_remote,
            initial_max_stream_data_uni: self.initial_max_stream_data_uni,
            initial_max_streams_bidi: self.initial_max_streams_bidi,
            initial_max_streams_uni: self.initial_max_streams_uni,
        }
    }

    /// Check the limits that QMux and QUIC set.
    pub fn validate(&self) -> (r: Result<(), Error>)
        ensures
            match invalid(*self) {
                Some(e) => r is Err && r->Err_0@ == e,
                None => r is Ok,
            },
    {
        if self.max_record_size.into_inner() < DEFAULT_MAX_RECORD_SIZE {
            return Err(
                Error::TransportParameter("max_record_size is smaller than the draft default"),
            );
        }
        if self.initial_max_streams_bidi.into_inner() > MAX_STREAM_COUNT
            || self.initial_max_streams_uni.into_inner() > MAX_STREAM_COUNT {
            return Err(Error::TransportParameter("initial_max_streams exceeds the QUIC limit"));
        }
        Ok(())
    }

    /// The octets of a QX_TRANSPORT_PARAMETERS frame.
    pub fn encode(&self) -> (r: Result<Bytes, Error>)
        ensures
            r is Ok && octets(r->Ok_0) == written(parameter_table(*self)),
    {
        let mut out: Vec<u8> = Vec::new();
        let ghost t: Table = parameter_table(*self);
        assert(t.take(0) =~= Seq::empty());
        assert(out@ =~= written(t.take(0)));
        encode_parameter(&mut out, MAX_IDLE_TIMEOUT, self.max_idle_timeout, false, Ghost(t.take(0)));
        assert(t.take(0).push(t[0]) =~= t.take(1));
        encode_parameter(&mut out, INITIAL_MAX_DATA, self.initial_max_data, false, Ghost(t.take(1)));
        assert(t.take(1).push(t[1]) =~= t.take(2));
        encode_parameter(
            &mut out,
            INITIAL_MAX_STREAM_DATA_BIDI_LOCAL,
            self.initial_max_stream_data_bidi_local,
            false,
            Ghost(t.take(2)),
        );
        assert(t.take(2).push(t[2]) =~= t.take(3));
        encode_parameter(
            &mut out,
            INITIAL_MAX_STREAM_DATA_BIDI_REMOTE,
            self.initial_max_stream_data_bidi_remote,
            false,
            Ghost(t.take(3)),
        );
        assert(t.take(3).push(t[3]) =~= t.take(4));
        encode_parameter(
            &mut out,
            INITIAL_MAX_STREAM_DATA_UNI,
            self.initial_max_stream_data_uni,
            false,
            Ghost(t.take(4)),
        );
        assert(t.take(4).push(t[4]) =~= t.take(5));
        encode_parameter(
            &mut out,
            INITIAL_MAX_STREAMS_BIDI,
            self.initial_max_streams_bidi,
            false,
            Ghost(t.take(5)),
        );
        assert(t.take(5).push(t[5]) =~= t.take(6));
        encode_parameter(
            &mut out,
            INITIAL_MAX_STREAMS_UNI,
            self.initial_max_streams_uni,
            false,
            Ghost(t.take(6)),
        );
        assert(t.take(6).push(t[6]) =~= t.take(7));
        encode_parameter(
            &mut out,
            MAX_DATAGRAM_FRAME_SIZE,
            self.max_datagram_frame_size,
            false,
            Ghost(t.take(7)),
        );
        assert(t.take(7).push(t[7]) =~= t.take(8));
        encode_parameter(
            &mut out,
            MAX_RECORD_SIZE,
            self.max_record_size,
            self.max_record_size.into_inner() == DEFAULT_MAX_RECORD_SIZE,
            Ghost(t.take(8)),
        );
        assert(t.take(8).push(t[8]) =~= t);
        Ok(from_vec(out))
    }

    /// Read the octets of a QX_TRANSPORT_PARAMETERS frame.
    pub fn decode(data: Bytes) -> (r: Result<Parameters, Error>)
        ensures
            match announced(octets(data)) {
                Ok(p) => r is Ok && r->Ok_0 == p,
                Err(e) => r is Err && r->Err_0@ == e,
            },
    {
        let (params, flaw) = read_parameters(data);
        let ghost list = views(params@);
        assert(list.len() == params@.len());
        if let Some(reason) = check(&params) {
            return Err(Error::TransportParameter(reason));
        }
        if flaw.is_some() {
            return Err(Error::TransportParameter("malformed parameter"));
        }
        proof {
            lemma_faultless(list, list.len() as int);
        }
        let zero = VarInt::from_u32(0);
        let result = Parameters {
            max_idle_timeout: known_integer(&params, MAX_IDLE_TIMEOUT, zero),
            initial_max_data: known_integer(&params, INITIAL_MAX_DATA, zero),
            initial_max_stream_data_bidi_local: known_integer(
                &params,
                INITIAL_MAX_STREAM_DATA_BIDI_LOCAL,
                zero,
            ),
            initial_max_stream_data_bidi_remote: known_integer(
                &params,
                INITIAL_MAX_STREAM_DATA_BIDI_REMOTE,
                zero,
            ),
            initial_max_stream_data_uni: known_integer(&params, INITIAL_MAX_STREAM_DATA_UNI, zero),
            initial_max_streams_bidi: known_integer(&params, INITIAL_MAX_STREAMS_BIDI, zero),
            initial_max_streams_uni: known_integer(&params, INITIAL_MAX_STREAMS_UNI, zero),
            max_datagram_frame_size: known_integer(&params, MAX_DATAGRAM_FRAME_SIZE, zero),
            max_record_size: known_integer(&params, MAX_RECORD_SIZE, VarInt::from_u32(16_382)),
        };
        match result.validate() {
            Ok(()) => Ok(result),
            Err(e) => Err(e),
        }
    }
}

/// The record size that is announced can be announced.
pub proof fn lemma_announced_record_size(s: Seq<u8>)
    ensures
        announced(s) matches Ok(p) ==> p.max_record_size.in_range(),
{
    let params = split(s).0;
    let n = params.len() as int;
    lemma_faultless(params, n);
    if announced(s) is Ok {
        lemma_readable(params, n, MAX_RECORD_SIZE);
        if let Some(value) = value_of(params, n, MAX_RECORD_SIZE) {
            crate::varint::law_decoded_range(value);
        }
    }
}

/// Valid parameters come out of their encoding as they went in.
pub proof fn law_round_trip(p: Parameters)
    requires
        encodable(p),
        invalid(p) is None,
    ensures
        announced(written(parameter_table(p))) == Ok::<Parameters, Error<Seq<char>>>(p),
{
    let t = parameter_table(p);
    assert(t[0].0 == 0x01 && t[1].0 == 0x04 && t[2].0 == 0x05 && t[3].0 == 0x06 && t[4].0 == 0x07
        && t[5].0 == 0x08 && t[6].0 == 0x09 && t[7].0 == 0x20 && t[8].0 == MAX_RECORD_SIZE);
    assert(well_formed(t));
    let params = present(t);
    lemma_split_written(t);
    lemma_present(t);
    lemma_lone_varint(p.max_idle_timeout.value());
    lemma_lone_varint(p.initial_max_data.value());
    lemma_lone_varint(p.initial_max_stream_data_bidi_local.value());
    lemma_lone_varint(p.initial_max_stream_data_bidi_remote.value());
    lemma_lone_varint(p.initial_max_stream_data_uni.value());
    lemma_lone_varint(p.initial_max_streams_bidi.value());
    lemma_lone_varint(p.initial_max_streams_uni.value());
    lemma_lone_varint(p.max_datagram_frame_size.value());
    lemma_lone_varint(p.max_record_size.value());
    assert forall|i: int| 0 <= i < params.len() implies #[trigger] fault_at(params, i) is None by {
        let k = choose|k: int|
            0 <= k < t.len() && (#[trigger] t[k]).0 == params[i].id.value() && t[k].1 is Some
                && params[i].value == encoding(t[k].1->0.value());
        assert(!forbidden(t[k].0));
        lemma_lone_varint(t[k].1->0.value());
    }
    lemma_faultless(params, params.len() as int);
    assert(parameter_values(params) == p);
}

/// Parameters are accepted exactly where the list is complete, none is prohibited, none that
/// is known occurs twice or has a malformed value, and the limits are kept.
pub proof fn law_accepted_exactly(s: Seq<u8>)
    ensures
        announced(s) is Ok <==> {
            let params = split(s).0;
            &&& split(s).1 is None
            &&& forall|i: int| 0 <= i < params.len() ==> #[trigger] fault_at(params, i) is None
            &&& invalid(parameter_values(params)) is None
        },
{
    lemma_faultless(split(s).0, split(s).0.len() as int);
}

/// Whether an identifier is that of a parameter read here.
spec fn relevant(id: u64) -> bool {
    id == 0x01 || 0x04 <= id <= 0x09 || id == 0x20 || id == 0x0571_c594_29cd_0845
}

/// In a faultless list a parameter that is read here occurs at most once.
proof fn lemma_once(params: Seq<Parameter<Seq<u8>>>, id: u64)
    requires
        relevant(id),
        forall|i: int| 0 <= i < params.len() ==> #[trigger] fault_at(params, i) is None,
    ensures
        forall|i: int, j: int|
            0 <= i < j < params.len() && (#[trigger] params[i]).id.value() == id ==> (
            #[trigger] params[j]).id.value() != id,
{
    assert forall|i: int, j: int|
        0 <= i < j < params.len() && (#[trigger] params[i]).id.value() == id implies (
    #[trigger] params[j]).id.value() != id by {
        assert(fault_at(params, j) is None);
    }
}

/// Each parameter is what the peer says under its identifier, whatever else the list holds: zero,
/// or the default size of records, where it says nothing.
pub proof fn law_parameters_by_identifier(s: Seq<u8>)
    requires
        announced(s) is Ok,
    ensures
        ({
            let params = split(s).0;
            let p = announced(s)->Ok_0;
            &&& says(params, 0x01, p.max_idle_timeout, 0)
            &&& says(params, 0x04, p.initial_max_data, 0)
            &&& says(params, 0x05, p.initial_max_stream_data_bidi_local, 0)
            &&& says(params, 0x06, p.initial_max_stream_data_bidi_remote, 0)
            &&& says(params, 0x07, p.initial_max_stream_data_uni, 0)
            &&& says(params, 0x08, p.initial_max_streams_bidi, 0)
            &&& says(params, 0x09, p.initial_max_streams_uni, 0)
            &&& says(params, 0x20, p.max_datagram_frame_size, 0)
            &&& says(params, 0x0571_c594_29cd_0845, p.max_record_size, 16382)
        }),
{
    let params = split(s).0;
    let n = params.len() as int;
    let zero = VarInt::of(0);
    lemma_faultless(params, n);
    lemma_found(params, 0x01, zero);
    lemma_found(params, 0x04, zero);
    lemma_found(params, 0x05, zero);
    lemma_found(params, 0x06, zero);
    lemma_found(params, 0x07, zero);
    lemma_found(params, 0x08, zero);
    lemma_found(params, 0x09, zero);
    lemma_found(params, 0x20, zero);
    lemma_found(params, 0x0571_c594_29cd_0845, VarInt::of(16382));
}

proof fn lemma_found(params: Seq<Parameter<Seq<u8>>>, id: u64, default: VarInt)
    requires
        relevant(id),
        forall|i: int| 0 <= i < params.len() ==> #[trigger] fault_at(params, i) is None,
    ensures
        integer(params, id, default) is Some,
        says(params, id, integer(params, id, default)->0, default.value()),
{
    lemma_readable(params, params.len() as int, id);
    lemma_once(params, id);
    lemma_integer_said(params, id, default);
}

/// Whether a parameter is not acceptable whatever the others are.
pub open spec fn improper_parameter(p: Parameter<Seq<u8>>) -> bool {
    let id = p.id.value();
    ||| id == 0x00 || id == 0x02 || id == 0x03 || 0x0a <= id <= 0x10
    ||| (id == 0x01 || 0x04 <= id <= 0x09 || id == 0x20 || id == 0x0571_c594_29cd_0845) && match lone_varint(
        p.value,
    ) {
        None => true,
        Some(v) => {
            ||| (id == 0x08 || id == 0x09) && v.value() > 0x1000_0000_0000_0000
            ||| id == 0x0571_c594_29cd_0845 && v.value() < 16382
        },
    }
}

/// A list is refused, as a fault in transport parameters, where it names a parameter that belongs
/// to packets, names one that is read here twice, does not end with a parameter, accepts only
/// records smaller than the default, permits more streams than can be numbered, or gives one that
/// is read here as anything but a single integer; and for no other reason. Unknown parameters may
/// hold anything and occur repeatedly.
pub proof fn law_refused_parameters(s: Seq<u8>)
    ensures
        ({
            let params = split(s).0;
            let improper = exists|i: int| 0 <= i < params.len() && improper_parameter(#[trigger] params[i]);
            let repeated = exists|i: int, j: int| #[trigger] repeats(params, i, j);
            &&& announced(s) is Err <==> improper || repeated || split(s).1 is Some
            &&& announced(s) matches Err(e) ==> e is TransportParameter
        }),
{
    let params = split(s).0;
    let n = params.len() as int;
    lemma_faultless(params, n);
    if announced(s) is Ok {
        law_parameters_by_identifier(s);
        assert forall|i: int| 0 <= i < n implies !improper_parameter(#[trigger] params[i]) by {
            assert(fault_at(params, i) is None);
        }
        assert forall|i: int, j: int| !(#[trigger] repeats(params, i, j)) by {
            if 0 <= i < j < n {
                assert(fault_at(params, j) is None);
            }
        }
    } else if split(s).1 is None {
        if forall|i: int| 0 <= i < n ==> !improper_parameter(#[trigger] params[i]) {
            if forall|i: int, j: int| !(#[trigger] repeats(params, i, j)) {
                assert forall|j: int| 0 <= j < n implies #[trigger] fault_at(params, j) is None by {
                    let id = params[j].id.value();
                    assert(!improper_parameter(params[j]));
                    if occurs(params, j, id) {
                        let i = choose|i: int| 0 <= i < j && (#[trigger] params[i]).id.value() == id;
                        assert(!repeats(params, i, j));
                    }
                }
                lemma_within(params, 0x08, VarInt::of(0));
                lemma_within(params, 0x09, VarInt::of(0));
                lemma_within(params, 0x0571_c594_29cd_0845, VarInt::of(16382));
            }
        }
    }
}

/// Whether a parameter that is read here occurs at both of two places.
pub open spec fn repeats(params: Seq<Parameter<Seq<u8>>>, i: int, j: int) -> bool {
    let id = params[i].id.value();
    &&& 0 <= i < j < params.len()
    &&& params[j].id.value() == id
    &&& id == 0x01 || 0x04 <= id <= 0x09 || id == 0x20 || id == 0x0571_c594_29cd_0845
}

/// What is found under an identifier is the default or what a parameter holds.
proof fn lemma_within(params: Seq<Parameter<Seq<u8>>>, id: u64, default: VarInt)
    requires
        relevant(id),
        forall|i: int| 0 <= i < params.len() ==> #[trigger] fault_at(params, i) is None,
    ensures
        integer(params, id, default) == Some(default) || exists|i: int|
            0 <= i < params.len() && (#[trigger] params[i]).id.value() == id && lone_varint(
                params[i].value,
            ) == integer(params, id, default),
{
    let n = params.len() as int;
    lemma_once(params, id);
    lemma_value_absent(params, n, id);
    if occurs(params, n, id) {
        let i = choose|i: int| 0 <= i < n && (#[trigger] params[i]).id.value() == id;
        lemma_value_at(params, n, i, id);
    }
}

/// Parameters are valid exactly where records of the default size are accepted and no more streams
/// are permitted than can be numbered.
pub proof fn law_validity(p: Parameters)
    ensures
        invalid(p) is None <==> {
            &&& 16382 <= p.max_record_size.value()
            &&& p.initial_max_streams_bidi.value() <= 0x1000_0000_0000_0000
            &&& p.initial_max_streams_uni.value() <= 0x1000_0000_0000_0000
        },
        invalid(p) matches Some(e) ==> e is TransportParameter,
{
}

/// An endpoint that announces nothing has the default parameters, and the default parameters are
/// announced by nothing.
pub proof fn law_defaults_encode_empty()
    ensures
        announced(Seq::empty()) == Ok::<Parameters, Error<Seq<char>>>(default_parameters()),
        written(parameter_table(default_parameters())) == Seq::<u8>::empty(),
{
    let t = parameter_table(default_parameters());
    reveal_with_fuel(written, 10);
    assert(written(t) =~= Seq::<u8>::empty());
    law_round_trip(default_parameters());
}

} // verus!
