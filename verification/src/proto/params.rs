//! QMux transport parameters.
//!
//! Carried in the QX_TRANSPORT_PARAMETERS frame. The wire format and the standard parameters
//! are those of QUIC version 1; this module adds the QMux policy: a list of prohibited
//! parameters, duplicate detection across all identifiers, and the QMux-specific
//! `max_record_size` parameter.

use crate::buffer::{append, octets};
use crate::stream_id::Side;
use crate::transport_error::{transport_error, TransportError, TRANSPORT_PARAMETER_ERROR};
use crate::transport_parameters::{
    encodable, find_integer, integer, lemma_integer_said, lemma_lone_varint, lemma_present,
    lemma_split_written, lemma_standard, lemma_value_absent, lemma_value_at, lone_varint, occurs,
    present, read_integer, read_parameters, says, split, standard, standard_table, too_many_streams, value_of, views, well_formed, write_integer, written, Error,
    Flaw, Parameter, Table, TransportParameters,
};
use crate::varint::{encoding, group_varint, VarInt, VARINT_BOUND};
use bytes::Bytes;
use std::collections::HashSet;
use vstd::prelude::*;

verus! {

broadcast use {group_varint, vstd::std_specs::hash::group_hash_axioms};

pub const MAX_RECORD_SIZE: u64 = 0x0571_c594_29cd_0845;

/// Default and minimum value of `max_record_size` (16 KiB minus a 2-octet size prefix).
pub const DEFAULT_MAX_RECORD_SIZE: u64 = 16382;

/// The transport parameters QMux endpoints exchange.
#[derive(Debug, Clone, Copy, PartialEq, Eq, Structural)]
pub struct QmuxParams {
    /// The standard parameters (flow control, stream limits, idle timeout, datagrams).
    pub tp: TransportParameters,
    /// Largest record Size field the peer may use in records it sends to us.
    pub max_record_size: VarInt,
}

/// The parameters of QUIC version 1 that QMux prohibits: those on connection identifiers,
/// packets, acknowledgments, tokens and migration.
pub open spec fn forbidden(id: u64) -> bool {
    id == 0x00 || id == 0x02 || id == 0x03 || 0x0a <= id <= 0x10
}

/// The parameters are not acceptable.
pub open spec fn parameter_error(reason: Seq<char>) -> TransportError<Seq<char>> {
    transport_error(TRANSPORT_PARAMETER_ERROR, reason)
}

/// What is wrong with the parameter at position `i`.
pub open spec fn fault_at(params: Seq<Parameter<Seq<u8>>>, i: int) -> Option<Seq<char>> {
    let id = params[i].id.value();
    if forbidden(id) {
        Some("prohibited QUIC v1 transport parameter"@)
    } else if occurs(params, i, id) {
        Some("duplicate transport parameter"@)
    } else if id == MAX_RECORD_SIZE && lone_varint(params[i].value) is None {
        Some("malformed parameter value"@)
    } else {
        None
    }
}

/// What is wrong with the earliest faulty one of the first `n` parameters.
pub open spec fn first_fault(params: Seq<Parameter<Seq<u8>>>, n: int) -> Option<Seq<char>>
    decreases n,
{
    if n <= 0 {
        None
    } else {
        match first_fault(params, n - 1) {
            Some(reason) => Some(reason),
            None => fault_at(params, n - 1),
        }
    }
}

/// What a list that cannot be split is called.
pub open spec fn flaw_reason(flaw: Flaw) -> Seq<char> {
    match flaw {
        Flaw::TruncatedId => "truncated parameter id"@,
        Flaw::TruncatedLength => "truncated parameter length"@,
        Flaw::Oversized => "oversized parameter"@,
        Flaw::TruncatedValue => "truncated parameter value"@,
    }
}

/// What an invalid standard parameter is called.
pub open spec fn error_reason(e: Error) -> Seq<char> {
    match e {
        Error::Malformed => "malformed"@,
        Error::IllegalValue => "illegal value"@,
    }
}

/// What the octets of a QX_TRANSPORT_PARAMETERS frame announce.
pub open spec fn announced(s: Seq<u8>) -> Result<QmuxParams, TransportError<Seq<char>>> {
    let params = split(s).0;
    let default = VarInt::of(DEFAULT_MAX_RECORD_SIZE);
    match first_fault(params, params.len() as int) {
        Some(reason) => Err(parameter_error(reason)),
        None => match split(s).1 {
            Some(flaw) => Err(parameter_error(flaw_reason(flaw))),
            None => {
                let max_record_size = integer(params, MAX_RECORD_SIZE, default)->0;
                if max_record_size.value() < DEFAULT_MAX_RECORD_SIZE {
                    Err(parameter_error("max_record_size below the required minimum"@))
                } else {
                    match standard(params) {
                        Ok(tp) => Ok(QmuxParams { tp, max_record_size }),
                        Err(e) => Err(parameter_error(error_reason(e))),
                    }
                }
            },
        },
    }
}

/// The parameters to write: each that differs from its default.
pub open spec fn table(p: QmuxParams) -> Table {
    standard_table(p.tp).push(
        (
            MAX_RECORD_SIZE,
            if p.max_record_size.value() == DEFAULT_MAX_RECORD_SIZE {
                None
            } else {
                Some(p.max_record_size)
            },
        ),
    )
}

/// Whether an endpoint may announce these parameters.
pub open spec fn acceptable(p: QmuxParams) -> bool {
    &&& encodable(p.tp)
    &&& DEFAULT_MAX_RECORD_SIZE <= p.max_record_size.value() < VARINT_BOUND
    &&& !too_many_streams(p.tp)
}

fn is_forbidden(id: u64) -> (b: bool)
    ensures
        b == forbidden(id),
{
    matches!(id, 0x00 | 0x02 | 0x03 | 0x0a..=0x10)
}

fn err(reason: &str) -> (e: TransportError)
    ensures
        e@ == parameter_error(reason@),
{
    TransportError::new(TRANSPORT_PARAMETER_ERROR, reason)
}

/// Look for the earliest fault.
fn check(params: &Vec<Parameter>) -> (r: Result<(), TransportError>)
    ensures
        match first_fault(views(params@), params@.len() as int) {
            Some(reason) => r is Err && r->Err_0@ == parameter_error(reason),
            None => r is Ok,
        },
{
    let ghost list = views(params@);
    let mut seen: HashSet<u64> = HashSet::new();
    let mut i: usize = 0;
    while i < params.len()
        invariant
            i <= params.len(),
            list == views(params@),
            first_fault(list, i as int) is None,
            forall|id: u64| #[trigger] seen@.contains(id) <==> occurs(list, i as int, id),
        decreases params.len() - i,
    {
        assert(list[i as int] == params@[i as int]@);
        let id: u64 = params[i].id.into_inner();
        let ghost before = seen@;
        if is_forbidden(id) {
            proof {
                lemma_first_fault(list, i as int, list.len() as int);
            }
            return Err(err("prohibited QUIC v1 transport parameter"));
        }
        if !seen.insert(id) {
            proof {
                lemma_first_fault(list, i as int, list.len() as int);
            }
            return Err(err("duplicate transport parameter"));
        }
        if id == MAX_RECORD_SIZE && read_integer(&params[i].value).is_none() {
            proof {
                lemma_first_fault(list, i as int, list.len() as int);
            }
            return Err(err("malformed parameter value"));
        }
        proof {
            assert forall|x: u64| #[trigger] seen@.contains(x) <==> occurs(list, i + 1, x) by {
                assert(seen@ == before.insert(id));
                if occurs(list, i as int, x) {
                    let k = choose|k: int| 0 <= k < i && (#[trigger] list[k]).id.value() == x;
                    assert(0 <= k < i + 1 && list[k].id.value() == x);
                }
                if occurs(list, i + 1, x) && x != id {
                    let k = choose|k: int| 0 <= k < i + 1 && (#[trigger] list[k]).id.value() == x;
                    assert(0 <= k < i && list[k].id.value() == x);
                }
                if x == id {
                    assert(0 <= i < i + 1 && list[i as int].id.value() == x);
                }
            }
        }
        i += 1;
    }
    Ok(())
}

/// A fault behind faultless parameters is the first.
proof fn lemma_first_fault(params: Seq<Parameter<Seq<u8>>>, i: int, n: int)
    requires
        0 <= i < n,
        first_fault(params, i) is None,
        fault_at(params, i) is Some,
    ensures
        first_fault(params, n) == fault_at(params, i),
    decreases n,
{
    if n > i + 1 {
        lemma_first_fault(params, i, n - 1);
    }
}

proof fn lemma_faultless(params: Seq<Parameter<Seq<u8>>>, n: int)
    requires
        0 <= n <= params.len(),
    ensures
        first_fault(params, n) is None <==> forall|i: int|
            0 <= i < n ==> #[trigger] fault_at(params, i) is None,
    decreases n,
{
    if n > 0 {
        lemma_faultless(params, n - 1);
        if first_fault(params, n - 1) is None {
            assert(fault_at(params, n - 1) is None <==> first_fault(params, n) is None);
        } else {
            let i = choose|i: int| 0 <= i < n - 1 && #[trigger] fault_at(params, i) is Some;
            assert(fault_at(params, i) is Some);
        }
    }
}

impl QmuxParams {
    /// Append the parameters that differ from their defaults.
    pub fn encode(&self, buf: &mut Vec<u8>)
        ensures
            final(buf)@ == old(buf)@ + written(table(*self)),
    {
        let mut out: Vec<u8> = Vec::new();
        self.tp.write(&mut out);
        assert(out@ =~= written(standard_table(self.tp)));
        let record_size = if self.max_record_size.into_inner() != DEFAULT_MAX_RECORD_SIZE {
            Some(self.max_record_size)
        } else {
            None
        };
        write_integer(&mut out, MAX_RECORD_SIZE, record_size, Ghost(standard_table(self.tp)));
        append(buf, out.as_slice());
    }

    /// Read the parameters that the endpoint on the given side announced.
    ///
    /// The parameters that only one side may send are all prohibited, so that the side makes
    /// no difference.
    pub fn decode(_side: Side, blob: Bytes) -> (r: Result<QmuxParams, TransportError>)
        ensures
            match announced(octets(blob)) {
                Ok(p) => r is Ok && r->Ok_0 == p,
                Err(e) => r is Err && r->Err_0@ == e,
            },
    {
        let (params, flaw) = read_parameters(blob);
        let ghost list = views(params@);
        assert(list.len() == params@.len());
        match check(&params) {
            Ok(()) => {},
            Err(e) => return Err(e),
        }
        match flaw {
            Some(Flaw::TruncatedId) => return Err(err("truncated parameter id")),
            Some(Flaw::TruncatedLength) => return Err(err("truncated parameter length")),
            Some(Flaw::Oversized) => return Err(err("oversized parameter")),
            Some(Flaw::TruncatedValue) => return Err(err("truncated parameter value")),
            None => {},
        }
        proof {
            lemma_faultless(list, list.len() as int);
            lemma_record_size_readable(list, list.len() as int);
        }
        let default = VarInt::from_u32(16382);
        let max_record_size = match find_integer(&params, MAX_RECORD_SIZE, default) {
            Some(v) => v,
            None => default,
        };
        if max_record_size.into_inner() < DEFAULT_MAX_RECORD_SIZE {
            return Err(err("max_record_size below the required minimum"));
        }
        match TransportParameters::read(&params) {
            Ok(tp) => Ok(QmuxParams { tp, max_record_size }),
            Err(Error::Malformed) => Err(err("malformed")),
            Err(Error::IllegalValue) => Err(err("illegal value")),
        }
    }
}

/// In a faultless list the record size is an integer.
proof fn lemma_record_size_readable(params: Seq<Parameter<Seq<u8>>>, n: int)
    requires
        0 <= n <= params.len(),
        forall|i: int| 0 <= i < n ==> #[trigger] fault_at(params, i) is None,
    ensures
        value_of(params, n, MAX_RECORD_SIZE) matches Some(v) ==> lone_varint(v) is Some,
    decreases n,
{
    if n > 0 {
        assert(fault_at(params, n - 1) is None);
        lemma_record_size_readable(params, n - 1);
    }
}

/// An endpoint whose parameters are accepted takes records of the default size.
pub proof fn lemma_announced_record_size(s: Seq<u8>)
    ensures
        announced(s) matches Ok(p) ==> DEFAULT_MAX_RECORD_SIZE <= p.max_record_size.value()
            && p.max_record_size.in_range(),
{
    let params = split(s).0;
    let n = params.len() as int;
    lemma_faultless(params, n);
    if announced(s) is Ok {
        lemma_record_size_readable(params, n);
        if let Some(value) = value_of(params, n, MAX_RECORD_SIZE) {
            crate::varint::law_decoded_range(value);
        }
    }
}

/// Parameters that may be announced come out of their encoding as they went in.
pub proof fn law_round_trip(p: QmuxParams)
    requires
        acceptable(p),
    ensures
        announced(written(table(p))) == Ok::<QmuxParams, TransportError<Seq<char>>>(p),
{
    let t = table(p);
    assert(t.take(8) =~= standard_table(p.tp));
    assert(t[8] == t.last());
    assert forall|k: int| 0 <= k < 8 implies #[trigger] t[k] == standard_table(p.tp)[k] by {}
    assert(well_formed(t)) by {
        assert(t[0].0 == 0x01 && t[1].0 == 0x04 && t[2].0 == 0x05 && t[3].0 == 0x06 && t[4].0
            == 0x07 && t[5].0 == 0x08 && t[6].0 == 0x09 && t[7].0 == 0x20);
    }
    let params = present(t);
    lemma_split_written(t);
    lemma_present(t);
    lemma_standard(p.tp, t);
    lemma_lone_varint(p.max_record_size.value());
    assert forall|i: int| 0 <= i < params.len() implies #[trigger] fault_at(params, i) is None by {
        let k = choose|k: int|
            0 <= k < t.len() && (#[trigger] t[k]).0 == params[i].id.value() && t[k].1 is Some
                && params[i].value == encoding(t[k].1->0.value());
        assert(!forbidden(t[k].0)) by {
            assert(t[0].0 == 0x01 && t[1].0 == 0x04 && t[2].0 == 0x05 && t[3].0 == 0x06 && t[4].0
                == 0x07 && t[5].0 == 0x08 && t[6].0 == 0x09 && t[7].0 == 0x20);
        }
        lemma_lone_varint(t[k].1->0.value());
    }
    lemma_faultless(params, params.len() as int);
}

/// An endpoint that announces nothing has the default parameters, and the default parameters
/// are announced by nothing.
pub proof fn law_defaults_encode_empty()
    ensures
        ({
            let p = QmuxParams {
                tp: crate::transport_parameters::no_parameters(),
                max_record_size: VarInt::of(DEFAULT_MAX_RECORD_SIZE),
            };
            &&& written(table(p)) == Seq::<u8>::empty()
            &&& announced(Seq::empty()) == Ok::<QmuxParams, TransportError<Seq<char>>>(p)
        }),
{
    let p = QmuxParams {
        tp: crate::transport_parameters::no_parameters(),
        max_record_size: VarInt::of(DEFAULT_MAX_RECORD_SIZE),
    };
    let t = table(p);
    assert(t.drop_last() =~= standard_table(p.tp));
    let s = standard_table(p.tp);
    reveal_with_fuel(written, 10);
    assert(written(t) =~= Seq::<u8>::empty());
    law_round_trip(p);
}

/// Parameters are accepted exactly where the list is complete, no parameter is prohibited or
/// occurs twice, every value has its format, records of the default size are accepted and the
/// stream limits can be met.
pub proof fn law_accepted_exactly(s: Seq<u8>)
    ensures
        announced(s) is Ok <==> {
            let params = split(s).0;
            &&& split(s).1 is None
            &&& forall|i: int| 0 <= i < params.len() ==> !forbidden((#[trigger] params[i]).id.value())
            &&& forall|i: int, j: int|
                0 <= i < j < params.len() ==> (#[trigger] params[i]).id.value() != (
                #[trigger] params[j]).id.value()
            &&& integer(params, MAX_RECORD_SIZE, VarInt::of(DEFAULT_MAX_RECORD_SIZE)) matches Some(v)
                && v.value() >= DEFAULT_MAX_RECORD_SIZE
            &&& standard(params) is Ok
        },
{
    let params = split(s).0;
    let n = params.len() as int;
    lemma_faultless(params, n);
    if announced(s) is Ok {
        lemma_record_size_readable(params, n);
        assert forall|i: int| 0 <= i < n implies !forbidden((#[trigger] params[i]).id.value()) by {
            assert(fault_at(params, i) is None);
        }
        assert forall|i: int, j: int| 0 <= i < j < n implies (#[trigger] params[i]).id.value() != (
        #[trigger] params[j]).id.value() by {
            assert(fault_at(params, j) is None);
        }
    }
    if {
        &&& forall|i: int| 0 <= i < n ==> !forbidden((#[trigger] params[i]).id.value())
        &&& forall|i: int, j: int|
            0 <= i < j < n ==> (#[trigger] params[i]).id.value() != (#[trigger] params[j]).id.value()
        &&& integer(params, MAX_RECORD_SIZE, VarInt::of(DEFAULT_MAX_RECORD_SIZE)) is Some
    } {
        assert forall|i: int| 0 <= i < n implies #[trigger] fault_at(params, i) is None by {
            assert(!occurs(params, i, params[i].id.value()));
            if params[i].id.value() == MAX_RECORD_SIZE {
                lemma_value_unique(params, n, i);
            }
        }
    }
}

/// Each parameter is what the peer says under its identifier, whatever else the list holds: zero,
/// or the default size of records, where it says nothing, and no datagrams where it does not name
/// their size.
pub proof fn law_parameters_by_identifier(s: Seq<u8>)
    requires
        announced(s) is Ok,
    ensures
        ({
            let params = split(s).0;
            let p = announced(s)->Ok_0;
            let named = exists|i: int|
                0 <= i < params.len() && (#[trigger] params[i]).id.value() == 0x20;
            &&& says(params, 0x01, p.tp.max_idle_timeout, 0)
            &&& says(params, 0x04, p.tp.initial_max_data, 0)
            &&& says(params, 0x05, p.tp.initial_max_stream_data_bidi_local, 0)
            &&& says(params, 0x06, p.tp.initial_max_stream_data_bidi_remote, 0)
            &&& says(params, 0x07, p.tp.initial_max_stream_data_uni, 0)
            &&& says(params, 0x08, p.tp.initial_max_streams_bidi, 0)
            &&& says(params, 0x09, p.tp.initial_max_streams_uni, 0)
            &&& says(params, 0x0571_c594_29cd_0845, p.max_record_size, 16382)
            &&& named <==> p.tp.max_datagram_frame_size is Some
            &&& p.tp.max_datagram_frame_size matches Some(max) ==> says(params, 0x20, max, 0)
        }),
{
    let params = split(s).0;
    let zero = VarInt::of(0);
    law_accepted_exactly(s);
    lemma_integer_said(params, 0x01, zero);
    lemma_integer_said(params, 0x04, zero);
    lemma_integer_said(params, 0x05, zero);
    lemma_integer_said(params, 0x06, zero);
    lemma_integer_said(params, 0x07, zero);
    lemma_integer_said(params, 0x08, zero);
    lemma_integer_said(params, 0x09, zero);
    lemma_integer_said(params, 0x20, zero);
    lemma_integer_said(params, 0x0571_c594_29cd_0845, VarInt::of(16382));
    lemma_value_absent(params, params.len() as int, 0x20);
}

/// A list is refused, as a fault in transport parameters, where it names a parameter that belongs
/// to packets, names one twice, does not end with a parameter, accepts only records smaller than
/// the default, or permits more streams than can be numbered; and for no other reason than these
/// and values that are not a single integer.
pub proof fn law_refused_parameters(s: Seq<u8>)
    ensures
        ({
            let params = split(s).0;
            let improper = exists|i: int| 0 <= i < params.len() && improper_parameter(#[trigger] params[i]);
            let repeated = exists|i: int, j: int|
                0 <= i < j < params.len() && (#[trigger] params[i]).id.value() == (
                #[trigger] params[j]).id.value();
            &&& announced(s) is Err <==> improper || repeated || split(s).1 is Some
            &&& announced(s) matches Err(e) ==> e.code.value() == 0x08
        }),
{
    let params = split(s).0;
    let n = params.len() as int;
    law_accepted_exactly(s);
    let repeated = exists|i: int, j: int|
        0 <= i < j < n && (#[trigger] params[i]).id.value() == (#[trigger] params[j]).id.value();
    if !repeated && split(s).1 is None {
        let zero = VarInt::of(0);
        let default = VarInt::of(DEFAULT_MAX_RECORD_SIZE);
        lemma_proper(params, 0x01, zero);
        lemma_proper(params, 0x04, zero);
        lemma_proper(params, 0x05, zero);
        lemma_proper(params, 0x06, zero);
        lemma_proper(params, 0x07, zero);
        lemma_proper(params, 0x08, zero);
        lemma_proper(params, 0x09, zero);
        lemma_proper(params, 0x20, zero);
        lemma_proper(params, MAX_RECORD_SIZE, default);
        if announced(s) is Ok {
            assert forall|i: int| 0 <= i < n implies !improper_parameter(#[trigger] params[i]) by {
                assert(!forbidden(params[i].id.value()));
            }
        } else {
            if forall|i: int| 0 <= i < n ==> !improper_parameter(#[trigger] params[i]) {
                assert forall|i: int| 0 <= i < n implies !forbidden(
                    (#[trigger] params[i]).id.value(),
                ) by {
                    assert(!improper_parameter(params[i]));
                }
            }
        }
    }
}

/// Whether a parameter is not acceptable whatever the others are.
pub open spec fn improper_parameter(p: Parameter<Seq<u8>>) -> bool {
    let id = p.id.value();
    ||| id == 0x00 || id == 0x02 || id == 0x03 || 0x0a <= id <= 0x10
    ||| (id == 0x01 || 0x04 <= id <= 0x09 || id == 0x20 || id == 0x0571_c594_29cd_0845) && match lone_varint(
        p.value,
    ) {
        None => true,
        Some(v) => {
            ||| (id == 0x08 || id == 0x09) && v.value() > 0x1000_0000_0000_0000
            ||| id == 0x0571_c594_29cd_0845 && v.value() < 16382
        },
    }
}

/// What is found under an identifier that occurs at most once is what a parameter holds, or the
/// default where none has the identifier.
proof fn lemma_proper(params: Seq<Parameter<Seq<u8>>>, id: u64, default: VarInt)
    requires
        forall|a: int, b: int|
            0 <= a < b < params.len() ==> (#[trigger] params[a]).id.value() != (
            #[trigger] params[b]).id.value(),
    ensures
        (forall|i: int| 0 <= i < params.len() ==> (#[trigger] params[i]).id.value() != id)
            ==> integer(params, id, default) == Some(default),
        forall|i: int|
            0 <= i < params.len() && (#[trigger] params[i]).id.value() == id ==> integer(
                params,
                id,
                default,
            ) == lone_varint(params[i].value),
        (forall|i: int| 0 <= i < params.len() ==> (#[trigger] params[i]).id.value() != id) || exists|
            i: int,
        | 0 <= i < params.len() && (#[trigger] params[i]).id.value() == id,
{
    let n = params.len() as int;
    lemma_value_absent(params, n, id);
    assert forall|i: int| 0 <= i < n && (#[trigger] params[i]).id.value() == id implies integer(
        params,
        id,
        default,
    ) == lone_varint(params[i].value) by {
        lemma_value_at(params, n, i, id);
    }
}

/// Where an identifier occurs once, its value is the one it occurs with.
proof fn lemma_value_unique(params: Seq<Parameter<Seq<u8>>>, n: int, i: int)
    requires
        0 <= i < n <= params.len(),
        forall|a: int, b: int|
            0 <= a < b < params.len() ==> (#[trigger] params[a]).id.value() != (
            #[trigger] params[b]).id.value(),
    ensures
        value_of(params, n, params[i].id.value()) == Some(params[i].value),
    decreases n,
{
    if n - 1 != i {
        assert(params[i].id.value() != params[n - 1].id.value());
        lemma_value_unique(params, n - 1, i);
    }
}

} // verus!
