//! Transport parameters of QUIC version 1: a list of identifiers, each with a value of its
//! own length.

use crate::buffer::{
    append, get_octets, get_varint, lemma_take_octets, lemma_take_varint,
    lemma_take_varint_shortens, octets, take_octets, take_varint,
};
use crate::varint::{encoded_size, encoding, group_varint, VarInt, VARINT_BOUND};
use bytes::Bytes;
use vstd::prelude::*;

verus! {

broadcast use group_varint;

/// One transport parameter.
#[derive(Debug)]
pub struct Parameter<B = Bytes> {
    /// Identifier.
    pub id: VarInt,
    /// Value, in a format that depends on the identifier.
    pub value: B,
}

/// What is wrong with a list of parameters.
#[derive(Debug, Clone, Copy, PartialEq, Eq, Structural)]
pub enum Flaw {
    /// It ends inside an identifier.
    TruncatedId,
    /// It ends inside a length.
    TruncatedLength,
    /// A length exceeds what the platform can address.
    Oversized,
    /// It ends inside a value.
    TruncatedValue,
}

/// The standard parameters that matter to streams over a reliable carrier.
#[derive(Debug, Clone, Copy, PartialEq, Eq, Structural)]
pub struct TransportParameters {
    /// Milliseconds of silence after which the endpoint gives up; zero for never.
    pub max_idle_timeout: VarInt,
    /// Stream data that may be sent on the connection.
    pub initial_max_data: VarInt,
    /// Data that may be sent on a bidirectional stream opened by the endpoint.
    pub initial_max_stream_data_bidi_local: VarInt,
    /// Data that may be sent on a bidirectional stream opened by its peer.
    pub initial_max_stream_data_bidi_remote: VarInt,
    /// Data that may be sent on a unidirectional stream.
    pub initial_max_stream_data_uni: VarInt,
    /// Bidirectional streams that the peer may open.
    pub initial_max_streams_bidi: VarInt,
    /// Unidirectional streams that the peer may open.
    pub initial_max_streams_uni: VarInt,
    /// Largest DATAGRAM frame accepted; `None` where datagrams are not supported.
    pub max_datagram_frame_size: Option<VarInt>,
}

pub const MAX_IDLE_TIMEOUT: u64 = 0x01;

pub const INITIAL_MAX_DATA: u64 = 0x04;

pub const INITIAL_MAX_STREAM_DATA_BIDI_LOCAL: u64 = 0x05;

pub const INITIAL_MAX_STREAM_DATA_BIDI_REMOTE: u64 = 0x06;

pub const INITIAL_MAX_STREAM_DATA_UNI: u64 = 0x07;

pub const INITIAL_MAX_STREAMS_BIDI: u64 = 0x08;

pub const INITIAL_MAX_STREAMS_UNI: u64 = 0x09;

pub const MAX_DATAGRAM_FRAME_SIZE: u64 = 0x20;

/// Largest number of streams that can be permitted.
pub const MAX_STREAM_COUNT: u64 = 0x1000_0000_0000_0000;

impl View for Parameter<Bytes> {
    type V = Parameter<Seq<u8>>;

    open spec fn view(&self) -> Parameter<Seq<u8>> {
        Parameter { id: self.id, value: octets(self.value) }
    }
}

/// The parameter at the front of `s` and what follows it.
pub open spec fn following_parameter(s: Seq<u8>) -> Result<
    (Parameter<Seq<u8>>, Seq<u8>),
    Flaw,
> {
    match take_varint(s) {
        None => Err(Flaw::TruncatedId),
        Some((id, s1)) => match take_varint(s1) {
            None => Err(Flaw::TruncatedLength),
            Some((len, s2)) => if len.value() > usize::MAX {
                Err(Flaw::Oversized)
            } else {
                match take_octets(s2, len.value()) {
                    None => Err(Flaw::TruncatedValue),
                    Some((value, rest)) => Ok((Parameter { id, value }, rest)),
                }
            },
        },
    }
}

/// All the parameters in `s` up to the first flaw, and that flaw.
pub open spec fn split(s: Seq<u8>) -> (Seq<Parameter<Seq<u8>>>, Option<Flaw>)
    decreases s.len(),
{
    if s.len() == 0 {
        (Seq::empty(), None)
    } else {
        match following_parameter(s) {
            Err(flaw) => (Seq::empty(), Some(flaw)),
            Ok((p, rest)) => if rest.len() < s.len() {
                (seq![p] + split(rest).0, split(rest).1)
            } else {
                (Seq::empty(), None)
            },
        }
    }
}

/// Whether one of the first `n` parameters has the identifier `id`.
pub open spec fn occurs(params: Seq<Parameter<Seq<u8>>>, n: int, id: u64) -> bool {
    exists|i: int| 0 <= i < n && (#[trigger] params[i]).id.value() == id
}

/// The value of the last of the first `n` parameters that has the identifier `id`.
pub open spec fn value_of(params: Seq<Parameter<Seq<u8>>>, n: int, id: u64) -> Option<Seq<u8>>
    decreases n,
{
    if n <= 0 {
        None
    } else if params[n - 1].id.value() == id {
        Some(params[n - 1].value)
    } else {
        value_of(params, n - 1, id)
    }
}

/// The integer that makes up the whole of `value`.
pub open spec fn lone_varint(value: Seq<u8>) -> Option<VarInt> {
    match take_varint(value) {
        Some((v, rest)) => if rest.len() == 0 {
            Some(v)
        } else {
            None
        },
        None => None,
    }
}

/// The integer that the parameter `id` holds, `default` where it does not occur, or `None`
/// where its value is not an integer.
pub open spec fn integer(
    params: Seq<Parameter<Seq<u8>>>,
    id: u64,
    default: VarInt,
) -> Option<VarInt> {
    match value_of(params, params.len() as int, id) {
        None => Some(default),
        Some(value) => lone_varint(value),
    }
}

/// The octets of a parameter whose value is the integer `value`.
pub open spec fn integer_parameter(id: u64, value: VarInt) -> Seq<u8> {
    encoding(id) + (encoding(encoded_size(value.value()) as u64) + encoding(value.value()))
}

/// A choice of parameters: identifiers, and the value of each that is present.
pub type Table = Seq<(u64, Option<VarInt>)>;

/// The octets of the parameters that are present.
pub open spec fn written(t: Table) -> Seq<u8>
    decreases t.len(),
{
    if t.len() == 0 {
        Seq::empty()
    } else {
        written(t.drop_last()) + match t.last().1 {
            Some(v) => integer_parameter(t.last().0, v),
            None => Seq::empty(),
        }
    }
}

/// The parameters that are present.
pub open spec fn present(t: Table) -> Seq<Parameter<Seq<u8>>>
    decreases t.len(),
{
    if t.len() == 0 {
        Seq::empty()
    } else {
        present(t.drop_last()) + match t.last().1 {
            Some(v) => seq![
                Parameter { id: VarInt::of(t.last().0), value: encoding(v.value()) },
            ],
            None => Seq::empty(),
        }
    }
}

/// Identifiers and values fit their encoding, and no identifier is listed twice.
pub open spec fn well_formed(t: Table) -> bool {
    &&& forall|i: int| 0 <= i < t.len() ==> (#[trigger] t[i]).0 < VARINT_BOUND
    &&& forall|i: int|
        0 <= i < t.len() ==> ((#[trigger] t[i]).1 matches Some(v) ==> v.value() < VARINT_BOUND)
    &&& forall|i: int, j: int|
        0 <= i < j < t.len() ==> (#[trigger] t[i]).0 != (#[trigger] t[j]).0
}

proof fn lemma_following(id: u64, value: VarInt, rest: Seq<u8>)
    requires
        id < VARINT_BOUND,
        value.value() < VARINT_BOUND,
    ensures
        following_parameter(integer_parameter(id, value) + rest) == Ok::<_, Flaw>(
            (Parameter { id: VarInt::of(id), value: encoding(value.value()) }, rest),
        ),
        integer_parameter(id, value).len() > 0,
{
    let size = encoded_size(value.value()) as u64;
    let s1 = encoding(size) + (encoding(value.value()) + rest);
    assert(integer_parameter(id, value) + rest =~= encoding(id) + s1);
    lemma_take_varint(id, s1);
    lemma_take_varint(size, encoding(value.value()) + rest);
    lemma_take_octets(encoding(value.value()), rest);
}

proof fn lemma_following_shortens(s: Seq<u8>)
    ensures
        following_parameter(s) matches Ok((p, rest)) ==> rest.len() < s.len(),
{
    lemma_take_varint_shortens(s);
    if let Some((id, s1)) = take_varint(s) {
        lemma_take_varint_shortens(s1);
    }
}

/// What follows a parameter does not change it.
proof fn lemma_following_prefix(s: Seq<u8>, more: Seq<u8>)
    ensures
        following_parameter(s) matches Ok((p, rest)) ==> following_parameter(s + more) == Ok::<
            _,
            Flaw,
        >((p, rest + more)),
{
    crate::varint::law_decode_prefix(s, more);
    crate::varint::law_decoded_range(s);
    if let Some((id, s1)) = take_varint(s) {
        let n = crate::varint::decoding(s).unwrap().1;
        assert((s + more).skip(n as int) =~= s1 + more);
        crate::varint::law_decode_prefix(s1, more);
        crate::varint::law_decoded_range(s1);
        if let Some((len, s2)) = take_varint(s1) {
            let k = crate::varint::decoding(s1).unwrap().1;
            assert((s1 + more).skip(k as int) =~= s2 + more);
            if len.value() <= s2.len() {
                assert((s2 + more).take(len.value() as int) =~= s2.take(len.value() as int));
                assert((s2 + more).skip(len.value() as int) =~= s2.skip(len.value() as int)
                    + more);
            }
        }
    }
}

/// A parameter appended to a flawless list comes out last.
proof fn lemma_split_append(s: Seq<u8>, id: u64, value: VarInt)
    requires
        split(s).1 is None,
        id < VARINT_BOUND,
        value.value() < VARINT_BOUND,
    ensures
        split(s + integer_parameter(id, value)) == (
            split(s).0.push(Parameter { id: VarInt::of(id), value: encoding(value.value()) }),
            None::<Flaw>,
        ),
    decreases s.len(),
{
    let tail = integer_parameter(id, value);
    let last = Parameter { id: VarInt::of(id), value: encoding(value.value()) };
    if s.len() == 0 {
        lemma_following(id, value, Seq::empty());
        assert(tail + Seq::<u8>::empty() =~= tail);
        assert(s + tail =~= tail);
        assert(split(Seq::<u8>::empty()).0 =~= Seq::<Parameter<Seq<u8>>>::empty());
        assert(seq![last] + Seq::<Parameter<Seq<u8>>>::empty() =~= split(s).0.push(last));
        assert(split(tail) == (seq![last] + split(Seq::<u8>::empty()).0, split(Seq::<u8>::empty()).1));
    } else {
        lemma_following_shortens(s);
        lemma_following_prefix(s, tail);
        if let Ok((p, rest)) = following_parameter(s) {
            lemma_split_append(rest, id, value);
            assert(split(s + tail).0 =~= split(s).0.push(last));
        }
    }
}

/// Splitting what was written gives back the parameters that are present.
pub proof fn lemma_split_written(t: Table)
    requires
        well_formed(t),
    ensures
        split(written(t)) == (present(t), None::<Flaw>),
    decreases t.len(),
{
    if t.len() > 0 {
        let init = t.drop_last();
        assert(well_formed(init)) by {
            assert forall|i: int| 0 <= i < init.len() implies init[i] == t[i] by {}
        }
        lemma_split_written(init);
        match t.last().1 {
            Some(v) => {
                assert(t[t.len() - 1] == t.last());
                lemma_split_append(written(init), t.last().0, v);
                assert(present(t) =~= present(init).push(
                    Parameter { id: VarInt::of(t.last().0), value: encoding(v.value()) },
                ));
            },
            None => {
                assert(written(t) =~= written(init));
                assert(present(t) =~= present(init));
            },
        }
    }
}

/// The parameters that are present have distinct identifiers of the table, and each holds the
/// value it has there.
pub proof fn lemma_present(t: Table)
    requires
        well_formed(t),
    ensures
        forall|i: int|
            0 <= i < present(t).len() ==> exists|k: int|
                0 <= k < t.len() && (#[trigger] t[k]).0 == (#[trigger] present(t)[i]).id.value()
                    && t[k].1 is Some && present(t)[i].value == encoding(t[k].1->0.value()),
        forall|i: int, j: int|
            0 <= i < j < present(t).len() ==> (#[trigger] present(t)[i]).id.value() != (
            #[trigger] present(t)[j]).id.value(),
        forall|k: int|
            0 <= k < t.len() ==> value_of(
                present(t),
                present(t).len() as int,
                (#[trigger] t[k]).0,
            ) == match t[k].1 {
                Some(v) => Some(encoding(v.value())),
                None => None,
            },
    decreases t.len(),
{
    if t.len() > 0 {
        let init = t.drop_last();
        let a = present(init);
        let b = present(t);
        assert forall|i: int| 0 <= i < init.len() implies init[i] == t[i] by {}
        assert(well_formed(init));
        lemma_present(init);
        assert(forall|i: int| 0 <= i < a.len() ==> b[i] == a[i]);
        assert(t.last() == t[t.len() - 1]);
        assert forall|i: int| 0 <= i < b.len() implies exists|k: int|
            0 <= k < t.len() && (#[trigger] t[k]).0 == (#[trigger] b[i]).id.value() && t[k].1 is Some
                && b[i].value == encoding(t[k].1->0.value()) by {
            if i < a.len() {
                let k = choose|k: int|
                    0 <= k < init.len() && (#[trigger] init[k]).0 == a[i].id.value()
                        && init[k].1 is Some && a[i].value == encoding(init[k].1->0.value());
                assert(t[k] == init[k]);
            } else {
                assert(t[t.len() - 1].0 == b[i].id.value());
            }
        }
        assert forall|k: int| 0 <= k < t.len() implies value_of(
            b,
            b.len() as int,
            (#[trigger] t[k]).0,
        ) == match t[k].1 {
            Some(v) => Some(encoding(v.value())),
            None => None,
        } by {
            lemma_value_of_prefix(a, b, a.len() as int, t[k].0);
            if k < init.len() {
                assert(t[k] == init[k]);
            } else {
                lemma_value_absent(a, a.len() as int, t[k].0);
            }
        }
    }
}

proof fn lemma_value_of_prefix(
    a: Seq<Parameter<Seq<u8>>>,
    b: Seq<Parameter<Seq<u8>>>,
    n: int,
    id: u64,
)
    requires
        n <= a.len() <= b.len(),
        forall|i: int| 0 <= i < n ==> a[i] == b[i],
    ensures
        value_of(a, n, id) == value_of(b, n, id),
    decreases n,
{
    if n > 0 {
        lemma_value_of_prefix(a, b, n - 1, id);
    }
}

/// Where an identifier does not occur it has no value.
pub proof fn lemma_value_absent(params: Seq<Parameter<Seq<u8>>>, n: int, id: u64)
    requires
        n <= params.len(),
    ensures
        value_of(params, n, id) is None <==> !occurs(params, n, id),
    decreases n,
{
    if n > 0 {
        lemma_value_absent(params, n - 1, id);
        if params[n - 1].id.value() != id && occurs(params, n, id) {
            let i = choose|i: int| 0 <= i < n && (#[trigger] params[i]).id.value() == id;
            assert(0 <= i < n - 1 && params[i].id.value() == id);
        }
        if occurs(params, n - 1, id) {
            let i = choose|i: int| 0 <= i < n - 1 && (#[trigger] params[i]).id.value() == id;
            assert(0 <= i < n && params[i].id.value() == id);
        }
    }
}

/// An encoded integer makes up the whole of its encoding.
pub proof fn lemma_lone_varint(x: u64)
    requires
        x < VARINT_BOUND,
    ensures
        lone_varint(encoding(x)) == Some(VarInt::of(x)),
{
    lemma_take_varint(x, Seq::empty());
    assert(encoding(x) + Seq::<u8>::empty() =~= encoding(x));
}

/// A parameter takes no more than this many octets.
pub proof fn lemma_written_len(t: Table)
    ensures
        written(t).len() <= 17 * t.len(),
    decreases t.len(),
{
    if t.len() > 0 {
        lemma_written_len(t.drop_last());
    }
}

/// Take the parameter at the front of `buf`.
fn next_parameter(buf: &mut Bytes) -> (r: Result<Parameter, Flaw>)
    ensures
        match following_parameter(octets(*old(buf))) {
            Ok((p, rest)) => r is Ok && r->Ok_0@ == p && octets(*final(buf)) == rest,
            Err(flaw) => r == Err::<Parameter, Flaw>(flaw),
        },
{
    let id = match get_varint(buf) {
        Some(id) => id,
        None => return Err(Flaw::TruncatedId),
    };
    let len: u64 = match get_varint(buf) {
        Some(len) => len.into_inner(),
        None => return Err(Flaw::TruncatedLength),
    };
    if len > usize::MAX as u64 {
        return Err(Flaw::Oversized);
    }
    match get_octets(buf, len) {
        Some(value) => Ok(Parameter { id, value }),
        None => Err(Flaw::TruncatedValue),
    }
}

/// The parameters that a vector holds.
pub open spec fn views(params: Seq<Parameter>) -> Seq<Parameter<Seq<u8>>> {
    params.map_values(|p: Parameter| p@)
}

/// Split a list of parameters, up to its first flaw.
pub fn read_parameters(data: Bytes) -> (r: (Vec<Parameter>, Option<Flaw>))
    ensures
        (views(r.0@), r.1) == split(octets(data)),
{
    let mut buf = data.clone();
    let mut params: Vec<Parameter> = Vec::new();
    let ghost whole = split(octets(buf));
    assert(views(params@) + split(octets(buf)).0 =~= whole.0);
    loop
        invariant
            views(params@) + split(octets(buf)).0 == whole.0,
            split(octets(buf)).1 == whole.1,
            whole == split(octets(data)),
        ensures
            views(params@) == whole.0,
            whole.1 is None,
        decreases octets(buf).len(),
    {
        if buf.len() == 0 {
            assert(views(params@) =~= whole.0);
            break;
        }
        proof {
            lemma_following_shortens(octets(buf));
        }
        let ghost before = params@;
        match next_parameter(&mut buf) {
            Ok(p) => {
                params.push(p);
                assert(views(params@) =~= views(before).push(p@));
                assert(views(params@) + split(octets(buf)).0 =~= views(before) + (seq![p@] + split(
                    octets(buf),
                ).0));
            },
            Err(flaw) => {
                assert(views(params@) =~= whole.0);
                return (params, Some(flaw));
            },
        }
    }
    (params, None)
}

/// The integer that makes up the whole of `value`.
pub(crate) fn read_integer(value: &Bytes) -> (r: Option<VarInt>)
    ensures
        r == lone_varint(octets(*value)),
{
    let mut rest = value.clone();
    match get_varint(&mut rest) {
        Some(v) => if rest.len() == 0 {
            Some(v)
        } else {
            None
        },
        None => None,
    }
}

/// The integer that the parameter `id` holds.
pub(crate) fn find_integer(params: &Vec<Parameter>, id: u64, default: VarInt) -> (r: Option<VarInt>)
    ensures
        r == integer(views(params@), id, default),
{
    let mut found = Some(default);
    let mut i: usize = 0;
    while i < params.len()
        invariant
            i <= params.len(),
            found == (match value_of(views(params@), i as int, id) {
                None => Some(default),
                Some(value) => lone_varint(value),
            }),
        decreases params.len() - i,
    {
        assert(views(params@)[i as int] == params@[i as int]@);
        if params[i].id.into_inner() == id {
            found = read_integer(&params[i].value);
        }
        i += 1;
    }
    found
}

/// Append a parameter, if it is present, whose value is an integer.
pub(crate) fn write_integer(buf: &mut Vec<u8>, id: u64, value: Option<VarInt>, Ghost(t): Ghost<
    Table,
>)
    requires
        id < VARINT_BOUND,
        old(buf)@ == written(t),
    ensures
        final(buf)@ == written(t.push((id, value))),
{
    let ghost next = t.push((id, value));
    assert(next.drop_last() =~= t);
    match value {
        Some(v) => {
            let mut encoded: Vec<u8> = Vec::new();
            v.encode(&mut encoded);
            assert(encoded@ =~= encoding(v.value()));
            match VarInt::from_u64(id) {
                Ok(id) => write_parameter(buf, id, encoded.as_slice()),
                Err(_) => {},
            }
            assert(buf@ =~= written(t) + integer_parameter(id, v));
        },
        None => {
            assert(buf@ =~= written(next));
        },
    }
}

/// Append a parameter.
pub fn write_parameter(out: &mut Vec<u8>, id: VarInt, value: &[u8])
    requires
        value@.len() < VARINT_BOUND,
    ensures
        final(out)@ == old(out)@ + (encoding(id.value()) + (encoding(value@.len() as u64)
            + value@)),
{
    id.encode(out);
    match VarInt::from_u64(value.len() as u64) {
        Ok(len) => len.encode(out),
        Err(_) => {},
    }
    append(out, value);
    assert(out@ =~= old(out)@ + (encoding(id.value()) + (encoding(value@.len() as u64) + value@)));
}

/// Why a well-formed list does not hold valid parameters.
#[derive(Debug, Clone, Copy, PartialEq, Eq, Structural)]
pub enum Error {
    /// A value has the wrong format.
    Malformed,
    /// A value is out of its range.
    IllegalValue,
}

/// What is not zero.
pub open spec fn nonzero(v: VarInt) -> Option<VarInt> {
    if v.value() == 0 {
        None
    } else {
        Some(v)
    }
}

/// The standard parameters, each present unless it has its default.
pub open spec fn standard_table(tp: TransportParameters) -> Table {
    seq![
        (MAX_IDLE_TIMEOUT, nonzero(tp.max_idle_timeout)),
        (INITIAL_MAX_DATA, nonzero(tp.initial_max_data)),
        (INITIAL_MAX_STREAM_DATA_BIDI_LOCAL, nonzero(tp.initial_max_stream_data_bidi_local)),
        (INITIAL_MAX_STREAM_DATA_BIDI_REMOTE, nonzero(tp.initial_max_stream_data_bidi_remote)),
        (INITIAL_MAX_STREAM_DATA_UNI, nonzero(tp.initial_max_stream_data_uni)),
        (INITIAL_MAX_STREAMS_BIDI, nonzero(tp.initial_max_streams_bidi)),
        (INITIAL_MAX_STREAMS_UNI, nonzero(tp.initial_max_streams_uni)),
        (MAX_DATAGRAM_FRAME_SIZE, tp.max_datagram_frame_size),
    ]
}

/// The parameters of an endpoint that announces none.
pub open spec fn no_parameters() -> TransportParameters {
    TransportParameters {
        max_idle_timeout: VarInt::of(0),
        initial_max_data: VarInt::of(0),
        initial_max_stream_data_bidi_local: VarInt::of(0),
        initial_max_stream_data_bidi_remote: VarInt::of(0),
        initial_max_stream_data_uni: VarInt::of(0),
        initial_max_streams_bidi: VarInt::of(0),
        initial_max_streams_uni: VarInt::of(0),
        max_datagram_frame_size: None,
    }
}

/// Whether the value of a standard parameter is not an integer.
pub open spec fn ill_formatted(params: Seq<Parameter<Seq<u8>>>) -> bool {
    ||| integer(params, MAX_IDLE_TIMEOUT, VarInt::of(0)) is None
    ||| integer(params, INITIAL_MAX_DATA, VarInt::of(0)) is None
    ||| integer(params, INITIAL_MAX_STREAM_DATA_BIDI_LOCAL, VarInt::of(0)) is None
    ||| integer(params, INITIAL_MAX_STREAM_DATA_BIDI_REMOTE, VarInt::of(0)) is None
    ||| integer(params, INITIAL_MAX_STREAM_DATA_UNI, VarInt::of(0)) is None
    ||| integer(params, INITIAL_MAX_STREAMS_BIDI, VarInt::of(0)) is None
    ||| integer(params, INITIAL_MAX_STREAMS_UNI, VarInt::of(0)) is None
    ||| integer(params, MAX_DATAGRAM_FRAME_SIZE, VarInt::of(0)) is None
}

/// The standard parameters in a list, where none is ill-formatted.
pub open spec fn standard_values(params: Seq<Parameter<Seq<u8>>>) -> TransportParameters {
    TransportParameters {
        max_idle_timeout: integer(params, MAX_IDLE_TIMEOUT, VarInt::of(0))->0,
        initial_max_data: integer(params, INITIAL_MAX_DATA, VarInt::of(0))->0,
        initial_max_stream_data_bidi_local: integer(
            params,
            INITIAL_MAX_STREAM_DATA_BIDI_LOCAL,
            VarInt::of(0),
        )->0,
        initial_max_stream_data_bidi_remote: integer(
            params,
            INITIAL_MAX_STREAM_DATA_BIDI_REMOTE,
            VarInt::of(0),
        )->0,
        initial_max_stream_data_uni: integer(
            params,
            INITIAL_MAX_STREAM_DATA_UNI,
            VarInt::of(0),
        )->0,
        initial_max_streams_bidi: integer(params, INITIAL_MAX_STREAMS_BIDI, VarInt::of(0))->0,
        initial_max_streams_uni: integer(params, INITIAL_MAX_STREAMS_UNI, VarInt::of(0))->0,
        max_datagram_frame_size: if value_of(
            params,
            params.len() as int,
            MAX_DATAGRAM_FRAME_SIZE,
        ) is None {
            None
        } else {
            integer(params, MAX_DATAGRAM_FRAME_SIZE, VarInt::of(0))
        },
    }
}

/// Whether more streams are permitted than can exist.
pub open spec fn too_many_streams(tp: TransportParameters) -> bool {
    tp.initial_max_streams_bidi.value() > MAX_STREAM_COUNT || tp.initial_max_streams_uni.value()
        > MAX_STREAM_COUNT
}

/// What a list of parameters says about the standard ones; unknown ones are ignored.
pub open spec fn standard(params: Seq<Parameter<Seq<u8>>>) -> Result<TransportParameters, Error> {
    if ill_formatted(params) {
        Err(Error::Malformed)
    } else if too_many_streams(standard_values(params)) {
        Err(Error::IllegalValue)
    } else {
        Ok(standard_values(params))
    }
}

/// Every integer below 2^62.
pub open spec fn encodable(tp: TransportParameters) -> bool {
    &&& tp.max_idle_timeout.value() < VARINT_BOUND
    &&& tp.initial_max_data.value() < VARINT_BOUND
    &&& tp.initial_max_stream_data_bidi_local.value() < VARINT_BOUND
    &&& tp.initial_max_stream_data_bidi_remote.value() < VARINT_BOUND
    &&& tp.initial_max_stream_data_uni.value() < VARINT_BOUND
    &&& tp.initial_max_streams_bidi.value() < VARINT_BOUND
    &&& tp.initial_max_streams_uni.value() < VARINT_BOUND
    &&& tp.max_datagram_frame_size matches Some(v) ==> v.value() < VARINT_BOUND
}

impl Default for TransportParameters {
    /// The parameters of an endpoint that announces none.
    fn default() -> (tp: TransportParameters)
        ensures
            tp == no_parameters(),
    {
        let none = VarInt::from_u32(0);
        TransportParameters {
            max_idle_timeout: none,
            initial_max_data: none,
            initial_max_stream_data_bidi_local: none,
            initial_max_stream_data_bidi_remote: none,
            initial_max_stream_data_uni: none,
            initial_max_streams_bidi: none,
            initial_max_streams_uni: none,
            max_datagram_frame_size: None,
        }
    }
}

fn unless_zero(v: VarInt) -> (r: Option<VarInt>)
    ensures
        r == nonzero(v),
{
    if v.into_inner() == 0 {
        None
    } else {
        Some(v)
    }
}

impl TransportParameters {
    /// Append the parameters that differ from their defaults.
    pub fn write(&self, buf: &mut Vec<u8>)
        ensures
            final(buf)@ == old(buf)@ + written(standard_table(*self)),
    {
        let mut out: Vec<u8> = Vec::new();
        let ghost t: Table = standard_table(*self);
        assert(t.take(0) =~= Seq::empty());
        assert(out@ =~= written(t.take(0)));
        write_integer(&mut out, MAX_IDLE_TIMEOUT, unless_zero(self.max_idle_timeout), Ghost(t.take(0)));
        assert(t.take(0).push(t[0]) =~= t.take(1));
        write_integer(&mut out, INITIAL_MAX_DATA, unless_zero(self.initial_max_data), Ghost(t.take(1)));
        assert(t.take(1).push(t[1]) =~= t.take(2));
        write_integer(
            &mut out,
            INITIAL_MAX_STREAM_DATA_BIDI_LOCAL,
            unless_zero(self.initial_max_stream_data_bidi_local),
            Ghost(t.take(2)),
        );
        assert(t.take(2).push(t[2]) =~= t.take(3));
        write_integer(
            &mut out,
            INITIAL_MAX_STREAM_DATA_BIDI_REMOTE,
            unless_zero(self.initial_max_stream_data_bidi_remote),
            Ghost(t.take(3)),
        );
        assert(t.take(3).push(t[3]) =~= t.take(4));
        write_integer(
            &mut out,
            INITIAL_MAX_STREAM_DATA_UNI,
            unless_zero(self.initial_max_stream_data_uni),
            Ghost(t.take(4)),
        );
        assert(t.take(4).push(t[4]) =~= t.take(5));
        write_integer(
            &mut out,
            INITIAL_MAX_STREAMS_BIDI,
            unless_zero(self.initial_max_streams_bidi),
            Ghost(t.take(5)),
        );
        assert(t.take(5).push(t[5]) =~= t.take(6));
        write_integer(
            &mut out,
            INITIAL_MAX_STREAMS_UNI,
            unless_zero(self.initial_max_streams_uni),
            Ghost(t.take(6)),
        );
        assert(t.take(6).push(t[6]) =~= t.take(7));
        write_integer(
            &mut out,
            MAX_DATAGRAM_FRAME_SIZE,
            self.max_datagram_frame_size,
            Ghost(t.take(7)),
        );
        assert(t.take(7).push(t[7]) =~= t);
        append(buf, out.as_slice());
    }

    /// Pick the standard parameters out of a list.
    pub(crate) fn read(params: &Vec<Parameter>) -> (r: Result<TransportParameters, Error>)
        ensures
            r == standard(views(params@)),
    {
        let zero = VarInt::from_u32(0);
        let max_idle_timeout = match find_integer(params, MAX_IDLE_TIMEOUT, zero) {
            Some(v) => v,
            None => return Err(Error::Malformed),
        };
        let initial_max_data = match find_integer(params, INITIAL_MAX_DATA, zero) {
            Some(v) => v,
            None => return Err(Error::Malformed),
        };
        let initial_max_stream_data_bidi_local = match find_integer(
            params,
            INITIAL_MAX_STREAM_DATA_BIDI_LOCAL,
            zero,
        ) {
            Some(v) => v,
            None => return Err(Error::Malformed),
        };
        let initial_max_stream_data_bidi_remote = match find_integer(
            params,
            INITIAL_MAX_STREAM_DATA_BIDI_REMOTE,
            zero,
        ) {
            Some(v) => v,
            None => return Err(Error::Malformed),
        };
        let initial_max_stream_data_uni = match find_integer(
            params,
            INITIAL_MAX_STREAM_DATA_UNI,
            zero,
        ) {
            Some(v) => v,
            None => return Err(Error::Malformed),
        };
        let initial_max_streams_bidi = match find_integer(params, INITIAL_MAX_STREAMS_BIDI, zero) {
            Some(v) => v,
            None => return Err(Error::Malformed),
        };
        let initial_max_streams_uni = match find_integer(params, INITIAL_MAX_STREAMS_UNI, zero) {
            Some(v) => v,
            None => return Err(Error::Malformed),
        };
        let max_datagram = match find_integer(params, MAX_DATAGRAM_FRAME_SIZE, zero) {
            Some(v) => v,
            None => return Err(Error::Malformed),
        };
        let max_datagram_frame_size = if has_parameter(params, MAX_DATAGRAM_FRAME_SIZE) {
            Some(max_datagram)
        } else {
            None
        };
        if initial_max_streams_bidi.into_inner() > MAX_STREAM_COUNT
            || initial_max_streams_uni.into_inner() > MAX_STREAM_COUNT {
            return Err(Error::IllegalValue);
        }
        Ok(
            TransportParameters {
                max_idle_timeout,
                initial_max_data,
                initial_max_stream_data_bidi_local,
                initial_max_stream_data_bidi_remote,
                initial_max_stream_data_uni,
                initial_max_streams_bidi,
                initial_max_streams_uni,
                max_datagram_frame_size,
            },
        )
    }
}

/// Whether the parameter `id` occurs.
fn has_parameter(params: &Vec<Parameter>, id: u64) -> (b: bool)
    ensures
        b == (value_of(views(params@), params@.len() as int, id) is Some),
{
    let mut i: usize = 0;
    while i < params.len()
        invariant
            i <= params.len(),
            !occurs(views(params@), i as int, id),
        decreases params.len() - i,
    {
        assert(views(params@)[i as int] == params@[i as int]@);
        if params[i].id.into_inner() == id {
            proof {
                lemma_value_absent(views(params@), params@.len() as int, id);
                assert(occurs(views(params@), params@.len() as int, id));
            }
            return true;
        }
        i += 1;
    }
    proof {
        lemma_value_absent(views(params@), params@.len() as int, id);
    }
    false
}

/// What is read from a table that holds the standard parameters is what was put there.
pub proof fn lemma_standard(tp: TransportParameters, t: Table)
    requires
        encodable(tp),
        well_formed(t),
        t.len() >= 8,
        t.take(8) == standard_table(tp),
    ensures
        !ill_formatted(present(t)),
        standard_values(present(t)) == tp,
{
    lemma_present(t);
    let s = standard_table(tp);
    assert forall|k: int| 0 <= k < 8 implies #[trigger] t[k] == s[k] by {
        assert(t.take(8)[k] == t[k]);
    }
    assert(t[0] == s[0] && t[1] == s[1] && t[2] == s[2] && t[3] == s[3] && t[4] == s[4] && t[5]
        == s[5] && t[6] == s[6] && t[7] == s[7]);
    lemma_lone_varint(tp.max_idle_timeout.value());
    lemma_lone_varint(tp.initial_max_data.value());
    lemma_lone_varint(tp.initial_max_stream_data_bidi_local.value());
    lemma_lone_varint(tp.initial_max_stream_data_bidi_remote.value());
    lemma_lone_varint(tp.initial_max_stream_data_uni.value());
    lemma_lone_varint(tp.initial_max_streams_bidi.value());
    lemma_lone_varint(tp.initial_max_streams_uni.value());
    if let Some(v) = tp.max_datagram_frame_size {
        lemma_lone_varint(v.value());
    }
}

/// A list is read front to back: an identifier, the length of the value, the value, and then the
/// rest of the list.
pub proof fn law_list_read(id: u64, value: Seq<u8>, rest: Seq<u8>)
    requires
        id < VARINT_BOUND,
        value.len() < VARINT_BOUND,
        value.len() <= usize::MAX,
    ensures
        split(encoding(id) + (encoding(value.len() as u64) + (value + rest))) == (
            seq![Parameter { id: VarInt::of(id), value }] + split(rest).0,
            split(rest).1,
        ),
        split(Seq::empty()) == (Seq::<Parameter<Seq<u8>>>::empty(), None::<Flaw>),
{
    let s2 = value + rest;
    let s1 = encoding(value.len() as u64) + s2;
    lemma_take_varint(id, s1);
    lemma_take_varint(value.len() as u64, s2);
    lemma_take_octets(value, rest);
    assert((encoding(id) + s1).len() > rest.len());
}

/// Whether a list says that a parameter is `v`: each occurrence of the identifier holds that
/// integer and nothing else, and where there is none it is the default.
pub open spec fn says(params: Seq<Parameter<Seq<u8>>>, id: u64, v: VarInt, default: u64) -> bool {
    &&& forall|i: int|
        0 <= i < params.len() && (#[trigger] params[i]).id.value() == id ==> take_varint(
            params[i].value,
        ) == Some((v, Seq::<u8>::empty()))
    &&& (forall|i: int| 0 <= i < params.len() ==> (#[trigger] params[i]).id.value() != id)
        ==> v.value() == default
}

/// The integer found under an identifier that does not occur twice is what the list says.
pub proof fn lemma_integer_said(params: Seq<Parameter<Seq<u8>>>, id: u64, default: VarInt)
    requires
        forall|i: int, j: int|
            0 <= i < j < params.len() && (#[trigger] params[i]).id.value() == id ==> (
            #[trigger] params[j]).id.value() != id,
        integer(params, id, default) is Some,
    ensures
        says(params, id, integer(params, id, default)->0, default.value()),
{
    let n = params.len() as int;
    lemma_value_absent(params, n, id);
    assert forall|i: int| 0 <= i < n && (#[trigger] params[i]).id.value() == id implies take_varint(
        params[i].value,
    ) == Some((integer(params, id, default)->0, Seq::<u8>::empty())) by {
        lemma_value_at(params, n, i, id);
        let rest = take_varint(params[i].value).unwrap().1;
        assert(rest =~= Seq::<u8>::empty());
    }
}

/// Where an identifier occurs once, its value is the one it occurs with.
pub proof fn lemma_value_at(params: Seq<Parameter<Seq<u8>>>, n: int, i: int, id: u64)
    requires
        0 <= i < n <= params.len(),
        params[i].id.value() == id,
        forall|a: int, b: int|
            0 <= a < b < params.len() && (#[trigger] params[a]).id.value() == id ==> (
            #[trigger] params[b]).id.value() != id,
    ensures
        value_of(params, n, id) == Some(params[i].value),
    decreases n,
{
    if n - 1 != i {
        assert(params[n - 1].id.value() != id);
        lemma_value_at(params, n - 1, i, id);
    }
}

} // verus!
