//! Stream identifiers of QUIC version 1.

use crate::varint::{group_varint, VarInt};
use vstd::prelude::*;

verus! {

broadcast use group_varint;

/// An endpoint of a connection.
#[derive(Debug, Clone, Copy, PartialEq, Eq, Hash, Structural)]
pub enum Side {
    /// The initiator of the connection.
    Client,
    /// The acceptor of the connection.
    Server,
}

/// Whether a stream carries data both ways or only from its initiator.
#[derive(Debug, Clone, Copy, PartialEq, Eq, Hash, Structural)]
pub enum Dir {
    /// Data flows in both directions.
    Bi,
    /// Data flows only from the stream's initiator.
    Uni,
}

/// Identifier of a stream: the lowest bit names the initiator, the next one the direction,
/// the rest counts the streams of that kind.
#[derive(Debug, Clone, Copy, PartialEq, Eq, Hash, Structural)]
pub struct StreamId(pub VarInt);

/// First stream count that no identifier can hold.
pub const STREAM_COUNT_BOUND: u64 = 0x1000_0000_0000_0000;

impl StreamId {
    /// The endpoint that opened the stream.
    pub open spec fn spec_initiator(self) -> Side {
        if self.0.value() % 2 == 0 {
            Side::Client
        } else {
            Side::Server
        }
    }

    /// The direction of the stream.
    pub open spec fn spec_dir(self) -> Dir {
        if self.0.value() / 2 % 2 == 0 {
            Dir::Bi
        } else {
            Dir::Uni
        }
    }

    /// The identifier of the `index`th stream that `initiator` opens in direction `dir`.
    pub fn new(initiator: Side, dir: Dir, index: u64) -> (id: StreamId)
        requires
            index < STREAM_COUNT_BOUND,
        ensures
            id.spec_initiator() == initiator,
            id.spec_dir() == dir,
            id.0.value() / 4 == index,
    {
        let kind: u64 = match (initiator, dir) {
            (Side::Client, Dir::Bi) => 0,
            (Side::Server, Dir::Bi) => 1,
            (Side::Client, Dir::Uni) => 2,
            (Side::Server, Dir::Uni) => 3,
        };
        match VarInt::from_u64(index * 4 + kind) {
            Ok(v) => StreamId(v),
            Err(_) => StreamId(VarInt::from_u32(0)),
        }
    }

    /// Which endpoint opened the stream.
    pub fn initiator(self) -> (side: Side)
        ensures
            side == self.spec_initiator(),
    {
        if self.0.into_inner() % 2 == 0 {
            Side::Client
        } else {
            Side::Server
        }
    }

    /// Which directions the stream carries data in.
    pub fn dir(self) -> (dir: Dir)
        ensures
            dir == self.spec_dir(),
    {
        if self.0.into_inner() / 2 % 2 == 0 {
            Dir::Bi
        } else {
            Dir::Uni
        }
    }

    /// Whether `side` has a receiving half of the stream.
    pub fn receivable_by(self, side: Side) -> (b: bool)
        ensures
            b == (self.spec_dir() == Dir::Bi || self.spec_initiator() != side),
    {
        self.dir() == Dir::Bi || self.initiator() != side
    }

    /// Whether `side` has a sending half of the stream.
    pub fn sendable_by(self, side: Side) -> (b: bool)
        ensures
            b == (self.spec_dir() == Dir::Bi || self.spec_initiator() == side),
    {
        self.dir() == Dir::Bi || self.initiator() == side
    }
}

/// The two lowest bits of an identifier tell who opened the stream and in which directions it
/// carries data: 0 and 1 for streams of both directions that the client or the server opened, 2 and
/// 3 for those that carry data only from the client or only from the server.
pub proof fn law_identifier_kinds(id: StreamId)
    ensures
        ({
            let kind = id.0.value() % 4;
            &&& kind == 0 <==> id.spec_initiator() == Side::Client && id.spec_dir() == Dir::Bi
            &&& kind == 1 <==> id.spec_initiator() == Side::Server && id.spec_dir() == Dir::Bi
            &&& kind == 2 <==> id.spec_initiator() == Side::Client && id.spec_dir() == Dir::Uni
            &&& kind == 3 <==> id.spec_initiator() == Side::Server && id.spec_dir() == Dir::Uni
        }),
{
}

} // verus!
