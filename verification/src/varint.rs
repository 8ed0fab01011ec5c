//! Variable-length integers of QUIC version 1.

use vstd::prelude::*;

verus! {

/// First value that no variable-length integer can hold.
pub const VARINT_BOUND: u64 = 0x4000_0000_0000_0000;

/// Number of octets of the longest encoding.
pub const MAX_SIZE: usize = 8;

/// An integer below 2^62.
#[derive(Debug, Clone, Copy, PartialEq, Eq, Hash, Structural)]
pub struct VarInt(u64);

/// The value is not below 2^62.
#[derive(Debug, Clone, Copy, PartialEq, Eq, Structural)]
pub struct VarIntBoundsExceeded;

/// Number of octets in the shortest encoding of `x`.
pub open spec fn encoded_size(x: u64) -> nat {
    if x < 0x40 {
        1
    } else if x < 0x4000 {
        2
    } else if x < 0x4000_0000 {
        4
    } else {
        8
    }
}

/// The shortest encoding of `x`: the two top bits of the first octet give the length, the
/// rest is `x` in network byte order.
#[verifier::opaque]
pub open spec fn encoding(x: u64) -> Seq<u8> {
    if x < 0x40 {
        seq![x as u8]
    } else if x < 0x4000 {
        seq![(0x40 + x / 0x100) as u8, (x % 0x100) as u8]
    } else if x < 0x4000_0000 {
        seq![
            (0x80 + x / 0x100_0000) as u8,
            (x / 0x1_0000 % 0x100) as u8,
            (x / 0x100 % 0x100) as u8,
            (x % 0x100) as u8,
        ]
    } else {
        seq![
            (0xc0 + x / 0x100_0000_0000_0000) as u8,
            (x / 0x1_0000_0000_0000 % 0x100) as u8,
            (x / 0x100_0000_0000 % 0x100) as u8,
            (x / 0x1_0000_0000 % 0x100) as u8,
            (x / 0x100_0000 % 0x100) as u8,
            (x / 0x1_0000 % 0x100) as u8,
            (x / 0x100 % 0x100) as u8,
            (x % 0x100) as u8,
        ]
    }
}

/// The value of the first `n` octets of `s` in network byte order.
pub open spec fn big_endian(s: Seq<u8>, n: nat) -> nat
    decreases n,
{
    if n == 0 {
        0
    } else {
        big_endian(s, (n - 1) as nat) * 0x100 + s[n - 1] as nat
    }
}

/// Length that the first octet of an encoding announces.
pub open spec fn announced_size(first: u8) -> nat {
    if first < 0x40 {
        1
    } else if first < 0x80 {
        2
    } else if first < 0xc0 {
        4
    } else {
        8
    }
}

/// What the length bits add to the value of an encoding read as one number.
pub open spec fn length_bits(size: nat) -> nat {
    if size == 1 {
        0
    } else if size == 2 {
        0x4000
    } else if size == 4 {
        0x8000_0000
    } else {
        0xc000_0000_0000_0000
    }
}

/// The integer at the front of `s` and the number of octets it takes, or `None` where `s`
/// ends before the integer does.
#[verifier::opaque]
pub open spec fn decoding(s: Seq<u8>) -> Option<(VarInt, nat)> {
    if s.len() == 0 || s.len() < announced_size(s[0]) {
        None
    } else {
        let size = announced_size(s[0]);
        Some((VarInt::of((big_endian(s, size) - length_bits(size)) as u64), size))
    }
}

/// The encoding has the announced length.
pub broadcast proof fn lemma_encoding_len(x: u64)
    ensures
        #[trigger] encoding(x).len() == encoded_size(x),
{
    reveal(encoding);
}

proof fn lemma_big_endian(s: Seq<u8>)
    ensures
        big_endian(s, 1) == s[0],
        big_endian(s, 2) == s[0] * 0x100 + s[1],
        big_endian(s, 4) == s[0] * 0x100_0000 + s[1] * 0x1_0000 + s[2] * 0x100 + s[3],
        big_endian(s, 8) == s[0] * 0x100_0000_0000_0000 + s[1] * 0x1_0000_0000_0000 + s[2]
            * 0x100_0000_0000 + s[3] * 0x1_0000_0000 + s[4] * 0x100_0000 + s[5] * 0x1_0000 + s[6]
            * 0x100 + s[7],
{
    reveal_with_fuel(big_endian, 9);
}

proof fn lemma_octets(x: u64)
    requires
        x < VARINT_BOUND,
    ensures
        x == x / 0x100_0000_0000_0000 * 0x100_0000_0000_0000 + x / 0x1_0000_0000_0000 % 0x100
            * 0x1_0000_0000_0000 + x / 0x100_0000_0000 % 0x100 * 0x100_0000_0000 + x / 0x1_0000_0000
            % 0x100 * 0x1_0000_0000 + x / 0x100_0000 % 0x100 * 0x100_0000 + x / 0x1_0000 % 0x100
            * 0x1_0000 + x / 0x100 % 0x100 * 0x100 + x % 0x100,
{
    assert(x / 0x1_0000 == x / 0x100 / 0x100);
    assert(x / 0x100_0000 == x / 0x1_0000 / 0x100);
    assert(x / 0x1_0000_0000 == x / 0x100_0000 / 0x100);
    assert(x / 0x100_0000_0000 == x / 0x1_0000_0000 / 0x100);
    assert(x / 0x1_0000_0000_0000 == x / 0x100_0000_0000 / 0x100);
    assert(x / 0x100_0000_0000_0000 == x / 0x1_0000_0000_0000 / 0x100);
}

/// The octets of the longest encoding, as numbers.
proof fn lemma_long_encoding(x: u64, rest: Seq<u8>)
    requires
        0x4000_0000 <= x < VARINT_BOUND,
    ensures
        ({
            let s = encoding(x) + rest;
            &&& s.len() == 8 + rest.len()
            &&& s[0] == 0xc0 + x / 0x100_0000_0000_0000
            &&& s[1] == x / 0x1_0000_0000_0000 % 0x100
            &&& s[2] == x / 0x100_0000_0000 % 0x100
            &&& s[3] == x / 0x1_0000_0000 % 0x100
            &&& s[4] == x / 0x100_0000 % 0x100
            &&& s[5] == x / 0x1_0000 % 0x100
            &&& s[6] == x / 0x100 % 0x100
            &&& s[7] == x % 0x100
        }),
{
    reveal(encoding);
    assert(x / 0x100_0000_0000_0000 < 0x40);
}

#[verifier::spinoff_prover]
proof fn lemma_decode_long(x: u64, rest: Seq<u8>)
    requires
        0x4000_0000 <= x < VARINT_BOUND,
    ensures
        decoding(encoding(x) + rest) == Some((VarInt::of(x), 8nat)),
{
    reveal(encoding);
    reveal(decoding);
    let s = encoding(x) + rest;
    lemma_long_encoding(x, rest);
    lemma_octets(x);
    lemma_big_endian(s);
    assert(announced_size(s[0]) == 8);
    assert(big_endian(s, 8) == x + 0xc000_0000_0000_0000);
}

#[verifier::spinoff_prover]
proof fn lemma_decode_middle(x: u64, rest: Seq<u8>)
    requires
        0x4000 <= x < 0x4000_0000,
    ensures
        decoding(encoding(x) + rest) == Some((VarInt::of(x), 4nat)),
{
    reveal(encoding);
    reveal(decoding);
    let s = encoding(x) + rest;
    assert(x / 0x100_0000 < 0x40);
    assert(s[0] == 0x80 + x / 0x100_0000);
    assert(s[1] == x / 0x1_0000 % 0x100);
    assert(s[2] == x / 0x100 % 0x100);
    assert(s[3] == x % 0x100);
    assert(x / 0x1_0000 == x / 0x100 / 0x100);
    assert(x / 0x100_0000 == x / 0x1_0000 / 0x100);
    lemma_big_endian(s);
    assert(announced_size(s[0]) == 4);
    assert(big_endian(s, 4) == x + 0x8000_0000);
}

#[verifier::spinoff_prover]
proof fn lemma_decode_short(x: u64, rest: Seq<u8>)
    requires
        x < 0x4000,
    ensures
        decoding(encoding(x) + rest) == Some((VarInt::of(x), encoded_size(x))),
{
    reveal(encoding);
    reveal(decoding);
    let s = encoding(x) + rest;
    lemma_big_endian(s);
    if x >= 0x40 {
        assert(s[0] == 0x40 + x / 0x100);
        assert(s[1] == x % 0x100);
        assert(big_endian(s, 2) == x + 0x4000);
    } else {
        assert(s[0] == x);
    }
}

/// An encoding followed by anything decodes to the integer it was made from, and exactly the
/// octets of the encoding are consumed.
pub proof fn law_decode_encode(x: u64, rest: Seq<u8>)
    requires
        x < VARINT_BOUND,
    ensures
        decoding(encoding(x) + rest) == Some((VarInt::of(x), encoding(x).len())),
        encoding(x).len() == encoded_size(x),
{
    lemma_encoding_len(x);
    if x >= 0x4000_0000 {
        lemma_decode_long(x, rest);
    } else if x >= 0x4000 {
        lemma_decode_middle(x, rest);
    } else {
        lemma_decode_short(x, rest);
    }
}

/// Every decoded integer is below 2^62 and takes one, two, four or eight of the octets at
/// hand.
pub proof fn law_decoded_range(s: Seq<u8>)
    ensures
        decoding(s) matches Some((v, n)) ==> v.value() < VARINT_BOUND && (n == 1 || n == 2 || n == 4
            || n == 8) && n <= s.len(),
{
    reveal(decoding);
    lemma_big_endian(s);
}

/// No integer has an encoding shorter than the one that is written.
pub proof fn law_encoding_shortest(s: Seq<u8>)
    ensures
        decoding(s) matches Some((v, n)) ==> encoded_size(v.value()) <= n,
{
    reveal(decoding);
    lemma_big_endian(s);
}

/// What an integer decodes to does not depend on the octets that follow it.
pub proof fn law_decode_prefix(s: Seq<u8>, rest: Seq<u8>)
    ensures
        decoding(s) is Some ==> decoding(s + rest) == decoding(s),
{
    reveal(decoding);
    lemma_big_endian(s);
    lemma_big_endian(s + rest);
}

impl VarInt {
    /// Every integer that exists is below 2^62.
    #[verifier::type_invariant]
    pub open spec fn in_range(self) -> bool {
        self.value() < VARINT_BOUND
    }

    /// The integer itself.
    pub closed spec fn value(self) -> u64 {
        self.0
    }

    /// The variable-length integer that stands for `x`.
    pub closed spec fn of(x: u64) -> VarInt {
        VarInt(x)
    }

    /// `of` and `value` undo each other.
    pub broadcast proof fn lemma_of_value(x: u64)
        ensures
            (#[trigger] VarInt::of(x)).value() == x,
    {
    }

    /// `of` and `value` undo each other.
    pub broadcast proof fn lemma_value_of(self)
        ensures
            VarInt::of(#[trigger] self.value()) == self,
    {
    }

    /// Construct from a value that always fits.
    pub fn from_u32(x: u32) -> (v: VarInt)
        ensures
            v == VarInt::of(x as u64),
    {
        VarInt(x as u64)
    }

    /// Construct from a value that may be too large.
    pub fn from_u64(x: u64) -> (r: Result<VarInt, VarIntBoundsExceeded>)
        ensures
            x < VARINT_BOUND ==> r == Ok::<VarInt, VarIntBoundsExceeded>(VarInt::of(x)),
            x >= VARINT_BOUND ==> r == Err::<VarInt, VarIntBoundsExceeded>(VarIntBoundsExceeded),
    {
        if x < VARINT_BOUND {
            Ok(VarInt(x))
        } else {
            Err(VarIntBoundsExceeded)
        }
    }

    /// The largest variable-length integer.
    pub fn max() -> (v: VarInt)
        ensures
            v.value() == VARINT_BOUND - 1,
    {
        VarInt(VARINT_BOUND - 1)
    }

    /// Extract the integer.
    pub fn into_inner(self) -> (x: u64)
        ensures
            x == self.value(),
            x < VARINT_BOUND,
    {
        proof {
            use_type_invariant(&self);
        }
        self.0
    }

    /// Number of octets in the encoding.
    pub fn size(self) -> (n: usize)
        ensures
            n == encoded_size(self.value()),
            n == encoding(self.value()).len(),
            n <= MAX_SIZE,
    {
        proof {
            reveal(encoding);
        }
        if self.0 < 0x40 {
            1
        } else if self.0 < 0x4000 {
            2
        } else if self.0 < 0x4000_0000 {
            4
        } else {
            8
        }
    }

    /// Append the encoding to `buf`.
    pub fn encode(self, buf: &mut Vec<u8>)
        ensures
            final(buf)@ == old(buf)@ + encoding(self.value()),
    {
        let x: u64 = self.into_inner();
        if x < 0x40 {
            buf.push(x as u8);
        } else if x < 0x4000 {
            buf.push((0x40 + x / 0x100) as u8);
            buf.push((x % 0x100) as u8);
        } else if x < 0x4000_0000 {
            buf.push((0x80 + x / 0x100_0000) as u8);
            buf.push((x / 0x1_0000 % 0x100) as u8);
            buf.push((x / 0x100 % 0x100) as u8);
            buf.push((x % 0x100) as u8);
        } else {
            buf.push((0xc0 + x / 0x100_0000_0000_0000) as u8);
            buf.push((x / 0x1_0000_0000_0000 % 0x100) as u8);
            buf.push((x / 0x100_0000_0000 % 0x100) as u8);
            buf.push((x / 0x1_0000_0000 % 0x100) as u8);
            buf.push((x / 0x100_0000 % 0x100) as u8);
            buf.push((x / 0x1_0000 % 0x100) as u8);
            buf.push((x / 0x100 % 0x100) as u8);
            buf.push((x % 0x100) as u8);
        }
        proof {
            reveal(encoding);
        }
        assert(buf@ =~= old(buf)@ + encoding(self.value()));
    }

    /// Read the integer at the front of `s`; the second component is the number of octets
    /// it takes.
    pub fn decode(s: &[u8]) -> (r: Option<(VarInt, usize)>)
        ensures
            r is Some <==> decoding(s@) is Some,
            r matches Some((v, n)) ==> decoding(s@) == Some((v, n as nat)) && 1 <= n <= s@.len() && n
                <= MAX_SIZE,
    {
        proof {
            reveal(decoding);
        }
        if s.len() == 0 {
            return None;
        }
        let first: u8 = s[0];
        proof {
            lemma_big_endian(s@);
        }
        if first < 0x40 {
            Some((VarInt(first as u64), 1))
        } else if first < 0x80 {
            if s.len() < 2 {
                return None;
            }
            Some((VarInt((first - 0x40) as u64 * 0x100 + s[1] as u64), 2))
        } else if first < 0xc0 {
            if s.len() < 4 {
                return None;
            }
            Some(
                (
                    VarInt(
                        (first - 0x80) as u64 * 0x100_0000 + s[1] as u64 * 0x1_0000 + s[2] as u64
                            * 0x100 + s[3] as u64,
                    ),
                    4,
                ),
            )
        } else {
            if s.len() < 8 {
                return None;
            }
            Some(
                (
                    VarInt(
                        (first - 0xc0) as u64 * 0x100_0000_0000_0000 + s[1] as u64
                            * 0x1_0000_0000_0000 + s[2] as u64 * 0x100_0000_0000 + s[3] as u64
                            * 0x1_0000_0000 + s[4] as u64 * 0x100_0000 + s[5] as u64 * 0x1_0000
                            + s[6] as u64 * 0x100 + s[7] as u64,
                    ),
                    8,
                ),
            )
        }
    }
}

pub broadcast group group_varint {
    VarInt::lemma_of_value,
    VarInt::lemma_value_of,
    lemma_encoding_len,
}

/// The octets of an integer: as many as its size needs, the two top bits of the first telling how
/// many, and the rest the integer in network byte order.
pub proof fn law_encoding_octets(x: u64)
    requires
        x < 0x4000_0000_0000_0000,
    ensures
        ({
            let s = encoding(x);
            &&& x < 0x40 ==> s.len() == 1 && s[0] == x
            &&& 0x40 <= x < 0x4000 ==> s.len() == 2 && s[0] / 0x40 == 1 && (s[0] % 0x40) * 0x100
                + s[1] == x
            &&& 0x4000 <= x < 0x4000_0000 ==> s.len() == 4 && s[0] / 0x40 == 2 && (s[0] % 0x40)
                * 0x100_0000 + s[1] * 0x1_0000 + s[2] * 0x100 + s[3] == x
            &&& 0x4000_0000 <= x ==> s.len() == 8 && s[0] / 0x40 == 3 && (s[0] % 0x40)
                * 0x100_0000_0000_0000 + s[1] * 0x1_0000_0000_0000 + s[2] * 0x100_0000_0000 + s[3]
                * 0x1_0000_0000 + s[4] * 0x100_0000 + s[5] * 0x1_0000 + s[6] * 0x100 + s[7] == x
        }),
{
    reveal(encoding);
    if x >= 0x4000_0000 {
        lemma_long_encoding(x, Seq::empty());
        assert(encoding(x) + Seq::<u8>::empty() =~= encoding(x));
        lemma_octets(x);
    } else if x >= 0x4000 {
        assert(x / 0x100_0000 < 0x40);
        assert(x / 0x1_0000 == x / 0x100 / 0x100);
        assert(x / 0x100_0000 == x / 0x1_0000 / 0x100);
    }
}

/// The two top bits of the first octet tell whether an integer takes one, two, four or eight
/// octets; it is those octets in network byte order without these bits, whether or not fewer would
/// have done, and there is none where octets are missing.
pub proof fn law_decoding_octets(s: Seq<u8>)
    requires
        s.len() > 0,
    ensures
        ({
            let kind = s[0] / 0x40;
            let top = s[0] % 0x40;
            &&& kind == 0 ==> (decoding(s) matches Some((v, n)) && n == 1 && v.value() == top)
            &&& kind == 1 && s.len() < 2 ==> decoding(s) is None
            &&& kind == 1 && s.len() >= 2 ==> (decoding(s) matches Some((v, n)) && n == 2
                && v.value() == top * 0x100 + s[1])
            &&& kind == 2 && s.len() < 4 ==> decoding(s) is None
            &&& kind == 2 && s.len() >= 4 ==> (decoding(s) matches Some((v, n)) && n == 4
                && v.value() == top * 0x100_0000 + s[1] * 0x1_0000 + s[2] * 0x100 + s[3])
            &&& kind == 3 && s.len() < 8 ==> decoding(s) is None
            &&& kind == 3 && s.len() >= 8 ==> (decoding(s) matches Some((v, n)) && n == 8
                && v.value() == top * 0x100_0000_0000_0000 + s[1] * 0x1_0000_0000_0000 + s[2]
                * 0x100_0000_0000 + s[3] * 0x1_0000_0000 + s[4] * 0x100_0000 + s[5] * 0x1_0000
                + s[6] * 0x100 + s[7])
        }),
        decoding(Seq::empty()) is None,
{
    broadcast use VarInt::lemma_of_value;

    reveal(decoding);
    lemma_big_endian(s);
    let top = (s[0] % 0x40) as int;
    let kind = (s[0] / 0x40) as int;
    assert(s[0] == kind * 0x40 + top);
    assert(kind < 4);
}

} // verus!
