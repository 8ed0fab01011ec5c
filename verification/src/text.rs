//! Numbers in diagnostic messages.

use vstd::prelude::*;
use vstd::string::*;

verus! {

/// The character for a digit below sixteen.
pub open spec fn digit(d: nat) -> char {
    if d < 10 {
        (48 + d) as char
    } else {
        (87 + d) as char
    }
}

/// `n` written in the given base, most significant digit first and without leading zeros.
pub open spec fn numeral(n: nat, base: nat) -> Seq<char>
    decreases n,
{
    if n < base || base < 2 {
        seq![digit(n)]
    } else {
        proof {
            vstd::arithmetic::div_mod::lemma_div_decreases(n as int, base as int);
        }
        numeral(n / base, base).push(digit(n % base))
    }
}

fn digit_str(d: u64) -> (s: &'static str)
    requires
        d < 16,
    ensures
        s@ == seq![digit(d as nat)],
{
    proof {
        reveal_strlit("0");
        reveal_strlit("1");
        reveal_strlit("2");
        reveal_strlit("3");
        reveal_strlit("4");
        reveal_strlit("5");
        reveal_strlit("6");
        reveal_strlit("7");
        reveal_strlit("8");
        reveal_strlit("9");
        reveal_strlit("a");
        reveal_strlit("b");
        reveal_strlit("c");
        reveal_strlit("d");
        reveal_strlit("e");
        reveal_strlit("f");
    }
    let s: &'static str = match d {
        0 => "0",
        1 => "1",
        2 => "2",
        3 => "3",
        4 => "4",
        5 => "5",
        6 => "6",
        7 => "7",
        8 => "8",
        9 => "9",
        10 => "a",
        11 => "b",
        12 => "c",
        13 => "d",
        14 => "e",
        _ => "f",
    };
    assert(s@ =~= seq![digit(d as nat)]);
    s
}

fn number(n: u64, base: u64) -> (s: String)
    requires
        2 <= base <= 16,
    ensures
        s@ == numeral(n as nat, base as nat),
    decreases n,
{
    if n < base {
        digit_str(n).to_owned()
    } else {
        proof {
            vstd::arithmetic::div_mod::lemma_div_decreases(n as int, base as int);
        }
        let mut s = number(n / base, base);
        s.append(digit_str(n % base));
        assert(s@ =~= numeral(n as nat / base as nat, base as nat).push(digit(n as nat % base as nat)));
        s
    }
}

/// The decimal numeral of `n`.
pub fn decimal(n: u64) -> (s: String)
    ensures
        s@ == numeral(n as nat, 10),
{
    number(n, 10)
}

/// The hexadecimal numeral of `n`, prefixed by `0x`.
pub fn hexadecimal(n: u64) -> (s: String)
    ensures
        s@ == "0x"@ + numeral(n as nat, 16),
{
    let mut s = "0x".to_owned();
    s.append(number(n, 16).as_str());
    s
}

/// What a digit counts for.
pub open spec fn digit_value(c: char) -> nat {
    if c as u32 >= 97 {
        (c as u32 - 87) as nat
    } else {
        (c as u32 - 48) as nat
    }
}

/// The number that digits stand for in a base, most significant first.
pub open spec fn read_number(s: Seq<char>, base: nat) -> nat
    decreases s.len(),
{
    if s.len() == 0 {
        0
    } else {
        read_number(s.drop_last(), base) * base + digit_value(s.last())
    }
}

/// A numeral reads as the number it was written for, in decimal digits or those up to `f`, and
/// does not begin with a zero but for zero itself.
pub proof fn law_numeral_reads_back(n: nat, base: nat)
    requires
        2 <= base <= 16,
    ensures
        read_number(numeral(n, base), base) == n,
        numeral(n, base).len() > 0,
        n > 0 ==> numeral(n, base)[0] != '0',
        forall|i: int|
            0 <= i < numeral(n, base).len() ==> {
                let c = #[trigger] numeral(n, base)[i] as u32;
                48 <= c <= 57 || 97 <= c <= 102
            },
    decreases n,
{
    let s = numeral(n, base);
    if n < base {
        assert(s =~= seq![digit(n)]);
        assert(s.drop_last() =~= Seq::empty());
        assert(read_number(s.drop_last(), base) == 0);
        vstd::arithmetic::mul::lemma_mul_basics(base as int);
        assert(digit_value(digit(n)) == n);
        assert(s.last() == digit(n));
    } else {
        vstd::arithmetic::div_mod::lemma_div_decreases(n as int, base as int);
        vstd::arithmetic::div_mod::lemma_fundamental_div_mod(n as int, base as int);
        vstd::arithmetic::div_mod::lemma_mod_bound(n as int, base as int);
        vstd::arithmetic::div_mod::lemma_div_non_zero(n as int, base as int);
        let front = numeral(n / base, base);
        law_numeral_reads_back(n / base, base);
        assert(s.drop_last() =~= front);
        assert(s.last() == digit(n % base));
        assert(digit_value(digit(n % base)) == n % base);
        vstd::arithmetic::mul::lemma_mul_is_commutative(base as int, (n / base) as int);
        assert(s[0] == front[0]);
    }
}

} // verus!
