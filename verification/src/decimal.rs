//! Decimal text of integers: rendering and reading.

use vstd::prelude::*;
use vstd::string::*;

verus! {

/// The character that stands for the digit `d`.
pub open spec fn digit_char(d: nat) -> char {
    if d == 0 {
        '0'
    } else if d == 1 {
        '1'
    } else if d == 2 {
        '2'
    } else if d == 3 {
        '3'
    } else if d == 4 {
        '4'
    } else if d == 5 {
        '5'
    } else if d == 6 {
        '6'
    } else if d == 7 {
        '7'
    } else if d == 8 {
        '8'
    } else {
        '9'
    }
}

/// The decimal digits of `n`, most significant first, without leading zeros
/// (a single `0` for zero).
pub open spec fn decimal_nat(n: nat) -> Seq<char>
    decreases n,
{
    if n < 10 {
        seq![digit_char(n)]
    } else {
        decimal_nat(n / 10).push(digit_char(n % 10))
    }
}

/// The decimal text of a signed integer: a minus sign before the digits of a
/// negative number, no sign otherwise.
pub open spec fn decimal_int(v: int) -> Seq<char> {
    if v < 0 {
        seq!['-'] + decimal_nat((-v) as nat)
    } else {
        decimal_nat(v as nat)
    }
}

/// The one-character text of a digit.
pub fn digit_text(d: u8) -> (r: &'static str)
    requires
        d < 10,
    ensures
        r@ == seq![digit_char(d as nat)],
{
    proof {
        reveal_strlit("0");
        reveal_strlit("1");
        reveal_strlit("2");
        reveal_strlit("3");
        reveal_strlit("4");
        reveal_strlit("5");
        reveal_strlit("6");
        reveal_strlit("7");
        reveal_strlit("8");
        reveal_strlit("9");
    }
    let r = if d == 0 {
        "0"
    } else if d == 1 {
        "1"
    } else if d == 2 {
        "2"
    } else if d == 3 {
        "3"
    } else if d == 4 {
        "4"
    } else if d == 5 {
        "5"
    } else if d == 6 {
        "6"
    } else if d == 7 {
        "7"
    } else if d == 8 {
        "8"
    } else {
        "9"
    };
    assert(r@ =~= seq![digit_char(d as nat)]);
    r
}

/// Appends the decimal digits of `n` to `out`.
pub fn push_decimal(out: &mut String, n: u64)
    ensures
        final(out)@ == old(out)@ + decimal_nat(n as nat),
    decreases n,
{
    if n >= 10 {
        push_decimal(out, n / 10);
    }
    let d: u8 = (n % 10) as u8;
    out.append(digit_text(d));
    assert(final(out)@ =~= old(out)@ + decimal_nat(n as nat));
}

/// Appends the decimal text of `v` to `out`.
pub fn push_decimal_i32(out: &mut String, v: i32)
    ensures
        final(out)@ == old(out)@ + decimal_int(v as int),
{
    if v < 0 {
        out.append("-");
        proof {
            reveal_strlit("-");
        }
        let magnitude: u64 = (-(v as i64)) as u64;
        push_decimal(out, magnitude);
        assert(final(out)@ =~= old(out)@ + decimal_int(v as int));
    } else {
        push_decimal(out, v as u64);
    }
}

/// Why a text is not the decimal form of a 32-bit signed integer.
#[derive(Clone, Copy, Debug, PartialEq, Eq, Structural)]
pub enum NumberFault {
    /// The text is empty.
    Empty,
    /// A character that is no digit stands where a digit is needed, or a
    /// sign stands alone.
    InvalidDigit,
    /// The number is above the largest value of the type.
    TooLarge,
    /// The number is below the smallest value of the type.
    TooSmall,
}

/// What reading a run of digits from the left gives.
pub enum Digits {
    /// Every byte is a digit and the number is within the limit.
    Value(nat),
    /// The first byte at which reading stops is no digit.
    Invalid,
    /// The first byte at which reading stops takes the number over the limit.
    Beyond,
}

/// Whether `b` is an ASCII decimal digit.
pub open spec fn is_digit(b: u8) -> bool {
    48 <= b && b <= 57
}

/// Reads `d` from the left as a number of at most `limit`. The first byte
/// that is no digit, or that takes the number over the limit, decides.
pub open spec fn read_digits(d: Seq<u8>, limit: nat) -> Digits
    decreases d.len(),
{
    if d.len() == 0 {
        Digits::Value(0)
    } else {
        match read_digits(d.drop_last(), limit) {
            Digits::Value(v) => if !is_digit(d.last()) {
                Digits::Invalid
            } else if v * 10 + (d.last() - 48) > limit {
                Digits::Beyond
            } else {
                Digits::Value((v * 10 + (d.last() - 48)) as nat)
            },
            Digits::Invalid => Digits::Invalid,
            Digits::Beyond => Digits::Beyond,
        }
    }
}

/// The number that the bytes `s` denote: an optional `+` or `-`, then at
/// least one digit, with a value that fits in 32 bits; else the fault.
pub open spec fn number_outcome(s: Seq<u8>) -> Result<i32, NumberFault> {
    if s.len() == 0 {
        Err(NumberFault::Empty)
    } else if s.len() == 1 && (s[0] == 43 || s[0] == 45) {
        Err(NumberFault::InvalidDigit)
    } else if s[0] == 45 {
        match read_digits(s.skip(1), 2147483648) {
            Digits::Value(v) => Ok((-(v as int)) as i32),
            Digits::Invalid => Err(NumberFault::InvalidDigit),
            Digits::Beyond => Err(NumberFault::TooSmall),
        }
    } else {
        let d = if s[0] == 43 {
            s.skip(1)
        } else {
            s
        };
        match read_digits(d, 2147483647) {
            Digits::Value(v) => Ok(v as i32),
            Digits::Invalid => Err(NumberFault::InvalidDigit),
            Digits::Beyond => Err(NumberFault::TooLarge),
        }
    }
}

/// Once reading has stopped at a fault, more bytes change nothing.
pub proof fn lemma_fault_persists(d: Seq<u8>, limit: nat, k: int)
    requires
        0 <= k <= d.len(),
        !(read_digits(d.take(k), limit) is Value),
    ensures
        read_digits(d, limit) == read_digits(d.take(k), limit),
    decreases d.len(),
{
    if k == d.len() {
        assert(d.take(k) =~= d);
    } else {
        assert(d.drop_last().take(k) =~= d.take(k));
        lemma_fault_persists(d.drop_last(), limit, k);
    }
}

/// Reads a 32-bit signed integer from its decimal text.
pub fn parse_i32(bytes: &[u8]) -> (r: Result<i32, NumberFault>)
    ensures
        r == number_outcome(bytes@),
{
    let n: usize = bytes.len();
    if n == 0 {
        return Err(NumberFault::Empty);
    }
    let first: u8 = bytes[0];
    if n == 1 && (first == 43 || first == 45) {
        return Err(NumberFault::InvalidDigit);
    }
    let negative: bool = first == 45;
    let start: usize = if first == 43 || first == 45 {
        1
    } else {
        0
    };
    let limit: u64 = if negative {
        2147483648
    } else {
        2147483647
    };
    let ghost d: Seq<u8> = bytes@.skip(start as int);
    let mut acc: u64 = 0;
    let mut i: usize = start;
    proof {
        assert(d.take(0) =~= Seq::<u8>::empty());
        assert(bytes@.skip(0) =~= bytes@);
    }
    while i < n
        invariant
            n == bytes@.len(),
            n > 0,
            first == bytes@[0],
            !(n == 1 && (first == 43 || first == 45)),
            negative == (first == 45),
            start == (if first == 43 || first == 45 { 1usize } else { 0usize }),
            limit == (if negative { 2147483648u64 } else { 2147483647u64 }),
            start <= i <= n,
            d == bytes@.skip(start as int),
            start == 0 ==> d == bytes@,
            limit <= 2147483648,
            acc <= limit,
            read_digits(d.take(i - start), limit as nat) == Digits::Value(acc as nat),
        decreases n - i,
    {
        let b: u8 = bytes[i];
        let ghost k: int = i - start;
        proof {
            assert(d.take(k + 1).drop_last() =~= d.take(k));
            assert(d.take(k + 1).last() == b);
        }
        if b < 48 || b > 57 {
            proof {
                lemma_fault_persists(d, limit as nat, k + 1);
            }
            return Err(NumberFault::InvalidDigit);
        }
        let next: u64 = acc * 10 + (b - 48) as u64;
        if next > limit {
            proof {
                lemma_fault_persists(d, limit as nat, k + 1);
            }
            if negative {
                return Err(NumberFault::TooSmall);
            } else {
                return Err(NumberFault::TooLarge);
            }
        }
        acc = next;
        i = i + 1;
    }
    proof {
        assert(d.take(n - start) =~= d);
    }
    if negative {
        let wide: i64 = -(acc as i64);
        Ok(wide as i32)
    } else {
        Ok(acc as i32)
    }
}

} // verus!
