//! Numbers in decimal notation: writing them and reading them back.
use crate::text::{chars_of, ends_in_digit, is_digit};
use vstd::prelude::*;

verus! {

/// The digit that stands for `d`, from 0 to 9.
pub open spec fn digit(d: int) -> char {
    ('0' as int + d) as char
}

/// The number that the digit `c` stands for.
pub open spec fn digit_value(c: char) -> int {
    c as int - '0' as int
}

/// The decimal notation of `n`, without leading zeros.
pub open spec fn decimal(n: nat) -> Seq<char>
    decreases n,
{
    if n < 10 {
        seq![digit(n as int)]
    } else {
        decimal(n / 10).push(digit(n as int % 10))
    }
}

/// The decimal notation of `n`, with a minus sign in front of a negative number.
pub open spec fn signed_decimal(n: int) -> Seq<char> {
    if n < 0 {
        seq!['-'] + decimal((-n) as nat)
    } else {
        decimal(n as nat)
    }
}

/// The character of the digit `d`.
fn digit_char(d: u64) -> (c: char)
    requires
        d < 10,
    ensures
        c == digit(d as int),
{
    let code: u8 = 48 + d as u8;
    code as char
}

/// The decimal notation of `n`.
pub fn write_u64(n: u64) -> (s: String)
    ensures
        s@ == decimal(n as nat),
    decreases n,
{
    let mut s = if n < 10 {
        String::new()
    } else {
        write_u64(n / 10)
    };
    s.push(digit_char(n % 10));
    s
}

/// The decimal notation of `n`.
pub fn write_i32(n: i32) -> (s: String)
    ensures
        s@ == signed_decimal(n as int),
{
    if n < 0 {
        let size: u64 = (-(n as i64)) as u64;
        let mut s = String::new();
        s.push('-');
        let digits = write_u64(size);
        s.append(digits.as_str());
        assert(s@ == seq!['-'] + decimal((-n) as nat));
        s
    } else {
        write_u64(n as u64)
    }
}

/// Why a text is no number.
#[derive(Debug, Clone, Copy, PartialEq, Eq, Structural)]
pub enum ParseIntError {
    /// The text is empty.
    Empty,
    /// A character is no digit.
    InvalidDigit,
    /// The number is larger than the type holds.
    PosOverflow,
}

/// The number that the digits `s` stand for, if it is at most `max`; otherwise
/// what is wrong with the first digit that cannot be taken in.
pub open spec fn digits_value(s: Seq<char>, max: nat) -> Result<nat, ParseIntError>
    decreases s.len(),
{
    if s.len() == 0 {
        Ok(0)
    } else {
        match digits_value(s.drop_last(), max) {
            Err(e) => Err(e),
            Ok(v) => if !is_digit(s.last()) {
                Err(ParseIntError::InvalidDigit)
            } else if v * 10 + digit_value(s.last()) > max {
                Err(ParseIntError::PosOverflow)
            } else {
                Ok((v * 10 + digit_value(s.last())) as nat)
            },
        }
    }
}

/// The number that `s` stands for: digits with an optional plus sign in front.
pub open spec fn parsed(s: Seq<char>, max: nat) -> Result<nat, ParseIntError> {
    if s.len() == 0 {
        Err(ParseIntError::Empty)
    } else if s.len() > 1 && s[0] == '+' {
        digits_value(s.skip(1), max)
    } else {
        digits_value(s, max)
    }
}

/// A prefix that cannot be read decides for the whole text.
proof fn lemma_error_stays(s: Seq<char>, n: int, max: nat)
    requires
        0 <= n <= s.len(),
        digits_value(s.take(n), max) is Err,
    ensures
        digits_value(s, max) == digits_value(s.take(n), max),
    decreases s.len() - n,
{
    if n == s.len() {
        assert(s.take(n) == s);
    } else {
        assert(s.take(n + 1).drop_last() == s.take(n));
        lemma_error_stays(s, n + 1, max);
    }
}

/// Reads `s` as a number of at most `max`.
pub fn parse_u64(s: &str, max: u64) -> (n: Result<u64, ParseIntError>)
    ensures
        match n {
            Ok(v) => parsed(s@, max as nat) == Ok::<nat, ParseIntError>(v as nat) && v <= max,
            Err(e) => parsed(s@, max as nat) == Err::<nat, ParseIntError>(e),
        },
{
    let x = chars_of(s);
    if x.len() == 0 {
        return Err(ParseIntError::Empty);
    }
    let start: usize = if x.len() > 1 && x[0] == '+' {
        1
    } else {
        0
    };
    let ghost digits = x@.skip(start as int);
    assert(x@.skip(0) == x@);
    let mut v: u64 = 0;
    let mut i: usize = start;
    assert(digits.take(0) == Seq::<char>::empty());
    while i < x.len()
        invariant
            start <= i <= x.len(),
            digits == x@.skip(start as int),
            v <= max,
            digits_value(digits.take(i - start), max as nat) == Ok::<nat, ParseIntError>(v as nat),
            x@ == s@,
            x@.len() > 0,
            start == (if x@.len() > 1 && x@[0] == '+' {
                1int
            } else {
                0int
            }),
            x@.skip(0) == x@,
        decreases x.len() - i,
    {
        let c: char = x[i];
        let ghost next = digits.take(i - start + 1);
        assert(next.drop_last() == digits.take(i - start));
        assert(next.last() == c);
        if c < '0' || c > '9' {
            proof {
                lemma_error_stays(digits, i - start + 1, max as nat);
            }
            return Err(ParseIntError::InvalidDigit);
        }
        let d: u64 = (c as u32 - '0' as u32) as u64;
        if v > max / 10 || d > max - v * 10 {
            proof {
                lemma_error_stays(digits, i - start + 1, max as nat);
            }
            return Err(ParseIntError::PosOverflow);
        }
        v = v * 10 + d;
        i = i + 1;
    }
    assert(digits.take(i - start) == digits);
    Ok(v)
}

/// Every character of a decimal notation is a digit.
pub proof fn lemma_decimal_digits(n: nat)
    ensures
        decimal(n).len() > 0,
        ends_in_digit(decimal(n)),
        forall|i: int| 0 <= i < decimal(n).len() ==> is_digit(#[trigger] decimal(n)[i]),
    decreases n,
{
    if n >= 10 {
        lemma_decimal_digits(n / 10);
    }
}

/// Reading a decimal notation gives the number back.
pub proof fn lemma_digits_round_trip(n: nat, max: nat)
    requires
        n <= max,
    ensures
        digits_value(decimal(n), max) == Ok::<nat, ParseIntError>(n),
    decreases n,
{
    if n >= 10 {
        lemma_digits_round_trip(n / 10, max);
        assert(decimal(n).drop_last() == decimal(n / 10));
    } else {
        assert(decimal(n).drop_last() == Seq::<char>::empty());
        assert(digits_value(Seq::<char>::empty(), max) == Ok::<nat, ParseIntError>(0));
    }
}

/// What is written in decimal notation is read back as the same number.
pub proof fn law_decimal_round_trip(n: nat, max: nat)
    requires
        n <= max,
    ensures
        parsed(decimal(n), max) == Ok::<nat, ParseIntError>(n),
{
    lemma_decimal_digits(n);
    lemma_digits_round_trip(n, max);
}

proof fn lemma_digits_fit(s: Seq<char>, max: nat)
    ensures
        digits_value(s, max) matches Ok(n) ==> n <= max && forall|i: int|
            0 <= i < s.len() ==> is_digit(#[trigger] s[i]),
    decreases s.len(),
{
    if s.len() > 0 {
        lemma_digits_fit(s.drop_last(), max);
        if digits_value(s, max) is Ok {
            assert forall|i: int| 0 <= i < s.len() implies is_digit(#[trigger] s[i]) by {
                if i < s.len() - 1 {
                    assert(s[i] == s.drop_last()[i]);
                }
            }
        }
    }
}

/// A number that is read is not larger than it may be.
pub proof fn lemma_parsed_fits(s: Seq<char>, max: nat)
    ensures
        parsed(s, max) matches Ok(n) ==> n <= max,
{
    lemma_digits_fit(s, max);
    if s.len() > 0 {
        lemma_digits_fit(s.skip(1), max);
    }
}

/// The digits of a number: the ones of a number below ten, and one more for each power of
/// ten.
pub proof fn law_decimal_by_digits(q: nat, d: nat)
    requires
        d < 10,
    ensures
        decimal(d) == seq![(0x30 + d) as char],
        q > 0 ==> decimal(10 * q + d) == decimal(q).push((0x30 + d) as char),
        signed_decimal(q as int) == decimal(q),
        q > 0 ==> signed_decimal(-(q as int)) == seq!['-'] + decimal(q),
{
    assert(q > 0 ==> (10 * q + d) / 10 == q);
    assert((10 * q + d) as int % 10 == d);
}

/// One digit more makes ten times the number and the digit, if that is not too large. A
/// text that cannot be read stays so.
pub proof fn law_one_more_digit(s: Seq<char>, c: char, max: nat)
    requires
        s.len() > 0,
        s != seq!['+'],
    ensures
        parsed(s.push(c), max) == (match parsed(s, max) {
            Err(e) => Err::<nat, ParseIntError>(e),
            Ok(n) => if !('0' <= c <= '9') {
                Err(ParseIntError::InvalidDigit)
            } else if 10 * n + (c as int - 0x30) > max {
                Err(ParseIntError::PosOverflow)
            } else {
                Ok((10 * n + (c as int - 0x30)) as nat)
            },
        }),
{
    let t = s.push(c);
    if s[0] == '+' {
        if s.len() == 1 {
            assert(s =~= seq!['+']);
        }
        assert(t.skip(1).drop_last() =~= s.skip(1));
        assert(t.skip(1).last() == c);
    } else {
        assert(t.drop_last() =~= s);
    }
}

/// One character is read as a digit, and a plus sign in front of a number does not matter.
/// Nothing, and a sign alone, are no numbers.
pub proof fn law_first_digit(c: char, s: Seq<char>, max: nat)
    ensures
        parsed(Seq::empty(), max) == Err::<nat, ParseIntError>(ParseIntError::Empty),
        parsed(seq![c], max) == (if !('0' <= c <= '9') {
            Err::<nat, ParseIntError>(ParseIntError::InvalidDigit)
        } else if c as int - 0x30 > max {
            Err(ParseIntError::PosOverflow)
        } else {
            Ok((c as int - 0x30) as nat)
        }),
        s.len() > 0 && s[0] != '+' ==> parsed(seq!['+'] + s, max) == parsed(s, max),
{
    assert(seq![c].drop_last() =~= Seq::<char>::empty());
    assert((seq!['+'] + s).skip(1) =~= s);
    reveal_with_fuel(digits_value, 2);
}

} // verus!
