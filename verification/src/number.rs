//! Reading and writing integers as text.

use vstd::prelude::*;
use vstd::string::*;

use crate::text::chars_of;

verus! {

/// Why a text is not an integer of the wanted range.
#[derive(Debug, Clone, Copy, PartialEq, Eq, Structural)]
pub enum NumberError {
    /// The text is empty.
    Empty,
    /// A character is not a digit, or a sign stands alone or out of place.
    InvalidDigit,
    /// The value is above the range.
    PosOverflow,
    /// The value is below the range.
    NegOverflow,
}

impl NumberError {
    /// What the error says.
    pub open spec fn spec_message(self) -> Seq<char> {
        match self {
            NumberError::Empty => "cannot parse integer from empty string"@,
            NumberError::InvalidDigit => "invalid digit found in string"@,
            NumberError::PosOverflow => "number too large to fit in target type"@,
            NumberError::NegOverflow => "number too small to fit in target type"@,
        }
    }

    /// What the error says.
    pub fn message(&self) -> (r: String)
        ensures
            r@ == self.spec_message(),
    {
        match self {
            NumberError::Empty => "cannot parse integer from empty string".to_owned(),
            NumberError::InvalidDigit => "invalid digit found in string".to_owned(),
            NumberError::PosOverflow => "number too large to fit in target type".to_owned(),
            NumberError::NegOverflow => "number too small to fit in target type".to_owned(),
        }
    }
}

// ---------------------------------------------------------------------------
// Writing
// ---------------------------------------------------------------------------

/// The decimal digit `d`.
pub open spec fn digit_char(d: nat) -> char {
    (48 + d) as char
}

/// `n` in decimal, without leading zeros.
pub open spec fn decimal(n: nat) -> Seq<char>
    decreases n,
{
    if n < 10 {
        seq![digit_char(n)]
    } else {
        decimal(n / 10).push(digit_char(n % 10))
    }
}

/// `n` in decimal, with a minus sign when it is negative.
pub open spec fn signed_decimal(n: int) -> Seq<char> {
    if n < 0 {
        seq!['-'] + decimal((-n) as nat)
    } else {
        decimal(n as nat)
    }
}

/// `n` in decimal, filled up with leading zeros to at least three digits.
pub open spec fn padded3(n: nat) -> Seq<char> {
    if n < 10 {
        seq!['0', '0'] + decimal(n)
    } else if n < 100 {
        seq!['0'] + decimal(n)
    } else {
        decimal(n)
    }
}

/// Appends `n` in decimal.
pub fn push_decimal(out: &mut String, n: u64)
    ensures
        final(out)@ == old(out)@ + decimal(n as nat),
    decreases n,
{
    if n >= 10 {
        push_decimal(out, n / 10);
    }
    let d: u8 = 48 + (n % 10) as u8;
    out.push(d as char);
}

/// `n` in decimal.
pub fn decimal_text(n: u64) -> (r: String)
    ensures
        r@ == decimal(n as nat),
{
    let mut out = String::new();
    push_decimal(&mut out, n);
    out
}

/// Appends `n` in decimal, with a minus sign when it is negative.
pub fn push_signed(out: &mut String, n: i64)
    ensures
        final(out)@ == old(out)@ + signed_decimal(n as int),
{
    if n < 0 {
        let magnitude: u64 = (-(n as i128)) as u64;
        out.push('-');
        push_decimal(out, magnitude);
    } else {
        push_decimal(out, n as u64);
    }
}

/// Appends `n` in decimal, with leading zeros up to three digits.
pub fn push_padded3(out: &mut String, n: u64)
    ensures
        final(out)@ == old(out)@ + padded3(n as nat),
{
    if n < 100 {
        out.push('0');
    }
    if n < 10 {
        out.push('0');
    }
    push_decimal(out, n);
}

// ---------------------------------------------------------------------------
// Reading
// ---------------------------------------------------------------------------

/// The value of `c` as a digit of base `radix` (at most 36).
pub open spec fn digit_value(c: char, radix: nat) -> Option<nat> {
    let v: int = if '0' <= c <= '9' {
        c as int - 48
    } else if 'a' <= c <= 'z' {
        c as int - 87
    } else if 'A' <= c <= 'Z' {
        c as int - 55
    } else {
        36
    };
    if v < radix {
        Some(v as nat)
    } else {
        None
    }
}

/// The value of the digits `s` read from the left, when `acc` is the value of the digits
/// before them. The first digit that is none, or that takes the value over `limit`, ends
/// the reading.
pub open spec fn magnitude(
    s: Seq<char>,
    acc: nat,
    radix: nat,
    limit: nat,
    over: NumberError,
) -> Result<nat, NumberError>
    decreases s.len(),
{
    if s.len() == 0 {
        Ok(acc)
    } else {
        match digit_value(s[0], radix) {
            None => Err(NumberError::InvalidDigit),
            Some(d) => if acc * radix + d > limit {
                Err(over)
            } else {
                magnitude(s.skip(1), acc * radix + d, radix, limit, over)
            },
        }
    }
}

/// Whether `s` is one sign and nothing else.
pub open spec fn lone_sign(s: Seq<char>) -> bool {
    s.len() == 1 && (s[0] == '+' || s[0] == '-')
}

/// The unsigned integer that `s` denotes: an optional plus sign, then digits, at most `limit`.
pub open spec fn unsigned_value(s: Seq<char>, limit: nat) -> Result<nat, NumberError> {
    if s.len() == 0 {
        Err(NumberError::Empty)
    } else if lone_sign(s) {
        Err(NumberError::InvalidDigit)
    } else if s[0] == '+' {
        magnitude(s.skip(1), 0, 10, limit, NumberError::PosOverflow)
    } else {
        magnitude(s, 0, 10, limit, NumberError::PosOverflow)
    }
}

/// The signed 64-bit integer that `s` denotes in base `radix`: an optional sign, then digits.
pub open spec fn signed_value(s: Seq<char>, radix: nat) -> Result<int, NumberError> {
    if s.len() == 0 {
        Err(NumberError::Empty)
    } else if lone_sign(s) {
        Err(NumberError::InvalidDigit)
    } else if s[0] == '-' {
        match magnitude(
            s.skip(1),
            0,
            radix,
            0x8000_0000_0000_0000,
            NumberError::NegOverflow,
        ) {
            Ok(n) => Ok(-(n as int)),
            Err(e) => Err(e),
        }
    } else {
        let digits = if s[0] == '+' {
            s.skip(1)
        } else {
            s
        };
        match magnitude(digits, 0, radix, 0x7fff_ffff_ffff_ffff, NumberError::PosOverflow) {
            Ok(n) => Ok(n as int),
            Err(e) => Err(e),
        }
    }
}

/// The value of `c` as a digit of base `radix`.
fn read_digit(c: char, radix: u32) -> (r: Option<u32>)
    requires
        radix <= 36,
    ensures
        match r {
            Some(d) => digit_value(c, radix as nat) == Some(d as nat) && d < radix,
            None => digit_value(c, radix as nat) is None,
        },
{
    let v: u32 = if '0' <= c && c <= '9' {
        c as u32 - 48
    } else if 'a' <= c && c <= 'z' {
        c as u32 - 87
    } else if 'A' <= c && c <= 'Z' {
        c as u32 - 55
    } else {
        36
    };
    if v < radix {
        Some(v)
    } else {
        None
    }
}

/// Reads the digits of `v` from `from` on.
fn read_magnitude(v: &Vec<char>, from: usize, radix: u32, limit: u64, over: NumberError) -> (r:
    Result<u64, NumberError>)
    requires
        from <= v.len(),
        radix <= 36,
    ensures
        match r {
            Ok(n) => magnitude(v@.skip(from as int), 0, radix as nat, limit as nat, over) == Ok::<
                nat,
                NumberError,
            >(n as nat) && n <= limit,
            Err(e) => magnitude(v@.skip(from as int), 0, radix as nat, limit as nat, over) == Err::<
                nat,
                NumberError,
            >(e),
        },
{
    let mut acc: u64 = 0;
    let mut i: usize = from;
    while i < v.len()
        invariant
            from <= i <= v.len(),
            radix <= 36,
            acc <= limit,
            magnitude(v@.skip(from as int), 0, radix as nat, limit as nat, over) == magnitude(
                v@.skip(i as int),
                acc as nat,
                radix as nat,
                limit as nat,
                over,
            ),
        decreases v.len() - i,
    {
        let ghost rest = v@.skip(i as int);
        assert(rest[0] == v@[i as int]);
        assert(rest.skip(1) =~= v@.skip(i + 1));
        match read_digit(v[i], radix) {
            None => {
                return Err(NumberError::InvalidDigit);
            },
            Some(d) => {
                assert(acc * radix <= 0xffff_ffff_ffff_ffff * 36) by (nonlinear_arith)
                    requires
                        acc <= 0xffff_ffff_ffff_ffff,
                        radix <= 36,
                ;
                let next: u128 = acc as u128 * radix as u128 + d as u128;
                if next > limit as u128 {
                    return Err(over);
                }
                acc = next as u64;
            },
        }
        i += 1;
    }
    Ok(acc)
}

/// Reads an unsigned integer that is at most `limit`.
pub fn read_unsigned(s: &str, limit: u64) -> (r: Result<u64, NumberError>)
    ensures
        match r {
            Ok(n) => unsigned_value(s@, limit as nat) == Ok::<nat, NumberError>(n as nat) && n
                <= limit,
            Err(e) => unsigned_value(s@, limit as nat) == Err::<nat, NumberError>(e),
        },
{
    let v = chars_of(s);
    assert(v@.skip(0) =~= v@);
    if v.len() == 0 {
        Err(NumberError::Empty)
    } else if v.len() == 1 && (v[0] == '+' || v[0] == '-') {
        Err(NumberError::InvalidDigit)
    } else if v[0] == '+' {
        read_magnitude(&v, 1, 10, limit, NumberError::PosOverflow)
    } else {
        read_magnitude(&v, 0, 10, limit, NumberError::PosOverflow)
    }
}

/// Reads a signed 64-bit integer of base `radix`, from the character `from` of `s` on.
pub fn read_signed(s: &str, from: usize, radix: u32) -> (r: Result<i64, NumberError>)
    requires
        from <= s@.len(),
        radix <= 36,
    ensures
        match r {
            Ok(n) => signed_value(s@.skip(from as int), radix as nat) == Ok::<int, NumberError>(
                n as int,
            ),
            Err(e) => signed_value(s@.skip(from as int), radix as nat) == Err::<int, NumberError>(
                e,
            ),
        },
{
    let v = chars_of(s);
    let ghost t = v@.skip(from as int);
    if v.len() == from {
        return Err(NumberError::Empty);
    }
    assert(t[0] == v@[from as int]);
    assert(t.skip(1) =~= v@.skip(from + 1));
    if v.len() - from == 1 && (v[from] == '+' || v[from] == '-') {
        Err(NumberError::InvalidDigit)
    } else if v[from] == '-' {
        match read_magnitude(&v, from + 1, radix, 0x8000_0000_0000_0000, NumberError::NegOverflow) {
            Ok(n) => Ok((-(n as i128)) as i64),
            Err(e) => Err(e),
        }
    } else {
        let start: usize = if v[from] == '+' {
            from + 1
        } else {
            from
        };
        match read_magnitude(&v, start, radix, 0x7fff_ffff_ffff_ffff, NumberError::PosOverflow) {
            Ok(n) => Ok(n as i64),
            Err(e) => Err(e),
        }
    }
}

// ---------------------------------------------------------------------------
// Laws
// ---------------------------------------------------------------------------

/// Reading a text in two pieces: the first piece's value is what the second starts from.
pub proof fn lemma_magnitude_concat(
    a: Seq<char>,
    b: Seq<char>,
    acc: nat,
    radix: nat,
    limit: nat,
    over: NumberError,
)
    ensures
        magnitude(a + b, acc, radix, limit, over) == (match magnitude(a, acc, radix, limit, over) {
            Ok(n) => magnitude(b, n, radix, limit, over),
            Err(e) => Err(e),
        }),
    decreases a.len(),
{
    if a.len() == 0 {
        assert(a + b =~= b);
    } else {
        assert((a + b)[0] == a[0]);
        assert((a + b).skip(1) =~= a.skip(1) + b);
        match digit_value(a[0], radix) {
            None => {},
            Some(d) => {
                if acc * radix + d <= limit {
                    lemma_magnitude_concat(a.skip(1), b, acc * radix + d, radix, limit, over);
                }
            },
        }
    }
}

/// A decimal text is made of digits, and is not empty.
pub proof fn lemma_decimal_digits(n: nat)
    ensures
        decimal(n).len() > 0,
        forall|i: int| 0 <= i < decimal(n).len() ==> '0' <= #[trigger] decimal(n)[i] <= '9',
    decreases n,
{
    if n >= 10 {
        lemma_decimal_digits(n / 10);
    }
}

proof fn lemma_decimal_magnitude(n: nat, limit: nat, over: NumberError)
    requires
        n <= limit,
    ensures
        magnitude(decimal(n), 0, 10, limit, over) == Ok::<nat, NumberError>(n),
    decreases n,
{
    reveal_with_fuel(magnitude, 2);
    if n >= 10 {
        lemma_decimal_magnitude(n / 10, limit, over);
        let last = seq![digit_char(n % 10)];
        assert(decimal(n) =~= decimal(n / 10) + last);
        lemma_magnitude_concat(decimal(n / 10), last, 0, 10, limit, over);
        assert(last.skip(1).len() == 0);
    } else {
        assert(decimal(n).skip(1).len() == 0);
    }
}

/// A number written in decimal reads back as itself.
pub proof fn law_decimal_round_trip(n: nat, limit: nat)
    requires
        n <= limit,
    ensures
        unsigned_value(decimal(n), limit) == Ok::<nat, NumberError>(n),
{
    lemma_decimal_digits(n);
    lemma_decimal_magnitude(n, limit, NumberError::PosOverflow);
    assert('0' <= decimal(n)[0] <= '9');
}

/// Different numbers have different decimal texts.
pub proof fn law_decimal_injective(a: nat, b: nat)
    requires
        decimal(a) == decimal(b),
    ensures
        a == b,
{
    let limit = a + b;
    law_decimal_round_trip(a, limit);
    law_decimal_round_trip(b, limit);
}

/// A filled up decimal text is made of digits.
pub proof fn lemma_padded_digits(n: nat)
    ensures
        padded3(n).len() > 0,
        forall|i: int| 0 <= i < padded3(n).len() ==> '0' <= #[trigger] padded3(n)[i] <= '9',
{
    lemma_decimal_digits(n);
    assert forall|i: int| 0 <= i < padded3(n).len() implies '0' <= #[trigger] padded3(n)[i]
        <= '9' by {
        let shift = padded3(n).len() - decimal(n).len();
        if i >= shift {
            assert(padded3(n)[i] == decimal(n)[i - shift]);
        }
    }
}

proof fn lemma_padded_magnitude(n: nat, limit: nat, over: NumberError)
    requires
        n <= limit,
    ensures
        magnitude(padded3(n), 0, 10, limit, over) == Ok::<nat, NumberError>(n),
{
    lemma_decimal_magnitude(n, limit, over);
    if n < 100 {
        let zeros = if n < 10 {
            seq!['0', '0']
        } else {
            seq!['0']
        };
        assert(padded3(n) =~= zeros + decimal(n));
        reveal_with_fuel(magnitude, 3);
        assert(zeros.skip(1).len() == zeros.len() - 1);
        assert(zeros.len() == 2 ==> zeros.skip(1)[0] == '0');
        assert(zeros.len() == 2 ==> zeros.skip(1).skip(1).len() == 0);
        lemma_magnitude_concat(zeros, decimal(n), 0, 10, limit, over);
    }
}

/// Different numbers have different texts, filled up with zeros as well.
pub proof fn law_padded_injective(a: nat, b: nat)
    requires
        padded3(a) == padded3(b),
    ensures
        a == b,
{
    let limit = a + b;
    lemma_padded_magnitude(a, limit, NumberError::PosOverflow);
    lemma_padded_magnitude(b, limit, NumberError::PosOverflow);
}

} // verus!
