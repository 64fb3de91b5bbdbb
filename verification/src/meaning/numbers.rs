//! What the digits of numbers say.

use vstd::prelude::*;

use crate::number::decimal;
use crate::number::digit_value;
use crate::number::law_decimal_round_trip;
use crate::number::lemma_decimal_digits;
use crate::number::lemma_magnitude_concat;
use crate::number::lemma_padded_digits;
use crate::number::magnitude;
use crate::number::padded3;
use crate::number::signed_decimal;
use crate::number::signed_value;
use crate::number::unsigned_value;
use crate::number::NumberError;

verus! {

// ---------------------------------------------------------------------------
// Writing
// ---------------------------------------------------------------------------

/// A decimal text is made of digits and has no leading zero, except that of zero itself.
pub proof fn law_decimal_form(n: nat)
    ensures
        decimal(n).len() > 0,
        forall|i: int| 0 <= i < decimal(n).len() ==> '0' <= #[trigger] decimal(n)[i] <= '9',
        n > 0 ==> decimal(n)[0] != '0',
        decimal(0) == seq!['0'],
    decreases n,
{
    lemma_decimal_digits(n);
    assert(decimal(0) =~= seq!['0']);
    if n >= 10 {
        law_decimal_form(n / 10);
        assert(decimal(n)[0] == decimal(n / 10)[0]);
    }
}

/// One digit more stands at the end of the decimal text.
pub proof fn law_decimal_grows(n: nat, d: nat)
    requires
        n > 0,
        d < 10,
    ensures
        decimal(10 * n + d) == decimal(n).push((48 + d) as char),
{
    assert((10 * n + d) / 10 == n);
    assert((10 * n + d) % 10 == d);
}

/// A signed number of 64 bits reads back as itself; a minus sign stands before a negative one, and
/// nothing else differs from the text of its absolute value.
pub proof fn law_signed_round_trip(n: int)
    requires
        i64::MIN <= n <= i64::MAX,
    ensures
        signed_value(signed_decimal(n), 10) == Ok::<int, NumberError>(n),
        n >= 0 ==> signed_decimal(n) == decimal(n as nat),
        n < 0 ==> signed_decimal(n) == seq!['-'] + decimal((-n) as nat),
{
    let m: nat = if n < 0 {
        (-n) as nat
    } else {
        n as nat
    };
    lemma_decimal_digits(m);
    let d = decimal(m);
    assert('0' <= d[0] <= '9');
    law_decimal_round_trip(m, 0x8000_0000_0000_0000);
    lemma_over(d, 0, 10, 0x8000_0000_0000_0000, NumberError::PosOverflow, NumberError::NegOverflow);
    if n < 0 {
        let s = seq!['-'] + d;
        assert(s.skip(1) =~= d);
    } else {
        law_decimal_round_trip(m, 0x7fff_ffff_ffff_ffff);
    }
}

/// A number filled up with zeros has at least three digits, and zeros in front only up to that
/// length; it reads as the number.
pub proof fn law_padded_form(n: nat, limit: nat)
    requires
        n <= limit,
    ensures
        padded3(n).len() >= 3,
        padded3(n).len() > 3 ==> padded3(n)[0] != '0',
        forall|i: int| 0 <= i < padded3(n).len() ==> '0' <= #[trigger] padded3(n)[i] <= '9',
        unsigned_value(padded3(n), limit) == Ok::<nat, NumberError>(n),
{
    lemma_padded_digits(n);
    law_decimal_form(n);
    lemma_decimal_length(n);
    law_decimal_round_trip(n, limit);
    let d = decimal(n);
    assert('0' <= d[0] <= '9');
    if n < 100 {
        let zeros = if n < 10 {
            seq!['0', '0']
        } else {
            seq!['0']
        };
        assert(padded3(n) =~= zeros + d);
        reveal_with_fuel(magnitude, 3);
        assert(zeros.skip(1).len() == zeros.len() - 1);
        assert(zeros.len() == 2 ==> zeros.skip(1)[0] == '0');
        assert(zeros.len() == 2 ==> zeros.skip(1).skip(1).len() == 0);
        lemma_magnitude_concat(zeros, d, 0, 10, limit, NumberError::PosOverflow);
        assert(padded3(n)[0] == '0');
    }
}

proof fn lemma_decimal_length(n: nat)
    ensures
        n < 10 ==> decimal(n).len() == 1,
        10 <= n < 100 ==> decimal(n).len() == 2,
        n >= 100 ==> decimal(n).len() >= 3,
        n < 1000 ==> decimal(n).len() <= 3,
{
    reveal_with_fuel(decimal, 4);
    if n >= 1000 {
        lemma_decimal_digits(n / 1000);
        lemma_decimal_digits(n / 100);
    }
}

/// The error for a value out of range does not decide whether it is one.
proof fn lemma_over(
    s: Seq<char>,
    acc: nat,
    radix: nat,
    limit: nat,
    a: NumberError,
    b: NumberError,
)
    ensures
        magnitude(s, acc, radix, limit, a) matches Ok(n) ==> magnitude(s, acc, radix, limit, b)
            == Ok::<nat, NumberError>(n),
    decreases s.len(),
{
    if s.len() > 0 {
        match digit_value(s[0], radix) {
            None => {},
            Some(d) => {
                lemma_over(s.skip(1), acc * radix + d, radix, limit, a, b);
            },
        }
    }
}

// ---------------------------------------------------------------------------
// Digits
// ---------------------------------------------------------------------------

/// The digits of a base are `0` to `9` and the letters from `a` on, in either case, as far as
/// their value is below the base.
pub proof fn law_digit_values(c: char, radix: nat, d: nat)
    requires
        radix <= 36,
    ensures
        digit_value(c, radix) == Some(d) <==> d < radix && {
            ||| '0' <= c <= '9' && c as int == '0' as int + d
            ||| 'a' <= c <= 'z' && c as int == 'a' as int + d - 10
            ||| 'A' <= c <= 'Z' && c as int == 'A' as int + d - 10
        },
        '0' <= c <= '9' && radix >= 10 ==> digit_value(c, radix) == Some((c as int - 48) as nat),
{
}

proof fn lemma_magnitude_push(
    s: Seq<char>,
    c: char,
    radix: nat,
    limit: nat,
    over: NumberError,
)
    ensures
        magnitude(s.push(c), 0, radix, limit, over) == (match magnitude(s, 0, radix, limit, over) {
            Ok(v) => match digit_value(c, radix) {
                None => Err(NumberError::InvalidDigit),
                Some(d) => if v * radix + d > limit {
                    Err(over)
                } else {
                    Ok(v * radix + d)
                },
            },
            Err(e) => Err(e),
        }),
{
    let one = seq![c];
    assert(s.push(c) =~= s + one);
    lemma_magnitude_concat(s, one, 0, radix, limit, over);
    reveal_with_fuel(magnitude, 2);
    assert(one.skip(1).len() == 0);
}

// ---------------------------------------------------------------------------
// Unsigned numbers
// ---------------------------------------------------------------------------

/// One more character behind a number without a sign is one more digit: it makes the value tenfold
/// and adds its own. One that is no digit, or takes the value over the limit, makes an error; and
/// an error stays.
pub proof fn law_unsigned_digit(s: Seq<char>, c: char, limit: nat)
    requires
        s.len() > 0,
        s[0] != '+',
        s[0] != '-',
    ensures
        match unsigned_value(s, limit) {
            Ok(v) => {
                if !('0' <= c <= '9') {
                    unsigned_value(s.push(c), limit) == Err::<nat, NumberError>(
                        NumberError::InvalidDigit,
                    )
                } else if v * 10 + (c as int - 48) > limit {
                    unsigned_value(s.push(c), limit) == Err::<nat, NumberError>(
                        NumberError::PosOverflow,
                    )
                } else {
                    unsigned_value(s.push(c), limit) == Ok::<nat, NumberError>(
                        (v * 10 + (c as int - 48)) as nat,
                    )
                }
            },
            Err(e) => unsigned_value(s.push(c), limit) == Err::<nat, NumberError>(e),
        },
{
    lemma_magnitude_push(s, c, 10, limit, NumberError::PosOverflow);
}

/// The shortest texts: one digit is its own value, a sign alone is no number, and neither is an
/// empty text.
pub proof fn law_unsigned_shortest(c: char, limit: nat)
    ensures
        unsigned_value(Seq::<char>::empty(), limit) == Err::<nat, NumberError>(NumberError::Empty),
        !('0' <= c <= '9') ==> unsigned_value(seq![c], limit) == Err::<nat, NumberError>(
            NumberError::InvalidDigit,
        ),
        '0' <= c <= '9' && c as int - 48 <= limit ==> unsigned_value(seq![c], limit) == Ok::<
            nat,
            NumberError,
        >((c as int - 48) as nat),
        '0' <= c <= '9' && c as int - 48 > limit ==> unsigned_value(seq![c], limit) == Err::<
            nat,
            NumberError,
        >(NumberError::PosOverflow),
{
    let none = Seq::<char>::empty();
    lemma_magnitude_push(none, c, 10, limit, NumberError::PosOverflow);
    assert(none.push(c) =~= seq![c]);
    assert(magnitude(none, 0, 10, limit, NumberError::PosOverflow) == Ok::<nat, NumberError>(0));
}

/// A plus sign before an unsigned number changes nothing; any other use of a sign is an error.
pub proof fn law_unsigned_sign(s: Seq<char>, limit: nat)
    requires
        s.len() > 0,
    ensures
        s[0] != '+' && s[0] != '-' ==> unsigned_value(seq!['+'] + s, limit) == unsigned_value(
            s,
            limit,
        ),
        s[0] == '+' || s[0] == '-' ==> unsigned_value(seq!['+'] + s, limit) == Err::<
            nat,
            NumberError,
        >(NumberError::InvalidDigit),
        unsigned_value(seq!['-'] + s, limit) == Err::<nat, NumberError>(NumberError::InvalidDigit),
{
    let plus = seq!['+'] + s;
    assert(plus.skip(1) =~= s);
    let minus = seq!['-'] + s;
    assert(minus[0] == '-');
}

// ---------------------------------------------------------------------------
// Signed numbers
// ---------------------------------------------------------------------------

/// One more character behind a number is one more digit, of a base up to 36: it multiplies the
/// value by the base and adds its own, away from zero. One that is no digit, or takes the value out
/// of 64 bits, makes an error; and an error stays.
pub proof fn law_signed_digit(s: Seq<char>, c: char, radix: nat)
    requires
        s.len() > 0,
        s[0] == '+' || s[0] == '-' ==> s.len() > 1,
        radix <= 36,
    ensures
        match (signed_value(s, radix), digit_value(c, radix)) {
            (Ok(v), Some(d)) => {
                let away = if s[0] == '-' {
                    v * radix - d
                } else {
                    v * radix + d
                };
                if away > i64::MAX {
                    signed_value(s.push(c), radix) == Err::<int, NumberError>(
                        NumberError::PosOverflow,
                    )
                } else if away < i64::MIN {
                    signed_value(s.push(c), radix) == Err::<int, NumberError>(
                        NumberError::NegOverflow,
                    )
                } else {
                    signed_value(s.push(c), radix) == Ok::<int, NumberError>(away)
                }
            },
            (Ok(v), None) => signed_value(s.push(c), radix) == Err::<int, NumberError>(
                NumberError::InvalidDigit,
            ),
            (Err(e), _) => signed_value(s.push(c), radix) == Err::<int, NumberError>(e),
        },
{
    let t = s.push(c);
    assert(t[0] == s[0]);
    if s[0] == '-' {
        assert(t.skip(1) =~= s.skip(1).push(c));
        lemma_magnitude_push(
            s.skip(1),
            c,
            radix,
            0x8000_0000_0000_0000,
            NumberError::NegOverflow,
        );
        if signed_value(s, radix) is Ok {
            let v = signed_value(s, radix)->Ok_0;
            let m = magnitude(
                s.skip(1),
                0,
                radix,
                0x8000_0000_0000_0000,
                NumberError::NegOverflow,
            )->Ok_0;
            assert(v * radix == -(m * radix)) by (nonlinear_arith)
                requires
                    v == -(m as int),
            ;
            assert(m * radix >= 0) by (nonlinear_arith)
                requires
                    m >= 0,
                    radix >= 0,
            ;
        }
    } else {
        let digits = if s[0] == '+' {
            s.skip(1)
        } else {
            s
        };
        if s[0] == '+' {
            assert(t.skip(1) =~= s.skip(1).push(c));
        }
        lemma_magnitude_push(digits, c, radix, 0x7fff_ffff_ffff_ffff, NumberError::PosOverflow);
        if signed_value(s, radix) is Ok {
            let v = signed_value(s, radix)->Ok_0;
            assert(v * radix >= 0) by (nonlinear_arith)
                requires
                    v >= 0,
                    radix >= 0,
            ;
        }
    }
}

/// The shortest signed texts: one digit is its own value, with a minus sign its negative; signs
/// alone are no numbers, and neither is an empty text.
pub proof fn law_signed_shortest(c: char, radix: nat)
    requires
        radix <= 36,
    ensures
        signed_value(Seq::<char>::empty(), radix) == Err::<int, NumberError>(NumberError::Empty),
        signed_value(seq!['-'], radix) == Err::<int, NumberError>(NumberError::InvalidDigit),
        signed_value(seq!['+'], radix) == Err::<int, NumberError>(NumberError::InvalidDigit),
        match digit_value(c, radix) {
            Some(d) => {
                &&& signed_value(seq![c], radix) == Ok::<int, NumberError>(d as int)
                &&& signed_value(seq!['+', c], radix) == Ok::<int, NumberError>(d as int)
                &&& signed_value(seq!['-', c], radix) == Ok::<int, NumberError>(-(d as int))
            },
            None => {
                &&& signed_value(seq![c], radix) == Err::<int, NumberError>(
                    NumberError::InvalidDigit,
                )
                &&& signed_value(seq!['+', c], radix) == Err::<int, NumberError>(
                    NumberError::InvalidDigit,
                )
                &&& signed_value(seq!['-', c], radix) == Err::<int, NumberError>(
                    NumberError::InvalidDigit,
                )
            },
        },
{
    let none = Seq::<char>::empty();
    assert(none.push(c) =~= seq![c]);
    assert(seq!['+', c].skip(1) =~= seq![c]);
    assert(seq!['-', c].skip(1) =~= seq![c]);
    lemma_magnitude_push(none, c, radix, 0x8000_0000_0000_0000, NumberError::NegOverflow);
    lemma_magnitude_push(none, c, radix, 0x7fff_ffff_ffff_ffff, NumberError::PosOverflow);
    assert(0 * radix == 0) by (nonlinear_arith);
}

} // verus!
