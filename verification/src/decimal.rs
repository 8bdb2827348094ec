//! Decimal notation for integers and for fixed-point quantities.

use vstd::prelude::*;
use vstd::string::*;

verus! {

/// Number of fixed-point units that make up one whole.
pub const UNITS_PER_ONE: i64 = 1000;

/// The character that writes the digit `d`.
pub open spec fn digit_char(d: int) -> char {
    if d == 0 {
        '0'
    } else if d == 1 {
        '1'
    } else if d == 2 {
        '2'
    } else if d == 3 {
        '3'
    } else if d == 4 {
        '4'
    } else if d == 5 {
        '5'
    } else if d == 6 {
        '6'
    } else if d == 7 {
        '7'
    } else if d == 8 {
        '8'
    } else {
        '9'
    }
}

/// The decimal digits of `n`, most significant first, without leading zeros.
pub open spec fn natural_text(n: nat) -> Seq<char>
    decreases n,
{
    if n < 10 {
        seq![digit_char(n as int)]
    } else {
        natural_text(n / 10).push(digit_char((n % 10) as int))
    }
}

/// The decimal notation of `n`, with a leading minus sign when it is negative.
pub open spec fn integer_text(n: int) -> Seq<char> {
    if n < 0 {
        seq!['-'] + natural_text((-n) as nat)
    } else {
        natural_text(n as nat)
    }
}

/// `n` written with at least two digits.
pub open spec fn two_digit_text(n: nat) -> Seq<char> {
    if n < 10 {
        seq!['0'] + natural_text(n)
    } else {
        natural_text(n)
    }
}

/// The fractional part of a quantity, `f` thousandths with `f < 1000`: empty
/// when there is none, else a point and the digits up to the last that is not
/// zero.
pub open spec fn fraction_text(f: nat) -> Seq<char> {
    if f == 0 {
        Seq::<char>::empty()
    } else if f % 100 == 0 {
        seq!['.', digit_char((f / 100) as int)]
    } else if f % 10 == 0 {
        seq!['.', digit_char((f / 100) as int), digit_char((f / 10 % 10) as int)]
    } else {
        seq![
            '.',
            digit_char((f / 100) as int),
            digit_char((f / 10 % 10) as int),
            digit_char((f % 10) as int),
        ]
    }
}

/// The size of `n` without its sign.
pub open spec fn magnitude(n: int) -> nat {
    if n < 0 {
        (-n) as nat
    } else {
        n as nat
    }
}

/// The shortest decimal notation of a quantity of `units` thousandths:
/// `1500` reads `1.5`, `-10000` reads `-10`, `20` reads `0.02`.
pub open spec fn quantity_text(units: int) -> Seq<char> {
    let sign = if units < 0 {
        seq!['-']
    } else {
        Seq::<char>::empty()
    };
    sign + natural_text(magnitude(units) / 1000) + fraction_text(magnitude(units) % 1000)
}

/// A quantity of `units` thousandths rounded to hundredths, a tie going to the
/// even neighbour.
pub open spec fn rounded_hundredths(units: int) -> int {
    let m = magnitude(units);
    let low = m / 10;
    let rest = m % 10;
    let up = rest > 5 || (rest == 5 && low % 2 == 1);
    let h = if up {
        low + 1
    } else {
        low
    };
    if units < 0 {
        -(h as int)
    } else {
        h as int
    }
}

/// The notation with exactly two decimals of a quantity of `units`
/// thousandths, rounded as `rounded_hundredths` says: `1500` reads `1.50`,
/// `125` reads `0.12`. A negative quantity that rounds to zero keeps its sign.
pub open spec fn two_decimal_text(units: int) -> Seq<char> {
    let h = magnitude(rounded_hundredths(units));
    let sign = if units < 0 {
        seq!['-']
    } else {
        Seq::<char>::empty()
    };
    sign + natural_text(h / 100) + seq![
        '.',
        digit_char((h / 10 % 10) as int),
        digit_char((h % 10) as int),
    ]
}

/// The text of one digit.
pub fn digit_text(d: u8) -> (t: &'static str)
    requires
        d < 10,
    ensures
        t@ == seq![digit_char(d as int)],
{
    proof {
        reveal_strlit("0");
        reveal_strlit("1");
        reveal_strlit("2");
        reveal_strlit("3");
        reveal_strlit("4");
        reveal_strlit("5");
        reveal_strlit("6");
        reveal_strlit("7");
        reveal_strlit("8");
        reveal_strlit("9");
    }
    let t = if d == 0 {
        "0"
    } else if d == 1 {
        "1"
    } else if d == 2 {
        "2"
    } else if d == 3 {
        "3"
    } else if d == 4 {
        "4"
    } else if d == 5 {
        "5"
    } else if d == 6 {
        "6"
    } else if d == 7 {
        "7"
    } else if d == 8 {
        "8"
    } else {
        "9"
    };
    assert(t@ =~= seq![digit_char(d as int)]);
    t
}

/// Appends the decimal digits of `n` to `out`.
pub fn push_natural(out: &mut String, n: u64)
    ensures
        final(out)@ == old(out)@ + natural_text(n as nat),
    decreases n,
{
    if n >= 10 {
        push_natural(out, n / 10);
    }
    let d: u8 = (n % 10) as u8;
    out.append(digit_text(d));
    proof {
        if n >= 10 {
            assert(final(out)@ =~= old(out)@ + natural_text(n as nat));
        } else {
            assert(final(out)@ =~= old(out)@ + natural_text(n as nat));
        }
    }
}

/// The size of `n` without its sign, as a machine integer.
pub fn magnitude_of(n: i64) -> (m: u64)
    ensures
        m == magnitude(n as int),
{
    if n < 0 {
        let back: i64 = -(n + 1);
        (back as u64) + 1
    } else {
        n as u64
    }
}

/// Appends the decimal notation of `n` to `out`.
pub fn push_integer(out: &mut String, n: i64)
    ensures
        final(out)@ == old(out)@ + integer_text(n as int),
{
    if n < 0 {
        out.append("-");
        proof {
            reveal_strlit("-");
            assert("-"@ =~= seq!['-']);
        }
    }
    push_natural(out, magnitude_of(n));
    assert(final(out)@ =~= old(out)@ + integer_text(n as int));
}

/// Appends `n`, written with at least two digits, to `out`.
pub fn push_two_digits(out: &mut String, n: u64)
    ensures
        final(out)@ == old(out)@ + two_digit_text(n as nat),
{
    if n < 10 {
        out.append("0");
        proof {
            reveal_strlit("0");
            assert("0"@ =~= seq!['0']);
        }
    }
    push_natural(out, n);
    assert(final(out)@ =~= old(out)@ + two_digit_text(n as nat));
}

/// Appends the shortest decimal notation of a quantity to `out`.
pub fn push_quantity(out: &mut String, units: i64)
    ensures
        final(out)@ == old(out)@ + quantity_text(units as int),
{
    let ghost start = out@;
    let m = magnitude_of(units);
    if units < 0 {
        out.append("-");
        proof {
            reveal_strlit("-");
            assert("-"@ =~= seq!['-']);
        }
    }
    push_natural(out, m / 1000);
    let f: u64 = m % 1000;
    let ghost before_fraction = out@;
    if f != 0 {
        out.append(".");
        proof {
            reveal_strlit(".");
            assert("."@ =~= seq!['.']);
        }
        out.append(digit_text((f / 100) as u8));
        if f % 100 != 0 {
            out.append(digit_text((f / 10 % 10) as u8));
            if f % 10 != 0 {
                out.append(digit_text((f % 10) as u8));
            }
        }
    }
    assert(out@ =~= before_fraction + fraction_text(f as nat));
    assert(out@ =~= start + quantity_text(units as int));
}

/// Rounds a quantity to hundredths, a tie going to the even neighbour, and
/// gives the size of the result.
pub fn hundredths_of(units: i64) -> (h: u64)
    ensures
        h == magnitude(rounded_hundredths(units as int)),
{
    let m = magnitude_of(units);
    let low: u64 = m / 10;
    let rest: u64 = m % 10;
    if rest > 5 || (rest == 5 && low % 2 == 1) {
        low + 1
    } else {
        low
    }
}

/// Appends the two-decimal notation of a quantity to `out`.
pub fn push_two_decimals(out: &mut String, units: i64)
    ensures
        final(out)@ == old(out)@ + two_decimal_text(units as int),
{
    let ghost start = out@;
    let h = hundredths_of(units);
    if units < 0 {
        out.append("-");
        proof {
            reveal_strlit("-");
            assert("-"@ =~= seq!['-']);
        }
    }
    push_natural(out, h / 100);
    out.append(".");
    proof {
        reveal_strlit(".");
        assert("."@ =~= seq!['.']);
    }
    out.append(digit_text((h / 10 % 10) as u8));
    out.append(digit_text((h % 10) as u8));
    assert(out@ =~= start + two_decimal_text(units as int));
}

/// The decimal notation of `n` as a text of its own.
pub fn integer_to_text(n: i64) -> (t: String)
    ensures
        t@ == integer_text(n as int),
{
    let mut t = String::new();
    push_integer(&mut t, n);
    assert(t@ =~= integer_text(n as int));
    t
}

/// The shortest decimal notation of a quantity as a text of its own.
pub fn quantity_to_text(units: i64) -> (t: String)
    ensures
        t@ == quantity_text(units as int),
{
    let mut t = String::new();
    push_quantity(&mut t, units);
    assert(t@ =~= quantity_text(units as int));
    t
}

} // verus!
