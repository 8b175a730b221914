//! Rendering payoff amounts for reporting: an amount in cents becomes its
//! decimal text with exactly two digits after the decimal point, as ASCII
//! bytes.

use vstd::prelude::*;

verus! {

/// ASCII byte of one decimal digit.
pub open spec fn ascii_digit(d: int) -> u8 {
    (0x30 + d) as u8
}

/// Decimal digits of a non-negative number, most significant first, with no
/// leading zero except for the single digit of zero itself.
pub open spec fn dec_digits(n: nat) -> Seq<u8>
    decreases n,
{
    if n < 10 {
        seq![ascii_digit(n as int)]
    } else {
        dec_digits(n / 10) + seq![ascii_digit((n % 10) as int)]
    }
}

/// Decimal text of an amount of cents: an optional minus sign, the whole
/// units, a dot, and exactly the two digits of the cent remainder.
pub open spec fn spec_format_cents(c: int) -> Seq<u8> {
    let magnitude: int = if c >= 0 {
        c
    } else {
        -c
    };
    let sign: Seq<u8> = if c < 0 {
        seq![0x2du8]
    } else {
        Seq::empty()
    };
    sign + dec_digits((magnitude / 100) as nat) + seq![
        0x2eu8,
        ascii_digit((magnitude % 100) / 10),
        ascii_digit((magnitude % 100) % 10),
    ]
}

/// The digit expansion is never empty and holds digit bytes only.
pub proof fn lemma_dec_digits_shape(n: nat)
    ensures
        dec_digits(n).len() >= 1,
        forall|i: int|
            0 <= i < dec_digits(n).len() ==> 0x30 <= #[trigger] dec_digits(n)[i] <= 0x39,
    decreases n,
{
    if n >= 10 {
        lemma_dec_digits_shape(n / 10);
    }
}

/// Law: a formatted amount always carries exactly two decimal places — the
/// text ends in a dot followed by two digits, and no dot occurs anywhere
/// before it.
pub proof fn lemma_format_two_decimals(c: int)
    ensures
        spec_format_cents(c).len() >= 4,
        spec_format_cents(c)[spec_format_cents(c).len() - 3] == 0x2eu8,
        0x30 <= spec_format_cents(c)[spec_format_cents(c).len() - 2] <= 0x39,
        0x30 <= spec_format_cents(c)[spec_format_cents(c).len() - 1] <= 0x39,
        forall|i: int|
            0 <= i < spec_format_cents(c).len() - 3 ==> #[trigger] spec_format_cents(c)[i]
                != 0x2eu8,
{
    let magnitude: int = if c >= 0 {
        c
    } else {
        -c
    };
    lemma_dec_digits_shape((magnitude / 100) as nat);
}

/// Render an amount of cents as decimal ASCII text with exactly two digits
/// after the decimal point, e.g. -500 cents as `-5.00`.
pub fn format_currency(number: i64) -> (r: Vec<u8>)
    requires
        number > i64::MIN,
    ensures
        r@ == spec_format_cents(number as int),
{
    let negative: bool = number < 0;
    let magnitude: i64 = if negative {
        -number
    } else {
        number
    };
    let units: i64 = magnitude / 100;
    let cents_rem: i64 = magnitude % 100;
    let mut rev: Vec<u8> = Vec::new();
    let mut rem: i64 = units;
    while rem >= 10
        invariant
            0 <= rem <= units,
            dec_digits(units as nat) == dec_digits(rem as nat) + rev@.reverse(),
        decreases rem,
    {
        let d: u8 = 0x30 + ((rem % 10) as u8);
        proof {
            let old_rev = rev@;
            assert(old_rev.push(d).reverse() =~= seq![d] + old_rev.reverse());
            assert(dec_digits(rem as nat) == dec_digits((rem / 10) as nat) + seq![d]);
            assert(dec_digits((rem / 10) as nat) + (seq![d] + old_rev.reverse()) =~= (dec_digits(
                (rem / 10) as nat,
            ) + seq![d]) + old_rev.reverse());
        }
        rev.push(d);
        rem = rem / 10;
    }
    let d_last: u8 = 0x30 + (rem as u8);
    proof {
        let old_rev = rev@;
        assert(old_rev.push(d_last).reverse() =~= seq![d_last] + old_rev.reverse());
        assert(dec_digits(rem as nat) =~= seq![d_last]);
    }
    rev.push(d_last);
    assert(rev@.reverse() == dec_digits(units as nat));
    let digit_count: usize = rev.len();
    let mut out: Vec<u8> = Vec::new();
    if negative {
        out.push(0x2d);
    }
    let ghost sign: Seq<u8> = if negative {
        seq![0x2du8]
    } else {
        Seq::<u8>::empty()
    };
    assert(out@ =~= sign + rev@.reverse().take(0));
    let mut j: usize = 0;
    while j < digit_count
        invariant
            digit_count == rev@.len(),
            0 <= j <= digit_count,
            out@ == sign + rev@.reverse().take(j as int),
        decreases digit_count - j,
    {
        let d: u8 = rev[digit_count - 1 - j];
        proof {
            assert(rev@.reverse()[j as int] == rev@[digit_count - 1 - j as int]);
            assert(rev@.reverse().take(j as int + 1) =~= rev@.reverse().take(j as int).push(d));
            assert(sign + rev@.reverse().take(j as int + 1) =~= (sign + rev@.reverse().take(
                j as int,
            )).push(d));
        }
        out.push(d);
        j = j + 1;
    }
    proof {
        assert(rev@.reverse().take(digit_count as int) =~= rev@.reverse());
    }
    out.push(0x2e);
    out.push(0x30 + ((cents_rem / 10) as u8));
    out.push(0x30 + ((cents_rem % 10) as u8));
    proof {
        assert(out@ =~= spec_format_cents(number as int));
    }
    out
}

} // verus!
