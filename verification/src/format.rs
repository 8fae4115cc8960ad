//! Human-readable byte totals.
//!
//! A lifetime byte counter is rendered against binary units with two
//! decimal places, the fraction rounded half-up.  All digits are
//! produced by verified decimal conversion; no formatting machinery of
//! the standard library is involved.

use vstd::prelude::*;
use vstd::string::StringExecFns;

verus! {

/// One kibibyte.
pub const KIB: u64 = 1024;

/// One mebibyte.
pub const MIB: u64 = 1024 * 1024;

/// One gibibyte.
pub const GIB: u64 = 1024 * 1024 * 1024;

/// The character for the decimal digit `d`.
pub open spec fn digit_char(d: int) -> char {
    if d == 0 {
        '0'
    } else if d == 1 {
        '1'
    } else if d == 2 {
        '2'
    } else if d == 3 {
        '3'
    } else if d == 4 {
        '4'
    } else if d == 5 {
        '5'
    } else if d == 6 {
        '6'
    } else if d == 7 {
        '7'
    } else if d == 8 {
        '8'
    } else {
        '9'
    }
}

/// The decimal digits of `n`, most significant first.
pub open spec fn spec_dec(n: int) -> Seq<char>
    decreases n,
{
    if n < 10 {
        seq![digit_char(n)]
    } else {
        spec_dec(n / 10).push(digit_char(n % 10))
    }
}

/// Two zero-padded decimal digits for `h < 100`.
pub open spec fn spec_two_digits(h: int) -> Seq<char> {
    seq![digit_char(h / 10), digit_char(h % 10)]
}

/// Hundredths of `b / div`, rounded half-up; may round up to 100.
pub open spec fn spec_hundredths(b: int, div: int) -> int {
    ((b % div) * 100 + div / 2) / div
}

/// Whole part of `b / div` after rounding the fraction to hundredths.
pub open spec fn spec_scaled_whole(b: int, div: int) -> int {
    if spec_hundredths(b, div) == 100 {
        b / div + 1
    } else {
        b / div
    }
}

/// Fraction part, in hundredths, after the round-up carry.
pub open spec fn spec_scaled_frac(b: int, div: int) -> int {
    if spec_hundredths(b, div) == 100 {
        0
    } else {
        spec_hundredths(b, div)
    }
}

/// `<whole>.<frac, two digits>` of `b` against the unit `div`.
pub open spec fn spec_scaled(b: int, div: int) -> Seq<char> {
    spec_dec(spec_scaled_whole(b, div)) + seq!['.'] + spec_two_digits(spec_scaled_frac(b, div))
}

/// The rendering of a lifetime byte total: two rounded decimal places
/// against the largest binary unit the value reaches, plain bytes below
/// one kibibyte.
pub open spec fn spec_format_bytes_total(b: int) -> Seq<char> {
    if b >= GIB {
        spec_scaled(b, GIB as int) + seq![' ', 'G', 'i', 'B']
    } else if b >= MIB {
        spec_scaled(b, MIB as int) + seq![' ', 'M', 'i', 'B']
    } else if b >= KIB {
        spec_scaled(b, KIB as int) + seq![' ', 'K', 'i', 'B']
    } else {
        spec_dec(b) + seq![' ', 'B']
    }
}

/// The one-character string for the decimal digit `d`.
fn digit_str(d: u64) -> (r: &'static str)
    requires
        d < 10,
    ensures
        r@ =~= seq![digit_char(d as int)],
{
    let r: &'static str = if d == 0 {
        "0"
    } else if d == 1 {
        "1"
    } else if d == 2 {
        "2"
    } else if d == 3 {
        "3"
    } else if d == 4 {
        "4"
    } else if d == 5 {
        "5"
    } else if d == 6 {
        "6"
    } else if d == 7 {
        "7"
    } else if d == 8 {
        "8"
    } else {
        "9"
    };
    proof {
        reveal_strlit("0");
        reveal_strlit("1");
        reveal_strlit("2");
        reveal_strlit("3");
        reveal_strlit("4");
        reveal_strlit("5");
        reveal_strlit("6");
        reveal_strlit("7");
        reveal_strlit("8");
        reveal_strlit("9");
    }
    r
}

/// The decimal rendering of `n`.
pub fn u64_to_dec(n: u64) -> (r: String)
    ensures
        r@ == spec_dec(n as int),
    decreases n,
{
    if n < 10 {
        digit_str(n).to_owned()
    } else {
        let mut s = u64_to_dec(n / 10);
        s.append(digit_str(n % 10));
        s
    }
}

/// Two zero-padded decimal digits for `h < 100`.
fn two_digit_dec(h: u64) -> (r: String)
    requires
        h < 100,
    ensures
        r@ == spec_two_digits(h as int),
{
    let mut s = digit_str(h / 10).to_owned();
    s.append(digit_str(h % 10));
    s
}

/// `<whole>.<frac><unit>` of `bytes` against the unit `div`.
fn scaled_with_unit(bytes: u64, div: u64, unit: &str) -> (r: String)
    requires
        1024 <= div <= 0x4000_0000,
    ensures
        r@ == spec_scaled(bytes as int, div as int) + unit@,
{
    let mut whole = bytes / div;
    let rem = bytes % div;
    let mut frac = (rem * 100 + div / 2) / div;
    proof {
        vstd::arithmetic::div_mod::lemma_div_is_ordered_by_denominator(
            bytes as int,
            1024,
            div as int,
        );
        vstd::arithmetic::div_mod::lemma_div_is_ordered(bytes as int, u64::MAX as int, 1024);
        vstd::arithmetic::div_mod::lemma_div_decreases(div as int, 2);
        assert((rem as int) * 100 + (div as int) / 2 < (div as int) * 101);
        vstd::arithmetic::div_mod::lemma_multiply_divide_lt(
            (rem as int) * 100 + (div as int) / 2,
            div as int,
            101,
        );
    }
    if frac == 100 {
        whole = whole + 1;
        frac = 0;
    }
    let mut s = u64_to_dec(whole);
    proof {
        reveal_strlit(".");
    }
    s.append(".");
    let tail = two_digit_dec(frac);
    s.append(tail.as_str());
    s.append(unit);
    proof {
        assert(s@ =~= spec_scaled(bytes as int, div as int) + unit@);
    }
    s
}

/// Renders a lifetime byte total for display, e.g. `1.50 KiB`.
pub fn format_bytes_total(bytes: u64) -> (r: String)
    ensures
        r@ == spec_format_bytes_total(bytes as int),
{
    proof {
        reveal_strlit(" GiB");
        reveal_strlit(" MiB");
        reveal_strlit(" KiB");
        reveal_strlit(" B");
    }
    if bytes >= GIB {
        let r = scaled_with_unit(bytes, GIB, " GiB");
        proof {
            assert(r@ =~= spec_format_bytes_total(bytes as int));
        }
        r
    } else if bytes >= MIB {
        let r = scaled_with_unit(bytes, MIB, " MiB");
        proof {
            assert(r@ =~= spec_format_bytes_total(bytes as int));
        }
        r
    } else if bytes >= KIB {
        let r = scaled_with_unit(bytes, KIB, " KiB");
        proof {
            assert(r@ =~= spec_format_bytes_total(bytes as int));
        }
        r
    } else {
        let mut s = u64_to_dec(bytes);
        s.append(" B");
        proof {
            assert(s@ =~= spec_format_bytes_total(bytes as int));
        }
        s
    }
}

} // verus!
