//! Human-readable sizes: a byte count as text in binary units.

use vstd::prelude::*;
use vstd::arithmetic::div_mod::lemma_div_denominator;
use vstd::arithmetic::div_mod::lemma_fundamental_div_mod;

verus! {

pub const KB: u64 = 1024;

pub const MB: u64 = 1024 * 1024;

pub const GB: u64 = 1024 * 1024 * 1024;

pub const TB: u64 = 1024 * 1024 * 1024 * 1024;

/// Every integer below this bound is a double-precision number.
pub const EXACT_LIMIT: u64 = 0x20_0000_0000_0000;

/// The character of one decimal digit.
pub open spec fn digit_char(d: nat) -> char {
    if d == 0 {
        '0'
    } else if d == 1 {
        '1'
    } else if d == 2 {
        '2'
    } else if d == 3 {
        '3'
    } else if d == 4 {
        '4'
    } else if d == 5 {
        '5'
    } else if d == 6 {
        '6'
    } else if d == 7 {
        '7'
    } else if d == 8 {
        '8'
    } else {
        '9'
    }
}

/// A natural number in decimal, without leading zeros.
pub open spec fn decimal(n: nat) -> Seq<char>
    decreases n,
{
    if n < 10 {
        seq![digit_char(n)]
    } else {
        decimal(n / 10).push(digit_char(n % 10))
    }
}

/// `n / d` rounded to the nearest integer, a tie going to the even one.
pub open spec fn round_half_even(n: nat, d: nat) -> nat
    recommends
        d > 0,
{
    let q = n / d;
    let r = n % d;
    if 2 * r > d || (2 * r == d && q % 2 == 1) {
        q + 1
    } else {
        q
    }
}

/// The distance between neighbouring double-precision numbers around `n`:
/// 1 below `EXACT_LIMIT`, doubling with each further binary digit.
pub open spec fn double_spacing(n: nat) -> nat
    decreases n,
{
    if n < EXACT_LIMIT {
        1
    } else {
        2 * double_spacing(n / 2)
    }
}

/// The double-precision number nearest to `n`, a tie going to the one whose
/// last binary digit is even.
pub open spec fn nearest_double(n: nat) -> nat {
    round_half_even(n, double_spacing(n)) * double_spacing(n)
}

/// A count below `EXACT_LIMIT` is a double itself; every count that the units
/// KB, MB and GB are used for is one of these.
pub proof fn lemma_small_counts_are_exact(n: nat)
    requires
        n < EXACT_LIMIT,
    ensures
        nearest_double(n) == n,
        TB < EXACT_LIMIT,
{
    assert(double_spacing(n) == 1);
    assert(round_half_even(n, 1) == n);
}

/// The number of hundredths of `unit` in `bytes`: the byte count is first taken
/// to the nearest double, the quotient then rounded to two decimals.
pub open spec fn hundredths(bytes: nat, unit: nat) -> nat
    recommends
        unit > 0,
{
    round_half_even(nearest_double(bytes) * 100, unit)
}

/// A count of hundredths as a number with two decimals, then the unit.
pub open spec fn two_decimals(h: nat, suffix: Seq<char>) -> Seq<char> {
    decimal(h / 100) + seq!['.', digit_char((h / 10) % 10), digit_char(h % 10)] + suffix
}

/// The text of a byte count: whole bytes below 1024, else two decimals of the
/// largest unit that the count reaches.
pub open spec fn format_bytes_text(bytes: nat) -> Seq<char> {
    if bytes >= TB {
        two_decimals(hundredths(bytes, TB as nat), " TB"@)
    } else if bytes >= GB {
        two_decimals(hundredths(bytes, GB as nat), " GB"@)
    } else if bytes >= MB {
        two_decimals(hundredths(bytes, MB as nat), " MB"@)
    } else if bytes >= KB {
        two_decimals(hundredths(bytes, KB as nat), " KB"@)
    } else {
        decimal(bytes) + " bytes"@
    }
}

fn digit_text(d: u8) -> (s: &'static str)
    requires
        d < 10,
    ensures
        s@ == seq![digit_char(d as nat)],
{
    proof {
        reveal_strlit("0");
        reveal_strlit("1");
        reveal_strlit("2");
        reveal_strlit("3");
        reveal_strlit("4");
        reveal_strlit("5");
        reveal_strlit("6");
        reveal_strlit("7");
        reveal_strlit("8");
        reveal_strlit("9");
    }
    let s = if d == 0 {
        "0"
    } else if d == 1 {
        "1"
    } else if d == 2 {
        "2"
    } else if d == 3 {
        "3"
    } else if d == 4 {
        "4"
    } else if d == 5 {
        "5"
    } else if d == 6 {
        "6"
    } else if d == 7 {
        "7"
    } else if d == 8 {
        "8"
    } else {
        "9"
    };
    assert(s@ =~= seq![digit_char(d as nat)]);
    s
}

/// Appends `n` in decimal to `out`.
pub fn append_decimal(out: &mut String, n: u128)
    ensures
        final(out)@ == old(out)@ + decimal(n as nat),
    decreases n,
{
    if n >= 10 {
        append_decimal(out, n / 10);
    }
    let d: u8 = (n % 10) as u8;
    out.append(digit_text(d));
    assert(out@ =~= old(out)@ + decimal(n as nat));
}

proof fn lemma_spacing_halves(bytes: nat, unit: nat, m: nat)
    requires
        unit > 0,
        m == bytes / unit,
        m >= EXACT_LIMIT,
        double_spacing(bytes) == unit * double_spacing(m),
    ensures
        m / 2 == bytes / (unit * 2),
        double_spacing(bytes) == (unit * 2) * double_spacing(m / 2),
        unit * EXACT_LIMIT <= bytes,
{
    lemma_div_denominator(bytes as int, unit as int, 2);
    assert(unit * (2 * double_spacing(m / 2)) == (unit * 2) * double_spacing(m / 2))
        by (nonlinear_arith);
    lemma_fundamental_div_mod(bytes as int, unit as int);
    assert(unit * EXACT_LIMIT <= unit * m) by (nonlinear_arith)
        requires
            m >= EXACT_LIMIT,
            unit > 0,
    ;
}

/// The double nearest to a byte count, as an integer.
pub fn nearest_double_of(bytes: u64) -> (r: u128)
    ensures
        r == nearest_double(bytes as nat),
        r < 0x2_0000_0000_0000_0000,
{
    let mut unit: u64 = 1;
    let mut m: u64 = bytes;
    while m >= EXACT_LIMIT
        invariant
            unit == 1 || unit * 0x10_0000_0000_0000 <= bytes,
            0 < unit,
            m == bytes / unit,
            double_spacing(bytes as nat) == unit * double_spacing(m as nat),
        decreases m,
    {
        proof {
            lemma_spacing_halves(bytes as nat, unit as nat, m as nat);
        }
        m = m / 2;
        unit = unit * 2;
    }
    let r: u64 = bytes % unit;
    let up: bool = 2 * r > unit || (2 * r == unit && m % 2 == 1);
    let q: u128 = if up {
        m as u128 + 1
    } else {
        m as u128
    };
    proof {
        lemma_fundamental_div_mod(bytes as int, unit as int);
        assert(double_spacing(m as nat) == 1);
        assert(unit * double_spacing(m as nat) == unit) by (nonlinear_arith)
            requires
                double_spacing(m as nat) == 1,
        ;
        assert(q == round_half_even(bytes as nat, unit as nat));
        assert(q * unit <= unit * m + unit) by (nonlinear_arith)
            requires
                q <= m + 1,
                unit > 0,
        ;
    }
    q * (unit as u128)
}

/// The hundredths of `unit` in a byte count.
pub fn hundredths_of(bytes: u64, unit: u64) -> (h: u128)
    requires
        unit > 0,
    ensures
        h == hundredths(bytes as nat, unit as nat),
{
    let scaled: u128 = nearest_double_of(bytes) * 100;
    let q: u128 = scaled / (unit as u128);
    let r: u128 = scaled % (unit as u128);
    if 2 * r > unit as u128 || (2 * r == unit as u128 && q % 2 == 1) {
        q + 1
    } else {
        q
    }
}

fn append_two_decimals(out: &mut String, h: u128, suffix: &str)
    ensures
        final(out)@ == old(out)@ + two_decimals(h as nat, suffix@),
{
    proof {
        reveal_strlit(".");
    }
    append_decimal(out, h / 100);
    out.append(".");
    out.append(digit_text(((h / 10) % 10) as u8));
    out.append(digit_text((h % 10) as u8));
    out.append(suffix);
    assert(out@ =~= old(out)@ + two_decimals(h as nat, suffix@));
}

/// A byte count as text: `"512 bytes"`, `"1.50 KB"`, `"2.00 GB"`.
///
/// Below 1024 the count is written whole. From there on it is divided by the
/// largest of KB, MB, GB and TB that it reaches and written with two decimals,
/// as double-precision arithmetic gives them.
pub fn format_bytes(bytes: u64) -> (text: String)
    ensures
        text@ == format_bytes_text(bytes as nat),
{
    let mut text = String::new();
    if bytes >= TB {
        append_two_decimals(&mut text, hundredths_of(bytes, TB), " TB");
    } else if bytes >= GB {
        append_two_decimals(&mut text, hundredths_of(bytes, GB), " GB");
    } else if bytes >= MB {
        append_two_decimals(&mut text, hundredths_of(bytes, MB), " MB");
    } else if bytes >= KB {
        append_two_decimals(&mut text, hundredths_of(bytes, KB), " KB");
    } else {
        append_decimal(&mut text, bytes as u128);
        text.append(" bytes");
    }
    assert(text@ =~= format_bytes_text(bytes as nat));
    text
}

} // verus!
