//! Decimal rendering of unsigned integers, with the zero-padded variants the
//! renderers need, and ordinal suffixes.

use vstd::prelude::*;

verus! {

/// The character for a single decimal digit.
pub open spec fn digit_char(d: int) -> char {
    if d == 0 {
        '0'
    } else if d == 1 {
        '1'
    } else if d == 2 {
        '2'
    } else if d == 3 {
        '3'
    } else if d == 4 {
        '4'
    } else if d == 5 {
        '5'
    } else if d == 6 {
        '6'
    } else if d == 7 {
        '7'
    } else if d == 8 {
        '8'
    } else {
        '9'
    }
}

/// The usual decimal rendering of `n`, most significant digit first,
/// without leading zeroes (`0` renders as "0").
pub open spec fn dec_spec(n: int) -> Seq<char>
    recommends
        n >= 0,
    decreases n,
{
    if n <= 9 {
        seq![digit_char(n)]
    } else {
        dec_spec(n / 10).push(digit_char(n % 10))
    }
}

/// Decimal rendering of `n` left-padded with zeroes to at least `width` digits.
pub open spec fn padded_spec(n: int, width: int) -> Seq<char>
    recommends
        n >= 0,
    decreases width,
{
    if width <= 1 {
        dec_spec(n)
    } else if n < pow10(width - 1) {
        seq!['0'] + padded_spec(n, width - 1)
    } else {
        dec_spec(n)
    }
}

pub open spec fn pow10(e: int) -> int
    decreases e,
{
    if e <= 0 {
        1
    } else {
        10 * pow10(e - 1)
    }
}

/// Relies on `String::push` from std: appends exactly the given character.
#[verifier::external_body]
pub(crate) fn push_char(s: &mut String, c: char)
    ensures
        final(s)@ == old(s)@ + seq![c],
{
    s.push(c);
}

fn push_digit(s: &mut String, d: u128)
    requires
        d <= 9,
    ensures
        final(s)@ == old(s)@ + seq![digit_char(d as int)],
{
    if d == 0 {
        push_char(s, '0');
    } else if d == 1 {
        push_char(s, '1');
    } else if d == 2 {
        push_char(s, '2');
    } else if d == 3 {
        push_char(s, '3');
    } else if d == 4 {
        push_char(s, '4');
    } else if d == 5 {
        push_char(s, '5');
    } else if d == 6 {
        push_char(s, '6');
    } else if d == 7 {
        push_char(s, '7');
    } else if d == 8 {
        push_char(s, '8');
    } else {
        push_char(s, '9');
    }
}

pub(crate) fn push_dec(s: &mut String, n: u128)
    ensures
        final(s)@ == old(s)@ + dec_spec(n as int),
    decreases n,
{
    if n <= 9 {
        push_digit(s, n);
    } else {
        assert(n / 10 < n) by (nonlinear_arith)
            requires
                n > 9,
        ;
        push_dec(s, n / 10);
        assert(n % 10 <= 9) by (nonlinear_arith);
        push_digit(s, n % 10);
    }
}

/// Decimal rendering of `n`.
pub fn u128_to_string(n: u128) -> (r: String)
    ensures
        r@ == dec_spec(n as int),
{
    let mut s = String::new();
    push_dec(&mut s, n);
    assert(s@ =~= dec_spec(n as int));
    s
}

/// Decimal rendering of `n`.
pub fn usize_to_string(n: usize) -> (r: String)
    ensures
        r@ == dec_spec(n as int),
{
    u128_to_string(n as u128)
}

pub(crate) fn push_padded(s: &mut String, n: u128, width: u32)
    requires
        width <= 9,
    ensures
        final(s)@ == old(s)@ + padded_spec(n as int, width as int),
    decreases width,
{
    if width <= 1 {
        push_dec(s, n);
    } else {
        let ghost w = width as int;
        let bound = pow10_exec(width - 1);
        if n < bound as u128 {
            push_char(s, '0');
            push_padded(s, n, width - 1);
            assert(final(s)@ =~= old(s)@ + padded_spec(n as int, w));
        } else {
            push_dec(s, n);
        }
    }
}

proof fn lemma_pow10_pos(e: int)
    ensures
        pow10(e) >= 1,
    decreases e,
{
    if e > 0 {
        lemma_pow10_pos(e - 1);
    }
}

proof fn lemma_pow10_mono(a: int, b: int)
    requires
        a <= b,
    ensures
        pow10(a) <= pow10(b),
    decreases b - a,
{
    if a < b {
        lemma_pow10_mono(a, b - 1);
        lemma_pow10_pos(b - 1);
    }
}

proof fn lemma_pow10_small(e: int)
    requires
        0 <= e <= 9,
    ensures
        pow10(e) <= 1000000000,
{
    reveal_with_fuel(pow10, 11);
    lemma_pow10_mono(e, 9);
}

fn pow10_exec(e: u32) -> (r: u64)
    requires
        e <= 9,
    ensures
        r == pow10(e as int),
    decreases e,
{
    if e == 0 {
        1
    } else {
        let p = pow10_exec(e - 1);
        proof {
            lemma_pow10_pos(e as int - 1);
            lemma_pow10_small(e as int);
        }
        10 * p
    }
}

/// Decimal rendering of `n` left-padded with zeroes to at least `width` digits,
/// as the `{:0width$}` format would print it.
pub fn padded_to_string(n: usize, width: u32) -> (r: String)
    requires
        width <= 9,
    ensures
        r@ == padded_spec(n as int, width as int),
{
    let mut s = String::new();
    push_padded(&mut s, n as u128, width);
    assert(s@ =~= padded_spec(n as int, width as int));
    s
}

/// A scaled value rendered with four decimal places: the integer part, a
/// point, and the last four digits zero-padded (`14142` renders as
/// `1.4142`).
pub open spec fn fixed4_spec(v: int) -> Seq<char> {
    dec_spec(v / 10000) + "."@ + padded_spec(v % 10000, 4)
}

/// Appends a value scaled by 10^4, rendered with four decimal places.
pub fn push_fixed4(s: &mut String, v: u128)
    ensures
        final(s)@ == old(s)@ + fixed4_spec(v as int),
{
    push_dec(s, v / 10000);
    s.append(".");
    push_padded(s, v % 10000, 4);
    assert(s@ =~= old(s)@ + fixed4_spec(v as int));
}

/// The ordinal suffix for `n`: "st", "nd" or "rd" for 1, 2, 3 outside the
/// teens, "th" otherwise.
pub open spec fn ordinal_suffix_spec(n: int) -> Seq<char> {
    if (n / 10) % 10 == 1 {
        "th"@
    } else if n % 10 == 1 {
        "st"@
    } else if n % 10 == 2 {
        "nd"@
    } else if n % 10 == 3 {
        "rd"@
    } else {
        "th"@
    }
}

/// The English ordinal for `n`: its decimal rendering followed by its suffix.
pub open spec fn nth_spec(n: int) -> Seq<char> {
    dec_spec(n) + ordinal_suffix_spec(n)
}

/// Renders `n` as an English ordinal: "1st", "2nd", "3rd", "4th", "11th", ...
pub fn nth(n: usize) -> (r: String)
    ensures
        r@ == nth_spec(n as int),
{
    let mut buf = usize_to_string(n);
    if n / 10 % 10 == 1 {
        buf.append("th");
    } else {
        match n % 10 {
            1 => buf.append("st"),
            2 => buf.append("nd"),
            3 => buf.append("rd"),
            _ => buf.append("th"),
        }
    }
    buf
}

} // verus!
