//! Decimal text for fixed-point values, as vector payloads carry it.

use vstd::prelude::*;

verus! {

/// The one-character text of a decimal digit.
pub open spec fn digit_text(d: int) -> Seq<char> {
    if d == 0 {
        "0"@
    } else if d == 1 {
        "1"@
    } else if d == 2 {
        "2"@
    } else if d == 3 {
        "3"@
    } else if d == 4 {
        "4"@
    } else if d == 5 {
        "5"@
    } else if d == 6 {
        "6"@
    } else if d == 7 {
        "7"@
    } else if d == 8 {
        "8"@
    } else {
        "9"@
    }
}

/// The decimal digits of `n`, most significant first, without leading
/// zeros; `0` is written as one digit.
pub open spec fn nat_text(n: nat) -> Seq<char>
    decreases n,
{
    if n < 10 {
        digit_text(n as int)
    } else {
        nat_text(n / 10) + digit_text((n % 10) as int)
    }
}

/// The text of a magnitude of `m` thousandths: the whole part, a point,
/// and exactly three decimals.
pub open spec fn magnitude_text(m: nat) -> Seq<char> {
    nat_text(m / 1000) + "."@ + digit_text((m / 100 % 10) as int) + digit_text(
        (m / 10 % 10) as int,
    ) + digit_text((m % 10) as int)
}

/// The text of `v` thousandths in canvas units: a minus sign where `v` is
/// negative, then the magnitude. `-250` reads `-0.250`.
pub open spec fn fixed_text(v: int) -> Seq<char> {
    if v < 0 {
        "-"@ + magnitude_text((-v) as nat)
    } else {
        magnitude_text(v as nat)
    }
}

/// The text of a point: its two coordinates with a space between them.
pub open spec fn pair_text(x: int, y: int) -> Seq<char> {
    fixed_text(x) + " "@ + fixed_text(y)
}

/// The text of an attribute with a fixed-point value: a space, the name,
/// and the value between double quotes.
pub open spec fn attr_text(name: Seq<char>, v: int) -> Seq<char> {
    " "@ + name + "=\""@ + fixed_text(v) + "\""@
}

fn digit_str(d: u64) -> (s: &'static str)
    requires
        d < 10,
    ensures
        s@ == digit_text(d as int),
{
    if d == 0 {
        "0"
    } else if d == 1 {
        "1"
    } else if d == 2 {
        "2"
    } else if d == 3 {
        "3"
    } else if d == 4 {
        "4"
    } else if d == 5 {
        "5"
    } else if d == 6 {
        "6"
    } else if d == 7 {
        "7"
    } else if d == 8 {
        "8"
    } else {
        "9"
    }
}

/// Appends the decimal digits of `n` to `out`.
pub fn push_nat(out: &mut String, n: u64)
    ensures
        final(out)@ == old(out)@ + nat_text(n as nat),
    decreases n,
{
    if n >= 10 {
        push_nat(out, n / 10);
    }
    out.append(digit_str(n % 10));
    assert(out@ =~= old(out)@ + nat_text(n as nat));
}

fn push_magnitude(out: &mut String, m: u64)
    ensures
        final(out)@ == old(out)@ + magnitude_text(m as nat),
{
    push_nat(out, m / 1000);
    out.append(".");
    out.append(digit_str(m / 100 % 10));
    out.append(digit_str(m / 10 % 10));
    out.append(digit_str(m % 10));
    assert(out@ =~= old(out)@ + magnitude_text(m as nat));
}

/// Appends the text of `v` thousandths to `out`.
pub fn push_fixed(out: &mut String, v: i64)
    ensures
        final(out)@ == old(out)@ + fixed_text(v as int),
{
    if v < 0 {
        let m: u64 = (-(v + 1)) as u64 + 1;
        out.append("-");
        push_magnitude(out, m);
        assert(out@ =~= old(out)@ + fixed_text(v as int));
    } else {
        push_magnitude(out, v as u64);
    }
}

/// Appends the text of a point to `out`.
pub fn push_pair(out: &mut String, x: i64, y: i64)
    ensures
        final(out)@ == old(out)@ + pair_text(x as int, y as int),
{
    push_fixed(out, x);
    out.append(" ");
    push_fixed(out, y);
    assert(out@ =~= old(out)@ + pair_text(x as int, y as int));
}

/// Appends an attribute with a fixed-point value to `out`.
pub fn push_attr(out: &mut String, name: &str, v: i64)
    ensures
        final(out)@ == old(out)@ + attr_text(name@, v as int),
{
    out.append(" ");
    out.append(name);
    out.append("=\"");
    push_fixed(out, v);
    out.append("\"");
    assert(out@ =~= old(out)@ + attr_text(name@, v as int));
}

/// The text of `v` thousandths in canvas units.
pub fn fixed_to_string(v: i64) -> (s: String)
    ensures
        s@ == fixed_text(v as int),
{
    let mut s: String = String::new();
    push_fixed(&mut s, v);
    assert(s@ =~= fixed_text(v as int));
    s
}

} // verus!
