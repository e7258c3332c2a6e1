//! Decimal and ordinal rendering of numbers.
use vstd::prelude::*;

verus! {

/// The character of a decimal digit `d < 10`.
pub open spec fn digit_char(d: nat) -> char {
    (48 + d) as char
}

/// The decimal representation of `n`, most significant digit first,
/// without sign or leading zeros (`0` is written `"0"`).
pub open spec fn decimal(n: nat) -> Seq<char>
    decreases n,
{
    if n < 10 {
        seq![digit_char(n)]
    } else {
        decimal(n / 10).push(digit_char(n % 10))
    }
}

/// Appends one character to a `String` (`String::push`).
#[verifier::external_body]
pub(crate) fn push_char(s: &mut String, c: char)
    ensures
        final(s)@ == old(s)@.push(c),
{
    s.push(c);
}

fn digit_to_char(d: u128) -> (c: char)
    requires
        d < 10,
    ensures
        c == digit_char(d as nat),
{
    let b: u8 = 48u8 + (d as u8);
    b as char
}

/// Appends the decimal representation of `n` to `out`.
pub fn push_decimal(out: &mut String, n: u128)
    ensures
        final(out)@ == old(out)@ + decimal(n as nat),
    decreases n,
{
    if n >= 10 {
        push_decimal(out, n / 10);
    }
    let c = digit_to_char(n % 10);
    let ghost before = out@;
    push_char(out, c);
    proof {
        if n >= 10 {
            assert(before == old(out)@ + decimal((n / 10) as nat));
            assert(out@ =~= old(out)@ + decimal(n as nat));
        } else {
            assert(out@ =~= old(out)@ + decimal(n as nat));
        }
    }
}

/// The English ordinal of `n`: words for zero to nine, then digits with a
/// suffix: `th` when the last two digits are 11, 12 or 13, and otherwise
/// the suffix of the last digit (`21st`, `22nd`, `23rd`, `111th`).
pub open spec fn ordinal(n: nat) -> Seq<char> {
    if n == 0 {
        "zeroth"@
    } else if n == 1 {
        "first"@
    } else if n == 2 {
        "second"@
    } else if n == 3 {
        "third"@
    } else if n == 4 {
        "fourth"@
    } else if n == 5 {
        "fifth"@
    } else if n == 6 {
        "sixth"@
    } else if n == 7 {
        "seventh"@
    } else if n == 8 {
        "eighth"@
    } else if n == 9 {
        "ninth"@
    } else if 11 <= n % 100 <= 13 {
        decimal(n) + "th"@
    } else if n % 10 == 1 {
        decimal(n) + "st"@
    } else if n % 10 == 2 {
        decimal(n) + "nd"@
    } else if n % 10 == 3 {
        decimal(n) + "rd"@
    } else {
        decimal(n) + "th"@
    }
}

/// The English suffix rule: from ten on, an ordinal is the number's digits
/// followed by `th` when its last two digits are 11, 12 or 13, and
/// otherwise by the suffix of its last digit: `st` for 1, `nd` for 2, `rd`
/// for 3 and `th` for the others.
pub proof fn law_ordinal_suffix(n: nat)
    requires
        n >= 10,
    ensures
        (n % 100 == 11 || n % 100 == 12 || n % 100 == 13) ==> ordinal(n) == decimal(n) + "th"@,
        n % 100 != 11 && n % 10 == 1 ==> ordinal(n) == decimal(n) + "st"@,
        n % 100 != 12 && n % 10 == 2 ==> ordinal(n) == decimal(n) + "nd"@,
        n % 100 != 13 && n % 10 == 3 ==> ordinal(n) == decimal(n) + "rd"@,
        (n % 10 == 0 || n % 10 >= 4) ==> ordinal(n) == decimal(n) + "th"@,
{
    assert(n % 100 % 10 == n % 10) by (nonlinear_arith)
        requires
            n >= 0,
    ;
}

/// The decimal representation of `n` as a new `String`.
pub fn decimal_string(n: u128) -> (s: String)
    ensures
        s@ == decimal(n as nat),
{
    let mut s = String::new();
    push_decimal(&mut s, n);
    proof {
        assert(s@ =~= decimal(n as nat));
    }
    s
}

/// Serializes `n` as an English ordinal ("first", "second", ..., "21st").
pub fn nth(n: u32) -> (s: String)
    ensures
        s@ == ordinal(n as nat),
{
    match n {
        0 => "zeroth".to_owned(),
        1 => "first".to_owned(),
        2 => "second".to_owned(),
        3 => "third".to_owned(),
        4 => "fourth".to_owned(),
        5 => "fifth".to_owned(),
        6 => "sixth".to_owned(),
        7 => "seventh".to_owned(),
        8 => "eighth".to_owned(),
        9 => "ninth".to_owned(),
        _ => {
            let mut s = decimal_string(n as u128);
            let last_two = n % 100;
            if 11 <= last_two && last_two <= 13 {
                s.append("th");
            } else if n % 10 == 1 {
                s.append("st");
            } else if n % 10 == 2 {
                s.append("nd");
            } else if n % 10 == 3 {
                s.append("rd");
            } else {
                s.append("th");
            }
            s
        },
    }
}

} // verus!
