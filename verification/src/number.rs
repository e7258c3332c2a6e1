//! Reading a guess typed by a player: trimming and decimal parsing.
use vstd::prelude::*;
use vstd::string::*;
use crate::text::{decimal, digit_char};

verus! {

/// An ASCII control character: U+0000 to U+001F, or U+007F.
pub open spec fn is_ascii_control_char(c: char) -> bool {
    (c as u32) <= 0x1f || (c as u32) == 0x7f
}

/// A character with the Unicode `White_Space` property.
pub open spec fn is_white_space_char(c: char) -> bool {
    let u = c as u32;
    ||| 0x09 <= u <= 0x0d
    ||| u == 0x20
    ||| u == 0x85
    ||| u == 0xa0
    ||| u == 0x1680
    ||| 0x2000 <= u <= 0x200a
    ||| u == 0x2028
    ||| u == 0x2029
    ||| u == 0x202f
    ||| u == 0x205f
    ||| u == 0x3000
}

/// The characters that are stripped from both ends of a guess before it is
/// read as a number.
pub open spec fn is_padding(c: char) -> bool {
    is_ascii_control_char(c) || is_white_space_char(c)
}

/// `s` without its leading padding characters.
pub open spec fn trim_start(s: Seq<char>) -> Seq<char>
    decreases s.len(),
{
    if s.len() > 0 && is_padding(s[0]) {
        trim_start(s.drop_first())
    } else {
        s
    }
}

/// `s` without its trailing padding characters.
pub open spec fn trim_end(s: Seq<char>) -> Seq<char>
    decreases s.len(),
{
    if s.len() > 0 && is_padding(s.last()) {
        trim_end(s.drop_last())
    } else {
        s
    }
}

/// `s` without padding characters at either end.
pub open spec fn trim_padding(s: Seq<char>) -> Seq<char> {
    trim_end(trim_start(s))
}

/// An ASCII decimal digit.
pub open spec fn is_digit(c: char) -> bool {
    48 <= (c as u32) <= 57
}

/// The value of the digit character `c`.
pub open spec fn digit_value(c: char) -> nat {
    ((c as int) - 48) as nat
}

/// Every character of `s` is a decimal digit.
pub open spec fn all_digits(s: Seq<char>) -> bool {
    forall|i: int| 0 <= i < s.len() ==> #[trigger] is_digit(s[i])
}

/// The number that the digit string `s` denotes (`0` for the empty string).
pub open spec fn digits_value(s: Seq<char>) -> nat
    decreases s.len(),
{
    if s.len() == 0 {
        0
    } else {
        digits_value(s.drop_last()) * 10 + digit_value(s.last())
    }
}

/// `s` without one leading `+`, if it has one.
pub open spec fn unsigned_body(s: Seq<char>) -> Seq<char> {
    if s.len() > 0 && s[0] == '+' {
        s.drop_first()
    } else {
        s
    }
}

/// Base-10 reading of an unsigned 32-bit number: an optional `+`, then at
/// least one digit and nothing else; `None` when the text is not of that
/// form or the number exceeds `u32::MAX`.
pub open spec fn parse_u32_decimal(s: Seq<char>) -> Option<u32> {
    let body = unsigned_body(s);
    if body.len() == 0 || !all_digits(body) || digits_value(body) > u32::MAX {
        None
    } else {
        Some(digits_value(body) as u32)
    }
}

/// Whether `c` is stripped from the ends of a guess.
pub fn is_padding_char(c: char) -> (b: bool)
    ensures
        b == is_padding(c),
{
    let u = c as u32;
    u <= 0x1f || u == 0x7f || (0x09 <= u && u <= 0x0d) || u == 0x20 || u == 0x85 || u == 0xa0
        || u == 0x1680 || (0x2000 <= u && u <= 0x200a) || u == 0x2028 || u == 0x2029 || u
        == 0x202f || u == 0x205f || u == 0x3000
}

proof fn lemma_digits_prefix_le(d: Seq<char>, m: int)
    requires
        0 <= m <= d.len(),
        all_digits(d),
    ensures
        digits_value(d.subrange(0, m)) <= digits_value(d),
    decreases d.len() - m,
{
    if m == d.len() {
        assert(d.subrange(0, m) =~= d);
    } else {
        lemma_digits_prefix_le(d, m + 1);
        let p = d.subrange(0, m + 1);
        assert(p.drop_last() =~= d.subrange(0, m));
    }
}

/// Reads the characters `s[lo..hi]` as `parse_u32_decimal` does.
fn parse_u32_range(s: &str, lo: usize, hi: usize) -> (r: Option<u32>)
    requires
        lo <= hi <= s@.len(),
    ensures
        r == parse_u32_decimal(s@.subrange(lo as int, hi as int)),
{
    let ghost t = s@.subrange(lo as int, hi as int);
    if lo == hi {
        return None;
    }
    let mut start = lo;
    if s.get_char(lo) == '+' {
        start = lo + 1;
    }
    let ghost body = s@.subrange(start as int, hi as int);
    assert(body =~= unsigned_body(t));
    if start == hi {
        return None;
    }
    let mut k = start;
    let mut value: u32 = 0;
    while k < hi
        invariant
            start <= k <= hi <= s@.len(),
            body == s@.subrange(start as int, hi as int),
            body == unsigned_body(t),
            t == s@.subrange(lo as int, hi as int),
            forall|i: int| start <= i < k ==> #[trigger] is_digit(s@[i]),
            value as nat == digits_value(s@.subrange(start as int, k as int)),
        decreases hi - k,
    {
        let c = s.get_char(k);
        let u = c as u32;
        if !(48 <= u && u <= 57) {
            assert(!is_digit(body[k - start]));
            return None;
        }
        let ghost prefix = s@.subrange(start as int, k + 1);
        assert(prefix.drop_last() =~= s@.subrange(start as int, k as int));
        let dv = u - 48;
        assert(digits_value(prefix) == value * 10 + dv);
        match value.checked_mul(10) {
            Some(v10) => match v10.checked_add(dv) {
                Some(v) => {
                    value = v;
                },
                None => {
                    proof {
                        if all_digits(body) {
                            assert(prefix =~= body.subrange(0, k + 1 - start));
                            lemma_digits_prefix_le(body, k + 1 - start);
                        }
                    }
                    return None;
                },
            },
            None => {
                proof {
                    if all_digits(body) {
                        assert(prefix =~= body.subrange(0, k + 1 - start));
                        lemma_digits_prefix_le(body, k + 1 - start);
                    }
                }
                return None;
            },
        }
        k = k + 1;
    }
    assert(s@.subrange(start as int, k as int) =~= body);
    Some(value)
}

/// Reads `input` as the game does: padding is stripped from both ends and
/// the rest is read as `parse_u32_decimal` does.
pub fn parse_trimmed_u32(input: &str) -> (r: Option<u32>)
    ensures
        r == parse_u32_decimal(trim_padding(input@)),
{
    let len = input.unicode_len();
    let ghost s = input@;
    let mut lo: usize = 0;
    assert(s.subrange(0, len as int) =~= s);
    while lo < len && is_padding_char(input.get_char(lo))
        invariant
            len == s.len(),
            s == input@,
            lo <= len,
            trim_start(s.subrange(lo as int, len as int)) == trim_start(s),
        decreases len - lo,
    {
        assert(s.subrange(lo as int, len as int).drop_first() =~= s.subrange(lo + 1, len as int));
        lo = lo + 1;
    }
    assert(s.subrange(0, len as int) =~= s);
    let ghost front = s.subrange(lo as int, len as int);
    assert(trim_start(front) == front);
    let mut hi: usize = len;
    while hi > lo && is_padding_char(input.get_char(hi - 1))
        invariant
            len == s.len(),
            s == input@,
            lo <= hi <= len,
            front == s.subrange(lo as int, len as int),
            trim_end(s.subrange(lo as int, hi as int)) == trim_end(front),
        decreases hi - lo,
    {
        assert(s.subrange(lo as int, hi as int).drop_last() =~= s.subrange(lo as int, hi - 1));
        hi = hi - 1;
    }
    let ghost rest = s.subrange(lo as int, hi as int);
    assert(trim_end(rest) == rest);
    parse_u32_range(input, lo, hi)
}

/// The decimal form of a number is made of digits whose value is the
/// number, and it has no leading zero.
pub proof fn lemma_decimal_digits(n: nat)
    ensures
        decimal(n).len() > 0,
        all_digits(decimal(n)),
        digits_value(decimal(n)) == n,
        n >= 10 ==> decimal(n)[0] != '0',
    decreases n,
{
    assert((digit_char(n % 10) as int) == 48 + n % 10);
    if n >= 10 {
        lemma_decimal_digits(n / 10);
        let d = decimal(n);
        assert(d[0] == decimal(n / 10)[0]);
        if n / 10 < 10 {
            assert(n / 10 >= 1);
            assert((digit_char(n / 10) as int) == 48 + n / 10);
        }
        assert(d.drop_last() =~= decimal(n / 10));
        assert(d.last() == digit_char(n % 10));
        assert((n / 10) * 10 + n % 10 == n) by (nonlinear_arith);
        assert forall|i: int| 0 <= i < d.len() implies #[trigger] is_digit(d[i]) by {
            if i < d.len() - 1 {
                assert(d[i] == decimal(n / 10)[i]);
            }
        }
    } else {
        assert(decimal(n).drop_last() =~= Seq::<char>::empty());
        assert(digits_value(decimal(n).drop_last()) == 0);
        assert(digit_value(decimal(n).last()) == n);
    }
}

proof fn lemma_trim_start_shape(s: Seq<char>)
    ensures
        exists|lo: int|
            0 <= lo <= s.len() && trim_start(s) == s.subrange(lo, s.len() as int) && (forall|i: int|
                0 <= i < lo ==> is_padding(#[trigger] s[i])) && (lo < s.len() ==> !is_padding(
                s[lo],
            )),
    decreases s.len(),
{
    if s.len() > 0 && is_padding(s[0]) {
        let t = s.drop_first();
        lemma_trim_start_shape(t);
        let lo = choose|lo: int|
            0 <= lo <= t.len() && trim_start(t) == t.subrange(lo, t.len() as int) && (forall|i: int|
                0 <= i < lo ==> is_padding(#[trigger] t[i])) && (lo < t.len() ==> !is_padding(t[lo]));
        assert(t.subrange(lo, t.len() as int) =~= s.subrange(lo + 1, s.len() as int));
        assert forall|i: int| 0 <= i < lo + 1 implies is_padding(#[trigger] s[i]) by {
            if i > 0 {
                assert(s[i] == t[i - 1]);
            }
        }
        assert(lo + 1 < s.len() ==> s[lo + 1] == t[lo]);
    } else {
        assert(s.subrange(0, s.len() as int) =~= s);
    }
}

proof fn lemma_trim_end_shape(s: Seq<char>)
    ensures
        exists|hi: int|
            0 <= hi <= s.len() && trim_end(s) == s.subrange(0, hi) && (forall|i: int|
                hi <= i < s.len() ==> is_padding(#[trigger] s[i])) && (hi > 0 ==> !is_padding(
                s[hi - 1],
            )),
    decreases s.len(),
{
    if s.len() > 0 && is_padding(s.last()) {
        let t = s.drop_last();
        lemma_trim_end_shape(t);
        let hi = choose|hi: int|
            0 <= hi <= t.len() && trim_end(t) == t.subrange(0, hi) && (forall|i: int|
                hi <= i < t.len() ==> is_padding(#[trigger] t[i])) && (hi > 0 ==> !is_padding(
                t[hi - 1],
            ));
        assert(t.subrange(0, hi) =~= s.subrange(0, hi));
        assert forall|i: int| hi <= i < s.len() implies is_padding(#[trigger] s[i]) by {
            if i < s.len() - 1 {
                assert(s[i] == t[i]);
            }
        }
        assert(hi > 0 ==> s[hi - 1] == t[hi - 1]);
    } else {
        assert(s.subrange(0, s.len() as int) =~= s);
    }
}

/// Trimming removes padding from the ends and nothing else: what is left
/// is a contiguous piece `s[lo..hi]` of the text, everything outside it is
/// padding, and a non-empty piece starts and ends with a character that is
/// not padding.
pub proof fn law_trim_keeps_the_middle(s: Seq<char>)
    ensures
        exists|lo: int, hi: int|
            0 <= lo <= hi <= s.len() && trim_padding(s) == s.subrange(lo, hi) && (forall|i: int|
                0 <= i < lo ==> is_padding(#[trigger] s[i])) && (forall|i: int|
                hi <= i < s.len() ==> is_padding(#[trigger] s[i])) && (lo < hi ==> !is_padding(s[lo])
                && !is_padding(s[hi - 1])),
{
    lemma_trim_start_shape(s);
    let lo = choose|lo: int|
        0 <= lo <= s.len() && trim_start(s) == s.subrange(lo, s.len() as int) && (forall|i: int|
            0 <= i < lo ==> is_padding(#[trigger] s[i])) && (lo < s.len() ==> !is_padding(s[lo]));
    let t = trim_start(s);
    lemma_trim_end_shape(t);
    let h = choose|hi: int|
        0 <= hi <= t.len() && trim_end(t) == t.subrange(0, hi) && (forall|i: int|
            hi <= i < t.len() ==> is_padding(#[trigger] t[i])) && (hi > 0 ==> !is_padding(
            t[hi - 1],
        ));
    let hi = lo + h;
    assert(t.subrange(0, h) =~= s.subrange(lo, hi));
    assert forall|i: int| hi <= i < s.len() implies is_padding(#[trigger] s[i]) by {
        assert(s[i] == t[i - lo]);
    }
    if lo < hi {
        assert(s[lo] == t[0]);
        assert(s[hi - 1] == t[h - 1]);
    }
    assert(0 <= lo <= hi <= s.len() && trim_padding(s) == s.subrange(lo, hi) && (forall|i: int|
        0 <= i < lo ==> is_padding(#[trigger] s[i])) && (forall|i: int|
        hi <= i < s.len() ==> is_padding(#[trigger] s[i])) && (lo < hi ==> !is_padding(s[lo])
        && !is_padding(s[hi - 1])));
}

/// Reading back the decimal form of any `u32` gives the number itself.
pub proof fn law_parse_reads_decimal(n: u32)
    ensures
        parse_u32_decimal(trim_padding(decimal(n as nat))) == Some(n),
{
    let d = decimal(n as nat);
    lemma_decimal_digits(n as nat);
    assert(is_digit(d[0]));
    assert(is_digit(d.last()));
    assert(trim_start(d) == d);
    assert(trim_end(d) == d);
    assert(unsigned_body(d) == d);
}

} // verus!
