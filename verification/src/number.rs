//! Decimal digits: reading a number and writing one to a fixed width.
use vstd::prelude::*;
use vstd::string::*;
use crate::convert::chars_of;

verus! {

/// Whether `c` is one of `0` to `9`.
pub open spec fn is_digit(c: char) -> bool {
    '0' <= c <= '9'
}

/// The value of the digit `c`.
pub open spec fn digit_value(c: char) -> nat
    recommends
        is_digit(c),
{
    (c as u32 - '0' as u32) as nat
}

/// The digit that stands for `d`, which is under ten.
pub open spec fn digit_char(d: nat) -> char
    recommends
        d < 10,
{
    ('0' as u32 + d as u32) as char
}

/// The number that `digits` spells in decimal; `None` where `digits` is empty
/// or holds anything but `0` to `9`.
pub open spec fn number_of(digits: Seq<char>) -> Option<nat>
    decreases digits.len(),
{
    if digits.len() == 0 || !is_digit(digits.last()) {
        None
    } else if digits.len() == 1 {
        Some(digit_value(digits.last()))
    } else {
        match number_of(digits.drop_last()) {
            Some(v) => Some(v * 10 + digit_value(digits.last())),
            None => None,
        }
    }
}

/// The decimal digits of `n`, without leading zeros.
pub open spec fn decimal(n: nat) -> Seq<char>
    decreases n,
{
    if n < 10 {
        seq![digit_char(n)]
    } else {
        decimal(n / 10).push(digit_char(n % 10))
    }
}

/// `digits` with zeros put in front until it is `width` long; unchanged where
/// it is that long already, or longer.
pub open spec fn zero_padded(digits: Seq<char>, width: nat) -> Seq<char> {
    if digits.len() >= width {
        digits
    } else {
        Seq::new((width - digits.len()) as nat, |i: int| '0') + digits
    }
}

/// Reads `s` as a decimal number: the number where `s` is one or more of the
/// digits `0` to `9` and the number is at most `i32::MAX`, else `None`.
pub fn parse_number(s: &str) -> (r: Option<u32>)
    ensures
        r == match number_of(s@) {
            Some(v) => if v <= i32::MAX {
                Some(v as u32)
            } else {
                None
            },
            None => None,
        },
{
    let chars = chars_of(s);
    if chars.len() == 0 {
        return None;
    }
    let mut value: u32 = 0;
    let mut i: usize = 0;
    while i < chars.len()
        invariant
            i <= chars.len(),
            chars@ == s@,
            value <= i32::MAX,
            i > 0 ==> number_of(chars@.take(i as int)) == Some(value as nat),
            i == 0 ==> value == 0,
        decreases chars.len() - i,
    {
        let c = chars[i];
        proof {
            lemma_number_of_prefix(chars@, i as int + 1);
            assert(chars@.take(i as int + 1).drop_last() =~= chars@.take(i as int));
            assert(chars@.take(i as int + 1).last() == c);
        }
        if c < '0' || c > '9' {
            return None;
        }
        let d: u32 = c as u32 - '0' as u32;
        if value > (0x7fff_ffff - d) / 10 {
            return None;
        }
        value = value * 10 + d;
        i += 1;
    }
    assert(chars@.take(i as int) =~= chars@);
    Some(value)
}

/// A text that spells a number has prefixes that spell numbers, none of them
/// a greater one.
pub proof fn lemma_number_of_prefix(digits: Seq<char>, k: int)
    requires
        0 < k <= digits.len(),
    ensures
        number_of(digits) matches Some(v) ==> (number_of(digits.take(k)) matches Some(w) && w
            <= v),
    decreases digits.len(),
{
    if k == digits.len() {
        assert(digits.take(k) =~= digits);
    } else if number_of(digits) is Some {
        lemma_number_of_prefix(digits.drop_last(), k);
        assert(digits.drop_last().take(k) =~= digits.take(k));
    }
}

/// The digit for `d` as a string of one character.
fn digit_text(d: u32) -> (t: &'static str)
    requires
        d < 10,
    ensures
        t@ == seq![digit_char(d as nat)],
{
    proof {
        reveal_strlit("0");
        reveal_strlit("1");
        reveal_strlit("2");
        reveal_strlit("3");
        reveal_strlit("4");
        reveal_strlit("5");
        reveal_strlit("6");
        reveal_strlit("7");
        reveal_strlit("8");
        reveal_strlit("9");
    }
    let t = if d == 0 {
        "0"
    } else if d == 1 {
        "1"
    } else if d == 2 {
        "2"
    } else if d == 3 {
        "3"
    } else if d == 4 {
        "4"
    } else if d == 5 {
        "5"
    } else if d == 6 {
        "6"
    } else if d == 7 {
        "7"
    } else if d == 8 {
        "8"
    } else {
        "9"
    };
    assert(t@ =~= seq![digit_char(d as nat)]);
    t
}

/// Puts the decimal digits of `n` at the end of `out`.
pub fn push_decimal(out: &mut String, n: u32)
    ensures
        final(out)@ == old(out)@ + decimal(n as nat),
    decreases n,
{
    if n >= 10 {
        push_decimal(out, n / 10);
    }
    out.append(digit_text(n % 10));
    assert(final(out)@ =~= old(out)@ + decimal(n as nat));
}

/// The decimal digits of `n`, with zeros in front where they are fewer than
/// `width`.
pub fn padded_decimal(n: u32, width: usize) -> (t: String)
    ensures
        t@ == zero_padded(decimal(n as nat), width as nat),
{
    let mut digits = String::new();
    push_decimal(&mut digits, n);
    let len = digits.as_str().unicode_len();
    let mut t = String::new();
    if len >= width {
        return digits;
    }
    let mut i: usize = len;
    while i < width
        invariant
            len <= i <= width,
            t@ == Seq::new((i - len) as nat, |k: int| '0'),
        decreases width - i,
    {
        proof {
            reveal_strlit("0");
        }
        t.append("0");
        i += 1;
        assert(t@ =~= Seq::new((i - len) as nat, |k: int| '0'));
    }
    t.append(digits.as_str());
    t
}

/// Ten to the power `e`.
pub open spec fn pow10(e: nat) -> nat
    decreases e,
{
    if e == 0 {
        1
    } else {
        10 * pow10((e - 1) as nat)
    }
}

/// The digits of a number spell that number.
pub proof fn lemma_decimal_spells(n: nat)
    ensures
        number_of(decimal(n)) == Some(n),
        decimal(n).len() >= 1,
    decreases n,
{
    if n >= 10 {
        lemma_decimal_spells(n / 10);
        let d = decimal(n);
        assert(d.drop_last() =~= decimal(n / 10));
        assert(d.last() == digit_char(n % 10));
    }
}

/// Zeros in front do not change the number that digits spell.
pub proof fn lemma_leading_zeros(zeros: nat, digits: Seq<char>)
    requires
        number_of(digits) is Some,
    ensures
        number_of(Seq::new(zeros, |i: int| '0') + digits) == number_of(digits),
    decreases digits.len(),
{
    let front = Seq::new(zeros, |i: int| '0');
    let all = front + digits;
    if zeros > 0 {
        if digits.len() == 1 {
            lemma_all_zeros(zeros);
            assert(all.drop_last() =~= front);
            assert(all.last() == digits.last());
        } else {
            lemma_leading_zeros(zeros, digits.drop_last());
            assert(all.drop_last() =~= front + digits.drop_last());
            assert(all.last() == digits.last());
        }
    } else {
        assert(all =~= digits);
    }
}

/// One zero or more spell the number zero.
pub proof fn lemma_all_zeros(zeros: nat)
    requires
        zeros > 0,
    ensures
        number_of(Seq::new(zeros, |i: int| '0')) == Some(0nat),
    decreases zeros,
{
    let z = Seq::new(zeros, |i: int| '0');
    if zeros > 1 {
        lemma_all_zeros((zeros - 1) as nat);
        assert(z.drop_last() =~= Seq::new((zeros - 1) as nat, |i: int| '0'));
    }
}

/// A number written to a width reads back as the same number, whatever the
/// width.
pub proof fn lemma_written_number_reads_back(n: nat, width: nat)
    ensures
        number_of(zero_padded(decimal(n), width)) == Some(n),
{
    lemma_decimal_spells(n);
    if decimal(n).len() < width {
        lemma_leading_zeros((width - decimal(n).len()) as nat, decimal(n));
    }
}

/// A number has as many digits as the least power of ten above it has zeros.
pub proof fn lemma_decimal_len(n: nat, width: nat)
    requires
        width >= 1,
    ensures
        decimal(n).len() <= width <==> n < pow10(width),
    decreases n,
{
    reveal_with_fuel(pow10, 2);
    if n >= 10 {
        lemma_decimal_spells(n / 10);
        assert(decimal(n).len() == decimal(n / 10).len() + 1);
        if width >= 2 {
            lemma_decimal_len(n / 10, (width - 1) as nat);
            let p = pow10((width - 1) as nat);
            assert(pow10(width) == 10 * p);
            assert(n / 10 < p <==> n < 10 * p);
        }
    } else {
        lemma_pow10_grows(width);
    }
}

/// From the first power on, a power of ten is at least ten.
pub proof fn lemma_pow10_grows(e: nat)
    requires
        e >= 1,
    ensures
        pow10(e) >= 10,
    decreases e,
{
    reveal_with_fuel(pow10, 2);
    if e > 1 {
        lemma_pow10_grows((e - 1) as nat);
    }
}

/// A number that fits the width is written to exactly that width; one that
/// does not fit is written in full, and so wider.
pub proof fn lemma_written_width(n: nat, width: nat)
    requires
        width >= 1,
    ensures
        n < pow10(width) ==> zero_padded(decimal(n), width).len() == width,
        n >= pow10(width) ==> zero_padded(decimal(n), width) == decimal(n) && decimal(n).len()
            > width,
{
    lemma_decimal_len(n, width);
}

/// Digits spell a number under the power of ten that their count gives.
pub proof fn lemma_number_below_power(digits: Seq<char>)
    requires
        number_of(digits) is Some,
    ensures
        number_of(digits)->0 < pow10(digits.len()),
    decreases digits.len(),
{
    reveal_with_fuel(pow10, 2);
    if digits.len() > 1 {
        lemma_number_below_power(digits.drop_last());
    }
}

} // verus!
