//! Decimal numbers as text.

use vstd::prelude::*;

use crate::text::chars_of;

verus! {

/// The decimal digit `d`.
pub open spec fn digit(d: int) -> char {
    (48 + d) as char
}

/// Whether a character is a decimal digit.
pub open spec fn is_digit(ch: char) -> bool {
    48 <= ch as int <= 57
}

/// The number `n` in decimal, without leading zeros.
pub open spec fn decimal(n: nat) -> Seq<char>
    decreases n,
{
    if n < 10 {
        seq![digit(n as int)]
    } else {
        decimal(n / 10).push(digit((n % 10) as int))
    }
}

/// Whether every character is a decimal digit.
pub open spec fn all_digits(s: Seq<char>) -> bool {
    forall|i: int| 0 <= i < s.len() ==> is_digit(#[trigger] s[i])
}

/// The number that a sequence of decimal digits stands for.
pub open spec fn digits_value(s: Seq<char>) -> nat
    decreases s.len(),
{
    if s.len() == 0 {
        0
    } else {
        (digits_value(s.drop_last()) * 10 + (s.last() as int - 48)) as nat
    }
}

/// What is left of a number's text after one optional plus sign.
pub open spec fn after_plus(s: Seq<char>) -> Seq<char> {
    if s.len() > 0 && s[0] == '+' {
        s.skip(1)
    } else {
        s
    }
}

/// The unsigned 64-bit number that a text spells: an optional plus sign and then
/// at least one decimal digit, with a value that fits.
pub open spec fn parsed_u64(s: Seq<char>) -> Option<u64> {
    let body = after_plus(s);
    if body.len() > 0 && all_digits(body) && digits_value(body) <= u64::MAX {
        Some(digits_value(body) as u64)
    } else {
        None
    }
}

/// The decimal text of a number is made of digits and spells that number.
pub proof fn lemma_decimal_digits(n: nat)
    ensures
        decimal(n).len() > 0,
        all_digits(decimal(n)),
        digits_value(decimal(n)) == n,
    decreases n,
{
    if n < 10 {
        assert(decimal(n).drop_last() =~= Seq::<char>::empty());
        assert(digits_value(Seq::<char>::empty()) == 0);
    } else {
        lemma_decimal_digits(n / 10);
        assert(decimal(n).drop_last() =~= decimal(n / 10));
    }
}

/// Reading the decimal text of a 64-bit number gives the number back.
pub proof fn lemma_parse_decimal(n: u64)
    ensures
        parsed_u64(decimal(n as nat)) == Some(n),
{
    lemma_decimal_digits(n as nat);
    let s = decimal(n as nat);
    assert(is_digit(s[0]));
}

/// More digits spell a number that is no smaller.
proof fn lemma_value_grows(s: Seq<char>, i: int)
    requires
        0 <= i <= s.len(),
        all_digits(s),
    ensures
        digits_value(s.take(i)) <= digits_value(s),
    decreases s.len(),
{
    if i == s.len() {
        assert(s.take(i) =~= s);
    } else {
        assert(s.drop_last().take(i) =~= s.take(i));
        assert(is_digit(s[s.len() - 1]));
        assert(all_digits(s.drop_last())) by {
            assert forall|j: int| 0 <= j < s.len() - 1 implies is_digit(
                #[trigger] s.drop_last()[j],
            ) by {
                assert(is_digit(s[j]));
            }
        }
        lemma_value_grows(s.drop_last(), i);
    }
}

/// A number in decimal.
pub fn decimal_text(n: u128) -> (out: String)
    ensures
        out@ == decimal(n as nat),
    decreases n,
{
    let last = (48 + (n % 10) as u8) as char;
    let mut out = if n < 10 {
        String::new()
    } else {
        decimal_text(n / 10)
    };
    out.push(last);
    assert(n < 10 ==> out@ == seq![last]);
    out
}

/// The unsigned 64-bit number that a text spells, if it spells one.
pub fn parse_u64(s: &str) -> (r: Option<u64>)
    ensures
        r == parsed_u64(s@),
{
    let chars = chars_of(s);
    let start: usize = if chars.len() > 0 && chars[0] == '+' {
        1
    } else {
        0
    };
    let ghost body = after_plus(s@);
    assert(body == s@.skip(start as int));
    if start == chars.len() {
        return None;
    }
    let mut value: u64 = 0;
    let mut i: usize = start;
    while i < chars.len()
        invariant
            start <= i <= chars.len(),
            chars@ == s@,
            body == after_plus(s@),
            body == s@.skip(start as int),
            all_digits(body.take(i - start)),
            value == digits_value(body.take(i - start)),
        decreases chars.len() - i,
    {
        let ch = chars[i];
        assert(ch == body[i - start]);
        if ch < '0' || '9' < ch {
            return None;
        }
        let d = (ch as u8) - 48;
        let ghost now = body.take(i - start + 1);
        assert(now.drop_last() == body.take(i - start));
        assert(all_digits(now)) by {
            assert forall|j: int| 0 <= j < now.len() implies is_digit(#[trigger] now[j]) by {
                if j < i - start {
                    assert(now[j] == body.take(i - start)[j]);
                }
            }
        }
        assert(digits_value(now) == value * 10 + d);
        if value > (u64::MAX - d as u64) / 10 {
            proof {
                if all_digits(body) {
                    lemma_value_grows(body, i - start + 1);
                }
            }
            return None;
        }
        value = value * 10 + d as u64;
        i += 1;
    }
    assert(body.take(i - start) == body);
    Some(value)
}

/// A text of digits without a leading zero is the decimal text of the number it spells.
pub proof fn digits_are_decimal(s: Seq<char>)
    requires
        s.len() > 0,
        all_digits(s),
        s.len() == 1 || s[0] != '0',
    ensures
        decimal(digits_value(s)) == s,
        s.len() > 1 ==> digits_value(s) >= 10,
    decreases s.len(),
{
    let last = s.last();
    assert(is_digit(s[s.len() - 1]));
    assert(is_digit(s[0]));
    let before = s.drop_last();
    if s.len() == 1 {
        assert(before =~= Seq::<char>::empty());
        assert(digits_value(before) == 0);
        assert(seq![digit(digits_value(s) as int)] =~= s);
    } else {
        assert(all_digits(before)) by {
            assert forall|j: int| 0 <= j < before.len() implies is_digit(#[trigger] before[j]) by {
                assert(is_digit(s[j]));
            }
        }
        assert(before[0] == s[0]);
        digits_are_decimal(before);
        let n = digits_value(before);
        if before.len() == 1 {
            assert(before.drop_last() =~= Seq::<char>::empty());
            assert(digits_value(before.drop_last()) == 0);
            assert(n == before[0] as int - 48);
        }
        assert(n >= 1);
        assert(digits_value(s) == n * 10 + (last as int - 48));
        assert(digits_value(s) / 10 == n && digits_value(s) % 10 == last as int - 48);
        assert(decimal(n).push(digit(last as int - 48)) =~= s);
    }
}

/// A number is read from its decimal text alone: behind a plus sign and zeros, which do not
/// count, and with nothing else.
pub proof fn numbers_are_read_from_decimals(s: Seq<char>, n: u64)
    ensures
        s.len() > 0 && s[0] != '+' && (s.len() == 1 || s[0] != '0') ==> (parsed_u64(s) == Some(n)
            <==> s == decimal(n as nat)),
        s.len() > 0 && s[0] != '+' ==> parsed_u64(seq!['+'] + s) == parsed_u64(s),
        s.len() > 0 && s[0] != '+' ==> parsed_u64(seq!['0'] + s) == parsed_u64(s),
        parsed_u64(Seq::<char>::empty()) is None,
        parsed_u64(seq!['+'] + (seq!['+'] + s)) is None,
{
    lemma_parse_decimal(n);
    let (plus, zero) = (seq!['+'] + s, seq!['0'] + s);
    assert(plus.skip(1) =~= s);
    let twice = seq!['+'] + plus;
    assert(twice.skip(1) =~= plus);
    assert(!is_digit(plus[0]));
    if s.len() > 0 && s[0] != '+' {
        lemma_leading_zero(s);
        assert(all_digits(zero) <==> all_digits(s)) by {
            if all_digits(s) {
                assert forall|j: int| 0 <= j < zero.len() implies is_digit(#[trigger] zero[j]) by {
                    if j > 0 {
                        assert(is_digit(s[j - 1]));
                    }
                }
            }
            if all_digits(zero) {
                assert forall|j: int| 0 <= j < s.len() implies is_digit(#[trigger] s[j]) by {
                    assert(is_digit(zero[j + 1]));
                }
            }
        }
        if (s.len() == 1 || s[0] != '0') && parsed_u64(s) == Some(n) {
            digits_are_decimal(s);
        }
    }
}

/// A leading zero does not count.
proof fn lemma_leading_zero(s: Seq<char>)
    ensures
        digits_value(seq!['0'] + s) == digits_value(s),
    decreases s.len(),
{
    let zero = seq!['0'] + s;
    if s.len() == 0 {
        assert(zero.drop_last() =~= Seq::<char>::empty());
        assert(digits_value(Seq::<char>::empty()) == 0);
    } else {
        assert(zero.drop_last() =~= seq!['0'] + s.drop_last());
        lemma_leading_zero(s.drop_last());
    }
}

} // verus!
