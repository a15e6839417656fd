//! Integers as decimal text, and back.

use vstd::prelude::*;
use vstd::string::*;

verus! {

/// The ten decimal digits, in order.
pub open spec fn digit_chars() -> Seq<char> {
    seq!['0', '1', '2', '3', '4', '5', '6', '7', '8', '9']
}

/// `c` is one of the ten decimal digits.
pub open spec fn is_digit(c: char) -> bool {
    '0' <= c <= '9'
}

/// The number that the digit `c` stands for.
pub open spec fn digit_value(c: char) -> int {
    c as int - '0' as int
}

/// Every character of `s` is a decimal digit.
pub open spec fn all_digits(s: Seq<char>) -> bool {
    forall|i: int| 0 <= i < s.len() ==> is_digit(#[trigger] s[i])
}

/// The number that the digits `s` write, most significant digit first.
pub open spec fn digits_value(s: Seq<char>) -> int
    decreases s.len(),
{
    if s.len() == 0 {
        0
    } else {
        digits_value(s.drop_last()) * 10 + digit_value(s.last())
    }
}

/// The decimal text of `n`: its digits, most significant first, with no sign and
/// no leading zero.
pub open spec fn decimal(n: nat) -> Seq<char>
    decreases n,
{
    if n < 10 {
        seq![digit_chars()[n as int]]
    } else {
        decimal(n / 10).push(digit_chars()[(n % 10) as int])
    }
}

/// The integer that `s` writes, where `s` is an optional sign, `+` or `-`,
/// followed by one or more decimal digits and nothing else, and the integer fits
/// `i64`.
pub open spec fn decimal_i64(s: Seq<char>) -> Option<i64> {
    let signed = s.len() > 0 && (s[0] == '-' || s[0] == '+');
    let negative = s.len() > 0 && s[0] == '-';
    let digits = if signed {
        s.skip(1)
    } else {
        s
    };
    let value = if negative {
        -digits_value(digits)
    } else {
        digits_value(digits)
    };
    if digits.len() > 0 && all_digits(digits) && i64::MIN <= value <= i64::MAX {
        Some(value as i64)
    } else {
        None
    }
}

/// Digits write a number that is not negative, and more digits never write less.
pub proof fn lemma_digits_value_grows(s: Seq<char>, k: int)
    requires
        all_digits(s),
        0 <= k <= s.len(),
    ensures
        0 <= digits_value(s.take(k)) <= digits_value(s),
    decreases s.len() - k,
{
    lemma_digits_value_nonnegative(s.take(k));
    if k < s.len() {
        lemma_digits_value_grows(s, k + 1);
        assert(s.take(k + 1).drop_last() =~= s.take(k));
        assert(is_digit(s[k]));
        assert(s.take(k + 1).last() == s[k]);
    } else {
        assert(s.take(k) =~= s);
    }
}

/// Digits write a number that is not negative.
pub proof fn lemma_digits_value_nonnegative(s: Seq<char>)
    requires
        all_digits(s),
    ensures
        0 <= digits_value(s),
    decreases s.len(),
{
    if s.len() > 0 {
        lemma_digits_value_nonnegative(s.drop_last());
        assert(is_digit(s[s.len() - 1]));
    }
}

/// Each of the ten digits stands for its index.
pub proof fn lemma_digit_chars(d: int)
    requires
        0 <= d < 10,
    ensures
        is_digit(digit_chars()[d]),
        digit_value(digit_chars()[d]) == d,
{
    let s = digit_chars();
    assert(s[0] == '0' && s[1] == '1' && s[2] == '2' && s[3] == '3' && s[4] == '4');
    assert(s[5] == '5' && s[6] == '6' && s[7] == '7' && s[8] == '8' && s[9] == '9');
}

/// The decimal text of a number has at least one digit, and only digits.
pub proof fn lemma_decimal_digits(n: nat)
    ensures
        decimal(n).len() > 0,
        all_digits(decimal(n)),
        digits_value(decimal(n)) == n,
    decreases n,
{
    if n < 10 {
        lemma_digit_chars(n as int);
        assert(decimal(n).drop_last() =~= Seq::<char>::empty());
        assert(digits_value(decimal(n).drop_last()) == 0);
    } else {
        lemma_decimal_digits(n / 10);
        lemma_digit_chars((n % 10) as int);
        assert(decimal(n).drop_last() =~= decimal(n / 10));
    }
}

/// Two numbers with the same decimal text are the same number.
pub proof fn lemma_decimal_injective(a: nat, b: nat)
    ensures
        decimal(a) == decimal(b) ==> a == b,
{
    lemma_decimal_digits(a);
    lemma_decimal_digits(b);
}

/// Reads a decimal integer: an optional sign, then digits and nothing else.
#[verifier::loop_isolation(false)]
pub fn parse_i64(text: &str) -> (r: Option<i64>)
    ensures
        r == decimal_i64(text@),
{
    let len: usize = text.unicode_len();
    if len == 0 {
        return None;
    }
    let first = text.get_char(0);
    let negative = first == '-';
    let signed = negative || first == '+';
    let start: usize = if signed {
        1
    } else {
        0
    };
    if len == start {
        return None;
    }
    let ghost digits = text@.skip(start as int);
    assert(text@.skip(0) =~= text@);
    let limit: u64 = if negative {
        0x8000_0000_0000_0000
    } else {
        0x7fff_ffff_ffff_ffff
    };
    let mut acc: u64 = 0;
    let mut i: usize = 0;
    for c in it: text.chars()
        invariant
            i == it.index(),
            it.seq() == text@,
            len == text@.len(),
            start <= 1,
            start < len,
            digits == text@.skip(start as int),
            limit == if negative {
                0x8000_0000_0000_0000u64
            } else {
                0x7fff_ffff_ffff_ffffu64
            },
            i >= start ==> all_digits(digits.take(i - start)),
            i >= start ==> acc == digits_value(digits.take(i - start)),
            i < start ==> acc == 0,
            acc <= limit,
    {
        if i >= start {
            if !(c >= '0' && c <= '9') {
                assert(!is_digit(digits[i - start]));
                return None;
            }
            let d: u64 = (c as u32 - '0' as u32) as u64;
            proof {
                assert(digits.take(i - start + 1).drop_last() =~= digits.take(i - start));
                assert(digits.take(i - start + 1).last() == c);
                assert forall|j: int| 0 <= j < i - start + 1 implies is_digit(
                    #[trigger] digits.take(i - start + 1)[j],
                ) by {
                    if j < i - start {
                        assert(digits.take(i - start)[j] == digits[j]);
                    }
                }
            }
            if acc > (limit - d) / 10 {
                proof {
                    assert(digits_value(digits.take(i - start + 1)) == acc * 10 + d);
                    assert(acc * 10 + d > limit);
                    if all_digits(digits) {
                        lemma_digits_value_grows(digits, i - start + 1);
                    }
                }
                return None;
            }
            acc = acc * 10 + d;
        } else {
            assert(digits.take(0) =~= Seq::<char>::empty());
        }
        i = i + 1;
    }
    assert(digits.take(len - start) =~= digits);
    if negative {
        if acc == 0x8000_0000_0000_0000 {
            Some(i64::MIN)
        } else {
            Some(-(acc as i64))
        }
    } else {
        Some(acc as i64)
    }
}

/// The number that `s` writes, where `s` is an optional `+` followed by one or
/// more decimal digits and nothing else, and the number fits `u64`.
pub open spec fn decimal_u64(s: Seq<char>) -> Option<u64> {
    let signed = s.len() > 0 && s[0] == '+';
    let digits = if signed {
        s.skip(1)
    } else {
        s
    };
    if digits.len() > 0 && all_digits(digits) && digits_value(digits) <= u64::MAX {
        Some(digits_value(digits) as u64)
    } else {
        None
    }
}

/// Reads a decimal number that is not negative: an optional `+`, then digits and
/// nothing else.
#[verifier::loop_isolation(false)]
pub fn parse_u64(text: &str) -> (r: Option<u64>)
    ensures
        r == decimal_u64(text@),
{
    let len: usize = text.unicode_len();
    if len == 0 {
        return None;
    }
    let signed = text.get_char(0) == '+';
    let start: usize = if signed {
        1
    } else {
        0
    };
    if len == start {
        return None;
    }
    let ghost digits = text@.skip(start as int);
    assert(text@.skip(0) =~= text@);
    let mut acc: u64 = 0;
    let mut i: usize = 0;
    for c in it: text.chars()
        invariant
            i == it.index(),
            it.seq() == text@,
            i >= start ==> all_digits(digits.take(i - start)),
            i >= start ==> acc == digits_value(digits.take(i - start)),
            i < start ==> acc == 0,
    {
        if i >= start {
            if !(c >= '0' && c <= '9') {
                assert(!is_digit(digits[i - start]));
                return None;
            }
            let d: u64 = (c as u32 - '0' as u32) as u64;
            proof {
                assert(digits.take(i - start + 1).drop_last() =~= digits.take(i - start));
                assert(digits.take(i - start + 1).last() == c);
                assert forall|j: int| 0 <= j < i - start + 1 implies is_digit(
                    #[trigger] digits.take(i - start + 1)[j],
                ) by {
                    if j < i - start {
                        assert(digits.take(i - start)[j] == digits[j]);
                    }
                }
            }
            if acc > (u64::MAX - d) / 10 {
                proof {
                    assert(digits_value(digits.take(i - start + 1)) == acc * 10 + d);
                    assert(acc * 10 + d > u64::MAX);
                    if all_digits(digits) {
                        lemma_digits_value_grows(digits, i - start + 1);
                    }
                }
                return None;
            }
            acc = acc * 10 + d;
        } else {
            assert(digits.take(0) =~= Seq::<char>::empty());
        }
        i = i + 1;
    }
    assert(digits.take(len - start) =~= digits);
    Some(acc)
}

/// The number that the digits `s` write, where `s` is one or more decimal digits
/// and nothing else, and the number fits `i64`. A sign is no digit.
pub open spec fn digits_i64(s: Seq<char>) -> Option<i64> {
    if s.len() > 0 && all_digits(s) && digits_value(s) <= i64::MAX {
        Some(digits_value(s) as i64)
    } else {
        None
    }
}

/// Reads a number that is written in digits alone.
pub fn parse_digits(text: &str) -> (r: Option<i64>)
    ensures
        r == digits_i64(text@),
{
    if text.unicode_len() == 0 {
        return None;
    }
    if text.get_char(0) == '+' {
        assert(!is_digit(text@[0]));
        return None;
    }
    proof {
        if all_digits(text@) {
            lemma_digits_value_nonnegative(text@);
        }
    }
    match parse_u64(text) {
        Some(value) => {
            if value <= 0x7fff_ffff_ffff_ffff {
                Some(value as i64)
            } else {
                None
            }
        },
        None => None,
    }
}

/// The text of one decimal digit.
fn digit_text(d: u8) -> (r: &'static str)
    requires
        d < 10,
    ensures
        r@ == seq![digit_chars()[d as int]],
{
    proof {
        reveal_strlit("0");
        reveal_strlit("1");
        reveal_strlit("2");
        reveal_strlit("3");
        reveal_strlit("4");
        reveal_strlit("5");
        reveal_strlit("6");
        reveal_strlit("7");
        reveal_strlit("8");
        reveal_strlit("9");
    }
    let r = match d {
        0 => "0",
        1 => "1",
        2 => "2",
        3 => "3",
        4 => "4",
        5 => "5",
        6 => "6",
        7 => "7",
        8 => "8",
        _ => "9",
    };
    assert(r@ =~= seq![digit_chars()[d as int]]);
    r
}

/// The digits of `n` from the least significant up, as many as `decimal` writes.
pub open spec fn digits_from_low(n: nat) -> Seq<u8>
    decreases n,
{
    if n < 10 {
        seq![n as u8]
    } else {
        seq![(n % 10) as u8] + digits_from_low(n / 10)
    }
}

/// The characters of the digits `low[from..]`, highest index first.
pub open spec fn chars_from_high(low: Seq<u8>, from: int) -> Seq<char>
    decreases low.len() - from,
{
    if from < 0 || from >= low.len() {
        Seq::empty()
    } else {
        chars_from_high(low, from + 1).push(digit_chars()[low[from] as int])
    }
}

/// The digits from the low end, written from the high end, are the decimal text.
proof fn lemma_chars_from_high_is_decimal(n: nat)
    ensures
        chars_from_high(digits_from_low(n), 0) == decimal(n),
        digits_from_low(n).len() > 0,
        forall|i: int| 0 <= i < digits_from_low(n).len() ==> digits_from_low(n)[i] < 10,
    decreases n,
{
    let low = digits_from_low(n);
    if n < 10 {
        assert(chars_from_high(low, 1) =~= Seq::<char>::empty());
        assert(chars_from_high(low, 0) =~= decimal(n));
    } else {
        lemma_chars_from_high_is_decimal(n / 10);
        let rest = digits_from_low(n / 10);
        lemma_chars_from_high_shift(low, rest, 0);
        assert(low[0] == (n % 10) as u8);
    }
}

/// Digits written from the high end do not depend on the digits below them.
proof fn lemma_chars_from_high_shift(low: Seq<u8>, rest: Seq<u8>, from: int)
    requires
        low.len() == rest.len() + 1,
        forall|i: int| 0 <= i < rest.len() ==> rest[i] == low[i + 1],
        0 <= from <= rest.len(),
    ensures
        chars_from_high(low, from + 1) == chars_from_high(rest, from),
    decreases rest.len() - from,
{
    if from < rest.len() {
        lemma_chars_from_high_shift(low, rest, from + 1);
    }
}

/// Writes `n` in decimal.
pub fn decimal_text(n: u64) -> (r: String)
    ensures
        r@ == decimal(n as nat),
{
    let mut low: Vec<u8> = Vec::new();
    let mut m: u64 = n;
    while m >= 10
        invariant
            digits_from_low(n as nat) == low@ + digits_from_low(m as nat),
        decreases m,
    {
        proof {
            assert(low@.push((m % 10) as u8) + digits_from_low((m / 10) as nat) =~= low@
                + digits_from_low(m as nat));
        }
        low.push((m % 10) as u8);
        m = m / 10;
    }
    proof {
        assert(low@.push(m as u8) =~= low@ + digits_from_low(m as nat));
        lemma_chars_from_high_is_decimal(n as nat);
    }
    low.push(m as u8);
    let mut out = String::new();
    let mut k: usize = low.len();
    while k > 0
        invariant
            k <= low@.len(),
            forall|i: int| 0 <= i < low@.len() ==> low@[i] < 10,
            out@ == chars_from_high(low@, k as int),
        decreases k,
    {
        k = k - 1;
        out.append(digit_text(low[k]));
    }
    out
}

} // verus!
