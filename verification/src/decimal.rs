//! Decimal numerals: the form in which the key-value store keeps numbers.

use crate::text::to_chars;
use vstd::prelude::*;
use vstd::string::*;

verus! {

/// The numeral of the digit `d`.
pub open spec fn digit_char(d: int) -> char {
    (d + 48) as char
}

/// Whether `c` is one of the ten digit characters.
pub open spec fn is_digit(c: char) -> bool {
    '0' <= c <= '9'
}

/// The digit that the character `c` stands for.
pub open spec fn digit_value(c: char) -> int {
    c as int - 48
}

/// The digits of `n`, most significant first, without leading zeros.
pub open spec fn digits_of(n: nat) -> Seq<char>
    decreases n,
{
    if n < 10 {
        seq![digit_char(n as int)]
    } else {
        digits_of(n / 10).push(digit_char((n % 10) as int))
    }
}

/// The numeral of `v`: its digits, after a minus sign where it is negative.
pub open spec fn decimal(v: int) -> Seq<char> {
    if v < 0 {
        seq!['-'] + digits_of((-v) as nat)
    } else {
        digits_of(v as nat)
    }
}

/// Whether `s` is made of digits only.
pub open spec fn all_digits(s: Seq<char>) -> bool {
    forall|i: int| 0 <= i < s.len() ==> is_digit(#[trigger] s[i])
}

/// The number that a run of digits stands for.
pub open spec fn value_of(s: Seq<char>) -> nat
    decreases s.len(),
{
    if s.len() == 0 {
        0
    } else {
        (value_of(s.drop_last()) * 10 + digit_value(s.last())) as nat
    }
}

/// Whether `s` starts with a sign.
pub open spec fn signed(s: Seq<char>) -> bool {
    s.len() > 0 && (s[0] == '-' || s[0] == '+')
}

/// The digits of a numeral: what follows its sign, if it has one.
pub open spec fn magnitude_digits(s: Seq<char>) -> Seq<char> {
    if signed(s) {
        s.drop_first()
    } else {
        s
    }
}

/// The integer that the numeral `s` stands for, with any number of leading zeros and
/// an optional sign before its digits.
pub open spec fn numeral_value(s: Seq<char>) -> int {
    if s.len() > 0 && s[0] == '-' {
        -(value_of(magnitude_digits(s)) as int)
    } else {
        value_of(magnitude_digits(s)) as int
    }
}

/// What `s` reads as: the 64-bit integer that it is the numeral of, or
/// nothing where it is no numeral or stands for a number out of range.
pub open spec fn parsed(s: Seq<char>) -> Option<i64> {
    let digits = magnitude_digits(s);
    if digits.len() > 0 && all_digits(digits) && i64::MIN <= numeral_value(s) <= i64::MAX {
        Some(numeral_value(s) as i64)
    } else {
        None
    }
}

/// The digits of a number are digits, and stand for that number.
pub proof fn lemma_digits_of(n: nat)
    ensures
        digits_of(n).len() > 0,
        all_digits(digits_of(n)),
        value_of(digits_of(n)) == n,
    decreases n,
{
    if n < 10 {
        let s = digits_of(n);
        assert(s.drop_last() =~= Seq::<char>::empty());
        assert(value_of(s.drop_last()) == 0);
    } else {
        lemma_digits_of(n / 10);
        let s = digits_of(n);
        assert(s.drop_last() =~= digits_of(n / 10));
        assert(s.last() == digit_char((n % 10) as int));
    }
}

/// A numeral reads back as the number that it was written for.
pub proof fn lemma_parse_inverts_format(v: i64)
    ensures
        parsed(decimal(v as int)) == Some(v),
{
    let s = decimal(v as int);
    if v < 0 {
        lemma_digits_of((-v) as nat);
        assert(s.drop_first() =~= digits_of((-v) as nat));
    } else {
        lemma_digits_of(v as nat);
        assert(is_digit(s[0]));
    }
}

/// A run of digits stands for at least as much as any of its prefixes.
proof fn lemma_value_of_prefix(s: Seq<char>, k: int)
    requires
        all_digits(s),
        0 <= k <= s.len(),
    ensures
        value_of(s.take(k)) <= value_of(s),
    decreases s.len() - k,
{
    if k < s.len() {
        lemma_value_of_prefix(s, k + 1);
        assert(s.take(k + 1).drop_last() =~= s.take(k));
        assert(is_digit(s.take(k + 1).last()));
    } else {
        assert(s.take(k) =~= s);
    }
}

/// The numeral of one digit.
fn digit_str(d: u8) -> (s: &'static str)
    requires
        d < 10,
    ensures
        s@ == seq![digit_char(d as int)],
{
    proof {
        reveal_strlit("0");
        reveal_strlit("1");
        reveal_strlit("2");
        reveal_strlit("3");
        reveal_strlit("4");
        reveal_strlit("5");
        reveal_strlit("6");
        reveal_strlit("7");
        reveal_strlit("8");
        reveal_strlit("9");
    }
    let s = if d == 0 {
        "0"
    } else if d == 1 {
        "1"
    } else if d == 2 {
        "2"
    } else if d == 3 {
        "3"
    } else if d == 4 {
        "4"
    } else if d == 5 {
        "5"
    } else if d == 6 {
        "6"
    } else if d == 7 {
        "7"
    } else if d == 8 {
        "8"
    } else {
        "9"
    };
    assert(s@ =~= seq![digit_char(d as int)]);
    s
}

/// The digits that `low_first` lists from the least significant one up.
spec fn from_low_first(low_first: Seq<u8>) -> Seq<char> {
    Seq::new(low_first.len(), |i: int| digit_char(low_first[low_first.len() - 1 - i] as int))
}

/// Writes `value` as a decimal numeral.
pub fn format_decimal(value: i64) -> (text: String)
    ensures
        text@ == decimal(value as int),
{
    let magnitude: u64 = if value < 0 {
        (0 - value as i128) as u64
    } else {
        value as u64
    };
    let mut rest: u64 = magnitude;
    let mut low_first: Vec<u8> = Vec::new();
    assert(digits_of(magnitude as nat) =~= digits_of(rest as nat) + from_low_first(low_first@));
    while rest >= 10
        invariant
            digits_of(magnitude as nat) == digits_of(rest as nat) + from_low_first(low_first@),
            forall|i: int| 0 <= i < low_first.len() ==> low_first[i] < 10,
        decreases rest,
    {
        let ghost before = low_first@;
        low_first.push((rest % 10) as u8);
        assert(from_low_first(low_first@) =~= seq![digit_char((rest % 10) as int)]
            + from_low_first(before));
        assert(digits_of(rest as nat) =~= digits_of((rest / 10) as nat) + seq![
            digit_char((rest % 10) as int),
        ]);
        rest = rest / 10;
    }
    let ghost before = low_first@;
    low_first.push(rest as u8);
    assert(from_low_first(low_first@) =~= seq![digit_char(rest as int)] + from_low_first(before));
    assert(digits_of(magnitude as nat) =~= from_low_first(low_first@));

    let mut text = String::new();
    if value < 0 {
        proof {
            reveal_strlit("-");
        }
        text.append("-");
    }
    let ghost sign = text@;
    assert(sign =~= if value < 0 {
        seq!['-']
    } else {
        Seq::<char>::empty()
    });
    let mut i: usize = low_first.len();
    while i > 0
        invariant
            i <= low_first.len(),
            forall|j: int| 0 <= j < low_first.len() ==> low_first[j] < 10,
            text@ == sign + from_low_first(low_first@).take(low_first.len() - i),
        decreases i,
    {
        i -= 1;
        text.append(digit_str(low_first[i]));
        assert(from_low_first(low_first@).take(low_first.len() - i) =~= from_low_first(
            low_first@,
        ).take(low_first.len() - i - 1) + seq![digit_char(low_first[i as int] as int)]);
    }
    assert(from_low_first(low_first@).take(low_first.len() as int) =~= from_low_first(
        low_first@,
    ));
    assert(text@ =~= decimal(value as int));
    text
}

/// Reads a decimal numeral: an optional sign, then one digit or more.
/// Gives nothing where `text` is no such numeral, or stands for a number
/// that no 64-bit integer holds.
pub fn parse_decimal(text: &str) -> (value: Option<i64>)
    ensures
        value == parsed(text@),
{
    let chars = to_chars(text);
    let n = chars.len();
    let negative = n > 0 && chars[0] == '-';
    let start: usize = if n > 0 && (chars[0] == '-' || chars[0] == '+') {
        1
    } else {
        0
    };
    let ghost digits = magnitude_digits(text@);
    assert(digits =~= chars@.subrange(start as int, n as int));
    if start == n {
        return None;
    }
    let limit: u128 = 0x8000_0000_0000_0000;
    let mut acc: u128 = 0;
    let mut i: usize = start;
    assert(digits.take(0) =~= Seq::<char>::empty());
    while i < n
        invariant
            start <= i <= n,
            n == chars.len(),
            chars@ == text@,
            digits == chars@.subrange(start as int, n as int),
            digits == magnitude_digits(text@),
            limit == 0x8000_0000_0000_0000,
            acc <= limit,
            acc == value_of(digits.take(i - start)),
            all_digits(digits.take(i - start)),
        decreases n - i,
    {
        let c = chars[i];
        if !('0' <= c && c <= '9') {
            assert(!is_digit(digits[i - start]));
            assert(!all_digits(digits));
            return None;
        }
        let d: u128 = (c as u32 - 48) as u128;
        proof {
            let longer = digits.take(i - start + 1);
            assert(longer.drop_last() =~= digits.take(i - start));
            assert(longer.last() == c);
            assert forall|j: int| 0 <= j < longer.len() implies is_digit(#[trigger] longer[j]) by {
                if j < longer.len() - 1 {
                    assert(longer[j] == digits.take(i - start)[j]);
                }
            }
        }
        acc = acc * 10 + d;
        assert(acc == value_of(digits.take(i - start + 1)));
        if acc > limit {
            proof {
                if all_digits(digits) {
                    lemma_value_of_prefix(digits, i - start + 1);
                    assert(value_of(digits) > i64::MAX + 1);
                }
            }
            return None;
        }
        i += 1;
    }
    assert(digits.take(n - start) =~= digits);
    if negative {
        Some((0 - acc as i128) as i64)
    } else if acc < limit {
        Some(acc as i64)
    } else {
        None
    }
}

/// Ten to the power of `width`.
pub open spec fn pow10(width: nat) -> nat
    decreases width,
{
    if width == 0 {
        1
    } else {
        10 * pow10((width - 1) as nat)
    }
}

/// The last `width` digits of `n`, most significant first, with zeros in
/// front where `n` has fewer.
pub open spec fn fixed_digits(n: nat, width: nat) -> Seq<char>
    decreases width,
{
    if width == 0 {
        Seq::empty()
    } else {
        fixed_digits(n / 10, (width - 1) as nat).push(digit_char((n % 10) as int))
    }
}

/// The number that a run of digits stands for, where some 64-bit unsigned
/// integer holds it.
pub open spec fn fixed_value(s: Seq<char>) -> Option<u64> {
    if all_digits(s) && value_of(s) <= u64::MAX {
        Some(value_of(s) as u64)
    } else {
        None
    }
}

/// Whether `a` comes before `b` in the order of strings: `a` is a proper
/// prefix of `b`, or has the lesser character where the two first differ.
pub open spec fn comes_before(a: Seq<char>, b: Seq<char>) -> bool {
    ||| a.len() < b.len() && b.take(a.len() as int) == a
    ||| exists|i: int|
        0 <= i < a.len() && i < b.len() && #[trigger] a.take(i) == b.take(i) && (a[i] as u32) < (
        b[i] as u32)
}

/// Digits of a fixed width are that many digits, and stand for the number
/// where it is not too wide.
pub proof fn lemma_fixed_digits(n: nat, width: nat)
    ensures
        fixed_digits(n, width).len() == width,
        all_digits(fixed_digits(n, width)),
        n < pow10(width) ==> value_of(fixed_digits(n, width)) == n,
    decreases width,
{
    if width > 0 {
        lemma_fixed_digits(n / 10, (width - 1) as nat);
        let s = fixed_digits(n, width);
        assert(s.drop_last() =~= fixed_digits(n / 10, (width - 1) as nat));
        assert(s.last() == digit_char((n % 10) as int));
        assert forall|i: int| 0 <= i < s.len() implies is_digit(#[trigger] s[i]) by {
            if i < s.len() - 1 {
                assert(s[i] == s.drop_last()[i]);
            }
        }
    }
}

/// Digits of one fixed width sort as the numbers that they stand for.
pub proof fn lemma_fixed_digits_order(a: nat, b: nat, width: nat)
    requires
        a < b < pow10(width),
    ensures
        comes_before(fixed_digits(a, width), fixed_digits(b, width)),
    decreases width,
{
    if width > 0 {
        let low = (width - 1) as nat;
        let x = fixed_digits(a, width);
        let y = fixed_digits(b, width);
        lemma_fixed_digits(a / 10, low);
        lemma_fixed_digits(b / 10, low);
        assert(x.drop_last() =~= fixed_digits(a / 10, low));
        assert(y.drop_last() =~= fixed_digits(b / 10, low));
        if a / 10 < b / 10 {
            lemma_fixed_digits_order(a / 10, b / 10, low);
            let front_x = fixed_digits(a / 10, low);
            let front_y = fixed_digits(b / 10, low);
            assert(!(front_x.len() < front_y.len()));
            let i = choose|i: int|
                0 <= i < front_x.len() && i < front_y.len() && #[trigger] front_x.take(i)
                    == front_y.take(i) && (front_x[i] as u32) < (front_y[i] as u32);
            assert(x.take(i) =~= front_x.take(i));
            assert(y.take(i) =~= front_y.take(i));
            assert(x[i] == front_x[i] && y[i] == front_y[i]);
        } else {
            let i = width - 1;
            assert(x.take(i) =~= x.drop_last());
            assert(y.take(i) =~= y.drop_last());
            assert(x[i] == digit_char((a % 10) as int));
            assert(y[i] == digit_char((b % 10) as int));
        }
    }
}

/// Writes the last `width` digits of `n`, with zeros in front where `n` has
/// fewer.
pub fn format_fixed(n: u64, width: usize) -> (text: String)
    ensures
        text@ == fixed_digits(n as nat, width as nat),
{
    let mut rest: u64 = n;
    let mut low_first: Vec<u8> = Vec::new();
    assert(fixed_digits(n as nat, width as nat) =~= fixed_digits(rest as nat, width as nat)
        + from_low_first(low_first@));
    while low_first.len() < width
        invariant
            low_first.len() <= width,
            fixed_digits(n as nat, width as nat) == fixed_digits(
                rest as nat,
                (width - low_first.len()) as nat,
            ) + from_low_first(low_first@),
            forall|i: int| 0 <= i < low_first.len() ==> low_first[i] < 10,
        decreases width - low_first.len(),
    {
        let ghost before = low_first@;
        let ghost left = (width - low_first.len()) as nat;
        low_first.push((rest % 10) as u8);
        assert(from_low_first(low_first@) =~= seq![digit_char((rest % 10) as int)]
            + from_low_first(before));
        assert(fixed_digits(rest as nat, left) =~= fixed_digits(
            (rest / 10) as nat,
            (left - 1) as nat,
        ) + seq![digit_char((rest % 10) as int)]);
        rest = rest / 10;
    }
    assert(fixed_digits(n as nat, width as nat) =~= from_low_first(low_first@));
    let mut text = String::new();
    let mut i: usize = low_first.len();
    assert(from_low_first(low_first@).take(0) =~= Seq::<char>::empty());
    while i > 0
        invariant
            i <= low_first.len(),
            forall|j: int| 0 <= j < low_first.len() ==> low_first[j] < 10,
            text@ == from_low_first(low_first@).take(low_first.len() - i),
        decreases i,
    {
        i -= 1;
        text.append(digit_str(low_first[i]));
        assert(from_low_first(low_first@).take(low_first.len() - i) =~= from_low_first(
            low_first@,
        ).take(low_first.len() - i - 1) + seq![digit_char(low_first[i as int] as int)]);
    }
    assert(from_low_first(low_first@).take(low_first.len() as int) =~= from_low_first(
        low_first@,
    ));
    text
}

/// Reads the run of digits `chars[from..to]`. Gives nothing where a
/// character in it is no digit, or where it stands for a number that no
/// 64-bit unsigned integer holds.
pub(crate) fn parse_fixed(chars: &Vec<char>, from: usize, to: usize) -> (value: Option<u64>)
    requires
        from <= to <= chars.len(),
    ensures
        value == fixed_value(chars@.subrange(from as int, to as int)),
{
    let ghost digits = chars@.subrange(from as int, to as int);
    let limit: u128 = 0xFFFF_FFFF_FFFF_FFFF;
    let mut acc: u128 = 0;
    let mut i: usize = from;
    assert(digits.take(0) =~= Seq::<char>::empty());
    while i < to
        invariant
            from <= i <= to <= chars.len(),
            digits == chars@.subrange(from as int, to as int),
            limit == 0xFFFF_FFFF_FFFF_FFFF,
            acc <= limit,
            acc == value_of(digits.take(i - from)),
            all_digits(digits.take(i - from)),
        decreases to - i,
    {
        let c = chars[i];
        if !('0' <= c && c <= '9') {
            assert(!is_digit(digits[i - from]));
            assert(!all_digits(digits));
            return None;
        }
        let d: u128 = (c as u32 - 48) as u128;
        proof {
            let longer = digits.take(i - from + 1);
            assert(longer.drop_last() =~= digits.take(i - from));
            assert(longer.last() == c);
            assert forall|j: int| 0 <= j < longer.len() implies is_digit(#[trigger] longer[j]) by {
                if j < longer.len() - 1 {
                    assert(longer[j] == digits.take(i - from)[j]);
                }
            }
        }
        acc = acc * 10 + d;
        assert(acc == value_of(digits.take(i - from + 1)));
        if acc > limit {
            proof {
                if all_digits(digits) {
                    lemma_value_of_prefix(digits, i - from + 1);
                }
            }
            return None;
        }
        i += 1;
    }
    assert(digits.take(to - from) =~= digits);
    Some(acc as u64)
}

} // verus!
