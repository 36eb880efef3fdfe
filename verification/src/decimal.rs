//! Decimal numerals: writing a number down, with leading zeros where asked, and reading one.

use vstd::arithmetic::div_mod::*;
use vstd::arithmetic::power::*;
use vstd::prelude::*;
use vstd::string::*;
use crate::text::characters;

verus! {

/// The digit for a value below ten.
pub open spec fn digit(value: nat) -> char {
    ('0' as u32 + value) as char
}

/// Whether a character is one of the ten decimal digits.
pub open spec fn is_digit(c: char) -> bool {
    '0' <= c <= '9'
}

/// Whether every character is a decimal digit.
pub open spec fn all_digits(s: Seq<char>) -> bool {
    forall|i: int| 0 <= i < s.len() ==> is_digit(#[trigger] s[i])
}

/// The number that a row of digits stands for; leading zeros count for nothing.
pub open spec fn value_of(s: Seq<char>) -> nat
    decreases s.len(),
{
    if s.len() == 0 {
        0
    } else {
        (10 * value_of(s.drop_last()) + (s.last() as u32 - '0' as u32)) as nat
    }
}

/// The numeral of a number, without leading zeros.
pub open spec fn numeral(n: nat) -> Seq<char>
    decreases n,
{
    if n < 10 {
        seq![digit(n)]
    } else {
        numeral(n / 10).push(digit(n % 10))
    }
}

/// `count` zeros.
pub open spec fn zeros(count: nat) -> Seq<char> {
    Seq::new(count, |i: int| '0')
}

/// The numeral of a number, filled up with leading zeros to at least `width` characters.
pub open spec fn padded_numeral(n: nat, width: nat) -> Seq<char> {
    let plain = numeral(n);
    if plain.len() < width {
        zeros((width - plain.len()) as nat) + plain
    } else {
        plain
    }
}

/// What is left of a numeral without its optional leading `+`.
pub open spec fn without_plus(s: Seq<char>) -> Seq<char> {
    if s.len() > 0 && s[0] == '+' {
        s.skip(1)
    } else {
        s
    }
}

/// What an unsigned numeral says: an optional `+`, then at least one digit and nothing else, of a
/// number that is at most `max`.
pub open spec fn read_numeral(s: Seq<char>, max: nat) -> Option<nat> {
    let digits = without_plus(s);
    if digits.len() > 0 && all_digits(digits) && value_of(digits) <= max {
        Some(value_of(digits))
    } else {
        None
    }
}

/// A digit as text.
fn digit_text(value: u64) -> (text: &'static str)
    requires
        value < 10,
    ensures
        text@ == seq![digit(value as nat)],
{
    let text: &'static str = match value {
        0 => "0",
        1 => "1",
        2 => "2",
        3 => "3",
        4 => "4",
        5 => "5",
        6 => "6",
        7 => "7",
        8 => "8",
        _ => "9",
    };
    proof {
        reveal_strlit("0");
        reveal_strlit("1");
        reveal_strlit("2");
        reveal_strlit("3");
        reveal_strlit("4");
        reveal_strlit("5");
        reveal_strlit("6");
        reveal_strlit("7");
        reveal_strlit("8");
        reveal_strlit("9");
        assert(text@ =~= seq![digit(value as nat)]);
    }
    text
}

/// Writes a number down.
pub fn write_numeral(n: u64) -> (text: String)
    ensures
        text@ == numeral(n as nat),
    decreases n,
{
    if n < 10 {
        digit_text(n).to_owned()
    } else {
        let mut text = write_numeral(n / 10);
        text.append(digit_text(n % 10));
        assert(text@ =~= numeral((n / 10) as nat).push(digit((n % 10) as nat)));
        text
    }
}

/// Writes a number down with leading zeros up to at least `width` characters.
pub fn write_padded_numeral(n: u64, width: usize) -> (text: String)
    ensures
        text@ == padded_numeral(n as nat, width as nat),
{
    let plain = write_numeral(n);
    let length: usize = plain.as_str().unicode_len();
    let mut text = String::new();
    let mut written: usize = length;
    proof {
        reveal_strlit("0");
    }
    while written < width
        invariant
            plain@ == numeral(n as nat),
            length == plain@.len(),
            length <= written,
            written <= width || written == length,
            text@ =~= zeros((written - length) as nat),
            "0"@ =~= seq!['0'],
        decreases width - written,
    {
        text.append("0");
        written = written + 1;
    }
    text.append(plain.as_str());
    assert(zeros(0) + plain@ =~= plain@);
    text
}

/// More digits never stand for a smaller number.
proof fn lemma_value_grows(s: Seq<char>, n: int)
    requires
        0 <= n <= s.len(),
        all_digits(s),
    ensures
        value_of(s.take(n)) <= value_of(s),
    decreases s.len(),
{
    if n < s.len() {
        let front = s.drop_last();
        assert forall|i: int| 0 <= i < front.len() implies is_digit(#[trigger] front[i]) by {
            assert(front[i] == s[i]);
        }
        lemma_value_grows(front, n);
        assert(front.take(n) =~= s.take(n));
        assert(is_digit(s[s.len() - 1]));
    } else {
        assert(s.take(n) =~= s);
    }
}

/// Reads an unsigned numeral of a number that is at most `max`.
pub fn parse_numeral(text: &str, max: u64) -> (number: Option<u64>)
    ensures
        match number {
            Some(n) => read_numeral(text@, max as nat) == Some(n as nat),
            None => read_numeral(text@, max as nat) is None,
        },
{
    let chars = characters(text);
    let start: usize = if chars.len() > 0 && chars[0] == '+' {
        1
    } else {
        0
    };
    let ghost digits = without_plus(text@);
    assert(digits =~= text@.skip(start as int));
    let mut i: usize = start;
    let mut number: u64 = 0;
    assert(digits.take(0) =~= seq![]);
    while i < chars.len()
        invariant
            chars@ == text@,
            start <= i <= chars@.len(),
            digits == without_plus(text@),
            digits == text@.skip(start as int),
            forall|k: int| 0 <= k < i - start ==> is_digit(#[trigger] digits[k]),
            number == value_of(digits.take(i - start)),
            number <= max,
        decreases chars@.len() - i,
    {
        let c = chars[i];
        assert(digits[i - start] == c);
        if c < '0' || '9' < c {
            return None;
        }
        let value: u64 = c as u64 - '0' as u64;
        let ghost longer = digits.take(i - start + 1);
        proof {
            assert(longer.drop_last() =~= digits.take(i - start));
            assert(longer.last() == c);
            assert(value_of(longer) == 10 * number + value);
            if all_digits(digits) {
                lemma_value_grows(digits, i - start + 1);
            }
        }
        if number > max / 10 || value > max - 10 * number {
            assert(value_of(longer) > max);
            return None;
        }
        number = 10 * number + value;
        i = i + 1;
    }
    assert(digits.take(digits.len() as int) =~= digits);
    if i == start {
        None
    } else {
        Some(number)
    }
}

/// A numeral is made of digits, has at least one, and stands for its number.
proof fn lemma_numeral(n: nat)
    ensures
        numeral(n).len() > 0,
        all_digits(numeral(n)),
        value_of(numeral(n)) == n,
    decreases n,
{
    assert(numeral(n).last() == digit(n % 10));
    if n < 10 {
        assert(value_of(numeral(n).drop_last()) == 0);
    } else {
        lemma_numeral(n / 10);
        assert(numeral(n).drop_last() =~= numeral(n / 10));
    }
}

/// Leading zeros do not change a number.
proof fn lemma_leading_zeros(count: nat, s: Seq<char>)
    ensures
        value_of(zeros(count) + s) == value_of(s),
    decreases s.len(), count,
{
    let whole = zeros(count) + s;
    if s.len() > 0 {
        lemma_leading_zeros(count, s.drop_last());
        assert(whole.drop_last() =~= zeros(count) + s.drop_last());
    } else if count > 0 {
        lemma_leading_zeros((count - 1) as nat, s);
        assert(whole.drop_last() =~= zeros((count - 1) as nat) + s);
    } else {
        assert(whole =~= s);
    }
}

/// A numeral with leading zeros is made of digits, has at least one and at least as many as asked,
/// and stands for its number.
pub proof fn lemma_padded_numeral(n: nat, width: nat)
    ensures
        padded_numeral(n, width).len() == if numeral(n).len() < width {
            width
        } else {
            numeral(n).len()
        },
        numeral(n).len() > 0,
        all_digits(padded_numeral(n, width)),
        value_of(padded_numeral(n, width)) == n,
{
    let plain = numeral(n);
    let text = padded_numeral(n, width);
    lemma_numeral(n);
    if plain.len() < width {
        lemma_leading_zeros((width - plain.len()) as nat, plain);
        assert forall|i: int| 0 <= i < text.len() implies is_digit(#[trigger] text[i]) by {
            if i >= width - plain.len() {
                assert(text[i] == plain[i - (width - plain.len())]);
            }
        }
    }
}

/// A number written down, with or without leading zeros, reads back as itself.
pub proof fn law_written_numeral_reads_back(n: nat, width: nat, max: nat)
    requires
        n <= max,
    ensures
        read_numeral(padded_numeral(n, width), max) == Some(n),
{
    lemma_padded_numeral(n, width);
    assert(is_digit(padded_numeral(n, width)[0]));
}

/// Different numbers have different numerals, also at a common width.
pub proof fn law_padded_numerals_differ(m: nat, n: nat, width: nat)
    requires
        m != n,
    ensures
        padded_numeral(m, width) != padded_numeral(n, width),
{
    law_written_numeral_reads_back(m, width, m + n);
    law_written_numeral_reads_back(n, width, m + n);
}

/// A number below ten to the power of `width` needs no more than `width` digits, and one that is
/// not below it needs more.
pub proof fn law_numeral_length(n: nat, width: nat)
    requires
        width > 0,
    ensures
        numeral(n).len() <= width <==> n < pow(10, width),
    decreases n,
{
    lemma_pow_positive(10, width);
    if n < 10 {
        lemma_pow1(10);
        lemma_pow_increases(10, 1, width);
    } else if width == 1 {
        lemma_pow1(10);
        lemma_numeral(n / 10);
    } else {
        law_numeral_length(n / 10, (width - 1) as nat);
        assert(pow(10, width) == 10 * pow(10, (width - 1) as nat)) by {
            reveal(pow);
        }
    }
}

/// A numeral is positional: counted from its end, its `k`-th digit is how often ten to the power of
/// `k` goes into the number, without the tens that the next digit counts.
pub proof fn law_digits_of_a_numeral(n: nat, k: nat)
    requires
        k < numeral(n).len(),
    ensures
        numeral(n)[numeral(n).len() - 1 - k] as u32 == '0' as u32 + (n as int / pow(10, k)) % 10,
    decreases n,
{
    lemma_pow0(10);
    assert(numeral(n).last() == digit(n % 10));
    if k > 0 {
        lemma_numeral(n / 10);
        law_digits_of_a_numeral(n / 10, (k - 1) as nat);
        lemma_pow_positive(10, (k - 1) as nat);
        lemma_div_denominator(n as int, 10, pow(10, (k - 1) as nat));
        assert(pow(10, k) == 10 * pow(10, (k - 1) as nat)) by {
            reveal(pow);
        }
        assert(numeral(n)[numeral(n).len() - 1 - k] == numeral(n / 10)[numeral(n / 10).len() - 1
            - (k - 1)]);
    }
}

/// Leading zeros and nothing else fill a numeral up: it ends in the plain numeral, all that stands
/// before that is zeros, and it is as long as asked where the plain numeral is shorter.
pub proof fn law_padding_is_leading_zeros(n: nat, width: nat)
    ensures
        ({
            let plain = numeral(n);
            let text = padded_numeral(n, width);
            &&& text.len() >= plain.len()
            &&& text.len() == width || text.len() == plain.len() > width
            &&& text.skip(text.len() - plain.len()) == plain
            &&& forall|i: int| 0 <= i < text.len() - plain.len() ==> #[trigger] text[i] == '0'
        }),
{
    let plain = numeral(n);
    let text = padded_numeral(n, width);
    assert(text.skip(text.len() - plain.len()) =~= plain);
}

/// Numerals are read digit by digit: a single digit stands for its value, and a further digit makes
/// ten times the number, and its value, of it. What is above the limit is refused.
pub proof fn law_numerals_are_read_digit_by_digit(s: Seq<char>, c: char, n: nat, max: nat)
    requires
        '0' <= c <= '9',
    ensures
        read_numeral(seq![c], max) == if c as u32 - '0' as u32 <= max {
            Some((c as u32 - '0' as u32) as nat)
        } else {
            None
        },
        read_numeral(s, n) == Some(n) ==> read_numeral(s.push(c), max) == if 10 * n + (c as u32
            - '0' as u32) <= max {
            Some((10 * n + (c as u32 - '0' as u32)) as nat)
        } else {
            None
        },
{
    let one = seq![c];
    assert(without_plus(one) =~= one);
    assert(one.drop_last() =~= seq![]);
    assert(value_of(one.drop_last()) == 0);
    assert(all_digits(one));
    if read_numeral(s, n) == Some(n) {
        let digits = without_plus(s);
        let more = without_plus(s.push(c));
        assert(s.push(c)[0] == s[0]);
        assert(more =~= digits.push(c));
        assert(more.drop_last() =~= digits);
        assert forall|i: int| 0 <= i < more.len() implies is_digit(#[trigger] more[i]) by {
            if i < digits.len() {
                assert(more[i] == digits[i]);
            }
        }
    }
}

/// A leading `+` changes nothing, once. Text that is empty, a `+` alone, or holds anything but digits
/// behind it is no numeral. The limit decides about numbers above it and about no other.
pub proof fn law_what_is_a_numeral(s: Seq<char>, max: nat)
    ensures
        s.len() > 0 && s[0] != '+' ==> read_numeral(seq!['+'] + s, max) == read_numeral(s, max),
        s.len() == 0 ==> read_numeral(s, max) is None && read_numeral(seq!['+'], max) is None,
        forall|i: int|
            0 <= i < s.len() && !('0' <= s[i] <= '9') && (i > 0 || s[i] != '+')
                ==> read_numeral(s, max) is None,
        forall|other: nat| #[trigger]
            read_numeral(s, other) matches Some(n) ==> n <= other && read_numeral(s, max) == if n
                <= max {
                Some(n)
            } else {
                None
            },
{
    let signed = seq!['+'] + s;
    assert(signed.skip(1) =~= s);
    assert(seq!['+'].skip(1) =~= Seq::<char>::empty());
    let digits = without_plus(s);
    assert forall|i: int|
        0 <= i < s.len() && !('0' <= s[i] <= '9') && (i > 0 || s[i] != '+') implies read_numeral(
        s,
        max,
    ) is None by {
        if s[0] == '+' {
            assert(digits[i - 1] == s[i]);
        } else {
            assert(digits[i] == s[i]);
        }
    }
}

/// A written number reads back as itself wherever the limit admits it, and is refused elsewhere.
pub proof fn law_limit_decides(n: nat, max: nat)
    ensures
        read_numeral(numeral(n), max) == if n <= max {
            Some(n)
        } else {
            None
        },
{
    lemma_numeral(n);
    assert(is_digit(numeral(n)[0]));
}

} // verus!
