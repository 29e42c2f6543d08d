//! Numbers and truth values as settings are written and read.
use vstd::prelude::*;
use vstd::string::*;

use crate::text::{chars_of, decimal, same_text};

verus! {

/// Whether a character is a decimal digit.
pub open spec fn is_digit(c: char) -> bool {
    '0' <= c <= '9'
}

/// The number a digit stands for.
pub open spec fn digit_value(c: char) -> int {
    c as int - '0' as int
}

/// Whether a text is digits and nothing else, at least one of them.
pub open spec fn all_digits(text: Seq<char>) -> bool {
    text.len() > 0 && forall|i: int| 0 <= i < text.len() ==> is_digit(#[trigger] text[i])
}

/// The number that digits spell.
pub open spec fn digits_value(text: Seq<char>) -> int
    decreases text.len(),
{
    if text.len() == 0 {
        0
    } else {
        10 * digits_value(text.drop_last()) + digit_value(text.last())
    }
}

/// A number in decimal, with a `-` in front when it is below zero.
pub open spec fn signed_text(n: int) -> Seq<char> {
    if n < 0 {
        seq!['-'] + crate::text::decimal_text((-n) as nat)
    } else {
        crate::text::decimal_text(n as nat)
    }
}

/// The number a text spells: digits, with a sign in front or without.
pub open spec fn signed_value(text: Seq<char>) -> Option<int> {
    if text.len() > 0 && text[0] == '-' {
        if all_digits(text.skip(1)) {
            Some(-digits_value(text.skip(1)))
        } else {
            None
        }
    } else {
        unsigned_value(text)
    }
}

/// The number a text spells: digits, with a `+` in front or without.
pub open spec fn unsigned_value(text: Seq<char>) -> Option<int> {
    let digits = if text.len() > 0 && text[0] == '+' {
        text.skip(1)
    } else {
        text
    };
    if all_digits(digits) {
        Some(digits_value(digits))
    } else {
        None
    }
}

/// The number a text spells, when an `i32` can hold it.
pub open spec fn i32_value(text: Seq<char>) -> Option<i32> {
    match signed_value(text) {
        Some(n) => if i32::MIN <= n <= i32::MAX {
            Some(n as i32)
        } else {
            None
        },
        None => None,
    }
}

/// The number a text spells, when a `u16` can hold it.
pub open spec fn u16_value(text: Seq<char>) -> Option<u16> {
    match unsigned_value(text) {
        Some(n) => if 0 <= n <= u16::MAX {
            Some(n as u16)
        } else {
            None
        },
        None => None,
    }
}

/// A truth value as a word.
pub open spec fn bool_text(b: bool) -> Seq<char> {
    if b {
        "true"@
    } else {
        "false"@
    }
}

/// The truth value a word stands for.
pub open spec fn bool_value(text: Seq<char>) -> Option<bool> {
    if text == "true"@ {
        Some(true)
    } else if text == "false"@ {
        Some(false)
    } else {
        None
    }
}

proof fn digits_value_grows(text: Seq<char>, n: int)
    requires
        0 <= n <= text.len(),
        forall|i: int| 0 <= i < text.len() ==> is_digit(#[trigger] text[i]),
    ensures
        0 <= digits_value(text.take(n)) <= digits_value(text),
    decreases text.len(),
{
    if n < text.len() {
        assert(text.drop_last().take(n) =~= text.take(n));
        digits_value_grows(text.drop_last(), n);
    } else {
        assert(text.take(n) =~= text);
        if n > 0 {
            digits_value_grows(text.drop_last(), n - 1);
            assert(text.drop_last().take(n - 1) =~= text.drop_last());
        }
    }
}

/// The number the characters from `from` on spell as digits, or `None` when one is no digit,
/// there are none, or the number is over `limit`.
fn parse_digits(chars: &[char], from: usize, limit: u64) -> (value: Option<u64>)
    requires
        from <= chars@.len(),
        limit <= 4294967296,
    ensures
        ({
            let digits = chars@.skip(from as int);
            match value {
                Some(value) => all_digits(digits) && value == digits_value(digits) && value <= limit,
                None => !all_digits(digits) || digits_value(digits) > limit,
            }
        }),
{
    let ghost digits = chars@.skip(from as int);
    if from == chars.len() {
        return None;
    }
    let mut value: u64 = 0;
    let mut i: usize = from;
    while i < chars.len()
        invariant
            from <= i <= chars@.len(),
            from < chars@.len(),
            digits == chars@.skip(from as int),
            limit <= 4294967296,
            value <= limit,
            value == digits_value(digits.take(i - from)),
            forall|j: int| 0 <= j < i - from ==> is_digit(#[trigger] digits[j]),
        decreases chars@.len() - i,
    {
        let c = chars[i];
        proof {
            assert(digits[i - from] == c);
        }
        if !('0' <= c && c <= '9') {
            return None;
        }
        let digit: u64 = (c as u32 - '0' as u32) as u64;
        value = 10 * value + digit;
        i += 1;
        proof {
            assert(digits.take(i - from).drop_last() =~= digits.take(i - from - 1));
        }
        if value > limit {
            proof {
                if all_digits(digits) {
                    digits_value_grows(digits, i - from);
                }
            }
            return None;
        }
    }
    proof {
        assert(digits.take(digits.len() as int) =~= digits);
    }
    Some(value)
}

/// Reads an `i32` as the standard library does: digits, with a sign or without.
pub fn parse_i32(text: &str) -> (value: Option<i32>)
    ensures
        value == i32_value(text@),
{
    let chars = chars_of(text);
    proof {
        assert(chars@.skip(0) =~= chars@);
    }
    if chars.len() > 0 && chars[0] == '-' {
        match parse_digits(chars.as_slice(), 1, 2147483648) {
            Some(value) => Some((-(value as i64)) as i32),
            None => None,
        }
    } else {
        let from: usize = if chars.len() > 0 && chars[0] == '+' {
            1
        } else {
            0
        };
        match parse_digits(chars.as_slice(), from, 2147483647) {
            Some(value) => Some(value as i32),
            None => None,
        }
    }
}

/// Reads a `u16` as the standard library does: digits, with a `+` or without.
pub fn parse_u16(text: &str) -> (value: Option<u16>)
    ensures
        value == u16_value(text@),
{
    let chars = chars_of(text);
    proof {
        assert(chars@.skip(0) =~= chars@);
    }
    let from: usize = if chars.len() > 0 && chars[0] == '+' {
        1
    } else {
        0
    };
    match parse_digits(chars.as_slice(), from, 65535) {
        Some(value) => Some(value as u16),
        None => None,
    }
}

/// Reads a truth value as the standard library does.
pub fn parse_bool(text: &str) -> (value: Option<bool>)
    ensures
        value == bool_value(text@),
{
    if same_text(text, "true") {
        Some(true)
    } else if same_text(text, "false") {
        Some(false)
    } else {
        None
    }
}

/// Writes `n` in decimal.
pub fn i32_to_text(n: i32) -> (text: String)
    ensures
        text@ == signed_text(n as int),
{
    if n < 0 {
        let mut text = String::new();
        text.push('-');
        let digits = decimal((-(n as i64)) as u64);
        text.append(digits.as_str());
        proof {
            assert(text@ =~= signed_text(n as int));
        }
        text
    } else {
        decimal(n as u64)
    }
}

/// Writes a truth value as a word.
pub fn bool_to_text(b: bool) -> (text: String)
    ensures
        text@ == bool_text(b),
{
    if b {
        "true".to_owned()
    } else {
        "false".to_owned()
    }
}

proof fn decimal_text_spells_its_number(n: nat)
    ensures
        all_digits(crate::text::decimal_text(n)),
        digits_value(crate::text::decimal_text(n)) == n,
    decreases n,
{
    let text = crate::text::decimal_text(n);
    if n < 10 {
        assert(text.drop_last() =~= seq![]);
        assert(digits_value(text.drop_last()) == 0);
    } else {
        let head = crate::text::decimal_text(n / 10);
        decimal_text_spells_its_number(n / 10);
        assert(text.drop_last() =~= head);
        assert forall|i: int| 0 <= i < text.len() implies is_digit(#[trigger] text[i]) by {
            if i < head.len() {
                assert(text[i] == head[i]);
            }
        }
    }
}

/// A number and a truth value come back from the text written for them.
pub proof fn written_values_read_back(n: i32, port: u16, b: bool)
    ensures
        i32_value(signed_text(n as int)) == Some(n),
        u16_value(crate::text::decimal_text(port as nat)) == Some(port),
        bool_value(bool_text(b)) == Some(b),
{
    reveal_strlit("true");
    reveal_strlit("false");
    decimal_text_spells_its_number(port as nat);
    assert(is_digit(crate::text::decimal_text(port as nat)[0]));
    if n < 0 {
        let digits = crate::text::decimal_text((-n) as nat);
        decimal_text_spells_its_number((-n) as nat);
        assert(signed_text(n as int).skip(1) =~= digits);
    } else {
        decimal_text_spells_its_number(n as nat);
        assert(is_digit(signed_text(n as int)[0]));
    }
    assert("true"@.len() != "false"@.len());
}

/// Digits count by their place: those further to the left are worth ten times as much for each
/// digit that follows.
pub proof fn digits_count_by_their_place(a: Seq<char>, b: Seq<char>, digit: char)
    ensures
        digits_value(a + b) == digits_value(a) * vstd::arithmetic::power::pow(10, b.len()) + digits_value(b),
        digits_value(seq![digit]) == digit as int - 48,
        digits_value(Seq::empty()) == 0,
    decreases b.len(),
{
    vstd::arithmetic::power::lemma_pow0(10);
    let alone = seq![digit];
    assert(alone.drop_last() =~= Seq::<char>::empty());
    assert(digits_value(alone.drop_last()) == 0);
    assert(alone.last() == digit);
    if b.len() == 0 {
        assert(a + b =~= a);
    } else {
        let shorter = b.drop_last();
        digits_count_by_their_place(a, shorter, digit);
        assert((a + b).drop_last() =~= a + shorter);
        vstd::arithmetic::power::lemma_pow_adds(10, shorter.len(), 1);
        vstd::arithmetic::power::lemma_pow1(10);
        let x = digits_value(a);
        let p = vstd::arithmetic::power::pow(10, shorter.len());
        assert(vstd::arithmetic::power::pow(10, b.len()) == p * 10);
        assert(10 * (x * p) == x * (p * 10)) by (nonlinear_arith);
    }
}

/// A number is read with its sign, of which only a signed one may be `-`; a text that holds
/// anything but digits behind the sign, or no digit at all, is no number.
pub proof fn numbers_are_read_with_their_sign(text: Seq<char>)
    ensures
        ({
            let whole = text.len() > 0 && forall|i: int|
                0 <= i < text.len() ==> '0' <= #[trigger] text[i] <= '9';
            &&& signed_value(seq!['-'] + text) == (if whole {
                Some(-digits_value(text))
            } else {
                None
            })
            &&& signed_value(seq!['+'] + text) == (if whole {
                Some(digits_value(text))
            } else {
                None
            })
            &&& unsigned_value(seq!['+'] + text) == (if whole {
                Some(digits_value(text))
            } else {
                None
            })
            &&& unsigned_value(seq!['-'] + text) is None
            &&& whole ==> signed_value(text) == Some(digits_value(text)) && unsigned_value(text)
                == Some(digits_value(text))
        }),
{
    assert((seq!['-'] + text).skip(1) =~= text);
    assert((seq!['+'] + text).skip(1) =~= text);
    assert(!is_digit((seq!['-'] + text)[0]));
    let whole = text.len() > 0 && forall|i: int|
        0 <= i < text.len() ==> '0' <= #[trigger] text[i] <= '9';
    assert(all_digits(text) == whole);
    if whole {
        assert('0' <= text[0] <= '9');
    }
}

/// A number that does not fit is not read, and one that fits is read as what it is.
pub proof fn numbers_are_read_when_they_fit(text: Seq<char>)
    ensures
        i32_value(text) matches Some(n) ==> signed_value(text) == Some(n as int),
        i32_value(text) is None ==> (signed_value(text) is None || signed_value(text)->0
            < -2147483648 || signed_value(text)->0 > 2147483647),
        u16_value(text) matches Some(n) ==> unsigned_value(text) == Some(n as int),
        u16_value(text) is None ==> (unsigned_value(text) is None || unsigned_value(text)->0 < 0
            || unsigned_value(text)->0 > 65535),
        bool_value(text) == Some(true) <==> text == seq!['t', 'r', 'u', 'e'],
        bool_value(text) == Some(false) <==> text == seq!['f', 'a', 'l', 's', 'e'],
{
    reveal_strlit("true");
    reveal_strlit("false");
    assert("true"@ =~= seq!['t', 'r', 'u', 'e']);
    assert("false"@ =~= seq!['f', 'a', 'l', 's', 'e']);
    assert("true"@.len() == 4 && "false"@.len() == 5);
}

/// A number is written as its digits, a negative one behind a `-`: read by place they are worth
/// it, and the first is a zero only in 0 itself.
pub proof fn numbers_are_written_in_full(n: nat)
    ensures
        ({
            let text = crate::text::decimal_text(n);
            &&& text.len() > 0
            &&& forall|i: int| 0 <= i < text.len() ==> '0' <= #[trigger] text[i] <= '9'
            &&& digits_value(text) == n
            &&& n > 0 ==> text[0] != '0'
            &&& n == 0 ==> text.len() == 1
            &&& signed_text(n as int) == text
            &&& n > 0 ==> signed_text(-(n as int)) == seq!['-'] + text
        }),
    decreases n,
{
    decimal_text_spells_its_number(n);
    if n >= 10 {
        numbers_are_written_in_full(n / 10);
    }
}

} // verus!
