//! Version numbers as text: the name `v<n>` under which a version is stored
//! and by which a user selects it.

use crate::errors::Error;
use vstd::prelude::*;

verus! {

/// The decimal digit that stands for `d`, for `d` below ten.
pub open spec fn digit_char(d: int) -> char {
    if d == 0 {
        '0'
    } else if d == 1 {
        '1'
    } else if d == 2 {
        '2'
    } else if d == 3 {
        '3'
    } else if d == 4 {
        '4'
    } else if d == 5 {
        '5'
    } else if d == 6 {
        '6'
    } else if d == 7 {
        '7'
    } else if d == 8 {
        '8'
    } else {
        '9'
    }
}

/// Whether `c` is one of the ten decimal digits.
pub open spec fn is_digit(c: char) -> bool {
    '0' <= c <= '9'
}

/// The number that the digit `c` stands for.
pub open spec fn digit_value(c: char) -> int {
    c as int - '0' as int
}

/// The decimal numeral of `n`, without leading zeros.
pub open spec fn decimal(n: nat) -> Seq<char>
    decreases n,
{
    if n < 10 {
        seq![digit_char(n as int)]
    } else {
        decimal(n / 10).push(digit_char((n % 10) as int))
    }
}

/// The number that a sequence of decimal digits stands for, leading zeros
/// allowed; the empty sequence stands for zero.
pub open spec fn digits_value(s: Seq<char>) -> nat
    decreases s.len(),
{
    if s.len() == 0 {
        0
    } else {
        (digits_value(s.drop_last()) * 10 + digit_value(s.last())) as nat
    }
}

/// Whether every element of `s` is a decimal digit.
pub open spec fn all_digits(s: Seq<char>) -> bool {
    forall|i: int| 0 <= i < s.len() ==> is_digit(#[trigger] s[i])
}

/// The name under which version `n` is stored: `v` and the numeral of `n`.
pub open spec fn version_name_spec(n: nat) -> Seq<char> {
    seq!['v'] + decimal(n)
}

/// The version that a selector names, if it is well formed: the letter `v`,
/// then at least one decimal digit, the number no larger than `u32::MAX`.
pub open spec fn selector_version(s: Seq<char>) -> Option<u32> {
    if s.len() >= 2 && s[0] == 'v' && all_digits(s.skip(1)) && digits_value(s.skip(1))
        <= u32::MAX {
        Some(digits_value(s.skip(1)) as u32)
    } else {
        None
    }
}

/// The one-character text of the digit `d`.
fn digit_str(d: u32) -> (result: &'static str)
    requires
        d < 10,
    ensures
        result@ == seq![digit_char(d as int)],
{
    proof {
        reveal_strlit("0");
        reveal_strlit("1");
        reveal_strlit("2");
        reveal_strlit("3");
        reveal_strlit("4");
        reveal_strlit("5");
        reveal_strlit("6");
        reveal_strlit("7");
        reveal_strlit("8");
        reveal_strlit("9");
    }
    let result = if d == 0 {
        "0"
    } else if d == 1 {
        "1"
    } else if d == 2 {
        "2"
    } else if d == 3 {
        "3"
    } else if d == 4 {
        "4"
    } else if d == 5 {
        "5"
    } else if d == 6 {
        "6"
    } else if d == 7 {
        "7"
    } else if d == 8 {
        "8"
    } else {
        "9"
    };
    assert(result@ =~= seq![digit_char(d as int)]);
    result
}

/// Appends the decimal numeral of `n` to `text`.
fn push_decimal(text: &mut String, n: u32)
    ensures
        final(text)@ == old(text)@ + decimal(n as nat),
    decreases n,
{
    if n >= 10 {
        push_decimal(text, n / 10);
    }
    text.append(digit_str(n % 10));
    proof {
        let tail = seq![digit_char((n % 10) as int)];
        if n >= 10 {
            assert(decimal(n as nat) =~= decimal((n / 10) as nat) + tail);
        }
        assert(text@ =~= old(text)@ + decimal(n as nat));
    }
}

/// The name under which version `n` is stored, and by which it is selected.
pub fn version_name(n: u32) -> (result: String)
    ensures
        result@ == version_name_spec(n as nat),
{
    proof {
        reveal_strlit("v");
    }
    let mut result = String::from_str("v");
    assert(result@ =~= seq!['v']);
    push_decimal(&mut result, n);
    result
}

/// A numeral's prefix stands for no more than the numeral itself.
proof fn lemma_prefix_value(s: Seq<char>, k: int)
    requires
        all_digits(s),
        0 <= k <= s.len(),
    ensures
        digits_value(s.take(k)) <= digits_value(s),
    decreases s.len(),
{
    if k == s.len() {
        assert(s.take(k) =~= s);
    } else {
        assert(s.drop_last().take(k) =~= s.take(k));
        assert(is_digit(s[s.len() - 1]));
        lemma_prefix_value(s.drop_last(), k);
    }
}

/// Reads a version selector: the letter `v`, then a decimal number.
///
/// Leading zeros are accepted; a sign, an empty number or one that does not
/// fit in 32 bits is not.
pub fn parse_version(selector: &str) -> (result: Result<u32, Error>)
    ensures
        match selector_version(selector@) {
            Some(n) => result == Ok::<u32, Error>(n),
            None => result == Err::<u32, Error>(Error::InvalidVersionFormat),
        },
{
    let len = selector.unicode_len();
    if len < 2 {
        return Err(Error::InvalidVersionFormat);
    }
    if selector.get_char(0) != 'v' {
        return Err(Error::InvalidVersionFormat);
    }
    let ghost digits = selector@.skip(1);
    let mut value: u64 = 0;
    let mut i: usize = 1;
    assert(digits.take(0) =~= Seq::<char>::empty());
    while i < len
        invariant
            1 <= i <= len,
            len == selector@.len(),
            digits == selector@.skip(1),
            all_digits(digits.take(i - 1)),
            value == digits_value(digits.take(i - 1)),
            value <= u32::MAX,
        decreases len - i,
    {
        let c = selector.get_char(i);
        assert(c == digits[i - 1]);
        let code: u32 = c as u32;
        if code < 48 || code > 57 {
            assert(!is_digit(digits[i - 1]));
            return Err(Error::InvalidVersionFormat);
        }
        let ghost prefix = digits.take(i - 1);
        let ghost longer = digits.take(i as int);
        proof {
            assert(longer.drop_last() =~= prefix);
            assert(longer.last() == c);
            assert forall|j: int| 0 <= j < longer.len() implies is_digit(#[trigger] longer[j]) by {
                if j < i - 1 {
                    assert(longer[j] == prefix[j]);
                }
            }
        }
        value = value * 10 + (code - 48) as u64;
        assert(value == digits_value(longer));
        if value > 0xffff_ffff {
            proof {
                if all_digits(digits) {
                    lemma_prefix_value(digits, i as int);
                }
            }
            return Err(Error::InvalidVersionFormat);
        }
        i += 1;
    }
    assert(digits.take(len - 1) =~= digits);
    Ok(value as u32)
}

/// The numeral of a number is made of digits, is not empty, and stands for
/// that number.
pub proof fn lemma_decimal_value(n: nat)
    ensures
        decimal(n).len() >= 1,
        all_digits(decimal(n)),
        digits_value(decimal(n)) == n,
    decreases n,
{
    if n < 10 {
        let s = decimal(n);
        assert(s.drop_last() =~= Seq::<char>::empty());
        assert(digits_value(s.drop_last()) == 0);
    } else {
        lemma_decimal_value(n / 10);
        let s = decimal(n);
        assert(s.drop_last() =~= decimal(n / 10));
        assert(s.last() == digit_char((n % 10) as int));
    }
}

/// A version's name, read as a selector, gives that version back; so two
/// versions never share a name.
pub proof fn lemma_name_selects_version(n: u32)
    ensures
        selector_version(version_name_spec(n as nat)) == Some(n),
        forall|m: u32| version_name_spec(m as nat) == version_name_spec(n as nat) ==> m == n,
{
    lemma_decimal_value(n as nat);
    assert(version_name_spec(n as nat).skip(1) =~= decimal(n as nat));
    assert forall|m: u32| version_name_spec(m as nat) == version_name_spec(n as nat) implies m
        == n by {
        lemma_decimal_value(m as nat);
        assert(version_name_spec(m as nat).skip(1) =~= decimal(m as nat));
    }
}

} // verus!
