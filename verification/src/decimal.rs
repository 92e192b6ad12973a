//! Numbers as decimal text: how a length is written in a frame's header and
//! read back from it.

use vstd::prelude::*;
use vstd::string::*;

verus! {

/// The character of the digit `d`.
pub open spec fn digit_char(d: int) -> char {
    ((48 + d) as u8) as char
}

/// The decimal numeral of `n`: no sign, no leading zero but for 0 itself.
pub open spec fn decimal_chars(n: nat) -> Seq<char>
    decreases n,
{
    if n < 10 {
        seq![digit_char(n as int)]
    } else {
        decimal_chars(n / 10).push(digit_char((n % 10) as int))
    }
}

/// The bytes of a text of ASCII characters.
pub open spec fn ascii(s: Seq<char>) -> Seq<u8> {
    Seq::new(s.len(), |i: int| s[i] as u8)
}

/// The decimal numeral of `n` in bytes.
pub open spec fn decimal_bytes(n: nat) -> Seq<u8> {
    ascii(decimal_chars(n))
}

pub open spec fn is_digit_byte(b: u8) -> bool {
    48 <= b <= 57
}

pub open spec fn all_digits(s: Seq<u8>) -> bool {
    forall|i: int| 0 <= i < s.len() ==> is_digit_byte(#[trigger] s[i])
}

/// The number that a sequence of digits denotes.
pub open spec fn digits_value(s: Seq<u8>) -> nat
    decreases s.len(),
{
    if s.len() == 0 {
        0
    } else {
        digits_value(s.drop_last()) * 10 + (s.last() - 48) as nat
    }
}

/// The number that `s` denotes, if `s` is a numeral: at least one digit,
/// digits only, and a value that a machine word holds.
pub open spec fn parse_decimal(s: Seq<u8>) -> Option<usize> {
    if s.len() > 0 && all_digits(s) && digits_value(s) <= usize::MAX {
        Some(digits_value(s) as usize)
    } else {
        None
    }
}

/// A numeral is not empty and is made of digits.
pub proof fn lemma_decimal_chars(n: nat)
    ensures
        decimal_chars(n).len() >= 1,
        forall|i: int|
            0 <= i < decimal_chars(n).len() ==> '0' <= #[trigger] decimal_chars(n)[i] <= '9',
    decreases n,
{
    if n >= 10 {
        lemma_decimal_chars(n / 10);
    }
}

/// Reading a numeral gives back the number that was written.
pub proof fn lemma_decimal_round_trip(n: nat)
    ensures
        decimal_bytes(n).len() >= 1,
        all_digits(decimal_bytes(n)),
        digits_value(decimal_bytes(n)) == n,
        n <= usize::MAX ==> parse_decimal(decimal_bytes(n)) == Some(n as usize),
    decreases n,
{
    lemma_decimal_chars(n);
    if n < 10 {
        assert(decimal_bytes(n).drop_last() =~= Seq::<u8>::empty());
        assert(digits_value(decimal_bytes(n).drop_last()) == 0);
    } else {
        lemma_decimal_round_trip(n / 10);
        assert(decimal_bytes(n).drop_last() =~= decimal_bytes(n / 10));
    }
}

/// The digits of a part of a numeral denote no more than the whole.
pub proof fn lemma_digits_value_grows(s: Seq<u8>, k: int)
    requires
        0 <= k <= s.len(),
        all_digits(s),
    ensures
        digits_value(s.take(k)) <= digits_value(s),
    decreases s.len(),
{
    if k < s.len() {
        assert(s.drop_last().take(k) =~= s.take(k));
        lemma_digits_value_grows(s.drop_last(), k);
    } else {
        assert(s.take(k) =~= s);
    }
}

/// The text of one digit.
fn digit_text(d: usize) -> (text: &'static str)
    requires
        d < 10,
    ensures
        text@ == seq![digit_char(d as int)],
{
    proof {
        reveal_strlit("0");
        reveal_strlit("1");
        reveal_strlit("2");
        reveal_strlit("3");
        reveal_strlit("4");
        reveal_strlit("5");
        reveal_strlit("6");
        reveal_strlit("7");
        reveal_strlit("8");
        reveal_strlit("9");
    }
    let text = if d == 0 {
        "0"
    } else if d == 1 {
        "1"
    } else if d == 2 {
        "2"
    } else if d == 3 {
        "3"
    } else if d == 4 {
        "4"
    } else if d == 5 {
        "5"
    } else if d == 6 {
        "6"
    } else if d == 7 {
        "7"
    } else if d == 8 {
        "8"
    } else {
        "9"
    };
    assert(text@ =~= seq![digit_char(d as int)]);
    text
}

/// The decimal numeral of `n`.
pub fn decimal_text(n: usize) -> (text: String)
    ensures
        text@ == decimal_chars(n as nat),
    decreases n,
{
    if n < 10 {
        digit_text(n).to_owned()
    } else {
        let text = decimal_text(n / 10).concat(digit_text(n % 10));
        assert(text@ =~= decimal_chars(n as nat));
        text
    }
}

/// Reads the bytes from `from` up to `to` as a numeral.
pub fn parse_digits(bytes: &[u8], from: usize, to: usize) -> (value: Option<usize>)
    requires
        from <= to <= bytes@.len(),
    ensures
        value == parse_decimal(bytes@.subrange(from as int, to as int)),
{
    let ghost digits = bytes@.subrange(from as int, to as int);
    if from == to {
        return None;
    }
    let mut value: usize = 0;
    let mut i: usize = from;
    while i < to
        invariant
            from <= i <= to <= bytes@.len(),
            digits == bytes@.subrange(from as int, to as int),
            all_digits(digits.take(i - from)),
            value == digits_value(digits.take(i - from)),
        decreases to - i,
    {
        let b = bytes[i];
        assert(digits[i - from] == b);
        if b < 48 || b > 57 {
            return None;
        }
        let d = (b - 48) as usize;
        proof {
            assert(digits.take(i - from + 1).drop_last() =~= digits.take(i - from));
            assert(digits.take(i - from + 1).last() == b);
            assert(all_digits(digits.take(i - from + 1))) by {
                assert forall|j: int| 0 <= j < i - from + 1 implies is_digit_byte(
                    #[trigger] digits.take(i - from + 1)[j],
                ) by {
                    if j < i - from {
                        assert(digits.take(i - from)[j] == digits.take(i - from + 1)[j]);
                    }
                }
            }
        }
        if value > (usize::MAX - d) / 10 {
            proof {
                if all_digits(digits) {
                    lemma_digits_value_grows(digits, i - from + 1);
                }
            }
            return None;
        }
        value = value * 10 + d;
        i += 1;
    }
    assert(digits.take(to - from) =~= digits);
    Some(value)
}

} // verus!
