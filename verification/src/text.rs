//! Text out of bytes, and numbers out of text.

use vstd::prelude::*;
use vstd::string::{StringExecFns, StringSliceAdditionalSpecFns};
use vstd::utf8::{
    decode_utf8, encode_utf8, is_ascii_chars, is_ascii_chars_encode_utf8, valid_utf8,
};

verus! {

/// What `String::from_utf8_lossy` makes of bytes that are not well-formed
/// UTF-8: the text with U+FFFD in place of every malformed sequence.
pub uninterp spec fn lossy_text(bytes: Seq<u8>) -> Seq<char>;

/// The text of a run of bytes: the decoded characters where the bytes are
/// well-formed UTF-8, and else what a lossy decoding makes of them.
pub open spec fn text_of_bytes(bytes: Seq<u8>) -> Seq<char> {
    if valid_utf8(bytes) {
        decode_utf8(bytes)
    } else {
        lossy_text(bytes)
    }
}

/// Decodes with `String::from_utf8_lossy`, which hands well-formed UTF-8
/// back as the string that it is, and replaces what is malformed.
#[verifier::external_body]
pub(crate) fn decode_lossy(bytes: &[u8]) -> (text: String)
    ensures
        valid_utf8(bytes@) ==> text@ == decode_utf8(bytes@),
        !valid_utf8(bytes@) ==> text@ == lossy_text(bytes@),
{
    String::from_utf8_lossy(bytes).into_owned()
}

pub const PLUS_SIGN: u8 = 0x2B;

pub const DIGIT_ZERO: u8 = 0x30;

pub const DIGIT_NINE: u8 = 0x39;

/// An ASCII decimal digit.
pub open spec fn is_digit(b: u8) -> bool {
    DIGIT_ZERO <= b <= DIGIT_NINE
}

/// Every byte is a decimal digit.
pub open spec fn all_digits(bytes: Seq<u8>) -> bool {
    forall|i: int| 0 <= i < bytes.len() ==> is_digit(#[trigger] bytes[i])
}

/// The number that a run of decimal digits denotes, most significant first.
pub open spec fn digits_value(digits: Seq<u8>) -> nat
    decreases digits.len(),
{
    if digits.len() == 0 {
        0
    } else {
        (digits_value(digits.drop_last()) * 10 + (digits.last() - DIGIT_ZERO)) as nat
    }
}

/// The digits of a decimal text: the text without one leading plus sign.
pub open spec fn unsigned_part(text: Seq<u8>) -> Seq<u8> {
    if text.len() > 0 && text[0] == PLUS_SIGN {
        text.skip(1)
    } else {
        text
    }
}

/// The value of a decimal text as a `u64`: an optional plus sign, then one
/// digit or more, denoting a number that fits.  Anything else has no value.
pub open spec fn parse_decimal(text: Seq<u8>) -> Option<u64> {
    let digits = unsigned_part(text);
    if digits.len() > 0 && all_digits(digits) && digits_value(digits) <= u64::MAX {
        Some(digits_value(digits) as u64)
    } else {
        None
    }
}

/// A run of digits denotes at least what any of its prefixes denotes.
pub proof fn lemma_digits_value_prefix(digits: Seq<u8>, n: int)
    requires
        all_digits(digits),
        0 <= n <= digits.len(),
    ensures
        digits_value(digits.take(n)) <= digits_value(digits),
    decreases digits.len() - n,
{
    if n < digits.len() {
        let init = digits.drop_last();
        assert(is_digit(digits[digits.len() - 1]));
        if n == init.len() {
            assert(digits.take(n) == init);
        } else {
            assert(all_digits(init)) by {
                assert forall|i: int| 0 <= i < init.len() implies is_digit(#[trigger] init[i]) by {
                    assert(init[i] == digits[i]);
                }
            }
            lemma_digits_value_prefix(init, n);
            assert(init.take(n) == digits.take(n));
        }
    } else {
        assert(digits.take(n) == digits);
    }
}

/// Reads a decimal number from the UTF-8 bytes of a text.
pub fn parse_decimal_bytes(text: &[u8]) -> (r: Option<u64>)
    ensures
        r == parse_decimal(text@),
{
    let len: usize = text.len();
    let start: usize = if len > 0 && text[0] == PLUS_SIGN {
        1
    } else {
        0
    };
    if start == len {
        return None;
    }
    let ghost digits = unsigned_part(text@);
    assert(digits == text@.skip(start as int));
    let mut value: u64 = 0;
    let mut pos: usize = start;
    assert(digits.take(0) == Seq::<u8>::empty());
    while pos < len
        invariant
            len == text@.len(),
            start <= pos <= len,
            digits == text@.skip(start as int),
            digits == unsigned_part(text@),
            all_digits(digits.take(pos - start)),
            value == digits_value(digits.take(pos - start)),
        decreases len - pos,
    {
        let b: u8 = text[pos];
        let ghost upto = digits.take(pos - start + 1);
        proof {
            assert(digits[pos - start] == b);
            assert(upto.drop_last() == digits.take(pos - start));
            assert(upto.last() == b);
        }
        if b < DIGIT_ZERO || b > DIGIT_NINE {
            assert(!all_digits(digits));
            return None;
        }
        let d: u64 = (b - DIGIT_ZERO) as u64;
        proof {
            assert forall|i: int| 0 <= i < upto.len() implies is_digit(#[trigger] upto[i]) by {
                if i < upto.len() - 1 {
                    assert(upto[i] == digits.take(pos - start)[i]);
                }
            }
        }
        if value > (u64::MAX - d) / 10 {
            proof {
                assert(digits_value(upto) > u64::MAX);
                if all_digits(digits) {
                    lemma_digits_value_prefix(digits, pos - start + 1);
                }
            }
            return None;
        }
        value = value * 10 + d;
        pos = pos + 1;
    }
    assert(digits.take(len - start) == digits);
    Some(value)
}

/// Reads a decimal number from a text.
pub fn parse_decimal_text(text: &str) -> (r: Option<u64>)
    ensures
        r == parse_decimal(text.spec_bytes()),
{
    parse_decimal_bytes(text.as_bytes())
}

/// The character that stands for a digit below ten.
pub open spec fn digit_char(d: int) -> char {
    seq!['0', '1', '2', '3', '4', '5', '6', '7', '8', '9'][d]
}

/// The decimal numeral of `n`, without leading zeros.
pub open spec fn decimal_text(n: nat) -> Seq<char>
    decreases n,
{
    if n < 10 {
        seq![digit_char(n as int)]
    } else {
        decimal_text(n / 10).push(digit_char((n % 10) as int))
    }
}

fn digit_str(d: u128) -> (s: &'static str)
    requires
        d < 10,
    ensures
        s@ == seq![digit_char(d as int)],
{
    proof {
        reveal_strlit("0");
        reveal_strlit("1");
        reveal_strlit("2");
        reveal_strlit("3");
        reveal_strlit("4");
        reveal_strlit("5");
        reveal_strlit("6");
        reveal_strlit("7");
        reveal_strlit("8");
        reveal_strlit("9");
    }
    let s: &'static str = if d == 0 {
        "0"
    } else if d == 1 {
        "1"
    } else if d == 2 {
        "2"
    } else if d == 3 {
        "3"
    } else if d == 4 {
        "4"
    } else if d == 5 {
        "5"
    } else if d == 6 {
        "6"
    } else if d == 7 {
        "7"
    } else if d == 8 {
        "8"
    } else {
        "9"
    };
    assert(s@ =~= seq![digit_char(d as int)]);
    s
}

/// Writes `n` in decimal.
pub fn decimal_string_wide(n: u128) -> (s: String)
    ensures
        s@ == decimal_text(n as nat),
    decreases n,
{
    if n < 10 {
        digit_str(n).to_owned()
    } else {
        let mut s: String = decimal_string_wide(n / 10);
        s.append(digit_str(n % 10));
        s
    }
}

/// Writes `n` in decimal.
pub fn decimal_string(n: u64) -> (s: String)
    ensures
        s@ == decimal_text(n as nat),
{
    decimal_string_wide(n as u128)
}

/// Joins two texts.
pub fn join(head: &str, tail: &str) -> (s: String)
    ensures
        s@ == head@ + tail@,
{
    let mut s: String = head.to_owned();
    s.append(tail);
    s
}

/// Joins three texts.
pub fn join3(head: &str, middle: &str, tail: &str) -> (s: String)
    ensures
        s@ == head@ + middle@ + tail@,
{
    let mut s: String = head.to_owned();
    s.append(middle);
    s.append(tail);
    s
}

/// The numeral of `n` is made of digits, and they denote `n`.
pub proof fn lemma_decimal_text_digits(n: nat)
    ensures
        decimal_text(n).len() > 0,
        is_ascii_chars(decimal_text(n)),
        forall|i: int|
            0 <= i < decimal_text(n).len() ==> is_digit(#[trigger] decimal_text(n)[i] as u8),
        digits_value(Seq::new(decimal_text(n).len(), |i: int| decimal_text(n)[i] as u8)) == n,
    decreases n,
{
    let text = decimal_text(n);
    let bytes = Seq::new(text.len(), |i: int| text[i] as u8);
    assert forall|d: int| 0 <= d < 10 implies '\0' <= #[trigger] digit_char(d) <= '\u{7f}'
        && digit_char(d) as u8 == DIGIT_ZERO + d by {
        assert(d == 0 || d == 1 || d == 2 || d == 3 || d == 4 || d == 5 || d == 6 || d == 7 || d
            == 8 || d == 9);
    }
    if n < 10 {
        assert(text[0] == digit_char(n as int));
        assert(bytes.drop_last() =~= Seq::<u8>::empty());
        assert(digits_value(bytes.drop_last()) == 0);
    } else {
        let head = decimal_text(n / 10);
        let head_bytes = Seq::new(head.len(), |i: int| head[i] as u8);
        lemma_decimal_text_digits(n / 10);
        assert(text.last() == digit_char((n % 10) as int));
        assert(bytes.drop_last() =~= head_bytes);
        assert forall|i: int| 0 <= i < text.len() implies is_digit(#[trigger] text[i] as u8)
            && '\0' <= text[i] <= '\u{7f}' by {
            if i < head.len() {
                assert(text[i] == head[i]);
            }
        }
    }
}

/// A number that is written in decimal is read back as the number it was.
pub proof fn lemma_decimal_round_trip(n: u64)
    ensures
        parse_decimal(encode_utf8(decimal_text(n as nat))) == Some(n),
{
    let text = decimal_text(n as nat);
    let bytes = Seq::new(text.len(), |i: int| text[i] as u8);
    lemma_decimal_text_digits(n as nat);
    is_ascii_chars_encode_utf8(text);
    assert(encode_utf8(text) =~= bytes);
    assert(is_digit(text[0] as u8));
    assert(bytes[0] != PLUS_SIGN);
    assert(unsigned_part(bytes) == bytes);
    assert(all_digits(bytes));
}

} // verus!
