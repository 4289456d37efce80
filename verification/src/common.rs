//! Values and text helpers shared by the legacy record and the versioned schema.

use vstd::prelude::*;

verus! {

/// The sentinel that stands for an integer the source did not state. It
/// keeps "not stated" apart from a stated zero.
pub const ABSENT: i32 = -1;

/// The value an integer field takes when the source omits it.
pub fn negative_default_i32() -> (value: i32)
    ensures
        value == ABSENT,
{
    ABSENT
}

/// Whether two pieces of text hold the same characters.
#[verifier::loop_isolation(false)]
pub fn text_eq(a: &str, b: &str) -> (same: bool)
    ensures
        same == (a@ == b@),
{
    let x = a.as_bytes();
    let y = b.as_bytes();
    if x.len() != y.len() {
        return false;
    }
    let mut i: usize = 0;
    while i < x.len()
        invariant
            i <= x.len(),
            x.len() == y.len(),
            forall|j: int| 0 <= j < i ==> x@[j] == y@[j],
        decreases x.len() - i,
    {
        if x[i] != y[i] {
            assert(a@ != b@) by {
                if a@ == b@ {
                    assert(x@[i as int] == y@[i as int]);
                }
            }
            return false;
        }
        i += 1;
    }
    proof {
        assert(x@ =~= y@);
        vstd::utf8::encode_utf8_decode_utf8(a@);
        vstd::utf8::encode_utf8_decode_utf8(b@);
    }
    true
}

/// A decimal digit.
pub open spec fn is_digit(c: char) -> bool {
    '0' <= c <= '9'
}

/// The number a decimal digit stands for.
pub open spec fn digit_value(c: char) -> int {
    c as int - '0' as int
}

/// The number written by a run of decimal digits, most significant first.
pub open spec fn digits_value(digits: Seq<char>) -> int
    decreases digits.len(),
{
    if digits.len() == 0 {
        0
    } else {
        10 * digits_value(digits.drop_last()) + digit_value(digits.last())
    }
}

/// Every character is a decimal digit.
pub open spec fn all_digits(text: Seq<char>) -> bool {
    forall|i: int| 0 <= i < text.len() ==> is_digit(#[trigger] text[i])
}

/// The text begins with a plus or minus sign.
pub open spec fn has_sign(text: Seq<char>) -> bool {
    text.len() > 0 && (text[0] == '-' || text[0] == '+')
}

/// What follows the optional sign.
pub open spec fn unsigned_part(text: Seq<char>) -> Seq<char> {
    if has_sign(text) {
        text.drop_first()
    } else {
        text
    }
}

/// The integer that a decimal literal denotes: an optional sign and then one
/// or more digits, with nothing before, between or after.
pub open spec fn decimal_value(text: Seq<char>) -> Option<int> {
    let digits = unsigned_part(text);
    if digits.len() == 0 || !all_digits(digits) {
        None
    } else if text[0] == '-' {
        Some(-digits_value(digits))
    } else {
        Some(digits_value(digits))
    }
}

/// The `i32` that a decimal literal denotes, if it denotes one that fits.
pub open spec fn decimal_i32(text: Seq<char>) -> Option<i32> {
    match decimal_value(text) {
        Some(v) => if i32::MIN <= v <= i32::MAX {
            Some(v as i32)
        } else {
            None
        },
        None => None,
    }
}

/// A run of digits never denotes a negative number, and no prefix of it
/// denotes more than the whole.
pub proof fn lemma_digits_value_grows(digits: Seq<char>, k: int)
    requires
        all_digits(digits),
        0 <= k <= digits.len(),
    ensures
        0 <= digits_value(digits.take(k)) <= digits_value(digits),
    decreases digits.len() - k,
{
    if k == digits.len() {
        assert(digits.take(k) =~= digits);
        lemma_digits_value_nonnegative(digits);
    } else {
        lemma_digits_value_grows(digits, k + 1);
        let longer = digits.take(k + 1);
        assert(longer.drop_last() =~= digits.take(k));
        assert(is_digit(longer.last()));
        lemma_digits_value_nonnegative(digits.take(k));
    }
}

/// A run of digits never denotes a negative number.
pub proof fn lemma_digits_value_nonnegative(digits: Seq<char>)
    requires
        all_digits(digits),
    ensures
        0 <= digits_value(digits),
    decreases digits.len(),
{
    if digits.len() > 0 {
        assert(is_digit(digits.last()));
        lemma_digits_value_nonnegative(digits.drop_last());
    }
}

/// A run of digits that denotes zero holds no digit but `0`.
pub proof fn lemma_zero_digits(digits: Seq<char>)
    requires
        all_digits(digits),
        digits_value(digits) == 0,
    ensures
        forall|i: int| 0 <= i < digits.len() ==> #[trigger] digits[i] == '0',
    decreases digits.len(),
{
    if digits.len() > 0 {
        assert(is_digit(digits.last()));
        lemma_digits_value_nonnegative(digits.drop_last());
        lemma_zero_digits(digits.drop_last());
        assert forall|i: int| 0 <= i < digits.len() implies #[trigger] digits[i] == '0' by {
            if i < digits.len() - 1 {
                assert(digits.drop_last()[i] == digits[i]);
            }
        }
    }
}

/// The text is a literal for zero: an optional sign and then one or more
/// times the digit `0`.
pub open spec fn written_with_zeros(text: Seq<char>) -> bool {
    &&& unsigned_part(text).len() >= 1
    &&& forall|i: int|
        0 <= i < unsigned_part(text).len() ==> #[trigger] unsigned_part(text)[i] == '0'
}

/// A decimal literal denotes zero only where it is written with zeros.
pub proof fn lemma_zero_is_written(text: Seq<char>)
    requires
        decimal_i32(text) == Some(0i32),
    ensures
        written_with_zeros(text),
{
    lemma_zero_digits(unsigned_part(text));
}

/// How an ASCII character and its byte agree on signs and digits.
proof fn lemma_ascii_byte(c: char, b: u8)
    requires
        '\0' <= c <= '\u{7f}',
        b == c as u8,
    ensures
        is_digit(c) == (48 <= b <= 57),
        is_digit(c) ==> digit_value(c) == b - 48,
        (c == '-') == (b == 45),
        (c == '+') == (b == 43),
{
}

/// Reads a decimal literal as an `i32`.
///
/// Accepts an optional `+` or `-` followed by at least one digit. Returns
/// `None` for anything else and for a number that does not fit.
#[verifier::loop_isolation(false)]
pub fn parse_i32(text: &str) -> (value: Option<i32>)
    ensures
        value == decimal_i32(text@),
{
    if !text.is_ascii() {
        proof {
            let i = choose|i: int|
                0 <= i < text@.len() && !('\0' <= #[trigger] text@[i] <= '\u{7f}');
            if has_sign(text@) {
                if i > 0 {
                    assert(!is_digit(unsigned_part(text@)[i - 1]));
                }
            } else {
                assert(!is_digit(unsigned_part(text@)[i]));
            }
        }
        return None;
    }
    let bytes = text.as_bytes();
    proof {
        vstd::string::is_ascii_spec_bytes(text);
    }
    let n = bytes.len();
    let ghost chars = text@;
    assert(n == chars.len());
    assert forall|j: int| 0 <= j < n implies '\0' <= #[trigger] chars[j] <= '\u{7f}' && bytes@[j]
        == chars[j] as u8 by {}
    if n == 0 {
        return None;
    }
    proof {
        lemma_ascii_byte(chars[0], bytes@[0]);
    }
    let negative = bytes[0] == 45u8;
    let start: usize = if bytes[0] == 45u8 || bytes[0] == 43u8 {
        1
    } else {
        0
    };
    let ghost digits = unsigned_part(chars);
    assert(digits =~= chars.skip(start as int));
    if start == n {
        return None;
    }
    let mut magnitude: i64 = 0;
    let mut i: usize = start;
    while i < n
        invariant
            start <= i <= n,
            n == chars.len(),
            n == bytes@.len(),
            digits == chars.skip(start as int),
            forall|j: int|
                0 <= j < n ==> '\0' <= #[trigger] chars[j] <= '\u{7f}' && bytes@[j]
                    == chars[j] as u8,
            all_digits(digits.take(i - start)),
            magnitude == digits_value(digits.take(i - start)),
            0 <= magnitude <= 2147483648,
        decreases n - i,
    {
        let b = bytes[i];
        let ghost c = chars[i as int];
        let ghost shorter = digits.take(i - start);
        let ghost longer = digits.take(i - start + 1);
        proof {
            lemma_ascii_byte(c, b);
            assert(digits[i - start] == c);
            assert(longer.drop_last() =~= shorter);
            assert(longer.last() == c);
        }
        if b < 48u8 || b > 57u8 {
            assert(!is_digit(digits[i - start]));
            return None;
        }
        magnitude = magnitude * 10 + (b - 48u8) as i64;
        proof {
            assert forall|j: int| 0 <= j < longer.len() implies is_digit(#[trigger] longer[j]) by {
                if j < shorter.len() {
                    assert(longer[j] == shorter[j]);
                }
            }
        }
        if magnitude > 2147483648 {
            proof {
                if all_digits(digits) {
                    lemma_digits_value_grows(digits, i - start + 1);
                }
            }
            return None;
        }
        i += 1;
    }
    assert(digits.take(n - start) =~= digits);
    if negative {
        Some((-magnitude) as i32)
    } else if magnitude > 2147483647 {
        None
    } else {
        Some(magnitude as i32)
    }
}

} // verus!
