//! Reading literal text: hexadecimal byte strings and signed decimal integers.
use vstd::prelude::*;

verus! {

#[verifier::external_type_specification]
#[verifier::external_body]
pub struct ExFromHexError(hex::FromHexError);

/// The value of one hexadecimal digit, in either case.
pub open spec fn hex_digit_value(c: char) -> Option<u8> {
    if '0' <= c && c <= '9' {
        Some((c as u32 - '0' as u32) as u8)
    } else if 'a' <= c && c <= 'f' {
        Some((c as u32 - 'a' as u32 + 10) as u8)
    } else if 'A' <= c && c <= 'F' {
        Some((c as u32 - 'A' as u32 + 10) as u8)
    } else {
        None
    }
}

/// The bytes that hex text stands for: two digits per byte, high digit
/// first; `None` for an odd number of digits or a character that is no digit.
pub open spec fn hex_decoded(s: Seq<char>) -> Option<Seq<u8>> {
    if s.len() % 2 == 0 && forall|i: int| 0 <= i < s.len() ==> (#[trigger] hex_digit_value(s[i])) is Some {
        Some(
            Seq::new(
                s.len() / 2,
                |k: int|
                    (hex_digit_value(s[2 * k])->0 * 16 + hex_digit_value(s[2 * k + 1])->0) as u8,
            ),
        )
    } else {
        None
    }
}

/// Relies on `hex::decode`: it rejects an odd length and any byte that is not
/// an ASCII hex digit, and otherwise reads each pair of digits as one byte.
#[verifier::external_body]
fn decode_hex(s: &str) -> (r: Result<Vec<u8>, hex::FromHexError>)
    ensures
        r is Ok <==> hex_decoded(s@) is Some,
        r matches Ok(v) ==> v@ == hex_decoded(s@)->0,
{
    hex::decode(s)
}

/// Decodes hex text into bytes; `None` where the text is not an even number
/// of hex digits.
pub fn hex_bytes(s: &str) -> (r: Option<Vec<u8>>)
    ensures
        r matches Some(v) ==> hex_decoded(s@) == Some(v@),
        r is None <==> hex_decoded(s@) is None,
{
    match decode_hex(s) {
        Ok(v) => Some(v),
        Err(_) => None,
    }
}

pub open spec fn is_digit(c: char) -> bool {
    '0' <= c && c <= '9'
}

/// One or more decimal digits.
pub open spec fn all_digits(s: Seq<char>) -> bool {
    s.len() > 0 && forall|i: int| 0 <= i < s.len() ==> #[trigger] is_digit(s[i])
}

/// The number that a string of decimal digits stands for.
pub open spec fn digits_value(s: Seq<char>) -> int
    decreases s.len(),
{
    if s.len() == 0 {
        0
    } else {
        10 * digits_value(s.drop_last()) + (s.last() as u32 - '0' as u32)
    }
}

/// The value of base-10 text with an optional leading sign, where it fits in
/// a 64-bit signed integer.
pub open spec fn i64_literal(s: Seq<char>) -> Option<i64> {
    let signed = s.len() > 0 && (s[0] == '-' || s[0] == '+');
    let digits = if signed { s.skip(1) } else { s };
    let v = if s.len() > 0 && s[0] == '-' { -digits_value(digits) } else { digits_value(digits) };
    if all_digits(digits) && i64::MIN <= v <= i64::MAX {
        Some(v as i64)
    } else {
        None
    }
}

proof fn lemma_digits_value_grows(s: Seq<char>, k: int)
    requires
        0 <= k <= s.len(),
        forall|i: int| 0 <= i < s.len() ==> #[trigger] is_digit(s[i]),
    ensures
        0 <= digits_value(s.subrange(0, k)) <= digits_value(s),
    decreases s.len() - k,
{
    if k < s.len() {
        lemma_digits_value_grows(s, k + 1);
        let t = s.subrange(0, k + 1);
        assert(t.drop_last() =~= s.subrange(0, k));
        assert(is_digit(s[k]));
    } else {
        assert(s.subrange(0, k) =~= s);
        lemma_digits_nonnegative(s);
    }
}

proof fn lemma_digits_nonnegative(s: Seq<char>)
    requires
        forall|i: int| 0 <= i < s.len() ==> #[trigger] is_digit(s[i]),
    ensures
        digits_value(s) >= 0,
    decreases s.len(),
{
    if s.len() > 0 {
        let t = s.drop_last();
        assert forall|i: int| 0 <= i < t.len() implies #[trigger] is_digit(t[i]) by {
            assert(is_digit(s[i]));
        }
        lemma_digits_nonnegative(t);
        assert(is_digit(s[s.len() - 1]));
    }
}

/// Reads base-10 text with an optional leading `+` or `-` as a 64-bit signed
/// integer; `None` where the text is no such number or the value does not fit.
pub fn parse_decimal(s: &str) -> (r: Option<i64>)
    ensures
        r == i64_literal(s@),
{
    let n = s.unicode_len();
    if n == 0 {
        return None;
    }
    let first = s.get_char(0);
    assert(s@[0] == first);
    let start: usize = if first == '-' || first == '+' { 1 } else { 0 };
    let ghost digits = if start == 1 { s@.skip(1) } else { s@ };
    proof {
        assert(digits =~= s@.subrange(start as int, n as int));
    }
    if start == n {
        return None;
    }
    let mut acc: i128 = 0;
    let mut k: usize = start;
    while k < n
        invariant
            start <= k <= n,
            n == s@.len(),
            start < n,
            s@[0] == first,
            start == (if first == '-' || first == '+' { 1usize } else { 0usize }),
            digits == (if start == 1 { s@.skip(1) } else { s@ }),
            digits =~= s@.subrange(start as int, n as int),
            acc == digits_value(digits.subrange(0, k - start)),
            0 <= acc <= 9223372036854775808,
            forall|j: int| 0 <= j < k - start ==> #[trigger] is_digit(digits[j]),
        decreases n - k,
    {
        let c = s.get_char(k);
        assert(c == digits[k - start]);
        if !('0' <= c && c <= '9') {
            assert(!is_digit(digits[k - start]));
            assert(!all_digits(digits));
            return None;
        }
        proof {
            let t = digits.subrange(0, k - start + 1);
            assert(t.drop_last() =~= digits.subrange(0, k - start));
        }
        acc = acc * 10 + (c as u32 - '0' as u32) as i128;
        if acc > 9223372036854775808 {
            proof {
                let m = (k + 1 - start) as int;
                assert(acc == digits_value(digits.subrange(0, m)));
                if all_digits(digits) {
                    lemma_digits_value_grows(digits, m);
                }
            }
            return None;
        }
        k = k + 1;
    }
    proof {
        assert(digits.subrange(0, n - start) =~= digits);
    }
    if first == '-' {
        Some((-acc) as i64)
    } else if acc <= 9223372036854775807 {
        Some(acc as i64)
    } else {
        None
    }
}

} // verus!
