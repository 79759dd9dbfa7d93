//! Text helpers shared by the codec: upper case, comparison of byte strings,
//! delimited pieces of input, line endings and decimal numbers.

use vstd::prelude::*;

verus! {

/// The frame terminator.
pub const NUL: u8 = 0x00;

/// Line feed, which ends every line.
pub const LF: u8 = 0x0a;

/// Carriage return, which may stand before the line feed.
pub const CR: u8 = 0x0d;

/// The separator of a header's key and value.
pub const COLON: u8 = 0x3a;

/// The sign of a negative number.
pub const MINUS: u8 = 0x2d;

/// The sign that may stand before a non-negative number.
pub const PLUS: u8 = 0x2b;

/// The upper-case form of an ASCII letter; any other character is unchanged.
pub open spec fn ascii_upper_char(c: char) -> char {
    if 'a' <= c <= 'z' {
        ((c as u8) - 0x20) as char
    } else {
        c
    }
}

/// Text with each ASCII letter in upper case.
pub open spec fn ascii_upper_text(text: Seq<char>) -> Seq<char> {
    Seq::new(text.len(), |i: int| ascii_upper_char(text[i]))
}

/// What `str::to_uppercase` gives for text that holds characters outside
/// ASCII: the upper-case form that Unicode defines.
pub uninterp spec fn upper_case(text: Seq<char>) -> Seq<char>;

/// The upper-case form of text. In ASCII text the letters `a` to `z` become
/// `A` to `Z` and nothing else changes; other text has the form that
/// Unicode defines.
pub open spec fn upper(text: Seq<char>) -> Seq<char> {
    if vstd::utf8::is_ascii_chars(text) {
        ascii_upper_text(text)
    } else {
        upper_case(text)
    }
}

/// Compares two byte strings exactly.
pub fn bytes_equal(a: &[u8], b: &[u8]) -> (r: bool)
    ensures
        r == (a@ == b@),
{
    if a.len() != b.len() {
        return false;
    }
    let mut i: usize = 0;
    while i < a.len()
        invariant
            a@.len() == b@.len(),
            i <= a@.len(),
            forall|j: int| 0 <= j < i ==> a@[j] == b@[j],
        decreases a@.len() - i,
    {
        if a[i] != b[i] {
            return false;
        }
        i += 1;
    }
    proof {
        assert(a@ =~= b@);
    }
    true
}

/// The index of the first `b` in `s`, or the length of `s` where it holds none.
pub open spec fn position(s: Seq<u8>, b: u8) -> int
    decreases s.len(),
{
    if s.len() == 0 || s[0] == b {
        0
    } else {
        1 + position(s.drop_first(), b)
    }
}

/// `position` is within bounds, nothing before it is `b`, and `b` stands at it
/// unless it is the length.
pub proof fn lemma_position(s: Seq<u8>, b: u8)
    ensures
        0 <= position(s, b) <= s.len(),
        forall|i: int| 0 <= i < position(s, b) ==> s[i] != b,
        position(s, b) < s.len() ==> s[position(s, b)] == b,
    decreases s.len(),
{
    if s.len() == 0 || s[0] == b {
    } else {
        let t = s.drop_first();
        lemma_position(t, b);
        assert forall|i: int| 0 <= i < position(s, b) implies s[i] != b by {
            if i > 0 {
                assert(s[i] == t[i - 1]);
            }
        }
    }
}

/// An index with nothing equal to `b` before it, and `b` at it unless it is the
/// length, is the `position` of `b`.
pub proof fn lemma_position_is(s: Seq<u8>, b: u8, k: int)
    requires
        0 <= k <= s.len(),
        forall|i: int| 0 <= i < k ==> s[i] != b,
        k < s.len() ==> s[k] == b,
    ensures
        position(s, b) == k,
    decreases s.len(),
{
    if s.len() == 0 || s[0] == b {
    } else {
        let t = s.drop_first();
        assert forall|i: int| 0 <= i < k - 1 implies t[i] != b by {
            assert(t[i] == s[i + 1]);
        }
        lemma_position_is(t, b, k - 1);
    }
}

/// Finds the first `b` in `data` at or after `from`.
pub fn find_byte(data: &[u8], from: usize, b: u8) -> (k: usize)
    requires
        from <= data@.len(),
    ensures
        k == from + position(data@.skip(from as int), b),
        from <= k <= data@.len(),
{
    let mut i: usize = from;
    while i < data.len() && data[i] != b
        invariant
            from <= i <= data@.len(),
            forall|j: int| from <= j < i ==> data@[j] != b,
        decreases data@.len() - i,
    {
        i += 1;
    }
    proof {
        lemma_position_is(data@.skip(from as int), b, i - from);
    }
    i
}

/// The leading part of `data` up to and including the first `delimiter`, where
/// `data` holds one.
pub open spec fn piece(data: Seq<u8>, delimiter: u8) -> Option<Seq<u8>> {
    let k = position(data, delimiter);
    if k < data.len() {
        Some(data.subrange(0, k + 1))
    } else {
        None
    }
}

/// A line without its ending: one line feed is taken from the end, then one
/// carriage return.
pub open spec fn trim_line_end(line: Seq<u8>) -> Seq<u8> {
    let a = if line.len() > 0 && line.last() == LF {
        line.drop_last()
    } else {
        line
    };
    if a.len() > 0 && a.last() == CR {
        a.drop_last()
    } else {
        a
    }
}

/// The length of `line` without its ending.
pub fn trimmed_len(line: &[u8]) -> (n: usize)
    ensures
        n <= line@.len(),
        line@.subrange(0, n as int) == trim_line_end(line@),
{
    let mut n: usize = line.len();
    if n > 0 && line[n - 1] == LF {
        n -= 1;
    }
    proof {
        let a = if line@.len() > 0 && line@.last() == LF {
            line@.drop_last()
        } else {
            line@
        };
        assert(a =~= line@.subrange(0, n as int));
    }
    if n > 0 && line[n - 1] == CR {
        n -= 1;
    }
    proof {
        assert(line@.subrange(0, n as int) =~= trim_line_end(line@));
    }
    n
}

/// Whether a byte is a decimal digit.
pub open spec fn is_digit(b: u8) -> bool {
    0x30 <= b <= 0x39
}

/// The digit that stands for `d`, for `d` below ten.
pub open spec fn digit(d: nat) -> u8 {
    (0x30 + d) as u8
}

/// The decimal digits of `n`, without leading zeros.
pub open spec fn decimal(n: nat) -> Seq<u8>
    decreases n,
{
    if n < 10 {
        seq![digit(n)]
    } else {
        decimal(n / 10).push(digit(n % 10))
    }
}

/// The decimal form of an integer: a minus sign before the digits of a
/// negative one.
pub open spec fn signed_decimal(i: int) -> Seq<u8> {
    if i < 0 {
        seq![MINUS] + decimal((-i) as nat)
    } else {
        decimal(i as nat)
    }
}

/// The number that a string of digits denotes.
pub open spec fn digits_value(s: Seq<u8>) -> nat
    decreases s.len(),
{
    if s.len() == 0 {
        0
    } else {
        10 * digits_value(s.drop_last()) + (s.last() - 0x30) as nat
    }
}

/// Whether every byte is a decimal digit.
pub open spec fn all_digits(s: Seq<u8>) -> bool {
    forall|i: int| 0 <= i < s.len() ==> is_digit(#[trigger] s[i])
}

/// The non-negative number that `s` denotes: at least one digit, after an
/// optional plus sign. Anything else denotes none.
pub open spec fn parse_decimal(s: Seq<u8>) -> Option<nat> {
    let digits = if s.len() > 0 && s[0] == PLUS {
        s.drop_first()
    } else {
        s
    };
    if digits.len() > 0 && all_digits(digits) {
        Some(digits_value(digits))
    } else {
        None
    }
}

/// The digits of a number are digits, and they denote the number.
pub proof fn lemma_decimal_digits(n: nat)
    ensures
        decimal(n).len() > 0,
        all_digits(decimal(n)),
        digits_value(decimal(n)) == n,
        parse_decimal(decimal(n)) == Some(n),
    decreases n,
{
    if n < 10 {
        let s = decimal(n);
        assert(s.drop_last().len() == 0);
        assert(digits_value(s.drop_last()) == 0);
        assert(s.last() == digit(n));
        assert(digits_value(s) == n);
    } else {
        lemma_decimal_digits(n / 10);
        let s = decimal(n);
        assert(s.drop_last() =~= decimal(n / 10));
        assert(digits_value(s) == n);
    }
    assert(is_digit(decimal(n)[0]));
}

/// Appends the decimal digits of `n`.
pub fn write_decimal(out: &mut Vec<u8>, n: u64)
    ensures
        final(out)@ == old(out)@ + decimal(n as nat),
    decreases n,
{
    if n >= 10 {
        write_decimal(out, n / 10);
    }
    out.push(0x30 + (n % 10) as u8);
    proof {
        assert(final(out)@ =~= old(out)@ + decimal(n as nat));
    }
}

/// Appends the decimal form of `i`.
pub fn write_signed_decimal(out: &mut Vec<u8>, i: i64)
    ensures
        final(out)@ == old(out)@ + signed_decimal(i as int),
{
    if i < 0 {
        out.push(MINUS);
        let magnitude: u64 = if i == i64::MIN {
            0x8000_0000_0000_0000
        } else {
            (-i) as u64
        };
        write_decimal(out, magnitude);
        proof {
            assert(final(out)@ =~= old(out)@ + signed_decimal(i as int));
        }
    } else {
        write_decimal(out, i as u64);
    }
}

/// The length that `s` denotes: a decimal number that fits the machine word.
pub open spec fn parse_length(s: Seq<u8>) -> Option<usize> {
    match parse_decimal(s) {
        Some(n) => if n <= usize::MAX {
            Some(n as usize)
        } else {
            None
        },
        None => None,
    }
}

/// A string of digits denotes no less than any of its leading parts.
pub proof fn lemma_digits_value_grows(s: Seq<u8>, k: int)
    requires
        0 <= k <= s.len(),
    ensures
        digits_value(s.take(k)) <= digits_value(s),
    decreases s.len(),
{
    if k == s.len() {
        assert(s.take(k) =~= s);
    } else {
        assert(s.take(k) =~= s.drop_last().take(k));
        lemma_digits_value_grows(s.drop_last(), k);
    }
}

/// Reads a length: at least one decimal digit after an optional plus sign,
/// denoting a number that fits the machine word.
pub fn read_length(text: &[u8]) -> (r: Option<usize>)
    ensures
        r == parse_length(text@),
{
    let start: usize = if text.len() > 0 && text[0] == PLUS {
        1
    } else {
        0
    };
    let ghost digits = if text@.len() > 0 && text@[0] == PLUS {
        text@.drop_first()
    } else {
        text@
    };
    proof {
        assert(digits =~= text@.skip(start as int));
    }
    if start == text.len() {
        return None;
    }
    let mut value: usize = 0;
    let mut i: usize = start;
    while i < text.len()
        invariant
            start <= i <= text@.len(),
            digits == text@.skip(start as int),
            digits == if text@.len() > 0 && text@[0] == PLUS {
                text@.drop_first()
            } else {
                text@
            },
            all_digits(digits.take(i - start)),
            value == digits_value(digits.take(i - start)),
        decreases text@.len() - i,
    {
        let b = text[i];
        if b < 0x30 || b > 0x39 {
            proof {
                assert(!is_digit(digits[i - start]));
            }
            return None;
        }
        let ghost next = digits.take(i - start + 1);
        proof {
            assert(next.drop_last() =~= digits.take(i - start));
            assert(next.last() == b);
            assert forall|j: int| 0 <= j < next.len() implies is_digit(#[trigger] next[j]) by {
                if j < i - start {
                    assert(next[j] == digits.take(i - start)[j]);
                }
            }
            lemma_digits_value_grows(digits, i - start + 1);
        }
        let tens = match value.checked_mul(10) {
            Some(t) => t,
            None => {
                return None;
            },
        };
        value = match tens.checked_add((b - 0x30) as usize) {
            Some(v) => v,
            None => {
                return None;
            },
        };
        i += 1;
    }
    proof {
        assert(digits.take(i - start) =~= digits);
    }
    Some(value)
}

/// Appends `bytes` to `out`.
pub fn append_bytes(out: &mut Vec<u8>, bytes: &[u8])
    ensures
        final(out)@ == old(out)@ + bytes@,
{
    let mut i: usize = 0;
    while i < bytes.len()
        invariant
            i <= bytes@.len(),
            out@ == old(out)@ + bytes@.take(i as int),
        decreases bytes@.len() - i,
    {
        out.push(bytes[i]);
        i += 1;
        proof {
            assert(out@ =~= old(out)@ + bytes@.take(i as int));
        }
    }
    proof {
        assert(bytes@.take(i as int) =~= bytes@);
    }
}

/// Whether every byte is an ASCII character.
pub open spec fn is_ascii(s: Seq<u8>) -> bool {
    forall|i: int| 0 <= i < s.len() ==> #[trigger] s[i] < 0x80
}

/// A string of ASCII characters is well-formed UTF-8.
pub proof fn lemma_ascii_is_utf8(s: Seq<u8>)
    requires
        is_ascii(s),
    ensures
        vstd::utf8::valid_utf8(s),
{
    assert(vstd::utf8::partial_valid_utf8(s, 0)) by {
        assert(s.subrange(0, 0).len() == 0);
    }
    assert forall|i: int| 0 <= 0 <= i < s.len() <= s.len() implies #[trigger]
        vstd::utf8::is_leading_byte_width_1(s[i]) by {}
    vstd::utf8::partial_valid_utf8_extend_ascii_block(s, 0, s.len() as int);
    assert(s.subrange(0, s.len() as int) =~= s);
}

/// The decimal form of an integer is ASCII.
pub proof fn lemma_decimal_is_ascii(i: int)
    ensures
        is_ascii(signed_decimal(i)),
        i >= 0 ==> is_ascii(decimal(i as nat)),
{
    let d = decimal(if i >= 0 { i as nat } else { (-i) as nat });
    lemma_decimal_digits(if i >= 0 { i as nat } else { (-i) as nat });
    assert forall|j: int| 0 <= j < d.len() implies #[trigger] d[j] < 0x80 by {
        assert(is_digit(d[j]));
    }
    if i < 0 {
        let s = signed_decimal(i);
        assert forall|j: int| 0 <= j < s.len() implies #[trigger] s[j] < 0x80 by {
            if j > 0 {
                assert(s[j] == d[j - 1]);
            }
        }
    }
}

/// Reads bytes as text. `core::str::from_utf8` accepts exactly the byte
/// strings that are well-formed UTF-8, and the string slice it gives holds the
/// characters that they encode.
#[verifier::external_body]
pub(crate) fn text_of<'a>(bytes: &'a [u8]) -> (r: Option<&'a str>)
    ensures
        r is Some <==> vstd::utf8::valid_utf8(bytes@),
        r matches Some(s) ==> s@ == vstd::utf8::decode_utf8(bytes@),
{
    core::str::from_utf8(bytes).ok()
}

/// Puts text in upper case. `str::to_uppercase` gives the upper-case form
/// that Unicode defines, which on ASCII text changes the letters `a` to `z`
/// into `A` to `Z` and nothing else.
#[verifier::external_body]
pub(crate) fn upper_case_of(text: &str) -> (r: String)
    ensures
        vstd::utf8::is_ascii_chars(text@) ==> r@ == ascii_upper_text(text@),
        !vstd::utf8::is_ascii_chars(text@) ==> r@ == upper_case(text@),
{
    text.to_uppercase()
}

/// Whether bytes are text, which is well-formed UTF-8.
pub fn is_text(bytes: &[u8]) -> (r: bool)
    ensures
        r == vstd::utf8::valid_utf8(bytes@),
{
    text_of(bytes).is_some()
}

} // verus!
