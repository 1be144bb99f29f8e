//! Text and bytes: comparing strings, and turning wire bytes into text.

use vstd::prelude::*;
use vstd::string::StringSliceAdditionalSpecFns;
use vstd::utf8::{
    decode_utf8, encode_utf8, encode_utf8_decode_utf8, encode_utf8_valid_utf8, is_ascii_chars,
    is_ascii_chars_encode_utf8, valid_utf8,
};

verus! {

/// The text that `String::from_utf8_lossy` makes of `bytes`.
pub uninterp spec fn spec_utf8_lossy(bytes: Seq<u8>) -> Seq<char>;

/// Whether every byte is below 128.
pub open spec fn is_ascii_bytes(bytes: Seq<u8>) -> bool {
    forall|i: int| 0 <= i < bytes.len() ==> #[trigger] bytes[i] < 128
}

/// The characters that ASCII bytes stand for, one for each byte.
pub open spec fn ascii_text(bytes: Seq<u8>) -> Seq<char> {
    Seq::new(bytes.len(), |i: int| bytes[i] as char)
}

/// ASCII bytes are valid UTF-8, and decode to one character for each byte.
pub proof fn lemma_ascii_is_utf8(bytes: Seq<u8>)
    requires
        is_ascii_bytes(bytes),
    ensures
        valid_utf8(bytes),
        decode_utf8(bytes) == ascii_text(bytes),
        encode_utf8(ascii_text(bytes)) == bytes,
{
    let chars = ascii_text(bytes);
    assert(is_ascii_chars(chars)) by {
        assert forall|i: int| 0 <= i < chars.len() implies '\0' <= #[trigger] chars[i]
            <= '\u{7f}' by {
            assert(bytes[i] < 128);
        }
    }
    is_ascii_chars_encode_utf8(chars);
    assert(encode_utf8(chars) =~= bytes) by {
        assert forall|i: int| 0 <= i < bytes.len() implies encode_utf8(chars)[i] == bytes[i] by {
            assert(bytes[i] < 128);
            assert(chars[i] as u8 == bytes[i]);
        }
    }
    encode_utf8_valid_utf8(chars);
    encode_utf8_decode_utf8(chars);
}

/// Calls `String::from_utf8_lossy`, which decodes UTF-8 and puts U+FFFD in
/// place of each invalid sequence. The contract names the result, and says
/// that valid UTF-8 is decoded as it stands.
#[verifier::external_body]
pub(crate) fn utf8_lossy(bytes: &[u8]) -> (text: String)
    ensures
        text@ == spec_utf8_lossy(bytes@),
        valid_utf8(bytes@) ==> text@ == decode_utf8(bytes@),
{
    String::from_utf8_lossy(bytes).into_owned()
}

/// Whether two byte strings are equal.
pub fn bytes_eq(a: &[u8], b: &[u8]) -> (same: bool)
    ensures
        same == (a@ == b@),
{
    let n: usize = a.len();
    if n != b.len() {
        return false;
    }
    let mut i: usize = 0;
    while i < n
        invariant
            i <= n,
            n == a@.len(),
            n == b@.len(),
            forall|j: int| 0 <= j < i ==> a@[j] == b@[j],
        decreases n - i,
    {
        if a[i] != b[i] {
            return false;
        }
        i += 1;
    }
    assert(a@ =~= b@);
    true
}

/// Whether two strings hold the same characters.
pub fn str_eq(a: &str, b: &str) -> (same: bool)
    ensures
        same == (a@ == b@),
{
    proof {
        encode_utf8_decode_utf8(a@);
        encode_utf8_decode_utf8(b@);
    }
    bytes_eq(a.as_bytes(), b.as_bytes())
}

/// The lower-case form of an ASCII capital letter; any other byte as it is.
pub open spec fn ascii_lower_byte(b: u8) -> u8 {
    if 0x41 <= b <= 0x5A {
        (b + 0x20) as u8
    } else {
        b
    }
}

/// `bytes` with each ASCII capital letter in lower case.
pub open spec fn ascii_lower(bytes: Seq<u8>) -> Seq<u8> {
    Seq::new(bytes.len(), |i: int| ascii_lower_byte(bytes[i]))
}

/// Whether two strings are the same but for the case of their ASCII
/// letters.
pub fn eq_ignore_ascii_case(a: &str, b: &str) -> (same: bool)
    ensures
        same == (ascii_lower(a.spec_bytes()) == ascii_lower(b.spec_bytes())),
{
    let x: &[u8] = a.as_bytes();
    let y: &[u8] = b.as_bytes();
    let n: usize = x.len();
    if n != y.len() {
        assert(ascii_lower(x@).len() != ascii_lower(y@).len());
        return false;
    }
    let mut i: usize = 0;
    while i < n
        invariant
            i <= n,
            n == x@.len(),
            n == y@.len(),
            x@ == a.spec_bytes(),
            y@ == b.spec_bytes(),
            forall|j: int| 0 <= j < i ==> ascii_lower_byte(x@[j]) == ascii_lower_byte(y@[j]),
        decreases n - i,
    {
        let p: u8 = if 0x41 <= x[i] && x[i] <= 0x5A {
            x[i] + 0x20
        } else {
            x[i]
        };
        let q: u8 = if 0x41 <= y[i] && y[i] <= 0x5A {
            y[i] + 0x20
        } else {
            y[i]
        };
        if p != q {
            assert(ascii_lower(x@)[i as int] != ascii_lower(y@)[i as int]);
            return false;
        }
        i += 1;
    }
    assert(ascii_lower(x@) =~= ascii_lower(y@));
    true
}

/// The decimal digits of `n`, as ASCII bytes, without leading zeros.
pub open spec fn decimal_bytes(n: nat) -> Seq<u8>
    decreases n,
{
    if n < 10 {
        seq![(0x30 + n) as u8]
    } else {
        decimal_bytes(n / 10).push((0x30 + n % 10) as u8)
    }
}

/// The ASCII byte of a lowercase hexadecimal digit.
pub open spec fn hex_digit_byte(d: nat) -> u8 {
    if d < 10 {
        (0x30 + d) as u8
    } else {
        (0x57 + d) as u8
    }
}

/// The lowercase hexadecimal digits of `n`, as ASCII bytes, without leading
/// zeros.
pub open spec fn hex_bytes(n: nat) -> Seq<u8>
    decreases n,
{
    if n < 16 {
        seq![hex_digit_byte(n)]
    } else {
        hex_bytes(n / 16).push(hex_digit_byte(n % 16))
    }
}

/// Decimal digits are ASCII.
pub proof fn lemma_decimal_ascii(n: nat)
    ensures
        is_ascii_bytes(decimal_bytes(n)),
        decimal_bytes(n).len() >= 1,
    decreases n,
{
    if n >= 10 {
        lemma_decimal_ascii(n / 10);
    }
}

/// Hexadecimal digits are ASCII.
pub proof fn lemma_hex_ascii(n: nat)
    ensures
        is_ascii_bytes(hex_bytes(n)),
        hex_bytes(n).len() >= 1,
    decreases n,
{
    if n >= 16 {
        lemma_hex_ascii(n / 16);
    }
}

/// Two ASCII byte strings, one after the other, are ASCII.
pub proof fn lemma_ascii_concat(a: Seq<u8>, b: Seq<u8>)
    requires
        is_ascii_bytes(a),
        is_ascii_bytes(b),
    ensures
        is_ascii_bytes(a + b),
        ascii_text(a + b) == ascii_text(a) + ascii_text(b),
{
    assert forall|i: int| 0 <= i < (a + b).len() implies #[trigger] (a + b)[i] < 128 by {
        if i < a.len() {
            assert(a[i] < 128);
        } else {
            assert(b[i - a.len()] < 128);
        }
    }
    assert(ascii_text(a + b) =~= ascii_text(a) + ascii_text(b));
}

/// Appends the decimal digits of `n`.
pub fn push_decimal(out: &mut Vec<u8>, n: u64)
    ensures
        final(out)@ == old(out)@ + decimal_bytes(n as nat),
        is_ascii_bytes(old(out)@) ==> is_ascii_bytes(final(out)@),
    decreases n,
{
    if n >= 10 {
        push_decimal(out, n / 10);
    }
    out.push(0x30 + (n % 10) as u8);
    assert(out@ =~= old(out)@ + decimal_bytes(n as nat));
    proof {
        lemma_decimal_ascii(n as nat);
        if is_ascii_bytes(old(out)@) {
            lemma_ascii_concat(old(out)@, decimal_bytes(n as nat));
        }
    }
}

/// Appends the lowercase hexadecimal digits of `n`.
pub fn push_hex(out: &mut Vec<u8>, n: u16)
    ensures
        final(out)@ == old(out)@ + hex_bytes(n as nat),
        is_ascii_bytes(old(out)@) ==> is_ascii_bytes(final(out)@),
    decreases n,
{
    if n >= 16 {
        push_hex(out, n / 16);
    }
    let d: u8 = (n % 16) as u8;
    if d < 10 {
        out.push(0x30 + d);
    } else {
        out.push(0x57 + d);
    }
    assert(out@ =~= old(out)@ + hex_bytes(n as nat));
    proof {
        lemma_hex_ascii(n as nat);
        if is_ascii_bytes(old(out)@) {
            lemma_ascii_concat(old(out)@, hex_bytes(n as nat));
        }
    }
}

/// Appends one ASCII byte.
pub fn push_ascii(out: &mut Vec<u8>, b: u8)
    requires
        b < 128,
    ensures
        final(out)@ == old(out)@ + seq![b],
        is_ascii_bytes(old(out)@) ==> is_ascii_bytes(final(out)@),
{
    out.push(b);
    assert(out@ =~= old(out)@ + seq![b]);
    proof {
        if is_ascii_bytes(old(out)@) {
            assert(is_ascii_bytes(seq![b]));
            lemma_ascii_concat(old(out)@, seq![b]);
        }
    }
}

/// The text that ASCII bytes spell.
pub fn ascii_string(bytes: &[u8]) -> (text: String)
    requires
        is_ascii_bytes(bytes@),
    ensures
        text@ == ascii_text(bytes@),
{
    proof {
        lemma_ascii_is_utf8(bytes@);
    }
    utf8_lossy(bytes)
}

/// The decimal digits of `n`, as text.
pub open spec fn decimal_text(n: nat) -> Seq<char> {
    ascii_text(decimal_bytes(n))
}

/// The decimal digits of `n`, as text.
pub fn decimal_string(n: u64) -> (text: String)
    ensures
        text@ == decimal_text(n as nat),
{
    let mut digits: Vec<u8> = Vec::new();
    push_decimal(&mut digits, n);
    proof {
        lemma_decimal_ascii(n as nat);
        assert(digits@ =~= decimal_bytes(n as nat));
    }
    ascii_string(digits.as_slice())
}

} // verus!
