//! Base64, UTF-8 and percent notation.

use vstd::prelude::*;
use vstd::string::*;
use vstd::utf8::{decode_utf8, encode_utf8, valid_utf8};
use base64::Engine;
use crate::text::opt_view;

verus! {

broadcast use vstd::string::group_string_axioms;

// ---------------------------------------------------------------------------
// Base64
// ---------------------------------------------------------------------------

/// The character that stands for six bits in standard Base64.
pub open spec fn base64_char(bits: int) -> char {
    if bits < 26 {
        ('A' as int + bits) as char
    } else if bits < 52 {
        ('a' as int + (bits - 26)) as char
    } else if bits < 62 {
        ('0' as int + (bits - 52)) as char
    } else if bits == 62 {
        '+'
    } else {
        '/'
    }
}

/// The standard Base64 text of a sequence of bytes: four characters for each three
/// bytes, the last four filled up with equals signs.
pub open spec fn base64_text(bytes: Seq<u8>) -> Seq<char>
    decreases bytes.len(),
{
    if bytes.len() == 0 {
        Seq::empty()
    } else {
        let a = bytes[0] as int;
        let first = base64_char(a / 4);
        if bytes.len() == 1 {
            seq![first, base64_char(a % 4 * 16), '=', '=']
        } else {
            let b = bytes[1] as int;
            let second = base64_char(a % 4 * 16 + b / 16);
            if bytes.len() == 2 {
                seq![first, second, base64_char(b % 16 * 4), '=']
            } else {
                let c = bytes[2] as int;
                seq![first, second, base64_char(b % 16 * 4 + c / 64), base64_char(c % 64)]
                    + base64_text(bytes.skip(3))
            }
        }
    }
}

/// What takes four thirds of its length can still be held.
pub open spec fn base64_fits(len: int) -> bool {
    4 * (len / 3 + 1) <= isize::MAX
}

/// `base64::Engine::encode` of the engine `STANDARD`: the standard Base64 text
/// of the bytes, with padding.
#[verifier::external_body]
fn encode_standard(bytes: &[u8]) -> (r: String)
    requires
        base64_fits(bytes@.len() as int),
    ensures
        r@ == base64_text(bytes@),
{
    base64::engine::general_purpose::STANDARD.encode(bytes)
}

/// The standard Base64 text of a sequence of bytes.
pub fn to_base64(bytes: &[u8]) -> (r: String)
    requires
        base64_fits(bytes@.len() as int),
    ensures
        r@ == base64_text(bytes@),
{
    encode_standard(bytes)
}

/// The bytes that a URL-safe Base64 text without padding stands for.
pub uninterp spec fn url_base64_unpadded(text: Seq<u8>) -> Option<Seq<u8>>;

/// The bytes that a URL-safe Base64 text with padding stands for.
pub uninterp spec fn url_base64_padded(text: Seq<u8>) -> Option<Seq<u8>>;

/// The bytes of an optional list.
pub open spec fn opt_bytes(bytes: Option<Vec<u8>>) -> Option<Seq<u8>> {
    match bytes {
        Some(b) => Some(b@),
        None => None,
    }
}

/// `base64::Engine::decode` of the engine `URL_SAFE_NO_PAD`: the bytes that the
/// text stands for, if it is URL-safe Base64 without padding.
#[verifier::external_body]
fn decode_unpadded(text: &[u8]) -> (r: Option<Vec<u8>>)
    ensures
        opt_bytes(r) == url_base64_unpadded(text@),
{
    base64::engine::general_purpose::URL_SAFE_NO_PAD.decode(text).ok()
}

/// `base64::Engine::decode` of the engine `URL_SAFE`: the bytes that the text
/// stands for, if it is URL-safe Base64 with padding.
#[verifier::external_body]
fn decode_padded(text: &[u8]) -> (r: Option<Vec<u8>>)
    ensures
        opt_bytes(r) == url_base64_padded(text@),
{
    base64::engine::general_purpose::URL_SAFE.decode(text).ok()
}

/// `String::from_utf8`: the text of the bytes, if they are UTF-8.
#[verifier::external_body]
fn from_utf8(bytes: Vec<u8>) -> (r: Option<String>)
    ensures
        opt_view(r) == utf8_text(bytes@),
{
    String::from_utf8(bytes).ok()
}

/// The text that bytes in UTF-8 write.
pub open spec fn utf8_text(bytes: Seq<u8>) -> Option<Seq<char>> {
    if valid_utf8(bytes) {
        Some(decode_utf8(bytes))
    } else {
        None
    }
}

/// The bytes that a URL-safe Base64 text stands for, read without padding, or
/// else with padding.
pub open spec fn url_base64_bytes(data: Seq<char>) -> Option<Seq<u8>> {
    match url_base64_unpadded(encode_utf8(data)) {
        Some(bytes) => Some(bytes),
        None => url_base64_padded(encode_utf8(data)),
    }
}

/// The text of decoded bytes, if there are any and they are UTF-8.
pub open spec fn body_text(bytes: Option<Seq<u8>>) -> Option<Seq<char>> {
    match bytes {
        Some(b) => utf8_text(b),
        None => None,
    }
}

/// The text that a URL-safe Base64 text stands for.
pub fn decode_body(data: &str) -> (r: Option<String>)
    ensures
        opt_view(r) == body_text(url_base64_bytes(data@)),
{
    let bytes: &[u8] = data.as_bytes();
    match decode_unpadded(bytes) {
        Some(decoded) => decoded_text(Some(decoded)),
        None => decoded_text(decode_padded(bytes)),
    }
}

/// The text of decoded bytes, if there are any and they are UTF-8.
pub fn decoded_text(bytes: Option<Vec<u8>>) -> (r: Option<String>)
    ensures
        opt_view(r) == body_text(opt_bytes(bytes)),
{
    match bytes {
        Some(b) => from_utf8(b),
        None => None,
    }
}

// ---------------------------------------------------------------------------
// Percent notation
// ---------------------------------------------------------------------------

/// The value of a hexadecimal digit.
pub open spec fn hex_value(b: u8) -> Option<u8> {
    if 0x30 <= b <= 0x39 {
        Some((b - 0x30) as u8)
    } else if 0x41 <= b <= 0x46 {
        Some((b - 0x41 + 10) as u8)
    } else if 0x61 <= b <= 0x66 {
        Some((b - 0x61 + 10) as u8)
    } else {
        None
    }
}

/// The byte that two characters write in hexadecimal notation; the first may be
/// a plus sign.
pub open spec fn hex_pair(a: u8, b: u8) -> Option<u8> {
    match (hex_value(a), hex_value(b)) {
        (Some(x), Some(y)) => Some((x * 16 + y) as u8),
        (None, Some(y)) => if a == 0x2b {
            Some(y)
        } else {
            None
        },
        _ => None,
    }
}

/// `b` starts with a percent sign and two characters that write a byte.
pub open spec fn starts_with_escape(b: Seq<u8>) -> bool {
    b.len() >= 3 && b[0] == 0x25 && hex_pair(b[1], b[2]) is Some
}

/// The bytes with every percent escape written as the byte that it stands for.
pub open spec fn unescaped(b: Seq<u8>) -> Seq<u8>
    decreases b.len(),
{
    if b.len() == 0 {
        Seq::empty()
    } else if starts_with_escape(b) {
        seq![hex_pair(b[1], b[2])->0] + unescaped(b.skip(3))
    } else {
        seq![b[0]] + unescaped(b.skip(1))
    }
}

/// The text of bytes, with whatever is not UTF-8 replaced.
pub uninterp spec fn utf8_lossy(bytes: Seq<u8>) -> Seq<char>;

/// `String::from_utf8_lossy`: the text of the bytes; bytes that are UTF-8 give
/// the text that they write.
#[verifier::external_body]
fn from_utf8_lossy(bytes: &[u8]) -> (r: String)
    ensures
        r@ == utf8_lossy(bytes@),
        valid_utf8(bytes@) ==> r@ == decode_utf8(bytes@),
{
    String::from_utf8_lossy(bytes).into_owned()
}

/// The value of a hexadecimal digit.
fn hex_digit(b: u8) -> (r: Option<u8>)
    ensures
        r == hex_value(b),
{
    if 0x30 <= b && b <= 0x39 {
        Some(b - 0x30)
    } else if 0x41 <= b && b <= 0x46 {
        Some(b - 0x41 + 10)
    } else if 0x61 <= b && b <= 0x66 {
        Some(b - 0x61 + 10)
    } else {
        None
    }
}

/// The byte that two characters write in hexadecimal notation.
fn hex_byte(a: u8, b: u8) -> (r: Option<u8>)
    ensures
        r == hex_pair(a, b),
{
    match (hex_digit(a), hex_digit(b)) {
        (Some(x), Some(y)) => Some(x * 16 + y),
        (None, Some(y)) => if a == 0x2b {
            Some(y)
        } else {
            None
        },
        _ => None,
    }
}

/// A text with every percent escape written as the byte that it stands for.
pub fn percent_decode(value: &str) -> (r: String)
    ensures
        r@ == utf8_lossy(unescaped(encode_utf8(value@))),
        valid_utf8(unescaped(encode_utf8(value@))) ==> r@ == decode_utf8(
            unescaped(encode_utf8(value@)),
        ),
{
    let bytes: &[u8] = value.as_bytes();
    let ghost b = encode_utf8(value@);
    let n: usize = bytes.len();
    let mut out: Vec<u8> = Vec::new();
    let mut i: usize = 0;
    assert(b.skip(0) =~= b);
    while i < n
        invariant
            bytes@ == b,
            n == b.len(),
            i <= n,
            unescaped(b) =~= out@ + unescaped(b.skip(i as int)),
        decreases n - i,
    {
        let ghost rest = b.skip(i as int);
        if bytes[i] == 0x25 && n - i >= 3 {
            match hex_byte(bytes[i + 1], bytes[i + 2]) {
                Some(byte) => {
                    assert(rest.skip(3) =~= b.skip(i + 3));
                    out.push(byte);
                    i += 3;
                    continue ;
                },
                None => {},
            }
        }
        assert(rest.skip(1) =~= b.skip(i + 1));
        out.push(bytes[i]);
        i += 1;
    }
    from_utf8_lossy(out.as_slice())
}

// ---------------------------------------------------------------------------
// Laws
// ---------------------------------------------------------------------------

/// A body is read without padding, or else with it, and is the text that its bytes
/// write, where they write one.
pub proof fn law_bodies_are_read_both_ways(data: Seq<char>)
    ensures
        ({
            let bytes = encode_utf8(data);
            let text = body_text(url_base64_bytes(data));
            &&& url_base64_unpadded(bytes) is Some ==> text == utf8_text(
                url_base64_unpadded(bytes)->0,
            )
            &&& url_base64_unpadded(bytes) is None && url_base64_padded(bytes) is Some ==> text
                == utf8_text(url_base64_padded(bytes)->0)
            &&& url_base64_unpadded(bytes) is None && url_base64_padded(bytes) is None ==> text
                is None
        }),
        forall|bytes: Seq<u8>|
            valid_utf8(bytes) ==> #[trigger] utf8_text(bytes) == Some(decode_utf8(bytes)),
        forall|bytes: Seq<u8>| !valid_utf8(bytes) ==> #[trigger] utf8_text(bytes) is None,
{
}

/// Every three bytes make four characters of Base64, one behind the other, and only
/// what is left over at the end is filled up.
pub proof fn law_base64_goes_by_threes(a: Seq<u8>, b: Seq<u8>)
    requires
        a.len() % 3 == 0,
    ensures
        base64_text(a + b) == base64_text(a) + base64_text(b),
        base64_text(a).len() == a.len() / 3 * 4,
        base64_text(b).len() == (b.len() + 2) / 3 * 4,
    decreases a.len(),
{
    lemma_base64_len(a);
    lemma_base64_len(b);
    if a.len() == 0 {
        assert(a + b =~= b);
        assert(base64_text(a) + base64_text(b) =~= base64_text(b));
    } else {
        law_base64_goes_by_threes(a.skip(3), b);
        assert((a + b).skip(3) =~= a.skip(3) + b);
        assert(base64_text(a + b) =~= base64_text(a) + base64_text(b));
    }
}

/// How long Base64 is.
proof fn lemma_base64_len(b: Seq<u8>)
    ensures
        base64_text(b).len() == (b.len() + 2) / 3 * 4,
    decreases b.len(),
{
    if b.len() > 2 {
        lemma_base64_len(b.skip(3));
    }
}

/// The six bits that a character of standard Base64 stands for.
pub open spec fn base64_bits(c: char) -> int {
    if 'A' <= c <= 'Z' {
        c as int - 65
    } else if 'a' <= c <= 'z' {
        c as int - 97 + 26
    } else if '0' <= c <= '9' {
        c as int - 48 + 52
    } else if c == '+' {
        62
    } else {
        63
    }
}

/// Three bytes are found again in the four characters that are written for them, and
/// so are one and two.
pub proof fn law_base64_is_read_back(a: u8, b: u8, c: u8)
    ensures
        ({
            let t = base64_text(seq![a, b, c]);
            &&& t.len() == 4
            &&& base64_bits(t[0]) * 4 + base64_bits(t[1]) / 16 == a
            &&& base64_bits(t[1]) % 16 * 16 + base64_bits(t[2]) / 4 == b
            &&& base64_bits(t[2]) % 4 * 64 + base64_bits(t[3]) == c
        }),
        ({
            let t = base64_text(seq![a, b]);
            &&& t.len() == 4 && t[3] == '='
            &&& base64_bits(t[0]) * 4 + base64_bits(t[1]) / 16 == a
            &&& base64_bits(t[1]) % 16 * 16 + base64_bits(t[2]) / 4 == b
        }),
        ({
            let t = base64_text(seq![a]);
            &&& t.len() == 4 && t[2] == '=' && t[3] == '='
            &&& base64_bits(t[0]) * 4 + base64_bits(t[1]) / 16 == a
        }),
{
    reveal_with_fuel(base64_text, 2);
    let (x, y, z) = (a as int, b as int, c as int);
    lemma_bits(x / 4);
    lemma_bits(x % 4 * 16 + y / 16);
    lemma_bits(x % 4 * 16);
    lemma_bits(y % 16 * 4 + z / 64);
    lemma_bits(y % 16 * 4);
    lemma_bits(z % 64);
    let three = base64_text(seq![a, b, c]);
    assert(seq![a, b, c].skip(3) =~= Seq::empty());
    assert(three =~= seq![
        base64_char(x / 4),
        base64_char(x % 4 * 16 + y / 16),
        base64_char(y % 16 * 4 + z / 64),
        base64_char(z % 64),
    ]);
}

/// Six bits are found again in their character.
proof fn lemma_bits(bits: int)
    requires
        0 <= bits < 64,
    ensures
        base64_bits(base64_char(bits)) == bits,
{
}

/// An escape is written as its byte, any other byte as it is, from the left.
pub proof fn law_escapes_are_written_out(b: Seq<u8>, rest: Seq<u8>, high: u8, low: u8)
    ensures
        unescaped(Seq::empty()) == Seq::<u8>::empty(),
        hex_value(high) is Some && hex_value(low) is Some ==> unescaped(
            seq![0x25u8, high, low] + rest,
        ) == seq![(hex_value(high)->0 * 16 + hex_value(low)->0) as u8] + unescaped(rest),
        b.len() > 0 && b[0] != 0x25 ==> unescaped(b) == seq![b[0]] + unescaped(b.skip(1)),
        (forall|i: int| 0 <= i < b.len() ==> #[trigger] b[i] != 0x25) ==> unescaped(b) == b,
    decreases b.len(),
{
    let s = seq![0x25u8, high, low] + rest;
    assert(s.skip(3) =~= rest);
    if b.len() > 0 && (forall|i: int| 0 <= i < b.len() ==> #[trigger] b[i] != 0x25) {
        let tail = b.skip(1);
        assert forall|i: int| 0 <= i < tail.len() implies #[trigger] tail[i] != 0x25 by {
            assert(tail[i] == b[i + 1]);
        }
        law_escapes_are_written_out(tail, rest, high, low);
        assert(b[0] != 0x25);
        assert(unescaped(b) =~= b);
    }
}

/// A hexadecimal digit counts from 0 to 15, in upper and lower case.
pub proof fn law_hexadecimal_digits(b: u8)
    ensures
        48 <= b <= 57 ==> hex_value(b) == Some((b - 48) as u8),
        65 <= b <= 70 ==> hex_value(b) == Some((b - 55) as u8),
        97 <= b <= 102 ==> hex_value(b) == Some((b - 87) as u8),
        hex_value(b) is Some ==> 48 <= b <= 57 || 65 <= b <= 70 || 97 <= b <= 102,
{
}

/// What fits can be written: its Base64 text is no longer than a text can be.
pub proof fn law_what_fits_can_be_written(bytes: Seq<u8>)
    requires
        base64_fits(bytes.len() as int),
    ensures
        base64_text(bytes).len() == (bytes.len() + 2) / 3 * 4,
        base64_text(bytes).len() <= isize::MAX,
{
    lemma_base64_len(bytes);
}

} // verus!
