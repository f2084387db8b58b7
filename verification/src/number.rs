//! Numbers in decimal notation.

use vstd::prelude::*;
use vstd::string::*;
use crate::scan;

verus! {

broadcast use vstd::string::group_string_axioms;

/// The digit of a number below ten.
pub open spec fn digit_char(d: nat) -> char {
    ('0' as u32 + d) as char
}

/// A number in decimal notation, without leading zeros.
pub open spec fn decimal(n: nat) -> Seq<char>
    decreases n,
{
    if n < 10 {
        seq![digit_char(n)]
    } else {
        decimal(n / 10).push(digit_char(n % 10))
    }
}

/// `s` with as many zeros before it as make it `width` characters long.
pub open spec fn zero_padded(s: Seq<char>, width: nat) -> Seq<char> {
    if s.len() < width {
        Seq::new((width - s.len()) as nat, |i: int| '0') + s
    } else {
        s
    }
}

/// A character between `0` and `9`.
pub open spec fn is_digit(c: char) -> bool {
    '0' <= c <= '9'
}

/// Every character is a digit.
pub open spec fn all_digits(s: Seq<char>) -> bool {
    forall|i: int| 0 <= i < s.len() ==> is_digit(#[trigger] s[i])
}

/// The number that a sequence of digits writes.
pub open spec fn digits_value(s: Seq<char>) -> nat
    decreases s.len(),
{
    if s.len() == 0 {
        0
    } else {
        digits_value(s.drop_last()) * 10 + (s.last() as u32 - '0' as u32) as nat
    }
}

/// The natural number that `s` writes, with or without a plus sign.
pub open spec fn natural(s: Seq<char>) -> Option<nat> {
    let body = if s.len() > 0 && s[0] == '+' {
        s.skip(1)
    } else {
        s
    };
    if body.len() > 0 && all_digits(body) {
        Some(digits_value(body))
    } else {
        None
    }
}

/// The integer that `s` writes, with or without a sign.
pub open spec fn integer(s: Seq<char>) -> Option<int> {
    if s.len() > 0 && s[0] == '-' {
        if s.len() > 1 && all_digits(s.skip(1)) {
            Some(-(digits_value(s.skip(1)) as int))
        } else {
            None
        }
    } else {
        match natural(s) {
            Some(n) => Some(n as int),
            None => None,
        }
    }
}

/// Ten multiplied with itself `k` times.
pub open spec fn ten_to(k: nat) -> nat
    decreases k,
{
    if k == 0 {
        1
    } else {
        10 * ten_to((k - 1) as nat)
    }
}

/// A number below the `k`-th power of ten takes `k` digits at most.
pub proof fn lemma_decimal_len(n: nat, k: nat)
    requires
        0 < k,
        n < ten_to(k),
    ensures
        0 < decimal(n).len() <= k,
    decreases k,
{
    if n >= 10 {
        if k == 1 {
            assert(ten_to(0) == 1);
        }
        lemma_decimal_len(n / 10, (k - 1) as nat);
    }
}

/// `n` in decimal notation.
pub fn to_decimal(n: u64) -> (r: String)
    ensures
        r@ == decimal(n as nat),
    decreases n,
{
    let mut out: String = if n < 10 {
        String::new()
    } else {
        to_decimal(n / 10)
    };
    let d: u8 = (n % 10) as u8;
    scan::push_char(&mut out, ('0' as u8 + d) as char);
    assert(Seq::<char>::empty().push(digit_char((n % 10) as nat)) =~= seq![
        digit_char((n % 10) as nat),
    ]);
    out
}

/// `n` in decimal notation.
pub fn to_decimal_usize(n: usize) -> (r: String)
    ensures
        r@ == decimal(n as nat),
{
    to_decimal(n as u64)
}

/// `s` with zeros before it, `width` characters long at least.
pub fn zero_pad(s: &str, width: usize) -> (r: String)
    ensures
        r@ == zero_padded(s@, width as nat),
{
    let n: usize = s.unicode_len();
    let mut out: String = String::new();
    let mut i: usize = n;
    while i < width
        invariant
            n == s@.len(),
            n <= i,
            i <= width || i == n,
            out@ == Seq::new((i - n) as nat, |i: int| '0'),
        decreases width - i,
    {
        scan::push_char(&mut out, '0');
        i += 1;
        assert(out@ =~= Seq::new((i - n) as nat, |i: int| '0'));
    }
    out.append(s);
    out
}

/// Whether a character is a digit.
pub fn is_ascii_digit(c: char) -> (r: bool)
    ensures
        r == is_digit(c),
{
    '0' <= c && c <= '9'
}

/// The number that the characters from `start` on write, if all of them are
/// digits, there is one at least, and the number fits.
fn parse_digits(chars: &[char], start: usize) -> (r: Option<u64>)
    requires
        start <= chars@.len(),
    ensures
        ({
            let body = chars@.skip(start as int);
            match r {
                Some(v) => body.len() > 0 && all_digits(body) && digits_value(body) == v,
                None => body.len() == 0 || !all_digits(body) || digits_value(body) > u64::MAX,
            }
        }),
{
    let ghost body = chars@.skip(start as int);
    let mut value: u64 = 0;
    let mut over: bool = false;
    let mut i: usize = start;
    assert(body.take(0) =~= Seq::<char>::empty());
    while i < chars.len()
        invariant
            start <= i <= chars@.len(),
            body == chars@.skip(start as int),
            all_digits(body.take(i - start)),
            !over ==> digits_value(body.take(i - start)) == value,
            over ==> digits_value(body.take(i - start)) > u64::MAX,
        decreases chars@.len() - i,
    {
        let c: char = chars[i];
        assert(body[i - start] == c);
        if !is_ascii_digit(c) {
            return None;
        }
        let d: u64 = (c as u8 - '0' as u8) as u64;
        let ghost longer = body.take(i + 1 - start);
        assert(longer.drop_last() =~= body.take(i - start));
        assert(longer.last() == c);
        assert forall|k: int| 0 <= k < longer.len() implies is_digit(#[trigger] longer[k]) by {
            if k < i - start {
                assert(longer[k] == body.take(i - start)[k]);
            }
        }
        if !over {
            match value.checked_mul(10) {
                Some(t) => match t.checked_add(d) {
                    Some(u) => {
                        value = u;
                    },
                    None => {
                        over = true;
                    },
                },
                None => {
                    over = true;
                },
            }
        }
        i += 1;
    }
    assert(body.take(i - start) =~= body);
    if over || i == start {
        None
    } else {
        Some(value)
    }
}

/// The integer that `s` writes, if it fits.
pub fn parse_i64(s: &str) -> (r: Option<i64>)
    ensures
        match r {
            Some(v) => integer(s@) == Some(v as int),
            None => match integer(s@) {
                Some(v) => v < i64::MIN || v > i64::MAX,
                None => true,
            },
        },
{
    let chars: Vec<char> = scan::to_chars(s);
    if chars.len() > 0 && chars[0] == '-' {
        match parse_digits(chars.as_slice(), 1) {
            Some(v) => if v <= 0x7fff_ffff_ffff_ffff {
                Some(-(v as i64))
            } else if v == 0x8000_0000_0000_0000 {
                Some(i64::MIN)
            } else {
                None
            },
            None => None,
        }
    } else {
        match parse_natural(s) {
            Some(v) => if v <= 0x7fff_ffff_ffff_ffff {
                Some(v as i64)
            } else {
                None
            },
            None => None,
        }
    }
}

/// The natural number that `s` writes, if it fits.
pub fn parse_natural(s: &str) -> (r: Option<u64>)
    ensures
        match r {
            Some(v) => natural(s@) == Some(v as nat),
            None => match natural(s@) {
                Some(v) => v > u64::MAX,
                None => true,
            },
        },
{
    let chars: Vec<char> = scan::to_chars(s);
    assert(s@.skip(0) =~= s@);
    if chars.len() > 0 && chars[0] == '+' {
        parse_digits(chars.as_slice(), 1)
    } else {
        parse_digits(chars.as_slice(), 0)
    }
}

// ---------------------------------------------------------------------------
// Laws
// ---------------------------------------------------------------------------

/// A number that is written down is read back, and is written without leading
/// zeros, in digits only.
pub proof fn law_numbers_are_read_back(n: nat)
    ensures
        natural(decimal(n)) == Some(n),
        integer(decimal(n)) == Some(n as int),
        natural(seq!['+'] + decimal(n)) == Some(n),
        integer(seq!['-'] + decimal(n)) == Some(-(n as int)),
        decimal(n).len() > 0,
        all_digits(decimal(n)),
        n > 0 ==> decimal(n)[0] != '0',
        n == 0 ==> decimal(n) == seq!['0'],
{
    lemma_decimal(n);
    assert((seq!['+'] + decimal(n)).skip(1) =~= decimal(n));
    assert((seq!['-'] + decimal(n)).skip(1) =~= decimal(n));
    assert(is_digit(decimal(n)[0]));
}

/// What a written number is.
proof fn lemma_decimal(n: nat)
    ensures
        decimal(n).len() > 0,
        all_digits(decimal(n)),
        digits_value(decimal(n)) == n,
        n > 0 ==> decimal(n)[0] != '0',
    decreases n,
{
    reveal_with_fuel(digits_value, 2);
    if n >= 10 {
        let more = decimal(n / 10);
        lemma_decimal(n / 10);
        let all = decimal(n);
        assert(all.drop_last() =~= more);
        assert forall|i: int| 0 <= i < all.len() implies is_digit(#[trigger] all[i]) by {
            if i < more.len() {
                assert(all[i] == more[i]);
            }
        }
        assert(all[0] == more[0]);
    } else {
        assert(decimal(n).drop_last() =~= Seq::empty());
    }
}

/// Each digit of a number counts ten times what the one behind it counts, and a text
/// with anything but digits, or without any, is no number.
pub proof fn law_digits_count_in_tens(s: Seq<char>, c: char)
    ensures
        is_digit(c) ==> digits_value(s.push(c)) == 10 * digits_value(s) + (c as u32 - 48),
        all_digits(s) && s.len() > 0 ==> natural(s) == Some(digits_value(s)),
        natural(Seq::empty()) is None,
        natural(s) is Some ==> s.len() > 0 && (all_digits(s) || (s[0] == '+' && s.len() > 1
            && all_digits(s.skip(1)))),
        integer(s) is Some && natural(s) is None ==> s[0] == '-',
{
    assert(s.push(c).drop_last() =~= s);
    if all_digits(s) && s.len() > 0 {
        assert(is_digit(s[0]));
    }
}

/// A text is filled up with zeros at its start to a width, and loses nothing.
pub proof fn law_zeros_fill_up(s: Seq<char>, width: nat)
    ensures
        s.len() >= width ==> zero_padded(s, width) == s,
        s.len() < width ==> {
            &&& zero_padded(s, width).len() == width
            &&& zero_padded(s, width).skip(width - s.len()) == s
            &&& forall|i: int| 0 <= i < width - s.len() ==> #[trigger] zero_padded(s, width)[i] == '0'
        },
{
    if s.len() < width {
        assert(zero_padded(s, width).skip(width - s.len()) =~= s);
    }
}

} // verus!
