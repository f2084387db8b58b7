//! The executable text operations, each proved against its meaning in `text`.

use vstd::prelude::*;
use vstd::string::*;
use crate::text;
use crate::text::{opt_str_view, views};

verus! {

broadcast use vstd::string::group_string_axioms;

/// `String::push`: the character is appended to the string.
#[verifier::external_body]
pub(crate) fn push_char(s: &mut String, c: char)
    ensures
        final(s)@ == old(s)@.push(c),
{
    s.push(c)
}

/// The characters of a string slice.
pub fn to_chars(s: &str) -> (r: Vec<char>)
    ensures
        r@ == s@,
{
    let mut r: Vec<char> = Vec::new();
    for c in it: s.chars()
        invariant
            r@ == it.seq().take(it.index() as int),
            it.seq() == s@,
    {
        r.push(c);
    }
    r
}

/// The string of a sequence of characters.
pub fn to_text(chars: &[char]) -> (r: String)
    ensures
        r@ == chars@,
{
    let mut r: String = String::new();
    let mut i: usize = 0;
    while i < chars.len()
        invariant
            i <= chars@.len(),
            r@ == chars@.take(i as int),
        decreases chars@.len() - i,
    {
        push_char(&mut r, chars[i]);
        i += 1;
        assert(chars@.take(i as int) =~= chars@.take(i - 1).push(chars@[i - 1]));
    }
    assert(chars@.take(i as int) =~= chars@);
    r
}

/// Whether two texts hold the same characters.
pub fn same(a: &str, b: &str) -> (r: bool)
    ensures
        r == (a@ == b@),
{
    let x: Vec<char> = to_chars(a);
    let y: Vec<char> = to_chars(b);
    if x.len() != y.len() {
        return false;
    }
    let r: bool = occurs(x.as_slice(), y.as_slice(), 0);
    assert(x@.subrange(0, y@.len() as int) =~= x@);
    r
}

/// Whether `pat` stands in `hay` at position `i`.
fn occurs(hay: &[char], pat: &[char], i: usize) -> (r: bool)
    requires
        i + pat@.len() <= hay@.len(),
    ensures
        r == text::occurs_at(hay@, pat@, i as int),
{
    let n: usize = hay.len();
    let mut k: usize = 0;
    while k < pat.len()
        invariant
            n == hay@.len(),
            k <= pat@.len(),
            i + pat@.len() <= n,
            forall|j: int| 0 <= j < k ==> hay@[i + j] == pat@[j],
        decreases pat@.len() - k,
    {
        if hay[i + k] != pat[k] {
            assert(hay@.subrange(i as int, i + pat@.len())[k as int] != pat@[k as int]);
            return false;
        }
        k += 1;
    }
    assert(hay@.subrange(i as int, i + pat@.len()) =~= pat@);
    true
}

/// The first position at or after `start` at which `pat` stands in `hay`.
pub fn find_chars(hay: &[char], pat: &[char], start: usize) -> (r: Option<usize>)
    ensures
        text::find_from(hay@, pat@, start as int) == (match r {
            Some(i) => Some(i as int),
            None => None,
        }),
{
    if pat.len() > hay.len() {
        return None;
    }
    let last: usize = hay.len() - pat.len();
    let mut i: usize = start;
    while i <= last
        invariant
            last + pat@.len() == hay@.len(),
            text::find_from(hay@, pat@, start as int) == text::find_from(hay@, pat@, i as int),
        decreases last + 1 - i,
    {
        if occurs(hay, pat, i) {
            return Some(i);
        }
        if i == last {
            return None;
        }
        i += 1;
    }
    None
}

/// The first position at which `p` stands in `s`.
pub fn find(s: &str, p: &str) -> (r: Option<usize>)
    ensures
        text::find(s@, p@) == (match r {
            Some(i) => Some(i as int),
            None => None,
        }),
{
    find_chars(to_chars(s).as_slice(), to_chars(p).as_slice(), 0)
}

/// The last position at which `p` stands in `s`.
pub fn rfind(s: &str, p: &str) -> (r: Option<usize>)
    ensures
        text::rfind(s@, p@) == (match r {
            Some(i) => Some(i as int),
            None => None,
        }),
{
    let hay: Vec<char> = to_chars(s);
    let pat: Vec<char> = to_chars(p);
    proof {
        text::lemma_rfind_upto(s@, p@, s@.len() as int);
    }
    if pat.len() > hay.len() {
        return None;
    }
    let mut i: usize = hay.len() - pat.len();
    proof {
        lemma_rfind_top(s@, p@, s@.len() as int);
    }
    loop
        invariant
            hay@ == s@,
            pat@ == p@,
            i + pat@.len() <= hay@.len(),
            text::rfind(s@, p@) == text::rfind_upto(s@, p@, i as int),
        decreases i,
    {
        if occurs(hay.as_slice(), pat.as_slice(), i) {
            return Some(i);
        }
        if i == 0 {
            assert(text::rfind_upto(s@, p@, -1) is None);
            return None;
        }
        i -= 1;
    }
}

/// Nothing stands where it would reach past the end.
proof fn lemma_rfind_top(s: Seq<char>, p: Seq<char>, upto: int)
    requires
        s.len() - p.len() <= upto,
    ensures
        text::rfind_upto(s, p, upto) == text::rfind_upto(s, p, s.len() - p.len()),
    decreases upto - (s.len() - p.len()),
{
    if s.len() - p.len() < upto && 0 <= upto {
        lemma_rfind_top(s, p, upto - 1);
    }
}

/// Whether `p` stands in `s`.
pub fn contains(s: &str, p: &str) -> (r: bool)
    ensures
        r == text::contains(s@, p@),
{
    find(s, p).is_some()
}

/// Whether `s` starts with `p`.
pub fn starts_with(s: &str, p: &str) -> (r: bool)
    ensures
        r == text::starts_with(s@, p@),
{
    let hay: Vec<char> = to_chars(s);
    let pat: Vec<char> = to_chars(p);
    if pat.len() > hay.len() {
        return false;
    }
    occurs(hay.as_slice(), pat.as_slice(), 0)
}

/// Whether `s` ends with `p`.
pub fn ends_with(s: &str, p: &str) -> (r: bool)
    ensures
        r == text::ends_with(s@, p@),
{
    let hay: Vec<char> = to_chars(s);
    let pat: Vec<char> = to_chars(p);
    if pat.len() > hay.len() {
        return false;
    }
    occurs(hay.as_slice(), pat.as_slice(), hay.len() - pat.len())
}

/// What stands before the first `p` of `s`.
pub fn before<'a>(s: &'a str, p: &str) -> (r: Option<&'a str>)
    ensures
        opt_str_view(r) == text::before(s@, p@),
{
    proof {
        text::lemma_find(s@, p@);
    }
    match find(s, p) {
        Some(i) => Some(s.substring_char(0, i)),
        None => None,
    }
}

/// The rest of `s` from position `i` on.
pub fn skip<'a>(s: &'a str, i: usize) -> (r: &'a str)
    requires
        i <= s@.len(),
    ensures
        r@ == s@.skip(i as int),
{
    s.substring_char(i, s.unicode_len())
}

/// The first `i` characters of `s`.
pub fn take<'a>(s: &'a str, i: usize) -> (r: &'a str)
    requires
        i <= s@.len(),
    ensures
        r@ == s@.take(i as int),
{
    s.substring_char(0, i)
}

/// The rest of `s` from its first `p` on.
pub fn from<'a>(s: &'a str, p: &str) -> (r: Option<&'a str>)
    ensures
        opt_str_view(r) == text::from(s@, p@),
{
    proof {
        text::lemma_find(s@, p@);
    }
    match find(s, p) {
        Some(i) => Some(skip(s, i)),
        None => None,
    }
}

/// What stands behind the first `p` of `s`.
pub fn after<'a>(s: &'a str, p: &str) -> (r: Option<&'a str>)
    ensures
        opt_str_view(r) == text::after(s@, p@),
{
    let n: usize = s.unicode_len();
    proof {
        text::lemma_find(s@, p@);
    }
    match find(s, p) {
        Some(i) => Some(skip(s, i + p.unicode_len())),
        None => None,
    }
}

/// What stands before the first `p` of `s`, or all of `s`.
pub fn head<'a>(s: &'a str, p: &str) -> (r: &'a str)
    ensures
        r@ == text::head(s@, p@),
{
    match before(s, p) {
        Some(t) => t,
        None => s,
    }
}

/// `s` without one `p` at its start.
pub fn strip_prefix<'a>(s: &'a str, p: &str) -> (r: Option<&'a str>)
    ensures
        opt_str_view(r) == text::strip_prefix(s@, p@),
{
    if starts_with(s, p) {
        Some(skip(s, p.unicode_len()))
    } else {
        None
    }
}

/// `s` without one `p` at its end.
pub fn strip_suffix<'a>(s: &'a str, p: &str) -> (r: Option<&'a str>)
    ensures
        opt_str_view(r) == text::strip_suffix(s@, p@),
{
    if ends_with(s, p) {
        Some(take(s, s.unicode_len() - p.unicode_len()))
    } else {
        None
    }
}

/// `s` with every `p` written as `by`.
pub fn replace_all(s: &str, p: &str, by: &str) -> (r: String)
    ensures
        r@ == text::replace_all(s@, p@, by@),
{
    let hay: Vec<char> = to_chars(s);
    let pat: Vec<char> = to_chars(p);
    if pat.len() == 0 {
        return s.to_owned();
    }
    let n: usize = hay.len();
    let mut out: String = String::new();
    let mut i: usize = 0;
    assert(s@.skip(0) =~= s@);
    loop
        invariant
            hay@ == s@,
            pat@ == p@,
            n == s@.len(),
            p@.len() > 0,
            i <= s@.len(),
            text::replace_all(s@, p@, by@) =~= out@ + text::replace_all(s@.skip(i as int), p@, by@),
        decreases s@.len() - i,
    {
        proof {
            text::lemma_find_skip(s@, p@, i as int);
            text::lemma_find(s@.skip(i as int), p@);
        }
        match find_chars(hay.as_slice(), pat.as_slice(), i) {
            Some(k) => {
                out.append(s.substring_char(i, k));
                out.append(by);
                assert(s@.skip(i as int).take(k - i) =~= s@.subrange(i as int, k as int));
                assert(s@.skip(i as int).skip(k - i + p@.len()) =~= s@.skip(k + p@.len()));
                i = k + pat.len();
            },
            None => {
                out.append(skip(s, i));
                return out;
            },
        }
    }
}

/// Whether a character has the Unicode property `White_Space`.
pub fn is_white(c: char) -> (r: bool)
    ensures
        r == text::is_white(c),
{
    ('\u{9}' <= c && c <= '\u{d}') || c == ' ' || c == '\u{85}' || c == '\u{a0}' || c == '\u{1680}'
        || ('\u{2000}' <= c && c <= '\u{200a}') || c == '\u{2028}' || c == '\u{2029}' || c
        == '\u{202f}' || c == '\u{205f}' || c == '\u{3000}'
}

/// `s` without the white space at its start.
pub fn trim_start<'a>(s: &'a str) -> (r: &'a str)
    ensures
        r@ == text::trim_start(s@),
{
    let chars: Vec<char> = to_chars(s);
    let mut i: usize = 0;
    assert(s@.skip(0) =~= s@);
    while i < chars.len() && is_white(chars[i])
        invariant
            chars@ == s@,
            i <= chars@.len(),
            text::trim_start(s@) == text::trim_start(s@.skip(i as int)),
        decreases chars@.len() - i,
    {
        assert(s@.skip(i as int).skip(1) =~= s@.skip(i + 1));
        i += 1;
    }
    skip(s, i)
}

/// `s` without the white space at its end.
pub fn trim_end<'a>(s: &'a str) -> (r: &'a str)
    ensures
        r@ == text::trim_end(s@),
{
    let chars: Vec<char> = to_chars(s);
    let mut i: usize = chars.len();
    assert(s@.take(i as int) =~= s@);
    while i > 0 && is_white(chars[i - 1])
        invariant
            chars@ == s@,
            i <= chars@.len(),
            text::trim_end(s@) == text::trim_end(s@.take(i as int)),
        decreases i,
    {
        assert(s@.take(i as int).drop_last() =~= s@.take(i - 1));
        i -= 1;
    }
    take(s, i)
}

/// `s` without the white space at both ends.
pub fn trim<'a>(s: &'a str) -> (r: &'a str)
    ensures
        r@ == text::trim(s@),
{
    trim_end(trim_start(s))
}

/// The words of `s`, in order.
pub fn words(s: &str) -> (r: Vec<String>)
    ensures
        views(r@) == text::words(s@),
{
    let chars: Vec<char> = to_chars(s);
    let mut out: Vec<String> = Vec::new();
    let mut i: usize = 0;
    assert(s@.skip(0) =~= s@);
    while i < chars.len()
        invariant
            chars@ == s@,
            i <= chars@.len(),
            text::words(s@) =~= views(out@) + text::words(s@.skip(i as int)),
        decreases chars@.len() - i,
    {
        let ghost rest = s@.skip(i as int);
        if is_white(chars[i]) {
            assert(rest.skip(1) =~= s@.skip(i + 1));
            i += 1;
        } else {
            let mut k: usize = i;
            assert(rest.skip(0) =~= rest);
            while k < chars.len() && !is_white(chars[k])
                invariant
                    chars@ == s@,
                    rest == s@.skip(i as int),
                    i <= k <= chars@.len(),
                    text::word_len(rest) == k - i + text::word_len(rest.skip(k - i)),
                decreases chars@.len() - k,
            {
                assert(rest.skip(k - i).skip(1) =~= rest.skip(k + 1 - i));
                k += 1;
            }
            out.push(s.substring_char(i, k).to_owned());
            assert(rest.take(k - i) =~= s@.subrange(i as int, k as int));
            assert(rest.skip(k - i) =~= s@.skip(k as int));
            assert(text::words(rest) == seq![rest.take(k - i)] + text::words(s@.skip(k as int)));
            i = k;
        }
    }
    assert(text::words(s@.skip(i as int)) =~= Seq::<Seq<char>>::empty());
    out
}

/// The parts with `sep` between each two of them.
pub fn join(parts: &Vec<String>, sep: &str) -> (r: String)
    ensures
        r@ == text::join(views(parts@), sep@),
{
    let mut out: String = String::new();
    let mut i: usize = 0;
    while i < parts.len()
        invariant
            i <= parts@.len(),
            out@ == text::join(views(parts@).take(i as int), sep@),
        decreases parts@.len() - i,
    {
        if i > 0 {
            out.append(sep);
        }
        out.append(parts[i].as_str());
        assert(views(parts@).take(i + 1).drop_last() =~= views(parts@).take(i as int));
        i += 1;
    }
    assert(views(parts@).take(i as int) =~= views(parts@));
    out
}

/// The words of `s` with one space between each two of them.
pub fn squeeze(s: &str) -> (r: String)
    ensures
        r@ == text::squeeze(s@),
{
    proof {
        reveal_strlit(" ");
    }
    assert(" "@ =~= seq![' ']);
    join(&words(s), " ")
}

/// The lines of `s`.
pub fn lines(s: &str) -> (r: Vec<String>)
    ensures
        views(r@) == text::lines(s@),
{
    let chars: Vec<char> = to_chars(s);
    let feed: Vec<char> = vec!['\n'];
    let n: usize = chars.len();
    let mut out: Vec<String> = Vec::new();
    let mut i: usize = 0;
    assert(s@.skip(0) =~= s@);
    loop
        invariant
            chars@ == s@,
            feed@ == seq!['\n'],
            n == s@.len(),
            i <= n,
            text::lines(s@) =~= views(out@) + text::lines(s@.skip(i as int)),
        decreases n - i,
    {
        proof {
            text::lemma_find_skip(s@, seq!['\n'], i as int);
            text::lemma_find(s@.skip(i as int), seq!['\n']);
        }
        let ghost rest = s@.skip(i as int);
        match find_chars(chars.as_slice(), feed.as_slice(), i) {
            Some(k) => {
                out.push(s.substring_char(i, k).to_owned());
                assert(rest.take(k - i) =~= s@.subrange(i as int, k as int));
                assert(rest.skip(k - i + 1) =~= s@.skip(k + 1));
                i = k + 1;
            },
            None => {
                out.push(skip(s, i).to_owned());
                return out;
            },
        }
    }
}

/// `s` with its ASCII letters in lower case.
pub fn lower(s: &str) -> (r: String)
    ensures
        r@ == text::lower(s@),
{
    let chars: Vec<char> = to_chars(s);
    let mut out: String = String::new();
    let mut i: usize = 0;
    while i < chars.len()
        invariant
            chars@ == s@,
            i <= chars@.len(),
            out@ == text::lower(s@.take(i as int)),
        decreases chars@.len() - i,
    {
        push_char(&mut out, lower_char(chars[i]));
        assert(text::lower(s@.take(i + 1)) =~= text::lower(s@.take(i as int)).push(
            text::lower_char(s@[i as int]),
        ));
        i += 1;
    }
    assert(s@.take(i as int) =~= s@);
    out
}

/// An upper case ASCII letter as its lower case letter.
pub fn lower_char(c: char) -> (r: char)
    ensures
        r == text::lower_char(c),
{
    if 'A' <= c && c <= 'Z' {
        (c as u8 + 32) as char
    } else {
        c
    }
}

/// `s` without the copies of `p` at its start.
pub fn drop_prefixes<'a>(s: &'a str, p: &str) -> (r: &'a str)
    ensures
        r@ == text::drop_prefixes(s@, p@),
{
    let mut rest: &'a str = s;
    while p.unicode_len() > 0 && starts_with(rest, p)
        invariant
            text::drop_prefixes(s@, p@) == text::drop_prefixes(rest@, p@),
        decreases rest@.len(),
    {
        rest = skip(rest, p.unicode_len());
    }
    rest
}

/// `s` without the copies of `p` at its end.
pub fn drop_suffixes<'a>(s: &'a str, p: &str) -> (r: &'a str)
    ensures
        r@ == text::drop_suffixes(s@, p@),
{
    let mut rest: &'a str = s;
    while p.unicode_len() > 0 && ends_with(rest, p)
        invariant
            text::drop_suffixes(s@, p@) == text::drop_suffixes(rest@, p@),
        decreases rest@.len(),
    {
        rest = take(rest, rest.unicode_len() - p.unicode_len());
    }
    rest
}

/// How many bytes `s` takes.
pub fn byte_len(s: &str) -> (r: usize)
    ensures
        r == text::byte_len(s@),
{
    s.as_bytes().len()
}

/// `a` followed by `b`.
pub fn concat(a: &str, b: &str) -> (r: String)
    ensures
        r@ == a@ + b@,
{
    let mut out: String = a.to_owned();
    out.append(b);
    out
}

/// `a` followed by `b` and `c`.
pub fn concat3(a: &str, b: &str, c: &str) -> (r: String)
    ensures
        r@ == a@ + b@ + c@,
{
    let mut out: String = a.to_owned();
    out.append(b);
    out.append(c);
    out
}

/// Whether a text is one of a list.
pub fn is_listed(all: &Vec<String>, s: &str) -> (r: bool)
    ensures
        r == text::is_among(views(all@), s@),
{
    let ghost texts = views(all@);
    let mut i: usize = 0;
    while i < all.len()
        invariant
            texts == views(all@),
            i <= all@.len(),
            forall|j: int| 0 <= j < i ==> #[trigger] texts[j] != s@,
        decreases all@.len() - i,
    {
        assert(texts[i as int] == all@[i as int]@);
        if same(all[i].as_str(), s) {
            return true;
        }
        i += 1;
    }
    false
}

} // verus!
