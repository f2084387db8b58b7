//! Text as a sequence of characters: searching, cutting, trimming and joining.
//!
//! Positions count characters. Every operation is stated over `Seq<char>` and
//! proved for the executable function of the same meaning.

use vstd::prelude::*;
use vstd::string::*;

verus! {

broadcast use vstd::string::group_string_axioms;

// ---------------------------------------------------------------------------
// Views
// ---------------------------------------------------------------------------

/// The characters of an optional string.
pub open spec fn opt_view(s: Option<String>) -> Option<Seq<char>> {
    match s {
        Some(t) => Some(t@),
        None => None,
    }
}

/// The characters of an optional string slice.
pub open spec fn opt_str_view(s: Option<&str>) -> Option<Seq<char>> {
    match s {
        Some(t) => Some(t@),
        None => None,
    }
}

/// The characters of each string of a sequence.
pub open spec fn views(s: Seq<String>) -> Seq<Seq<char>> {
    s.map_values(|t: String| t@)
}

/// A text is one of a list.
pub open spec fn is_among(all: Seq<Seq<char>>, s: Seq<char>) -> bool {
    all.contains(s)
}

// ---------------------------------------------------------------------------
// What the operations mean
// ---------------------------------------------------------------------------

/// `p` stands in `s` at position `i`.
pub open spec fn occurs_at(s: Seq<char>, p: Seq<char>, i: int) -> bool {
    &&& 0 <= i
    &&& i + p.len() <= s.len()
    &&& s.subrange(i, i + p.len()) == p
}

/// The first position at or after `from` at which `p` stands in `s`.
pub open spec fn find_from(s: Seq<char>, p: Seq<char>, from: int) -> Option<int>
    decreases s.len() - from + 1,
{
    if from < 0 || from + p.len() > s.len() {
        None
    } else if occurs_at(s, p, from) {
        Some(from)
    } else {
        find_from(s, p, from + 1)
    }
}

/// The first position at which `p` stands in `s`.
pub open spec fn find(s: Seq<char>, p: Seq<char>) -> Option<int> {
    find_from(s, p, 0)
}

/// The last position at or before `upto` at which `p` stands in `s`.
pub open spec fn rfind_upto(s: Seq<char>, p: Seq<char>, upto: int) -> Option<int>
    decreases upto + 1,
{
    if upto < 0 {
        None
    } else if occurs_at(s, p, upto) {
        Some(upto)
    } else {
        rfind_upto(s, p, upto - 1)
    }
}

/// The last position at which `p` stands in `s`.
pub open spec fn rfind(s: Seq<char>, p: Seq<char>) -> Option<int> {
    rfind_upto(s, p, s.len() as int)
}

/// `p` stands somewhere in `s`.
pub open spec fn contains(s: Seq<char>, p: Seq<char>) -> bool {
    find(s, p) is Some
}

/// `s` starts with `p`.
pub open spec fn starts_with(s: Seq<char>, p: Seq<char>) -> bool {
    occurs_at(s, p, 0)
}

/// `s` ends with `p`.
pub open spec fn ends_with(s: Seq<char>, p: Seq<char>) -> bool {
    occurs_at(s, p, s.len() - p.len())
}

/// What stands before the first `p` of `s`.
pub open spec fn before(s: Seq<char>, p: Seq<char>) -> Option<Seq<char>> {
    match find(s, p) {
        Some(i) => Some(s.take(i)),
        None => None,
    }
}

/// The rest of `s` from its first `p` on, `p` among it.
pub open spec fn from(s: Seq<char>, p: Seq<char>) -> Option<Seq<char>> {
    match find(s, p) {
        Some(i) => Some(s.skip(i)),
        None => None,
    }
}

/// What stands behind the first `p` of `s`.
pub open spec fn after(s: Seq<char>, p: Seq<char>) -> Option<Seq<char>> {
    match find(s, p) {
        Some(i) => Some(s.skip(i + p.len())),
        None => None,
    }
}

/// What stands before the first `p` of `s`, or all of `s` where there is none.
pub open spec fn head(s: Seq<char>, p: Seq<char>) -> Seq<char> {
    match find(s, p) {
        Some(i) => s.take(i),
        None => s,
    }
}

/// `s` with every `p`, taken from the left without overlap, written as `r`.
/// An empty `p` is looked for nowhere.
pub open spec fn replace_all(s: Seq<char>, p: Seq<char>, r: Seq<char>) -> Seq<char>
    decreases s.len(),
{
    match find(s, p) {
        Some(i) => if p.len() > 0 && 0 <= i && i + p.len() <= s.len() {
            s.take(i) + r + replace_all(s.skip(i + p.len()), p, r)
        } else {
            s
        },
        None => s,
    }
}

/// A character with the Unicode property `White_Space`.
pub open spec fn is_white(c: char) -> bool {
    ||| '\u{9}' <= c <= '\u{d}'
    ||| c == ' '
    ||| c == '\u{85}'
    ||| c == '\u{a0}'
    ||| c == '\u{1680}'
    ||| '\u{2000}' <= c <= '\u{200a}'
    ||| c == '\u{2028}'
    ||| c == '\u{2029}'
    ||| c == '\u{202f}'
    ||| c == '\u{205f}'
    ||| c == '\u{3000}'
}

/// `s` without the white space at its start.
pub open spec fn trim_start(s: Seq<char>) -> Seq<char>
    decreases s.len(),
{
    if s.len() > 0 && is_white(s[0]) {
        trim_start(s.skip(1))
    } else {
        s
    }
}

/// `s` without the white space at its end.
pub open spec fn trim_end(s: Seq<char>) -> Seq<char>
    decreases s.len(),
{
    if s.len() > 0 && is_white(s.last()) {
        trim_end(s.drop_last())
    } else {
        s
    }
}

/// `s` without the white space at both ends.
pub open spec fn trim(s: Seq<char>) -> Seq<char> {
    trim_end(trim_start(s))
}

/// `s` without white space at its ends, if anything is left.
pub open spec fn trimmed_non_empty(s: Seq<char>) -> Option<Seq<char>> {
    if trim(s).len() > 0 {
        Some(trim(s))
    } else {
        None
    }
}

/// How many characters of `s` come before its first white space.
pub open spec fn word_len(s: Seq<char>) -> nat
    decreases s.len(),
{
    if s.len() > 0 && !is_white(s[0]) {
        1 + word_len(s.skip(1))
    } else {
        0
    }
}

/// The maximal runs of `s` that hold no white space, in order.
pub open spec fn words(s: Seq<char>) -> Seq<Seq<char>>
    decreases s.len(),
{
    if s.len() == 0 {
        Seq::empty()
    } else if is_white(s[0]) {
        words(s.skip(1))
    } else if 0 < word_len(s) <= s.len() {
        seq![s.take(word_len(s) as int)] + words(s.skip(word_len(s) as int))
    } else {
        Seq::empty()
    }
}

/// The parts of a sequence, with `sep` between each two of them.
pub open spec fn join(parts: Seq<Seq<char>>, sep: Seq<char>) -> Seq<char>
    decreases parts.len(),
{
    if parts.len() == 0 {
        Seq::empty()
    } else if parts.len() == 1 {
        parts[0]
    } else {
        join(parts.drop_last(), sep) + sep + parts.last()
    }
}

/// The words of `s` with one space between each two of them.
pub open spec fn squeeze(s: Seq<char>) -> Seq<char> {
    join(words(s), seq![' '])
}

/// The lines of `s`: what stands between its line feeds.
pub open spec fn lines(s: Seq<char>) -> Seq<Seq<char>>
    decreases s.len(),
{
    match find(s, seq!['\n']) {
        Some(i) => if 0 <= i < s.len() {
            seq![s.take(i)] + lines(s.skip(i + 1))
        } else {
            seq![s]
        },
        None => seq![s],
    }
}

/// An upper case ASCII letter as its lower case letter; any other character as
/// it is.
pub open spec fn lower_char(c: char) -> char {
    if 'A' <= c <= 'Z' {
        (c as u32 + 32) as char
    } else {
        c
    }
}

/// `s` with its ASCII letters in lower case.
pub open spec fn lower(s: Seq<char>) -> Seq<char> {
    s.map_values(|c: char| lower_char(c))
}

/// `s` without the copies of `p` at its start.
pub open spec fn drop_prefixes(s: Seq<char>, p: Seq<char>) -> Seq<char>
    decreases s.len(),
{
    if p.len() > 0 && starts_with(s, p) {
        drop_prefixes(s.skip(p.len() as int), p)
    } else {
        s
    }
}

/// `s` without the copies of `p` at its end.
pub open spec fn drop_suffixes(s: Seq<char>, p: Seq<char>) -> Seq<char>
    decreases s.len(),
{
    if p.len() > 0 && ends_with(s, p) {
        drop_suffixes(s.take(s.len() - p.len()), p)
    } else {
        s
    }
}

/// `s` without one `p` at its start, if it starts with `p`.
pub open spec fn strip_prefix(s: Seq<char>, p: Seq<char>) -> Option<Seq<char>> {
    if starts_with(s, p) {
        Some(s.skip(p.len() as int))
    } else {
        None
    }
}

/// `s` without one `p` at its end, if it ends with `p`.
pub open spec fn strip_suffix(s: Seq<char>, p: Seq<char>) -> Option<Seq<char>> {
    if ends_with(s, p) {
        Some(s.take(s.len() - p.len()))
    } else {
        None
    }
}

/// How many bytes `s` takes in UTF-8.
pub open spec fn byte_len(s: Seq<char>) -> nat {
    vstd::utf8::encode_utf8(s).len()
}

// ---------------------------------------------------------------------------
// Facts about them
// ---------------------------------------------------------------------------

/// `find_from` is the least position at or after `from` at which `p` stands.
pub proof fn lemma_find_from(s: Seq<char>, p: Seq<char>, from: int)
    requires
        0 <= from,
    ensures
        match find_from(s, p, from) {
            Some(i) => {
                &&& from <= i
                &&& occurs_at(s, p, i)
                &&& forall|j: int| from <= j < i ==> !occurs_at(s, p, j)
            },
            None => forall|j: int| from <= j ==> !occurs_at(s, p, j),
        },
    decreases s.len() - from + 1,
{
    if from + p.len() <= s.len() && !occurs_at(s, p, from) {
        lemma_find_from(s, p, from + 1);
    }
}

/// `find` is the least position at which `p` stands.
pub proof fn lemma_find(s: Seq<char>, p: Seq<char>)
    ensures
        match find(s, p) {
            Some(i) => {
                &&& 0 <= i
                &&& i + p.len() <= s.len()
                &&& occurs_at(s, p, i)
                &&& forall|j: int| 0 <= j < i ==> !occurs_at(s, p, j)
            },
            None => forall|j: int| !occurs_at(s, p, j),
        },
{
    lemma_find_from(s, p, 0);
}

/// A search in the rest of a text finds what the search from there finds.
pub proof fn lemma_find_skip(s: Seq<char>, p: Seq<char>, from: int)
    requires
        0 <= from <= s.len(),
    ensures
        find(s.skip(from), p) == match find_from(s, p, from) {
            Some(i) => Some(i - from),
            None => None,
        },
{
    let t = s.skip(from);
    assert forall|j: int| 0 <= j implies occurs_at(t, p, j) == occurs_at(s, p, from + j) by {
        if j + p.len() <= t.len() {
            assert(t.subrange(j, j + p.len()) =~= s.subrange(from + j, from + j + p.len()));
        }
    }
    lemma_find(t, p);
    lemma_find_from(s, p, from);
    match find_from(s, p, from) {
        Some(i) => {
            assert(occurs_at(t, p, i - from));
            match find(t, p) {
                Some(k) => {
                    if k < i - from {
                        assert(!occurs_at(s, p, from + k));
                    }
                },
                None => {},
            }
        },
        None => {
            match find(t, p) {
                Some(k) => {
                    assert(!occurs_at(s, p, from + k));
                },
                None => {},
            }
        },
    }
}

/// `rfind` is the greatest position at which `p` stands.
pub proof fn lemma_rfind_upto(s: Seq<char>, p: Seq<char>, upto: int)
    ensures
        match rfind_upto(s, p, upto) {
            Some(i) => {
                &&& 0 <= i <= upto
                &&& occurs_at(s, p, i)
                &&& forall|j: int| i < j <= upto ==> !occurs_at(s, p, j)
            },
            None => forall|j: int| j <= upto ==> !occurs_at(s, p, j),
        },
    decreases upto + 1,
{
    if 0 <= upto && !occurs_at(s, p, upto) {
        lemma_rfind_upto(s, p, upto - 1);
    }
}

/// A character takes four bytes at most.
pub proof fn lemma_byte_len(s: Seq<char>)
    ensures
        byte_len(s) <= 4 * s.len(),
    decreases s.len(),
{
    if s.len() > 0 {
        lemma_byte_len(s.drop_first());
    }
}

// ---------------------------------------------------------------------------
// Laws
// ---------------------------------------------------------------------------

/// A text is cut at the first place at which another stands in it: what stands
/// before it, the text itself, and what stands behind it make up the whole. Where it
/// stands nowhere, nothing is cut.
pub proof fn law_texts_are_cut_at_the_first(s: Seq<char>, p: Seq<char>)
    ensures
        match find(s, p) {
            Some(i) => {
                &&& contains(s, p)
                &&& before(s, p) is Some && after(s, p) is Some && from(s, p) is Some
                &&& s == before(s, p)->0 + p + after(s, p)->0
                &&& from(s, p)->0 == p + after(s, p)->0
                &&& head(s, p) == before(s, p)->0
                &&& before(s, p)->0.len() == i
                &&& forall|j: int|
                    0 <= j < i && j + p.len() <= s.len() ==> #[trigger] s.subrange(j, j + p.len())
                        != p
            },
            None => {
                &&& !contains(s, p)
                &&& before(s, p) is None && after(s, p) is None && from(s, p) is None
                &&& head(s, p) == s
                &&& forall|j: int|
                    0 <= j && j + p.len() <= s.len() ==> #[trigger] s.subrange(j, j + p.len()) != p
            },
        },
{
    lemma_find(s, p);
    match find(s, p) {
        Some(i) => {
            assert(s.take(i) + p + s.skip(i + p.len()) =~= s) by {
                assert(s.subrange(i, i + p.len()) == p);
            }
            assert(s.skip(i) =~= p + s.skip(i + p.len())) by {
                assert(s.subrange(i, i + p.len()) == p);
            }
            assert forall|j: int| 0 <= j < i && j + p.len() <= s.len() implies #[trigger] s.subrange(
                j,
                j + p.len(),
            ) != p by {
                assert(!occurs_at(s, p, j));
            }
        },
        None => {
            assert forall|j: int| 0 <= j && j + p.len() <= s.len() implies #[trigger] s.subrange(
                j,
                j + p.len(),
            ) != p by {
                assert(!occurs_at(s, p, j));
            }
        },
    }
}

/// A text contains another wherever that was put into it.
pub proof fn law_what_was_put_in_is_contained(a: Seq<char>, p: Seq<char>, b: Seq<char>)
    ensures
        contains(a + p + b, p),
        find(a + p + b, p)->0 <= a.len(),
        starts_with(p + b, p),
        ends_with(a + p, p),
        strip_prefix(p + b, p) == Some(b),
        strip_suffix(a + p, p) == Some(a),
{
    let s = a + p + b;
    assert(s.subrange(a.len() as int, (a.len() + p.len()) as int) =~= p);
    assert(occurs_at(s, p, a.len() as int));
    lemma_find(s, p);
    assert((p + b).subrange(0, p.len() as int) =~= p);
    assert((p + b).skip(p.len() as int) =~= b);
    assert((a + p).subrange(a.len() as int, (a + p).len() as int) =~= p);
    assert((a + p).take(a.len() as int) =~= a);
}

/// What a text is without one prefix or suffix makes up the text with it.
pub proof fn law_stripping_takes_one(s: Seq<char>, p: Seq<char>)
    ensures
        strip_prefix(s, p) is Some <==> starts_with(s, p),
        strip_prefix(s, p) is Some ==> s == p + strip_prefix(s, p)->0,
        strip_suffix(s, p) is Some <==> ends_with(s, p),
        strip_suffix(s, p) is Some ==> s == strip_suffix(s, p)->0 + p,
{
    if starts_with(s, p) {
        assert(s.subrange(0, p.len() as int) == p);
        assert(s =~= p + s.skip(p.len() as int));
    }
    if ends_with(s, p) {
        let n = s.len() - p.len();
        assert(s.subrange(n, s.len() as int) == p);
        assert(s =~= s.take(n) + p);
    }
}

/// A text so many times.
pub open spec fn repeated(p: Seq<char>, n: nat) -> Seq<char>
    decreases n,
{
    if n == 0 {
        Seq::empty()
    } else {
        p + repeated(p, (n - 1) as nat)
    }
}

/// One more copy may stand at the start or at the end.
proof fn lemma_repeated(p: Seq<char>, n: nat)
    ensures
        p + repeated(p, n) == repeated(p, n) + p,
    decreases n,
{
    if n == 0 {
        assert(p + repeated(p, n) =~= repeated(p, n) + p);
    } else {
        lemma_repeated(p, (n - 1) as nat);
        let less = repeated(p, (n - 1) as nat);
        assert(p + (p + less) =~= p + (less + p));
        assert(p + (less + p) =~= (p + less) + p);
    }
}

/// A text loses all copies of another at its end, and nothing else.
pub proof fn law_all_suffixes_are_dropped(s: Seq<char>, p: Seq<char>)
    requires
        p.len() > 0,
    ensures
        !ends_with(drop_suffixes(s, p), p),
        exists|n: nat| s == drop_suffixes(s, p) + #[trigger] repeated(p, n),
    decreases s.len(),
{
    if ends_with(s, p) {
        let fewer = s.take(s.len() - p.len());
        law_all_suffixes_are_dropped(fewer, p);
        let n = choose|n: nat| fewer == drop_suffixes(fewer, p) + #[trigger] repeated(p, n);
        lemma_repeated(p, n);
        law_stripping_takes_one(s, p);
        let out = drop_suffixes(s, p);
        assert(s == fewer + p);
        assert((out + repeated(p, n)) + p =~= out + (repeated(p, n) + p));
        assert(repeated(p, n + 1) == p + repeated(p, n));
        assert(s == out + repeated(p, n + 1));
    } else {
        assert(repeated(p, 0) =~= Seq::empty());
        assert(s =~= s + repeated(p, 0));
    }
}

/// A text loses all copies of another at its start, and nothing else.
pub proof fn law_all_prefixes_are_dropped(s: Seq<char>, p: Seq<char>)
    requires
        p.len() > 0,
    ensures
        !starts_with(drop_prefixes(s, p), p),
        exists|n: nat| s == #[trigger] repeated(p, n) + drop_prefixes(s, p),
    decreases s.len(),
{
    if starts_with(s, p) {
        let fewer = s.skip(p.len() as int);
        law_all_prefixes_are_dropped(fewer, p);
        let n = choose|n: nat| fewer == #[trigger] repeated(p, n) + drop_prefixes(fewer, p);
        law_stripping_takes_one(s, p);
        let out = drop_prefixes(s, p);
        assert(p + (repeated(p, n) + out) =~= (p + repeated(p, n)) + out);
        assert(repeated(p, n + 1) == p + repeated(p, n));
        assert(s == repeated(p, n + 1) + out);
    } else {
        assert(repeated(p, 0) =~= Seq::empty());
        assert(s =~= repeated(p, 0) + s);
    }
}

/// White space is what Unicode calls so.
pub proof fn law_white_space_is_unicodes(c: char)
    ensures
        is_white(c) <==> {
            let n = c as u32;
            ||| 9 <= n <= 13
            ||| n == 32
            ||| n == 0x85
            ||| n == 0xa0
            ||| n == 0x1680
            ||| 0x2000 <= n <= 0x200a
            ||| n == 0x2028
            ||| n == 0x2029
            ||| n == 0x202f
            ||| n == 0x205f
            ||| n == 0x3000
        },
{
}

/// Every character is white space.
pub open spec fn only_white(s: Seq<char>) -> bool {
    forall|i: int| 0 <= i < s.len() ==> is_white(#[trigger] s[i])
}

/// A text loses the white space at its start, and nothing else.
pub proof fn law_trimming_the_start(s: Seq<char>)
    ensures
        trim_start(s).len() <= s.len(),
        s.skip(s.len() - trim_start(s).len()) == trim_start(s),
        only_white(s.take(s.len() - trim_start(s).len())),
        trim_start(s).len() > 0 ==> !is_white(trim_start(s)[0]),
    decreases s.len(),
{
    if s.len() > 0 && is_white(s[0]) {
        let rest = s.skip(1);
        law_trimming_the_start(rest);
        let n = s.len() - trim_start(s).len();
        assert(s.skip(n) =~= rest.skip(n - 1));
        assert forall|i: int| 0 <= i < n implies is_white(#[trigger] s.take(n)[i]) by {
            if i > 0 {
                assert(s.take(n)[i] == rest.take(n - 1)[i - 1]);
            }
        }
    } else {
        assert(s.skip(0) =~= s);
    }
}

/// A text loses the white space at its end, and nothing else.
pub proof fn law_trimming_the_end(s: Seq<char>)
    ensures
        trim_end(s).len() <= s.len(),
        s.take(trim_end(s).len() as int) == trim_end(s),
        only_white(s.skip(trim_end(s).len() as int)),
        trim_end(s).len() > 0 ==> !is_white(trim_end(s).last()),
    decreases s.len(),
{
    if s.len() > 0 && is_white(s.last()) {
        let rest = s.drop_last();
        law_trimming_the_end(rest);
        let n = trim_end(s).len() as int;
        assert(s.take(n) =~= rest.take(n));
        assert forall|i: int| 0 <= i < s.skip(n).len() implies is_white(#[trigger] s.skip(n)[i]) by {
            if n + i < rest.len() {
                assert(s.skip(n)[i] == rest.skip(n)[i]);
            }
        }
    } else {
        assert(s.take(s.len() as int) =~= s);
    }
}

/// A text loses the white space at both ends, and nothing else: what is left stands
/// in it, with only white space around it, and neither starts nor ends with any.
pub proof fn law_trimming(s: Seq<char>)
    ensures
        trim(s).len() > 0 ==> !is_white(trim(s)[0]) && !is_white(trim(s).last()),
        exists|at: int|
            0 <= at && at + trim(s).len() <= s.len() && #[trigger] s.subrange(
                at,
                at + trim(s).len(),
            ) == trim(s) && only_white(s.take(at)) && only_white(s.skip(at + trim(s).len())),
        trimmed_non_empty(s) == (if trim(s).len() > 0 {
            Some(trim(s))
        } else {
            None
        }),
{
    let t = trim_start(s);
    law_trimming_the_start(s);
    law_trimming_the_end(t);
    let at = s.len() - t.len();
    let n = trim(s).len() as int;
    assert(s.subrange(at, at + n) =~= t.take(n));
    assert forall|i: int| 0 <= i < s.skip(at + n).len() implies is_white(
        #[trigger] s.skip(at + n)[i],
    ) by {
        assert(s.skip(at + n)[i] == t.skip(n)[i]);
    }
    if n > 0 {
        assert(trim(s)[0] == t[0]);
    }
}

/// Words are what white space parts: a text of two parts with white space between
/// them has the words of the one and behind them those of the other, white space has
/// none, and what holds none is one word.
pub proof fn law_words_are_parted_by_white_space(a: Seq<char>, w: Seq<char>, b: Seq<char>)
    requires
        only_white(w),
        w.len() > 0,
    ensures
        words(a + w + b) == words(a) + words(b),
        words(w) == Seq::<Seq<char>>::empty(),
{
    assert(crate::change::all_white(w));
    crate::change::lemma_white_has_no_words(w, b);
    assert(a + w + b =~= a + (w + b));
    crate::change::lemma_words_join(a, w + b);
    crate::change::lemma_white_has_no_words(w, Seq::empty());
    assert(w + Seq::<char>::empty() =~= w);
}

/// A text without white space is one word, or none where it is empty.
pub proof fn law_a_word_is_a_word(s: Seq<char>)
    requires
        forall|i: int| 0 <= i < s.len() ==> !is_white(#[trigger] s[i]),
    ensures
        s.len() > 0 ==> words(s) == seq![s],
        s.len() == 0 ==> words(s) == Seq::<Seq<char>>::empty(),
        s.len() > 0 ==> squeeze(s) == s,
{
    lemma_word_len_of_word(s);
    if s.len() > 0 {
        assert(s.take(s.len() as int) =~= s);
        assert(s.skip(s.len() as int) =~= Seq::empty());
        assert(words(s.skip(s.len() as int)) =~= Seq::empty());
        assert(words(s) =~= seq![s]);
    }
}

/// A text without white space is as long as its first word.
proof fn lemma_word_len_of_word(s: Seq<char>)
    requires
        forall|i: int| 0 <= i < s.len() ==> !is_white(#[trigger] s[i]),
    ensures
        word_len(s) == s.len(),
    decreases s.len(),
{
    if s.len() > 0 {
        let rest = s.skip(1);
        assert forall|i: int| 0 <= i < rest.len() implies !is_white(#[trigger] rest[i]) by {
            assert(rest[i] == s[i + 1]);
        }
        lemma_word_len_of_word(rest);
    }
}

/// Two lists are joined one behind the other, with the separator between them once.
pub proof fn law_joining(a: Seq<Seq<char>>, b: Seq<Seq<char>>, sep: Seq<char>)
    ensures
        a.len() == 0 ==> join(a, sep) == Seq::<char>::empty(),
        a.len() == 1 ==> join(a, sep) == a[0],
        a.len() > 0 && b.len() > 0 ==> join(a + b, sep) == join(a, sep) + sep + join(b, sep),
    decreases b.len(),
{
    if a.len() > 0 && b.len() > 0 {
        let all = a + b;
        assert(all.last() == b.last());
        assert(all.drop_last() =~= a + b.drop_last());
        if b.len() == 1 {
            assert(a + b.drop_last() =~= a);
        } else {
            law_joining(a, b.drop_last(), sep);
            assert(join(all, sep) =~= join(a, sep) + sep + join(b, sep));
        }
    }
}

/// Lines are what line feeds part: a text of two parts with a line feed between them
/// has the lines of the one and behind them those of the other, and a text without
/// line feeds is one line.
pub proof fn law_lines_are_parted_by_line_feeds(a: Seq<char>, b: Seq<char>)
    ensures
        lines(a + seq!['\n'] + b) == lines(a) + lines(b),
        !a.contains('\n') ==> lines(a) == seq![a],
    decreases a.len(),
{
    let nl = seq!['\n'];
    let s = a + nl + b;
    lemma_find(a, nl);
    lemma_find(s, nl);
    match find(a, nl) {
        None => {
            assert(s.subrange(a.len() as int, a.len() as int + 1) =~= nl);
            assert(occurs_at(s, nl, a.len() as int));
            let i = find(s, nl)->0;
            if i < a.len() {
                assert(a.subrange(i, i + 1) =~= s.subrange(i, i + 1));
                assert(occurs_at(a, nl, i));
            }
            assert(s.take(i) =~= a);
            assert(s.skip(i + 1) =~= b);
        },
        Some(k) => {
            assert(a.subrange(k, k + 1)[0] == a[k]);
            assert(a.contains('\n'));
            assert(s.subrange(k, k + 1) =~= a.subrange(k, k + 1));
            assert(occurs_at(s, nl, k));
            let i = find(s, nl)->0;
            if i < k {
                assert(a.subrange(i, i + 1) =~= s.subrange(i, i + 1));
                assert(occurs_at(a, nl, i));
            }
            assert(i == k);
            assert(s.take(k) =~= a.take(k));
            assert(s.skip(k + 1) =~= a.skip(k + 1) + nl + b);
            law_lines_are_parted_by_line_feeds(a.skip(k + 1), b);
            assert(lines(s) =~= lines(a) + lines(b));
        },
    }
    if !a.contains('\n') && find(a, nl) is Some {
        let k = find(a, nl)->0;
        assert(a.subrange(k, k + 1)[0] == a[k]);
    }
}

/// Upper case letters of ASCII are written as lower case ones, and nothing else
/// changes.
pub proof fn law_lower_case(s: Seq<char>, i: int)
    requires
        0 <= i < s.len(),
    ensures
        lower(s).len() == s.len(),
        'A' <= s[i] <= 'Z' ==> lower(s)[i] as u32 == s[i] as u32 + 32,
        !('A' <= s[i] <= 'Z') ==> lower(s)[i] == s[i],
{
}

/// Every copy of a text is replaced, from the left and each once: what comes before
/// the first copy stays, the copy is replaced, and so is what comes behind it. A text
/// without copies stays as it is.
pub proof fn law_every_copy_is_replaced(s: Seq<char>, p: Seq<char>, r: Seq<char>)
    requires
        p.len() > 0,
    ensures
        !contains(s, p) ==> replace_all(s, p, r) == s,
        contains(s, p) ==> replace_all(s, p, r) == before(s, p)->0 + r + replace_all(
            after(s, p)->0,
            p,
            r,
        ),
        p.len() == 1 && !r.contains(p[0]) ==> !replace_all(s, p, r).contains(p[0]),
    decreases s.len(),
{
    lemma_find(s, p);
    if contains(s, p) {
        let i = find(s, p)->0;
        law_every_copy_is_replaced(s.skip(i + p.len()), p, r);
        if p.len() == 1 && !r.contains(p[0]) {
            let out = replace_all(s, p, r);
            let tail = replace_all(s.skip(i + 1), p, r);
            if out.contains(p[0]) {
                let k = choose|k: int| 0 <= k < out.len() && out[k] == p[0];
                if k < i {
                    assert(s.subrange(k, k + 1) =~= p);
                    assert(occurs_at(s, p, k));
                } else if k < i + r.len() {
                    assert(r[k - i] == p[0]);
                } else {
                    assert(tail[k - i - r.len()] == p[0]);
                }
            }
        }
    } else if p.len() == 1 && s.contains(p[0]) {
        let k = choose|k: int| 0 <= k < s.len() && s[k] == p[0];
        assert(s.subrange(k, k + 1) =~= p);
        assert(occurs_at(s, p, k));
    }
}

/// The words of each of some texts, one behind the other.
pub open spec fn all_words(texts: Seq<Seq<char>>) -> Seq<Seq<char>>
    decreases texts.len(),
{
    if texts.len() == 0 {
        Seq::empty()
    } else {
        all_words(texts.drop_last()) + words(texts.last())
    }
}

/// Joining texts by white space loses no word and makes none.
pub proof fn law_joining_keeps_words(texts: Seq<Seq<char>>, sep: Seq<char>)
    requires
        only_white(sep),
        sep.len() > 0,
    ensures
        words(join(texts, sep)) == all_words(texts),
    decreases texts.len(),
{
    if texts.len() == 0 {
        assert(words(Seq::<char>::empty()) =~= Seq::empty());
    } else if texts.len() == 1 {
        assert(texts.drop_last() =~= Seq::empty());
        assert(all_words(texts.drop_last()) =~= Seq::empty());
        assert(all_words(texts) =~= words(texts[0]));
    } else {
        law_joining_keeps_words(texts.drop_last(), sep);
        law_words_are_parted_by_white_space(join(texts.drop_last(), sep), sep, texts.last());
    }
}

/// Words hold no white space and are not empty.
pub proof fn lemma_words_are_words(s: Seq<char>)
    ensures
        forall|k: int|
            0 <= k < words(s).len() ==> (#[trigger] words(s)[k]).len() > 0 && words(words(s)[k])
                == seq![words(s)[k]],
    decreases s.len(),
{
    if s.len() > 0 {
        if is_white(s[0]) {
            lemma_words_are_words(s.skip(1));
            assert(words(s) == words(s.skip(1)));
        } else {
            lemma_first_word(s);
            let n = word_len(s) as int;
            let w = s.take(n);
            let rest = words(s.skip(n));
            lemma_words_are_words(s.skip(n));
            assert forall|i: int| 0 <= i < w.len() implies !is_white(#[trigger] w[i]) by {
                assert(w[i] == s[i]);
            }
            law_a_word_is_a_word(w);
            assert(words(s) =~= seq![w] + rest);
            assert(words(s)[0] == w);
            assert forall|k: int| 0 <= k < words(s).len() implies (#[trigger] words(s)[k]).len() > 0
                && words(words(s)[k]) == seq![words(s)[k]] by {
                if k > 0 {
                    assert(words(s)[k] == rest[k - 1]);
                }
            }
        }
    }
}

/// What comes before the first white space of a text holds none.
proof fn lemma_first_word(s: Seq<char>)
    ensures
        word_len(s) <= s.len(),
        forall|i: int| 0 <= i < word_len(s) ==> !is_white(#[trigger] s[i]),
    decreases s.len(),
{
    if s.len() > 0 && !is_white(s[0]) {
        lemma_first_word(s.skip(1));
        assert forall|i: int| 0 <= i < word_len(s) implies !is_white(#[trigger] s[i]) by {
            if i > 0 {
                assert(s[i] == s.skip(1)[i - 1]);
            }
        }
    }
}

/// Texts that are one word each have themselves as their words.
proof fn lemma_all_words_of_words(texts: Seq<Seq<char>>)
    requires
        forall|k: int| 0 <= k < texts.len() ==> words(#[trigger] texts[k]) == seq![texts[k]],
    ensures
        all_words(texts) == texts,
    decreases texts.len(),
{
    if texts.len() > 0 {
        let fewer = texts.drop_last();
        assert forall|k: int| 0 <= k < fewer.len() implies words(#[trigger] fewer[k])
            == seq![fewer[k]] by {
            assert(fewer[k] == texts[k]);
        }
        lemma_all_words_of_words(fewer);
        assert(words(texts[texts.len() - 1]) == seq![texts[texts.len() - 1]]);
        assert(all_words(texts) =~= texts);
    } else {
        assert(all_words(texts) =~= texts);
    }
}

/// A squeezed text has the words that the text has.
pub proof fn law_squeezing_keeps_words(s: Seq<char>)
    ensures
        words(squeeze(s)) == words(s),
        squeeze(s) == join(words(s), seq![' ']),
{
    lemma_words_are_words(s);
    law_joining_keeps_words(words(s), seq![' ']);
    lemma_all_words_of_words(words(s));
}

/// The words of two lists of texts.
pub proof fn lemma_all_words_add(a: Seq<Seq<char>>, b: Seq<Seq<char>>)
    ensures
        all_words(a + b) == all_words(a) + all_words(b),
    decreases b.len(),
{
    if b.len() == 0 {
        assert(a + b =~= a);
        assert(all_words(a) + all_words(b) =~= all_words(a));
    } else {
        lemma_all_words_add(a, b.drop_last());
        assert((a + b).drop_last() =~= a + b.drop_last());
        assert((a + b).last() == b.last());
        assert(all_words(a + b) =~= all_words(a) + all_words(b));
    }
}

/// The words of a text are those of its lines, line by line.
pub proof fn law_lines_keep_words(s: Seq<char>)
    ensures
        all_words(lines(s)) == words(s),
    decreases s.len(),
{
    let nl = seq!['\n'];
    lemma_find(s, nl);
    match find(s, nl) {
        Some(i) => {
            let a = s.take(i);
            let b = s.skip(i + 1);
            assert(s.subrange(i, i + 1) == nl);
            assert(s =~= a + nl + b);
            law_lines_keep_words(b);
            lemma_all_words_add(seq![a], lines(b));
            assert(seq![a].drop_last() =~= Seq::empty());
            reveal_with_fuel(all_words, 2);
            assert(all_words(seq![a]) =~= words(a));
            law_words_are_parted_by_white_space(a, nl, b);
        },
        None => {
            assert(seq![s].drop_last() =~= Seq::empty());
            reveal_with_fuel(all_words, 2);
            assert(all_words(seq![s]) =~= words(s));
        },
    }
}

/// A text is made up of `a`, `p` and `b`, where `p` stands nowhere earlier.
pub open spec fn is_parted(s: Seq<char>, a: Seq<char>, p: Seq<char>, b: Seq<char>) -> bool {
    &&& s == a + p + b
    &&& forall|j: int|
        0 <= j < a.len() && j + p.len() <= s.len() ==> #[trigger] s.subrange(j, j + p.len()) != p
}

/// The parts of a text are what stands before, from and behind the first place of
/// another.
pub proof fn law_parts_of_a_text(s: Seq<char>, a: Seq<char>, p: Seq<char>, b: Seq<char>)
    requires
        is_parted(s, a, p, b),
    ensures
        find(s, p) == Some(a.len() as int),
        contains(s, p),
        before(s, p) == Some(a),
        head(s, p) == a,
        after(s, p) == Some(b),
        from(s, p) == Some(p + b),
{
    law_texts_are_cut_at_the_first(s, p);
    let n = a.len() as int;
    assert(s.subrange(n, n + p.len()) =~= p);
    lemma_find(s, p);
    let i = find(s, p)->0;
    assert(i == n) by {
        if i < n {
            assert(s.subrange(i, i + p.len()) == p);
        }
    }
    assert(before(s, p)->0 =~= a) by {
        assert(before(s, p)->0 =~= s.take(i));
        assert(s.take(n) =~= a);
    }
    assert(after(s, p)->0 =~= b) by {
        assert(s.skip(n + p.len()) =~= b);
    }
}

/// A text without white space at its ends stays as it is.
pub proof fn law_clean_text_is_not_trimmed(s: Seq<char>)
    requires
        s.len() > 0,
        !is_white(s[0]),
        !is_white(s.last()),
    ensures
        trim(s) == s,
{
}

/// Trimming keeps every word.
pub proof fn law_trimming_keeps_words(s: Seq<char>)
    ensures
        words(trim(s)) == words(s),
        trim(trim(s)) == trim(s),
{
    law_trimming(s);
    let t = trim(s);
    let at = choose|at: int|
        0 <= at && at + t.len() <= s.len() && #[trigger] s.subrange(at, at + t.len()) == t
            && only_white(s.take(at)) && only_white(s.skip(at + t.len()));
    let a = s.take(at);
    let b = s.skip(at + t.len());
    let none = Seq::<char>::empty();
    assert(s =~= a + t + b);
    assert(words(none) =~= Seq::empty());
    assert(words(t + b) == words(t)) by {
        if b.len() > 0 {
            law_words_are_parted_by_white_space(t, b, none);
            assert(t + b + none =~= t + b);
            assert(words(t) + words(none) =~= words(t));
        } else {
            assert(t + b =~= t);
        }
    }
    assert(words(s) == words(t + b)) by {
        if a.len() > 0 {
            law_words_are_parted_by_white_space(none, a, t + b);
            assert(none + a + (t + b) =~= s);
            assert(words(none) + words(t + b) =~= words(t + b));
        } else {
            assert(a + t + b =~= t + b);
        }
    }
    if t.len() > 0 {
        law_clean_text_is_not_trimmed(t);
    } else {
        assert(trim(t) =~= t);
    }
}

} // verus!
