//! The text of HTML fragments: tags taken out, entities written out, and the
//! contents of chosen elements.

use vstd::prelude::*;
use vstd::string::*;
use crate::scan;
use crate::text;
use crate::text::{contains, find_from, join, lines, lower, opt_str_view, opt_view, replace_all, squeeze, trim, trimmed_non_empty, views};

verus! {

broadcast use vstd::string::group_string_axioms;

// ---------------------------------------------------------------------------
// Plain text
// ---------------------------------------------------------------------------

/// A fragment in which each line break and each end of a block is a line feed.
pub open spec fn blocks_to_lines(s: Seq<char>) -> Seq<char> {
    let s1 = replace_all(s, "<br>"@, "\n"@);
    let s2 = replace_all(s1, "<br/>"@, "\n"@);
    let s3 = replace_all(s2, "<br />"@, "\n"@);
    let s4 = replace_all(s3, "</li>"@, "\n"@);
    let s5 = replace_all(s4, "</p>"@, "\n"@);
    let s6 = replace_all(s5, "</div>"@, "\n"@);
    replace_all(s6, "</section>"@, "\n"@)
}

/// The characters of a fragment that stand outside its tags. A tag starts at
/// `<` and ends at `>`; `inside` tells whether the fragment starts in one.
pub open spec fn untagged(s: Seq<char>, inside: bool) -> Seq<char>
    decreases s.len(),
{
    if s.len() == 0 {
        Seq::empty()
    } else if s[0] == '<' {
        untagged(s.skip(1), true)
    } else if s[0] == '>' {
        untagged(s.skip(1), false)
    } else if inside {
        untagged(s.skip(1), true)
    } else {
        seq![s[0]] + untagged(s.skip(1), false)
    }
}

/// A text with the five common entities written out.
pub open spec fn entities_written(s: Seq<char>) -> Seq<char> {
    let s1 = replace_all(s, "&nbsp;"@, " "@);
    let s2 = replace_all(s1, "&amp;"@, "&"@);
    let s3 = replace_all(s2, "&quot;"@, "\""@);
    let s4 = replace_all(s3, "&#39;"@, "'"@);
    replace_all(s4, "&gt;"@, ">"@)
}

/// The lines of a text that hold more than white space, each squeezed.
pub open spec fn content_lines(s: Seq<char>) -> Seq<Seq<char>> {
    lines(s).map_values(|l: Seq<char>| squeeze(l)).filter(|l: Seq<char>| l.len() > 0)
}

/// The plain text of a fragment: one squeezed line for each line of content.
pub open spec fn plain_text(s: Seq<char>) -> Seq<char> {
    join(content_lines(entities_written(untagged(blocks_to_lines(s), false))), "\n"@)
}

/// The characters of a fragment that stand outside its tags.
fn drop_tags(value: &str) -> (r: String)
    ensures
        r@ == untagged(value@, false),
{
    let chars: Vec<char> = scan::to_chars(value);
    let mut out: String = String::new();
    let mut inside: bool = false;
    let mut i: usize = 0;
    assert(value@.skip(0) =~= value@);
    while i < chars.len()
        invariant
            chars@ == value@,
            i <= chars@.len(),
            untagged(value@, false) =~= out@ + untagged(value@.skip(i as int), inside),
        decreases chars@.len() - i,
    {
        let c: char = chars[i];
        let ghost rest = value@.skip(i as int);
        assert(rest.skip(1) =~= value@.skip(i + 1));
        if c == '<' {
            inside = true;
        } else if c == '>' {
            inside = false;
        } else if !inside {
            scan::push_char(&mut out, c);
        }
        i += 1;
    }
    out
}

/// The lines of a text that hold more than white space, each squeezed.
fn squeezed_lines(value: &str) -> (r: Vec<String>)
    ensures
        views(r@) == content_lines(value@),
{
    let all: Vec<String> = scan::lines(value);
    let mut out: Vec<String> = Vec::new();
    let mut i: usize = 0;
    let ghost squeezed = lines(value@).map_values(|l: Seq<char>| squeeze(l));
    let ghost keep = |l: Seq<char>| l.len() > 0;
    while i < all.len()
        invariant
            views(all@) == lines(value@),
            squeezed == lines(value@).map_values(|l: Seq<char>| squeeze(l)),
            keep == (|l: Seq<char>| l.len() > 0),
            i <= all@.len(),
            views(out@) == squeezed.take(i as int).filter(keep),
        decreases all@.len() - i,
    {
        let line: String = scan::squeeze(all[i].as_str());
        assert(views(all@)[i as int] == all@[i as int]@);
        assert(squeezed[i as int] == line@);
        assert(squeezed.take(i + 1).drop_last() =~= squeezed.take(i as int));
        reveal(Seq::filter);
        if !line.as_str().is_empty() {
            out.push(line);
            assert(views(out@) =~= squeezed.take(i as int).filter(keep).push(squeezed[i as int]));
        }
        i += 1;
    }
    assert(squeezed.take(i as int) =~= squeezed);
    out
}

/// The plain text of a fragment.
pub fn strip_html(value: &str) -> (r: String)
    ensures
        r@ == plain_text(value@),
{
    let s: String = scan::replace_all(value, "<br>", "\n");
    let s: String = scan::replace_all(s.as_str(), "<br/>", "\n");
    let s: String = scan::replace_all(s.as_str(), "<br />", "\n");
    let s: String = scan::replace_all(s.as_str(), "</li>", "\n");
    let s: String = scan::replace_all(s.as_str(), "</p>", "\n");
    let s: String = scan::replace_all(s.as_str(), "</div>", "\n");
    let s: String = scan::replace_all(s.as_str(), "</section>", "\n");
    let s: String = drop_tags(s.as_str());
    let s: String = scan::replace_all(s.as_str(), "&nbsp;", " ");
    let s: String = scan::replace_all(s.as_str(), "&amp;", "&");
    let s: String = scan::replace_all(s.as_str(), "&quot;", "\"");
    let s: String = scan::replace_all(s.as_str(), "&#39;", "'");
    let s: String = scan::replace_all(s.as_str(), "&gt;", ">");
    scan::join(&squeezed_lines(s.as_str()), "\n")
}

/// A text without white space at its ends, if anything is left of it.
pub fn non_empty(value: &str) -> (r: Option<String>)
    ensures
        opt_view(r) == trimmed_non_empty(value@),
{
    let trimmed: &str = scan::trim(value);
    if trimmed.is_empty() {
        None
    } else {
        Some(trimmed.to_owned())
    }
}

// ---------------------------------------------------------------------------
// Blocks without content
// ---------------------------------------------------------------------------

/// What is left of a page, from position `at` on, without the elements `tag`.
/// Tag names are compared without case. An element that is not closed reaches
/// to the end.
pub open spec fn without_element(s: Seq<char>, tag: Seq<char>, at: int) -> Seq<char>
    decreases s.len() - at,
{
    let opening = "<"@ + tag;
    let closing = "</"@ + tag + ">"@;
    match find_from(lower(s), opening, at) {
        None => s.skip(at),
        Some(start) => s.subrange(at, start) + (match find_from(lower(s), closing, start) {
            None => Seq::empty(),
            Some(end) => if at < end + closing.len() <= s.len() {
                without_element(s, tag, end + closing.len())
            } else {
                Seq::empty()
            },
        }),
    }
}

/// A page without its scripts and style sheets.
pub open spec fn without_scripts_and_styles(s: Seq<char>) -> Seq<char> {
    without_element(without_element(s, "script"@, 0), "style"@, 0)
}

/// A page without the elements `tag`.
fn remove_element(value: &str, tag: &str) -> (r: String)
    ensures
        r@ == without_element(value@, tag@, 0),
{
    let opening: Vec<char> = scan::to_chars(scan::concat("<", tag).as_str());
    let closing: Vec<char> = scan::to_chars(scan::concat3("</", tag, ">").as_str());
    let lowered: Vec<char> = scan::to_chars(scan::lower(value).as_str());
    let n: usize = lowered.len();
    let mut out: String = String::new();
    let mut at: usize = 0;
    proof {
        reveal_strlit("<");
        reveal_strlit("</");
    }
    loop
        invariant
            opening@ == "<"@ + tag@,
            closing@ == "</"@ + tag@ + ">"@,
            closing@.len() > 0,
            lowered@ == lower(value@),
            n == value@.len(),
            at <= n,
            without_element(value@, tag@, 0) =~= out@ + without_element(value@, tag@, at as int),
        decreases n - at,
    {
        proof {
            text::lemma_find_from(lower(value@), opening@, at as int);
        }
        match scan::find_chars(lowered.as_slice(), opening.as_slice(), at) {
            None => {
                out.append(scan::skip(value, at));
                return out;
            },
            Some(start) => {
                out.append(value.substring_char(at, start));
                proof {
                    text::lemma_find_from(lower(value@), closing@, start as int);
                }
                match scan::find_chars(lowered.as_slice(), closing.as_slice(), start) {
                    None => {
                        return out;
                    },
                    Some(end) => {
                        at = end + closing.len();
                    },
                }
            },
        }
    }
}

/// A page without its scripts and style sheets.
pub fn remove_non_content_blocks(html: &str) -> (r: String)
    ensures
        r@ == without_scripts_and_styles(html@),
{
    let s: String = remove_element(html, "script");
    remove_element(s.as_str(), "style")
}

// ---------------------------------------------------------------------------
// Elements
// ---------------------------------------------------------------------------

/// Where the first opening tag that starts with `opening` and holds `marker`
/// ends, among the tags from position `at` on.
pub open spec fn opening_end(s: Seq<char>, opening: Seq<char>, marker: Seq<char>, at: int) -> Option<
    int,
>
    decreases s.len() - at,
{
    match find_from(s, opening, at) {
        None => None,
        Some(start) => match find_from(s, ">"@, start) {
            None => None,
            Some(end) => if contains(s.subrange(start, end + 1), marker) {
                Some(end + 1)
            } else if at < end + 1 <= s.len() {
                opening_end(s, opening, marker, end + 1)
            } else {
                None
            },
        },
    }
}

/// Where the closing tag stands that closes the outermost of `depth` open
/// elements, read from position `at` on. An opening tag that ends in `/>` opens
/// nothing.
pub open spec fn matching_close(
    s: Seq<char>,
    opening: Seq<char>,
    closing: Seq<char>,
    at: int,
    depth: int,
) -> Option<int>
    decreases s.len() - at,
{
    let open = find_from(s, opening, at);
    let close = find_from(s, closing, at);
    if close is Some && (open is None || close->0 < open->0) {
        if depth <= 1 {
            close
        } else if at < close->0 + closing.len() <= s.len() {
            matching_close(s, opening, closing, close->0 + closing.len(), depth - 1)
        } else {
            None
        }
    } else if open is Some {
        match find_from(s, ">"@, open->0) {
            None => None,
            Some(end) => if at < end + 1 <= s.len() {
                let deeper = if text::ends_with(s.subrange(open->0, end + 1), "/>"@) {
                    depth
                } else {
                    depth + 1
                };
                matching_close(s, opening, closing, end + 1, deeper)
            } else {
                None
            },
        }
    } else {
        None
    }
}

/// The contents of the first element `tag` whose opening tag holds
/// `attribute="expected"`.
pub open spec fn element_by_attribute(
    s: Seq<char>,
    tag: Seq<char>,
    attribute: Seq<char>,
    expected: Seq<char>,
) -> Option<Seq<char>> {
    let opening = "<"@ + tag;
    let closing = "</"@ + tag + ">"@;
    let marker = attribute + "=\""@ + expected + "\""@;
    match opening_end(s, opening, marker, 0) {
        None => None,
        Some(start) => match matching_close(s, opening, closing, start, 1) {
            None => None,
            Some(end) => Some(s.subrange(start, end)),
        },
    }
}

/// Where the first opening tag that holds `marker` ends.
fn find_opening_end(chars: &[char], opening: &[char], marker: &str) -> (r: Option<usize>)
    ensures
        opening_end(chars@, opening@, marker@, 0) == (match r {
            Some(i) => Some(i as int),
            None => None,
        }),
        r is Some ==> r->0 <= chars@.len(),
{
    let n: usize = chars.len();
    let gt: Vec<char> = vec!['>'];
    proof {
        reveal_strlit(">");
        assert(">"@ =~= seq!['>']);
    }
    let mut at: usize = 0;
    loop
        invariant
            gt@ == ">"@,
            gt@.len() == 1,
            n == chars@.len(),
            at <= n,
            opening_end(chars@, opening@, marker@, 0) == opening_end(
                chars@,
                opening@,
                marker@,
                at as int,
            ),
        decreases n - at,
    {
        proof {
            text::lemma_find_from(chars@, opening@, at as int);
        }
        match scan::find_chars(chars, opening, at) {
            None => {
                return None;
            },
            Some(start) => {
                proof {
                    text::lemma_find_from(chars@, gt@, start as int);
                }
                match scan::find_chars(chars, gt.as_slice(), start) {
                    None => {
                        return None;
                    },
                    Some(end) => {
                        let tag: String = scan::to_text(
                            vstd::slice::slice_subrange(chars, start, end + 1),
                        );
                        if scan::contains(tag.as_str(), marker) {
                            return Some(end + 1);
                        }
                        at = end + 1;
                    },
                }
            },
        }
    }
}

/// Where the closing tag stands that closes the element open at `start`.
fn find_matching_close(chars: &[char], opening: &[char], closing: &[char], start: usize) -> (r:
    Option<usize>)
    requires
        opening@.len() > 0,
        opening@[0] == '<',
        closing@.len() > 0,
        start <= chars@.len(),
    ensures
        matching_close(chars@, opening@, closing@, start as int, 1) == (match r {
            Some(i) => Some(i as int),
            None => None,
        }),
        r is Some ==> start <= r->0 <= chars@.len(),
{
    let n: usize = chars.len();
    let gt: Vec<char> = vec!['>'];
    proof {
        reveal_strlit(">");
        assert(">"@ =~= seq!['>']);
    }
    let mut at: usize = start;
    let mut depth: usize = 1;
    loop
        invariant
            gt@ == ">"@,
            gt@ == seq!['>'],
            opening@.len() > 0,
            opening@[0] == '<',
            closing@.len() > 0,
            n == chars@.len(),
            start <= at <= n,
            1 <= depth <= at + 1,
            matching_close(chars@, opening@, closing@, start as int, 1) == matching_close(
                chars@,
                opening@,
                closing@,
                at as int,
                depth as int,
            ),
        decreases n - at,
    {
        proof {
            text::lemma_find_from(chars@, opening@, at as int);
            text::lemma_find_from(chars@, closing@, at as int);
        }
        let open: Option<usize> = scan::find_chars(chars, opening, at);
        let close: Option<usize> = scan::find_chars(chars, closing, at);
        match close {
            Some(c) => {
                let first: bool = match open {
                    Some(o) => c < o,
                    None => true,
                };
                if first {
                    if depth == 1 {
                        return Some(c);
                    }
                    depth -= 1;
                    at = c + closing.len();
                    continue ;
                }
            },
            None => {},
        }
        match open {
            None => {
                return None;
            },
            Some(o) => {
                proof {
                    text::lemma_find_from(chars@, gt@, o as int);
                    assert(chars@.subrange(o as int, o + opening@.len())[0] == '<');
                    assert(chars@.subrange(o as int, o + 1)[0] != gt@[0]);
                }
                match scan::find_chars(chars, gt.as_slice(), o) {
                    None => {
                        return None;
                    },
                    Some(end) => {
                        let tag: String = scan::to_text(
                            vstd::slice::slice_subrange(chars, o, end + 1),
                        );
                        if !scan::ends_with(tag.as_str(), "/>") {
                            depth += 1;
                        }
                        at = end + 1;
                    },
                }
            },
        }
    }
}

/// The contents of the first element `tag` whose opening tag holds
/// `attribute="expected"`.
pub fn extract_tag_by_attribute<'a>(
    html: &'a str,
    tag: &str,
    attribute: &str,
    expected: &str,
) -> (r: Option<&'a str>)
    ensures
        opt_str_view(r) == element_by_attribute(html@, tag@, attribute@, expected@),
{
    let chars: Vec<char> = scan::to_chars(html);
    let opening: Vec<char> = scan::to_chars(scan::concat("<", tag).as_str());
    let closing: Vec<char> = scan::to_chars(scan::concat3("</", tag, ">").as_str());
    let mut marker: String = scan::concat3(attribute, "=\"", expected);
    marker.append("\"");
    proof {
        reveal_strlit("<");
        reveal_strlit("</");
    }
    let start: usize = match find_opening_end(chars.as_slice(), opening.as_slice(), marker.as_str()) {
        Some(i) => i,
        None => {
            return None;
        },
    };
    match find_matching_close(chars.as_slice(), opening.as_slice(), closing.as_slice(), start) {
        Some(end) => Some(html.substring_char(start, end)),
        None => None,
    }
}

/// The texts of the elements `tag` from position `at` on that hold more than
/// white space, nested elements left aside.
pub open spec fn element_texts(s: Seq<char>, tag: Seq<char>, at: int) -> Seq<Seq<char>>
    decreases s.len() - at,
{
    let closing = "</"@ + tag + ">"@;
    match find_from(s, "<"@ + tag, at) {
        None => Seq::empty(),
        Some(start) => match find_from(s, ">"@, start) {
            None => Seq::empty(),
            Some(gt) => match find_from(s, closing, gt + 1) {
                None => Seq::empty(),
                Some(end) => if at < end + closing.len() <= s.len() {
                    (match trimmed_non_empty(plain_text(s.subrange(gt + 1, end))) {
                        Some(t) => seq![t],
                        None => Seq::empty(),
                    }) + element_texts(s, tag, end + closing.len())
                } else {
                    Seq::empty()
                },
            },
        },
    }
}

/// The texts of the elements `tag` that hold more than white space.
pub fn tag_texts(html: &str, tag: &str) -> (r: Vec<String>)
    ensures
        views(r@) == element_texts(html@, tag@, 0),
{
    let chars: Vec<char> = scan::to_chars(html);
    let opening: Vec<char> = scan::to_chars(scan::concat("<", tag).as_str());
    let closing: Vec<char> = scan::to_chars(scan::concat3("</", tag, ">").as_str());
    let gt: Vec<char> = vec!['>'];
    proof {
        reveal_strlit("</");
        reveal_strlit(">");
        assert(">"@ =~= seq!['>']);
    }
    let n: usize = chars.len();
    let mut out: Vec<String> = Vec::new();
    let mut at: usize = 0;
    loop
        invariant
            chars@ == html@,
            opening@ == "<"@ + tag@,
            closing@ == "</"@ + tag@ + ">"@,
            closing@.len() > 0,
            gt@ == ">"@,
            gt@.len() == 1,
            n == html@.len(),
            at <= n,
            element_texts(html@, tag@, 0) =~= views(out@) + element_texts(html@, tag@, at as int),
        decreases n - at,
    {
        proof {
            text::lemma_find_from(html@, opening@, at as int);
        }
        let start: usize = match scan::find_chars(chars.as_slice(), opening.as_slice(), at) {
            Some(i) => i,
            None => {
                return out;
            },
        };
        proof {
            text::lemma_find_from(html@, gt@, start as int);
        }
        let content: usize = match scan::find_chars(chars.as_slice(), gt.as_slice(), start) {
            Some(i) => i + 1,
            None => {
                return out;
            },
        };
        proof {
            text::lemma_find_from(html@, closing@, content as int);
        }
        let end: usize = match scan::find_chars(chars.as_slice(), closing.as_slice(), content) {
            Some(i) => i,
            None => {
                return out;
            },
        };
        match non_empty(strip_html(html.substring_char(content, end)).as_str()) {
            Some(value) => {
                out.push(value);
            },
            None => {},
        }
        at = end + closing.len();
    }
}

/// The first link, from position `at` on, that holds `fragment`, with its tags.
pub open spec fn first_link(s: Seq<char>, fragment: Seq<char>, at: int) -> Option<Seq<char>>
    decreases s.len() - at,
{
    match find_from(s, "<a"@, at) {
        None => None,
        Some(start) => match find_from(s, "</a>"@, start) {
            None => None,
            Some(end) => if contains(s.subrange(start, end + 4), fragment) {
                Some(s.subrange(start, end + 4))
            } else if at < end + 4 <= s.len() {
                first_link(s, fragment, end + 4)
            } else {
                None
            },
        },
    }
}

/// The text of the first link that holds `fragment`.
pub open spec fn link_text(s: Seq<char>, fragment: Seq<char>) -> Option<Seq<char>> {
    match first_link(s, fragment, 0) {
        Some(anchor) => match text::after(anchor, ">"@) {
            Some(rest) => match text::before(rest, "</a>"@) {
                Some(content) => trimmed_non_empty(plain_text(content)),
                None => None,
            },
            None => None,
        },
        None => None,
    }
}

/// The first link that holds `fragment`, with its tags.
fn find_link(html: &str, fragment: &str) -> (r: Option<String>)
    ensures
        opt_view(r) == first_link(html@, fragment@, 0),
{
    let chars: Vec<char> = scan::to_chars(html);
    let opening: Vec<char> = scan::to_chars("<a");
    let closing: Vec<char> = scan::to_chars("</a>");
    proof {
        reveal_strlit("</a>");
    }
    let n: usize = chars.len();
    let mut at: usize = 0;
    loop
        invariant
            chars@ == html@,
            opening@ == "<a"@,
            closing@ == "</a>"@,
            closing@.len() == 4,
            n == html@.len(),
            at <= n,
            first_link(html@, fragment@, 0) == first_link(html@, fragment@, at as int),
        decreases n - at,
    {
        proof {
            text::lemma_find_from(html@, opening@, at as int);
        }
        let start: usize = match scan::find_chars(chars.as_slice(), opening.as_slice(), at) {
            Some(i) => i,
            None => {
                return None;
            },
        };
        proof {
            text::lemma_find_from(html@, closing@, start as int);
        }
        let end: usize = match scan::find_chars(chars.as_slice(), closing.as_slice(), start) {
            Some(i) => i + 4,
            None => {
                return None;
            },
        };
        let anchor: &str = html.substring_char(start, end);
        if scan::contains(anchor, fragment) {
            return Some(anchor.to_owned());
        }
        at = end;
    }
}

/// The text of the first link that holds `href_fragment`.
pub fn extract_link_text_containing(html: &str, href_fragment: &str) -> (r: Option<String>)
    ensures
        opt_view(r) == link_text(html@, href_fragment@),
{
    match find_link(html, href_fragment) {
        Some(anchor) => match scan::after(anchor.as_str(), ">") {
            Some(rest) => match scan::before(rest, "</a>") {
                Some(content) => non_empty(strip_html(content).as_str()),
                None => None,
            },
            None => None,
        },
        None => None,
    }
}

/// The value of the attribute `content` that follows `property="property"`.
pub open spec fn meta_content(s: Seq<char>, property: Seq<char>) -> Option<Seq<char>> {
    match text::from(s, "property=\""@ + property + "\""@) {
        Some(tag) => match text::after(tag, "content=\""@) {
            Some(value) => text::before(value, "\""@),
            None => None,
        },
        None => None,
    }
}

/// The value of the attribute `content` that follows `property="property"`.
pub fn extract_meta(html: &str, property: &str) -> (r: Option<String>)
    ensures
        opt_view(r) == meta_content(html@, property@),
{
    let marker: String = scan::concat3("property=\"", property, "\"");
    let tag: &str = match scan::from(html, marker.as_str()) {
        Some(t) => t,
        None => {
            return None;
        },
    };
    let value: &str = match scan::after(tag, "content=\"") {
        Some(t) => t,
        None => {
            return None;
        },
    };
    match scan::before(value, "\"") {
        Some(t) => Some(t.to_owned()),
        None => None,
    }
}

/// The plain text of the page's title.
pub open spec fn page_title(s: Seq<char>) -> Option<Seq<char>> {
    match text::after(s, "<title>"@) {
        Some(rest) => match text::before(rest, "</title>"@) {
            Some(title) => Some(plain_text(title)),
            None => None,
        },
        None => None,
    }
}

/// The plain text of the page's title.
pub fn title_text(html: &str) -> (r: Option<String>)
    ensures
        opt_view(r) == page_title(html@),
{
    match scan::after(html, "<title>") {
        Some(rest) => match scan::before(rest, "</title>") {
            Some(title) => Some(strip_html(title)),
            None => None,
        },
        None => None,
    }
}

/// The attribute `datetime` that follows the first `<time`.
pub open spec fn time_datetime(s: Seq<char>) -> Option<Seq<char>> {
    match text::from(s, "<time"@) {
        Some(tag) => match text::after(tag, "datetime=\""@) {
            Some(value) => match text::before(value, "\""@) {
                Some(t) => trimmed_non_empty(t),
                None => None,
            },
            None => None,
        },
        None => None,
    }
}

/// The attribute `datetime` that follows the first `<time`.
pub fn extract_time_datetime(html: &str) -> (r: Option<String>)
    ensures
        opt_view(r) == time_datetime(html@),
{
    match scan::from(html, "<time") {
        Some(tag) => match scan::after(tag, "datetime=\"") {
            Some(value) => match scan::before(value, "\"") {
                Some(t) => non_empty(t),
                None => None,
            },
            None => None,
        },
        None => None,
    }
}

/// The first line of content behind `>label`.
pub open spec fn labeled_section(s: Seq<char>, label: Seq<char>) -> Option<Seq<char>> {
    match text::after(s, ">"@ + label) {
        Some(rest) => first_content(lines(plain_text(rest))),
        None => None,
    }
}

/// The first line that holds more than white space, without white space at its
/// ends.
pub open spec fn first_content(all: Seq<Seq<char>>) -> Option<Seq<char>>
    decreases all.len(),
{
    if all.len() == 0 {
        None
    } else if trimmed_non_empty(all[0]) is Some {
        trimmed_non_empty(all[0])
    } else {
        first_content(all.skip(1))
    }
}

/// The first line of content behind `>label`.
pub fn extract_labeled_section(html: &str, label: &str) -> (r: Option<String>)
    ensures
        opt_view(r) == labeled_section(html@, label@),
{
    let marker: String = scan::concat(">", label);
    let rest: &str = match scan::after(html, marker.as_str()) {
        Some(t) => t,
        None => {
            return None;
        },
    };
    let plain: String = strip_html(rest);
    let all: Vec<String> = scan::lines(plain.as_str());
    let mut i: usize = 0;
    assert(views(all@).skip(0) =~= views(all@));
    while i < all.len()
        invariant
            i <= all@.len(),
            labeled_section(html@, label@) == first_content(views(all@)),
            first_content(views(all@)) == first_content(views(all@).skip(i as int)),
        decreases all@.len() - i,
    {
        assert(views(all@).skip(i as int)[0] == all@[i as int]@);
        assert(views(all@).skip(i as int).skip(1) =~= views(all@).skip(i + 1));
        let found: Option<String> = non_empty(all[i].as_str());
        if found.is_some() {
            return found;
        }
        i += 1;
    }
    None
}

// ---------------------------------------------------------------------------
// Laws
// ---------------------------------------------------------------------------

/// What holds no tag is text as it stands, outside of tags, and nothing inside.
pub proof fn law_text_outside_tags_stays(s: Seq<char>)
    requires
        !s.contains('<'),
        !s.contains('>'),
    ensures
        untagged(s, false) == s,
        untagged(s, true) == Seq::<char>::empty(),
    decreases s.len(),
{
    if s.len() > 0 {
        let rest = s.skip(1);
        assert(s.contains(s[0]));
        if rest.contains('<') {
            let k = choose|k: int| 0 <= k < rest.len() && rest[k] == '<';
            assert(s[k + 1] == '<');
        }
        if rest.contains('>') {
            let k = choose|k: int| 0 <= k < rest.len() && rest[k] == '>';
            assert(s[k + 1] == '>');
        }
        law_text_outside_tags_stays(rest);
        assert(untagged(s, false) =~= s);
    }
}

/// Where a text is, in a tag or out of it, is told by what comes before it: what two
/// parts of a page show is what the one shows and behind it what the other shows.
pub proof fn law_parts_show_one_behind_the_other(a: Seq<char>, b: Seq<char>, inside: bool)
    ensures
        untagged(a + b, inside) == untagged(a, inside) + untagged(b, is_inside(a, inside)),
    decreases a.len(),
{
    if a.len() == 0 {
        assert(a + b =~= b);
        assert(untagged(a, inside) + untagged(b, inside) =~= untagged(b, inside));
    } else {
        assert((a + b).skip(1) =~= a.skip(1) + b);
        let next = if a[0] == '<' {
            true
        } else if a[0] == '>' {
            false
        } else {
            inside
        };
        law_parts_show_one_behind_the_other(a.skip(1), b, next);
        assert(untagged(a + b, inside) =~= untagged(a, inside) + untagged(b, is_inside(a, inside)));
    }
}

/// A text ends inside of a tag.
pub open spec fn is_inside(s: Seq<char>, inside: bool) -> bool
    decreases s.len(),
{
    if s.len() == 0 {
        inside
    } else {
        is_inside(
            s.skip(1),
            if s[0] == '<' {
                true
            } else if s[0] == '>' {
                false
            } else {
                inside
            },
        )
    }
}

/// A tag shows nothing, and what stands around it is shown.
pub proof fn law_tags_show_nothing(a: Seq<char>, tag: Seq<char>, b: Seq<char>)
    requires
        !a.contains('<') && !a.contains('>'),
        !tag.contains('<') && !tag.contains('>'),
        !b.contains('<') && !b.contains('>'),
    ensures
        untagged(a + seq!['<'] + tag + seq!['>'] + b, false) == a + b,
{
    let rest = seq!['<'] + tag + seq!['>'] + b;
    assert(a + seq!['<'] + tag + seq!['>'] + b =~= a + rest);
    law_text_outside_tags_stays(a);
    law_text_outside_tags_stays(tag);
    law_text_outside_tags_stays(b);
    lemma_stays_outside(a, false);
    law_parts_show_one_behind_the_other(a, rest, false);
    let tail = tag + (seq!['>'] + b);
    assert(rest.skip(1) =~= tail);
    lemma_stays_outside(tag, true);
    law_parts_show_one_behind_the_other(tag, seq!['>'] + b, true);
    assert((seq!['>'] + b).skip(1) =~= b);
    assert(untagged(rest, false) =~= b);
}

/// What holds no tag ends where it starts, inside or outside.
proof fn lemma_stays_outside(s: Seq<char>, inside: bool)
    requires
        !s.contains('<') && !s.contains('>'),
    ensures
        is_inside(s, inside) == inside,
    decreases s.len(),
{
    if s.len() > 0 {
        let rest = s.skip(1);
        assert(s.contains(s[0]));
        if rest.contains('<') {
            let k = choose|k: int| 0 <= k < rest.len() && rest[k] == '<';
            assert(s[k + 1] == '<');
        }
        if rest.contains('>') {
            let k = choose|k: int| 0 <= k < rest.len() && rest[k] == '>';
            assert(s[k + 1] == '>');
        }
        lemma_stays_outside(rest, inside);
    }
}

/// A text that lacks the first character of another does not contain it.
proof fn lemma_lacks(s: Seq<char>, p: Seq<char>)
    requires
        p.len() > 0,
        !s.contains(p[0]),
    ensures
        !contains(s, p),
{
    text::lemma_find(s, p);
    if contains(s, p) {
        let i = text::find(s, p)->0;
        assert(s.subrange(i, i + p.len())[0] == s[i]);
    }
}

/// What replacing `p` does to a text in which its first character stands once, at the
/// start of `t`.
proof fn lemma_replaced_once(
    a: Seq<char>,
    t: Seq<char>,
    b: Seq<char>,
    p: Seq<char>,
    r: Seq<char>,
)
    requires
        p.len() > 0,
        t.len() > 0,
        t[0] == p[0],
        !a.contains(p[0]),
        !b.contains(p[0]),
        !t.skip(1).contains(p[0]),
        t == p || exists|k: int|
            0 <= k < t.len() && k < p.len() && #[trigger] t[k] != p[k],
    ensures
        t == p ==> replace_all(a + t + b, p, r) == a + r + b,
        t != p ==> replace_all(a + t + b, p, r) == a + t + b,
{
    let s = a + t + b;
    let n = a.len() as int;
    text::lemma_find(s, p);
    assert forall|j: int| j != n implies !text::occurs_at(s, p, j) by {
        if text::occurs_at(s, p, j) {
            assert(s.subrange(j, j + p.len())[0] == s[j]);
            if j < n {
                assert(a[j] == p[0]);
            } else if j < n + t.len() {
                assert(t.skip(1)[j - n - 1] == p[0]);
            } else {
                assert(b[j - n - t.len()] == p[0]);
            }
        }
    }
    if t == p {
        assert(s.subrange(n, n + p.len()) =~= p);
        assert(text::occurs_at(s, p, n));
        assert(s.take(n) =~= a);
        assert(s.skip(n + p.len()) =~= b);
        assert(text::find(s, p) == Some(n));
        lemma_not_replaced(b, p, r);
    } else {
        let k = choose|k: int| 0 <= k < t.len() && k < p.len() && #[trigger] t[k] != p[k];
        if text::occurs_at(s, p, n) {
            assert(s.subrange(n, n + p.len())[k] == s[n + k]);
            assert(s[n + k] == t[k]);
        }
    }
}

/// What replacing does to a text without the first character of what is replaced.
proof fn lemma_not_replaced(s: Seq<char>, p: Seq<char>, r: Seq<char>)
    requires
        p.len() > 0,
        !s.contains(p[0]),
    ensures
        replace_all(s, p, r) == s,
{
    lemma_lacks(s, p);
}

/// A tag that ends a line: a line break, or the end of a block.
pub open spec fn ends_line(tag: Seq<char>) -> bool {
    ||| tag == "<br>"@
    ||| tag == "<br/>"@
    ||| tag == "<br />"@
    ||| tag == "</li>"@
    ||| tag == "</p>"@
    ||| tag == "</div>"@
    ||| tag == "</section>"@
}

/// Line breaks and the ends of list items, paragraphs, divisions and sections part
/// lines; text without tags has only the lines that it has.
pub proof fn law_blocks_end_lines(a: Seq<char>, tag: Seq<char>, b: Seq<char>)
    requires
        !a.contains('<'),
        !b.contains('<'),
        ends_line(tag),
    ensures
        blocks_to_lines(a + tag + b) == a + "\n"@ + b,
        blocks_to_lines(a) == a,
{
    reveal_strlit("<br>");
    reveal_strlit("<br/>");
    reveal_strlit("<br />");
    reveal_strlit("</li>");
    reveal_strlit("</p>");
    reveal_strlit("</div>");
    reveal_strlit("</section>");
    reveal_strlit("\n");
    let r = "\n"@;
    lemma_not_replaced(a, "<br>"@, r);
    lemma_not_replaced(a, "<br/>"@, r);
    lemma_not_replaced(a, "<br />"@, r);
    lemma_not_replaced(a, "</li>"@, r);
    lemma_not_replaced(a, "</p>"@, r);
    lemma_not_replaced(a, "</div>"@, r);
    lemma_not_replaced(a, "</section>"@, r);
    assert(tag[0] == '<');
    assert(!tag.skip(1).contains('<')) by {
        assert forall|k: int| 0 <= k < tag.skip(1).len() implies tag.skip(1)[k] != '<' by {
            assert(tag.skip(1)[k] == tag[k + 1]);
        }
    }
    let done = a + r + b;
    assert(!done.contains('<')) by {
        if done.contains('<') {
            let k = choose|k: int| 0 <= k < done.len() && done[k] == '<';
            if k < a.len() {
                assert(a[k] == '<');
            } else if k >= a.len() + 1 {
                assert(b[k - a.len() - 1] == '<');
            }
        }
    }
    lemma_not_replaced(done, "<br>"@, r);
    lemma_not_replaced(done, "<br/>"@, r);
    lemma_not_replaced(done, "<br />"@, r);
    lemma_not_replaced(done, "</li>"@, r);
    lemma_not_replaced(done, "</p>"@, r);
    lemma_not_replaced(done, "</div>"@, r);
    lemma_not_replaced(done, "</section>"@, r);
    lemma_tag_differs(tag, "<br>"@);
    lemma_tag_differs(tag, "<br/>"@);
    lemma_tag_differs(tag, "<br />"@);
    lemma_tag_differs(tag, "</li>"@);
    lemma_tag_differs(tag, "</p>"@);
    lemma_tag_differs(tag, "</div>"@);
    lemma_tag_differs(tag, "</section>"@);
    lemma_replaced_once(a, tag, b, "<br>"@, r);
    lemma_replaced_once(a, tag, b, "<br/>"@, r);
    lemma_replaced_once(a, tag, b, "<br />"@, r);
    lemma_replaced_once(a, tag, b, "</li>"@, r);
    lemma_replaced_once(a, tag, b, "</p>"@, r);
    lemma_replaced_once(a, tag, b, "</div>"@, r);
    lemma_replaced_once(a, tag, b, "</section>"@, r);
}

/// Two tags that end lines are the same, or differ where both have characters.
proof fn lemma_tag_differs(t: Seq<char>, p: Seq<char>)
    requires
        ends_line(t),
        ends_line(p),
    ensures
        t == p || exists|k: int| 0 <= k < t.len() && k < p.len() && #[trigger] t[k] != p[k],
{
    reveal_strlit("<br>");
    reveal_strlit("<br/>");
    reveal_strlit("<br />");
    reveal_strlit("</li>");
    reveal_strlit("</p>");
    reveal_strlit("</div>");
    reveal_strlit("</section>");
    if t != p {
        if t[1] == p[1] {
            if t[2] == p[2] {
                assert(t[3] != p[3]);
            }
        }
    }
}

/// An entity with what it stands for.
pub open spec fn stands_for(entity: Seq<char>, text: Seq<char>) -> bool {
    ||| entity == "&nbsp;"@ && text == " "@
    ||| entity == "&amp;"@ && text == "&"@
    ||| entity == "&quot;"@ && text == "\""@
    ||| entity == "&#39;"@ && text == "'"@
    ||| entity == "&gt;"@ && text == ">"@
}

/// Each of the five entities is written as the character that it stands for, and text
/// without entities stays as it is.
pub proof fn law_entities_are_written_out(
    a: Seq<char>,
    entity: Seq<char>,
    text: Seq<char>,
    b: Seq<char>,
)
    requires
        !a.contains('&'),
        !b.contains('&'),
        !b.contains(';'),
        stands_for(entity, text),
    ensures
        entities_written(a + entity + b) == a + text + b,
        entities_written(a) == a,
{
    reveal_strlit("&nbsp;");
    reveal_strlit("&amp;");
    reveal_strlit("&quot;");
    reveal_strlit("&#39;");
    reveal_strlit("&gt;");
    reveal_strlit(" ");
    reveal_strlit("&");
    reveal_strlit("\"");
    reveal_strlit("'");
    reveal_strlit(">");
    lemma_not_replaced(a, "&nbsp;"@, " "@);
    lemma_not_replaced(a, "&amp;"@, "&"@);
    lemma_not_replaced(a, "&quot;"@, "\""@);
    lemma_not_replaced(a, "&#39;"@, "'"@);
    lemma_not_replaced(a, "&gt;"@, ">"@);
    assert(entity[0] == '&');
    assert(!entity.skip(1).contains('&')) by {
        assert forall|k: int| 0 <= k < entity.skip(1).len() implies entity.skip(1)[k] != '&' by {
            assert(entity.skip(1)[k] == entity[k + 1]);
        }
    }
    assert(entity != "&nbsp;"@ ==> entity[1] != "&nbsp;"@[1]);
    assert(entity != "&amp;"@ ==> entity[1] != "&amp;"@[1]);
    assert(entity != "&quot;"@ ==> entity[1] != "&quot;"@[1]);
    assert(entity != "&#39;"@ ==> entity[1] != "&#39;"@[1]);
    assert(entity != "&gt;"@ ==> entity[1] != "&gt;"@[1]);
    lemma_replaced_once(a, entity, b, "&nbsp;"@, " "@);
    lemma_replaced_once(a, entity, b, "&amp;"@, "&"@);
    lemma_replaced_once(a, entity, b, "&quot;"@, "\""@);
    lemma_replaced_once(a, entity, b, "&#39;"@, "'"@);
    lemma_replaced_once(a, entity, b, "&gt;"@, ">"@);
    let done = a + text + b;
    if entity != "&amp;"@ {
        assert(!done.contains('&')) by {
            if done.contains('&') {
                let k = choose|k: int| 0 <= k < done.len() && done[k] == '&';
                if k < a.len() {
                    assert(a[k] == '&');
                } else if k >= a.len() + 1 {
                    assert(b[k - a.len() - 1] == '&');
                }
            }
        }
        lemma_not_replaced(done, "&nbsp;"@, " "@);
        lemma_not_replaced(done, "&amp;"@, "&"@);
        lemma_not_replaced(done, "&quot;"@, "\""@);
        lemma_not_replaced(done, "&#39;"@, "'"@);
        lemma_not_replaced(done, "&gt;"@, ">"@);
    } else {
        lemma_bare_ampersand(a, b, "&quot;"@, "\""@);
        lemma_bare_ampersand(a, b, "&#39;"@, "'"@);
        lemma_bare_ampersand(a, b, "&gt;"@, ">"@);
    }
}

/// An ampersand with no semicolon behind it starts no entity.
proof fn lemma_bare_ampersand(a: Seq<char>, b: Seq<char>, p: Seq<char>, r: Seq<char>)
    requires
        !a.contains('&'),
        !b.contains('&'),
        !b.contains(';'),
        p.len() > 1,
        p[0] == '&',
        p.last() == ';',
    ensures
        replace_all(a + "&"@ + b, p, r) == a + "&"@ + b,
{
    reveal_strlit("&");
    let s = a + "&"@ + b;
    let n = a.len() as int;
    text::lemma_find(s, p);
    if contains(s, p) {
        let i = text::find(s, p)->0;
        let cut = s.subrange(i, i + p.len());
        assert(cut[0] == s[i]);
        if i < n {
            assert(a[i] == '&');
        } else if i > n {
            assert(b[i - n - 1] == '&');
        } else {
            assert(cut[p.len() - 1] == s[i + p.len() - 1]);
            assert(b[i + p.len() - 1 - n - 1] == ';');
        }
    }
}

/// A page's plain text has every word that the page shows, in order, and no other:
/// nothing of what stands outside of tags is lost.
pub proof fn law_plain_text_keeps_every_word(s: Seq<char>)
    ensures
        text::words(plain_text(s)) == text::words(
            entities_written(untagged(blocks_to_lines(s), false)),
        ),
        !s.contains('<') && !s.contains('>') && !s.contains('&') ==> text::words(plain_text(s))
            == text::words(s),
{
    let shown = entities_written(untagged(blocks_to_lines(s), false));
    reveal_strlit("\n");
    text::law_lines_keep_words(shown);
    lemma_content_lines(lines(shown));
    text::law_joining_keeps_words(content_lines(shown), "\n"@);
    if !s.contains('<') && !s.contains('>') && !s.contains('&') {
        law_blocks_end_lines(s, "<br>"@, Seq::empty());
        law_text_outside_tags_stays(s);
        law_entities_are_written_out(s, "&nbsp;"@, " "@, Seq::empty());
    }
}

/// Lines that are squeezed and dropped where they are empty keep their words.
proof fn lemma_content_lines(all: Seq<Seq<char>>)
    ensures
        text::all_words(
            all.map_values(|l: Seq<char>| squeeze(l)).filter(|l: Seq<char>| l.len() > 0),
        ) == text::all_words(all),
    decreases all.len(),
{
    reveal(Seq::filter);
    let keep = |l: Seq<char>| l.len() > 0;
    let squeezed = all.map_values(|l: Seq<char>| squeeze(l));
    if all.len() > 0 {
        let fewer = all.drop_last();
        lemma_content_lines(fewer);
        assert(squeezed.drop_last() =~= fewer.map_values(|l: Seq<char>| squeeze(l)));
        assert(squeezed.last() == squeeze(all.last()));
        text::law_squeezing_keeps_words(all.last());
        let kept = squeezed.drop_last().filter(keep);
        if squeeze(all.last()).len() > 0 {
            assert(squeezed.filter(keep) =~= kept.push(squeeze(all.last())));
            assert(kept.push(squeeze(all.last())).drop_last() =~= kept);
        } else {
            assert(squeeze(all.last()) =~= Seq::empty());
            assert(text::words(squeeze(all.last())) =~= Seq::empty());
            assert(text::all_words(all) =~= text::all_words(fewer));
        }
    }
}

/// A page's plain text has one line for each line with content, squeezed, and no other.
pub proof fn law_plain_text_has_the_lines_of_the_page(s: Seq<char>)
    ensures
        ({
            let shown = lines(entities_written(untagged(blocks_to_lines(s), false)));
            &&& plain_text(s) == join(
                shown.map_values(|l: Seq<char>| squeeze(l)).filter(|l: Seq<char>| l.len() > 0),
                seq!['\n'],
            )
        }),
{
    reveal_strlit("\n");
    assert("\n"@ =~= seq!['\n']);
}

/// The contents of the first element that is asked for reach from the end of its
/// opening tag to its closing tag.
pub proof fn law_contents_reach_to_the_closing_tag(
    s: Seq<char>,
    tag: Seq<char>,
    attribute: Seq<char>,
    expected: Seq<char>,
    start: int,
    gt: int,
    close: int,
)
    requires
        find_from(s, "<"@ + tag, 0) == Some(start),
        find_from(s, ">"@, start) == Some(gt),
        contains(s.subrange(start, gt + 1), attribute + "=\""@ + expected + "\""@),
        find_from(s, "</"@ + tag + ">"@, gt + 1) == Some(close),
        match find_from(s, "<"@ + tag, gt + 1) {
            Some(next) => close < next,
            None => true,
        },
    ensures
        element_by_attribute(s, tag, attribute, expected) == Some(s.subrange(gt + 1, close)),
{
}

/// An element of the same name inside of the one that is asked for is part of its
/// contents, which reach to the closing tag behind the inner one's. A tag that
/// closes itself has none.
pub proof fn law_inner_elements_are_contents(
    s: Seq<char>,
    tag: Seq<char>,
    attribute: Seq<char>,
    expected: Seq<char>,
    start: int,
    gt: int,
    inner: int,
    inner_gt: int,
    first: int,
    second: int,
)
    requires
        find_from(s, "<"@ + tag, 0) == Some(start),
        find_from(s, ">"@, start) == Some(gt),
        contains(s.subrange(start, gt + 1), attribute + "=\""@ + expected + "\""@),
        find_from(s, "<"@ + tag, gt + 1) == Some(inner),
        find_from(s, ">"@, inner) == Some(inner_gt),
        match find_from(s, "</"@ + tag + ">"@, gt + 1) {
            Some(close) => inner <= close,
            None => true,
        },
        find_from(s, "</"@ + tag + ">"@, inner_gt + 1) == Some(first),
        match find_from(s, "<"@ + tag, inner_gt + 1) {
            Some(next) => first < next,
            None => true,
        },
        find_from(s, "</"@ + tag + ">"@, first + ("</"@ + tag + ">"@).len()) == Some(second),
        match find_from(s, "<"@ + tag, first + ("</"@ + tag + ">"@).len()) {
            Some(next) => second < next,
            None => true,
        },
    ensures
        text::ends_with(s.subrange(inner, inner_gt + 1), "/>"@) ==> element_by_attribute(
            s,
            tag,
            attribute,
            expected,
        ) == Some(s.subrange(gt + 1, first)),
        !text::ends_with(s.subrange(inner, inner_gt + 1), "/>"@) ==> element_by_attribute(
            s,
            tag,
            attribute,
            expected,
        ) == Some(s.subrange(gt + 1, second)),
{
    let opening = "<"@ + tag;
    let closing = "</"@ + tag + ">"@;
    reveal_strlit(">");
    reveal_strlit("</");
    text::lemma_find_from(s, opening, 0);
    text::lemma_find_from(s, ">"@, start);
    text::lemma_find_from(s, opening, gt + 1);
    text::lemma_find_from(s, ">"@, inner);
    text::lemma_find_from(s, closing, inner_gt + 1);
    text::lemma_find_from(s, closing, first + closing.len());
    reveal_with_fuel(matching_close, 4);
    let n = first + closing.len();
    assert(matching_close(s, opening, closing, n, 1) == Some(second));
    assert(matching_close(s, opening, closing, inner_gt + 1, 2) == Some(second));
    assert(matching_close(s, opening, closing, inner_gt + 1, 1) == Some(first));
}

/// An element whose opening tag lacks the attribute is passed over.
pub proof fn law_other_elements_are_passed_over(
    s: Seq<char>,
    opening: Seq<char>,
    marker: Seq<char>,
    at: int,
    start: int,
    gt: int,
)
    requires
        0 <= at,
        find_from(s, opening, at) == Some(start),
        find_from(s, ">"@, start) == Some(gt),
    ensures
        contains(s.subrange(start, gt + 1), marker) ==> opening_end(s, opening, marker, at) == Some(
            gt + 1,
        ),
        !contains(s.subrange(start, gt + 1), marker) ==> opening_end(s, opening, marker, at)
            == opening_end(s, opening, marker, gt + 1),
{
    reveal_strlit(">");
    text::lemma_find_from(s, opening, at);
    text::lemma_find_from(s, ">"@, start);
}

/// Where nothing opens an element, or nothing closes it, there is none.
pub proof fn law_elements_open_and_close(
    s: Seq<char>,
    tag: Seq<char>,
    attribute: Seq<char>,
    expected: Seq<char>,
)
    requires
        find_from(s, "<"@ + tag, 0) is None || !contains(s, "</"@ + tag + ">"@),
    ensures
        element_by_attribute(s, tag, attribute, expected) is None,
{
    let opening = "<"@ + tag;
    let closing = "</"@ + tag + ">"@;
    let marker = attribute + "=\""@ + expected + "\""@;
    if let Some(at) = opening_end(s, opening, marker, 0) {
        lemma_opening_end(s, opening, marker, 0);
        text::lemma_find(s, closing);
        lemma_never_closed(s, opening, closing, at, 1);
    }
}

/// An opening tag ends behind where the search starts.
proof fn lemma_opening_end(s: Seq<char>, opening: Seq<char>, marker: Seq<char>, at: int)
    requires
        0 <= at,
    ensures
        opening_end(s, opening, marker, at) is Some ==> opening_end(s, opening, marker, at)->0 > at,
    decreases s.len() - at,
{
    text::lemma_find_from(s, opening, at);
    if let Some(start) = find_from(s, opening, at) {
        text::lemma_find_from(s, ">"@, start);
        if let Some(end) = find_from(s, ">"@, start) {
            if at < end + 1 <= s.len() {
                lemma_opening_end(s, opening, marker, end + 1);
            }
        }
    }
}

/// Without a closing tag nothing is closed.
proof fn lemma_never_closed(
    s: Seq<char>,
    opening: Seq<char>,
    closing: Seq<char>,
    at: int,
    depth: int,
)
    requires
        0 <= at,
        forall|j: int| !text::occurs_at(s, closing, j),
    ensures
        matching_close(s, opening, closing, at, depth) is None,
    decreases s.len() - at,
{
    text::lemma_find_from(s, opening, at);
    text::lemma_find_from(s, closing, at);
    if let Some(open) = find_from(s, opening, at) {
        if let Some(end) = find_from(s, ">"@, open) {
            if at < end + 1 <= s.len() {
                lemma_never_closed(s, opening, closing, end + 1, depth);
                lemma_never_closed(s, opening, closing, end + 1, depth + 1);
            }
        }
    }
}

/// A page without elements of a name stays as it is. The first element is taken out,
/// from its opening tag, in either case of letters, to its closing tag, or to the
/// page's end where it has none; what stands before it is kept, and so is what is
/// kept of what stands behind it.
pub proof fn law_elements_are_taken_out(s: Seq<char>, tag: Seq<char>, at: int)
    requires
        0 <= at <= s.len(),
    ensures
        match find_from(lower(s), "<"@ + tag, at) {
            None => without_element(s, tag, at) == s.skip(at),
            Some(start) => match find_from(lower(s), "</"@ + tag + ">"@, start) {
                None => without_element(s, tag, at) == s.subrange(at, start),
                Some(end) => without_element(s, tag, at) == s.subrange(at, start)
                    + without_element(s, tag, end + ("</"@ + tag + ">"@).len()),
            },
        },
{
    let opening = "<"@ + tag;
    let closing = "</"@ + tag + ">"@;
    reveal_strlit("</");
    text::lemma_find_from(lower(s), opening, at);
    if let Some(start) = find_from(lower(s), opening, at) {
        text::lemma_find_from(lower(s), closing, start);
        if find_from(lower(s), closing, start) is None {
            assert(without_element(s, tag, at) =~= s.subrange(at, start));
        }
    }
}

/// A page loses its scripts and its style sheets, and nothing else.
pub proof fn law_scripts_and_styles_are_taken_out(s: Seq<char>)
    ensures
        !contains(lower(s), "<script"@) && !contains(lower(s), "<style"@)
            ==> without_scripts_and_styles(s) == s,
        !contains(lower(s), "<script"@) ==> without_scripts_and_styles(s) == without_element(
            s,
            "style"@,
            0,
        ),
        !contains(lower(without_element(s, "script"@, 0)), "<style"@)
            ==> without_scripts_and_styles(s) == without_element(s, "script"@, 0),
{
    reveal_strlit("<script");
    reveal_strlit("<style");
    reveal_strlit("<");
    reveal_strlit("script");
    reveal_strlit("style");
    assert("<"@ + "script"@ =~= "<script"@);
    assert("<"@ + "style"@ =~= "<style"@);
    law_elements_are_taken_out(s, "script"@, 0);
    let rest = without_element(s, "script"@, 0);
    law_elements_are_taken_out(rest, "style"@, 0);
    assert(s.skip(0) =~= s);
    assert(rest.skip(0) =~= rest);
}

/// The texts of the elements of a name come one behind the other: the plain text
/// between the tags of the first, where it is more than white space, and then those
/// behind it.
pub proof fn law_element_texts_come_in_order(
    s: Seq<char>,
    tag: Seq<char>,
    at: int,
    start: int,
    gt: int,
    end: int,
)
    requires
        0 <= at,
        find_from(s, "<"@ + tag, at) == Some(start),
        find_from(s, ">"@, start) == Some(gt),
        find_from(s, "</"@ + tag + ">"@, gt + 1) == Some(end),
    ensures
        ({
            let content = text::trim(plain_text(s.subrange(gt + 1, end)));
            let rest = element_texts(s, tag, end + ("</"@ + tag + ">"@).len());
            element_texts(s, tag, at) == if content.len() > 0 {
                seq![content] + rest
            } else {
                rest
            }
        }),
{
    let closing = "</"@ + tag + ">"@;
    reveal_strlit("</");
    text::lemma_find_from(s, "<"@ + tag, at);
    text::lemma_find_from(s, ">"@, start);
    text::lemma_find_from(s, closing, gt + 1);
    text::law_trimming(plain_text(s.subrange(gt + 1, end)));
    let rest = element_texts(s, tag, end + closing.len());
    assert(Seq::<Seq<char>>::empty() + rest =~= rest);
}

/// Where no more elements open there are no more texts.
pub proof fn law_element_texts_end(s: Seq<char>, tag: Seq<char>, at: int)
    requires
        find_from(s, "<"@ + tag, at) is None,
    ensures
        element_texts(s, tag, at).len() == 0,
{
}

/// The text of a link is the plain text between its tags. The first link that holds
/// the fragment counts; others are passed over.
pub proof fn law_the_first_such_link_counts(
    s: Seq<char>,
    fragment: Seq<char>,
    at: int,
    start: int,
    end: int,
)
    requires
        0 <= at,
        find_from(s, "<a"@, at) == Some(start),
        find_from(s, "</a>"@, start) == Some(end),
    ensures
        contains(s.subrange(start, end + 4), fragment) ==> first_link(s, fragment, at) == Some(
            s.subrange(start, end + 4),
        ),
        !contains(s.subrange(start, end + 4), fragment) ==> first_link(s, fragment, at)
            == first_link(s, fragment, end + 4),
{
    reveal_strlit("</a>");
    text::lemma_find_from(s, "<a"@, at);
    text::lemma_find_from(s, "</a>"@, start);
}

/// The text of the first link that holds a fragment is the plain text between its
/// tags.
pub proof fn law_a_link_shows_its_contents(
    s: Seq<char>,
    fragment: Seq<char>,
    anchor: Seq<char>,
    opening: Seq<char>,
    content: Seq<char>,
    rest: Seq<char>,
)
    requires
        first_link(s, fragment, 0) == Some(anchor),
        text::is_parted(anchor, opening, ">"@, content + "</a>"@ + rest),
        text::is_parted(content + "</a>"@ + rest, content, "</a>"@, rest),
        text::trim(plain_text(content)).len() > 0,
    ensures
        link_text(s, fragment) == Some(text::trim(plain_text(content))),
{
    text::law_parts_of_a_text(anchor, opening, ">"@, content + "</a>"@ + rest);
    text::law_parts_of_a_text(content + "</a>"@ + rest, content, "</a>"@, rest);
    text::law_trimming(plain_text(content));
}

/// Where no link holds the fragment there is no text.
pub proof fn law_no_link_shows_nothing(s: Seq<char>, fragment: Seq<char>)
    requires
        first_link(s, fragment, 0) is None,
    ensures
        link_text(s, fragment) is None,
{
}

/// A property's content is what stands between the quotation marks of the attribute
/// `content` that follows the property's name.
pub proof fn law_properties_have_their_content(
    s: Seq<char>,
    property: Seq<char>,
    a: Seq<char>,
    between: Seq<char>,
    value: Seq<char>,
    rest: Seq<char>,
)
    requires
        ({
            let name = "property=\""@ + property + "\""@;
            let quoted = value + "\""@ + rest;
            let tag = name + between + "content=\""@ + quoted;
            &&& text::is_parted(s, a, name, between + "content=\""@ + quoted)
            &&& text::is_parted(tag, name + between, "content=\""@, quoted)
            &&& text::is_parted(quoted, value, "\""@, rest)
        }),
    ensures
        meta_content(s, property) == Some(value),
{
    let name = "property=\""@ + property + "\""@;
    let quoted = value + "\""@ + rest;
    let tag = name + between + "content=\""@ + quoted;
    text::law_parts_of_a_text(s, a, name, between + "content=\""@ + quoted);
    assert(name + (between + "content=\""@ + quoted) =~= tag);
    text::law_parts_of_a_text(tag, name + between, "content=\""@, quoted);
    text::law_parts_of_a_text(quoted, value, "\""@, rest);
}

/// A property that a page does not name has no content.
pub proof fn law_missing_properties_have_no_content(s: Seq<char>, property: Seq<char>)
    requires
        !contains(s, "property=\""@ + property + "\""@),
    ensures
        meta_content(s, property) is None,
{
    text::law_texts_are_cut_at_the_first(s, "property=\""@ + property + "\""@);
}

/// A page's title is the plain text of its element `title`.
pub proof fn law_a_page_has_its_title(
    s: Seq<char>,
    a: Seq<char>,
    title: Seq<char>,
    rest: Seq<char>,
)
    requires
        text::is_parted(s, a, "<title>"@, title + "</title>"@ + rest),
        text::is_parted(title + "</title>"@ + rest, title, "</title>"@, rest),
    ensures
        page_title(s) == Some(plain_text(title)),
{
    text::law_parts_of_a_text(s, a, "<title>"@, title + "</title>"@ + rest);
    text::law_parts_of_a_text(title + "</title>"@ + rest, title, "</title>"@, rest);
}

/// A page without an element `title` has no title.
pub proof fn law_a_page_may_have_no_title(s: Seq<char>)
    requires
        !contains(s, "<title>"@) || !contains(s, "</title>"@),
    ensures
        page_title(s) is None,
{
    text::law_texts_are_cut_at_the_first(s, "<title>"@);
    if contains(s, "<title>"@) {
        let rest = text::after(s, "<title>"@)->0;
        text::law_texts_are_cut_at_the_first(rest, "</title>"@);
        text::law_texts_are_cut_at_the_first(s, "</title>"@);
        if let Some(i) = text::find(rest, "</title>"@) {
            let head = text::before(s, "<title>"@)->0 + "<title>"@;
            text::lemma_find(rest, "</title>"@);
            let n = head.len() + i;
            assert(s =~= head + rest);
            assert(s.subrange(n, n + "</title>"@.len()) =~= rest.subrange(i, i + "</title>"@.len()));
        }
    }
}

/// A page's time is the value of the attribute `datetime` of its first element `time`,
/// without white space around it.
pub proof fn law_a_page_has_its_time(
    s: Seq<char>,
    a: Seq<char>,
    between: Seq<char>,
    value: Seq<char>,
    rest: Seq<char>,
)
    requires
        ({
            let quoted = value + "\""@ + rest;
            let tag = "<time"@ + between + "datetime=\""@ + quoted;
            &&& text::is_parted(s, a, "<time"@, between + "datetime=\""@ + quoted)
            &&& text::is_parted(tag, "<time"@ + between, "datetime=\""@, quoted)
            &&& text::is_parted(quoted, value, "\""@, rest)
        }),
    ensures
        text::trim(value).len() > 0 ==> time_datetime(s) == Some(text::trim(value)),
        text::trim(value).len() == 0 ==> time_datetime(s) is None,
{
    let quoted = value + "\""@ + rest;
    let tag = "<time"@ + between + "datetime=\""@ + quoted;
    text::law_parts_of_a_text(s, a, "<time"@, between + "datetime=\""@ + quoted);
    assert("<time"@ + (between + "datetime=\""@ + quoted) =~= tag);
    text::law_parts_of_a_text(tag, "<time"@ + between, "datetime=\""@, quoted);
    text::law_parts_of_a_text(quoted, value, "\""@, rest);
    text::law_trimming(value);
}

/// A page without an element `time` has no time.
pub proof fn law_a_page_may_have_no_time(s: Seq<char>)
    requires
        !contains(s, "<time"@),
    ensures
        time_datetime(s) is None,
{
    text::law_texts_are_cut_at_the_first(s, "<time"@);
}

/// The first line with content is the one before which all lines are white space.
pub proof fn law_the_first_line_with_content(all: Seq<Seq<char>>, i: int)
    requires
        0 <= i < all.len(),
        forall|j: int| 0 <= j < i ==> text::trim(#[trigger] all[j]).len() == 0,
        text::trim(all[i]).len() > 0,
    ensures
        first_content(all) == Some(text::trim(all[i])),
    decreases all.len(),
{
    text::law_trimming(all[0]);
    if i > 0 {
        let rest = all.skip(1);
        assert(rest[i - 1] == all[i]);
        assert forall|j: int| 0 <= j < i - 1 implies text::trim(#[trigger] rest[j]).len() == 0 by {
            assert(rest[j] == all[j + 1]);
        }
        law_the_first_line_with_content(rest, i - 1);
    }
}

/// Lines of white space alone have no content.
pub proof fn law_white_lines_have_no_content(all: Seq<Seq<char>>)
    requires
        forall|j: int| 0 <= j < all.len() ==> text::trim(#[trigger] all[j]).len() == 0,
    ensures
        first_content(all) is None,
    decreases all.len(),
{
    if all.len() > 0 {
        text::law_trimming(all[0]);
        let rest = all.skip(1);
        assert forall|j: int| 0 <= j < rest.len() implies text::trim(#[trigger] rest[j]).len()
            == 0 by {
            assert(rest[j] == all[j + 1]);
        }
        law_white_lines_have_no_content(rest);
    }
}

/// A section's content is the first line with content of the plain text behind its
/// label.
pub proof fn law_a_section_has_its_first_line(
    s: Seq<char>,
    label: Seq<char>,
    a: Seq<char>,
    rest: Seq<char>,
)
    requires
        text::is_parted(s, a, ">"@ + label, rest),
    ensures
        labeled_section(s, label) == first_content(lines(plain_text(rest))),
{
    text::law_parts_of_a_text(s, a, ">"@ + label, rest);
}

/// A label that a page does not show heads no section.
pub proof fn law_a_missing_label_heads_no_section(s: Seq<char>, label: Seq<char>)
    requires
        !contains(s, ">"@ + label),
    ensures
        labeled_section(s, label) is None,
{
    text::law_texts_are_cut_at_the_first(s, ">"@ + label);
}

} // verus!
