//! The head of a posting's page on LinkedIn: who hires for what, where, since
//! when, and where to apply.

use vstd::prelude::*;
use vstd::string::*;
use vstd::utf8::encode_utf8;
use crate::encoding;
use crate::html;
use crate::html::{element_by_attribute, element_texts, link_text, plain_text};
use crate::scan;
use crate::source::alert;
use crate::source::alert::{address_at, identity_of, AlertJob, AlertView};
use crate::text;
use crate::text::{contains, find, find_from, lower, opt_str_view, opt_view, rfind, starts_with, trimmed_non_empty, views};

verus! {

broadcast use vstd::string::group_string_axioms;

// ---------------------------------------------------------------------------
// The part of the page that counts as its head
// ---------------------------------------------------------------------------

/// How many bytes of a page, from the tag before its first mark on, count as its
/// head.
pub const HEADER_BYTES: usize = 5000;

/// How many bytes a character takes in UTF-8.
pub open spec fn char_width(c: char) -> int {
    if c as u32 <= 0x7f {
        1
    } else if c as u32 <= 0x7ff {
        2
    } else if c as u32 <= 0xffff {
        3
    } else {
        4
    }
}

/// How many characters of a text fit into `bytes` bytes, each as a whole.
pub open spec fn chars_in(s: Seq<char>, bytes: int) -> nat
    decreases s.len(),
{
    if s.len() == 0 || bytes < char_width(s[0]) {
        0
    } else {
        1 + chars_in(s.skip(1), bytes - char_width(s[0]))
    }
}

/// How many bytes a character takes in UTF-8.
fn width(c: char) -> (r: usize)
    ensures
        r == char_width(c),
{
    if c <= '\u{7f}' {
        1
    } else if c <= '\u{7ff}' {
        2
    } else if c <= '\u{ffff}' {
        3
    } else {
        4
    }
}

/// How many characters of a text fit into `bytes` bytes, each as a whole.
pub fn count_chars_in(s: &str, bytes: usize) -> (r: usize)
    ensures
        r == chars_in(s@, bytes as int),
        r <= s@.len(),
{
    let chars: Vec<char> = scan::to_chars(s);
    let mut i: usize = 0;
    let mut left: usize = bytes;
    assert(s@.skip(0) =~= s@);
    while i < chars.len()
        invariant
            chars@ == s@,
            i <= s@.len(),
            left <= bytes,
            chars_in(s@, bytes as int) == i + chars_in(s@.skip(i as int), left as int),
        decreases chars@.len() - i,
    {
        assert(s@.skip(i as int).skip(1) =~= s@.skip(i + 1));
        let w: usize = width(chars[i]);
        if left < w {
            return i;
        }
        left -= w;
        i += 1;
    }
    i
}

/// The first mark of a posting's head: the company's label, or its name, or
/// else the posting's address.
pub open spec fn first_mark(s: Seq<char>) -> Option<int> {
    match find(s, "aria-label=\"Company,"@) {
        Some(i) => Some(i),
        None => match find(s, "data-testid=\"job-details-company-name\""@) {
            Some(i) => Some(i),
            None => find(s, "https://www.linkedin.com/jobs/view/"@),
        },
    }
}

/// Where the head starts: at the tag before its first mark.
pub open spec fn header_start(s: Seq<char>) -> Option<int> {
    match first_mark(s) {
        None => None,
        Some(mark) => match rfind(s.take(mark), "<"@) {
            Some(i) => Some(i),
            None => Some(mark),
        },
    }
}

/// The head of a page: as many whole characters as fit into its bytes.
pub open spec fn header_window(s: Seq<char>, start: int) -> Seq<char> {
    s.skip(start).take(chars_in(s.skip(start), HEADER_BYTES as int) as int)
}

/// The first mark of a posting's head.
fn find_first_mark(html: &str) -> (r: Option<usize>)
    ensures
        first_mark(html@) == (match r {
            Some(i) => Some(i as int),
            None => None,
        }),
        r is Some ==> r->0 <= html@.len(),
{
    proof {
        text::lemma_find(html@, "aria-label=\"Company,"@);
        text::lemma_find(html@, "data-testid=\"job-details-company-name\""@);
        text::lemma_find(html@, "https://www.linkedin.com/jobs/view/"@);
    }
    match scan::find(html, "aria-label=\"Company,") {
        Some(i) => Some(i),
        None => match scan::find(html, "data-testid=\"job-details-company-name\"") {
            Some(i) => Some(i),
            None => scan::find(html, "https://www.linkedin.com/jobs/view/"),
        },
    }
}

/// Where the head starts.
fn find_header_start(html: &str) -> (r: Option<usize>)
    ensures
        header_start(html@) == (match r {
            Some(i) => Some(i as int),
            None => None,
        }),
        r is Some ==> r->0 <= html@.len(),
{
    match find_first_mark(html) {
        None => None,
        Some(mark) => {
            let head: &str = scan::take(html, mark);
            proof {
                text::lemma_rfind_upto(head@, "<"@, head@.len() as int);
            }
            match scan::rfind(head, "<") {
                Some(i) => Some(i),
                None => Some(mark),
            }
        },
    }
}

// ---------------------------------------------------------------------------
// Company
// ---------------------------------------------------------------------------

/// The company that the label at the start of a text names a second time.
pub open spec fn labelled_company(s: Seq<char>) -> Option<Seq<char>> {
    match text::strip_prefix(s, "aria-label=\"Company,"@) {
        None => None,
        Some(rest) => match text::before(rest, "\""@) {
            None => None,
            Some(label) => match text::strip_prefix(label, "Company,"@) {
                None => None,
                Some(name) => trimmed_non_empty(text::drop_suffixes(name, "."@)),
            },
        },
    }
}

/// The company that the label at the start of a text names a second time.
fn company_in_label(s: &str) -> (r: Option<String>)
    ensures
        opt_view(r) == labelled_company(s@),
{
    match scan::strip_prefix(s, "aria-label=\"Company,") {
        None => None,
        Some(rest) => match scan::before(rest, "\"") {
            None => None,
            Some(label) => match scan::strip_prefix(label, "Company,") {
                None => None,
                Some(name) => html::non_empty(scan::drop_suffixes(name, ".")),
            },
        },
    }
}

/// The text of the link, or else of the span, that is marked with `test_id`.
pub open spec fn marked_text(s: Seq<char>, test_id: Seq<char>) -> Option<Seq<char>> {
    let content = match element_by_attribute(s, "a"@, "data-testid"@, test_id) {
        Some(c) => Some(c),
        None => element_by_attribute(s, "span"@, "data-testid"@, test_id),
    };
    match content {
        Some(c) => trimmed_non_empty(plain_text(c)),
        None => None,
    }
}

/// The company's name as one of three marks shows it.
pub open spec fn marked_company(s: Seq<char>) -> Option<Seq<char>> {
    match marked_text(s, "job-details-company-name"@) {
        Some(t) => Some(t),
        None => match marked_text(s, "company-name"@) {
            Some(t) => Some(t),
            None => marked_text(s, "job-company-name"@),
        },
    }
}

/// The company's name as one of three marks or the first link to a company shows
/// it.
pub open spec fn dom_company(s: Seq<char>) -> Option<Seq<char>> {
    match marked_company(s) {
        Some(t) => Some(t),
        None => link_text(s, "/company/"@),
    }
}

/// The text of the link, or else of the span, that is marked with `test_id`.
fn text_marked(html: &str, test_id: &str) -> (r: Option<String>)
    ensures
        opt_view(r) == marked_text(html@, test_id@),
{
    match html::extract_tag_by_attribute(html, "a", "data-testid", test_id) {
        Some(content) => html::non_empty(html::strip_html(content).as_str()),
        None => match html::extract_tag_by_attribute(html, "span", "data-testid", test_id) {
            Some(content) => html::non_empty(html::strip_html(content).as_str()),
            None => None,
        },
    }
}

/// The company's name as one of three marks shows it.
fn company_by_mark(html: &str) -> (r: Option<String>)
    ensures
        opt_view(r) == marked_company(html@),
{
    match text_marked(html, "job-details-company-name") {
        Some(t) => Some(t),
        None => match text_marked(html, "company-name") {
            Some(t) => Some(t),
            None => text_marked(html, "job-company-name"),
        },
    }
}

/// The company's name as one of three marks or the first link to a company shows
/// it.
pub fn extract_company_from_dom(html: &str) -> (r: Option<String>)
    ensures
        opt_view(r) == dom_company(html@),
{
    match company_by_mark(html) {
        Some(t) => Some(t),
        None => html::extract_link_text_containing(html, "/company/"),
    }
}

// ---------------------------------------------------------------------------
// Identity, title and metadata
// ---------------------------------------------------------------------------

/// The identity of the first posting whose address stands in a text.
pub open spec fn first_identity(s: Seq<char>) -> Option<(Seq<char>, Seq<char>)> {
    match find(s, "https://www.linkedin.com/jobs/view/"@) {
        Some(start) => identity_of(address_at(s, start)),
        None => None,
    }
}

/// The identity of the first posting whose address stands in a text.
pub fn first_canonical_url(html: &str) -> (r: Option<(String, String)>)
    ensures
        alert::opt_identity(r) == first_identity(html@),
{
    proof {
        text::lemma_find(html@, "https://www.linkedin.com/jobs/view/"@);
    }
    match scan::find(html, "https://www.linkedin.com/jobs/view/") {
        None => None,
        Some(start) => {
            let chars: Vec<char> = scan::to_chars(html);
            let end: usize = alert::find_address_end(chars.as_slice(), start);
            let raw: String = scan::replace_all(html.substring_char(start, end), "&amp;", "&");
            alert::canonical_linkedin_url(raw.as_str())
        },
    }
}

/// Start and end of the first paragraph, from position `at` on, that links to no
/// company. The end is where its closing tag starts.
pub open spec fn title_paragraph(s: Seq<char>, at: int) -> Option<(int, int)>
    decreases s.len() - at,
{
    match find_from(s, "<p"@, at) {
        None => None,
        Some(start) => match find_from(s, "</p>"@, start) {
            None => None,
            Some(end) => if !contains(s.subrange(start, end), "/company/"@) {
                Some((start, end))
            } else if at < end + 4 <= s.len() {
                title_paragraph(s, end + 4)
            } else {
                None
            },
        },
    }
}

/// The title that a paragraph gives, without what follows its first bare link.
pub open spec fn paragraph_title(paragraph: Seq<char>) -> Option<Seq<char>> {
    trimmed_non_empty(plain_text(text::head(paragraph, "<a href=\"#\">"@)))
}

/// The first paragraph from position `at` on.
pub open spec fn paragraph_from(s: Seq<char>, at: int) -> Option<Seq<char>> {
    match find_from(s, "<p"@, at) {
        None => None,
        Some(start) => match find_from(s, "</p>"@, start) {
            None => None,
            Some(end) => Some(s.subrange(start, end + 4)),
        },
    }
}

/// The title and the paragraph of metadata behind it.
pub open spec fn title_and_metadata(s: Seq<char>) -> Option<(Seq<char>, Seq<char>)> {
    match title_paragraph(s, 0) {
        None => None,
        Some((start, end)) => match paragraph_title(s.subrange(start, end + 4)) {
            None => None,
            Some(title) => match paragraph_from(s, end + 4) {
                None => None,
                Some(metadata) => Some((title, metadata)),
            },
        },
    }
}

/// What a title and a paragraph say.
pub open spec fn opt_title_view(r: Option<(String, &str)>) -> Option<(Seq<char>, Seq<char>)> {
    match r {
        Some(p) => Some((p.0@, p.1@)),
        None => None,
    }
}

/// Start and end of the first paragraph that links to no company.
fn find_title_paragraph(html: &str) -> (r: Option<(usize, usize)>)
    ensures
        title_paragraph(html@, 0) == (match r {
            Some(p) => Some((p.0 as int, p.1 as int)),
            None => None,
        }),
        match r {
            Some(p) => p.0 <= p.1 && p.1 + 4 <= html@.len(),
            None => true,
        },
{
    let chars: Vec<char> = scan::to_chars(html);
    let opening: Vec<char> = scan::to_chars("<p");
    let closing: Vec<char> = scan::to_chars("</p>");
    let n: usize = chars.len();
    proof {
        reveal_strlit("</p>");
    }
    let mut at: usize = 0;
    loop
        invariant
            chars@ == html@,
            opening@ == "<p"@,
            closing@ == "</p>"@,
            closing@.len() == 4,
            n == html@.len(),
            at <= n,
            title_paragraph(html@, 0) == title_paragraph(html@, at as int),
        decreases n - at,
    {
        proof {
            text::lemma_find_from(html@, opening@, at as int);
        }
        match scan::find_chars(chars.as_slice(), opening.as_slice(), at) {
            None => {
                return None;
            },
            Some(start) => {
                proof {
                    text::lemma_find_from(html@, closing@, start as int);
                }
                match scan::find_chars(chars.as_slice(), closing.as_slice(), start) {
                    None => {
                        return None;
                    },
                    Some(end) => {
                        if !scan::contains(html.substring_char(start, end), "/company/") {
                            return Some((start, end));
                        }
                        at = end + 4;
                    },
                }
            },
        }
    }
}

/// The first paragraph from position `at` on.
fn find_paragraph<'a>(html: &'a str, at: usize) -> (r: Option<&'a str>)
    requires
        at <= html@.len(),
    ensures
        opt_str_view(r) == paragraph_from(html@, at as int),
{
    let chars: Vec<char> = scan::to_chars(html);
    let opening: Vec<char> = scan::to_chars("<p");
    let closing: Vec<char> = scan::to_chars("</p>");
    let n: usize = chars.len();
    proof {
        reveal_strlit("</p>");
        text::lemma_find_from(html@, opening@, at as int);
        assert(n == html@.len());
    }
    match scan::find_chars(chars.as_slice(), opening.as_slice(), at) {
        None => None,
        Some(start) => {
            proof {
                text::lemma_find_from(html@, closing@, start as int);
            }
            match scan::find_chars(chars.as_slice(), closing.as_slice(), start) {
                None => None,
                Some(end) => Some(html.substring_char(start, end + 4)),
            }
        },
    }
}

/// The title and the paragraph of metadata behind it.
pub fn header_title_and_metadata<'a>(html: &'a str) -> (r: Option<(String, &'a str)>)
    ensures
        opt_title_view(r) == title_and_metadata(html@),
{
    match find_title_paragraph(html) {
        None => None,
        Some((start, end)) => {
            let n: usize = html.unicode_len();
            assert(end + 4 <= n);
            let paragraph: &str = html.substring_char(start, end + 4);
            let plain: String = html::strip_html(scan::head(paragraph, "<a href=\"#\">"));
            match html::non_empty(plain.as_str()) {
                None => None,
                Some(title) => match find_paragraph(html, end + 4) {
                    None => None,
                    Some(metadata) => Some((title, metadata)),
                },
            }
        },
    }
}

/// A text that tells when a posting was posted.
pub open spec fn tells_posting_time(s: Seq<char>) -> bool {
    starts_with(lower(s), "posted "@) || starts_with(lower(s), "reposted "@)
}

/// A text that tells where a posting's work is.
pub open spec fn tells_location(s: Seq<char>) -> bool {
    contains(s, ","@) && !tells_posting_time(s) && !contains(s, "people clicked apply"@)
}

/// A text that tells whether a posting's work is done on site.
pub open spec fn tells_work_mode(s: Seq<char>) -> bool {
    s == "On-site"@ || s == "Hybrid"@ || s == "Remote"@
}

/// A text that tells the kind of a posting's employment.
pub open spec fn tells_employment(s: Seq<char>) -> bool {
    s == "Full-time"@ || s == "Part-time"@ || s == "Contract"@ || s == "Internship"@ || s
        == "Temporary"@
}

/// Whether a text tells when a posting was posted.
pub fn is_posted_text(value: &str) -> (r: bool)
    ensures
        r == tells_posting_time(value@),
{
    let lowered: String = scan::lower(value);
    scan::starts_with(lowered.as_str(), "posted ") || scan::starts_with(
        lowered.as_str(),
        "reposted ",
    )
}

/// Whether a text tells where a posting's work is.
pub fn is_location(value: &str) -> (r: bool)
    ensures
        r == tells_location(value@),
{
    scan::contains(value, ",") && !is_posted_text(value) && !scan::contains(
        value,
        "people clicked apply",
    )
}

/// Whether a text tells whether a posting's work is done on site.
pub fn is_work_mode(value: &str) -> (r: bool)
    ensures
        r == tells_work_mode(value@),
{
    scan::same(value, "On-site") || scan::same(value, "Hybrid") || scan::same(value, "Remote")
}

/// Whether a text tells the kind of a posting's employment.
pub fn is_employment_type(value: &str) -> (r: bool)
    ensures
        r == tells_employment(value@),
{
    scan::same(value, "Full-time") || scan::same(value, "Part-time") || scan::same(
        value,
        "Contract",
    ) || scan::same(value, "Internship") || scan::same(value, "Temporary")
}

/// What a text among a posting's metadata can tell.
#[derive(Clone, Copy, Debug, PartialEq, Eq, Structural)]
pub enum Detail {
    Location,
    PostingTime,
    WorkMode,
    Employment,
}

/// A text tells a detail.
pub open spec fn tells(s: Seq<char>, detail: Detail) -> bool {
    match detail {
        Detail::Location => tells_location(s),
        Detail::PostingTime => tells_posting_time(s),
        Detail::WorkMode => tells_work_mode(s),
        Detail::Employment => tells_employment(s),
    }
}

/// The first text of a list that tells a detail.
pub open spec fn first_that_tells(all: Seq<Seq<char>>, detail: Detail) -> Option<Seq<char>>
    decreases all.len(),
{
    if all.len() == 0 {
        None
    } else if tells(all[0], detail) {
        Some(all[0])
    } else {
        first_that_tells(all.skip(1), detail)
    }
}

/// Whether a text tells a detail.
fn is_detail(value: &str, detail: Detail) -> (r: bool)
    ensures
        r == tells(value@, detail),
{
    match detail {
        Detail::Location => is_location(value),
        Detail::PostingTime => is_posted_text(value),
        Detail::WorkMode => is_work_mode(value),
        Detail::Employment => is_employment_type(value),
    }
}

/// The first text of a list that tells a detail.
fn find_detail(all: &Vec<String>, detail: Detail) -> (r: Option<String>)
    ensures
        opt_view(r) == first_that_tells(views(all@), detail),
{
    let ghost texts = views(all@);
    let mut i: usize = 0;
    assert(texts.skip(0) =~= texts);
    while i < all.len()
        invariant
            texts == views(all@),
            i <= all@.len(),
            first_that_tells(texts, detail) == first_that_tells(texts.skip(i as int), detail),
        decreases all@.len() - i,
    {
        assert(texts.skip(i as int)[0] == all@[i as int]@);
        assert(texts.skip(i as int).skip(1) =~= texts.skip(i + 1));
        if is_detail(all[i].as_str(), detail) {
            return Some(all[i].clone());
        }
        i += 1;
    }
    None
}

// ---------------------------------------------------------------------------
// Where to apply
// ---------------------------------------------------------------------------

/// The escaped address behind the link for applications on the company's own
/// site.
pub open spec fn escaped_apply_url(s: Seq<char>) -> Option<Seq<char>> {
    match find(s, "aria-label=\"Apply on company website\""@) {
        None => None,
        Some(mark) => match rfind(s.take(mark), "<a "@) {
            None => None,
            Some(start) => match text::before(s.skip(start), ">"@) {
                None => None,
                Some(tag) => match find(tag, "href=\""@) {
                    None => None,
                    Some(href) => match text::before(s.skip(start + href + 6), "\""@) {
                        None => None,
                        Some(address) => match text::after(address, "url="@) {
                            None => None,
                            Some(target) => Some(text::head(target, "&"@)),
                        },
                    },
                },
            },
        },
    }
}

/// The address for applications on the company's own site.
pub open spec fn apply_url(s: Seq<char>) -> Option<Seq<char>> {
    match escaped_apply_url(s) {
        Some(t) => Some(encoding::utf8_lossy(encoding::unescaped(encode_utf8(t)))),
        None => None,
    }
}

/// The escaped address behind the link for applications.
fn find_escaped_apply_url<'a>(html: &'a str) -> (r: Option<&'a str>)
    ensures
        opt_str_view(r) == escaped_apply_url(html@),
{
    proof {
        text::lemma_find(html@, "aria-label=\"Apply on company website\""@);
    }
    match scan::find(html, "aria-label=\"Apply on company website\"") {
        None => None,
        Some(mark) => {
            let head: &str = scan::take(html, mark);
            proof {
                text::lemma_rfind_upto(head@, "<a "@, head@.len() as int);
            }
            match scan::rfind(head, "<a ") {
                None => None,
                Some(start) => {
                    let rest: &'a str = scan::skip(html, start);
                    proof {
                        text::lemma_find(rest@, ">"@);
                    }
                    match scan::before(rest, ">") {
                        None => None,
                        Some(tag) => {
                            proof {
                                reveal_strlit("href=\"");
                                text::lemma_find(tag@, "href=\""@);
                            }
                            match scan::find(tag, "href=\"") {
                                None => None,
                                Some(href) => {
                                    let n: usize = rest.unicode_len();
                                    assert(href + 6 <= n);
                                    let value: &'a str = scan::skip(rest, href + 6);
                                    assert(value@ =~= html@.skip(start + href + 6));
                                    match scan::before(value, "\"") {
                                        None => None,
                                        Some(address) => match scan::after(address, "url=") {
                                            None => None,
                                            Some(target) => Some(scan::head(target, "&")),
                                        },
                                    }
                                },
                            }
                        },
                    }
                },
            }
        },
    }
}

/// The address for applications on the company's own site.
pub fn extract_apply_url(html: &str) -> (r: Option<String>)
    ensures
        opt_view(r) == apply_url(html@),
{
    match find_escaped_apply_url(html) {
        Some(escaped) => Some(encoding::percent_decode(escaped)),
        None => None,
    }
}

// ---------------------------------------------------------------------------
// The head as a whole
// ---------------------------------------------------------------------------

/// What the head of a posting's page says.
#[derive(Debug)]
pub struct LinkedInHeader {
    pub job_id: Option<String>,
    pub url: Option<String>,
    pub title: Option<String>,
    pub company: Option<String>,
    pub location: Option<String>,
    pub published_raw: Option<String>,
    pub work_mode: Option<String>,
    pub employment_type: Option<String>,
    pub apply_url: Option<String>,
}

/// What the head of a posting's page says, as text.
#[verifier::ext_equal]
pub struct HeaderView {
    pub job_id: Option<Seq<char>>,
    pub url: Option<Seq<char>>,
    pub title: Option<Seq<char>>,
    pub company: Option<Seq<char>>,
    pub location: Option<Seq<char>>,
    pub published_raw: Option<Seq<char>>,
    pub work_mode: Option<Seq<char>>,
    pub employment_type: Option<Seq<char>>,
    pub apply_url: Option<Seq<char>>,
}

impl View for LinkedInHeader {
    type V = HeaderView;

    open spec fn view(&self) -> HeaderView {
        HeaderView {
            job_id: opt_view(self.job_id),
            url: opt_view(self.url),
            title: opt_view(self.title),
            company: opt_view(self.company),
            location: opt_view(self.location),
            published_raw: opt_view(self.published_raw),
            work_mode: opt_view(self.work_mode),
            employment_type: opt_view(self.employment_type),
            apply_url: opt_view(self.apply_url),
        }
    }
}

/// What the head `w` of a page says, where `label` is the company that its label
/// names a second time and `alert` the alert that led to the page.
pub open spec fn header_of(w: Seq<char>, label: Option<Seq<char>>, alert: AlertView) -> HeaderView {
    let (job_id, url) = match first_identity(w) {
        Some(found) => found,
        None => (alert.id, alert.url),
    };
    let company = match label {
        Some(name) => Some(name),
        None => dom_company(w),
    };
    let (title, said) = match title_and_metadata(w) {
        Some((title, metadata)) => (Some(title), element_texts(metadata, "span"@, 0)),
        None => (None, Seq::empty()),
    };
    HeaderView {
        job_id: Some(job_id),
        url: Some(url),
        title,
        company,
        location: first_that_tells(said, Detail::Location),
        published_raw: first_that_tells(said, Detail::PostingTime),
        work_mode: first_that_tells(said, Detail::WorkMode),
        employment_type: first_that_tells(said, Detail::Employment),
        apply_url: apply_url(w),
    }
}

/// The head that a page without any mark has: the alert's identity.
pub open spec fn bare_header(alert: AlertView) -> HeaderView {
    HeaderView {
        job_id: Some(alert.id),
        url: Some(alert.url),
        title: None,
        company: None,
        location: None,
        published_raw: None,
        work_mode: None,
        employment_type: None,
        apply_url: None,
    }
}

/// What the head of a page says, where `alert` led to the page.
pub open spec fn page_header(s: Seq<char>, alert: AlertView) -> HeaderView {
    match header_start(s) {
        None => bare_header(alert),
        Some(start) => header_of(
            header_window(s, start),
            labelled_company(s.skip(start)),
            alert,
        ),
    }
}

/// What the head of a page says, where `alert` led to the page.
pub fn parse_linkedin_header(html: &str, alert: &AlertJob) -> (r: LinkedInHeader)
    ensures
        r@ == page_header(html@, alert@),
{
    let mut header: LinkedInHeader = LinkedInHeader {
        job_id: Some(alert.id.clone()),
        url: Some(alert.url.clone()),
        title: None,
        company: None,
        location: None,
        published_raw: None,
        work_mode: None,
        employment_type: None,
        apply_url: None,
    };
    let start: usize = match find_header_start(html) {
        Some(start) => start,
        None => {
            return header;
        },
    };
    let rest: &str = scan::skip(html, start);
    let w: &str = scan::take(rest, count_chars_in(rest, HEADER_BYTES));
    assert(header_window(html@, start as int) == w@);
    header.company = match company_in_label(rest) {
        Some(name) => Some(name),
        None => extract_company_from_dom(w),
    };
    match first_canonical_url(w) {
        Some((id, url)) => {
            header.job_id = Some(id);
            header.url = Some(url);
        },
        None => {},
    }
    match header_title_and_metadata(w) {
        Some((title, metadata)) => {
            header.title = Some(title);
            let said: Vec<String> = html::tag_texts(metadata, "span");
            header.location = find_detail(&said, Detail::Location);
            header.published_raw = find_detail(&said, Detail::PostingTime);
            header.work_mode = find_detail(&said, Detail::WorkMode);
            header.employment_type = find_detail(&said, Detail::Employment);
        },
        None => {},
    }
    header.apply_url = extract_apply_url(w);
    header
}

// ---------------------------------------------------------------------------
// Laws
// ---------------------------------------------------------------------------

/// How many bytes a text takes, character by character.
pub open spec fn total_width(s: Seq<char>) -> int
    decreases s.len(),
{
    if s.len() == 0 {
        0
    } else {
        char_width(s[0]) + total_width(s.skip(1))
    }
}

/// A character takes one byte up to U+007F, two up to U+07FF, three up to U+FFFF, and
/// four above.
pub proof fn law_widths_are_utf8s(c: char)
    ensures
        c <= '\u{7f}' ==> char_width(c) == 1,
        '\u{80}' <= c <= '\u{7ff}' ==> char_width(c) == 2,
        '\u{800}' <= c <= '\u{ffff}' ==> char_width(c) == 3,
        '\u{10000}' <= c ==> char_width(c) == 4,
{
}

/// A page's head is the page from its start on, as far as 5000 bytes reach: it takes
/// no more, and takes as many characters as it can.
pub proof fn law_the_head_is_as_long_as_it_can_be(s: Seq<char>, start: int)
    requires
        0 <= start <= s.len(),
    ensures
        ({
            let w = header_window(s, start);
            &&& w.len() <= s.len() - start
            &&& w == s.subrange(start, start + w.len())
            &&& total_width(w) <= 5000
            &&& start + w.len() < s.len() ==> total_width(s.subrange(start, start + w.len() + 1))
                > 5000
        }),
{
    let rest = s.skip(start);
    lemma_chars_in(rest, 5000);
    let n = chars_in(rest, 5000) as int;
    let w = header_window(s, start);
    assert(w =~= rest.take(n));
    assert(w =~= s.subrange(start, start + w.len()));
    if start + w.len() < s.len() {
        assert(s.subrange(start, start + w.len() + 1) =~= rest.take(n + 1));
    }
}

/// As many characters fit as can.
proof fn lemma_chars_in(s: Seq<char>, bytes: int)
    requires
        0 <= bytes,
    ensures
        chars_in(s, bytes) <= s.len(),
        total_width(s.take(chars_in(s, bytes) as int)) <= bytes,
        chars_in(s, bytes) < s.len() ==> total_width(s.take(chars_in(s, bytes) as int + 1)) > bytes,
    decreases s.len(),
{
    if s.len() == 0 || bytes < char_width(s[0]) {
        assert(s.take(0) =~= Seq::empty());
        if s.len() > 0 {
            let one = s.take(1);
            assert(one[0] == s[0]);
            assert(one.skip(1) =~= Seq::empty());
            assert(total_width(one.skip(1)) == 0);
        }
    } else {
        let rest = s.skip(1);
        let n = chars_in(rest, bytes - char_width(s[0])) as int;
        lemma_chars_in(rest, bytes - char_width(s[0]));
        let t = s.take(n + 1);
        assert(t[0] == s[0]);
        assert(t.skip(1) =~= rest.take(n));
        if n + 1 < s.len() {
            let u = s.take(n + 2);
            assert(u[0] == s[0]);
            assert(u.skip(1) =~= rest.take(n + 1));
        }
    }
}

/// A page's head starts at the last tag that opens before its first mark, or at the
/// mark itself where none does. The mark is the company's label, or else the
/// company's name, or else an address of a posting; a page without any has no head,
/// and is told by the alert alone.
pub proof fn law_the_head_starts_at_its_first_mark(s: Seq<char>, alert: AlertView, mark: int)
    requires
        ({
            let label = find(s, "aria-label=\"Company,"@);
            let name = find(s, "data-testid=\"job-details-company-name\""@);
            let address = find(s, "https://www.linkedin.com/jobs/view/"@);
            ||| label == Some(mark)
            ||| label is None && name == Some(mark)
            ||| label is None && name is None && address == Some(mark)
        }),
    ensures
        ({
            let start = match rfind(s.take(mark), "<"@) {
                Some(i) => i,
                None => mark,
            };
            page_header(s, alert) == header_of(
                header_window(s, start),
                labelled_company(s.skip(start)),
                alert,
            )
        }),
{
}

/// A page without any mark is told by the alert alone.
pub proof fn law_a_page_may_have_no_head(s: Seq<char>, alert: AlertView)
    requires
        !contains(s, "aria-label=\"Company,"@),
        !contains(s, "data-testid=\"job-details-company-name\""@),
        !contains(s, "https://www.linkedin.com/jobs/view/"@),
    ensures
        ({
            let out = page_header(s, alert);
            &&& out.job_id == Some(alert.id) && out.url == Some(alert.url)
            &&& out.title is None && out.company is None && out.location is None
            &&& out.published_raw is None && out.work_mode is None
            &&& out.employment_type is None && out.apply_url is None
        }),
{
}

/// A label such as `Company,Company, Acme.` names the company, without the full stops
/// behind it and white space around it; a label that says `Company,` only once, or
/// that is not closed, names none.
pub proof fn law_labels_name_the_company_twice(
    s: Seq<char>,
    name: Seq<char>,
    rest: Seq<char>,
    n: nat,
)
    requires
        !name.contains('"'),
        !text::ends_with(name, "."@),
    ensures
        ({
            let label = "Company,"@ + name + text::repeated("."@, n);
            let out = labelled_company("aria-label=\"Company,"@ + label + "\""@ + rest);
            &&& text::trim(name).len() > 0 ==> out == Some(text::trim(name))
            &&& text::trim(name).len() == 0 ==> out is None
        }),
        !starts_with(s, "aria-label=\"Company,"@) ==> labelled_company(s) is None,
{
    reveal_strlit("aria-label=\"Company,");
    reveal_strlit("Company,");
    reveal_strlit("\"");
    reveal_strlit(".");
    let dots = text::repeated("."@, n);
    let named = name + dots;
    let label = "Company,"@ + name + dots;
    let all = "aria-label=\"Company,"@ + label + "\""@ + rest;
    let behind = label + "\""@ + rest;
    assert(all =~= "aria-label=\"Company,"@ + behind);
    text::law_stripping_takes_one(all, "aria-label=\"Company,"@);
    assert(all.take("aria-label=\"Company,"@.len() as int) =~= "aria-label=\"Company,"@);
    assert(all.subrange(0, "aria-label=\"Company,"@.len() as int) =~= "aria-label=\"Company,"@);
    assert(all.skip("aria-label=\"Company,"@.len() as int) =~= behind);
    lemma_dots(n);
    assert forall|k: int| 0 <= k < label.len() implies #[trigger] label[k] != '"' by {
        if k < 8 {
        } else if k < 8 + name.len() {
            assert(name[k - 8] == label[k]);
        } else {
            assert(dots[k - 8 - name.len()] == label[k]);
        }
    }
    assert forall|j: int|
        0 <= j < label.len() && j + "\""@.len() <= behind.len() implies #[trigger] behind.subrange(
        j,
        j + "\""@.len(),
    ) != "\""@ by {
        assert(behind.subrange(j, j + 1)[0] == label[j]);
        assert("\""@[0] == '"');
    }
    text::law_parts_of_a_text(behind, label, "\""@, rest);
    assert(label =~= "Company,"@ + named);
    assert(label.take(8) =~= "Company,"@);
    assert(label.subrange(0, 8) =~= "Company,"@);
    assert(label.skip(8) =~= named);
    lemma_drop_dots(name, n);
    text::law_trimming(name);
}

/// Full stops are full stops.
proof fn lemma_dots(n: nat)
    ensures
        text::repeated("."@, n).len() == n,
        forall|k: int| 0 <= k < n ==> #[trigger] text::repeated("."@, n)[k] == '.',
    decreases n,
{
    reveal_strlit(".");
    if n > 0 {
        lemma_dots((n - 1) as nat);
    }
}

/// All full stops behind a text that ends in none are dropped.
proof fn lemma_drop_dots(name: Seq<char>, n: nat)
    requires
        !text::ends_with(name, "."@),
    ensures
        text::drop_suffixes(name + text::repeated("."@, n), "."@) == name,
    decreases n,
{
    reveal_strlit(".");
    lemma_dots(n);
    let all = name + text::repeated("."@, n);
    if n == 0 {
        assert(all =~= name);
    } else {
        lemma_dots((n - 1) as nat);
        lemma_drop_dots(name, (n - 1) as nat);
        let fewer = name + text::repeated("."@, (n - 1) as nat);
        assert(all.take(all.len() - 1) =~= fewer);
        assert(all.subrange(all.len() - 1, all.len() as int) =~= "."@);
        assert(all.skip(all.len() - 1) =~= "."@);
        assert(text::ends_with(all, "."@));
    }
}

/// The company that a page's head names is that of the label, or else of the first of
/// three marks that shows one, or else of the first link to a company.
pub proof fn law_the_head_names_the_company(
    w: Seq<char>,
    label: Option<Seq<char>>,
    alert: AlertView,
)
    ensures
        ({
            let a = marked_text(w, "job-details-company-name"@);
            let b = marked_text(w, "company-name"@);
            let c = marked_text(w, "job-company-name"@);
            let out = header_of(w, label, alert).company;
            &&& label is Some ==> out == label
            &&& label is None && a is Some ==> out == a
            &&& label is None && a is None && b is Some ==> out == b
            &&& label is None && a is None && b is None && c is Some ==> out == c
            &&& label is None && a is None && b is None && c is None ==> out == link_text(
                w,
                "/company/"@,
            )
        }),
{
}

/// A mark shows the plain text of its link, or else of its span.
pub proof fn law_marks_show_their_text(s: Seq<char>, test_id: Seq<char>)
    ensures
        ({
            let link = element_by_attribute(s, "a"@, "data-testid"@, test_id);
            let span = element_by_attribute(s, "span"@, "data-testid"@, test_id);
            let out = marked_text(s, test_id);
            &&& link is Some && text::trim(plain_text(link->0)).len() > 0 ==> out == Some(
                text::trim(plain_text(link->0)),
            )
            &&& link is Some && text::trim(plain_text(link->0)).len() == 0 ==> out is None
            &&& link is None && span is Some && text::trim(plain_text(span->0)).len() > 0 ==> out
                == Some(text::trim(plain_text(span->0)))
            &&& link is None && span is Some && text::trim(plain_text(span->0)).len() == 0 ==> out
                is None
            &&& link is None && span is None ==> out is None
        }),
{
    if let Some(link) = element_by_attribute(s, "a"@, "data-testid"@, test_id) {
        text::law_trimming(plain_text(link));
    }
    if let Some(span) = element_by_attribute(s, "span"@, "data-testid"@, test_id) {
        text::law_trimming(plain_text(span));
    }
}

/// The posting that a page's head is about is the one that the first address of a
/// posting in it leads to, or else the alert's.
pub proof fn law_the_first_address_tells_the_posting(
    w: Seq<char>,
    label: Option<Seq<char>>,
    alert: AlertView,
)
    ensures
        ({
            let found = match find(w, "https://www.linkedin.com/jobs/view/"@) {
                Some(start) => identity_of(address_at(w, start)),
                None => None,
            };
            let out = header_of(w, label, alert);
            &&& found is Some ==> out.job_id == Some((found->0).0) && out.url == Some((found->0).1)
            &&& found is None ==> out.job_id == Some(alert.id) && out.url == Some(alert.url)
        }),
{
}

/// The title is the text of the first paragraph that links to no company, up to its
/// first bare link, and the details are the texts of the spans of the paragraph
/// behind it: the first of them that tells a detail tells it.
pub proof fn law_paragraphs_tell_title_and_details(
    w: Seq<char>,
    label: Option<Seq<char>>,
    alert: AlertView,
    start: int,
    end: int,
    next: int,
    next_end: int,
)
    requires
        find_from(w, "<p"@, 0) == Some(start),
        find_from(w, "</p>"@, start) == Some(end),
        !contains(w.subrange(start, end), "/company/"@),
        text::trim(plain_text(text::head(w.subrange(start, end + 4), "<a href=\"#\">"@))).len() > 0,
        find_from(w, "<p"@, end + 4) == Some(next),
        find_from(w, "</p>"@, next) == Some(next_end),
    ensures
        ({
            let said = element_texts(w.subrange(next, next_end + 4), "span"@, 0);
            let out = header_of(w, label, alert);
            &&& out.title == Some(
                text::trim(
                    plain_text(text::head(w.subrange(start, end + 4), "<a href=\"#\">"@)),
                ),
            )
            &&& out.location == first_that_tells(said, Detail::Location)
            &&& out.published_raw == first_that_tells(said, Detail::PostingTime)
            &&& out.work_mode == first_that_tells(said, Detail::WorkMode)
            &&& out.employment_type == first_that_tells(said, Detail::Employment)
        }),
{
    text::law_trimming(plain_text(text::head(w.subrange(start, end + 4), "<a href=\"#\">"@)));
}

/// A paragraph that links to a company is not the title's.
pub proof fn law_company_paragraphs_are_passed_over(s: Seq<char>, at: int, start: int, end: int)
    requires
        0 <= at,
        find_from(s, "<p"@, at) == Some(start),
        find_from(s, "</p>"@, start) == Some(end),
    ensures
        contains(s.subrange(start, end), "/company/"@) ==> title_paragraph(s, at)
            == title_paragraph(s, end + 4),
        !contains(s.subrange(start, end), "/company/"@) ==> title_paragraph(s, at) == Some(
            (start, end),
        ),
{
    reveal_strlit("</p>");
    text::lemma_find_from(s, "<p"@, at);
    text::lemma_find_from(s, "</p>"@, start);
}

/// A page's head whose paragraphs give no title, or none behind it, has neither title
/// nor details.
pub proof fn law_a_head_may_have_no_title(
    w: Seq<char>,
    label: Option<Seq<char>>,
    alert: AlertView,
)
    requires
        ({
            let p = title_paragraph(w, 0);
            ||| p is None
            ||| text::trim(
                plain_text(text::head(w.subrange((p->0).0, (p->0).1 + 4), "<a href=\"#\">"@)),
            ).len() == 0
            ||| find_from(w, "<p"@, (p->0).1 + 4) is None
        }),
    ensures
        ({
            let out = header_of(w, label, alert);
            &&& out.title is None && out.location is None && out.published_raw is None
            &&& out.work_mode is None && out.employment_type is None
        }),
{
    if let Some((start, end)) = title_paragraph(w, 0) {
        text::law_trimming(plain_text(text::head(w.subrange(start, end + 4), "<a href=\"#\">"@)));
    }
}

/// A time of posting starts with what was done, in either case of letters; a place has
/// a comma, and is neither a time nor a count of applicants; work modes and kinds of
/// employment are the site's own words.
pub proof fn law_details_are_told_by_their_words(s: Seq<char>, rest: Seq<char>)
    ensures
        lower(s) == "posted "@ + rest ==> tells(s, Detail::PostingTime),
        lower(s) == "reposted "@ + rest ==> tells(s, Detail::PostingTime),
        tells(s, Detail::PostingTime) ==> starts_with(lower(s), "posted "@) || starts_with(
            lower(s),
            "reposted "@,
        ),
        tells(s, Detail::Location) <==> contains(s, ","@) && !starts_with(lower(s), "posted "@)
            && !starts_with(lower(s), "reposted "@) && !contains(s, "people clicked apply"@),
        tells(s, Detail::WorkMode) <==> s == "On-site"@ || s == "Hybrid"@ || s == "Remote"@,
        tells(s, Detail::Employment) <==> s == "Full-time"@ || s == "Part-time"@ || s
            == "Contract"@ || s == "Internship"@ || s == "Temporary"@,
{
    if lower(s) == "posted "@ + rest {
        assert(lower(s).subrange(0, "posted "@.len() as int) =~= "posted "@);
    }
    if lower(s) == "reposted "@ + rest {
        assert(lower(s).subrange(0, "reposted "@.len() as int) =~= "reposted "@);
    }
}

/// The first text that tells a detail tells it; where none does there is none.
pub proof fn law_the_first_that_tells_counts(all: Seq<Seq<char>>, detail: Detail, i: int)
    ensures
        0 <= i < all.len() && tells(all[i], detail) && (forall|j: int|
            0 <= j < i ==> !tells(#[trigger] all[j], detail)) ==> first_that_tells(all, detail)
            == Some(all[i]),
        (forall|j: int| 0 <= j < all.len() ==> !tells(#[trigger] all[j], detail))
            ==> first_that_tells(all, detail) is None,
    decreases all.len(),
{
    if all.len() > 0 {
        let rest = all.skip(1);
        law_the_first_that_tells_counts(rest, detail, i - 1);
        assert(forall|j: int| 0 <= j < rest.len() ==> #[trigger] rest[j] == all[j + 1]);
    }
}

/// The address for applications is the parameter `url` of the link that is marked as
/// leading to the company's own site, with its escapes written out.
pub proof fn law_applications_go_to_the_links_parameter(
    s: Seq<char>,
    mark: int,
    start: int,
    tag: Seq<char>,
    href: int,
    address: Seq<char>,
    target: Seq<char>,
)
    requires
        find(s, "aria-label=\"Apply on company website\""@) == Some(mark),
        rfind(s.take(mark), "<a "@) == Some(start),
        text::before(s.skip(start), ">"@) == Some(tag),
        find(tag, "href=\""@) == Some(href),
        text::before(s.skip(start + href + 6), "\""@) == Some(address),
        text::after(address, "url="@) == Some(target),
    ensures
        escaped_apply_url(s) == Some(text::head(target, "&"@)),
        apply_url(s) == Some(
            encoding::utf8_lossy(encoding::unescaped(encode_utf8(text::head(target, "&"@)))),
        ),
{
}

/// A page without such a link, or a link without such a parameter, gives no address
/// for applications.
pub proof fn law_applications_may_have_no_address(s: Seq<char>)
    ensures
        !contains(s, "aria-label=\"Apply on company website\""@) ==> apply_url(s) is None,
        !contains(s, "url="@) ==> apply_url(s) is None,
        forall|w: Seq<char>, label: Option<Seq<char>>, alert: AlertView|
            (#[trigger] header_of(w, label, alert)).apply_url == apply_url(w),
{
    if let Some(t) = escaped_apply_url(s) {
        let mark = find(s, "aria-label=\"Apply on company website\""@)->0;
        let start = rfind(s.take(mark), "<a "@)->0;
        let tag = text::before(s.skip(start), ">"@)->0;
        let href = find(tag, "href=\""@)->0;
        let from = start + href + 6;
        let address = text::before(s.skip(from), "\""@)->0;
        text::lemma_find(s, "aria-label=\"Apply on company website\""@);
        text::lemma_rfind_upto(s.take(mark), "<a "@, s.take(mark).len() as int);
        text::lemma_find(s.skip(start), ">"@);
        text::lemma_find(tag, "href=\""@);
        text::lemma_find(s.skip(from), "\""@);
        text::lemma_find(address, "url="@);
        reveal_strlit("href=\"");
        let k = find(address, "url="@)->0;
        assert(address =~= s.skip(from).take(address.len() as int));
        assert(address.subrange(k, k + "url="@.len()) =~= s.subrange(
            from + k,
            from + k + "url="@.len(),
        ));
        text::lemma_find(s, "url="@);
        assert(text::occurs_at(s, "url="@, from + k));
    }
}

/// A page's head says what each of its fields holds.
pub proof fn law_a_head_says_what_it_holds(x: LinkedInHeader)
    ensures
        x@.job_id == opt_view(x.job_id),
        x@.url == opt_view(x.url),
        x@.title == opt_view(x.title),
        x@.company == opt_view(x.company),
        x@.location == opt_view(x.location),
        x@.published_raw == opt_view(x.published_raw),
        x@.work_mode == opt_view(x.work_mode),
        x@.employment_type == opt_view(x.employment_type),
        x@.apply_url == opt_view(x.apply_url),
{
}

/// A text takes as many bytes as its characters take together.
pub proof fn law_widths_add_up_to_bytes(s: Seq<char>)
    ensures
        total_width(s) == text::byte_len(s),
    decreases s.len(),
{
    if s.len() > 0 {
        assert(s.drop_first() =~= s.skip(1));
        law_widths_add_up_to_bytes(s.skip(1));
        vstd::utf8::char_is_scalar(s[0]);
        assert(vstd::utf8::encode_scalar(s[0] as u32).len() == char_width(s[0]));
    }
}

} // verus!
