//! A posting's page on LinkedIn: the posting that it describes.

use vstd::prelude::*;
use vstd::string::*;
use crate::clock;
use crate::clock::{is_calendar_second, past_rfc3339, Timestamp};
use crate::html;
use crate::html::{element_by_attribute, labeled_section, meta_content, page_title, plain_text, time_datetime, without_scripts_and_styles};
use crate::job::{copy_option, JobListing, JobView};
use crate::json;
use crate::json::{opt_tree, parsed_json, Json, JsonTree};
use crate::number;
use crate::scan;
use crate::source::alert::{AlertJob, AlertView};
use crate::source::header;
use crate::source::header::{page_header, LinkedInHeader};
use crate::text;
use crate::text::{byte_len, contains, lower, opt_str_view, opt_view, starts_with, trim, trimmed_non_empty, views, words};

verus! {

broadcast use vstd::string::group_string_axioms;

// ---------------------------------------------------------------------------
// Dates that are told by their distance
// ---------------------------------------------------------------------------

/// How many seconds an hour has.
pub const HOUR: i128 = 3_600;

/// How many seconds a day has.
pub const DAY: i128 = 86_400;

/// The number that a word writes, where it is one of 64 bits with a sign.
pub open spec fn word_number(word: Seq<char>) -> Option<int> {
    match number::integer(word) {
        Some(n) => if i64::MIN <= n <= i64::MAX {
            Some(n)
        } else {
            None
        },
        None => None,
    }
}

/// The seconds that a number of days, weeks or months has; a month has 30 days.
pub open spec fn calendar_span(amount: int, unit: Seq<char>) -> Option<int> {
    if starts_with(unit, "day"@) {
        Some(amount * DAY)
    } else if starts_with(unit, "week"@) {
        Some(amount * 7 * DAY)
    } else if starts_with(unit, "month"@) {
        Some(amount * 30 * DAY)
    } else {
        None
    }
}

/// How many seconds ago a text such as `Reposted 3 days ago` tells of.
pub open spec fn posted_seconds_ago(raw: Seq<char>) -> Option<int> {
    let w = words(
        text::drop_prefixes(text::drop_prefixes(trim(raw), "Reposted "@), "Posted "@),
    );
    if w.len() < 2 {
        None
    } else {
        match word_number(w[0]) {
            None => None,
            Some(amount) => if starts_with(lower(w[1]), "hour"@) {
                Some(amount * HOUR)
            } else {
                calendar_span(amount, lower(w[1]))
            },
        }
    }
}

/// How many seconds ago the first number of days, weeks or months tells of that
/// stands, with a third word behind it, among the words from `at` on.
pub open spec fn seconds_ago_among(w: Seq<Seq<char>>, at: int) -> Option<int>
    decreases w.len() - at,
{
    if at < 0 || at + 2 >= w.len() {
        None
    } else if word_number(w[at]) is Some && calendar_span(0, w[at + 1]) is Some {
        calendar_span(word_number(w[at])->0, w[at + 1])
    } else {
        seconds_ago_among(w, at + 1)
    }
}

/// How many seconds ago the first age on a page tells of.
pub open spec fn page_seconds_ago(s: Seq<char>) -> Option<int> {
    seconds_ago_among(words(lower(plain_text(s))), 0)
}

/// The value of a span with a sign, if there is one.
pub open spec fn opt_span(r: Option<i128>) -> Option<int> {
    match r {
        Some(v) => Some(v as int),
        None => None,
    }
}

/// A span that fits any calendar, if there is one.
pub open spec fn is_bounded(r: Option<i128>) -> bool {
    r is Some ==> -0x1_0000_0000_0000_0000_0000_0000 < r->0 < 0x1_0000_0000_0000_0000_0000_0000
}

/// The seconds that a number of days, weeks or months has.
fn span_of(amount: i64, unit: &str) -> (r: Option<i128>)
    ensures
        opt_span(r) == calendar_span(amount as int, unit@),
        is_bounded(r),
{
    if scan::starts_with(unit, "day") {
        Some(amount as i128 * DAY)
    } else if scan::starts_with(unit, "week") {
        Some(amount as i128 * 7 * DAY)
    } else if scan::starts_with(unit, "month") {
        Some(amount as i128 * 30 * DAY)
    } else {
        None
    }
}

/// How many seconds ago a text tells of.
pub fn seconds_since_posted(raw: &str) -> (r: Option<i128>)
    ensures
        opt_span(r) == posted_seconds_ago(raw@),
        is_bounded(r),
{
    let rest: &str = scan::drop_prefixes(
        scan::drop_prefixes(scan::trim(raw), "Reposted "),
        "Posted ",
    );
    let all: Vec<String> = scan::words(rest);
    let ghost w = views(all@);
    if all.len() < 2 {
        return None;
    }
    assert(w[0] == all@[0]@ && w[1] == all@[1]@);
    let amount: i64 = match number::parse_i64(all[0].as_str()) {
        Some(amount) => amount,
        None => {
            return None;
        },
    };
    let unit: String = scan::lower(all[1].as_str());
    if scan::starts_with(unit.as_str(), "hour") {
        Some(amount as i128 * HOUR)
    } else {
        span_of(amount, unit.as_str())
    }
}

/// How many seconds ago the first age on a page tells of.
pub fn seconds_since_posted_on(html: &str) -> (r: Option<i128>)
    ensures
        opt_span(r) == page_seconds_ago(html@),
        is_bounded(r),
{
    let plain: String = scan::lower(html::strip_html(html).as_str());
    let all: Vec<String> = scan::words(plain.as_str());
    let ghost w = views(all@);
    let n: usize = all.len();
    let mut i: usize = 0;
    while i < n && n - i > 2
        invariant
            w == views(all@),
            w == words(lower(plain_text(html@))),
            n == all@.len(),
            i <= n,
            seconds_ago_among(w, 0) == seconds_ago_among(w, i as int),
        decreases n - i,
    {
        assert(w[i as int] == all@[i as int]@ && w[i + 1] == all@[i + 1]@);
        match number::parse_i64(all[i].as_str()) {
            Some(amount) => {
                let found: Option<i128> = span_of(amount, all[i + 1].as_str());
                if found.is_some() {
                    return found;
                }
            },
            None => {},
        }
        i += 1;
    }
    None
}

/// The point in time that a text such as `Reposted 3 days ago` tells of.
pub fn parse_relative_posted_at(raw: &str, scraped_at: &Timestamp) -> (r: Option<String>)
    requires
        scraped_at.wf(),
        posted_seconds_ago(raw@) is Some ==> is_calendar_second(
            scraped_at.seconds - posted_seconds_ago(raw@)->0,
        ),
    ensures
        opt_view(r) == (match posted_seconds_ago(raw@) {
            Some(ago) => Some(past_rfc3339(*scraped_at, ago)),
            None => None,
        }),
{
    match seconds_since_posted(raw) {
        Some(ago) => Some(clock::rfc3339_before(scraped_at, ago)),
        None => None,
    }
}

/// The point in time that the first age on a page tells of.
pub fn extract_relative_posted_at(html: &str, scraped_at: &Timestamp) -> (r: Option<String>)
    requires
        scraped_at.wf(),
        page_seconds_ago(html@) is Some ==> is_calendar_second(
            scraped_at.seconds - page_seconds_ago(html@)->0,
        ),
    ensures
        opt_view(r) == (match page_seconds_ago(html@) {
            Some(ago) => Some(past_rfc3339(*scraped_at, ago)),
            None => None,
        }),
{
    match seconds_since_posted_on(html) {
        Some(ago) => Some(clock::rfc3339_before(scraped_at, ago)),
        None => None,
    }
}

// ---------------------------------------------------------------------------
// The posting in the page's linked data
// ---------------------------------------------------------------------------

/// The text of the first block of linked data.
pub open spec fn linked_data_text(s: Seq<char>) -> Option<Seq<char>> {
    match text::from(s, "application/ld+json"@) {
        None => None,
        Some(tag) => match text::after(tag, ">"@) {
            None => None,
            Some(rest) => match text::before(rest, "</script>"@) {
                None => None,
                Some(block) => Some(trim(block)),
            },
        },
    }
}

/// The first job posting of a list, from position `at` on.
pub open spec fn first_posting(items: Seq<JsonTree>, at: int) -> Option<JsonTree>
    decreases items.len() - at,
{
    if at < 0 || at >= items.len() {
        None
    } else if items[at].text_at("@type"@) == Some("JobPosting"@) {
        Some(items[at])
    } else {
        first_posting(items, at + 1)
    }
}

/// The job posting that linked data describes: the first of a list, or the value
/// itself.
pub open spec fn posting_in(data: JsonTree) -> Option<JsonTree> {
    match data {
        JsonTree::List(items) => first_posting(items, 0),
        _ => Some(data),
    }
}

/// The job posting that a page's linked data describes.
pub open spec fn page_posting(s: Seq<char>) -> Option<JsonTree> {
    match linked_data_text(s) {
        None => None,
        Some(block) => match parsed_json(block) {
            None => None,
            Some(data) => posting_in(data),
        },
    }
}

/// The text of the first block of linked data.
fn find_linked_data<'a>(html: &'a str) -> (r: Option<&'a str>)
    ensures
        opt_str_view(r) == linked_data_text(html@),
{
    match scan::from(html, "application/ld+json") {
        None => None,
        Some(tag) => match scan::after(tag, ">") {
            None => None,
            Some(rest) => match scan::before(rest, "</script>") {
                None => None,
                Some(block) => Some(scan::trim(block)),
            },
        },
    }
}

/// The job posting that linked data describes.
pub fn select_posting<'a>(data: &'a Json) -> (r: Option<&'a Json>)
    ensures
        opt_tree(r) == posting_in(data.tree()),
{
    match data.as_list() {
        None => Some(data),
        Some(items) => {
            let ghost all = json::trees(items@);
            let mut i: usize = 0;
            while i < items.len()
                invariant
                    all == json::trees(items@),
                    posting_in(data.tree()) == first_posting(all, 0),
                    i <= items@.len(),
                    first_posting(all, 0) == first_posting(all, i as int),
                decreases items@.len() - i,
            {
                assert(all[i as int] == items@[i as int].tree());
                let is_posting: bool = match items[i].get_text("@type") {
                    Some(t) => scan::same(t, "JobPosting"),
                    None => false,
                };
                if is_posting {
                    return Some(&items[i]);
                }
                i += 1;
            }
            None
        },
    }
}

/// The linked data of a page.
pub fn extract_json_ld(html: &str) -> (r: Option<Json>)
    ensures
        match linked_data_text(html@) {
            None => r is None,
            Some(block) => match parsed_json(block) {
                None => r is None,
                Some(data) => r is Some && r->0.tree() == data,
            },
        },
{
    match find_linked_data(html) {
        Some(block) => json::parse(block),
        None => None,
    }
}

/// A member of a value that may be missing.
pub open spec fn opt_member(value: Option<JsonTree>, key: Seq<char>) -> Option<JsonTree> {
    match value {
        Some(v) => v.member(key),
        None => None,
    }
}

/// A text member of a value that may be missing.
pub open spec fn opt_text_at(value: Option<JsonTree>, key: Seq<char>) -> Option<Seq<char>> {
    match value {
        Some(v) => v.text_at(key),
        None => None,
    }
}

/// A member of a value that may be missing.
fn member_of<'a>(value: Option<&'a Json>, key: &str) -> (r: Option<&'a Json>)
    ensures
        opt_tree(r) == opt_member(opt_tree(value), key@),
{
    match value {
        Some(v) => v.get(key),
        None => None,
    }
}

/// A text member of a value that may be missing.
fn text_of<'a>(value: Option<&'a Json>, key: &str) -> (r: Option<&'a str>)
    ensures
        opt_str_view(r) == opt_text_at(opt_tree(value), key@),
{
    match value {
        Some(v) => v.get_text(key),
        None => None,
    }
}

/// Where a posting's work is: the locality, or else the name, of its address.
pub open spec fn posting_location(posting: Option<JsonTree>) -> Option<Seq<char>> {
    let address = opt_member(opt_member(posting, "jobLocation"@), "address"@);
    match opt_text_at(address, "addressLocality"@) {
        Some(t) => Some(t),
        None => opt_text_at(address, "name"@),
    }
}

/// Where a posting's work is.
pub fn json_ld_location(posting: Option<&Json>) -> (r: Option<String>)
    ensures
        opt_view(r) == posting_location(opt_tree(posting)),
{
    let address: Option<&Json> = member_of(member_of(posting, "jobLocation"), "address");
    match text_of(address, "addressLocality") {
        Some(t) => Some(t.to_owned()),
        None => match text_of(address, "name") {
            Some(t) => Some(t.to_owned()),
            None => None,
        },
    }
}

/// A text or number of JSON as text.
pub open spec fn scalar_text(value: Option<JsonTree>) -> Option<Seq<char>> {
    match value {
        Some(JsonTree::Text(t)) => Some(t),
        Some(JsonTree::Number(n)) => n,
        _ => None,
    }
}

/// A text or number of JSON as text.
pub fn value_to_string(value: Option<&Json>) -> (r: Option<String>)
    ensures
        opt_view(r) == scalar_text(opt_tree(value)),
{
    match value {
        Some(Json::Text(t)) => Some(t.clone()),
        Some(Json::Number(n)) => copy_option(n),
        _ => None,
    }
}

/// The pay that a posting offers: the text given for it, or the currency with
/// the amount or its bounds.
pub open spec fn posting_salary(posting: Option<JsonTree>) -> Option<Seq<char>> {
    match opt_member(posting, "baseSalary"@) {
        None => None,
        Some(JsonTree::Text(t)) => trimmed_non_empty(t),
        Some(salary) => {
            let currency = match salary.text_at("currency"@) {
                Some(c) => c,
                None => Seq::empty(),
            };
            match salary.member("value"@) {
                None => None,
                Some(JsonTree::Text(t)) => trimmed_non_empty(currency + " "@ + t),
                Some(value) => {
                    let low = scalar_text(value.member("minValue"@));
                    let high = scalar_text(value.member("maxValue"@));
                    match (low, high) {
                        (Some(low), Some(high)) => Some(
                            trim(currency + " "@ + low + "-"@ + high),
                        ),
                        (Some(low), None) => Some(trim(currency + " "@ + low)),
                        (None, Some(high)) => Some(trim(currency + " "@ + high)),
                        (None, None) => None,
                    }
                },
            }
        },
    }
}

/// The pay that a posting offers.
pub fn json_ld_salary(posting: Option<&Json>) -> (r: Option<String>)
    ensures
        opt_view(r) == posting_salary(opt_tree(posting)),
{
    let salary: &Json = match member_of(posting, "baseSalary") {
        Some(salary) => salary,
        None => {
            return None;
        },
    };
    match salary.as_text() {
        Some(t) => {
            return html::non_empty(t);
        },
        None => {},
    }
    let currency: &str = match salary.get_text("currency") {
        Some(c) => c,
        None => "",
    };
    proof {
        reveal_strlit("");
        assert(""@ =~= Seq::empty());
    }
    let value: &Json = match salary.get("value") {
        Some(value) => value,
        None => {
            return None;
        },
    };
    let start: String = scan::concat(currency, " ");
    match value.as_text() {
        Some(t) => {
            return html::non_empty(scan::concat(start.as_str(), t).as_str());
        },
        None => {},
    }
    let low: Option<String> = value_to_string(value.get("minValue"));
    let high: Option<String> = value_to_string(value.get("maxValue"));
    match (low, high) {
        (Some(low), Some(high)) => {
            let mut range: String = scan::concat3(start.as_str(), low.as_str(), "-");
            range.append(high.as_str());
            Some(scan::trim(range.as_str()).to_owned())
        },
        (Some(low), None) => Some(
            scan::trim(scan::concat(start.as_str(), low.as_str()).as_str()).to_owned(),
        ),
        (None, Some(high)) => Some(
            scan::trim(scan::concat(start.as_str(), high.as_str()).as_str()).to_owned(),
        ),
        (None, None) => None,
    }
}

// ---------------------------------------------------------------------------
// Title, place and pay in the page's text
// ---------------------------------------------------------------------------

/// A title without the site's name, the company before it and the place behind
/// it.
pub open spec fn bare_title(title: Seq<char>) -> Seq<char> {
    let t = trim(text::head(title, " | LinkedIn"@));
    let role = match text::after(t, " hiring "@) {
        Some(rest) => rest,
        None => t,
    };
    match text::before(role, " in "@) {
        Some(start) => trim(start),
        None => trim(t),
    }
}

/// A title without the site's name, the company before it and the place behind
/// it.
pub fn normalize_linkedin_title(title: &str) -> (r: String)
    ensures
        r@ == bare_title(title@),
{
    let t: &str = scan::trim(scan::head(title, " | LinkedIn"));
    let role: &str = match scan::after(t, " hiring ") {
        Some(rest) => rest,
        None => t,
    };
    match scan::before(role, " in ") {
        Some(start) => scan::trim(start).to_owned(),
        None => scan::trim(t).to_owned(),
    }
}

/// The posting's title in the page's title.
pub open spec fn title_in_page_title(s: Seq<char>) -> Option<Seq<char>> {
    match page_title(s) {
        Some(t) => trimmed_non_empty(bare_title(t)),
        None => None,
    }
}

/// The posting's title in the page's title.
pub fn extract_page_title(html: &str) -> (r: Option<String>)
    ensures
        opt_view(r) == title_in_page_title(html@),
{
    match html::title_text(html) {
        Some(t) => html::non_empty(normalize_linkedin_title(t.as_str()).as_str()),
        None => None,
    }
}

/// The place in the page's title.
pub open spec fn place_in_page_title(s: Seq<char>) -> Option<Seq<char>> {
    match page_title(s) {
        None => None,
        Some(t) => match text::after(t, " in "@) {
            None => None,
            Some(rest) => trimmed_non_empty(text::head(rest, " | LinkedIn"@)),
        },
    }
}

/// The place in the page's title.
pub fn extract_location_from_title(html: &str) -> (r: Option<String>)
    ensures
        opt_view(r) == place_in_page_title(html@),
{
    match html::title_text(html) {
        None => None,
        Some(t) => match scan::after(t.as_str(), " in ") {
            None => None,
            Some(rest) => html::non_empty(scan::head(rest, " | LinkedIn")),
        },
    }
}

/// The company that the page's section `Company` names.
pub fn extract_company_from_description(html: &str) -> (r: Option<String>)
    ensures
        opt_view(r) == labeled_section(html@, "Company"@),
{
    html::extract_labeled_section(html, "Company")
}

/// A line that tells the pay: it speaks of it and holds a currency.
pub open spec fn tells_pay(line: Seq<char>) -> bool {
    &&& contains(lower(line), "salary"@) || contains(lower(line), "compensation"@)
    &&& contains(line, "$"@) || contains(line, "USD"@) || contains(line, "TWD"@) || contains(
        line,
        "NT"@,
    )
}

/// The first line that tells the pay, from line `at` on, without white space at
/// its ends.
pub open spec fn first_pay_line(all: Seq<Seq<char>>, at: int) -> Option<Seq<char>>
    decreases all.len() - at,
{
    if at < 0 || at >= all.len() {
        None
    } else if tells_pay(trim(all[at])) {
        trimmed_non_empty(trim(all[at]))
    } else {
        first_pay_line(all, at + 1)
    }
}

/// The body of a page, or all of it where it has none.
pub open spec fn page_body(s: Seq<char>) -> Seq<char> {
    match text::after(s, "<body"@) {
        None => s,
        Some(rest) => match text::after(rest, ">"@) {
            None => s,
            Some(body) => body,
        },
    }
}

/// The first line of a page's text that tells the pay.
pub open spec fn explicit_salary(s: Seq<char>) -> Option<Seq<char>> {
    first_pay_line(text::lines(plain_text(page_body(without_scripts_and_styles(s)))), 0)
}

/// Whether a line tells the pay.
fn is_pay_line(line: &str) -> (r: bool)
    ensures
        r == tells_pay(line@),
{
    let lowered: String = scan::lower(line);
    (scan::contains(lowered.as_str(), "salary") || scan::contains(lowered.as_str(), "compensation"))
        && (scan::contains(line, "$") || scan::contains(line, "USD") || scan::contains(line, "TWD")
        || scan::contains(line, "NT"))
}

/// The first line of a page's text that tells the pay.
pub fn extract_explicit_salary(html: &str) -> (r: Option<String>)
    ensures
        opt_view(r) == explicit_salary(html@),
{
    let content: String = html::remove_non_content_blocks(html);
    let whole: &str = content.as_str();
    let body: &str = match scan::after(whole, "<body") {
        None => whole,
        Some(rest) => match scan::after(rest, ">") {
            None => whole,
            Some(body) => body,
        },
    };
    let plain: String = html::strip_html(body);
    let all: Vec<String> = scan::lines(plain.as_str());
    let ghost texts = views(all@);
    let mut i: usize = 0;
    while i < all.len()
        invariant
            texts == views(all@),
            explicit_salary(html@) == first_pay_line(texts, 0),
            i <= all@.len(),
            first_pay_line(texts, 0) == first_pay_line(texts, i as int),
        decreases all@.len() - i,
    {
        assert(texts[i as int] == all@[i as int]@);
        let line: &str = scan::trim(all[i].as_str());
        if is_pay_line(line) {
            return html::non_empty(line);
        }
        i += 1;
    }
    None
}

// ---------------------------------------------------------------------------
// Description
// ---------------------------------------------------------------------------

/// A text without the label of the button that folds it.
pub open spec fn without_fold_label(s: Seq<char>) -> Seq<char> {
    trim(text::drop_suffixes(text::drop_suffixes(s, "... more"@), "\u{2026} more"@))
}

/// A text without the label of the button that folds it.
pub fn strip_ui_suffix(value: &str) -> (r: String)
    ensures
        r@ == without_fold_label(value@),
{
    scan::trim(
        scan::drop_suffixes(scan::drop_suffixes(value, "... more"), "\u{2026} more"),
    ).to_owned()
}

/// A text that takes more than a number of bytes.
pub open spec fn longer_than(s: Seq<char>, bytes: int) -> Option<Seq<char>> {
    if byte_len(s) > bytes {
        Some(s)
    } else {
        None
    }
}

/// A text that takes more than a number of bytes.
fn if_longer_than(s: String, bytes: usize) -> (r: Option<String>)
    ensures
        opt_view(r) == longer_than(s@, bytes as int),
{
    if scan::byte_len(s.as_str()) > bytes {
        Some(s)
    } else {
        None
    }
}

/// The description in the box that can be unfolded.
pub open spec fn folded_description(s: Seq<char>) -> Option<Seq<char>> {
    match element_by_attribute(s, "span"@, "data-testid"@, "expandable-text-box"@) {
        Some(content) => longer_than(without_fold_label(plain_text(content)), 40),
        None => None,
    }
}

/// The description in the box that can be unfolded.
pub fn extract_expandable_description(html: &str) -> (r: Option<String>)
    ensures
        opt_view(r) == folded_description(html@),
{
    match html::extract_tag_by_attribute(html, "span", "data-testid", "expandable-text-box") {
        Some(content) => if_longer_than(
            strip_ui_suffix(html::strip_html(content).as_str()),
            40,
        ),
        None => None,
    }
}

/// The text, up to the next closing tag, of the first element whose class starts
/// with `class`.
pub open spec fn class_text(s: Seq<char>, class: Seq<char>) -> Option<Seq<char>> {
    match text::from(s, "class=\""@ + class) {
        None => None,
        Some(tag) => match text::after(tag, ">"@) {
            None => None,
            Some(rest) => match text::before(rest, "</"@) {
                None => None,
                Some(content) => longer_than(plain_text(content), 80),
            },
        },
    }
}

/// The longer of two texts, in bytes; the second where they are equally long.
pub open spec fn longer(a: Option<Seq<char>>, b: Option<Seq<char>>) -> Option<Seq<char>> {
    match (a, b) {
        (Some(x), Some(y)) => if byte_len(y) >= byte_len(x) {
            b
        } else {
            a
        },
        (None, _) => b,
        (_, None) => a,
    }
}

/// The description that the page's markup shows.
pub open spec fn marked_description(s: Seq<char>) -> Option<Seq<char>> {
    let rich = match element_by_attribute(
        s,
        "div"@,
        "class"@,
        "description__text description__text--rich"@,
    ) {
        Some(content) => longer_than(plain_text(content), 80),
        None => None,
    };
    match rich {
        Some(t) => Some(t),
        None => longer(
            longer(
                class_text(s, "show-more-less-html__markup"@),
                class_text(s, "description__text"@),
            ),
            class_text(s, "job-description"@),
        ),
    }
}

/// The text of the first element whose class starts with `class`.
fn text_of_class(html: &str, class: &str) -> (r: Option<String>)
    ensures
        opt_view(r) == class_text(html@, class@),
{
    let marker: String = scan::concat("class=\"", class);
    match scan::from(html, marker.as_str()) {
        None => None,
        Some(tag) => match scan::after(tag, ">") {
            None => None,
            Some(rest) => match scan::before(rest, "</") {
                None => None,
                Some(content) => if_longer_than(html::strip_html(content), 80),
            },
        },
    }
}

/// The longer of two texts, in bytes.
fn longer_of(a: Option<String>, b: Option<String>) -> (r: Option<String>)
    ensures
        opt_view(r) == longer(opt_view(a), opt_view(b)),
{
    match (a, b) {
        (Some(x), Some(y)) => if scan::byte_len(y.as_str()) >= scan::byte_len(x.as_str()) {
            Some(y)
        } else {
            Some(x)
        },
        (None, b) => b,
        (a, None) => a,
    }
}

/// The description that the page's markup shows.
pub fn extract_description(html: &str) -> (r: Option<String>)
    ensures
        opt_view(r) == marked_description(html@),
{
    match html::extract_tag_by_attribute(
        html,
        "div",
        "class",
        "description__text description__text--rich",
    ) {
        Some(content) => {
            let rich: Option<String> = if_longer_than(html::strip_html(content), 80);
            if rich.is_some() {
                return rich;
            }
        },
        None => {},
    }
    longer_of(
        longer_of(
            text_of_class(html, "show-more-less-html__markup"),
            text_of_class(html, "description__text"),
        ),
        text_of_class(html, "job-description"),
    )
}

// ---------------------------------------------------------------------------
// The posting
// ---------------------------------------------------------------------------

/// The first of two values that is there.
pub open spec fn or(a: Option<Seq<char>>, b: Option<Seq<char>>) -> Option<Seq<char>> {
    match a {
        Some(t) => Some(t),
        None => b,
    }
}

/// A page's title for its posting: what the linked data says, or else the page's
/// head, its markup or the alert.
pub open spec fn enriched_title(
    s: Seq<char>,
    posting: Option<JsonTree>,
    head: header::HeaderView,
    alert: AlertView,
) -> Seq<char> {
    let found = or(
        opt_text_at(posting, "title"@),
        or(
            head.title,
            or(meta_content(s, "og:title"@), title_in_page_title(s)),
        ),
    );
    bare_title(
        match found {
            Some(t) => t,
            None => alert.title,
        },
    )
}

/// The company that a page names.
pub open spec fn enriched_company(
    s: Seq<char>,
    posting: Option<JsonTree>,
    head: header::HeaderView,
    alert: AlertView,
) -> Seq<char> {
    let told = if alert.company != "Unknown company"@ {
        Some(alert.company)
    } else {
        None
    };
    let found = or(
        opt_text_at(opt_member(posting, "hiringOrganization"@), "name"@),
        or(head.company, or(told, labeled_section(s, "Company"@))),
    );
    trim(
        match found {
            Some(t) => t,
            None => Seq::empty(),
        },
    )
}

/// The description that a page gives: in its linked data, or else on the page.
pub open spec fn enriched_description(s: Seq<char>, posting: Option<JsonTree>) -> Option<
    Seq<char>,
> {
    or(
        match opt_text_at(posting, "description"@) {
            Some(t) => longer_than(plain_text(t), 40),
            None => None,
        },
        or(folded_description(s), marked_description(s)),
    )
}

/// How many seconds ago the page's head tells of, where the linked data has no
/// date.
pub open spec fn head_age(posting: Option<JsonTree>, head: header::HeaderView) -> Option<int> {
    if opt_text_at(posting, "datePosted"@) is Some {
        None
    } else {
        match head.published_raw {
            Some(raw) => posted_seconds_ago(raw),
            None => None,
        }
    }
}

/// How many seconds ago the page's text tells of, where nothing else has a date.
pub open spec fn text_age(
    s: Seq<char>,
    posting: Option<JsonTree>,
    head: header::HeaderView,
) -> Option<int> {
    if opt_text_at(posting, "datePosted"@) is Some || head_age(posting, head) is Some
        || time_datetime(s) is Some {
        None
    } else {
        page_seconds_ago(s)
    }
}

/// When a posting was posted, as its page tells it.
pub open spec fn enriched_date(
    s: Seq<char>,
    posting: Option<JsonTree>,
    head: header::HeaderView,
    at: Timestamp,
) -> Option<Seq<char>> {
    let by_head = match head_age(posting, head) {
        Some(ago) => Some(past_rfc3339(at, ago)),
        None => None,
    };
    let by_text = match text_age(s, posting, head) {
        Some(ago) => Some(past_rfc3339(at, ago)),
        None => None,
    };
    or(opt_text_at(posting, "datePosted"@), or(by_head, or(time_datetime(s), by_text)))
}

/// The posting that a page describes, where `posting` is what its linked data
/// says and `alert` led to the page.
pub open spec fn enriched(
    s: Seq<char>,
    posting: Option<JsonTree>,
    alert: AlertView,
    at: Timestamp,
) -> JobView {
    let head = page_header(s, alert);
    let description = enriched_description(s, posting);
    JobView {
        source: "linkedin"@,
        external_id: match head.job_id {
            Some(id) => id,
            None => alert.id,
        },
        title: enriched_title(s, posting, head, alert),
        company: enriched_company(s, posting, head, alert),
        location: or(
            posting_location(posting),
            or(alert.location, or(head.location, place_in_page_title(s))),
        ),
        salary: or(posting_salary(posting), explicit_salary(s)),
        description,
        url: match head.url {
            Some(url) => url,
            None => alert.url,
        },
        published_at: enriched_date(s, posting, head, at),
        platform_updated_at: None,
        fetch_state: if description is Some {
            "Complete"@
        } else {
            "ParseFailed"@
        },
        first_seen_at: None,
        last_seen_at: None,
        seen_count: 0,
    }
}

/// A page can be read: an age that its date is taken from leads to a date of the
/// calendar.
pub open spec fn page_is_readable(
    s: Seq<char>,
    posting: Option<JsonTree>,
    alert: AlertView,
    at: Timestamp,
) -> bool {
    let head = page_header(s, alert);
    &&& head_age(posting, head) is Some ==> is_calendar_second(
        at.seconds - head_age(posting, head)->0,
    )
    &&& text_age(s, posting, head) is Some ==> is_calendar_second(
        at.seconds - text_age(s, posting, head)->0,
    )
}

/// A copy of the first of two values that is there.
fn either(a: Option<String>, b: Option<String>) -> (r: Option<String>)
    ensures
        opt_view(r) == or(opt_view(a), opt_view(b)),
{
    match a {
        Some(t) => Some(t),
        None => b,
    }
}

/// An owned copy of a text that may be missing.
fn owned(s: Option<&str>) -> (r: Option<String>)
    ensures
        opt_view(r) == opt_str_view(s),
{
    match s {
        Some(t) => Some(t.to_owned()),
        None => None,
    }
}

/// A page's title for its posting.
fn choose_title(html: &str, posting: Option<&Json>, head: &LinkedInHeader, alert: &AlertJob) -> (r:
    String)
    ensures
        r@ == enriched_title(html@, opt_tree(posting), head@, alert@),
{
    let found: Option<String> = either(
        owned(text_of(posting, "title")),
        either(
            copy_option(&head.title),
            either(html::extract_meta(html, "og:title"), extract_page_title(html)),
        ),
    );
    match found {
        Some(t) => normalize_linkedin_title(t.as_str()),
        None => normalize_linkedin_title(alert.title.as_str()),
    }
}

/// The company that a page names.
fn choose_company(
    html: &str,
    posting: Option<&Json>,
    head: &LinkedInHeader,
    alert: &AlertJob,
) -> (r: String)
    ensures
        r@ == enriched_company(html@, opt_tree(posting), head@, alert@),
{
    let told: Option<String> = if !scan::same(alert.company.as_str(), "Unknown company") {
        Some(alert.company.clone())
    } else {
        None
    };
    let found: Option<String> = either(
        owned(text_of(member_of(posting, "hiringOrganization"), "name")),
        either(
            copy_option(&head.company),
            either(told, extract_company_from_description(html)),
        ),
    );
    match found {
        Some(t) => scan::trim(t.as_str()).to_owned(),
        None => {
            proof {
                reveal_strlit("");
                assert(""@ =~= Seq::empty());
            }
            scan::trim("").to_owned()
        },
    }
}

/// The description that a page gives.
fn choose_description(html: &str, posting: Option<&Json>) -> (r: Option<String>)
    ensures
        opt_view(r) == enriched_description(html@, opt_tree(posting)),
{
    let linked: Option<String> = match text_of(posting, "description") {
        Some(t) => if_longer_than(html::strip_html(t), 40),
        None => None,
    };
    either(linked, either(extract_expandable_description(html), extract_description(html)))
}

/// How many seconds ago the page's head tells of.
fn age_in_head(posting: Option<&Json>, head: &LinkedInHeader) -> (r: Option<i128>)
    ensures
        opt_span(r) == head_age(opt_tree(posting), head@),
        is_bounded(r),
{
    if text_of(posting, "datePosted").is_some() {
        None
    } else {
        match &head.published_raw {
            Some(raw) => seconds_since_posted(raw.as_str()),
            None => None,
        }
    }
}

/// How many seconds ago the page's text tells of.
fn age_in_text(html: &str, posting: Option<&Json>, head: &LinkedInHeader) -> (r: Option<i128>)
    ensures
        opt_span(r) == text_age(html@, opt_tree(posting), head@),
        is_bounded(r),
{
    if text_of(posting, "datePosted").is_some() || age_in_head(posting, head).is_some()
        || html::extract_time_datetime(html).is_some() {
        None
    } else {
        seconds_since_posted_on(html)
    }
}

/// When a posting was posted, as its page tells it.
fn choose_date(html: &str, posting: Option<&Json>, head: &LinkedInHeader, at: &Timestamp) -> (r:
    Option<String>)
    requires
        at.wf(),
        head_age(opt_tree(posting), head@) is Some ==> is_calendar_second(
            at.seconds - head_age(opt_tree(posting), head@)->0,
        ),
        text_age(html@, opt_tree(posting), head@) is Some ==> is_calendar_second(
            at.seconds - text_age(html@, opt_tree(posting), head@)->0,
        ),
    ensures
        opt_view(r) == enriched_date(html@, opt_tree(posting), head@, *at),
{
    match text_of(posting, "datePosted") {
        Some(date) => {
            return Some(date.to_owned());
        },
        None => {},
    }
    match &head.published_raw {
        Some(raw) => {
            let inferred: Option<String> = parse_relative_posted_at(raw.as_str(), at);
            if inferred.is_some() {
                return inferred;
            }
        },
        None => {},
    }
    match html::extract_time_datetime(html) {
        Some(date) => Some(date),
        None => extract_relative_posted_at(html, at),
    }
}

/// Whether a page can be read.
pub fn page_can_be_read(
    html: &str,
    posting: Option<&Json>,
    alert: &AlertJob,
    scraped_at: &Timestamp,
) -> (r: bool)
    ensures
        r == page_is_readable(html@, opt_tree(posting), alert@, *scraped_at),
{
    let head: LinkedInHeader = header::parse_linkedin_header(html, alert);
    let head_fits: bool = match age_in_head(posting, &head) {
        Some(ago) => clock::has_date_before(scraped_at, ago),
        None => true,
    };
    let text_fits: bool = match age_in_text(html, posting, &head) {
        Some(ago) => clock::has_date_before(scraped_at, ago),
        None => true,
    };
    head_fits && text_fits
}

/// The posting that a page describes, where `posting` is what its linked data
/// says and `alert` led to the page.
pub fn enrich_with_posting(
    alert: &AlertJob,
    html: &str,
    posting: Option<&Json>,
    scraped_at: &Timestamp,
) -> (r: JobListing)
    requires
        scraped_at.wf(),
        page_is_readable(html@, opt_tree(posting), alert@, *scraped_at),
    ensures
        r@ == enriched(html@, opt_tree(posting), alert@, *scraped_at),
{
    let head: LinkedInHeader = header::parse_linkedin_header(html, alert);
    let description: Option<String> = choose_description(html, posting);
    let location: Option<String> = either(
        json_ld_location(posting),
        either(
            copy_option(&alert.location),
            either(copy_option(&head.location), extract_location_from_title(html)),
        ),
    );
    let state: &str = if description.is_some() {
        "Complete"
    } else {
        "ParseFailed"
    };
    JobListing {
        source: "linkedin".to_owned(),
        external_id: match &head.job_id {
            Some(id) => id.clone(),
            None => alert.id.clone(),
        },
        title: choose_title(html, posting, &head, alert),
        company: choose_company(html, posting, &head, alert),
        location,
        salary: either(json_ld_salary(posting), extract_explicit_salary(html)),
        description,
        url: match &head.url {
            Some(url) => url.clone(),
            None => alert.url.clone(),
        },
        published_at: choose_date(html, posting, &head, scraped_at),
        platform_updated_at: None,
        fetch_state: state.to_owned(),
        first_seen_at: None,
        last_seen_at: None,
        seen_count: 0,
    }
}

/// The posting that a page describes, where `alert` led to the page.
pub fn enrich_from_html_at(alert: &AlertJob, html: &str, scraped_at: &Timestamp) -> (r: JobListing)
    requires
        scraped_at.wf(),
        page_is_readable(html@, page_posting(html@), alert@, *scraped_at),
    ensures
        r@ == enriched(html@, page_posting(html@), alert@, *scraped_at),
{
    let data: Option<Json> = extract_json_ld(html);
    let posting: Option<&Json> = match &data {
        Some(d) => select_posting(d),
        None => None,
    };
    enrich_with_posting(alert, html, posting, scraped_at)
}

/// The posting that a page describes, if the page can be read.
pub fn enrich_if_readable(alert: &AlertJob, html: &str, scraped_at: &Timestamp) -> (r: Option<
    JobListing,
>)
    requires
        scraped_at.wf(),
    ensures
        match r {
            Some(job) => {
                &&& page_is_readable(html@, page_posting(html@), alert@, *scraped_at)
                &&& job@ == enriched(html@, page_posting(html@), alert@, *scraped_at)
            },
            None => !page_is_readable(html@, page_posting(html@), alert@, *scraped_at),
        },
{
    let data: Option<Json> = extract_json_ld(html);
    let posting: Option<&Json> = match &data {
        Some(d) => select_posting(d),
        None => None,
    };
    if page_can_be_read(html, posting, alert, scraped_at) {
        Some(enrich_from_html_at(alert, html, scraped_at))
    } else {
        None
    }
}

// ---------------------------------------------------------------------------
// Laws
// ---------------------------------------------------------------------------

/// A posting's description is the whole plain text of where it is written: of the
/// linked data where that takes more than 40 bytes, or else of the box that can be
/// unfolded, but for the label of its button, where that does, or else of the page's
/// markup. With a description the posting is complete, and without one its page could
/// not be read.
pub proof fn law_the_description_is_the_whole_text(
    s: Seq<char>,
    posting: Option<JsonTree>,
    alert: AlertView,
    at: Timestamp,
)
    ensures
        ({
            let told = match posting {
                Some(v) => v.text_at("description"@),
                None => None,
            };
            let folded = element_by_attribute(s, "span"@, "data-testid"@, "expandable-text-box"@);
            let out = enriched(s, posting, alert, at);
            let is_told = told is Some && byte_len(plain_text(told->0)) > 40;
            let is_boxed = folded is Some && byte_len(without_fold_label(plain_text(folded->0))) > 40;
            &&& is_told ==> out.description == Some(plain_text(told->0))
            &&& !is_told && is_boxed ==> out.description == Some(
                without_fold_label(plain_text(folded->0)),
            )
            &&& !is_told && !is_boxed ==> out.description == marked_description(s)
            &&& out.description is Some ==> out.fetch_state == "Complete"@
            &&& out.description is None ==> out.fetch_state == "ParseFailed"@
        }),
{
}

/// Only the label of the button that folds a text is taken off its end: what is left
/// stands in the text, and only labels and white space stand around it.
pub proof fn law_only_the_fold_label_is_taken_off(s: Seq<char>)
    ensures
        !text::ends_with(s, "... more"@) && !text::ends_with(s, "\u{2026} more"@)
            ==> without_fold_label(s) == trim(s) && words(without_fold_label(s)) == words(s),
        exists|n: nat, m: nat, kept: Seq<char>|
            without_fold_label(s) == trim(kept) && s == kept + #[trigger] text::repeated(
                "\u{2026} more"@,
                m,
            ) + #[trigger] text::repeated("... more"@, n) && words(kept) == words(
                without_fold_label(s),
            ) && !#[trigger] text::ends_with(kept, "\u{2026} more"@),
        without_fold_label(s + "... more"@) == without_fold_label(s),
        !text::ends_with(s, "... more"@) ==> without_fold_label(s + "\u{2026} more"@)
            == without_fold_label(s),
{
    let dots = "... more"@;
    let dot = "\u{2026} more"@;
    reveal_strlit("... more");
    reveal_strlit("\u{2026} more");
    let first = text::drop_suffixes(s, dots);
    let kept = text::drop_suffixes(first, dot);
    text::law_all_suffixes_are_dropped(s, dots);
    text::law_all_suffixes_are_dropped(first, dot);
    let n = choose|n: nat| s == first + #[trigger] text::repeated(dots, n);
    let m = choose|m: nat| first == kept + #[trigger] text::repeated(dot, m);
    text::law_trimming_keeps_words(kept);
    assert(s == kept + text::repeated(dot, m) + text::repeated(dots, n));
    assert(!text::ends_with(kept, dot));
    let more = s + dots;
    assert(more.skip(more.len() - dots.len()) =~= dots);
    assert(text::ends_with(more, dots)) by {
        assert(more.subrange(more.len() - dots.len(), more.len() as int) =~= dots);
    }
    assert(more.take(more.len() - dots.len()) =~= s);
    let other = s + dot;
    assert(other.subrange(other.len() - dot.len(), other.len() as int) =~= dot);
    assert(other.skip(other.len() - dot.len()) =~= dot);
    assert(other.take(other.len() - dot.len()) =~= s);
    assert(!text::ends_with(other, dots)) by {
        let end = other.skip(other.len() - dots.len());
        assert(other[other.len() - 6] == '\u{2026}');
        if text::ends_with(other, dots) {
            assert(other.subrange(other.len() - dots.len(), other.len() as int)[2] == dots[2]);
            assert(end[2] == other[other.len() - 6]);
        }
    }
}

/// Every word that the box with a posting's description shows, the label of its
/// button aside, is a word of the description, in order, and the description has no
/// other.
pub proof fn law_the_box_is_told_word_by_word(
    s: Seq<char>,
    posting: Option<JsonTree>,
    alert: AlertView,
    at: Timestamp,
    content: Seq<char>,
)
    requires
        match posting {
            Some(v) => v.text_at("description"@),
            None => None,
        } is None,
        element_by_attribute(s, "span"@, "data-testid"@, "expandable-text-box"@) == Some(content),
        byte_len(without_fold_label(plain_text(content))) > 40,
        !text::ends_with(plain_text(content), "... more"@),
        !text::ends_with(plain_text(content), "\u{2026} more"@),
    ensures
        enriched(s, posting, alert, at).description is Some,
        words(enriched(s, posting, alert, at).description->0) == words(
            html::entities_written(html::untagged(html::blocks_to_lines(content), false)),
        ),
        !content.contains('<') && !content.contains('>') && !content.contains('&') ==> words(
            enriched(s, posting, alert, at).description->0,
        ) == words(content),
{
    law_the_description_is_the_whole_text(s, posting, alert, at);
    law_only_the_fold_label_is_taken_off(plain_text(content));
    html::law_plain_text_keeps_every_word(content);
}

/// Every word that the linked data's description shows is a word of the posting's, in
/// order, and the posting's has no other.
pub proof fn law_the_linked_description_is_told_word_by_word(
    s: Seq<char>,
    posting: JsonTree,
    alert: AlertView,
    at: Timestamp,
    told: Seq<char>,
)
    requires
        posting.text_at("description"@) == Some(told),
        byte_len(plain_text(told)) > 40,
    ensures
        enriched(s, Some(posting), alert, at).description is Some,
        words(enriched(s, Some(posting), alert, at).description->0) == words(
            html::entities_written(html::untagged(html::blocks_to_lines(told), false)),
        ),
        !told.contains('<') && !told.contains('>') && !told.contains('&') ==> words(
            enriched(s, Some(posting), alert, at).description->0,
        ) == words(told),
{
    law_the_description_is_the_whole_text(s, Some(posting), alert, at);
    html::law_plain_text_keeps_every_word(told);
}

/// The markup's description is the whole plain text of the element for rich text,
/// where that takes more than 80 bytes. Else it is one of the texts of the three
/// classes, and none of them is longer.
pub proof fn law_the_markup_gives_the_longest_text(s: Seq<char>)
    ensures
        ({
            let rich = element_by_attribute(
                s,
                "div"@,
                "class"@,
                "description__text description__text--rich"@,
            );
            let a = class_text(s, "show-more-less-html__markup"@);
            let b = class_text(s, "description__text"@);
            let c = class_text(s, "job-description"@);
            let out = marked_description(s);
            let is_rich = rich is Some && byte_len(plain_text(rich->0)) > 80;
            &&& is_rich ==> out == Some(plain_text(rich->0))
            &&& !is_rich ==> out == a || out == b || out == c
            &&& !is_rich && a is Some ==> out is Some && byte_len(out->0) >= byte_len(a->0)
            &&& !is_rich && b is Some ==> out is Some && byte_len(out->0) >= byte_len(b->0)
            &&& !is_rich && c is Some ==> out is Some && byte_len(out->0) >= byte_len(c->0)
            &&& !is_rich && a is Some && b is Some && c is None && byte_len(a->0) == byte_len(b->0)
                ==> out == b
            &&& !is_rich && b is Some && c is Some && a is None && byte_len(b->0) == byte_len(c->0)
                ==> out == c
            &&& !is_rich && a is Some && c is Some && b is None && byte_len(a->0) == byte_len(c->0)
                ==> out == c
        }),
{
}

/// The text of a class is the plain text between the first tag of the class and the
/// next closing tag, where it takes more than 80 bytes.
pub proof fn law_a_class_has_its_text(
    s: Seq<char>,
    class: Seq<char>,
    a: Seq<char>,
    between: Seq<char>,
    content: Seq<char>,
    rest: Seq<char>,
)
    requires
        ({
            let name = "class=\""@ + class;
            let inside = content + "</"@ + rest;
            &&& text::is_parted(s, a, name, between + ">"@ + inside)
            &&& text::is_parted(name + between + ">"@ + inside, name + between, ">"@, inside)
            &&& text::is_parted(inside, content, "</"@, rest)
        }),
    ensures
        byte_len(plain_text(content)) > 80 ==> class_text(s, class) == Some(plain_text(content)),
        byte_len(plain_text(content)) <= 80 ==> class_text(s, class) is None,
{
    let name = "class=\""@ + class;
    let inside = content + "</"@ + rest;
    text::law_parts_of_a_text(s, a, name, between + ">"@ + inside);
    assert(name + (between + ">"@ + inside) =~= name + between + ">"@ + inside);
    text::law_parts_of_a_text(name + between + ">"@ + inside, name + between, ">"@, inside);
    text::law_parts_of_a_text(inside, content, "</"@, rest);
}

/// A class that a page does not use has no text.
pub proof fn law_a_missing_class_has_no_text(s: Seq<char>, class: Seq<char>)
    requires
        !contains(s, "class=\""@ + class),
    ensures
        class_text(s, class) is None,
{
    text::law_texts_are_cut_at_the_first(s, "class=\""@ + class);
}

/// A number of days, weeks or months takes that many times the seconds of a day, of
/// seven days or of thirty; no other unit counts.
pub proof fn law_spans_count_in_days(amount: int, unit: Seq<char>, rest: Seq<char>)
    ensures
        unit == "day"@ + rest ==> calendar_span(amount, unit) == Some(amount * 86_400),
        unit == "week"@ + rest ==> calendar_span(amount, unit) == Some(amount * 604_800),
        unit == "month"@ + rest ==> calendar_span(amount, unit) == Some(amount * 2_592_000),
        !starts_with(unit, "day"@) && !starts_with(unit, "week"@) && !starts_with(unit, "month"@)
            ==> calendar_span(amount, unit) is None,
{
    reveal_strlit("day");
    reveal_strlit("week");
    reveal_strlit("month");
    lemma_starts(unit, "day"@, rest);
    lemma_starts(unit, "week"@, rest);
    lemma_starts(unit, "month"@, rest);
    if unit == "week"@ + rest || unit == "month"@ + rest {
        assert(unit[0] != 'd');
        if starts_with(unit, "day"@) {
            assert(unit.take(3)[0] == unit[0]);
            assert(unit.subrange(0, 3)[0] == unit[0]);
        }
    }
    if unit == "month"@ + rest {
        assert(unit[0] == 'm');
        if starts_with(unit, "week"@) {
            assert(unit.take(4)[0] == unit[0]);
            assert(unit.subrange(0, 4)[0] == unit[0]);
        }
    }
    assert(amount * 7 * DAY == amount * 604_800) by (nonlinear_arith)
        requires
            DAY == 86_400,
    ;
    assert(amount * 30 * DAY == amount * 2_592_000) by (nonlinear_arith)
        requires
            DAY == 86_400,
    ;
}

/// A text starts with what it was put together from.
proof fn lemma_starts(s: Seq<char>, p: Seq<char>, rest: Seq<char>)
    ensures
        s == p + rest ==> starts_with(s, p),
{
    if s == p + rest {
        assert(s.take(p.len() as int) =~= p);
        assert(s.subrange(0, p.len() as int) =~= p);
    }
}

/// A text such as `3 days ago` tells of its number of the unit's seconds: the first
/// word is the number and the second one the unit. An hour has 3600 seconds. White
/// space around it, and the words before it that say that it is about a posting,
/// change nothing.
pub proof fn law_ages_are_numbers_of_units(raw: Seq<char>, w: Seq<Seq<char>>)
    requires
        trim(raw) == raw,
        !starts_with(raw, "Reposted "@),
        !starts_with(raw, "Posted "@),
        w == words(raw),
    ensures
        w.len() < 2 ==> posted_seconds_ago(raw) is None,
        w.len() >= 2 && word_number(w[0]) is None ==> posted_seconds_ago(raw) is None,
        w.len() >= 2 && word_number(w[0]) is Some && starts_with(lower(w[1]), "hour"@)
            ==> posted_seconds_ago(raw) == Some(word_number(w[0])->0 * 3_600),
        w.len() >= 2 && word_number(w[0]) is Some && !starts_with(lower(w[1]), "hour"@)
            ==> posted_seconds_ago(raw) == calendar_span(word_number(w[0])->0, lower(w[1])),
{
}

/// White space around an age, and the words before it that say that it is about a
/// posting, change nothing.
pub proof fn law_ages_may_say_what_was_done(raw: Seq<char>)
    ensures
        posted_seconds_ago(trim(raw)) == posted_seconds_ago(raw),
        trim(raw).len() > 0 ==> posted_seconds_ago("Reposted "@ + trim(raw)) == posted_seconds_ago(
            raw,
        ),
        trim(raw).len() > 0 && !starts_with(trim(raw), "Reposted "@) ==> posted_seconds_ago(
            "Posted "@ + trim(raw),
        ) == posted_seconds_ago(raw),
{
    reveal_strlit("Reposted ");
    reveal_strlit("Posted ");
    let t = trim(raw);
    text::law_trimming(raw);
    text::law_trimming_keeps_words(raw);
    if t.len() > 0 {
        let again = "Reposted "@ + t;
        assert(again.last() == t.last());
        text::law_clean_text_is_not_trimmed(again);
        lemma_starts(again, "Reposted "@, t);
        assert(again.skip("Reposted "@.len() as int) =~= t);
        assert(text::drop_prefixes(again, "Reposted "@) == text::drop_prefixes(t, "Reposted "@));
        if !starts_with(t, "Reposted "@) {
            let once = "Posted "@ + t;
            assert(once.last() == t.last());
            text::law_clean_text_is_not_trimmed(once);
            lemma_starts(once, "Posted "@, t);
            assert(once.skip("Posted "@.len() as int) =~= t);
            assert(!starts_with(once, "Reposted "@)) by {
                assert(once[0] == 'P');
                if starts_with(once, "Reposted "@) {
                    assert(once.take(9)[0] == once[0]);
                    assert(once.subrange(0, 9)[0] == once[0]);
                }
            }
            assert(text::drop_prefixes(once, "Reposted "@) == once);
            assert(text::drop_prefixes(once, "Posted "@) == text::drop_prefixes(t, "Posted "@));
        }
    }
}

/// A word that is a number, before one that is a unit of the calendar.
pub open spec fn is_age(w: Seq<Seq<char>>, i: int) -> bool {
    &&& 0 <= i && i + 2 < w.len()
    &&& word_number(w[i]) is Some
    &&& starts_with(w[i + 1], "day"@) || starts_with(w[i + 1], "week"@) || starts_with(
        w[i + 1],
        "month"@,
    )
}

/// The first number of days, weeks or months on a page, in either case of letters,
/// tells its age; without one, and a word behind it, the page tells none.
pub proof fn law_the_first_age_counts(s: Seq<char>, i: int)
    ensures
        ({
            let w = words(lower(plain_text(s)));
            &&& is_age(w, i) && (forall|j: int| 0 <= j < i ==> !#[trigger] is_age(w, j))
                ==> page_seconds_ago(s) == calendar_span(word_number(w[i])->0, w[i + 1])
            &&& (forall|j: int| !#[trigger] is_age(w, j)) ==> page_seconds_ago(s) is None
        }),
{
    let w = words(lower(plain_text(s)));
    if is_age(w, i) && (forall|j: int| 0 <= j < i ==> !#[trigger] is_age(w, j)) {
        lemma_first_age(w, 0, i);
    }
    if forall|j: int| !#[trigger] is_age(w, j) {
        lemma_no_age(w, 0);
    }
}

/// The first age from a position on.
proof fn lemma_first_age(w: Seq<Seq<char>>, at: int, i: int)
    requires
        0 <= at <= i,
        is_age(w, i),
        forall|j: int| at <= j < i ==> !#[trigger] is_age(w, j),
    ensures
        seconds_ago_among(w, at) == calendar_span(word_number(w[i])->0, w[i + 1]),
    decreases i - at,
{
    if at < i {
        assert(!is_age(w, at));
        lemma_first_age(w, at + 1, i);
    }
}

/// Without an age none is found.
proof fn lemma_no_age(w: Seq<Seq<char>>, at: int)
    requires
        0 <= at,
        forall|j: int| !#[trigger] is_age(w, j),
    ensures
        seconds_ago_among(w, at) is None,
    decreases w.len() - at,
{
    assert(!is_age(w, at));
    if at + 2 < w.len() {
        lemma_no_age(w, at + 1);
    }
}

/// A word is a number where it writes one that 64 bits hold.
pub proof fn law_words_write_numbers(word: Seq<char>)
    ensures
        word_number(word) is Some <==> number::integer(word) is Some && -0x8000_0000_0000_0000
            <= number::integer(word)->0 <= 0x7fff_ffff_ffff_ffff,
        word_number(word) is Some ==> word_number(word) == number::integer(word),
{
}

/// A page's linked data is what stands in its first script of that type, without white
/// space around it.
pub proof fn law_linked_data_stands_in_its_script(
    s: Seq<char>,
    a: Seq<char>,
    between: Seq<char>,
    block: Seq<char>,
    rest: Seq<char>,
)
    requires
        ({
            let name = "application/ld+json"@;
            let inside = block + "</script>"@ + rest;
            &&& text::is_parted(s, a, name, between + ">"@ + inside)
            &&& text::is_parted(name + between + ">"@ + inside, name + between, ">"@, inside)
            &&& text::is_parted(inside, block, "</script>"@, rest)
        }),
    ensures
        linked_data_text(s) == Some(trim(block)),
{
    let name = "application/ld+json"@;
    let inside = block + "</script>"@ + rest;
    text::law_parts_of_a_text(s, a, name, between + ">"@ + inside);
    assert(name + (between + ">"@ + inside) =~= name + between + ">"@ + inside);
    text::law_parts_of_a_text(name + between + ">"@ + inside, name + between, ">"@, inside);
    text::law_parts_of_a_text(inside, block, "</script>"@, rest);
}

/// A page without such a script has no linked data, and tells of no posting in it.
pub proof fn law_a_page_may_have_no_linked_data(s: Seq<char>)
    requires
        !contains(s, "application/ld+json"@),
    ensures
        linked_data_text(s) is None,
        page_posting(s) is None,
{
    text::law_texts_are_cut_at_the_first(s, "application/ld+json"@);
}

/// The posting of linked data is the value itself, or the first job posting of a list.
/// Data that is no JSON, or a list without a job posting, tells of none.
pub proof fn law_linked_data_tells_of_one_posting(s: Seq<char>, block: Seq<char>, i: int)
    requires
        linked_data_text(s) == Some(block),
    ensures
        match parsed_json(block) {
            None => page_posting(s) is None,
            Some(JsonTree::List(items)) => {
                &&& 0 <= i < items.len() && items[i].text_at("@type"@) == Some("JobPosting"@) && (
                forall|j: int|
                    0 <= j < i ==> (#[trigger] items[j]).text_at("@type"@) != Some("JobPosting"@))
                    ==> page_posting(s) == Some(items[i])
                &&& (forall|j: int|
                    0 <= j < items.len() ==> (#[trigger] items[j]).text_at("@type"@) != Some(
                        "JobPosting"@,
                    )) ==> page_posting(s) is None
            },
            Some(data) => page_posting(s) == Some(data),
        },
{
    match parsed_json(block) {
        Some(JsonTree::List(items)) => {
            if 0 <= i < items.len() && items[i].text_at("@type"@) == Some("JobPosting"@) && (forall|
                j: int,
            |
                0 <= j < i ==> (#[trigger] items[j]).text_at("@type"@) != Some("JobPosting"@)) {
                lemma_first_posting(items, 0, i);
            }
            if forall|j: int|
                0 <= j < items.len() ==> (#[trigger] items[j]).text_at("@type"@) != Some(
                    "JobPosting"@,
                ) {
                lemma_no_posting(items, 0);
            }
        },
        _ => {},
    }
}

/// The first job posting from a position on.
proof fn lemma_first_posting(items: Seq<JsonTree>, at: int, i: int)
    requires
        0 <= at <= i < items.len(),
        items[i].text_at("@type"@) == Some("JobPosting"@),
        forall|j: int|
            at <= j < i ==> (#[trigger] items[j]).text_at("@type"@) != Some("JobPosting"@),
    ensures
        first_posting(items, at) == Some(items[i]),
    decreases i - at,
{
    if at < i {
        lemma_first_posting(items, at + 1, i);
    }
}

/// A list without a job posting.
proof fn lemma_no_posting(items: Seq<JsonTree>, at: int)
    requires
        0 <= at,
        forall|j: int|
            0 <= j < items.len() ==> (#[trigger] items[j]).text_at("@type"@) != Some("JobPosting"@),
    ensures
        first_posting(items, at) is None,
    decreases items.len() - at,
{
    if at < items.len() {
        lemma_no_posting(items, at + 1);
    }
}

/// A posting's place is its address's locality, or else the address's name.
pub proof fn law_a_posting_has_its_place(posting: JsonTree, place: JsonTree, address: JsonTree)
    requires
        posting.member("jobLocation"@) == Some(place),
        place.member("address"@) == Some(address),
    ensures
        address.text_at("addressLocality"@) is Some ==> posting_location(Some(posting))
            == address.text_at("addressLocality"@),
        address.text_at("addressLocality"@) is None ==> posting_location(Some(posting))
            == address.text_at("name"@),
{
}

/// A posting without an address tells of no place.
pub proof fn law_a_posting_may_have_no_place(posting: JsonTree)
    ensures
        posting_location(None) is None,
        posting.member("jobLocation"@) is None ==> posting_location(Some(posting)) is None,
        posting.member("jobLocation"@) is Some && posting.member("jobLocation"@)->0.member(
            "address"@,
        ) is None ==> posting_location(Some(posting)) is None,
{
}

/// A posting's pay as text is told as it stands, without white space around it. Else
/// it is told by its currency and its amount, or by its currency and its bounds with
/// a hyphen between them; one bound alone is told as an amount.
pub proof fn law_a_posting_tells_its_pay(posting: JsonTree, salary: JsonTree, value: JsonTree)
    requires
        posting.member("baseSalary"@) == Some(salary),
        salary.member("value"@) == Some(value),
        !(salary is Text),
    ensures
        ({
            let currency = match salary.text_at("currency"@) {
                Some(c) => c,
                None => Seq::empty(),
            };
            let out = posting_salary(Some(posting));
            let low = value.member("minValue"@);
            let high = value.member("maxValue"@);
            &&& forall|t: Seq<char>|
                value == JsonTree::Text(t) && trim(currency + " "@ + t).len() > 0 ==> out == Some(
                    #[trigger] trim(currency + " "@ + t),
                )
            &&& !(value is Text) && low is None && high is None ==> out is None
            &&& forall|a: Seq<char>|
                !(value is Text) && (low == Some(JsonTree::Text(a)) || low == Some(
                    JsonTree::Number(Some(a)),
                )) && high is None ==> out == Some(#[trigger] trim(currency + " "@ + a))
            &&& forall|b: Seq<char>|
                !(value is Text) && (high == Some(JsonTree::Text(b)) || high == Some(
                    JsonTree::Number(Some(b)),
                )) && low is None ==> out == Some(#[trigger] trim(currency + " "@ + b))
            &&& forall|a: Seq<char>, b: Seq<char>|
                !(value is Text) && (low == Some(JsonTree::Text(a)) || low == Some(
                    JsonTree::Number(Some(a)),
                )) && (high == Some(JsonTree::Text(b)) || high == Some(JsonTree::Number(Some(b))))
                    ==> out == Some(#[trigger] trim(currency + " "@ + a + "-"@ + b))
        }),
{
    let currency = match salary.text_at("currency"@) {
        Some(c) => c,
        None => Seq::empty(),
    };
    if let JsonTree::Text(t) = value {
        text::law_trimming(currency + " "@ + t);
    }
}

/// A posting's pay as text is told as it stands, without white space around it; a
/// posting without pay, or with pay without a value, tells of none.
pub proof fn law_pay_may_be_text(posting: JsonTree, t: Seq<char>)
    ensures
        posting_salary(None) is None,
        posting.member("baseSalary"@) is None ==> posting_salary(Some(posting)) is None,
        posting.member("baseSalary"@) == Some(JsonTree::Text(t)) && trim(t).len() > 0
            ==> posting_salary(Some(posting)) == Some(trim(t)),
        posting.member("baseSalary"@) == Some(JsonTree::Text(t)) && trim(t).len() == 0
            ==> posting_salary(Some(posting)) is None,
        posting.member("baseSalary"@) is Some && !(posting.member("baseSalary"@)->0 is Text)
            && posting.member("baseSalary"@)->0.member("value"@) is None ==> posting_salary(
            Some(posting),
        ) is None,
{
    text::law_trimming(t);
}

/// A title loses what stands behind the site's name, with the name.
pub proof fn law_titles_lose_the_sites_name(title: Seq<char>, a: Seq<char>, rest: Seq<char>)
    requires
        text::is_parted(title, a, " | LinkedIn"@, rest),
        !contains(a, " | LinkedIn"@),
    ensures
        bare_title(title) == bare_title(a),
{
    text::law_parts_of_a_text(title, a, " | LinkedIn"@, rest);
    text::law_texts_are_cut_at_the_first(a, " | LinkedIn"@);
}

/// A title is told without white space around it. It loses the company before it and
/// the place behind it; without a place it stays whole.
pub proof fn law_titles_lose_company_and_place(
    title: Seq<char>,
    company: Seq<char>,
    role: Seq<char>,
    place: Seq<char>,
)
    requires
        !contains(title, " | LinkedIn"@),
    ensures
        !contains(trim(title), " hiring "@) && !contains(trim(title), " in "@) ==> bare_title(title)
            == trim(title),
        !contains(trim(title), " hiring "@) && text::is_parted(trim(title), role, " in "@, place)
            ==> bare_title(title) == trim(role),
        text::is_parted(trim(title), company, " hiring "@, role + " in "@ + place)
            && text::is_parted(role + " in "@ + place, role, " in "@, place) ==> bare_title(title)
            == trim(role),
        text::is_parted(trim(title), company, " hiring "@, role) && !contains(role, " in "@)
            ==> bare_title(title) == trim(title),
{
    let t = trim(title);
    text::law_texts_are_cut_at_the_first(title, " | LinkedIn"@);
    text::law_texts_are_cut_at_the_first(t, " hiring "@);
    text::law_texts_are_cut_at_the_first(t, " in "@);
    text::law_texts_are_cut_at_the_first(role, " in "@);
    text::law_trimming_keeps_words(title);
    if text::is_parted(t, role, " in "@, place) {
        text::law_parts_of_a_text(t, role, " in "@, place);
    }
    if text::is_parted(t, company, " hiring "@, role + " in "@ + place) && text::is_parted(
        role + " in "@ + place,
        role,
        " in "@,
        place,
    ) {
        text::law_parts_of_a_text(t, company, " hiring "@, role + " in "@ + place);
        text::law_parts_of_a_text(role + " in "@ + place, role, " in "@, place);
    }
    if text::is_parted(t, company, " hiring "@, role) {
        text::law_parts_of_a_text(t, company, " hiring "@, role);
    }
}

/// A page's title tells the posting's title and, between ` in ` and the site's name,
/// its place.
pub proof fn law_the_pages_title_tells_title_and_place(
    s: Seq<char>,
    title: Seq<char>,
    a: Seq<char>,
    rest: Seq<char>,
    place: Seq<char>,
    site: Seq<char>,
)
    requires
        page_title(s) == Some(title),
    ensures
        trim(bare_title(title)).len() > 0 ==> title_in_page_title(s) == Some(
            trim(bare_title(title)),
        ),
        trim(bare_title(title)).len() == 0 ==> title_in_page_title(s) is None,
        !contains(title, " in "@) ==> place_in_page_title(s) is None,
        text::is_parted(title, a, " in "@, rest) && text::is_parted(
            rest,
            place,
            " | LinkedIn"@,
            site,
        ) && trim(place).len() > 0 ==> place_in_page_title(s) == Some(trim(place)),
        text::is_parted(title, a, " in "@, rest) && !contains(rest, " | LinkedIn"@) && trim(
            rest,
        ).len() > 0 ==> place_in_page_title(s) == Some(trim(rest)),
{
    text::law_trimming(bare_title(title));
    text::law_trimming(place);
    text::law_trimming(rest);
    text::law_texts_are_cut_at_the_first(title, " in "@);
    text::law_texts_are_cut_at_the_first(rest, " | LinkedIn"@);
    if text::is_parted(title, a, " in "@, rest) {
        text::law_parts_of_a_text(title, a, " in "@, rest);
    }
    if text::is_parted(rest, place, " | LinkedIn"@, site) {
        text::law_parts_of_a_text(rest, place, " | LinkedIn"@, site);
    }
}

/// A line tells the pay where it speaks of salary or compensation, in either case of
/// letters, and names a currency, as written.
pub proof fn law_pay_is_told_with_a_currency(line: Seq<char>)
    ensures
        ({
            let speaks = contains(lower(line), "salary"@) || contains(lower(line), "compensation"@);
            &&& speaks && contains(line, "$"@) ==> tells_pay(line)
            &&& speaks && contains(line, "USD"@) ==> tells_pay(line)
            &&& speaks && contains(line, "TWD"@) ==> tells_pay(line)
            &&& speaks && contains(line, "NT"@) ==> tells_pay(line)
            &&& !speaks ==> !tells_pay(line)
            &&& !contains(line, "$"@) && !contains(line, "USD"@) && !contains(line, "TWD"@)
                && !contains(line, "NT"@) ==> !tells_pay(line)
        }),
{
}

/// A page's pay is its text's first line that tells one, without white space around it;
/// scripts, style sheets and what stands before the body are no part of that text.
pub proof fn law_the_first_line_with_pay_counts(
    s: Seq<char>,
    a: Seq<char>,
    between: Seq<char>,
    body: Seq<char>,
    i: int,
)
    requires
        text::is_parted(without_scripts_and_styles(s), a, "<body"@, between + ">"@ + body),
        text::is_parted(between + ">"@ + body, between, ">"@, body),
    ensures
        ({
            let all = text::lines(plain_text(body));
            &&& 0 <= i < all.len() && tells_pay(trim(all[i])) && (forall|j: int|
                0 <= j < i ==> !tells_pay(trim(#[trigger] all[j]))) ==> explicit_salary(s) == Some(
                trim(all[i]),
            )
            &&& (forall|j: int| 0 <= j < all.len() ==> !tells_pay(trim(#[trigger] all[j])))
                ==> explicit_salary(s) is None
        }),
{
    let page = without_scripts_and_styles(s);
    text::law_parts_of_a_text(page, a, "<body"@, between + ">"@ + body);
    text::law_parts_of_a_text(between + ">"@ + body, between, ">"@, body);
    let all = text::lines(plain_text(body));
    lemma_pay_lines(all, i);
}

/// A page without a body is read whole.
pub proof fn law_pages_without_a_body_are_read_whole(s: Seq<char>, i: int)
    requires
        !contains(without_scripts_and_styles(s), "<body"@),
    ensures
        ({
            let all = text::lines(plain_text(without_scripts_and_styles(s)));
            &&& 0 <= i < all.len() && tells_pay(trim(all[i])) && (forall|j: int|
                0 <= j < i ==> !tells_pay(trim(#[trigger] all[j]))) ==> explicit_salary(s) == Some(
                trim(all[i]),
            )
            &&& (forall|j: int| 0 <= j < all.len() ==> !tells_pay(trim(#[trigger] all[j])))
                ==> explicit_salary(s) is None
        }),
{
    let page = without_scripts_and_styles(s);
    text::law_texts_are_cut_at_the_first(page, "<body"@);
    lemma_pay_lines(text::lines(plain_text(page)), i);
}

/// The first line that tells the pay.
proof fn lemma_pay_lines(all: Seq<Seq<char>>, i: int)
    ensures
        0 <= i < all.len() && tells_pay(trim(all[i])) && (forall|j: int|
            0 <= j < i ==> !tells_pay(trim(#[trigger] all[j]))) ==> first_pay_line(all, 0) == Some(
            trim(all[i]),
        ),
        (forall|j: int| 0 <= j < all.len() ==> !tells_pay(trim(#[trigger] all[j])))
            ==> first_pay_line(all, 0) is None,
{
    if 0 <= i < all.len() && tells_pay(trim(all[i])) && (forall|j: int|
        0 <= j < i ==> !tells_pay(trim(#[trigger] all[j]))) {
        lemma_first_pay_line(all, 0, i);
    }
    if forall|j: int| 0 <= j < all.len() ==> !tells_pay(trim(#[trigger] all[j])) {
        lemma_no_pay_line(all, 0);
    }
}

/// The first line that tells the pay, from a line on.
proof fn lemma_first_pay_line(all: Seq<Seq<char>>, at: int, i: int)
    requires
        0 <= at <= i < all.len(),
        tells_pay(trim(all[i])),
        forall|j: int| at <= j < i ==> !tells_pay(trim(#[trigger] all[j])),
    ensures
        first_pay_line(all, at) == Some(trim(all[i])),
    decreases i - at,
{
    if at < i {
        assert(!tells_pay(trim(all[at])));
        lemma_first_pay_line(all, at + 1, i);
    } else {
        let line = trim(all[i]);
        text::law_trimming_keeps_words(all[i]);
        text::law_trimming(line);
        reveal_strlit("salary");
        reveal_strlit("compensation");
        text::lemma_find(lower(line), "salary"@);
        text::lemma_find(lower(line), "compensation"@);
        assert(lower(line).len() == line.len());
    }
}

/// Lines of which none tells the pay.
proof fn lemma_no_pay_line(all: Seq<Seq<char>>, at: int)
    requires
        0 <= at,
        forall|j: int| 0 <= j < all.len() ==> !tells_pay(trim(#[trigger] all[j])),
    ensures
        first_pay_line(all, at) is None,
    decreases all.len() - at,
{
    if at < all.len() {
        lemma_no_pay_line(all, at + 1);
    }
}

/// A posting's title comes from the linked data, or else from the page's head, from
/// the property `og:title`, from the page's title, or from the alert, in this order,
/// and is told bare.
pub proof fn law_the_title_comes_from_the_first_that_has_one(
    s: Seq<char>,
    posting: Option<JsonTree>,
    alert: AlertView,
    at: Timestamp,
)
    ensures
        ({
            let told = match posting {
                Some(v) => v.text_at("title"@),
                None => None,
            };
            let head = page_header(s, alert).title;
            let meta = meta_content(s, "og:title"@);
            let title = title_in_page_title(s);
            let out = enriched(s, posting, alert, at).title;
            &&& told is Some ==> out == bare_title(told->0)
            &&& told is None && head is Some ==> out == bare_title(head->0)
            &&& told is None && head is None && meta is Some ==> out == bare_title(meta->0)
            &&& told is None && head is None && meta is None && title is Some ==> out == bare_title(
                title->0,
            )
            &&& told is None && head is None && meta is None && title is None ==> out == bare_title(
                alert.title,
            )
        }),
{
}

/// A posting's company comes from the linked data, or else from the page's head, from
/// the alert where that knows it, or from the page's section `Company`, in this
/// order; where none names it, it is empty.
pub proof fn law_the_company_comes_from_the_first_that_names_it(
    s: Seq<char>,
    posting: Option<JsonTree>,
    alert: AlertView,
    at: Timestamp,
)
    ensures
        ({
            let told = match posting {
                Some(v) => match v.member("hiringOrganization"@) {
                    Some(o) => o.text_at("name"@),
                    None => None,
                },
                None => None,
            };
            let head = page_header(s, alert).company;
            let section = labeled_section(s, "Company"@);
            let known = alert.company != "Unknown company"@;
            let out = enriched(s, posting, alert, at).company;
            &&& told is Some ==> out == trim(told->0)
            &&& told is None && head is Some ==> out == trim(head->0)
            &&& told is None && head is None && known ==> out == trim(alert.company)
            &&& told is None && head is None && !known && section is Some ==> out == trim(
                section->0,
            )
            &&& told is None && head is None && !known && section is None ==> out.len() == 0
        }),
{
    text::law_trimming(Seq::empty());
}

/// A posting's place comes from the linked data, or else from the alert, from the
/// page's head, or from the page's title; its pay from the linked data, or else from
/// the page's text.
pub proof fn law_place_and_pay_come_from_the_first_that_tells_them(
    s: Seq<char>,
    posting: Option<JsonTree>,
    alert: AlertView,
    at: Timestamp,
)
    ensures
        ({
            let told = posting_location(posting);
            let head = page_header(s, alert).location;
            let out = enriched(s, posting, alert, at);
            &&& told is Some ==> out.location == told
            &&& told is None && alert.location is Some ==> out.location == alert.location
            &&& told is None && alert.location is None && head is Some ==> out.location == head
            &&& told is None && alert.location is None && head is None ==> out.location
                == place_in_page_title(s)
            &&& posting_salary(posting) is Some ==> out.salary == posting_salary(posting)
            &&& posting_salary(posting) is None ==> out.salary == explicit_salary(s)
        }),
{
}

/// A posting's date comes from the linked data, or else from the age in the page's
/// head, from the page's element `time`, or from the first age in its text, in this
/// order. An age is told as the point in time that long before.
pub proof fn law_the_date_comes_from_the_first_that_tells_it(
    s: Seq<char>,
    posting: Option<JsonTree>,
    alert: AlertView,
    at: Timestamp,
)
    ensures
        ({
            let told = match posting {
                Some(v) => v.text_at("datePosted"@),
                None => None,
            };
            let raw = page_header(s, alert).published_raw;
            let aged = raw is Some && posted_seconds_ago(raw->0) is Some;
            let time = time_datetime(s);
            let ago = page_seconds_ago(s);
            let out = enriched(s, posting, alert, at).published_at;
            &&& told is Some ==> out == told
            &&& told is None && aged ==> out == Some(
                clock::rfc3339_text(
                    at.seconds - posted_seconds_ago(raw->0)->0,
                    at.nanos as int,
                    0,
                ),
            )
            &&& told is None && !aged && time is Some ==> out == time
            &&& told is None && !aged && time is None && ago is Some ==> out == Some(
                clock::rfc3339_text(at.seconds - ago->0, at.nanos as int, 0),
            )
            &&& told is None && !aged && time is None && ago is None ==> out is None
        }),
{
}

/// A posting's identity and address come from the page's head, or else from the
/// alert. It is one of LinkedIn's, not seen yet, and nothing is known of changes to
/// it.
pub proof fn law_a_page_tells_of_its_own_posting(
    s: Seq<char>,
    posting: Option<JsonTree>,
    alert: AlertView,
    at: Timestamp,
)
    ensures
        ({
            let head = page_header(s, alert);
            let out = enriched(s, posting, alert, at);
            &&& head.job_id is Some ==> out.external_id == head.job_id->0
            &&& head.job_id is None ==> out.external_id == alert.id
            &&& head.url is Some ==> out.url == head.url->0
            &&& head.url is None ==> out.url == alert.url
            &&& out.source == "linkedin"@
            &&& out.platform_updated_at is None
            &&& out.first_seen_at is None && out.last_seen_at is None && out.seen_count == 0
        }),
{
}

/// Only the age that a page's date is taken from decides whether the page can be read.
pub proof fn law_pages_are_read_where_their_age_is_of_the_calendar(
    s: Seq<char>,
    posting: Option<JsonTree>,
    alert: AlertView,
    at: Timestamp,
)
    ensures
        ({
            let told = match posting {
                Some(v) => v.text_at("datePosted"@),
                None => None,
            };
            let raw = page_header(s, alert).published_raw;
            let aged = raw is Some && posted_seconds_ago(raw->0) is Some;
            let ago = page_seconds_ago(s);
            let out = page_is_readable(s, posting, alert, at);
            &&& told is Some ==> out
            &&& told is None && aged ==> out == is_calendar_second(
                at.seconds - posted_seconds_ago(raw->0)->0,
            )
            &&& told is None && !aged && (time_datetime(s) is Some || ago is None) ==> out
            &&& told is None && !aged && time_datetime(s) is None && ago is Some ==> out
                == is_calendar_second(at.seconds - ago->0)
        }),
{
}

} // verus!
