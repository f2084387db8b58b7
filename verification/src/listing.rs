//! The search on 104: its pages, and when what it shows is not to be believed.

use vstd::prelude::*;
use vstd::string::*;
use crate::number;
use crate::number::decimal;
use crate::scan;
use crate::text::{contains, lower, trim};

verus! {

broadcast use vstd::string::group_string_axioms;

/// The name under which 104's postings are kept.
pub const SOURCE_104: &'static str = "104";

/// The search whose postings are watched, the latest first.
pub const SEARCH_URL: &'static str = "https://www.104.com.tw/jobs/search/?jobsource=index_s&keyword=Rust&mode=s&order=16";

/// How many pages a search can have and still be believed.
pub const MAX_PAGES: u64 = 150;

/// The state of a posting that has none of its own.
pub const DEFAULT_FETCH_STATE: &'static str = "Complete";

/// The source of a posting that names none.
pub fn default_source() -> (r: String)
    ensures
        r@ == SOURCE_104@,
{
    SOURCE_104.to_owned()
}

/// The state of a posting that has none of its own.
pub fn default_fetch_state() -> (r: String)
    ensures
        r@ == DEFAULT_FETCH_STATE@,
{
    DEFAULT_FETCH_STATE.to_owned()
}

/// Whether a count is zero, and not worth writing down.
pub fn is_zero(value: &i64) -> (r: bool)
    ensures
        r == (*value == 0),
{
    *value == 0
}

/// A page asks whether its reader is human in place of showing postings.
pub open spec fn is_challenge(title: Seq<char>, html: Seq<char>) -> bool {
    ||| lower(trim(title)) == lower("Just a moment..."@)
    ||| !contains(html, "data-job-no"@) && (contains(html, "challenge-platform"@) || contains(
        html,
        "cf-chl-"@,
    ) || contains(html, "Verify you are human"@))
}

/// Whether a page asks whether its reader is human in place of showing postings.
pub fn is_challenge_page(title: &str, html: &str) -> (r: bool)
    ensures
        r == is_challenge(title@, html@),
{
    let wanted: String = scan::lower("Just a moment...");
    let cards: bool = scan::contains(html, "data-job-no");
    scan::same(scan::lower(scan::trim(title)).as_str(), wanted.as_str()) || (!cards && (
    scan::contains(html, "challenge-platform") || scan::contains(html, "cf-chl-")
        || scan::contains(html, "Verify you are human")))
}

/// The address of a page of the search.
pub open spec fn page_address(page: nat) -> Seq<char> {
    if page <= 1 {
        SEARCH_URL@
    } else {
        SEARCH_URL@ + "&page="@ + decimal(page)
    }
}

/// The address of a page of the search.
pub fn page_url(page: u64) -> (r: String)
    ensures
        r@ == page_address(page as nat),
{
    if page <= 1 {
        SEARCH_URL.to_owned()
    } else {
        scan::concat3(SEARCH_URL, "&page=", number::to_decimal(page).as_str())
    }
}

/// A page that shows postings is never taken for a challenge because of what else
/// it holds.
pub proof fn law_pages_with_postings_are_believed(title: Seq<char>, html: Seq<char>)
    requires
        contains(html, "data-job-no"@),
    ensures
        is_challenge(title, html) <==> lower(trim(title)) == lower("Just a moment..."@),
{
}

/// The text that a posting's own page gave, without white space at its ends;
/// nothing, where it gave no text.
pub fn detail_text(value: Option<&str>) -> (r: String)
    ensures
        r@ == (match value {
            Some(t) => trim(t@),
            None => Seq::empty(),
        }),
{
    match value {
        Some(t) => scan::trim(t).to_owned(),
        None => String::new(),
    }
}

/// A page is a challenge where its title says so, in either case of letters and with
/// any white space around it, or where it shows no posting and holds one of the marks
/// of a challenge; without title and marks it is none.
pub proof fn law_challenges_are_told_by_title_or_marks(title: Seq<char>, html: Seq<char>)
    ensures
        lower(trim(title)) == lower("Just a moment..."@) ==> is_challenge(title, html),
        !contains(html, "data-job-no"@) && contains(html, "challenge-platform"@) ==> is_challenge(
            title,
            html,
        ),
        !contains(html, "data-job-no"@) && contains(html, "cf-chl-"@) ==> is_challenge(title, html),
        !contains(html, "data-job-no"@) && contains(html, "Verify you are human"@) ==> is_challenge(
            title,
            html,
        ),
        lower(trim(title)) != lower("Just a moment..."@) && !contains(html, "challenge-platform"@)
            && !contains(html, "cf-chl-"@) && !contains(html, "Verify you are human"@)
            ==> !is_challenge(title, html),
{
}

/// The first page is the search itself, and every other one is the search with the
/// page's number; no two pages have one address.
pub proof fn law_pages_are_numbered(page: nat)
    ensures
        page_address(1)
            == "https://www.104.com.tw/jobs/search/?jobsource=index_s&keyword=Rust&mode=s&order=16"@,
        page > 1 ==> page_address(page) == page_address(1) + "&page="@ + decimal(page),
{
}

} // verus!
