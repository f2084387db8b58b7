//! LinkedIn's job alerts: the postings that the HTML text of a mail links to.

use vstd::prelude::*;
use vstd::string::*;
use crate::html;
use crate::html::plain_text;
use crate::job::copy_option;
use crate::number;
use crate::number::is_digit;
use crate::scan;
use crate::text;
use crate::text::{find_from, opt_view, replace_all, rfind};

verus! {

broadcast use vstd::string::group_string_axioms;

// ---------------------------------------------------------------------------
// The identity of a posting
// ---------------------------------------------------------------------------

/// How many characters of `s` come before the first that is no digit.
pub open spec fn digit_run(s: Seq<char>) -> nat
    decreases s.len(),
{
    if s.len() > 0 && is_digit(s[0]) {
        1 + digit_run(s.skip(1))
    } else {
        0
    }
}

/// The digits at the start of `s`.
pub open spec fn leading_digits(s: Seq<char>) -> Seq<char> {
    s.take(digit_run(s) as int)
}

/// The identity of the posting that an address leads to: the digits behind
/// `/jobs/view/`.
pub open spec fn posting_id(address: Seq<char>) -> Option<Seq<char>> {
    match text::after(address, "/jobs/view/"@) {
        Some(rest) => if digit_run(rest) > 0 {
            Some(leading_digits(rest))
        } else {
            None
        },
        None => None,
    }
}

/// The address of the posting with an identity.
pub open spec fn posting_url(id: Seq<char>) -> Seq<char> {
    "https://www.linkedin.com/jobs/view/"@ + id + "/"@
}

/// A digit run is no longer than the text, holds digits only, and ends at a
/// character that is no digit.
proof fn lemma_digit_run(s: Seq<char>)
    ensures
        digit_run(s) <= s.len(),
        forall|i: int| 0 <= i < digit_run(s) ==> is_digit(#[trigger] s[i]),
        digit_run(s) < s.len() ==> !is_digit(s[digit_run(s) as int]),
    decreases s.len(),
{
    if s.len() > 0 && is_digit(s[0]) {
        let t = s.skip(1);
        lemma_digit_run(t);
        assert forall|i: int| 0 <= i < digit_run(s) implies is_digit(#[trigger] s[i]) by {
            if i > 0 {
                assert(s[i] == t[i - 1]);
            }
        }
        if digit_run(s) < s.len() {
            assert(s[digit_run(s) as int] == t[digit_run(t) as int]);
        }
    }
}

/// The digits at the start of a text.
fn digits_at_start(s: &str) -> (r: String)
    ensures
        r@ == leading_digits(s@),
{
    let chars: Vec<char> = scan::to_chars(s);
    let mut i: usize = 0;
    proof {
        lemma_digit_run(s@);
        assert(s@.skip(0) =~= s@);
    }
    while i < chars.len() && number::is_ascii_digit(chars[i])
        invariant
            chars@ == s@,
            i <= digit_run(s@) <= s@.len(),
            digit_run(s@) == i + digit_run(s@.skip(i as int)),
        decreases chars@.len() - i,
    {
        assert(s@.skip(i as int).skip(1) =~= s@.skip(i + 1));
        i += 1;
    }
    scan::take(s, i).to_owned()
}

/// What an identity and an address say.
pub open spec fn opt_identity(r: Option<(String, String)>) -> Option<(Seq<char>, Seq<char>)> {
    match r {
        Some(p) => Some((p.0@, p.1@)),
        None => None,
    }
}

/// The identity and the address of a posting with an identity.
pub open spec fn identity_of(address: Seq<char>) -> Option<(Seq<char>, Seq<char>)> {
    match posting_id(address) {
        Some(id) => Some((id, posting_url(id))),
        None => None,
    }
}

/// The identity of the posting that an address leads to, and its address
/// without anything that does not tell postings apart.
pub fn canonical_linkedin_url(value: &str) -> (r: Option<(String, String)>)
    ensures
        opt_identity(r) == identity_of(value@),
{
    match scan::after(value, "/jobs/view/") {
        None => None,
        Some(rest) => {
            let id: String = digits_at_start(rest);
            proof {
                lemma_digit_run(rest@);
            }
            if id.as_str().is_empty() {
                None
            } else {
                let url: String = scan::concat3(
                    "https://www.linkedin.com/jobs/view/",
                    id.as_str(),
                    "/",
                );
                Some((id, url))
            }
        },
    }
}

/// Two searches agree where the texts agree up to the place found.
proof fn lemma_find_from_prefix(s: Seq<char>, t: Seq<char>, p: Seq<char>, at: int, k: int)
    requires
        0 <= at <= k,
        k + p.len() <= s.len(),
        k + p.len() <= t.len(),
        s.take(k + p.len()) == t.take(k + p.len()),
        find_from(s, p, at) == Some(k),
    ensures
        find_from(t, p, at) == Some(k),
    decreases k - at,
{
    assert(s.subrange(at, at + p.len()) =~= s.take(k + p.len()).subrange(at, at + p.len()));
    assert(t.subrange(at, at + p.len()) =~= t.take(k + p.len()).subrange(at, at + p.len()));
    if at < k {
        text::lemma_find_from(s, p, at);
        assert(!text::occurs_at(s, p, at));
        lemma_find_from_prefix(s, t, p, at + 1, k);
    } else {
        text::lemma_find_from(s, p, at);
    }
}

/// The digit run of a run of digits before something else.
proof fn lemma_digit_run_of(digits: Seq<char>, rest: Seq<char>)
    requires
        forall|i: int| 0 <= i < digits.len() ==> is_digit(#[trigger] digits[i]),
        rest.len() > 0 ==> !is_digit(rest[0]),
    ensures
        digit_run(digits + rest) == digits.len(),
    decreases digits.len(),
{
    let all = digits + rest;
    if digits.len() > 0 {
        let fewer = digits.skip(1);
        assert(all.skip(1) =~= fewer + rest);
        assert forall|i: int| 0 <= i < fewer.len() implies is_digit(#[trigger] fewer[i]) by {
            assert(fewer[i] == digits[i + 1]);
        }
        lemma_digit_run_of(fewer, rest);
        assert(all[0] == digits[0]);
    } else {
        assert(all =~= rest);
    }
}

/// Whatever follows the identity in an address, unless it starts with a digit,
/// takes no part in the identity: an address with tracking parameters leads to
/// the posting that the bare address leads to.
pub proof fn law_tracking_is_no_identity(id: Seq<char>, tail: Seq<char>)
    requires
        id.len() > 0,
        forall|i: int| 0 <= i < id.len() ==> is_digit(#[trigger] id[i]),
        tail.len() > 0 ==> !is_digit(tail[0]),
    ensures
        identity_of("https://www.linkedin.com/jobs/view/"@ + id + tail) == Some(
            (id, posting_url(id)),
        ),
{
    let base = "https://www.linkedin.com/jobs/view/"@;
    let marker = "/jobs/view/"@;
    reveal_strlit("https://www.linkedin.com/jobs/view/");
    reveal_strlit("/jobs/view/");
    let k: int = 24;
    let full = base + id + tail;
    assert(base.subrange(k, k + marker.len()) =~= marker);
    assert forall|j: int| 0 <= j < k implies !text::occurs_at(base, marker, j) by {
        if text::occurs_at(base, marker, j) {
            let cut = base.subrange(j, j + marker.len());
            assert(cut[0] == '/' && cut[1] == 'j' && cut[5] == '/');
            assert(base[j] == '/' && base[j + 1] == 'j');
        }
    }
    text::lemma_find_from(base, marker, 0);
    assert(text::occurs_at(base, marker, k));
    assert(find_from(base, marker, 0) == Some(k));
    assert(full.take(k + marker.len()) =~= base.take(k + marker.len()));
    lemma_find_from_prefix(base, full, marker, 0, k);
    let rest = full.skip(k + marker.len());
    assert(rest =~= id + tail);
    lemma_digit_run_of(id, tail);
    assert(leading_digits(rest) =~= id);
}

// ---------------------------------------------------------------------------
// Links
// ---------------------------------------------------------------------------

/// A character that cannot stand in an address.
pub open spec fn ends_address(c: char) -> bool {
    text::is_white(c) || c == '"' || c == '\'' || c == '<' || c == '>'
}

/// Where the address that stands at a position ends.
pub open spec fn address_end(s: Seq<char>, at: int) -> int
    decreases s.len() - at,
{
    if at < 0 || at >= s.len() {
        s.len() as int
    } else if ends_address(s[at]) {
        at
    } else {
        address_end(s, at + 1)
    }
}

/// The address that stands at a position, with `&amp;` written out.
pub open spec fn address_at(s: Seq<char>, at: int) -> Seq<char> {
    replace_all(s.subrange(at, address_end(s, at)), "&amp;"@, "&"@)
}

/// An address ends behind its start and within the text.
proof fn lemma_address_end(s: Seq<char>, at: int)
    requires
        0 <= at <= s.len(),
    ensures
        at <= address_end(s, at) <= s.len(),
        at < s.len() && !ends_address(s[at]) ==> at < address_end(s, at),
    decreases s.len() - at,
{
    if at < s.len() && !ends_address(s[at]) {
        lemma_address_end(s, at + 1);
    }
}

/// Where the address that stands at a position ends.
pub fn find_address_end(chars: &[char], at: usize) -> (r: usize)
    requires
        at <= chars@.len(),
    ensures
        r == address_end(chars@, at as int),
        at <= r <= chars@.len(),
{
    let n: usize = chars.len();
    let mut i: usize = at;
    while i < n
        invariant
            n == chars@.len(),
            at <= i <= n,
            address_end(chars@, at as int) == address_end(chars@, i as int),
        decreases n - i,
    {
        let c: char = chars[i];
        if scan::is_white(c) || c == '"' || c == '\'' || c == '<' || c == '>' {
            return i;
        }
        i += 1;
    }
    n
}

/// The text of the link in whose opening tag a position lies.
pub open spec fn anchor_text(s: Seq<char>, at: int) -> Option<Seq<char>> {
    let start = match rfind(s.take(at), "<a "@) {
        Some(i) => Some(i),
        None => rfind(s.take(at), "<a>"@),
    };
    match start {
        None => None,
        Some(open) => match find_from(s, ">"@, open) {
            None => None,
            Some(gt) => match find_from(s, "</a>"@, gt + 1) {
                None => None,
                Some(close) => {
                    let found = plain_text(s.subrange(gt + 1, close));
                    if found.len() > 0 {
                        Some(found)
                    } else {
                        None
                    }
                },
            },
        },
    }
}

/// The text of the link in whose opening tag a position lies.
pub fn alert_anchor_text(html: &str, url_start: usize) -> (r: Option<String>)
    requires
        url_start <= html@.len(),
    ensures
        opt_view(r) == anchor_text(html@, url_start as int),
{
    let head: &str = scan::take(html, url_start);
    let start: usize = match scan::rfind(head, "<a ") {
        Some(i) => i,
        None => match scan::rfind(head, "<a>") {
            Some(i) => i,
            None => {
                return None;
            },
        },
    };
    proof {
        text::lemma_rfind_upto(head@, "<a "@, head@.len() as int);
        text::lemma_rfind_upto(head@, "<a>"@, head@.len() as int);
    }
    let chars: Vec<char> = scan::to_chars(html);
    let gt: Vec<char> = scan::to_chars(">");
    let closing: Vec<char> = scan::to_chars("</a>");
    let n: usize = chars.len();
    proof {
        reveal_strlit(">");
        text::lemma_find_from(html@, ">"@, start as int);
        assert(n == html@.len());
    }
    let content: usize = match scan::find_chars(chars.as_slice(), gt.as_slice(), start) {
        Some(i) => i + 1,
        None => {
            return None;
        },
    };
    proof {
        text::lemma_find_from(html@, "</a>"@, content as int);
    }
    match scan::find_chars(chars.as_slice(), closing.as_slice(), content) {
        None => None,
        Some(end) => {
            let found: String = html::strip_html(html.substring_char(content, end));
            if found.as_str().is_empty() {
                None
            } else {
                Some(found)
            }
        },
    }
}

// ---------------------------------------------------------------------------
// Alerts
// ---------------------------------------------------------------------------

/// A posting as an alert names it.
#[derive(Debug, PartialEq, Eq)]
pub struct AlertJob {
    pub id: String,
    pub url: String,
    pub title: String,
    pub company: String,
    pub location: Option<String>,
}

/// What an alert says of a posting.
#[verifier::ext_equal]
pub struct AlertView {
    pub id: Seq<char>,
    pub url: Seq<char>,
    pub title: Seq<char>,
    pub company: Seq<char>,
    pub location: Option<Seq<char>>,
}

impl View for AlertJob {
    type V = AlertView;

    open spec fn view(&self) -> AlertView {
        AlertView {
            id: self.id@,
            url: self.url@,
            title: self.title@,
            company: self.company@,
            location: opt_view(self.location),
        }
    }
}

impl Clone for AlertJob {
    fn clone(&self) -> (r: Self)
        ensures
            r@ == self@,
    {
        AlertJob {
            id: self.id.clone(),
            url: self.url.clone(),
            title: self.title.clone(),
            company: self.company.clone(),
            location: copy_option(&self.location),
        }
    }
}

/// What each alert of a list says.
pub open spec fn alert_views(alerts: Seq<AlertJob>) -> Seq<AlertView> {
    alerts.map_values(|a: AlertJob| a@)
}

/// The alert for the link whose address stands at a position.
pub open spec fn alert_at(s: Seq<char>, at: int) -> Option<AlertView> {
    match posting_id(address_at(s, at)) {
        None => None,
        Some(id) => Some(
            AlertView {
                id,
                url: posting_url(id),
                title: match anchor_text(s, at) {
                    Some(t) => t,
                    None => "LinkedIn job alert"@,
                },
                company: "Unknown company"@,
                location: None,
            },
        ),
    }
}

/// The alerts of the links from a position on, in order.
pub open spec fn alerts_from(s: Seq<char>, at: int) -> Seq<AlertView>
    decreases s.len() - at,
{
    match find_from(s, "https://www.linkedin.com/"@, at) {
        None => Seq::empty(),
        Some(start) => {
            let end = address_end(s, start);
            let first = match alert_at(s, start) {
                Some(alert) => seq![alert],
                None => Seq::empty(),
            };
            if at < end <= s.len() {
                first + alerts_from(s, end)
            } else {
                first
            }
        },
    }
}

/// An alert of a list names a posting.
pub open spec fn names(alerts: Seq<AlertView>, id: Seq<char>) -> bool {
    exists|i: int| 0 <= i < alerts.len() && (#[trigger] alerts[i]).id == id
}

/// The first alert for each posting, in order.
pub open spec fn first_of_each(alerts: Seq<AlertView>) -> Seq<AlertView>
    decreases alerts.len(),
{
    if alerts.len() == 0 {
        Seq::empty()
    } else {
        let kept = first_of_each(alerts.drop_last());
        if names(kept, alerts.last().id) {
            kept
        } else {
            kept.push(alerts.last())
        }
    }
}

/// Whether an alert of a list names a posting.
fn is_named(alerts: &Vec<AlertJob>, id: &str) -> (r: bool)
    ensures
        r == names(alert_views(alerts@), id@),
{
    let ghost all = alert_views(alerts@);
    let mut i: usize = 0;
    while i < alerts.len()
        invariant
            all == alert_views(alerts@),
            i <= alerts@.len(),
            forall|j: int| 0 <= j < i ==> (#[trigger] all[j]).id != id@,
        decreases alerts@.len() - i,
    {
        assert(all[i as int] == alerts@[i as int]@);
        if scan::same(alerts[i].id.as_str(), id) {
            return true;
        }
        i += 1;
    }
    false
}

/// The first alert for each posting, in order.
pub fn keep_first_of_each(alerts: &Vec<AlertJob>) -> (r: Vec<AlertJob>)
    ensures
        alert_views(r@) == first_of_each(alert_views(alerts@)),
{
    let ghost all = alert_views(alerts@);
    let mut out: Vec<AlertJob> = Vec::new();
    let mut i: usize = 0;
    while i < alerts.len()
        invariant
            all == alert_views(alerts@),
            i <= alerts@.len(),
            alert_views(out@) == first_of_each(all.take(i as int)),
        decreases alerts@.len() - i,
    {
        let ghost earlier = out@;
        assert(all.take(i + 1).drop_last() =~= all.take(i as int));
        assert(all[i as int] == alerts@[i as int]@);
        if !is_named(&out, alerts[i].id.as_str()) {
            out.push(alerts[i].clone());
            assert(alert_views(out@) =~= alert_views(earlier).push(all[i as int]));
        }
        i += 1;
    }
    assert(all.take(i as int) =~= all);
    out
}

/// The alerts of a mail's HTML text, the first for each posting.
pub fn extract_alert_jobs(html: &str) -> (r: Vec<AlertJob>)
    ensures
        alert_views(r@) == first_of_each(alerts_from(html@, 0)),
{
    let chars: Vec<char> = scan::to_chars(html);
    let marker: Vec<char> = scan::to_chars("https://www.linkedin.com/");
    let n: usize = chars.len();
    let mut all: Vec<AlertJob> = Vec::new();
    let mut at: usize = 0;
    proof {
        reveal_strlit("https://www.linkedin.com/");
    }
    loop
        invariant_except_break
            alerts_from(html@, 0) =~= alert_views(all@) + alerts_from(html@, at as int),
        invariant
            chars@ == html@,
            marker@ == "https://www.linkedin.com/"@,
            marker@.len() == 25,
            marker@[0] == 'h',
            n == html@.len(),
            at <= n,
        ensures
            alerts_from(html@, 0) =~= alert_views(all@),
        decreases n - at,
    {
        proof {
            text::lemma_find_from(html@, marker@, at as int);
        }
        match scan::find_chars(chars.as_slice(), marker.as_slice(), at) {
            None => {
                break;
            },
            Some(start) => {
                let end: usize = find_address_end(chars.as_slice(), start);
                proof {
                    assert(html@.subrange(start as int, start + 25)[0] == 'h');
                    lemma_address_end(html@, start as int);
                }
                let raw: String = scan::replace_all(
                    html.substring_char(start, end),
                    "&amp;",
                    "&",
                );
                let ghost earlier = all@;
                match canonical_linkedin_url(raw.as_str()) {
                    Some((id, url)) => {
                        let title: String = match alert_anchor_text(html, start) {
                            Some(t) => t,
                            None => "LinkedIn job alert".to_owned(),
                        };
                        let alert: AlertJob = AlertJob {
                            id,
                            url,
                            title,
                            company: "Unknown company".to_owned(),
                            location: None,
                        };
                        let ghost said = alert@;
                        assert(alert_at(html@, start as int) == Some(said));
                        all.push(alert);
                        assert(alert_views(all@) =~= alert_views(earlier).push(said));
                    },
                    None => {},
                }
                at = end;
            },
        }
    }
    keep_first_of_each(&all)
}

/// No two alerts that are kept name the same posting.
pub proof fn law_each_posting_once(alerts: Seq<AlertView>)
    ensures
        forall|i: int, j: int|
            0 <= i < j < first_of_each(alerts).len() ==> (#[trigger] first_of_each(alerts)[i]).id
                != (#[trigger] first_of_each(alerts)[j]).id,
    decreases alerts.len(),
{
    if alerts.len() > 0 {
        law_each_posting_once(alerts.drop_last());
        let kept = first_of_each(alerts.drop_last());
        if !names(kept, alerts.last().id) {
            let out = first_of_each(alerts);
            assert forall|i: int, j: int| 0 <= i < j < out.len() implies (#[trigger] out[i]).id != (
            #[trigger] out[j]).id by {
                assert(out[i] == kept[i]);
                if j < kept.len() {
                    assert(out[j] == kept[j]);
                }
            }
        }
    }
}

/// Every posting that an alert names is named by one that is kept, and every
/// alert that is kept is one of those given.
pub proof fn law_no_posting_is_lost(alerts: Seq<AlertView>)
    ensures
        forall|id: Seq<char>| #[trigger] names(alerts, id) <==> names(first_of_each(alerts), id),
        forall|i: int|
            0 <= i < first_of_each(alerts).len() ==> alerts.contains(
                #[trigger] first_of_each(alerts)[i],
            ),
    decreases alerts.len(),
{
    if alerts.len() == 0 {
    } else {
        let fewer = alerts.drop_last();
        let last = alerts.last();
        let kept = first_of_each(fewer);
        let out = first_of_each(alerts);
        law_no_posting_is_lost(fewer);
        assert forall|id: Seq<char>| #[trigger] names(alerts, id) <==> names(out, id) by {
            if names(alerts, id) {
                let i = choose|i: int| 0 <= i < alerts.len() && (#[trigger] alerts[i]).id == id;
                if i < fewer.len() {
                    assert(fewer[i].id == id);
                    assert(names(fewer, id));
                    let k = choose|k: int| 0 <= k < kept.len() && (#[trigger] kept[k]).id == id;
                    assert(out[k].id == id);
                } else if names(kept, last.id) {
                    assert(names(out, id));
                } else {
                    assert(out[kept.len() as int].id == id);
                }
            }
            if names(out, id) {
                let k = choose|k: int| 0 <= k < out.len() && (#[trigger] out[k]).id == id;
                if k < kept.len() {
                    assert(kept[k].id == id);
                    assert(names(kept, id));
                    assert(names(fewer, id));
                    let i = choose|i: int| 0 <= i < fewer.len() && (#[trigger] fewer[i]).id == id;
                    assert(alerts[i].id == id);
                } else {
                    assert(alerts[alerts.len() - 1].id == id);
                }
            }
        }
        assert forall|i: int| 0 <= i < out.len() implies alerts.contains(#[trigger] out[i]) by {
            if i < kept.len() {
                assert(fewer.contains(kept[i]));
                let j = choose|j: int| 0 <= j < fewer.len() && fewer[j] == kept[i];
                assert(alerts[j] == out[i]);
            } else {
                assert(alerts[alerts.len() - 1] == out[i]);
            }
        }
    }
}

/// The digits behind `/jobs/view/` in an address name the posting, all of them and
/// nothing else; an address without any names none.
pub proof fn law_digits_name_the_posting(
    address: Seq<char>,
    a: Seq<char>,
    digits: Seq<char>,
    tail: Seq<char>,
)
    requires
        forall|i: int| 0 <= i < digits.len() ==> '0' <= #[trigger] digits[i] <= '9',
        tail.len() > 0 ==> !('0' <= tail[0] <= '9'),
    ensures
        text::is_parted(address, a, "/jobs/view/"@, digits + tail) && digits.len() > 0
            ==> posting_id(address) == Some(digits) && identity_of(address) == Some(
            (digits, "https://www.linkedin.com/jobs/view/"@ + digits + "/"@),
        ),
        text::is_parted(address, a, "/jobs/view/"@, tail) ==> posting_id(address) is None
            && identity_of(address) is None,
        !text::contains(address, "/jobs/view/"@) ==> posting_id(address) is None && identity_of(
            address,
        ) is None,
{
    lemma_digit_run_of(digits, tail);
    lemma_digit_run_of(Seq::empty(), tail);
    assert(Seq::<char>::empty() + tail =~= tail);
    assert((digits + tail).take(digits.len() as int) =~= digits);
    text::law_texts_are_cut_at_the_first(address, "/jobs/view/"@);
    if text::is_parted(address, a, "/jobs/view/"@, digits + tail) {
        text::law_parts_of_a_text(address, a, "/jobs/view/"@, digits + tail);
    }
    if text::is_parted(address, a, "/jobs/view/"@, tail) {
        text::law_parts_of_a_text(address, a, "/jobs/view/"@, tail);
    }
}

/// The address of a posting leads to it.
pub proof fn law_a_postings_address_leads_to_it(id: Seq<char>)
    requires
        id.len() > 0,
        forall|i: int| 0 <= i < id.len() ==> '0' <= #[trigger] id[i] <= '9',
    ensures
        posting_url(id) == "https://www.linkedin.com/jobs/view/"@ + id + "/"@,
        posting_id(posting_url(id)) == Some(id),
        identity_of(posting_url(id)) == Some((id, posting_url(id))),
{
    reveal_strlit("/");
    law_tracking_is_no_identity(id, "/"@);
}

/// An address reaches to the first white space, quotation mark or angle bracket, or to
/// the end of the text.
pub proof fn law_addresses_end_at_white_space_and_quotes(s: Seq<char>, at: int, k: int)
    requires
        0 <= at <= s.len(),
    ensures
        at <= address_end(s, at) <= s.len(),
        at <= k < address_end(s, at) ==> !text::is_white(s[k]) && s[k] != '"' && s[k] != '\''
            && s[k] != '<' && s[k] != '>',
        address_end(s, at) < s.len() ==> ({
            let c = s[address_end(s, at)];
            text::is_white(c) || c == '"' || c == '\'' || c == '<' || c == '>'
        }),
    decreases s.len() - at,
{
    lemma_address_end(s, at);
    if at < s.len() && !ends_address(s[at]) {
        law_addresses_end_at_white_space_and_quotes(s, at + 1, k);
    }
}

/// An address is what stands from its start to its end, with each `&amp;` written out.
pub proof fn law_addresses_are_written_out(s: Seq<char>, at: int)
    requires
        0 <= at <= s.len(),
    ensures
        ({
            let raw = s.subrange(at, address_end(s, at));
            &&& !text::contains(raw, "&amp;"@) ==> address_at(s, at) == raw
            &&& forall|a: Seq<char>, b: Seq<char>|
                #[trigger] text::is_parted(raw, a, "&amp;"@, b) ==> address_at(s, at) == a + "&"@
                    + replace_all(b, "&amp;"@, "&"@)
        }),
{
    reveal_strlit("&amp;");
    let raw = s.subrange(at, address_end(s, at));
    text::law_texts_are_cut_at_the_first(raw, "&amp;"@);
    assert forall|a: Seq<char>, b: Seq<char>| #[trigger]
        text::is_parted(raw, a, "&amp;"@, b) implies address_at(s, at) == a + "&"@ + replace_all(
        b,
        "&amp;"@,
        "&"@,
    ) by {
        text::law_parts_of_a_text(raw, a, "&amp;"@, b);
        assert(raw.take(a.len() as int) =~= a);
        assert(raw.skip((a.len() + "&amp;"@.len()) as int) =~= b);
    }
}

/// The text of the link around an address is the plain text between the end of its
/// opening tag and its closing tag.
pub proof fn law_a_link_is_told_by_its_text(
    s: Seq<char>,
    at: int,
    open: int,
    gt: int,
    close: int,
)
    requires
        rfind(s.take(at), "<a "@) == Some(open) || (rfind(s.take(at), "<a "@) is None && rfind(
            s.take(at),
            "<a>"@,
        ) == Some(open)),
        find_from(s, ">"@, open) == Some(gt),
        find_from(s, "</a>"@, gt + 1) == Some(close),
    ensures
        ({
            let found = plain_text(s.subrange(gt + 1, close));
            &&& found.len() > 0 ==> anchor_text(s, at) == Some(found)
            &&& found.len() == 0 ==> anchor_text(s, at) is None
        }),
{
}

/// An address outside of any link has no text.
pub proof fn law_an_address_may_stand_alone(s: Seq<char>, at: int)
    requires
        rfind(s.take(at), "<a "@) is None,
        rfind(s.take(at), "<a>"@) is None,
    ensures
        anchor_text(s, at) is None,
{
}

/// An alert says which posting a link leads to, where it is found, and what the link
/// is called; it knows neither the company nor the place. An address of no posting is
/// no alert.
pub proof fn law_an_alert_says_what_its_link_says(s: Seq<char>, at: int)
    ensures
        match posting_id(address_at(s, at)) {
            None => alert_at(s, at) is None,
            Some(id) => {
                &&& alert_at(s, at) is Some
                &&& alert_at(s, at)->0.id == id
                &&& alert_at(s, at)->0.url == "https://www.linkedin.com/jobs/view/"@ + id + "/"@
                &&& anchor_text(s, at) is Some ==> alert_at(s, at)->0.title == anchor_text(s, at)->0
                &&& anchor_text(s, at) is None ==> alert_at(s, at)->0.title == "LinkedIn job alert"@
                &&& alert_at(s, at)->0.company == "Unknown company"@
                &&& alert_at(s, at)->0.location is None
            },
        },
{
}

/// The alerts of a text come one behind the other: that of the first address on the
/// site, where it is a posting's, and then those behind the address.
pub proof fn law_alerts_come_in_order(s: Seq<char>, at: int)
    requires
        0 <= at,
    ensures
        match find_from(s, "https://www.linkedin.com/"@, at) {
            None => alerts_from(s, at).len() == 0,
            Some(start) => {
                let rest = alerts_from(s, address_end(s, start));
                match alert_at(s, start) {
                    Some(alert) => alerts_from(s, at) == seq![alert] + rest,
                    None => alerts_from(s, at) == rest,
                }
            },
        },
{
    reveal_strlit("https://www.linkedin.com/");
    text::lemma_find_from(s, "https://www.linkedin.com/"@, at);
    if let Some(start) = find_from(s, "https://www.linkedin.com/"@, at) {
        assert(s.subrange(start, start + "https://www.linkedin.com/"@.len())[0] == s[start]);
        lemma_address_end(s, start);
        let rest = alerts_from(s, address_end(s, start));
        assert(Seq::<AlertView>::empty() + rest =~= rest);
    }
}

/// Of the alerts for one posting the first is kept: one more alert is kept, behind the
/// others, where none before it names its posting, and dropped where one does.
pub proof fn law_the_first_alert_of_a_posting_is_kept(alerts: Seq<AlertView>, alert: AlertView)
    ensures
        first_of_each(Seq::empty()).len() == 0,
        (exists|i: int| 0 <= i < alerts.len() && (#[trigger] alerts[i]).id == alert.id)
            ==> first_of_each(alerts.push(alert)) == first_of_each(alerts),
        (forall|i: int| 0 <= i < alerts.len() ==> (#[trigger] alerts[i]).id != alert.id)
            ==> first_of_each(alerts.push(alert)) == first_of_each(alerts).push(alert),
{
    law_no_posting_is_lost(alerts);
    assert(alerts.push(alert).drop_last() =~= alerts);
    assert(names(alerts, alert.id) <==> names(first_of_each(alerts), alert.id));
}

/// An alert says what each of its fields holds.
pub proof fn law_an_alert_says_what_it_holds(x: AlertJob)
    ensures
        x@.id == x.id@,
        x@.url == x.url@,
        x@.title == x.title@,
        x@.company == x.company@,
        x@.location == opt_view(x.location),
{
}

} // verus!
