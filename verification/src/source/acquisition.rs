//! Reading postings page by page: what is fetched, what is reused, and what
//! comes of each page.

use vstd::prelude::*;
use vstd::string::*;
use crate::clock::Timestamp;
use crate::job::{copy_strings, job_views, JobListing, JobView};
use crate::scan;
use crate::source::alert::{alert_views, AlertJob, AlertView};
use crate::source::page;
use crate::source::page::{enriched, page_is_readable, page_posting};
use crate::source::{SnapshotView, SourceSnapshot};
use crate::text::views;

verus! {

broadcast use vstd::string::group_string_axioms;

/// The name under which LinkedIn's postings are kept.
pub const SOURCE: &'static str = "linkedin";

/// How many seconds pass between two requests for pages.
pub const PAUSE_SECONDS: u64 = 10;

// ---------------------------------------------------------------------------
// What comes of one page
// ---------------------------------------------------------------------------

/// The posting that is known from its alert alone.
pub open spec fn alert_posting(alert: AlertView, state: Seq<char>) -> JobView {
    JobView {
        source: SOURCE@,
        external_id: alert.id,
        title: alert.title,
        company: alert.company,
        location: alert.location,
        salary: None,
        description: None,
        url: alert.url,
        published_at: None,
        platform_updated_at: None,
        fetch_state: state,
        first_seen_at: None,
        last_seen_at: None,
        seen_count: 0,
    }
}

/// The posting that is known from its alert alone, in a state of its own.
pub fn metadata_only(alert: &AlertJob, state: &str) -> (r: JobListing)
    ensures
        r@ == alert_posting(alert@, state@),
{
    let copy: AlertJob = alert.clone();
    JobListing {
        source: SOURCE.to_owned(),
        external_id: copy.id,
        title: copy.title,
        company: copy.company,
        location: copy.location,
        salary: None,
        description: None,
        url: copy.url,
        published_at: None,
        platform_updated_at: None,
        fetch_state: state.to_owned(),
        first_seen_at: None,
        last_seen_at: None,
        seen_count: 0,
    }
}

/// The posting that is known from its alert, whose page was not asked for.
pub fn alert_metadata(alert: &AlertJob) -> (r: JobListing)
    ensures
        r@ == alert_posting(alert@, "MetadataOnly"@),
{
    metadata_only(alert, "MetadataOnly")
}

/// What came back for the request for a page.
pub enum PageReply {
    /// An answer, with its status and its text where that could be read.
    Answer { status: u16, body: Option<String> },
    /// No answer.
    Nothing,
}

impl PageReply {
    /// The page, if the request was answered with one.
    pub open spec fn page(self) -> Option<Seq<char>> {
        match self {
            PageReply::Answer { status, body } => match body {
                Some(html) => if 200 <= status <= 299 {
                    Some(html@)
                } else {
                    None
                },
                None => None,
            },
            PageReply::Nothing => None,
        }
    }
}

/// The posting of an alert, given what came back for its page: what the page
/// describes, or what the alert says where there is no page or it cannot be read.
pub open spec fn fetched_posting(alert: AlertView, reply: PageReply, at: Timestamp) -> JobView {
    match reply.page() {
        Some(html) => if page_is_readable(html, page_posting(html), alert, at) {
            enriched(html, page_posting(html), alert, at)
        } else {
            alert_posting(alert, "ParseFailed"@)
        },
        None => alert_posting(alert, "FetchFailed"@),
    }
}

/// The posting of an alert, given what came back for its page.
pub fn fetch_job(alert: &AlertJob, reply: &PageReply, at: &Timestamp) -> (r: JobListing)
    requires
        at.wf(),
    ensures
        r@ == fetched_posting(alert@, *reply, *at),
{
    match reply {
        PageReply::Answer { status, body } => match body {
            Some(html) => if 200 <= *status && *status <= 299 {
                match page::enrich_if_readable(alert, html.as_str(), at) {
                    Some(job) => job,
                    None => metadata_only(alert, "ParseFailed"),
                }
            } else {
                metadata_only(alert, "FetchFailed")
            },
            None => metadata_only(alert, "FetchFailed"),
        },
        PageReply::Nothing => metadata_only(alert, "FetchFailed"),
    }
}

// ---------------------------------------------------------------------------
// Known postings
// ---------------------------------------------------------------------------

/// The posting of a list that a source keeps under an identity: the last one.
pub open spec fn known_as(known: Seq<JobView>, source: Seq<char>, id: Seq<char>) -> Option<JobView>
    decreases known.len(),
{
    if known.len() == 0 {
        None
    } else if known.last().source == source && known.last().external_id == id {
        Some(known.last())
    } else {
        known_as(known.drop_last(), source, id)
    }
}

/// The posting of a list that a source keeps under an identity.
pub fn find_known<'a>(known: &'a Vec<JobListing>, source: &str, id: &str) -> (r: Option<
    &'a JobListing,
>)
    ensures
        crate::job::opt_job_view(r) == known_as(job_views(known@), source@, id@),
{
    let ghost all = job_views(known@);
    let mut i: usize = known.len();
    assert(all.take(i as int) =~= all);
    while i > 0
        invariant
            all == job_views(known@),
            i <= known@.len(),
            known_as(all, source@, id@) == known_as(all.take(i as int), source@, id@),
        decreases i,
    {
        i -= 1;
        assert(all.take(i + 1).drop_last() =~= all.take(i as int));
        assert(all.take(i + 1).last() == known@[i as int]@);
        if scan::same(known[i].source.as_str(), source) && scan::same(
            known[i].external_id.as_str(),
            id,
        ) {
            return Some(&known[i]);
        }
    }
    None
}

/// A posting that is found has the source and the identity it was looked for by.
pub proof fn lemma_known_as(known: Seq<JobView>, source: Seq<char>, id: Seq<char>)
    ensures
        match known_as(known, source, id) {
            Some(job) => {
                &&& job.source == source
                &&& job.external_id == id
                &&& known.contains(job)
            },
            None => forall|i: int|
                0 <= i < known.len() ==> !((#[trigger] known[i]).source == source
                    && known[i].external_id == id),
        },
    decreases known.len(),
{
    if known.len() > 0 {
        let fewer = known.drop_last();
        if known.last().source == source && known.last().external_id == id {
            assert(known[known.len() - 1] == known.last());
        } else {
            lemma_known_as(fewer, source, id);
            match known_as(fewer, source, id) {
                Some(job) => {
                    let i = choose|i: int| 0 <= i < fewer.len() && fewer[i] == job;
                    assert(known[i] == job);
                },
                None => {
                    assert forall|i: int| 0 <= i < known.len() implies !((#[trigger] known[i]).source
                        == source && known[i].external_id == id) by {
                        if i < fewer.len() {
                            assert(fewer[i] == known[i]);
                        }
                    }
                },
            }
        }
    }
}

// ---------------------------------------------------------------------------
// Acquisition
// ---------------------------------------------------------------------------

/// The request for the page of a posting.
#[derive(Debug, PartialEq, Eq)]
pub struct PageRequest {
    pub url: String,
    /// How many seconds to wait before the request.
    pub pause_seconds: u64,
}

/// The reading of the postings that some alerts name. The postings of the first
/// alerts are there; the next alert is one whose page is to be fetched, or there
/// is none left.
pub struct Acquisition {
    alerts: Vec<AlertJob>,
    message_ids: Vec<String>,
    known: Vec<JobListing>,
    jobs: Vec<JobListing>,
    fetched: bool,
}

/// What was read: the snapshot of all postings, the postings that were known when it
/// was read, and whether the messages are done with, since every posting is
/// complete.
pub struct Acquired {
    pub snapshot: SourceSnapshot,
    pub known: Vec<JobListing>,
    pub complete: bool,
}

/// The known postings of the alerts from position `at` on, up to the first alert
/// that names none.
pub open spec fn reused(alerts: Seq<AlertView>, known: Seq<JobView>, at: int) -> Seq<JobView>
    decreases alerts.len() - at,
{
    if at < 0 || at >= alerts.len() {
        Seq::empty()
    } else {
        match known_as(known, SOURCE@, alerts[at].id) {
            Some(job) => seq![job] + reused(alerts, known, at + 1),
            None => Seq::empty(),
        }
    }
}

impl Acquisition {
    /// The alerts whose postings are read.
    pub closed spec fn alerts(self) -> Seq<AlertView> {
        alert_views(self.alerts@)
    }

    /// The messages that the alerts came in.
    pub closed spec fn message_ids(self) -> Seq<Seq<char>> {
        views(self.message_ids@)
    }

    /// The postings that were known at the start.
    pub closed spec fn known(self) -> Seq<JobView> {
        job_views(self.known@)
    }

    /// The postings read so far, one for each of the first alerts.
    pub closed spec fn jobs(self) -> Seq<JobView> {
        job_views(self.jobs@)
    }

    /// A page was fetched before.
    pub closed spec fn fetched(self) -> bool {
        self.fetched
    }

    /// The alert whose page is to be fetched next.
    pub open spec fn next(self) -> Option<AlertView> {
        if self.jobs().len() < self.alerts().len() {
            Some(self.alerts()[self.jobs().len() as int])
        } else {
            None
        }
    }

    /// The postings come of the replies to pages that were asked for.
    pub open spec fn came_of_replies(self) -> bool {
        exists|replies: Seq<(PageReply, Timestamp)>| self.came_of(replies)
    }

    /// The postings come of some replies, each to a page that was asked for.
    pub open spec fn came_of(self, replies: Seq<(PageReply, Timestamp)>) -> bool {
        &&& were_asked_for(reading(), self.alerts(), self.known(), replies)
        &&& self.jobs() == read_after(reading(), self.alerts(), self.known(), replies)
    }

    /// There are no more postings than alerts, and the next alert, if there is
    /// one, names no known posting.
    pub open spec fn asks_for_unknown(self) -> bool {
        &&& self.jobs().len() <= self.alerts().len()
        &&& self.next() is Some ==> known_as(self.known(), SOURCE@, self.next()->0.id) is None
    }

    /// The postings come of replies, and only pages of unknown postings are asked
    /// for.
    pub open spec fn wf(self) -> bool {
        self.came_of_replies() && self.asks_for_unknown()
    }

    /// Reuses known postings until the next alert names none.
    fn reuse_known(&mut self)
        requires
            old(self).jobs().len() <= old(self).alerts().len(),
        ensures
            final(self).asks_for_unknown(),
            final(self).alerts() == old(self).alerts(),
            final(self).message_ids() == old(self).message_ids(),
            final(self).known() == old(self).known(),
            final(self).fetched() == old(self).fetched(),
            final(self).jobs() == old(self).jobs() + reused(
                old(self).alerts(),
                old(self).known(),
                old(self).jobs().len() as int,
            ),
    {
        let ghost alerts = self.alerts();
        let ghost known = self.known();
        let ghost earlier = self.jobs();
        let ghost start = earlier.len() as int;
        assert(earlier + reused(alerts, known, start) =~= self.jobs() + reused(
            alerts,
            known,
            self.jobs().len() as int,
        ));
        while self.jobs.len() < self.alerts.len()
            invariant
                self.alerts() == alerts,
                self.known() == known,
                self.message_ids() == old(self).message_ids(),
                self.fetched() == old(self).fetched(),
                self.jobs@.len() <= self.alerts@.len(),
                earlier + reused(alerts, known, start) =~= self.jobs() + reused(
                    alerts,
                    known,
                    self.jobs@.len() as int,
                ),
                alerts == old(self).alerts(),
                known == old(self).known(),
                earlier == old(self).jobs(),
                start == earlier.len(),
            decreases self.alerts@.len() - self.jobs@.len(),
        {
            let at: usize = self.jobs.len();
            assert(alerts[at as int] == self.alerts@[at as int]@);
            let ghost before = self.jobs@;
            match find_known(&self.known, SOURCE, self.alerts[at].id.as_str()) {
                Some(job) => {
                    let copy: JobListing = job.clone();
                    let ghost said = copy@;
                    self.jobs.push(copy);
                    assert(job_views(self.jobs@) =~= job_views(before).push(said));
                },
                None => {
                    return ;
                },
            }
        }
    }

    /// Starts reading the postings that some alerts name.
    pub fn start(alerts: Vec<AlertJob>, message_ids: Vec<String>, known: Vec<JobListing>) -> (r:
        Acquisition)
        ensures
            r.wf(),
            r.alerts() == alert_views(alerts@),
            r.message_ids() == views(message_ids@),
            r.known() == job_views(known@),
            r.jobs() == reused(alert_views(alerts@), job_views(known@), 0),
            r.jobs() == read_after(
                reading(),
                alert_views(alerts@),
                job_views(known@),
                Seq::<(PageReply, Timestamp)>::empty(),
            ),
            !r.fetched(),
    {
        let mut r: Acquisition = Acquisition {
            alerts,
            message_ids,
            known,
            jobs: Vec::new(),
            fetched: false,
        };
        assert(r.jobs() =~= Seq::empty());
        r.reuse_known();
        assert(r.jobs() =~= reused(alert_views(alerts@), job_views(known@), 0));
        assert(r.came_of(Seq::empty()));
        r
    }

    /// The request for the next page, if there is one to be fetched. Between two
    /// requests there is a pause.
    pub fn next_request(&self) -> (r: Option<PageRequest>)
        ensures
            match r {
                Some(request) => {
                    &&& self.next() is Some
                    &&& request.url@ == self.next()->0.url
                    &&& request.pause_seconds == (if self.fetched() {
                        PAUSE_SECONDS
                    } else {
                        0
                    })
                },
                None => self.next() is None,
            },
    {
        let at: usize = self.jobs.len();
        if at < self.alerts.len() {
            assert(self.alerts()[at as int] == self.alerts@[at as int]@);
            Some(
                PageRequest {
                    url: self.alerts[at].url.clone(),
                    pause_seconds: if self.fetched {
                        PAUSE_SECONDS
                    } else {
                        0
                    },
                },
            )
        } else {
            None
        }
    }

    /// Takes what came back for the next page.
    pub fn accept(&mut self, reply: &PageReply, at: &Timestamp)
        requires
            old(self).wf(),
            old(self).next() is Some,
            at.wf(),
        ensures
            final(self).wf(),
            final(self).alerts() == old(self).alerts(),
            final(self).message_ids() == old(self).message_ids(),
            final(self).known() == old(self).known(),
            final(self).fetched(),
            final(self).jobs() == old(self).jobs().push(
                fetched_posting(old(self).next()->0, *reply, *at),
            ) + reused(
                old(self).alerts(),
                old(self).known(),
                old(self).jobs().len() as int + 1,
            ),
            forall|replies: Seq<(PageReply, Timestamp)>|
                old(self).jobs() == #[trigger] read_after(
                    reading(),
                    old(self).alerts(),
                    old(self).known(),
                    replies,
                ) ==> final(self).jobs() == read_after(
                    reading(),
                    old(self).alerts(),
                    old(self).known(),
                    replies.push((*reply, *at)),
                ),
    {
        let i: usize = self.jobs.len();
        assert(self.alerts()[i as int] == self.alerts@[i as int]@);
        let job: JobListing = fetch_job(&self.alerts[i], reply, at);
        let ghost before = self.jobs@;
        let ghost said = job@;
        self.jobs.push(job);
        assert(job_views(self.jobs@) =~= job_views(before).push(said));
        self.fetched = true;
        self.reuse_known();
        proof {
            assert forall|replies: Seq<(PageReply, Timestamp)>|
                old(self).jobs() == #[trigger] read_after(
                    reading(),
                    old(self).alerts(),
                    old(self).known(),
                    replies,
                ) implies self.jobs() == read_after(
                reading(),
                old(self).alerts(),
                old(self).known(),
                replies.push((*reply, *at)),
            ) by {
                assert(replies.push((*reply, *at)).drop_last() =~= replies);
            }
            let replies = choose|replies: Seq<(PageReply, Timestamp)>| old(self).came_of(replies);
            let more = replies.push((*reply, *at));
            assert forall|n: int| 0 <= n < more.len() implies #[trigger] read_after(
                reading(),
                self.alerts(),
                self.known(),
                more.take(n),
            ).len() < self.alerts().len() by {
                assert(more.take(n) =~= replies.take(n));
                if n == replies.len() {
                    assert(replies.take(n) =~= replies);
                }
            }
            assert(self.came_of(more));
        }
    }

    /// What was read, once there is no page left to fetch: one posting for each
    /// alert, the known one where there is one.
    pub fn finish(self) -> (r: Acquired)
        requires
            self.wf(),
            self.next() is None,
        ensures
            r.snapshot@ == acquired(self.jobs(), self.message_ids()),
            r.snapshot@.jobs.len() == self.alerts().len(),
            job_views(r.known@) == self.known(),
            r.complete == all_complete(self.jobs()),
            forall|i: int|
                0 <= i < self.alerts().len() ==> (match known_as(
                    self.known(),
                    SOURCE@,
                    (#[trigger] self.alerts()[i]).id,
                ) {
                    Some(row) => r.snapshot@.jobs[i] == row,
                    None => true,
                }),
    {
        proof {
            let replies = choose|replies: Seq<(PageReply, Timestamp)>| self.came_of(replies);
            law_each_alert_is_read_once(reading(), self.alerts(), self.known(), replies);
            assert forall|i: int| 0 <= i < self.alerts().len() implies (match known_as(
                self.known(),
                SOURCE@,
                (#[trigger] self.alerts()[i]).id,
            ) {
                Some(row) => self.jobs()[i] == row,
                None => true,
            }) by {
                assert(self.jobs()[i] == posting_read(
                    reading(),
                    self.alerts(),
                    self.known(),
                    replies,
                    i,
                ));
            }
        }
        let ghost all = job_views(self.jobs@);
        let mut complete: bool = true;
        let mut i: usize = 0;
        while i < self.jobs.len()
            invariant
                all == job_views(self.jobs@),
                i <= self.jobs@.len(),
                complete == (forall|j: int|
                    0 <= j < i ==> (#[trigger] all[j]).fetch_state == "Complete"@),
            decreases self.jobs@.len() - i,
        {
            assert(all[i as int] == self.jobs@[i as int]@);
            if !scan::same(self.jobs[i].fetch_state.as_str(), "Complete") {
                complete = false;
            }
            i += 1;
        }
        let ids: Vec<String> = copy_strings(&self.message_ids);
        Acquired {
            snapshot: SourceSnapshot {
                source: SOURCE.to_owned(),
                jobs: self.jobs,
                processed_message_ids: ids,
                allow_deletions: false,
            },
            known: self.known,
            complete,
        }
    }
}

/// Every posting is complete.
pub open spec fn all_complete(jobs: Seq<JobView>) -> bool {
    forall|i: int| 0 <= i < jobs.len() ==> (#[trigger] jobs[i]).fetch_state == "Complete"@
}

/// The snapshot of what was read: it is no inventory, so nothing may be deleted
/// on its account.
pub open spec fn acquired(jobs: Seq<JobView>, message_ids: Seq<Seq<char>>) -> SnapshotView {
    SnapshotView {
        source: SOURCE@,
        jobs,
        processed_message_ids: message_ids,
        allow_deletions: false,
    }
}

/// The alerts that are passed over without a request name known postings, and
/// the postings taken for them are those known.
pub proof fn law_known_postings_are_reused(alerts: Seq<AlertView>, known: Seq<JobView>, at: int)
    requires
        0 <= at <= alerts.len(),
    ensures
        at + reused(alerts, known, at).len() <= alerts.len(),
        forall|i: int|
            0 <= i < reused(alerts, known, at).len() ==> known_as(
                known,
                SOURCE@,
                #[trigger] alerts[at + i].id,
            ) == Some(reused(alerts, known, at)[i]),
        at + reused(alerts, known, at).len() < alerts.len() ==> known_as(
            known,
            SOURCE@,
            alerts[at + reused(alerts, known, at).len()].id,
        ) is None,
    decreases alerts.len() - at,
{
    if at < alerts.len() && known_as(known, SOURCE@, alerts[at].id) is Some {
        law_known_postings_are_reused(alerts, known, at + 1);
        let rest = reused(alerts, known, at + 1);
        let all = reused(alerts, known, at);
        assert forall|i: int| 0 <= i < all.len() implies known_as(
            known,
            SOURCE@,
            #[trigger] alerts[at + i].id,
        ) == Some(all[i]) by {
            if i > 0 {
                assert(all[i] == rest[i - 1]);
                assert(alerts[at + 1 + (i - 1)] == alerts[at + i]);
            }
        }
    }
}

// ---------------------------------------------------------------------------
// The reading as a whole
// ---------------------------------------------------------------------------

/// The posting that is read from what came back for an alert's page, with the time
/// at which it came.
pub open spec fn reading() -> spec_fn(AlertView, (PageReply, Timestamp)) -> JobView {
    |alert: AlertView, came: (PageReply, Timestamp)| fetched_posting(alert, came.0, came.1)
}

/// The postings read once some replies came, one after the other, where `read`
/// makes a posting of a reply.
pub open spec fn read_after<R>(
    read: spec_fn(AlertView, R) -> JobView,
    alerts: Seq<AlertView>,
    known: Seq<JobView>,
    replies: Seq<R>,
) -> Seq<JobView>
    decreases replies.len(),
{
    if replies.len() == 0 {
        reused(alerts, known, 0)
    } else {
        let before = read_after(read, alerts, known, replies.drop_last());
        before.push(read(alerts[before.len() as int], replies.last())) + reused(
            alerts,
            known,
            before.len() as int + 1,
        )
    }
}

/// The alerts whose pages were asked for when some replies came.
pub open spec fn asked_for<R>(
    read: spec_fn(AlertView, R) -> JobView,
    alerts: Seq<AlertView>,
    known: Seq<JobView>,
    replies: Seq<R>,
) -> Seq<AlertView>
    decreases replies.len(),
{
    if replies.len() == 0 {
        Seq::empty()
    } else {
        let fewer = replies.drop_last();
        asked_for(read, alerts, known, fewer).push(
            alerts[read_after(read, alerts, known, fewer).len() as int],
        )
    }
}

/// Each of some replies came for a page that was asked for.
pub open spec fn were_asked_for<R>(
    read: spec_fn(AlertView, R) -> JobView,
    alerts: Seq<AlertView>,
    known: Seq<JobView>,
    replies: Seq<R>,
) -> bool {
    forall|n: int|
        0 <= n < replies.len() ==> #[trigger] read_after(
            read,
            alerts,
            known,
            replies.take(n),
        ).len() < alerts.len()
}

/// Those of the first `n` alerts that name no known posting.
pub open spec fn unknown_alerts(alerts: Seq<AlertView>, known: Seq<JobView>, n: int) -> Seq<
    AlertView,
>
    decreases n,
{
    if n <= 0 {
        Seq::empty()
    } else if known_as(known, SOURCE@, alerts[n - 1].id) is None {
        unknown_alerts(alerts, known, n - 1).push(alerts[n - 1])
    } else {
        unknown_alerts(alerts, known, n - 1)
    }
}

/// The posting of the alert at position `i`: the known one, or else what came of
/// its page, where pages are asked for in the alerts' order.
pub open spec fn posting_read<R>(
    read: spec_fn(AlertView, R) -> JobView,
    alerts: Seq<AlertView>,
    known: Seq<JobView>,
    replies: Seq<R>,
    i: int,
) -> JobView {
    match known_as(known, SOURCE@, alerts[i].id) {
        Some(job) => job,
        None => read(alerts[i], replies[unknown_alerts(alerts, known, i).len() as int]),
    }
}

/// Reusing known postings asks for nothing.
proof fn lemma_reuse_asks_nothing(alerts: Seq<AlertView>, known: Seq<JobView>, at: int, n: int)
    requires
        0 <= at <= n <= at + reused(alerts, known, at).len(),
        at <= alerts.len(),
    ensures
        unknown_alerts(alerts, known, n) == unknown_alerts(alerts, known, at),
    decreases n - at,
{
    if n > at {
        law_known_postings_are_reused(alerts, known, at);
        lemma_reuse_asks_nothing(alerts, known, at, n - 1);
        assert(alerts[at + (n - 1 - at)] == alerts[n - 1]);
        assert(known_as(known, SOURCE@, alerts[at + (n - 1 - at)].id) is Some);
    }
}

/// Fewer alerts name no more unknown postings.
proof fn lemma_unknown_alerts_grow(alerts: Seq<AlertView>, known: Seq<JobView>, m: int, n: int)
    requires
        0 <= m <= n,
    ensures
        unknown_alerts(alerts, known, m).len() <= unknown_alerts(alerts, known, n).len(),
    decreases n - m,
{
    if n > m {
        lemma_unknown_alerts_grow(alerts, known, m, n - 1);
    }
}

/// Alerts that name no known posting name none.
pub proof fn lemma_unknown_alerts(alerts: Seq<AlertView>, known: Seq<JobView>, n: int)
    ensures
        forall|k: int|
            0 <= k < unknown_alerts(alerts, known, n).len() ==> known_as(
                known,
                SOURCE@,
                (#[trigger] unknown_alerts(alerts, known, n)[k]).id,
            ) is None,
    decreases n,
{
    if n > 0 {
        lemma_unknown_alerts(alerts, known, n - 1);
    }
}

/// What the reading of some alerts comes to. The posting of each alert stands at
/// the alert's place: the known one where there is one, and else what came of its
/// page. The page of every other alert is asked for exactly once, in order, and no
/// page of a known posting is. Once all those pages came, every alert has its
/// posting. With `reading`, this is the reading that `start` begins and each
/// `accept` carries on.
pub proof fn law_each_alert_is_read_once<R>(
    read: spec_fn(AlertView, R) -> JobView,
    alerts: Seq<AlertView>,
    known: Seq<JobView>,
    replies: Seq<R>,
)
    requires
        were_asked_for(read, alerts, known, replies),
    ensures
        ({
            let jobs = read_after(read, alerts, known, replies);
            &&& jobs.len() <= alerts.len()
            &&& forall|i: int|
                0 <= i < jobs.len() ==> #[trigger] jobs[i] == posting_read(
                    read,
                    alerts,
                    known,
                    replies,
                    i,
                )
            &&& asked_for(read, alerts, known, replies) == unknown_alerts(
                alerts,
                known,
                jobs.len() as int,
            )
            &&& asked_for(read, alerts, known, replies).len() == replies.len()
            &&& jobs.len() < alerts.len() ==> known_as(
                known,
                SOURCE@,
                alerts[jobs.len() as int].id,
            ) is None
            &&& jobs.len() == alerts.len() <==> replies.len() == unknown_alerts(
                alerts,
                known,
                alerts.len() as int,
            ).len()
        }),
    decreases replies.len(),
{
    let jobs = read_after(read, alerts, known, replies);
    if replies.len() == 0 {
        law_known_postings_are_reused(alerts, known, 0);
        lemma_reuse_asks_nothing(alerts, known, 0, jobs.len() as int);
        assert forall|i: int| 0 <= i < jobs.len() implies #[trigger] jobs[i] == posting_read(
            read,
            alerts,
            known,
            replies,
            i,
        ) by {
            assert(alerts[0 + i] == alerts[i]);
            assert(known_as(known, SOURCE@, alerts[0 + i].id) == Some(jobs[i]));
        }
    } else {
        let fewer = replies.drop_last();
        let before = read_after(read, alerts, known, fewer);
        let n = before.len() as int;
        assert(replies.take(replies.len() - 1) =~= fewer);
        assert(n < alerts.len());
        assert forall|k: int| 0 <= k < fewer.len() implies #[trigger] read_after(
            read,
            alerts,
            known,
            fewer.take(k),
        ).len() < alerts.len() by {
            assert(fewer.take(k) =~= replies.take(k));
        }
        law_each_alert_is_read_once(read, alerts, known, fewer);
        law_known_postings_are_reused(alerts, known, n + 1);
        let more = reused(alerts, known, n + 1);
        lemma_reuse_asks_nothing(alerts, known, n + 1, jobs.len() as int);
        assert(jobs.len() == n + 1 + more.len());
        assert(unknown_alerts(alerts, known, n + 1) == unknown_alerts(alerts, known, n).push(
            alerts[n],
        ));
        assert forall|i: int| 0 <= i < jobs.len() implies #[trigger] jobs[i] == posting_read(
            read,
            alerts,
            known,
            replies,
            i,
        ) by {
            if i < n {
                assert(jobs[i] == before[i]);
                lemma_unknown_alerts_grow(alerts, known, i + 1, n);
            } else if i == n {
                assert(replies[replies.len() - 1] == replies.last());
            } else {
                assert(jobs[i] == more[i - n - 1]);
                assert(alerts[n + 1 + (i - n - 1)] == alerts[i]);
                assert(known_as(known, SOURCE@, alerts[n + 1 + (i - n - 1)].id) == Some(
                    more[i - n - 1],
                ));
            }
        }
    }
    if jobs.len() < alerts.len() {
        lemma_unknown_alerts_grow(alerts, known, jobs.len() as int + 1, alerts.len() as int);
        assert(unknown_alerts(alerts, known, jobs.len() as int + 1).len() == unknown_alerts(
            alerts,
            known,
            jobs.len() as int,
        ).len() + 1);
    }
}

/// A posting that is known from its alert alone says what the alert says, and nothing
/// else.
pub proof fn law_an_alert_is_told_as_a_posting(alert: AlertView, state: Seq<char>)
    ensures
        ({
            let out = alert_posting(alert, state);
            &&& out.source == "linkedin"@
            &&& out.external_id == alert.id
            &&& out.title == alert.title
            &&& out.company == alert.company
            &&& out.location == alert.location
            &&& out.url == alert.url
            &&& out.fetch_state == state
            &&& out.salary is None && out.description is None
            &&& out.published_at is None && out.platform_updated_at is None
            &&& out.first_seen_at is None && out.last_seen_at is None && out.seen_count == 0
        }),
{
}

/// A page came where the request was answered with success and a text that could be
/// read; no other answer is one.
pub proof fn law_pages_come_with_success(status: u16, html: String)
    ensures
        200 <= status < 300 ==> (PageReply::Answer { status, body: Some(html) }).page() == Some(
            html@,
        ),
        status < 200 || status >= 300 ==> (PageReply::Answer {
            status,
            body: Some(html),
        }).page() is None,
        (PageReply::Answer { status, body: None }).page() is None,
        PageReply::Nothing.page() is None,
{
}

/// What comes of a reply: the posting that the page describes where one came that can
/// be read; else the alert's, which says whether the page did not come or could not be
/// read.
pub proof fn law_what_comes_of_a_reply(alert: AlertView, reply: PageReply, at: Timestamp)
    ensures
        ({
            let out = fetched_posting(alert, reply, at);
            match reply.page() {
                None => out == alert_posting(alert, "FetchFailed"@),
                Some(html) => {
                    &&& page_is_readable(html, page_posting(html), alert, at) ==> out == enriched(
                        html,
                        page_posting(html),
                        alert,
                        at,
                    )
                    &&& !page_is_readable(html, page_posting(html), alert, at) ==> out
                        == alert_posting(alert, "ParseFailed"@)
                },
            }
        }),
        (reading())(alert, (reply, at)) == fetched_posting(alert, reply, at),
{
}

/// Of the known postings of one source and identity the last counts.
pub proof fn law_the_last_known_posting_counts(
    known: Seq<JobView>,
    job: JobView,
    source: Seq<char>,
    id: Seq<char>,
)
    ensures
        known_as(Seq::empty(), source, id) is None,
        job.source == source && job.external_id == id ==> known_as(known.push(job), source, id)
            == Some(job),
        job.source != source || job.external_id != id ==> known_as(known.push(job), source, id)
            == known_as(known, source, id),
{
    assert(known.push(job).drop_last() =~= known);
}

/// What was read is a snapshot of LinkedIn's postings, with the messages that it comes
/// from, on whose account nothing is deleted.
pub proof fn law_what_was_read_deletes_nothing(jobs: Seq<JobView>, message_ids: Seq<Seq<char>>)
    ensures
        ({
            let out = acquired(jobs, message_ids);
            &&& out.source == "linkedin"@
            &&& out.jobs == jobs
            &&& out.processed_message_ids == message_ids
            &&& !out.allow_deletions
        }),
{
}

/// Postings are complete where each of them is: one more posting keeps them complete
/// where it is complete itself.
pub proof fn law_one_incomplete_posting_is_enough(jobs: Seq<JobView>, job: JobView)
    ensures
        all_complete(Seq::empty()),
        all_complete(jobs.push(job)) <==> all_complete(jobs) && job.fetch_state == "Complete"@,
{
    let more = jobs.push(job);
    if all_complete(more) {
        assert forall|i: int| 0 <= i < jobs.len() implies (#[trigger] jobs[i]).fetch_state
            == "Complete"@ by {
            assert(more[i] == jobs[i]);
        }
        assert(more[jobs.len() as int] == job);
    }
}

} // verus!
