//! LinkedIn's job alerts as a source of postings.

use vstd::prelude::*;
use vstd::string::*;
use crate::job::{job_views, JobListing, JobView};
use crate::scan;
use crate::source::acquisition;
use crate::source::acquisition::{alert_posting, reused, Acquisition, SOURCE};
use crate::source::alert;
use crate::source::alert::{alert_views, alerts_from, first_of_each, AlertJob, AlertView};
use crate::source::gmail::pair_views;
use crate::source::JobSource;
use crate::scan::is_listed;
use crate::text::{is_among, lower, views};

verus! {

broadcast use vstd::string::group_string_axioms;

/// The search for messages with alerts, unless a setting names another.
pub const DEFAULT_QUERY: &'static str = "from:(linkedin.com) newer_than:30d";

/// Where the identities of processed messages are kept, unless a setting names
/// another file.
pub const DEFAULT_PROCESSED_FILE: &'static str = "linkedin-processed-gmail-messages.json";

/// A setting that switches something on.
pub open spec fn switches_on(value: Seq<char>) -> bool {
    lower(value) == "1"@ || lower(value) == "true"@ || lower(value) == "yes"@ || lower(value)
        == "on"@
}

/// Whether a setting switches something on.
pub fn is_switched_on(value: &Option<String>) -> (r: bool)
    ensures
        r == (value is Some && switches_on(value->0@)),
{
    match value {
        Some(v) => {
            let lowered: String = scan::lower(v.as_str());
            scan::same(lowered.as_str(), "1") || scan::same(lowered.as_str(), "true") || scan::same(
                lowered.as_str(),
                "yes",
            ) || scan::same(lowered.as_str(), "on")
        },
        None => false,
    }
}

/// The messages that are read: all of them, or those not processed before.
pub open spec fn to_read(
    messages: Seq<(Seq<char>, Seq<char>)>,
    processed: Seq<Seq<char>>,
    skip_processed: bool,
) -> Seq<(Seq<char>, Seq<char>)>
    decreases messages.len(),
{
    if messages.len() == 0 {
        Seq::empty()
    } else {
        let kept = to_read(messages.drop_last(), processed, skip_processed);
        if skip_processed && is_among(processed, messages.last().0) {
            kept
        } else {
            kept.push(messages.last())
        }
    }
}

/// The alerts in some messages, in order, the first of each message for each
/// posting.
pub open spec fn alerts_in(messages: Seq<(Seq<char>, Seq<char>)>) -> Seq<AlertView>
    decreases messages.len(),
{
    if messages.len() == 0 {
        Seq::empty()
    } else {
        alerts_in(messages.drop_last()) + first_of_each(alerts_from(messages.last().1, 0))
    }
}

/// The identities of some messages.
pub open spec fn message_ids(messages: Seq<(Seq<char>, Seq<char>)>) -> Seq<Seq<char>> {
    messages.map_values(|m: (Seq<char>, Seq<char>)| m.0)
}

/// The alerts that are found in some messages, one for each posting.
pub open spec fn discovered(messages: Seq<(Seq<char>, Seq<char>)>) -> Seq<AlertView> {
    first_of_each(alerts_in(messages))
}

/// The postings that some alerts tell of.
pub open spec fn alert_postings(alerts: Seq<AlertView>) -> Seq<JobView> {
    alerts.map_values(|a: AlertView| alert_posting(a, "MetadataOnly"@))
}

/// The job alerts that LinkedIn sends by mail, as the search that finds them.
#[derive(Debug)]
pub struct LinkedInAlertSource {
    pub gmail_query: String,
}

impl Clone for LinkedInAlertSource {
    fn clone(&self) -> (r: Self)
        ensures
            r.gmail_query@ == self.gmail_query@,
    {
        LinkedInAlertSource { gmail_query: self.gmail_query.clone() }
    }
}

impl LinkedInAlertSource {
    /// The source that the settings `LINKEDIN_ENABLED` and
    /// `LINKEDIN_GMAIL_QUERY` describe, if it is switched on.
    pub fn from_env(enabled: Option<String>, query: Option<String>) -> (r: Option<
        LinkedInAlertSource,
    >)
        ensures
            r is Some <==> enabled is Some && switches_on(enabled->0@),
            r is Some ==> r->0.gmail_query@ == (match query {
                Some(q) => q@,
                None => DEFAULT_QUERY@,
            }),
    {
        if !is_switched_on(&enabled) {
            return None;
        }
        Some(
            LinkedInAlertSource {
                gmail_query: match query {
                    Some(q) => q,
                    None => DEFAULT_QUERY.to_owned(),
                },
            },
        )
    }

    /// The alerts in some messages, one for each posting, and the identities of
    /// the messages that were read.
    pub fn discover(
        &self,
        messages: &Vec<(String, String)>,
        processed: &Vec<String>,
        skip_processed: bool,
    ) -> (r: (Vec<AlertJob>, Vec<String>))
        ensures
            alert_views(r.0@) == discovered(
                to_read(pair_views(messages@), views(processed@), skip_processed),
            ),
            views(r.1@) == message_ids(
                to_read(pair_views(messages@), views(processed@), skip_processed),
            ),
    {
        let ghost all = pair_views(messages@);
        let ghost done = views(processed@);
        let mut jobs: Vec<AlertJob> = Vec::new();
        let mut ids: Vec<String> = Vec::new();
        let mut i: usize = 0;
        assert(views(ids@) =~= message_ids(to_read(all.take(0), done, skip_processed)));
        while i < messages.len()
            invariant
                all == pair_views(messages@),
                done == views(processed@),
                i <= messages@.len(),
                alert_views(jobs@) == alerts_in(to_read(all.take(i as int), done, skip_processed)),
                views(ids@) == message_ids(to_read(all.take(i as int), done, skip_processed)),
            decreases messages@.len() - i,
        {
            let ghost kept = to_read(all.take(i as int), done, skip_processed);
            let ghost earlier = jobs@;
            let ghost earlier_ids = ids@;
            assert(all.take(i + 1).drop_last() =~= all.take(i as int));
            assert(all.take(i + 1).last() == (messages@[i as int].0@, messages@[i as int].1@));
            if !(skip_processed && is_listed(processed, messages[i].0.as_str())) {
                let mut found: Vec<AlertJob> = alert::extract_alert_jobs(messages[i].1.as_str());
                let ghost more = found@;
                jobs.append(&mut found);
                ids.push(messages[i].0.clone());
                proof {
                    assert(kept.push(all[i as int]).drop_last() =~= kept);
                    assert(alert_views(jobs@) =~= alert_views(earlier) + alert_views(more));
                    assert(views(ids@) =~= message_ids(kept).push(all[i as int].0));
                    assert(message_ids(kept.push(all[i as int])) =~= message_ids(kept).push(
                        all[i as int].0,
                    ));
                }
            }
            i += 1;
        }
        assert(all.take(i as int) =~= all);
        (alert::keep_first_of_each(&jobs), ids)
    }

    /// The postings that the alerts in all messages tell of, one each.
    pub fn search_alerts(&self, messages: &Vec<(String, String)>) -> (r: Vec<JobListing>)
        ensures
            job_views(r@) == alert_postings(discovered(pair_views(messages@))),
    {
        let none: Vec<String> = Vec::new();
        let (alerts, ids): (Vec<AlertJob>, Vec<String>) = self.discover(messages, &none, false);
        proof {
            lemma_all_are_read(pair_views(messages@), views(none@));
        }
        let ghost all = alert_views(alerts@);
        let mut out: Vec<JobListing> = Vec::new();
        let mut i: usize = 0;
        while i < alerts.len()
            invariant
                all == alert_views(alerts@),
                i <= alerts@.len(),
                job_views(out@) == alert_postings(all.take(i as int)),
            decreases alerts@.len() - i,
        {
            let ghost earlier = out@;
            let job: JobListing = acquisition::alert_metadata(&alerts[i]);
            let ghost said = job@;
            out.push(job);
            assert(job_views(out@) =~= job_views(earlier).push(said));
            assert(alert_postings(all.take(i + 1)) =~= alert_postings(all.take(i as int)).push(
                said,
            ));
            i += 1;
        }
        assert(all.take(i as int) =~= all);
        out
    }

    /// Starts reading the postings that the alerts in all messages name, with
    /// those of `known` reused.
    pub fn acquire_with_known(&self, messages: &Vec<(String, String)>, known: Vec<JobListing>) -> (r:
        Acquisition)
        ensures
            r.wf(),
            r.alerts() == discovered(pair_views(messages@)),
            r.message_ids() == message_ids(pair_views(messages@)),
            r.known() == job_views(known@),
            r.jobs() == reused(discovered(pair_views(messages@)), job_views(known@), 0),
            !r.fetched(),
    {
        let none: Vec<String> = Vec::new();
        let (alerts, ids): (Vec<AlertJob>, Vec<String>) = self.discover(messages, &none, false);
        proof {
            lemma_all_are_read(pair_views(messages@), views(none@));
        }
        Acquisition::start(alerts, ids, known)
    }
}

impl JobSource for LinkedInAlertSource {
    fn source_name(&self) -> (r: &'static str)
        ensures
            r@ == SOURCE@,
    {
        SOURCE
    }

    fn acquire(&self, messages: &Vec<(String, String)>) -> (r: Acquisition)
        ensures
            r.wf(),
            r.alerts() == discovered(pair_views(messages@)),
            r.message_ids() == message_ids(pair_views(messages@)),
            r.known() == Seq::<JobView>::empty(),
            r.jobs() == Seq::<JobView>::empty(),
            !r.fetched(),
    {
        let none: Vec<JobListing> = Vec::new();
        assert(job_views(none@) =~= Seq::<JobView>::empty());
        self.acquire_with_known(messages, none)
    }
}

/// Where nothing is skipped, every message is read.
proof fn lemma_all_are_read(messages: Seq<(Seq<char>, Seq<char>)>, processed: Seq<Seq<char>>)
    ensures
        to_read(messages, processed, false) == messages,
    decreases messages.len(),
{
    if messages.len() > 0 {
        lemma_all_are_read(messages.drop_last(), processed);
        assert(messages.drop_last().push(messages.last()) =~= messages);
    }
}

/// Several messages, alerts or addresses for one posting become one posting.
pub proof fn law_one_posting_for_many_alerts(messages: Seq<(Seq<char>, Seq<char>)>)
    ensures
        forall|i: int, j: int|
            0 <= i < j < discovered(messages).len() ==> (#[trigger] discovered(messages)[i]).id != (
            #[trigger] discovered(messages)[j]).id,
{
    alert::law_each_posting_once(alerts_in(messages));
}

/// The identities of processed messages with those of some more, each once.
pub open spec fn with_processed(processed: Seq<Seq<char>>, ids: Seq<Seq<char>>) -> Seq<Seq<char>>
    decreases ids.len(),
{
    if ids.len() == 0 {
        processed
    } else {
        let earlier = with_processed(processed, ids.drop_last());
        if is_among(earlier, ids.last()) {
            earlier
        } else {
            earlier.push(ids.last())
        }
    }
}

/// Adds the identities of some messages to those processed before. Where there
/// are none, nothing is to be written.
pub fn record_processed_messages(processed: Vec<String>, ids: &Vec<String>) -> (r: Option<
    Vec<String>,
>)
    ensures
        match r {
            Some(all) => ids@.len() > 0 && views(all@) == with_processed(
                views(processed@),
                views(ids@),
            ),
            None => ids@.len() == 0,
        },
{
    if ids.len() == 0 {
        return None;
    }
    let ghost start = views(processed@);
    let ghost more = views(ids@);
    let mut all: Vec<String> = processed;
    let mut i: usize = 0;
    while i < ids.len()
        invariant
            more == views(ids@),
            i <= ids@.len(),
            views(all@) == with_processed(start, more.take(i as int)),
        decreases ids@.len() - i,
    {
        let ghost earlier = all@;
        assert(more.take(i + 1).drop_last() =~= more.take(i as int));
        assert(more[i as int] == ids@[i as int]@);
        if !is_listed(&all, ids[i].as_str()) {
            all.push(ids[i].clone());
            assert(views(all@) =~= views(earlier).push(more[i as int]));
        }
        i += 1;
    }
    assert(more.take(i as int) =~= more);
    Some(all)
}

/// A setting switches on with `1`, `true`, `yes` or `on`, in either case of letters,
/// and with nothing else.
pub proof fn law_four_words_switch_on(value: Seq<char>)
    ensures
        lower(value) == "1"@ ==> switches_on(value),
        lower(value) == "true"@ ==> switches_on(value),
        lower(value) == "yes"@ ==> switches_on(value),
        lower(value) == "on"@ ==> switches_on(value),
        lower(value) != "1"@ && lower(value) != "true"@ && lower(value) != "yes"@ && lower(value)
            != "on"@ ==> !switches_on(value),
{
}

/// One more message is read behind the others, unless processed messages are skipped
/// and it was processed before.
pub proof fn law_processed_messages_may_be_skipped(
    messages: Seq<(Seq<char>, Seq<char>)>,
    message: (Seq<char>, Seq<char>),
    processed: Seq<Seq<char>>,
    skip_processed: bool,
)
    ensures
        to_read(Seq::empty(), processed, skip_processed).len() == 0,
        !skip_processed || !processed.contains(message.0) ==> to_read(
            messages.push(message),
            processed,
            skip_processed,
        ) == to_read(messages, processed, skip_processed).push(message),
        skip_processed && processed.contains(message.0) ==> to_read(
            messages.push(message),
            processed,
            skip_processed,
        ) == to_read(messages, processed, skip_processed),
{
    assert(messages.push(message).drop_last() =~= messages);
    if processed.contains(message.0) {
        let i = choose|i: int| 0 <= i < processed.len() && processed[i] == message.0;
        assert(processed[i] == message.0);
    }
}

/// The alerts of one more message come behind the others.
pub proof fn law_alerts_of_messages_come_in_order(
    messages: Seq<(Seq<char>, Seq<char>)>,
    message: (Seq<char>, Seq<char>),
)
    ensures
        alerts_in(Seq::empty()).len() == 0,
        alerts_in(messages.push(message)) == alerts_in(messages) + first_of_each(
            alerts_from(message.1, 0),
        ),
{
    assert(messages.push(message).drop_last() =~= messages);
}

/// A posting is discovered where a link in some message leads to it, and nowhere else.
pub proof fn law_every_posting_is_discovered(
    messages: Seq<(Seq<char>, Seq<char>)>,
    id: Seq<char>,
)
    ensures
        alert::names(discovered(messages), id) <==> exists|i: int|
            0 <= i < messages.len() && alert::names(alerts_from((#[trigger] messages[i]).1, 0), id),
    decreases messages.len(),
{
    alert::law_no_posting_is_lost(alerts_in(messages));
    assert(alert::names(alerts_in(messages), id) <==> alert::names(discovered(messages), id));
    if messages.len() > 0 {
        let fewer = messages.drop_last();
        let last = alerts_from(messages.last().1, 0);
        law_every_posting_is_discovered(fewer, id);
        alert::law_no_posting_is_lost(alerts_in(fewer));
        assert(alert::names(alerts_in(fewer), id) <==> alert::names(discovered(fewer), id));
        alert::law_no_posting_is_lost(last);
        assert(alert::names(last, id) <==> alert::names(first_of_each(last), id));
        let a = alerts_in(fewer);
        let b = first_of_each(last);
        assert(alert::names(a + b, id) <==> alert::names(a, id) || alert::names(b, id)) by {
            if alert::names(a, id) {
                let i = choose|i: int| 0 <= i < a.len() && (#[trigger] a[i]).id == id;
                assert((a + b)[i].id == id);
            }
            if alert::names(b, id) {
                let i = choose|i: int| 0 <= i < b.len() && (#[trigger] b[i]).id == id;
                assert((a + b)[a.len() + i].id == id);
            }
            if alert::names(a + b, id) {
                let i = choose|i: int| 0 <= i < (a + b).len() && (#[trigger] (a + b)[i]).id == id;
                if i < a.len() {
                    assert(a[i].id == id);
                } else {
                    assert(b[i - a.len()].id == id);
                }
            }
        }
        if exists|i: int|
            0 <= i < fewer.len() && alert::names(alerts_from((#[trigger] fewer[i]).1, 0), id) {
            let i = choose|i: int|
                0 <= i < fewer.len() && alert::names(alerts_from((#[trigger] fewer[i]).1, 0), id);
            assert(messages[i] == fewer[i]);
        }
        if alert::names(last, id) {
            assert(alert::names(alerts_from(messages[messages.len() - 1].1, 0), id));
        }
        if exists|i: int|
            0 <= i < messages.len() && alert::names(alerts_from((#[trigger] messages[i]).1, 0), id) {
            let i = choose|i: int|
                0 <= i < messages.len() && alert::names(
                    alerts_from((#[trigger] messages[i]).1, 0),
                    id,
                );
            if i < fewer.len() {
                assert(fewer[i] == messages[i]);
            }
        }
    }
}

/// Each message has its identity, and each alert makes one posting, known from the
/// alert alone.
pub proof fn law_each_alert_makes_a_posting(
    messages: Seq<(Seq<char>, Seq<char>)>,
    alerts: Seq<AlertView>,
    i: int,
)
    ensures
        message_ids(messages).len() == messages.len(),
        0 <= i < messages.len() ==> message_ids(messages)[i] == messages[i].0,
        alert_postings(alerts).len() == alerts.len(),
        0 <= i < alerts.len() ==> alert_postings(alerts)[i] == alert_posting(
            alerts[i],
            "MetadataOnly"@,
        ),
{
}

/// The processed messages are those before and the new ones, and none is dropped,
/// moved or named twice.
pub proof fn law_processed_messages_are_remembered(
    processed: Seq<Seq<char>>,
    ids: Seq<Seq<char>>,
    id: Seq<char>,
)
    ensures
        with_processed(processed, ids).contains(id) <==> processed.contains(id) || ids.contains(id),
        processed.len() <= with_processed(processed, ids).len(),
        with_processed(processed, ids).take(processed.len() as int) == processed,
        processed.no_duplicates() ==> with_processed(processed, ids).no_duplicates(),
    decreases ids.len(),
{
    let out = with_processed(processed, ids);
    if ids.len() == 0 {
        assert(out.take(processed.len() as int) =~= processed);
    } else {
        let fewer = ids.drop_last();
        let last = ids.last();
        let earlier = with_processed(processed, fewer);
        law_processed_messages_are_remembered(processed, fewer, id);
        law_processed_messages_are_remembered(processed, fewer, last);
        assert(is_among(earlier, last) <==> earlier.contains(last)) by {
            if earlier.contains(last) {
                let i = choose|i: int| 0 <= i < earlier.len() && earlier[i] == last;
                assert(earlier[i] == last);
            }
        }
        assert(ids.contains(id) <==> fewer.contains(id) || id == last) by {
            if ids.contains(id) {
                let i = choose|i: int| 0 <= i < ids.len() && ids[i] == id;
                if i < fewer.len() {
                    assert(fewer[i] == id);
                }
            }
            if fewer.contains(id) {
                let i = choose|i: int| 0 <= i < fewer.len() && fewer[i] == id;
                assert(ids[i] == id);
            }
            assert(ids[ids.len() - 1] == last);
        }
        if !earlier.contains(last) {
            assert(out == earlier.push(last));
            assert(out.contains(id) <==> earlier.contains(id) || id == last) by {
                if earlier.contains(id) {
                    let i = choose|i: int| 0 <= i < earlier.len() && earlier[i] == id;
                    assert(out[i] == id);
                }
                assert(out[earlier.len() as int] == last);
                if out.contains(id) {
                    let i = choose|i: int| 0 <= i < out.len() && out[i] == id;
                    if i < earlier.len() {
                        assert(earlier[i] == id);
                    }
                }
            }
            assert(out.take(processed.len() as int) =~= earlier.take(processed.len() as int));
            if processed.no_duplicates() {
                assert forall|i: int, j: int|
                    0 <= i < out.len() && 0 <= j < out.len() && i != j implies out[i] != out[j] by {
                    if i < earlier.len() && j < earlier.len() {
                        assert(earlier[i] != earlier[j]);
                    } else if i < earlier.len() {
                        assert(earlier.contains(earlier[i]));
                    } else {
                        assert(earlier.contains(earlier[j]));
                    }
                }
            }
        }
    }
}

} // verus!
