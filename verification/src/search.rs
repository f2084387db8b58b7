//! The search of a run as a whole: what all that came of its steps leads to.

use vstd::prelude::*;
use vstd::string::*;
use crate::batch::{
    after_postings, batch_name, behind_file, file_contents, law_every_posting_is_written_once,
    new_writer, with_posting, Written, WriterView, BATCH_SIZE,
};
use crate::change::listing_differs;
use crate::job::JobView;
use crate::listing::SOURCE_104;
use crate::source::acquisition::known_as;
use crate::source::SnapshotView;
use crate::store;
use crate::store::{first_jobs, has_job};
use crate::summary;
use crate::summary::{is_changed, job_ids, named, with_comparison, with_snapshot, SummaryView};
use crate::sync::{
    after_events, committed_summary, detail_read, is_committed, needs_detail, next_step, passed_over,
    prepared, proceed, settled, EventView, JobUpdateMode, OutcomeView, RunFacts, StepView, WorkView,
};

verus! {

broadcast use vstd::string::group_string_axioms;

// ---------------------------------------------------------------------------
// What came of a run's steps
// ---------------------------------------------------------------------------

/// What a run's steps brought to light and left behind.
#[verifier::ext_equal]
pub struct SearchLog {
    /// The known postings, as they were loaded.
    pub known: Seq<JobView>,
    /// The entries of all pages of the search, in order.
    pub cards: Seq<JobView>,
    /// The entries whose own pages were opened, in order.
    pub opened: Seq<JobView>,
    /// The text of each page that was opened, unless that failed.
    pub texts: Seq<Option<Seq<char>>>,
    /// The files that were written, with their names and their postings.
    pub files: Seq<(Seq<char>, Seq<JobView>)>,
}

/// What there is before a run's first step.
pub open spec fn empty_log() -> SearchLog {
    SearchLog {
        known: Seq::empty(),
        cards: Seq::empty(),
        opened: Seq::empty(),
        texts: Seq::empty(),
        files: Seq::empty(),
    }
}

/// What there is behind a step.
pub open spec fn logged(log: SearchLog, step: StepView, event: EventView) -> SearchLog {
    match (step, event) {
        (StepView::LoadKnown(run, pages), EventView::RowsLoaded(rows)) => SearchLog {
            known: rows,
            ..log
        },
        (StepView::ReadPage(pages), EventView::PageRead(found)) => SearchLog {
            cards: log.cards + found,
            ..log
        },
        (StepView::FetchDetail(work), EventView::DetailRead(text)) => SearchLog {
            opened: log.opened.push(work.jobs[work.current.len() as int]),
            texts: log.texts.push(text),
            ..log
        },
        (StepView::WriteBatch(work), EventView::BatchWritten(ok)) => if ok && work.writer is Some {
            SearchLog { files: log.files.push(full_file(work.writer->0)), ..log }
        } else {
            log
        },
        _ => log,
    }
}

/// The file that is written of what is on its way.
pub open spec fn full_file(writer: WriterView) -> (Seq<char>, Seq<JobView>) {
    (batch_name(writer.stamp, writer.next_batch), writer.jobs)
}

/// What there is behind some events.
pub open spec fn log_of(first: StepView, events: Seq<EventView>) -> SearchLog
    decreases events.len(),
{
    if events.len() == 0 {
        empty_log()
    } else {
        let fewer = events.drop_last();
        logged(log_of(first, fewer), after_events(first, fewer), events.last())
    }
}

// ---------------------------------------------------------------------------
// What a search comes to
// ---------------------------------------------------------------------------

/// A search: the run it belongs to, the known postings, and the entries it shows,
/// each posting once.
#[verifier::ext_equal]
pub struct Search {
    pub run: RunFacts,
    pub known: Seq<JobView>,
    pub jobs: Seq<JobView>,
}

/// The search that a run made.
pub open spec fn search_of(run: RunFacts, log: SearchLog) -> Search {
    Search { run, known: log.known, jobs: first_jobs(log.cards) }
}

impl Search {
    /// The posting's entry at position `i`, as the run sees it.
    pub open spec fn entry(self, i: int) -> JobView {
        prepared(self.jobs[i], self.known, self.run.generated_at)
    }

    /// The own page of the posting at position `i` is opened.
    pub open spec fn opens(self, i: int) -> bool {
        needs_detail(self.entry(i), self.known, self.run.mode)
    }

    /// Those of the first `n` entries whose own pages are opened.
    pub open spec fn opened(self, n: int) -> Seq<JobView>
        decreases n,
    {
        if n <= 0 {
            Seq::empty()
        } else if self.opens(n - 1) {
            self.opened(n - 1).push(self.jobs[n - 1])
        } else {
            self.opened(n - 1)
        }
    }

    /// The posting at position `i`: with the text of its page, where that is opened,
    /// and else with the description known before.
    pub open spec fn posting(self, texts: Seq<Option<Seq<char>>>, i: int) -> JobView {
        settled(
            self.entry(i),
            self.known,
            if self.opens(i) {
                texts[self.opened(i).len() as int]
            } else {
                None
            },
        )
    }

    /// All postings.
    pub open spec fn postings(self, texts: Seq<Option<Seq<char>>>) -> Seq<JobView> {
        Seq::new(self.jobs.len(), |i: int| self.posting(texts, i))
    }

    /// Those of the first `n` postings whose own pages are opened: they go to the
    /// run's files.
    pub open spec fn filed(self, texts: Seq<Option<Seq<char>>>, n: int) -> Seq<JobView>
        decreases n,
    {
        if n <= 0 {
            Seq::empty()
        } else if self.opens(n - 1) {
            self.filed(texts, n - 1).push(self.posting(texts, n - 1))
        } else {
            self.filed(texts, n - 1)
        }
    }

    /// The run's files before the first posting.
    pub open spec fn no_files(self) -> Written {
        Written {
            writer: new_writer(self.run.day, self.run.generated_at),
            files: Seq::empty(),
        }
    }

    /// What the search changes, against what was known.
    pub open spec fn changes(self, texts: Seq<Option<Seq<char>>>) -> SummaryView {
        with_comparison(
            self.run.summary(),
            self.postings(texts),
            self.known,
            SOURCE_104@,
            false,
            true,
        )
    }
}

/// A list starts with another.
pub open spec fn starts_with_records<A>(all: Seq<A>, first: Seq<A>) -> bool {
    first.len() <= all.len() && all.take(first.len() as int) == first
}

/// A summary tells what a search changes, before anything else.
pub open spec fn tells_changes(summary: SummaryView, changes: SummaryView) -> bool {
    &&& starts_with_records(summary.new, changes.new)
    &&& starts_with_records(summary.updated, changes.updated)
    &&& starts_with_records(summary.deleted, changes.deleted)
}

// ---------------------------------------------------------------------------
// What holds at every step
// ---------------------------------------------------------------------------

/// The pages that are opened among the first `n` entries were opened, and nothing
/// else.
spec fn opened_so_far(s: Search, log: SearchLog, n: int) -> bool {
    &&& log.opened == s.opened(n)
    &&& log.texts.len() == log.opened.len()
}

/// The first postings are done with.
spec fn done_so_far(run: RunFacts, log: SearchLog, w: WorkView) -> bool {
    let s = search_of(run, log);
    &&& w.run == run
    &&& w.known == s.known
    &&& w.jobs == s.jobs
    &&& w.current.len() <= s.jobs.len()
    &&& opened_so_far(s, log, w.current.len() as int)
    &&& forall|i: int|
        0 <= i < w.current.len() ==> #[trigger] w.current[i] == s.posting(log.texts, i)
}

/// As long as files are written, they and what is on its way hold the postings whose
/// pages were opened.
spec fn files_so_far(s: Search, log: SearchLog, n: int, writer: Option<WriterView>) -> bool {
    writer is Some ==> after_postings(s.no_files(), s.filed(log.texts, n)) == (Written {
        writer: writer->0,
        files: log.files,
    })
}

/// A file is full; once it is written, the files hold the postings whose pages were
/// opened.
spec fn file_is_full(s: Search, log: SearchLog, n: int, writer: WriterView) -> bool {
    after_postings(s.no_files(), s.filed(log.texts, n)) == (Written {
        writer: behind_file(writer),
        files: log.files.push(full_file(writer)),
    })
}

/// The search is over.
spec fn is_over(run: RunFacts, log: SearchLog) -> bool {
    let s = search_of(run, log);
    opened_so_far(s, log, s.jobs.len() as int)
}

/// The postings of an outcome are those of the search.
spec fn has_postings(run: RunFacts, log: SearchLog, o: OutcomeView) -> bool {
    let s = search_of(run, log);
    &&& is_over(run, log)
    &&& o.current == s.postings(log.texts)
    &&& files_so_far(s, log, s.jobs.len() as int, o.writer)
}

/// What holds at a step of a run, given what there is.
spec fn holds(run: RunFacts, step: StepView, log: SearchLog) -> bool {
    let s = search_of(run, log);
    let changes = s.changes(log.texts);
    match step {
        StepView::OpenSearch(r) => r == run && log == empty_log(),
        StepView::CountPages(r) => r == run && log == empty_log(),
        StepView::LoadKnown(r, pages) => r == run && log == empty_log(),
        StepView::ReadPage(p) => {
            &&& p.run == run
            &&& p.known == log.known
            &&& p.jobs == first_jobs(log.cards)
            &&& log == (SearchLog { known: log.known, cards: log.cards, ..empty_log() })
        },
        StepView::OpenBatches(w) => {
            &&& done_so_far(run, log, w)
            &&& w.current.len() == 0
            &&& log.files.len() == 0
        },
        StepView::FetchDetail(w) => {
            &&& done_so_far(run, log, w)
            &&& files_so_far(s, log, w.current.len() as int, w.writer)
            &&& w.current.len() < w.jobs.len()
            &&& s.opens(w.current.len() as int)
        },
        StepView::WriteBatch(w) => {
            &&& done_so_far(run, log, w)
            &&& w.writer is Some
            &&& file_is_full(s, log, w.current.len() as int, w.writer->0)
        },
        StepView::AcquireLinkedIn(o) => has_postings(run, log, o) && o.summary == changes,
        StepView::PersistLinkedIn(m) => {
            &&& has_postings(run, log, m.before)
            &&& m.before.summary == changes
            &&& tells_changes(m.merged, changes)
        },
        StepView::PersistFallback(m) => false,
        StepView::Persist(o) => has_postings(run, log, o) && tells_changes(o.summary, changes),
        StepView::Reload(o) => has_postings(run, log, o) && tells_changes(o.summary, changes),
        StepView::Refused(error) => true,
        _ => is_over(run, log) && tells_changes(committed_summary(step), changes),
    }
}

/// A list of postings without repetitions is its own first postings.
proof fn lemma_first_of_distinct(jobs: Seq<JobView>)
    requires
        forall|i: int, j: int|
            0 <= i < j < jobs.len() ==> (#[trigger] jobs[i]).external_id != (
            #[trigger] jobs[j]).external_id,
    ensures
        first_jobs(jobs) == jobs,
    decreases jobs.len(),
{
    if jobs.len() > 0 {
        let fewer = jobs.drop_last();
        assert forall|i: int, j: int| 0 <= i < j < fewer.len() implies (
        #[trigger] fewer[i]).external_id != (#[trigger] fewer[j]).external_id by {
            assert(fewer[i] == jobs[i] && fewer[j] == jobs[j]);
        }
        lemma_first_of_distinct(fewer);
        if has_job(fewer, jobs.last().external_id) {
            let i = choose|i: int|
                0 <= i < fewer.len() && (#[trigger] fewer[i]).external_id
                    == jobs.last().external_id;
            assert(jobs[i].external_id == jobs[jobs.len() - 1].external_id);
        }
        assert(fewer.push(jobs.last()) =~= jobs);
    }
}

/// Dropping repetitions page by page is dropping them from all pages.
proof fn lemma_first_by_page(a: Seq<JobView>, b: Seq<JobView>)
    ensures
        first_jobs(first_jobs(a) + b) == first_jobs(a + b),
    decreases b.len(),
{
    let kept = first_jobs(a);
    if b.len() == 0 {
        store::lemma_first_jobs(a);
        lemma_first_of_distinct(kept);
        assert(kept + b =~= kept);
        assert(a + b =~= a);
    } else {
        lemma_first_by_page(a, b.drop_last());
        assert((kept + b).drop_last() =~= kept + b.drop_last());
        assert((a + b).drop_last() =~= a + b.drop_last());
        assert((kept + b).last() == b.last() && (a + b).last() == b.last());
    }
}

/// Fewer entries have no more pages opened.
proof fn lemma_opened_grows(s: Search, m: int, n: int)
    requires
        0 <= m <= n,
    ensures
        s.opened(m).len() <= s.opened(n).len(),
    decreases n - m,
{
    if n > m {
        lemma_opened_grows(s, m, n - 1);
    }
}

/// A posting that is done with stays as it is when one more page is opened.
proof fn lemma_posting_stays(
    s: Search,
    texts: Seq<Option<Seq<char>>>,
    text: Option<Seq<char>>,
    n: int,
    i: int,
)
    requires
        0 <= i < n,
        s.opened(n).len() <= texts.len(),
    ensures
        s.posting(texts.push(text), i) == s.posting(texts, i),
{
    lemma_opened_grows(s, i + 1, n);
    if s.opens(i) {
        assert(s.opened(i + 1).len() == s.opened(i).len() + 1);
        assert(texts.push(text)[s.opened(i).len() as int] == texts[s.opened(i).len() as int]);
    }
}

/// The postings for the run's files stay as they are when one more page is opened.
proof fn lemma_filed_stays(s: Search, texts: Seq<Option<Seq<char>>>, text: Option<Seq<char>>, n: int)
    requires
        s.opened(n).len() <= texts.len(),
    ensures
        s.filed(texts.push(text), n) == s.filed(texts, n),
    decreases n,
{
    if n > 0 {
        lemma_filed_stays(s, texts, text, n - 1);
        lemma_posting_stays(s, texts, text, n, n - 1);
    }
}

/// The postings that are passed over are those whose pages are not opened.
proof fn lemma_passed_over(s: Search, texts: Seq<Option<Seq<char>>>, at: int)
    requires
        0 <= at <= s.jobs.len(),
    ensures
        ({
            let more = passed_over(s.run, s.known, s.jobs, at);
            &&& at + more.len() <= s.jobs.len()
            &&& forall|i: int|
                0 <= i < more.len() ==> #[trigger] more[i] == s.posting(texts, at + i)
            &&& s.opened(at + more.len()) == s.opened(at)
            &&& s.filed(texts, at + more.len()) == s.filed(texts, at)
            &&& at + more.len() < s.jobs.len() ==> s.opens(at + more.len())
        }),
    decreases s.jobs.len() - at,
{
    if at < s.jobs.len() && !s.opens(at) {
        lemma_passed_over(s, texts, at + 1);
        let rest = passed_over(s.run, s.known, s.jobs, at + 1);
        let more = passed_over(s.run, s.known, s.jobs, at);
        assert(more =~= seq![s.posting(texts, at)] + rest);
        assert forall|i: int| 0 <= i < more.len() implies #[trigger] more[i] == s.posting(
            texts,
            at + i,
        ) by {
            if i > 0 {
                assert(more[i] == rest[i - 1]);
                assert(rest[i - 1] == s.posting(texts, at + 1 + (i - 1)));
            }
        }
        assert(s.opened(at + 1) == s.opened(at));
        assert(s.filed(texts, at + 1) == s.filed(texts, at));
    }
}

/// What holds behind a posting.
proof fn lemma_proceed(run: RunFacts, log: SearchLog, w: WorkView)
    requires
        done_so_far(run, log, w),
        files_so_far(search_of(run, log), log, w.current.len() as int, w.writer),
    ensures
        holds(run, proceed(w), log),
{
    let s = search_of(run, log);
    let at = w.current.len() as int;
    let more = passed_over(w.run, w.known, w.jobs, at);
    lemma_passed_over(s, log.texts, at);
    let next = WorkView { current: w.current + more, ..w };
    let n = next.current.len() as int;
    assert(n == at + more.len());
    assert forall|i: int| 0 <= i < n implies #[trigger] next.current[i] == s.posting(
        log.texts,
        i,
    ) by {
        if i < at {
            assert(next.current[i] == w.current[i]);
        } else {
            assert(next.current[i] == more[i - at]);
            assert(more[i - at] == s.posting(log.texts, at + (i - at)));
        }
    }
    assert(done_so_far(run, log, next));
    if n == s.jobs.len() {
        assert(next.current =~= s.postings(log.texts));
    }
}

/// What holds behind the page of a posting.
proof fn lemma_detail(run: RunFacts, log: SearchLog, w: WorkView, text: Option<Seq<char>>)
    requires
        holds(run, StepView::FetchDetail(w), log),
    ensures
        holds(
            run,
            detail_read(w, text),
            logged(log, StepView::FetchDetail(w), EventView::DetailRead(text)),
        ),
{
    let s = search_of(run, log);
    let n = w.current.len() as int;
    let after = logged(log, StepView::FetchDetail(w), EventView::DetailRead(text));
    assert(search_of(run, after) == s);
    let job = settled(s.entry(n), s.known, text);
    let current = w.current.push(job);
    assert(after.texts[log.texts.len() as int] == text);
    assert(job == s.posting(after.texts, n));
    assert(s.opened(n + 1) == s.opened(n).push(s.jobs[n]));
    assert forall|i: int| 0 <= i < current.len() implies #[trigger] current[i] == s.posting(
        after.texts,
        i,
    ) by {
        if i < n {
            lemma_posting_stays(s, log.texts, text, n, i);
            assert(current[i] == w.current[i]);
        }
    }
    lemma_filed_stays(s, log.texts, text, n);
    assert(s.filed(after.texts, n + 1) == s.filed(log.texts, n).push(job));
    assert(s.filed(log.texts, n).push(job).drop_last() =~= s.filed(log.texts, n));
    match w.writer {
        None => {
            lemma_proceed(run, after, WorkView { current, ..w });
        },
        Some(writer) => {
            let next = WorkView { current, writer: Some(with_posting(writer, job)), ..w };
            assert(done_so_far(run, after, next));
            if writer.jobs.len() + 1 != BATCH_SIZE {
                lemma_proceed(run, after, next);
            }
        },
    }
}

/// A summary tells what it tells.
proof fn lemma_tells_itself(summary: SummaryView)
    ensures
        tells_changes(summary, summary),
{
    assert(summary.new.take(summary.new.len() as int) =~= summary.new);
    assert(summary.updated.take(summary.updated.len() as int) =~= summary.updated);
    assert(summary.deleted.take(summary.deleted.len() as int) =~= summary.deleted);
}

/// What a snapshot changes comes behind what a summary tells.
proof fn lemma_snapshot_comes_behind(
    before: SummaryView,
    snapshot: SnapshotView,
    rows: Seq<JobView>,
)
    ensures
        tells_changes(with_snapshot(before, snapshot, rows), before),
{
    let merged = with_snapshot(before, snapshot, rows);
    assert(merged.new.take(before.new.len() as int) =~= before.new);
    assert(merged.updated.take(before.updated.len() as int) =~= before.updated);
    assert(merged.deleted.take(before.deleted.len() as int) =~= before.deleted);
}

/// What holds at a step holds at the next, whatever comes of it.
proof fn lemma_holds(run: RunFacts, step: StepView, log: SearchLog, event: EventView)
    requires
        holds(run, step, log),
    ensures
        holds(run, next_step(step, event), logged(log, step, event)),
{
    let after = logged(log, step, event);
    match (step, event) {
        (StepView::LoadKnown(r, pages), EventView::RowsLoaded(rows)) => {
            assert(first_jobs(after.cards) =~= Seq::empty());
        },
        (StepView::ReadPage(pages), EventView::PageRead(found)) => {
            lemma_first_by_page(log.cards, found);
            assert(after.opened =~= search_of(run, after).opened(0));
        },
        (StepView::OpenBatches(work), EventView::BatchesOpened(ok)) => {
            let next = WorkView {
                writer: if ok {
                    Some(new_writer(work.run.day, work.run.generated_at))
                } else {
                    None
                },
                ..work
            };
            let s = search_of(run, log);
            assert(log.files =~= Seq::empty());
            assert(files_so_far(s, log, 0, next.writer));
            lemma_proceed(run, log, next);
        },
        (StepView::FetchDetail(work), EventView::DetailRead(text)) => {
            lemma_detail(run, log, work, text);
        },
        (StepView::WriteBatch(work), EventView::BatchWritten(ok)) => {
            let next = WorkView {
                writer: if ok {
                    Some(behind_file(work.writer->0))
                } else {
                    None
                },
                ..work
            };
            assert(search_of(run, after) == search_of(run, log));
            assert(done_so_far(run, after, next));
            lemma_proceed(run, after, next);
        },
        (StepView::AcquireLinkedIn(outcome), EventView::LinkedInSkipped) => {
            lemma_tells_itself(outcome.summary);
        },
        (
            StepView::AcquireLinkedIn(outcome),
            EventView::LinkedInRead { snapshot, rows },
        ) => {
            lemma_snapshot_comes_behind(outcome.summary, snapshot, rows);
        },
        (StepView::PersistLinkedIn(merge), EventView::LinkedInPersisted(ok)) => {
            lemma_tells_itself(merge.before.summary);
        },
        _ => {},
    }
}

/// What holds at every step of a run.
proof fn lemma_always_holds(run: RunFacts, events: Seq<EventView>)
    ensures
        holds(
            run,
            after_events(StepView::OpenSearch(run), events),
            log_of(StepView::OpenSearch(run), events),
        ),
    decreases events.len(),
{
    if events.len() > 0 {
        let first = StepView::OpenSearch(run);
        let fewer = events.drop_last();
        lemma_always_holds(run, fewer);
        lemma_holds(run, after_events(first, fewer), log_of(first, fewer), events.last());
    }
}

// ---------------------------------------------------------------------------
// Laws of the search as a whole
// ---------------------------------------------------------------------------

/// Where a run gets to by some events, from its start on.
pub open spec fn reached(run: RunFacts, events: Seq<EventView>) -> StepView {
    after_events(StepView::OpenSearch(run), events)
}

/// What there is behind some events of a run.
pub open spec fn run_log(run: RunFacts, events: Seq<EventView>) -> SearchLog {
    log_of(StepView::OpenSearch(run), events)
}

/// The outcome that a step has in hand, of a search that is over and not yet
/// brought in line with the table.
pub open spec fn outcome_in_hand(step: StepView) -> Option<OutcomeView> {
    match step {
        StepView::AcquireLinkedIn(outcome) => Some(outcome),
        StepView::PersistLinkedIn(merge) => Some(merge.before),
        StepView::Persist(outcome) => Some(outcome),
        StepView::Reload(outcome) => Some(outcome),
        _ => None,
    }
}

/// Whatever comes of a run's steps, the postings that it asks to be kept are those
/// of the entries of all its pages, each once: with the text of its own page where
/// that was opened and gave one, and else with the description known before. What
/// it tells of, before anything else, is what they change.
pub proof fn law_a_run_keeps_what_its_search_shows(run: RunFacts, events: Seq<EventView>)
    ensures
        ({
            let step = reached(run, events);
            let log = run_log(run, events);
            let s = search_of(run, log);
            &&& outcome_in_hand(step) is Some ==> outcome_in_hand(step)->0.current == s.postings(
                log.texts,
            )
            &&& step is AcquireLinkedIn ==> outcome_in_hand(step)->0.summary == s.changes(log.texts)
            &&& step is Persist ==> tells_changes(
                outcome_in_hand(step)->0.summary,
                s.changes(log.texts),
            )
            &&& is_committed(step) ==> tells_changes(committed_summary(step), s.changes(log.texts))
        }),
{
    lemma_always_holds(run, events);
}

/// Once its search is over, a run has opened the pages of exactly those entries that
/// call for it, each once and in order: of all of them in a full run, and else of
/// those that are not known or differ from what is known.
pub proof fn law_pages_are_opened_where_called_for(run: RunFacts, events: Seq<EventView>)
    requires
        outcome_in_hand(reached(run, events)) is Some || is_committed(reached(run, events)),
    ensures
        ({
            let log = run_log(run, events);
            let s = search_of(run, log);
            let n = s.jobs.len() as int;
            &&& log.opened == s.opened(n)
            &&& log.texts.len() == log.opened.len()
            &&& run.mode == JobUpdateMode::All ==> log.opened == s.jobs
            &&& run.mode == JobUpdateMode::Changed ==> forall|i: int|
                0 <= i < n ==> #[trigger] s.opens(i) == (match known_as(
                    s.known,
                    SOURCE_104@,
                    s.jobs[i].external_id,
                ) {
                    Some(row) => listing_differs(row, s.entry(i)),
                    None => true,
                })
        }),
{
    lemma_always_holds(run, events);
    let s = search_of(run, run_log(run, events));
    if run.mode == JobUpdateMode::All {
        lemma_all_are_opened(s, run_log(run, events).texts, s.jobs.len() as int);
        assert(s.jobs.take(s.jobs.len() as int) =~= s.jobs);
    }
}

/// In a full run all pages are opened, and all postings go to files.
proof fn lemma_all_are_opened(s: Search, texts: Seq<Option<Seq<char>>>, n: int)
    requires
        s.run.mode == JobUpdateMode::All,
        0 <= n <= s.jobs.len(),
    ensures
        s.opened(n) == s.jobs.take(n),
        s.filed(texts, n) == s.postings(texts).take(n),
    decreases n,
{
    if n > 0 {
        lemma_all_are_opened(s, texts, n - 1);
        assert(s.opens(n - 1));
        assert(s.opened(n) =~= s.jobs.take(n));
        assert(s.postings(texts)[n - 1] == s.posting(texts, n - 1));
        assert(s.filed(texts, n) =~= s.postings(texts).take(n));
    } else {
        assert(s.opened(n) =~= s.jobs.take(n));
        assert(s.filed(texts, n) =~= s.postings(texts).take(n));
    }
}

/// As long as a run's files can be written, they hold, ten each, the postings whose
/// pages were opened, and what is left of these is on its way to the last file: in
/// a full run that is every posting.
pub proof fn law_files_hold_the_opened_postings(run: RunFacts, events: Seq<EventView>)
    requires
        outcome_in_hand(reached(run, events)) is Some,
        outcome_in_hand(reached(run, events))->0.writer is Some,
    ensures
        ({
            let log = run_log(run, events);
            let s = search_of(run, log);
            let filed = s.filed(log.texts, s.jobs.len() as int);
            let writer = outcome_in_hand(reached(run, events))->0.writer->0;
            &&& file_contents(log.files) + writer.jobs == filed
            &&& forall|k: int| 0 <= k < log.files.len() ==> (#[trigger] log.files[k]).1.len() == 10
            &&& writer.jobs.len() == filed.len() % 10
            &&& run.mode == JobUpdateMode::All ==> filed == s.postings(log.texts)
        }),
{
    lemma_always_holds(run, events);
    let log = run_log(run, events);
    let s = search_of(run, log);
    let n = s.jobs.len() as int;
    law_every_posting_is_written_once(run.day, run.generated_at, s.filed(log.texts, n));
    if run.mode == JobUpdateMode::All {
        lemma_all_are_opened(s, log.texts, n);
        assert(s.postings(log.texts).take(n) =~= s.postings(log.texts));
    }
}

/// What a search changes, told against the entries of all its pages: new is what is
/// among them and not known, deleted is what is known and not among them, and
/// updated is what is among them, known, and no longer as it was known.
pub proof fn law_changes_are_told_against_all_pages(run: RunFacts, log: SearchLog, id: Seq<char>)
    ensures
        ({
            let s = search_of(run, log);
            let changes = s.changes(log.texts);
            let row = known_as(log.known, SOURCE_104@, id);
            &&& named(changes.new, id) <==> has_job(log.cards, id) && row is None
            &&& named(changes.deleted, id) <==> !has_job(log.cards, id) && row is Some
            &&& named(changes.updated, id) <==> row is Some && is_changed(
                s.postings(log.texts),
                row->0,
                id,
            )
            &&& named(changes.updated, id) ==> has_job(log.cards, id)
        }),
{
    let s = search_of(run, log);
    let jobs = s.postings(log.texts);
    let changes = s.changes(log.texts);
    let none = run.summary();
    store::lemma_first_jobs(log.cards);
    assert(has_job(s.jobs, id) <==> has_job(log.cards, id));
    if has_job(jobs, id) {
        let i = choose|i: int| 0 <= i < jobs.len() && (#[trigger] jobs[i]).external_id == id;
        assert(s.jobs[i].external_id == id);
    }
    if has_job(s.jobs, id) {
        let i = choose|i: int| 0 <= i < s.jobs.len() && (#[trigger] s.jobs[i]).external_id == id;
        assert(jobs[i].external_id == id);
    }
    store::lemma_first_jobs(jobs);
    summary::lemma_ids(jobs, id);
    summary::law_new_postings_are_unknown(jobs, log.known, SOURCE_104@, id);
    summary::law_updated_postings_differ(jobs, log.known, SOURCE_104@, id);
    summary::law_missing_postings_are_deleted(
        log.known,
        SOURCE_104@,
        job_ids(jobs),
        none.generated_at,
        id,
    );
    assert(changes.new =~= summary::new_records(jobs, log.known, SOURCE_104@));
    assert(changes.updated =~= summary::updated_records(jobs, log.known, SOURCE_104@, false));
    assert(changes.deleted =~= summary::deleted_records(
        log.known,
        SOURCE_104@,
        job_ids(jobs),
        none.generated_at,
    ));
}

/// Every posting that a run keeps says what its entry in the search says. Where its
/// page was opened and gave a text, that text is its description; where its page gave
/// none or was not opened, its description is the one known before.
pub proof fn law_kept_postings_have_the_texts_of_their_pages(
    run: RunFacts,
    events: Seq<EventView>,
    i: int,
)
    requires
        outcome_in_hand(reached(run, events)) is Some,
        0 <= i < first_jobs(run_log(run, events).cards).len(),
    ensures
        ({
            let log = run_log(run, events);
            let s = search_of(run, log);
            let card = first_jobs(log.cards)[i];
            let kept = outcome_in_hand(reached(run, events))->0.current[i];
            let row = known_as(log.known, SOURCE_104@, card.external_id);
            let text = log.texts[s.opened(i).len() as int];
            let gave = s.opens(i) && text is Some && text->0.len() > 0;
            &&& outcome_in_hand(reached(run, events))->0.current.len() == first_jobs(log.cards).len()
            &&& gave ==> kept.description == text
            &&& !gave && row is Some ==> kept.description == row->0.description
            &&& !gave && row is None ==> kept.description is None
            &&& kept.external_id == card.external_id && kept.source == card.source
            &&& kept.title == card.title && kept.company == card.company
            &&& kept.location == card.location && kept.salary == card.salary
            &&& kept.url == card.url && kept.published_at == card.published_at
            &&& kept.platform_updated_at == card.platform_updated_at
            &&& kept.fetch_state == card.fetch_state
            &&& kept.last_seen_at == Some(run.generated_at)
        }),
{
    law_a_run_keeps_what_its_search_shows(run, events);
    let log = run_log(run, events);
    let s = search_of(run, log);
    assert(s.postings(log.texts)[i] == s.posting(log.texts, i));
}

} // verus!
