//! A run from its start to its end: what is to be done next, given what came of
//! what was done before.

use vstd::prelude::*;
use vstd::string::*;
use crate::batch::{behind_file, copy_jobs, new_writer, with_posting, JobFileWriter, WriterView, BATCH_SIZE};
use crate::change;
use crate::change::{listing_differs, with_tracking_of, RecordView};
use crate::clock;
use crate::clock::{hyphened_date, Timestamp, MAX_DAY, MIN_DAY};
use crate::job::{copy_option, job_views, opt_job_view, JobListing, JobView};
use crate::listing;
use crate::listing::{is_challenge, MAX_PAGES, SOURCE_104};
use crate::number;
use crate::number::decimal;
use crate::report;
use crate::report::digest;
use crate::scan;
use crate::source::acquisition;
use crate::source::acquisition::{acquired, asked_for, find_known, known_as, read_after, reading, were_asked_for, Acquired, PageReply};
use crate::source::alert::AlertView;
use crate::source::{SnapshotView, SourceSnapshot};
use crate::store;
use crate::store::{first_jobs, run_changes, statement_views, statements_of, Statement};
use crate::summary;
use crate::summary::{all_seen, counts_fit, empty_summary, job_ids, named, with_comparison, with_snapshot, SummaryView, SyncSummary};
use crate::text::{is_among, opt_view};

verus! {

broadcast use vstd::string::group_string_axioms;

// ---------------------------------------------------------------------------
// Runs
// ---------------------------------------------------------------------------

/// Which known postings have their own pages opened.
#[derive(Clone, Copy, Debug, PartialEq, Eq, Structural)]
pub enum JobUpdateMode {
    /// Those whose entry in the search differs from what is known.
    Changed,
    /// All of them.
    All,
}

/// What a run is: what started it, which pages it opens, when it is, and whether
/// anyone can be told of it through LINE.
#[derive(Debug)]
pub struct Run {
    pub trigger: String,
    pub mode: JobUpdateMode,
    pub generated_at: String,
    pub day: i32,
    pub can_notify: bool,
}

/// What a run is.
#[verifier::ext_equal]
pub struct RunFacts {
    pub trigger: Seq<char>,
    pub mode: JobUpdateMode,
    pub generated_at: Seq<char>,
    pub day: int,
    pub can_notify: bool,
}

impl View for Run {
    type V = RunFacts;

    open spec fn view(&self) -> RunFacts {
        RunFacts {
            trigger: self.trigger@,
            mode: self.mode,
            generated_at: self.generated_at@,
            day: self.day as int,
            can_notify: self.can_notify,
        }
    }
}

impl RunFacts {
    /// The run's day has a calendar date.
    pub open spec fn wf(self) -> bool {
        MIN_DAY <= self.day <= MAX_DAY
    }

    /// The summary before anything was compared.
    pub open spec fn summary(self) -> SummaryView {
        empty_summary(self.generated_at, hyphened_date(self.day), self.trigger)
    }
}

impl Run {
    /// A run that starts at a point in time.
    pub fn start(trigger: &str, mode: JobUpdateMode, can_notify: bool, now: &Timestamp) -> (r: Run)
        requires
            now.has_taipei_date(),
        ensures
            r@ == (RunFacts {
                trigger: trigger@,
                mode,
                generated_at: now.taipei_rfc3339(),
                day: now.taipei_day(),
                can_notify,
            }),
            r@.wf(),
    {
        Run {
            trigger: trigger.to_owned(),
            mode,
            generated_at: clock::taipei_rfc3339(now),
            day: clock::taipei_date(now),
            can_notify,
        }
    }

    /// The summary before anything was compared.
    fn summary(&self) -> (r: SyncSummary)
        requires
            self@.wf(),
        ensures
            r@ == self@.summary(),
    {
        let date: String = clock::format_hyphened(self.day);
        SyncSummary::started(self.generated_at.as_str(), date.as_str(), self.trigger.as_str())
    }
}

/// Why a search is not believed.
#[derive(Clone, Copy, Debug, PartialEq, Eq, Structural)]
pub enum SyncError {
    /// It asks whether its reader is human.
    Challenge,
    /// It has too many pages.
    UnsafePageCount(u64),
    /// A page shows no postings.
    EmptyPage(u64),
    /// It has no pages.
    NoCards,
}

impl SyncError {
    /// The error in words.
    pub open spec fn text(self) -> Seq<char> {
        match self {
            SyncError::Challenge =>
                "104 returned a Cloudflare challenge; refusing to persist an empty result"@,
            SyncError::UnsafePageCount(pages) => "104 reported an unsafe page count: "@ + decimal(
                pages as nat,
            ),
            SyncError::EmptyPage(page) => "104 page "@ + decimal(page as nat)
                + " returned no cards; refusing an incomplete result set"@,
            SyncError::NoCards =>
                "104 returned no job cards; refusing to replace the saved job list"@,
        }
    }

    /// The error in words.
    pub fn message(&self) -> (r: String)
        ensures
            r@ == self.text(),
    {
        match self {
            SyncError::Challenge =>
                "104 returned a Cloudflare challenge; refusing to persist an empty result".to_owned(),
            SyncError::UnsafePageCount(pages) => scan::concat(
                "104 reported an unsafe page count: ",
                number::to_decimal(*pages).as_str(),
            ),
            SyncError::EmptyPage(page) => scan::concat3(
                "104 page ",
                number::to_decimal(*page).as_str(),
                " returned no cards; refusing an incomplete result set",
            ),
            SyncError::NoCards =>
                "104 returned no job cards; refusing to replace the saved job list".to_owned(),
        }
    }
}

// ---------------------------------------------------------------------------
// What a run has so far
// ---------------------------------------------------------------------------

/// The pages of the search read so far.
pub struct Pages {
    pub run: Run,
    pub known: Vec<JobListing>,
    pub pages: u64,
    pub page: u64,
    pub jobs: Vec<JobListing>,
}

/// The pages of the search read so far.
#[verifier::ext_equal]
pub struct PagesView {
    pub run: RunFacts,
    pub known: Seq<JobView>,
    pub pages: nat,
    pub page: nat,
    pub jobs: Seq<JobView>,
}

impl View for Pages {
    type V = PagesView;

    open spec fn view(&self) -> PagesView {
        PagesView {
            run: self.run@,
            known: job_views(self.known@),
            pages: self.pages as nat,
            page: self.page as nat,
            jobs: job_views(self.jobs@),
        }
    }
}

/// The postings of the search, and those of them that are done with.
pub struct Work {
    pub run: Run,
    pub known: Vec<JobListing>,
    pub jobs: Vec<JobListing>,
    pub current: Vec<JobListing>,
    pub writer: Option<JobFileWriter>,
}

/// The postings of the search, and those of them that are done with.
#[verifier::ext_equal]
pub struct WorkView {
    pub run: RunFacts,
    pub known: Seq<JobView>,
    pub jobs: Seq<JobView>,
    pub current: Seq<JobView>,
    pub writer: Option<WriterView>,
}

/// What is on its way to a run's files, if there are any.
pub open spec fn opt_writer(writer: Option<JobFileWriter>) -> Option<WriterView> {
    match writer {
        Some(w) => Some(w@),
        None => None,
    }
}

impl View for Work {
    type V = WorkView;

    open spec fn view(&self) -> WorkView {
        WorkView {
            run: self.run@,
            known: job_views(self.known@),
            jobs: job_views(self.jobs@),
            current: job_views(self.current@),
            writer: opt_writer(self.writer),
        }
    }
}

/// The postings as they are now, and what that changes.
pub struct Outcome {
    pub run: Run,
    pub current: Vec<JobListing>,
    pub linkedin: Vec<JobListing>,
    pub summary: SyncSummary,
    pub writer: Option<JobFileWriter>,
}

/// The postings as they are now, and what that changes.
#[verifier::ext_equal]
pub struct OutcomeView {
    pub run: RunFacts,
    pub current: Seq<JobView>,
    pub linkedin: Seq<JobView>,
    pub summary: SummaryView,
    pub writer: Option<WriterView>,
}

impl View for Outcome {
    type V = OutcomeView;

    open spec fn view(&self) -> OutcomeView {
        OutcomeView {
            run: self.run@,
            current: job_views(self.current@),
            linkedin: job_views(self.linkedin@),
            summary: self.summary@,
            writer: opt_writer(self.writer),
        }
    }
}

/// An outcome, and what LinkedIn's snapshot would make of it once it is kept.
pub struct Merge {
    pub before: Outcome,
    pub snapshot: SourceSnapshot,
    pub merged: SyncSummary,
}

/// An outcome, and what LinkedIn's snapshot would make of it once it is kept.
#[verifier::ext_equal]
pub struct MergeView {
    pub before: OutcomeView,
    pub snapshot: SnapshotView,
    pub merged: SummaryView,
}

impl View for Merge {
    type V = MergeView;

    open spec fn view(&self) -> MergeView {
        MergeView { before: self.before@, snapshot: self.snapshot@, merged: self.merged@ }
    }
}

/// A summary that is kept, and the heading under which it is told of, if it is.
pub struct Report {
    pub day: i32,
    pub summary: SyncSummary,
    pub heading: Option<String>,
}

/// A summary that is kept, and the heading under which it is told of, if it is.
#[verifier::ext_equal]
pub struct ReportView {
    pub day: int,
    pub summary: SummaryView,
    pub heading: Option<Seq<char>>,
}

impl View for Report {
    type V = ReportView;

    open spec fn view(&self) -> ReportView {
        ReportView {
            day: self.day as int,
            summary: self.summary@,
            heading: opt_view(self.heading),
        }
    }
}

// ---------------------------------------------------------------------------
// Steps and events
// ---------------------------------------------------------------------------

/// What is to be done next, with what the run has so far.
pub enum Step {
    /// Open the search and look at it.
    OpenSearch(Run),
    /// Count the search's pages.
    CountPages(Run),
    /// Load the known postings of the source 104; the search has so many pages.
    LoadKnown(Run, u64),
    /// Read a page of the search.
    ReadPage(Pages),
    /// Make the folder for the run's files.
    OpenBatches(Work),
    /// Open the page of the next posting.
    FetchDetail(Work),
    /// Write a file of postings.
    WriteBatch(Work),
    /// Load all known postings and read LinkedIn's alerts.
    AcquireLinkedIn(Outcome),
    /// Keep LinkedIn's postings.
    PersistLinkedIn(Merge),
    /// Keep LinkedIn's postings, where the search failed.
    PersistFallback(Merge),
    /// Keep the postings of the search.
    Persist(Outcome),
    /// Load all known postings again.
    Reload(Outcome),
    /// Save the list of postings.
    SaveList(Outcome),
    /// Write what is left of the run's files, and remove old ones.
    FinishBatches(Outcome),
    /// Add the run to the day's history.
    AppendHistory(Report),
    /// Remove old histories.
    RotateHistory(Report),
    /// Send the mail about the run, if there is anyone to send it to.
    SendEmail(Report),
    /// Tell of the run through LINE.
    Notify(Report),
    /// Nothing: the run is over.
    Done(SyncSummary),
    /// Nothing: the search is not believed.
    Refused(SyncError),
}

/// What is to be done next.
pub enum StepView {
    OpenSearch(RunFacts),
    CountPages(RunFacts),
    LoadKnown(RunFacts, nat),
    ReadPage(PagesView),
    OpenBatches(WorkView),
    FetchDetail(WorkView),
    WriteBatch(WorkView),
    AcquireLinkedIn(OutcomeView),
    PersistLinkedIn(MergeView),
    PersistFallback(MergeView),
    Persist(OutcomeView),
    Reload(OutcomeView),
    SaveList(OutcomeView),
    FinishBatches(OutcomeView),
    AppendHistory(ReportView),
    RotateHistory(ReportView),
    SendEmail(ReportView),
    Notify(ReportView),
    Done(SummaryView),
    Refused(SyncError),
}

impl View for Step {
    type V = StepView;

    open spec fn view(&self) -> StepView {
        match self {
            Step::OpenSearch(run) => StepView::OpenSearch(run@),
            Step::CountPages(run) => StepView::CountPages(run@),
            Step::LoadKnown(run, pages) => StepView::LoadKnown(run@, *pages as nat),
            Step::ReadPage(pages) => StepView::ReadPage(pages@),
            Step::OpenBatches(work) => StepView::OpenBatches(work@),
            Step::FetchDetail(work) => StepView::FetchDetail(work@),
            Step::WriteBatch(work) => StepView::WriteBatch(work@),
            Step::AcquireLinkedIn(outcome) => StepView::AcquireLinkedIn(outcome@),
            Step::PersistLinkedIn(merge) => StepView::PersistLinkedIn(merge@),
            Step::PersistFallback(merge) => StepView::PersistFallback(merge@),
            Step::Persist(outcome) => StepView::Persist(outcome@),
            Step::Reload(outcome) => StepView::Reload(outcome@),
            Step::SaveList(outcome) => StepView::SaveList(outcome@),
            Step::FinishBatches(outcome) => StepView::FinishBatches(outcome@),
            Step::AppendHistory(report) => StepView::AppendHistory(report@),
            Step::RotateHistory(report) => StepView::RotateHistory(report@),
            Step::SendEmail(report) => StepView::SendEmail(report@),
            Step::Notify(report) => StepView::Notify(report@),
            Step::Done(summary) => StepView::Done(summary@),
            Step::Refused(error) => StepView::Refused(*error),
        }
    }
}

/// What came of what was done.
pub enum Event {
    /// The search was opened and shows a page.
    SearchShown { title: String, html: String },
    /// The search has so many pages.
    PagesCounted(u64),
    /// Postings were loaded from the table.
    RowsLoaded(Vec<JobListing>),
    /// A page of the search shows postings.
    PageRead(Vec<JobListing>),
    /// The folder for the run's files is there, or not.
    BatchesOpened(bool),
    /// A posting's page was opened; its text, unless that failed.
    DetailRead(Option<String>),
    /// A file was written, or not.
    BatchWritten(bool),
    /// LinkedIn is not read, or could not be.
    LinkedInSkipped,
    /// LinkedIn's alerts were read, with all postings of the table known.
    LinkedInRead(Acquired),
    /// LinkedIn's postings were kept, or not.
    LinkedInPersisted(bool),
    /// The postings were kept.
    Persisted,
    /// The list of postings was saved.
    ListSaved,
    /// The run's files are done with.
    BatchesFinished,
    /// The run was added to the history at a path.
    HistoryAppended(String),
    /// The run could not be added to the history.
    HistoryFailed(String),
    /// Old histories were removed, or else what went wrong.
    HistoryRotated(Option<String>),
    /// The mail was sent, or is not to be.
    EmailHandled,
    /// The run was told of, or could not be.
    Notified,
}

/// What came of what was done.
pub enum EventView {
    SearchShown { title: Seq<char>, html: Seq<char> },
    PagesCounted(nat),
    RowsLoaded(Seq<JobView>),
    PageRead(Seq<JobView>),
    BatchesOpened(bool),
    DetailRead(Option<Seq<char>>),
    BatchWritten(bool),
    LinkedInSkipped,
    LinkedInRead { snapshot: SnapshotView, rows: Seq<JobView> },
    LinkedInPersisted(bool),
    Persisted,
    ListSaved,
    BatchesFinished,
    HistoryAppended(Seq<char>),
    HistoryFailed(Seq<char>),
    HistoryRotated(Option<Seq<char>>),
    EmailHandled,
    Notified,
}

impl View for Event {
    type V = EventView;

    open spec fn view(&self) -> EventView {
        match self {
            Event::SearchShown { title, html } => EventView::SearchShown {
                title: title@,
                html: html@,
            },
            Event::PagesCounted(pages) => EventView::PagesCounted(*pages as nat),
            Event::RowsLoaded(rows) => EventView::RowsLoaded(job_views(rows@)),
            Event::PageRead(jobs) => EventView::PageRead(job_views(jobs@)),
            Event::BatchesOpened(ok) => EventView::BatchesOpened(*ok),
            Event::DetailRead(text) => EventView::DetailRead(opt_view(*text)),
            Event::BatchWritten(ok) => EventView::BatchWritten(*ok),
            Event::LinkedInSkipped => EventView::LinkedInSkipped,
            Event::LinkedInRead(read) => EventView::LinkedInRead {
                snapshot: read.snapshot@,
                rows: job_views(read.known@),
            },
            Event::LinkedInPersisted(ok) => EventView::LinkedInPersisted(*ok),
            Event::Persisted => EventView::Persisted,
            Event::ListSaved => EventView::ListSaved,
            Event::BatchesFinished => EventView::BatchesFinished,
            Event::HistoryAppended(path) => EventView::HistoryAppended(path@),
            Event::HistoryFailed(error) => EventView::HistoryFailed(error@),
            Event::HistoryRotated(error) => EventView::HistoryRotated(opt_view(*error)),
            Event::EmailHandled => EventView::EmailHandled,
            Event::Notified => EventView::Notified,
        }
    }
}

impl EventView {
    /// One more sighting of each posting that was loaded can be counted.
    pub open spec fn wf(self) -> bool {
        match self {
            EventView::RowsLoaded(rows) => counts_fit(rows),
            EventView::LinkedInRead { snapshot, rows } => counts_fit(rows),
            _ => true,
        }
    }
}

// ---------------------------------------------------------------------------
// Postings of the search
// ---------------------------------------------------------------------------

/// A posting of the search as the run sees it.
pub open spec fn prepared(job: JobView, known: Seq<JobView>, run_at: Seq<char>) -> JobView {
    change::seen_in_run(job, known_as(known, SOURCE_104@, job.external_id), run_at)
}

/// A posting's own page is opened: it is not known, or all are opened, or its
/// entry in the search differs from what is known.
pub open spec fn needs_detail(job: JobView, known: Seq<JobView>, mode: JobUpdateMode) -> bool {
    match known_as(known, SOURCE_104@, job.external_id) {
        None => true,
        Some(row) => mode == JobUpdateMode::All || listing_differs(row, job),
    }
}

/// A posting with the text that its page gave, or, where it gave none, with the
/// description known before.
pub open spec fn settled(job: JobView, known: Seq<JobView>, text: Option<Seq<char>>) -> JobView {
    let kept = match known_as(known, SOURCE_104@, job.external_id) {
        Some(row) => row.description,
        None => None,
    };
    JobView {
        description: match text {
            Some(t) => if t.len() > 0 {
                Some(t)
            } else {
                kept
            },
            None => kept,
        },
        ..job
    }
}

/// The postings from position `at` on whose pages are not opened, up to the first
/// whose page is.
pub open spec fn passed_over(
    run: RunFacts,
    known: Seq<JobView>,
    jobs: Seq<JobView>,
    at: int,
) -> Seq<JobView>
    decreases jobs.len() - at,
{
    if at < 0 || at >= jobs.len() {
        Seq::empty()
    } else {
        let job = prepared(jobs[at], known, run.generated_at);
        if needs_detail(job, known, run.mode) {
            Seq::empty()
        } else {
            seq![settled(job, known, None)] + passed_over(run, known, jobs, at + 1)
        }
    }
}

/// Whether a posting's own page is opened.
fn is_detail_needed(job: &JobListing, known: &Vec<JobListing>, mode: JobUpdateMode) -> (r: bool)
    ensures
        r == needs_detail(job@, job_views(known@), mode),
{
    match find_known(known, SOURCE_104, job.external_id.as_str()) {
        None => true,
        Some(row) => match mode {
            JobUpdateMode::All => true,
            JobUpdateMode::Changed => change::listing_fields_changed(row, job),
        },
    }
}

/// Gives a posting the text that its page gave, or the description known before.
fn settle(job: &mut JobListing, known: &Vec<JobListing>, text: Option<String>)
    ensures
        final(job)@ == settled(old(job)@, job_views(known@), opt_view(text)),
{
    let kept: Option<String> = match find_known(known, SOURCE_104, job.external_id.as_str()) {
        Some(row) => copy_option(&row.description),
        None => None,
    };
    job.description = match text {
        Some(t) => if t.as_str().is_empty() {
            kept
        } else {
            Some(t)
        },
        None => kept,
    };
}

// ---------------------------------------------------------------------------
// From each step to the next
// ---------------------------------------------------------------------------

/// The step behind a look at the search.
pub open spec fn search_shown(run: RunFacts, title: Seq<char>, html: Seq<char>) -> StepView {
    if is_challenge(title, html) {
        StepView::Refused(SyncError::Challenge)
    } else {
        StepView::CountPages(run)
    }
}

/// The step behind the count of the search's pages.
pub open spec fn pages_counted(run: RunFacts, pages: nat) -> StepView {
    if pages > MAX_PAGES {
        StepView::Refused(SyncError::UnsafePageCount(pages as u64))
    } else {
        StepView::LoadKnown(run, pages)
    }
}

/// The step behind the loading of the known postings.
pub open spec fn known_loaded(run: RunFacts, pages: nat, rows: Seq<JobView>) -> StepView {
    if pages == 0 {
        StepView::Refused(SyncError::NoCards)
    } else {
        StepView::ReadPage(PagesView { run, known: rows, pages, page: 1, jobs: Seq::empty() })
    }
}

/// The step behind a page of the search.
pub open spec fn page_read(pages: PagesView, found: Seq<JobView>) -> StepView {
    let jobs = first_jobs(pages.jobs + found);
    if found.len() == 0 {
        StepView::Refused(SyncError::EmptyPage(pages.page as u64))
    } else if pages.page < pages.pages {
        StepView::ReadPage(PagesView { page: pages.page + 1, jobs, ..pages })
    } else {
        StepView::OpenBatches(
            WorkView {
                run: pages.run,
                known: pages.known,
                jobs,
                current: Seq::empty(),
                writer: None,
            },
        )
    }
}

/// The outcome of a run whose postings are all done with: they are compared with
/// what is known.
pub open spec fn outcome_of(work: WorkView) -> OutcomeView {
    OutcomeView {
        run: work.run,
        current: work.current,
        linkedin: Seq::empty(),
        summary: with_comparison(
            work.run.summary(),
            work.current,
            work.known,
            SOURCE_104@,
            false,
            true,
        ),
        writer: work.writer,
    }
}

/// The step that the next posting asks for, or the end of the search.
pub open spec fn proceed(work: WorkView) -> StepView {
    let next = WorkView {
        current: work.current + passed_over(
            work.run,
            work.known,
            work.jobs,
            work.current.len() as int,
        ),
        ..work
    };
    if next.current.len() < work.jobs.len() {
        StepView::FetchDetail(next)
    } else {
        StepView::AcquireLinkedIn(outcome_of(next))
    }
}

/// The step behind the making of the folder for the run's files.
pub open spec fn batches_opened(work: WorkView, ok: bool) -> StepView {
    proceed(
        WorkView {
            writer: if ok {
                Some(new_writer(work.run.day, work.run.generated_at))
            } else {
                None
            },
            ..work
        },
    )
}

/// The step behind the page of the next posting.
pub open spec fn detail_read(work: WorkView, text: Option<Seq<char>>) -> StepView {
    let job = settled(
        prepared(work.jobs[work.current.len() as int], work.known, work.run.generated_at),
        work.known,
        text,
    );
    let current = work.current.push(job);
    match work.writer {
        None => proceed(WorkView { current, ..work }),
        Some(writer) => {
            let next = WorkView {
                current,
                writer: Some(with_posting(writer, job)),
                ..work
            };
            if writer.jobs.len() + 1 == BATCH_SIZE {
                StepView::WriteBatch(next)
            } else {
                proceed(next)
            }
        },
    }
}

/// The step behind the writing of a file. Where it failed, no more are written.
pub open spec fn batch_written(work: WorkView, ok: bool) -> StepView {
    proceed(
        WorkView {
            writer: match work.writer {
                Some(writer) => if ok {
                    Some(behind_file(writer))
                } else {
                    None
                },
                None => None,
            },
            ..work
        },
    )
}

/// An outcome with LinkedIn's snapshot merged into it, before it is kept.
pub open spec fn merge_of(before: OutcomeView, snapshot: SnapshotView, rows: Seq<JobView>) -> MergeView {
    MergeView {
        before,
        snapshot: SnapshotView {
            jobs: all_seen(
                snapshot.jobs,
                rows,
                snapshot.source,
                before.summary.generated_at,
            ),
            ..snapshot
        },
        merged: with_snapshot(before.summary, snapshot, rows),
    }
}

/// The step behind the keeping of LinkedIn's postings. Where it failed, the
/// outcome stays as it was.
pub open spec fn linkedin_persisted(merge: MergeView, ok: bool) -> StepView {
    if ok {
        StepView::Persist(
            OutcomeView {
                summary: merge.merged,
                linkedin: merge.snapshot.jobs,
                ..merge.before
            },
        )
    } else {
        StepView::Persist(merge.before)
    }
}

/// Postings with the tracking that the table has for them.
pub open spec fn with_stored_tracking(jobs: Seq<JobView>, rows: Seq<JobView>) -> Seq<JobView> {
    jobs.map_values(
        |job: JobView|
            match known_as(rows, job.source, job.external_id) {
                Some(row) => with_tracking_of(job, row),
                None => job,
            },
    )
}

/// The step behind the loading of the table as it is now.
pub open spec fn reloaded(outcome: OutcomeView, rows: Seq<JobView>) -> StepView {
    StepView::SaveList(
        OutcomeView {
            current: with_stored_tracking(outcome.current, rows),
            linkedin: with_stored_tracking(outcome.linkedin, rows),
            ..outcome
        },
    )
}

/// The heading under which a run is told of when it ends.
pub open spec fn heading_for(run: RunFacts) -> Option<Seq<char>> {
    if !run.can_notify {
        None
    } else if run.trigger == "scheduled"@ {
        Some("每日履歷更新\n同步完成"@)
    } else if run.trigger == "startup"@ {
        Some("Job Watcher\n啟動更新完成"@)
    } else if run.trigger == "local-cli"@ || run.trigger == "local-cli-all"@ {
        Some("Job Watcher\n更新完成"@)
    } else {
        None
    }
}

/// The report of a run whose search was kept.
pub open spec fn report_of(outcome: OutcomeView) -> ReportView {
    ReportView {
        day: outcome.run.day,
        summary: outcome.summary,
        heading: heading_for(outcome.run),
    }
}

/// The report of a run of which only LinkedIn's postings were kept.
pub open spec fn fallback_report(merge: MergeView) -> ReportView {
    ReportView {
        day: merge.before.run.day,
        summary: merge.merged,
        heading: if merge.before.run.can_notify {
            Some("Job Watcher\n更新完成"@)
        } else {
            None
        },
    }
}

/// The step behind the saving of the list of postings.
pub open spec fn list_saved(outcome: OutcomeView) -> StepView {
    match outcome.writer {
        Some(writer) => StepView::FinishBatches(outcome),
        None => StepView::AppendHistory(report_of(outcome)),
    }
}

/// The step behind the mail.
pub open spec fn email_handled(report: ReportView) -> StepView {
    match report.heading {
        Some(heading) => StepView::Notify(report),
        None => StepView::Done(report.summary),
    }
}

/// What is to be done next, given what came of what was done. What is no answer
/// to it changes nothing.
pub open spec fn next_step(step: StepView, event: EventView) -> StepView {
    match (step, event) {
        (StepView::OpenSearch(run), EventView::SearchShown { title, html }) => search_shown(
            run,
            title,
            html,
        ),
        (StepView::CountPages(run), EventView::PagesCounted(pages)) => pages_counted(run, pages),
        (StepView::LoadKnown(run, pages), EventView::RowsLoaded(rows)) => known_loaded(
            run,
            pages,
            rows,
        ),
        (StepView::ReadPage(pages), EventView::PageRead(found)) => page_read(pages, found),
        (StepView::OpenBatches(work), EventView::BatchesOpened(ok)) => batches_opened(work, ok),
        (StepView::FetchDetail(work), EventView::DetailRead(text)) => detail_read(work, text),
        (StepView::WriteBatch(work), EventView::BatchWritten(ok)) => batch_written(work, ok),
        (StepView::AcquireLinkedIn(outcome), EventView::LinkedInSkipped) => StepView::Persist(
            outcome,
        ),
        (
            StepView::AcquireLinkedIn(outcome),
            EventView::LinkedInRead { snapshot, rows },
        ) => StepView::PersistLinkedIn(merge_of(outcome, snapshot, rows)),
        (StepView::PersistLinkedIn(merge), EventView::LinkedInPersisted(ok)) => linkedin_persisted(
            merge,
            ok,
        ),
        (StepView::PersistFallback(merge), EventView::Persisted) => StepView::AppendHistory(
            fallback_report(merge),
        ),
        (StepView::Persist(outcome), EventView::Persisted) => StepView::Reload(outcome),
        (StepView::Reload(outcome), EventView::RowsLoaded(rows)) => reloaded(outcome, rows),
        (StepView::SaveList(outcome), EventView::ListSaved) => list_saved(outcome),
        (StepView::FinishBatches(outcome), EventView::BatchesFinished) => StepView::AppendHistory(
            report_of(outcome),
        ),
        (StepView::AppendHistory(report), EventView::HistoryAppended(path)) =>
            StepView::RotateHistory(
            ReportView {
                summary: SummaryView { export_path: Some(path), ..report.summary },
                ..report
            },
        ),
        (StepView::AppendHistory(report), EventView::HistoryFailed(error)) => StepView::SendEmail(
            ReportView {
                summary: SummaryView { export_error: Some(error), ..report.summary },
                ..report
            },
        ),
        (StepView::RotateHistory(report), EventView::HistoryRotated(error)) => StepView::SendEmail(
            ReportView {
                summary: SummaryView {
                    export_error: match error {
                        Some(e) => Some(e),
                        None => report.summary.export_error,
                    },
                    ..report.summary
                },
                ..report
            },
        ),
        (StepView::SendEmail(report), EventView::EmailHandled) => email_handled(report),
        (StepView::Notify(report), EventView::Notified) => StepView::Done(report.summary),
        _ => step,
    }
}

// ---------------------------------------------------------------------------
// What holds of every step
// ---------------------------------------------------------------------------

/// No two postings of a list have the same identity.
pub open spec fn distinct(jobs: Seq<JobView>) -> bool {
    forall|i: int, j: int|
        0 <= i < j < jobs.len() ==> (#[trigger] jobs[i]).external_id != (
        #[trigger] jobs[j]).external_id
}

/// The first postings of the search are done with, under their identities.
pub open spec fn keeps_identities(current: Seq<JobView>, jobs: Seq<JobView>) -> bool {
    &&& current.len() <= jobs.len()
    &&& forall|i: int|
        0 <= i < current.len() ==> (#[trigger] current[i]).external_id == jobs[i].external_id
}

/// The run's files hold no more postings than there are, and none is overfull.
pub open spec fn writer_fits(writer: Option<WriterView>, done: nat) -> bool {
    match writer {
        Some(w) => {
            &&& 1 <= w.next_batch
            &&& w.jobs.len() <= BATCH_SIZE
            &&& BATCH_SIZE * (w.next_batch - 1) + w.jobs.len() <= done
        },
        None => true,
    }
}

/// The pages read so far: each showed postings, and no posting is listed twice.
pub open spec fn pages_wf(p: PagesView) -> bool {
    &&& p.run.wf()
    &&& counts_fit(p.known)
    &&& 1 <= p.page <= p.pages <= MAX_PAGES
    &&& distinct(p.jobs)
    &&& p.page > 1 ==> p.jobs.len() > 0
}

/// The postings of the search: there are some, none is listed twice, and the first
/// of them are done with.
pub open spec fn work_wf(w: WorkView) -> bool {
    &&& w.run.wf()
    &&& counts_fit(w.known)
    &&& w.jobs.len() > 0
    &&& distinct(w.jobs)
    &&& keeps_identities(w.current, w.jobs)
    &&& writer_fits(w.writer, w.current.len())
}

/// There is room in the next file.
pub open spec fn has_room(writer: Option<WriterView>) -> bool {
    writer is Some ==> writer->0.jobs.len() < BATCH_SIZE
}

/// The postings as they are now: there are some, and none is listed twice.
pub open spec fn outcome_wf(o: OutcomeView) -> bool {
    &&& o.run.wf()
    &&& o.current.len() > 0
    &&& distinct(o.current)
    &&& has_room(o.writer)
}

impl StepView {
    /// What the run has so far fits the step.
    pub open spec fn wf(self) -> bool {
        match self {
            StepView::OpenSearch(run) => run.wf(),
            StepView::CountPages(run) => run.wf(),
            StepView::LoadKnown(run, pages) => run.wf() && pages <= MAX_PAGES,
            StepView::ReadPage(pages) => pages_wf(pages),
            StepView::OpenBatches(work) => work_wf(work) && work.current.len() == 0 && work.writer
                is None,
            StepView::FetchDetail(work) => {
                &&& work_wf(work)
                &&& has_room(work.writer)
                &&& work.current.len() < work.jobs.len()
                &&& needs_detail(
                    prepared(
                        work.jobs[work.current.len() as int],
                        work.known,
                        work.run.generated_at,
                    ),
                    work.known,
                    work.run.mode,
                )
            },
            StepView::WriteBatch(work) => {
                &&& work_wf(work)
                &&& work.writer is Some
                &&& work.writer->0.jobs.len() == BATCH_SIZE
            },
            StepView::AcquireLinkedIn(outcome) => outcome_wf(outcome),
            StepView::PersistLinkedIn(merge) => outcome_wf(merge.before),
            StepView::PersistFallback(merge) => merge.before.run.wf(),
            StepView::Persist(outcome) => outcome_wf(outcome),
            StepView::Reload(outcome) => outcome_wf(outcome),
            StepView::SaveList(outcome) => outcome_wf(outcome),
            StepView::FinishBatches(outcome) => outcome_wf(outcome),
            _ => true,
        }
    }
}

/// The postings that are passed over keep their identities, and the next posting,
/// if there is one, has its page opened.
proof fn lemma_passed_over(run: RunFacts, known: Seq<JobView>, jobs: Seq<JobView>, at: int)
    requires
        0 <= at <= jobs.len(),
    ensures
        at + passed_over(run, known, jobs, at).len() <= jobs.len(),
        forall|i: int|
            0 <= i < passed_over(run, known, jobs, at).len() ==> (#[trigger] passed_over(
                run,
                known,
                jobs,
                at,
            )[i]).external_id == jobs[at + i].external_id,
        at + passed_over(run, known, jobs, at).len() < jobs.len() ==> needs_detail(
            prepared(
                jobs[at + passed_over(run, known, jobs, at).len()],
                known,
                run.generated_at,
            ),
            known,
            run.mode,
        ),
    decreases jobs.len() - at,
{
    if at < jobs.len() {
        let job = prepared(jobs[at], known, run.generated_at);
        if !needs_detail(job, known, run.mode) {
            lemma_passed_over(run, known, jobs, at + 1);
            let rest = passed_over(run, known, jobs, at + 1);
            let all = passed_over(run, known, jobs, at);
            assert forall|i: int| 0 <= i < all.len() implies (#[trigger] all[i]).external_id
                == jobs[at + i].external_id by {
                if i > 0 {
                    assert(all[i] == rest[i - 1]);
                }
            }
        }
    }
}

/// Postings that are done with under their identities are as distinct as those of
/// the search.
proof fn lemma_identities_stay_distinct(current: Seq<JobView>, jobs: Seq<JobView>)
    requires
        distinct(jobs),
        keeps_identities(current, jobs),
    ensures
        distinct(current),
{
    assert forall|i: int, j: int| 0 <= i < j < current.len() implies (
    #[trigger] current[i]).external_id != (#[trigger] current[j]).external_id by {
        assert(current[i].external_id == jobs[i].external_id);
        assert(current[j].external_id == jobs[j].external_id);
    }
}

/// The step behind a posting fits.
proof fn lemma_proceed(work: WorkView)
    requires
        work_wf(work),
        has_room(work.writer),
    ensures
        proceed(work).wf(),
{
    let at = work.current.len() as int;
    let more = passed_over(work.run, work.known, work.jobs, at);
    lemma_passed_over(work.run, work.known, work.jobs, at);
    let current = work.current + more;
    assert forall|i: int| 0 <= i < current.len() implies (#[trigger] current[i]).external_id
        == work.jobs[i].external_id by {
        if i < at {
            assert(current[i] == work.current[i]);
        } else {
            assert(current[i] == more[i - at]);
        }
    }
    assert(keeps_identities(current, work.jobs));
    lemma_identities_stay_distinct(current, work.jobs);
}

/// Where a page showed postings, the search has some.
proof fn lemma_pages_grow(jobs: Seq<JobView>, found: Seq<JobView>)
    requires
        found.len() > 0,
    ensures
        first_jobs(jobs + found).len() > 0,
        distinct(first_jobs(jobs + found)),
{
    let all = jobs + found;
    store::lemma_first_jobs(all);
    assert(all[0].external_id == all[0].external_id);
    assert(store::has_job(all, all[0].external_id));
    assert(store::has_job(first_jobs(all), all[0].external_id));
}

/// Tracking leaves identities as they are.
proof fn lemma_stored_tracking(jobs: Seq<JobView>, rows: Seq<JobView>)
    requires
        distinct(jobs),
    ensures
        distinct(with_stored_tracking(jobs, rows)),
        with_stored_tracking(jobs, rows).len() == jobs.len(),
{
    let out = with_stored_tracking(jobs, rows);
    assert forall|i: int, j: int| 0 <= i < j < out.len() implies (#[trigger] out[i]).external_id != (
    #[trigger] out[j]).external_id by {
        assert(out[i].external_id == jobs[i].external_id);
        assert(out[j].external_id == jobs[j].external_id);
    }
}

/// Every step of a run fits what the run has so far, whatever comes of it: no
/// posting of the search is listed twice, none is lost, no file is overfull, and a
/// posting's page is opened only where that is called for.
pub proof fn law_every_step_fits(step: StepView, event: EventView)
    requires
        step.wf(),
        event.wf(),
    ensures
        next_step(step, event).wf(),
{
    match (step, event) {
        (StepView::ReadPage(pages), EventView::PageRead(found)) => {
            if found.len() > 0 {
                lemma_pages_grow(pages.jobs, found);
            }
        },
        (StepView::OpenBatches(work), EventView::BatchesOpened(ok)) => {
            lemma_proceed(
                WorkView {
                    writer: if ok {
                        Some(new_writer(work.run.day, work.run.generated_at))
                    } else {
                        None
                    },
                    ..work
                },
            );
        },
        (StepView::FetchDetail(work), EventView::DetailRead(text)) => {
            lemma_detail_fits(work, text);
        },
        (StepView::WriteBatch(work), EventView::BatchWritten(ok)) => {
            let writer = work.writer->0;
            let next = WorkView {
                writer: if ok {
                    Some(behind_file(writer))
                } else {
                    None
                },
                ..work
            };
            assert(batch_written(work, ok) == proceed(next));
            lemma_proceed(next);
        },
        (StepView::Reload(outcome), EventView::RowsLoaded(rows)) => {
            lemma_stored_tracking(outcome.current, rows);
        },
        _ => {},
    }
}

/// The step behind a posting's page fits.
proof fn lemma_detail_fits(work: WorkView, text: Option<Seq<char>>)
    requires
        StepView::FetchDetail(work).wf(),
    ensures
        detail_read(work, text).wf(),
{
    let n = work.current.len() as int;
    let job = settled(
        prepared(work.jobs[n], work.known, work.run.generated_at),
        work.known,
        text,
    );
    let current = work.current.push(job);
    assert forall|i: int| 0 <= i < current.len() implies (#[trigger] current[i]).external_id
        == work.jobs[i].external_id by {
        if i < n {
            assert(current[i] == work.current[i]);
        }
    }
    assert(keeps_identities(current, work.jobs));
    match work.writer {
        None => {
            lemma_proceed(WorkView { current, ..work });
        },
        Some(writer) => {
            let next = WorkView {
                current,
                writer: Some(with_posting(writer, job)),
                ..work
            };
            if writer.jobs.len() + 1 < BATCH_SIZE {
                lemma_proceed(next);
            }
        },
    }
}

// ---------------------------------------------------------------------------
// Laws of whole runs
// ---------------------------------------------------------------------------

/// Where a run gets to by some events.
pub open spec fn after_events(step: StepView, events: Seq<EventView>) -> StepView
    decreases events.len(),
{
    if events.len() == 0 {
        step
    } else {
        next_step(after_events(step, events.drop_last()), events.last())
    }
}

/// A challenge, a search with too many pages and a page without postings are each
/// refused.
pub proof fn law_unbelievable_searches_are_refused(
    run: RunFacts,
    title: Seq<char>,
    html: Seq<char>,
    pages: nat,
    read: PagesView,
)
    ensures
        is_challenge(title, html) ==> next_step(
            StepView::OpenSearch(run),
            EventView::SearchShown { title, html },
        ) is Refused,
        pages > MAX_PAGES ==> next_step(
            StepView::CountPages(run),
            EventView::PagesCounted(pages),
        ) is Refused,
        next_step(StepView::ReadPage(read), EventView::PageRead(Seq::empty())) is Refused,
{
}

/// A refused run stays refused, whatever comes: nothing is kept and nothing is
/// deleted on account of a search that is not believed.
pub proof fn law_refused_runs_keep_nothing(error: SyncError, events: Seq<EventView>)
    ensures
        after_events(StepView::Refused(error), events) == StepView::Refused(error),
    decreases events.len(),
{
    if events.len() > 0 {
        law_refused_runs_keep_nothing(error, events.drop_last());
    }
}

/// Whatever comes of a run's steps, it asks for the postings of a search to be kept
/// only with postings in hand, each once: an empty search is never kept, so it
/// never deletes what is known.
pub proof fn law_no_empty_search_is_kept(run: RunFacts, events: Seq<EventView>)
    requires
        run.wf(),
        forall|i: int| 0 <= i < events.len() ==> (#[trigger] events[i]).wf(),
    ensures
        after_events(StepView::OpenSearch(run), events).wf(),
        match after_events(StepView::OpenSearch(run), events) {
            StepView::Persist(outcome) => outcome.current.len() > 0 && distinct(outcome.current),
            _ => true,
        },
    decreases events.len(),
{
    if events.len() > 0 {
        let fewer = events.drop_last();
        assert forall|i: int| 0 <= i < fewer.len() implies (#[trigger] fewer[i]).wf() by {
            assert(fewer[i] == events[i]);
        }
        law_no_empty_search_is_kept(run, fewer);
        assert(events[events.len() - 1].wf());
        law_every_step_fits(after_events(StepView::OpenSearch(run), fewer), events.last());
    }
}

/// A run whose postings are kept.
pub open spec fn is_committed(step: StepView) -> bool {
    match step {
        StepView::Reload(outcome) => true,
        StepView::SaveList(outcome) => true,
        StepView::FinishBatches(outcome) => true,
        StepView::AppendHistory(report) => true,
        StepView::RotateHistory(report) => true,
        StepView::SendEmail(report) => true,
        StepView::Notify(report) => true,
        StepView::Done(summary) => true,
        _ => false,
    }
}

/// The summary of a run whose postings are kept.
pub open spec fn committed_summary(step: StepView) -> SummaryView
    recommends
        is_committed(step),
{
    match step {
        StepView::Reload(outcome) => outcome.summary,
        StepView::SaveList(outcome) => outcome.summary,
        StepView::FinishBatches(outcome) => outcome.summary,
        StepView::AppendHistory(report) => report.summary,
        StepView::RotateHistory(report) => report.summary,
        StepView::SendEmail(report) => report.summary,
        StepView::Notify(report) => report.summary,
        StepView::Done(summary) => summary,
        _ => arbitrary(),
    }
}

/// What fails behind the keeping of a run's postings, be it the history, a mail or
/// a message, undoes nothing: the run goes on, and what it changed stays.
pub proof fn law_later_failures_undo_nothing(step: StepView, events: Seq<EventView>)
    requires
        is_committed(step),
    ensures
        is_committed(after_events(step, events)),
        summary::run_of(committed_summary(after_events(step, events))) == summary::run_of(
            committed_summary(step),
        ),
    decreases events.len(),
{
    if events.len() > 0 {
        law_later_failures_undo_nothing(step, events.drop_last());
    }
}

/// A page that could not be opened, or that gave no text, never takes the place of
/// a description known before.
pub proof fn law_descriptions_survive_failures(
    job: JobView,
    known: Seq<JobView>,
    text: Option<Seq<char>>,
)
    ensures
        text is None || text->0.len() == 0 ==> settled(job, known, text).description == (
        match known_as(known, SOURCE_104@, job.external_id) {
            Some(row) => row.description,
            None => None,
        }),
        known_as(known, SOURCE_104@, job.external_id) is Some && known_as(
            known,
            SOURCE_104@,
            job.external_id,
        )->0.description is Some ==> settled(job, known, text).description is Some,
{
}

/// A run in which every posting's page is opened opens every posting's page.
pub proof fn law_a_full_run_opens_every_page(job: JobView, known: Seq<JobView>)
    ensures
        needs_detail(job, known, JobUpdateMode::All),
        known_as(known, SOURCE_104@, job.external_id) is None ==> needs_detail(
            job,
            known,
            JobUpdateMode::Changed,
        ),
{
}

/// An event is the answer to what a step asks for.
pub open spec fn answers(step: StepView, event: EventView) -> bool {
    match step {
        StepView::OpenSearch(run) => event is SearchShown,
        StepView::CountPages(run) => event is PagesCounted,
        StepView::LoadKnown(run, pages) => event is RowsLoaded,
        StepView::ReadPage(pages) => event is PageRead,
        StepView::OpenBatches(work) => event is BatchesOpened,
        StepView::FetchDetail(work) => event is DetailRead,
        StepView::WriteBatch(work) => event is BatchWritten,
        StepView::AcquireLinkedIn(outcome) => event is LinkedInSkipped || event is LinkedInRead,
        StepView::PersistLinkedIn(merge) => event is LinkedInPersisted,
        StepView::PersistFallback(merge) => event is Persisted,
        StepView::Persist(outcome) => event is Persisted,
        StepView::Reload(outcome) => event is RowsLoaded,
        StepView::SaveList(outcome) => event is ListSaved,
        StepView::FinishBatches(outcome) => event is BatchesFinished,
        StepView::AppendHistory(report) => event is HistoryAppended || event is HistoryFailed,
        StepView::RotateHistory(report) => event is HistoryRotated,
        StepView::SendEmail(report) => event is EmailHandled,
        StepView::Notify(report) => event is Notified,
        StepView::Done(summary) => false,
        StepView::Refused(error) => false,
    }
}

/// How many kinds of steps can still come behind a step.
pub open spec fn phase(step: StepView) -> nat {
    match step {
        StepView::OpenSearch(run) => 16,
        StepView::CountPages(run) => 15,
        StepView::LoadKnown(run, pages) => 14,
        StepView::ReadPage(pages) => 13,
        StepView::OpenBatches(work) => 12,
        StepView::FetchDetail(work) => 11,
        StepView::WriteBatch(work) => 11,
        StepView::AcquireLinkedIn(outcome) => 10,
        StepView::PersistLinkedIn(merge) => 9,
        StepView::PersistFallback(merge) => 9,
        StepView::Persist(outcome) => 8,
        StepView::Reload(outcome) => 7,
        StepView::SaveList(outcome) => 6,
        StepView::FinishBatches(outcome) => 5,
        StepView::AppendHistory(report) => 4,
        StepView::RotateHistory(report) => 3,
        StepView::SendEmail(report) => 2,
        StepView::Notify(report) => 1,
        StepView::Done(summary) => 0,
        StepView::Refused(error) => 0,
    }
}

/// How much of the search is left: pages while they are read, and postings while
/// their pages are opened.
pub open spec fn left_in_phase(step: StepView) -> int {
    match step {
        StepView::ReadPage(pages) => pages.pages - pages.page,
        StepView::FetchDetail(work) => 2 * (work.jobs.len() - work.current.len()),
        StepView::WriteBatch(work) => 2 * (work.jobs.len() - work.current.len()) + 1,
        _ => 0,
    }
}

/// Every answer brings a run closer to its end, so every run ends.
pub proof fn law_every_answer_makes_progress(step: StepView, event: EventView)
    requires
        step.wf(),
        event.wf(),
        answers(step, event),
    ensures
        ({
            let next = next_step(step, event);
            &&& 0 <= left_in_phase(next)
            &&& phase(next) < phase(step) || (phase(next) == phase(step) && left_in_phase(next)
                < left_in_phase(step))
        }),
{
    law_every_step_fits(step, event);
    match step {
        StepView::FetchDetail(work) => {
            let n = work.current.len() as int;
            lemma_passed_over(work.run, work.known, work.jobs, n + 1);
        },
        StepView::WriteBatch(work) => {
            lemma_passed_over(work.run, work.known, work.jobs, work.current.len() as int);
        },
        _ => {},
    }
}

// ---------------------------------------------------------------------------
// Taking the steps
// ---------------------------------------------------------------------------

/// The step behind a look at the search.
fn on_search_shown(run: Run, title: &str, html: &str) -> (r: Step)
    ensures
        r@ == search_shown(run@, title@, html@),
{
    if listing::is_challenge_page(title, html) {
        Step::Refused(SyncError::Challenge)
    } else {
        Step::CountPages(run)
    }
}

/// The step behind the count of the search's pages.
fn on_pages_counted(run: Run, pages: u64) -> (r: Step)
    ensures
        r@ == pages_counted(run@, pages as nat),
{
    if pages > MAX_PAGES {
        Step::Refused(SyncError::UnsafePageCount(pages))
    } else {
        Step::LoadKnown(run, pages)
    }
}

/// The step behind the loading of the known postings.
fn on_known_loaded(run: Run, pages: u64, rows: Vec<JobListing>) -> (r: Step)
    ensures
        r@ == known_loaded(run@, pages as nat, job_views(rows@)),
{
    if pages == 0 {
        Step::Refused(SyncError::NoCards)
    } else {
        let jobs: Vec<JobListing> = Vec::new();
        assert(job_views(jobs@) =~= Seq::empty());
        Step::ReadPage(Pages { run, known: rows, pages, page: 1, jobs })
    }
}

/// The step behind a page of the search.
fn on_page_read(pages: Pages, found: Vec<JobListing>) -> (r: Step)
    requires
        pages_wf(pages@),
    ensures
        r@ == page_read(pages@, job_views(found@)),
{
    if found.len() == 0 {
        return Step::Refused(SyncError::EmptyPage(pages.page));
    }
    let mut all: Vec<JobListing> = pages.jobs;
    let mut more: Vec<JobListing> = found;
    let ghost before = all@;
    let ghost added = more@;
    all.append(&mut more);
    assert(job_views(all@) =~= job_views(before) + job_views(added));
    let jobs: Vec<JobListing> = store::keep_first_jobs(&all);
    if pages.page < pages.pages {
        Step::ReadPage(
            Pages {
                run: pages.run,
                known: pages.known,
                pages: pages.pages,
                page: pages.page + 1,
                jobs,
            },
        )
    } else {
        let current: Vec<JobListing> = Vec::new();
        assert(job_views(current@) =~= Seq::empty());
        Step::OpenBatches(
            Work { run: pages.run, known: pages.known, jobs, current, writer: None },
        )
    }
}

/// The step that the next posting asks for, or the end of the search.
fn on_proceed(work: Work) -> (r: Step)
    requires
        work_wf(work@),
    ensures
        r@ == proceed(work@),
{
    let ghost start = work@;
    let mut w: Work = work;
    let ghost target = start.current + passed_over(
        start.run,
        start.known,
        start.jobs,
        start.current.len() as int,
    );
    while w.current.len() < w.jobs.len()
        invariant
            start == work@,
            start.run.wf(),
            counts_fit(start.known),
            w@.run == start.run,
            w@.known == start.known,
            w@.jobs == start.jobs,
            w@.writer == start.writer,
            w@.current.len() <= w@.jobs.len(),
            target == start.current + passed_over(
                start.run,
                start.known,
                start.jobs,
                start.current.len() as int,
            ),
            target =~= w@.current + passed_over(
                start.run,
                start.known,
                start.jobs,
                w@.current.len() as int,
            ),
        decreases w.jobs@.len() - w.current@.len(),
    {
        let at: usize = w.current.len();
        assert(w@.jobs[at as int] == w.jobs@[at as int]@);
        let mut job: JobListing = w.jobs[at].clone();
        summary::track(&mut job, &w.known, SOURCE_104, w.run.generated_at.as_str());
        if is_detail_needed(&job, &w.known, w.run.mode) {
            assert(w@ =~= (WorkView { current: target, ..start }));
            return Step::FetchDetail(w);
        }
        settle(&mut job, &w.known, None);
        let ghost before = w.current@;
        let ghost said = job@;
        w.current.push(job);
        assert(job_views(w.current@) =~= job_views(before).push(said));
    }
    assert(w@.current =~= target);
    let mut summary: SyncSummary = w.run.summary();
    summary::compare(&mut summary, &w.current, &w.known, SOURCE_104, false, true);
    let linkedin: Vec<JobListing> = Vec::new();
    assert(job_views(linkedin@) =~= Seq::empty());
    Step::AcquireLinkedIn(
        Outcome { run: w.run, current: w.current, linkedin, summary, writer: w.writer },
    )
}

/// The step behind the making of the folder for the run's files.
fn on_batches_opened(work: Work, ok: bool) -> (r: Step)
    requires
        StepView::OpenBatches(work@).wf(),
    ensures
        r@ == batches_opened(work@, ok),
{
    let writer: Option<JobFileWriter> = if ok {
        Some(JobFileWriter::new(work.run.day, work.run.generated_at.as_str()))
    } else {
        None
    };
    on_proceed(
        Work {
            run: work.run,
            known: work.known,
            jobs: work.jobs,
            current: work.current,
            writer,
        },
    )
}

/// The step behind the page of the next posting.
fn on_detail_read(work: Work, text: Option<String>) -> (r: Step)
    requires
        StepView::FetchDetail(work@).wf(),
    ensures
        r@ == detail_read(work@, opt_view(text)),
{
    proof {
        lemma_detail_fits(work@, opt_view(text));
    }
    let ghost start = work@;
    let mut w: Work = work;
    let at: usize = w.current.len();
    assert(w@.jobs[at as int] == w.jobs@[at as int]@);
    let mut job: JobListing = w.jobs[at].clone();
    summary::track(&mut job, &w.known, SOURCE_104, w.run.generated_at.as_str());
    settle(&mut job, &w.known, text);
    let ghost said = job@;
    let copy: JobListing = job.clone();
    let ghost before = w.current@;
    w.current.push(job);
    assert(job_views(w.current@) =~= job_views(before).push(said));
    proof {
        assert forall|i: int| 0 <= i < w@.current.len() implies (
        #[trigger] w@.current[i]).external_id == w@.jobs[i].external_id by {
            if i < at {
                assert(w@.current[i] == start.current[i]);
            }
        }
        assert(keeps_identities(w@.current, w@.jobs));
    }
    match w.writer {
        None => on_proceed(
            Work { run: w.run, known: w.known, jobs: w.jobs, current: w.current, writer: None },
        ),
        Some(writer) => {
            let mut next: JobFileWriter = writer;
            let full: bool = next.push(copy);
            let filled: Work = Work {
                run: w.run,
                known: w.known,
                jobs: w.jobs,
                current: w.current,
                writer: Some(next),
            };
            if full {
                Step::WriteBatch(filled)
            } else {
                on_proceed(filled)
            }
        },
    }
}

/// The step behind the writing of a file.
fn on_batch_written(work: Work, ok: bool) -> (r: Step)
    requires
        StepView::WriteBatch(work@).wf(),
    ensures
        r@ == batch_written(work@, ok),
{
    let done: usize = work.current.len();
    let writer: Option<JobFileWriter> = match work.writer {
        Some(written) => if ok {
            let mut next: JobFileWriter = written;
            assert(next.next_batch() <= done);
            next.flushed();
            Some(next)
        } else {
            None
        },
        None => None,
    };
    on_proceed(
        Work {
            run: work.run,
            known: work.known,
            jobs: work.jobs,
            current: work.current,
            writer,
        },
    )
}

/// An outcome with LinkedIn's snapshot merged into it.
fn merge(before: Outcome, snapshot: SourceSnapshot, rows: &Vec<JobListing>) -> (r: Merge)
    requires
        counts_fit(job_views(rows@)),
    ensures
        r@ == merge_of(before@, snapshot@, job_views(rows@)),
{
    let mut merged: SyncSummary = before.summary.clone();
    let mut tracked_snapshot: SourceSnapshot = snapshot;
    let ids: Vec<String> = summary::merge_snapshot(&mut merged, &mut tracked_snapshot, rows);
    Merge { before, snapshot: tracked_snapshot, merged }
}

/// The step behind the keeping of LinkedIn's postings.
fn on_linkedin_persisted(merge: Merge, ok: bool) -> (r: Step)
    ensures
        r@ == linkedin_persisted(merge@, ok),
{
    let before: Outcome = merge.before;
    if ok {
        Step::Persist(
            Outcome {
                run: before.run,
                current: before.current,
                linkedin: merge.snapshot.jobs,
                summary: merge.merged,
                writer: before.writer,
            },
        )
    } else {
        Step::Persist(before)
    }
}

/// Gives postings the tracking that the table has for them.
fn track_as_stored(jobs: Vec<JobListing>, rows: &Vec<JobListing>) -> (r: Vec<JobListing>)
    ensures
        job_views(r@) == with_stored_tracking(job_views(jobs@), job_views(rows@)),
{
    let ghost all = job_views(jobs@);
    let ghost table = job_views(rows@);
    let mut out: Vec<JobListing> = Vec::new();
    let mut i: usize = 0;
    while i < jobs.len()
        invariant
            all == job_views(jobs@),
            table == job_views(rows@),
            i <= jobs@.len(),
            job_views(out@) == with_stored_tracking(all.take(i as int), table),
        decreases jobs@.len() - i,
    {
        let ghost earlier = out@;
        assert(all[i as int] == jobs@[i as int]@);
        let mut job: JobListing = jobs[i].clone();
        match find_known(rows, job.source.as_str(), job.external_id.as_str()) {
            Some(row) => change::copy_tracking(&mut job, row),
            None => {},
        }
        let ghost said = job@;
        out.push(job);
        assert(job_views(out@) =~= job_views(earlier).push(said));
        assert(with_stored_tracking(all.take(i + 1), table) =~= with_stored_tracking(
            all.take(i as int),
            table,
        ).push(said));
        i += 1;
    }
    assert(all.take(i as int) =~= all);
    out
}

/// The step behind the loading of the table as it is now.
fn on_reloaded(outcome: Outcome, rows: &Vec<JobListing>) -> (r: Step)
    ensures
        r@ == reloaded(outcome@, job_views(rows@)),
{
    Step::SaveList(
        Outcome {
            run: outcome.run,
            current: track_as_stored(outcome.current, rows),
            linkedin: track_as_stored(outcome.linkedin, rows),
            summary: outcome.summary,
            writer: outcome.writer,
        },
    )
}

/// The heading under which a run is told of when it ends.
fn choose_heading(run: &Run) -> (r: Option<String>)
    ensures
        opt_view(r) == heading_for(run@),
{
    let trigger: &str = run.trigger.as_str();
    if !run.can_notify {
        None
    } else if scan::same(trigger, "scheduled") {
        Some("每日履歷更新\n同步完成".to_owned())
    } else if scan::same(trigger, "startup") {
        Some("Job Watcher\n啟動更新完成".to_owned())
    } else if scan::same(trigger, "local-cli") || scan::same(trigger, "local-cli-all") {
        Some("Job Watcher\n更新完成".to_owned())
    } else {
        None
    }
}

/// The report of a run whose search was kept.
fn make_report(outcome: Outcome) -> (r: Report)
    ensures
        r@ == report_of(outcome@),
{
    let heading: Option<String> = choose_heading(&outcome.run);
    Report { day: outcome.run.day, summary: outcome.summary, heading }
}

/// The report of a run of which only LinkedIn's postings were kept.
fn make_fallback_report(merge: Merge) -> (r: Report)
    ensures
        r@ == fallback_report(merge@),
{
    let heading: Option<String> = if merge.before.run.can_notify {
        Some("Job Watcher\n更新完成".to_owned())
    } else {
        None
    };
    Report { day: merge.before.run.day, summary: merge.merged, heading }
}

/// The step behind the adding of a run to the history.
fn on_history_appended(report: Report, path: String) -> (r: Step)
    ensures
        r@ == StepView::RotateHistory(
            ReportView {
                summary: SummaryView { export_path: Some(path@), ..report@.summary },
                ..report@
            },
        ),
{
    let mut next: Report = report;
    next.summary.export_path = Some(path);
    Step::RotateHistory(next)
}

/// The step behind an error of the history.
fn on_history_error(report: Report, error: Option<String>) -> (r: Step)
    ensures
        r@ == StepView::SendEmail(
            ReportView {
                summary: SummaryView {
                    export_error: match opt_view(error) {
                        Some(e) => Some(e),
                        None => report@.summary.export_error,
                    },
                    ..report@.summary
                },
                ..report@
            },
        ),
{
    let mut next: Report = report;
    match error {
        Some(e) => {
            next.summary.export_error = Some(e);
        },
        None => {},
    }
    Step::SendEmail(next)
}

/// The step behind the opening of the search.
fn behind_open_search(run: Run, event: Event) -> (r: Step)
    ensures
        r@ == next_step(StepView::OpenSearch(run@), event@),
{
    match event {
        Event::SearchShown { title, html } => on_search_shown(
            run,
            title.as_str(),
            html.as_str(),
        ),
        _ => Step::OpenSearch(run),
    }
}

/// The step behind the counting of pages.
fn behind_count_pages(run: Run, event: Event) -> (r: Step)
    ensures
        r@ == next_step(StepView::CountPages(run@), event@),
{
    match event {
        Event::PagesCounted(pages) => on_pages_counted(run, pages),
        _ => Step::CountPages(run),
    }
}

/// The step behind the loading of known postings.
fn behind_load_known(run: Run, pages: u64, event: Event) -> (r: Step)
    ensures
        r@ == next_step(StepView::LoadKnown(run@, pages as nat), event@),
{
    match event {
        Event::RowsLoaded(rows) => on_known_loaded(run, pages, rows),
        _ => Step::LoadKnown(run, pages),
    }
}

/// The step behind the reading of a page.
fn behind_read_page(pages: Pages, event: Event) -> (r: Step)
    requires
        StepView::ReadPage(pages@).wf(),
        event@.wf(),
    ensures
        r@ == next_step(StepView::ReadPage(pages@), event@),
{
    match event {
        Event::PageRead(found) => on_page_read(pages, found),
        _ => Step::ReadPage(pages),
    }
}

/// The step behind the making of the files' folder.
fn behind_open_batches(work: Work, event: Event) -> (r: Step)
    requires
        StepView::OpenBatches(work@).wf(),
        event@.wf(),
    ensures
        r@ == next_step(StepView::OpenBatches(work@), event@),
{
    match event {
        Event::BatchesOpened(ok) => on_batches_opened(work, ok),
        _ => Step::OpenBatches(work),
    }
}

/// The step behind the opening of a posting's page.
fn behind_fetch_detail(work: Work, event: Event) -> (r: Step)
    requires
        StepView::FetchDetail(work@).wf(),
        event@.wf(),
    ensures
        r@ == next_step(StepView::FetchDetail(work@), event@),
{
    match event {
        Event::DetailRead(text) => on_detail_read(work, text),
        _ => Step::FetchDetail(work),
    }
}

/// The step behind the writing of a file.
fn behind_write_batch(work: Work, event: Event) -> (r: Step)
    requires
        StepView::WriteBatch(work@).wf(),
        event@.wf(),
    ensures
        r@ == next_step(StepView::WriteBatch(work@), event@),
{
    match event {
        Event::BatchWritten(ok) => on_batch_written(work, ok),
        _ => Step::WriteBatch(work),
    }
}

/// The step behind the reading of LinkedIn's alerts.
fn behind_acquire_linkedin(outcome: Outcome, event: Event) -> (r: Step)
    requires
        StepView::AcquireLinkedIn(outcome@).wf(),
        event@.wf(),
    ensures
        r@ == next_step(StepView::AcquireLinkedIn(outcome@), event@),
{
    match event {
        Event::LinkedInSkipped => Step::Persist(outcome),
        Event::LinkedInRead(read) => Step::PersistLinkedIn(
            merge(outcome, read.snapshot, &read.known),
        ),
        _ => Step::AcquireLinkedIn(outcome),
    }
}

/// The step behind the keeping of LinkedIn's postings.
fn behind_persist_linkedin(merge: Merge, event: Event) -> (r: Step)
    ensures
        r@ == next_step(StepView::PersistLinkedIn(merge@), event@),
{
    match event {
        Event::LinkedInPersisted(ok) => on_linkedin_persisted(merge, ok),
        _ => Step::PersistLinkedIn(merge),
    }
}

/// The step behind the keeping of LinkedIn's postings alone.
fn behind_persist_fallback(merge: Merge, event: Event) -> (r: Step)
    ensures
        r@ == next_step(StepView::PersistFallback(merge@), event@),
{
    match event {
        Event::Persisted => Step::AppendHistory(make_fallback_report(merge)),
        _ => Step::PersistFallback(merge),
    }
}

/// The step behind the keeping of the search's postings.
fn behind_persist(outcome: Outcome, event: Event) -> (r: Step)
    ensures
        r@ == next_step(StepView::Persist(outcome@), event@),
{
    match event {
        Event::Persisted => Step::Reload(outcome),
        _ => Step::Persist(outcome),
    }
}

/// The step behind the second loading of the table.
fn behind_reload(outcome: Outcome, event: Event) -> (r: Step)
    ensures
        r@ == next_step(StepView::Reload(outcome@), event@),
{
    match event {
        Event::RowsLoaded(rows) => on_reloaded(outcome, &rows),
        _ => Step::Reload(outcome),
    }
}

/// The step behind the saving of the list.
fn behind_save_list(outcome: Outcome, event: Event) -> (r: Step)
    ensures
        r@ == next_step(StepView::SaveList(outcome@), event@),
{
    match event {
        Event::ListSaved => if outcome.writer.is_some() {
            Step::FinishBatches(outcome)
        } else {
            Step::AppendHistory(make_report(outcome))
        },
        _ => Step::SaveList(outcome),
    }
}

/// The step behind the finishing of the run's files.
fn behind_finish_batches(outcome: Outcome, event: Event) -> (r: Step)
    ensures
        r@ == next_step(StepView::FinishBatches(outcome@), event@),
{
    match event {
        Event::BatchesFinished => Step::AppendHistory(make_report(outcome)),
        _ => Step::FinishBatches(outcome),
    }
}

/// The step behind the adding to the history.
fn behind_append_history(report: Report, event: Event) -> (r: Step)
    ensures
        r@ == next_step(StepView::AppendHistory(report@), event@),
{
    match event {
        Event::HistoryAppended(path) => on_history_appended(report, path),
        Event::HistoryFailed(error) => on_history_error(report, Some(error)),
        _ => Step::AppendHistory(report),
    }
}

/// The step behind the removal of old histories.
fn behind_rotate_history(report: Report, event: Event) -> (r: Step)
    ensures
        r@ == next_step(StepView::RotateHistory(report@), event@),
{
    match event {
        Event::HistoryRotated(error) => on_history_error(report, error),
        _ => Step::RotateHistory(report),
    }
}

/// The step behind the mail.
fn behind_send_email(report: Report, event: Event) -> (r: Step)
    ensures
        r@ == next_step(StepView::SendEmail(report@), event@),
{
    match event {
        Event::EmailHandled => if report.heading.is_some() {
            Step::Notify(report)
        } else {
            Step::Done(report.summary)
        },
        _ => Step::SendEmail(report),
    }
}

/// The step behind the message.
fn behind_notify(report: Report, event: Event) -> (r: Step)
    ensures
        r@ == next_step(StepView::Notify(report@), event@),
{
    match event {
        Event::Notified => Step::Done(report.summary),
        _ => Step::Notify(report),
    }
}

impl Step {
    /// What is to be done next, given what came of what was done. What is no
    /// answer to it changes nothing.
    pub fn next(self, event: Event) -> (r: Step)
        requires
            self@.wf(),
            event@.wf(),
        ensures
            r@ == next_step(self@, event@),
            r@.wf(),
    {
        proof {
            law_every_step_fits(self@, event@);
        }
        match self {
            Step::OpenSearch(run) => behind_open_search(run, event),
            Step::CountPages(run) => behind_count_pages(run, event),
            Step::LoadKnown(run, pages) => behind_load_known(run, pages, event),
            Step::ReadPage(pages) => behind_read_page(pages, event),
            Step::OpenBatches(work) => behind_open_batches(work, event),
            Step::FetchDetail(work) => behind_fetch_detail(work, event),
            Step::WriteBatch(work) => behind_write_batch(work, event),
            Step::AcquireLinkedIn(outcome) => behind_acquire_linkedin(outcome, event),
            Step::PersistLinkedIn(merge) => behind_persist_linkedin(merge, event),
            Step::PersistFallback(merge) => behind_persist_fallback(merge, event),
            Step::Persist(outcome) => behind_persist(outcome, event),
            Step::Reload(outcome) => behind_reload(outcome, event),
            Step::SaveList(outcome) => behind_save_list(outcome, event),
            Step::FinishBatches(outcome) => behind_finish_batches(outcome, event),
            Step::AppendHistory(report) => behind_append_history(report, event),
            Step::RotateHistory(report) => behind_rotate_history(report, event),
            Step::SendEmail(report) => behind_send_email(report, event),
            Step::Notify(report) => behind_notify(report, event),
            Step::Done(summary) => Step::Done(summary),
            Step::Refused(error) => Step::Refused(error),
        }
    }
}

// ---------------------------------------------------------------------------
// What the steps ask for
// ---------------------------------------------------------------------------

/// A page of the search that is to be read.
#[derive(Debug, PartialEq, Eq)]
pub struct SearchPage {
    pub page: u64,
    pub url: String,
    /// The page is to be opened first; the first one is open already.
    pub open: bool,
}

impl Pages {
    /// The page of the search that is to be read.
    pub fn request(&self) -> (r: SearchPage)
        ensures
            r.page == self.page,
            r.url@ == listing::page_address(self.page as nat),
            r.open == (self.page > 1),
    {
        SearchPage { page: self.page, url: listing::page_url(self.page), open: self.page > 1 }
    }
}

impl Work {
    /// The posting whose page is to be opened.
    pub fn next_job(&self) -> (r: Option<&JobListing>)
        ensures
            opt_job_view(r) == (if self@.current.len() < self@.jobs.len() {
                Some(self@.jobs[self@.current.len() as int])
            } else {
                None
            }),
    {
        let at: usize = self.current.len();
        if at < self.jobs.len() {
            assert(self@.jobs[at as int] == self.jobs@[at as int]@);
            Some(&self.jobs[at])
        } else {
            None
        }
    }
}

impl Merge {
    /// The statements that keep LinkedIn's postings.
    pub fn statements(&self) -> (r: Vec<Statement>)
        ensures
            statement_views(r@) == statements_of(
                run_changes(
                    self@.snapshot.source,
                    self@.snapshot.jobs,
                    job_ids(self@.snapshot.jobs),
                    self@.snapshot.allow_deletions,
                    self@.before.run.generated_at,
                ),
            ),
    {
        let ids: Vec<String> = summary::collect_ids(&self.snapshot.jobs);
        store::persist_state(
            self.snapshot.source.as_str(),
            &self.snapshot.jobs,
            &ids,
            self.snapshot.allow_deletions,
            self.before.run.generated_at.as_str(),
        )
    }
}

impl Outcome {
    /// The statements that keep the postings of the search, and delete those that
    /// it does not have.
    pub fn statements(&self) -> (r: Vec<Statement>)
        ensures
            statement_views(r@) == statements_of(
                run_changes(
                    SOURCE_104@,
                    self@.current,
                    job_ids(self@.current),
                    true,
                    self@.run.generated_at,
                ),
            ),
    {
        let ids: Vec<String> = summary::collect_ids(&self.current);
        store::persist_state(
            SOURCE_104,
            &self.current,
            &ids,
            true,
            self.run.generated_at.as_str(),
        )
    }

    /// The list of postings: those of the search, and behind them those of
    /// LinkedIn's alerts.
    pub fn job_list(&self) -> (r: Vec<JobListing>)
        ensures
            job_views(r@) == self@.current + self@.linkedin,
    {
        let mut all: Vec<JobListing> = copy_jobs(&self.current);
        let mut more: Vec<JobListing> = copy_jobs(&self.linkedin);
        let ghost before = all@;
        let ghost added = more@;
        all.append(&mut more);
        assert(job_views(all@) =~= job_views(before) + job_views(added));
        all
    }
}

impl Report {
    /// What is told of the run through LINE, if anything is.
    pub fn notice(&self) -> (r: Option<String>)
        ensures
            opt_view(r) == (match self@.heading {
                Some(heading) => Some(digest(self@.summary, heading)),
                None => None,
            }),
    {
        match &self.heading {
            Some(heading) => Some(report::summary_digest(&self.summary, heading.as_str())),
            None => None,
        }
    }
}

/// What a run has where its search failed.
pub open spec fn without_search(run: RunFacts) -> OutcomeView {
    OutcomeView {
        run,
        current: Seq::empty(),
        linkedin: Seq::empty(),
        summary: run.summary(),
        writer: None,
    }
}

/// How a run whose search failed goes on.
#[derive(Clone, Copy, Debug, PartialEq, Eq, Structural)]
pub enum Fallback {
    /// With what LinkedIn's alerts tell.
    LinkedInOnly,
    /// Not at all: it fails, with the search's error.
    SearchError,
}

/// How a run whose search failed goes on, given whether LinkedIn's alerts are
/// switched on and were read. Whatever went wrong with them is not the run's error.
pub fn after_search_failed(enabled: bool, acquired: bool) -> (r: Fallback)
    ensures
        r == (if enabled && acquired {
            Fallback::LinkedInOnly
        } else {
            Fallback::SearchError
        }),
{
    if enabled && acquired {
        Fallback::LinkedInOnly
    } else {
        Fallback::SearchError
    }
}

/// The step with which a run goes on where its search failed and LinkedIn's alerts
/// were read.
pub fn synchronize_linkedin_only(run: Run, read: Acquired) -> (r: Step)
    requires
        run@.wf(),
        counts_fit(job_views(read.known@)),
    ensures
        r@ == StepView::PersistFallback(
            merge_of(without_search(run@), read.snapshot@, job_views(read.known@)),
        ),
        r@.wf(),
{
    let current: Vec<JobListing> = Vec::new();
    let linkedin: Vec<JobListing> = Vec::new();
    assert(job_views(current@) =~= Seq::empty());
    assert(job_views(linkedin@) =~= Seq::empty());
    let summary: SyncSummary = run.summary();
    let before: Outcome = Outcome { run, current, linkedin, summary, writer: None };
    Step::PersistFallback(merge(before, read.snapshot, &read.known))
}

/// Behind a run that is kept, the table has, of the source 104, the postings of the
/// search and no others, and of every other source what it had before.
pub proof fn law_the_table_holds_the_search(table: store::Table, outcome: OutcomeView, id: Seq<char>)
    ensures
        ({
            let after = store::after_run(
                table,
                SOURCE_104@,
                outcome.current,
                job_ids(outcome.current),
                true,
                outcome.run.generated_at,
            );
            &&& store::row_of(after, (SOURCE_104@, id)) is Some <==> store::has_job(
                outcome.current,
                id,
            )
            &&& forall|source: Seq<char>|
                source != SOURCE_104@ ==> #[trigger] store::row_of(after, (source, id))
                    == store::row_of(table, (source, id))
        }),
{
    let jobs = outcome.current;
    let ids = job_ids(jobs);
    let at = outcome.run.generated_at;
    store::law_deletion_is_exact(table, SOURCE_104@, jobs, ids, at, id);
    store::lemma_first_jobs(jobs);
    summary::lemma_ids(jobs, id);
    assert forall|source: Seq<char>| source != SOURCE_104@ implies #[trigger] store::row_of(
        store::after_run(table, SOURCE_104@, jobs, ids, true, at),
        (source, id),
    ) == store::row_of(table, (source, id)) by {
        store::law_other_sources_are_untouched(
            table,
            SOURCE_104@,
            jobs,
            ids,
            true,
            at,
            (source, id),
        );
    }
}

/// The summary of a search calls deleted exactly what the table loses by the run,
/// where the postings known to the search are the table's rows.
pub proof fn law_the_summary_tells_what_is_lost(table: store::Table, work: WorkView, id: Seq<char>)
    requires
        store::row_of(table, (SOURCE_104@, id)) is Some <==> known_as(
            work.known,
            SOURCE_104@,
            id,
        ) is Some,
    ensures
        ({
            let outcome = outcome_of(work);
            let after = store::after_run(
                table,
                SOURCE_104@,
                outcome.current,
                job_ids(outcome.current),
                true,
                outcome.run.generated_at,
            );
            named(outcome.summary.deleted, id) <==> store::row_of(table, (SOURCE_104@, id)) is Some
                && store::row_of(after, (SOURCE_104@, id)) is None
        }),
{
    let outcome = outcome_of(work);
    let ids = job_ids(outcome.current);
    let at = work.run.summary().generated_at;
    law_the_table_holds_the_search(table, outcome, id);
    store::lemma_first_jobs(outcome.current);
    summary::lemma_ids(outcome.current, id);
    summary::law_missing_postings_are_deleted(work.known, SOURCE_104@, ids, at, id);
    assert(outcome.summary.deleted =~= summary::deleted_records(work.known, SOURCE_104@, ids, at));
}

/// A run that keeps what LinkedIn's alerts led to deletes nothing: every posting
/// that had a row has one behind the run, whatever the alerts lack.
pub proof fn law_linkedin_deletes_nothing(
    table: store::Table,
    before: OutcomeView,
    jobs: Seq<JobView>,
    message_ids: Seq<Seq<char>>,
    rows: Seq<JobView>,
    key: (Seq<char>, Seq<char>),
)
    requires
        store::row_of(table, key) is Some,
    ensures
        ({
            let merge = merge_of(before, acquired(jobs, message_ids), rows);
            &&& store::row_of(
                store::after_run(
                    table,
                    merge.snapshot.source,
                    merge.snapshot.jobs,
                    job_ids(merge.snapshot.jobs),
                    merge.snapshot.allow_deletions,
                    before.run.generated_at,
                ),
                key,
            ) is Some
            &&& merge.merged.deleted == before.summary.deleted
        }),
{
    let merge = merge_of(before, acquired(jobs, message_ids), rows);
    store::law_nothing_is_lost_without_leave(
        table,
        merge.snapshot.source,
        merge.snapshot.jobs,
        job_ids(merge.snapshot.jobs),
        before.run.generated_at,
        key,
    );
}

/// The records that a merge adds to a list.
pub open spec fn added_records(before: Seq<RecordView>, after: Seq<RecordView>) -> Seq<RecordView> {
    after.skip(before.len() as int)
}

/// Every posting that LinkedIn's alerts led to is told of, behind what was told
/// before: as new where it was not known, and as updated where it was, though
/// nothing about it changed.
pub proof fn law_known_alerts_are_updates(
    before: OutcomeView,
    jobs: Seq<JobView>,
    message_ids: Seq<Seq<char>>,
    rows: Seq<JobView>,
    id: Seq<char>,
)
    ensures
        ({
            let merged = merge_of(before, acquired(jobs, message_ids), rows).merged;
            let new = added_records(before.summary.new, merged.new);
            let updated = added_records(before.summary.updated, merged.updated);
            let row = known_as(rows, acquisition::SOURCE@, id);
            &&& merged.new == before.summary.new + new
            &&& merged.updated == before.summary.updated + updated
            &&& named(new, id) <==> store::has_job(jobs, id) && row is None
            &&& named(updated, id) <==> store::has_job(jobs, id) && row is Some
            &&& new.len() + updated.len() == jobs.len()
        }),
{
    let merge = merge_of(before, acquired(jobs, message_ids), rows);
    let seen = merge.snapshot.jobs;
    let source = acquisition::SOURCE@;
    let new = added_records(before.summary.new, merge.merged.new);
    let updated = added_records(before.summary.updated, merge.merged.updated);
    assert(new =~= summary::new_records(seen, rows, source));
    assert(updated =~= summary::updated_records(seen, rows, source, true));
    assert(merge.merged.new =~= before.summary.new + new);
    assert(merge.merged.updated =~= before.summary.updated + updated);
    summary::law_each_posting_is_recorded(seen, rows, source);
    summary::law_new_postings_are_unknown(seen, rows, source, id);
    summary::law_known_postings_are_updated(seen, rows, source, id);
    if store::has_job(seen, id) {
        let i = choose|i: int| 0 <= i < seen.len() && (#[trigger] seen[i]).external_id == id;
        assert(jobs[i].external_id == id);
    }
    if store::has_job(jobs, id) {
        let i = choose|i: int| 0 <= i < jobs.len() && (#[trigger] jobs[i]).external_id == id;
        assert(seen[i].external_id == id);
    }
}

/// What came of the reading of LinkedIn's alerts in a run, with all postings of the
/// table known to it.
pub open spec fn alerts_read(
    alerts: Seq<AlertView>,
    rows: Seq<JobView>,
    replies: Seq<(PageReply, Timestamp)>,
    message_ids: Seq<Seq<char>>,
) -> EventView {
    EventView::LinkedInRead {
        snapshot: acquired(read_after(reading(), alerts, rows, replies), message_ids),
        rows,
    }
}

/// An alert whose posting the table has is not asked for in a run: no page is
/// requested for it. The posting that the run keeps for it is its row, but that the
/// run is one more sighting of it.
pub proof fn law_stored_alerts_are_not_asked_for(
    outcome: OutcomeView,
    alerts: Seq<AlertView>,
    rows: Seq<JobView>,
    replies: Seq<(PageReply, Timestamp)>,
    message_ids: Seq<Seq<char>>,
    i: int,
)
    requires
        were_asked_for(reading(), alerts, rows, replies),
        0 <= i < alerts.len(),
        known_as(rows, acquisition::SOURCE@, alerts[i].id) is Some,
    ensures
        forall|k: int|
            0 <= k < asked_for(reading(), alerts, rows, replies).len() ==> (#[trigger] asked_for(
                reading(),
                alerts,
                rows,
                replies,
            )[k]).id != alerts[i].id,
        ({
            let jobs = read_after(reading(), alerts, rows, replies);
            let row = known_as(rows, acquisition::SOURCE@, alerts[i].id)->0;
            let step = next_step(
                StepView::AcquireLinkedIn(outcome),
                alerts_read(alerts, rows, replies, message_ids),
            );
            let merge = merge_of(outcome, acquired(jobs, message_ids), rows);
            let run_at = outcome.summary.generated_at;
            &&& step == StepView::PersistLinkedIn(merge)
            &&& i < jobs.len() ==> jobs[i] == row && merge.snapshot.jobs[i] == (JobView {
                first_seen_at: match row.first_seen_at {
                    Some(t) => Some(t),
                    None => Some(run_at),
                },
                last_seen_at: Some(run_at),
                seen_count: if row.seen_count > 1 {
                    row.seen_count + 1
                } else {
                    2
                },
                ..row
            })
            &&& replies.len() == acquisition::unknown_alerts(
                alerts,
                rows,
                alerts.len() as int,
            ).len() ==> jobs.len() == alerts.len()
        }),
{
    let jobs = read_after(reading(), alerts, rows, replies);
    let asked = asked_for(reading(), alerts, rows, replies);
    acquisition::law_each_alert_is_read_once(reading(), alerts, rows, replies);
    acquisition::lemma_unknown_alerts(alerts, rows, jobs.len() as int);
    acquisition::lemma_known_as(rows, acquisition::SOURCE@, alerts[i].id);
    if i < jobs.len() {
        assert(jobs[i] == acquisition::posting_read(reading(), alerts, rows, replies, i));
        let merge = merge_of(outcome, acquired(jobs, message_ids), rows);
        assert(merge.snapshot.jobs[i] == change::seen_in_run(
            jobs[i],
            known_as(rows, acquisition::SOURCE@, jobs[i].external_id),
            outcome.summary.generated_at,
        ));
    }
}

/// Tracking leaves the first posting with an identity in its place.
proof fn lemma_first_seen(
    jobs: Seq<JobView>,
    rows: Seq<JobView>,
    source: Seq<char>,
    run_at: Seq<char>,
    id: Seq<char>,
)
    ensures
        store::first_with(all_seen(jobs, rows, source, run_at), id) == (match store::first_with(
            jobs,
            id,
        ) {
            Some(job) => Some(
                change::seen_in_run(job, known_as(rows, source, job.external_id), run_at),
            ),
            None => None,
        }),
    decreases jobs.len(),
{
    if jobs.len() > 0 {
        lemma_first_seen(jobs.drop_last(), rows, source, run_at, id);
        assert(all_seen(jobs, rows, source, run_at).drop_last() =~= all_seen(
            jobs.drop_last(),
            rows,
            source,
            run_at,
        ));
    }
}

/// Behind a run, the row of an alert whose posting the table had is as it was, but
/// that the run is one more sighting of it. The page of no other alert may have
/// named the posting as its own before.
pub proof fn law_stored_alerts_keep_their_rows(
    table: store::Table,
    outcome: OutcomeView,
    alerts: Seq<AlertView>,
    rows: Seq<JobView>,
    replies: Seq<(PageReply, Timestamp)>,
    message_ids: Seq<Seq<char>>,
    i: int,
)
    requires
        were_asked_for(reading(), alerts, rows, replies),
        0 <= i < alerts.len(),
        i < read_after(reading(), alerts, rows, replies).len(),
        known_as(rows, acquisition::SOURCE@, alerts[i].id) is Some,
        store::row_of(table, (acquisition::SOURCE@, alerts[i].id)) == known_as(
            rows,
            acquisition::SOURCE@,
            alerts[i].id,
        ),
        store::first_with(read_after(reading(), alerts, rows, replies), alerts[i].id) == Some(
            read_after(reading(), alerts, rows, replies)[i],
        ),
    ensures
        ({
            let jobs = read_after(reading(), alerts, rows, replies);
            let merge = merge_of(outcome, acquired(jobs, message_ids), rows);
            let row = known_as(rows, acquisition::SOURCE@, alerts[i].id)->0;
            let run_at = outcome.run.generated_at;
            store::row_of(
                store::after_run(
                    table,
                    merge.snapshot.source,
                    merge.snapshot.jobs,
                    job_ids(merge.snapshot.jobs),
                    merge.snapshot.allow_deletions,
                    run_at,
                ),
                (acquisition::SOURCE@, alerts[i].id),
            ) == Some(
                JobView {
                    first_seen_at: match row.first_seen_at {
                        Some(t) => Some(t),
                        None => Some(run_at),
                    },
                    last_seen_at: Some(run_at),
                    seen_count: row.seen_count + 1,
                    ..row
                },
            )
        }),
{
    let jobs = read_after(reading(), alerts, rows, replies);
    let merge = merge_of(outcome, acquired(jobs, message_ids), rows);
    let id = alerts[i].id;
    let source = acquisition::SOURCE@;
    law_stored_alerts_are_not_asked_for(outcome, alerts, rows, replies, message_ids, i);
    acquisition::lemma_known_as(rows, source, id);
    lemma_first_seen(jobs, rows, source, outcome.summary.generated_at, id);
    store::lemma_first_with(merge.snapshot.jobs, id);
    store::law_a_run_is_one_sighting(
        table,
        source,
        merge.snapshot.jobs,
        job_ids(merge.snapshot.jobs),
        false,
        outcome.run.generated_at,
        id,
    );
}

// ---------------------------------------------------------------------------
// Laws of single steps
// ---------------------------------------------------------------------------

/// A posting whose page was opened and gave a text has exactly that text as its
/// description, whatever was known before; one whose page gave none has the
/// description known before, if there is one. Nothing else about the entry changes.
pub proof fn law_opened_pages_refresh_descriptions(
    job: JobView,
    known: Seq<JobView>,
    text: Option<Seq<char>>,
)
    ensures
        ({
            let out = settled(job, known, text);
            let row = known_as(known, SOURCE_104@, job.external_id);
            &&& text is Some && text->0.len() > 0 ==> out.description == text
            &&& (text is None || text->0.len() == 0) && row is Some ==> out.description
                == row->0.description
            &&& (text is None || text->0.len() == 0) && row is None ==> out.description is None
            &&& out.source == job.source && out.external_id == job.external_id
            &&& out.title == job.title && out.company == job.company
            &&& out.location == job.location && out.salary == job.salary
            &&& out.url == job.url && out.published_at == job.published_at
            &&& out.platform_updated_at == job.platform_updated_at
            &&& out.fetch_state == job.fetch_state
            &&& out.first_seen_at == job.first_seen_at && out.last_seen_at == job.last_seen_at
            &&& out.seen_count == job.seen_count
        }),
{
}

/// A posting whose page gave another description than is known is told of as updated,
/// with its new description, the description among the fields that changed.
pub proof fn law_a_refreshed_description_is_told(
    job: JobView,
    known: Seq<JobView>,
    text: Seq<char>,
    run_at: Seq<char>,
)
    requires
        known_as(known, SOURCE_104@, job.external_id) is Some,
        text.len() > 0,
        change::normalized(
            known_as(known, SOURCE_104@, job.external_id)->0.description,
        ) != change::normalized(Some(text)),
    ensures
        ({
            let out = settled(prepared(job, known, run_at), known, Some(text));
            let updated = summary::updated_records(seq![out], known, SOURCE_104@, false);
            &&& updated.len() == 1
            &&& updated[0].external_id == job.external_id
            &&& updated[0].description == Some(text)
            &&& updated[0].changed_fields.contains("description"@)
        }),
{
    let out = settled(prepared(job, known, run_at), known, Some(text));
    let row = known_as(known, SOURCE_104@, job.external_id)->0;
    change::law_each_difference_is_named(row, out);
    summary::law_one_posting_makes_one_record(out, known, SOURCE_104@, false);
}

/// An entry of the search is seen in the run: it says what it said, and its tracking
/// goes on from what is known of it.
pub proof fn law_entries_are_seen_in_the_run(job: JobView, known: Seq<JobView>, run_at: Seq<char>)
    ensures
        ({
            let out = prepared(job, known, run_at);
            let row = known_as(known, SOURCE_104@, job.external_id);
            &&& out.source == job.source && out.external_id == job.external_id
            &&& out.title == job.title && out.company == job.company
            &&& out.location == job.location && out.salary == job.salary
            &&& out.description == job.description && out.url == job.url
            &&& out.published_at == job.published_at
            &&& out.platform_updated_at == job.platform_updated_at
            &&& out.fetch_state == job.fetch_state
            &&& out.last_seen_at == Some(run_at)
            &&& row is None ==> out.first_seen_at == Some(run_at) && out.seen_count == 1
            &&& row is Some && row->0.first_seen_at is Some ==> out.first_seen_at
                == row->0.first_seen_at
            &&& row is Some && row->0.seen_count >= 1 ==> out.seen_count == row->0.seen_count + 1
        }),
{
}

/// A posting's page is opened exactly if the posting is not known, or all pages are to
/// be opened, or its entry says something else than is known; what is known of its
/// description does not matter.
pub proof fn law_pages_that_call_for_it_are_opened(
    job: JobView,
    known: Seq<JobView>,
    mode: JobUpdateMode,
)
    ensures
        ({
            let row = known_as(known, SOURCE_104@, job.external_id);
            &&& row is None ==> needs_detail(job, known, mode)
            &&& mode == JobUpdateMode::All ==> needs_detail(job, known, mode)
            &&& row is Some && mode == JobUpdateMode::Changed ==> (needs_detail(job, known, mode)
                <==> {
                ||| row->0.title != job.title
                ||| row->0.company != job.company
                ||| change::normalized(row->0.location) != change::normalized(job.location)
                ||| change::normalized(row->0.salary) != change::normalized(job.salary)
                ||| row->0.url != job.url
                ||| row->0.published_at != job.published_at
                ||| row->0.platform_updated_at != job.platform_updated_at
                ||| row->0.fetch_state != job.fetch_state
            })
        }),
{
    let row = known_as(known, SOURCE_104@, job.external_id);
    if row is Some {
        change::law_the_description_is_no_part_of_the_entry(row->0, job);
    }
}

/// A search is refused exactly where it is not to be believed, and for that reason; any
/// other goes on with all its pages.
pub proof fn law_believable_searches_go_on(
    run: RunFacts,
    title: Seq<char>,
    html: Seq<char>,
    pages: nat,
    rows: Seq<JobView>,
)
    requires
        pages <= u64::MAX,
    ensures
        ({
            let shown = next_step(
                StepView::OpenSearch(run),
                EventView::SearchShown { title, html },
            );
            let counted = next_step(StepView::CountPages(run), EventView::PagesCounted(pages));
            let loaded = next_step(StepView::LoadKnown(run, pages), EventView::RowsLoaded(rows));
            &&& is_challenge(title, html) ==> shown == StepView::Refused(SyncError::Challenge)
            &&& !is_challenge(title, html) ==> shown == StepView::CountPages(run)
            &&& pages > 150 ==> counted == StepView::Refused(
                SyncError::UnsafePageCount(pages as u64),
            )
            &&& pages <= 150 ==> counted == StepView::LoadKnown(run, pages)
            &&& pages == 0 ==> loaded == StepView::Refused(SyncError::NoCards)
            &&& pages > 0 ==> loaded is ReadPage && loaded->ReadPage_0.run == run
                && loaded->ReadPage_0.known == rows && loaded->ReadPage_0.pages == pages
                && loaded->ReadPage_0.page == 1 && loaded->ReadPage_0.jobs.len() == 0
        }),
{
}

/// The pages of a search are read one behind the other, from the first to the last: a
/// page without postings ends the run, and the postings of all others are taken along.
pub proof fn law_pages_are_read_to_the_last(pages: PagesView, found: Seq<JobView>)
    requires
        pages.page <= u64::MAX,
    ensures
        ({
            let next = next_step(StepView::ReadPage(pages), EventView::PageRead(found));
            &&& found.len() == 0 ==> next == StepView::Refused(
                SyncError::EmptyPage(pages.page as u64),
            )
            &&& found.len() > 0 && pages.page < pages.pages ==> next is ReadPage
                && next->ReadPage_0.page == pages.page + 1 && next->ReadPage_0.pages == pages.pages
                && next->ReadPage_0.run == pages.run && next->ReadPage_0.known == pages.known
                && next->ReadPage_0.jobs == first_jobs(pages.jobs + found)
            &&& found.len() > 0 && pages.page >= pages.pages ==> next is OpenBatches
                && next->OpenBatches_0.run == pages.run && next->OpenBatches_0.known == pages.known
                && next->OpenBatches_0.jobs == first_jobs(pages.jobs + found)
                && next->OpenBatches_0.current.len() == 0
        }),
{
}

/// The writer that a step has in hand.
pub open spec fn writer_in_hand(step: StepView) -> Option<WriterView> {
    match step {
        StepView::FetchDetail(work) => work.writer,
        StepView::WriteBatch(work) => work.writer,
        StepView::AcquireLinkedIn(outcome) => outcome.writer,
        _ => None,
    }
}

/// Files are written from where their folder could be made, and until one could not be
/// written: then no more are, and the run goes on without.
pub proof fn law_files_are_written_while_they_can_be(work: WorkView, ok: bool)
    requires
        work.writer is Some,
    ensures
        ({
            let opened = next_step(StepView::OpenBatches(work), EventView::BatchesOpened(ok));
            let written = next_step(StepView::WriteBatch(work), EventView::BatchWritten(ok));
            &&& ok ==> writer_in_hand(opened) == Some(
                new_writer(work.run.day, work.run.generated_at),
            )
            &&& !ok ==> writer_in_hand(opened) is None
            &&& ok ==> writer_in_hand(written) is Some && writer_in_hand(written)->0.jobs.len() == 0
                && writer_in_hand(written)->0.next_batch == work.writer->0.next_batch + 1
                && writer_in_hand(written)->0.stamp == work.writer->0.stamp
                && writer_in_hand(written)->0.folder == work.writer->0.folder
            &&& !ok ==> writer_in_hand(written) is None
            &&& opened is FetchDetail || opened is AcquireLinkedIn
            &&& written is FetchDetail || written is AcquireLinkedIn
        }),
{
}

/// LinkedIn's postings join what is kept only once they were kept themselves; where
/// they were skipped or could not be kept, the search is kept as it was.
pub proof fn law_linkedin_joins_once_it_is_kept(outcome: OutcomeView, merge: MergeView, ok: bool)
    ensures
        next_step(StepView::AcquireLinkedIn(outcome), EventView::LinkedInSkipped)
            == StepView::Persist(outcome),
        ({
            let next = next_step(
                StepView::PersistLinkedIn(merge),
                EventView::LinkedInPersisted(ok),
            );
            &&& !ok ==> next == StepView::Persist(merge.before)
            &&& ok ==> next is Persist && next->Persist_0.current == merge.before.current
                && next->Persist_0.run == merge.before.run && next->Persist_0.writer
                == merge.before.writer && next->Persist_0.summary == merge.merged
                && next->Persist_0.linkedin == merge.snapshot.jobs
        }),
{
}

/// A merge keeps the postings of the snapshot, each seen in the run, and leaves what the
/// run had as it was.
pub proof fn law_a_merge_sees_every_posting(
    before: OutcomeView,
    snapshot: SnapshotView,
    rows: Seq<JobView>,
    i: int,
)
    requires
        0 <= i < snapshot.jobs.len(),
    ensures
        ({
            let merge = merge_of(before, snapshot, rows);
            let job = snapshot.jobs[i];
            let seen = merge.snapshot.jobs[i];
            let row = known_as(rows, snapshot.source, job.external_id);
            &&& merge.before == before
            &&& merge.snapshot.source == snapshot.source
            &&& merge.snapshot.processed_message_ids == snapshot.processed_message_ids
            &&& merge.snapshot.allow_deletions == snapshot.allow_deletions
            &&& merge.snapshot.jobs.len() == snapshot.jobs.len()
            &&& seen.external_id == job.external_id && seen.title == job.title
            &&& seen.description == job.description && seen.fetch_state == job.fetch_state
            &&& seen.last_seen_at == Some(before.summary.generated_at)
            &&& row is None ==> seen.first_seen_at == Some(before.summary.generated_at)
                && seen.seen_count == 1
            &&& row is Some && row->0.first_seen_at is Some ==> seen.first_seen_at
                == row->0.first_seen_at
            &&& row is Some && row->0.seen_count >= 1 ==> seen.seen_count == row->0.seen_count + 1
            &&& merge.merged == with_snapshot(before.summary, snapshot, rows)
        }),
{
}

/// What is kept is read back: the postings that go to the list carry the tracking that
/// the table has for them, and say what they said.
pub proof fn law_the_list_carries_stored_tracking(outcome: OutcomeView, rows: Seq<JobView>, i: int)
    requires
        0 <= i < outcome.current.len(),
    ensures
        next_step(StepView::Persist(outcome), EventView::Persisted) == StepView::Reload(outcome),
        ({
            let next = next_step(StepView::Reload(outcome), EventView::RowsLoaded(rows));
            let job = outcome.current[i];
            let row = known_as(rows, job.source, job.external_id);
            let out = next->SaveList_0.current[i];
            &&& next is SaveList
            &&& next->SaveList_0.current.len() == outcome.current.len()
            &&& next->SaveList_0.linkedin.len() == outcome.linkedin.len()
            &&& next->SaveList_0.summary == outcome.summary
            &&& next->SaveList_0.writer == outcome.writer
            &&& next->SaveList_0.run == outcome.run
            &&& row is None ==> out == job
            &&& row is Some ==> out.first_seen_at == row->0.first_seen_at && out.last_seen_at
                == row->0.last_seen_at && out.seen_count == row->0.seen_count && out.title
                == job.title && out.description == job.description && out.external_id
                == job.external_id && out.source == job.source && out.url == job.url && out.company
                == job.company
        }),
        forall|k: int|
            0 <= k < outcome.linkedin.len() ==> #[trigger] with_stored_tracking(
                outcome.linkedin,
                rows,
            )[k] == (match known_as(
                rows,
                outcome.linkedin[k].source,
                outcome.linkedin[k].external_id,
            ) {
                Some(row) => with_tracking_of(outcome.linkedin[k], row),
                None => outcome.linkedin[k],
            }),
{
}

/// Once the list is saved, what is left of the files is written, if there are any, and
/// the run is added to the history with the summary as it is.
pub proof fn law_the_history_comes_behind_the_list(outcome: OutcomeView)
    ensures
        ({
            let saved = next_step(StepView::SaveList(outcome), EventView::ListSaved);
            let finished = next_step(
                StepView::FinishBatches(outcome),
                EventView::BatchesFinished,
            );
            &&& outcome.writer is Some ==> saved == StepView::FinishBatches(outcome)
            &&& outcome.writer is None ==> saved == finished
            &&& finished is AppendHistory
            &&& finished->AppendHistory_0.day == outcome.run.day
            &&& finished->AppendHistory_0.summary == outcome.summary
            &&& finished->AppendHistory_0.heading == heading_for(outcome.run)
        }),
{
}

/// A run is told of through LINE where that is possible and it was not asked for there:
/// the daily run, the one at the start and the one-shot runs each under a heading of
/// their own, any other under none. A run of LinkedIn alone is told of in any case.
pub proof fn law_runs_are_told_of_by_trigger(run: RunFacts, merge: MergeView)
    ensures
        !run.can_notify ==> heading_for(run) is None,
        run.can_notify && run.trigger == "scheduled"@ ==> heading_for(run) == Some(
            "每日履歷更新\n同步完成"@,
        ),
        run.can_notify && run.trigger == "startup"@ ==> heading_for(run) == Some(
            "Job Watcher\n啟動更新完成"@,
        ),
        run.can_notify && (run.trigger == "local-cli"@ || run.trigger == "local-cli-all"@)
            ==> heading_for(run) == Some("Job Watcher\n更新完成"@),
        run.trigger == "manual"@ ==> heading_for(run) is None,
        ({
            let next = next_step(StepView::PersistFallback(merge), EventView::Persisted);
            &&& next is AppendHistory
            &&& next->AppendHistory_0.day == merge.before.run.day
            &&& next->AppendHistory_0.summary == merge.merged
            &&& merge.before.run.can_notify ==> next->AppendHistory_0.heading == Some(
                "Job Watcher\n更新完成"@,
            )
            &&& !merge.before.run.can_notify ==> next->AppendHistory_0.heading is None
        }),
{
    reveal_strlit("scheduled");
    reveal_strlit("startup");
    reveal_strlit("local-cli");
    reveal_strlit("local-cli-all");
    reveal_strlit("manual");
    assert("scheduled"@.len() == 9 && "startup"@.len() == 7 && "local-cli"@.len() == 9);
    assert("local-cli-all"@.len() == 13 && "manual"@.len() == 6);
    assert("scheduled"@[0] != "local-cli"@[0]);
}

/// Behind the keeping of a run comes its history, then the removal of old histories,
/// then the mail, then the message. What went wrong with the history is noted in the
/// summary; the rest of the summary stays as it is, and is what the run gives.
pub proof fn law_the_summary_notes_what_went_wrong(
    report: ReportView,
    path: Seq<char>,
    error: Seq<char>,
    rotated: Option<Seq<char>>,
)
    ensures
        ({
            let appended = next_step(
                StepView::AppendHistory(report),
                EventView::HistoryAppended(path),
            );
            let failed = next_step(
                StepView::AppendHistory(report),
                EventView::HistoryFailed(error),
            );
            let cleared = next_step(
                StepView::RotateHistory(report),
                EventView::HistoryRotated(rotated),
            );
            let mailed = next_step(StepView::SendEmail(report), EventView::EmailHandled);
            let told = next_step(StepView::Notify(report), EventView::Notified);
            &&& appended is RotateHistory
            &&& appended->RotateHistory_0.summary.export_path == Some(path)
            &&& appended->RotateHistory_0.summary.export_error == report.summary.export_error
            &&& appended->RotateHistory_0.heading == report.heading
            &&& appended->RotateHistory_0.day == report.day
            &&& summary::run_of(appended->RotateHistory_0.summary) == summary::run_of(
                report.summary,
            )
            &&& failed is SendEmail
            &&& failed->SendEmail_0.summary.export_error == Some(error)
            &&& failed->SendEmail_0.summary.export_path == report.summary.export_path
            &&& failed->SendEmail_0.heading == report.heading
            &&& summary::run_of(failed->SendEmail_0.summary) == summary::run_of(report.summary)
            &&& cleared is SendEmail
            &&& rotated is Some ==> cleared->SendEmail_0.summary.export_error == rotated
            &&& rotated is None ==> cleared->SendEmail_0.summary == report.summary
            &&& cleared->SendEmail_0.summary.export_path == report.summary.export_path
            &&& cleared->SendEmail_0.heading == report.heading
            &&& report.heading is Some ==> mailed == StepView::Notify(report)
            &&& report.heading is None ==> mailed == StepView::Done(report.summary)
            &&& told == StepView::Done(report.summary)
        }),
{
}

/// A run's errors and its first facts: what is said of a search that is not believed,
/// and the summary that a run starts with.
pub proof fn law_errors_are_put_into_words(pages: u64, run: RunFacts)
    ensures
        SyncError::Challenge.text()
            == "104 returned a Cloudflare challenge; refusing to persist an empty result"@,
        SyncError::NoCards.text()
            == "104 returned no job cards; refusing to replace the saved job list"@,
        SyncError::UnsafePageCount(pages).text() == "104 reported an unsafe page count: "@
            + decimal(pages as nat),
        SyncError::EmptyPage(pages).text() == "104 page "@ + decimal(pages as nat)
            + " returned no cards; refusing an incomplete result set"@,
        run.summary().generated_at == run.generated_at,
        run.summary().date == hyphened_date(run.day),
        run.summary().trigger == run.trigger,
        !run.summary().has_changes(),
        without_search(run).current.len() == 0,
        without_search(run).linkedin.len() == 0,
        without_search(run).summary == run.summary(),
        without_search(run).writer is None,
        without_search(run).run == run,
{
}

/// The outcome of a search has the postings that are done with, and tells of them
/// against what is known: nothing is deleted that the search shows, and everything that
/// it does not show.
pub proof fn law_an_outcome_tells_of_the_search(work: WorkView)
    ensures
        ({
            let outcome = outcome_of(work);
            &&& outcome.run == work.run
            &&& outcome.current == work.current
            &&& outcome.linkedin.len() == 0
            &&& outcome.writer == work.writer
            &&& outcome.summary.generated_at == work.run.generated_at
            &&& outcome.summary.trigger == work.run.trigger
            &&& outcome.summary.new == summary::new_records(
                work.current,
                work.known,
                SOURCE_104@,
            )
            &&& outcome.summary.updated == summary::updated_records(
                work.current,
                work.known,
                SOURCE_104@,
                false,
            )
            &&& outcome.summary.deleted == summary::deleted_records(
                work.known,
                SOURCE_104@,
                job_ids(work.current),
                work.run.generated_at,
            )
        }),
{
    let outcome = outcome_of(work);
    assert(outcome.summary.new =~= summary::new_records(work.current, work.known, SOURCE_104@));
    assert(outcome.summary.updated =~= summary::updated_records(
        work.current,
        work.known,
        SOURCE_104@,
        false,
    ));
    assert(outcome.summary.deleted =~= summary::deleted_records(
        work.known,
        SOURCE_104@,
        job_ids(work.current),
        work.run.generated_at,
    ));
}

} // verus!
