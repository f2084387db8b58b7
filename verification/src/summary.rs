//! What a run changed: its summary, and the history of a day's runs.

use vstd::prelude::*;
use vstd::string::*;
use crate::change;
use crate::change::{copy_records, differing_fields, record_of, record_views, seen_in_run, ChangeRecord, RecordView};
use crate::job::{copy_option, job_views, opt_job_view, JobListing, JobView};
use crate::scan;
use crate::source::acquisition::{find_known, known_as};
use crate::source::SourceSnapshot;
use crate::store::{first_jobs, has_job};
use crate::text::{is_among, opt_view, views};

verus! {

broadcast use vstd::string::group_string_axioms;

// ---------------------------------------------------------------------------
// Summary and history
// ---------------------------------------------------------------------------

/// What a run changed, and what became of its export.
#[derive(Debug)]
pub struct SyncSummary {
    pub generated_at: String,
    pub date: String,
    pub trigger: String,
    pub new: Vec<ChangeRecord>,
    pub updated: Vec<ChangeRecord>,
    pub deleted: Vec<ChangeRecord>,
    pub export_path: Option<String>,
    pub export_error: Option<String>,
}

/// What a summary says.
#[verifier::ext_equal]
pub struct SummaryView {
    pub generated_at: Seq<char>,
    pub date: Seq<char>,
    pub trigger: Seq<char>,
    pub new: Seq<RecordView>,
    pub updated: Seq<RecordView>,
    pub deleted: Seq<RecordView>,
    pub export_path: Option<Seq<char>>,
    pub export_error: Option<Seq<char>>,
}

impl View for SyncSummary {
    type V = SummaryView;

    open spec fn view(&self) -> SummaryView {
        SummaryView {
            generated_at: self.generated_at@,
            date: self.date@,
            trigger: self.trigger@,
            new: record_views(self.new@),
            updated: record_views(self.updated@),
            deleted: record_views(self.deleted@),
            export_path: opt_view(self.export_path),
            export_error: opt_view(self.export_error),
        }
    }
}

/// The summary of a run that changed nothing yet.
pub open spec fn empty_summary(
    generated_at: Seq<char>,
    date: Seq<char>,
    trigger: Seq<char>,
) -> SummaryView {
    SummaryView {
        generated_at,
        date,
        trigger,
        new: Seq::empty(),
        updated: Seq::empty(),
        deleted: Seq::empty(),
        export_path: None,
        export_error: None,
    }
}

impl Clone for SyncSummary {
    fn clone(&self) -> (r: Self)
        ensures
            r@ == self@,
    {
        SyncSummary {
            generated_at: self.generated_at.clone(),
            date: self.date.clone(),
            trigger: self.trigger.clone(),
            new: copy_records(&self.new),
            updated: copy_records(&self.updated),
            deleted: copy_records(&self.deleted),
            export_path: copy_option(&self.export_path),
            export_error: copy_option(&self.export_error),
        }
    }
}

impl Default for SyncSummary {
    fn default() -> (r: Self)
        ensures
            r@ == empty_summary(Seq::empty(), Seq::empty(), Seq::empty()),
    {
        let r: SyncSummary = SyncSummary {
            generated_at: String::new(),
            date: String::new(),
            trigger: String::new(),
            new: Vec::new(),
            updated: Vec::new(),
            deleted: Vec::new(),
            export_path: None,
            export_error: None,
        };
        assert(r@ =~= empty_summary(Seq::empty(), Seq::empty(), Seq::empty()));
        r
    }
}

impl SummaryView {
    /// The run changed something.
    pub open spec fn has_changes(self) -> bool {
        self.new.len() > 0 || self.updated.len() > 0 || self.deleted.len() > 0
    }
}

impl SyncSummary {
    /// The summary of a run that changed nothing yet.
    pub fn started(generated_at: &str, date: &str, trigger: &str) -> (r: SyncSummary)
        ensures
            r@ == empty_summary(generated_at@, date@, trigger@),
    {
        let r: SyncSummary = SyncSummary {
            generated_at: generated_at.to_owned(),
            date: date.to_owned(),
            trigger: trigger.to_owned(),
            new: Vec::new(),
            updated: Vec::new(),
            deleted: Vec::new(),
            export_path: None,
            export_error: None,
        };
        assert(r@ =~= empty_summary(generated_at@, date@, trigger@));
        r
    }

    /// Whether the run changed something.
    pub fn has_changes(&self) -> (r: bool)
        ensures
            r == self@.has_changes(),
    {
        self.new.len() > 0 || self.updated.len() > 0 || self.deleted.len() > 0
    }
}

/// A run in the history of a day.
#[derive(Debug)]
pub struct HistoryRun {
    pub generated_at: String,
    pub trigger: String,
    pub new: Vec<ChangeRecord>,
    pub updated: Vec<ChangeRecord>,
    pub deleted: Vec<ChangeRecord>,
}

/// What a run in the history says.
#[verifier::ext_equal]
pub struct RunView {
    pub generated_at: Seq<char>,
    pub trigger: Seq<char>,
    pub new: Seq<RecordView>,
    pub updated: Seq<RecordView>,
    pub deleted: Seq<RecordView>,
}

impl View for HistoryRun {
    type V = RunView;

    open spec fn view(&self) -> RunView {
        RunView {
            generated_at: self.generated_at@,
            trigger: self.trigger@,
            new: record_views(self.new@),
            updated: record_views(self.updated@),
            deleted: record_views(self.deleted@),
        }
    }
}

impl Clone for HistoryRun {
    fn clone(&self) -> (r: Self)
        ensures
            r@ == self@,
    {
        HistoryRun {
            generated_at: self.generated_at.clone(),
            trigger: self.trigger.clone(),
            new: copy_records(&self.new),
            updated: copy_records(&self.updated),
            deleted: copy_records(&self.deleted),
        }
    }
}

/// What each run of a list says.
pub open spec fn run_views(runs: Seq<HistoryRun>) -> Seq<RunView> {
    runs.map_values(|r: HistoryRun| r@)
}

/// The runs of a day.
#[derive(Debug)]
pub struct ChangeHistory {
    pub date: String,
    pub runs: Vec<HistoryRun>,
}

/// What the history of a day says.
#[verifier::ext_equal]
pub struct HistoryView {
    pub date: Seq<char>,
    pub runs: Seq<RunView>,
}

impl View for ChangeHistory {
    type V = HistoryView;

    open spec fn view(&self) -> HistoryView {
        HistoryView { date: self.date@, runs: run_views(self.runs@) }
    }
}

impl Clone for ChangeHistory {
    fn clone(&self) -> (r: Self)
        ensures
            r@ == self@,
    {
        let ghost all = run_views(self.runs@);
        let mut runs: Vec<HistoryRun> = Vec::new();
        let mut i: usize = 0;
        while i < self.runs.len()
            invariant
                all == run_views(self.runs@),
                i <= self.runs@.len(),
                run_views(runs@) == all.take(i as int),
            decreases self.runs@.len() - i,
        {
            let ghost earlier = runs@;
            let copy: HistoryRun = self.runs[i].clone();
            let ghost said = copy@;
            runs.push(copy);
            assert(run_views(runs@) =~= run_views(earlier).push(said));
            assert(all.take(i + 1) =~= all.take(i as int).push(said));
            i += 1;
        }
        assert(all.take(i as int) =~= all);
        ChangeHistory { date: self.date.clone(), runs }
    }
}

impl Default for ChangeHistory {
    fn default() -> (r: Self)
        ensures
            r@ == (HistoryView { date: Seq::empty(), runs: Seq::empty() }),
    {
        let r: ChangeHistory = ChangeHistory { date: String::new(), runs: Vec::new() };
        assert(r@ =~= (HistoryView { date: Seq::empty(), runs: Seq::empty() }));
        r
    }
}

/// The run that a summary tells of.
pub open spec fn run_of(summary: SummaryView) -> RunView {
    RunView {
        generated_at: summary.generated_at,
        trigger: summary.trigger,
        new: summary.new,
        updated: summary.updated,
        deleted: summary.deleted,
    }
}

/// The history of a day with one run more; a day without a history gets one.
pub open spec fn with_run(history: Option<HistoryView>, summary: SummaryView) -> HistoryView {
    let earlier = match history {
        Some(h) => h,
        None => HistoryView { date: summary.date, runs: Seq::empty() },
    };
    HistoryView { runs: earlier.runs.push(run_of(summary)), ..earlier }
}

/// What an optional history says.
pub open spec fn opt_history_view(history: Option<ChangeHistory>) -> Option<HistoryView> {
    match history {
        Some(h) => Some(h@),
        None => None,
    }
}

/// Adds a run to the history of a day. Earlier runs stay as they are.
pub fn append_history(history: Option<ChangeHistory>, summary: &SyncSummary) -> (r: ChangeHistory)
    ensures
        r@ == with_run(opt_history_view(history), summary@),
{
    let mut all: ChangeHistory = match history {
        Some(h) => h,
        None => ChangeHistory { date: summary.date.clone(), runs: Vec::new() },
    };
    let ghost earlier = all@.runs;
    let ghost runs = all.runs@;
    assert(history is None ==> earlier =~= Seq::empty());
    let run: HistoryRun = HistoryRun {
        generated_at: summary.generated_at.clone(),
        trigger: summary.trigger.clone(),
        new: copy_records(&summary.new),
        updated: copy_records(&summary.updated),
        deleted: copy_records(&summary.deleted),
    };
    let ghost said = run@;
    all.runs.push(run);
    assert(run_views(all.runs@) =~= run_views(runs).push(said));
    all
}

/// A run that is added comes last, and every earlier run stays where it was.
pub proof fn law_earlier_runs_stay(history: HistoryView, summary: SummaryView)
    ensures
        with_run(Some(history), summary).date == history.date,
        with_run(Some(history), summary).runs.len() == history.runs.len() + 1,
        with_run(Some(history), summary).runs.last() == run_of(summary),
        forall|i: int|
            0 <= i < history.runs.len() ==> with_run(Some(history), summary).runs[i]
                == #[trigger] history.runs[i],
{
}

// ---------------------------------------------------------------------------
// Comparison
// ---------------------------------------------------------------------------

/// The records of the postings that were not known.
pub open spec fn new_records(jobs: Seq<JobView>, known: Seq<JobView>, source: Seq<char>) -> Seq<
    RecordView,
>
    decreases jobs.len(),
{
    if jobs.len() == 0 {
        Seq::empty()
    } else {
        let earlier = new_records(jobs.drop_last(), known, source);
        match known_as(known, source, jobs.last().external_id) {
            Some(row) => earlier,
            None => earlier.push(record_of("new"@, jobs.last(), Seq::empty(), None)),
        }
    }
}

/// The records of the known postings that differ from what is known of them, or,
/// with `all`, of all known postings.
pub open spec fn updated_records(
    jobs: Seq<JobView>,
    known: Seq<JobView>,
    source: Seq<char>,
    all: bool,
) -> Seq<RecordView>
    decreases jobs.len(),
{
    if jobs.len() == 0 {
        Seq::empty()
    } else {
        let earlier = updated_records(jobs.drop_last(), known, source, all);
        match known_as(known, source, jobs.last().external_id) {
            Some(row) => if all || differing_fields(row, jobs.last()).len() > 0 {
                earlier.push(
                    record_of("updated"@, jobs.last(), differing_fields(row, jobs.last()), None),
                )
            } else {
                earlier
            },
            None => earlier,
        }
    }
}

/// The records of the known postings of a source that are not among `ids`.
pub open spec fn deleted_records(
    known: Seq<JobView>,
    source: Seq<char>,
    ids: Seq<Seq<char>>,
    at: Seq<char>,
) -> Seq<RecordView>
    decreases known.len(),
{
    if known.len() == 0 {
        Seq::empty()
    } else {
        let earlier = deleted_records(known.drop_last(), source, ids, at);
        if known.last().source == source && !is_among(ids, known.last().external_id) {
            earlier.push(record_of("deleted"@, known.last(), Seq::empty(), Some(at)))
        } else {
            earlier
        }
    }
}

/// The identities of some postings, each once.
pub open spec fn job_ids(jobs: Seq<JobView>) -> Seq<Seq<char>> {
    first_jobs(jobs).map_values(|j: JobView| j.external_id)
}

/// A summary with the records of a comparison added.
pub open spec fn with_comparison(
    summary: SummaryView,
    jobs: Seq<JobView>,
    known: Seq<JobView>,
    source: Seq<char>,
    all: bool,
    deletions: bool,
) -> SummaryView {
    SummaryView {
        new: summary.new + new_records(jobs, known, source),
        updated: summary.updated + updated_records(jobs, known, source, all),
        deleted: if deletions {
            summary.deleted + deleted_records(known, source, job_ids(jobs), summary.generated_at)
        } else {
            summary.deleted
        },
        ..summary
    }
}

/// The identities of some postings, each once.
pub fn collect_ids(jobs: &Vec<JobListing>) -> (r: Vec<String>)
    ensures
        views(r@) == job_ids(job_views(jobs@)),
{
    let ghost all = job_views(jobs@);
    let mut out: Vec<String> = Vec::new();
    let mut i: usize = 0;
    assert(views(out@) =~= job_ids(all.take(0)));
    while i < jobs.len()
        invariant
            all == job_views(jobs@),
            i <= jobs@.len(),
            views(out@) == job_ids(all.take(i as int)),
        decreases jobs@.len() - i,
    {
        let ghost earlier = out@;
        let ghost kept = first_jobs(all.take(i as int));
        assert(all.take(i + 1).drop_last() =~= all.take(i as int));
        assert(all[i as int] == jobs@[i as int]@);
        proof {
            lemma_ids(all.take(i as int), all[i as int].external_id);
        }
        if !scan::is_listed(&out, jobs[i].external_id.as_str()) {
            out.push(jobs[i].external_id.clone());
            assert(views(out@) =~= views(earlier).push(all[i as int].external_id));
            assert(job_ids(all.take(i + 1)) =~= job_ids(all.take(i as int)).push(
                all[i as int].external_id,
            ));
        }
        i += 1;
    }
    assert(all.take(i as int) =~= all);
    out
}

/// An identity is among those of some postings exactly if one of the first for
/// each identity has it.
pub proof fn lemma_ids(jobs: Seq<JobView>, id: Seq<char>)
    ensures
        is_among(job_ids(jobs), id) <==> has_job(first_jobs(jobs), id),
{
    let first = first_jobs(jobs);
    if has_job(first, id) {
        let i = choose|i: int| 0 <= i < first.len() && (#[trigger] first[i]).external_id == id;
        assert(job_ids(jobs)[i] == id);
    }
    if is_among(job_ids(jobs), id) {
        let i = choose|i: int| 0 <= i < job_ids(jobs).len() && job_ids(jobs)[i] == id;
        assert(first[i].external_id == id);
    }
}

/// A summary with the record of one posting added, given its row.
pub open spec fn with_job(
    summary: SummaryView,
    job: JobView,
    row: Option<JobView>,
    all: bool,
) -> SummaryView {
    match row {
        None => SummaryView {
            new: summary.new.push(record_of("new"@, job, Seq::empty(), None)),
            ..summary
        },
        Some(known) => if all || differing_fields(known, job).len() > 0 {
            SummaryView {
                updated: summary.updated.push(
                    record_of("updated"@, job, differing_fields(known, job), None),
                ),
                ..summary
            }
        } else {
            summary
        },
    }
}

/// Adds the record of one posting to a summary, given its row.
fn record_job(summary: &mut SyncSummary, job: &JobListing, row: Option<&JobListing>, all: bool)
    ensures
        final(summary)@ == with_job(old(summary)@, job@, opt_job_view(row), all),
{
    let ghost new_before = summary.new@;
    let ghost updated_before = summary.updated@;
    match row {
        Some(known) => {
            let fields: Vec<String> = change::changed_fields(known, job);
            if all || fields.len() > 0 {
                let record: ChangeRecord = change::change_record("updated", job, fields, None);
                let ghost said = record@;
                summary.updated.push(record);
                assert(record_views(summary.updated@) =~= record_views(updated_before).push(said));
            }
        },
        None => {
            let none: Vec<String> = Vec::new();
            assert(views(none@) =~= Seq::<Seq<char>>::empty());
            let record: ChangeRecord = change::change_record("new", job, none, None);
            let ghost said = record@;
            summary.new.push(record);
            assert(record_views(summary.new@) =~= record_views(new_before).push(said));
        },
    }
}

/// One posting more in a comparison is one record more, or none.
proof fn lemma_with_job(
    summary: SummaryView,
    jobs: Seq<JobView>,
    known: Seq<JobView>,
    source: Seq<char>,
    all: bool,
    i: int,
)
    requires
        0 <= i < jobs.len(),
    ensures
        with_comparison(summary, jobs.take(i + 1), known, source, all, false) == with_job(
            with_comparison(summary, jobs.take(i), known, source, all, false),
            jobs[i],
            known_as(known, source, jobs[i].external_id),
            all,
        ),
{
    assert(jobs.take(i + 1).drop_last() =~= jobs.take(i));
    let before = with_comparison(summary, jobs.take(i), known, source, all, false);
    let after = with_comparison(summary, jobs.take(i + 1), known, source, all, false);
    let row = known_as(known, source, jobs[i].external_id);
    assert(after.new =~= with_job(before, jobs[i], row, all).new);
    assert(after.updated =~= with_job(before, jobs[i], row, all).updated);
}

/// Adds the records of a comparison of postings with what is known to a summary.
pub fn compare(
    summary: &mut SyncSummary,
    jobs: &Vec<JobListing>,
    known: &Vec<JobListing>,
    source: &str,
    all: bool,
    deletions: bool,
)
    ensures
        final(summary)@ == with_comparison(
            old(summary)@,
            job_views(jobs@),
            job_views(known@),
            source@,
            all,
            deletions,
        ),
{
    let ghost before = summary@;
    let ghost js = job_views(jobs@);
    let ghost ks = job_views(known@);
    let mut i: usize = 0;
    proof {
        let start = with_comparison(before, js.take(0), ks, source@, all, false);
        assert(start.new =~= before.new);
        assert(start.updated =~= before.updated);
    }
    while i < jobs.len()
        invariant
            js == job_views(jobs@),
            ks == job_views(known@),
            i <= jobs@.len(),
            summary@ == with_comparison(before, js.take(i as int), ks, source@, all, false),
        decreases jobs@.len() - i,
    {
        proof {
            lemma_with_job(before, js, ks, source@, all, i as int);
            assert(js[i as int] == jobs@[i as int]@);
        }
        let row: Option<&JobListing> = find_known(known, source, jobs[i].external_id.as_str());
        record_job(summary, &jobs[i], row, all);
        i += 1;
    }
    assert(js.take(i as int) =~= js);
    if deletions {
        let ids: Vec<String> = collect_ids(jobs);
        record_deletions(summary, known, source, &ids);
    }
}

/// Adds the records of the known postings of a source that are not among `ids`
/// to a summary.
fn record_deletions(
    summary: &mut SyncSummary,
    known: &Vec<JobListing>,
    source: &str,
    ids: &Vec<String>,
)
    ensures
        final(summary)@ == (SummaryView {
            deleted: old(summary)@.deleted + deleted_records(
                job_views(known@),
                source@,
                views(ids@),
                old(summary)@.generated_at,
            ),
            ..old(summary)@
        }),
{
    let ghost before = summary@;
    let ghost ks = job_views(known@);
    let ghost names = views(ids@);
    let mut i: usize = 0;
    assert(before.deleted + deleted_records(ks.take(0), source@, names, before.generated_at)
        =~= before.deleted);
    while i < known.len()
        invariant
            ks == job_views(known@),
            names == views(ids@),
            i <= known@.len(),
            summary@ == (SummaryView {
                deleted: before.deleted + deleted_records(
                    ks.take(i as int),
                    source@,
                    names,
                    before.generated_at,
                ),
                ..before
            }),
        decreases known@.len() - i,
    {
        let ghost deleted_before = summary.deleted@;
        assert(ks.take(i + 1).drop_last() =~= ks.take(i as int));
        assert(ks[i as int] == known@[i as int]@);
        if scan::same(known[i].source.as_str(), source) && !scan::is_listed(
            ids,
            known[i].external_id.as_str(),
        ) {
            let none: Vec<String> = Vec::new();
            assert(views(none@) =~= Seq::<Seq<char>>::empty());
            let record: ChangeRecord = change::change_record(
                "deleted",
                &known[i],
                none,
                Some(summary.generated_at.clone()),
            );
            let ghost said = record@;
            summary.deleted.push(record);
            assert(record_views(summary.deleted@) =~= record_views(deleted_before).push(said));
            assert(summary@.deleted =~= before.deleted + deleted_records(
                ks.take(i + 1),
                source@,
                names,
                before.generated_at,
            ));
        }
        i += 1;
    }
    assert(ks.take(i as int) =~= ks);
}

// ---------------------------------------------------------------------------
// Snapshots
// ---------------------------------------------------------------------------

/// Each sighting of a row can still be counted.
pub open spec fn counts_fit(rows: Seq<JobView>) -> bool {
    forall|i: int| 0 <= i < rows.len() ==> (#[trigger] rows[i]).seen_count < i64::MAX
}

/// Whether each sighting of a row can still be counted.
pub fn sightings_fit(rows: &Vec<JobListing>) -> (r: bool)
    ensures
        r == counts_fit(job_views(rows@)),
{
    let ghost all = job_views(rows@);
    let mut i: usize = 0;
    while i < rows.len()
        invariant
            all == job_views(rows@),
            i <= rows@.len(),
            forall|j: int| 0 <= j < i ==> (#[trigger] all[j]).seen_count < i64::MAX,
        decreases rows@.len() - i,
    {
        assert(all[i as int] == rows@[i as int]@);
        if rows[i].seen_count >= i64::MAX {
            return false;
        }
        i += 1;
    }
    true
}

/// The postings of a source as a run sees them, given what is known.
pub open spec fn all_seen(
    jobs: Seq<JobView>,
    known: Seq<JobView>,
    source: Seq<char>,
    run_at: Seq<char>,
) -> Seq<JobView> {
    jobs.map_values(
        |j: JobView| seen_in_run(j, known_as(known, source, j.external_id), run_at),
    )
}

/// Gives a posting the tracking of a run, given what is known.
pub fn track(job: &mut JobListing, known: &Vec<JobListing>, source: &str, run_at: &str)
    requires
        counts_fit(job_views(known@)),
    ensures
        final(job)@ == seen_in_run(
            old(job)@,
            known_as(job_views(known@), source@, old(job)@.external_id),
            run_at@,
        ),
{
    let row: Option<&JobListing> = find_known(known, source, job.external_id.as_str());
    proof {
        crate::source::acquisition::lemma_known_as(
            job_views(known@),
            source@,
            job@.external_id,
        );
    }
    change::apply_run_tracking(job, row, run_at);
}

/// The summary of a run with a snapshot merged into it: the postings that were
/// not known are new, all others are updated, and those that are missing are
/// deleted where the snapshot allows it.
pub open spec fn with_snapshot(
    summary: SummaryView,
    snapshot: crate::source::SnapshotView,
    known: Seq<JobView>,
) -> SummaryView {
    with_comparison(
        summary,
        all_seen(snapshot.jobs, known, snapshot.source, summary.generated_at),
        known,
        snapshot.source,
        true,
        snapshot.allow_deletions,
    )
}

/// Merges a snapshot into the summary of a run: its postings get their tracking,
/// and the records of the comparison are added. Returns the identities of its
/// postings, each once.
pub fn merge_snapshot(
    summary: &mut SyncSummary,
    snapshot: &mut SourceSnapshot,
    known: &Vec<JobListing>,
) -> (r: Vec<String>)
    requires
        counts_fit(job_views(known@)),
    ensures
        final(summary)@ == with_snapshot(old(summary)@, old(snapshot)@, job_views(known@)),
        final(snapshot)@ == (crate::source::SnapshotView {
            jobs: all_seen(
                old(snapshot)@.jobs,
                job_views(known@),
                old(snapshot)@.source,
                old(summary)@.generated_at,
            ),
            ..old(snapshot)@
        }),
        views(r@) == job_ids(final(snapshot)@.jobs),
{
    let ghost before = snapshot@;
    let ghost ks = job_views(known@);
    let ghost run_at = summary@.generated_at;
    let mut jobs: Vec<JobListing> = Vec::new();
    let mut i: usize = 0;
    while i < snapshot.jobs.len()
        invariant
            counts_fit(job_views(known@)),
            before == snapshot@,
            ks == job_views(known@),
            run_at == summary@.generated_at,
            *summary == *old(summary),
            i <= snapshot.jobs@.len(),
            job_views(jobs@) == all_seen(before.jobs.take(i as int), ks, before.source, run_at),
        decreases snapshot.jobs@.len() - i,
    {
        let ghost earlier = jobs@;
        assert(before.jobs[i as int] == snapshot.jobs@[i as int]@);
        let mut job: JobListing = snapshot.jobs[i].clone();
        track(&mut job, known, snapshot.source.as_str(), summary.generated_at.as_str());
        let ghost said = job@;
        jobs.push(job);
        assert(job_views(jobs@) =~= job_views(earlier).push(said));
        assert(all_seen(before.jobs.take(i + 1), ks, before.source, run_at) =~= all_seen(
            before.jobs.take(i as int),
            ks,
            before.source,
            run_at,
        ).push(said));
        i += 1;
    }
    assert(before.jobs.take(i as int) =~= before.jobs);
    snapshot.jobs = jobs;
    compare(
        summary,
        &snapshot.jobs,
        known,
        snapshot.source.as_str(),
        true,
        snapshot.allow_deletions,
    );
    collect_ids(&snapshot.jobs)
}

// ---------------------------------------------------------------------------
// Laws of comparison
// ---------------------------------------------------------------------------

/// A snapshot that allows no deletions deletes nothing from a summary, whatever
/// is known and whatever the snapshot lacks.
pub proof fn law_additive_snapshots_delete_nothing(
    summary: SummaryView,
    snapshot: crate::source::SnapshotView,
    known: Seq<JobView>,
)
    requires
        !snapshot.allow_deletions,
    ensures
        with_snapshot(summary, snapshot, known).deleted == summary.deleted,
{
}

/// Every posting is either new or known: a comparison that takes in all known
/// postings makes one record for each posting.
pub proof fn law_each_posting_is_recorded(
    jobs: Seq<JobView>,
    known: Seq<JobView>,
    source: Seq<char>,
)
    ensures
        new_records(jobs, known, source).len() + updated_records(jobs, known, source, true).len()
            == jobs.len(),
        updated_records(jobs, known, source, false).len() <= updated_records(
            jobs,
            known,
            source,
            true,
        ).len(),
    decreases jobs.len(),
{
    if jobs.len() > 0 {
        law_each_posting_is_recorded(jobs.drop_last(), known, source);
    }
}

/// Postings that are known as they are leave no record.
pub proof fn law_unchanged_postings_leave_no_record(
    jobs: Seq<JobView>,
    known: Seq<JobView>,
    source: Seq<char>,
)
    requires
        forall|i: int|
            0 <= i < jobs.len() ==> {
                let row = known_as(known, source, (#[trigger] jobs[i]).external_id);
                row is Some && differing_fields(row->0, jobs[i]).len() == 0
            },
    ensures
        new_records(jobs, known, source).len() == 0,
        updated_records(jobs, known, source, false).len() == 0,
    decreases jobs.len(),
{
    if jobs.len() > 0 {
        let fewer = jobs.drop_last();
        assert forall|i: int| 0 <= i < fewer.len() implies {
            let row = known_as(known, source, (#[trigger] fewer[i]).external_id);
            row is Some && differing_fields(row->0, fewer[i]).len() == 0
        } by {
            assert(fewer[i] == jobs[i]);
        }
        law_unchanged_postings_leave_no_record(fewer, known, source);
        assert(jobs[jobs.len() - 1] == jobs.last());
    }
}

/// What a comparison calls deleted is a known posting of the source that is not
/// among those named.
pub proof fn law_deleted_postings_are_missing(
    known: Seq<JobView>,
    source: Seq<char>,
    ids: Seq<Seq<char>>,
    at: Seq<char>,
)
    ensures
        forall|i: int|
            0 <= i < deleted_records(known, source, ids, at).len() ==> {
                let record = #[trigger] deleted_records(known, source, ids, at)[i];
                record.source == source && !is_among(ids, record.external_id) && record.deleted_at
                    == Some(at)
            },
    decreases known.len(),
{
    if known.len() > 0 {
        law_deleted_postings_are_missing(known.drop_last(), source, ids, at);
    }
}

/// A record of a list is about an identity.
pub open spec fn named(records: Seq<RecordView>, id: Seq<char>) -> bool {
    exists|k: int| 0 <= k < records.len() && (#[trigger] records[k]).external_id == id
}

/// One more record names what it is about, beside what the others name.
proof fn lemma_named_push(records: Seq<RecordView>, record: RecordView, id: Seq<char>)
    ensures
        named(records.push(record), id) <==> named(records, id) || record.external_id == id,
{
    let more = records.push(record);
    if named(records, id) {
        let k = choose|k: int| 0 <= k < records.len() && (#[trigger] records[k]).external_id == id;
        assert(more[k].external_id == id);
    }
    if record.external_id == id {
        assert(more[records.len() as int].external_id == id);
    }
    if named(more, id) {
        let k = choose|k: int| 0 <= k < more.len() && (#[trigger] more[k]).external_id == id;
        if k < records.len() {
            assert(records[k].external_id == id);
        }
    }
}

/// One more posting has its identity, beside those of the others.
proof fn lemma_has_job_last(jobs: Seq<JobView>, id: Seq<char>)
    requires
        jobs.len() > 0,
    ensures
        has_job(jobs, id) <==> has_job(jobs.drop_last(), id) || jobs.last().external_id == id,
{
    let fewer = jobs.drop_last();
    if has_job(fewer, id) {
        let i = choose|i: int| 0 <= i < fewer.len() && (#[trigger] fewer[i]).external_id == id;
        assert(jobs[i].external_id == id);
    }
    if jobs.last().external_id == id {
        assert(jobs[jobs.len() - 1].external_id == id);
    }
    if has_job(jobs, id) {
        let i = choose|i: int| 0 <= i < jobs.len() && (#[trigger] jobs[i]).external_id == id;
        if i < fewer.len() {
            assert(fewer[i].external_id == id);
        }
    }
}

/// A comparison calls exactly those postings new that it sees and that are not
/// known.
pub proof fn law_new_postings_are_unknown(
    jobs: Seq<JobView>,
    known: Seq<JobView>,
    source: Seq<char>,
    id: Seq<char>,
)
    ensures
        named(new_records(jobs, known, source), id) <==> has_job(jobs, id) && known_as(
            known,
            source,
            id,
        ) is None,
    decreases jobs.len(),
{
    if jobs.len() > 0 {
        let fewer = jobs.drop_last();
        law_new_postings_are_unknown(fewer, known, source, id);
        lemma_has_job_last(jobs, id);
        lemma_named_push(
            new_records(fewer, known, source),
            record_of("new"@, jobs.last(), Seq::empty(), None),
            id,
        );
    }
}

/// A known posting of a list differs from what is known of it.
pub open spec fn is_changed(jobs: Seq<JobView>, row: JobView, id: Seq<char>) -> bool {
    exists|i: int|
        0 <= i < jobs.len() && (#[trigger] jobs[i]).external_id == id && differing_fields(
            row,
            jobs[i],
        ).len() > 0
}

/// A comparison calls exactly those postings updated that it sees, that are known,
/// and that differ from what is known of them.
pub proof fn law_updated_postings_differ(
    jobs: Seq<JobView>,
    known: Seq<JobView>,
    source: Seq<char>,
    id: Seq<char>,
)
    ensures
        named(updated_records(jobs, known, source, false), id) <==> (match known_as(
            known,
            source,
            id,
        ) {
            Some(row) => is_changed(jobs, row, id),
            None => false,
        }),
    decreases jobs.len(),
{
    if jobs.len() > 0 {
        let fewer = jobs.drop_last();
        let last = jobs.last();
        law_updated_postings_differ(fewer, known, source, id);
        match known_as(known, source, id) {
            Some(row) => {
                if is_changed(fewer, row, id) {
                    let i = choose|i: int|
                        0 <= i < fewer.len() && (#[trigger] fewer[i]).external_id == id
                            && differing_fields(row, fewer[i]).len() > 0;
                    assert(jobs[i] == fewer[i]);
                    assert(is_changed(jobs, row, id));
                }
                if is_changed(jobs, row, id) {
                    let i = choose|i: int|
                        0 <= i < jobs.len() && (#[trigger] jobs[i]).external_id == id
                            && differing_fields(row, jobs[i]).len() > 0;
                    if i < fewer.len() {
                        assert(fewer[i] == jobs[i]);
                    }
                }
                if last.external_id == id && differing_fields(row, last).len() > 0 {
                    assert(jobs[jobs.len() - 1] == last);
                    assert(is_changed(jobs, row, id));
                }
            },
            None => {},
        }
        match known_as(known, source, last.external_id) {
            Some(row) => {
                lemma_named_push(
                    updated_records(fewer, known, source, false),
                    record_of("updated"@, last, differing_fields(row, last), None),
                    id,
                );
            },
            None => {},
        }
    }
}

/// A comparison that takes in all known postings calls exactly those postings
/// updated that it sees and that are known, whether or not they differ.
pub proof fn law_known_postings_are_updated(
    jobs: Seq<JobView>,
    known: Seq<JobView>,
    source: Seq<char>,
    id: Seq<char>,
)
    ensures
        named(updated_records(jobs, known, source, true), id) <==> has_job(jobs, id) && known_as(
            known,
            source,
            id,
        ) is Some,
    decreases jobs.len(),
{
    if jobs.len() > 0 {
        let fewer = jobs.drop_last();
        let last = jobs.last();
        law_known_postings_are_updated(fewer, known, source, id);
        lemma_has_job_last(jobs, id);
        match known_as(known, source, last.external_id) {
            Some(row) => {
                lemma_named_push(
                    updated_records(fewer, known, source, true),
                    record_of("updated"@, last, differing_fields(row, last), None),
                    id,
                );
            },
            None => {},
        }
    }
}

/// A comparison calls exactly those known postings of the source deleted that are
/// not among those named.
pub proof fn law_missing_postings_are_deleted(
    known: Seq<JobView>,
    source: Seq<char>,
    ids: Seq<Seq<char>>,
    at: Seq<char>,
    id: Seq<char>,
)
    ensures
        named(deleted_records(known, source, ids, at), id) <==> known_as(known, source, id) is Some
            && !is_among(ids, id),
    decreases known.len(),
{
    if known.len() > 0 {
        let fewer = known.drop_last();
        law_missing_postings_are_deleted(fewer, source, ids, at, id);
        lemma_named_push(
            deleted_records(fewer, source, ids, at),
            record_of("deleted"@, known.last(), Seq::empty(), Some(at)),
            id,
        );
    }
}

/// A comparison goes posting by posting: two lists of postings give the records of
/// the one and behind them those of the other.
pub proof fn law_postings_are_compared_one_by_one(
    a: Seq<JobView>,
    b: Seq<JobView>,
    known: Seq<JobView>,
    source: Seq<char>,
    all: bool,
)
    ensures
        new_records(a + b, known, source) == new_records(a, known, source) + new_records(
            b,
            known,
            source,
        ),
        updated_records(a + b, known, source, all) == updated_records(a, known, source, all)
            + updated_records(b, known, source, all),
    decreases b.len(),
{
    if b.len() == 0 {
        assert(a + b =~= a);
        assert(new_records(a, known, source) + new_records(b, known, source) =~= new_records(
            a,
            known,
            source,
        ));
        assert(updated_records(a, known, source, all) + updated_records(b, known, source, all)
            =~= updated_records(a, known, source, all));
    } else {
        law_postings_are_compared_one_by_one(a, b.drop_last(), known, source, all);
        assert((a + b).drop_last() =~= a + b.drop_last());
        assert((a + b).last() == b.last());
        assert(new_records(a + b, known, source) =~= new_records(a, known, source) + new_records(
            b,
            known,
            source,
        ));
        assert(updated_records(a + b, known, source, all) =~= updated_records(
            a,
            known,
            source,
            all,
        ) + updated_records(b, known, source, all));
    }
}

/// What a comparison tells of one posting: that it is new, where it is not known;
/// that it is updated, with the fields that differ and as it is now, where it is known
/// and differs or all are told of; and nothing else.
pub proof fn law_one_posting_makes_one_record(
    job: JobView,
    known: Seq<JobView>,
    source: Seq<char>,
    all: bool,
)
    ensures
        ({
            let row = known_as(known, source, job.external_id);
            let new = new_records(seq![job], known, source);
            let updated = updated_records(seq![job], known, source, all);
            &&& row is None ==> new.len() == 1 && updated.len() == 0 && tells_posting(
                new[0],
                "new"@,
                job,
            ) && new[0].changed_fields.len() == 0 && new[0].deleted_at is None
            &&& row is Some ==> new.len() == 0
            &&& row is Some && (all || differing_fields(row->0, job).len() > 0) ==> updated.len()
                == 1 && tells_posting(updated[0], "updated"@, job) && updated[0].changed_fields
                == differing_fields(row->0, job) && updated[0].deleted_at is None
            &&& row is Some && !all && differing_fields(row->0, job).len() == 0 ==> updated.len()
                == 0
        }),
{
    let one = seq![job];
    assert(one.drop_last() =~= Seq::empty());
    reveal_with_fuel(new_records, 2);
    reveal_with_fuel(updated_records, 2);
}

/// A record of a kind says what a posting says.
pub open spec fn tells_posting(record: RecordView, kind: Seq<char>, job: JobView) -> bool {
    &&& record.change_type == kind
    &&& record.source == job.source
    &&& record.external_id == job.external_id
    &&& record.title == job.title
    &&& record.company == job.company
    &&& record.location == job.location
    &&& record.salary == job.salary
    &&& record.description == job.description
    &&& record.url == job.url
    &&& record.published_at == job.published_at
    &&& record.fetch_state == job.fetch_state
    &&& record.first_seen_at == job.first_seen_at
    &&& record.last_seen_at == job.last_seen_at
    &&& record.seen_count == job.seen_count
}

/// A known posting that is missing makes one record, which says what was known of it
/// and when it was found missing; any other makes none. Known postings are gone
/// through in order.
pub proof fn law_missing_postings_make_one_record_each(
    known: Seq<JobView>,
    row: JobView,
    source: Seq<char>,
    ids: Seq<Seq<char>>,
    at: Seq<char>,
)
    ensures
        ({
            let before = deleted_records(known, source, ids, at);
            let after = deleted_records(known.push(row), source, ids, at);
            if row.source == source && !is_among(ids, row.external_id) {
                &&& after.len() == before.len() + 1
                &&& after.drop_last() == before
                &&& tells_posting(after.last(), "deleted"@, row)
                &&& after.last().changed_fields.len() == 0
                &&& after.last().deleted_at == Some(at)
            } else {
                after == before
            }
        }),
{
    assert(known.push(row).drop_last() =~= known);
    let after = deleted_records(known.push(row), source, ids, at);
    if row.source == source && !is_among(ids, row.external_id) {
        assert(after.drop_last() =~= deleted_records(known, source, ids, at));
    }
}

/// A comparison adds its records behind those that are there, and leaves the rest of
/// a summary as it is; without leave it deletes nothing.
pub proof fn law_a_comparison_adds_behind(
    summary: SummaryView,
    jobs: Seq<JobView>,
    known: Seq<JobView>,
    source: Seq<char>,
    all: bool,
    deletions: bool,
)
    ensures
        ({
            let out = with_comparison(summary, jobs, known, source, all, deletions);
            &&& out.generated_at == summary.generated_at
            &&& out.date == summary.date
            &&& out.trigger == summary.trigger
            &&& out.export_path == summary.export_path
            &&& out.export_error == summary.export_error
            &&& out.new == summary.new + new_records(jobs, known, source)
            &&& out.updated == summary.updated + updated_records(jobs, known, source, all)
            &&& deletions ==> out.deleted == summary.deleted + deleted_records(
                known,
                source,
                job_ids(jobs),
                summary.generated_at,
            )
            &&& !deletions ==> out.deleted == summary.deleted
        }),
{
}

/// A snapshot tells of all its postings, each as the run sees it, and deletes only
/// where it allows that.
pub proof fn law_a_snapshot_tells_of_all_its_postings(
    summary: SummaryView,
    snapshot: crate::source::SnapshotView,
    known: Seq<JobView>,
)
    ensures
        ({
            let seen = all_seen(snapshot.jobs, known, snapshot.source, summary.generated_at);
            let out = with_snapshot(summary, snapshot, known);
            &&& seen.len() == snapshot.jobs.len()
            &&& forall|i: int|
                0 <= i < seen.len() ==> #[trigger] seen[i] == seen_in_run(
                    snapshot.jobs[i],
                    known_as(known, snapshot.source, snapshot.jobs[i].external_id),
                    summary.generated_at,
                )
            &&& out.new == summary.new + new_records(seen, known, snapshot.source)
            &&& out.updated == summary.updated + updated_records(
                seen,
                known,
                snapshot.source,
                true,
            )
            &&& snapshot.allow_deletions ==> out.deleted == summary.deleted + deleted_records(
                known,
                snapshot.source,
                job_ids(seen),
                summary.generated_at,
            )
            &&& !snapshot.allow_deletions ==> out.deleted == summary.deleted
        }),
{
}

/// A summary starts with nothing changed, and has changes exactly if a posting is new,
/// updated or deleted.
pub proof fn law_a_summary_starts_empty(
    generated_at: Seq<char>,
    date: Seq<char>,
    trigger: Seq<char>,
    summary: SummaryView,
)
    ensures
        ({
            let start = empty_summary(generated_at, date, trigger);
            &&& start.generated_at == generated_at
            &&& start.date == date
            &&& start.trigger == trigger
            &&& start.new.len() == 0 && start.updated.len() == 0 && start.deleted.len() == 0
            &&& start.export_path is None && start.export_error is None
            &&& !start.has_changes()
        }),
        summary.has_changes() <==> summary.new.len() + summary.updated.len()
            + summary.deleted.len() > 0,
{
}

/// A history keeps of a run when it was, what started it, and all its records; the
/// first run of a day starts the day's history.
pub proof fn law_a_run_is_kept_whole(history: Option<HistoryView>, summary: SummaryView)
    ensures
        ({
            let out = with_run(history, summary);
            let run = out.runs.last();
            &&& out.runs.len() > 0
            &&& run.generated_at == summary.generated_at
            &&& run.trigger == summary.trigger
            &&& run.new == summary.new
            &&& run.updated == summary.updated
            &&& run.deleted == summary.deleted
            &&& history is None ==> out.runs.len() == 1 && out.date == summary.date
            &&& history is Some ==> out.date == history->0.date && out.runs.drop_last()
                == history->0.runs
        }),
{
    if history is Some {
        assert(with_run(history, summary).runs.drop_last() =~= history->0.runs);
    }
}

/// A summary says what each of its fields holds.
pub proof fn law_a_summary_says_what_it_holds(x: SyncSummary)
    ensures
        x@.generated_at == x.generated_at@,
        x@.date == x.date@,
        x@.trigger == x.trigger@,
        x@.new == record_views(x.new@),
        x@.updated == record_views(x.updated@),
        x@.deleted == record_views(x.deleted@),
        x@.export_path == opt_view(x.export_path),
        x@.export_error == opt_view(x.export_error),
{
}

/// A run says what each of its fields holds.
pub proof fn law_a_run_says_what_it_holds(x: HistoryRun)
    ensures
        x@.generated_at == x.generated_at@,
        x@.trigger == x.trigger@,
        x@.new == record_views(x.new@),
        x@.updated == record_views(x.updated@),
        x@.deleted == record_views(x.deleted@),
{
}

/// A history says what each of its fields holds.
pub proof fn law_a_history_says_what_it_holds(x: ChangeHistory)
    ensures
        x@.date == x.date@,
        x@.runs == run_views(x.runs@),
{
}

} // verus!
