//! The table of postings: the statements that keep it, and what they do to it.

use vstd::prelude::*;
use vstd::string::*;
use crate::change::seen_in_run;
use crate::job::{copy_option, job_views, JobListing, JobView};
use crate::scan;
use crate::scan::is_listed;
use crate::text::{is_among, join, opt_view, views};

verus! {

broadcast use vstd::string::group_string_axioms;

// ---------------------------------------------------------------------------
// Schema
// ---------------------------------------------------------------------------

/// Makes the table where there is none.
pub const CREATE_TABLE: &'static str = "CREATE TABLE IF NOT EXISTS jobs (source TEXT NOT NULL, external_id TEXT NOT NULL, title TEXT NOT NULL, company TEXT NOT NULL, location TEXT, salary TEXT, description TEXT, url TEXT NOT NULL, published_at TEXT, platform_updated_at TEXT, fetch_state TEXT NOT NULL DEFAULT 'Complete', work_site TEXT, annual_salary TEXT, last_updated TEXT, first_seen_at TEXT NOT NULL DEFAULT CURRENT_TIMESTAMP, last_seen_at TEXT NOT NULL DEFAULT CURRENT_TIMESTAMP, seen_count INTEGER NOT NULL DEFAULT 1, PRIMARY KEY(source, external_id));";

/// Reads the names of the table's columns.
pub const LIST_COLUMNS: &'static str = "SELECT name FROM pragma_table_info('jobs')";

/// Gives rows without tracking the present time and one sighting.
pub const FILL_TRACKING: &'static str = "UPDATE jobs SET first_seen_at=COALESCE(NULLIF(first_seen_at,''),CURRENT_TIMESTAMP), last_seen_at=COALESCE(NULLIF(last_seen_at,''),CURRENT_TIMESTAMP), seen_count=COALESCE(NULLIF(seen_count,0),1)";

/// Reads all rows.
pub const LOAD_ALL: &'static str = "SELECT source,external_id,title,company,COALESCE(work_site,location),COALESCE(annual_salary,salary),description,url,published_at,platform_updated_at,fetch_state,first_seen_at,last_seen_at,seen_count FROM jobs";

/// Reads the rows of the source 104.
pub const LOAD_104: &'static str = "SELECT source,external_id,title,company,COALESCE(work_site,location),COALESCE(annual_salary,salary),description,url,published_at,platform_updated_at,fetch_state,first_seen_at,last_seen_at,seen_count FROM jobs WHERE source='104'";

/// Writes a row, or brings a row up to date and counts a sighting.
pub const UPSERT: &'static str = "INSERT INTO jobs(source,external_id,title,company,location,salary,description,url,published_at,platform_updated_at,fetch_state,work_site,annual_salary,last_updated,first_seen_at,last_seen_at,seen_count) VALUES(?1,?2,?3,?4,?5,?6,?7,?8,?9,?10,?11,?5,?6,COALESCE(?10,?9),?12,?12,1) ON CONFLICT(source,external_id) DO UPDATE SET title=excluded.title,company=excluded.company,location=excluded.location,salary=excluded.salary,description=COALESCE(excluded.description,jobs.description),url=excluded.url,published_at=excluded.published_at,platform_updated_at=excluded.platform_updated_at,fetch_state=excluded.fetch_state,work_site=excluded.work_site,annual_salary=excluded.annual_salary,last_updated=excluded.last_updated,first_seen_at=COALESCE(jobs.first_seen_at,excluded.first_seen_at),last_seen_at=excluded.last_seen_at,seen_count=COALESCE(jobs.seen_count,0)+1";

/// Deletes all rows of a source.
pub const DELETE_SOURCE: &'static str = "DELETE FROM jobs WHERE source=?";

/// How many columns an older table can lack.
pub const ADDED_COLUMNS: usize = 9;

/// The columns that an older table can lack, with their types.
pub open spec fn added_column(i: int) -> (Seq<char>, Seq<char>) {
    if i == 0 {
        ("work_site"@, "TEXT"@)
    } else if i == 1 {
        ("annual_salary"@, "TEXT"@)
    } else if i == 2 {
        ("last_updated"@, "TEXT"@)
    } else if i == 3 {
        ("description"@, "TEXT"@)
    } else if i == 4 {
        ("platform_updated_at"@, "TEXT"@)
    } else if i == 5 {
        ("fetch_state"@, "TEXT NOT NULL DEFAULT 'Complete'"@)
    } else if i == 6 {
        ("first_seen_at"@, "TEXT"@)
    } else if i == 7 {
        ("last_seen_at"@, "TEXT"@)
    } else {
        ("seen_count"@, "INTEGER NOT NULL DEFAULT 1"@)
    }
}

/// The columns that an older table can lack, with their types.
fn added_column_at(i: usize) -> (r: (&'static str, &'static str))
    ensures
        (r.0@, r.1@) == added_column(i as int),
{
    if i == 0 {
        ("work_site", "TEXT")
    } else if i == 1 {
        ("annual_salary", "TEXT")
    } else if i == 2 {
        ("last_updated", "TEXT")
    } else if i == 3 {
        ("description", "TEXT")
    } else if i == 4 {
        ("platform_updated_at", "TEXT")
    } else if i == 5 {
        ("fetch_state", "TEXT NOT NULL DEFAULT 'Complete'")
    } else if i == 6 {
        ("first_seen_at", "TEXT")
    } else if i == 7 {
        ("last_seen_at", "TEXT")
    } else {
        ("seen_count", "INTEGER NOT NULL DEFAULT 1")
    }
}

/// A change of the table's schema.
pub enum SchemaChange {
    /// A column is added, one of those that an older table can lack.
    AddColumn(int),
    /// Rows without tracking get it.
    FillTracking,
}

/// The statement that makes a change of the schema.
pub open spec fn schema_statement(change: SchemaChange) -> Seq<char> {
    match change {
        SchemaChange::AddColumn(i) => "ALTER TABLE jobs ADD COLUMN "@ + added_column(i).0 + " "@
            + added_column(i).1,
        SchemaChange::FillTracking => FILL_TRACKING@,
    }
}

/// The first `n` columns, as far as they are missing.
pub open spec fn column_additions(existing: Seq<Seq<char>>, n: int) -> Seq<SchemaChange>
    decreases n,
{
    if n <= 0 {
        Seq::empty()
    } else if is_among(existing, added_column(n - 1).0) {
        column_additions(existing, n - 1)
    } else {
        column_additions(existing, n - 1).push(SchemaChange::AddColumn(n - 1))
    }
}

/// The changes that bring a table with some columns up to date: the missing
/// columns are added, and rows without tracking get it.
pub open spec fn schema_changes(existing: Seq<Seq<char>>) -> Seq<SchemaChange> {
    column_additions(existing, ADDED_COLUMNS as int).push(SchemaChange::FillTracking)
}

/// The statements that make some changes of the schema.
pub open spec fn schema_statements(changes: Seq<SchemaChange>) -> Seq<Seq<char>> {
    changes.map_values(|c: SchemaChange| schema_statement(c))
}

/// The statements that bring a table with some columns up to date.
pub fn ensure_schema(existing: &Vec<String>) -> (r: Vec<String>)
    ensures
        views(r@) == schema_statements(schema_changes(views(existing@))),
{
    let ghost columns = views(existing@);
    let mut out: Vec<String> = Vec::new();
    let mut i: usize = 0;
    assert(views(out@) =~= schema_statements(column_additions(columns, 0)));
    while i < ADDED_COLUMNS
        invariant
            columns == views(existing@),
            i <= ADDED_COLUMNS,
            views(out@) == schema_statements(column_additions(columns, i as int)),
        decreases ADDED_COLUMNS - i,
    {
        let ghost earlier = out@;
        let (name, definition): (&str, &str) = added_column_at(i);
        if !is_listed(existing, name) {
            let mut sql: String = scan::concat3("ALTER TABLE jobs ADD COLUMN ", name, " ");
            sql.append(definition);
            let ghost text = sql@;
            out.push(sql);
            assert(views(out@) =~= views(earlier).push(text));
            assert(schema_statements(column_additions(columns, i + 1)) =~= schema_statements(
                column_additions(columns, i as int),
            ).push(text));
        }
        i += 1;
    }
    let ghost earlier = out@;
    out.push(FILL_TRACKING.to_owned());
    assert(views(out@) =~= views(earlier).push(FILL_TRACKING@));
    assert(schema_statements(schema_changes(columns)) =~= schema_statements(
        column_additions(columns, ADDED_COLUMNS as int),
    ).push(FILL_TRACKING@));
    out
}

// ---------------------------------------------------------------------------
// Statements
// ---------------------------------------------------------------------------

/// A statement with its parameters; a parameter is a text or null.
#[derive(Debug, PartialEq, Eq)]
pub struct Statement {
    pub sql: String,
    pub params: Vec<Option<String>>,
}

/// What a statement says.
#[verifier::ext_equal]
pub struct StatementView {
    pub sql: Seq<char>,
    pub params: Seq<Option<Seq<char>>>,
}

/// What the parameters of a statement say.
pub open spec fn param_views(params: Seq<Option<String>>) -> Seq<Option<Seq<char>>> {
    params.map_values(|p: Option<String>| opt_view(p))
}

impl View for Statement {
    type V = StatementView;

    open spec fn view(&self) -> StatementView {
        StatementView { sql: self.sql@, params: param_views(self.params@) }
    }
}

/// What each statement of a list says.
pub open spec fn statement_views(statements: Seq<Statement>) -> Seq<StatementView> {
    statements.map_values(|s: Statement| s@)
}

/// A change of the table.
pub enum Change {
    /// A posting was seen in a run.
    See { source: Seq<char>, job: JobView, run_at: Seq<char> },
    /// A source has no postings.
    Clear { source: Seq<char> },
    /// A source has no postings but some.
    Keep { source: Seq<char>, ids: Seq<Seq<char>> },
}

/// A mark for each of `n` parameters, with commas between them.
pub open spec fn marks(n: nat) -> Seq<char> {
    join(Seq::new(n, |i: int| "?"@), ","@)
}

/// Texts as parameters.
pub open spec fn as_params(ids: Seq<Seq<char>>) -> Seq<Option<Seq<char>>> {
    ids.map_values(|id: Seq<char>| Some(id))
}

/// The statement that makes a change.
pub open spec fn statement_of(change: Change) -> StatementView {
    match change {
        Change::See { source, job, run_at } => StatementView {
            sql: UPSERT@,
            params: seq![
                Some(source),
                Some(job.external_id),
                Some(job.title),
                Some(job.company),
                job.location,
                job.salary,
                job.description,
                Some(job.url),
                job.published_at,
                job.platform_updated_at,
                Some(job.fetch_state),
                Some(run_at),
            ],
        },
        Change::Clear { source } => StatementView { sql: DELETE_SOURCE@, params: seq![Some(source)] },
        Change::Keep { source, ids } => StatementView {
            sql: "DELETE FROM jobs WHERE source=? AND external_id NOT IN ("@ + marks(ids.len())
                + ")"@,
            params: seq![Some(source)] + as_params(ids),
        },
    }
}

/// A posting of a list has an identity.
pub open spec fn has_job(jobs: Seq<JobView>, id: Seq<char>) -> bool {
    exists|i: int| 0 <= i < jobs.len() && (#[trigger] jobs[i]).external_id == id
}

/// The first posting for each identity, in order.
pub open spec fn first_jobs(jobs: Seq<JobView>) -> Seq<JobView>
    decreases jobs.len(),
{
    if jobs.len() == 0 {
        Seq::empty()
    } else {
        let kept = first_jobs(jobs.drop_last());
        if has_job(kept, jobs.last().external_id) {
            kept
        } else {
            kept.push(jobs.last())
        }
    }
}

/// The first posting of a list that has an identity.
pub open spec fn first_with(jobs: Seq<JobView>, id: Seq<char>) -> Option<JobView>
    decreases jobs.len(),
{
    if jobs.len() == 0 {
        None
    } else {
        match first_with(jobs.drop_last(), id) {
            Some(job) => Some(job),
            None => if jobs.last().external_id == id {
                Some(jobs.last())
            } else {
                None
            },
        }
    }
}

/// The sightings of some postings of a source in a run.
pub open spec fn sightings(source: Seq<char>, jobs: Seq<JobView>, run_at: Seq<char>) -> Seq<Change> {
    jobs.map_values(|job: JobView| Change::See { source, job, run_at })
}

/// The changes that a run makes: it saw some postings of a source, each once
/// however often it is listed; where it may delete, no other postings of the
/// source are left than those it names.
pub open spec fn run_changes(
    source: Seq<char>,
    jobs: Seq<JobView>,
    ids: Seq<Seq<char>>,
    allow_deletions: bool,
    run_at: Seq<char>,
) -> Seq<Change> {
    let seen = sightings(source, first_jobs(jobs), run_at);
    if !allow_deletions {
        seen
    } else if ids.len() == 0 {
        seen.push(Change::Clear { source })
    } else {
        seen.push(Change::Keep { source, ids })
    }
}

/// The statements that make some changes.
pub open spec fn statements_of(changes: Seq<Change>) -> Seq<StatementView> {
    changes.map_values(|c: Change| statement_of(c))
}

/// Whether a posting of a list has an identity.
fn has_listing(jobs: &Vec<JobListing>, upto: usize, id: &str) -> (r: bool)
    requires
        upto <= jobs@.len(),
    ensures
        r == has_job(job_views(jobs@).take(upto as int), id@),
{
    let ghost all = job_views(jobs@).take(upto as int);
    let mut i: usize = 0;
    while i < upto
        invariant
            all == job_views(jobs@).take(upto as int),
            i <= upto <= jobs@.len(),
            forall|j: int| 0 <= j < i ==> (#[trigger] all[j]).external_id != id@,
        decreases upto - i,
    {
        assert(all[i as int] == jobs@[i as int]@);
        if scan::same(jobs[i].external_id.as_str(), id) {
            return true;
        }
        i += 1;
    }
    false
}

/// An identity is among the first postings exactly if it is among all.
pub proof fn lemma_first_jobs(jobs: Seq<JobView>)
    ensures
        forall|id: Seq<char>| #[trigger] has_job(first_jobs(jobs), id) <==> has_job(jobs, id),
        forall|i: int, j: int|
            0 <= i < j < first_jobs(jobs).len() ==> (#[trigger] first_jobs(jobs)[i]).external_id != (
            #[trigger] first_jobs(jobs)[j]).external_id,
    decreases jobs.len(),
{
    if jobs.len() > 0 {
        let fewer = jobs.drop_last();
        let kept = first_jobs(fewer);
        let out = first_jobs(jobs);
        lemma_first_jobs(fewer);
        assert forall|id: Seq<char>| #[trigger] has_job(out, id) <==> has_job(jobs, id) by {
            if has_job(jobs, id) {
                let i = choose|i: int| 0 <= i < jobs.len() && (#[trigger] jobs[i]).external_id == id;
                if i < fewer.len() {
                    assert(fewer[i].external_id == id);
                    assert(has_job(fewer, id));
                    assert(has_job(kept, id));
                    let k = choose|k: int|
                        0 <= k < kept.len() && (#[trigger] kept[k]).external_id == id;
                    assert(out[k].external_id == id);
                } else if !has_job(kept, id) {
                    assert(out[kept.len() as int].external_id == id);
                }
            }
            if has_job(out, id) {
                let k = choose|k: int| 0 <= k < out.len() && (#[trigger] out[k]).external_id == id;
                if k < kept.len() {
                    assert(kept[k].external_id == id);
                    assert(has_job(kept, id));
                    assert(has_job(fewer, id));
                    let i = choose|i: int|
                        0 <= i < fewer.len() && (#[trigger] fewer[i]).external_id == id;
                    assert(jobs[i].external_id == id);
                } else {
                    assert(jobs[jobs.len() - 1].external_id == id);
                }
            }
        }
        if !has_job(kept, jobs.last().external_id) {
            assert forall|i: int, j: int| 0 <= i < j < out.len() implies (
            #[trigger] out[i]).external_id != (#[trigger] out[j]).external_id by {
                assert(out[i] == kept[i]);
                if j < kept.len() {
                    assert(out[j] == kept[j]);
                }
            }
        }
    }
}

/// The first posting with an identity is the one that is kept for it.
pub proof fn lemma_first_with(jobs: Seq<JobView>, id: Seq<char>)
    ensures
        first_with(jobs, id) is Some <==> has_job(jobs, id),
        forall|i: int|
            0 <= i < first_jobs(jobs).len() && (#[trigger] first_jobs(jobs)[i]).external_id == id
                ==> first_with(jobs, id) == Some(first_jobs(jobs)[i]),
    decreases jobs.len(),
{
    if jobs.len() > 0 {
        let fewer = jobs.drop_last();
        let kept = first_jobs(fewer);
        let out = first_jobs(jobs);
        lemma_first_with(fewer, id);
        lemma_first_jobs(fewer);
        if has_job(fewer, id) {
            let k = choose|k: int| 0 <= k < fewer.len() && (#[trigger] fewer[k]).external_id == id;
            assert(jobs[k].external_id == id);
            assert(has_job(kept, id));
        }
        if jobs.last().external_id == id {
            assert(jobs[jobs.len() - 1].external_id == id);
        }
        if has_job(jobs, id) && jobs.last().external_id != id {
            let k = choose|k: int| 0 <= k < jobs.len() && (#[trigger] jobs[k]).external_id == id;
            assert(fewer[k].external_id == id);
        }
        assert forall|i: int|
            0 <= i < out.len() && (#[trigger] out[i]).external_id == id implies first_with(jobs, id)
            == Some(out[i]) by {
            if i < kept.len() {
                assert(out[i] == kept[i]);
            } else {
                assert(!has_job(kept, id));
            }
        }
    }
}

/// The first posting for each identity, in order.
pub fn keep_first_jobs(jobs: &Vec<JobListing>) -> (r: Vec<JobListing>)
    ensures
        job_views(r@) == first_jobs(job_views(jobs@)),
{
    let ghost all = job_views(jobs@);
    let mut out: Vec<JobListing> = Vec::new();
    let mut i: usize = 0;
    while i < jobs.len()
        invariant
            all == job_views(jobs@),
            i <= jobs@.len(),
            job_views(out@) == first_jobs(all.take(i as int)),
        decreases jobs@.len() - i,
    {
        let ghost earlier = out@;
        assert(all.take(i + 1).drop_last() =~= all.take(i as int));
        assert(all[i as int] == jobs@[i as int]@);
        proof {
            lemma_first_jobs(all.take(i as int));
        }
        if !has_listing(jobs, i, jobs[i].external_id.as_str()) {
            let copy: JobListing = jobs[i].clone();
            let ghost said = copy@;
            out.push(copy);
            assert(job_views(out@) =~= job_views(earlier).push(said));
        }
        i += 1;
    }
    assert(all.take(i as int) =~= all);
    out
}

/// The statement that writes a sighting.
fn upsert(source: &str, job: &JobListing, run_at: &str) -> (r: Statement)
    ensures
        r@ == statement_of(Change::See { source: source@, job: job@, run_at: run_at@ }),
{
    let mut params: Vec<Option<String>> = Vec::new();
    params.push(Some(source.to_owned()));
    params.push(Some(job.external_id.clone()));
    params.push(Some(job.title.clone()));
    params.push(Some(job.company.clone()));
    params.push(copy_option(&job.location));
    params.push(copy_option(&job.salary));
    params.push(copy_option(&job.description));
    params.push(Some(job.url.clone()));
    params.push(copy_option(&job.published_at));
    params.push(copy_option(&job.platform_updated_at));
    params.push(Some(job.fetch_state.clone()));
    params.push(Some(run_at.to_owned()));
    let r: Statement = Statement { sql: UPSERT.to_owned(), params };
    assert(r@.params =~= statement_of(
        Change::See { source: source@, job: job@, run_at: run_at@ },
    ).params);
    r
}

/// A mark for each of `n` parameters, with commas between them.
fn mark_list(n: usize) -> (r: String)
    ensures
        r@ == marks(n as nat),
{
    let mut all: Vec<String> = Vec::new();
    let mut i: usize = 0;
    while i < n
        invariant
            i <= n,
            views(all@) == Seq::new(i as nat, |j: int| "?"@),
        decreases n - i,
    {
        let ghost earlier = all@;
        all.push("?".to_owned());
        assert(views(all@) =~= views(earlier).push("?"@));
        assert(views(all@) =~= Seq::new((i + 1) as nat, |j: int| "?"@));
        i += 1;
    }
    scan::join(&all, ",")
}

/// The statement that deletes the postings of a source but for some.
fn deletion(source: &str, ids: &Vec<String>) -> (r: Statement)
    ensures
        r@ == statement_of(
            if ids@.len() == 0 {
                Change::Clear { source: source@ }
            } else {
                Change::Keep { source: source@, ids: views(ids@) }
            },
        ),
{
    let mut params: Vec<Option<String>> = Vec::new();
    params.push(Some(source.to_owned()));
    assert(param_views(params@) =~= seq![Some(source@)]);
    if ids.len() == 0 {
        return Statement { sql: DELETE_SOURCE.to_owned(), params };
    }
    let ghost all = views(ids@);
    assert(seq![Some(source@)] + as_params(all.take(0)) =~= seq![Some(source@)]);
    let mut i: usize = 0;
    while i < ids.len()
        invariant
            all == views(ids@),
            i <= ids@.len(),
            param_views(params@) == seq![Some(source@)] + as_params(all.take(i as int)),
        decreases ids@.len() - i,
    {
        let ghost earlier = params@;
        params.push(Some(ids[i].clone()));
        assert(param_views(params@) =~= param_views(earlier).push(Some(all[i as int])));
        assert(as_params(all.take(i + 1)) =~= as_params(all.take(i as int)).push(
            Some(all[i as int]),
        ));
        i += 1;
    }
    assert(all.take(i as int) =~= all);
    Statement {
        sql: scan::concat3(
            "DELETE FROM jobs WHERE source=? AND external_id NOT IN (",
            mark_list(ids.len()).as_str(),
            ")",
        ),
        params,
    }
}

/// The statements, all of one transaction, that bring the postings of a source
/// up to date with a run.
pub fn persist_state(
    source: &str,
    jobs: &Vec<JobListing>,
    ids: &Vec<String>,
    allow_deletions: bool,
    run_at: &str,
) -> (r: Vec<Statement>)
    ensures
        statement_views(r@) == statements_of(
            run_changes(source@, job_views(jobs@), views(ids@), allow_deletions, run_at@),
        ),
{
    let ghost all = job_views(jobs@);
    let mut out: Vec<Statement> = Vec::new();
    let mut i: usize = 0;
    while i < jobs.len()
        invariant
            all == job_views(jobs@),
            i <= jobs@.len(),
            statement_views(out@) == statements_of(
                sightings(source@, first_jobs(all.take(i as int)), run_at@),
            ),
        decreases jobs@.len() - i,
    {
        let ghost earlier = out@;
        let ghost kept = first_jobs(all.take(i as int));
        assert(all.take(i + 1).drop_last() =~= all.take(i as int));
        assert(all[i as int] == jobs@[i as int]@);
        proof {
            lemma_first_jobs(all.take(i as int));
        }
        if !has_listing(jobs, i, jobs[i].external_id.as_str()) {
            let statement: Statement = upsert(source, &jobs[i], run_at);
            let ghost said = statement@;
            out.push(statement);
            assert(statement_views(out@) =~= statement_views(earlier).push(said));
            assert(statements_of(sightings(source@, kept.push(all[i as int]), run_at@))
                =~= statements_of(sightings(source@, kept, run_at@)).push(said));
        }
        i += 1;
    }
    assert(all.take(i as int) =~= all);
    if allow_deletions {
        let ghost earlier = out@;
        let ghost seen = sightings(source@, first_jobs(all), run_at@);
        let statement: Statement = deletion(source, ids);
        let ghost said = statement@;
        out.push(statement);
        assert(statement_views(out@) =~= statement_views(earlier).push(said));
        assert(statements_of(run_changes(source@, all, views(ids@), true, run_at@))
            =~= statements_of(seen).push(said));
    }
    out
}

// ---------------------------------------------------------------------------
// What the statements do
//
// The table is kept by SQLite. What follows says what each statement is for; that
// SQLite makes the statement do so is outside this library.
// ---------------------------------------------------------------------------

/// The table: a posting for each source and identity.
pub type Table = Map<(Seq<char>, Seq<char>), JobView>;

/// The row of a posting that was seen in a run: written anew, or brought up to
/// date with its description, where none came, and its first sighting kept.
pub open spec fn row_after_sighting(
    earlier: Option<JobView>,
    source: Seq<char>,
    job: JobView,
    run_at: Seq<char>,
) -> JobView {
    JobView {
        source,
        description: match (job.description, earlier) {
            (None, Some(row)) => row.description,
            _ => job.description,
        },
        first_seen_at: match earlier {
            Some(row) => match row.first_seen_at {
                Some(t) => Some(t),
                None => Some(run_at),
            },
            None => Some(run_at),
        },
        last_seen_at: Some(run_at),
        seen_count: match earlier {
            Some(row) => row.seen_count + 1,
            None => 1,
        },
        ..job
    }
}

/// The row that a table has for a key.
pub open spec fn row_of(table: Table, key: (Seq<char>, Seq<char>)) -> Option<JobView> {
    if table.contains_key(key) {
        Some(table[key])
    } else {
        None
    }
}

/// The table behind a change.
pub open spec fn after_change(table: Table, change: Change) -> Table {
    match change {
        Change::See { source, job, run_at } => {
            let key = (source, job.external_id);
            table.insert(key, row_after_sighting(row_of(table, key), source, job, run_at))
        },
        Change::Clear { source } => table.restrict(
            Set::new(|key: (Seq<char>, Seq<char>)| key.0 != source),
        ),
        Change::Keep { source, ids } => table.restrict(
            Set::new(
                |key: (Seq<char>, Seq<char>)| key.0 != source || is_among(ids, key.1),
            ),
        ),
    }
}

/// The table behind some changes, made one after the other.
pub open spec fn after_changes(table: Table, changes: Seq<Change>) -> Table
    decreases changes.len(),
{
    if changes.len() == 0 {
        table
    } else {
        after_change(after_changes(table, changes.drop_last()), changes.last())
    }
}

/// The table behind a run.
pub open spec fn after_run(
    table: Table,
    source: Seq<char>,
    jobs: Seq<JobView>,
    ids: Seq<Seq<char>>,
    allow_deletions: bool,
    run_at: Seq<char>,
) -> Table {
    after_changes(table, run_changes(source, jobs, ids, allow_deletions, run_at))
}

/// What sightings do: a posting that is not among them keeps its row, one that is
/// has the row of one sighting, and no row is lost.
proof fn lemma_sightings(
    table: Table,
    source: Seq<char>,
    jobs: Seq<JobView>,
    run_at: Seq<char>,
    key: (Seq<char>, Seq<char>),
)
    requires
        forall|i: int, j: int|
            0 <= i < j < jobs.len() ==> (#[trigger] jobs[i]).external_id != (
            #[trigger] jobs[j]).external_id,
    ensures
        !(key.0 == source && has_job(jobs, key.1)) ==> row_of(
            after_changes(table, sightings(source, jobs, run_at)),
            key,
        ) == row_of(table, key),
        forall|i: int|
            0 <= i < jobs.len() && key.0 == source && (#[trigger] jobs[i]).external_id == key.1
                ==> row_of(after_changes(table, sightings(source, jobs, run_at)), key) == Some(
                row_after_sighting(row_of(table, key), source, jobs[i], run_at),
            ),
    decreases jobs.len(),
{
    if jobs.len() == 0 {
        assert(sightings(source, jobs, run_at).len() == 0);
    } else {
        let fewer = jobs.drop_last();
        let last = jobs.last();
        assert(sightings(source, jobs, run_at).drop_last() =~= sightings(source, fewer, run_at));
        assert(sightings(source, jobs, run_at).last() == (Change::See {
            source,
            job: last,
            run_at,
        }));
        assert forall|i: int, j: int| 0 <= i < j < fewer.len() implies (
        #[trigger] fewer[i]).external_id != (#[trigger] fewer[j]).external_id by {
            assert(fewer[i] == jobs[i] && fewer[j] == jobs[j]);
        }
        lemma_sightings(table, source, fewer, run_at, key);
        if key.0 == source && key.1 == last.external_id {
            assert(jobs[jobs.len() - 1].external_id == key.1);
            if has_job(fewer, key.1) {
                let i = choose|i: int|
                    0 <= i < fewer.len() && (#[trigger] fewer[i]).external_id == key.1;
                assert(jobs[i].external_id != jobs[jobs.len() - 1].external_id);
            }
        } else {
            if has_job(fewer, key.1) {
                let i = choose|i: int|
                    0 <= i < fewer.len() && (#[trigger] fewer[i]).external_id == key.1;
                assert(jobs[i].external_id == key.1);
            }
            assert forall|i: int|
                0 <= i < jobs.len() && key.0 == source && (#[trigger] jobs[i]).external_id
                    == key.1 implies row_of(
                after_changes(table, sightings(source, jobs, run_at)),
                key,
            ) == Some(row_after_sighting(row_of(table, key), source, jobs[i], run_at)) by {
                if i < fewer.len() {
                    assert(fewer[i] == jobs[i]);
                }
            }
        }
    }
}

/// The sightings of a run come first, and its deletion, if there is one, last.
proof fn lemma_run(
    table: Table,
    source: Seq<char>,
    jobs: Seq<JobView>,
    ids: Seq<Seq<char>>,
    allow_deletions: bool,
    run_at: Seq<char>,
)
    ensures
        ({
            let seen = after_changes(table, sightings(source, first_jobs(jobs), run_at));
            let after = after_run(table, source, jobs, ids, allow_deletions, run_at);
            &&& !allow_deletions ==> after == seen
            &&& allow_deletions && ids.len() == 0 ==> after == after_change(
                seen,
                Change::Clear { source },
            )
            &&& allow_deletions && ids.len() > 0 ==> after == after_change(
                seen,
                Change::Keep { source, ids },
            )
        }),
{
    let seen = sightings(source, first_jobs(jobs), run_at);
    if allow_deletions {
        assert(run_changes(source, jobs, ids, true, run_at).drop_last() =~= seen);
    }
}

/// A run touches the postings of its own source only.
pub proof fn law_other_sources_are_untouched(
    table: Table,
    source: Seq<char>,
    jobs: Seq<JobView>,
    ids: Seq<Seq<char>>,
    allow_deletions: bool,
    run_at: Seq<char>,
    key: (Seq<char>, Seq<char>),
)
    requires
        key.0 != source,
    ensures
        row_of(after_run(table, source, jobs, ids, allow_deletions, run_at), key) == row_of(
            table,
            key,
        ),
{
    lemma_first_jobs(jobs);
    lemma_sightings(table, source, first_jobs(jobs), run_at, key);
    lemma_run(table, source, jobs, ids, allow_deletions, run_at);
}

/// A run that may not delete leaves a row for every posting that had one, and one
/// for every posting that it saw.
pub proof fn law_nothing_is_lost_without_leave(
    table: Table,
    source: Seq<char>,
    jobs: Seq<JobView>,
    ids: Seq<Seq<char>>,
    run_at: Seq<char>,
    key: (Seq<char>, Seq<char>),
)
    ensures
        row_of(after_run(table, source, jobs, ids, false, run_at), key) is Some <==> row_of(
            table,
            key,
        ) is Some || (key.0 == source && has_job(jobs, key.1)),
{
    lemma_first_jobs(jobs);
    lemma_sightings(table, source, first_jobs(jobs), run_at, key);
    lemma_run(table, source, jobs, ids, false, run_at);
    if key.0 == source && has_job(jobs, key.1) {
        assert(has_job(first_jobs(jobs), key.1));
    }
}

/// A run that may delete leaves those postings of its source, old or seen, that
/// it names, and no others.
pub proof fn law_deletion_is_exact(
    table: Table,
    source: Seq<char>,
    jobs: Seq<JobView>,
    ids: Seq<Seq<char>>,
    run_at: Seq<char>,
    id: Seq<char>,
)
    ensures
        row_of(after_run(table, source, jobs, ids, true, run_at), (source, id)) is Some
            <==> is_among(ids, id) && (row_of(table, (source, id)) is Some || has_job(jobs, id)),
{
    let key = (source, id);
    lemma_first_jobs(jobs);
    lemma_sightings(table, source, first_jobs(jobs), run_at, key);
    lemma_run(table, source, jobs, ids, true, run_at);
    if has_job(jobs, id) {
        assert(has_job(first_jobs(jobs), id));
    }
}

/// A run counts one sighting of each posting it saw, however often the posting is
/// listed: its row is brought up to date with the first entry of it, keeps the time
/// at which it was first seen, and keeps its description where none came.
pub proof fn law_a_run_is_one_sighting(
    table: Table,
    source: Seq<char>,
    jobs: Seq<JobView>,
    ids: Seq<Seq<char>>,
    allow_deletions: bool,
    run_at: Seq<char>,
    id: Seq<char>,
)
    requires
        has_job(jobs, id),
        allow_deletions ==> is_among(ids, id),
    ensures
        first_with(jobs, id) is Some,
        ({
            let seen = first_with(jobs, id)->0;
            let before = row_of(table, (source, id));
            let after = row_of(
                after_run(table, source, jobs, ids, allow_deletions, run_at),
                (source, id),
            );
            &&& after == Some(row_after_sighting(before, source, seen, run_at))
            &&& after->0.last_seen_at == Some(run_at)
            &&& after->0.seen_count == (match before {
                Some(row) => row.seen_count + 1,
                None => 1,
            })
            &&& before is Some && before->0.first_seen_at is Some ==> after->0.first_seen_at
                == before->0.first_seen_at
            &&& before is None ==> after->0.first_seen_at == Some(run_at)
            &&& before is Some && seen.description is None ==> after->0.description
                == before->0.description
            &&& seen.description is Some ==> after->0.description == seen.description
        }),
{
    let key = (source, id);
    let first = first_jobs(jobs);
    lemma_first_jobs(jobs);
    lemma_first_with(jobs, id);
    lemma_sightings(table, source, first, run_at, key);
    lemma_run(table, source, jobs, ids, allow_deletions, run_at);
    assert(has_job(first, id));
    let i = choose|i: int| 0 <= i < first.len() && (#[trigger] first[i]).external_id == id;
    assert(row_of(after_changes(table, sightings(source, first, run_at)), key) == Some(
        row_after_sighting(row_of(table, key), source, first[i], run_at),
    ));
}

/// The tracking that a run works out for a posting is the tracking that its row
/// has behind the run.
pub proof fn law_tracking_agrees_with_the_table(
    earlier: Option<JobView>,
    source: Seq<char>,
    job: JobView,
    run_at: Seq<char>,
)
    requires
        earlier is Some ==> earlier->0.seen_count >= 1,
    ensures
        ({
            let row = row_after_sighting(earlier, source, job, run_at);
            let seen = seen_in_run(job, earlier, run_at);
            &&& row.first_seen_at == seen.first_seen_at
            &&& row.last_seen_at == seen.last_seen_at
            &&& row.seen_count == seen.seen_count
        }),
{
}

// ---------------------------------------------------------------------------
// What a change of the schema does
// ---------------------------------------------------------------------------

/// The table with the names of its columns.
#[verifier::ext_equal]
pub struct Layout {
    pub columns: Seq<Seq<char>>,
    pub table: Table,
}

/// A row to which one of the columns that an older table can lack was added. The
/// columns `work_site`, `annual_salary` and `last_updated` start empty, and the
/// place and the pay are then still read from where they were.
pub open spec fn with_column(i: int, row: JobView) -> JobView {
    if i == 3 {
        JobView { description: None, ..row }
    } else if i == 4 {
        JobView { platform_updated_at: None, ..row }
    } else if i == 5 {
        JobView { fetch_state: "Complete"@, ..row }
    } else if i == 6 {
        JobView { first_seen_at: None, ..row }
    } else if i == 7 {
        JobView { last_seen_at: None, ..row }
    } else if i == 8 {
        JobView { seen_count: 1, ..row }
    } else {
        row
    }
}

/// A time, or the present one where there is none or it is empty.
pub open spec fn time_or(time: Option<Seq<char>>, now: Seq<char>) -> Option<Seq<char>> {
    match time {
        Some(t) => if t.len() > 0 {
            Some(t)
        } else {
            Some(now)
        },
        None => Some(now),
    }
}

/// A row whose empty times are filled with the present one, and whose count, where
/// it is 0, is 1.
pub open spec fn with_tracking(row: JobView, now: Seq<char>) -> JobView {
    JobView {
        first_seen_at: time_or(row.first_seen_at, now),
        last_seen_at: time_or(row.last_seen_at, now),
        seen_count: if row.seen_count == 0 {
            1
        } else {
            row.seen_count
        },
        ..row
    }
}

/// The table behind a change of the schema.
pub open spec fn after_schema_change(layout: Layout, change: SchemaChange, now: Seq<char>) -> Layout {
    match change {
        SchemaChange::AddColumn(i) => Layout {
            columns: layout.columns.push(added_column(i).0),
            table: layout.table.map_values(|row: JobView| with_column(i, row)),
        },
        SchemaChange::FillTracking => Layout {
            table: layout.table.map_values(|row: JobView| with_tracking(row, now)),
            ..layout
        },
    }
}

/// The table behind some changes of the schema, made one after the other.
pub open spec fn after_schema_changes(
    layout: Layout,
    changes: Seq<SchemaChange>,
    now: Seq<char>,
) -> Layout
    decreases changes.len(),
{
    if changes.len() == 0 {
        layout
    } else {
        after_schema_change(
            after_schema_changes(layout, changes.drop_last(), now),
            changes.last(),
            now,
        )
    }
}

/// The table that was brought up to date.
pub open spec fn upgraded(layout: Layout, now: Seq<char>) -> Layout {
    after_schema_changes(layout, schema_changes(layout.columns), now)
}

/// A row to which the first `n` columns were added, as far as they were missing.
pub open spec fn with_columns(existing: Seq<Seq<char>>, n: int, row: JobView) -> JobView
    decreases n,
{
    if n <= 0 {
        row
    } else if is_among(existing, added_column(n - 1).0) {
        with_columns(existing, n - 1, row)
    } else {
        with_column(n - 1, with_columns(existing, n - 1, row))
    }
}

/// What the additions of the first `n` columns do.
proof fn lemma_additions(layout: Layout, n: int, now: Seq<char>)
    requires
        0 <= n <= ADDED_COLUMNS,
    ensures
        ({
            let after = after_schema_changes(layout, column_additions(layout.columns, n), now);
            &&& forall|name: Seq<char>| #[trigger]
                is_among(layout.columns, name) ==> is_among(after.columns, name)
            &&& forall|i: int| 0 <= i < n ==> is_among(after.columns, #[trigger] added_column(i).0)
            &&& forall|key: (Seq<char>, Seq<char>)| #[trigger]
                after.table.contains_key(key) <==> layout.table.contains_key(key)
            &&& forall|key: (Seq<char>, Seq<char>)| #[trigger]
                after.table.contains_key(key) ==> after.table[key] == with_columns(
                    layout.columns,
                    n,
                    layout.table[key],
                )
        }),
    decreases n,
{
    if n > 0 {
        lemma_additions(layout, n - 1, now);
        let changes = column_additions(layout.columns, n);
        let earlier = column_additions(layout.columns, n - 1);
        let before = after_schema_changes(layout, earlier, now);
        let after = after_schema_changes(layout, changes, now);
        let added = added_column(n - 1).0;
        if !is_among(layout.columns, added) {
            assert(changes.drop_last() =~= earlier);
            assert(after.columns =~= before.columns.push(added));
            assert(after.columns[before.columns.len() as int] == added);
            assert forall|name: Seq<char>| #[trigger]
                is_among(before.columns, name) implies is_among(after.columns, name) by {
                let k = choose|k: int| 0 <= k < before.columns.len() && before.columns[k] == name;
                assert(after.columns[k] == name);
            }
        }
        assert forall|i: int| 0 <= i < n implies is_among(
            after.columns,
            #[trigger] added_column(i).0,
        ) by {
            if i < n - 1 {
                assert(is_among(before.columns, added_column(i).0));
            }
        }
    }
}

/// A table of an older version is brought up to date without loss: it has every
/// column, each row stays, a row without times of sighting gets the present time,
/// a row without a sighting counts one, and what a row had is kept.
pub proof fn law_upgrades_keep_every_row(
    layout: Layout,
    now: Seq<char>,
    key: (Seq<char>, Seq<char>),
)
    requires
        now.len() > 0,
    ensures
        forall|i: int|
            0 <= i < ADDED_COLUMNS ==> is_among(
                upgraded(layout, now).columns,
                #[trigger] added_column(i).0,
            ),
        row_of(upgraded(layout, now).table, key) is Some <==> row_of(layout.table, key) is Some,
        row_of(layout.table, key) is Some ==> ({
            let before = layout.table[key];
            let after = upgraded(layout, now).table[key];
            let had = |name: Seq<char>| is_among(layout.columns, name);
            &&& after == (JobView {
                description: if had("description"@) {
                    before.description
                } else {
                    None
                },
                platform_updated_at: if had("platform_updated_at"@) {
                    before.platform_updated_at
                } else {
                    None
                },
                fetch_state: if had("fetch_state"@) {
                    before.fetch_state
                } else {
                    "Complete"@
                },
                first_seen_at: if had("first_seen_at"@) {
                    time_or(before.first_seen_at, now)
                } else {
                    Some(now)
                },
                last_seen_at: if had("last_seen_at"@) {
                    time_or(before.last_seen_at, now)
                } else {
                    Some(now)
                },
                seen_count: if had("seen_count"@) && before.seen_count != 0 {
                    before.seen_count
                } else {
                    1
                },
                ..before
            })
            &&& after.first_seen_at is Some && after.first_seen_at->0.len() > 0
            &&& after.last_seen_at is Some && after.last_seen_at->0.len() > 0
            &&& after.seen_count != 0
        }),
{
    lemma_additions(layout, ADDED_COLUMNS as int, now);
    let additions = column_additions(layout.columns, ADDED_COLUMNS as int);
    assert(schema_changes(layout.columns).drop_last() =~= additions);
    reveal_with_fuel(with_columns, 10);
}

/// Bringing a table up to date a second time, now or later, changes nothing.
pub proof fn law_a_second_upgrade_changes_nothing(layout: Layout, now: Seq<char>, later: Seq<char>)
    requires
        now.len() > 0,
    ensures
        upgraded(upgraded(layout, now), later) == upgraded(layout, now),
{
    let once = upgraded(layout, now);
    let twice = upgraded(once, later);
    lemma_additions(layout, ADDED_COLUMNS as int, now);
    let additions = column_additions(layout.columns, ADDED_COLUMNS as int);
    assert(schema_changes(layout.columns).drop_last() =~= additions);
    lemma_nothing_to_add(once.columns, ADDED_COLUMNS as int);
    assert(schema_changes(once.columns).drop_last() =~= Seq::empty());
    assert(after_schema_changes(once, schema_changes(once.columns).drop_last(), later) == once);
    assert forall|key: (Seq<char>, Seq<char>)| #[trigger] once.table.contains_key(key) implies
        twice.table[key] == once.table[key] by {
        law_upgrades_keep_every_row(layout, now, key);
    }
    assert(twice.table =~= once.table);
}

/// A table that has the first `n` columns gets none of them.
proof fn lemma_nothing_to_add(existing: Seq<Seq<char>>, n: int)
    requires
        forall|i: int| 0 <= i < n ==> is_among(existing, #[trigger] added_column(i).0),
    ensures
        column_additions(existing, n).len() == 0,
    decreases n,
{
    if n > 0 {
        lemma_nothing_to_add(existing, n - 1);
        assert(is_among(existing, added_column(n - 1).0));
    }
}

// ---------------------------------------------------------------------------
// Laws of the statements
// ---------------------------------------------------------------------------

/// A column of the table that a sighting fills with a parameter of its own, with what
/// a row has in it.
pub open spec fn filled_column(k: int, row: JobView) -> (Seq<char>, Option<Seq<char>>) {
    if k == 0 {
        ("source"@, Some(row.source))
    } else if k == 1 {
        ("external_id"@, Some(row.external_id))
    } else if k == 2 {
        ("title"@, Some(row.title))
    } else if k == 3 {
        ("company"@, Some(row.company))
    } else if k == 4 {
        ("location"@, row.location)
    } else if k == 5 {
        ("salary"@, row.salary)
    } else if k == 6 {
        ("description"@, row.description)
    } else if k == 7 {
        ("url"@, Some(row.url))
    } else if k == 8 {
        ("published_at"@, row.published_at)
    } else if k == 9 {
        ("platform_updated_at"@, row.platform_updated_at)
    } else if k == 10 {
        ("fetch_state"@, Some(row.fetch_state))
    } else {
        ("last_seen_at"@, row.last_seen_at)
    }
}

/// The names of the columns that a sighting fills with parameters of their own, with
/// commas between them.
pub open spec fn filled_columns(n: int) -> Seq<char>
    decreases n,
{
    if n <= 1 {
        "source"@
    } else {
        filled_columns(n - 1) + ","@ + filled_column(n - 1, arbitrary()).0
    }
}

/// The parameters of a sighting are what the row of the posting has in the columns
/// that they fill: on a table without the posting, running the statement leaves the
/// row of one sighting, with the posting's own title, company, address and so on.
pub proof fn law_parameters_fill_the_columns(
    source: Seq<char>,
    job: JobView,
    run_at: Seq<char>,
    k: int,
)
    requires
        0 <= k < 12,
    ensures
        ({
            let statement = statement_of(Change::See { source, job, run_at });
            let row = row_after_sighting(None, source, job, run_at);
            &&& statement.sql == UPSERT@
            &&& statement.params.len() == 12
            &&& statement.params[k] == filled_column(k, row).1
        }),
{
}

/// The statement of a sighting fills the columns in the order of its parameters, has
/// the older columns for place and pay follow the newer ones, and, where the row is
/// there, overwrites all of it but the description, where none came, the time of the
/// first sighting, and the count, which grows by one.
pub proof fn law_the_sighting_statement_names_its_columns()
    ensures
        UPSERT@ == "INSERT INTO jobs("@ + filled_columns(11)
            + ",work_site,annual_salary,last_updated,first_seen_at,last_seen_at,seen_count) VALUES(?1,?2,?3,?4,?5,?6,?7,?8,?9,?10,?11,?5,?6,COALESCE(?10,?9),?12,?12,1) ON CONFLICT(source,external_id) DO UPDATE SET "@
            + "title=excluded.title,company=excluded.company,location=excluded.location,salary=excluded.salary,description=COALESCE(excluded.description,jobs.description),url=excluded.url,"@
            + "published_at=excluded.published_at,platform_updated_at=excluded.platform_updated_at,fetch_state=excluded.fetch_state,work_site=excluded.work_site,annual_salary=excluded.annual_salary,last_updated=excluded.last_updated,"@
            + "first_seen_at=COALESCE(jobs.first_seen_at,excluded.first_seen_at),last_seen_at=excluded.last_seen_at,seen_count=COALESCE(jobs.seen_count,0)+1"@,
{
    reveal_strlit("INSERT INTO jobs(source,external_id,title,company,location,salary,description,url,published_at,platform_updated_at,fetch_state,work_site,annual_salary,last_updated,first_seen_at,last_seen_at,seen_count) VALUES(?1,?2,?3,?4,?5,?6,?7,?8,?9,?10,?11,?5,?6,COALESCE(?10,?9),?12,?12,1) ON CONFLICT(source,external_id) DO UPDATE SET title=excluded.title,company=excluded.company,location=excluded.location,salary=excluded.salary,description=COALESCE(excluded.description,jobs.description),url=excluded.url,published_at=excluded.published_at,platform_updated_at=excluded.platform_updated_at,fetch_state=excluded.fetch_state,work_site=excluded.work_site,annual_salary=excluded.annual_salary,last_updated=excluded.last_updated,first_seen_at=COALESCE(jobs.first_seen_at,excluded.first_seen_at),last_seen_at=excluded.last_seen_at,seen_count=COALESCE(jobs.seen_count,0)+1");
    reveal_strlit("INSERT INTO jobs(");
    reveal_strlit(",work_site,annual_salary,last_updated,first_seen_at,last_seen_at,seen_count) VALUES(?1,?2,?3,?4,?5,?6,?7,?8,?9,?10,?11,?5,?6,COALESCE(?10,?9),?12,?12,1) ON CONFLICT(source,external_id) DO UPDATE SET ");
    reveal_strlit("title=excluded.title,company=excluded.company,location=excluded.location,salary=excluded.salary,description=COALESCE(excluded.description,jobs.description),url=excluded.url,");
    reveal_strlit("published_at=excluded.published_at,platform_updated_at=excluded.platform_updated_at,fetch_state=excluded.fetch_state,work_site=excluded.work_site,annual_salary=excluded.annual_salary,last_updated=excluded.last_updated,");
    reveal_strlit("first_seen_at=COALESCE(jobs.first_seen_at,excluded.first_seen_at),last_seen_at=excluded.last_seen_at,seen_count=COALESCE(jobs.seen_count,0)+1");
    reveal_strlit("source,external_id,title,company,location,salary,description,url,published_at,platform_updated_at,fetch_state");
    lemma_filled_columns();
    assert(UPSERT@ =~= "INSERT INTO jobs("@
        + "source,external_id,title,company,location,salary,description,url,published_at,platform_updated_at,fetch_state"@
        + ",work_site,annual_salary,last_updated,first_seen_at,last_seen_at,seen_count) VALUES(?1,?2,?3,?4,?5,?6,?7,?8,?9,?10,?11,?5,?6,COALESCE(?10,?9),?12,?12,1) ON CONFLICT(source,external_id) DO UPDATE SET "@
        + "title=excluded.title,company=excluded.company,location=excluded.location,salary=excluded.salary,description=COALESCE(excluded.description,jobs.description),url=excluded.url,"@
        + "published_at=excluded.published_at,platform_updated_at=excluded.platform_updated_at,fetch_state=excluded.fetch_state,work_site=excluded.work_site,annual_salary=excluded.annual_salary,last_updated=excluded.last_updated,"@
        + "first_seen_at=COALESCE(jobs.first_seen_at,excluded.first_seen_at),last_seen_at=excluded.last_seen_at,seen_count=COALESCE(jobs.seen_count,0)+1"@);
}

/// The names of the first eleven columns.
proof fn lemma_filled_columns()
    ensures
        filled_columns(11)
            == "source,external_id,title,company,location,salary,description,url,published_at,platform_updated_at,fetch_state"@,
{
    reveal_with_fuel(filled_columns, 12);
    reveal_strlit(",");
    reveal_strlit("source");
    reveal_strlit("external_id");
    reveal_strlit("title");
    reveal_strlit("company");
    reveal_strlit("location");
    reveal_strlit("salary");
    reveal_strlit("description");
    reveal_strlit("url");
    reveal_strlit("published_at");
    reveal_strlit("platform_updated_at");
    reveal_strlit("fetch_state");
    reveal_strlit("source,external_id,title,company,location,salary,description,url,published_at,platform_updated_at,fetch_state");
    assert(filled_columns(11)
        =~= "source,external_id,title,company,location,salary,description,url,published_at,platform_updated_at,fetch_state"@);
}

/// A row behind a sighting says what the posting says, under the run's source; it
/// keeps its description where none came and the time of its first sighting, and
/// counts one sighting more.
pub proof fn law_a_row_says_what_its_posting_says(
    earlier: Option<JobView>,
    source: Seq<char>,
    job: JobView,
    run_at: Seq<char>,
)
    ensures
        ({
            let row = row_after_sighting(earlier, source, job, run_at);
            &&& row.source == source
            &&& row.external_id == job.external_id
            &&& row.title == job.title
            &&& row.company == job.company
            &&& row.location == job.location
            &&& row.salary == job.salary
            &&& row.url == job.url
            &&& row.published_at == job.published_at
            &&& row.platform_updated_at == job.platform_updated_at
            &&& row.fetch_state == job.fetch_state
            &&& job.description is Some || earlier is None ==> row.description == job.description
            &&& job.description is None && earlier is Some ==> row.description
                == earlier->0.description
            &&& row.last_seen_at == Some(run_at)
            &&& earlier is Some && earlier->0.first_seen_at is Some ==> row.first_seen_at
                == earlier->0.first_seen_at
            &&& earlier is None || earlier->0.first_seen_at is None ==> row.first_seen_at == Some(
                run_at,
            )
            &&& earlier is None ==> row.seen_count == 1
            &&& earlier is Some ==> row.seen_count == earlier->0.seen_count + 1
        }),
{
}

/// A run sees each of its postings once, in order, and only then deletes: all postings
/// of its source that it does not name, where it may delete at all.
pub proof fn law_a_run_sees_and_then_deletes(
    source: Seq<char>,
    jobs: Seq<JobView>,
    ids: Seq<Seq<char>>,
    allow_deletions: bool,
    run_at: Seq<char>,
)
    ensures
        ({
            let changes = run_changes(source, jobs, ids, allow_deletions, run_at);
            let seen = first_jobs(jobs);
            &&& forall|i: int|
                0 <= i < seen.len() ==> #[trigger] changes[i] == (Change::See {
                    source,
                    job: seen[i],
                    run_at,
                })
            &&& !allow_deletions ==> changes.len() == seen.len()
            &&& allow_deletions ==> changes.len() == seen.len() + 1
            &&& allow_deletions && ids.len() == 0 ==> changes.last() == (Change::Clear { source })
            &&& allow_deletions && ids.len() > 0 ==> changes.last() == (Change::Keep { source, ids })
            &&& statements_of(changes).len() == changes.len()
            &&& forall|i: int|
                0 <= i < changes.len() ==> #[trigger] statements_of(changes)[i] == statement_of(
                    changes[i],
                )
        }),
{
}

/// Of postings with the same identity the first is kept, where it stands.
pub proof fn law_the_first_entry_of_a_posting_counts(jobs: Seq<JobView>, job: JobView)
    ensures
        first_jobs(Seq::empty()) == Seq::<JobView>::empty(),
        has_job(jobs, job.external_id) ==> first_jobs(jobs.push(job)) == first_jobs(jobs),
        !has_job(jobs, job.external_id) ==> first_jobs(jobs.push(job)) == first_jobs(jobs).push(job),
        has_job(jobs, job.external_id) <==> exists|i: int|
            0 <= i < jobs.len() && (#[trigger] jobs[i]).external_id == job.external_id,
{
    assert(jobs.push(job).drop_last() =~= jobs);
    lemma_first_jobs(jobs);
}

/// The statement of a deletion names the source and each identity that is kept, and has
/// a mark for each of them.
pub proof fn law_deletions_name_what_is_kept(source: Seq<char>, ids: Seq<Seq<char>>, i: int)
    requires
        0 <= i < ids.len(),
    ensures
        ({
            let clear = statement_of(Change::Clear { source });
            let keep = statement_of(Change::Keep { source, ids });
            &&& clear.sql == "DELETE FROM jobs WHERE source=?"@
            &&& clear.params == seq![Some(source)]
            &&& keep.sql == "DELETE FROM jobs WHERE source=? AND external_id NOT IN ("@ + marks(
                ids.len(),
            ) + ")"@
            &&& keep.params.len() == ids.len() + 1
            &&& keep.params[0] == Some(source)
            &&& keep.params[i + 1] == Some(ids[i])
            &&& marks(1) == "?"@
            &&& marks(ids.len() + 1) == marks(ids.len()) + ","@ + "?"@
        }),
{
    let n = ids.len();
    let one = Seq::new(1, |j: int| "?"@);
    let some = Seq::new(n, |j: int| "?"@);
    let more = Seq::new(n + 1, |j: int| "?"@);
    assert(join(one, ","@) == one[0]);
    assert(more.drop_last() =~= some);
}

/// The statements that read the table read its columns in the order of a posting's
/// fields, with place and pay from the older columns where these are filled, and of the
/// source 104 only where that is asked for.
pub proof fn law_reading_statements_name_their_columns()
    ensures
        LOAD_104@ == LOAD_ALL@ + " WHERE source='104'"@,
        LOAD_ALL@
            == "SELECT source,external_id,title,company,COALESCE(work_site,location),COALESCE(annual_salary,salary),description,url,published_at,platform_updated_at,fetch_state,first_seen_at,last_seen_at,seen_count FROM jobs"@,
        LIST_COLUMNS@ == "SELECT name FROM pragma_table_info('jobs')"@,
        FILL_TRACKING@
            == "UPDATE jobs SET first_seen_at=COALESCE(NULLIF(first_seen_at,''),CURRENT_TIMESTAMP), last_seen_at=COALESCE(NULLIF(last_seen_at,''),CURRENT_TIMESTAMP), seen_count=COALESCE(NULLIF(seen_count,0),1)"@,
{
    reveal_strlit(" WHERE source='104'");
    reveal_strlit("SELECT source,external_id,title,company,COALESCE(work_site,location),COALESCE(annual_salary,salary),description,url,published_at,platform_updated_at,fetch_state,first_seen_at,last_seen_at,seen_count FROM jobs");
    reveal_strlit("SELECT source,external_id,title,company,COALESCE(work_site,location),COALESCE(annual_salary,salary),description,url,published_at,platform_updated_at,fetch_state,first_seen_at,last_seen_at,seen_count FROM jobs WHERE source='104'");
    assert(LOAD_104@ =~= LOAD_ALL@ + " WHERE source='104'"@);
}

/// The statements that bring a table up to date add each missing column, under its own
/// name and type, and then fill the tracking.
pub proof fn law_missing_columns_are_added(existing: Seq<Seq<char>>, i: int)
    requires
        0 <= i < ADDED_COLUMNS,
    ensures
        ({
            let changes = schema_changes(existing);
            &&& changes.contains(SchemaChange::AddColumn(i)) <==> !is_among(
                existing,
                added_column(i).0,
            )
            &&& changes.last() is FillTracking
            &&& schema_statement(SchemaChange::AddColumn(i)) == "ALTER TABLE jobs ADD COLUMN "@
                + added_column(i).0 + " "@ + added_column(i).1
            &&& schema_statement(SchemaChange::FillTracking) == FILL_TRACKING@
        }),
        added_column(0) == ("work_site"@, "TEXT"@),
        added_column(1) == ("annual_salary"@, "TEXT"@),
        added_column(2) == ("last_updated"@, "TEXT"@),
        added_column(3) == ("description"@, "TEXT"@),
        added_column(4) == ("platform_updated_at"@, "TEXT"@),
        added_column(5) == ("fetch_state"@, "TEXT NOT NULL DEFAULT 'Complete'"@),
        added_column(6) == ("first_seen_at"@, "TEXT"@),
        added_column(7) == ("last_seen_at"@, "TEXT"@),
        added_column(8) == ("seen_count"@, "INTEGER NOT NULL DEFAULT 1"@),
{
    lemma_additions_of(existing, ADDED_COLUMNS as int, i);
    let additions = column_additions(existing, ADDED_COLUMNS as int);
    let changes = schema_changes(existing);
    if additions.contains(SchemaChange::AddColumn(i)) {
        let k = choose|k: int| 0 <= k < additions.len() && additions[k] == SchemaChange::AddColumn(i);
        assert(changes[k] == SchemaChange::AddColumn(i));
    }
    if changes.contains(SchemaChange::AddColumn(i)) {
        let k = choose|k: int| 0 <= k < changes.len() && changes[k] == SchemaChange::AddColumn(i);
        assert(additions[k] == SchemaChange::AddColumn(i));
    }
}

/// Which of the first columns are added.
proof fn lemma_additions_of(existing: Seq<Seq<char>>, n: int, i: int)
    requires
        0 <= i,
    ensures
        column_additions(existing, n).contains(SchemaChange::AddColumn(i)) <==> i < n && !is_among(
            existing,
            added_column(i).0,
        ),
    decreases n,
{
    if n > 0 {
        let before = column_additions(existing, n - 1);
        let after = column_additions(existing, n);
        lemma_additions_of(existing, n - 1, i);
        if before.contains(SchemaChange::AddColumn(i)) {
            let k = choose|k: int| 0 <= k < before.len() && before[k] == SchemaChange::AddColumn(i);
            assert(after[k] == SchemaChange::AddColumn(i));
        }
        if after.contains(SchemaChange::AddColumn(i)) && i != n - 1 {
            let k = choose|k: int| 0 <= k < after.len() && after[k] == SchemaChange::AddColumn(i);
            assert(before[k] == SchemaChange::AddColumn(i));
        }
        if i == n - 1 && !is_among(existing, added_column(i).0) {
            assert(after[before.len() as int] == SchemaChange::AddColumn(i));
        }
    }
}

/// A statement says what each of its fields holds.
pub proof fn law_a_statement_says_what_it_holds(x: Statement)
    ensures
        x@.sql == x.sql@,
        x@.params == param_views(x.params@),
{
}

} // verus!
