use job_watcher::change::{change_record, changed_fields};
use job_watcher::job::JobListing;
use job_watcher::line::command_for;
use job_watcher::listing::is_challenge_page;
use job_watcher::report::{gmail_body, gmail_subject};
use job_watcher::store;
use job_watcher::store::{ensure_schema, persist_state};
use job_watcher::summary::SyncSummary;
use rusqlite::Connection;

const SOURCE: &str = "104";

fn sample() -> JobListing {
    JobListing {
        source: "104".into(),
        external_id: "abc".into(),
        title: "Rust".into(),
        company: "Co".into(),
        location: Some("Taipei".into()),
        salary: Some("100".into()),
        description: Some("JD".into()),
        url: "https://www.104.com.tw/job/abc".into(),
        published_at: Some("8/16".into()),
        platform_updated_at: None,
        fetch_state: "Complete".into(),
        first_seen_at: None,
        last_seen_at: None,
        seen_count: 0,
    }
}

#[test]
fn whitespace_only_description_is_unchanged() {
    let mut a = sample();
    let mut b = a.clone();
    a.description = Some("a\n b".into());
    b.description = Some(" a  b ".into());
    assert!(changed_fields(&a, &b).is_empty());
}

#[test]
fn changed_salary_is_reported() {
    let a = sample();
    let mut b = a.clone();
    b.salary = Some("200".into());
    assert_eq!(changed_fields(&a, &b), vec!["salary"]);
}

#[test]
fn challenge_pages_are_rejected() {
    assert!(is_challenge_page("Just a moment...", "challenge-platform"));
    assert!(!is_challenge_page("104", "data-job-no=abc"));
}

#[test]
fn line_commands_are_exact_and_unknown_text_is_ignored() {
    assert_eq!(command_for("更新JD"), Some("update"));
    assert_eq!(command_for(" 今日履歷 "), Some("today"));
    assert_eq!(command_for("url"), None);
    assert_eq!(command_for("更新JD now"), None);
    assert_eq!(command_for("hello"), None);
}

#[test]
fn gmail_format_uses_taipei_date_and_counts_only() {
    let summary = SyncSummary {
        date: "2026-08-19".into(),
        new: vec![change_record("new", &sample(), Vec::new(), None)],
        updated: vec![change_record(
            "updated",
            &sample(),
            vec!["salary".into()],
            None,
        )],
        ..Default::default()
    };
    assert_eq!(gmail_subject(&summary).unwrap(), "2026/08/19 JD更新");
    assert_eq!(gmail_body(&summary), "新增：1\n更新：1\n刪除：0");
}

/// Brings the table up to date, as the program does.
fn migrate(c: &Connection) {
    c.execute_batch(store::CREATE_TABLE).unwrap();
    let names: Vec<String> = c
        .prepare(store::LIST_COLUMNS)
        .unwrap()
        .query_map([], |row| row.get(0))
        .unwrap()
        .map(|name| name.unwrap())
        .collect();
    for statement in ensure_schema(&names) {
        c.execute(&statement, []).unwrap();
    }
}

/// Keeps postings, as the program does.
fn persist(
    c: &mut Connection,
    source: &str,
    jobs: &[JobListing],
    ids: &[&str],
    allow_deletions: bool,
    run_at: &str,
) {
    migrate(c);
    let ids: Vec<String> = ids.iter().map(|id| id.to_string()).collect();
    let tx = c.transaction().unwrap();
    for statement in persist_state(source, &jobs.to_vec(), &ids, allow_deletions, run_at) {
        tx.execute(
            &statement.sql,
            rusqlite::params_from_iter(statement.params.iter()),
        )
        .unwrap();
    }
    tx.commit().unwrap();
}

fn load(c: &Connection, query: &str) -> Vec<JobListing> {
    c.prepare(query)
        .unwrap()
        .query_map([], |row| {
            Ok(JobListing {
                source: row.get(0)?,
                external_id: row.get(1)?,
                title: row.get(2)?,
                company: row.get(3)?,
                location: row.get(4)?,
                salary: row.get(5)?,
                description: row.get(6)?,
                url: row.get(7)?,
                published_at: row.get(8)?,
                platform_updated_at: row.get(9)?,
                fetch_state: row.get(10)?,
                first_seen_at: row.get(11)?,
                last_seen_at: row.get(12)?,
                seen_count: row.get(13)?,
            })
        })
        .unwrap()
        .map(|job| job.unwrap())
        .collect()
}

fn tracking(c: &Connection, source: &str, external_id: &str) -> (String, String, i64) {
    c.query_row(
        "SELECT first_seen_at,last_seen_at,seen_count FROM jobs WHERE source=?1 AND external_id=?2",
        [source, external_id],
        |row| Ok((row.get(0)?, row.get(1)?, row.get(2)?)),
    )
    .unwrap()
}

#[test]
fn persistence_and_delete_are_transactional() {
    let mut c = Connection::open_in_memory().unwrap();
    let a = sample();
    persist(
        &mut c,
        SOURCE,
        std::slice::from_ref(&a),
        &["abc"],
        true,
        "2026-08-23T07:00:00+08:00",
    );
    assert_eq!(load(&c, store::LOAD_104).len(), 1);
    let mut linkedin = a.clone();
    linkedin.source = "linkedin".into();
    persist(
        &mut c,
        "linkedin",
        std::slice::from_ref(&linkedin),
        &["abc"],
        false,
        "2026-08-23T07:00:00+08:00",
    );
    assert_eq!(load(&c, store::LOAD_ALL).len(), 2);
    persist(
        &mut c,
        SOURCE,
        &[],
        &[],
        true,
        "2026-08-24T07:00:00+08:00",
    );
    assert!(load(&c, store::LOAD_104).is_empty());
    assert_eq!(load(&c, store::LOAD_ALL).len(), 1);
}

#[test]
fn seen_tracking_uses_first_observation_time_and_counts_distinct_runs() {
    let mut c = Connection::open_in_memory().unwrap();
    let mut job = sample();
    job.published_at = Some("2026-08-20T00:00:00+08:00".into());
    persist(
        &mut c,
        SOURCE,
        &[job.clone(), job.clone()],
        &["abc"],
        false,
        "2026-08-23T07:00:00+08:00",
    );
    assert_eq!(
        tracking(&c, SOURCE, &job.external_id),
        (
            "2026-08-23T07:00:00+08:00".into(),
            "2026-08-23T07:00:00+08:00".into(),
            1
        )
    );
    persist(
        &mut c,
        SOURCE,
        std::slice::from_ref(&job),
        &["abc"],
        false,
        "2026-08-25T07:00:00+08:00",
    );
    assert_eq!(
        tracking(&c, SOURCE, &job.external_id),
        (
            "2026-08-23T07:00:00+08:00".into(),
            "2026-08-25T07:00:00+08:00".into(),
            2
        )
    );
}

#[test]
fn legacy_jobs_receive_tracking_defaults_without_resetting_published_history() {
    let c = Connection::open_in_memory().unwrap();
    c.execute_batch("CREATE TABLE jobs (source TEXT NOT NULL, external_id TEXT NOT NULL, title TEXT NOT NULL, company TEXT NOT NULL, location TEXT, salary TEXT, description TEXT, url TEXT NOT NULL, published_at TEXT, platform_updated_at TEXT, fetch_state TEXT NOT NULL DEFAULT 'Complete', work_site TEXT, annual_salary TEXT, last_updated TEXT, PRIMARY KEY(source, external_id)); INSERT INTO jobs(source,external_id,title,company,url,published_at) VALUES('linkedin','legacy','Old','Company','https://www.linkedin.com/jobs/view/legacy/','2026-08-20');")
        .unwrap();
    migrate(&c);
    let state = tracking(&c, "linkedin", "legacy");
    assert!(!state.0.is_empty());
    assert!(!state.1.is_empty());
    assert_eq!(state.2, 1);
}

#[test]
fn seen_tracking_needs_no_published_time() {
    let mut c = Connection::open_in_memory().unwrap();
    let mut job = sample();
    job.external_id = "no-published-date".into();
    job.published_at = None;
    persist(
        &mut c,
        SOURCE,
        std::slice::from_ref(&job),
        &["no-published-date"],
        false,
        "2026-08-23T07:00:00+08:00",
    );
    assert_eq!(
        tracking(&c, SOURCE, &job.external_id),
        (
            "2026-08-23T07:00:00+08:00".into(),
            "2026-08-23T07:00:00+08:00".into(),
            1
        )
    );
}

#[test]
fn a_missing_description_does_not_replace_a_stored_one() {
    let mut c = Connection::open_in_memory().unwrap();
    let mut job = sample();
    persist(&mut c, SOURCE, std::slice::from_ref(&job), &["abc"], true, "t1");
    job.description = None;
    job.title = "Rust 2".into();
    job.salary = None;
    persist(&mut c, SOURCE, std::slice::from_ref(&job), &["abc"], true, "t2");
    let rows = load(&c, store::LOAD_ALL);
    assert_eq!(rows.len(), 1);
    assert_eq!(rows[0].title, "Rust 2");
    assert_eq!(rows[0].description.as_deref(), Some("JD"));
    assert_eq!(rows[0].salary, None);
    assert_eq!(rows[0].first_seen_at.as_deref(), Some("t1"));
    assert_eq!(rows[0].last_seen_at.as_deref(), Some("t2"));
    assert_eq!(rows[0].seen_count, 2);
}

#[test]
fn only_what_is_named_is_left_of_a_source() {
    let mut c = Connection::open_in_memory().unwrap();
    let named = |id: &str| {
        let mut job = sample();
        job.external_id = id.into();
        job
    };
    persist(&mut c, SOURCE, &[named("a"), named("b"), named("c")], &["a", "b", "c"], true, "t1");
    persist(&mut c, "linkedin", &[named("z")], &["z"], false, "t1");
    persist(&mut c, SOURCE, &[named("b"), named("d")], &["b", "d"], true, "t2");
    let mut ids: Vec<(String, String)> = load(&c, store::LOAD_ALL)
        .into_iter()
        .map(|job| (job.source, job.external_id))
        .collect();
    ids.sort();
    let expected: Vec<(String, String)> = [("104", "b"), ("104", "d"), ("linkedin", "z")]
        .iter()
        .map(|(a, b)| (a.to_string(), b.to_string()))
        .collect();
    assert_eq!(ids, expected);
}

#[test]
fn columns_are_added_where_they_are_missing() {
    let existing: Vec<String> = ["work_site", "annual_salary", "last_updated", "description", "platform_updated_at", "first_seen_at", "last_seen_at"]
        .iter()
        .map(|name| name.to_string())
        .collect();
    assert_eq!(
        ensure_schema(&existing),
        vec![
            "ALTER TABLE jobs ADD COLUMN fetch_state TEXT NOT NULL DEFAULT 'Complete'",
            "ALTER TABLE jobs ADD COLUMN seen_count INTEGER NOT NULL DEFAULT 1",
            store::FILL_TRACKING,
        ]
    );
}

#[test]
fn all_kinds_of_white_space_count_the_same() {
    let mut a = sample();
    let mut b = sample();
    a.location = Some("Taipei\r\nCity".into());
    b.location = Some(" Taipei \u{3000} City\n".into());
    assert!(changed_fields(&a, &b).is_empty());
    b.location = None;
    b.title = "Other".into();
    b.fetch_state = "ParseFailed".into();
    assert_eq!(changed_fields(&a, &b), vec!["title", "location", "fetch_state"]);
    a.location = Some("  ".into());
    a.title = "Other".into();
    a.fetch_state = "ParseFailed".into();
    assert!(changed_fields(&a, &b).is_empty());
}

#[test]
fn a_second_upgrade_changes_nothing() {
    let c = Connection::open_in_memory().unwrap();
    c.execute_batch("CREATE TABLE jobs (source TEXT NOT NULL, external_id TEXT NOT NULL, title TEXT NOT NULL, company TEXT NOT NULL, location TEXT, salary TEXT, url TEXT NOT NULL, published_at TEXT, first_seen_at TEXT, seen_count INTEGER, PRIMARY KEY(source, external_id)); INSERT INTO jobs VALUES('104','a','T','C','L','S','u','2026-08-20','t0',3); INSERT INTO jobs VALUES('104','b','T','C',NULL,NULL,'u',NULL,'',0);")
        .unwrap();
    migrate(&c);
    let once = load(&c, store::LOAD_ALL);
    assert_eq!(once.len(), 2);
    let a = &once[0];
    assert_eq!(a.published_at.as_deref(), Some("2026-08-20"));
    assert_eq!(a.location.as_deref(), Some("L"));
    assert_eq!(a.salary.as_deref(), Some("S"));
    assert_eq!(a.first_seen_at.as_deref(), Some("t0"));
    assert!(a.last_seen_at.as_ref().is_some_and(|time| !time.is_empty()));
    assert_eq!(a.seen_count, 3);
    assert_eq!(a.fetch_state, "Complete");
    assert_eq!(a.description, None);
    let b = &once[1];
    assert!(b.first_seen_at.as_ref().is_some_and(|time| !time.is_empty()));
    assert_eq!(b.seen_count, 1);
    migrate(&c);
    assert_eq!(load(&c, store::LOAD_ALL), once);
}
