use job_watcher::clock::Timestamp;
use job_watcher::job::JobListing;
use job_watcher::service::{run_local_update, run_local_update_all, Service};
use job_watcher::source::acquisition::{Acquired, PageReply};
use job_watcher::source::linkedin::LinkedInAlertSource;
use job_watcher::source::SourceSnapshot;
use job_watcher::batch::JobFileWriter;
use job_watcher::sync::{
    after_search_failed, synchronize_linkedin_only, Event, Fallback, JobUpdateMode, Run, Step,
    SyncError,
};

fn now() -> Timestamp {
    let at = chrono::DateTime::parse_from_rfc3339("2026-08-19T06:30:00+08:00").unwrap();
    Timestamp {
        seconds: at.timestamp(),
        nanos: 0,
    }
}

fn posting(source: &str, id: &str) -> JobListing {
    JobListing {
        source: source.into(),
        external_id: id.into(),
        title: format!("T{id}"),
        company: "Co".into(),
        location: None,
        salary: None,
        description: Some("card".into()),
        url: format!("u{id}"),
        published_at: None,
        platform_updated_at: None,
        fetch_state: "Complete".into(),
        first_seen_at: None,
        last_seen_at: None,
        seen_count: 0,
    }
}

fn row(source: &str, id: &str) -> JobListing {
    let mut job = posting(source, id);
    job.description = Some(format!("JD{id}"));
    job.first_seen_at = Some("t0".into());
    job.last_seen_at = Some("t0".into());
    job.seen_count = 3;
    job
}

fn start(trigger: &str, mode: JobUpdateMode) -> Step {
    Step::OpenSearch(Run::start(trigger, mode, true, &now()))
}

fn shown() -> Event {
    Event::SearchShown {
        title: "104".into(),
        html: "data-job-no".into(),
    }
}

/// The step behind the last page of a search.
fn searched(mode: JobUpdateMode, known: Vec<JobListing>, found: Vec<JobListing>) -> Step {
    start("manual", mode)
        .next(shown())
        .next(Event::PagesCounted(1))
        .next(Event::RowsLoaded(known))
        .next(Event::PageRead(found))
}

#[test]
fn searches_that_are_not_believed_are_refused() {
    let challenge = start("manual", JobUpdateMode::Changed).next(Event::SearchShown {
        title: " just a moment... ".into(),
        html: String::new(),
    });
    assert!(matches!(challenge, Step::Refused(SyncError::Challenge)));
    assert!(matches!(
        challenge.next(Event::Persisted),
        Step::Refused(SyncError::Challenge)
    ));
    let many = start("manual", JobUpdateMode::Changed)
        .next(shown())
        .next(Event::PagesCounted(151));
    assert!(matches!(many, Step::Refused(SyncError::UnsafePageCount(151))));
    let none = start("manual", JobUpdateMode::Changed)
        .next(shown())
        .next(Event::PagesCounted(0))
        .next(Event::RowsLoaded(Vec::new()));
    assert!(matches!(none, Step::Refused(SyncError::NoCards)));
    let empty = searched(JobUpdateMode::Changed, Vec::new(), Vec::new());
    assert!(matches!(empty, Step::Refused(SyncError::EmptyPage(1))));
    assert_eq!(
        SyncError::UnsafePageCount(151).message(),
        "104 reported an unsafe page count: 151"
    );
    assert_eq!(
        SyncError::EmptyPage(2).message(),
        "104 page 2 returned no cards; refusing an incomplete result set"
    );
    assert!(SyncError::Challenge.message().contains("Cloudflare"));
    assert!(SyncError::NoCards.message().contains("no job cards"));
}

#[test]
fn pages_are_read_one_after_the_other() {
    let step = start("manual", JobUpdateMode::Changed)
        .next(shown())
        .next(Event::PagesCounted(2))
        .next(Event::RowsLoaded(Vec::new()));
    let Step::ReadPage(pages) = &step else { panic!("first page") };
    let first = pages.request();
    assert_eq!((first.page, first.open), (1, false));
    let step = step.next(Event::PageRead(vec![posting("104", "a"), posting("104", "a")]));
    let Step::ReadPage(pages) = &step else { panic!("second page") };
    let second = pages.request();
    assert!(second.open);
    assert!(second.url.ends_with("&order=16&page=2"));
    let step = step.next(Event::PageRead(vec![posting("104", "b"), posting("104", "a")]));
    let Step::OpenBatches(work) = &step else { panic!("all pages") };
    let ids: Vec<&str> = work.jobs.iter().map(|job| job.external_id.as_str()).collect();
    assert_eq!(ids, vec!["a", "b"]);
}

#[test]
fn pages_of_known_postings_are_opened_only_when_called_for() {
    let mut moved = posting("104", "m");
    moved.location = Some("Tainan".into());
    let known = vec![row("104", "k"), row("104", "m")];
    let found = vec![posting("104", "k"), moved, posting("104", "n")];
    let step = searched(JobUpdateMode::Changed, known, found).next(Event::BatchesOpened(false));
    let Step::FetchDetail(work) = &step else { panic!("changed posting") };
    assert_eq!(work.current.len(), 1);
    assert_eq!(work.current[0].description.as_deref(), Some("JDk"));
    assert_eq!(work.next_job().unwrap().external_id, "m");
    let step = step.next(Event::DetailRead(Some(String::new())));
    let Step::FetchDetail(work) = &step else { panic!("new posting") };
    assert_eq!(work.current[1].description.as_deref(), Some("JDm"));
    let step = step.next(Event::DetailRead(None));
    let Step::AcquireLinkedIn(outcome) = &step else { panic!("all postings") };
    assert_eq!(outcome.current[2].description, None);
    assert_eq!(outcome.summary.new.len(), 1);
    assert_eq!(outcome.summary.updated.len(), 1);
    assert_eq!(outcome.summary.updated[0].changed_fields, vec!["location"]);
    assert_eq!(outcome.summary.updated[0].seen_count, 4);
    assert_eq!(outcome.summary.updated[0].first_seen_at.as_deref(), Some("t0"));
    assert!(outcome.summary.deleted.is_empty());
    let all = searched(JobUpdateMode::All, vec![row("104", "k")], vec![posting("104", "k")])
        .next(Event::BatchesOpened(false));
    assert!(matches!(all, Step::FetchDetail(_)));
}

#[test]
fn files_hold_ten_postings() {
    let found: Vec<JobListing> = (0..12).map(|i| posting("104", &i.to_string())).collect();
    let mut step = searched(JobUpdateMode::Changed, Vec::new(), found).next(Event::BatchesOpened(true));
    let mut written = Vec::new();
    loop {
        step = match step {
            Step::FetchDetail(_) => step.next(Event::DetailRead(Some("text".into()))),
            Step::WriteBatch(ref work) => {
                let file = work.writer.as_ref().unwrap().pending().unwrap();
                written.push((file.folder, file.name, file.jobs.len()));
                step.next(Event::BatchWritten(true))
            }
            other => {
                step = other;
                break;
            }
        };
    }
    assert_eq!(
        written,
        vec![("08-19".to_string(), "jd-20260819T0630000800-001.json".to_string(), 10)]
    );
    let Step::AcquireLinkedIn(outcome) = step else { panic!("all postings") };
    let rest = outcome.writer.unwrap().pending().unwrap();
    assert_eq!(rest.name, "jd-20260819T0630000800-002.json");
    assert_eq!(rest.jobs.len(), 2);
}

#[test]
fn a_file_that_fails_ends_the_files() {
    let found: Vec<JobListing> = (0..11).map(|i| posting("104", &i.to_string())).collect();
    let mut step = searched(JobUpdateMode::Changed, Vec::new(), found).next(Event::BatchesOpened(true));
    for _ in 0..10 {
        step = step.next(Event::DetailRead(Some("text".into())));
    }
    assert!(matches!(step, Step::WriteBatch(_)));
    let step = step.next(Event::BatchWritten(false)).next(Event::DetailRead(None));
    let Step::AcquireLinkedIn(outcome) = step else { panic!("all postings") };
    assert!(outcome.writer.is_none());
    assert_eq!(outcome.current.len(), 11);
}

fn snapshot(jobs: Vec<JobListing>) -> SourceSnapshot {
    SourceSnapshot {
        source: "linkedin".into(),
        jobs,
        processed_message_ids: vec!["m".into()],
        allow_deletions: false,
    }
}

fn read(jobs: Vec<JobListing>, known: Vec<JobListing>) -> Acquired {
    Acquired { snapshot: snapshot(jobs), known, complete: true }
}

#[test]
fn stored_alerts_are_not_asked_for_in_a_run() {
    let source = LinkedInAlertSource::from_env(Some("on".into()), None).unwrap();
    let messages = vec![(
        "m".to_string(),
        "https://www.linkedin.com/jobs/view/1/ https://www.linkedin.com/jobs/view/2/".to_string(),
    )];
    let stored = row("linkedin", "1");
    let mut reading = source.acquire_with_known(&messages, vec![row("104", "2"), stored.clone()]);
    let mut asked = Vec::new();
    while let Some(request) = reading.next_request() {
        asked.push(request.url);
        reading.accept(&PageReply::Nothing, &now());
    }
    assert_eq!(asked, vec!["https://www.linkedin.com/jobs/view/2/"]);
    let read = reading.finish();
    assert_eq!(read.known.len(), 2);
    let step = searched(JobUpdateMode::Changed, Vec::new(), vec![posting("104", "a")])
        .next(Event::BatchesOpened(false))
        .next(Event::DetailRead(None))
        .next(Event::LinkedInRead(read));
    let Step::PersistLinkedIn(merge) = step else { panic!("merged") };
    let kept = &merge.snapshot.jobs[0];
    assert_eq!(kept.last_seen_at, Some(merge.before.run.generated_at.clone()));
    assert_eq!(kept.seen_count, stored.seen_count + 1);
    let again = JobListing {
        last_seen_at: stored.last_seen_at.clone(),
        seen_count: stored.seen_count,
        ..kept.clone()
    };
    assert_eq!(again, stored);
    let ids = |records: &Vec<job_watcher::change::ChangeRecord>| {
        records.iter().map(|r| r.external_id.clone()).collect::<Vec<_>>()
    };
    assert_eq!(ids(&merge.merged.new), vec!["a", "2"]);
    assert_eq!(ids(&merge.merged.updated), vec!["1"]);
}

#[test]
fn linkedin_postings_join_what_is_kept() {
    let rows = vec![row("104", "gone"), row("linkedin", "1"), row("linkedin", "9")];
    let step = searched(JobUpdateMode::Changed, vec![row("104", "gone")], vec![posting("104", "a")])
        .next(Event::BatchesOpened(false))
        .next(Event::DetailRead(Some("JD".into())))
        .next(Event::LinkedInRead(read(
            vec![row("linkedin", "1"), posting("linkedin", "2")],
            rows,
        )));
    let Step::PersistLinkedIn(merge) = &step else { panic!("merged") };
    let statements = merge.statements();
    assert_eq!(statements.len(), 2);
    assert!(statements.iter().all(|s| s.sql.starts_with("INSERT")));
    let kept = step.next(Event::LinkedInPersisted(true));
    let Step::Persist(outcome) = &kept else { panic!("kept") };
    let ids = |records: &Vec<job_watcher::change::ChangeRecord>| {
        records.iter().map(|r| r.external_id.clone()).collect::<Vec<_>>()
    };
    assert_eq!(ids(&outcome.summary.new), vec!["a", "2"]);
    assert_eq!(ids(&outcome.summary.updated), vec!["1"]);
    assert_eq!(ids(&outcome.summary.deleted), vec!["gone"]);
    assert!(outcome.summary.deleted[0].deleted_at.is_some());
    let statements = outcome.statements();
    assert_eq!(statements.len(), 2);
    assert_eq!(
        statements[1].sql,
        "DELETE FROM jobs WHERE source=? AND external_id NOT IN (?)"
    );
    assert_eq!(statements[1].params, vec![Some("104".to_string()), Some("a".to_string())]);
    let mut stored = row("104", "a");
    stored.seen_count = 7;
    let step = kept.next(Event::Persisted).next(Event::RowsLoaded(vec![stored]));
    let Step::SaveList(outcome) = &step else { panic!("list") };
    let list = outcome.job_list();
    assert_eq!(list.len(), 3);
    assert_eq!(list[0].seen_count, 7);
    assert_eq!(list[1].external_id, "1");
    assert_eq!(list[1].seen_count, 4);
}

#[test]
fn linkedin_postings_that_are_not_kept_are_not_told_of() {
    let step = searched(JobUpdateMode::Changed, Vec::new(), vec![posting("104", "a")])
        .next(Event::BatchesOpened(false))
        .next(Event::DetailRead(None))
        .next(Event::LinkedInRead(read(vec![posting("linkedin", "2")], Vec::new())))
        .next(Event::LinkedInPersisted(false));
    let Step::Persist(outcome) = step else { panic!("kept") };
    assert_eq!(outcome.summary.new.len(), 1);
    assert!(outcome.linkedin.is_empty());
}

fn kept(trigger: &str) -> Step {
    start(trigger, JobUpdateMode::Changed)
        .next(shown())
        .next(Event::PagesCounted(1))
        .next(Event::RowsLoaded(Vec::new()))
        .next(Event::PageRead(vec![posting("104", "a")]))
        .next(Event::BatchesOpened(true))
        .next(Event::DetailRead(None))
        .next(Event::LinkedInSkipped)
        .next(Event::Persisted)
        .next(Event::RowsLoaded(Vec::new()))
        .next(Event::ListSaved)
        .next(Event::BatchesFinished)
}

#[test]
fn runs_are_told_of_under_their_headings() {
    for (trigger, heading) in [
        ("scheduled", Some("每日履歷更新\n同步完成\n")),
        ("startup", Some("Job Watcher\n啟動更新完成\n")),
        ("local-cli", Some("Job Watcher\n更新完成\n")),
        ("local-cli-all", Some("Job Watcher\n更新完成\n")),
        ("manual", None),
    ] {
        let step = kept(trigger)
            .next(Event::HistoryAppended("changes/2026-08-19.json".into()))
            .next(Event::HistoryRotated(None));
        let Step::SendEmail(report) = &step else { panic!("mail") };
        assert_eq!(report.summary.export_path.as_deref(), Some("changes/2026-08-19.json"));
        let step = step.next(Event::EmailHandled);
        match (heading, step) {
            (Some(heading), Step::Notify(report)) => {
                assert!(report.notice().unwrap().starts_with(heading));
            }
            (None, Step::Done(summary)) => assert_eq!(summary.date, "2026-08-19"),
            _ => panic!("{trigger}"),
        }
    }
}

#[test]
fn export_errors_are_part_of_the_summary() {
    let failed = kept("manual").next(Event::HistoryFailed("disk".into()));
    let Step::SendEmail(report) = &failed else { panic!("mail") };
    assert_eq!(report.summary.export_error.as_deref(), Some("disk"));
    assert_eq!(report.summary.export_path, None);
    assert_eq!(report.summary.new.len(), 1);
    let rotated = kept("manual")
        .next(Event::HistoryAppended("p".into()))
        .next(Event::HistoryRotated(Some("old".into())));
    let Step::SendEmail(report) = rotated else { panic!("mail") };
    assert_eq!(report.summary.export_error.as_deref(), Some("old"));
}

#[test]
fn answers_to_other_questions_change_nothing() {
    let step = start("manual", JobUpdateMode::Changed).next(Event::Persisted);
    assert!(matches!(step, Step::OpenSearch(_)));
    let done = kept("manual")
        .next(Event::HistoryFailed("x".into()))
        .next(Event::EmailHandled);
    assert!(matches!(done.next(shown()), Step::Done(_)));
}

#[test]
fn linkedin_alone_is_kept_where_the_search_failed() {
    let run = Run::start("manual", JobUpdateMode::Changed, true, &now());
    let step = synchronize_linkedin_only(
        run,
        read(
            vec![row("linkedin", "1"), posting("linkedin", "2")],
            vec![row("linkedin", "1"), row("104", "x")],
        ),
    );
    let Step::PersistFallback(merge) = &step else { panic!("merged") };
    assert_eq!(merge.statements().len(), 2);
    let step = step.next(Event::Persisted);
    let Step::AppendHistory(report) = step else { panic!("history") };
    assert_eq!(report.summary.new.len(), 1);
    assert_eq!(report.summary.updated.len(), 1);
    assert!(report.summary.deleted.is_empty());
    assert!(report.notice().unwrap().starts_with("Job Watcher\n更新完成\n"));
}

#[test]
fn one_run_is_under_way_at_a_time() {
    let mut service = Service::new(None, None).ok().unwrap();
    let Some(Step::OpenSearch(run)) = service.try_synchronize("startup", &now()) else {
        panic!("first run")
    };
    assert_eq!(run.trigger, "startup");
    assert_eq!(run.generated_at, "2026-08-19T06:30:00+08:00");
    assert!(!run.can_notify);
    assert!(service.try_synchronize("manual", &now()).is_none());
    service.finish_synchronize();
    assert!(service.try_synchronize("manual", &now()).is_some());
}

#[test]
fn one_shot_runs_start_as_they_are_called() {
    let changed = run_local_update(None, None, None, &now()).ok().unwrap();
    assert!(changed.notifier.is_none());
    let Step::OpenSearch(run) = changed.first else { panic!("start") };
    assert_eq!((run.trigger.as_str(), run.mode), ("local-cli", JobUpdateMode::Changed));
    let all = run_local_update_all(Some("on".into()), Some("t".into()), Some("u".into()), &now())
        .ok()
        .unwrap();
    assert!(all.notifier.is_some());
    let Step::OpenSearch(run) = all.first else { panic!("start") };
    assert_eq!((run.trigger.as_str(), run.mode), ("local-cli-all", JobUpdateMode::All));
    assert!(run.can_notify);
    assert!(run_local_update(Some("on".into()), None, None, &now()).is_err());
}

#[test]
fn a_failed_search_goes_on_with_alerts_that_were_read() {
    assert_eq!(after_search_failed(true, true), Fallback::LinkedInOnly);
    assert_eq!(after_search_failed(true, false), Fallback::SearchError);
    assert_eq!(after_search_failed(false, true), Fallback::SearchError);
    assert_eq!(after_search_failed(false, false), Fallback::SearchError);
}

#[test]
fn every_posting_is_written_once() {
    let mut writer = JobFileWriter::new(0, "2026-08-19T06:30:00+08:00");
    let mut files = Vec::new();
    for i in 0..23 {
        if writer.push(posting("104", &i.to_string())) {
            files.push(writer.pending().unwrap());
            writer.flushed();
        }
    }
    let names: Vec<&str> = files.iter().map(|file| file.name.as_str()).collect();
    assert_eq!(
        names,
        vec!["jd-20260819T0630000800-001.json", "jd-20260819T0630000800-002.json"]
    );
    assert!(files.iter().all(|file| file.jobs.len() == 10 && file.folder == "01-01"));
    let rest = writer.pending().unwrap();
    assert_eq!(rest.name, "jd-20260819T0630000800-003.json");
    files.push(rest);
    let ids: Vec<String> =
        files.iter().flat_map(|file| &file.jobs).map(|job| job.external_id.clone()).collect();
    assert_eq!(ids, (0..23).map(|i| i.to_string()).collect::<Vec<_>>());
}
