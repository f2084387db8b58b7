use job_watcher::clock::Timestamp;
use job_watcher::source::acquisition::{alert_metadata, fetch_job, PageReply};
use job_watcher::source::alert::{canonical_linkedin_url, extract_alert_jobs, AlertJob};
use job_watcher::source::header::{count_chars_in, parse_linkedin_header};
use job_watcher::source::linkedin::{record_processed_messages, LinkedInAlertSource};
use job_watcher::source::page::{
    enrich_from_html_at, enrich_if_readable, extract_description, parse_relative_posted_at,
};
use job_watcher::source::JobSource;

#[test]
fn alert_urls_are_canonical_and_deduplicated() {
    let html = r#"<a href="https://www.linkedin.com/jobs/view/4454432978/?refId=abc&trackingId=xyz">Role</a><a href="https://www.linkedin.com/jobs/view/4454432978/?trackingId=other">Again</a><a href="https://www.linkedin.com/jobs/view/1234567890/">Other</a>"#;
    let jobs = extract_alert_jobs(html);
    assert_eq!(jobs.len(), 2);
    assert_eq!(
        jobs[0].url,
        "https://www.linkedin.com/jobs/view/4454432978/"
    );
}

#[test]
fn current_header_dom_extracts_primary_job_metadata() {
    let html = r##"
            <div aria-label="Company, Microsoft.">
                <a href="https://www.linkedin.com/company/microsoft/life/">Microsoft</a>
            </div>
            <p>Software Engineer 2 - Performance <a href="#"><span aria-label="Verified job">verified</span></a></p>
            <p>
                <span>Taipei, Taipei City, Taiwan</span>
                · <span>Reposted 1 day ago</span>
                · <span>91 people clicked apply</span>
                · <span>Hybrid</span>
                · <span>Full-time</span>
            </p>
            <a href="https://www.linkedin.com/jobs/view/4447522099/">View job</a>
            <a aria-label="Apply on company website" href="https://www.linkedin.com/safety/go/?url=https%3A%2F%2Fapply.careers.microsoft.com%2Fjob%2F1">Apply</a>
            <span data-testid="expandable-text-box">Complete About the job content with responsibilities and qualifications.<button data-testid="expandable-text-button">... more</button></span>
        "##;
    let header = parse_linkedin_header(
        html,
        &AlertJob {
            id: "4418261323".into(),
            url: "https://www.linkedin.com/jobs/view/4418261323/".into(),
            title: "Alert title".into(),
            company: "Unknown company".into(),
            location: None,
        },
    );
    assert_eq!(header.job_id.as_deref(), Some("4447522099"));
    assert_eq!(
        header.title.as_deref(),
        Some("Software Engineer 2 - Performance")
    );
    assert_eq!(header.company.as_deref(), Some("Microsoft"));
    assert_eq!(
        header.location.as_deref(),
        Some("Taipei, Taipei City, Taiwan")
    );
    assert_eq!(header.published_raw.as_deref(), Some("Reposted 1 day ago"));
    assert_eq!(header.work_mode.as_deref(), Some("Hybrid"));
    assert_eq!(header.employment_type.as_deref(), Some("Full-time"));
    assert_eq!(
        header.apply_url.as_deref(),
        Some("https://apply.careers.microsoft.com/job/1")
    );
}

#[test]
fn url_parser_ignores_tracking_parameters() {
    assert_eq!(
        canonical_linkedin_url(
            "https://www.linkedin.com/jobs/view/4454432978/?refId=abc&trackingId=xyz"
        ),
        Some((
            "4454432978".into(),
            "https://www.linkedin.com/jobs/view/4454432978/".into()
        ))
    );
}

fn instant(text: &str) -> Timestamp {
    let at = chrono::DateTime::parse_from_rfc3339(text).unwrap();
    Timestamp {
        seconds: at.timestamp(),
        nanos: at.timestamp_subsec_nanos(),
    }
}

fn now() -> Timestamp {
    let at = chrono::Utc::now();
    Timestamp {
        seconds: at.timestamp(),
        nanos: at.timestamp_subsec_nanos(),
    }
}

fn alert(id: &str, company: &str) -> AlertJob {
    AlertJob {
        id: id.into(),
        url: format!("https://www.linkedin.com/jobs/view/{id}/"),
        title: "Alert title".into(),
        company: company.into(),
        location: None,
    }
}

#[test]
fn dom_fallback_extracts_full_expandable_description_and_metadata() {
    let job = enrich_from_html_at(
        &AlertJob {
            id: "1".into(),
            url: "https://www.linkedin.com/jobs/view/1/".into(),
            title: "Alert title".into(),
            company: "Alert company".into(),
            location: Some("Taipei".into()),
        },
        r#"<h1>Page title</h1><span data-testid="job-details-company-name">DOM Company</span><time datetime="2026-08-21"></time><span data-testid="expandable-text-box"><strong>Responsibilities</strong> Build reliable backend systems for production services and maintain Linux infrastructure.<button data-testid="expandable-text-button">... more</button></span>"#,
        &now(),
    );
    assert_eq!(job.company, "DOM Company");
    assert_eq!(job.published_at.as_deref(), Some("2026-08-21"));
    assert!(job.description.as_deref().is_some_and(|text| {
        text.contains("Build reliable backend systems") && !text.ends_with("... more")
    }));
    assert_eq!(job.salary, None);
}

#[test]
fn relative_posted_time_is_inferred_from_scrape_time() {
    let job = enrich_from_html_at(
        &AlertJob {
            id: "2".into(),
            url: "https://www.linkedin.com/jobs/view/2/".into(),
            title: "Alert title".into(),
            company: "Alert company".into(),
            location: None,
        },
        r#"Reposted 3 days ago <span data-testid="expandable-text-box">A complete job description with enough meaningful content to pass extraction.</span>"#,
        &instant("2026-08-23T00:00:00Z"),
    );
    assert_eq!(
        job.published_at.as_deref(),
        Some("2026-08-20T00:00:00+00:00")
    );
}

#[test]
fn addresses_without_a_number_are_no_postings() {
    assert_eq!(canonical_linkedin_url("https://www.linkedin.com/jobs/view/abc/"), None);
    assert_eq!(canonical_linkedin_url("https://www.linkedin.com/feed/"), None);
    assert_eq!(
        canonical_linkedin_url("https://www.linkedin.com/comm/jobs/view/77"),
        Some(("77".into(), "https://www.linkedin.com/jobs/view/77/".into()))
    );
}

#[test]
fn alerts_take_the_text_of_their_links() {
    let jobs = extract_alert_jobs(
        "see https://www.linkedin.com/jobs/view/5 or <a class=\"x\" href='https://www.linkedin.com/comm/jobs/view/6/?a=1&amp;b=2'> <b>Rust</b>&nbsp;Engineer </a> <a href=\"https://www.linkedin.com/feed/\">feed</a>",
    );
    assert_eq!(jobs.len(), 2);
    assert_eq!(jobs[0].id, "5");
    assert_eq!(jobs[0].title, "LinkedIn job alert");
    assert_eq!(jobs[1].id, "6");
    assert_eq!(jobs[1].title, "Rust Engineer");
    assert_eq!(jobs[1].company, "Unknown company");
    assert_eq!(jobs[1].location, None);
}

#[test]
fn linked_data_describes_a_posting() {
    let html = r#"<html><head><title>Acme hiring Rust Developer in Taipei, Taiwan | LinkedIn</title>
<script type="application/ld+json"> [{"@type":"Thing"},{"@type":"JobPosting","title":"Acme hiring Rust Developer in Taipei","description":"&lt;p&gt;Write Rust programs that do not fail, day after day.","datePosted":"2026-08-20","hiringOrganization":{"name":" Example Corp "},"jobLocation":{"address":{"addressLocality":"Taipei"}},"baseSalary":{"currency":"TWD","value":{"minValue":100000,"maxValue":150000}}}] </script></head><body></body></html>"#;
    let job = enrich_from_html_at(&alert("9", "Unknown company"), html, &now());
    assert_eq!(job.source, "linkedin");
    assert_eq!(job.external_id, "9");
    assert_eq!(job.url, "https://www.linkedin.com/jobs/view/9/");
    assert_eq!(job.title, "Rust Developer");
    assert_eq!(job.company, "Example Corp");
    assert_eq!(job.location.as_deref(), Some("Taipei"));
    assert_eq!(job.salary.as_deref(), Some("TWD 100000-150000"));
    assert_eq!(job.published_at.as_deref(), Some("2026-08-20"));
    assert_eq!(job.fetch_state, "Complete");
    assert!(job.description.unwrap().contains("Write Rust programs"));
    assert_eq!(job.seen_count, 0);
}

#[test]
fn salaries_are_written_with_what_is_given() {
    let page = |salary: &str| {
        format!("<script type=\"application/ld+json\">{{\"baseSalary\":{salary}}}</script>")
    };
    let salary_of = |salary: &str| {
        enrich_from_html_at(&alert("9", "Unknown company"), &page(salary), &now()).salary
    };
    assert_eq!(salary_of("\" 50k \"").as_deref(), Some("50k"));
    assert_eq!(salary_of("\"  \""), None);
    assert_eq!(
        salary_of("{\"currency\":\"USD\",\"value\":\"90\"}").as_deref(),
        Some("USD 90")
    );
    assert_eq!(
        salary_of("{\"currency\":\"USD\",\"value\":{\"minValue\":\"1\"}}").as_deref(),
        Some("USD 1")
    );
    assert_eq!(
        salary_of("{\"value\":{\"maxValue\":2.5}}").as_deref(),
        Some("2.5")
    );
    assert_eq!(salary_of("{\"currency\":\"USD\",\"value\":{}}"), None);
    assert_eq!(salary_of("{\"currency\":\"USD\"}"), None);
    assert_eq!(salary_of("7"), None);
}

#[test]
fn page_text_gives_what_nothing_else_does() {
    let html = "<title>Widgets hiring Engineer in Hsinchu | LinkedIn</title><body class=x><script>var salary = 'USD';</script><p>Company</p>\n<p>Widgets Ltd</p><p>Salary: NT 70,000</p><p>posted 2 weeks ago</p></body>";
    let job = enrich_from_html_at(
        &alert("4", "Unknown company"),
        html,
        &instant("2026-08-23T00:00:00Z"),
    );
    assert_eq!(job.title, "Engineer");
    assert_eq!(job.location.as_deref(), Some("Hsinchu"));
    assert_eq!(job.company, "Widgets Ltd");
    assert_eq!(job.salary.as_deref(), Some("Salary: NT 70,000"));
    assert_eq!(
        job.published_at.as_deref(),
        Some("2026-08-09T00:00:00+00:00")
    );
    assert_eq!(job.description, None);
    assert_eq!(job.fetch_state, "ParseFailed");
}

#[test]
fn ages_are_read_in_all_their_units() {
    let at = instant("2026-08-23T12:00:00Z");
    assert_eq!(
        parse_relative_posted_at(" Posted 5 hours ago", &at).as_deref(),
        Some("2026-08-23T07:00:00+00:00")
    );
    assert_eq!(
        parse_relative_posted_at("Reposted 1 Month ago", &at).as_deref(),
        Some("2026-07-24T12:00:00+00:00")
    );
    assert_eq!(parse_relative_posted_at("Posted today", &at), None);
    assert_eq!(parse_relative_posted_at("3", &at), None);
    assert_eq!(parse_relative_posted_at("3 years ago", &at), None);
}

#[test]
fn descriptions_are_taken_from_known_markup() {
    let words = "A sentence of the description that is long enough to be kept as it stands, and more.";
    let rich = format!(
        "<div class=\"description__text description__text--rich\"><div>{words}</div></div>"
    );
    assert_eq!(extract_description(&rich).as_deref(), Some(words));
    let longest = format!(
        "<p class=\"job-description x\">{words} Twice.</p><p class=\"show-more-less-html__markup\">{words}</p>"
    );
    assert_eq!(
        extract_description(&longest),
        Some(format!("{words} Twice."))
    );
    assert_eq!(extract_description("<p class=\"job-description\">short</p>"), None);
}

#[test]
fn odd_pages_do_not_stop_a_reading() {
    let one = alert("1", "Unknown company");
    assert_eq!(count_chars_in("ab中d", 4), 2);
    assert_eq!(count_chars_in("ab中d", 5), 3);
    for padding in 4950..4970 {
        let cut = format!("<p>https://www.linkedin.com/jobs/view/7{}中</p>", "x".repeat(padding));
        let header = parse_linkedin_header(&cut, &one);
        assert_eq!(header.job_id.as_deref(), Some("7"));
        assert!(enrich_if_readable(&one, &cut, &now()).is_some());
    }
    let unclosed = "<p aria-label=\"Company, X.\"><a href=\"/company/x\"</a></p>";
    assert_eq!(parse_linkedin_header(unclosed, &one).company, None);
    let escaped = "<p aria-label=\"Company, X.\"><a href=\"https://l/?url=%中\" aria-label=\"Apply on company website\">A</a>";
    assert_eq!(parse_linkedin_header(escaped, &one).apply_url.as_deref(), Some("%中"));
    let far = "<p>999999999999 days ago today</p>";
    assert!(enrich_if_readable(&one, far, &now()).is_none());
    assert!(enrich_if_readable(&one, "<p>9 days ago today</p>", &now()).is_some());
    let job = fetch_job(&one, &PageReply::Answer { status: 200, body: Some(far.into()) }, &now());
    assert_eq!(job.fetch_state, "ParseFailed");
    assert_eq!(job.title, "Alert title");
    assert_eq!(job.description, None);
}

#[test]
fn linked_data_comes_before_the_page() {
    let linked = "Linked words that are surely long enough to be a description.";
    let shown = "Shown words that are surely long enough to be a description, too.";
    let rest = format!(
        "<div aria-label=\"Company, X.\"><p>Head Role</p><p><span>Taipei, TW</span></p></div><span data-testid=\"expandable-text-box\">{shown}</span>"
    );
    let page = |data: &str| format!("<script type=\"application/ld+json\">{data}</script>{rest}");
    let mut one = alert("1", "c");
    let both = page(&format!(
        "{{\"title\":\"Json Role\",\"description\":\"{linked}\",\"jobLocation\":{{\"address\":{{\"addressLocality\":\"Hsinchu\"}}}}}}"
    ));
    let job = enrich_from_html_at(&one, &both, &now());
    assert_eq!(job.title, "Json Role");
    assert_eq!(job.description.as_deref(), Some(linked));
    assert_eq!(job.location.as_deref(), Some("Hsinchu"));
    let job = enrich_from_html_at(&one, &page("{}"), &now());
    assert_eq!(job.title, "Head Role");
    assert_eq!(job.description.as_deref(), Some(shown));
    assert_eq!(job.location.as_deref(), Some("Taipei, TW"));
    one.location = Some("Tainan".into());
    assert_eq!(enrich_from_html_at(&one, &page("{}"), &now()).location.as_deref(), Some("Tainan"));
    assert_eq!(enrich_from_html_at(&one, &both, &now()).location.as_deref(), Some("Hsinchu"));
    assert_eq!(enrich_from_html_at(&one, "nothing", &now()).title, "Alert title");
}

#[test]
fn replies_decide_what_a_posting_is() {
    let one = alert("8", "Alert company");
    let failed = [
        PageReply::Nothing,
        PageReply::Answer { status: 404, body: Some("gone".into()) },
        PageReply::Answer { status: 429, body: None },
        PageReply::Answer { status: 200, body: None },
    ];
    for reply in &failed {
        let job = fetch_job(&one, reply, &now());
        assert_eq!(job.fetch_state, "FetchFailed");
        assert_eq!(job.title, "Alert title");
        assert_eq!(job.company, "Alert company");
        assert_eq!(job.description, None);
    }
    let page = PageReply::Answer {
        status: 200,
        body: Some("<span data-testid=\"expandable-text-box\">A description that is long enough to count as one.</span>".into()),
    };
    let job = fetch_job(&one, &page, &now());
    assert_eq!(job.fetch_state, "Complete");
    assert_eq!(alert_metadata(&one).fetch_state, "MetadataOnly");
}

#[test]
fn known_postings_are_reused_without_a_request() {
    let source = LinkedInAlertSource::from_env(Some("Yes".into()), None).unwrap();
    assert_eq!(source.gmail_query, "from:(linkedin.com) newer_than:30d");
    assert_eq!(source.source_name(), "linkedin");
    let messages = vec![
        (
            "m1".to_string(),
            "https://www.linkedin.com/jobs/view/1/ https://www.linkedin.com/jobs/view/2/".to_string(),
        ),
        (
            "m2".to_string(),
            "https://www.linkedin.com/jobs/view/2/?x https://www.linkedin.com/jobs/view/3/ https://www.linkedin.com/jobs/view/4/".to_string(),
        ),
    ];
    let mut known = alert_metadata(&alert("2", "Kept"));
    known.fetch_state = "Complete".into();
    let mut reading = source.acquire_with_known(&messages, vec![known]);
    let mut asked = Vec::new();
    while let Some(request) = reading.next_request() {
        asked.push((request.url, request.pause_seconds));
        reading.accept(
            &PageReply::Answer {
                status: 200,
                body: Some("<span data-testid=\"expandable-text-box\">A description that is long enough to count as one.</span>".into()),
            },
            &now(),
        );
    }
    assert_eq!(
        asked,
        vec![
            ("https://www.linkedin.com/jobs/view/1/".to_string(), 0),
            ("https://www.linkedin.com/jobs/view/3/".to_string(), 10),
            ("https://www.linkedin.com/jobs/view/4/".to_string(), 10),
        ]
    );
    let read = reading.finish();
    assert!(read.complete);
    assert_eq!(read.known.len(), 1);
    let snapshot = read.snapshot;
    assert!(!snapshot.allow_deletions);
    assert_eq!(snapshot.source, "linkedin");
    assert_eq!(snapshot.processed_message_ids, vec!["m1", "m2"]);
    let ids: Vec<&str> = snapshot.jobs.iter().map(|job| job.external_id.as_str()).collect();
    assert_eq!(ids, vec!["1", "2", "3", "4"]);
    assert_eq!(snapshot.jobs[1].company, "Kept");
    let fresh = source.acquire(&messages);
    assert_eq!(fresh.next_request().unwrap().url, "https://www.linkedin.com/jobs/view/1/");
}

#[test]
fn incomplete_postings_leave_messages_unprocessed() {
    let source = LinkedInAlertSource::from_env(Some("on".into()), Some("q".into())).unwrap();
    let messages = vec![("m".to_string(), "https://www.linkedin.com/jobs/view/1/".to_string())];
    let mut reading = source.acquire_with_known(&messages, Vec::new());
    reading.accept(&PageReply::Nothing, &now());
    let read = reading.finish();
    assert!(!read.complete);
    assert_eq!(read.snapshot.jobs[0].fetch_state, "FetchFailed");
}

#[test]
fn alerts_are_searched_in_all_messages() {
    assert!(LinkedInAlertSource::from_env(None, None).is_none());
    assert!(LinkedInAlertSource::from_env(Some("no".into()), None).is_none());
    let source = LinkedInAlertSource::from_env(Some("1".into()), Some("q".into())).unwrap();
    assert_eq!(source.gmail_query, "q");
    let messages = vec![
        ("a".to_string(), "https://www.linkedin.com/jobs/view/1/".to_string()),
        ("b".to_string(), "https://www.linkedin.com/jobs/view/1/ https://www.linkedin.com/jobs/view/2/".to_string()),
    ];
    let jobs = source.search_alerts(&messages);
    assert_eq!(jobs.len(), 2);
    assert_eq!(jobs[0].fetch_state, "MetadataOnly");
    assert_eq!(jobs[1].external_id, "2");
    let (alerts, ids) = source.discover(&messages, &vec!["a".to_string()], true);
    assert_eq!(alerts.len(), 2);
    assert_eq!(ids, vec!["b"]);
}

#[test]
fn processed_messages_are_recorded_once() {
    assert!(record_processed_messages(vec!["a".into()], &Vec::new()).is_none());
    assert_eq!(
        record_processed_messages(vec!["a".into()], &vec!["b".into(), "a".into(), "b".into()]),
        Some(vec!["a".to_string(), "b".to_string()])
    );
}
