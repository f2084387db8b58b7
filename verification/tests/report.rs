use job_watcher::change::{change_record, ChangeRecord};
use job_watcher::clock::{parse_date, Timestamp};
use job_watcher::job::JobListing;
use job_watcher::json;
use job_watcher::line::{
    answer, first_answer, handle_webhook, local_notifier, next_answer, outcome_message, second_try,
    started_message, update_outcome, Addressee, CommandEvent, CommandStep, Delivery, FollowUp,
    LineNotifier, UpdateOutcome, WebhookCommand,
};
use job_watcher::mail::{EmailReporter, MailError, SettingError};
use job_watcher::report::{
    encoded_mime_message, gmail_subject, latest_changes_body, mime_message, summary_digest,
    today_digest, LatestError, SavedHistory,
};
use job_watcher::service::Service;
use job_watcher::smtp::{read_reply_line, reply_can_be_read, write_message, ReplyError, ReplyReader, SmtpSession};
use job_watcher::summary::{append_history, ChangeHistory, HistoryRun, SyncSummary};

fn posting(id: &str) -> JobListing {
    JobListing {
        source: "104".into(),
        external_id: id.into(),
        title: format!("T{id}"),
        company: "Co".into(),
        location: None,
        salary: None,
        description: None,
        url: format!("u{id}"),
        published_at: None,
        platform_updated_at: None,
        fetch_state: "Complete".into(),
        first_seen_at: None,
        last_seen_at: None,
        seen_count: 1,
    }
}

fn record(kind: &str, id: &str) -> ChangeRecord {
    change_record(kind, &posting(id), Vec::new(), None)
}

#[test]
fn digests_list_ten_of_each_kind() {
    let mut summary = SyncSummary {
        generated_at: "now".into(),
        ..Default::default()
    };
    assert_eq!(
        summary_digest(&summary, "H"),
        "H\nnow\n\n新增：0\n更新：0\n刪除：0\n\n目前沒有新的職缺異動。\n"
    );
    summary.updated = vec![record("updated", "1")];
    assert_eq!(
        summary_digest(&summary, "H"),
        "H\nnow\n\n新增：0\n更新：1\n刪除：0\n\n[Updated]\nT1｜Co｜未提供\nu1"
    );
    summary.export_error = Some("disk".into());
    assert!(summary_digest(&summary, "H").ends_with("u1\n\nSQLite 已更新，但完整 JD 匯出失敗。\n"));
    summary.deleted = (0..12).map(|i| record("deleted", &i.to_string())).collect();
    let text = summary_digest(&summary, "H");
    assert!(text.contains("刪除：12"));
    assert!(text.contains("\nT9｜") && !text.contains("\nT10｜"));
}

#[test]
fn subjects_need_a_date() {
    let summary = SyncSummary {
        date: "someday".into(),
        ..Default::default()
    };
    assert!(gmail_subject(&summary).is_none());
}

#[test]
fn mails_carry_their_attachment() {
    let mail = mime_message("a@b", "主旨", "hi", "x.json", b"{}");
    assert!(mail.starts_with("To: a@b\r\nSubject: =?UTF-8?B?5Li75peo?=\r\nMIME-Version: 1.0\r\n"));
    assert!(mail.contains("Content-Transfer-Encoding: 8bit\r\n\r\nhi\r\n--job-watcher-attachment\r\n"));
    assert!(mail.contains("Content-Disposition: attachment; filename=\"x.json\"\r\nContent-Transfer-Encoding: base64\r\n\r\ne30=\r\n--job-watcher-attachment--\r\n"));
    let encoded = encoded_mime_message("a@b", "主旨", "hi", "x.json", b"{}");
    assert!(encoded.contains("Content-Transfer-Encoding: base64\r\n\r\naGk=\r\n--job-watcher-attachment\r\n"));
}

#[test]
fn the_latest_run_is_told_of() {
    let history = r#"{"date":"d","runs":[{"new":[{}]},{"new":[{"title":"A","url":"u"},{}],"updated":[],"deleted":[{"title":"B"}]}]}"#;
    assert_eq!(
        latest_changes_body(history).unwrap(),
        "新增：2\n更新：0\n刪除：1\n\n新增職缺:\nA\nu\n(無標題)\n(無網址)\n\n刪除職缺:\nB\n(無網址)"
    );
    assert_eq!(latest_changes_body("{"), Err(LatestError::Invalid));
    assert_eq!(latest_changes_body("{\"runs\":[]}"), Err(LatestError::NoRuns));
    assert_eq!(latest_changes_body("[]"), Err(LatestError::NoRuns));
    assert_eq!(
        latest_changes_body("{\"runs\":[7]}").unwrap(),
        "新增：0\n更新：0\n刪除：0"
    );
}

fn at_noon() -> Timestamp {
    let at = chrono::DateTime::parse_from_rfc3339("2026-08-19T12:00:00+08:00").unwrap();
    Timestamp {
        seconds: at.timestamp(),
        nanos: 0,
    }
}

fn run(new: Vec<ChangeRecord>, updated: Vec<ChangeRecord>, deleted: Vec<ChangeRecord>) -> HistoryRun {
    HistoryRun {
        generated_at: "g".into(),
        trigger: "manual".into(),
        new,
        updated,
        deleted,
    }
}

#[test]
fn a_day_is_told_of_by_the_latest_records() {
    assert_eq!(today_digest(&SavedHistory::Missing, &at_noon()), "今日尚無職缺異動。");
    assert_eq!(today_digest(&SavedHistory::Unreadable, &at_noon()), "今日履歷資料無法讀取。");
    let empty = ChangeHistory::default();
    assert_eq!(today_digest(&SavedHistory::Found(empty), &at_noon()), "今日尚無職缺異動。");
    let history = ChangeHistory {
        date: "2026-08-19".into(),
        runs: vec![
            run(vec![record("new", "1"), record("new", "2")], Vec::new(), Vec::new()),
            run(Vec::new(), vec![record("updated", "1")], vec![record("deleted", "2")]),
        ],
    };
    assert_eq!(
        today_digest(&SavedHistory::Found(history), &at_noon()),
        "今日履歷\n2026-08-19T12:00:00+08:00\n\n新增：0\n更新：1\n刪除：1\n\n[Updated]\nT1｜Co｜未提供\nu1\n\n[Deleted]\nT2｜Co｜未提供\nu2"
    );
}

#[test]
fn runs_are_added_behind_earlier_ones() {
    let summary = SyncSummary {
        generated_at: "g2".into(),
        date: "2026-08-19".into(),
        trigger: "manual".into(),
        new: vec![record("new", "1")],
        ..Default::default()
    };
    let first = append_history(None, &summary);
    assert_eq!(first.date, "2026-08-19");
    assert_eq!(first.runs.len(), 1);
    let second = append_history(Some(first), &SyncSummary::default());
    assert_eq!(second.date, "2026-08-19");
    assert_eq!(second.runs.len(), 2);
    assert_eq!(second.runs[0].generated_at, "g2");
    assert_eq!(second.runs[0].new[0].title, "T1");
    assert!(summary.has_changes() && !SyncSummary::default().has_changes());
}

#[test]
fn dots_at_line_starts_are_doubled() {
    assert_eq!(write_message("a\r\n.b\r\n..\r\nc."), "a\r\n..b\r\n...\r\nc.\r\n.\r\n");
    assert_eq!(write_message(".\r\n"), "..\r\n.\r\n");
    assert_eq!(write_message(""), "\r\n.\r\n");
}

#[test]
fn replies_are_read_line_by_line() {
    let mut reader = ReplyReader::new();
    assert_eq!(reader.accept("250-first\r\n"), Ok(None));
    assert_eq!(reader.accept("250 last\r\n"), Ok(Some(250)));
    assert_eq!(reader.response(), "250-first250 last");
    assert_eq!(reader.accept("25"), Err(ReplyError::TooShort));
    assert_eq!(reader.accept("abc def"), Err(ReplyError::NoCode));
    assert!(!read_reply_line("250").unwrap().last);
    assert_eq!(read_reply_line("+25 x").unwrap().code, 25);
    assert!(!reply_can_be_read("2中 x"));
    assert!(reply_can_be_read("中 x"));
    assert!(reply_can_be_read(""));
}

#[test]
fn a_dialogue_goes_on_while_replies_fit() {
    let mut session = SmtpSession::new("me@x", "secret", "you@y", "M".into());
    let codes = [220, 250, 220, 250, 334, 334, 235, 250, 250, 354, 250, 221];
    let mut sent = Vec::new();
    let mut encrypted_behind = None;
    for (i, code) in codes.iter().enumerate() {
        let step = session.next_step().unwrap();
        assert_eq!(step.expected, *code);
        if step.encrypt_behind {
            encrypted_behind = Some(i);
        }
        sent.push(step.send.unwrap_or_default());
        assert_eq!(session.accept(*code, "ok"), Ok(()));
    }
    assert!(session.next_step().is_none());
    assert_eq!(encrypted_behind, Some(2));
    assert_eq!(
        sent,
        vec![
            "",
            "EHLO job-watcher\r\n",
            "STARTTLS\r\n",
            "EHLO job-watcher\r\n",
            "AUTH LOGIN\r\n",
            "bWVAeA==\r\n",
            "c2VjcmV0\r\n",
            "MAIL FROM:<me@x>\r\n",
            "RCPT TO:<you@y>\r\n",
            "DATA\r\n",
            "M\r\n.\r\n",
            "QUIT\r\n",
        ]
    );
    let mut other = SmtpSession::new("me@x", "secret", "you@y", "M".into());
    assert_eq!(
        other.accept(554, "554 no"),
        Err("SMTP greeting failed with SMTP 554: 554 no".to_string())
    );
    assert_eq!(other.next_step().unwrap().expected, 220);
}

#[test]
fn mail_settings_come_together() {
    let some = |s: &str| Some(s.to_string());
    assert!(matches!(EmailReporter::from_env(None, None, None), Ok(None)));
    let partial = EmailReporter::from_env(some("u"), None, some("r"));
    assert!(matches!(partial, Err(SettingError::Mail)));
    assert!(SettingError::Mail.message().ends_with("must be set together"));
    let reporter = EmailReporter::from_env(some("u"), some("p"), some("r")).ok().flatten().unwrap();
    assert!(reporter.can_be_sent());
    let mut summary = SyncSummary {
        date: "2026-08-19".into(),
        ..Default::default()
    };
    assert!(matches!(reporter.send_change_email(&summary, b"{}"), Err(MailError::NoExport)));
    summary.export_path = Some("changes/2026-08-19.json".into());
    assert!(reporter.send_change_email(&summary, b"{}").is_ok());
    summary.date = "x".into();
    assert!(matches!(reporter.send_change_email(&summary, b"{}"), Err(MailError::InvalidDate)));
    let day = parse_date("2026-08-19").unwrap();
    let sent_by = |mut session: SmtpSession| {
        for code in [220, 250, 220, 250, 334, 334, 235, 250, 250, 354] {
            session.accept(code, "").unwrap();
        }
        session.next_step().unwrap().send.unwrap()
    };
    let test_mail = sent_by(reporter.send_test_email(day));
    assert!(test_mail.contains("新增：1\n更新：11\n刪除：0"));
    assert!(test_mail.contains("eyJ0ZXN0Ijp0cnVlLCJzb3VyY2UiOiJqb2Itd2F0Y2hlciJ9"));
    let latest = sent_by(reporter.send_latest_changes(day, "hi", b"{}"));
    assert!(latest.contains("aGk=\r\n") && latest.contains("filename=\"2026-08-19.json\""));
}

#[test]
fn line_settings_come_together() {
    let some = |s: &str| Some(s.to_string());
    assert!(matches!(LineNotifier::from_env(None, None), Ok(None)));
    assert!(matches!(LineNotifier::from_env(some("t"), None), Err(SettingError::Line)));
    assert!(matches!(local_notifier(None, some("t"), None), Ok(None)));
    assert!(matches!(local_notifier(some("TRUE"), None, None), Err(SettingError::LineCredentials)));
    assert!(matches!(local_notifier(some("on"), some("t"), None), Err(SettingError::Line)));
    assert!(matches!(local_notifier(some("on"), some("t"), some("u")), Ok(Some(_))));
}

#[test]
fn the_service_speaks_through_its_bot() {
    let quiet = Service::new(None, None).ok().unwrap();
    assert!(quiet.reply_text("x").is_none());
    assert!(quiet.reply_to_line_event("r", "x").is_none());
    assert!(Service::new(Some("t".into()), None).is_err());
    let service = Service::new(Some("t".into()), Some("u".into())).ok().unwrap();
    let push = service.reply_text("hello").unwrap();
    assert_eq!(push.url, "https://api.line.me/v2/bot/message/push");
    assert_eq!(push.bearer, "t");
    assert_eq!(push.addressee, Addressee::User("u".into()));
    assert_eq!(push.text, "hello");
    let reply = service.deliver(&answer(&Some("r".into()), "hi")).unwrap();
    assert_eq!(reply.url, "https://api.line.me/v2/bot/message/reply");
    assert_eq!(reply.addressee, Addressee::ReplyToken("r".into()));
}

#[test]
fn webhook_commands_are_picked_out() {
    let payload = json::parse(r#"{"events":[{"message":{"text":" 更新JD\n"},"replyToken":"r1"},{"message":{"text":"hi"}},{"message":{}},{},{"message":{"text":"今日履歷"}}]}"#).unwrap();
    let commands = handle_webhook(&payload);
    assert_eq!(commands.len(), 2);
    assert_eq!(commands[0].command, "update");
    assert_eq!(commands[0].reply_token.as_deref(), Some("r1"));
    assert_eq!(commands[1].command, "today");
    assert_eq!(commands[1].reply_token, None);
    assert!(handle_webhook(&json::parse("{\"events\":{}}").unwrap()).is_empty());
    assert!(handle_webhook(&json::parse("3").unwrap()).is_empty());
    assert!(json::parse("{").is_none());
}

#[test]
fn answers_are_sent_the_way_that_is_left() {
    let reply = answer(&Some("r".into()), "x");
    assert_eq!(reply, Delivery::Reply { token: "r".into(), text: "x".into() });
    assert_eq!(second_try(&reply), Some(Delivery::Push { text: "x".into() }));
    let push = answer(&None, "x");
    assert_eq!(push, Delivery::Push { text: "x".into() });
    assert_eq!(second_try(&push), None);
    assert_eq!(started_message("T"), "104 Job Watcher\n更新JD 已開始\n預計執行時間：T");
    assert_eq!(
        outcome_message(&UpdateOutcome::Busy, "T"),
        Delivery::Push { text: "104 Job Watcher\n\n執行時間：T\n目前正在更新 JD，請稍後再試。".into() }
    );
    assert_eq!(
        outcome_message(&UpdateOutcome::Failed("e".into()), "T"),
        Delivery::Push { text: "104 Job Watcher\n\n執行時間：T\n更新失敗：e".into() }
    );
    let Delivery::Push { text } = outcome_message(&UpdateOutcome::Completed(SyncSummary::default()), "T") else {
        panic!("pushed")
    };
    assert!(text.starts_with("104 Job Watcher\n更新完成\n"));
}

fn command(name: &str, token: Option<&str>) -> WebhookCommand {
    WebhookCommand { command: name.into(), reply_token: token.map(str::to_owned) }
}

#[test]
fn a_days_digest_is_answered_without_a_run() {
    let replied = first_answer(&command("today", Some("r")), "digest", "T");
    assert_eq!(
        replied,
        CommandStep::Deliver {
            message: Delivery::Reply { token: "r".into(), text: "digest".into() },
            follow_up: FollowUp::SecondTry,
        }
    );
    assert_eq!(next_answer(replied, CommandEvent::Delivered), CommandStep::Done);
    let replied = first_answer(&command("today", Some("r")), "digest", "T");
    let pushed = next_answer(replied, CommandEvent::DeliveryFailed);
    assert_eq!(
        pushed,
        CommandStep::Deliver {
            message: Delivery::Push { text: "digest".into() },
            follow_up: FollowUp::Nothing,
        }
    );
    assert_eq!(next_answer(pushed, CommandEvent::DeliveryFailed), CommandStep::Done);
    let pushed = first_answer(&command("today", None), "digest", "T");
    assert_eq!(next_answer(pushed, CommandEvent::DeliveryFailed), CommandStep::Done);
    assert_eq!(first_answer(&command("other", None), "digest", "T"), CommandStep::Done);
}

#[test]
fn an_update_is_announced_run_once_and_told_of() {
    for started in [CommandEvent::Delivered, CommandEvent::DeliveryFailed] {
        let notice = first_answer(&command("update", Some("r")), "digest", "T");
        let CommandStep::Deliver { message, .. } = &notice else { panic!("a notice") };
        assert_eq!(
            message,
            &Delivery::Reply {
                token: "r".into(),
                text: "104 Job Watcher\n更新JD 已開始\n預計執行時間：T".into(),
            }
        );
        let run = next_answer(notice, started);
        assert_eq!(
            run,
            CommandStep::Synchronize { trigger: "manual".into(), execution_time: "T".into() }
        );
        let told = next_answer(run, CommandEvent::Ended(update_outcome(Ok(None))));
        assert_eq!(
            told,
            CommandStep::Deliver {
                message: Delivery::Push {
                    text: "104 Job Watcher\n\n執行時間：T\n目前正在更新 JD，請稍後再試。".into(),
                },
                follow_up: FollowUp::Nothing,
            }
        );
        assert_eq!(next_answer(told, CommandEvent::DeliveryFailed), CommandStep::Done);
    }
    assert!(matches!(update_outcome(Err("e".into())), UpdateOutcome::Failed(e) if e == "e"));
    assert!(matches!(
        update_outcome(Ok(Some(SyncSummary::default()))),
        UpdateOutcome::Completed(_)
    ));
    let notice = first_answer(&command("update", None), "digest", "T");
    let outcome = CommandEvent::Ended(UpdateOutcome::Busy);
    assert_eq!(next_answer(notice, outcome), CommandStep::Done);
}
