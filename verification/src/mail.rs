//! The mails about runs and who gets them.

use vstd::prelude::*;
use vstd::string::*;
use crate::clock;
use crate::clock::{history_name, parsed_day, MAX_DAY, MIN_DAY};
use crate::encoding::base64_fits;
use crate::report;
use crate::report::{counts_text, mail_text, subject_text};
use crate::scan;
use crate::smtp::{Letter, SmtpSession};
use crate::summary::SyncSummary;
use crate::text;
use crate::text::byte_len;

verus! {

broadcast use vstd::string::group_string_axioms;

/// Settings that must be given together are not.
#[derive(Clone, Copy, Debug, PartialEq, Eq, Structural)]
pub enum SettingError {
    /// The three settings for mail.
    Mail,
    /// The two settings for LINE.
    Line,
    /// LINE is switched on without its two settings.
    LineCredentials,
}

impl SettingError {
    /// The error in words.
    pub open spec fn text(self) -> Seq<char> {
        match self {
            SettingError::Mail =>
                "GMAIL_SMTP_USERNAME, GMAIL_SMTP_APP_PASSWORD, and JOB_WATCHER_EMAIL_TO must be set together"@,
            SettingError::Line =>
                "LINE_CHANNEL_ACCESS_TOKEN and LINE_USER_ID must be set together"@,
            SettingError::LineCredentials =>
                "JOB_WATCHER_LINE_BOT=true requires LINE credentials"@,
        }
    }

    /// The error in words.
    pub fn message(&self) -> (r: &'static str)
        ensures
            r@ == self.text(),
    {
        match self {
            SettingError::Mail =>
                "GMAIL_SMTP_USERNAME, GMAIL_SMTP_APP_PASSWORD, and JOB_WATCHER_EMAIL_TO must be set together",
            SettingError::Line => "LINE_CHANNEL_ACCESS_TOKEN and LINE_USER_ID must be set together",
            SettingError::LineCredentials => "JOB_WATCHER_LINE_BOT=true requires LINE credentials",
        }
    }
}

/// Why no mail about a run is sent.
#[derive(Clone, Copy, Debug, PartialEq, Eq, Structural)]
pub enum MailError {
    /// The run's history was not exported.
    NoExport,
    /// The run's date is none.
    InvalidDate,
}

/// The account that mails are sent from, and who gets them.
pub struct EmailReporter {
    username: String,
    app_password: String,
    recipient: String,
}

/// The attachment of a test mail.
pub const TEST_ATTACHMENT: &'static str = "{\"test\":true,\"source\":\"job-watcher\"}";

/// The text of a test mail.
pub const TEST_BODY: &'static str = "新增：1\n更新：11\n刪除：0";

impl EmailReporter {
    /// The account's name.
    pub closed spec fn username(self) -> Seq<char> {
        self.username@
    }

    /// The account's password.
    pub closed spec fn app_password(self) -> Seq<char> {
        self.app_password@
    }

    /// Who gets the mails.
    pub closed spec fn recipient(self) -> Seq<char> {
        self.recipient@
    }

    /// The credentials can be written in Base64.
    pub open spec fn wf(self) -> bool {
        &&& base64_fits(byte_len(self.username()) as int)
        &&& base64_fits(byte_len(self.app_password()) as int)
    }

    /// The letter with a message.
    pub open spec fn letter(self, message: Seq<char>) -> Letter {
        Letter {
            username: self.username(),
            password: self.app_password(),
            recipient: self.recipient(),
            message,
        }
    }

    /// The account that the settings `GMAIL_SMTP_USERNAME`,
    /// `GMAIL_SMTP_APP_PASSWORD` and `JOB_WATCHER_EMAIL_TO` name, if any is set.
    pub fn from_env(
        username: Option<String>,
        app_password: Option<String>,
        recipient: Option<String>,
    ) -> (r: Result<Option<EmailReporter>, SettingError>)
        ensures
            match r {
                Ok(None) => username is None && app_password is None && recipient is None,
                Ok(Some(reporter)) => {
                    &&& username is Some && app_password is Some && recipient is Some
                    &&& reporter.username() == username->0@
                    &&& reporter.app_password() == app_password->0@
                    &&& reporter.recipient() == recipient->0@
                },
                Err(e) => {
                    &&& e == SettingError::Mail
                    &&& username is Some || app_password is Some || recipient is Some
                    &&& username is None || app_password is None || recipient is None
                },
            },
    {
        match (username, app_password, recipient) {
            (None, None, None) => Ok(None),
            (Some(username), Some(app_password), Some(recipient)) => Ok(
                Some(EmailReporter { username, app_password, recipient }),
            ),
            _ => Err(SettingError::Mail),
        }
    }

    /// Whether the credentials can be written in Base64.
    pub fn can_be_sent(&self) -> (r: bool)
        ensures
            r == self.wf(),
    {
        report::fits_base64(scan::byte_len(self.username.as_str())) && report::fits_base64(
            scan::byte_len(self.app_password.as_str()),
        )
    }

    /// The dialogue that sends a mail with a text and a day's JSON file.
    pub fn send_message(&self, day: i32, subject: &str, body: &str, attachment: &[u8]) -> (r:
        SmtpSession)
        requires
            self.wf(),
            MIN_DAY <= day <= MAX_DAY,
            base64_fits(byte_len(subject@) as int),
            base64_fits(attachment@.len() as int),
        ensures
            r.wf(),
            r.step() == 0,
            r.letter() == self.letter(
                mail_text(
                    self.recipient(),
                    subject@,
                    "8bit"@,
                    body@,
                    history_name(day as int),
                    attachment@,
                ),
            ),
    {
        let filename: String = clock::history_file_name(day);
        let message: String = report::mime_message(
            self.recipient.as_str(),
            subject,
            body,
            filename.as_str(),
            attachment,
        );
        SmtpSession::new(
            self.username.as_str(),
            self.app_password.as_str(),
            self.recipient.as_str(),
            message,
        )
    }

    /// The dialogue that sends the mail about a run: the subject is its date, the
    /// text its three counts, and its exported history is attached.
    pub fn send_change_email(&self, summary: &SyncSummary, attachment: &[u8]) -> (r: Result<
        SmtpSession,
        MailError,
    >)
        requires
            self.wf(),
            base64_fits(attachment@.len() as int),
        ensures
            match r {
                Err(MailError::NoExport) => summary@.export_path is None,
                Err(MailError::InvalidDate) => summary@.export_path is Some && parsed_day(
                    summary@.date,
                ) is None,
                Ok(session) => {
                    &&& summary@.export_path is Some
                    &&& parsed_day(summary@.date) is Some
                    &&& session.wf()
                    &&& session.step() == 0
                    &&& session.letter() == self.letter(
                        mail_text(
                            self.recipient(),
                            subject_text(parsed_day(summary@.date)->0),
                            "8bit"@,
                            counts_text(
                                summary@.new.len(),
                                summary@.updated.len(),
                                summary@.deleted.len(),
                            ),
                            history_name(parsed_day(summary@.date)->0),
                            attachment@,
                        ),
                    )
                },
            },
    {
        if summary.export_path.is_none() {
            return Err(MailError::NoExport);
        }
        let day: i32 = match clock::parse_date(summary.date.as_str()) {
            Some(day) => day,
            None => {
                return Err(MailError::InvalidDate);
            },
        };
        let subject: String = report::subject_of_day(day);
        let body: String = report::gmail_body(summary);
        Ok(self.send_message(day, subject.as_str(), body.as_str(), attachment))
    }

    /// The dialogue that sends a test mail for a day.
    pub fn send_test_email(&self, day: i32) -> (r: SmtpSession)
        requires
            self.wf(),
            MIN_DAY <= day <= MAX_DAY,
        ensures
            r.wf(),
            r.step() == 0,
            r.letter() == self.letter(
                mail_text(
                    self.recipient(),
                    subject_text(day as int),
                    "8bit"@,
                    TEST_BODY@,
                    history_name(day as int),
                    vstd::utf8::encode_utf8(TEST_ATTACHMENT@),
                ),
            ),
    {
        let subject: String = report::subject_of_day(day);
        proof {
            reveal_strlit("{\"test\":true,\"source\":\"job-watcher\"}");
            text::lemma_byte_len(TEST_ATTACHMENT@);
        }
        self.send_message(day, subject.as_str(), TEST_BODY, TEST_ATTACHMENT.as_bytes())
    }

    /// The dialogue that sends a day's saved history with the body that tells of
    /// its last run.
    pub fn send_latest_changes(&self, day: i32, body: &str, attachment: &[u8]) -> (r: SmtpSession)
        requires
            self.wf(),
            MIN_DAY <= day <= MAX_DAY,
            base64_fits(byte_len(body@) as int),
            base64_fits(attachment@.len() as int),
        ensures
            r.wf(),
            r.step() == 0,
            r.letter() == self.letter(
                mail_text(
                    self.recipient(),
                    subject_text(day as int),
                    "base64"@,
                    crate::encoding::base64_text(vstd::utf8::encode_utf8(body@)),
                    history_name(day as int),
                    attachment@,
                ),
            ),
    {
        let subject: String = report::subject_of_day(day);
        let filename: String = clock::history_file_name(day);
        let message: String = report::encoded_mime_message(
            self.recipient.as_str(),
            subject.as_str(),
            body,
            filename.as_str(),
            attachment,
        );
        SmtpSession::new(
            self.username.as_str(),
            self.app_password.as_str(),
            self.recipient.as_str(),
            message,
        )
    }
}

/// A letter has the account's name and password, its recipient, and the message.
pub proof fn law_a_letter_is_sent_from_the_account(reporter: EmailReporter, message: Seq<char>)
    ensures
        ({
            let letter = reporter.letter(message);
            &&& letter.username == reporter.username()
            &&& letter.password == reporter.app_password()
            &&& letter.recipient == reporter.recipient()
            &&& letter.message == message
        }),
{
}

/// An error names the settings that it is about.
pub proof fn law_errors_name_their_settings(e: SettingError)
    ensures
        e == SettingError::Mail ==> e.text()
            == "GMAIL_SMTP_USERNAME, GMAIL_SMTP_APP_PASSWORD, and JOB_WATCHER_EMAIL_TO must be set together"@,
        e == SettingError::Line ==> e.text()
            == "LINE_CHANNEL_ACCESS_TOKEN and LINE_USER_ID must be set together"@,
        e == SettingError::LineCredentials ==> e.text()
            == "JOB_WATCHER_LINE_BOT=true requires LINE credentials"@,
{
}

} // verus!
