//! The service: one run at a time, and what it says through LINE.

use vstd::prelude::*;
use vstd::string::*;
use crate::clock;
use crate::clock::{next_run_second, Delay, Timestamp};
use crate::line;
use crate::line::{Delivery, DeliveryView, LineNotifier, LineRequest, LineRequestView};
use crate::mail::SettingError;
use crate::number;
use crate::number::natural;
use crate::source::linkedin::switches_on;
use crate::text::opt_view;
use crate::sync::{JobUpdateMode, Run, RunFacts, Step, StepView};

verus! {

broadcast use vstd::string::group_string_axioms;

/// The service's state: whether a run is under way, and the bot it speaks through.
pub struct Service {
    running: bool,
    notifier: Option<LineNotifier>,
}

/// The first step of a run.
pub open spec fn first_step(
    trigger: Seq<char>,
    mode: JobUpdateMode,
    can_notify: bool,
    now: Timestamp,
) -> StepView {
    StepView::OpenSearch(
        RunFacts {
            trigger,
            mode,
            generated_at: now.taipei_rfc3339(),
            day: now.taipei_day(),
            can_notify,
        },
    )
}

impl Service {
    /// A run is under way.
    pub closed spec fn running(self) -> bool {
        self.running
    }

    /// The bot that the service speaks through.
    pub closed spec fn notifier(self) -> Option<LineNotifier> {
        self.notifier
    }

    /// The service, with no run under way, that speaks through the bot which the
    /// settings `LINE_CHANNEL_ACCESS_TOKEN` and `LINE_USER_ID` name, if any is set.
    pub fn new(token: Option<String>, user_id: Option<String>) -> (r: Result<Service, SettingError>)
        ensures
            match r {
                Ok(service) => {
                    &&& !service.running()
                    &&& token is Some == user_id is Some
                    &&& service.notifier() is Some == token is Some
                    &&& token is Some ==> service.notifier()->0.token() == token->0@
                    &&& user_id is Some ==> service.notifier()->0.user() == user_id->0@
                },
                Err(e) => e == SettingError::Line && token is Some != user_id is Some,
            },
    {
        match LineNotifier::from_env(token, user_id) {
            Ok(notifier) => Ok(Service { running: false, notifier }),
            Err(e) => Err(e),
        }
    }

    /// Starts a run, unless one is under way.
    pub fn try_synchronize(&mut self, trigger: &str, now: &Timestamp) -> (r: Option<Step>)
        requires
            now.has_taipei_date(),
        ensures
            final(self).running(),
            final(self).notifier() == old(self).notifier(),
            match r {
                Some(step) => {
                    &&& !old(self).running()
                    &&& step@ == first_step(
                        trigger@,
                        JobUpdateMode::Changed,
                        old(self).notifier() is Some,
                        *now,
                    )
                    &&& step@.wf()
                },
                None => old(self).running(),
            },
    {
        if self.running {
            return None;
        }
        self.running = true;
        Some(
            Step::OpenSearch(
                Run::start(trigger, JobUpdateMode::Changed, self.notifier.is_some(), now),
            ),
        )
    }

    /// Ends the run that is under way.
    pub fn finish_synchronize(&mut self)
        ensures
            !final(self).running(),
            final(self).notifier() == old(self).notifier(),
    {
        self.running = false;
    }

    /// The request that pushes a text to the user, if there is a bot.
    pub fn reply_text(&self, text: &str) -> (r: Option<LineRequest>)
        ensures
            match self.notifier() {
                Some(notifier) => r is Some && r->0@ == notifier.push(text@),
                None => r is None,
            },
    {
        match &self.notifier {
            Some(notifier) => Some(notifier.send_text(text)),
            None => None,
        }
    }

    /// The request that replies to an event, if there is a bot.
    pub fn reply_to_line_event(&self, reply_token: &str, text: &str) -> (r: Option<LineRequest>)
        ensures
            match self.notifier() {
                Some(notifier) => r is Some && r->0@ == notifier.reply(reply_token@, text@),
                None => r is None,
            },
    {
        match &self.notifier {
            Some(notifier) => Some(notifier.reply_text(reply_token, text)),
            None => None,
        }
    }

    /// The request that delivers a message, if there is a bot.
    pub fn deliver(&self, delivery: &Delivery) -> (r: Option<LineRequest>)
        ensures
            match self.notifier() {
                Some(notifier) => r is Some && r->0@ == delivered_by(notifier, delivery@),
                None => r is None,
            },
    {
        match delivery {
            Delivery::Reply { token, text } => self.reply_to_line_event(
                token.as_str(),
                text.as_str(),
            ),
            Delivery::Push { text } => self.reply_text(text.as_str()),
        }
    }
}

/// The request by which a bot delivers a message.
pub open spec fn delivered_by(notifier: LineNotifier, delivery: DeliveryView) -> LineRequestView {
    match delivery {
        DeliveryView::Reply { token, text } => notifier.reply(token, text),
        DeliveryView::Push { text } => notifier.push(text),
    }
}

/// A one-shot run: its first step, and the bot that tells of its end, if there is
/// one.
pub struct LocalRun {
    pub first: Step,
    pub notifier: Option<LineNotifier>,
}

/// What a one-shot run is, or why there is none: where the bot is switched on, it
/// needs both of its settings.
pub open spec fn local_run(
    r: Result<LocalRun, SettingError>,
    trigger: Seq<char>,
    mode: JobUpdateMode,
    line_bot: Option<String>,
    token: Option<String>,
    user_id: Option<String>,
    now: Timestamp,
) -> bool {
    let on = line_bot is Some && switches_on(line_bot->0@);
    match r {
        Ok(local) => {
            &&& on ==> token is Some && user_id is Some
            &&& local.notifier is Some == on
            &&& on ==> local.notifier->0.token() == token->0@
            &&& on ==> local.notifier->0.user() == user_id->0@
            &&& local.first@ == first_step(trigger, mode, on, now)
            &&& local.first@.wf()
        },
        Err(SettingError::Line) => on && token is Some != user_id is Some,
        Err(SettingError::LineCredentials) => on && token is None && user_id is None,
        Err(SettingError::Mail) => false,
    }
}

/// A one-shot run.
fn start_local(
    trigger: &str,
    mode: JobUpdateMode,
    line_bot: Option<String>,
    token: Option<String>,
    user_id: Option<String>,
    now: &Timestamp,
) -> (r: Result<LocalRun, SettingError>)
    requires
        now.has_taipei_date(),
    ensures
        local_run(r, trigger@, mode, line_bot, token, user_id, *now),
{
    match line::local_notifier(line_bot, token, user_id) {
        Err(e) => Err(e),
        Ok(notifier) => Ok(
            LocalRun {
                first: Step::OpenSearch(Run::start(trigger, mode, notifier.is_some(), now)),
                notifier,
            },
        ),
    }
}

/// A one-shot run that opens the pages of new and changed postings.
pub fn run_local_update(
    line_bot: Option<String>,
    token: Option<String>,
    user_id: Option<String>,
    now: &Timestamp,
) -> (r: Result<LocalRun, SettingError>)
    requires
        now.has_taipei_date(),
    ensures
        local_run(r, "local-cli"@, JobUpdateMode::Changed, line_bot, token, user_id, *now),
{
    start_local("local-cli", JobUpdateMode::Changed, line_bot, token, user_id, now)
}

/// A one-shot run that opens the pages of all postings.
pub fn run_local_update_all(
    line_bot: Option<String>,
    token: Option<String>,
    user_id: Option<String>,
    now: &Timestamp,
) -> (r: Result<LocalRun, SettingError>)
    requires
        now.has_taipei_date(),
    ensures
        local_run(r, "local-cli-all"@, JobUpdateMode::All, line_bot, token, user_id, *now),
{
    start_local("local-cli-all", JobUpdateMode::All, line_bot, token, user_id, now)
}

/// The port of the service unless a setting names another.
pub const DEFAULT_PORT: u16 = 3004;

/// The port that a setting names.
pub open spec fn port_of(setting: Option<Seq<char>>) -> Option<nat> {
    match setting {
        None => Some(DEFAULT_PORT as nat),
        Some(s) => match natural(s) {
            Some(n) => if n <= u16::MAX {
                Some(n)
            } else {
                None
            },
            None => None,
        },
    }
}

/// The port that the setting `JOB_WATCHER_PORT` names, if it is one.
pub fn service_port(setting: Option<String>) -> (r: Option<u16>)
    ensures
        port_of(opt_view(setting)) == (match r {
            Some(port) => Some(port as nat),
            None => None,
        }),
{
    match setting {
        None => Some(DEFAULT_PORT),
        Some(s) => match number::parse_natural(s.as_str()) {
            Some(n) => if n <= u16::MAX as u64 {
                Some(n as u16)
            } else {
                None
            },
            None => None,
        },
    }
}

/// A run that is due: what it is started by, and how long it is to be waited for.
pub struct DueRun {
    pub trigger: &'static str,
    pub wait: Delay,
}

/// The run that the service starts next: one when it starts, and then one every
/// day at the time set for it.
pub fn run_service(has_started: bool, now: &Timestamp) -> (r: DueRun)
    requires
        now.has_taipei_date(),
    ensures
        !has_started ==> r.trigger@ == "startup"@ && r.wait.seconds == 0 && r.wait.nanos == 0,
        has_started ==> {
            &&& r.trigger@ == "scheduled"@
            &&& r.wait.nanos < 1_000_000_000
            &&& r.wait.seconds * 1_000_000_000 + r.wait.nanos == (next_run_second(*now)
                - now.seconds) * 1_000_000_000 - now.nanos
        },
{
    if has_started {
        DueRun { trigger: "scheduled", wait: clock::next_scheduled_run(now) }
    } else {
        DueRun { trigger: "startup", wait: Delay { seconds: 0, nanos: 0 } }
    }
}

// ---------------------------------------------------------------------------
// Laws
// ---------------------------------------------------------------------------

/// A run starts with the search, and is of the time and the day that Taipei's clocks
/// show.
pub proof fn law_runs_start_with_the_search(
    trigger: Seq<char>,
    mode: JobUpdateMode,
    can_notify: bool,
    now: Timestamp,
)
    ensures
        ({
            let first = first_step(trigger, mode, can_notify, now);
            &&& first is OpenSearch
            &&& first->OpenSearch_0.trigger == trigger
            &&& first->OpenSearch_0.mode == mode
            &&& first->OpenSearch_0.can_notify == can_notify
            &&& first->OpenSearch_0.generated_at == clock::rfc3339_text(
                now.seconds as int,
                now.nanos as int,
                28_800,
            )
            &&& first->OpenSearch_0.day == (now.seconds + 28_800) / 86_400
        }),
{
}

/// A bot delivers a reply as a reply to its token, and pushes what is to be pushed.
pub proof fn law_messages_are_delivered_as_they_are(
    bot: LineNotifier,
    token: Seq<char>,
    text: Seq<char>,
)
    ensures
        delivered_by(bot, DeliveryView::Reply { token, text }) == bot.reply(token, text),
        delivered_by(bot, DeliveryView::Push { text }) == bot.push(text),
{
}

/// Without a setting the port is 3004. A setting names any port that is a number of 16
/// bits, and no other.
pub proof fn law_settings_name_the_port(setting: Seq<char>, n: nat)
    ensures
        port_of(None) == Some(3004nat),
        n <= 65_535 ==> port_of(Some(number::decimal(n))) == Some(n),
        n > 65_535 ==> port_of(Some(number::decimal(n))) is None,
        natural(setting) is None ==> port_of(Some(setting)) is None,
        natural(setting) == Some(n) && n <= 65_535 ==> port_of(Some(setting)) == Some(n),
{
    number::law_numbers_are_read_back(n);
}

/// A one-shot run speaks through the bot where that is switched on, which takes both
/// of its settings; where it is not, the run needs none and is silent.
pub proof fn law_one_shot_runs_speak_where_switched_on(
    r: Result<LocalRun, SettingError>,
    trigger: Seq<char>,
    mode: JobUpdateMode,
    line_bot: Option<String>,
    token: Option<String>,
    user_id: Option<String>,
    now: Timestamp,
)
    requires
        local_run(r, trigger, mode, line_bot, token, user_id, now),
    ensures
        ({
            let on = line_bot is Some && switches_on(line_bot->0@);
            &&& !on ==> r is Ok && r->Ok_0.notifier is None
            &&& on && token is Some && user_id is Some ==> r is Ok && r->Ok_0.notifier is Some
                && r->Ok_0.notifier->0.token() == token->0@ && r->Ok_0.notifier->0.user()
                == user_id->0@
            &&& on && token is Some != user_id is Some ==> r == Err::<LocalRun, SettingError>(
                SettingError::Line,
            )
            &&& on && token is None && user_id is None ==> r == Err::<LocalRun, SettingError>(
                SettingError::LineCredentials,
            )
            &&& r is Ok ==> r->Ok_0.first@ == first_step(trigger, mode, on, now)
        }),
{
}

} // verus!
