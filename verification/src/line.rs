//! The LINE bot: its requests, its commands, and what it answers.

use vstd::prelude::*;
use vstd::string::*;
use crate::json;
use crate::json::{Json, JsonTree};
use crate::mail::SettingError;
use crate::report;
use crate::report::digest;
use crate::scan;
use crate::source::linkedin::{is_switched_on, switches_on};
use crate::summary::{SummaryView, SyncSummary};
use crate::text::{opt_view, trim};

verus! {

broadcast use vstd::string::group_string_axioms;

/// Where messages are pushed to.
pub const PUSH_URL: &'static str = "https://api.line.me/v2/bot/message/push";

/// Where replies go.
pub const REPLY_URL: &'static str = "https://api.line.me/v2/bot/message/reply";

// ---------------------------------------------------------------------------
// Requests
// ---------------------------------------------------------------------------

/// Whom a message is for.
#[derive(Debug, PartialEq, Eq)]
pub enum Addressee {
    /// A user.
    User(String),
    /// Whoever sent the event with a reply token.
    ReplyToken(String),
}

/// Whom a message is for, as text.
pub enum AddresseeView {
    User(Seq<char>),
    ReplyToken(Seq<char>),
}

/// A request that sends a text message.
#[derive(Debug, PartialEq, Eq)]
pub struct LineRequest {
    pub url: String,
    pub bearer: String,
    pub addressee: Addressee,
    pub text: String,
}

/// What a request says.
pub struct LineRequestView {
    pub url: Seq<char>,
    pub bearer: Seq<char>,
    pub addressee: AddresseeView,
    pub text: Seq<char>,
}

impl View for LineRequest {
    type V = LineRequestView;

    open spec fn view(&self) -> LineRequestView {
        LineRequestView {
            url: self.url@,
            bearer: self.bearer@,
            addressee: match self.addressee {
                Addressee::User(id) => AddresseeView::User(id@),
                Addressee::ReplyToken(token) => AddresseeView::ReplyToken(token@),
            },
            text: self.text@,
        }
    }
}

/// The bot's credentials.
pub struct LineNotifier {
    channel_access_token: String,
    user_id: String,
}

impl LineNotifier {
    /// The bot's access token.
    pub closed spec fn token(self) -> Seq<char> {
        self.channel_access_token@
    }

    /// The user that messages are pushed to.
    pub closed spec fn user(self) -> Seq<char> {
        self.user_id@
    }

    /// The request that pushes a text to the user.
    pub open spec fn push(self, text: Seq<char>) -> LineRequestView {
        LineRequestView {
            url: PUSH_URL@,
            bearer: self.token(),
            addressee: AddresseeView::User(self.user()),
            text,
        }
    }

    /// The request that replies to an event.
    pub open spec fn reply(self, reply_token: Seq<char>, text: Seq<char>) -> LineRequestView {
        LineRequestView {
            url: REPLY_URL@,
            bearer: self.token(),
            addressee: AddresseeView::ReplyToken(reply_token),
            text,
        }
    }

    /// The bot that the settings `LINE_CHANNEL_ACCESS_TOKEN` and `LINE_USER_ID`
    /// name, if any is set.
    pub fn from_env(token: Option<String>, user_id: Option<String>) -> (r: Result<
        Option<LineNotifier>,
        SettingError,
    >)
        ensures
            match r {
                Ok(None) => token is None && user_id is None,
                Ok(Some(notifier)) => {
                    &&& token is Some && user_id is Some
                    &&& notifier.token() == token->0@
                    &&& notifier.user() == user_id->0@
                },
                Err(e) => e == SettingError::Line && token is Some != user_id is Some,
            },
    {
        match (token, user_id) {
            (None, None) => Ok(None),
            (Some(channel_access_token), Some(user_id)) => Ok(
                Some(LineNotifier { channel_access_token, user_id }),
            ),
            _ => Err(SettingError::Line),
        }
    }

    /// The request that pushes a text to the user.
    pub fn send_text(&self, text: &str) -> (r: LineRequest)
        ensures
            r@ == self.push(text@),
    {
        LineRequest {
            url: PUSH_URL.to_owned(),
            bearer: self.channel_access_token.clone(),
            addressee: Addressee::User(self.user_id.clone()),
            text: text.to_owned(),
        }
    }

    /// The request that replies to an event.
    pub fn reply_text(&self, reply_token: &str, text: &str) -> (r: LineRequest)
        ensures
            r@ == self.reply(reply_token@, text@),
    {
        LineRequest {
            url: REPLY_URL.to_owned(),
            bearer: self.channel_access_token.clone(),
            addressee: Addressee::ReplyToken(reply_token.to_owned()),
            text: text.to_owned(),
        }
    }
}

/// The bot that a one-shot run tells of its end, given the switch
/// `JOB_WATCHER_LINE_BOT` and the bot's settings: none where it is switched off;
/// switched on, it needs both settings.
pub fn local_notifier(line_bot: Option<String>, token: Option<String>, user_id: Option<String>) -> (r:
    Result<Option<LineNotifier>, SettingError>)
    ensures
        match r {
            Ok(None) => !(line_bot is Some && switches_on(line_bot->0@)),
            Ok(Some(notifier)) => {
                &&& line_bot is Some && switches_on(line_bot->0@)
                &&& token is Some && user_id is Some
                &&& notifier.token() == token->0@
                &&& notifier.user() == user_id->0@
            },
            Err(SettingError::Line) => {
                &&& line_bot is Some && switches_on(line_bot->0@)
                &&& token is Some != user_id is Some
            },
            Err(SettingError::LineCredentials) => {
                &&& line_bot is Some && switches_on(line_bot->0@)
                &&& token is None && user_id is None
            },
            Err(SettingError::Mail) => false,
        },
{
    if !is_switched_on(&line_bot) {
        return Ok(None);
    }
    match LineNotifier::from_env(token, user_id) {
        Ok(Some(notifier)) => Ok(Some(notifier)),
        Ok(None) => Err(SettingError::LineCredentials),
        Err(e) => Err(e),
    }
}

// ---------------------------------------------------------------------------
// Commands
// ---------------------------------------------------------------------------

/// The command that a message gives.
pub open spec fn command_in(message: Seq<char>) -> Option<Seq<char>> {
    if trim(message) == "今日履歷"@ {
        Some("today"@)
    } else if trim(message) == "更新JD"@ {
        Some("update"@)
    } else {
        None
    }
}

/// The command that a message gives. It is the message as a whole, but for white
/// space at its ends.
pub fn command_for(text: &str) -> (r: Option<&'static str>)
    ensures
        crate::text::opt_str_view(r) == command_in(text@),
{
    let trimmed: &str = scan::trim(text);
    if scan::same(trimmed, "今日履歷") {
        Some("today")
    } else if scan::same(trimmed, "更新JD") {
        Some("update")
    } else {
        None
    }
}

/// A command with the token that it can be replied to by.
#[derive(Debug, PartialEq, Eq)]
pub struct WebhookCommand {
    pub command: String,
    pub reply_token: Option<String>,
}

/// What a command with its token says.
pub struct WebhookCommandView {
    pub command: Seq<char>,
    pub reply_token: Option<Seq<char>>,
}

impl View for WebhookCommand {
    type V = WebhookCommandView;

    open spec fn view(&self) -> WebhookCommandView {
        WebhookCommandView { command: self.command@, reply_token: opt_view(self.reply_token) }
    }
}

/// What each command of a list says.
pub open spec fn command_views(commands: Seq<WebhookCommand>) -> Seq<WebhookCommandView> {
    commands.map_values(|c: WebhookCommand| c@)
}

/// The text of the message that an event brings.
pub open spec fn event_text(event: JsonTree) -> Option<Seq<char>> {
    match event.member("message"@) {
        Some(message) => message.text_at("text"@),
        None => None,
    }
}

/// The command that an event brings.
pub open spec fn event_command(event: JsonTree) -> Option<WebhookCommandView> {
    match event_text(event) {
        None => None,
        Some(message) => match command_in(message) {
            None => None,
            Some(command) => Some(
                WebhookCommandView { command, reply_token: event.text_at("replyToken"@) },
            ),
        },
    }
}

/// The commands that some events bring, in order; all else is passed over.
pub open spec fn commands_of(events: Seq<JsonTree>) -> Seq<WebhookCommandView>
    decreases events.len(),
{
    if events.len() == 0 {
        Seq::empty()
    } else {
        match event_command(events.last()) {
            Some(command) => commands_of(events.drop_last()).push(command),
            None => commands_of(events.drop_last()),
        }
    }
}

/// The commands that a call of the webhook brings.
pub open spec fn webhook_commands(payload: JsonTree) -> Seq<WebhookCommandView> {
    match payload.items_at("events"@) {
        Some(events) => commands_of(events),
        None => Seq::empty(),
    }
}

/// The text of the message that an event brings.
fn text_of_event<'a>(event: &'a Json) -> (r: Option<&'a str>)
    ensures
        crate::text::opt_str_view(r) == event_text(event.tree()),
{
    match event.get("message") {
        Some(message) => message.get_text("text"),
        None => None,
    }
}

/// The command that an event brings.
fn command_of_event(event: &Json) -> (r: Option<WebhookCommand>)
    ensures
        event_command(event.tree()) == (match r {
            Some(c) => Some(c@),
            None => None,
        }),
{
    match text_of_event(event) {
        None => None,
        Some(message) => match command_for(message) {
            None => None,
            Some(command) => {
                let reply_token: Option<String> = match event.get_text("replyToken") {
                    Some(token) => Some(token.to_owned()),
                    None => None,
                };
                Some(WebhookCommand { command: command.to_owned(), reply_token })
            },
        },
    }
}

/// The commands that a call of the webhook brings, in order.
pub fn handle_webhook(payload: &Json) -> (r: Vec<WebhookCommand>)
    ensures
        command_views(r@) == webhook_commands(payload.tree()),
{
    let mut out: Vec<WebhookCommand> = Vec::new();
    assert(command_views(out@) =~= Seq::empty());
    match payload.get_list("events") {
        None => out,
        Some(events) => {
            let ghost all = json::trees(events@);
            let mut i: usize = 0;
            while i < events.len()
                invariant
                    all == json::trees(events@),
                    i <= events@.len(),
                    command_views(out@) == commands_of(all.take(i as int)),
                decreases events@.len() - i,
            {
                let ghost earlier = out@;
                assert(all.take(i + 1).drop_last() =~= all.take(i as int));
                assert(all[i as int] == events@[i as int].tree());
                match command_of_event(&events[i]) {
                    Some(command) => {
                        let ghost said = command@;
                        out.push(command);
                        assert(command_views(out@) =~= command_views(earlier).push(said));
                    },
                    None => {},
                }
                i += 1;
            }
            assert(all.take(i as int) =~= all);
            out
        },
    }
}

// ---------------------------------------------------------------------------
// Answers
// ---------------------------------------------------------------------------

/// A message on its way: as the reply to an event, or pushed to the user.
#[derive(Debug, PartialEq, Eq)]
pub enum Delivery {
    Reply { token: String, text: String },
    Push { text: String },
}

/// A message on its way, as text.
pub enum DeliveryView {
    Reply { token: Seq<char>, text: Seq<char> },
    Push { text: Seq<char> },
}

impl View for Delivery {
    type V = DeliveryView;

    open spec fn view(&self) -> DeliveryView {
        match self {
            Delivery::Reply { token, text } => DeliveryView::Reply { token: token@, text: text@ },
            Delivery::Push { text } => DeliveryView::Push { text: text@ },
        }
    }
}

/// A message as the reply to an event, where there is a token, or else pushed.
pub open spec fn answer_to(token: Option<Seq<char>>, text: Seq<char>) -> DeliveryView {
    match token {
        Some(token) => DeliveryView::Reply { token, text },
        None => DeliveryView::Push { text },
    }
}

/// A message as the reply to an event, where there is a token, or else pushed.
pub fn answer(token: &Option<String>, text: &str) -> (r: Delivery)
    ensures
        r@ == answer_to(opt_view(*token), text@),
{
    match token {
        Some(t) => Delivery::Reply { token: t.clone(), text: text.to_owned() },
        None => Delivery::Push { text: text.to_owned() },
    }
}

/// What is tried when the digest of a day could not be delivered: a reply is
/// pushed instead, and a push is not tried again.
pub open spec fn fallback_of(failed: DeliveryView) -> Option<DeliveryView> {
    match failed {
        DeliveryView::Reply { token, text } => Some(DeliveryView::Push { text }),
        DeliveryView::Push { text } => None,
    }
}

/// What is tried when the digest of a day could not be delivered.
pub fn second_try(failed: &Delivery) -> (r: Option<Delivery>)
    ensures
        fallback_of(failed@) == (match r {
            Some(delivery) => Some(delivery@),
            None => None,
        }),
{
    match failed {
        Delivery::Reply { token, text } => Some(Delivery::Push { text: text.clone() }),
        Delivery::Push { text } => None,
    }
}

/// What is said when an update starts.
pub open spec fn started_text(execution_time: Seq<char>) -> Seq<char> {
    "104 Job Watcher\n更新JD 已開始\n預計執行時間："@ + execution_time
}

/// What is said when an update starts.
pub fn started_message(execution_time: &str) -> (r: String)
    ensures
        r@ == started_text(execution_time@),
{
    scan::concat("104 Job Watcher\n更新JD 已開始\n預計執行時間：", execution_time)
}

/// What came of an update.
pub enum UpdateOutcome {
    /// It is done.
    Completed(SyncSummary),
    /// Another update was running.
    Busy,
    /// It failed, with what went wrong.
    Failed(String),
}

/// What came of an update that was asked for: a run gave a summary or an error, or
/// none was made because another was under way.
pub fn update_outcome(result: Result<Option<SyncSummary>, String>) -> (r: UpdateOutcome)
    ensures
        r == (match result {
            Ok(Some(summary)) => UpdateOutcome::Completed(summary),
            Ok(None) => UpdateOutcome::Busy,
            Err(error) => UpdateOutcome::Failed(error),
        }),
{
    match result {
        Ok(Some(summary)) => UpdateOutcome::Completed(summary),
        Ok(None) => UpdateOutcome::Busy,
        Err(error) => UpdateOutcome::Failed(error),
    }
}

/// What came of an update, as text.
pub enum UpdateOutcomeView {
    Completed(SummaryView),
    Busy,
    Failed(Seq<char>),
}

impl View for UpdateOutcome {
    type V = UpdateOutcomeView;

    open spec fn view(&self) -> UpdateOutcomeView {
        match self {
            UpdateOutcome::Completed(summary) => UpdateOutcomeView::Completed(summary@),
            UpdateOutcome::Busy => UpdateOutcomeView::Busy,
            UpdateOutcome::Failed(error) => UpdateOutcomeView::Failed(error@),
        }
    }
}

/// What is said when an update is over.
pub open spec fn outcome_text(outcome: UpdateOutcomeView, execution_time: Seq<char>) -> Seq<char> {
    match outcome {
        UpdateOutcomeView::Completed(summary) => digest(summary, "104 Job Watcher\n更新完成"@),
        UpdateOutcomeView::Busy => "104 Job Watcher\n\n執行時間："@ + execution_time
            + "\n目前正在更新 JD，請稍後再試。"@,
        UpdateOutcomeView::Failed(error) => "104 Job Watcher\n\n執行時間："@ + execution_time
            + "\n更新失敗："@ + error,
    }
}

/// What is said when an update is over. The reply token went with what was said
/// when it started, so this is pushed.
pub fn outcome_message(outcome: &UpdateOutcome, execution_time: &str) -> (r: Delivery)
    ensures
        r@ == (DeliveryView::Push { text: outcome_text(outcome@, execution_time@) }),
{
    let text: String = match outcome {
        UpdateOutcome::Completed(summary) => report::summary_digest(
            summary,
            "104 Job Watcher\n更新完成",
        ),
        UpdateOutcome::Busy => scan::concat3(
            "104 Job Watcher\n\n執行時間：",
            execution_time,
            "\n目前正在更新 JD，請稍後再試。",
        ),
        UpdateOutcome::Failed(error) => {
            let mut out: String = scan::concat3(
                "104 Job Watcher\n\n執行時間：",
                execution_time,
                "\n更新失敗：",
            );
            out.append(error.as_str());
            out
        },
    };
    Delivery::Push { text }
}

// ---------------------------------------------------------------------------
// From a command to its last answer
// ---------------------------------------------------------------------------

/// The trigger under which a command's run is made.
pub const MANUAL: &'static str = "manual";

/// What follows a message.
#[derive(Debug, PartialEq, Eq)]
pub enum FollowUp {
    /// The message goes the other way, if it could not be delivered.
    SecondTry,
    /// A run.
    Run { execution_time: String },
    /// Nothing.
    Nothing,
}

/// What follows a message, as text.
pub enum FollowUpView {
    SecondTry,
    Run { execution_time: Seq<char> },
    Nothing,
}

impl View for FollowUp {
    type V = FollowUpView;

    open spec fn view(&self) -> FollowUpView {
        match self {
            FollowUp::SecondTry => FollowUpView::SecondTry,
            FollowUp::Run { execution_time } => FollowUpView::Run {
                execution_time: execution_time@,
            },
            FollowUp::Nothing => FollowUpView::Nothing,
        }
    }
}

/// What is to be done about a command.
#[derive(Debug, PartialEq, Eq)]
pub enum CommandStep {
    /// A message is to be delivered.
    Deliver { message: Delivery, follow_up: FollowUp },
    /// A run is to be made, unless one is under way.
    Synchronize { trigger: String, execution_time: String },
    /// Nothing is left to be done.
    Done,
}

/// What is to be done about a command, as text.
pub enum CommandStepView {
    Deliver { message: DeliveryView, follow_up: FollowUpView },
    Synchronize { trigger: Seq<char>, execution_time: Seq<char> },
    Done,
}

impl View for CommandStep {
    type V = CommandStepView;

    open spec fn view(&self) -> CommandStepView {
        match self {
            CommandStep::Deliver { message, follow_up } => CommandStepView::Deliver {
                message: message@,
                follow_up: follow_up@,
            },
            CommandStep::Synchronize { trigger, execution_time } => CommandStepView::Synchronize {
                trigger: trigger@,
                execution_time: execution_time@,
            },
            CommandStep::Done => CommandStepView::Done,
        }
    }
}

/// What came of a step.
pub enum CommandEvent {
    /// The message was delivered.
    Delivered,
    /// The message could not be delivered.
    DeliveryFailed,
    /// The run is over.
    Ended(UpdateOutcome),
}

/// What came of a step, as text.
pub enum CommandEventView {
    Delivered,
    DeliveryFailed,
    Ended(UpdateOutcomeView),
}

impl View for CommandEvent {
    type V = CommandEventView;

    open spec fn view(&self) -> CommandEventView {
        match self {
            CommandEvent::Delivered => CommandEventView::Delivered,
            CommandEvent::DeliveryFailed => CommandEventView::DeliveryFailed,
            CommandEvent::Ended(outcome) => CommandEventView::Ended(outcome@),
        }
    }
}

/// The first step about a command: "today" is answered with the digest of the
/// day, "update" with the notice that a run starts.
pub open spec fn first_answer_of(
    command: WebhookCommandView,
    digest: Seq<char>,
    execution_time: Seq<char>,
) -> CommandStepView {
    if command.command == "today"@ {
        CommandStepView::Deliver {
            message: answer_to(command.reply_token, digest),
            follow_up: FollowUpView::SecondTry,
        }
    } else if command.command == "update"@ {
        CommandStepView::Deliver {
            message: answer_to(command.reply_token, started_text(execution_time)),
            follow_up: FollowUpView::Run { execution_time },
        }
    } else {
        CommandStepView::Done
    }
}

/// The step behind a step, given what came of it. What does not fit the step
/// ends the answer.
pub open spec fn next_answer_of(step: CommandStepView, event: CommandEventView) -> CommandStepView {
    match (step, event) {
        (CommandStepView::Deliver { message, follow_up }, CommandEventView::Delivered) => match follow_up {
            FollowUpView::Run { execution_time } => CommandStepView::Synchronize {
                trigger: MANUAL@,
                execution_time,
            },
            _ => CommandStepView::Done,
        },
        (CommandStepView::Deliver { message, follow_up }, CommandEventView::DeliveryFailed) => match follow_up {
            FollowUpView::Run { execution_time } => CommandStepView::Synchronize {
                trigger: MANUAL@,
                execution_time,
            },
            FollowUpView::SecondTry => match fallback_of(message) {
                Some(second) => CommandStepView::Deliver {
                    message: second,
                    follow_up: FollowUpView::Nothing,
                },
                None => CommandStepView::Done,
            },
            FollowUpView::Nothing => CommandStepView::Done,
        },
        (
            CommandStepView::Synchronize { trigger, execution_time },
            CommandEventView::Ended(outcome),
        ) => CommandStepView::Deliver {
            message: DeliveryView::Push { text: outcome_text(outcome, execution_time) },
            follow_up: FollowUpView::Nothing,
        },
        _ => CommandStepView::Done,
    }
}

/// The first step about a command, given the digest of the day and the time.
pub fn first_answer(command: &WebhookCommand, digest: &str, execution_time: &str) -> (r: CommandStep)
    ensures
        r@ == first_answer_of(command@, digest@, execution_time@),
{
    if scan::same(command.command.as_str(), "today") {
        CommandStep::Deliver {
            message: answer(&command.reply_token, digest),
            follow_up: FollowUp::SecondTry,
        }
    } else if scan::same(command.command.as_str(), "update") {
        CommandStep::Deliver {
            message: answer(&command.reply_token, started_message(execution_time).as_str()),
            follow_up: FollowUp::Run { execution_time: execution_time.to_owned() },
        }
    } else {
        CommandStep::Done
    }
}

/// The step behind a step, given what came of it.
pub fn next_answer(step: CommandStep, event: CommandEvent) -> (r: CommandStep)
    ensures
        r@ == next_answer_of(step@, event@),
{
    match step {
        CommandStep::Deliver { message, follow_up } => {
            let failed: bool = match event {
                CommandEvent::Delivered => false,
                CommandEvent::DeliveryFailed => true,
                CommandEvent::Ended(_) => {
                    return CommandStep::Done;
                },
            };
            match follow_up {
                FollowUp::Run { execution_time } => CommandStep::Synchronize {
                    trigger: MANUAL.to_owned(),
                    execution_time,
                },
                FollowUp::SecondTry => if failed {
                    match second_try(&message) {
                        Some(second) => CommandStep::Deliver {
                            message: second,
                            follow_up: FollowUp::Nothing,
                        },
                        None => CommandStep::Done,
                    }
                } else {
                    CommandStep::Done
                },
                FollowUp::Nothing => CommandStep::Done,
            }
        },
        CommandStep::Synchronize { trigger, execution_time } => match event {
            CommandEvent::Ended(outcome) => CommandStep::Deliver {
                message: outcome_message(&outcome, execution_time.as_str()),
                follow_up: FollowUp::Nothing,
            },
            _ => CommandStep::Done,
        },
        CommandStep::Done => CommandStep::Done,
    }
}

/// The step that some events lead to.
pub open spec fn answer_after(first: CommandStepView, events: Seq<CommandEventView>) -> CommandStepView
    decreases events.len(),
{
    if events.len() == 0 {
        first
    } else {
        next_answer_of(answer_after(first, events.drop_last()), events.last())
    }
}

/// How many runs are asked for on the way that some events lead.
pub open spec fn runs_asked_for(first: CommandStepView, events: Seq<CommandEventView>) -> nat
    decreases events.len(),
{
    let last = if answer_after(first, events) is Synchronize {
        1nat
    } else {
        0nat
    };
    if events.len() == 0 {
        last
    } else {
        runs_asked_for(first, events.drop_last()) + last
    }
}

/// An event tells what came of a step.
pub open spec fn tells_of(step: CommandStepView, event: CommandEventView) -> bool {
    match step {
        CommandStepView::Deliver { message, follow_up } => !(event is Ended),
        CommandStepView::Synchronize { trigger, execution_time } => event is Ended,
        CommandStepView::Done => false,
    }
}

/// Each of some events tells what came of the step before it.
pub open spec fn tell_of(first: CommandStepView, events: Seq<CommandEventView>) -> bool
    decreases events.len(),
{
    events.len() == 0 || (tell_of(first, events.drop_last()) && tells_of(
        answer_after(first, events.drop_last()),
        events.last(),
    ))
}

/// Where a digest of a day leads: to its delivery, to a second try, or to the end.
proof fn lemma_today(
    command: WebhookCommandView,
    digest: Seq<char>,
    execution_time: Seq<char>,
    events: Seq<CommandEventView>,
)
    requires
        command.command == "today"@,
    ensures
        ({
            let first = first_answer_of(command, digest, execution_time);
            let step = answer_after(first, events);
            &&& runs_asked_for(first, events) == 0
            &&& events.len() == 0 || step is Done || step == (CommandStepView::Deliver {
                message: DeliveryView::Push { text: digest },
                follow_up: FollowUpView::Nothing,
            })
            &&& events.len() >= 2 ==> step is Done
        }),
    decreases events.len(),
{
    if events.len() > 0 {
        lemma_today(command, digest, execution_time, events.drop_last());
    }
}

/// The message 今日履歷 is answered with the digest of the day: as a reply where
/// there is a token, and pushed where there is none or the reply could not be
/// delivered. Whatever comes of that, no run is made.
pub proof fn law_today_is_answered_without_a_run(
    event: JsonTree,
    digest: Seq<char>,
    execution_time: Seq<char>,
    events: Seq<CommandEventView>,
)
    requires
        event_text(event) is Some,
        trim(event_text(event)->0) == "今日履歷"@,
    ensures
        event_command(event) is Some,
        ({
            let token = event.text_at("replyToken"@);
            let first = first_answer_of(event_command(event)->0, digest, execution_time);
            &&& first is Deliver
            &&& first->message == answer_to(token, digest)
            &&& token is Some ==> next_answer_of(first, CommandEventView::DeliveryFailed) == (
            CommandStepView::Deliver {
                message: DeliveryView::Push { text: digest },
                follow_up: FollowUpView::Nothing,
            })
            &&& next_answer_of(first, CommandEventView::Delivered) is Done
            &&& runs_asked_for(first, events) == 0
            &&& !(answer_after(first, events) is Synchronize)
            &&& events.len() >= 2 ==> answer_after(first, events) is Done
        }),
{
    lemma_today(event_command(event)->0, digest, execution_time, events);
}

/// Where an update leads: first to its run, and from there to what came of it.
proof fn lemma_update(
    command: WebhookCommandView,
    digest: Seq<char>,
    execution_time: Seq<char>,
    events: Seq<CommandEventView>,
)
    requires
        command.command == "update"@,
        tell_of(first_answer_of(command, digest, execution_time), events),
    ensures
        ({
            let first = first_answer_of(command, digest, execution_time);
            let step = answer_after(first, events);
            &&& runs_asked_for(first, events) == (if events.len() == 0 {
                0nat
            } else {
                1nat
            })
            &&& events.len() == 1 ==> step == (CommandStepView::Synchronize {
                trigger: MANUAL@,
                execution_time,
            })
            &&& events.len() == 2 ==> events[1] is Ended && step == (CommandStepView::Deliver {
                message: DeliveryView::Push {
                    text: outcome_text(events[1]->Ended_0, execution_time),
                },
                follow_up: FollowUpView::Nothing,
            })
            &&& events.len() == 3 ==> step is Done
            &&& events.len() <= 3
        }),
    decreases events.len(),
{
    reveal_strlit("today");
    reveal_strlit("update");
    assert("today"@.len() != "update"@.len());
    if events.len() > 0 {
        lemma_update(command, digest, execution_time, events.drop_last());
    }
}

/// The message 更新JD is answered with the notice that a run starts. Whether or
/// not that could be delivered, exactly one run is then asked for, as a manual
/// one, and behind it what came of the run is pushed.
pub proof fn law_an_update_is_one_run(
    event: JsonTree,
    digest: Seq<char>,
    execution_time: Seq<char>,
    events: Seq<CommandEventView>,
)
    requires
        event_text(event) is Some,
        trim(event_text(event)->0) == "更新JD"@,
        event_command(event) is Some ==> tell_of(
            first_answer_of(event_command(event)->0, digest, execution_time),
            events,
        ),
    ensures
        event_command(event) is Some,
        ({
            let first = first_answer_of(event_command(event)->0, digest, execution_time);
            let step = answer_after(first, events);
            &&& first is Deliver
            &&& first->message == answer_to(
                event.text_at("replyToken"@),
                started_text(execution_time),
            )
            &&& events.len() <= 3
            &&& runs_asked_for(first, events) == (if events.len() == 0 {
                0nat
            } else {
                1nat
            })
            &&& events.len() == 1 ==> step == (CommandStepView::Synchronize {
                trigger: MANUAL@,
                execution_time,
            })
            &&& events.len() == 2 ==> events[1] is Ended && step is Deliver && step->message == (
            DeliveryView::Push { text: outcome_text(events[1]->Ended_0, execution_time) })
            &&& events.len() == 3 ==> step is Done
        }),
{
    reveal_strlit("今日履歷");
    reveal_strlit("更新JD");
    reveal_strlit("today");
    reveal_strlit("update");
    assert("今日履歷"@[0] != "更新JD"@[0]);
    assert("today"@.len() != "update"@.len());
    lemma_update(event_command(event)->0, digest, execution_time, events);
}

/// A call whose events bring no message, or only other messages, is answered with
/// nothing.
pub proof fn law_other_messages_do_nothing(payload: JsonTree)
    requires
        match payload.items_at("events"@) {
            Some(events) => forall|i: int|
                0 <= i < events.len() ==> match event_text(#[trigger] events[i]) {
                    Some(message) => trim(message) != "今日履歷"@ && trim(message) != "更新JD"@,
                    None => true,
                },
            None => true,
        },
    ensures
        webhook_commands(payload).len() == 0,
{
    match payload.items_at("events"@) {
        Some(events) => lemma_no_command(events),
        None => {},
    }
}

/// Events that bring no command.
proof fn lemma_no_command(events: Seq<JsonTree>)
    requires
        forall|i: int| 0 <= i < events.len() ==> event_command(#[trigger] events[i]) is None,
    ensures
        commands_of(events).len() == 0,
    decreases events.len(),
{
    if events.len() > 0 {
        assert forall|i: int| 0 <= i < events.drop_last().len() implies event_command(
            #[trigger] events.drop_last()[i],
        ) is None by {
            assert(events.drop_last()[i] == events[i]);
        }
        lemma_no_command(events.drop_last());
    }
}

/// A command says what each of its fields holds.
pub proof fn law_a_command_says_what_it_holds(x: WebhookCommand)
    ensures
        x@.command == x.command@,
        x@.reply_token == opt_view(x.reply_token),
{
}

/// A text is pushed to the bot's user, and a reply goes to the event's token, each to
/// its own address and with the bot's token.
pub proof fn law_requests_go_where_they_are_meant_to(
    bot: LineNotifier,
    token: Seq<char>,
    text: Seq<char>,
)
    ensures
        bot.push(text).url == "https://api.line.me/v2/bot/message/push"@,
        bot.push(text).addressee == AddresseeView::User(bot.user()),
        bot.push(text).bearer == bot.token() && bot.push(text).text == text,
        bot.reply(token, text).url == "https://api.line.me/v2/bot/message/reply"@,
        bot.reply(token, text).addressee == AddresseeView::ReplyToken(token),
        bot.reply(token, text).bearer == bot.token() && bot.reply(token, text).text == text,
{
}

/// A request says what each of its fields holds.
pub proof fn law_a_request_says_what_it_holds(r: LineRequest, s: String)
    ensures
        r@.url == r.url@ && r@.bearer == r.bearer@ && r@.text == r.text@,
        r.addressee == Addressee::User(s) ==> r@.addressee == AddresseeView::User(s@),
        r.addressee == Addressee::ReplyToken(s) ==> r@.addressee == AddresseeView::ReplyToken(s@),
{
}

/// Two messages are commands, with any white space around them; no other is.
pub proof fn law_two_messages_are_commands(message: Seq<char>)
    ensures
        trim(message) == "今日履歷"@ ==> command_in(message) == Some("today"@),
        trim(message) == "更新JD"@ ==> command_in(message) == Some("update"@),
        trim(message) != "今日履歷"@ && trim(message) != "更新JD"@ ==> command_in(message) is None,
{
    reveal_strlit("今日履歷");
    reveal_strlit("更新JD");
    assert("今日履歷"@[0] != "更新JD"@[0]);
}

/// An event brings the command in the text of its message, with its reply token.
pub proof fn law_events_bring_commands(event: JsonTree, message: JsonTree, said: Seq<char>)
    ensures
        event.member("message"@) == Some(message) && message.text_at("text"@) == Some(said)
            && command_in(said) is Some ==> event_command(event) == Some(
            (WebhookCommandView {
                command: command_in(said)->0,
                reply_token: event.text_at("replyToken"@),
            }),
        ),
        event.member("message"@) == Some(message) && message.text_at("text"@) == Some(said)
            && command_in(said) is None ==> event_command(event) is None,
        event.member("message"@) is None ==> event_command(event) is None,
        event.member("message"@) == Some(message) && message.text_at("text"@) is None
            ==> event_command(event) is None,
{
}

/// The commands of a call come in the order of its events; an event that brings none
/// is passed over.
pub proof fn law_commands_come_in_order(
    payload: JsonTree,
    events: Seq<JsonTree>,
    event: JsonTree,
)
    ensures
        commands_of(Seq::empty()).len() == 0,
        event_command(event) is Some ==> commands_of(events.push(event)) == commands_of(
            events,
        ).push(event_command(event)->0),
        event_command(event) is None ==> commands_of(events.push(event)) == commands_of(events),
        payload.items_at("events"@) == Some(events) ==> webhook_commands(payload) == commands_of(
            events,
        ),
        payload.items_at("events"@) is None ==> webhook_commands(payload).len() == 0,
{
    assert(events.push(event).drop_last() =~= events);
}

/// A message is a reply where there is a token, and is pushed where there is none. A
/// reply that failed is pushed, with the same text, and a push is not tried again.
pub proof fn law_messages_are_replies_where_they_can_be(token: Seq<char>, text: Seq<char>)
    ensures
        answer_to(Some(token), text) == (DeliveryView::Reply { token, text }),
        answer_to(None, text) == (DeliveryView::Push { text }),
        fallback_of(answer_to(Some(token), text)) == Some(answer_to(None, text)),
        fallback_of(answer_to(None, text)) is None,
{
}

/// What is said about an update tells when it is made and what came of it.
pub proof fn law_updates_are_told_with_their_time(
    time: Seq<char>,
    error: Seq<char>,
    summary: SummaryView,
)
    ensures
        started_text(time) == "104 Job Watcher\n更新JD 已開始\n預計執行時間："@ + time,
        outcome_text(UpdateOutcomeView::Completed(summary), time) == digest(
            summary,
            "104 Job Watcher\n更新完成"@,
        ),
        outcome_text(UpdateOutcomeView::Busy, time) == "104 Job Watcher\n\n執行時間："@ + time
            + "\n目前正在更新 JD，請稍後再試。"@,
        outcome_text(UpdateOutcomeView::Failed(error), time) == "104 Job Watcher\n\n執行時間："@
            + time + "\n更新失敗："@ + error,
{
}

/// A run that a command asks for is a manual one. What does not fit a step, and any
/// other command, ends the answer.
pub proof fn law_answers_end_where_nothing_fits(
    command: WebhookCommandView,
    digest: Seq<char>,
    time: Seq<char>,
    message: DeliveryView,
    outcome: UpdateOutcomeView,
    event: CommandEventView,
)
    ensures
        command.command != "today"@ && command.command != "update"@ ==> first_answer_of(
            command,
            digest,
            time,
        ) is Done,
        next_answer_of(CommandStepView::Done, event) is Done,
        ({
            let notice = CommandStepView::Deliver {
                message,
                follow_up: FollowUpView::Run { execution_time: time },
            };
            let run = CommandStepView::Synchronize { trigger: "manual"@, execution_time: time };
            &&& next_answer_of(notice, CommandEventView::Delivered) == run
            &&& next_answer_of(notice, CommandEventView::DeliveryFailed) == run
            &&& next_answer_of(notice, CommandEventView::Ended(outcome)) is Done
            &&& next_answer_of(run, CommandEventView::Delivered) is Done
            &&& next_answer_of(run, CommandEventView::DeliveryFailed) is Done
            &&& next_answer_of(run, CommandEventView::Ended(outcome)) == (
            CommandStepView::Deliver {
                message: DeliveryView::Push { text: outcome_text(outcome, time) },
                follow_up: FollowUpView::Nothing,
            })
        }),
{
}

} // verus!
