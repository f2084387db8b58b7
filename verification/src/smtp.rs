//! The dialogue with a mail server: what is sent, which reply is awaited, and how
//! a message is written so that its end is unmistakable.

use vstd::prelude::*;
use vstd::string::*;
use vstd::utf8::encode_utf8;
use crate::encoding;
use crate::encoding::{base64_fits, base64_text};
use crate::number;
use crate::number::{decimal, natural};
use crate::scan;
use crate::source::header::{chars_in, count_chars_in};
use crate::text;
use crate::text::{byte_len, ends_with, trim_end};

verus! {

broadcast use vstd::string::group_string_axioms;

/// The mail server.
pub const SERVER: &'static str = "smtp.gmail.com";

/// The mail server's port.
pub const PORT: u16 = 587;

// ---------------------------------------------------------------------------
// Replies
// ---------------------------------------------------------------------------

/// Why a line is no part of a reply.
#[derive(Clone, Copy, Debug, PartialEq, Eq, Structural)]
pub enum ReplyError {
    /// It has fewer than three bytes.
    TooShort,
    /// Its first three bytes write no number.
    NoCode,
}

/// A line of a reply: its code, its text, and whether it is the reply's last.
#[derive(Debug)]
pub struct ReplyLine {
    pub code: u16,
    pub text: String,
    pub last: bool,
}

/// The code in the first three bytes of a line, where they cut no character.
pub open spec fn reply_code(line: Seq<char>) -> Option<nat> {
    natural(line.take(chars_in(line, 3) as int))
}

/// The first three bytes of a line cut no character.
pub open spec fn reply_is_whole(line: Seq<char>) -> bool {
    byte_len(line) >= 3 ==> byte_len(line.take(chars_in(line, 3) as int)) == 3
}

/// A line is the last of its reply: behind its code stands a space.
pub open spec fn ends_reply(line: Seq<char>) -> bool {
    encode_utf8(line).len() > 3 && encode_utf8(line)[3] == 0x20
}

/// Whether the first three bytes of a line cut no character.
pub fn reply_can_be_read(line: &str) -> (r: bool)
    ensures
        r == reply_is_whole(line@),
{
    scan::byte_len(line) < 3 || scan::byte_len(scan::take(line, count_chars_in(line, 3))) == 3
}

/// Reads a line of a reply.
pub fn read_reply_line(line: &str) -> (r: Result<ReplyLine, ReplyError>)
    requires
        reply_is_whole(line@),
    ensures
        match r {
            Err(ReplyError::TooShort) => byte_len(line@) < 3,
            Err(ReplyError::NoCode) => byte_len(line@) >= 3 && (match reply_code(line@) {
                Some(code) => code > u16::MAX,
                None => true,
            }),
            Ok(reply) => {
                &&& byte_len(line@) >= 3
                &&& reply_code(line@) == Some(reply.code as nat)
                &&& reply.text@ == trim_end(line@)
                &&& reply.last == ends_reply(line@)
            },
        },
{
    let bytes: &[u8] = line.as_bytes();
    if bytes.len() < 3 {
        return Err(ReplyError::TooShort);
    }
    match number::parse_natural(scan::take(line, count_chars_in(line, 3))) {
        Some(code) => if code <= u16::MAX as u64 {
            Ok(
                ReplyLine {
                    code: code as u16,
                    text: scan::trim_end(line).to_owned(),
                    last: bytes.len() > 3 && bytes[3] == 0x20,
                },
            )
        } else {
            Err(ReplyError::NoCode)
        },
        None => Err(ReplyError::NoCode),
    }
}

/// The reading of a reply, line by line.
pub struct ReplyReader {
    text: String,
}

impl ReplyReader {
    /// The text of the lines read so far.
    pub closed spec fn text(self) -> Seq<char> {
        self.text@
    }

    /// A reply of which nothing was read.
    pub fn new() -> (r: ReplyReader)
        ensures
            r.text() == Seq::<char>::empty(),
    {
        ReplyReader { text: String::new() }
    }

    /// The text of the lines read so far.
    pub fn response(&self) -> (r: &str)
        ensures
            r@ == self.text(),
    {
        self.text.as_str()
    }

    /// Takes a line. Returns the reply's code if the line is its last.
    pub fn accept(&mut self, line: &str) -> (r: Result<Option<u16>, ReplyError>)
        requires
            reply_is_whole(line@),
        ensures
            match r {
                Err(ReplyError::TooShort) => byte_len(line@) < 3 && final(self).text() == old(
                    self,
                ).text(),
                Err(ReplyError::NoCode) => {
                    &&& byte_len(line@) >= 3
                    &&& final(self).text() == old(self).text()
                    &&& match reply_code(line@) {
                        Some(code) => code > u16::MAX,
                        None => true,
                    }
                },
                Ok(code) => {
                    &&& byte_len(line@) >= 3
                    &&& reply_code(line@) is Some
                    &&& final(self).text() == old(self).text() + trim_end(line@)
                    &&& code is Some <==> ends_reply(line@)
                    &&& code is Some ==> reply_code(line@) == Some(code->0 as nat)
                },
            },
    {
        match read_reply_line(line) {
            Err(e) => Err(e),
            Ok(reply) => {
                self.text.append(reply.text.as_str());
                if reply.last {
                    Ok(Some(reply.code))
                } else {
                    Ok(None)
                }
            },
        }
    }
}

// ---------------------------------------------------------------------------
// Messages
// ---------------------------------------------------------------------------

/// A text in which each line that starts with a dot starts with one more;
/// `at_start` tells whether the text starts a line.
pub open spec fn stuffed(s: Seq<char>, at_start: bool) -> Seq<char>
    decreases s.len(),
{
    if s.len() == 0 {
        Seq::empty()
    } else if at_start && s[0] == '.' {
        seq!['.', '.'] + stuffed(s.skip(1), false)
    } else {
        seq![s[0]] + stuffed(s.skip(1), s[0] == '\n')
    }
}

/// A text in which each line that starts with a dot has lost it: what a mail
/// server reads.
pub open spec fn unstuffed(s: Seq<char>, at_start: bool) -> Seq<char>
    decreases s.len(),
{
    if s.len() == 0 {
        Seq::empty()
    } else if at_start && s[0] == '.' {
        unstuffed(s.skip(1), false)
    } else {
        seq![s[0]] + unstuffed(s.skip(1), s[0] == '\n')
    }
}

/// What is sent of a message: its text with dots added, a line end, and the mark
/// of its end.
pub open spec fn message_data(message: Seq<char>) -> Seq<char> {
    let body = stuffed(message, true);
    (if ends_with(body, "\r\n"@) {
        body
    } else {
        body + "\r\n"@
    }) + ".\r\n"@
}

/// A position at which a line starts.
pub open spec fn starts_line(s: Seq<char>, at_start: bool, i: int) -> bool {
    if i == 0 {
        at_start
    } else {
        s[i - 1] == '\n'
    }
}

/// What is sent of a message.
pub fn write_message(message: &str) -> (r: String)
    ensures
        r@ == message_data(message@),
{
    let chars: Vec<char> = scan::to_chars(message);
    let mut out: String = String::new();
    let mut at_start: bool = true;
    let mut i: usize = 0;
    assert(message@.skip(0) =~= message@);
    while i < chars.len()
        invariant
            chars@ == message@,
            i <= chars@.len(),
            stuffed(message@, true) =~= out@ + stuffed(message@.skip(i as int), at_start),
        decreases chars@.len() - i,
    {
        let c: char = chars[i];
        assert(message@.skip(i as int).skip(1) =~= message@.skip(i + 1));
        if at_start && c == '.' {
            scan::push_char(&mut out, '.');
        }
        scan::push_char(&mut out, c);
        at_start = c == '\n';
        i += 1;
    }
    assert(out@ =~= stuffed(message@, true));
    if !scan::ends_with(out.as_str(), "\r\n") {
        out.append("\r\n");
    }
    out.append(".\r\n");
    out
}

/// Taking the added dots away gives the message back.
pub proof fn law_stuffing_is_undone(message: Seq<char>, at_start: bool)
    ensures
        unstuffed(stuffed(message, at_start), at_start) == message,
    decreases message.len(),
{
    if message.len() > 0 {
        let rest = message.skip(1);
        let out = stuffed(message, at_start);
        if at_start && message[0] == '.' {
            law_stuffing_is_undone(rest, false);
            let tail = stuffed(rest, false);
            assert(out.skip(1) =~= seq!['.'] + tail);
            assert((seq!['.'] + tail).skip(1) =~= tail);
            assert(unstuffed(out, true) == unstuffed(seq!['.'] + tail, false));
            assert(unstuffed(seq!['.'] + tail, false) =~= seq!['.'] + unstuffed(tail, false));
            assert(seq!['.'] + rest =~= message);
        } else {
            let next = message[0] == '\n';
            law_stuffing_is_undone(rest, next);
            let tail = stuffed(rest, next);
            assert(out.skip(1) =~= tail);
            assert(unstuffed(out, at_start) =~= seq![message[0]] + unstuffed(tail, next));
            assert(seq![message[0]] + rest =~= message);
        }
    }
}

/// No line of a message is mistaken for the mark of its end: a line that starts
/// with a dot goes on with another.
pub proof fn law_no_line_is_the_end_mark(message: Seq<char>, at_start: bool, i: int)
    requires
        0 <= i < stuffed(message, at_start).len(),
        starts_line(stuffed(message, at_start), at_start, i),
        stuffed(message, at_start)[i] == '.',
    ensures
        i + 1 < stuffed(message, at_start).len(),
        stuffed(message, at_start)[i + 1] == '.',
    decreases message.len(),
{
    let rest = message.skip(1);
    let out = stuffed(message, at_start);
    if at_start && message[0] == '.' {
        let tail = stuffed(rest, false);
        assert(out =~= seq!['.', '.'] + tail);
        if i >= 2 {
            assert(out[i] == tail[i - 2]);
            assert(i > 2 ==> out[i - 1] == tail[i - 3]);
            assert(out[1] == '.');
            law_no_line_is_the_end_mark(rest, false, i - 2);
            assert(out[i + 1] == tail[i - 1]);
        }
    } else {
        let next = message[0] == '\n';
        let tail = stuffed(rest, next);
        assert(out =~= seq![message[0]] + tail);
        if i >= 1 {
            assert(out[i] == tail[i - 1]);
            assert(i > 1 ==> out[i - 1] == tail[i - 2]);
            law_no_line_is_the_end_mark(rest, next, i - 1);
            assert(out[i + 1] == tail[i]);
        }
    }
}

// ---------------------------------------------------------------------------
// Dialogue
// ---------------------------------------------------------------------------

/// How many replies a dialogue awaits.
pub const STEPS: usize = 12;

/// The reply behind which the connection is encrypted.
pub const TLS_STEP: usize = 2;

/// A step of a dialogue: what is sent, if anything, which code is awaited, what the
/// step is called, and whether the connection is encrypted once the reply has come.
pub struct StepView {
    pub send: Option<Seq<char>>,
    pub expected: int,
    pub context: Seq<char>,
    pub encrypt_behind: bool,
}

/// A command as a step: it is a line of its own, and names the step.
pub open spec fn command_step(command: Seq<char>, expected: int) -> StepView {
    StepView { send: Some(command + "\r\n"@), expected, context: command, encrypt_behind: false }
}

/// What the letters of a mail and its sender's credentials are.
pub struct Letter {
    pub username: Seq<char>,
    pub password: Seq<char>,
    pub recipient: Seq<char>,
    pub message: Seq<char>,
}

/// The steps of a dialogue, in order.
pub open spec fn dialogue(letter: Letter, step: int) -> StepView {
    if step == 0 {
        StepView { send: None, expected: 220, context: "SMTP greeting"@, encrypt_behind: false }
    } else if step == 1 {
        command_step("EHLO job-watcher"@, 250)
    } else if step == 2 {
        StepView { encrypt_behind: true, ..command_step("STARTTLS"@, 220) }
    } else if step == 3 {
        command_step("EHLO job-watcher"@, 250)
    } else if step == 4 {
        command_step("AUTH LOGIN"@, 334)
    } else if step == 5 {
        command_step(base64_text(encode_utf8(letter.username)), 334)
    } else if step == 6 {
        command_step(base64_text(encode_utf8(letter.password)), 235)
    } else if step == 7 {
        command_step("MAIL FROM:<"@ + letter.username + ">"@, 250)
    } else if step == 8 {
        command_step("RCPT TO:<"@ + letter.recipient + ">"@, 250)
    } else if step == 9 {
        command_step("DATA"@, 354)
    } else if step == 10 {
        StepView {
            send: Some(message_data(letter.message)),
            expected: 250,
            context: "SMTP message delivery"@,
            encrypt_behind: false,
        }
    } else {
        command_step("QUIT"@, 221)
    }
}

/// A step of a dialogue.
#[derive(Debug)]
pub struct SmtpStep {
    pub send: Option<String>,
    pub expected: u16,
    pub context: String,
    /// The connection is encrypted once the reply has come.
    pub encrypt_behind: bool,
}

impl View for SmtpStep {
    type V = StepView;

    open spec fn view(&self) -> StepView {
        StepView {
            send: text::opt_view(self.send),
            expected: self.expected as int,
            context: self.context@,
            encrypt_behind: self.encrypt_behind,
        }
    }
}

/// A dialogue, and how many of its replies have come.
pub struct SmtpSession {
    username: String,
    password: String,
    recipient: String,
    message: String,
    step: usize,
}

/// A command as a step.
fn command(line: &str, expected: u16) -> (r: SmtpStep)
    ensures
        r@ == command_step(line@, expected as int),
{
    SmtpStep {
        send: Some(scan::concat(line, "\r\n")),
        expected,
        context: line.to_owned(),
        encrypt_behind: false,
    }
}

impl SmtpSession {
    /// What is sent, and on whose behalf.
    pub closed spec fn letter(self) -> Letter {
        Letter {
            username: self.username@,
            password: self.password@,
            recipient: self.recipient@,
            message: self.message@,
        }
    }

    /// How many replies have come.
    pub closed spec fn step(self) -> nat {
        self.step as nat
    }

    /// The credentials can be written in Base64.
    pub open spec fn wf(self) -> bool {
        &&& base64_fits(byte_len(self.letter().username) as int)
        &&& base64_fits(byte_len(self.letter().password) as int)
        &&& self.step() <= STEPS
    }

    /// A dialogue that has not started.
    pub fn new(username: &str, password: &str, recipient: &str, message: String) -> (r: SmtpSession)
        requires
            base64_fits(byte_len(username@) as int),
            base64_fits(byte_len(password@) as int),
        ensures
            r.wf(),
            r.step() == 0,
            r.letter() == (Letter {
                username: username@,
                password: password@,
                recipient: recipient@,
                message: message@,
            }),
    {
        SmtpSession {
            username: username.to_owned(),
            password: password.to_owned(),
            recipient: recipient.to_owned(),
            message,
            step: 0,
        }
    }

    /// The next step, if the dialogue is not over.
    pub fn next_step(&self) -> (r: Option<SmtpStep>)
        requires
            self.wf(),
        ensures
            match r {
                Some(step) => {
                    &&& self.step() < STEPS
                    &&& step@ == dialogue(self.letter(), self.step() as int)
                },
                None => self.step() == STEPS,
            },
    {
        let k: usize = self.step;
        if k >= STEPS {
            return None;
        }
        let step: SmtpStep = if k == 0 {
            SmtpStep {
                send: None,
                expected: 220,
                context: "SMTP greeting".to_owned(),
                encrypt_behind: false,
            }
        } else if k == 1 {
            command("EHLO job-watcher", 250)
        } else if k == 2 {
            let mut tls: SmtpStep = command("STARTTLS", 220);
            tls.encrypt_behind = true;
            tls
        } else if k == 3 {
            command("EHLO job-watcher", 250)
        } else if k == 4 {
            command("AUTH LOGIN", 334)
        } else if k == 5 {
            command(encoding::to_base64(self.username.as_str().as_bytes()).as_str(), 334)
        } else if k == 6 {
            command(encoding::to_base64(self.password.as_str().as_bytes()).as_str(), 235)
        } else if k == 7 {
            command(scan::concat3("MAIL FROM:<", self.username.as_str(), ">").as_str(), 250)
        } else if k == 8 {
            command(scan::concat3("RCPT TO:<", self.recipient.as_str(), ">").as_str(), 250)
        } else if k == 9 {
            command("DATA", 354)
        } else if k == 10 {
            SmtpStep {
                send: Some(write_message(self.message.as_str())),
                expected: 250,
                context: "SMTP message delivery".to_owned(),
                encrypt_behind: false,
            }
        } else {
            command("QUIT", 221)
        };
        Some(step)
    }

    /// Takes the reply to the next step: the dialogue goes on if its code is the
    /// one awaited, and else stays where it is with what went wrong.
    pub fn accept(&mut self, code: u16, response: &str) -> (r: Result<(), String>)
        requires
            old(self).wf(),
            old(self).step() < STEPS,
        ensures
            final(self).wf(),
            final(self).letter() == old(self).letter(),
            r is Ok <==> code == dialogue(old(self).letter(), old(self).step() as int).expected,
            final(self).step() == (if r is Ok {
                old(self).step() + 1
            } else {
                old(self).step()
            }),
            r is Err ==> r->Err_0@ == failure_text(
                dialogue(old(self).letter(), old(self).step() as int).context,
                code as nat,
                response@,
            ),
    {
        match self.next_step() {
            None => Ok(()),
            Some(step) => if code == step.expected {
                self.step = self.step + 1;
                Ok(())
            } else {
                let mut out: String = scan::concat(step.context.as_str(), " failed with SMTP ");
                out.append(number::to_decimal(code as u64).as_str());
                out.append(": ");
                out.append(response);
                Err(out)
            },
        }
    }
}

/// What went wrong in a step.
pub open spec fn failure_text(context: Seq<char>, code: nat, response: Seq<char>) -> Seq<char> {
    context + " failed with SMTP "@ + decimal(code) + ": "@ + response
}

/// Nothing of a letter or of its sender's credentials is sent before the
/// connection is encrypted: up to then every dialogue is the same.
pub proof fn law_nothing_private_in_the_clear(a: Letter, b: Letter, step: int)
    requires
        0 <= step <= TLS_STEP,
    ensures
        dialogue(a, step) == dialogue(b, step),
        dialogue(a, step).encrypt_behind == (step == TLS_STEP),
{
}

/// A step says what each of its fields holds.
pub proof fn law_a_step_says_what_it_holds(x: SmtpStep)
    ensures
        x@.send == text::opt_view(x.send),
        x@.expected == x.expected as int,
        x@.context == x.context@,
        x@.encrypt_behind == x.encrypt_behind,
{
}

/// A reply's code is the number that its first three characters write, where they are
/// digits. A space behind them ends the reply, and anything else goes on.
pub proof fn law_replies_start_with_a_code(
    a: char,
    b: char,
    c: char,
    sep: char,
    rest: Seq<char>,
)
    requires
        '0' <= a <= '9',
        '0' <= b <= '9',
        '0' <= c <= '9',
        sep <= '\u{7f}',
    ensures
        ({
            let line = seq![a, b, c, sep] + rest;
            &&& reply_code(line) == Some(
                (100 * (a as int - 48) + 10 * (b as int - 48) + (c as int - 48)) as nat,
            )
            &&& reply_is_whole(line)
            &&& ends_reply(line) <==> sep == ' '
            &&& !ends_reply(seq![a, b, c])
            &&& reply_code(seq![a, b, c]) == reply_code(line)
        }),
{
    let line = seq![a, b, c, sep] + rest;
    let code = seq![a, b, c];
    lemma_three_fit(line);
    lemma_three_fit(code);
    assert(line.take(3) =~= code);
    assert(code.take(3) =~= code);
    assert(code.drop_last() =~= seq![a, b]);
    assert(seq![a, b].drop_last() =~= seq![a]);
    assert(seq![a].drop_last() =~= Seq::empty());
    reveal_with_fuel(number::digits_value, 4);
    vstd::utf8::is_ascii_chars_encode_utf8(code);
    let start = seq![a, b, c, sep];
    vstd::utf8::is_ascii_chars_encode_utf8(start);
    lemma_encode_add(start, rest);
    assert(start[3] == sep);
    assert(encode_utf8(line)[3] == encode_utf8(start)[3]);
    assert(encode_utf8(start)[3] == sep as u8);
    assert((sep as u8 == 0x20) <==> sep == ' ');
}

/// Three characters of ASCII take three bytes.
proof fn lemma_three_fit(s: Seq<char>)
    requires
        s.len() >= 3,
        s[0] <= '\u{7f}',
        s[1] <= '\u{7f}',
        s[2] <= '\u{7f}',
    ensures
        chars_in(s, 3) == 3,
{
    let t = s.skip(1);
    let u = t.skip(1);
    assert(t[0] == s[1]);
    assert(u[0] == s[2]);
    let v = u.skip(1);
    crate::source::header::law_widths_are_utf8s(s[0]);
    crate::source::header::law_widths_are_utf8s(s[1]);
    crate::source::header::law_widths_are_utf8s(s[2]);
    assert(chars_in(v, 0) == 0);
    assert(chars_in(u, 1) == 1);
    assert(chars_in(t, 2) == 2);
}

/// A text is encoded part by part.
proof fn lemma_encode_add(a: Seq<char>, b: Seq<char>)
    ensures
        encode_utf8(a + b) == encode_utf8(a) + encode_utf8(b),
    decreases a.len(),
{
    if a.len() == 0 {
        assert(a + b =~= b);
        assert(encode_utf8(a) + encode_utf8(b) =~= encode_utf8(b));
    } else {
        lemma_encode_add(a.drop_first(), b);
        assert((a + b).drop_first() =~= a.drop_first() + b);
        assert(encode_utf8(a + b) =~= encode_utf8(a) + encode_utf8(b));
    }
}

/// What is sent of a message ends with a line that is a dot alone, and what comes
/// before it is, once the added dots are taken away, the message, with a line end
/// where it has none.
pub proof fn law_messages_end_with_a_dot(message: Seq<char>)
    ensures
        ({
            let data = message_data(message);
            let body = data.take(data.len() - 3);
            &&& data.len() >= 5
            &&& data.skip(data.len() - 5) == seq!['\r', '\n', '.', '\r', '\n']
            &&& ends_with(stuffed(message, true), "\r\n"@) ==> unstuffed(body, true) == message
            &&& !ends_with(stuffed(message, true), "\r\n"@) ==> body == stuffed(message, true) + seq![
                '\r',
                '\n',
            ]
        }),
{
    reveal_strlit("\r\n");
    reveal_strlit(".\r\n");
    let body = stuffed(message, true);
    let data = message_data(message);
    law_stuffing_is_undone(message, true);
    assert("\r\n"@ =~= seq!['\r', '\n']);
    if ends_with(body, "\r\n"@) {
        assert(body.subrange(body.len() - 2, body.len() as int) == "\r\n"@);
        assert(body[body.len() - 2] == body.subrange(body.len() - 2, body.len() as int)[0]);
        assert(body[body.len() - 1] == body.subrange(body.len() - 2, body.len() as int)[1]);
        assert(data.take(data.len() - 3) =~= body);
    } else {
        assert(data.take(data.len() - 3) =~= body + "\r\n"@);
    }
    assert(data.skip(data.len() - 5) =~= seq!['\r', '\n', '.', '\r', '\n']);
}

/// A dialogue greets, starts encryption, greets again, logs in with the sender's name
/// and password in Base64, names sender and recipient, sends the message and leaves;
/// each command is a line, and each has its own reply.
pub proof fn law_a_dialogue_goes_step_by_step(letter: Letter)
    ensures
        ({
            let d = |step: int| dialogue(letter, step);
            &&& d(0).send is None && d(0).expected == 220
            &&& d(1).send == Some("EHLO job-watcher"@ + "\r\n"@) && d(1).expected == 250
            &&& d(2).send == Some("STARTTLS"@ + "\r\n"@) && d(2).expected == 220
            &&& d(3).send == Some("EHLO job-watcher"@ + "\r\n"@) && d(3).expected == 250
            &&& d(4).send == Some("AUTH LOGIN"@ + "\r\n"@) && d(4).expected == 334
            &&& d(5).send == Some(base64_text(encode_utf8(letter.username)) + "\r\n"@)
                && d(5).expected == 334
            &&& d(6).send == Some(base64_text(encode_utf8(letter.password)) + "\r\n"@)
                && d(6).expected == 235
            &&& d(7).send == Some("MAIL FROM:<"@ + letter.username + ">"@ + "\r\n"@)
                && d(7).expected == 250
            &&& d(8).send == Some("RCPT TO:<"@ + letter.recipient + ">"@ + "\r\n"@)
                && d(8).expected == 250
            &&& d(9).send == Some("DATA"@ + "\r\n"@) && d(9).expected == 354
            &&& d(10).send == Some(message_data(letter.message)) && d(10).expected == 250
            &&& d(11).send == Some("QUIT"@ + "\r\n"@) && d(11).expected == 221
        }),
        forall|step: int|
            0 <= step < 12 ==> (#[trigger] dialogue(letter, step)).encrypt_behind == (step == 2),
        forall|step: int|
            1 <= step < 12 && step != 10 ==> (#[trigger] dialogue(letter, step)).send == Some(
                dialogue(letter, step).context + "\r\n"@,
            ),
        dialogue(letter, 0).context == "SMTP greeting"@,
        dialogue(letter, 10).context == "SMTP message delivery"@,
{
}

/// A failure is told by the step, the code that came and what came with it.
pub proof fn law_failures_name_step_and_code(context: Seq<char>, code: nat, response: Seq<char>)
    ensures
        failure_text(context, code, response) == context + " failed with SMTP "@ + decimal(code)
            + (": "@ + response),
{
    assert(context + " failed with SMTP "@ + decimal(code) + ": "@ + response =~= context
        + " failed with SMTP "@ + decimal(code) + (": "@ + response));
}

} // verus!
