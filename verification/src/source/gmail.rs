//! Mail messages as Gmail hands them out, and the HTML texts in them.

use vstd::prelude::*;
use vstd::string::*;
use crate::encoding;
use crate::scan;
use crate::text::{lower, opt_view};

verus! {

broadcast use vstd::string::group_string_axioms;

/// The address of the mailbox in Gmail's interface.
pub const GMAIL_API: &'static str = "https://gmail.googleapis.com/gmail/v1/users/me";

/// Where the access token is kept unless a setting names another file.
pub const DEFAULT_TOKEN_FILE: &'static str = "/var/lib/job-watcher/gmail-oauth-token.json";

/// The only permission that is asked of the mailbox's owner.
pub const GMAIL_READONLY_SCOPE: &'static str = "https://www.googleapis.com/auth/gmail.readonly";

// ---------------------------------------------------------------------------
// Messages
// ---------------------------------------------------------------------------

/// A header line of a message or of a part of it.
#[derive(Debug)]
pub struct MimeHeader {
    pub name: String,
    pub value: String,
}

/// The contents of a part of a message, in URL-safe Base64.
#[derive(Debug)]
pub struct MimeBody {
    pub data: Option<String>,
}

impl Default for MimeBody {
    fn default() -> (r: Self)
        ensures
            r.data is None,
    {
        MimeBody { data: None }
    }
}

/// A part of a message, with the parts that it is made of.
#[derive(Debug)]
pub struct MimePart {
    pub mime_type: String,
    pub headers: Vec<MimeHeader>,
    pub body: MimeBody,
    pub parts: Vec<MimePart>,
}

/// A message with its identity in the mailbox.
#[derive(Debug)]
pub struct GmailMessage {
    pub id: String,
    pub payload: MimePart,
}

/// What decides about the text of a message: for each part its type, its
/// contents and its parts.
pub struct PartTree {
    pub mime_type: Seq<char>,
    pub data: Option<Seq<char>>,
    pub parts: Seq<PartTree>,
}

impl MimePart {
    /// The part with its parts, as a tree.
    pub open spec fn tree(self) -> PartTree
        decreases self,
    {
        PartTree {
            mime_type: self.mime_type@,
            data: opt_view(self.body.data),
            parts: Seq::new(
                self.parts@.len(),
                |i: int|
                    if 0 <= i < self.parts@.len() {
                        self.parts@[i].tree()
                    } else {
                        arbitrary()
                    },
            ),
        }
    }
}

impl PartTree {
    /// The part is HTML and has contents.
    pub open spec fn holds_html(self) -> bool {
        lower(self.mime_type) == lower("text/html"@) && self.data is Some
    }

    /// The first HTML text of a part: its own, or the first of its parts.
    pub open spec fn html(self) -> Option<Seq<char>>
        decreases self,
    {
        if self.holds_html() {
            encoding::body_text(encoding::url_base64_bytes(self.data->0))
        } else {
            first_html(self.parts)
        }
    }
}

/// The first HTML text of a list of parts.
pub open spec fn first_html(parts: Seq<PartTree>) -> Option<Seq<char>>
    decreases parts,
{
    if parts.len() == 0 {
        None
    } else if parts[0].html() is Some {
        parts[0].html()
    } else {
        first_html(parts.subrange(1, parts.len() as int))
    }
}

/// The first HTML text of a part of a message.
pub fn html_body(part: &MimePart) -> (r: Option<String>)
    ensures
        opt_view(r) == part.tree().html(),
    decreases *part,
{
    let wanted: String = scan::lower("text/html");
    if scan::same(scan::lower(part.mime_type.as_str()).as_str(), wanted.as_str()) {
        match &part.body.data {
            Some(data) => {
                return encoding::decode_body(data.as_str());
            },
            None => {},
        }
    }
    let ghost trees = part.tree().parts;
    assert(trees.subrange(0, trees.len() as int) =~= trees);
    let mut i: usize = 0;
    while i < part.parts.len()
        invariant
            trees == part.tree().parts,
            !part.tree().holds_html(),
            i <= part.parts@.len(),
            first_html(trees) == first_html(trees.subrange(i as int, trees.len() as int)),
        decreases part.parts@.len() - i,
    {
        let ghost rest = trees.subrange(i as int, trees.len() as int);
        assert(rest[0] == part.parts@[i as int].tree());
        assert(rest.subrange(1, rest.len() as int) =~= trees.subrange(i + 1, trees.len() as int));
        let found: Option<String> = html_body(&part.parts[i]);
        if found.is_some() {
            return found;
        }
        i += 1;
    }
    None
}

/// The identity and the HTML text of each message of a list that has one.
pub open spec fn html_texts(messages: Seq<GmailMessage>) -> Seq<(Seq<char>, Seq<char>)>
    decreases messages.len(),
{
    if messages.len() == 0 {
        Seq::empty()
    } else {
        let last = messages.last();
        match last.payload.tree().html() {
            Some(html) => html_texts(messages.drop_last()).push((last.id@, html)),
            None => html_texts(messages.drop_last()),
        }
    }
}

/// What the pairs of a list say.
pub open spec fn pair_views(pairs: Seq<(String, String)>) -> Seq<(Seq<char>, Seq<char>)> {
    pairs.map_values(|p: (String, String)| (p.0@, p.1@))
}

/// The value of the subject line among some headers.
pub open spec fn subject_among(headers: Seq<MimeHeader>) -> Seq<char>
    decreases headers.len(),
{
    if headers.len() == 0 {
        "(no subject)"@
    } else if lower(headers[0].name@) == lower("Subject"@) {
        headers[0].value@
    } else {
        subject_among(headers.skip(1))
    }
}

/// The value of the subject line of a message.
pub fn subject(message: &GmailMessage) -> (r: String)
    ensures
        r@ == subject_among(message.payload.headers@),
{
    let headers: &Vec<MimeHeader> = &message.payload.headers;
    let wanted: String = scan::lower("Subject");
    let mut i: usize = 0;
    assert(headers@.skip(0) =~= headers@);
    while i < headers.len()
        invariant
            wanted@ == lower("Subject"@),
            *headers == message.payload.headers,
            i <= headers@.len(),
            subject_among(headers@) == subject_among(headers@.skip(i as int)),
        decreases headers@.len() - i,
    {
        assert(headers@.skip(i as int).skip(1) =~= headers@.skip(i + 1));
        if scan::same(scan::lower(headers[i].name.as_str()).as_str(), wanted.as_str()) {
            return headers[i].value.clone();
        }
        i += 1;
    }
    "(no subject)".to_owned()
}

// ---------------------------------------------------------------------------
// The mailbox
// ---------------------------------------------------------------------------

/// A request to Gmail: its address and its query parameters.
#[derive(Debug)]
pub struct GmailRequest {
    pub url: String,
    pub query: Vec<(String, String)>,
}

/// The mailbox whose messages are read: the files with the client's identity
/// and with the access token.
#[derive(Clone, Debug)]
pub struct GmailClient {
    pub client_file: String,
    pub token_file: String,
}

/// Why a mailbox cannot be read.
#[derive(Debug, PartialEq, Eq)]
pub enum GmailSettingError {
    /// No setting names the file with the client's identity.
    NoClientFile,
}

impl GmailClient {
    /// The mailbox that the settings `GMAIL_OAUTH_CLIENT_FILE` and
    /// `GMAIL_OAUTH_TOKEN_FILE` name.
    pub fn from_env(client_file: Option<String>, token_file: Option<String>) -> (r: Result<
        GmailClient,
        GmailSettingError,
    >)
        ensures
            match client_file {
                None => r == Err::<GmailClient, GmailSettingError>(GmailSettingError::NoClientFile),
                Some(client) => {
                    &&& r is Ok
                    &&& r->Ok_0.client_file@ == client@
                    &&& r->Ok_0.token_file@ == (match token_file {
                        Some(token) => token@,
                        None => DEFAULT_TOKEN_FILE@,
                    })
                },
            },
    {
        match client_file {
            None => Err(GmailSettingError::NoClientFile),
            Some(client) => Ok(
                GmailClient {
                    client_file: client,
                    token_file: match token_file {
                        Some(token) => token,
                        None => DEFAULT_TOKEN_FILE.to_owned(),
                    },
                },
            ),
        }
    }

    /// The request for the messages that match a query, a hundred at most.
    pub fn search_request(query: &str) -> (r: GmailRequest)
        ensures
            r.url@ == GMAIL_API@ + "/messages"@,
            pair_views(r.query@) == seq![("q"@, query@), ("maxResults"@, "100"@)],
    {
        let mut params: Vec<(String, String)> = Vec::new();
        params.push(("q".to_owned(), query.to_owned()));
        params.push(("maxResults".to_owned(), "100".to_owned()));
        assert(pair_views(params@) =~= seq![("q"@, query@), ("maxResults"@, "100"@)]);
        GmailRequest { url: scan::concat(GMAIL_API, "/messages"), query: params }
    }

    /// The request for a whole message.
    pub fn message_request(id: &str) -> (r: GmailRequest)
        ensures
            r.url@ == GMAIL_API@ + "/messages/"@ + id@,
            pair_views(r.query@) == seq![("format"@, "full"@)],
    {
        let mut params: Vec<(String, String)> = Vec::new();
        params.push(("format".to_owned(), "full".to_owned()));
        assert(pair_views(params@) =~= seq![("format"@, "full"@)]);
        GmailRequest { url: scan::concat3(GMAIL_API, "/messages/", id), query: params }
    }

    /// The identity and the HTML text of each message that has one.
    pub fn search_html_messages(messages: &Vec<GmailMessage>) -> (r: Vec<(String, String)>)
        ensures
            pair_views(r@) == html_texts(messages@),
    {
        let mut out: Vec<(String, String)> = Vec::new();
        let mut i: usize = 0;
        while i < messages.len()
            invariant
                i <= messages@.len(),
                pair_views(out@) == html_texts(messages@.take(i as int)),
            decreases messages@.len() - i,
        {
            let ghost earlier = out@;
            assert(messages@.take(i + 1).drop_last() =~= messages@.take(i as int));
            match html_body(&messages[i].payload) {
                Some(html) => {
                    let ghost text = html@;
                    out.push((messages[i].id.clone(), html));
                    assert(pair_views(out@) =~= pair_views(earlier).push(
                        (messages@[i as int].id@, text),
                    ));
                },
                None => {},
            }
            i += 1;
        }
        assert(messages@.take(i as int) =~= messages@);
        out
    }
}

// ---------------------------------------------------------------------------
// Laws
// ---------------------------------------------------------------------------

/// Of some parts, the first that has an HTML text gives it, wherever it stands; where
/// none has one, there is none.
pub proof fn law_the_first_part_with_html_counts(parts: Seq<PartTree>, i: int)
    requires
        0 <= i <= parts.len(),
        forall|j: int| 0 <= j < i ==> (#[trigger] parts[j]).html() is None,
    ensures
        i < parts.len() && parts[i].html() is Some ==> first_html(parts) == parts[i].html(),
        i == parts.len() ==> first_html(parts) is None,
    decreases parts.len(),
{
    if parts.len() > 0 && i > 0 {
        let rest = parts.subrange(1, parts.len() as int);
        assert forall|j: int| 0 <= j < i - 1 implies (#[trigger] rest[j]).html() is None by {
            assert(rest[j] == parts[j + 1]);
        }
        assert(parts[0].html() is None);
        law_the_first_part_with_html_counts(rest, i - 1);
    }
}

/// A part holds HTML if its type says so, in upper or lower case, and it has
/// contents; then its text is what its contents are decoded to. Any other part has
/// the text of its parts.
pub proof fn law_html_parts_are_decoded(tree: PartTree)
    ensures
        tree.holds_html() <==> tree.data is Some && lower(tree.mime_type) == "text/html"@,
        tree.holds_html() ==> tree.html() == encoding::body_text(
            encoding::url_base64_bytes(tree.data->0),
        ),
        !tree.holds_html() ==> tree.html() == first_html(tree.parts),
{
    reveal_strlit("text/html");
    assert(lower("text/html"@) =~= "text/html"@);
}

/// The part of a part that a path leads to: each number of it is the position of the
/// next part.
pub open spec fn part_at(tree: PartTree, path: Seq<int>) -> Option<PartTree>
    decreases path.len(),
{
    if path.len() == 0 {
        Some(tree)
    } else if 0 <= path[0] < tree.parts.len() {
        part_at(tree.parts[path[0]], path.skip(1))
    } else {
        None
    }
}

/// No part on a path, before its end, holds HTML itself.
pub open spec fn is_clear(tree: PartTree, path: Seq<int>) -> bool
    decreases path.len(),
{
    path.len() == 0 || (!tree.holds_html() && 0 <= path[0] < tree.parts.len() && is_clear(
        tree.parts[path[0]],
        path.skip(1),
    ))
}

/// A message whose tree of parts holds an HTML text anywhere, however deep and behind
/// whatever other parts, has an HTML text.
pub proof fn law_html_is_found_anywhere(tree: PartTree, path: Seq<int>)
    requires
        part_at(tree, path) is Some,
        is_clear(tree, path),
        part_at(tree, path)->0.html() is Some,
    ensures
        tree.html() is Some,
    decreases path.len(),
{
    if path.len() > 0 {
        let i = path[0];
        law_html_is_found_anywhere(tree.parts[i], path.skip(1));
        let k = first_with_html(tree.parts, i);
        law_the_first_part_with_html_counts(tree.parts, k);
    }
}

/// The first part with an HTML text, up to a part that has one.
proof fn first_with_html(parts: Seq<PartTree>, i: int) -> (k: int)
    requires
        0 <= i < parts.len(),
        parts[i].html() is Some,
    ensures
        0 <= k <= i,
        parts[k].html() is Some,
        forall|j: int| 0 <= j < k ==> (#[trigger] parts[j]).html() is None,
    decreases i,
{
    if exists|j: int| 0 <= j < i && (#[trigger] parts[j]).html() is Some {
        let j = choose|j: int| 0 <= j < i && (#[trigger] parts[j]).html() is Some;
        first_with_html(parts, j)
    } else {
        i
    }
}

/// A part's tree has the part's type and contents, and the trees of all its parts in
/// order.
pub proof fn law_a_tree_has_all_parts(part: MimePart, i: int)
    requires
        0 <= i < part.parts@.len(),
    ensures
        part.tree().mime_type == part.mime_type@,
        part.tree().data == opt_view(part.body.data),
        part.tree().parts.len() == part.parts@.len(),
        part.tree().parts[i] == part.parts@[i].tree(),
{
}

/// Each message with an HTML text is listed under its own identity, in order, and no
/// other is.
pub proof fn law_messages_with_html_are_listed(
    a: Seq<GmailMessage>,
    b: Seq<GmailMessage>,
    message: GmailMessage,
)
    ensures
        html_texts(a + b) == html_texts(a) + html_texts(b),
        html_texts(seq![message]) == (match message.payload.tree().html() {
            Some(html) => seq![(message.id@, html)],
            None => Seq::empty(),
        }),
    decreases b.len(),
{
    assert(seq![message].drop_last() =~= Seq::empty());
    reveal_with_fuel(html_texts, 2);
    match message.payload.tree().html() {
        Some(html) => {
            assert(html_texts(seq![message]) =~= seq![(message.id@, html)]);
        },
        None => {},
    }
    if b.len() == 0 {
        assert(a + b =~= a);
        assert(html_texts(a) + html_texts(b) =~= html_texts(a));
    } else {
        law_messages_with_html_are_listed(a, b.drop_last(), message);
        assert((a + b).drop_last() =~= a + b.drop_last());
        assert((a + b).last() == b.last());
        assert(html_texts(a + b) =~= html_texts(a) + html_texts(b));
    }
}

/// The subject is the value of the first header of that name, in upper or lower case.
pub proof fn law_the_first_subject_counts(headers: Seq<MimeHeader>, i: int)
    requires
        0 <= i <= headers.len(),
        forall|j: int| 0 <= j < i ==> lower((#[trigger] headers[j]).name@) != "subject"@,
    ensures
        i < headers.len() && lower(headers[i].name@) == "subject"@ ==> subject_among(headers)
            == headers[i].value@,
        i == headers.len() ==> subject_among(headers) == "(no subject)"@,
    decreases headers.len(),
{
    reveal_strlit("Subject");
    reveal_strlit("subject");
    assert(lower("Subject"@) =~= "subject"@);
    if headers.len() > 0 && i > 0 {
        let rest = headers.skip(1);
        assert forall|j: int| 0 <= j < i - 1 implies lower((#[trigger] rest[j]).name@)
            != "subject"@ by {
            assert(rest[j] == headers[j + 1]);
        }
        assert(lower(headers[0].name@) != "subject"@);
        law_the_first_subject_counts(rest, i - 1);
    }
}

} // verus!
