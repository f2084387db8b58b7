use base64::engine::general_purpose::URL_SAFE_NO_PAD;
use base64::Engine;
use job_watcher::encoding::decode_body;
use job_watcher::source::gmail::{
    html_body, subject, GmailClient, GmailMessage, GmailSettingError, MimeBody, MimeHeader, MimePart,
};

#[test]
fn html_mime_part_is_decoded() {
    let encoded = URL_SAFE_NO_PAD.encode(
        b"<a href=\"https://www.linkedin.com/jobs/view/4454432978/?trackingId=x\">Role</a>",
    );
    let part = MimePart {
        mime_type: "multipart/alternative".into(),
        headers: Vec::new(),
        body: MimeBody::default(),
        parts: vec![MimePart {
            mime_type: "text/html".into(),
            headers: Vec::new(),
            body: MimeBody {
                data: Some(encoded),
            },
            parts: Vec::new(),
        }],
    };
    assert!(html_body(&part).unwrap().contains("4454432978"));
    assert!(decode_body("not-base64").is_none());
}

#[test]
fn padded_bodies_are_decoded_too() {
    assert_eq!(decode_body("aGk=").as_deref(), Some("hi"));
    assert_eq!(decode_body("aGk").as_deref(), Some("hi"));
    assert_eq!(decode_body("_w"), None);
    assert_eq!(decode_body("-_8"), None);
}

#[test]
fn messages_without_html_are_left_out() {
    let part = |kind: &str, data: Option<&str>| MimePart {
        mime_type: kind.into(),
        headers: vec![MimeHeader { name: "subject".into(), value: "Jobs".into() }],
        body: MimeBody { data: data.map(str::to_owned) },
        parts: Vec::new(),
    };
    let messages = vec![
        GmailMessage { id: "plain".into(), payload: part("text/plain", Some("aGk")) },
        GmailMessage { id: "html".into(), payload: part("Text/HTML", Some("aGk")) },
        GmailMessage { id: "empty".into(), payload: part("text/html", None) },
    ];
    assert_eq!(
        GmailClient::search_html_messages(&messages),
        vec![("html".to_string(), "hi".to_string())]
    );
    assert_eq!(subject(&messages[0]), "Jobs");
    let bare = GmailMessage {
        id: "bare".into(),
        payload: MimePart {
            mime_type: String::new(),
            headers: Vec::new(),
            body: MimeBody::default(),
            parts: Vec::new(),
        },
    };
    assert_eq!(subject(&bare), "(no subject)");
}

#[test]
fn mailboxes_are_asked_as_settings_say() {
    assert!(matches!(
        GmailClient::from_env(None, Some("t".into())),
        Err(GmailSettingError::NoClientFile)
    ));
    let client = GmailClient::from_env(Some("c".into()), None).unwrap_or_else(|_| unreachable!());
    assert_eq!(client.client_file, "c");
    assert_eq!(client.token_file, "/var/lib/job-watcher/gmail-oauth-token.json");
    let list = GmailClient::search_request("from:x");
    assert_eq!(list.url, "https://gmail.googleapis.com/gmail/v1/users/me/messages");
    assert_eq!(
        list.query,
        vec![
            ("q".to_string(), "from:x".to_string()),
            ("maxResults".to_string(), "100".to_string())
        ]
    );
    let one = GmailClient::message_request("42");
    assert_eq!(one.url, "https://gmail.googleapis.com/gmail/v1/users/me/messages/42");
    assert_eq!(one.query, vec![("format".to_string(), "full".to_string())]);
}
