use email_channel::channel::EmailChannel;
use email_channel::inbound::{
    choose_sender, choose_text_body, message_key, InboundEmail, Listener, MailAddress, MimePart,
    PollError,
};
use email_channel::reply::SendError;
use email_channel::thread_meta::{EmailThreadMeta, EMAIL_REPLY_META_SEP};
use mailparse::MailHeaderMap;

fn make_channel(allowed_senders: Vec<String>) -> EmailChannel {
    EmailChannel::new(
        "imap.example.com".into(),
        993,
        "imap-user".into(),
        "imap-pass".into(),
        true,
        "smtp.example.com".into(),
        587,
        "smtp-user".into(),
        "smtp-pass".into(),
        true,
        "bot@example.com".into(),
        "INBOX".into(),
        10,
        allowed_senders,
    )
}

fn addresses_of(raw: &[u8]) -> Vec<MailAddress> {
    let parsed = mailparse::parse_mail(raw).expect("parse");
    let header = parsed.headers.get_first_header("From").expect("from");
    let list = mailparse::addrparse_header(header).expect("addresses");
    list.iter()
        .map(|a| match a {
            mailparse::MailAddr::Single(info) => MailAddress::Single(info.addr.clone()),
            mailparse::MailAddr::Group(group) => {
                MailAddress::Group(group.addrs.iter().map(|i| i.addr.clone()).collect())
            }
        })
        .collect()
}

fn text_body_of(raw: &[u8]) -> Option<String> {
    let parsed = mailparse::parse_mail(raw).ok()?;
    let parts: Vec<MimePart> = parsed
        .subparts
        .iter()
        .map(|p| MimePart { mimetype: p.ctype.mimetype.clone(), body: p.get_body().ok() })
        .collect();
    choose_text_body(&parts, parsed.get_body().ok())
}

fn inbound(uid: &str, sender: &str, thread: EmailThreadMeta) -> InboundEmail {
    InboundEmail {
        uid: uid.to_string(),
        sender: sender.to_string(),
        content: "hi".to_string(),
        thread,
    }
}

fn meta(id: Option<&str>, subject: Option<&str>) -> EmailThreadMeta {
    EmailThreadMeta {
        message_id: id.map(|s| s.to_string()),
        subject: subject.map(|s| s.to_string()),
    }
}

#[test]
fn email_channel_name() {
    let ch = make_channel(vec![]);
    assert_eq!(ch.name(), "email");
}

#[test]
fn wildcard_sender_allowed() {
    let ch = make_channel(vec!["*".into()]);
    assert!(ch.is_sender_allowed("alice@example.com"));
}

#[test]
fn specific_sender_allowed() {
    let ch = make_channel(vec!["alice@example.com".into()]);
    assert!(ch.is_sender_allowed("alice@example.com"));
    assert!(!ch.is_sender_allowed("bob@example.com"));
}

#[test]
fn sender_allowlist_case_insensitive() {
    let ch = make_channel(vec!["Alice@Example.com".into()]);
    assert!(ch.is_sender_allowed("alice@example.com"));
}

#[test]
fn empty_allowlist_denies_all() {
    let ch = make_channel(vec![]);
    assert!(!ch.is_sender_allowed("alice@example.com"));
}

#[test]
fn validate_email_identity_checks_basic_shape() {
    assert!(EmailChannel::validate_email_identity("alice@example.com"));
    assert!(!EmailChannel::validate_email_identity("aliceexample.com"));
    assert!(!EmailChannel::validate_email_identity("alice@example.com\r\nBcc:x"));
}

#[test]
fn parse_sender_from_header_handles_name_addr() {
    let raw = b"From: Alice Example <alice@example.com>\r\n\r\nhi";
    let sender = choose_sender(&addresses_of(raw));
    assert_eq!(sender.as_deref(), Some("alice@example.com"));
}

#[test]
fn parse_text_body_prefers_text_plain() {
    let raw = b"From: a@example.com\r\nTo: b@example.com\r\nSubject: T\r\nContent-Type: text/plain; charset=utf-8\r\n\r\nhello world\r\n";
    let body = text_body_of(raw);
    assert_eq!(body.as_deref(), Some("hello world"));
}

#[test]
fn reply_subject_prefixes_re_when_needed() {
    assert_eq!(EmailChannel::reply_subject(Some("Hello")), "Re: Hello");
    assert_eq!(EmailChannel::reply_subject(Some("Re: Hello")), "Re: Hello");
}

#[test]
fn recipient_meta_roundtrip() {
    let meta = EmailThreadMeta {
        message_id: Some("<id@example.com>".into()),
        subject: Some("Question".into()),
    };
    let encoded = EmailChannel::encode_thread_meta(&meta).expect("encode");
    let recipient = format!("alice@example.com{}{}", EMAIL_REPLY_META_SEP, encoded);

    let (email, parsed_meta) = EmailChannel::parse_recipient_and_thread_meta(&recipient);
    assert_eq!(email, "alice@example.com");
    let parsed = parsed_meta.expect("meta");
    assert_eq!(parsed.message_id.as_deref(), Some("<id@example.com>"));
    assert_eq!(parsed.subject.as_deref(), Some("Question"));
}

#[test]
fn recipient_meta_roundtrip_with_uid_prefix() {
    let meta = EmailThreadMeta {
        message_id: Some("<id@example.com>".into()),
        subject: Some("Politica Americana".into()),
    };
    let encoded = EmailChannel::encode_thread_meta(&meta).expect("encode");
    let recipient = format!(
        "alice@example.com{}12345{}{}",
        EMAIL_REPLY_META_SEP, EMAIL_REPLY_META_SEP, encoded
    );

    let (email, parsed_meta) = EmailChannel::parse_recipient_and_thread_meta(&recipient);
    assert_eq!(email, "alice@example.com");
    let parsed = parsed_meta.expect("meta");
    assert_eq!(parsed.message_id.as_deref(), Some("<id@example.com>"));
    assert_eq!(parsed.subject.as_deref(), Some("Politica Americana"));
}

#[test]
fn markdown_to_html_renders_headers_and_bold() {
    let html = EmailChannel::markdown_to_html("# Titulo\n\n**negrito**");
    assert!(html.contains("<h1>Titulo</h1>"));
    assert!(html.contains("<strong>negrito</strong>"));
}

#[test]
fn markdown_renders_title_and_bold() {
    let html = EmailChannel::markdown_to_html("# Title\n\n**bold**");
    assert!(html.contains("<h1>Title</h1>"));
    assert!(html.contains("<strong>bold</strong>"));
}

#[test]
fn markdown_renders_strikethrough_and_tables() {
    let html = EmailChannel::markdown_to_html("~~gone~~\n\n| a | b |\n|---|---|\n| 1 | 2 |\n");
    assert!(html.contains("<del>gone</del>"));
    assert!(html.contains("<table>"));
}

#[test]
fn reply_subject_default_and_blank() {
    assert_eq!(EmailChannel::reply_subject(None), "ZeroClaw reply");
    assert_eq!(EmailChannel::reply_subject(Some("   ")), "ZeroClaw reply");
}

#[test]
fn reply_subject_trims_and_keeps_any_case_prefix() {
    assert_eq!(EmailChannel::reply_subject(Some("  Hello  ")), "Re: Hello");
    assert_eq!(EmailChannel::reply_subject(Some("RE:x")), "RE:x");
    assert_eq!(EmailChannel::reply_subject(Some("re: hi")), "re: hi");
    assert_eq!(EmailChannel::reply_subject(Some("Re")), "Re: Re");
}

#[test]
fn validate_trims_surrounding_space() {
    assert!(EmailChannel::validate_email_identity("  alice@example.com  "));
    assert!(!EmailChannel::validate_email_identity("   "));
    assert!(!EmailChannel::validate_email_identity(""));
    assert!(!EmailChannel::validate_email_identity("a@b\nc"));
}

#[test]
fn encode_writes_compact_json() {
    let m = meta(Some("<id@example.com>"), Some("Question"));
    assert_eq!(
        EmailChannel::encode_thread_meta(&m).as_deref(),
        Some(r#"{"message_id":"<id@example.com>","subject":"Question"}"#)
    );
    let m = meta(None, Some("Q"));
    assert_eq!(
        EmailChannel::encode_thread_meta(&m).as_deref(),
        Some(r#"{"message_id":null,"subject":"Q"}"#)
    );
}

#[test]
fn encode_without_fields_is_none() {
    assert!(EmailChannel::encode_thread_meta(&meta(None, None)).is_none());
}

#[test]
fn encode_escapes_and_decodes_back() {
    let m = meta(Some("a\"b\\c"), Some("line\nnext\ttab\u{1}end é"));
    let enc = EmailChannel::encode_thread_meta(&m).expect("encode");
    assert_eq!(
        enc,
        "{\"message_id\":\"a\\\"b\\\\c\",\"subject\":\"line\\nnext\\ttab\\u0001end é\"}"
    );
    let back = EmailChannel::decode_thread_meta(&enc).expect("decode");
    assert_eq!(back.message_id.as_deref(), Some("a\"b\\c"));
    assert_eq!(back.subject.as_deref(), Some("line\nnext\ttab\u{1}end é"));
}

#[test]
fn decode_reads_solidus_and_upper_hex() {
    let back = EmailChannel::decode_thread_meta(r#"{"message_id":"a\/b","subject":"\u001F"}"#)
        .expect("decode");
    assert_eq!(back.message_id.as_deref(), Some("a/b"));
    assert_eq!(back.subject.as_deref(), Some("\u{1f}"));
}

#[test]
fn decode_rejects_malformed() {
    assert!(EmailChannel::decode_thread_meta("").is_none());
    assert!(EmailChannel::decode_thread_meta("not json").is_none());
    assert!(EmailChannel::decode_thread_meta(r#"{"message_id":"x","subject":"y""#).is_none());
    assert!(EmailChannel::decode_thread_meta(r#"{"message_id":"x","subject":"y"}x"#).is_none());
    assert!(EmailChannel::decode_thread_meta(r#"{"message_id":"x\q","subject":null}"#).is_none());
}

#[test]
fn split_without_separator() {
    let (email, m) = EmailChannel::parse_recipient_and_thread_meta("addr");
    assert_eq!(email, "addr");
    assert!(m.is_none());
}

#[test]
fn split_with_bad_metadata_degrades() {
    let r = format!("alice@example.com{}garbage", EMAIL_REPLY_META_SEP);
    let (email, m) = EmailChannel::parse_recipient_and_thread_meta(&r);
    assert_eq!(email, "alice@example.com");
    assert!(m.is_none());
    let r = format!("a@b{}1{}garbage", EMAIL_REPLY_META_SEP, EMAIL_REPLY_META_SEP);
    let (email, m) = EmailChannel::parse_recipient_and_thread_meta(&r);
    assert_eq!(email, "a@b");
    assert!(m.is_none());
}

#[test]
fn sender_from_group_takes_first_member() {
    let addrs = vec![
        MailAddress::Group(vec![]),
        MailAddress::Group(vec!["x@example.com".into(), "y@example.com".into()]),
    ];
    assert_eq!(choose_sender(&addrs).as_deref(), Some("x@example.com"));
    assert!(choose_sender(&vec![]).is_none());
    assert!(choose_sender(&vec![MailAddress::Group(vec![])]).is_none());
}

#[test]
fn body_prefers_text_plain_part() {
    let parts = vec![
        MimePart { mimetype: "text/html".into(), body: Some("<p>hi</p>".into()) },
        MimePart { mimetype: "TEXT/Plain".into(), body: Some("   ".into()) },
        MimePart { mimetype: "text/plain".into(), body: Some("  plain text \n".into()) },
    ];
    assert_eq!(
        choose_text_body(&parts, Some("whole".into())).as_deref(),
        Some("plain text")
    );
}

#[test]
fn body_falls_back_to_whole_body() {
    let parts = vec![MimePart { mimetype: "text/html".into(), body: Some("<p>hi</p>".into()) }];
    assert_eq!(choose_text_body(&parts, Some(" <p>hi</p> ".into())).as_deref(), Some("<p>hi</p>"));
    assert!(choose_text_body(&parts, Some("  ".into())).is_none());
    assert!(choose_text_body(&vec![], None).is_none());
}

#[test]
fn body_of_multipart_message() {
    let raw = b"From: a@example.com\r\nContent-Type: multipart/alternative; boundary=XX\r\n\r\n--XX\r\nContent-Type: text/html\r\n\r\n<b>hi</b>\r\n--XX\r\nContent-Type: text/plain\r\n\r\n  hello plain  \r\n--XX--\r\n";
    assert_eq!(text_body_of(raw).as_deref(), Some("hello plain"));
}

#[test]
fn message_key_with_and_without_thread() {
    let m = inbound("7", "a@example.com", meta(None, None));
    assert_eq!(message_key(&m), "7");
    let m = inbound("7", "a@example.com", meta(None, Some("S")));
    assert_eq!(
        message_key(&m),
        format!("7{}{}", EMAIL_REPLY_META_SEP, r#"{"message_id":null,"subject":"S"}"#)
    );
}

#[test]
fn same_message_delivered_once() {
    let ch = make_channel(vec!["*".into()]);
    let mut l = Listener::new();
    let first = l.deliver(&ch, inbound("1", "a@example.com", meta(Some("<m>"), None)), 100);
    let second = l.deliver(&ch, inbound("1", "a@example.com", meta(Some("<m>"), None)), 101);
    let msg = first.expect("first delivery");
    assert!(second.is_none());
    assert_eq!(msg.channel, "email");
    assert_eq!(msg.sender, "a@example.com");
    assert_eq!(msg.content, "hi");
    assert_eq!(msg.timestamp, 100);
}

#[test]
fn cycle_skips_duplicates_and_unauthorized() {
    let ch = make_channel(vec!["a@example.com".into()]);
    let mut l = Listener::new();
    let batch = vec![
        inbound("1", "a@example.com", meta(None, None)),
        inbound("2", "b@example.com", meta(None, None)),
        inbound("1", "a@example.com", meta(None, None)),
        inbound("3", "A@example.com", meta(None, None)),
    ];
    let out = l.process_cycle(&ch, Ok(batch), 5);
    let ids: Vec<&str> = out.iter().map(|m| m.id.as_str()).collect();
    assert_eq!(ids, vec!["1", "3"]);
    let again = l.process_cycle(&ch, Ok(vec![inbound("2", "a@example.com", meta(None, None))]), 6);
    assert!(again.is_empty());
}

#[test]
fn failed_cycle_delivers_nothing_and_keeps_state() {
    let ch = make_channel(vec!["*".into()]);
    let mut l = Listener::new();
    assert!(l.process_cycle(&ch, Err(PollError::Fetch), 1).is_empty());
    let out = l.process_cycle(&ch, Ok(vec![inbound("1", "a@example.com", meta(None, None))]), 2);
    assert_eq!(out.len(), 1);
}

#[test]
fn compose_reply_threads_and_renders() {
    let ch = make_channel(vec![]);
    let enc = EmailChannel::encode_thread_meta(&meta(Some("  <id@x>  "), Some("Hello"))).unwrap();
    let recipient = format!("alice@example.com{}{}", EMAIL_REPLY_META_SEP, enc);
    let plan = ch.compose_reply("**hi**", &recipient).ok().expect("plan");
    assert_eq!(plan.from, "bot@example.com");
    assert_eq!(plan.to, "alice@example.com");
    assert_eq!(plan.subject, "Re: Hello");
    assert_eq!(plan.in_reply_to.as_deref(), Some("<id@x>"));
    assert_eq!(plan.text, "**hi**");
    assert!(plan.html.contains("<strong>hi</strong>"));
}

#[test]
fn compose_reply_without_thread() {
    let ch = make_channel(vec![]);
    let plan = ch.compose_reply("x", "bob@example.com").ok().expect("plan");
    assert_eq!(plan.subject, "ZeroClaw reply");
    assert!(plan.in_reply_to.is_none());
}

#[test]
fn compose_reply_rejects_bad_addresses() {
    let ch = make_channel(vec![]);
    assert_eq!(ch.compose_reply("x", "bobexample.com").err(), Some(SendError::InvalidRecipient));
    assert_eq!(
        ch.compose_reply("x", "bob@example.com\r\nBcc: e@x").err(),
        Some(SendError::InvalidRecipient)
    );
    let bad = EmailChannel::new(
        "h".into(), 1, "l".into(), "p".into(), true, "h".into(), 1, "l".into(), "p".into(), true,
        "nobody".into(), "INBOX".into(), 1, vec![],
    );
    assert_eq!(bad.compose_reply("x", "bob@example.com").err(), Some(SendError::InvalidFromAddress));
    assert!(!bad.health_verdict(true, true));
    assert_eq!(bad.poll_every_secs(), 5);
}

#[test]
fn health_and_poll_interval() {
    let ch = make_channel(vec![]);
    assert!(ch.health_verdict(true, true));
    assert!(!ch.health_verdict(false, true));
    assert!(!ch.health_verdict(true, false));
    assert_eq!(ch.poll_every_secs(), 10);
}

#[test]
fn decode_accepts_whitespace_order_and_missing_members() {
    let m = EmailChannel::decode_thread_meta(" { \"subject\" : \"S\" ,\n \"message_id\": null } \n")
        .expect("decode");
    assert!(m.message_id.is_none());
    assert_eq!(m.subject.as_deref(), Some("S"));
    let m = EmailChannel::decode_thread_meta(r#"{"message_id": "<a@b>"}"#).expect("decode");
    assert_eq!(m.message_id.as_deref(), Some("<a@b>"));
    assert!(m.subject.is_none());
    let m = EmailChannel::decode_thread_meta("{ }").expect("decode");
    assert!(m.message_id.is_none() && m.subject.is_none());
}

#[test]
fn decode_rejects_duplicate_and_unknown_members() {
    assert!(EmailChannel::decode_thread_meta(r#"{"subject":"a","subject":"b"}"#).is_none());
    assert!(EmailChannel::decode_thread_meta(r#"{"other":"a"}"#).is_none());
    assert!(EmailChannel::decode_thread_meta(r#"{"subject":"a",}"#).is_none());
}

#[test]
fn trimmed_text_functions() {
    assert!(email_channel::address::has_identity_shape("a@b"));
    assert!(!email_channel::address::has_identity_shape("ab"));
    assert!(!email_channel::address::has_identity_shape(""));
    assert_eq!(email_channel::address::nonempty_text("x").as_deref(), Some("x"));
    assert!(email_channel::address::nonempty_text("").is_none());
    assert_eq!(EmailChannel::reply_subject_trimmed("Hello"), "Re: Hello");
    assert_eq!(EmailChannel::reply_subject_trimmed("rE: x"), "rE: x");
    assert_eq!(EmailChannel::reply_subject_trimmed(""), "ZeroClaw reply");
}

#[test]
fn getters_return_configuration() {
    let ch = make_channel(vec![]);
    assert_eq!(ch.imap_host(), "imap.example.com");
    assert_eq!(ch.imap_port(), 993);
    assert_eq!(ch.imap_login(), "imap-user");
    assert_eq!(ch.imap_password(), "imap-pass");
    assert!(ch.imap_starttls());
    assert_eq!(ch.smtp_host(), "smtp.example.com");
    assert_eq!(ch.smtp_port(), 587);
    assert_eq!(ch.smtp_login(), "smtp-user");
    assert_eq!(ch.smtp_password(), "smtp-pass");
    assert!(ch.smtp_starttls());
    assert_eq!(ch.inbox_folder(), "INBOX");
    assert_eq!(ch.from_address(), "bot@example.com");
}

#[test]
fn cycle_messages_carry_sender_content_and_time() {
    let ch = make_channel(vec!["*".into()]);
    let mut l = Listener::new();
    let mut a = inbound("1", "a@example.com", meta(None, None));
    a.content = "first".into();
    let mut b = inbound("2", "b@example.com", meta(None, None));
    b.content = "second".into();
    let out = l.process_cycle(&ch, Ok(vec![a, b]), 42);
    assert_eq!(out.len(), 2);
    assert_eq!(out[0].sender, "a@example.com");
    assert_eq!(out[0].content, "first");
    assert_eq!(out[1].sender, "b@example.com");
    assert_eq!(out[1].content, "second");
    assert_eq!(out[1].channel, "email");
    assert_eq!(out[1].timestamp, 42);
}
