use uncloud_web::mail_body::{
    escape_html, forward_body, forward_body_html, html_reply_source, plain_reply_source, plain_text_to_html,
    quote_plain_text, reply_body, reply_body_html, short_date,
};
use uncloud_web::mail_model::{MailAddress, MailAttachment, MailDraft, MailComposeMode, MailIdentity, MailMessageDetail, MailMessageSummary};
use uncloud_web::mail_text::{
    compose_address_line, draft_subject_label, format_mail_address, mail_attachment_meta, mail_attachment_name,
    mail_identity_label, message_has_flag, message_recipients, message_sender, message_subject, nonempty_string,
};

fn addr(name: Option<&str>, address: &str) -> MailAddress {
    MailAddress { name: name.map(|n| n.to_string()), address: address.to_string() }
}

fn summary() -> MailMessageSummary {
    MailMessageSummary {
        id: "m1".to_string(),
        folder_id: "f1".to_string(),
        uid: 1,
        subject: Some("Plans".to_string()),
        from: vec![addr(Some("Ann"), "ann@x.org")],
        to: vec![addr(None, "bo@x.org"), addr(Some("Cy"), "cy@x.org")],
        cc: vec![],
        flags: vec!["\\Seen".to_string()],
        snippet: Some("snip".to_string()),
        date: Some("2024-03-05T10:20:30Z".to_string()),
        internal_date: Some("2024-03-06T08:09:10.123Z".to_string()),
        message_id: None,
        in_reply_to: None,
        references: vec![],
    }
}

fn detail(text: Option<&str>, html: Option<&str>) -> MailMessageDetail {
    MailMessageDetail {
        message: summary(),
        body_text: text.map(|t| t.to_string()),
        body_html: html.map(|t| t.to_string()),
    }
}

#[test]
fn escape_html_replaces_markup() {
    assert_eq!(escape_html("a<b> & \"c\" 'd'"), "a&lt;b&gt; &amp; &quot;c&quot; &#39;d&#39;");
    let e = escape_html("<<>>\"'");
    assert!(!e.contains('<') && !e.contains('>') && !e.contains('"') && !e.contains('\''));
}

#[test]
fn quote_plain_text_lines() {
    assert_eq!(quote_plain_text("one\n\ntwo"), "> one\n>\n> two");
    assert_eq!(quote_plain_text("one\r\ntwo\n"), "> one\n> two");
    assert_eq!(quote_plain_text("  \n "), ">");
}

#[test]
fn plain_text_to_html_paragraphs() {
    assert_eq!(plain_text_to_html("  a\nb<\n\nc  "), "<p>a<br>b&lt;</p><p>c</p>");
    assert_eq!(plain_text_to_html("   "), "");
}

#[test]
fn short_date_forms() {
    assert_eq!(short_date(Some("2024-03-06T08:09:10.123Z")), "2024-03-06 08:09");
    assert_eq!(short_date(Some("2024-03-06T08:09Z")), "2024-03-06 08:09");
    assert_eq!(short_date(Some("abc")), "abc");
    assert_eq!(short_date(None), "");
}

#[test]
fn address_forms() {
    assert_eq!(format_mail_address(&addr(Some(" Ann "), " ann@x.org ")), "Ann <ann@x.org>");
    assert_eq!(format_mail_address(&addr(Some("ANN@x.org"), "ann@x.org")), "ann@x.org");
    assert_eq!(format_mail_address(&addr(Some("  "), "ann@x.org")), "ann@x.org");
    let line = compose_address_line(&vec![addr(None, "a@x"), addr(None, "  "), addr(Some("B"), "b@x")]);
    assert_eq!(line, "a@x, B <b@x>");
}

#[test]
fn message_labels() {
    let m = summary();
    assert_eq!(message_sender(&m), "Ann <ann@x.org>");
    assert_eq!(message_recipients(&m), "bo@x.org, Cy <cy@x.org>");
    assert_eq!(message_subject(&m), "Plans");
    let mut bare = summary();
    bare.from = vec![];
    bare.to = vec![];
    bare.subject = Some("  ".to_string());
    assert_eq!(message_sender(&bare), "Unknown sender");
    assert_eq!(message_recipients(&bare), "Undisclosed recipients");
    assert_eq!(message_subject(&bare), "(no subject)");
    assert!(message_has_flag(&m, "seen"));
    assert!(!message_has_flag(&m, "flagged"));
}

#[test]
fn draft_identity_and_attachment_labels() {
    let d = MailDraft { id: "d".to_string(), mode: MailComposeMode::New, subject: " ".to_string(), updated_at: "t".to_string() };
    assert_eq!(draft_subject_label(&d), "(no subject)");
    let i = MailIdentity { account_id: "a".to_string(), display_name: "Me".to_string(), email_address: "me@x".to_string() };
    assert_eq!(mail_identity_label(&i), "Me <me@x>");
    let a = MailAttachment { id: "1".to_string(), filename: None, content_type: Some("image/png".to_string()), size_bytes: Some(2048) };
    assert_eq!(mail_attachment_name(&a), "Attachment");
    assert_eq!(mail_attachment_meta(&a, Some("2.0 KB".to_string())), "2.0 KB | image/png");
    let b = MailAttachment { id: "2".to_string(), filename: Some("r.pdf".to_string()), content_type: Some(" ".to_string()), size_bytes: None };
    assert_eq!(mail_attachment_name(&b), "r.pdf");
    assert_eq!(mail_attachment_meta(&b, None), "download");
    assert_eq!(nonempty_string("x".to_string()), Some("x".to_string()));
    assert_eq!(nonempty_string(String::new()), None);
}

#[test]
fn reply_and_forward_bodies() {
    let row = detail(Some("Hi there\nBye"), None);
    assert_eq!(plain_reply_source(&row), "Hi there\nBye");
    assert_eq!(reply_body(&row), "\n\nOn 2024-03-06 08:09, Ann <ann@x.org> wrote:\n> Hi there\n> Bye");
    assert_eq!(
        reply_body_html(&row),
        "<p></p><p>On 2024-03-06 08:09, Ann &lt;ann@x.org&gt; wrote:</p><blockquote><p>Hi there<br>Bye</p></blockquote>"
    );
    assert_eq!(
        forward_body(&row),
        "\n\n---------- Forwarded message ---------\nFrom: Ann <ann@x.org>\nDate: 2024-03-06 08:09\nSubject: Plans\nTo: bo@x.org, Cy <cy@x.org>\n\nHi there\nBye"
    );
    assert_eq!(
        forward_body_html(&row),
        "<p></p><p>---------- Forwarded message ---------</p><p><strong>From:</strong> Ann &lt;ann@x.org&gt;<br><strong>Date:</strong> 2024-03-06 08:09<br><strong>Subject:</strong> Plans<br><strong>To:</strong> bo@x.org, Cy &lt;cy@x.org&gt;</p><p>Hi there<br>Bye</p>"
    );
}

#[test]
fn reply_sources_fall_back() {
    let blank = detail(Some("  "), Some(" "));
    assert_eq!(plain_reply_source(&blank), "snip");
    assert_eq!(html_reply_source(&blank), "<p>snip</p>");
    let html = detail(None, Some("<b>x</b>"));
    assert_eq!(html_reply_source(&html), "<b>x</b>");
}
