use uncloud_web::mail_compose::{
    address_key, compose_form_for, forward_subject, new_compose_form, mail_own_addresses, parse_compose_addresses, push_unique_address_key,
    reply_all_recipients, reply_references, reply_subject,
};
use uncloud_web::mail_model::{MailAccount, MailAddress, MailComposeMode, MailIdentity, MailMessageDetail, MailMessageSummary};

fn addr(name: Option<&str>, address: &str) -> MailAddress {
    MailAddress { name: name.map(|n| n.to_string()), address: address.to_string() }
}

fn message(from: Vec<MailAddress>, to: Vec<MailAddress>, cc: Vec<MailAddress>) -> MailMessageSummary {
    MailMessageSummary {
        id: "m1".to_string(),
        folder_id: "f1".to_string(),
        uid: 7,
        subject: Some("Hello".to_string()),
        from,
        to,
        cc,
        flags: vec![],
        snippet: None,
        date: None,
        internal_date: None,
        message_id: None,
        in_reply_to: None,
        references: vec![],
    }
}

fn addresses(list: &[MailAddress]) -> Vec<String> {
    list.iter().map(|a| a.address.clone()).collect()
}

#[test]
fn reply_subject_adds_prefix_once() {
    assert_eq!(reply_subject("  Hello  "), "Re: Hello");
    assert_eq!(reply_subject("RE: Hello"), "RE: Hello");
    assert_eq!(reply_subject("re:x"), "re:x");
    let once = reply_subject("Lunch?");
    assert_eq!(reply_subject(&once), once);
}

#[test]
fn reply_subject_of_blank_subject() {
    assert_eq!(reply_subject(""), "Re: ");
    assert_eq!(reply_subject(&reply_subject("")), "Re:");
}

#[test]
fn forward_subject_adds_prefix_once() {
    assert_eq!(forward_subject("Report"), "Fwd: Report");
    assert_eq!(forward_subject("FW: Report"), "FW: Report");
    assert_eq!(forward_subject(" fwd: Report "), "fwd: Report");
    let once = forward_subject("Minutes");
    assert_eq!(forward_subject(&once), once);
}

#[test]
fn address_key_trims_and_lowers() {
    assert_eq!(address_key("  Alice@Example.COM "), "alice@example.com");
    assert_eq!(address_key("   "), "");
}

#[test]
fn unique_address_keys() {
    let mut out: Vec<String> = Vec::new();
    push_unique_address_key(&mut out, "A@x.org");
    push_unique_address_key(&mut out, " a@X.org");
    push_unique_address_key(&mut out, "  ");
    push_unique_address_key(&mut out, "b@x.org");
    assert_eq!(out, vec!["a@x.org".to_string(), "b@x.org".to_string()]);
}

#[test]
fn own_addresses_of_account_and_identities() {
    let account = MailAccount { id: "acc".to_string(), email_address: "Me@Home.net".to_string(), sync_in_progress: false };
    let identities = vec![
        MailIdentity { account_id: "acc".to_string(), display_name: "Me".to_string(), email_address: "me@home.net".to_string() },
        MailIdentity { account_id: "acc".to_string(), display_name: "Work".to_string(), email_address: "ME@work.com".to_string() },
        MailIdentity { account_id: "acc".to_string(), display_name: "Blank".to_string(), email_address: " ".to_string() },
    ];
    let own = mail_own_addresses(Some(&account), &identities);
    assert_eq!(own, vec!["me@home.net".to_string(), "me@work.com".to_string()]);
    let none = mail_own_addresses(None, &identities);
    assert_eq!(none, vec!["me@home.net".to_string(), "me@work.com".to_string()]);
}

#[test]
fn reply_all_leaves_out_own_and_repeats() {
    let m = message(
        vec![addr(Some("Bob"), "bob@x.org")],
        vec![addr(None, "me@home.net"), addr(None, "carol@x.org"), addr(None, "BOB@x.org")],
        vec![addr(None, "carol@x.org"), addr(None, "dave@x.org"), addr(None, "  ")],
    );
    let own = vec!["me@home.net".to_string()];
    let (to, cc) = reply_all_recipients(&m, &own);
    assert_eq!(addresses(&to), vec!["bob@x.org".to_string()]);
    assert_eq!(to[0].name, Some("Bob".to_string()));
    assert_eq!(addresses(&cc), vec!["carol@x.org".to_string(), "dave@x.org".to_string()]);
}

#[test]
fn reply_all_from_self_goes_to_the_message_recipients() {
    let m = message(
        vec![addr(None, "me@home.net")],
        vec![addr(None, "x@y.org"), addr(None, "X@Y.org")],
        vec![addr(None, "z@y.org")],
    );
    let own = vec!["me@home.net".to_string()];
    let (to, cc) = reply_all_recipients(&m, &own);
    assert_eq!(addresses(&to), vec!["x@y.org".to_string()]);
    assert_eq!(addresses(&cc), vec!["z@y.org".to_string()]);
}

#[test]
fn references_use_in_reply_to_then_message_id() {
    let mut m = message(vec![], vec![], vec![]);
    m.in_reply_to = Some(" <parent@x> ".to_string());
    m.message_id = Some("<self@x>".to_string());
    assert_eq!(reply_references(&m), vec!["<parent@x>".to_string(), "<self@x>".to_string()]);
    m.references = vec!["<root@x>".to_string(), "<self@x>".to_string()];
    assert_eq!(reply_references(&m), vec!["<root@x>".to_string(), "<self@x>".to_string()]);
    let mut bare = message(vec![], vec![], vec![]);
    bare.message_id = Some("   ".to_string());
    assert!(reply_references(&bare).is_empty());
}

#[test]
fn compose_addresses_split_on_separators() {
    let list = parse_compose_addresses(" a@x.org, b@y.org;\n c@z.org ,, ;");
    assert_eq!(addresses(&list), vec!["a@x.org".to_string(), "b@y.org".to_string(), "c@z.org".to_string()]);
    assert!(list.iter().all(|a| a.name.is_none()));
    assert!(parse_compose_addresses("  ").is_empty());
}

#[test]
fn compose_forms_for_actions() {
    let mut m = message(
        vec![addr(Some("Bob"), "bob@x.org")],
        vec![addr(None, "me@home.net"), addr(None, "carol@x.org")],
        vec![],
    );
    m.message_id = Some("<m1@x>".to_string());
    let row = MailMessageDetail { message: m, body_text: Some("hi".to_string()), body_html: None };
    let own = vec!["me@home.net".to_string()];
    let reply = compose_form_for(MailComposeMode::Reply, &row, &own);
    assert_eq!(reply.to, "Bob <bob@x.org>");
    assert_eq!(reply.cc, "");
    assert_eq!(reply.subject, "Re: Hello");
    assert_eq!(reply.in_reply_to, "<m1@x>");
    assert_eq!(reply.references, vec!["<m1@x>".to_string()]);
    assert_eq!(reply.source_message_id, "m1");
    assert!(reply.body.ends_with("> hi"));
    let all = compose_form_for(MailComposeMode::ReplyAll, &row, &own);
    assert_eq!(all.to, "Bob <bob@x.org>");
    assert_eq!(all.cc, "carol@x.org");
    let fwd = compose_form_for(MailComposeMode::Forward, &row, &own);
    assert_eq!(fwd.to, "");
    assert_eq!(fwd.subject, "Fwd: Hello");
    assert_eq!(fwd.in_reply_to, "");
    assert!(fwd.references.is_empty());
    assert!(fwd.body.contains("---------- Forwarded message ---------"));
    let blank = new_compose_form();
    assert_eq!(blank.mode, MailComposeMode::New);
    assert_eq!(blank.subject, "");
    let also_blank = compose_form_for(MailComposeMode::New, &row, &own);
    assert_eq!(also_blank.source_message_id, "");
    assert_eq!(also_blank.body, "");
}
