use uncloud_web::mail_folders::{folder_role_rank, sort_mail_folder_siblings, sorted_mail_folders};
use uncloud_web::mail_labels::{
    compose_title, folder_depth, folder_role_from_value, folder_role_label, folder_role_name, folder_role_value_for,
    security_from_value, security_to_value, sent_copy_status_label,
};
use uncloud_web::mail_model::{MailComposeMode, MailFolder, MailFolderRole, MailFolderRoleSource, MailSecurity, MailSentCopyStatus};

fn folder(id: &str, name: &str, path: &str, parent: Option<&str>, role: Option<MailFolderRole>) -> MailFolder {
    MailFolder {
        id: id.to_string(),
        account_id: "acc".to_string(),
        name: name.to_string(),
        path: path.to_string(),
        parent_path: parent.map(|p| p.to_string()),
        delimiter: Some("/".to_string()),
        role,
        role_source: MailFolderRoleSource::Inferred,
        selectable: true,
        sync_enabled: true,
        sync_completed: false,
        sync_in_progress: false,
        unseen: None,
    }
}

fn ids(list: &[MailFolder]) -> Vec<String> {
    list.iter().map(|f| f.id.clone()).collect()
}

#[test]
fn tree_order_puts_children_after_parents() {
    let folders = vec![
        folder("w", "Work", "Work", None, None),
        folder("p", "projects", "Work/projects", Some("Work"), None),
        folder("i", "INBOX", "INBOX", None, Some(MailFolderRole::Inbox)),
        folder("a", "alpha", "Work/alpha", Some("Work"), None),
        folder("s", "Sent", "Sent", None, Some(MailFolderRole::Sent)),
        folder("o", "Orphan", "Gone/Orphan", Some("Gone"), None),
    ];
    let out = sorted_mail_folders(&folders);
    assert_eq!(ids(&out), vec!["i", "s", "o", "w", "a", "p"]);
    let mut before = ids(&folders);
    let mut after = ids(&out);
    before.sort();
    after.sort();
    assert_eq!(before, after);
}

#[test]
fn tree_order_keeps_folders_on_a_cycle() {
    let folders = vec![
        folder("x", "X", "X", Some("Y"), None),
        folder("y", "Y", "Y", Some("X"), None),
        folder("t", "Top", "Top", None, None),
    ];
    let out = sorted_mail_folders(&folders);
    assert_eq!(ids(&out), vec!["t", "x", "y"]);
}

#[test]
fn siblings_sort_by_rank_name_path() {
    let mut list = vec![
        folder("b", "beta", "beta", None, None),
        folder("t", "Trash", "Trash", None, Some(MailFolderRole::Trash)),
        folder("a2", "Alpha", "z", None, None),
        folder("a1", "alpha", "y", None, None),
        folder("i", "Inbox", "INBOX", None, Some(MailFolderRole::Inbox)),
    ];
    sort_mail_folder_siblings(&mut list);
    assert_eq!(ids(&list), vec!["i", "t", "a1", "a2", "b"]);
    assert!(folder_role_rank(Some(MailFolderRole::Inbox)) < folder_role_rank(Some(MailFolderRole::Sent)));
    assert!(folder_role_rank(Some(MailFolderRole::Spam)) < folder_role_rank(None));
}

#[test]
fn role_values_round_trip() {
    let roles = [
        None,
        Some(MailFolderRole::Inbox),
        Some(MailFolderRole::Sent),
        Some(MailFolderRole::Drafts),
        Some(MailFolderRole::Trash),
        Some(MailFolderRole::Archive),
        Some(MailFolderRole::Spam),
        Some(MailFolderRole::AllMail),
    ];
    for role in roles {
        let mut f = folder("f", "F", "F", None, role);
        f.role_source = MailFolderRoleSource::Manual;
        let v = folder_role_value_for(&f);
        assert_eq!(folder_role_from_value(&v), role);
    }
    let f = folder("f", "F", "F", None, Some(MailFolderRole::Sent));
    assert_eq!(folder_role_value_for(&f), "auto");
    assert_eq!(folder_role_from_value("auto"), None);
    assert_eq!(folder_role_from_value("all_mail"), Some(MailFolderRole::AllMail));
}

#[test]
fn security_values_round_trip() {
    for s in [MailSecurity::Tls, MailSecurity::StartTls, MailSecurity::Plain] {
        assert_eq!(security_from_value(security_to_value(s)), s);
    }
    assert_eq!(security_from_value("bogus"), MailSecurity::Tls);
}

#[test]
fn labels() {
    assert_eq!(folder_role_name(MailFolderRole::AllMail), "All mail");
    assert_eq!(folder_role_label(None), None);
    assert_eq!(folder_role_label(Some(MailFolderRole::Inbox)), Some("Inbox"));
    assert_eq!(compose_title(MailComposeMode::ReplyAll), "Reply all");
    assert_eq!(sent_copy_status_label(MailSentCopyStatus::Failed), "Sent copy failed");
}

#[test]
fn folder_depth_counts_delimiters() {
    let f = folder("p", "c", "a/b/c", None, None);
    assert_eq!(folder_depth(&f), 2);
    let mut g = folder("p", "c", "a.b.c", None, None);
    g.delimiter = Some(String::new());
    assert_eq!(folder_depth(&g), 0);
    g.delimiter = None;
    assert_eq!(folder_depth(&g), 0);
    g.delimiter = Some("..".to_string());
    g.path = "a....b".to_string();
    assert_eq!(folder_depth(&g), 2);
}
