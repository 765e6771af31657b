use uncloud_web::mail_account::{
    account_sync_error_notice, append_unique_messages, next_compose_editor_key, sync_interval_minutes_value,
    sync_interval_secs_from_minutes, upsert_draft,
};
use uncloud_web::mail_model::{
    MailAccount, MailAccountSync, MailComposeMode, MailDraft, MailFolder, MailFolderRole, MailFolderRoleSource,
    MailFolderSyncResult, MailIdentity, MailMessageSummary, MailSentCopyStatus,
};
use uncloud_web::mail_page::{
    account_identities, account_sync_in_progress, background_sync_in_progress, compose_has_content,
    folder_needs_backfill, has_archive_target, has_trash_target, load_more_action, move_target_folders,
    remove_draft, remove_message, selection_dropped, should_auto_sync_folder, should_reload_after_sync,
    sync_status_message, toast_stack_class, LoadMoreAction, automatic_role_label, autosave_error, moved_notice,
    saved_to_files_notice, sent_notice, port_or, sets_new_password, apply_message_page, MessageList, MessagePage, autosave_due, notice_should_clear,
    notice_timer_started,
};

fn msg(id: &str, subject: &str) -> MailMessageSummary {
    MailMessageSummary {
        id: id.to_string(),
        folder_id: "f".to_string(),
        uid: 1,
        subject: Some(subject.to_string()),
        from: vec![],
        to: vec![],
        cc: vec![],
        flags: vec![],
        snippet: None,
        date: None,
        internal_date: None,
        message_id: None,
        in_reply_to: None,
        references: vec![],
    }
}

fn draft(id: &str, subject: &str, at: &str) -> MailDraft {
    MailDraft { id: id.to_string(), mode: MailComposeMode::New, subject: subject.to_string(), updated_at: at.to_string() }
}

fn folder(id: &str, account: &str, syncing: bool, completed: bool) -> MailFolder {
    MailFolder {
        id: id.to_string(),
        account_id: account.to_string(),
        name: id.to_string(),
        path: id.to_string(),
        parent_path: None,
        delimiter: None,
        role: None,
        role_source: MailFolderRoleSource::Inferred,
        selectable: true,
        sync_enabled: true,
        sync_completed: completed,
        sync_in_progress: syncing,
        unseen: None,
    }
}

#[test]
fn appending_a_page_replaces_in_place() {
    let current = vec![msg("a", "A"), msg("b", "B")];
    let incoming = vec![msg("c", "C"), msg("a", "A2"), msg("c", "C2")];
    let out = append_unique_messages(current, incoming);
    let ids: Vec<&str> = out.iter().map(|m| m.id.as_str()).collect();
    assert_eq!(ids, vec!["a", "b", "c"]);
    assert_eq!(out[0].subject, Some("A2".to_string()));
    assert_eq!(out[2].subject, Some("C2".to_string()));
}

#[test]
fn upsert_draft_sorts_newest_first() {
    let current = vec![draft("1", "one", "2024-01-01"), draft("2", "two", "2024-03-01"), draft("3", "three", "2024-02-01")];
    let out = upsert_draft(current, draft("1", "one again", "2024-04-01"));
    let ids: Vec<&str> = out.iter().map(|d| d.id.as_str()).collect();
    assert_eq!(ids, vec!["1", "2", "3"]);
    assert_eq!(out[0].subject, "one again");
    let out2 = upsert_draft(out, draft("4", "four", "2024-02-15"));
    let ids2: Vec<&str> = out2.iter().map(|d| d.id.as_str()).collect();
    assert_eq!(ids2, vec!["1", "2", "4", "3"]);
}

#[test]
fn sync_interval_field() {
    assert_eq!(sync_interval_minutes_value(0), "0");
    assert_eq!(sync_interval_minutes_value(60), "1");
    assert_eq!(sync_interval_minutes_value(61), "2");
    assert_eq!(sync_interval_secs_from_minutes("  "), Ok(None));
    assert_eq!(sync_interval_secs_from_minutes(" 15 "), Ok(Some(900)));
    assert_eq!(sync_interval_secs_from_minutes("+2"), Ok(Some(120)));
    assert_eq!(
        sync_interval_secs_from_minutes("abc"),
        Err("Sync interval must be a whole number of minutes".to_string())
    );
    assert_eq!(
        sync_interval_secs_from_minutes("0"),
        Err("Sync interval must be between 1 minute and 10080 minutes".to_string())
    );
    assert_eq!(
        sync_interval_secs_from_minutes("10081"),
        Err("Sync interval must be between 1 minute and 10080 minutes".to_string())
    );
    let shown = sync_interval_minutes_value(90);
    assert_eq!(sync_interval_secs_from_minutes(&shown), Ok(Some(120)));
}

#[test]
fn sync_error_notice() {
    let ok = MailAccountSync { errors: 0, folders: vec![] };
    assert_eq!(account_sync_error_notice(&ok), None);
    let folders = vec![
        MailFolderSyncResult { folder_path: "A".to_string(), error: Some("x".to_string()) },
        MailFolderSyncResult { folder_path: "B".to_string(), error: None },
        MailFolderSyncResult { folder_path: "C".to_string(), error: Some("y".to_string()) },
        MailFolderSyncResult { folder_path: "D".to_string(), error: Some("z".to_string()) },
        MailFolderSyncResult { folder_path: "E".to_string(), error: Some("w".to_string()) },
    ];
    let bad = MailAccountSync { errors: 4, folders };
    assert_eq!(
        account_sync_error_notice(&bad),
        Some("Account sync finished with 4 folder error(s). A: x; C: y; D: z".to_string())
    );
    let bare = MailAccountSync { errors: 2, folders: vec![] };
    assert_eq!(account_sync_error_notice(&bare), Some("Account sync finished with 2 folder error(s).".to_string()));
}

#[test]
fn compose_editor_key_saturates() {
    assert_eq!(next_compose_editor_key(4), 5);
    assert_eq!(next_compose_editor_key(u64::MAX), u64::MAX);
}

#[test]
fn page_decisions() {
    assert!(!compose_has_content("", " ", "", "", "\n", "", ""));
    assert!(compose_has_content("", "", "", "", "", "hi", ""));
    assert_eq!(sync_status_message(None, true, false, false), Some("Syncing older messages".to_string()));
    assert_eq!(sync_status_message(None, false, false, true), Some("Syncing mail".to_string()));
    assert_eq!(sync_status_message(Some("Saved".to_string()), true, true, true), Some("Saved".to_string()));
    assert_eq!(sync_status_message(None, false, false, false), None);
    let accounts = vec![MailAccount { id: "a".to_string(), email_address: "a@x".to_string(), sync_in_progress: false }];
    let folders = vec![folder("f1", "a", false, true), folder("f2", "b", true, false)];
    assert!(!account_sync_in_progress(&accounts, &folders, "a"));
    assert!(account_sync_in_progress(&accounts, &folders, "b"));
    assert!(background_sync_in_progress(Some(&accounts[0]), &folders));
    assert!(!background_sync_in_progress(None, &vec![folder("f1", "a", false, true)]));
    assert!(should_reload_after_sync(true, false, false, false, false));
    assert!(!should_reload_after_sync(true, true, false, false, false));
    let page = vec![msg("m1", "s")];
    assert!(selection_dropped("m2", &page));
    assert!(!selection_dropped("m1", &page));
    assert!(!selection_dropped("", &page));
    assert!(should_auto_sync_folder(true, false, true, false, false));
    assert!(!should_auto_sync_folder(true, true, true, false, false));
}

#[test]
fn load_more_choices() {
    let folders = vec![folder("f1", "a", false, false), folder("f2", "a", false, true)];
    assert!(folder_needs_backfill(&folders, "f1"));
    assert!(!folder_needs_backfill(&folders, "f2"));
    assert!(!folder_needs_backfill(&folders, "zz"));
    match load_more_action(false, false, false, "a", "f1", &Some("c9".to_string()), &folders, Some(3)) {
        LoadMoreAction::NextPage(c) => assert_eq!(c, "c9"),
        _ => panic!("expected the next page"),
    }
    match load_more_action(false, false, false, "a", "f1", &None, &folders, Some(42)) {
        LoadMoreAction::Backfill(c) => assert_eq!(c, Some("42".to_string())),
        _ => panic!("expected a backfill"),
    }
    assert!(matches!(load_more_action(false, false, false, "a", "f2", &None, &folders, None), LoadMoreAction::Nothing));
    assert!(matches!(load_more_action(true, false, false, "a", "f1", &None, &folders, None), LoadMoreAction::Nothing));
    assert!(matches!(load_more_action(false, false, false, "", "f1", &None, &folders, None), LoadMoreAction::Nothing));
}

#[test]
fn removing_a_message() {
    let list = vec![msg("a", "A"), msg("b", "B"), msg("a", "A again")];
    let out = remove_message(list, "a");
    assert_eq!(out.len(), 1);
    assert_eq!(out[0].id, "b");
}

#[test]
fn message_actions_and_lists() {
    let mut inbox = folder("inbox", "a", false, false);
    inbox.role = Some(MailFolderRole::Inbox);
    let mut archive = folder("arch", "a", false, false);
    archive.role = Some(MailFolderRole::AllMail);
    let mut trash = folder("trash", "a", false, false);
    trash.role = Some(MailFolderRole::Trash);
    trash.selectable = false;
    let folders = vec![inbox, archive, trash];
    assert!(has_archive_target(&folders, "inbox"));
    assert!(!has_archive_target(&folders, "arch"));
    assert!(!has_trash_target(&folders, "inbox"));
    let targets: Vec<String> = move_target_folders(&folders, "inbox").iter().map(|f| f.id.clone()).collect();
    assert_eq!(targets, vec!["arch".to_string()]);
    let drafts = vec![draft("1", "a", "t"), draft("2", "b", "t")];
    let left = remove_draft(drafts, "1");
    assert_eq!(left.len(), 1);
    assert_eq!(left[0].id, "2");
    let ids = vec![
        MailIdentity { account_id: "a".to_string(), display_name: "A".to_string(), email_address: "a@x".to_string() },
        MailIdentity { account_id: "b".to_string(), display_name: "B".to_string(), email_address: "b@x".to_string() },
    ];
    let mine = account_identities(&ids, "b");
    assert_eq!(mine.len(), 1);
    assert_eq!(mine[0].email_address, "b@x");
    assert!(toast_stack_class(true).contains("bottom-14"));
    assert!(toast_stack_class(false).contains("bottom-4 "));
}

#[test]
fn mail_page_notices() {
    assert_eq!(sent_notice(MailSentCopyStatus::Appended), "Message sent (Sent copy appended)");
    assert_eq!(moved_notice(&Some("Archive/2024".to_string())), "Message moved to Archive/2024");
    assert_eq!(moved_notice(&None), "Message moved");
    assert_eq!(automatic_role_label(Some(MailFolderRole::AllMail)), "Automatic (All mail)");
    assert_eq!(automatic_role_label(None), "Automatic");
    assert_eq!(autosave_error("timeout"), "Draft autosave failed: timeout");
    assert_eq!(saved_to_files_notice("a.pdf"), "Saved a.pdf to Files");
}

#[test]
fn account_form_ports_and_password() {
    assert_eq!(port_or("143", 993), 143);
    assert_eq!(port_or("+587", 465), 587);
    assert_eq!(port_or("70000", 993), 993);
    assert_eq!(port_or("abc", 465), 465);
    assert_eq!(port_or("", 993), 993);
    assert!(!sets_new_password("   "));
    assert!(sets_new_password("s3cret"));
}

#[test]
fn a_further_page_joins_the_list() {
    let list = MessageList { messages: vec![msg("1", "a"), msg("2", "b")], next_cursor: Some("c1".to_string()), has_more: true };
    let page = MessagePage { messages: vec![msg("2", "b2"), msg("3", "c")], next_cursor: None, has_more: false };
    let out = apply_message_page(list, page);
    let ids: Vec<(String, String)> = out.messages.iter().map(|m| (m.id.clone(), m.subject.clone().unwrap_or_default())).collect();
    assert_eq!(ids.iter().map(|p| p.0.clone()).collect::<Vec<_>>(), vec!["1", "2", "3"]);
    assert_eq!(out.next_cursor, None);
    assert!(!out.has_more);
}

#[test]
fn notice_and_autosave_timers() {
    let t1 = notice_timer_started(0);
    let t2 = notice_timer_started(t1);
    let shown = Some("Draft saved".to_string());
    assert!(!notice_should_clear(t2, t1, &shown, "Draft saved"));
    assert!(notice_should_clear(t2, t2, &shown, "Draft saved"));
    assert!(!notice_should_clear(t2, t2, &shown, "Message moved"));
    assert!(!notice_should_clear(t2, t2, &None, "Draft saved"));
    assert!(autosave_due(3, 3, true, false, false));
    assert!(!autosave_due(4, 3, true, false, false));
    assert!(!autosave_due(3, 3, false, false, false));
    assert!(!autosave_due(3, 3, true, true, false));
    assert!(!autosave_due(3, 3, true, false, true));
}
