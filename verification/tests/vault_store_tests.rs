use keepass::db::{EntryId, GroupId};
use keepass::Database;

use uncloud_web::vault_store::{
    create_vault_entry, create_vault_group, delete_vault_entry, entry_form, save_entry_edit,
};

fn entry_uuid(n: u128) -> EntryId {
    EntryId::from_uuid(uuid::Uuid::from_u128(n))
}

#[test]
fn new_entry_reopens_trimmed() {
    let mut db = Database::new();
    assert!(create_vault_entry(&mut db, None, 7, "  Mail ", " bob ", " pw ", " https://x.test ", " note "));
    let form = entry_form(&db, 7).expect("the new entry");
    assert_eq!(form.title, "Mail");
    assert_eq!(form.username, "bob");
    assert_eq!(form.password, " pw ");
    assert_eq!(form.url, "https://x.test");
    assert_eq!(form.notes, " note ");
    assert!(form.custom.is_empty());
    let entry = db.entry(entry_uuid(7)).expect("stored");
    assert_eq!(entry.parent().id(), db.root().id());
    assert!(entry.fields.get("Password").expect("password").is_protected());
    assert!(!entry.fields.get("Title").expect("title").is_protected());
}

#[test]
fn new_entry_skips_empty_fields() {
    let mut db = Database::new();
    assert!(create_vault_entry(&mut db, None, 8, "Only title", "", "", "", ""));
    let entry = db.entry(entry_uuid(8)).expect("stored");
    assert_eq!(entry.fields.len(), 1);
    assert_eq!(entry.get_title(), Some("Only title"));
    assert_eq!(entry.get_username(), None);
    let form = entry_form(&db, 8).expect("the new entry");
    assert_eq!(form.username, "");
    assert_eq!(form.password, "");
}

#[test]
fn taken_uuid_adds_nothing() {
    let mut db = Database::new();
    assert!(create_vault_entry(&mut db, None, 9, "First", "", "", "", ""));
    assert!(!create_vault_entry(&mut db, None, 9, "Second", "", "", "", ""));
    assert_eq!(entry_form(&db, 9).expect("first").title, "First");
}

#[test]
fn entries_and_groups_go_where_asked_or_to_the_root() {
    let mut db = Database::new();
    assert!(create_vault_group(&mut db, None, 100, "  Work  "));
    let work = db.group(GroupId::from_uuid(uuid::Uuid::from_u128(100))).expect("the group");
    assert_eq!(work.name, "Work");
    assert_eq!(work.parent().expect("a parent").id(), db.root().id());
    assert!(create_vault_group(&mut db, Some(100), 101, "Inner"));
    assert!(!create_vault_group(&mut db, Some(100), 101, "Again"));
    let inner = db.group(GroupId::from_uuid(uuid::Uuid::from_u128(101))).expect("the group");
    assert_eq!(inner.parent().expect("a parent").id().uuid().as_u128(), 100);

    assert!(create_vault_entry(&mut db, Some(101), 1, "In inner", "", "", "", ""));
    assert_eq!(db.entry(entry_uuid(1)).expect("stored").parent().id().uuid().as_u128(), 101);
    assert!(create_vault_entry(&mut db, Some(555), 2, "Nowhere", "", "", "", ""));
    assert_eq!(db.entry(entry_uuid(2)).expect("stored").parent().id(), db.root().id());
}

#[test]
fn saving_the_editor_rewrites_fields_and_keeps_history() {
    let mut db = Database::new();
    assert!(create_vault_entry(&mut db, None, 3, "Bank", "ann", "old", "", ""));
    let custom = vec![
        ("PIN".to_string(), "1234".to_string(), true),
        ("Branch".to_string(), "North".to_string(), false),
    ];
    assert!(save_entry_edit(&mut db, 3, " Bank ", " ann ", "new", " u ", "n", &custom));
    let form = entry_form(&db, 3).expect("the entry");
    assert_eq!(form.title, "Bank");
    assert_eq!(form.username, "ann");
    assert_eq!(form.password, "new");
    assert_eq!(form.url, "u");
    assert_eq!(form.notes, "n");
    let mut shown = form.custom.clone();
    shown.sort();
    assert_eq!(
        shown,
        vec![("Branch".to_string(), "North".to_string(), false), ("PIN".to_string(), "1234".to_string(), true)]
    );

    // Dropping a custom field removes it; a blank key is not written; a key
    // is written trimmed.
    let custom = vec![(" Branch ".to_string(), "South".to_string(), false), ("  ".to_string(), "x".to_string(), false)];
    assert!(save_entry_edit(&mut db, 3, "Bank", "ann", "new", "u", "n", &custom));
    let entry = db.entry(entry_uuid(3)).expect("the entry");
    assert_eq!(entry.get("PIN"), None);
    assert_eq!(entry.get("Branch"), Some("South"));
    assert_eq!(entry.fields.len(), 6);
    assert_eq!(entry.history.as_ref().expect("a history").get_entries().len(), 2);
    assert_eq!(
        entry.history.as_ref().expect("a history").get_entries()[0].get_password(),
        Some("new")
    );
}

#[test]
fn saving_a_missing_entry_changes_nothing() {
    let mut db = Database::new();
    assert!(!save_entry_edit(&mut db, 42, "t", "", "", "", "", &Vec::new()));
    assert!(entry_form(&db, 42).is_none());
}

#[test]
fn deleting_an_entry() {
    let mut db = Database::new();
    assert!(create_vault_entry(&mut db, None, 5, "Gone soon", "", "", "", ""));
    assert!(create_vault_entry(&mut db, None, 6, "Stays", "", "", "", ""));
    assert!(delete_vault_entry(&mut db, 5));
    assert!(entry_form(&db, 5).is_none());
    assert!(!delete_vault_entry(&mut db, 5));
    assert_eq!(entry_form(&db, 6).expect("kept").title, "Stays");
}
