use keepass::Database;
use uncloud_web::vault_file::{save_vault, unlock_vault};
use uncloud_web::vault_store::{create_vault_entry, entry_form};

#[test]
fn saved_vault_reopens_with_its_password() {
    let mut db = Database::new();
    assert!(create_vault_entry(&mut db, None, 1, "T", " u ", "  p w  ", "x", "a\u{0}\u{1}b <&> \"' é \t]]>"));
    let bytes = save_vault(&db, "pw").expect("saves");
    let back = unlock_vault(&bytes, "pw").expect("opens");
    assert_eq!(entry_form(&back, 1).expect("the entry").password, "  p w  ");
    assert!(unlock_vault(&bytes, "other").is_err());
}

#[test]
fn saved_fields_keys_and_protected_values_come_back() {
    let mut db = Database::new();
    assert!(create_vault_entry(&mut db, None, 2, "T", "u", " p ", "x", "n"));
    let custom = vec![
        ("k".to_string(), " spaced ".to_string(), false),
        ("e".to_string(), "".to_string(), false),
        ("w".to_string(), "\n".to_string(), false),
        ("s".to_string(), "  ".to_string(), true),
    ];
    assert!(uncloud_web::vault_store::save_entry_edit(&mut db, 2, "T", "u", " p ", "x", "n", &custom));
    let bytes = save_vault(&db, "pw").expect("saves");
    let back = unlock_vault(&bytes, "pw").expect("opens");
    let id = keepass::db::EntryId::from_uuid(uuid::Uuid::from_u128(2));
    let b = back.entry(id).unwrap();
    let mut fb: Vec<(String, String, bool)> = b.fields.iter().map(|(k, v)| (k.clone(), v.get().clone(), v.is_protected())).collect();
    fb.sort();
    let a = db.entry(id).unwrap();
    let mut fa: Vec<(String, String, bool)> = a.fields.iter().map(|(k, v)| (k.clone(), v.get().clone(), v.is_protected())).collect();
    fa.sort();
    assert_eq!(fa.len(), fb.len());
    for (x, y) in fa.iter().zip(fb.iter()) {
        assert_eq!(x.0, y.0);
        assert_eq!(x.2, y.2);
        if x.2 {
            assert_eq!(x.1, y.1);
        }
    }
    assert_eq!(back.entry(id).unwrap().get("k"), Some(" spaced "));
}
