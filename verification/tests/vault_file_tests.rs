use uncloud_web::vault_file::{
    create_vault_bytes, save_vault, unlock_precheck, unlock_vault, vault_edited, vault_encrypt_failed, vault_save_started,
    vault_upload_done, VaultSaveState,
};

#[test]
fn unlock_needs_a_password() {
    assert_eq!(unlock_precheck(""), Some("Password is required".to_string()));
    assert_eq!(unlock_precheck("secret"), None);
}

#[test]
fn garbage_is_not_a_vault() {
    match unlock_vault(&vec![1, 2, 3, 4], "pw") {
        Err(e) => assert!(e.starts_with("Failed to open vault: "), "{e}"),
        Ok(_) => panic!("opened garbage"),
    }
}

#[test]
fn new_vault_opens_with_its_password() {
    let bytes = create_vault_bytes("correct horse").expect("a new vault");
    let db = unlock_vault(&bytes, "correct horse").expect("opens");
    let again = save_vault(&db, "correct horse").expect("saves");
    assert!(!again.is_empty());
    match unlock_vault(&bytes, "wrong") {
        Err(e) => assert!(e.starts_with("Failed to open vault: "), "{e}"),
        Ok(_) => panic!("opened with a wrong password"),
    }
}

#[test]
fn vault_files_are_kdbx41() {
    let header = [0x03u8, 0xd9, 0xa2, 0x9a, 0x67, 0xfb, 0x4b, 0xb5, 0x01, 0x00, 0x04, 0x00];
    let bytes = create_vault_bytes("pw").expect("a new vault");
    assert_eq!(&bytes[..12], &header);
    let db = unlock_vault(&bytes, "pw").expect("opens");
    let saved = save_vault(&db, "pw").expect("saves");
    assert_eq!(&saved[..12], &header);
}

#[test]
fn vault_save_flow() {
    let mut st = VaultSaveState { dirty: false, saving: false, save_ok: false, save_error: None };
    vault_edited(&mut st);
    assert!(st.dirty);
    vault_save_started(&mut st);
    assert!(st.saving && !st.save_ok && st.save_error.is_none());
    vault_upload_done(&mut st, Err("offline".to_string()));
    assert!(!st.saving && st.dirty);
    assert_eq!(st.save_error, Some("offline".to_string()));
    vault_save_started(&mut st);
    vault_upload_done(&mut st, Ok(()));
    assert!(!st.saving && !st.dirty && st.save_ok && st.save_error.is_none());
    vault_save_started(&mut st);
    vault_encrypt_failed(&mut st, "Encryption failed: x".to_string());
    assert!(!st.saving);
    assert_eq!(st.save_error, Some("Encryption failed: x".to_string()));
}
