//! Opening and writing vault files: the KeePass decryption and encryption
//! that the vault pages run on downloaded bytes, and the messages they show.

use vstd::prelude::*;
use crate::text::{concat2, owned};
use crate::vault_store::{vault_entries, EntryFields};

verus! {

broadcast use vstd::string::group_string_axioms;

/// A decrypted KeePass database.
#[verifier::external_type_specification]
#[verifier::external_body]
pub struct ExDatabase(keepass::Database);

/// What KeePass makes of `bytes` opened with `password`: the entries of the
/// database, by uuid, each with its fields; or the `Debug` text of its error.
/// Named, not defined here: whether it opens and why not is a function of
/// the bytes and the password alone, and so are the entries of a KDBX file,
/// which carry the uuids written in it. (A KDB 1 file gets fresh ids when it
/// is opened, so for one only the failure is meant.)
pub uninterp spec fn vault_file_open(bytes: Seq<u8>, password: Seq<char>) -> Result<Map<u128, Map<Seq<char>, (Seq<char>, bool)>>, Seq<char>>;

/// The signature of a KDBX file (version 3 or 4): the KeePass identifier
/// `9AA2D903` and the file format id `B54BFB67`, little-endian.
pub open spec fn kdbx_signature() -> Seq<u8> {
    seq![0x03u8, 0xd9u8, 0xa2u8, 0x9au8, 0x67u8, 0xfbu8, 0x4bu8, 0xb5u8]
}

/// Whether `bytes` starts with the KDBX signature.
pub open spec fn is_kdbx_file(bytes: Seq<u8>) -> bool {
    bytes.len() >= 8 && bytes.take(8) == kdbx_signature()
}

/// Decrypts a vault file.
///
/// Trusted: calls `keepass::Database::parse` with a key made by
/// `DatabaseKey::new().with_password`, and writes an error with `{:?}`.
/// Claimed: it fails exactly when `vault_file_open` is an error, and then
/// gives that text; a KDBX file opens with the entries that
/// `vault_file_open` names. Of a KDB 1 file nothing is claimed but the
/// failure.
#[verifier::external_body]
fn parse_database(bytes: &Vec<u8>, password: &str) -> (r: Result<keepass::Database, String>)
    ensures
        r is Ok <==> vault_file_open(bytes@, password@) is Ok,
        r matches Err(e) ==> vault_file_open(bytes@, password@)->Err_0 == e@,
        r matches Ok(db) ==> (is_kdbx_file(bytes@) ==> vault_file_open(bytes@, password@)->Ok_0 == vault_entries(db)),
{
    keepass::Database::parse(bytes.as_slice(), keepass::DatabaseKey::new().with_password(password)).map_err(
        |e| format!("{:?}", e),
    )
}

/// The check before a vault is downloaded: a password must be given.
pub fn unlock_precheck(password: &str) -> (r: Option<String>)
    ensures
        password@.len() == 0 ==> (r matches Some(e) && e@ == "Password is required"@),
        password@.len() > 0 ==> r is None,
{
    if password.is_empty() {
        Some(owned("Password is required"))
    } else {
        None
    }
}

/// Opens a downloaded vault with the master password; on failure, the
/// message the unlock card shows.
pub fn unlock_vault(bytes: &Vec<u8>, password: &str) -> (r: Result<keepass::Database, String>)
    ensures
        r is Ok <==> vault_file_open(bytes@, password@) is Ok,
        r matches Err(e) ==> e@ == "Failed to open vault: "@ + vault_file_open(bytes@, password@)->Err_0,
        r matches Ok(db) ==> (is_kdbx_file(bytes@) ==> vault_file_open(bytes@, password@)->Ok_0 == vault_entries(db)),
{
    match parse_database(bytes, password) {
        Ok(db) => Ok(db),
        Err(d) => Err(concat2("Failed to open vault: ", d.as_str())),
    }
}

/// The first twelve bytes of a KDBX 4.1 file: the KeePass signature
/// (`9AA2D903`, `B54BFB67`, little-endian), then minor version 1 and major
/// version 4 as little-endian 16-bit numbers.
pub open spec fn kdbx41_header() -> Seq<u8> {
    seq![0x03u8, 0xd9u8, 0xa2u8, 0x9au8, 0x67u8, 0xfbu8, 0x4bu8, 0xb5u8, 0x01u8, 0x00u8, 0x04u8, 0x00u8]
}

/// Whether `bytes` is laid out as a KDBX 4.1 file: it starts with the
/// signature and version of that format.
pub open spec fn is_kdbx41_file(bytes: Seq<u8>) -> bool {
    bytes.len() >= 12 && bytes.take(12) == kdbx41_header()
}

/// A database without entries, as its entry map.
pub open spec fn no_entries() -> Map<u128, EntryFields> {
    Map::empty()
}

/// Whether `opened`, the entries read back from a saved file, are the
/// entries `saved`: the same entries, each with the same field names and the
/// same protection, and every protected field with the same text.
pub open spec fn reopens_as(opened: Map<u128, EntryFields>, saved: Map<u128, EntryFields>) -> bool {
    &&& opened.dom() == saved.dom()
    &&& forall|id: u128| #[trigger] saved.contains_key(id) ==> opened[id].dom() == saved[id].dom()
    &&& forall|id: u128, k: Seq<char>|
        saved.contains_key(id) && #[trigger] saved[id].contains_key(k) ==> opened[id][k].1 == saved[id][k].1 && (
        saved[id][k].1 ==> opened[id][k].0 == saved[id][k].0)
}

/// Encrypts a database into vault file bytes.
///
/// Trusted: calls `keepass::Database::save` into an empty byte vector with a
/// key made by `DatabaseKey::new().with_password`, and writes an error with
/// `{:?}`. Claimed, on success:
/// - the bytes start with the version header that `save` writes first (it
///   only writes KDBX 4.1, `format/kdbx4/dump.rs`, and fails for other
///   versions);
/// - opened with the same password they give back the database's entries.
///   `dump_kdbx4` writes the outer header, its SHA-256 and HMAC, and the
///   HMAC block stream of the compressed, encrypted payload, with the key
///   derived from the same password, the seeds and KDF parameters it writes
///   into the header; `decrypt_kdbx4` (`format/kdbx4/parse.rs`) reads these
///   back in that order, checks them and undoes each step. The payload's XML
///   (`xml_db::to_xml`, `Group::db_to_xml`) lists every group under the root
///   with every entry under its uuid and each field with its protection, a
///   protected text encrypted by the inner stream; `Group::xml_to_db_handle`
///   adds each entry back under that uuid. keepass's own `test_save`
///   (`db/mod.rs`) checks this round trip.
///
/// Not claimed: the text of unprotected fields (one of white space only
/// reads back empty), the rest of the bytes, which carry fresh random salts
/// and nonces, and whether saving succeeds, which depends on the system's
/// random source.
#[verifier::external_body]
fn encrypt_database(db: &keepass::Database, password: &str) -> (r: Result<Vec<u8>, String>)
    ensures
        r matches Ok(b) ==> is_kdbx41_file(b@),
        r matches Ok(b) ==> vault_file_open(b@, password@) is Ok,
        r matches Ok(b) ==> reopens_as(vault_file_open(b@, password@)->Ok_0, vault_entries(*db)),
{
    let mut out: Vec<u8> = Vec::new();
    db.save(&mut out, keepass::DatabaseKey::new().with_password(password)).map(|_| out).map_err(
        |e| format!("{:?}", e),
    )
}

/// An empty database.
///
/// Trusted: calls `keepass::Database::new`. Claimed: it has no entries
/// (`entries` starts as an empty map). The root group gets a random id and
/// is not claimed.
#[verifier::external_body]
fn empty_database() -> (r: keepass::Database)
    ensures
        vault_entries(r) == no_entries(),
{
    keepass::Database::new()
}

/// Encrypts the open vault for upload as a KDBX 4.1 file; on failure, the
/// message the vault page shows.
pub fn save_vault(db: &keepass::Database, password: &str) -> (r: Result<Vec<u8>, String>)
    ensures
        r matches Ok(b) ==> is_kdbx41_file(b@),
        r matches Ok(b) ==> vault_file_open(b@, password@) is Ok,
        r matches Ok(b) ==> reopens_as(vault_file_open(b@, password@)->Ok_0, vault_entries(*db)),
        r matches Err(e) ==> exists|d: Seq<char>| e@ == "Encryption failed: "@ + d,
{
    match encrypt_database(db, password) {
        Ok(bytes) => Ok(bytes),
        Err(d) => Err(concat2("Encryption failed: ", d.as_str())),
    }
}

/// The bytes of a new, empty vault protected by `password`, as a KDBX 4.1
/// file; on failure, the message the new-vault form shows.
pub fn create_vault_bytes(password: &str) -> (r: Result<Vec<u8>, String>)
    ensures
        r matches Ok(b) ==> is_kdbx41_file(b@),
        r matches Ok(b) ==> vault_file_open(b@, password@) is Ok,
        r matches Ok(b) ==> vault_file_open(b@, password@)->Ok_0 == no_entries(),
        r matches Err(e) ==> exists|d: Seq<char>| e@ == "Failed to create vault: "@ + d,
{
    let db = empty_database();
    match encrypt_database(&db, password) {
        Ok(bytes) => Ok(bytes),
        Err(d) => Err(concat2("Failed to create vault: ", d.as_str())),
    }
}

/// The save state of the open vault page: unsaved changes, a save under
/// way, and the outcome of the last save.
pub struct VaultSaveState {
    pub dirty: bool,
    pub saving: bool,
    pub save_ok: bool,
    pub save_error: Option<String>,
}

/// An entry or group was added, changed or deleted: the vault has unsaved
/// changes.
pub fn vault_edited(st: &mut VaultSaveState)
    ensures
        final(st).dirty,
        final(st).saving == old(st).saving,
        final(st).save_ok == old(st).save_ok,
        final(st).save_error == old(st).save_error,
{
    st.dirty = true;
}

/// "Save" was pressed: a save is under way, the last outcome is cleared.
pub fn vault_save_started(st: &mut VaultSaveState)
    ensures
        final(st).saving,
        !final(st).save_ok,
        final(st).save_error is None,
        final(st).dirty == old(st).dirty,
{
    st.saving = true;
    st.save_ok = false;
    st.save_error = None;
}

/// The vault could not be encrypted: the save ends with that message (as
/// `save_vault` words it).
pub fn vault_encrypt_failed(st: &mut VaultSaveState, message: String)
    ensures
        !final(st).saving,
        final(st).save_error == Some(message),
        final(st).dirty == old(st).dirty,
        final(st).save_ok == old(st).save_ok,
{
    st.saving = false;
    st.save_error = Some(message);
}

/// The encrypted vault was uploaded, or the upload failed with a message:
/// success leaves no unsaved changes; failure keeps them and shows why.
pub fn vault_upload_done(st: &mut VaultSaveState, result: Result<(), String>)
    ensures
        !final(st).saving,
        result is Ok ==> !final(st).dirty && final(st).save_ok && final(st).save_error == old(st).save_error,
        result matches Err(e) ==> final(st).save_error == Some(e) && final(st).dirty == old(st).dirty
            && final(st).save_ok == old(st).save_ok,
{
    st.saving = false;
    match result {
        Ok(()) => {
            st.dirty = false;
            st.save_ok = true;
        },
        Err(e) => {
            st.save_error = Some(e);
        },
    }
}

} // verus!
