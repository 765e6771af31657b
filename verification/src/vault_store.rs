//! Edits to an open KeePass database: the entries and groups that the vault
//! pages add, change and delete, stated over what the database holds.

use vstd::prelude::*;
use crate::text::{trim, trim_str, views};
use crate::vault::{
    custom_rows, editable_custom_fields, entry_edit_plan, field_rows, field_writes, stale_keys, standard_field,
    standard_writes, FieldRow,
};

verus! {

broadcast use vstd::string::group_string_axioms;

/// The fields of an entry: each key with its text and whether it is protected.
pub type EntryFields = Map<Seq<char>, (Seq<char>, bool)>;

/// The entries of an open database, by uuid, each with its fields.
pub uninterp spec fn vault_entries(db: keepass::Database) -> Map<u128, Map<Seq<char>, (Seq<char>, bool)>>;

/// The group that each entry of an open database sits in, by entry uuid.
pub uninterp spec fn vault_entry_groups(db: keepass::Database) -> Map<u128, u128>;

/// The groups of an open database, by uuid, each with its parent group (none
/// for the root) and its name.
pub uninterp spec fn vault_groups(db: keepass::Database) -> Map<u128, (Option<u128>, Seq<char>)>;

/// The history of each entry of an open database, by uuid: the fields of
/// its earlier states, newest first (empty when it has none).
pub uninterp spec fn vault_histories(db: keepass::Database) -> Map<u128, Seq<Map<Seq<char>, (Seq<char>, bool)>>>;

/// Whether two states of a database have the same groups, keep every entry
/// in the same group and every history as it was.
pub open spec fn same_layout(a: keepass::Database, b: keepass::Database) -> bool {
    &&& vault_entry_groups(a) == vault_entry_groups(b)
    &&& vault_groups(a) == vault_groups(b)
    &&& vault_histories(a) == vault_histories(b)
}

/// The histories after the present state of entry `uuid` joins its history,
/// as the newest earlier state.
pub open spec fn with_history(db: keepass::Database, uuid: u128) -> Map<u128, Seq<EntryFields>> {
    vault_histories(db).insert(uuid, seq![vault_entries(db)[uuid]] + vault_histories(db)[uuid])
}

/// Whether `rows` lists the fields `m`: each key once, with its value.
pub open spec fn lists_fields(rows: Seq<FieldRow>, m: EntryFields) -> bool {
    &&& forall|i: int, j: int| 0 <= i < j < rows.len() ==> (#[trigger] rows[i]).0 != (#[trigger] rows[j]).0
    &&& forall|i: int|
        0 <= i < rows.len() ==> m.contains_key((#[trigger] rows[i]).0) && m[rows[i].0] == (rows[i].1, rows[i].2)
    &&& forall|k: Seq<char>| #[trigger] m.contains_key(k) ==> exists|i: int| 0 <= i < rows.len() && (#[trigger] rows[i]).0 == k
}

/// The fields of an entry, in the order the database hands them out.
///
/// Trusted: looks the entry up with `keepass::Database::entry` and lists its
/// `fields` map, each value read with `Value::get` and `Value::is_protected`.
/// Claimed: `None` exactly when no entry has the uuid; else each field once.
/// The order is the map's and is not claimed.
#[verifier::external_body]
fn read_entry_fields(db: &keepass::Database, uuid: u128) -> (r: Option<Vec<(String, String, bool)>>)
    ensures
        r is Some <==> vault_entries(*db).contains_key(uuid),
        r matches Some(v) ==> lists_fields(field_rows(v@), vault_entries(*db)[uuid]),
{
    let id = keepass::db::EntryId::from_uuid(uuid::Uuid::from_u128(uuid));
    db.entry(id).map(|e| e.fields.iter().map(|(k, v)| (k.clone(), v.get().clone(), v.is_protected())).collect())
}

/// Removes an entry from the database.
///
/// Trusted: calls `keepass::db::EntryMut::remove` on the entry that
/// `Database::entry_mut` finds. Claimed: it reports whether the entry was
/// there, and only that entry leaves, with its history; the groups stay.
#[verifier::external_body]
fn remove_entry(db: &mut keepass::Database, uuid: u128) -> (r: bool)
    ensures
        r == vault_entries(*old(db)).contains_key(uuid),
        vault_entries(*final(db)) == vault_entries(*old(db)).remove(uuid),
        vault_entry_groups(*final(db)) == vault_entry_groups(*old(db)).remove(uuid),
        vault_groups(*final(db)) == vault_groups(*old(db)),
        vault_histories(*final(db)) == vault_histories(*old(db)).remove(uuid),
{
    let id = keepass::db::EntryId::from_uuid(uuid::Uuid::from_u128(uuid));
    match db.entry_mut(id) {
        Some(entry) => {
            entry.remove();
            true
        },
        None => false,
    }
}

/// Keeps the present state of an entry in its history.
///
/// Trusted: calls `keepass::db::EntryMut::track_changes` on the entry that
/// `Database::entry_mut` finds and drops the tracker at once, which adds a
/// copy of the entry to the front of its history (`History::add_entry`
/// inserts at position 0). Claimed: it reports whether the entry was there;
/// if so, the entry's present fields become the newest state of its
/// history. No field, group or other history changes.
#[verifier::external_body]
fn record_history(db: &mut keepass::Database, uuid: u128) -> (r: bool)
    ensures
        r == vault_entries(*old(db)).contains_key(uuid),
        vault_entries(*final(db)) == vault_entries(*old(db)),
        vault_entry_groups(*final(db)) == vault_entry_groups(*old(db)),
        vault_groups(*final(db)) == vault_groups(*old(db)),
        r ==> vault_histories(*final(db)) == with_history(*old(db), uuid),
        !r ==> vault_histories(*final(db)) == vault_histories(*old(db)),
{
    let id = keepass::db::EntryId::from_uuid(uuid::Uuid::from_u128(uuid));
    match db.entry_mut(id) {
        Some(mut entry) => {
            drop(entry.track_changes());
            true
        },
        None => false,
    }
}

/// The fields of entry `uuid` after `key` is set to `value`.
pub open spec fn with_field(
    entries: Map<u128, EntryFields>,
    uuid: u128,
    key: Seq<char>,
    value: Seq<char>,
    protected: bool,
) -> Map<u128, EntryFields> {
    entries.insert(uuid, entries[uuid].insert(key, (value, protected)))
}

/// Sets a protected field of an entry.
///
/// Trusted: calls `keepass::db::Entry::set_protected` on the entry that
/// `Database::entry_mut` finds, which inserts the key into its `fields` map.
/// Claimed: it reports whether the entry was there; if so that one field
/// takes the value, protected, and nothing else changes.
#[verifier::external_body]
fn set_protected_field(db: &mut keepass::Database, uuid: u128, key: &str, value: &str) -> (r: bool)
    ensures
        r == vault_entries(*old(db)).contains_key(uuid),
        r ==> vault_entries(*final(db)) == with_field(vault_entries(*old(db)), uuid, key@, value@, true),
        !r ==> vault_entries(*final(db)) == vault_entries(*old(db)),
        same_layout(*old(db), *final(db)),
{
    let id = keepass::db::EntryId::from_uuid(uuid::Uuid::from_u128(uuid));
    match db.entry_mut(id) {
        Some(mut entry) => {
            entry.set_protected(key, value);
            true
        },
        None => false,
    }
}

/// Sets an unprotected field of an entry.
///
/// Trusted: calls `keepass::db::Entry::set_unprotected` on the entry that
/// `Database::entry_mut` finds, which inserts the key into its `fields` map.
/// Claimed: it reports whether the entry was there; if so that one field
/// takes the value, unprotected, and nothing else changes.
#[verifier::external_body]
fn set_unprotected_field(db: &mut keepass::Database, uuid: u128, key: &str, value: &str) -> (r: bool)
    ensures
        r == vault_entries(*old(db)).contains_key(uuid),
        r ==> vault_entries(*final(db)) == with_field(vault_entries(*old(db)), uuid, key@, value@, false),
        !r ==> vault_entries(*final(db)) == vault_entries(*old(db)),
        same_layout(*old(db), *final(db)),
{
    let id = keepass::db::EntryId::from_uuid(uuid::Uuid::from_u128(uuid));
    match db.entry_mut(id) {
        Some(mut entry) => {
            entry.set_unprotected(key, value);
            true
        },
        None => false,
    }
}

/// Removes a field of an entry.
///
/// Trusted: removes the key from the `fields` map of the entry that
/// `keepass::Database::entry_mut` finds. Claimed: it reports whether the
/// entry was there; if so that one field leaves, and nothing else changes.
#[verifier::external_body]
fn remove_entry_field(db: &mut keepass::Database, uuid: u128, key: &str) -> (r: bool)
    ensures
        r == vault_entries(*old(db)).contains_key(uuid),
        r ==> vault_entries(*final(db)) == vault_entries(*old(db)).insert(
            uuid,
            vault_entries(*old(db))[uuid].remove(key@),
        ),
        !r ==> vault_entries(*final(db)) == vault_entries(*old(db)),
        same_layout(*old(db), *final(db)),
{
    let id = keepass::db::EntryId::from_uuid(uuid::Uuid::from_u128(uuid));
    match db.entry_mut(id) {
        Some(mut entry) => {
            entry.fields.remove(key);
            true
        },
        None => false,
    }
}

/// Deletes the entry with uuid `uuid` from the open vault; whether there was one.
pub fn delete_vault_entry(db: &mut keepass::Database, uuid: u128) -> (r: bool)
    ensures
        r == vault_entries(*old(db)).contains_key(uuid),
        vault_entries(*final(db)) == vault_entries(*old(db)).remove(uuid),
        vault_entry_groups(*final(db)) == vault_entry_groups(*old(db)).remove(uuid),
        vault_groups(*final(db)) == vault_groups(*old(db)),
        vault_histories(*final(db)) == vault_histories(*old(db)).remove(uuid),
{
    remove_entry(db, uuid)
}

/// Whether the edited custom fields have a field under `key`.
pub open spec fn edited_has(edited: Seq<FieldRow>, key: Seq<char>) -> bool {
    exists|j: int| 0 <= j < edited.len() && (#[trigger] edited[j]).0 == key
}

/// The fields an entry keeps when the editor saves: the standard ones, and
/// the custom ones whose key the edited list still has.
pub open spec fn kept_fields(m: EntryFields, edited: Seq<FieldRow>) -> EntryFields {
    Map::new(
        |k: Seq<char>| m.contains_key(k) && (standard_field(k) || edited_has(edited, k)),
        |k: Seq<char>| m[k],
    )
}

/// The fields after each write in turn, a later write of a key winning.
pub open spec fn with_writes(m: EntryFields, writes: Seq<FieldRow>) -> EntryFields
    decreases writes.len(),
{
    if writes.len() == 0 {
        m
    } else {
        let w = writes.last();
        with_writes(m, writes.drop_last()).insert(w.0, (w.1, w.2))
    }
}

/// The fields of an entry after the editor saves: stale custom fields gone,
/// then the standard fields and the edited custom fields written.
pub open spec fn saved_fields(
    m: EntryFields,
    title: Seq<char>,
    username: Seq<char>,
    password: Seq<char>,
    url: Seq<char>,
    notes: Seq<char>,
    custom: Seq<FieldRow>,
) -> EntryFields {
    with_writes(
        kept_fields(m, custom),
        standard_writes(title, username, password, url, notes) + field_writes(custom),
    )
}

/// A key is stale exactly when the entry had it, it is not standard and the
/// edited list lacks it.
pub proof fn lemma_stale_keys_contains(old_keys: Seq<Seq<char>>, edited: Seq<FieldRow>, k: Seq<char>)
    ensures
        stale_keys(old_keys, edited).contains(k) <==> (old_keys.contains(k) && !standard_field(k)
            && !edited_has(edited, k)),
    decreases old_keys.len(),
{
    if old_keys.len() > 0 {
        lemma_stale_keys_contains(old_keys.drop_last(), edited, k);
        assert(old_keys =~= old_keys.drop_last().push(old_keys.last()));
        vstd::seq_lib::lemma_seq_contains_after_push(old_keys.drop_last(), old_keys.last(), k);
        let r = stale_keys(old_keys.drop_last(), edited);
        let l = old_keys.last();
        if !standard_field(l) && !(exists|j: int| 0 <= j < edited.len() && (#[trigger] edited[j]).0 == l) {
            assert(stale_keys(old_keys, edited) == r.push(l));
            vstd::seq_lib::lemma_seq_contains_after_push(r, l, k);
        } else {
            assert(stale_keys(old_keys, edited) == r);
        }
    }
}

/// Saves the entry editor into the open vault: the entry's present state
/// goes to its history, stale custom fields leave, and the standard and
/// edited custom fields are written. Whether the entry was found.
pub fn save_entry_edit(
    db: &mut keepass::Database,
    uuid: u128,
    title: &str,
    username: &str,
    password: &str,
    url: &str,
    notes: &str,
    custom: &Vec<(String, String, bool)>,
) -> (r: bool)
    ensures
        r == vault_entries(*old(db)).contains_key(uuid),
        r ==> vault_entries(*final(db)) == vault_entries(*old(db)).insert(
            uuid,
            saved_fields(vault_entries(*old(db))[uuid], title@, username@, password@, url@, notes@, field_rows(custom@)),
        ),
        !r ==> vault_entries(*final(db)) == vault_entries(*old(db)),
        r ==> vault_histories(*final(db)) == with_history(*old(db), uuid),
        !r ==> vault_histories(*final(db)) == vault_histories(*old(db)),
        vault_entry_groups(*final(db)) == vault_entry_groups(*old(db)),
        vault_groups(*final(db)) == vault_groups(*old(db)),
{
    let fields = match read_entry_fields(db, uuid) {
        Some(f) => f,
        None => return false,
    };
    let ghost e0 = vault_entries(*db);
    let ghost m = e0[uuid];
    let ghost rows = field_rows(fields@);
    record_history(db, uuid);
    let ghost d0 = *db;
    let mut keys: Vec<String> = Vec::new();
    let mut i: usize = 0;
    while i < fields.len()
        invariant
            i <= fields.len(),
            rows == field_rows(fields@),
            views(keys@).len() == i,
            forall|j: int| 0 <= j < i ==> #[trigger] views(keys@)[j] == rows[j].0,
        decreases fields.len() - i,
    {
        let ghost kb = views(keys@);
        keys.push(fields[i].0.clone());
        assert(views(keys@) =~= kb.push(fields@[i as int].0@));
        i = i + 1;
    }
    let ghost kv = views(keys@);
    assert forall|k: Seq<char>| kv.contains(k) <==> m.contains_key(k) by {
        if kv.contains(k) {
            let j = choose|j: int| 0 <= j < kv.len() && kv[j] == k;
            assert(rows[j].0 == k);
        }
        if m.contains_key(k) {
            let j = choose|j: int| 0 <= j < rows.len() && (#[trigger] rows[j]).0 == k;
            assert(kv[j] == k);
        }
    }
    let plan = entry_edit_plan(title, username, password, url, notes, &keys, custom);
    let ghost edited = field_rows(custom@);
    let ghost stale = views(plan.removals@);
    assert(stale.take(0) =~= Seq::<Seq<char>>::empty());
    assert(Map::new(|k: Seq<char>| m.contains_key(k) && !stale.take(0).contains(k), |k: Seq<char>| m[k]) =~= m);
    assert(e0.insert(uuid, m) =~= e0);
    let mut i: usize = 0;
    while i < plan.removals.len()
        invariant
            i <= plan.removals.len(),
            stale == views(plan.removals@),
            e0.contains_key(uuid),
            m == e0[uuid],
            same_layout(d0, *db),
            vault_entries(*db) == e0.insert(
                uuid,
                Map::new(|k: Seq<char>| m.contains_key(k) && !stale.take(i as int).contains(k), |k: Seq<char>| m[k]),
            ),
        decreases plan.removals.len() - i,
    {
        let ghost before = Map::new(
            |k: Seq<char>| m.contains_key(k) && !stale.take(i as int).contains(k),
            |k: Seq<char>| m[k],
        );
        remove_entry_field(db, uuid, plan.removals[i].as_str());
        let ghost after = Map::new(
            |k: Seq<char>| m.contains_key(k) && !stale.take(i + 1).contains(k),
            |k: Seq<char>| m[k],
        );
        assert(stale.take(i + 1) =~= stale.take(i as int).push(stale[i as int]));
        assert forall|k: Seq<char>| stale.take(i + 1).contains(k) <==> (stale.take(i as int).contains(k) || k == stale[i as int]) by {
            vstd::seq_lib::lemma_seq_contains_after_push(stale.take(i as int), stale[i as int], k);
        }
        assert(before.remove(stale[i as int]) =~= after);
        assert(e0.insert(uuid, before).insert(uuid, after) =~= e0.insert(uuid, after));
        i = i + 1;
    }
    let ghost base = kept_fields(m, edited);
    assert(stale.take(stale.len() as int) =~= stale);
    assert forall|k: Seq<char>| stale.contains(k) <==> (m.contains_key(k) && !standard_field(k) && !edited_has(edited, k)) by {
        lemma_stale_keys_contains(kv, edited, k);
    }
    assert(Map::new(|k: Seq<char>| m.contains_key(k) && !stale.contains(k), |k: Seq<char>| m[k]) =~= base);
    let ghost writes = field_rows(plan.sets@);
    let mut i: usize = 0;
    while i < plan.sets.len()
        invariant
            i <= plan.sets.len(),
            writes == field_rows(plan.sets@),
            e0.contains_key(uuid),
            same_layout(d0, *db),
            vault_entries(*db) == e0.insert(uuid, with_writes(base, writes.take(i as int))),
        decreases plan.sets.len() - i,
    {
        let w = &plan.sets[i];
        let ghost before = with_writes(base, writes.take(i as int));
        if w.2 {
            set_protected_field(db, uuid, w.0.as_str(), w.1.as_str());
        } else {
            set_unprotected_field(db, uuid, w.0.as_str(), w.1.as_str());
        }
        assert(writes.take(i + 1).drop_last() =~= writes.take(i as int));
        assert(writes.take(i + 1).last() == writes[i as int]);
        assert(e0.insert(uuid, before).insert(uuid, before.insert(w.0@, (w.1@, w.2))) =~= e0.insert(
            uuid,
            with_writes(base, writes.take(i + 1)),
        ));
        i = i + 1;
    }
    assert(writes.take(writes.len() as int) =~= writes);
    true
}

/// The uuid of the root group.
///
/// Trusted: reads the id of `keepass::Database::root`. Claimed: a group of
/// the database, one without a parent (the root is made with none).
#[verifier::external_body]
fn root_group_uuid(db: &keepass::Database) -> (r: u128)
    ensures
        vault_groups(*db).contains_key(r),
        vault_groups(*db)[r].0 is None,
{
    db.root().id().uuid().as_u128()
}

/// Whether the database has a group with this uuid.
///
/// Trusted: calls `keepass::Database::group`. Claimed: it finds a group
/// exactly when the database has one with the uuid.
#[verifier::external_body]
fn has_group(db: &keepass::Database, uuid: u128) -> (r: bool)
    ensures
        r == vault_groups(*db).contains_key(uuid),
{
    db.group(keepass::db::GroupId::from_uuid(uuid::Uuid::from_u128(uuid))).is_some()
}

/// Adds an entry without fields, under a chosen uuid, to a group.
///
/// Trusted: calls `keepass::db::GroupMut::add_entry_with_id` on the group
/// that `Database::group_mut` finds. Claimed: it adds the entry exactly when
/// the group is there and no entry has the uuid yet; nothing else changes.
#[verifier::external_body]
fn add_entry_in(db: &mut keepass::Database, group: u128, uuid: u128) -> (r: bool)
    ensures
        r == (vault_groups(*old(db)).contains_key(group) && !vault_entries(*old(db)).contains_key(uuid)),
        r ==> vault_entries(*final(db)) == vault_entries(*old(db)).insert(uuid, Map::empty()),
        r ==> vault_entry_groups(*final(db)) == vault_entry_groups(*old(db)).insert(uuid, group),
        r ==> vault_histories(*final(db)) == vault_histories(*old(db)).insert(uuid, Seq::empty()),
        !r ==> vault_entries(*final(db)) == vault_entries(*old(db)),
        !r ==> vault_entry_groups(*final(db)) == vault_entry_groups(*old(db)),
        !r ==> vault_histories(*final(db)) == vault_histories(*old(db)),
        vault_groups(*final(db)) == vault_groups(*old(db)),
{
    let gid = keepass::db::GroupId::from_uuid(uuid::Uuid::from_u128(group));
    let id = keepass::db::EntryId::from_uuid(uuid::Uuid::from_u128(uuid));
    match db.group_mut(gid) {
        Some(mut g) => g.add_entry_with_id(id).is_ok(),
        None => false,
    }
}

/// Adds a named group, under a chosen uuid, to a group.
///
/// Trusted: calls `keepass::db::GroupMut::add_group_with_id` on the group
/// that `Database::group_mut` finds and sets the new group's `name`.
/// Claimed: it adds the group exactly when the parent is there and no group
/// has the uuid yet; nothing else changes.
#[verifier::external_body]
fn add_group_in(db: &mut keepass::Database, parent: u128, uuid: u128, name: &str) -> (r: bool)
    ensures
        r == (vault_groups(*old(db)).contains_key(parent) && !vault_groups(*old(db)).contains_key(uuid)),
        r ==> vault_groups(*final(db)) == vault_groups(*old(db)).insert(uuid, (Some(parent), name@)),
        !r ==> vault_groups(*final(db)) == vault_groups(*old(db)),
        vault_entries(*final(db)) == vault_entries(*old(db)),
        vault_entry_groups(*final(db)) == vault_entry_groups(*old(db)),
        vault_histories(*final(db)) == vault_histories(*old(db)),
{
    let pid = keepass::db::GroupId::from_uuid(uuid::Uuid::from_u128(parent));
    let id = keepass::db::GroupId::from_uuid(uuid::Uuid::from_u128(uuid));
    match db.group_mut(pid) {
        Some(mut g) => match g.add_group_with_id(id) {
            Ok(mut added) => {
                added.name = name.to_string();
                true
            },
            Err(_) => false,
        },
        None => false,
    }
}

/// Whether `requested` names a group of the vault.
pub open spec fn requested_exists(groups: Map<u128, (Option<u128>, Seq<char>)>, requested: Option<u128>) -> bool {
    requested matches Some(g) && groups.contains_key(g)
}

/// Whether `target` is where a new item asked for in `requested` goes: that
/// group if the vault has it, else the root (the group without a parent).
pub open spec fn placed_in(groups: Map<u128, (Option<u128>, Seq<char>)>, requested: Option<u128>, target: u128) -> bool {
    &&& groups.contains_key(target)
    &&& requested_exists(groups, requested) ==> requested == Some(target)
    &&& !requested_exists(groups, requested) ==> groups[target].0 is None
}

/// The group that a new entry or group goes to.
fn target_group(db: &keepass::Database, requested: Option<u128>) -> (r: u128)
    ensures
        placed_in(vault_groups(*db), requested, r),
{
    match requested {
        Some(g) => {
            if has_group(db, g) {
                g
            } else {
                root_group_uuid(db)
            }
        },
        None => root_group_uuid(db),
    }
}

/// The fields of a new entry: the title trimmed; the user name trimmed, the
/// password protected, the URL trimmed and the notes, each only when given.
pub open spec fn new_entry_fields(
    title: Seq<char>,
    username: Seq<char>,
    password: Seq<char>,
    url: Seq<char>,
    notes: Seq<char>,
) -> EntryFields {
    let m0 = Map::<Seq<char>, (Seq<char>, bool)>::empty().insert("Title"@, (trim(title), false));
    let m1 = if username.len() > 0 { m0.insert("UserName"@, (trim(username), false)) } else { m0 };
    let m2 = if password.len() > 0 { m1.insert("Password"@, (password, true)) } else { m1 };
    let m3 = if url.len() > 0 { m2.insert("URL"@, (trim(url), false)) } else { m2 };
    if notes.len() > 0 { m3.insert("Notes"@, (notes, false)) } else { m3 }
}

/// Adds a new entry to the open vault, in the group asked for if the vault
/// has it and else at the root; `false` when the uuid is taken.
pub fn create_vault_entry(
    db: &mut keepass::Database,
    group: Option<u128>,
    uuid: u128,
    title: &str,
    username: &str,
    password: &str,
    url: &str,
    notes: &str,
) -> (r: bool)
    ensures
        r == !vault_entries(*old(db)).contains_key(uuid),
        r ==> vault_entries(*final(db)) == vault_entries(*old(db)).insert(
            uuid,
            new_entry_fields(title@, username@, password@, url@, notes@),
        ),
        r ==> vault_entry_groups(*final(db)) == vault_entry_groups(*old(db)).insert(
            uuid,
            vault_entry_groups(*final(db))[uuid],
        ),
        r ==> placed_in(vault_groups(*old(db)), group, vault_entry_groups(*final(db))[uuid]),
        !r ==> vault_entries(*final(db)) == vault_entries(*old(db)),
        !r ==> vault_entry_groups(*final(db)) == vault_entry_groups(*old(db)),
        r ==> vault_histories(*final(db)) == vault_histories(*old(db)).insert(uuid, Seq::empty()),
        !r ==> vault_histories(*final(db)) == vault_histories(*old(db)),
        vault_groups(*final(db)) == vault_groups(*old(db)),
{
    let target = target_group(db, group);
    if !add_entry_in(db, target, uuid) {
        return false;
    }
    let ghost e0 = vault_entries(*old(db));
    let ghost p1 = vault_entry_groups(*db);
    let ghost g0 = vault_groups(*db);
    proof {
        reveal_strlit("Title");
        reveal_strlit("UserName");
        reveal_strlit("Password");
        reveal_strlit("URL");
        reveal_strlit("Notes");
    }
    let t = trim_str(title);
    set_unprotected_field(db, uuid, "Title", t.as_str());
    let ghost m0 = Map::<Seq<char>, (Seq<char>, bool)>::empty().insert("Title"@, (trim(title@), false));
    assert(vault_entries(*db) =~= e0.insert(uuid, m0));
    let ghost m1 = if username@.len() > 0 { m0.insert("UserName"@, (trim(username@), false)) } else { m0 };
    if !username.is_empty() {
        let u = trim_str(username);
        set_unprotected_field(db, uuid, "UserName", u.as_str());
        assert(vault_entries(*db) =~= e0.insert(uuid, m1));
    }
    let ghost m2 = if password@.len() > 0 { m1.insert("Password"@, (password@, true)) } else { m1 };
    if !password.is_empty() {
        set_protected_field(db, uuid, "Password", password);
        assert(vault_entries(*db) =~= e0.insert(uuid, m2));
    }
    let ghost m3 = if url@.len() > 0 { m2.insert("URL"@, (trim(url@), false)) } else { m2 };
    if !url.is_empty() {
        let u = trim_str(url);
        set_unprotected_field(db, uuid, "URL", u.as_str());
        assert(vault_entries(*db) =~= e0.insert(uuid, m3));
    }
    if !notes.is_empty() {
        set_unprotected_field(db, uuid, "Notes", notes);
    }
    assert(vault_entries(*db) =~= e0.insert(uuid, new_entry_fields(title@, username@, password@, url@, notes@)));
    assert(vault_entry_groups(*db) == p1);
    assert(vault_groups(*db) == g0);
    true
}

/// Adds a new group, named with `name` trimmed, to the open vault, under the
/// group asked for if the vault has it and else under the root; `false`
/// when the uuid is taken.
pub fn create_vault_group(db: &mut keepass::Database, parent: Option<u128>, uuid: u128, name: &str) -> (r: bool)
    ensures
        r == !vault_groups(*old(db)).contains_key(uuid),
        r ==> exists|target: u128|
            placed_in(vault_groups(*old(db)), parent, target) && vault_groups(*final(db)) == vault_groups(
                *old(db),
            ).insert(uuid, (Some(target), trim(name@))),
        !r ==> vault_groups(*final(db)) == vault_groups(*old(db)),
        vault_entries(*final(db)) == vault_entries(*old(db)),
        vault_entry_groups(*final(db)) == vault_entry_groups(*old(db)),
        vault_histories(*final(db)) == vault_histories(*old(db)),
{
    let target = target_group(db, parent);
    let n = trim_str(name);
    add_group_in(db, target, uuid, n.as_str())
}

/// The text of a field, or nothing when the entry lacks it.
pub open spec fn field_text(m: EntryFields, key: Seq<char>) -> Seq<char> {
    if m.contains_key(key) {
        m[key].0
    } else {
        Seq::empty()
    }
}

/// An entry as the editor and the detail pane show it: the standard fields
/// as text, and the custom fields that have a value.
pub struct EntryForm {
    pub title: String,
    pub username: String,
    pub password: String,
    pub url: String,
    pub notes: String,
    pub custom: Vec<(String, String, bool)>,
}

/// The text of field `key` among `rows`.
fn field_text_in(rows: &Vec<(String, String, bool)>, key: &str, Ghost(m): Ghost<EntryFields>) -> (r: String)
    requires
        lists_fields(field_rows(rows@), m),
    ensures
        r@ == field_text(m, key@),
{
    let ghost fr = field_rows(rows@);
    let mut i: usize = 0;
    while i < rows.len()
        invariant
            i <= rows.len(),
            fr == field_rows(rows@),
            lists_fields(fr, m),
            forall|j: int| 0 <= j < i ==> (#[trigger] fr[j]).0 != key@,
        decreases rows.len() - i,
    {
        if crate::text::str_eq(rows[i].0.as_str(), key) {
            assert(fr[i as int].0 == key@);
            return rows[i].1.clone();
        }
        assert(fr[i as int].0 != key@);
        i = i + 1;
    }
    proof {
        if m.contains_key(key@) {
            let j = choose|j: int| 0 <= j < fr.len() && (#[trigger] fr[j]).0 == key@;
            assert(fr[j].0 == key@);
        }
    }
    String::new()
}

/// The entry with uuid `uuid` as the editor opens it; `None` when the vault
/// has no such entry.
pub fn entry_form(db: &keepass::Database, uuid: u128) -> (r: Option<EntryForm>)
    ensures
        r is Some <==> vault_entries(*db).contains_key(uuid),
        r matches Some(f) ==> f.title@ == field_text(vault_entries(*db)[uuid], "Title"@),
        r matches Some(f) ==> f.username@ == field_text(vault_entries(*db)[uuid], "UserName"@),
        r matches Some(f) ==> f.password@ == field_text(vault_entries(*db)[uuid], "Password"@),
        r matches Some(f) ==> f.url@ == field_text(vault_entries(*db)[uuid], "URL"@),
        r matches Some(f) ==> f.notes@ == field_text(vault_entries(*db)[uuid], "Notes"@),
        r matches Some(f) ==> exists|rows: Seq<FieldRow>|
            lists_fields(rows, vault_entries(*db)[uuid]) && field_rows(f.custom@) == custom_rows(rows),
{
    let fields = match read_entry_fields(db, uuid) {
        Some(f) => f,
        None => return None,
    };
    let ghost m = vault_entries(*db)[uuid];
    proof {
        reveal_strlit("Title");
        reveal_strlit("UserName");
        reveal_strlit("Password");
        reveal_strlit("URL");
        reveal_strlit("Notes");
    }
    let form = EntryForm {
        title: field_text_in(&fields, "Title", Ghost(m)),
        username: field_text_in(&fields, "UserName", Ghost(m)),
        password: field_text_in(&fields, "Password", Ghost(m)),
        url: field_text_in(&fields, "URL", Ghost(m)),
        notes: field_text_in(&fields, "Notes", Ghost(m)),
        custom: editable_custom_fields(&fields),
    };
    Some(form)
}

/// Writes of other keys leave a key as it was.
proof fn lemma_writes_skip(m: EntryFields, writes: Seq<FieldRow>, k: Seq<char>)
    requires
        forall|i: int| 0 <= i < writes.len() ==> (#[trigger] writes[i]).0 != k,
    ensures
        with_writes(m, writes).contains_key(k) == m.contains_key(k),
        m.contains_key(k) ==> with_writes(m, writes)[k] == m[k],
    decreases writes.len(),
{
    if writes.len() > 0 {
        let w = writes.drop_last();
        assert forall|i: int| 0 <= i < w.len() implies (#[trigger] w[i]).0 != k by {
            assert(w[i] == writes[i]);
        }
        assert(writes.last() == writes[writes.len() - 1]);
        lemma_writes_skip(m, w, k);
    }
}

/// Writing `a` then `b` is writing `a + b`.
proof fn lemma_writes_append(m: EntryFields, a: Seq<FieldRow>, b: Seq<FieldRow>)
    ensures
        with_writes(m, a + b) == with_writes(with_writes(m, a), b),
    decreases b.len(),
{
    if b.len() == 0 {
        assert(a + b =~= a);
    } else {
        assert((a + b).drop_last() =~= a + b.drop_last());
        assert((a + b).last() == b.last());
        lemma_writes_append(m, a, b.drop_last());
    }
}

/// Each custom write is under the trimmed key of an edited field.
proof fn lemma_field_writes_keys(edited: Seq<FieldRow>)
    ensures
        forall|i: int| 0 <= i < field_writes(edited).len() ==> exists|j: int|
            0 <= j < edited.len() && (#[trigger] field_writes(edited)[i]).0 == trim((#[trigger] edited[j]).0),
    decreases edited.len(),
{
    if edited.len() > 0 {
        let e = edited.drop_last();
        lemma_field_writes_keys(e);
        let r = field_writes(e);
        assert forall|i: int| 0 <= i < field_writes(edited).len() implies exists|j: int|
            0 <= j < edited.len() && (#[trigger] field_writes(edited)[i]).0 == trim((#[trigger] edited[j]).0) by {
            if i < r.len() {
                assert(field_writes(edited)[i] == r[i]);
                let j = choose|j: int| 0 <= j < e.len() && r[i].0 == trim((#[trigger] e[j]).0);
                assert(edited[j] == e[j]);
            } else {
                assert(field_writes(edited)[i].0 == trim(edited[edited.len() - 1].0));
            }
        }
    }
}

/// What the editor saves is what it opens again: after a save, the standard
/// fields read back as they were typed (title, user name and URL trimmed),
/// unless a custom field was given one of their names.
pub proof fn lemma_saved_entry_reopens(
    m: EntryFields,
    title: Seq<char>,
    username: Seq<char>,
    password: Seq<char>,
    url: Seq<char>,
    notes: Seq<char>,
    custom: Seq<FieldRow>,
)
    requires
        forall|j: int| 0 <= j < custom.len() ==> !standard_field(trim((#[trigger] custom[j]).0)),
    ensures
        field_text(saved_fields(m, title, username, password, url, notes, custom), "Title"@) == trim(title),
        field_text(saved_fields(m, title, username, password, url, notes, custom), "UserName"@) == trim(username),
        field_text(saved_fields(m, title, username, password, url, notes, custom), "Password"@) == password,
        field_text(saved_fields(m, title, username, password, url, notes, custom), "URL"@) == trim(url),
        field_text(saved_fields(m, title, username, password, url, notes, custom), "Notes"@) == notes,
{
    let std = standard_writes(title, username, password, url, notes);
    let fw = field_writes(custom);
    let base = kept_fields(m, custom);
    lemma_writes_append(base, std, fw);
    lemma_field_writes_keys(custom);
    let mid = with_writes(base, std);
    reveal_strlit("Title");
    reveal_strlit("UserName");
    reveal_strlit("Password");
    reveal_strlit("URL");
    reveal_strlit("Notes");
    let s4 = std.drop_last();
    let s3 = s4.drop_last();
    let s2 = s3.drop_last();
    let s1 = s2.drop_last();
    let s0 = s1.drop_last();
    assert(s0 =~= Seq::<FieldRow>::empty());
    assert(with_writes(base, s0) == base);
    assert(s1.len() == 1 && s1.last() == std[0]);
    assert(std[0] == ("Title"@, trim(title), false));
    assert(with_writes(base, s1) == base.insert("Title"@, (trim(title), false)));
    assert(with_writes(base, s2) == with_writes(base, s1).insert("UserName"@, (trim(username), false)));
    assert(with_writes(base, s3) == with_writes(base, s2).insert("Password"@, (password, true)));
    assert(with_writes(base, s4) == with_writes(base, s3).insert("URL"@, (trim(url), false)));
    assert(mid == with_writes(base, s4).insert("Notes"@, (notes, false)));
    assert("Title"@[0] != "Password"@[0] && "Title"@[0] != "URL"@[0] && "Title"@[0] != "Notes"@[0]);
    assert("UserName"@[0] != "Password"@[0] && "UserName"@[1] != "URL"@[1] && "UserName"@[0] != "Notes"@[0]);
    assert("Title"@ != "UserName"@);
    assert(mid["Title"@] == (trim(title), false));
    assert(mid["UserName"@] == (trim(username), false));
    assert forall|k: Seq<char>| standard_field(k) implies forall|i: int| 0 <= i < fw.len() ==> (#[trigger] fw[i]).0 != k by {
        assert forall|i: int| 0 <= i < fw.len() implies (#[trigger] fw[i]).0 != k by {
            let j = choose|j: int| 0 <= j < custom.len() && fw[i].0 == trim((#[trigger] custom[j]).0);
        }
    }
    lemma_writes_skip(mid, fw, "Title"@);
    lemma_writes_skip(mid, fw, "UserName"@);
    lemma_writes_skip(mid, fw, "Password"@);
    lemma_writes_skip(mid, fw, "URL"@);
    lemma_writes_skip(mid, fw, "Notes"@);
}

/// A new entry opens with what was typed: title, user name and URL trimmed,
/// password and notes as given, a field left empty reading as empty.
pub proof fn lemma_new_entry_reopens(
    title: Seq<char>,
    username: Seq<char>,
    password: Seq<char>,
    url: Seq<char>,
    notes: Seq<char>,
)
    ensures
        field_text(new_entry_fields(title, username, password, url, notes), "Title"@) == trim(title),
        field_text(new_entry_fields(title, username, password, url, notes), "UserName"@) == trim(username),
        field_text(new_entry_fields(title, username, password, url, notes), "Password"@) == password,
        field_text(new_entry_fields(title, username, password, url, notes), "URL"@) == trim(url),
        field_text(new_entry_fields(title, username, password, url, notes), "Notes"@) == notes,
{
    reveal_strlit("Title");
    reveal_strlit("UserName");
    reveal_strlit("Password");
    reveal_strlit("URL");
    reveal_strlit("Notes");
    assert("Title"@[0] != "Password"@[0] && "Title"@[0] != "URL"@[0] && "Title"@[0] != "Notes"@[0]);
    assert("UserName"@[0] != "Password"@[0] && "UserName"@[1] != "URL"@[1] && "UserName"@[0] != "Notes"@[0]);
    assert("Password"@[0] != "URL"@[0] && "Password"@[0] != "Notes"@[0] && "URL"@[0] != "Notes"@[0]);
    assert("Title"@ != "UserName"@);
    assert(trim(Seq::<char>::empty()) =~= Seq::<char>::empty()) by {
        crate::text::lemma_trim_unchanged(Seq::<char>::empty());
    }
}

} // verus!
