//! The password vault as a tree of groups and entries: flattened entry and
//! group lists, lookups, deletion, and password generation.

use vstd::prelude::*;
use crate::mail_model::clone_opt;
use crate::music::{to_lowercase, unicode_lowercase};
use crate::text::{chars_of, concat3, contains_str, has_infix, owned, string_of, str_eq, trim, trim_str};

verus! {

broadcast use vstd::string::group_string_axioms;

/// An entry of the vault, with what the pages read of it.
pub struct VaultEntry {
    pub uuid: u128,
    pub title: Option<String>,
    pub username: Option<String>,
    pub url: Option<String>,
}

impl VaultEntry {
    /// A field-by-field copy.
    pub fn duplicate(&self) -> (r: VaultEntry)
        ensures
            r == *self,
    {
        VaultEntry {
            uuid: self.uuid,
            title: clone_opt(&self.title),
            username: clone_opt(&self.username),
            url: clone_opt(&self.url),
        }
    }
}

/// A group of the vault: its entries and its child groups.
pub struct VaultGroup {
    pub uuid: u128,
    pub name: String,
    pub entries: Vec<VaultEntry>,
    pub groups: Vec<VaultGroup>,
}

/// A flattened entry for the entry list.
pub struct EntryView {
    pub uuid: u128,
    pub title: String,
    pub username: String,
    pub url: String,
    pub group_path: String,
}

/// A flattened group for the sidebar.
pub struct GroupView {
    pub uuid: u128,
    pub name: String,
    pub depth: usize,
    pub entry_count: usize,
}

/// An entry row as plain values: uuid, title, user name, URL, group path.
pub type EntryRow = (u128, Seq<char>, Seq<char>, Seq<char>, Seq<char>);

/// The plain values of an entry view.
pub open spec fn entry_view_row(v: EntryView) -> EntryRow {
    (v.uuid, v.title@, v.username@, v.url@, v.group_path@)
}

/// The plain values of entry views.
pub open spec fn entry_rows(v: Seq<EntryView>) -> Seq<EntryRow> {
    v.map_values(|e: EntryView| entry_view_row(e))
}

/// How an entry is listed under group path `path`: a missing title reads
/// `Untitled`, a missing user name or URL reads empty.
pub open spec fn entry_row(e: VaultEntry, path: Seq<char>) -> EntryRow {
    (
        e.uuid,
        match e.title {
            Some(t) => t@,
            None => "Untitled"@,
        },
        match e.username {
            Some(u) => u@,
            None => Seq::empty(),
        },
        match e.url {
            Some(u) => u@,
            None => Seq::empty(),
        },
        path,
    )
}

/// The rows of a group's own entries under `path`.
pub open spec fn own_entry_rows(entries: Seq<VaultEntry>, path: Seq<char>) -> Seq<EntryRow> {
    entries.map_values(|e: VaultEntry| entry_row(e, path))
}

/// The path of a group under its parent's path: `parent/name`, or just the
/// name at the top.
pub open spec fn child_path(path: Seq<char>, name: Seq<char>) -> Seq<char> {
    if path.len() == 0 {
        name
    } else {
        path + "/"@ + name
    }
}

/// All entries of a group and its descendants, depth first: the group's own
/// entries, then each child group's in order.
pub open spec fn group_entry_rows(g: VaultGroup, path: Seq<char>) -> Seq<EntryRow>
    decreases g, 1nat,
{
    let p = child_path(path, g.name@);
    own_entry_rows(g.entries@, p) + groups_entry_rows(g.groups@, p)
}

/// All entries of a list of groups, in order.
pub open spec fn groups_entry_rows(gs: Seq<VaultGroup>, path: Seq<char>) -> Seq<EntryRow>
    decreases gs, 0nat,
{
    if gs.len() == 0 {
        Seq::empty()
    } else {
        groups_entry_rows(gs.drop_last(), path) + group_entry_rows(gs.last(), path)
    }
}

fn entry_view_of(e: &VaultEntry, path: &String) -> (r: EntryView)
    ensures
        entry_view_row(r) == entry_row(*e, path@),
{
    EntryView {
        uuid: e.uuid,
        title: match &e.title {
            Some(t) => t.clone(),
            None => owned("Untitled"),
        },
        username: match &e.username {
            Some(u) => u.clone(),
            None => String::new(),
        },
        url: match &e.url {
            Some(u) => u.clone(),
            None => String::new(),
        },
        group_path: path.clone(),
    }
}

fn path_below(path: &str, name: &String) -> (r: String)
    ensures
        r@ == child_path(path@, name@),
{
    if path.is_empty() {
        name.clone()
    } else {
        concat3(path, "/", name.as_str())
    }
}

/// All entries of a group and its descendants, each with the path of its
/// group (`path` being the path of the group's parent).
pub fn collect_entries(group: &VaultGroup, path: &str) -> (r: Vec<EntryView>)
    ensures
        entry_rows(r@) == group_entry_rows(*group, path@),
    decreases group,
{
    let current = path_below(path, &group.name);
    let mut result: Vec<EntryView> = Vec::new();
    let mut i: usize = 0;
    while i < group.entries.len()
        invariant
            i <= group.entries.len(),
            entry_rows(result@) == own_entry_rows(group.entries@.take(i as int), current@),
        decreases group.entries.len() - i,
    {
        let v = entry_view_of(&group.entries[i], &current);
        let ghost before = entry_rows(result@);
        result.push(v);
        i = i + 1;
        assert(entry_rows(result@) =~= before.push(entry_view_row(v)));
        assert(own_entry_rows(group.entries@.take(i as int), current@) =~= own_entry_rows(
            group.entries@.take(i - 1),
            current@,
        ).push(entry_row(group.entries@[i - 1], current@)));
    }
    assert(group.entries@.take(group.entries.len() as int) =~= group.entries@);
    let ghost own = entry_rows(result@);
    let mut k: usize = 0;
    while k < group.groups.len()
        invariant
            k <= group.groups.len(),
            entry_rows(result@) == own + groups_entry_rows(group.groups@.take(k as int), current@),
        decreases group.groups.len() - k,
    {
        let sub = collect_entries(&group.groups[k], current.as_str());
        let ghost before = entry_rows(result@);
        let mut j: usize = 0;
        while j < sub.len()
            invariant
                j <= sub.len(),
                entry_rows(result@) == before + entry_rows(sub@.take(j as int)),
            decreases sub.len() - j,
        {
            let e = EntryView {
                uuid: sub[j].uuid,
                title: sub[j].title.clone(),
                username: sub[j].username.clone(),
                url: sub[j].url.clone(),
                group_path: sub[j].group_path.clone(),
            };
            assert(entry_view_row(e) == entry_view_row(sub@[j as int]));
            let ghost mid = entry_rows(result@);
            result.push(e);
            assert(entry_rows(result@) =~= mid.push(entry_view_row(e)));
            j = j + 1;
            assert(entry_rows(sub@.take(j as int)) =~= entry_rows(sub@.take(j - 1)).push(
                entry_view_row(sub@[j - 1]),
            ));
            assert(entry_rows(result@) =~= before + entry_rows(sub@.take(j as int)));
        }
        assert(sub@.take(sub.len() as int) =~= sub@);
        k = k + 1;
        assert(group.groups@.take(k as int).drop_last() =~= group.groups@.take(k - 1));
        assert(entry_rows(result@) =~= own + groups_entry_rows(group.groups@.take(k as int), current@));
    }
    assert(group.groups@.take(group.groups.len() as int) =~= group.groups@);
    result
}

/// The number of entries in a group and all its descendants.
pub open spec fn total_entries(g: VaultGroup) -> nat
    decreases g, 1nat,
{
    g.entries@.len() + groups_total(g.groups@)
}

/// The number of entries in a list of groups and their descendants.
pub open spec fn groups_total(gs: Seq<VaultGroup>) -> nat
    decreases gs, 0nat,
{
    if gs.len() == 0 {
        0
    } else {
        groups_total(gs.drop_last()) + total_entries(gs.last())
    }
}

/// A prefix of a list of groups holds no more entries than the list.
pub proof fn lemma_groups_total_prefix(gs: Seq<VaultGroup>, k: int)
    requires
        0 <= k <= gs.len(),
    ensures
        groups_total(gs.take(k)) <= groups_total(gs),
        k < gs.len() ==> groups_total(gs.take(k)) + total_entries(gs[k]) <= groups_total(gs),
    decreases gs.len() - k,
{
    if k == gs.len() {
        assert(gs.take(k) =~= gs);
    } else {
        lemma_groups_total_prefix(gs, k + 1);
        assert(gs.take(k + 1).drop_last() =~= gs.take(k));
        assert(gs.take(k + 1).last() == gs[k]);
    }
}

/// Counts the entries of a group and all its descendants.
pub fn count_entries_recursive(group: &VaultGroup) -> (r: usize)
    requires
        total_entries(*group) <= usize::MAX,
    ensures
        r == total_entries(*group),
    decreases group,
{
    let mut n: usize = group.entries.len();
    let mut k: usize = 0;
    while k < group.groups.len()
        invariant
            k <= group.groups.len(),
            total_entries(*group) <= usize::MAX,
            n == group.entries@.len() + groups_total(group.groups@.take(k as int)),
        decreases group.groups.len() - k,
    {
        proof {
            lemma_groups_total_prefix(group.groups@, k as int);
        }
        let c = count_entries_recursive(&group.groups[k]);
        assert(group.groups@.take(k + 1).drop_last() =~= group.groups@.take(k as int));
        n = n + c;
        k = k + 1;
    }
    assert(group.groups@.take(group.groups.len() as int) =~= group.groups@);
    n
}

/// A sidebar row as plain values: uuid, name, depth, entry count.
pub type GroupRow = (u128, Seq<char>, nat, nat);

/// The plain values of group views.
pub open spec fn group_view_rows(v: Seq<GroupView>) -> Seq<GroupRow> {
    v.map_values(|g: GroupView| (g.uuid, g.name@, g.depth as nat, g.entry_count as nat))
}

/// The sidebar rows of a group and its descendants, depth first, each with
/// its depth and its recursive entry count.
pub open spec fn group_rows(g: VaultGroup, depth: nat) -> Seq<GroupRow>
    decreases g, 1nat,
{
    seq![(g.uuid, g.name@, depth, total_entries(g))] + groups_rows(g.groups@, depth + 1)
}

/// The sidebar rows of a list of groups.
pub open spec fn groups_rows(gs: Seq<VaultGroup>, depth: nat) -> Seq<GroupRow>
    decreases gs, 0nat,
{
    if gs.len() == 0 {
        Seq::empty()
    } else {
        groups_rows(gs.drop_last(), depth) + group_rows(gs.last(), depth)
    }
}

/// The number of groups in a group's tree, itself included.
pub open spec fn tree_size(g: VaultGroup) -> nat
    decreases g, 1nat,
{
    1 + groups_size(g.groups@)
}

/// The number of groups in the trees of a list of groups.
pub open spec fn groups_size(gs: Seq<VaultGroup>) -> nat
    decreases gs, 0nat,
{
    if gs.len() == 0 {
        0
    } else {
        groups_size(gs.drop_last()) + tree_size(gs.last())
    }
}

proof fn lemma_groups_size_all(gs: Seq<VaultGroup>, k: int)
    requires
        0 <= k < gs.len(),
    ensures
        tree_size(gs[k]) <= groups_size(gs),
    decreases gs.len(),
{
    if k == gs.len() - 1 {
    } else {
        lemma_groups_size_all(gs.drop_last(), k);
        assert(gs.drop_last()[k] == gs[k]);
    }
}

/// The sidebar rows of a group's tree, starting at `depth`.
pub fn collect_groups(group: &VaultGroup, depth: usize) -> (r: Vec<GroupView>)
    requires
        total_entries(*group) <= usize::MAX,
        depth + tree_size(*group) <= usize::MAX,
    ensures
        group_view_rows(r@) == group_rows(*group, depth as nat),
    decreases group,
{
    let mut result: Vec<GroupView> = Vec::new();
    let count = count_entries_recursive(group);
    result.push(GroupView { uuid: group.uuid, name: group.name.clone(), depth, entry_count: count });
    let ghost head = group_view_rows(result@);
    let mut k: usize = 0;
    while k < group.groups.len()
        invariant
            k <= group.groups.len(),
            total_entries(*group) <= usize::MAX,
            depth + tree_size(*group) <= usize::MAX,
            group_view_rows(result@) == head + groups_rows(group.groups@.take(k as int), (depth + 1) as nat),
        decreases group.groups.len() - k,
    {
        proof {
            lemma_groups_total_prefix(group.groups@, k as int);
            lemma_groups_size_all(group.groups@, k as int);
        }
        let sub = collect_groups(&group.groups[k], depth + 1);
        let ghost before = group_view_rows(result@);
        let mut j: usize = 0;
        while j < sub.len()
            invariant
                j <= sub.len(),
                group_view_rows(result@) == before + group_view_rows(sub@.take(j as int)),
            decreases sub.len() - j,
        {
            let g = GroupView {
                uuid: sub[j].uuid,
                name: sub[j].name.clone(),
                depth: sub[j].depth,
                entry_count: sub[j].entry_count,
            };
            let ghost mid = group_view_rows(result@);
            result.push(g);
            assert(group_view_rows(result@) =~= mid.push(
                (g.uuid, g.name@, g.depth as nat, g.entry_count as nat),
            ));
            j = j + 1;
            assert(group_view_rows(sub@.take(j as int)) =~= group_view_rows(sub@.take(j - 1)).push(
                (sub@[j - 1].uuid, sub@[j - 1].name@, sub@[j - 1].depth as nat, sub@[j - 1].entry_count as nat),
            ));
            assert(group_view_rows(result@) =~= before + group_view_rows(sub@.take(j as int)));
        }
        assert(sub@.take(sub.len() as int) =~= sub@);
        k = k + 1;
        assert(group.groups@.take(k as int).drop_last() =~= group.groups@.take(k - 1));
        assert(group_view_rows(result@) =~= head + groups_rows(group.groups@.take(k as int), (depth + 1) as nat));
    }
    assert(group.groups@.take(group.groups.len() as int) =~= group.groups@);
    result
}

/// The first of `entries` with uuid `uuid`, if any.
pub open spec fn find_own(entries: Seq<VaultEntry>, uuid: u128) -> Option<VaultEntry>
    decreases entries.len(),
{
    if entries.len() == 0 {
        None
    } else if entries[0].uuid == uuid {
        Some(entries[0])
    } else {
        find_own(entries.drop_first(), uuid)
    }
}

/// The first entry with uuid `uuid` in a group's tree: its own entries first,
/// then its child groups in order.
pub open spec fn find_in_group(g: VaultGroup, uuid: u128) -> Option<VaultEntry>
    decreases g, 1nat,
{
    match find_own(g.entries@, uuid) {
        Some(e) => Some(e),
        None => find_in_groups(g.groups@, uuid),
    }
}

/// The first entry with uuid `uuid` in a list of group trees.
pub open spec fn find_in_groups(gs: Seq<VaultGroup>, uuid: u128) -> Option<VaultEntry>
    decreases gs, 0nat,
{
    if gs.len() == 0 {
        None
    } else {
        match find_in_group(gs[0], uuid) {
            Some(e) => Some(e),
            None => find_in_groups(gs.drop_first(), uuid),
        }
    }
}

fn find_own_index(entries: &Vec<VaultEntry>, uuid: u128) -> (r: Option<usize>)
    ensures
        match r {
            Some(i) => i < entries.len() && entries@[i as int].uuid == uuid && find_own(entries@, uuid)
                == Some(entries@[i as int]) && forall|j: int| 0 <= j < i ==> (#[trigger] entries@[j]).uuid
                != uuid,
            None => find_own(entries@, uuid) is None && forall|j: int|
                0 <= j < entries.len() ==> (#[trigger] entries@[j]).uuid != uuid,
        },
{
    let mut i: usize = 0;
    assert(entries@.skip(0) =~= entries@);
    while i < entries.len()
        invariant
            i <= entries.len(),
            forall|j: int| 0 <= j < i ==> (#[trigger] entries@[j]).uuid != uuid,
            find_own(entries@, uuid) == find_own(entries@.skip(i as int), uuid),
        decreases entries.len() - i,
    {
        assert(entries@.skip(i as int)[0] == entries@[i as int]);
        if entries[i].uuid == uuid {
            return Some(i);
        }
        assert(entries@.skip(i as int).drop_first() =~= entries@.skip(i + 1));
        i = i + 1;
    }
    None
}

/// The entry with uuid `uuid` in a group's tree, if any.
pub fn find_entry(group: &VaultGroup, uuid: u128) -> (r: Option<VaultEntry>)
    ensures
        r == find_in_group(*group, uuid),
    decreases group,
{
    if let Some(i) = find_own_index(&group.entries, uuid) {
        return Some(group.entries[i].duplicate());
    }
    let mut k: usize = 0;
    assert(group.groups@.skip(0) =~= group.groups@);
    while k < group.groups.len()
        invariant
            k <= group.groups.len(),
            find_own(group.entries@, uuid) is None,
            find_in_groups(group.groups@, uuid) == find_in_groups(group.groups@.skip(k as int), uuid),
        decreases group.groups.len() - k,
    {
        assert(group.groups@.skip(k as int)[0] == group.groups@[k as int]);
        let r = find_entry(&group.groups[k], uuid);
        if r.is_some() {
            return r;
        }
        assert(group.groups@.skip(k as int).drop_first() =~= group.groups@.skip(k + 1));
        k = k + 1;
    }
    None
}

/// The group reached from `g` by following child indices `path`, if every
/// index is in range.
pub open spec fn group_at(g: VaultGroup, path: Seq<usize>) -> Option<VaultGroup>
    decreases path.len(),
{
    if path.len() == 0 {
        Some(g)
    } else if path[0] < g.groups@.len() {
        group_at(g.groups@[path[0] as int], path.drop_first())
    } else {
        None
    }
}

/// Where the entry with uuid `uuid` sits in a group's tree: the child indices
/// that lead to its group, and its index there. It is the entry that
/// `find_entry` gives, so an edit through this place changes that entry.
pub fn entry_location(group: &VaultGroup, uuid: u128) -> (r: Option<(Vec<usize>, usize)>)
    ensures
        match r {
            None => find_in_group(*group, uuid) is None,
            Some((p, i)) => group_at(*group, p@) is Some && i < group_at(*group, p@)->0.entries@.len()
                && find_in_group(*group, uuid) == Some(group_at(*group, p@)->0.entries@[i as int]),
        },
    decreases group,
{
    if let Some(i) = find_own_index(&group.entries, uuid) {
        let p: Vec<usize> = Vec::new();
        assert(group_at(*group, p@) == Some(*group));
        return Some((p, i));
    }
    let mut k: usize = 0;
    assert(group.groups@.skip(0) =~= group.groups@);
    while k < group.groups.len()
        invariant
            k <= group.groups.len(),
            find_own(group.entries@, uuid) is None,
            find_in_groups(group.groups@, uuid) == find_in_groups(group.groups@.skip(k as int), uuid),
        decreases group.groups.len() - k,
    {
        assert(group.groups@.skip(k as int)[0] == group.groups@[k as int]);
        match entry_location(&group.groups[k], uuid) {
            Some((sub, i)) => {
                let mut p: Vec<usize> = Vec::new();
                p.push(k);
                let mut j: usize = 0;
                while j < sub.len()
                    invariant
                        j <= sub.len(),
                        p@ == seq![k] + sub@.take(j as int),
                    decreases sub.len() - j,
                {
                    p.push(sub[j]);
                    j = j + 1;
                    assert(p@ =~= seq![k] + sub@.take(j as int));
                }
                assert(sub@.take(sub.len() as int) =~= sub@);
                assert(p@.drop_first() =~= sub@);
                return Some((p, i));
            },
            None => {},
        }
        assert(group.groups@.skip(k as int).drop_first() =~= group.groups@.skip(k + 1));
        k = k + 1;
    }
    None
}

/// The entries of the group with uuid `target`, listed under that group's own
/// name: the group itself if it matches, else the first child tree that gives
/// a non-empty list; empty when none does.
pub open spec fn group_entries_of(g: VaultGroup, target: u128) -> Seq<EntryRow>
    decreases g, 1nat,
{
    if g.uuid == target {
        own_entry_rows(g.entries@, g.name@)
    } else {
        first_nonempty(g.groups@, target)
    }
}

/// The first non-empty entry list that the trees of `gs` give for `target`.
pub open spec fn first_nonempty(gs: Seq<VaultGroup>, target: u128) -> Seq<EntryRow>
    decreases gs, 0nat,
{
    if gs.len() == 0 {
        Seq::empty()
    } else if group_entries_of(gs[0], target).len() > 0 {
        group_entries_of(gs[0], target)
    } else {
        first_nonempty(gs.drop_first(), target)
    }
}

/// The entries of the group with uuid `group_uuid`, for the entry list.
pub fn find_group_entries(group: &VaultGroup, group_uuid: u128) -> (r: Vec<EntryView>)
    ensures
        entry_rows(r@) == group_entries_of(*group, group_uuid),
    decreases group,
{
    if group.uuid == group_uuid {
        let mut result: Vec<EntryView> = Vec::new();
        let mut i: usize = 0;
        while i < group.entries.len()
            invariant
                i <= group.entries.len(),
                entry_rows(result@) == own_entry_rows(group.entries@.take(i as int), group.name@),
            decreases group.entries.len() - i,
        {
            let v = entry_view_of(&group.entries[i], &group.name);
            let ghost before = entry_rows(result@);
            result.push(v);
            i = i + 1;
            assert(entry_rows(result@) =~= before.push(entry_view_row(v)));
            assert(own_entry_rows(group.entries@.take(i as int), group.name@) =~= own_entry_rows(
                group.entries@.take(i - 1),
                group.name@,
            ).push(entry_row(group.entries@[i - 1], group.name@)));
        }
        assert(group.entries@.take(group.entries.len() as int) =~= group.entries@);
        return result;
    }
    let mut k: usize = 0;
    assert(group.groups@.skip(0) =~= group.groups@);
    while k < group.groups.len()
        invariant
            k <= group.groups.len(),
            group.uuid != group_uuid,
            first_nonempty(group.groups@, group_uuid) == first_nonempty(group.groups@.skip(k as int), group_uuid),
        decreases group.groups.len() - k,
    {
        assert(group.groups@.skip(k as int)[0] == group.groups@[k as int]);
        let r = find_group_entries(&group.groups[k], group_uuid);
        if r.len() > 0 {
            return r;
        }
        assert(group.groups@.skip(k as int).drop_first() =~= group.groups@.skip(k + 1));
        k = k + 1;
    }
    Vec::new()
}

/// Whether an entry row matches the lowered search text `q`: `q` occurs in
/// its lowered title, user name or URL.
pub open spec fn entry_matches(row: EntryRow, q: Seq<char>) -> bool {
    has_infix(unicode_lowercase(row.1), q) || has_infix(unicode_lowercase(row.2), q) || has_infix(
        unicode_lowercase(row.3),
        q,
    )
}

/// The rows that match the lowered search text `q`, in order.
pub open spec fn matching_rows(rows: Seq<EntryRow>, q: Seq<char>) -> Seq<EntryRow>
    decreases rows.len(),
{
    if rows.len() == 0 {
        Seq::empty()
    } else {
        let r = matching_rows(rows.drop_last(), q);
        if entry_matches(rows.last(), q) {
            r.push(rows.last())
        } else {
            r
        }
    }
}

/// The entry list of the vault page: with a search text, every entry of the
/// vault that matches it; else the entries of the selected group; else every
/// entry of the vault.
pub open spec fn listed_rows(root: VaultGroup, query: Seq<char>, selected: Option<u128>) -> Seq<EntryRow> {
    if query.len() > 0 {
        matching_rows(group_entry_rows(root, Seq::empty()), unicode_lowercase(query))
    } else {
        match selected {
            Some(g) => group_entries_of(root, g),
            None => group_entry_rows(root, Seq::empty()),
        }
    }
}

fn copy_view(e: &EntryView) -> (r: EntryView)
    ensures
        entry_view_row(r) == entry_view_row(*e),
{
    EntryView {
        uuid: e.uuid,
        title: e.title.clone(),
        username: e.username.clone(),
        url: e.url.clone(),
        group_path: e.group_path.clone(),
    }
}

/// The entries the vault page lists for search text `query` and the
/// selected group.
pub fn visible_entries(root: &VaultGroup, query: &str, selected: Option<u128>) -> (r: Vec<EntryView>)
    ensures
        entry_rows(r@) == listed_rows(*root, query@, selected),
{
    proof {
        reveal_strlit("");
    }
    assert(""@ =~= Seq::<char>::empty());
    if query.is_empty() {
        return match selected {
            Some(g) => find_group_entries(root, g),
            None => collect_entries(root, ""),
        };
    }
    let all = collect_entries(root, "");
    let q = to_lowercase(query);
    let ghost rows = entry_rows(all@);
    let mut out: Vec<EntryView> = Vec::new();
    let mut i: usize = 0;
    while i < all.len()
        invariant
            i <= all.len(),
            rows == entry_rows(all@),
            q@ == unicode_lowercase(query@),
            entry_rows(out@) == matching_rows(rows.take(i as int), q@),
        decreases all.len() - i,
    {
        let e = &all[i];
        assert(rows.take(i + 1).drop_last() =~= rows.take(i as int));
        assert(rows.take(i + 1).last() == entry_view_row(*e));
        let t = to_lowercase(e.title.as_str());
        let u = to_lowercase(e.username.as_str());
        let l = to_lowercase(e.url.as_str());
        if contains_str(t.as_str(), q.as_str()) || contains_str(u.as_str(), q.as_str()) || contains_str(
            l.as_str(),
            q.as_str(),
        ) {
            let ghost before = entry_rows(out@);
            let c = copy_view(e);
            out.push(c);
            assert(entry_rows(out@) =~= before.push(entry_view_row(c)));
        }
        i = i + 1;
    }
    assert(rows.take(all.len() as int) =~= rows);
    out
}

/// Whether a group's tree holds an entry with uuid `uuid`.
pub open spec fn has_entry(g: VaultGroup, uuid: u128) -> bool {
    find_in_group(g, uuid).is_some()
}

/// The index of the first of `entries` with uuid `uuid`, or `-1`.
pub open spec fn own_index(entries: Seq<VaultEntry>, uuid: u128) -> int
    decreases entries.len(),
{
    if entries.len() == 0 {
        -1
    } else if entries[0].uuid == uuid {
        0
    } else {
        let r = own_index(entries.drop_first(), uuid);
        if r < 0 {
            -1
        } else {
            r + 1
        }
    }
}

proof fn lemma_own_index(entries: Seq<VaultEntry>, uuid: u128, i: int)
    requires
        0 <= i <= entries.len(),
        forall|j: int| 0 <= j < i ==> (#[trigger] entries[j]).uuid != uuid,
    ensures
        i < entries.len() && entries[i].uuid == uuid ==> own_index(entries, uuid) == i && find_own(
            entries,
            uuid,
        ) is Some,
        i == entries.len() ==> own_index(entries, uuid) == -1 && find_own(entries, uuid) is None,
    decreases i,
{
    if i > 0 {
        assert forall|j: int| 0 <= j < i - 1 implies (#[trigger] entries.drop_first()[j]).uuid != uuid by {
            assert(entries.drop_first()[j] == entries[j + 1]);
        }
        lemma_own_index(entries.drop_first(), uuid, i - 1);
        if i < entries.len() {
            assert(entries.drop_first()[i - 1] == entries[i]);
        }
    }
}

/// `new` is `old` with the first entry with uuid `uuid` removed, searching
/// its own entries first and then its child groups in order; unchanged when
/// there is none.
pub open spec fn deleted_from(old: VaultGroup, new: VaultGroup, uuid: u128) -> bool
    decreases old, 1nat,
{
    &&& new.uuid == old.uuid
    &&& new.name == old.name
    &&& if own_index(old.entries@, uuid) >= 0 {
        new.entries@ == old.entries@.remove(own_index(old.entries@, uuid)) && new.groups@ == old.groups@
    } else {
        new.entries@ == old.entries@ && deleted_from_groups(old.groups@, new.groups@, uuid)
    }
}

/// `news` is `olds` with the first entry with uuid `uuid` removed from the
/// first tree that holds one.
pub open spec fn deleted_from_groups(olds: Seq<VaultGroup>, news: Seq<VaultGroup>, uuid: u128) -> bool
    decreases olds, 0nat,
{
    news.len() == olds.len() && (olds.len() == 0 || (deleted_from(olds[0], news[0], uuid) && if has_entry(
        olds[0],
        uuid,
    ) {
        news.drop_first() == olds.drop_first()
    } else {
        deleted_from_groups(olds.drop_first(), news.drop_first(), uuid)
    }))
}

proof fn lemma_find_in_groups(gs: Seq<VaultGroup>, uuid: u128, k: int)
    requires
        0 <= k <= gs.len(),
        forall|j: int| 0 <= j < k ==> !has_entry(#[trigger] gs[j], uuid),
    ensures
        k < gs.len() && has_entry(gs[k], uuid) ==> find_in_groups(gs, uuid) is Some,
        k == gs.len() ==> find_in_groups(gs, uuid) is None,
    decreases k,
{
    if k > 0 {
        assert forall|j: int| 0 <= j < k - 1 implies !has_entry(#[trigger] gs.drop_first()[j], uuid) by {
            assert(gs.drop_first()[j] == gs[j + 1]);
        }
        lemma_find_in_groups(gs.drop_first(), uuid, k - 1);
        if k < gs.len() {
            assert(gs.drop_first()[k - 1] == gs[k]);
        }
    }
}

proof fn lemma_deleted_groups(olds: Seq<VaultGroup>, news: Seq<VaultGroup>, uuid: u128, k: int)
    requires
        0 <= k <= olds.len(),
        news.len() == olds.len(),
        forall|j: int| 0 <= j < k ==> !has_entry(#[trigger] olds[j], uuid) && deleted_from(olds[j], news[j], uuid),
        k < olds.len() ==> has_entry(olds[k], uuid) && deleted_from(olds[k], news[k], uuid),
        forall|j: int| k < j < olds.len() ==> #[trigger] news[j] == olds[j],
    ensures
        deleted_from_groups(olds, news, uuid),
    decreases k,
{
    if olds.len() > 0 {
        if k == 0 {
            assert(news.drop_first() =~= olds.drop_first());
        } else {
            let (o2, n2) = (olds.drop_first(), news.drop_first());
            assert forall|j: int| 0 <= j < k - 1 implies !has_entry(#[trigger] o2[j], uuid) && deleted_from(o2[j], n2[j], uuid) by {
                assert(o2[j] == olds[j + 1]);
                assert(n2[j] == news[j + 1]);
            }
            assert forall|j: int| k - 1 < j < o2.len() implies #[trigger] n2[j] == o2[j] by {
                assert(n2[j] == news[j + 1]);
                assert(o2[j] == olds[j + 1]);
            }
            if k < olds.len() {
                assert(o2[k - 1] == olds[k]);
                assert(n2[k - 1] == news[k]);
            }
            lemma_deleted_groups(o2, n2, uuid, k - 1);
            assert(!has_entry(olds[0], uuid));
        }
    }
}

/// Removes the entry with uuid `uuid` from a group's tree: the first one,
/// searching the group's own entries and then its child groups in order.
/// Returns whether one was removed.
pub fn delete_entry_from_group(group: &mut VaultGroup, uuid: u128) -> (r: bool)
    ensures
        r == has_entry(*old(group), uuid),
        deleted_from(*old(group), *final(group), uuid),
    decreases tree_size(*old(group)),
{
    let ghost start = *group;
    if let Some(pos) = find_own_index(&group.entries, uuid) {
        proof {
            lemma_own_index(start.entries@, uuid, pos as int);
        }
        group.entries.remove(pos);
        return true;
    }
    proof {
        lemma_own_index(start.entries@, uuid, start.entries@.len() as int);
    }
    let mut k: usize = 0;
    while k < group.groups.len()
        invariant
            k <= group.groups.len(),
            start == *old(group),
            group.groups@.len() == start.groups@.len(),
            group.uuid == start.uuid,
            group.name == start.name,
            group.entries@ == start.entries@,
            own_index(start.entries@, uuid) == -1,
            find_own(start.entries@, uuid) is None,
            forall|j: int|
                0 <= j < k ==> !has_entry(#[trigger] start.groups@[j], uuid) && deleted_from(
                    start.groups@[j],
                    group.groups@[j],
                    uuid,
                ),
            forall|j: int| k <= j < group.groups@.len() ==> #[trigger] group.groups@[j] == start.groups@[j],
        decreases group.groups.len() - k,
    {
        let ghost before = group.groups@;
        let mut child = group.groups.remove(k);
        assert(child == start.groups@[k as int]);
        proof {
            lemma_groups_size_all(start.groups@, k as int);
        }
        let found = delete_entry_from_group(&mut child, uuid);
        group.groups.insert(k, child);
        assert forall|j: int| 0 <= j < group.groups@.len() && j != k implies #[trigger] group.groups@[j]
            == before[j] by {}
        if found {
            proof {
                lemma_deleted_groups(start.groups@, group.groups@, uuid, k as int);
                lemma_find_in_groups(start.groups@, uuid, k as int);
            }
            return true;
        }
        k = k + 1;
    }
    proof {
        lemma_deleted_groups(start.groups@, group.groups@, uuid, k as int);
        lemma_find_in_groups(start.groups@, uuid, k as int);
    }
    false
}

/// The characters a generated password draws from: the chosen classes in the
/// order upper case, lower case, digits, symbols; letters and digits when no
/// class is chosen.
pub open spec fn password_alphabet(uppercase: bool, lowercase: bool, digits: bool, symbols: bool) -> Seq<char> {
    let a = (if uppercase { "ABCDEFGHIJKLMNOPQRSTUVWXYZ"@ } else { Seq::empty() }) + (if lowercase {
        "abcdefghijklmnopqrstuvwxyz"@
    } else {
        Seq::empty()
    }) + (if digits { "0123456789"@ } else { Seq::empty() }) + (if symbols {
        "!@#$%^&*()-_=+[]{}|;:,.<>?/~`"@
    } else {
        Seq::empty()
    });
    if a.len() == 0 {
        "abcdefghijklmnopqrstuvwxyzABCDEFGHIJKLMNOPQRSTUVWXYZ0123456789"@
    } else {
        a
    }
}

/// The password drawn from `random`: for each position `i < length`, the
/// alphabet char at the random byte for `i` (0 past the end of `random`)
/// modulo the alphabet's size.
pub open spec fn password_from(alphabet: Seq<char>, length: nat, random: Seq<u8>) -> Seq<char> {
    Seq::new(
        length,
        |i: int| alphabet[((if i < random.len() { random[i] } else { 0u8 }) as int) % (alphabet.len() as int)],
    )
}

/// Generates a password of `length` characters from the chosen classes,
/// using one random byte per character.
pub fn generate_password_from(
    length: usize,
    uppercase: bool,
    lowercase: bool,
    digits: bool,
    symbols: bool,
    random: &Vec<u8>,
) -> (r: String)
    ensures
        r@ == password_from(password_alphabet(uppercase, lowercase, digits, symbols), length as nat, random@),
{
    proof {
        reveal_strlit("ABCDEFGHIJKLMNOPQRSTUVWXYZ");
        reveal_strlit("abcdefghijklmnopqrstuvwxyz");
        reveal_strlit("0123456789");
        reveal_strlit("!@#$%^&*()-_=+[]{}|;:,.<>?/~`");
        reveal_strlit("abcdefghijklmnopqrstuvwxyzABCDEFGHIJKLMNOPQRSTUVWXYZ0123456789");
    }
    let mut chars = String::new();
    if uppercase {
        chars.append("ABCDEFGHIJKLMNOPQRSTUVWXYZ");
    }
    let ghost a1 = chars@;
    if lowercase {
        chars.append("abcdefghijklmnopqrstuvwxyz");
    }
    let ghost a2 = chars@;
    if digits {
        chars.append("0123456789");
    }
    let ghost a3 = chars@;
    if symbols {
        chars.append("!@#$%^&*()-_=+[]{}|;:,.<>?/~`");
    }
    assert(chars@ =~= (if uppercase { "ABCDEFGHIJKLMNOPQRSTUVWXYZ"@ } else { Seq::empty() }) + (if lowercase {
        "abcdefghijklmnopqrstuvwxyz"@
    } else {
        Seq::empty()
    }) + (if digits { "0123456789"@ } else { Seq::empty() }) + (if symbols {
        "!@#$%^&*()-_=+[]{}|;:,.<>?/~`"@
    } else {
        Seq::empty()
    }));
    if chars.as_str().is_empty() {
        chars = owned("abcdefghijklmnopqrstuvwxyzABCDEFGHIJKLMNOPQRSTUVWXYZ0123456789");
    }
    let alphabet = chars_of(chars.as_str());
    assert(alphabet@ == password_alphabet(uppercase, lowercase, digits, symbols));
    assert(alphabet.len() > 0);
    let ghost want = password_from(alphabet@, length as nat, random@);
    let mut out: Vec<char> = Vec::new();
    let mut i: usize = 0;
    while i < length
        invariant
            i <= length,
            alphabet.len() > 0,
            want == password_from(alphabet@, length as nat, random@),
            out@ == want.take(i as int),
        decreases length - i,
    {
        let b: u8 = if i < random.len() {
            random[i]
        } else {
            0
        };
        let idx = (b as usize) % alphabet.len();
        out.push(alphabet[idx]);
        i = i + 1;
        assert(out@ =~= want.take(i as int));
    }
    assert(want.take(length as int) =~= want);
    string_of(&out)
}

proof fn lemma_groups_total_first(gs: Seq<VaultGroup>)
    requires
        gs.len() > 0,
    ensures
        groups_total(gs) == total_entries(gs[0]) + groups_total(gs.drop_first()),
    decreases gs.len(),
{
    if gs.len() > 1 {
        let a = gs.drop_last();
        let b = gs.drop_first();
        lemma_groups_total_first(a);
        assert(a.drop_first() =~= b.drop_last());
        assert(b.last() == gs.last());
        assert(a[0] == gs[0]);
        assert(groups_total(gs) == groups_total(a) + total_entries(gs.last()));
        assert(groups_total(b) == groups_total(b.drop_last()) + total_entries(b.last()));
    } else {
        assert(gs.drop_last().len() == 0);
        assert(gs.drop_first().len() == 0);
        assert(groups_total(gs.drop_last()) == 0);
        assert(groups_total(gs.drop_first()) == 0);
        assert(gs.last() == gs[0]);
    }
}

proof fn lemma_own_index_found(entries: Seq<VaultEntry>, uuid: u128)
    ensures
        (own_index(entries, uuid) >= 0) == (find_own(entries, uuid) is Some),
        own_index(entries, uuid) < entries.len(),
    decreases entries.len(),
{
    if entries.len() > 0 && entries[0].uuid != uuid {
        lemma_own_index_found(entries.drop_first(), uuid);
    }
}

/// Deleting an entry from a group's tree removes exactly one entry when the
/// tree holds one with that uuid, and none otherwise.
pub proof fn lemma_delete_removes_one(old: VaultGroup, new: VaultGroup, uuid: u128)
    requires
        deleted_from(old, new, uuid),
    ensures
        total_entries(new) + (if has_entry(old, uuid) { 1int } else { 0int }) == total_entries(old),
    decreases old, 1nat,
{
    lemma_own_index_found(old.entries@, uuid);
    if own_index(old.entries@, uuid) < 0 {
        lemma_delete_from_groups_removes_one(old.groups@, new.groups@, uuid);
    }
}

proof fn lemma_delete_from_groups_removes_one(olds: Seq<VaultGroup>, news: Seq<VaultGroup>, uuid: u128)
    requires
        deleted_from_groups(olds, news, uuid),
    ensures
        groups_total(news) + (if find_in_groups(olds, uuid) is Some { 1int } else { 0int }) == groups_total(olds),
    decreases olds, 0nat,
{
    if olds.len() > 0 {
        lemma_groups_total_first(olds);
        lemma_groups_total_first(news);
        lemma_delete_removes_one(olds[0], news[0], uuid);
        if !has_entry(olds[0], uuid) {
            lemma_delete_from_groups_removes_one(olds.drop_first(), news.drop_first(), uuid);
        }
    }
}

proof fn lemma_listing_counts_group(g: VaultGroup, path: Seq<char>)
    ensures
        group_entry_rows(g, path).len() == total_entries(g),
    decreases g, 1nat,
{
    lemma_listing_counts_groups(g.groups@, child_path(path, g.name@));
}

proof fn lemma_listing_counts_groups(gs: Seq<VaultGroup>, path: Seq<char>)
    ensures
        groups_entry_rows(gs, path).len() == groups_total(gs),
    decreases gs, 0nat,
{
    if gs.len() > 0 {
        lemma_listing_counts_groups(gs.drop_last(), path);
        lemma_listing_counts_group(gs.last(), path);
    }
}

/// The entry count of a group agrees with its listing: the entries listed
/// for a group and its descendants are as many as it counts.
pub proof fn lemma_count_matches_listing(g: VaultGroup, path: Seq<char>)
    ensures
        group_entry_rows(g, path).len() == total_entries(g),
{
    lemma_listing_counts_group(g, path);
}

/// A generated password has the length asked for, and every character of it
/// is one of the chosen classes (letters and digits when none is chosen),
/// whatever the random bytes are.
pub proof fn lemma_password_shape(
    length: nat,
    uppercase: bool,
    lowercase: bool,
    digits: bool,
    symbols: bool,
    random: Seq<u8>,
)
    ensures
        password_from(password_alphabet(uppercase, lowercase, digits, symbols), length, random).len() == length,
        forall|i: int|
            0 <= i < length ==> password_alphabet(uppercase, lowercase, digits, symbols).contains(
                #[trigger] password_from(password_alphabet(uppercase, lowercase, digits, symbols), length, random)[i],
            ),
{
    reveal_strlit("abcdefghijklmnopqrstuvwxyzABCDEFGHIJKLMNOPQRSTUVWXYZ0123456789");
    let a = password_alphabet(uppercase, lowercase, digits, symbols);
    assert(a.len() > 0);
    let p = password_from(a, length, random);
    assert forall|i: int| 0 <= i < length implies a.contains(#[trigger] p[i]) by {
        let b: u8 = if i < random.len() { random[i] } else { 0u8 };
        let k = (b as int) % (a.len() as int);
        assert(0 <= k < a.len());
        assert(p[i] == a[k]);
    }
}

/// A field of an entry as the editor holds it: key, value, protected.
pub type FieldRow = (Seq<char>, Seq<char>, bool);

/// The plain values of field triples.
pub open spec fn field_rows(v: Seq<(String, String, bool)>) -> Seq<FieldRow> {
    v.map_values(|f: (String, String, bool)| (f.0@, f.1@, f.2))
}

/// Whether `key` names one of the fields that the editor shows on its own:
/// title, user name, password, URL and notes.
pub open spec fn standard_field(key: Seq<char>) -> bool {
    key == "Title"@ || key == "UserName"@ || key == "Password"@ || key == "URL"@ || key == "Notes"@
}

/// Whether `key` names a standard field.
pub fn is_standard_field(key: &str) -> (r: bool)
    ensures
        r == standard_field(key@),
{
    str_eq(key, "Title") || str_eq(key, "UserName") || str_eq(key, "Password") || str_eq(key, "URL")
        || str_eq(key, "Notes")
}

/// The custom fields that the editor lists: those that are not standard and
/// have a value, in the order given.
pub open spec fn custom_rows(fields: Seq<FieldRow>) -> Seq<FieldRow>
    decreases fields.len(),
{
    if fields.len() == 0 {
        Seq::empty()
    } else {
        let r = custom_rows(fields.drop_last());
        let f = fields.last();
        if !standard_field(f.0) && f.1.len() > 0 {
            r.push(f)
        } else {
            r
        }
    }
}

/// The custom fields of an entry that the editor lists.
pub fn editable_custom_fields(fields: &Vec<(String, String, bool)>) -> (r: Vec<(String, String, bool)>)
    ensures
        field_rows(r@) == custom_rows(field_rows(fields@)),
{
    let mut out: Vec<(String, String, bool)> = Vec::new();
    let mut i: usize = 0;
    while i < fields.len()
        invariant
            i <= fields.len(),
            field_rows(out@) == custom_rows(field_rows(fields@.take(i as int))),
        decreases fields.len() - i,
    {
        let f = &fields[i];
        assert(field_rows(fields@.take(i + 1)).drop_last() =~= field_rows(fields@.take(i as int)));
        if !is_standard_field(f.0.as_str()) && !f.1.as_str().is_empty() {
            let ghost before = field_rows(out@);
            out.push((f.0.clone(), f.1.clone(), f.2));
            assert(field_rows(out@) =~= before.push((f.0@, f.1@, f.2)));
        }
        i = i + 1;
    }
    assert(fields@.take(fields.len() as int) =~= fields@);
    out
}

/// The custom keys that saving removes: those of the entry that are not
/// standard and that the edited list no longer has (keys compared as they
/// stand), in the order given.
pub open spec fn stale_keys(old_keys: Seq<Seq<char>>, edited: Seq<FieldRow>) -> Seq<Seq<char>>
    decreases old_keys.len(),
{
    if old_keys.len() == 0 {
        Seq::empty()
    } else {
        let r = stale_keys(old_keys.drop_last(), edited);
        let k = old_keys.last();
        if !standard_field(k) && !(exists|j: int| 0 <= j < edited.len() && (#[trigger] edited[j]).0 == k) {
            r.push(k)
        } else {
            r
        }
    }
}

/// The custom keys that saving an entry removes.
pub fn stale_custom_keys(old_keys: &Vec<String>, edited: &Vec<(String, String, bool)>) -> (r: Vec<String>)
    ensures
        crate::text::views(r@) == stale_keys(crate::text::views(old_keys@), field_rows(edited@)),
{
    let ghost ev = field_rows(edited@);
    let mut out: Vec<String> = Vec::new();
    let mut i: usize = 0;
    while i < old_keys.len()
        invariant
            i <= old_keys.len(),
            ev == field_rows(edited@),
            crate::text::views(out@) == stale_keys(crate::text::views(old_keys@.take(i as int)), ev),
        decreases old_keys.len() - i,
    {
        let k = &old_keys[i];
        assert(crate::text::views(old_keys@.take(i + 1)).drop_last() =~= crate::text::views(old_keys@.take(i as int)));
        let mut found = false;
        let mut j: usize = 0;
        while j < edited.len()
            invariant
                j <= edited.len(),
                ev == field_rows(edited@),
                found == exists|m: int| 0 <= m < j && (#[trigger] ev[m]).0 == k@,
            decreases edited.len() - j,
        {
            if str_eq(edited[j].0.as_str(), k.as_str()) {
                assert(ev[j as int].0 == k@);
                found = true;
            }
            j = j + 1;
        }
        if !is_standard_field(k.as_str()) && !found {
            let ghost before = crate::text::views(out@);
            out.push(k.clone());
            assert(crate::text::views(out@) =~= before.push(k@));
        }
        i = i + 1;
    }
    assert(old_keys@.take(old_keys.len() as int) =~= old_keys@);
    out
}

/// The custom fields that saving writes: each edited field with a key that is
/// not blank, under its trimmed key, in order.
pub open spec fn field_writes(edited: Seq<FieldRow>) -> Seq<FieldRow>
    decreases edited.len(),
{
    if edited.len() == 0 {
        Seq::empty()
    } else {
        let r = field_writes(edited.drop_last());
        let f = edited.last();
        if trim(f.0).len() > 0 {
            r.push((trim(f.0), f.1, f.2))
        } else {
            r
        }
    }
}

/// The custom fields that saving an entry writes.
pub fn custom_field_writes(edited: &Vec<(String, String, bool)>) -> (r: Vec<(String, String, bool)>)
    ensures
        field_rows(r@) == field_writes(field_rows(edited@)),
{
    let mut out: Vec<(String, String, bool)> = Vec::new();
    let mut i: usize = 0;
    while i < edited.len()
        invariant
            i <= edited.len(),
            field_rows(out@) == field_writes(field_rows(edited@.take(i as int))),
        decreases edited.len() - i,
    {
        let f = &edited[i];
        assert(field_rows(edited@.take(i + 1)).drop_last() =~= field_rows(edited@.take(i as int)));
        let key = trim_str(f.0.as_str());
        if !key.as_str().is_empty() {
            let ghost before = field_rows(out@);
            let v = f.1.clone();
            out.push((key, v, f.2));
            assert(field_rows(out@) =~= before.push((trim(f.0@), f.1@, f.2)));
        }
        i = i + 1;
    }
    assert(edited@.take(edited.len() as int) =~= edited@);
    out
}

/// Whether a file name ends with the vault extension `.kdbx`.
pub open spec fn vault_extension(name: Seq<char>) -> bool {
    name.len() >= 5 && name.skip(name.len() - 5) == ".kdbx"@
}

/// Whether a file is a vault, as the vault picker lists files: by its name
/// ending with `.kdbx`.
pub fn is_vault_file(name: &str) -> (r: bool)
    ensures
        r == vault_extension(name@),
{
    let v = chars_of(name);
    let ext = chars_of(".kdbx");
    proof {
        reveal_strlit(".kdbx");
    }
    assert(ext.len() == 5);
    if v.len() < 5 {
        return false;
    }
    let base = v.len() - 5;
    let mut ends = true;
    let mut k: usize = 0;
    while k < 5
        invariant
            k <= 5,
            v.len() >= 5,
            v@ == name@,
            base == v.len() - 5,
            ext@ == ".kdbx"@,
            ext.len() == 5,
            ends == forall|j: int| 0 <= j < k ==> v@[base + j] == ext@[j],
        decreases 5 - k,
    {
        if v[base + k] != ext[k] {
            ends = false;
        }
        k = k + 1;
    }
    assert(ends == (v@.skip(v.len() - 5) =~= ".kdbx"@));
    ends
}

/// The files that the vault picker lists: those whose name ends with
/// `.kdbx`, in the order given.
pub fn vault_file_names(names: &Vec<String>) -> (r: Vec<String>)
    ensures
        crate::text::views(r@) == crate::text::views(names@).filter(|n: Seq<char>| vault_extension(n)),
{
    let ghost nv = crate::text::views(names@);
    let mut out: Vec<String> = Vec::new();
    let mut i: usize = 0;
    while i < names.len()
        invariant
            i <= names.len(),
            nv == crate::text::views(names@),
            crate::text::views(out@) == nv.take(i as int).filter(|n: Seq<char>| vault_extension(n)),
        decreases names.len() - i,
    {
        proof {
            assert(nv.take(i + 1).drop_last() =~= nv.take(i as int));
            reveal_with_fuel(Seq::filter, 1);
        }
        if is_vault_file(names[i].as_str()) {
            let ghost before = crate::text::views(out@);
            out.push(names[i].clone());
            assert(crate::text::views(out@) =~= before.push(nv[i as int]));
        }
        i = i + 1;
    }
    assert(nv.take(names.len() as int) =~= nv);
    out
}

/// What the new-vault form gives: the file name to create, or the error it
/// shows. The passwords must match and the trimmed name must not be empty;
/// `.kdbx` is added unless the name ends with it.
pub open spec fn vault_file_name(name: Seq<char>, password: Seq<char>, confirm: Seq<char>) -> Result<Seq<char>, Seq<char>> {
    let t = trim(name);
    if password != confirm {
        Err("Passwords don't match"@)
    } else if t.len() == 0 {
        Err("File name is required"@)
    } else if vault_extension(t) {
        Ok(t)
    } else {
        Ok(t + ".kdbx"@)
    }
}

/// Checks the new-vault form and gives the name of the file to create.
pub fn new_vault_file_name(name: &str, password: &str, confirm: &str) -> (r: Result<String, String>)
    ensures
        match r {
            Ok(n) => vault_file_name(name@, password@, confirm@) == Ok::<Seq<char>, Seq<char>>(n@),
            Err(e) => vault_file_name(name@, password@, confirm@) == Err::<Seq<char>, Seq<char>>(e@),
        },
{
    if !str_eq(password, confirm) {
        return Err(owned("Passwords don't match"));
    }
    let t = trim_str(name);
    if t.as_str().is_empty() {
        return Err(owned("File name is required"));
    }
    if is_vault_file(t.as_str()) {
        Ok(t)
    } else {
        Ok(crate::text::concat2(t.as_str(), ".kdbx"))
    }
}

/// The edits that saving the entry editor makes: the fields to set, in order
/// (the standard ones first, then the custom ones), and the custom keys to
/// remove first.
pub struct EntryEditPlan {
    pub removals: Vec<String>,
    pub sets: Vec<(String, String, bool)>,
}

/// The standard fields as the editor saves them: title, user name and URL
/// trimmed, the password protected, the notes as typed.
pub open spec fn standard_writes(
    title: Seq<char>,
    username: Seq<char>,
    password: Seq<char>,
    url: Seq<char>,
    notes: Seq<char>,
) -> Seq<FieldRow> {
    seq![
        ("Title"@, trim(title), false),
        ("UserName"@, trim(username), false),
        ("Password"@, password, true),
        ("URL"@, trim(url), false),
        ("Notes"@, notes, false),
    ]
}

fn push_field(out: &mut Vec<(String, String, bool)>, key: &str, value: String, protected: bool)
    ensures
        field_rows(final(out)@) == field_rows(old(out)@).push((key@, value@, protected)),
{
    let ghost before = field_rows(out@);
    out.push((owned(key), value, protected));
    assert(field_rows(out@) =~= before.push((key@, value@, protected)));
}

/// Plans saving the entry editor: `old_keys` are the keys the entry has,
/// `custom` the custom fields as edited.
pub fn entry_edit_plan(
    title: &str,
    username: &str,
    password: &str,
    url: &str,
    notes: &str,
    old_keys: &Vec<String>,
    custom: &Vec<(String, String, bool)>,
) -> (r: EntryEditPlan)
    ensures
        crate::text::views(r.removals@) == stale_keys(crate::text::views(old_keys@), field_rows(custom@)),
        field_rows(r.sets@) == standard_writes(title@, username@, password@, url@, notes@) + field_writes(
            field_rows(custom@),
        ),
{
    let mut sets: Vec<(String, String, bool)> = Vec::new();
    push_field(&mut sets, "Title", trim_str(title), false);
    push_field(&mut sets, "UserName", trim_str(username), false);
    push_field(&mut sets, "Password", owned(password), true);
    push_field(&mut sets, "URL", trim_str(url), false);
    push_field(&mut sets, "Notes", owned(notes), false);
    proof {
        reveal_strlit("Title");
        reveal_strlit("UserName");
        reveal_strlit("Password");
        reveal_strlit("URL");
        reveal_strlit("Notes");
    }
    assert(field_rows(sets@) =~= standard_writes(title@, username@, password@, url@, notes@));
    let writes = custom_field_writes(custom);
    let ghost head = field_rows(sets@);
    let mut i: usize = 0;
    while i < writes.len()
        invariant
            i <= writes.len(),
            field_rows(sets@) == head + field_rows(writes@).take(i as int),
        decreases writes.len() - i,
    {
        let w = &writes[i];
        let ghost before = field_rows(sets@);
        sets.push((w.0.clone(), w.1.clone(), w.2));
        assert(field_rows(sets@) =~= before.push((w.0@, w.1@, w.2)));
        i = i + 1;
        assert(field_rows(writes@).take(i as int) =~= field_rows(writes@).take(i - 1).push(field_rows(writes@)[i - 1]));
        assert(field_rows(sets@) =~= head + field_rows(writes@).take(i as int));
    }
    assert(field_rows(writes@).take(writes.len() as int) =~= field_rows(writes@));
    EntryEditPlan { removals: stale_custom_keys(old_keys, custom), sets }
}

/// The characters a password is drawn from are the chosen classes, whole and
/// one after another in the order upper case, lower case, digits, symbols:
/// 26 for each letter class, 10 digits and the 29 symbols
/// `!@#$%^&*()-_=+[]{}|;:,.<>?/~\``. With no class chosen they are the 62
/// lower-case letters, upper-case letters and digits.
pub proof fn lemma_password_alphabet_classes(uppercase: bool, lowercase: bool, digits: bool, symbols: bool)
    ensures
        (uppercase || lowercase || digits || symbols) ==> password_alphabet(uppercase, lowercase, digits, symbols).len()
            == (if uppercase { 26int } else { 0 }) + (if lowercase { 26int } else { 0 }) + (if digits { 10int } else { 0 })
            + (if symbols { 29int } else { 0 }),
        uppercase ==> password_alphabet(uppercase, lowercase, digits, symbols).subrange(0, 26)
            == "ABCDEFGHIJKLMNOPQRSTUVWXYZ"@,
        lowercase ==> password_alphabet(uppercase, lowercase, digits, symbols).subrange(
            if uppercase { 26int } else { 0 },
            (if uppercase { 26int } else { 0 }) + 26,
        ) == "abcdefghijklmnopqrstuvwxyz"@,
        digits ==> password_alphabet(uppercase, lowercase, digits, symbols).subrange(
            (if uppercase { 26int } else { 0 }) + (if lowercase { 26int } else { 0 }),
            (if uppercase { 26int } else { 0 }) + (if lowercase { 26int } else { 0 }) + 10,
        ) == "0123456789"@,
        symbols ==> password_alphabet(uppercase, lowercase, digits, symbols).subrange(
            (if uppercase { 26int } else { 0 }) + (if lowercase { 26int } else { 0 }) + (if digits { 10int } else { 0 }),
            (if uppercase { 26int } else { 0 }) + (if lowercase { 26int } else { 0 }) + (if digits { 10int } else { 0 })
                + 29,
        ) == "!@#$%^&*()-_=+[]{}|;:,.<>?/~`"@,
        !(uppercase || lowercase || digits || symbols) ==> password_alphabet(uppercase, lowercase, digits, symbols)
            == "abcdefghijklmnopqrstuvwxyzABCDEFGHIJKLMNOPQRSTUVWXYZ0123456789"@,
{
    reveal_strlit("ABCDEFGHIJKLMNOPQRSTUVWXYZ");
    reveal_strlit("abcdefghijklmnopqrstuvwxyz");
    reveal_strlit("0123456789");
    reveal_strlit("!@#$%^&*()-_=+[]{}|;:,.<>?/~`");
    reveal_strlit("abcdefghijklmnopqrstuvwxyzABCDEFGHIJKLMNOPQRSTUVWXYZ0123456789");
    let u: Seq<char> = if uppercase { "ABCDEFGHIJKLMNOPQRSTUVWXYZ"@ } else { Seq::empty() };
    let l: Seq<char> = if lowercase { "abcdefghijklmnopqrstuvwxyz"@ } else { Seq::empty() };
    let d: Seq<char> = if digits { "0123456789"@ } else { Seq::empty() };
    let s: Seq<char> = if symbols { "!@#$%^&*()-_=+[]{}|;:,.<>?/~`"@ } else { Seq::empty() };
    let a = u + l + d + s;
    let nu = u.len() as int;
    let nl = l.len() as int;
    let nd = d.len() as int;
    assert(a.subrange(0, nu) =~= u);
    assert(a.subrange(nu, nu + nl) =~= l);
    assert(a.subrange(nu + nl, nu + nl + nd) =~= d);
    assert(a.subrange(nu + nl + nd, a.len() as int) =~= s);
    if uppercase || lowercase || digits || symbols {
        assert(a.len() > 0);
        assert(password_alphabet(uppercase, lowercase, digits, symbols) == a);
    }
}

proof fn lemma_matching_rows_contains(rows: Seq<EntryRow>, q: Seq<char>, x: EntryRow)
    ensures
        matching_rows(rows, q).contains(x) <==> rows.contains(x) && (has_infix(unicode_lowercase(x.1), q)
            || has_infix(unicode_lowercase(x.2), q) || has_infix(unicode_lowercase(x.3), q)),
    decreases rows.len(),
{
    if rows.len() > 0 {
        let t = rows.drop_last();
        lemma_matching_rows_contains(t, q, x);
        assert(rows =~= t.push(rows.last()));
        vstd::seq_lib::lemma_seq_contains_after_push(t, rows.last(), x);
        let r = matching_rows(t, q);
        vstd::seq_lib::lemma_seq_contains_after_push(r, rows.last(), x);
    }
}

proof fn lemma_matching_rows_filter(rows: Seq<EntryRow>, q: Seq<char>)
    ensures
        matching_rows(rows, q) == rows.filter(
            |x: EntryRow|
                has_infix(unicode_lowercase(x.1), q) || has_infix(unicode_lowercase(x.2), q) || has_infix(
                    unicode_lowercase(x.3),
                    q,
                ),
        ),
    decreases rows.len(),
{
    reveal_with_fuel(Seq::filter, 1);
    if rows.len() > 0 {
        lemma_matching_rows_filter(rows.drop_last(), q);
    }
}

/// With a search text, the vault page lists an entry exactly when it is an
/// entry of the vault (in any group) and the search text, in lower case,
/// occurs in its title, its user name or its URL, in lower case; the list is
/// the vault's entries kept in their order, those that do not match left out.
pub proof fn lemma_search_lists_matches(root: VaultGroup, query: Seq<char>, selected: Option<u128>, row: EntryRow)
    requires
        query.len() > 0,
    ensures
        listed_rows(root, query, selected) == group_entry_rows(root, Seq::empty()).filter(
            |x: EntryRow|
                has_infix(unicode_lowercase(x.1), unicode_lowercase(query)) || has_infix(
                    unicode_lowercase(x.2),
                    unicode_lowercase(query),
                ) || has_infix(unicode_lowercase(x.3), unicode_lowercase(query)),
        ),
        listed_rows(root, query, selected).contains(row) <==> group_entry_rows(root, Seq::empty()).contains(row) && (
        has_infix(unicode_lowercase(row.1), unicode_lowercase(query)) || has_infix(
            unicode_lowercase(row.2),
            unicode_lowercase(query),
        ) || has_infix(unicode_lowercase(row.3), unicode_lowercase(query))),
{
    lemma_matching_rows_contains(group_entry_rows(root, Seq::empty()), unicode_lowercase(query), row);
    lemma_matching_rows_filter(group_entry_rows(root, Seq::empty()), unicode_lowercase(query));
}

} // verus!
