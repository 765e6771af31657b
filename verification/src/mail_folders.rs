//! Ordering of an account's mail folders into a tree, and the labels of
//! folder roles.

use vstd::prelude::*;
use vstd::multiset::Multiset;
use crate::mail_model::{MailFolder, MailFolderRole, clone_opt, opt_view};
use crate::order::{
    lex_order, lex_compare, sort_stable, lemma_insert_stable_at, lemma_sort_stable_step, lemma_sort_stable_multiset,
    lemma_sort_stable_sorted, lemma_lex_order_antisymmetric, lemma_lex_order_transitive, lemma_lex_order_zero,
    lemma_lex_weak, sorted_by, strict_weak,
};
use crate::text::{ascii_lower, lower_chars, chars_of};

verus! {

/// The rank by which a role orders folders among their siblings.
pub open spec fn role_rank(role: Option<MailFolderRole>) -> int {
    match role {
        Some(MailFolderRole::Inbox) => 0,
        Some(MailFolderRole::Sent) => 10,
        Some(MailFolderRole::Drafts) => 20,
        Some(MailFolderRole::Archive) => 30,
        Some(MailFolderRole::Spam) => 40,
        Some(MailFolderRole::Trash) => 50,
        Some(MailFolderRole::AllMail) => 60,
        None => 100,
    }
}

/// The rank of a folder role: special folders first, in a fixed order.
pub fn folder_role_rank(role: Option<MailFolderRole>) -> (r: u8)
    ensures
        r as int == role_rank(role),
{
    match role {
        Some(MailFolderRole::Inbox) => 0,
        Some(MailFolderRole::Sent) => 10,
        Some(MailFolderRole::Drafts) => 20,
        Some(MailFolderRole::Archive) => 30,
        Some(MailFolderRole::Spam) => 40,
        Some(MailFolderRole::Trash) => 50,
        Some(MailFolderRole::AllMail) => 60,
        None => 100,
    }
}

/// Three-way order of sibling folders: by role rank, then by name and then by
/// path, both compared with ASCII letters in lower case.
pub open spec fn folder_order(a: MailFolder, b: MailFolder) -> int {
    if role_rank(a.role) < role_rank(b.role) {
        -1
    } else if role_rank(a.role) > role_rank(b.role) {
        1
    } else if lex_order(ascii_lower(a.name@), ascii_lower(b.name@)) != 0 {
        lex_order(ascii_lower(a.name@), ascii_lower(b.name@))
    } else {
        lex_order(ascii_lower(a.path@), ascii_lower(b.path@))
    }
}

/// Whether `a` sorts after `b` among siblings.
pub open spec fn folder_after(a: MailFolder, b: MailFolder) -> bool {
    folder_order(a, b) > 0
}

/// The sibling order as a relation that the stable sort takes.
pub open spec fn folder_after_fn() -> spec_fn(MailFolder, MailFolder) -> bool {
    |a: MailFolder, b: MailFolder| folder_after(a, b)
}

fn folder_sorts_after(a: &MailFolder, b: &MailFolder) -> (r: bool)
    ensures
        r == folder_after(*a, *b),
{
    let ra = folder_role_rank(a.role);
    let rb = folder_role_rank(b.role);
    if ra != rb {
        return ra > rb;
    }
    let na = lower_chars(&chars_of(a.name.as_str()));
    let nb = lower_chars(&chars_of(b.name.as_str()));
    let by_name = lex_compare(&na, &nb);
    if by_name != 0 {
        return by_name > 0;
    }
    let pa = lower_chars(&chars_of(a.path.as_str()));
    let pb = lower_chars(&chars_of(b.path.as_str()));
    lex_compare(&pa, &pb) > 0
}

/// Sorts sibling folders stably by role rank, then name, then path.
pub fn sort_mail_folder_siblings(folders: &mut Vec<MailFolder>)
    ensures
        final(folders)@ == sort_stable(old(folders)@, folder_after_fn()),
{
    let ghost input = folders@;
    let mut out: Vec<MailFolder> = Vec::new();
    let mut i: usize = 0;
    while i < folders.len()
        invariant
            i <= folders.len(),
            folders@ == input,
            out@ == sort_stable(input.take(i as int), folder_after_fn()),
        decreases folders.len() - i,
    {
        let x = folders[i].duplicate();
        let mut j: usize = out.len();
        while j > 0 && folder_sorts_after(&out[j - 1], &x)
            invariant
                j <= out.len(),
                forall|k: int| j <= k < out.len() ==> folder_after(#[trigger] out@[k], x),
            decreases j,
        {
            j = j - 1;
        }
        proof {
            lemma_insert_stable_at(out@, x, folder_after_fn(), j as int);
            lemma_sort_stable_step(input, folder_after_fn(), i as int);
        }
        let ghost before = out@;
        out.insert(j, x);
        assert(out@ =~= before.take(j as int).push(x) + before.skip(j as int));
        i = i + 1;
    }
    assert(input.take(input.len() as int) =~= input);
    *folders = out;
}

/// A group of folders that share a parent key.
pub type FolderGroupView = (Option<Seq<char>>, Seq<MailFolder>);

/// The parent under which a folder is listed: its parent path if some folder
/// of the list has that path, else the top level (`None`).
pub open spec fn effective_parent(f: MailFolder, all: Seq<MailFolder>) -> Option<Seq<char>> {
    match f.parent_path {
        Some(p) => if exists|i: int| 0 <= i < all.len() && (#[trigger] all[i]).path@ == p@ {
            Some(p@)
        } else {
            None
        },
        None => None,
    }
}

/// The index of the first group with key `key`, or `-1`.
pub open spec fn find_group(groups: Seq<FolderGroupView>, key: Option<Seq<char>>) -> int
    decreases groups.len(),
{
    if groups.len() == 0 {
        -1
    } else if groups[0].0 == key {
        0
    } else {
        let r = find_group(groups.drop_first(), key);
        if r < 0 {
            -1
        } else {
            r + 1
        }
    }
}

/// Adds `f` to the group of `key`, opening the group at the end if it is new.
pub open spec fn add_to_group(groups: Seq<FolderGroupView>, key: Option<Seq<char>>, f: MailFolder) -> Seq<
    FolderGroupView,
> {
    let i = find_group(groups, key);
    if i < 0 {
        groups.push((key, seq![f]))
    } else {
        groups.update(i, (key, groups[i].1.push(f)))
    }
}

/// The folders grouped by effective parent, groups in order of first
/// appearance, folders within a group in input order.
pub open spec fn group_by_parent(folders: Seq<MailFolder>, all: Seq<MailFolder>) -> Seq<FolderGroupView>
    decreases folders.len(),
{
    if folders.len() == 0 {
        Seq::empty()
    } else {
        add_to_group(
            group_by_parent(folders.drop_last(), all),
            effective_parent(folders.last(), all),
            folders.last(),
        )
    }
}

/// Every group's folders sorted as siblings.
pub open spec fn sort_groups(groups: Seq<FolderGroupView>) -> Seq<FolderGroupView> {
    groups.map_values(|g: FolderGroupView| (g.0, sort_stable(g.1, folder_after_fn())))
}

/// Lists the children of `key` depth first: each child followed by its own
/// children. The group of `key` is used up, so a key is expanded only once.
/// `fuel` bounds the depth; it never runs out when it is at least the number
/// of groups.
pub open spec fn visit(key: Option<Seq<char>>, groups: Seq<FolderGroupView>, fuel: nat) -> (Seq<MailFolder>, Seq<FolderGroupView>)
    decreases fuel, 1nat, 0nat,
{
    let i = find_group(groups, key);
    if fuel == 0 || i < 0 {
        (Seq::empty(), groups)
    } else {
        visit_children(groups[i].1, groups.remove(i), fuel)
    }
}

/// Lists each of `children` followed by its descendants.
pub open spec fn visit_children(children: Seq<MailFolder>, groups: Seq<FolderGroupView>, fuel: nat) -> (Seq<MailFolder>, Seq<FolderGroupView>)
    decreases fuel, 0nat, children.len(),
{
    if children.len() == 0 || fuel == 0 {
        (Seq::empty(), groups)
    } else {
        let c = children[0];
        let below = visit(Some(c.path@), groups, (fuel - 1) as nat);
        let rest = visit_children(children.drop_first(), below.1, fuel);
        (seq![c] + below.0 + rest.0, rest.1)
    }
}

/// Expanding never adds groups, and expanding a present key with fuel left
/// removes at least one.
pub proof fn lemma_visit_len(key: Option<Seq<char>>, groups: Seq<FolderGroupView>, fuel: nat)
    ensures
        visit(key, groups, fuel).1.len() <= groups.len(),
        fuel > 0 && find_group(groups, key) >= 0 ==> visit(key, groups, fuel).1.len() < groups.len(),
    decreases fuel, 1nat, 0nat,
{
    lemma_find_group_range(groups, key);
    let i = find_group(groups, key);
    if fuel > 0 && i >= 0 {
        lemma_visit_children_len(groups[i].1, groups.remove(i), fuel);
    }
}

/// Expanding children never adds groups.
pub proof fn lemma_visit_children_len(children: Seq<MailFolder>, groups: Seq<FolderGroupView>, fuel: nat)
    ensures
        visit_children(children, groups, fuel).1.len() <= groups.len(),
    decreases fuel, 0nat, children.len(),
{
    if children.len() > 0 && fuel > 0 {
        let c = children[0];
        lemma_visit_len(Some(c.path@), groups, (fuel - 1) as nat);
        let below = visit(Some(c.path@), groups, (fuel - 1) as nat);
        lemma_visit_children_len(children.drop_first(), below.1, fuel);
    }
}

/// `find_group` gives an index of a group with that key, or `-1`.
pub proof fn lemma_find_group_range(groups: Seq<FolderGroupView>, key: Option<Seq<char>>)
    ensures
        -1 <= find_group(groups, key) < groups.len(),
        find_group(groups, key) >= 0 ==> groups[find_group(groups, key)].0 == key,
        find_group(groups, key) < 0 ==> forall|j: int| 0 <= j < groups.len() ==> groups[j].0 != key,
    decreases groups.len(),
{
    if groups.len() > 0 && groups[0].0 != key {
        lemma_find_group_range(groups.drop_first(), key);
        assert forall|j: int| 1 <= j < groups.len() implies groups[j] == groups.drop_first()[j - 1] by {}
    }
}

/// Expands the remaining groups in order until none is left.
pub open spec fn drain(groups: Seq<FolderGroupView>, fuel: nat) -> Seq<MailFolder>
    decreases groups.len(),
{
    if groups.len() == 0 || fuel == 0 {
        Seq::empty()
    } else {
        let step = visit(groups[0].0, groups, fuel);
        proof {
            lemma_visit_len(groups[0].0, groups, fuel);
        }
        step.0 + drain(step.1, fuel)
    }
}

/// The folders in tree order: the top level and its descendants depth first,
/// siblings sorted by role rank, name and path; then the folders that are not
/// reachable from the top level (those on a cycle of parent paths), group by
/// group in order of first appearance.
pub open spec fn folder_tree_order(folders: Seq<MailFolder>) -> Seq<MailFolder> {
    let groups = sort_groups(group_by_parent(folders, folders));
    let first = visit(None, groups, folders.len());
    first.0 + drain(first.1, folders.len())
}

/// Folders that share a parent key, while the tree order is built.
pub struct FolderGroup {
    pub parent: Option<String>,
    pub children: Vec<MailFolder>,
}

/// The view of a group.
pub open spec fn group_view(g: FolderGroup) -> FolderGroupView {
    (opt_view(g.parent), g.children@)
}

/// The views of groups.
pub open spec fn groups_view(v: Seq<FolderGroup>) -> Seq<FolderGroupView> {
    v.map_values(|g: FolderGroup| group_view(g))
}

fn opt_str_eq(a: &Option<String>, b: &Option<String>) -> (r: bool)
    ensures
        r == (opt_view(*a) == opt_view(*b)),
{
    match (a, b) {
        (Some(x), Some(y)) => x.eq(y),
        (None, None) => true,
        _ => false,
    }
}

proof fn lemma_find_group_first(groups: Seq<FolderGroupView>, key: Option<Seq<char>>, i: int)
    requires
        0 <= i <= groups.len(),
        forall|j: int| 0 <= j < i ==> groups[j].0 != key,
    ensures
        i < groups.len() && groups[i].0 == key ==> find_group(groups, key) == i,
        i == groups.len() ==> find_group(groups, key) == -1,
    decreases i,
{
    if i > 0 {
        assert forall|j: int| 0 <= j < i - 1 implies groups.drop_first()[j].0 != key by {
            assert(groups.drop_first()[j] == groups[j + 1]);
        }
        lemma_find_group_first(groups.drop_first(), key, i - 1);
        if i < groups.len() {
            assert(groups.drop_first()[i - 1] == groups[i]);
        }
    }
}

fn find_group_index(groups: &Vec<FolderGroup>, key: &Option<String>) -> (r: Option<usize>)
    ensures
        match r {
            Some(i) => i < groups.len() && find_group(groups_view(groups@), opt_view(*key)) == i,
            None => find_group(groups_view(groups@), opt_view(*key)) == -1,
        },
{
    let ghost gv = groups_view(groups@);
    let mut i: usize = 0;
    while i < groups.len()
        invariant
            i <= groups.len(),
            gv == groups_view(groups@),
            forall|j: int| 0 <= j < i ==> gv[j].0 != opt_view(*key),
        decreases groups.len() - i,
    {
        if opt_str_eq(&groups[i].parent, key) {
            proof {
                lemma_find_group_first(gv, opt_view(*key), i as int);
            }
            return Some(i);
        }
        i = i + 1;
    }
    proof {
        lemma_find_group_first(gv, opt_view(*key), i as int);
    }
    None
}

/// Appends the children of `key`, depth first, to `out`, using up the groups
/// that it expands.
fn append_mail_folder_children(
    key: &Option<String>,
    groups: &mut Vec<FolderGroup>,
    out: &mut Vec<MailFolder>,
    fuel: usize,
)
    ensures
        final(out)@ == old(out)@ + visit(opt_view(*key), groups_view(old(groups)@), fuel as nat).0,
        groups_view(final(groups)@) == visit(opt_view(*key), groups_view(old(groups)@), fuel as nat).1,
    decreases fuel,
{
    let ghost g0 = groups_view(groups@);
    if fuel == 0 {
        return;
    }
    let found = find_group_index(groups, key);
    let i = match found {
        Some(i) => i,
        None => {
            return;
        },
    };
    let group = groups.remove(i);
    assert(groups_view(groups@) =~= g0.remove(i as int));
    let children = group.children;
    let ghost all_children = children@;
    assert(all_children == g0[i as int].1);
    assert(all_children.skip(0) =~= all_children);
    let mut k: usize = 0;
    while k < children.len()
        invariant
            0 < fuel,
            k <= children.len(),
            children@ == all_children,
            old(out)@ + visit_children(all_children, g0.remove(i as int), fuel as nat).0 == out@
                + visit_children(all_children.skip(k as int), groups_view(groups@), fuel as nat).0,
            visit_children(all_children, g0.remove(i as int), fuel as nat).1 == visit_children(
                all_children.skip(k as int),
                groups_view(groups@),
                fuel as nat,
            ).1,
        decreases children.len() - k,
    {
        let ghost suffix = all_children.skip(k as int);
        let ghost gk = groups_view(groups@);
        let c = children[k].duplicate();
        let path: Option<String> = Some(c.path.clone());
        assert(suffix[0] == c);
        assert(suffix.drop_first() =~= all_children.skip(k + 1));
        let ghost out_before = out@;
        out.push(c);
        append_mail_folder_children(&path, groups, out, fuel - 1);
        k = k + 1;
        proof {
            let below = visit(Some(c.path@), gk, (fuel - 1) as nat);
            assert(out@ == out_before + seq![c] + below.0);
            assert(groups_view(groups@) == below.1);
            let rest = visit_children(all_children.skip(k as int), below.1, fuel as nat);
            assert(visit_children(suffix, gk, fuel as nat) == (seq![c] + below.0 + rest.0, rest.1));
            assert(out_before + (seq![c] + below.0 + rest.0) =~= out@ + rest.0);
        }
    }
    assert(all_children.skip(children.len() as int).len() == 0);
}

fn effective_parent_of(f: &MailFolder, all: &Vec<MailFolder>) -> (r: Option<String>)
    ensures
        opt_view(r) == effective_parent(*f, all@),
{
    match &f.parent_path {
        Some(p) => {
            let mut i: usize = 0;
            while i < all.len()
                invariant
                    i <= all.len(),
                    f.parent_path == Some(*p),
                    forall|j: int| 0 <= j < i ==> (#[trigger] all@[j]).path@ != p@,
                decreases all.len() - i,
            {
                if all[i].path.eq(p) {
                    assert(all@[i as int].path@ == p@);
                    return Some(p.clone());
                }
                i = i + 1;
            }
            None
        },
        None => None,
    }
}

/// The folders of an account in tree order, as the folder list shows them:
/// each folder followed by its subfolders, depth first, siblings by role
/// rank, name and path.
pub fn sorted_mail_folders(folders: &Vec<MailFolder>) -> (r: Vec<MailFolder>)
    ensures
        r@ == folder_tree_order(folders@),
{
    let ghost all = folders@;
    let mut groups: Vec<FolderGroup> = Vec::new();
    let mut i: usize = 0;
    while i < folders.len()
        invariant
            i <= folders.len(),
            folders@ == all,
            groups_view(groups@) == group_by_parent(all.take(i as int), all),
        decreases folders.len() - i,
    {
        let ghost before = groups_view(groups@);
        let f = folders[i].duplicate();
        let key = effective_parent_of(&f, folders);
        assert(all.take(i + 1).drop_last() =~= all.take(i as int));
        assert(all.take(i + 1).last() == f);
        match find_group_index(&groups, &key) {
            Some(j) => {
                proof {
                    lemma_find_group_range(before, opt_view(key));
                }
                let mut g = groups.remove(j);
                g.children.push(f);
                groups.insert(j, g);
                assert(groups_view(groups@) =~= before.update(
                    j as int,
                    (opt_view(key), before[j as int].1.push(f)),
                ));
            },
            None => {
                let mut kids: Vec<MailFolder> = Vec::new();
                kids.push(f);
                assert(kids@ =~= seq![f]);
                let g = FolderGroup { parent: key, children: kids };
                assert(group_view(g) == (opt_view(key), seq![f]));
                groups.push(g);
                assert(groups_view(groups@) =~= before.push((opt_view(key), seq![f])));
            },
        }
        i = i + 1;
    }
    assert(all.take(all.len() as int) =~= all);
    let ghost unsorted = groups_view(groups@);
    let mut j: usize = 0;
    while j < groups.len()
        invariant
            j <= groups.len(),
            groups.len() == unsorted.len(),
            forall|k: int| 0 <= k < j ==> groups_view(groups@)[k] == (#[trigger] sort_groups(unsorted)[k]),
            forall|k: int| j <= k < groups.len() ==> groups_view(groups@)[k] == (#[trigger] unsorted[k]),
        decreases groups.len() - j,
    {
        let ghost before = groups@;
        let mut g = groups.remove(j);
        sort_mail_folder_siblings(&mut g.children);
        groups.insert(j, g);
        assert forall|k: int| 0 <= k < groups.len() && k != j implies groups@[k] == before[k] by {}
        j = j + 1;
    }
    assert(groups_view(groups@) =~= sort_groups(unsorted));
    let fuel = folders.len();
    let mut out: Vec<MailFolder> = Vec::new();
    let top: Option<String> = None;
    append_mail_folder_children(&top, &mut groups, &mut out, fuel);
    let ghost after_top = groups_view(groups@);
    assert(out@ == visit(None, sort_groups(unsorted), fuel as nat).0);
    while groups.len() > 0 && fuel > 0
        invariant
            fuel == folders.len(),
            out@ + drain(groups_view(groups@), fuel as nat) == visit(None, sort_groups(unsorted), fuel as nat).0
                + drain(after_top, fuel as nat),
        decreases groups.len(),
    {
        let ghost gv = groups_view(groups@);
        let key = clone_opt(&groups[0].parent);
        assert(opt_view(key) == gv[0].0);
        proof {
            lemma_visit_len(gv[0].0, gv, fuel as nat);
        }
        let ghost out_before = out@;
        append_mail_folder_children(&key, &mut groups, &mut out, fuel);
        assert(out_before + drain(gv, fuel as nat) =~= out@ + drain(groups_view(groups@), fuel as nat));
    }
    assert(drain(groups_view(groups@), fuel as nat) =~= Seq::<MailFolder>::empty());
    assert(out@ =~= out@ + Seq::<MailFolder>::empty());
    out
}

/// All the folders that the groups hold.
pub open spec fn grouped(groups: Seq<FolderGroupView>) -> Multiset<MailFolder>
    decreases groups.len(),
{
    if groups.len() == 0 {
        Multiset::empty()
    } else {
        groups[0].1.to_multiset().add(grouped(groups.drop_first()))
    }
}

proof fn lemma_grouped_remove(groups: Seq<FolderGroupView>, i: int)
    requires
        0 <= i < groups.len(),
    ensures
        grouped(groups) == groups[i].1.to_multiset().add(grouped(groups.remove(i))),
    decreases i,
{
    broadcast use vstd::multiset::group_multiset_axioms;

    if i == 0 {
        assert(groups.remove(0) =~= groups.drop_first());
    } else {
        let t = groups.drop_first();
        lemma_grouped_remove(t, i - 1);
        assert(groups.remove(i).drop_first() =~= t.remove(i - 1));
        assert(groups.remove(i)[0] == groups[0]);
        assert(t[i - 1] == groups[i]);
        assert(grouped(groups) =~= groups[i].1.to_multiset().add(grouped(groups.remove(i))));
    }
}

proof fn lemma_grouped_push(groups: Seq<FolderGroupView>, g: FolderGroupView)
    ensures
        grouped(groups.push(g)) == grouped(groups).add(g.1.to_multiset()),
    decreases groups.len(),
{
    broadcast use vstd::multiset::group_multiset_axioms;

    if groups.len() == 0 {
        assert(groups.push(g).drop_first() =~= Seq::<FolderGroupView>::empty());
        assert(groups.push(g)[0] == g);
        assert(grouped(Seq::<FolderGroupView>::empty()) == Multiset::<MailFolder>::empty());
        assert(grouped(groups.push(g)) =~= grouped(groups).add(g.1.to_multiset()));
    } else {
        lemma_grouped_push(groups.drop_first(), g);
        assert(groups.push(g).drop_first() =~= groups.drop_first().push(g));
        assert(groups.push(g)[0] == groups[0]);
        assert(grouped(groups.push(g)) =~= grouped(groups).add(g.1.to_multiset()));
    }
}

proof fn lemma_grouped_add(groups: Seq<FolderGroupView>, key: Option<Seq<char>>, f: MailFolder)
    ensures
        grouped(add_to_group(groups, key, f)) == grouped(groups).insert(f),
{
    broadcast use vstd::multiset::group_multiset_axioms, vstd::seq_lib::group_to_multiset_ensures;

    lemma_find_group_range(groups, key);
    let i = find_group(groups, key);
    if i < 0 {
        lemma_grouped_push(groups, (key, seq![f]));
        assert(seq![f].to_multiset() =~= Seq::<MailFolder>::empty().push(f).to_multiset()) by {
            assert(seq![f] =~= Seq::<MailFolder>::empty().push(f));
        }
        assert(grouped(add_to_group(groups, key, f)) =~= grouped(groups).insert(f));
    } else {
        let u = groups.update(i, (key, groups[i].1.push(f)));
        lemma_grouped_remove(groups, i);
        lemma_grouped_remove(u, i);
        assert(u.remove(i) =~= groups.remove(i));
        assert(grouped(add_to_group(groups, key, f)) =~= grouped(groups).insert(f));
    }
}

proof fn lemma_grouped_by_parent(folders: Seq<MailFolder>, all: Seq<MailFolder>)
    ensures
        grouped(group_by_parent(folders, all)) == folders.to_multiset(),
    decreases folders.len(),
{
    broadcast use vstd::multiset::group_multiset_axioms, vstd::seq_lib::group_to_multiset_ensures;

    if folders.len() == 0 {
        assert(folders.to_multiset() =~= Multiset::empty());
    } else {
        let t = folders.drop_last();
        lemma_grouped_by_parent(t, all);
        lemma_grouped_add(group_by_parent(t, all), effective_parent(folders.last(), all), folders.last());
        assert(folders =~= t.push(folders.last()));
    }
}

proof fn lemma_grouped_sorted(groups: Seq<FolderGroupView>)
    ensures
        grouped(sort_groups(groups)) == grouped(groups),
    decreases groups.len(),
{
    if groups.len() > 0 {
        lemma_grouped_sorted(groups.drop_first());
        assert(sort_groups(groups).drop_first() =~= sort_groups(groups.drop_first()));
        lemma_sort_stable_multiset(groups[0].1, folder_after_fn());
    }
}

proof fn lemma_visit_keeps(key: Option<Seq<char>>, groups: Seq<FolderGroupView>, fuel: nat)
    ensures
        visit(key, groups, fuel).0.to_multiset().add(grouped(visit(key, groups, fuel).1))
            == grouped(groups),
    decreases fuel, 1nat, 0nat,
{
    broadcast use vstd::multiset::group_multiset_axioms, vstd::seq_lib::group_to_multiset_ensures;

    lemma_find_group_range(groups, key);
    let i = find_group(groups, key);
    if fuel == 0 || i < 0 {
        assert(Seq::<MailFolder>::empty().to_multiset() =~= Multiset::empty());
        assert(visit(key, groups, fuel).0.to_multiset().add(grouped(visit(key, groups, fuel).1))
            =~= grouped(groups));
    } else {
        lemma_grouped_remove(groups, i);
        lemma_visit_children_keeps(groups[i].1, groups.remove(i), fuel);
    }
}

proof fn lemma_visit_children_keeps(children: Seq<MailFolder>, groups: Seq<FolderGroupView>, fuel: nat)
    requires
        fuel > 0,
    ensures
        visit_children(children, groups, fuel).0.to_multiset().add(
            grouped(visit_children(children, groups, fuel).1),
        ) == children.to_multiset().add(grouped(groups)),
    decreases fuel, 0nat, children.len(),
{
    broadcast use vstd::multiset::group_multiset_axioms, vstd::seq_lib::group_to_multiset_ensures;

    if children.len() == 0 {
        assert(children.to_multiset() =~= Multiset::empty());
        assert(visit_children(children, groups, fuel).0.to_multiset().add(
            grouped(visit_children(children, groups, fuel).1),
        ) =~= children.to_multiset().add(grouped(groups)));
    } else {
        let c = children[0];
        let below = visit(Some(c.path@), groups, (fuel - 1) as nat);
        lemma_visit_keeps(Some(c.path@), groups, (fuel - 1) as nat);
        let rest = visit_children(children.drop_first(), below.1, fuel);
        lemma_visit_children_keeps(children.drop_first(), below.1, fuel);
        vstd::seq_lib::lemma_multiset_commutative(seq![c] + below.0, rest.0);
        vstd::seq_lib::lemma_multiset_commutative(seq![c], below.0);
        vstd::seq_lib::lemma_multiset_commutative(seq![c], children.drop_first());
        assert(children =~= seq![c] + children.drop_first());
        assert(visit_children(children, groups, fuel) == (seq![c] + below.0 + rest.0, rest.1));
        assert(rest.0.to_multiset().add(grouped(rest.1)) == children.drop_first().to_multiset().add(grouped(below.1)));
        assert(below.0.to_multiset().add(grouped(below.1)) == grouped(groups));
        let mc = seq![c].to_multiset();
        let mb = below.0.to_multiset();
        let mr = rest.0.to_multiset();
        let md = children.drop_first().to_multiset();
        assert((seq![c] + below.0 + rest.0).to_multiset() =~= mc.add(mb).add(mr));
        assert(children.to_multiset() =~= mc.add(md));
        assert forall|v: MailFolder| #[trigger] mc.add(mb).add(mr).add(grouped(rest.1)).count(v)
            == mc.add(md).add(grouped(groups)).count(v) by {
            assert(mr.add(grouped(rest.1)).count(v) == md.add(grouped(below.1)).count(v));
            assert(mb.add(grouped(below.1)).count(v) == grouped(groups).count(v));
        }
        assert(mc.add(mb).add(mr).add(grouped(rest.1)) =~= mc.add(md).add(grouped(groups)));
    }
}

proof fn lemma_drain_keeps(groups: Seq<FolderGroupView>, fuel: nat)
    requires
        fuel > 0,
    ensures
        drain(groups, fuel).to_multiset() == grouped(groups),
    decreases groups.len(),
{
    broadcast use vstd::multiset::group_multiset_axioms, vstd::seq_lib::group_to_multiset_ensures;

    if groups.len() == 0 {
        assert(drain(groups, fuel).to_multiset() =~= grouped(groups));
    } else {
        let step = visit(groups[0].0, groups, fuel);
        lemma_visit_len(groups[0].0, groups, fuel);
        lemma_visit_keeps(groups[0].0, groups, fuel);
        lemma_drain_keeps(step.1, fuel);
        vstd::seq_lib::lemma_multiset_commutative(step.0, drain(step.1, fuel));
    }
}

/// The tree order is a permutation of the folder list: every folder of the
/// account is listed, as often as it occurs in the list, and no other.
/// Folders on a cycle of parent paths are not lost either; they follow the
/// tree.
pub proof fn lemma_tree_order_is_permutation(folders: Seq<MailFolder>)
    ensures
        folder_tree_order(folders).to_multiset() == folders.to_multiset(),
{
    broadcast use vstd::multiset::group_multiset_axioms, vstd::seq_lib::group_to_multiset_ensures;

    let groups = sort_groups(group_by_parent(folders, folders));
    lemma_grouped_by_parent(folders, folders);
    lemma_grouped_sorted(group_by_parent(folders, folders));
    let first = visit(None, groups, folders.len());
    lemma_visit_keeps(None, groups, folders.len());
    if folders.len() > 0 {
        lemma_drain_keeps(first.1, folders.len());
    } else {
        assert(folders.to_multiset() =~= Multiset::empty());
    }
    vstd::seq_lib::lemma_multiset_commutative(first.0, drain(first.1, folders.len()));
}

proof fn lemma_folder_order_weak()
    ensures
        strict_weak(folder_after_fn()),
{
    let gt = folder_after_fn();
    assert forall|a: MailFolder, b: MailFolder| #[trigger] gt(a, b) implies !gt(b, a) by {
        lemma_lex_order_antisymmetric(ascii_lower(a.name@), ascii_lower(b.name@));
        lemma_lex_order_antisymmetric(ascii_lower(a.path@), ascii_lower(b.path@));
    }
    assert forall|a: MailFolder, b: MailFolder, c: MailFolder| #![trigger gt(a, b), gt(b, c)]
        !gt(a, b) && !gt(b, c) implies !gt(a, c) by {
        if role_rank(a.role) == role_rank(b.role) && role_rank(b.role) == role_rank(c.role) {
            let (na, nb, nc) = (ascii_lower(a.name@), ascii_lower(b.name@), ascii_lower(c.name@));
            lemma_lex_weak(na, nb, nc);
            if lex_order(na, nc) == 0 {
                lemma_lex_weak(ascii_lower(a.path@), ascii_lower(b.path@), ascii_lower(c.path@));
            }
        }
    }
}

/// Sorting siblings keeps every folder, as often as it occurs, and puts them
/// in sibling order: by role rank, then name, then path.
pub proof fn lemma_sibling_sort_law(folders: Seq<MailFolder>)
    ensures
        sort_stable(folders, folder_after_fn()).to_multiset() == folders.to_multiset(),
        sorted_by(sort_stable(folders, folder_after_fn()), folder_after_fn()),
{
    lemma_sort_stable_multiset(folders, folder_after_fn());
    lemma_folder_order_weak();
    lemma_sort_stable_sorted(folders, folder_after_fn());
}

/// Every folder that the groups hold has the group's key as its effective
/// parent.
pub open spec fn groups_keyed(groups: Seq<FolderGroupView>, all: Seq<MailFolder>) -> bool {
    forall|g: int, m: int|
        0 <= g < groups.len() && 0 <= m < groups[g].1.len() ==> effective_parent(
            #[trigger] groups[g].1[m],
            all,
        ) == groups[g].0
}

/// Every folder of `out` has parent key `key`, or has as its effective
/// parent the path of a folder listed before it.
pub open spec fn parents_first(out: Seq<MailFolder>, key: Option<Seq<char>>, all: Seq<MailFolder>) -> bool {
    forall|j: int|
        0 <= j < out.len() ==> effective_parent(#[trigger] out[j], all) == key || exists|i: int|
            0 <= i < j && effective_parent(out[j], all) == Some((#[trigger] out[i]).path@)
}

proof fn lemma_keyed_by_parent(folders: Seq<MailFolder>, all: Seq<MailFolder>)
    ensures
        groups_keyed(group_by_parent(folders, all), all),
    decreases folders.len(),
{
    if folders.len() > 0 {
        let prev = group_by_parent(folders.drop_last(), all);
        lemma_keyed_by_parent(folders.drop_last(), all);
        let f = folders.last();
        let key = effective_parent(f, all);
        lemma_find_group_range(prev, key);
        let r = add_to_group(prev, key, f);
        assert forall|g: int, m: int| 0 <= g < r.len() && 0 <= m < r[g].1.len() implies effective_parent(
            #[trigger] r[g].1[m],
            all,
        ) == r[g].0 by {
            let i = find_group(prev, key);
            if i < 0 {
                assert(r == prev.push((key, seq![f])));
                if g < prev.len() {
                    assert(r[g] == prev[g]);
                    assert(effective_parent(prev[g].1[m], all) == prev[g].0);
                } else {
                    assert(r[g] == (key, seq![f]));
                    assert(r[g].1[m] == f);
                }
            } else if g == i {
                assert(r == prev.update(i, (key, prev[i].1.push(f))));
                assert(r[g] == (key, prev[i].1.push(f)));
                assert(prev[i].0 == key);
                if m < prev[i].1.len() {
                    assert(r[g].1[m] == prev[i].1[m]);
                    assert(effective_parent(prev[i].1[m], all) == prev[i].0);
                } else {
                    assert(r[g].1[m] == f);
                }
            } else {
                assert(r == prev.update(i, (key, prev[i].1.push(f))));
                assert(r[g] == prev[g]);
                assert(effective_parent(prev[g].1[m], all) == prev[g].0);
            }
        }
    }
}

proof fn lemma_keyed_sorted(groups: Seq<FolderGroupView>, all: Seq<MailFolder>)
    requires
        groups_keyed(groups, all),
    ensures
        groups_keyed(sort_groups(groups), all),
{
    broadcast use vstd::seq_lib::group_to_multiset_ensures;

    let r = sort_groups(groups);
    assert forall|g: int, m: int| 0 <= g < r.len() && 0 <= m < r[g].1.len() implies effective_parent(
        #[trigger] r[g].1[m],
        all,
    ) == r[g].0 by {
        let s = groups[g].1;
        lemma_sort_stable_multiset(s, folder_after_fn());
        let x = r[g].1[m];
        assert(sort_stable(s, folder_after_fn()).to_multiset().count(x) > 0);
        assert(s.to_multiset().count(x) > 0);
        let k = choose|k: int| 0 <= k < s.len() && s[k] == x;
        assert(groups[g].1[k] == x);
    }
}

proof fn lemma_keyed_remove(groups: Seq<FolderGroupView>, all: Seq<MailFolder>, i: int)
    requires
        groups_keyed(groups, all),
        0 <= i < groups.len(),
    ensures
        groups_keyed(groups.remove(i), all),
{
    let r = groups.remove(i);
    assert forall|g: int, m: int| 0 <= g < r.len() && 0 <= m < r[g].1.len() implies effective_parent(
        #[trigger] r[g].1[m],
        all,
    ) == r[g].0 by {
        if g < i {
            assert(r[g] == groups[g]);
        } else {
            assert(r[g] == groups[g + 1]);
        }
    }
}

proof fn lemma_visit_parents_first(key: Option<Seq<char>>, groups: Seq<FolderGroupView>, fuel: nat, all: Seq<MailFolder>)
    requires
        groups_keyed(groups, all),
    ensures
        parents_first(visit(key, groups, fuel).0, key, all),
        groups_keyed(visit(key, groups, fuel).1, all),
    decreases fuel, 1nat, 0nat,
{
    lemma_find_group_range(groups, key);
    let i = find_group(groups, key);
    if fuel > 0 && i >= 0 {
        lemma_keyed_remove(groups, all, i);
        assert forall|m: int| 0 <= m < groups[i].1.len() implies effective_parent(#[trigger] groups[i].1[m], all)
            == key by {}
        lemma_visit_children_parents_first(key, groups[i].1, groups.remove(i), fuel, all);
    }
}

proof fn lemma_visit_children_parents_first(
    key: Option<Seq<char>>,
    children: Seq<MailFolder>,
    groups: Seq<FolderGroupView>,
    fuel: nat,
    all: Seq<MailFolder>,
)
    requires
        groups_keyed(groups, all),
        forall|m: int| 0 <= m < children.len() ==> effective_parent(#[trigger] children[m], all) == key,
    ensures
        parents_first(visit_children(children, groups, fuel).0, key, all),
        groups_keyed(visit_children(children, groups, fuel).1, all),
    decreases fuel, 0nat, children.len(),
{
    if children.len() > 0 && fuel > 0 {
        let c = children[0];
        let below = visit(Some(c.path@), groups, (fuel - 1) as nat);
        lemma_visit_parents_first(Some(c.path@), groups, (fuel - 1) as nat, all);
        let rest = visit_children(children.drop_first(), below.1, fuel);
        assert forall|m: int| 0 <= m < children.drop_first().len() implies effective_parent(
            #[trigger] children.drop_first()[m],
            all,
        ) == key by {
            assert(children.drop_first()[m] == children[m + 1]);
        }
        lemma_visit_children_parents_first(key, children.drop_first(), below.1, fuel, all);
        let out = seq![c] + below.0 + rest.0;
        assert(visit_children(children, groups, fuel).0 == out);
        let lb = below.0.len() as int;
        assert forall|j: int| 0 <= j < out.len() implies effective_parent(#[trigger] out[j], all) == key
            || exists|i: int| 0 <= i < j && effective_parent(out[j], all) == Some((#[trigger] out[i]).path@) by {
            if j == 0 {
                assert(out[0] == c);
            } else if j <= lb {
                assert(out[j] == below.0[j - 1]);
                if effective_parent(below.0[j - 1], all) == Some(c.path@) {
                    assert(out[0] == c);
                } else {
                    let i = choose|i: int| 0 <= i < j - 1 && effective_parent(below.0[j - 1], all) == Some(
                        (#[trigger] below.0[i]).path@,
                    );
                    assert(out[i + 1] == below.0[i]);
                }
            } else {
                let jr = j - 1 - lb;
                assert(out[j] == rest.0[jr]);
                if effective_parent(rest.0[jr], all) != key {
                    let i = choose|i: int| 0 <= i < jr && effective_parent(rest.0[jr], all) == Some(
                        (#[trigger] rest.0[i]).path@,
                    );
                    assert(out[i + 1 + lb] == rest.0[i]);
                }
            }
        }
    }
}

/// How many folders the tree order lists from the top level down, before
/// those that hang on a cycle of parent paths.
pub open spec fn tree_part_len(folders: Seq<MailFolder>) -> nat {
    visit(None, sort_groups(group_by_parent(folders, folders)), folders.len()).0.len()
}

/// In the tree order every folder reached from the top level comes after its
/// parent: a folder whose parent folder is in the list is preceded by that
/// folder. Folders on a cycle of parent paths are left out: no order can put
/// each of them after its parent; they follow the tree.
pub proof fn lemma_tree_order_parents_first(folders: Seq<MailFolder>)
    ensures
        tree_part_len(folders) <= folder_tree_order(folders).len(),
        forall|j: int|
            0 <= j < tree_part_len(folders) ==> effective_parent(#[trigger] folder_tree_order(folders)[j], folders)
                is None || exists|i: int|
                0 <= i < j && effective_parent(folder_tree_order(folders)[j], folders) == Some(
                    (#[trigger] folder_tree_order(folders)[i]).path@,
                ),
{
    let groups = sort_groups(group_by_parent(folders, folders));
    lemma_keyed_by_parent(folders, folders);
    lemma_keyed_sorted(group_by_parent(folders, folders), folders);
    let first = visit(None, groups, folders.len());
    lemma_visit_parents_first(None, groups, folders.len(), folders);
    let r = folder_tree_order(folders);
    assert(r == first.0 + drain(first.1, folders.len()));
    assert forall|j: int| 0 <= j < tree_part_len(folders) implies effective_parent(#[trigger] r[j], folders) is None
        || exists|i: int| 0 <= i < j && effective_parent(r[j], folders) == Some((#[trigger] r[i]).path@) by {
        assert(r[j] == first.0[j]);
        if effective_parent(first.0[j], folders) is Some {
            let i = choose|i: int| 0 <= i < j && effective_parent(first.0[j], folders) == Some(
                (#[trigger] first.0[i]).path@,
            );
            assert(r[i] == first.0[i]);
        }
    }
}

/// No two groups share a key.
pub open spec fn distinct_group_keys(groups: Seq<FolderGroupView>) -> bool {
    forall|i: int, j: int| 0 <= i < j < groups.len() ==> (#[trigger] groups[i]).0 != (#[trigger] groups[j]).0
}

/// Every group of `inner` is one of `outer`.
pub open spec fn groups_within(inner: Seq<FolderGroupView>, outer: Seq<FolderGroupView>) -> bool {
    forall|g: int| 0 <= g < inner.len() ==> outer.contains(#[trigger] inner[g])
}

proof fn lemma_distinct_by_parent(folders: Seq<MailFolder>, all: Seq<MailFolder>)
    ensures
        distinct_group_keys(group_by_parent(folders, all)),
    decreases folders.len(),
{
    if folders.len() > 0 {
        let prev = group_by_parent(folders.drop_last(), all);
        lemma_distinct_by_parent(folders.drop_last(), all);
        let key = effective_parent(folders.last(), all);
        lemma_find_group_range(prev, key);
        let r = add_to_group(prev, key, folders.last());
        assert forall|i: int, j: int| 0 <= i < j < r.len() implies (#[trigger] r[i]).0 != (#[trigger] r[j]).0 by {
            if find_group(prev, key) < 0 {
                assert(r[i] == prev[i]);
                if j < prev.len() {
                    assert(r[j] == prev[j]);
                }
            } else {
                let k = find_group(prev, key);
                assert(r[i].0 == prev[i].0);
                assert(r[j].0 == prev[j].0);
            }
        }
    }
}

proof fn lemma_distinct_sorted(groups: Seq<FolderGroupView>)
    requires
        distinct_group_keys(groups),
    ensures
        distinct_group_keys(sort_groups(groups)),
{
    let r = sort_groups(groups);
    assert forall|i: int, j: int| 0 <= i < j < r.len() implies (#[trigger] r[i]).0 != (#[trigger] r[j]).0 by {
        assert(r[i].0 == groups[i].0);
        assert(r[j].0 == groups[j].0);
    }
}

proof fn lemma_remove_within(groups: Seq<FolderGroupView>, i: int)
    requires
        0 <= i < groups.len(),
        distinct_group_keys(groups),
    ensures
        groups_within(groups.remove(i), groups),
        distinct_group_keys(groups.remove(i)),
        forall|g: int| 0 <= g < groups.remove(i).len() ==> (#[trigger] groups.remove(i)[g]).0 != groups[i].0,
{
    let r = groups.remove(i);
    assert forall|g: int| 0 <= g < r.len() implies groups.contains(#[trigger] r[g]) by {
        if g < i {
            assert(r[g] == groups[g]);
        } else {
            assert(r[g] == groups[g + 1]);
        }
    }
    assert forall|a: int, b: int| 0 <= a < b < r.len() implies (#[trigger] r[a]).0 != (#[trigger] r[b]).0 by {
        let a2 = if a < i { a } else { a + 1 };
        let b2 = if b < i { b } else { b + 1 };
        assert(r[a] == groups[a2]);
        assert(r[b] == groups[b2]);
    }
    assert forall|g: int| 0 <= g < r.len() implies (#[trigger] r[g]).0 != groups[i].0 by {
        if g < i {
            assert(r[g] == groups[g]);
        } else {
            assert(r[g] == groups[g + 1]);
        }
    }
}

proof fn lemma_visit_excludes(key: Option<Seq<char>>, groups: Seq<FolderGroupView>, fuel: nat)
    requires
        distinct_group_keys(groups),
        groups.len() <= fuel,
    ensures
        groups_within(visit(key, groups, fuel).1, groups),
        distinct_group_keys(visit(key, groups, fuel).1),
        forall|g: int|
            0 <= g < visit(key, groups, fuel).1.len() ==> (#[trigger] visit(key, groups, fuel).1[g]).0 != key,
        forall|g: int, c: int|
            0 <= g < visit(key, groups, fuel).1.len() && 0 <= c < visit(key, groups, fuel).0.len() ==> (
            #[trigger] visit(key, groups, fuel).1[g]).0 != Some((#[trigger] visit(key, groups, fuel).0[c]).path@),
    decreases fuel, 1nat, 0nat,
{
    lemma_find_group_range(groups, key);
    let i = find_group(groups, key);
    if fuel == 0 || i < 0 {
        assert forall|g: int| 0 <= g < groups.len() implies groups.contains(#[trigger] groups[g]) by {}
    } else {
        let rest = groups.remove(i);
        lemma_remove_within(groups, i);
        lemma_children_exclude(groups[i].1, rest, fuel);
        let r = visit_children(groups[i].1, rest, fuel);
        assert forall|g: int| 0 <= g < r.1.len() implies groups.contains(#[trigger] r.1[g]) by {
            let k = choose|k: int| 0 <= k < rest.len() && rest[k] == r.1[g];
        }
        assert forall|g: int| 0 <= g < r.1.len() implies (#[trigger] r.1[g]).0 != key by {
            let k = choose|k: int| 0 <= k < rest.len() && rest[k] == r.1[g];
        }
    }
}

proof fn lemma_children_exclude(children: Seq<MailFolder>, groups: Seq<FolderGroupView>, fuel: nat)
    requires
        distinct_group_keys(groups),
        groups.len() < fuel,
    ensures
        groups_within(visit_children(children, groups, fuel).1, groups),
        distinct_group_keys(visit_children(children, groups, fuel).1),
        forall|g: int, c: int|
            0 <= g < visit_children(children, groups, fuel).1.len() && 0 <= c < visit_children(
                children,
                groups,
                fuel,
            ).0.len() ==> (#[trigger] visit_children(children, groups, fuel).1[g]).0 != Some(
                (#[trigger] visit_children(children, groups, fuel).0[c]).path@,
            ),
    decreases fuel, 0nat, children.len(),
{
    if children.len() == 0 {
        assert forall|g: int| 0 <= g < groups.len() implies groups.contains(#[trigger] groups[g]) by {}
    } else {
        let c = children[0];
        let below = visit(Some(c.path@), groups, (fuel - 1) as nat);
        lemma_visit_excludes(Some(c.path@), groups, (fuel - 1) as nat);
        lemma_visit_len(Some(c.path@), groups, (fuel - 1) as nat);
        let rest = visit_children(children.drop_first(), below.1, fuel);
        lemma_children_exclude(children.drop_first(), below.1, fuel);
        let out = seq![c] + below.0 + rest.0;
        assert(visit_children(children, groups, fuel) == (out, rest.1));
        assert forall|g: int| 0 <= g < rest.1.len() implies groups.contains(#[trigger] rest.1[g]) by {
            let k = choose|k: int| 0 <= k < below.1.len() && below.1[k] == rest.1[g];
            assert(groups.contains(below.1[k]));
        }
        let lb = below.0.len() as int;
        assert forall|g: int, j: int| 0 <= g < rest.1.len() && 0 <= j < out.len() implies (#[trigger] rest.1[g]).0
            != Some((#[trigger] out[j]).path@) by {
            let k = choose|k: int| 0 <= k < below.1.len() && below.1[k] == rest.1[g];
            if j == 0 {
                assert(out[0] == c);
                assert(below.1[k].0 != Some(c.path@));
            } else if j <= lb {
                assert(out[j] == below.0[j - 1]);
                assert(below.1[k].0 != Some(below.0[j - 1].path@));
            } else {
                assert(out[j] == rest.0[j - 1 - lb]);
            }
        }
    }
}

proof fn lemma_grouped_member(groups: Seq<FolderGroupView>, f: MailFolder)
    requires
        grouped(groups).count(f) > 0,
    ensures
        exists|g: int, m: int| 0 <= g < groups.len() && 0 <= m < groups[g].1.len() && groups[g].1[m] == f,
    decreases groups.len(),
{
    broadcast use vstd::multiset::group_multiset_axioms, vstd::seq_lib::group_to_multiset_ensures;

    if groups.len() == 0 {
        assert(grouped(groups).count(f) == 0);
    } else if groups[0].1.to_multiset().count(f) > 0 {
        let m = choose|m: int| 0 <= m < groups[0].1.len() && groups[0].1[m] == f;
        assert(groups[0].1[m] == f);
    } else {
        lemma_grouped_member(groups.drop_first(), f);
        let (g, m) = choose|g: int, m: int|
            0 <= g < groups.drop_first().len() && 0 <= m < groups.drop_first()[g].1.len() && groups.drop_first()[g].1[m]
                == f;
        assert(groups[g + 1] == groups.drop_first()[g]);
    }
}

/// Every folder with a parent folder in the list has one of lower rank: the
/// parent paths form no cycle.
pub open spec fn ranked_parents(folders: Seq<MailFolder>, rank: spec_fn(MailFolder) -> nat) -> bool {
    forall|i: int|
        0 <= i < folders.len() && #[trigger] effective_parent(folders[i], folders) is Some ==> exists|j: int|
            0 <= j < folders.len() && Some((#[trigger] folders[j]).path@) == effective_parent(folders[i], folders)
                && rank(folders[j]) < rank(folders[i])
}

proof fn lemma_left_over_empty(
    folders: Seq<MailFolder>,
    rank: spec_fn(MailFolder) -> nat,
    out: Seq<MailFolder>,
    rest: Seq<FolderGroupView>,
    f: MailFolder,
)
    requires
        ranked_parents(folders, rank),
        out.to_multiset().add(grouped(rest)) == folders.to_multiset(),
        groups_keyed(rest, folders),
        forall|g: int| 0 <= g < rest.len() ==> (#[trigger] rest[g]).0 != None::<Seq<char>>,
        forall|g: int, c: int|
            0 <= g < rest.len() && 0 <= c < out.len() ==> (#[trigger] rest[g]).0 != Some((#[trigger] out[c]).path@),
    ensures
        grouped(rest).count(f) == 0,
    decreases rank(f),
{
    broadcast use vstd::multiset::group_multiset_axioms, vstd::seq_lib::group_to_multiset_ensures;

    if grouped(rest).count(f) == 0 {
        return;
    }
    lemma_grouped_member(rest, f);
    let (g, m) = choose|g: int, m: int| 0 <= g < rest.len() && 0 <= m < rest[g].1.len() && rest[g].1[m] == f;
    assert(effective_parent(rest[g].1[m], folders) == rest[g].0);
    assert(folders.to_multiset().count(f) > 0);
    let i = choose|i: int| 0 <= i < folders.len() && folders[i] == f;
    assert(effective_parent(folders[i], folders) is Some);
    let j = choose|j: int|
        0 <= j < folders.len() && Some((#[trigger] folders[j]).path@) == effective_parent(folders[i], folders)
            && rank(folders[j]) < rank(folders[i]);
    let h = folders[j];
    if out.contains(h) {
        let c = choose|c: int| 0 <= c < out.len() && out[c] == h;
        assert(rest[g].0 != Some(out[c].path@));
    }
    assert(out.to_multiset().count(h) == 0);
    assert(folders.to_multiset().count(h) > 0);
    assert(grouped(rest).count(h) > 0);
    lemma_left_over_empty(folders, rank, out, rest, h);
}

/// When the parent paths form no cycle (some ranking puts every folder above
/// a parent folder of it), the tree part is the whole list: every folder is
/// reached from the top level, and so comes after its parent.
pub proof fn lemma_tree_order_complete(folders: Seq<MailFolder>, rank: spec_fn(MailFolder) -> nat)
    requires
        ranked_parents(folders, rank),
    ensures
        tree_part_len(folders) == folders.len(),
        folder_tree_order(folders).len() == folders.len(),
{
    broadcast use vstd::multiset::group_multiset_axioms, vstd::seq_lib::group_to_multiset_ensures;

    let base = group_by_parent(folders, folders);
    let groups = sort_groups(base);
    lemma_grouped_by_parent(folders, folders);
    lemma_grouped_sorted(base);
    lemma_keyed_by_parent(folders, folders);
    lemma_keyed_sorted(base, folders);
    lemma_distinct_by_parent(folders, folders);
    lemma_distinct_sorted(base);
    lemma_group_count(folders, folders);
    let first = visit(None, groups, folders.len());
    lemma_visit_keeps(None, groups, folders.len());
    lemma_visit_parents_first(None, groups, folders.len(), folders);
    lemma_visit_excludes(None, groups, folders.len());
    assert forall|f: MailFolder| grouped(first.1).count(f) == 0 by {
        lemma_left_over_empty(folders, rank, first.0, first.1, f);
    }
    assert(grouped(first.1) =~= Multiset::empty());
    assert(first.0.to_multiset() =~= folders.to_multiset());
    assert(first.0.len() == first.0.to_multiset().len());
    assert(folders.len() == folders.to_multiset().len());
    lemma_tree_order_is_permutation(folders);
    let r = folder_tree_order(folders);
    assert(r.len() == r.to_multiset().len());
}

proof fn lemma_group_count(folders: Seq<MailFolder>, all: Seq<MailFolder>)
    ensures
        group_by_parent(folders, all).len() <= folders.len(),
        sort_groups(group_by_parent(folders, all)).len() <= folders.len(),
    decreases folders.len(),
{
    if folders.len() > 0 {
        lemma_group_count(folders.drop_last(), all);
        let prev = group_by_parent(folders.drop_last(), all);
        lemma_find_group_range(prev, effective_parent(folders.last(), all));
    }
}

/// Special folders rank first, in the fixed order inbox, sent, drafts,
/// archive, spam, trash, all mail, and every folder with a role before every
/// folder without one: among siblings a folder without a role sorts after one
/// with a role, never before it.
pub proof fn lemma_role_order(a: MailFolder, b: MailFolder)
    ensures
        role_rank(Some(MailFolderRole::Inbox)) < role_rank(Some(MailFolderRole::Sent)),
        role_rank(Some(MailFolderRole::Sent)) < role_rank(Some(MailFolderRole::Drafts)),
        role_rank(Some(MailFolderRole::Drafts)) < role_rank(Some(MailFolderRole::Archive)),
        role_rank(Some(MailFolderRole::Archive)) < role_rank(Some(MailFolderRole::Spam)),
        role_rank(Some(MailFolderRole::Spam)) < role_rank(Some(MailFolderRole::Trash)),
        role_rank(Some(MailFolderRole::Trash)) < role_rank(Some(MailFolderRole::AllMail)),
        forall|r: MailFolderRole| #[trigger] role_rank(Some(r)) < role_rank(None),
        a.role is Some && b.role is None ==> folder_after(b, a) && !folder_after(a, b),
{
}

/// After the sibling sort, no folder with a role comes after a folder
/// without one.
pub proof fn lemma_special_folders_first(folders: Seq<MailFolder>)
    ensures
        forall|i: int, j: int|
            0 <= i < j < folders.len() && (#[trigger] sort_stable(folders, folder_after_fn())[j]).role is Some
                ==> (#[trigger] sort_stable(folders, folder_after_fn())[i]).role is Some,
{
    lemma_sibling_sort_law(folders);
    let s = sort_stable(folders, folder_after_fn());
    assert(s.len() == folders.len()) by {
        broadcast use vstd::seq_lib::group_to_multiset_ensures;

        assert(s.to_multiset().len() == folders.to_multiset().len());
    }
    assert forall|i: int, j: int| 0 <= i < j < folders.len() && (#[trigger] s[j]).role is Some implies (
    #[trigger] s[i]).role is Some by {
        assert(!folder_after_fn()(s[i], s[j]));
    }
}

} // verus!
