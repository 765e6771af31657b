//! The music folder tree as rows, and the counters and durations that the
//! music pages show.

use vstd::prelude::*;
use crate::mail_model::{clone_opt, opt_view};
use crate::order::{
    lex_order, lex_compare, sort_stable, lemma_insert_stable_at, lemma_sort_stable_step,
    lemma_lex_order_antisymmetric, lemma_lex_order_transitive, lemma_lex_order_zero, lemma_sort_stable_multiset,
    lemma_lex_weak, lemma_sort_stable_sorted, sorted_by, strict_weak,
};
use crate::text::{chars_of, concat2, decimal, i64_to_decimal, owned, signed_decimal, trim, u64_to_decimal, views};

verus! {

broadcast use vstd::string::group_string_axioms;

/// Full Unicode lower case of a string, as `str::to_lowercase` gives it.
/// Named, not defined here: it is a function of the string alone.
pub uninterp spec fn unicode_lowercase(s: Seq<char>) -> Seq<char>;

/// Lower-cases a string.
///
/// Trusted: calls `str::to_lowercase`. Claimed: the result is
/// `unicode_lowercase` of the input.
#[verifier::external_body]
pub(crate) fn to_lowercase(s: &str) -> (r: String)
    ensures
        r@ == unicode_lowercase(s@),
{
    s.to_lowercase()
}

/// A folder of the music library.
pub struct MusicFolder {
    pub folder_id: String,
    pub parent_folder_id: Option<String>,
    pub name: String,
}

impl MusicFolder {
    /// A field-by-field copy.
    pub fn duplicate(&self) -> (r: MusicFolder)
        ensures
            r == *self,
    {
        MusicFolder {
            folder_id: self.folder_id.clone(),
            parent_folder_id: clone_opt(&self.parent_folder_id),
            name: self.name.clone(),
        }
    }
}

/// Whether folder `a` is listed after folder `b`: by lower-cased name.
pub open spec fn music_folder_after(a: MusicFolder, b: MusicFolder) -> bool {
    lex_order(unicode_lowercase(a.name@), unicode_lowercase(b.name@)) > 0
}

/// The folder order as a relation that the stable sort takes.
pub open spec fn music_folder_after_fn() -> spec_fn(MusicFolder, MusicFolder) -> bool {
    |a: MusicFolder, b: MusicFolder| music_folder_after(a, b)
}

/// The folders directly under `parent` (`None` for the top level), in input
/// order.
pub open spec fn children_of(folders: Seq<MusicFolder>, parent: Option<Seq<char>>) -> Seq<MusicFolder> {
    folders.filter(|f: MusicFolder| opt_view(f.parent_folder_id) == parent)
}

/// The folders directly under `parent`, sorted by name.
pub open spec fn sorted_children(folders: Seq<MusicFolder>, parent: Option<Seq<char>>) -> Seq<MusicFolder> {
    sort_stable(children_of(folders, parent), music_folder_after_fn())
}

/// The rows below `parent`: each child at `depth`, followed by its own rows
/// when it is expanded. `fuel` bounds the nesting; a tree of `n` folders
/// needs at most `n`.
pub open spec fn folder_rows(
    folders: Seq<MusicFolder>,
    expanded: Seq<Seq<char>>,
    parent: Option<Seq<char>>,
    depth: nat,
    fuel: nat,
) -> Seq<(MusicFolder, nat)>
    decreases fuel, 1nat, 0nat,
{
    if fuel == 0 {
        Seq::empty()
    } else {
        child_rows(sorted_children(folders, parent), folders, expanded, depth, fuel)
    }
}

/// The rows of `list` and their expanded descendants.
pub open spec fn child_rows(
    list: Seq<MusicFolder>,
    folders: Seq<MusicFolder>,
    expanded: Seq<Seq<char>>,
    depth: nat,
    fuel: nat,
) -> Seq<(MusicFolder, nat)>
    decreases fuel, 0nat, list.len(),
{
    if list.len() == 0 || fuel == 0 {
        Seq::empty()
    } else {
        let c = list[0];
        let below = if expanded.contains(c.folder_id@) {
            folder_rows(folders, expanded, Some(c.folder_id@), depth + 1, (fuel - 1) as nat)
        } else {
            Seq::empty()
        };
        seq![(c, depth)] + below + child_rows(list.drop_first(), folders, expanded, depth, fuel)
    }
}

/// The rows of the music folder tree: top-level folders first, each followed
/// by its children when expanded, siblings by lower-cased name.
pub open spec fn visible_rows(folders: Seq<MusicFolder>, expanded: Seq<Seq<char>>) -> Seq<(MusicFolder, nat)> {
    folder_rows(folders, expanded, None, 0, folders.len())
}

/// The views of rows, for comparison with the spec.
pub open spec fn rows_view(rows: Seq<(MusicFolder, usize)>) -> Seq<(MusicFolder, nat)> {
    rows.map_values(|r: (MusicFolder, usize)| (r.0, r.1 as nat))
}

fn contains_id(v: &Vec<String>, id: &String) -> (r: bool)
    ensures
        r == views(v@).contains(id@),
{
    let mut i: usize = 0;
    while i < v.len()
        invariant
            i <= v.len(),
            forall|j: int| 0 <= j < i ==> v@[j]@ != id@,
        decreases v.len() - i,
    {
        if v[i].eq(id) {
            assert(views(v@)[i as int] == id@);
            return true;
        }
        i = i + 1;
    }
    false
}

fn sorted_children_of(folders: &Vec<MusicFolder>, parent: &Option<String>) -> (r: Vec<MusicFolder>)
    ensures
        r@ == sorted_children(folders@, opt_view(*parent)),
{
    let ghost pv = opt_view(*parent);
    let mut kids: Vec<MusicFolder> = Vec::new();
    let mut i: usize = 0;
    while i < folders.len()
        invariant
            i <= folders.len(),
            pv == opt_view(*parent),
            kids@ == children_of(folders@.take(i as int), pv),
        decreases folders.len() - i,
    {
        let f = folders[i].duplicate();
        let same = match (&f.parent_folder_id, parent) {
            (Some(a), Some(b)) => a.eq(b),
            (None, None) => true,
            _ => false,
        };
        assert(folders@.take(i + 1).drop_last() =~= folders@.take(i as int));
        proof {
            reveal_with_fuel(Seq::filter, 1);
        }
        if same {
            kids.push(f);
        }
        i = i + 1;
    }
    assert(folders@.take(folders.len() as int) =~= folders@);
    let mut out: Vec<MusicFolder> = Vec::new();
    let mut keys: Vec<Vec<char>> = Vec::new();
    let mut k: usize = 0;
    while k < kids.len()
        invariant
            k <= kids.len(),
            out.len() == keys.len(),
            forall|j: int| 0 <= j < out.len() ==> (#[trigger] keys@[j])@ == unicode_lowercase(out@[j].name@),
            out@ == sort_stable(kids@.take(k as int), music_folder_after_fn()),
        decreases kids.len() - k,
    {
        let x = kids[k].duplicate();
        let xk = chars_of(to_lowercase(x.name.as_str()).as_str());
        let mut j: usize = out.len();
        while j > 0 && lex_compare(&keys[j - 1], &xk) > 0
            invariant
                j <= out.len(),
                out.len() == keys.len(),
                xk@ == unicode_lowercase(x.name@),
                forall|m: int| 0 <= m < out.len() ==> (#[trigger] keys@[m])@ == unicode_lowercase(out@[m].name@),
                forall|m: int| j <= m < out.len() ==> music_folder_after(#[trigger] out@[m], x),
            decreases j,
        {
            j = j - 1;
        }
        proof {
            lemma_insert_stable_at(out@, x, music_folder_after_fn(), j as int);
            lemma_sort_stable_step(kids@, music_folder_after_fn(), k as int);
        }
        let ghost before = out@;
        let ghost kbefore = keys@;
        out.insert(j, x);
        keys.insert(j, xk);
        assert(out@ =~= before.take(j as int).push(x) + before.skip(j as int));
        assert forall|m: int| 0 <= m < out.len() implies (#[trigger] keys@[m])@ == unicode_lowercase(out@[m].name@) by {
            if m < j {
                assert(keys@[m] == kbefore[m]);
                assert(out@[m] == before[m]);
            } else if m > j {
                assert(keys@[m] == kbefore[m - 1]);
                assert(out@[m] == before[m - 1]);
            }
        }
        k = k + 1;
    }
    assert(kids@.take(kids.len() as int) =~= kids@);
    out
}

fn append_folder_rows(
    folders: &Vec<MusicFolder>,
    expanded: &Vec<String>,
    parent: &Option<String>,
    depth: usize,
    fuel: usize,
    rows: &mut Vec<(MusicFolder, usize)>,
)
    requires
        depth + fuel <= usize::MAX,
    ensures
        rows_view(final(rows)@) == rows_view(old(rows)@) + folder_rows(
            folders@,
            views(expanded@),
            opt_view(*parent),
            depth as nat,
            fuel as nat,
        ),
    decreases fuel,
{
    if fuel == 0 {
        assert(rows_view(rows@) =~= rows_view(old(rows)@) + Seq::<(MusicFolder, nat)>::empty());
        return;
    }
    let kids = sorted_children_of(folders, parent);
    let ghost all = kids@;
    let ghost ex = views(expanded@);
    let mut k: usize = 0;
    assert(all.skip(0) =~= all);
    while k < kids.len()
        invariant
            0 < fuel,
            depth + fuel <= usize::MAX,
            k <= kids.len(),
            kids@ == all,
            ex == views(expanded@),
            rows_view(old(rows)@) + child_rows(all, folders@, ex, depth as nat, fuel as nat) == rows_view(
                rows@,
            ) + child_rows(all.skip(k as int), folders@, ex, depth as nat, fuel as nat),
        decreases kids.len() - k,
    {
        let ghost suffix = all.skip(k as int);
        let ghost before = rows_view(rows@);
        let c = kids[k].duplicate();
        assert(suffix[0] == c);
        assert(suffix.drop_first() =~= all.skip(k + 1));
        let open = contains_id(expanded, &c.folder_id);
        let child: Option<String> = Some(c.folder_id.clone());
        rows.push((c, depth));
        assert(rows_view(rows@) =~= before.push((c, depth as nat)));
        if open {
            append_folder_rows(folders, expanded, &child, depth + 1, fuel - 1, rows);
        }
        k = k + 1;
        proof {
            let below = if ex.contains(c.folder_id@) {
                folder_rows(folders@, ex, Some(c.folder_id@), (depth + 1) as nat, (fuel - 1) as nat)
            } else {
                Seq::empty()
            };
            assert(rows_view(rows@) =~= before + seq![(c, depth as nat)] + below);
            let rest = child_rows(all.skip(k as int), folders@, ex, depth as nat, fuel as nat);
            assert(child_rows(suffix, folders@, ex, depth as nat, fuel as nat) == seq![(c, depth as nat)] + below + rest);
            assert(before + (seq![(c, depth as nat)] + below + rest) =~= rows_view(rows@) + rest);
        }
    }
    assert(all.skip(kids.len() as int).len() == 0);
    assert(rows_view(old(rows)@) + child_rows(all, folders@, ex, depth as nat, fuel as nat) =~= rows_view(
        rows@,
    ));
}

/// The rows of the music folder tree, each with its depth.
pub fn visible_folder_rows(folders: &Vec<MusicFolder>, expanded: &Vec<String>) -> (r: Vec<(MusicFolder, usize)>)
    ensures
        rows_view(r@) == visible_rows(folders@, views(expanded@)),
{
    let mut rows: Vec<(MusicFolder, usize)> = Vec::new();
    let top: Option<String> = None;
    append_folder_rows(folders, expanded, &top, 0, folders.len(), &mut rows);
    assert(rows_view(Seq::<(MusicFolder, usize)>::empty()) =~= Seq::<(MusicFolder, nat)>::empty());
    assert(rows_view(rows@) =~= visible_rows(folders@, views(expanded@)));
    rows
}

/// How many tracks a folder holds: `1 track` or `n tracks`.
pub open spec fn track_count_text(count: i64) -> Seq<char> {
    if count == 1 {
        "1 track"@
    } else {
        signed_decimal(count as int) + " tracks"@
    }
}

/// How many tracks a folder holds.
pub fn format_track_count(count: i64) -> (r: String)
    ensures
        r@ == track_count_text(count),
{
    if count == 1 {
        owned("1 track")
    } else {
        concat2(i64_to_decimal(count).as_str(), " tracks")
    }
}

/// A whole number of seconds as `m:ss`.
pub open spec fn minutes_seconds_text(total: u64) -> Seq<char> {
    let s = total % 60;
    decimal((total / 60) as nat) + ":"@ + if s < 10 {
        "0"@ + decimal(s as nat)
    } else {
        decimal(s as nat)
    }
}

/// A whole number of seconds as `m:ss`, the form of track durations and
/// playback positions.
pub fn format_minutes_seconds(total: u64) -> (r: String)
    ensures
        r@ == minutes_seconds_text(total),
{
    let m = u64_to_decimal(total / 60);
    let s = total % 60;
    let sec = if s < 10 {
        concat2("0", u64_to_decimal(s).as_str())
    } else {
        u64_to_decimal(s)
    };
    crate::text::concat3(m.as_str(), ":", sec.as_str())
}

/// A music category: a named set of library folders.
pub struct MusicCategory {
    pub id: String,
    pub name: String,
    pub folder_ids: Vec<String>,
}

/// Whether category `c` holds the folder `folder_id`.
pub open spec fn holds_folder(c: MusicCategory, folder_id: Seq<char>) -> bool {
    views(c.folder_ids@).contains(folder_id)
}

/// The lower-cased name by which categories are ordered.
pub open spec fn category_key(c: MusicCategory) -> Seq<char> {
    unicode_lowercase(c.name@)
}

/// Whether `i` is the category that the picker shows for a folder: of the
/// categories that hold the folder, the first in name order (lower-cased),
/// and of equal names the first listed.
pub open spec fn is_folder_category(cats: Seq<MusicCategory>, folder_id: Seq<char>, i: int) -> bool {
    &&& 0 <= i < cats.len()
    &&& holds_folder(cats[i], folder_id)
    &&& forall|j: int|
        0 <= j < cats.len() && holds_folder(#[trigger] cats[j], folder_id) ==> lex_order(
            category_key(cats[i]),
            category_key(cats[j]),
        ) <= 0
    &&& forall|j: int|
        0 <= j < i && holds_folder(#[trigger] cats[j], folder_id) ==> lex_order(
            category_key(cats[i]),
            category_key(cats[j]),
        ) < 0
}

fn category_holds(c: &MusicCategory, folder_id: &str) -> (r: bool)
    ensures
        r == holds_folder(*c, folder_id@),
{
    let mut k: usize = 0;
    while k < c.folder_ids.len()
        invariant
            k <= c.folder_ids.len(),
            forall|j: int| 0 <= j < k ==> c.folder_ids@[j]@ != folder_id@,
        decreases c.folder_ids.len() - k,
    {
        if crate::text::str_eq(c.folder_ids[k].as_str(), folder_id) {
            assert(views(c.folder_ids@)[k as int] == folder_id@);
            return true;
        }
        k = k + 1;
    }
    assert forall|j: int| 0 <= j < c.folder_ids.len() implies views(c.folder_ids@)[j] != folder_id@ by {}
    false
}

/// The category that the category picker shows while a folder is browsed:
/// the first by lower-cased name among those that hold the folder.
pub fn category_for_folder(categories: &Vec<MusicCategory>, folder_id: &str) -> (r: Option<String>)
    ensures
        match r {
            Some(id) => exists|i: int| is_folder_category(categories@, folder_id@, i) && id@ == categories@[i].id@,
            None => forall|j: int| 0 <= j < categories.len() ==> !holds_folder(#[trigger] categories@[j], folder_id@),
        },
{
    let ghost cats = categories@;
    let mut best: Option<usize> = None;
    let mut best_key: Vec<char> = Vec::new();
    let mut i: usize = 0;
    while i < categories.len()
        invariant
            i <= categories.len(),
            cats == categories@,
            match best {
                Some(b) => {
                    &&& b < i
                    &&& best_key@ == category_key(cats[b as int])
                    &&& holds_folder(cats[b as int], folder_id@)
                    &&& forall|j: int|
                        0 <= j < i && holds_folder(#[trigger] cats[j], folder_id@) ==> lex_order(
                            category_key(cats[b as int]),
                            category_key(cats[j]),
                        ) <= 0
                    &&& forall|j: int|
                        0 <= j < b && holds_folder(#[trigger] cats[j], folder_id@) ==> lex_order(
                            category_key(cats[b as int]),
                            category_key(cats[j]),
                        ) < 0
                },
                None => forall|j: int| 0 <= j < i ==> !holds_folder(#[trigger] cats[j], folder_id@),
            },
        decreases categories.len() - i,
    {
        let c = &categories[i];
        if category_holds(c, folder_id) {
            let key = chars_of(to_lowercase(c.name.as_str()).as_str());
            let take = match best {
                None => true,
                Some(_) => lex_compare(&key, &best_key) < 0,
            };
            if take {
                proof {
                    lemma_lex_order_antisymmetric(category_key(cats[i as int]), category_key(cats[i as int]));
                    if let Some(b) = best {
                        let kb = category_key(cats[b as int]);
                        let ki = category_key(cats[i as int]);
                        assert forall|j: int| 0 <= j < i + 1 && holds_folder(#[trigger] cats[j], folder_id@) implies lex_order(
                            ki,
                            category_key(cats[j]),
                        ) < 0 || j == i by {
                            if j < i {
                                let kj = category_key(cats[j]);
                                lemma_lex_order_transitive(ki, kb, kj);
                                if lex_order(ki, kj) == 0 {
                                    lemma_lex_order_zero(ki, kj);
                                    lemma_lex_order_antisymmetric(kb, kj);
                                }
                            }
                        }
                    }
                }
                best = Some(i);
                best_key = key;
            } else {
                proof {
                    let b = best.unwrap();
                    lemma_lex_order_antisymmetric(category_key(cats[i as int]), category_key(cats[b as int]));
                }
            }
        }
        i = i + 1;
    }
    match best {
        Some(b) => {
            assert(is_folder_category(cats, folder_id@, b as int));
            Some(categories[b].id.clone())
        },
        None => None,
    }
}

/// A category as plain values: id, name and the ids of its folders.
pub type CategoryRow = (Seq<char>, Seq<char>, Seq<Seq<char>>);

/// The plain values of a category.
pub open spec fn category_row(c: MusicCategory) -> CategoryRow {
    (c.id@, c.name@, views(c.folder_ids@))
}

/// The plain values of categories.
pub open spec fn category_rows(cs: Seq<MusicCategory>) -> Seq<CategoryRow> {
    cs.map_values(|c: MusicCategory| category_row(c))
}

/// Whether category `a` is listed after category `b`: by lower-cased name.
pub open spec fn category_row_after(a: CategoryRow, b: CategoryRow) -> bool {
    lex_order(unicode_lowercase(a.1), unicode_lowercase(b.1)) > 0
}

/// The category order as a relation that the stable sort takes.
pub open spec fn category_row_after_fn() -> spec_fn(CategoryRow, CategoryRow) -> bool {
    |a: CategoryRow, b: CategoryRow| category_row_after(a, b)
}

/// The category list after a new category is created: the new one added,
/// and the whole list sorted stably by lower-cased name.
pub fn categories_with(cats: Vec<MusicCategory>, added: MusicCategory) -> (r: Vec<MusicCategory>)
    ensures
        category_rows(r@) == sort_stable(category_rows(cats@.push(added)), category_row_after_fn()),
{
    let ghost all = cats@.push(added);
    let ghost rows = category_rows(all);
    let mut input = cats;
    input.push(added);
    assert(input@ =~= all.skip(0));
    let mut out: Vec<MusicCategory> = Vec::new();
    let mut keys: Vec<Vec<char>> = Vec::new();
    let mut k: usize = 0;
    let n = input.len();
    while k < n
        invariant
            k <= n,
            n == all.len(),
            rows == category_rows(all),
            input@ == all.skip(k as int),
            out.len() == keys.len(),
            forall|j: int| 0 <= j < out.len() ==> (#[trigger] keys@[j])@ == unicode_lowercase(out@[j].name@),
            category_rows(out@) == sort_stable(rows.take(k as int), category_row_after_fn()),
        decreases n - k,
    {
        let x = input.remove(0);
        assert(x == all[k as int]);
        assert(input@ =~= all.skip(k + 1));
        let xk = chars_of(to_lowercase(x.name.as_str()).as_str());
        let ghost xr = category_row(x);
        let mut j: usize = out.len();
        while j > 0 && lex_compare(&keys[j - 1], &xk) > 0
            invariant
                j <= out.len(),
                out.len() == keys.len(),
                xk@ == unicode_lowercase(x.name@),
                xr == category_row(x),
                forall|m: int| 0 <= m < out.len() ==> (#[trigger] keys@[m])@ == unicode_lowercase(out@[m].name@),
                forall|m: int| j <= m < out.len() ==> category_row_after(#[trigger] category_rows(out@)[m], xr),
            decreases j,
        {
            j = j - 1;
        }
        proof {
            lemma_insert_stable_at(category_rows(out@), xr, category_row_after_fn(), j as int);
            lemma_sort_stable_step(rows, category_row_after_fn(), k as int);
        }
        let ghost before = out@;
        let ghost kbefore = keys@;
        out.insert(j, x);
        keys.insert(j, xk);
        assert(category_rows(out@) =~= category_rows(before).take(j as int).push(xr) + category_rows(before).skip(
            j as int,
        ));
        assert forall|m: int| 0 <= m < out.len() implies (#[trigger] keys@[m])@ == unicode_lowercase(out@[m].name@) by {
            if m < j {
                assert(keys@[m] == kbefore[m]);
                assert(out@[m] == before[m]);
            } else if m > j {
                assert(keys@[m] == kbefore[m - 1]);
                assert(out@[m] == before[m - 1]);
            }
        }
        k = k + 1;
    }
    assert(rows.take(n as int) =~= rows);
    out
}

proof fn lemma_category_order_weak()
    ensures
        strict_weak(category_row_after_fn()),
{
    let gt = category_row_after_fn();
    assert forall|a: CategoryRow, b: CategoryRow| #[trigger] gt(a, b) implies !gt(b, a) by {
        lemma_lex_order_antisymmetric(unicode_lowercase(a.1), unicode_lowercase(b.1));
    }
    assert forall|a: CategoryRow, b: CategoryRow, c: CategoryRow| #![trigger gt(a, b), gt(b, c)]
        !gt(a, b) && !gt(b, c) implies !gt(a, c) by {
        let (na, nb, nc) = (unicode_lowercase(a.1), unicode_lowercase(b.1), unicode_lowercase(c.1));
        lemma_lex_weak(na, nb, nc);
    }
}

/// Creating a category keeps every category, adds the new one once, and
/// leaves the list in name order (lower-cased).
pub proof fn lemma_categories_with_law(cats: Seq<MusicCategory>, added: MusicCategory)
    ensures
        sort_stable(category_rows(cats.push(added)), category_row_after_fn()).to_multiset() == category_rows(
            cats,
        ).to_multiset().insert(category_row(added)),
        sorted_by(sort_stable(category_rows(cats.push(added)), category_row_after_fn()), category_row_after_fn()),
{
    broadcast use vstd::seq_lib::group_to_multiset_ensures;

    let rows = category_rows(cats.push(added));
    assert(rows =~= category_rows(cats).push(category_row(added)));
    lemma_sort_stable_multiset(rows, category_row_after_fn());
    lemma_category_order_weak();
    lemma_sort_stable_sorted(rows, category_row_after_fn());
}

/// A category's folders after its box for `folder_id` is ticked or cleared:
/// clearing drops every copy of the folder, ticking adds it at the end unless
/// it is there already.
pub open spec fn toggled_folders(folder_ids: Seq<Seq<char>>, folder_id: Seq<char>, was_member: bool) -> Seq<Seq<char>> {
    if was_member {
        folder_ids.filter(|f: Seq<char>| f != folder_id)
    } else if folder_ids.contains(folder_id) {
        folder_ids
    } else {
        folder_ids.push(folder_id)
    }
}

/// The folder ids to send when the box of `folder_id` is toggled in a
/// category that held `folder_ids`.
pub fn toggle_category_folder(folder_ids: &Vec<String>, folder_id: &str, was_member: bool) -> (r: Vec<String>)
    ensures
        views(r@) == toggled_folders(views(folder_ids@), folder_id@, was_member),
{
    let ghost fv = views(folder_ids@);
    let mut out: Vec<String> = Vec::new();
    let mut found = false;
    let mut i: usize = 0;
    while i < folder_ids.len()
        invariant
            i <= folder_ids.len(),
            fv == views(folder_ids@),
            found == fv.take(i as int).contains(folder_id@),
            was_member ==> views(out@) == fv.take(i as int).filter(|f: Seq<char>| f != folder_id@),
            !was_member ==> views(out@) == fv.take(i as int),
        decreases folder_ids.len() - i,
    {
        let f = &folder_ids[i];
        let same = crate::text::str_eq(f.as_str(), folder_id);
        assert(fv.take(i + 1) =~= fv.take(i as int).push(fv[i as int]));
        proof {
            vstd::seq_lib::lemma_seq_contains_after_push(fv.take(i as int), fv[i as int], folder_id@);
            reveal_with_fuel(Seq::filter, 1);
            assert(fv.take(i + 1).drop_last() =~= fv.take(i as int));
        }
        let ghost before = views(out@);
        if !was_member || !same {
            out.push(f.clone());
            assert(views(out@) =~= before.push(f@));
        }
        if same {
            found = true;
        }
        i = i + 1;
    }
    assert(fv.take(folder_ids.len() as int) =~= fv);
    if !was_member && !found {
        let ghost before = views(out@);
        out.push(crate::text::owned(folder_id));
        assert(views(out@) =~= before.push(folder_id@));
    }
    out
}

/// The name of a new category: the typed text trimmed, or the folder's name
/// when that is blank; none when both are empty.
pub fn new_category_name(typed: &str, folder_name: &str) -> (r: Option<String>)
    ensures
        crate::mail_model::opt_view(r) == if trim(typed@).len() > 0 {
            Some(trim(typed@))
        } else if folder_name@.len() > 0 {
            Some(folder_name@)
        } else {
            None
        },
{
    let raw = crate::text::trim_str(typed);
    if !raw.as_str().is_empty() {
        Some(raw)
    } else if !folder_name.is_empty() {
        Some(crate::text::owned(folder_name))
    } else {
        None
    }
}

/// The error shown when creating category `name` fails: a name clash says
/// that the name exists, other errors are shown as the server gave them.
pub fn category_error_message(name: &str, error: &str) -> (r: String)
    ensures
        r@ == if error@ == "CONFLICT"@ {
            "A category named \""@ + name@ + "\" already exists"@
        } else {
            error@
        },
{
    if crate::text::str_eq(error, "CONFLICT") {
        crate::text::concat3("A category named \"", name, "\" already exists")
    } else {
        crate::text::owned(error)
    }
}

/// The ids of folders.
pub open spec fn folder_ids_of(folders: Seq<MusicFolder>) -> Seq<Seq<char>> {
    folders.map_values(|f: MusicFolder| f.folder_id@)
}

/// The fetched children of a folder that the list does not know yet, in the
/// order fetched.
pub open spec fn new_children(known: Seq<Seq<char>>, children: Seq<MusicFolder>) -> Seq<MusicFolder> {
    children.filter(|c: MusicFolder| !known.contains(c.folder_id@))
}

fn ids_contain(ids: &Vec<String>, id: &str) -> (r: bool)
    ensures
        r == views(ids@).contains(id@),
{
    let mut k: usize = 0;
    while k < ids.len()
        invariant
            k <= ids.len(),
            forall|j: int| 0 <= j < k ==> views(ids@)[j] != id@,
        decreases ids.len() - k,
    {
        if crate::text::str_eq(ids[k].as_str(), id) {
            assert(views(ids@)[k as int] == id@);
            return true;
        }
        k = k + 1;
    }
    false
}

/// A folder's expand button was pressed: an open folder closes, a closed one
/// opens. Returns whether its children must be fetched: on opening, unless
/// they were fetched already or are being fetched.
pub fn toggle_folder(expanded: &mut Vec<String>, loaded: &Vec<String>, loading: &Vec<String>, id: &str) -> (r: bool)
    ensures
        views(old(expanded)@).contains(id@) ==> !r && forall|x: Seq<char>|
            #[trigger] views(final(expanded)@).contains(x) == (views(old(expanded)@).contains(x) && x != id@),
        !views(old(expanded)@).contains(id@) ==> views(final(expanded)@) == views(old(expanded)@).push(id@)
            && r == !(views(loaded@).contains(id@) || views(loading@).contains(id@)),
{
    if ids_contain(expanded, id) {
        let ghost before = views(expanded@);
        let mut kept: Vec<String> = Vec::new();
        let mut k: usize = 0;
        while k < expanded.len()
            invariant
                k <= expanded.len(),
                before == views(expanded@),
                forall|x: Seq<char>| #[trigger] views(kept@).contains(x) == (before.take(k as int).contains(x) && x != id@),
            decreases expanded.len() - k,
        {
            let ghost kb = views(kept@);
            assert(before.take(k + 1) =~= before.take(k as int).push(before[k as int]));
            if !crate::text::str_eq(expanded[k].as_str(), id) {
                kept.push(expanded[k].clone());
                assert(views(kept@) =~= kb.push(before[k as int]));
                assert forall|x: Seq<char>| #[trigger] views(kept@).contains(x) == (before.take(k + 1).contains(x) && x != id@) by {
                    vstd::seq_lib::lemma_seq_contains_after_push(kb, before[k as int], x);
                    vstd::seq_lib::lemma_seq_contains_after_push(before.take(k as int), before[k as int], x);
                }
            } else {
                assert forall|x: Seq<char>| #[trigger] views(kept@).contains(x) == (before.take(k + 1).contains(x) && x != id@) by {
                    vstd::seq_lib::lemma_seq_contains_after_push(before.take(k as int), before[k as int], x);
                }
            }
            k = k + 1;
        }
        assert(before.take(before.len() as int) =~= before);
        *expanded = kept;
        return false;
    }
    let ghost before = views(expanded@);
    expanded.push(crate::text::owned(id));
    assert(views(expanded@) =~= before.push(id@));
    !(ids_contain(loaded, id) || ids_contain(loading, id))
}

/// The fetched children of a folder join the list: those whose id the list
/// does not know yet are added at the end, in the order fetched.
pub fn merge_child_folders(current: &mut Vec<MusicFolder>, children: Vec<MusicFolder>)
    ensures
        final(current)@ == old(current)@ + new_children(folder_ids_of(old(current)@), children@),
{
    let ghost known = folder_ids_of(current@);
    let ghost start = current@;
    let mut ids: Vec<String> = Vec::new();
    let mut k: usize = 0;
    while k < current.len()
        invariant
            k <= current.len(),
            known == folder_ids_of(current@),
            views(ids@) == known.take(k as int),
        decreases current.len() - k,
    {
        let ghost b = views(ids@);
        ids.push(current[k].folder_id.clone());
        assert(views(ids@) =~= b.push(known[k as int]));
        assert(known.take(k + 1) =~= known.take(k as int).push(known[k as int]));
        k = k + 1;
    }
    assert(known.take(known.len() as int) =~= known);
    let ghost all = children@;
    let mut rest = children;
    let n = rest.len();
    let mut i: usize = 0;
    assert(rest@ =~= all.skip(0));
    assert(all.take(0).filter(|c: MusicFolder| !known.contains(c.folder_id@)) =~= Seq::<MusicFolder>::empty());
    assert(current@ =~= start + all.take(0).filter(|c: MusicFolder| !known.contains(c.folder_id@)));
    while i < n
        invariant
            i <= n,
            n == all.len(),
            rest@ == all.skip(i as int),
            views(ids@) == known,
            current@ == start + all.take(i as int).filter(|c: MusicFolder| !known.contains(c.folder_id@)),
        decreases n - i,
    {
        let c = rest.remove(0);
        assert(c == all[i as int]);
        assert(rest@ =~= all.skip(i + 1));
        let ghost before = current@;
        let is_known = ids_contain(&ids, c.folder_id.as_str());
        proof {
            assert(all.take(i + 1).drop_last() =~= all.take(i as int));
            reveal_with_fuel(Seq::filter, 1);
        }
        if !is_known {
            current.push(c);
        }
        i = i + 1;
    }
    assert(all.take(n as int) =~= all);
}

/// The state of the music library's search: the number of the latest
/// search asked for, whether one is under way, and whether results are held.
pub struct MusicSearch {
    pub epoch: u32,
    pub loading: bool,
    pub has_results: bool,
}

/// The search text changed: a blank text drops the results and stops
/// waiting; any other text starts a new search number, returned to wait on
/// before the search is sent.
pub fn music_search_typed(s: &mut MusicSearch, query: &str) -> (r: Option<u32>)
    requires
        old(s).epoch < u32::MAX,
    ensures
        trim(query@).len() == 0 ==> r is None && !final(s).has_results && !final(s).loading
            && final(s).epoch == old(s).epoch,
        trim(query@).len() > 0 ==> r == Some((old(s).epoch + 1) as u32) && final(s).epoch == old(s).epoch + 1
            && final(s).loading && final(s).has_results == old(s).has_results,
{
    let q = crate::text::trim_str(query);
    if q.as_str().is_empty() {
        s.has_results = false;
        s.loading = false;
        return None;
    }
    s.loading = true;
    s.epoch = s.epoch + 1;
    Some(s.epoch)
}

/// The wait after typing is over for search `epoch`: whether to send it.
/// Only the latest search is sent; the others are dropped.
pub fn music_search_wait_over(s: &MusicSearch, epoch: u32) -> (r: bool)
    ensures
        r == (epoch == s.epoch),
{
    epoch == s.epoch
}

/// The reply to search `epoch` came back, with results or failed: whether
/// the page keeps the new results. Only the latest search wins: its results
/// replace what was shown and its reply ends the wait; a failure keeps what
/// was shown; a reply to an older search changes nothing.
pub fn music_search_reply(s: &mut MusicSearch, epoch: u32, ok: bool) -> (r: bool)
    ensures
        r == (ok && epoch == old(s).epoch),
        epoch == old(s).epoch ==> final(s).has_results == (old(s).has_results || ok) && !final(s).loading,
        epoch != old(s).epoch ==> final(s).has_results == old(s).has_results && final(s).loading == old(s).loading,
        final(s).epoch == old(s).epoch,
{
    if epoch != s.epoch {
        return false;
    }
    s.loading = false;
    if ok {
        s.has_results = true;
    }
    ok
}

/// Whether the page shows the search results in place of the artist grid:
/// only for a search text, once results have come.
pub fn shows_music_results(query: &str, s: &MusicSearch) -> (r: bool)
    ensures
        r == (trim(query@).len() > 0 && s.has_results),
{
    let q = crate::text::trim_str(query);
    !q.as_str().is_empty() && s.has_results
}

/// Every row of `rows` is a child of `parent` at `depth`, or sits under the
/// row of its parent folder: an earlier row, one level up, that is expanded.
pub open spec fn rows_under_parents(
    rows: Seq<(MusicFolder, nat)>,
    parent: Option<Seq<char>>,
    depth: nat,
    expanded: Seq<Seq<char>>,
) -> bool {
    forall|j: int|
        0 <= j < rows.len() ==> ((#[trigger] rows[j]).1 == depth && opt_view(rows[j].0.parent_folder_id) == parent)
            || exists|i: int|
            0 <= i < j && opt_view(rows[j].0.parent_folder_id) == Some((#[trigger] rows[i]).0.folder_id@)
                && rows[i].1 + 1 == rows[j].1 && expanded.contains(rows[i].0.folder_id@)
}

proof fn lemma_sorted_children_parent(folders: Seq<MusicFolder>, parent: Option<Seq<char>>)
    ensures
        forall|m: int|
            0 <= m < sorted_children(folders, parent).len() ==> opt_view(
                (#[trigger] sorted_children(folders, parent)[m]).parent_folder_id,
            ) == parent,
{
    broadcast use vstd::seq_lib::group_to_multiset_ensures;

    let kids = children_of(folders, parent);
    let sorted = sorted_children(folders, parent);
    lemma_sort_stable_multiset(kids, music_folder_after_fn());
    assert forall|m: int| 0 <= m < sorted.len() implies opt_view((#[trigger] sorted[m]).parent_folder_id) == parent by {
        let x = sorted[m];
        assert(sorted.to_multiset().count(x) > 0);
        assert(kids.to_multiset().count(x) > 0);
        let k = choose|k: int| 0 <= k < kids.len() && kids[k] == x;
        folders.lemma_filter_pred(|f: MusicFolder| opt_view(f.parent_folder_id) == parent, k);
    }
}

proof fn lemma_folder_rows_under(
    folders: Seq<MusicFolder>,
    expanded: Seq<Seq<char>>,
    parent: Option<Seq<char>>,
    depth: nat,
    fuel: nat,
)
    ensures
        rows_under_parents(folder_rows(folders, expanded, parent, depth, fuel), parent, depth, expanded),
    decreases fuel, 1nat, 0nat,
{
    if fuel > 0 {
        lemma_sorted_children_parent(folders, parent);
        lemma_child_rows_under(sorted_children(folders, parent), folders, expanded, parent, depth, fuel);
    }
}

proof fn lemma_child_rows_under(
    list: Seq<MusicFolder>,
    folders: Seq<MusicFolder>,
    expanded: Seq<Seq<char>>,
    parent: Option<Seq<char>>,
    depth: nat,
    fuel: nat,
)
    requires
        forall|m: int| 0 <= m < list.len() ==> opt_view((#[trigger] list[m]).parent_folder_id) == parent,
    ensures
        rows_under_parents(child_rows(list, folders, expanded, depth, fuel), parent, depth, expanded),
    decreases fuel, 0nat, list.len(),
{
    if list.len() > 0 && fuel > 0 {
        let c = list[0];
        let open = expanded.contains(c.folder_id@);
        let below = if open {
            folder_rows(folders, expanded, Some(c.folder_id@), depth + 1, (fuel - 1) as nat)
        } else {
            Seq::empty()
        };
        if open {
            lemma_folder_rows_under(folders, expanded, Some(c.folder_id@), depth + 1, (fuel - 1) as nat);
        }
        assert forall|m: int| 0 <= m < list.drop_first().len() implies opt_view(
            (#[trigger] list.drop_first()[m]).parent_folder_id,
        ) == parent by {
            assert(list.drop_first()[m] == list[m + 1]);
        }
        let rest = child_rows(list.drop_first(), folders, expanded, depth, fuel);
        lemma_child_rows_under(list.drop_first(), folders, expanded, parent, depth, fuel);
        let out = seq![(c, depth)] + below + rest;
        assert(child_rows(list, folders, expanded, depth, fuel) == out);
        let lb = below.len() as int;
        assert forall|j: int| 0 <= j < out.len() implies ((#[trigger] out[j]).1 == depth && opt_view(
            out[j].0.parent_folder_id,
        ) == parent) || exists|i: int|
            0 <= i < j && opt_view(out[j].0.parent_folder_id) == Some((#[trigger] out[i]).0.folder_id@) && out[i].1
                + 1 == out[j].1 && expanded.contains(out[i].0.folder_id@) by {
            if j == 0 {
                assert(out[0] == (c, depth));
            } else if j <= lb {
                assert(out[j] == below[j - 1]);
                assert(out[0] == (c, depth));
                if !(below[j - 1].1 == depth + 1 && opt_view(below[j - 1].0.parent_folder_id) == Some(c.folder_id@)) {
                    let i = choose|i: int|
                        0 <= i < j - 1 && opt_view(below[j - 1].0.parent_folder_id) == Some(
                            (#[trigger] below[i]).0.folder_id@,
                        ) && below[i].1 + 1 == below[j - 1].1 && expanded.contains(below[i].0.folder_id@);
                    assert(out[i + 1] == below[i]);
                }
            } else {
                let jr = j - 1 - lb;
                assert(out[j] == rest[jr]);
                if !(rest[jr].1 == depth && opt_view(rest[jr].0.parent_folder_id) == parent) {
                    let i = choose|i: int|
                        0 <= i < jr && opt_view(rest[jr].0.parent_folder_id) == Some((#[trigger] rest[i]).0.folder_id@)
                            && rest[i].1 + 1 == rest[jr].1 && expanded.contains(rest[i].0.folder_id@);
                    assert(out[i + 1 + lb] == rest[i]);
                }
            }
        }
    }
}

/// A folder shows below the top level only under its parent: its row comes
/// after the row of its parent folder, one level deeper, and that folder is
/// expanded. Top-level rows are folders without a parent, at depth zero.
pub proof fn lemma_rows_under_parents(folders: Seq<MusicFolder>, expanded: Seq<Seq<char>>)
    ensures
        rows_under_parents(visible_rows(folders, expanded), None, 0, expanded),
{
    lemma_folder_rows_under(folders, expanded, None, 0, folders.len());
}

/// The folder view's reload after file changes: the number of the latest
/// change, and how many reloads have been asked for.
pub struct DebouncedReload {
    pub epoch: u32,
    pub refresh: u32,
}

/// A file was created, changed or deleted: a new change number, returned to
/// wait on.
pub fn reload_requested(d: &mut DebouncedReload) -> (r: u32)
    requires
        old(d).epoch < u32::MAX,
    ensures
        r == old(d).epoch + 1,
        final(d).epoch == r,
        final(d).refresh == old(d).refresh,
{
    d.epoch = d.epoch + 1;
    d.epoch
}

/// The wait of change `epoch` ran out: a burst of changes reloads the list
/// once, after the last of them. Whether it reloads.
pub fn reload_wait_over(d: &mut DebouncedReload, epoch: u32) -> (r: bool)
    requires
        old(d).refresh < u32::MAX,
    ensures
        r == (epoch == old(d).epoch),
        r ==> final(d).refresh == old(d).refresh + 1,
        !r ==> final(d).refresh == old(d).refresh,
        final(d).epoch == old(d).epoch,
{
    if epoch != d.epoch {
        return false;
    }
    d.refresh = d.refresh + 1;
    true
}

/// Rows in which a folder and the next row at its depth, with only deeper
/// rows between them, come in order of their lower-cased names: the first
/// name does not sort after the second.
pub open spec fn siblings_in_name_order(rows: Seq<(MusicFolder, nat)>) -> bool {
    forall|i: int, j: int|
        0 <= i < j < rows.len() && (#[trigger] rows[i]).1 == (#[trigger] rows[j]).1 && (forall|k: int|
            i < k < j ==> (#[trigger] rows[k]).1 > rows[i].1) ==> lex_order(
            unicode_lowercase(rows[i].0.name@),
            unicode_lowercase(rows[j].0.name@),
        ) <= 0
}

/// Every row is at `depth` or deeper.
pub open spec fn rows_at_least(rows: Seq<(MusicFolder, nat)>, depth: nat) -> bool {
    forall|k: int| 0 <= k < rows.len() ==> (#[trigger] rows[k]).1 >= depth
}

proof fn lemma_music_order_weak()
    ensures
        strict_weak(music_folder_after_fn()),
{
    let gt = music_folder_after_fn();
    assert forall|a: MusicFolder, b: MusicFolder| #[trigger] gt(a, b) implies !gt(b, a) by {
        lemma_lex_order_antisymmetric(unicode_lowercase(a.name@), unicode_lowercase(b.name@));
    }
    assert forall|a: MusicFolder, b: MusicFolder, c: MusicFolder| #![trigger gt(a, b), gt(b, c)]
        !gt(a, b) && !gt(b, c) implies !gt(a, c) by {
        lemma_lex_weak(unicode_lowercase(a.name@), unicode_lowercase(b.name@), unicode_lowercase(c.name@));
    }
}

proof fn lemma_folder_rows_sorted(
    folders: Seq<MusicFolder>,
    expanded: Seq<Seq<char>>,
    parent: Option<Seq<char>>,
    depth: nat,
    fuel: nat,
)
    ensures
        siblings_in_name_order(folder_rows(folders, expanded, parent, depth, fuel)),
        rows_at_least(folder_rows(folders, expanded, parent, depth, fuel), depth),
    decreases fuel, 1nat, 0nat,
{
    if fuel > 0 {
        lemma_music_order_weak();
        lemma_sort_stable_sorted(children_of(folders, parent), music_folder_after_fn());
        lemma_child_rows_sorted(sorted_children(folders, parent), folders, expanded, depth, fuel);
    }
}

proof fn lemma_child_rows_sorted(
    list: Seq<MusicFolder>,
    folders: Seq<MusicFolder>,
    expanded: Seq<Seq<char>>,
    depth: nat,
    fuel: nat,
)
    requires
        sorted_by(list, music_folder_after_fn()),
    ensures
        siblings_in_name_order(child_rows(list, folders, expanded, depth, fuel)),
        rows_at_least(child_rows(list, folders, expanded, depth, fuel), depth),
        list.len() > 0 && fuel > 0 ==> child_rows(list, folders, expanded, depth, fuel).len() > 0 && child_rows(
            list,
            folders,
            expanded,
            depth,
            fuel,
        )[0] == (list[0], depth),
    decreases fuel, 0nat, list.len(),
{
    if list.len() > 0 && fuel > 0 {
        let c = list[0];
        let open = expanded.contains(c.folder_id@);
        let below = if open {
            folder_rows(folders, expanded, Some(c.folder_id@), depth + 1, (fuel - 1) as nat)
        } else {
            Seq::empty()
        };
        if open {
            lemma_folder_rows_sorted(folders, expanded, Some(c.folder_id@), depth + 1, (fuel - 1) as nat);
        }
        let tail = list.drop_first();
        assert forall|i: int, j: int| 0 <= i < j < tail.len() implies !music_folder_after_fn()(
            #[trigger] tail[i],
            #[trigger] tail[j],
        ) by {
            assert(tail[i] == list[i + 1]);
            assert(tail[j] == list[j + 1]);
        }
        lemma_child_rows_sorted(tail, folders, expanded, depth, fuel);
        let rest = child_rows(tail, folders, expanded, depth, fuel);
        let out = seq![(c, depth)] + below + rest;
        assert(child_rows(list, folders, expanded, depth, fuel) == out);
        let lb = below.len() as int;
        if tail.len() > 0 {
            assert(tail[0] == list[1]);
            assert(!music_folder_after_fn()(list[0], list[1]));
        }
        assert forall|k: int| 0 <= k < out.len() implies (#[trigger] out[k]).1 >= depth by {
            if k == 0 {
            } else if k <= lb {
                assert(out[k] == below[k - 1]);
            } else {
                assert(out[k] == rest[k - 1 - lb]);
            }
        }
        assert forall|i: int, j: int|
            0 <= i < j < out.len() && (#[trigger] out[i]).1 == (#[trigger] out[j]).1 && (forall|k: int|
                i < k < j ==> (#[trigger] out[k]).1 > out[i].1) implies lex_order(
            unicode_lowercase(out[i].0.name@),
            unicode_lowercase(out[j].0.name@),
        ) <= 0 by {
            if i == 0 {
                assert(out[0] == (c, depth));
                if j <= lb {
                    assert(out[j] == below[j - 1]);
                } else {
                    let jr = j - 1 - lb;
                    assert(out[j] == rest[jr]);
                    assert(tail.len() > 0);
                    assert(out[1 + lb] == rest[0]);
                }
            } else if i <= lb {
                assert(out[i] == below[i - 1]);
                if j <= lb {
                    assert(out[j] == below[j - 1]);
                    assert forall|k: int| i - 1 < k < j - 1 implies (#[trigger] below[k]).1 > below[i - 1].1 by {
                        assert(out[k + 1] == below[k]);
                    }
                } else {
                    let jr = j - 1 - lb;
                    assert(out[j] == rest[jr]);
                    assert(tail.len() > 0);
                    assert(out[1 + lb] == rest[0]);
                }
            } else {
                let ir = i - 1 - lb;
                let jr = j - 1 - lb;
                assert(out[i] == rest[ir]);
                assert(out[j] == rest[jr]);
                assert forall|k: int| ir < k < jr implies (#[trigger] rest[k]).1 > rest[ir].1 by {
                    assert(out[k + 1 + lb] == rest[k]);
                }
            }
        }
    }
}

/// In the folder tree, siblings are listed by lower-cased name at every
/// level, under every parent: of two rows at the same depth with only deeper
/// rows between them (two folders of one parent, the open subtree of the
/// first between them), the first name does not sort after the second.
pub proof fn lemma_visible_siblings_sorted(folders: Seq<MusicFolder>, expanded: Seq<Seq<char>>)
    ensures
        siblings_in_name_order(visible_rows(folders, expanded)),
{
    lemma_folder_rows_sorted(folders, expanded, None, 0, folders.len());
}

} // verus!
