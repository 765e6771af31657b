//! Decisions of the settings pages: which tab a route shows, the dashboard
//! tiles and the S3 credentials text.

use vstd::prelude::*;
use crate::text::{concat3, owned, str_eq, views};

verus! {

broadcast use vstd::string::group_string_axioms;

/// The tiles that the dashboard shows: the user's choice, or the defaults
/// when the user chose none.
pub fn effective_tiles(configured: Vec<String>, defaults: Vec<String>) -> (r: Vec<String>)
    ensures
        r@ == if configured@.len() == 0 {
            defaults@
        } else {
            configured@
        },
{
    if configured.len() == 0 {
        defaults
    } else {
        configured
    }
}

/// The test for tiles other than `id`.
pub open spec fn other_than(id: Seq<char>) -> spec_fn(Seq<char>) -> bool {
    |x: Seq<char>| x != id
}

/// The tiles after toggling `id`: a shown tile is taken out (every copy of
/// it), a hidden one is added last; the others keep their order.
pub open spec fn toggled_tiles(enabled: Seq<Seq<char>>, id: Seq<char>) -> Seq<Seq<char>> {
    let rest = enabled.filter(other_than(id));
    if enabled.contains(id) {
        rest
    } else {
        rest.push(id)
    }
}

/// Toggles a dashboard tile.
pub fn toggle_tile(enabled: &Vec<String>, id: &str) -> (r: Vec<String>)
    ensures
        views(r@) == toggled_tiles(views(enabled@), id@),
{
    let ghost ev = views(enabled@);
    let mut rest: Vec<String> = Vec::new();
    let mut on = false;
    let mut k: usize = 0;
    while k < enabled.len()
        invariant
            k <= enabled.len(),
            ev == views(enabled@),
            views(rest@) == ev.take(k as int).filter(other_than(id@)),
            on == ev.take(k as int).contains(id@),
        decreases enabled.len() - k,
    {
        assert(ev.take(k + 1).drop_last() =~= ev.take(k as int));
        assert(ev.take(k + 1).last() == ev[k as int]);
        proof {
            reveal_with_fuel(Seq::filter, 1);
        }
        if str_eq(enabled[k].as_str(), id) {
            on = true;
            assert(ev.take(k + 1)[k as int] == id@);
        } else {
            let ghost before = views(rest@);
            rest.push(enabled[k].clone());
            assert(views(rest@) =~= before.push(enabled@[k as int]@));
            let ghost t1 = ev.take(k + 1);
            let ghost t0 = ev.take(k as int);
            assert forall|x: Seq<char>| t1.contains(x) <==> (t0.contains(x) || x == ev[k as int]) by {
                if t1.contains(x) {
                    let j = choose|j: int| 0 <= j < t1.len() && t1[j] == x;
                    if j < k {
                        assert(t0[j] == x);
                    }
                }
                if t0.contains(x) {
                    let j = choose|j: int| 0 <= j < t0.len() && t0[j] == x;
                    assert(t1[j] == x);
                }
                if x == ev[k as int] {
                    assert(t1[k as int] == x);
                }
            }
        }
        k = k + 1;
    }
    assert(ev.take(enabled.len() as int) =~= ev);
    if !on {
        let ghost before = views(rest@);
        rest.push(owned(id));
        assert(views(rest@) =~= before.push(id@));
    }
    rest
}

/// Turning a hidden tile on and then off again gives back the tiles as they
/// were; and each toggle flips whether the tile shows.
pub proof fn lemma_toggle_tile_twice(enabled: Seq<Seq<char>>, id: Seq<char>)
    ensures
        toggled_tiles(enabled, id).contains(id) == !enabled.contains(id),
        !enabled.contains(id) ==> toggled_tiles(toggled_tiles(enabled, id), id) == enabled,
{
    let pred = other_than(id);
    let rest = enabled.filter(pred);
    assert forall|i: int| 0 <= i < rest.len() implies rest[i] != id by {
        enabled.lemma_filter_pred(pred, i);
    }
    if !enabled.contains(id) {
        assert(rest =~= enabled) by {
            lemma_filter_keeps_all(enabled, id);
        }
        let once = rest.push(id);
        assert(once[rest.len() as int] == id);
        assert(once.contains(id));
        assert(once.filter(pred) =~= enabled) by {
            lemma_filter_drops_last(rest, id);
        }
    } else {
        if rest.contains(id) {
            let j = choose|j: int| 0 <= j < rest.len() && rest[j] == id;
            assert(rest[j] != id);
        }
    }
}

proof fn lemma_filter_keeps_all(s: Seq<Seq<char>>, id: Seq<char>)
    requires
        !s.contains(id),
    ensures
        s.filter(other_than(id)) == s,
    decreases s.len(),
{
    reveal_with_fuel(Seq::filter, 1);
    if s.len() > 0 {
        assert(!s.drop_last().contains(id)) by {
            if s.drop_last().contains(id) {
                let j = choose|j: int| 0 <= j < s.drop_last().len() && s.drop_last()[j] == id;
                assert(s[j] == id);
            }
        }
        lemma_filter_keeps_all(s.drop_last(), id);
        assert(s.last() != id) by {
            assert(s[s.len() - 1] == s.last());
        }
        assert(s =~= s.drop_last().push(s.last()));
    }
}

proof fn lemma_filter_drops_last(rest: Seq<Seq<char>>, id: Seq<char>)
    requires
        !rest.contains(id),
    ensures
        rest.push(id).filter(other_than(id)) == rest,
{
    reveal_with_fuel(Seq::filter, 1);
    assert(rest.push(id).drop_last() =~= rest);
    lemma_filter_keeps_all(rest, id);
}

/// The S3 credentials file text for a new access key, as the copy button
/// writes it.
pub fn s3_credentials_text(access_key_id: &str, secret_access_key: &str) -> (r: String)
    ensures
        r@ == "[default]\naws_access_key_id = "@ + access_key_id@ + "\naws_secret_access_key = "@
            + secret_access_key@,
{
    let mut s = concat3("[default]\naws_access_key_id = ", access_key_id, "\naws_secret_access_key = ");
    s.append(secret_access_key);
    s
}

/// The tabs of the settings page.
#[derive(Clone, Copy, Debug, PartialEq, Eq, Structural)]
pub enum SettingsTab {
    Account,
    Sync,
    Preferences,
    Activity,
    Users,
    Admin,
    NotFound,
}

/// The tab that a settings route shows: the sync tab only in the desktop
/// app, the users and admin tabs only for admins; anything else is not found.
pub open spec fn tab_of(tab: Seq<char>, is_desktop: bool, is_admin: bool) -> SettingsTab {
    if tab == "account"@ {
        SettingsTab::Account
    } else if tab == "sync"@ && is_desktop {
        SettingsTab::Sync
    } else if tab == "preferences"@ {
        SettingsTab::Preferences
    } else if tab == "activity"@ {
        SettingsTab::Activity
    } else if tab == "users"@ && is_admin {
        SettingsTab::Users
    } else if tab == "admin"@ && is_admin {
        SettingsTab::Admin
    } else {
        SettingsTab::NotFound
    }
}

/// Picks the tab that a settings route shows.
pub fn settings_tab(tab: &str, is_desktop: bool, is_admin: bool) -> (r: SettingsTab)
    ensures
        r == tab_of(tab@, is_desktop, is_admin),
{
    if str_eq(tab, "account") {
        SettingsTab::Account
    } else if str_eq(tab, "sync") && is_desktop {
        SettingsTab::Sync
    } else if str_eq(tab, "preferences") {
        SettingsTab::Preferences
    } else if str_eq(tab, "activity") {
        SettingsTab::Activity
    } else if str_eq(tab, "users") && is_admin {
        SettingsTab::Users
    } else if str_eq(tab, "admin") && is_admin {
        SettingsTab::Admin
    } else {
        SettingsTab::NotFound
    }
}

/// The width of the settings page: wide for the tables of the activity and
/// sync tabs (by the route's name), narrow otherwise.
pub fn settings_wrapper_class(tab: &str) -> (r: &'static str)
    ensures
        r@ == if tab@ == "activity"@ || tab@ == "sync"@ {
            "space-y-6 max-w-6xl"@
        } else {
            "space-y-6 max-w-2xl"@
        },
{
    if str_eq(tab, "activity") || str_eq(tab, "sync") {
        "space-y-6 max-w-6xl"
    } else {
        "space-y-6 max-w-2xl"
    }
}

} // verus!
