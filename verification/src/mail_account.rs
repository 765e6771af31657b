//! Message and draft lists, account sync settings and notices.

use vstd::prelude::*;
use crate::mail_model::{MailAccountSync, MailDraft, MailMessageSummary, MailFolderSyncResult};
use crate::order::{
    lex_order, lex_compare, sort_stable, lemma_insert_stable_at, lemma_sort_stable_step,
    lemma_sort_stable_multiset, lemma_sort_stable_sorted, lemma_lex_order_antisymmetric,
    lemma_lex_order_transitive, strict_weak,
};
use crate::text::{
    blank, chars_of, decimal, join, join_strings, owned, trim, u64_to_decimal, views,
    lemma_parse_decimal,
};

verus! {

broadcast use vstd::string::group_string_axioms;

/// The index of the first message with id `id`, or `-1`.
pub open spec fn find_message(list: Seq<MailMessageSummary>, id: Seq<char>) -> int
    decreases list.len(),
{
    if list.len() == 0 {
        -1
    } else if list[0].id@ == id {
        0
    } else {
        let r = find_message(list.drop_first(), id);
        if r < 0 {
            -1
        } else {
            r + 1
        }
    }
}

proof fn lemma_find_message(list: Seq<MailMessageSummary>, id: Seq<char>, i: int)
    requires
        0 <= i <= list.len(),
        forall|j: int| 0 <= j < i ==> (#[trigger] list[j]).id@ != id,
    ensures
        i < list.len() && list[i].id@ == id ==> find_message(list, id) == i,
        i == list.len() ==> find_message(list, id) == -1,
    decreases i,
{
    if i > 0 {
        assert forall|j: int| 0 <= j < i - 1 implies (#[trigger] list.drop_first()[j]).id@ != id by {
            assert(list.drop_first()[j] == list[j + 1]);
        }
        lemma_find_message(list.drop_first(), id, i - 1);
        if i < list.len() {
            assert(list.drop_first()[i - 1] == list[i]);
        }
    }
}

/// `list` with `m` in place of the first message with the same id, or with
/// `m` appended when there is none.
pub open spec fn merge_message(list: Seq<MailMessageSummary>, m: MailMessageSummary) -> Seq<MailMessageSummary> {
    let i = find_message(list, m.id@);
    if i < 0 {
        list.push(m)
    } else {
        list.update(i, m)
    }
}

/// `current` with each of `incoming` merged in turn.
pub open spec fn merge_messages(current: Seq<MailMessageSummary>, incoming: Seq<MailMessageSummary>) -> Seq<MailMessageSummary>
    decreases incoming.len(),
{
    if incoming.len() == 0 {
        current
    } else {
        merge_message(merge_messages(current, incoming.drop_last()), incoming.last())
    }
}

fn find_message_index(list: &Vec<MailMessageSummary>, id: &String) -> (r: Option<usize>)
    ensures
        match r {
            Some(i) => i < list.len() && find_message(list@, id@) == i,
            None => find_message(list@, id@) == -1,
        },
{
    let mut i: usize = 0;
    while i < list.len()
        invariant
            i <= list.len(),
            forall|j: int| 0 <= j < i ==> (#[trigger] list@[j]).id@ != id@,
        decreases list.len() - i,
    {
        if list[i].id.eq(id) {
            proof {
                lemma_find_message(list@, id@, i as int);
            }
            return Some(i);
        }
        i = i + 1;
    }
    proof {
        lemma_find_message(list@, id@, i as int);
    }
    None
}

/// Adds a page of messages to the list: a message already listed (same id) is
/// replaced in place, a new one is appended.
pub fn append_unique_messages(current: Vec<MailMessageSummary>, incoming: Vec<MailMessageSummary>) -> (r: Vec<MailMessageSummary>)
    ensures
        r@ == merge_messages(current@, incoming@),
{
    let ghost all = incoming@;
    let mut current = current;
    let ghost start = current@;
    let mut incoming = incoming;
    let n = incoming.len();
    let mut k: usize = 0;
    while incoming.len() > 0
        invariant
            k + incoming.len() == n,
            n == all.len(),
            incoming@ == all.skip(k as int),
            current@ == merge_messages(start, all.take(k as int)),
        decreases incoming.len(),
    {
        let m = incoming.remove(0);
        assert(m == all[k as int]);
        assert(incoming@ =~= all.skip(k + 1));
        let ghost before = current@;
        match find_message_index(&current, &m.id) {
            Some(i) => {
                current.remove(i);
                current.insert(i, m);
                assert(current@ =~= before.update(i as int, all[k as int]));
            },
            None => {
                current.push(m);
            },
        }
        k = k + 1;
        assert(all.take(k as int).drop_last() =~= all.take(k - 1));
    }
    assert(all.take(k as int) =~= all);
    current
}

impl MailDraft {
    /// A field-by-field copy.
    pub fn duplicate(&self) -> (r: MailDraft)
        ensures
            r == *self,
    {
        MailDraft {
            id: self.id.clone(),
            mode: self.mode,
            subject: self.subject.clone(),
            updated_at: self.updated_at.clone(),
        }
    }
}

/// Whether draft `a` is listed after draft `b`: drafts are listed newest
/// first, by their `updated_at` stamps compared as text.
pub open spec fn draft_after(a: MailDraft, b: MailDraft) -> bool {
    lex_order(a.updated_at@, b.updated_at@) < 0
}

/// The draft order as a relation that the stable sort takes.
pub open spec fn draft_after_fn() -> spec_fn(MailDraft, MailDraft) -> bool {
    |a: MailDraft, b: MailDraft| draft_after(a, b)
}

/// The index of the first draft with id `id`, or `-1`.
pub open spec fn find_draft(list: Seq<MailDraft>, id: Seq<char>) -> int
    decreases list.len(),
{
    if list.len() == 0 {
        -1
    } else if list[0].id@ == id {
        0
    } else {
        let r = find_draft(list.drop_first(), id);
        if r < 0 {
            -1
        } else {
            r + 1
        }
    }
}

proof fn lemma_find_draft(list: Seq<MailDraft>, id: Seq<char>, i: int)
    requires
        0 <= i <= list.len(),
        forall|j: int| 0 <= j < i ==> (#[trigger] list[j]).id@ != id,
    ensures
        i < list.len() && list[i].id@ == id ==> find_draft(list, id) == i,
        i == list.len() ==> find_draft(list, id) == -1,
    decreases i,
{
    if i > 0 {
        assert forall|j: int| 0 <= j < i - 1 implies (#[trigger] list.drop_first()[j]).id@ != id by {
            assert(list.drop_first()[j] == list[j + 1]);
        }
        lemma_find_draft(list.drop_first(), id, i - 1);
        if i < list.len() {
            assert(list.drop_first()[i - 1] == list[i]);
        }
    }
}

/// The drafts after saving `incoming`: it replaces the draft with its id or is
/// added, and the list is sorted newest first, stably.
pub open spec fn upserted_drafts(current: Seq<MailDraft>, incoming: MailDraft) -> Seq<MailDraft> {
    let i = find_draft(current, incoming.id@);
    let merged = if i < 0 {
        current.push(incoming)
    } else {
        current.update(i, incoming)
    };
    sort_stable(merged, draft_after_fn())
}

fn sort_drafts_newest_first(list: Vec<MailDraft>) -> (r: Vec<MailDraft>)
    ensures
        r@ == sort_stable(list@, draft_after_fn()),
{
    let mut out: Vec<MailDraft> = Vec::new();
    let mut i: usize = 0;
    while i < list.len()
        invariant
            i <= list.len(),
            out@ == sort_stable(list@.take(i as int), draft_after_fn()),
        decreases list.len() - i,
    {
        let x = list[i].duplicate();
        let xs = chars_of(x.updated_at.as_str());
        let mut j: usize = out.len();
        while j > 0 && lex_compare(&chars_of(out[j - 1].updated_at.as_str()), &xs) < 0
            invariant
                j <= out.len(),
                xs@ == x.updated_at@,
                forall|k: int| j <= k < out.len() ==> draft_after(#[trigger] out@[k], x),
            decreases j,
        {
            j = j - 1;
        }
        proof {
            lemma_insert_stable_at(out@, x, draft_after_fn(), j as int);
            lemma_sort_stable_step(list@, draft_after_fn(), i as int);
        }
        let ghost before = out@;
        out.insert(j, x);
        assert(out@ =~= before.take(j as int).push(x) + before.skip(j as int));
        i = i + 1;
    }
    assert(list@.take(list.len() as int) =~= list@);
    out
}

fn find_draft_index(list: &Vec<MailDraft>, id: &String) -> (r: Option<usize>)
    ensures
        match r {
            Some(i) => i < list.len() && find_draft(list@, id@) == i,
            None => find_draft(list@, id@) == -1,
        },
{
    let mut i: usize = 0;
    while i < list.len()
        invariant
            i <= list.len(),
            forall|j: int| 0 <= j < i ==> (#[trigger] list@[j]).id@ != id@,
        decreases list.len() - i,
    {
        if list[i].id.eq(id) {
            proof {
                lemma_find_draft(list@, id@, i as int);
            }
            return Some(i);
        }
        i = i + 1;
    }
    proof {
        lemma_find_draft(list@, id@, i as int);
    }
    None
}

/// Puts a saved draft into the drafts list, newest first.
pub fn upsert_draft(current: Vec<MailDraft>, incoming: MailDraft) -> (r: Vec<MailDraft>)
    ensures
        r@ == upserted_drafts(current@, incoming),
{
    let mut current = current;
    let ghost start = current@;
    let found = find_draft_index(&current, &incoming.id);
    match found {
        Some(j) => {
            current.remove(j);
            current.insert(j, incoming);
            assert(current@ =~= start.update(j as int, incoming));
        },
        None => {
            current.push(incoming);
        },
    }
    sort_drafts_newest_first(current)
}

/// The shortest allowed sync interval, in minutes.
pub const MAIL_MIN_SYNC_INTERVAL_MINUTES: u64 = 1;

/// The longest allowed sync interval, in minutes: one week.
pub const MAIL_MAX_SYNC_INTERVAL_MINUTES: u64 = 10080;

/// The settings form value for a sync interval in seconds: whole minutes,
/// rounded up.
pub fn sync_interval_minutes_value(seconds: u64) -> (r: String)
    ensures
        r@ == decimal((seconds as nat + 59) / 60),
{
    let q = seconds / 60;
    let m = if seconds % 60 == 0 {
        q
    } else {
        q + 1
    };
    assert(m == (seconds as nat + 59) / 60) by (nonlinear_arith)
        requires
            q == seconds / 60,
            m == (if seconds % 60 == 0 { q } else { (q + 1) as u64 }),
    ;
    u64_to_decimal(m)
}

/// What the sync interval field means: blank is no interval; otherwise a whole
/// number of minutes between one minute and a week, as seconds.
pub open spec fn sync_interval_result(input: Seq<char>) -> Result<Option<nat>, Seq<char>> {
    let t = trim(input);
    if t.len() == 0 {
        Ok(None)
    } else {
        match crate::text::parse_u64_spec(t) {
            None => Err("Sync interval must be a whole number of minutes"@),
            Some(m) => if m < MAIL_MIN_SYNC_INTERVAL_MINUTES || m > MAIL_MAX_SYNC_INTERVAL_MINUTES {
                Err("Sync interval must be between 1 minute and 10080 minutes"@)
            } else {
                Ok(Some(m * 60))
            },
        }
    }
}

/// Reads the sync interval field of the account settings.
pub fn sync_interval_secs_from_minutes(input: &str) -> (r: Result<Option<u64>, String>)
    ensures
        match r {
            Ok(Some(v)) => sync_interval_result(input@) == Ok::<Option<nat>, Seq<char>>(Some(v as nat)),
            Ok(None) => sync_interval_result(input@) == Ok::<Option<nat>, Seq<char>>(None),
            Err(e) => sync_interval_result(input@) == Err::<Option<nat>, Seq<char>>(e@),
        },
{
    let t = crate::text::trim_str(input);
    if t.as_str().is_empty() {
        return Ok(None);
    }
    let minutes = match crate::text::parse_u64(t.as_str()) {
        Some(m) => m,
        None => {
            return Err(owned("Sync interval must be a whole number of minutes"));
        },
    };
    if minutes < MAIL_MIN_SYNC_INTERVAL_MINUTES || minutes > MAIL_MAX_SYNC_INTERVAL_MINUTES {
        return Err(owned("Sync interval must be between 1 minute and 10080 minutes"));
    }
    Ok(Some(minutes * 60))
}

/// One line about a folder that failed to sync: `path: error`.
pub open spec fn folder_error_line(f: MailFolderSyncResult) -> Seq<char> {
    f.folder_path@ + ": "@ + f.error.unwrap()@
}

/// The error lines of the folders that failed, in order.
pub open spec fn folder_error_lines(folders: Seq<MailFolderSyncResult>) -> Seq<Seq<char>>
    decreases folders.len(),
{
    if folders.len() == 0 {
        Seq::empty()
    } else {
        let r = folder_error_lines(folders.drop_last());
        if folders.last().error.is_some() {
            r.push(folder_error_line(folders.last()))
        } else {
            r
        }
    }
}

/// The notice after an account sync: `None` without errors; otherwise the
/// error count and the first three failed folders.
pub open spec fn sync_error_notice(result: MailAccountSync) -> Option<Seq<char>> {
    if result.errors == 0 {
        None
    } else {
        let lines = folder_error_lines(result.folders@);
        let shown = if lines.len() > 3 {
            lines.take(3)
        } else {
            lines
        };
        let details = if shown.len() == 0 {
            Seq::empty()
        } else {
            " "@ + join(shown, "; "@)
        };
        Some("Account sync finished with "@ + decimal(result.errors as nat) + " folder error(s)."@ + details)
    }
}

/// The notice to show after an account sync, if any folder failed.
pub fn account_sync_error_notice(result: &MailAccountSync) -> (r: Option<String>)
    ensures
        crate::mail_model::opt_view(r) == sync_error_notice(*result),
{
    if result.errors == 0 {
        return None;
    }
    let mut lines: Vec<String> = Vec::new();
    let mut i: usize = 0;
    while i < result.folders.len()
        invariant
            i <= result.folders.len(),
            views(lines@) == folder_error_lines(result.folders@.take(i as int)),
        decreases result.folders.len() - i,
    {
        let f = &result.folders[i];
        assert(result.folders@.take(i + 1).drop_last() =~= result.folders@.take(i as int));
        if let Some(e) = &f.error {
            let line = crate::text::concat3(f.folder_path.as_str(), ": ", e.as_str());
            let ghost before = views(lines@);
            lines.push(line);
            assert(views(lines@) =~= before.push(line@));
        }
        i = i + 1;
    }
    assert(result.folders@.take(result.folders.len() as int) =~= result.folders@);
    let ghost all_lines = views(lines@);
    if lines.len() > 3 {
        lines.truncate(3);
        assert(views(lines@) =~= all_lines.take(3));
    }
    let mut out = owned("Account sync finished with ");
    out.append(u64_to_decimal(result.errors).as_str());
    out.append(" folder error(s).");
    if lines.len() > 0 {
        out.append(" ");
        out.append(join_strings(&lines, "; ").as_str());
    } else {
        assert(out@ =~= out@ + Seq::<char>::empty());
    }
    Some(out)
}

/// The next key of the compose editor, which remounts it; it stops at the
/// largest value instead of wrapping.
pub fn next_compose_editor_key(key: u64) -> (r: u64)
    ensures
        r == if key == u64::MAX { key } else { (key + 1) as u64 },
{
    key.saturating_add(1)
}

/// No two messages of `list` share an id.
pub open spec fn distinct_message_ids(list: Seq<MailMessageSummary>) -> bool {
    forall|i: int, j: int| 0 <= i < j < list.len() ==> (#[trigger] list[i]).id@ != (#[trigger] list[j]).id@
}

proof fn lemma_find_message_range(list: Seq<MailMessageSummary>, id: Seq<char>)
    ensures
        -1 <= find_message(list, id) < list.len(),
        find_message(list, id) >= 0 ==> list[find_message(list, id)].id@ == id,
        find_message(list, id) < 0 ==> forall|j: int| 0 <= j < list.len() ==> (#[trigger] list[j]).id@ != id,
    decreases list.len(),
{
    if list.len() > 0 && list[0].id@ != id {
        lemma_find_message_range(list.drop_first(), id);
        assert forall|j: int| 1 <= j < list.len() implies list[j] == list.drop_first()[j - 1] by {}
    }
}

proof fn lemma_merge_message_law(list: Seq<MailMessageSummary>, m: MailMessageSummary)
    ensures
        merge_message(list, m).len() >= list.len(),
        forall|j: int| 0 <= j < list.len() ==> (#[trigger] merge_message(list, m)[j]).id@ == list[j].id@,
        exists|j: int| 0 <= j < merge_message(list, m).len() && (#[trigger] merge_message(list, m)[j]).id@ == m.id@,
        distinct_message_ids(list) ==> distinct_message_ids(merge_message(list, m)),
{
    lemma_find_message_range(list, m.id@);
    let i = find_message(list, m.id@);
    let r = merge_message(list, m);
    if i < 0 {
        assert(r[list.len() as int] == m);
    } else {
        assert(r[i] == m);
    }
}

/// Adding a page of messages keeps the list as it was, message for message
/// (a message listed again is replaced in place, under the same id), and
/// appends the rest, so every message of the page is listed afterwards; and
/// when no id was listed twice before, none is listed twice after.
pub proof fn lemma_merge_messages_law(current: Seq<MailMessageSummary>, incoming: Seq<MailMessageSummary>)
    ensures
        merge_messages(current, incoming).len() >= current.len(),
        forall|j: int| 0 <= j < current.len() ==> (#[trigger] merge_messages(current, incoming)[j]).id@ == current[j].id@,
        forall|i: int| 0 <= i < incoming.len() ==> exists|j: int| 0 <= j < merge_messages(current, incoming).len()
            && (#[trigger] merge_messages(current, incoming)[j]).id@ == (#[trigger] incoming[i]).id@,
        distinct_message_ids(current) ==> distinct_message_ids(merge_messages(current, incoming)),
    decreases incoming.len(),
{
    if incoming.len() > 0 {
        let t = incoming.drop_last();
        let prev = merge_messages(current, t);
        let m = incoming.last();
        lemma_merge_messages_law(current, t);
        lemma_merge_message_law(prev, m);
        let r = merge_message(prev, m);
        assert forall|j: int| 0 <= j < current.len() implies (#[trigger] r[j]).id@ == current[j].id@ by {
            assert(r[j].id@ == prev[j].id@);
        }
        assert forall|i: int| 0 <= i < incoming.len() implies exists|j: int| 0 <= j < r.len()
            && (#[trigger] r[j]).id@ == (#[trigger] incoming[i]).id@ by {
            if i < incoming.len() - 1 {
                assert(incoming[i] == t[i]);
                let j = choose|j: int| 0 <= j < prev.len() && (#[trigger] prev[j]).id@ == t[i].id@;
                assert(r[j].id@ == prev[j].id@);
            }
        }
    }
}

/// After a save the drafts list holds the saved draft, holds the drafts it
/// held before but the one the save replaced, and is ordered newest first.
pub proof fn lemma_upsert_draft_law(current: Seq<MailDraft>, incoming: MailDraft)
    ensures
        upserted_drafts(current, incoming).contains(incoming),
        upserted_drafts(current, incoming).to_multiset() == (if find_draft(current, incoming.id@) < 0 {
            current.push(incoming)
        } else {
            current.update(find_draft(current, incoming.id@), incoming)
        }).to_multiset(),
        forall|i: int, j: int|
            0 <= i < j < upserted_drafts(current, incoming).len() ==> !draft_after(
                #[trigger] upserted_drafts(current, incoming)[i],
                #[trigger] upserted_drafts(current, incoming)[j],
            ),
{
    broadcast use vstd::seq_lib::group_to_multiset_ensures;

    let i = find_draft(current, incoming.id@);
    lemma_find_draft_range(current, incoming.id@);
    let merged = if i < 0 {
        current.push(incoming)
    } else {
        current.update(i, incoming)
    };
    let gt = draft_after_fn();
    lemma_sort_stable_multiset(merged, gt);
    assert forall|a: MailDraft, b: MailDraft| #[trigger] gt(a, b) implies !gt(b, a) by {
        lemma_lex_order_antisymmetric(a.updated_at@, b.updated_at@);
    }
    assert forall|a: MailDraft, b: MailDraft, c: MailDraft| #![trigger gt(a, b), gt(b, c)] !gt(a, b) && !gt(b, c) implies !gt(a, c) by {
        lemma_lex_order_antisymmetric(a.updated_at@, b.updated_at@);
        lemma_lex_order_antisymmetric(b.updated_at@, c.updated_at@);
        lemma_lex_order_antisymmetric(a.updated_at@, c.updated_at@);
        lemma_lex_order_transitive(c.updated_at@, b.updated_at@, a.updated_at@);
    }
    assert(strict_weak(gt));
    lemma_sort_stable_sorted(merged, gt);
    if i < 0 {
        assert(merged[current.len() as int] == incoming);
    } else {
        assert(merged[i] == incoming);
    }
    assert(merged.to_multiset().count(incoming) > 0);
}

proof fn lemma_find_draft_range(list: Seq<MailDraft>, id: Seq<char>)
    ensures
        -1 <= find_draft(list, id) < list.len(),
    decreases list.len(),
{
    if list.len() > 0 && list[0].id@ != id {
        lemma_find_draft_range(list.drop_first(), id);
    }
}

/// The sync interval that the settings form shows reads back as the same
/// interval rounded up to whole minutes, for every interval from one second
/// to a week. (No interval, zero seconds, shows as `"0"`, which reads back as
/// out of range.)
pub proof fn lemma_sync_interval_round_trip(seconds: nat)
    requires
        1 <= seconds <= MAIL_MAX_SYNC_INTERVAL_MINUTES * 60,
    ensures
        sync_interval_result(decimal((seconds + 59) / 60)) == Ok::<Option<nat>, Seq<char>>(
            Some(((seconds + 59) / 60) * 60),
        ),
{
    let m: nat = (seconds + 59) / 60;
    assert(1 <= m <= MAIL_MAX_SYNC_INTERVAL_MINUTES) by (nonlinear_arith)
        requires
            1 <= seconds <= 604800,
            m == (seconds + 59) / 60,
    ;
    lemma_parse_decimal(m);
}

} // verus!
