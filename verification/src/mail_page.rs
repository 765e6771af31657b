//! Decisions of the mail page: when a draft is worth saving, which sync status
//! shows, when lists reload, what "load more" does, and the notices it gives.

use vstd::prelude::*;
use crate::mail_model::{
    MailAccount, MailDraft, MailFolder, MailFolderRole, MailIdentity, MailMessageSummary, opt_view,
};
use crate::text::{blank, is_blank, owned, str_eq};

verus! {

broadcast use vstd::string::group_string_axioms;

/// Whether the compose form holds anything worth an autosave.
pub open spec fn has_compose_content(
    draft_id: Seq<char>,
    to: Seq<char>,
    cc: Seq<char>,
    bcc: Seq<char>,
    subject: Seq<char>,
    body: Seq<char>,
    body_html: Seq<char>,
) -> bool {
    !blank(draft_id) || !blank(to) || !blank(cc) || !blank(bcc) || !blank(subject) || !blank(body)
        || !blank(body_html)
}

/// Whether the compose form holds anything worth an autosave: a saved draft,
/// or any field that is not blank.
pub fn compose_has_content(
    draft_id: &str,
    to: &str,
    cc: &str,
    bcc: &str,
    subject: &str,
    body: &str,
    body_html: &str,
) -> (r: bool)
    ensures
        r == has_compose_content(draft_id@, to@, cc@, bcc@, subject@, body@, body_html@),
{
    !is_blank(draft_id) || !is_blank(to) || !is_blank(cc) || !is_blank(bcc) || !is_blank(subject)
        || !is_blank(body) || !is_blank(body_html)
}

/// The sync status line: an explicit status first, then backfilling, then a
/// sync started here, then one running in the background.
pub open spec fn sync_status_text(
    status: Option<Seq<char>>,
    backfilling: bool,
    syncing: bool,
    background: bool,
) -> Option<Seq<char>> {
    if status.is_some() {
        status
    } else if backfilling {
        Some("Syncing older messages"@)
    } else if syncing || background {
        Some("Syncing mail"@)
    } else {
        None
    }
}

/// The sync status line that the page shows.
pub fn sync_status_message(status: Option<String>, backfilling: bool, syncing: bool, background: bool) -> (r: Option<String>)
    ensures
        opt_view(r) == sync_status_text(opt_view(status), backfilling, syncing, background),
{
    if status.is_some() {
        status
    } else if backfilling {
        Some(owned("Syncing older messages"))
    } else if syncing || background {
        Some(owned("Syncing mail"))
    } else {
        None
    }
}

/// Whether a sync of `account_id` runs: the account or one of its folders
/// reports one in progress.
pub open spec fn account_syncing(accounts: Seq<MailAccount>, folders: Seq<MailFolder>, account_id: Seq<char>) -> bool {
    (exists|i: int|
        0 <= i < accounts.len() && (#[trigger] accounts[i]).id@ == account_id
            && accounts[i].sync_in_progress) || (exists|j: int|
        0 <= j < folders.len() && (#[trigger] folders[j]).account_id@ == account_id
            && folders[j].sync_in_progress)
}

/// Whether a sync of the account runs, as the status poll checks it.
pub fn account_sync_in_progress(accounts: &Vec<MailAccount>, folders: &Vec<MailFolder>, account_id: &str) -> (r: bool)
    ensures
        r == account_syncing(accounts@, folders@, account_id@),
{
    let mut i: usize = 0;
    while i < accounts.len()
        invariant
            i <= accounts.len(),
            forall|k: int|
                0 <= k < i ==> !((#[trigger] accounts@[k]).id@ == account_id@
                    && accounts@[k].sync_in_progress),
        decreases accounts.len() - i,
    {
        if accounts[i].sync_in_progress && str_eq(accounts[i].id.as_str(), account_id) {
            return true;
        }
        i = i + 1;
    }
    let mut j: usize = 0;
    while j < folders.len()
        invariant
            j <= folders.len(),
            forall|k: int| 0 <= k < accounts@.len() ==> !((#[trigger] accounts@[k]).id@ == account_id@
                && accounts@[k].sync_in_progress),
            forall|k: int|
                0 <= k < j ==> !((#[trigger] folders@[k]).account_id@ == account_id@
                    && folders@[k].sync_in_progress),
        decreases folders.len() - j,
    {
        if folders[j].sync_in_progress && str_eq(folders[j].account_id.as_str(), account_id) {
            return true;
        }
        j = j + 1;
    }
    false
}

/// Whether a sync runs for the shown account: the account reports one, or any
/// listed folder does.
pub open spec fn background_syncing(active: Option<MailAccount>, folders: Seq<MailFolder>) -> bool {
    (match active {
        Some(a) => a.sync_in_progress,
        None => false,
    }) || exists|j: int| 0 <= j < folders.len() && (#[trigger] folders[j]).sync_in_progress
}

/// Whether a sync runs for the shown account, as the status line checks it.
pub fn background_sync_in_progress(active: Option<&MailAccount>, folders: &Vec<MailFolder>) -> (r: bool)
    ensures
        r == background_syncing(
            match active {
                Some(a) => Some(*a),
                None => None,
            },
            folders@,
        ),
{
    if let Some(a) = active {
        if a.sync_in_progress {
            return true;
        }
    }
    let mut j: usize = 0;
    while j < folders.len()
        invariant
            j <= folders.len(),
            forall|k: int| 0 <= k < j ==> !(#[trigger] folders@[k]).sync_in_progress,
        decreases folders.len() - j,
    {
        if folders[j].sync_in_progress {
            return true;
        }
        j = j + 1;
    }
    false
}

/// Whether the status poll reloads the open folder: a sync ran before the
/// poll, none runs now, and no sync, backfill or page load of the page's own
/// is under way.
pub fn should_reload_after_sync(was_syncing: bool, now_syncing: bool, syncing: bool, backfilling: bool, loading_more: bool) -> (r: bool)
    ensures
        r == (was_syncing && !now_syncing && !syncing && !backfilling && !loading_more),
{
    was_syncing && !now_syncing && !syncing && !backfilling && !loading_more
}

/// Whether the selected message must be cleared after a reload: one is
/// selected and the new page no longer lists it.
pub open spec fn selection_lost(selected: Seq<char>, page: Seq<MailMessageSummary>) -> bool {
    selected.len() > 0 && !exists|i: int| 0 <= i < page.len() && (#[trigger] page[i]).id@ == selected
}

/// Whether the selected message must be cleared after a reload.
pub fn selection_dropped(selected: &str, page: &Vec<MailMessageSummary>) -> (r: bool)
    ensures
        r == selection_lost(selected@, page@),
{
    if selected.is_empty() {
        return false;
    }
    let mut i: usize = 0;
    while i < page.len()
        invariant
            i <= page.len(),
            forall|k: int| 0 <= k < i ==> (#[trigger] page@[k]).id@ != selected@,
        decreases page.len() - i,
    {
        if str_eq(page[i].id.as_str(), selected) {
            return false;
        }
        i = i + 1;
    }
    true
}

/// What scrolling to the end of the message list does.
pub enum LoadMoreAction {
    /// Nothing: a load or sync is under way, nothing is selected, or the folder
    /// is fully loaded.
    Nothing,
    /// Fetch the next page after this cursor.
    NextPage(String),
    /// Sync older messages from the server, then list from this cursor (the
    /// uid of the last cached message), if any.
    Backfill(Option<String>),
}

/// Whether the folder with id `folder_id` can still pull older messages: the
/// first such folder is selectable and not fully synced.
pub open spec fn folder_can_backfill(folders: Seq<MailFolder>, folder_id: Seq<char>) -> bool {
    exists|i: int|
        0 <= i < folders.len() && (#[trigger] folders[i]).id@ == folder_id && (forall|k: int|
            0 <= k < i ==> (#[trigger] folders[k]).id@ != folder_id) && folders[i].selectable
            && !folders[i].sync_completed
}

/// Whether the open folder can still pull older messages.
pub fn folder_needs_backfill(folders: &Vec<MailFolder>, folder_id: &str) -> (r: bool)
    ensures
        r == folder_can_backfill(folders@, folder_id@),
{
    let mut i: usize = 0;
    while i < folders.len()
        invariant
            i <= folders.len(),
            forall|k: int| 0 <= k < i ==> (#[trigger] folders@[k]).id@ != folder_id@,
        decreases folders.len() - i,
    {
        if str_eq(folders[i].id.as_str(), folder_id) {
            let r = folders[i].selectable && !folders[i].sync_completed;
            proof {
                if !r {
                    assert forall|m: int|
                        0 <= m < folders@.len() && (#[trigger] folders@[m]).id@ == folder_id@ && (forall|k: int|
                            0 <= k < m ==> (#[trigger] folders@[k]).id@ != folder_id@) implies !(
                    folders@[m].selectable && !folders@[m].sync_completed) by {
                        if m > i {
                            assert(folders@[i as int].id@ == folder_id@);
                        } else if m < i {
                        }
                    }
                }
            }
            return r;
        }
        i = i + 1;
    }
    false
}

/// What "load more" does: nothing while loading or syncing or without a
/// selection; the next page when there is a cursor; else a backfill when the
/// folder can still pull older messages.
pub open spec fn load_more_plan(
    busy: bool,
    account_id: Seq<char>,
    folder_id: Seq<char>,
    next_cursor: Option<Seq<char>>,
    can_backfill: bool,
    last_uid: Option<u64>,
) -> (int, Option<Seq<char>>) {
    if busy || account_id.len() == 0 || folder_id.len() == 0 {
        (0, None)
    } else if next_cursor.is_some() {
        (1, next_cursor)
    } else if can_backfill {
        (2, match last_uid {
            Some(u) => Some(crate::text::decimal(u as nat)),
            None => None,
        })
    } else {
        (0, None)
    }
}

/// The kind and cursor of a load-more action, for comparison with the plan.
pub open spec fn load_more_view(a: LoadMoreAction) -> (int, Option<Seq<char>>) {
    match a {
        LoadMoreAction::Nothing => (0, None),
        LoadMoreAction::NextPage(c) => (1, Some(c@)),
        LoadMoreAction::Backfill(c) => (2, opt_view(c)),
    }
}

/// Decides what scrolling to the end of the message list does.
pub fn load_more_action(
    syncing: bool,
    loading_more: bool,
    backfilling: bool,
    account_id: &str,
    folder_id: &str,
    next_cursor: &Option<String>,
    folders: &Vec<MailFolder>,
    last_uid: Option<u64>,
) -> (r: LoadMoreAction)
    ensures
        load_more_view(r) == load_more_plan(
            syncing || loading_more || backfilling,
            account_id@,
            folder_id@,
            opt_view(*next_cursor),
            folder_can_backfill(folders@, folder_id@),
            last_uid,
        ),
{
    if syncing || loading_more || backfilling {
        return LoadMoreAction::Nothing;
    }
    if account_id.is_empty() || folder_id.is_empty() {
        return LoadMoreAction::Nothing;
    }
    if let Some(c) = next_cursor {
        return LoadMoreAction::NextPage(c.clone());
    }
    if !folder_needs_backfill(folders, folder_id) {
        return LoadMoreAction::Nothing;
    }
    match last_uid {
        Some(u) => LoadMoreAction::Backfill(Some(crate::text::u64_to_decimal(u))),
        None => LoadMoreAction::Backfill(None),
    }
}

/// Whether opening a folder starts a sync right away: the first page came back
/// empty with nothing more, the folder can still pull messages, and no sync
/// or backfill runs.
pub fn should_auto_sync_folder(page_empty: bool, has_more: bool, can_backfill: bool, syncing: bool, backfilling: bool) -> (r: bool)
    ensures
        r == (page_empty && !has_more && can_backfill && !syncing && !backfilling),
{
    page_empty && !has_more && can_backfill && !syncing && !backfilling
}

/// The messages without the one with id `id`.
pub open spec fn without_message(list: Seq<MailMessageSummary>, id: Seq<char>) -> Seq<MailMessageSummary> {
    list.filter(|m: MailMessageSummary| m.id@ != id)
}

/// Drops a message from the list after it left the folder.
pub fn remove_message(list: Vec<MailMessageSummary>, id: &str) -> (r: Vec<MailMessageSummary>)
    ensures
        r@ == without_message(list@, id@),
{
    let ghost all = list@;
    let mut list = list;
    let mut out: Vec<MailMessageSummary> = Vec::new();
    let n = list.len();
    let mut k: usize = 0;
    while list.len() > 0
        invariant
            k + list.len() == n,
            n == all.len(),
            list@ == all.skip(k as int),
            out@ == without_message(all.take(k as int), id@),
        decreases list.len(),
    {
        let m = list.remove(0);
        assert(list@ =~= all.skip(k + 1));
        assert(all.take(k + 1).drop_last() =~= all.take(k as int));
        if !str_eq(m.id.as_str(), id) {
            out.push(m);
        }
        k = k + 1;
        proof {
            reveal_with_fuel(Seq::filter, 1);
        }
    }
    assert(all.take(k as int) =~= all);
    out
}

/// The identities of the account with id `account_id`, in order.
pub open spec fn identities_of(identities: Seq<MailIdentity>, account_id: Seq<char>) -> Seq<MailIdentity> {
    identities.filter(|i: MailIdentity| i.account_id@ == account_id)
}

/// The sending identities of the selected account.
pub fn account_identities(identities: &Vec<MailIdentity>, account_id: &str) -> (r: Vec<MailIdentity>)
    ensures
        r@ == identities_of(identities@, account_id@),
{
    let mut out: Vec<MailIdentity> = Vec::new();
    let mut k: usize = 0;
    while k < identities.len()
        invariant
            k <= identities.len(),
            out@ == identities_of(identities@.take(k as int), account_id@),
        decreases identities.len() - k,
    {
        let i = &identities[k];
        assert(identities@.take(k + 1).drop_last() =~= identities@.take(k as int));
        proof {
            reveal_with_fuel(Seq::filter, 1);
        }
        if str_eq(i.account_id.as_str(), account_id) {
            out.push(MailIdentity {
                account_id: i.account_id.clone(),
                display_name: i.display_name.clone(),
                email_address: i.email_address.clone(),
            });
        }
        k = k + 1;
    }
    assert(identities@.take(identities.len() as int) =~= identities@);
    out
}

/// The folders a message can be moved to: the selectable folders other than
/// its own, in order.
pub open spec fn move_targets(folders: Seq<MailFolder>, current: Seq<char>) -> Seq<MailFolder> {
    folders.filter(|f: MailFolder| f.selectable && f.id@ != current)
}

/// The folders that the "Move to" list offers for a message in `current`.
pub fn move_target_folders(folders: &Vec<MailFolder>, current: &str) -> (r: Vec<MailFolder>)
    ensures
        r@ == move_targets(folders@, current@),
{
    let mut out: Vec<MailFolder> = Vec::new();
    let mut k: usize = 0;
    while k < folders.len()
        invariant
            k <= folders.len(),
            out@ == move_targets(folders@.take(k as int), current@),
        decreases folders.len() - k,
    {
        let f = &folders[k];
        assert(folders@.take(k + 1).drop_last() =~= folders@.take(k as int));
        proof {
            reveal_with_fuel(Seq::filter, 1);
        }
        if f.selectable && !str_eq(f.id.as_str(), current) {
            out.push(f.duplicate());
        }
        k = k + 1;
    }
    assert(folders@.take(folders.len() as int) =~= folders@);
    out
}

/// Whether some folder other than `current` can take an archived message: a
/// selectable archive or all-mail folder.
pub open spec fn archive_target(folders: Seq<MailFolder>, current: Seq<char>) -> bool {
    exists|i: int|
        0 <= i < folders.len() && (#[trigger] folders[i]).selectable && folders[i].id@ != current && (
        folders[i].role == Some(MailFolderRole::Archive) || folders[i].role == Some(MailFolderRole::AllMail))
}

/// Whether the "Archive" button of a message in `current` is enabled.
pub fn has_archive_target(folders: &Vec<MailFolder>, current: &str) -> (r: bool)
    ensures
        r == archive_target(folders@, current@),
{
    let mut k: usize = 0;
    while k < folders.len()
        invariant
            k <= folders.len(),
            forall|i: int|
                0 <= i < k ==> !((#[trigger] folders@[i]).selectable && folders@[i].id@ != current@ && (
                folders@[i].role == Some(MailFolderRole::Archive) || folders@[i].role == Some(
                    MailFolderRole::AllMail,
                ))),
        decreases folders.len() - k,
    {
        let f = &folders[k];
        if f.selectable && !str_eq(f.id.as_str(), current) && (f.role == Some(MailFolderRole::Archive) || f.role
            == Some(MailFolderRole::AllMail)) {
            return true;
        }
        k = k + 1;
    }
    false
}

/// Whether some folder other than `current` is a selectable trash folder.
pub open spec fn trash_target(folders: Seq<MailFolder>, current: Seq<char>) -> bool {
    exists|i: int|
        0 <= i < folders.len() && (#[trigger] folders[i]).selectable && folders[i].id@ != current
            && folders[i].role == Some(MailFolderRole::Trash)
}

/// Whether the "Trash" button of a message in `current` is enabled.
pub fn has_trash_target(folders: &Vec<MailFolder>, current: &str) -> (r: bool)
    ensures
        r == trash_target(folders@, current@),
{
    let mut k: usize = 0;
    while k < folders.len()
        invariant
            k <= folders.len(),
            forall|i: int|
                0 <= i < k ==> !((#[trigger] folders@[i]).selectable && folders@[i].id@ != current@
                    && folders@[i].role == Some(MailFolderRole::Trash)),
        decreases folders.len() - k,
    {
        let f = &folders[k];
        if f.selectable && !str_eq(f.id.as_str(), current) && f.role == Some(MailFolderRole::Trash) {
            return true;
        }
        k = k + 1;
    }
    false
}

/// The drafts without the one with id `id`.
pub open spec fn without_draft(drafts: Seq<MailDraft>, id: Seq<char>) -> Seq<MailDraft> {
    drafts.filter(|d: MailDraft| d.id@ != id)
}

/// Drops a draft from the list after it was sent or deleted.
pub fn remove_draft(drafts: Vec<MailDraft>, id: &str) -> (r: Vec<MailDraft>)
    ensures
        r@ == without_draft(drafts@, id@),
{
    let ghost all = drafts@;
    let mut out: Vec<MailDraft> = Vec::new();
    let mut k: usize = 0;
    while k < drafts.len()
        invariant
            k <= drafts.len(),
            drafts@ == all,
            out@ == without_draft(all.take(k as int), id@),
        decreases drafts.len() - k,
    {
        assert(all.take(k + 1).drop_last() =~= all.take(k as int));
        proof {
            reveal_with_fuel(Seq::filter, 1);
        }
        if !str_eq(drafts[k].id.as_str(), id) {
            out.push(drafts[k].duplicate());
        }
        k = k + 1;
    }
    assert(all.take(drafts.len() as int) =~= all);
    out
}

/// The placement of the toast stack: raised above the sync status line while
/// one shows.
pub fn toast_stack_class(has_status: bool) -> (r: &'static str)
    ensures
        r@ == if has_status {
            "pointer-events-none fixed bottom-14 right-4 z-[60] flex w-[min(28rem,calc(100vw-2rem))] flex-col gap-2"@
        } else {
            "pointer-events-none fixed bottom-4 right-4 z-[60] flex w-[min(28rem,calc(100vw-2rem))] flex-col gap-2"@
        },
{
    if has_status {
        "pointer-events-none fixed bottom-14 right-4 z-[60] flex w-[min(28rem,calc(100vw-2rem))] flex-col gap-2"
    } else {
        "pointer-events-none fixed bottom-4 right-4 z-[60] flex w-[min(28rem,calc(100vw-2rem))] flex-col gap-2"
    }
}

/// The notice after a message is sent, with what became of its copy in the
/// sent folder.
pub fn sent_notice(status: crate::mail_model::MailSentCopyStatus) -> (r: String)
    ensures
        r@ == "Message sent ("@ + crate::mail_labels::sent_copy_text(status) + ")"@,
{
    crate::text::concat3("Message sent (", crate::mail_labels::sent_copy_status_label(status), ")")
}

/// The notice after a message is moved out of the folder: where it went,
/// when the server says.
pub fn moved_notice(destination: &Option<String>) -> (r: String)
    ensures
        r@ == match destination {
            Some(p) => "Message moved to "@ + p@,
            None => "Message moved"@,
        },
{
    match destination {
        Some(p) => crate::text::concat2("Message moved to ", p.as_str()),
        None => owned("Message moved"),
    }
}

/// The "automatic" choice of the folder settings, with the role that the
/// server gave the folder on its own.
pub fn automatic_role_label(role: Option<MailFolderRole>) -> (r: String)
    ensures
        r@ == match role {
            Some(x) => "Automatic ("@ + crate::mail_labels::role_name(x) + ")"@,
            None => "Automatic"@,
        },
{
    match role {
        Some(x) => crate::text::concat3("Automatic (", crate::mail_labels::folder_role_name(x), ")"),
        None => owned("Automatic"),
    }
}

/// The error shown when saving a draft in the background fails.
pub fn autosave_error(error: &str) -> (r: String)
    ensures
        r@ == "Draft autosave failed: "@ + error@,
{
    crate::text::concat2("Draft autosave failed: ", error)
}

/// The notice after an attachment is saved to the file store.
pub fn saved_to_files_notice(file_name: &str) -> (r: String)
    ensures
        r@ == "Saved "@ + file_name@ + " to Files"@,
{
    crate::text::concat3("Saved ", file_name, " to Files")
}

/// A port from the account form: the number typed when it reads as a port
/// (digits, an optional `+`, at most 65535), else `fallback`.
pub open spec fn port_value(text: Seq<char>, fallback: u16) -> u16 {
    match crate::text::parse_u64_spec(text) {
        Some(n) => if n <= 65535 { n as u16 } else { fallback },
        None => fallback,
    }
}

/// Reads a port from the account form, as `u16::from_str` does, falling
/// back to `fallback` (993 for IMAP, 465 for SMTP).
pub fn port_or(text: &str, fallback: u16) -> (r: u16)
    ensures
        r == port_value(text@, fallback),
{
    match crate::text::parse_u64(text) {
        Some(n) => if n <= 65535 {
            n as u16
        } else {
            fallback
        },
        None => fallback,
    }
}

/// Whether saving the account settings also sets a new password: only when
/// one was typed.
pub fn sets_new_password(password: &str) -> (r: bool)
    ensures
        r == !blank(password@),
{
    !is_blank(password)
}

/// A page of messages as the server lists it.
pub struct MessagePage {
    pub messages: Vec<MailMessageSummary>,
    pub next_cursor: Option<String>,
    pub has_more: bool,
}

/// The message list of the open folder: the messages shown, where the next
/// page starts, and whether there is one.
pub struct MessageList {
    pub messages: Vec<MailMessageSummary>,
    pub next_cursor: Option<String>,
    pub has_more: bool,
}

/// A further page arrived after scrolling: its messages join the list (one
/// listed already is replaced in place), and the page's cursor and "more"
/// flag take over.
pub fn apply_message_page(list: MessageList, page: MessagePage) -> (r: MessageList)
    ensures
        r.messages@ == crate::mail_account::merge_messages(list.messages@, page.messages@),
        r.next_cursor == page.next_cursor,
        r.has_more == page.has_more,
{
    MessageList {
        messages: crate::mail_account::append_unique_messages(list.messages, page.messages),
        next_cursor: page.next_cursor,
        has_more: page.has_more,
    }
}

/// A notice came up: the number of the timer that may dismiss it, newer
/// than any before.
pub fn notice_timer_started(token: u32) -> (r: u32)
    requires
        token < u32::MAX,
    ensures
        r == token + 1,
{
    token + 1
}

/// The dismiss timer `token` ran out: whether the notice goes. Only the
/// newest timer clears it, and only while the notice it was started for is
/// still the one shown.
pub fn notice_should_clear(latest: u32, token: u32, shown: &Option<String>, message: &str) -> (r: bool)
    ensures
        r == (latest == token && opt_view(*shown) == Some(message@)),
{
    if latest != token {
        return false;
    }
    match shown {
        Some(m) => str_eq(m.as_str(), message),
        None => false,
    }
}

/// The autosave wait `token` ran out: whether the draft is saved now. Only
/// the newest wait saves, and only while the compose form is open and no
/// send or save is under way.
pub fn autosave_due(latest: u32, token: u32, compose_open: bool, sending: bool, saving: bool) -> (r: bool)
    ensures
        r == (latest == token && compose_open && !sending && !saving),
{
    latest == token && compose_open && !sending && !saving
}

} // verus!
