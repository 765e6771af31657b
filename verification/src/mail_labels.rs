//! The names, labels and form values of mail enums, and folder depth.

use vstd::prelude::*;
use crate::mail_model::{
    MailComposeMode, MailFolder, MailFolderRole, MailFolderRoleSource, MailSecurity,
    MailSentCopyStatus,
};
use crate::text::{chars_of, owned, str_eq};

verus! {

/// The security setting that a form value selects; anything unknown is TLS.
pub open spec fn security_of_value(value: Seq<char>) -> MailSecurity {
    if value == "start_tls"@ {
        MailSecurity::StartTls
    } else if value == "plain"@ {
        MailSecurity::Plain
    } else {
        MailSecurity::Tls
    }
}

/// Reads a security setting from its form value.
pub fn security_from_value(value: &str) -> (r: MailSecurity)
    ensures
        r == security_of_value(value@),
{
    if str_eq(value, "start_tls") {
        MailSecurity::StartTls
    } else if str_eq(value, "plain") {
        MailSecurity::Plain
    } else {
        MailSecurity::Tls
    }
}

/// The form value of a security setting.
pub open spec fn security_value(value: MailSecurity) -> Seq<char> {
    match value {
        MailSecurity::StartTls => "start_tls"@,
        MailSecurity::Plain => "plain"@,
        MailSecurity::Tls => "tls"@,
    }
}

/// Writes a security setting as its form value.
pub fn security_to_value(value: MailSecurity) -> (r: &'static str)
    ensures
        r@ == security_value(value),
{
    match value {
        MailSecurity::StartTls => "start_tls",
        MailSecurity::Plain => "plain",
        MailSecurity::Tls => "tls",
    }
}

/// The display name of a folder role.
pub open spec fn role_name(role: MailFolderRole) -> Seq<char> {
    match role {
        MailFolderRole::Inbox => "Inbox"@,
        MailFolderRole::Sent => "Sent"@,
        MailFolderRole::Drafts => "Drafts"@,
        MailFolderRole::Trash => "Trash"@,
        MailFolderRole::Archive => "Archive"@,
        MailFolderRole::Spam => "Spam"@,
        MailFolderRole::AllMail => "All mail"@,
    }
}

/// The display name of a folder role.
pub fn folder_role_name(role: MailFolderRole) -> (r: &'static str)
    ensures
        r@ == role_name(role),
{
    match role {
        MailFolderRole::Inbox => "Inbox",
        MailFolderRole::Sent => "Sent",
        MailFolderRole::Drafts => "Drafts",
        MailFolderRole::Trash => "Trash",
        MailFolderRole::Archive => "Archive",
        MailFolderRole::Spam => "Spam",
        MailFolderRole::AllMail => "All mail",
    }
}

/// The badge label of a folder: the name of its role, if it has one.
pub fn folder_role_label(role: Option<MailFolderRole>) -> (r: Option<&'static str>)
    ensures
        match role {
            Some(x) => r.is_some() && r.unwrap()@ == role_name(x),
            None => r.is_none(),
        },
{
    match role {
        Some(x) => Some(folder_role_name(x)),
        None => None,
    }
}

/// The form value of a role choice.
pub open spec fn role_value(role: Option<MailFolderRole>) -> Seq<char> {
    match role {
        Some(MailFolderRole::Inbox) => "inbox"@,
        Some(MailFolderRole::Sent) => "sent"@,
        Some(MailFolderRole::Drafts) => "drafts"@,
        Some(MailFolderRole::Trash) => "trash"@,
        Some(MailFolderRole::Archive) => "archive"@,
        Some(MailFolderRole::Spam) => "spam"@,
        Some(MailFolderRole::AllMail) => "all_mail"@,
        None => "none"@,
    }
}

/// The role setting that the folder settings form starts from: `"auto"` for
/// an inferred role, else the value of the folder's role.
pub open spec fn folder_role_setting(folder: MailFolder) -> Seq<char> {
    if folder.role_source == MailFolderRoleSource::Inferred {
        "auto"@
    } else {
        role_value(folder.role)
    }
}

/// The role setting of a folder, as the folder settings form shows it.
pub fn folder_role_value_for(folder: &MailFolder) -> (r: String)
    ensures
        r@ == folder_role_setting(*folder),
{
    if folder.role_source == MailFolderRoleSource::Inferred {
        return owned("auto");
    }
    let v = match folder.role {
        Some(MailFolderRole::Inbox) => "inbox",
        Some(MailFolderRole::Sent) => "sent",
        Some(MailFolderRole::Drafts) => "drafts",
        Some(MailFolderRole::Trash) => "trash",
        Some(MailFolderRole::Archive) => "archive",
        Some(MailFolderRole::Spam) => "spam",
        Some(MailFolderRole::AllMail) => "all_mail",
        None => "none",
    };
    owned(v)
}

/// The role that a form value selects; `None` for `"none"`, `"auto"` and
/// anything unknown.
pub open spec fn role_of_value(value: Seq<char>) -> Option<MailFolderRole> {
    if value == "inbox"@ {
        Some(MailFolderRole::Inbox)
    } else if value == "sent"@ {
        Some(MailFolderRole::Sent)
    } else if value == "drafts"@ {
        Some(MailFolderRole::Drafts)
    } else if value == "trash"@ {
        Some(MailFolderRole::Trash)
    } else if value == "archive"@ {
        Some(MailFolderRole::Archive)
    } else if value == "spam"@ {
        Some(MailFolderRole::Spam)
    } else if value == "all_mail"@ {
        Some(MailFolderRole::AllMail)
    } else {
        None
    }
}

/// Reads a role from its form value.
pub fn folder_role_from_value(value: &str) -> (r: Option<MailFolderRole>)
    ensures
        r == role_of_value(value@),
{
    if str_eq(value, "inbox") {
        Some(MailFolderRole::Inbox)
    } else if str_eq(value, "sent") {
        Some(MailFolderRole::Sent)
    } else if str_eq(value, "drafts") {
        Some(MailFolderRole::Drafts)
    } else if str_eq(value, "trash") {
        Some(MailFolderRole::Trash)
    } else if str_eq(value, "archive") {
        Some(MailFolderRole::Archive)
    } else if str_eq(value, "spam") {
        Some(MailFolderRole::Spam)
    } else if str_eq(value, "all_mail") {
        Some(MailFolderRole::AllMail)
    } else {
        None
    }
}

/// The number of non-overlapping occurrences of a non-empty `pat` in `s`,
/// found from the left, as `str::matches(..).count()` counts them.
pub open spec fn count_matches(s: Seq<char>, pat: Seq<char>) -> nat
    decreases s.len(),
{
    if pat.len() == 0 || s.len() < pat.len() {
        0
    } else if s.take(pat.len() as int) == pat {
        1 + count_matches(s.skip(pat.len() as int), pat)
    } else {
        count_matches(s.drop_first(), pat)
    }
}

fn matches_at(s: &Vec<char>, i: usize, pat: &Vec<char>) -> (r: bool)
    requires
        i + pat.len() <= s.len(),
    ensures
        r == (s@.skip(i as int).take(pat.len() as int) == pat@),
{
    let mut k: usize = 0;
    while k < pat.len()
        invariant
            k <= pat.len(),
            i + pat.len() <= s.len(),
            forall|j: int| 0 <= j < k ==> s@[i + j] == pat@[j],
        decreases pat.len() - k,
    {
        if s[i + k] != pat[k] {
            assert(s@.skip(i as int).take(pat.len() as int)[k as int] != pat@[k as int]);
            return false;
        }
        k = k + 1;
    }
    assert(s@.skip(i as int).take(pat.len() as int) =~= pat@);
    true
}

/// The number of non-overlapping occurrences of a non-empty `pat` in `s`.
pub fn count_occurrences(s: &Vec<char>, pat: &Vec<char>) -> (r: usize)
    requires
        pat.len() > 0,
    ensures
        r == count_matches(s@, pat@),
{
    let mut i: usize = 0;
    let mut n: usize = 0;
    assert(s@.skip(0) =~= s@);
    while pat.len() <= s.len() - i
        invariant
            i <= s.len(),
            pat.len() > 0,
            n <= i,
            count_matches(s@, pat@) == n + count_matches(s@.skip(i as int), pat@),
        decreases s.len() - i,
    {
        let ghost rest = s@.skip(i as int);
        if matches_at(s, i, pat) {
            assert(rest.skip(pat.len() as int) =~= s@.skip(i + pat.len()));
            n = n + 1;
            i = i + pat.len();
        } else {
            assert(rest.drop_first() =~= s@.skip(i + 1));
            i = i + 1;
        }
    }
    assert(s@.skip(i as int).len() < pat@.len());
    n
}

/// The nesting depth of a folder: how often its delimiter occurs in its path,
/// or 0 without a non-empty delimiter.
pub open spec fn depth_of(folder: MailFolder) -> nat {
    match folder.delimiter {
        Some(d) => if d@.len() > 0 {
            count_matches(folder.path@, d@)
        } else {
            0
        },
        None => 0,
    }
}

/// The nesting depth of a folder, by which the folder list indents it.
pub fn folder_depth(folder: &MailFolder) -> (r: usize)
    ensures
        r == depth_of(*folder),
{
    match &folder.delimiter {
        Some(d) => {
            let dv = chars_of(d.as_str());
            if dv.len() == 0 {
                0
            } else {
                let pv = chars_of(folder.path.as_str());
                count_occurrences(&pv, &dv)
            }
        },
        None => 0,
    }
}

/// The title of a compose window.
pub open spec fn compose_title_text(mode: MailComposeMode) -> Seq<char> {
    match mode {
        MailComposeMode::New => "Compose"@,
        MailComposeMode::Reply => "Reply"@,
        MailComposeMode::ReplyAll => "Reply all"@,
        MailComposeMode::Forward => "Forward"@,
    }
}

/// The title of a compose window.
pub fn compose_title(mode: MailComposeMode) -> (r: &'static str)
    ensures
        r@ == compose_title_text(mode),
{
    match mode {
        MailComposeMode::New => "Compose",
        MailComposeMode::Reply => "Reply",
        MailComposeMode::ReplyAll => "Reply all",
        MailComposeMode::Forward => "Forward",
    }
}

/// How the outcome of the Sent copy reads in a notice.
pub open spec fn sent_copy_text(status: MailSentCopyStatus) -> Seq<char> {
    match status {
        MailSentCopyStatus::ProviderSaved => "provider saved Sent copy"@,
        MailSentCopyStatus::Appended => "Sent copy appended"@,
        MailSentCopyStatus::SkippedNoSentFolder => "no Sent folder configured"@,
        MailSentCopyStatus::Failed => "Sent copy failed"@,
    }
}

/// How the outcome of the Sent copy reads in a notice.
pub fn sent_copy_status_label(status: MailSentCopyStatus) -> (r: &'static str)
    ensures
        r@ == sent_copy_text(status),
{
    match status {
        MailSentCopyStatus::ProviderSaved => "provider saved Sent copy",
        MailSentCopyStatus::Appended => "Sent copy appended",
        MailSentCopyStatus::SkippedNoSentFolder => "no Sent folder configured",
        MailSentCopyStatus::Failed => "Sent copy failed",
    }
}

/// Writing a security setting as its form value and reading the value back
/// gives the same setting.
pub proof fn lemma_security_value_round_trip(value: MailSecurity)
    ensures
        security_of_value(security_value(value)) == value,
{
    reveal_strlit("start_tls");
    reveal_strlit("plain");
    reveal_strlit("tls");
    let v = security_value(value);
    match value {
        MailSecurity::StartTls => {},
        MailSecurity::Plain => {
            assert(v.len() != "start_tls"@.len());
        },
        MailSecurity::Tls => {
            assert(v.len() != "start_tls"@.len());
            assert(v[0] != "plain"@[0]);
        },
    }
}

proof fn lemma_role_value_inverse(role: Option<MailFolderRole>)
    ensures
        role_of_value(role_value(role)) == role,
{
    reveal_strlit("inbox");
    reveal_strlit("sent");
    reveal_strlit("drafts");
    reveal_strlit("trash");
    reveal_strlit("archive");
    reveal_strlit("spam");
    reveal_strlit("all_mail");
    reveal_strlit("none");
    let v = role_value(role);
    assert(v.len() > 0);
    match role {
        Some(MailFolderRole::Inbox) => {
            assert(v[0] == 'i');
        },
        Some(MailFolderRole::Sent) => {
            assert(v[0] == 's' && v[1] == 'e');
            assert(v != "spam"@ && v != "inbox"@ && v != "drafts"@);
        },
        Some(MailFolderRole::Drafts) => {
            assert(v[0] == 'd');
        },
        Some(MailFolderRole::Trash) => {
            assert(v[0] == 't');
        },
        Some(MailFolderRole::Archive) => {
            assert(v[0] == 'a' && v.len() == 7);
        },
        Some(MailFolderRole::Spam) => {
            assert(v[0] == 's' && v[1] == 'p');
            assert(v != "sent"@);
        },
        Some(MailFolderRole::AllMail) => {
            assert(v[0] == 'a' && v.len() == 8);
            assert(v != "archive"@);
        },
        None => {
            assert(v[0] == 'n');
            assert(v != "inbox"@ && v != "sent"@ && v != "drafts"@ && v != "trash"@);
            assert(v != "archive"@ && v != "spam"@ && v != "all_mail"@);
        },
    }
}

/// Writing a role choice as its form value and reading the value back gives
/// the same choice; so does the setting that the folder form starts from,
/// for a folder whose role was set by hand.
pub proof fn lemma_role_value_round_trip(role: Option<MailFolderRole>, folder: MailFolder)
    ensures
        role_of_value(role_value(role)) == role,
        folder.role_source != MailFolderRoleSource::Inferred ==> role_of_value(
            folder_role_setting(folder),
        ) == folder.role,
{
    lemma_role_value_inverse(role);
    lemma_role_value_inverse(folder.role);
}

} // verus!
