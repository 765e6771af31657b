//! Decisions of the admin settings: which actions a user row offers, which
//! storage a rescan walks, and how a rescan job reads.

use vstd::prelude::*;
use crate::text::{concat2, concat3, decimal, owned, str_eq, trim, trim_str, u64_to_decimal};

verus! {

broadcast use vstd::string::group_string_axioms;

/// The role of a user account.
#[derive(Clone, Copy, Debug, PartialEq, Eq, Structural)]
pub enum UserRole {
    Admin,
    User,
}

/// The state of a user account.
#[derive(Clone, Copy, Debug, PartialEq, Eq, Structural)]
pub enum UserStatus {
    Active,
    Pending,
    Disabled,
}

/// The actions that the menu of a user row offers.
pub struct UserMenu {
    /// Whether the row has a menu at all.
    pub shown: bool,
    pub approve: bool,
    pub disable: bool,
    pub enable: bool,
    /// The role to switch to and the label of that item, if offered.
    pub change_role: Option<(UserRole, &'static str)>,
    pub reset_password: bool,
    pub reset_totp: bool,
}

/// The menu of a user row. Pending users can be approved, active ones
/// disabled (not oneself), disabled ones enabled; the role can be switched and
/// the password reset for anyone but oneself; two-factor login can be reset
/// where it is on. The menu shows when any of these could apply.
pub fn user_menu(role: UserRole, status: UserStatus, totp_enabled: bool, is_self: bool) -> (r: UserMenu)
    ensures
        r.shown == (!is_self || status == UserStatus::Pending || totp_enabled),
        r.approve == (status == UserStatus::Pending),
        r.disable == (status == UserStatus::Active && !is_self),
        r.enable == (status == UserStatus::Disabled),
        r.change_role == if is_self {
            None
        } else {
            match role {
                UserRole::Admin => Some((UserRole::User, "Demote to user")),
                UserRole::User => Some((UserRole::Admin, "Promote to admin")),
            }
        },
        r.reset_password == !is_self,
        r.reset_totp == totp_enabled,
{
    let change_role = if is_self {
        None
    } else {
        match role {
            UserRole::Admin => Some((UserRole::User, "Demote to user")),
            UserRole::User => Some((UserRole::Admin, "Promote to admin")),
        }
    };
    UserMenu {
        shown: !is_self || status == UserStatus::Pending || totp_enabled,
        approve: status == UserStatus::Pending,
        disable: status == UserStatus::Active && !is_self,
        enable: status == UserStatus::Disabled,
        change_role,
        reset_password: !is_self,
        reset_totp: totp_enabled,
    }
}

/// Picks the storage that a rescan walks, from the default flags of the
/// storages in order: the first default storage, else the first storage;
/// none when there is no storage.
pub fn rescan_target(is_default: &Vec<bool>) -> (r: Option<usize>)
    ensures
        match r {
            Some(i) => i < is_default.len() && ((is_default[i as int] && forall|j: int| 0 <= j < i ==> !is_default[j])
                || (i == 0 && forall|j: int| 0 <= j < is_default.len() ==> !is_default[j])),
            None => is_default.len() == 0,
        },
{
    let mut i: usize = 0;
    while i < is_default.len()
        invariant
            i <= is_default.len(),
            forall|j: int| 0 <= j < i ==> !is_default[j],
        decreases is_default.len() - i,
    {
        if is_default[i] {
            return Some(i);
        }
        i = i + 1;
    }
    if is_default.len() > 0 {
        Some(0)
    } else {
        None
    }
}

/// The state of a rescan job.
#[derive(Clone, Copy, Debug, PartialEq, Eq, Structural)]
pub enum RescanStatus {
    Running,
    Completed,
    Cancelled,
    Failed,
}

/// What the settings page reads of a rescan job.
pub struct RescanJob {
    pub status: RescanStatus,
    pub total_entries: Option<u64>,
    pub processed_entries: u64,
    pub imported_files: u64,
    pub imported_folders: u64,
    pub skipped_existing: u64,
    pub error: Option<String>,
}

/// The alert style of a rescan job.
pub fn rescan_alert_class(status: RescanStatus) -> (r: &'static str)
    ensures
        r@ == match status {
            RescanStatus::Running => "alert alert-info text-sm flex-col items-start"@,
            RescanStatus::Completed => "alert alert-success text-sm flex-col items-start"@,
            RescanStatus::Cancelled => "alert alert-warning text-sm flex-col items-start"@,
            RescanStatus::Failed => "alert alert-error text-sm"@,
        },
{
    match status {
        RescanStatus::Running => "alert alert-info text-sm flex-col items-start",
        RescanStatus::Completed => "alert alert-success text-sm flex-col items-start",
        RescanStatus::Cancelled => "alert alert-warning text-sm flex-col items-start",
        RescanStatus::Failed => "alert alert-error text-sm",
    }
}

/// The headline of a rescan job: progress while it runs, the counts when it
/// completed or was cancelled, the error when it failed.
pub open spec fn rescan_text(job: RescanJob) -> Seq<char> {
    match job.status {
        RescanStatus::Running => match job.total_entries {
            Some(t) => "Scanning… "@ + decimal(job.processed_entries as nat) + " / "@ + decimal(t as nat)
                + " entries processed"@,
            None => "Scanning… "@ + decimal(job.processed_entries as nat) + " entries processed"@,
        },
        RescanStatus::Completed => "Scanned "@ + decimal(job.processed_entries as nat) + " entries — imported "@
            + decimal(job.imported_folders as nat) + " folder(s) and "@ + decimal(job.imported_files as nat)
            + " file(s), skipped "@ + decimal(job.skipped_existing as nat) + " already tracked."@,
        RescanStatus::Cancelled => "Rescan cancelled after "@ + decimal(job.processed_entries as nat)
            + " entries — imported "@ + decimal(job.imported_folders as nat) + " folder(s) and "@ + decimal(
            job.imported_files as nat,
        ) + " file(s)."@,
        RescanStatus::Failed => "Rescan failed: "@ + match job.error {
            Some(e) => e@,
            None => "unknown error"@,
        },
    }
}

/// The headline of a rescan job.
pub fn rescan_summary(job: &RescanJob) -> (r: String)
    ensures
        r@ == rescan_text(*job),
{
    let processed = u64_to_decimal(job.processed_entries);
    match job.status {
        RescanStatus::Running => match job.total_entries {
            Some(t) => {
                let mut s = concat3("Scanning… ", processed.as_str(), " / ");
                s.append(u64_to_decimal(t).as_str());
                s.append(" entries processed");
                s
            },
            None => concat3("Scanning… ", processed.as_str(), " entries processed"),
        },
        RescanStatus::Completed => {
            let mut s = concat3("Scanned ", processed.as_str(), " entries — imported ");
            s.append(u64_to_decimal(job.imported_folders).as_str());
            s.append(" folder(s) and ");
            s.append(u64_to_decimal(job.imported_files).as_str());
            s.append(" file(s), skipped ");
            s.append(u64_to_decimal(job.skipped_existing).as_str());
            s.append(" already tracked.");
            s
        },
        RescanStatus::Cancelled => {
            let mut s = concat3("Rescan cancelled after ", processed.as_str(), " entries — imported ");
            s.append(u64_to_decimal(job.imported_folders).as_str());
            s.append(" folder(s) and ");
            s.append(u64_to_decimal(job.imported_files).as_str());
            s.append(" file(s).");
            s
        },
        RescanStatus::Failed => match &job.error {
            Some(e) => concat2("Rescan failed: ", e.as_str()),
            None => {
                let r = owned("Rescan failed: unknown error");
                proof {
                    reveal_strlit("Rescan failed: unknown error");
                    reveal_strlit("Rescan failed: ");
                    reveal_strlit("unknown error");
                }
                assert(r@ =~= rescan_text(*job));
                r
            },
        },
    }
}

/// The alert style of the message after a reindex or a processing rerun,
/// by whether it went well.
pub fn outcome_alert_class(ok: bool) -> (r: &'static str)
    ensures
        r@ == if ok {
            "alert alert-success text-sm"@
        } else {
            "alert alert-error text-sm"@
        },
{
    if ok {
        "alert alert-success text-sm"
    } else {
        "alert alert-error text-sm"
    }
}

/// The check before a password change is sent: the new password and its
/// confirmation must match.
pub fn password_change_error(new_password: &str, confirm: &str) -> (r: Option<String>)
    ensures
        r matches Some(e) ==> e@ == "Passwords do not match"@,
        r is Some <==> new_password@ != confirm@,
{
    if crate::text::str_eq(new_password, confirm) {
        None
    } else {
        Some(crate::text::owned("Passwords do not match"))
    }
}

/// The role that a role select of the admin forms asks for: `admin` asks for
/// the admin role; anything else leaves the server's default.
pub fn role_choice(value: &str) -> (r: Option<UserRole>)
    ensures
        r == if value@ == "admin"@ {
            Some(UserRole::Admin)
        } else {
            None
        },
{
    if str_eq(value, "admin") {
        Some(UserRole::Admin)
    } else {
        None
    }
}

/// An optional text field of the admin forms: trimmed, and none when blank.
pub fn trimmed_optional(value: &str) -> (r: Option<String>)
    ensures
        crate::mail_model::opt_view(r) == if trim(value@).len() == 0 {
            None
        } else {
            Some(trim(value@))
        },
{
    let t = trim_str(value);
    if t.as_str().is_empty() {
        None
    } else {
        Some(t)
    }
}

/// The link that an invite is sent as: `base/invite/token`.
pub fn invite_link(base: &str, token: &str) -> (r: String)
    ensures
        r@ == base@ + "/invite/"@ + token@,
{
    concat3(base, "/invite/", token)
}

/// Who used an invite: the user name, with the email in parentheses when
/// known.
pub fn invite_user_label(username: &str, email: &Option<String>) -> (r: String)
    ensures
        r@ == match email {
            Some(e) => username@ + " ("@ + e@ + ")"@,
            None => username@,
        },
{
    match email {
        Some(e) => {
            let head = concat3(username, " (", e.as_str());
            concat2(head.as_str(), ")")
        },
        None => owned(username),
    }
}

/// The role column of an invite; an invite without a role makes a user.
pub fn invite_role_label(role: Option<UserRole>) -> (r: &'static str)
    ensures
        r@ == match role {
            Some(UserRole::Admin) => "Admin"@,
            _ => "User"@,
        },
{
    match role {
        Some(UserRole::Admin) => "Admin",
        _ => "User",
    }
}

/// The button that removes an invite: a used one is deleted, an open one
/// revoked.
pub fn invite_remove_label(used: bool) -> (r: &'static str)
    ensures
        r@ == if used {
            "Delete"@
        } else {
            "Revoke"@
        },
{
    if used {
        "Delete"
    } else {
        "Revoke"
    }
}

} // verus!
