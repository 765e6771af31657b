//! The mail data that the client's logic reads, held as plain values.

use vstd::prelude::*;

verus! {

/// Transport security of a mail server connection.
#[derive(Clone, Copy, Debug, PartialEq, Eq, Structural)]
pub enum MailSecurity {
    Tls,
    StartTls,
    Plain,
}

/// The special purpose of a mail folder.
#[derive(Clone, Copy, Debug, PartialEq, Eq, Structural)]
pub enum MailFolderRole {
    Inbox,
    Sent,
    Drafts,
    Trash,
    Archive,
    Spam,
    AllMail,
}

/// Where a folder's role came from.
#[derive(Clone, Copy, Debug, PartialEq, Eq, Structural)]
pub enum MailFolderRoleSource {
    Inferred,
    Manual,
}

/// What a compose window was opened for.
#[derive(Clone, Copy, Debug, PartialEq, Eq, Structural)]
pub enum MailComposeMode {
    New,
    Reply,
    ReplyAll,
    Forward,
}

/// What became of the copy of a sent message in the Sent folder.
#[derive(Clone, Copy, Debug, PartialEq, Eq, Structural)]
pub enum MailSentCopyStatus {
    ProviderSaved,
    Appended,
    SkippedNoSentFolder,
    Failed,
}

/// A copy of an optional string.
pub fn clone_opt(o: &Option<String>) -> (r: Option<String>)
    ensures
        r == *o,
{
    match o {
        Some(s) => Some(s.clone()),
        None => None,
    }
}

/// The view of an optional string.
pub open spec fn opt_view(o: Option<String>) -> Option<Seq<char>> {
    match o {
        Some(s) => Some(s@),
        None => None,
    }
}

/// A mail folder of an account.
pub struct MailFolder {
    pub id: String,
    pub account_id: String,
    pub name: String,
    pub path: String,
    pub parent_path: Option<String>,
    pub delimiter: Option<String>,
    pub role: Option<MailFolderRole>,
    pub role_source: MailFolderRoleSource,
    pub selectable: bool,
    pub sync_enabled: bool,
    pub sync_completed: bool,
    pub sync_in_progress: bool,
    pub unseen: Option<i64>,
}

impl MailFolder {
    /// A field-by-field copy.
    pub fn duplicate(&self) -> (r: MailFolder)
        ensures
            r == *self,
    {
        MailFolder {
            id: self.id.clone(),
            account_id: self.account_id.clone(),
            name: self.name.clone(),
            path: self.path.clone(),
            parent_path: clone_opt(&self.parent_path),
            delimiter: clone_opt(&self.delimiter),
            role: self.role,
            role_source: self.role_source,
            selectable: self.selectable,
            sync_enabled: self.sync_enabled,
            sync_completed: self.sync_completed,
            sync_in_progress: self.sync_in_progress,
            unseen: self.unseen,
        }
    }
}

/// A mail address with an optional display name.
pub struct MailAddress {
    pub name: Option<String>,
    pub address: String,
}

impl MailAddress {
    /// A field-by-field copy.
    pub fn duplicate(&self) -> (r: MailAddress)
        ensures
            r == *self,
    {
        MailAddress { name: clone_opt(&self.name), address: self.address.clone() }
    }
}

/// The listing data of a message.
pub struct MailMessageSummary {
    pub id: String,
    pub folder_id: String,
    pub uid: u64,
    pub subject: Option<String>,
    pub from: Vec<MailAddress>,
    pub to: Vec<MailAddress>,
    pub cc: Vec<MailAddress>,
    pub flags: Vec<String>,
    pub snippet: Option<String>,
    pub date: Option<String>,
    pub internal_date: Option<String>,
    pub message_id: Option<String>,
    pub in_reply_to: Option<String>,
    pub references: Vec<String>,
}

/// A message with its bodies.
pub struct MailMessageDetail {
    pub message: MailMessageSummary,
    pub body_text: Option<String>,
    pub body_html: Option<String>,
}

/// An attachment of a message.
pub struct MailAttachment {
    pub id: String,
    pub filename: Option<String>,
    pub content_type: Option<String>,
    pub size_bytes: Option<u64>,
}

/// A saved draft.
pub struct MailDraft {
    pub id: String,
    pub mode: MailComposeMode,
    pub subject: String,
    pub updated_at: String,
}

/// A sending identity of an account.
pub struct MailIdentity {
    pub account_id: String,
    pub display_name: String,
    pub email_address: String,
}

/// A mail account.
pub struct MailAccount {
    pub id: String,
    pub email_address: String,
    pub sync_in_progress: bool,
}

/// The outcome of syncing one folder.
pub struct MailFolderSyncResult {
    pub folder_path: String,
    pub error: Option<String>,
}

/// The outcome of syncing a whole account.
pub struct MailAccountSync {
    pub errors: u64,
    pub folders: Vec<MailFolderSyncResult>,
}

} // verus!
