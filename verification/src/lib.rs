//! Verified logic of the Uncloud web client: mail folder ordering and reply
//! composition, music, playlist and player bookkeeping, vault tree walks and
//! edits, admin settings decisions, and the text formatters that the pages
//! render.

pub mod admin;
pub mod mail_folders;
pub mod mail_account;
pub mod mail_body;
pub mod mail_compose;
pub mod mail_editor;
pub mod mail_labels;
pub mod mail_model;
pub mod mail_page;
pub mod mail_text;
pub mod music;
pub mod oauth;
pub mod order;
pub mod player;
pub mod playlist;
pub mod search;
pub mod settings;
pub mod sync_log;
pub mod text;
pub mod vault;
pub mod vault_file;
pub mod vault_store;
