use uncloud_web::admin::{
    invite_link, invite_remove_label, invite_role_label, invite_user_label, outcome_alert_class, password_change_error,
    rescan_alert_class,
    rescan_summary, rescan_target, role_choice, trimmed_optional, user_menu, RescanJob, RescanStatus, UserRole,
    UserStatus,
};
use uncloud_web::music::{
    categories_with, category_error_message, category_for_folder, music_search_reply, music_search_typed,
    music_search_wait_over, new_category_name, shows_music_results, toggle_category_folder, MusicCategory, MusicSearch,
};
use uncloud_web::playlist::{
    add_to_playlist_message, create_error_message, created_and_added_message, move_item, playlist_row_class,
    rename_error_message, rename_plan, tag_or_unknown, total_duration_label, track_click, track_number_label,
    track_row_class, track_title, RenamePlan, TrackClick,
};
use uncloud_web::settings::{
    effective_tiles, s3_credentials_text, settings_tab, settings_wrapper_class, toggle_tile, SettingsTab,
};
use uncloud_web::vault::{custom_field_writes, editable_custom_fields, is_standard_field, stale_custom_keys};

fn field(k: &str, v: &str, p: bool) -> (String, String, bool) {
    (k.to_string(), v.to_string(), p)
}

#[test]
fn dragging_moves_one_item() {
    let mut v = vec!["a", "b", "c", "d"];
    assert!(move_item(&mut v, 0, 2));
    assert_eq!(v, vec!["b", "c", "a", "d"]);
    assert!(move_item(&mut v, 3, 0));
    assert_eq!(v, vec!["d", "b", "c", "a"]);
    assert!(move_item(&mut v, 1, 99));
    assert_eq!(v, vec!["d", "c", "a", "b"]);
    assert!(!move_item(&mut v, 2, 2));
    assert!(!move_item(&mut v, 7, 1));
    assert_eq!(v, vec!["d", "c", "a", "b"]);
}

#[test]
fn playlist_rows_and_durations() {
    assert_eq!(playlist_row_class(Some(2), Some(4), true, 2, true), "opacity-30");
    assert_eq!(playlist_row_class(Some(5), Some(1), true, 1, false), "border-t-2 border-t-primary bg-primary/5");
    assert_eq!(playlist_row_class(Some(0), Some(3), true, 3, false), "border-b-2 border-b-primary bg-primary/5");
    assert_eq!(playlist_row_class(None, Some(3), false, 3, true), "hover:bg-base-200 bg-primary/10");
    assert_eq!(playlist_row_class(None, None, false, 0, false), "hover:bg-base-200");
    assert_eq!(total_duration_label(42), "42 min");
    assert_eq!(total_duration_label(60), "1 hr 0 min");
    assert_eq!(total_duration_label(135), "2 hr 15 min");
}

#[test]
fn rename_form_plans() {
    match rename_plan("  ", "x", "Old", &None) {
        RenamePlan::Invalid(e) => assert_eq!(e, "Name cannot be empty"),
        _ => panic!("expected a refusal"),
    }
    assert!(matches!(rename_plan(" Old ", "  ", "Old", &None), RenamePlan::Unchanged));
    match rename_plan("New", "", "Old", &None) {
        RenamePlan::Update { name, description, new_name, new_description } => {
            assert_eq!(name, Some("New".to_string()));
            assert_eq!(description, Some(String::new()));
            assert_eq!(new_name, "New");
            assert_eq!(new_description, None);
        },
        _ => panic!("expected an update"),
    }
    match rename_plan("Old", " Notes ", "Old", &Some("Before".to_string())) {
        RenamePlan::Update { name, description, new_name, new_description } => {
            assert_eq!(name, None);
            assert_eq!(description, Some("Notes".to_string()));
            assert_eq!(new_name, "Old");
            assert_eq!(new_description, Some("Notes".to_string()));
        },
        _ => panic!("expected an update"),
    }
    assert_eq!(rename_error_message("CONFLICT"), "A playlist with this name already exists");
    assert_eq!(rename_error_message("HTTP 500"), "HTTP 500");
    assert_eq!(create_error_message("Road", "CONFLICT"), "\"Road\" already exists");
    assert_eq!(create_error_message("Road", "offline"), "offline");
}

#[test]
fn user_row_menus() {
    let me = user_menu(UserRole::Admin, UserStatus::Active, false, true);
    assert!(!me.shown && !me.disable && !me.reset_password && me.change_role.is_none());
    let pending = user_menu(UserRole::User, UserStatus::Pending, false, false);
    assert!(pending.shown && pending.approve && !pending.disable && !pending.enable && pending.reset_password);
    assert_eq!(pending.change_role, Some((UserRole::Admin, "Promote to admin")));
    let admin = user_menu(UserRole::Admin, UserStatus::Disabled, true, false);
    assert!(admin.enable && admin.reset_totp && !admin.approve);
    assert_eq!(admin.change_role, Some((UserRole::User, "Demote to user")));
    let me_totp = user_menu(UserRole::User, UserStatus::Active, true, true);
    assert!(me_totp.shown && me_totp.reset_totp && !me_totp.disable);
}

#[test]
fn rescan_choices_and_texts() {
    assert_eq!(rescan_target(&vec![false, true, true]), Some(1));
    assert_eq!(rescan_target(&vec![false, false]), Some(0));
    assert_eq!(rescan_target(&vec![]), None);
    let mut job = RescanJob {
        status: RescanStatus::Running,
        total_entries: Some(10),
        processed_entries: 4,
        imported_files: 2,
        imported_folders: 1,
        skipped_existing: 3,
        error: None,
    };
    assert_eq!(rescan_summary(&job), "Scanning… 4 / 10 entries processed");
    job.total_entries = None;
    assert_eq!(rescan_summary(&job), "Scanning… 4 entries processed");
    job.status = RescanStatus::Completed;
    assert_eq!(
        rescan_summary(&job),
        "Scanned 4 entries — imported 1 folder(s) and 2 file(s), skipped 3 already tracked."
    );
    job.status = RescanStatus::Cancelled;
    assert_eq!(rescan_summary(&job), "Rescan cancelled after 4 entries — imported 1 folder(s) and 2 file(s).");
    job.status = RescanStatus::Failed;
    assert_eq!(rescan_summary(&job), "Rescan failed: unknown error");
    job.error = Some("disk gone".to_string());
    assert_eq!(rescan_summary(&job), "Rescan failed: disk gone");
    assert_eq!(rescan_alert_class(RescanStatus::Failed), "alert alert-error text-sm");
    assert_eq!(outcome_alert_class(true), "alert alert-success text-sm");
}

#[test]
fn category_shown_for_a_folder() {
    let cats = vec![
        MusicCategory { id: "c1".to_string(), name: "Zen".to_string(), folder_ids: vec!["f1".to_string()] },
        MusicCategory { id: "c2".to_string(), name: "ambient".to_string(), folder_ids: vec!["f2".to_string(), "f1".to_string()] },
        MusicCategory { id: "c3".to_string(), name: "Ambient".to_string(), folder_ids: vec!["f1".to_string()] },
        MusicCategory { id: "c4".to_string(), name: "Aardvark".to_string(), folder_ids: vec!["f9".to_string()] },
    ];
    assert_eq!(category_for_folder(&cats, "f1"), Some("c2".to_string()));
    assert_eq!(category_for_folder(&cats, "f2"), Some("c2".to_string()));
    assert_eq!(category_for_folder(&cats, "nope"), None);
}

#[test]
fn entry_field_edits() {
    assert!(is_standard_field("URL"));
    assert!(!is_standard_field("url"));
    let fields = vec![field("Title", "t", false), field("PIN", "1234", true), field("Empty", "", false), field("Q", "a", false)];
    assert_eq!(editable_custom_fields(&fields), vec![field("PIN", "1234", true), field("Q", "a", false)]);
    let edited = vec![field(" PIN ", "9", true), field("Q", "b", false), field("  ", "lost", false)];
    let old_keys = vec!["Title".to_string(), "PIN".to_string(), "Q".to_string(), "Gone".to_string()];
    assert_eq!(stale_custom_keys(&old_keys, &edited), vec!["PIN".to_string(), "Gone".to_string()]);
    assert_eq!(custom_field_writes(&edited), vec![field("PIN", "9", true), field("Q", "b", false)]);
}

#[test]
fn invite_and_user_forms() {
    assert_eq!(role_choice("admin"), Some(UserRole::Admin));
    assert_eq!(role_choice("user"), None);
    assert_eq!(trimmed_optional("  note "), Some("note".to_string()));
    assert_eq!(trimmed_optional("   "), None);
    assert_eq!(invite_link("https://cloud.example", "tok123"), "https://cloud.example/invite/tok123");
    assert_eq!(invite_user_label("ann", &Some("ann@x.org".to_string())), "ann (ann@x.org)");
    assert_eq!(invite_user_label("ann", &None), "ann");
    assert_eq!(invite_role_label(Some(UserRole::Admin)), "Admin");
    assert_eq!(invite_role_label(None), "User");
    assert_eq!(invite_remove_label(true), "Delete");
    assert_eq!(invite_remove_label(false), "Revoke");
}

fn strings(v: &[&str]) -> Vec<String> {
    v.iter().map(|s| s.to_string()).collect()
}

#[test]
fn dashboard_tiles() {
    assert_eq!(effective_tiles(vec![], strings(&["files", "music"])), strings(&["files", "music"]));
    assert_eq!(effective_tiles(strings(&["music"]), strings(&["files"])), strings(&["music"]));
    let on = strings(&["files", "music", "notes"]);
    let off = toggle_tile(&on, "music");
    assert_eq!(off, strings(&["files", "notes"]));
    let back = toggle_tile(&off, "music");
    assert_eq!(back, strings(&["files", "notes", "music"]));
    assert_eq!(toggle_tile(&back, "music"), off);
    assert_eq!(
        s3_credentials_text("AK", "SK"),
        "[default]\naws_access_key_id = AK\naws_secret_access_key = SK"
    );
}

#[test]
fn settings_tabs() {
    assert_eq!(settings_tab("account", false, false), SettingsTab::Account);
    assert_eq!(settings_tab("sync", false, true), SettingsTab::NotFound);
    assert_eq!(settings_tab("sync", true, false), SettingsTab::Sync);
    assert_eq!(settings_tab("users", true, false), SettingsTab::NotFound);
    assert_eq!(settings_tab("users", false, true), SettingsTab::Users);
    assert_eq!(settings_tab("admin", false, true), SettingsTab::Admin);
    assert_eq!(settings_tab("preferences", false, false), SettingsTab::Preferences);
    assert_eq!(settings_tab("activity", false, false), SettingsTab::Activity);
    assert_eq!(settings_tab("nope", true, true), SettingsTab::NotFound);
    assert_eq!(settings_wrapper_class("sync"), "space-y-6 max-w-6xl");
    assert_eq!(settings_wrapper_class("account"), "space-y-6 max-w-2xl");
}

#[test]
fn track_rows_tint_the_playing_track() {
    assert_eq!(track_row_class(true, true), "hover:bg-base-200 transition-colors bg-primary/10 group");
    assert_eq!(track_row_class(true, false), "hover:bg-base-200 transition-colors group");
    assert_eq!(track_row_class(false, true), "hover:bg-base-200 transition-colors group");
}

#[test]
fn track_play_button_toggles_or_starts() {
    assert_eq!(track_click(3, true, true), TrackClick::SetPlaying(false));
    assert_eq!(track_click(3, true, false), TrackClick::SetPlaying(true));
    assert_eq!(track_click(3, false, true), TrackClick::Play(3));
}

#[test]
fn track_labels_fall_back() {
    assert_eq!(track_title(&Some("Song".to_string()), "song.mp3"), "Song");
    assert_eq!(track_title(&None, "song.mp3"), "song.mp3");
    assert_eq!(tag_or_unknown(&None), "Unknown");
    assert_eq!(tag_or_unknown(&Some("Band".to_string())), "Band");
    assert_eq!(track_number_label(Some(12)), "12");
    assert_eq!(track_number_label(None), "");
}

#[test]
fn add_to_playlist_messages() {
    assert_eq!(add_to_playlist_message("Road", &Ok(())), "Added to \"Road\"");
    assert_eq!(add_to_playlist_message("Road", &Err("boom".to_string())), "Error: boom");
    assert_eq!(created_and_added_message("Road"), "Created \"Road\" and added track");
}

#[test]
fn password_change_needs_matching_confirmation() {
    assert_eq!(password_change_error("a1", "a1"), None);
    assert_eq!(password_change_error("a1", "a2"), Some("Passwords do not match".to_string()));
}

fn cat(id: &str, name: &str) -> MusicCategory {
    MusicCategory { id: id.to_string(), name: name.to_string(), folder_ids: vec![] }
}

#[test]
fn new_category_joins_the_list_in_name_order() {
    let list = categories_with(vec![cat("1", "Zed"), cat("2", "apple"), cat("3", "Rock")], cat("4", "rock"));
    let ids: Vec<String> = list.iter().map(|c| c.id.clone()).collect();
    assert_eq!(ids, vec!["2", "3", "4", "1"]);
    let list = categories_with(vec![], cat("9", "Only"));
    assert_eq!(list.len(), 1);
}

#[test]
fn ticking_a_category_box() {
    let ids = vec!["a".to_string(), "b".to_string(), "a".to_string()];
    assert_eq!(toggle_category_folder(&ids, "a", true), vec!["b".to_string()]);
    assert_eq!(
        toggle_category_folder(&ids, "c", false),
        vec!["a".to_string(), "b".to_string(), "a".to_string(), "c".to_string()]
    );
    assert_eq!(toggle_category_folder(&ids, "b", false), ids);
}

#[test]
fn new_category_names_and_errors() {
    assert_eq!(new_category_name("  Jazz ", "Music"), Some("Jazz".to_string()));
    assert_eq!(new_category_name("   ", "Music"), Some("Music".to_string()));
    assert_eq!(new_category_name("", ""), None);
    assert_eq!(category_error_message("Jazz", "CONFLICT"), "A category named \"Jazz\" already exists");
    assert_eq!(category_error_message("Jazz", "offline"), "offline");
}

#[test]
fn music_search_only_the_latest_is_sent() {
    let mut s = MusicSearch { epoch: 0, loading: false, has_results: false };
    assert_eq!(music_search_typed(&mut s, "ab"), Some(1));
    assert_eq!(music_search_typed(&mut s, "abc"), Some(2));
    assert!(s.loading);
    assert!(!music_search_wait_over(&s, 1));
    assert!(music_search_wait_over(&s, 2));
    assert!(!shows_music_results("abc", &s));
    assert!(!music_search_reply(&mut s, 1, true));
    assert!(!shows_music_results("abc", &s));
    assert!(s.loading);
    assert!(music_search_reply(&mut s, 2, true));
    assert!(shows_music_results("abc", &s));
    assert!(!s.loading);
    assert_eq!(music_search_typed(&mut s, "  "), None);
    assert!(!s.has_results && !s.loading);
    assert_eq!(s.epoch, 2);
}
