use uncloud_web::mail_editor::{
    editor_command_script_from, mail_editor_command_script, mail_editor_mount_script, mount_script_from,
    MAIL_COMPOSE_EDITOR_ID,
};
use uncloud_web::oauth::{
    authorize_path, authorize_request, login_redirect, parse_query_string, query_value, scope_description, scope_list,
};
use uncloud_web::sync_log::{
    error_count_class, format_last_sync, format_local_log_time, last_sync_label, last_sync_label_at, local_log_time_at, local_log_badge_class,
    local_log_op_label, local_log_row_class, log_row_details, prepend_log_row, relative_sync_label, sync_in_flight,
    sync_status_text, SyncPhase, SYNC_LOG_LIMIT,
};
use uncloud_web::text::{contains_str, parse_u64, u64_to_decimal, i64_to_decimal, trim_str, lower_str, eq_ignore_ascii_case, join_strings};
use uncloud_web::search::{
    new_search_box, search_blur_over, search_focus, search_hit_picked, search_input, search_reply, search_wait_over,
    shows_no_results,
};

fn pairs(search: &str) -> Vec<(String, String)> {
    parse_query_string(search)
}

#[test]
fn query_string_parameters() {
    let p = pairs("?client_id=abc&scope=files%3Aread%20files%3Awrite&state=x=y&flag");
    assert_eq!(
        p,
        vec![
            ("client_id".to_string(), "abc".to_string()),
            ("scope".to_string(), "files:read files:write".to_string()),
            ("state".to_string(), "x=y".to_string()),
            ("flag".to_string(), String::new()),
        ]
    );
    let q = pairs("??a=1&b=2&a=3");
    assert_eq!(q, vec![("a".to_string(), "3".to_string()), ("b".to_string(), "2".to_string())]);
    assert!(pairs("").is_empty());
    assert!(pairs("???").is_empty());
    let bad = pairs("v=%FF");
    assert_eq!(bad, vec![("v".to_string(), "%FF".to_string())]);
}

#[test]
fn scope_texts() {
    assert_eq!(scope_description("files:read"), "Read your files, folders, gallery, and music");
    assert_eq!(scope_description("files:delete"), "Move files and folders to trash");
    assert_eq!(scope_description("admin"), "Unknown scope");
}

#[test]
fn relative_labels() {
    assert_eq!(relative_sync_label(-10), "just now");
    assert_eq!(relative_sync_label(4), "just now");
    assert_eq!(relative_sync_label(5), "5s ago");
    assert_eq!(relative_sync_label(59), "59s ago");
    assert_eq!(relative_sync_label(60), "1m ago");
    assert_eq!(relative_sync_label(7200), "2h ago");
    assert_eq!(relative_sync_label(86400 * 3 + 5), "3d ago");
}

#[test]
fn sync_stamps() {
    assert_eq!(format_last_sync("not a date"), "not a date");
    assert_eq!(format_local_log_time("yesterday"), "yesterday");
    let past = format_last_sync("2001-02-03T04:05:06Z");
    assert!(past.ends_with("d ago"), "{past}");
    let t = format_local_log_time("2024-05-06T07:08:09+00:00");
    assert_eq!(t.len(), 8);
    assert_eq!(&t[2..3], ":");
    assert_eq!(&t[5..6], ":");
    assert!(t.chars().filter(|c| *c != ':').all(|c| c.is_ascii_digit()));
}

#[test]
fn sync_log_badges() {
    assert_eq!(local_log_badge_class("Uploaded"), "badge badge-success badge-sm");
    assert_eq!(local_log_badge_class("Updated from server"), "badge badge-info badge-sm");
    assert_eq!(local_log_badge_class("Deleted"), "badge badge-error badge-sm");
    assert_eq!(local_log_badge_class("SyncStart"), "badge badge-primary badge-outline badge-sm font-semibold");
    assert_eq!(local_log_badge_class("Other"), "badge badge-neutral badge-sm");
    assert_eq!(local_log_op_label("SyncEnd"), "Sync completed");
    assert_eq!(local_log_op_label("Deleted"), "Deleted");
    assert_eq!(local_log_row_class("SyncStart"), "bg-base-200/60 italic");
    assert_eq!(local_log_row_class("Uploaded"), "");
}

#[test]
fn editor_scripts() {
    assert_eq!(MAIL_COMPOSE_EDITOR_ID, "mail-compose-editor");
    assert_eq!(
        mail_editor_command_script("bold"),
        "window.UncloudMailEditor && window.UncloudMailEditor.command(\"mail-compose-editor\", \"bold\");"
    );
    assert_eq!(
        mail_editor_command_script("say \"hi\""),
        "window.UncloudMailEditor && window.UncloudMailEditor.command(\"mail-compose-editor\", \"say \\\"hi\\\"\");"
    );
    assert_eq!(
        editor_command_script_from(None, None),
        "window.UncloudMailEditor && window.UncloudMailEditor.command(\"mail-compose-editor\", \"\");"
    );
    assert_eq!(
        mail_editor_mount_script(true, "<p>a\nb</p>"),
        "window.UncloudMailEditor && window.UncloudMailEditor.mount(\"mail-compose-editor\", \"<p>a\\nb</p>\");"
    );
    assert_eq!(
        mount_script_from(true, None, None),
        "window.UncloudMailEditor && window.UncloudMailEditor.mount(\"mail-compose-editor\", \"\");"
    );
    assert_eq!(
        mount_script_from(true, Some("\"ed\"".to_string()), Some("\"<b>\"".to_string())),
        "window.UncloudMailEditor && window.UncloudMailEditor.mount(\"ed\", \"<b>\");"
    );
    assert_eq!(
        mail_editor_mount_script(false, "ignored"),
        "window.UncloudMailEditor && window.UncloudMailEditor.destroy(\"mail-compose-editor\");"
    );
}

#[test]
fn numbers_and_text() {
    assert_eq!(parse_u64("+42"), Some(42));
    assert_eq!(parse_u64("18446744073709551615"), Some(u64::MAX));
    assert_eq!(parse_u64("18446744073709551616"), None);
    assert_eq!(parse_u64("-1"), None);
    assert_eq!(parse_u64(""), None);
    assert_eq!(parse_u64("+"), None);
    assert_eq!(u64_to_decimal(0), "0");
    assert_eq!(u64_to_decimal(u64::MAX), "18446744073709551615");
    assert_eq!(i64_to_decimal(i64::MIN), "-9223372036854775808");
    assert_eq!(parse_u64(&u64_to_decimal(987654321)), Some(987654321));
    assert_eq!(trim_str("\u{a0} x y \t"), "x y");
    assert_eq!(lower_str("AbC-Ü"), "abc-Ü");
    assert!(eq_ignore_ascii_case("HeLLo", "hello"));
    assert_eq!(join_strings(&vec!["a".to_string(), "b".to_string()], ", "), "a, b");
}

#[test]
fn sync_log_rows() {
    let mut rows: Vec<u32> = vec![3, 2, 1];
    prepend_log_row(&mut rows, 4, 3);
    assert_eq!(rows, vec![4, 3, 2]);
    let mut many: Vec<u32> = (0..500).collect();
    prepend_log_row(&mut many, 9999, SYNC_LOG_LIMIT);
    assert_eq!(many.len(), 500);
    assert_eq!(many[0], 9999);
    assert_eq!(many[499], 498);
    assert_eq!(log_row_details("Uploaded", "a/b", &None, &Some("3 files".to_string())), "3 files");
    assert_eq!(log_row_details("Moved", "a/b", &Some("c/d".to_string()), &None), "a/b → c/d");
    assert_eq!(log_row_details("SyncStart", "run", &None, &None), "");
    assert_eq!(log_row_details("Deleted", "x", &None, &None), "x");
    assert_eq!(last_sync_label(None), "never");
    assert_eq!(last_sync_label(Some("garbage")), "garbage");
    assert_eq!(error_count_class(2), "text-2xl font-semibold tabular-nums text-error");
    assert_eq!(error_count_class(0), "text-2xl font-semibold tabular-nums");
}

fn kv(k: &str, v: &str) -> (String, String) {
    (k.to_string(), v.to_string())
}

#[test]
fn consent_requests() {
    let pairs = vec![kv("client_id", "a b"), kv("scope", "files:read files:write"), kv("state", "xyz")];
    assert_eq!(query_value(&pairs, "state"), Some("xyz".to_string()));
    assert_eq!(query_value(&pairs, "nonce"), None);
    let req = authorize_request(&pairs, "allow");
    assert_eq!(req.client_id, "a b");
    assert_eq!(req.redirect_uri, "");
    assert_eq!(req.response_type, "code");
    assert_eq!(req.scope, "files:read files:write");
    assert_eq!(req.state, Some("xyz".to_string()));
    assert_eq!(req.code_challenge, "");
    assert_eq!(req.code_challenge_method, "S256");
    assert_eq!(req.decision, "allow");
    let given = vec![kv("response_type", "token"), kv("code_challenge_method", "plain")];
    let r2 = authorize_request(&given, "deny");
    assert_eq!(r2.response_type, "token");
    assert_eq!(r2.code_challenge_method, "plain");
    assert_eq!(r2.state, None);
}

#[test]
fn login_redirect_carries_the_request() {
    assert_eq!(authorize_path(&vec![]), "/oauth/authorize");
    assert_eq!(authorize_path(&vec![kv("a", "1"), kv("b", "2")]), "/oauth/authorize?a=1&b=2");
    let pairs = vec![kv("client_id", "a b"), kv("scope", "files:read")];
    assert_eq!(
        login_redirect(&pairs),
        "/login?next=%2Foauth%2Fauthorize%3Fclient_id%3Da%2520b%26scope%3Dfiles%253Aread"
    );
    assert_eq!(login_redirect(&vec![]), "/login?next=%2Foauth%2Fauthorize");
}

#[test]
fn scope_words() {
    assert_eq!(
        scope_list("  files:read \t files:write\n"),
        vec!["files:read".to_string(), "files:write".to_string()]
    );
    assert!(scope_list(" \r ").is_empty());
    assert_eq!(scope_list("one"), vec!["one".to_string()]);
}

#[test]
fn substring_search() {
    assert!(contains_str("hello world", "lo w"));
    assert!(contains_str("abc", ""));
    assert!(contains_str("abc", "abc"));
    assert!(!contains_str("abc", "abcd"));
    assert!(!contains_str("abc", "cb"));
    assert!(contains_str("añb", "ñ"));
}

#[test]
fn search_box_keeps_only_the_latest_reply() {
    let mut b = new_search_box();
    assert_eq!(search_input(&mut b, "re".to_string()), Some(1));
    assert_eq!(search_input(&mut b, "rep".to_string()), Some(2));
    assert!(!search_wait_over(&mut b, 1));
    assert!(!b.show_dropdown);
    assert!(search_wait_over(&mut b, 2));
    assert!(b.loading && b.show_dropdown);
    assert!(!search_reply(&mut b, 1, Some(5)));
    assert_eq!(b.result_count, 0);
    assert!(search_reply(&mut b, 2, Some(3)));
    assert_eq!(b.result_count, 3);
    assert!(!b.loading);
    assert!(!shows_no_results(&b));
    search_blur_over(&mut b);
    assert!(!b.show_dropdown);
    search_focus(&mut b);
    assert!(b.show_dropdown);
    assert!(!search_reply(&mut b, 2, None));
    assert_eq!(b.result_count, 0);
    assert!(shows_no_results(&b));
    search_hit_picked(&mut b);
    assert_eq!(b.query, "");
    assert!(!b.show_dropdown);
}

#[test]
fn blank_search_clears_and_closes() {
    let mut b = new_search_box();
    assert_eq!(search_input(&mut b, "x".to_string()), Some(1));
    assert!(search_wait_over(&mut b, 1));
    assert!(search_reply(&mut b, 1, Some(2)));
    assert_eq!(search_input(&mut b, "   ".to_string()), None);
    assert_eq!(b.result_count, 0);
    assert!(!b.show_dropdown);
    assert_eq!(b.generation, 1);
    search_focus(&mut b);
    assert!(!b.show_dropdown);
}

#[test]
fn sync_status_line() {
    assert_eq!(sync_status_text(&Some(SyncPhase::Idle)), "Up to date");
    assert_eq!(sync_status_text(&Some(SyncPhase::Syncing)), "Syncing…");
    assert_eq!(sync_status_text(&Some(SyncPhase::Error("disk full".to_string()))), "disk full");
    assert_eq!(sync_status_text(&None), "Not configured");
    assert!(sync_in_flight(&Some(SyncPhase::Syncing)));
    assert!(!sync_in_flight(&Some(SyncPhase::Idle)));
    assert!(!sync_in_flight(&None));
}

#[test]
fn stale_failure_keeps_newer_hits() {
    let mut b = new_search_box();
    assert_eq!(search_input(&mut b, "a".to_string()), Some(1));
    assert_eq!(search_input(&mut b, "ab".to_string()), Some(2));
    assert!(search_wait_over(&mut b, 2));
    assert!(search_reply(&mut b, 2, Some(4)));
    assert!(!search_reply(&mut b, 1, None));
    assert_eq!(b.result_count, 4);
}

#[test]
fn repeated_query_keys_keep_the_later_value() {
    let pairs = vec![
        ("a".to_string(), "1".to_string()),
        ("b".to_string(), "2".to_string()),
        ("a".to_string(), "3".to_string()),
    ];
    assert_eq!(query_value(&pairs, "a"), Some("3".to_string()));
    assert_eq!(query_value(&pairs, "c"), None);
    assert_eq!(login_redirect(&pairs), "/login?next=%2Foauth%2Fauthorize%3Fb%3D2%26a%3D3");
}

#[test]
fn editor_scripts_escape_as_json() {
    assert_eq!(
        mail_editor_command_script("a\\b\n\t\u{1}\u{1f}\u{7f}é"),
        "window.UncloudMailEditor && window.UncloudMailEditor.command(\"mail-compose-editor\", \"a\\\\b\\n\\t\\u0001\\u001f\u{7f}é\");"
    );
}

#[test]
fn sync_stamps_at_a_given_instant() {
    // 2001-02-03T04:05:06Z is 981173106 Unix seconds.
    assert_eq!(last_sync_label_at("2001-02-03T04:05:06Z", 981173106 + 200, 0), "3m ago");
    assert_eq!(last_sync_label_at("2001-02-03T04:05:06Z", 981173106 + 5, 0), "5s ago");
    assert_eq!(last_sync_label_at("2001-02-03T04:05:06.5Z", 981173106 + 5, 0), "just now");
    assert_eq!(last_sync_label_at("2001-02-03T04:05:06Z", 981173106 - 100, 0), "just now");
    assert_eq!(last_sync_label_at("2001-02-03T05:05:06+01:00", 981173106 + 90000, 0), "1d ago");
    assert_eq!(last_sync_label_at("garbage", 0, 0), "garbage");
    assert_eq!(local_log_time_at("2024-05-06T07:08:09+00:00", 3600), "08:08:09");
    assert_eq!(local_log_time_at("2024-05-06T00:00:09Z", -60), "23:59:09");
    assert_eq!(local_log_time_at("2016-12-31T23:59:60Z", 0), "23:59:60");
    assert_eq!(local_log_time_at("nope", 0), "nope");
}
