use uncloud_web::music::{
    format_minutes_seconds, format_track_count, merge_child_folders, toggle_folder, visible_folder_rows, MusicFolder,
};
use uncloud_web::player::{
    browser_driver_step, media_metadata_for, native_driver_step, native_poll_step, previous_action, queue_signature,
    repeat_mode_value, repeat_title, toggle_button_class, track_ended_action, EndedAction, NativeAction,
    NativeDriverState, PlayerTrack, PreviousAction, RepeatMode, close_player, play_index, PlayerQueue,
};
use uncloud_web::playlist::{long_press_due, press_cancelled, press_started, without_file, LongPress};
use uncloud_web::music::{reload_requested, reload_wait_over, DebouncedReload};
use uncloud_web::search::{byte_size_label, size_unit, unit_divisor, SizeUnit};

fn mf(id: &str, parent: Option<&str>, name: &str) -> MusicFolder {
    MusicFolder { folder_id: id.to_string(), parent_folder_id: parent.map(|p| p.to_string()), name: name.to_string() }
}

fn track(id: &str, title: Option<&str>, cover: bool) -> PlayerTrack {
    PlayerTrack {
        file_id: id.to_string(),
        file_name: format!("{id}.mp3"),
        title: title.map(|t| t.to_string()),
        artist: None,
        album: Some("LP".to_string()),
        has_cover_art: cover,
    }
}

#[test]
fn folder_rows_follow_expansion() {
    let folders = vec![
        mf("b", None, "Beta"),
        mf("a", None, "alpha"),
        mf("a2", Some("a"), "zed"),
        mf("a1", Some("a"), "Émile"),
        mf("a11", Some("a1"), "deep"),
    ];
    let collapsed = visible_folder_rows(&folders, &vec![]);
    let ids: Vec<(String, usize)> = collapsed.iter().map(|(f, d)| (f.folder_id.clone(), *d)).collect();
    assert_eq!(ids, vec![("a".to_string(), 0), ("b".to_string(), 0)]);
    let open = visible_folder_rows(&folders, &vec!["a".to_string(), "a1".to_string()]);
    let ids: Vec<(String, usize)> = open.iter().map(|(f, d)| (f.folder_id.clone(), *d)).collect();
    assert_eq!(
        ids,
        vec![
            ("a".to_string(), 0),
            ("a2".to_string(), 1),
            ("a1".to_string(), 1),
            ("a11".to_string(), 2),
            ("b".to_string(), 0)
        ]
    );
}

#[test]
fn track_counts_and_times() {
    assert_eq!(format_track_count(1), "1 track");
    assert_eq!(format_track_count(0), "0 tracks");
    assert_eq!(format_track_count(12), "12 tracks");
    assert_eq!(format_track_count(-3), "-3 tracks");
    assert_eq!(format_minutes_seconds(0), "0:00");
    assert_eq!(format_minutes_seconds(65), "1:05");
    assert_eq!(format_minutes_seconds(3600), "60:00");
}

#[test]
fn queue_signature_lists_ids() {
    let q = vec![track("x", None, false), track("y", None, false)];
    assert_eq!(queue_signature(&q), "x\u{1f}y\u{1f}");
    assert_eq!(queue_signature(&vec![]), "");
}

#[test]
fn media_metadata_defaults() {
    let m = media_metadata_for(&track("f9", None, true));
    assert_eq!(m.title, "f9.mp3");
    assert_eq!(m.artist, "Unknown");
    assert_eq!(m.album, "LP");
    assert_eq!(m.artwork_path, Some("/files/f9/thumb".to_string()));
    let n = media_metadata_for(&track("f9", Some("Song"), false));
    assert_eq!(n.title, "Song");
    assert_eq!(n.artwork_path, None);
}

#[test]
fn native_driver_loads_then_settles() {
    let mut st = NativeDriverState { last_queue_sig: None, last_native_index: -1 };
    match native_driver_step(&mut st, "q1".to_string(), false, 2, true) {
        NativeAction::LoadQueue { start, play } => {
            assert_eq!(start, 2);
            assert!(play);
        },
        _ => panic!("expected a load"),
    }
    assert!(matches!(native_driver_step(&mut st, "q1".to_string(), false, 2, true), NativeAction::SyncPlaying { play: true }));
    match native_driver_step(&mut st, "q1".to_string(), false, 3, false) {
        NativeAction::SeekToItem { index, play } => {
            assert_eq!(index, 3);
            assert!(!play);
        },
        _ => panic!("expected a seek"),
    }
    assert!(matches!(native_driver_step(&mut st, String::new(), true, 0, false), NativeAction::ClearAndPause));
    assert!(matches!(native_driver_step(&mut st, String::new(), true, 0, false), NativeAction::Idle));
    assert_eq!(st.last_queue_sig, None);
    assert_eq!(st.last_native_index, -1);
}

#[test]
fn native_poll_adopts_valid_index_once() {
    let mut last: i32 = 0;
    let a = native_poll_step(&mut last, 5, true, 3, false);
    assert_eq!(a.adopt_index, Some(3));
    assert!(!a.stop_playing);
    assert_eq!(last, 3);
    let b = native_poll_step(&mut last, 5, true, 3, true);
    assert_eq!(b.adopt_index, None);
    assert!(b.stop_playing);
    let c = native_poll_step(&mut last, 5, false, 9, true);
    assert_eq!(c.adopt_index, None);
    assert!(!c.stop_playing);
    assert_eq!(last, 3);
}

#[test]
fn repeat_modes() {
    assert_eq!(repeat_mode_value(RepeatMode::All), "all");
    assert_eq!(repeat_title(RepeatMode::One), "Repeat: one");
    assert!(matches!(track_ended_action(RepeatMode::One, Some(4)), EndedAction::Restart));
    assert!(matches!(track_ended_action(RepeatMode::All, Some(0)), EndedAction::Advance(0)));
    assert!(matches!(track_ended_action(RepeatMode::Off, None), EndedAction::Stop));
}

#[test]
fn size_units() {
    assert_eq!(size_unit(1023), SizeUnit::Bytes);
    assert_eq!(size_unit(-5), SizeUnit::Bytes);
    assert_eq!(size_unit(1024), SizeUnit::Kilo);
    assert_eq!(size_unit(1024 * 1024), SizeUnit::Mega);
    assert_eq!(size_unit(5 * 1024 * 1024 * 1024), SizeUnit::Giga);
    assert_eq!(unit_divisor(SizeUnit::Mega), 1024 * 1024);
    assert_eq!(byte_size_label(512), "512 B");
    assert_eq!(byte_size_label(-1), "-1 B");
}

#[test]
fn browser_driver_loads_changed_sources() {
    let mut last: Option<String> = None;
    let a = browser_driver_step(Some("/f/1".to_string()), &mut last, true);
    assert_eq!(a.load, Some("/f/1".to_string()));
    assert!(a.play);
    assert_eq!(last, Some("/f/1".to_string()));
    let b = browser_driver_step(Some("/f/1".to_string()), &mut last, false);
    assert_eq!(b.load, None);
    assert!(!b.play);
    let c = browser_driver_step(None, &mut last, true);
    assert_eq!(c.load, None);
    assert!(!c.play);
    assert_eq!(last, None);
}

#[test]
fn previous_button_and_toggles() {
    assert!(matches!(previous_action(true, Some(2)), PreviousAction::Restart));
    assert!(matches!(previous_action(false, Some(2)), PreviousAction::GoTo(2)));
    assert!(matches!(previous_action(false, None), PreviousAction::Nothing));
    assert_eq!(toggle_button_class(true), "btn btn-ghost btn-sm btn-circle text-primary");
    assert_eq!(toggle_button_class(false), "btn btn-ghost btn-sm btn-circle");
}

#[test]
fn expanding_and_collapsing_folders() {
    let mut expanded: Vec<String> = vec![];
    let loaded = vec!["b".to_string()];
    let loading: Vec<String> = vec![];
    assert!(toggle_folder(&mut expanded, &loaded, &loading, "a"));
    assert_eq!(expanded, vec!["a".to_string()]);
    assert!(!toggle_folder(&mut expanded, &loaded, &loading, "b"));
    assert_eq!(expanded, vec!["a".to_string(), "b".to_string()]);
    assert!(!toggle_folder(&mut expanded, &loaded, &loading, "a"));
    assert_eq!(expanded, vec!["b".to_string()]);
}

#[test]
fn fetched_children_join_once() {
    let mut current = vec![mf("a", None, "a"), mf("b", Some("a"), "b")];
    merge_child_folders(&mut current, vec![mf("b", Some("a"), "b"), mf("c", Some("a"), "c"), mf("c", Some("a"), "c")]);
    let ids: Vec<String> = current.iter().map(|f| f.folder_id.clone()).collect();
    assert_eq!(ids, vec!["a", "b", "c", "c"]);
}

#[test]
fn player_queue_steps() {
    let mut p = PlayerQueue {
        queue: vec![track("a", None, false), track("b", None, false)],
        current_index: 0,
        playing: false,
        original_queue: Some(vec![]),
    };
    assert!(!play_index(&mut p, 2));
    assert_eq!(p.current_index, 0);
    assert!(!p.playing);
    assert!(play_index(&mut p, 1));
    assert_eq!(p.current_index, 1);
    assert!(p.playing);
    close_player(&mut p);
    assert!(p.queue.is_empty() && p.current_index == 0 && !p.playing && p.original_queue.is_none());
}

#[test]
fn removing_a_playlist_row() {
    let tracks = vec![track("a", None, false), track("b", None, false), track("a", None, false)];
    let left = without_file(tracks, "a");
    assert_eq!(left.len(), 1);
    assert_eq!(left[0].file_id, "b");
}

#[test]
fn long_press_starts_a_drag_only_when_held() {
    let mut lp = LongPress { seq: 0, pressed: false };
    assert_eq!(press_started(&mut lp, "mouse"), None);
    let a = press_started(&mut lp, "touch").unwrap();
    let b = press_started(&mut lp, "pen").unwrap();
    assert!(!long_press_due(&lp, a));
    assert!(long_press_due(&lp, b));
    press_cancelled(&mut lp);
    assert!(!long_press_due(&lp, b));
}

#[test]
fn folder_reload_coalesces_bursts() {
    let mut d = DebouncedReload { epoch: 0, refresh: 0 };
    let a = reload_requested(&mut d);
    let b = reload_requested(&mut d);
    assert!(!reload_wait_over(&mut d, a));
    assert_eq!(d.refresh, 0);
    assert!(reload_wait_over(&mut d, b));
    assert_eq!(d.refresh, 1);
}
