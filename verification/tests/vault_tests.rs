use uncloud_web::vault::{
    collect_entries, collect_groups, count_entries_recursive, delete_entry_from_group, entry_location, find_entry,
    find_group_entries, generate_password_from, is_vault_file, new_vault_file_name, vault_file_names, visible_entries,
    VaultEntry,
    VaultGroup,
};

fn entry(uuid: u128, title: Option<&str>) -> VaultEntry {
    VaultEntry { uuid, title: title.map(|t| t.to_string()), username: Some("u".to_string()), url: None }
}

fn sample() -> VaultGroup {
    VaultGroup {
        uuid: 1,
        name: "Root".to_string(),
        entries: vec![entry(10, Some("Mail"))],
        groups: vec![
            VaultGroup {
                uuid: 2,
                name: "Work".to_string(),
                entries: vec![entry(20, None), entry(21, Some("VPN"))],
                groups: vec![VaultGroup {
                    uuid: 4,
                    name: "Old".to_string(),
                    entries: vec![entry(40, Some("Legacy"))],
                    groups: vec![],
                }],
            },
            VaultGroup { uuid: 3, name: "Home".to_string(), entries: vec![], groups: vec![] },
        ],
    }
}

#[test]
fn entries_are_listed_depth_first() {
    let rows = collect_entries(&sample(), "");
    let seen: Vec<(u128, String, String, String, String)> =
        rows.iter().map(|e| (e.uuid, e.title.clone(), e.username.clone(), e.url.clone(), e.group_path.clone())).collect();
    assert_eq!(
        seen,
        vec![
            (10, "Mail".to_string(), "u".to_string(), String::new(), "Root".to_string()),
            (20, "Untitled".to_string(), "u".to_string(), String::new(), "Root/Work".to_string()),
            (21, "VPN".to_string(), "u".to_string(), String::new(), "Root/Work".to_string()),
            (40, "Legacy".to_string(), "u".to_string(), String::new(), "Root/Work/Old".to_string()),
        ]
    );
    assert_eq!(count_entries_recursive(&sample()), rows.len());
}

#[test]
fn sidebar_groups_with_counts() {
    let rows = collect_groups(&sample(), 0);
    let seen: Vec<(u128, String, usize, usize)> = rows.iter().map(|g| (g.uuid, g.name.clone(), g.depth, g.entry_count)).collect();
    assert_eq!(
        seen,
        vec![
            (1, "Root".to_string(), 0, 4),
            (2, "Work".to_string(), 1, 3),
            (4, "Old".to_string(), 2, 1),
            (3, "Home".to_string(), 1, 0),
        ]
    );
}

#[test]
fn finding_entries_and_groups() {
    let g = sample();
    assert_eq!(find_entry(&g, 21).map(|e| e.title), Some(Some("VPN".to_string())));
    assert!(find_entry(&g, 99).is_none());
    let (path, i) = entry_location(&g, 40).unwrap();
    assert_eq!(path, vec![0, 0]);
    assert_eq!(i, 0);
    let (path, i) = entry_location(&g, 10).unwrap();
    assert!(path.is_empty());
    assert_eq!(i, 0);
    assert!(entry_location(&g, 99).is_none());
    let work = find_group_entries(&g, 2);
    let ids: Vec<u128> = work.iter().map(|e| e.uuid).collect();
    assert_eq!(ids, vec![20, 21]);
    assert!(work.iter().all(|e| e.group_path == "Work"));
    assert!(find_group_entries(&g, 3).is_empty());
    assert!(find_group_entries(&g, 77).is_empty());
}

#[test]
fn deleting_removes_one_entry() {
    let mut g = sample();
    assert!(delete_entry_from_group(&mut g, 40));
    assert_eq!(count_entries_recursive(&g), 3);
    assert!(find_entry(&g, 40).is_none());
    assert!(!delete_entry_from_group(&mut g, 40));
    assert_eq!(count_entries_recursive(&g), 3);
}

#[test]
fn passwords_come_from_the_chosen_classes() {
    let random: Vec<u8> = vec![0, 1, 25, 26, 255];
    let p = generate_password_from(5, true, false, false, false, &random);
    assert_eq!(p, "ABZAV");
    let q = generate_password_from(7, false, false, true, false, &random);
    assert_eq!(q, "0156500");
    let r = generate_password_from(3, false, false, false, false, &vec![61, 62]);
    assert_eq!(r, "9aa");
    let s = generate_password_from(40, true, true, true, true, &(0..40).map(|i| (i * 7) as u8).collect());
    assert_eq!(s.chars().count(), 40);
    assert_eq!(generate_password_from(0, true, true, true, true, &vec![]), "");
}

#[test]
fn new_vault_names() {
    assert_eq!(new_vault_file_name("  Work ", "pw", "pw"), Ok("Work.kdbx".to_string()));
    assert_eq!(new_vault_file_name("home.kdbx", "pw", "pw"), Ok("home.kdbx".to_string()));
    assert_eq!(new_vault_file_name(".kdbx", "pw", "pw"), Ok(".kdbx".to_string()));
    assert_eq!(new_vault_file_name("a.KDBX", "pw", "pw"), Ok("a.KDBX.kdbx".to_string()));
    assert_eq!(new_vault_file_name("x", "pw", "px"), Err("Passwords don't match".to_string()));
    assert_eq!(new_vault_file_name("   ", "pw", "pw"), Err("File name is required".to_string()));
}

#[test]
fn vault_files_by_extension() {
    assert!(is_vault_file("home.kdbx"));
    assert!(is_vault_file(".kdbx"));
    assert!(!is_vault_file("home.KDBX"));
    assert!(!is_vault_file("kdbx"));
    assert!(!is_vault_file("notes.txt"));
}

#[test]
fn vault_search_lists_matching_entries() {
    let ids = |q: &str, sel: Option<u128>| -> Vec<u128> { visible_entries(&sample(), q, sel).iter().map(|e| e.uuid).collect() };
    assert_eq!(ids("", None), vec![10, 20, 21, 40]);
    assert_eq!(ids("", Some(2)), vec![20, 21]);
    assert_eq!(ids("vp", Some(3)), vec![21]);
    assert_eq!(ids("MAIL", None), vec![10]);
    assert_eq!(ids("untitled", None), vec![20]);
    assert_eq!(ids("u", None), vec![10, 20, 21, 40]);
    assert_eq!(ids("zzz", None), Vec::<u128>::new());
}

#[test]
fn picker_lists_only_kdbx_files() {
    let names = vec!["a.kdbx".to_string(), "b.txt".to_string(), ".kdbx".to_string(), "c.KDBX".to_string(), "d.kdbx".to_string()];
    assert_eq!(vault_file_names(&names), vec!["a.kdbx".to_string(), ".kdbx".to_string(), "d.kdbx".to_string()]);
}
