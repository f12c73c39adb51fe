use crowbar::store::{ActionStore, ActionKind};
use crowbar::scan::{ActionScanner, FileInfo, FileType, DesktopEntry, parse_desktop_file};
use crowbar::rank::get_actions_filtered;

fn lines(v: &[&str]) -> Vec<String> {
    v.iter().map(|s| s.to_string()).collect()
}

#[test]
fn insert_desktop_twice_stores_once() {
    let mut store = ActionStore::new();
    let a = store.insert_desktop("Files", "nautilus", false);
    let b = store.insert_desktop("Files", "nautilus", false);
    assert_eq!(a, 1);
    assert_eq!(b, 1);
    assert_eq!(store.action_count(), 1);
    assert_eq!(store.desktops().len(), 1);
}

#[test]
fn insert_program_is_idempotent_and_ids_are_stable() {
    let mut store = ActionStore::new();
    let a = store.insert_program("ls", "/usr/bin/ls");
    let b = store.insert_program("cat", "/usr/bin/cat");
    let a2 = store.insert_program("ls", "/usr/bin/ls");
    assert_eq!(a, 1);
    assert_eq!(b, 2);
    assert_eq!(a2, 1);
    assert_eq!(store.action_count(), 2);
    assert_eq!(store.programs().len(), 2);
}

#[test]
fn searchname_drops_punctuation_and_case() {
    let mut store = ActionStore::new();
    store.insert_program("Visual Studio Code!", "/usr/bin/code");
    assert_eq!(store.actions()[0].searchname, "visual studio code");
}

#[test]
fn needs_scan_flips_after_scan_and_stays() {
    let mut store = ActionStore::new();
    assert!(ActionScanner::needs_scan(&store));
    let execs = vec![FileInfo {
        name: "ls".to_string(),
        path: "/usr/bin/ls".to_string(),
        file_type: FileType::Elf,
    }];
    let entries: Vec<DesktopEntry> = Vec::new();
    ActionScanner::scan_system(&mut store, &execs, &entries);
    assert!(!ActionScanner::needs_scan(&store));
    ActionScanner::scan_system(&mut store, &execs, &entries);
    assert!(!ActionScanner::needs_scan(&store));
    assert_eq!(store.action_count(), 1);
}

#[test]
fn handler_enablement_round_trip() {
    let mut store = ActionStore::new();
    store.register_handler("url-open");
    assert!(store.is_handler_enabled("url-open"));
    store.set_handler_enabled("url-open", false);
    assert!(!store.is_handler_enabled("url-open"));
    store.set_handler_enabled("url-open", true);
    assert!(store.is_handler_enabled("url-open"));
    assert!(!store.is_handler_enabled("never-registered"));
}

#[test]
fn execution_ledger_counts_by_id() {
    let mut store = ActionStore::new();
    assert!(store.log_execution_at("42", 1000));
    assert!(store.log_execution_at("42", 2000));
    assert!(store.log_execution_at("7", 3000));
    assert_eq!(store.get_execution_count("42"), 2);
    assert_eq!(store.get_execution_count("7"), 1);
    assert_eq!(store.get_execution_count("8"), 0);
}

#[test]
fn parse_desktop_file_builds_browser_entry() {
    let text = lines(&[
        "[Desktop Entry]",
        "Type=Application",
        "Name=Firefox",
        "Exec=firefox %u",
        "Icon=firefox",
        "Categories=Network;WebBrowser;",
    ]);
    let entry = parse_desktop_file(&text, "firefox.desktop").expect("entry");
    assert_eq!(entry.name, "Firefox");
    assert_eq!(entry.exec_cmd, "firefox");
    assert!(entry.takes_args);
    assert_eq!(entry.categories, vec!["Network".to_string(), "WebBrowser".to_string()]);
}

#[test]
fn parse_desktop_file_discards_invalid_entries() {
    let no_name = lines(&["[Desktop Entry]", "Type=Application", "Exec=prog"]);
    assert!(parse_desktop_file(&no_name, "a.desktop").is_none());
    let not_app = lines(&["[Desktop Entry]", "Type=Link", "Name=x", "Exec=prog"]);
    assert!(parse_desktop_file(&not_app, "b.desktop").is_none());
    let other_section = lines(&["[Other]", "Type=Application", "Name=x", "Exec=prog"]);
    assert!(parse_desktop_file(&other_section, "c.desktop").is_none());
}

#[test]
fn non_browser_never_takes_args() {
    let text = lines(&[
        "[Desktop Entry]",
        "Type=Application",
        "Name=Editor",
        "Exec=editor %U",
        "Categories=Utility;",
    ]);
    let entry = parse_desktop_file(&text, "editor.desktop").expect("entry");
    assert!(!entry.takes_args);
    assert_eq!(entry.exec_cmd, "editor");
}

#[test]
fn kinds_are_kept_per_row() {
    let mut store = ActionStore::new();
    store.insert_program("ls", "/usr/bin/ls");
    store.insert_desktop("Files", "nautilus", false);
    assert_eq!(store.actions()[0].kind, ActionKind::Program);
    assert_eq!(store.actions()[1].kind, ActionKind::Desktop);
}

#[test]
fn conflicting_payload_keeps_the_first_row() {
    let mut store = ActionStore::new();
    let a = store.insert_program("x", "/bin/a");
    let b = store.insert_program("x", "/bin/b");
    assert_eq!(a, b);
    assert_eq!(store.programs().len(), 1);
    assert_eq!(store.programs()[0].path, "/bin/a");
}

#[test]
fn ledger_refuses_past_its_cap() {
    let mut store = ActionStore::new();
    for i in 0..1048576u64 {
        assert!(store.log_execution_at("1", i));
    }
    assert!(!store.log_execution_at("1", 0));
    assert_eq!(store.get_execution_count("1"), 1048576);
}

#[test]
fn actions_without_payload_are_never_ranked() {
    let mut store = ActionStore::new();
    store.insert_action("ghost", ActionKind::Program);
    store.insert_program("ghoul", "/bin/ghoul");
    let r = get_actions_filtered(&store, "gho", 1000);
    assert_eq!(r.len(), 1);
    assert_eq!(r[0].name, "ghoul");
}

#[test]
fn category_segments_are_trimmed() {
    let text = lines(&[
        "[Desktop Entry]",
        "Type=Application",
        "Name=Browser",
        "Exec=browser %u",
        "Categories=Network; WebBrowser ; ;",
    ]);
    let entry = parse_desktop_file(&text, "browser.desktop").expect("entry");
    assert_eq!(entry.categories, vec!["Network".to_string(), "WebBrowser".to_string()]);
    assert!(entry.takes_args);
}
