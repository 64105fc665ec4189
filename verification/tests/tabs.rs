use fileman::app::ensure_two_panes;
use fileman::db::{init_db, Database, SavedSession};
use fileman::fs_entry::FsEntry;
use fileman::pane::Pane;
use fileman::prefs::{next_sort, parse_sort_col};
use fileman::session::{load_session, nearest_existing_ancestor, save_session};
use fileman::tab::{Tab, TabKind, ViewMode, DEFAULT_COL_WIDTHS};
use fileman::user::restore_user;

fn pane(path: &str) -> Pane {
    Pane::new(path.to_string())
}

fn tab(path: &str) -> Tab {
    Tab::new(path.to_string())
}

fn selected(t: &Tab) -> Vec<String> {
    let mut s = t.selected.clone();
    s.sort();
    s
}

#[test]
fn ensure_two_panes_pads_a_single_pane_up_to_two() {
    let panes = vec![pane("D:\\one")];
    let (panes, active_pane) = ensure_two_panes(panes, 0, ("name", true));
    assert_eq!(panes.len(), 2);
    assert_eq!(panes[0].tabs[0].path, "D:\\one");
    assert_eq!(panes[1].tabs[0].path, "C:\\");
    assert_eq!(active_pane, 0);
}

#[test]
fn ensure_two_panes_creates_two_fresh_panes_from_empty() {
    let (panes, active_pane) = ensure_two_panes(Vec::new(), 0, ("name", true));
    assert_eq!(panes.len(), 2);
    assert_eq!(panes[0].tabs[0].path, "C:\\");
    assert_eq!(panes[1].tabs[0].path, "C:\\");
    assert_eq!(active_pane, 0);
}

#[test]
fn ensure_two_panes_leaves_a_valid_two_pane_vector_unchanged() {
    let panes = vec![pane("D:\\left"), pane("E:\\right")];
    let (panes, active_pane) = ensure_two_panes(panes, 1, ("name", true));
    assert_eq!(panes.len(), 2);
    assert_eq!(panes[0].tabs[0].path, "D:\\left");
    assert_eq!(panes[1].tabs[0].path, "E:\\right");
    assert_eq!(active_pane, 1);
}

#[test]
fn ensure_two_panes_truncates_more_than_two_panes() {
    let panes = vec![pane("D:\\one"), pane("E:\\two"), pane("F:\\three")];
    let (panes, _) = ensure_two_panes(panes, 0, ("name", true));
    assert_eq!(panes.len(), 2);
    assert_eq!(panes[0].tabs[0].path, "D:\\one");
    assert_eq!(panes[1].tabs[0].path, "E:\\two");
}

#[test]
fn ensure_two_panes_clamps_out_of_range_active_pane() {
    let panes = vec![pane("C:\\")];
    let (panes, active_pane) = ensure_two_panes(panes, 99, ("name", true));
    assert_eq!(panes.len(), 2);
    assert_eq!(active_pane, 1);
}

#[test]
fn ensure_two_panes_seeds_only_fresh_panes_with_default_sort() {
    // A restored session pane keeps its own saved sorting; only the
    // freshly padded pane picks up the universal default.
    let mut restored = pane("D:\\kept");
    restored.tabs[0].sort_col = "modified".to_string();
    restored.tabs[0].sort_asc = false;
    let (panes, _) = ensure_two_panes(vec![restored], 0, ("size", false));
    assert_eq!(panes[0].tabs[0].sort_col, "modified");
    assert!(!panes[0].tabs[0].sort_asc);
    assert_eq!(panes[1].tabs[0].sort_col, "size");
    assert!(!panes[1].tabs[0].sort_asc);

    let (fresh, _) = ensure_two_panes(Vec::new(), 0, ("archive", true));
    assert_eq!(fresh[0].tabs[0].sort_col, "archive");
    assert!(fresh[0].tabs[0].sort_asc);
    assert_eq!(fresh[1].tabs[0].sort_col, "archive");
    assert!(fresh[1].tabs[0].sort_asc);
}

#[test]
fn next_sort_flips_direction_on_same_column() {
    assert_eq!(next_sort("size", true, "size"), ("size".to_string(), false));
    assert_eq!(next_sort("size", false, "size"), ("size".to_string(), true));
}

#[test]
fn next_sort_switches_column_ascending() {
    assert_eq!(
        next_sort("name", false, "modified"),
        ("modified".to_string(), true)
    );
}

#[test]
fn parse_sort_col_accepts_known_columns_and_rejects_junk() {
    for col in ["name", "modified", "size", "archive"] {
        assert_eq!(parse_sort_col(col), Some(col));
    }
    assert_eq!(parse_sort_col("bogus"), None);
    assert_eq!(parse_sort_col(""), None);
}

#[test]
fn open_tab_adds_and_activates_it() {
    let mut pane = pane("C:\\a");
    pane.open_tab("C:\\b".to_string());
    assert_eq!(pane.tabs.len(), 2);
    assert_eq!(pane.active_tab, 1);
    assert_eq!(pane.active_tab().path, "C:\\b");
}

#[test]
fn close_tab_removes_it_and_keeps_valid_active_index() {
    let mut pane = pane("C:\\a");
    pane.open_tab("C:\\b".to_string());
    pane.close_tab(1);
    assert_eq!(pane.tabs.len(), 1);
    assert_eq!(pane.active_tab, 0);
}

#[test]
fn close_tab_refuses_to_close_last_remaining_tab() {
    let mut pane = pane("C:\\a");
    pane.close_tab(0);
    assert_eq!(pane.tabs.len(), 1);
}

#[test]
fn close_tab_before_active_tab_keeps_tracking_same_tab() {
    let mut pane = pane("C:\\a");
    pane.open_tab("C:\\b".to_string());
    pane.open_tab("C:\\c".to_string());
    pane.open_tab("C:\\d".to_string());
    // tabs: [a, b, c, d], active_tab = 3 (d)
    pane.active_tab = 2; // point at c
    pane.close_tab(0); // remove a -> [b, c, d]
    assert_eq!(pane.active_tab, 1);
    assert_eq!(pane.active_tab().path, "C:\\c");
}

#[test]
fn close_tab_with_out_of_bounds_index_is_a_no_op() {
    let mut pane = pane("C:\\a");
    pane.open_tab("C:\\b".to_string());
    pane.close_tab(99);
    assert_eq!(pane.tabs.len(), 2);
}

#[test]
fn move_tab_reorders_and_keeps_active_on_the_moved_tab() {
    let mut pane = pane("C:\\a");
    pane.open_tab("C:\\b".to_string());
    pane.open_tab("C:\\c".to_string());
    pane.active_tab = 0; // open_tab auto-activates; point back at a
    // tabs: [a, b, c], active = 0 (a)
    pane.move_tab(0, 2);
    let paths: Vec<_> = pane.tabs.iter().map(|t| t.path.clone()).collect();
    assert_eq!(paths, [r"C:\b", r"C:\c", r"C:\a"].map(String::from));
    assert_eq!(pane.active_tab, 2, "active tab must follow the moved tab");
    assert_eq!(pane.active_tab().path, "C:\\a");
}

#[test]
fn move_tab_before_active_shifts_active_index_forward() {
    let mut pane = pane("C:\\a");
    pane.open_tab("C:\\b".to_string());
    pane.active_tab = 1; // point at b
    pane.move_tab(0, 1); // a moves after b -> [b, a]
    assert_eq!(pane.active_tab, 0, "b slid down one slot");
    assert_eq!(pane.active_tab().path, "C:\\b");
}

#[test]
fn move_tab_after_active_shifts_active_index_back() {
    let mut pane = pane("C:\\a");
    pane.open_tab("C:\\b".to_string());
    pane.open_tab("C:\\c".to_string());
    pane.active_tab = 0; // point at a
    pane.move_tab(2, 0); // c jumps to front -> [c, a, b]
    assert_eq!(pane.active_tab, 1, "a slid up one slot");
    assert_eq!(pane.active_tab().path, "C:\\a");
}

#[test]
fn move_tab_with_invalid_indices_is_a_no_op() {
    let mut pane = pane("C:\\a");
    pane.open_tab("C:\\b".to_string());
    pane.active_tab = 0;
    pane.move_tab(0, 5);
    pane.move_tab(9, 1);
    pane.move_tab(1, 1);
    assert_eq!(pane.tabs.len(), 2);
    assert_eq!(pane.active_tab, 0);
}

#[test]
fn pinned_tabs_are_not_closed() {
    let mut pane = pane("C:\\a");
    pane.open_tab("C:\\b".to_string());
    pane.tabs[1].locked = true;
    pane.close_tab(1);
    assert_eq!(pane.tabs.len(), 2);
}

#[test]
fn a_tab_shown_again_is_read_again() {
    let mut pane = pane("C:\\a");
    pane.open_tab("C:\\b".to_string());
    pane.tabs[0].listing_dirty = false;
    pane.tabs[1].listing_dirty = false;
    pane.set_active_tab(1);
    assert!(!pane.tabs[1].listing_dirty);
    pane.set_active_tab(0);
    assert!(pane.tabs[0].listing_dirty);
    assert_eq!(pane.active_tab, 0);
}

#[test]
fn navigate_to_updates_path_and_records_history() {
    let mut tab = tab("C:\\a");
    tab.navigate_to("C:\\a\\b".to_string());
    assert_eq!(tab.path, "C:\\a\\b");
}

#[test]
fn go_back_returns_to_previous_path() {
    let mut tab = tab("C:\\a");
    tab.navigate_to("C:\\a\\b".to_string());
    assert!(tab.go_back());
    assert_eq!(tab.path, "C:\\a");
}

#[test]
fn go_back_on_empty_history_returns_false_and_keeps_path() {
    let mut tab = tab("C:\\a");
    assert!(!tab.go_back());
    assert_eq!(tab.path, "C:\\a");
}

#[test]
fn go_forward_after_go_back_returns_to_next_path() {
    let mut tab = tab("C:\\a");
    tab.navigate_to("C:\\a\\b".to_string());
    tab.go_back();
    assert!(tab.go_forward());
    assert_eq!(tab.path, "C:\\a\\b");
}

#[test]
fn navigate_to_clears_forward_history() {
    let mut tab = tab("C:\\a");
    tab.navigate_to("C:\\a\\b".to_string());
    tab.go_back();
    tab.navigate_to("C:\\a\\c".to_string());
    assert!(!tab.go_forward());
}

#[test]
fn toggle_select_adds_then_removes() {
    let mut tab = tab("C:\\a");
    tab.toggle_select("x.txt");
    assert!(tab.is_selected("x.txt"));
    tab.toggle_select("y.txt");
    assert_eq!(tab.selected.len(), 2);
    tab.toggle_select("x.txt");
    assert!(tab.is_selected("y.txt"));
    assert!(!tab.is_selected("x.txt"));
}

#[test]
fn select_only_replaces_selection() {
    let mut tab = tab("C:\\a");
    tab.select_only("a.txt");
    tab.select_only("b.txt");
    assert_eq!(selected(&tab), vec!["b.txt".to_string()]);
}

#[test]
fn filter_is_per_tab_and_clears_on_navigation() {
    let mut a = tab("C:\\a");
    let b = tab("C:\\b");
    a.filter = "readme".to_string();
    assert!(
        b.filter.is_empty(),
        "each tab has its own independent filter"
    );

    a.navigate_to("C:\\a\\sub".to_string());
    assert!(a.filter.is_empty(), "navigating clears the stale filter");
}

#[test]
fn listing_dirty_starts_true_and_is_set_by_navigation() {
    let mut tab = tab("C:\\a");
    assert!(tab.listing_dirty);
    tab.listing_dirty = false;
    tab.navigate_to("C:\\a\\b".to_string());
    assert!(tab.listing_dirty);
    tab.listing_dirty = false;
    tab.go_back();
    assert!(tab.listing_dirty);
    tab.listing_dirty = false;
    tab.go_forward();
    assert!(tab.listing_dirty);
}

#[test]
fn navigation_clears_selection() {
    let mut tab = tab("C:\\a");
    tab.select_only("a.txt");
    tab.navigate_to("C:\\a\\b".to_string());
    assert!(tab.selected.is_empty());

    tab.select_only("c.txt");
    tab.go_back();
    assert!(tab.selected.is_empty());
}

#[test]
fn locked_tab_refuses_navigation_and_history_moves() {
    let mut tab = tab("C:\\a");
    tab.navigate_to("C:\\b".to_string());
    tab.locked = true;

    let target = "C:\\c".to_string();
    assert!(!tab.try_navigate(target.clone()), "locked tab must refuse");
    assert_eq!(tab.path, "C:\\b", "path unchanged");

    assert!(!tab.go_back(), "back blocked while locked");
    assert!(!tab.go_forward(), "forward blocked while locked");
    assert_eq!(tab.path, "C:\\b");
    assert_eq!(target, "C:\\c");
}

#[test]
fn unlocked_tab_navigates_normally() {
    let mut tab = tab("C:\\a");
    assert!(tab.try_navigate("C:\\b".to_string()));
    assert_eq!(tab.path, "C:\\b");
}

#[test]
fn file_tabs_show_the_folder_of_their_file() {
    let t = Tab::new_file("C:\\docs\\a.txt".to_string());
    assert_eq!(t.path, "C:\\docs");
    assert_eq!(t.kind, TabKind::File);
    assert_eq!(t.file_target, Some("C:\\docs\\a.txt".to_string()));
    assert_eq!(t.display_label(), "a.txt");
    assert_eq!(tab("C:\\docs").display_label(), "docs");
    assert_eq!(tab("C:\\").display_label(), "C:\\");
}

#[test]
fn view_modes_round_trip() {
    for mode in [ViewMode::Details, ViewMode::List, ViewMode::Icons] {
        assert_eq!(ViewMode::from_str(mode.as_str()), mode);
    }
    assert_eq!(ViewMode::from_str("bogus"), ViewMode::Details);
}

#[test]
fn what_is_shown_follows_the_listing_the_filter_and_the_sorting() {
    let e = |name: &str, size: u64| FsEntry {
        name: name.to_string(),
        path: format!("C:\\a\\{name}"),
        is_dir: false,
        size,
        modified: None,
        archive: false,
        readonly: false,
        hidden: false,
        system: false,
    };
    let names = |v: &Vec<FsEntry>| -> Vec<String> { v.iter().map(|e| e.name.clone()).collect() };
    let mut t = tab("C:\\a");
    t.set_listing(vec![e("b.txt", 1), e("a.txt", 2), e("c.log", 3)]);
    assert_eq!(names(t.display_entries("txt", "name", true)), ["a.txt", "b.txt"]);
    assert_eq!(names(t.display_entries("txt", "name", true)), ["a.txt", "b.txt"]);
    assert_eq!(names(t.display_entries("", "size", false)), ["c.log", "a.txt", "b.txt"]);
    t.set_listing(vec![e("z.txt", 1)]);
    assert_eq!(names(t.display_entries("", "size", false)), ["z.txt"]);
}

fn setup() -> Database {
    let mut db = Database::empty();
    init_db(&mut db);
    db
}

fn everything(_: &String) -> bool {
    true
}

#[test]
fn round_trips_panes_and_window() {
    let mut db = setup();

    let mut pane0 = pane("C:\\Users");
    pane0.open_tab("C:\\Windows".to_string());
    let pane1 = pane("D:\\");

    save_session(&mut db, 1, &vec![pane0, pane1], 1);

    let loaded = load_session(&db, 1, &everything).expect("session should exist");

    assert_eq!(loaded.panes.len(), 2);
    assert_eq!(loaded.panes[0].tabs.len(), 2);
    assert_eq!(loaded.panes[0].tabs[1].path, "C:\\Windows");
    assert_eq!(loaded.panes[0].active_tab, 1);
    assert_eq!(loaded.panes[1].tabs[0].path, "D:\\");
    assert_eq!(loaded.active_pane, 1);
}

#[test]
fn an_active_pane_out_of_range_becomes_the_last_one() {
    let mut db = setup();
    save_session(&mut db, 1, &vec![pane("C:\\Users"), pane("D:\\")], 7);
    save_session(&mut db, 2, &vec![pane("E:\\")], 0);
    let loaded = load_session(&db, 1, &everything).unwrap();
    assert_eq!(loaded.active_pane, 1);
    assert_eq!(loaded.panes[0].tabs[0].path, "C:\\Users");
    assert!(load_session(&db, 3, &everything).is_none());
}

#[test]
fn returns_none_when_no_session_saved() {
    let db = setup();
    assert!(load_session(&db, 1, &everything).is_none());
}

#[test]
fn round_trips_per_tab_sort_settings() {
    let mut db = setup();

    let mut pane0 = pane("C:\\Users");
    pane0.tabs[0].sort_col = "size".to_string();
    pane0.tabs[0].sort_asc = false;

    save_session(&mut db, 1, &vec![pane0], 0);

    let loaded = load_session(&db, 1, &everything).expect("session should exist");
    assert_eq!(loaded.panes[0].tabs[0].sort_col, "size");
    assert!(!loaded.panes[0].tabs[0].sort_asc);
}

#[test]
fn round_trips_column_widths() {
    let mut db = setup();

    let mut pane0 = pane("C:\\Users");
    assert_eq!(pane0.tabs[0].col_widths, DEFAULT_COL_WIDTHS);
    pane0.tabs[0].col_widths = "300.5 120.0 80.0 45.0".to_string();

    save_session(&mut db, 1, &vec![pane0], 0);

    let loaded = load_session(&db, 1, &everything).expect("session should exist");
    let widths: Vec<f32> = loaded.panes[0].tabs[0]
        .col_widths
        .split(' ')
        .map(|w| w.parse().unwrap())
        .collect();
    assert_eq!(widths, [300.5, 120.0, 80.0, 45.0]);
}

fn only<'a>(existing: &'a str) -> impl Fn(&String) -> bool + 'a {
    move |p: &String| p == existing
}

#[test]
fn nearest_existing_ancestor_returns_path_unchanged_when_it_exists() {
    let dir = "C:\\Temp\\dir";
    let resolved = nearest_existing_ancestor(dir, &only(dir));
    assert_eq!(resolved, dir);
}

#[test]
fn nearest_existing_ancestor_falls_back_to_existing_parent() {
    let dir = "C:\\Temp\\dir";
    let missing = format!("{dir}\\missing_subfolder");
    let resolved = nearest_existing_ancestor(&missing, &only(dir));
    assert_eq!(resolved, dir);
}

#[test]
fn nearest_existing_ancestor_falls_back_several_levels_to_existing_parent() {
    let dir = "C:\\Temp\\dir";
    let missing = format!("{dir}\\a\\b\\c");
    let resolved = nearest_existing_ancestor(&missing, &only(dir));
    assert_eq!(resolved, dir);
}

#[test]
fn nearest_existing_ancestor_terminates_on_a_fully_nonexistent_path() {
    let path = "definitely_missing_xyz/also_missing/leaf";
    let resolved = nearest_existing_ancestor(path, &|_: &String| false);
    // Must terminate and return *something* rather than looping forever.
    // It should be an ancestor of (or equal to) the original path.
    assert!(fileman::path::is_under(path, &resolved) || resolved == path);
    assert_eq!(resolved, "");
}

#[test]
fn two_users_sessions_round_trip_without_cross_contamination() {
    let mut db = setup();
    assert!(restore_user(&mut db, 2, "Alice", false));

    let dir1 = "C:\\one";
    let dir2 = "C:\\two";
    save_session(&mut db, 1, &vec![pane(dir1)], 0);
    save_session(&mut db, 2, &vec![pane(dir2)], 0);

    let loaded1 = load_session(&db, 1, &everything).expect("user 1 session");
    let loaded2 = load_session(&db, 2, &everything).expect("user 2 session");
    assert_eq!(loaded1.panes[0].tabs[0].path, dir1);
    assert_eq!(loaded2.panes[0].tabs[0].path, dir2);
}

#[test]
fn load_session_clamps_out_of_range_active_pane() {
    let mut db = setup();

    // Save with only 1 pane, but manually corrupt active_pane to be out of range.
    save_session(&mut db, 1, &vec![pane("C:\\")], 0);
    let saved = db.sessions.take(Some(1)).unwrap();
    db.sessions.put(
        Some(1),
        SavedSession {
            tabs: saved.tabs,
            active_pane: 5,
        },
    );

    let loaded = load_session(&db, 1, &everything).expect("session should exist");
    assert_eq!(loaded.active_pane, 0); // clamped to the only valid index
}

#[test]
fn folders_that_are_gone_are_replaced_by_their_parents() {
    let mut db = setup();
    save_session(&mut db, 1, &vec![pane("C:\\Temp\\gone")], 0);
    let loaded = load_session(&db, 1, &only("C:\\Temp")).unwrap();
    assert_eq!(loaded.panes[0].tabs[0].path, "C:\\Temp");
}
