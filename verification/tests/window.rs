use fileman::fs_entry::FsEntry;
use fileman::launcher::{buttons, can_add, launch_args, search, shown_command, Launch, LaunchBook};
use fileman::monitor::{choose_monitor, MonitorInfo};
use fileman::native_drag::{
    accept_drop, drag_over, extract_paths, hit_test, query_continue_drag, start_drag_out,
    DragOutOutcome, DragReport, DragStep, DropEffect, DropTarget, TabHit, DROPEFFECT_MOVE,
    MK_LBUTTON, MK_SHIFT,
};
use fileman::path;
use fileman::prefs::{
    bold_font_file, missing_font_status, parse_shell_menu_hidden, parse_theme_pref,
    sort_col_label, system_font_file, theme_pref_str, TabOrientation, ThemePref,
};
use fileman::shell_menu::{enumerate_menu, query_items, RawMenuItem};
use fileman::text;
use fileman::tips::{TipAction, TipInput, TipsCard, ROTATE_MS, TIPS};
use fileman::toast::{should_persist, Toast};
use fileman::tree::{
    drive_kind, eject_outcome, list_drives, list_network_servers, list_system_folders,
    network_roots, node_label, unc_share_root, volume_device, volume_label, DriveKind,
    EjectProgress, SystemFolder, TreeView,
};

#[test]
fn tips_are_non_empty_and_wrappable() {
    assert!(TIPS.len() > 1);
    assert!(TIPS.iter().all(|t| !t.trim().is_empty()));
}

#[test]
fn advance_cycles_through_every_tip_before_repeating() {
    let mut card = TipsCard {
        index: 0,
        shown_at: 0,
        visible: true,
        hovered: false,
    };
    let mut seen = Vec::new();
    for _ in 0..TIPS.len() {
        seen.push(card.index);
        card.advance(0);
    }
    seen.sort_unstable();
    assert_eq!(seen, (0..TIPS.len()).collect::<Vec<_>>());
    assert_eq!(card.index, 0); // wrapped back to the start
}

#[test]
fn set_visible_false_hides_until_restored() {
    let mut card = TipsCard::new(5, 0);
    card.set_visible(false, 1);
    // A hidden card must not report actions.
    assert_eq!(card.visible, false);
    assert!(!card.begin_frame(2));
    card.set_visible(true, 3);
    assert!(card.visible);
}

#[test]
fn tips_rotate_while_nobody_looks() {
    let mut card = TipsCard::new(0, 0);
    assert!(card.begin_frame(ROTATE_MS - 1));
    assert_eq!(card.index, 0);
    assert!(card.begin_frame(ROTATE_MS));
    assert_eq!(card.index, 1);
    assert_eq!(card.counter(), "2/22");
    assert_eq!(card.tip(), TIPS[1]);
    let quiet = TipInput {
        close_clicked: false,
        next_clicked: false,
        turn_off_clicked: true,
        hovered: true,
    };
    assert_eq!(card.end_frame(quiet, ROTATE_MS), TipAction::Disable);
}

#[test]
fn includes_c_drive() {
    let drives = list_drives(&|p: &String| p == "C:\\" || p == "E:\\");
    assert!(drives.contains(&"C:\\".to_string()));
    assert_eq!(drives, vec!["C:\\".to_string(), "E:\\".to_string()]);
}

#[test]
fn drives_and_volumes() {
    assert_eq!(drive_kind(2), DriveKind::Removable);
    assert_eq!(drive_kind(3), DriveKind::Fixed);
    assert_eq!(drive_kind(4), DriveKind::Network);
    assert_eq!(drive_kind(5), DriveKind::CdRom);
    assert_eq!(drive_kind(0), DriveKind::Other);
    let units: Vec<u16> = "Data\u{e9}\0rest".encode_utf16().collect();
    assert_eq!(volume_label(&units), Some("Data\u{e9}".to_string()));
    assert_eq!(volume_label(&vec![0, 65]), None);
    assert_eq!(volume_label(&vec![65, 66]), None);
    assert_eq!(volume_device("E:\\"), Ok("\\\\.\\E:".to_string()));
    assert_eq!(volume_device(""), Err("Not a drive".to_string()));
    assert!(eject_outcome(EjectProgress::Ejected).is_ok());
    assert!(eject_outcome(EjectProgress::NotLocked).is_err());
}

#[test]
fn folders_of_the_sidebar() {
    let folder = |label: &str, path: &str| SystemFolder {
        label: label.to_string(),
        path: path.to_string(),
    };
    let found = list_system_folders(
        vec![folder("Desktop", "C:\\d"), folder("Music", "C:\\m")],
        &|p: &String| p == "C:\\m",
    );
    assert_eq!(found.len(), 1);
    assert_eq!(found[0].label, "Music");
    let servers = list_network_servers(&vec![
        "\\\\Server".to_string(),
        "\\\\server".to_string(),
        "\\\\other".to_string(),
    ]);
    assert!(servers.len() >= 2);
    assert_eq!(
        unc_share_root("\\\\srv\\share\\x\\y"),
        Some("\\\\srv\\share\\".to_string())
    );
    assert_eq!(unc_share_root("C:\\x"), None);
    let roots = network_roots(&vec!["\\\\SRV\\Share\\".to_string()], "\\\\srv\\share\\x");
    assert_eq!(roots.len(), 1);
    let more = network_roots(&vec![], "\\\\srv\\share\\x");
    assert_eq!(more, vec!["\\\\srv\\share\\".to_string()]);
    assert_eq!(node_label("C:\\x\\y", None), "y");
    assert_eq!(node_label("C:\\", None), "C:\\");
    assert_eq!(node_label("C:\\x", Some("Desktop")), "Desktop");
}

#[test]
fn the_tree_follows_the_active_folder() {
    let mut tree = TreeView::new();
    assert!(tree.begin_frame("C:\\A\\b"));
    assert!(!tree.begin_frame("C:\\A\\b"));
    let node = tree.node("c:\\a", "C:\\A\\b", true);
    assert!(!node.is_active);
    assert_eq!(node.open, Some(true));
    let off = tree.node("C:\\other", "C:\\A\\b", true);
    assert_eq!(off.open, Some(false));
    assert!(tree.node("C:\\a\\B", "C:\\A\\b", false).is_active);
    for _ in 0..8 {
        tree.end_frame();
    }
    assert_eq!(tree.node("C:\\other", "C:\\A\\b", false).open, None);
}

#[test]
fn paths_are_read_as_windows_does() {
    assert_eq!(path::file_name("C:\\a\\b.txt"), Some("b.txt".to_string()));
    assert_eq!(path::file_name("C:\\"), None);
    assert_eq!(path::parent("C:\\a\\b.txt"), Some("C:\\a".to_string()));
    assert_eq!(path::parent("C:\\"), None);
    assert_eq!(path::extension("x.tar.gz"), Some("gz".to_string()));
    assert_eq!(path::extension(".gitignore"), None);
    assert_eq!(path::file_stem("x.tar.gz"), Some("x.tar".to_string()));
    assert_eq!(path::join("C:\\a", "b"), "C:\\a\\b");
    assert_eq!(path::join("C:\\", "b"), "C:\\b");
    assert_eq!(path::join("C:\\a", "D:\\b"), "D:\\b");
    assert!(path::is_same_path("C:\\a\\", "c:/a"));
    assert!(!path::is_same_path("C:\\a", "C:\\A"));
    assert!(path::is_under("C:\\a\\b", "C:\\a"));
    assert!(!path::is_under("C:\\ab", "C:\\a"));
    assert_eq!(
        path::ancestors("C:\\a\\b"),
        vec!["C:\\a\\b".to_string(), "C:\\a".to_string(), "C:\\".to_string()]
    );
}

#[test]
fn verbatim_paths_are_read_as_windows_does() {
    let name = |p: &str| path::file_name(p);
    let up = |p: &str| path::parent(p);
    assert_eq!(name(r"\\?\C:/foo"), Some("foo".to_string()));
    assert_eq!(up(r"\\?\C:/foo"), Some(r"\\?\C:/".to_string()));
    assert_eq!(name(r"\\?\C:\a/b"), Some("a/b".to_string()));
    assert_eq!(name(r"\\?\C:\."), None);
    assert_eq!(up(r"\\?\C:\."), Some(r"\\?\C:\".to_string()));
    assert_eq!(path::join(r"\\?\C:\a\\b", "c"), r"\\?\C:\a\b\c");
    assert_eq!(path::join(r"\\?\C:\a\.", r".\..\b/c"), r"\\?\C:\a\.\b\c");
    assert_eq!(path::join(r"\\?\C:\a", r"..\..\b"), r"\\?\C:\b");
    assert_eq!(path::join(r"\\?\C:\a", r"\b"), r"\\?\C:\b");
    assert_eq!(path::join(r"\\?\C:", "a"), r"\\?\C:\a");
    assert_eq!(path::join(r"\\?\C:", "."), r"\\?\C:");
    assert_eq!(path::join(r"\\?\C:\a", ""), "\\\\?\\C:\\a\\");
    assert!(!path::is_same_path("//?/x", r"\\?\x"));
    assert!(path::is_same_path("//srv/share", "\\\\srv\\share\\"));
    assert!(!path::is_same_path(r"\\?\C:", "\\\\?\\C:\\"));
    assert!(!path::is_same_path(r"\\?\UNC\a/b", r"\\?\UNC\a\b"));
    assert!(path::is_same_path(r"\\?\c:/a", r"\\?\C:\a"));
    assert!(path::is_under(r"\\?\C:\a\b", r"\\?\C:\a"));
}

#[test]
fn a_leading_dot_counts_without_a_volume() {
    assert_eq!(path::parent("."), Some("".to_string()));
    assert_eq!(path::parent("C:."), None);
    assert_eq!(path::parent(r"C:.\a"), Some("C:.".to_string()));
    assert!(path::is_same_path(r"C:.\a", "C:a"));
    assert!(!path::is_same_path(r".\a", "a"));
}

#[test]
fn texts_are_taken_apart_and_put_together() {
    let parts = text::split_on("a,b,,c", ',');
    assert_eq!(parts, vec!["a", "b", "", "c"]);
    assert_eq!(text::join(&parts, ","), "a,b,,c");
    assert_eq!(text::trim("\u{3000} x \t"), "x");
    assert_eq!(text::lines_trimmed(" a \r\n\n b"), vec!["a", "b"]);
    assert_eq!(text::split_words("  -x  y\tz "), vec!["-x", "y", "z"]);
    assert_eq!(text::parse_i64("-9223372036854775808"), Some(i64::MIN));
    assert_eq!(text::parse_i64("9223372036854775808"), None);
    assert_eq!(text::parse_i64("+7"), Some(7));
    assert_eq!(text::parse_i64(""), None);
    assert_eq!(text::i64_to_string(i64::MIN), i64::MIN.to_string());
    assert_eq!(text::wide_text(&vec![0xD800, 65, 0]), "\u{FFFD}A");
    assert_eq!(
        text::wide_text(&vec![0xD834, 0xDD1E, 109, 0xDD1E, 105, 0xD834]),
        "\u{1D11E}m\u{FFFD}i\u{FFFD}"
    );
    assert_eq!(text::wide_text(&vec![0xFFFF, 0xE000, 0xDBFF, 0xDFFF]), "\u{FFFF}\u{E000}\u{10FFFF}");
}

fn item(id: u32, label: &str, separator: bool) -> RawMenuItem {
    RawMenuItem {
        id,
        owner_draw: false,
        separator,
        disabled: false,
        label: label.encode_utf16().collect(),
        sub_items: vec![],
    }
}

#[test]
fn shell_menus_are_tidied() {
    let menu = enumerate_menu(&vec![
        item(1, "&Open\tCtrl+O", false),
        item(0, "", true),
        item(2, "&Open", false),
    ]);
    let labels: Vec<&str> = menu
        .iter()
        .filter(|i| !i.separator)
        .map(|i| i.label.as_str())
        .collect();
    let mut unique = labels.clone();
    unique.dedup();
    assert_eq!(labels, unique);
    assert!(query_items(None).is_empty());
}

#[test]
fn drags_out_end_in_one_of_three_ways() {
    assert_eq!(
        start_drag_out(DragReport::Ended(DROPEFFECT_MOVE)),
        DragOutOutcome::Dropped { moved: true }
    );
    assert_eq!(
        query_continue_drag(false, MK_LBUTTON),
        DragStep::Continue
    );
    assert_eq!(query_continue_drag(false, 0), DragStep::Drop);
    assert_eq!(query_continue_drag(true, MK_LBUTTON), DragStep::Cancel);
}

#[test]
fn drops_land_on_tabs_before_panes() {
    let tabs = vec![
        TabHit {
            pane: 0,
            tab: 0,
            hit: false,
        },
        TabHit {
            pane: 1,
            tab: 2,
            hit: true,
        },
    ];
    let target = hit_test(&tabs, &vec![true, false]);
    assert_eq!(
        target,
        Some(DropTarget {
            pane: 1,
            tab: Some(2),
        })
    );
    assert_eq!(
        hit_test(&vec![], &vec![false, true]),
        Some(DropTarget { pane: 1, tab: None })
    );
    assert_eq!(hit_test(&vec![], &vec![false, false]), None);
    assert_eq!(drag_over(None, true, MK_SHIFT), DropEffect::Refuse);
    assert_ne!(drag_over(target, false, MK_SHIFT), DropEffect::Move);
    let (effect, drop) = accept_drop(target, vec!["C:\\x".to_string()], false, 0);
    assert_eq!(effect, DropEffect::Copy);
    assert_eq!(drop.unwrap().tab, Some(2));
    assert_eq!(
        extract_paths(vec!["".to_string(), "C:\\x".to_string()]),
        vec!["C:\\x".to_string()]
    );
}

#[test]
fn appearance_settings_round_trip() {
    for t in [ThemePref::Dark, ThemePref::Light, ThemePref::System] {
        assert_eq!(parse_theme_pref(theme_pref_str(t)), t);
    }
    assert_eq!(parse_theme_pref("bogus"), ThemePref::System);
    for o in [TabOrientation::Horizontal, TabOrientation::Vertical] {
        assert_eq!(TabOrientation::parse(o.as_str()), o);
    }
    assert_eq!(sort_col_label("name"), "Name");
    assert_eq!(system_font_file("Arial"), Some("arial.ttf"));
    assert_eq!(system_font_file("Inter"), None);
    assert!(bold_font_file("Arial").is_some());
    assert_eq!(
        missing_font_status("Arial"),
        "Font 'Arial' not found on this system, using Inter"
    );
    assert_eq!(
        parse_shell_menu_hidden("Open\n\n Print \n"),
        vec!["Open".to_string(), "Print".to_string()]
    );
}

#[test]
fn the_saved_monitor_is_preferred() {
    let m = |name: &str, is_primary: bool| MonitorInfo {
        name: name.to_string(),
        is_primary,
    };
    let all = vec![m("A", false), m("B", true)];
    assert_eq!(choose_monitor(Some("A"), &all), Some(0));
    assert_eq!(choose_monitor(Some("gone"), &all), Some(1));
    assert_eq!(choose_monitor(None, &vec![]), None);
}

#[test]
fn launchers_are_found_by_label_and_target() {
    let mut book = LaunchBook::new();
    let id = book.add_launch("Calc", "C:\\Tools\\calc.exe", "-a  b").unwrap();
    book.add_launch("Notes", "C:\\n.txt", "").unwrap();
    let hits = search(&book.items, "TOOLS");
    assert_eq!(hits.len(), 1);
    assert_eq!(launch_args(&hits[0]), vec!["-a", "b"]);
    assert_eq!(shown_command(&hits[0]), "C:\\Tools\\calc.exe -a  b");
    assert!(search(&book.items, "").is_empty());
    assert_eq!(buttons(&book.items, "").len(), 2);
    book.set_show_button(id, false);
    assert_eq!(buttons(&book.items, "").len(), 1);
    book.remove_launch(id);
    assert_eq!(book.items.len(), 1);
    assert_eq!(book.add_launch("X", "x", ""), Some(3));
    book.last_id = i64::MAX;
    assert_eq!(book.add_launch("Y", "y", ""), None);
    assert!(can_add(" x ", true) && !can_add("  ", true) && !can_add("x", false));
    let first: &Launch = &book.items[0];
    assert_eq!(first.label, "Notes");
}

#[test]
fn messages_are_shown_for_three_seconds() {
    let mut toast = Toast::new();
    assert_eq!(toast.frame("", 0), None);
    assert_eq!(toast.frame("Copied", 1000), Some(3000));
    assert_eq!(toast.frame("Copied", 2500), Some(1500));
    assert_eq!(toast.frame("Copied", 4000), None);
    assert_eq!(toast.message, None);
    assert!(should_persist(true, 0, 500));
    assert!(!should_persist(true, 1, 500));
    assert!(!should_persist(false, 0, 500));
}

#[test]
fn entries_are_cloned_whole() {
    let e = FsEntry {
        name: "n".to_string(),
        path: "p".to_string(),
        is_dir: true,
        size: 3,
        modified: Some(4),
        archive: true,
        readonly: true,
        hidden: true,
        system: true,
    };
    assert_eq!(e.clone(), e);
}
