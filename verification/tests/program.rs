use fileman::actions::{
    get_ext_override, get_layout, init_tables, set_ext_override, set_layout, Action, ActionRef,
    KeyCombo, Scope,
};
use fileman::app::FileManApp;
use fileman::app_dispatch::{FindRowAction, RowAction};
use fileman::app_files::read_os_clipboard_hdrop;
use fileman::app_nav::Effect;
use fileman::app_panes::ListingKeys;
use fileman::app_settings::{default_explorer_status, export_name};
use fileman::app_tabs::{reorder_slot, TabChoice, PINNED_CLOSE};
use fileman::app_tasks::progress_text;
use fileman::browse::{path_breadcrumbs, typed_path, ListingInput};
use fileman::config;
use fileman::db::{add_recent_item, get_recent_items, init_db, Database};
use fileman::dialog::{delete_question, preselection, text_dialog_title, Dialog, FileStep};
use fileman::entry_menu::{
    entry_menu, has_shell_menu, shell_menu_stale, shell_rows, EntryChoice, ShellMenuCache, ShellRow,
};
use fileman::fs_entry::FsEntry;
use fileman::fs_ops::ClipboardOp;
use fileman::listing::ListingReply;
use fileman::migrate::collect;
use fileman::native_drag::{DragOutOutcome, PendingDrop};
use fileman::prefs::ThemePref;
use fileman::progress::{OpStatus, ProgressUpdate, TransferItem};
use fileman::rebind::{Held, InputEvent};
use fileman::shell_menu::ShellMenuItem;
use fileman::tips::TipsCard;

const NOW: &str = "2024-05-05 12:00:00";

fn yes(_: &String) -> bool {
    true
}

fn no(_: &String) -> bool {
    false
}

fn start(dir: &str) -> FileManApp {
    let mut db = Database::empty();
    init_db(&mut db);
    FileManApp::new(
        db,
        1,
        None,
        Some(dir.to_string()),
        TipsCard::new(0, 0),
        &yes,
        NOW,
    )
}

fn act(app: &mut FileManApp, action: Action) -> Effect {
    app.dispatch(ActionRef::Builtin(action), None, &no, &yes, NOW)
}

fn path(app: &FileManApp) -> String {
    app.active_tab_dir()
}

fn file(name: &str, is_dir: bool) -> FsEntry {
    FsEntry {
        name: name.to_string(),
        path: format!("C:\\work\\{name}"),
        is_dir,
        size: 0,
        modified: None,
        archive: false,
        readonly: false,
        hidden: false,
        system: false,
    }
}

fn with_files() -> (FileManApp, Vec<FsEntry>) {
    let mut app = start("C:\\work");
    let entries = vec![file("dir", true), file("a.txt", false), file("b.txt", false)];
    app.panes[0].tabs[0].set_listing(entries.clone());
    (app, entries)
}

fn keys() -> ListingKeys {
    ListingKeys {
        heard: true,
        shift: false,
        ctrl: false,
        enter: false,
        up: false,
        down: false,
        left: false,
        right: false,
    }
}

#[test]
fn the_program_starts_where_it_was_asked_to() {
    let app = start("C:\\work");
    assert_eq!(app.panes.len(), 2);
    assert_eq!(path(&app), "C:\\work");
    assert_eq!(app.panes[1].tabs[0].path, "C:\\");
    assert_eq!(app.recent_items.len(), 1);
    assert_eq!(app.recent_items[0].path, "C:\\work");
    assert_eq!(app.title(), "work - FileMan");
    assert!(app.shortcuts_enabled(false));
    assert!(!app.shortcuts_enabled(true));
}

#[test]
fn going_up_and_back() {
    let mut app = start("C:\\work\\sub");
    act(&mut app, Action::GoUp);
    assert_eq!(path(&app), "C:\\work");
    assert!(app.dirty);
    act(&mut app, Action::GoBack);
    assert_eq!(path(&app), "C:\\work\\sub");
    act(&mut app, Action::GoForward);
    assert_eq!(path(&app), "C:\\work");
    act(&mut app, Action::GoUp);
    act(&mut app, Action::GoUp);
    assert_eq!(path(&app), "C:\\");
}

#[test]
fn pinned_tabs_stay_put() {
    let mut app = start("C:\\work\\sub");
    app.panes[0].tabs[0].locked = true;
    for action in Action::ALL {
        act(&mut app, action);
        app.dialog = None;
        app.panes[0].active_tab = 0;
        assert_eq!(app.panes[0].tabs[0].path, "C:\\work\\sub");
    }
    app.status = String::new();
    act(&mut app, Action::GoUp);
    assert_eq!(app.status, "Tab is pinned — unpin it to navigate");
    app.click_close(0, 0);
    assert_eq!(app.status, PINNED_CLOSE);
}

#[test]
fn copying_and_pasting() {
    let (mut app, _) = with_files();
    assert_eq!(act(&mut app, Action::Copy), Effect::Nothing);
    assert_eq!(app.status, "Nothing selected");
    app.panes[0].tabs[0].select_only("a.txt");
    assert_eq!(
        act(&mut app, Action::Copy),
        Effect::CopyText("C:\\work\\a.txt".to_string())
    );
    assert_eq!(app.status, "Copied 1 item(s)");
    app.focus_pane(1);
    let effect = app.paste_clipboard(None, &no);
    assert_eq!(
        effect,
        Effect::Transfer {
            items: vec![TransferItem::plain("C:\\work\\a.txt".to_string())],
            dest: "C:\\".to_string(),
            copy: true,
        }
    );
    assert_eq!(app.status, "Copying into C:\\…");
    assert_eq!(app.clipboard.len(), 1);
    app.poll_background_op(
        vec![ProgressUpdate {
            files_done: 1,
            files_total: 2,
            current_file: "a.txt".to_string(),
        }],
        vec![],
    );
    let told = progress_text(&app.background_op.as_ref().unwrap().progress);
    assert_eq!(told, "1/2 files — a.txt");
    app.panes[1].tabs[0].listing_dirty = false;
    app.poll_background_op(vec![], vec![OpStatus::Failed("disk full".to_string())]);
    assert_eq!(app.status, "Error: disk full");
    assert!(app.background_op.is_none());
    assert!(app.panes[1].tabs[0].listing_dirty);
}

#[test]
fn cutting_into_the_same_folder_does_nothing() {
    let (mut app, _) = with_files();
    app.panes[0].tabs[0].select_only("a.txt");
    act(&mut app, Action::Cut);
    assert_eq!(app.status, "Cut 1 item(s)");
    assert_eq!(act(&mut app, Action::Paste), Effect::Nothing);
    assert_eq!(app.status, "Nothing to paste");
}

#[test]
fn an_empty_clipboard_takes_over_the_systems() {
    let mut app = start("C:\\work");
    assert_eq!(act(&mut app, Action::Paste), Effect::Nothing);
    assert_eq!(app.status, "Clipboard is empty");
    let os = read_os_clipboard_hdrop(Some(vec![
        "D:\\x.txt".encode_utf16().collect(),
        Vec::new(),
    ]));
    assert_eq!(os, Some(vec!["D:\\x.txt".to_string()]));
    assert_eq!(read_os_clipboard_hdrop(Some(vec![Vec::new()])), None);
    assert_eq!(read_os_clipboard_hdrop(None), None);
    let effect = app.paste_clipboard(os, &no);
    assert!(matches!(effect, Effect::Transfer { copy: true, .. }));
    assert_eq!(app.clipboard, vec!["D:\\x.txt".to_string()]);
}

#[test]
fn name_conflicts_are_asked_about() {
    let (mut app, _) = with_files();
    app.clipboard = vec!["D:\\a.txt".to_string(), "D:\\new.txt".to_string()];
    app.clipboard_op = Some(ClipboardOp::Cut);
    let on_disk = |p: &String| p == "C:\\work\\a.txt";
    assert_eq!(app.paste_clipboard(None, &on_disk), Effect::Nothing);
    assert!(matches!(app.dialog, Some(Dialog::PasteConflict(_))));
    let effect = app.resolve_paste_conflict(false, false, &on_disk);
    match effect {
        Effect::Transfer { items, dest, copy } => {
            assert_eq!(dest, "C:\\work");
            assert!(!copy);
            assert_eq!(items.len(), 2);
            assert_eq!(items[1].dest_name, Some("a (copy).txt".to_string()));
        }
        other => panic!("unexpected {other:?}"),
    }
    assert!(app.dialog.is_none());
    assert!(app.clipboard.is_empty());
    assert_eq!(app.status, "Moving into C:\\work…");
    app.cancel_paste();
    assert_eq!(app.status, "Transfer cancelled — nothing was changed");
}

#[test]
fn renaming_selects_the_new_name() {
    let (mut app, _) = with_files();
    act(&mut app, Action::Rename);
    assert_eq!(app.status, "Select exactly one item to rename");
    app.panes[0].tabs[0].select_only("a.txt");
    act(&mut app, Action::Rename);
    let dialog = app.dialog.as_ref().unwrap();
    assert_eq!(text_dialog_title(dialog), Some("Rename"));
    assert_eq!(preselection(dialog), Some(1));
    if let Some(Dialog::Rename { name, .. }) = &mut app.dialog {
        *name = " c.txt ".to_string();
    }
    let ok = |step: &FileStep| -> Option<String> {
        assert_eq!(
            *step,
            FileStep::Rename {
                from: "C:\\work\\a.txt".to_string(),
                to: "C:\\work\\c.txt".to_string(),
            }
        );
        None
    };
    app.commit_dialog(&no, &ok);
    assert_eq!(app.status, "Renamed to  c.txt ");
    assert_eq!(app.panes[0].tabs[0].selected, vec!["c.txt".to_string()]);
    assert!(app.panes[0].tabs[0].listing_dirty);
}

#[test]
fn new_folders_come_one_per_line() {
    let mut app = start("C:\\work");
    let made = |_: &FileStep| -> Option<String> { None };
    let refused = |_: &FileStep| -> Option<String> { Some("no access".to_string()) };
    let name_it = |app: &mut FileManApp, lines: &str| {
        app.ask_new_item(true);
        if let Some(Dialog::NewFolder { name }) = &mut app.dialog {
            *name = lines.to_string();
        }
    };
    name_it(&mut app, "");
    app.commit_dialog(&no, &made);
    assert_eq!(app.status, "Enter at least one folder name");
    name_it(&mut app, " one \n\ntwo\n");
    app.commit_dialog(&no, &made);
    assert_eq!(app.status, "Created 2 folder(s)");
    name_it(&mut app, "single");
    app.commit_dialog(&no, &made);
    assert_eq!(app.panes[0].tabs[0].selected, vec!["single".to_string()]);
    name_it(&mut app, "x");
    app.commit_dialog(&no, &refused);
    assert_eq!(app.status, "Created 0/1; x: no access");
    app.ask_new_item(false);
    app.commit_dialog(&no, &made);
    assert_eq!(app.status, "Create file failed: invalid name: \"\"");
}

#[test]
fn users_have_their_own_tabs() {
    let mut app = start("C:\\work");
    let nothing = |_: &FileStep| -> Option<String> { None };
    app.ask_new_user();
    app.commit_dialog(&yes, &nothing);
    assert_eq!(app.status, "User name cannot be empty");
    for (typed, said) in [
        (" Alice ", "Created user Alice"),
        (
            "Alice",
            "Create user failed: UNIQUE constraint failed: users.name",
        ),
    ] {
        app.ask_new_user();
        if let Some(Dialog::NewUser { name }) = &mut app.dialog {
            *name = typed.to_string();
        }
        app.commit_dialog(&yes, &nothing);
        assert_eq!(app.status, said);
    }
    assert_eq!(app.current_user_id, 2);
    assert_eq!(path(&app), "C:\\");
    app.new_tab(1, "D:\\music".to_string(), &yes, NOW);
    app.switch_user(1, &yes);
    assert_eq!(path(&app), "C:\\work");
    assert_eq!(app.panes[1].tabs.len(), 1);
    app.switch_user(2, &yes);
    assert_eq!(app.panes[1].tabs[1].path, "D:\\music");
    assert_eq!(app.panes[1].active_tab, 1);
}

#[test]
fn sorting_all_tabs_or_one() {
    let mut app = start("C:\\work");
    app.click_sort(1, "size");
    let q = app.sort_question("size", true, 1).unwrap();
    assert_eq!(q.current, "Name ascending");
    assert_eq!(q.new, "Size ascending");
    assert!(q.all_tabs.contains("all 2 tabs across both panes (2 will"));
    app.apply_sort(false);
    assert_eq!(app.status, "Sorted this tab by Size ascending");
    assert_eq!(app.panes[1].tabs[0].sort_col, "size");
    assert_eq!(app.panes[0].tabs[0].sort_col, "name");
    app.click_sort(1, "size");
    app.apply_sort(true);
    assert_eq!(
        app.status,
        "Sorted all tabs by Size descending — new tabs will use it too"
    );
    assert!(app.panes.iter().all(|p| p.tabs.iter().all(|t| t.sort_col == "size")));
    act(&mut app, Action::NewTab);
    assert_eq!(app.panes[0].tabs[1].sort_col, "size");
    assert!(!app.panes[0].tabs[1].sort_asc);
    assert_eq!(
        config::get(&app.db, 1, "sort_asc"),
        Some("false".to_string())
    );
}

#[test]
fn the_tab_menu() {
    let mut app = start("C:\\work");
    app.open_tab_menu(0, 0);
    app.tab_menu(TabChoice::MoveToOtherPane, &yes, NOW);
    assert_eq!(app.panes[0].tabs.len(), 1, "the last tab stays");
    app.tab_menu(TabChoice::Duplicate, &yes, NOW);
    assert_eq!(app.panes[0].tabs.len(), 2);
    app.open_tab_menu(0, 1);
    app.tab_menu(TabChoice::TogglePin, &yes, NOW);
    assert!(app.panes[0].tabs[1].locked);
    app.open_tab_menu(0, 1);
    app.tab_menu(TabChoice::Close, &yes, NOW);
    assert!(app.dialog.is_some(), "a pinned tab cannot be closed");
    app.tab_menu(TabChoice::Rename, &yes, NOW);
    if let Some(Dialog::RenameTab { name, .. }) = &mut app.dialog {
        assert_eq!(name, "work");
        *name = " Project ".to_string();
    }
    app.commit_dialog(&no, &|_: &FileStep| -> Option<String> { None });
    assert_eq!(app.panes[0].tabs[1].display_label(), "Project");
    app.open_tab_menu(0, 1);
    app.tab_menu(TabChoice::MoveToOtherPane, &yes, NOW);
    assert_eq!(app.panes[0].tabs.len(), 1);
    assert_eq!(app.panes[1].tabs.len(), 2);
    assert_eq!(app.active_pane, 1);
    assert_eq!(app.panes[1].active_tab, 1);
    app.open_tab_menu(0, 9);
    app.tab_menu(TabChoice::Pending, &yes, NOW);
    assert!(app.dialog.is_none());
}

#[test]
fn dragging_tabs_reorders_them() {
    let mut app = start("C:\\a");
    app.new_tab(0, "C:\\b".to_string(), &yes, NOW);
    app.new_tab(0, "C:\\c".to_string(), &yes, NOW);
    assert_eq!(reorder_slot(&vec![true, true, false], 0), 1);
    app.update_tab_reorder(0, Some(vec![true, true, true]), Some(0));
    let paths: Vec<&str> = app.panes[0].tabs.iter().map(|t| t.path.as_str()).collect();
    assert_eq!(paths, ["C:\\b", "C:\\c", "C:\\a"]);
    assert_eq!(app.tab_reorder.unwrap().idx, 2);
    app.dirty = false;
    app.end_tab_reorder();
    assert!(app.dirty);
    assert!(app.tab_reorder.is_none());
    app.update_tab_reorder(1, Some(vec![true]), Some(0));
    assert!(app.tab_reorder.is_none(), "a single tab is not dragged");
}

#[test]
fn clicks_and_keys_in_the_listing() {
    let (mut app, entries) = with_files();
    assert_eq!(app.pane_entries(0), Ok(entries.clone()));
    let input = |select: Option<usize>| ListingInput {
        select,
        enter: None,
        open: None,
        drag: None,
    };
    app.handle_listing(0, &entries, input(Some(1)), keys(), NOW);
    assert_eq!(app.panes[0].tabs[0].selected, vec!["a.txt".to_string()]);
    let mut shift = keys();
    shift.shift = true;
    app.handle_listing(0, &entries, input(Some(2)), shift, NOW);
    assert_eq!(app.panes[0].tabs[0].selected.len(), 2);
    let mut enter = keys();
    enter.enter = true;
    let out = app.handle_listing(0, &entries, input(None), enter, NOW);
    assert_eq!(out.effects.len(), 2);
    assert_eq!(
        out.effects[0],
        Effect::Run {
            program: "cmd".to_string(),
            args: vec![
                "/C".to_string(),
                "start".to_string(),
                "".to_string(),
                "C:\\work\\a.txt".to_string(),
            ],
        }
    );
    assert!(app.recent_items.iter().any(|r| r.path == "C:\\work\\b.txt" && !r.is_dir));
    app.handle_listing(0, &entries, input(Some(0)), keys(), NOW);
    let mut down = keys();
    down.down = true;
    app.handle_listing(0, &entries, input(None), down, NOW);
    assert_eq!(app.panes[0].tabs[0].selected, vec!["a.txt".to_string()]);
    let mut up = keys();
    up.up = true;
    app.handle_listing(0, &entries, input(None), up, NOW);
    let drag = ListingInput {
        select: None,
        enter: None,
        open: None,
        drag: Some(2),
    };
    let out = app.handle_listing(0, &entries, drag, keys(), NOW);
    let dragged = out.drag.unwrap();
    assert_eq!(dragged.paths, vec!["C:\\work\\b.txt".to_string()]);
    assert_eq!(dragged.from_dir, "C:\\work");
    app.handle_listing(0, &entries, input(Some(0)), keys(), NOW);
    let mut right = keys();
    right.right = true;
    app.handle_listing(0, &entries, input(None), right, NOW);
    assert_eq!(path(&app), "C:\\work\\dir");
    let mut left = keys();
    left.left = true;
    app.last_selected_index = None;
    app.handle_listing(0, &entries, input(None), left, NOW);
    assert_eq!(path(&app), "C:\\work");
}

#[test]
fn a_pinned_tab_opens_folders_beside_itself() {
    let (mut app, entries) = with_files();
    app.panes[0].tabs[0].locked = true;
    let enter = ListingInput {
        select: None,
        enter: Some("C:\\work\\dir".to_string()),
        open: None,
        drag: None,
    };
    app.handle_listing(0, &entries, enter, keys(), NOW);
    assert_eq!(app.panes[0].tabs.len(), 2);
    assert_eq!(app.panes[0].active_tab, 1);
    assert_eq!(path(&app), "C:\\work\\dir");
    assert_eq!(app.panes[0].tabs[0].path, "C:\\work");
}

#[test]
fn the_address_bar() {
    let mut app = start("C:\\work");
    app.sync_address_bar(0, None);
    assert_eq!(app.panes[0].address_bar, "C:\\work");
    app.edit_address(0);
    app.panes[0].address_bar = " \"D:\\music\" ".to_string();
    app.sync_address_bar(0, Some(0));
    assert_eq!(typed_path(&app.panes[0].address_bar), "D:\\music");
    app.leave_address(0, true, &yes, NOW);
    assert_eq!(path(&app), "D:\\music");
    assert!(!app.panes[0].address_edit_mode);
    let crumbs = path_breadcrumbs("C:\\a\\b");
    let labels: Vec<&str> = crumbs.iter().map(|c| c.label.as_str()).collect();
    assert_eq!(labels, ["C:\\", "a", "b"]);
    app.follow_crumb(1, "E:\\".to_string(), NOW);
    assert_eq!(app.active_pane, 1);
    assert_eq!(path(&app), "E:\\");
    assert_eq!(
        app.copy_pane_path(0),
        Effect::CopyText("D:\\music".to_string())
    );
    app.pane_up(0, NOW);
    assert_eq!(app.panes[0].tabs[0].path, "D:\\");
    assert_eq!(app.active_pane, 1);
    app.set_filter(0, "x".to_string());
    assert_eq!(app.panes[0].tabs[0].filter, "x");
    app.clear_filter(0);
    assert!(app.panes[0].tabs[0].filter.is_empty());
}

#[test]
fn selecting_everything_in_view() {
    let (mut app, _) = with_files();
    app.panes[0].tabs[0].filter = "txt".to_string();
    act(&mut app, Action::SelectAll);
    assert_eq!(app.panes[0].tabs[0].selected.len(), 2);
    assert_eq!(app.last_selected_index, Some(1));
    assert_eq!(
        act(&mut app, Action::CopyFilename),
        Effect::CopyText("C:\\work\\a.txt\nC:\\work\\b.txt".to_string())
    );
    assert_eq!(
        act(&mut app, Action::CopyFolderPath),
        Effect::CopyText("C:\\work".to_string())
    );
}

#[test]
fn deleting_asks_first() {
    let (mut app, _) = with_files();
    act(&mut app, Action::Delete);
    assert!(app.dialog.is_none());
    app.panes[0].tabs[0].select_only("a.txt");
    act(&mut app, Action::Delete);
    assert_eq!(
        delete_question(1),
        "Are you sure you want to delete 1 item(s)?"
    );
    let effect = app.confirm_delete();
    assert_eq!(
        effect,
        Effect::Delete {
            paths: vec!["C:\\work\\a.txt".to_string()],
        }
    );
    assert_eq!(app.status, "Deleting 1 item(s)…");
    assert_eq!(app.background_op_dirs, vec!["C:\\work".to_string()]);
}

#[test]
fn unpacking_archives() {
    let (mut app, _) = with_files();
    act(&mut app, Action::ExtractHere);
    assert_eq!(app.status, "Select exactly one archive to extract");
    app.panes[0].tabs[0].select_only("a.txt");
    act(&mut app, Action::ExtractTo);
    assert_eq!(app.status, "Selected file is not a supported archive");
    app.panes[0].tabs[0].select_only("a.zip");
    assert_eq!(
        act(&mut app, Action::ExtractHere),
        Effect::Extract {
            archive: "C:\\work\\a.zip".to_string(),
            dest: "C:\\work".to_string(),
        }
    );
    assert_eq!(
        act(&mut app, Action::ExtractTo),
        Effect::ExtractTo {
            archive: "C:\\work\\a.zip".to_string(),
        }
    );
    app.extracted("C:\\work", None);
    assert_eq!(app.status, "Extracted into C:\\work");
    assert!(app.panes[0].tabs[0].selected.is_empty());
    app.extracted("C:\\work", Some("broken".to_string()));
    assert_eq!(app.status, "Extraction failed: broken");
}

#[test]
fn drops_and_drags() {
    let (mut app, _) = with_files();
    let drop = |pane: usize, is_move: bool| PendingDrop {
        paths: vec!["C:\\work\\a.txt".to_string()],
        pane,
        tab: Some(0),
        is_move,
    };
    let effect = app.process_pending_native_drop(Some(drop(1, false)), &no);
    assert!(matches!(effect, Effect::Transfer { copy: true, .. }));
    assert_eq!(app.active_pane, 1);
    let paths = vec!["C:\\work\\a.txt".to_string()];
    let effect = app.finish_native_drag(
        0,
        paths.clone(),
        "C:\\work",
        DragOutOutcome::Cancelled,
        Some(drop(0, true)),
        &no,
    );
    assert_eq!(effect, Effect::Nothing);
    assert_eq!(app.status, "Source and destination are the same folder");
    let moved = DragOutOutcome::Dropped { moved: true };
    let effect = app.finish_native_drag(0, paths.clone(), "C:\\work", moved, None, &no);
    assert_eq!(
        effect,
        Effect::Trash {
            paths: paths.clone(),
        }
    );
    app.moved_out(&paths, None);
    assert_eq!(app.status, "Moved 1 item(s) out of FileMan");
    app.moved_out(&paths, Some("in use".to_string()));
    assert_eq!(app.status, "Drop move failed: in use");
    let failed = DragOutOutcome::Failed("x".to_string());
    app.finish_native_drag(0, paths.clone(), "C:\\work", failed, None, &no);
    assert_eq!(app.status, "Drag failed: x");
    let copied = DragOutOutcome::Dropped { moved: false };
    app.finish_native_drag(0, paths, "C:\\work", copied, None, &no);
    assert_eq!(app.status, "Copied 1 item(s) to another application");
}

#[test]
fn favourites_and_recents() {
    let mut app = start("C:\\work");
    act(&mut app, Action::ToggleFavourite);
    assert_eq!(app.status, "Added to favourites: C:\\work");
    assert_eq!(app.favourites, vec!["C:\\work".to_string()]);
    act(&mut app, Action::ToggleFavourite);
    assert_eq!(app.status, "Removed from favourites");
    assert!(app.favourites.is_empty());
    app.remove_recent("C:\\work");
    assert!(app.recent_items.is_empty());
    app.record_recent("C:\\x", true, NOW);
    app.clear_recent();
    assert_eq!(app.status, "Recent history cleared");
    assert!(app.recent_items.is_empty());
}

#[test]
fn custom_actions_and_pinned_programs() {
    let (mut app, _) = with_files();
    app.add_custom("Editor", "C:\\ed.exe");
    assert_eq!(app.status, "Added custom action \"Editor\"");
    let id = app.custom_actions[0].id;
    let run = |app: &mut FileManApp| app.dispatch(ActionRef::Custom(id), None, &no, &yes, NOW);
    assert_eq!(run(&mut app), Effect::Nothing);
    app.panes[0].tabs[0].select_only("a.txt");
    assert_eq!(
        run(&mut app),
        Effect::Run {
            program: "C:\\ed.exe".to_string(),
            args: vec!["C:\\work\\a.txt".to_string()],
        }
    );
    app.remove_custom(id);
    assert_eq!(run(&mut app), Effect::Nothing);
    app.pin_extension(".TXT", "C:\\ed.exe");
    assert_eq!(
        app.open_path("C:\\work\\a.txt"),
        Effect::Run {
            program: "C:\\ed.exe".to_string(),
            args: vec!["C:\\work\\a.txt".to_string()],
        }
    );
    app.unpin_extension("txt");
    assert!(matches!(app.open_path("C:\\work\\a.txt"), Effect::Run { program, .. } if program == "cmd"));
}

#[test]
fn settings_are_stored_and_shown() {
    let mut app = start("C:\\work");
    app.set_theme(ThemePref::Dark);
    assert_eq!(config::get(&app.db, 1, "theme"), Some("dark".to_string()));
    app.set_tips_enabled(false, 10);
    assert!(!app.tips.visible && !app.prefs.tips_enabled);
    app.panes[1].tabs[0].listing_dirty = false;
    app.set_show_hidden(true);
    assert!(app.panes[1].tabs[0].listing_dirty);
    app.set_shell_menu_hidden("Open\n Print ".to_string());
    assert_eq!(
        app.prefs.shell_menu_hidden,
        vec!["Open".to_string(), "Print".to_string()]
    );
    let first = app.toolbar_actions[0];
    app.toolbar_down(0);
    assert_eq!(app.toolbar_actions[1], first);
    app.toolbar_up(1);
    assert_eq!(app.toolbar_actions[0], first);
    app.toolbar_remove(first);
    assert!(!app.toolbar_actions.contains(&first));
    app.toolbar_add(first);
    assert_eq!(app.toolbar_actions.last(), Some(&first));
    assert_eq!(export_name("Alice"), "fileman-settings-Alice.json");
    assert_eq!(
        default_explorer_status(false, Some("denied".to_string())),
        "Restore failed: denied"
    );
}

#[test]
fn shortcuts_can_be_rebound() {
    let mut app = start("C:\\work");
    let held = Held {
        ctrl: true,
        shift: false,
        alt: false,
    };
    let press = |name: &str| {
        vec![InputEvent::Key {
            name: name.to_string(),
            pressed: true,
            repeat: false,
            held,
        }]
    };
    app.begin_rebind(Action::Find);
    app.capture_shortcut(&press("J"), held);
    assert_eq!(app.status, "Bound Ctrl+J to Find");
    assert_eq!(
        app.shortcut_map.get(&KeyCombo::ctrl("J")),
        Some(ActionRef::Builtin(Action::Find))
    );
    app.begin_rebind(Action::Copy);
    app.capture_shortcut(&press("J"), held);
    assert_eq!(app.status, "Ctrl+J is already bound to Find");
    app.begin_rebind(Action::Copy);
    app.capture_shortcut(&press("Escape"), held);
    assert_eq!(app.status, "Rebind cancelled");
    app.clear_shortcuts(Action::Find);
    assert!(app.action_combos(Action::Find).is_empty());
    assert_eq!(app.status, "Cleared shortcut for Find");
}

#[test]
fn settings_travel() {
    let mut app = start("C:\\work");
    app.set_theme(ThemePref::Light);
    let mut file = collect(&app.db, 1, None, NOW.to_string());
    let mut db = Database::empty();
    init_db(&mut db);
    init_tables(&mut db);
    let mut other = FileManApp::new(db, 1, None, None, TipsCard::new(0, 0), &yes, NOW);
    other.import_settings(&file);
    assert_eq!(other.prefs.theme, ThemePref::Light);
    assert!(other.status.starts_with("Imported 1 config values"));
    file.version = 9;
    other.import_settings(&file);
    assert!(other.status.contains("newer than this app supports"));
    other.exported("D:\\s.json", None);
    assert_eq!(other.status, "Settings exported to D:\\s.json");
}

#[test]
fn every_user_has_settings_of_their_own() {
    let mut app = start("C:\\work");
    app.set_show_hidden(true);
    config::set(&mut app.db, config::Scope::User(2), "shell_menu_hidden", "Scan");
    app.switch_user(2, &yes);
    assert!(!app.prefs.show_hidden);
    assert_eq!(app.prefs.shell_menu_hidden, vec!["Scan".to_string()]);
    app.switch_user(1, &yes);
    assert!(app.prefs.show_hidden);
    assert!(app.prefs.shell_menu_hidden.is_empty());
}

#[test]
fn an_import_brings_the_sorting() {
    let mut app = start("C:\\work");
    config::set(&mut app.db, config::Scope::User(1), "sort_col", "size");
    config::set(&mut app.db, config::Scope::User(1), "sort_asc", "false");
    let file = collect(&app.db, 1, None, NOW.to_string());
    let mut other = start("C:\\work");
    other.import_settings(&file);
    assert_eq!(other.prefs.sort_col, "size");
    assert!(!other.prefs.sort_asc);
}

#[test]
fn the_program_starts_with_what_is_stored() {
    let mut db = Database::empty();
    init_db(&mut db);
    set_layout(&mut db, Scope::User(1), &vec![ActionRef::Builtin(Action::Find)]);
    set_ext_override(&mut db, 1, "txt", "C:\\ed.exe");
    add_recent_item(&mut db, 2, "C:\\theirs", true, NOW);
    let mut app = FileManApp::new(db, 1, None, None, TipsCard::new(0, 0), &yes, NOW);
    assert_eq!(app.toolbar_actions, vec![ActionRef::Builtin(Action::Find)]);
    assert_eq!(get_layout(&app.db, Scope::Global).len(), 13);
    assert_eq!(get_ext_override(&app.db, 1, "txt"), Some("C:\\ed.exe".to_string()));
    app.open_files(&vec!["C:\\a.txt".to_string()], NOW);
    assert_eq!(app.recent_items.len(), 2);
    app.remove_recent("C:\\a.txt");
    app.clear_recent();
    assert!(app.recent_items.is_empty());
    assert_eq!(get_recent_items(&app.db, 2, 5).len(), 1);
}

#[test]
fn searching() {
    let mut app = start("C:\\work");
    act(&mut app, Action::Find);
    assert!(app.submit_search().is_none());
    if let Some(Dialog::Find(d)) = &mut app.dialog {
        d.query = "a".to_string();
    }
    let job = app.submit_search().unwrap();
    assert_eq!(job.dir, "C:\\work");
    assert!(app.find_running);
    app.search_hits(vec![file("a.txt", false), file("Sub", true)], false);
    if let Some(Dialog::Find(d)) = &mut app.dialog {
        assert_eq!(d.results.len(), 2);
        d.sort_results();
        assert!(d.results[0].is_dir);
        d.click_header("folder");
        assert_eq!(d.sort_col, "folder");
        d.sort_results();
        d.include_folders = false;
        assert_eq!(d.view().len(), 1);
        assert!(d.filters_active());
    }
    app.search_hits(vec![], true);
    assert!(!app.find_running);
    let effect = app.find_row_action(
        FindRowAction::CopyName("a.txt".to_string()),
        &yes,
        NOW,
    );
    assert_eq!(effect, Effect::CopyText("a.txt".to_string()));
    app.find_row_action(FindRowAction::Reveal("D:\\".to_string()), &yes, NOW);
    assert_eq!(path(&app), "D:\\");
    app.close_dialog();
    assert!(app.dialog.is_none());
}

#[test]
fn entry_menus() {
    let folder = entry_menu("C:\\x", true);
    assert_eq!(folder[0], vec![EntryChoice::Copy, EntryChoice::Cut, EntryChoice::Paste]);
    assert_eq!(
        folder.last().unwrap(),
        &vec![EntryChoice::Properties, EntryChoice::AddToFavourites]
    );
    let archive = entry_menu("C:\\x.zip", false);
    assert!(archive.iter().any(|g| g[0] == EntryChoice::ExtractHere));
    assert_eq!(EntryChoice::ExtractTo.label(), "Extract to...");
    let (mut app, _) = with_files();
    let effect = app.row_action(
        1,
        EntryChoice::OpenWith.action("C:\\x".to_string()),
        None,
        &no,
        &yes,
        NOW,
    );
    assert_eq!(
        effect,
        Effect::Run {
            program: "openwith.exe".to_string(),
            args: vec!["C:\\x".to_string()],
        }
    );
    assert_eq!(app.active_pane, 1);
    app.row_action(
        0,
        RowAction::FavouriteFolder("C:\\fav".to_string()),
        None,
        &no,
        &yes,
        NOW,
    );
    assert_eq!(app.favourites, vec!["C:\\fav".to_string()]);
    let item = |label: &str, separator: bool, disabled: bool| ShellMenuItem {
        label: label.to_string(),
        id: 1,
        disabled,
        separator,
        sub_items: vec![],
    };
    let items = vec![item("", true, false), item("Open", false, false), item("Print", false, true)];
    let hidden = vec!["Open".to_string()];
    assert_eq!(
        shell_rows(&items, &hidden),
        vec![ShellRow::Separator, ShellRow::Disabled(2)]
    );
    assert!(has_shell_menu(&items, &hidden));
    assert!(!has_shell_menu(&vec![item("Open", false, false)], &hidden));
    let cache = Some(ShellMenuCache {
        paths: vec!["C:\\x".to_string()],
        items,
    });
    assert!(!shell_menu_stale(&cache, &vec!["C:\\x\\".to_string()]));
    assert!(shell_menu_stale(&cache, &vec!["C:\\y".to_string()]));
    assert!(shell_menu_stale(&None, &vec![]));
}

#[test]
fn sessions_are_saved_when_something_has_changed() {
    let mut app = start("C:\\work");
    app.save();
    assert!(app.db.sessions.get(Some(1)).is_none());
    app.dirty = true;
    app.save();
    assert!(!app.dirty);
    assert_eq!(app.db.sessions.get(Some(1)).unwrap().tabs.len(), 2);
}

#[test]
fn panes_are_read_again_when_the_window_is_back() {
    let mut app = start("C:\\work");
    assert_eq!(
        app.poll_listing(0, ListingReply::Pending),
        Some("C:\\work".to_string())
    );
    app.poll_listing(0, ListingReply::Listed(vec![file("a.txt", false)]));
    assert_eq!(app.panes[0].tabs[0].listing.len(), 1);
    assert_eq!(app.poll_listing(0, ListingReply::Pending), None);
    app.regain_focus();
    assert_eq!(
        app.poll_listing(0, ListingReply::Pending),
        Some("C:\\work".to_string())
    );
}
