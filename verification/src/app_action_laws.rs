//! What actions, menus and dialogs lead to.

use crate::actions::{Action, ActionRef};
use crate::app::FileManApp;
use crate::app_dispatch::{FindRowAction, RowAction};
use crate::app_nav::Effect;
use crate::db::Database;
use crate::dialog::{Dialog, FileStep, NewFolders};
use crate::fs_entry::FsEntry;
use crate::fs_ops::ClipboardOp;
use crate::launcher::Launch;
use crate::pane::Pane;
use crate::session::LoadedSession;
use crate::tab::Tab;
use crate::tips::TipsCard;
use crate::{app, app_dialogs, app_dispatch, app_files, browse, listing, path, text};
use vstd::prelude::*;

verus! {

// ---------------------------------------------------------------------------
// Actions
// ---------------------------------------------------------------------------

/// Copying and cutting put the selection on the clipboard, each in its own way,
/// and start nothing; without a selection the clipboard stays.
pub proof fn law_copy_copies_and_cut_cuts<F: Fn(&String) -> bool, D: Fn(&String) -> bool>(
    after: FileManApp,
    before: FileManApp,
    cut: bool,
    os: Option<Vec<String>>,
    on_disk: F,
    f: D,
    now: Seq<char>,
    effect: Effect,
)
    requires
        app_dispatch::acted(
            after,
            before,
            if cut {
                Action::Cut
            } else {
                Action::Copy
            },
            os,
            on_disk,
            f,
            now,
            effect,
        ),
    ensures
        ({
            let paths = browse::selected_paths_of(before.active());
            &&& paths.len() > 0 ==> text::texts(after.clipboard@) == paths && after.clipboard_op
                == Some(
                if cut {
                    ClipboardOp::Cut
                } else {
                    ClipboardOp::Copy
                },
            )
            &&& paths.len() == 0 ==> after.clipboard == before.clipboard && after.clipboard_op
                == before.clipboard_op
        }),
        after.panes == before.panes && after.db == before.db && after.dialog == before.dialog,
        effect is Nothing || effect is CopyText,
{
}

/// What asks first changes nothing but the dialog: deleting, renaming, new
/// folders and files, and searching; and each asks for its own.
pub proof fn law_asking_changes_nothing<F: Fn(&String) -> bool, D: Fn(&String) -> bool>(
    after: FileManApp,
    before: FileManApp,
    action: Action,
    os: Option<Vec<String>>,
    on_disk: F,
    f: D,
    now: Seq<char>,
    effect: Effect,
)
    requires
        app_dispatch::acted(after, before, action, os, on_disk, f, now, effect),
        action is Delete || action is Rename || action is NewFolder || action is NewFile
            || action is Find,
    ensures
        effect == Effect::Nothing,
        after.panes == before.panes && after.db == before.db && after.clipboard == before.clipboard
            && after.clipboard_op == before.clipboard_op,
        action is Delete && browse::selected_paths_of(before.active()).len() > 0 ==> (
        after.dialog matches Some(Dialog::ConfirmDelete { paths }) && text::texts(paths@)
            == browse::selected_paths_of(before.active())),
        action is Rename && before.active().selected@.len() == 1 ==> (after.dialog matches Some(
            Dialog::Rename { path: p, name },
        ) && name@ == before.active().selected@[0]@),
        action is NewFolder ==> after.dialog matches Some(Dialog::NewFolder { name }),
        action is NewFile ==> after.dialog matches Some(Dialog::NewFile { name }),
        action is Find ==> (after.dialog matches Some(Dialog::Find(d)) && d.search_path@
            == before.active().path@),
{
}

/// What is copied as text is what was asked for: the paths of the selection,
/// one on each line, or the path of the folder.
pub proof fn law_paths_are_copied_as_text<F: Fn(&String) -> bool, D: Fn(&String) -> bool>(
    after: FileManApp,
    before: FileManApp,
    folder: bool,
    os: Option<Vec<String>>,
    on_disk: F,
    f: D,
    now: Seq<char>,
    effect: Effect,
)
    requires
        app_dispatch::acted(
            after,
            before,
            if folder {
                Action::CopyFolderPath
            } else {
                Action::CopyFilename
            },
            os,
            on_disk,
            f,
            now,
            effect,
        ),
    ensures
        folder ==> (effect matches Effect::CopyText(t) && t@ == before.active().path@),
        !folder && browse::selected_paths_of(before.active()).len() > 0 ==> (
        effect matches Effect::CopyText(t) && t@ == text::joined(
            browse::selected_paths_of(before.active()),
            "\n"@,
        )),
        after.panes == before.panes && after.clipboard == before.clipboard && after.clipboard_op
            == before.clipboard_op,
{
}

/// Refreshing reads the active folder again, and it stays the active folder;
/// the settings page opens and closes in turns.
pub proof fn law_refreshing_stays_in_place<F: Fn(&String) -> bool, D: Fn(&String) -> bool>(
    after: FileManApp,
    before: FileManApp,
    action: Action,
    os: Option<Vec<String>>,
    on_disk: F,
    f: D,
    now: Seq<char>,
    effect: Effect,
)
    requires
        before.wf(),
        app_dispatch::acted(after, before, action, os, on_disk, f, now, effect),
    ensures
        action is Refresh ==> after.active() == (Tab { listing_dirty: true, ..before.active() })
            && effect == Effect::Nothing && after.panes@[1 - before.active_pane]
            == before.panes@[1 - before.active_pane],
        action is ToggleSettings ==> after.show_settings == !before.show_settings && after.panes
            == before.panes && after.db == before.db && effect == Effect::Nothing,
{
    let p = before.active_pane as int;
    assert(before.panes@[p].wf());
    if action is Refresh {
        assert(after.panes@[1 - p] == before.panes@[1 - p]);
    }
}

/// A custom action starts its program with the whole selection, and with
/// nothing else; it changes nothing in the program.
pub proof fn law_custom_actions_get_the_selection(a: FileManApp, id: i64, r: Effect, k: int)
    requires
        call_ensures(FileManApp::run_custom, (&a, id), r),
        0 <= k < a.custom_actions@.len(),
        a.custom_actions@[k].id == id,
        forall|j: int| 0 <= j < k ==> (#[trigger] a.custom_actions@[j]).id != id,
    ensures
        browse::selected_paths_of(a.active()).len() > 0 ==> (r matches Effect::Run { program, args }
            && program == a.custom_actions@[k].exe_path && text::texts(args@)
            == browse::selected_paths_of(a.active())),
        browse::selected_paths_of(a.active()).len() == 0 ==> r == Effect::Nothing,
{
    lemma_custom_with(a, id, 0, k);
}

proof fn lemma_custom_with(a: FileManApp, id: i64, from: int, k: int)
    requires
        0 <= from <= k < a.custom_actions@.len(),
        a.custom_actions@[k].id == id,
        forall|j: int| from <= j < k ==> (#[trigger] a.custom_actions@[j]).id != id,
    ensures
        app_dispatch::custom_with(a.custom_actions@, id, from) == Some(a.custom_actions@[k]),
    decreases k - from,
{
    if from < k {
        lemma_custom_with(a, id, from + 1, k);
    }
}

/// The menu of an entry acts in its own pane. What it has in common with the
/// actions does what the action does there; the other choices are about the
/// file that was clicked, and change nothing in the program.
pub proof fn law_the_entry_menu_acts_in_its_pane<F: Fn(&String) -> bool, D: Fn(&String) -> bool>(
    after: FileManApp,
    before: FileManApp,
    p: usize,
    choice: RowAction,
    os: Option<Vec<String>>,
    on_disk: F,
    f: D,
    now: Seq<char>,
    effect: Effect,
)
    requires
        before.wf(),
        p < 2,
        app_dispatch::row_acted(after, before, p, choice, os, on_disk, f, now, effect),
    ensures
        choice is Copy && browse::selected_paths_of(before.panes@[p as int].active()).len() > 0
            ==> after.clipboard_op == Some(ClipboardOp::Copy) && text::texts(after.clipboard@)
            == browse::selected_paths_of(before.panes@[p as int].active()),
        choice is Cut && browse::selected_paths_of(before.panes@[p as int].active()).len() > 0
            ==> after.clipboard_op == Some(ClipboardOp::Cut) && text::texts(after.clipboard@)
            == browse::selected_paths_of(before.panes@[p as int].active()),
        choice is Delete && browse::selected_paths_of(before.panes@[p as int].active()).len() > 0
            ==> (after.dialog matches Some(Dialog::ConfirmDelete { paths }) && text::texts(paths@)
            == browse::selected_paths_of(before.panes@[p as int].active())),
        choice is NewFolder ==> after.dialog matches Some(Dialog::NewFolder { name }),
        choice is NewFile ==> after.dialog matches Some(Dialog::NewFile { name }),
        choice is CopyFolderPath ==> (effect matches Effect::CopyText(t) && t@
            == before.panes@[p as int].active().path@),
        choice matches RowAction::OpenWith(file) ==> (effect matches Effect::Run { program, args }
            && program@ == "openwith.exe"@ && text::texts(args@) == seq![file@]) && after.panes
            == before.panes,
        choice matches RowAction::OpenInExplorer(file) ==> (effect matches Effect::Run {
            program,
            args,
        } && program@ == "explorer"@ && text::texts(args@) == seq![file@]) && after.panes
            == before.panes,
        choice matches RowAction::Properties(file) ==> effect == (Effect::Properties { path: file })
            && after.panes == before.panes,
        choice matches RowAction::ShellCommand { id, paths } ==> effect == (Effect::ShellCommand {
            id,
            paths,
        }) && after.panes == before.panes,
{
    let b = FileManApp { active_pane: p, ..before };
    assert(b.active() == before.panes@[p as int].active());
}

// ---------------------------------------------------------------------------
// Search
// ---------------------------------------------------------------------------

/// A search that was typed starts in its folder with its words, without the
/// results of the one before; then every hit is kept in the order of arrival.
pub proof fn law_searching_keeps_every_hit(hits: Vec<FsEntry>, finished: bool)
    ensures
        forall|a: &mut FileManApp, r: Option<app_dispatch::SearchJob>|
            #[trigger] call_ensures(FileManApp::submit_search, (a,), r) ==> {
                &&& a.dialog matches Some(Dialog::Find(d)) ==> (r is Some <==> d.query@.len() > 0)
                    && (r matches Some(job) ==> job.dir == d.search_path && job.query == d.query && (
                final(a).dialog matches Some(Dialog::Find(e)) && e.results@.len() == 0))
                &&& !(a.dialog is Some && a.dialog->0 is Find) ==> r is None
                &&& final(a).panes == a.panes
            },
        forall|a: &mut FileManApp|
            #[trigger] call_ensures(FileManApp::search_hits, (a, hits, finished), ()) ==> {
                &&& a.dialog matches Some(Dialog::Find(d)) ==> (final(
                    a
                ).dialog matches Some(Dialog::Find(e)) && e.results@ == d.results@ + hits@)
                &&& finished ==> !final(a).find_running
                &&& !finished ==> final(a).find_running == a.find_running
                &&& final(a).panes == a.panes
            },
        forall|a: &mut FileManApp|
            #[trigger] call_ensures(FileManApp::close_dialog, (a,), ()) ==> {
                &&& final(a).dialog is None
                &&& a.dialog is Some && a.dialog->0 is Find ==> !final(a).find_running
                &&& final(a).panes == a.panes && final(a).db == a.db
            },
{
}

/// Keys are shortcuts unless something else takes them: a dialog, an action that
/// waits for its keys, or a text field.
pub proof fn law_typing_is_no_shortcut(a: FileManApp, focused: bool, r: bool)
    requires
        call_ensures(FileManApp::shortcuts_enabled, (&a, focused), r),
    ensures
        r <==> a.dialog is None && a.capturing_shortcut_for is None && !focused,
{
}

// ---------------------------------------------------------------------------
// Dialogs
// ---------------------------------------------------------------------------

/// A new name is trimmed and given to the one tab that was asked for; a blank
/// name gives the tab back the name of its folder.
pub proof fn law_one_tab_is_renamed<
    F: Fn(&String) -> bool,
    P: Fn(&FileStep) -> Option<String>,
>(
    after: FileManApp,
    before: FileManApp,
    p: usize,
    t: usize,
    name: String,
    on_disk: F,
    perform: P,
)
    requires
        before.wf(),
        before.dialog == Some(Dialog::RenameTab { pane_idx: p, tab_idx: t, name }),
        app_dialogs::committed(after, before, on_disk, perform),
        p < 2 && t < before.panes@[p as int].tabs@.len(),
    ensures
        after.dialog is None,
        after.panes@[1 - p] == before.panes@[1 - p],
        after.panes@[p as int].tabs@.len() == before.panes@[p as int].tabs@.len(),
        forall|j: int|
            0 <= j < before.panes@[p as int].tabs@.len() && j != t
                ==> #[trigger] after.panes@[p as int].tabs@[j] == before.panes@[p as int].tabs@[j],
        after.panes@[p as int].tabs@[t as int].path == before.panes@[p as int].tabs@[t as int].path,
        text::trimmed(name@).len() > 0 ==> (
        after.panes@[p as int].tabs@[t as int].custom_name matches Some(n) && n@ == text::trimmed(
            name@,
        )),
        text::trimmed(name@).len() == 0
            ==> after.panes@[p as int].tabs@[t as int].custom_name is None,
        after.db == before.db,
{
    assert(after.panes@[1 - p] == before.panes@[1 - p]);
}

/// A new user can be made where the name is not blank and not taken, and then
/// is the current user; otherwise the user stays, and no user is added.
pub proof fn law_a_new_user_takes_over<
    F: Fn(&String) -> bool,
    P: Fn(&FileStep) -> Option<String>,
>(after: FileManApp, before: FileManApp, name: String, on_disk: F, perform: P)
    requires
        before.wf(),
        before.dialog == Some(Dialog::NewUser { name }),
        app_dialogs::committed(after, before, on_disk, perform),
        before.current_user_id <= before.db.last_user_id < i64::MAX,
    ensures
        ({
            let n = text::trimmed(name@);
            let refused = n.len() == 0 || exists|i: int|
                0 <= i < before.db.users@.len() && (#[trigger] before.db.users@[i]).name@ == n;
            &&& refused ==> after.current_user_id == before.current_user_id && after.db == before.db
                && after.panes == before.panes
            &&& !refused ==> after.current_user_id == before.db.last_user_id + 1
        }),
{
}

/// A dialog is gone once it is confirmed, whatever came of it, and confirming
/// copies or moves nothing.
pub proof fn law_confirming_closes_the_dialog<
    F: Fn(&String) -> bool,
    P: Fn(&FileStep) -> Option<String>,
>(after: FileManApp, before: FileManApp, on_disk: F, perform: P)
    requires
        before.wf(),
        app_dialogs::committed(after, before, on_disk, perform),
    ensures
        after.dialog is None,
        after.clipboard == before.clipboard && after.clipboard_op == before.clipboard_op,
{
}

// ---------------------------------------------------------------------------
// Starting and saving
// ---------------------------------------------------------------------------

/// There are always two panes: those that are restored, up to two, and new ones
/// at the root of the system drive for those that are missing.
pub proof fn law_there_are_two_panes(
    panes: Vec<Pane>,
    active: usize,
    sort: (&str, bool),
    r: (Vec<Pane>, usize),
)
    requires
        call_ensures(app::ensure_two_panes, (panes, active, sort), r),
    ensures
        r.0@.len() == 2 && r.1 < 2,
        active < 2 ==> r.1 == active,
        panes@.len() > 0 ==> r.0@[0] == panes@[0],
        panes@.len() > 1 ==> r.0@[1] == panes@[1],
        panes@.len() == 0 ==> r.0@[0].tabs@.len() == 1 && r.0@[0].tabs@[0].path@ == "C:\\"@,
        panes@.len() < 2 ==> r.0@[1].tabs@.len() == 1 && r.0@[1].tabs@[0].path@ == "C:\\"@
            && r.0@[1].tabs@[0].sort_col@ == sort.0@ && r.0@[1].tabs@[0].sort_asc == sort.1,
{
}

/// The session is saved when it has changed, and only then: the tabs of the
/// current user are kept, and the sessions of the others stay.
pub proof fn law_changes_are_saved(v: i64)
    ensures
        forall|a: &mut FileManApp|
            #[trigger] call_ensures(FileManApp::save, (a,), ()) ==> {
                let u = Some(a.current_user_id);
                &&& !final(a).dirty
                &&& final(a).panes == a.panes
                &&& !a.dirty ==> final(a).db == a.db
                &&& a.dirty ==> {
                    &&& final(a).db.sessions@.contains_key(u)
                    &&& crate::session::row_views(final(a).db.sessions@[u].tabs@)
                        == crate::session::saved_panes(a.panes@)
                    &&& final(a).db.sessions@[u].active_pane == a.active_pane
                }
                &&& v != a.current_user_id && a.db.sessions@.contains_key(Some(v)) ==> final(
                    a
                ).db.sessions@[Some(v)] == a.db.sessions@[Some(v)]
            },
{
}

/// When the window has the keyboard again, the folder that each pane shows is
/// read again.
pub proof fn law_focus_reads_both_panes_again(p: int)
    requires
        0 <= p < 2,
    ensures
        forall|a: &mut FileManApp|
            #[trigger] call_ensures(FileManApp::regain_focus, (a,), ()) && a.wf() ==> {
                &&& final(a).panes@[p].active() == (Tab {
                    listing_dirty: true,
                    ..a.panes@[p].active()
                })
                &&& final(a).panes@[p].tabs@.len() == a.panes@[p].tabs@.len()
                &&& forall|j: int|
                    0 <= j < a.panes@[p].tabs@.len() && j != a.panes@[p].active_tab ==> #[trigger]
                        final(a).panes@[p].tabs@[j] == a.panes@[p].tabs@[j]
            },
{
    assert forall|a: &mut FileManApp|
        #[trigger] call_ensures(FileManApp::regain_focus, (a,), ()) && a.wf() implies {
        &&& final(a).panes@[p].active() == (Tab { listing_dirty: true, ..a.panes@[p].active() })
        &&& final(a).panes@[p].tabs@.len() == a.panes@[p].tabs@.len()
        &&& forall|j: int|
            0 <= j < a.panes@[p].tabs@.len() && j != a.panes@[p].active_tab ==> #[trigger] final(
                a
            ).panes@[p].tabs@[j] == a.panes@[p].tabs@[j]
    } by {
        assert(a.panes@[p].wf());
        assert(app::active_became(
            final(a).panes@[p],
            a.panes@[p],
            (Tab { listing_dirty: true, ..a.panes@[p].active() }),
        ));
    }
}

// ---------------------------------------------------------------------------
// One entry point
// ---------------------------------------------------------------------------

/// Shortcuts and buttons lead to the same: a built-in action acts as it does
/// everywhere, and a custom one starts its program and changes nothing else.
pub proof fn law_actions_act_alike_everywhere<F: Fn(&String) -> bool, D: Fn(&String) -> bool>(
    action: Action,
    id: i64,
    os: Option<Vec<String>>,
    on_disk: &F,
    is_dir: &D,
    now: &str,
)
    ensures
        forall|a: &mut FileManApp, r: Effect|
            #[trigger] call_ensures(
                FileManApp::dispatch::<F, D>,
                (a, ActionRef::Builtin(action), os, on_disk, is_dir, now),
                r,
            ) ==> app_dispatch::acted(*final(a), *a, action, os, *on_disk, *is_dir, now@, r),
        forall|a: &mut FileManApp, r: Effect|
            #[trigger] call_ensures(
                FileManApp::dispatch::<F, D>,
                (a, ActionRef::Custom(id), os, on_disk, is_dir, now),
                r,
            ) ==> *final(a) == *a && app_dispatch::custom_run(*a, id, r),
{
}

/// The title of the window names the active folder.
pub proof fn law_the_title_names_the_folder(a: FileManApp, r: String)
    requires
        call_ensures(FileManApp::title, (&a,), r),
    ensures
        path::file_name_of(a.active().path@) matches Some(n) ==> r@ == n + " - FileMan"@,
        path::file_name_of(a.active().path@) is None ==> r@ == a.active().path@
            + " - FileMan"@,
{
}

/// The program starts for the user it is given, in the folder it is given where
/// there is one, and else with the panes of the last session; without a session
/// both panes are at the root of the system drive.
pub proof fn law_the_program_starts_where_asked<D: Fn(&String) -> bool>(
    db: Database,
    user_id: i64,
    loaded: Option<LoadedSession>,
    dir: Option<String>,
    tips: TipsCard,
    is_dir: &D,
    now: &str,
    r: FileManApp,
)
    requires
        call_ensures(FileManApp::new::<D>, (db, user_id, loaded, dir, tips, is_dir, now), r),
        loaded matches Some(s) ==> forall|i: int|
            0 <= i < s.panes@.len() ==> (#[trigger] s.panes@[i]).wf(),
    ensures
        r.current_user_id == user_id,
        dir matches Some(d) ==> r.panes@[0].tabs@[0].path == d,
        dir is None && loaded is None ==> r.panes@[0].tabs@.len() == 1
            && r.panes@[0].tabs@[0].path@ == "C:\\"@ && r.panes@[1].tabs@.len() == 1
            && r.panes@[1].tabs@[0].path@ == "C:\\"@ && r.active_pane == 0,
        loaded matches Some(s) ==> s.panes@.len() > 1 ==> r.panes@[1] == s.panes@[1],
        dir is None ==> (loaded matches Some(s) ==> s.panes@.len() > 0 ==> r.panes@[0]
            == s.panes@[0]),
        r.clipboard@.len() == 0 && r.dialog is None && !r.dirty,
        r.db.settings == db.settings && r.db.favourites == db.favourites && r.db.users == db.users
            && r.db.sessions == db.sessions,
{
    let (panes, active) = choose|panes: Seq<Pane>, active: usize| #[trigger]
        app::starting_panes(panes, active, loaded, r.prefs) && r.active_pane == active
            && app::started_at(r.panes@, panes, dir);
    assert(panes.len() == 2);
    assert(panes[0].wf());
    if dir is Some {
        let first = Tab { path: dir->0, listing_dirty: true, ..panes[0].tabs@[0] };
        assert(r.panes@[0].tabs@ == panes[0].tabs@.update(0, first));
        assert(r.panes@[0].tabs@[0] == first);
    }
}

/// A launch from the toolbar starts its own target: a program with its words, a
/// file with the program that the system has for it.
pub proof fn law_launches_start_their_target(l: &Launch)
    ensures
        forall|a: &mut FileManApp, r: Effect|
            #[trigger] call_ensures(FileManApp::launch_app, (a, l), r) ==> (
            r matches Effect::Run { program, args } && program == l.target && text::texts(args@)
                == text::words(l.args@)) && final(a).panes == a.panes,
        forall|a: &mut FileManApp, r: Effect|
            #[trigger] call_ensures(FileManApp::launch_file, (a, l), r) ==> (
            r matches Effect::Run { program, args } && program@ == "cmd"@ && args@.len() == 4
                && args@[3]@ == l.target@) && final(a).panes == a.panes,
{
    assert forall|a: &mut FileManApp, r: Effect|
        #[trigger] call_ensures(FileManApp::launch_file, (a, l), r) implies (r matches Effect::Run {
        program,
        args,
    } && program@ == "cmd"@ && args@.len() == 4 && args@[3]@ == l.target@) && final(a).panes
        == a.panes by {
        let args = text::texts(r->args@);
        assert(args.len() == r->args@.len());
        assert(args[3] == r->args@[3]@);
    }
}

/// What is chosen for a hit is about that hit: it is opened, the active tab goes
/// to its folder, or its path or name is copied.
pub proof fn law_hits_are_acted_on<D: Fn(&String) -> bool>(
    s: String,
    is_dir: &D,
    now: &str,
)
    ensures
        forall|a: &mut FileManApp, r: Effect|
            #[trigger] call_ensures(
                FileManApp::find_row_action::<D>,
                (a, FindRowAction::Open(s), is_dir, now),
                r,
            ) ==> a.opens_with(s@, r) && final(a).panes == a.panes,
        forall|a: &mut FileManApp, r: Effect|
            #[trigger] call_ensures(
                FileManApp::find_row_action::<D>,
                (a, FindRowAction::Reveal(s), is_dir, now),
                r,
            ) && a.wf() ==> r == Effect::Nothing && (a.active().locked ==> final(a).panes
                == a.panes) && (!a.active().locked ==> final(a).active().path@ == s@),
        forall|a: &mut FileManApp, r: Effect|
            #[trigger] call_ensures(
                FileManApp::find_row_action::<D>,
                (a, FindRowAction::CopyPath(s), is_dir, now),
                r,
            ) ==> r == Effect::CopyText(s) && final(a).panes == a.panes,
        forall|a: &mut FileManApp, r: Effect|
            #[trigger] call_ensures(
                FileManApp::find_row_action::<D>,
                (a, FindRowAction::CopyName(s), is_dir, now),
                r,
            ) ==> r == Effect::CopyText(s) && final(a).panes == a.panes,
{
    assert forall|a: &mut FileManApp, r: Effect|
        #[trigger] call_ensures(
            FileManApp::find_row_action::<D>,
            (a, FindRowAction::Reveal(s), is_dir, now),
            r,
        ) && a.wf() implies r == Effect::Nothing && (a.active().locked ==> final(a).panes
        == a.panes) && (!a.active().locked ==> final(a).active().path@ == s@) by {
        assert(a.panes@[a.active_pane as int].wf());
        if !a.active().locked {
            assert(final(a).active().trail().path == s@);
        }
    }
}

// ---------------------------------------------------------------------------
// What was made or renamed
// ---------------------------------------------------------------------------

/// Every tab that shows `dir` is to be read again, and every tab shows the
/// folder that it showed.
pub open spec fn read_again(after: FileManApp, before: FileManApp, dir: Seq<char>) -> bool {
    forall|k: int, j: int|
        0 <= k < 2 && 0 <= j < before.panes@[k].tabs@.len() ==> {
            &&& (#[trigger] after.panes@[k].tabs@[j]).path == before.panes@[k].tabs@[j].path
            &&& path::same_path(before.panes@[k].tabs@[j].path@, dir)
                ==> after.panes@[k].tabs@[j].listing_dirty
        }
}

proof fn lemma_read_again(mid: FileManApp, before: FileManApp, dir: Seq<char>)
    requires
        before.wf(),
        app_dialogs::dir_marked(mid, before, dir),
    ensures
        read_again(mid, before, dir),
        mid.panes@.len() == 2,
        forall|k: int|
            0 <= k < 2 ==> (#[trigger] mid.panes@[k]).tabs@.len() == before.panes@[k].tabs@.len()
                && mid.panes@[k].active_tab == before.panes@[k].active_tab,
        mid.active().path == before.active().path,
{
    assert forall|k: int| 0 <= k < 2 implies (#[trigger] mid.panes@[k]).tabs@.len()
        == before.panes@[k].tabs@.len() && mid.panes@[k].active_tab
        == before.panes@[k].active_tab by {
        assert(listing::marked_pane(mid.panes@[k], before.panes@[k], dir));
    }
    assert forall|k: int, j: int| 0 <= k < 2 && 0 <= j < before.panes@[k].tabs@.len() implies {
        &&& (#[trigger] mid.panes@[k].tabs@[j]).path == before.panes@[k].tabs@[j].path
        &&& path::same_path(before.panes@[k].tabs@[j].path@, dir)
            ==> mid.panes@[k].tabs@[j].listing_dirty
    } by {
        assert(listing::marked_pane(mid.panes@[k], before.panes@[k], dir));
    }
    let p = before.active_pane as int;
    assert(before.panes@[p].wf());
    let t = before.panes@[p].active_tab as int;
    assert(mid.panes@[p].tabs@[t].path == before.panes@[p].tabs@[t].path);
}

proof fn lemma_singled_out(
    after: FileManApp,
    mid: FileManApp,
    before: FileManApp,
    dir: Seq<char>,
    name: Seq<char>,
    status: Seq<char>,
)
    requires
        before.wf(),
        app_dialogs::dir_marked(mid, before, dir),
        app_dialogs::singled_out(after, mid, name, status),
    ensures
        text::texts(after.active().selected@) == seq![name],
        after.active().path == before.active().path,
        read_again(after, before, dir),
{
    lemma_read_again(mid, before, dir);
    let p = before.active_pane as int;
    let t = before.panes@[p].active_tab as int;
    assert(before.panes@[p].wf());
    assert(mid.panes@[p].tabs@.len() == before.panes@[p].tabs@.len());
    assert forall|k: int, j: int| 0 <= k < 2 && 0 <= j < before.panes@[k].tabs@.len() implies {
        &&& (#[trigger] after.panes@[k].tabs@[j]).path == before.panes@[k].tabs@[j].path
        &&& path::same_path(before.panes@[k].tabs@[j].path@, dir)
            ==> after.panes@[k].tabs@[j].listing_dirty
    } by {
        assert(mid.panes@[k].tabs@[j].path == before.panes@[k].tabs@[j].path);
        if k == p {
            assert(mid.panes@[k].tabs@.len() == before.panes@[k].tabs@.len());
        } else {
            assert(after.panes@[k] == mid.panes@[k]);
        }
    }
}

/// An item that was renamed is what is then selected in the active tab, and its
/// folder is read again wherever it is shown; no tab goes elsewhere. A renaming
/// that failed changes no tab.
pub proof fn law_what_was_named_is_selected(
    after: FileManApp,
    before: FileManApp,
    p: Seq<char>,
    name: Seq<char>,
    err: Option<Seq<char>>,
)
    requires
        before.wf(),
        app_dialogs::rename_ended(after, before, p, name, err),
        path::parent_of(p) is Some,
    ensures
        err is None ==> text::texts(after.active().selected@) == seq![text::trimmed(name)]
            && after.active().path == before.active().path && read_again(
            after,
            before,
            path::parent_of(p)->0,
        ),
        err is Some ==> after.panes == before.panes,
{
    if err is None {
        let up = path::parent_of(p)->0;
        let mid = choose|mid: FileManApp|
            app_dialogs::dir_marked(mid, before, up) && #[trigger] app_dialogs::singled_out(
                after,
                mid,
                text::trimmed(name),
                "Renamed to "@ + name,
            );
        lemma_singled_out(after, mid, before, up, text::trimmed(name), "Renamed to "@ + name);
    }
}

/// Where folders were made, the active folder is read again wherever it is
/// shown, and a folder that was made alone is selected; where one failed, no tab
/// changes.
pub proof fn law_new_folders_show_up(after: FileManApp, before: FileManApp, r: NewFolders)
    requires
        before.wf(),
        app_dialogs::folders_ended(after, before, r),
    ensures
        r.ok ==> read_again(after, before, before.active().path@) && after.active().path
            == before.active().path,
        r.ok ==> (r.single matches Some(n) ==> text::texts(after.active().selected@) == seq![n@]),
        !r.ok ==> after.panes == before.panes,
{
    if r.ok {
        let dir = before.active().path@;
        let mid = choose|mid: FileManApp| #[trigger]
            app_dialogs::dir_marked(mid, before, dir) && match r.single {
                Some(name) => app_dialogs::singled_out(after, mid, name@, r.message@),
                None => app_files::said(after, mid, r.message@),
            };
        match r.single {
            Some(name) => lemma_singled_out(after, mid, before, dir, name@, r.message@),
            None => {
                lemma_read_again(mid, before, dir);
                assert(after.panes == mid.panes);
                assert forall|k: int, j: int|
                    0 <= k < 2 && 0 <= j < before.panes@[k].tabs@.len() implies {
                    &&& (#[trigger] after.panes@[k].tabs@[j]).path == before.panes@[k].tabs@[j].path
                    &&& path::same_path(before.panes@[k].tabs@[j].path@, dir)
                        ==> after.panes@[k].tabs@[j].listing_dirty
                } by {
                    assert(mid.panes@[k].tabs@[j].path == before.panes@[k].tabs@[j].path);
                }
            },
        }
    }
}

} // verus!
