//! The entry points of the window: actions, the search, background listings.

use crate::actions::{Action, ActionRef, CustomAction};
use crate::app::FileManApp;
use crate::app_files::tell;
use crate::app_nav::Effect;
use crate::dialog::Dialog;
use crate::find::FindDialog;
use crate::fs_entry::FsEntry;
use crate::fs_ops::ClipboardOp;
use crate::launcher::{launch_args, Launch};
use crate::listing::ListingReply;
use crate::path::shown_name;
use crate::tab::Tab;
use crate::{app, app_files, app_nav, app_tasks, browse, listing, path, text};
use vstd::prelude::*;

verus! {

// ---------------------------------------------------------------------------
// Actions
// ---------------------------------------------------------------------------

/// Which of the custom actions has the identity `id`, if one has.
pub open spec fn custom_with(customs: Seq<CustomAction>, id: i64, from: int) -> Option<CustomAction>
    decreases customs.len() - from,
{
    if from < 0 || from >= customs.len() {
        None
    } else if customs[from].id == id {
        Some(customs[from])
    } else {
        custom_with(customs, id, from + 1)
    }
}

/// What a custom action does: its program is started with the selection, if
/// there is one.
pub open spec fn custom_run(a: FileManApp, id: i64, effect: Effect) -> bool {
    let paths = browse::selected_paths_of(a.active());
    match custom_with(a.custom_actions@, id, 0) {
        Some(c) => if paths.len() > 0 {
            effect matches Effect::Run { program, args } && program == c.exe_path && text::texts(
                args@,
            ) == paths
        } else {
            effect == Effect::Nothing
        },
        None => effect == Effect::Nothing,
    }
}

/// A dialog for a new item was opened.
pub open spec fn new_item_asked(after: FileManApp, before: FileManApp, folder: bool) -> bool {
    &&& app_nav::asked(after, before)
    &&& if folder {
        after.dialog matches Some(Dialog::NewFolder { name }) && name@.len() == 0
    } else {
        after.dialog matches Some(Dialog::NewFile { name }) && name@.len() == 0
    }
}

/// What an action does. `os` are the files on the system's clipboard, `on_disk`
/// tells what exists and `f` what is a folder.
pub open spec fn acted<F: Fn(&String) -> bool, D: Fn(&String) -> bool>(
    after: FileManApp,
    before: FileManApp,
    action: Action,
    os: Option<Vec<String>>,
    on_disk: F,
    f: D,
    now: Seq<char>,
    effect: Effect,
) -> bool {
    let ap = before.active_pane as int;
    let t = before.active();
    match action {
        Action::Copy => app_files::put_on_clipboard(after, before, ClipboardOp::Copy, effect),
        Action::Cut => app_files::put_on_clipboard(after, before, ClipboardOp::Cut, effect),
        Action::Paste => app_files::pasted_clipboard(after, before, os, on_disk, effect),
        Action::Delete => app_tasks::delete_asked(after, before) && effect == Effect::Nothing,
        Action::Rename => app_tasks::rename_asked(after, before) && effect == Effect::Nothing,
        Action::NewFolder => new_item_asked(after, before, true) && effect == Effect::Nothing,
        Action::NewFile => new_item_asked(after, before, false) && effect == Effect::Nothing,
        Action::CopyFilename => app_files::copied_names(after, before, effect),
        Action::CopyFolderPath => app_files::said(after, before, "Folder path copied"@)
            && app_files::copies_text(effect, t.path@),
        Action::ExtractHere => app_tasks::extraction_asked(after, before, true, effect),
        Action::ExtractTo => app_tasks::extraction_asked(after, before, false, effect),
        Action::ToggleFavourite => favourite_toggled(after, before, t.path@) && effect
            == Effect::Nothing,
        Action::GoBack => app_nav::stepped(
            after,
            before,
            ap,
            t.history_back@.len() > 0,
            t.trail().backward(),
            f,
            now,
        ) && effect == Effect::Nothing,
        Action::GoForward => app_nav::stepped(
            after,
            before,
            ap,
            t.history_forward@.len() > 0,
            t.trail().onward(),
            f,
            now,
        ) && effect == Effect::Nothing,
        Action::GoUp => app_nav::went_up(after, before, f, now) && effect == Effect::Nothing,
        Action::NewTab => app_nav::added_tab(after, before, t.path@, ap, f, now) && effect
            == Effect::Nothing,
        Action::CloseTab => app_nav::closed_tab(
            after,
            before,
            ap,
            before.panes@[ap].active_tab as int,
        ) && effect == Effect::Nothing,
        Action::Refresh => app_nav::refreshed(after, before) && effect == Effect::Nothing,
        Action::Find => app_nav::asked(after, before) && (after.dialog matches Some(
            Dialog::Find(d),
        ) && d.is_new(t.path@)) && effect == Effect::Nothing,
        Action::ToggleSettings => after == (FileManApp {
            show_settings: !before.show_settings,
            ..before
        }) && effect == Effect::Nothing,
        Action::SelectAll => app_nav::selected_all(after, before) && effect == Effect::Nothing,
    }
}

/// The star of a folder was clicked.
pub open spec fn favourite_toggled(after: FileManApp, before: FileManApp, p: Seq<char>) -> bool {
    &&& app_nav::favourites_became(after, before, before.favourites_toggled(p))
    &&& after.status@ == before.toggle_status(p)
    &&& after == (FileManApp {
        db: after.db,
        favourites: after.favourites,
        status: after.status,
        ..before
    })
}

impl FileManApp {
    fn find_custom(&self, id: i64) -> (r: Option<usize>)
        ensures
            match r {
                Some(i) => i < self.custom_actions@.len() && custom_with(
                    self.custom_actions@,
                    id,
                    0,
                ) == Some(self.custom_actions@[i as int]),
                None => custom_with(self.custom_actions@, id, 0) is None,
            },
    {
        let mut i: usize = 0;
        while i < self.custom_actions.len()
            invariant
                i <= self.custom_actions.len(),
                custom_with(self.custom_actions@, id, 0) == custom_with(
                    self.custom_actions@,
                    id,
                    i as int,
                ),
            decreases self.custom_actions.len() - i,
        {
            if self.custom_actions[i].id == id {
                return Some(i);
            }
            i += 1;
        }
        None
    }

    /// Launches a custom "open with" executable against the current selection.
    pub fn run_custom(&self, id: i64) -> (r: Effect)
        requires
            self.wf(),
        ensures
            custom_run(*self, id, r),
    {
        match self.find_custom(id) {
            Some(i) => {
                let paths = self.selected_paths();
                assert(text::texts(paths@).len() == paths@.len());
                if paths.len() == 0 {
                    Effect::Nothing
                } else {
                    Effect::Run {
                        program: self.custom_actions[i].exe_path.clone(),
                        args: paths,
                    }
                }
            },
            None => Effect::Nothing,
        }
    }

    /// Asks for the name of a new folder, or of a new file.
    pub fn ask_new_item(&mut self, folder: bool)
        requires
            old(self).wf(),
        ensures
            final(self).wf(),
            new_item_asked(*final(self), *old(self), folder),
            old(self).synced() ==> final(self).synced(),
    {
        self.dialog_just_opened = true;
        self.dialog = if folder {
            Some(Dialog::NewFolder { name: String::new() })
        } else {
            Some(Dialog::NewFile { name: String::new() })
        };
    }

    /// Asks for the name of a new user.
    pub fn ask_new_user(&mut self)
        requires
            old(self).wf(),
        ensures
            final(self).wf(),
            app_nav::asked(*final(self), *old(self)),
            final(self).dialog matches Some(Dialog::NewUser { name }) && name@.len() == 0,
            old(self).synced() ==> final(self).synced(),
    {
        self.dialog_just_opened = true;
        self.dialog = Some(Dialog::NewUser { name: String::new() });
    }

    fn act<F: Fn(&String) -> bool, D: Fn(&String) -> bool>(
        &mut self,
        action: Action,
        os: Option<Vec<String>>,
        on_disk: &F,
        is_dir: &D,
        now: &str,
    ) -> (r: Effect)
        requires
            old(self).wf(),
            forall|s: &String| call_requires(*on_disk, (s,)),
            forall|s: &String| call_requires(*is_dir, (s,)),
        ensures
            final(self).wf(),
            acted(*final(self), *old(self), action, os, *on_disk, *is_dir, now@, r),
            old(self).synced() ==> final(self).synced(),
    {
        let ap: usize = self.active_pane;
        match action {
            Action::Copy => {
                return self.copy_selection();
            },
            Action::Cut => {
                return self.cut_selection();
            },
            Action::Paste => {
                return self.paste_clipboard(os, on_disk);
            },
            Action::CopyFilename => {
                return self.copy_filename();
            },
            Action::CopyFolderPath => {
                return self.copy_folder_path();
            },
            Action::ExtractHere => {
                return self.extract_here();
            },
            Action::ExtractTo => {
                return self.extract_to();
            },
            Action::Delete => self.delete_selection(),
            Action::Rename => self.begin_rename(),
            Action::NewFolder => self.ask_new_item(true),
            Action::NewFile => self.ask_new_item(false),
            Action::ToggleFavourite => self.toggle_favourite_current(),
            Action::GoBack => self.go_back(ap, is_dir, now),
            Action::GoForward => self.go_forward(ap, is_dir, now),
            Action::GoUp => self.go_up(is_dir, now),
            Action::NewTab => {
                let dir = self.active_tab_dir();
                self.new_tab(ap, dir, is_dir, now);
            },
            Action::CloseTab => self.close_active_tab(),
            Action::Refresh => self.refresh(),
            Action::Find => self.begin_find(),
            Action::ToggleSettings => {
                self.show_settings = !self.show_settings;
            },
            Action::SelectAll => self.select_all_in_view(),
        }
        Effect::Nothing
    }

    /// The single entry point every shortcut and toolbar button routes through:
    /// runs the built-in action, or launches a custom "open with" executable
    /// against the current selection.
    pub fn dispatch<F: Fn(&String) -> bool, D: Fn(&String) -> bool>(
        &mut self,
        action_ref: ActionRef,
        os: Option<Vec<String>>,
        on_disk: &F,
        is_dir: &D,
        now: &str,
    ) -> (r: Effect)
        requires
            old(self).wf(),
            forall|s: &String| call_requires(*on_disk, (s,)),
            forall|s: &String| call_requires(*is_dir, (s,)),
        ensures
            final(self).wf(),
            match action_ref {
                ActionRef::Builtin(action) => acted(
                    *final(self),
                    *old(self),
                    action,
                    os,
                    *on_disk,
                    *is_dir,
                    now@,
                    r,
                ),
                ActionRef::Custom(id) => *final(self) == *old(self) && custom_run(
                    *old(self),
                    id,
                    r,
                ),
            },
            old(self).synced() ==> final(self).synced(),
    {
        match action_ref {
            ActionRef::Builtin(action) => self.act(action, os, on_disk, is_dir, now),
            ActionRef::Custom(id) => self.run_custom(id),
        }
    }

    /// Whether keys are shortcuts now: not while a dialog is open, while an
    /// action waits for its new keys, or while a text field has the keyboard.
    pub fn shortcuts_enabled(&self, text_focused: bool) -> (r: bool)
        ensures
            r == (self.dialog is None && self.capturing_shortcut_for is None && !text_focused),
    {
        self.dialog.is_none() && self.capturing_shortcut_for.is_none() && !text_focused
    }
}

// ---------------------------------------------------------------------------
// The menu of an entry
// ---------------------------------------------------------------------------

/// What was chosen from the menu of an entry.
#[derive(Debug, PartialEq)]
pub enum RowAction {
    Copy,
    Cut,
    Paste,
    Rename,
    Delete,
    NewFolder,
    NewFile,
    CopyName,
    CopyFolderPath,
    ExtractHere,
    ExtractTo,
    FavouriteFolder(String),
    OpenWith(String),
    OpenInExplorer(String),
    Properties(String),
    ShellCommand { id: u32, paths: Vec<String> },
}

/// The action of the program that a choice from an entry's menu stands for, if
/// it does for one.
pub open spec fn row_builtin(a: RowAction) -> Option<Action> {
    match a {
        RowAction::Copy => Some(Action::Copy),
        RowAction::Cut => Some(Action::Cut),
        RowAction::Paste => Some(Action::Paste),
        RowAction::Rename => Some(Action::Rename),
        RowAction::Delete => Some(Action::Delete),
        RowAction::NewFolder => Some(Action::NewFolder),
        RowAction::NewFile => Some(Action::NewFile),
        RowAction::CopyName => Some(Action::CopyFilename),
        RowAction::CopyFolderPath => Some(Action::CopyFolderPath),
        RowAction::ExtractHere => Some(Action::ExtractHere),
        RowAction::ExtractTo => Some(Action::ExtractTo),
        _ => None,
    }
}

/// The effect is to start `program` with one argument.
pub open spec fn runs_on(effect: Effect, program: Seq<char>, p: Seq<char>) -> bool {
    effect matches Effect::Run { program: exe, args } && exe@ == program && text::texts(args@)
        == seq![p]
}

/// What a choice from the menu of an entry in pane `p` does.
pub open spec fn row_acted<F: Fn(&String) -> bool, D: Fn(&String) -> bool>(
    after: FileManApp,
    before: FileManApp,
    p: usize,
    choice: RowAction,
    os: Option<Vec<String>>,
    on_disk: F,
    f: D,
    now: Seq<char>,
    effect: Effect,
) -> bool {
    let b = FileManApp { active_pane: p, ..before };
    match row_builtin(choice) {
        Some(action) => acted(after, b, action, os, on_disk, f, now, effect),
        None => match choice {
            RowAction::FavouriteFolder(dir) => favourite_toggled(after, b, dir@) && effect
                == Effect::Nothing,
            RowAction::OpenWith(file) => after == b && runs_on(effect, "openwith.exe"@, file@),
            RowAction::OpenInExplorer(file) => after == b && runs_on(effect, "explorer"@, file@),
            RowAction::Properties(file) => after == b && effect == Effect::Properties {
                path: file,
            },
            RowAction::ShellCommand { id, paths } => after == b && effect == Effect::ShellCommand {
                id,
                paths,
            },
            _ => false,
        },
    }
}

fn run_on(program: &str, p: String) -> (r: Effect)
    ensures
        runs_on(r, program@, p@),
{
    let mut args: Vec<String> = Vec::new();
    args.push(p);
    assert(text::texts(args@) =~= seq![p@]);
    Effect::Run { program: program.to_owned(), args }
}

impl FileManApp {
    /// Carries out a choice from the menu of an entry of a pane, which becomes
    /// the active one.
    pub fn row_action<F: Fn(&String) -> bool, D: Fn(&String) -> bool>(
        &mut self,
        pane_idx: usize,
        choice: RowAction,
        os: Option<Vec<String>>,
        on_disk: &F,
        is_dir: &D,
        now: &str,
    ) -> (r: Effect)
        requires
            old(self).wf(),
            pane_idx < 2,
            forall|s: &String| call_requires(*on_disk, (s,)),
            forall|s: &String| call_requires(*is_dir, (s,)),
        ensures
            final(self).wf(),
            row_acted(
                *final(self),
                *old(self),
                pane_idx,
                choice,
                os,
                *on_disk,
                *is_dir,
                now@,
                r,
            ),
            old(self).synced() ==> final(self).synced(),
    {
        self.active_pane = pane_idx;
        let action = match choice {
            RowAction::Copy => Action::Copy,
            RowAction::Cut => Action::Cut,
            RowAction::Paste => Action::Paste,
            RowAction::Rename => Action::Rename,
            RowAction::Delete => Action::Delete,
            RowAction::NewFolder => Action::NewFolder,
            RowAction::NewFile => Action::NewFile,
            RowAction::CopyName => Action::CopyFilename,
            RowAction::CopyFolderPath => Action::CopyFolderPath,
            RowAction::ExtractHere => Action::ExtractHere,
            RowAction::ExtractTo => Action::ExtractTo,
            RowAction::FavouriteFolder(dir) => {
                self.toggle_favourite(dir.as_str());
                return Effect::Nothing;
            },
            RowAction::OpenWith(file) => {
                return run_on("openwith.exe", file);
            },
            RowAction::OpenInExplorer(file) => {
                return run_on("explorer", file);
            },
            RowAction::Properties(file) => {
                return Effect::Properties { path: file };
            },
            RowAction::ShellCommand { id, paths } => {
                return Effect::ShellCommand { id, paths };
            },
        };
        self.act(action, os, on_disk, is_dir, now)
    }
}

// ---------------------------------------------------------------------------
// Search
// ---------------------------------------------------------------------------

/// A search to start in the background.
#[derive(Debug, PartialEq)]
pub struct SearchJob {
    pub dir: String,
    pub query: String,
}

/// What was chosen for a hit of the search.
#[derive(Debug, PartialEq)]
pub enum FindRowAction {
    Open(String),
    Reveal(String),
    CopyPath(String),
    CopyName(String),
}

impl FileManApp {
    /// Starts the search that was typed: a fresh search replaces the previous
    /// one's results.
    pub fn submit_search(&mut self) -> (r: Option<SearchJob>)
        requires
            old(self).wf(),
        ensures
            final(self).wf(),
            match old(self).dialog {
                Some(Dialog::Find(d)) => if d.query@.len() > 0 {
                    &&& (r matches Some(job) && job.dir == d.search_path && job.query == d.query)
                    &&& final(self).find_running
                    &&& (final(self).dialog matches Some(Dialog::Find(e)) && e.results@.len() == 0
                        && e == (FindDialog { results: e.results, ..d }))
                    &&& *final(self) == (FileManApp {
                        dialog: final(self).dialog,
                        find_running: final(self).find_running,
                        ..*old(self)
                    })
                } else {
                    r is None && *final(self) == *old(self)
                },
                _ => r is None && *final(self) == *old(self),
            },
            old(self).synced() ==> final(self).synced(),
    {
        match self.dialog.take() {
            Some(Dialog::Find(mut d)) => {
                let query = d.begin_search();
                let dir = d.search_path.clone();
                self.dialog = Some(Dialog::Find(d));
                match query {
                    Some(q) => {
                        self.find_running = true;
                        Some(SearchJob { dir, query: q })
                    },
                    None => None,
                }
            },
            other => {
                self.dialog = other;
                None
            },
        }
    }

    /// Takes in the hits that a search has found since the last frame, and its
    /// end.
    pub fn search_hits(&mut self, hits: Vec<FsEntry>, finished: bool)
        requires
            old(self).wf(),
        ensures
            final(self).wf(),
            final(self).find_running == (old(self).find_running && !finished),
            match old(self).dialog {
                Some(Dialog::Find(d)) => final(self).dialog matches Some(Dialog::Find(e))
                    && e.results@ == d.results@ + hits@ && e == (FindDialog {
                    results: e.results,
                    ..d
                }),
                _ => final(self).dialog == old(self).dialog,
            },
            *final(self) == (FileManApp {
                dialog: final(self).dialog,
                find_running: final(self).find_running,
                ..*old(self)
            }),
            old(self).synced() ==> final(self).synced(),
    {
        match self.dialog.take() {
            Some(Dialog::Find(mut d)) => {
                d.add_hits(hits);
                self.dialog = Some(Dialog::Find(d));
            },
            other => {
                self.dialog = other;
            },
        }
        if finished {
            self.find_running = false;
        }
    }

    /// Closes the dialog that is open, and stops a search.
    pub fn close_dialog(&mut self)
        requires
            old(self).wf(),
        ensures
            final(self).wf(),
            *final(self) == (FileManApp {
                dialog: None,
                find_running: old(self).find_running && !(old(self).dialog matches Some(
                    Dialog::Find(d),
                )),
                ..*old(self)
            }),
            old(self).synced() ==> final(self).synced(),
    {
        match &self.dialog {
            Some(Dialog::Find(_)) => {
                self.find_running = false;
            },
            _ => {},
        }
        self.dialog = None;
    }

    /// Carries out what was chosen for a hit of the search.
    pub fn find_row_action<D: Fn(&String) -> bool>(
        &mut self,
        choice: FindRowAction,
        is_dir: &D,
        now: &str,
    ) -> (r: Effect)
        requires
            old(self).wf(),
            forall|s: &String| call_requires(*is_dir, (s,)),
        ensures
            final(self).wf(),
            match choice {
                FindRowAction::Open(file) => {
                    &&& app_nav::recorded(*final(self), *old(self), file@, false, now@)
                    &&& *final(self) == (FileManApp {
                        db: final(self).db,
                        recent_items: final(self).recent_items,
                        ..*old(self)
                    })
                    &&& old(self).opens_with(file@, r)
                },
                FindRowAction::Reveal(dir) => app_nav::went(
                    *final(self),
                    *old(self),
                    dir@,
                    *is_dir,
                    now@,
                ) && r == Effect::Nothing,
                FindRowAction::CopyPath(s) => app_files::said(
                    *final(self),
                    *old(self),
                    "Copied path to clipboard"@,
                ) && r == Effect::CopyText(s),
                FindRowAction::CopyName(s) => app_files::said(
                    *final(self),
                    *old(self),
                    "Copied filename to clipboard"@,
                ) && r == Effect::CopyText(s),
            },
            old(self).synced() ==> final(self).synced(),
    {
        match choice {
            FindRowAction::Open(file) => {
                self.record_recent(file.as_str(), false, now);
                self.open_path(file.as_str())
            },
            FindRowAction::Reveal(dir) => {
                self.go_to(dir, is_dir, now);
                Effect::Nothing
            },
            FindRowAction::CopyPath(s) => {
                self.status = "Copied path to clipboard".to_owned();
                Effect::CopyText(s)
            },
            FindRowAction::CopyName(s) => {
                self.status = "Copied filename to clipboard".to_owned();
                Effect::CopyText(s)
            },
        }
    }
}

// ---------------------------------------------------------------------------
// Launching
// ---------------------------------------------------------------------------

impl FileManApp {
    /// Starts a program from the toolbar.
    pub fn launch_app(&mut self, l: &Launch) -> (r: Effect)
        requires
            old(self).wf(),
        ensures
            final(self).wf(),
            app_files::said(*final(self), *old(self), "Launched "@ + l.label@),
            r matches Effect::Run { program, args } && program == l.target && text::texts(args@)
                == text::words(l.args@),
            old(self).synced() ==> final(self).synced(),
    {
        self.status = tell("Launched ", l.label.as_str());
        Effect::Run { program: l.target.clone(), args: launch_args(l) }
    }

    /// Opens a file from the toolbar with its default program.
    pub fn launch_file(&mut self, l: &Launch) -> (r: Effect)
        requires
            old(self).wf(),
        ensures
            final(self).wf(),
            app_files::said(*final(self), *old(self), "Opened "@ + l.label@),
            r matches Effect::Run { program, args } && program@ == "cmd"@ && text::texts(args@)
                == seq!["/C"@, "start"@, ""@, l.target@],
            old(self).synced() ==> final(self).synced(),
    {
        self.status = tell("Opened ", l.label.as_str());
        let mut args: Vec<String> = Vec::new();
        args.push("/C".to_owned());
        args.push("start".to_owned());
        args.push("".to_owned());
        args.push(l.target.clone());
        assert(text::texts(args@) =~= seq!["/C"@, "start"@, ""@, l.target@]);
        Effect::Run { program: "cmd".to_owned(), args }
    }
}

/// What is said once something to start was added.
pub fn launch_added_status(program: bool, label: &str) -> (r: String)
    ensures
        r@ == (if program {
            "Added launcher app \""@
        } else {
            "Added file launch shortcut \""@
        }) + label@ + "\""@,
{
    let mut s = if program {
        tell("Added launcher app \"", label)
    } else {
        tell("Added file launch shortcut \"", label)
    };
    s.append("\"");
    s
}

/// What is said once something to start was removed.
pub fn launch_removed_status(program: bool) -> (r: &'static str)
    ensures
        r@ == (if program {
            "Launcher app removed"@
        } else {
            "File launch shortcut removed"@
        }),
{
    if program {
        "Launcher app removed"
    } else {
        "File launch shortcut removed"
    }
}

// ---------------------------------------------------------------------------
// Once a frame
// ---------------------------------------------------------------------------

impl FileManApp {
    /// The title of the window: the active folder first, so that it is what is
    /// legible in a crowded taskbar.
    pub fn title(&self) -> (r: String)
        requires
            self.wf(),
        ensures
            r@ == path::shown_name_of(self.active().path@) + " - FileMan"@,
    {
        let dir = self.active_tab_dir();
        tell(shown_name(dir.as_str()).as_str(), " - FileMan")
    }

    /// The window has the keyboard again: what both panes show may have changed
    /// meanwhile.
    pub fn regain_focus(&mut self)
        requires
            old(self).wf(),
        ensures
            final(self).wf(),
            forall|i: int|
                0 <= i < 2 ==> app::active_became(
                    #[trigger] final(self).panes@[i],
                    old(self).panes@[i],
                    (Tab { listing_dirty: true, ..old(self).panes@[i].active() }),
                ),
            *final(self) == (FileManApp { panes: final(self).panes, ..*old(self) }),
            old(self).synced() ==> final(self).synced(),
    {
        let t = self.panes[0].active_tab_mut();
        t.listing_dirty = true;
        let u = self.panes[1].active_tab_mut();
        u.listing_dirty = true;
    }

    /// Takes in what the background listing of a pane has found, and tells which
    /// folder to list next, if any.
    pub fn poll_listing(&mut self, pane_idx: usize, reply: ListingReply) -> (r: Option<String>)
        requires
            old(self).wf(),
            pane_idx < 2,
        ensures
            final(self).wf(),
            ({
                let p = pane_idx as int;
                let now = final(self).panes@[p];
                &&& final(self).panes@ == old(self).panes@.update(p, now)
                &&& app::active_became(now, old(self).panes@[p], now.active())
                &&& final(self).listing_jobs@ == old(self).listing_jobs@.update(
                    p,
                    final(self).listing_jobs@[p],
                )
                &&& listing::polled_listing(
                    now.active(),
                    final(self).listing_jobs@[p],
                    old(self).panes@[p].active(),
                    old(self).listing_jobs@[p],
                    reply,
                    old(self).prefs.show_hidden,
                    r,
                )
            }),
            *final(self) == (FileManApp {
                panes: final(self).panes,
                listing_jobs: final(self).listing_jobs,
                ..*old(self)
            }),
            old(self).synced() ==> final(self).synced(),
    {
        let show_hidden: bool = self.prefs.show_hidden;
        let t = self.panes[pane_idx].active_tab_mut();
        self.listing_jobs[pane_idx].poll_listing(t, reply, show_hidden)
    }

    /// Saves the session if it has changed.
    pub fn save(&mut self)
        requires
            old(self).wf(),
        ensures
            final(self).wf(),
            if old(self).dirty {
                &&& final(self).db.same_but_sessions(old(self).db)
                &&& app::left_saved(final(self).db, *old(self))
                &&& *final(self) == (FileManApp { db: final(self).db, dirty: false, ..*old(self) })
            } else {
                *final(self) == *old(self)
            },
            old(self).synced() ==> final(self).synced(),
    {
        if self.dirty {
            self.persist();
            self.dirty = false;
        }
    }
}

} // verus!
