//! What the dialogs do once they are confirmed.

use crate::app::FileManApp;
use crate::app_files::tell;
use crate::db::DbError;
use crate::dialog::{create_folders, create_item, rename, Dialog, FileStep, NewFolders};
use crate::path::parent;
use crate::tab::Tab;
use crate::text::trim;
use crate::user::{create_user, list_users};
use crate::{app, app_files, app_nav, dialog, path, text, user};
use vstd::prelude::*;

verus! {

/// `dir` is to be read again wherever it is shown.
pub open spec fn dir_marked(after: FileManApp, before: FileManApp, dir: Seq<char>) -> bool {
    &&& app_nav::panes_marked(after.panes@, before.panes@, dir)
    &&& app_nav::forgotten(after.subdirs, before.subdirs, dir)
    &&& after == (FileManApp { panes: after.panes, subdirs: after.subdirs, ..before })
}

/// `name` alone is selected in the active tab.
pub open spec fn singled_out(
    after: FileManApp,
    before: FileManApp,
    name: Seq<char>,
    status: Seq<char>,
) -> bool {
    &&& after.active_is_now(before, after.active())
    &&& after.active().same_but_selection(before.active())
    &&& text::texts(after.active().selected@) == seq![name]
    &&& after.last_selected_index is None
    &&& after.status@ == status
    &&& after == (FileManApp {
        panes: after.panes,
        last_selected_index: after.last_selected_index,
        status: after.status,
        ..before
    })
}

/// The state once the dialog is gone.
pub open spec fn without_dialog(before: FileManApp) -> FileManApp {
    FileManApp { dialog: None, ..before }
}

/// What a rename does that ended with `err`.
pub open spec fn rename_ended(
    after: FileManApp,
    before: FileManApp,
    p: Seq<char>,
    name: Seq<char>,
    err: Option<Seq<char>>,
) -> bool {
    match err {
        Some(e) => app_files::said(after, before, "Rename failed: "@ + e),
        None => exists|mid: FileManApp|
            (match path::parent_of(p) {
                Some(up) => dir_marked(mid, before, up),
                None => mid == before,
            }) && #[trigger] singled_out(
                after,
                mid,
                text::trimmed(name),
                "Renamed to "@ + name,
            ),
    }
}

/// What making new folders does that ended as `r` tells.
pub open spec fn folders_ended(after: FileManApp, before: FileManApp, r: NewFolders) -> bool {
    if r.ok {
        exists|mid: FileManApp| #[trigger]
            dir_marked(mid, before, before.active().path@) && match r.single {
                Some(name) => singled_out(after, mid, name@, r.message@),
                None => app_files::said(after, mid, r.message@),
            }
    } else {
        app_files::said(after, before, r.message@)
    }
}

/// What making a new file does that ended with `err`.
pub open spec fn file_ended(
    after: FileManApp,
    before: FileManApp,
    name: Seq<char>,
    err: Option<Seq<char>>,
) -> bool {
    match err {
        Some(e) => app_files::said(after, before, "Create file failed: "@ + e),
        None => exists|mid: FileManApp| #[trigger]
            dir_marked(mid, before, before.active().path@) && app_files::said(
                after,
                mid,
                "Created file "@ + name,
            ),
    }
}

/// A user called `name` was added, and the list of users shows them.
pub open spec fn user_listed(
    after: FileManApp,
    before: FileManApp,
    id: i64,
    name: Seq<char>,
) -> bool {
    &&& id == before.db.last_user_id + 1
    &&& user::user_added(before.db.users@, after.db.users@, id, name, false)
    &&& after.db.last_user_id == id
    &&& after.db.same_but_users(before.db)
    &&& user::shows_users(after.users@, after.db.users@)
    &&& after == (FileManApp { db: after.db, users: after.users, ..before })
}

/// What is said when the database refuses a user.
pub open spec fn refusal(e: DbError) -> Seq<char> {
    match e {
        DbError::NameTaken => "UNIQUE constraint failed: users.name"@,
        DbError::Full => "database or disk is full"@,
    }
}

/// Why a user called `name` cannot be added, if so.
pub open spec fn user_problem(a: FileManApp, name: Seq<char>) -> Option<Seq<char>> {
    if name.len() == 0 {
        Some("User name cannot be empty"@)
    } else if user::name_taken(a.db.users@, name) {
        Some("Create user failed: "@ + refusal(DbError::NameTaken))
    } else if a.db.last_user_id == i64::MAX {
        Some("Create user failed: "@ + refusal(DbError::Full))
    } else {
        None
    }
}

/// What making a new user does: they become the current user.
pub open spec fn user_ended<F: Fn(&String) -> bool>(
    after: FileManApp,
    before: FileManApp,
    name: Seq<char>,
    on_disk: F,
) -> bool {
    match user_problem(before, name) {
        Some(problem) => app_files::said(after, before, problem),
        None => exists|mid: FileManApp, end: FileManApp, id: i64| #[trigger]
            user_listed(mid, before, id, name) && #[trigger] app::switched(end, mid, id, on_disk)
                && app_files::said(after, end, "Created user "@ + name),
    }
}

/// What renaming a tab does: a blank name gives it back its folder's.
pub open spec fn tab_renamed(
    after: FileManApp,
    before: FileManApp,
    p: usize,
    t: usize,
    name: Seq<char>,
) -> bool {
    if p < 2 && t < before.panes@[p as int].tabs@.len() {
        let was = before.panes@[p as int];
        let now = after.panes@[p as int];
        &&& after.panes@.len() == before.panes@.len()
        &&& forall|i: int|
            0 <= i < before.panes@.len() && i != p ==> #[trigger] after.panes@[i]
                == before.panes@[i]
        &&& now.tabs@ == was.tabs@.update(
            t as int,
            (Tab { custom_name: now.tabs@[t as int].custom_name, ..was.tabs@[t as int] }),
        )
        &&& match now.tabs@[t as int].custom_name {
            Some(n) => n@ == text::trimmed(name) && n@.len() > 0,
            None => text::trimmed(name).len() == 0,
        }
        &&& now.active_tab == was.active_tab
        &&& now.same_address(was)
        &&& after == (FileManApp { panes: after.panes, ..before })
    } else {
        after == before
    }
}

/// What confirming the open dialog does. `on_disk` tells what exists, and
/// `perform` carries out one step on the disk.
pub open spec fn committed<F: Fn(&String) -> bool, P: Fn(&FileStep) -> Option<String>>(
    after: FileManApp,
    before: FileManApp,
    on_disk: F,
    perform: P,
) -> bool {
    let b = without_dialog(before);
    match before.dialog {
        Some(Dialog::Rename { path: p, name }) => exists|err: Option<Seq<char>>| #[trigger]
            dialog::renamed(p@, name@, on_disk, perform, err) && rename_ended(
                after,
                b,
                p@,
                name@,
                err,
            ),
        Some(Dialog::NewFolder { name }) => exists|errs: Seq<Option<Seq<char>>>, r: NewFolders|
            #[trigger] dialog::all_created(
                before.active().path@,
                text::nonblank_lines(name@),
                on_disk,
                perform,
                errs,
            ) && #[trigger] dialog::tells_folders(text::nonblank_lines(name@), errs, r)
                && folders_ended(after, b, r),
        Some(Dialog::NewFile { name }) => exists|err: Option<Seq<char>>| #[trigger]
            dialog::created(before.active().path@, name@, false, on_disk, perform, err)
                && file_ended(after, b, name@, err),
        Some(Dialog::NewUser { name }) => user_ended(after, b, text::trimmed(name@), on_disk),
        Some(Dialog::RenameTab { pane_idx, tab_idx, name }) => tab_renamed(
            after,
            b,
            pane_idx,
            tab_idx,
            name@,
        ),
        _ => after == b,
    }
}

fn refusal_text(e: DbError) -> (r: &'static str)
    ensures
        r@ == refusal(e),
{
    match e {
        DbError::NameTaken => "UNIQUE constraint failed: users.name",
        DbError::Full => "database or disk is full",
    }
}

impl FileManApp {
    fn single_out(&mut self, name: &str, status: String)
        requires
            old(self).wf(),
        ensures
            final(self).wf(),
            singled_out(*final(self), *old(self), name@, status@),
            old(self).synced() ==> final(self).synced(),
    {
        let ap: usize = self.active_pane;
        let t = self.panes[ap].active_tab_mut();
        t.select_only(name);
        self.last_selected_index = None;
        self.status = status;
    }

    fn end_rename(&mut self, p: &str, name: &str, err: Option<String>)
        requires
            old(self).wf(),
        ensures
            final(self).wf(),
            rename_ended(*final(self), *old(self), p@, name@, dialog::error_view(err)),
            old(self).synced() ==> final(self).synced(),
    {
        match err {
            Some(e) => {
                self.status = tell("Rename failed: ", e.as_str());
            },
            None => {
                match parent(p) {
                    Some(up) => self.mark_dir_dirty(up.as_str()),
                    None => {},
                }
                let ghost mid = *self;
                self.single_out(trim(name).as_str(), tell("Renamed to ", name));
                assert(singled_out(*self, mid, text::trimmed(name@), "Renamed to "@ + name@));
            },
        }
    }

    fn end_folders(&mut self, r: NewFolders)
        requires
            old(self).wf(),
        ensures
            final(self).wf(),
            folders_ended(*final(self), *old(self), r),
            old(self).synced() ==> final(self).synced(),
    {
        if r.ok {
            let dir = self.active_tab_dir();
            self.mark_dir_dirty(dir.as_str());
            let ghost mid = *self;
            assert(dir_marked(mid, *old(self), dir@));
            match r.single {
                Some(name) => self.single_out(name.as_str(), r.message),
                None => {
                    self.status = r.message;
                },
            }
        } else {
            self.status = r.message;
        }
    }

    fn end_file(&mut self, name: &str, err: Option<String>)
        requires
            old(self).wf(),
        ensures
            final(self).wf(),
            file_ended(*final(self), *old(self), name@, dialog::error_view(err)),
            old(self).synced() ==> final(self).synced(),
    {
        match err {
            Some(e) => {
                self.status = tell("Create file failed: ", e.as_str());
            },
            None => {
                let dir = self.active_tab_dir();
                self.mark_dir_dirty(dir.as_str());
                let ghost mid = *self;
                assert(dir_marked(mid, *old(self), dir@));
                self.status = tell("Created file ", name);
            },
        }
    }

    fn add_user<F: Fn(&String) -> bool>(&mut self, name: String, on_disk: &F)
        requires
            old(self).wf(),
            user::shows_users(old(self).users@, old(self).db.users@),
            forall|s: &String| call_requires(*on_disk, (s,)),
        ensures
            final(self).wf(),
            user_ended(*final(self), *old(self), name@, *on_disk),
            user::shows_users(final(self).users@, final(self).db.users@),
            old(self).synced() ==> final(self).synced(),
    {
        if name.as_str().unicode_len() == 0 {
            self.status = "User name cannot be empty".to_owned();
            return ;
        }
        match create_user(&mut self.db, name.as_str()) {
            Ok(id) => {
                self.users = list_users(&self.db);
                let ghost mid = *self;
                assert(user_listed(mid, *old(self), id, name@));
                self.switch_user(id, on_disk);
                let ghost end = *self;
                assert(app::switched(end, mid, id, *on_disk));
                self.status = tell("Created user ", name.as_str());
            },
            Err(e) => {
                self.status = tell("Create user failed: ", refusal_text(e));
            },
        }
    }

    fn rename_tab(&mut self, pane_idx: usize, tab_idx: usize, name: &str)
        requires
            old(self).wf(),
        ensures
            final(self).wf(),
            tab_renamed(*final(self), *old(self), pane_idx, tab_idx, name@),
            old(self).synced() ==> final(self).synced(),
    {
        if pane_idx < 2 && tab_idx < self.panes[pane_idx].tabs.len() {
            let n = trim(name);
            let custom = if n.as_str().unicode_len() == 0 {
                None
            } else {
                Some(n)
            };
            self.panes[pane_idx].tabs[tab_idx].custom_name = custom;
            assert(self.panes@[pane_idx as int].wf());
        }
    }

    /// Runs the pending dialog's filesystem action and closes it.
    pub fn commit_dialog<F: Fn(&String) -> bool, P: Fn(&FileStep) -> Option<String>>(
        &mut self,
        on_disk: &F,
        perform: &P,
    )
        requires
            old(self).wf(),
            user::shows_users(old(self).users@, old(self).db.users@),
            forall|s: &String| call_requires(*on_disk, (s,)),
            forall|s: &FileStep| call_requires(*perform, (s,)),
        ensures
            final(self).wf(),
            committed(*final(self), *old(self), *on_disk, *perform),
            old(self).synced() ==> final(self).synced(),
    {
        let taken = self.dialog.take();
        let dir = self.active_tab_dir();
        match taken {
            Some(Dialog::Rename { path: p, name }) => {
                let err = rename(p.as_str(), name.as_str(), on_disk, perform);
                self.end_rename(p.as_str(), name.as_str(), err);
            },
            Some(Dialog::NewFolder { name }) => {
                let r = create_folders(dir.as_str(), name.as_str(), on_disk, perform);
                let ghost told = r;
                let ghost errs = choose|errs: Seq<Option<Seq<char>>>| #[trigger]
                    dialog::all_created(
                        dir@,
                        text::nonblank_lines(name@),
                        *on_disk,
                        *perform,
                        errs,
                    ) && dialog::tells_folders(text::nonblank_lines(name@), errs, told);
                self.end_folders(r);
                assert(dialog::tells_folders(text::nonblank_lines(name@), errs, told));
            },
            Some(Dialog::NewFile { name }) => {
                let err = create_item(dir.as_str(), name.as_str(), false, on_disk, perform);
                self.end_file(name.as_str(), err);
            },
            Some(Dialog::NewUser { name }) => {
                self.add_user(trim(name.as_str()), on_disk);
            },
            Some(Dialog::RenameTab { pane_idx, tab_idx, name }) => {
                self.rename_tab(pane_idx, tab_idx, name.as_str());
            },
            _ => {},
        }
    }
}

} // verus!
