//! Going from folder to folder: recent items, favourites, and the active tabs.

use crate::actions::get_ext_override;
use crate::app::FileManApp;
use crate::browse;
use crate::browse::sorted_tab;
use crate::db::{
    add_favourite, add_recent_item, clear_recent_items, get_favourites, get_recent_items,
    is_favourite, remove_favourite, remove_recent_item, RECENT_LIMIT,
};
use crate::dialog::Dialog;
use crate::find::FindDialog;
use crate::fs_entry::clone_entries;
use crate::listing::mark_tabs_dirty;
use crate::pane::Pane;
use crate::path::{extension, parent};
use crate::prefs::{flag_str, store_setting};
use crate::progress::TransferItem;
use crate::subdirs::SubdirCache;
use crate::tab::Tab;
use crate::{app, db, listing, path, prefs, session, subdirs, tab, text};
use vstd::prelude::*;

verus! {

/// What is left to do outside once the state has changed.
#[derive(Debug, PartialEq)]
pub enum Effect {
    Nothing,
    /// Put this text on the system clipboard.
    CopyText(String),
    /// Start a program with these arguments.
    Run { program: String, args: Vec<String> },
    /// Copy or move files in the background.
    Transfer { items: Vec<TransferItem>, dest: String, copy: bool },
    /// Delete these in the background.
    Delete { paths: Vec<String> },
    /// Send these to the recycle bin now, and report the result.
    Trash { paths: Vec<String> },
    /// Unpack an archive into a folder, and report the result.
    Extract { archive: String, dest: String },
    /// Ask the user where to unpack an archive, then unpack it there.
    ExtractTo { archive: String },
    /// Show the properties of a file.
    Properties { path: String },
    /// Run a command of the shell's own menu on files.
    ShellCommand { id: u32, paths: Vec<String> },
}

/// Shown when a pinned tab is asked to go elsewhere.
pub const PINNED: &'static str = "Tab is pinned — unpin it to navigate";

// ---------------------------------------------------------------------------
// Relations between two states
// ---------------------------------------------------------------------------

/// Pane `p`'s active tab went to `trail`; everything else in the panes is as it
/// was.
pub open spec fn place_changed(
    after: Seq<Pane>,
    before: Seq<Pane>,
    p: int,
    trail: tab::Trail,
) -> bool {
    &&& after.len() == before.len()
    &&& forall|i: int| 0 <= i < before.len() && i != p ==> #[trigger] after[i] == before[i]
    &&& app::active_became(after[p], before[p], after[p].active())
    &&& after[p].active().moved(before[p].active(), trail)
}

/// A new tab showing folder `dir` was opened at the end of pane `p`, and is
/// active there.
pub open spec fn tab_opened(
    after: Seq<Pane>,
    before: Seq<Pane>,
    p: int,
    dir: Seq<char>,
    sort_col: Seq<char>,
    sort_asc: bool,
) -> bool {
    &&& after.len() == before.len()
    &&& forall|i: int| 0 <= i < before.len() && i != p ==> #[trigger] after[i] == before[i]
    &&& after[p].tabs@.len() == before[p].tabs@.len() + 1
    &&& after[p].tabs@.drop_last() == before[p].tabs@
    &&& after[p].active_tab == before[p].tabs@.len()
    &&& browse::opened_tab(after[p].active(), dir, sort_col, sort_asc)
    &&& after[p].same_address(before[p])
}

/// `dir` has no known subfolders any more; other folders keep theirs.
pub open spec fn forgotten(after: SubdirCache, before: SubdirCache, dir: Seq<char>) -> bool {
    &&& after.same_but(before, dir)
    &&& forall|q: Seq<char>|
        path::same_path(q, dir) ==> #[trigger] after.state(q) == subdirs::SubdirState::Unknown
}

/// Every tab that shows `dir` has to be read again.
pub open spec fn panes_marked(after: Seq<Pane>, before: Seq<Pane>, dir: Seq<char>) -> bool {
    &&& after.len() == before.len()
    &&& forall|i: int|
        0 <= i < before.len() ==> listing::marked_pane(#[trigger] after[i], before[i], dir)
}

/// `p` was accessed: it is among the recent items, which are shown.
pub open spec fn recorded(
    after: FileManApp,
    before: FileManApp,
    p: Seq<char>,
    is_dir: bool,
    now: Seq<char>,
) -> bool {
    let u = before.current_user_id;
    &&& after.db.same_but_recent(before.db)
    &&& after.db.recent_of(u) == db::accessed(before.db.recent_of(u), p, is_dir, now)
    &&& forall|v: i64| v != u ==> #[trigger] after.db.recent_of(v) == before.db.recent_of(v)
    &&& db::recent_views(after.recent_items@) == app::kept_recent(after.db.recent_of(u))
}

/// `p` was accessed; `f` tells whether it is a folder.
pub open spec fn visited<D: Fn(&String) -> bool>(
    after: FileManApp,
    before: FileManApp,
    p: Seq<char>,
    f: D,
    now: Seq<char>,
) -> bool {
    exists|d: bool| #[trigger]
        session::answered(f, p, d) && recorded(after, before, p, d, now)
}

/// The favourites of the current user are `list`, in the database and on
/// screen.
pub open spec fn favourites_became(
    after: FileManApp,
    before: FileManApp,
    list: Seq<Seq<char>>,
) -> bool {
    let u = before.current_user_id;
    &&& after.db.same_but_favourites(before.db)
    &&& after.db.favourites_of(u) == list
    &&& forall|v: i64|
        v != u ==> #[trigger] after.db.favourites_of(v) == before.db.favourites_of(v)
    &&& text::texts(after.favourites@) == list
}

/// Every tab is sorted by `col`.
pub open spec fn all_sorted(
    after: Seq<Pane>,
    before: Seq<Pane>,
    col: Seq<char>,
    asc: bool,
) -> bool {
    &&& after.len() == before.len()
    &&& forall|i: int|
        0 <= i < before.len() ==> {
            &&& tabs_sorted((#[trigger] after[i]).tabs@, before[i].tabs@, col, asc)
            &&& after[i].active_tab == before[i].active_tab
            &&& after[i].same_address(before[i])
        }
}

/// The tabs `after` are the tabs `before`, sorted by `col`.
pub open spec fn tabs_sorted(after: Seq<Tab>, before: Seq<Tab>, col: Seq<char>, asc: bool) -> bool {
    &&& after.len() == before.len()
    &&& forall|j: int|
        0 <= j < before.len() ==> {
            &&& (#[trigger] after[j]).sort_col@ == col
            &&& after[j] == (Tab { sort_col: after[j].sort_col, sort_asc: asc, ..before[j] })
        }
}

fn sort_pane(pane: &mut Pane, col: &str, asc: bool)
    requires
        old(pane).wf(),
    ensures
        final(pane).wf(),
        tabs_sorted(final(pane).tabs@, old(pane).tabs@, col@, asc),
        final(pane).active_tab == old(pane).active_tab,
        final(pane).same_address(*old(pane)),
{
    let ghost before = *pane;
    let mut j: usize = 0;
    while j < pane.tabs.len()
        invariant
            j <= pane.tabs.len(),
            before.wf(),
            pane.wf(),
            pane.tabs@.len() == before.tabs@.len(),
            pane.active_tab == before.active_tab,
            pane.same_address(before),
            tabs_sorted(
                pane.tabs@.subrange(0, j as int),
                before.tabs@.subrange(0, j as int),
                col@,
                asc,
            ),
            forall|k: int| j <= k < pane.tabs@.len() ==> pane.tabs@[k] == before.tabs@[k],
        decreases pane.tabs.len() - j,
    {
        let ghost done = pane.tabs@.subrange(0, j as int);
        pane.tabs[j].sort_col = col.to_owned();
        pane.tabs[j].sort_asc = asc;
        proof {
            let now = pane.tabs@.subrange(0, j + 1);
            let was = before.tabs@.subrange(0, j + 1);
            assert forall|k: int| 0 <= k < now.len() implies {
                &&& (#[trigger] now[k]).sort_col@ == col@
                &&& now[k] == (Tab { sort_col: now[k].sort_col, sort_asc: asc, ..was[k] })
            } by {
                if k < j {
                    assert(now[k] == done[k]);
                    assert(was[k] == before.tabs@.subrange(0, j as int)[k]);
                }
            }
        }
        j += 1;
    }
    assert(pane.tabs@.subrange(0, j as int) =~= pane.tabs@);
    assert(before.tabs@.subrange(0, j as int) =~= before.tabs@);
}

impl FileManApp {
    /// The folder that the active tab shows.
    pub fn active_tab_dir(&self) -> (r: String)
        requires
            self.wf(),
        ensures
            r == self.active().path,
    {
        self.panes[self.active_pane].active_tab().path.clone()
    }

    /// Marks every tab (in both panes) whose path equals `dir` as needing a
    /// fresh listing. Called after any operation that mutates a directory's
    /// contents so the UI picks up the change without a manual refresh.
    pub fn mark_dir_dirty(&mut self, dir: &str)
        requires
            old(self).wf(),
        ensures
            final(self).wf(),
            panes_marked(final(self).panes@, old(self).panes@, dir@),
            forgotten(final(self).subdirs, old(self).subdirs, dir@),
            *final(self) == (FileManApp {
                panes: final(self).panes,
                subdirs: final(self).subdirs,
                ..*old(self)
            }),
    {
        mark_tabs_dirty(&mut self.panes[0], dir);
        mark_tabs_dirty(&mut self.panes[1], dir);
        self.subdirs.forget(dir);
    }

    /// The program that opens `p` is started by `effect`: the one that the user
    /// has pinned for its extension, or the default one.
    pub open spec fn opens_with(self, p: Seq<char>, effect: Effect) -> bool {
        let u = Some(self.current_user_id);
        let pinned = match path::extension_of(p) {
            Some(e) => if self.db.ext_overrides@.contains_key((u, text::lowercase(e))) {
                Some(self.db.ext_overrides@[(u, text::lowercase(e))])
            } else {
                None
            },
            None => None,
        };
        effect matches Effect::Run { program, args } && match pinned {
            Some(exe) => program@ == exe && text::texts(args@) == seq![p],
            None => program@ == "cmd"@ && text::texts(args@) == seq!["/C"@, "start"@, ""@, p],
        }
    }

    /// The program that opens `p`: the user's pinned per-extension override if
    /// one exists (Settings > File Types), otherwise the Windows default app.
    pub fn open_path(&self, p: &str) -> (r: Effect)
        requires
            self.wf(),
        ensures
            self.opens_with(p@, r),
    {
        let pinned = match extension(p) {
            Some(e) => get_ext_override(&self.db, self.current_user_id, e.as_str()),
            None => None,
        };
        let mut args: Vec<String> = Vec::new();
        match pinned {
            Some(exe) => {
                args.push(p.to_owned());
                assert(text::texts(args@) =~= seq![p@]);
                Effect::Run { program: exe, args }
            },
            None => {
                args.push("/C".to_owned());
                args.push("start".to_owned());
                args.push("".to_owned());
                args.push(p.to_owned());
                assert(text::texts(args@) =~= seq!["/C"@, "start"@, ""@, p@]);
                Effect::Run { program: "cmd".to_owned(), args }
            },
        }
    }

    /// Records a file or folder as recently accessed.
    pub fn record_recent(&mut self, p: &str, is_dir: bool, now: &str)
        requires
            old(self).wf(),
        ensures
            final(self).wf(),
            recorded(*final(self), *old(self), p@, is_dir, now@),
            *final(self) == (FileManApp {
                db: final(self).db,
                recent_items: final(self).recent_items,
                ..*old(self)
            }),
            old(self).synced() ==> final(self).synced(),
    {
        add_recent_item(&mut self.db, self.current_user_id, p, is_dir, now);
        self.recent_items = get_recent_items(&self.db, self.current_user_id, RECENT_LIMIT);
    }

    /// Records `p`, which may be a folder or a file.
    pub fn visit<D: Fn(&String) -> bool>(&mut self, p: &String, is_dir: &D, now: &str)
        requires
            old(self).wf(),
            forall|s: &String| call_requires(*is_dir, (s,)),
        ensures
            final(self).wf(),
            visited(*final(self), *old(self), p@, *is_dir, now@),
            *final(self) == (FileManApp {
                db: final(self).db,
                recent_items: final(self).recent_items,
                ..*old(self)
            }),
            old(self).synced() ==> final(self).synced(),
    {
        let d: bool = is_dir(p);
        assert(session::answered(*is_dir, p@, d));
        self.record_recent(p.as_str(), d, now);
    }

    /// Removes a single item from the recent list.
    pub fn remove_recent(&mut self, p: &str)
        requires
            old(self).wf(),
        ensures
            final(self).wf(),
            ({
                let u = old(self).current_user_id;
                &&& final(self).db.same_but_recent(old(self).db)
                &&& final(self).db.recent_of(u) == db::without_path(old(self).db.recent_of(u), p@)
                &&& forall|v: i64|
                    v != u ==> #[trigger] final(self).db.recent_of(v) == old(self).db.recent_of(v)
                &&& db::recent_views(final(self).recent_items@) == app::kept_recent(
                    final(self).db.recent_of(u),
                )
            }),
            *final(self) == (FileManApp {
                db: final(self).db,
                recent_items: final(self).recent_items,
                ..*old(self)
            }),
            old(self).synced() ==> final(self).synced(),
    {
        remove_recent_item(&mut self.db, self.current_user_id, p);
        self.recent_items = get_recent_items(&self.db, self.current_user_id, RECENT_LIMIT);
    }

    /// Clears all recent items.
    pub fn clear_recent(&mut self)
        requires
            old(self).wf(),
        ensures
            final(self).wf(),
            final(self).db.same_but_recent(old(self).db),
            final(self).db.recent_of(old(self).current_user_id).len() == 0,
            forall|v: i64|
                v != old(self).current_user_id ==> #[trigger] final(self).db.recent_of(v) == old(
                    self,
                ).db.recent_of(v),
            final(self).recent_items@.len() == 0,
            final(self).status@ == "Recent history cleared"@,
            *final(self) == (FileManApp {
                db: final(self).db,
                recent_items: final(self).recent_items,
                status: final(self).status,
                ..*old(self)
            }),
            old(self).synced() ==> final(self).synced(),
    {
        clear_recent_items(&mut self.db, self.current_user_id);
        self.recent_items = Vec::new();
        self.status = "Recent history cleared".to_owned();
        assert(db::recent_views(self.recent_items@) =~= self.db.recent_of(self.current_user_id));
    }

    /// Adds a folder to the favourites.
    pub fn add_favourite(&mut self, p: &str)
        requires
            old(self).wf(),
        ensures
            final(self).wf(),
            favourites_became(
                *final(self),
                *old(self),
                db::with_favourite(old(self).db.favourites_of(old(self).current_user_id), p@),
            ),
            final(self).status@ == "Added to favourites: "@ + p@,
            *final(self) == (FileManApp {
                db: final(self).db,
                favourites: final(self).favourites,
                status: final(self).status,
                ..*old(self)
            }),
            old(self).synced() ==> final(self).synced(),
    {
        add_favourite(&mut self.db, self.current_user_id, p);
        self.favourites = get_favourites(&self.db, self.current_user_id);
        let mut s = "Added to favourites: ".to_owned();
        s.append(p);
        self.status = s;
    }

    /// Removes a path from favourites.
    pub fn remove_favourite(&mut self, p: &str)
        requires
            old(self).wf(),
        ensures
            final(self).wf(),
            favourites_became(
                *final(self),
                *old(self),
                db::without_favourite(old(self).db.favourites_of(old(self).current_user_id), p@),
            ),
            final(self).status@ == "Removed from favourites"@,
            *final(self) == (FileManApp {
                db: final(self).db,
                favourites: final(self).favourites,
                status: final(self).status,
                ..*old(self)
            }),
            old(self).synced() ==> final(self).synced(),
    {
        remove_favourite(&mut self.db, self.current_user_id, p);
        self.favourites = get_favourites(&self.db, self.current_user_id);
        self.status = "Removed from favourites".to_owned();
    }

    /// The favourites once a folder's star was clicked.
    pub open spec fn favourites_toggled(self, p: Seq<char>) -> Seq<Seq<char>> {
        let list = self.db.favourites_of(self.current_user_id);
        if list.contains(p) {
            db::without_favourite(list, p)
        } else {
            db::with_favourite(list, p)
        }
    }

    /// What is said once a folder's star was clicked.
    pub open spec fn toggle_status(self, p: Seq<char>) -> Seq<char> {
        if self.db.favourites_of(self.current_user_id).contains(p) {
            "Removed from favourites"@
        } else {
            "Added to favourites: "@ + p
        }
    }

    /// Adds/removes a folder from favourites, as its star does.
    pub fn toggle_favourite(&mut self, p: &str)
        requires
            old(self).wf(),
        ensures
            final(self).wf(),
            favourites_became(*final(self), *old(self), old(self).favourites_toggled(p@)),
            final(self).status@ == old(self).toggle_status(p@),
            *final(self) == (FileManApp {
                db: final(self).db,
                favourites: final(self).favourites,
                status: final(self).status,
                ..*old(self)
            }),
            old(self).synced() ==> final(self).synced(),
    {
        if is_favourite(&self.db, self.current_user_id, p) {
            self.remove_favourite(p);
        } else {
            self.add_favourite(p);
        }
    }

    /// Adds/removes the current active folder from favourites, matching the
    /// star-icon toggle button's behavior.
    pub fn toggle_favourite_current(&mut self)
        requires
            old(self).wf(),
        ensures
            final(self).wf(),
            favourites_became(
                *final(self),
                *old(self),
                old(self).favourites_toggled(old(self).active().path@),
            ),
            final(self).status@ == old(self).toggle_status(old(self).active().path@),
            *final(self) == (FileManApp {
                db: final(self).db,
                favourites: final(self).favourites,
                status: final(self).status,
                ..*old(self)
            }),
            old(self).synced() ==> final(self).synced(),
    {
        let dir = self.active_tab_dir();
        self.toggle_favourite(dir.as_str());
    }

    /// Opens a new tab on `pane_idx` seeded with the user's universal default
    /// sorting rather than the built-in name-ascending fallback.
    pub fn open_tab_with_default_sort<D: Fn(&String) -> bool>(
        &mut self,
        pane_idx: usize,
        p: String,
        is_dir: &D,
        now: &str,
    )
        requires
            old(self).wf(),
            pane_idx < 2,
            forall|s: &String| call_requires(*is_dir, (s,)),
        ensures
            final(self).wf(),
            tab_opened(
                final(self).panes@,
                old(self).panes@,
                pane_idx as int,
                p@,
                old(self).prefs.sort_col@,
                old(self).prefs.sort_asc,
            ),
            visited(*final(self), *old(self), p@, *is_dir, now@),
            *final(self) == (FileManApp {
                panes: final(self).panes,
                db: final(self).db,
                recent_items: final(self).recent_items,
                ..*old(self)
            }),
            old(self).synced() ==> final(self).synced(),
    {
        let t = sorted_tab(p.clone(), self.prefs.sort_col.as_str(), self.prefs.sort_asc);
        let ghost before = self.panes@[pane_idx as int];
        self.panes[pane_idx].tabs.push(t);
        self.panes[pane_idx].active_tab = self.panes[pane_idx].tabs.len() - 1;
        assert(self.panes@[pane_idx as int].tabs@.drop_last() =~= before.tabs@);
        assert(self.panes@[pane_idx as int].wf());
        self.visit(&p, is_dir, now);
    }

    /// Applies `col`/`asc` to every open tab in both panes and stores them as
    /// the user's universal default that all future tabs start with.
    pub fn apply_sort_everywhere(&mut self, col: &str, asc: bool)
        requires
            old(self).wf(),
        ensures
            final(self).wf(),
            all_sorted(final(self).panes@, old(self).panes@, col@, asc),
            final(self).prefs.sort_col@ == col@,
            final(self).prefs == (prefs::Preferences {
                sort_col: final(self).prefs.sort_col,
                sort_asc: asc,
                ..old(self).prefs
            }),
            final(self).db.same_but_settings(old(self).db),
            final(self).db.settings@ == old(self).db.settings@.insert(
                (Some(old(self).current_user_id), "sort_col"@),
                col@,
            ).insert((Some(old(self).current_user_id), "sort_asc"@), prefs::flag_text(asc)),
            *final(self) == (FileManApp {
                panes: final(self).panes,
                db: final(self).db,
                prefs: final(self).prefs,
                ..*old(self)
            }),
            old(self).synced() ==> final(self).synced(),
    {
        sort_pane(&mut self.panes[0], col, asc);
        sort_pane(&mut self.panes[1], col, asc);
        self.prefs.sort_col = col.to_owned();
        self.prefs.sort_asc = asc;
        store_setting(&mut self.db, self.current_user_id, "sort_col", col);
        store_setting(&mut self.db, self.current_user_id, "sort_asc", flag_str(asc));
    }

    /// Navigates the active tab of `pane_idx`, refusing (with a status-bar
    /// hint) when that tab is pinned.
    pub fn try_navigate_active<D: Fn(&String) -> bool>(
        &mut self,
        pane_idx: usize,
        p: String,
        is_dir: &D,
        now: &str,
    ) -> (r: bool)
        requires
            old(self).wf(),
            pane_idx < 2,
            forall|s: &String| call_requires(*is_dir, (s,)),
        ensures
            final(self).wf(),
            r == !old(self).panes@[pane_idx as int].active().locked,
            !r ==> final(self).status@ == PINNED@ && *final(self) == (FileManApp {
                status: final(self).status,
                ..*old(self)
            }),
            r ==> {
                &&& place_changed(
                    final(self).panes@,
                    old(self).panes@,
                    pane_idx as int,
                    old(self).panes@[pane_idx as int].active().trail().to(p@),
                )
                &&& visited(*final(self), *old(self), p@, *is_dir, now@)
                &&& *final(self) == (FileManApp {
                    panes: final(self).panes,
                    db: final(self).db,
                    recent_items: final(self).recent_items,
                    ..*old(self)
                })
            },
            old(self).synced() ==> final(self).synced(),
    {
        if self.panes[pane_idx].active_tab().locked {
            self.status = PINNED.to_owned();
            return false;
        }
        let t = self.panes[pane_idx].active_tab_mut();
        t.navigate_to(p.clone());
        self.visit(&p, is_dir, now);
        true
    }
}

// ---------------------------------------------------------------------------
// The actions that move about
// ---------------------------------------------------------------------------

/// What the back and forward actions do in pane `p`: nothing while there is
/// nowhere to go (`can` is false), and on a pinned tab they only say so.
pub open spec fn stepped<D: Fn(&String) -> bool>(
    after: FileManApp,
    before: FileManApp,
    p: int,
    can: bool,
    trail: tab::Trail,
    f: D,
    now: Seq<char>,
) -> bool {
    if before.panes@[p].active().locked {
        after.status@ == PINNED@ && after == (FileManApp { status: after.status, ..before })
    } else if can {
        &&& place_changed(after.panes@, before.panes@, p, trail)
        &&& visited(after, before, trail.path, f, now)
        &&& after.dirty
        &&& after == (FileManApp {
            panes: after.panes,
            db: after.db,
            recent_items: after.recent_items,
            dirty: after.dirty,
            ..before
        })
    } else {
        after == before
    }
}

/// What going to folder `target` does in the active pane.
pub open spec fn went<D: Fn(&String) -> bool>(
    after: FileManApp,
    before: FileManApp,
    target: Seq<char>,
    f: D,
    now: Seq<char>,
) -> bool {
    stepped(
        after,
        before,
        before.active_pane as int,
        true,
        before.active().trail().to(target),
        f,
        now,
    )
}

/// What the up action does.
pub open spec fn went_up<D: Fn(&String) -> bool>(
    after: FileManApp,
    before: FileManApp,
    f: D,
    now: Seq<char>,
) -> bool {
    match path::parent_of(before.active().path@) {
        Some(up) => went(after, before, up, f, now),
        None => after == before,
    }
}

/// What the new-tab action does: another tab on the same folder.
pub open spec fn added_tab<D: Fn(&String) -> bool>(
    after: FileManApp,
    before: FileManApp,
    dir: Seq<char>,
    p: int,
    f: D,
    now: Seq<char>,
) -> bool {
    &&& tab_opened(
        after.panes@,
        before.panes@,
        p,
        dir,
        before.prefs.sort_col@,
        before.prefs.sort_asc,
    )
    &&& visited(after, before, dir, f, now)
    &&& after.dirty
    &&& after == (FileManApp {
        panes: after.panes,
        db: after.db,
        recent_items: after.recent_items,
        dirty: after.dirty,
        ..before
    })
}

/// What closing tab `index` of pane `p` does: the last tab of a pane and pinned
/// tabs stay.
pub open spec fn closed_tab(after: FileManApp, before: FileManApp, p: int, index: int) -> bool {
    let was = before.panes@[p];
    let now = after.panes@[p];
    &&& after.panes@.len() == before.panes@.len()
    &&& forall|i: int|
        0 <= i < before.panes@.len() && i != p ==> #[trigger] after.panes@[i] == before.panes@[i]
    &&& if was.tabs@.len() <= 1 || index >= was.tabs@.len() || was.tabs@[index].locked {
        now == was
    } else {
        &&& now.tabs@ == was.tabs@.remove(index)
        &&& now.active_tab == crate::pane::active_after_close(
            was.active_tab as int,
            index,
            was.tabs@.len() as int,
        )
        &&& now.same_address(was)
    }
    &&& after.dirty
    &&& after == (FileManApp { panes: after.panes, dirty: after.dirty, ..before })
}

/// What the refresh action does.
pub open spec fn refreshed(after: FileManApp, before: FileManApp) -> bool {
    &&& after.active_is_now(before, (Tab { listing_dirty: true, ..before.active() }))
    &&& forgotten(after.subdirs, before.subdirs, before.active().path@)
    &&& after == (FileManApp { panes: after.panes, subdirs: after.subdirs, ..before })
}

/// A dialog was opened.
pub open spec fn asked(after: FileManApp, before: FileManApp) -> bool {
    &&& after.dialog is Some
    &&& after.dialog_just_opened
    &&& after == (FileManApp {
        dialog: after.dialog,
        dialog_just_opened: after.dialog_just_opened,
        ..before
    })
}

/// The entries that the active tab shows.
pub open spec fn in_view(a: FileManApp) -> Seq<crate::fs_entry::FsEntry> {
    let t = a.active();
    tab::shown(t.listing@, t.filter@, t.sort_col@, t.sort_asc)
}

/// What the select-all action does: every entry in view joins the selection.
pub open spec fn selected_all(after: FileManApp, before: FileManApp) -> bool {
    let entries = in_view(before);
    let t = after.active();
    &&& after.active_is_now(before, t)
    &&& t == (Tab { display_cache: t.display_cache, selected: t.selected, ..before.active() })
    &&& if entries.len() == 0 {
        &&& t.selected == before.active().selected
        &&& after == (FileManApp { panes: after.panes, ..before })
    } else {
        &&& t.selection() == before.active().selection().union(
            browse::names_between(entries, 0, entries.len() - 1),
        )
        &&& after.last_selected_index == Some((entries.len() - 1) as usize)
        &&& after.dirty
        &&& after == (FileManApp {
            panes: after.panes,
            last_selected_index: after.last_selected_index,
            dirty: after.dirty,
            ..before
        })
    }
}

impl FileManApp {
    /// Goes back to the folder that the active tab of a pane came from.
    pub fn go_back<D: Fn(&String) -> bool>(&mut self, pane_idx: usize, is_dir: &D, now: &str)
        requires
            old(self).wf(),
            pane_idx < 2,
            forall|s: &String| call_requires(*is_dir, (s,)),
        ensures
            final(self).wf(),
            stepped(
                *final(self),
                *old(self),
                pane_idx as int,
                old(self).panes@[pane_idx as int].active().history_back@.len() > 0,
                old(self).panes@[pane_idx as int].active().trail().backward(),
                *is_dir,
                now@,
            ),
            old(self).synced() ==> final(self).synced(),
    {
        if self.panes[pane_idx].active_tab().locked {
            self.status = PINNED.to_owned();
            return ;
        }
        if self.panes[pane_idx].active_tab().history_back.len() == 0 {
            return ;
        }
        let t = self.panes[pane_idx].active_tab_mut();
        t.go_back();
        let p = self.panes[pane_idx].active_tab().path.clone();
        self.visit(&p, is_dir, now);
        self.dirty = true;
    }

    /// Goes forward again in a pane after going back.
    pub fn go_forward<D: Fn(&String) -> bool>(&mut self, pane_idx: usize, is_dir: &D, now: &str)
        requires
            old(self).wf(),
            pane_idx < 2,
            forall|s: &String| call_requires(*is_dir, (s,)),
        ensures
            final(self).wf(),
            stepped(
                *final(self),
                *old(self),
                pane_idx as int,
                old(self).panes@[pane_idx as int].active().history_forward@.len() > 0,
                old(self).panes@[pane_idx as int].active().trail().onward(),
                *is_dir,
                now@,
            ),
            old(self).synced() ==> final(self).synced(),
    {
        if self.panes[pane_idx].active_tab().locked {
            self.status = PINNED.to_owned();
            return ;
        }
        if self.panes[pane_idx].active_tab().history_forward.len() == 0 {
            return ;
        }
        let t = self.panes[pane_idx].active_tab_mut();
        t.go_forward();
        let p = self.panes[pane_idx].active_tab().path.clone();
        self.visit(&p, is_dir, now);
        self.dirty = true;
    }

    /// Goes to a folder in the active pane.
    pub fn go_to<D: Fn(&String) -> bool>(&mut self, target: String, is_dir: &D, now: &str)
        requires
            old(self).wf(),
            forall|s: &String| call_requires(*is_dir, (s,)),
        ensures
            final(self).wf(),
            went(*final(self), *old(self), target@, *is_dir, now@),
            old(self).synced() ==> final(self).synced(),
    {
        let ap: usize = self.active_pane;
        if self.try_navigate_active(ap, target, is_dir, now) {
            self.dirty = true;
        }
    }

    /// Goes to the folder that holds the active one.
    pub fn go_up<D: Fn(&String) -> bool>(&mut self, is_dir: &D, now: &str)
        requires
            old(self).wf(),
            forall|s: &String| call_requires(*is_dir, (s,)),
        ensures
            final(self).wf(),
            went_up(*final(self), *old(self), *is_dir, now@),
            old(self).synced() ==> final(self).synced(),
    {
        let dir = self.active_tab_dir();
        match parent(dir.as_str()) {
            Some(up) => self.go_to(up, is_dir, now),
            None => {},
        }
    }

    /// Opens a folder in a new tab of a pane.
    pub fn new_tab<D: Fn(&String) -> bool>(
        &mut self,
        pane_idx: usize,
        dir: String,
        is_dir: &D,
        now: &str,
    )
        requires
            old(self).wf(),
            pane_idx < 2,
            forall|s: &String| call_requires(*is_dir, (s,)),
        ensures
            final(self).wf(),
            added_tab(*final(self), *old(self), dir@, pane_idx as int, *is_dir, now@),
            old(self).synced() ==> final(self).synced(),
    {
        self.open_tab_with_default_sort(pane_idx, dir, is_dir, now);
        self.dirty = true;
    }

    /// Closes the active tab.
    pub fn close_active_tab(&mut self)
        requires
            old(self).wf(),
        ensures
            final(self).wf(),
            closed_tab(
                *final(self),
                *old(self),
                old(self).active_pane as int,
                old(self).panes@[old(self).active_pane as int].active_tab as int,
            ),
            old(self).synced() ==> final(self).synced(),
    {
        let ap: usize = self.active_pane;
        let index: usize = self.panes[ap].active_tab;
        self.panes[ap].close_tab(index);
        self.dirty = true;
    }

    /// Has the active folder read again.
    pub fn refresh(&mut self)
        requires
            old(self).wf(),
        ensures
            final(self).wf(),
            refreshed(*final(self), *old(self)),
            old(self).synced() ==> final(self).synced(),
    {
        let dir = self.active_tab_dir();
        let ap: usize = self.active_pane;
        let t = self.panes[ap].active_tab_mut();
        t.listing_dirty = true;
        self.subdirs.forget(dir.as_str());
    }

    /// Opens the find dialog on the active folder.
    pub fn begin_find(&mut self)
        requires
            old(self).wf(),
        ensures
            final(self).wf(),
            asked(*final(self), *old(self)),
            final(self).dialog matches Some(Dialog::Find(d)) && d.is_new(old(self).active().path@),
            old(self).synced() ==> final(self).synced(),
    {
        let dir = self.active_tab_dir();
        self.dialog_just_opened = true;
        self.dialog = Some(Dialog::Find(FindDialog::new(dir)));
    }

    /// Ctrl+A: selects every entry currently visible in the active pane's
    /// listing (respecting the tab's name filter), like Explorer.
    pub fn select_all_in_view(&mut self)
        requires
            old(self).wf(),
        ensures
            final(self).wf(),
            selected_all(*final(self), *old(self)),
            old(self).synced() ==> final(self).synced(),
    {
        let ap: usize = self.active_pane;
        let t = self.panes[ap].active_tab_mut();
        let filter = t.filter.clone();
        let col = t.sort_col.clone();
        let asc: bool = t.sort_asc;
        let entries = clone_entries(t.display_entries(filter.as_str(), col.as_str(), asc));
        let last = browse::select_all_in_view(t, &entries);
        if last.is_some() {
            self.last_selected_index = last;
            self.dirty = true;
        }
    }
}

} // verus!
