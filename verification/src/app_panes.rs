//! What the user does in a pane: the address bar, the filter, and the listing.

use crate::app::FileManApp;
use crate::app_nav::{Effect, PINNED};
use crate::browse::{
    begin_drag, click_entry, enter_folder, enter_key, move_selection, right_key, typed_path,
    ListingInput, OpenTarget,
};
use crate::fs_entry::{clone_entries, FsEntry};
use crate::pane::Pane;
use crate::path::parent;
use crate::tab::Tab;
use crate::text::str_eq;
use crate::{app, app_files, app_nav, browse, db, path, tab, text};
use vstd::prelude::*;

verus! {

// ---------------------------------------------------------------------------
// Address bar
// ---------------------------------------------------------------------------

/// Pane `p` has become `now`; the other one is as it was.
pub open spec fn only_pane(after: FileManApp, before: FileManApp, p: int, now: Pane) -> bool {
    after.panes@ == before.panes@.update(p, now)
}

/// The address bar of pane `p` reads `shown`, and whether it is being typed in
/// is `typing`.
pub open spec fn address_became(
    after: FileManApp,
    before: FileManApp,
    p: int,
    shown: Seq<char>,
    typing: bool,
) -> bool {
    let now = after.panes@[p];
    &&& only_pane(
        after,
        before,
        p,
        (Pane { address_bar: now.address_bar, address_edit_mode: typing, ..before.panes@[p] }),
    )
    &&& now.address_bar@ == shown
    &&& after == (FileManApp { panes: after.panes, ..before })
}

/// Where a pane's tab went when it was asked to go to `target`, a folder: a
/// pinned tab only says so.
pub open spec fn pane_went(
    after: FileManApp,
    before: FileManApp,
    p: int,
    target: Seq<char>,
    now: Seq<char>,
    active_pane: usize,
) -> bool {
    if before.panes@[p].active().locked {
        app_files::said(after, before, PINNED@)
    } else {
        &&& app_nav::place_changed(
            after.panes@,
            before.panes@,
            p,
            before.panes@[p].active().trail().to(target),
        )
        &&& app_nav::recorded(after, before, target, true, now)
        &&& after.active_pane == active_pane
        &&& after.dirty
        &&& after == (FileManApp {
            panes: after.panes,
            db: after.db,
            recent_items: after.recent_items,
            active_pane: after.active_pane,
            dirty: after.dirty,
            ..before
        })
    }
}

/// What confirming a typed path does, before the address bar stops being
/// edited.
pub open spec fn typed_went<D: Fn(&String) -> bool>(
    after: FileManApp,
    before: FileManApp,
    p: int,
    f: D,
    now: Seq<char>,
) -> bool {
    let target = browse::typed_path_of(before.panes@[p].address_bar@);
    if before.panes@[p].active().locked {
        app_files::said(after, before, PINNED@)
    } else {
        &&& app_nav::place_changed(
            after.panes@,
            before.panes@,
            p,
            before.panes@[p].active().trail().to(target),
        )
        &&& app_nav::visited(after, before, target, f, now)
        &&& after.active_pane == p
        &&& after.dirty
        &&& after == (FileManApp {
            panes: after.panes,
            db: after.db,
            recent_items: after.recent_items,
            active_pane: after.active_pane,
            dirty: after.dirty,
            ..before
        })
    }
}

impl FileManApp {
    /// Shows the folder of the active pane in its address bar, unless the user
    /// is typing there.
    pub fn sync_address_bar(&mut self, pane_idx: usize, focused: Option<usize>)
        requires
            old(self).wf(),
            pane_idx < 2,
        ensures
            final(self).wf(),
            if pane_idx == old(self).active_pane && focused != Some(pane_idx)
                && old(self).panes@[pane_idx as int].address_bar@
                != old(self).panes@[pane_idx as int].active().path@ {
                address_became(
                    *final(self),
                    *old(self),
                    pane_idx as int,
                    old(self).panes@[pane_idx as int].active().path@,
                    old(self).panes@[pane_idx as int].address_edit_mode,
                )
            } else {
                *final(self) == *old(self)
            },
            old(self).synced() ==> final(self).synced(),
    {
        if pane_idx != self.active_pane {
            return ;
        }
        let typing: bool = match focused {
            Some(i) => i == pane_idx,
            None => false,
        };
        if typing {
            return ;
        }
        let dir = self.panes[pane_idx].active_tab().path.clone();
        if !str_eq(self.panes[pane_idx].address_bar.as_str(), dir.as_str()) {
            self.panes[pane_idx].address_bar = dir;
        }
    }

    /// Lets the user type in the address bar of a pane.
    pub fn edit_address(&mut self, pane_idx: usize)
        requires
            old(self).wf(),
            pane_idx < 2,
        ensures
            final(self).wf(),
            address_became(
                *final(self),
                *old(self),
                pane_idx as int,
                old(self).panes@[pane_idx as int].address_bar@,
                true,
            ),
            old(self).synced() ==> final(self).synced(),
    {
        self.panes[pane_idx].address_edit_mode = true;
    }

    /// The address bar has lost the keyboard: with `enter` the tab goes to the
    /// path that was typed, in quotes or not. Whether it exists is not asked
    /// here, as a network path would take long to answer: the listing will
    /// tell.
    pub fn leave_address<D: Fn(&String) -> bool>(
        &mut self,
        pane_idx: usize,
        enter: bool,
        is_dir: &D,
        now: &str,
    )
        requires
            old(self).wf(),
            pane_idx < 2,
            forall|s: &String| call_requires(*is_dir, (s,)),
        ensures
            final(self).wf(),
            exists|mid: FileManApp|
                {
                    &&& #[trigger] address_became(
                        *final(self),
                        mid,
                        pane_idx as int,
                        old(self).panes@[pane_idx as int].address_bar@,
                        false,
                    )
                    &&& if enter {
                        typed_went(mid, *old(self), pane_idx as int, *is_dir, now@)
                    } else {
                        mid == *old(self)
                    }
                },
            old(self).synced() ==> final(self).synced(),
    {
        if enter {
            let target = typed_path(self.panes[pane_idx].address_bar.as_str());
            if self.try_navigate_active(pane_idx, target, is_dir, now) {
                self.active_pane = pane_idx;
                self.dirty = true;
            }
        }
        let ghost mid = *self;
        self.panes[pane_idx].address_edit_mode = false;
        assert(address_became(
            *self,
            mid,
            pane_idx as int,
            old(self).panes@[pane_idx as int].address_bar@,
            false,
        ));
    }

    fn go_in_pane(&mut self, pane_idx: usize, target: String, active_pane: usize, now: &str)
        requires
            old(self).wf(),
            pane_idx < 2,
            active_pane < 2,
        ensures
            final(self).wf(),
            pane_went(*final(self), *old(self), pane_idx as int, target@, now@, active_pane),
            old(self).synced() ==> final(self).synced(),
    {
        if self.panes[pane_idx].active_tab().locked {
            self.status = PINNED.to_owned();
            return ;
        }
        let t = self.panes[pane_idx].active_tab_mut();
        t.navigate_to(target.clone());
        self.active_pane = active_pane;
        self.dirty = true;
        self.record_recent(target.as_str(), true, now);
    }

    /// Goes to a folder of the breadcrumb trail, or to one of the subfolders
    /// that its separators offer. The pane becomes active.
    pub fn follow_crumb(&mut self, pane_idx: usize, target: String, now: &str)
        requires
            old(self).wf(),
            pane_idx < 2,
        ensures
            final(self).wf(),
            pane_went(*final(self), *old(self), pane_idx as int, target@, now@, pane_idx),
            old(self).synced() ==> final(self).synced(),
    {
        self.go_in_pane(pane_idx, target, pane_idx, now)
    }

    /// Goes to the folder above the one that a pane shows.
    pub fn pane_up(&mut self, pane_idx: usize, now: &str)
        requires
            old(self).wf(),
            pane_idx < 2,
        ensures
            final(self).wf(),
            match path::parent_of(old(self).panes@[pane_idx as int].active().path@) {
                Some(up) => pane_went(
                    *final(self),
                    *old(self),
                    pane_idx as int,
                    up,
                    now@,
                    old(self).active_pane,
                ),
                None => *final(self) == *old(self),
            },
            old(self).synced() ==> final(self).synced(),
    {
        let ap: usize = self.active_pane;
        match parent(self.panes[pane_idx].active_tab().path.as_str()) {
            Some(up) => self.go_in_pane(pane_idx, up, ap, now),
            None => {},
        }
    }

    /// Copies the path of the folder that a pane shows.
    pub fn copy_pane_path(&mut self, pane_idx: usize) -> (r: Effect)
        requires
            old(self).wf(),
            pane_idx < 2,
        ensures
            final(self).wf(),
            app_files::said(*final(self), *old(self), "Path copied to clipboard"@),
            app_files::copies_text(r, old(self).panes@[pane_idx as int].active().path@),
            old(self).synced() ==> final(self).synced(),
    {
        self.status = "Path copied to clipboard".to_owned();
        Effect::CopyText(self.panes[pane_idx].active_tab().path.clone())
    }
}

// ---------------------------------------------------------------------------
// Filter and entries
// ---------------------------------------------------------------------------

/// The active tab of pane `p` has become `t`.
pub open spec fn tab_became(after: FileManApp, before: FileManApp, p: int, t: Tab) -> bool {
    let now = after.panes@[p];
    &&& only_pane(after, before, p, now)
    &&& app::active_became(now, before.panes@[p], t)
}

impl FileManApp {
    /// Filters what a pane shows; the selection goes.
    pub fn set_filter(&mut self, pane_idx: usize, filter: String)
        requires
            old(self).wf(),
            pane_idx < 2,
        ensures
            final(self).wf(),
            ({
                let t = final(self).panes@[pane_idx as int].active();
                &&& tab_became(*final(self), *old(self), pane_idx as int, t)
                &&& t == (Tab {
                    filter,
                    selected: t.selected,
                    ..old(self).panes@[pane_idx as int].active()
                })
                &&& t.selected@.len() == 0
            }),
            *final(self) == (FileManApp { panes: final(self).panes, ..*old(self) }),
            old(self).synced() ==> final(self).synced(),
    {
        let t = self.panes[pane_idx].active_tab_mut();
        t.clear_selection();
        t.filter = filter;
    }

    /// Shows everything again; the selection stays.
    pub fn clear_filter(&mut self, pane_idx: usize)
        requires
            old(self).wf(),
            pane_idx < 2,
        ensures
            final(self).wf(),
            ({
                let t = final(self).panes@[pane_idx as int].active();
                &&& tab_became(*final(self), *old(self), pane_idx as int, t)
                &&& t == (Tab { filter: t.filter, ..old(self).panes@[pane_idx as int].active() })
                &&& t.filter@.len() == 0
            }),
            *final(self) == (FileManApp { panes: final(self).panes, ..*old(self) }),
            old(self).synced() ==> final(self).synced(),
    {
        let t = self.panes[pane_idx].active_tab_mut();
        t.filter = String::new();
    }

    /// The entries that a pane shows, or why its folder could not be read.
    pub fn pane_entries(&mut self, pane_idx: usize) -> (r: Result<Vec<FsEntry>, String>)
        requires
            old(self).wf(),
            pane_idx < 2,
        ensures
            final(self).wf(),
            ({
                let was = old(self).panes@[pane_idx as int].active();
                match r {
                    Ok(entries) => {
                        let t = final(self).panes@[pane_idx as int].active();
                        &&& was.listing_error is None
                        &&& entries@ == tab::shown(
                            was.listing@,
                            was.filter@,
                            was.sort_col@,
                            was.sort_asc,
                        )
                        &&& tab_became(*final(self), *old(self), pane_idx as int, t)
                        &&& t == (Tab { display_cache: t.display_cache, ..was })
                        &&& *final(self) == (FileManApp {
                            panes: final(self).panes,
                            ..*old(self)
                        })
                    },
                    Err(e) => was.listing_error == Some(e) && *final(self) == *old(self),
                }
            }),
            old(self).synced() ==> final(self).synced(),
    {
        match &self.panes[pane_idx].active_tab().listing_error {
            Some(e) => {
                return Err(e.clone());
            },
            None => {},
        }
        let t = self.panes[pane_idx].active_tab_mut();
        let filter = t.filter.clone();
        let col = t.sort_col.clone();
        let asc: bool = t.sort_asc;
        Ok(clone_entries(t.display_entries(filter.as_str(), col.as_str(), asc)))
    }
}

// ---------------------------------------------------------------------------
// The listing
// ---------------------------------------------------------------------------

/// The keys that a listing listens to.
#[derive(Debug, Clone, Copy, PartialEq, Eq, Structural)]
pub struct ListingKeys {
    /// No other part of the window has the keyboard.
    pub heard: bool,
    pub shift: bool,
    pub ctrl: bool,
    pub enter: bool,
    pub up: bool,
    pub down: bool,
    pub left: bool,
    pub right: bool,
}

/// What is dragged, and from which folder.
#[derive(Debug, PartialEq)]
pub struct Dragged {
    pub paths: Vec<String>,
    pub from_dir: String,
}

/// A drag of entry `i` may have begun in pane `p`.
pub open spec fn drag_stage(
    after: FileManApp,
    before: FileManApp,
    p: usize,
    entries: Seq<FsEntry>,
    drag: Option<usize>,
    out: Option<Dragged>,
) -> bool {
    match drag {
        Some(i) => {
            let was = before.panes@[p as int].active();
            let t = after.panes@[p as int].active();
            let name = entries[i as int].name@;
            &&& tab_became(after, before, p as int, t)
            &&& t.same_but_selection(was)
            &&& t.selection() == (if was.selection().contains(name) {
                was.selection()
            } else {
                set![name]
            })
            &&& after.last_selected_index is None
            &&& after.active_pane == p
            &&& after == (FileManApp {
                panes: after.panes,
                last_selected_index: after.last_selected_index,
                active_pane: after.active_pane,
                ..before
            })
            &&& (out matches Some(d) && text::texts(d.paths@) == browse::selected_paths_of(t)
                && d.from_dir == t.path)
        },
        None => after == before && out is None,
    }
}

/// Entry `i` of pane `p` may have been clicked.
pub open spec fn select_stage(
    after: FileManApp,
    before: FileManApp,
    p: usize,
    entries: Seq<FsEntry>,
    select: Option<usize>,
    keys: ListingKeys,
) -> bool {
    match select {
        Some(i) => {
            let was = before.panes@[p as int].active();
            let t = after.panes@[p as int].active();
            &&& tab_became(after, before, p as int, t)
            &&& t.same_but_selection(was)
            &&& t.selection() == browse::clicked_selection(
                was.selection(),
                entries,
                i as int,
                keys.shift,
                keys.ctrl,
                before.last_selected_index,
            )
            &&& after.last_selected_index == Some(i)
            &&& after.active_pane == p
            &&& after == (FileManApp {
                panes: after.panes,
                last_selected_index: after.last_selected_index,
                active_pane: after.active_pane,
                ..before
            })
        },
        None => after == before,
    }
}

/// The arrow keys up and down moved the selection of pane `p`, and the key to
/// the left went up a folder.
pub open spec fn arrow_stage(
    after: FileManApp,
    before: FileManApp,
    p: usize,
    entries: Seq<FsEntry>,
    keys: ListingKeys,
    now: Seq<char>,
) -> bool {
    let was = before.panes@[p as int].active();
    let t = after.panes@[p as int].active();
    if !keys.heard || before.active_pane != p || entries.len() == 0 {
        after == before
    } else if keys.down || keys.up {
        let cur = browse::current_place(was, entries);
        let next = browse::place_after(cur, entries.len() as int, keys.down);
        let a = browse::key_anchor(before.last_selected_index, cur, next);
        &&& tab_became(after, before, p as int, t)
        &&& t.same_but_selection(was)
        &&& t.selection() == (if keys.shift {
            browse::names_between(entries, a, next)
        } else {
            set![entries[next].name@]
        })
        &&& after.last_selected_index == Some(
            if keys.shift {
                a as usize
            } else {
                next as usize
            },
        )
        &&& after == (FileManApp {
            panes: after.panes,
            last_selected_index: after.last_selected_index,
            ..before
        })
    } else if keys.left && !was.locked {
        match path::parent_of(was.path@) {
            Some(up) => pane_went(after, before, p as int, up, now, p),
            None => after == before,
        }
    } else {
        after == before
    }
}

/// The folder to enter and the files to open, by mouse or by the Enter and
/// right keys.
pub open spec fn open_choice(
    a: FileManApp,
    p: usize,
    entries: Seq<FsEntry>,
    input: ListingInput,
    keys: ListingKeys,
    folder: Option<String>,
    files: Option<Vec<String>>,
) -> bool {
    let t = a.panes@[p as int].active();
    let listens = keys.heard && a.active_pane == p;
    if input.enter is None && input.open is None && listens && keys.enter {
        exists|r: OpenTarget| #[trigger]
            browse::enter_opens(entries, t.selection(), r) && match r {
                OpenTarget::Enter(d) => folder == Some(d) && files is None,
                OpenTarget::Files(list) => files == Some(list) && right_choice(
                    t,
                    entries,
                    keys,
                    folder,
                ),
                OpenTarget::Nothing => files is None && right_choice(t, entries, keys, folder),
            }
    } else if input.enter is None && listens {
        files == input.open && right_choice(t, entries, keys, folder)
    } else {
        files == input.open && folder == input.enter
    }
}

/// The folder that the right key enters.
pub open spec fn right_choice(
    t: Tab,
    entries: Seq<FsEntry>,
    keys: ListingKeys,
    folder: Option<String>,
) -> bool {
    if keys.right && !keys.down && !keys.up && !keys.left {
        match browse::first_selected(entries, t.selection(), 0) {
            Some(e) => if t.selected@.len() == 1 && e.is_dir {
                folder == Some(e.path)
            } else {
                folder is None
            },
            None => folder is None,
        }
    } else {
        folder is None
    }
}

/// A folder may have been entered in pane `p`.
pub open spec fn enter_stage(
    after: FileManApp,
    before: FileManApp,
    p: usize,
    folder: Option<String>,
    now: Seq<char>,
) -> bool {
    match folder {
        Some(target) => {
            let q = after.panes@[p as int];
            &&& only_pane(after, before, p as int, q)
            &&& browse::entered(
                q,
                before.panes@[p as int],
                target@,
                before.prefs.sort_col@,
                before.prefs.sort_asc,
            )
            &&& app_nav::recorded(after, before, target@, true, now)
            &&& after.active_pane == p
            &&& after.dirty
            &&& after == (FileManApp {
                panes: after.panes,
                db: after.db,
                recent_items: after.recent_items,
                active_pane: after.active_pane,
                dirty: after.dirty,
                ..before
            })
        },
        None => after == before,
    }
}

/// The recent items once `files` were opened one after the other.
pub open spec fn all_accessed(
    s: Seq<(Seq<char>, bool, Seq<char>)>,
    files: Seq<Seq<char>>,
    now: Seq<char>,
) -> Seq<(Seq<char>, bool, Seq<char>)>
    decreases files.len(),
{
    if files.len() == 0 {
        s
    } else {
        db::accessed(all_accessed(s, files.drop_last(), now), files.last(), false, now)
    }
}

/// Files were opened: each has become a recent item, of which the list on screen
/// tells, and has its program started.
pub open spec fn open_stage(
    after: FileManApp,
    before: FileManApp,
    files: Seq<Seq<char>>,
    now: Seq<char>,
    effects: Seq<Effect>,
) -> bool {
    let u = before.current_user_id;
    &&& after.db.same_but_recent(before.db)
    &&& after.db.recent_of(u) == all_accessed(before.db.recent_of(u), files, now)
    &&& forall|v: i64| v != u ==> #[trigger] after.db.recent_of(v) == before.db.recent_of(v)
    &&& if files.len() > 0 {
        db::recent_views(after.recent_items@) == app::kept_recent(after.db.recent_of(u))
    } else {
        after == before
    }
    &&& after == (FileManApp { db: after.db, recent_items: after.recent_items, ..before })
    &&& effects.len() == files.len()
    &&& forall|i: int| 0 <= i < files.len() ==> before.opens_with(files[i], #[trigger] effects[i])
}

/// The files to open, as texts.
pub open spec fn file_texts(files: Option<Vec<String>>) -> Seq<Seq<char>> {
    match files {
        Some(list) => text::texts(list@),
        None => Seq::empty(),
    }
}

/// What a frame of input does to the listing of pane `p`, one stage after the
/// other.
pub open spec fn listing_handled(
    after: FileManApp,
    before: FileManApp,
    p: usize,
    entries: Seq<FsEntry>,
    input: ListingInput,
    keys: ListingKeys,
    now: Seq<char>,
    drag: Option<Dragged>,
    effects: Seq<Effect>,
) -> bool {
    exists|
        s1: FileManApp,
        s2: FileManApp,
        s3: FileManApp,
        s4: FileManApp,
        folder: Option<String>,
        files: Option<Vec<String>>,
    |
        {
            &&& #[trigger] drag_stage(s1, before, p, entries, input.drag, drag)
            &&& #[trigger] select_stage(s2, s1, p, entries, input.select, keys)
            &&& #[trigger] open_choice(s2, p, entries, input, keys, folder, files)
            &&& #[trigger] arrow_stage(s3, s2, p, entries, keys, now)
            &&& #[trigger] enter_stage(s4, s3, p, folder, now)
            &&& open_stage(after, s4, file_texts(files), now, effects)
        }
}

/// The input selects from the entry that was selected last, which has to be in
/// the listing then. A drag forgets that entry.
pub open spec fn extends_a_range(
    a: FileManApp,
    p: usize,
    entries: Seq<FsEntry>,
    input: ListingInput,
    keys: ListingKeys,
) -> bool {
    &&& keys.shift
    &&& input.drag is None
    &&& input.select is Some || (keys.heard && (keys.up || keys.down) && a.active_pane == p
        && entries.len() > 0)
}

/// What is left to do outside after a frame of input in a listing.
#[derive(Debug, PartialEq)]
pub struct ListingOutcome {
    /// A drag that has begun.
    pub drag: Option<Dragged>,
    /// Programs to start.
    pub effects: Vec<Effect>,
}

impl FileManApp {
    fn stage_drag(&mut self, pane_idx: usize, entries: &Vec<FsEntry>, drag: Option<usize>) -> (r:
        Option<Dragged>)
        requires
            old(self).wf(),
            pane_idx < 2,
            drag matches Some(i) ==> i < entries@.len(),
        ensures
            final(self).wf(),
            drag_stage(*final(self), *old(self), pane_idx, entries@, drag, r),
            old(self).synced() ==> final(self).synced(),
    {
        match drag {
            Some(i) => {
                let t = self.panes[pane_idx].active_tab_mut();
                let paths = begin_drag(t, entries[i].name.as_str());
                let from_dir = t.path.clone();
                self.last_selected_index = None;
                self.active_pane = pane_idx;
                Some(Dragged { paths, from_dir })
            },
            None => None,
        }
    }

    fn stage_select(
        &mut self,
        pane_idx: usize,
        entries: &Vec<FsEntry>,
        select: Option<usize>,
        keys: ListingKeys,
    )
        requires
            old(self).wf(),
            pane_idx < 2,
            select matches Some(i) ==> i < entries@.len(),
            select is Some && keys.shift ==> (old(self).last_selected_index matches Some(a) ==> a
                < entries@.len()),
        ensures
            final(self).wf(),
            select_stage(*final(self), *old(self), pane_idx, entries@, select, keys),
            old(self).synced() ==> final(self).synced(),
    {
        match select {
            Some(i) => {
                let anchor = self.last_selected_index;
                let t = self.panes[pane_idx].active_tab_mut();
                let last = click_entry(t, entries, i, keys.shift, keys.ctrl, anchor);
                self.last_selected_index = last;
                self.active_pane = pane_idx;
            },
            None => {},
        }
    }

    fn choose_open(
        &self,
        pane_idx: usize,
        entries: &Vec<FsEntry>,
        enter: Option<String>,
        open: Option<Vec<String>>,
        keys: ListingKeys,
    ) -> (r: (Option<String>, Option<Vec<String>>))
        requires
            self.wf(),
            pane_idx < 2,
        ensures
            forall|input: ListingInput|
                input.enter == enter && input.open == open ==> #[trigger] open_choice(
                    *self,
                    pane_idx,
                    entries@,
                    input,
                    keys,
                    r.0,
                    r.1,
                ),
    {
        let t = self.panes[pane_idx].active_tab();
        let listens: bool = keys.heard && self.active_pane == pane_idx;
        if enter.is_some() || !listens {
            return (enter, open);
        }
        let mut files = open;
        let mut folder: Option<String> = None;
        if files.is_none() && keys.enter {
            let chosen = enter_key(t, entries);
            let ghost r = chosen;
            assert(browse::enter_opens(entries@, t.selection(), r));
            match chosen {
                OpenTarget::Enter(d) => {
                    folder = Some(d);
                },
                OpenTarget::Files(list) => {
                    files = Some(list);
                },
                OpenTarget::Nothing => {},
            }
        }
        if folder.is_none() && keys.right && !keys.down && !keys.up && !keys.left {
            folder = right_key(t, entries);
        }
        (folder, files)
    }

    fn stage_arrows(
        &mut self,
        pane_idx: usize,
        entries: &Vec<FsEntry>,
        keys: ListingKeys,
        now: &str,
    )
        requires
            old(self).wf(),
            pane_idx < 2,
            keys.shift && (keys.up || keys.down) && keys.heard && old(self).active_pane == pane_idx
                && entries@.len() > 0 ==> (old(self).last_selected_index matches Some(a) ==> a
                < entries@.len()),
        ensures
            final(self).wf(),
            arrow_stage(*final(self), *old(self), pane_idx, entries@, keys, now@),
            old(self).synced() ==> final(self).synced(),
    {
        if !keys.heard || self.active_pane != pane_idx || entries.len() == 0 {
            return ;
        }
        if keys.down || keys.up {
            let anchor = self.last_selected_index;
            let t = self.panes[pane_idx].active_tab_mut();
            let last = move_selection(t, entries, keys.down, keys.shift, anchor);
            self.last_selected_index = last;
        } else if keys.left && !self.panes[pane_idx].active_tab().locked {
            match parent(self.panes[pane_idx].active_tab().path.as_str()) {
                Some(up) => self.go_in_pane(pane_idx, up, pane_idx, now),
                None => {},
            }
        }
    }

    fn stage_enter(&mut self, pane_idx: usize, folder: Option<String>, now: &str)
        requires
            old(self).wf(),
            pane_idx < 2,
        ensures
            final(self).wf(),
            enter_stage(*final(self), *old(self), pane_idx, folder, now@),
            old(self).synced() ==> final(self).synced(),
    {
        match folder {
            Some(target) => {
                let shown = target.clone();
                let col = self.prefs.sort_col.clone();
                let asc: bool = self.prefs.sort_asc;
                enter_folder(&mut self.panes[pane_idx], target, col.as_str(), asc);
                self.active_pane = pane_idx;
                self.dirty = true;
                self.record_recent(shown.as_str(), true, now);
            },
            None => {},
        }
    }

    /// Opens files with their programs, and records them as recent.
    pub fn open_files(&mut self, files: &Vec<String>, now: &str) -> (r: Vec<Effect>)
        requires
            old(self).wf(),
        ensures
            final(self).wf(),
            open_stage(*final(self), *old(self), text::texts(files@), now@, r@),
            old(self).synced() ==> final(self).synced(),
    {
        let ghost start = *self;
        let ghost all = text::texts(files@);
        let ghost u = self.current_user_id;
        let mut r: Vec<Effect> = Vec::new();
        let mut i: usize = 0;
        assert(all.subrange(0, 0).len() == 0);
        while i < files.len()
            invariant
                i <= files.len(),
                all == text::texts(files@),
                self.wf(),
                start.synced() ==> self.synced(),
                u == start.current_user_id,
                open_stage(*self, start, all.subrange(0, i as int), now@, r@),
            decreases files.len() - i,
        {
            let ghost upto = all.subrange(0, i + 1);
            let ghost had = r@;
            assert(upto.drop_last() =~= all.subrange(0, i as int));
            assert(upto.last() == files@[i as int]@);
            self.record_recent(files[i].as_str(), false, now);
            let e = self.open_path(files[i].as_str());
            assert(start.opens_with(files@[i as int]@, e));
            r.push(e);
            proof {
                assert forall|k: int| 0 <= k < upto.len() implies start.opens_with(
                    upto[k],
                    #[trigger] r@[k],
                ) by {
                    if k < i {
                        assert(r@[k] == had[k]);
                        assert(upto[k] == all.subrange(0, i as int)[k]);
                    }
                }
            }
            i += 1;
        }
        assert(all.subrange(0, i as int) =~= all);
        r
    }

    /// Takes in a frame of input in the listing of a pane, whose `entries` are
    /// shown.
    pub fn handle_listing(
        &mut self,
        pane_idx: usize,
        entries: &Vec<FsEntry>,
        input: ListingInput,
        keys: ListingKeys,
        now: &str,
    ) -> (r: ListingOutcome)
        requires
            old(self).wf(),
            pane_idx < 2,
            input.drag matches Some(i) ==> i < entries@.len(),
            input.select matches Some(i) ==> i < entries@.len(),
            extends_a_range(*old(self), pane_idx, entries@, input, keys) ==> (
            old(self).last_selected_index matches Some(a) ==> a < entries@.len()),
        ensures
            final(self).wf(),
            listing_handled(
                *final(self),
                *old(self),
                pane_idx,
                entries@,
                input,
                keys,
                now@,
                r.drag,
                r.effects@,
            ),
            old(self).synced() ==> final(self).synced(),
    {
        let ghost given = input;
        let drag = self.stage_drag(pane_idx, entries, input.drag);
        let ghost s1 = *self;
        self.stage_select(pane_idx, entries, input.select, keys);
        let ghost s2 = *self;
        let (folder, files) = self.choose_open(pane_idx, entries, input.enter, input.open, keys);
        assert(open_choice(s2, pane_idx, entries@, given, keys, folder, files));
        self.stage_arrows(pane_idx, entries, keys, now);
        let ghost s3 = *self;
        let ghost target = folder;
        self.stage_enter(pane_idx, folder, now);
        let ghost s4 = *self;
        let ghost opened = files;
        let list: Vec<String> = match files {
            Some(list) => list,
            None => Vec::new(),
        };
        assert(text::texts(list@) =~= file_texts(opened));
        let effects = self.open_files(&list, now);
        assert(enter_stage(s4, s3, pane_idx, target, now@));
        assert(arrow_stage(s3, s2, pane_idx, entries@, keys, now@));
        assert(select_stage(s2, s1, pane_idx, entries@, given.select, keys));
        assert(drag_stage(s1, *old(self), pane_idx, entries@, given.drag, drag));
        ListingOutcome { drag, effects }
    }
}

} // verus!
