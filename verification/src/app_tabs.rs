//! The tab strips: clicks, the tab menu, reordering by dragging, and sorting.

use crate::app::{FileManApp, TabReorderDrag};
use crate::app_files::tell;
use crate::dialog::Dialog;
use crate::pane::Pane;
use crate::prefs::{next_sort, sort_col_label};
use crate::tab::Tab;
use crate::text::{str_eq, usize_to_string};
use crate::{app, app_files, app_nav, prefs, text};
use vstd::prelude::*;

verus! {

/// Shown when the close button of a pinned tab is clicked.
pub const PINNED_CLOSE: &'static str =
    "Tab is pinned — unpin it before closing (right-click the tab)";

// ---------------------------------------------------------------------------
// Clicks
// ---------------------------------------------------------------------------

/// Pane `p` has become `now`, and nothing else has changed but for `dirty`.
pub open spec fn pane_changed(
    after: FileManApp,
    before: FileManApp,
    p: int,
    now: Pane,
    dirty: bool,
) -> bool {
    &&& after.panes@ == before.panes@.update(p, now)
    &&& after.dirty == dirty
    &&& after == (FileManApp { panes: after.panes, dirty: after.dirty, ..before })
}

impl FileManApp {
    /// Makes a pane the active one.
    pub fn focus_pane(&mut self, pane_idx: usize)
        requires
            old(self).wf(),
            pane_idx < 2,
        ensures
            final(self).wf(),
            *final(self) == (FileManApp { active_pane: pane_idx, dirty: true, ..*old(self) }),
            old(self).synced() ==> final(self).synced(),
    {
        self.active_pane = pane_idx;
        self.dirty = true;
    }

    /// Shows another tab of a pane.
    pub fn click_tab(&mut self, pane_idx: usize, tab_idx: usize)
        requires
            old(self).wf(),
            pane_idx < 2,
            tab_idx < old(self).panes@[pane_idx as int].tabs@.len(),
        ensures
            final(self).wf(),
            pane_changed(
                *final(self),
                *old(self),
                pane_idx as int,
                (Pane { active_tab: tab_idx, ..old(self).panes@[pane_idx as int] }),
                old(self).dirty,
            ),
            old(self).synced() ==> final(self).synced(),
    {
        self.panes[pane_idx].active_tab = tab_idx;
    }

    /// Closes a tab by its close button, but for a pinned one.
    pub fn click_close(&mut self, pane_idx: usize, tab_idx: usize)
        requires
            old(self).wf(),
            pane_idx < 2,
            tab_idx < old(self).panes@[pane_idx as int].tabs@.len(),
        ensures
            final(self).wf(),
            if old(self).panes@[pane_idx as int].tabs@[tab_idx as int].locked {
                app_files::said(*final(self), *old(self), PINNED_CLOSE@)
            } else {
                app_nav::closed_tab(*final(self), *old(self), pane_idx as int, tab_idx as int)
            },
            old(self).synced() ==> final(self).synced(),
    {
        if self.panes[pane_idx].tabs[tab_idx].locked {
            self.status = PINNED_CLOSE.to_owned();
        } else {
            self.panes[pane_idx].close_tab(tab_idx);
            self.dirty = true;
        }
    }

    /// Opens another tab on the folder that a pane shows.
    pub fn click_new_tab<D: Fn(&String) -> bool>(
        &mut self,
        pane_idx: usize,
        is_dir: &D,
        now: &str,
    )
        requires
            old(self).wf(),
            pane_idx < 2,
            forall|s: &String| call_requires(*is_dir, (s,)),
        ensures
            final(self).wf(),
            app_nav::added_tab(
                *final(self),
                *old(self),
                old(self).panes@[pane_idx as int].active().path@,
                pane_idx as int,
                *is_dir,
                now@,
            ),
            old(self).synced() ==> final(self).synced(),
    {
        let dir = self.panes[pane_idx].active_tab().path.clone();
        self.new_tab(pane_idx, dir, is_dir, now);
    }

    /// Opens the menu of a tab.
    pub fn open_tab_menu(&mut self, pane_idx: usize, tab_idx: usize)
        requires
            old(self).wf(),
        ensures
            final(self).wf(),
            app_nav::asked(*final(self), *old(self)),
            final(self).dialog == Some(Dialog::TabContext { pane_idx, tab_idx }),
            old(self).synced() ==> final(self).synced(),
    {
        self.dialog_just_opened = true;
        self.dialog = Some(Dialog::TabContext { pane_idx, tab_idx });
    }
}

// ---------------------------------------------------------------------------
// Tab menu
// ---------------------------------------------------------------------------

/// What was chosen from a tab's menu.
#[derive(Debug, Clone, Copy, PartialEq, Eq, Structural)]
pub enum TabChoice {
    /// Nothing yet: the menu stays.
    Pending,
    Dismiss,
    Duplicate,
    MoveToOtherPane,
    Close,
    TogglePin,
    Rename,
}

/// The menu's tab exists.
pub open spec fn tab_exists(a: FileManApp, p: usize, t: usize) -> bool {
    p < 2 && t < a.panes@[p as int].tabs@.len()
}

/// Tab `t` of pane `p` went to the other pane, which is active now and shows
/// it.
pub open spec fn moved_across(
    after: FileManApp,
    before: FileManApp,
    p: usize,
    t: usize,
) -> bool {
    let from = before.panes@[p as int];
    let to = before.panes@[1 - p];
    let left = after.panes@[p as int];
    let got = after.panes@[1 - p];
    &&& after.panes@.len() == 2
    &&& left.tabs@ == from.tabs@.remove(t as int)
    &&& left.active_tab == (if from.active_tab >= from.tabs@.len() - 1 {
        from.active_tab - 1
    } else {
        from.active_tab as int
    })
    &&& left.same_address(from)
    &&& got.tabs@ == to.tabs@.push((Tab { listing_dirty: true, ..from.tabs@[t as int] }))
    &&& got.active_tab == to.tabs@.len()
    &&& got.same_address(to)
    &&& after.active_pane == 1 - p
    &&& after.dirty
    &&& after == (FileManApp {
        panes: after.panes,
        active_pane: after.active_pane,
        dirty: after.dirty,
        ..before
    })
}

/// What a choice from the menu of tab `t` of pane `p` does. The last tab of a
/// pane cannot be moved, and a pinned one cannot be closed: those choices are
/// not offered and leave the menu open.
pub open spec fn tab_choice_made<D: Fn(&String) -> bool>(
    after: FileManApp,
    before: FileManApp,
    p: usize,
    t: usize,
    choice: TabChoice,
    f: D,
    now: Seq<char>,
) -> bool {
    let closed = FileManApp { dialog: None, ..before };
    let pane = before.panes@[p as int];
    let tab = pane.tabs@[t as int];
    if !tab_exists(before, p, t) {
        after == closed
    } else {
        match choice {
            TabChoice::Pending => after == before,
            TabChoice::Dismiss => after == closed,
            TabChoice::Duplicate => app_nav::added_tab(
                after,
                closed,
                tab.path@,
                p as int,
                f,
                now,
            ),
            TabChoice::MoveToOtherPane => if pane.tabs@.len() > 1 {
                moved_across(after, closed, p, t)
            } else {
                after == before
            },
            TabChoice::Close => if tab.locked {
                after == before
            } else {
                app_nav::closed_tab(after, closed, p as int, t as int)
            },
            TabChoice::TogglePin => {
                let q = after.panes@[p as int];
                &&& pane_changed(after, closed, p as int, q, true)
                &&& q.tabs@ == pane.tabs@.update(t as int, (Tab { locked: !tab.locked, ..tab }))
                &&& q.active_tab == pane.active_tab
                &&& q.same_address(pane)
            },
            TabChoice::Rename => {
                &&& app_nav::asked(after, before)
                &&& (after.dialog matches Some(Dialog::RenameTab { pane_idx, tab_idx, name })
                    && pane_idx == p && tab_idx == t && name@ == tab.label())
            },
        }
    }
}

impl FileManApp {
    /// Carries out a choice from the tab menu that is open. The menu closes
    /// when the tab it is for no longer exists.
    pub fn tab_menu<D: Fn(&String) -> bool>(
        &mut self,
        choice: TabChoice,
        is_dir: &D,
        now: &str,
    )
        requires
            old(self).wf(),
            forall|s: &String| call_requires(*is_dir, (s,)),
        ensures
            final(self).wf(),
            match old(self).dialog {
                Some(Dialog::TabContext { pane_idx, tab_idx }) => tab_choice_made(
                    *final(self),
                    *old(self),
                    pane_idx,
                    tab_idx,
                    choice,
                    *is_dir,
                    now@,
                ),
                _ => *final(self) == *old(self),
            },
            old(self).synced() ==> final(self).synced(),
    {
        let (p, t): (usize, usize) = match &self.dialog {
            Some(Dialog::TabContext { pane_idx, tab_idx }) => (*pane_idx, *tab_idx),
            _ => {
                return ;
            },
        };
        if p >= 2 || t >= self.panes[p].tabs.len() {
            self.dialog = None;
            return ;
        }
        match choice {
            TabChoice::Pending => {},
            TabChoice::Dismiss => {
                self.dialog = None;
            },
            TabChoice::Duplicate => {
                self.dialog = None;
                let dir = self.panes[p].tabs[t].path.clone();
                self.new_tab(p, dir, is_dir, now);
            },
            TabChoice::MoveToOtherPane => {
                if self.panes[p].tabs.len() > 1 {
                    let mut moving = self.panes[p].take_tab(t);
                    moving.listing_dirty = true;
                    let other: usize = 1 - p;
                    let at: usize = self.panes[other].tabs.len();
                    self.panes[other].tabs.push(moving);
                    self.panes[other].active_tab = at;
                    assert(self.panes@[other as int].wf());
                    self.active_pane = other;
                    self.dirty = true;
                    self.dialog = None;
                }
            },
            TabChoice::Close => {
                if !self.panes[p].tabs[t].locked {
                    self.dialog = None;
                    self.panes[p].close_tab(t);
                    self.dirty = true;
                }
            },
            TabChoice::TogglePin => {
                let locked: bool = self.panes[p].tabs[t].locked;
                self.panes[p].tabs[t].locked = !locked;
                assert(self.panes@[p as int].wf());
                self.dirty = true;
                self.dialog = None;
            },
            TabChoice::Rename => {
                let name = self.panes[p].tabs[t].display_label();
                self.dialog_just_opened = true;
                self.dialog = Some(Dialog::RenameTab { pane_idx: p, tab_idx: t, name });
            },
        }
    }
}

// ---------------------------------------------------------------------------
// Reordering
// ---------------------------------------------------------------------------

/// How many tabs other than the one at `idx` the pointer has passed.
pub open spec fn others_passed(passed: Seq<bool>, idx: int) -> nat
    decreases passed.len(),
{
    if passed.len() == 0 {
        0
    } else {
        others_passed(passed.drop_last(), idx) + (if passed.last() && passed.len() - 1 != idx {
            1nat
        } else {
            0
        })
    }
}

pub(crate) proof fn lemma_others_passed(passed: Seq<bool>, idx: int)
    ensures
        others_passed(passed, idx) <= passed.len(),
        0 <= idx < passed.len() ==> others_passed(passed, idx) < passed.len(),
    decreases passed.len(),
{
    if passed.len() > 0 {
        lemma_others_passed(passed.drop_last(), idx);
    }
}

/// The slot that a dragged tab belongs in. Only the other tabs' centers count:
/// they don't move until an actual swap happens, so the calculation is stable
/// frame-to-frame.
pub fn reorder_slot(passed: &Vec<bool>, idx: usize) -> (r: usize)
    ensures
        r == others_passed(passed@, idx as int),
        idx < passed@.len() ==> r < passed@.len(),
{
    let mut n: usize = 0;
    let mut i: usize = 0;
    assert(passed@.subrange(0, 0).len() == 0);
    while i < passed.len()
        invariant
            i <= passed.len(),
            n <= i,
            n == others_passed(passed@.subrange(0, i as int), idx as int),
        decreases passed.len() - i,
    {
        let ghost upto = passed@.subrange(0, i + 1);
        assert(upto.drop_last() =~= passed@.subrange(0, i as int));
        if i != idx && passed[i] {
            n += 1;
        }
        i += 1;
    }
    assert(passed@.subrange(0, i as int) =~= passed@);
    proof {
        lemma_others_passed(passed@, idx as int);
    }
    n
}

/// The drag that is under way in pane `p`, once one may have started at
/// `started`.
pub open spec fn drag_at(a: FileManApp, p: usize, started: Option<usize>) -> Option<TabReorderDrag> {
    match started {
        Some(idx) => if a.panes@[p as int].tabs@.len() > 1 {
            Some(TabReorderDrag { pane_idx: p, idx, moved: false })
        } else {
            a.tab_reorder
        },
        None => a.tab_reorder,
    }
}

/// What a frame of dragging a tab in pane `p` does. `passed` tells of each tab
/// whether the pointer is past its center, if the pointer is there at all.
pub open spec fn reordered(
    after: FileManApp,
    before: FileManApp,
    p: usize,
    passed: Option<Seq<bool>>,
    started: Option<usize>,
) -> bool {
    let drag = drag_at(before, p, started);
    let was = before.panes@[p as int];
    let held = FileManApp { tab_reorder: drag, ..before };
    match drag {
        Some(d) => if d.pane_idx != p {
            after == held
        } else if d.idx >= was.tabs@.len() {
            after == (FileManApp { tab_reorder: None, ..before })
        } else {
            match passed {
                Some(centers) => {
                    let target = others_passed(centers, d.idx as int);
                    let now = after.panes@[p as int];
                    if target == d.idx {
                        after == held
                    } else {
                        &&& after.panes@ == before.panes@.update(p as int, now)
                        &&& now.tabs@ == was.tabs@.remove(d.idx as int).insert(
                            target as int,
                            was.tabs@[d.idx as int],
                        )
                        &&& now.active_tab == crate::pane::active_after_move(
                            was.active_tab as int,
                            d.idx as int,
                            target as int,
                        )
                        &&& now.same_address(was)
                        &&& after == (FileManApp {
                            panes: after.panes,
                            tab_reorder: Some(
                                TabReorderDrag {
                                    pane_idx: p,
                                    idx: target as usize,
                                    moved: true,
                                },
                            ),
                            dirty: true,
                            ..before
                        })
                    }
                },
                None => after == held,
            }
        },
        None => after == held,
    }
}

/// Where the centers of the tabs are seen from the pointer.
pub open spec fn centers(passed: Option<Vec<bool>>) -> Option<Seq<bool>> {
    match passed {
        Some(v) => Some(v@),
        None => None,
    }
}

impl FileManApp {
    /// Drives drag-to-reorder for `pane_idx`'s tab strip. Called once per frame
    /// with where the pointer is; starts a drag when a tab reports a press, and
    /// live-swaps the dragged tab with whatever slot the pointer has reached.
    pub fn update_tab_reorder(
        &mut self,
        pane_idx: usize,
        passed: Option<Vec<bool>>,
        started: Option<usize>,
    )
        requires
            old(self).wf(),
            pane_idx < 2,
            passed matches Some(v) ==> v@.len() == old(self).panes@[pane_idx as int].tabs@.len(),
        ensures
            final(self).wf(),
            reordered(*final(self), *old(self), pane_idx, centers(passed), started),
            old(self).synced() ==> final(self).synced(),
    {
        if let Some(idx) = started {
            if self.panes[pane_idx].tabs.len() > 1 {
                self.tab_reorder = Some(TabReorderDrag { pane_idx, idx, moved: false });
            }
        }
        let d = match self.tab_reorder {
            Some(d) => d,
            None => {
                return ;
            },
        };
        if d.pane_idx != pane_idx {
            return ;
        }
        // The dragged tab may have been closed out from under the gesture.
        if d.idx >= self.panes[pane_idx].tabs.len() {
            self.tab_reorder = None;
            return ;
        }
        match passed {
            Some(v) => {
                let target: usize = reorder_slot(&v, d.idx);
                if target != d.idx {
                    self.panes[pane_idx].move_tab(d.idx, target);
                    self.tab_reorder = Some(
                        TabReorderDrag { pane_idx, idx: target, moved: true },
                    );
                    self.dirty = true;
                }
            },
            None => {},
        }
    }

    /// Ends a tab-reorder drag: the button was released.
    pub fn end_tab_reorder(&mut self)
        requires
            old(self).wf(),
        ensures
            final(self).wf(),
            *final(self) == (FileManApp {
                tab_reorder: None,
                dirty: old(self).dirty || (old(self).tab_reorder matches Some(d) && d.moved),
                ..*old(self)
            }),
            old(self).synced() ==> final(self).synced(),
    {
        match self.tab_reorder {
            Some(d) => {
                if d.moved {
                    self.dirty = true;
                }
            },
            None => {},
        }
        self.tab_reorder = None;
    }
}

// ---------------------------------------------------------------------------
// Sorting
// ---------------------------------------------------------------------------

/// A direction of sorting in words.
pub open spec fn direction(asc: bool) -> Seq<char> {
    if asc {
        "ascending"@
    } else {
        "descending"@
    }
}

fn direction_word(asc: bool) -> (r: &'static str)
    ensures
        r@ == direction(asc),
{
    if asc {
        "ascending"
    } else {
        "descending"
    }
}

/// A sorting in words.
pub open spec fn sorting_words(col: Seq<char>, asc: bool) -> Seq<char> {
    prefs::sort_col_title(col) + " "@ + direction(asc)
}

/// Tells a sorting in words.
pub fn sorting_text(col: &str, asc: bool) -> (r: String)
    ensures
        r@ == sorting_words(col@, asc),
{
    let mut s = sort_col_label(col).to_owned();
    s.append(" ");
    s.append(direction_word(asc));
    s
}

/// How many of the tabs are sorted otherwise than by `col`.
pub open spec fn sorted_otherwise(tabs: Seq<Tab>, col: Seq<char>, asc: bool) -> nat
    decreases tabs.len(),
{
    if tabs.len() == 0 {
        0
    } else {
        sorted_otherwise(tabs.drop_last(), col, asc) + (if tabs.last().sort_col@ != col
            || tabs.last().sort_asc != asc {
            1nat
        } else {
            0
        })
    }
}

fn count_otherwise(tabs: &Vec<Tab>, col: &str, asc: bool) -> (r: usize)
    ensures
        r == sorted_otherwise(tabs@, col@, asc),
        r <= tabs@.len(),
{
    let mut n: usize = 0;
    let mut i: usize = 0;
    assert(tabs@.subrange(0, 0).len() == 0);
    while i < tabs.len()
        invariant
            i <= tabs.len(),
            n <= i,
            n == sorted_otherwise(tabs@.subrange(0, i as int), col@, asc),
        decreases tabs.len() - i,
    {
        let ghost upto = tabs@.subrange(0, i + 1);
        assert(upto.drop_last() =~= tabs@.subrange(0, i as int));
        if !str_eq(tabs[i].sort_col.as_str(), col) || tabs[i].sort_asc != asc {
            n += 1;
        }
        i += 1;
    }
    assert(tabs@.subrange(0, i as int) =~= tabs@);
    n
}

/// What the sorting dialog shows.
pub struct SortQuestion {
    /// How the tab is sorted now.
    pub current: String,
    /// How it is about to be sorted.
    pub new: String,
    /// What choosing all tabs means.
    pub all_tabs: String,
    /// What choosing this tab means.
    pub this_tab: String,
}

/// What choosing all tabs means, in words.
pub open spec fn all_tabs_words(total: nat, changed: nat) -> Seq<char> {
    "\u{2022} All open tabs — re-sorts all "@ + text::decimal(total)
        + " tabs across both panes ("@ + text::decimal(changed)
        + " will actually change) and becomes the sorting every new tab starts with."@
}

/// What choosing this tab means, in words.
pub open spec fn this_tab_words(label: Seq<char>) -> Seq<char> {
    "\u{2022} This tab only — re-sorts just \""@ + label
        + "\"; other tabs and the default for future tabs stay unchanged."@
}

/// What is said once the tabs are sorted.
pub open spec fn sorted_words(all: bool, col: Seq<char>, asc: bool) -> Seq<char> {
    if all {
        "Sorted all tabs by "@ + sorting_words(col, asc) + " — new tabs will use it too"@
    } else {
        "Sorted this tab by "@ + sorting_words(col, asc)
    }
}

/// What answering the sorting dialog does.
pub open spec fn sort_applied(
    after: FileManApp,
    before: FileManApp,
    col: Seq<char>,
    asc: bool,
    p: usize,
    all: bool,
) -> bool {
    &&& after.dialog is None
    &&& after.dirty
    &&& after.status@ == sorted_words(all, col, asc)
    &&& if all {
        &&& app_nav::all_sorted(after.panes@, before.panes@, col, asc)
        &&& after.prefs.sort_col@ == col
        &&& after.prefs == (prefs::Preferences {
            sort_col: after.prefs.sort_col,
            sort_asc: asc,
            ..before.prefs
        })
        &&& after.db.same_but_settings(before.db)
        &&& after.db.settings@ == before.db.settings@.insert(
            (Some(before.current_user_id), "sort_col"@),
            col,
        ).insert((Some(before.current_user_id), "sort_asc"@), prefs::flag_text(asc))
        &&& after == (FileManApp {
            panes: after.panes,
            db: after.db,
            prefs: after.prefs,
            dialog: after.dialog,
            dirty: after.dirty,
            status: after.status,
            ..before
        })
    } else {
        let now = after.panes@[p as int];
        let was = before.panes@[p as int];
        &&& after.panes@ == before.panes@.update(p as int, now)
        &&& app::active_became(now, was, now.active())
        &&& now.active().sort_col@ == col
        &&& now.active() == (Tab { sort_col: now.active().sort_col, sort_asc: asc, ..was.active() })
        &&& after == (FileManApp {
            panes: after.panes,
            dialog: after.dialog,
            dirty: after.dirty,
            status: after.status,
            ..before
        })
    }
}

impl FileManApp {
    /// Asks how far a new sorting goes: a column header was clicked in a pane.
    pub fn click_sort(&mut self, pane_idx: usize, col: &str)
        requires
            old(self).wf(),
            pane_idx < 2,
        ensures
            final(self).wf(),
            app_nav::asked(*final(self), *old(self)),
            ({
                let t = old(self).panes@[pane_idx as int].active();
                final(self).dialog matches Some(Dialog::ApplySort { col: c, asc, pane_idx: p })
                    && p == pane_idx && (c@, asc) == prefs::sort_after_click(
                    t.sort_col@,
                    t.sort_asc,
                    col@,
                )
            }),
            old(self).synced() ==> final(self).synced(),
    {
        let t = self.panes[pane_idx].active_tab();
        let (c, asc) = next_sort(t.sort_col.as_str(), t.sort_asc, col);
        self.dialog_just_opened = true;
        self.dialog = Some(Dialog::ApplySort { col: c, asc, pane_idx });
    }

    /// What the sorting dialog shows: the exact change, and how many of the
    /// open tabs each choice would actually touch. `None` if there are more
    /// tabs than can be counted.
    pub fn sort_question(&self, col: &str, asc: bool, pane_idx: usize) -> (r: Option<SortQuestion>)
        requires
            self.wf(),
            pane_idx < 2,
        ensures
            ({
                let t = self.panes@[pane_idx as int].active();
                let total = self.panes@[0].tabs@.len() + self.panes@[1].tabs@.len();
                match r {
                    Some(q) => {
                        &&& total <= usize::MAX
                        &&& q.current@ == sorting_words(t.sort_col@, t.sort_asc)
                        &&& q.new@ == sorting_words(col@, asc)
                        &&& q.all_tabs@ == all_tabs_words(
                            total,
                            sorted_otherwise(self.panes@[0].tabs@, col@, asc)
                                + sorted_otherwise(self.panes@[1].tabs@, col@, asc),
                        )
                        &&& q.this_tab@ == this_tab_words(t.label())
                    },
                    None => total > usize::MAX,
                }
            }),
    {
        let t = self.panes[pane_idx].active_tab();
        let total: usize = match self.panes[0].tabs.len().checked_add(self.panes[1].tabs.len()) {
            Some(n) => n,
            None => {
                return None;
            },
        };
        let changed: usize = count_otherwise(&self.panes[0].tabs, col, asc) + count_otherwise(
            &self.panes[1].tabs,
            col,
            asc,
        );
        let mut all_tabs = "\u{2022} All open tabs — re-sorts all ".to_owned();
        all_tabs.append(usize_to_string(total).as_str());
        all_tabs.append(" tabs across both panes (");
        all_tabs.append(usize_to_string(changed).as_str());
        all_tabs.append(
            " will actually change) and becomes the sorting every new tab starts with.",
        );
        let mut this_tab = "\u{2022} This tab only — re-sorts just \"".to_owned();
        this_tab.append(t.display_label().as_str());
        this_tab.append("\"; other tabs and the default for future tabs stay unchanged.");
        Some(
            SortQuestion {
                current: sorting_text(t.sort_col.as_str(), t.sort_asc),
                new: sorting_text(col, asc),
                all_tabs,
                this_tab,
            },
        )
    }

    /// Applies the sorting that was asked about, to all tabs or to the one
    /// whose header was clicked.
    pub fn apply_sort(&mut self, all: bool)
        requires
            old(self).wf(),
            old(self).dialog matches Some(Dialog::ApplySort { col, asc, pane_idx }) ==> pane_idx
                < 2,
        ensures
            final(self).wf(),
            match old(self).dialog {
                Some(Dialog::ApplySort { col, asc, pane_idx }) => sort_applied(
                    *final(self),
                    *old(self),
                    col@,
                    asc,
                    pane_idx,
                    all,
                ),
                _ => *final(self) == (FileManApp { dialog: None, ..*old(self) }),
            },
            old(self).synced() ==> final(self).synced(),
    {
        let taken = self.dialog.take();
        match taken {
            Some(Dialog::ApplySort { col, asc, pane_idx }) => {
                let words = sorting_text(col.as_str(), asc);
                if all {
                    self.apply_sort_everywhere(col.as_str(), asc);
                    let mut s = "Sorted all tabs by ".to_owned();
                    s.append(words.as_str());
                    s.append(" — new tabs will use it too");
                    self.status = s;
                } else {
                    let t = self.panes[pane_idx].active_tab_mut();
                    t.sort_col = col;
                    t.sort_asc = asc;
                    self.status = tell("Sorted this tab by ", words.as_str());
                }
                self.dirty = true;
            },
            _ => {},
        }
    }
}

} // verus!
