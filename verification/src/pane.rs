//! A pane: a row of tabs of which one is active.

use crate::tab::Tab;
use vstd::prelude::*;

verus! {

/// One of the two file browsers.
#[derive(Debug, PartialEq)]
pub struct Pane {
    pub tabs: Vec<Tab>,
    pub active_tab: usize,
    /// Editable address bar text for this pane.
    pub address_bar: String,
    /// True while showing the typeable address bar (`address_bar`) instead
    /// of the clickable breadcrumb trail.
    pub address_edit_mode: bool,
}

/// The slot of the active tab after the tab in slot `index` is gone.
pub open spec fn active_after_close(active: int, index: int, len: int) -> int {
    if index < active {
        active - 1
    } else if active >= len - 1 {
        len - 2
    } else {
        active
    }
}

/// The slot of the active tab after the tab in slot `from` moved to `to`.
pub open spec fn active_after_move(active: int, from: int, to: int) -> int {
    if active == from {
        to
    } else if from < active && to >= active {
        active - 1
    } else if from > active && to <= active {
        active + 1
    } else {
        active
    }
}

impl Pane {
    /// There is an active tab, and every tab is well-formed.
    pub open spec fn wf(self) -> bool {
        &&& self.active_tab < self.tabs@.len()
        &&& forall|i: int| 0 <= i < self.tabs@.len() ==> (#[trigger] self.tabs@[i]).wf()
    }

    /// The active tab.
    pub open spec fn active(self) -> Tab {
        self.tabs@[self.active_tab as int]
    }

    /// The address bar is the same in both.
    pub open spec fn same_address(self, other: Pane) -> bool {
        self.address_bar == other.address_bar && self.address_edit_mode == other.address_edit_mode
    }

    /// A pane with one tab that shows `p`.
    pub open spec fn fresh(self, p: Seq<char>) -> bool {
        &&& self.wf()
        &&& self.tabs@.len() == 1
        &&& self.tabs@[0].fresh(p)
        &&& self.active_tab == 0
        &&& self.address_bar@ == p
        &&& !self.address_edit_mode
    }

    /// A pane with one tab that shows `initial_path`.
    pub fn new(initial_path: String) -> (r: Self)
        ensures
            r.fresh(initial_path@),
    {
        let address_bar = initial_path.clone();
        let mut tabs: Vec<Tab> = Vec::new();
        tabs.push(Tab::new(initial_path));
        Pane { tabs, active_tab: 0, address_bar, address_edit_mode: false }
    }

    /// The active tab.
    pub fn active_tab(&self) -> (r: &Tab)
        requires
            self.wf(),
        ensures
            *r == self.active(),
            r.wf(),
    {
        &self.tabs[self.active_tab]
    }

    /// The active tab, to be changed in place.
    pub fn active_tab_mut(&mut self) -> (r: &mut Tab)
        requires
            old(self).wf(),
        ensures
            *r == old(self).active(),
            r.wf(),
            final(self).tabs@ == old(self).tabs@.update(old(self).active_tab as int, *final(r)),
            final(self).active_tab == old(self).active_tab,
            final(self).same_address(*old(self)),
    {
        let i: usize = self.active_tab;
        &mut self.tabs[i]
    }

    /// Switches the active tab index and marks the newly activated tab as
    /// needing a fresh listing, so external file-system changes that arrived
    /// while the tab was in the background become visible immediately.
    pub fn set_active_tab(&mut self, idx: usize)
        requires
            old(self).wf(),
            idx < old(self).tabs@.len(),
        ensures
            final(self).wf(),
            final(self).active_tab == idx,
            final(self).same_address(*old(self)),
            final(self).tabs@ == (if idx == old(self).active_tab {
                old(self).tabs@
            } else {
                old(self).tabs@.update(
                    idx as int,
                    (Tab { listing_dirty: true, ..old(self).tabs@[idx as int] }),
                )
            }),
    {
        if idx != self.active_tab {
            self.tabs[idx].listing_dirty = true;
        }
        self.active_tab = idx;
    }

    /// Opens a tab that shows `path` behind the others and makes it active.
    pub fn open_tab(&mut self, path: String)
        requires
            old(self).wf(),
        ensures
            final(self).wf(),
            final(self).tabs@.len() == old(self).tabs@.len() + 1,
            final(self).tabs@.drop_last() == old(self).tabs@,
            final(self).active_tab == old(self).tabs@.len(),
            final(self).active().fresh(path@),
            final(self).active().path == path,
            final(self).same_address(*old(self)),
    {
        self.tabs.push(Tab::new(path));
        self.active_tab = self.tabs.len() - 1;
        assert(self.tabs@.drop_last() =~= old(self).tabs@);
    }

    /// Opens `tab` right behind the active tab and makes it active.
    pub fn insert_beside_active(&mut self, tab: Tab)
        requires
            old(self).wf(),
            tab.wf(),
        ensures
            final(self).wf(),
            final(self).tabs@ == old(self).tabs@.insert(old(self).active_tab + 1, tab),
            final(self).active_tab == old(self).active_tab + 1,
            final(self).same_address(*old(self)),
    {
        let n: usize = self.tabs.len();
        let at: usize = self.active_tab + 1;
        assert(at <= n);
        self.tabs.insert(at, tab);
        self.active_tab = at;
        assert forall|i: int| 0 <= i < self.tabs@.len() implies (#[trigger] self.tabs@[i]).wf() by {
            if i < at {
                assert(self.tabs@[i] == old(self).tabs@[i]);
            } else if i > at {
                assert(self.tabs@[i] == old(self).tabs@[i - 1]);
            }
        }
    }

    /// Closes the tab in slot `index`. The last remaining tab stays, and so
    /// does a pinned one.
    pub fn close_tab(&mut self, index: usize)
        requires
            old(self).wf(),
        ensures
            final(self).wf(),
            final(self).same_address(*old(self)),
            old(self).tabs@.len() <= 1 || index >= old(self).tabs@.len()
                || old(self).tabs@[index as int].locked ==> *final(self) == *old(self),
            old(self).tabs@.len() > 1 && index < old(self).tabs@.len()
                && !old(self).tabs@[index as int].locked ==> {
                &&& final(self).tabs@ == old(self).tabs@.remove(index as int)
                &&& final(self).active_tab == active_after_close(
                    old(self).active_tab as int,
                    index as int,
                    old(self).tabs@.len() as int,
                )
            },
    {
        if self.tabs.len() <= 1 || index >= self.tabs.len() || self.tabs[index].locked {
            return;
        }
        self.tabs.remove(index);
        if index < self.active_tab {
            self.active_tab = self.active_tab - 1;
        } else if self.active_tab >= self.tabs.len() {
            self.active_tab = self.tabs.len() - 1;
        }
        assert forall|i: int| 0 <= i < self.tabs@.len() implies (#[trigger] self.tabs@[i]).wf() by {
            if i < index {
                assert(self.tabs@[i] == old(self).tabs@[i]);
            } else {
                assert(self.tabs@[i] == old(self).tabs@[i + 1]);
            }
        }
    }

    /// Takes the tab in slot `index` out of the pane, pinned or not. The
    /// active tab moves down by one slot where it would be past the end.
    pub fn take_tab(&mut self, index: usize) -> (r: Tab)
        requires
            old(self).wf(),
            old(self).tabs@.len() > 1,
            index < old(self).tabs@.len(),
        ensures
            final(self).wf(),
            r == old(self).tabs@[index as int],
            r.wf(),
            final(self).tabs@ == old(self).tabs@.remove(index as int),
            final(self).active_tab == (if old(self).active_tab >= old(self).tabs@.len() - 1 {
                old(self).active_tab - 1
            } else {
                old(self).active_tab as int
            }),
            final(self).same_address(*old(self)),
    {
        let tab = self.tabs.remove(index);
        if self.active_tab >= self.tabs.len() {
            self.active_tab = self.active_tab - 1;
        }
        assert forall|i: int| 0 <= i < self.tabs@.len() implies (#[trigger] self.tabs@[i]).wf() by {
            if i < index {
                assert(self.tabs@[i] == old(self).tabs@[i]);
            } else {
                assert(self.tabs@[i] == old(self).tabs@[i + 1]);
            }
        }
        tab
    }

    /// Moves a tab from slot `from` to slot `to` (both indices into `tabs`),
    /// keeping `active_tab` pointed at the same tab afterwards. No-op when
    /// either index is out of bounds or the move wouldn't change anything.
    pub fn move_tab(&mut self, from: usize, to: usize)
        requires
            old(self).wf(),
        ensures
            final(self).wf(),
            final(self).same_address(*old(self)),
            from == to || from >= old(self).tabs@.len() || to >= old(self).tabs@.len()
                ==> *final(self) == *old(self),
            from != to && from < old(self).tabs@.len() && to < old(self).tabs@.len() ==> {
                &&& final(self).tabs@ == old(self).tabs@.remove(from as int).insert(
                    to as int,
                    old(self).tabs@[from as int],
                )
                &&& final(self).active_tab == active_after_move(
                    old(self).active_tab as int,
                    from as int,
                    to as int,
                )
            },
    {
        if from == to || from >= self.tabs.len() || to >= self.tabs.len() {
            return;
        }
        let ghost before = self.tabs@;
        let tab = self.tabs.remove(from);
        self.tabs.insert(to, tab);
        if self.active_tab == from {
            self.active_tab = to;
        } else if from < self.active_tab && to >= self.active_tab {
            self.active_tab = self.active_tab - 1;
        } else if from > self.active_tab && to <= self.active_tab {
            self.active_tab = self.active_tab + 1;
        }
        proof {
            let mid = before.remove(from as int);
            assert forall|i: int| 0 <= i < self.tabs@.len() implies (#[trigger] self.tabs@[i]).wf() by {
                if i == to {
                } else {
                    let m = if i < to {
                        i
                    } else {
                        i - 1
                    };
                    assert(self.tabs@[i] == mid[m]);
                    let b = if m < from {
                        m
                    } else {
                        m + 1
                    };
                    assert(mid[m] == before[b]);
                }
            }
        }
    }
}

/// Moving a tab keeps the same tab active.
pub proof fn law_move_keeps_the_active_tab(tabs: Seq<Tab>, active: int, from: int, to: int)
    requires
        0 <= active < tabs.len(),
        0 <= from < tabs.len(),
        0 <= to < tabs.len(),
        from != to,
    ensures
        ({
            let after = tabs.remove(from).insert(to, tabs[from]);
            let slot = active_after_move(active, from, to);
            &&& 0 <= slot < after.len()
            &&& after[slot] == tabs[active]
        }),
{
}

/// Closing another tab keeps the same tab active.
pub proof fn law_close_keeps_the_active_tab(tabs: Seq<Tab>, active: int, index: int)
    requires
        0 <= active < tabs.len(),
        0 <= index < tabs.len(),
        index != active,
        tabs.len() > 1,
    ensures
        ({
            let after = tabs.remove(index);
            let slot = active_after_close(active, index, tabs.len() as int);
            &&& 0 <= slot < after.len()
            &&& after[slot] == tabs[active]
        }),
{
}

/// Closing the active tab makes the tab that follows it active, or the last
/// one where none follows.
pub proof fn law_close_of_the_active_tab(tabs: Seq<Tab>, active: int)
    requires
        0 <= active < tabs.len(),
        tabs.len() > 1,
    ensures
        ({
            let after = tabs.remove(active);
            let slot = active_after_close(active, active, tabs.len() as int);
            &&& 0 <= slot < after.len()
            &&& active + 1 < tabs.len() ==> after[slot] == tabs[active + 1]
            &&& active + 1 == tabs.len() ==> after[slot] == tabs[active - 1]
        }),
{
}

/// Moving a tab there and back leaves the row as it was.
pub proof fn law_moving_back_undoes_a_move(tabs: Seq<Tab>, active: int, from: int, to: int)
    requires
        0 <= active < tabs.len(),
        0 <= from < tabs.len(),
        0 <= to < tabs.len(),
        from != to,
    ensures
        ({
            let there = tabs.remove(from).insert(to, tabs[from]);
            &&& there.remove(to).insert(from, there[to]) == tabs
            &&& active_after_move(active_after_move(active, from, to), to, from) == active
        }),
{
    let there = tabs.remove(from).insert(to, tabs[from]);
    assert(there.remove(to).insert(from, there[to]) =~= tabs);
}

/// Closing a tab takes that one out and no other, never the last one or a pinned
/// one. Where another tab was active it stays active; where the closed one was,
/// the one that follows it is, or the last one.
pub proof fn law_closing_takes_one_tab()
    ensures
        forall|pane: &mut Pane, index: usize| #[trigger]
            call_ensures(Pane::close_tab, (pane, index), ()) && pane.wf() ==> {
                if pane.tabs@.len() > 1 && index < pane.tabs@.len()
                    && !pane.tabs@[index as int].locked {
                    &&& final(pane).tabs@ == pane.tabs@.subrange(0, index as int)
                        + pane.tabs@.subrange(index + 1, pane.tabs@.len() as int)
                    &&& index != pane.active_tab ==> final(pane).active() == pane.active()
                    &&& index == pane.active_tab && index + 1 < pane.tabs@.len() ==> final(
                        pane
                    ).active() == pane.tabs@[index + 1]
                    &&& index == pane.active_tab && index + 1 == pane.tabs@.len() ==> final(
                        pane
                    ).active() == pane.tabs@[index - 1]
                } else {
                    *final(pane) == *pane
                }
            },
{
    assert forall|pane: &mut Pane, index: usize| #[trigger]
        call_ensures(Pane::close_tab, (pane, index), ()) && pane.wf() && pane.tabs@.len() > 1
            && index < pane.tabs@.len() && !pane.tabs@[index as int].locked implies {
        &&& final(pane).tabs@ == pane.tabs@.subrange(0, index as int) + pane.tabs@.subrange(
            index + 1,
            pane.tabs@.len() as int,
        )
        &&& index != pane.active_tab ==> final(pane).active() == pane.active()
        &&& index == pane.active_tab && index + 1 < pane.tabs@.len() ==> final(pane).active()
            == pane.tabs@[index + 1]
        &&& index == pane.active_tab && index + 1 == pane.tabs@.len() ==> final(pane).active()
            == pane.tabs@[index - 1]
    } by {
        assert(pane.tabs@.remove(index as int) =~= pane.tabs@.subrange(0, index as int)
            + pane.tabs@.subrange(index + 1, pane.tabs@.len() as int));
        if index == pane.active_tab {
            law_close_of_the_active_tab(pane.tabs@, pane.active_tab as int);
        } else {
            law_close_keeps_the_active_tab(pane.tabs@, pane.active_tab as int, index as int);
        }
    }
}

/// Moving a tab puts it at its new place and keeps the others in their order,
/// and the same tab stays active. A move from or to no tab changes nothing.
pub proof fn law_moving_rearranges_the_tabs()
    ensures
        forall|pane: &mut Pane, from: usize, to: usize| #[trigger]
            call_ensures(Pane::move_tab, (pane, from, to), ()) && pane.wf() ==> {
                if from < pane.tabs@.len() && to < pane.tabs@.len() {
                    &&& final(pane).tabs@.len() == pane.tabs@.len()
                    &&& final(pane).tabs@[to as int] == pane.tabs@[from as int]
                    &&& final(pane).tabs@.remove(to as int) == pane.tabs@.remove(from as int)
                    &&& final(pane).active() == pane.active()
                } else {
                    *final(pane) == *pane
                }
            },
{
    assert forall|pane: &mut Pane, from: usize, to: usize| #[trigger]
        call_ensures(Pane::move_tab, (pane, from, to), ()) && pane.wf() && from < pane.tabs@.len()
            && to < pane.tabs@.len() implies {
        &&& final(pane).tabs@.len() == pane.tabs@.len()
        &&& final(pane).tabs@[to as int] == pane.tabs@[from as int]
        &&& final(pane).tabs@.remove(to as int) == pane.tabs@.remove(from as int)
        &&& final(pane).active() == pane.active()
    } by {
        if from != to {
            let out = pane.tabs@.remove(from as int);
            assert(out.insert(to as int, pane.tabs@[from as int]).remove(to as int) =~= out);
            law_move_keeps_the_active_tab(
                pane.tabs@,
                pane.active_tab as int,
                from as int,
                to as int,
            );
        }
    }
}

/// A tab that is opened comes behind all others, or right behind the active one,
/// is active, and changes no other tab. Making a tab active changes none, but
/// has it listed anew.
pub proof fn law_opening_changes_no_other_tab()
    ensures
        forall|pane: &mut Pane, p: String| #[trigger]
            call_ensures(Pane::open_tab, (pane, p), ()) ==> {
                &&& final(pane).tabs@ == pane.tabs@ + seq![final(pane).active()]
                &&& final(pane).active().path@ == p@
                &&& final(pane).active_tab == pane.tabs@.len()
            },
        forall|pane: &mut Pane, t: Tab| #[trigger]
            call_ensures(Pane::insert_beside_active, (pane, t), ()) && pane.wf() ==> {
                &&& final(pane).tabs@ == pane.tabs@.subrange(0, pane.active_tab + 1) + seq![t]
                    + pane.tabs@.subrange(pane.active_tab + 1, pane.tabs@.len() as int)
                &&& final(pane).active() == t
            },
        forall|pane: &mut Pane, index: usize| #[trigger]
            call_ensures(Pane::set_active_tab, (pane, index), ()) && pane.wf() && index
                < pane.tabs@.len() ==> {
                &&& final(pane).active_tab == index
                &&& final(pane).tabs@.len() == pane.tabs@.len()
                &&& index != pane.active_tab ==> final(pane).active().listing_dirty
                &&& final(pane).active().path == pane.tabs@[index as int].path
                &&& final(pane).active().locked == pane.tabs@[index as int].locked
                &&& forall|i: int|
                    0 <= i < pane.tabs@.len() && i != index ==> #[trigger] final(pane).tabs@[i]
                        == pane.tabs@[i]
            },
{
    assert forall|pane: &mut Pane, p: String| #[trigger]
        call_ensures(Pane::open_tab, (pane, p), ()) implies final(pane).tabs@ == pane.tabs@ + seq![
        final(pane).active(),
    ] by {
        let now = final(pane).tabs@;
        assert(now.drop_last() + seq![now.last()] =~= now);
    }
    assert forall|pane: &mut Pane, t: Tab| #[trigger]
        call_ensures(Pane::insert_beside_active, (pane, t), ()) && pane.wf() implies final(
        pane
    ).tabs@ == pane.tabs@.subrange(0, pane.active_tab + 1) + seq![t] + pane.tabs@.subrange(
        pane.active_tab + 1,
        pane.tabs@.len() as int,
    ) by {
        assert(pane.tabs@.insert(pane.active_tab + 1, t) =~= pane.tabs@.subrange(
            0,
            pane.active_tab + 1,
        ) + seq![t] + pane.tabs@.subrange(pane.active_tab + 1, pane.tabs@.len() as int));
    }
}

} // verus!
