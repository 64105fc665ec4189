//! Saving the open tabs and bringing them back.

use crate::db::{Database, SavedSession, TabRow};
use crate::pane::Pane;
use crate::path::parent;
use crate::tab::{Tab, ViewMode};
use crate::{path, tab};
use vstd::prelude::*;

verus! {

// ---------------------------------------------------------------------------
// Folders that are gone
// ---------------------------------------------------------------------------

/// `f` answered `answer` when asked about the path `p`.
pub open spec fn answered<F: Fn(&String) -> bool>(f: F, p: Seq<char>, answer: bool) -> bool {
    exists|s: &String| s@ == p && #[trigger] call_ensures(f, (s,), answer)
}

/// `r` is the first of `chain` that `f` says exists, or the last of `chain`
/// where it says so of none.
pub open spec fn first_existing<F: Fn(&String) -> bool>(
    f: F,
    chain: Seq<Seq<char>>,
    r: Seq<char>,
) -> bool {
    exists|k: int|
        #![trigger chain[k]]
        {
            &&& 0 <= k < chain.len()
            &&& r == chain[k]
            &&& forall|j: int| 0 <= j < k ==> answered(f, #[trigger] chain[j], false)
            &&& answered(f, chain[k], true) || (k == chain.len() - 1 && answered(
                f,
                chain[k],
                false,
            ))
        }
}

/// Returns `path` unchanged if it exists, otherwise walks up the ancestor
/// chain until it finds one that does, falling back to the drive root (or
/// whatever the topmost ancestor is) if nothing along the way exists either.
/// Whether a path exists is answered by `on_disk`.
///
/// Used when restoring a saved session: a saved path may point at a deleted
/// folder or an unmounted drive.
pub fn nearest_existing_ancestor<F: Fn(&String) -> bool>(path: &str, on_disk: &F) -> (r: String)
    requires
        forall|s: &String| call_requires(*on_disk, (s,)),
    ensures
        first_existing(*on_disk, path::ancestors_of(path@), r@),
{
    let mut current = path.to_owned();
    let ghost chain = path::ancestors_of(path@);
    let ghost mut k: int = 0;
    assert(chain.subrange(0, chain.len() as int) =~= chain);
    loop
        invariant
            forall|s: &String| call_requires(*on_disk, (s,)),
            chain == path::ancestors_of(path@),
            0 <= k <= chain.len(),
            path::ancestors_of(current@) == chain.subrange(k, chain.len() as int),
            forall|j: int| 0 <= j < k ==> answered(*on_disk, #[trigger] chain[j], false),
        decreases current@.len(),
    {
        let there = on_disk(&current);
        proof {
            path::lemma_parent_shorter(current@);
            let rest = path::ancestors_of(current@);
            assert(rest.len() > 0 && rest[0] == current@);
            assert(chain.subrange(k, chain.len() as int)[0] == chain[k]);
            assert(current@ == chain[k]);
            assert(answered(*on_disk, chain[k], there));
        }
        if there {
            return current;
        }
        match parent(current.as_str()) {
            Some(up) => {
                proof {
                    let rest = chain.subrange(k, chain.len() as int);
                    assert(rest =~= seq![current@] + path::ancestors_of(up@));
                    assert(chain.subrange(k + 1, chain.len() as int) =~= rest.subrange(
                        1,
                        rest.len() as int,
                    ));
                    assert((seq![current@] + path::ancestors_of(up@)).subrange(
                        1,
                        rest.len() as int,
                    ) =~= path::ancestors_of(up@));
                    k = k + 1;
                }
                current = up;
            },
            None => {
                assert(path::ancestors_of(current@).len() == 1);
                assert(k == chain.len() - 1);
                return current;
            },
        }
    }
}

/// A folder that exists is kept as it is.
pub proof fn law_existing_folder_is_kept<F: Fn(&String) -> bool>(f: F, p: Seq<char>, r: Seq<char>)
    requires
        first_existing(f, path::ancestors_of(p), r),
        !answered(f, p, false),
    ensures
        r == p,
{
    let chain = path::ancestors_of(p);
    assert(chain.len() > 0 && chain[0] == p) by {
        path::lemma_parent_shorter(p);
    }
}

// ---------------------------------------------------------------------------
// Saving
// ---------------------------------------------------------------------------

/// What is stored of a tab.
#[verifier::ext_equal]
pub struct SavedTab {
    pub pane_index: int,
    pub path: Seq<char>,
    pub is_active: bool,
    pub sort_col: Seq<char>,
    pub sort_asc: bool,
    pub col_widths: Seq<char>,
    pub view_mode: Seq<char>,
}

/// What a row tells of a tab.
pub open spec fn row_view(r: TabRow) -> SavedTab {
    SavedTab {
        pane_index: r.pane_index as int,
        path: r.path@,
        is_active: r.is_active_tab,
        sort_col: r.sort_col@,
        sort_asc: r.sort_asc,
        col_widths: r.col_widths@,
        view_mode: r.view_mode@,
    }
}

/// What rows tell of tabs.
pub open spec fn row_views(s: Seq<TabRow>) -> Seq<SavedTab> {
    Seq::new(s.len(), |i: int| row_view(s[i]))
}

/// What is to be stored of a tab.
pub open spec fn saved_tab(t: Tab, pane_index: int, is_active: bool) -> SavedTab {
    SavedTab {
        pane_index,
        path: t.path@,
        is_active,
        sort_col: t.sort_col@,
        sort_asc: t.sort_asc,
        col_widths: t.col_widths@,
        view_mode: t.view_mode.text(),
    }
}

/// What is to be stored of a pane.
pub open spec fn saved_pane(p: Pane, pane_index: int) -> Seq<SavedTab> {
    Seq::new(
        p.tabs@.len(),
        |i: int| saved_tab(p.tabs@[i], pane_index, i == p.active_tab),
    )
}

/// What is to be stored of some panes.
pub open spec fn saved_panes(panes: Seq<Pane>) -> Seq<SavedTab>
    decreases panes.len(),
{
    if panes.len() == 0 {
        Seq::<SavedTab>::empty()
    } else {
        saved_panes(panes.drop_last()) + saved_pane(panes.last(), panes.len() - 1)
    }
}

/// Stores the open tabs and the active pane of a user.
pub fn save_session(db: &mut Database, user_id: i64, panes: &Vec<Pane>, active_pane: usize)
    requires
        old(db).wf(),
    ensures
        final(db).wf(),
        final(db).same_but_sessions(*old(db)),
        final(db).sessions@.contains_key(Some(user_id)),
        row_views(final(db).sessions@[Some(user_id)].tabs@) == saved_panes(panes@),
        final(db).sessions@[Some(user_id)].active_pane == active_pane,
        final(db).sessions@ == old(db).sessions@.insert(
            Some(user_id),
            final(db).sessions@[Some(user_id)],
        ),
{
    let mut rows: Vec<TabRow> = Vec::new();
    let mut i: usize = 0;
    assert(row_views(rows@) =~= saved_panes(panes@.subrange(0, 0)));
    while i < panes.len()
        invariant
            i <= panes@.len(),
            row_views(rows@) == saved_panes(panes@.subrange(0, i as int)),
        decreases panes@.len() - i,
    {
        let ghost before = row_views(rows@);
        let pane = &panes[i];
        let ghost whole = saved_pane(*pane, i as int);
        let mut j: usize = 0;
        assert(before + whole.subrange(0, 0) =~= before);
        while j < pane.tabs.len()
            invariant
                j <= pane.tabs@.len(),
                whole == saved_pane(*pane, i as int),
                row_views(rows@) == before + whole.subrange(0, j as int),
            decreases pane.tabs@.len() - j,
        {
            let tab = &pane.tabs[j];
            let ghost prev = row_views(rows@);
            rows.push(
                TabRow {
                    pane_index: i as u64,
                    path: tab.path.clone(),
                    is_active_tab: j == pane.active_tab,
                    sort_col: tab.sort_col.clone(),
                    sort_asc: tab.sort_asc,
                    col_widths: tab.col_widths.clone(),
                    view_mode: tab.view_mode.as_str().to_owned(),
                },
            );
            assert(row_views(rows@) =~= prev.push(whole[j as int]));
            assert(prev.push(whole[j as int]) =~= before + whole.subrange(0, j + 1));
            j = j + 1;
        }
        assert(whole.subrange(0, j as int) =~= whole);
        assert(panes@.subrange(0, i + 1).drop_last() =~= panes@.subrange(0, i as int));
        i = i + 1;
    }
    assert(panes@.subrange(0, i as int) =~= panes@);
    db.sessions.put(Some(user_id), SavedSession { tabs: rows, active_pane: active_pane as u64 });
}

// ---------------------------------------------------------------------------
// Loading
// ---------------------------------------------------------------------------

/// The panes and the active pane of a stored session.
#[derive(Debug, PartialEq)]
pub struct LoadedSession {
    pub panes: Vec<Pane>,
    pub active_pane: usize,
}

/// The stored tabs of one pane.
pub open spec fn tabs_of_pane(rows: Seq<SavedTab>, pane_index: int) -> Seq<SavedTab>
    decreases rows.len(),
{
    if rows.len() == 0 {
        rows
    } else if rows.last().pane_index == pane_index {
        tabs_of_pane(rows.drop_last(), pane_index).push(rows.last())
    } else {
        tabs_of_pane(rows.drop_last(), pane_index)
    }
}

/// The place of the last active tab, or the first place where no tab is
/// active.
pub open spec fn last_active(rows: Seq<SavedTab>) -> int
    decreases rows.len(),
{
    if rows.len() == 0 {
        0
    } else if rows.last().is_active {
        rows.len() - 1
    } else {
        last_active(rows.drop_last())
    }
}

/// One more than the largest pane index.
pub open spec fn pane_count(rows: Seq<SavedTab>) -> int
    decreases rows.len(),
{
    if rows.len() == 0 {
        0
    } else {
        let n = pane_count(rows.drop_last());
        if rows.last().pane_index >= n {
            rows.last().pane_index + 1
        } else {
            n
        }
    }
}

/// `t` is a fresh tab with the stored settings, in the stored folder or the
/// nearest one above it that exists.
pub open spec fn restores_tab<F: Fn(&String) -> bool>(t: Tab, row: SavedTab, f: F) -> bool {
    &&& t.wf()
    &&& first_existing(f, path::ancestors_of(row.path), t.path@)
    &&& t.sort_col@ == row.sort_col
    &&& t.sort_asc == row.sort_asc
    &&& t.col_widths@ == row.col_widths
    &&& t.view_mode == ViewMode::of_text(row.view_mode)
    &&& t.file_target is None
    &&& t.kind == tab::TabKind::Folder
    &&& t.history_back@.len() == 0
    &&& t.history_forward@.len() == 0
    &&& t.selected@.len() == 0
    &&& t.filter@.len() == 0
    &&& t.listing@.len() == 0
    &&& t.listing_dirty
    &&& t.listing_error is None
    &&& !t.locked
    &&& t.custom_name is None
}

/// `p` shows the stored tabs of a pane, with the last active one active; a
/// pane without stored tabs shows the drive `C:`.
pub open spec fn restores_pane<F: Fn(&String) -> bool>(p: Pane, rows: Seq<SavedTab>, f: F) -> bool {
    if rows.len() == 0 {
        p.fresh("C:\\"@)
    } else {
        &&& p.wf()
        &&& p.tabs@.len() == rows.len()
        &&& forall|i: int| 0 <= i < rows.len() ==> restores_tab(#[trigger] p.tabs@[i], rows[i], f)
        &&& p.active_tab == last_active(rows)
        &&& p.address_bar@ == p.active().path@
        &&& !p.address_edit_mode
    }
}

proof fn lemma_last_active(rows: Seq<SavedTab>)
    requires
        rows.len() > 0,
    ensures
        0 <= last_active(rows) < rows.len(),
    decreases rows.len(),
{
    if rows.len() > 1 {
        lemma_last_active(rows.drop_last());
    } else {
        assert(last_active(rows.drop_last()) == 0);
    }
}

/// Brings one tab back.
fn load_tab<F: Fn(&String) -> bool>(row: &TabRow, on_disk: &F) -> (r: Tab)
    requires
        forall|s: &String| call_requires(*on_disk, (s,)),
    ensures
        restores_tab(r, row_view(*row), *on_disk),
{
    let mut t = Tab::new(nearest_existing_ancestor(row.path.as_str(), on_disk));
    t.sort_col = row.sort_col.clone();
    t.sort_asc = row.sort_asc;
    t.col_widths = row.col_widths.clone();
    t.view_mode = ViewMode::from_str(row.view_mode.as_str());
    t
}

/// Brings one pane back.
fn load_pane<F: Fn(&String) -> bool>(rows: &Vec<TabRow>, pane_index: u64, on_disk: &F) -> (r: Pane)
    requires
        forall|s: &String| call_requires(*on_disk, (s,)),
    ensures
        restores_pane(r, tabs_of_pane(row_views(rows@), pane_index as int), *on_disk),
        r.wf(),
{
    let mut tabs: Vec<Tab> = Vec::new();
    let mut active: usize = 0;
    let mut i: usize = 0;
    let ghost all = row_views(rows@);
    while i < rows.len()
        invariant
            forall|s: &String| call_requires(*on_disk, (s,)),
            i <= rows@.len(),
            all == row_views(rows@),
            ({
                let mine = tabs_of_pane(all.subrange(0, i as int), pane_index as int);
                &&& tabs@.len() == mine.len()
                &&& active == last_active(mine)
                &&& forall|j: int|
                    0 <= j < mine.len() ==> restores_tab(#[trigger] tabs@[j], mine[j], *on_disk)
            }),
        decreases rows@.len() - i,
    {
        let ghost mine = tabs_of_pane(all.subrange(0, i as int), pane_index as int);
        assert(all.subrange(0, i + 1).drop_last() =~= all.subrange(0, i as int));
        assert(all.subrange(0, i + 1).last() == row_view(rows@[i as int]));
        if rows[i].pane_index == pane_index {
            let ghost prev = tabs@;
            tabs.push(load_tab(&rows[i], on_disk));
            proof {
                let now = mine.push(row_view(rows@[i as int]));
                assert forall|j: int| 0 <= j < now.len() implies restores_tab(
                    #[trigger] tabs@[j],
                    now[j],
                    *on_disk,
                ) by {
                    if j < prev.len() {
                        assert(tabs@[j] == prev[j]);
                    }
                }
                assert(now.drop_last() =~= mine);
            }
            if rows[i].is_active_tab {
                active = tabs.len() - 1;
            }
        }
        i = i + 1;
    }
    assert(all.subrange(0, i as int) =~= all);
    if tabs.len() == 0 {
        return Pane::new("C:\\".to_owned());
    }
    proof {
        lemma_last_active(tabs_of_pane(all, pane_index as int));
    }
    let address_bar = tabs[active].path.clone();
    Pane { tabs, active_tab: active, address_bar, address_edit_mode: false }
}

/// The panes of a stored session are few enough to be counted.
pub open spec fn countable(rows: Seq<TabRow>) -> bool {
    forall|i: int| 0 <= i < rows.len() ==> (#[trigger] rows[i]).pane_index < u64::MAX
}

/// `r` is what is stored in `s`: its panes, and the active pane or the last
/// one where there are not so many.
pub open spec fn restores_session<F: Fn(&String) -> bool>(
    r: LoadedSession,
    s: SavedSession,
    f: F,
) -> bool {
    let rows = row_views(s.tabs@);
    &&& r.panes@.len() == pane_count(rows)
    &&& r.panes@.len() > 0
    &&& forall|i: int|
        0 <= i < r.panes@.len() ==> restores_pane(#[trigger] r.panes@[i], tabs_of_pane(rows, i), f)
    &&& forall|i: int| 0 <= i < r.panes@.len() ==> (#[trigger] r.panes@[i]).wf()
    &&& r.active_pane == (if s.active_pane < r.panes@.len() {
        s.active_pane as int
    } else {
        r.panes@.len() - 1
    })
}

/// Brings back the open tabs of a user, where some are stored. Whether a
/// folder still exists is answered by `on_disk`.
pub fn load_session<F: Fn(&String) -> bool>(db: &Database, user_id: i64, on_disk: &F) -> (r: Option<
    LoadedSession,
>)
    requires
        db.wf(),
        db.sessions@.contains_key(Some(user_id)) ==> countable(
            db.sessions@[Some(user_id)].tabs@,
        ),
        forall|s: &String| call_requires(*on_disk, (s,)),
    ensures
        match r {
            None => !db.sessions@.contains_key(Some(user_id)) || db.sessions@[Some(
                user_id,
            )].tabs@.len() == 0,
            Some(l) => db.sessions@.contains_key(Some(user_id)) && db.sessions@[Some(
                user_id,
            )].tabs@.len() > 0 && restores_session(l, db.sessions@[Some(user_id)], *on_disk),
        },
{
    match db.sessions.get(Some(user_id)) {
        None => None,
        Some(saved) => {
            if saved.tabs.len() == 0 {
                return None;
            }
            let ghost all = row_views(saved.tabs@);
            let mut count: u64 = 0;
            let mut i: usize = 0;
            while i < saved.tabs.len()
                invariant
                    i <= saved.tabs@.len(),
                    all == row_views(saved.tabs@),
                    countable(saved.tabs@),
                    count == pane_count(all.subrange(0, i as int)),
                    i > 0 ==> count > 0,
                decreases saved.tabs@.len() - i,
            {
                assert(all.subrange(0, i + 1).drop_last() =~= all.subrange(0, i as int));
                assert(all.subrange(0, i + 1).last() == row_view(saved.tabs@[i as int]));
                if saved.tabs[i].pane_index >= count {
                    count = saved.tabs[i].pane_index + 1;
                }
                i = i + 1;
            }
            assert(all.subrange(0, i as int) =~= all);
            let mut panes: Vec<Pane> = Vec::new();
            let mut k: u64 = 0;
            while k < count
                invariant
                    forall|s: &String| call_requires(*on_disk, (s,)),
                    k <= count,
                    all == row_views(saved.tabs@),
                    panes@.len() == k,
                    forall|j: int|
                        0 <= j < k ==> restores_pane(
                            #[trigger] panes@[j],
                            tabs_of_pane(all, j),
                            *on_disk,
                        ),
                    forall|j: int| 0 <= j < k ==> (#[trigger] panes@[j]).wf(),
                decreases count - k,
            {
                panes.push(load_pane(&saved.tabs, k, on_disk));
                k = k + 1;
            }
            let n: usize = panes.len();
            let active_pane: usize = if saved.active_pane < n as u64 {
                saved.active_pane as usize
            } else {
                n - 1
            };
            Some(LoadedSession { panes, active_pane })
        },
    }
}

// ---------------------------------------------------------------------------
// Saving and loading
// ---------------------------------------------------------------------------

proof fn lemma_tabs_of_pane_append(a: Seq<SavedTab>, b: Seq<SavedTab>, k: int)
    ensures
        tabs_of_pane(a + b, k) == tabs_of_pane(a, k) + tabs_of_pane(b, k),
    decreases b.len(),
{
    if b.len() == 0 {
        assert(a + b =~= a);
        assert(tabs_of_pane(a, k) + b =~= tabs_of_pane(a, k));
    } else {
        lemma_tabs_of_pane_append(a, b.drop_last(), k);
        assert((a + b).drop_last() =~= a + b.drop_last());
        assert(tabs_of_pane(a + b, k) =~= tabs_of_pane(a, k) + tabs_of_pane(b, k));
    }
}

proof fn lemma_tabs_of_one_pane(rows: Seq<SavedTab>, n: int, k: int)
    requires
        forall|i: int| 0 <= i < rows.len() ==> (#[trigger] rows[i]).pane_index == n,
    ensures
        tabs_of_pane(rows, k) == (if k == n {
            rows
        } else {
            Seq::<SavedTab>::empty()
        }),
    decreases rows.len(),
{
    if rows.len() > 0 {
        assert forall|i: int| 0 <= i < rows.drop_last().len() implies (
        #[trigger] rows.drop_last()[i]).pane_index == n by {
            assert(rows.drop_last()[i] == rows[i]);
        }
        lemma_tabs_of_one_pane(rows.drop_last(), n, k);
        assert(rows[rows.len() - 1].pane_index == n);
        assert(rows.drop_last().push(rows.last()) =~= rows);
    } else {
        assert(rows =~= Seq::<SavedTab>::empty());
    }
}

proof fn lemma_saved_panes(panes: Seq<Pane>, k: int)
    requires
        0 <= k < panes.len(),
    ensures
        tabs_of_pane(saved_panes(panes), k) == saved_pane(panes[k], k),
    decreases panes.len(),
{
    let front = panes.drop_last();
    let n = panes.len() - 1;
    lemma_tabs_of_pane_append(saved_panes(front), saved_pane(panes.last(), n), k);
    lemma_tabs_of_one_pane(saved_pane(panes.last(), n), n, k);
    if k < n {
        lemma_saved_panes(front, k);
        assert(saved_pane(panes[k], k) + Seq::<SavedTab>::empty() =~= saved_pane(panes[k], k));
    } else {
        lemma_no_tabs_beyond(front, k);
        assert(Seq::<SavedTab>::empty() + saved_pane(panes[k], k) =~= saved_pane(panes[k], k));
    }
}

proof fn lemma_no_tabs_beyond(panes: Seq<Pane>, k: int)
    requires
        k >= panes.len(),
    ensures
        tabs_of_pane(saved_panes(panes), k) == Seq::<SavedTab>::empty(),
    decreases panes.len(),
{
    if panes.len() > 0 {
        let front = panes.drop_last();
        let n = panes.len() - 1;
        lemma_no_tabs_beyond(front, k);
        lemma_tabs_of_pane_append(saved_panes(front), saved_pane(panes.last(), n), k);
        lemma_tabs_of_one_pane(saved_pane(panes.last(), n), n, k);
        assert(Seq::<SavedTab>::empty() + Seq::<SavedTab>::empty() =~= Seq::<SavedTab>::empty());
    }
}

proof fn lemma_pane_count_append(a: Seq<SavedTab>, b: Seq<SavedTab>, n: int)
    requires
        b.len() > 0,
        forall|i: int| 0 <= i < b.len() ==> (#[trigger] b[i]).pane_index == n,
        pane_count(a) <= n,
    ensures
        pane_count(a + b) == n + 1,
    decreases b.len(),
{
    assert((a + b).drop_last() =~= a + b.drop_last());
    assert((a + b).last() == b[b.len() - 1]);
    if b.len() > 1 {
        assert forall|i: int| 0 <= i < b.drop_last().len() implies (
        #[trigger] b.drop_last()[i]).pane_index == n by {
            assert(b.drop_last()[i] == b[i]);
        }
        lemma_pane_count_append(a, b.drop_last(), n);
    } else {
        assert(a + b.drop_last() =~= a);
    }
}

proof fn lemma_saved_count(panes: Seq<Pane>)
    requires
        forall|i: int| 0 <= i < panes.len() ==> (#[trigger] panes[i]).wf(),
    ensures
        pane_count(saved_panes(panes)) == panes.len(),
    decreases panes.len(),
{
    if panes.len() > 0 {
        let front = panes.drop_last();
        let n = panes.len() - 1;
        assert forall|i: int| 0 <= i < front.len() implies (#[trigger] front[i]).wf() by {
            assert(front[i] == panes[i]);
        }
        lemma_saved_count(front);
        assert(panes[n].wf());
        lemma_pane_count_append(saved_panes(front), saved_pane(panes.last(), n), n);
    }
}

proof fn lemma_saved_active(p: Pane, k: int, upto: int)
    requires
        p.wf(),
        0 < upto <= p.tabs@.len(),
    ensures
        last_active(saved_pane(p, k).subrange(0, upto)) == (if p.active_tab < upto {
            p.active_tab as int
        } else {
            0
        }),
    decreases upto,
{
    let rows = saved_pane(p, k).subrange(0, upto);
    assert(rows.drop_last() =~= saved_pane(p, k).subrange(0, upto - 1));
    assert(rows.last() == saved_pane(p, k)[upto - 1]);
    if upto > 1 {
        lemma_saved_active(p, k, upto - 1);
    } else {
        assert(last_active(rows.drop_last()) == 0);
    }
}

/// A session comes back as it was saved: the same panes with the same tabs,
/// each in its folder and with its sorting, column widths and view mode, the
/// same tab active in each pane, and the same pane active, or the last one where
/// there are not so many.
pub proof fn law_session_round_trips<F: Fn(&String) -> bool>(
    panes: Seq<Pane>,
    active_pane: int,
    saved: SavedSession,
    loaded: LoadedSession,
    f: F,
    k: int,
    i: int,
)
    requires
        forall|j: int| 0 <= j < panes.len() ==> (#[trigger] panes[j]).wf(),
        0 <= active_pane,
        row_views(saved.tabs@) == saved_panes(panes),
        saved.active_pane == active_pane,
        restores_session(loaded, saved, f),
        0 <= k < panes.len(),
        0 <= i < panes[k].tabs@.len(),
        !answered(f, panes[k].tabs@[i].path@, false),
    ensures
        loaded.panes@.len() == panes.len(),
        loaded.active_pane == (if active_pane < panes.len() {
            active_pane
        } else {
            panes.len() - 1
        }),
        loaded.panes@[k].tabs@.len() == panes[k].tabs@.len(),
        loaded.panes@[k].active_tab == panes[k].active_tab,
        loaded.panes@[k].tabs@[i].path@ == panes[k].tabs@[i].path@,
        loaded.panes@[k].tabs@[i].sort_col@ == panes[k].tabs@[i].sort_col@,
        loaded.panes@[k].tabs@[i].sort_asc == panes[k].tabs@[i].sort_asc,
        loaded.panes@[k].tabs@[i].col_widths@ == panes[k].tabs@[i].col_widths@,
        loaded.panes@[k].tabs@[i].view_mode == panes[k].tabs@[i].view_mode,
{
    lemma_saved_panes(panes, k);
    lemma_saved_count(panes);
    let rows = saved_pane(panes[k], k);
    let p = panes[k];
    let n = p.tabs@.len() as int;
    assert(p.wf());
    lemma_saved_active(p, k, n);
    assert(rows.subrange(0, n) =~= rows);
    assert(restores_pane(loaded.panes@[k], rows, f));
    let t = loaded.panes@[k].tabs@[i];
    assert(restores_tab(t, rows[i], f));
    law_existing_folder_is_kept(f, rows[i].path, t.path@);
    tab::law_view_mode_round_trips(p.tabs@[i].view_mode);
}

/// Saving the session of one user leaves those of the others: what they have
/// stored, and that they have stored nothing.
pub proof fn law_other_sessions_stay(before: Database, after: Database, user_id: i64, other: i64)
    requires
        after.sessions@ == before.sessions@.insert(
            Some(user_id),
            after.sessions@[Some(user_id)],
        ),
        other != user_id,
    ensures
        after.sessions@.contains_key(Some(other)) == before.sessions@.contains_key(Some(other)),
        before.sessions@.contains_key(Some(other)) ==> after.sessions@[Some(other)]
            == before.sessions@[Some(other)],
{
}

/// The sessions that are stored can be counted through.
pub open spec fn sessions_countable(db: Database) -> bool {
    forall|u: Option<i64>| #[trigger]
        db.sessions@.contains_key(u) ==> countable(db.sessions@[u].tabs@)
}

proof fn lemma_saved_panes_countable(panes: Seq<Pane>, i: int)
    requires
        0 <= i < saved_panes(panes).len(),
    ensures
        0 <= saved_panes(panes)[i].pane_index < panes.len(),
    decreases panes.len(),
{
    if panes.len() > 0 {
        let before = saved_panes(panes.drop_last());
        if i < before.len() {
            lemma_saved_panes_countable(panes.drop_last(), i);
        }
    }
}

/// Saving a session keeps the stored sessions countable.
pub proof fn law_saved_sessions_are_countable(
    before: Database,
    after: Database,
    user_id: i64,
    panes: Seq<Pane>,
)
    requires
        sessions_countable(before),
        panes.len() < u64::MAX,
        row_views(after.sessions@[Some(user_id)].tabs@) == saved_panes(panes),
        after.sessions@ == before.sessions@.insert(
            Some(user_id),
            after.sessions@[Some(user_id)],
        ),
    ensures
        sessions_countable(after),
{
    assert forall|u: Option<i64>| #[trigger]
        after.sessions@.contains_key(u) implies countable(after.sessions@[u].tabs@) by {
        if u == Some(user_id) {
            let rows = after.sessions@[u].tabs@;
            assert forall|i: int| 0 <= i < rows.len() implies (#[trigger] rows[i]).pane_index
                < u64::MAX by {
                assert(row_views(rows)[i].pane_index == rows[i].pane_index);
                lemma_saved_panes_countable(panes, i);
            }
        }
    }
}

/// A folder that is gone gives way to the nearest one above it that exists: each
/// one between is gone too, and is the one that holds the one before.
pub proof fn law_a_missing_folder_gives_way<F: Fn(&String) -> bool>(
    p: &str,
    on_disk: F,
    r: String,
) -> (chain: Seq<Seq<char>>)
    requires
        call_ensures(nearest_existing_ancestor::<F>, (p, &on_disk), r),
    ensures
        chain.len() > 0,
        chain[0] == p@,
        chain.last() == r@,
        forall|i: int|
            0 <= i < chain.len() - 1 ==> path::parent_of(#[trigger] chain[i]) == Some(chain[i + 1])
                && answered(on_disk, chain[i], false),
        answered(on_disk, r@, true) || path::parent_of(r@) is None,
{
    let all = path::ancestors_of(p@);
    lemma_chain(p@);
    let k = choose|k: int|
        #![trigger all[k]]
        {
            &&& 0 <= k < all.len()
            &&& r@ == all[k]
            &&& forall|j: int| 0 <= j < k ==> answered(on_disk, #[trigger] all[j], false)
            &&& answered(on_disk, all[k], true) || (k == all.len() - 1 && answered(
                on_disk,
                all[k],
                false,
            ))
        };
    let chain = all.subrange(0, k + 1);
    assert forall|i: int| 0 <= i < chain.len() - 1 implies path::parent_of(#[trigger] chain[i])
        == Some(chain[i + 1]) && answered(on_disk, chain[i], false) by {
        assert(chain[i] == all[i] && chain[i + 1] == all[i + 1]);
    }
    chain
}

proof fn lemma_chain(p: Seq<char>)
    ensures
        path::ancestors_of(p).len() > 0,
        path::ancestors_of(p)[0] == p,
        path::parent_of(path::ancestors_of(p).last()) is None,
        forall|k: int|
            0 <= k < path::ancestors_of(p).len() - 1 ==> path::parent_of(
                #[trigger] path::ancestors_of(p)[k],
            ) == Some(path::ancestors_of(p)[k + 1]),
    decreases p.len(),
{
    path::lemma_parent_shorter(p);
    if path::parent_of(p) is Some {
        let q = path::parent_of(p)->0;
        lemma_chain(q);
        let rest = path::ancestors_of(q);
        let all = path::ancestors_of(p);
        assert(all == seq![p] + rest);
        assert(all.last() == rest.last());
        assert forall|k: int| 0 <= k < all.len() - 1 implies path::parent_of(#[trigger] all[k])
            == Some(all[k + 1]) by {
            if k > 0 {
                assert(all[k] == rest[k - 1]);
                assert(all[k + 1] == rest[k]);
            } else {
                assert(all[1] == rest[0]);
            }
        }
    }
}

/// What is stored of a session is loaded again by its user: the same panes with
/// the same tabs in their folders, sorted and laid out as they were, with the
/// same tab active in each pane. Nothing selected, filtered, pinned or named
/// comes back with them.
pub proof fn law_what_is_saved_is_loaded<F: Fn(&String) -> bool>(
    panes: &Vec<Pane>,
    active_pane: usize,
    user: i64,
    on_disk: F,
    k: int,
    i: int,
)
    requires
        forall|j: int| 0 <= j < panes@.len() ==> (#[trigger] panes@[j]).wf(),
        0 <= k < panes@.len(),
        0 <= i < panes@[k].tabs@.len(),
        !answered(on_disk, panes@[k].tabs@[i].path@, false),
    ensures
        forall|db: &mut Database, r: Option<LoadedSession>|
            #![trigger call_ensures(save_session, (db, user, panes, active_pane), ()), call_ensures(load_session::<F>, (&*final(db), user, &on_disk), r)]
            call_ensures(save_session, (db, user, panes, active_pane), ()) && call_ensures(
                load_session::<F>,
                (&*final(db), user, &on_disk),
                r,
            ) ==> {
                &&& r is Some
                &&& r->0.panes@.len() == panes@.len()
                &&& active_pane < panes@.len() ==> r->0.active_pane == active_pane
                &&& r->0.panes@[k].tabs@.len() == panes@[k].tabs@.len()
                &&& r->0.panes@[k].active_tab == panes@[k].active_tab
                &&& r->0.panes@[k].tabs@[i].path@ == panes@[k].tabs@[i].path@
                &&& r->0.panes@[k].tabs@[i].sort_col@ == panes@[k].tabs@[i].sort_col@
                &&& r->0.panes@[k].tabs@[i].sort_asc == panes@[k].tabs@[i].sort_asc
                &&& r->0.panes@[k].tabs@[i].view_mode == panes@[k].tabs@[i].view_mode
                &&& r->0.panes@[k].tabs@[i].col_widths@ == panes@[k].tabs@[i].col_widths@
                &&& r->0.panes@[k].tabs@[i].listing_dirty
                &&& r->0.panes@[k].tabs@[i].selected@.len() == 0
            },
{
    assert forall|db: &mut Database, r: Option<LoadedSession>|
        #![trigger call_ensures(save_session, (db, user, panes, active_pane), ()), call_ensures(load_session::<F>, (&*final(db), user, &on_disk), r)]
        call_ensures(save_session, (db, user, panes, active_pane), ()) && call_ensures(
            load_session::<F>,
            (&*final(db), user, &on_disk),
            r,
        ) implies {
        &&& r is Some
        &&& r->0.panes@.len() == panes@.len()
        &&& active_pane < panes@.len() ==> r->0.active_pane == active_pane
        &&& r->0.panes@[k].tabs@.len() == panes@[k].tabs@.len()
        &&& r->0.panes@[k].active_tab == panes@[k].active_tab
        &&& r->0.panes@[k].tabs@[i].path@ == panes@[k].tabs@[i].path@
        &&& r->0.panes@[k].tabs@[i].sort_col@ == panes@[k].tabs@[i].sort_col@
        &&& r->0.panes@[k].tabs@[i].sort_asc == panes@[k].tabs@[i].sort_asc
        &&& r->0.panes@[k].tabs@[i].view_mode == panes@[k].tabs@[i].view_mode
        &&& r->0.panes@[k].tabs@[i].col_widths@ == panes@[k].tabs@[i].col_widths@
        &&& r->0.panes@[k].tabs@[i].listing_dirty
        &&& r->0.panes@[k].tabs@[i].selected@.len() == 0
    } by {
        let saved = final(db).sessions@[Some(user)];
        lemma_saved_panes(panes@, k);
        assert(row_views(saved.tabs@) == saved_panes(panes@));
        assert(saved_pane(panes@[k], k).len() == panes@[k].tabs@.len());
        if saved.tabs@.len() == 0 {
            assert(saved_panes(panes@).len() == 0);
            assert(tabs_of_pane(saved_panes(panes@), k).len() == 0);
        }
        law_session_round_trips(
            panes@,
            active_pane as int,
            saved,
            r->0,
            on_disk,
            k,
            i,
        );
        assert(restores_pane(
            r->0.panes@[k],
            tabs_of_pane(row_views(saved.tabs@), k),
            on_disk,
        ));
        assert(restores_tab(
            r->0.panes@[k].tabs@[i],
            tabs_of_pane(row_views(saved.tabs@), k)[i],
            on_disk,
        ));
    }
}

} // verus!
