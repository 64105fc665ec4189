//! Dragging files out of the program and dropping files onto its panes: what a
//! drag in progress does, what a drop amounts to, and how a drag has ended.

use crate::text::str_eq;
use crate::text;
use vstd::prelude::*;

verus! {

/// The left mouse button among the key states of a drag.
pub const MK_LBUTTON: u32 = 1;

/// The Shift key among the key states of a drag.
pub const MK_SHIFT: u32 = 4;

/// The effect of a drop that moved what was dropped.
pub const DROPEFFECT_MOVE: u32 = 2;

/// How handing a drag to the operating system ended.
#[derive(Debug, PartialEq, Eq)]
pub enum DragOutOutcome {
    /// Some application took the files, as a move or as a copy.
    Dropped { moved: bool },
    /// The drag was given up.
    Cancelled,
    /// The drag could not be carried out.
    Failed(String),
}

/// A drop that was accepted and has yet to be carried out.
#[derive(Debug, PartialEq, Eq)]
pub struct PendingDrop {
    pub paths: Vec<String>,
    pub pane: usize,
    /// The tab onto whose header the files were dropped.
    pub tab: Option<usize>,
    pub is_move: bool,
}

/// What the operating system reports of a drag.
#[derive(Debug, PartialEq, Eq)]
pub enum DragReport {
    /// None of the files could be resolved.
    Unresolved,
    /// The data to be dragged could not be put together.
    SetupFailed(String),
    /// The drag itself failed.
    DragFailed(String),
    /// The drag ended with these effects; none where it was given up.
    Ended(u32),
}

/// The outcome that a report stands for.
pub open spec fn outcome_matches(report: DragReport, r: DragOutOutcome) -> bool {
    match report {
        DragReport::Unresolved => r matches DragOutOutcome::Failed(m) && m@
            == "Could not resolve the dragged file(s)"@,
        DragReport::SetupFailed(e) => r matches DragOutOutcome::Failed(m) && m@
            == "Drag setup failed: "@ + e@,
        DragReport::DragFailed(e) => r matches DragOutOutcome::Failed(m) && m@ == "Drag failed: "@
            + e@,
        DragReport::Ended(effect) => r == (if effect == 0 {
            DragOutOutcome::Cancelled
        } else {
            DragOutOutcome::Dropped { moved: effect & DROPEFFECT_MOVE == DROPEFFECT_MOVE }
        }),
    }
}

/// How a drag out of the program ended.
pub fn start_drag_out(report: DragReport) -> (r: DragOutOutcome)
    ensures
        outcome_matches(report, r),
{
    match report {
        DragReport::Unresolved => DragOutOutcome::Failed(
            "Could not resolve the dragged file(s)".to_owned(),
        ),
        DragReport::SetupFailed(e) => {
            let mut m = "Drag setup failed: ".to_owned();
            m.append(e.as_str());
            DragOutOutcome::Failed(m)
        },
        DragReport::DragFailed(e) => {
            let mut m = "Drag failed: ".to_owned();
            m.append(e.as_str());
            DragOutOutcome::Failed(m)
        },
        DragReport::Ended(effect) => if effect == 0 {
            DragOutOutcome::Cancelled
        } else {
            DragOutOutcome::Dropped { moved: effect & DROPEFFECT_MOVE == DROPEFFECT_MOVE }
        },
    }
}

/// Whether a drag goes on.
#[derive(Debug, Clone, Copy, PartialEq, Eq, Structural)]
pub enum DragStep {
    Continue,
    Drop,
    Cancel,
}

/// What a drag in progress does: Escape gives it up, and letting go of the left
/// button drops the files.
pub fn query_continue_drag(escape_pressed: bool, keys: u32) -> (r: DragStep)
    ensures
        r == (if escape_pressed {
            DragStep::Cancel
        } else if keys & MK_LBUTTON == 0 {
            DragStep::Drop
        } else {
            DragStep::Continue
        }),
{
    if escape_pressed {
        DragStep::Cancel
    } else if keys & MK_LBUTTON == 0 {
        DragStep::Drop
    } else {
        DragStep::Continue
    }
}

/// What dropping at a place would do.
#[derive(Debug, Clone, Copy, PartialEq, Eq, Structural)]
pub enum DropEffect {
    Refuse,
    Copy,
    Move,
}

/// Where a drop would land: a pane, and the tab whose header is under the
/// pointer.
#[derive(Debug, Clone, Copy, PartialEq, Eq, Structural)]
pub struct DropTarget {
    pub pane: usize,
    pub tab: Option<usize>,
}

/// The header of a tab, and whether the pointer is on it.
#[derive(Debug, Clone, Copy, PartialEq, Eq, Structural)]
pub struct TabHit {
    pub pane: usize,
    pub tab: usize,
    pub hit: bool,
}

/// The first place at or after `from` whose header is hit, or their number.
pub open spec fn first_tab_hit(tabs: Seq<TabHit>, from: int) -> int
    decreases tabs.len() - from,
{
    if from >= tabs.len() || tabs[from].hit {
        from
    } else {
        first_tab_hit(tabs, from + 1)
    }
}

/// The first place at or after `from` that is hit, or their number.
pub open spec fn first_pane_hit(panes: Seq<bool>, from: int) -> int
    decreases panes.len() - from,
{
    if from >= panes.len() || panes[from] {
        from
    } else {
        first_pane_hit(panes, from + 1)
    }
}

/// What lies under the pointer: the headers of tabs go before the panes.
pub fn hit_test(tabs: &Vec<TabHit>, panes: &Vec<bool>) -> (r: Option<DropTarget>)
    ensures
        r == ({
            let t = first_tab_hit(tabs@, 0);
            let p = first_pane_hit(panes@, 0);
            if t < tabs@.len() {
                Some(DropTarget { pane: tabs@[t].pane, tab: Some(tabs@[t].tab) })
            } else if p < panes@.len() {
                Some(DropTarget { pane: p as usize, tab: None })
            } else {
                None
            }
        }),
{
    let mut i: usize = 0;
    while i < tabs.len()
        invariant
            i <= tabs.len(),
            first_tab_hit(tabs@, 0) == first_tab_hit(tabs@, i as int),
        decreases tabs.len() - i,
    {
        if tabs[i].hit {
            return Some(DropTarget { pane: tabs[i].pane, tab: Some(tabs[i].tab) });
        }
        i = i + 1;
    }
    let mut k: usize = 0;
    while k < panes.len()
        invariant
            k <= panes.len(),
            first_tab_hit(tabs@, 0) == tabs@.len(),
            first_pane_hit(panes@, 0) == first_pane_hit(panes@, k as int),
        decreases panes.len() - k,
    {
        if panes[k] {
            return Some(DropTarget { pane: k, tab: None });
        }
        k = k + 1;
    }
    None
}

/// What a drop at `target` does: files that were dragged out of the program
/// itself are moved while Shift is held, all others are copied.
pub open spec fn effect_at(target: Option<DropTarget>, own_drag: bool, keys: u32) -> DropEffect {
    if target is None {
        DropEffect::Refuse
    } else if own_drag && keys & MK_SHIFT != 0 {
        DropEffect::Move
    } else {
        DropEffect::Copy
    }
}

/// What the pointer shows while files are dragged over `target`.
pub fn drag_over(target: Option<DropTarget>, own_drag: bool, keys: u32) -> (r: DropEffect)
    ensures
        r == effect_at(target, own_drag, keys),
{
    match target {
        None => DropEffect::Refuse,
        Some(_) => if own_drag && keys & MK_SHIFT != 0 {
            DropEffect::Move
        } else {
            DropEffect::Copy
        },
    }
}

/// The texts of `names` that are not empty.
pub open spec fn nonempty(names: Seq<Seq<char>>) -> Seq<Seq<char>>
    decreases names.len(),
{
    if names.len() == 0 {
        Seq::empty()
    } else {
        let before = nonempty(names.drop_last());
        if names.last().len() == 0 {
            before
        } else {
            before.push(names.last())
        }
    }
}

/// The paths that dropped data holds: all but the empty ones.
pub fn extract_paths(names: Vec<String>) -> (r: Vec<String>)
    ensures
        text::texts(r@) == nonempty(text::texts(names@)),
{
    let ghost all = text::texts(names@);
    let mut r: Vec<String> = Vec::new();
    assert(text::texts(r@) =~= nonempty(all.subrange(0, 0)));
    for name in it: names
        invariant
            it.seq() == names@,
            all == text::texts(names@),
            text::texts(r@) == nonempty(all.subrange(0, it.index() as int)),
    {
        let ghost i = it.index() as int;
        proof {
            let upto = all.subrange(0, i + 1);
            assert(upto.drop_last() =~= all.subrange(0, i));
            assert(upto.last() == name@);
        }
        if !str_eq(name.as_str(), "") {
            let ghost was = text::texts(r@);
            let ghost added = name@;
            proof {
                reveal_strlit("");
                assert(added.len() > 0) by {
                    if added.len() == 0 {
                        assert(added =~= ""@);
                    }
                }
            }
            r.push(name);
            assert(text::texts(r@) =~= was.push(added));
        } else {
            proof {
                reveal_strlit("");
            }
        }
    }
    assert(all.subrange(0, all.len() as int) =~= all);
    r
}

/// Takes a drop of `paths` at `target`: a drop outside the panes, or of
/// nothing, is refused.
pub fn accept_drop(
    target: Option<DropTarget>,
    paths: Vec<String>,
    own_drag: bool,
    keys: u32,
) -> (r: (DropEffect, Option<PendingDrop>))
    ensures
        paths@.len() == 0 || target is None ==> r.0 == DropEffect::Refuse && r.1 is None,
        paths@.len() > 0 && target is Some ==> r.0 == effect_at(target, own_drag, keys) && r.1
            == Some(
            PendingDrop {
                paths,
                pane: target->0.pane,
                tab: target->0.tab,
                is_move: r.0 == DropEffect::Move,
            },
        ),
{
    match target {
        None => (DropEffect::Refuse, None),
        Some(t) => {
            if paths.len() == 0 {
                return (DropEffect::Refuse, None);
            }
            let effect = drag_over(target, own_drag, keys);
            let is_move: bool = match effect {
                DropEffect::Move => true,
                _ => false,
            };
            (effect, Some(PendingDrop { paths, pane: t.pane, tab: t.tab, is_move }))
        },
    }
}

/// Files of other applications are never moved.
pub proof fn law_foreign_files_are_never_moved(target: Option<DropTarget>, keys: u32)
    ensures
        effect_at(target, false, keys) != DropEffect::Move,
{
}

proof fn lemma_first_tab_hit(tabs: Seq<TabHit>, from: int)
    requires
        0 <= from <= tabs.len(),
    ensures
        from <= first_tab_hit(tabs, from) <= tabs.len(),
        first_tab_hit(tabs, from) < tabs.len() ==> tabs[first_tab_hit(tabs, from)].hit,
        forall|j: int| from <= j < first_tab_hit(tabs, from) ==> !(#[trigger] tabs[j]).hit,
    decreases tabs.len() - from,
{
    if from < tabs.len() && !tabs[from].hit {
        lemma_first_tab_hit(tabs, from + 1);
    }
}

proof fn lemma_first_pane_hit(panes: Seq<bool>, from: int)
    requires
        0 <= from <= panes.len(),
    ensures
        from <= first_pane_hit(panes, from) <= panes.len(),
        first_pane_hit(panes, from) < panes.len() ==> panes[first_pane_hit(panes, from)],
        forall|j: int| from <= j < first_pane_hit(panes, from) ==> !(#[trigger] panes[j]),
    decreases panes.len() - from,
{
    if from < panes.len() && !panes[from] {
        lemma_first_pane_hit(panes, from + 1);
    }
}

/// Files land on what is under the pointer: on a tab where the pointer is on a
/// header, else on the pane that it is over, and nowhere where it is over none.
pub proof fn law_drops_land_under_the_pointer(
    tabs: &Vec<TabHit>,
    panes: &Vec<bool>,
    r: Option<DropTarget>,
)
    requires
        call_ensures(hit_test, (tabs, panes), r),
    ensures
        r is Some && r->0.tab is Some ==> exists|i: int|
            {
                &&& 0 <= i < tabs@.len() && (#[trigger] tabs@[i]).hit
                &&& r->0.pane == tabs@[i].pane && r->0.tab == Some(tabs@[i].tab)
                &&& forall|j: int| 0 <= j < i ==> !(#[trigger] tabs@[j]).hit
            },
        r is Some && r->0.tab is None ==> {
            &&& forall|j: int| 0 <= j < tabs@.len() ==> !(#[trigger] tabs@[j]).hit
            &&& r->0.pane < panes@.len() && panes@[r->0.pane as int]
            &&& forall|j: int| 0 <= j < r->0.pane ==> !(#[trigger] panes@[j])
        },
        r is None ==> {
            &&& forall|j: int| 0 <= j < tabs@.len() ==> !(#[trigger] tabs@[j]).hit
            &&& forall|j: int| 0 <= j < panes@.len() ==> !(#[trigger] panes@[j])
        },
{
    lemma_first_tab_hit(tabs@, 0);
    lemma_first_pane_hit(panes@, 0);
    assert(panes@.len() == panes.len());
}

/// Whether a drop moves is up to the Shift key and to where the files come from
/// alone: a drop inside the program with Shift held moves, every other drop
/// copies, and what is dropped outside the panes is refused.
pub proof fn law_shift_moves_own_files(
    at: Option<DropTarget>,
    own_drag: bool,
    keys: u32,
    r: DropEffect,
)
    requires
        call_ensures(drag_over, (at, own_drag, keys), r),
    ensures
        r == DropEffect::Refuse <==> at is None,
        r == DropEffect::Move <==> at is Some && own_drag && keys & 4 != 0,
{
}

/// What is dropped on a target is taken whole, to that target, and it is moved
/// just where the pointer said so.
pub proof fn law_drops_are_taken_whole(
    at: Option<DropTarget>,
    paths: Vec<String>,
    own_drag: bool,
    keys: u32,
    shown: DropEffect,
    r: (DropEffect, Option<PendingDrop>),
)
    requires
        call_ensures(drag_over, (at, own_drag, keys), shown),
        call_ensures(accept_drop, (at, paths, own_drag, keys), r),
    ensures
        r.1 is Some <==> at is Some && paths@.len() > 0,
        r.1 matches Some(d) ==> {
            &&& r.0 == shown
            &&& d.paths@ == paths@
            &&& d.pane == at->0.pane && d.tab == at->0.tab
            &&& d.is_move == (shown == DropEffect::Move)
        },
        r.1 is None ==> r.0 == DropEffect::Refuse,
{
}

proof fn lemma_nonempty(names: Seq<Seq<char>>, p: spec_fn(Seq<char>) -> bool)
    requires
        forall|n: Seq<char>| #[trigger] p(n) == (n.len() > 0),
    ensures
        nonempty(names) == names.filter(p),
    decreases names.len(),
{
    reveal(Seq::filter);
    if names.len() > 0 {
        lemma_nonempty(names.drop_last(), p);
    }
}

/// Of what dropped data names, only the empty names are left out.
pub proof fn law_every_dropped_path_counts(names: Vec<String>, r: Vec<String>)
    requires
        call_ensures(extract_paths, (names,), r),
    ensures
        text::texts(r@) == text::texts(names@).filter(|n: Seq<char>| n.len() > 0),
{
    lemma_nonempty(text::texts(names@), |n: Seq<char>| n.len() > 0);
}

/// A drag goes on while the left button is held and Escape is not pressed,
/// whatever other keys are held.
pub proof fn law_a_drag_goes_on_while_held(escape: bool, keys: u32, r: DragStep)
    requires
        call_ensures(query_continue_drag, (escape, keys), r),
    ensures
        r == DragStep::Continue <==> !escape && keys & 1 != 0,
        r == DragStep::Cancel <==> escape,
{
}

/// A drag out of the program was a move just where the target says that it
/// moved the files, and came to nothing just where it says that it did nothing.
pub proof fn law_the_target_tells_of_a_move(effect: u32, r: DragOutOutcome)
    requires
        call_ensures(start_drag_out, (DragReport::Ended(effect),), r),
    ensures
        r == DragOutOutcome::Cancelled <==> effect == 0,
        r is Dropped <==> effect != 0,
        r matches DragOutOutcome::Dropped { moved } ==> moved == (effect & 2 == 2),
{
}

} // verus!
