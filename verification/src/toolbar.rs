//! The toolbar: its buttons, the editing of its layout, and the list of recent
//! items.

use crate::actions::{Action, ActionRef};
use crate::db::RecentItem;
use crate::db;
use vstd::prelude::*;

verus! {

// ---------------------------------------------------------------------------
// Buttons
// ---------------------------------------------------------------------------

/// A button of the toolbar.
#[derive(Debug, Clone, Copy, PartialEq, Eq)]
pub struct ButtonText {
    pub label: &'static str,
    pub hover: &'static str,
}

/// Label and hover text of the button for an action; the two actions on
/// archives have none.
pub open spec fn button_texts(a: Action, is_fav: bool) -> Option<(Seq<char>, Seq<char>)> {
    match a {
        Action::Copy => Some(("📋 Copy"@, "Copy selection (Ctrl+C)"@)),
        Action::Cut => Some(("Cut"@, "Cut selection (Ctrl+X)"@)),
        Action::Paste => Some(("Paste"@, "Paste clipboard (Ctrl+V)"@)),
        Action::Delete => Some(("🗑 Delete"@, "Send selection to Recycle Bin"@)),
        Action::Rename => Some(("Rename"@, "Rename the selected item"@)),
        Action::CopyFilename => Some(
            ("Copy Filename"@, "Copy full path of selected file (Ctrl+Shift+C)"@),
        ),
        Action::CopyFolderPath => Some(("Copy Folder Path"@, "Copy current folder path"@)),
        Action::ToggleFavourite => if is_fav {
            Some(("★ Un favourite"@, "Toggle favourite for current folder"@))
        } else {
            Some(("☆ Add to Favourites"@, "Toggle favourite for current folder"@))
        },
        Action::Find => Some(("🔍 Find"@, "Find files in current folder (Ctrl+F)"@)),
        Action::NewFolder => Some(("🗀 New Folder"@, "Create a new folder here"@)),
        Action::NewFile => Some(("🗋 New File"@, "Create a new file here"@)),
        Action::GoBack => Some(("⬅ Back"@, "Go back"@)),
        Action::GoForward => Some(("➡ Forward"@, "Go forward"@)),
        Action::GoUp => Some(("⬆ Up"@, "Go up one folder"@)),
        Action::NewTab => Some(("+ Tab"@, "Open a new tab"@)),
        Action::CloseTab => Some(("Close Tab"@, "Close the active tab"@)),
        Action::Refresh => Some(("🔄 Refresh"@, "Reload the current folder (F5)"@)),
        Action::ToggleSettings => Some(("⚙ Settings"@, "Preferences"@)),
        Action::SelectAll => Some(("Select All"@, "Select all items in the view (Ctrl+A)"@)),
        Action::ExtractHere => None,
        Action::ExtractTo => None,
    }
}

/// The button for an action. The label of the favourite button flips on whether
/// the current folder is a favourite.
pub fn button_text(a: Action, is_fav: bool) -> (r: Option<ButtonText>)
    ensures
        match r {
            Some(b) => button_texts(a, is_fav) == Some((b.label@, b.hover@)),
            None => button_texts(a, is_fav) is None,
        },
{
    match a {
        Action::Copy => Some(ButtonText { label: "📋 Copy", hover: "Copy selection (Ctrl+C)" }),
        Action::Cut => Some(ButtonText { label: "Cut", hover: "Cut selection (Ctrl+X)" }),
        Action::Paste => Some(ButtonText { label: "Paste", hover: "Paste clipboard (Ctrl+V)" }),
        Action::Delete => Some(
            ButtonText { label: "🗑 Delete", hover: "Send selection to Recycle Bin" },
        ),
        Action::Rename => Some(ButtonText { label: "Rename", hover: "Rename the selected item" }),
        Action::CopyFilename => Some(
            ButtonText {
                label: "Copy Filename",
                hover: "Copy full path of selected file (Ctrl+Shift+C)",
            },
        ),
        Action::CopyFolderPath => Some(
            ButtonText { label: "Copy Folder Path", hover: "Copy current folder path" },
        ),
        Action::ToggleFavourite => if is_fav {
            Some(
                ButtonText {
                    label: "★ Un favourite",
                    hover: "Toggle favourite for current folder",
                },
            )
        } else {
            Some(
                ButtonText {
                    label: "☆ Add to Favourites",
                    hover: "Toggle favourite for current folder",
                },
            )
        },
        Action::Find => Some(
            ButtonText { label: "🔍 Find", hover: "Find files in current folder (Ctrl+F)" },
        ),
        Action::NewFolder => Some(
            ButtonText { label: "🗀 New Folder", hover: "Create a new folder here" },
        ),
        Action::NewFile => Some(
            ButtonText { label: "🗋 New File", hover: "Create a new file here" },
        ),
        Action::GoBack => Some(ButtonText { label: "⬅ Back", hover: "Go back" }),
        Action::GoForward => Some(ButtonText { label: "➡ Forward", hover: "Go forward" }),
        Action::GoUp => Some(ButtonText { label: "⬆ Up", hover: "Go up one folder" }),
        Action::NewTab => Some(ButtonText { label: "+ Tab", hover: "Open a new tab" }),
        Action::CloseTab => Some(ButtonText { label: "Close Tab", hover: "Close the active tab" }),
        Action::Refresh => Some(
            ButtonText { label: "🔄 Refresh", hover: "Reload the current folder (F5)" },
        ),
        Action::ToggleSettings => Some(ButtonText { label: "⚙ Settings", hover: "Preferences" }),
        Action::SelectAll => Some(
            ButtonText { label: "Select All", hover: "Select all items in the view (Ctrl+A)" },
        ),
        Action::ExtractHere => None,
        Action::ExtractTo => None,
    }
}

// ---------------------------------------------------------------------------
// Editing the layout
// ---------------------------------------------------------------------------

/// The layout with the buttons at `i` and `j` exchanged.
pub open spec fn exchanged(layout: Seq<ActionRef>, i: int, j: int) -> Seq<ActionRef> {
    layout.update(i, layout[j]).update(j, layout[i])
}

/// Moves the button at place `i` one place forward. The first stays. Returns
/// whether the layout changed.
pub fn move_up(layout: &mut Vec<ActionRef>, i: usize) -> (r: bool)
    ensures
        r == (0 < i < old(layout)@.len()),
        final(layout)@ == (if r {
            exchanged(old(layout)@, i as int, i - 1)
        } else {
            old(layout)@
        }),
{
    if i == 0 || i >= layout.len() {
        return false;
    }
    let a: ActionRef = layout[i];
    let b: ActionRef = layout[i - 1];
    layout.set(i, b);
    layout.set(i - 1, a);
    true
}

/// Moves the button at place `i` one place back. The last stays. Returns whether
/// the layout changed.
pub fn move_down(layout: &mut Vec<ActionRef>, i: usize) -> (r: bool)
    ensures
        r == (i + 1 < old(layout)@.len()),
        final(layout)@ == (if r {
            exchanged(old(layout)@, i as int, i + 1)
        } else {
            old(layout)@
        }),
{
    if layout.len() == 0 || i >= layout.len() - 1 {
        return false;
    }
    let a: ActionRef = layout[i];
    let b: ActionRef = layout[i + 1];
    layout.set(i, b);
    layout.set(i + 1, a);
    true
}

/// The layout without the button for `a`.
pub open spec fn without(layout: Seq<ActionRef>, a: ActionRef) -> Seq<ActionRef>
    decreases layout.len(),
{
    if layout.len() == 0 {
        layout
    } else {
        let before = without(layout.drop_last(), a);
        if layout.last() == a {
            before
        } else {
            before.push(layout.last())
        }
    }
}

/// Takes the button for `a` off the toolbar.
pub fn remove_button(layout: &mut Vec<ActionRef>, a: ActionRef)
    ensures
        final(layout)@ == without(old(layout)@, a),
{
    let ghost all = layout@;
    let mut kept: Vec<ActionRef> = Vec::new();
    let mut i: usize = 0;
    assert(all.subrange(0, 0) =~= Seq::<ActionRef>::empty());
    assert(kept@ =~= without(all.subrange(0, 0), a));
    while i < layout.len()
        invariant
            i <= layout.len(),
            layout@ == all,
            kept@ == without(all.subrange(0, i as int), a),
        decreases layout.len() - i,
    {
        proof {
            let upto = all.subrange(0, i + 1);
            assert(upto.drop_last() =~= all.subrange(0, i as int));
            assert(upto.last() == all[i as int]);
        }
        let x: ActionRef = layout[i];
        if x != a {
            kept.push(x);
        }
        i = i + 1;
    }
    assert(all.subrange(0, all.len() as int) =~= all);
    *layout = kept;
}

/// Whether `layout` has a button for `a`.
fn has_button(layout: &Vec<ActionRef>, a: ActionRef) -> (r: bool)
    ensures
        r == layout@.contains(a),
{
    let mut i: usize = 0;
    while i < layout.len()
        invariant
            i <= layout.len(),
            forall|j: int| 0 <= j < i ==> #[trigger] layout@[j] != a,
        decreases layout.len() - i,
    {
        let x: ActionRef = layout[i];
        if x == a {
            return true;
        }
        i = i + 1;
    }
    false
}

/// The built-in actions of `all` without a button, in order.
pub open spec fn offered(all: Seq<Action>, layout: Seq<ActionRef>) -> Seq<ActionRef>
    decreases all.len(),
{
    if all.len() == 0 {
        Seq::empty()
    } else {
        let before = offered(all.drop_last(), layout);
        let a = ActionRef::Builtin(all.last());
        if layout.contains(a) {
            before
        } else {
            before.push(a)
        }
    }
}

/// The buttons that can be added to the toolbar.
pub fn available_buttons(layout: &Vec<ActionRef>) -> (r: Vec<ActionRef>)
    ensures
        r@ == offered(Action::ALL@, layout@),
{
    let all: [Action; 21] = Action::ALL;
    let ghost seq = all@;
    let mut r: Vec<ActionRef> = Vec::new();
    let mut i: usize = 0;
    assert(seq.subrange(0, 0) =~= Seq::<Action>::empty());
    while i < 21
        invariant
            i <= 21,
            all@ == seq,
            seq == Action::ALL@,
            seq.len() == 21,
            r@ == offered(seq.subrange(0, i as int), layout@),
        decreases 21 - i,
    {
        proof {
            let upto = seq.subrange(0, i + 1);
            assert(upto.drop_last() =~= seq.subrange(0, i as int));
            assert(upto.last() == seq[i as int]);
        }
        let a = ActionRef::Builtin(all[i]);
        if !has_button(layout, a) {
            r.push(a);
        }
        i = i + 1;
    }
    assert(seq.subrange(0, 21) =~= seq);
    r
}

/// Moving a button up and then down again restores the layout.
pub proof fn law_down_undoes_up(layout: Seq<ActionRef>, i: int)
    requires
        0 < i < layout.len(),
    ensures
        exchanged(exchanged(layout, i, i - 1), i - 1, i) == layout,
{
    assert(exchanged(exchanged(layout, i, i - 1), i - 1, i) =~= layout);
}

/// A button that is taken off the toolbar is gone, and the others stay.
pub proof fn law_removed_buttons_are_gone(layout: Seq<ActionRef>, a: ActionRef)
    ensures
        !without(layout, a).contains(a),
        forall|b: ActionRef| b != a && layout.contains(b) ==> without(layout, a).contains(b),
    decreases layout.len(),
{
    if layout.len() > 0 {
        let front = layout.drop_last();
        law_removed_buttons_are_gone(front, a);
        let before = without(front, a);
        let all = without(layout, a);
        if all.contains(a) {
            let k = choose|k: int| 0 <= k < all.len() && all[k] == a;
            if k < before.len() {
                assert(before[k] == a);
            }
        }
        assert forall|b: ActionRef| b != a && layout.contains(b) implies all.contains(b) by {
            let k = choose|k: int| 0 <= k < layout.len() && layout[k] == b;
            if k < front.len() {
                assert(front[k] == b);
                assert(front.contains(b));
                let j = choose|j: int| 0 <= j < before.len() && before[j] == b;
                assert(all[j] == b);
            } else {
                assert(all[all.len() - 1] == b);
            }
        }
    }
}

/// Every built-in action is either on the toolbar or offered for it, and never
/// both.
pub proof fn law_every_action_is_reachable(all: Seq<Action>, layout: Seq<ActionRef>, a: Action)
    requires
        all.contains(a),
    ensures
        layout.contains(ActionRef::Builtin(a)) != offered(all, layout).contains(
            ActionRef::Builtin(a),
        ),
    decreases all.len(),
{
    lemma_offered(all, layout);
    let x = ActionRef::Builtin(a);
    let o = offered(all, layout);
    if o.contains(x) {
        let k = choose|k: int| 0 <= k < o.len() && o[k] == x;
    } else if !layout.contains(x) {
        let k = choose|k: int| 0 <= k < all.len() && all[k] == a;
        assert(o.contains(ActionRef::Builtin(all[k])));
    }
}

proof fn lemma_offered(all: Seq<Action>, layout: Seq<ActionRef>)
    ensures
        forall|k: int|
            0 <= k < offered(all, layout).len() ==> !layout.contains(
                #[trigger] offered(all, layout)[k],
            ),
        forall|k: int|
            0 <= k < all.len() && !layout.contains(ActionRef::Builtin(#[trigger] all[k]))
                ==> offered(all, layout).contains(ActionRef::Builtin(all[k])),
    decreases all.len(),
{
    if all.len() > 0 {
        let front = all.drop_last();
        lemma_offered(front, layout);
        let before = offered(front, layout);
        let o = offered(all, layout);
        assert forall|k: int| 0 <= k < o.len() implies !layout.contains(#[trigger] o[k]) by {
            if k < before.len() {
                assert(o[k] == before[k]);
            }
        }
        assert forall|k: int|
            0 <= k < all.len() && !layout.contains(
                ActionRef::Builtin(#[trigger] all[k]),
            ) implies o.contains(ActionRef::Builtin(all[k])) by {
            if k < front.len() {
                assert(front[k] == all[k]);
                let j = choose|j: int|
                    0 <= j < before.len() && before[j] == ActionRef::Builtin(all[k]);
                assert(o[j] == ActionRef::Builtin(all[k]));
            } else {
                assert(o[o.len() - 1] == ActionRef::Builtin(all[k]));
            }
        }
    }
}

// ---------------------------------------------------------------------------
// Recent items
// ---------------------------------------------------------------------------

/// The number of recent folders, and of recent files, that are offered.
pub const RECENT_SHOWN: usize = 15;

/// The items among `items` that are folders, or files, in order.
pub open spec fn of_sort(
    items: Seq<(Seq<char>, bool, Seq<char>)>,
    dirs: bool,
) -> Seq<(Seq<char>, bool, Seq<char>)>
    decreases items.len(),
{
    if items.len() == 0 {
        items
    } else {
        let before = of_sort(items.drop_last(), dirs);
        if items.last().1 == dirs {
            before.push(items.last())
        } else {
            before
        }
    }
}

/// The first of `items`, at most as many as are offered.
pub open spec fn first_shown(
    items: Seq<(Seq<char>, bool, Seq<char>)>,
) -> Seq<(Seq<char>, bool, Seq<char>)> {
    if items.len() > RECENT_SHOWN {
        items.subrange(0, RECENT_SHOWN as int)
    } else {
        items
    }
}

/// The recent folders, or the recent files, that are offered: the latest ones.
pub fn recent_shown(items: &Vec<RecentItem>, dirs: bool) -> (r: Vec<RecentItem>)
    ensures
        db::recent_views(r@) == first_shown(of_sort(db::recent_views(items@), dirs)),
{
    let mut r: Vec<RecentItem> = Vec::new();
    let mut i: usize = 0;
    let ghost all = db::recent_views(items@);
    assert(all.subrange(0, 0) =~= Seq::<(Seq<char>, bool, Seq<char>)>::empty());
    assert(db::recent_views(r@) =~= Seq::<(Seq<char>, bool, Seq<char>)>::empty());
    while i < items.len()
        invariant
            i <= items.len(),
            all == db::recent_views(items@),
            db::recent_views(r@) == of_sort(all.subrange(0, i as int), dirs),
        decreases items.len() - i,
    {
        proof {
            let upto = all.subrange(0, i + 1);
            assert(upto.drop_last() =~= all.subrange(0, i as int));
            assert(upto.last() == db::recent_view(items@[i as int]));
        }
        if items[i].is_dir == dirs {
            let ghost was = db::recent_views(r@);
            r.push(items[i].clone());
            assert(db::recent_views(r@) =~= was.push(db::recent_view(items@[i as int])));
        }
        i = i + 1;
    }
    assert(all.subrange(0, all.len() as int) =~= all);
    let ghost full = db::recent_views(r@);
    if r.len() > RECENT_SHOWN {
        r.truncate(RECENT_SHOWN);
        assert(db::recent_views(r@) =~= full.subrange(0, RECENT_SHOWN as int));
    }
    r
}

// ---------------------------------------------------------------------------
// What editing does
// ---------------------------------------------------------------------------

pub(crate) proof fn lemma_without(layout: Seq<ActionRef>, a: ActionRef, p: spec_fn(ActionRef) -> bool)
    requires
        forall|b: ActionRef| #[trigger] p(b) == (b != a),
    ensures
        without(layout, a) == layout.filter(p),
    decreases layout.len(),
{
    reveal(Seq::filter);
    if layout.len() > 0 {
        lemma_without(layout.drop_last(), a, p);
    }
}

/// Moving a button exchanges it with its neighbour and touches no other; the
/// first cannot go up nor the last down. Removing one leaves all others in their
/// order. What can be added is every action without a button.
pub proof fn law_buttons_move_by_one()
    ensures
        forall|layout: &mut Vec<ActionRef>, i: usize, r: bool, k: int|
            #![trigger call_ensures(move_up, (layout, i), r), final(layout)@[k]]
            call_ensures(move_up, (layout, i), r) ==> {
                &&& r <==> 0 < i < layout@.len()
                &&& final(layout)@.len() == layout@.len()
                &&& 0 <= k < layout@.len() ==> final(layout)@[k] == (if r && k == i {
                    layout@[i - 1]
                } else if r && k == i - 1 {
                    layout@[i as int]
                } else {
                    layout@[k]
                })
            },
        forall|layout: &mut Vec<ActionRef>, i: usize, r: bool, k: int|
            #![trigger call_ensures(move_down, (layout, i), r), final(layout)@[k]]
            call_ensures(move_down, (layout, i), r) ==> {
                &&& r <==> i + 1 < layout@.len()
                &&& final(layout)@.len() == layout@.len()
                &&& 0 <= k < layout@.len() ==> final(layout)@[k] == (if r && k == i {
                    layout@[i + 1]
                } else if r && k == i + 1 {
                    layout@[i as int]
                } else {
                    layout@[k]
                })
            },
        forall|layout: &mut Vec<ActionRef>, a: ActionRef| #[trigger]
            call_ensures(remove_button, (layout, a), ()) ==> final(layout)@ == layout@.filter(
                |b: ActionRef| b != a,
            ),
        forall|layout: &Vec<ActionRef>, r: Vec<ActionRef>, a: Action|
            #![trigger call_ensures(available_buttons, (layout,), r), r@.contains(ActionRef::Builtin(a))]
            call_ensures(available_buttons, (layout,), r) && Action::ALL@.contains(a) ==> (
            r@.contains(ActionRef::Builtin(a)) <==> !layout@.contains(ActionRef::Builtin(a))),
{
    assert forall|layout: &mut Vec<ActionRef>, a: ActionRef| #[trigger]
        call_ensures(remove_button, (layout, a), ()) implies final(layout)@ == layout@.filter(
        |b: ActionRef| b != a,
    ) by {
        lemma_without(layout@, a, |b: ActionRef| b != a);
    }
    assert forall|layout: &Vec<ActionRef>, r: Vec<ActionRef>, a: Action|
        #![trigger call_ensures(available_buttons, (layout,), r), r@.contains(ActionRef::Builtin(a))]
        call_ensures(available_buttons, (layout,), r) && Action::ALL@.contains(a) implies (
    r@.contains(ActionRef::Builtin(a)) <==> !layout@.contains(ActionRef::Builtin(a))) by {
        law_every_action_is_reachable(Action::ALL@, layout@, a);
    }
}

proof fn lemma_of_sort(
    items: Seq<(Seq<char>, bool, Seq<char>)>,
    dirs: bool,
    p: spec_fn((Seq<char>, bool, Seq<char>)) -> bool,
)
    requires
        forall|x: (Seq<char>, bool, Seq<char>)| #[trigger] p(x) == (x.1 == dirs),
    ensures
        of_sort(items, dirs) == items.filter(p),
    decreases items.len(),
{
    reveal(Seq::filter);
    if items.len() > 0 {
        lemma_of_sort(items.drop_last(), dirs, p);
    }
}

/// The recent folders, or files, that are offered are the first fifteen of them
/// in the recent list, or all where there are no more.
pub proof fn law_the_latest_are_offered(items: &Vec<RecentItem>, dirs: bool, r: Vec<RecentItem>)
    requires
        call_ensures(recent_shown, (items, dirs), r),
    ensures
        ({
            let all = db::recent_views(items@).filter(
                |x: (Seq<char>, bool, Seq<char>)| x.1 == dirs,
            );
            &&& db::recent_views(r@).is_prefix_of(all)
            &&& r@.len() == if all.len() < 15 {
                all.len()
            } else {
                15
            }
        }),
{
    lemma_of_sort(
        db::recent_views(items@),
        dirs,
        |x: (Seq<char>, bool, Seq<char>)| x.1 == dirs,
    );
    assert(db::recent_views(r@).len() == r@.len());
}

} // verus!
