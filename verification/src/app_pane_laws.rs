//! What the address bars, the filters and the listings of the panes lead to.

use crate::app::FileManApp;
use crate::app_nav::Effect;
use crate::app_panes::{Dragged, ListingKeys};
use crate::browse::{typed_path, ListingInput};
use crate::fs_entry::FsEntry;
use crate::{app_panes, browse, path, text};
use vstd::prelude::*;

verus! {

// ---------------------------------------------------------------------------
// Addresses
// ---------------------------------------------------------------------------

/// `c` is what may stand around a path that is typed or copied.
pub open spec fn around_a_path(c: char) -> bool {
    text::whitespace(c) || c == '"'
}

proof fn lemma_stripped_front(s: Seq<char>, c: char) -> (k: int)
    ensures
        0 <= k <= s.len(),
        text::strip_leading(s, c) == s.subrange(k, s.len() as int),
        forall|i: int| 0 <= i < k ==> #[trigger] s[i] == c,
    decreases s.len(),
{
    if s.len() > 0 && s[0] == c {
        let rest = s.subrange(1, s.len() as int);
        let k = lemma_stripped_front(rest, c);
        assert(rest.subrange(k, rest.len() as int) =~= s.subrange(k + 1, s.len() as int));
        assert forall|i: int| 0 <= i < k + 1 implies #[trigger] s[i] == c by {
            if i > 0 {
                assert(rest[i - 1] == s[i]);
            }
        }
        k + 1
    } else {
        assert(s.subrange(0, s.len() as int) =~= s);
        0
    }
}

proof fn lemma_stripped_back(s: Seq<char>, c: char) -> (k: int)
    ensures
        0 <= k <= s.len(),
        text::strip_trailing(s, c) == s.subrange(0, k),
        forall|i: int| k <= i < s.len() ==> #[trigger] s[i] == c,
    decreases s.len(),
{
    if s.len() > 0 && s.last() == c {
        let front = s.drop_last();
        let k = lemma_stripped_back(front, c);
        assert(front.subrange(0, k) =~= s.subrange(0, k));
        assert forall|i: int| k <= i < s.len() implies #[trigger] s[i] == c by {
            if i < s.len() - 1 {
                assert(front[i] == s[i]);
            }
        }
        k
    } else {
        assert(s.subrange(0, s.len() as int) =~= s);
        s.len() as int
    }
}

/// The path that is meant by what was typed is a part of it, and only blanks and
/// quotation marks are left out around it; what has neither around it is meant
/// as it stands.
pub proof fn law_only_quotes_and_blanks_are_left_out(raw: &str, r: String)
    requires
        call_ensures(typed_path, (raw,), r),
    ensures
        exists|a: int, b: int|
            {
                &&& 0 <= a <= b <= raw@.len()
                &&& r@ == #[trigger] raw@.subrange(a, b)
                &&& forall|i: int|
                    0 <= i < a || b <= i < raw@.len() ==> around_a_path(#[trigger] raw@[i])
            },
        raw@.len() > 0 && !around_a_path(raw@[0]) && !around_a_path(raw@.last()) ==> r@ == raw@,
{
    let s1 = text::trimmed(raw@);
    let (a1, b1) = lemma_trimmed(raw@);
    let s2 = text::strip_leading(s1, '"');
    let a2 = lemma_stripped_front(s1, '"');
    let s3 = text::strip_trailing(s2, '"');
    let b3 = lemma_stripped_back(s2, '"');
    let (a4, b4) = lemma_trimmed(s3);
    let a = a1 + a2 + a4;
    let b = a1 + a2 + b4;
    assert(r@ =~= raw@.subrange(a, b));
    assert forall|i: int| 0 <= i < a || b <= i < raw@.len() implies around_a_path(
        #[trigger] raw@[i],
    ) by {
        if a1 <= i < b1 {
            assert(s1[i - a1] == raw@[i]);
            if i - a1 >= a2 {
                let j = i - a1 - a2;
                assert(s2[j] == raw@[i]);
                if j < b3 {
                    assert(s3[j] == raw@[i]);
                }
            }
        }
    }
    if raw@.len() > 0 && !around_a_path(raw@[0]) && !around_a_path(raw@.last()) {
        assert(a == 0) by {
            if a > 0 {
                assert(around_a_path(raw@[0]));
            }
        }
        assert(b == raw@.len()) by {
            if b < raw@.len() {
                assert(around_a_path(raw@[raw@.len() - 1]));
            }
        }
        assert(raw@.subrange(0, raw@.len() as int) =~= raw@);
    }
}

proof fn lemma_trimmed(s: Seq<char>) -> (r: (int, int))
    ensures
        0 <= r.0 <= r.1 <= s.len(),
        text::trimmed(s) == s.subrange(r.0, r.1),
        forall|i: int| 0 <= i < r.0 || r.1 <= i < s.len() ==> text::whitespace(#[trigger] s[i]),
{
    let a = text::lemma_trimmed_front(s);
    let rest = text::trim_start(s);
    let k = text::lemma_trimmed_back(rest);
    assert(rest.subrange(0, k) =~= s.subrange(a, a + k));
    assert forall|i: int| 0 <= i < a || a + k <= i < s.len() implies text::whitespace(
        #[trigger] s[i],
    ) by {
        if i >= a + k {
            assert(rest[i - a] == s[i]);
        }
    }
    (a, a + k)
}

/// A path that was typed and confirmed is gone to; without confirming, the pane
/// stays where it is. Either way typing is over.
pub proof fn law_a_typed_path_is_gone_to<D: Fn(&String) -> bool>(
    p: usize,
    enter: bool,
    is_dir: &D,
    now: &str,
)
    requires
        p < 2,
    ensures
        forall|a: &mut FileManApp|
            #[trigger] call_ensures(FileManApp::leave_address::<D>, (a, p, enter, is_dir, now), ())
                && a.wf() ==> {
                let was = a.panes@[p as int].active();
                let n = final(a).panes@[p as int].active();
                &&& !final(a).panes@[p as int].address_edit_mode
                &&& final(a).panes@[1 - p] == a.panes@[1 - p]
                &&& enter && !was.locked ==> n.path@ == browse::typed_path_of(
                    a.panes@[p as int].address_bar@,
                )
                &&& !enter || was.locked ==> n == was
            },
{
    assert forall|a: &mut FileManApp|
        #[trigger] call_ensures(FileManApp::leave_address::<D>, (a, p, enter, is_dir, now), ())
            && a.wf() implies {
        let was = a.panes@[p as int].active();
        let n = final(a).panes@[p as int].active();
        &&& !final(a).panes@[p as int].address_edit_mode
        &&& final(a).panes@[1 - p] == a.panes@[1 - p]
        &&& enter && !was.locked ==> n.path@ == browse::typed_path_of(
            a.panes@[p as int].address_bar@,
        )
        &&& !enter || was.locked ==> n == was
    } by {
        let shown = a.panes@[p as int].address_bar@;
        let mid = choose|mid: FileManApp|
            {
                &&& #[trigger] app_panes::address_became(*final(a), mid, p as int, shown, false)
                &&& if enter {
                    app_panes::typed_went(mid, *a, p as int, *is_dir, now@)
                } else {
                    mid == *a
                }
            };
        assert(a.panes@[p as int].wf());
        assert(mid.panes@[1 - p] == a.panes@[1 - p]);
        assert(final(a).panes@[1 - p] == mid.panes@[1 - p]);
        assert(mid.panes@.len() == 2);
        if enter && !a.panes@[p as int].active().locked {
            let m = mid.panes@[p as int].active();
            assert(m.trail().path == browse::typed_path_of(shown));
        }
    }
}

/// A crumb leads its pane to the folder that it names, and the arrow up leads it
/// to the folder above; a pinned tab stays, and so does the other pane.
pub proof fn law_crumbs_lead_their_pane(p: usize, target: String, now: &str)
    requires
        p < 2,
    ensures
        forall|a: &mut FileManApp|
            #[trigger] call_ensures(FileManApp::follow_crumb, (a, p, target, now), ()) && a.wf()
                ==> {
                &&& final(a).panes@[1 - p] == a.panes@[1 - p]
                &&& a.panes@[p as int].active().locked ==> final(a).panes == a.panes
                &&& !a.panes@[p as int].active().locked ==> final(
                    a
                ).panes@[p as int].active().path@ == target@
            },
        forall|a: &mut FileManApp|
            #[trigger] call_ensures(FileManApp::pane_up, (a, p, now), ()) && a.wf() ==> {
                let was = a.panes@[p as int].active();
                &&& final(a).panes@[1 - p] == a.panes@[1 - p]
                &&& final(a).active_pane == a.active_pane
                &&& was.locked || path::parent_of(was.path@) is None ==> final(a).panes == a.panes
                &&& !was.locked && path::parent_of(was.path@) is Some ==> Some(
                    final(a).panes@[p as int].active().path@,
                ) == path::parent_of(was.path@)
            },
{
    assert forall|a: &mut FileManApp|
        #[trigger] call_ensures(FileManApp::follow_crumb, (a, p, target, now), ()) && a.wf() implies {
        &&& final(a).panes@[1 - p] == a.panes@[1 - p]
        &&& a.panes@[p as int].active().locked ==> final(a).panes == a.panes
        &&& !a.panes@[p as int].active().locked ==> final(a).panes@[p as int].active().path@
            == target@
    } by {
        lemma_pane_went(*final(a), *a, p, target@, now@, p);
    }
    assert forall|a: &mut FileManApp|
        #[trigger] call_ensures(FileManApp::pane_up, (a, p, now), ()) && a.wf() implies {
        let was = a.panes@[p as int].active();
        &&& final(a).panes@[1 - p] == a.panes@[1 - p]
        &&& final(a).active_pane == a.active_pane
        &&& was.locked || path::parent_of(was.path@) is None ==> final(a).panes == a.panes
        &&& !was.locked && path::parent_of(was.path@) is Some ==> Some(
            final(a).panes@[p as int].active().path@,
        ) == path::parent_of(was.path@)
    } by {
        match path::parent_of(a.panes@[p as int].active().path@) {
            Some(up) => lemma_pane_went(*final(a), *a, p, up, now@, a.active_pane),
            None => {},
        }
    }
}

proof fn lemma_pane_went(
    after: FileManApp,
    before: FileManApp,
    p: usize,
    target: Seq<char>,
    now: Seq<char>,
    active_pane: usize,
)
    requires
        before.wf(),
        p < 2,
        app_panes::pane_went(after, before, p as int, target, now, active_pane),
    ensures
        after.panes@[1 - p] == before.panes@[1 - p],
        before.panes@[p as int].active().locked ==> after.panes == before.panes
            && after.active_pane == before.active_pane,
        !before.panes@[p as int].active().locked ==> after.panes@[p as int].active().path@ == target
            && after.active_pane == active_pane,
{
    assert(before.panes@[p as int].wf());
    if !before.panes@[p as int].active().locked {
        assert(after.panes@[1 - p] == before.panes@[1 - p]);
        assert(after.panes@[p as int].active().trail().path == target);
    }
}

// ---------------------------------------------------------------------------
// Filters
// ---------------------------------------------------------------------------

/// A filter is set in the active tab of its pane, which then has nothing
/// selected, and clearing it takes nothing but the filter. The folder and what
/// was listed of it stay, and so do all other tabs.
pub proof fn law_filters_touch_one_tab(p: usize, filter: String, j: int)
    requires
        p < 2,
    ensures
        forall|a: &mut FileManApp|
            #[trigger] call_ensures(FileManApp::set_filter, (a, p, filter), ()) && a.wf() ==> {
                let was = a.panes@[p as int];
                let n = final(a).panes@[p as int];
                &&& n.active().filter == filter && n.active().selected@.len() == 0
                &&& n.active().path == was.active().path && n.active().listing
                    == was.active().listing
                &&& final(a).panes@[1 - p] == a.panes@[1 - p]
                &&& 0 <= j < was.tabs@.len() && j != was.active_tab ==> n.tabs@[j] == was.tabs@[j]
            },
        forall|a: &mut FileManApp|
            #[trigger] call_ensures(FileManApp::clear_filter, (a, p), ()) && a.wf() ==> {
                let was = a.panes@[p as int];
                let n = final(a).panes@[p as int];
                &&& n.active().filter@.len() == 0 && n.active().selected == was.active().selected
                &&& n.active().path == was.active().path && n.active().listing
                    == was.active().listing
                &&& final(a).panes@[1 - p] == a.panes@[1 - p]
                &&& 0 <= j < was.tabs@.len() && j != was.active_tab ==> n.tabs@[j] == was.tabs@[j]
            },
{
    assert forall|a: &mut FileManApp|
        #[trigger] call_ensures(FileManApp::set_filter, (a, p, filter), ()) && a.wf() implies {
        let was = a.panes@[p as int];
        let n = final(a).panes@[p as int];
        &&& n.active().filter == filter && n.active().selected@.len() == 0
        &&& n.active().path == was.active().path && n.active().listing == was.active().listing
        &&& final(a).panes@[1 - p] == a.panes@[1 - p]
        &&& 0 <= j < was.tabs@.len() && j != was.active_tab ==> n.tabs@[j] == was.tabs@[j]
    } by {
        assert(a.panes@[p as int].wf());
    }
    assert forall|a: &mut FileManApp|
        #[trigger] call_ensures(FileManApp::clear_filter, (a, p), ()) && a.wf() implies {
        let was = a.panes@[p as int];
        let n = final(a).panes@[p as int];
        &&& n.active().filter@.len() == 0 && n.active().selected == was.active().selected
        &&& n.active().path == was.active().path && n.active().listing == was.active().listing
        &&& final(a).panes@[1 - p] == a.panes@[1 - p]
        &&& 0 <= j < was.tabs@.len() && j != was.active_tab ==> n.tabs@[j] == was.tabs@[j]
    } by {
        assert(a.panes@[p as int].wf());
    }
}

// ---------------------------------------------------------------------------
// Listings
// ---------------------------------------------------------------------------

/// No key is pressed.
pub open spec fn no_keys(k: ListingKeys) -> bool {
    !k.enter && !k.up && !k.down && !k.left && !k.right
}

/// Without a click or a key, nothing happens.
pub proof fn law_nothing_happens_by_itself(
    after: FileManApp,
    before: FileManApp,
    p: usize,
    entries: Seq<FsEntry>,
    input: ListingInput,
    keys: ListingKeys,
    now: Seq<char>,
    drag: Option<Dragged>,
    effects: Seq<Effect>,
)
    requires
        app_panes::listing_handled(after, before, p, entries, input, keys, now, drag, effects),
        input.select is None && input.enter is None && input.open is None && input.drag is None,
        no_keys(keys),
    ensures
        after == before,
        effects.len() == 0 && drag is None,
{
}

/// A click selects what it is on, in the pane that becomes the active one, and
/// opens nothing.
pub proof fn law_a_click_selects(
    after: FileManApp,
    before: FileManApp,
    p: usize,
    entries: Seq<FsEntry>,
    input: ListingInput,
    keys: ListingKeys,
    now: Seq<char>,
    drag: Option<Dragged>,
    effects: Seq<Effect>,
    i: usize,
    q: Seq<char>,
)
    requires
        before.wf(),
        p < 2,
        app_panes::listing_handled(after, before, p, entries, input, keys, now, drag, effects),
        input.select == Some(i) && input.enter is None && input.open is None && input.drag is None,
        no_keys(keys) && !keys.shift,
        i < entries.len(),
    ensures
        !keys.ctrl ==> (after.panes@[p as int].active().selection().contains(q) <==> q
            == entries[i as int].name@),
        keys.ctrl ==> (after.panes@[p as int].active().selection().contains(q) <==> (if q
            == entries[i as int].name@ {
            !before.panes@[p as int].active().selection().contains(q)
        } else {
            before.panes@[p as int].active().selection().contains(q)
        })),
        after.active_pane == p,
        after.panes@[p as int].active().path == before.panes@[p as int].active().path,
        after.panes@[1 - p] == before.panes@[1 - p],
        effects.len() == 0 && drag is None,
{
    assert(before.panes@[p as int].wf());
}

/// What is dragged is the selection with the entry that the drag began on,
/// which alone is dragged where it was not selected.
pub proof fn law_a_drag_takes_the_selection(
    after: FileManApp,
    before: FileManApp,
    p: usize,
    entries: Seq<FsEntry>,
    i: usize,
    drag: Option<Dragged>,
    q: Seq<char>,
)
    requires
        before.wf(),
        p < 2,
        i < entries.len(),
        app_panes::drag_stage(after, before, p, entries, Some(i), drag),
    ensures
        drag is Some && drag->0.from_dir == before.panes@[p as int].active().path,
        text::texts(drag->0.paths@) == browse::selected_paths_of(after.panes@[p as int].active()),
        before.panes@[p as int].active().selection().contains(entries[i as int].name@) ==> (
        after.panes@[p as int].active().selection().contains(q)
            <==> before.panes@[p as int].active().selection().contains(q)),
        !before.panes@[p as int].active().selection().contains(entries[i as int].name@) ==> (
        after.panes@[p as int].active().selection().contains(q) <==> q
            == entries[i as int].name@),
{
    assert(before.panes@[p as int].wf());
}

/// Opening files starts a program for each of them, in their order, and goes
/// nowhere.
pub proof fn law_every_file_is_opened(files: &Vec<String>, now: &str, k: int)
    ensures
        forall|a: &mut FileManApp, r: Vec<Effect>|
            #[trigger] call_ensures(FileManApp::open_files, (a, files, now), r) ==> {
                &&& r@.len() == files@.len()
                &&& 0 <= k < files@.len() ==> (r@[k] matches Effect::Run { program, args }
                    && args@.len() > 0 && args@.last()@ == files@[k]@)
                &&& final(a).panes == a.panes
            },
{
    assert forall|a: &mut FileManApp, r: Vec<Effect>|
        #[trigger] call_ensures(FileManApp::open_files, (a, files, now), r) implies {
        &&& r@.len() == files@.len()
        &&& 0 <= k < files@.len() ==> (r@[k] matches Effect::Run { program, args } && args@.len()
            > 0 && args@.last()@ == files@[k]@)
        &&& final(a).panes == a.panes
    } by {
        if 0 <= k < files@.len() {
            let all = text::texts(files@);
            assert(a.opens_with(all[k], r@[k]));
            let args = text::texts(r@[k]->args@);
            assert(args.len() == r@[k]->args@.len());
            assert(args.last() == r@[k]->args@.last()@);
        }
    }
}

} // verus!
