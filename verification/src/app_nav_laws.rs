//! What going about, opening and closing tabs, and sorting leave behind.

use crate::app::FileManApp;
use crate::app_nav::Effect;
use crate::app_tabs::{reorder_slot, TabChoice};
use crate::dialog::Dialog;
use crate::tab::Tab;
use crate::{app_nav, app_tabs, browse, db, path, text};
use vstd::prelude::*;

verus! {

/// Tab `t` of pane `p` is the only one that may differ.
pub open spec fn only_tab_differs(after: FileManApp, before: FileManApp, p: int, t: int) -> bool {
    &&& after.panes@.len() == 2 && before.panes@.len() == 2
    &&& after.panes@[1 - p] == before.panes@[1 - p]
    &&& after.panes@[p].active_tab == before.panes@[p].active_tab
    &&& after.panes@[p].tabs@.len() == before.panes@[p].tabs@.len()
    &&& forall|j: int|
        0 <= j < before.panes@[p].tabs@.len() && j != t ==> #[trigger] after.panes@[p].tabs@[j]
            == before.panes@[p].tabs@[j]
    &&& after.active_pane == before.active_pane
}

proof fn lemma_stepped<D: Fn(&String) -> bool>(
    after: FileManApp,
    before: FileManApp,
    p: int,
    can: bool,
    trail: crate::tab::Trail,
    f: D,
    now: Seq<char>,
)
    requires
        before.wf(),
        0 <= p < 2,
        app_nav::stepped(after, before, p, can, trail, f, now),
    ensures
        only_tab_differs(after, before, p, before.panes@[p].active_tab as int),
        before.panes@[p].active().locked || !can ==> after.panes == before.panes,
        !before.panes@[p].active().locked && can ==> after.panes@[p].active().path@ == trail.path
            && text::texts(after.panes@[p].active().history_back@) == trail.back && text::texts(
            after.panes@[p].active().history_forward@,
        ) == trail.forward && after.panes@[p].active().listing_dirty,
        after.clipboard == before.clipboard && after.clipboard_op == before.clipboard_op,
        after.dialog == before.dialog,
{
    assert(before.panes@[p].wf());
    if !before.panes@[p].active().locked && can {
        assert(after.panes@[1 - p] == before.panes@[1 - p]);
        assert(after.panes@[p].active().trail() == trail);
    }
}

/// The active tab goes to the folder that it is sent to, and remembers the one
/// it left as the way back; a pinned tab stays where it is. No other tab goes
/// anywhere.
pub proof fn law_the_active_tab_goes_where_asked<D: Fn(&String) -> bool>(is_dir: &D)
    ensures
        forall|a: &mut FileManApp, target: String, now: &str|
            #[trigger] call_ensures(FileManApp::go_to::<D>, (a, target, is_dir, now), ()) && a.wf()
                ==> {
                &&& only_tab_differs(
                    *final(a),
                    *a,
                    a.active_pane as int,
                    a.panes@[a.active_pane as int].active_tab as int,
                )
                &&& a.active().locked ==> final(a).panes == a.panes
                &&& !a.active().locked ==> {
                    &&& final(a).active().path@ == target@
                    &&& text::texts(final(a).active().history_back@) == text::texts(
                        a.active().history_back@,
                    ).push(a.active().path@)
                    &&& final(a).active().history_forward@.len() == 0
                }
                &&& final(a).clipboard == a.clipboard
            },
{
    assert forall|a: &mut FileManApp, target: String, now: &str|
        #[trigger] call_ensures(FileManApp::go_to::<D>, (a, target, is_dir, now), ()) && a.wf() implies {
        &&& only_tab_differs(
            *final(a),
            *a,
            a.active_pane as int,
            a.panes@[a.active_pane as int].active_tab as int,
        )
        &&& a.active().locked ==> final(a).panes == a.panes
        &&& !a.active().locked ==> {
            &&& final(a).active().path@ == target@
            &&& text::texts(final(a).active().history_back@) == text::texts(
                a.active().history_back@,
            ).push(a.active().path@)
            &&& final(a).active().history_forward@.len() == 0
        }
        &&& final(a).clipboard == a.clipboard
    } by {
        lemma_stepped(
            *final(a),
            *a,
            a.active_pane as int,
            true,
            a.active().trail().to(target@),
            *is_dir,
            now@,
        );
        assert(text::texts(final(a).active().history_forward@).len()
            == final(a).active().history_forward@.len());
    }
}

/// Going up leads to the folder above, and nowhere from a root.
pub proof fn law_up_leads_to_the_parent<D: Fn(&String) -> bool>(is_dir: &D)
    ensures
        forall|a: &mut FileManApp, now: &str|
            #[trigger] call_ensures(FileManApp::go_up::<D>, (a, is_dir, now), ()) && a.wf() ==> {
                &&& only_tab_differs(
                    *final(a),
                    *a,
                    a.active_pane as int,
                    a.panes@[a.active_pane as int].active_tab as int,
                )
                &&& a.active().locked || path::parent_of(a.active().path@) is None ==> final(
                    a
                ).panes == a.panes
                &&& !a.active().locked && path::parent_of(a.active().path@) is Some ==> Some(
                    final(a).active().path@,
                ) == path::parent_of(a.active().path@)
            },
{
    assert forall|a: &mut FileManApp, now: &str|
        #[trigger] call_ensures(FileManApp::go_up::<D>, (a, is_dir, now), ()) && a.wf() implies {
        &&& only_tab_differs(
            *final(a),
            *a,
            a.active_pane as int,
            a.panes@[a.active_pane as int].active_tab as int,
        )
        &&& a.active().locked || path::parent_of(a.active().path@) is None ==> final(a).panes
            == a.panes
        &&& !a.active().locked && path::parent_of(a.active().path@) is Some ==> Some(
            final(a).active().path@,
        ) == path::parent_of(a.active().path@)
    } by {
        match path::parent_of(a.active().path@) {
            Some(up) => {
                lemma_stepped(
                    *final(a),
                    *a,
                    a.active_pane as int,
                    true,
                    a.active().trail().to(up),
                    *is_dir,
                    now@,
                );
            },
            None => {},
        }
    }
}

/// Back leads to the folder that was left last, and forward to the one that
/// back was taken from last; a pinned tab, and one with nowhere to go, stays.
pub proof fn law_back_and_forward_lead_there<D: Fn(&String) -> bool>(is_dir: &D)
    ensures
        forall|a: &mut FileManApp, p: usize, now: &str|
            #[trigger] call_ensures(FileManApp::go_back::<D>, (a, p, is_dir, now), ()) && a.wf()
                && p < 2 ==> {
                let t = a.panes@[p as int].active();
                &&& only_tab_differs(*final(a), *a, p as int, a.panes@[p as int].active_tab as int)
                &&& t.locked || t.history_back@.len() == 0 ==> final(a).panes == a.panes
                &&& !t.locked && t.history_back@.len() > 0 ==> {
                    let n = final(a).panes@[p as int].active();
                    &&& n.path@ == t.history_back@.last()@
                    &&& n.history_back@.len() == t.history_back@.len() - 1
                    &&& n.history_forward@.last()@ == t.path@
                }
            },
        forall|a: &mut FileManApp, p: usize, now: &str|
            #[trigger] call_ensures(FileManApp::go_forward::<D>, (a, p, is_dir, now), ()) && a.wf()
                && p < 2 ==> {
                let t = a.panes@[p as int].active();
                &&& only_tab_differs(*final(a), *a, p as int, a.panes@[p as int].active_tab as int)
                &&& t.locked || t.history_forward@.len() == 0 ==> final(a).panes == a.panes
                &&& !t.locked && t.history_forward@.len() > 0 ==> {
                    let n = final(a).panes@[p as int].active();
                    &&& n.path@ == t.history_forward@.last()@
                    &&& n.history_forward@.len() == t.history_forward@.len() - 1
                    &&& n.history_back@.last()@ == t.path@
                }
            },
{
    assert forall|a: &mut FileManApp, p: usize, now: &str|
        #[trigger] call_ensures(FileManApp::go_back::<D>, (a, p, is_dir, now), ()) && a.wf() && p < 2 implies {
        let t = a.panes@[p as int].active();
        &&& only_tab_differs(*final(a), *a, p as int, a.panes@[p as int].active_tab as int)
        &&& t.locked || t.history_back@.len() == 0 ==> final(a).panes == a.panes
        &&& !t.locked && t.history_back@.len() > 0 ==> {
            let n = final(a).panes@[p as int].active();
            &&& n.path@ == t.history_back@.last()@
            &&& n.history_back@.len() == t.history_back@.len() - 1
            &&& n.history_forward@.last()@ == t.path@
        }
    } by {
        let t = a.panes@[p as int].active();
        let n = final(a).panes@[p as int].active();
        lemma_stepped(
            *final(a),
            *a,
            p as int,
            t.history_back@.len() > 0,
            t.trail().backward(),
            *is_dir,
            now@,
        );
        if !t.locked && t.history_back@.len() > 0 {
            assert(text::texts(t.history_back@).last() == t.history_back@.last()@);
            assert(text::texts(n.history_back@).len() == n.history_back@.len());
            assert(text::texts(n.history_forward@).last() == n.history_forward@.last()@);
        }
    }
    assert forall|a: &mut FileManApp, p: usize, now: &str|
        #[trigger] call_ensures(FileManApp::go_forward::<D>, (a, p, is_dir, now), ()) && a.wf() && p
            < 2 implies {
        let t = a.panes@[p as int].active();
        &&& only_tab_differs(*final(a), *a, p as int, a.panes@[p as int].active_tab as int)
        &&& t.locked || t.history_forward@.len() == 0 ==> final(a).panes == a.panes
        &&& !t.locked && t.history_forward@.len() > 0 ==> {
            let n = final(a).panes@[p as int].active();
            &&& n.path@ == t.history_forward@.last()@
            &&& n.history_forward@.len() == t.history_forward@.len() - 1
            &&& n.history_back@.last()@ == t.path@
        }
    } by {
        let t = a.panes@[p as int].active();
        let n = final(a).panes@[p as int].active();
        lemma_stepped(
            *final(a),
            *a,
            p as int,
            t.history_forward@.len() > 0,
            t.trail().onward(),
            *is_dir,
            now@,
        );
        if !t.locked && t.history_forward@.len() > 0 {
            assert(text::texts(t.history_forward@).last() == t.history_forward@.last()@);
            assert(text::texts(n.history_forward@).len() == n.history_forward@.len());
            assert(text::texts(n.history_back@).last() == n.history_back@.last()@);
        }
    }
}

/// A new tab joins the others of its pane at the end and shows the folder asked
/// for, sorted as every new tab is.
pub proof fn law_a_new_tab_joins_the_others<D: Fn(&String) -> bool>(is_dir: &D)
    ensures
        forall|a: &mut FileManApp, p: usize, dir: String, now: &str|
            #[trigger] call_ensures(FileManApp::new_tab::<D>, (a, p, dir, is_dir, now), ())
                && a.wf() && p < 2 ==> {
                let n = final(a).panes@[p as int];
                &&& final(a).panes@[1 - p] == a.panes@[1 - p]
                &&& n.tabs@.len() == a.panes@[p as int].tabs@.len() + 1
                &&& forall|j: int|
                    0 <= j < a.panes@[p as int].tabs@.len() ==> #[trigger] n.tabs@[j]
                        == a.panes@[p as int].tabs@[j]
                &&& n.tabs@.last().path@ == dir@
                &&& n.tabs@.last().sort_col@ == a.prefs.sort_col@
                &&& n.tabs@.last().sort_asc == a.prefs.sort_asc
                &&& n.active_tab == n.tabs@.len() - 1
                &&& final(a).active_pane == a.active_pane
            },
{
    assert forall|a: &mut FileManApp, p: usize, dir: String, now: &str|
        #[trigger] call_ensures(FileManApp::new_tab::<D>, (a, p, dir, is_dir, now), ()) && a.wf()
            && p < 2 implies {
        let n = final(a).panes@[p as int];
        &&& final(a).panes@[1 - p] == a.panes@[1 - p]
        &&& n.tabs@.len() == a.panes@[p as int].tabs@.len() + 1
        &&& forall|j: int|
            0 <= j < a.panes@[p as int].tabs@.len() ==> #[trigger] n.tabs@[j]
                == a.panes@[p as int].tabs@[j]
        &&& n.tabs@.last().path@ == dir@
        &&& n.tabs@.last().sort_col@ == a.prefs.sort_col@
        &&& n.tabs@.last().sort_asc == a.prefs.sort_asc
        &&& n.active_tab == n.tabs@.len() - 1
        &&& final(a).active_pane == a.active_pane
    } by {
        let n = final(a).panes@[p as int];
        assert(final(a).panes@[1 - p] == a.panes@[1 - p]);
        assert forall|j: int| 0 <= j < a.panes@[p as int].tabs@.len() implies #[trigger] n.tabs@[j]
            == a.panes@[p as int].tabs@[j] by {
            assert(n.tabs@.drop_last()[j] == n.tabs@[j]);
        }
        assert(n.active() == n.tabs@.last());
    }
}

/// Closing takes the one tab that was asked for, and no other. The last tab of
/// a pane and a pinned tab stay.
pub proof fn law_closing_takes_the_tab_asked_for(p: usize, t: usize)
    requires
        p < 2,
    ensures
        forall|a: &mut FileManApp|
            #[trigger] call_ensures(FileManApp::click_close, (a, p, t), ()) && a.wf() && t
                < a.panes@[p as int].tabs@.len() ==> {
                let was = a.panes@[p as int];
                let n = final(a).panes@[p as int];
                &&& final(a).panes@[1 - p] == a.panes@[1 - p]
                &&& was.tabs@.len() == 1 || was.tabs@[t as int].locked ==> n.tabs@ == was.tabs@
                &&& was.tabs@.len() > 1 && !was.tabs@[t as int].locked ==> {
                    &&& n.tabs@.len() == was.tabs@.len() - 1
                    &&& forall|j: int| 0 <= j < t ==> #[trigger] n.tabs@[j] == was.tabs@[j]
                    &&& forall|j: int|
                        t <= j < n.tabs@.len() ==> #[trigger] n.tabs@[j] == was.tabs@[j + 1]
                    &&& t != was.active_tab ==> n.active() == was.active()
                }
            },
{
    assert forall|a: &mut FileManApp|
        #[trigger] call_ensures(FileManApp::click_close, (a, p, t), ()) && a.wf() && t
            < a.panes@[p as int].tabs@.len() implies {
        let was = a.panes@[p as int];
        let n = final(a).panes@[p as int];
        &&& final(a).panes@[1 - p] == a.panes@[1 - p]
        &&& was.tabs@.len() == 1 || was.tabs@[t as int].locked ==> n.tabs@ == was.tabs@
        &&& was.tabs@.len() > 1 && !was.tabs@[t as int].locked ==> {
            &&& n.tabs@.len() == was.tabs@.len() - 1
            &&& forall|j: int| 0 <= j < t ==> #[trigger] n.tabs@[j] == was.tabs@[j]
            &&& forall|j: int| t <= j < n.tabs@.len() ==> #[trigger] n.tabs@[j] == was.tabs@[j + 1]
            &&& t != was.active_tab ==> n.active() == was.active()
        }
    } by {
        let was = a.panes@[p as int];
        assert(was.wf());
        assert(a.panes@[1 - p].wf());
    }
}

/// Every entry that the active tab shows is selected by selecting all, and what
/// was selected stays so; no other tab is touched.
pub proof fn law_selecting_all_takes_what_is_shown(k: int)
    ensures
        forall|a: &mut FileManApp|
            #[trigger] call_ensures(FileManApp::select_all_in_view, (a,), ()) && a.wf() ==> {
                let entries = app_nav::in_view(*a);
                &&& only_tab_differs(
                    *final(a),
                    *a,
                    a.active_pane as int,
                    a.panes@[a.active_pane as int].active_tab as int,
                )
                &&& final(a).active().path == a.active().path
                &&& 0 <= k < entries.len() ==> final(a).active().selection().contains(
                    entries[k].name@,
                )
                &&& forall|q: Seq<char>|
                    #[trigger] final(a).active().selection().contains(q)
                        ==> a.active().selection().contains(q) || exists|i: int|
                        0 <= i < entries.len() && (#[trigger] entries[i]).name@ == q
            },
{
    assert forall|a: &mut FileManApp|
        #[trigger] call_ensures(FileManApp::select_all_in_view, (a,), ()) && a.wf() implies {
        let entries = app_nav::in_view(*a);
        &&& only_tab_differs(
            *final(a),
            *a,
            a.active_pane as int,
            a.panes@[a.active_pane as int].active_tab as int,
        )
        &&& final(a).active().path == a.active().path
        &&& 0 <= k < entries.len() ==> final(a).active().selection().contains(entries[k].name@)
        &&& forall|q: Seq<char>|
            #[trigger] final(a).active().selection().contains(q)
                ==> a.active().selection().contains(q) || exists|i: int|
                0 <= i < entries.len() && (#[trigger] entries[i]).name@ == q
    } by {
        let p = a.active_pane as int;
        let entries = app_nav::in_view(*a);
        assert(a.panes@[p].wf());
        assert(final(a).panes@[1 - p] == a.panes@[1 - p]);
        if entries.len() > 0 {
            let names = browse::names_between(entries, 0, entries.len() - 1);
            assert forall|q: Seq<char>| #[trigger] names.contains(q) implies exists|i: int|
                0 <= i < entries.len() && (#[trigger] entries[i]).name@ == q by {
                browse::lemma_names_between(entries, 0, entries.len() - 1, q);
            }
            if 0 <= k < entries.len() {
                browse::lemma_names_between(entries, 0, entries.len() - 1, entries[k].name@);
                assert(names.contains(entries[k].name@));
            }
        }
    }
}

/// A file is opened alone, by the program that is pinned for its extension
/// where there is one, and else by the system's own choice.
pub proof fn law_files_open_with_their_program(a: FileManApp, p: &str, r: Effect)
    requires
        call_ensures(FileManApp::open_path, (&a, p), r),
    ensures
        r matches Effect::Run { program, args } && args@.len() > 0 && args@.last()@ == p@,
        ({
            let pinned = (Some(a.current_user_id), text::lowercase(path::extension_of(p@)->0));
            if path::extension_of(p@) is Some && a.db.ext_overrides@.contains_key(pinned) {
                r->program@ == a.db.ext_overrides@[pinned] && r->args@.len() == 1
            } else {
                r->program@ == "cmd"@ && r->args@.len() == 4 && r->args@[1]@ == "start"@
            }
        }),
{
    let args = text::texts(r->args@);
    assert(args.len() == r->args@.len());
    assert(args.last() == r->args@.last()@);
    assert(args.len() > 1 ==> args[1] == r->args@[1]@);
}

/// The star of a folder adds it where it was missing and takes it out where it
/// was among the favourites; every other favourite stays, and so do those of
/// the other users.
pub proof fn law_a_star_touches_one_folder(p: &str, q: Seq<char>, v: i64)
    requires
        q != p@,
    ensures
        forall|a: &mut FileManApp|
            #[trigger] call_ensures(FileManApp::toggle_favourite, (a, p), ()) && a.wf()
                && a.db.favourites_of(a.current_user_id).no_duplicates() ==> {
                let was = a.db.favourites_of(a.current_user_id);
                let n = final(a).db.favourites_of(a.current_user_id);
                &&& n.contains(p@) <==> !was.contains(p@)
                &&& n.contains(q) <==> was.contains(q)
                &&& text::texts(final(a).favourites@) == n
                &&& v != a.current_user_id ==> final(a).db.favourites_of(v) == a.db.favourites_of(v)
                &&& final(a).panes == a.panes
            },
{
    assert forall|a: &mut FileManApp|
        #[trigger] call_ensures(FileManApp::toggle_favourite, (a, p), ()) && a.wf()
            && a.db.favourites_of(a.current_user_id).no_duplicates() implies {
        let was = a.db.favourites_of(a.current_user_id);
        let n = final(a).db.favourites_of(a.current_user_id);
        &&& n.contains(p@) <==> !was.contains(p@)
        &&& n.contains(q) <==> was.contains(q)
        &&& text::texts(final(a).favourites@) == n
        &&& v != a.current_user_id ==> final(a).db.favourites_of(v) == a.db.favourites_of(v)
        &&& final(a).panes == a.panes
    } by {
        lemma_toggled(a.db.favourites_of(a.current_user_id), p@, q);
    }
}

proof fn lemma_toggled(was: Seq<Seq<char>>, p: Seq<char>, q: Seq<char>)
    requires
        was.no_duplicates(),
        q != p,
    ensures
        was.contains(p) ==> !db::without_favourite(was, p).contains(p),
        was.contains(p) ==> (db::without_favourite(was, p).contains(q) <==> was.contains(q)),
        !was.contains(p) ==> db::with_favourite(was, p).contains(p),
        !was.contains(p) ==> (db::with_favourite(was, p).contains(q) <==> was.contains(q)),
{
    if was.contains(p) {
        let k = was.index_of(p);
        let n = was.remove(k);
        assert(was[k] == p);
        if n.contains(p) {
            let i = choose|i: int| 0 <= i < n.len() && n[i] == p;
            if i < k {
                assert(was[i] == p);
            } else {
                assert(was[i + 1] == p);
            }
        }
        if was.contains(q) {
            let i = choose|i: int| 0 <= i < was.len() && was[i] == q;
            if i < k {
                assert(n[i] == q);
            } else {
                assert(n[i - 1] == q);
            }
        }
        if n.contains(q) {
            let i = choose|i: int| 0 <= i < n.len() && n[i] == q;
            if i < k {
                assert(was[i] == q);
            } else {
                assert(was[i + 1] == q);
            }
        }
    } else {
        let n = was.push(p);
        assert(n[was.len() as int] == p);
        if was.contains(q) {
            let i = choose|i: int| 0 <= i < was.len() && was[i] == q;
            assert(n[i] == q);
        }
        if n.contains(q) {
            let i = choose|i: int| 0 <= i < n.len() && n[i] == q;
            assert(was[i] == q);
        }
    }
}

/// Sorting everywhere reaches every tab of both panes and the tabs to come, and
/// changes nothing but their sorting.
pub proof fn law_sorting_everywhere_reaches_every_tab(col: &str, asc: bool, p: int, j: int)
    requires
        0 <= p < 2,
    ensures
        forall|a: &mut FileManApp|
            #[trigger] call_ensures(FileManApp::apply_sort_everywhere, (a, col, asc), ()) && a.wf()
                && 0 <= j < a.panes@[p].tabs@.len() ==> {
                let t = final(a).panes@[p].tabs@[j];
                &&& final(a).panes@[p].tabs@.len() == a.panes@[p].tabs@.len()
                &&& t.sort_col@ == col@ && t.sort_asc == asc
                &&& t.path == a.panes@[p].tabs@[j].path && t.filter == a.panes@[p].tabs@[j].filter
                &&& t.selected == a.panes@[p].tabs@[j].selected && t.locked
                    == a.panes@[p].tabs@[j].locked
                &&& final(a).prefs.sort_col@ == col@ && final(a).prefs.sort_asc == asc
                &&& final(a).db.settings@.contains_key((Some(a.current_user_id), "sort_col"@))
                &&& final(a).db.settings@[(Some(a.current_user_id), "sort_asc"@)] == (if asc {
                    "true"@
                } else {
                    "false"@
                })
            },
{
}

/// A pin is set or taken off from the one tab whose menu is open.
pub proof fn law_the_menu_pins_one_tab<D: Fn(&String) -> bool>(is_dir: &D, p: usize, t: usize)
    requires
        p < 2,
    ensures
        forall|a: &mut FileManApp, now: &str|
            #[trigger] call_ensures(
                FileManApp::tab_menu::<D>,
                (a, TabChoice::TogglePin, is_dir, now),
                (),
            ) && a.wf() && a.dialog == Some(Dialog::TabContext { pane_idx: p, tab_idx: t }) && t
                < a.panes@[p as int].tabs@.len() ==> {
                let was = a.panes@[p as int].tabs@[t as int];
                let n = final(a).panes@[p as int].tabs@[t as int];
                &&& only_tab_differs(*final(a), *a, p as int, t as int)
                &&& n == (Tab { locked: !was.locked, ..was })
                &&& final(a).dialog is None
            },
{
    assert forall|a: &mut FileManApp, now: &str|
        #[trigger] call_ensures(
            FileManApp::tab_menu::<D>,
            (a, TabChoice::TogglePin, is_dir, now),
            (),
        ) && a.wf() && a.dialog == Some(Dialog::TabContext { pane_idx: p, tab_idx: t }) && t
            < a.panes@[p as int].tabs@.len() implies {
        let was = a.panes@[p as int].tabs@[t as int];
        let n = final(a).panes@[p as int].tabs@[t as int];
        &&& only_tab_differs(*final(a), *a, p as int, t as int)
        &&& n == (Tab { locked: !was.locked, ..was })
        &&& final(a).dialog is None
    } by {
        assert(app_tabs::tab_exists(*a, p, t));
    }
}

/// A tab that is moved to the other pane leaves its own and joins the other at
/// the end; all other tabs stay where they are. The last tab of a pane is not
/// moved away.
pub proof fn law_a_moved_tab_changes_panes<D: Fn(&String) -> bool>(is_dir: &D, p: usize, t: usize)
    requires
        p < 2,
    ensures
        forall|a: &mut FileManApp, now: &str|
            #[trigger] call_ensures(
                FileManApp::tab_menu::<D>,
                (a, TabChoice::MoveToOtherPane, is_dir, now),
                (),
            ) && a.wf() && a.dialog == Some(Dialog::TabContext { pane_idx: p, tab_idx: t }) && t
                < a.panes@[p as int].tabs@.len() ==> {
                let was = a.panes@[p as int].tabs@;
                let to = a.panes@[1 - p].tabs@;
                let left = final(a).panes@[p as int].tabs@;
                let got = final(a).panes@[1 - p].tabs@;
                &&& was.len() == 1 ==> final(a).panes == a.panes
                &&& was.len() > 1 ==> {
                    &&& left.len() == was.len() - 1
                    &&& forall|j: int| 0 <= j < t ==> #[trigger] left[j] == was[j]
                    &&& forall|j: int| t <= j < left.len() ==> #[trigger] left[j] == was[j + 1]
                    &&& got.len() == to.len() + 1
                    &&& forall|j: int| 0 <= j < to.len() ==> #[trigger] got[j] == to[j]
                    &&& got.last() == (Tab { listing_dirty: true, ..was[t as int] })
                    &&& final(a).active_pane == 1 - p
                }
            },
{
    assert forall|a: &mut FileManApp, now: &str|
        #[trigger] call_ensures(
            FileManApp::tab_menu::<D>,
            (a, TabChoice::MoveToOtherPane, is_dir, now),
            (),
        ) && a.wf() && a.dialog == Some(Dialog::TabContext { pane_idx: p, tab_idx: t }) && t
            < a.panes@[p as int].tabs@.len() implies {
        let was = a.panes@[p as int].tabs@;
        let to = a.panes@[1 - p].tabs@;
        let left = final(a).panes@[p as int].tabs@;
        let got = final(a).panes@[1 - p].tabs@;
        &&& was.len() == 1 ==> final(a).panes == a.panes
        &&& was.len() > 1 ==> {
            &&& left.len() == was.len() - 1
            &&& forall|j: int| 0 <= j < t ==> #[trigger] left[j] == was[j]
            &&& forall|j: int| t <= j < left.len() ==> #[trigger] left[j] == was[j + 1]
            &&& got.len() == to.len() + 1
            &&& forall|j: int| 0 <= j < to.len() ==> #[trigger] got[j] == to[j]
            &&& got.last() == (Tab { listing_dirty: true, ..was[t as int] })
            &&& final(a).active_pane == 1 - p
        }
    } by {
        assert(app_tabs::tab_exists(*a, p, t));
        assert(a.panes@[p as int].wf());
    }
}

proof fn lemma_others_passed(
    passed: Seq<bool>,
    idx: int,
    p: spec_fn(int) -> bool,
)
    requires
        forall|i: int| #[trigger] p(i) == (passed[i] && i != idx),
    ensures
        app_tabs::others_passed(passed, idx) == Seq::new(passed.len(), |i: int| i).filter(p).len(),
{
    lemma_others_passed_upto(passed, passed.len() as int, idx, p);
    assert(passed.subrange(0, passed.len() as int) =~= passed);
}

proof fn lemma_others_passed_upto(
    passed: Seq<bool>,
    n: int,
    idx: int,
    p: spec_fn(int) -> bool,
)
    requires
        0 <= n <= passed.len(),
        forall|i: int| #[trigger] p(i) == (passed[i] && i != idx),
    ensures
        app_tabs::others_passed(passed.subrange(0, n), idx) == Seq::new(
            n as nat,
            |i: int| i,
        ).filter(p).len(),
    decreases n,
{
    reveal(Seq::filter);
    let places = Seq::new(n as nat, |i: int| i);
    if n > 0 {
        lemma_others_passed_upto(passed, n - 1, idx, p);
        assert(passed.subrange(0, n).drop_last() =~= passed.subrange(0, n - 1));
        assert(places.drop_last() =~= Seq::new((n - 1) as nat, |i: int| i));
        assert(places.last() == n - 1);
        assert(p(n - 1) == (passed[n - 1] && n - 1 != idx));
    }
}

/// A tab that is dragged along its strip goes behind as many of the others as
/// it has passed.
pub proof fn law_a_dragged_tab_goes_behind_those_it_passed(
    passed: &Vec<bool>,
    idx: usize,
    r: usize,
)
    requires
        call_ensures(reorder_slot, (passed, idx), r),
    ensures
        r == Seq::new(passed@.len(), |i: int| i).filter(|i: int| passed@[i] && i != idx).len(),
{
    lemma_others_passed(passed@, idx as int, |i: int| passed@[i] && i != idx);
}

/// Dragging a tab keeps every tab of its pane, and those of the other pane as
/// they are.
pub proof fn law_dragging_keeps_every_tab(
    after: FileManApp,
    before: FileManApp,
    p: usize,
    passed: Option<Seq<bool>>,
    started: Option<usize>,
)
    requires
        before.wf(),
        p < 2,
        passed matches Some(v) ==> v.len() == before.panes@[p as int].tabs@.len(),
        app_tabs::reordered(after, before, p, passed, started),
    ensures
        after.panes@[1 - p] == before.panes@[1 - p],
        after.panes@[p as int].tabs@.to_multiset() == before.panes@[p as int].tabs@.to_multiset(),
        after.panes@[p as int].active() == before.panes@[p as int].active(),
{
    broadcast use vstd::seq_lib::group_to_multiset_ensures;

    let was = before.panes@[p as int];
    assert(was.wf());
    match app_tabs::drag_at(before, p, started) {
        Some(d) => {
            if passed is Some && d.pane_idx == p && d.idx < was.tabs@.len() {
                let target = app_tabs::others_passed(passed->0, d.idx as int);
                app_tabs::lemma_others_passed(passed->0, d.idx as int);
                if target != d.idx {
                    let t = was.tabs@[d.idx as int];
                    let rest = was.tabs@.remove(d.idx as int);
                    rest.insert_ensures(target as int, t);
                    assert(after.panes@[p as int].tabs@ == rest.insert(target as int, t));
                    assert(rest.insert(target as int, t).to_multiset() =~= was.tabs@.to_multiset());
                }
            }
        },
        None => {},
    }
}

/// Sorting one tab leaves every other tab, and the sorting of tabs to come, as
/// they were.
pub proof fn law_sorting_one_tab_leaves_the_others(
    after: FileManApp,
    before: FileManApp,
    col: Seq<char>,
    asc: bool,
    p: usize,
)
    requires
        before.wf(),
        p < 2,
        app_tabs::sort_applied(after, before, col, asc, p, false),
    ensures
        only_tab_differs(after, before, p as int, before.panes@[p as int].active_tab as int),
        after.panes@[p as int].active().sort_col@ == col,
        after.panes@[p as int].active().sort_asc == asc,
        after.panes@[p as int].active().path == before.panes@[p as int].active().path,
        after.prefs == before.prefs && after.db == before.db,
{
    assert(before.panes@[p as int].wf());
}

/// Taking a path off the recent items takes that path alone, and clearing them
/// takes all of the current user's; those of the other users stay.
pub proof fn law_recent_items_go_when_asked(p: &str, v: i64)
    ensures
        forall|a: &mut FileManApp|
            #[trigger] call_ensures(FileManApp::remove_recent, (a, p), ()) ==> {
                let u = a.current_user_id;
                &&& final(a).db.recent_of(u) == a.db.recent_of(u).filter(
                    |x: (Seq<char>, bool, Seq<char>)| x.0 != p@,
                )
                &&& v != u ==> final(a).db.recent_of(v) == a.db.recent_of(v)
                &&& final(a).panes == a.panes
            },
        forall|a: &mut FileManApp|
            #[trigger] call_ensures(FileManApp::clear_recent, (a,), ()) ==> {
                let u = a.current_user_id;
                &&& final(a).db.recent_of(u).len() == 0 && final(a).recent_items@.len() == 0
                &&& v != u ==> final(a).db.recent_of(v) == a.db.recent_of(v)
                &&& final(a).panes == a.panes
            },
{
    assert forall|a: &mut FileManApp|
        #[trigger] call_ensures(FileManApp::remove_recent, (a, p), ()) implies {
        let u = a.current_user_id;
        &&& final(a).db.recent_of(u) == a.db.recent_of(u).filter(
            |x: (Seq<char>, bool, Seq<char>)| x.0 != p@,
        )
        &&& v != u ==> final(a).db.recent_of(v) == a.db.recent_of(v)
        &&& final(a).panes == a.panes
    } by {
        db::lemma_without_path_filters(
            a.db.recent_of(a.current_user_id),
            p@,
            |x: (Seq<char>, bool, Seq<char>)| x.0 != p@,
        );
    }
}

/// A click on a tab makes it the active one of its pane, and a click into a pane
/// makes that the active pane; no tab changes.
pub proof fn law_clicks_choose_tabs_and_panes(p: usize, t: usize)
    requires
        p < 2,
    ensures
        forall|a: &mut FileManApp|
            #[trigger] call_ensures(FileManApp::click_tab, (a, p, t), ()) && a.wf() ==> {
                &&& final(a).panes@[p as int].active_tab == t
                &&& final(a).panes@[p as int].tabs == a.panes@[p as int].tabs
                &&& final(a).panes@[1 - p] == a.panes@[1 - p]
            },
        forall|a: &mut FileManApp|
            #[trigger] call_ensures(FileManApp::focus_pane, (a, p), ()) ==> {
                &&& final(a).active_pane == p
                &&& final(a).panes == a.panes
            },
{
}

} // verus!
