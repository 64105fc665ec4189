//! What holds of the program as a whole.

use crate::actions::Action;
use crate::app::FileManApp;
use crate::app_nav::Effect;
use crate::session::LoadedSession;
use crate::{app, app_dispatch, app_files, app_nav, prefs, session, text, transfer};
use vstd::prelude::*;

verus! {

proof fn lemma_sessions_have_tabs(a: FileManApp)
    requires
        a.wf(),
    ensures
        session::saved_panes(a.panes@).len() > 0,
{
    let last = a.panes@.last();
    assert(a.panes@[1].wf());
    assert(session::saved_pane(last, a.panes@.len() - 1).len() == last.tabs@.len());
}

/// Changing to another user and back brings back the panes as they were left:
/// their tabs, the folders that still exist, the sorting and the layout of each
/// tab, and which of them are active.
pub proof fn law_changing_back_restores_the_tabs<F: Fn(&String) -> bool>(
    a: FileManApp,
    b: FileManApp,
    c: FileManApp,
    other: i64,
    on_disk: F,
    k: int,
    i: int,
)
    requires
        a.wf(),
        other != a.current_user_id,
        app::switched(b, a, other, on_disk),
        app::switched(c, b, a.current_user_id, on_disk),
        0 <= k < 2,
        0 <= i < a.panes@[k].tabs@.len(),
        !session::answered(on_disk, a.panes@[k].tabs@[i].path@, false),
    ensures
        c.current_user_id == a.current_user_id,
        c.active_pane == a.active_pane,
        c.panes@[k].tabs@.len() == a.panes@[k].tabs@.len(),
        c.panes@[k].active_tab == a.panes@[k].active_tab,
        c.panes@[k].tabs@[i].path@ == a.panes@[k].tabs@[i].path@,
        c.panes@[k].tabs@[i].sort_col@ == a.panes@[k].tabs@[i].sort_col@,
        c.panes@[k].tabs@[i].sort_asc == a.panes@[k].tabs@[i].sort_asc,
        c.panes@[k].tabs@[i].col_widths@ == a.panes@[k].tabs@[i].col_widths@,
        c.panes@[k].tabs@[i].view_mode == a.panes@[k].tabs@[i].view_mode,
{
    let u = Some(a.current_user_id);
    let saved = b.db.sessions@[u];
    lemma_sessions_have_tabs(a);
    assert(session::row_views(saved.tabs@).len() == saved.tabs@.len());
    assert(c.db.sessions@[u] == saved);
    let loaded = choose|loaded: Option<LoadedSession>| #[trigger]
        app::starting_panes(c.panes@, c.active_pane, loaded, c.prefs) && match loaded {
            Some(s) => c.db.sessions@.contains_key(u) && session::restores_session(
                s,
                c.db.sessions@[u],
                on_disk,
            ),
            None => !c.db.sessions@.contains_key(u) || c.db.sessions@[u].tabs@.len() == 0,
        };
    assert(loaded is Some);
    let s = loaded->0;
    session::law_session_round_trips(
        a.panes@,
        a.active_pane as int,
        saved,
        s,
        on_disk,
        k,
        i,
    );
    assert(c.panes@[k] == s.panes@[k]);
}

/// The user that was left keeps their settings, favourites, recent items,
/// shortcuts and actions while another one is at work: changing users touches
/// the saved sessions alone.
pub proof fn law_changing_users_keeps_their_settings<F: Fn(&String) -> bool>(
    a: FileManApp,
    b: FileManApp,
    other: i64,
    on_disk: F,
)
    requires
        app::switched(b, a, other, on_disk),
    ensures
        b.db.settings == a.db.settings,
        b.db.bindings == a.db.bindings,
        b.db.toolbars == a.db.toolbars,
        b.db.custom_actions == a.db.custom_actions,
        b.db.ext_overrides == a.db.ext_overrides,
        b.db.favourites == a.db.favourites,
        b.db.recent == a.db.recent,
        forall|u: i64|
            u != a.current_user_id ==> (#[trigger] b.db.sessions@.contains_key(Some(u))
                == a.db.sessions@.contains_key(Some(u))) && (a.db.sessions@.contains_key(Some(u))
                ==> b.db.sessions@[Some(u)] == a.db.sessions@[Some(u)]),
{
}

/// Each user has independent settings: whoever changes to another user gets the
/// preferences that are stored for that one, and whoever comes back gets their
/// own, whatever was in force in between.
pub proof fn law_users_have_independent_settings<F: Fn(&String) -> bool>(
    a: FileManApp,
    b: FileManApp,
    c: FileManApp,
    other: i64,
    on_disk: F,
)
    requires
        other != a.current_user_id,
        app::switched(b, a, other, on_disk),
        app::switched(c, b, a.current_user_id, on_disk),
    ensures
        prefs::reads(b.prefs, a.db.settings@, other),
        prefs::reads(c.prefs, a.db.settings@, a.current_user_id),
{
}

/// The tab that was active in pane `p` is still there, in its place and on its
/// folder.
pub open spec fn stays_put(after: FileManApp, before: FileManApp, p: int) -> bool {
    let t = before.panes@[p].active_tab as int;
    let was = before.panes@[p].tabs@[t];
    &&& t < after.panes@[p].tabs@.len()
    &&& after.panes@[p].tabs@[t].path == was.path
    &&& after.panes@[p].tabs@[t].locked == was.locked
}

proof fn lemma_pasting_stays_put<F: Fn(&String) -> bool>(
    after: FileManApp,
    before: FileManApp,
    on_disk: F,
    effect: Effect,
)
    requires
        before.wf(),
        app_files::pasted_from(after, before, on_disk, effect),
    ensures
        stays_put(after, before, before.active_pane as int),
{
    let dest = before.active().path@;
    let op = before.clipboard_op;
    let items = transfer::pasted(text::texts(before.clipboard@), dest, op);
    assert(before.panes@[before.active_pane as int].wf());
    if items.len() > 0 {
        let answers = choose|answers: Seq<bool>| #[trigger]
            transfer::collisions_answered(items, dest, on_disk, answers) && app_files::sorted_out(
                after,
                before,
                transfer::picked(items, answers, true),
                transfer::picked(items, answers, false),
                dest,
                op,
                effect,
            );
        if transfer::picked(items, answers, true).len() == 0 {
            let clear = transfer::picked(items, answers, false);
            let sent = choose|sent: Seq<crate::progress::TransferItem>| #[trigger]
                app_files::transfer_started(after, before, sent, dest, op, effect)
                    && transfer::sources(sent) == clear && transfer::all_plain(sent);
            assert(app_files::transfer_started(after, before, sent, dest, op, effect));
        }
    }
}

/// No action takes a pinned tab away from its folder, or closes it.
pub proof fn law_pinned_tabs_stay<F: Fn(&String) -> bool, D: Fn(&String) -> bool>(
    after: FileManApp,
    before: FileManApp,
    action: Action,
    os: Option<Vec<String>>,
    on_disk: F,
    is_dir: D,
    now: Seq<char>,
    effect: Effect,
)
    requires
        before.wf(),
        before.active().locked,
        app_dispatch::acted(after, before, action, os, on_disk, is_dir, now, effect),
    ensures
        stays_put(after, before, before.active_pane as int),
{
    let ap = before.active_pane as int;
    assert(before.panes@[ap].wf());
    match action {
        Action::Paste => {
            if before.clipboard@.len() > 0 {
                lemma_pasting_stays_put(after, before, on_disk, effect);
            } else if os is Some && os->0@.len() > 0 {
                let mid = choose|mid: FileManApp| #[trigger]
                    app_files::imported(mid, before, os->0) && app_files::pasted_from(
                        after,
                        mid,
                        on_disk,
                        effect,
                    );
                lemma_pasting_stays_put(after, mid, on_disk, effect);
            }
        },
        Action::NewTab => {
            let t = before.panes@[ap].active_tab as int;
            assert(after.panes@[ap].tabs@.drop_last()[t] == before.panes@[ap].tabs@[t]);
        },
        _ => {},
    }
}

/// Going to a folder and then back leads to where one was, with nothing lost of
/// where one could go back to before.
pub proof fn law_back_returns<D: Fn(&String) -> bool>(
    a: FileManApp,
    b: FileManApp,
    c: FileManApp,
    target: Seq<char>,
    is_dir: D,
    then: Seq<char>,
    later: Seq<char>,
)
    requires
        a.wf(),
        !a.active().locked,
        app_nav::went(b, a, target, is_dir, then),
        app_nav::stepped(
            c,
            b,
            b.active_pane as int,
            b.active().history_back@.len() > 0,
            b.active().trail().backward(),
            is_dir,
            later,
        ),
    ensures
        b.active().path@ == target,
        c.active().path@ == a.active().path@,
        c.active().trail().back == a.active().trail().back,
        c.active().trail().forward == seq![target],
{
    let ap = a.active_pane as int;
    let to = a.active().trail().to(target);
    assert(b.panes@[ap].active().trail() == to);
    assert(to.back.len() == b.active().history_back@.len());
    crate::tab::law_back_undoes_a_move(a.active().trail(), target);
}

/// Cutting files and pasting them where they are already changes nothing.
pub proof fn law_cutting_in_place_does_nothing<F: Fn(&String) -> bool>(
    after: FileManApp,
    before: FileManApp,
    on_disk: F,
    effect: Effect,
)
    requires
        before.clipboard@.len() > 0,
        before.clipboard_op == Some(crate::fs_ops::ClipboardOp::Cut),
        forall|i: int|
            0 <= i < before.clipboard@.len() ==> transfer::already_there(
                (#[trigger] before.clipboard@[i])@,
                before.active().path@,
                before.clipboard_op,
            ),
        app_files::pasted_from(after, before, on_disk, effect),
    ensures
        effect == Effect::Nothing,
        after == (FileManApp { status: after.status, ..before }),
        after.status@ == "Nothing to paste"@,
{
    let all = text::texts(before.clipboard@);
    assert forall|i: int| 0 <= i < all.len() implies transfer::already_there(
        #[trigger] all[i],
        before.active().path@,
        before.clipboard_op,
    ) by {
        assert(all[i] == before.clipboard@[i]@);
    }
    lemma_nothing_is_pasted(all, before.active().path@, before.clipboard_op);
}

proof fn lemma_nothing_is_pasted(
    items: Seq<Seq<char>>,
    dest: Seq<char>,
    op: Option<crate::fs_ops::ClipboardOp>,
)
    requires
        forall|i: int| 0 <= i < items.len() ==> transfer::already_there(#[trigger] items[i], dest, op),
    ensures
        transfer::pasted(items, dest, op).len() == 0,
    decreases items.len(),
{
    if items.len() > 0 {
        let rest = items.drop_last();
        assert forall|i: int| 0 <= i < rest.len() implies transfer::already_there(
            #[trigger] rest[i],
            dest,
            op,
        ) by {
            assert(rest[i] == items[i]);
        }
        lemma_nothing_is_pasted(rest, dest, op);
        assert(transfer::already_there(items[items.len() - 1], dest, op));
    }
}

/// Clicking a folder's star twice leaves the favourites as they were, up to
/// their order.
pub proof fn law_star_twice(a: FileManApp, b: FileManApp, c: FileManApp, p: Seq<char>)
    requires
        a.wf(),
        app_dispatch::favourite_toggled(b, a, p),
        app_dispatch::favourite_toggled(c, b, p),
    ensures
        c.db.favourites_of(a.current_user_id).to_set() == a.db.favourites_of(
            a.current_user_id,
        ).to_set(),
{
    let s = a.db.favourites_of(a.current_user_id);
    assert(s.no_duplicates());
    let t = b.db.favourites_of(a.current_user_id);
    crate::db::law_favourite_toggles(s, p);
    if s.contains(p) {
        let at = s.index_of(p);
        let back = t.push(p);
        assert(t == s.remove(at));
        assert forall|x: Seq<char>| s.contains(x) == back.contains(x) by {
            if s.contains(x) {
                let j = choose|j: int| 0 <= j < s.len() && s[j] == x;
                if j < at {
                    assert(back[j] == x);
                } else if j > at {
                    assert(back[j - 1] == x);
                } else {
                    assert(back[back.len() - 1] == x);
                }
            }
            if back.contains(x) {
                let j = choose|j: int| 0 <= j < back.len() && back[j] == x;
                if j == back.len() - 1 {
                    assert(s[at] == x);
                } else if j < at {
                    assert(s[j] == x);
                } else {
                    assert(s[j + 1] == x);
                }
            }
        }
        assert(back.to_set() =~= s.to_set());
    }
}

} // verus!
