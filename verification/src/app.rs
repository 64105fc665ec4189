//! The state of the program: two panes, the clipboard, the dialog that is open,
//! and what is kept of the current user.

use crate::actions::{
    init_tables, list_custom_actions, load_shortcut_map, load_toolbar, Action, ActionRef,
    CustomAction,
};
use crate::browse::sorted_tab;
use crate::db::{
    add_recent_item, get_favourites, get_recent_items, Database, RecentItem, RECENT_LIMIT,
};
use crate::dialog::Dialog;
use crate::fs_ops::ClipboardOp;
use crate::listing::ListingJob;
use crate::pane::Pane;
use crate::prefs::{load_preferences, Preferences};
use crate::progress::BackgroundOp;
use crate::session::{load_session, save_session, LoadedSession};
use crate::shortcuts::ShortcutMap;
use crate::subdirs::SubdirCache;
use crate::tab::Tab;
use crate::tips::TipsCard;
use crate::tree::TreeView;
use crate::user::{list_users, User};
use crate::{actions, browse, db, prefs, session, subdirs, text, user};
use vstd::prelude::*;

verus! {

/// An in-progress drag of a tab inside its pane's strip.
#[derive(Debug, Clone, Copy, PartialEq, Eq, Structural)]
pub struct TabReorderDrag {
    pub pane_idx: usize,
    /// Where the dragged tab is now.
    pub idx: usize,
    /// The tab has changed places since the drag began.
    pub moved: bool,
}

/// The state of the program.
#[derive(Debug, PartialEq)]
pub struct FileManApp {
    pub db: Database,
    pub current_user_id: i64,
    /// The user profiles.
    pub users: Vec<User>,
    pub panes: Vec<Pane>,
    pub active_pane: usize,
    /// The open tabs have to be saved.
    pub dirty: bool,
    pub clipboard: Vec<String>,
    pub clipboard_op: Option<ClipboardOp>,
    pub dialog: Option<Dialog>,
    /// A dialog was opened in this frame.
    pub dialog_just_opened: bool,
    pub status: String,
    pub prefs: Preferences,
    pub show_settings: bool,
    pub show_recent_popup: bool,
    /// Index of the last selected entry (anchor for Shift+click).
    pub last_selected_index: Option<usize>,
    pub favourites: Vec<String>,
    /// Recently accessed files and folders, newest first.
    pub recent_items: Vec<RecentItem>,
    pub shortcut_map: ShortcutMap,
    pub toolbar_actions: Vec<ActionRef>,
    pub custom_actions: Vec<CustomAction>,
    /// The action that waits for its new keys.
    pub capturing_shortcut_for: Option<Action>,
    pub background_op: Option<BackgroundOp>,
    /// Directories that the background operation changes.
    pub background_op_dirs: Vec<String>,
    /// The background listing of each pane.
    pub listing_jobs: Vec<ListingJob>,
    pub subdirs: SubdirCache,
    pub tree: TreeView,
    pub tab_reorder: Option<TabReorderDrag>,
    /// A search is running in the background.
    pub find_running: bool,
    pub tips: TipsCard,
}

// ---------------------------------------------------------------------------
// Panes
// ---------------------------------------------------------------------------

/// A pane with one new tab at the root of the system drive.
pub open spec fn fresh_sorted(p: Pane, sort_col: Seq<char>, sort_asc: bool) -> bool {
    &&& p.wf()
    &&& p.tabs@.len() == 1
    &&& browse::opened_tab(p.tabs@[0], "C:\\"@, sort_col, sort_asc)
    &&& p.active_tab == 0
    &&& p.address_bar@ == "C:\\"@
    &&& !p.address_edit_mode
}

/// `after` are the two panes that the program starts with when `before` are
/// restored.
pub open spec fn two_panes(
    after: Seq<Pane>,
    before: Seq<Pane>,
    sort_col: Seq<char>,
    sort_asc: bool,
) -> bool {
    &&& after.len() == 2
    &&& forall|i: int| 0 <= i < 2 && i < before.len() ==> #[trigger] after[i] == before[i]
    &&& forall|i: int|
        before.len() <= i < 2 ==> fresh_sorted(#[trigger] after[i], sort_col, sort_asc)
}

/// Pads `panes` up to two panes rooted at `C:\` if there are fewer than two,
/// truncating if there are more, and clamping `active_pane` into the resulting
/// valid range. Freshly created panes' first tab is seeded with the default
/// sorting, while already-loaded panes keep whatever each restored tab had
/// saved.
pub fn ensure_two_panes(panes: Vec<Pane>, active_pane: usize, default_sort: (&str, bool)) -> (r: (
    Vec<Pane>,
    usize,
))
    requires
        forall|i: int| 0 <= i < panes@.len() ==> (#[trigger] panes@[i]).wf(),
    ensures
        two_panes(r.0@, panes@, default_sort.0@, default_sort.1),
        forall|i: int| 0 <= i < 2 ==> (#[trigger] r.0@[i]).wf(),
        r.1 == (if active_pane < 2 {
            active_pane
        } else {
            1
        }),
{
    let mut out = panes;
    while out.len() < 2
        invariant
            out@.len() >= panes@.len(),
            out@.len() > panes@.len() ==> out@.len() <= 2,
            forall|i: int| 0 <= i < panes@.len() ==> #[trigger] out@[i] == panes@[i],
            forall|i: int|
                panes@.len() <= i < out@.len() ==> fresh_sorted(
                    #[trigger] out@[i],
                    default_sort.0@,
                    default_sort.1,
                ),
            forall|i: int| 0 <= i < out@.len() ==> (#[trigger] out@[i]).wf(),
        decreases 2 - out.len(),
    {
        let t = sorted_tab("C:\\".to_owned(), default_sort.0, default_sort.1);
        let mut tabs: Vec<Tab> = Vec::new();
        tabs.push(t);
        out.push(
            Pane { tabs, active_tab: 0, address_bar: "C:\\".to_owned(), address_edit_mode: false },
        );
    }
    out.truncate(2);
    let active: usize = if active_pane < 2 {
        active_pane
    } else {
        1
    };
    (out, active)
}

/// The active tab of a pane has become `t`, and nothing else of the pane has
/// changed.
pub open spec fn active_became(after: Pane, before: Pane, t: Tab) -> bool {
    &&& after.tabs@ == before.tabs@.update(before.active_tab as int, t)
    &&& after.active_tab == before.active_tab
    &&& after.same_address(before)
}

// ---------------------------------------------------------------------------
// Invariants
// ---------------------------------------------------------------------------

/// The recent items, as many as are kept.
pub open spec fn kept_recent(
    s: Seq<(Seq<char>, bool, Seq<char>)>,
) -> Seq<(Seq<char>, bool, Seq<char>)> {
    if s.len() > RECENT_LIMIT {
        s.subrange(0, RECENT_LIMIT as int)
    } else {
        s
    }
}

impl FileManApp {
    /// There are two panes, one of them active, and both hold valid tabs.
    pub open spec fn wf(self) -> bool {
        &&& self.db.wf()
        &&& session::sessions_countable(self.db)
        &&& self.panes@.len() == 2
        &&& forall|i: int| 0 <= i < 2 ==> (#[trigger] self.panes@[i]).wf()
        &&& self.active_pane < 2
        &&& self.listing_jobs@.len() == 2
        &&& self.shortcut_map.wf()
        &&& self.tips.wf()
    }

    /// What is shown of the current user is what the database holds.
    pub open spec fn synced(self) -> bool {
        let u = self.current_user_id;
        &&& user::shows_users(self.users@, self.db.users@)
        &&& text::texts(self.favourites@) == self.db.favourites_of(u)
        &&& db::recent_views(self.recent_items@) == kept_recent(self.db.recent_of(u))
        &&& self.shortcut_map@ == actions::effective_shortcuts(self.db.bindings.rows(), u)
        &&& actions::shows_customs(
            self.custom_actions@,
            actions::visible_customs(self.db.custom_actions@, u),
        )
    }

    /// The active tab of the active pane.
    pub open spec fn active(self) -> Tab {
        self.panes@[self.active_pane as int].active()
    }

    /// The active tab of the active pane has become `t`.
    pub open spec fn active_is_now(self, before: FileManApp, t: Tab) -> bool {
        &&& self.panes@.len() == before.panes@.len()
        &&& forall|i: int|
            0 <= i < before.panes@.len() && i != before.active_pane ==> #[trigger] self.panes@[i]
                == before.panes@[i]
        &&& active_became(
            self.panes@[before.active_pane as int],
            before.panes@[before.active_pane as int],
            t,
        )
    }
}

// ---------------------------------------------------------------------------
// Starting, and changing users
// ---------------------------------------------------------------------------

/// The panes that a user starts with: the ones of their last session, or two
/// new ones.
pub open spec fn starting_panes(
    after: Seq<Pane>,
    active_pane: usize,
    loaded: Option<LoadedSession>,
    p: Preferences,
) -> bool {
    match loaded {
        Some(s) => two_panes(after, s.panes@, p.sort_col@, p.sort_asc) && active_pane == (
        if s.panes@.len() == 0 {
            0
        } else if s.active_pane < 2 {
            s.active_pane
        } else {
            1
        }),
        None => two_panes(after, Seq::<Pane>::empty(), p.sort_col@, p.sort_asc) && active_pane
            == 0,
    }
}

fn open_panes(loaded: Option<LoadedSession>, p: &Preferences) -> (r: (Vec<Pane>, usize))
    requires
        loaded matches Some(s) ==> forall|i: int|
            0 <= i < s.panes@.len() ==> (#[trigger] s.panes@[i]).wf(),
    ensures
        starting_panes(r.0@, r.1, loaded, *p),
        forall|i: int| 0 <= i < 2 ==> (#[trigger] r.0@[i]).wf(),
        r.0@.len() == 2,
        r.1 < 2,
{
    match loaded {
        Some(s) => {
            let active: usize = if s.panes.len() == 0 {
                0
            } else {
                s.active_pane
            };
            ensure_two_panes(s.panes, active, (p.sort_col.as_str(), p.sort_asc))
        },
        None => {
            let none: Vec<Pane> = Vec::new();
            ensure_two_panes(none, 0, (p.sort_col.as_str(), p.sort_asc))
        },
    }
}

fn idle_jobs() -> (r: Vec<ListingJob>)
    ensures
        r@.len() == 2,
        r@[0].dir is None,
        r@[1].dir is None,
{
    let mut r: Vec<ListingJob> = Vec::new();
    r.push(ListingJob::idle());
    r.push(ListingJob::idle());
    r
}

/// The first tab of the first pane once the program was started with a folder.
pub open spec fn started_at(after: Seq<Pane>, before: Seq<Pane>, dir: Option<String>) -> bool {
    match dir {
        Some(d) => {
            &&& after.len() == before.len()
            &&& after[1] == before[1]
            &&& after[0].tabs@ == before[0].tabs@.update(
                0,
                (Tab { path: d, listing_dirty: true, ..before[0].tabs@[0] }),
            )
            &&& after[0].active_tab == before[0].active_tab
            &&& after[0].same_address(before[0])
        },
        None => after == before,
    }
}

/// What changing to a user does: the session is saved, and theirs is opened.
/// Changing to the current user does nothing.
pub open spec fn switched<F: Fn(&String) -> bool>(
    after: FileManApp,
    before: FileManApp,
    user_id: i64,
    on_disk: F,
) -> bool {
    if user_id == before.current_user_id {
        after == before
    } else {
        &&& after.opened_for(user_id, on_disk)
        &&& prefs::reads(after.prefs, after.db.settings@, user_id)
        &&& after.db.same_but_sessions(before.db)
        &&& left_saved(after.db, before)
        &&& after.status@ == ""@
        &&& after.listing_jobs@[0].dir is None
        &&& after.listing_jobs@[1].dir is None
        &&& !after.find_running
        &&& after == (FileManApp {
            db: after.db,
            current_user_id: after.current_user_id,
            panes: after.panes,
            active_pane: after.active_pane,
            prefs: after.prefs,
            favourites: after.favourites,
            recent_items: after.recent_items,
            shortcut_map: after.shortcut_map,
            toolbar_actions: after.toolbar_actions,
            custom_actions: after.custom_actions,
            listing_jobs: after.listing_jobs,
            find_running: after.find_running,
            status: after.status,
            ..before
        })
    }
}

/// `d` holds the open tabs of `before`'s user, and the other sessions as they
/// were.
pub open spec fn left_saved(d: Database, before: FileManApp) -> bool {
    let u = Some(before.current_user_id);
    &&& d.sessions@ == before.db.sessions@.insert(u, d.sessions@[u])
    &&& session::row_views(d.sessions@[u].tabs@) == session::saved_panes(before.panes@)
    &&& d.sessions@[u].active_pane == before.active_pane
}

impl FileManApp {
    /// Starts the program for a user with their last session. With
    /// `startup_dir` it was launched as the default folder explorer, and the
    /// first tab goes there. The folder of the first tab is recorded as recent
    /// at the time `now`, so that the list is not blank on first launch;
    /// whether it is a folder is answered by `is_dir`.
    pub fn new<D: Fn(&String) -> bool>(
        mut db: Database,
        current_user_id: i64,
        loaded: Option<LoadedSession>,
        startup_dir: Option<String>,
        tips: TipsCard,
        is_dir: &D,
        now: &str,
    ) -> (r: Self)
        requires
            db.wf(),
            tips.wf(),
            session::sessions_countable(db),
            loaded matches Some(s) ==> forall|i: int|
                0 <= i < s.panes@.len() ==> (#[trigger] s.panes@[i]).wf(),
            forall|s: &String| call_requires(*is_dir, (s,)),
        ensures
            r.wf(),
            r.synced(),
            r.current_user_id == current_user_id,
            prefs::reads(r.prefs, db.settings@, current_user_id),
            exists|panes: Seq<Pane>, active: usize| #[trigger]
                starting_panes(panes, active, loaded, r.prefs) && r.active_pane == active
                    && started_at(r.panes@, panes, startup_dir),
            exists|d: bool|
                {
                    &&& #[trigger] session::answered(*is_dir, r.panes@[0].tabs@[0].path@, d)
                    &&& r.db.recent_of(current_user_id) == db::accessed(
                        db.recent_of(current_user_id),
                        r.panes@[0].tabs@[0].path@,
                        d,
                        now@,
                    )
                },
            forall|v: i64|
                v != current_user_id ==> #[trigger] r.db.recent_of(v) == db.recent_of(v),
            r.toolbar_actions@ == actions::effective_toolbar(r.db.toolbars@, current_user_id),
            actions::layout_ids(db.toolbars@, None).len() > 0 ==> r.db.toolbars == db.toolbars,
            actions::layout_ids(db.toolbars@, None).len() == 0 ==> actions::layout_ids(
                r.db.toolbars@,
                None,
            ) == actions::action_ids(actions::default_toolbar()),
            forall|o: Option<i64>|
                o != None::<i64> ==> #[trigger] actions::layout_ids(r.db.toolbars@, o)
                    == actions::layout_ids(db.toolbars@, o),
            r.db.settings == db.settings,
            r.db.bindings == db.bindings,
            r.db.ext_overrides == db.ext_overrides,
            r.db.users == db.users,
            r.db.last_user_id == db.last_user_id,
            r.db.sessions == db.sessions,
            r.db.favourites == db.favourites,
            r.db.custom_actions == db.custom_actions,
            r.db.last_custom_id == db.last_custom_id,
            !r.dirty,
            r.clipboard@.len() == 0,
            r.clipboard_op is None,
            r.dialog is None,
            !r.dialog_just_opened,
            r.status@ == ""@,
            !r.show_settings,
            !r.show_recent_popup,
            r.last_selected_index is None,
            r.capturing_shortcut_for is None,
            r.background_op is None,
            r.background_op_dirs@.len() == 0,
            r.listing_jobs@[0].dir is None,
            r.listing_jobs@[1].dir is None,
            forall|q: Seq<char>| #[trigger]
                r.subdirs.state(q) == subdirs::SubdirState::Unknown,
            r.tree == (TreeView { shown: None, scroll_frames: 0, collapse_frames: 0 }),
            r.tab_reorder is None,
            !r.find_running,
            r.tips == tips,
    {
        let ghost db0 = db;
        let p = load_preferences(&db, current_user_id);
        let (opened, active_pane) = open_panes(loaded, &p);
        let mut panes = opened;
        let ghost start = panes@;
        match startup_dir {
            Some(dir) => {
                let mut first: Pane = panes.remove(0);
                let ghost f0 = first;
                first.tabs[0].path = dir;
                first.tabs[0].listing_dirty = true;
                assert(first.tabs@ =~= f0.tabs@.update(
                    0,
                    (Tab { path: dir, listing_dirty: true, ..f0.tabs@[0] }),
                ));
                assert(first.wf());
                panes.insert(0, first);
                assert(panes@[1] == start[1]);
            },
            None => {},
        }
        init_tables(&mut db);
        let at = panes[0].tabs[0].path.clone();
        let there: bool = is_dir(&at);
        assert(session::answered(*is_dir, at@, there));
        add_recent_item(&mut db, current_user_id, at.as_str(), there, now);
        let r = FileManApp {
            users: list_users(&db),
            favourites: get_favourites(&db, current_user_id),
            recent_items: get_recent_items(&db, current_user_id, RECENT_LIMIT),
            shortcut_map: load_shortcut_map(&db, current_user_id),
            toolbar_actions: load_toolbar(&db, current_user_id),
            custom_actions: list_custom_actions(&db, current_user_id),
            db,
            current_user_id,
            panes,
            active_pane,
            dirty: false,
            clipboard: Vec::new(),
            clipboard_op: None,
            dialog: None,
            dialog_just_opened: false,
            status: "".to_owned(),
            prefs: p,
            show_settings: false,
            show_recent_popup: false,
            last_selected_index: None,
            capturing_shortcut_for: None,
            background_op: None,
            background_op_dirs: Vec::new(),
            listing_jobs: idle_jobs(),
            subdirs: SubdirCache::new(),
            tree: TreeView::new(),
            tab_reorder: None,
            find_running: false,
            tips,
        };
        assert(starting_panes(start, active_pane, loaded, r.prefs));
        r
    }

    /// Saves the open tabs of the current user.
    pub fn persist(&mut self)
        requires
            old(self).wf(),
        ensures
            final(self).wf(),
            *final(self) == (FileManApp { db: final(self).db, ..*old(self) }),
            final(self).db.same_but_sessions(old(self).db),
            left_saved(final(self).db, *old(self)),
            old(self).synced() ==> final(self).synced(),
    {
        let ghost before = self.db;
        save_session(&mut self.db, self.current_user_id, &self.panes, self.active_pane);
        proof {
            session::law_saved_sessions_are_countable(
                before,
                self.db,
                self.current_user_id,
                self.panes@,
            );
        }
    }

    /// What a user is met with: their own panes, preferences, favourites,
    /// recent items, shortcuts, toolbar and actions.
    pub open spec fn opened_for<F: Fn(&String) -> bool>(self, user_id: i64, on_disk: F) -> bool {
        &&& self.current_user_id == user_id
        &&& self.synced()
        &&& self.toolbar_actions@ == actions::effective_toolbar(self.db.toolbars@, user_id)
        &&& exists|loaded: Option<LoadedSession>| #[trigger]
            starting_panes(self.panes@, self.active_pane, loaded, self.prefs) && match loaded {
                Some(s) => self.db.sessions@.contains_key(Some(user_id))
                    && session::restores_session(s, self.db.sessions@[Some(user_id)], on_disk),
                None => !self.db.sessions@.contains_key(Some(user_id)) || self.db.sessions@[Some(
                    user_id,
                )].tabs@.len() == 0,
            }
    }

    /// Persists current state, switches to `user_id`'s session (loading its
    /// panes, or a fresh two-pane default if it has none yet), and reloads every
    /// per-user setting. Switching to the current user does nothing.
    pub fn switch_user<F: Fn(&String) -> bool>(&mut self, user_id: i64, on_disk: &F)
        requires
            old(self).wf(),
            user::shows_users(old(self).users@, old(self).db.users@),
            forall|s: &String| call_requires(*on_disk, (s,)),
        ensures
            final(self).wf(),
            switched(*final(self), *old(self), user_id, *on_disk),
    {
        if user_id == self.current_user_id {
            return;
        }
        self.persist();
        self.current_user_id = user_id;
        let loaded = load_session(&self.db, user_id, on_disk);
        let ghost l = loaded;
        self.prefs = load_preferences(&self.db, user_id);
        let (panes, active_pane) = open_panes(loaded, &self.prefs);
        self.panes = panes;
        self.active_pane = active_pane;
        self.favourites = get_favourites(&self.db, user_id);
        self.recent_items = get_recent_items(&self.db, user_id, RECENT_LIMIT);
        self.shortcut_map = load_shortcut_map(&self.db, user_id);
        self.toolbar_actions = load_toolbar(&self.db, user_id);
        self.custom_actions = list_custom_actions(&self.db, user_id);
        self.listing_jobs = idle_jobs();
        self.find_running = false;
        self.status = "".to_owned();
        assert(starting_panes(self.panes@, self.active_pane, l, self.prefs));
    }

    /// Re-reads every setting from the database after an import so the program
    /// reflects the new values immediately.
    pub fn reload_settings_from_db(&mut self)
        requires
            old(self).wf(),
        ensures
            final(self).wf(),
            ({
                let u = old(self).current_user_id;
                &&& prefs::reads(final(self).prefs, old(self).db.settings@, u)
                &&& final(self).shortcut_map@ == actions::effective_shortcuts(
                    old(self).db.bindings.rows(),
                    u,
                )
                &&& final(self).toolbar_actions@ == actions::effective_toolbar(
                    old(self).db.toolbars@,
                    u,
                )
                &&& actions::shows_customs(
                    final(self).custom_actions@,
                    actions::visible_customs(old(self).db.custom_actions@, u),
                )
            }),
            *final(self) == (FileManApp {
                prefs: final(self).prefs,
                shortcut_map: final(self).shortcut_map,
                toolbar_actions: final(self).toolbar_actions,
                custom_actions: final(self).custom_actions,
                ..*old(self)
            }),
    {
        let u: i64 = self.current_user_id;
        self.prefs = load_preferences(&self.db, u);
        self.shortcut_map = load_shortcut_map(&self.db, u);
        self.toolbar_actions = load_toolbar(&self.db, u);
        self.custom_actions = list_custom_actions(&self.db, u);
    }
}

} // verus!
