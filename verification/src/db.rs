//! The stored data of all users: profiles, settings, shortcuts, toolbars,
//! favourites, recent items and sessions.

use crate::store::Store;
use crate::table::TextTable;
use crate::text::{clone_strings, position_of, str_eq, str_lt, chars_of};
use crate::text;
use vstd::prelude::*;

verus! {

/// Why the stored data could not be changed.
#[derive(Debug, Clone, Copy, PartialEq, Eq, Structural)]
pub enum DbError {
    /// Another user has that name.
    NameTaken,
    /// Every row id has been given out.
    Full,
}

/// A stored user profile.
#[derive(Debug, PartialEq)]
pub struct UserRow {
    pub id: i64,
    pub name: String,
    pub is_default: bool,
}

/// A stored "open with" action. A row without an owner belongs to everybody.
#[derive(Debug, PartialEq)]
pub struct CustomRow {
    pub id: i64,
    pub label: String,
    pub exe_path: String,
    pub owner: Option<i64>,
}

/// A stored tab of a session.
#[derive(Debug, PartialEq)]
pub struct TabRow {
    pub pane_index: u64,
    pub path: String,
    pub is_active_tab: bool,
    pub sort_col: String,
    pub sort_asc: bool,
    pub col_widths: String,
    pub view_mode: String,
}

/// A stored session: its tabs, by pane and then by place in the pane, and the
/// active pane.
#[derive(Debug, PartialEq)]
pub struct SavedSession {
    pub tabs: Vec<TabRow>,
    pub active_pane: u64,
}

/// A recently accessed file or folder.
#[derive(Debug, PartialEq)]
pub struct RecentItem {
    pub path: String,
    pub is_dir: bool,
    pub accessed_at: String,
}

impl Clone for RecentItem {
    fn clone(&self) -> (r: Self)
        ensures
            r == *self,
    {
        RecentItem {
            path: self.path.clone(),
            is_dir: self.is_dir,
            accessed_at: self.accessed_at.clone(),
        }
    }
}

/// The stored data of all users.
#[derive(Debug, PartialEq)]
pub struct Database {
    /// User profiles in the order of their ids.
    pub users: Vec<UserRow>,
    /// The largest user id that was ever given out.
    pub last_user_id: i64,
    /// Settings, the shared defaults among them.
    pub settings: TextTable,
    /// Action ids by key combination.
    pub bindings: TextTable,
    /// Programs by file extension.
    pub ext_overrides: TextTable,
    /// Action ids of the toolbar buttons, in their order.
    pub toolbars: Store<Vec<String>>,
    /// "Open with" actions in the order of their ids.
    pub custom_actions: Vec<CustomRow>,
    /// The largest custom action id that was ever given out.
    pub last_custom_id: i64,
    /// Favourite folders in the order in which they were added.
    pub favourites: Store<Vec<String>>,
    /// Recent items, newest first.
    pub recent: Store<Vec<RecentItem>>,
    /// The open tabs when the program was left.
    pub sessions: Store<SavedSession>,
}

/// The user ids are in strictly increasing order, none is beyond the last
/// one given out, and no two users share a name.
pub open spec fn users_wf(users: Seq<UserRow>, last: i64) -> bool {
    &&& forall|i: int, j: int| 0 <= i < j < users.len() ==> (#[trigger] users[i]).id < (
    #[trigger] users[j]).id
    &&& forall|i: int, j: int|
        0 <= i < j < users.len() ==> (#[trigger] users[i]).name@ != (#[trigger] users[j]).name@
    &&& forall|i: int| 0 <= i < users.len() ==> (#[trigger] users[i]).id <= last
    &&& 0 <= last
}

/// The action ids are in strictly increasing order and none is beyond the
/// last one given out.
pub open spec fn customs_wf(rows: Seq<CustomRow>, last: i64) -> bool {
    &&& forall|i: int, j: int| 0 <= i < j < rows.len() ==> (#[trigger] rows[i]).id < (
    #[trigger] rows[j]).id
    &&& forall|i: int| 0 <= i < rows.len() ==> (#[trigger] rows[i]).id <= last
    &&& 0 <= last
}

/// What the recent list tells of an item.
pub open spec fn recent_view(r: RecentItem) -> (Seq<char>, bool, Seq<char>) {
    (r.path@, r.is_dir, r.accessed_at@)
}

/// What the recent list tells of its items.
pub open spec fn recent_views(s: Seq<RecentItem>) -> Seq<(Seq<char>, bool, Seq<char>)> {
    Seq::new(s.len(), |i: int| recent_view(s[i]))
}

/// The most items that a recent list holds.
pub const RECENT_LIMIT: usize = 50;

/// A recent list is not too long, names no path twice, and is newest first.
pub open spec fn recent_wf(s: Seq<(Seq<char>, bool, Seq<char>)>) -> bool {
    &&& s.len() <= RECENT_LIMIT
    &&& forall|i: int, j: int| 0 <= i < j < s.len() ==> (#[trigger] s[i]).0 != (#[trigger] s[j]).0
    &&& forall|i: int, j: int|
        0 <= i < j < s.len() ==> !text::text_lt((#[trigger] s[i]).2, (#[trigger] s[j]).2)
}

impl Database {
    pub open spec fn wf(self) -> bool {
        &&& users_wf(self.users@, self.last_user_id)
        &&& customs_wf(self.custom_actions@, self.last_custom_id)
        &&& self.settings.wf()
        &&& self.bindings.wf()
        &&& self.ext_overrides.wf()
        &&& self.toolbars.wf()
        &&& self.favourites.wf()
        &&& self.recent.wf()
        &&& self.sessions.wf()
        &&& forall|k: Option<i64>|
            self.favourites@.contains_key(k) ==> text::texts(
                (#[trigger] self.favourites@[k])@,
            ).no_duplicates()
        &&& forall|k: Option<i64>|
            self.recent@.contains_key(k) ==> recent_wf(
                recent_views((#[trigger] self.recent@[k])@),
            )
    }

    /// Data of which nothing is stored yet.
    pub fn empty() -> (r: Self)
        ensures
            r.wf(),
            r.users@.len() == 0,
            r.last_user_id == 0,
            r.settings@ == Map::<(Option<i64>, Seq<char>), Seq<char>>::empty(),
            r.bindings@ == Map::<(Option<i64>, Seq<char>), Seq<char>>::empty(),
            r.bindings.rows().len() == 0,
            r.ext_overrides@ == Map::<(Option<i64>, Seq<char>), Seq<char>>::empty(),
            r.toolbars@ == Map::<Option<i64>, Vec<String>>::empty(),
            r.custom_actions@.len() == 0,
            r.last_custom_id == 0,
            r.favourites@ == Map::<Option<i64>, Vec<String>>::empty(),
            r.recent@ == Map::<Option<i64>, Vec<RecentItem>>::empty(),
            r.sessions@ == Map::<Option<i64>, SavedSession>::empty(),
    {
        Database {
            users: Vec::new(),
            last_user_id: 0,
            settings: TextTable::new(),
            bindings: TextTable::new(),
            ext_overrides: TextTable::new(),
            toolbars: Store::new(),
            custom_actions: Vec::new(),
            last_custom_id: 0,
            favourites: Store::new(),
            recent: Store::new(),
            sessions: Store::new(),
        }
    }

    /// The favourites of a user, in their order.
    pub open spec fn favourites_of(self, user_id: i64) -> Seq<Seq<char>> {
        if self.favourites@.contains_key(Some(user_id)) {
            text::texts(self.favourites@[Some(user_id)]@)
        } else {
            Seq::<Seq<char>>::empty()
        }
    }

    /// The recent items of a user, newest first.
    pub open spec fn recent_of(self, user_id: i64) -> Seq<(Seq<char>, bool, Seq<char>)> {
        if self.recent@.contains_key(Some(user_id)) {
            recent_views(self.recent@[Some(user_id)]@)
        } else {
            Seq::<(Seq<char>, bool, Seq<char>)>::empty()
        }
    }

    /// `self` differs from `other` at most in the favourites.
    pub open spec fn same_but_favourites(self, other: Database) -> bool {
        &&& self.users == other.users
        &&& self.last_user_id == other.last_user_id
        &&& self.settings == other.settings
        &&& self.bindings == other.bindings
        &&& self.ext_overrides == other.ext_overrides
        &&& self.toolbars == other.toolbars
        &&& self.custom_actions == other.custom_actions
        &&& self.last_custom_id == other.last_custom_id
        &&& self.recent == other.recent
        &&& self.sessions == other.sessions
    }

    /// `self` differs from `other` at most in the recent items.
    pub open spec fn same_but_recent(self, other: Database) -> bool {
        &&& self.users == other.users
        &&& self.last_user_id == other.last_user_id
        &&& self.settings == other.settings
        &&& self.bindings == other.bindings
        &&& self.ext_overrides == other.ext_overrides
        &&& self.toolbars == other.toolbars
        &&& self.custom_actions == other.custom_actions
        &&& self.last_custom_id == other.last_custom_id
        &&& self.favourites == other.favourites
        &&& self.sessions == other.sessions
    }

    /// `self` differs from `other` at most in the settings.
    pub open spec fn same_but_settings(self, other: Database) -> bool {
        &&& self.users == other.users
        &&& self.last_user_id == other.last_user_id
        &&& self.bindings == other.bindings
        &&& self.ext_overrides == other.ext_overrides
        &&& self.toolbars == other.toolbars
        &&& self.custom_actions == other.custom_actions
        &&& self.last_custom_id == other.last_custom_id
        &&& self.favourites == other.favourites
        &&& self.recent == other.recent
        &&& self.sessions == other.sessions
    }

    /// `self` differs from `other` at most in the bindings.
    pub open spec fn same_but_bindings(self, other: Database) -> bool {
        &&& self.users == other.users
        &&& self.last_user_id == other.last_user_id
        &&& self.settings == other.settings
        &&& self.ext_overrides == other.ext_overrides
        &&& self.toolbars == other.toolbars
        &&& self.custom_actions == other.custom_actions
        &&& self.last_custom_id == other.last_custom_id
        &&& self.favourites == other.favourites
        &&& self.recent == other.recent
        &&& self.sessions == other.sessions
    }

    /// `self` differs from `other` at most in the extension overrides.
    pub open spec fn same_but_overrides(self, other: Database) -> bool {
        &&& self.users == other.users
        &&& self.last_user_id == other.last_user_id
        &&& self.settings == other.settings
        &&& self.bindings == other.bindings
        &&& self.toolbars == other.toolbars
        &&& self.custom_actions == other.custom_actions
        &&& self.last_custom_id == other.last_custom_id
        &&& self.favourites == other.favourites
        &&& self.recent == other.recent
        &&& self.sessions == other.sessions
    }

    /// `self` differs from `other` at most in the toolbars.
    pub open spec fn same_but_toolbars(self, other: Database) -> bool {
        &&& self.users == other.users
        &&& self.last_user_id == other.last_user_id
        &&& self.settings == other.settings
        &&& self.bindings == other.bindings
        &&& self.ext_overrides == other.ext_overrides
        &&& self.custom_actions == other.custom_actions
        &&& self.last_custom_id == other.last_custom_id
        &&& self.favourites == other.favourites
        &&& self.recent == other.recent
        &&& self.sessions == other.sessions
    }

    /// `self` differs from `other` at most in the custom actions.
    pub open spec fn same_but_customs(self, other: Database) -> bool {
        &&& self.users == other.users
        &&& self.last_user_id == other.last_user_id
        &&& self.settings == other.settings
        &&& self.bindings == other.bindings
        &&& self.ext_overrides == other.ext_overrides
        &&& self.toolbars == other.toolbars
        &&& self.favourites == other.favourites
        &&& self.recent == other.recent
        &&& self.sessions == other.sessions
    }

    /// `self` differs from `other` at most in the users.
    pub open spec fn same_but_users(self, other: Database) -> bool {
        &&& self.settings == other.settings
        &&& self.bindings == other.bindings
        &&& self.ext_overrides == other.ext_overrides
        &&& self.toolbars == other.toolbars
        &&& self.custom_actions == other.custom_actions
        &&& self.last_custom_id == other.last_custom_id
        &&& self.favourites == other.favourites
        &&& self.recent == other.recent
        &&& self.sessions == other.sessions
    }

    /// `self` differs from `other` at most in the sessions.
    pub open spec fn same_but_sessions(self, other: Database) -> bool {
        &&& self.users == other.users
        &&& self.last_user_id == other.last_user_id
        &&& self.settings == other.settings
        &&& self.bindings == other.bindings
        &&& self.ext_overrides == other.ext_overrides
        &&& self.toolbars == other.toolbars
        &&& self.custom_actions == other.custom_actions
        &&& self.last_custom_id == other.last_custom_id
        &&& self.favourites == other.favourites
        &&& self.recent == other.recent
    }
}

// ---------------------------------------------------------------------------
// First contents
// ---------------------------------------------------------------------------

/// The settings with `value` under the shared `key`, unless something stands
/// there.
pub open spec fn seeded(
    m: Map<(Option<i64>, Seq<char>), Seq<char>>,
    key: Seq<char>,
    value: Seq<char>,
) -> Map<(Option<i64>, Seq<char>), Seq<char>> {
    if m.contains_key((None, key)) {
        m
    } else {
        m.insert((None, key), value)
    }
}

/// Writes a shared setting, unless it is there.
fn seed_setting(db: &mut Database, key: &str, value: &str)
    requires
        old(db).wf(),
    ensures
        final(db).wf(),
        final(db).same_but_settings(*old(db)),
        final(db).settings@ == seeded(old(db).settings@, key@, value@),
{
    match db.settings.get(None, key) {
        Some(_) => {},
        None => {
            db.settings.set(None, key, value);
        },
    }
}

/// Fills in what every installation has: a default user where there is no
/// user, and the shared settings that are missing.
pub fn init_db(db: &mut Database)
    requires
        old(db).wf(),
    ensures
        final(db).wf(),
        final(db).settings@ == seeded(
            seeded(seeded(old(db).settings@, "theme"@, "system"@), "font_size"@, "14.0"@),
            "font_family"@,
            "Inter"@,
        ),
        old(db).users@.len() > 0 ==> final(db).users == old(db).users && final(db).last_user_id
            == old(db).last_user_id,
        old(db).users@.len() == 0 ==> {
            &&& final(db).users@.len() == 1
            &&& final(db).users@[0].id == 1
            &&& final(db).users@[0].name@ == "Default"@
            &&& final(db).users@[0].is_default
            &&& final(db).last_user_id == (if old(db).last_user_id < 1 {
                1
            } else {
                old(db).last_user_id
            })
        },
        final(db).bindings == old(db).bindings,
        final(db).ext_overrides == old(db).ext_overrides,
        final(db).toolbars == old(db).toolbars,
        final(db).custom_actions == old(db).custom_actions,
        final(db).last_custom_id == old(db).last_custom_id,
        final(db).favourites == old(db).favourites,
        final(db).recent == old(db).recent,
        final(db).sessions == old(db).sessions,
{
    if db.users.len() == 0 {
        db.users.push(UserRow { id: 1, name: "Default".to_owned(), is_default: true });
        if db.last_user_id < 1 {
            db.last_user_id = 1;
        }
    }
    seed_setting(db, "theme", "system");
    seed_setting(db, "font_size", "14.0");
    seed_setting(db, "font_family", "Inter");
}

// ---------------------------------------------------------------------------
// Favourites
// ---------------------------------------------------------------------------

/// Favourites with `path` behind the others, unless it is among them.
pub open spec fn with_favourite(s: Seq<Seq<char>>, path: Seq<char>) -> Seq<Seq<char>> {
    if s.contains(path) {
        s
    } else {
        s.push(path)
    }
}

/// Favourites without `path`.
pub open spec fn without_favourite(s: Seq<Seq<char>>, path: Seq<char>) -> Seq<Seq<char>> {
    if s.contains(path) {
        s.remove(s.index_of(path))
    } else {
        s
    }
}

/// Returns all favourite folder paths for `user_id`, in the order in which
/// they were added.
pub fn get_favourites(db: &Database, user_id: i64) -> (r: Vec<String>)
    requires
        db.wf(),
    ensures
        text::texts(r@) == db.favourites_of(user_id),
{
    match db.favourites.get(Some(user_id)) {
        Some(v) => clone_strings(v),
        None => {
            let out: Vec<String> = Vec::new();
            assert(text::texts(out@) =~= Seq::<Seq<char>>::empty());
            out
        },
    }
}

/// Adds a path to favourites if not already present.
pub fn add_favourite(db: &mut Database, user_id: i64, path: &str)
    requires
        old(db).wf(),
    ensures
        final(db).wf(),
        final(db).same_but_favourites(*old(db)),
        final(db).favourites_of(user_id) == with_favourite(old(db).favourites_of(user_id), path@),
        forall|u: i64| u != user_id ==> #[trigger] final(db).favourites_of(u) 
            == old(db).favourites_of(u),
{
    let mut list: Vec<String> = match db.favourites.take(Some(user_id)) {
        Some(v) => v,
        None => Vec::new(),
    };
    let ghost before = text::texts(list@);
    assert(before =~= old(db).favourites_of(user_id));
    match position_of(&list, path) {
        Some(i) => {
            assert(before[i as int] == path@);
        },
        None => {
            proof {
                lemma_push_unique(before, path@, list@);
            }
            list.push(path.to_owned());
            assert(text::texts(list@) =~= before.push(path@));
        },
    }
    db.favourites.put(Some(user_id), list);
}

proof fn lemma_push_unique(s: Seq<Seq<char>>, x: Seq<char>, v: Seq<String>)
    requires
        text::texts(v) == s,
        s.no_duplicates(),
        forall|j: int| 0 <= j < v.len() ==> (#[trigger] v[j])@ != x,
    ensures
        !s.contains(x),
        s.push(x).no_duplicates(),
{
    assert forall|j: int| 0 <= j < s.len() implies s[j] != x by {
        assert(s[j] == v[j]@);
    }
}

/// Removes a path from favourites.
pub fn remove_favourite(db: &mut Database, user_id: i64, path: &str)
    requires
        old(db).wf(),
    ensures
        final(db).wf(),
        final(db).same_but_favourites(*old(db)),
        final(db).favourites_of(user_id) == without_favourite(
            old(db).favourites_of(user_id),
            path@,
        ),
        forall|u: i64| u != user_id ==> #[trigger] final(db).favourites_of(u) 
            == old(db).favourites_of(u),
{
    match db.favourites.take(Some(user_id)) {
        None => {
            assert(db.favourites@ =~= old(db).favourites@);
        },
        Some(v) => {
            let mut list = v;
            let ghost before = text::texts(list@);
            match position_of(&list, path) {
                Some(i) => {
                    assert(before[i as int] == path@);
                    list.remove(i);
                    proof {
                        let k = before.index_of(path@);
                        assert(before[k] == path@);
                        assert(k == i);
                        assert(text::texts(list@) =~= before.remove(i as int));
                    }
                },
                None => {
                    assert forall|j: int| 0 <= j < before.len() implies before[j] != path@ by {
                        assert(before[j] == list@[j]@);
                    }
                },
            }
            db.favourites.put(Some(user_id), list);
        },
    }
}

/// Returns true if the given path is in favourites.
pub fn is_favourite(db: &Database, user_id: i64, path: &str) -> (r: bool)
    requires
        db.wf(),
    ensures
        r == db.favourites_of(user_id).contains(path@),
{
    match db.favourites.get(Some(user_id)) {
        None => false,
        Some(v) => match position_of(v, path) {
            Some(i) => {
                assert(text::texts(v@)[i as int] == path@);
                true
            },
            None => {
                assert forall|j: int| 0 <= j < v@.len() implies text::texts(v@)[j] != path@ by {
                    assert(text::texts(v@)[j] == v@[j]@);
                }
                false
            },
        },
    }
}

/// Adding a favourite makes it one, and removing it undoes that.
pub proof fn law_favourite_toggles(s: Seq<Seq<char>>, path: Seq<char>)
    requires
        s.no_duplicates(),
    ensures
        with_favourite(s, path).contains(path),
        !without_favourite(s, path).contains(path),
        !s.contains(path) ==> without_favourite(with_favourite(s, path), path) == s,
{
    let w = with_favourite(s, path);
    if !s.contains(path) {
        assert(w[s.len() as int] == path);
        assert(w.contains(path));
        let k = w.index_of(path);
        assert(w[k] == path);
        assert(k == s.len()) by {
            if k < s.len() {
                assert(s[k] == path);
            }
        }
        assert(w.remove(k) =~= s);
    } else {
        let k = s.index_of(path);
        assert(s[k] == path);
        let r = s.remove(k);
        assert forall|j: int| 0 <= j < r.len() implies r[j] != path by {
            if j < k {
                assert(r[j] == s[j]);
            } else {
                assert(r[j] == s[j + 1]);
            }
        }
    }
}

// ---------------------------------------------------------------------------
// Recent items
// ---------------------------------------------------------------------------

/// The list without the item of `path`.
pub open spec fn without_path(
    s: Seq<(Seq<char>, bool, Seq<char>)>,
    path: Seq<char>,
) -> Seq<(Seq<char>, bool, Seq<char>)>
    decreases s.len(),
{
    if s.len() == 0 {
        s
    } else if s.last().0 == path {
        without_path(s.drop_last(), path)
    } else {
        without_path(s.drop_last(), path).push(s.last())
    }
}

/// How many items at the front of the list are newer than `time`.
pub open spec fn newer_than(s: Seq<(Seq<char>, bool, Seq<char>)>, time: Seq<char>) -> int
    decreases s.len(),
{
    if s.len() == 0 {
        0
    } else if text::text_lt(time, s[0].2) {
        1 + newer_than(s.subrange(1, s.len() as int), time)
    } else {
        0
    }
}

/// The list after `path` was accessed at `time`: in its place by time, before
/// the items of the same time, and no longer than the limit.
pub open spec fn accessed(
    s: Seq<(Seq<char>, bool, Seq<char>)>,
    path: Seq<char>,
    is_dir: bool,
    time: Seq<char>,
) -> Seq<(Seq<char>, bool, Seq<char>)> {
    let w = without_path(s, path);
    let all = w.insert(newer_than(w, time), (path, is_dir, time));
    if all.len() > RECENT_LIMIT {
        all.subrange(0, RECENT_LIMIT as int)
    } else {
        all
    }
}

proof fn lemma_without_path(s: Seq<(Seq<char>, bool, Seq<char>)>, path: Seq<char>)
    requires
        recent_wf(s),
    ensures
        recent_wf(without_path(s, path)),
        without_path(s, path).len() <= s.len(),
        forall|i: int|
            0 <= i < without_path(s, path).len() ==> (#[trigger] without_path(s, path)[i]).0
                != path && s.contains(without_path(s, path)[i]),
    decreases s.len(),
{
    if s.len() > 0 {
        let front = s.drop_last();
        assert(recent_wf(front)) by {
            assert forall|i: int, j: int| 0 <= i < j < front.len() implies (
            #[trigger] front[i]).0 != (#[trigger] front[j]).0 by {
                assert(front[i] == s[i] && front[j] == s[j]);
            }
            assert forall|i: int, j: int| 0 <= i < j < front.len() implies !text::text_lt(
                (#[trigger] front[i]).2,
                (#[trigger] front[j]).2,
            ) by {
                assert(front[i] == s[i] && front[j] == s[j]);
            }
        }
        lemma_without_path(front, path);
        let w1 = without_path(front, path);
        let w = without_path(s, path);
        assert forall|i: int| 0 <= i < w1.len() implies s.contains(#[trigger] w1[i]) by {
            let k = choose|k: int| 0 <= k < front.len() && front[k] == w1[i];
            assert(s[k] == w1[i]);
        }
        if s.last().0 != path {
            let l = s.len() - 1;
            assert(w == w1.push(s[l]));
            assert forall|i: int, j: int| 0 <= i < j < w.len() implies (#[trigger] w[i]).0 != (
            #[trigger] w[j]).0 && !text::text_lt(w[i].2, w[j].2) by {
                assert(w[i] == w1[i]);
                if j < w1.len() {
                    assert(w[j] == w1[j]);
                } else {
                    let k = choose|k: int| 0 <= k < front.len() && front[k] == w1[i];
                    assert(s[k] == w1[i]);
                    assert(k < l);
                    assert(s[k].0 != s[l].0);
                    assert(!text::text_lt(s[k].2, s[l].2));
                }
            }
            assert forall|i: int| 0 <= i < w.len() implies (#[trigger] w[i]).0 != path
                && s.contains(w[i]) by {
                if i < w1.len() {
                    assert(w[i] == w1[i]);
                } else {
                    assert(s[l] == w[i]);
                }
            }
        }
    }
}

proof fn lemma_newer_than(s: Seq<(Seq<char>, bool, Seq<char>)>, time: Seq<char>)
    ensures
        0 <= newer_than(s, time) <= s.len(),
        forall|i: int|
            0 <= i < newer_than(s, time) ==> text::text_lt(time, (#[trigger] s[i]).2),
        newer_than(s, time) < s.len() ==> !text::text_lt(time, s[newer_than(s, time)].2),
    decreases s.len(),
{
    if s.len() > 0 && text::text_lt(time, s[0].2) {
        let rest = s.subrange(1, s.len() as int);
        lemma_newer_than(rest, time);
        assert forall|i: int| 0 <= i < newer_than(s, time) implies text::text_lt(
            time,
            (#[trigger] s[i]).2,
        ) by {
            if i > 0 {
                assert(s[i] == rest[i - 1]);
            }
        }
        if newer_than(s, time) < s.len() {
            assert(s[newer_than(s, time)] == rest[newer_than(rest, time)]);
        }
    }
}

/// The list with the accessed path in it, before it is cut, is without
/// repetition and newest first.
proof fn lemma_access_in_order(
    s: Seq<(Seq<char>, bool, Seq<char>)>,
    path: Seq<char>,
    is_dir: bool,
    time: Seq<char>,
)
    requires
        recent_wf(s),
    ensures
        ({
            let w = without_path(s, path);
            let all = w.insert(newer_than(w, time), (path, is_dir, time));
            &&& 0 <= newer_than(w, time) <= w.len()
            &&& forall|i: int, j: int|
                0 <= i < j < all.len() ==> (#[trigger] all[i]).0 != (#[trigger] all[j]).0
                    && !text::text_lt(all[i].2, all[j].2)
        }),
{
    let w = without_path(s, path);
    lemma_without_path(s, path);
    lemma_newer_than(w, time);
    let n = newer_than(w, time);
    let item = (path, is_dir, time);
    let all = w.insert(n, item);
    assert forall|i: int, j: int| 0 <= i < j < all.len() implies (#[trigger] all[i]).0 != (
    #[trigger] all[j]).0 && !text::text_lt(all[i].2, all[j].2) by {
        if j < n {
            assert(all[i] == w[i] && all[j] == w[j]);
        } else if j == n {
            assert(all[i] == w[i]);
            assert(text::text_lt(time, w[i].2));
            if text::text_lt(w[i].2, time) {
                text::lemma_text_lt_transitive(time, w[i].2, time);
                text::lemma_text_lt_irreflexive(time);
            }
        } else if i == n {
            assert(all[j] == w[j - 1]);
            assert(!text::text_lt(time, w[n].2));
            if j - 1 > n {
                assert(!text::text_lt(w[n].2, w[j - 1].2));
                if text::text_lt(time, w[j - 1].2) {
                    text::lemma_text_lt_total(time, w[n].2);
                    if time != w[n].2 {
                        text::lemma_text_lt_transitive(w[n].2, time, w[j - 1].2);
                    }
                }
            }
        } else {
            let i0 = if i < n {
                i
            } else {
                i - 1
            };
            assert(all[i] == w[i0] && all[j] == w[j - 1]);
        }
    }
}

/// Recording an access keeps the list within its limit, without repetition
/// and newest first. A path that was there is refreshed rather than added.
pub proof fn law_access_keeps_the_list(
    s: Seq<(Seq<char>, bool, Seq<char>)>,
    path: Seq<char>,
    is_dir: bool,
    time: Seq<char>,
)
    requires
        recent_wf(s),
    ensures
        recent_wf(accessed(s, path, is_dir, time)),
        forall|i: int|
            0 <= i < accessed(s, path, is_dir, time).len() && (#[trigger] accessed(
                s,
                path,
                is_dir,
                time,
            )[i]).0 == path ==> accessed(s, path, is_dir, time)[i] == (path, is_dir, time),
{
    lemma_access_in_order(s, path, is_dir, time);
    lemma_without_path(s, path);
    let w = without_path(s, path);
    let all = w.insert(newer_than(w, time), (path, is_dir, time));
    let r = accessed(s, path, is_dir, time);
    assert forall|i: int, j: int| 0 <= i < j < r.len() implies (#[trigger] r[i]).0 != (
    #[trigger] r[j]).0 && !text::text_lt(r[i].2, r[j].2) by {
        assert(r[i] == all[i] && r[j] == all[j]);
    }
    assert forall|i: int| 0 <= i < r.len() && (#[trigger] r[i]).0 == path implies r[i] == (
        path,
        is_dir,
        time,
    ) by {
        let n = newer_than(w, time);
        if i < n {
            assert(r[i] == w[i]);
        } else if i > n {
            assert(r[i] == w[i - 1]);
        }
    }
}

proof fn lemma_others_stay(
    s: Seq<(Seq<char>, bool, Seq<char>)>,
    path: Seq<char>,
    x: (Seq<char>, bool, Seq<char>),
)
    requires
        s.contains(x),
        x.0 != path,
    ensures
        without_path(s, path).contains(x),
    decreases s.len(),
{
    let front = s.drop_last();
    let w = without_path(s, path);
    let w1 = without_path(front, path);
    let k = choose|k: int| 0 <= k < s.len() && s[k] == x;
    if k < front.len() {
        assert(front[k] == x);
        lemma_others_stay(front, path, x);
        let i = choose|i: int| 0 <= i < w1.len() && w1[i] == x;
        assert(w[i] == x);
    } else {
        assert(w[w1.len() as int] == x);
    }
}

/// Whatever is not in the list after an access, of the old items and the
/// accessed one, is no newer than anything that is. An old item of the accessed
/// path gives way to the new one.
pub proof fn law_only_the_oldest_are_dropped(
    s: Seq<(Seq<char>, bool, Seq<char>)>,
    path: Seq<char>,
    is_dir: bool,
    time: Seq<char>,
    x: (Seq<char>, bool, Seq<char>),
    i: int,
)
    requires
        recent_wf(s),
        (s.contains(x) && x.0 != path) || x == (path, is_dir, time),
        !accessed(s, path, is_dir, time).contains(x),
        0 <= i < accessed(s, path, is_dir, time).len(),
    ensures
        !text::text_lt(accessed(s, path, is_dir, time)[i].2, x.2),
{
    lemma_access_in_order(s, path, is_dir, time);
    let w = without_path(s, path);
    let n = newer_than(w, time);
    let all = w.insert(n, (path, is_dir, time));
    let r = accessed(s, path, is_dir, time);
    let at: int = if x == (path, is_dir, time) {
        n
    } else {
        lemma_others_stay(s, path, x);
        let k = choose|k: int| 0 <= k < w.len() && w[k] == x;
        if k < n {
            k
        } else {
            k + 1
        }
    };
    assert(all[at] == x);
    if at < r.len() {
        assert(r[at] == x);
    }
    assert(r[i] == all[i]);
}

/// What was accessed at the latest time comes first.
pub proof fn law_latest_access_comes_first(
    s: Seq<(Seq<char>, bool, Seq<char>)>,
    path: Seq<char>,
    is_dir: bool,
    time: Seq<char>,
)
    requires
        recent_wf(s),
        forall|i: int| 0 <= i < s.len() ==> !text::text_lt(time, (#[trigger] s[i]).2),
    ensures
        accessed(s, path, is_dir, time).len() > 0,
        accessed(s, path, is_dir, time)[0] == (path, is_dir, time),
{
    let w = without_path(s, path);
    lemma_without_path(s, path);
    lemma_newer_than(w, time);
    if newer_than(w, time) > 0 {
        assert(s.contains(w[0]));
    }
}

/// Removes the item of `path` from a recent list.
fn drop_path(items: Vec<RecentItem>, path: &str) -> (r: Vec<RecentItem>)
    ensures
        recent_views(r@) == without_path(recent_views(items@), path@),
{
    let mut out: Vec<RecentItem> = Vec::new();
    let mut i: usize = 0;
    let ghost all = recent_views(items@);
    assert(recent_views(out@) =~= without_path(all.subrange(0, 0), path@));
    while i < items.len()
        invariant
            i <= items@.len(),
            all == recent_views(items@),
            recent_views(out@) == without_path(all.subrange(0, i as int), path@),
        decreases items@.len() - i,
    {
        assert(all.subrange(0, i + 1).drop_last() =~= all.subrange(0, i as int));
        let ghost before = recent_views(out@);
        if !str_eq(items[i].path.as_str(), path) {
            out.push(items[i].clone());
            assert(recent_views(out@) =~= before.push(all[i as int]));
        }
        i = i + 1;
    }
    assert(all.subrange(0, i as int) =~= all);
    out
}

/// How many items at the front of the list are newer than `time`.
fn count_newer(items: &Vec<RecentItem>, time: &str) -> (r: usize)
    ensures
        r == newer_than(recent_views(items@), time@),
        r <= items@.len(),
{
    let t: Vec<char> = chars_of(time);
    let ghost all = recent_views(items@);
    let mut i: usize = 0;
    assert(all.subrange(0, all.len() as int) =~= all);
    while i < items.len()
        invariant
            i <= items@.len(),
            t@ == time@,
            all == recent_views(items@),
            newer_than(all, time@) == i + newer_than(
                all.subrange(i as int, all.len() as int),
                time@,
            ),
        decreases items@.len() - i,
    {
        let at: Vec<char> = chars_of(items[i].accessed_at.as_str());
        let ghost rest = all.subrange(i as int, all.len() as int);
        assert(rest[0] == all[i as int]);
        if !str_lt(&t, &at) {
            return i;
        }
        assert(rest.subrange(1, rest.len() as int) =~= all.subrange(i + 1, all.len() as int));
        i = i + 1;
    }
    i
}

/// Records a path as accessed at `now`, updating the time if it already
/// exists. Trims the oldest entries beyond [`RECENT_LIMIT`].
pub fn add_recent_item(db: &mut Database, user_id: i64, path: &str, is_dir: bool, now: &str)
    requires
        old(db).wf(),
    ensures
        final(db).wf(),
        final(db).same_but_recent(*old(db)),
        final(db).recent_of(user_id) == accessed(old(db).recent_of(user_id), path@, is_dir, now@),
        forall|u: i64| u != user_id ==> #[trigger] final(db).recent_of(u) == old(db).recent_of(u),
{
    let items: Vec<RecentItem> = match db.recent.take(Some(user_id)) {
        Some(v) => v,
        None => Vec::new(),
    };
    let ghost before = recent_views(items@);
    assert(before =~= old(db).recent_of(user_id));
    let mut list = drop_path(items, path);
    let ghost w = recent_views(list@);
    let n: usize = count_newer(&list, now);
    list.insert(n, RecentItem { path: path.to_owned(), is_dir, accessed_at: now.to_owned() });
    let ghost all = recent_views(list@);
    assert(all =~= w.insert(n as int, (path@, is_dir, now@)));
    if list.len() > RECENT_LIMIT {
        list.truncate(RECENT_LIMIT);
        assert(recent_views(list@) =~= all.subrange(0, RECENT_LIMIT as int));
    }
    proof {
        law_access_keeps_the_list(before, path@, is_dir, now@);
    }
    db.recent.put(Some(user_id), list);
}

/// Returns the most recently accessed items for `user_id`, newest first, at
/// most `limit`.
pub fn get_recent_items(db: &Database, user_id: i64, limit: usize) -> (r: Vec<RecentItem>)
    requires
        db.wf(),
    ensures
        recent_views(r@) == (if db.recent_of(user_id).len() > limit {
            db.recent_of(user_id).subrange(0, limit as int)
        } else {
            db.recent_of(user_id)
        }),
{
    let mut out: Vec<RecentItem> = Vec::new();
    match db.recent.get(Some(user_id)) {
        None => {
            assert(recent_views(out@) =~= db.recent_of(user_id));
        },
        Some(items) => {
            let mut i: usize = 0;
            while i < items.len() && i < limit
                invariant
                    i <= items@.len(),
                    i <= limit,
                    out@ == items@.subrange(0, i as int),
                decreases items@.len() - i,
            {
                out.push(items[i].clone());
                i = i + 1;
            }
            assert(recent_views(out@) =~= recent_views(items@).subrange(0, i as int));
            proof {
                if items@.len() <= limit {
                    assert(recent_views(items@).subrange(0, i as int) =~= recent_views(items@));
                }
            }
        },
    }
    out
}

/// Removes a single item from the recent list.
pub fn remove_recent_item(db: &mut Database, user_id: i64, path: &str)
    requires
        old(db).wf(),
    ensures
        final(db).wf(),
        final(db).same_but_recent(*old(db)),
        final(db).recent_of(user_id) == without_path(old(db).recent_of(user_id), path@),
        forall|u: i64| u != user_id ==> #[trigger] final(db).recent_of(u) == old(db).recent_of(u),
{
    match db.recent.take(Some(user_id)) {
        None => {
            assert(db.recent@ =~= old(db).recent@);
        },
        Some(items) => {
            proof {
                lemma_without_path(recent_views(items@), path@);
            }
            let list = drop_path(items, path);
            db.recent.put(Some(user_id), list);
        },
    }
}

/// Clears all recent items for `user_id`.
pub fn clear_recent_items(db: &mut Database, user_id: i64)
    requires
        old(db).wf(),
    ensures
        final(db).wf(),
        final(db).same_but_recent(*old(db)),
        final(db).recent_of(user_id).len() == 0,
        forall|u: i64| u != user_id ==> #[trigger] final(db).recent_of(u) == old(db).recent_of(u),
{
    let _ = db.recent.take(Some(user_id));
}

// ---------------------------------------------------------------------------
// What the lists keep
// ---------------------------------------------------------------------------

/// Adding a favourite puts it behind the others where it is not among them, and
/// changes nothing where it is. Removing one leaves all others in their order.
/// The lists of other users, and all other data, stay as they are.
pub proof fn law_favourites_change_one_by_one()
    ensures
        forall|db: &mut Database, user: i64, path: &str| #[trigger]
            call_ensures(add_favourite, (db, user, path), ()) ==> {
                &&& db.favourites_of(user).contains(path@) ==> final(db).favourites_of(user)
                    == db.favourites_of(user)
                &&& !db.favourites_of(user).contains(path@) ==> final(db).favourites_of(user)
                    == db.favourites_of(user) + seq![path@]
                &&& forall|u: i64|
                    u != user ==> #[trigger] final(db).favourites_of(u) == db.favourites_of(u)
                &&& final(db).settings == db.settings && final(db).recent == db.recent
                &&& final(db).users == db.users && final(db).sessions == db.sessions
            },
        forall|db: &mut Database, user: i64, path: &str| #[trigger]
            call_ensures(remove_favourite, (db, user, path), ()) && db.wf() ==> {
                &&& final(db).favourites_of(user) == db.favourites_of(user).filter(
                    |q: Seq<char>| q != path@,
                )
                &&& forall|u: i64|
                    u != user ==> #[trigger] final(db).favourites_of(u) == db.favourites_of(u)
                &&& final(db).settings == db.settings && final(db).recent == db.recent
                &&& final(db).users == db.users && final(db).sessions == db.sessions
            },
        forall|db: &Database, user: i64, path: &str, r: bool| #[trigger]
            call_ensures(is_favourite, (db, user, path), r) ==> (r <==> exists|i: int|
                0 <= i < db.favourites_of(user).len() && #[trigger] db.favourites_of(user)[i]
                    == path@),
        forall|db: &Database, user: i64, r: Vec<String>| #[trigger]
            call_ensures(get_favourites, (db, user), r) ==> text::texts(r@) == db.favourites_of(
                user,
            ),
{
    assert forall|db: &mut Database, user: i64, path: &str| #[trigger]
        call_ensures(remove_favourite, (db, user, path), ()) && db.wf() implies final(
        db
    ).favourites_of(user) == db.favourites_of(user).filter(|q: Seq<char>| q != path@) by {
        if db.favourites@.contains_key(Some(user)) {
            assert(text::texts((db.favourites@[Some(user)])@).no_duplicates());
        }
        lemma_without_favourite(db.favourites_of(user), path@, |q: Seq<char>| q != path@);
    }
    assert forall|db: &mut Database, user: i64, path: &str| #[trigger]
        call_ensures(add_favourite, (db, user, path), ()) && !db.favourites_of(user).contains(
            path@,
        ) implies final(db).favourites_of(user) == db.favourites_of(user) + seq![path@] by {
        assert(db.favourites_of(user).push(path@) =~= db.favourites_of(user) + seq![path@]);
    }
}

proof fn lemma_all_stay(s: Seq<Seq<char>>, path: Seq<char>, p: spec_fn(Seq<char>) -> bool)
    requires
        forall|q: Seq<char>| #[trigger] p(q) == (q != path),
        !s.contains(path),
    ensures
        s.filter(p) == s,
    decreases s.len(),
{
    reveal(Seq::filter);
    if s.len() > 0 {
        assert forall|i: int| 0 <= i < s.drop_last().len() implies s.drop_last()[i] != path by {
            assert(s.drop_last()[i] == s[i]);
        }
        assert(s.last() == s[s.len() - 1]);
        lemma_all_stay(s.drop_last(), path, p);
        assert(s.drop_last().push(s.last()) =~= s);
    }
}

proof fn lemma_without_favourite(
    s: Seq<Seq<char>>,
    path: Seq<char>,
    p: spec_fn(Seq<char>) -> bool,
)
    requires
        forall|q: Seq<char>| #[trigger] p(q) == (q != path),
        s.no_duplicates(),
    ensures
        without_favourite(s, path) == s.filter(p),
{
    if s.contains(path) {
        let k = s.index_of(path);
        assert(s[k] == path);
        let a = s.subrange(0, k);
        let b = s.subrange(k + 1, s.len() as int);
        assert(s =~= a + seq![path] + b);
        assert(!a.contains(path));
        assert(!b.contains(path));
        Seq::filter_distributes_over_add(a + seq![path], b, p);
        Seq::filter_distributes_over_add(a, seq![path], p);
        lemma_all_stay(a, path, p);
        lemma_all_stay(b, path, p);
        assert(seq![path].filter(p) =~= Seq::<Seq<char>>::empty()) by {
            reveal(Seq::filter);
            let one = seq![path];
            assert(one.drop_last() =~= Seq::<Seq<char>>::empty());
            assert(one.drop_last().filter(p) =~= Seq::<Seq<char>>::empty());
            assert(one.last() == path);
            assert(!p(path));
        }
        assert(s.remove(k) =~= a + b);
        assert(a + Seq::<Seq<char>>::empty() + b =~= a + b);
    } else {
        lemma_all_stay(s, path, p);
    }
}

pub(crate) proof fn lemma_without_path_filters(
    s: Seq<(Seq<char>, bool, Seq<char>)>,
    path: Seq<char>,
    p: spec_fn((Seq<char>, bool, Seq<char>)) -> bool,
)
    requires
        forall|x: (Seq<char>, bool, Seq<char>)| #[trigger] p(x) == (x.0 != path),
    ensures
        without_path(s, path) == s.filter(p),
    decreases s.len(),
{
    reveal(Seq::filter);
    if s.len() > 0 {
        lemma_without_path_filters(s.drop_last(), path, p);
    }
}

proof fn lemma_without_path_len(s: Seq<(Seq<char>, bool, Seq<char>)>, path: Seq<char>)
    requires
        forall|i: int| 0 <= i < s.len() ==> (#[trigger] s[i]).0 != path,
    ensures
        without_path(s, path) == s,
    decreases s.len(),
{
    if s.len() > 0 {
        assert(s.last() == s[s.len() - 1]);
        assert forall|i: int| 0 <= i < s.drop_last().len() implies (
        #[trigger] s.drop_last()[i]).0 != path by {
            assert(s.drop_last()[i] == s[i]);
        }
        lemma_without_path_len(s.drop_last(), path);
        assert(s.drop_last().push(s.last()) =~= s);
    }
}

/// A recent list holds up to fifty items: as long as there is room, an access
/// drops nothing, and a full list that gets a new path stays full. The accessed
/// path is recorded with its kind and time wherever it is not the oldest of all
/// in a full list.
pub proof fn law_recent_lists_hold_fifty(
    s: Seq<(Seq<char>, bool, Seq<char>)>,
    path: Seq<char>,
    is_dir: bool,
    time: Seq<char>,
)
    requires
        recent_wf(s),
    ensures
        accessed(s, path, is_dir, time).len() <= 50,
        s.len() < 50 ==> accessed(s, path, is_dir, time).contains((path, is_dir, time)),
        s.len() < 50 ==> forall|x: (Seq<char>, bool, Seq<char>)|
            s.contains(x) && x.0 != path ==> #[trigger] accessed(
                s,
                path,
                is_dir,
                time,
            ).contains(x),
        (forall|i: int| 0 <= i < s.len() ==> (#[trigger] s[i]).0 != path) ==> accessed(
            s,
            path,
            is_dir,
            time,
        ).len() == if s.len() < 50 {
            s.len() + 1
        } else {
            50
        },
        forall|x: (Seq<char>, bool, Seq<char>)| #[trigger]
            accessed(s, path, is_dir, time).contains(x) ==> x == (path, is_dir, time) || (
            s.contains(x) && x.0 != path),
{
    let w = without_path(s, path);
    lemma_without_path(s, path);
    lemma_newer_than(w, time);
    let n = newer_than(w, time);
    let item = (path, is_dir, time);
    let all = w.insert(n, item);
    let r = accessed(s, path, is_dir, time);
    if s.len() < 50 {
        assert(r[n] == item);
        assert forall|x: (Seq<char>, bool, Seq<char>)| s.contains(x) && x.0 != path implies
            #[trigger] r.contains(x) by {
            lemma_others_stay(s, path, x);
            let k = choose|k: int| 0 <= k < w.len() && w[k] == x;
            assert(r[if k < n {
                k
            } else {
                k + 1
            }] == x);
        }
    }
    if forall|i: int| 0 <= i < s.len() ==> (#[trigger] s[i]).0 != path {
        lemma_without_path_len(s, path);
    }
    assert forall|x: (Seq<char>, bool, Seq<char>)| #[trigger] r.contains(x) implies x == item || (
    s.contains(x) && x.0 != path) by {
        let i = choose|i: int| 0 <= i < r.len() && r[i] == x;
        if i < n {
            assert(x == w[i]);
        } else if i > n {
            assert(x == w[i - 1]);
        }
    }
}

/// Removing a recent item leaves all others in their order, clearing leaves
/// none, and an access is recorded in the list of its user. The lists of other
/// users, and all other data, stay as they are. What is read is the front of
/// the list, as much of it as was asked for.
pub proof fn law_recent_lists_change_one_by_one()
    ensures
        forall|db: &mut Database, user: i64, path: &str| #[trigger]
            call_ensures(remove_recent_item, (db, user, path), ()) ==> {
                &&& final(db).recent_of(user) == db.recent_of(user).filter(
                    |x: (Seq<char>, bool, Seq<char>)| x.0 != path@,
                )
                &&& forall|u: i64| u != user ==> #[trigger] final(db).recent_of(u) == db.recent_of(u)
                &&& final(db).settings == db.settings && final(db).favourites == db.favourites
                &&& final(db).users == db.users && final(db).sessions == db.sessions
            },
        forall|db: &mut Database, user: i64| #[trigger]
            call_ensures(clear_recent_items, (db, user), ()) ==> {
                &&& final(db).recent_of(user).len() == 0
                &&& forall|u: i64| u != user ==> #[trigger] final(db).recent_of(u) == db.recent_of(u)
                &&& final(db).settings == db.settings && final(db).favourites == db.favourites
                &&& final(db).users == db.users && final(db).sessions == db.sessions
            },
        forall|db: &mut Database, user: i64, path: &str, is_dir: bool, now: &str| #[trigger]
            call_ensures(add_recent_item, (db, user, path, is_dir, now), ()) ==> {
                &&& final(db).recent_of(user) == accessed(
                    db.recent_of(user),
                    path@,
                    is_dir,
                    now@,
                )
                &&& forall|u: i64| u != user ==> #[trigger] final(db).recent_of(u) == db.recent_of(u)
                &&& final(db).settings == db.settings && final(db).favourites == db.favourites
                &&& final(db).users == db.users && final(db).sessions == db.sessions
            },
        forall|db: &Database, user: i64, limit: usize, r: Vec<RecentItem>| #[trigger]
            call_ensures(get_recent_items, (db, user, limit), r) ==> {
                &&& recent_views(r@).is_prefix_of(db.recent_of(user))
                &&& r@.len() == if db.recent_of(user).len() < limit {
                    db.recent_of(user).len() as int
                } else {
                    limit as int
                }
            },
{
    assert forall|db: &mut Database, user: i64, path: &str| #[trigger]
        call_ensures(remove_recent_item, (db, user, path), ()) implies final(db).recent_of(user)
        == db.recent_of(user).filter(|x: (Seq<char>, bool, Seq<char>)| x.0 != path@) by {
        lemma_without_path_filters(
            db.recent_of(user),
            path@,
            |x: (Seq<char>, bool, Seq<char>)| x.0 != path@,
        );
    }
    assert forall|db: &Database, user: i64, limit: usize, r: Vec<RecentItem>| #[trigger]
        call_ensures(get_recent_items, (db, user, limit), r) implies {
        &&& recent_views(r@).is_prefix_of(db.recent_of(user))
        &&& r@.len() == if db.recent_of(user).len() < limit {
            db.recent_of(user).len() as int
        } else {
            limit as int
        }
    } by {
        assert(r@.len() == recent_views(r@).len());
    }
}

/// Setting up the data writes over no setting and no user: the shared theme and
/// font get their defaults only where nothing was stored, and a default user is
/// made only where there was none.
pub proof fn law_setting_up_keeps_what_is_there()
    ensures
        forall|db: &mut Database, owner: Option<i64>, key: Seq<char>|
            #![trigger call_ensures(init_db, (db,), ()), db.settings@[(owner, key)]]
            call_ensures(init_db, (db,), ()) && db.settings@.contains_key((owner, key)) ==> final(
                db
            ).settings@.contains_key((owner, key)) && final(db).settings@[(owner, key)]
                == db.settings@[(owner, key)],
        forall|db: &mut Database| #[trigger]
            call_ensures(init_db, (db,), ()) && db.users@.len() > 0 ==> final(db).users == db.users,
        forall|db: &mut Database| #[trigger]
            call_ensures(init_db, (db,), ()) && db.users@.len() == 0 ==> final(db).users@.len() == 1
                && final(db).users@[0].is_default && final(db).users@[0].id == 1,
        forall|db: &mut Database| #[trigger]
            call_ensures(init_db, (db,), ()) ==> {
                let k = None::<i64>;
                &&& final(db).settings@.contains_key((k, "theme"@))
                &&& final(db).settings@.contains_key((k, "font_size"@))
                &&& final(db).settings@.contains_key((k, "font_family"@))
                &&& !db.settings@.contains_key((k, "theme"@)) ==> final(db).settings@[
                    (k, "theme"@)
                ] == "system"@
                &&& !db.settings@.contains_key((k, "font_size"@)) ==> final(db).settings@[
                    (k, "font_size"@)
                ] == "14.0"@
                &&& !db.settings@.contains_key((k, "font_family"@)) ==> final(db).settings@[
                    (k, "font_family"@)
                ] == "Inter"@
            },
{
    reveal_strlit("theme");
    reveal_strlit("font_size");
    reveal_strlit("font_family");
    assert("theme"@.len() == 5 && "font_size"@.len() == 9 && "font_family"@.len() == 11);
}

} // verus!
