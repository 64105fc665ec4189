//! Settings: a user's own value, or else the shared default.

use crate::db::Database;
use vstd::prelude::*;

verus! {

/// Where a config value is written: a specific user's override, or the
/// shared global default.
#[derive(Debug, Clone, Copy, PartialEq, Eq, Structural)]
pub enum Scope {
    Global,
    User(i64),
}

impl Scope {
    /// Whose rows the scope names.
    pub open spec fn owner(self) -> Option<i64> {
        match self {
            Scope::Global => None,
            Scope::User(id) => Some(id),
        }
    }
}

/// What a user gets for `key`: their own value, else the shared one.
pub open spec fn effective(
    m: Map<(Option<i64>, Seq<char>), Seq<char>>,
    user_id: i64,
    key: Seq<char>,
) -> Option<Seq<char>> {
    if m.contains_key((Some(user_id), key)) {
        Some(m[(Some(user_id), key)])
    } else if m.contains_key((None, key)) {
        Some(m[(None, key)])
    } else {
        None
    }
}

/// Reads `key` for `user_id`: a per-user override if one exists, otherwise
/// the global default, otherwise `None`.
pub fn get(db: &Database, user_id: i64, key: &str) -> (r: Option<String>)
    requires
        db.wf(),
    ensures
        match r {
            Some(v) => effective(db.settings@, user_id, key@) == Some(v@),
            None => effective(db.settings@, user_id, key@) is None,
        },
{
    match db.settings.get(Some(user_id), key) {
        Some(v) => Some(v),
        None => db.settings.get(None, key),
    }
}

/// Writes `key` = `value` at the given scope.
pub fn set(db: &mut Database, scope: Scope, key: &str, value: &str)
    requires
        old(db).wf(),
    ensures
        final(db).wf(),
        final(db).same_but_settings(*old(db)),
        final(db).settings@ == old(db).settings@.insert((scope.owner(), key@), value@),
{
    let owner = match scope {
        Scope::Global => None,
        Scope::User(id) => Some(id),
    };
    db.settings.set(owner, key, value);
}

/// What a user sets for themselves they get, whatever the shared value is;
/// nobody else sees it.
pub proof fn law_user_value_wins(
    m: Map<(Option<i64>, Seq<char>), Seq<char>>,
    user_id: i64,
    other: i64,
    key: Seq<char>,
    value: Seq<char>,
    shared: Seq<char>,
)
    requires
        other != user_id,
    ensures
        effective(m.insert((Some(user_id), key), value), user_id, key) == Some(value),
        effective(
            m.insert((Some(user_id), key), value).insert((None, key), shared),
            user_id,
            key,
        ) == Some(value),
        effective(m.insert((Some(user_id), key), value), other, key) == effective(m, other, key),
{
}

/// A shared value reaches exactly the users without a value of their own.
pub proof fn law_shared_value_is_the_fallback(
    m: Map<(Option<i64>, Seq<char>), Seq<char>>,
    user_id: i64,
    key: Seq<char>,
    value: Seq<char>,
)
    ensures
        !m.contains_key((Some(user_id), key)) ==> effective(
            m.insert((None, key), value),
            user_id,
            key,
        ) == Some(value),
        m.contains_key((Some(user_id), key)) ==> effective(
            m.insert((None, key), value),
            user_id,
            key,
        ) == effective(m, user_id, key),
{
}

/// A setting that is written is what is read, by its user where it is their own,
/// and by every user without one of their own where it is shared. All other
/// settings, and those of other users, are read as before.
pub proof fn law_what_is_set_is_read()
    ensures
        forall|db: &mut Database, scope: Scope, key: &str, value: &str, user: i64, k: Seq<char>|
            #![trigger call_ensures(set, (db, scope, key, value), ()), effective(final(db).settings@, user, k)]
            call_ensures(set, (db, scope, key, value), ()) ==> {
                let before = effective(db.settings@, user, k);
                let after = effective(final(db).settings@, user, k);
                &&& k == key@ && scope == Scope::User(user) ==> after == Some(value@)
                &&& k == key@ && scope is Global && !db.settings@.contains_key((Some(user), k))
                    ==> after == Some(value@)
                &&& k == key@ && scope is Global && db.settings@.contains_key((Some(user), k))
                    ==> after == Some(db.settings@[(Some(user), k)])
                &&& k != key@ || (scope is User && scope != Scope::User(user)) ==> after == before
                &&& final(db).users == db.users && final(db).favourites == db.favourites
                &&& final(db).bindings == db.bindings && final(db).sessions == db.sessions
            },
        forall|db: &Database, user: i64, key: &str, r: Option<String>| #[trigger]
            call_ensures(get, (db, user, key), r) ==> {
                &&& db.settings@.contains_key((Some(user), key@)) ==> r is Some && r->0@
                    == db.settings@[(Some(user), key@)]
                &&& !db.settings@.contains_key((Some(user), key@)) && db.settings@.contains_key(
                    (None, key@),
                ) ==> r is Some && r->0@ == db.settings@[(None, key@)]
                &&& !db.settings@.contains_key((Some(user), key@)) && !db.settings@.contains_key(
                    (None, key@),
                ) ==> r is None
            },
{
}

} // verus!
