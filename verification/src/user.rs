//! User profiles.

use crate::db::{Database, DbError, UserRow};
use crate::text::str_eq;
use vstd::prelude::*;

verus! {

/// A user profile: distinct saved session, favourites, and settings.
#[derive(Debug, PartialEq)]
pub struct User {
    pub id: i64,
    pub name: String,
}

/// `list` shows the ids and names of `rows`, one by one.
pub open spec fn shows_users(list: Seq<User>, rows: Seq<UserRow>) -> bool {
    &&& list.len() == rows.len()
    &&& forall|i: int|
        0 <= i < list.len() ==> (#[trigger] list[i]).id == rows[i].id && list[i].name@
            == rows[i].name@
}

/// Some user has the name `name`.
pub open spec fn name_taken(rows: Seq<UserRow>, name: Seq<char>) -> bool {
    exists|i: int| 0 <= i < rows.len() && (#[trigger] rows[i]).name@ == name
}

/// Lists all user profiles, ordered by id (creation order).
pub fn list_users(db: &Database) -> (r: Vec<User>)
    requires
        db.wf(),
    ensures
        shows_users(r@, db.users@),
        forall|i: int, j: int| 0 <= i < j < r@.len() ==> (#[trigger] r@[i]).id < (
        #[trigger] r@[j]).id,
{
    let mut out: Vec<User> = Vec::new();
    let mut i: usize = 0;
    while i < db.users.len()
        invariant
            i <= db.users@.len(),
            out@.len() == i,
            forall|j: int|
                0 <= j < i ==> (#[trigger] out@[j]).id == db.users@[j].id && out@[j].name@
                    == db.users@[j].name@,
        decreases db.users@.len() - i,
    {
        out.push(User { id: db.users[i].id, name: db.users[i].name.clone() });
        i = i + 1;
    }
    assert forall|i: int, j: int| 0 <= i < j < out@.len() implies (#[trigger] out@[i]).id < (
    #[trigger] out@[j]).id by {
        assert(db.users@[i].id < db.users@[j].id);
    }
    out
}

/// Whether some user has the name `name`.
fn is_name_taken(db: &Database, name: &str) -> (r: bool)
    ensures
        r == name_taken(db.users@, name@),
{
    let mut i: usize = 0;
    while i < db.users.len()
        invariant
            i <= db.users@.len(),
            forall|j: int| 0 <= j < i ==> (#[trigger] db.users@[j]).name@ != name@,
        decreases db.users@.len() - i,
    {
        if str_eq(db.users[i].name.as_str(), name) {
            return true;
        }
        i = i + 1;
    }
    false
}

/// `after` is `before` with a user behind the others.
pub open spec fn user_added(
    before: Seq<UserRow>,
    after: Seq<UserRow>,
    id: i64,
    name: Seq<char>,
    is_default: bool,
) -> bool {
    &&& after.len() == before.len() + 1
    &&& after.drop_last() == before
    &&& after.last().id == id
    &&& after.last().name@ == name
    &&& after.last().is_default == is_default
}

/// Puts a user behind the others.
fn push_user(db: &mut Database, id: i64, name: &str, is_default: bool)
    requires
        old(db).wf(),
        !name_taken(old(db).users@, name@),
        id > old(db).last_user_id,
    ensures
        final(db).wf(),
        final(db).same_but_users(*old(db)),
        user_added(old(db).users@, final(db).users@, id, name@, is_default),
        final(db).last_user_id == id,
{
    let ghost before = db.users@;
    db.users.push(UserRow { id, name: name.to_owned(), is_default });
    db.last_user_id = id;
    proof {
        let after = db.users@;
        assert(after.drop_last() =~= before);
        assert forall|i: int, j: int| 0 <= i < j < after.len() implies (#[trigger] after[i]).id < (
        #[trigger] after[j]).id && after[i].name@ != after[j].name@ by {
            assert(after[i] == before[i]);
            if j < before.len() {
                assert(after[j] == before[j]);
            }
        }
        assert forall|i: int| 0 <= i < after.len() implies (#[trigger] after[i]).id <= id by {
            if i < before.len() {
                assert(after[i] == before[i]);
            }
        }
    }
}

/// Creates a new user profile with the given display name, under an id that
/// no user ever had. Refuses a name that is taken.
pub fn create_user(db: &mut Database, name: &str) -> (r: Result<i64, DbError>)
    requires
        old(db).wf(),
    ensures
        final(db).wf(),
        match r {
            Ok(id) => {
                &&& !name_taken(old(db).users@, name@)
                &&& id == old(db).last_user_id + 1
                &&& user_added(old(db).users@, final(db).users@, id, name@, false)
                &&& final(db).last_user_id == id
                &&& final(db).same_but_users(*old(db))
            },
            Err(DbError::NameTaken) => name_taken(old(db).users@, name@) && *final(db) == *old(db),
            Err(DbError::Full) => {
                &&& !name_taken(old(db).users@, name@)
                &&& old(db).last_user_id == i64::MAX
                &&& *final(db) == *old(db)
            },
        },
{
    if is_name_taken(db, name) {
        return Err(DbError::NameTaken);
    }
    if db.last_user_id == i64::MAX {
        return Err(DbError::Full);
    }
    let id: i64 = db.last_user_id + 1;
    push_user(db, id, name, false);
    Ok(id)
}

/// Puts a stored profile back, behind those of smaller ids. A row whose id or
/// name does not fit behind the others is left out.
pub fn restore_user(db: &mut Database, id: i64, name: &str, is_default: bool) -> (r: bool)
    requires
        old(db).wf(),
    ensures
        final(db).wf(),
        r == (id > old(db).last_user_id && !name_taken(old(db).users@, name@)),
        r ==> user_added(old(db).users@, final(db).users@, id, name@, is_default),
        r ==> final(db).last_user_id == id && final(db).same_but_users(*old(db)),
        !r ==> *final(db) == *old(db),
{
    if id > db.last_user_id && !is_name_taken(db, name) {
        push_user(db, id, name, is_default);
        true
    } else {
        false
    }
}

/// The first row that is flagged as the default, counted from `from`.
pub open spec fn first_default(rows: Seq<UserRow>, from: int) -> Option<i64>
    decreases rows.len() - from,
{
    if from < 0 || from >= rows.len() {
        None
    } else if rows[from].is_default {
        Some(rows[from].id)
    } else {
        first_default(rows, from + 1)
    }
}

/// The user that the program starts with: the first default, else the first
/// user, else user 1.
pub open spec fn starting_user(rows: Seq<UserRow>) -> i64 {
    match first_default(rows, 0) {
        Some(id) => id,
        None => if rows.len() > 0 {
            rows[0].id
        } else {
            1
        },
    }
}

/// The id of the default user (seeded by `db::init_db`), falling back to the
/// first user by id if the `is_default` flag was somehow lost.
pub fn default_user_id(db: &Database) -> (r: i64)
    requires
        db.wf(),
    ensures
        r == starting_user(db.users@),
{
    let mut i: usize = 0;
    while i < db.users.len()
        invariant
            i <= db.users@.len(),
            first_default(db.users@, 0) == first_default(db.users@, i as int),
        decreases db.users@.len() - i,
    {
        if db.users[i].is_default {
            return db.users[i].id;
        }
        i = i + 1;
    }
    if db.users.len() > 0 {
        db.users[0].id
    } else {
        1
    }
}

/// The name of the user `id`, or `fallback` where there is none.
pub fn name_of(users: &Vec<User>, id: i64, fallback: &str) -> (r: String)
    ensures
        (exists|i: int|
            0 <= i < users@.len() && (#[trigger] users@[i]).id == id && r@ == users@[i].name@
                && forall|j: int| 0 <= j < i ==> (#[trigger] users@[j]).id != id) || ((forall|j: int|
            0 <= j < users@.len() ==> (#[trigger] users@[j]).id != id) && r@ == fallback@),
{
    let mut i: usize = 0;
    while i < users.len()
        invariant
            i <= users@.len(),
            forall|j: int| 0 <= j < i ==> (#[trigger] users@[j]).id != id,
        decreases users@.len() - i,
    {
        if users[i].id == id {
            return users[i].name.clone();
        }
        i = i + 1;
    }
    fallback.to_owned()
}

/// A new user comes behind all others, under a name that nobody has and an id
/// that nobody ever had, and is not the default. A name that is taken is refused
/// and changes nothing. No other data is touched.
pub proof fn law_new_users_join_the_others()
    ensures
        forall|db: &mut Database, name: &str, r: Result<i64, DbError>| #[trigger]
            call_ensures(create_user, (db, name), r) ==> {
                &&& r == Err::<i64, DbError>(DbError::NameTaken) <==> exists|i: int|
                    0 <= i < db.users@.len() && (#[trigger] db.users@[i]).name@ == name@
                &&& r is Err ==> *final(db) == *db
                &&& r is Ok ==> {
                    &&& final(db).users@.len() == db.users@.len() + 1
                    &&& forall|i: int|
                        0 <= i < db.users@.len() ==> #[trigger] final(db).users@[i] == db.users@[i]
                    &&& final(db).users@.last().id == r->Ok_0
                    &&& final(db).users@.last().name@ == name@
                    &&& !final(db).users@.last().is_default
                    &&& r->Ok_0 > db.last_user_id && final(db).last_user_id == r->Ok_0
                    &&& final(db).settings == db.settings && final(db).favourites == db.favourites
                    &&& final(db).sessions == db.sessions && final(db).recent == db.recent
                }
            },
        forall|db: &mut Database, id: i64, name: &str, is_default: bool, r: bool| #[trigger]
            call_ensures(restore_user, (db, id, name, is_default), r) ==> {
                &&& !r ==> *final(db) == *db
                &&& r ==> {
                    &&& final(db).users@.len() == db.users@.len() + 1
                    &&& forall|i: int|
                        0 <= i < db.users@.len() ==> #[trigger] final(db).users@[i] == db.users@[i]
                    &&& final(db).users@.last().id == id
                    &&& final(db).users@.last().name@ == name@
                    &&& final(db).users@.last().is_default == is_default
                }
            },
{
    assert forall|db: &mut Database, name: &str, r: Result<i64, DbError>| #[trigger]
        call_ensures(create_user, (db, name), r) && r is Ok implies forall|i: int|
        0 <= i < db.users@.len() ==> #[trigger] final(db).users@[i] == db.users@[i] by {
        assert forall|i: int| 0 <= i < db.users@.len() implies #[trigger] final(db).users@[i]
            == db.users@[i] by {
            assert(final(db).users@.drop_last()[i] == final(db).users@[i]);
        }
    }
    assert forall|db: &mut Database, id: i64, name: &str, is_default: bool, r: bool| #[trigger]
        call_ensures(restore_user, (db, id, name, is_default), r) && r implies forall|i: int|
        0 <= i < db.users@.len() ==> #[trigger] final(db).users@[i] == db.users@[i] by {
        assert forall|i: int| 0 <= i < db.users@.len() implies #[trigger] final(db).users@[i]
            == db.users@[i] by {
            assert(final(db).users@.drop_last()[i] == final(db).users@[i]);
        }
    }
}

proof fn lemma_first_default(rows: Seq<UserRow>, from: int)
    requires
        0 <= from,
    ensures
        match first_default(rows, from) {
            Some(id) => exists|k: int|
                from <= k < rows.len() && (#[trigger] rows[k]).is_default && rows[k].id == id
                    && forall|j: int| from <= j < k ==> !(#[trigger] rows[j]).is_default,
            None => forall|j: int| from <= j < rows.len() ==> !(#[trigger] rows[j]).is_default,
        },
    decreases rows.len() - from,
{
    if from < rows.len() {
        if rows[from].is_default {
        } else {
            lemma_first_default(rows, from + 1);
            if first_default(rows, from + 1) is Some {
                let id = first_default(rows, from + 1)->0;
                let k = choose|k: int|
                    from + 1 <= k < rows.len() && (#[trigger] rows[k]).is_default && rows[k].id
                        == id && forall|j: int|
                        from + 1 <= j < k ==> !(#[trigger] rows[j]).is_default;
                assert(rows[k].is_default);
            }
        }
    }
}

/// The program starts with the first user that is marked as the default, or with
/// the first of all where none is, and every user is listed in the order of the
/// ids.
pub proof fn law_the_default_user_starts(db: &Database)
    ensures
        forall|r: i64, k: int|
            #![trigger call_ensures(default_user_id, (db,), r), db.users@[k]]
            call_ensures(default_user_id, (db,), r) && 0 <= k < db.users@.len()
                && db.users@[k].is_default && (forall|j: int|
                0 <= j < k ==> !(#[trigger] db.users@[j]).is_default) ==> r == db.users@[k].id,
        forall|r: i64| #[trigger]
            call_ensures(default_user_id, (db,), r) && db.users@.len() > 0 && (forall|j: int|
                0 <= j < db.users@.len() ==> !(#[trigger] db.users@[j]).is_default) ==> r
                == db.users@[0].id,
        forall|r: Vec<User>, i: int|
            #![trigger call_ensures(list_users, (db,), r), r@[i]]
            call_ensures(list_users, (db,), r) ==> r@.len() == db.users@.len() && (0 <= i < r@.len()
                ==> r@[i].id == db.users@[i].id && r@[i].name@ == db.users@[i].name@),
{
    lemma_first_default(db.users@, 0);
}

} // verus!
