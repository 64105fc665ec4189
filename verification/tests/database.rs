use fileman::config;
use fileman::config::Scope;
use fileman::db::{
    add_favourite, add_recent_item, clear_recent_items, get_favourites, get_recent_items, init_db,
    is_favourite, remove_favourite, remove_recent_item, Database, DbError, RECENT_LIMIT,
};
use fileman::user::{create_user, default_user_id, list_users, name_of, restore_user};

fn setup() -> Database {
    let mut db = Database::empty();
    init_db(&mut db);
    db
}

#[test]
fn falls_back_to_global_when_no_user_override_exists() {
    let db = setup();
    assert_eq!(config::get(&db, 1, "theme"), Some("system".to_string()));
}

#[test]
fn user_override_takes_precedence_over_global() {
    let mut db = setup();
    config::set(&mut db, Scope::Global, "theme", "light");
    config::set(&mut db, Scope::User(1), "theme", "dark");
    assert_eq!(config::get(&db, 1, "theme"), Some("dark".to_string()));
    // A different user still sees the global value.
    assert_eq!(config::get(&db, 2, "theme"), Some("light".to_string()));
}

#[test]
fn unknown_key_with_no_global_default_returns_none() {
    let db = setup();
    assert_eq!(config::get(&db, 1, "does_not_exist"), None);
}

#[test]
fn init_db_seeds_a_default_user() {
    let db = setup();
    let row = db.users.iter().find(|u| u.id == 1).unwrap();
    assert_eq!(row.name, "Default");
    assert_eq!(row.is_default, true);
}

#[test]
fn favourites_are_scoped_per_user() {
    let mut db = setup();
    assert!(restore_user(&mut db, 2, "Alice", false));

    add_favourite(&mut db, 1, "C:\\one");
    add_favourite(&mut db, 2, "C:\\two");
    assert_eq!(get_favourites(&db, 1), vec!["C:\\one".to_string()]);
    assert_eq!(get_favourites(&db, 2), vec!["C:\\two".to_string()]);
}

#[test]
fn recent_items_are_scoped_per_user() {
    let mut db = setup();
    assert!(restore_user(&mut db, 2, "Alice", false));

    let now = "2024-01-01 00:00:00";
    add_recent_item(&mut db, 1, "C:\\folder", true, now);
    add_recent_item(&mut db, 2, "D:\\other", false, now);
    let u1 = get_recent_items(&db, 1, 50);
    let u2 = get_recent_items(&db, 2, 50);
    assert_eq!(u1.len(), 1);
    assert_eq!(u1[0].path, "C:\\folder");
    assert!(u1[0].is_dir);
    assert_eq!(u2.len(), 1);
    assert_eq!(u2[0].path, "D:\\other");
    assert!(!u2[0].is_dir);
}

#[test]
fn recent_items_are_capped_at_limit() {
    let mut db = setup();
    for i in 0..60 {
        add_recent_item(
            &mut db,
            1,
            &format!("C:\\dir{i}"),
            true,
            &format!("2024-01-01 00:00:{i:02}"),
        );
    }
    let items = get_recent_items(&db, 1, 100);
    assert!(
        items.len() <= RECENT_LIMIT,
        "expected at most {RECENT_LIMIT} items, got {}",
        items.len()
    );
    assert_eq!(items.len(), 50);
    assert_eq!(items[0].path, "C:\\dir59");
    assert_eq!(items[49].path, "C:\\dir10");
}

#[test]
fn the_item_with_the_oldest_time_is_dropped() {
    let mut db = setup();
    for i in (0..50).rev() {
        let (path, at) = (format!("C:\\dir{i}"), format!("2024-01-01 00:00:{i:02}"));
        add_recent_item(&mut db, 1, &path, true, &at);
    }
    add_recent_item(&mut db, 1, "C:\\new", true, "2024-01-01 00:01:00");
    let items = get_recent_items(&db, 1, 100);
    assert_eq!(items.len(), 50);
    assert_eq!(items[0].path, "C:\\new");
    assert!(items.iter().all(|i| i.path != "C:\\dir0"));
    assert_eq!(items[49].path, "C:\\dir1");

    // One that is there already is refreshed, and nothing has to go.
    add_recent_item(&mut db, 1, "C:\\dir1", false, "2024-01-01 00:02:00");
    let items = get_recent_items(&db, 1, 100);
    assert_eq!(items.len(), 50);
    assert_eq!(items[0].path, "C:\\dir1");
    assert!(!items[0].is_dir);
    assert_eq!(items[49].path, "C:\\dir2");
}

#[test]
fn init_db_seeds_global_setting_defaults() {
    let db = setup();
    assert_eq!(db.settings.get(None, "theme"), Some("system".to_string()));
}

#[test]
fn seeding_again_changes_nothing() {
    let mut db = setup();
    config::set(&mut db, Scope::Global, "theme", "light");
    create_user(&mut db, "Alice").unwrap();
    init_db(&mut db);
    assert_eq!(config::get(&db, 1, "theme"), Some("light".to_string()));
    assert_eq!(list_users(&db).len(), 2);
    assert_eq!(config::get(&db, 1, "font_size"), Some("14.0".to_string()));
    assert_eq!(config::get(&db, 1, "font_family"), Some("Inter".to_string()));
}

#[test]
fn favourites_toggle() {
    let mut db = setup();
    add_favourite(&mut db, 1, "C:\\a");
    add_favourite(&mut db, 1, "C:\\b");
    add_favourite(&mut db, 1, "C:\\a");
    assert_eq!(
        get_favourites(&db, 1),
        vec!["C:\\a".to_string(), "C:\\b".to_string()]
    );
    assert!(is_favourite(&db, 1, "C:\\a"));
    remove_favourite(&mut db, 1, "C:\\a");
    assert!(!is_favourite(&db, 1, "C:\\a"));
    remove_favourite(&mut db, 1, "C:\\none");
    assert_eq!(get_favourites(&db, 1), vec!["C:\\b".to_string()]);
}

#[test]
fn an_item_accessed_again_moves_to_the_front() {
    let mut db = setup();
    add_recent_item(&mut db, 1, "C:\\a", true, "2024-01-01 00:00:01");
    add_recent_item(&mut db, 1, "C:\\b", true, "2024-01-01 00:00:02");
    add_recent_item(&mut db, 1, "C:\\a", true, "2024-01-01 00:00:03");
    let items = get_recent_items(&db, 1, 50);
    let paths: Vec<&str> = items.iter().map(|i| i.path.as_str()).collect();
    assert_eq!(paths, ["C:\\a", "C:\\b"]);
    assert_eq!(get_recent_items(&db, 1, 1).len(), 1);
    remove_recent_item(&mut db, 1, "C:\\a");
    assert_eq!(get_recent_items(&db, 1, 50).len(), 1);
    clear_recent_items(&mut db, 1);
    assert!(get_recent_items(&db, 1, 50).is_empty());
}

#[test]
fn default_user_id_returns_the_seeded_default() {
    let db = setup();
    assert_eq!(default_user_id(&db), 1);
}

#[test]
fn create_user_adds_a_new_profile() {
    let mut db = setup();
    let id = create_user(&mut db, "Alice").unwrap();
    let users = list_users(&db);
    assert_eq!(users.len(), 2);
    assert!(users.iter().any(|u| u.id == id && u.name == "Alice"));
}

#[test]
fn list_users_is_ordered_by_creation() {
    let mut db = setup();
    create_user(&mut db, "Bob").unwrap();
    create_user(&mut db, "Alice").unwrap();
    let users = list_users(&db);
    let names: Vec<&str> = users.iter().map(|u| u.name.as_str()).collect();
    assert_eq!(names, ["Default", "Bob", "Alice"]);
}

#[test]
fn a_name_is_given_to_one_user_only() {
    let mut db = setup();
    assert_eq!(create_user(&mut db, "Default"), Err(DbError::NameTaken));
    assert!(restore_user(&mut db, i64::MAX, "Last", false));
    assert_eq!(create_user(&mut db, "One more"), Err(DbError::Full));
    assert_eq!(name_of(&list_users(&db), 1, "User"), "Default");
    assert_eq!(name_of(&list_users(&db), 5, "User"), "User");
}
