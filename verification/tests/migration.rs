use fileman::actions::{
    add_custom_action, init_tables, list_custom_actions, load_shortcut_map, load_toolbar,
    set_binding, set_layout, Action, ActionRef, KeyCombo, Scope,
};
use fileman::config;
use fileman::db::{init_db, Database};
use fileman::migrate::{
    check_version, collect, import_into, scope_key_user, ImportSummary, SettingsFile,
    FORMAT_VERSION,
};

fn setup() -> Database {
    let mut db = Database::empty();
    init_db(&mut db);
    init_tables(&mut db);
    db
}

fn export(db: &Database, user: i64, name: Option<&str>) -> SettingsFile {
    collect(db, user, name.map(String::from), "now".to_string())
}

#[test]
fn round_trips_between_users_on_the_same_database() {
    let mut db = setup();
    config::set(&mut db, config::Scope::User(1), "theme", "dark");
    config::set(&mut db, config::Scope::Global, "font_size", "15");
    add_custom_action(&mut db, 1, "Notepad", "C:\\Windows\\notepad.exe").unwrap();

    let file = export(&db, 1, Some("Alice"));
    assert_eq!(file.version, FORMAT_VERSION);
    import_into(&mut db, 2, &file);

    // User 2 received user-scoped config...
    assert_eq!(config::get(&db, 2, "theme"), Some("dark".to_string()));
    // ...the global default was added (it did not exist before)...
    assert_eq!(config::get(&db, 2, "font_size"), Some("15".to_string()));
    // ...and the custom action landed in user 2's scope exactly once.
    let customs = list_custom_actions(&db, 2);
    assert_eq!(customs.len(), 1);
    assert_eq!(customs[0].label, "Notepad");
}

#[test]
fn importing_twice_does_not_duplicate_custom_actions() {
    let mut db = setup();
    add_custom_action(&mut db, 1, "Notepad", "C:\\Windows\\notepad.exe").unwrap();
    let file = export(&db, 1, None);
    import_into(&mut db, 2, &file);
    import_into(&mut db, 2, &file);
    assert_eq!(list_custom_actions(&db, 2).len(), 1);
}

#[test]
fn a_second_import_changes_nothing() {
    let mut db = setup();
    config::set(&mut db, config::Scope::User(1), "theme", "dark");
    config::set(&mut db, config::Scope::Global, "font_size", "15");
    add_custom_action(&mut db, 1, "Notepad", "C:\\Windows\\notepad.exe").unwrap();
    set_binding(
        &mut db,
        Scope::User(1),
        &KeyCombo::ctrl("K"),
        ActionRef::Builtin(Action::Copy),
    );
    set_layout(&mut db, Scope::User(1), &vec![ActionRef::Builtin(Action::Find)]);
    let file = export(&db, 1, None);
    let mut other = setup();
    let first = import_into(&mut other, 4, &file);
    assert_eq!(first.custom_actions, 1);
    let once = format!("{other:?}");
    let second = import_into(&mut other, 4, &file);
    assert_eq!(second.custom_actions, 0);
    assert_eq!(format!("{other:?}"), once);
}

#[test]
fn toolbar_layout_round_trips_between_machines() {
    let mut db = setup();
    set_layout(
        &mut db,
        Scope::User(1),
        &vec![
            ActionRef::Builtin(Action::Find),
            ActionRef::Builtin(Action::Copy),
        ],
    );

    let file = export(&db, 1, None);

    let mut other_machine = setup();
    let summary = import_into(&mut other_machine, 7, &file);
    assert!(summary.toolbars >= 1);

    let toolbar = load_toolbar(&other_machine, 7);
    assert_eq!(toolbar.len(), 2);
    assert_eq!(toolbar[0], ActionRef::Builtin(Action::Find));
}

#[test]
fn rejects_files_from_a_newer_format_version() {
    let db = setup();
    let file = export(&db, 1, None);
    let mut newer = export(&db, 1, None);
    newer.version = FORMAT_VERSION + 1;
    assert!(check_version(&newer).is_err());
    assert_eq!(
        check_version(&newer).unwrap_err(),
        "Settings file version 2 is newer than this app supports (1)"
    );

    // The real export still reads back fine.
    assert!(check_version(&file).is_ok());
}

#[test]
fn binding_rows_round_trip_with_their_scopes() {
    let mut db = setup();
    set_binding(
        &mut db,
        Scope::User(1),
        &KeyCombo::ctrl("K"),
        ActionRef::Custom(99),
    );
    let file = export(&db, 1, None);
    assert_eq!(file.bindings_user.len(), 1);

    let mut other = setup();
    import_into(&mut other, 5, &file);
    let map = load_shortcut_map(&other, 5);
    let combo = KeyCombo::ctrl("K");
    assert_eq!(map.get(&combo), Some(ActionRef::Custom(99)));
}

#[test]
fn summaries_count_what_was_taken_over() {
    let mut db = setup();
    config::set(&mut db, config::Scope::User(1), "theme", "dark");
    set_binding(
        &mut db,
        Scope::User(1),
        &KeyCombo::ctrl("K"),
        ActionRef::Builtin(Action::Find),
    );
    add_custom_action(&mut db, 1, "Notepad", "n.exe").unwrap();
    let file = export(&db, 1, Some("Alice"));
    assert_eq!(file.source_user, Some("Alice".to_string()));
    assert_eq!(file.exported_at, "now");
    let summary = import_into(&mut db, 2, &file);
    assert_eq!(
        summary.describe(),
        "Imported 1 config values, 1 shortcuts, 1 toolbar(s), 1 custom action(s)"
    );
    assert_eq!(
        ImportSummary {
            config_values: 0,
            bindings: 0,
            toolbars: 0,
            custom_actions: 0,
        }
        .describe(),
        "Imported 0 config values, 0 shortcuts, 0 toolbar(s), 0 custom action(s)"
    );
    assert_eq!(scope_key_user(42), "user:42");
}

#[test]
fn shared_settings_never_replace_a_users_own() {
    let mut source = setup();
    config::set(&mut source, config::Scope::Global, "theme", "light");
    let file = export(&source, 1, None);
    let mut target = setup();
    config::set(&mut target, config::Scope::User(3), "theme", "dark");
    import_into(&mut target, 3, &file);
    assert_eq!(config::get(&target, 3, "theme"), Some("dark".to_string()));
    assert_eq!(config::get(&target, 4, "theme"), Some("system".to_string()));
}
