use fileman::actions::{
    add_custom_action, clear_binding, get_ext_override, get_layout, init_tables,
    list_custom_actions, list_ext_overrides, load_shortcut_map, load_toolbar, put_binding,
    put_ext_override, remove_custom_action, remove_ext_override, restore_custom_action, set_binding,
    set_ext_override, set_layout, Action, ActionRef, KeyCombo, KeyInput, Scope,
};
use fileman::db::{init_db, Database, DbError};
use fileman::rebind::{
    capture, clipboard_event_combo, triggered_action, Capture, Held, InputEvent,
};
use fileman::shortcuts::combo_label;

fn setup() -> Database {
    let mut db = Database::empty();
    init_db(&mut db);
    init_tables(&mut db);
    db
}

#[test]
fn key_combo_round_trips_through_string() {
    let combo = KeyCombo::new(true, true, false, "X");
    let s = combo.to_text();
    assert_eq!(s, "Ctrl+Shift+X");
    assert_eq!(KeyCombo::parse(&s), Some(combo));
}

#[test]
fn action_id_round_trips() {
    for action in Action::ALL {
        assert_eq!(Action::from_id(action.id()), Some(action));
    }
}

#[test]
fn set_binding_rejects_a_conflicting_combo_in_the_same_scope() {
    let mut db = setup();
    let combo = KeyCombo::ctrl("K");
    set_binding(&mut db, Scope::User(1), &combo, ActionRef::Builtin(Action::Copy));
    let conflict = set_binding(&mut db, Scope::User(1), &combo, ActionRef::Builtin(Action::Cut));
    assert_eq!(conflict, Some(ActionRef::Builtin(Action::Copy)));
}

#[test]
fn set_binding_allows_rebinding_the_same_action_to_the_same_combo() {
    let mut db = setup();
    let combo = KeyCombo::ctrl("K");
    set_binding(&mut db, Scope::User(1), &combo, ActionRef::Builtin(Action::Copy));
    let result = set_binding(&mut db, Scope::User(1), &combo, ActionRef::Builtin(Action::Copy));
    assert_eq!(result, None);
}

#[test]
fn default_shortcuts_include_select_all_and_copy_path() {
    let db = setup();
    let map = load_shortcut_map(&db, 1);
    // Ctrl+A selects everything in the view.
    assert_eq!(
        map.get(&KeyCombo::ctrl("A")),
        Some(ActionRef::Builtin(Action::SelectAll))
    );
    // Ctrl+Shift+C copies the filename with its full path (the
    // plain Ctrl+C stays the file-copy action).
    assert_eq!(
        map.get(&KeyCombo::new(true, true, false, "C")),
        Some(ActionRef::Builtin(Action::CopyFilename))
    );
    assert_eq!(
        map.get(&KeyCombo::ctrl("C")),
        Some(ActionRef::Builtin(Action::Copy))
    );
}

#[test]
fn shortcut_map_merge_precedence_user_over_global_over_default() {
    let mut db = setup();

    // Default: Ctrl+C is Copy.
    let map = load_shortcut_map(&db, 1);
    assert_eq!(
        map.get(&KeyCombo::ctrl("C")),
        Some(ActionRef::Builtin(Action::Copy))
    );

    // Global override: Ctrl+C becomes Find for everyone.
    set_binding(
        &mut db,
        Scope::Global,
        &KeyCombo::ctrl("C"),
        ActionRef::Builtin(Action::Find),
    );
    let map = load_shortcut_map(&db, 1);
    assert_eq!(
        map.get(&KeyCombo::ctrl("C")),
        Some(ActionRef::Builtin(Action::Find))
    );

    // Per-user override: user 1 gets Copy back, user 2 still sees Find.
    set_binding(
        &mut db,
        Scope::User(1),
        &KeyCombo::ctrl("C"),
        ActionRef::Builtin(Action::Copy),
    );
    let map1 = load_shortcut_map(&db, 1);
    let map2 = load_shortcut_map(&db, 2);
    assert_eq!(
        map1.get(&KeyCombo::ctrl("C")),
        Some(ActionRef::Builtin(Action::Copy))
    );
    assert_eq!(
        map2.get(&KeyCombo::ctrl("C")),
        Some(ActionRef::Builtin(Action::Find))
    );
}

#[test]
fn toolbar_layout_round_trips_and_falls_back_to_global() {
    let mut db = setup();

    // No per-user layout yet: falls back to the seeded global default.
    let toolbar = load_toolbar(&db, 1);
    assert!(!toolbar.is_empty());
    assert_eq!(toolbar[0], ActionRef::Builtin(Action::Copy));

    // Setting a per-user layout takes precedence.
    set_layout(
        &mut db,
        Scope::User(1),
        &vec![ActionRef::Builtin(Action::Find)],
    );
    let toolbar = load_toolbar(&db, 1);
    assert_eq!(toolbar, vec![ActionRef::Builtin(Action::Find)]);
}

#[test]
fn ext_override_round_trips_and_normalizes_case_and_dot() {
    let mut db = setup();

    assert_eq!(get_ext_override(&db, 1, "xlsm"), None);
    set_ext_override(&mut db, 1, ".XLSM", "C:\\Excel.exe");
    assert_eq!(
        get_ext_override(&db, 1, "xlsm"),
        Some("C:\\Excel.exe".to_string())
    );
    assert_eq!(get_ext_override(&db, 2, "xlsm"), None);

    set_ext_override(&mut db, 1, "xlsm", "C:\\Excel2.exe");
    assert_eq!(list_ext_overrides(&db, 1).len(), 1);
    assert_eq!(
        get_ext_override(&db, 1, "xlsm"),
        Some("C:\\Excel2.exe".to_string())
    );

    remove_ext_override(&mut db, 1, "xlsm");
    assert_eq!(get_ext_override(&db, 1, "xlsm"), None);
}

#[test]
fn an_override_is_removed_in_the_spelling_it_was_set_with() {
    let mut db = setup();
    set_ext_override(&mut db, 1, "txt", "C:\\ed.exe");
    set_ext_override(&mut db, 2, ".XLSM", "C:\\Calc.exe");
    set_ext_override(&mut db, 1, ".XLSM", "C:\\Excel.exe");
    remove_ext_override(&mut db, 1, ".XLSM");
    let listed = list_ext_overrides(&db, 1);
    assert_eq!(listed.len(), 1);
    assert_eq!(listed[0].key, "txt");
    assert_eq!(get_ext_override(&db, 2, "xlsm"), Some("C:\\Calc.exe".to_string()));
    put_ext_override(&mut db, 1, "Odd", "C:\\odd.exe");
    remove_ext_override(&mut db, 1, "Odd");
    assert_eq!(list_ext_overrides(&db, 1).len(), 1);
}

#[test]
fn bindings_keep_their_place() {
    let mut db = setup();
    put_binding(&mut db, Scope::User(1), "Ctrl+K", "copy");
    put_binding(&mut db, Scope::User(1), "Ctrl+L", "cut");
    put_binding(&mut db, Scope::User(1), "Ctrl+K", "paste");
    let rows: Vec<(&str, &str)> = db
        .bindings
        .all_rows()
        .iter()
        .map(|r| (r.key.as_str(), r.value.as_str()))
        .collect();
    assert_eq!(rows, vec![("Ctrl+K", "paste"), ("Ctrl+L", "cut")]);
}

#[test]
fn custom_actions_are_scoped_to_their_user() {
    let mut db = setup();

    add_custom_action(&mut db, 1, "Notepad", "C:\\Windows\\notepad.exe").unwrap();
    let user1 = list_custom_actions(&db, 1);
    let user2 = list_custom_actions(&db, 2);
    assert_eq!(user1.len(), 1);
    assert_eq!(user2.len(), 0);

    remove_custom_action(&mut db, user1[0].id);
    assert!(list_custom_actions(&db, 1).is_empty());
}

#[test]
fn overrides_are_found_whatever_the_case() {
    let mut db = setup();
    set_ext_override(&mut db, 1, "Ärger", "C:\\a.exe");
    assert_eq!(
        get_ext_override(&db, 1, "äRGER"),
        Some("C:\\a.exe".to_string())
    );
}

#[test]
fn a_full_database_refuses_custom_actions() {
    let mut db = setup();
    assert!(restore_custom_action(&mut db, i64::MAX, "Last", "x.exe", Scope::User(1)));
    assert_eq!(
        add_custom_action(&mut db, 1, "More", "y.exe"),
        Err(DbError::Full)
    );
    assert!(!restore_custom_action(&mut db, 3, "Late", "z.exe", Scope::Global));
}

#[test]
fn combos_parse_only_known_keys() {
    assert_eq!(KeyCombo::parse("Ctrl+NoSuchKey"), None);
    assert_eq!(KeyCombo::parse("Ctrl"), None);
    assert_eq!(KeyCombo::parse(""), None);
    let f5 = KeyCombo::parse("F5").unwrap();
    assert_eq!(f5, KeyCombo::plain("F5"));
    assert!(f5.is_valid());
    assert!(!KeyCombo::plain("NoSuchKey").is_valid());
    // A key has one name.
    assert_eq!(KeyCombo::parse("Alt+ArrowDown"), None);
    assert_eq!(
        KeyCombo::parse("Alt+Down").map(|c| c.to_text()),
        Some("Alt+Down".to_string())
    );
}

#[test]
fn combos_match_what_is_held() {
    let combo = KeyCombo::new(true, false, false, "N");
    let mut input = KeyInput {
        pressed: vec!["N".to_string()],
        ctrl: true,
        shift: false,
        alt: false,
    };
    assert!(combo.matches_input(&input));
    input.shift = true;
    assert!(!combo.matches_input(&input));
    input.shift = false;
    input.pressed = vec!["M".to_string()];
    assert!(!combo.matches_input(&input));
}

#[test]
fn action_refs_and_scopes_round_trip() {
    assert_eq!(ActionRef::Custom(99).to_id(), "custom:99");
    assert_eq!(ActionRef::from_id("custom:99"), Some(ActionRef::Custom(99)));
    assert_eq!(ActionRef::from_id("custom:-3"), Some(ActionRef::Custom(-3)));
    assert_eq!(ActionRef::from_id("custom:x"), None);
    assert_eq!(ActionRef::from_id("nothing"), None);
    assert_eq!(
        ActionRef::from_id(Action::Paste.id()),
        Some(ActionRef::Builtin(Action::Paste))
    );
    assert_eq!(Scope::User(7).to_key(), "user:7");
    assert_eq!(Scope::from_key("user:7"), Some(Scope::User(7)));
    assert_eq!(Scope::from_key("global"), Some(Scope::Global));
    assert_eq!(Scope::from_key("other"), None);
    let customs = vec![];
    assert_eq!(
        ActionRef::Builtin(Action::Copy).label(&customs),
        Action::Copy.label()
    );
}

#[test]
fn a_cleared_shortcut_is_gone_and_can_be_given_again() {
    let mut db = setup();
    let combo = KeyCombo::ctrl("C");
    clear_binding(&mut db, Scope::User(1), &combo);
    assert_eq!(load_shortcut_map(&db, 1).get(&combo), None);
    assert_eq!(
        load_shortcut_map(&db, 2).get(&combo),
        Some(ActionRef::Builtin(Action::Copy))
    );
    assert_eq!(
        set_binding(&mut db, Scope::User(1), &combo, ActionRef::Builtin(Action::Find)),
        None
    );
    assert_eq!(
        load_shortcut_map(&db, 1).get(&combo),
        Some(ActionRef::Builtin(Action::Find))
    );
}

#[test]
fn shown_combos_are_sorted() {
    let db = setup();
    let map = load_shortcut_map(&db, 1);
    let combos = map.combos_for(ActionRef::Builtin(Action::CopyFilename));
    let texts: Vec<String> = combos.iter().map(|c| c.to_text()).collect();
    let mut sorted = texts.clone();
    sorted.sort();
    assert_eq!(texts, sorted);
    assert!(texts.contains(&"Ctrl+Shift+C".to_string()));
    assert_eq!(combo_label(&combos), texts.join(" / "));
    assert_eq!(combo_label(&vec![]), "(none)");
}

#[test]
fn unknown_buttons_are_left_out_of_a_layout() {
    let mut db = setup();
    fileman::actions::set_layout_ids(
        &mut db,
        Scope::User(1),
        vec!["gone".to_string(), Action::Find.id().to_string()],
    );
    assert_eq!(
        get_layout(&db, Scope::User(1)),
        vec![ActionRef::Builtin(Action::Find)]
    );
}

fn key(name: &str, held: Held) -> InputEvent {
    InputEvent::Key {
        name: name.to_string(),
        pressed: true,
        repeat: false,
        held,
    }
}

#[test]
fn rebinding_skips_bare_modifiers_and_hears_escape() {
    let ctrl = Held {
        ctrl: true,
        shift: false,
        alt: false,
    };
    let none = Held {
        ctrl: false,
        shift: false,
        alt: false,
    };
    assert_eq!(
        capture(&vec![key("ControlLeft", ctrl)], ctrl),
        Capture::Waiting
    );
    assert_eq!(
        capture(&vec![key("ControlLeft", ctrl), key("N", ctrl)], ctrl),
        Capture::Caught(KeyCombo::ctrl("N"))
    );
    assert_eq!(
        capture(&vec![key("N", ctrl), key("Escape", none)], none),
        Capture::Cancelled
    );
    assert_eq!(
        capture(&vec![InputEvent::Paste], ctrl),
        Capture::Caught(KeyCombo::ctrl("V"))
    );
}

#[test]
fn clipboard_events_stand_for_their_keys() {
    let ctrl = Held {
        ctrl: true,
        shift: false,
        alt: false,
    };
    assert_eq!(
        clipboard_event_combo(&vec![InputEvent::Copy, InputEvent::Cut], ctrl),
        Some(KeyCombo::ctrl("X"))
    );
    assert_eq!(clipboard_event_combo(&vec![InputEvent::Other], ctrl), None);
    let db = setup();
    let map = load_shortcut_map(&db, 1);
    let quiet = KeyInput {
        pressed: vec![],
        ctrl: true,
        shift: false,
        alt: false,
    };
    assert_eq!(
        triggered_action(&map, &quiet, &vec![InputEvent::Copy], ctrl),
        Some(ActionRef::Builtin(Action::Copy))
    );
    let typed = KeyInput {
        pressed: vec!["A".to_string()],
        ctrl: true,
        shift: false,
        alt: false,
    };
    assert_eq!(
        triggered_action(&map, &typed, &vec![], ctrl),
        Some(ActionRef::Builtin(Action::SelectAll))
    );
    assert_eq!(triggered_action(&map, &quiet, &vec![], ctrl), None);
}
