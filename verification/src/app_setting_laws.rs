//! What changing a setting leaves behind.

use crate::actions::{Action, ActionRef, KeyCombo};
use crate::app::FileManApp;
use crate::app_nav::Effect;
use crate::prefs::{TabOrientation, ThemePref};
use crate::rebind::Capture;
use crate::tab::{Tab, ViewMode};
use crate::tips::TipAction;
use crate::{actions, app_settings, config, listing, path, prefs, text};
use vstd::prelude::*;

verus! {

// ---------------------------------------------------------------------------
// Preferences
// ---------------------------------------------------------------------------

/// The preferences that are in force are those that the database holds for the
/// current user, so that the next start finds them again.
pub open spec fn in_force(a: FileManApp) -> bool {
    prefs::reads(a.prefs, a.db.settings@, a.current_user_id)
}

/// What the database holds of the settings of others, and under other keys, is
/// what it held.
pub open spec fn only_setting(after: FileManApp, before: FileManApp, key: Seq<char>) -> bool {
    forall|o: Option<i64>, k: Seq<char>|
        o != Some(before.current_user_id) || k != key ==> {
            &&& #[trigger] after.db.settings@.contains_key((o, k))
                == before.db.settings@.contains_key((o, k))
            &&& after.db.settings@.contains_key((o, k)) ==> after.db.settings@[(o, k)]
                == before.db.settings@[(o, k)]
        }
}

/// The keys of the settings differ from each other.
proof fn lemma_keys_differ()
    ensures
        "sort_col"@ != "sort_asc"@,
        "font_family"@ != "show_hidden"@,
        "tab_orientation"@ != "tab_strip_width"@,
        "sort_col"@.len() == 8,
        "sort_asc"@.len() == 8,
        "theme"@.len() == 5,
        "font_size"@.len() == 9,
        "font_family"@.len() == 11,
        "tab_orientation"@.len() == 15,
        "tab_strip_width"@.len() == 15,
        "tips_enabled"@.len() == 12,
        "show_hidden"@.len() == 11,
        "shell_menu_hidden"@.len() == 17,
{
    reveal_strlit("sort_col");
    reveal_strlit("sort_asc");
    reveal_strlit("theme");
    reveal_strlit("font_size");
    reveal_strlit("font_family");
    reveal_strlit("tab_orientation");
    reveal_strlit("tab_strip_width");
    reveal_strlit("tips_enabled");
    reveal_strlit("show_hidden");
    reveal_strlit("shell_menu_hidden");
    assert("sort_col"@[5] == 'c' && "sort_asc"@[5] == 'a');
    assert("font_family"@[0] == 'f' && "show_hidden"@[0] == 's');
    assert("tab_orientation"@[4] == 'o' && "tab_strip_width"@[4] == 's');
}

proof fn lemma_flags_differ()
    ensures
        "true"@ != "false"@,
{
    reveal_strlit("true");
    reveal_strlit("false");
    assert("true"@.len() == 4 && "false"@.len() == 5);
}

proof fn lemma_one_stored(
    after: FileManApp,
    before: FileManApp,
    key: Seq<char>,
    value: Seq<char>,
)
    requires
        app_settings::setting_stored(after, before, key, value),
    ensures
        only_setting(after, before, key),
        config::effective(after.db.settings@, before.current_user_id, key) == Some(value),
        forall|k: Seq<char>|
            k != key ==> #[trigger] config::effective(
                after.db.settings@,
                before.current_user_id,
                k,
            ) == config::effective(before.db.settings@, before.current_user_id, k),
{
    let m = before.db.settings@;
    let n = after.db.settings@;
    let u = before.current_user_id;
    assert forall|o: Option<i64>, k: Seq<char>| o != Some(u) || k != key implies {
        &&& #[trigger] n.contains_key((o, k)) == m.contains_key((o, k))
        &&& n.contains_key((o, k)) ==> n[(o, k)] == m[(o, k)]
    } by {
        assert((o, k) != (Some(u), key));
    }
    assert forall|k: Seq<char>| k != key implies #[trigger] config::effective(n, u, k)
        == config::effective(m, u, k) by {
        assert((Some(u), k) != (Some(u), key));
        assert((None::<i64>, k) != (Some(u), key));
    }
}

/// A theme that is chosen is in force, and is found again at the next start.
pub proof fn law_the_theme_lasts(theme: ThemePref)
    ensures
        forall|a: &mut FileManApp|
            #[trigger] call_ensures(FileManApp::set_theme, (a, theme), ()) && in_force(*a) ==> {
                &&& final(a).prefs.theme == theme
                &&& in_force(*final(a))
                &&& only_setting(*final(a), *a, "theme"@)
                &&& final(a).panes == a.panes
            },
{
    lemma_keys_differ();
    assert forall|a: &mut FileManApp|
        #[trigger] call_ensures(FileManApp::set_theme, (a, theme), ()) && in_force(*a) implies {
        &&& final(a).prefs.theme == theme
        &&& in_force(*final(a))
        &&& only_setting(*final(a), *a, "theme"@)
        &&& final(a).panes == a.panes
    } by {
        prefs::law_theme_round_trips(theme);
        if theme != a.prefs.theme {
            lemma_one_stored(*final(a), *a, "theme"@, theme.text());
        }
    }
}

/// A font that is chosen is in force, and is found again at the next start.
pub proof fn law_the_font_lasts(family: String, size: String)
    ensures
        forall|a: &mut FileManApp|
            #[trigger] call_ensures(FileManApp::set_font_family, (a, family), ()) && in_force(*a)
                ==> {
                &&& final(a).prefs.font_family == family
                &&& in_force(*final(a))
                &&& only_setting(*final(a), *a, "font_family"@)
                &&& final(a).panes == a.panes
            },
        forall|a: &mut FileManApp|
            #[trigger] call_ensures(FileManApp::set_font_size, (a, size), ()) && in_force(*a) ==> {
                &&& final(a).prefs.font_size == Some(size)
                &&& in_force(*final(a))
                &&& only_setting(*final(a), *a, "font_size"@)
                &&& final(a).panes == a.panes
            },
{
    lemma_keys_differ();
    assert forall|a: &mut FileManApp|
        #[trigger] call_ensures(FileManApp::set_font_family, (a, family), ()) && in_force(*a) implies {
        &&& final(a).prefs.font_family == family
        &&& in_force(*final(a))
        &&& only_setting(*final(a), *a, "font_family"@)
        &&& final(a).panes == a.panes
    } by {
        lemma_one_stored(*final(a), *a, "font_family"@, family@);
    }
    assert forall|a: &mut FileManApp|
        #[trigger] call_ensures(FileManApp::set_font_size, (a, size), ()) && in_force(*a) implies {
        &&& final(a).prefs.font_size == Some(size)
        &&& in_force(*final(a))
        &&& only_setting(*final(a), *a, "font_size"@)
        &&& final(a).panes == a.panes
    } by {
        lemma_one_stored(*final(a), *a, "font_size"@, size@);
    }
}

/// The layout of the tab strips that is chosen is in force, and is found again
/// at the next start.
pub proof fn law_the_tab_layout_lasts(orientation: TabOrientation, width: String)
    ensures
        forall|a: &mut FileManApp|
            #[trigger] call_ensures(FileManApp::set_tab_orientation, (a, orientation), ())
                && in_force(*a) ==> {
                &&& final(a).prefs.tab_orientation == orientation
                &&& in_force(*final(a))
                &&& only_setting(*final(a), *a, "tab_orientation"@)
                &&& final(a).panes == a.panes
            },
        forall|a: &mut FileManApp|
            #[trigger] call_ensures(FileManApp::set_tab_strip_width, (a, width), ()) && in_force(
                *a,
            ) ==> {
                &&& final(a).prefs.tab_strip_width == Some(width)
                &&& in_force(*final(a))
                &&& only_setting(*final(a), *a, "tab_strip_width"@)
                &&& final(a).panes == a.panes
            },
{
    lemma_keys_differ();
    assert forall|a: &mut FileManApp|
        #[trigger] call_ensures(FileManApp::set_tab_orientation, (a, orientation), ())
            && in_force(*a) implies {
        &&& final(a).prefs.tab_orientation == orientation
        &&& in_force(*final(a))
        &&& only_setting(*final(a), *a, "tab_orientation"@)
        &&& final(a).panes == a.panes
    } by {
        prefs::law_orientation_round_trips(orientation);
        if orientation != a.prefs.tab_orientation {
            lemma_one_stored(*final(a), *a, "tab_orientation"@, orientation.text());
        }
    }
    assert forall|a: &mut FileManApp|
        #[trigger] call_ensures(FileManApp::set_tab_strip_width, (a, width), ()) && in_force(*a) implies {
        &&& final(a).prefs.tab_strip_width == Some(width)
        &&& in_force(*final(a))
        &&& only_setting(*final(a), *a, "tab_strip_width"@)
        &&& final(a).panes == a.panes
    } by {
        lemma_one_stored(*final(a), *a, "tab_strip_width"@, width@);
    }
}

/// Whether tips are shown is in force as it was chosen, and is found again at
/// the next start. Of what can be clicked on a tip, only turning tips off
/// changes a setting.
pub proof fn law_tips_stay_off(on: bool, now: u64, action: TipAction)
    ensures
        forall|a: &mut FileManApp|
            #[trigger] call_ensures(FileManApp::set_tips_enabled, (a, on, now), ()) && in_force(*a)
                ==> {
                &&& final(a).prefs.tips_enabled == on && final(a).tips.visible == on
                &&& in_force(*final(a))
                &&& only_setting(*final(a), *a, "tips_enabled"@)
                &&& final(a).panes == a.panes
            },
        forall|a: &mut FileManApp|
            #[trigger] call_ensures(FileManApp::tips_action, (a, action), ()) && in_force(*a) ==> {
                &&& final(a).prefs.tips_enabled == (a.prefs.tips_enabled && action
                    != TipAction::Disable)
                &&& in_force(*final(a))
                &&& only_setting(*final(a), *a, "tips_enabled"@)
                &&& final(a).panes == a.panes
            },
{
    lemma_keys_differ();
    lemma_flags_differ();
    assert forall|a: &mut FileManApp|
        #[trigger] call_ensures(FileManApp::set_tips_enabled, (a, on, now), ()) && in_force(*a) implies {
        &&& final(a).prefs.tips_enabled == on && final(a).tips.visible == on
        &&& in_force(*final(a))
        &&& only_setting(*final(a), *a, "tips_enabled"@)
        &&& final(a).panes == a.panes
    } by {
        lemma_one_stored(*final(a), *a, "tips_enabled"@, prefs::flag_text(on));
    }
    assert forall|a: &mut FileManApp|
        #[trigger] call_ensures(FileManApp::tips_action, (a, action), ()) && in_force(*a) implies {
        &&& final(a).prefs.tips_enabled == (a.prefs.tips_enabled && action != TipAction::Disable)
        &&& in_force(*final(a))
        &&& only_setting(*final(a), *a, "tips_enabled"@)
        &&& final(a).panes == a.panes
    } by {
        if action == TipAction::Disable {
            lemma_one_stored(*final(a), *a, "tips_enabled"@, "false"@);
        }
    }
}

/// Whether hidden files are shown is in force as it was chosen, and is found
/// again at the next start. Every tab of both panes is read again for it, and
/// keeps its folder.
pub proof fn law_hidden_files_are_shown_everywhere(on: bool, p: int, j: int)
    requires
        0 <= p < 2,
    ensures
        forall|a: &mut FileManApp|
            #[trigger] call_ensures(FileManApp::set_show_hidden, (a, on), ()) && a.wf() && in_force(
                *a,
            ) && 0 <= j < a.panes@[p].tabs@.len() ==> {
                &&& final(a).prefs.show_hidden == on
                &&& in_force(*final(a))
                &&& only_setting(*final(a), *a, "show_hidden"@)
                &&& final(a).panes@[p].tabs@.len() == a.panes@[p].tabs@.len()
                &&& final(a).panes@[p].tabs@[j] == (Tab {
                    listing_dirty: true,
                    ..a.panes@[p].tabs@[j]
                })
            },
{
    lemma_keys_differ();
    lemma_flags_differ();
    assert forall|a: &mut FileManApp|
        #[trigger] call_ensures(FileManApp::set_show_hidden, (a, on), ()) && a.wf() && in_force(*a)
            && 0 <= j < a.panes@[p].tabs@.len() implies {
        &&& final(a).prefs.show_hidden == on
        &&& in_force(*final(a))
        &&& only_setting(*final(a), *a, "show_hidden"@)
        &&& final(a).panes@[p].tabs@.len() == a.panes@[p].tabs@.len()
        &&& final(a).panes@[p].tabs@[j] == (Tab { listing_dirty: true, ..a.panes@[p].tabs@[j] })
    } by {
        lemma_one_stored(*final(a), *a, "show_hidden"@, prefs::flag_text(on));
        assert(final(a).panes@[p].tabs@ == listing::all_marked(a.panes@[p].tabs@));
    }
}

/// The entries that are left out of the shell's menu are in force as they were
/// typed, and are found again at the next start.
pub proof fn law_left_out_entries_last(lines: String)
    ensures
        forall|a: &mut FileManApp|
            #[trigger] call_ensures(FileManApp::set_shell_menu_hidden, (a, lines), ()) && in_force(
                *a,
            ) ==> {
                &&& final(a).prefs.shell_menu_hidden_text == lines
                &&& in_force(*final(a))
                &&& only_setting(*final(a), *a, "shell_menu_hidden"@)
                &&& final(a).panes == a.panes
            },
{
    lemma_keys_differ();
    assert forall|a: &mut FileManApp|
        #[trigger] call_ensures(FileManApp::set_shell_menu_hidden, (a, lines), ()) && in_force(*a) implies {
        &&& final(a).prefs.shell_menu_hidden_text == lines
        &&& in_force(*final(a))
        &&& only_setting(*final(a), *a, "shell_menu_hidden"@)
        &&& final(a).panes == a.panes
    } by {
        lemma_one_stored(*final(a), *a, "shell_menu_hidden"@, lines@);
    }
}

/// How entries are laid out is changed in the active tab alone.
pub proof fn law_the_view_changes_in_one_tab(mode: ViewMode)
    ensures
        forall|a: &mut FileManApp|
            #[trigger] call_ensures(FileManApp::set_view_mode, (a, mode), ()) && a.wf() ==> {
                let p = a.active_pane as int;
                &&& final(a).panes@[1 - p] == a.panes@[1 - p]
                &&& final(a).panes@[p].tabs@.len() == a.panes@[p].tabs@.len()
                &&& forall|j: int|
                    0 <= j < a.panes@[p].tabs@.len() ==> #[trigger] final(a).panes@[p].tabs@[j]
                        == (Tab {
                        view_mode: if j == a.panes@[p].active_tab {
                            mode
                        } else {
                            a.panes@[p].tabs@[j].view_mode
                        },
                        ..a.panes@[p].tabs@[j]
                    })
                &&& final(a).prefs == a.prefs && final(a).db == a.db
            },
{
    assert forall|a: &mut FileManApp|
        #[trigger] call_ensures(FileManApp::set_view_mode, (a, mode), ()) && a.wf() implies {
        let p = a.active_pane as int;
        &&& final(a).panes@[1 - p] == a.panes@[1 - p]
        &&& final(a).panes@[p].tabs@.len() == a.panes@[p].tabs@.len()
        &&& forall|j: int|
            0 <= j < a.panes@[p].tabs@.len() ==> #[trigger] final(a).panes@[p].tabs@[j] == (Tab {
                view_mode: if j == a.panes@[p].active_tab {
                    mode
                } else {
                    a.panes@[p].tabs@[j].view_mode
                },
                ..a.panes@[p].tabs@[j]
            })
        &&& final(a).prefs == a.prefs && final(a).db == a.db
    } by {
        let p = a.active_pane as int;
        assert(a.panes@[p].wf());
        assert(final(a).panes@[1 - p] == a.panes@[1 - p]);
    }
}

// ---------------------------------------------------------------------------
// Shortcuts
// ---------------------------------------------------------------------------

/// Keys that are caught for an action are bound to it for the current user, and
/// no other binding changes; keys that another action of theirs has stay with
/// that one.
pub proof fn law_caught_keys_are_bound(
    after: FileManApp,
    before: FileManApp,
    action: Action,
    combo: KeyCombo,
    o: Option<i64>,
    k: Seq<char>,
)
    requires
        app_settings::rebound(after, before, action, Capture::Caught(combo)),
    ensures
        after.capturing_shortcut_for is None,
        ({
            let key = (Some(before.current_user_id), actions::combo_text(combo@));
            let taken = before.db.bindings@.contains_key(key) && ActionRef::of_id(
                before.db.bindings@[key],
            ) is Some && ActionRef::of_id(before.db.bindings@[key]) != Some(
                ActionRef::Builtin(action),
            );
            &&& taken ==> after.db == before.db && after.shortcut_map == before.shortcut_map
            &&& !taken ==> after.db.bindings@.contains_key(key) && after.db.bindings@[key]
                == ActionRef::Builtin(action).id_text()
            &&& (o, k) != key ==> after.db.bindings@.contains_key((o, k))
                == before.db.bindings@.contains_key((o, k)) && (after.db.bindings@.contains_key(
                (o, k),
            ) ==> after.db.bindings@[(o, k)] == before.db.bindings@[(o, k)])
        }),
        after.db.settings == before.db.settings && after.panes == before.panes,
{
}

proof fn lemma_all_unbound(
    m: Map<(Option<i64>, Seq<char>), Seq<char>>,
    owner: Option<i64>,
    combos: Seq<KeyCombo>,
    o: Option<i64>,
    k: Seq<char>,
)
    ensures
        ({
            let n = app_settings::all_unbound(m, owner, combos);
            let named = o == owner && exists|i: int|
                0 <= i < combos.len() && actions::combo_text((#[trigger] combos[i])@) == k;
            &&& named ==> n.contains_key((o, k)) && n[(o, k)] == actions::UNBOUND_SENTINEL@
            &&& !named ==> n.contains_key((o, k)) == m.contains_key((o, k)) && (n.contains_key(
                (o, k),
            ) ==> n[(o, k)] == m[(o, k)])
        }),
    decreases combos.len(),
{
    if combos.len() > 0 {
        let front = combos.drop_last();
        lemma_all_unbound(m, owner, front, o, k);
        let last = (owner, actions::combo_text(combos.last()@));
        let named = o == owner && exists|i: int|
            0 <= i < combos.len() && actions::combo_text((#[trigger] combos[i])@) == k;
        if (o, k) == last {
            assert(actions::combo_text(combos[combos.len() - 1]@) == k);
        } else if named {
            let i = choose|i: int|
                0 <= i < combos.len() && actions::combo_text((#[trigger] combos[i])@) == k;
            assert(i < front.len());
            assert(front[i] == combos[i]);
        } else if o == owner && exists|i: int|
            0 <= i < front.len() && actions::combo_text((#[trigger] front[i])@) == k {
            let i = choose|i: int|
                0 <= i < front.len() && actions::combo_text((#[trigger] front[i])@) == k;
            assert(combos[i] == front[i]);
        }
    }
}

/// Clearing the shortcuts of an action takes from it every combination that it
/// is shown with, and touches no other row.
pub proof fn law_clearing_takes_every_combination(
    action: Action,
    shown: Vec<KeyCombo>,
    o: Option<i64>,
    k: Seq<char>,
)
    ensures
        forall|a: &mut FileManApp|
            #![trigger call_ensures(FileManApp::clear_shortcuts, (a, action), ())]
            call_ensures(FileManApp::clear_shortcuts, (a, action), ()) && call_ensures(
                FileManApp::action_combos,
                (&*a, action),
                shown,
            ) ==> {
                let n = final(a).db.bindings@;
                let named = o == Some(a.current_user_id) && exists|i: int|
                    0 <= i < shown@.len() && actions::combo_text((#[trigger] shown@[i])@) == k;
                &&& named ==> n.contains_key((o, k)) && n[(o, k)] == actions::UNBOUND_SENTINEL@
                &&& !named ==> n.contains_key((o, k)) == a.db.bindings@.contains_key((o, k)) && (
                n.contains_key((o, k)) ==> n[(o, k)] == a.db.bindings@[(o, k)])
            },
{
    assert forall|a: &mut FileManApp|
        #![trigger call_ensures(FileManApp::clear_shortcuts, (a, action), ())]
        call_ensures(FileManApp::clear_shortcuts, (a, action), ()) && call_ensures(
            FileManApp::action_combos,
            (&*a, action),
            shown,
        ) implies {
        let n = final(a).db.bindings@;
        let named = o == Some(a.current_user_id) && exists|i: int|
            0 <= i < shown@.len() && actions::combo_text((#[trigger] shown@[i])@) == k;
        &&& named ==> n.contains_key((o, k)) && n[(o, k)] == actions::UNBOUND_SENTINEL@
        &&& !named ==> n.contains_key((o, k)) == a.db.bindings@.contains_key((o, k)) && (
        n.contains_key((o, k)) ==> n[(o, k)] == a.db.bindings@[(o, k)])
    } by {
        lemma_all_unbound(a.db.bindings@, Some(a.current_user_id), shown@, o, k);
    }
}

// ---------------------------------------------------------------------------
// Programs and buttons
// ---------------------------------------------------------------------------

/// Once an extension is pinned to a program, files with that extension are
/// opened with it, and pins of other extensions and users stay.
pub proof fn law_pinned_extensions_open_with_their_program(
    ext: &str,
    exe: &str,
    file: &str,
    effect: Effect,
    k: (Option<i64>, Seq<char>),
)
    ensures
        forall|a: &mut FileManApp|
            #[trigger] call_ensures(FileManApp::pin_extension, (a, ext, exe), ()) ==> {
                &&& final(a).opens_with(file@, effect) && path::extension_of(file@) is Some
                    && text::lowercase(path::extension_of(file@)->0) == text::lowercase(
                    text::strip_leading(ext@, '.'),
                ) ==> (effect matches Effect::Run { program, args } && program@ == exe@
                    && text::texts(args@) == seq![file@])
                &&& k != (
                    Some(a.current_user_id),
                    text::lowercase(text::strip_leading(ext@, '.')),
                ) ==> final(a).db.ext_overrides@.contains_key(k)
                    == a.db.ext_overrides@.contains_key(k) && (a.db.ext_overrides@.contains_key(k)
                    ==> final(a).db.ext_overrides@[k] == a.db.ext_overrides@[k])
                &&& final(a).current_user_id == a.current_user_id
            },
{
}

/// A button that is added stands last, one that is removed is gone, all others
/// stay in their order, and what is shown is what is kept for the user.
pub proof fn law_buttons_come_and_go(b: ActionRef)
    ensures
        forall|a: &mut FileManApp|
            #[trigger] call_ensures(FileManApp::toolbar_add, (a, b), ()) ==> {
                &&& final(a).toolbar_actions@ == a.toolbar_actions@.push(b)
                &&& actions::layout_ids(final(a).db.toolbars@, Some(a.current_user_id))
                    == actions::action_ids(final(a).toolbar_actions@)
            },
        forall|a: &mut FileManApp|
            #[trigger] call_ensures(FileManApp::toolbar_remove, (a, b), ()) ==> {
                &&& final(a).toolbar_actions@ == a.toolbar_actions@.filter(
                    |c: ActionRef| c != b,
                )
                &&& actions::layout_ids(final(a).db.toolbars@, Some(a.current_user_id))
                    == actions::action_ids(final(a).toolbar_actions@)
            },
{
    assert forall|a: &mut FileManApp|
        #[trigger] call_ensures(FileManApp::toolbar_remove, (a, b), ()) implies {
        &&& final(a).toolbar_actions@ == a.toolbar_actions@.filter(|c: ActionRef| c != b)
        &&& actions::layout_ids(final(a).db.toolbars@, Some(a.current_user_id))
            == actions::action_ids(final(a).toolbar_actions@)
    } by {
        crate::toolbar::lemma_without(a.toolbar_actions@, b, |c: ActionRef| c != b);
    }
}

/// A button goes one place up or down, its neighbour the other way, and all
/// others stay.
pub proof fn law_a_button_changes_places_with_its_neighbour(i: usize, k: int)
    ensures
        forall|a: &mut FileManApp|
            #[trigger] call_ensures(FileManApp::toolbar_up, (a, i), ()) && 0 <= k
                < a.toolbar_actions@.len() ==> {
                let was = a.toolbar_actions@;
                let n = final(a).toolbar_actions@;
                &&& n.len() == was.len()
                &&& n[k] == (if 0 < i < was.len() && k == i {
                    was[i - 1]
                } else if 0 < i < was.len() && k == i - 1 {
                    was[i as int]
                } else {
                    was[k]
                })
            },
        forall|a: &mut FileManApp|
            #[trigger] call_ensures(FileManApp::toolbar_down, (a, i), ()) && 0 <= k
                < a.toolbar_actions@.len() ==> {
                let was = a.toolbar_actions@;
                let n = final(a).toolbar_actions@;
                &&& n.len() == was.len()
                &&& n[k] == (if i + 1 < was.len() && k == i {
                    was[i + 1]
                } else if i + 1 < was.len() && k == i + 1 {
                    was[i as int]
                } else {
                    was[k]
                })
            },
{
}

/// A click on a column asks about the sorting that the click means, for the tab
/// that was clicked in, and sorts nothing yet.
pub proof fn law_a_click_on_a_column_asks_first(p: usize, col: &str)
    requires
        p < 2,
    ensures
        forall|a: &mut FileManApp|
            #[trigger] call_ensures(FileManApp::click_sort, (a, p, col), ()) ==> {
                let t = a.panes@[p as int].active();
                &&& final(a).dialog is Some && final(a).dialog->0 is ApplySort
                &&& final(a).dialog->0->ApplySort_col@ == col@
                &&& final(a).dialog->0->asc == (t.sort_col@ != col@ || !t.sort_asc)
                &&& final(a).dialog->0->ApplySort_pane_idx == p
                &&& final(a).panes == a.panes && final(a).prefs == a.prefs
            },
{
}

} // verus!
