//! The settings pages.

use crate::actions::{
    add_custom_action, clear_binding, list_custom_actions, load_shortcut_map, remove_custom_action,
    remove_ext_override, set_binding, set_ext_override, set_layout, Action, ActionRef, KeyCombo,
    Scope,
};
use crate::app::FileManApp;
use crate::app_files::tell;
use crate::listing::mark_all_tabs;
use crate::migrate::{check_version, import_into, SettingsFile};
use crate::prefs::{
    flag_str, parse_shell_menu_hidden, store_setting, theme_pref_str, Preferences, TabOrientation,
    ThemePref,
};
use crate::rebind::{capture, Capture, Held, InputEvent};
use crate::tab::{Tab, ViewMode};
use crate::tips::{TipAction, TipsCard, KEY_TIPS_ENABLED};
use crate::toolbar::{move_down, move_up, remove_button};
use crate::{
    actions, app_files, listing, migrate, prefs, rebind, shortcuts, table, text, toolbar,
};
use vstd::prelude::*;

verus! {

// ---------------------------------------------------------------------------
// Appearance
// ---------------------------------------------------------------------------

/// A setting of the current user was stored.
pub open spec fn setting_stored(
    after: FileManApp,
    before: FileManApp,
    key: Seq<char>,
    value: Seq<char>,
) -> bool {
    &&& after.db.same_but_settings(before.db)
    &&& after.db.settings@ == before.db.settings@.insert(
        (Some(before.current_user_id), key),
        value,
    )
}

impl FileManApp {
    /// Chooses a theme.
    pub fn set_theme(&mut self, theme: ThemePref)
        requires
            old(self).wf(),
        ensures
            final(self).wf(),
            if theme == old(self).prefs.theme {
                *final(self) == *old(self)
            } else {
                &&& setting_stored(*final(self), *old(self), "theme"@, theme.text())
                &&& *final(self) == (FileManApp {
                    db: final(self).db,
                    prefs: (Preferences { theme, ..old(self).prefs }),
                    ..*old(self)
                })
            },
            old(self).synced() ==> final(self).synced(),
    {
        if theme != self.prefs.theme {
            self.prefs.theme = theme;
            store_setting(&mut self.db, self.current_user_id, "theme", theme_pref_str(theme));
        }
    }

    /// Chooses a font.
    pub fn set_font_family(&mut self, family: String)
        requires
            old(self).wf(),
        ensures
            final(self).wf(),
            setting_stored(*final(self), *old(self), "font_family"@, family@),
            *final(self) == (FileManApp {
                db: final(self).db,
                prefs: (Preferences { font_family: family, ..old(self).prefs }),
                ..*old(self)
            }),
            old(self).synced() ==> final(self).synced(),
    {
        store_setting(&mut self.db, self.current_user_id, "font_family", family.as_str());
        self.prefs.font_family = family;
    }

    /// Chooses a font size, written as a decimal number.
    pub fn set_font_size(&mut self, size: String)
        requires
            old(self).wf(),
        ensures
            final(self).wf(),
            setting_stored(*final(self), *old(self), "font_size"@, size@),
            *final(self) == (FileManApp {
                db: final(self).db,
                prefs: (Preferences { font_size: Some(size), ..old(self).prefs }),
                ..*old(self)
            }),
            old(self).synced() ==> final(self).synced(),
    {
        store_setting(&mut self.db, self.current_user_id, "font_size", size.as_str());
        self.prefs.font_size = Some(size);
    }

    /// Chooses where the tabs are.
    pub fn set_tab_orientation(&mut self, orientation: TabOrientation)
        requires
            old(self).wf(),
        ensures
            final(self).wf(),
            if orientation == old(self).prefs.tab_orientation {
                *final(self) == *old(self)
            } else {
                &&& setting_stored(
                    *final(self),
                    *old(self),
                    "tab_orientation"@,
                    orientation.text(),
                )
                &&& *final(self) == (FileManApp {
                    db: final(self).db,
                    prefs: (Preferences { tab_orientation: orientation, ..old(self).prefs }),
                    ..*old(self)
                })
            },
            old(self).synced() ==> final(self).synced(),
    {
        if orientation != self.prefs.tab_orientation {
            self.prefs.tab_orientation = orientation;
            store_setting(
                &mut self.db,
                self.current_user_id,
                "tab_orientation",
                orientation.as_str(),
            );
        }
    }

    /// Stores the width of vertical tabs, written as a decimal number.
    pub fn set_tab_strip_width(&mut self, width: String)
        requires
            old(self).wf(),
        ensures
            final(self).wf(),
            setting_stored(*final(self), *old(self), "tab_strip_width"@, width@),
            *final(self) == (FileManApp {
                db: final(self).db,
                prefs: (Preferences { tab_strip_width: Some(width), ..old(self).prefs }),
                ..*old(self)
            }),
            old(self).synced() ==> final(self).synced(),
    {
        store_setting(&mut self.db, self.current_user_id, "tab_strip_width", width.as_str());
        self.prefs.tab_strip_width = Some(width);
    }

    /// Shows or hides the tips, from now on.
    pub fn set_tips_enabled(&mut self, on: bool, now: u64)
        requires
            old(self).wf(),
        ensures
            final(self).wf(),
            setting_stored(*final(self), *old(self), "tips_enabled"@, prefs::flag_text(on)),
            *final(self) == (FileManApp {
                db: final(self).db,
                prefs: (Preferences { tips_enabled: on, ..old(self).prefs }),
                tips: (TipsCard {
                    visible: on,
                    shown_at: if on {
                        now
                    } else {
                        old(self).tips.shown_at
                    },
                    ..old(self).tips
                }),
                ..*old(self)
            }),
            old(self).synced() ==> final(self).synced(),
    {
        self.prefs.tips_enabled = on;
        self.tips.set_visible(on, now);
        store_setting(&mut self.db, self.current_user_id, KEY_TIPS_ENABLED, flag_str(on));
    }

    /// Takes in a click on the tips card: "Turn off" persists the disable; the
    /// cross only hides it until the next launch.
    pub fn tips_action(&mut self, action: TipAction)
        requires
            old(self).wf(),
        ensures
            final(self).wf(),
            if action == TipAction::Disable {
                &&& setting_stored(*final(self), *old(self), "tips_enabled"@, "false"@)
                &&& *final(self) == (FileManApp {
                    db: final(self).db,
                    prefs: (Preferences { tips_enabled: false, ..old(self).prefs }),
                    ..*old(self)
                })
            } else {
                *final(self) == *old(self)
            },
            old(self).synced() ==> final(self).synced(),
    {
        match action {
            TipAction::Disable => {
                self.prefs.tips_enabled = false;
                store_setting(&mut self.db, self.current_user_id, KEY_TIPS_ENABLED, "false");
            },
            _ => {},
        }
    }

    /// Shows or hides hidden files: every tab is read again.
    pub fn set_show_hidden(&mut self, on: bool)
        requires
            old(self).wf(),
        ensures
            final(self).wf(),
            setting_stored(*final(self), *old(self), "show_hidden"@, prefs::flag_text(on)),
            forall|i: int|
                0 <= i < 2 ==> {
                    &&& (#[trigger] final(self).panes@[i]).tabs@ == listing::all_marked(
                        old(self).panes@[i].tabs@,
                    )
                    &&& final(self).panes@[i].active_tab == old(self).panes@[i].active_tab
                    &&& final(self).panes@[i].same_address(old(self).panes@[i])
                },
            *final(self) == (FileManApp {
                db: final(self).db,
                panes: final(self).panes,
                prefs: (Preferences { show_hidden: on, ..old(self).prefs }),
                ..*old(self)
            }),
            old(self).synced() ==> final(self).synced(),
    {
        self.prefs.show_hidden = on;
        mark_all_tabs(&mut self.panes[0]);
        mark_all_tabs(&mut self.panes[1]);
        store_setting(&mut self.db, self.current_user_id, "show_hidden", flag_str(on));
    }

    /// Chooses the entries of the shell menu that are hidden, one per line.
    pub fn set_shell_menu_hidden(&mut self, lines: String)
        requires
            old(self).wf(),
        ensures
            final(self).wf(),
            setting_stored(*final(self), *old(self), "shell_menu_hidden"@, lines@),
            final(self).prefs.shell_menu_hidden_text == lines,
            text::texts(final(self).prefs.shell_menu_hidden@) == text::nonblank_lines(lines@),
            *final(self) == (FileManApp {
                db: final(self).db,
                prefs: (Preferences {
                    shell_menu_hidden_text: final(self).prefs.shell_menu_hidden_text,
                    shell_menu_hidden: final(self).prefs.shell_menu_hidden,
                    ..old(self).prefs
                }),
                ..*old(self)
            }),
            old(self).synced() ==> final(self).synced(),
    {
        self.prefs.shell_menu_hidden = parse_shell_menu_hidden(lines.as_str());
        store_setting(&mut self.db, self.current_user_id, "shell_menu_hidden", lines.as_str());
        self.prefs.shell_menu_hidden_text = lines;
    }

    /// Chooses how the active tab shows its entries.
    pub fn set_view_mode(&mut self, mode: ViewMode)
        requires
            old(self).wf(),
        ensures
            final(self).wf(),
            final(self).active_is_now(*old(self), (Tab { view_mode: mode, ..old(self).active() })),
            *final(self) == (FileManApp { panes: final(self).panes, dirty: true, ..*old(self) }),
            old(self).synced() ==> final(self).synced(),
    {
        let ap: usize = self.active_pane;
        let t = self.panes[ap].active_tab_mut();
        t.view_mode = mode;
        self.dirty = true;
    }
}

// ---------------------------------------------------------------------------
// Shortcuts
// ---------------------------------------------------------------------------

/// The bindings once `combos` are unbound for `owner`.
pub open spec fn all_unbound(
    m: Map<(Option<i64>, Seq<char>), Seq<char>>,
    owner: Option<i64>,
    combos: Seq<KeyCombo>,
) -> Map<(Option<i64>, Seq<char>), Seq<char>>
    decreases combos.len(),
{
    if combos.len() == 0 {
        m
    } else {
        all_unbound(m, owner, combos.drop_last()).insert(
            (owner, actions::combo_text(combos.last()@)),
            actions::UNBOUND_SENTINEL@,
        )
    }
}

/// The rows of the bindings once `combos` are unbound for `owner`.
pub open spec fn rows_unbound(
    s: Seq<((Option<i64>, Seq<char>), Seq<char>)>,
    owner: Option<i64>,
    combos: Seq<KeyCombo>,
) -> Seq<((Option<i64>, Seq<char>), Seq<char>)>
    decreases combos.len(),
{
    if combos.len() == 0 {
        s
    } else {
        table::put_row(
            rows_unbound(s, owner, combos.drop_last()),
            (owner, actions::combo_text(combos.last()@)),
            actions::UNBOUND_SENTINEL@,
        )
    }
}

/// The bindings have changed to `m` with the rows `rows`, and the shortcuts with
/// them.
pub open spec fn bindings_became(
    after: FileManApp,
    before: FileManApp,
    m: Map<(Option<i64>, Seq<char>), Seq<char>>,
    rows: Seq<((Option<i64>, Seq<char>), Seq<char>)>,
) -> bool {
    &&& after.db.same_but_bindings(before.db)
    &&& after.db.bindings@ == m
    &&& table::row_views(after.db.bindings.rows()) == rows
    &&& after.shortcut_map@ == actions::effective_shortcuts(
        after.db.bindings.rows(),
        before.current_user_id,
    )
}

/// The keys that an action has, in the order in which they are shown.
pub open spec fn combos_shown(a: FileManApp, action: Action) -> Seq<KeyCombo> {
    crate::sort::sorted(
        shortcuts::combos_of(a.shortcut_map.entries(), ActionRef::Builtin(action)),
        shortcuts::combo_order(),
    )
}

/// What pressing keys does while an action waits for its new keys.
pub open spec fn rebound(
    after: FileManApp,
    before: FileManApp,
    action: Action,
    caught: Capture,
) -> bool {
    let scope = Scope::User(before.current_user_id);
    match caught {
        Capture::Waiting => after == before,
        Capture::Cancelled => {
            &&& after.status@ == "Rebind cancelled"@
            &&& after == (FileManApp {
                capturing_shortcut_for: None,
                status: after.status,
                ..before
            })
        },
        Capture::Caught(combo) => {
            let keys = actions::combo_text(combo@);
            let a = ActionRef::Builtin(action);
            match actions::binding_conflict(before.db.bindings@, scope, combo@, a) {
                Some(other) => {
                    &&& after.status@ == keys + " is already bound to "@ + (match other {
                        ActionRef::Builtin(b) => b.label_text(),
                        ActionRef::Custom(id) => actions::custom_label(
                            before.custom_actions@,
                            id,
                        ),
                    })
                    &&& after == (FileManApp {
                        capturing_shortcut_for: None,
                        status: after.status,
                        ..before
                    })
                },
                None => {
                    &&& bindings_became(
                        after,
                        before,
                        before.db.bindings@.insert((scope.owner(), keys), a.id_text()),
                        table::put_row(
                            table::row_views(before.db.bindings.rows()),
                            (scope.owner(), keys),
                            a.id_text(),
                        ),
                    )
                    &&& after.status@ == "Bound "@ + keys + " to "@ + action.label_text()
                    &&& after == (FileManApp {
                        db: after.db,
                        shortcut_map: after.shortcut_map,
                        capturing_shortcut_for: None,
                        status: after.status,
                        ..before
                    })
                },
            }
        },
    }
}

impl FileManApp {
    /// Waits for the new keys of an action.
    pub fn begin_rebind(&mut self, action: Action)
        requires
            old(self).wf(),
        ensures
            final(self).wf(),
            *final(self) == (FileManApp {
                capturing_shortcut_for: Some(action),
                ..*old(self)
            }),
            old(self).synced() ==> final(self).synced(),
    {
        self.capturing_shortcut_for = Some(action);
    }

    /// The keys of an action, as they are shown.
    pub fn action_combos(&self, action: Action) -> (r: Vec<KeyCombo>)
        requires
            self.wf(),
        ensures
            r@ == combos_shown(*self, action),
    {
        self.shortcut_map.combos_for(ActionRef::Builtin(action))
    }

    /// Takes all its keys from an action.
    pub fn clear_shortcuts(&mut self, action: Action)
        requires
            old(self).wf(),
        ensures
            final(self).wf(),
            ({
                let combos = combos_shown(*old(self), action);
                if combos.len() == 0 {
                    *final(self) == *old(self)
                } else {
                    &&& bindings_became(
                        *final(self),
                        *old(self),
                        all_unbound(
                            old(self).db.bindings@,
                            Some(old(self).current_user_id),
                            combos,
                        ),
                        rows_unbound(
                            table::row_views(old(self).db.bindings.rows()),
                            Some(old(self).current_user_id),
                            combos,
                        ),
                    )
                    &&& final(self).status@ == "Cleared shortcut for "@ + action.label_text()
                    &&& *final(self) == (FileManApp {
                        db: final(self).db,
                        shortcut_map: final(self).shortcut_map,
                        status: final(self).status,
                        ..*old(self)
                    })
                }
            }),
            old(self).synced() ==> final(self).synced(),
    {
        let combos = self.action_combos(action);
        if combos.len() == 0 {
            return ;
        }
        let ghost start = *self;
        let u: i64 = self.current_user_id;
        let mut i: usize = 0;
        assert(combos@.subrange(0, 0).len() == 0);
        while i < combos.len()
            invariant
                i <= combos.len(),
                u == start.current_user_id,
                self.db.wf(),
                self.db.same_but_bindings(start.db),
                self.db.bindings@ == all_unbound(
                    start.db.bindings@,
                    Some(u),
                    combos@.subrange(0, i as int),
                ),
                table::row_views(self.db.bindings.rows()) == rows_unbound(
                    table::row_views(start.db.bindings.rows()),
                    Some(u),
                    combos@.subrange(0, i as int),
                ),
                *self == (FileManApp { db: self.db, ..start }),
            decreases combos.len() - i,
        {
            let ghost upto = combos@.subrange(0, i + 1);
            assert(upto.drop_last() =~= combos@.subrange(0, i as int));
            clear_binding(&mut self.db, Scope::User(u), &combos[i]);
            i += 1;
        }
        assert(combos@.subrange(0, i as int) =~= combos@);
        self.shortcut_map = load_shortcut_map(&self.db, u);
        self.status = tell("Cleared shortcut for ", action.label());
    }

    /// Takes in the keys that are pressed while an action waits for its new
    /// ones. Escape cancels.
    pub fn capture_shortcut(&mut self, events: &Vec<InputEvent>, held: Held)
        requires
            old(self).wf(),
        ensures
            final(self).wf(),
            match old(self).capturing_shortcut_for {
                Some(action) => exists|caught: Capture| #[trigger]
                    rebind::captures(events@, held, caught) && rebound(
                        *final(self),
                        *old(self),
                        action,
                        caught,
                    ),
                None => *final(self) == *old(self),
            },
            old(self).synced() ==> final(self).synced(),
    {
        let action = match self.capturing_shortcut_for {
            Some(a) => a,
            None => {
                return ;
            },
        };
        let caught = capture(events, held);
        let ghost seen = caught;
        match caught {
            Capture::Waiting => {},
            Capture::Cancelled => {
                self.capturing_shortcut_for = None;
                self.status = "Rebind cancelled".to_owned();
            },
            Capture::Caught(combo) => {
                let u: i64 = self.current_user_id;
                let keys = combo.to_text();
                let clash = set_binding(
                    &mut self.db,
                    Scope::User(u),
                    &combo,
                    ActionRef::Builtin(action),
                );
                match clash {
                    None => {
                        self.shortcut_map = load_shortcut_map(&self.db, u);
                        let mut s = tell("Bound ", keys.as_str());
                        s.append(" to ");
                        s.append(action.label());
                        self.status = s;
                    },
                    Some(other) => {
                        let mut s = tell(keys.as_str(), " is already bound to ");
                        s.append(other.label(&self.custom_actions).as_str());
                        self.status = s;
                    },
                }
                self.capturing_shortcut_for = None;
            },
        }
        assert(rebind::captures(events@, held, seen));
    }
}

// ---------------------------------------------------------------------------
// Toolbar
// ---------------------------------------------------------------------------

/// The toolbar shows `layout`, which is stored for the current user.
pub open spec fn toolbar_became(
    after: FileManApp,
    before: FileManApp,
    layout: Seq<ActionRef>,
) -> bool {
    let u = Some(before.current_user_id);
    &&& after.toolbar_actions@ == layout
    &&& after.db.same_but_toolbars(before.db)
    &&& actions::layout_ids(after.db.toolbars@, u) == actions::action_ids(layout)
    &&& forall|o: Option<i64>|
        o != u ==> #[trigger] actions::layout_ids(after.db.toolbars@, o) == actions::layout_ids(
            before.db.toolbars@,
            o,
        )
    &&& after == (FileManApp {
        db: after.db,
        toolbar_actions: after.toolbar_actions,
        ..before
    })
}

impl FileManApp {
    fn store_toolbar(&mut self)
        requires
            old(self).wf(),
        ensures
            final(self).wf(),
            toolbar_became(*final(self), *old(self), old(self).toolbar_actions@),
            old(self).synced() ==> final(self).synced(),
    {
        set_layout(&mut self.db, Scope::User(self.current_user_id), &self.toolbar_actions);
    }

    /// Moves a button one place to the front.
    pub fn toolbar_up(&mut self, i: usize)
        requires
            old(self).wf(),
        ensures
            final(self).wf(),
            if 0 < i < old(self).toolbar_actions@.len() {
                toolbar_became(
                    *final(self),
                    *old(self),
                    toolbar::exchanged(old(self).toolbar_actions@, i as int, i - 1),
                )
            } else {
                final(self).toolbar_actions@ == old(self).toolbar_actions@ && *final(self)
                    == (FileManApp {
                    toolbar_actions: final(self).toolbar_actions,
                    ..*old(self)
                })
            },
            old(self).synced() ==> final(self).synced(),
    {
        if move_up(&mut self.toolbar_actions, i) {
            self.store_toolbar();
        }
    }

    /// Moves a button one place to the back.
    pub fn toolbar_down(&mut self, i: usize)
        requires
            old(self).wf(),
        ensures
            final(self).wf(),
            if i + 1 < old(self).toolbar_actions@.len() {
                toolbar_became(
                    *final(self),
                    *old(self),
                    toolbar::exchanged(old(self).toolbar_actions@, i as int, i + 1),
                )
            } else {
                final(self).toolbar_actions@ == old(self).toolbar_actions@ && *final(self)
                    == (FileManApp {
                    toolbar_actions: final(self).toolbar_actions,
                    ..*old(self)
                })
            },
            old(self).synced() ==> final(self).synced(),
    {
        if move_down(&mut self.toolbar_actions, i) {
            self.store_toolbar();
        }
    }

    /// Takes a button from the toolbar.
    pub fn toolbar_remove(&mut self, a: ActionRef)
        requires
            old(self).wf(),
        ensures
            final(self).wf(),
            toolbar_became(
                *final(self),
                *old(self),
                toolbar::without(old(self).toolbar_actions@, a),
            ),
            old(self).synced() ==> final(self).synced(),
    {
        remove_button(&mut self.toolbar_actions, a);
        self.store_toolbar();
    }

    /// Adds a button to the end of the toolbar.
    pub fn toolbar_add(&mut self, a: ActionRef)
        requires
            old(self).wf(),
        ensures
            final(self).wf(),
            toolbar_became(*final(self), *old(self), old(self).toolbar_actions@.push(a)),
            old(self).synced() ==> final(self).synced(),
    {
        self.toolbar_actions.push(a);
        self.store_toolbar();
    }
}

// ---------------------------------------------------------------------------
// Custom actions and file types
// ---------------------------------------------------------------------------

impl FileManApp {
    /// Adds a custom "open with" action. The database is full once no identity
    /// is left for one.
    pub fn add_custom(&mut self, label: &str, exe_path: &str)
        requires
            old(self).wf(),
        ensures
            final(self).wf(),
            ({
                let u = old(self).current_user_id;
                let id = old(self).db.last_custom_id;
                &&& if id < i64::MAX {
                    &&& actions::custom_added(
                        old(self).db.custom_actions@,
                        final(self).db.custom_actions@,
                        (id + 1) as i64,
                        label@,
                        exe_path@,
                        Some(u),
                    )
                    &&& final(self).db.last_custom_id == id + 1
                    &&& final(self).db.same_but_customs(old(self).db)
                } else {
                    final(self).db == old(self).db
                }
                &&& actions::shows_customs(
                    final(self).custom_actions@,
                    actions::visible_customs(final(self).db.custom_actions@, u),
                )
            }),
            final(self).status@ == "Added custom action \""@ + label@ + "\""@,
            *final(self) == (FileManApp {
                db: final(self).db,
                custom_actions: final(self).custom_actions,
                status: final(self).status,
                ..*old(self)
            }),
            old(self).synced() ==> final(self).synced(),
    {
        let _ = add_custom_action(&mut self.db, self.current_user_id, label, exe_path);
        self.custom_actions = list_custom_actions(&self.db, self.current_user_id);
        let mut s = tell("Added custom action \"", label);
        s.append("\"");
        self.status = s;
    }

    /// Removes a custom action.
    pub fn remove_custom(&mut self, id: i64)
        requires
            old(self).wf(),
        ensures
            final(self).wf(),
            final(self).db.custom_actions@ == actions::customs_without(
                old(self).db.custom_actions@,
                id,
            ),
            final(self).db.last_custom_id == old(self).db.last_custom_id,
            final(self).db.same_but_customs(old(self).db),
            actions::shows_customs(
                final(self).custom_actions@,
                actions::visible_customs(
                    final(self).db.custom_actions@,
                    old(self).current_user_id,
                ),
            ),
            final(self).status@ == "Custom action removed"@,
            *final(self) == (FileManApp {
                db: final(self).db,
                custom_actions: final(self).custom_actions,
                status: final(self).status,
                ..*old(self)
            }),
            old(self).synced() ==> final(self).synced(),
    {
        remove_custom_action(&mut self.db, id);
        self.custom_actions = list_custom_actions(&self.db, self.current_user_id);
        self.status = "Custom action removed".to_owned();
    }

    /// Has files with an extension always open with a program.
    pub fn pin_extension(&mut self, ext: &str, exe_path: &str)
        requires
            old(self).wf(),
        ensures
            final(self).wf(),
            final(self).db.same_but_overrides(old(self).db),
            final(self).db.ext_overrides@ == old(self).db.ext_overrides@.insert(
                (Some(old(self).current_user_id), actions::stored_ext(ext@)),
                exe_path@,
            ),
            final(self).status@ == "Files ending in \""@ + ext@
                + "\" now always open with this program"@,
            *final(self) == (FileManApp {
                db: final(self).db,
                status: final(self).status,
                ..*old(self)
            }),
            old(self).synced() ==> final(self).synced(),
    {
        set_ext_override(&mut self.db, self.current_user_id, ext, exe_path);
        let mut s = tell("Files ending in \"", ext);
        s.append("\" now always open with this program");
        self.status = s;
    }

    /// Has files with an extension open with the default program again.
    pub fn unpin_extension(&mut self, ext: &str)
        requires
            old(self).wf(),
        ensures
            final(self).wf(),
            final(self).db.same_but_overrides(old(self).db),
            final(self).db.ext_overrides@ == actions::without_override(
                old(self).db.ext_overrides@,
                old(self).current_user_id,
                ext@,
            ),
            final(self).status@ == "Removed override for ."@ + ext@,
            *final(self) == (FileManApp {
                db: final(self).db,
                status: final(self).status,
                ..*old(self)
            }),
            old(self).synced() ==> final(self).synced(),
    {
        remove_ext_override(&mut self.db, self.current_user_id, ext);
        self.status = tell("Removed override for .", ext);
    }
}

// ---------------------------------------------------------------------------
// Advanced
// ---------------------------------------------------------------------------

/// What is said once folders open here, or no longer do; `error` says what went
/// wrong, if anything.
pub fn default_explorer_status(ours: bool, error: Option<String>) -> (r: String)
    ensures
        r@ == (match error {
            None => if ours {
                "FileMan is now the default folder explorer (already-open windows are unaffected)"@
            } else {
                "Restored Windows Explorer as the folder default"@
            },
            Some(e) => (if ours {
                "Setup failed: "@
            } else {
                "Restore failed: "@
            }) + e@,
        }),
{
    match error {
        None => if ours {
            "FileMan is now the default folder explorer (already-open windows are unaffected)".to_owned()
        } else {
            "Restored Windows Explorer as the folder default".to_owned()
        },
        Some(e) => if ours {
            tell("Setup failed: ", e.as_str())
        } else {
            tell("Restore failed: ", e.as_str())
        },
    }
}

/// The name under which the settings of a user are exported.
pub fn export_name(user_name: &str) -> (r: String)
    ensures
        r@ == "fileman-settings-"@ + user_name@ + ".json"@,
{
    let mut s = tell("fileman-settings-", user_name);
    s.append(".json");
    s
}

impl FileManApp {
    /// Handles the end of an export; `error` says what went wrong, if anything.
    pub fn exported(&mut self, file: &str, error: Option<String>)
        requires
            old(self).wf(),
        ensures
            final(self).wf(),
            app_files::said(
                *final(self),
                *old(self),
                match error {
                    None => "Settings exported to "@ + file@,
                    Some(e) => e@,
                },
            ),
            old(self).synced() ==> final(self).synced(),
    {
        self.status = match error {
            None => tell("Settings exported to ", file),
            Some(e) => e,
        };
    }

    /// Takes over the settings of a file and shows them at once. A file of a
    /// newer version is refused.
    pub fn import_settings(&mut self, file: &SettingsFile)
        requires
            old(self).wf(),
            file.bindings_user@.len() + file.bindings_global@.len() <= usize::MAX,
            old(self).db.last_custom_id + file.custom_actions@.len() <= i64::MAX,
        ensures
            final(self).wf(),
            file.version > migrate::FORMAT_VERSION ==> *final(self) == (FileManApp {
                status: final(self).status,
                ..*old(self)
            }) && final(self).status@ == migrate::version_problem(file.version),
            file.version <= migrate::FORMAT_VERSION ==> {
                &&& exists|summary: migrate::ImportSummary|
                    final(self).status@ == #[trigger] summary.text() && migrate::imported(
                        final(self).db,
                        old(self).db,
                        old(self).current_user_id,
                        *file,
                        summary,
                    )
                &&& prefs_reloaded(*final(self), *old(self))
                &&& *final(self) == (FileManApp {
                    db: final(self).db,
                    prefs: final(self).prefs,
                    shortcut_map: final(self).shortcut_map,
                    toolbar_actions: final(self).toolbar_actions,
                    custom_actions: final(self).custom_actions,
                    status: final(self).status,
                    ..*old(self)
                })
            },
            old(self).synced() ==> final(self).synced(),
    {
        match check_version(file) {
            Err(e) => {
                self.status = e;
            },
            Ok(_) => {
                let summary = import_into(&mut self.db, self.current_user_id, file);
                let ghost told = summary;
                self.status = summary.describe();
                self.reload_settings_from_db();
                assert(self.status@ == told.text());
            },
        }
    }
}

/// What is shown of the settings is what the database holds.
pub open spec fn prefs_reloaded(after: FileManApp, before: FileManApp) -> bool {
    let u = before.current_user_id;
    &&& prefs::reads(after.prefs, after.db.settings@, u)
    &&& after.shortcut_map@ == actions::effective_shortcuts(after.db.bindings.rows(), u)
    &&& after.toolbar_actions@ == actions::effective_toolbar(after.db.toolbars@, u)
    &&& actions::shows_customs(
        after.custom_actions@,
        actions::visible_customs(after.db.custom_actions@, u),
    )
}

} // verus!
