//! Settings migration: gathers all settings of a user into a portable payload
//! and applies such a payload to another user, here or on another machine.
//!
//! Covers the four settings stores:
//! - settings (theme, fonts, tab layout, ...), shared and per user
//! - bindings (keyboard shortcuts), shared and per user
//! - toolbars (button order), shared and per user
//! - custom actions (per-user "open with" actions)
//!
//! Session state (open tabs, pane layout) is deliberately excluded: it is
//! workspace data, not configuration.

use crate::actions::{add_custom_action, put_binding, set_layout_ids, Scope};
use crate::db::{CustomRow, Database};
use crate::table::Pair;
use crate::text::{clone_strings, str_eq, u64_to_string, usize_to_string};
use crate::{actions, config, sort, table, text};
use vstd::prelude::*;

verus! {

/// Bump when the format changes; importers accept `version <= FORMAT_VERSION`.
pub const FORMAT_VERSION: u32 = 1;

/// A custom action without its id.
#[derive(Debug, PartialEq)]
pub struct CustomActionEntry {
    pub label: String,
    pub exe_path: String,
}

/// The complete portable settings payload.
#[derive(Debug, PartialEq)]
pub struct SettingsFile {
    pub version: u32,
    pub exported_at: String,
    pub source_user: Option<String>,
    /// Per-user settings of the exporting account.
    pub user_config: Vec<Pair>,
    /// Shared settings.
    pub global_config: Vec<Pair>,
    /// Action ids by key combination.
    pub bindings_user: Vec<Pair>,
    pub bindings_global: Vec<Pair>,
    pub toolbar_user: Vec<String>,
    pub toolbar_global: Vec<String>,
    pub custom_actions: Vec<CustomActionEntry>,
}

/// How many rows each importer pass wrote, for the status toast.
#[derive(Debug, Clone, Copy, PartialEq, Eq, Structural)]
pub struct ImportSummary {
    pub config_values: usize,
    pub bindings: usize,
    pub toolbars: usize,
    pub custom_actions: usize,
}

impl Default for ImportSummary {
    fn default() -> (r: Self)
        ensures
            r.config_values == 0,
            r.bindings == 0,
            r.toolbars == 0,
            r.custom_actions == 0,
    {
        ImportSummary { config_values: 0, bindings: 0, toolbars: 0, custom_actions: 0 }
    }
}

impl ImportSummary {
    /// What the status toast says of an import.
    pub open spec fn text(self) -> Seq<char> {
        "Imported "@ + text::decimal(self.config_values as nat) + " config values, "@
            + text::decimal(self.bindings as nat) + " shortcuts, "@ + text::decimal(
            self.toolbars as nat,
        ) + " toolbar(s), "@ + text::decimal(self.custom_actions as nat) + " custom action(s)"@
    }

    /// What the status toast says of the import.
    pub fn describe(self) -> (r: String)
        ensures
            r@ == self.text(),
    {
        let mut s = "Imported ".to_owned();
        s.append(usize_to_string(self.config_values).as_str());
        s.append(" config values, ");
        s.append(usize_to_string(self.bindings).as_str());
        s.append(" shortcuts, ");
        s.append(usize_to_string(self.toolbars).as_str());
        s.append(" toolbar(s), ");
        s.append(usize_to_string(self.custom_actions).as_str());
        s.append(" custom action(s)");
        s
    }
}

// ---------------------------------------------------------------------------
// Export
// ---------------------------------------------------------------------------

/// The custom actions of one user alone.
pub open spec fn own_customs(rows: Seq<CustomRow>, user_id: i64) -> Seq<(Seq<char>, Seq<char>)>
    decreases rows.len(),
{
    if rows.len() == 0 {
        Seq::<(Seq<char>, Seq<char>)>::empty()
    } else if rows.last().owner == Some(user_id) {
        own_customs(rows.drop_last(), user_id).push((rows.last().label@, rows.last().exe_path@))
    } else {
        own_customs(rows.drop_last(), user_id)
    }
}

/// What custom actions are called and open.
pub open spec fn entry_views(s: Seq<CustomActionEntry>) -> Seq<(Seq<char>, Seq<char>)> {
    Seq::new(s.len(), |i: int| (s[i].label@, s[i].exe_path@))
}

/// `pairs` shows the rows of `owner` in the order of their keys.
pub open spec fn exports(pairs: Seq<Pair>, t: table::TextTable, owner: Option<i64>) -> bool {
    table::shows_rows(pairs, sort::sorted(table::owned(t.rows(), owner), table::key_order()))
}

/// The stored button ids of one owner.
fn export_toolbar(db: &Database, owner: Option<i64>) -> (r: Vec<String>)
    requires
        db.wf(),
    ensures
        text::texts(r@) == actions::layout_ids(db.toolbars@, owner),
{
    match db.toolbars.get(owner) {
        Some(ids) => clone_strings(ids),
        None => {
            let out: Vec<String> = Vec::new();
            assert(text::texts(out@) =~= Seq::<Seq<char>>::empty());
            out
        },
    }
}

/// The name under which the settings of a user are kept.
pub fn scope_key_user(user_id: i64) -> (r: String)
    ensures
        r@ == actions::Scope::User(user_id).key_text(),
{
    Scope::User(user_id).to_key()
}

/// Gathers every settings row relevant to `user_id` into a portable struct,
/// stamped with the time `now`.
pub fn collect(db: &Database, user_id: i64, source_user: Option<String>, now: String) -> (r:
    SettingsFile)
    requires
        db.wf(),
    ensures
        r.version == FORMAT_VERSION,
        r.exported_at == now,
        r.source_user == source_user,
        exports(r.user_config@, db.settings, Some(user_id)),
        exports(r.global_config@, db.settings, None),
        exports(r.bindings_user@, db.bindings, Some(user_id)),
        exports(r.bindings_global@, db.bindings, None),
        text::texts(r.toolbar_user@) == actions::layout_ids(db.toolbars@, Some(user_id)),
        text::texts(r.toolbar_global@) == actions::layout_ids(db.toolbars@, None),
        entry_views(r.custom_actions@) == own_customs(db.custom_actions@, user_id),
{
    let mut customs: Vec<CustomActionEntry> = Vec::new();
    let mut i: usize = 0;
    let ghost rows = db.custom_actions@;
    assert(entry_views(customs@) =~= own_customs(rows.subrange(0, 0), user_id));
    while i < db.custom_actions.len()
        invariant
            i <= db.custom_actions@.len(),
            rows == db.custom_actions@,
            entry_views(customs@) == own_customs(rows.subrange(0, i as int), user_id),
        decreases db.custom_actions@.len() - i,
    {
        assert(rows.subrange(0, i + 1).drop_last() =~= rows.subrange(0, i as int));
        let row = &db.custom_actions[i];
        let ghost before = entry_views(customs@);
        if row.owner == Some(user_id) {
            customs.push(
                CustomActionEntry { label: row.label.clone(), exe_path: row.exe_path.clone() },
            );
            assert(entry_views(customs@) =~= before.push((row.label@, row.exe_path@)));
        }
        i = i + 1;
    }
    assert(rows.subrange(0, i as int) =~= rows);
    SettingsFile {
        version: FORMAT_VERSION,
        exported_at: now,
        source_user,
        user_config: db.settings.pairs_by_key(Some(user_id)),
        global_config: db.settings.pairs_by_key(None),
        bindings_user: db.bindings.pairs_by_key(Some(user_id)),
        bindings_global: db.bindings.pairs_by_key(None),
        toolbar_user: export_toolbar(db, Some(user_id)),
        toolbar_global: export_toolbar(db, None),
        custom_actions: customs,
    }
}

/// What is wrong with a file of a newer version.
pub open spec fn version_problem(version: u32) -> Seq<char> {
    "Settings file version "@ + text::decimal(version as nat)
        + " is newer than this app supports ("@ + text::decimal(FORMAT_VERSION as nat) + ")"@
}

/// Accepts a payload of this or an older format, and says of a newer one that
/// it is too new.
pub fn check_version(file: &SettingsFile) -> (r: Result<(), String>)
    ensures
        r is Ok <==> file.version <= FORMAT_VERSION,
        r matches Err(e) ==> e@ == version_problem(file.version),
{
    if file.version > FORMAT_VERSION {
        let mut s = "Settings file version ".to_owned();
        s.append(u64_to_string(file.version as u64).as_str());
        s.append(" is newer than this app supports (");
        s.append(u64_to_string(FORMAT_VERSION as u64).as_str());
        s.append(")");
        return Err(s);
    }
    Ok(())
}

// ---------------------------------------------------------------------------
// Import
// ---------------------------------------------------------------------------

/// A table after `pairs` were written for `owner`, one by one.
pub open spec fn written(
    m: Map<(Option<i64>, Seq<char>), Seq<char>>,
    owner: Option<i64>,
    pairs: Seq<Pair>,
) -> Map<(Option<i64>, Seq<char>), Seq<char>>
    decreases pairs.len(),
{
    if pairs.len() == 0 {
        m
    } else {
        written(m, owner, pairs.drop_last()).insert((owner, pairs.last().key@), pairs.last().value@)
    }
}

/// The rows of a table after `pairs` were written for `owner`, one by one.
pub open spec fn rows_written(
    s: Seq<((Option<i64>, Seq<char>), Seq<char>)>,
    owner: Option<i64>,
    pairs: Seq<Pair>,
) -> Seq<((Option<i64>, Seq<char>), Seq<char>)>
    decreases pairs.len(),
{
    if pairs.len() == 0 {
        s
    } else {
        table::put_row(
            rows_written(s, owner, pairs.drop_last()),
            (owner, pairs.last().key@),
            pairs.last().value@,
        )
    }
}

/// The settings after those of `pairs` for which the user has no value, own
/// or shared, were written as shared settings.
pub open spec fn filled_in(
    m: Map<(Option<i64>, Seq<char>), Seq<char>>,
    user_id: i64,
    pairs: Seq<Pair>,
) -> Map<(Option<i64>, Seq<char>), Seq<char>>
    decreases pairs.len(),
{
    if pairs.len() == 0 {
        m
    } else {
        let before = filled_in(m, user_id, pairs.drop_last());
        if config::effective(before, user_id, pairs.last().key@) is None {
            before.insert((None, pairs.last().key@), pairs.last().value@)
        } else {
            before
        }
    }
}

/// A user has a custom action with that label and program.
pub open spec fn has_custom(
    rows: Seq<CustomRow>,
    user_id: i64,
    label: Seq<char>,
    exe: Seq<char>,
) -> bool {
    exists|i: int|
        0 <= i < rows.len() && (#[trigger] rows[i]).owner == Some(user_id) && rows[i].label@
            == label && rows[i].exe_path@ == exe
}

/// Those of `entries` that are new to the user, in their order, each once.
pub open spec fn new_entries(
    have: Set<(Seq<char>, Seq<char>)>,
    entries: Seq<(Seq<char>, Seq<char>)>,
) -> Seq<(Seq<char>, Seq<char>)>
    decreases entries.len(),
{
    if entries.len() == 0 {
        Seq::empty()
    } else {
        let before = new_entries(have, entries.drop_last());
        if have.contains(entries.last()) || entries.drop_last().contains(entries.last()) {
            before
        } else {
            before.push(entries.last())
        }
    }
}

/// `after` is `before` with `added` behind it, as custom actions of the user
/// under the ids that follow `last_id`.
pub open spec fn customs_appended(
    before: Seq<CustomRow>,
    after: Seq<CustomRow>,
    last_id: i64,
    user_id: i64,
    added: Seq<(Seq<char>, Seq<char>)>,
) -> bool {
    &&& after.len() == before.len() + added.len()
    &&& after.subrange(0, before.len() as int) == before
    &&& forall|k: int|
        before.len() <= k < after.len() ==> {
            let row = #[trigger] after[k];
            &&& row.id == last_id + 1 + (k - before.len())
            &&& row.owner == Some(user_id)
            &&& (row.label@, row.exe_path@) == added[k - before.len()]
        }
}

/// The labels and programs of the custom actions of a user.
pub open spec fn custom_set(rows: Seq<CustomRow>, user_id: i64) -> Set<(Seq<char>, Seq<char>)> {
    Set::new(|e: (Seq<char>, Seq<char>)| has_custom(rows, user_id, e.0, e.1))
}

fn import_settings(db: &mut Database, user_id: i64, pairs: &Vec<Pair>)
    requires
        old(db).wf(),
    ensures
        final(db).wf(),
        final(db).same_but_settings(*old(db)),
        final(db).settings@ == written(old(db).settings@, Some(user_id), pairs@),
{
    let mut i: usize = 0;
    while i < pairs.len()
        invariant
            i <= pairs@.len(),
            db.wf(),
            db.same_but_settings(*old(db)),
            db.settings@ == written(
                old(db).settings@,
                Some(user_id),
                pairs@.subrange(0, i as int),
            ),
        decreases pairs@.len() - i,
    {
        assert(pairs@.subrange(0, i + 1).drop_last() =~= pairs@.subrange(0, i as int));
        crate::config::set(
            db,
            crate::config::Scope::User(user_id),
            pairs[i].key.as_str(),
            pairs[i].value.as_str(),
        );
        i = i + 1;
    }
    assert(pairs@.subrange(0, i as int) =~= pairs@);
}

fn fill_in_settings(db: &mut Database, user_id: i64, pairs: &Vec<Pair>)
    requires
        old(db).wf(),
    ensures
        final(db).wf(),
        final(db).same_but_settings(*old(db)),
        final(db).settings@ == filled_in(old(db).settings@, user_id, pairs@),
{
    let mut i: usize = 0;
    while i < pairs.len()
        invariant
            i <= pairs@.len(),
            db.wf(),
            db.same_but_settings(*old(db)),
            db.settings@ == filled_in(old(db).settings@, user_id, pairs@.subrange(0, i as int)),
        decreases pairs@.len() - i,
    {
        assert(pairs@.subrange(0, i + 1).drop_last() =~= pairs@.subrange(0, i as int));
        if crate::config::get(db, user_id, pairs[i].key.as_str()).is_none() {
            crate::config::set(
                db,
                crate::config::Scope::Global,
                pairs[i].key.as_str(),
                pairs[i].value.as_str(),
            );
        }
        i = i + 1;
    }
    assert(pairs@.subrange(0, i as int) =~= pairs@);
}

fn import_bindings(db: &mut Database, scope: Scope, pairs: &Vec<Pair>)
    requires
        old(db).wf(),
    ensures
        final(db).wf(),
        final(db).same_but_bindings(*old(db)),
        final(db).bindings@ == written(old(db).bindings@, scope.owner(), pairs@),
        table::row_views(final(db).bindings.rows()) == rows_written(
            table::row_views(old(db).bindings.rows()),
            scope.owner(),
            pairs@,
        ),
{
    let mut i: usize = 0;
    while i < pairs.len()
        invariant
            i <= pairs@.len(),
            db.wf(),
            db.same_but_bindings(*old(db)),
            db.bindings@ == written(
                old(db).bindings@,
                scope.owner(),
                pairs@.subrange(0, i as int),
            ),
            table::row_views(db.bindings.rows()) == rows_written(
                table::row_views(old(db).bindings.rows()),
                scope.owner(),
                pairs@.subrange(0, i as int),
            ),
        decreases pairs@.len() - i,
    {
        assert(pairs@.subrange(0, i + 1).drop_last() =~= pairs@.subrange(0, i as int));
        put_binding(db, scope, pairs[i].key.as_str(), pairs[i].value.as_str());
        i = i + 1;
    }
    assert(pairs@.subrange(0, i as int) =~= pairs@);
}

fn import_toolbar(db: &mut Database, scope: Scope, ids: &Vec<String>) -> (r: bool)
    requires
        old(db).wf(),
    ensures
        final(db).wf(),
        final(db).same_but_toolbars(*old(db)),
        r == (ids@.len() > 0),
        !r ==> *final(db) == *old(db),
        r ==> exists|copy: Vec<String>|
            copy@ == ids@ && #[trigger] old(db).toolbars@.insert(scope.owner(), copy) == final(db).toolbars@,
{
    if ids.len() == 0 {
        return false;
    }
    let copy = clone_strings(ids);
    set_layout_ids(db, scope, copy);
    true
}

/// Whether a user has a custom action with that label and program.
fn owns_custom(db: &Database, user_id: i64, label: &str, exe: &str) -> (r: bool)
    ensures
        r == has_custom(db.custom_actions@, user_id, label@, exe@),
{
    let mut i: usize = 0;
    while i < db.custom_actions.len()
        invariant
            i <= db.custom_actions@.len(),
            forall|j: int|
                0 <= j < i ==> !((#[trigger] db.custom_actions@[j]).owner == Some(user_id)
                    && db.custom_actions@[j].label@ == label@ && db.custom_actions@[j].exe_path@
                    == exe@),
        decreases db.custom_actions@.len() - i,
    {
        let row = &db.custom_actions[i];
        if row.owner == Some(user_id) && str_eq(row.label.as_str(), label) && str_eq(
            row.exe_path.as_str(),
            exe,
        ) {
            return true;
        }
        i = i + 1;
    }
    false
}

proof fn lemma_custom_added(
    before: Seq<CustomRow>,
    after: Seq<CustomRow>,
    id: i64,
    user_id: i64,
    label: Seq<char>,
    exe: Seq<char>,
)
    requires
        actions::custom_added(before, after, id, label, exe, Some(user_id)),
    ensures
        custom_set(after, user_id) == custom_set(before, user_id).insert((label, exe)),
        forall|u: i64|
            u != user_id ==> #[trigger] custom_set(after, u) == custom_set(before, u),
{
    let n = before.len() as int;
    assert(after[n].owner == Some(user_id));
    assert forall|u: i64, e: (Seq<char>, Seq<char>)|
        #![auto]
        has_custom(after, u, e.0, e.1) == (has_custom(before, u, e.0, e.1) || (u == user_id && e
            == (label, exe))) by {
        if has_custom(after, u, e.0, e.1) {
            let i = choose|i: int|
                0 <= i < after.len() && (#[trigger] after[i]).owner == Some(u) && after[i].label@
                    == e.0 && after[i].exe_path@ == e.1;
            if i < n {
                assert(after.drop_last()[i] == after[i]);
                assert(before[i] == after[i]);
            }
        }
        if has_custom(before, u, e.0, e.1) {
            let i = choose|i: int|
                0 <= i < before.len() && (#[trigger] before[i]).owner == Some(u)
                    && before[i].label@ == e.0 && before[i].exe_path@ == e.1;
            assert(after.drop_last()[i] == after[i]);
            assert(before[i] == after[i]);
        }
    }
    assert(custom_set(after, user_id) =~= custom_set(before, user_id).insert((label, exe)));
    assert forall|u: i64| u != user_id implies #[trigger] custom_set(after, u) == custom_set(
        before,
        u,
    ) by {
        assert(custom_set(after, u) =~= custom_set(before, u));
    }
}

/// Appends the custom actions that the user does not have yet. Room for all
/// of them is left among the ids.
fn import_customs(db: &mut Database, user_id: i64, entries: &Vec<CustomActionEntry>) -> (r: usize)
    requires
        old(db).wf(),
        old(db).last_custom_id + entries@.len() <= i64::MAX,
    ensures
        final(db).wf(),
        final(db).same_but_customs(*old(db)),
        ({
            let added = new_entries(
                custom_set(old(db).custom_actions@, user_id),
                entry_views(entries@),
            );
            &&& r == added.len()
            &&& customs_appended(
                old(db).custom_actions@,
                final(db).custom_actions@,
                old(db).last_custom_id,
                user_id,
                added,
            )
        }),
        custom_set(final(db).custom_actions@, user_id) == custom_set(
            old(db).custom_actions@,
            user_id,
        ).union(entry_views(entries@).to_set()),
        forall|u: i64|
            u != user_id ==> #[trigger] custom_set(final(db).custom_actions@, u) == custom_set(
                old(db).custom_actions@,
                u,
            ),
        final(db).last_custom_id == old(db).last_custom_id + r,
{
    let ghost have = custom_set(db.custom_actions@, user_id);
    let ghost all = entry_views(entries@);
    let ghost start = db.custom_actions@;
    let mut count: usize = 0;
    let mut i: usize = 0;
    assert(have.union(all.subrange(0, 0).to_set()) =~= have);
    assert(start.subrange(0, start.len() as int) =~= start);
    while i < entries.len()
        invariant
            i <= entries@.len(),
            count <= i,
            db.wf(),
            db.same_but_customs(*old(db)),
            all == entry_views(entries@),
            start == old(db).custom_actions@,
            have == custom_set(start, user_id),
            count == new_entries(have, all.subrange(0, i as int)).len(),
            customs_appended(
                start,
                db.custom_actions@,
                old(db).last_custom_id,
                user_id,
                new_entries(have, all.subrange(0, i as int)),
            ),
            custom_set(db.custom_actions@, user_id) == have.union(
                all.subrange(0, i as int).to_set(),
            ),
            forall|u: i64|
                u != user_id ==> #[trigger] custom_set(db.custom_actions@, u) == custom_set(
                    start,
                    u,
                ),
            db.last_custom_id == old(db).last_custom_id + count,
            old(db).last_custom_id + entries@.len() <= i64::MAX,
        decreases entries@.len() - i,
    {
        let e = &entries[i];
        let ghost front = all.subrange(0, i as int);
        let ghost here = (e.label@, e.exe_path@);
        let ghost rows = db.custom_actions@;
        proof {
            assert(all.subrange(0, i + 1).drop_last() =~= front);
            assert(all.subrange(0, i + 1).last() == here);
            assert(front.to_set().contains(here) == front.contains(here));
            lemma_push_to_set(front, here);
            assert(front.push(here) =~= all.subrange(0, i + 1));
        }
        let known = owns_custom(db, user_id, e.label.as_str(), e.exe_path.as_str());
        proof {
            assert(known == custom_set(rows, user_id).contains(here));
            assert(known == (have.contains(here) || front.contains(here)));
        }
        if !known {
            match add_custom_action(db, user_id, e.label.as_str(), e.exe_path.as_str()) {
                Ok(id) => {
                    proof {
                        lemma_custom_added(
                            rows,
                            db.custom_actions@,
                            id,
                            user_id,
                            e.label@,
                            e.exe_path@,
                        );
                        assert(db.custom_actions@.drop_last() =~= rows);
                        assert forall|j: int| 0 <= j < rows.len() implies db.custom_actions@[j]
                            == rows[j] by {
                            assert(db.custom_actions@.drop_last()[j] == rows[j]);
                        }
                        assert(db.custom_actions@.subrange(0, start.len() as int)
                            =~= rows.subrange(0, start.len() as int));
                        let added = new_entries(have, all.subrange(0, i + 1));
                        assert(added == new_entries(have, front).push(here));
                        assert forall|k: int| start.len() <= k < db.custom_actions@.len() implies {
                            let row = #[trigger] db.custom_actions@[k];
                            &&& row.id == old(db).last_custom_id + 1 + (k - start.len())
                            &&& row.owner == Some(user_id)
                            &&& (row.label@, row.exe_path@) == added[k - start.len()]
                        } by {
                            if k < rows.len() {
                                assert(rows[k] == db.custom_actions@[k]);
                            }
                        }
                    }
                    count = count + 1;
                },
                Err(_) => {},
            }
        }
        proof {
            assert(custom_set(db.custom_actions@, user_id) =~= have.union(
                all.subrange(0, i + 1).to_set(),
            ));
        }
        i = i + 1;
    }
    assert(all.subrange(0, i as int) =~= all);
    count
}

proof fn lemma_push_to_set(s: Seq<(Seq<char>, Seq<char>)>, x: (Seq<char>, Seq<char>))
    ensures
        s.push(x).to_set() == s.to_set().insert(x),
{
    let p = s.push(x);
    assert forall|y: (Seq<char>, Seq<char>)|
        #![auto]
        p.to_set().contains(y) == s.to_set().insert(x).contains(y) by {
        if p.to_set().contains(y) {
            let k = choose|k: int| 0 <= k < p.len() && p[k] == y;
            if k < s.len() {
                assert(s[k] == y);
            }
        }
        if s.to_set().contains(y) {
            let k = choose|k: int| 0 <= k < s.len() && s[k] == y;
            assert(p[k] == y);
        }
        assert(p[s.len() as int] == x);
    }
    assert(p.to_set() =~= s.to_set().insert(x));
}

/// The button ids of a scope after an import: those of the payload, or the
/// old ones where the payload has none.
pub open spec fn imported_ids(
    m: Map<Option<i64>, Vec<String>>,
    owner: Option<i64>,
    ids: Seq<String>,
) -> Seq<Seq<char>> {
    if ids.len() > 0 {
        text::texts(ids)
    } else {
        actions::layout_ids(m, owner)
    }
}

/// What the settings of a file do to the database of a user, and what is
/// counted of them.
pub open spec fn imported(
    after: Database,
    before: Database,
    user_id: i64,
    file: SettingsFile,
    r: ImportSummary,
) -> bool {
    &&& after.settings@ == filled_in(
            written(before.settings@, Some(user_id), file.user_config@),
            user_id,
            file.global_config@,
        )
    &&& after.bindings@ == written(
            written(before.bindings@, Some(user_id), file.bindings_user@),
            None,
            file.bindings_global@,
        )
    &&& table::row_views(after.bindings.rows()) == rows_written(
            rows_written(
                table::row_views(before.bindings.rows()),
                Some(user_id),
                file.bindings_user@,
            ),
            None,
            file.bindings_global@,
        )
    &&& actions::layout_ids(after.toolbars@, Some(user_id)) == imported_ids(
            before.toolbars@,
            Some(user_id),
            file.toolbar_user@,
        )
    &&& actions::layout_ids(after.toolbars@, None) == imported_ids(
            before.toolbars@,
            None,
            file.toolbar_global@,
        )
    &&& forall|o: Option<i64>|
            o != None::<i64> && o != Some(user_id) ==> #[trigger] actions::layout_ids(
                after.toolbars@,
                o,
            ) == actions::layout_ids(before.toolbars@, o)
    &&& custom_set(after.custom_actions@, user_id) == custom_set(
            before.custom_actions@,
            user_id,
        ).union(entry_views(file.custom_actions@).to_set())
    &&& customs_appended(
            before.custom_actions@,
            after.custom_actions@,
            before.last_custom_id,
            user_id,
            new_entries(
                custom_set(before.custom_actions@, user_id),
                entry_views(file.custom_actions@),
            ),
        )
    &&& after.last_custom_id == before.last_custom_id + r.custom_actions
    &&& forall|u: i64|
            u != user_id ==> #[trigger] custom_set(after.custom_actions@, u) == custom_set(
                before.custom_actions@,
                u,
            )
    &&& after.users == before.users
    &&& after.last_user_id == before.last_user_id
    &&& after.ext_overrides == before.ext_overrides
    &&& after.favourites == before.favourites
    &&& after.recent == before.recent
    &&& after.sessions == before.sessions
    &&& r.config_values == file.user_config@.len()
    &&& r.bindings == file.bindings_user@.len() + file.bindings_global@.len()
    &&& r.toolbars == (if file.toolbar_user@.len() > 0 {
            1int
        } else {
            0
        }) + (if file.toolbar_global@.len() > 0 {
            1int
        } else {
            0
        })
    &&& r.custom_actions == new_entries(
            custom_set(before.custom_actions@, user_id),
            entry_views(file.custom_actions@),
        ).len()
}

/// Applies a settings file to `user_id`. Config values and bindings are
/// upserted; a non-empty toolbar layout replaces the target scope's layout;
/// custom actions are appended unless an identical label+exe pair exists.
/// Shared settings are only added where the user has no value.
pub fn import_into(db: &mut Database, user_id: i64, file: &SettingsFile) -> (r: ImportSummary)
    requires
        old(db).wf(),
        file.bindings_user@.len() + file.bindings_global@.len() <= usize::MAX,
        old(db).last_custom_id + file.custom_actions@.len() <= i64::MAX,
    ensures
        final(db).wf(),
        imported(*final(db), *old(db), user_id, *file, r),
{
    import_settings(db, user_id, &file.user_config);
    fill_in_settings(db, user_id, &file.global_config);
    import_bindings(db, Scope::User(user_id), &file.bindings_user);
    import_bindings(db, Scope::Global, &file.bindings_global);
    let own = import_toolbar(db, Scope::User(user_id), &file.toolbar_user);
    let shared = import_toolbar(db, Scope::Global, &file.toolbar_global);
    let customs: usize = import_customs(db, user_id, &file.custom_actions);
    let mut toolbars: usize = 0;
    if own {
        toolbars = toolbars + 1;
    }
    if shared {
        toolbars = toolbars + 1;
    }
    ImportSummary {
        config_values: file.user_config.len(),
        bindings: file.bindings_user.len() + file.bindings_global.len(),
        toolbars,
        custom_actions: customs,
    }
}

// ---------------------------------------------------------------------------
// Laws
// ---------------------------------------------------------------------------

/// Importing the same custom actions again adds none.
pub proof fn law_importing_twice_adds_no_custom_actions(
    have: Set<(Seq<char>, Seq<char>)>,
    entries: Seq<(Seq<char>, Seq<char>)>,
    part: Seq<(Seq<char>, Seq<char>)>,
)
    requires
        forall|i: int| 0 <= i < part.len() ==> entries.contains(#[trigger] part[i]),
    ensures
        new_entries(have.union(entries.to_set()), part).len() == 0,
    decreases part.len(),
{
    if part.len() > 0 {
        let front = part.drop_last();
        assert forall|i: int| 0 <= i < front.len() implies entries.contains(#[trigger] front[i]) by {
            assert(front[i] == part[i]);
        }
        law_importing_twice_adds_no_custom_actions(have, entries, front);
        assert(entries.contains(part[part.len() - 1]));
        assert(entries.to_set().contains(part.last()));
    }
}

/// A setting that an import brings is what the user then gets, whatever they
/// or everybody had before. The last value wins where a key comes twice.
pub proof fn law_imported_setting_is_in_force(
    m: Map<(Option<i64>, Seq<char>), Seq<char>>,
    user_id: i64,
    own: Seq<Pair>,
    shared: Seq<Pair>,
    i: int,
)
    requires
        0 <= i < own.len(),
        forall|j: int| i < j < own.len() ==> (#[trigger] own[j]).key@ != own[i].key@,
    ensures
        config::effective(
            filled_in(written(m, Some(user_id), own), user_id, shared),
            user_id,
            own[i].key@,
        ) == Some(own[i].value@),
{
    lemma_written(m, Some(user_id), own, i);
    lemma_filled_in_keeps(written(m, Some(user_id), own), user_id, shared, own[i].key@);
}

proof fn lemma_written(
    m: Map<(Option<i64>, Seq<char>), Seq<char>>,
    owner: Option<i64>,
    pairs: Seq<Pair>,
    i: int,
)
    requires
        0 <= i < pairs.len(),
        forall|j: int| i < j < pairs.len() ==> (#[trigger] pairs[j]).key@ != pairs[i].key@,
    ensures
        written(m, owner, pairs).contains_key((owner, pairs[i].key@)),
        written(m, owner, pairs)[(owner, pairs[i].key@)] == pairs[i].value@,
    decreases pairs.len(),
{
    let front = pairs.drop_last();
    if i < front.len() {
        assert(front[i] == pairs[i]);
        assert forall|j: int| i < j < front.len() implies (#[trigger] front[j]).key@
            != front[i].key@ by {
            assert(front[j] == pairs[j]);
        }
        lemma_written(m, owner, front, i);
        assert(pairs[pairs.len() - 1].key@ != pairs[i].key@);
    }
}

proof fn lemma_filled_in_keeps(
    m: Map<(Option<i64>, Seq<char>), Seq<char>>,
    user_id: i64,
    pairs: Seq<Pair>,
    key: Seq<char>,
)
    ensures
        config::effective(m, user_id, key) is Some ==> config::effective(
            filled_in(m, user_id, pairs),
            user_id,
            key,
        ) == config::effective(m, user_id, key),
    decreases pairs.len(),
{
    if pairs.len() > 0 {
        lemma_filled_in_keeps(m, user_id, pairs.drop_last(), key);
    }
}

/// The shared settings of a payload change no value that the user has.
pub proof fn law_shared_settings_overwrite_nothing(
    m: Map<(Option<i64>, Seq<char>), Seq<char>>,
    user_id: i64,
    pairs: Seq<Pair>,
    key: Seq<char>,
)
    requires
        config::effective(m, user_id, key) is Some,
    ensures
        config::effective(filled_in(m, user_id, pairs), user_id, key) == config::effective(
            m,
            user_id,
            key,
        ),
{
    lemma_filled_in_keeps(m, user_id, pairs, key);
}

/// The settings of other users stay as they are where their values are their
/// own.
pub proof fn law_import_leaves_others_alone(
    m: Map<(Option<i64>, Seq<char>), Seq<char>>,
    user_id: i64,
    other: i64,
    own: Seq<Pair>,
    shared: Seq<Pair>,
    key: Seq<char>,
)
    requires
        other != user_id,
        m.contains_key((Some(other), key)),
    ensures
        ({
            let after = filled_in(written(m, Some(user_id), own), user_id, shared);
            after.contains_key((Some(other), key)) && after[(Some(other), key)] == m[(
                Some(other),
                key,
            )]
        }),
{
    lemma_written_others(m, Some(user_id), own, (Some(other), key));
    lemma_filled_in_others(written(m, Some(user_id), own), user_id, shared, (Some(other), key));
}

proof fn lemma_written_others(
    m: Map<(Option<i64>, Seq<char>), Seq<char>>,
    owner: Option<i64>,
    pairs: Seq<Pair>,
    k: (Option<i64>, Seq<char>),
)
    requires
        k.0 != owner,
        m.contains_key(k),
    ensures
        written(m, owner, pairs).contains_key(k),
        written(m, owner, pairs)[k] == m[k],
    decreases pairs.len(),
{
    if pairs.len() > 0 {
        lemma_written_others(m, owner, pairs.drop_last(), k);
    }
}

proof fn lemma_filled_in_others(
    m: Map<(Option<i64>, Seq<char>), Seq<char>>,
    user_id: i64,
    pairs: Seq<Pair>,
    k: (Option<i64>, Seq<char>),
)
    requires
        k.0 is Some,
        m.contains_key(k),
    ensures
        filled_in(m, user_id, pairs).contains_key(k),
        filled_in(m, user_id, pairs)[k] == m[k],
    decreases pairs.len(),
{
    if pairs.len() > 0 {
        lemma_filled_in_others(m, user_id, pairs.drop_last(), k);
    }
}

proof fn lemma_written_value(
    m: Map<(Option<i64>, Seq<char>), Seq<char>>,
    owner: Option<i64>,
    pairs: Seq<Pair>,
    key: Seq<char>,
    value: Seq<char>,
)
    requires
        exists|i: int| 0 <= i < pairs.len() && (#[trigger] pairs[i]).key@ == key,
        forall|i: int|
            0 <= i < pairs.len() && (#[trigger] pairs[i]).key@ == key ==> pairs[i].value@ == value,
    ensures
        written(m, owner, pairs).contains_key((owner, key)),
        written(m, owner, pairs)[(owner, key)] == value,
    decreases pairs.len(),
{
    let front = pairs.drop_last();
    if pairs.last().key@ == key {
        assert(pairs[pairs.len() - 1].key@ == key);
    } else {
        let i = choose|i: int| 0 <= i < pairs.len() && (#[trigger] pairs[i]).key@ == key;
        assert(front[i] == pairs[i]);
        assert forall|j: int| 0 <= j < front.len() && (#[trigger] front[j]).key@ == key implies front[
            j
        ].value@ == value by {
            assert(front[j] == pairs[j]);
        }
        lemma_written_value(m, owner, front, key, value);
    }
}

/// What one user exports another user gets: every value that the exporting
/// user has set for themselves is in force for the importing user.
pub proof fn law_settings_round_trip(
    source: table::TextTable,
    target: Map<(Option<i64>, Seq<char>), Seq<char>>,
    exporter: i64,
    importer: i64,
    own: Seq<Pair>,
    shared: Seq<Pair>,
    key: Seq<char>,
)
    requires
        source.wf(),
        exports(own, source, Some(exporter)),
        source@.contains_key((Some(exporter), key)),
    ensures
        config::effective(
            filled_in(written(target, Some(importer), own), importer, shared),
            importer,
            key,
        ) == Some(source@[(Some(exporter), key)]),
{
    broadcast use vstd::seq_lib::group_to_multiset_ensures;

    let rows = source.rows();
    let mine = table::owned(rows, Some(exporter));
    let shown = sort::sorted(mine, table::key_order());
    let value = source@[(Some(exporter), key)];
    source.lemma_rows();
    table::lemma_owned(rows, Some(exporter));
    table::law_owned_rows(rows, Some(exporter), key);
    sort::law_sort_permutes(mine, table::key_order());
    let i = choose|i: int| 0 <= i < mine.len() && (#[trigger] mine[i]).key@ == key;
    assert(mine.contains(mine[i]));
    assert(mine.to_multiset().contains(mine[i]));
    assert(shown.contains(mine[i]));
    let k = choose|k: int| 0 <= k < shown.len() && shown[k] == mine[i];
    assert(own[k].key@ == key);
    assert forall|j: int| 0 <= j < own.len() && (#[trigger] own[j]).key@ == key implies own[j].value@
        == value by {
        assert(shown.contains(shown[j]));
        assert(shown.to_multiset().contains(shown[j]));
        assert(mine.contains(shown[j]));
        let a = choose|a: int| 0 <= a < mine.len() && mine[a] == shown[j];
        assert(source@[(Some(exporter), mine[a].key@)] == mine[a].value@);
    }
    lemma_written_value(target, Some(importer), own, key, value);
    lemma_filled_in_keeps(written(target, Some(importer), own), importer, shared, key);
}

// ---------------------------------------------------------------------------
// Importing twice
// ---------------------------------------------------------------------------

/// Some of `pairs` has the key `key`.
spec fn named(pairs: Seq<Pair>, key: Seq<char>) -> bool {
    exists|i: int| 0 <= i < pairs.len() && (#[trigger] pairs[i]).key@ == key
}

/// The value of the last of `pairs` with the key `key`.
spec fn last_value(pairs: Seq<Pair>, key: Seq<char>) -> Seq<char>
    decreases pairs.len(),
{
    if pairs.len() == 0 {
        Seq::empty()
    } else if pairs.last().key@ == key {
        pairs.last().value@
    } else {
        last_value(pairs.drop_last(), key)
    }
}

proof fn lemma_named(pairs: Seq<Pair>, key: Seq<char>)
    requires
        pairs.len() > 0,
    ensures
        named(pairs, key) == (named(pairs.drop_last(), key) || pairs.last().key@ == key),
{
    let front = pairs.drop_last();
    if named(pairs, key) {
        let i = choose|i: int| 0 <= i < pairs.len() && (#[trigger] pairs[i]).key@ == key;
        if i < front.len() {
            assert(front[i].key@ == key);
        }
    }
    if named(front, key) {
        let i = choose|i: int| 0 <= i < front.len() && (#[trigger] front[i]).key@ == key;
        assert(pairs[i].key@ == key);
    }
    if pairs.last().key@ == key {
        assert(pairs[pairs.len() - 1].key@ == key);
    }
}

proof fn lemma_written_is(
    m: Map<(Option<i64>, Seq<char>), Seq<char>>,
    owner: Option<i64>,
    pairs: Seq<Pair>,
    k: (Option<i64>, Seq<char>),
)
    ensures
        written(m, owner, pairs).contains_key(k) == (m.contains_key(k) || (k.0 == owner && named(
            pairs,
            k.1,
        ))),
        k.0 == owner && named(pairs, k.1) ==> written(m, owner, pairs)[k] == last_value(
            pairs,
            k.1,
        ),
        !(k.0 == owner && named(pairs, k.1)) && m.contains_key(k) ==> written(m, owner, pairs)[k]
            == m[k],
    decreases pairs.len(),
{
    if pairs.len() > 0 {
        lemma_named(pairs, k.1);
        lemma_written_is(m, owner, pairs.drop_last(), k);
    }
}

proof fn lemma_all_in_force(
    m: Map<(Option<i64>, Seq<char>), Seq<char>>,
    user_id: i64,
    pairs: Seq<Pair>,
    i: int,
)
    requires
        0 <= i < pairs.len(),
    ensures
        config::effective(filled_in(m, user_id, pairs), user_id, pairs[i].key@) is Some,
    decreases pairs.len(),
{
    if i < pairs.len() - 1 {
        let front = pairs.drop_last();
        assert(front[i] == pairs[i]);
        lemma_all_in_force(m, user_id, front, i);
    }
}

proof fn lemma_nothing_to_fill_in(
    m: Map<(Option<i64>, Seq<char>), Seq<char>>,
    user_id: i64,
    pairs: Seq<Pair>,
)
    requires
        forall|i: int|
            0 <= i < pairs.len() ==> config::effective(
                m,
                user_id,
                (#[trigger] pairs[i]).key@,
            ) is Some,
    ensures
        filled_in(m, user_id, pairs) == m,
    decreases pairs.len(),
{
    if pairs.len() > 0 {
        let front = pairs.drop_last();
        assert forall|i: int| 0 <= i < front.len() implies config::effective(
            m,
            user_id,
            (#[trigger] front[i]).key@,
        ) is Some by {
            assert(front[i] == pairs[i]);
        }
        lemma_nothing_to_fill_in(m, user_id, front);
        assert(config::effective(m, user_id, pairs[pairs.len() - 1].key@) is Some);
    }
}

proof fn lemma_settings_settle(
    m: Map<(Option<i64>, Seq<char>), Seq<char>>,
    user_id: i64,
    own: Seq<Pair>,
    shared: Seq<Pair>,
)
    ensures
        ({
            let once = filled_in(written(m, Some(user_id), own), user_id, shared);
            filled_in(written(once, Some(user_id), own), user_id, shared) == once
        }),
{
    let first = written(m, Some(user_id), own);
    let once = filled_in(first, user_id, shared);
    let again = written(once, Some(user_id), own);
    assert forall|k: (Option<i64>, Seq<char>)|
        #![trigger again.contains_key(k)]
        #![trigger again[k]]
        again.contains_key(k) == once.contains_key(k) && (once.contains_key(k) ==> again[k]
            == once[k]) by {
        lemma_written_is(m, Some(user_id), own, k);
        lemma_written_is(once, Some(user_id), own, k);
        if k.0 == Some(user_id) && named(own, k.1) {
            lemma_filled_in_others(first, user_id, shared, k);
        }
    }
    assert(again =~= once);
    assert forall|i: int| 0 <= i < shared.len() implies config::effective(
        once,
        user_id,
        (#[trigger] shared[i]).key@,
    ) is Some by {
        lemma_all_in_force(first, user_id, shared, i);
    }
    lemma_nothing_to_fill_in(once, user_id, shared);
}

/// `s` has a row for each of `pairs`, with the value of the last one of its key.
spec fn settled(
    s: Seq<((Option<i64>, Seq<char>), Seq<char>)>,
    owner: Option<i64>,
    pairs: Seq<Pair>,
) -> bool {
    &&& forall|i: int|
        0 <= i < pairs.len() ==> table::has_row(s, (owner, (#[trigger] pairs[i]).key@))
    &&& forall|j: int|
        0 <= j < s.len() && (#[trigger] s[j]).0.0 == owner && named(pairs, s[j].0.1) ==> s[j].1
            == last_value(pairs, s[j].0.1)
}

proof fn lemma_put_keeps_rows(
    s: Seq<((Option<i64>, Seq<char>), Seq<char>)>,
    k: (Option<i64>, Seq<char>),
    v: Seq<char>,
    other: (Option<i64>, Seq<char>),
)
    ensures
        table::has_row(s, other) ==> table::has_row(table::put_row(s, k, v), other),
        table::has_row(table::put_row(s, k, v), k),
{
    let t = table::put_row(s, k, v);
    if table::has_row(s, k) {
        let i = choose|i: int| 0 <= i < s.len() && (#[trigger] s[i]).0 == k;
        assert(t[i].0 == k);
    } else {
        assert(t[s.len() as int].0 == k);
    }
    if table::has_row(s, other) {
        let i = choose|i: int| 0 <= i < s.len() && (#[trigger] s[i]).0 == other;
        assert(t[i].0 == other);
    }
}

proof fn lemma_rows_settle(
    s: Seq<((Option<i64>, Seq<char>), Seq<char>)>,
    owner: Option<i64>,
    pairs: Seq<Pair>,
)
    ensures
        settled(rows_written(s, owner, pairs), owner, pairs),
    decreases pairs.len(),
{
    if pairs.len() > 0 {
        let front = pairs.drop_last();
        let k = (owner, pairs.last().key@);
        let v = pairs.last().value@;
        let before = rows_written(s, owner, front);
        let after = rows_written(s, owner, pairs);
        lemma_rows_settle(s, owner, front);
        assert forall|i: int| 0 <= i < pairs.len() implies table::has_row(
            after,
            (owner, (#[trigger] pairs[i]).key@),
        ) by {
            lemma_put_keeps_rows(before, k, v, (owner, pairs[i].key@));
            if i < front.len() {
                assert(front[i] == pairs[i]);
            }
        }
        assert forall|j: int|
            0 <= j < after.len() && (#[trigger] after[j]).0.0 == owner && named(
                pairs,
                after[j].0.1,
            ) implies after[j].1 == last_value(pairs, after[j].0.1) by {
            lemma_named(pairs, after[j].0.1);
            if after[j].0 != k {
                assert(after[j] == before[j]);
            }
        }
    }
}

proof fn lemma_others_stay_settled(
    s: Seq<((Option<i64>, Seq<char>), Seq<char>)>,
    owner: Option<i64>,
    pairs: Seq<Pair>,
    other: Option<i64>,
    more: Seq<Pair>,
)
    requires
        settled(s, owner, pairs),
        other != owner,
    ensures
        settled(rows_written(s, other, more), owner, pairs),
    decreases more.len(),
{
    if more.len() > 0 {
        lemma_others_stay_settled(s, owner, pairs, other, more.drop_last());
        let before = rows_written(s, other, more.drop_last());
        let after = rows_written(s, other, more);
        let k = (other, more.last().key@);
        let v = more.last().value@;
        assert forall|i: int| 0 <= i < pairs.len() implies table::has_row(
            after,
            (owner, (#[trigger] pairs[i]).key@),
        ) by {
            lemma_put_keeps_rows(before, k, v, (owner, pairs[i].key@));
        }
        assert forall|j: int|
            0 <= j < after.len() && (#[trigger] after[j]).0.0 == owner && named(
                pairs,
                after[j].0.1,
            ) implies after[j].1 == last_value(pairs, after[j].0.1) by {
            assert(after[j] == before[j]);
        }
    }
}

proof fn lemma_present_rows_written(
    s: Seq<((Option<i64>, Seq<char>), Seq<char>)>,
    owner: Option<i64>,
    pairs: Seq<Pair>,
)
    requires
        forall|i: int|
            0 <= i < pairs.len() ==> table::has_row(s, (owner, (#[trigger] pairs[i]).key@)),
    ensures
        rows_written(s, owner, pairs).len() == s.len(),
        forall|j: int|
            0 <= j < s.len() ==> #[trigger] rows_written(s, owner, pairs)[j] == (if s[j].0.0
                == owner && named(pairs, s[j].0.1) {
                (s[j].0, last_value(pairs, s[j].0.1))
            } else {
                s[j]
            }),
    decreases pairs.len(),
{
    if pairs.len() > 0 {
        let front = pairs.drop_last();
        let k = (owner, pairs.last().key@);
        assert forall|i: int| 0 <= i < front.len() implies table::has_row(
            s,
            (owner, (#[trigger] front[i]).key@),
        ) by {
            assert(front[i] == pairs[i]);
        }
        lemma_present_rows_written(s, owner, front);
        let before = rows_written(s, owner, front);
        let after = rows_written(s, owner, pairs);
        assert(table::has_row(s, (owner, pairs[pairs.len() - 1].key@)));
        let i = choose|i: int| 0 <= i < s.len() && (#[trigger] s[i]).0 == k;
        assert(before[i].0 == k);
        assert(table::has_row(before, k));
        assert forall|j: int| 0 <= j < s.len() implies #[trigger] after[j] == (if s[j].0.0 == owner
            && named(pairs, s[j].0.1) {
            (s[j].0, last_value(pairs, s[j].0.1))
        } else {
            s[j]
        }) by {
            lemma_named(pairs, s[j].0.1);
            assert(before[j].0 == s[j].0);
        }
    }
}

proof fn lemma_settled_rows_stay(
    s: Seq<((Option<i64>, Seq<char>), Seq<char>)>,
    owner: Option<i64>,
    pairs: Seq<Pair>,
)
    requires
        settled(s, owner, pairs),
    ensures
        rows_written(s, owner, pairs) == s,
{
    lemma_present_rows_written(s, owner, pairs);
    assert(rows_written(s, owner, pairs) =~= s);
}

/// Importing a file a second time changes nothing: every setting, the shortcuts
/// and the toolbar of every user and all custom actions are as the first import
/// left them, and no custom action is counted.
pub proof fn law_importing_twice_changes_nothing(
    start: Database,
    once: Database,
    twice: Database,
    user_id: i64,
    file: SettingsFile,
    first: ImportSummary,
    second: ImportSummary,
)
    requires
        once.wf(),
        twice.wf(),
        imported(once, start, user_id, file, first),
        imported(twice, once, user_id, file, second),
    ensures
        second.custom_actions == 0,
        twice.custom_actions@ == once.custom_actions@,
        twice.last_custom_id == once.last_custom_id,
        twice.settings@ == once.settings@,
        twice.bindings@ == once.bindings@,
        forall|u: i64| #[trigger]
            actions::effective_shortcuts(twice.bindings.rows(), u) == actions::effective_shortcuts(
                once.bindings.rows(),
                u,
            ),
        forall|o: Option<i64>| #[trigger]
            actions::layout_ids(twice.toolbars@, o) == actions::layout_ids(once.toolbars@, o),
        forall|u: i64| #[trigger]
            actions::effective_toolbar(twice.toolbars@, u) == actions::effective_toolbar(
                once.toolbars@,
                u,
            ),
{
    let u = Some(user_id);
    lemma_settings_settle(start.settings@, user_id, file.user_config@, file.global_config@);
    let s = table::row_views(start.bindings.rows());
    let own = rows_written(s, u, file.bindings_user@);
    let all = rows_written(own, None, file.bindings_global@);
    lemma_rows_settle(s, u, file.bindings_user@);
    lemma_others_stay_settled(own, u, file.bindings_user@, None, file.bindings_global@);
    lemma_rows_settle(own, None, file.bindings_global@);
    lemma_settled_rows_stay(all, u, file.bindings_user@);
    lemma_settled_rows_stay(all, None, file.bindings_global@);
    let a = twice.bindings.rows();
    let b = once.bindings.rows();
    assert(table::row_views(a) == table::row_views(b));
    table::lemma_views_decide(a, b, None);
    twice.bindings.lemma_rows();
    once.bindings.lemma_rows();
    assert forall|v: i64| #[trigger]
        actions::effective_shortcuts(a, v) == actions::effective_shortcuts(b, v) by {
        actions::lemma_shortcuts_by_views(a, b, v);
    }
    assert forall|o: Option<i64>| #[trigger]
        actions::layout_ids(twice.toolbars@, o) == actions::layout_ids(once.toolbars@, o) by {}
    assert forall|v: i64| #[trigger]
        actions::effective_toolbar(twice.toolbars@, v) == actions::effective_toolbar(
            once.toolbars@,
            v,
        ) by {
        assert(actions::layout_ids(twice.toolbars@, Some(v)) == actions::layout_ids(
            once.toolbars@,
            Some(v),
        ));
        assert(actions::layout_ids(twice.toolbars@, None) == actions::layout_ids(
            once.toolbars@,
            None,
        ));
    }
    let entries = entry_views(file.custom_actions@);
    assert forall|i: int| 0 <= i < entries.len() implies entries.contains(
        #[trigger] entries[i],
    ) by {}
    law_importing_twice_adds_no_custom_actions(
        custom_set(start.custom_actions@, user_id),
        entries,
        entries,
    );
    assert(twice.custom_actions@.subrange(0, once.custom_actions@.len() as int)
        =~= twice.custom_actions@);
}

proof fn lemma_filled_in_first(
    m: Map<(Option<i64>, Seq<char>), Seq<char>>,
    user_id: i64,
    pairs: Seq<Pair>,
    i: int,
)
    requires
        0 <= i < pairs.len(),
        config::effective(m, user_id, pairs[i].key@) is None,
        forall|j: int| 0 <= j < i ==> (#[trigger] pairs[j]).key@ != pairs[i].key@,
    ensures
        config::effective(filled_in(m, user_id, pairs), user_id, pairs[i].key@) == Some(
            pairs[i].value@,
        ),
    decreases pairs.len(),
{
    let front = pairs.drop_last();
    let key = pairs[i].key@;
    if i < front.len() {
        assert forall|j: int| 0 <= j < i implies (#[trigger] front[j]).key@ != front[i].key@ by {
            assert(front[j] == pairs[j]);
        }
        lemma_filled_in_first(m, user_id, front, i);
        assert(front[i] == pairs[i]);
        let before = filled_in(m, user_id, front);
        if pairs.last().key@ != key {
            assert((Some(user_id), key) != (None::<i64>, pairs.last().key@));
        }
    } else {
        lemma_not_filled_in(m, user_id, front, key);
        assert(pairs.last() == pairs[i]);
    }
}

proof fn lemma_not_filled_in(
    m: Map<(Option<i64>, Seq<char>), Seq<char>>,
    user_id: i64,
    pairs: Seq<Pair>,
    key: Seq<char>,
)
    requires
        config::effective(m, user_id, key) is None,
        forall|j: int| 0 <= j < pairs.len() ==> (#[trigger] pairs[j]).key@ != key,
    ensures
        config::effective(filled_in(m, user_id, pairs), user_id, key) is None,
    decreases pairs.len(),
{
    if pairs.len() > 0 {
        let front = pairs.drop_last();
        assert forall|j: int| 0 <= j < front.len() implies (#[trigger] front[j]).key@ != key by {
            assert(front[j] == pairs[j]);
        }
        lemma_not_filled_in(m, user_id, front, key);
        assert(pairs[pairs.len() - 1].key@ != key);
    }
}

proof fn lemma_untouched(
    m: Map<(Option<i64>, Seq<char>), Seq<char>>,
    owner: Option<i64>,
    pairs: Seq<Pair>,
    k: (Option<i64>, Seq<char>),
)
    requires
        k.0 != owner,
    ensures
        written(m, owner, pairs).contains_key(k) == m.contains_key(k),
        m.contains_key(k) ==> written(m, owner, pairs)[k] == m[k],
    decreases pairs.len(),
{
    if pairs.len() > 0 {
        lemma_untouched(m, owner, pairs.drop_last(), k);
    }
}

/// An import leaves nothing of the file out: each of the user's settings and
/// shortcuts is theirs afterwards, a shared setting that they had no value for
/// is in force, each custom action is among their own, and a toolbar that the
/// file has takes the place of theirs.
pub proof fn law_everything_is_imported(
    user_id: i64,
    file: &SettingsFile,
    i: int,
    b: int,
    g: int,
    c: int,
)
    ensures
        forall|db: &mut Database, r: ImportSummary|
            #[trigger] call_ensures(import_into, (db, user_id, file), r) ==> {
                let n = *final(db);
                &&& 0 <= i < file.user_config@.len() && (forall|j: int|
                    i < j < file.user_config@.len() ==> (#[trigger] file.user_config@[j]).key@
                        != file.user_config@[i].key@) ==> config::effective(
                    n.settings@,
                    user_id,
                    file.user_config@[i].key@,
                ) == Some(file.user_config@[i].value@)
                &&& 0 <= b < file.bindings_user@.len() && (forall|j: int|
                    b < j < file.bindings_user@.len() ==> (#[trigger] file.bindings_user@[j]).key@
                        != file.bindings_user@[b].key@) ==> n.bindings@.contains_key(
                    (Some(user_id), file.bindings_user@[b].key@),
                ) && n.bindings@[(Some(user_id), file.bindings_user@[b].key@)]
                    == file.bindings_user@[b].value@
                &&& 0 <= g < file.global_config@.len() && config::effective(
                    written(db.settings@, Some(user_id), file.user_config@),
                    user_id,
                    file.global_config@[g].key@,
                ) is None && (forall|j: int|
                    0 <= j < g ==> (#[trigger] file.global_config@[j]).key@
                        != file.global_config@[g].key@) ==> config::effective(
                    n.settings@,
                    user_id,
                    file.global_config@[g].key@,
                ) == Some(file.global_config@[g].value@)
                &&& 0 <= c < file.custom_actions@.len() ==> exists|k: int|
                    {
                        &&& 0 <= k < n.custom_actions@.len()
                        &&& (#[trigger] n.custom_actions@[k]).owner == Some(user_id)
                        &&& n.custom_actions@[k].label@ == file.custom_actions@[c].label@
                        &&& n.custom_actions@[k].exe_path@ == file.custom_actions@[c].exe_path@
                    }
                &&& file.toolbar_user@.len() > 0 ==> actions::layout_ids(
                    n.toolbars@,
                    Some(user_id),
                ) == text::texts(file.toolbar_user@)
                &&& file.toolbar_user@.len() == 0 ==> actions::layout_ids(
                    n.toolbars@,
                    Some(user_id),
                ) == actions::layout_ids(db.toolbars@, Some(user_id))
                &&& n.favourites == db.favourites && n.sessions == db.sessions && n.users
                    == db.users
            },
{
    assert forall|db: &mut Database, r: ImportSummary|
        #[trigger] call_ensures(import_into, (db, user_id, file), r) implies {
        let n = *final(db);
        &&& 0 <= i < file.user_config@.len() && (forall|j: int|
            i < j < file.user_config@.len() ==> (#[trigger] file.user_config@[j]).key@
                != file.user_config@[i].key@) ==> config::effective(
            n.settings@,
            user_id,
            file.user_config@[i].key@,
        ) == Some(file.user_config@[i].value@)
        &&& 0 <= b < file.bindings_user@.len() && (forall|j: int|
            b < j < file.bindings_user@.len() ==> (#[trigger] file.bindings_user@[j]).key@
                != file.bindings_user@[b].key@) ==> n.bindings@.contains_key(
            (Some(user_id), file.bindings_user@[b].key@),
        ) && n.bindings@[(Some(user_id), file.bindings_user@[b].key@)]
            == file.bindings_user@[b].value@
        &&& 0 <= g < file.global_config@.len() && config::effective(
            written(db.settings@, Some(user_id), file.user_config@),
            user_id,
            file.global_config@[g].key@,
        ) is None && (forall|j: int|
            0 <= j < g ==> (#[trigger] file.global_config@[j]).key@ != file.global_config@[g].key@)
            ==> config::effective(n.settings@, user_id, file.global_config@[g].key@) == Some(
            file.global_config@[g].value@,
        )
        &&& 0 <= c < file.custom_actions@.len() ==> exists|k: int|
            {
                &&& 0 <= k < n.custom_actions@.len()
                &&& (#[trigger] n.custom_actions@[k]).owner == Some(user_id)
                &&& n.custom_actions@[k].label@ == file.custom_actions@[c].label@
                &&& n.custom_actions@[k].exe_path@ == file.custom_actions@[c].exe_path@
            }
        &&& file.toolbar_user@.len() > 0 ==> actions::layout_ids(n.toolbars@, Some(user_id))
            == text::texts(file.toolbar_user@)
        &&& file.toolbar_user@.len() == 0 ==> actions::layout_ids(n.toolbars@, Some(user_id))
            == actions::layout_ids(db.toolbars@, Some(user_id))
        &&& n.favourites == db.favourites && n.sessions == db.sessions && n.users == db.users
    } by {
        let n = *final(db);
        let own = file.user_config@;
        let keys = file.bindings_user@;
        let shared = file.global_config@;
        let u = Some(user_id);
        if 0 <= i < own.len() && (forall|j: int|
            i < j < own.len() ==> (#[trigger] own[j]).key@ != own[i].key@) {
            law_imported_setting_is_in_force(db.settings@, user_id, own, shared, i);
        }
        if 0 <= b < keys.len() && (forall|j: int|
            b < j < keys.len() ==> (#[trigger] keys[j]).key@ != keys[b].key@) {
            lemma_written(db.bindings@, u, keys, b);
            lemma_untouched(
                written(db.bindings@, u, keys),
                None,
                file.bindings_global@,
                (u, keys[b].key@),
            );
        }
        if 0 <= g < shared.len() && config::effective(
            written(db.settings@, u, own),
            user_id,
            shared[g].key@,
        ) is None && (forall|j: int| 0 <= j < g ==> (#[trigger] shared[j]).key@ != shared[g].key@) {
            lemma_filled_in_first(written(db.settings@, u, own), user_id, shared, g);
        }
        if 0 <= c < file.custom_actions@.len() {
            let e = entry_views(file.custom_actions@);
            assert(e[c] == (
                file.custom_actions@[c].label@,
                file.custom_actions@[c].exe_path@,
            ));
            assert(e.to_set().contains(e[c]));
            assert(custom_set(n.custom_actions@, user_id).contains(e[c]));
            assert(has_custom(n.custom_actions@, user_id, e[c].0, e[c].1));
        }
    }
}

proof fn lemma_own_customs(
    rows: Seq<CustomRow>,
    user_id: i64,
    p: spec_fn(CustomRow) -> bool,
)
    requires
        forall|r: CustomRow| #[trigger] p(r) == (r.owner == Some(user_id)),
    ensures
        own_customs(rows, user_id) == rows.filter(p).map_values(
            |r: CustomRow| (r.label@, r.exe_path@),
        ),
    decreases rows.len(),
{
    reveal(Seq::filter);
    let f = |r: CustomRow| (r.label@, r.exe_path@);
    if rows.len() > 0 {
        let front = rows.drop_last();
        lemma_own_customs(front, user_id, p);
        if p(rows.last()) {
            assert(front.filter(p).push(rows.last()).map_values(f) =~= front.filter(p).map_values(
                f,
            ).push(f(rows.last())));
        }
    } else {
        assert(rows.filter(p).map_values(f) =~= Seq::empty());
    }
}

/// An export holds all custom actions of its user, in their order, and none of
/// anybody else's, and their toolbar as it is stored.
pub proof fn law_exports_hold_what_is_the_users(
    db: &Database,
    user_id: i64,
    source: Option<String>,
    now: String,
    r: SettingsFile,
)
    requires
        call_ensures(collect, (db, user_id, source, now), r),
    ensures
        entry_views(r.custom_actions@) == db.custom_actions@.filter(
            |c: CustomRow| c.owner == Some(user_id),
        ).map_values(|c: CustomRow| (c.label@, c.exe_path@)),
        text::texts(r.toolbar_user@) == actions::layout_ids(db.toolbars@, Some(user_id)),
        r.source_user == source && r.exported_at == now,
        r.version == 1,
{
    lemma_own_customs(db.custom_actions@, user_id, |c: CustomRow| c.owner == Some(user_id));
}

} // verus!
