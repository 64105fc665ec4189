//! The preferences of a user: how they are written down, what they default to,
//! and the texts that depend on them.

use crate::config::Scope;
use crate::db::Database;
use crate::text::{lines_trimmed, str_eq};
use crate::tips::KEY_TIPS_ENABLED;
use crate::{config, text};
use vstd::prelude::*;

verus! {

// ---------------------------------------------------------------------------
// Theme and tab layout
// ---------------------------------------------------------------------------

/// Which of the two palettes the program uses.
#[derive(Debug, Clone, Copy, PartialEq, Eq, Structural)]
pub enum ThemePref {
    Dark,
    Light,
    /// The one that the operating system uses.
    System,
}

impl ThemePref {
    /// How the preference is written down.
    pub open spec fn text(self) -> Seq<char> {
        match self {
            ThemePref::Dark => "dark"@,
            ThemePref::Light => "light"@,
            ThemePref::System => "system"@,
        }
    }

    /// The preference that a text stands for; any other text follows the
    /// operating system.
    pub open spec fn of_text(raw: Seq<char>) -> ThemePref {
        if raw == "dark"@ {
            ThemePref::Dark
        } else if raw == "light"@ {
            ThemePref::Light
        } else {
            ThemePref::System
        }
    }
}

/// Reads a theme preference.
pub fn parse_theme_pref(raw: &str) -> (r: ThemePref)
    ensures
        r == ThemePref::of_text(raw@),
{
    if str_eq(raw, "dark") {
        ThemePref::Dark
    } else if str_eq(raw, "light") {
        ThemePref::Light
    } else {
        ThemePref::System
    }
}

/// Writes a theme preference.
pub fn theme_pref_str(pref: ThemePref) -> (r: &'static str)
    ensures
        r@ == pref.text(),
{
    match pref {
        ThemePref::Dark => "dark",
        ThemePref::Light => "light",
        ThemePref::System => "system",
    }
}

/// A theme preference is read back as it was written.
pub proof fn law_theme_round_trips(pref: ThemePref)
    ensures
        ThemePref::of_text(pref.text()) == pref,
{
    reveal_strlit("dark");
    reveal_strlit("light");
    reveal_strlit("system");
    assert("light"@.len() == 5);
    assert("system"@.len() == 6);
    assert("dark"@.len() == 4);
}

/// How a pane's tab strip is laid out: tabs side by side in a row, or stacked
/// one per line.
#[derive(Debug, Clone, Copy, PartialEq, Eq, Structural)]
pub enum TabOrientation {
    Horizontal,
    Vertical,
}

impl Default for TabOrientation {
    fn default() -> (r: Self)
        ensures
            r == TabOrientation::Vertical,
    {
        TabOrientation::Vertical
    }
}

impl TabOrientation {
    /// How the layout is written down.
    pub open spec fn text(self) -> Seq<char> {
        match self {
            TabOrientation::Horizontal => "horizontal"@,
            TabOrientation::Vertical => "vertical"@,
        }
    }

    /// The layout that a text stands for; any other text is a row.
    pub open spec fn of_text(raw: Seq<char>) -> TabOrientation {
        if raw == "vertical"@ {
            TabOrientation::Vertical
        } else {
            TabOrientation::Horizontal
        }
    }

    /// Reads a layout.
    pub fn parse(raw: &str) -> (r: Self)
        ensures
            r == TabOrientation::of_text(raw@),
    {
        if str_eq(raw, "vertical") {
            TabOrientation::Vertical
        } else {
            TabOrientation::Horizontal
        }
    }

    /// Writes a layout.
    pub fn as_str(self) -> (r: &'static str)
        ensures
            r@ == self.text(),
    {
        match self {
            TabOrientation::Horizontal => "horizontal",
            TabOrientation::Vertical => "vertical",
        }
    }
}

/// A layout is read back as it was written.
pub proof fn law_orientation_round_trips(o: TabOrientation)
    ensures
        TabOrientation::of_text(o.text()) == o,
{
    reveal_strlit("horizontal");
    reveal_strlit("vertical");
    assert("horizontal"@.len() == 10);
    assert("vertical"@.len() == 8);
}

// ---------------------------------------------------------------------------
// Sorting
// ---------------------------------------------------------------------------

/// `raw` names a column that a listing can be sorted by.
pub open spec fn known_sort_col(raw: Seq<char>) -> bool {
    raw == "name"@ || raw == "modified"@ || raw == "size"@ || raw == "archive"@
}

/// Whitelists a stored universal-sort column so a hand-edited settings table
/// can't put new tabs into an unsortable state.
pub fn parse_sort_col(raw: &str) -> (r: Option<&'static str>)
    ensures
        match r {
            Some(c) => known_sort_col(raw@) && c@ == raw@,
            None => !known_sort_col(raw@),
        },
{
    if str_eq(raw, "name") {
        Some("name")
    } else if str_eq(raw, "modified") {
        Some("modified")
    } else if str_eq(raw, "size") {
        Some("size")
    } else if str_eq(raw, "archive") {
        Some("archive")
    } else {
        None
    }
}

/// What a sort column is called on screen.
pub open spec fn sort_col_title(col: Seq<char>) -> Seq<char> {
    if col == "modified"@ {
        "Modified"@
    } else if col == "size"@ {
        "Size"@
    } else if col == "archive"@ {
        "Attributes"@
    } else {
        "Name"@
    }
}

/// Human-readable label for a sort column id (matches the headers of the
/// details view).
pub fn sort_col_label(col: &str) -> (r: &'static str)
    ensures
        r@ == sort_col_title(col@),
{
    if str_eq(col, "modified") {
        "Modified"
    } else if str_eq(col, "size") {
        "Size"
    } else if str_eq(col, "archive") {
        "Attributes"
    } else {
        "Name"
    }
}

/// The sorting that a click on the header of `clicked` selects.
pub open spec fn sort_after_click(col: Seq<char>, asc: bool, clicked: Seq<char>) -> (
    Seq<char>,
    bool,
) {
    if col == clicked {
        (col, !asc)
    } else {
        (clicked, true)
    }
}

/// The sorting a column-header click selects: clicking the active column
/// reverses its direction; clicking another column sorts by it ascending.
pub fn next_sort(current_col: &str, current_asc: bool, clicked: &str) -> (r: (String, bool))
    ensures
        (r.0@, r.1) == sort_after_click(current_col@, current_asc, clicked@),
{
    if str_eq(current_col, clicked) {
        (current_col.to_owned(), !current_asc)
    } else {
        (clicked.to_owned(), true)
    }
}

/// Two clicks on a header that is not active sort by it descending, and a
/// third ascending again.
pub proof fn law_clicks_alternate(col: Seq<char>, asc: bool, clicked: Seq<char>)
    requires
        col != clicked,
    ensures
        ({
            let (c1, a1) = sort_after_click(col, asc, clicked);
            let (c2, a2) = sort_after_click(c1, a1, clicked);
            let (c3, a3) = sort_after_click(c2, a2, clicked);
            &&& (c1, a1) == (clicked, true)
            &&& (c2, a2) == (clicked, false)
            &&& (c3, a3) == (clicked, true)
        }),
{
}

// ---------------------------------------------------------------------------
// Fonts
// ---------------------------------------------------------------------------

/// The file of a font family in the fonts folder of Windows; nothing for the
/// family that the program carries itself and for families that are not known.
pub open spec fn font_file_of(family: Seq<char>) -> Option<Seq<char>> {
    if family == "Segoe UI"@ {
        Some("segoeui.ttf"@)
    } else if family == "Arial"@ {
        Some("arial.ttf"@)
    } else if family == "Times New Roman"@ {
        Some("times.ttf"@)
    } else if family == "Courier New"@ {
        Some("cour.ttf"@)
    } else {
        None
    }
}

/// The file of the bold face of a font family.
pub open spec fn bold_font_file_of(family: Seq<char>) -> Option<Seq<char>> {
    if family == "Segoe UI"@ {
        Some("segoeuib.ttf"@)
    } else if family == "Arial"@ {
        Some("arialbd.ttf"@)
    } else if family == "Times New Roman"@ {
        Some("timesbd.ttf"@)
    } else if family == "Courier New"@ {
        Some("courbd.ttf"@)
    } else {
        None
    }
}

/// Maps a font-family choice to its file under the Windows fonts folder.
pub fn system_font_file(family: &str) -> (r: Option<&'static str>)
    ensures
        match r {
            Some(f) => font_file_of(family@) == Some(f@),
            None => font_file_of(family@) is None,
        },
{
    if str_eq(family, "Segoe UI") {
        Some("segoeui.ttf")
    } else if str_eq(family, "Arial") {
        Some("arial.ttf")
    } else if str_eq(family, "Times New Roman") {
        Some("times.ttf")
    } else if str_eq(family, "Courier New") {
        Some("cour.ttf")
    } else {
        None
    }
}

/// Maps a font-family choice to the file of its bold face.
pub fn bold_font_file(family: &str) -> (r: Option<&'static str>)
    ensures
        match r {
            Some(f) => bold_font_file_of(family@) == Some(f@),
            None => bold_font_file_of(family@) is None,
        },
{
    if str_eq(family, "Segoe UI") {
        Some("segoeuib.ttf")
    } else if str_eq(family, "Arial") {
        Some("arialbd.ttf")
    } else if str_eq(family, "Times New Roman") {
        Some("timesbd.ttf")
    } else if str_eq(family, "Courier New") {
        Some("courbd.ttf")
    } else {
        None
    }
}

/// What is told of a font family whose file could not be read.
pub fn missing_font_status(family: &str) -> (r: String)
    ensures
        r@ == "Font '"@ + family@ + "' not found on this system, using Inter"@,
{
    let mut s = "Font '".to_owned();
    s.append(family);
    s.append("' not found on this system, using Inter");
    s
}

// ---------------------------------------------------------------------------
// Stored preferences
// ---------------------------------------------------------------------------

/// The preferences of one user. Sizes that are not whole numbers are kept as
/// they are written down.
#[derive(Debug, PartialEq, Eq)]
pub struct Preferences {
    /// The column that new tabs are sorted by.
    pub sort_col: String,
    /// New tabs are sorted in ascending order.
    pub sort_asc: bool,
    pub theme: ThemePref,
    pub font_size: Option<String>,
    pub font_family: String,
    pub tab_orientation: TabOrientation,
    pub tab_strip_width: Option<String>,
    pub tips_enabled: bool,
    /// Hidden files and folders are listed.
    pub show_hidden: bool,
    /// The setting that `shell_menu_hidden` was read from.
    pub shell_menu_hidden_text: String,
    /// Labels of shell menu items that are not shown.
    pub shell_menu_hidden: Vec<String>,
}

/// Parses the newline-separated list of hidden shell menu labels, trimming
/// blanks and leaving out blank lines.
pub fn parse_shell_menu_hidden(raw: &str) -> (r: Vec<String>)
    ensures
        text::texts(r@) == text::nonblank_lines(raw@),
{
    lines_trimmed(raw)
}

/// The stored setting `key` of a user, or `fallback` where nothing is stored.
pub open spec fn stored_or(
    m: Map<(Option<i64>, Seq<char>), Seq<char>>,
    user_id: i64,
    key: Seq<char>,
    fallback: Seq<char>,
) -> Seq<char> {
    match config::effective(m, user_id, key) {
        Some(v) => v,
        None => fallback,
    }
}

/// `p` are the preferences that the settings `m` hold for a user.
pub open spec fn reads(
    p: Preferences,
    m: Map<(Option<i64>, Seq<char>), Seq<char>>,
    user_id: i64,
) -> bool {
    &&& p.sort_col@ == ({
        let raw = stored_or(m, user_id, "sort_col"@, "name"@);
        if known_sort_col(raw) {
            raw
        } else {
            "name"@
        }
    })
    &&& p.sort_asc == (stored_or(m, user_id, "sort_asc"@, "true"@) != "false"@)
    &&& p.theme == ThemePref::of_text(stored_or(m, user_id, "theme"@, "system"@))
    &&& same_text(p.font_size, config::effective(m, user_id, "font_size"@))
    &&& p.font_family@ == stored_or(m, user_id, "font_family"@, "Segoe UI"@)
    &&& p.tab_orientation == TabOrientation::of_text(
        stored_or(m, user_id, "tab_orientation"@, "vertical"@),
    )
    &&& same_text(p.tab_strip_width, config::effective(m, user_id, "tab_strip_width"@))
    &&& p.tips_enabled == (stored_or(m, user_id, KEY_TIPS_ENABLED@, "true"@) != "false"@)
    &&& p.show_hidden == (stored_or(m, user_id, "show_hidden"@, "false"@) == "true"@)
    &&& p.shell_menu_hidden_text@ == stored_or(m, user_id, "shell_menu_hidden"@, ""@)
    &&& text::texts(p.shell_menu_hidden@) == text::nonblank_lines(
        stored_or(m, user_id, "shell_menu_hidden"@, ""@),
    )
}

/// The text `a` is `b`, or both are missing.
pub open spec fn same_text(a: Option<String>, b: Option<Seq<char>>) -> bool {
    match a {
        Some(x) => b == Some(x@),
        None => b is None,
    }
}

fn stored(db: &Database, user_id: i64, key: &str, fallback: &str) -> (r: String)
    requires
        db.wf(),
    ensures
        r@ == stored_or(db.settings@, user_id, key@, fallback@),
{
    match config::get(db, user_id, key) {
        Some(v) => v,
        None => fallback.to_owned(),
    }
}

/// Reads the preferences of a user.
pub fn load_preferences(db: &Database, user_id: i64) -> (r: Preferences)
    requires
        db.wf(),
    ensures
        reads(r, db.settings@, user_id),
{
    let raw_col = stored(db, user_id, "sort_col", "name");
    let sort_col = match parse_sort_col(raw_col.as_str()) {
        Some(c) => c.to_owned(),
        None => "name".to_owned(),
    };
    let sort_asc: bool = !str_eq(stored(db, user_id, "sort_asc", "true").as_str(), "false");
    let theme = parse_theme_pref(stored(db, user_id, "theme", "system").as_str());
    let orientation = stored(db, user_id, "tab_orientation", "vertical");
    let tips_enabled: bool = !str_eq(
        stored(db, user_id, KEY_TIPS_ENABLED, "true").as_str(),
        "false",
    );
    let show_hidden: bool = str_eq(stored(db, user_id, "show_hidden", "false").as_str(), "true");
    let hidden_text = stored(db, user_id, "shell_menu_hidden", "");
    Preferences {
        sort_col,
        sort_asc,
        theme,
        font_size: config::get(db, user_id, "font_size"),
        font_family: stored(db, user_id, "font_family", "Segoe UI"),
        tab_orientation: TabOrientation::parse(orientation.as_str()),
        tab_strip_width: config::get(db, user_id, "tab_strip_width"),
        tips_enabled,
        show_hidden,
        shell_menu_hidden: parse_shell_menu_hidden(hidden_text.as_str()),
        shell_menu_hidden_text: hidden_text,
    }
}

/// How a switch is written down.
pub open spec fn flag_text(on: bool) -> Seq<char> {
    if on {
        "true"@
    } else {
        "false"@
    }
}

/// How a switch is written down.
pub fn flag_str(on: bool) -> (r: &'static str)
    ensures
        r@ == flag_text(on),
{
    if on {
        "true"
    } else {
        "false"
    }
}

/// Stores the setting `key` of a user.
pub fn store_setting(db: &mut Database, user_id: i64, key: &str, value: &str)
    requires
        old(db).wf(),
    ensures
        final(db).wf(),
        final(db).same_but_settings(*old(db)),
        final(db).settings@ == old(db).settings@.insert((Some(user_id), key@), value@),
{
    config::set(db, Scope::User(user_id), key, value)
}

/// A switch that is stored is read back, by whichever value it defaults to.
pub proof fn law_flags_round_trip(
    m: Map<(Option<i64>, Seq<char>), Seq<char>>,
    user_id: i64,
    key: Seq<char>,
    on: bool,
    fallback: Seq<char>,
)
    ensures
        ({
            let after = m.insert((Some(user_id), key), flag_text(on));
            &&& (stored_or(after, user_id, key, fallback) != "false"@) == on
            &&& (stored_or(after, user_id, key, fallback) == "true"@) == on
        }),
{
    reveal_strlit("true");
    reveal_strlit("false");
    assert("true"@.len() == 4);
    assert("false"@.len() == 5);
}

/// A user who has chosen nothing, where nothing is set for all, finds files by
/// name from the first to the last, the theme and the font of the system, tabs in
/// a column, and tips, and is not shown what is hidden.
pub proof fn law_new_users_find_the_defaults(db: &Database, user_id: i64, r: Preferences)
    requires
        call_ensures(load_preferences, (db, user_id), r),
        forall|k: Seq<char>|
            !(#[trigger] db.settings@.contains_key((Some(user_id), k)))
                && !db.settings@.contains_key((None, k)),
    ensures
        r.sort_col@ == "name"@ && r.sort_asc,
        r.theme == ThemePref::System && r.font_family@ == "Segoe UI"@ && r.font_size is None,
        r.tab_orientation == TabOrientation::Vertical && r.tab_strip_width is None,
        r.tips_enabled && !r.show_hidden,
        r.shell_menu_hidden_text@.len() == 0,
{
    reveal_strlit("true");
    reveal_strlit("false");
    reveal_strlit("system");
    reveal_strlit("dark");
    reveal_strlit("light");
    reveal_strlit("");
    assert("true"@.len() == 4 && "false"@.len() == 5);
    assert("system"@.len() == 6 && "dark"@.len() == 4 && "light"@.len() == 5);
    assert(forall|k: Seq<char>| config::effective(db.settings@, user_id, k) is None) by {
        assert forall|k: Seq<char>| config::effective(db.settings@, user_id, k) is None by {
            assert(!db.settings@.contains_key((Some(user_id), k)));
        }
    }
}

/// A click on a column sorts by it from the first to the last; a click on the
/// column that is sorted by turns the order round.
pub proof fn law_a_click_sorts_by_its_column(
    col: &str,
    asc: bool,
    clicked: &str,
    r: (String, bool),
)
    requires
        call_ensures(next_sort, (col, asc, clicked), r),
    ensures
        r.0@ == clicked@,
        col@ == clicked@ ==> r.1 == !asc,
        col@ != clicked@ ==> r.1,
{
}

/// The columns that can be stored are the four of a listing, each under its own
/// name.
pub proof fn law_four_columns_are_known(raw: &str, r: Option<&'static str>)
    requires
        call_ensures(parse_sort_col, (raw,), r),
    ensures
        r is Some <==> raw@ == "name"@ || raw@ == "modified"@ || raw@ == "size"@ || raw@
            == "archive"@,
        r is Some ==> r->0@ == raw@,
{
}

} // verus!
