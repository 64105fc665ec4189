//! One tab of a pane: the folder it shows, its history, its selection and its
//! listing.

use crate::fs_entry::{clone_entries, sort_entries, FsEntry};
use crate::path::{file_name, parent, shown_name};
use crate::search::filter_entries;
use crate::text::{position_of, str_eq};
use crate::{fs_entry, path, search, text};
use vstd::prelude::*;

verus! {

/// How a listing is laid out.
#[derive(Debug, Clone, Copy, PartialEq, Eq, Structural)]
pub enum ViewMode {
    Details,
    List,
    Icons,
}

impl Default for ViewMode {
    fn default() -> (r: Self)
        ensures
            r == ViewMode::Details,
    {
        ViewMode::Details
    }
}

/// Distinguishes a normal folder-browsing tab from a pinned file-link tab.
/// File-link tabs display the file's parent folder but open the file itself
/// when activated (double-click / Enter).
#[derive(Debug, Clone, Copy, PartialEq, Eq, Structural)]
pub enum TabKind {
    /// Regular directory tab: shows folder contents.
    Folder,
    /// Pinned file shortcut: the parent folder is listed, but activating the
    /// tab opens the target file with its default application.
    File,
}

impl Default for TabKind {
    fn default() -> (r: Self)
        ensures
            r == TabKind::Folder,
    {
        TabKind::Folder
    }
}

impl ViewMode {
    /// The text under which a view mode is stored.
    pub open spec fn text(self) -> Seq<char> {
        match self {
            ViewMode::Details => "details"@,
            ViewMode::List => "list"@,
            ViewMode::Icons => "icons"@,
        }
    }

    /// The view mode that a stored text stands for; details where it stands
    /// for none.
    pub open spec fn of_text(raw: Seq<char>) -> ViewMode {
        if raw == "list"@ {
            ViewMode::List
        } else if raw == "icons"@ {
            ViewMode::Icons
        } else {
            ViewMode::Details
        }
    }

    /// The text under which the view mode is stored.
    pub fn as_str(self) -> (r: &'static str)
        ensures
            r@ == self.text(),
    {
        match self {
            ViewMode::Details => "details",
            ViewMode::List => "list",
            ViewMode::Icons => "icons",
        }
    }

    /// The view mode that a stored text stands for.
    pub fn from_str(raw: &str) -> (r: Self)
        ensures
            r == ViewMode::of_text(raw@),
    {
        if str_eq(raw, "list") {
            ViewMode::List
        } else if str_eq(raw, "icons") {
            ViewMode::Icons
        } else {
            ViewMode::Details
        }
    }
}

/// A view mode is read back from the text it is stored under.
pub proof fn law_view_mode_round_trips(mode: ViewMode)
    ensures
        ViewMode::of_text(mode.text()) == mode,
{
    reveal_strlit("details");
    reveal_strlit("list");
    reveal_strlit("icons");
    assert("details"@.len() == 7 && "list"@.len() == 4 && "icons"@.len() == 5);
}

/// What a cached view of a listing was made for.
#[derive(Debug, PartialEq)]
pub struct ViewKey {
    pub version: u64,
    pub filter: String,
    pub sort_col: String,
    pub sort_asc: bool,
}

/// A filtered and sorted view of a listing, kept for as long as it is current.
#[derive(Debug, PartialEq)]
pub struct DisplayCache {
    pub key: ViewKey,
    pub entries: Vec<FsEntry>,
}

/// One tab of a pane.
#[derive(Debug, PartialEq)]
pub struct Tab {
    pub path: String,
    /// For `TabKind::File` this holds the full path to the target file;
    /// for `TabKind::Folder` it is `None`.
    pub file_target: Option<String>,
    pub kind: TabKind,
    /// The folders that "back" leads to, the nearest last.
    pub history_back: Vec<String>,
    /// The folders that "forward" leads to, the nearest last.
    pub history_forward: Vec<String>,
    pub sort_col: String,
    pub sort_asc: bool,
    pub view_mode: ViewMode,
    /// Names (not full paths) of selected entries in the current directory,
    /// each once.
    pub selected: Vec<String>,
    /// Resizable file-table column widths (name, modified, size, attributes),
    /// in the form in which they are stored: four numbers with spaces between.
    pub col_widths: String,
    /// Name-filter text for this tab's listing. Per-tab (not shared across
    /// panes/tabs) and not persisted across sessions: resets to empty on
    /// navigation, same as the selection.
    pub filter: String,
    /// Cached directory listing, refreshed in the background. Not persisted:
    /// reloaded via `listing_dirty` on session restore.
    pub listing: Vec<FsEntry>,
    /// True when `listing` is stale (fresh tab, navigation, or an external
    /// mutation) and needs to be reloaded.
    pub listing_dirty: bool,
    /// Bumped every time `listing` is replaced.
    pub listing_version: u64,
    /// The last computed view of the listing, so that unchanged frames can
    /// reuse it instead of filtering and sorting again.
    pub display_cache: Option<DisplayCache>,
    /// Set when the last listing of this tab's path failed (e.g. permission
    /// denied). Cleared on the next successful listing.
    pub listing_error: Option<String>,
    /// Pinned tabs refuse to close or navigate away from their folder.
    pub locked: bool,
    /// User-assigned tab label. When set, overrides the folder-name label
    /// and survives navigation (the tab keeps its custom title even as
    /// `path` changes).
    pub custom_name: Option<String>,
}

/// The column widths of a new tab.
pub const DEFAULT_COL_WIDTHS: &'static str = "220 140 90 60";

/// Where a tab is and where "back" and "forward" lead.
#[verifier::ext_equal]
pub struct Trail {
    pub path: Seq<char>,
    pub back: Seq<Seq<char>>,
    pub forward: Seq<Seq<char>>,
}

impl Trail {
    /// After moving to `p`.
    pub open spec fn to(self, p: Seq<char>) -> Trail {
        Trail { path: p, back: self.back.push(self.path), forward: Seq::<Seq<char>>::empty() }
    }

    /// After going back.
    pub open spec fn backward(self) -> Trail
        recommends
            self.back.len() > 0,
    {
        Trail {
            path: self.back.last(),
            back: self.back.drop_last(),
            forward: self.forward.push(self.path),
        }
    }

    /// After going forward.
    pub open spec fn onward(self) -> Trail
        recommends
            self.forward.len() > 0,
    {
        Trail {
            path: self.forward.last(),
            back: self.back.push(self.path),
            forward: self.forward.drop_last(),
        }
    }
}

/// Going back undoes a move; only "forward" then leads somewhere new.
pub proof fn law_back_undoes_a_move(t: Trail, p: Seq<char>)
    ensures
        t.to(p).backward().path == t.path,
        t.to(p).backward().back == t.back,
        t.to(p).backward().forward == seq![p],
{
    assert(t.to(p).backward().back =~= t.back);
    assert(t.to(p).backward().forward =~= seq![p]);
}

/// Going forward undoes going back.
pub proof fn law_forward_undoes_back(t: Trail)
    requires
        t.back.len() > 0,
    ensures
        t.backward().onward() == t,
{
    assert(t.backward().onward() =~= t);
}

/// Going back undoes going forward.
pub proof fn law_back_undoes_forward(t: Trail)
    requires
        t.forward.len() > 0,
    ensures
        t.onward().backward() == t,
{
    assert(t.onward().backward() =~= t);
}

/// The names of a selection, as a set.
pub open spec fn name_set(v: Seq<String>) -> Set<Seq<char>> {
    text::texts(v).to_set()
}

/// What a tab shows of `listing`.
pub open spec fn shown(
    listing: Seq<FsEntry>,
    filter: Seq<char>,
    col: Seq<char>,
    asc: bool,
) -> Seq<FsEntry> {
    fs_entry::sorted_entries(search::filtered(listing, filter), col, asc)
}

impl Tab {
    /// Where the tab is and where "back" and "forward" lead.
    pub open spec fn trail(self) -> Trail {
        Trail {
            path: self.path@,
            back: text::texts(self.history_back@),
            forward: text::texts(self.history_forward@),
        }
    }

    /// The names of the selected entries.
    pub open spec fn selection(self) -> Set<Seq<char>> {
        name_set(self.selected@)
    }

    /// No name is selected twice, and a cached view made for the present
    /// listing is what the tab shows of it.
    pub open spec fn wf(self) -> bool {
        &&& text::texts(self.selected@).no_duplicates()
        &&& (self.display_cache matches Some(c) ==> c.key.version == self.listing_version
            ==> c.entries@ == shown(
            self.listing@,
            c.key.filter@,
            c.key.sort_col@,
            c.key.sort_asc,
        ))
    }

    /// `self` differs from `other` at most in path, history, selection,
    /// filter and staleness.
    pub open spec fn same_but_place(self, other: Tab) -> bool {
        &&& self.file_target == other.file_target
        &&& self.kind == other.kind
        &&& self.sort_col == other.sort_col
        &&& self.sort_asc == other.sort_asc
        &&& self.view_mode == other.view_mode
        &&& self.col_widths == other.col_widths
        &&& self.listing == other.listing
        &&& self.listing_version == other.listing_version
        &&& self.display_cache == other.display_cache
        &&& self.listing_error == other.listing_error
        &&& self.locked == other.locked
        &&& self.custom_name == other.custom_name
    }

    /// `self` differs from `other` at most in the selection.
    pub open spec fn same_but_selection(self, other: Tab) -> bool {
        &&& self.same_but_place(other)
        &&& self.path == other.path
        &&& self.history_back == other.history_back
        &&& self.history_forward == other.history_forward
        &&& self.filter == other.filter
        &&& self.listing_dirty == other.listing_dirty
    }

    /// The tab moved: nothing is selected or filtered, and the listing is
    /// stale.
    pub open spec fn moved(self, before: Tab, trail: Trail) -> bool {
        &&& self.same_but_place(before)
        &&& self.trail() == trail
        &&& self.selected@.len() == 0
        &&& self.filter@.len() == 0
        &&& self.listing_dirty
    }

    /// A tab in its first state, showing the folder `p`.
    pub open spec fn fresh(self, p: Seq<char>) -> bool {
        &&& self.wf()
        &&& self.path@ == p
        &&& self.file_target is None
        &&& self.kind == TabKind::Folder
        &&& self.history_back@.len() == 0
        &&& self.history_forward@.len() == 0
        &&& self.sort_col@ == "name"@
        &&& self.sort_asc
        &&& self.view_mode == ViewMode::Details
        &&& self.selected@.len() == 0
        &&& self.col_widths@ == DEFAULT_COL_WIDTHS@
        &&& self.filter@.len() == 0
        &&& self.listing@.len() == 0
        &&& self.listing_dirty
        &&& self.listing_version == 0
        &&& self.display_cache is None
        &&& self.listing_error is None
        &&& !self.locked
        &&& self.custom_name is None
    }

    /// A tab that shows the folder `path`.
    pub fn new(path: String) -> (r: Self)
        ensures
            r.fresh(path@),
            r.path == path,
    {
        Tab {
            path,
            file_target: None,
            kind: TabKind::Folder,
            history_back: Vec::new(),
            history_forward: Vec::new(),
            sort_col: "name".to_owned(),
            sort_asc: true,
            view_mode: ViewMode::Details,
            selected: Vec::new(),
            col_widths: DEFAULT_COL_WIDTHS.to_owned(),
            filter: String::new(),
            listing: Vec::new(),
            listing_dirty: true,
            listing_version: 0,
            display_cache: None,
            listing_error: None,
            locked: false,
            custom_name: None,
        }
    }

    /// Creates a file-link tab: `path` is set to the file's parent directory
    /// so the listing still works, and `file_target` records the actual file.
    pub fn new_file(file_path: String) -> (r: Self)
        ensures
            r.wf(),
            r.path@ == (match path::parent_of(file_path@) {
                Some(p) => p,
                None => "C:\\"@,
            }),
            r.kind == TabKind::File,
            r.file_target == Some(file_path),
            r.custom_name matches Some(n) && n@ == (match path::file_name_of(file_path@) {
                Some(n) => n,
                None => Seq::<char>::empty(),
            }),
            r.history_back@.len() == 0,
            r.history_forward@.len() == 0,
            r.sort_col@ == "name"@,
            r.sort_asc,
            r.view_mode == ViewMode::Details,
            r.selected@.len() == 0,
            r.col_widths@ == DEFAULT_COL_WIDTHS@,
            r.filter@.len() == 0,
            r.listing@.len() == 0,
            r.listing_dirty,
            r.listing_version == 0,
            r.display_cache is None,
            r.listing_error is None,
            !r.locked,
    {
        let dir = match parent(file_path.as_str()) {
            Some(p) => p,
            None => "C:\\".to_owned(),
        };
        let name = match file_name(file_path.as_str()) {
            Some(n) => n,
            None => String::new(),
        };
        let mut tab = Tab::new(dir);
        tab.kind = TabKind::File;
        tab.file_target = Some(file_path);
        tab.custom_name = Some(name);
        tab
    }

    /// Replaces the listing by a fresh one.
    pub fn set_listing(&mut self, entries: Vec<FsEntry>)
        requires
            old(self).wf(),
        ensures
            final(self).wf(),
            final(self).listing == entries,
            final(self).listing_version == old(self).listing_version.wrapping_add(1),
            final(self).listing_error is None,
            final(self).trail() == old(self).trail(),
            final(self).selected == old(self).selected,
            final(self).filter == old(self).filter,
            final(self).listing_dirty == old(self).listing_dirty,
            final(self).sort_col == old(self).sort_col,
            final(self).sort_asc == old(self).sort_asc,
            final(self).view_mode == old(self).view_mode,
            final(self).locked == old(self).locked,
            final(self).custom_name == old(self).custom_name,
            final(self).kind == old(self).kind,
            final(self).file_target == old(self).file_target,
            final(self).col_widths == old(self).col_widths,
    {
        self.listing = entries;
        self.listing_version = self.listing_version.wrapping_add(1);
        self.display_cache = None;
        self.listing_error = None;
    }

    /// The filtered and sorted view for `filter`/`sort_col`/`sort_asc`,
    /// recomputed only when one of those three or the listing changed since
    /// the last call.
    pub fn display_entries(&mut self, filter: &str, sort_col: &str, sort_asc: bool) -> (r: &Vec<
        FsEntry,
    >)
        requires
            old(self).wf(),
        ensures
            final(self).wf(),
            r@ == shown(old(self).listing@, filter@, sort_col@, sort_asc),
            final(self).display_cache matches Some(c) && c.entries@ == r@ && c.key.version
                == final(self).listing_version && c.key.filter@ == filter@ && c.key.sort_col@
                == sort_col@ && c.key.sort_asc == sort_asc,
            final(self).path == old(self).path,
            final(self).file_target == old(self).file_target,
            final(self).kind == old(self).kind,
            final(self).history_back == old(self).history_back,
            final(self).history_forward == old(self).history_forward,
            final(self).sort_col == old(self).sort_col,
            final(self).sort_asc == old(self).sort_asc,
            final(self).view_mode == old(self).view_mode,
            final(self).selected == old(self).selected,
            final(self).col_widths == old(self).col_widths,
            final(self).filter == old(self).filter,
            final(self).listing == old(self).listing,
            final(self).listing_dirty == old(self).listing_dirty,
            final(self).listing_version == old(self).listing_version,
            final(self).listing_error == old(self).listing_error,
            final(self).locked == old(self).locked,
            final(self).custom_name == old(self).custom_name,
    {
        let stale = match &self.display_cache {
            Some(cache) => !(cache.key.version == self.listing_version && str_eq(
                cache.key.filter.as_str(),
                filter,
            ) && str_eq(cache.key.sort_col.as_str(), sort_col) && cache.key.sort_asc == sort_asc),
            None => true,
        };
        if stale {
            let mut entries = clone_entries(&self.listing);
            filter_entries(&mut entries, filter);
            sort_entries(&mut entries, sort_col, sort_asc);
            self.display_cache = Some(
                DisplayCache {
                    key: ViewKey {
                        version: self.listing_version,
                        filter: filter.to_owned(),
                        sort_col: sort_col.to_owned(),
                        sort_asc,
                    },
                    entries,
                },
            );
        }
        match &self.display_cache {
            Some(cache) => &cache.entries,
            None => &self.listing,
        }
    }

    /// The label of a tab.
    pub open spec fn label(self) -> Seq<char> {
        match self.custom_name {
            Some(n) => n@,
            None => {
                if self.kind == TabKind::File {
                    match self.file_target {
                        Some(t) => match path::file_name_of(t@) {
                            Some(n) => n,
                            None => self.path@,
                        },
                        None => self.path@,
                    }
                } else {
                    path::shown_name_of(self.path@)
                }
            },
        }
    }

    /// The tab's display label: the custom name if one was set, otherwise
    /// the current folder's name (for folder tabs) or the file name (for
    /// file-link tabs).
    pub fn display_label(&self) -> (r: String)
        ensures
            r@ == self.label(),
    {
        match &self.custom_name {
            Some(n) => n.clone(),
            None => {
                if self.kind == TabKind::File {
                    match &self.file_target {
                        Some(t) => match file_name(t.as_str()) {
                            Some(n) => n,
                            None => self.path.clone(),
                        },
                        None => self.path.clone(),
                    }
                } else {
                    shown_name(self.path.as_str())
                }
            },
        }
    }

    /// Navigates to `new_path` unless the tab is pinned (`locked`), in which
    /// case it refuses and returns false. All folder-changing moves (tree,
    /// address bar, double-click, up/back/forward) funnel through here.
    pub fn try_navigate(&mut self, new_path: String) -> (r: bool)
        requires
            old(self).wf(),
        ensures
            final(self).wf(),
            r == !old(self).locked,
            r ==> final(self).moved(*old(self), old(self).trail().to(new_path@)),
            r ==> final(self).path == new_path,
            !r ==> *final(self) == *old(self),
    {
        if self.locked {
            return false;
        }
        self.navigate_to(new_path);
        true
    }

    /// Moves to `new_path`, whether or not the tab is pinned.
    pub fn navigate_to(&mut self, new_path: String)
        requires
            old(self).wf(),
        ensures
            final(self).wf(),
            final(self).moved(*old(self), old(self).trail().to(new_path@)),
            final(self).path == new_path,
    {
        let ghost before = self.trail();
        self.history_back.push(self.path.clone());
        self.history_forward = Vec::new();
        self.path = new_path;
        self.clear_selection();
        self.filter = String::new();
        self.listing_dirty = true;
        assert(self.trail() =~= before.to(new_path@));
    }

    /// Goes back to the folder before this one. Pinned tabs refuse.
    pub fn go_back(&mut self) -> (r: bool)
        requires
            old(self).wf(),
        ensures
            final(self).wf(),
            r == (!old(self).locked && old(self).history_back@.len() > 0),
            r ==> final(self).moved(*old(self), old(self).trail().backward()),
            !r ==> *final(self) == *old(self),
    {
        if self.locked || self.history_back.len() == 0 {
            return false;
        }
        let ghost before = self.trail();
        match self.history_back.pop() {
            Some(prev) => {
                self.history_forward.push(self.path.clone());
                self.path = prev;
                self.clear_selection();
                self.filter = String::new();
                self.listing_dirty = true;
                assert(self.trail() =~= before.backward());
                true
            },
            None => false,
        }
    }

    /// Goes forward to the folder that "back" left. Pinned tabs refuse.
    pub fn go_forward(&mut self) -> (r: bool)
        requires
            old(self).wf(),
        ensures
            final(self).wf(),
            r == (!old(self).locked && old(self).history_forward@.len() > 0),
            r ==> final(self).moved(*old(self), old(self).trail().onward()),
            !r ==> *final(self) == *old(self),
    {
        if self.locked || self.history_forward.len() == 0 {
            return false;
        }
        let ghost before = self.trail();
        match self.history_forward.pop() {
            Some(next) => {
                self.history_back.push(self.path.clone());
                self.path = next;
                self.clear_selection();
                self.filter = String::new();
                self.listing_dirty = true;
                assert(self.trail() =~= before.onward());
                true
            },
            None => false,
        }
    }

    /// Whether `name` is selected.
    pub fn is_selected(&self, name: &str) -> (r: bool)
        ensures
            r == self.selection().contains(name@),
    {
        match position_of(&self.selected, name) {
            Some(i) => {
                assert(text::texts(self.selected@)[i as int] == name@);
                true
            },
            None => {
                proof {
                    if self.selection().contains(name@) {
                        let k = choose|k: int|
                            0 <= k < text::texts(self.selected@).len() && text::texts(
                                self.selected@,
                            )[k] == name@;
                        assert(self.selected@[k]@ == name@);
                    }
                }
                false
            },
        }
    }

    /// Adds `name` to the selection.
    fn add_selected(&mut self, name: &str)
        requires
            old(self).wf(),
        ensures
            final(self).wf(),
            final(self).same_but_selection(*old(self)),
            final(self).selection() == old(self).selection().insert(name@),
            old(self).selection().contains(name@) ==> *final(self) == *old(self),
            !old(self).selection().contains(name@) ==> text::texts(final(self).selected@)
                == text::texts(old(self).selected@).push(name@),
    {
        if self.is_selected(name) {
            assert(self.selection().insert(name@) =~= self.selection());
            return;
        }
        let ghost before = text::texts(self.selected@);
        self.selected.push(name.to_owned());
        proof {
            let after = text::texts(self.selected@);
            assert(after =~= before.push(name@));
            lemma_push_set(before, name@);
        }
    }

    /// Selects `name` where it is not selected, and unselects it where it is.
    pub fn toggle_select(&mut self, name: &str)
        requires
            old(self).wf(),
        ensures
            final(self).wf(),
            final(self).same_but_selection(*old(self)),
            final(self).selection() == (if old(self).selection().contains(name@) {
                old(self).selection().remove(name@)
            } else {
                old(self).selection().insert(name@)
            }),
    {
        match position_of(&self.selected, name) {
            None => {
                self.add_selected(name);
                proof {
                    if old(self).selection().contains(name@) {
                        let t = text::texts(old(self).selected@);
                        let k = choose|k: int| 0 <= k < t.len() && t[k] == name@;
                        assert(old(self).selected@[k]@ == name@);
                    }
                }
            },
            Some(i) => {
                let ghost before = text::texts(self.selected@);
                assert(before[i as int] == name@);
                self.selected.remove(i);
                proof {
                    assert(text::texts(self.selected@) =~= before.remove(i as int));
                    lemma_remove_set(before, i as int);
                }
            },
        }
    }

    /// Selects `name` alone.
    pub fn select_only(&mut self, name: &str)
        requires
            old(self).wf(),
        ensures
            final(self).wf(),
            final(self).same_but_selection(*old(self)),
            text::texts(final(self).selected@) == seq![name@],
            final(self).selection() == set![name@],
    {
        self.clear_selection();
        self.selected.push(name.to_owned());
        proof {
            let t = text::texts(self.selected@);
            assert(t =~= seq![name@]);
            assert(t[0] == name@);
            assert(self.selection() =~= set![name@]);
        }
    }

    /// Selects nothing.
    pub fn clear_selection(&mut self)
        requires
            old(self).wf(),
        ensures
            final(self).wf(),
            final(self).same_but_selection(*old(self)),
            final(self).selected@.len() == 0,
            final(self).selection() == Set::<Seq<char>>::empty(),
    {
        self.selected = Vec::new();
        assert(self.selection() =~= Set::<Seq<char>>::empty());
    }

    /// Adds the given names, those of a range of entries, to the selection.
    /// Used for Shift+click range selection.
    pub fn select_range(&mut self, names: &Vec<String>)
        requires
            old(self).wf(),
        ensures
            final(self).wf(),
            final(self).same_but_selection(*old(self)),
            final(self).selection() == old(self).selection().union(name_set(names@)),
    {
        let mut i: usize = 0;
        assert(old(self).selection().union(name_set(names@.subrange(0, 0)))
            =~= old(self).selection());
        while i < names.len()
            invariant
                i <= names@.len(),
                self.wf(),
                self.same_but_selection(*old(self)),
                self.selection() == old(self).selection().union(
                    name_set(names@.subrange(0, i as int)),
                ),
            decreases names@.len() - i,
        {
            self.add_selected(names[i].as_str());
            proof {
                let a = names@.subrange(0, i as int);
                let b = names@.subrange(0, i + 1);
                assert(text::texts(b) =~= text::texts(a).push(names@[i as int]@));
                lemma_push_set(text::texts(a), names@[i as int]@);
                assert(old(self).selection().union(name_set(a)).insert(names@[i as int]@)
                    =~= old(self).selection().union(name_set(b)));
            }
            i = i + 1;
        }
        assert(names@.subrange(0, i as int) =~= names@);
    }

    /// Adds every given name to the selection (Ctrl+A select-all).
    pub fn select_all(&mut self, names: &Vec<String>)
        requires
            old(self).wf(),
        ensures
            final(self).wf(),
            final(self).same_but_selection(*old(self)),
            final(self).selection() == old(self).selection().union(name_set(names@)),
    {
        self.select_range(names);
    }
}

proof fn lemma_push_set(s: Seq<Seq<char>>, x: Seq<char>)
    ensures
        s.push(x).to_set() == s.to_set().insert(x),
        s.no_duplicates() && !s.to_set().contains(x) ==> s.push(x).no_duplicates(),
{
    let p = s.push(x);
    assert forall|y: Seq<char>| #[trigger]
        p.to_set().contains(y) <==> s.to_set().insert(x).contains(y) by {
        if p.to_set().contains(y) {
            let k = choose|k: int| 0 <= k < p.len() && p[k] == y;
            if k < s.len() {
                assert(s[k] == y);
            }
        }
        if s.to_set().contains(y) {
            let k = choose|k: int| 0 <= k < s.len() && s[k] == y;
            assert(p[k] == y);
        }
        assert(p[s.len() as int] == x);
    }
    assert(p.to_set() =~= s.to_set().insert(x));
    if s.no_duplicates() && !s.to_set().contains(x) {
        assert forall|i: int, j: int| 0 <= i < p.len() && 0 <= j < p.len() && i != j implies p[i]
            != p[j] by {
            if i < s.len() {
                assert(s.contains(s[i]));
            }
            if j < s.len() {
                assert(s.contains(s[j]));
            }
        }
    }
}

proof fn lemma_remove_set(s: Seq<Seq<char>>, i: int)
    requires
        s.no_duplicates(),
        0 <= i < s.len(),
    ensures
        s.remove(i).to_set() == s.to_set().remove(s[i]),
        s.remove(i).no_duplicates(),
{
    let r = s.remove(i);
    assert forall|y: Seq<char>| #[trigger]
        r.to_set().contains(y) <==> s.to_set().remove(s[i]).contains(y) by {
        if r.to_set().contains(y) {
            let k = choose|k: int| 0 <= k < r.len() && r[k] == y;
            if k < i {
                assert(s[k] == y);
            } else {
                assert(s[k + 1] == y);
            }
        }
        if s.to_set().contains(y) && y != s[i] {
            let k = choose|k: int| 0 <= k < s.len() && s[k] == y;
            if k < i {
                assert(r[k] == y);
            } else {
                assert(r[k - 1] == y);
            }
        }
    }
    assert(r.to_set() =~= s.to_set().remove(s[i]));
}

/// Toggling a name twice leaves the selection as it was.
pub proof fn law_toggling_twice_restores(s: Set<Seq<char>>, name: Seq<char>)
    ensures
        s.contains(name) ==> s.remove(name).insert(name) == s,
        !s.contains(name) ==> s.insert(name).remove(name) == s,
{
    if s.contains(name) {
        assert(s.remove(name).insert(name) =~= s);
    } else {
        assert(s.insert(name).remove(name) =~= s);
    }
}

// ---------------------------------------------------------------------------
// What the operations on a tab do
// ---------------------------------------------------------------------------

/// Whatever moves a tab starts afresh in the new folder: nothing is selected or
/// filtered there and it has to be listed. How it is sorted and laid out, its
/// pin and its own name stay.
proof fn lemma_moved(after: Tab, before: Tab, trail: Trail)
    requires
        after.moved(before, trail),
    ensures
        after.path@ == trail.path,
        text::texts(after.history_back@) == trail.back,
        text::texts(after.history_forward@) == trail.forward,
        after.selected@.len() == 0,
        after.filter@.len() == 0,
        after.listing_dirty,
        after.sort_col == before.sort_col && after.sort_asc == before.sort_asc,
        after.view_mode == before.view_mode && after.col_widths == before.col_widths,
        after.locked == before.locked && after.custom_name == before.custom_name,
        after.kind == before.kind && after.file_target == before.file_target,
        after.listing == before.listing,
{
}

/// Going to a folder leads there and makes "back" lead to where the tab was, and
/// "forward" nowhere. Nothing is selected or filtered in the new folder, and it
/// has to be listed. A pinned tab stays where it is. How the tab is sorted and
/// laid out, its pin and its own name stay.
pub proof fn law_a_tab_goes_where_it_is_sent()
    ensures
        forall|t: &mut Tab, p: String, r: bool| #[trigger]
            call_ensures(Tab::try_navigate, (t, p), r) ==> {
                &&& r <==> !t.locked
                &&& !r ==> *final(t) == *t
                &&& r ==> {
                    &&& final(t).path@ == p@
                    &&& text::texts(final(t).history_back@) == text::texts(t.history_back@).push(
                        t.path@,
                    )
                    &&& final(t).history_forward@.len() == 0
                    &&& final(t).selected@.len() == 0 && final(t).filter@.len() == 0
                    &&& final(t).listing_dirty
                    &&& final(t).sort_col == t.sort_col && final(t).sort_asc == t.sort_asc
                    &&& final(t).view_mode == t.view_mode && final(t).locked == t.locked
                    &&& final(t).custom_name == t.custom_name && final(t).kind == t.kind
                }
            },
        forall|t: &mut Tab, p: String| #[trigger]
            call_ensures(Tab::navigate_to, (t, p), ()) ==> {
                &&& final(t).path@ == p@
                &&& text::texts(final(t).history_back@) == text::texts(t.history_back@).push(
                    t.path@,
                )
                &&& final(t).history_forward@.len() == 0
                &&& final(t).selected@.len() == 0 && final(t).filter@.len() == 0
                &&& final(t).listing_dirty
                &&& final(t).sort_col == t.sort_col && final(t).sort_asc == t.sort_asc
                &&& final(t).view_mode == t.view_mode && final(t).locked == t.locked
                &&& final(t).custom_name == t.custom_name && final(t).kind == t.kind
            },
{
    assert forall|t: &mut Tab, p: String, r: bool| #[trigger]
        call_ensures(Tab::try_navigate, (t, p), r) && r implies text::texts(
        final(t).history_forward@,
    ).len() == 0 && final(t).history_forward@.len() == 0 by {
        lemma_moved(*final(t), *t, t.trail().to(p@));
        assert(text::texts(final(t).history_forward@).len() == final(t).history_forward@.len());
    }
    assert forall|t: &mut Tab, p: String| #[trigger]
        call_ensures(Tab::navigate_to, (t, p), ()) implies final(t).history_forward@.len() == 0 by {
        lemma_moved(*final(t), *t, t.trail().to(p@));
        assert(text::texts(final(t).history_forward@).len() == final(t).history_forward@.len());
    }
}

/// Going back leads to the folder that was left last, and "forward" then leads
/// to where the tab was; going forward is the other way round. A pinned tab, or
/// one with nowhere to go, stays as it is.
pub proof fn law_a_tab_goes_back_and_forward()
    ensures
        forall|t: &mut Tab, r: bool| #[trigger]
            call_ensures(Tab::go_back, (t,), r) ==> {
                &&& r <==> !t.locked && t.history_back@.len() > 0
                &&& !r ==> *final(t) == *t
                &&& r ==> {
                    &&& text::texts(t.history_back@) == text::texts(final(t).history_back@).push(
                        final(t).path@,
                    )
                    &&& text::texts(final(t).history_forward@) == text::texts(
                        t.history_forward@,
                    ).push(t.path@)
                    &&& final(t).selected@.len() == 0 && final(t).filter@.len() == 0
                    &&& final(t).listing_dirty
                    &&& final(t).locked == t.locked && final(t).sort_col == t.sort_col
                }
            },
        forall|t: &mut Tab, r: bool| #[trigger]
            call_ensures(Tab::go_forward, (t,), r) ==> {
                &&& r <==> !t.locked && t.history_forward@.len() > 0
                &&& !r ==> *final(t) == *t
                &&& r ==> {
                    &&& text::texts(t.history_forward@) == text::texts(
                        final(t).history_forward@,
                    ).push(final(t).path@)
                    &&& text::texts(final(t).history_back@) == text::texts(t.history_back@).push(
                        t.path@,
                    )
                    &&& final(t).selected@.len() == 0 && final(t).filter@.len() == 0
                    &&& final(t).listing_dirty
                    &&& final(t).locked == t.locked && final(t).sort_col == t.sort_col
                }
            },
{
    assert forall|t: &mut Tab, r: bool| #[trigger]
        call_ensures(Tab::go_back, (t,), r) && r implies text::texts(t.history_back@)
        == text::texts(final(t).history_back@).push(final(t).path@) by {
        lemma_moved(*final(t), *t, t.trail().backward());
        let b = text::texts(t.history_back@);
        assert(b.len() == t.history_back@.len());
        assert(b.drop_last().push(b.last()) =~= b);
    }
    assert forall|t: &mut Tab, r: bool| #[trigger]
        call_ensures(Tab::go_forward, (t,), r) && r implies text::texts(t.history_forward@)
        == text::texts(final(t).history_forward@).push(final(t).path@) by {
        lemma_moved(*final(t), *t, t.trail().onward());
        let f = text::texts(t.history_forward@);
        assert(f.len() == t.history_forward@.len());
        assert(f.drop_last().push(f.last()) =~= f);
    }
}

/// Selecting and unselecting changes what it names and nothing else.
pub proof fn law_selecting_touches_only_what_it_names()
    ensures
        forall|t: &mut Tab, name: &str, q: Seq<char>|
            #![trigger call_ensures(Tab::toggle_select, (t, name), ()), final(t).selection().contains(q)]
            call_ensures(Tab::toggle_select, (t, name), ()) ==> {
                &&& final(t).selection().contains(q) <==> (if q == name@ {
                    !t.selection().contains(q)
                } else {
                    t.selection().contains(q)
                })
                &&& final(t).path == t.path && final(t).filter == t.filter
                &&& final(t).listing == t.listing && final(t).listing_dirty == t.listing_dirty
            },
        forall|t: &mut Tab, name: &str, q: Seq<char>|
            #![trigger call_ensures(Tab::select_only, (t, name), ()), final(t).selection().contains(q)]
            call_ensures(Tab::select_only, (t, name), ()) ==> {
                &&& final(t).selection().contains(q) <==> q == name@
                &&& final(t).path == t.path && final(t).filter == t.filter
                &&& final(t).listing == t.listing && final(t).listing_dirty == t.listing_dirty
            },
        forall|t: &mut Tab, q: Seq<char>|
            #![trigger call_ensures(Tab::clear_selection, (t,), ()), final(t).selection().contains(q)]
            call_ensures(Tab::clear_selection, (t,), ()) ==> {
                &&& !final(t).selection().contains(q)
                &&& final(t).path == t.path && final(t).filter == t.filter
                &&& final(t).listing == t.listing && final(t).listing_dirty == t.listing_dirty
            },
        forall|t: &mut Tab, names: &Vec<String>, q: Seq<char>|
            #![trigger call_ensures(Tab::select_all, (t, names), ()), final(t).selection().contains(q)]
            #![trigger call_ensures(Tab::select_range, (t, names), ()), final(t).selection().contains(q)]
            call_ensures(Tab::select_all, (t, names), ()) || call_ensures(
                Tab::select_range,
                (t, names),
                (),
            ) ==> {
                &&& final(t).selection().contains(q) <==> t.selection().contains(q)
                    || text::texts(names@).contains(q)
                &&& final(t).path == t.path && final(t).filter == t.filter
                &&& final(t).listing == t.listing && final(t).listing_dirty == t.listing_dirty
            },
        forall|t: &Tab, name: &str, r: bool| #[trigger]
            call_ensures(Tab::is_selected, (t, name), r) ==> (r <==> exists|i: int|
                0 <= i < t.selected@.len() && (#[trigger] t.selected@[i])@ == name@),
{
    assert forall|t: &Tab, name: &str, r: bool| #[trigger]
        call_ensures(Tab::is_selected, (t, name), r) implies (r <==> exists|i: int|
        0 <= i < t.selected@.len() && (#[trigger] t.selected@[i])@ == name@) by {
        let names = text::texts(t.selected@);
        if r {
            assert(names.contains(name@));
            let i = choose|i: int| 0 <= i < names.len() && names[i] == name@;
            assert(t.selected@[i]@ == name@);
        }
        if exists|i: int| 0 <= i < t.selected@.len() && (#[trigger] t.selected@[i])@ == name@ {
            let i = choose|i: int|
                0 <= i < t.selected@.len() && (#[trigger] t.selected@[i])@ == name@;
            assert(names[i] == name@);
        }
    }
}

/// What a tab shows of its listing is what the filter leaves of it, each entry
/// as often as it is there, with the folders first and, in a listing by size,
/// the sizes of the files in their order.
pub proof fn law_a_tab_shows_what_its_filter_leaves(
    listing: Seq<FsEntry>,
    filter: Seq<char>,
    col: Seq<char>,
    asc: bool,
    i: int,
    j: int,
)
    ensures
        ({
            let r = shown(listing, filter, col, asc);
            &&& filter.len() == 0 ==> r.to_multiset() == listing.to_multiset()
            &&& filter.len() > 0 ==> forall|e: FsEntry| #[trigger]
                r.contains(e) <==> listing.contains(e) && exists|at: int|
                    #![trigger text::lowercase(e.name@).subrange(
                        at,
                        at + text::lowercase(filter).len(),
                    )]
                    0 <= at && at + text::lowercase(filter).len() <= text::lowercase(e.name@).len()
                        && text::lowercase(e.name@).subrange(
                        at,
                        at + text::lowercase(filter).len(),
                    ) == text::lowercase(filter)
            &&& 0 <= i < j < r.len() && r[j].is_dir ==> r[i].is_dir
            &&& 0 <= i < j < r.len() && !r[i].is_dir && col == "size"@ ==> if asc {
                r[i].size <= r[j].size
            } else {
                r[i].size >= r[j].size
            }
        }),
{
    let kept = search::filtered(listing, filter);
    let r = shown(listing, filter, col, asc);
    fs_entry::law_sort_keeps_entries(kept, col, asc);
    assert forall|e: FsEntry| #[trigger] r.contains(e) <==> kept.contains(e) by {
        broadcast use vstd::seq_lib::group_to_multiset_ensures;

        assert(r.contains(e) <==> r.to_multiset().count(e) > 0);
        assert(kept.contains(e) <==> kept.to_multiset().count(e) > 0);
    }
    if filter.len() > 0 {
        search::law_filter_keeps_what_matches(listing, filter);
        assert forall|e: FsEntry| #[trigger]
            r.contains(e) <==> listing.contains(e) && exists|at: int|
                #![trigger text::lowercase(e.name@).subrange(
                    at,
                    at + text::lowercase(filter).len(),
                )]
                0 <= at && at + text::lowercase(filter).len() <= text::lowercase(e.name@).len()
                    && text::lowercase(e.name@).subrange(at, at + text::lowercase(filter).len())
                    == text::lowercase(filter) by {
            assert(r.contains(e) <==> kept.contains(e));
            search::law_the_name_alone_decides(e, filter);
        }
    }
    if 0 <= i < j < r.len() {
        if r[j].is_dir {
            fs_entry::law_folders_come_first(kept, col, asc, i, j);
        }
        if !r[i].is_dir && col == "size"@ {
            fs_entry::law_sizes_ascend(kept, asc, i, j);
        }
    }
}

/// The label of a tab is the name that it was given. Without one, a tab that
/// links to a file shows the name of the file, and any other the name of its
/// folder, or the path of a root.
pub proof fn law_a_tab_is_called_by_its_name(t: &Tab, r: String)
    requires
        call_ensures(Tab::display_label, (t,), r),
    ensures
        t.custom_name is Some ==> r@ == t.custom_name->0@,
        t.custom_name is None && t.kind == TabKind::Folder && path::file_name_of(t.path@) is Some
            ==> r@ == path::file_name_of(t.path@)->0,
        t.custom_name is None && t.kind == TabKind::Folder && path::file_name_of(t.path@) is None
            ==> r@ == t.path@,
        t.custom_name is None && t.kind == TabKind::File && t.file_target is Some
            && path::file_name_of(t.file_target->0@) is Some ==> r@ == path::file_name_of(
            t.file_target->0@,
        )->0,
{
}

/// A new tab shows its folder, sorted by name upwards and in detail, with
/// nothing behind or before it, nothing selected or filtered, and no pin; it has
/// to be listed.
pub proof fn law_a_new_tab_starts_afresh(p: String, r: Tab)
    requires
        call_ensures(Tab::new, (p,), r),
    ensures
        r.path@ == p@,
        r.history_back@.len() == 0 && r.history_forward@.len() == 0,
        r.selected@.len() == 0 && r.filter@.len() == 0 && r.listing@.len() == 0,
        r.sort_col@ == "name"@ && r.sort_asc,
        r.view_mode == ViewMode::Details,
        r.listing_dirty,
        !r.locked,
        r.custom_name is None,
        r.kind == TabKind::Folder && r.file_target is None,
{
}

} // verus!
