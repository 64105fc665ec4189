//! What clicks and keys do in the listing of a pane, and where they lead.

use crate::fs_entry::FsEntry;
use crate::pane::Pane;
use crate::path::{ancestors, join, shown_name};
use crate::tab::Tab;
use crate::text::{str_eq, trim, trim_char};
use crate::{path, tab, text};
use vstd::prelude::*;

verus! {

// ---------------------------------------------------------------------------
// Paths of the selection
// ---------------------------------------------------------------------------

/// The paths of the selected items of `t`.
pub open spec fn selected_paths_of(t: Tab) -> Seq<Seq<char>> {
    text::texts(t.selected@).map_values(|n: Seq<char>| path::joined_path(t.path@, n))
}

/// The paths of the selected items.
pub fn selected_paths(t: &Tab) -> (r: Vec<String>)
    ensures
        text::texts(r@) == selected_paths_of(*t),
{
    let mut r: Vec<String> = Vec::new();
    let mut i: usize = 0;
    while i < t.selected.len()
        invariant
            i <= t.selected.len(),
            r@.len() == i,
            forall|j: int|
                0 <= j < i ==> (#[trigger] r@[j])@ == path::joined_path(t.path@, t.selected@[j]@),
        decreases t.selected.len() - i,
    {
        r.push(join(t.path.as_str(), t.selected[i].as_str()));
        i = i + 1;
    }
    assert(text::texts(r@) =~= selected_paths_of(*t));
    r
}

/// Paths a right-click on `entry` should act on: the full multi-selection when
/// `entry` is already selected and more than one item is selected, otherwise
/// just `entry` itself.
pub fn context_menu_paths(t: &Tab, entry: &FsEntry, is_selected: bool) -> (r: Vec<String>)
    ensures
        text::texts(r@) == (if is_selected && t.selected@.len() > 1 {
            selected_paths_of(*t)
        } else {
            seq![entry.path@]
        }),
{
    if is_selected && t.selected.len() > 1 {
        selected_paths(t)
    } else {
        let mut r: Vec<String> = Vec::new();
        r.push(entry.path.clone());
        assert(text::texts(r@) =~= seq![entry.path@]);
        r
    }
}

// ---------------------------------------------------------------------------
// Clicks
// ---------------------------------------------------------------------------

/// What the pointer did to one entry in one frame.
#[derive(Debug, Clone, Copy, PartialEq, Eq, Structural)]
pub struct EntryInput {
    pub clicked: bool,
    pub double_clicked: bool,
    pub secondary_clicked: bool,
    pub drag_started: bool,
}

/// What the pointer asked for in a listing in one frame.
#[derive(Debug, PartialEq, Eq)]
pub struct ListingInput {
    /// The place of the entry that is to be selected.
    pub select: Option<usize>,
    /// The folder that is to be entered.
    pub enter: Option<String>,
    /// The files that are to be opened.
    pub open: Option<Vec<String>>,
    /// The place of the entry at which a drag began.
    pub drag: Option<usize>,
}

/// `r` opens `entry`: a folder is entered, a file is opened.
pub open spec fn opens(r: ListingInput, before: ListingInput, entry: FsEntry) -> bool {
    if entry.is_dir {
        r.enter == Some(entry.path) && r.open == before.open
    } else {
        &&& r.enter == before.enter
        &&& r.open matches Some(files)
        &&& text::texts(files@) == seq![entry.path@]
    }
}

impl ListingInput {
    /// Nothing was asked for.
    pub fn new() -> (r: Self)
        ensures
            r == (ListingInput { select: None, enter: None, open: None, drag: None }),
    {
        ListingInput { select: None, enter: None, open: None, drag: None }
    }

    fn open_entry(&mut self, entry: &FsEntry)
        ensures
            opens(*final(self), *old(self), *entry),
            final(self).select == old(self).select,
            final(self).drag == old(self).drag,
    {
        if entry.is_dir {
            self.enter = Some(entry.path.clone());
        } else {
            let mut files: Vec<String> = Vec::new();
            files.push(entry.path.clone());
            assert(text::texts(files@) =~= seq![entry.path@]);
            self.open = Some(files);
        }
    }

    /// Records a click on the entry at place `index`: a double click opens it,
    /// a single click selects it.
    pub fn register_entry_click(&mut self, input: EntryInput, entry: &FsEntry, index: usize)
        ensures
            final(self).drag == old(self).drag,
            input.double_clicked ==> opens(*final(self), *old(self), *entry)
                && final(self).select == old(self).select,
            !input.double_clicked ==> final(self).enter == old(self).enter && final(self).open
                == old(self).open,
            !input.double_clicked ==> final(self).select == (if input.clicked {
                Some(index)
            } else {
                old(self).select
            }),
    {
        if input.double_clicked {
            self.open_entry(entry);
        } else if input.clicked {
            self.select = Some(index);
        }
    }

    /// Records what happened to the entry at place `index`, and on a right-click
    /// of a not-yet-selected entry selects it first, so the context menu that
    /// follows acts on the entry that was actually right-clicked.
    pub fn handle_entry_response(
        &mut self,
        input: EntryInput,
        entry: &FsEntry,
        is_selected: bool,
        index: usize,
    )
        ensures
            final(self).drag == (if input.drag_started {
                Some(index)
            } else {
                old(self).drag
            }),
            input.double_clicked ==> opens(*final(self), *old(self), *entry),
            !input.double_clicked ==> final(self).enter == old(self).enter && final(self).open
                == old(self).open,
            final(self).select == (if (input.secondary_clicked && !is_selected) || (
            input.clicked && !input.double_clicked) {
                Some(index)
            } else {
                old(self).select
            }),
    {
        self.register_entry_click(input, entry, index);
        if input.secondary_clicked && !is_selected {
            self.select = Some(index);
        }
        if input.drag_started {
            self.drag = Some(index);
        }
    }

    /// Records what happened to the row at place `index` of the details view,
    /// where the first click of a double click selects the row as well.
    pub fn handle_row_response(
        &mut self,
        input: EntryInput,
        entry: &FsEntry,
        is_selected: bool,
        index: usize,
    )
        ensures
            final(self).drag == (if input.drag_started {
                Some(index)
            } else {
                old(self).drag
            }),
            input.double_clicked ==> opens(*final(self), *old(self), *entry),
            !input.double_clicked ==> final(self).enter == old(self).enter && final(self).open
                == old(self).open,
            final(self).select == (if input.clicked || (input.secondary_clicked && !is_selected) {
                Some(index)
            } else {
                old(self).select
            }),
    {
        if input.clicked {
            self.select = Some(index);
        }
        if input.double_clicked {
            self.open_entry(entry);
        }
        if input.secondary_clicked && !is_selected {
            self.select = Some(index);
        }
        if input.drag_started {
            self.drag = Some(index);
        }
    }
}

// ---------------------------------------------------------------------------
// Selecting
// ---------------------------------------------------------------------------

/// The names of the entries from place `a` to place `b`, in either direction.
pub open spec fn names_between(entries: Seq<FsEntry>, a: int, b: int) -> Set<Seq<char>> {
    let lo = if a <= b {
        a
    } else {
        b
    };
    let hi = if a <= b {
        b
    } else {
        a
    };
    entries.subrange(lo, hi + 1).map_values(|e: FsEntry| e.name@).to_set()
}

/// The names of the entries from place `lo` to place `hi`.
fn names_from_to(entries: &Vec<FsEntry>, lo: usize, hi: usize) -> (r: Vec<String>)
    requires
        lo <= hi < entries@.len(),
    ensures
        tab::name_set(r@) == names_between(entries@, lo as int, hi as int),
{
    let mut r: Vec<String> = Vec::new();
    let mut i: usize = lo;
    let ghost range = entries@.subrange(lo as int, hi + 1).map_values(|e: FsEntry| e.name@);
    while i <= hi
        invariant
            lo <= i <= hi + 1,
            hi < entries@.len(),
            entries@.len() == entries.len(),
            range == entries@.subrange(lo as int, hi + 1).map_values(|e: FsEntry| e.name@),
            r@.len() == i - lo,
            forall|j: int| 0 <= j < i - lo ==> (#[trigger] r@[j])@ == range[j],
        decreases hi + 1 - i,
    {
        r.push(entries[i].name.clone());
        assert(range[i - lo] == entries@[i as int].name@);
        i = i + 1;
    }
    assert(text::texts(r@) =~= range);
    r
}

fn select_between(t: &mut Tab, entries: &Vec<FsEntry>, a: usize, b: usize)
    requires
        old(t).wf(),
        a < entries@.len(),
        b < entries@.len(),
    ensures
        final(t).wf(),
        final(t).same_but_selection(*old(t)),
        final(t).selection() == names_between(entries@, a as int, b as int),
{
    let names = if a <= b {
        names_from_to(entries, a, b)
    } else {
        names_from_to(entries, b, a)
    };
    t.clear_selection();
    t.select_range(&names);
    assert(t.selection() =~= names_between(entries@, a as int, b as int));
}

/// The selection after a click on the entry at place `index`: Shift selects
/// everything from the anchor on, Ctrl adds or removes the entry, and a plain
/// click selects it alone.
pub open spec fn clicked_selection(
    before: Set<Seq<char>>,
    entries: Seq<FsEntry>,
    index: int,
    shift: bool,
    ctrl: bool,
    anchor: Option<usize>,
) -> Set<Seq<char>> {
    let name = entries[index].name@;
    if shift {
        names_between(
            entries,
            match anchor {
                Some(a) => a as int,
                None => index,
            },
            index,
        )
    } else if ctrl {
        if before.contains(name) {
            before.remove(name)
        } else {
            before.insert(name)
        }
    } else {
        set![name]
    }
}

/// Applies a click on the entry at place `index`, and returns the anchor for
/// the next Shift+click.
pub fn click_entry(
    t: &mut Tab,
    entries: &Vec<FsEntry>,
    index: usize,
    shift: bool,
    ctrl: bool,
    anchor: Option<usize>,
) -> (r: Option<usize>)
    requires
        old(t).wf(),
        index < entries@.len(),
        shift ==> (anchor matches Some(a) ==> a < entries@.len()),
    ensures
        final(t).wf(),
        final(t).same_but_selection(*old(t)),
        final(t).selection() == clicked_selection(
            old(t).selection(),
            entries@,
            index as int,
            shift,
            ctrl,
            anchor,
        ),
        r == Some(index),
{
    if shift {
        let a: usize = match anchor {
            Some(a) => a,
            None => index,
        };
        select_between(t, entries, a, index);
    } else if ctrl {
        t.toggle_select(entries[index].name.as_str());
    } else {
        t.select_only(entries[index].name.as_str());
    }
    Some(index)
}

/// The place of the first entry called `name`, at or after `from`.
pub open spec fn place_from(entries: Seq<FsEntry>, name: Seq<char>, from: int) -> Option<int>
    decreases entries.len() - from,
{
    if from >= entries.len() {
        None
    } else if entries[from].name@ == name {
        Some(from)
    } else {
        place_from(entries, name, from + 1)
    }
}

/// The place of the first entry called `name`.
fn find_name(entries: &Vec<FsEntry>, name: &str) -> (r: Option<usize>)
    ensures
        match r {
            Some(i) => i < entries@.len() && place_from(entries@, name@, 0) == Some(i as int),
            None => place_from(entries@, name@, 0) is None,
        },
{
    let mut i: usize = 0;
    while i < entries.len()
        invariant
            i <= entries.len(),
            place_from(entries@, name@, 0) == place_from(entries@, name@, i as int),
        decreases entries.len() - i,
    {
        if str_eq(entries[i].name.as_str(), name) {
            return Some(i);
        }
        i = i + 1;
    }
    None
}

/// The place of the first selected item of `t`.
pub open spec fn current_place(t: Tab, entries: Seq<FsEntry>) -> Option<int> {
    if t.selected@.len() == 0 {
        None
    } else {
        place_from(entries, t.selected@[0]@, 0)
    }
}

/// Where the Up and Down keys lead from the place `cur`.
pub open spec fn place_after(cur: Option<int>, len: int, down: bool) -> int {
    match cur {
        Some(i) => if down {
            if i + 1 < len {
                i + 1
            } else {
                len - 1
            }
        } else if i > 0 {
            i - 1
        } else {
            0
        },
        None => 0,
    }
}

/// The anchor from which Shift extends the selection with the keys.
pub open spec fn key_anchor(anchor: Option<usize>, cur: Option<int>, next: int) -> int {
    match anchor {
        Some(a) => a as int,
        None => match cur {
            Some(c) => c,
            None => next,
        },
    }
}

/// Applies the Up or Down key: it moves the selection by one entry, or with
/// Shift extends it from a fixed anchor. Returns the new anchor.
pub fn move_selection(
    t: &mut Tab,
    entries: &Vec<FsEntry>,
    down: bool,
    shift: bool,
    anchor: Option<usize>,
) -> (r: Option<usize>)
    requires
        old(t).wf(),
        entries@.len() > 0,
        shift ==> (anchor matches Some(a) ==> a < entries@.len()),
    ensures
        final(t).wf(),
        final(t).same_but_selection(*old(t)),
        ({
            let cur = current_place(*old(t), entries@);
            let next = place_after(cur, entries@.len() as int, down);
            if shift {
                let a = key_anchor(anchor, cur, next);
                &&& final(t).selection() == names_between(entries@, a, next)
                &&& r == Some(a as usize)
            } else {
                &&& final(t).selection() == set![entries@[next].name@]
                &&& r == Some(next as usize)
            }
        }),
{
    let cur: Option<usize> = if t.selected.len() == 0 {
        None
    } else {
        find_name(entries, t.selected[0].as_str())
    };
    let next: usize = match cur {
        Some(i) => if down {
            if i < entries.len() - 1 {
                i + 1
            } else {
                entries.len() - 1
            }
        } else if i > 0 {
            i - 1
        } else {
            0
        },
        None => 0,
    };
    if shift {
        let a: usize = match anchor {
            Some(a) => a,
            None => match cur {
                Some(c) => c,
                None => next,
            },
        };
        select_between(t, entries, a, next);
        Some(a)
    } else {
        t.select_only(entries[next].name.as_str());
        Some(next)
    }
}

/// The Down key goes through a listing from the top to the bottom and stays
/// there; the Up key goes back.
pub proof fn law_keys_stay_in_the_listing(i: int, len: int)
    requires
        0 <= i < len,
    ensures
        0 <= place_after(Some(i), len, true) < len,
        0 <= place_after(Some(i), len, false) < len,
        i + 1 < len ==> place_after(Some(place_after(Some(i), len, true)), len, false) == i,
{
}

/// The selection that Ctrl+A makes: everything that is shown, on top of what
/// was selected.
pub fn select_all_in_view(t: &mut Tab, entries: &Vec<FsEntry>) -> (r: Option<usize>)
    requires
        old(t).wf(),
    ensures
        final(t).wf(),
        entries@.len() == 0 ==> *final(t) == *old(t) && r is None,
        entries@.len() > 0 ==> final(t).same_but_selection(*old(t)) && r == Some(
            (entries@.len() - 1) as usize,
        ),
        entries@.len() > 0 ==> final(t).selection() == old(t).selection().union(
            names_between(entries@, 0, entries@.len() - 1),
        ),
{
    if entries.len() == 0 {
        return None;
    }
    let names = names_from_to(entries, 0, entries.len() - 1);
    t.select_all(&names);
    Some(entries.len() - 1)
}

/// Prepares a drag of the entry called `name`: it joins the selection by
/// replacing it, unless it is part of it. Returns the paths that are dragged.
pub fn begin_drag(t: &mut Tab, name: &str) -> (r: Vec<String>)
    requires
        old(t).wf(),
    ensures
        final(t).wf(),
        final(t).same_but_selection(*old(t)),
        old(t).selection().contains(name@) ==> *final(t) == *old(t),
        !old(t).selection().contains(name@) ==> final(t).selection() == set![name@],
        text::texts(r@) == selected_paths_of(*final(t)),
{
    if !t.is_selected(name) {
        t.select_only(name);
    }
    selected_paths(t)
}

// ---------------------------------------------------------------------------
// Opening
// ---------------------------------------------------------------------------

/// The paths of the selected folders, or of the selected files, in the order in
/// which they are shown.
pub open spec fn selected_entries(
    entries: Seq<FsEntry>,
    selection: Set<Seq<char>>,
    dirs: bool,
) -> Seq<Seq<char>>
    decreases entries.len(),
{
    if entries.len() == 0 {
        Seq::empty()
    } else {
        let before = selected_entries(entries.drop_last(), selection, dirs);
        let e = entries.last();
        if selection.contains(e.name@) && e.is_dir == dirs {
            before.push(e.path@)
        } else {
            before
        }
    }
}

/// What opening the selection amounts to.
#[derive(Debug, PartialEq, Eq)]
pub enum OpenTarget {
    Nothing,
    /// Go into this folder.
    Enter(String),
    /// Open these files.
    Files(Vec<String>),
}

/// `r` is what Enter does with the selection: one folder alone is entered, else
/// the selected files are opened.
pub open spec fn enter_opens(
    entries: Seq<FsEntry>,
    selection: Set<Seq<char>>,
    r: OpenTarget,
) -> bool {
    let dirs = selected_entries(entries, selection, true);
    let files = selected_entries(entries, selection, false);
    if dirs.len() == 1 && files.len() == 0 {
        r matches OpenTarget::Enter(p) && p@ == dirs[0]
    } else if files.len() > 0 {
        r matches OpenTarget::Files(out) && text::texts(out@) == files
    } else {
        r == OpenTarget::Nothing
    }
}

/// What the Enter key does: directories are navigated into; files are opened
/// with their default associated application.
pub fn enter_key(t: &Tab, entries: &Vec<FsEntry>) -> (r: OpenTarget)
    ensures
        enter_opens(entries@, t.selection(), r),
{
    let mut dirs: Vec<String> = Vec::new();
    let mut files: Vec<String> = Vec::new();
    let mut i: usize = 0;
    let ghost sel = t.selection();
    assert(entries@.subrange(0, 0) =~= Seq::<FsEntry>::empty());
    assert(text::texts(dirs@) =~= Seq::<Seq<char>>::empty());
    assert(text::texts(files@) =~= Seq::<Seq<char>>::empty());
    while i < entries.len()
        invariant
            i <= entries.len(),
            sel == t.selection(),
            text::texts(dirs@) == selected_entries(entries@.subrange(0, i as int), sel, true),
            text::texts(files@) == selected_entries(entries@.subrange(0, i as int), sel, false),
        decreases entries.len() - i,
    {
        let e = &entries[i];
        proof {
            let upto = entries@.subrange(0, i + 1);
            assert(upto.drop_last() =~= entries@.subrange(0, i as int));
            assert(upto.last() == *e);
        }
        if t.is_selected(e.name.as_str()) {
            if e.is_dir {
                let ghost was = text::texts(dirs@);
                dirs.push(e.path.clone());
                assert(text::texts(dirs@) =~= was.push(e.path@));
            } else {
                let ghost was = text::texts(files@);
                files.push(e.path.clone());
                assert(text::texts(files@) =~= was.push(e.path@));
            }
        }
        i = i + 1;
    }
    assert(entries@.subrange(0, entries@.len() as int) =~= entries@);
    if dirs.len() == 1 && files.len() == 0 {
        assert(text::texts(dirs@)[0] == dirs@[0]@);
        OpenTarget::Enter(dirs[0].clone())
    } else if files.len() > 0 {
        OpenTarget::Files(files)
    } else {
        OpenTarget::Nothing
    }
}

/// The first entry of the selection, at or after `from`.
pub open spec fn first_selected(
    entries: Seq<FsEntry>,
    selection: Set<Seq<char>>,
    from: int,
) -> Option<FsEntry>
    decreases entries.len() - from,
{
    if from >= entries.len() {
        None
    } else if selection.contains(entries[from].name@) {
        Some(entries[from])
    } else {
        first_selected(entries, selection, from + 1)
    }
}

/// What the Right key does: it enters the selected folder where nothing else is
/// selected.
pub fn right_key(t: &Tab, entries: &Vec<FsEntry>) -> (r: Option<String>)
    ensures
        match first_selected(entries@, t.selection(), 0) {
            Some(e) => if t.selected@.len() == 1 && e.is_dir {
                r == Some(e.path)
            } else {
                r is None
            },
            None => r is None,
        },
{
    if t.selected.len() != 1 {
        return None;
    }
    let mut i: usize = 0;
    while i < entries.len()
        invariant
            i <= entries.len(),
            t.selected@.len() == 1,
            first_selected(entries@, t.selection(), 0) == first_selected(
                entries@,
                t.selection(),
                i as int,
            ),
        decreases entries.len() - i,
    {
        if t.is_selected(entries[i].name.as_str()) {
            return if entries[i].is_dir {
                Some(entries[i].path.clone())
            } else {
                None
            };
        }
        i = i + 1;
    }
    None
}

/// What entering the folder `target` does to a pane: a pinned tab never moves,
/// so the folder opens in a new tab right beside it, sorted as new tabs are.
pub open spec fn entered(
    after: Pane,
    before: Pane,
    target: Seq<char>,
    sort_col: Seq<char>,
    sort_asc: bool,
) -> bool {
    if before.active().locked {
        &&& after.same_address(before)
        &&& after.active_tab == before.active_tab + 1
        &&& after.tabs@.len() == before.tabs@.len() + 1
        &&& after.tabs@.remove(before.active_tab + 1) == before.tabs@
        &&& opened_tab(after.active(), target, sort_col, sort_asc)
    } else {
        &&& after.same_address(before)
        &&& after.active_tab == before.active_tab
        &&& after.tabs@ == before.tabs@.update(before.active_tab as int, after.active())
        &&& after.active().moved(before.active(), before.active().trail().to(target))
    }
}

/// `t` is a new tab at `p` that is sorted as given.
pub open spec fn opened_tab(t: Tab, p: Seq<char>, sort_col: Seq<char>, sort_asc: bool) -> bool {
    &&& t.wf()
    &&& t.sort_col@ == sort_col
    &&& t.sort_asc == sort_asc
    &&& exists|fresh: Tab| #[trigger]
        fresh.fresh(p) && t == (Tab { sort_col: t.sort_col, sort_asc: t.sort_asc, ..fresh })
}

/// A new tab at `p` that is sorted as given.
pub fn sorted_tab(p: String, sort_col: &str, sort_asc: bool) -> (r: Tab)
    ensures
        opened_tab(r, p@, sort_col@, sort_asc),
        r.path == p,
{
    let mut t = Tab::new(p);
    let ghost fresh = t;
    t.sort_col = sort_col.to_owned();
    t.sort_asc = sort_asc;
    assert(fresh.fresh(p@));
    t
}

/// Enters the folder `target`.
pub fn enter_folder(pane: &mut Pane, target: String, sort_col: &str, sort_asc: bool)
    requires
        old(pane).wf(),
    ensures
        final(pane).wf(),
        entered(*final(pane), *old(pane), target@, sort_col@, sort_asc),
{
    if pane.active_tab().locked {
        let t = sorted_tab(target, sort_col, sort_asc);
        let ghost before = pane.tabs@;
        pane.insert_beside_active(t);
        assert(pane.tabs@.remove(old(pane).active_tab + 1) =~= before);
    } else {
        let ghost before = pane.tabs@;
        let moved: bool = pane.active_tab_mut().try_navigate(target);
        assert(pane.tabs@ =~= before.update(pane.active_tab as int, pane.active()));
    }
}

// ---------------------------------------------------------------------------
// The address bar
// ---------------------------------------------------------------------------

/// The path that is meant by what was typed: blanks around it are left out, and
/// so are the quotation marks that come with a copied path.
pub open spec fn typed_path_of(raw: Seq<char>) -> Seq<char> {
    text::trimmed(
        text::strip_trailing(text::strip_leading(text::trimmed(raw), '"'), '"'),
    )
}

/// The path that is meant by what was typed into the address bar.
pub fn typed_path(raw: &str) -> (r: String)
    ensures
        r@ == typed_path_of(raw@),
{
    trim(trim_char(trim(raw).as_str(), '"').as_str())
}

/// One segment of the breadcrumb trail.
#[derive(Debug, PartialEq, Eq)]
pub struct Crumb {
    pub label: String,
    pub path: String,
}

/// The breadcrumb trail of `p`: each ancestor from the root down to `p` itself,
/// with what it is called on screen.
pub open spec fn crumbs_of(p: Seq<char>) -> Seq<(Seq<char>, Seq<char>)> {
    path::ancestors_of(p).reverse().map_values(|a: Seq<char>| (path::shown_name_of(a), a))
}

/// Label and path of each of `crumbs`.
pub open spec fn crumb_views(crumbs: Seq<Crumb>) -> Seq<(Seq<char>, Seq<char>)> {
    crumbs.map_values(|c: Crumb| (c.label@, c.path@))
}

/// Builds the breadcrumb trail for `p`.
pub fn path_breadcrumbs(p: &str) -> (r: Vec<Crumb>)
    ensures
        crumb_views(r@) == crumbs_of(p@),
        r@.len() >= 1,
{
    let chain = ancestors(p);
    let ghost all = text::texts(chain@);
    let mut r: Vec<Crumb> = Vec::new();
    let mut i: usize = chain.len();
    while i > 0
        invariant
            i <= chain.len(),
            all == text::texts(chain@),
            r@.len() == all.len() - i,
            forall|j: int|
                0 <= j < r@.len() ==> (#[trigger] r@[j]).path@ == all.reverse()[j]
                    && r@[j].label@ == path::shown_name_of(all.reverse()[j]),
        decreases i,
    {
        i = i - 1;
        let anc = chain[i].as_str();
        assert(all.reverse()[all.len() - 1 - i] == anc@);
        r.push(Crumb { label: shown_name(anc), path: chain[i].clone() });
    }
    assert(crumb_views(r@) =~= crumbs_of(p@));
    r
}

/// The trail ends at the path itself, and every segment but the first is found
/// in the one in front of it.
pub proof fn law_crumbs_lead_down(p: Seq<char>)
    ensures
        crumbs_of(p).len() >= 1,
        crumbs_of(p).last().1 == p,
        forall|i: int|
            0 <= i < crumbs_of(p).len() - 1 ==> path::parent_of(
                (#[trigger] crumbs_of(p)[i + 1]).1,
            ) == Some(crumbs_of(p)[i].1),
{
    lemma_ancestors(p);
    let chain = path::ancestors_of(p);
    let crumbs = crumbs_of(p);
    assert forall|i: int| 0 <= i < crumbs.len() - 1 implies path::parent_of(
        (#[trigger] crumbs[i + 1]).1,
    ) == Some(crumbs[i].1) by {
        let k = chain.len() - 2 - i;
        assert(crumbs[i + 1].1 == chain[k]);
        assert(crumbs[i].1 == chain[k + 1]);
    }
}

proof fn lemma_ancestors(p: Seq<char>)
    ensures
        path::ancestors_of(p).len() >= 1,
        path::ancestors_of(p)[0] == p,
        forall|k: int|
            0 <= k < path::ancestors_of(p).len() - 1 ==> path::parent_of(
                #[trigger] path::ancestors_of(p)[k],
            ) == Some(path::ancestors_of(p)[k + 1]),
    decreases p.len(),
{
    path::lemma_parent_shorter(p);
    let chain = path::ancestors_of(p);
    if let Some(q) = path::parent_of(p) {
        lemma_ancestors(q);
        let rest = path::ancestors_of(q);
        assert(chain =~= seq![p] + rest);
        assert forall|k: int| 0 <= k < chain.len() - 1 implies path::parent_of(
            #[trigger] chain[k],
        ) == Some(chain[k + 1]) by {
            if k > 0 {
                assert(chain[k] == rest[k - 1]);
                assert(chain[k + 1] == rest[k]);
            } else {
                assert(chain[1] == rest[0]);
            }
        }
    }
}

// ---------------------------------------------------------------------------
// What clicks and keys do
// ---------------------------------------------------------------------------

pub(crate) proof fn lemma_names_between(entries: Seq<FsEntry>, a: int, b: int, q: Seq<char>)
    requires
        0 <= a < entries.len(),
        0 <= b < entries.len(),
    ensures
        names_between(entries, a, b).contains(q) <==> exists|i: int|
            0 <= i < entries.len() && (a <= i <= b || b <= i <= a) && (#[trigger] entries[i]).name@
                == q,
{
    let lo = if a <= b {
        a
    } else {
        b
    };
    let hi = if a <= b {
        b
    } else {
        a
    };
    let some = entries.subrange(lo, hi + 1);
    let names = some.map_values(|e: FsEntry| e.name@);
    if names_between(entries, a, b).contains(q) {
        assert(names.contains(q));
        let k = choose|k: int| 0 <= k < names.len() && names[k] == q;
        assert(entries[lo + k].name@ == q);
    }
    if exists|i: int|
        0 <= i < entries.len() && (a <= i <= b || b <= i <= a) && (#[trigger] entries[i]).name@
            == q {
        let i = choose|i: int|
            0 <= i < entries.len() && (a <= i <= b || b <= i <= a) && (#[trigger] entries[i]).name@
                == q;
        assert(names[i - lo] == q);
        assert(names.contains(q));
    }
}

/// A plain click selects the clicked entry alone. With Ctrl it adds the entry to
/// the selection or takes it out, and leaves the others. With Shift it selects
/// exactly the entries from the anchor to the clicked one, both among them, in
/// either direction. Nothing but the selection changes, and the clicked entry is
/// the next anchor.
pub proof fn law_clicks_select()
    ensures
        forall|
            t: &mut Tab,
            entries: &Vec<FsEntry>,
            index: usize,
            shift: bool,
            ctrl: bool,
            anchor: Option<usize>,
            r: Option<usize>,
            q: Seq<char>,
        |
            #![trigger call_ensures(click_entry, (t, entries, index, shift, ctrl, anchor), r), final(t).selection().contains(q)]
            call_ensures(click_entry, (t, entries, index, shift, ctrl, anchor), r) && index
                < entries@.len() && (anchor is Some ==> anchor->0 < entries@.len()) ==> {
                &&& !shift && !ctrl ==> (final(t).selection().contains(q) <==> q
                    == entries@[index as int].name@)
                &&& !shift && ctrl && q == entries@[index as int].name@ ==> (final(
                    t
                ).selection().contains(q) <==> !t.selection().contains(q))
                &&& !shift && ctrl && q != entries@[index as int].name@ ==> (final(
                    t
                ).selection().contains(q) <==> t.selection().contains(q))
                &&& shift ==> (final(t).selection().contains(q) <==> exists|i: int|
                    0 <= i < entries@.len() && (match anchor {
                        Some(a) => a <= i <= index || index <= i <= a,
                        None => i == index,
                    }) && (#[trigger] entries@[i]).name@ == q)
                &&& r == Some(index)
                &&& final(t).path == t.path && final(t).filter == t.filter
                &&& final(t).listing == t.listing && final(t).listing_dirty == t.listing_dirty
            },
{
    assert forall|
        t: &mut Tab,
        entries: &Vec<FsEntry>,
        index: usize,
        shift: bool,
        ctrl: bool,
        anchor: Option<usize>,
        r: Option<usize>,
        q: Seq<char>,
    |
        #![trigger call_ensures(click_entry, (t, entries, index, shift, ctrl, anchor), r), final(t).selection().contains(q)]
        call_ensures(click_entry, (t, entries, index, shift, ctrl, anchor), r) && index
            < entries@.len() && (anchor is Some ==> anchor->0 < entries@.len()) && shift implies (
    final(t).selection().contains(q) <==> exists|i: int|
        0 <= i < entries@.len() && (match anchor {
            Some(a) => a <= i <= index || index <= i <= a,
            None => i == index,
        }) && (#[trigger] entries@[i]).name@ == q) by {
        let from = match anchor {
            Some(a) => a as int,
            None => index as int,
        };
        lemma_names_between(entries@, from, index as int, q);
    }
}

proof fn lemma_place_from(entries: Seq<FsEntry>, name: Seq<char>, from: int)
    requires
        0 <= from,
    ensures
        match place_from(entries, name, from) {
            Some(i) => from <= i < entries.len() && entries[i].name@ == name && forall|j: int|
                from <= j < i ==> (#[trigger] entries[j]).name@ != name,
            None => forall|j: int|
                from <= j < entries.len() ==> (#[trigger] entries[j]).name@ != name,
        },
    decreases entries.len() - from,
{
    if from < entries.len() && entries[from].name@ != name {
        lemma_place_from(entries, name, from + 1);
    }
}

/// The Down key selects the entry below the first selected one, the Up key the
/// one above it, and each stays where there is none. Where nothing is selected,
/// the first entry is. With Shift everything from the anchor to that entry is
/// selected, and the anchor stays.
pub proof fn law_keys_move_by_one()
    ensures
        forall|
            t: &mut Tab,
            entries: &Vec<FsEntry>,
            down: bool,
            anchor: Option<usize>,
            r: Option<usize>,
            i: int,
            q: Seq<char>,
        |
            #![trigger call_ensures(move_selection, (t, entries, down, false, anchor), r), final(t).selection().contains(q), entries@[i]]
            call_ensures(move_selection, (t, entries, down, false, anchor), r) && 0 <= i
                < entries@.len() && t.selected@.len() > 0 && entries@[i].name@ == t.selected@[0]@
                && (forall|j: int| 0 <= j < i ==> (#[trigger] entries@[j]).name@ != t.selected@[0]@)
                ==> {
                &&& down && i + 1 < entries@.len() ==> (final(t).selection().contains(q) <==> q
                    == entries@[i + 1].name@)
                &&& down && i + 1 == entries@.len() ==> (final(t).selection().contains(q) <==> q
                    == entries@[i].name@)
                &&& !down && i > 0 ==> (final(t).selection().contains(q) <==> q
                    == entries@[i - 1].name@)
                &&& !down && i == 0 ==> (final(t).selection().contains(q) <==> q
                    == entries@[i].name@)
            },
        forall|
            t: &mut Tab,
            entries: &Vec<FsEntry>,
            down: bool,
            anchor: Option<usize>,
            r: Option<usize>,
        | #[trigger]
            call_ensures(move_selection, (t, entries, down, false, anchor), r)
                && t.selected@.len() == 0 && entries@.len() > 0 ==> final(t).selection() == set![
                entries@[0].name@
            ] && r == Some(0usize),
        forall|
            t: &mut Tab,
            entries: &Vec<FsEntry>,
            down: bool,
            a: usize,
            r: Option<usize>,
        | #[trigger]
            call_ensures(move_selection, (t, entries, down, true, Some(a)), r) ==> r == Some(a),
{
    assert forall|s: Seq<FsEntry>, name: Seq<char>|
        match #[trigger] place_from(s, name, 0) {
            Some(i) => 0 <= i < s.len() && s[i].name@ == name && forall|j: int|
                0 <= j < i ==> (#[trigger] s[j]).name@ != name,
            None => forall|j: int| 0 <= j < s.len() ==> (#[trigger] s[j]).name@ != name,
        } by {
        lemma_place_from(s, name, 0);
    }
}

/// Selecting everything in view adds every entry that is shown to the selection,
/// and takes nothing out.
pub proof fn law_select_all_takes_everything_in_view()
    ensures
        forall|t: &mut Tab, entries: &Vec<FsEntry>, r: Option<usize>, q: Seq<char>|
            #![trigger call_ensures(select_all_in_view, (t, entries), r), final(t).selection().contains(q)]
            call_ensures(select_all_in_view, (t, entries), r) ==> (final(t).selection().contains(q)
                <==> t.selection().contains(q) || exists|i: int|
                0 <= i < entries@.len() && (#[trigger] entries@[i]).name@ == q),
{
    assert forall|t: &mut Tab, entries: &Vec<FsEntry>, r: Option<usize>, q: Seq<char>|
        #![trigger call_ensures(select_all_in_view, (t, entries), r), final(t).selection().contains(q)]
        call_ensures(select_all_in_view, (t, entries), r) implies (final(t).selection().contains(q)
        <==> t.selection().contains(q) || exists|i: int|
        0 <= i < entries@.len() && (#[trigger] entries@[i]).name@ == q) by {
        if entries@.len() > 0 {
            lemma_names_between(entries@, 0, entries@.len() - 1, q);
        }
    }
}

proof fn lemma_selected_entries(
    entries: Seq<FsEntry>,
    selection: Set<Seq<char>>,
    dirs: bool,
    p: spec_fn(FsEntry) -> bool,
)
    requires
        forall|e: FsEntry| #[trigger] p(e) == (selection.contains(e.name@) && e.is_dir == dirs),
    ensures
        selected_entries(entries, selection, dirs) == entries.filter(p).map_values(
            |e: FsEntry| e.path@,
        ),
    decreases entries.len(),
{
    reveal(Seq::filter);
    if entries.len() > 0 {
        lemma_selected_entries(entries.drop_last(), selection, dirs, p);
        assert(selected_entries(entries, selection, dirs) =~= entries.filter(p).map_values(
            |e: FsEntry| e.path@,
        ));
    } else {
        assert(entries.filter(p).map_values(|e: FsEntry| e.path@) =~= Seq::<Seq<char>>::empty());
    }
}

/// The Enter key goes into a folder where it alone is selected. Else it opens
/// every selected file, in the order in which they are shown, and nothing else.
pub proof fn law_enter_opens_the_selection(t: &Tab, entries: &Vec<FsEntry>, r: OpenTarget)
    requires
        call_ensures(enter_key, (t, entries), r),
    ensures
        ({
            let dirs = entries@.filter(
                |e: FsEntry| t.selection().contains(e.name@) && e.is_dir,
            );
            let files = entries@.filter(
                |e: FsEntry| t.selection().contains(e.name@) && !e.is_dir,
            );
            &&& dirs.len() == 1 && files.len() == 0 <==> r is Enter
            &&& r is Enter ==> r->Enter_0@ == dirs[0].path@
            &&& files.len() > 0 <==> r is Files
            &&& r is Files ==> text::texts(r->Files_0@) == files.map_values(
                |e: FsEntry| e.path@,
            )
        }),
{
    lemma_selected_entries(
        entries@,
        t.selection(),
        true,
        |e: FsEntry| t.selection().contains(e.name@) && e.is_dir,
    );
    lemma_selected_entries(
        entries@,
        t.selection(),
        false,
        |e: FsEntry| t.selection().contains(e.name@) && !e.is_dir,
    );
}

/// The paths of the selection are those of the selected names in the folder of
/// the tab, in their order. A drag takes along the whole selection where it
/// starts on a part of it, and else the entry alone.
pub proof fn law_the_selection_is_acted_on(t: &Tab)
    ensures
        forall|r: Vec<String>, i: int|
            #![trigger call_ensures(selected_paths, (t,), r), r@[i]]
            call_ensures(selected_paths, (t,), r) ==> r@.len() == t.selected@.len() && (0 <= i
                < r@.len() ==> r@[i]@ == path::joined_path(t.path@, t.selected@[i]@)),
        forall|u: &mut Tab, name: &str, r: Vec<String>| #[trigger]
            call_ensures(begin_drag, (u, name), r) ==> {
                &&& u.selection().contains(name@) ==> *final(u) == *u
                &&& !u.selection().contains(name@) ==> final(u).selection() == set![name@]
                &&& r@.len() == final(u).selected@.len()
                &&& forall|i: int|
                    0 <= i < r@.len() ==> (#[trigger] r@[i])@ == path::joined_path(
                        final(u).path@,
                        final(u).selected@[i]@,
                    )
            },
{
    assert forall|r: Vec<String>, i: int|
        #![trigger call_ensures(selected_paths, (t,), r), r@[i]]
        call_ensures(selected_paths, (t,), r) implies r@.len() == t.selected@.len() && (0 <= i
        < r@.len() ==> r@[i]@ == path::joined_path(t.path@, t.selected@[i]@)) by {
        assert(text::texts(r@).len() == r@.len());
        if 0 <= i < r@.len() {
            assert(text::texts(r@)[i] == r@[i]@);
        }
    }
    assert forall|u: &mut Tab, name: &str, r: Vec<String>| #[trigger]
        call_ensures(begin_drag, (u, name), r) implies {
        &&& r@.len() == final(u).selected@.len()
        &&& forall|i: int|
            0 <= i < r@.len() ==> (#[trigger] r@[i])@ == path::joined_path(
                final(u).path@,
                final(u).selected@[i]@,
            )
    } by {
        assert(text::texts(r@).len() == r@.len());
        assert forall|i: int| 0 <= i < r@.len() implies (#[trigger] r@[i])@ == path::joined_path(
            final(u).path@,
            final(u).selected@[i]@,
        ) by {
            assert(text::texts(r@)[i] == r@[i]@);
        }
    }
}

/// A menu acts on the whole selection where it was opened on one of several
/// selected entries, and else on that entry alone.
pub proof fn law_a_menu_acts_on_the_selection(
    t: &Tab,
    entry: &FsEntry,
    selected: bool,
    r: Vec<String>,
)
    requires
        call_ensures(context_menu_paths, (t, entry, selected), r),
    ensures
        selected && t.selected@.len() > 1 ==> r@.len() == t.selected@.len() && forall|i: int|
            0 <= i < r@.len() ==> (#[trigger] r@[i])@ == path::joined_path(
                t.path@,
                t.selected@[i]@,
            ),
        !(selected && t.selected@.len() > 1) ==> r@.len() == 1 && r@[0]@ == entry.path@,
{
    assert(text::texts(r@).len() == r@.len());
    assert forall|i: int| 0 <= i < r@.len() implies text::texts(r@)[i] == (#[trigger] r@[i])@ by {
    }
}

/// A double click goes into a folder and opens a file, and neither does anything
/// to what another click asked for.
pub proof fn law_a_double_click_opens()
    ensures
        forall|l: &mut ListingInput, input: EntryInput, e: &FsEntry, sel: bool, i: usize|
            #![trigger call_ensures(ListingInput::handle_entry_response, (l, input, e, sel, i), ())]
            #![trigger call_ensures(ListingInput::handle_row_response, (l, input, e, sel, i), ())]
            call_ensures(ListingInput::handle_entry_response, (l, input, e, sel, i), ())
                || call_ensures(ListingInput::handle_row_response, (l, input, e, sel, i), ()) ==> {
                &&& input.double_clicked && e.is_dir ==> final(l).enter is Some && final(
                    l
                ).enter->0@ == e.path@ && final(l).open == l.open
                &&& input.double_clicked && !e.is_dir ==> final(l).open is Some && text::texts(
                    final(l).open->0@,
                ) == seq![e.path@] && final(l).enter == l.enter
                &&& !input.double_clicked ==> final(l).enter == l.enter && final(l).open == l.open
            },
{
}

/// Going into a folder moves the active tab there. Where that tab is pinned it
/// stays, and a new tab right behind it shows the folder. No other tab changes.
pub proof fn law_entering_respects_the_pin()
    ensures
        forall|pane: &mut Pane, target: String, col: &str, asc: bool| #[trigger]
            call_ensures(enter_folder, (pane, target, col, asc), ()) && pane.wf() ==> {
                &&& final(pane).active().path@ == target@
                &&& pane.active().locked ==> {
                    &&& final(pane).tabs@.len() == pane.tabs@.len() + 1
                    &&& final(pane).active_tab == pane.active_tab + 1
                    &&& forall|i: int|
                        0 <= i <= pane.active_tab ==> #[trigger] final(pane).tabs@[i]
                            == pane.tabs@[i]
                    &&& forall|i: int|
                        pane.active_tab + 1 < i < final(pane).tabs@.len() ==> #[trigger] final(
                            pane
                        ).tabs@[i] == pane.tabs@[i - 1]
                }
                &&& !pane.active().locked ==> {
                    &&& final(pane).tabs@.len() == pane.tabs@.len()
                    &&& final(pane).active_tab == pane.active_tab
                    &&& forall|i: int|
                        0 <= i < pane.tabs@.len() && i != pane.active_tab ==> #[trigger] final(
                            pane
                        ).tabs@[i] == pane.tabs@[i]
                    &&& text::texts(final(pane).active().history_back@) == text::texts(
                        pane.active().history_back@,
                    ).push(pane.active().path@)
                }
            },
{
    assert forall|pane: &mut Pane, target: String, col: &str, asc: bool| #[trigger]
        call_ensures(enter_folder, (pane, target, col, asc), ()) && pane.wf()
            && pane.active().locked implies {
        &&& forall|i: int|
            0 <= i <= pane.active_tab ==> #[trigger] final(pane).tabs@[i] == pane.tabs@[i]
        &&& forall|i: int|
            pane.active_tab + 1 < i < final(pane).tabs@.len() ==> #[trigger] final(pane).tabs@[i]
                == pane.tabs@[i - 1]
    } by {
        let now = final(pane).tabs@;
        let at = pane.active_tab + 1;
        assert forall|i: int| 0 <= i <= pane.active_tab implies #[trigger] now[i]
            == pane.tabs@[i] by {
            assert(now.remove(at)[i] == now[i]);
        }
        assert forall|i: int| at < i < now.len() implies #[trigger] now[i] == pane.tabs@[i - 1] by {
            assert(now.remove(at)[i - 1] == now[i]);
        }
    }
}

/// The right arrow goes into the folder that is selected alone, and into nothing
/// else.
pub proof fn law_right_enters_one_folder(t: &Tab, entries: &Vec<FsEntry>, r: Option<String>, k: int)
    requires
        call_ensures(right_key, (t, entries), r),
        0 <= k < entries@.len(),
        t.selection().contains(entries@[k].name@),
        forall|j: int| 0 <= j < k ==> !t.selection().contains((#[trigger] entries@[j]).name@),
    ensures
        r is Some <==> t.selected@.len() == 1 && entries@[k].is_dir,
        r is Some ==> r->0 == entries@[k].path,
{
    lemma_first_selected(entries@, t.selection(), 0, k);
}

proof fn lemma_first_selected(
    entries: Seq<FsEntry>,
    selection: Set<Seq<char>>,
    from: int,
    k: int,
)
    requires
        0 <= from <= k < entries.len(),
        selection.contains(entries[k].name@),
        forall|j: int| from <= j < k ==> !selection.contains((#[trigger] entries[j]).name@),
    ensures
        first_selected(entries, selection, from) == Some(entries[k]),
    decreases k - from,
{
    if from < k {
        assert(!selection.contains(entries[from].name@));
        lemma_first_selected(entries, selection, from + 1, k);
    }
}

/// The crumbs of a path lead from its root down to it, each to the folder right
/// above the next, and each is called by that folder's name.
pub proof fn law_every_folder_above_has_a_crumb(p: &str, r: Vec<Crumb>, i: int)
    requires
        call_ensures(path_breadcrumbs, (p,), r),
        0 <= i < r@.len(),
    ensures
        r@.last().path@ == p@,
        path::parent_of(r@[0].path@) is None,
        i + 1 < r@.len() ==> path::parent_of(r@[i + 1].path@) == Some(r@[i].path@),
        path::file_name_of(r@[i].path@) is Some ==> r@[i].label@ == path::file_name_of(
            r@[i].path@,
        )->0,
        path::file_name_of(r@[i].path@) is None ==> r@[i].label@ == r@[i].path@,
{
    law_crumbs_lead_down(p@);
    crate::path_laws::lemma_ancestors(p@);
    let v = crumb_views(r@);
    let c = crumbs_of(p@);
    let up = path::ancestors_of(p@);
    assert(v == c);
    assert(v.last() == (r@.last().label@, r@.last().path@));
    assert(v[0] == (r@[0].label@, r@[0].path@));
    assert(v[i] == (r@[i].label@, r@[i].path@));
    assert(c[0].1 == up.last());
    assert(c[i] == (path::shown_name_of(c[i].1), c[i].1));
    if i + 1 < r@.len() {
        assert(v[i + 1] == (r@[i + 1].label@, r@[i + 1].path@));
        assert(path::parent_of(c[i + 1].1) == Some(c[i].1));
    }
}

} // verus!
