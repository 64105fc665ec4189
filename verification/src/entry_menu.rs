//! The menu of an entry: its own choices, and those of the shell.

use crate::app_dispatch::RowAction;
use crate::archive::is_archive;
use crate::path::is_same_path;
use crate::shell_menu::ShellMenuItem;
use crate::text::position_of;
use crate::{archive, path, text};
use vstd::prelude::*;

verus! {

/// A choice in the menu of an entry.
#[derive(Debug, Clone, Copy, PartialEq, Eq, Structural)]
pub enum EntryChoice {
    Copy,
    Cut,
    Paste,
    Rename,
    Delete,
    NewFolder,
    NewFile,
    ExtractHere,
    ExtractTo,
    CopyFilename,
    CopyFolderPath,
    OpenWith,
    Properties,
    AddToFavourites,
}

impl EntryChoice {
    /// The text of a choice.
    pub open spec fn text(self) -> Seq<char> {
        match self {
            EntryChoice::Copy => "Copy"@,
            EntryChoice::Cut => "Cut"@,
            EntryChoice::Paste => "Paste"@,
            EntryChoice::Rename => "Rename"@,
            EntryChoice::Delete => "Delete"@,
            EntryChoice::NewFolder => "New Folder"@,
            EntryChoice::NewFile => "New File"@,
            EntryChoice::ExtractHere => "Extract Here"@,
            EntryChoice::ExtractTo => "Extract to..."@,
            EntryChoice::CopyFilename => "Copy Filename"@,
            EntryChoice::CopyFolderPath => "Copy Folder Path"@,
            EntryChoice::OpenWith => "Open With..."@,
            EntryChoice::Properties => "Properties"@,
            EntryChoice::AddToFavourites => "★ Add to Favourites"@,
        }
    }

    /// The text of a choice.
    pub fn label(self) -> (r: &'static str)
        ensures
            r@ == self.text(),
    {
        match self {
            EntryChoice::Copy => "Copy",
            EntryChoice::Cut => "Cut",
            EntryChoice::Paste => "Paste",
            EntryChoice::Rename => "Rename",
            EntryChoice::Delete => "Delete",
            EntryChoice::NewFolder => "New Folder",
            EntryChoice::NewFile => "New File",
            EntryChoice::ExtractHere => "Extract Here",
            EntryChoice::ExtractTo => "Extract to...",
            EntryChoice::CopyFilename => "Copy Filename",
            EntryChoice::CopyFolderPath => "Copy Folder Path",
            EntryChoice::OpenWith => "Open With...",
            EntryChoice::Properties => "Properties",
            EntryChoice::AddToFavourites => "★ Add to Favourites",
        }
    }

    /// What a choice does to the entry at `p`.
    pub fn action(self, p: String) -> (r: RowAction)
        ensures
            r == (match self {
                EntryChoice::Copy => RowAction::Copy,
                EntryChoice::Cut => RowAction::Cut,
                EntryChoice::Paste => RowAction::Paste,
                EntryChoice::Rename => RowAction::Rename,
                EntryChoice::Delete => RowAction::Delete,
                EntryChoice::NewFolder => RowAction::NewFolder,
                EntryChoice::NewFile => RowAction::NewFile,
                EntryChoice::ExtractHere => RowAction::ExtractHere,
                EntryChoice::ExtractTo => RowAction::ExtractTo,
                EntryChoice::CopyFilename => RowAction::CopyName,
                EntryChoice::CopyFolderPath => RowAction::CopyFolderPath,
                EntryChoice::OpenWith => RowAction::OpenWith(p),
                EntryChoice::Properties => RowAction::Properties(p),
                EntryChoice::AddToFavourites => RowAction::FavouriteFolder(p),
            }),
    {
        match self {
            EntryChoice::Copy => RowAction::Copy,
            EntryChoice::Cut => RowAction::Cut,
            EntryChoice::Paste => RowAction::Paste,
            EntryChoice::Rename => RowAction::Rename,
            EntryChoice::Delete => RowAction::Delete,
            EntryChoice::NewFolder => RowAction::NewFolder,
            EntryChoice::NewFile => RowAction::NewFile,
            EntryChoice::ExtractHere => RowAction::ExtractHere,
            EntryChoice::ExtractTo => RowAction::ExtractTo,
            EntryChoice::CopyFilename => RowAction::CopyName,
            EntryChoice::CopyFolderPath => RowAction::CopyFolderPath,
            EntryChoice::OpenWith => RowAction::OpenWith(p),
            EntryChoice::Properties => RowAction::Properties(p),
            EntryChoice::AddToFavourites => RowAction::FavouriteFolder(p),
        }
    }
}

/// The choices for every entry, in groups.
pub open spec fn common_choices() -> Seq<Seq<EntryChoice>> {
    seq![
        seq![EntryChoice::Copy, EntryChoice::Cut, EntryChoice::Paste],
        seq![EntryChoice::Rename, EntryChoice::Delete],
        seq![EntryChoice::NewFolder, EntryChoice::NewFile],
    ]
}

/// The groups of choices for the entry at `p`: archives can be unpacked, and
/// folders can be favourites.
pub open spec fn choices_for(p: Seq<char>, is_dir: bool) -> Seq<Seq<EntryChoice>> {
    let unpack = if archive::names_archive(p) {
        seq![seq![EntryChoice::ExtractHere, EntryChoice::ExtractTo]]
    } else {
        Seq::empty()
    };
    let last = if is_dir {
        seq![EntryChoice::Properties, EntryChoice::AddToFavourites]
    } else {
        seq![EntryChoice::Properties]
    };
    common_choices() + unpack + seq![
        seq![EntryChoice::CopyFilename, EntryChoice::CopyFolderPath],
        seq![EntryChoice::OpenWith],
        last,
    ]
}

/// The groups of choices, as sequences.
pub open spec fn groups(v: Seq<Vec<EntryChoice>>) -> Seq<Seq<EntryChoice>> {
    v.map_values(|g: Vec<EntryChoice>| g@)
}

/// The menu of the entry at `p`, in groups that separators divide.
pub fn entry_menu(p: &str, is_dir: bool) -> (r: Vec<Vec<EntryChoice>>)
    ensures
        groups(r@) == choices_for(p@, is_dir),
{
    let mut r: Vec<Vec<EntryChoice>> = Vec::new();
    r.push(vec![EntryChoice::Copy, EntryChoice::Cut, EntryChoice::Paste]);
    r.push(vec![EntryChoice::Rename, EntryChoice::Delete]);
    r.push(vec![EntryChoice::NewFolder, EntryChoice::NewFile]);
    assert(groups(r@) =~~= common_choices());
    if is_archive(p) {
        r.push(vec![EntryChoice::ExtractHere, EntryChoice::ExtractTo]);
    }
    r.push(vec![EntryChoice::CopyFilename, EntryChoice::CopyFolderPath]);
    r.push(vec![EntryChoice::OpenWith]);
    if is_dir {
        r.push(vec![EntryChoice::Properties, EntryChoice::AddToFavourites]);
    } else {
        r.push(vec![EntryChoice::Properties]);
    }
    assert(groups(r@) =~~= choices_for(p@, is_dir));
    r
}

// ---------------------------------------------------------------------------
// The shell's part
// ---------------------------------------------------------------------------

/// A line of the shell's menu; the number is the place of the item.
#[derive(Debug, Clone, Copy, PartialEq, Eq, Structural)]
pub enum ShellRow {
    Separator,
    Disabled(usize),
    Submenu(usize),
    Command(usize),
}

/// An item is hidden: the user has listed its label.
pub open spec fn is_hidden(item: ShellMenuItem, hidden: Seq<Seq<char>>) -> bool {
    !item.separator && hidden.contains(item.label@)
}

/// How the item at place `i` is shown.
pub open spec fn row_of(item: ShellMenuItem, i: usize) -> ShellRow {
    if item.separator {
        ShellRow::Separator
    } else if item.disabled {
        ShellRow::Disabled(i)
    } else if item.sub_items@.len() > 0 {
        ShellRow::Submenu(i)
    } else {
        ShellRow::Command(i)
    }
}

/// The lines of a shell menu, without the hidden items.
pub open spec fn rows_of(items: Seq<ShellMenuItem>, hidden: Seq<Seq<char>>) -> Seq<ShellRow>
    decreases items.len(),
{
    if items.len() == 0 {
        Seq::empty()
    } else {
        let rest = rows_of(items.drop_last(), hidden);
        if is_hidden(items.last(), hidden) {
            rest
        } else {
            rest.push(row_of(items.last(), (items.len() - 1) as usize))
        }
    }
}

fn hides(hidden: &Vec<String>, label: &str) -> (r: bool)
    ensures
        r == text::texts(hidden@).contains(label@),
{
    match position_of(hidden, label) {
        Some(i) => {
            assert(text::texts(hidden@)[i as int] == label@);
            true
        },
        None => {
            assert forall|j: int| 0 <= j < hidden@.len() implies text::texts(hidden@)[j]
                != label@ by {
                assert(hidden@[j]@ != label@);
            }
            false
        },
    }
}

/// The lines of a shell menu, skipping any item whose label is listed in
/// `hidden` (configured under Settings).
pub fn shell_rows(items: &Vec<ShellMenuItem>, hidden: &Vec<String>) -> (r: Vec<ShellRow>)
    ensures
        r@ == rows_of(items@, text::texts(hidden@)),
{
    let ghost listed = text::texts(hidden@);
    let mut r: Vec<ShellRow> = Vec::new();
    let mut i: usize = 0;
    assert(r@ =~= rows_of(items@.subrange(0, 0), listed));
    while i < items.len()
        invariant
            i <= items.len(),
            listed == text::texts(hidden@),
            r@ == rows_of(items@.subrange(0, i as int), listed),
        decreases items.len() - i,
    {
        let ghost upto = items@.subrange(0, i + 1);
        assert(upto.drop_last() =~= items@.subrange(0, i as int));
        if items[i].separator {
            r.push(ShellRow::Separator);
        } else if !hides(hidden, items[i].label.as_str()) {
            if items[i].disabled {
                r.push(ShellRow::Disabled(i));
            } else if items[i].sub_items.len() > 0 {
                r.push(ShellRow::Submenu(i));
            } else {
                r.push(ShellRow::Command(i));
            }
        }
        i += 1;
    }
    assert(items@.subrange(0, i as int) =~= items@);
    r
}

/// Nothing that the user has hidden is in a shell menu, and nothing else is
/// missing from it.
pub proof fn law_hidden_items_are_left_out(
    items: Seq<ShellMenuItem>,
    hidden: Seq<Seq<char>>,
    i: int,
)
    requires
        0 <= i < items.len(),
        items.len() <= usize::MAX,
        !items[i].separator,
    ensures
        rows_of(items, hidden).contains(row_of(items[i], i as usize)) == !is_hidden(
            items[i],
            hidden,
        ),
    decreases items.len(),
{
    let rest = items.drop_last();
    lemma_rows_are_earlier(rest, hidden);
    let rows = rows_of(rest, hidden);
    let all = rows_of(items, hidden);
    let row = row_of(items[i], i as usize);
    if i < rest.len() {
        law_hidden_items_are_left_out(rest, hidden, i);
        assert(rest[i] == items[i]);
        if rows.contains(row) {
            let k = choose|k: int| 0 <= k < rows.len() && rows[k] == row;
            assert(all[k] == row);
        }
        if all.contains(row) {
            let k = choose|k: int| 0 <= k < all.len() && all[k] == row;
            if k < rows.len() {
                assert(rows[k] == row);
            }
        }
    } else {
        if !is_hidden(items[i], hidden) {
            assert(all[rows.len() as int] == row);
        } else if all.contains(row) {
            let k = choose|k: int| 0 <= k < all.len() && all[k] == row;
            assert(place_of(rows[k]) < rest.len() as int);
        }
    }
}

/// The place of the item that a line shows.
pub open spec fn place_of(row: ShellRow) -> int {
    match row {
        ShellRow::Separator => -1,
        ShellRow::Disabled(i) => i as int,
        ShellRow::Submenu(i) => i as int,
        ShellRow::Command(i) => i as int,
    }
}

proof fn lemma_rows_are_earlier(items: Seq<ShellMenuItem>, hidden: Seq<Seq<char>>)
    requires
        items.len() <= usize::MAX,
    ensures
        forall|k: int|
            0 <= k < rows_of(items, hidden).len() ==> place_of(
                #[trigger] rows_of(items, hidden)[k],
            ) < items.len() as int,
    decreases items.len(),
{
    if items.len() > 0 {
        let rest = rows_of(items.drop_last(), hidden);
        let all = rows_of(items, hidden);
        lemma_rows_are_earlier(items.drop_last(), hidden);
        assert forall|k: int| 0 <= k < all.len() implies place_of(#[trigger] all[k])
            < items.len() as int by {
            if k < rest.len() {
                assert(all[k] == rest[k]);
                assert(place_of(rest[k]) < items.drop_last().len() as int);
            }
        }
    }
}

/// The shell's menu is offered if anything of it is left.
pub fn has_shell_menu(items: &Vec<ShellMenuItem>, hidden: &Vec<String>) -> (r: bool)
    ensures
        r == (rows_of(items@, text::texts(hidden@)).len() > 0),
{
    shell_rows(items, hidden).len() > 0
}

/// Two selections are of the same items.
pub open spec fn same_paths(a: Seq<Seq<char>>, b: Seq<Seq<char>>) -> bool {
    a.len() == b.len() && forall|i: int| 0 <= i < a.len() ==> path::same_path(#[trigger] a[i], b[i])
}

/// The shell's menu for a selection. Asking the shell takes long, so what it
/// said is kept while the selection is the same.
#[derive(Debug, PartialEq)]
pub struct ShellMenuCache {
    pub paths: Vec<String>,
    pub items: Vec<ShellMenuItem>,
}

/// Whether the shell has to be asked again.
pub fn shell_menu_stale(cache: &Option<ShellMenuCache>, selection: &Vec<String>) -> (r: bool)
    ensures
        r == (match cache {
            Some(c) => !same_paths(text::texts(c.paths@), text::texts(selection@)),
            None => true,
        }),
{
    match cache {
        Some(c) => {
            let ghost a = text::texts(c.paths@);
            let ghost b = text::texts(selection@);
            if c.paths.len() != selection.len() {
                return true;
            }
            let mut i: usize = 0;
            while i < selection.len()
                invariant
                    i <= selection.len(),
                    *cache == Some(*c),
                    c.paths.len() == selection.len(),
                    a == text::texts(c.paths@),
                    b == text::texts(selection@),
                    forall|j: int| 0 <= j < i ==> path::same_path(#[trigger] a[j], b[j]),
                decreases selection.len() - i,
            {
                if !is_same_path(c.paths[i].as_str(), selection[i].as_str()) {
                    assert(!path::same_path(a[i as int], b[i as int]));
                    return true;
                }
                i += 1;
            }
            false
        },
        None => true,
    }
}

/// Every entry offers to be copied, cut, renamed, deleted and opened with a
/// program, and has properties. Archives, and nothing else, offer to be
/// unpacked; folders, and nothing else, to be favourites.
pub proof fn law_the_menu_fits_the_entry(
    p: &str,
    is_dir: bool,
    r: Vec<Vec<EntryChoice>>,
    c: EntryChoice,
)
    requires
        call_ensures(entry_menu, (p, is_dir), r),
    ensures
        (exists|i: int, j: int|
            0 <= i < r@.len() && 0 <= j < r@[i]@.len() && #[trigger] r@[i]@[j] == c) <==> (match c {
            EntryChoice::ExtractHere => archive::names_archive(p@),
            EntryChoice::ExtractTo => archive::names_archive(p@),
            EntryChoice::AddToFavourites => is_dir,
            _ => true,
        }),
{
    let g = groups(r@);
    let n = g.len() as int;
    assert(n == r@.len());
    assert forall|i: int| 0 <= i < n implies g[i] == (#[trigger] r@[i])@ by {}
    let unpack = archive::names_archive(p@);
    let a: int = if unpack {
        4
    } else {
        3
    };
    assert(n == a + 3);
    assert(g[0] =~= seq![EntryChoice::Copy, EntryChoice::Cut, EntryChoice::Paste]);
    assert(g[1] =~= seq![EntryChoice::Rename, EntryChoice::Delete]);
    assert(g[2] =~= seq![EntryChoice::NewFolder, EntryChoice::NewFile]);
    if unpack {
        assert(g[3] =~= seq![EntryChoice::ExtractHere, EntryChoice::ExtractTo]);
    }
    assert(g[a] =~= seq![EntryChoice::CopyFilename, EntryChoice::CopyFolderPath]);
    assert(g[a + 1] =~= seq![EntryChoice::OpenWith]);
    assert(g[a + 2][0] == EntryChoice::Properties);
    if is_dir {
        assert(g[a + 2] =~= seq![EntryChoice::Properties, EntryChoice::AddToFavourites]);
    } else {
        assert(g[a + 2] =~= seq![EntryChoice::Properties]);
    }
    let (i, j): (int, int) = match c {
        EntryChoice::Copy => (0, 0),
        EntryChoice::Cut => (0, 1),
        EntryChoice::Paste => (0, 2),
        EntryChoice::Rename => (1, 0),
        EntryChoice::Delete => (1, 1),
        EntryChoice::NewFolder => (2, 0),
        EntryChoice::NewFile => (2, 1),
        EntryChoice::ExtractHere => (3, 0),
        EntryChoice::ExtractTo => (3, 1),
        EntryChoice::CopyFilename => (a, 0),
        EntryChoice::CopyFolderPath => (a, 1),
        EntryChoice::OpenWith => (a + 1, 0),
        EntryChoice::Properties => (a + 2, 0),
        EntryChoice::AddToFavourites => (a + 2, 1),
    };
    if match c {
        EntryChoice::ExtractHere => unpack,
        EntryChoice::ExtractTo => unpack,
        EntryChoice::AddToFavourites => is_dir,
        _ => true,
    } {
        assert(r@[i]@ == g[i]);
        assert(r@[i]@[j] == c);
    } else if exists|x: int, y: int|
        0 <= x < r@.len() && 0 <= y < r@[x]@.len() && #[trigger] r@[x]@[y] == c {
        let (x, y) = choose|x: int, y: int|
            0 <= x < r@.len() && 0 <= y < r@[x]@.len() && #[trigger] r@[x]@[y] == c;
        assert(r@[x]@ == g[x]);
        assert(x == 0 || x == 1 || x == 2 || x == 3 || x == 4 || x == 5 || x == 6);
    }
}

/// An item of the shell's menu is left out just where the user has listed its
/// label; else it is shown as what it is: greyed out, with its submenu, or as a
/// command.
pub proof fn law_listed_labels_are_left_out(
    items: &Vec<ShellMenuItem>,
    hidden: &Vec<String>,
    r: Vec<ShellRow>,
    i: int,
)
    requires
        call_ensures(shell_rows, (items, hidden), r),
        0 <= i < items@.len(),
        !items@[i].separator,
    ensures
        r@.contains(
            if items@[i].disabled {
                ShellRow::Disabled(i as usize)
            } else if items@[i].sub_items@.len() > 0 {
                ShellRow::Submenu(i as usize)
            } else {
                ShellRow::Command(i as usize)
            },
        ) <==> !text::texts(hidden@).contains(items@[i].label@),
{
    assert(items@.len() == items.len());
    law_hidden_items_are_left_out(items@, text::texts(hidden@), i);
}

/// The shell is asked again just where the selection is another one: of another
/// size, or with another path at some place.
pub proof fn law_the_shell_is_asked_for_new_selections(
    c: ShellMenuCache,
    cache: &Option<ShellMenuCache>,
    selection: &Vec<String>,
    r: bool,
)
    requires
        call_ensures(shell_menu_stale, (cache, selection), r),
    ensures
        *cache is None ==> r,
        *cache == Some(c) ==> (r <==> c.paths@.len() != selection@.len() || exists|i: int|
            0 <= i < selection@.len() && !path::same_path(
                (#[trigger] c.paths@[i])@,
                selection@[i]@,
            )),
{
    if *cache == Some(c) {
        let a = text::texts(c.paths@);
        let b = text::texts(selection@);
        assert(a.len() == c.paths@.len() && b.len() == selection@.len());
        if r && a.len() == b.len() {
            let i = choose|i: int| 0 <= i < a.len() && !path::same_path(#[trigger] a[i], b[i]);
            assert(!path::same_path(c.paths@[i]@, selection@[i]@));
        }
        if exists|i: int|
            0 <= i < selection@.len() && !path::same_path(
                (#[trigger] c.paths@[i])@,
                selection@[i]@,
            ) {
            let i = choose|i: int|
                0 <= i < selection@.len() && !path::same_path(
                    (#[trigger] c.paths@[i])@,
                    selection@[i]@,
                );
            if a.len() == b.len() {
                assert(!path::same_path(a[i], b[i]));
            }
        }
    }
}

/// What is chosen from the menu of an entry is done to that entry.
pub proof fn law_choices_are_about_the_entry(c: EntryChoice, p: String, r: RowAction)
    requires
        call_ensures(EntryChoice::action, (c, p), r),
    ensures
        c == EntryChoice::OpenWith <==> r == RowAction::OpenWith(p),
        c == EntryChoice::Properties <==> r == RowAction::Properties(p),
        c == EntryChoice::AddToFavourites <==> r == RowAction::FavouriteFolder(p),
        c == EntryChoice::Delete <==> r == RowAction::Delete,
        c == EntryChoice::Cut <==> r == RowAction::Cut,
        c == EntryChoice::Copy <==> r == RowAction::Copy,
        c == EntryChoice::Paste <==> r == RowAction::Paste,
        c == EntryChoice::Rename <==> r == RowAction::Rename,
        c == EntryChoice::ExtractHere <==> r == RowAction::ExtractHere,
        c == EntryChoice::ExtractTo <==> r == RowAction::ExtractTo,
{
}

} // verus!
